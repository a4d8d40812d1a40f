//! A whole walk through the leaderboard as a mathematical object, and what
//! holds of every walk.
//!
//! A walk is what comes of running the driver against a service: the
//! requests made, in order, and the rows sent to the output, in order. The
//! service is any function from requests to pages.

use vstd::prelude::*;
use crate::data::{PageView, UserView};
use crate::filter::{
    above, descending, lemma_above_is_a_prefix, lemma_descending_page_keeps_the_prefix_above,
};
use crate::paging::{
    forwarded, is_empty_page, offset_of, page_count, pending, start, step, stops, DriverView,
    Fetch, Phase, PAGE_SIZE,
};
use crate::sink::csv_text;

verus! {

/// What a walk did.
pub struct Walk {
    /// The requests made, in order.
    pub requests: Seq<Fetch>,
    /// The rows sent to the output, in order.
    pub rows: Seq<UserView>,
    /// Whether the walk ended on a page that is an error.
    pub failed: bool,
}

/// A bound on the requests that a walk in this phase still makes, once the
/// number of pages is known.
pub open spec fn steps_left(phase: Phase) -> int {
    match phase {
        Phase::First => 0,
        Phase::Next { index, last } => if index < last {
            last - index + 1
        } else {
            1
        },
        Phase::Done => 0,
    }
}

/// The walk that begins in `state` against `service`: request, page, rows,
/// and again, until no request is pending or a page is an error.
pub open spec fn walk(state: DriverView, service: spec_fn(Fetch) -> PageView) -> Walk
    decreases
        (if state.phase is First {
            1int
        } else {
            0int
        }),
        steps_left(state.phase),
{
    match pending(state) {
        None => Walk { requests: Seq::empty(), rows: Seq::empty(), failed: false },
        Some(fetch) => {
            let page = service(fetch);
            match forwarded(state, page) {
                None => Walk { requests: seq![fetch], rows: Seq::empty(), failed: true },
                Some(rows) => {
                    let rest = walk(step(state, page), service);
                    Walk {
                        requests: seq![fetch] + rest.requests,
                        rows: rows + rest.rows,
                        failed: rest.failed,
                    }
                },
            }
        },
    }
}

/// The request that a walk makes in place `k`, counted from zero: the first
/// without an offset, the one in place `k` for page `k + 1`.
pub open spec fn nth_request(k: int) -> Fetch {
    if k == 0 {
        Fetch { offset: None }
    } else {
        Fetch { offset: Some(offset_of(k + 1)) }
    }
}

/// The users of the pages that answer `requests`, one page after the other.
pub open spec fn fetched_users(
    service: spec_fn(Fetch) -> PageView,
    requests: Seq<Fetch>,
) -> Seq<UserView>
    decreases requests.len(),
{
    if requests.len() == 0 {
        Seq::empty()
    } else {
        service(requests.first()).users + fetched_users(service, requests.drop_first())
    }
}

/// A walk that has passed the first page: it asks for the pages from
/// `index` on, one after the other, and ends before page `last` only on a
/// page that stops it.
proof fn lemma_walk_past_the_first_page(
    cutoff: Option<u64>,
    index: u64,
    last: u64,
    service: spec_fn(Fetch) -> PageView,
)
    requires
        2 <= index <= last,
    ensures
        ({
            let w = walk(DriverView { cutoff, phase: Phase::Next { index, last } }, service);
            &&& 1 <= w.requests.len() <= last - index + 1
            &&& forall|k: int|
                0 <= k < w.requests.len() ==> #[trigger] w.requests[k] == nth_request(
                    index - 1 + k,
                )
            &&& forall|k: int|
                0 <= k < w.requests.len() - 1 ==> !stops(
                    cutoff,
                    service(#[trigger] w.requests[k]),
                )
            &&& w.requests.len() < last - index + 1 ==> stops(cutoff, service(w.requests.last()))
            &&& w.failed <==> is_empty_page(service(w.requests.last()))
        }),
    decreases last - index,
{
    let state = DriverView { cutoff, phase: Phase::Next { index, last } };
    let fetch = nth_request(index - 1);
    let page = service(fetch);
    let w = walk(state, service);
    let rest = walk(step(state, page), service);
    if stops(cutoff, page) || index >= last {
        // Nothing follows this page.
        assert(rest.requests.len() == 0);
        assert(w.requests =~= seq![fetch]);
    } else {
        // The walk goes on with the next page, and what is left of it is the
        // walk from there.
        lemma_walk_past_the_first_page(cutoff, (index + 1) as u64, last, service);
        assert(w.requests == seq![fetch] + rest.requests);
        assert forall|k: int| 0 <= k < w.requests.len() implies #[trigger] w.requests[k]
            == nth_request(index - 1 + k) by {}
        assert forall|k: int| 0 <= k < w.requests.len() - 1 implies !stops(
            cutoff,
            service(#[trigger] w.requests[k]),
        ) by {}
    }
}

/// Every walk asks for the pages in order: the first without an offset, the
/// one after it for page two at offset `2 * PAGE_SIZE`, and so on, each
/// `PAGE_SIZE` further. It makes at least one request and at most as many as
/// the first page's count calls for, and it ends before that only on a page
/// that stops it: one that is empty against its own count, or one that
/// reaches the cutoff. It fails exactly when its last page is such an empty
/// one.
pub proof fn lemma_requests_in_order(cutoff: Option<u64>, service: spec_fn(Fetch) -> PageView)
    ensures
        ({
            let w = walk(start(cutoff), service);
            let pages = page_count(service(nth_request(0)).total);
            &&& 1 <= w.requests.len() <= pages
            &&& forall|k: int|
                0 <= k < w.requests.len() ==> #[trigger] w.requests[k] == nth_request(k)
            &&& forall|k: int|
                0 <= k < w.requests.len() - 1 ==> !stops(
                    cutoff,
                    service(#[trigger] w.requests[k]),
                )
            &&& w.requests.len() < pages ==> stops(cutoff, service(w.requests.last()))
            &&& w.failed <==> is_empty_page(service(w.requests.last()))
        }),
{
    let state = start(cutoff);
    let fetch = nth_request(0);
    let page = service(fetch);
    let pages = page_count(page.total);
    let w = walk(state, service);
    let rest = walk(step(state, page), service);
    if stops(cutoff, page) || pages < 2 {
        // Nothing follows the first page.
        assert(rest.requests.len() == 0);
        assert(w.requests =~= seq![fetch]);
    } else {
        // The walk goes on with page two.
        lemma_walk_past_the_first_page(cutoff, 2, pages as u64, service);
        assert(w.requests == seq![fetch] + rest.requests);
        assert forall|k: int| 0 <= k < w.requests.len() implies #[trigger] w.requests[k]
            == nth_request(k) by {}
        assert forall|k: int| 0 <= k < w.requests.len() - 1 implies !stops(
            cutoff,
            service(#[trigger] w.requests[k]),
        ) by {}
    }
}

/// A leaderboard that fits one page takes exactly one request, which
/// carries no offset, whatever the cutoff does to the page.
pub proof fn lemma_short_leaderboard_takes_one_request(
    cutoff: Option<u64>,
    service: spec_fn(Fetch) -> PageView,
)
    requires
        service(Fetch { offset: None }).total < PAGE_SIZE,
    ensures
        walk(start(cutoff), service).requests == seq![Fetch { offset: None }],
{
    lemma_requests_in_order(cutoff, service);
    let w = walk(start(cutoff), service);
    assert(w.requests[0] == nth_request(0));
    assert(w.requests =~= seq![Fetch { offset: None }]);
}

/// Rounding `total / PAGE_SIZE` up gives the number of pages of a
/// leaderboard that fills at least one page.
pub proof fn lemma_page_count_rounds_up(total: u64)
    requires
        total >= PAGE_SIZE,
    ensures
        page_count(total) == (total + PAGE_SIZE - 1) / (PAGE_SIZE as int),
        page_count(total) * PAGE_SIZE >= total,
        (page_count(total) - 1) * PAGE_SIZE < total,
{
}

/// A walk that no page stops asks for every page: where the first page
/// declares at least `PAGE_SIZE` records, it makes as many requests as
/// `total / PAGE_SIZE` rounded up, the first without an offset and the one
/// for page `k` at offset `k * PAGE_SIZE`, and it does not fail.
pub proof fn lemma_unbroken_walk_asks_for_every_page(
    cutoff: Option<u64>,
    service: spec_fn(Fetch) -> PageView,
)
    requires
        service(nth_request(0)).total >= PAGE_SIZE,
        forall|k: int|
            0 <= k < page_count(service(nth_request(0)).total) ==> !stops(
                cutoff,
                service(#[trigger] nth_request(k)),
            ),
    ensures
        ({
            let total = service(nth_request(0)).total;
            let w = walk(start(cutoff), service);
            &&& w.requests.len() == (total + PAGE_SIZE - 1) / (PAGE_SIZE as int)
            &&& w.requests[0] == (Fetch { offset: None })
            &&& forall|k: int|
                2 <= k <= w.requests.len() ==> (#[trigger] w.requests[k - 1]).offset == Some(
                    (k * PAGE_SIZE) as u128,
                )
            &&& !w.failed
        }),
{
    lemma_requests_in_order(cutoff, service);
    lemma_page_count_rounds_up(service(nth_request(0)).total);
    let w = walk(start(cutoff), service);
    let end = w.requests.len() - 1;
    assert(w.requests[end] == nth_request(end));
    assert(!stops(cutoff, service(nth_request(end))));
    assert forall|k: int| 2 <= k <= w.requests.len() implies (#[trigger] w.requests[k
        - 1]).offset == Some((k * PAGE_SIZE) as u128) by {
        assert(w.requests[k - 1] == nth_request(k - 1));
    }
}

/// Without a cutoff, the rows of a walk are the users of its pages.
proof fn lemma_rows_without_cutoff(state: DriverView, service: spec_fn(Fetch) -> PageView)
    requires
        state.cutoff is None,
    ensures
        walk(state, service).rows == fetched_users(service, walk(state, service).requests),
    decreases
        (if state.phase is First {
            1int
        } else {
            0int
        }),
        steps_left(state.phase),
{
    let w = walk(state, service);
    if let Some(fetch) = pending(state) {
        let page = service(fetch);
        assert(w.requests.first() == fetch);
        if forwarded(state, page) is Some {
            let rest = walk(step(state, page), service);
            lemma_rows_without_cutoff(step(state, page), service);
            assert(w.requests.drop_first() =~= rest.requests);
        } else {
            assert(w.requests.drop_first() =~= Seq::<Fetch>::empty());
            assert(page.users =~= Seq::<UserView>::empty());
            assert(fetched_users(service, w.requests.drop_first()) =~= Seq::<UserView>::empty());
            assert(fetched_users(service, w.requests) =~= Seq::<UserView>::empty());
        }
    }
}

/// Without a cutoff nothing is filtered and nothing ends the walk early:
/// the rows written are the users of every page asked for, page after page
/// in the order of the requests, and the walk asks for every page that the
/// first page's count calls for, unless it fails on an empty page.
pub proof fn lemma_without_cutoff_every_user_is_written(service: spec_fn(Fetch) -> PageView)
    ensures
        ({
            let w = walk(start(None), service);
            &&& w.rows == fetched_users(service, w.requests)
            &&& w.failed || w.requests.len() == page_count(service(nth_request(0)).total)
        }),
{
    lemma_rows_without_cutoff(start(None), service);
    lemma_requests_in_order(None, service);
}

/// With a cutoff and pages in descending order, the rows of a walk are the
/// users above the cutoff among the users of its pages.
proof fn lemma_rows_with_cutoff(
    state: DriverView,
    cutoff: u64,
    service: spec_fn(Fetch) -> PageView,
)
    requires
        state.cutoff == Some(cutoff),
        forall|k: int|
            0 <= k < walk(state, service).requests.len() ==> descending(
                service(#[trigger] walk(state, service).requests[k]).users,
            ),
    ensures
        walk(state, service).rows == above(
            fetched_users(service, walk(state, service).requests),
            cutoff,
        ),
    decreases
        (if state.phase is First {
            1int
        } else {
            0int
        }),
        steps_left(state.phase),
{
    reveal(Seq::filter);
    let w = walk(state, service);
    if let Some(fetch) = pending(state) {
        let page = service(fetch);
        assert(w.requests[0] == fetch);
        lemma_descending_page_keeps_the_prefix_above(page.users, cutoff);
        if forwarded(state, page) is Some {
            let rest = walk(step(state, page), service);
            assert(w.requests.drop_first() =~= rest.requests);
            assert forall|k: int| 0 <= k < rest.requests.len() implies descending(
                service(#[trigger] rest.requests[k]).users,
            ) by {
                assert(w.requests[k + 1] == rest.requests[k]);
            }
            lemma_rows_with_cutoff(step(state, page), cutoff, service);
            Seq::filter_distributes_over_add(
                page.users,
                fetched_users(service, rest.requests),
                |u: UserView| u.points > cutoff,
            );
        } else {
            assert(w.requests.drop_first() =~= Seq::<Fetch>::empty());
            assert(page.users =~= Seq::<UserView>::empty());
            assert(fetched_users(service, w.requests.drop_first()) =~= Seq::<UserView>::empty());
            assert(fetched_users(service, w.requests) =~= Seq::<UserView>::empty());
        }
    } else {
        assert(fetched_users(service, w.requests) =~= Seq::<UserView>::empty());
    }
}

/// Where every page asked for is in descending order, the rows written are
/// exactly the users with more points than the cutoff among the users of the
/// pages asked for, in their order: no user with the cutoff's points or fewer
/// is written, and none with more is left out.
pub proof fn lemma_rows_are_the_users_above_the_cutoff(
    cutoff: u64,
    service: spec_fn(Fetch) -> PageView,
)
    requires
        forall|k: int|
            0 <= k < walk(start(Some(cutoff)), service).requests.len() ==> descending(
                service(#[trigger] walk(start(Some(cutoff)), service).requests[k]).users,
            ),
    ensures
        walk(start(Some(cutoff)), service).rows == above(
            fetched_users(service, walk(start(Some(cutoff)), service).requests),
            cutoff,
        ),
{
    lemma_rows_with_cutoff(start(Some(cutoff)), cutoff, service);
}

/// Where the users of some pages, taken one page after the other, are in
/// descending order, so are the users of each of the pages.
proof fn lemma_pages_of_a_descending_whole(
    service: spec_fn(Fetch) -> PageView,
    requests: Seq<Fetch>,
    k: int,
)
    requires
        descending(fetched_users(service, requests)),
        0 <= k < requests.len(),
    ensures
        descending(service(requests[k]).users),
    decreases requests.len(),
{
    let head = service(requests.first()).users;
    let tail = fetched_users(service, requests.drop_first());
    let whole = fetched_users(service, requests);
    assert(whole == head + tail);
    if k == 0 {
        assert forall|i: int, j: int| 0 <= i <= j < head.len() implies head[i].points
            >= head[j].points by {
            assert(whole[i] == head[i] && whole[j] == head[j]);
        }
    } else {
        assert forall|i: int, j: int| 0 <= i <= j < tail.len() implies tail[i].points
            >= tail[j].points by {
            assert(whole[head.len() + i] == tail[i] && whole[head.len() + j] == tail[j]);
        }
        lemma_pages_of_a_descending_whole(service, requests.drop_first(), k - 1);
    }
}

/// Where the users of the pages asked for, taken one page after the other,
/// are in descending order, the rows written are the first of them: all
/// those with more points than the cutoff, and no other. The first user that
/// is not written, if there is one, has the cutoff's points or fewer.
pub proof fn lemma_rows_are_the_prefix_above_the_cutoff(
    cutoff: u64,
    service: spec_fn(Fetch) -> PageView,
)
    requires
        descending(
            fetched_users(service, walk(start(Some(cutoff)), service).requests),
        ),
    ensures
        ({
            let w = walk(start(Some(cutoff)), service);
            let fetched = fetched_users(service, w.requests);
            &&& w.rows.len() <= fetched.len()
            &&& w.rows == fetched.take(w.rows.len() as int)
            &&& forall|i: int|
                0 <= i < fetched.len() ==> (fetched[i].points > cutoff <==> i < w.rows.len())
        }),
{
    let w = walk(start(Some(cutoff)), service);
    let fetched = fetched_users(service, w.requests);
    assert forall|k: int| 0 <= k < w.requests.len() implies descending(
        service(#[trigger] w.requests[k]).users,
    ) by {
        lemma_pages_of_a_descending_whole(service, w.requests, k);
    }
    lemma_rows_are_the_users_above_the_cutoff(cutoff, service);
    lemma_above_is_a_prefix(fetched, cutoff);
}

/// A leaderboard of a single page in descending order: the walk makes one
/// request, and writes exactly the users with more points than the cutoff,
/// which are the page's first users.
pub proof fn lemma_single_descending_page(cutoff: u64, service: spec_fn(Fetch) -> PageView)
    requires
        page_count(service(Fetch { offset: None }).total) == 1,
        descending(service(Fetch { offset: None }).users),
    ensures
        ({
            let users = service(Fetch { offset: None }).users;
            let w = walk(start(Some(cutoff)), service);
            &&& w.requests == seq![Fetch { offset: None }]
            &&& w.rows == above(users, cutoff)
            &&& w.rows == users.take(w.rows.len() as int)
        }),
{
    let users = service(Fetch { offset: None }).users;
    let w = walk(start(Some(cutoff)), service);
    lemma_requests_in_order(Some(cutoff), service);
    assert(w.requests[0] == nth_request(0));
    assert(w.requests =~= seq![Fetch { offset: None }]);
    lemma_descending_page_keeps_the_prefix_above(users, cutoff);
    lemma_rows_are_the_users_above_the_cutoff(cutoff, service);
    assert(w.requests.drop_first() =~= Seq::<Fetch>::empty());
    assert(fetched_users(service, w.requests.drop_first()) =~= Seq::<UserView>::empty());
    assert(fetched_users(service, w.requests) =~= users);
}

/// Two walks that begin in the same state and get the same answers are the
/// same walk.
proof fn lemma_same_answers_same_walk_from(
    state: DriverView,
    first: spec_fn(Fetch) -> PageView,
    second: spec_fn(Fetch) -> PageView,
)
    requires
        forall|k: int|
            0 <= k < walk(state, first).requests.len() ==> second(
                #[trigger] walk(state, first).requests[k],
            ) == first(walk(state, first).requests[k]),
    ensures
        walk(state, second) == walk(state, first),
    decreases
        (if state.phase is First {
            1int
        } else {
            0int
        }),
        steps_left(state.phase),
{
    let w = walk(state, first);
    if let Some(fetch) = pending(state) {
        let page = first(fetch);
        assert(w.requests[0] == fetch);
        assert(second(fetch) == page);
        if forwarded(state, page) is Some {
            let rest = walk(step(state, page), first);
            assert forall|k: int| 0 <= k < rest.requests.len() implies second(
                #[trigger] rest.requests[k],
            ) == first(rest.requests[k]) by {
                assert(w.requests[k + 1] == rest.requests[k]);
            }
            lemma_same_answers_same_walk_from(step(state, page), first, second);
        }
    }
}

/// Running an export again gives the same result as long as the service
/// gives the same answers: a walk that gets, for each of its requests, the
/// page that an earlier walk with the same cutoff got, makes the same
/// requests and writes the same rows, and so the same CSV text. What the
/// service would answer to other requests does not matter.
pub proof fn lemma_same_answers_same_walk(
    cutoff: Option<u64>,
    first: spec_fn(Fetch) -> PageView,
    second: spec_fn(Fetch) -> PageView,
)
    requires
        forall|k: int|
            0 <= k < walk(start(cutoff), first).requests.len() ==> second(
                #[trigger] walk(start(cutoff), first).requests[k],
            ) == first(walk(start(cutoff), first).requests[k]),
    ensures
        walk(start(cutoff), second) == walk(start(cutoff), first),
        csv_text(walk(start(cutoff), second).rows) == csv_text(walk(start(cutoff), first).rows),
{
    lemma_same_answers_same_walk_from(start(cutoff), first, second);
}

} // verus!
