//! The cutoff filter: decides from the last user of a page whether the point
//! cutoff has been reached, and what of the page survives.
//!
//! The cutoff is an exclusive floor: a user goes on to the output only with
//! more points than the cutoff. The service is taken to list users by
//! descending points. Only this module relies on that order: it looks at the
//! last user alone to tell whether the cutoff lies within or before a page.

use vstd::prelude::*;
use crate::data::{user_views, User, UserView};

verus! {

/// What becomes of a page.
#[derive(Debug, Clone, PartialEq, Eq)]
pub enum FilterOutcome {
    /// The whole page goes on unchanged, and the walk continues.
    KeepAll,
    /// Only these users go on, and the walk ends with this page.
    KeepPartialAndStop(Vec<User>),
}

/// The users with more points than `cutoff`, in the order of the page.
pub open spec fn above(users: Seq<UserView>, cutoff: u64) -> Seq<UserView> {
    users.filter(|u: UserView| u.points > cutoff)
}

/// Whether a page shows that the cutoff has been reached: there is a cutoff,
/// and the page's last user does not have more points than it.
pub open spec fn crosses(users: Seq<UserView>, cutoff: Option<u64>) -> bool {
    cutoff matches Some(c) && users.len() > 0 && users.last().points <= c
}

/// The users of a page that go on to the output.
pub open spec fn survivors(users: Seq<UserView>, cutoff: Option<u64>) -> Seq<UserView> {
    if crosses(users, cutoff) {
        above(users, cutoff.unwrap())
    } else {
        users
    }
}

/// Whether the users are listed by descending points.
pub open spec fn descending(users: Seq<UserView>) -> bool {
    forall|i: int, j: int| 0 <= i <= j < users.len() ==> users[i].points >= users[j].points
}

/// Copies of the users with more points than `cutoff`, in the order of the
/// page.
pub fn keep_above(users: &Vec<User>, cutoff: u64) -> (kept: Vec<User>)
    ensures
        user_views(kept@) == above(user_views(users@), cutoff),
{
    let ghost pred = |u: UserView| u.points > cutoff;
    let mut kept: Vec<User> = Vec::new();
    let mut i: usize = 0;
    proof {
        reveal(Seq::filter);
        assert(user_views(users@).take(0) =~= Seq::<UserView>::empty());
        assert(user_views(kept@) =~= Seq::<UserView>::empty());
    }
    while i < users.len()
        invariant
            i <= users.len(),
            pred == (|u: UserView| u.points > cutoff),
            user_views(kept@) == user_views(users@).take(i as int).filter(pred),
        decreases users.len() - i,
    {
        let user = &users[i];
        let ghost before = user_views(users@).take(i as int);
        let ghost old_kept = kept@;
        proof {
            assert(user_views(users@).take(i + 1) =~= before.push(user@));
            before.lemma_filter_push(user@, pred);
        }
        if user.points() > cutoff {
            kept.push(user.duplicate());
            assert(user_views(kept@) =~= user_views(old_kept).push(user@));
        }
        i += 1;
    }
    assert(user_views(users@).take(i as int) =~= user_views(users@));
    kept
}

/// Judges one page against the cutoff.
///
/// The page is kept whole without a cutoff, when it is empty, and while its
/// last user has more points than the cutoff. In every other case, which is
/// when the last user has exactly the cutoff's points or fewer, the page is
/// cut and the walk stopped; what is kept then are the users with more
/// points than the cutoff.
pub fn evaluate(users: &Vec<User>, cutoff: Option<u64>) -> (outcome: FilterOutcome)
    ensures
        match outcome {
            FilterOutcome::KeepAll => !crosses(user_views(users@), cutoff),
            FilterOutcome::KeepPartialAndStop(kept) => crosses(user_views(users@), cutoff)
                && user_views(kept@) == above(user_views(users@), cutoff.unwrap()),
        },
{
    match cutoff {
        None => FilterOutcome::KeepAll,
        Some(c) => {
            let n = users.len();
            if n == 0 {
                FilterOutcome::KeepAll
            } else if users[n - 1].points() <= c {
                FilterOutcome::KeepPartialAndStop(keep_above(users, c))
            } else {
                FilterOutcome::KeepAll
            }
        },
    }
}

/// Where every user has more points than the cutoff, all of them are above
/// it.
pub proof fn lemma_above_keeps_all(users: Seq<UserView>, cutoff: u64)
    requires
        forall|i: int| 0 <= i < users.len() ==> users[i].points > cutoff,
    ensures
        above(users, cutoff) == users,
    decreases users.len(),
{
    reveal(Seq::filter);
    if users.len() > 0 {
        let front = users.drop_last();
        assert forall|i: int| 0 <= i < front.len() implies front[i].points > cutoff by {
            assert(front[i] == users[i]);
        }
        lemma_above_keeps_all(front, cutoff);
        assert(front.push(users.last()) =~= users);
    }
}

/// Of users listed by descending points, those above the cutoff are the
/// first ones, and none of the others is above it.
pub proof fn lemma_above_is_a_prefix(users: Seq<UserView>, cutoff: u64)
    requires
        descending(users),
    ensures
        above(users, cutoff).len() <= users.len(),
        above(users, cutoff) == users.take(above(users, cutoff).len() as int),
        forall|i: int|
            0 <= i < users.len() ==> (users[i].points > cutoff <==> i < above(
                users,
                cutoff,
            ).len()),
    decreases users.len(),
{
    reveal(Seq::filter);
    if users.len() == 0 {
        assert(users.take(0) =~= users);
    } else if users.last().points > cutoff {
        assert forall|i: int| 0 <= i < users.len() implies users[i].points > cutoff by {
            assert(users[i].points >= users[users.len() - 1].points);
        }
        lemma_above_keeps_all(users, cutoff);
        assert(users.take(users.len() as int) =~= users);
    } else {
        let front = users.drop_last();
        assert forall|i: int, j: int| 0 <= i <= j < front.len() implies front[i].points
            >= front[j].points by {
            assert(front[i] == users[i] && front[j] == users[j]);
        }
        lemma_above_is_a_prefix(front, cutoff);
        let k = above(front, cutoff).len() as int;
        assert(front.take(k) =~= users.take(k));
        assert forall|i: int| 0 <= i < users.len() implies (users[i].points > cutoff <==> i
            < k) by {
            if i < front.len() {
                assert(front[i] == users[i]);
            }
        }
    }
}

/// On a page in descending order, what goes on to the output are exactly
/// the users with more points than the cutoff, and they are the page's first
/// users.
pub proof fn lemma_descending_page_keeps_the_prefix_above(users: Seq<UserView>, cutoff: u64)
    requires
        descending(users),
    ensures
        survivors(users, Some(cutoff)) == above(users, cutoff),
        survivors(users, Some(cutoff)) == users.take(above(users, cutoff).len() as int),
        forall|i: int|
            0 <= i < users.len() ==> (users[i].points > cutoff <==> i < survivors(
                users,
                Some(cutoff),
            ).len()),
{
    lemma_above_is_a_prefix(users, cutoff);
    if !crosses(users, Some(cutoff)) {
        // The last user is above the cutoff, and so is everyone before.
        assert forall|i: int| 0 <= i < users.len() implies users[i].points > cutoff by {
            assert(users[i].points >= users[users.len() - 1].points);
        }
        lemma_above_keeps_all(users, cutoff);
    }
}

/// Every user that a cut page sends on has more points than the cutoff.
pub proof fn lemma_kept_users_exceed_the_cutoff(users: Seq<UserView>, cutoff: u64, k: int)
    requires
        0 <= k < above(users, cutoff).len(),
    ensures
        above(users, cutoff)[k].points > cutoff,
{
    users.lemma_filter_pred(|u: UserView| u.points > cutoff, k);
}

/// The cutoff is an exclusive floor. A user with more points than the
/// cutoff, be it a single point more, goes on to the output from every page.
/// A user with exactly the cutoff's points, or fewer, goes on from no page in
/// descending order.
pub proof fn lemma_cutoff_is_exclusive(users: Seq<UserView>, cutoff: u64, i: int)
    requires
        0 <= i < users.len(),
    ensures
        users[i].points > cutoff ==> survivors(users, Some(cutoff)).contains(users[i]),
        descending(users) && users[i].points <= cutoff ==> !survivors(
            users,
            Some(cutoff),
        ).contains(users[i]),
{
    let kept = survivors(users, Some(cutoff));
    if users[i].points > cutoff {
        if crosses(users, Some(cutoff)) {
            users.lemma_filter_contains(|u: UserView| u.points > cutoff, i);
        } else {
            assert(kept[i] == users[i]);
        }
    }
    if descending(users) && users[i].points <= cutoff {
        // The last user has no more points than this one, so the page is cut.
        assert(users[i].points >= users[users.len() - 1].points);
        if kept.contains(users[i]) {
            let k = choose|k: int| 0 <= k < kept.len() && kept[k] == users[i];
            lemma_kept_users_exceed_the_cutoff(users, cutoff, k);
        }
    }
}

} // verus!
