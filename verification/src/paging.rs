//! The pagination driver: which page to ask for next, and what to do with a
//! page once it has arrived.
//!
//! The driver does no I/O. Its owner performs the request that
//! [`PaginationDriver::request`] names, hands the page to
//! [`PaginationDriver::accept`], writes the rows that come back, and goes on
//! until no request is left.

use vstd::prelude::*;
use crate::data::{user_views, Alltime, PageView, User, UserView};
use crate::error::ExportError;
use crate::filter::{crosses, evaluate, survivors, FilterOutcome};

verus! {

/// The number of records that one request asks for. The protocol fixes it.
pub const PAGE_SIZE: u64 = 1000;

/// One request for a page: the first carries no offset.
#[derive(Debug, Clone, Copy, PartialEq, Eq)]
pub struct Fetch {
    pub offset: Option<u128>,
}

/// Where a walk through the leaderboard stands.
#[derive(Debug, Clone, Copy, PartialEq, Eq)]
pub enum Phase {
    /// Nothing has been asked for yet.
    First,
    /// Page `index` is the next to ask for, and page `last` the last.
    Next { index: u64, last: u64 },
    /// No request is left.
    Done,
}

/// What a [`PaginationDriver`] stands for.
pub struct DriverView {
    pub cutoff: Option<u64>,
    pub phase: Phase,
}

/// The state of a walk that has not begun.
pub open spec fn start(cutoff: Option<u64>) -> DriverView {
    DriverView { cutoff, phase: Phase::First }
}

/// The number of pages that a leaderboard of `total` records is walked in:
/// one while it fits a single page, else `total / PAGE_SIZE` rounded up.
pub open spec fn page_count(total: u64) -> int {
    if total < PAGE_SIZE {
        1
    } else {
        (total - 1) / (PAGE_SIZE as int) + 1
    }
}

/// The offset that the request for page `index` carries. Pages are counted
/// from one, and the first is asked for without an offset.
pub open spec fn offset_of(index: int) -> u128 {
    (index * PAGE_SIZE) as u128
}

/// The request that a state calls for, if any.
pub open spec fn pending(state: DriverView) -> Option<Fetch> {
    match state.phase {
        Phase::First => Some(Fetch { offset: None }),
        Phase::Next { index, last } => Some(Fetch { offset: Some(offset_of(index as int)) }),
        Phase::Done => None,
    }
}

/// Whether a page declares users and holds none.
pub open spec fn is_empty_page(page: PageView) -> bool {
    page.users.len() == 0 && page.total > 0
}

/// Whether a page ends the walk on its own account: it is empty against its
/// own count, or it reaches the cutoff.
pub open spec fn stops(cutoff: Option<u64>, page: PageView) -> bool {
    is_empty_page(page) || crosses(page.users, cutoff)
}

/// The phase that follows once `page` has answered the pending request.
pub open spec fn after(state: DriverView, page: PageView) -> Phase {
    match state.phase {
        Phase::Done => Phase::Done,
        Phase::First => if stops(state.cutoff, page) || page_count(page.total) < 2 {
            Phase::Done
        } else {
            Phase::Next { index: 2, last: page_count(page.total) as u64 }
        },
        Phase::Next { index, last } => if stops(state.cutoff, page) || index >= last {
            Phase::Done
        } else {
            Phase::Next { index: (index + 1) as u64, last }
        },
    }
}

/// The state that follows once `page` has answered the pending request.
pub open spec fn step(state: DriverView, page: PageView) -> DriverView {
    DriverView { cutoff: state.cutoff, phase: after(state, page) }
}

/// The rows that `page` sends to the output, or `None` where the page is an
/// error. A page that arrives when none was asked for sends nothing.
pub open spec fn forwarded(state: DriverView, page: PageView) -> Option<Seq<UserView>> {
    if state.phase is Done {
        Some(Seq::empty())
    } else if is_empty_page(page) {
        None
    } else {
        Some(survivors(page.users, state.cutoff))
    }
}

/// Drives one walk through the pages of a leaderboard.
#[derive(Debug, Clone, PartialEq, Eq)]
pub struct PaginationDriver {
    cutoff: Option<u64>,
    phase: Phase,
}

impl View for PaginationDriver {
    type V = DriverView;

    closed spec fn view(&self) -> DriverView {
        DriverView { cutoff: self.cutoff, phase: self.phase }
    }
}

impl PaginationDriver {
    /// A driver for a walk that has not begun.
    pub fn new(cutoff: Option<u64>) -> (driver: PaginationDriver)
        ensures
            driver@ == start(cutoff),
    {
        PaginationDriver { cutoff, phase: Phase::First }
    }

    pub fn cutoff(&self) -> (cutoff: Option<u64>)
        ensures
            cutoff == self@.cutoff,
    {
        self.cutoff
    }

    pub fn phase(&self) -> (phase: Phase)
        ensures
            phase == self@.phase,
    {
        self.phase
    }

    /// The request to make now, or `None` when the walk is over.
    pub fn request(&self) -> (fetch: Option<Fetch>)
        ensures
            fetch == pending(self@),
    {
        match self.phase {
            Phase::First => Some(Fetch { offset: None }),
            Phase::Next { index, last } => {
                assert(index * PAGE_SIZE <= u64::MAX * 1000) by (nonlinear_arith)
                    requires
                        index <= u64::MAX,
                        PAGE_SIZE == 1000,
                ;
                let offset: u128 = (index as u128) * (PAGE_SIZE as u128);
                Some(Fetch { offset: Some(offset) })
            },
            Phase::Done => None,
        }
    }

    /// Takes the page that answered the pending request, and returns the
    /// rows to write before anything else is asked for.
    ///
    /// A page without users whose own count is above zero is an error, and
    /// ends the walk. A page that reaches the cutoff yields its users above
    /// the cutoff, and ends the walk. Any other page is returned whole; the
    /// first of them fixes, by its count, how many pages the walk has.
    pub fn accept(&mut self, page: Alltime) -> (rows: Result<Vec<User>, ExportError>)
        ensures
            final(self)@ == step(old(self)@, page@),
            match forwarded(old(self)@, page@) {
                Some(expected) => rows matches Ok(out) && user_views(out@) == expected,
                None => rows matches Err(ExportError::EmptyPage),
            },
    {
        let total = page.total();
        match self.phase {
            Phase::Done => {
                return Ok(Vec::new());
            },
            _ => {},
        }
        if page.users().len() == 0 && total > 0 {
            self.phase = Phase::Done;
            return Err(ExportError::EmptyPage);
        }
        match evaluate(page.users(), self.cutoff) {
            FilterOutcome::KeepPartialAndStop(kept) => {
                self.phase = Phase::Done;
                Ok(kept)
            },
            FilterOutcome::KeepAll => {
                self.phase = match self.phase {
                    Phase::First => {
                        if total < PAGE_SIZE {
                            Phase::Done
                        } else {
                            let last: u64 = (total - 1) / PAGE_SIZE + 1;
                            if last < 2 {
                                Phase::Done
                            } else {
                                Phase::Next { index: 2, last }
                            }
                        }
                    },
                    Phase::Next { index, last } => {
                        if index < last {
                            Phase::Next { index: index + 1, last }
                        } else {
                            Phase::Done
                        }
                    },
                    Phase::Done => Phase::Done,
                };
                Ok(page.into_users())
            },
        }
    }
}

} // verus!
