//! The limit itself: how many events, over how long.

use std::time::Duration;
use vstd::prelude::*;

verus! {

/// How many times an event may occur in a given [`Duration`].
#[derive(Clone, Copy, Debug, PartialEq, Eq)]
pub struct RateLimit {
    pub count: usize,
    pub period: Duration,
}

impl RateLimit {
    /// A limit is meaningful only when it admits at least one event.
    pub open spec fn well_formed(&self) -> bool {
        self.count >= 1
    }

    /// Creates a [`RateLimit`] from the given values, unless the count is
    /// zero: a limit that admits nothing is not a limit.
    pub fn new(count: usize, period: Duration) -> (limit: Option<RateLimit>)
        ensures
            count == 0 ==> limit is None,
            count >= 1 ==> limit == Some(RateLimit { count, period }),
            limit matches Some(l) ==> l.well_formed(),
    {
        if count > 0 {
            Some(RateLimit { count, period })
        } else {
            None
        }
    }
}

} // verus!
