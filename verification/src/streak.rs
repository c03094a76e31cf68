//! Consecutive-day claim tracking.
//!
//! A claim is qualified by the calendar day it falls on, derived from its
//! timestamp against a fixed, UTC-based day boundary.  A claim on the day
//! immediately after the last claimed day extends the streak by one; a claim
//! on the same day is a no-op; any other claim starts a new streak of one.

use vstd::prelude::*;

verus! {

use vstd::arithmetic::div_mod::lemma_div_is_ordered;

/// Length of one calendar day in milliseconds.
pub const MS_PER_DAY: u64 = 86400000;

/// The calendar-day index a timestamp falls on.
pub open spec fn spec_day_of(timestamp: u64) -> u64 {
    (timestamp / MS_PER_DAY) as u64
}

/// Every day index is small enough that the day after it still fits in u64.
pub proof fn lemma_day_of_bound(timestamp: u64)
    ensures
        spec_day_of(timestamp) <= u64::MAX / MS_PER_DAY < u64::MAX,
{
    lemma_div_is_ordered(timestamp as int, u64::MAX as int, MS_PER_DAY as int);
}

/// Daily-claim streak state: the day index of the most recent claim (absent
/// until the first claim) and the running count of consecutive claimed days.
#[derive(Clone, Copy, PartialEq, Eq, Structural, Debug)]
pub struct Streak {
    pub last_claim_day: Option<u64>,
    pub count: u64,
}

impl Streak {
    /// The last claimed day is a day index of some timestamp, and the running
    /// count never exceeds the number of days that have passed, so extending
    /// a streak by one day cannot overflow.
    pub open spec fn wf(self) -> bool {
        match self.last_claim_day {
            Some(day) => day <= u64::MAX / MS_PER_DAY && 1 <= self.count <= day + 1,
            None => self.count == 0,
        }
    }

    /// The state and freshness signal a claim at `timestamp` produces.
    pub open spec fn spec_claim(self, timestamp: u64) -> (Streak, bool) {
        let day = spec_day_of(timestamp);
        match self.last_claim_day {
            Some(last) => if last == day {
                (self, false)
            } else {
                let count = if day == last + 1 {
                    (self.count + 1) as u64
                } else {
                    1u64
                };
                (Streak { last_claim_day: Some(day), count }, true)
            },
            None => (Streak { last_claim_day: Some(day), count: 1 }, true),
        }
    }

    /// A state with no claimed day and an empty count.
    pub fn new() -> (s: Streak)
        ensures
            s.wf(),
            s.last_claim_day is None,
            s.count == 0,
    {
        Streak { last_claim_day: None, count: 0 }
    }

    /// Records a claim.  Returns whether the claim was the first on its day;
    /// a repeat claim within the same day changes nothing.
    pub fn claim(&mut self, timestamp: u64) -> (is_new_claim: bool)
        requires
            old(self).wf(),
        ensures
            final(self).wf(),
            (*final(self), is_new_claim) == old(self).spec_claim(timestamp),
    {
        let day = timestamp / MS_PER_DAY;
        proof {
            lemma_day_of_bound(timestamp);
        }
        match self.last_claim_day {
            Some(last) => {
                if last == day {
                    false
                } else {
                    self.count = if day == last + 1 { self.count + 1 } else { 1 };
                    self.last_claim_day = Some(day);
                    true
                }
            },
            None => {
                self.count = 1;
                self.last_claim_day = Some(day);
                true
            },
        }
    }

    /// The current streak length: the count as left by the most recent
    /// claim.  It is not recomputed from the timestamp on read.
    pub fn days(&self, _now: u64) -> (count: u64)
        ensures
            count == self.count,
    {
        self.count
    }
}

} // verus!
