//! A countdown primitive used to gate timed phase transitions.

use vstd::prelude::*;

verus! {

/// A countdown over whole milliseconds. The remaining time may run below
/// zero (an elapsed timer stays elapsed until it is set again); the
/// subtraction saturates at `i64::MIN` so that `update` is total.
#[derive(Clone, Copy, Debug)]
pub struct Timer(pub i64);

impl Timer {
    /// The remaining time after counting down by `dt` milliseconds.
    pub open spec fn spec_counted_down(self, dt: u64) -> int {
        let d: int = if dt > i64::MAX as u64 {
            i64::MAX as int
        } else {
            dt as int
        };
        if self.0 - d < i64::MIN {
            i64::MIN as int
        } else {
            self.0 - d
        }
    }

    pub open spec fn spec_has_elapsed(self) -> bool {
        self.0 <= 0
    }

    pub fn new(t: i64) -> (r: Timer)
        ensures
            r.0 == t,
    {
        Timer(t)
    }

    /// Counts down by `time_delta` milliseconds and reports whether the
    /// countdown has reached zero or below.
    pub fn update(&mut self, time_delta: u64) -> (elapsed: bool)
        ensures
            final(self).0 == old(self).spec_counted_down(time_delta),
            elapsed == final(self).spec_has_elapsed(),
    {
        let d: i64 = if time_delta > i64::MAX as u64 {
            i64::MAX
        } else {
            time_delta as i64
        };
        self.0 = match self.0.checked_sub(d) {
            Some(v) => v,
            None => i64::MIN,
        };
        self.has_elapsed()
    }

    pub fn set(&mut self, t: i64)
        ensures
            final(self).0 == t,
    {
        self.0 = t;
    }

    /// The remaining time, clamped below at zero.
    pub fn time_left(self) -> (r: i64)
        ensures
            r == if self.0 > 0 { self.0 as int } else { 0 },
    {
        if 0 < self.0 {
            self.0
        } else {
            0
        }
    }

    pub fn has_elapsed(self) -> (r: bool)
        ensures
            r == self.spec_has_elapsed(),
    {
        self.0 <= 0
    }
}

} // verus!
