//! Elapsed-time stamps for drivers and demos.
//!
//! A `Stamper` remembers when it was created and when it last stamped;
//! each stamp reports the time since creation and since the previous
//! stamp.  Clock readings are microsecond counts passed in by the caller.

use vstd::prelude::*;

verus! {

/// A pair of reference instants: creation time and last stamp time.
pub struct Stamper {
    /// The instant the stamper was created.
    pub start: u64,
    /// The instant of the most recent stamp (creation, initially).
    pub last: u64,
}

impl Stamper {
    /// A stamper whose both reference instants are `now`.
    pub fn now(now: u64) -> (s: Stamper)
        ensures
            s.start == now,
            s.last == now,
    {
        Stamper { start: now, last: now }
    }

    /// Report `(since creation, since previous stamp)` and make `now` the
    /// new reference for the next stamp.
    pub fn stamp(&mut self, now: u64) -> (r: (u64, u64))
        requires
            old(self).start <= now,
            old(self).last <= now,
        ensures
            r.0 == now - old(self).start,
            r.1 == now - old(self).last,
            final(self).start == old(self).start,
            final(self).last == now,
    {
        let since_start = now - self.start;
        let since_last = now - self.last;
        self.last = now;
        (since_start, since_last)
    }
}

} // verus!
