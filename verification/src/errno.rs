//! Status codes crossing the guest/host boundary.
//!
//! The channel calls report their outcome with a small set of WASI-style
//! error numbers; `code` returns the conventional numeric value of each.

use vstd::prelude::*;

verus! {

/// Outcome of a host round-trip or of a notify delivery.
#[derive(Clone, Copy, Debug, PartialEq, Eq, Structural)]
pub enum Errno {
    /// The call succeeded.
    Success,
    /// An argument did not refer to a live object (for the channel calls:
    /// the channel id is not registered).
    Inval,
    /// No buffer space: the channel table is full, or no free channel id
    /// was found within the bounded probe sequence.
    NoBufs,
    /// No such device or address: a notify arrived for a receiver that no
    /// longer exists.
    NxIo,
}

impl Errno {
    /// The conventional WASI numeric value of this status.
    pub fn code(&self) -> (c: u16)
        ensures
            c == self.spec_code(),
    {
        match self {
            Errno::Success => 0,
            Errno::Inval => 28,
            Errno::NoBufs => 42,
            Errno::NxIo => 60,
        }
    }

    /// Numeric value, for use in contracts.
    pub open spec fn spec_code(&self) -> u16 {
        match self {
            Errno::Success => 0,
            Errno::Inval => 28,
            Errno::NoBufs => 42,
            Errno::NxIo => 60,
        }
    }
}

} // verus!
