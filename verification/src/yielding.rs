//! The cooperative yield primitive.
//!
//! A single-use suspension point: the first poll unconditionally re-arms
//! the caller's wake and reports "not yet done", so the executor is
//! guaranteed to revisit the task on a later ready-queue pass; the second
//! poll reports completion.  Long-running task loops use it to hand
//! control back to the scheduler (and, transitively, to the host).

use vstd::prelude::*;

use crate::runtime::{only_queue_and_signal_changed, Runtime};

verus! {

/// A one-shot yield point.  While `armed`, the next poll suspends once.
#[derive(Clone, Copy, Debug)]
pub struct Yield {
    pub armed: bool,
}

/// A yield point that suspends exactly once.
pub fn yield_now() -> (y: Yield)
    ensures
        y.armed,
{
    Yield::new()
}

/// A yield point that suspends only if the host has requested the guest
/// to yield.
pub fn auto_yield(rt: &Runtime) -> (y: Yield)
    ensures
        y.armed == rt.yield_flag,
{
    Yield { armed: rt.yield_flag }
}

impl Yield {
    /// A fresh, armed yield point.
    pub fn new() -> (y: Yield)
        ensures
            y.armed,
    {
        Yield { armed: true }
    }

    /// While armed: disarm, book a wake for `waker` so the executor must
    /// run one more ready-queue pass, and report "not ready".  Once
    /// disarmed: report "ready" and touch nothing.
    pub fn poll(&mut self, rt: &mut Runtime, waker: u64) -> (ready: bool)
        requires
            old(rt).wf(),
        ensures
            final(rt).wf(),
            ready == !old(self).armed,
            !final(self).armed,
            only_queue_and_signal_changed(*old(rt), *final(rt)),
            old(self).armed ==> final(rt).poll_again@ == old(rt).poll_again@.push(waker)
                && final(rt).host_wake_signal == (old(rt).host_wake_signal || !old(
                rt,
            ).in_runtime),
            !old(self).armed ==> *final(rt) == *old(rt),
    {
        if self.armed {
            self.armed = false;
            rt.wake_task(waker);
            false
        } else {
            true
        }
    }
}

impl Default for Yield {
    /// Same as `Yield::new`.
    fn default() -> (y: Yield)
        ensures
            y.armed,
    {
        Yield::new()
    }
}

} // verus!
