//! Timer-backed sleeping.
//!
//! Instants are absolute microsecond counts on the guest's monotonic
//! clock; the current reading is handed in by whoever drives the runtime.
//! A `Sleep` registers a timer entry through the op log and suspends until
//! the timer pass wakes it; the `SleepHandle` it holds queues the matching
//! removal when the sleep is released, on every exit path.

use vstd::prelude::*;

use crate::runtime::{only_timer_log_changed, Runtime, SleepHandle};
use crate::timer::{TimerEntry, TimerOp};

verus! {

/// A pending sleep until an absolute deadline.
#[derive(Clone, Copy, Debug)]
pub struct Sleep {
    /// Absolute wake instant, in microseconds.
    pub until: u64,
    /// The registration made by the most recent pending poll, if any.
    pub handle: Option<SleepHandle>,
}

/// Sleep until the given absolute instant.
pub fn sleep_until(until: u64) -> (s: Sleep)
    ensures
        s.until == until,
        s.handle is None,
{
    Sleep { until, handle: None }
}

/// Sleep for `duration` microseconds measured from `now`.
pub fn sleep_for(now: u64, duration: u64) -> (s: Sleep)
    requires
        now + duration <= u64::MAX,
    ensures
        s.until == now + duration,
        s.handle is None,
{
    sleep_until(now + duration)
}

impl Sleep {
    /// Ready once the deadline is at or before `now`.  Otherwise register
    /// a timer entry waking `waker` and queue the removal of the previous
    /// registration, if any (releasing a registration always queues its
    /// removal).
    pub fn poll(&mut self, rt: &mut Runtime, now: u64, waker: u64) -> (ready: bool)
        requires
            old(rt).wf(),
        ensures
            final(rt).wf(),
            ready == (old(self).until <= now),
            final(self).until == old(self).until,
            only_timer_log_changed(*old(rt), *final(rt)),
            ready ==> *final(self) == *old(self) && *final(rt) == *old(rt),
            !ready ==> {
                &&& final(self).handle == Some(
                    (SleepHandle { deadline: old(self).until, seq: old(rt).next_sleep_seq }),
                )
                &&& final(rt).timer_queue@ == match old(self).handle {
                    Some(h) => old(rt).timer_queue@.push(
                        TimerOp::Insert(
                            (TimerEntry {
                                deadline: old(self).until,
                                seq: old(rt).next_sleep_seq,
                                waker,
                            }),
                        ),
                    ).push(TimerOp::Remove(h.deadline, h.seq)),
                    None => old(rt).timer_queue@.push(
                        TimerOp::Insert(
                            (TimerEntry {
                                deadline: old(self).until,
                                seq: old(rt).next_sleep_seq,
                                waker,
                            }),
                        ),
                    ),
                }
            },
    {
        if self.until <= now {
            return true;
        }
        let h = rt.schedule_sleep(self.until, waker);
        let prev = self.handle;
        self.handle = Some(h);
        if let Some(p) = prev {
            p.cancel(rt);
        }
        false
    }
}

} // verus!
