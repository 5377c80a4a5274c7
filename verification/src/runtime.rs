//! The single-threaded cooperative executor.
//!
//! Exactly one `Runtime` exists per execution context and owns all shared
//! mutable state: the task table, the ready queue, the timer set with its
//! op log, the join slots, and the channel registry.  The host drives it
//! through `poll`; everything else reaches the scheduler only by queueing
//! work (ready-queue entries, timer ops) that the next pass consumes.

use vstd::prelude::*;

use std::collections::VecDeque;

use crate::assoc::{distinct_keys, lemma_assoc_map_contains, lemma_assoc_map_index};
use crate::ipc::{channel_wf, ChannelState, Recv};
use crate::table::Table;
use crate::task::{
    lemma_count_yields_end, lemma_count_yields_skip, lemma_task_measure_pos,
    lemma_tasks_measure_nonneg, lemma_tasks_measure_push, lemma_tasks_measure_remove,
    task_measure, task_wf, tasks_measure, yield_debt, PendingWait, Step, Task,
};
use crate::time::sleep_until;
use crate::timer::{
    apply_timer_ops, entries_ordered, key_of, lemma_apply_timer_ops_keys, TimerEntry, TimerOp,
    TimerSet,
};
use crate::yielding::Yield;

verus! {

/// Result slot and join waiter shared between a task and its handle.
///
/// The slot outlives the task: it is created at spawn, filled exactly once
/// at completion, and drained exactly once by the first successful poll of
/// the handle.  It also preserves the task's receive log for inspection
/// after completion.
pub struct JoinState {
    /// The captured result, present from completion until the handle
    /// drains it.
    pub result: Option<u64>,
    /// The handle's registered wake target, if it suspended on the task.
    pub waker: Option<u64>,
    /// Whether the task has completed.  Set exactly once.
    pub done: bool,
    /// The completed task's channel-receive log.
    pub received: Vec<Vec<u8>>,
}

/// A handle observing one task's eventual result.
///
/// It does not own the task: the task runs to completion (or is
/// force-dropped at shutdown) whether or not any handle is held, and
/// dropping a handle cancels nothing.
#[derive(Clone, Copy, Debug)]
pub struct JoinHandle {
    /// Id of the observed task.
    pub task_id: u64,
}

/// Token for one registered sleep; releasing it queues the removal of its
/// timer entry.
#[derive(Clone, Copy, Debug, PartialEq, Eq, Structural)]
pub struct SleepHandle {
    /// Deadline of the registered entry.
    pub deadline: u64,
    /// Sequence number of the registered entry.
    pub seq: u64,
}

impl JoinHandle {
    /// If the task's slot holds a result, drain and return it: the read
    /// succeeds exactly once.  Otherwise register `waker` as the join
    /// waiter and stay pending; earlier registrations are silently
    /// replaced — this is a single-consumer primitive, the last waiter
    /// wins.  A handle whose id has no slot stays pending forever.
    pub fn poll(&self, rt: &mut Runtime, waker: u64) -> (r: Option<u64>)
        requires
            old(rt).wf(),
        ensures
            final(rt).wf(),
            only_joins_changed(*old(rt), *final(rt)),
            forall|k: u64| final(rt).joins@.contains_key(k) == old(rt).joins@.contains_key(k),
            forall|k: u64| #[trigger]
                old(rt).joins@.contains_key(k) ==> final(rt).joins@[k].done == old(rt).joins@[k].done && (final(rt).joins@[k].result == old(rt).joins@[k].result || final(rt).joins@[k].result is None),
            match r {
                Some(v) => {
                    &&& old(rt).joins@.contains_key(self.task_id)
                    &&& old(rt).joins@[self.task_id].result == Some(v)
                    &&& final(rt).joins@.contains_key(self.task_id)
                    &&& final(rt).joins@[self.task_id].result is None
                    &&& final(rt).joins@[self.task_id].waker == old(rt).joins@[self.task_id].waker
                    &&& final(rt).joins@[self.task_id].done == old(rt).joins@[self.task_id].done
                    &&& final(rt).joins@[self.task_id].received == old(rt).joins@[self.task_id].received
                    &&& final(rt).joins@.remove(self.task_id) == old(rt).joins@.remove(
                        self.task_id,
                    )
                },
                None => {
                    if old(rt).joins@.contains_key(self.task_id) {
                        &&& old(rt).joins@[self.task_id].result is None
                        &&& final(rt).joins@.contains_key(self.task_id)
                        &&& final(rt).joins@[self.task_id].result is None
                        &&& final(rt).joins@[self.task_id].waker == Some(waker)
                        &&& final(rt).joins@[self.task_id].done == old(rt).joins@[self.task_id].done
                        &&& final(rt).joins@[self.task_id].received == old(rt).joins@[self.task_id].received
                        &&& final(rt).joins@.remove(self.task_id) == old(rt).joins@.remove(
                            self.task_id,
                        )
                    } else {
                        *final(rt) == *old(rt)
                    }
                },
            },
    {
        match rt.joins.remove(self.task_id) {
            None => None,
            Some(mut slot) => {
                match slot.result {
                    Some(v) => {
                        slot.result = None;
                        rt.joins.insert(self.task_id, slot);
                        proof {
                            assert(final(rt).joins@.remove(self.task_id) =~= old(rt).joins@.remove(
                                self.task_id,
                            ));
                        }
                        Some(v)
                    },
                    None => {
                        slot.waker = Some(waker);
                        rt.joins.insert(self.task_id, slot);
                        proof {
                            assert(final(rt).joins@.remove(self.task_id) =~= old(rt).joins@.remove(
                                self.task_id,
                            ));
                        }
                        None
                    },
                }
            },
        }
    }
}

impl SleepHandle {
    /// Release the registration: queue the removal of its timer entry.
    /// Every way a sleep ends goes through this, so a cancelled sleep's
    /// entry is gone after the next op-log application.
    pub fn cancel(self, rt: &mut Runtime)
        requires
            old(rt).wf(),
        ensures
            final(rt).wf(),
            only_timer_log_changed(*old(rt), *final(rt)),
            final(rt).next_sleep_seq == old(rt).next_sleep_seq,
            final(rt).timer_queue@ == old(rt).timer_queue@.push(
                TimerOp::Remove(self.deadline, self.seq),
            ),
    {
        rt.timer_queue.push_back(TimerOp::Remove(self.deadline, self.seq));
    }
}

/// What one ready-queue pop achieved.
#[derive(Clone, Copy, Debug, PartialEq, Eq, Structural)]
pub enum PollOutcome {
    /// The ready queue was empty; nothing was touched.
    EmptyQueue,
    /// The popped id had no live task (it already completed); the entry
    /// was discarded and nothing else changed.
    Stale(u64),
    /// The task was advanced one step and suspended again.
    StillPending(u64),
    /// The task ran to completion: it left the table, its result was
    /// captured, and its join waiter (if any) was woken.
    Completed(u64),
}

/// The executor.
pub struct Runtime {
    /// Ordered timer entries, edited only through the op log.
    pub timers: TimerSet,
    /// Queued timer inserts and removals, applied before each firing pass.
    pub timer_queue: VecDeque<TimerOp>,
    /// Sequence number for the next timer registration.
    pub next_sleep_seq: u64,
    /// All live tasks, keyed by id.
    pub tasks: Table<Task>,
    /// Join slots, keyed by task id; never forgotten, so task ids are
    /// never reused while anything could still observe them.
    pub joins: Table<JoinState>,
    /// Id for the next spawned task.
    pub next_task_id: u64,
    /// The ready queue: ids awaiting a poll attempt, in wake order.
    /// Entries are not deduplicated, and an id whose task is gone is
    /// discarded when popped.
    pub poll_again: VecDeque<u64>,
    /// Guest-side receiver registry, keyed by channel id.
    pub channels: Table<ChannelState>,
    /// Re-entrancy guard: true while a tick pass is running; wakes that
    /// happen inside a pass do not signal the host.
    pub in_runtime: bool,
    /// Host-writable "yield back to me now" flag, read at checkpoints.
    pub yield_flag: bool,
    /// Pending guest-to-host wake notification (the `wake` import): set
    /// when a wake happens outside a tick pass.
    pub host_wake_signal: bool,
    /// Set once the executor has performed its terminal shutdown.
    pub shut_down: bool,
}

/// Fields other than the ready queue and the host wake signal agree.
pub open spec fn only_queue_and_signal_changed(pre: Runtime, post: Runtime) -> bool {
    &&& post.timers == pre.timers
    &&& post.timer_queue == pre.timer_queue
    &&& post.next_sleep_seq == pre.next_sleep_seq
    &&& post.tasks == pre.tasks
    &&& post.joins == pre.joins
    &&& post.next_task_id == pre.next_task_id
    &&& post.channels == pre.channels
    &&& post.in_runtime == pre.in_runtime
    &&& post.yield_flag == pre.yield_flag
    &&& post.shut_down == pre.shut_down
}

/// Fields other than the timer op log and its sequence counter agree.
pub open spec fn only_timer_log_changed(pre: Runtime, post: Runtime) -> bool {
    &&& post.timers == pre.timers
    &&& post.tasks == pre.tasks
    &&& post.joins == pre.joins
    &&& post.next_task_id == pre.next_task_id
    &&& post.poll_again == pre.poll_again
    &&& post.channels == pre.channels
    &&& post.in_runtime == pre.in_runtime
    &&& post.yield_flag == pre.yield_flag
    &&& post.host_wake_signal == pre.host_wake_signal
    &&& post.shut_down == pre.shut_down
}

/// Fields other than the channel registry agree.
pub open spec fn only_channels_changed(pre: Runtime, post: Runtime) -> bool {
    &&& post.timers == pre.timers
    &&& post.timer_queue == pre.timer_queue
    &&& post.next_sleep_seq == pre.next_sleep_seq
    &&& post.tasks == pre.tasks
    &&& post.joins == pre.joins
    &&& post.next_task_id == pre.next_task_id
    &&& post.poll_again == pre.poll_again
    &&& post.in_runtime == pre.in_runtime
    &&& post.yield_flag == pre.yield_flag
    &&& post.host_wake_signal == pre.host_wake_signal
    &&& post.shut_down == pre.shut_down
}

/// Fields other than the join slots agree.
pub open spec fn only_joins_changed(pre: Runtime, post: Runtime) -> bool {
    &&& post.timers == pre.timers
    &&& post.timer_queue == pre.timer_queue
    &&& post.next_sleep_seq == pre.next_sleep_seq
    &&& post.tasks == pre.tasks
    &&& post.next_task_id == pre.next_task_id
    &&& post.poll_again == pre.poll_again
    &&& post.channels == pre.channels
    &&& post.in_runtime == pre.in_runtime
    &&& post.yield_flag == pre.yield_flag
    &&& post.host_wake_signal == pre.host_wake_signal
    &&& post.shut_down == pre.shut_down
}

/// Fields other than the timer set and its op log agree.
pub open spec fn only_timers_and_log_changed(pre: Runtime, post: Runtime) -> bool {
    &&& post.next_sleep_seq == pre.next_sleep_seq
    &&& post.tasks == pre.tasks
    &&& post.joins == pre.joins
    &&& post.next_task_id == pre.next_task_id
    &&& post.poll_again == pre.poll_again
    &&& post.channels == pre.channels
    &&& post.in_runtime == pre.in_runtime
    &&& post.yield_flag == pre.yield_flag
    &&& post.host_wake_signal == pre.host_wake_signal
    &&& post.shut_down == pre.shut_down
}

/// Fields other than the channel registry, the ready queue and the host
/// wake signal agree.
pub open spec fn only_channels_and_queue_changed(pre: Runtime, post: Runtime) -> bool {
    &&& post.timers == pre.timers
    &&& post.timer_queue == pre.timer_queue
    &&& post.next_sleep_seq == pre.next_sleep_seq
    &&& post.tasks == pre.tasks
    &&& post.joins == pre.joins
    &&& post.next_task_id == pre.next_task_id
    &&& post.in_runtime == pre.in_runtime
    &&& post.yield_flag == pre.yield_flag
    &&& post.shut_down == pre.shut_down
}

/// Everything one tick (`Runtime::poll` at instant `now`) guarantees,
/// relating the state before the call to the state after it and to the
/// returned wait hint:
///
/// - the invariant holds, the guard is released, and the host-facing
///   fields (yield flag, wake signal, id counter) are untouched;
/// - no timer at or before `now` remains registered or queued;
/// - while tasks remain, every timer that survives the op-log application
///   and is not yet due stays registered with its waker — a pending sleep
///   is never lost;
/// - every due timer's waker was enqueued for a poll this pass, and the
///   ready queue is handled first-in first-out: the final queue is a
///   suffix of the initial queue followed by the wakes booked during the
///   pass, so entries a cut-short pass did not reach survive in order;
/// - tasks are never created by a tick, leave the table only by
///   completing (or the terminal shutdown drain), and a completion
///   captures exactly the task's result — still present, unless its
///   joiner already drained it;
/// - join slots are never forgotten, completions are never revoked, and a
///   captured result changes only by being drained;
/// - with the yield flag clear the ready queue is fully drained; if the
///   table empties the executor shuts down, discarding all scheduling
///   state; the hint is exactly `wait_hint_spec` of the final state;
/// - a tick from a quiescent state reports a non-zero hint, and if the op
///   log was also empty and tasks remain, it is a no-op.
pub open spec fn tick_post(pre: Runtime, post: Runtime, now: u64, hint: u64) -> bool {
    let applied = apply_timer_ops(pre.timers@, pre.timer_queue@);
    &&& post.wf()
    &&& !post.in_runtime
    &&& post.yield_flag == pre.yield_flag
    &&& post.next_task_id == pre.next_task_id
    &&& post.host_wake_signal == pre.host_wake_signal
    &&& post.timers_after(now)
    &&& post.ops_after(now)
    &&& !pre.yield_flag ==> post.poll_again@.len() == 0
    &&& post.shut_down == (pre.shut_down || post.tasks.entries@.len() == 0)
    &&& post.tasks.entries@.len() <= pre.tasks.entries@.len()
    &&& post.tasks.entries@.len() == 0 ==> post.poll_again@.len() == 0
        && post.timer_queue@.len() == 0 && post.timers.entries@.len() == 0 && post.shut_down
    &&& hint == 0 ==> post.tasks.entries@.len() > 0
    &&& forall|k: u64| post.joins@.contains_key(k) == pre.joins@.contains_key(k)
    &&& forall|k: u64| #[trigger]
        pre.joins@.contains_key(k) && pre.joins@[k].done ==> post.joins@[k].done
            && (post.joins@[k].result == pre.joins@[k].result || post.joins@[k].result is None)
    &&& forall|k: u64| #[trigger]
        pre.tasks@.contains_key(k) ==> (post.tasks@.contains_key(k) && post.tasks@[k].steps
            == pre.tasks@[k].steps && post.tasks@[k].result == pre.tasks@[k].result) || (
        post.joins@.contains_key(k) && post.joins@[k].done && (post.joins@[k].result == Some(
            pre.tasks@[k].result,
        ) || post.joins@[k].result is None)) || post.tasks.entries@.len() == 0
    &&& post.tasks.entries@.len() > 0 ==> forall|k: (u64, u64)| #[trigger]
        applied.contains_key(k) && k.0 > now ==> post.timers@.contains_key(k)
            && post.timers@[k] == applied[k]
    &&& exists|pushed: Seq<u64>, n: int|
        {
            &&& 0 <= n <= pre.poll_again@.len() + pushed.len()
            &&& post.poll_again@ == (pre.poll_again@ + pushed).skip(n)
            &&& forall|k: (u64, u64)| #[trigger]
                applied.contains_key(k) && k.0 <= now ==> exists|i: int|
                    0 <= i < pushed.len() && #[trigger] pushed[i] == applied[k]
        }
    &&& hint == post.wait_hint_spec(now)
    &&& pre.quiescent_at(now) ==> !post.ready_work_queued() && hint != 0
    &&& pre.quiescent_at(now) && pre.timer_queue@.len() == 0 && pre.tasks.entries@.len() > 0
        ==> post.timers == pre.timers && post.tasks == pre.tasks && post.joins == pre.joins
            && post.channels == pre.channels
}

impl Runtime {
    /// Scheduler invariant.
    pub open spec fn wf(&self) -> bool {
        &&& self.tasks.wf()
        &&& self.joins.wf()
        &&& self.channels.wf()
        &&& self.timers.wf()
        &&& forall|i: int|
            0 <= i < self.tasks.entries@.len() ==> task_wf((#[trigger] self.tasks.entries@[i]).1)
        &&& forall|i: int|
            0 <= i < self.tasks.entries@.len() ==> {
                let id = (#[trigger] self.tasks.entries@[i]).0;
                &&& self.joins@.contains_key(id)
                &&& !self.joins@[id].done
                &&& self.joins@[id].result is None
            }
        &&& forall|k: u64| #[trigger] self.joins@.contains_key(k) ==> k < self.next_task_id
        &&& forall|i: int|
            0 <= i < self.channels.entries@.len() ==> channel_wf(
                (#[trigger] self.channels.entries@[i]).1,
            )
    }

    /// Every queued insert op registers a deadline strictly after `now`.
    pub open spec fn ops_after(&self, now: u64) -> bool {
        forall|i: int|
            0 <= i < self.timer_queue@.len() ==> ((#[trigger] self.timer_queue@[i]) matches
                TimerOp::Insert(e) ==> e.deadline > now)
    }

    /// Every registered timer entry is due strictly after `now`.
    pub open spec fn timers_after(&self, now: u64) -> bool {
        forall|i: int|
            0 <= i < self.timers.entries@.len() ==> (#[trigger] self.timers.entries@[i]).deadline
                > now
    }

    /// No poll attempt is queued and nothing can become due at `now`: a
    /// tick at `now` from this state is a no-op.
    pub open spec fn quiescent_at(&self, now: u64) -> bool {
        &&& self.poll_again@.len() == 0
        &&& self.ops_after(now)
        &&& self.timers_after(now)
    }

    /// More ready work is already booked: queued poll attempts, or timer
    /// ops that the next pass must apply first.
    pub open spec fn ready_work_queued(&self) -> bool {
        self.poll_again@.len() > 0 || self.timer_queue@.len() > 0
    }

    /// The wait hint a tick ending in this state reports: 0 while more
    /// ready work remains, the time to the nearest pending deadline if
    /// none is ready but a timer is pending, and the idle sentinel if
    /// neither — the host may then block until an out-of-band wake.
    pub open spec fn wait_hint_spec(&self, now: u64) -> u64 {
        if self.ready_work_queued() {
            0u64
        } else if self.timers.entries@.len() > 0 {
            ((self.timers.entries@[0].deadline - now) as u64)
        } else {
            u64::MAX
        }
    }

    /// A task id with a live table entry.
    pub open spec fn live(&self, id: u64) -> bool {
        self.tasks@.contains_key(id)
    }

    /// A task id that was ever spawned.
    pub open spec fn spawned(&self, id: u64) -> bool {
        self.joins@.contains_key(id)
    }

    /// A fresh executor with no tasks, no timers and no channels.
    pub fn new() -> (rt: Runtime)
        ensures
            rt.wf(),
            rt.tasks@ == Map::<u64, Task>::empty(),
            rt.joins@ == Map::<u64, JoinState>::empty(),
            rt.channels@ == Map::<u64, ChannelState>::empty(),
            rt.timers@ == Map::<(u64, u64), u64>::empty(),
            rt.timer_queue@.len() == 0,
            rt.poll_again@.len() == 0,
            rt.next_task_id == 0,
            rt.next_sleep_seq == 0,
            !rt.in_runtime,
            !rt.yield_flag,
            !rt.host_wake_signal,
            !rt.shut_down,
    {
        Runtime {
            timers: TimerSet::new(),
            timer_queue: VecDeque::new(),
            next_sleep_seq: 0,
            tasks: Table::new(),
            joins: Table::new(),
            next_task_id: 0,
            poll_again: VecDeque::new(),
            channels: Table::new(),
            in_runtime: false,
            yield_flag: false,
            host_wake_signal: false,
            shut_down: false,
        }
    }

    /// Enqueue `id` for a poll attempt and, when outside a tick pass,
    /// signal the host that new ready work exists.  Inside a pass the
    /// signal is suppressed: the ready queue is rechecked before the pass
    /// returns anyway, and the notification path must not re-enter the
    /// scheduler.
    pub fn wake_task(&mut self, id: u64)
        requires
            old(self).wf(),
        ensures
            final(self).wf(),
            only_queue_and_signal_changed(*old(self), *final(self)),
            final(self).poll_again@ == old(self).poll_again@.push(id),
            final(self).host_wake_signal == (old(self).host_wake_signal || !old(self).in_runtime),
    {
        self.poll_again.push_back(id);
        if !self.in_runtime {
            self.host_wake_signal = true;
        }
    }

    /// Queue the registration of a timer waking `waker` at `until`.
    /// The entry's key is `(until, seq)` with a fresh sequence number, so
    /// equal deadlines are totally ordered by registration order.
    pub fn schedule_sleep(&mut self, until: u64, waker: u64) -> (h: SleepHandle)
        requires
            old(self).wf(),
        ensures
            final(self).wf(),
            only_timer_log_changed(*old(self), *final(self)),
            h.deadline == until,
            h.seq == old(self).next_sleep_seq,
            final(self).next_sleep_seq == (if old(self).next_sleep_seq == u64::MAX {
                0u64
            } else {
                (old(self).next_sleep_seq + 1) as u64
            }),
            final(self).timer_queue@ == old(self).timer_queue@.push(
                TimerOp::Insert((TimerEntry { deadline: until, seq: h.seq, waker })),
            ),
    {
        let seq = self.next_sleep_seq;
        // the counter wraps; sequence numbers stay fresh for any realistic
        // number of registrations
        self.next_sleep_seq = if self.next_sleep_seq == u64::MAX {
            0
        } else {
            self.next_sleep_seq + 1
        };
        self.timer_queue.push_back(TimerOp::Insert(TimerEntry { deadline: until, seq, waker }));
        SleepHandle { deadline: until, seq }
    }

    /// Host-facing setter for the "yield now" flag.
    pub fn set_yield_flag(&mut self, v: bool)
        ensures
            *final(self) == (Runtime { yield_flag: v, ..*old(self) }),
    {
        self.yield_flag = v;
    }

    /// Consume the pending guest-to-host wake notification, if any.
    pub fn take_host_wake(&mut self) -> (r: bool)
        ensures
            r == old(self).host_wake_signal,
            *final(self) == (Runtime { host_wake_signal: false, ..*old(self) }),
    {
        let r = self.host_wake_signal;
        self.host_wake_signal = false;
        r
    }

    /// Whether the executor has performed its terminal shutdown.
    pub fn is_shut_down(&self) -> (r: bool)
        ensures
            r == self.shut_down,
    {
        self.shut_down
    }

    /// Terminal shutdown: force-drop all remaining tasks (without
    /// completion notification), discard all pending scheduling work, and
    /// mark the executor as shut down.  Join slots and channel receivers
    /// are left in place: handles held past shutdown still read as
    /// "not completed".
    pub fn shutdown(&mut self)
        requires
            old(self).wf(),
        ensures
            final(self).wf(),
            final(self).shut_down,
            final(self).tasks@ == Map::<u64, Task>::empty(),
            final(self).tasks.entries@.len() == 0,
            final(self).poll_again@.len() == 0,
            final(self).timers@ == Map::<(u64, u64), u64>::empty(),
            final(self).timers.entries@.len() == 0,
            final(self).timer_queue@.len() == 0,
            final(self).joins == old(self).joins,
            final(self).channels == old(self).channels,
            final(self).next_task_id == old(self).next_task_id,
            final(self).in_runtime == old(self).in_runtime,
            final(self).yield_flag == old(self).yield_flag,
            final(self).host_wake_signal == old(self).host_wake_signal,
    {
        self.tasks = Table::new();
        self.poll_again = VecDeque::new();
        self.timers = TimerSet::new();
        self.timer_queue = VecDeque::new();
        self.shut_down = true;
    }

    /// Spawn a task from its program, enqueueing it for its first poll and
    /// returning a handle on its result immediately; the computation is
    /// not advanced at all here.  The id is fresh: join slots are never
    /// forgotten, so no id is reused while a task or a handle could still
    /// be reached under it.
    pub fn spawn(&mut self, steps: Vec<Step>, result: u64) -> (h: JoinHandle)
        requires
            old(self).wf(),
            old(self).next_task_id < u64::MAX,
        ensures
            final(self).wf(),
            h.task_id == old(self).next_task_id,
            !old(self).spawned(h.task_id),
            !old(self).live(h.task_id),
            final(self).next_task_id == old(self).next_task_id + 1,
            final(self).live(h.task_id),
            final(self).tasks@[h.task_id].steps@ == steps@,
            final(self).tasks@[h.task_id].pc == 0,
            final(self).tasks@[h.task_id].pending is Idle,
            final(self).tasks@[h.task_id].result == result,
            final(self).tasks@[h.task_id].received@.len() == 0,
            final(self).tasks@.remove(h.task_id) == old(self).tasks@,
            final(self).spawned(h.task_id),
            final(self).joins@[h.task_id].result is None,
            final(self).joins@[h.task_id].waker is None,
            !final(self).joins@[h.task_id].done,
            final(self).joins@.remove(h.task_id) == old(self).joins@,
            final(self).poll_again@ == old(self).poll_again@.push(h.task_id),
            final(self).timers == old(self).timers,
            final(self).timer_queue == old(self).timer_queue,
            final(self).next_sleep_seq == old(self).next_sleep_seq,
            final(self).channels == old(self).channels,
            final(self).in_runtime == old(self).in_runtime,
            final(self).yield_flag == old(self).yield_flag,
            final(self).host_wake_signal == old(self).host_wake_signal,
            final(self).shut_down == old(self).shut_down,
    {
        let id = self.next_task_id;
        self.next_task_id = self.next_task_id + 1;
        proof {
            lemma_assoc_map_contains(self.tasks.entries@, id);
            lemma_assoc_map_contains(self.joins.entries@, id);
            if self.tasks@.contains_key(id) {
                let i = choose|i: int|
                    0 <= i < self.tasks.entries@.len() && (#[trigger] self.tasks.entries@[i]).0
                        == id;
                assert(self.joins@.contains_key(id));
            }
        }
        let task = Task {
            steps,
            pc: 0,
            pending: PendingWait::Idle,
            result,
            received: Vec::new(),
        };
        self.tasks.insert(id, task);
        self.joins.insert(
            id,
            JoinState { result: None, waker: None, done: false, received: Vec::new() },
        );
        self.poll_again.push_back(id);
        proof {
            assert(final(self).tasks@.remove(id) =~= old(self).tasks@);
            assert(final(self).joins@.remove(id) =~= old(self).joins@);
        }
        JoinHandle { task_id: id }
    }

    /// Apply the queued timer ops to the timer set, front to back, leaving
    /// the op log empty.  This runs immediately before each firing pass,
    /// so ops queued during waiter invocation only take effect on the next
    /// pass and can never disturb an in-progress split.
    pub fn process_timer_ops(&mut self)
        requires
            old(self).wf(),
        ensures
            final(self).wf(),
            only_timers_and_log_changed(*old(self), *final(self)),
            final(self).timers@ == apply_timer_ops(old(self).timers@, old(self).timer_queue@),
            final(self).timer_queue@.len() == 0,
            old(self).timer_queue@.len() == 0 ==> *final(self) == *old(self),
    {
        if self.timer_queue.len() == 0 {
            return ;
        }
        loop
            invariant
                self.wf(),
                only_timers_and_log_changed(*old(self), *self),
                apply_timer_ops(self.timers@, self.timer_queue@) == apply_timer_ops(
                    old(self).timers@,
                    old(self).timer_queue@,
                ),
            ensures
                self.wf(),
                only_timers_and_log_changed(*old(self), *self),
                self.timer_queue@.len() == 0,
                self.timers@ == apply_timer_ops(old(self).timers@, old(self).timer_queue@),
            decreases self.timer_queue@.len(),
        {
            let ghost q = self.timer_queue@;
            match self.timer_queue.pop_front() {
                None => {
                    break ;
                },
                Some(op) => {
                    proof {
                        assert(self.timer_queue@ =~= q.drop_first());
                    }
                    match op {
                        TimerOp::Insert(e) => {
                            self.timers.insert(e);
                        },
                        TimerOp::Remove(d, s) => {
                            self.timers.remove(d, s);
                        },
                    }
                },
            }
        }
    }

    /// One timer pass: apply the op log, then split off and return every
    /// entry due at or before `now`, in firing order (ascending deadline,
    /// equal deadlines in registration order).  Exactly the due entries
    /// that survived the op log fire — no missed wakeups, no wake for a
    /// cancelled sleep — and every entry left pending is strictly after
    /// `now`.
    pub fn process_timers(&mut self, now: u64) -> (fired: Vec<TimerEntry>)
        requires
            old(self).wf(),
        ensures
            final(self).wf(),
            only_timers_and_log_changed(*old(self), *final(self)),
            final(self).timer_queue@.len() == 0,
            entries_ordered(fired@),
            forall|i: int| 0 <= i < fired@.len() ==> (#[trigger] fired@[i]).deadline <= now,
            forall|i: int|
                0 <= i < final(self).timers.entries@.len()
                    ==> (#[trigger] final(self).timers.entries@[i]).deadline > now,
            forall|i: int|
                0 <= i < fired@.len() ==> {
                    let m = apply_timer_ops(old(self).timers@, old(self).timer_queue@);
                    &&& m.contains_key(key_of(#[trigger] fired@[i]))
                    &&& m[key_of(fired@[i])] == fired@[i].waker
                },
            forall|k: (u64, u64)| #[trigger]
                apply_timer_ops(old(self).timers@, old(self).timer_queue@).contains_key(k) && k.0
                    <= now ==> exists|i: int|
                    0 <= i < fired@.len() && key_of(#[trigger] fired@[i]) == k,
            forall|k: (u64, u64)| #[trigger]
                final(self).timers@.contains_key(k) ==> apply_timer_ops(
                    old(self).timers@,
                    old(self).timer_queue@,
                ).contains_key(k) && apply_timer_ops(
                    old(self).timers@,
                    old(self).timer_queue@,
                )[k] == final(self).timers@[k],
            forall|k: (u64, u64)| #[trigger]
                apply_timer_ops(old(self).timers@, old(self).timer_queue@).contains_key(k) && k.0
                    > now ==> final(self).timers@.contains_key(k) && final(self).timers@[k]
                    == apply_timer_ops(old(self).timers@, old(self).timer_queue@)[k],
            old(self).timer_queue@.len() == 0 && (forall|i: int|
                0 <= i < old(self).timers.entries@.len()
                    ==> (#[trigger] old(self).timers.entries@[i]).deadline > now) ==> *final(self)
                == *old(self) && fired@.len() == 0,
    {
        self.process_timer_ops();
        let ghost applied_entries = self.timers.entries@;
        let ghost applied = self.timers@;
        proof {
            assert(distinct_keys(self.timers.pairs()));
        }
        let fired = self.timers.pop_due(now);
        proof {
            let n = fired@.len() as int;
            let pairs = applied_entries.map_values(|e: TimerEntry| (key_of(e), e.waker));
            assert forall|i: int| 0 <= i < n implies {
                &&& applied.contains_key(key_of(#[trigger] fired@[i]))
                &&& applied[key_of(fired@[i])] == fired@[i].waker
            } by {
                assert(fired@[i] == applied_entries[i]);
                lemma_assoc_map_index(pairs, i);
            }
            assert forall|k: (u64, u64)| applied.contains_key(k) && k.0 <= now implies exists|
                i: int,
            | 0 <= i < n && key_of(#[trigger] fired@[i]) == k by {
                lemma_assoc_map_contains(pairs, k);
                let j = choose|j: int| 0 <= j < pairs.len() && (#[trigger] pairs[j]).0 == k;
                assert(key_of(applied_entries[j]) == k);
                if j >= n {
                    assert(self.timers.entries@[j - n] == applied_entries[j]);
                    assert(applied_entries[j].deadline > now);
                    assert(false);
                }
                assert(key_of(#[trigger] fired@[j]) == k);
            }
            let rem_pairs = self.timers.entries@.map_values(
                |e: TimerEntry| (key_of(e), e.waker),
            );
            assert(distinct_keys(rem_pairs));
            assert forall|k: (u64, u64)| #[trigger]
                applied.contains_key(k) && k.0 > now implies self.timers@.contains_key(k)
                && self.timers@[k] == applied[k] by {
                lemma_assoc_map_contains(pairs, k);
                let j = choose|j: int| 0 <= j < pairs.len() && (#[trigger] pairs[j]).0 == k;
                assert(key_of(applied_entries[j]) == k);
                if j < n {
                    assert(fired@[j].deadline <= now);
                    assert(false);
                }
                assert(self.timers.entries@[j - n] == applied_entries[j]);
                lemma_assoc_map_index(rem_pairs, j - n);
                lemma_assoc_map_index(pairs, j);
            }
            assert forall|k: (u64, u64)| #[trigger]
                self.timers@.contains_key(k) implies applied.contains_key(k) && applied[k]
                == self.timers@[k] by {
                lemma_assoc_map_contains(rem_pairs, k);
                let j = choose|j: int|
                    0 <= j < rem_pairs.len() && (#[trigger] rem_pairs[j]).0 == k;
                assert(self.timers.entries@[j] == applied_entries[j + n]);
                lemma_assoc_map_index(rem_pairs, j);
                lemma_assoc_map_index(pairs, j + n);
            }
            if old(self).timer_queue@.len() == 0 && (forall|i: int|
                0 <= i < old(self).timers.entries@.len()
                    ==> (#[trigger] old(self).timers.entries@[i]).deadline > now) && fired@.len()
                > 0 {
                assert(fired@[0] == applied_entries[0]);
                assert(old(self).timers.entries@[0].deadline > now);
                assert(false);
            }
        }
        fired
    }

    /// Combined pending work: queued poll attempts plus the polls live
    /// tasks can still absorb while progressing.  Every non-trivial
    /// `poll_next` strictly decreases it, which is what bounds a tick
    /// pass.
    pub open spec fn rt_measure(&self) -> int {
        self.poll_again@.len() + tasks_measure(self.tasks.entries@)
    }

    /// Advance one task by one poll attempt: finish every step that is
    /// already ready (due sleeps, available results, buffered messages,
    /// woken yields) and stop at the first that must wait, registering its
    /// wake; report whether the program ran to completion.
    fn poll_task(&mut self, tid: u64, t: &mut Task, now: u64) -> (done: bool)
        requires
            old(self).wf(),
            task_wf(*old(t)),
        ensures
            final(self).wf(),
            task_wf(*final(t)),
            final(t).steps == old(t).steps,
            final(t).result == old(t).result,
            old(t).received@.is_prefix_of(final(t).received@),
            final(self).tasks == old(self).tasks,
            final(self).timers == old(self).timers,
            final(self).next_task_id == old(self).next_task_id,
            final(self).in_runtime == old(self).in_runtime,
            final(self).yield_flag == old(self).yield_flag,
            final(self).shut_down == old(self).shut_down,
            old(self).in_runtime ==> final(self).host_wake_signal == old(self).host_wake_signal,
            old(self).timer_queue@.is_prefix_of(final(self).timer_queue@),
            forall|i: int|
                old(self).timer_queue@.len() <= i < final(self).timer_queue@.len() ==> ((
                #[trigger] final(self).timer_queue@[i]) matches TimerOp::Insert(e) ==> e.deadline
                    > now),
            forall|k: u64|
                final(self).joins@.contains_key(k) == old(self).joins@.contains_key(k),
            forall|k: u64| #[trigger]
                old(self).joins@.contains_key(k) ==> final(self).joins@[k].done == old(self).joins@[k].done && (final(self).joins@[k].result == old(self).joins@[k].result || final(self).joins@[k].result is None),
            forall|k: u64|
                final(self).channels@.contains_key(k) == old(self).channels@.contains_key(k),
            old(self).poll_again@.is_prefix_of(final(self).poll_again@),
            final(self).poll_again@.len() <= old(self).poll_again@.len() + 1,
            task_measure(*final(t)) + final(self).poll_again@.len() <= task_measure(*old(t))
                + old(self).poll_again@.len(),
            done ==> final(self).poll_again@ == old(self).poll_again@,
            done ==> final(t).pc == final(t).steps@.len(),
            done ==> yield_debt(*old(t)) == 0,
            !done ==> yield_debt(*old(t)) - 1 <= yield_debt(*final(t)) <= yield_debt(*old(t)),
    {
        loop
            invariant
                self.wf(),
                task_wf(*t),
                t.steps == old(t).steps,
                t.result == old(t).result,
                old(t).received@.is_prefix_of(t.received@),
                task_measure(*t) <= task_measure(*old(t)),
                yield_debt(*t) == yield_debt(*old(t)),
                self.tasks == old(self).tasks,
                self.timers == old(self).timers,
                self.next_task_id == old(self).next_task_id,
                self.in_runtime == old(self).in_runtime,
                self.yield_flag == old(self).yield_flag,
                self.shut_down == old(self).shut_down,
                old(self).in_runtime ==> self.host_wake_signal == old(self).host_wake_signal,
                old(self).timer_queue@.is_prefix_of(self.timer_queue@),
                forall|i: int|
                    old(self).timer_queue@.len() <= i < self.timer_queue@.len() ==> ((
                    #[trigger] self.timer_queue@[i]) matches TimerOp::Insert(e) ==> e.deadline
                        > now),
                forall|k: u64|
                    self.joins@.contains_key(k) == old(self).joins@.contains_key(k),
                forall|k: u64| #[trigger]
                    old(self).joins@.contains_key(k) ==> self.joins@[k].done == old(self).joins@[k].done && (self.joins@[k].result == old(self).joins@[k].result || self.joins@[k].result is None),
                forall|k: u64|
                    self.channels@.contains_key(k) == old(self).channels@.contains_key(k),
                self.poll_again == old(self).poll_again,
            decreases task_measure(*t),
        {
            let ghost t_iter = *t;
            match t.pending {
                PendingWait::Idle => {
                    if t.pc == t.steps.len() {
                        proof {
                            lemma_count_yields_end(t.steps@, t.pc as int);
                        }
                        return true;
                    }
                    proof {
                        lemma_count_yields_skip(t.steps@, t.pc as int);
                    }
                    let step = t.steps[t.pc];
                    match step {
                        Step::Yield => {
                            let mut y = Yield::new();
                            y.poll(self, tid);
                            t.pending = PendingWait::Yielding(y);
                            return false;
                        },
                        Step::SleepUntil(d) => {
                            let mut s = sleep_until(d);
                            if s.poll(self, now, tid) {
                                t.pc = t.pc + 1;
                            } else {
                                t.pending = PendingWait::Sleeping(s);
                                return false;
                            }
                        },
                        Step::AwaitJoin(id) => {
                            let h = JoinHandle { task_id: id };
                            match h.poll(self, tid) {
                                Some(_v) => {
                                    t.pc = t.pc + 1;
                                },
                                None => {
                                    t.pending = PendingWait::Joining(h);
                                    return false;
                                },
                            }
                        },
                        Step::RecvChan(c) => {
                            let r = Recv { chan: c };
                            match r.poll(self, tid) {
                                Some(msg) => {
                                    t.received.push(msg);
                                    t.pc = t.pc + 1;
                                },
                                None => {
                                    t.pending = PendingWait::Receiving(r);
                                    return false;
                                },
                            }
                        },
                    }
                },
                PendingWait::Yielding(mut y) => {
                    proof {
                        lemma_count_yields_skip(t.steps@, t.pc as int);
                    }
                    if y.poll(self, tid) {
                        let _n: usize = t.steps.len();
                        t.pending = PendingWait::Idle;
                        t.pc = t.pc + 1;
                    } else {
                        t.pending = PendingWait::Yielding(y);
                        return false;
                    }
                },
                PendingWait::Sleeping(mut s) => {
                    proof {
                        lemma_count_yields_skip(t.steps@, t.pc as int);
                    }
                    if s.poll(self, now, tid) {
                        let _n: usize = t.steps.len();
                        if let Some(h) = s.handle {
                            h.cancel(self);
                        }
                        t.pending = PendingWait::Idle;
                        t.pc = t.pc + 1;
                    } else {
                        t.pending = PendingWait::Sleeping(s);
                        return false;
                    }
                },
                PendingWait::Joining(h) => {
                    proof {
                        lemma_count_yields_skip(t.steps@, t.pc as int);
                    }
                    match h.poll(self, tid) {
                        Some(_v) => {
                            let _n: usize = t.steps.len();
                            t.pending = PendingWait::Idle;
                            t.pc = t.pc + 1;
                        },
                        None => {
                            return false;
                        },
                    }
                },
                PendingWait::Receiving(r) => {
                    proof {
                        lemma_count_yields_skip(t.steps@, t.pc as int);
                    }
                    match r.poll(self, tid) {
                        Some(msg) => {
                            let _n: usize = t.steps.len();
                            t.received.push(msg);
                            t.pending = PendingWait::Idle;
                            t.pc = t.pc + 1;
                        },
                        None => {
                            return false;
                        },
                    }
                },
            }
        }
    }

    /// Pop one id off the ready queue and advance its task by one poll
    /// attempt.
    ///
    /// Popping an id whose task no longer exists is a benign race, not an
    /// error: the entry is discarded and no other state is touched.  A
    /// completing task leaves the table at once, its result is captured in
    /// its join slot exactly once, and its join waiter (if registered) is
    /// woken.  A task can pay off at most one pending cooperative yield
    /// per pop, and completes only once it owes none: a task that yields
    /// `n` times is popped at least `n` further times before it can
    /// complete.
    pub fn poll_next(&mut self, now: u64) -> (o: PollOutcome)
        requires
            old(self).wf(),
        ensures
            final(self).wf(),
            old(self).timer_queue@.is_prefix_of(final(self).timer_queue@),
            forall|i: int|
                old(self).timer_queue@.len() <= i < final(self).timer_queue@.len() ==> ((
                #[trigger] final(self).timer_queue@[i]) matches TimerOp::Insert(e) ==> e.deadline
                    > now),
            (o is EmptyQueue) <==> old(self).poll_again@.len() == 0,
            o is EmptyQueue ==> only_queue_and_signal_changed(*old(self), *final(self))
                && final(self).poll_again@ == old(self).poll_again@
                && final(self).host_wake_signal == old(self).host_wake_signal,
            !(o is EmptyQueue) ==> final(self).rt_measure() < old(self).rt_measure(),
            !(o is EmptyQueue) ==> final(self).poll_again@.len() <= old(self).poll_again@.len(),
            !(o is EmptyQueue) ==> final(self).poll_again@ == old(self).poll_again@.drop_first()
                || exists|w: u64|
                    final(self).poll_again@ == old(self).poll_again@.drop_first().push(w),
            final(self).tasks.entries@.len() <= old(self).tasks.entries@.len(),
            forall|k: u64| #[trigger]
                old(self).joins@.contains_key(k) && old(self).joins@[k].done
                    ==> final(self).joins@[k].done && (final(self).joins@[k].result == old(self).joins@[k].result || final(self).joins@[k].result is None),
            !(o is EmptyQueue) ==> final(self).in_runtime == old(self).in_runtime
                && final(self).yield_flag == old(self).yield_flag && final(self).shut_down
                == old(self).shut_down && final(self).next_task_id == old(self).next_task_id
                && final(self).timers == old(self).timers,
            old(self).in_runtime ==> final(self).host_wake_signal == old(self).host_wake_signal,
            match o {
                PollOutcome::EmptyQueue => true,
                PollOutcome::Stale(id) => {
                    &&& id == old(self).poll_again@[0]
                    &&& !old(self).live(id)
                    &&& final(self).poll_again@ == old(self).poll_again@.drop_first()
                    &&& only_queue_and_signal_changed(*old(self), *final(self))
                    &&& final(self).host_wake_signal == old(self).host_wake_signal
                },
                PollOutcome::StillPending(id) => {
                    &&& id == old(self).poll_again@[0]
                    &&& old(self).live(id)
                    &&& final(self).live(id)
                    &&& final(self).tasks@.remove(id) == old(self).tasks@.remove(id)
                    &&& final(self).tasks@[id].steps == old(self).tasks@[id].steps
                    &&& final(self).tasks@[id].result == old(self).tasks@[id].result
                    &&& yield_debt(old(self).tasks@[id]) - 1 <= yield_debt(
                        final(self).tasks@[id],
                    ) <= yield_debt(old(self).tasks@[id])
                    &&& forall|k: u64|
                        final(self).joins@.contains_key(k) == old(self).joins@.contains_key(k)
                    &&& forall|k: u64| #[trigger]
                        old(self).joins@.contains_key(k) ==> final(self).joins@[k].done == old(self).joins@[k].done
                },
                PollOutcome::Completed(id) => {
                    &&& id == old(self).poll_again@[0]
                    &&& old(self).live(id)
                    &&& !final(self).live(id)
                    &&& final(self).tasks@ == old(self).tasks@.remove(id)
                    &&& !old(self).joins@[id].done
                    &&& old(self).joins@[id].result is None
                    &&& final(self).joins@.contains_key(id)
                    &&& final(self).joins@[id].done
                    &&& final(self).joins@[id].result == Some(old(self).tasks@[id].result)
                    &&& old(self).tasks@[id].received@.is_prefix_of(
                        final(self).joins@[id].received@,
                    )
                    &&& final(self).joins@[id].waker is None
                    &&& yield_debt(old(self).tasks@[id]) == 0
                    &&& forall|k: u64|
                        final(self).joins@.contains_key(k) == old(self).joins@.contains_key(k)
                    &&& forall|k: u64|
                        k != id && #[trigger] old(self).joins@.contains_key(k) ==> final(self).joins@[k].done == old(self).joins@[k].done
                },
            },
    {
        let ghost pre = *self;
        let popped = self.poll_again.pop_front();
        let id = match popped {
            None => {
                return PollOutcome::EmptyQueue;
            },
            Some(id) => id,
        };
        proof {
            assert(self.poll_again@ =~= pre.poll_again@.drop_first());
            lemma_assoc_map_contains(self.tasks.entries@, id);
        }
        let ghost s_pre = self.tasks.entries@;
        let removed = self.tasks.remove(id);
        let mut t = match removed {
            None => {
                return PollOutcome::Stale(id);
            },
            Some(t) => t,
        };
        proof {
            let i = choose|i: int|
                0 <= i < s_pre.len() && (#[trigger] s_pre[i]).0 == id && s_pre[i].1 == t
                    && self.tasks.entries@ == s_pre.remove(i);
            lemma_tasks_measure_remove(s_pre, i);
            lemma_task_measure_pos(t);
            lemma_assoc_map_index(s_pre, i);
            assert(pre.joins@.contains_key(id));
            assert(!pre.joins@[id].done);
            assert(pre.joins@[id].result is None);
        }
        let ghost mid = *self;
        let done = self.poll_task(id, &mut t, now);
        let ghost after_pt = *self;
        if done {
            let slot_opt = self.joins.remove(id);
            let mut slot = match slot_opt {
                None => {
                    proof {
                        assert(false);
                    }
                    return PollOutcome::Completed(id);
                },
                Some(slot) => slot,
            };
            slot.result = Some(t.result);
            slot.done = true;
            slot.received = t.received;
            let waker = slot.waker;
            slot.waker = None;
            self.joins.insert(id, slot);
            proof {
                assert(self.joins@.remove(id) =~= after_pt.joins@.remove(id));
            }
            if let Some(w) = waker {
                self.wake_task(w);
            }
            PollOutcome::Completed(id)
        } else {
            proof {
                lemma_assoc_map_contains(self.tasks.entries@, id);
                lemma_tasks_measure_push(self.tasks.entries@, id, t);
            }
            self.tasks.insert(id, t);
            proof {
                assert(final(self).tasks@.remove(id) =~= pre.tasks@.remove(id));
                let mq = mid.poll_again@;
                let fq = self.poll_again@;
                if fq.len() == mq.len() {
                    assert(fq =~= mq);
                } else {
                    assert(fq =~= mq.push(fq.last()));
                }
            }
            PollOutcome::StillPending(id)
        }
    }

    /// One tick.  Process the queued timer ops, wake every timer due at or
    /// before `now` (ascending deadline, ties in registration order), then
    /// repeatedly pop the ready queue and advance one task per pop, until
    /// the queue is empty — or, after a task reports "still pending", the
    /// host's yield flag is seen, which cuts the pass short: fairness
    /// toward the host outranks finishing guest work.  If the task table
    /// is empty after the pass, the executor performs its terminal
    /// shutdown.  Returns the wait hint: 0 while more ready work remains,
    /// the time to the nearest pending deadline otherwise, or the idle
    /// sentinel when there is neither.
    ///
    /// Everything one tick guarantees is collected in `tick_post`.
    pub fn poll(&mut self, now: u64) -> (hint: u64)
        requires
            old(self).wf(),
        ensures
            tick_post(*old(self), *final(self), now, hint),
    {
        self.in_runtime = true;
        let ghost applied = apply_timer_ops(self.timers@, self.timer_queue@);
        proof {
            assert(applied == apply_timer_ops(old(self).timers@, old(self).timer_queue@));
        }
        let fired = self.process_timers(now);
        let ghost q0 = self.poll_again@;
        let ghost after_timers = self.timers;
        if fired.len() > 0 {
            let mut fi: usize = 0;
            while fi < fired.len()
                invariant
                    self.wf(),
                    fi <= fired@.len(),
                    self.in_runtime,
                    self.timer_queue@.len() == 0,
                    self.timers == after_timers,
                    self.timers_after(now),
                    self.poll_again@ == q0 + fired@.take(fi as int).map_values(
                        |e: TimerEntry| e.waker,
                    ),
                    self.host_wake_signal == old(self).host_wake_signal,
                    self.yield_flag == old(self).yield_flag,
                    self.next_task_id == old(self).next_task_id,
                    self.shut_down == old(self).shut_down,
                    self.tasks == old(self).tasks,
                    self.joins == old(self).joins,
                    self.channels == old(self).channels,
                decreases fired@.len() - fi,
            {
                self.wake_task(fired[fi].waker);
                proof {
                    assert(self.poll_again@ =~= q0 + fired@.take(fi + 1).map_values(
                        |e: TimerEntry| e.waker,
                    ));
                }
                fi = fi + 1;
            }
        }
        let ghost mut pushed: Seq<u64> = fired@.map_values(|e: TimerEntry| e.waker);
        let ghost mut skipped: int = 0;
        proof {
            if fired@.len() > 0 {
                assert(fired@.take(fired@.len() as int) =~= fired@);
            }
            assert(self.poll_again@ =~= (q0 + pushed).skip(0));
            assert forall|k: (u64, u64)| #[trigger]
                applied.contains_key(k) && k.0 <= now implies exists|i: int|
                0 <= i < pushed.len() && #[trigger] pushed[i] == applied[k] by {
                assert(exists|i: int| 0 <= i < fired@.len() && key_of(#[trigger] fired@[i]) == k);
                let j = choose|j: int| 0 <= j < fired@.len() && key_of(#[trigger] fired@[j]) == k;
                assert(pushed[j] == fired@[j].waker);
                assert(applied[k] == fired@[j].waker);
            }
            if old(self).quiescent_at(now) {
                assert(fired@.len() == 0) by {
                    if fired@.len() > 0 {
                        let e = fired@[0];
                        assert(applied.contains_key(key_of(e)));
                        lemma_apply_timer_ops_keys(
                            old(self).timers@,
                            old(self).timer_queue@,
                            key_of(e),
                        );
                        if old(self).timers@.contains_key(key_of(e)) {
                            let pairs = old(self).timers.entries@.map_values(
                                |x: TimerEntry| (key_of(x), x.waker),
                            );
                            lemma_assoc_map_contains(pairs, key_of(e));
                        }
                        assert(e.deadline > now);
                    }
                }
                assert(self.poll_again@ =~= q0);
            }
        }
        let ghost woken = *self;
        proof {
            assert(woken.timers == after_timers);
        }
        loop
            invariant
                self.wf(),
                self.in_runtime,
                self.timers == woken.timers,
                self.timers_after(now),
                self.ops_after(now),
                self.host_wake_signal == old(self).host_wake_signal,
                self.yield_flag == old(self).yield_flag,
                self.next_task_id == old(self).next_task_id,
                self.shut_down == old(self).shut_down,
                self.tasks.entries@.len() <= old(self).tasks.entries@.len(),
                forall|k: u64| self.joins@.contains_key(k) == old(self).joins@.contains_key(k),
                forall|k: u64| #[trigger]
                    old(self).joins@.contains_key(k) && old(self).joins@[k].done
                        ==> self.joins@[k].done && (self.joins@[k].result == old(self).joins@[k].result || self.joins@[k].result is None),
                forall|k: u64| #[trigger]
                    old(self).tasks@.contains_key(k) ==> (self.tasks@.contains_key(k)
                        && self.tasks@[k].steps == old(self).tasks@[k].steps
                        && self.tasks@[k].result == old(self).tasks@[k].result) || (
                    self.joins@.contains_key(k) && self.joins@[k].done && (self.joins@[k].result
                        == Some(old(self).tasks@[k].result) || self.joins@[k].result is None)),
                0 <= skipped <= q0.len() + pushed.len(),
                self.poll_again@ == (q0 + pushed).skip(skipped),
                forall|k: (u64, u64)| #[trigger]
                    applied.contains_key(k) && k.0 <= now ==> exists|i: int|
                        0 <= i < pushed.len() && #[trigger] pushed[i] == applied[k],
                old(self).quiescent_at(now) ==> self.poll_again@.len() == 0
                    && self.timer_queue@.len() == 0,
                old(self).quiescent_at(now) && old(self).timer_queue@.len() == 0
                    ==> self.tasks == old(self).tasks && self.joins == old(self).joins
                        && self.channels == old(self).channels && self.timers == old(self).timers,
            ensures
                self.wf(),
                self.in_runtime,
                self.timers == woken.timers,
                self.timers_after(now),
                self.ops_after(now),
                self.host_wake_signal == old(self).host_wake_signal,
                self.yield_flag == old(self).yield_flag,
                self.next_task_id == old(self).next_task_id,
                self.shut_down == old(self).shut_down,
                self.tasks.entries@.len() <= old(self).tasks.entries@.len(),
                forall|k: u64| self.joins@.contains_key(k) == old(self).joins@.contains_key(k),
                forall|k: u64| #[trigger]
                    old(self).joins@.contains_key(k) && old(self).joins@[k].done
                        ==> self.joins@[k].done && (self.joins@[k].result == old(self).joins@[k].result || self.joins@[k].result is None),
                forall|k: u64| #[trigger]
                    old(self).tasks@.contains_key(k) ==> (self.tasks@.contains_key(k)
                        && self.tasks@[k].steps == old(self).tasks@[k].steps
                        && self.tasks@[k].result == old(self).tasks@[k].result) || (
                    self.joins@.contains_key(k) && self.joins@[k].done && (self.joins@[k].result
                        == Some(old(self).tasks@[k].result) || self.joins@[k].result is None)),
                0 <= skipped <= q0.len() + pushed.len(),
                self.poll_again@ == (q0 + pushed).skip(skipped),
                forall|k: (u64, u64)| #[trigger]
                    applied.contains_key(k) && k.0 <= now ==> exists|i: int|
                        0 <= i < pushed.len() && #[trigger] pushed[i] == applied[k],
                self.poll_again@.len() == 0 || self.yield_flag,
                old(self).quiescent_at(now) ==> self.poll_again@.len() == 0
                    && self.timer_queue@.len() == 0,
                old(self).quiescent_at(now) && old(self).timer_queue@.len() == 0
                    ==> self.tasks == old(self).tasks && self.joins == old(self).joins
                        && self.channels == old(self).channels && self.timers == old(self).timers,
            decreases self.rt_measure(),
        {
            proof {
                lemma_tasks_measure_nonneg(self.tasks.entries@);
            }
            let ghost before = *self;
            let o = self.poll_next(now);
            proof {
                lemma_tasks_measure_nonneg(self.tasks.entries@);
                assert forall|i: int| 0 <= i < self.timer_queue@.len() implies ((
                #[trigger] self.timer_queue@[i]) matches TimerOp::Insert(e) ==> e.deadline
                    > now) by {
                    if i < before.timer_queue@.len() {
                        assert(self.timer_queue@[i] == before.timer_queue@[i]);
                    }
                }
                if !(o is EmptyQueue) {
                    let prev_q = (q0 + pushed).skip(skipped);
                    if self.poll_again@ == prev_q.drop_first() {
                        assert(self.poll_again@ =~= (q0 + pushed).skip(skipped + 1));
                        skipped = skipped + 1;
                    } else {
                        let w = choose|w: u64|
                            self.poll_again@ == prev_q.drop_first().push(w);
                        assert(self.poll_again@ =~= (q0 + pushed.push(w)).skip(skipped + 1));
                        assert forall|k: (u64, u64)| #[trigger]
                            applied.contains_key(k) && k.0 <= now implies exists|i: int|
                            0 <= i < pushed.push(w).len() && #[trigger] pushed.push(w)[i]
                                == applied[k] by {
                            let i = choose|i: int|
                                0 <= i < pushed.len() && #[trigger] pushed[i] == applied[k];
                            assert(pushed.push(w)[i] == applied[k]);
                        }
                        pushed = pushed.push(w);
                        skipped = skipped + 1;
                    }
                }
                assert forall|k: u64| #[trigger]
                    old(self).joins@.contains_key(k) && old(self).joins@[k].done implies
                    self.joins@[k].done && (self.joins@[k].result == old(self).joins@[k].result
                    || self.joins@[k].result is None) by {
                    assert(before.joins@.contains_key(k));
                    assert(before.joins@[k].done);
                }
                assert forall|k: u64| #[trigger]
                    old(self).tasks@.contains_key(k) implies (self.tasks@.contains_key(k)
                    && self.tasks@[k].steps == old(self).tasks@[k].steps && self.tasks@[k].result
                    == old(self).tasks@[k].result) || (self.joins@.contains_key(k)
                    && self.joins@[k].done && (self.joins@[k].result == Some(
                    old(self).tasks@[k].result,
                ) || self.joins@[k].result is None)) by {
                    if before.tasks@.contains_key(k) && before.tasks@[k].steps == old(self).tasks@[k].steps && before.tasks@[k].result == old(self).tasks@[k].result {
                        match o {
                            PollOutcome::Completed(id) => {
                                if k != id {
                                    assert(before.tasks@.remove(id).contains_key(k));
                                    assert(self.tasks@[k] == before.tasks@[k]);
                                }
                            },
                            PollOutcome::StillPending(id) => {
                                if k != id {
                                    assert(before.tasks@.remove(id).contains_key(k));
                                    assert(self.tasks@.remove(id) == before.tasks@.remove(id));
                                    assert(self.tasks@.remove(id)[k] == before.tasks@.remove(
                                        id,
                                    )[k]);
                                    assert(self.tasks@.contains_key(k));
                                    assert(self.tasks@[k] == before.tasks@[k]);
                                }
                            },
                            _ => {},
                        }
                    } else {
                        assert(before.joins@.contains_key(k) && before.joins@[k].done);
                    }
                }
            }
            match o {
                PollOutcome::EmptyQueue => {
                    break ;
                },
                PollOutcome::StillPending(_id) => {
                    if self.yield_flag {
                        break ;
                    }
                },
                _ => {
                },
            }
        }
        self.in_runtime = false;
        if self.tasks.is_empty() {
            self.shutdown();
            proof {
                skipped = q0.len() + pushed.len() as int;
                assert(self.poll_again@ =~= (q0 + pushed).skip(skipped));
            }
        }
        let hint: u64 = if self.poll_again.len() > 0 || self.timer_queue.len() > 0 {
            0
        } else {
            match self.timers.next_deadline() {
                Some(d) => {
                    proof {
                        assert(self.timers.entries@[0].deadline > now);
                    }
                    d - now
                },
                None => u64::MAX,
            }
        };
        proof {
            assert(self.poll_again@ == (old(self).poll_again@ + pushed).skip(skipped));
            let gapplied = apply_timer_ops(old(self).timers@, old(self).timer_queue@);
            assert(gapplied == applied);
            if self.tasks.entries@.len() > 0 {
                assert(self.timers == after_timers);
                assert forall|k: (u64, u64)| #[trigger]
                    gapplied.contains_key(k) && k.0 > now implies self.timers@.contains_key(k)
                    && self.timers@[k] == gapplied[k] by {
                    assert(after_timers@.contains_key(k) && after_timers@[k] == gapplied[k]);
                }
            }
        }
        hint
    }
}

/// Spawn a task on the runtime (see `Runtime::spawn`).
pub fn spawn(rt: &mut Runtime, steps: Vec<Step>, result: u64) -> (h: JoinHandle)
    requires
        old(rt).wf(),
        old(rt).next_task_id < u64::MAX,
    ensures
        final(rt).wf(),
        h.task_id == old(rt).next_task_id,
        !old(rt).spawned(h.task_id),
        final(rt).live(h.task_id),
        final(rt).tasks@[h.task_id].steps@ == steps@,
        final(rt).tasks@[h.task_id].pc == 0,
        final(rt).tasks@[h.task_id].pending is Idle,
        final(rt).tasks@[h.task_id].result == result,
        final(rt).tasks@.remove(h.task_id) == old(rt).tasks@,
        final(rt).joins@.remove(h.task_id) == old(rt).joins@,
        final(rt).poll_again@ == old(rt).poll_again@.push(h.task_id),
{
    rt.spawn(steps, result)
}

/// A chain of `k` ticks at `now`, each reporting more ready work (a zero
/// hint) with the yield flag clear — the passes `poll_runtime` takes
/// before its last one.
pub open spec fn tick_seq(pre: Runtime, post: Runtime, now: u64, k: nat) -> bool
    decreases k,
{
    if k == 0 {
        post == pre
    } else {
        exists|mid: Runtime|
            #[trigger] tick_post(pre, mid, now, 0) && !mid.yield_flag && tick_seq(
                mid,
                post,
                now,
                (k - 1) as nat,
            )
    }
}

/// A chain of hint-zero ticks extends by one tick at its back.
proof fn lemma_tick_seq_extend(pre: Runtime, mid: Runtime, post: Runtime, now: u64, k: nat)
    requires
        tick_seq(pre, mid, now, k),
        tick_post(mid, post, now, 0),
        !post.yield_flag,
    ensures
        tick_seq(pre, post, now, (k + 1) as nat),
    decreases k,
{
    if k == 0 {
        assert(tick_post(pre, post, now, 0) && !post.yield_flag && tick_seq(post, post, now, 0));
    } else {
        let m1 = choose|m: Runtime|
            #[trigger] tick_post(pre, m, now, 0) && !m.yield_flag && tick_seq(
                m,
                mid,
                now,
                (k - 1) as nat,
            );
        lemma_tick_seq_extend(m1, mid, post, now, (k - 1) as nat);
        assert(tick_post(pre, m1, now, 0) && !m1.yield_flag && tick_seq(m1, post, now, k));
    }
}

/// The host-facing poll entry point: tick until a pass reports a non-zero
/// wait hint or the host's yield flag asks for control back, and return
/// the last hint.  The host sleeps roughly that long (or until an
/// out-of-band wake) and calls again.
///
/// The whole call is a chain of ticks: some passes that each reported
/// more ready work with the yield flag clear (`tick_seq`), then the final
/// pass, whose full guarantees (`tick_post`) relate its start state to
/// the result.  The task-table guarantees compose across the chain and
/// are also stated here directly.
///
/// This terminates: a tick taken with the yield flag clear leaves the
/// runtime quiescent at `now`, and a tick from a quiescent state reports
/// a non-zero hint.
pub fn poll_runtime(rt: &mut Runtime, now: u64) -> (hint: u64)
    requires
        old(rt).wf(),
    ensures
        final(rt).wf(),
        !final(rt).in_runtime,
        final(rt).yield_flag == old(rt).yield_flag,
        hint != 0 || final(rt).yield_flag,
        hint == final(rt).wait_hint_spec(now),
        exists|k: nat, mid: Runtime|
            #[trigger] tick_seq(*old(rt), mid, now, k) && tick_post(mid, *final(rt), now, hint),
        final(rt).timers_after(now),
        final(rt).ops_after(now),
        final(rt).tasks.entries@.len() <= old(rt).tasks.entries@.len(),
        forall|k: u64| final(rt).joins@.contains_key(k) == old(rt).joins@.contains_key(k),
        forall|k: u64| #[trigger]
            old(rt).joins@.contains_key(k) && old(rt).joins@[k].done ==> final(rt).joins@[k].done
                && (final(rt).joins@[k].result == old(rt).joins@[k].result
                || final(rt).joins@[k].result is None),
        forall|k: u64| #[trigger]
            old(rt).tasks@.contains_key(k) ==> (final(rt).tasks@.contains_key(k)
                && final(rt).tasks@[k].steps == old(rt).tasks@[k].steps
                && final(rt).tasks@[k].result == old(rt).tasks@[k].result) || (
            final(rt).joins@.contains_key(k) && final(rt).joins@[k].done && (
            final(rt).joins@[k].result == Some(old(rt).tasks@[k].result)
                || final(rt).joins@[k].result is None)) || final(rt).tasks.entries@.len() == 0,
        old(rt).quiescent_at(now) && old(rt).timer_queue@.len() == 0
            && old(rt).tasks.entries@.len() > 0 ==> final(rt).timers == old(rt).timers && final(rt).tasks == old(rt).tasks && final(rt).joins == old(rt).joins && final(rt).channels == old(rt).channels,
{
    let ghost mut k: nat = 0;
    loop
        invariant
            rt.wf(),
            rt.yield_flag == old(rt).yield_flag,
            tick_seq(*old(rt), *rt, now, k),
            old(rt).quiescent_at(now) ==> k == 0,
            rt.tasks.entries@.len() <= old(rt).tasks.entries@.len(),
            forall|kk: u64| rt.joins@.contains_key(kk) == old(rt).joins@.contains_key(kk),
            forall|kk: u64| #[trigger]
                old(rt).joins@.contains_key(kk) && old(rt).joins@[kk].done
                    ==> rt.joins@[kk].done && (rt.joins@[kk].result == old(rt).joins@[kk].result
                    || rt.joins@[kk].result is None),
            forall|kk: u64| #[trigger]
                old(rt).tasks@.contains_key(kk) ==> (rt.tasks@.contains_key(kk)
                    && rt.tasks@[kk].steps == old(rt).tasks@[kk].steps && rt.tasks@[kk].result
                    == old(rt).tasks@[kk].result) || (rt.joins@.contains_key(kk)
                    && rt.joins@[kk].done && (rt.joins@[kk].result == Some(
                    old(rt).tasks@[kk].result,
                ) || rt.joins@[kk].result is None)) || rt.tasks.entries@.len() == 0,
        decreases (if rt.quiescent_at(now) {
            0int
        } else {
            1int
        }),
    {
        let ghost pre_iter = *rt;
        let next = rt.poll(now);
        proof {
            assert forall|kk: u64| #[trigger]
                old(rt).joins@.contains_key(kk) && old(rt).joins@[kk].done implies
                rt.joins@[kk].done && (rt.joins@[kk].result == old(rt).joins@[kk].result
                || rt.joins@[kk].result is None) by {
                assert(pre_iter.joins@.contains_key(kk));
                assert(pre_iter.joins@[kk].done);
            }
            assert forall|kk: u64| #[trigger]
                old(rt).tasks@.contains_key(kk) implies (rt.tasks@.contains_key(kk)
                && rt.tasks@[kk].steps == old(rt).tasks@[kk].steps && rt.tasks@[kk].result == old(rt).tasks@[kk].result) || (rt.joins@.contains_key(kk) && rt.joins@[kk].done && (
            rt.joins@[kk].result == Some(old(rt).tasks@[kk].result) || rt.joins@[kk].result
                is None)) || rt.tasks.entries@.len() == 0 by {
                if pre_iter.tasks@.contains_key(kk) && pre_iter.tasks@[kk].steps == old(rt).tasks@[kk].steps && pre_iter.tasks@[kk].result == old(rt).tasks@[kk].result {
                    assert(pre_iter.tasks@.contains_key(kk));
                } else if pre_iter.joins@.contains_key(kk) && pre_iter.joins@[kk].done {
                    assert(pre_iter.joins@.contains_key(kk) && pre_iter.joins@[kk].done);
                } else {
                    assert(pre_iter.tasks.entries@.len() == 0);
                }
            }
        }
        if next != 0 || rt.yield_flag {
            proof {
                assert(tick_seq(*old(rt), pre_iter, now, k) && tick_post(
                    pre_iter,
                    *rt,
                    now,
                    next,
                ));
            }
            return next;
        }
        proof {
            lemma_tick_seq_extend(*old(rt), pre_iter, *rt, now, k);
            k = k + 1;
        }
    }
}

/// Drive the runtime's terminal shutdown (see `Runtime::shutdown`).
pub fn shutdown_runtime(rt: &mut Runtime)
    requires
        old(rt).wf(),
    ensures
        final(rt).wf(),
        final(rt).shut_down,
        final(rt).tasks@ == Map::<u64, Task>::empty(),
        final(rt).tasks.entries@.len() == 0,
        final(rt).poll_again@.len() == 0,
        final(rt).timers@ == Map::<(u64, u64), u64>::empty(),
        final(rt).timers.entries@.len() == 0,
        final(rt).timer_queue@.len() == 0,
        final(rt).joins == old(rt).joins,
        final(rt).channels == old(rt).channels,
        final(rt).next_task_id == old(rt).next_task_id,
        final(rt).in_runtime == old(rt).in_runtime,
        final(rt).yield_flag == old(rt).yield_flag,
        final(rt).host_wake_signal == old(rt).host_wake_signal,
{
    rt.shutdown()
}

/// The wait hint counts down: while no ready work is queued and no timer
/// has yet come due, a later reading of the hint is smaller by exactly
/// the elapsed time (or stays at the idle sentinel with no timer
/// pending).  Combined with `tick_post` — a tick from a quiescent state
/// with an empty op log leaves the timers untouched — this is the
/// monotone decrease of the hint across repeated polls without
/// intervening work.
pub proof fn lemma_wait_hint_monotone(rt: &Runtime, now1: u64, now2: u64)
    requires
        !rt.ready_work_queued(),
        rt.timers_after(now2),
        now1 <= now2,
    ensures
        rt.wait_hint_spec(now2) <= rt.wait_hint_spec(now1),
        rt.timers.entries@.len() > 0 ==> rt.wait_hint_spec(now1) - rt.wait_hint_spec(now2)
            == now2 - now1,
{
    if rt.timers.entries@.len() > 0 {
        assert(rt.timers.entries@[0].deadline > now2);
    }
}

/// Task lifecycle: a live task was spawned and has not yet completed —
/// its result slot is still unfilled — and a task marked done is no
/// longer in the table.  Completion happens exactly once, filling the
/// slot and removing the task (see `Runtime::poll_next`); a task never
/// polled to completion stays in the table until a shutdown drain.
pub proof fn lemma_task_lifecycle(rt: &Runtime, id: u64)
    requires
        rt.wf(),
    ensures
        rt.live(id) ==> rt.spawned(id) && !rt.joins@[id].done && rt.joins@[id].result is None,
        rt.spawned(id) && rt.joins@[id].done ==> !rt.live(id),
{
    lemma_assoc_map_contains(rt.tasks.entries@, id);
    if rt.live(id) {
        let i = choose|i: int|
            0 <= i < rt.tasks.entries@.len() && (#[trigger] rt.tasks.entries@[i]).0 == id;
        assert(rt.joins@.contains_key(id) && !rt.joins@[id].done && rt.joins@[id].result is None);
    }
}

} // verus!
