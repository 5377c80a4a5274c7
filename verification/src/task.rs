//! Tasks as suspension-point programs.
//!
//! A task only ever suspends at three designated points: awaiting a join
//! handle, awaiting a sleep, or the explicit cooperative yield; ordinary
//! synchronous code never suspends.  A task is therefore modelled by the
//! sequence of suspension points it will pass through (`steps`), a program
//! counter, the in-progress wait for the current step, the result it
//! completes with, and the log of channel messages its receives returned.
//!
//! `task_measure` bounds the number of scheduler polls a task can still
//! absorb while making progress; it is what proves that a tick pass over
//! the ready queue terminates.

use vstd::prelude::*;

use crate::ipc::Recv;
use crate::runtime::JoinHandle;
use crate::time::Sleep;
use crate::yielding::Yield;

verus! {

/// One suspension point of a task's program.
#[derive(Clone, Copy, Debug, PartialEq, Eq, Structural)]
pub enum Step {
    /// Hand control back to the scheduler for one ready-queue pass.
    Yield,
    /// Sleep until the given absolute instant (microseconds).
    SleepUntil(u64),
    /// Await completion of the task with the given id.
    AwaitJoin(u64),
    /// Await one message on the channel with the given id.
    RecvChan(u32),
}

/// The wait a task is currently suspended on, if any.
#[derive(Clone, Copy)]
pub enum PendingWait {
    /// Between steps: the next poll starts the next step.
    Idle,
    /// Inside a cooperative yield.
    Yielding(Yield),
    /// Inside a sleep.
    Sleeping(Sleep),
    /// Awaiting another task's result.
    Joining(JoinHandle),
    /// Awaiting a channel message.
    Receiving(Recv),
}

/// A spawned asynchronous computation.
pub struct Task {
    /// The suspension points still ahead of (and behind) the task.
    pub steps: Vec<Step>,
    /// Index of the current step; steps before it are complete.
    pub pc: usize,
    /// The wait the current step is suspended on.
    pub pending: PendingWait,
    /// The value the task completes with.
    pub result: u64,
    /// Messages received from channels so far, in arrival order.
    pub received: Vec<Vec<u8>>,
}

/// Well-formedness: the program counter is in range; a task suspended on a
/// wait is still short of its final step, the wait belongs to the current
/// step, and a suspended yield has already booked its wake.
pub open spec fn task_wf(t: Task) -> bool {
    &&& t.pc <= t.steps@.len()
    &&& !(t.pending is Idle) ==> t.pc < t.steps@.len()
    &&& match t.pending {
        PendingWait::Idle => true,
        PendingWait::Yielding(y) => t.steps@[t.pc as int] is Yield && !y.armed,
        PendingWait::Sleeping(s) => t.steps@[t.pc as int] matches Step::SleepUntil(d) && s.until
            == d,
        PendingWait::Joining(h) => t.steps@[t.pc as int] matches Step::AwaitJoin(id) && h.task_id
            == id,
        PendingWait::Receiving(r) => t.steps@[t.pc as int] matches Step::RecvChan(c) && r.chan
            == c,
    }
}

/// Bound on how many more poll attempts the task can take while making
/// progress: two per remaining step — starting a step's wait costs one,
/// completing it costs another — and one more to observe completion.
pub open spec fn task_measure(t: Task) -> int {
    2 * (t.steps@.len() - t.pc as int) + (if t.pending is Idle {
        1int
    } else {
        0int
    })
}

/// A well-formed task's measure is at least one: observing completion
/// always costs a poll.
pub proof fn lemma_task_measure_pos(t: Task)
    requires
        task_wf(t),
    ensures
        task_measure(t) >= 1,
{
}

/// Number of cooperative yields the task still owes a ready-queue pass
/// for: the yield steps it has not passed yet, counting a yield whose wake
/// is already booked as paid.
pub open spec fn yield_debt(t: Task) -> int {
    count_yields(t.steps@.skip(t.pc as int)) - (if t.pending matches PendingWait::Yielding(
        y,
    ) && !y.armed {
        1int
    } else {
        0int
    })
}

/// How many yield steps a program fragment holds.
pub open spec fn count_yields(s: Seq<Step>) -> int
    decreases s.len(),
{
    if s.len() == 0 {
        0
    } else {
        (if s[0] is Yield {
            1int
        } else {
            0int
        }) + count_yields(s.drop_first())
    }
}

/// Peeling the step at `i` off the remaining program removes its yield.
pub proof fn lemma_count_yields_skip(s: Seq<Step>, i: int)
    requires
        0 <= i < s.len(),
    ensures
        count_yields(s.skip(i)) == (if s[i] is Yield {
            1int
        } else {
            0int
        }) + count_yields(s.skip(i + 1)),
{
    assert(s.skip(i)[0] == s[i]);
    assert(s.skip(i).drop_first() =~= s.skip(i + 1));
}

/// A finished program has no yields left.
pub proof fn lemma_count_yields_end(s: Seq<Step>, i: int)
    requires
        i == s.len(),
    ensures
        count_yields(s.skip(i)) == 0,
{
    assert(s.skip(i) =~= Seq::<Step>::empty());
}

/// A freshly spawned task owes one ready-queue pass per yield step of its
/// program.  Since a poll pays off at most one yield and completion
/// requires the debt to be zero (see `Runtime::poll_next`), a task whose
/// program yields `n` times is polled at least `n` further times — over at
/// least `n` distinct ready-queue passes — before it can complete.
pub proof fn lemma_fresh_task_yield_debt(t: Task)
    requires
        t.pc == 0,
        t.pending is Idle,
    ensures
        yield_debt(t) == count_yields(t.steps@),
{
    assert(t.steps@.skip(0) =~= t.steps@);
}

/// Total measure of a task-table fragment.
pub open spec fn tasks_measure(s: Seq<(u64, Task)>) -> int
    decreases s.len(),
{
    if s.len() == 0 {
        0
    } else {
        task_measure(s[0].1) + tasks_measure(s.drop_first())
    }
}

/// A table of well-formed tasks has a non-negative total measure.
pub proof fn lemma_tasks_measure_nonneg(s: Seq<(u64, Task)>)
    requires
        forall|i: int| 0 <= i < s.len() ==> task_wf((#[trigger] s[i]).1),
    ensures
        tasks_measure(s) >= 0,
    decreases s.len(),
{
    if s.len() > 0 {
        lemma_task_measure_pos(s[0].1);
        lemma_tasks_measure_nonneg(s.drop_first());
    }
}

/// Deleting an entry subtracts exactly its task's measure.
pub proof fn lemma_tasks_measure_remove(s: Seq<(u64, Task)>, i: int)
    requires
        0 <= i < s.len(),
    ensures
        tasks_measure(s.remove(i)) == tasks_measure(s) - task_measure(s[i].1),
    decreases s.len(),
{
    if i == 0 {
        assert(s.remove(0) =~= s.drop_first());
    } else {
        assert(s.remove(i).drop_first() =~= s.drop_first().remove(i - 1));
        assert(s.remove(i)[0] == s[0]);
        lemma_tasks_measure_remove(s.drop_first(), i - 1);
    }
}

/// Appending an entry adds exactly its task's measure.
pub proof fn lemma_tasks_measure_push(s: Seq<(u64, Task)>, k: u64, t: Task)
    ensures
        tasks_measure(s.push((k, t))) == tasks_measure(s) + task_measure(t),
    decreases s.len(),
{
    assert(s.push((k, t))[0] == if s.len() == 0 { (k, t) } else { s[0] });
    if s.len() == 0 {
        assert(s.push((k, t)).drop_first() =~= Seq::<(u64, Task)>::empty());
        assert(tasks_measure(Seq::<(u64, Task)>::empty()) == 0);
    } else {
        assert(s.push((k, t)).drop_first() =~= s.drop_first().push((k, t)));
        assert(s.push((k, t))[0] == s[0]);
        lemma_tasks_measure_push(s.drop_first(), k, t);
    }
}


} // verus!
