use wassup::runtime::{poll_runtime, shutdown_runtime, spawn, JoinHandle, PollOutcome, Runtime};
use wassup::task::Step;
use wassup::yielding::{auto_yield, yield_now, Yield};
use wassup::IDLE_WAIT_HINT;

#[test]
fn empty_task_completes_on_first_poll() {
    let mut rt = Runtime::new();
    let h = spawn(&mut rt, vec![], 42);
    assert_eq!(h.task_id, 0);
    assert_eq!(rt.tasks.len(), 1);
    match rt.poll_next(0) {
        PollOutcome::Completed(id) => assert_eq!(id, h.task_id),
        _ => panic!("expected completion"),
    }
    let slot = rt.joins.get(h.task_id).expect("join slot must persist");
    assert!(slot.done);
    assert_eq!(slot.result, Some(42));
    assert_eq!(rt.tasks.len(), 0);
}

#[test]
fn join_handle_reads_result_exactly_once() {
    let mut rt = Runtime::new();
    let h = spawn(&mut rt, vec![], 7);
    rt.poll_next(0);
    assert_eq!(h.poll(&mut rt, 99), Some(7));
    // the slot is drained on first read; later polls register and pend
    assert_eq!(h.poll(&mut rt, 99), None);
    assert_eq!(rt.joins.get(h.task_id).unwrap().waker, Some(99));
}

#[test]
fn task_waits_for_another_tasks_result() {
    let mut rt = Runtime::new();
    let producer = spawn(&mut rt, vec![Step::Yield], 5);
    let consumer = spawn(&mut rt, vec![Step::AwaitJoin(producer.task_id)], 6);
    let hint = rt.poll(0);
    // both ran to completion within one tick: the producer's completion
    // woke the registered join waiter
    assert!(rt.is_shut_down());
    assert_eq!(hint, IDLE_WAIT_HINT);
    assert!(rt.joins.get(consumer.task_id).unwrap().done);
    assert_eq!(rt.joins.get(consumer.task_id).unwrap().result, Some(6));
    // the consumer drained the producer's slot when its await resolved
    assert_eq!(rt.joins.get(producer.task_id).unwrap().result, None);
    assert!(rt.joins.get(producer.task_id).unwrap().done);
}

#[test]
fn stale_queue_entry_is_discarded_without_effect() {
    let mut rt = Runtime::new();
    let h = spawn(&mut rt, vec![], 1);
    match rt.poll_next(0) {
        PollOutcome::Completed(_) => {},
        _ => panic!("expected completion"),
    }
    // a late wake for the completed task leaves a dangling queue entry
    rt.wake_task(h.task_id);
    let joins_before = rt.joins.len();
    match rt.poll_next(0) {
        PollOutcome::Stale(id) => assert_eq!(id, h.task_id),
        _ => panic!("expected a stale pop"),
    }
    assert_eq!(rt.tasks.len(), 0);
    assert_eq!(rt.joins.len(), joins_before);
    assert!(rt.joins.get(h.task_id).unwrap().done);
}

#[test]
fn yielding_task_needs_one_pass_per_yield() {
    let mut rt = Runtime::new();
    let h = spawn(&mut rt, vec![Step::Yield, Step::Yield, Step::Yield], 0);
    let mut passes = 0u64;
    loop {
        match rt.poll_next(0) {
            PollOutcome::StillPending(id) => {
                assert_eq!(id, h.task_id);
                passes += 1;
            },
            PollOutcome::Completed(id) => {
                assert_eq!(id, h.task_id);
                passes += 1;
                break;
            },
            _ => panic!("queue should not run dry before completion"),
        }
    }
    // three yields cost three pending passes plus the completing one
    assert_eq!(passes, 4);
}

#[test]
fn tick_with_no_work_shuts_down_and_reports_idle() {
    let mut rt = Runtime::new();
    let hint = rt.poll(0);
    assert_eq!(hint, IDLE_WAIT_HINT);
    assert!(rt.is_shut_down());
    // further ticks stay idle
    assert_eq!(rt.poll(5), IDLE_WAIT_HINT);
}

#[test]
fn yield_flag_cuts_a_pass_short() {
    let mut rt = Runtime::new();
    let h = spawn(&mut rt, vec![Step::Yield, Step::Yield], 0);
    rt.set_yield_flag(true);
    let hint = rt.poll(0);
    // the pass stopped after one pending poll with the re-queued id left over
    assert_eq!(hint, 0);
    assert!(!rt.is_shut_down());
    assert!(rt.tasks.contains_key(h.task_id));
    // with the flag cleared the next tick finishes the task
    rt.set_yield_flag(false);
    let hint = rt.poll(0);
    assert_eq!(hint, IDLE_WAIT_HINT);
    assert!(rt.is_shut_down());
}

#[test]
fn cut_short_pass_preserves_leftover_queue_order() {
    let mut rt = Runtime::new();
    let a = spawn(&mut rt, vec![Step::Yield, Step::Yield], 0);
    let b = spawn(&mut rt, vec![Step::Yield], 0);
    rt.set_yield_flag(true);
    // the pass pops the first task, which suspends on its yield (re-queued
    // at the back), then sees the flag and stops: the unreached entry
    // stays at the front, in order
    assert_eq!(rt.poll(0), 0);
    assert_eq!(rt.poll_again.len(), 2);
    assert_eq!(rt.poll_again[0], b.task_id);
    assert_eq!(rt.poll_again[1], a.task_id);
}

#[test]
fn wakes_inside_a_tick_do_not_signal_the_host() {
    let mut rt = Runtime::new();
    spawn(&mut rt, vec![Step::Yield, Step::Yield], 0);
    rt.poll(0);
    // every wake happened inside the pass, under the re-entrancy guard
    assert!(!rt.host_wake_signal);
}

#[test]
fn wake_outside_a_tick_signals_the_host() {
    let mut rt = Runtime::new();
    rt.wake_task(3);
    assert!(rt.take_host_wake());
    assert!(!rt.take_host_wake());
}

#[test]
fn unpolled_tasks_stay_until_shutdown_drain() {
    let mut rt = Runtime::new();
    let a = spawn(&mut rt, vec![Step::Yield], 1);
    let b = spawn(&mut rt, vec![Step::Yield], 2);
    assert!(rt.tasks.contains_key(a.task_id));
    assert!(rt.tasks.contains_key(b.task_id));
    shutdown_runtime(&mut rt);
    assert!(rt.is_shut_down());
    assert_eq!(rt.tasks.len(), 0);
    // force-dropped without completion notification
    assert!(!rt.joins.get(a.task_id).unwrap().done);
    assert!(!rt.joins.get(b.task_id).unwrap().done);
}

#[test]
fn spawned_ids_are_distinct() {
    let mut rt = Runtime::new();
    let a = spawn(&mut rt, vec![], 0);
    let b = spawn(&mut rt, vec![Step::Yield], 0);
    assert_ne!(a.task_id, b.task_id);
    rt.poll_next(0);
    let c = spawn(&mut rt, vec![], 0);
    assert_ne!(c.task_id, a.task_id);
    assert_ne!(c.task_id, b.task_id);
}

#[test]
fn poll_runtime_loops_until_nonzero_hint() {
    let mut rt = Runtime::new();
    spawn(&mut rt, vec![Step::SleepUntil(1_000)], 0);
    // the first pass leaves the sleep's timer op queued (a zero hint); the
    // exported entry point keeps ticking until the hint settles
    let hint = poll_runtime(&mut rt, 0);
    assert_eq!(hint, 1_000);
}

#[test]
fn yield_primitive_is_single_use() {
    let mut rt = Runtime::new();
    let mut y = yield_now();
    assert!(y.armed);
    assert!(!y.poll(&mut rt, 5));
    assert!(y.poll(&mut rt, 5));
    let d = Yield::default();
    assert!(d.armed);
}

#[test]
fn auto_yield_follows_host_flag() {
    let mut rt = Runtime::new();
    assert!(!auto_yield(&rt).armed);
    rt.set_yield_flag(true);
    assert!(auto_yield(&rt).armed);
}

#[test]
fn join_handle_on_unknown_id_stays_pending() {
    let mut rt = Runtime::new();
    let h = JoinHandle { task_id: 12345 };
    assert_eq!(h.poll(&mut rt, 1), None);
}
