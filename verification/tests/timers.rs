use wassup::runtime::{spawn, Runtime};
use wassup::task::Step;
use wassup::time::{sleep_for, sleep_until};
use wassup::timer::{TimerEntry, TimerOp, TimerSet};
use wassup::IDLE_WAIT_HINT;

#[test]
fn timers_fire_in_deadline_order() {
    let mut rt = Runtime::new();
    let late = spawn(&mut rt, vec![Step::SleepUntil(500)], 0);
    let early = spawn(&mut rt, vec![Step::SleepUntil(300)], 0);
    // one pass at time 0 registers both sleeps
    assert_eq!(rt.poll(0), 0);
    assert_eq!(rt.poll(0), 300);
    let fired = rt.process_timers(600);
    assert_eq!(fired.len(), 2);
    assert_eq!(fired[0].deadline, 300);
    assert_eq!(fired[0].waker, early.task_id);
    assert_eq!(fired[1].deadline, 500);
    assert_eq!(fired[1].waker, late.task_id);
}

#[test]
fn equal_deadlines_fire_in_registration_order() {
    let mut rt = Runtime::new();
    let first = spawn(&mut rt, vec![Step::SleepUntil(400)], 0);
    let second = spawn(&mut rt, vec![Step::SleepUntil(400)], 0);
    assert_eq!(rt.poll(0), 0);
    let fired = rt.process_timers(400);
    assert_eq!(fired.len(), 2);
    assert_eq!(fired[0].waker, first.task_id);
    assert_eq!(fired[1].waker, second.task_id);
    assert!(fired[0].seq < fired[1].seq);
}

#[test]
fn cancelled_sleep_never_fires() {
    let mut rt = Runtime::new();
    let handle = rt.schedule_sleep(800, 7);
    handle.cancel(&mut rt);
    let fired = rt.process_timers(800);
    assert_eq!(fired.len(), 0);
    assert_eq!(rt.timers.entries.len(), 0);
}

#[test]
fn uncancelled_sleep_fires_at_deadline() {
    let mut rt = Runtime::new();
    rt.schedule_sleep(800, 7);
    let fired = rt.process_timers(799);
    assert_eq!(fired.len(), 0);
    let fired = rt.process_timers(800);
    assert_eq!(fired.len(), 1);
    assert_eq!(fired[0].waker, 7);
}

#[test]
fn wait_hint_counts_down_without_intervening_work() {
    let mut rt = Runtime::new();
    spawn(&mut rt, vec![Step::SleepUntil(1_000)], 0);
    assert_eq!(rt.poll(0), 0);
    assert_eq!(rt.poll(0), 1_000);
    assert_eq!(rt.poll(400), 600);
    assert_eq!(rt.poll(999), 1);
    // at the deadline the sleep resolves, the task completes, and the
    // drained executor shuts down
    assert_eq!(rt.poll(1_000), IDLE_WAIT_HINT);
    assert!(rt.is_shut_down());
}

#[test]
fn repeated_polls_without_work_are_no_ops() {
    let mut rt = Runtime::new();
    spawn(&mut rt, vec![Step::SleepUntil(1_000)], 0);
    assert_eq!(rt.poll(0), 0);
    // once settled, polling again at the same instant changes nothing:
    // safe to invoke at any cadence
    assert_eq!(rt.poll(0), 1_000);
    assert_eq!(rt.poll(0), 1_000);
    assert_eq!(rt.poll(0), 1_000);
    assert!(!rt.is_shut_down());
}

#[test]
fn join_wakes_across_timer_ticks() {
    let mut rt = Runtime::new();
    let producer = spawn(&mut rt, vec![Step::SleepUntil(100)], 7);
    let consumer = spawn(&mut rt, vec![Step::AwaitJoin(producer.task_id)], 8);
    assert_eq!(rt.poll(0), 0);
    assert_eq!(rt.poll(0), 100);
    // the deadline tick completes the producer, whose completion wakes
    // the registered join waiter; the consumer finishes in the same pass
    assert_eq!(rt.poll(100), IDLE_WAIT_HINT);
    assert!(rt.is_shut_down());
    assert!(rt.joins.get(consumer.task_id).unwrap().done);
    assert_eq!(rt.joins.get(consumer.task_id).unwrap().result, Some(8));
}

#[test]
fn sleep_already_due_resolves_immediately() {
    let mut rt = Runtime::new();
    spawn(&mut rt, vec![Step::SleepUntil(100)], 9);
    assert_eq!(rt.poll(100), IDLE_WAIT_HINT);
    assert!(rt.is_shut_down());
}

#[test]
fn sleep_constructors_set_the_deadline() {
    let s = sleep_until(250);
    assert_eq!(s.until, 250);
    assert!(s.handle.is_none());
    let s = sleep_for(100, 150);
    assert_eq!(s.until, 250);
}

#[test]
fn sleep_poll_registers_then_resolves() {
    let mut rt = Runtime::new();
    let mut s = sleep_until(500);
    assert!(!s.poll(&mut rt, 0, 3));
    assert!(s.handle.is_some());
    rt.process_timer_ops();
    assert_eq!(rt.timers.entries.len(), 1);
    assert!(s.poll(&mut rt, 500, 3));
}

#[test]
fn timer_set_replaces_same_key_and_removes() {
    let mut t = TimerSet::new();
    t.insert(TimerEntry { deadline: 5, seq: 1, waker: 10 });
    t.insert(TimerEntry { deadline: 3, seq: 2, waker: 11 });
    t.insert(TimerEntry { deadline: 5, seq: 1, waker: 12 });
    assert_eq!(t.entries.len(), 2);
    assert_eq!(t.entries[0].deadline, 3);
    assert_eq!(t.entries[1].waker, 12);
    t.remove(3, 2);
    assert_eq!(t.entries.len(), 1);
    t.remove(3, 2);
    assert_eq!(t.entries.len(), 1);
}

#[test]
fn op_log_applies_in_order() {
    let mut rt = Runtime::new();
    rt.timer_queue.push_back(TimerOp::Insert(TimerEntry { deadline: 9, seq: 0, waker: 1 }));
    rt.timer_queue.push_back(TimerOp::Remove(9, 0));
    rt.process_timer_ops();
    assert_eq!(rt.timers.entries.len(), 0);
    rt.timer_queue.push_back(TimerOp::Remove(9, 0));
    rt.timer_queue.push_back(TimerOp::Insert(TimerEntry { deadline: 9, seq: 0, waker: 1 }));
    rt.process_timer_ops();
    assert_eq!(rt.timers.entries.len(), 1);
}
