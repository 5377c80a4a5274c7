use wassup::errno::Errno;
use wassup::host::{
    ipc_drop_channel, ipc_make_channel, ipc_send_msg, State, CHANNEL_BUFFER_CAPACITY,
    CHANNEL_TABLE_LIMIT,
};
use wassup::ipc::{ipc_notify, Ipc, IpcSegment};
use wassup::runtime::{spawn, Runtime};
use wassup::stamp::Stamper;
use wassup::task::Step;

#[test]
fn open_send_notify_recv_round_trip() {
    let mut rt = Runtime::new();
    let mut host = State::new();
    let ipc = Ipc::new(&mut rt, &mut host).expect("open must succeed on a fresh host");
    assert_eq!(ipc.capacity, CHANNEL_BUFFER_CAPACITY);

    // guest-to-host direction
    let payload = vec![1u8, 2, 3];
    ipc.send(&mut host, payload.clone()).expect("send on an open channel succeeds");
    let hc = host.ipcs.get(ipc.id as u64).unwrap();
    assert_eq!(hc.inbox.len(), 1);
    assert_eq!(hc.inbox[0], payload);

    // host-to-guest direction: a simulated notify delivers the bytes and
    // the next receive resolves to exactly that payload
    let inbound = vec![9u8, 8, 7];
    assert_eq!(ipc_notify(&mut rt, ipc.id, inbound.clone()), Errno::Success);
    assert_eq!(ipc.try_recv(&mut rt), Some(inbound));
    // a second receive without a further notify finds nothing
    assert_eq!(ipc.try_recv(&mut rt), None);
}

#[test]
fn recv_task_suspends_until_notify() {
    let mut rt = Runtime::new();
    let mut host = State::new();
    let ipc = Ipc::new(&mut rt, &mut host).unwrap();
    let h = spawn(&mut rt, vec![Step::RecvChan(ipc.id)], 0);
    // nothing buffered: the task registers as the channel's waiter and pends
    rt.poll(0);
    assert!(!rt.is_shut_down());
    assert!(!rt.joins.get(h.task_id).unwrap().done);

    // the notify wakes the waiter (and, arriving outside a tick, signals
    // the host); the next tick resolves the receive
    assert_eq!(ipc_notify(&mut rt, ipc.id, vec![42u8]), Errno::Success);
    assert!(rt.take_host_wake());
    rt.poll(0);
    let slot = rt.joins.get(h.task_id).unwrap();
    assert!(slot.done);
    assert_eq!(slot.received.len(), 1);
    assert_eq!(slot.received[0], vec![42u8]);
}

#[test]
fn second_recv_waits_for_second_notify() {
    let mut rt = Runtime::new();
    let mut host = State::new();
    let ipc = Ipc::new(&mut rt, &mut host).unwrap();
    let h = spawn(&mut rt, vec![Step::RecvChan(ipc.id), Step::RecvChan(ipc.id)], 0);
    ipc_notify(&mut rt, ipc.id, vec![1u8]);
    rt.poll(0);
    // the first receive resolved; the second suspends with no data
    assert!(!rt.joins.get(h.task_id).unwrap().done);
    ipc_notify(&mut rt, ipc.id, vec![2u8]);
    rt.poll(0);
    let slot = rt.joins.get(h.task_id).unwrap();
    assert!(slot.done);
    assert_eq!(slot.received, vec![vec![1u8], vec![2u8]]);
}

#[test]
fn recv_registers_then_drains() {
    let mut rt = Runtime::new();
    let mut host = State::new();
    let ipc = Ipc::new(&mut rt, &mut host).unwrap();
    // empty buffer: the poll suspends and registers its waker
    assert_eq!(ipc.recv(&mut rt, 5), None);
    assert_eq!(rt.channels.get(ipc.id as u64).unwrap().waker, Some(5));
    ipc_notify(&mut rt, ipc.id, vec![3u8, 4]);
    assert_eq!(ipc.recv(&mut rt, 5), Some(vec![3u8, 4]));
}

#[test]
fn notify_for_dead_receiver_is_discarded() {
    let mut rt = Runtime::new();
    let mut host = State::new();
    let ipc = Ipc::new(&mut rt, &mut host).unwrap();
    let id = ipc.id;
    assert_eq!(ipc.close(&mut rt, &mut host), Errno::Success);
    assert_eq!(ipc_notify(&mut rt, id, vec![1u8]), Errno::NxIo);
    assert_eq!(rt.channels.len(), 0);
}

#[test]
fn closing_twice_reports_an_error_without_corruption() {
    let mut rt = Runtime::new();
    let mut host = State::new();
    let keep = Ipc::new(&mut rt, &mut host).unwrap();
    let ipc = Ipc::new(&mut rt, &mut host).unwrap();
    let id = ipc.id;
    assert_eq!(ipc.close(&mut rt, &mut host), Errno::Success);
    assert_eq!(ipc_drop_channel(&mut host, id), Errno::Inval);
    // the other channel is untouched
    assert_eq!(host.ipcs.len(), 1);
    assert!(host.ipcs.get(keep.id as u64).is_some());
}

#[test]
fn sending_after_close_reports_an_error() {
    let mut rt = Runtime::new();
    let mut host = State::new();
    let ipc = Ipc::new(&mut rt, &mut host).unwrap();
    let id = ipc.id;
    assert_eq!(ipc.close(&mut rt, &mut host), Errno::Success);
    assert_eq!(ipc_send_msg(&mut host, id, vec![1u8]), Errno::Inval);
    assert_eq!(host.ipcs.len(), 0);
}

#[test]
fn channel_table_exhaustion_is_reported() {
    let mut host = State::new();
    for _ in 0..CHANNEL_TABLE_LIMIT {
        let r = ipc_make_channel(&mut host);
        assert_eq!(r.err, Errno::Success);
    }
    let r = ipc_make_channel(&mut host);
    assert_eq!(r.err, Errno::NoBufs);
    assert_eq!(r.id, 0);
    assert_eq!(host.ipcs.len(), CHANNEL_TABLE_LIMIT);
}

#[test]
fn id_allocation_probes_past_a_collision() {
    let mut host = State::new();
    let first = ipc_make_channel(&mut host);
    assert_eq!(first.err, Errno::Success);
    assert_eq!(first.id, 0);
    // rewind the counter so the next candidate collides with the open id
    host.next_id = 0;
    let second = ipc_make_channel(&mut host);
    assert_eq!(second.err, Errno::Success);
    assert_eq!(second.id, 1);
    // the probe drew candidate 0 (step 1), then candidate 1 (step 2)
    assert_eq!(host.next_id, 3);
}

#[test]
fn host_buffer_overflow_is_reported() {
    let mut rt = Runtime::new();
    let mut host = State::new();
    let ipc = Ipc::new(&mut rt, &mut host).unwrap();
    for i in 0..CHANNEL_BUFFER_CAPACITY {
        assert!(ipc.send(&mut host, vec![i as u8]).is_ok());
    }
    assert_eq!(ipc.send(&mut host, vec![0u8]), Err(Errno::NoBufs));
}

#[test]
fn errno_codes_match_the_convention() {
    assert_eq!(Errno::Success.code(), 0);
    assert_eq!(Errno::Inval.code(), 28);
    assert_eq!(Errno::NoBufs.code(), 42);
    assert_eq!(Errno::NxIo.code(), 60);
}

#[test]
fn segment_describes_a_byte_range() {
    let seg = IpcSegment { offset: 16, len: 4 };
    assert_eq!(seg.offset, 16);
    assert_eq!(seg.len, 4);
}

#[test]
fn stamper_reports_elapsed_times() {
    let mut s = Stamper::now(100);
    assert_eq!(s.stamp(130), (30, 30));
    assert_eq!(s.stamp(150), (50, 20));
    assert_eq!(s.start, 100);
    assert_eq!(s.last, 150);
}
