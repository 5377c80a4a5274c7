//! The guest side of the message-channel subsystem.
//!
//! A channel has a host-assigned id and a guest-local receive buffer.  The
//! runtime keeps a registry from channel id to receiver state so that the
//! host-invoked notify entry point can locate a still-alive receiver; a
//! notify for an id with no receiver is silently discarded (a benign
//! race), reported as `NxIo`.  Receiving first drains the local buffer and
//! only suspends when it is empty.

use vstd::prelude::*;

use std::collections::VecDeque;

use crate::errno::Errno;
use crate::host::{ipc_drop_channel, ipc_make_channel, ipc_send_msg, probe_spec, State};
use crate::runtime::{only_channels_and_queue_changed, only_channels_changed, Runtime};

verus! {

/// Guest-local receiver state of one open channel.
pub struct ChannelState {
    /// Inbound messages delivered by notify and not yet received.
    pub buffer: VecDeque<Vec<u8>>,
    /// Task to wake on the next delivery, if a receive is suspended.
    pub waker: Option<u64>,
    /// "Data available": mirrors non-emptiness of the buffer.
    pub flag: bool,
    /// Recommended buffer capacity reported by the host at open time.
    pub capacity: u32,
}

/// The receiver's flag agrees with its buffer.
pub open spec fn channel_wf(c: ChannelState) -> bool {
    c.flag <==> c.buffer@.len() > 0
}

/// A suspended receive on one channel.
#[derive(Clone, Copy, Debug)]
pub struct Recv {
    /// Id of the channel being received from.
    pub chan: u32,
}

impl Recv {
    /// Pop the oldest buffered message if one is there; otherwise register
    /// `waker` as the receiver's waiter (replacing any earlier one: a
    /// single-consumer primitive, the last registration wins) and stay
    /// pending.  A receive on an unregistered id changes nothing and stays
    /// pending forever.
    pub fn poll(&self, rt: &mut Runtime, waker: u64) -> (r: Option<Vec<u8>>)
        requires
            old(rt).wf(),
        ensures
            final(rt).wf(),
            only_channels_changed(*old(rt), *final(rt)),
            forall|k: u64|
                final(rt).channels@.contains_key(k) == old(rt).channels@.contains_key(k),
            match r {
                Some(msg) => {
                    &&& old(rt).channels@.contains_key(self.chan as u64)
                    &&& old(rt).channels@[self.chan as u64].buffer@.len() > 0
                    &&& msg == old(rt).channels@[self.chan as u64].buffer@[0]
                    &&& final(rt).channels@.contains_key(self.chan as u64)
                    &&& final(rt).channels@[self.chan as u64].buffer@ == old(rt).channels@[self.chan as u64].buffer@.drop_first()
                    &&& final(rt).channels@[self.chan as u64].waker == old(rt).channels@[self.chan as u64].waker
                    &&& final(rt).channels@[self.chan as u64].capacity == old(rt).channels@[self.chan as u64].capacity
                    &&& final(rt).channels@.remove(self.chan as u64) == old(rt).channels@.remove(self.chan as u64)
                },
                None => {
                    if old(rt).channels@.contains_key(self.chan as u64) {
                        &&& old(rt).channels@[self.chan as u64].buffer@.len() == 0
                        &&& final(rt).channels@.contains_key(self.chan as u64)
                        &&& final(rt).channels@[self.chan as u64].buffer@ == old(rt).channels@[self.chan as u64].buffer@
                        &&& final(rt).channels@[self.chan as u64].waker == Some(waker)
                        &&& final(rt).channels@[self.chan as u64].capacity == old(rt).channels@[self.chan as u64].capacity
                        &&& final(rt).channels@.remove(self.chan as u64) == old(rt).channels@.remove(self.chan as u64)
                    } else {
                        *final(rt) == *old(rt)
                    }
                },
            },
    {
        let key = self.chan as u64;
        match rt.channels.remove(key) {
            None => None,
            Some(mut ch) => {
                match ch.buffer.pop_front() {
                    Some(msg) => {
                        ch.flag = ch.buffer.len() > 0;
                        rt.channels.insert(key, ch);
                        proof {
                            assert(final(rt).channels@.remove(key) =~= old(rt).channels@.remove(
                                key,
                            ));
                        }
                        Some(msg)
                    },
                    None => {
                        ch.waker = Some(waker);
                        rt.channels.insert(key, ch);
                        proof {
                            assert(final(rt).channels@.remove(key) =~= old(rt).channels@.remove(
                                key,
                            ));
                        }
                        None
                    },
                }
            },
        }
    }
}

/// One message's place in a raw transfer buffer at the guest/host
/// boundary: the byte range the payload occupies.
#[derive(Clone, Copy, Debug, PartialEq, Eq, Structural)]
pub struct IpcSegment {
    /// Offset of the payload's first byte.
    pub offset: usize,
    /// Payload length in bytes.
    pub len: usize,
}

/// A guest-owned message channel.
pub struct Ipc {
    /// The host-assigned channel id.
    pub id: u32,
    /// The host's recommended buffer capacity.
    pub capacity: u32,
}

impl Ipc {
    /// Open a channel: a host round-trip allocates an id and a recommended
    /// capacity, and the guest registers a fresh receiver under that id.
    /// Fails exactly when the host reports resource exhaustion (a full
    /// channel table, or no free id within the bounded probe sequence),
    /// in which case the guest registry is untouched.
    pub fn new(rt: &mut Runtime, host: &mut State) -> (r: Result<Ipc, Errno>)
        requires
            old(rt).wf(),
            old(host).wf(),
        ensures
            final(rt).wf(),
            final(host).wf(),
            only_channels_changed(*old(rt), *final(rt)),
            r is Err <==> old(host).ipcs.entries@.len() >= crate::host::CHANNEL_TABLE_LIMIT
                || probe_spec(old(host).ipcs@, old(host).next_id, 1).0 is None,
            match r {
                Ok(ipc) => {
                    &&& !old(host).ipcs@.contains_key(ipc.id as u64)
                    &&& final(host).ipcs@.contains_key(ipc.id as u64)
                    &&& final(host).ipcs@.remove(ipc.id as u64) == old(host).ipcs@
                    &&& ipc.capacity == final(host).ipcs@[ipc.id as u64].capacity
                    &&& final(rt).channels@.contains_key(ipc.id as u64)
                    &&& final(rt).channels@[ipc.id as u64].buffer@.len() == 0
                    &&& final(rt).channels@[ipc.id as u64].waker is None
                    &&& !final(rt).channels@[ipc.id as u64].flag
                    &&& final(rt).channels@[ipc.id as u64].capacity == ipc.capacity
                    &&& final(rt).channels@.remove(ipc.id as u64) == old(rt).channels@.remove(
                        ipc.id as u64,
                    )
                },
                Err(e) => {
                    &&& e == Errno::NoBufs
                    &&& *final(rt) == *old(rt)
                    &&& final(host).ipcs@ == old(host).ipcs@
                },
            },
    {
        let reply = ipc_make_channel(host);
        if matches!(reply.err, Errno::Success) {
            rt.channels.insert(
                reply.id as u64,
                ChannelState {
                    buffer: VecDeque::new(),
                    waker: None,
                    flag: false,
                    capacity: reply.size,
                },
            );
            proof {
                assert(final(rt).channels@.remove(reply.id as u64) =~= old(rt).channels@.remove(
                    reply.id as u64,
                ));
            }
            Ok(Ipc { id: reply.id, capacity: reply.size })
        } else {
            Err(reply.err)
        }
    }

    /// Send one message: a direct, non-suspending host call.  The host's
    /// status is surfaced unchanged: `Inval` after the channel is closed,
    /// `NoBufs` when the host-side buffer is full.
    pub fn send(&self, host: &mut State, msg: Vec<u8>) -> (r: Result<(), Errno>)
        requires
            old(host).wf(),
        ensures
            final(host).wf(),
            final(host).next_id == old(host).next_id,
            match r {
                Ok(()) => {
                    &&& old(host).ipcs@.contains_key(self.id as u64)
                    &&& old(host).ipcs@[self.id as u64].inbox@.len() < old(host).ipcs@[self.id as u64].capacity
                    &&& final(host).ipcs@[self.id as u64].inbox@ == old(host).ipcs@[self.id as u64].inbox@.push(msg)
                    &&& final(host).ipcs@.remove(self.id as u64) == old(host).ipcs@.remove(
                        self.id as u64,
                    )
                },
                Err(e) => {
                    &&& final(host).ipcs@ == old(host).ipcs@
                    &&& (e == Errno::Inval || e == Errno::NoBufs)
                    &&& e == Errno::Inval <==> !old(host).ipcs@.contains_key(self.id as u64)
                    &&& e == Errno::NoBufs <==> old(host).ipcs@.contains_key(self.id as u64) && old(host).ipcs@[self.id as u64].inbox@.len() >= old(host).ipcs@[self.id as u64].capacity
                },
            },
    {
        match ipc_send_msg(host, self.id, msg) {
            Errno::Success => Ok(()),
            e => Err(e),
        }
    }

    /// One poll of a receive: drain the oldest buffered message if one is
    /// there, else register `waker` as the receiver's waiter and suspend
    /// until a notify delivers data.  A task's receive step goes through
    /// the same `Recv` future.
    pub fn recv(&self, rt: &mut Runtime, waker: u64) -> (r: Option<Vec<u8>>)
        requires
            old(rt).wf(),
        ensures
            final(rt).wf(),
            only_channels_changed(*old(rt), *final(rt)),
            match r {
                Some(msg) => {
                    &&& old(rt).channels@.contains_key(self.id as u64)
                    &&& old(rt).channels@[self.id as u64].buffer@.len() > 0
                    &&& msg == old(rt).channels@[self.id as u64].buffer@[0]
                    &&& final(rt).channels@[self.id as u64].buffer@ == old(rt).channels@[self.id as u64].buffer@.drop_first()
                },
                None => old(rt).channels@.contains_key(self.id as u64)
                    ==> old(rt).channels@[self.id as u64].buffer@.len() == 0 && final(rt).channels@[self.id as u64].waker == Some(waker),
            },
    {
        let pending = Recv { chan: self.id };
        pending.poll(rt, waker)
    }

    /// Drain the oldest buffered message without suspending: the
    /// non-blocking fast path of a receive.
    pub fn try_recv(&self, rt: &mut Runtime) -> (r: Option<Vec<u8>>)
        requires
            old(rt).wf(),
        ensures
            final(rt).wf(),
            only_channels_changed(*old(rt), *final(rt)),
            match r {
                Some(msg) => {
                    &&& old(rt).channels@.contains_key(self.id as u64)
                    &&& old(rt).channels@[self.id as u64].buffer@.len() > 0
                    &&& msg == old(rt).channels@[self.id as u64].buffer@[0]
                    &&& final(rt).channels@[self.id as u64].buffer@ == old(rt).channels@[self.id as u64].buffer@.drop_first()
                    &&& final(rt).channels@.remove(self.id as u64) == old(rt).channels@.remove(
                        self.id as u64,
                    )
                },
                None => {
                    if old(rt).channels@.contains_key(self.id as u64) {
                        &&& old(rt).channels@[self.id as u64].buffer@.len() == 0
                        &&& final(rt).channels@.contains_key(self.id as u64)
                        &&& final(rt).channels@[self.id as u64].buffer@ == old(rt).channels@[self.id as u64].buffer@
                        &&& final(rt).channels@[self.id as u64].waker == old(rt).channels@[self.id as u64].waker
                        &&& final(rt).channels@[self.id as u64].flag == old(rt).channels@[self.id as u64].flag
                        &&& final(rt).channels@.remove(self.id as u64) == old(rt).channels@.remove(self.id as u64)
                    } else {
                        *final(rt) == *old(rt)
                    }
                },
            },
    {
        let key = self.id as u64;
        match rt.channels.remove(key) {
            None => None,
            Some(mut ch) => {
                match ch.buffer.pop_front() {
                    Some(msg) => {
                        ch.flag = ch.buffer.len() > 0;
                        rt.channels.insert(key, ch);
                        proof {
                            assert(final(rt).channels@.remove(key) =~= old(rt).channels@.remove(
                                key,
                            ));
                        }
                        Some(msg)
                    },
                    None => {
                        rt.channels.insert(key, ch);
                        proof {
                            assert(final(rt).channels@.remove(key) =~= old(rt).channels@.remove(
                                key,
                            ));
                        }
                        None
                    },
                }
            },
        }
    }

    /// Close the channel: release the id at the host — exactly once, since
    /// closing consumes the handle — and drop the guest-side receiver, so
    /// later notifies for this id are discarded.
    pub fn close(self, rt: &mut Runtime, host: &mut State) -> (r: Errno)
        requires
            old(rt).wf(),
            old(host).wf(),
        ensures
            final(rt).wf(),
            final(host).wf(),
            only_channels_changed(*old(rt), *final(rt)),
            final(rt).channels@ == old(rt).channels@.remove(self.id as u64),
            final(host).next_id == old(host).next_id,
            old(host).ipcs@.contains_key(self.id as u64) ==> r == Errno::Success && final(host).ipcs@ == old(host).ipcs@.remove(self.id as u64),
            !old(host).ipcs@.contains_key(self.id as u64) ==> r == Errno::Inval && final(host).ipcs@ == old(host).ipcs@,
    {
        rt.channels.remove(self.id as u64);
        ipc_drop_channel(host, self.id)
    }
}

/// Channel round trip: delivering a payload to a receiver whose buffer is
/// empty makes the next receive return exactly that payload and leaves the
/// buffer empty again, so a second receive without a further delivery
/// finds nothing and suspends.  (`ipc_notify` pushes at the back;
/// `Ipc::try_recv` and `Recv::poll` pop the front.)
pub proof fn lemma_channel_round_trip(buffer: Seq<Vec<u8>>, payload: Vec<u8>)
    requires
        buffer.len() == 0,
    ensures
        buffer.push(payload)[0] == payload,
        buffer.push(payload).drop_first().len() == 0,
{
    assert(buffer.push(payload).drop_first() =~= Seq::<Vec<u8>>::empty());
}

/// The host-invoked delivery entry point: hand one inbound message to the
/// receiver registered under `id`, and wake its waiting task, if any.  A
/// notify whose receiver no longer exists is silently discarded and
/// reported as `NxIo` — a benign race, not an error; nothing changes then.
pub fn ipc_notify(rt: &mut Runtime, id: u32, payload: Vec<u8>) -> (r: Errno)
    requires
        old(rt).wf(),
    ensures
        final(rt).wf(),
        only_channels_and_queue_changed(*old(rt), *final(rt)),
        !old(rt).channels@.contains_key(id as u64) ==> r == Errno::NxIo && *final(rt) == *old(rt),
        old(rt).channels@.contains_key(id as u64) ==> {
            let ch = old(rt).channels@[id as u64];
            &&& r == Errno::Success
            &&& final(rt).channels@.contains_key(id as u64)
            &&& final(rt).channels@[id as u64].buffer@ == ch.buffer@.push(payload)
            &&& final(rt).channels@[id as u64].flag
            &&& final(rt).channels@[id as u64].waker == ch.waker
            &&& final(rt).channels@.remove(id as u64) == old(rt).channels@.remove(id as u64)
            &&& match ch.waker {
                Some(w) => final(rt).poll_again@ == old(rt).poll_again@.push(w) && final(rt).host_wake_signal == (old(rt).host_wake_signal || !old(rt).in_runtime),
                None => final(rt).poll_again@ == old(rt).poll_again@ && final(rt).host_wake_signal
                    == old(rt).host_wake_signal,
            }
        },
{
    let key = id as u64;
    match rt.channels.remove(key) {
        None => Errno::NxIo,
        Some(mut ch) => {
            ch.buffer.push_back(payload);
            ch.flag = true;
            let waker = ch.waker;
            rt.channels.insert(key, ch);
            proof {
                assert(rt.channels@.remove(key) =~= old(rt).channels@.remove(key));
            }
            if let Some(w) = waker {
                rt.wake_task(w);
            }
            Errno::Success
        },
    }
}

} // verus!
