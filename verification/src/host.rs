//! The host side of the message-channel subsystem.
//!
//! The host owns the authoritative channel table: opening a channel is a
//! guest round-trip that allocates an id here, closing one releases it,
//! and sending pushes the message into the channel's host-side buffer.
//! The table holds at most `CHANNEL_TABLE_LIMIT` channels; id allocation
//! probes a wrapping counter with an exponentially growing step and gives
//! up with a resource-exhaustion error once the step can no longer grow.

use vstd::prelude::*;

use crate::errno::Errno;
use crate::table::Table;

verus! {

/// Most channels the host will keep open at once.
pub const CHANNEL_TABLE_LIMIT: usize = 128;

/// Buffer capacity the host recommends for each new channel.
pub const CHANNEL_BUFFER_CAPACITY: u32 = 128;

/// Host-side state of one open channel.
pub struct HostChannel {
    /// Bound on the host-side receive buffer.
    pub capacity: u32,
    /// Messages sent by the guest and not yet consumed by the host.
    pub inbox: Vec<Vec<u8>>,
}

/// The host's per-guest state: the channel table and the id counter.
pub struct State {
    /// Open channels, keyed by channel id.
    pub ipcs: Table<HostChannel>,
    /// Wrapping counter from which candidate ids are drawn.
    pub next_id: u32,
}

/// What the channel-allocation round trip reports back to the guest.
#[derive(Clone, Copy, Debug, PartialEq, Eq, Structural)]
pub struct IpcMakeChannelResult {
    /// The allocated channel id (0 on failure).
    pub id: u32,
    /// Recommended buffer capacity (0 on failure).
    pub size: u32,
    /// `Success`, or `NoBufs` on resource exhaustion.
    pub err: Errno,
}

/// `a + b` in wrapping 32-bit arithmetic.
pub open spec fn wrap_add(a: u32, b: u32) -> u32 {
    vstd::wrapping::u32_specs::wrapping_add(a, b)
}

/// The id-allocation probe: draw `cur`, step the counter, and retry with a
/// doubled step while the candidate is taken.  Yields the chosen id (or
/// none, once the step can no longer double) and the counter left behind.
pub open spec fn probe_spec(ids: Map<u64, HostChannel>, cur: u32, step: u32) -> (Option<u32>, u32)
    decreases u32::MAX - step,
{
    if !ids.contains_key(cur as u64) {
        (Some(cur), wrap_add(cur, step))
    } else if step == 0 || step > u32::MAX - step {
        (None::<u32>, wrap_add(cur, step))
    } else {
        probe_spec(ids, wrap_add(cur, step), (step + step) as u32)
    }
}

impl State {
    /// Channel table invariant.
    pub open spec fn wf(&self) -> bool {
        self.ipcs.wf()
    }

    /// A fresh host with no channels.
    pub fn new() -> (s: State)
        ensures
            s.wf(),
            s.ipcs@ == Map::<u64, HostChannel>::empty(),
            s.ipcs.entries@.len() == 0,
            s.next_id == 0,
    {
        State { ipcs: Table::new(), next_id: 0 }
    }
}

/// Allocate a channel id and its recommended buffer capacity.
///
/// Fails with `NoBufs` when the table is full, or when the probe sequence
/// finds no free id before its step can no longer grow; otherwise the
/// chosen id is fresh, and a channel with an empty inbox is registered
/// under it.
pub fn ipc_make_channel(state: &mut State) -> (r: IpcMakeChannelResult)
    requires
        old(state).wf(),
    ensures
        final(state).wf(),
        old(state).ipcs.entries@.len() >= CHANNEL_TABLE_LIMIT ==> r == (IpcMakeChannelResult {
            id: 0u32,
            size: 0u32,
            err: Errno::NoBufs,
        }) && *final(state) == *old(state),
        old(state).ipcs.entries@.len() < CHANNEL_TABLE_LIMIT ==> {
            let (found, counter) = probe_spec(old(state).ipcs@, old(state).next_id, 1);
            &&& final(state).next_id == counter
            &&& match found {
                Some(id) => {
                    &&& r.id == id
                    &&& r.size == CHANNEL_BUFFER_CAPACITY
                    &&& r.err == Errno::Success
                    &&& !old(state).ipcs@.contains_key(id as u64)
                    &&& final(state).ipcs@.contains_key(id as u64)
                    &&& final(state).ipcs@[id as u64].capacity == CHANNEL_BUFFER_CAPACITY
                    &&& final(state).ipcs@[id as u64].inbox@.len() == 0
                    &&& final(state).ipcs@.remove(id as u64) == old(state).ipcs@
                },
                None => r == (IpcMakeChannelResult { id: 0u32, size: 0u32, err: Errno::NoBufs })
                    && final(state).ipcs@ == old(state).ipcs@,
            }
        },
{
    if state.ipcs.len() >= CHANNEL_TABLE_LIMIT {
        return IpcMakeChannelResult { id: 0, size: 0, err: Errno::NoBufs };
    }
    let ghost ids = state.ipcs@;
    let ghost start = state.next_id;
    let mut step: u32 = 1;
    loop
        invariant
            state.wf(),
            state.ipcs@ == ids,
            state.ipcs == old(state).ipcs,
            ids == old(state).ipcs@,
            start == old(state).next_id,
            old(state).ipcs.entries@.len() < CHANNEL_TABLE_LIMIT,
            step >= 1,
            probe_spec(ids, start, 1) == probe_spec(ids, state.next_id, step),
        decreases u32::MAX - step,
    {
        let candidate = state.next_id;
        state.next_id = state.next_id.wrapping_add(step);
        if !state.ipcs.contains_key(candidate as u64) {
            proof {
                assert(probe_spec(ids, start, 1) == (Some(candidate), state.next_id));
            }
            state.ipcs.insert(
                candidate as u64,
                HostChannel { capacity: CHANNEL_BUFFER_CAPACITY, inbox: Vec::new() },
            );
            proof {
                assert(final(state).ipcs@.remove(candidate as u64) =~= old(state).ipcs@);
            }
            return IpcMakeChannelResult {
                id: candidate,
                size: CHANNEL_BUFFER_CAPACITY,
                err: Errno::Success,
            };
        }
        step = match step.checked_add(step) {
            Some(s) => s,
            None => {
                proof {
                    assert(probe_spec(ids, start, 1) == (None::<u32>, state.next_id));
                }
                return IpcMakeChannelResult { id: 0, size: 0, err: Errno::NoBufs };
            },
        };
    }
}

/// Closing is final: once a drop removes an id from the registry, the id
/// no longer resolves, so a second close or a send on it reports `Inval`
/// and leaves the table unchanged (see `ipc_drop_channel` and
/// `ipc_send_msg`): repeated misuse cannot corrupt the registry.
pub proof fn lemma_close_is_final(m: Map<u64, HostChannel>, id: u64)
    ensures
        !m.remove(id).contains_key(id),
{
}

/// Release a channel id.  Succeeds exactly when the id is open; dropping
/// an id twice (or one never allocated) reports `Inval` and leaves the
/// table untouched, never corrupting the registry.
pub fn ipc_drop_channel(state: &mut State, id: u32) -> (r: Errno)
    requires
        old(state).wf(),
    ensures
        final(state).wf(),
        final(state).next_id == old(state).next_id,
        old(state).ipcs@.contains_key(id as u64) ==> r == Errno::Success && final(state).ipcs@
            == old(state).ipcs@.remove(id as u64),
        !old(state).ipcs@.contains_key(id as u64) ==> r == Errno::Inval && *final(state) == *old(
            state,
        ),
{
    match state.ipcs.remove(id as u64) {
        Some(_) => Errno::Success,
        None => Errno::Inval,
    }
}

/// Deliver one guest-to-host message on a channel.  Fails with `Inval` on
/// a closed or never-opened id (sending after close is an error, not
/// corruption) and with `NoBufs` when the channel's inbox is full;
/// otherwise the message is appended to the inbox.
pub fn ipc_send_msg(state: &mut State, id: u32, msg: Vec<u8>) -> (r: Errno)
    requires
        old(state).wf(),
    ensures
        final(state).wf(),
        final(state).next_id == old(state).next_id,
        !old(state).ipcs@.contains_key(id as u64) ==> r == Errno::Inval && *final(state) == *old(
            state,
        ),
        old(state).ipcs@.contains_key(id as u64) ==> {
            let ch = old(state).ipcs@[id as u64];
            if ch.inbox@.len() >= ch.capacity {
                r == Errno::NoBufs && final(state).ipcs@ == old(state).ipcs@
            } else {
                &&& r == Errno::Success
                &&& final(state).ipcs@.contains_key(id as u64)
                &&& final(state).ipcs@[id as u64].inbox@ == ch.inbox@.push(msg)
                &&& final(state).ipcs@[id as u64].capacity == ch.capacity
                &&& final(state).ipcs@.remove(id as u64) == old(state).ipcs@.remove(id as u64)
            }
        },
{
    match state.ipcs.remove(id as u64) {
        None => Errno::Inval,
        Some(mut ch) => {
            if ch.inbox.len() >= ch.capacity as usize {
                state.ipcs.insert(id as u64, ch);
                proof {
                    assert(final(state).ipcs@ =~= old(state).ipcs@);
                }
                Errno::NoBufs
            } else {
                ch.inbox.push(msg);
                state.ipcs.insert(id as u64, ch);
                proof {
                    assert(final(state).ipcs@.remove(id as u64) =~= old(state).ipcs@.remove(
                        id as u64,
                    ));
                }
                Errno::Success
            }
        },
    }
}

} // verus!
