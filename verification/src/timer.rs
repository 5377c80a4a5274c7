//! The timer set.
//!
//! Sleeps are timer entries keyed by `(deadline, sequence)`: the sequence
//! number totally orders entries that share a deadline, so equal-deadline
//! timers fire in registration order.  The set is never edited directly by
//! user-facing code; insertions and cancellations are queued as `TimerOp`s
//! and applied as a batch immediately before each firing pass, so a
//! cancellation requested while waiters run can never corrupt an
//! in-progress split.

use vstd::prelude::*;

use crate::assoc::{
    assoc_map, distinct_keys, lemma_assoc_map_contains, lemma_assoc_map_insert_at,
    lemma_assoc_map_remove_at, lemma_assoc_map_update,
};

verus! {

/// One registered timer: wake `waker` once `deadline` has passed.
#[derive(Clone, Copy, Debug, PartialEq, Eq, Structural)]
pub struct TimerEntry {
    /// Absolute instant, in microseconds, at which the timer is due.
    pub deadline: u64,
    /// Registration sequence number; ties equal deadlines deterministically.
    pub seq: u64,
    /// Id of the task to re-enqueue when the timer fires.
    pub waker: u64,
}

/// A queued edit of the timer set.
#[derive(Clone, Copy, Debug, PartialEq, Eq, Structural)]
pub enum TimerOp {
    /// Register the entry.
    Insert(TimerEntry),
    /// Deregister the entry with the given deadline and sequence number.
    Remove(u64, u64),
}

/// Strict order on timer keys: by deadline, then by sequence number.
pub open spec fn key_lt(a: (u64, u64), b: (u64, u64)) -> bool {
    a.0 < b.0 || (a.0 == b.0 && a.1 < b.1)
}

/// The key of an entry.
pub open spec fn key_of(e: TimerEntry) -> (u64, u64) {
    (e.deadline, e.seq)
}

/// Strictly ascending by key: the firing order the scheduler guarantees.
pub open spec fn entries_ordered(s: Seq<TimerEntry>) -> bool {
    forall|i: int, j: int|
        0 <= i < j < s.len() ==> key_lt(key_of(#[trigger] s[i]), key_of(#[trigger] s[j]))
}

/// The effect of one queued op on the abstract timer map.
pub open spec fn apply_timer_op(m: Map<(u64, u64), u64>, op: TimerOp) -> Map<(u64, u64), u64> {
    match op {
        TimerOp::Insert(e) => m.insert(key_of(e), e.waker),
        TimerOp::Remove(d, s) => m.remove((d, s)),
    }
}

/// The effect of a whole op log, applied front to back.
pub open spec fn apply_timer_ops(m: Map<(u64, u64), u64>, ops: Seq<TimerOp>) -> Map<
    (u64, u64),
    u64,
>
    decreases ops.len(),
{
    if ops.len() == 0 {
        m
    } else {
        apply_timer_ops(apply_timer_op(m, ops[0]), ops.drop_first())
    }
}

/// A key no op inserts stays absent across a whole op log.
pub proof fn lemma_absent_key_stays_absent(
    m: Map<(u64, u64), u64>,
    ops: Seq<TimerOp>,
    key: (u64, u64),
)
    requires
        !m.contains_key(key),
        forall|l: int|
            0 <= l < ops.len() ==> !(#[trigger] ops[l] matches TimerOp::Insert(e) && key_of(e)
                == key),
    ensures
        !apply_timer_ops(m, ops).contains_key(key),
    decreases ops.len(),
{
    if ops.len() > 0 {
        lemma_absent_key_stays_absent(apply_timer_op(m, ops[0]), ops.drop_first(), key);
    }
}

/// A key present after applying an op log was already present or was
/// inserted by one of the ops.
pub proof fn lemma_apply_timer_ops_keys(
    m: Map<(u64, u64), u64>,
    ops: Seq<TimerOp>,
    k: (u64, u64),
)
    requires
        apply_timer_ops(m, ops).contains_key(k),
    ensures
        m.contains_key(k) || exists|l: int|
            0 <= l < ops.len() && ((#[trigger] ops[l]) matches TimerOp::Insert(e) && key_of(e)
                == k),
    decreases ops.len(),
{
    if ops.len() > 0 {
        lemma_apply_timer_ops_keys(apply_timer_op(m, ops[0]), ops.drop_first(), k);
        if !m.contains_key(k) && !(ops[0] matches TimerOp::Insert(e) && key_of(e) == k) {
            let l = choose|l: int|
                0 <= l < ops.drop_first().len() && ((#[trigger] ops.drop_first()[l]) matches
                    TimerOp::Insert(e) && key_of(e) == k);
            assert(((#[trigger] ops[l + 1]) matches TimerOp::Insert(e) && key_of(e) == k));
        }
    }
}

/// Cancellation is effective: once a removal of a key is queued, and no
/// later op re-inserts that key, the key is absent after the batch is
/// applied — the timer cannot fire at its original deadline.
pub proof fn lemma_cancelled_timer_absent(
    m: Map<(u64, u64), u64>,
    ops: Seq<TimerOp>,
    j: int,
    deadline: u64,
    seq: u64,
)
    requires
        0 <= j < ops.len(),
        ops[j] == TimerOp::Remove(deadline, seq),
        forall|l: int|
            j < l < ops.len() ==> !(#[trigger] ops[l] matches TimerOp::Insert(e) && key_of(e)
                == (deadline, seq)),
    ensures
        !apply_timer_ops(m, ops).contains_key((deadline, seq)),
    decreases j,
{
    if j == 0 {
        lemma_absent_key_stays_absent(
            apply_timer_op(m, ops[0]),
            ops.drop_first(),
            (deadline, seq),
        );
    } else {
        lemma_cancelled_timer_absent(
            apply_timer_op(m, ops[0]),
            ops.drop_first(),
            j - 1,
            deadline,
            seq,
        );
    }
}

/// Firing order: under the set's ordering invariant, earlier entries have
/// strictly smaller deadlines, and entries sharing a deadline come in
/// ascending sequence — that is, registration — order.  Together with
/// `TimerSet::pop_due`, which fires a prefix, this is the waking order the
/// scheduler guarantees.
pub proof fn lemma_firing_order(s: Seq<TimerEntry>, i: int, j: int)
    requires
        entries_ordered(s),
        0 <= i < j < s.len(),
    ensures
        s[i].deadline < s[j].deadline || (s[i].deadline == s[j].deadline && s[i].seq < s[j].seq),
{
}

/// The ordered timer set.
pub struct TimerSet {
    pub entries: Vec<TimerEntry>,
}

impl TimerSet {
    /// Entries as key/waker pairs, in storage order.
    pub open spec fn pairs(&self) -> Seq<((u64, u64), u64)> {
        self.entries@.map_values(|e: TimerEntry| (key_of(e), e.waker))
    }

    /// The abstract contents: key to waker.
    pub open spec fn view(&self) -> Map<(u64, u64), u64> {
        assoc_map(self.pairs())
    }

    /// Representation invariant: strictly sorted by key.
    pub open spec fn wf(&self) -> bool {
        entries_ordered(self.entries@)
    }

    proof fn lemma_wf_distinct(&self)
        requires
            self.wf(),
        ensures
            distinct_keys(self.pairs()),
    {
    }

    /// An empty set.
    pub fn new() -> (t: TimerSet)
        ensures
            t.wf(),
            t@ == Map::<(u64, u64), u64>::empty(),
            t.entries@.len() == 0,
    {
        TimerSet { entries: Vec::new() }
    }

    /// Register an entry, replacing any entry with the same key.
    pub fn insert(&mut self, e: TimerEntry)
        requires
            old(self).wf(),
        ensures
            final(self).wf(),
            final(self)@ == old(self)@.insert(key_of(e), e.waker),
    {
        let ghost s = self.entries@;
        let mut i: usize = 0;
        while i < self.entries.len() && (self.entries[i].deadline < e.deadline
            || (self.entries[i].deadline == e.deadline && self.entries[i].seq < e.seq))
            invariant
                self.entries@ == s,
                i <= s.len(),
                forall|j: int| 0 <= j < i ==> key_lt(key_of(#[trigger] s[j]), key_of(e)),
            decreases s.len() - i,
        {
            i = i + 1;
        }
        proof {
            self.lemma_wf_distinct();
        }
        if i < self.entries.len() && self.entries[i].deadline == e.deadline
            && self.entries[i].seq == e.seq {
            proof {
                lemma_assoc_map_update(self.pairs(), i as int, e.waker);
            }
            self.entries[i] = e;
            assert(self.pairs() =~= s.map_values(|x: TimerEntry| (key_of(x), x.waker)).update(
                i as int,
                (key_of(e), e.waker),
            ));
        } else {
            assert(forall|j: int|
                i <= j < s.len() ==> key_lt(key_of(e), key_of(#[trigger] s[j])));
            assert(forall|j: int|
                0 <= j < self.pairs().len() ==> (#[trigger] self.pairs()[j]).0 != key_of(e));
            proof {
                lemma_assoc_map_insert_at(self.pairs(), i as int, key_of(e), e.waker);
            }
            self.entries.insert(i, e);
            assert(self.pairs() =~= s.map_values(|x: TimerEntry| (key_of(x), x.waker)).insert(
                i as int,
                (key_of(e), e.waker),
            ));
            assert(self.wf()) by {
                assert(forall|a: int, b: int|
                    0 <= a < b < self.entries@.len() ==> key_lt(
                        key_of(#[trigger] self.entries@[a]),
                        key_of(#[trigger] self.entries@[b]),
                    ));
            }
        }
    }

    /// Deregister the entry with the given key, if present.
    pub fn remove(&mut self, deadline: u64, seq: u64)
        requires
            old(self).wf(),
        ensures
            final(self).wf(),
            final(self)@ == old(self)@.remove((deadline, seq)),
    {
        let ghost s = self.entries@;
        proof {
            self.lemma_wf_distinct();
            lemma_assoc_map_contains(self.pairs(), (deadline, seq));
        }
        let mut i: usize = 0;
        while i < self.entries.len()
            invariant
                self.entries@ == s,
                s == old(self).entries@,
                entries_ordered(s),
                i <= s.len(),
                forall|j: int| 0 <= j < i ==> key_of(#[trigger] s[j]) != (deadline, seq),
            decreases s.len() - i,
        {
            if self.entries[i].deadline == deadline && self.entries[i].seq == seq {
                proof {
                    assert(distinct_keys(self.pairs()));
                    lemma_assoc_map_remove_at(self.pairs(), i as int);
                }
                self.entries.remove(i);
                assert(self.pairs() =~= s.map_values(|x: TimerEntry| (key_of(x), x.waker)).remove(
                    i as int,
                ));
                assert(self.wf()) by {
                    assert(forall|a: int, b: int|
                        0 <= a < b < self.entries@.len() ==> key_lt(
                            key_of(#[trigger] self.entries@[a]),
                            key_of(#[trigger] self.entries@[b]),
                        ));
                }
                return ;
            }
            i = i + 1;
        }
        proof {
            assert(!old(self)@.contains_key((deadline, seq)));
            assert(old(self)@.remove((deadline, seq)) =~= old(self)@);
        }
    }

    /// Split off and return every entry due at or before `now`, in firing
    /// order: ascending deadline, ties in ascending sequence (registration)
    /// order.  Entries strictly after `now` stay pending.
    pub fn pop_due(&mut self, now: u64) -> (fired: Vec<TimerEntry>)
        requires
            old(self).wf(),
        ensures
            final(self).wf(),
            fired@.len() + final(self).entries@.len() == old(self).entries@.len(),
            fired@ == old(self).entries@.take(fired@.len() as int),
            final(self).entries@ == old(self).entries@.skip(fired@.len() as int),
            entries_ordered(fired@),
            forall|i: int| 0 <= i < fired@.len() ==> (#[trigger] fired@[i]).deadline <= now,
            forall|i: int|
                0 <= i < final(self).entries@.len()
                    ==> (#[trigger] final(self).entries@[i]).deadline > now,
            fired@.len() == 0 ==> *final(self) == *old(self),
    {
        let ghost s = self.entries@;
        let mut fired: Vec<TimerEntry> = Vec::new();
        while self.entries.len() > 0 && self.entries[0].deadline <= now
            invariant
                fired@ + self.entries@ =~= s,
                fired@ =~= s.take(fired@.len() as int),
                self.entries@ =~= s.skip(fired@.len() as int),
                entries_ordered(s),
                forall|i: int| 0 <= i < fired@.len() ==> (#[trigger] fired@[i]).deadline <= now,
                fired@.len() == 0 ==> *self == *old(self),
            decreases self.entries@.len(),
        {
            let e = self.entries.remove(0);
            fired.push(e);
            proof {
                assert(fired@ =~= s.take(fired@.len() as int));
                assert(self.entries@ =~= s.skip(fired@.len() as int));
            }
        }
        proof {
            assert(forall|i: int|
                0 <= i < self.entries@.len() ==> (#[trigger] self.entries@[i]).deadline > now) by {
                if self.entries@.len() > 0 {
                    assert(self.entries@[0].deadline > now);
                    assert(forall|i: int|
                        1 <= i < self.entries@.len() ==> key_lt(
                            key_of(self.entries@[0]),
                            key_of(#[trigger] self.entries@[i]),
                        ));
                }
            }
        }
        fired
    }

    /// The nearest pending deadline, if any.  It is a lower bound on every
    /// stored deadline.
    pub fn next_deadline(&self) -> (r: Option<u64>)
        requires
            self.wf(),
        ensures
            match r {
                Some(d) => self.entries@.len() > 0 && d == self.entries@[0].deadline && forall|
                    i: int,
                |
                    0 <= i < self.entries@.len() ==> d <= (#[trigger] self.entries@[i]).deadline,
                None => self.entries@.len() == 0,
            },
    {
        if self.entries.len() == 0 {
            None
        } else {
            proof {
                assert(forall|i: int|
                    1 <= i < self.entries@.len() ==> key_lt(
                        key_of(self.entries@[0]),
                        key_of(#[trigger] self.entries@[i]),
                    ));
            }
            Some(self.entries[0].deadline)
        }
    }
}

} // verus!
