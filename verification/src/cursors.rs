//! How far this device has read each peer's log.
use vstd::prelude::*;
use crate::keyed::{Keyed, lookup, lemma_lookup_at};

verus! {

/// Last sequence number read from each device, and the point up to which
/// the local log was compacted.
pub struct Cursors {
    pub cursors: Keyed<u64>,
    pub last_compact_seq: u64,
}

/// The smallest cursor (0 when there is none).
pub open spec fn min_value(v: Seq<(String, u64)>) -> u64
    decreases v.len(),
{
    if v.len() == 0 {
        0
    } else if v.len() == 1 {
        v[0].1
    } else {
        let m = min_value(v.drop_last());
        if v.last().1 < m { v.last().1 } else { m }
    }
}

/// The cursor `get` gives for `device_id`: the recorded one, else 0.
pub open spec fn cursor_value(c: Cursors, device_id: Seq<char>) -> u64 {
    match c.cursors.get_spec(device_id) {
        Some(v) => v,
        None => 0,
    }
}

/// `after` is `before` with the cursor of `device_id` set to `seq`, as
/// `Cursors::set` leaves it.
pub open spec fn set_step(before: Cursors, after: Cursors, device_id: Seq<char>, seq: u64) -> bool {
    &&& after.cursors.wf()
    &&& after.cursors.get_spec(device_id) == Some(seq)
    &&& forall|k: Seq<char>| k != device_id ==> after.cursors.get_spec(k) == before.cursors.get_spec(k)
    &&& after.last_compact_seq == before.last_compact_seq
}

/// The last value set for `device_id` in a run of sets, 0 when none was.
pub open spec fn last_set(sets: Seq<(Seq<char>, u64)>, device_id: Seq<char>) -> u64
    decreases sets.len(),
{
    if sets.len() == 0 {
        0
    } else if sets.last().0 == device_id {
        sets.last().1
    } else {
        last_set(sets.drop_last(), device_id)
    }
}

/// Reading a cursor after a run of sets on new cursors gives the value of
/// the last set for that device, or 0 when it was never set.
pub proof fn lemma_get_after_sets(states: Seq<Cursors>, sets: Seq<(Seq<char>, u64)>, device_id: Seq<char>)
    requires
        states.len() == sets.len() + 1,
        forall|k: Seq<char>| states[0].cursors.get_spec(k) is None,
        forall|i: int| 0 <= i < sets.len() ==> set_step(#[trigger] states[i], states[i + 1], sets[i].0, sets[i].1),
    ensures
        cursor_value(states.last(), device_id) == last_set(sets, device_id),
    decreases sets.len(),
{
    if sets.len() > 0 {
        let n = sets.len() - 1;
        assert(set_step(states[n], states[n + 1], sets[n].0, sets[n].1));
        lemma_get_after_sets(states.drop_last(), sets.drop_last(), device_id);
        assert(states.drop_last().last() == states[n]);
    }
}

impl Cursors {
    /// No cursors, nothing compacted.
    pub fn new() -> (c: Self)
        ensures
            c.cursors.wf(),
            c.cursors.entries@.len() == 0,
            c.last_compact_seq == 0,
    {
        Cursors { cursors: Keyed::new(), last_compact_seq: 0 }
    }

    /// The cursor of `device_id` (0 when it has none).
    pub fn get(&self, device_id: &str) -> (r: u64)
        requires
            self.cursors.wf(),
        ensures
            r == cursor_value(*self, device_id@),
    {
        match self.cursors.get(device_id) {
            Some(v) => *v,
            None => 0,
        }
    }

    /// Sets the cursor of `device_id`; other devices keep theirs.
    pub fn set(&mut self, device_id: &str, seq: u64)
        requires
            old(self).cursors.wf(),
        ensures
            set_step(*old(self), *final(self), device_id@, seq),
    {
        self.cursors.insert(device_id.to_string(), seq);
    }

    /// The smallest cursor over all devices (0 when there is none).
    pub fn min_cursor(&self) -> (r: u64)
        ensures
            r == min_value(self.cursors.entries@),
            self.cursors.entries@.len() > 0 ==> forall|i: int| 0 <= i < self.cursors.entries@.len()
                ==> r <= (#[trigger] self.cursors.entries@[i]).1,
            self.cursors.entries@.len() > 0 ==> exists|i: int| 0 <= i < self.cursors.entries@.len()
                && r == (#[trigger] self.cursors.entries@[i]).1,
    {
        let ghost v = self.cursors.entries@;
        let n = self.cursors.entries.len();
        if n == 0 {
            return 0;
        }
        let mut m = self.cursors.entries[0].1;
        let mut i: usize = 1;
        while i < n
            invariant
                n == v.len(),
                v == self.cursors.entries@,
                1 <= i <= n,
                m == min_value(v.take(i as int)),
                forall|j: int| 0 <= j < i ==> m <= (#[trigger] v[j]).1,
                exists|j: int| 0 <= j < i && m == (#[trigger] v[j]).1,
            decreases n - i,
        {
            assert(v.take(i + 1).drop_last() =~= v.take(i as int));
            assert(v.take(i + 1).last() == v[i as int]);
            let x = self.cursors.entries[i].1;
            if x < m {
                m = x;
            }
            i = i + 1;
        }
        assert(v.take(n as int) =~= v);
        m
    }

    pub fn last_compact_seq(&self) -> (r: u64)
        ensures
            r == self.last_compact_seq,
    {
        self.last_compact_seq
    }

    pub fn set_last_compact_seq(&mut self, seq: u64)
        ensures
            final(self).last_compact_seq == seq,
            final(self).cursors == old(self).cursors,
    {
        self.last_compact_seq = seq;
    }
}

} // verus!
