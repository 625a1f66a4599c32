//! The trusted peers: devices paired with this one.
use vstd::prelude::*;
use crate::sync_state::DeviceType;
use crate::text::str_eq;

verus! {

/// A paired device.
pub struct PeerEntry {
    pub device_id: String,
    pub device_name: String,
    pub token: String,
    /// Last known local network address.
    pub ip_hint: Option<String>,
    /// Time of the last successful pull from this peer.
    pub last_synced_at: Option<u64>,
    pub device_type: DeviceType,
}

/// The paired devices, in the order they were added.
pub struct Peers {
    pub list: Vec<PeerEntry>,
}

/// Position of the first peer with device id `id`, or the length.
pub open spec fn first_with_id(s: Seq<PeerEntry>, id: Seq<char>) -> int
    decreases s.len(),
{
    if s.len() == 0 {
        0
    } else if s[0].device_id@ == id {
        0
    } else {
        1 + first_with_id(s.drop_first(), id)
    }
}

/// Position of the first peer with token `t`, or the length.
pub open spec fn first_with_token(s: Seq<PeerEntry>, t: Seq<char>) -> int
    decreases s.len(),
{
    if s.len() == 0 {
        0
    } else if s[0].token@ == t {
        0
    } else {
        1 + first_with_token(s.drop_first(), t)
    }
}

pub proof fn lemma_first_with_id_bounds(s: Seq<PeerEntry>, id: Seq<char>)
    ensures
        0 <= first_with_id(s, id) <= s.len(),
    decreases s.len(),
{
    if s.len() > 0 && s[0].device_id@ != id {
        lemma_first_with_id_bounds(s.drop_first(), id);
    }
}

proof fn lemma_first_with_id(s: Seq<PeerEntry>, id: Seq<char>, i: int)
    requires
        0 <= i <= s.len(),
        forall|j: int| 0 <= j < i ==> (#[trigger] s[j]).device_id@ != id,
        i < s.len() ==> s[i].device_id@ == id,
    ensures
        first_with_id(s, id) == i,
    decreases s.len(),
{
    if s.len() > 0 && s[0].device_id@ != id {
        assert forall|j: int| 0 <= j < i - 1 implies (#[trigger] s.drop_first()[j]).device_id@ != id by {
            assert(s.drop_first()[j] == s[j + 1]);
        }
        lemma_first_with_id(s.drop_first(), id, i - 1);
    }
}

proof fn lemma_first_with_token(s: Seq<PeerEntry>, t: Seq<char>, i: int)
    requires
        0 <= i <= s.len(),
        forall|j: int| 0 <= j < i ==> (#[trigger] s[j]).token@ != t,
        i < s.len() ==> s[i].token@ == t,
    ensures
        first_with_token(s, t) == i,
    decreases s.len(),
{
    if s.len() > 0 && s[0].token@ != t {
        assert forall|j: int| 0 <= j < i - 1 implies (#[trigger] s.drop_first()[j]).token@ != t by {
            assert(s.drop_first()[j] == s[j + 1]);
        }
        lemma_first_with_token(s.drop_first(), t, i - 1);
    }
}

impl Peers {
    /// No peers.
    pub fn new() -> (p: Self)
        ensures
            p.list@.len() == 0,
    {
        Peers { list: Vec::new() }
    }

    /// All peers.
    pub fn all(&self) -> (r: &Vec<PeerEntry>)
        ensures
            r@ == self.list@,
    {
        &self.list
    }

    /// Position of the first peer with device id `device_id`.
    pub fn index_of_id(&self, device_id: &str) -> (r: Option<usize>)
        ensures
            match r {
                Some(i) => i < self.list@.len() && i as int == first_with_id(self.list@, device_id@),
                None => first_with_id(self.list@, device_id@) == self.list@.len(),
            },
    {
        let mut i: usize = 0;
        while i < self.list.len()
            invariant
                i <= self.list@.len(),
                forall|j: int| 0 <= j < i ==> (#[trigger] self.list@[j]).device_id@ != device_id@,
            decreases self.list@.len() - i,
        {
            if str_eq(self.list[i].device_id.as_str(), device_id) {
                proof { lemma_first_with_id(self.list@, device_id@, i as int); }
                return Some(i);
            }
            i = i + 1;
        }
        proof { lemma_first_with_id(self.list@, device_id@, i as int); }
        None
    }

    /// The first peer that holds token `token`.
    pub fn find_by_token(&self, token: &str) -> (r: Option<&PeerEntry>)
        ensures
            match r {
                Some(p) => first_with_token(self.list@, token@) < self.list@.len()
                    && *p == self.list@[first_with_token(self.list@, token@)],
                None => first_with_token(self.list@, token@) == self.list@.len(),
            },
    {
        let mut i: usize = 0;
        while i < self.list.len()
            invariant
                i <= self.list@.len(),
                forall|j: int| 0 <= j < i ==> (#[trigger] self.list@[j]).token@ != token@,
            decreases self.list@.len() - i,
        {
            if str_eq(self.list[i].token.as_str(), token) {
                proof { lemma_first_with_token(self.list@, token@, i as int); }
                return Some(&self.list[i]);
            }
            i = i + 1;
        }
        proof { lemma_first_with_token(self.list@, token@, i as int); }
        None
    }

    /// The first peer with device id `device_id`.
    pub fn find_by_id(&self, device_id: &str) -> (r: Option<&PeerEntry>)
        ensures
            match r {
                Some(p) => first_with_id(self.list@, device_id@) < self.list@.len()
                    && *p == self.list@[first_with_id(self.list@, device_id@)],
                None => first_with_id(self.list@, device_id@) == self.list@.len(),
            },
    {
        match self.index_of_id(device_id) {
            Some(i) => Some(&self.list[i]),
            None => None,
        }
    }

    /// Adds a peer; one with the same device id is replaced in place.
    pub fn add(&mut self, entry: PeerEntry)
        ensures
            ({
                let i = first_with_id(old(self).list@, entry.device_id@);
                if i < old(self).list@.len() {
                    final(self).list@ == old(self).list@.update(i, entry)
                } else {
                    final(self).list@ == old(self).list@.push(entry)
                }
            }),
    {
        match self.index_of_id(entry.device_id.as_str()) {
            Some(i) => self.list.set(i, entry),
            None => self.list.push(entry),
        }
    }

    /// Removes every peer with device id `device_id`; the others stay, in
    /// order.
    pub fn remove(&mut self, device_id: &str)
        ensures
            final(self).list@ == old(self).list@.filter(|p: PeerEntry| p.device_id@ != device_id@),
    {
        let ghost v0 = self.list@;
        let ghost keep = |p: PeerEntry| p.device_id@ != device_id@;
        let mut rest: Vec<PeerEntry> = Vec::new();
        std::mem::swap(&mut rest, &mut self.list);
        let mut kept: Vec<PeerEntry> = Vec::new();
        let mut i: usize = 0;
        assert(v0.take(0).filter(keep) =~= kept@);
        assert(v0.len() == rest.len());
        while rest.len() > 0
            invariant
                v0.len() <= usize::MAX,
                i + rest@.len() == v0.len(),
                rest@ == v0.skip(i as int),
                kept@ == v0.take(i as int).filter(keep),
                keep == |p: PeerEntry| p.device_id@ != device_id@,
            decreases rest@.len(),
        {
            let e = rest.remove(0);
            proof {
                assert(e == v0[i as int]);
                assert(rest@ =~= v0.skip(i + 1));
                reveal_with_fuel(Seq::<_>::filter, 1);
                assert(v0.take(i + 1).drop_last() =~= v0.take(i as int));
                assert(v0.take(i + 1).last() == v0[i as int]);
            }
            if !str_eq(e.device_id.as_str(), device_id) {
                kept.push(e);
            }
            i = i + 1;
        }
        assert(v0.take(v0.len() as int) =~= v0);
        self.list = kept;
    }

    /// Records address `ip` for peer `device_id`. Returns whether anything
    /// changed (the list needs saving then).
    pub fn update_ip(&mut self, device_id: &str, ip: String) -> (changed: bool)
        ensures
            ({
                let i = first_with_id(old(self).list@, device_id@);
                if i < old(self).list@.len() && !(old(self).list@[i].ip_hint matches Some(h) && h@ == ip@) {
                    changed && final(self).list@ == old(self).list@.update(i, PeerEntry { ip_hint: Some(ip), ..old(self).list@[i] })
                } else {
                    !changed && final(self).list@ == old(self).list@
                }
            }),
    {
        let i = match self.index_of_id(device_id) {
            Some(i) => i,
            None => return false,
        };
        let same = match &self.list[i].ip_hint {
            Some(h) => str_eq(h.as_str(), ip.as_str()),
            None => false,
        };
        if same {
            return false;
        }
        let mut p = self.list.remove(i);
        p.ip_hint = Some(ip);
        self.list.insert(i, p);
        proof {
            assert(self.list@ =~= old(self).list@.update(i as int, PeerEntry { ip_hint: Some(ip), ..old(self).list@[i as int] }));
        }
        true
    }

    /// Records the time of a successful pull from peer `device_id`.
    /// Returns whether the peer is known (the list needs saving then).
    pub fn update_last_synced(&mut self, device_id: &str, ts: u64) -> (found: bool)
        ensures
            ({
                let i = first_with_id(old(self).list@, device_id@);
                if i < old(self).list@.len() {
                    found && final(self).list@ == old(self).list@.update(i, PeerEntry { last_synced_at: Some(ts), ..old(self).list@[i] })
                } else {
                    !found && final(self).list@ == old(self).list@
                }
            }),
    {
        let i = match self.index_of_id(device_id) {
            Some(i) => i,
            None => return false,
        };
        let mut p = self.list.remove(i);
        p.last_synced_at = Some(ts);
        self.list.insert(i, p);
        proof {
            assert(self.list@ =~= old(self).list@.update(i as int, PeerEntry { last_synced_at: Some(ts), ..old(self).list@[i as int] }));
        }
        true
    }

    /// Takes the name and type a peer announces about itself. Returns
    /// whether either changed (the list needs saving then).
    pub fn apply_hello(&mut self, device_id: &str, name: String, device_type: DeviceType) -> (changed: bool)
        ensures
            ({
                let i = first_with_id(old(self).list@, device_id@);
                if i < old(self).list@.len()
                    && (old(self).list@[i].device_name@ != name@ || old(self).list@[i].device_type != device_type) {
                    changed && final(self).list@ == old(self).list@.update(i,
                        PeerEntry { device_name: name, device_type, ..old(self).list@[i] })
                } else {
                    !changed && final(self).list@ == old(self).list@
                }
            }),
    {
        let i = match self.index_of_id(device_id) {
            Some(i) => i,
            None => return false,
        };
        let same = str_eq(self.list[i].device_name.as_str(), name.as_str()) && self.list[i].device_type == device_type;
        if same {
            return false;
        }
        let mut p = self.list.remove(i);
        p.device_name = name;
        p.device_type = device_type;
        self.list.insert(i, p);
        proof {
            assert(self.list@ =~= old(self).list@.update(i as int,
                PeerEntry { device_name: name, device_type, ..old(self).list@[i as int] }));
        }
        true
    }
}

} // verus!
