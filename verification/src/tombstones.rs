//! Records of deleted projects and tasks, so that operations arriving
//! late do not bring them back.
use vstd::prelude::*;
use crate::keyed::{Keyed, lookup, keys_unique};

verus! {

#[derive(Clone, Copy, PartialEq, Eq, Structural, Debug)]
pub enum TombKind {
    Project,
    Task,
}

/// A deletion: what, when, by which device, and for a task its project.
pub struct TombEntry {
    pub kind: TombKind,
    pub deleted_at: u64,
    pub deleted_by: String,
    pub project_id: Option<String>,
}

/// Deletions by id of the deleted project or task.
pub struct Tombstones {
    pub map: Keyed<TombEntry>,
}

pub open spec fn deleted_at_spec(m: Keyed<TombEntry>, id: Seq<char>) -> Option<u64> {
    match m.get_spec(id) {
        Some(e) => Some(e.deleted_at),
        None => None,
    }
}

/// Every peer has read up to `seq`.
pub open spec fn all_confirmed(confirmed: Seq<u64>, seq: u64) -> bool {
    forall|j: int| 0 <= j < confirmed.len() ==> confirmed[j] >= seq
}

/// A deletion may be forgotten: it is older than `cutoff_ts`, and the
/// operation that made it is known and every peer has read it.
pub open spec fn prunable(e: (String, TombEntry), cutoff_ts: u64, delete_seqs: Keyed<u64>, confirmed: Seq<u64>) -> bool {
    &&& e.1.deleted_at < cutoff_ts
    &&& match delete_seqs.get_spec(e.0@) {
        Some(seq) => all_confirmed(confirmed, seq),
        None => false,
    }
}

fn is_prunable(e: &(String, TombEntry), cutoff_ts: u64, delete_seqs: &Keyed<u64>, confirmed: &Vec<u64>) -> (r: bool)
    requires
        delete_seqs.wf(),
    ensures
        r == prunable(*e, cutoff_ts, *delete_seqs, confirmed@),
{
    if e.1.deleted_at >= cutoff_ts {
        return false;
    }
    let seq = match delete_seqs.get(e.0.as_str()) {
        Some(s) => *s,
        None => return false,
    };
    let mut j: usize = 0;
    while j < confirmed.len()
        invariant
            j <= confirmed@.len(),
            forall|k: int| 0 <= k < j ==> confirmed@[k] >= seq,
            e.1.deleted_at < cutoff_ts,
            delete_seqs.get_spec(e.0@) == Some(seq),
        decreases confirmed@.len() - j,
    {
        if confirmed[j] < seq {
            assert(!all_confirmed(confirmed@, seq));
            return false;
        }
        j = j + 1;
    }
    true
}

impl Tombstones {
    pub fn new() -> (t: Self)
        ensures
            t.map.wf(),
            forall|k: Seq<char>| deleted_at_spec(t.map, k) is None,
    {
        Tombstones { map: Keyed::new() }
    }

    /// Records that project `id` was deleted at `deleted_at` by device
    /// `deleted_by`.
    pub fn add_project(&mut self, id: &str, deleted_at: u64, deleted_by: &str)
        requires
            old(self).map.wf(),
        ensures
            final(self).map.wf(),
            match final(self).map.get_spec(id@) {
                Some(e) => e.kind == TombKind::Project && e.deleted_at == deleted_at
                    && e.deleted_by@ == deleted_by@ && e.project_id is None,
                None => false,
            },
            forall|k: Seq<char>| k != id@ ==> final(self).map.get_spec(k) == old(self).map.get_spec(k),
    {
        let e = TombEntry { kind: TombKind::Project, deleted_at, deleted_by: deleted_by.to_string(), project_id: None };
        self.map.insert(id.to_string(), e);
    }

    /// Records that task `id` of project `project_id` was deleted.
    pub fn add_task(&mut self, id: &str, project_id: &str, deleted_at: u64, deleted_by: &str)
        requires
            old(self).map.wf(),
        ensures
            final(self).map.wf(),
            match final(self).map.get_spec(id@) {
                Some(e) => e.kind == TombKind::Task && e.deleted_at == deleted_at
                    && e.deleted_by@ == deleted_by@ && e.project_id is Some && e.project_id.unwrap()@ == project_id@,
                None => false,
            },
            forall|k: Seq<char>| k != id@ ==> final(self).map.get_spec(k) == old(self).map.get_spec(k),
    {
        let e = TombEntry {
            kind: TombKind::Task,
            deleted_at,
            deleted_by: deleted_by.to_string(),
            project_id: Some(project_id.to_string()),
        };
        self.map.insert(id.to_string(), e);
    }

    /// When `id` was deleted, if it was.
    pub fn deleted_at(&self, id: &str) -> (r: Option<u64>)
        requires
            self.map.wf(),
        ensures
            r == deleted_at_spec(self.map, id@),
    {
        match self.map.get(id) {
            Some(e) => Some(e.deleted_at),
            None => None,
        }
    }

    /// Forgets the deletions older than `cutoff_ts` that every peer has
    /// confirmed: `delete_seqs` gives the sequence number of the operation
    /// that deleted each id, `confirmed` how far each trusted peer has read
    /// (its cursor). A deletion whose operation is not known stays. The
    /// others stay, in order.
    pub fn prune(&mut self, cutoff_ts: u64, delete_seqs: &Keyed<u64>, confirmed: &Vec<u64>)
        requires
            old(self).map.wf(),
            delete_seqs.wf(),
        ensures
            final(self).map.wf(),
            final(self).map.entries@ == old(self).map.entries@.filter(
                |e: (String, TombEntry)| !prunable(e, cutoff_ts, *delete_seqs, confirmed@)),
    {
        let ghost v0 = self.map.entries@;
        let ghost keep = |e: (String, TombEntry)| !prunable(e, cutoff_ts, *delete_seqs, confirmed@);
        let mut rest: Vec<(String, TombEntry)> = Vec::new();
        std::mem::swap(&mut rest, &mut self.map.entries);
        let mut kept: Vec<(String, TombEntry)> = Vec::new();
        let mut i: usize = 0;
        assert(v0.take(0).filter(keep) =~= kept@);
        assert(v0.len() == rest.len());
        while rest.len() > 0
            invariant
                keys_unique(v0),
                v0.len() <= usize::MAX,
                i + rest@.len() == v0.len(),
                rest@ == v0.skip(i as int),
                kept@ == v0.take(i as int).filter(keep),
                keep == |e: (String, TombEntry)| !prunable(e, cutoff_ts, *delete_seqs, confirmed@),
                delete_seqs.wf(),
                keys_unique(kept@),
                forall|a: int, j: int| 0 <= a < kept@.len() && i <= j < v0.len()
                    ==> (#[trigger] kept@[a]).0@ != (#[trigger] v0[j]).0@,
            decreases rest@.len(),
        {
            let ghost before = kept@;
            let e = rest.remove(0);
            proof {
                assert(e == v0[i as int]);
                assert(rest@ =~= v0.skip(i + 1));
                reveal_with_fuel(Seq::<_>::filter, 1);
                assert(v0.take(i + 1).drop_last() =~= v0.take(i as int));
                assert(v0.take(i + 1).last() == v0[i as int]);
            }
            if !is_prunable(&e, cutoff_ts, delete_seqs, confirmed) {
                kept.push(e);
                proof {
                    assert(kept@ =~= before.push(v0[i as int]));
                    assert forall|a: int, b: int| 0 <= a < b < kept@.len() implies
                        (#[trigger] kept@[a]).0@ != (#[trigger] kept@[b]).0@ by {
                        if b < before.len() {
                            assert(before[a].0@ != before[b].0@);
                        } else {
                            assert(kept@[a] == before[a]);
                            assert(before[a].0@ != v0[i as int].0@);
                        }
                    }
                    assert forall|a: int, j: int| 0 <= a < kept@.len() && i + 1 <= j < v0.len() implies
                        (#[trigger] kept@[a]).0@ != (#[trigger] v0[j]).0@ by {
                        if a < before.len() {
                            assert(kept@[a] == before[a]);
                        } else {
                            assert(v0[i as int].0@ != v0[j].0@);
                        }
                    }
                }
            }
            i = i + 1;
        }
        assert(v0.take(v0.len() as int) =~= v0);
        self.map.entries = kept;
    }
}

} // verus!
