//! The project index: a light summary of every project (name, colour, task
//! count) by project id, read before the project files themselves.
use vstd::prelude::*;
use crate::project::{LoadedProject, ProjectView, any_active_routine};
use crate::task_map::tm_len;
use crate::text::str_eq;

verus! {

/// Summary of one project.
pub struct ManifestEntry {
    pub name: String,
    pub color_hex: String,
    /// All tasks, main and sub-tasks, inactive routines included.
    pub task_count: usize,
    pub has_active_routine: bool,
    /// Sort key for a custom project order (stored, not yet used).
    pub order_key: i64,
}

pub ghost struct EntryView {
    pub name: Seq<char>,
    pub color_hex: Seq<char>,
    pub task_count: usize,
    pub has_active_routine: bool,
    pub order_key: i64,
}

impl View for ManifestEntry {
    type V = EntryView;

    open spec fn view(&self) -> EntryView {
        EntryView {
            name: self.name@,
            color_hex: self.color_hex@,
            task_count: self.task_count,
            has_active_routine: self.has_active_routine,
            order_key: self.order_key,
        }
    }
}

/// Project id to summary; each id at most once.
pub struct Manifest {
    pub entries: Vec<(String, ManifestEntry)>,
}

pub type ManifestSeq = Seq<(Seq<char>, EntryView)>;

pub open spec fn manifest_seq(v: Seq<(String, ManifestEntry)>) -> ManifestSeq {
    v.map_values(|e: (String, ManifestEntry)| (e.0@, e.1@))
}

impl View for Manifest {
    type V = ManifestSeq;

    open spec fn view(&self) -> ManifestSeq {
        manifest_seq(self.entries@)
    }
}

pub open spec fn ids_unique(s: ManifestSeq) -> bool {
    forall|a: int, b: int| 0 <= a < b < s.len() ==> s[a].0 != s[b].0
}

/// The summary stored for id `k`.
pub open spec fn lookup(s: ManifestSeq, k: Seq<char>) -> Option<EntryView> {
    if exists|i: int| 0 <= i < s.len() && s[i].0 == k {
        Some(s[choose|i: int| 0 <= i < s.len() && s[i].0 == k].1)
    } else {
        None
    }
}

/// Summary of a project as it stands.
pub open spec fn entry_of(p: ProjectView) -> EntryView {
    EntryView {
        name: p.name,
        color_hex: p.color_hex,
        task_count: (p.main.len() + p.subs.len()) as usize,
        has_active_routine: any_active_routine(p.main) || any_active_routine(p.subs),
        order_key: 0,
    }
}

proof fn lemma_lookup_at(s: ManifestSeq, i: int)
    requires
        ids_unique(s),
        0 <= i < s.len(),
    ensures
        lookup(s, s[i].0) == Some(s[i].1),
{
    let k = s[i].0;
    let j = choose|j: int| 0 <= j < s.len() && s[j].0 == k;
    assert(j == i);
}

impl Manifest {
    pub open spec fn wf(&self) -> bool {
        ids_unique(self@)
    }

    /// The empty index.
    pub fn new() -> (m: Self)
        ensures
            m.wf(),
            m@.len() == 0,
    {
        let m = Manifest { entries: Vec::new() };
        assert(m@ =~= ManifestSeq::empty());
        m
    }

    pub fn is_empty(&self) -> (r: bool)
        ensures
            r == (self@.len() == 0),
    {
        self.entries.len() == 0
    }

    /// Position of id `id`, if stored.
    pub fn position(&self, id: &str) -> (r: Option<usize>)
        requires
            self.wf(),
        ensures
            match r {
                Some(i) => i < self@.len() && self@[i as int].0 == id@,
                None => forall|j: int| 0 <= j < self@.len() ==> self@[j].0 != id@,
            },
    {
        let mut i: usize = 0;
        while i < self.entries.len()
            invariant
                i <= self.entries@.len(),
                self@.len() == self.entries@.len(),
                forall|j: int| 0 <= j < i ==> self@[j].0 != id@,
            decreases self.entries@.len() - i,
        {
            assert(self@[i as int].0 == self.entries@[i as int].0@);
            if str_eq(self.entries[i].0.as_str(), id) {
                return Some(i);
            }
            i = i + 1;
        }
        None
    }

    /// The summary for project `id`.
    pub fn get(&self, id: &str) -> (r: Option<&ManifestEntry>)
        requires
            self.wf(),
        ensures
            match r {
                Some(e) => lookup(self@, id@) == Some(e@),
                None => lookup(self@, id@) is None,
            },
    {
        match self.position(id) {
            Some(i) => {
                proof { lemma_lookup_at(self@, i as int); }
                assert(self@[i as int].1 == self.entries@[i as int].1@);
                Some(&self.entries[i].1)
            },
            None => None,
        }
    }
}

/// Adds or replaces the summary of project `id`; the summaries of other
/// projects stay as they were.
pub fn upsert_entry(m: &mut Manifest, id: &str, entry: ManifestEntry)
    requires
        old(m).wf(),
    ensures
        final(m).wf(),
        lookup(final(m)@, id@) == Some(entry@),
        forall|k: Seq<char>| k != id@ ==> lookup(final(m)@, k) == lookup(old(m)@, k),
{
    let ghost s0 = m@;
    let ghost ev = entry@;
    match m.position(id) {
        Some(i) => {
            let key = m.entries[i].0.clone();
            m.entries.set(i, (key, entry));
            proof {
                assert(m@ =~= s0.update(i as int, (id@, ev)));
                lemma_lookup_at(m@, i as int);
                assert forall|k: Seq<char>| k != id@ implies lookup(m@, k) == lookup(s0, k) by {
                    if exists|j: int| 0 <= j < s0.len() && s0[j].0 == k {
                        let j = choose|j: int| 0 <= j < s0.len() && s0[j].0 == k;
                        lemma_lookup_at(s0, j);
                        lemma_lookup_at(m@, j);
                    } else {
                        assert(!exists|j: int| 0 <= j < m@.len() && m@[j].0 == k);
                    }
                }
            }
        },
        None => {
            m.entries.push((id.to_string(), entry));
            proof {
                assert(m@ =~= s0.push((id@, ev)));
                lemma_lookup_at(m@, s0.len() as int);
                assert forall|k: Seq<char>| k != id@ implies lookup(m@, k) == lookup(s0, k) by {
                    if exists|j: int| 0 <= j < s0.len() && s0[j].0 == k {
                        let j = choose|j: int| 0 <= j < s0.len() && s0[j].0 == k;
                        lemma_lookup_at(s0, j);
                        lemma_lookup_at(m@, j);
                    } else {
                        assert(!exists|j: int| 0 <= j < m@.len() && m@[j].0 == k);
                    }
                }
            }
        },
    }
}

/// Removes the summary of project `id`. Returns whether there was one (the
/// index needs writing back only then).
pub fn remove_entry(m: &mut Manifest, id: &str) -> (removed: bool)
    requires
        old(m).wf(),
    ensures
        final(m).wf(),
        removed == (lookup(old(m)@, id@) is Some),
        lookup(final(m)@, id@) is None,
        forall|k: Seq<char>| k != id@ ==> lookup(final(m)@, k) == lookup(old(m)@, k),
        !removed ==> final(m)@ == old(m)@,
{
    let ghost s0 = m@;
    match m.position(id) {
        Some(i) => {
            m.entries.remove(i);
            proof {
                assert(m@ =~= s0.remove(i as int));
                lemma_lookup_at(s0, i as int);
                assert forall|k: Seq<char>| k != id@ implies lookup(m@, k) == lookup(s0, k) by {
                    if exists|j: int| 0 <= j < s0.len() && s0[j].0 == k {
                        let j = choose|j: int| 0 <= j < s0.len() && s0[j].0 == k;
                        lemma_lookup_at(s0, j);
                        let j2 = if j < i { j } else { j - 1 };
                        assert(m@[j2] == s0[j]);
                        lemma_lookup_at(m@, j2);
                    } else {
                        assert(!exists|j: int| 0 <= j < m@.len() && m@[j].0 == k);
                    }
                }
            }
            true
        },
        None => false,
    }
}

/// Summary of a project as it stands.
pub fn entry_for(p: &LoadedProject) -> (e: ManifestEntry)
    requires
        p@.main.len() + p@.subs.len() <= usize::MAX,
    ensures
        e@ == entry_of(p@),
{
    let count = tm_len(&p.main) + tm_len(&p.subs);
    ManifestEntry {
        name: p.name.clone(),
        color_hex: p.color_hex.clone(),
        task_count: count,
        has_active_routine: p.has_active_routine(),
        order_key: 0,
    }
}

/// The index of a list of loaded projects, built from scratch; for an id
/// that occurs twice the later project wins.
pub fn rebuild_from(projects: &[LoadedProject]) -> (m: Manifest)
    requires
        forall|i: int| 0 <= i < projects@.len() ==>
            (#[trigger] projects@[i])@.main.len() + projects@[i]@.subs.len() <= usize::MAX,
    ensures
        m.wf(),
        forall|i: int| 0 <= i < projects@.len()
            && (forall|j: int| i < j < projects@.len() ==> (#[trigger] projects@[j])@.id != projects@[i]@.id)
            ==> lookup(m@, (#[trigger] projects@[i])@.id) == Some(entry_of(projects@[i]@)),
        forall|k: Seq<char>| (forall|i: int| 0 <= i < projects@.len() ==> (#[trigger] projects@[i])@.id != k)
            ==> lookup(m@, k) is None,
{
    let mut m = Manifest::new();
    let mut i: usize = 0;
    while i < projects.len()
        invariant
            i <= projects@.len(),
            m.wf(),
            forall|i: int| 0 <= i < projects@.len() ==>
                (#[trigger] projects@[i])@.main.len() + projects@[i]@.subs.len() <= usize::MAX,
            forall|a: int| 0 <= a < i
                && (forall|j: int| a < j < i ==> (#[trigger] projects@[j])@.id != projects@[a]@.id)
                ==> lookup(m@, (#[trigger] projects@[a])@.id) == Some(entry_of(projects@[a]@)),
            forall|k: Seq<char>| (forall|a: int| 0 <= a < i ==> (#[trigger] projects@[a])@.id != k)
                ==> lookup(m@, k) is None,
        decreases projects@.len() - i,
    {
        let ghost before = m@;
        let e = entry_for(&projects[i]);
        upsert_entry(&mut m, projects[i].id.as_str(), e);
        proof {
            assert forall|a: int| 0 <= a < i + 1
                && (forall|j: int| a < j < i + 1 ==> (#[trigger] projects@[j])@.id != projects@[a]@.id)
                implies lookup(m@, (#[trigger] projects@[a])@.id) == Some(entry_of(projects@[a]@)) by {
                if a < i {
                    assert(projects@[i as int]@.id != projects@[a]@.id);
                }
            }
            assert forall|k: Seq<char>| (forall|a: int| 0 <= a < i + 1 ==> (#[trigger] projects@[a])@.id != k)
                implies lookup(m@, k) is None by {
                assert(projects@[i as int]@.id != k);
            }
        }
        i = i + 1;
    }
    m
}

} // verus!
