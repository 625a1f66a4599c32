//! Which projects are in memory at start-up, which one is open, and what
//! switching to another project does to that list.
use vstd::prelude::*;
use crate::color::{hex_color_spec, hex_to_color32, hex_text};
use crate::manifest::{EntryView, Manifest, ManifestEntry, ManifestSeq};
use crate::project::{LoadedProject, ProjectView, default_project};
use crate::task_map::tm_new;
use crate::text::str_eq;
use crate::apply::{first_project, projects_view, seen_has, find_project, seen_contains};

verus! {

/// Colour of a placeholder whose index colour cannot be read.
pub open spec fn fallback_color() -> Seq<u8> {
    seq![74u8, 144, 217]
}

/// A project known only from the index: name and colour, no tasks yet.
pub open spec fn placeholder_view(id: Seq<char>, e: EntryView) -> ProjectView {
    ProjectView {
        id,
        name: e.name,
        color: match hex_color_spec(e.color_hex) {
            Some(c) => c,
            None => fallback_color(),
        },
        main: Seq::empty(),
        subs: Seq::empty(),
        color_hex: e.color_hex,
        created_at: 0,
        loaded: false,
        name_edited_at: 0,
        color_edited_at: 0,
    }
}

/// The index entries of every project but `id`, in index order.
pub open spec fn others(m: ManifestSeq, id: Seq<char>) -> ManifestSeq
    decreases m.len(),
{
    if m.len() == 0 {
        m
    } else {
        let rest = others(m.drop_last(), id);
        if m.last().0 == id { rest } else { rest.push(m.last()) }
    }
}

/// Whether `p` is the default project made with `id` at `now`.
pub open spec fn is_default_project(p: ProjectView, id: Seq<char>, now: u64) -> bool {
    &&& p.id == id
    &&& p.name == seq!['C', 'u', 'e']
    &&& p.color == fallback_color()
    &&& p.color_hex == hex_text(fallback_color())
    &&& p.main.len() == 0
    &&& p.subs.len() == 0
    &&& p.created_at == now
    &&& p.loaded
    &&& p.name_edited_at == 0
    &&& p.color_edited_at == 0
}

/// Where the project with id `id` is open: its first position in `s`, or
/// the first project when there is no such id (or none is given).
pub open spec fn open_position(s: Seq<LoadedProject>, id: Option<Seq<char>>) -> int {
    match id {
        Some(l) => {
            let f = first_project(projects_view(s), l);
            if f < s.len() { f } else { 0 }
        },
        None => 0,
    }
}

/// The first position holding id `id`, when one does, has it, and none
/// before does.
pub proof fn lemma_first_project(s: Seq<LoadedProject>, id: Seq<char>)
    ensures
        0 <= first_project(projects_view(s), id) <= s.len(),
        first_project(projects_view(s), id) < s.len() ==> s[first_project(projects_view(s), id)]@.id == id,
        forall|j: int| 0 <= j < first_project(projects_view(s), id) ==> (#[trigger] s[j])@.id != id,
    decreases s.len(),
{
    if s.len() > 0 {
        let ps = projects_view(s);
        assert(ps[0] == s[0]@);
        if s[0]@.id != id {
            lemma_first_project(s.drop_first(), id);
            assert(projects_view(s.drop_first()) =~= ps.drop_first());
            assert forall|j: int| 0 <= j < first_project(ps, id) implies (#[trigger] s[j])@.id != id by {
                if j > 0 {
                    assert(s[j] == s.drop_first()[j - 1]);
                }
            }
        }
    }
}

/// Placeholder for a project of the index whose file is not read yet.
pub fn placeholder(id: &String, e: &ManifestEntry) -> (p: LoadedProject)
    ensures
        p@ == placeholder_view(id@, e@),
{
    let color: [u8; 3] = match hex_to_color32(e.color_hex.as_str()) {
        Some(c) => c,
        None => [74, 144, 217],
    };
    proof {
        let d: [u8; 3] = [74, 144, 217];
        assert(d@ =~= fallback_color());
    }
    let p = LoadedProject {
        id: id.clone(),
        name: e.name.clone(),
        color,
        main: tm_new(),
        subs: tm_new(),
        color_hex: e.color_hex.clone(),
        created_at: 0,
        loaded: false,
        name_edited_at: 0,
        color_edited_at: 0,
    };
    assert(p@.color =~= placeholder_view(id@, e@).color);
    p
}

/// Whether start-up reads every project file at once: when the operation
/// log is empty or the project index has no entry.
pub fn full_load_needed(ops_log_empty: bool, m: &Manifest) -> (r: bool)
    ensures
        r == (ops_log_empty || m@.len() == 0),
{
    ops_log_empty || m.is_empty()
}

/// Position of the first project with id `id`, else 0.
pub fn open_index(projects: &Vec<LoadedProject>, id: Option<&str>) -> (r: usize)
    ensures
        r == open_position(projects@, match id { Some(l) => Some(l@), None => None }),
        projects.len() > 0 ==> r < projects.len(),
{
    match id {
        None => 0,
        Some(l) => {
            let i = find_project(projects, l);
            if i < projects.len() { i } else { 0 }
        },
    }
}

/// Start-up with every project file read: the projects read (a new default
/// project when there are none) and the position of the open one, the last
/// open project when it is among them.
pub fn start_full(loaded: Vec<LoadedProject>, last_project_id: Option<&str>, default_id: String, now: u64)
    -> (r: (Vec<LoadedProject>, usize))
    ensures
        loaded.len() > 0 ==> r.0@ == loaded@,
        loaded.len() == 0 ==> r.0.len() == 1 && is_default_project(r.0@[0]@, default_id@, now),
        r.1 == open_position(r.0@, match last_project_id { Some(l) => Some(l@), None => None }),
        r.1 < r.0.len(),
{
    let mut projects = loaded;
    if projects.len() == 0 {
        projects.push(default_project(default_id, now));
    }
    let i = open_index(&projects, last_project_id);
    (projects, i)
}

/// Start-up from the index: a placeholder for every other project of the
/// index, in index order, then the open project, read from its file.
pub fn start_partial(m: &Manifest, active: LoadedProject) -> (r: (Vec<LoadedProject>, usize))
    ensures
        r.0.len() == others(m@, active@.id).len() + 1,
        r.1 == others(m@, active@.id).len(),
        forall|k: int| 0 <= k < others(m@, active@.id).len() ==>
            #[trigger] r.0@[k]@ == placeholder_view(others(m@, active@.id)[k].0, others(m@, active@.id)[k].1),
        r.0@[r.1 as int] == active,
{
    let ghost id = active@.id;
    let mut built: Vec<LoadedProject> = Vec::new();
    let mut i: usize = 0;
    while i < m.entries.len()
        invariant
            id == active@.id,
            i <= m@.len(),
            m@.len() == m.entries.len(),
            built.len() == others(m@.take(i as int), id).len(),
            forall|k: int| 0 <= k < built.len() ==>
                #[trigger] built@[k]@ == placeholder_view(others(m@.take(i as int), id)[k].0, others(m@.take(i as int), id)[k].1),
        decreases m.entries.len() - i,
    {
        let ghost before = m@.take(i as int);
        let e = &m.entries[i];
        proof {
            assert(m@.take(i + 1).drop_last() =~= before);
            assert(m@.take(i + 1).last() == m@[i as int]);
            assert(m@[i as int] == (e.0@, e.1@));
        }
        if !str_eq(e.0.as_str(), active.id.as_str()) {
            built.push(placeholder(&e.0, &e.1));
        }
        i = i + 1;
    }
    proof { assert(m@.take(m@.len() as int) =~= m@); }
    let n = built.len();
    built.push(active);
    (built, n)
}

/// Switching the open project to position `idx`, given what reading that
/// project's file gave (`read`; only looked at for a placeholder). A
/// placeholder is replaced by what was read; when it cannot be read it is
/// dropped from memory (nothing is deleted) and the open project stays
/// open. Returns the position of the open project afterwards.
pub fn switch_to(projects: &mut Vec<LoadedProject>, active: usize, idx: usize, read: Option<LoadedProject>) -> (r: usize)
    requires
        active < old(projects).len(),
        idx < old(projects).len(),
    ensures
        r < final(projects).len(),
        idx == active || old(projects)@[idx as int].loaded ==> final(projects)@ == old(projects)@ && r == idx,
        idx != active && !old(projects)@[idx as int].loaded ==> match read {
            Some(p) => final(projects)@ == old(projects)@.update(idx as int, p) && r == idx,
            None => {
                &&& final(projects)@ == old(projects)@.remove(idx as int)
                &&& r == if idx < active { active - 1 } else { active as int }
                &&& final(projects)@[r as int] == old(projects)@[active as int]
            },
        },
{
    if idx == active || projects[idx].loaded {
        return idx;
    }
    match read {
        Some(p) => {
            projects.set(idx, p);
            idx
        },
        None => {
            projects.remove(idx);
            if idx < active {
                active - 1
            } else {
                active
            }
        },
    }
}

/// Removes project `i` from memory after it was deleted, and returns the
/// open position afterwards: one less when `i` was before it; when the open
/// project itself went, the same position, or the last one when that is
/// past the end.
pub fn remove_project(projects: &mut Vec<LoadedProject>, active: usize, i: usize) -> (r: usize)
    requires
        i < old(projects).len(),
    ensures
        final(projects)@ == old(projects)@.remove(i as int),
        r == if i < active {
            active - 1
        } else if i == active && active >= final(projects).len() {
            if final(projects).len() > 0 { final(projects).len() - 1 } else { 0 }
        } else {
            active as int
        },
        active < old(projects).len() && final(projects).len() > 0 ==> r < final(projects).len(),
{
    projects.remove(i);
    if i < active {
        active - 1
    } else if i == active && active >= projects.len() {
        if projects.len() > 0 { projects.len() - 1 } else { 0 }
    } else {
        active
    }
}

/// What an incoming operation on a placeholder at `idx` does to the list
/// before it is applied: the placeholder is replaced by what its file gave,
/// or, when the file cannot be read, dropped (the operation is then not
/// applied), with a new default project when none is left. Returns the
/// position of the open project afterwards and whether to apply the
/// operation.
pub fn settle_placeholder(
    projects: &mut Vec<LoadedProject>,
    active: usize,
    idx: usize,
    read: Option<LoadedProject>,
    default_id: String,
    now: u64,
) -> (r: (usize, bool))
    requires
        idx < old(projects).len(),
    ensures
        match read {
            Some(p) => final(projects)@ == old(projects)@.update(idx as int, p) && r == (active, true),
            None => {
                &&& !r.1
                &&& old(projects).len() > 1 ==> final(projects)@ == old(projects)@.remove(idx as int)
                    && r.0 == if idx < active { active - 1 } else { active as int }
                &&& old(projects).len() == 1 ==> final(projects).len() == 1
                    && is_default_project(final(projects)@[0]@, default_id@, now) && r.0 == 0
            },
        },
{
    match read {
        Some(p) => {
            projects.set(idx, p);
            (active, true)
        },
        None => {
            projects.remove(idx);
            if projects.len() == 0 {
                projects.push(default_project(default_id, now));
                (0, false)
            } else if idx < active {
                (active - 1, false)
            } else {
                (active, false)
            }
        },
    }
}

/// Keeps the open position valid after operations were applied: a new
/// default project when none is left, else the last project when the open
/// position is past the end.
pub fn guard_active(projects: &mut Vec<LoadedProject>, active: usize, default_id: String, now: u64) -> (r: usize)
    ensures
        r < final(projects).len(),
        old(projects).len() == 0 ==> final(projects).len() == 1
            && is_default_project(final(projects)@[0]@, default_id@, now) && r == 0,
        old(projects).len() > 0 ==> final(projects)@ == old(projects)@
            && r == if active < old(projects).len() { active as int } else { old(projects).len() - 1 },
{
    if projects.len() == 0 {
        projects.push(default_project(default_id, now));
        0
    } else if active >= projects.len() {
        projects.len() - 1
    } else {
        active
    }
}

/// One project of the batch read in the background, merged into the list:
/// skipped when its id was deleted meanwhile or a project with its id
/// already holds real data; replacing the placeholder with its id; else
/// added at the end.
pub open spec fn merge_one(s: Seq<LoadedProject>, p: LoadedProject, deleted: Seq<String>) -> Seq<LoadedProject> {
    let i = first_project(projects_view(s), p@.id);
    if seen_has(deleted, p@.id) {
        s
    } else if i < s.len() {
        if s[i].loaded { s } else { s.update(i, p) }
    } else {
        s.push(p)
    }
}

/// The whole batch merged in, in order.
pub open spec fn merge_all(s: Seq<LoadedProject>, batch: Seq<LoadedProject>, deleted: Seq<String>) -> Seq<LoadedProject>
    decreases batch.len(),
{
    if batch.len() == 0 {
        s
    } else {
        merge_one(merge_all(s, batch.drop_last(), deleted), batch.last(), deleted)
    }
}

/// Merges the batch of projects read in the background into the list (see
/// `merge_one`); `deleted` holds the ids deleted while it was read.
pub fn merge_batch(projects: &mut Vec<LoadedProject>, batch: Vec<LoadedProject>, deleted: &Vec<String>)
    ensures
        final(projects)@ == merge_all(old(projects)@, batch@, deleted@),
{
    let ghost s0 = projects@;
    let ghost b = batch@;
    let n = batch.len();
    let mut rest = batch;
    let mut k: usize = 0;
    assert(b.take(0) =~= Seq::<LoadedProject>::empty());
    assert(rest@ =~= b.skip(0));
    while rest.len() > 0
        invariant
            k <= b.len(),
            b.len() == n,
            rest@ == b.skip(k as int),
            projects@ == merge_all(s0, b.take(k as int), deleted@),
        decreases rest.len(),
    {
        let p = rest.remove(0);
        proof {
            assert(p == b[k as int]);
            assert(b.take(k + 1).drop_last() =~= b.take(k as int));
            assert(b.take(k + 1).last() == b[k as int]);
            assert(rest@ =~= b.skip(k + 1));
        }
        let ghost before = projects@;
        if !seen_contains(deleted, p.id.as_str()) {
            let i = find_project(projects, p.id.as_str());
            if i < projects.len() {
                if !projects[i].loaded {
                    projects.set(i, p);
                }
            } else {
                projects.push(p);
            }
        }
        proof {
            assert(projects@ =~= merge_one(before, b[k as int], deleted@));
        }
        k = k + 1;
    }
    proof { assert(b.take(b.len() as int) =~= b); }
}

/// Merging never changes a project that already holds real data, nor
/// moves any project.
pub proof fn lemma_merge_keeps_live(s: Seq<LoadedProject>, batch: Seq<LoadedProject>, deleted: Seq<String>, i: int)
    requires
        0 <= i < s.len(),
        s[i].loaded,
    ensures
        merge_all(s, batch, deleted).len() >= s.len(),
        merge_all(s, batch, deleted)[i] == s[i],
    decreases batch.len(),
{
    if batch.len() > 0 {
        lemma_merge_keeps_live(s, batch.drop_last(), deleted, i);
        let m = merge_all(s, batch.drop_last(), deleted);
        lemma_first_project(m, batch.last()@.id);
    }
}

/// A project deleted while the batch was read does not come back.
pub proof fn lemma_merge_no_resurrect(s: Seq<LoadedProject>, batch: Seq<LoadedProject>, deleted: Seq<String>, id: Seq<char>)
    requires
        seen_has(deleted, id),
        forall|j: int| 0 <= j < s.len() ==> (#[trigger] s[j])@.id != id,
    ensures
        forall|j: int| 0 <= j < merge_all(s, batch, deleted).len() ==> (#[trigger] merge_all(s, batch, deleted)[j])@.id != id,
    decreases batch.len(),
{
    if batch.len() > 0 {
        lemma_merge_no_resurrect(s, batch.drop_last(), deleted, id);
        let m = merge_all(s, batch.drop_last(), deleted);
        lemma_first_project(m, batch.last()@.id);
    }
}

} // verus!
