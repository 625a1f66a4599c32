//! The first start of sync on a device: the existing projects are written
//! into the empty log as operations.
use vstd::prelude::*;
use indexmap::IndexMap;
use crate::oplog::{AddTarget, OpKind, OpKindView};
use crate::project::{LoadedProject, ProjectView, with_key};
use crate::task_map::{Entries, TaskData, TaskView, task_entries, tm_len, tm_get, tm_replace_at};

verus! {

/// Order keys numbered 0, 1000, 2000, … in list order.
pub open spec fn renumbered(s: Entries) -> Entries {
    Seq::new(s.len(), |i: int| (s[i].0, with_key(s[i].1, (i * 1000) as i64)))
}

pub open spec fn renumbered_project(p: ProjectView) -> ProjectView {
    ProjectView { main: renumbered(p.main), subs: renumbered(p.subs), ..p }
}

/// The additions of the tasks of `s` to project `pid`, each at its
/// creation time.
pub open spec fn add_ops(pid: Seq<char>, s: Entries, target: AddTarget) -> Seq<(OpKindView, u64)> {
    Seq::new(s.len(), |i: int| (OpKindView::AddTask { project_id: pid, task_id: s[i].0, text: s[i].1.text, target }, s[i].1.created_at))
}

/// The operations that recreate project `p`: its creation, then its main
/// task, then its sub-tasks in order.
pub open spec fn project_ops(p: ProjectView) -> Seq<(OpKindView, u64)> {
    seq![(OpKindView::CreateProject { project_id: p.id, name: p.name, color: p.color_hex, created_at: p.created_at }, p.created_at)]
        + add_ops(p.id, p.main, AddTarget::Main) + add_ops(p.id, p.subs, AddTarget::End)
}

/// The operations for a list of projects, project after project.
pub open spec fn bootstrap_ops(ps: Seq<ProjectView>) -> Seq<(OpKindView, u64)>
    decreases ps.len(),
{
    if ps.len() == 0 {
        Seq::empty()
    } else {
        bootstrap_ops(ps.drop_last()) + project_ops(ps.last())
    }
}

pub open spec fn projects_view(v: Seq<LoadedProject>) -> Seq<ProjectView> {
    v.map_values(|p: LoadedProject| p@)
}

pub open spec fn kinds_view(v: Seq<(OpKind, u64)>) -> Seq<(OpKindView, u64)> {
    v.map_values(|e: (OpKind, u64)| (e.0@, e.1))
}

fn renumber(m: &mut IndexMap<String, TaskData>)
    requires
        task_entries(*old(m)).len() * 1000 <= i64::MAX,
    ensures
        task_entries(*final(m)) == renumbered(task_entries(*old(m))),
{
    let ghost s0 = task_entries(*m);
    let n = tm_len(m);
    let mut i: usize = 0;
    while i < n
        invariant
            n == s0.len(),
            n * 1000 <= i64::MAX,
            i <= n,
            task_entries(*m).len() == n,
            forall|j: int| 0 <= j < i ==> #[trigger] task_entries(*m)[j] == (s0[j].0, with_key(s0[j].1, (j * 1000) as i64)),
            forall|j: int| i <= j < n ==> #[trigger] task_entries(*m)[j] == s0[j],
        decreases n - i,
    {
        let ghost before = task_entries(*m);
        let (_, mut t) = tm_get(m, i).unwrap();
        t.order_key = (i as i64) * 1000;
        tm_replace_at(m, i, t);
        proof {
            assert forall|j: int| 0 <= j < i + 1 implies #[trigger] task_entries(*m)[j] == (s0[j].0, with_key(s0[j].1, (j * 1000) as i64)) by {
                if j < i { assert(task_entries(*m)[j] == before[j]); }
            }
            assert forall|j: int| i + 1 <= j < n implies #[trigger] task_entries(*m)[j] == s0[j] by {
                assert(task_entries(*m)[j] == before[j]);
            }
        }
        i = i + 1;
    }
    assert(task_entries(*m) =~= renumbered(s0));
}

fn push_adds(out: &mut Vec<(OpKind, u64)>, pid: &String, m: &IndexMap<String, TaskData>, target: AddTarget)
    ensures
        kinds_view(final(out)@) == kinds_view(old(out)@) + add_ops(pid@, task_entries(*m), target),
{
    let ghost s = task_entries(*m);
    let ghost o0 = kinds_view(out@);
    let n = tm_len(m);
    let mut i: usize = 0;
    while i < n
        invariant
            n == s.len(),
            s == task_entries(*m),
            i <= n,
            kinds_view(out@) == o0 + add_ops(pid@, s, target).take(i as int),
        decreases n - i,
    {
        let (id, t) = tm_get(m, i).unwrap();
        let ghost before = kinds_view(out@);
        let ghost e = add_ops(pid@, s, target)[i as int];
        let k = OpKind::AddTask { project_id: pid.clone(), task_id: id, text: t.text, target };
        assert((k@, t.created_at) == e);
        out.push((k, t.created_at));
        assert(kinds_view(out@) =~= before.push(e));
        assert(add_ops(pid@, s, target).take(i + 1) =~= add_ops(pid@, s, target).take(i as int).push(e));
        i = i + 1;
    }
    assert(add_ops(pid@, s, target).take(n as int) =~= add_ops(pid@, s, target));
}

/// On an empty log (`next_seq` is 1), numbers the order keys of every
/// project 0, 1000, 2000, … in list order and returns the operations that
/// recreate the projects, with their times, to be written in that order.
/// On a log that already holds operations it does nothing.
pub fn run_if_needed(projects: &mut Vec<LoadedProject>, next_seq: u64) -> (ops: Vec<(OpKind, u64)>)
    requires
        forall|i: int| 0 <= i < old(projects)@.len() ==> (#[trigger] old(projects)@[i])@.main.len() * 1000 <= i64::MAX
            && old(projects)@[i]@.subs.len() * 1000 <= i64::MAX,
    ensures
        next_seq > 1 ==> ops@.len() == 0 && final(projects)@ == old(projects)@,
        next_seq <= 1 ==> projects_view(final(projects)@) == projects_view(old(projects)@).map_values(|p: ProjectView| renumbered_project(p))
            && kinds_view(ops@) == bootstrap_ops(projects_view(final(projects)@)),
{
    let mut ops: Vec<(OpKind, u64)> = Vec::new();
    if next_seq > 1 {
        return ops;
    }
    let ghost ps0 = projects_view(projects@);
    let mut done: Vec<LoadedProject> = Vec::new();
    let mut rest: Vec<LoadedProject> = Vec::new();
    std::mem::swap(&mut rest, projects);
    assert(projects_view(rest@) == ps0);
    assert(ps0.len() == rest.len());
    assert(ps0.skip(0) =~= ps0);
    assert(ps0.take(0).map_values(|p: ProjectView| renumbered_project(p)) =~= projects_view(done@));
    let mut i: usize = 0;
    assert(kinds_view(ops@) =~= bootstrap_ops(projects_view(done@)));
    while rest.len() > 0
        invariant
            ps0.len() <= usize::MAX,
            i + rest@.len() == ps0.len(),
            projects_view(rest@) == ps0.skip(i as int),
            projects_view(done@) == ps0.take(i as int).map_values(|p: ProjectView| renumbered_project(p)),
            kinds_view(ops@) == bootstrap_ops(projects_view(done@)),
            forall|j: int| 0 <= j < ps0.len() ==> (#[trigger] ps0[j]).main.len() * 1000 <= i64::MAX
                && ps0[j].subs.len() * 1000 <= i64::MAX,
        decreases rest@.len(),
    {
        let ghost r0 = rest@;
        assert(projects_view(r0)[0] == r0[0]@);
        let mut p = rest.remove(0);
        proof {
            assert(p@ == ps0[i as int]);
            assert(rest@ == r0.drop_first());
            assert forall|j: int| 0 <= j < rest@.len() implies #[trigger] projects_view(rest@)[j] == ps0.skip(i + 1)[j] by {
                assert(rest@[j] == r0[j + 1]);
                assert(projects_view(r0)[j + 1] == r0[j + 1]@);
                assert(ps0.skip(i as int)[j + 1] == ps0.skip(i + 1)[j]);
            }
            assert(projects_view(rest@) =~= ps0.skip(i + 1));
        }
        renumber(&mut p.main);
        renumber(&mut p.subs);
        let ghost pv = p@;
        assert(pv == renumbered_project(ps0[i as int]));
        let ghost before = kinds_view(ops@);
        ops.push((OpKind::CreateProject {
            project_id: p.id.clone(),
            name: p.name.clone(),
            color: p.color_hex.clone(),
            created_at: p.created_at,
        }, p.created_at));
        push_adds(&mut ops, &p.id, &p.main, AddTarget::Main);
        push_adds(&mut ops, &p.id, &p.subs, AddTarget::End);
        let ghost dv = projects_view(done@);
        done.push(p);
        proof {
            assert(projects_view(done@) =~= dv.push(pv));
            assert(projects_view(done@).drop_last() =~= dv);
            assert(kinds_view(ops@) =~= before + project_ops(pv));
            assert(ps0.take(i + 1).map_values(|p: ProjectView| renumbered_project(p)) =~=
                ps0.take(i as int).map_values(|p: ProjectView| renumbered_project(p)).push(renumbered_project(ps0[i as int])));
        }
        i = i + 1;
    }
    assert(ps0.take(ps0.len() as int) =~= ps0);
    *projects = done;
    ops
}

} // verus!
