//! What the task moves keep: no task is lost or duplicated by promoting,
//! reordering, completing, adding or deleting, beyond the one task each
//! of them adds or removes; and where completing and promoting put the
//! tasks they move.
use vstd::prelude::*;
use vstd::multiset::Multiset;
use crate::project::{
    ProjectView, add_task_spec, complete_main_spec, first_active, promote_sub_spec, reorder_sub_spec,
    reorder_target, return_completed, pruned_routine, with_key, is_active_view,
};
use crate::settings::NewTaskPos;
use crate::task_map::{Entries, TaskView, has_key, key_pos, lemma_key_pos_is, map_insert, map_shift_insert};

verus! {

broadcast use {vstd::seq_lib::group_to_multiset_ensures, vstd::multiset::group_multiset_axioms};

/// The task ids of a list, in order.
pub open spec fn ids(s: Entries) -> Seq<Seq<char>> {
    s.map_values(|e: (Seq<char>, TaskView)| e.0)
}

/// All task ids of a project, main place and sub-tasks, counted.
pub open spec fn all_ids(p: ProjectView) -> Multiset<Seq<char>> {
    (ids(p.main) + ids(p.subs)).to_multiset()
}

/// At most one main task, and no id twice in the project.
pub open spec fn well_kept(p: ProjectView) -> bool {
    &&& p.main.len() <= 1
    &&& forall|a: int, b: int| 0 <= a < b < (ids(p.main) + ids(p.subs)).len()
        ==> (ids(p.main) + ids(p.subs))[a] != (ids(p.main) + ids(p.subs))[b]
}

proof fn lemma_absent(s: Entries, k: Seq<char>)
    requires
        forall|j: int| 0 <= j < s.len() ==> s[j].0 != k,
    ensures
        key_pos(s, k) == s.len(),
        !has_key(s, k),
{
    lemma_key_pos_is(s, k, s.len() as int);
}

proof fn lemma_first_active_bounds(s: Entries)
    ensures
        0 <= first_active(s) <= s.len(),
    decreases s.len(),
{
    if s.len() > 0 {
        lemma_first_active_bounds(s.drop_first());
    }
}

proof fn lemma_ms_add(a: Seq<Seq<char>>, b: Seq<Seq<char>>)
    ensures
        (a + b).to_multiset() == a.to_multiset().add(b.to_multiset()),
{
    vstd::seq_lib::lemma_multiset_commutative(a, b);
}

/// Reordering the sub-tasks only permutes them; the main task stays.
pub proof fn lemma_reorder_keeps_tasks(p: ProjectView, from: int, to_before: Option<usize>)
    requires
        0 <= from < p.subs.len(),
        to_before matches Some(b) ==> b <= p.subs.len(),
    ensures
        reorder_sub_spec(p, from, to_before).main == p.main,
        ids(reorder_sub_spec(p, from, to_before).subs).to_multiset() == ids(p.subs).to_multiset(),
{
    let q = reorder_sub_spec(p, from, to_before);
    if !(to_before == Some(from as usize) || from >= p.subs.len()) {
        let moved = p.subs[from];
        let subs1 = p.subs.remove(from);
        let target = reorder_target(subs1.len() as int, from, to_before);
        assert(0 <= target <= subs1.len());
        assert(ids(subs1) =~= ids(p.subs).remove(from));
        assert(ids(q.subs) =~= ids(subs1).insert(target, moved.0));
        assert(ids(p.subs)[from] == moved.0);
        assert(ids(q.subs).to_multiset() =~= ids(p.subs).to_multiset().remove(moved.0).insert(moved.0));
        assert(ids(p.subs).to_multiset().count(moved.0) > 0) by {
            assert(ids(p.subs).contains(moved.0));
        }
        assert(ids(p.subs).to_multiset().remove(moved.0).insert(moved.0) =~= ids(p.subs).to_multiset());
    }
}

/// Promoting a sub-task keeps every task of a well-kept project.
pub proof fn lemma_promote_keeps_tasks(p: ProjectView, i: int)
    requires
        well_kept(p),
        0 <= i < p.subs.len(),
    ensures
        all_ids(promote_sub_spec(p, i)) == all_ids(p),
{
    let q = promote_sub_spec(p, i);
    let s = p.subs[i];
    let subs1 = p.subs.remove(i);
    let all = ids(p.main) + ids(p.subs);
    assert(ids(subs1) =~= ids(p.subs).remove(i));
    assert(ids(p.subs)[i] == s.0);
    if p.main.len() > 0 {
        let old = p.main[0];
        let main1 = p.main.remove(0);
        assert(main1.len() == 0);
        assert(all[0] == old.0);
        assert forall|j: int| 0 <= j < subs1.len() implies subs1[j].0 != old.0 by {
            let jj = if j < i { j } else { j + 1 };
            assert(subs1[j] == p.subs[jj]);
            assert(all[1 + jj] == p.subs[jj].0);
        }
        lemma_absent(subs1, old.0);
        lemma_absent(main1, s.0);
        assert(q.main =~= seq![(s.0, s.1)]);
        let moved = with_key(old.1, crate::project::beg_key(subs1));
        assert(q.subs =~= subs1.insert(0, (old.0, moved)));
        assert(ids(q.main) =~= seq![s.0]);
        assert(ids(q.subs) =~= ids(subs1).insert(0, old.0));
        assert(ids(p.main) =~= seq![old.0]);
        lemma_ms_add(ids(q.main), ids(q.subs));
        lemma_ms_add(ids(p.main), ids(p.subs));
        assert(ids(p.subs).contains(s.0));
        assert(all_ids(q) =~= all_ids(p));
    } else {
        lemma_absent(p.main, s.0);
        assert(q.main =~= seq![(s.0, s.1)]);
        assert(ids(q.main) =~= seq![s.0]);
        assert(ids(p.main) =~= Seq::<Seq<char>>::empty());
        lemma_ms_add(ids(q.main), ids(q.subs));
        lemma_ms_add(ids(p.main), ids(p.subs));
        assert(ids(p.subs).contains(s.0));
        assert(all_ids(q) =~= all_ids(p));
    }
}

/// Completing the main task of a well-kept project removes it, unless its
/// routine comes back among the sub-tasks; every other task stays.
pub proof fn lemma_complete_keeps_tasks(p: ProjectView, now: u64)
    requires
        well_kept(p),
        p.main.len() == 1,
    ensures
        ({
            let done = p.main[0];
            let back = match done.1.routine {
                Some(r) => !pruned_routine(r, now).is_exhausted(),
                None => false,
            };
            if back { all_ids(complete_main_spec(p, now)) == all_ids(p) }
            else { all_ids(complete_main_spec(p, now)) == all_ids(p).remove(done.0) }
        }),
{
    let q = complete_main_spec(p, now);
    let done = p.main[0];
    let main1 = p.main.remove(0);
    let subs1 = return_completed(p.subs, done.0, done.1, now);
    let all = ids(p.main) + ids(p.subs);
    assert(main1 =~= Seq::<(Seq<char>, TaskView)>::empty());
    assert(ids(p.main) =~= seq![done.0]);
    assert forall|j: int| 0 <= j < p.subs.len() implies p.subs[j].0 != done.0 by {
        assert(all[0] == done.0);
        assert(all[1 + j] == p.subs[j].0);
    }
    lemma_absent(p.subs, done.0);
    let back = match done.1.routine {
        Some(r) => !pruned_routine(r, now).is_exhausted(),
        None => false,
    };
    if back {
        assert(ids(subs1) =~= ids(p.subs).push(done.0));
    } else {
        assert(subs1 == p.subs);
    }
    lemma_first_active_bounds(subs1);
    let pos = first_active(subs1);
    if pos < subs1.len() {
        lemma_absent(main1, subs1[pos].0);
        assert(q.main =~= seq![subs1[pos]]);
        assert(q.subs == subs1.remove(pos));
        assert(ids(q.main) =~= seq![subs1[pos].0]);
        assert(ids(q.subs) =~= ids(subs1).remove(pos));
        assert(ids(subs1)[pos] == subs1[pos].0);
        assert(ids(subs1).contains(subs1[pos].0));
        lemma_ms_add(ids(q.main), ids(q.subs));
        assert(all_ids(q) =~= ids(subs1).to_multiset());
    } else {
        assert(q.main == main1 && q.subs == subs1);
        assert(ids(q.main) =~= Seq::<Seq<char>>::empty());
        lemma_ms_add(ids(q.main), ids(q.subs));
        assert(ids(q.main) + ids(q.subs) =~= ids(subs1));
    }
    lemma_ms_add(ids(p.main), ids(p.subs));
    if back {
        assert(all_ids(q) =~= all_ids(p));
    } else {
        assert(all_ids(q) =~= all_ids(p).remove(done.0));
    }
}

/// Completing the main task when the first sub-task is active: that
/// sub-task takes the main place and leaves the list.
pub proof fn lemma_complete_first_takes_place(p: ProjectView, now: u64)
    requires
        well_kept(p),
        p.main.len() == 1,
        p.subs.len() > 0,
        is_active_view(p.subs[0].1),
    ensures
        complete_main_spec(p, now).main == seq![p.subs[0]],
        ids(complete_main_spec(p, now).subs) == ids(return_completed(p.subs, p.main[0].0, p.main[0].1, now)).drop_first(),
{
    let q = complete_main_spec(p, now);
    let done = p.main[0];
    let main1 = p.main.remove(0);
    let subs1 = return_completed(p.subs, done.0, done.1, now);
    let all = ids(p.main) + ids(p.subs);
    assert(main1 =~= Seq::<(Seq<char>, TaskView)>::empty());
    assert forall|j: int| 0 <= j < p.subs.len() implies p.subs[j].0 != done.0 by {
        assert(all[0] == done.0);
        assert(all[1 + j] == p.subs[j].0);
    }
    lemma_absent(p.subs, done.0);
    assert(subs1.len() > 0 && subs1[0] == p.subs[0]);
    assert(first_active(subs1) == 0);
    lemma_absent(main1, subs1[0].0);
    assert(q.main =~= seq![p.subs[0]]);
    assert(ids(q.subs) =~= ids(subs1).drop_first());
}

/// Promoting a sub-task of a project with a main task: it becomes the main
/// task, and the old main task goes back to the list, at its front; the
/// list keeps its length.
pub proof fn lemma_promote_swaps(p: ProjectView, i: int)
    requires
        well_kept(p),
        p.main.len() == 1,
        0 <= i < p.subs.len(),
    ensures
        promote_sub_spec(p, i).main == seq![p.subs[i]],
        promote_sub_spec(p, i).subs.len() == p.subs.len(),
        promote_sub_spec(p, i).subs[0].0 == p.main[0].0,
        promote_sub_spec(p, i).subs[0].1.text == p.main[0].1.text,
        promote_sub_spec(p, i).subs[0].1.routine == p.main[0].1.routine,
{
    let q = promote_sub_spec(p, i);
    let s = p.subs[i];
    let subs1 = p.subs.remove(i);
    let old = p.main[0];
    let main1 = p.main.remove(0);
    let all = ids(p.main) + ids(p.subs);
    assert(main1.len() == 0);
    assert(all[0] == old.0);
    assert forall|j: int| 0 <= j < subs1.len() implies subs1[j].0 != old.0 by {
        let jj = if j < i { j } else { j + 1 };
        assert(subs1[j] == p.subs[jj]);
        assert(all[1 + jj] == p.subs[jj].0);
    }
    lemma_absent(subs1, old.0);
    lemma_absent(main1, s.0);
    assert(q.main =~= seq![s]);
    let moved = with_key(old.1, crate::project::beg_key(subs1));
    assert(q.subs =~= subs1.insert(0, (old.0, moved)));
}

/// Adding a task with a new id to a well-kept project adds exactly that
/// task, wherever it and a displaced main task go.
pub proof fn lemma_add_keeps_tasks(p: ProjectView, id: Seq<char>, text: Seq<char>, pos: NewTaskPos, replace_main: bool, now: u64)
    requires
        well_kept(p),
        !(ids(p.main) + ids(p.subs)).contains(id),
    ensures
        all_ids(add_task_spec(p, id, text, pos, replace_main, now)) == all_ids(p).insert(id),
{
    let q = add_task_spec(p, id, text, pos, replace_main, now);
    let all = ids(p.main) + ids(p.subs);
    assert forall|j: int| 0 <= j < p.main.len() implies p.main[j].0 != id by {
        assert(all[j] == p.main[j].0);
    }
    assert forall|j: int| 0 <= j < p.subs.len() implies p.subs[j].0 != id by {
        assert(all[p.main.len() + j] == p.subs[j].0);
    }
    lemma_absent(p.main, id);
    lemma_absent(p.subs, id);
    lemma_ms_add(ids(p.main), ids(p.subs));
    lemma_ms_add(ids(q.main), ids(q.subs));
    if p.main.len() == 0 {
        assert(ids(q.main) =~= ids(p.main).push(id));
        assert(q.subs == p.subs);
        assert(all_ids(q) =~= all_ids(p).insert(id));
    } else if replace_main {
        let old = p.main[0];
        let main1 = p.main.remove(0);
        assert(main1.len() == 0);
        lemma_absent(main1, id);
        assert forall|j: int| 0 <= j < p.subs.len() implies p.subs[j].0 != old.0 by {
            assert(all[0] == old.0);
            assert(all[1 + j] == p.subs[j].0);
        }
        lemma_absent(p.subs, old.0);
        assert(ids(q.main) =~= seq![id]);
        assert(ids(p.main) =~= seq![old.0]);
        match pos {
            NewTaskPos::End => {
                assert(ids(q.subs) =~= ids(p.subs).push(old.0));
            },
            NewTaskPos::Beginning => {
                assert(ids(q.subs) =~= ids(p.subs).insert(0, old.0));
            },
        }
        assert(all_ids(q) =~= all_ids(p).insert(id));
    } else {
        assert(q.main == p.main);
        match pos {
            NewTaskPos::End => {
                assert(ids(q.subs) =~= ids(p.subs).push(id));
            },
            NewTaskPos::Beginning => {
                assert(ids(q.subs) =~= ids(p.subs).insert(0, id));
            },
        }
        assert(all_ids(q) =~= all_ids(p).insert(id));
    }
}

/// Deleting sub-task `i` removes exactly that task.
pub proof fn lemma_delete_removes_one(p: ProjectView, i: int)
    requires
        0 <= i < p.subs.len(),
    ensures
        all_ids(ProjectView { subs: p.subs.remove(i), ..p }) == all_ids(p).remove(p.subs[i].0),
{
    let q = ProjectView { subs: p.subs.remove(i), ..p };
    assert(ids(q.subs) =~= ids(p.subs).remove(i));
    assert(ids(p.subs)[i] == p.subs[i].0);
    lemma_ms_add(ids(p.main), ids(p.subs));
    lemma_ms_add(ids(q.main), ids(q.subs));
    assert(ids(p.subs).contains(p.subs[i].0));
    assert(all_ids(q) =~= all_ids(p).remove(p.subs[i].0));
}

/// Dragging sub-task `from` to before the sub-task at place `b` (places
/// counted before the drag): the task lands right before the task that was
/// at `b` (at the end when `b` is the length), which is place `b - 1` when
/// it came from above and `b` when it came from below. Every other task
/// keeps its relative order and its data; the moved task keeps its text,
/// routine and creation time; and when its new neighbours' keys are at
/// least two apart, its key lies strictly between them.
pub proof fn lemma_reorder_lands_before(p: ProjectView, from: usize, b: usize)
    requires
        0 <= from < p.subs.len(),
        b <= p.subs.len(),
        b != from,
    ensures
        ({
            let q = reorder_sub_spec(p, from as int, Some(b));
            let n = p.subs.len();
            let k: int = if from < b { b - 1 } else { b as int };
            &&& q.main == p.main
            &&& q.subs.len() == n
            &&& q.subs[k].0 == p.subs[from as int].0
            &&& q.subs[k].1.text == p.subs[from as int].1.text
            &&& q.subs[k].1.routine == p.subs[from as int].1.routine
            &&& q.subs[k].1.created_at == p.subs[from as int].1.created_at
            &&& q.subs.remove(k) == p.subs.remove(from as int)
            &&& b < n ==> q.subs[k + 1] == p.subs[b as int]
            &&& b == n ==> k == n - 1
            &&& (0 < k && k + 1 < n && q.subs[k - 1].1.order_key + 2 <= q.subs[k + 1].1.order_key) ==>
                q.subs[k - 1].1.order_key < q.subs[k].1.order_key < q.subs[k + 1].1.order_key
        }),
{
    let q = reorder_sub_spec(p, from as int, Some(b));
    let n = p.subs.len();
    let moved = p.subs[from as int];
    let subs1 = p.subs.remove(from as int);
    let k: int = if from < b { b - 1 } else { b as int };
    assert(reorder_target(subs1.len() as int, from as int, Some(b)) == k);
    let key = crate::project::between_key(crate::project::key_at(subs1, k - 1), crate::project::key_at(subs1, k));
    assert(q.subs == subs1.insert(k, (moved.0, with_key(moved.1, key))));
    assert(q.subs.remove(k) =~= subs1);
    if b < n {
        assert(q.subs[k + 1] == subs1[k]);
        if from < b {
            assert(subs1[k] == p.subs[k + 1]);
        } else {
            assert(subs1[k] == p.subs[k]);
        }
    }
    if 0 < k && k + 1 < n {
        assert(q.subs[k - 1] == subs1[k - 1]);
        assert(q.subs[k + 1] == subs1[k]);
        let lo = subs1[k - 1].1.order_key;
        let hi = subs1[k].1.order_key;
        if lo + 2 <= hi {
            let sum = lo as int + hi as int;
            assert(key == crate::project::half_toward_zero(sum) as i64);
            assert(lo < crate::project::half_toward_zero(sum) < hi);
        }
    }
}

/// Dragging a sub-task to the end puts it last; the others keep their
/// order and data.
pub proof fn lemma_reorder_to_end(p: ProjectView, from: int)
    requires
        0 <= from < p.subs.len(),
    ensures
        ({
            let q = reorder_sub_spec(p, from, None);
            let n = p.subs.len();
            &&& q.main == p.main
            &&& q.subs.len() == n
            &&& q.subs[n - 1].0 == p.subs[from as int].0
            &&& q.subs[n - 1].1.text == p.subs[from as int].1.text
            &&& q.subs.remove(n - 1) == p.subs.remove(from as int)
        }),
{
    let q = reorder_sub_spec(p, from, None);
    let subs1 = p.subs.remove(from as int);
    assert(q.subs.remove(p.subs.len() - 1) =~= subs1);
}

} // verus!
