//! Tasks of a project: an ordered map from task id to task, kept in an
//! `indexmap::IndexMap` as the task files are.
use vstd::prelude::*;
use indexmap::IndexMap;
use crate::routine::{Routine, RoutineView};

verus! {

/// A task.
#[derive(Clone)]
pub struct TaskData {
    pub text: String,
    pub routine: Option<Routine>,
    pub created_at: u64,
    /// Sort key within the sub-task list.
    pub order_key: i64,
}

pub ghost struct TaskView {
    pub text: Seq<char>,
    pub routine: Option<RoutineView>,
    pub created_at: u64,
    pub order_key: i64,
}

pub open spec fn opt_routine_view(r: Option<Routine>) -> Option<RoutineView> {
    match r {
        Some(x) => Some(x@),
        None => None,
    }
}

impl View for TaskData {
    type V = TaskView;

    open spec fn view(&self) -> TaskView {
        TaskView {
            text: self.text@,
            routine: opt_routine_view(self.routine),
            created_at: self.created_at,
            order_key: self.order_key,
        }
    }
}

/// A task id with its task.
pub type TaskEntry = (String, TaskData);

/// Ordered task entries: id and task.
pub type Entries = Seq<(Seq<char>, TaskView)>;

#[verifier::external_type_specification]
#[verifier::external_body]
#[verifier::reject_recursive_types(K)]
#[verifier::reject_recursive_types(V)]
#[verifier::reject_recursive_types(S)]
pub struct ExIndexMap<K, V, S>(IndexMap<K, V, S>);

/// The entries of a task map, in order.
pub uninterp spec fn task_entries(m: IndexMap<String, TaskData>) -> Seq<(Seq<char>, TaskView)>;

/// Position of the first entry with key `k`, or `s.len()` when absent.
pub open spec fn key_pos(s: Entries, k: Seq<char>) -> int
    decreases s.len(),
{
    if s.len() == 0 {
        0
    } else if s[0].0 == k {
        0
    } else {
        1 + key_pos(s.drop_first(), k)
    }
}

pub open spec fn has_key(s: Entries, k: Seq<char>) -> bool {
    key_pos(s, k) < s.len()
}

/// `IndexMap::insert`: an existing key keeps its place and takes the new
/// value; a new key goes last.
pub open spec fn map_insert(s: Entries, k: Seq<char>, v: TaskView) -> Entries {
    let i = key_pos(s, k);
    if i < s.len() {
        s.update(i, (s[i].0, v))
    } else {
        s.push((k, v))
    }
}

/// `IndexMap::shift_insert`: the entry ends up at `idx`, an existing key
/// being moved there.
pub open spec fn map_shift_insert(s: Entries, idx: int, k: Seq<char>, v: TaskView) -> Entries {
    let i = key_pos(s, k);
    if i < s.len() {
        s.remove(i).insert(idx, (s[i].0, v))
    } else {
        s.insert(idx, (k, v))
    }
}

/// `IndexMap::shift_remove` by key.
pub open spec fn map_remove_key(s: Entries, k: Seq<char>) -> Entries {
    let i = key_pos(s, k);
    if i < s.len() { s.remove(i) } else { s }
}

pub proof fn lemma_key_pos_bounds(s: Entries, k: Seq<char>)
    ensures
        0 <= key_pos(s, k) <= s.len(),
        key_pos(s, k) < s.len() ==> s[key_pos(s, k)].0 == k,
        forall|j: int| 0 <= j < key_pos(s, k) ==> s[j].0 != k,
    decreases s.len(),
{
    if s.len() > 0 && s[0].0 != k {
        lemma_key_pos_bounds(s.drop_first(), k);
        assert forall|j: int| 0 <= j < key_pos(s, k) implies s[j].0 != k by {
            if j > 0 {
                assert(s[j] == s.drop_first()[j - 1]);
            }
        }
    }
}

pub proof fn lemma_key_pos_is(s: Entries, k: Seq<char>, i: int)
    requires
        0 <= i <= s.len(),
        forall|j: int| 0 <= j < i ==> s[j].0 != k,
        i < s.len() ==> s[i].0 == k,
    ensures
        key_pos(s, k) == i,
    decreases s.len(),
{
    if s.len() > 0 && s[0].0 != k {
        lemma_key_pos_is(s.drop_first(), k, i - 1);
    }
}

#[verifier::external_body]
pub(crate) fn tm_new() -> (m: IndexMap<String, TaskData>)
    ensures
        task_entries(m) == Seq::<(Seq<char>, TaskView)>::empty(),
{
    IndexMap::new()
}

/// `IndexMap::len`.
#[verifier::external_body]
pub(crate) fn tm_len(m: &IndexMap<String, TaskData>) -> (n: usize)
    ensures
        n == task_entries(*m).len(),
{
    m.len()
}

/// `IndexMap::get_index`, the entry copied out.
#[verifier::external_body]
pub(crate) fn tm_get(m: &IndexMap<String, TaskData>, i: usize) -> (r: Option<TaskEntry>)
    ensures
        match r {
            Some(p) => i < task_entries(*m).len() && p.0@ == task_entries(*m)[i as int].0
                && p.1@ == task_entries(*m)[i as int].1,
            None => i >= task_entries(*m).len(),
        },
{
    match m.get_index(i) {
        Some((k, v)) => Some((k.clone(), v.clone())),
        None => None,
    }
}

/// `IndexMap::get_index_of`.
#[verifier::external_body]
pub(crate) fn tm_index_of(m: &IndexMap<String, TaskData>, k: &str) -> (r: Option<usize>)
    ensures
        match r {
            Some(i) => has_key(task_entries(*m), k@) && i as int == key_pos(task_entries(*m), k@),
            None => !has_key(task_entries(*m), k@),
        },
{
    m.get_index_of(k)
}

/// `IndexMap::shift_remove_index`. Keys of an `IndexMap` are unique, so
/// the removed key is no longer present.
#[verifier::external_body]
pub(crate) fn tm_remove_index(m: &mut IndexMap<String, TaskData>, i: usize) -> (r: Option<TaskEntry>)
    ensures
        match r {
            Some(p) => i < task_entries(*old(m)).len()
                && p.0@ == task_entries(*old(m))[i as int].0 && p.1@ == task_entries(*old(m))[i as int].1
                && task_entries(*final(m)) == task_entries(*old(m)).remove(i as int)
                && !has_key(task_entries(*final(m)), p.0@),
            None => i >= task_entries(*old(m)).len() && task_entries(*final(m)) == task_entries(*old(m)),
        },
{
    m.shift_remove_index(i)
}

/// `IndexMap::insert`.
#[verifier::external_body]
pub(crate) fn tm_insert(m: &mut IndexMap<String, TaskData>, k: String, v: TaskData)
    ensures
        task_entries(*final(m)) == map_insert(task_entries(*old(m)), k@, v@),
{
    m.insert(k, v);
}

/// `IndexMap::shift_insert`.
#[verifier::external_body]
pub(crate) fn tm_shift_insert(m: &mut IndexMap<String, TaskData>, idx: usize, k: String, v: TaskData)
    requires
        has_key(task_entries(*old(m)), k@) ==> idx < task_entries(*old(m)).len(),
        !has_key(task_entries(*old(m)), k@) ==> idx <= task_entries(*old(m)).len(),
    ensures
        task_entries(*final(m)) == map_shift_insert(task_entries(*old(m)), idx as int, k@, v@),
{
    m.shift_insert(idx, k, v);
}

/// `IndexMap::shift_remove` by key.
#[verifier::external_body]
pub(crate) fn tm_remove_key(m: &mut IndexMap<String, TaskData>, k: &str)
    ensures
        task_entries(*final(m)) == map_remove_key(task_entries(*old(m)), k@),
{
    m.shift_remove(k);
}

/// Number of tasks in a task map, for callers that must check a position
/// or a size before a call.
pub fn task_count(m: &IndexMap<String, TaskData>) -> (n: usize)
    ensures
        n == task_entries(*m).len(),
{
    tm_len(m)
}

/// Replaces the task at position `i`, keeping its id and its place.
pub fn tm_replace_at(m: &mut IndexMap<String, TaskData>, i: usize, v: TaskData)
    requires
        i < task_entries(*old(m)).len(),
    ensures
        task_entries(*final(m)) == task_entries(*old(m)).update(i as int, (task_entries(*old(m))[i as int].0, v@)),
{
    let ghost s0 = task_entries(*m);
    let ghost vv = v@;
    let (id, _) = tm_remove_index(m, i).unwrap();
    proof { lemma_key_pos_bounds(task_entries(*m), id@); }
    tm_shift_insert(m, i, id, v);
    assert(task_entries(*m) =~= s0.update(i as int, (s0[i as int].0, vv)));
}

} // verus!
