//! A project: a main task and a list of sub-tasks, and the moves between
//! them (add, complete, promote, reorder, edit, delete).
use vstd::prelude::*;
use indexmap::IndexMap;
use crate::routine::{Routine, RoutineView};
use crate::schedule::{prune_expired_direct, pruned_direct};
use crate::settings::{NewTaskPos, Settings};
use crate::task_map::{
    Entries, TaskData, TaskView, task_entries, opt_routine_view, tm_replace_at, map_insert, map_shift_insert, map_remove_key,
    has_key, key_pos, lemma_key_pos_bounds, tm_new, tm_len, tm_get, tm_index_of, tm_remove_index,
    tm_insert, tm_shift_insert, tm_remove_key,
};
use crate::time::current_time;
use crate::color::{color32_to_hex, hex_text};
use crate::text::{str_eq, trim, trim_text};

verus! {

/// Gap between neighbouring order keys at the ends of the list.
pub const ORDER_STEP: i64 = 1000;

/// A task counts as active unless it has a routine that is not active.
pub open spec fn is_active_view(t: TaskView) -> bool {
    match t.routine {
        Some(r) => r.active,
        None => true,
    }
}

/// Whether a task is active (ordinary tasks always are).
pub fn is_active_task(t: &TaskData) -> (r: bool)
    ensures
        r == is_active_view(t@),
{
    match &t.routine {
        Some(r) => r.active,
        None => true,
    }
}

pub open spec fn sat_add(a: int, b: int) -> i64 {
    if a + b > i64::MAX { i64::MAX } else if a + b < i64::MIN { i64::MIN } else { (a + b) as i64 }
}

/// Largest order key of nonempty entries.
pub open spec fn max_key(s: Entries) -> i64
    decreases s.len(),
{
    if s.len() <= 1 {
        s[0].1.order_key
    } else {
        let m = max_key(s.drop_last());
        if s.last().1.order_key > m { s.last().1.order_key } else { m }
    }
}

/// Smallest order key of nonempty entries.
pub open spec fn min_key(s: Entries) -> i64
    decreases s.len(),
{
    if s.len() <= 1 {
        s[0].1.order_key
    } else {
        let m = min_key(s.drop_last());
        if s.last().1.order_key < m { s.last().1.order_key } else { m }
    }
}

/// Order key for a task appended at the end.
pub open spec fn end_key(s: Entries) -> i64 {
    if s.len() == 0 { 0 } else { sat_add(max_key(s) as int, ORDER_STEP as int) }
}

/// Order key for a task put at the beginning.
pub open spec fn beg_key(s: Entries) -> i64 {
    if s.len() == 0 { 0 } else { sat_add(min_key(s) as int, -(ORDER_STEP as int)) }
}

pub open spec fn with_key(t: TaskView, k: i64) -> TaskView {
    TaskView { order_key: k, ..t }
}

/// What the tick button did.
pub enum TickDone {
    /// The main task with this id was completed.
    Completed(String),
    /// The sub-task with this id became the main task.
    Promoted(String),
    /// There was no task to complete or promote.
    Nothing,
}

/// What the cross on a sub-task did.
pub enum CrossDone {
    /// The active routine of the task with this id was finished early.
    Finished(String),
    /// The task with this id was deleted.
    Deleted(String),
    /// There was no such sub-task.
    Nothing,
}

/// A project loaded in memory.
pub struct LoadedProject {
    pub id: String,
    pub name: String,
    /// Colour as red, green, blue.
    pub color: [u8; 3],
    pub main: IndexMap<String, TaskData>,
    pub subs: IndexMap<String, TaskData>,
    pub color_hex: String,
    pub created_at: u64,
    /// True for real data read from disk; false for a placeholder built
    /// from the project index whose tasks are not read yet.
    pub loaded: bool,
    /// Time of the last rename applied from the operation log.
    pub name_edited_at: u64,
    /// Time of the last colour change applied from the operation log.
    pub color_edited_at: u64,
}

pub ghost struct ProjectView {
    pub id: Seq<char>,
    pub name: Seq<char>,
    pub color: Seq<u8>,
    pub main: Entries,
    pub subs: Entries,
    pub color_hex: Seq<char>,
    pub created_at: u64,
    pub loaded: bool,
    pub name_edited_at: u64,
    pub color_edited_at: u64,
}

impl View for LoadedProject {
    type V = ProjectView;

    open spec fn view(&self) -> ProjectView {
        ProjectView {
            id: self.id@,
            name: self.name@,
            color: self.color@,
            main: task_entries(self.main),
            subs: task_entries(self.subs),
            color_hex: self.color_hex@,
            created_at: self.created_at,
            loaded: self.loaded,
            name_edited_at: self.name_edited_at,
            color_edited_at: self.color_edited_at,
        }
    }
}

/// A new task with the given text and creation time.
pub open spec fn new_task(text: Seq<char>, now: u64) -> TaskView {
    TaskView { text, routine: None, created_at: now, order_key: 0 }
}

/// The project after adding task `id`: into the empty main place; else,
/// with `replace_main`, into the main place, the old main going to the
/// sub-tasks; else into the sub-tasks. `pos` says at which end of the
/// sub-tasks the moved task goes.
pub open spec fn add_task_spec(p: ProjectView, id: Seq<char>, text: Seq<char>, pos: NewTaskPos, replace_main: bool, now: u64) -> ProjectView {
    let task = new_task(text, now);
    if p.main.len() == 0 {
        ProjectView { main: map_insert(p.main, id, task), ..p }
    } else if replace_main {
        let old = p.main[0];
        let main = map_insert(p.main.remove(0), id, task);
        let subs = match pos {
            NewTaskPos::End => map_insert(p.subs, old.0, with_key(old.1, end_key(p.subs))),
            NewTaskPos::Beginning => map_shift_insert(p.subs, 0, old.0, with_key(old.1, beg_key(p.subs))),
        };
        ProjectView { main, subs, ..p }
    } else {
        let subs = match pos {
            NewTaskPos::End => map_insert(p.subs, id, with_key(task, end_key(p.subs))),
            NewTaskPos::Beginning => map_shift_insert(p.subs, 0, id, with_key(task, beg_key(p.subs))),
        };
        ProjectView { subs, ..p }
    }
}

/// Position of the first active task, or `s.len()` when none is.
pub open spec fn first_active(s: Entries) -> int
    decreases s.len(),
{
    if s.len() == 0 {
        0
    } else if is_active_view(s[0].1) {
        0
    } else {
        1 + first_active(s.drop_first())
    }
}

/// The routine of a completed task after its expired direct entries are
/// dropped.
pub open spec fn pruned_routine(r: RoutineView, now: u64) -> RoutineView {
    RoutineView { direct: pruned_direct(r.direct, now as i64 as int), ..r }
}

/// Sub-tasks after the completed main task `t` (id `id`) is handled: an
/// ordinary task disappears, so does a used-up direct-only routine; any
/// other routine goes back to the end of the list, inactive.
pub open spec fn return_completed(subs: Entries, id: Seq<char>, t: TaskView, now: u64) -> Entries {
    match t.routine {
        Some(r) => {
            let r2 = pruned_routine(r, now);
            if r2.is_exhausted() {
                subs
            } else {
                map_insert(subs, id, TaskView {
                    routine: Some(RoutineView { active: false, ..r2 }),
                    order_key: end_key(subs),
                    ..t
                })
            }
        },
        None => subs,
    }
}

/// Completing the main task; the first active sub-task takes its place.
pub open spec fn complete_main_spec(p: ProjectView, now: u64) -> ProjectView {
    if p.main.len() == 0 {
        p
    } else {
        let done = p.main[0];
        let main1 = p.main.remove(0);
        let subs1 = return_completed(p.subs, done.0, done.1, now);
        let pos = first_active(subs1);
        if pos < subs1.len() {
            ProjectView { main: map_insert(main1, subs1[pos].0, subs1[pos].1), subs: subs1.remove(pos), ..p }
        } else {
            ProjectView { main: main1, subs: subs1, ..p }
        }
    }
}

/// Promoting sub-task `i` to main; the old main goes to the front of the
/// sub-tasks.
pub open spec fn promote_sub_spec(p: ProjectView, i: int) -> ProjectView {
    let s = p.subs[i];
    let subs1 = p.subs.remove(i);
    if p.main.len() > 0 {
        let old = p.main[0];
        ProjectView {
            main: map_insert(p.main.remove(0), s.0, s.1),
            subs: map_shift_insert(subs1, 0, old.0, with_key(old.1, beg_key(subs1))),
            ..p
        }
    } else {
        ProjectView { main: map_insert(p.main, s.0, s.1), subs: subs1, ..p }
    }
}

/// Order key between the new neighbours of a moved task.
pub open spec fn between_key(prev: Option<i64>, next: Option<i64>) -> i64 {
    match (prev, next) {
        (Some(a), Some(b)) => half_toward_zero(a as int + b as int) as i64,
        (Some(a), None) => sat_add(a as int, ORDER_STEP as int),
        (None, Some(b)) => sat_add(b as int, -(ORDER_STEP as int)),
        (None, None) => 0,
    }
}

/// Truncating division by two, as integer `/` does in code.
pub open spec fn half_toward_zero(x: int) -> int {
    if x >= 0 { x / 2 } else { -((-x) / 2) }
}

pub open spec fn key_at(s: Entries, i: int) -> Option<i64> {
    if 0 <= i < s.len() { Some(s[i].1.order_key) } else { None }
}

/// Where a sub-task moved from `from` to before `to_before` lands, counted
/// after it has been taken out.
pub open spec fn reorder_target(len_after: int, from: int, to_before: Option<usize>) -> int {
    match to_before {
        None => len_after,
        Some(b) => if b > from { b - 1 } else { b as int },
    }
}

/// Moving sub-task `from` before sub-task `to_before` (to the end for
/// `None`); its order key is set between its new neighbours.
pub open spec fn reorder_sub_spec(p: ProjectView, from: int, to_before: Option<usize>) -> ProjectView {
    if to_before == Some(from as usize) || from >= p.subs.len() {
        p
    } else {
        let moved = p.subs[from];
        let subs1 = p.subs.remove(from);
        let target = reorder_target(subs1.len() as int, from, to_before);
        let k = between_key(key_at(subs1, target - 1), key_at(subs1, target));
        ProjectView { subs: subs1.insert(target, (moved.0, with_key(moved.1, k))), ..p }
    }
}

/// Finishing the routine of sub-task `i` early: a used-up direct-only
/// routine removes the task, any other routine just turns inactive in
/// place.
pub open spec fn complete_sub_routine_spec(p: ProjectView, i: int, now: u64) -> ProjectView {
    let e = p.subs[i];
    let r = pruned_routine(e.1.routine.unwrap(), now);
    if r.is_exhausted() {
        ProjectView { subs: p.subs.remove(i), ..p }
    } else {
        ProjectView {
            subs: p.subs.update(i, (e.0, TaskView { routine: Some(RoutineView { active: false, ..r }), ..e.1 })),
            ..p
        }
    }
}

/// The task has a routine and it is active.
pub open spec fn routine_active(t: TaskView) -> bool {
    match t.routine {
        Some(r) => r.active,
        None => false,
    }
}

pub open spec fn any_active_routine(s: Entries) -> bool {
    exists|j: int| 0 <= j < s.len() && routine_active((#[trigger] s[j]).1)
}

/// Sub-task `i` with its text replaced.
pub open spec fn edit_sub_spec(p: ProjectView, i: int, text: Seq<char>) -> ProjectView {
    if 0 <= i < p.subs.len() {
        ProjectView { subs: p.subs.update(i, (p.subs[i].0, TaskView { text, ..p.subs[i].1 })), ..p }
    } else {
        p
    }
}

/// Keys appear at most once.
pub open spec fn keys_unique(s: Entries) -> bool {
    forall|a: int, b: int| 0 <= a < b < s.len() ==> s[a].0 != s[b].0
}

/// `a + b`, clamped to the range of `i64`.
pub fn add_saturating(a: i64, b: i64) -> (r: i64)
    ensures
        r == sat_add(a as int, b as int),
{
    let s = a as i128 + b as i128;
    if s > i64::MAX as i128 {
        i64::MAX
    } else if s < i64::MIN as i128 {
        i64::MIN
    } else {
        s as i64
    }
}

fn max_key_of(m: &IndexMap<String, TaskData>) -> (r: Option<i64>)
    ensures
        task_entries(*m).len() == 0 ==> r is None,
        task_entries(*m).len() > 0 ==> r == Some(max_key(task_entries(*m))),
{
    let n = tm_len(m);
    let ghost s = task_entries(*m);
    let mut best: Option<i64> = None;
    let mut i: usize = 0;
    while i < n
        invariant
            n == s.len(),
            s == task_entries(*m),
            i <= n,
            i == 0 ==> best is None,
            i > 0 ==> best == Some(max_key(s.take(i as int))),
        decreases n - i,
    {
        let (_, t) = tm_get(m, i).unwrap();
        assert(s.take(i + 1).drop_last() =~= s.take(i as int));
        assert(s.take(i + 1).last() == s[i as int]);
        best = match best {
            Some(b) => Some(if t.order_key > b { t.order_key } else { b }),
            None => Some(t.order_key),
        };
        i = i + 1;
    }
    assert(s.take(n as int) =~= s);
    best
}

fn min_key_of(m: &IndexMap<String, TaskData>) -> (r: Option<i64>)
    ensures
        task_entries(*m).len() == 0 ==> r is None,
        task_entries(*m).len() > 0 ==> r == Some(min_key(task_entries(*m))),
{
    let n = tm_len(m);
    let ghost s = task_entries(*m);
    let mut best: Option<i64> = None;
    let mut i: usize = 0;
    while i < n
        invariant
            n == s.len(),
            s == task_entries(*m),
            i <= n,
            i == 0 ==> best is None,
            i > 0 ==> best == Some(min_key(s.take(i as int))),
        decreases n - i,
    {
        let (_, t) = tm_get(m, i).unwrap();
        assert(s.take(i + 1).drop_last() =~= s.take(i as int));
        assert(s.take(i + 1).last() == s[i as int]);
        best = match best {
            Some(b) => Some(if t.order_key < b { t.order_key } else { b }),
            None => Some(t.order_key),
        };
        i = i + 1;
    }
    assert(s.take(n as int) =~= s);
    best
}

proof fn lemma_first_active_skip(s: Entries, i: int)
    requires
        0 <= i < s.len(),
    ensures
        first_active(s.skip(i)) == if is_active_view(s[i].1) { 0 } else { 1 + first_active(s.skip(i + 1)) },
{
    assert(s.skip(i)[0] == s[i]);
    assert(s.skip(i).drop_first() =~= s.skip(i + 1));
}

/// Position of the first active task (the length when none is).
fn first_active_index(m: &IndexMap<String, TaskData>) -> (r: usize)
    ensures
        r as int == first_active(task_entries(*m)),
        r <= task_entries(*m).len(),
{
    let n = tm_len(m);
    let ghost s = task_entries(*m);
    let mut pos: usize = 0;
    assert(s.skip(0) =~= s);
    while pos < n
        invariant
            n == s.len(),
            s == task_entries(*m),
            pos <= n,
            first_active(s) == pos + first_active(s.skip(pos as int)),
        decreases n - pos,
    {
        let (_, t) = tm_get(m, pos).unwrap();
        proof { lemma_first_active_skip(s, pos as int); }
        if is_active_task(&t) {
            return pos;
        }
        pos = pos + 1;
    }
    assert(s.skip(pos as int).len() == 0);
    pos
}

/// Order key for a task appended to the end of `subs`.
pub fn next_end_key(subs: &IndexMap<String, TaskData>) -> (r: i64)
    ensures
        r == end_key(task_entries(*subs)),
{
    match max_key_of(subs) {
        Some(m) => add_saturating(m, ORDER_STEP),
        None => 0,
    }
}

/// Order key for a task put at the beginning of `subs`.
pub fn next_beg_key(subs: &IndexMap<String, TaskData>) -> (r: i64)
    ensures
        r == beg_key(task_entries(*subs)),
{
    match min_key_of(subs) {
        Some(m) => add_saturating(m, -ORDER_STEP),
        None => 0,
    }
}

impl LoadedProject {
    /// An empty project; its colour text is the colour in `#RRGGBB`.
    pub fn new(id: String, name: String, color: [u8; 3], created_at: u64) -> (p: Self)
        ensures
            p@.id == id@,
            p@.name == name@,
            p@.color == color@,
            p@.color_hex == hex_text(color@),
            p@.main.len() == 0,
            p@.subs.len() == 0,
            p@.created_at == created_at,
            p@.loaded,
            p@.name_edited_at == 0,
            p@.color_edited_at == 0,
    {
        let color_hex = color32_to_hex(color);
        LoadedProject {
            id,
            name,
            color,
            main: tm_new(),
            subs: tm_new(),
            color_hex,
            created_at,
            loaded: true,
            name_edited_at: 0,
            color_edited_at: 0,
        }
    }

    /// Whether any task of the project has an active routine.
    pub fn has_active_routine(&self) -> (r: bool)
        ensures
            r == (any_active_routine(self@.main) || any_active_routine(self@.subs)),
    {
        self.map_has_active(&self.main) || self.map_has_active(&self.subs)
    }

    fn map_has_active(&self, m: &IndexMap<String, TaskData>) -> (r: bool)
        ensures
            r == any_active_routine(task_entries(*m)),
    {
        let n = tm_len(m);
        let ghost s = task_entries(*m);
        let mut i: usize = 0;
        while i < n
            invariant
                n == s.len(),
                s == task_entries(*m),
                i <= n,
                forall|j: int| 0 <= j < i ==> !routine_active((#[trigger] s[j]).1),
            decreases n - i,
        {
            let (_, t) = tm_get(m, i).unwrap();
            let act = match &t.routine {
                Some(r) => r.active,
                None => false,
            };
            if act {
                assert(routine_active(s[i as int].1));
                return true;
            }
            i = i + 1;
        }
        false
    }

    /// Text of the main task.
    pub fn main_text(&self) -> (r: Option<String>)
        ensures
            match r {
                Some(t) => self@.main.len() > 0 && t@ == self@.main[0].1.text,
                None => self@.main.len() == 0,
            },
    {
        match tm_get(&self.main, 0) {
            Some((_, t)) => Some(t.text),
            None => None,
        }
    }

    /// Adds task `id` with text `text`, created now (see `add_task_at`).
    pub fn add_task(&mut self, id: String, text: String, s: &Settings)
        ensures
            exists|now: u64| final(self)@ == add_task_spec(old(self)@, id@, text@, s.new_task_pos, s.replace_main, now),
    {
        let now = current_time();
        self.add_task_at(id, text, s, now);
    }

    /// Adds task `id` with text `text`, created at `now`: into the empty
    /// main place; with `replace_main` into the main place, moving the old
    /// main task to the sub-tasks; otherwise into the sub-tasks. Tasks go to
    /// the end or the beginning of the sub-tasks as the settings say.
    pub fn add_task_at(&mut self, id: String, text: String, s: &Settings, now: u64)
        ensures
            final(self)@ == add_task_spec(old(self)@, id@, text@, s.new_task_pos, s.replace_main, now),
    {
        let mut task = TaskData { text, routine: None, created_at: now, order_key: 0 };
        if tm_len(&self.main) == 0 {
            tm_insert(&mut self.main, id, task);
            return;
        }
        if s.replace_main {
            let (old_id, mut old_task) = tm_remove_index(&mut self.main, 0).unwrap();
            tm_insert(&mut self.main, id, task);
            match s.new_task_pos {
                NewTaskPos::End => {
                    old_task.order_key = next_end_key(&self.subs);
                    tm_insert(&mut self.subs, old_id, old_task);
                },
                NewTaskPos::Beginning => {
                    old_task.order_key = next_beg_key(&self.subs);
                    proof { lemma_key_pos_bounds(task_entries(self.subs), old_id@); }
                    tm_shift_insert(&mut self.subs, 0, old_id, old_task);
                },
            }
        } else {
            match s.new_task_pos {
                NewTaskPos::End => {
                    task.order_key = next_end_key(&self.subs);
                    tm_insert(&mut self.subs, id, task);
                },
                NewTaskPos::Beginning => {
                    task.order_key = next_beg_key(&self.subs);
                    proof { lemma_key_pos_bounds(task_entries(self.subs), id@); }
                    tm_shift_insert(&mut self.subs, 0, id, task);
                },
            }
        }
    }

    /// Completes the main task at local time `now`. An ordinary task is
    /// gone; a routine returns, inactive, to the end of the sub-tasks unless
    /// it is a direct-only routine whose dates are used up. The first active
    /// sub-task then becomes the main task.
    pub fn complete_main(&mut self, now: u64)
        ensures
            final(self)@ == complete_main_spec(old(self)@, now),
    {
        let (id, mut task) = match tm_remove_index(&mut self.main, 0) {
            Some(e) => e,
            None => return,
        };
        let ghost subs0 = task_entries(self.subs);
        match task.routine {
            Some(mut routine) => {
                prune_expired_direct(&mut routine, now);
                let exhausted = routine.week.is_none() && routine.month.is_none()
                    && match &routine.direct { Some(d) => d.len() == 0, None => true };
                if !exhausted {
                    routine.active = false;
                    task.routine = Some(routine);
                    task.order_key = next_end_key(&self.subs);
                    tm_insert(&mut self.subs, id, task);
                }
            },
            None => {},
        }
        let n = tm_len(&self.subs);
        let pos = first_active_index(&self.subs);
        if pos < n {
            let (next_id, next_task) = tm_remove_index(&mut self.subs, pos).unwrap();
            tm_insert(&mut self.main, next_id, next_task);
        }
    }

    /// Makes sub-task `i` the main task; the old main task goes to the
    /// front of the sub-tasks.
    pub fn promote_sub(&mut self, i: usize)
        requires
            i < old(self)@.subs.len(),
        ensures
            final(self)@ == promote_sub_spec(old(self)@, i as int),
    {
        let (sub_id, sub_task) = tm_remove_index(&mut self.subs, i).unwrap();
        if tm_len(&self.main) != 0 {
            let (old_id, mut old_task) = tm_remove_index(&mut self.main, 0).unwrap();
            old_task.order_key = next_beg_key(&self.subs);
            proof { lemma_key_pos_bounds(task_entries(self.subs), old_id@); }
            tm_shift_insert(&mut self.subs, 0, old_id, old_task);
        }
        tm_insert(&mut self.main, sub_id, sub_task);
    }

    /// Deletes sub-task `i` (nothing happens when there is none).
    pub fn delete_sub(&mut self, i: usize)
        ensures
            i < old(self)@.subs.len() ==> final(self)@ == (ProjectView { subs: old(self)@.subs.remove(i as int), ..old(self)@ }),
            i >= old(self)@.subs.len() ==> final(self)@ == old(self)@,
    {
        let _ = tm_remove_index(&mut self.subs, i);
    }

    /// Replaces the text of sub-task `i` (nothing happens when there is
    /// none).
    pub fn edit_sub(&mut self, i: usize, text: String)
        ensures
            final(self)@ == edit_sub_spec(old(self)@, i as int, text@),
    {
        let ghost s0 = task_entries(self.subs);
        match tm_remove_index(&mut self.subs, i) {
            Some((id, mut task)) => {
                task.text = text;
                proof { lemma_key_pos_bounds(task_entries(self.subs), id@); }
                tm_shift_insert(&mut self.subs, i, id, task);
                assert(task_entries(self.subs) =~= s0.update(i as int, (s0[i as int].0, task@)));
            },
            None => {},
        }
    }

    /// Moves sub-task `from` before sub-task `to_before` (indices before the
    /// move; `None` moves it to the end) and gives it an order key between
    /// its new neighbours.
    pub fn reorder_sub(&mut self, from: usize, to_before: Option<usize>)
        requires
            (to_before matches Some(b) ==> b <= old(self)@.subs.len()),
        ensures
            final(self)@ == reorder_sub_spec(old(self)@, from as int, to_before),
    {
        if to_before == Some(from) {
            return;
        }
        let ghost s0 = task_entries(self.subs);
        let (id, mut task) = match tm_remove_index(&mut self.subs, from) {
            Some(e) => e,
            None => return,
        };
        let len = tm_len(&self.subs);
        let target: usize = match to_before {
            None => len,
            Some(before) => if before > from { before - 1 } else { before },
        };
        let prev_key: Option<i64> = if target >= 1 {
            match tm_get(&self.subs, target - 1) {
                Some((_, t)) => Some(t.order_key),
                None => None,
            }
        } else {
            None
        };
        let next_key: Option<i64> = match tm_get(&self.subs, target) {
            Some((_, t)) => Some(t.order_key),
            None => None,
        };
        task.order_key = match (prev_key, next_key) {
            (Some(p), Some(n)) => {
                let sum = p as i128 + n as i128;
                (sum / 2) as i64
            },
            (Some(p), None) => add_saturating(p, ORDER_STEP),
            (None, Some(n)) => add_saturating(n, -ORDER_STEP),
            (None, None) => 0,
        };
        tm_shift_insert(&mut self.subs, target, id, task);
    }

    /// Finishes the routine of sub-task `i` early, at local time `now`. A
    /// direct-only routine whose dates are used up removes the task;
    /// otherwise the routine just turns inactive where it is. Returns
    /// whether anything changed: only sub-task `i` with an active routine is
    /// finished; an ordinary task or an already inactive routine is left as
    /// it is.
    pub fn complete_sub_routine(&mut self, i: usize, now: u64) -> (changed: bool)
        ensures
            changed == (i < old(self)@.subs.len() && routine_active(old(self)@.subs[i as int].1)),
            changed ==> final(self)@ == complete_sub_routine_spec(old(self)@, i as int, now),
            !changed ==> final(self)@ == old(self)@,
    {
        match tm_get(&self.subs, i) {
            Some((_, t)) => {
                let active = match &t.routine {
                    Some(r) => r.active,
                    None => false,
                };
                if !active {
                    return false;
                }
            },
            None => return false,
        }
        let ghost s0 = task_entries(self.subs);
        let (id, mut task) = tm_remove_index(&mut self.subs, i).unwrap();
        let mut routine = task.routine.unwrap();
        prune_expired_direct(&mut routine, now);
        let exhausted = routine.week.is_none() && routine.month.is_none()
            && match &routine.direct { Some(d) => d.len() == 0, None => true };
        if !exhausted {
            routine.active = false;
            task.routine = Some(routine);
            proof { lemma_key_pos_bounds(task_entries(self.subs), id@); }
            tm_shift_insert(&mut self.subs, i, id, task);
            assert(task_entries(self.subs) =~= s0.update(i as int, (s0[i as int].0, task@)));
        }
        true
    }
}

/// A task with its routine replaced.
pub open spec fn with_routine(t: TaskView, r: Option<RoutineView>) -> TaskView {
    TaskView { routine: r, ..t }
}

/// A task with its text replaced.
pub open spec fn with_text(t: TaskView, text: Seq<char>) -> TaskView {
    TaskView { text, ..t }
}

/// The entries with task `id` changed by `f`, if it is there.
pub open spec fn update_task(s: Entries, id: Seq<char>, t: TaskView) -> Entries {
    s.update(key_pos(s, id), (id, t))
}

/// The project with the schedule of task `id` (main place first, then the
/// sub-tasks) replaced; `None` when the project has no such task.
pub open spec fn set_routine_spec(p: ProjectView, id: Seq<char>, r: Option<RoutineView>) -> Option<ProjectView> {
    if has_key(p.main, id) {
        Some(ProjectView { main: update_task(p.main, id, with_routine(p.main[key_pos(p.main, id)].1, r)), ..p })
    } else if has_key(p.subs, id) {
        Some(ProjectView { subs: update_task(p.subs, id, with_routine(p.subs[key_pos(p.subs, id)].1, r)), ..p })
    } else {
        None
    }
}

/// The project with the text of task `id` replaced; `None` when the
/// project has no such task.
pub open spec fn edit_task_spec(p: ProjectView, id: Seq<char>, text: Seq<char>) -> Option<ProjectView> {
    if has_key(p.main, id) {
        Some(ProjectView { main: update_task(p.main, id, with_text(p.main[key_pos(p.main, id)].1, text)), ..p })
    } else if has_key(p.subs, id) {
        Some(ProjectView { subs: update_task(p.subs, id, with_text(p.subs[key_pos(p.subs, id)].1, text)), ..p })
    } else {
        None
    }
}

impl LoadedProject {
    /// Whether the project has task `id`, in the main place or among the
    /// sub-tasks.
    pub fn contains_task(&self, id: &str) -> (r: bool)
        ensures
            r == (has_key(self@.main, id@) || has_key(self@.subs, id@)),
    {
        tm_index_of(&self.main, id).is_some() || tm_index_of(&self.subs, id).is_some()
    }

    /// Position of task `id` among the sub-tasks.
    pub fn sub_index(&self, id: &str) -> (r: Option<usize>)
        ensures
            match r {
                Some(i) => has_key(self@.subs, id@) && i as int == key_pos(self@.subs, id@),
                None => !has_key(self@.subs, id@),
            },
    {
        tm_index_of(&self.subs, id)
    }

    /// Replaces the schedule of task `id` (`None` makes it an ordinary
    /// task). Returns whether the project has the task; it is left as it
    /// was when not.
    pub fn set_routine(&mut self, id: &str, routine: Option<Routine>) -> (found: bool)
        ensures
            match set_routine_spec(old(self)@, id@, opt_routine_view(routine)) {
                Some(p) => found && final(self)@ == p,
                None => !found && final(self)@ == old(self)@,
            },
    {
        let ghost rv = opt_routine_view(routine);
        match tm_index_of(&self.main, id) {
            Some(i) => {
                proof { lemma_key_pos_bounds(task_entries(self.main), id@); }
                let ghost old_main = task_entries(self.main);
                let (_, mut t) = tm_get(&self.main, i).unwrap();
                t.routine = routine;
                tm_replace_at(&mut self.main, i, t);
                assert(task_entries(self.main) =~= update_task(old_main, id@, with_routine(old_main[i as int].1, rv)));
                return true;
            },
            None => {},
        }
        match tm_index_of(&self.subs, id) {
            Some(i) => {
                proof { lemma_key_pos_bounds(task_entries(self.subs), id@); }
                let ghost old_subs = task_entries(self.subs);
                let (_, mut t) = tm_get(&self.subs, i).unwrap();
                t.routine = routine;
                tm_replace_at(&mut self.subs, i, t);
                assert(task_entries(self.subs) =~= update_task(old_subs, id@, with_routine(old_subs[i as int].1, rv)));
                true
            },
            None => false,
        }
    }

    /// Replaces the text of task `id`. Returns whether the project has the
    /// task; it is left as it was when not.
    pub fn edit_task(&mut self, id: &str, text: String) -> (found: bool)
        ensures
            match edit_task_spec(old(self)@, id@, text@) {
                Some(p) => found && final(self)@ == p,
                None => !found && final(self)@ == old(self)@,
            },
    {
        match tm_index_of(&self.main, id) {
            Some(i) => {
                proof { lemma_key_pos_bounds(task_entries(self.main), id@); }
                let ghost old_main = task_entries(self.main);
                let ghost tv = text@;
                let (_, mut t) = tm_get(&self.main, i).unwrap();
                t.text = text;
                tm_replace_at(&mut self.main, i, t);
                assert(task_entries(self.main) =~= update_task(old_main, id@, with_text(old_main[i as int].1, tv)));
                return true;
            },
            None => {},
        }
        match tm_index_of(&self.subs, id) {
            Some(i) => {
                proof { lemma_key_pos_bounds(task_entries(self.subs), id@); }
                let ghost old_subs = task_entries(self.subs);
                let ghost tv = text@;
                let (_, mut t) = tm_get(&self.subs, i).unwrap();
                t.text = text;
                tm_replace_at(&mut self.subs, i, t);
                assert(task_entries(self.subs) =~= update_task(old_subs, id@, with_text(old_subs[i as int].1, tv)));
                true
            },
            None => false,
        }
    }
}

impl LoadedProject {
    /// Id of the main task.
    pub fn main_id(&self) -> (r: Option<String>)
        ensures
            match r {
                Some(id) => self@.main.len() > 0 && id@ == self@.main[0].0,
                None => self@.main.len() == 0,
            },
    {
        match tm_get(&self.main, 0) {
            Some((id, _)) => Some(id),
            None => None,
        }
    }

    /// The tick button: completes the main task when there is one (see
    /// `complete_main`); otherwise promotes the first active sub-task.
    /// Returns what was done, with the task's id.
    pub fn press_tick(&mut self, now: u64) -> (r: TickDone)
        ensures
            old(self)@.main.len() > 0 ==> (r matches TickDone::Completed(id)
                && id@ == old(self)@.main[0].0 && final(self)@ == complete_main_spec(old(self)@, now)),
            old(self)@.main.len() == 0 && first_active(old(self)@.subs) < old(self)@.subs.len() ==> (r matches TickDone::Promoted(id)
                && id@ == old(self)@.subs[first_active(old(self)@.subs)].0
                && final(self)@ == promote_sub_spec(old(self)@, first_active(old(self)@.subs))),
            old(self)@.main.len() == 0 && first_active(old(self)@.subs) >= old(self)@.subs.len() ==> r is Nothing
                && final(self)@ == old(self)@,
    {
        match self.main_id() {
            Some(id) => {
                self.complete_main(now);
                TickDone::Completed(id)
            },
            None => {
                let pos = first_active_index(&self.subs);
                match tm_get(&self.subs, pos) {
                    Some((id, _)) => {
                        self.promote_sub(pos);
                        TickDone::Promoted(id)
                    },
                    None => TickDone::Nothing,
                }
            },
        }
    }

    /// The cross on sub-task `i`: an active routine is finished early (see
    /// `complete_sub_routine`), any other task is deleted. Returns what was
    /// done, with the task's id.
    pub fn press_cross(&mut self, i: usize, now: u64) -> (r: CrossDone)
        ensures
            i < old(self)@.subs.len() && routine_active(old(self)@.subs[i as int].1) ==> (r matches CrossDone::Finished(id)
                && id@ == old(self)@.subs[i as int].0
                && final(self)@ == complete_sub_routine_spec(old(self)@, i as int, now)),
            i < old(self)@.subs.len() && !routine_active(old(self)@.subs[i as int].1) ==> (r matches CrossDone::Deleted(id)
                && id@ == old(self)@.subs[i as int].0
                && final(self)@ == (ProjectView { subs: old(self)@.subs.remove(i as int), ..old(self)@ })),
            i >= old(self)@.subs.len() ==> r is Nothing && final(self)@ == old(self)@,
    {
        match tm_get(&self.subs, i) {
            Some((id, t)) => {
                let active_routine = match &t.routine {
                    Some(rt) => rt.active,
                    None => false,
                };
                if active_routine {
                    self.complete_sub_routine(i, now);
                    CrossDone::Finished(id)
                } else {
                    self.delete_sub(i);
                    CrossDone::Deleted(id)
                }
            },
            None => CrossDone::Nothing,
        }
    }

    /// The text edit of sub-task `i` finished with `buf`: its trimmed text
    /// becomes the task's text when it is not empty and differs from it.
    /// Returns the id of the task when its text changed.
    pub fn commit_edit(&mut self, i: usize, buf: &str) -> (r: Option<String>)
        ensures
            trim(buf@).len() > 0 && i < old(self)@.subs.len() && old(self)@.subs[i as int].1.text != trim(buf@) ==> (
                r matches Some(id) && id@ == old(self)@.subs[i as int].0
                && final(self)@ == edit_sub_spec(old(self)@, i as int, trim(buf@))),
            !(trim(buf@).len() > 0 && i < old(self)@.subs.len() && old(self)@.subs[i as int].1.text != trim(buf@)) ==> (
                r is None && final(self)@ == old(self)@),
    {
        let text = trim_text(buf);
        if text.as_str().unicode_len() == 0 {
            return None;
        }
        match tm_get(&self.subs, i) {
            Some((id, t)) => {
                if str_eq(t.text.as_str(), text.as_str()) {
                    None
                } else {
                    self.edit_sub(i, text);
                    Some(id)
                }
            },
            None => None,
        }
    }

    /// Appends task `id` at the end of the sub-tasks with the next order
    /// key.
    pub fn add_sub_end(&mut self, id: String, mut task: TaskData)
        ensures
            final(self)@ == (ProjectView { subs: map_insert(old(self)@.subs, id@, with_key(task@, end_key(old(self)@.subs))), ..old(self)@ }),
    {
        task.order_key = next_end_key(&self.subs);
        tm_insert(&mut self.subs, id, task);
    }

    /// Puts task `id` at the beginning of the sub-tasks with the order key
    /// before the first.
    pub fn add_sub_beginning(&mut self, id: String, mut task: TaskData)
        ensures
            final(self)@ == (ProjectView {
                subs: map_shift_insert(old(self)@.subs, 0, id@, with_key(task@, beg_key(old(self)@.subs))),
                ..old(self)@
            }),
    {
        task.order_key = next_beg_key(&self.subs);
        proof { lemma_key_pos_bounds(task_entries(self.subs), id@); }
        tm_shift_insert(&mut self.subs, 0, id, task);
    }

    /// Removes task `id` from the sub-tasks and from the main place.
    pub fn remove_task(&mut self, id: &str)
        ensures
            final(self)@ == (ProjectView {
                subs: map_remove_key(old(self)@.subs, id@),
                main: map_remove_key(old(self)@.main, id@),
                ..old(self)@
            }),
    {
        tm_remove_key(&mut self.subs, id);
        tm_remove_key(&mut self.main, id);
    }
}

/// The project made when there is none: "Cue", in blue, created at `now`.
pub fn default_project(id: String, now: u64) -> (p: LoadedProject)
    ensures
        p@.id == id@,
        p@.name == seq!['C', 'u', 'e'],
        p@.color == seq![74u8, 144, 217],
        p@.color_hex == hex_text(seq![74u8, 144, 217]),
        p@.main.len() == 0,
        p@.subs.len() == 0,
        p@.created_at == now,
        p@.loaded,
        p@.name_edited_at == 0,
        p@.color_edited_at == 0,
{
    let name = "Cue";
    proof { reveal_strlit("Cue"); }
    let c: [u8; 3] = [74, 144, 217];
    assert(c@ =~= seq![74u8, 144, 217]);
    let p = LoadedProject::new(id, name.to_string(), c, now);
    assert(p@.name =~= seq!['C', 'u', 'e']);
    p
}

/// Which project file to try to open first at start-up, before falling
/// back to a new default project: the last open project when known;
/// otherwise, with a non-empty project index, its first project; otherwise
/// none.
pub fn start_project_id(index_first: Option<&str>, last_project_id: Option<&str>) -> (r: Option<String>)
    ensures
        match last_project_id {
            Some(l) => r matches Some(x) && x@ == l@,
            None => match index_first {
                Some(f) => r matches Some(x) && x@ == f@,
                None => r is None,
            },
        },
{
    match last_project_id {
        Some(l) => Some(l.to_string()),
        None => match index_first {
            Some(f) => Some(f.to_string()),
            None => None,
        },
    }
}

/// The project open at start-up: the one read from the file of the id that
/// `start_project_id` picked (`read`), or, when there was no id or the file
/// could not be read, a new default project with `default_id` made at
/// `now` (see `default_project`). No other file is tried.
pub fn load_active_with_fallback(read: Option<LoadedProject>, default_id: String, now: u64) -> (p: LoadedProject)
    ensures
        match read {
            Some(r) => p == r,
            None => p@.id == default_id@ && p@.name == seq!['C', 'u', 'e']
                && p@.color == seq![74u8, 144, 217] && p@.color_hex == hex_text(seq![74u8, 144, 217])
                && p@.main.len() == 0 && p@.subs.len() == 0 && p@.created_at == now
                && p@.loaded && p@.name_edited_at == 0 && p@.color_edited_at == 0,
        },
{
    match read {
        Some(r) => r,
        None => default_project(default_id, now),
    }
}

} // verus!
