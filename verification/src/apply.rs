//! Applying an operation from the log to the projects, the deletion
//! records and the shared settings.
use vstd::prelude::*;
use crate::color::{hex_color_spec, hex_to_rgb};
use crate::oplog::{AddTarget, Op, OpKind, OpKindView, OpView, SettingValue, SettingValueView};
use crate::project::{
    LoadedProject, ProjectView, add_task_spec, complete_main_spec, complete_sub_routine_spec,
    edit_task_spec, end_key, beg_key, new_task, promote_sub_spec, set_routine_spec, with_key, routine_active,
};
use crate::settings::{NewTaskPos, Settings};
use crate::task_map::{TaskData, has_key, key_pos, map_insert, map_shift_insert, map_remove_key, lemma_key_pos_bounds};
use crate::text::str_eq;
use crate::tombstones::{Tombstones, TombEntry, TombKind, deleted_at_spec};

verus! {

/// What applying an operation calls for.
pub enum Applied {
    /// Already seen, blocked by a deletion, or changing nothing.
    Skipped,
    /// Project `id` changed: it is to be saved.
    Save(String),
    /// A project deletion: the project, when it was loaded here, whose file
    /// is to go.
    Deleted(Option<LoadedProject>),
    /// A shared setting changed: the settings are to be saved.
    SettingsChanged,
}

/// `r` asks to save project `id`.
pub open spec fn saves(r: Applied, id: Seq<char>) -> bool {
    match r {
        Applied::Save(x) => x@ == id,
        _ => false,
    }
}

/// `r` reports a deletion of `p` (`None`: not loaded here).
pub open spec fn deletes(r: Applied, p: Option<ProjectView>) -> bool {
    match (r, p) {
        (Applied::Deleted(Some(x)), Some(v)) => x@ == v,
        (Applied::Deleted(None), None) => true,
        _ => false,
    }
}

/// The deletion record `e` is of `kind`, at `ts`, by device `by`, for the
/// project `project` (a deleted task's; none for a deleted project).
pub open spec fn records_deletion(e: Option<TombEntry>, kind: TombKind, ts: u64, by: Seq<char>, project: Option<Seq<char>>) -> bool {
    match e {
        Some(t) => t.kind == kind && t.deleted_at == ts && t.deleted_by@ == by
            && match (t.project_id, project) {
                (Some(a), Some(b)) => a@ == b,
                (None, None) => true,
                _ => false,
            },
        None => false,
    }
}

pub open spec fn tombed(t: Tombstones, id: Seq<char>) -> bool {
    deleted_at_spec(t.map, id) is Some
}

/// Position of the first project with id `id`, or the length.
pub open spec fn first_project(ps: Seq<ProjectView>, id: Seq<char>) -> int
    decreases ps.len(),
{
    if ps.len() == 0 {
        0
    } else if ps[0].id == id {
        0
    } else {
        1 + first_project(ps.drop_first(), id)
    }
}

pub open spec fn projects_view(v: Seq<LoadedProject>) -> Seq<ProjectView> {
    v.map_values(|p: LoadedProject| p@)
}

pub open spec fn seen_has(seen: Seq<String>, id: Seq<char>) -> bool {
    exists|j: int| 0 <= j < seen.len() && (#[trigger] seen[j])@ == id
}

/// A deletion record blocks the operation: for every kind the project's,
/// and for additions, edits and schedules also the task's.
pub open spec fn blocked(t: Tombstones, k: OpKindView) -> bool {
    match k {
        OpKindView::CreateProject { project_id, .. } => tombed(t, project_id),
        OpKindView::DeleteProject { project_id } => tombed(t, project_id),
        OpKindView::RenameProject { project_id, .. } => tombed(t, project_id),
        OpKindView::RecolorProject { project_id, .. } => tombed(t, project_id),
        OpKindView::AddTask { project_id, task_id, .. } => tombed(t, project_id) || tombed(t, task_id),
        OpKindView::DeleteTask { project_id, .. } => tombed(t, project_id),
        OpKindView::CompleteMain { project_id, .. } => tombed(t, project_id),
        OpKindView::CompleteSub { project_id, .. } => tombed(t, project_id),
        OpKindView::PromoteTask { project_id, .. } => tombed(t, project_id),
        OpKindView::EditTask { project_id, task_id, .. } => tombed(t, project_id) || tombed(t, task_id),
        OpKindView::SetRoutine { project_id, task_id, .. } => tombed(t, project_id) || tombed(t, task_id),
        OpKindView::SetSharedSetting { .. } => false,
    }
}

/// The project an operation works on inside, if it is such an operation.
pub open spec fn local_project(k: OpKindView) -> Option<Seq<char>> {
    match k {
        OpKindView::RenameProject { project_id, .. } => Some(project_id),
        OpKindView::RecolorProject { project_id, .. } => Some(project_id),
        OpKindView::AddTask { project_id, .. } => Some(project_id),
        OpKindView::DeleteTask { project_id, .. } => Some(project_id),
        OpKindView::CompleteMain { project_id, .. } => Some(project_id),
        OpKindView::CompleteSub { project_id, .. } => Some(project_id),
        OpKindView::PromoteTask { project_id, .. } => Some(project_id),
        OpKindView::EditTask { project_id, .. } => Some(project_id),
        OpKindView::SetRoutine { project_id, .. } => Some(project_id),
        _ => None,
    }
}

/// What an operation does inside its project `p`, at time `ts`, with new
/// tasks placed as `pos` says; `None` when it changes nothing. Renames and
/// colour changes apply only when newer than the last one applied; an
/// added task id must be new; completion applies to the main task named;
/// the sub-task operations need the named sub-task.
pub open spec fn local_effect(p: ProjectView, k: OpKindView, ts: u64, pos: NewTaskPos) -> Option<ProjectView> {
    match k {
        OpKindView::RenameProject { name, .. } =>
            if ts <= p.name_edited_at { None } else { Some(ProjectView { name, name_edited_at: ts, ..p }) },
        OpKindView::RecolorProject { color, .. } =>
            if ts <= p.color_edited_at {
                None
            } else {
                match hex_color_spec(color) {
                    Some(c) => Some(ProjectView { color: c, color_hex: color, color_edited_at: ts, ..p }),
                    None => None,
                }
            },
        OpKindView::AddTask { task_id, text, target, .. } =>
            if has_key(p.main, task_id) || has_key(p.subs, task_id) {
                None
            } else {
                Some(match target {
                    AddTarget::Main => add_task_spec(p, task_id, text, pos, true, ts),
                    AddTarget::End => ProjectView {
                        subs: map_insert(p.subs, task_id, with_key(new_task(text, ts), end_key(p.subs))), ..p },
                    AddTarget::Beginning => ProjectView {
                        subs: map_shift_insert(p.subs, 0, task_id, with_key(new_task(text, ts), beg_key(p.subs))), ..p },
                })
            },
        OpKindView::DeleteTask { task_id, .. } =>
            Some(ProjectView { subs: map_remove_key(p.subs, task_id), main: map_remove_key(p.main, task_id), ..p }),
        OpKindView::CompleteMain { task_id, .. } =>
            if p.main.len() > 0 && p.main[0].0 == task_id { Some(complete_main_spec(p, ts)) } else { None },
        OpKindView::CompleteSub { task_id, .. } =>
            if has_key(p.subs, task_id) && routine_active(p.subs[key_pos(p.subs, task_id)].1) {
                Some(complete_sub_routine_spec(p, key_pos(p.subs, task_id), ts))
            } else {
                None
            },
        OpKindView::PromoteTask { task_id, .. } =>
            if has_key(p.subs, task_id) { Some(promote_sub_spec(p, key_pos(p.subs, task_id))) } else { None },
        OpKindView::EditTask { task_id, text, .. } => edit_task_spec(p, task_id, text),
        OpKindView::SetRoutine { task_id, routine, .. } => set_routine_spec(p, task_id, routine),
        _ => None,
    }
}

/// The project an operation creates, if it can: a new id and a readable
/// colour.
pub open spec fn created_project(ps: Seq<ProjectView>, k: OpKindView) -> Option<ProjectView> {
    match k {
        OpKindView::CreateProject { project_id, name, color, created_at } =>
            if first_project(ps, project_id) < ps.len() {
                None
            } else {
                match hex_color_spec(color) {
                    Some(c) => Some(ProjectView {
                        id: project_id, name, color: c, main: Seq::empty(), subs: Seq::empty(), color_hex: color,
                        created_at, loaded: true, name_edited_at: 0, color_edited_at: 0,
                    }),
                    None => None,
                }
            },
        _ => None,
    }
}

pub open spec fn key_new_task_pos() -> Seq<char> {
    seq!['n', 'e', 'w', '_', 't', 'a', 's', 'k', '_', 'p', 'o', 's']
}

pub open spec fn key_replace_main() -> Seq<char> {
    seq!['r', 'e', 'p', 'l', 'a', 'c', 'e', '_', 'm', 'a', 'i', 'n']
}

/// The position a setting value names: `"End"` or `"Beginning"`.
pub open spec fn pos_value(v: SettingValueView) -> Option<NewTaskPos> {
    match v {
        SettingValueView::Text(t) =>
            if t == seq!['E', 'n', 'd'] {
                Some(NewTaskPos::End)
            } else if t == seq!['B', 'e', 'g', 'i', 'n', 'n', 'i', 'n', 'g'] {
                Some(NewTaskPos::Beginning)
            } else {
                None
            },
        _ => None,
    }
}

pub(crate) fn find_project(projects: &Vec<LoadedProject>, id: &str) -> (r: usize)
    ensures
        r as int == first_project(projects_view(projects@), id@),
        r <= projects@.len(),
{
    let ghost ps = projects_view(projects@);
    let mut i: usize = 0;
    assert(ps.skip(0) =~= ps);
    while i < projects.len()
        invariant
            i <= projects@.len(),
            ps == projects_view(projects@),
            first_project(ps, id@) == i + first_project(ps.skip(i as int), id@),
        decreases projects@.len() - i,
    {
        assert(ps.skip(i as int)[0] == projects@[i as int]@);
        assert(ps.skip(i as int).drop_first() =~= ps.skip(i + 1));
        if str_eq(projects[i].id.as_str(), id) {
            return i;
        }
        i = i + 1;
    }
    i
}

pub(crate) fn seen_contains(seen: &Vec<String>, id: &str) -> (r: bool)
    ensures
        r == seen_has(seen@, id@),
{
    let mut i: usize = 0;
    while i < seen.len()
        invariant
            i <= seen@.len(),
            forall|j: int| 0 <= j < i ==> (#[trigger] seen@[j])@ != id@,
        decreases seen@.len() - i,
    {
        if str_eq(seen[i].as_str(), id) {
            return true;
        }
        i = i + 1;
    }
    false
}

/// Applies `k` inside project `p` (see `local_effect`); returns whether it
/// changed anything.
fn apply_local(p: &mut LoadedProject, k: &OpKind, ts: u64, pos: NewTaskPos) -> (changed: bool)
    ensures
        match local_effect(old(p)@, k@, ts, pos) {
            Some(q) => changed && final(p)@ == q,
            None => !changed && final(p)@ == old(p)@,
        },
{
    match k {
        OpKind::RenameProject { name, .. } => {
            if ts <= p.name_edited_at {
                return false;
            }
            p.name = name.clone();
            p.name_edited_at = ts;
            true
        },
        OpKind::RecolorProject { color, .. } => {
            if ts <= p.color_edited_at {
                return false;
            }
            match hex_to_rgb(color.as_str()) {
                Some(c) => {
                    p.color = c;
                    p.color_hex = color.clone();
                    p.color_edited_at = ts;
                    true
                },
                None => false,
            }
        },
        OpKind::AddTask { task_id, text, target, .. } => {
            if p.contains_task(task_id.as_str()) {
                return false;
            }
            let task = TaskData { text: text.clone(), routine: None, created_at: ts, order_key: 0 };
            match target {
                AddTarget::Main => {
                    let s = Settings { new_task_pos: pos, replace_main: true, last_project_id: None, group_inactive_at_end: true };
                    p.add_task_at(task_id.clone(), text.clone(), &s, ts);
                },
                AddTarget::End => p.add_sub_end(task_id.clone(), task),
                AddTarget::Beginning => p.add_sub_beginning(task_id.clone(), task),
            }
            true
        },
        OpKind::DeleteTask { task_id, .. } => {
            p.remove_task(task_id.as_str());
            true
        },
        OpKind::CompleteMain { task_id, .. } => {
            match p.main_id() {
                Some(m) => {
                    if !str_eq(m.as_str(), task_id.as_str()) {
                        return false;
                    }
                },
                None => return false,
            }
            p.complete_main(ts);
            true
        },
        OpKind::CompleteSub { task_id, .. } => {
            match p.sub_index(task_id.as_str()) {
                Some(i) => p.complete_sub_routine(i, ts),
                None => false,
            }
        },
        OpKind::PromoteTask { task_id, .. } => {
            match p.sub_index(task_id.as_str()) {
                Some(i) => {
                    proof { lemma_key_pos_bounds(p@.subs, task_id@); }
                    p.promote_sub(i);
                    true
                },
                None => false,
            }
        },
        OpKind::EditTask { task_id, text, .. } => p.edit_task(task_id.as_str(), text.clone()),
        OpKind::SetRoutine { task_id, routine, .. } => {
            let r = match routine {
                Some(x) => Some(x.duplicate()),
                None => None,
            };
            p.set_routine(task_id.as_str(), r)
        },
        _ => false,
    }
}

/// Applies a shared setting; returns whether it changed.
fn apply_setting(settings: &mut Settings, key: &str, value: &SettingValue) -> (changed: bool)
    ensures
        key@ == key_new_task_pos() && pos_value(value@) is Some ==> final(settings).new_task_pos == pos_value(value@)->0
            && final(settings).replace_main == old(settings).replace_main
            && changed == (old(settings).new_task_pos != pos_value(value@)->0),
        key@ == key_replace_main() && value@ is Bool ==> final(settings).replace_main == value@->Bool_0
            && final(settings).new_task_pos == old(settings).new_task_pos
            && changed == (old(settings).replace_main != value@->Bool_0),
        !(key@ == key_new_task_pos() && pos_value(value@) is Some) && !(key@ == key_replace_main() && value@ is Bool)
            ==> !changed && final(settings).new_task_pos == old(settings).new_task_pos
                && final(settings).replace_main == old(settings).replace_main,
        final(settings).last_project_id == old(settings).last_project_id,
        final(settings).group_inactive_at_end == old(settings).group_inactive_at_end,
{
    let k_pos = "new_task_pos";
    let k_main = "replace_main";
    let v_end = "End";
    let v_beg = "Beginning";
    proof {
        reveal_strlit("new_task_pos");
        reveal_strlit("replace_main");
        reveal_strlit("End");
        reveal_strlit("Beginning");
        assert(k_pos@ =~= key_new_task_pos());
        assert(k_main@ =~= key_replace_main());
        assert(v_end@ =~= seq!['E', 'n', 'd']);
        assert(v_beg@ =~= seq!['B', 'e', 'g', 'i', 'n', 'n', 'i', 'n', 'g']);
        assert(key_new_task_pos() != key_replace_main());
    }
    if str_eq(key, k_pos) {
        match value {
            SettingValue::Text(t) => {
                if str_eq(t.as_str(), v_end) {
                    settings.apply_new_task_pos(NewTaskPos::End)
                } else if str_eq(t.as_str(), v_beg) {
                    settings.apply_new_task_pos(NewTaskPos::Beginning)
                } else {
                    false
                }
            },
            _ => false,
        }
    } else if str_eq(key, k_main) {
        match value {
            SettingValue::Bool(b) => settings.apply_replace_main(*b),
            _ => false,
        }
    } else {
        false
    }
}

/// Applies one operation from the log.
///
/// An operation seen before (by id) is skipped; otherwise its id is
/// recorded as seen. An operation blocked by a deletion record is skipped.
/// A creation adds the project unless the id is taken or the colour does
/// not read. A project deletion records the deletion and removes the
/// project. A task deletion records the deletion and removes the task from
/// its project. The other project and task operations change their project
/// as `local_effect` says, when the project is here. A shared setting is
/// set when its key and value are known.
pub fn apply_op(
    op: &Op,
    projects: &mut Vec<LoadedProject>,
    tombstones: &mut Tombstones,
    settings: &mut Settings,
    seen: &mut Vec<String>,
) -> (r: Applied)
    requires
        old(tombstones).map.wf(),
    ensures
        final(tombstones).map.wf(),
        seen_has(old(seen)@, op.op_id@) ==> r is Skipped && final(projects)@ == old(projects)@
            && *final(tombstones) == *old(tombstones) && *final(settings) == *old(settings) && final(seen)@ == old(seen)@,
        !seen_has(old(seen)@, op.op_id@) ==> final(seen)@.len() == old(seen)@.len() + 1
            && final(seen)@.take(old(seen)@.len() as int) == old(seen)@
            && final(seen)@.last()@ == op.op_id@,
        !seen_has(old(seen)@, op.op_id@) && blocked(*old(tombstones), op.kind@) ==> r is Skipped
            && final(projects)@ == old(projects)@ && *final(tombstones) == *old(tombstones) && *final(settings) == *old(settings),
        !seen_has(old(seen)@, op.op_id@) && !blocked(*old(tombstones), op.kind@) ==> ({
            let ps = projects_view(old(projects)@);
            let k = op.kind@;
            match k {
                OpKindView::CreateProject { project_id, .. } => (match created_project(ps, k) {
                    Some(np) => projects_view(final(projects)@) == ps.push(np) && saves(r, project_id),
                    None => r is Skipped && final(projects)@ == old(projects)@,
                }) && *final(tombstones) == *old(tombstones) && *final(settings) == *old(settings),
                OpKindView::DeleteProject { project_id } => ({
                    let i = first_project(ps, project_id);
                    &&& records_deletion(final(tombstones).map.get_spec(project_id), TombKind::Project, op.ts,
                        op.device_id@, None)
                    &&& forall|q: Seq<char>| q != project_id ==> final(tombstones).map.get_spec(q) == old(tombstones).map.get_spec(q)
                    &&& if i < ps.len() {
                        projects_view(final(projects)@) == ps.remove(i) && deletes(r, Some(ps[i]))
                    } else {
                        final(projects)@ == old(projects)@ && deletes(r, None)
                    }
                    &&& *final(settings) == *old(settings)
                }),
                OpKindView::SetSharedSetting { key, value } =>
                    final(projects)@ == old(projects)@ && *final(tombstones) == *old(tombstones)
                    && final(settings).last_project_id == old(settings).last_project_id
                    && final(settings).group_inactive_at_end == old(settings).group_inactive_at_end
                    && (if key == key_new_task_pos() && pos_value(value) is Some {
                        final(settings).new_task_pos == pos_value(value)->0 && final(settings).replace_main == old(settings).replace_main
                        && (r is SettingsChanged <==> old(settings).new_task_pos != pos_value(value)->0)
                    } else if key == key_replace_main() && value is Bool {
                        final(settings).replace_main == value->Bool_0 && final(settings).new_task_pos == old(settings).new_task_pos
                        && (r is SettingsChanged <==> old(settings).replace_main != value->Bool_0)
                    } else {
                        r is Skipped && *final(settings) == *old(settings)
                    })
                    && (r is Skipped || r is SettingsChanged),
                _ => ({
                    let pid = local_project(k)->0;
                    let i = first_project(ps, pid);
                    &&& *final(settings) == *old(settings)
                    &&& (k is DeleteTask ==> (match k {
                        OpKindView::DeleteTask { task_id, project_id } =>
                            records_deletion(final(tombstones).map.get_spec(task_id), TombKind::Task, op.ts,
                                op.device_id@, Some(project_id))
                            && forall|q: Seq<char>| q != task_id ==> final(tombstones).map.get_spec(q) == old(tombstones).map.get_spec(q),
                        _ => true,
                    }))
                    &&& (!(k is DeleteTask) ==> *final(tombstones) == *old(tombstones))
                    &&& if i < ps.len() {
                        match local_effect(ps[i], k, op.ts, old(settings).new_task_pos) {
                            Some(q) => projects_view(final(projects)@) == ps.update(i, q) && saves(r, pid),
                            None => r is Skipped && projects_view(final(projects)@) == ps,
                        }
                    } else {
                        r is Skipped && final(projects)@ == old(projects)@
                    }
                }),
            }
        }),
{
    if seen_contains(seen, op.op_id.as_str()) {
        return Applied::Skipped;
    }
    seen.push(op.op_id.clone());
    let ghost ps = projects_view(projects@);
    match &op.kind {
        OpKind::CreateProject { project_id, name, color, created_at } => {
            if tombstones.deleted_at(project_id.as_str()).is_some() {
                return Applied::Skipped;
            }
            let i = find_project(projects, project_id.as_str());
            if i < projects.len() {
                return Applied::Skipped;
            }
            let c = match hex_to_rgb(color.as_str()) {
                Some(c) => c,
                None => return Applied::Skipped,
            };
            let mut p = LoadedProject::new(project_id.clone(), name.clone(), c, *created_at);
            p.color_hex = color.clone();
            assert(p@.main =~= Seq::<(Seq<char>, crate::task_map::TaskView)>::empty());
            assert(p@.subs =~= Seq::<(Seq<char>, crate::task_map::TaskView)>::empty());
            assert(p@ == created_project(ps, op.kind@)->0);
            projects.push(p);
            assert(projects_view(projects@) =~= ps.push(created_project(ps, op.kind@)->0));
            Applied::Save(project_id.clone())
        },
        OpKind::DeleteProject { project_id } => {
            if tombstones.deleted_at(project_id.as_str()).is_some() {
                return Applied::Skipped;
            }
            tombstones.add_project(project_id.as_str(), op.ts, op.device_id.as_str());
            let i = find_project(projects, project_id.as_str());
            if i < projects.len() {
                let p = projects.remove(i);
                assert(projects_view(projects@) =~= ps.remove(i as int));
                Applied::Deleted(Some(p))
            } else {
                Applied::Deleted(None)
            }
        },
        OpKind::SetSharedSetting { key, value } => {
            if apply_setting(settings, key.as_str(), value) {
                Applied::SettingsChanged
            } else {
                Applied::Skipped
            }
        },
        _ => {
            let pid: &String = match &op.kind {
                OpKind::RenameProject { project_id, .. } => project_id,
                OpKind::RecolorProject { project_id, .. } => project_id,
                OpKind::AddTask { project_id, .. } => project_id,
                OpKind::DeleteTask { project_id, .. } => project_id,
                OpKind::CompleteMain { project_id, .. } => project_id,
                OpKind::CompleteSub { project_id, .. } => project_id,
                OpKind::PromoteTask { project_id, .. } => project_id,
                OpKind::EditTask { project_id, .. } => project_id,
                OpKind::SetRoutine { project_id, .. } => project_id,
                OpKind::CreateProject { project_id, .. } => project_id,
                OpKind::DeleteProject { project_id } => project_id,
                OpKind::SetSharedSetting { key, .. } => key,
            };
            if tombstones.deleted_at(pid.as_str()).is_some() {
                return Applied::Skipped;
            }
            let task_tomb: bool = match &op.kind {
                OpKind::AddTask { task_id, .. } => tombstones.deleted_at(task_id.as_str()).is_some(),
                OpKind::EditTask { task_id, .. } => tombstones.deleted_at(task_id.as_str()).is_some(),
                OpKind::SetRoutine { task_id, .. } => tombstones.deleted_at(task_id.as_str()).is_some(),
                _ => false,
            };
            if task_tomb {
                return Applied::Skipped;
            }
            match &op.kind {
                OpKind::DeleteTask { task_id, project_id } => {
                    tombstones.add_task(task_id.as_str(), project_id.as_str(), op.ts, op.device_id.as_str());
                },
                _ => {},
            }
            let i = find_project(projects, pid.as_str());
            if i >= projects.len() {
                return Applied::Skipped;
            }
            let mut p = projects.remove(i);
            assert(p@ == ps[i as int]);
            let changed = apply_local(&mut p, &op.kind, op.ts, settings.new_task_pos);
            projects.insert(i, p);
            if changed {
                assert(projects_view(projects@) =~= ps.update(i as int, local_effect(ps[i as int], op.kind@, op.ts, settings.new_task_pos)->0));
                Applied::Save(pid.clone())
            } else {
                assert(projects_view(projects@) =~= ps);
                Applied::Skipped
            }
        },
    }
}

/// Applying an operation a second time changes nothing: its id is seen.
pub proof fn lemma_second_apply_skipped(seen: Seq<String>, id: Seq<char>)
    requires
        seen.len() > 0,
        seen.last()@ == id,
    ensures
        seen_has(seen, id),
{
    assert(seen[seen.len() - 1]@ == id);
}

} // verus!
