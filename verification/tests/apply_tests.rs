use cue::apply::{apply_op, Applied};
use cue::bootstrap::run_if_needed;
use cue::liveness::{cue_is_running, lock_is_fresh_at, LockData};
use cue::manifest::{entry_for, rebuild_from, remove_entry, upsert_entry, Manifest, ManifestEntry};
use cue::oplog::{AddTarget, Op, OpKind, SettingValue};
use cue::project::LoadedProject;
use cue::settings::{NewTaskPos, Settings};
use cue::tombstones::{TombKind, Tombstones};

fn op(id: &str, ts: u64, kind: OpKind) -> Op {
    Op { op_id: id.to_string(), device_id: "dev".to_string(), seq: 1, ts, kind }
}

struct World {
    projects: Vec<LoadedProject>,
    tombs: Tombstones,
    settings: Settings,
    seen: Vec<String>,
}

impl World {
    fn new() -> Self {
        World { projects: Vec::new(), tombs: Tombstones::new(), settings: Settings::default(), seen: Vec::new() }
    }
    fn apply(&mut self, o: &Op) -> Applied {
        apply_op(o, &mut self.projects, &mut self.tombs, &mut self.settings, &mut self.seen)
    }
}

fn saved(a: &Applied) -> Option<String> {
    match a {
        Applied::Save(id) => Some(id.clone()),
        _ => None,
    }
}

fn create(id: &str) -> OpKind {
    OpKind::CreateProject { project_id: "p".into(), name: "P".into(), color: id.into(), created_at: 5 }
}

#[test]
fn creating_projects() {
    let mut w = World::new();
    assert_eq!(saved(&w.apply(&op("o1", 10, create("#102030")))), Some("p".to_string()));
    assert_eq!(w.projects.len(), 1);
    assert_eq!(w.projects[0].color, [16, 32, 48]);
    assert_eq!(w.projects[0].color_hex, "#102030");
    // same op again: skipped by id
    assert!(matches!(w.apply(&op("o1", 10, create("#102030"))), Applied::Skipped));
    // another op for an existing id: skipped
    assert!(matches!(w.apply(&op("o2", 10, create("#102030"))), Applied::Skipped));
    assert_eq!(w.projects.len(), 1);
    // unreadable colour: skipped
    let mut w2 = World::new();
    assert!(matches!(w2.apply(&op("o1", 10, create("nope"))), Applied::Skipped));
    assert!(w2.projects.is_empty());
    assert_eq!(w2.seen, vec!["o1"]);
}

#[test]
fn renames_take_the_newest() {
    let mut w = World::new();
    w.apply(&op("c", 1, create("#000000")));
    let ren = |id: &str, ts: u64, name: &str| op(id, ts, OpKind::RenameProject { project_id: "p".into(), name: name.into() });
    assert!(saved(&w.apply(&ren("r1", 20, "New"))).is_some());
    assert!(matches!(w.apply(&ren("r2", 15, "Older")), Applied::Skipped));
    assert_eq!(w.projects[0].name, "New");
    assert_eq!(w.projects[0].name_edited_at, 20);
    let rec = op("k1", 30, OpKind::RecolorProject { project_id: "p".into(), color: "#FF0000".into() });
    assert!(saved(&w.apply(&rec)).is_some());
    assert_eq!(w.projects[0].color, [255, 0, 0]);
    assert_eq!(w.projects[0].color_edited_at, 30);
}

#[test]
fn tasks_through_operations() {
    let mut w = World::new();
    w.apply(&op("c", 1, create("#000000")));
    let add = |id: &str, tid: &str, target: AddTarget| op(id, 40, OpKind::AddTask {
        project_id: "p".into(), task_id: tid.into(), text: tid.to_uppercase(), target });
    assert!(saved(&w.apply(&add("a1", "m", AddTarget::Main))).is_some());
    assert!(saved(&w.apply(&add("a2", "x", AddTarget::End))).is_some());
    assert!(saved(&w.apply(&add("a3", "y", AddTarget::Beginning))).is_some());
    // an id already there is not added twice
    assert!(matches!(w.apply(&add("a4", "x", AddTarget::End)), Applied::Skipped));
    let p = &w.projects[0];
    assert_eq!(p.main.keys().cloned().collect::<Vec<_>>(), vec!["m"]);
    assert_eq!(p.subs.keys().cloned().collect::<Vec<_>>(), vec!["y", "x"]);
    assert_eq!(p.subs["x"].created_at, 40);
    let edit = op("e1", 41, OpKind::EditTask { project_id: "p".into(), task_id: "x".into(), text: "edited".into() });
    assert!(saved(&w.apply(&edit)).is_some());
    assert_eq!(w.projects[0].subs["x"].text, "edited");
    let promote = op("pr", 42, OpKind::PromoteTask { project_id: "p".into(), task_id: "x".into() });
    assert!(saved(&w.apply(&promote)).is_some());
    assert_eq!(w.projects[0].main.keys().cloned().collect::<Vec<_>>(), vec!["x"]);
    let wrong = op("cm0", 43, OpKind::CompleteMain { project_id: "p".into(), task_id: "m".into() });
    assert!(matches!(w.apply(&wrong), Applied::Skipped));
    let done = op("cm1", 43, OpKind::CompleteMain { project_id: "p".into(), task_id: "x".into() });
    assert!(saved(&w.apply(&done)).is_some());
    assert_eq!(w.projects[0].main.keys().cloned().collect::<Vec<_>>(), vec!["m"]);
    let del = op("d1", 44, OpKind::DeleteTask { project_id: "p".into(), task_id: "y".into() });
    assert!(saved(&w.apply(&del)).is_some());
    assert_eq!(w.tombs.deleted_at("y"), Some(44));
    let rec = w.tombs.map.get("y").unwrap();
    assert_eq!(rec.kind, TombKind::Task);
    assert_eq!(rec.deleted_by, "dev");
    assert_eq!(rec.project_id.as_deref(), Some("p"));
    assert!(w.projects[0].subs.is_empty());
    // a deleted task cannot come back
    assert!(matches!(w.apply(&add("a5", "y", AddTarget::End)), Applied::Skipped));
}

#[test]
fn deleting_projects() {
    let mut w = World::new();
    w.apply(&op("c", 1, create("#000000")));
    match w.apply(&op("d", 50, OpKind::DeleteProject { project_id: "p".into() })) {
        Applied::Deleted(Some(p)) => assert_eq!(p.id, "p"),
        _ => panic!("expected a deletion"),
    }
    assert!(w.projects.is_empty());
    assert_eq!(w.tombs.deleted_at("p"), Some(50));
    let rec = w.tombs.map.get("p").unwrap();
    assert_eq!(rec.kind, TombKind::Project);
    assert_eq!(rec.deleted_by, "dev");
    assert_eq!(rec.project_id, None);
    assert!(matches!(w.apply(&op("c2", 60, create("#000000"))), Applied::Skipped));
    assert!(matches!(w.apply(&op("d2", 70, OpKind::DeleteProject { project_id: "q".into() })), Applied::Deleted(None)));
}

#[test]
fn shared_settings() {
    let mut w = World::new();
    let set = |id: &str, key: &str, v: SettingValue| op(id, 1, OpKind::SetSharedSetting { key: key.into(), value: v });
    assert!(matches!(w.apply(&set("s1", "new_task_pos", SettingValue::Text("Beginning".into()))), Applied::SettingsChanged));
    assert_eq!(w.settings.new_task_pos, NewTaskPos::Beginning);
    assert!(matches!(w.apply(&set("s2", "new_task_pos", SettingValue::Text("Beginning".into()))), Applied::Skipped));
    assert!(matches!(w.apply(&set("s3", "replace_main", SettingValue::Bool(true))), Applied::SettingsChanged));
    assert!(w.settings.replace_main);
    assert!(matches!(w.apply(&set("s4", "replace_main", SettingValue::Text("yes".into()))), Applied::Skipped));
    assert!(matches!(w.apply(&set("s5", "colour", SettingValue::Bool(true))), Applied::Skipped));
}

#[test]
fn bootstrap_on_an_empty_log() {
    let mut p = LoadedProject::new("p".into(), "P".into(), [0, 0, 0], 9);
    let s = Settings::default();
    p.add_task_at("m".into(), "main".into(), &s, 1);
    p.add_task_at("a".into(), "a".into(), &s, 2);
    p.add_task_at("b".into(), "b".into(), &s, 3);
    p.reorder_sub(1, Some(0));
    let mut projects = vec![p];
    let ops = run_if_needed(&mut projects, 1);
    assert_eq!(ops.len(), 4);
    assert!(matches!(&ops[0].0, OpKind::CreateProject { project_id, .. } if project_id == "p"));
    assert_eq!(ops[0].1, 9);
    assert!(matches!(&ops[1].0, OpKind::AddTask { task_id, target: AddTarget::Main, .. } if task_id == "m"));
    assert!(matches!(&ops[2].0, OpKind::AddTask { task_id, target: AddTarget::End, .. } if task_id == "b"));
    assert_eq!(ops[3].1, 2);
    assert_eq!(projects[0].subs.values().map(|t| t.order_key).collect::<Vec<_>>(), vec![0, 1000]);
    let none = run_if_needed(&mut projects, 2);
    assert!(none.is_empty());
}

#[test]
fn project_index() {
    let mut m = Manifest::new();
    assert!(m.is_empty());
    let e = |n: &str, c: usize| ManifestEntry { name: n.into(), color_hex: "#000000".into(), task_count: c, has_active_routine: false, order_key: 0 };
    upsert_entry(&mut m, "a", e("A", 1));
    upsert_entry(&mut m, "b", e("B", 2));
    upsert_entry(&mut m, "a", e("A2", 3));
    assert_eq!(m.get("a").unwrap().name, "A2");
    assert_eq!(m.get("b").unwrap().task_count, 2);
    assert!(remove_entry(&mut m, "a"));
    assert!(!remove_entry(&mut m, "a"));
    assert!(m.get("a").is_none());
    let mut p = LoadedProject::new("x".into(), "X".into(), [1, 1, 1], 0);
    p.add_task_at("t".into(), "t".into(), &Settings::default(), 0);
    let entry = entry_for(&p);
    assert_eq!(entry.task_count, 1);
    assert_eq!(entry.color_hex, "#010101");
    let idx = rebuild_from(&[p]);
    assert_eq!(idx.get("x").unwrap().name, "X");
    assert!(idx.get("a").is_none());
}

#[test]
fn lock_freshness() {
    let l = LockData { pid: 1, time: 1000 };
    assert!(lock_is_fresh_at(&l, 1000 + 3599));
    assert!(!lock_is_fresh_at(&l, 1000 + 3600));
    assert!(lock_is_fresh_at(&l, 10));
    assert!(cue_is_running(&Some(LockData { pid: 1, time: 1000 }), 2000, true));
    assert!(!cue_is_running(&Some(LockData { pid: 1, time: 1000 }), 2000, false));
    assert!(!cue_is_running(&Some(LockData { pid: 1, time: 1000 }), 9000, true));
    assert!(!cue_is_running(&None, 2000, true));
}
