use cue::project::{default_project, is_active_task, load_active_with_fallback, next_beg_key, next_end_key, start_project_id, LoadedProject};
use cue::routine::Routine;
use cue::settings::{NewTaskPos, Settings};
use cue::task_map::{task_count, tm_replace_at, TaskData};

fn settings(pos: NewTaskPos, replace_main: bool) -> Settings {
    Settings { new_task_pos: pos, replace_main, last_project_id: None, group_inactive_at_end: true }
}

fn project() -> LoadedProject {
    LoadedProject::new("p1".to_string(), "Work".to_string(), [74, 144, 217], 100)
}

fn ids(m: &indexmap::IndexMap<String, TaskData>) -> Vec<String> {
    m.keys().cloned().collect()
}

fn keys(m: &indexmap::IndexMap<String, TaskData>) -> Vec<i64> {
    m.values().map(|t| t.order_key).collect()
}

fn routine(week: &[&str], active: bool) -> Routine {
    Routine {
        week: Some(week.iter().map(|s| s.to_string()).collect()),
        month: None,
        direct: None,
        active,
        last_triggered_at: 0,
    }
}

#[test]
fn new_project_is_empty_with_hex_colour() {
    let p = project();
    assert_eq!(p.color_hex, "#4A90D9");
    assert_eq!(p.main.len(), 0);
    assert_eq!(p.subs.len(), 0);
    assert!(p.loaded);
    assert_eq!(p.main_text(), None);
}

#[test]
fn first_task_goes_to_main_then_subs() {
    let mut p = project();
    let s = settings(NewTaskPos::End, false);
    p.add_task_at("a".into(), "first".into(), &s, 10);
    p.add_task_at("b".into(), "second".into(), &s, 11);
    p.add_task_at("c".into(), "third".into(), &s, 12);
    assert_eq!(p.main_text(), Some("first".to_string()));
    assert_eq!(ids(&p.subs), vec!["b", "c"]);
    assert_eq!(keys(&p.subs), vec![0, 1000]);
    assert_eq!(p.subs["b"].created_at, 11);
}

#[test]
fn adding_at_the_beginning() {
    let mut p = project();
    let s = settings(NewTaskPos::Beginning, false);
    p.add_task_at("a".into(), "first".into(), &s, 10);
    p.add_task_at("b".into(), "second".into(), &s, 11);
    p.add_task_at("c".into(), "third".into(), &s, 12);
    assert_eq!(ids(&p.subs), vec!["c", "b"]);
    assert_eq!(keys(&p.subs), vec![-1000, 0]);
}

#[test]
fn replacing_the_main_task() {
    let mut p = project();
    let s = settings(NewTaskPos::End, true);
    p.add_task_at("a".into(), "first".into(), &s, 10);
    p.add_task_at("b".into(), "second".into(), &s, 11);
    assert_eq!(ids(&p.main), vec!["b"]);
    assert_eq!(ids(&p.subs), vec!["a"]);
}

#[test]
fn completing_main_promotes_first_sub() {
    let mut p = project();
    let s = settings(NewTaskPos::End, false);
    p.add_task_at("a".into(), "first".into(), &s, 10);
    p.add_task_at("b".into(), "second".into(), &s, 11);
    p.add_task_at("c".into(), "third".into(), &s, 12);
    p.complete_main(100);
    assert_eq!(p.main_text(), Some("second".to_string()));
    assert_eq!(ids(&p.subs), vec!["c"]);
    p.complete_main(100);
    p.complete_main(100);
    assert_eq!(p.main.len(), 0);
    p.complete_main(100);
    assert_eq!(p.main.len(), 0);
}

#[test]
fn completing_a_routine_sends_it_back_inactive() {
    let mut p = project();
    let s = settings(NewTaskPos::End, false);
    p.add_task_at("r".into(), "gym".into(), &s, 10);
    p.add_task_at("b".into(), "second".into(), &s, 11);
    p.set_routine("r", Some(routine(&["mo 09:00"], true)));
    p.complete_main(100);
    assert_eq!(ids(&p.main), vec!["b"]);
    assert_eq!(ids(&p.subs), vec!["r"]);
    assert!(!p.subs["r"].routine.as_ref().unwrap().active);
    assert!(!is_active_task(&p.subs["r"]));
}

#[test]
fn inactive_routines_are_skipped_for_main() {
    let mut p = project();
    let s = settings(NewTaskPos::End, false);
    p.add_task_at("a".into(), "first".into(), &s, 10);
    p.add_task_at("r".into(), "gym".into(), &s, 11);
    p.add_task_at("c".into(), "third".into(), &s, 12);
    p.set_routine("r", Some(routine(&["mo 09:00"], false)));
    p.complete_main(100);
    assert_eq!(ids(&p.main), vec!["c"]);
    assert_eq!(ids(&p.subs), vec!["r"]);
}

#[test]
fn promoting_sends_old_main_to_front() {
    let mut p = project();
    let s = settings(NewTaskPos::End, false);
    p.add_task_at("a".into(), "first".into(), &s, 10);
    p.add_task_at("b".into(), "second".into(), &s, 11);
    p.add_task_at("c".into(), "third".into(), &s, 12);
    p.promote_sub(1);
    assert_eq!(ids(&p.main), vec!["c"]);
    assert_eq!(ids(&p.subs), vec!["a", "b"]);
    assert_eq!(keys(&p.subs), vec![-1000, 0]);
}

#[test]
fn deleting_and_editing_subs() {
    let mut p = project();
    let s = settings(NewTaskPos::End, false);
    p.add_task_at("a".into(), "first".into(), &s, 10);
    p.add_task_at("b".into(), "second".into(), &s, 11);
    p.add_task_at("c".into(), "third".into(), &s, 12);
    p.edit_sub(1, "THIRD".into());
    assert_eq!(p.subs["c"].text, "THIRD");
    assert_eq!(ids(&p.subs), vec!["b", "c"]);
    p.edit_sub(9, "nothing".into());
    p.delete_sub(0);
    assert_eq!(ids(&p.subs), vec!["c"]);
    p.delete_sub(5);
    assert_eq!(ids(&p.subs), vec!["c"]);
    assert!(p.edit_task("a", "FIRST".into()));
    assert_eq!(p.main_text(), Some("FIRST".to_string()));
    assert!(!p.edit_task("zz", "x".into()));
}

#[test]
fn reordering_interpolates_keys() {
    let mut p = project();
    let s = settings(NewTaskPos::End, false);
    p.add_task_at("m".into(), "main".into(), &s, 1);
    for id in ["a", "b", "c", "d"] {
        p.add_task_at(id.into(), id.into(), &s, 2);
    }
    assert_eq!(keys(&p.subs), vec![0, 1000, 2000, 3000]);
    // d before b
    p.reorder_sub(3, Some(1));
    assert_eq!(ids(&p.subs), vec!["a", "d", "b", "c"]);
    assert_eq!(keys(&p.subs), vec![0, 500, 1000, 2000]);
    // a to the end
    p.reorder_sub(0, None);
    assert_eq!(ids(&p.subs), vec!["d", "b", "c", "a"]);
    assert_eq!(keys(&p.subs), vec![500, 1000, 2000, 3000]);
    // dropped on itself
    p.reorder_sub(2, Some(2));
    assert_eq!(ids(&p.subs), vec!["d", "b", "c", "a"]);
    // b to the very front
    p.reorder_sub(1, Some(0));
    assert_eq!(ids(&p.subs), vec!["b", "d", "c", "a"]);
    assert_eq!(keys(&p.subs), vec![-500, 500, 2000, 3000]);
}

#[test]
fn completing_a_sub_routine() {
    let mut p = project();
    let s = settings(NewTaskPos::End, false);
    p.add_task_at("m".into(), "main".into(), &s, 1);
    p.add_task_at("r".into(), "gym".into(), &s, 2);
    p.add_task_at("o".into(), "once".into(), &s, 3);
    p.add_task_at("x".into(), "plain".into(), &s, 4);
    p.set_routine("r", Some(routine(&["mo 09:00"], true)));
    p.set_routine("o", Some(Routine {
        week: None, month: None, direct: Some(vec!["1970-01-01 00:00".to_string()]), active: true, last_triggered_at: 0,
    }));
    assert!(p.has_active_routine());
    assert!(p.complete_sub_routine(0, 1000));
    assert!(!p.subs["r"].routine.as_ref().unwrap().active);
    // an already inactive routine is left as it is
    assert!(!p.complete_sub_routine(0, 1000));
    assert!(!p.subs["r"].routine.as_ref().unwrap().active);
    // an exhausted one-off routine is gone
    assert!(p.complete_sub_routine(1, 1000));
    assert_eq!(ids(&p.subs), vec!["r", "x"]);
    // an ordinary task is not a routine
    assert!(!p.complete_sub_routine(1, 1000));
    assert!(!p.complete_sub_routine(7, 1000));
    assert!(!p.has_active_routine());
}

#[test]
fn end_and_beginning_keys() {
    let mut p = project();
    assert_eq!(next_end_key(&p.subs), 0);
    assert_eq!(next_beg_key(&p.subs), 0);
    let s = settings(NewTaskPos::End, false);
    p.add_task_at("m".into(), "main".into(), &s, 1);
    p.add_task_at("a".into(), "a".into(), &s, 1);
    p.add_task_at("b".into(), "b".into(), &s, 1);
    assert_eq!(next_end_key(&p.subs), 2000);
    assert_eq!(next_beg_key(&p.subs), -1000);
}

#[test]
fn routine_lookup_by_id() {
    let mut p = project();
    let s = settings(NewTaskPos::End, false);
    p.add_task_at("m".into(), "main".into(), &s, 1);
    p.add_task_at("a".into(), "a".into(), &s, 1);
    assert!(p.contains_task("m"));
    assert!(p.contains_task("a"));
    assert!(!p.contains_task("z"));
    assert_eq!(p.sub_index("a"), Some(0));
    assert_eq!(p.main_id(), Some("m".to_string()));
    assert!(p.set_routine("a", Some(routine(&["tu 08:00"], false))));
    assert!(p.set_routine("a", None));
    assert!(p.subs["a"].routine.is_none());
    assert!(!p.set_routine("z", None));
}

#[test]
fn default_project_and_start_choice() {
    let p = default_project("id1".into(), 77);
    assert_eq!(p.name, "Cue");
    assert_eq!(p.color, [74, 144, 217]);
    assert_eq!(p.color_hex, "#4A90D9");
    assert_eq!(p.created_at, 77);
    assert_eq!(start_project_id(Some("first"), Some("last")), Some("last".to_string()));
    assert_eq!(start_project_id(Some("first"), None), Some("first".to_string()));
    assert_eq!(start_project_id(None, None), None);
}

#[test]
fn remove_task_anywhere() {
    let mut p = project();
    let s = settings(NewTaskPos::End, false);
    p.add_task_at("m".into(), "main".into(), &s, 1);
    p.add_task_at("a".into(), "a".into(), &s, 1);
    p.remove_task("m");
    assert_eq!(p.main.len(), 0);
    p.remove_task("a");
    assert_eq!(p.subs.len(), 0);
}

#[test]
fn start_falls_back_to_a_default_project() {
    let read = LoadedProject::new("p1".to_string(), "Work".to_string(), [1, 2, 3], 7);
    let p = load_active_with_fallback(Some(read), "new".to_string(), 99);
    assert_eq!(p.id, "p1");
    assert_eq!(p.name, "Work");
    let d = load_active_with_fallback(None, "new".to_string(), 99);
    assert_eq!(d.id, "new");
    assert_eq!(d.name, "Cue");
    assert_eq!(d.color_hex, "#4A90D9");
    assert!(d.loaded);
    assert_eq!(d.created_at, 99);
    assert!(d.main.is_empty() && d.subs.is_empty());
}

#[test]
fn replacing_a_task_after_checking_the_count() {
    let mut p = project();
    let s = settings(NewTaskPos::End, false);
    p.add_task_at("a".into(), "first".into(), &s, 1);
    p.add_task_at("b".into(), "second".into(), &s, 2);
    assert_eq!(task_count(&p.subs), 1);
    let t = TaskData { text: "new".to_string(), routine: None, created_at: 9, order_key: 5 };
    if 0 < task_count(&p.subs) {
        tm_replace_at(&mut p.subs, 0, t);
    }
    assert_eq!(p.subs["b"].text, "new");
    assert_eq!(task_count(&p.main), 1);
}
