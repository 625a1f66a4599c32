use cue::clipboard::paste_lines;
use cue::project::{CrossDone, LoadedProject, TickDone};
use cue::text::trim_text;
use cue::routine::Routine;
use cue::settings::{NewTaskPos, Settings};
use cue::startup::remove_project;
use cue::task_map::TaskData;

fn project(id: &str) -> LoadedProject {
    LoadedProject::new(id.to_string(), "P".to_string(), [1, 2, 3], 5)
}

fn settings() -> Settings {
    Settings { new_task_pos: NewTaskPos::End, replace_main: false, last_project_id: None, group_inactive_at_end: false }
}

#[test]
fn paste_splits_lines_and_skips_blank_ones() {
    assert_eq!(paste_lines("one\r\n  \n\ttwo\n\nthree\n"), vec!["one", "\ttwo", "three"]);
    assert_eq!(paste_lines(""), Vec::<String>::new());
    assert_eq!(paste_lines("\n\n \u{3000}\n"), Vec::<String>::new());
    assert_eq!(paste_lines("last\r"), vec!["last\r"]);
}

#[test]
fn paste_keeps_fifty_tasks_of_three_hundred_chars() {
    let many: Vec<String> = (0..60).map(|i| format!("task {}", i)).collect();
    let got = paste_lines(&many.join("\n"));
    assert_eq!(got.len(), 50);
    assert_eq!(got[49], "task 49");
    let long = "x".repeat(400);
    let got = paste_lines(&long);
    assert_eq!(got, vec!["x".repeat(300)]);
}

#[test]
fn paste_over_the_byte_limit_is_ignored() {
    let ok = "a".repeat(30720);
    assert_eq!(paste_lines(&ok).len(), 1);
    let over = "a".repeat(30721);
    assert!(paste_lines(&over).is_empty());
    // 10240 three-byte characters make exactly the limit; one more goes over.
    let wide = "\u{4e2d}".repeat(10240);
    assert_eq!(paste_lines(&wide).len(), 1);
    let wider = format!("{}\u{4e2d}", wide);
    assert!(paste_lines(&wider).is_empty());
}

#[test]
fn copy_text_lists_main_then_subs() {
    let mut p = project("p");
    assert_eq!(p.copy_text(), None);
    let s = settings();
    p.add_task_at("a".into(), "first".into(), &s, 1);
    assert_eq!(p.copy_text(), Some("first".to_string()));
    p.add_task_at("b".into(), "second".into(), &s, 2);
    p.add_task_at("c".into(), "third".into(), &s, 3);
    assert_eq!(p.copy_text(), Some("first\nsecond\nthird".to_string()));
}

#[test]
fn tick_completes_main_or_promotes_first_active() {
    let mut p = project("p");
    let s = settings();
    assert!(matches!(p.press_tick(10), TickDone::Nothing));
    p.add_task_at("a".into(), "first".into(), &s, 1);
    p.add_task_at("b".into(), "second".into(), &s, 2);
    match p.press_tick(10) {
        TickDone::Completed(id) => assert_eq!(id, "a"),
        _ => panic!("main task not completed"),
    }
    assert_eq!(p.main_text(), Some("second".to_string()));

    let mut q = project("q");
    q.subs.insert(
        "r".to_string(),
        TaskData {
            text: "routine".to_string(),
            routine: Some(Routine { week: Some(vec!["mo 09:00".to_string()]), month: None, direct: None, active: false, last_triggered_at: 0 }),
            created_at: 1,
            order_key: 0,
        },
    );
    q.subs.insert("t".to_string(), TaskData { text: "plain".to_string(), routine: None, created_at: 2, order_key: 1000 });
    match q.press_tick(10) {
        TickDone::Promoted(id) => assert_eq!(id, "t"),
        _ => panic!("first active sub-task not promoted"),
    }
    assert_eq!(q.main_text(), Some("plain".to_string()));
    assert_eq!(q.subs.len(), 1);
}

#[test]
fn removing_projects_moves_the_open_position() {
    let mut v = vec![project("a"), project("b"), project("c")];
    assert_eq!(remove_project(&mut v, 2, 0), 1);
    assert_eq!(v.len(), 2);
    let mut v = vec![project("a"), project("b"), project("c")];
    assert_eq!(remove_project(&mut v, 2, 2), 1);
    let mut v = vec![project("a"), project("b"), project("c")];
    assert_eq!(remove_project(&mut v, 1, 1), 1);
    assert_eq!(v[1].id, "c");
    let mut v = vec![project("a"), project("b")];
    assert_eq!(remove_project(&mut v, 0, 1), 0);
}

fn routine_task(text: &str, active: bool) -> TaskData {
    TaskData {
        text: text.to_string(),
        routine: Some(Routine { week: Some(vec!["mo 09:00".to_string()]), month: None, direct: None, active, last_triggered_at: 0 }),
        created_at: 1,
        order_key: 0,
    }
}

#[test]
fn cross_finishes_active_routine_and_deletes_others() {
    let mut p = project("p");
    p.subs.insert("r".to_string(), routine_task("routine", true));
    p.subs.insert("t".to_string(), TaskData { text: "plain".to_string(), routine: None, created_at: 2, order_key: 1000 });
    match p.press_cross(0, 100) {
        CrossDone::Finished(id) => assert_eq!(id, "r"),
        _ => panic!("routine not finished"),
    }
    assert_eq!(p.subs.len(), 2);
    assert!(!p.subs["r"].routine.as_ref().unwrap().active);
    match p.press_cross(1, 100) {
        CrossDone::Deleted(id) => assert_eq!(id, "t"),
        _ => panic!("task not deleted"),
    }
    assert_eq!(p.subs.len(), 1);
    // An inactive routine is deleted, not finished.
    match p.press_cross(0, 100) {
        CrossDone::Deleted(id) => assert_eq!(id, "r"),
        _ => panic!("inactive routine not deleted"),
    }
    assert!(matches!(p.press_cross(0, 100), CrossDone::Nothing));
}

#[test]
fn trimming_drops_unicode_white_space() {
    assert_eq!(trim_text("  a b \t\n"), "a b");
    assert_eq!(trim_text("\u{3000}x\u{a0}"), "x");
    assert_eq!(trim_text(" \r\n "), "");
    assert_eq!(trim_text("none"), "none");
}

#[test]
fn committing_an_edit_keeps_only_real_changes() {
    let mut p = project("p");
    p.subs.insert("t".to_string(), TaskData { text: "old".to_string(), routine: None, created_at: 2, order_key: 0 });
    assert_eq!(p.commit_edit(0, "   "), None);
    assert_eq!(p.commit_edit(0, " old "), None);
    assert_eq!(p.commit_edit(3, "new"), None);
    assert_eq!(p.subs["t"].text, "old");
    assert_eq!(p.commit_edit(0, "  new text "), Some("t".to_string()));
    assert_eq!(p.subs["t"].text, "new text");
}
