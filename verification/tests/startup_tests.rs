use cue::display::display_order;
use cue::manifest::{Manifest, ManifestEntry};
use cue::project::LoadedProject;
use cue::routine::Routine;
use cue::startup::{
    full_load_needed, guard_active, merge_batch, open_index, placeholder, settle_placeholder, start_full, start_partial,
    switch_to,
};
use cue::task_map::TaskData;
use indexmap::IndexMap;

fn task(text: &str, order_key: i64, created_at: u64, active: Option<bool>) -> TaskData {
    TaskData {
        text: text.to_string(),
        routine: active.map(|a| Routine { week: None, month: None, direct: None, active: a, last_triggered_at: 0 }),
        created_at,
        order_key,
    }
}

fn project(id: &str) -> LoadedProject {
    LoadedProject::new(id.to_string(), format!("name {}", id), [1, 2, 3], 5)
}

fn entry(name: &str, hex: &str) -> ManifestEntry {
    ManifestEntry { name: name.to_string(), color_hex: hex.to_string(), task_count: 3, has_active_routine: false, order_key: 0 }
}

fn ids(v: &[LoadedProject]) -> Vec<String> {
    v.iter().map(|p| p.id.clone()).collect()
}

#[test]
fn display_order_without_grouping_is_list_order() {
    let mut subs = IndexMap::new();
    subs.insert("a".to_string(), task("a", 500, 1, Some(false)));
    subs.insert("b".to_string(), task("b", 0, 2, None));
    subs.insert("c".to_string(), task("c", 100, 3, Some(true)));
    assert_eq!(display_order(&subs, false), vec![0, 1, 2]);
}

#[test]
fn display_order_groups_inactive_at_end() {
    let mut subs = IndexMap::new();
    subs.insert("a".to_string(), task("a", 0, 1, Some(false)));
    subs.insert("b".to_string(), task("b", 200, 2, None));
    subs.insert("c".to_string(), task("c", 100, 3, Some(true)));
    subs.insert("d".to_string(), task("d", -50, 4, Some(false)));
    assert_eq!(display_order(&subs, true), vec![2, 1, 3, 0]);
}

#[test]
fn display_order_ties_by_creation_then_list_order() {
    let mut subs = IndexMap::new();
    subs.insert("a".to_string(), task("a", 10, 9, None));
    subs.insert("b".to_string(), task("b", 10, 3, None));
    subs.insert("c".to_string(), task("c", 10, 3, None));
    assert_eq!(display_order(&subs, true), vec![1, 2, 0]);
    assert_eq!(display_order(&IndexMap::new(), true), Vec::<usize>::new());
}

#[test]
fn full_load_when_log_or_index_empty() {
    let empty = Manifest { entries: vec![] };
    let one = Manifest { entries: vec![("x".to_string(), entry("X", "#FF0000"))] };
    assert!(full_load_needed(true, &one));
    assert!(full_load_needed(false, &empty));
    assert!(!full_load_needed(false, &one));
}

#[test]
fn open_index_finds_last_project_or_first() {
    let v = vec![project("a"), project("b"), project("b")];
    assert_eq!(open_index(&v, Some("b")), 1);
    assert_eq!(open_index(&v, Some("zz")), 0);
    assert_eq!(open_index(&v, None), 0);
}

#[test]
fn start_full_makes_default_project_when_none() {
    let (v, i) = start_full(vec![], Some("a"), "dflt".to_string(), 77);
    assert_eq!(i, 0);
    assert_eq!(v.len(), 1);
    assert_eq!(v[0].id, "dflt");
    assert_eq!(v[0].name, "Cue");
    assert_eq!(v[0].color_hex, "#4A90D9");
    assert_eq!(v[0].created_at, 77);
    let (v, i) = start_full(vec![project("a"), project("b")], Some("b"), "dflt".to_string(), 77);
    assert_eq!(ids(&v), vec!["a", "b"]);
    assert_eq!(i, 1);
}

#[test]
fn placeholder_reads_index_colour_or_falls_back() {
    let p = placeholder(&"x".to_string(), &entry("X", "#FF8000"));
    assert_eq!(p.color, [255, 128, 0]);
    assert!(!p.loaded);
    assert_eq!(p.name, "X");
    assert_eq!(p.created_at, 0);
    assert!(p.main.is_empty() && p.subs.is_empty());
    let q = placeholder(&"y".to_string(), &entry("Y", "not a colour"));
    assert_eq!(q.color, [74, 144, 217]);
    assert_eq!(q.color_hex, "not a colour");
}

#[test]
fn start_partial_puts_open_project_last() {
    let m = Manifest {
        entries: vec![
            ("a".to_string(), entry("A", "#000000")),
            ("b".to_string(), entry("B", "#111111")),
            ("c".to_string(), entry("C", "#222222")),
        ],
    };
    let (v, i) = start_partial(&m, project("b"));
    assert_eq!(ids(&v), vec!["a", "c", "b"]);
    assert_eq!(i, 2);
    assert!(!v[0].loaded && !v[1].loaded && v[2].loaded);
    assert_eq!(v[1].name, "C");
}

#[test]
fn switching_to_loaded_project_keeps_list() {
    let mut v = vec![project("a"), project("b")];
    let r = switch_to(&mut v, 0, 1, None);
    assert_eq!(r, 1);
    assert_eq!(ids(&v), vec!["a", "b"]);
    assert_eq!(switch_to(&mut v, 1, 1, None), 1);
}

#[test]
fn switching_to_placeholder_reads_it_or_drops_it() {
    let mut b = project("b");
    b.loaded = false;
    let mut v = vec![project("a"), b, project("c")];
    let mut real = project("b");
    real.name = "real".to_string();
    let r = switch_to(&mut v, 2, 1, Some(real));
    assert_eq!(r, 1);
    assert_eq!(v[1].name, "real");

    let mut b = project("b");
    b.loaded = false;
    let mut v = vec![project("a"), b, project("c")];
    let r = switch_to(&mut v, 2, 1, None);
    assert_eq!(ids(&v), vec!["a", "c"]);
    assert_eq!(r, 1);
    assert_eq!(v[r].id, "c");
}

#[test]
fn dropping_a_placeholder_before_the_open_project_shifts_it() {
    let mut b = project("b");
    b.loaded = false;
    let mut v = vec![b, project("a")];
    let r = switch_to(&mut v, 1, 0, None);
    assert_eq!(r, 0);
    assert_eq!(ids(&v), vec!["a"]);
}

fn stub(id: &str) -> LoadedProject {
    let mut p = project(id);
    p.loaded = false;
    p
}

#[test]
fn settling_a_placeholder_for_an_incoming_operation() {
    let mut v = vec![project("a"), stub("b")];
    let mut real = project("b");
    real.name = "real".to_string();
    assert_eq!(settle_placeholder(&mut v, 0, 1, Some(real), "d".to_string(), 3), (0, true));
    assert_eq!(v[1].name, "real");

    let mut v = vec![stub("b"), project("a")];
    assert_eq!(settle_placeholder(&mut v, 1, 0, None, "d".to_string(), 3), (0, false));
    assert_eq!(ids(&v), vec!["a"]);

    let mut v = vec![stub("b")];
    assert_eq!(settle_placeholder(&mut v, 0, 0, None, "d".to_string(), 3), (0, false));
    assert_eq!(ids(&v), vec!["d"]);
    assert_eq!(v[0].created_at, 3);
}

#[test]
fn guard_active_keeps_position_valid() {
    let mut v: Vec<LoadedProject> = vec![];
    assert_eq!(guard_active(&mut v, 4, "d".to_string(), 8), 0);
    assert_eq!(ids(&v), vec!["d"]);
    let mut v = vec![project("a"), project("b")];
    assert_eq!(guard_active(&mut v, 5, "d".to_string(), 8), 1);
    assert_eq!(guard_active(&mut v, 0, "d".to_string(), 8), 0);
    assert_eq!(ids(&v), vec!["a", "b"]);
}

#[test]
fn merging_the_background_batch() {
    let mut live = project("a");
    live.name = "live".to_string();
    let mut v = vec![live, stub("b"), stub("c")];
    let mut a2 = project("a");
    a2.name = "from disk".to_string();
    let mut b2 = project("b");
    b2.name = "b from disk".to_string();
    let batch = vec![a2, b2, project("x"), project("gone"), project("y")];
    merge_batch(&mut v, batch, &vec!["gone".to_string()]);
    assert_eq!(ids(&v), vec!["a", "b", "c", "x", "y"]);
    assert_eq!(v[0].name, "live");
    assert_eq!(v[1].name, "b from disk");
    assert!(v[1].loaded);
    assert!(!v[2].loaded);
}
