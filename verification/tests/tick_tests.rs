use cue::project::LoadedProject;
use cue::routine::Routine;
use cue::settings::{NewTaskPos, Settings};
use cue::tick::TickClock;

const THU_NOON: u64 = 7 * 86400 + 12 * 3600;

fn setup() -> LoadedProject {
    let mut p = LoadedProject::new("p".into(), "P".into(), [1, 2, 3], 0);
    let s = Settings { new_task_pos: NewTaskPos::End, replace_main: false, last_project_id: None, group_inactive_at_end: true };
    p.add_task_at("m".into(), "main".into(), &s, 1);
    p.add_task_at("r".into(), "gym".into(), &s, 2);
    p.add_task_at("n".into(), "noon".into(), &s, 3);
    p.set_routine("r", Some(Routine {
        week: Some(vec!["mo 09:00".to_string()]), month: None,
        direct: Some(vec!["1970-01-02 00:00".to_string(), "2030-01-01 00:00".to_string()]),
        active: false, last_triggered_at: 0,
    }));
    p.set_routine("n", Some(Routine {
        week: Some(vec!["th 11:59".to_string()]), month: None, direct: None, active: false, last_triggered_at: 0,
    }));
    p
}

#[test]
fn tick_activates_due_routines_in_place() {
    let mut p = setup();
    let fired = p.activate_due(THU_NOON);
    assert_eq!(fired.len(), 2);
    assert_eq!(fired[0].task_id, "r");
    assert_eq!(fired[0].text, "gym");
    assert_eq!(fired[0].occurrence, 4 * 86400 + 9 * 3600);
    assert!(!fired[0].notify);
    assert_eq!(fired[1].task_id, "n");
    assert_eq!(fired[1].occurrence, THU_NOON - 60);
    assert!(fired[1].notify);
    let r = p.subs["r"].routine.as_ref().unwrap();
    assert!(r.active);
    assert_eq!(r.last_triggered_at, THU_NOON);
    assert_eq!(r.direct, Some(vec!["2030-01-01 00:00".to_string()]));
    assert_eq!(p.subs.keys().cloned().collect::<Vec<_>>(), vec!["r", "n"]);
}

#[test]
fn second_tick_at_the_same_moment_fires_nothing() {
    let mut p = setup();
    let _ = p.activate_due(THU_NOON);
    let again = p.activate_due(THU_NOON);
    assert!(again.is_empty());
}

#[test]
fn tick_clock_intervals() {
    let mut c = TickClock { last_lock_refresh: 0, last_routine_tick: 0 };
    let plan = c.step(3);
    assert!(!plan.refresh_lock);
    assert!(!plan.run_tick);
    let plan = c.step(5);
    assert!(plan.run_tick);
    assert_eq!(c.last_routine_tick, 5);
    let plan = c.step(9);
    assert!(!plan.run_tick);
    let plan = c.step(900);
    assert!(plan.refresh_lock);
    assert!(plan.run_tick);
    assert_eq!(c.last_lock_refresh, 900);
    let plan = c.step(10);
    assert!(!plan.refresh_lock);
    assert!(!plan.run_tick);
}
