use cue::routine::Routine;
use cue::schedule::{
    direct_entry_secs, due_occurrence, is_due, last_direct_occurrence, last_month_occurrence, last_week_occurrence,
    parse_hm, prune_expired_direct, weekday_code,
};

fn strings(v: &[&str]) -> Vec<String> {
    v.iter().map(|s| s.to_string()).collect()
}

fn week_routine(entries: &[&str], last: u64) -> Routine {
    Routine { week: Some(strings(entries)), month: None, direct: None, active: false, last_triggered_at: last }
}

// Thursday 1970-01-08, 12:00.
const THU_NOON: u64 = 7 * 86400 + 12 * 3600;

#[test]
fn weekday_codes_and_times() {
    assert_eq!(weekday_code("mo"), Some(0));
    assert_eq!(weekday_code("su"), Some(6));
    assert_eq!(weekday_code("xx"), None);
    assert_eq!(parse_hm("09:30"), Some((9, 30)));
    assert_eq!(parse_hm("9:5"), Some((9, 5)));
    assert_eq!(parse_hm("0930"), None);
}

#[test]
fn last_week_occurrences() {
    // Monday 1970-01-05 09:00.
    assert_eq!(last_week_occurrence(&strings(&["mo 09:00"]), THU_NOON), Some(4 * 86400 + 9 * 3600));
    // Later today: a week back.
    assert_eq!(last_week_occurrence(&strings(&["th 13:00"]), THU_NOON), Some(13 * 3600));
    // Earlier today: today.
    assert_eq!(last_week_occurrence(&strings(&["th 10:00"]), THU_NOON), Some(7 * 86400 + 10 * 3600));
    assert_eq!(last_week_occurrence(&strings(&["mo 09:00", "th 13:00"]), THU_NOON), Some(4 * 86400 + 9 * 3600));
    assert_eq!(last_week_occurrence(&strings(&["bad"]), THU_NOON), None);
}

#[test]
fn last_month_occurrences() {
    // 2024-02-29 12:00.
    let now = 19782 * 86400 + 12 * 3600;
    assert_eq!(last_month_occurrence(&strings(&["15 09:00"]), now), Some(19768 * 86400 + 9 * 3600));
    // February has no 31st: January 31st.
    assert_eq!(last_month_occurrence(&strings(&["31 09:00"]), now), Some(19753 * 86400 + 9 * 3600));
}

#[test]
fn direct_entries() {
    assert_eq!(direct_entry_secs("2024-02-29 09:30"), Some(19782 * 86400 + 9 * 3600 + 30 * 60));
    assert_eq!(direct_entry_secs("2024-02-29"), None);
    let now = 19782 * 86400 + 12 * 3600;
    assert_eq!(last_direct_occurrence(&strings(&["2024-02-29 09:30", "2024-03-01 09:30"]), now),
        Some(19782 * 86400 + 9 * 3600 + 30 * 60));
    assert_eq!(last_direct_occurrence(&strings(&["2024-03-01 09:30"]), now), None);
}

#[test]
fn due_after_last_activation_only() {
    let r = week_routine(&["mo 09:00"], 0);
    assert_eq!(due_occurrence(&r, THU_NOON), Some(4 * 86400 + 9 * 3600));
    assert!(is_due(&r, THU_NOON));
    let r = week_routine(&["mo 09:00"], 4 * 86400 + 9 * 3600);
    assert_eq!(due_occurrence(&r, THU_NOON), None);
    assert!(!is_due(&r, THU_NOON));
}

#[test]
fn due_occurrence_is_never_in_the_future() {
    let r = week_routine(&["mo 09:00", "su 23:59", "th 12:00", "th 12:01"], 0);
    for now in [THU_NOON, THU_NOON + 1, THU_NOON + 60, THU_NOON + 86400 * 3] {
        if let Some(t) = due_occurrence(&r, now) {
            assert!(t <= now);
        }
    }
}

#[test]
fn pruning_expired_direct_dates() {
    let now = 19782 * 86400 + 9 * 3600 + 30 * 60;
    let mut r = Routine {
        week: None,
        month: None,
        direct: Some(strings(&["2024-02-29 09:30", "1970-01-01 00:00", "bad"])),
        active: true,
        last_triggered_at: 5,
    };
    prune_expired_direct(&mut r, now);
    assert_eq!(r.direct, Some(strings(&["2024-02-29 09:30", "bad"])));
    assert!(r.active);
    assert_eq!(r.last_triggered_at, 5);
    let mut r2 = Routine { week: None, month: None, direct: Some(strings(&["1970-01-01 00:00"])), active: false, last_triggered_at: 0 };
    prune_expired_direct(&mut r2, now);
    assert_eq!(r2.direct, None);
}

#[test]
fn routine_kinds() {
    let empty = Routine { week: None, month: None, direct: Some(vec![]), active: false, last_triggered_at: 0 };
    assert!(empty.is_empty());
    assert!(empty.is_direct_only());
    let w = week_routine(&["mo 09:00"], 0);
    assert!(!w.is_empty());
    assert!(!w.is_direct_only());
}

#[test]
fn due_occurrence_is_the_latest_of_all_entries() {
    let day = |y: i32, m: u32, d: u32| cue::calendar::days_from_civil(y, m, d) as u64 * 86400;
    // Tuesday 2025-04-15, 12:00.
    let now = day(2025, 4, 15) + 12 * 3600;
    let r = Routine {
        week: Some(strings(&["mo 09:00", "tu 13:00"])),
        month: Some(strings(&["31 10:00"])),
        direct: Some(strings(&["2025-04-14 20:00"])),
        active: false,
        last_triggered_at: 0,
    };
    // Candidates: Monday 14th 09:00, Tuesday 8th 13:00, March 31st 10:00,
    // Monday 14th 20:00; the latest is the direct one.
    assert_eq!(due_occurrence(&r, now), Some(day(2025, 4, 14) + 20 * 3600));
    // After that activation nothing newer is due.
    let later = Routine { last_triggered_at: day(2025, 4, 14) + 20 * 3600, ..r };
    assert_eq!(due_occurrence(&later, now), None);
}
