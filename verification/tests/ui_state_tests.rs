use cue::date_picker::{date_at, days_in_month, first_weekday, grid_day, month_short, DatePickerState};
use cue::direct::{text_less, DirectEntry, DirectState};
use cue::routine_ui::{editor_title, week_code, RoutineTab, RoutineUiState, WeekState};
use cue::settings::{default_group_inactive, NewTaskPos, Settings, SettingsTab, SettingsUiState};
use cue::time_input::{TimeInputState, TimeKey};

fn typed(t: &str) -> TimeInputState {
    let mut s = TimeInputState::default();
    s.type_text(t);
    s
}

#[test]
fn typing_a_time() {
    let s = typed("0930");
    assert_eq!(s.digits, [Some(0), Some(9), Some(3), Some(0)]);
    assert_eq!(s.cursor, 4);
    assert!(s.is_valid());
    assert_eq!(s.to_time_string(), Some("09:30".to_string()));
    let bad = typed("2460");
    assert!(!bad.is_valid());
    assert_eq!(bad.to_time_string(), None);
    let partial = typed("1a2");
    assert_eq!(partial.digits, [Some(1), Some(2), None, None]);
    assert_eq!(partial.cursor, 2);
    let more = typed("123456");
    assert_eq!(more.digits, [Some(1), Some(2), Some(3), Some(4)]);
}

#[test]
fn editing_keys() {
    let mut s = typed("0930");
    s.press(TimeKey::Backspace);
    assert_eq!(s.digits, [Some(0), Some(9), Some(3), None]);
    assert_eq!(s.cursor, 3);
    s.press(TimeKey::Left);
    s.press(TimeKey::Delete);
    assert_eq!(s.digits, [Some(0), Some(9), None, None]);
    assert_eq!(s.cursor, 2);
    s.press(TimeKey::Right);
    s.press(TimeKey::Right);
    s.press(TimeKey::Right);
    assert_eq!(s.cursor, 4);
    s.focused = true;
    s.press(TimeKey::Confirm);
    assert!(!s.focused);
    let mut t = TimeInputState::default();
    t.press(TimeKey::Confirm);
    assert_eq!(t.cursor, 2);
    t.press(TimeKey::Backspace);
    t.press(TimeKey::Backspace);
    t.press(TimeKey::Backspace);
    assert_eq!(t.cursor, 0);
    let mut u = typed("09");
    u.focus();
    assert_eq!(u.cursor, 2);
    assert!(u.focused);
    u.clear();
    assert_eq!(u.digits, [None, None, None, None]);
    assert!(!u.focused);
}

#[test]
fn calendar_grid() {
    assert_eq!(first_weekday(0, 2024), 0);
    assert_eq!(first_weekday(1, 2024), 3);
    assert_eq!(first_weekday(6, 2025), 1);
    assert_eq!(days_in_month(1, 2024), 29);
    assert_eq!(days_in_month(1, 2023), 28);
    assert_eq!(month_short(6), "июл");
    assert_eq!(date_at(0), (1, 0, 1970));
    assert_eq!(date_at(19782 * 86400 + 5), (29, 1, 2024));
    assert_eq!(grid_day(0, 3, 31), None);
    assert_eq!(grid_day(3, 3, 31), Some(1));
    assert_eq!(grid_day(40, 3, 31), None);
    assert_eq!(grid_day(33, 3, 31), Some(31));
}

#[test]
fn weekday_grid_matches_calendar() {
    for year in [1, 1900, 1970, 2000, 2024, 2100] {
        for month in 0..12usize {
            let days = cue::calendar::days_from_civil(year, month as u32 + 1, 1);
            assert_eq!(first_weekday(month, year) as i64, cue::calendar::weekday_of(days));
        }
    }
}

#[test]
fn picker_navigation() {
    let today = (15u32, 0usize, 2025i32);
    let mut p = DatePickerState::for_today(today);
    assert!(!p.open);
    assert!(p.at_minimum(0, 2025));
    p.toggle(today);
    assert!(p.open);
    p.prev_month();
    assert_eq!((p.view_month, p.view_year), (11, 2024));
    p.next_month();
    p.next_month();
    assert_eq!((p.view_month, p.view_year), (1, 2025));
    p.select(3);
    assert_eq!(p.selected, Some((3, 1, 2025)));
    assert!(!p.open);
    p.toggle(today);
    assert_eq!((p.view_month, p.view_year), (1, 2025));
    let q = DatePickerState::for_today(today);
    assert!(q.is_past(14, today));
    assert!(!q.is_past(15, today));
}

#[test]
fn direct_entries_as_text() {
    let e = DirectEntry::parse("2025-07-01 09:30").unwrap();
    assert_eq!((e.day, e.month, e.year), (1, 6, 2025));
    assert_eq!(e.time, "09:30");
    assert_eq!(e.to_routine_string(), "2025-07-01 09:30");
    assert_eq!(e.display(), "1 июл 2025 · 09:30");
    let loose = DirectEntry::parse("2025-7-1 9:00").unwrap();
    assert_eq!(loose.to_routine_string(), "2025-07-01 9:00");
    assert!(DirectEntry::parse("2025-00-01 09:30").is_none());
    assert!(DirectEntry::parse("2025-07-01").is_none());
    assert!(DirectEntry::parse("2025-07 09:30").is_none());
    assert!(DirectEntry::parse("2025-07-01-02 09:30").is_none());
    let e = DirectEntry { day: 5, month: 0, year: -5, time: "x".into() };
    assert_eq!(e.to_routine_string(), "-005-01-05 x");
}

#[test]
fn direct_round_trip_law_on_values() {
    for (d, m, y, t) in [(1u32, 0usize, 0i32, "00:00"), (31, 11, 9999, "23:59 extra"), (7, 2, 123456, "")] {
        let e = DirectEntry { day: d, month: m, year: y, time: t.to_string() };
        let back = DirectEntry::parse(&e.to_routine_string()).unwrap();
        assert_eq!((back.day, back.month, back.year, back.time.as_str()), (d, m, y, t));
    }
}

#[test]
fn direct_list_loads_sorted() {
    let mut st = DirectState::for_today((1, 0, 2025));
    let stored = vec![
        "2025-07-01 09:30".to_string(),
        "bad".to_string(),
        "2024-12-31 23:00".to_string(),
        "2025-07-01 08:00".to_string(),
    ];
    st.load_from(&stored, (1, 0, 2025));
    assert_eq!(st.to_strings(), vec!["2024-12-31 23:00", "2025-07-01 08:00", "2025-07-01 09:30"]);
    st.date.selected = Some((2, 0, 2025));
    st.time_input.type_text("1200");
    assert!(st.add_selected());
    assert_eq!(st.entries.len(), 4);
    assert_eq!(st.entries[1].to_routine_string(), "2025-01-02 12:00");
    assert_eq!(st.date.selected, None);
    assert!(!st.add_selected());
    st.remove(0);
    assert_eq!(st.entries.len(), 3);
    assert!(text_less("08:00", "09:30"));
    assert!(!text_less("09:30", "09:30"));
}

#[test]
fn weekly_entries() {
    let mut w = WeekState::new();
    w.toggle_day(3);
    w.toggle_day(0);
    w.time_input.type_text("0930");
    assert!(w.add_selected());
    assert_eq!(w.to_strings(), vec!["mo 09:30", "th 09:30"]);
    assert_eq!(w.selected_days, [false; 7]);
    w.toggle_day(0);
    w.time_input.type_text("0800");
    assert!(w.add_selected());
    assert_eq!(w.to_strings(), vec!["mo 08:00", "mo 09:30", "th 09:30"]);
    assert!(!w.add_selected());
    w.remove(1);
    assert_eq!(w.to_strings(), vec!["mo 08:00", "th 09:30"]);
    assert_eq!(week_code(6), "su");
}

#[test]
fn editor_and_settings_defaults() {
    let r = RoutineUiState::new((1, 0, 2025));
    assert_eq!(r.tab, RoutineTab::Direct);
    assert!(r.task_id.is_empty());
    let s = Settings::default();
    assert_eq!(s.new_task_pos, NewTaskPos::End);
    assert!(!s.replace_main);
    assert!(s.group_inactive_at_end);
    assert!(default_group_inactive());
    let mut s2 = Settings::default();
    assert!(s2.apply_new_task_pos(NewTaskPos::Beginning));
    assert!(!s2.apply_new_task_pos(NewTaskPos::Beginning));
    assert!(s2.apply_replace_main(true));
    let ui = SettingsUiState::new();
    assert!(ui.tab == SettingsTab::General);
}

#[test]
fn stored_texts_come_back_sorted() {
    let mut st = DirectState::for_today((1, 0, 2025));
    st.date.open = true;
    st.time_input.type_text("12");
    let stored = vec![
        "2025-10-01 07:00".to_string(),
        "0999-02-03 x".to_string(),
        "2025-02-10 07:00".to_string(),
        "2025-02-10 06:59".to_string(),
    ];
    st.load_from(&stored, (4, 5, 2026));
    let mut expected = stored.clone();
    expected.sort();
    assert_eq!(st.to_strings(), expected);
    assert!(!st.date.open);
    assert_eq!(st.date.view_month, 5);
    assert_eq!(st.time_input.cursor, 0);
    assert!(!st.time_input.focused);
}

#[test]
fn long_task_names_are_cut_in_the_title() {
    assert_eq!(editor_title("short"), "short");
    let exact = "a".repeat(28);
    assert_eq!(editor_title(&exact), exact);
    let long = format!("{}   tail", "b".repeat(25));
    assert_eq!(editor_title(&long), format!("{}\u{2026}", "b".repeat(25)));
    let cyr = "\u{0437}".repeat(30);
    assert_eq!(editor_title(&cyr), format!("{}\u{2026}", "\u{0437}".repeat(28)));
}
