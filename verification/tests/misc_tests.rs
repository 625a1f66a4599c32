use cue::icon::{circle_mask, generate, normalize, prune_plan, IconBase};
use cue::ids::{add_target_for, id_from_seed, id_seed};
use cue::oplog::AddTarget;
use cue::peers::PeerEntry;
use cue::settings::{NewTaskPos, Settings};
use cue::sync_panel::{deterministic_token, finish_scan, scan_done, format_ago_at, peer_display_at, Indicator, ScanState};
use cue::sync_state::{DeviceType, PeerStatus};
use cue::discovery::DiscoveredPeer;
use cue::peers::Peers;
use cue::time::{local_time, offset_between, SYSTEMTIME};

#[test]
fn ids_from_seeds() {
    assert_eq!(id_from_seed(0), "a3UBQR8DCJaP");
    assert_eq!(id_from_seed(1), "bIn2lslY3EjI");
    assert_eq!(id_from_seed(123456789).len(), 12);
    assert_eq!(id_seed(1000, 7, 2), 4354685577821748162);
}

#[test]
fn add_targets() {
    let s = |pos: NewTaskPos, rm: bool| Settings { new_task_pos: pos, replace_main: rm, last_project_id: None, group_inactive_at_end: true };
    assert_eq!(add_target_for(&s(NewTaskPos::End, false), true), AddTarget::Main);
    assert_eq!(add_target_for(&s(NewTaskPos::End, true), false), AddTarget::Main);
    assert_eq!(add_target_for(&s(NewTaskPos::End, false), false), AddTarget::End);
    assert_eq!(add_target_for(&s(NewTaskPos::Beginning, false), false), AddTarget::Beginning);
}

#[test]
fn time_ago() {
    assert_eq!(format_ago_at(100, 130), "только что");
    assert_eq!(format_ago_at(0, 120), "2 мин назад");
    assert_eq!(format_ago_at(0, 7200), "2 ч назад");
    assert_eq!(format_ago_at(0, 172800), "2 дн назад");
    assert_eq!(format_ago_at(500, 100), "только что");
}

#[test]
fn pairing_token_is_symmetric() {
    assert_eq!(deterministic_token("b", "a"), "a:b");
    assert_eq!(deterministic_token("a", "b"), "a:b");
    assert_eq!(deterministic_token("abc", "ab"), "ab:abc");
    assert_eq!(deterministic_token("x", "x"), "x:x");
}

#[test]
fn peer_lines() {
    let mut p = PeerEntry {
        device_id: "d".into(), device_name: "D".into(), token: "t".into(), ip_hint: None,
        last_synced_at: None, device_type: DeviceType::Unknown,
    };
    let st = |o: bool, e: bool, r: bool| PeerStatus { online: o, error: e, revoked: r };
    assert_eq!(peer_display_at(&p, &st(true, true, true), 0), (Indicator::Revoked, "Отключён с той стороны".to_string(), true));
    assert_eq!(peer_display_at(&p, &st(true, true, false), 0), (Indicator::Dim, "Недоступен".to_string(), true));
    assert_eq!(peer_display_at(&p, &st(true, false, false), 0), (Indicator::Online, "ожидание…".to_string(), false));
    p.last_synced_at = Some(0);
    assert_eq!(peer_display_at(&p, &st(false, false, false), 3600), (Indicator::Dim, "1 ч назад".to_string(), false));
}

#[test]
fn scan_results_leave_out_paired_devices() {
    let mut peers = Peers::new();
    peers.add(PeerEntry {
        device_id: "a".into(), device_name: "A".into(), token: "t".into(), ip_hint: None,
        last_synced_at: None, device_type: DeviceType::Unknown,
    });
    let found = vec![
        DiscoveredPeer::new("a".into(), "A".into(), DeviceType::Phone, "10.0.0.1".into(), 1),
        DiscoveredPeer::new("b".into(), "B".into(), DeviceType::Phone, "10.0.0.2".into(), 1),
    ];
    match finish_scan(found, &peers) {
        ScanState::Results(v) => {
            assert_eq!(v.len(), 1);
            assert_eq!(v[0].device_id, "b");
        },
        _ => panic!("expected results"),
    }
    let only_paired = vec![DiscoveredPeer::new("a".into(), "A".into(), DeviceType::Phone, "10.0.0.1".into(), 1)];
    assert!(matches!(finish_scan(only_paired, &peers), ScanState::Empty));
}

#[test]
fn icon_names_and_colours() {
    assert_eq!(normalize("#4A90D9"), "4a90d9");
    assert_eq!(normalize("##aB"), "ab");
    // circle pixel, letter pixel, transparent circle-coloured pixel
    let px = vec![86, 110, 146, 255, 242, 244, 247, 255, 86, 110, 146, 0];
    let mask = circle_mask(&px);
    assert_eq!(mask, vec![true, false, false]);
    let base = IconBase { width: 3, height: 1, pixels: px.clone(), mask };
    assert_eq!(generate(&base, "#102030"), vec![16, 32, 48, 255, 242, 244, 247, 255, 86, 110, 146, 0]);
    assert_eq!(generate(&base, "bad"), px);
}

#[test]
fn icon_cache_pruning() {
    let week = 604800u64;
    let now = 10 * week;
    let entries = vec![("old".to_string(), now - week - 1), ("new".to_string(), now - 5)];
    let plan = prune_plan(&entries, now);
    assert_eq!(plan.kept, vec![("new".to_string(), now - 5)]);
    assert_eq!(plan.removed, vec!["old".to_string()]);
    let many: Vec<(String, u64)> = (0..105u64).map(|i| (format!("c{i}"), now - 1000 + ((i * 37) % 105))).collect();
    let plan = prune_plan(&many, now);
    assert_eq!(plan.kept.len(), 100);
    assert_eq!(plan.removed.len(), 5);
    let oldest_kept = plan.kept.iter().map(|e| e.1).min().unwrap();
    for name in &plan.removed {
        let ts = many.iter().find(|e| &e.0 == name).unwrap().1;
        assert!(ts <= oldest_kept);
    }
}

#[test]
fn local_clock() {
    assert_eq!(local_time(1000, 3600), 4600);
    assert_eq!(local_time(1000, -5000), 0);
    let utc = SYSTEMTIME { wYear: 2024, wMonth: 2, wDayOfWeek: 0, wDay: 29, wHour: 23, wMinute: 30, wSecond: 0, wMilliseconds: 0 };
    let local = SYSTEMTIME { wYear: 2024, wMonth: 3, wDayOfWeek: 0, wDay: 1, wHour: 2, wMinute: 30, wSecond: 0, wMilliseconds: 0 };
    assert_eq!(offset_between(&local, &utc), 3 * 3600);
}

#[test]
fn scans_show_results_after_their_time() {
    assert!(!scan_done(0));
    assert!(!scan_done(1799));
    assert!(scan_done(1800));
}
