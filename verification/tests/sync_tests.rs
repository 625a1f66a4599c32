use cue::cursors::Cursors;
use cue::keyed::Keyed;
use cue::oplog::{all_ops, ops_since, AddTarget, Op, OpKind, OpLog, SettingValue};
use cue::peers::{PeerEntry, Peers};
use cue::sync_state::{choose_lan_ip, ensure_oplog_ready, is_private_ip, poll_oplog_ready, record_local_op, DeviceType, OplogState, PeerStatus, SyncStatus};
use cue::tombstones::{TombKind, Tombstones};

fn op(id: &str, seq: u64) -> Op {
    Op {
        op_id: id.to_string(),
        device_id: "dev".to_string(),
        seq,
        ts: 100 + seq,
        kind: OpKind::DeleteProject { project_id: "p".to_string() },
    }
}

fn peer(id: &str, token: &str) -> PeerEntry {
    PeerEntry {
        device_id: id.to_string(),
        device_name: format!("name-{id}"),
        token: token.to_string(),
        ip_hint: None,
        last_synced_at: None,
        device_type: DeviceType::Unknown,
    }
}

#[test]
fn next_sequence_number_follows_the_largest() {
    assert_eq!(OpLog::from_ops(&vec![]).next_seq, 1);
    assert_eq!(OpLog::from_ops(&vec![op("a", 3), op("b", 9), op("c", 4)]).next_seq, 10);
}

#[test]
fn prepared_records_take_the_next_number() {
    let mut log = OpLog { next_seq: 7 };
    let o = log.prepare("x".into(), OpKind::RenameProject { project_id: "p".into(), name: "n".into() }, "dev", 55);
    assert_eq!(o.seq, 7);
    assert_eq!(o.device_id, "dev");
    assert_eq!(o.ts, 55);
    assert_eq!(log.next_seq, 7);
    log.commit();
    assert_eq!(log.next_seq, 8);
}

#[test]
fn selecting_operations_by_number() {
    let ops = vec![op("a", 1), op("b", 5), op("c", 3)];
    let sel: Vec<String> = ops_since(ops.clone(), 3).into_iter().map(|o| o.op_id).collect();
    assert_eq!(sel, vec!["b", "c"]);
    let all: Vec<String> = all_ops(vec![op("z", 0), op("a", 1)]).into_iter().map(|o| o.op_id).collect();
    assert_eq!(all, vec!["a"]);
}

#[test]
fn loading_log_queues_then_flushes_in_order() {
    let mut st = OplogState::Loading(Vec::new());
    let r = st.record("q1".into(), "dev".into(), 5, OpKind::DeleteProject { project_id: "p".into() });
    assert!(r.queued);
    assert_eq!(r.op.seq, 0);
    let _ = st.record("q2".into(), "dev".into(), 6, OpKind::SetSharedSetting { key: "replace_main".into(), value: SettingValue::Bool(true) });
    let written = ensure_oplog_ready(&mut st, &vec![op("old1", 4), op("old2", 2)]);
    let ids: Vec<String> = written.iter().map(|p| p.op_id.clone()).collect();
    assert_eq!(ids, vec!["q1", "q2"]);
    let seqs: Vec<u64> = written.iter().map(|p| p.seq).collect();
    assert_eq!(seqs, vec![5, 6]);
    assert_eq!(written[1].ts, 6);
    assert_eq!(written[0].device_id, "dev");
    match &st {
        OplogState::Ready { oplog, initial_ids } => {
            assert_eq!(oplog.next_seq, 7);
            assert_eq!(initial_ids, &vec!["old1".to_string(), "old2".to_string()]);
        },
        OplogState::Loading(_) => panic!("still loading"),
    }
    let again = ensure_oplog_ready(&mut st, &vec![]);
    assert!(again.is_empty());
    let r = st.record("n".into(), "dev".into(), 9, OpKind::DeleteProject { project_id: "p".into() });
    assert!(!r.queued);
    assert_eq!(r.op.seq, 7);
    st.commit();
    if let OplogState::Ready { oplog, .. } = &st {
        assert_eq!(oplog.next_seq, 8);
    }
    let mut seen = vec!["x".to_string()];
    let mut merged = false;
    poll_oplog_ready(&mut seen, &mut merged, &st);
    assert!(merged);
    assert_eq!(seen, vec!["x", "old1", "old2"]);
    poll_oplog_ready(&mut seen, &mut merged, &st);
    assert_eq!(seen.len(), 3);
}

#[test]
fn private_addresses() {
    assert!(is_private_ip("192.168.1.5"));
    assert!(is_private_ip("10.0.0.1"));
    assert!(is_private_ip("172.16.0.1"));
    assert!(is_private_ip("172.31.255.255"));
    assert!(!is_private_ip("172.32.0.1"));
    assert!(!is_private_ip("8.8.8.8"));
    assert!(!is_private_ip("192.168.1"));
    assert!(!is_private_ip("192.168.1.x"));
    assert!(!is_private_ip("192.168.1.300"));
    // parts that do not read are dropped before counting
    assert!(is_private_ip("a.10.0.0.1"));
}

#[test]
fn device_types_by_name() {
    assert_eq!(DeviceType::from_name("desktop"), DeviceType::Desktop);
    assert_eq!(DeviceType::from_name("phone"), DeviceType::Phone);
    assert_eq!(DeviceType::from_name("toaster"), DeviceType::Unknown);
    assert_eq!(DeviceType::default(), DeviceType::Unknown);
    for t in [DeviceType::Desktop, DeviceType::Phone, DeviceType::Unknown] {
        assert_eq!(DeviceType::from_name(t.name()), t);
    }
}

#[test]
fn peer_statuses_by_device() {
    let mut s = SyncStatus::default();
    assert_eq!(s.get("a"), None);
    s.set("a", PeerStatus { online: true, error: false, revoked: false });
    s.set("b", PeerStatus { online: false, error: true, revoked: false });
    s.set("a", PeerStatus { online: false, error: false, revoked: true });
    assert_eq!(s.get("a"), Some(PeerStatus { online: false, error: false, revoked: true }));
    assert_eq!(s.get("b"), Some(PeerStatus { online: false, error: true, revoked: false }));
    assert_eq!(PeerStatus::default(), PeerStatus { online: false, error: false, revoked: false });
}

#[test]
fn keyed_map_insert_get_remove() {
    let mut m: Keyed<u32> = Keyed::new();
    m.insert("a".into(), 1);
    m.insert("b".into(), 2);
    m.insert("a".into(), 3);
    assert_eq!(m.get("a"), Some(&3));
    assert_eq!(m.entries.len(), 2);
    assert_eq!(m.remove("a"), Some(3));
    assert_eq!(m.get("a"), None);
    assert_eq!(m.remove("a"), None);
    assert_eq!(m.get("b"), Some(&2));
}

#[test]
fn cursors_per_device() {
    let mut c = Cursors::new();
    assert_eq!(c.get("x"), 0);
    assert_eq!(c.min_cursor(), 0);
    c.set("x", 10);
    c.set("y", 4);
    c.set("x", 12);
    assert_eq!(c.get("x"), 12);
    assert_eq!(c.min_cursor(), 4);
    c.set_last_compact_seq(3);
    assert_eq!(c.last_compact_seq(), 3);
}

#[test]
fn tombstones_record_and_prune() {
    let mut t = Tombstones::new();
    assert_eq!(t.deleted_at("p"), None);
    t.add_project("p", 100, "dev");
    t.add_task("t", "p", 50, "dev2");
    assert_eq!(t.deleted_at("p"), Some(100));
    assert_eq!(t.deleted_at("t"), Some(50));
    let e = t.map.get("t").unwrap();
    assert_eq!(e.kind, TombKind::Task);
    assert_eq!(e.project_id.as_deref(), Some("p"));
    t.add_task("u", "p", 40, "dev2");
    t.add_task("w", "p", 30, "dev2");
    let mut seqs = Keyed::new();
    seqs.insert("t".to_string(), 7u64);
    seqs.insert("u".to_string(), 9u64);
    seqs.insert("p".to_string(), 2u64);
    // "t": old, and both peers have read its deletion (seq 7);
    // "u": old, but one peer is still at 8 < 9; "w": old, operation unknown;
    // "p": every peer has read it, but it is newer than the cutoff.
    t.prune(60, &seqs, &vec![8, 12]);
    assert_eq!(t.deleted_at("t"), None);
    assert_eq!(t.deleted_at("u"), Some(40));
    assert_eq!(t.deleted_at("w"), Some(30));
    assert_eq!(t.deleted_at("p"), Some(100));
    // With no trusted peer, every known old deletion goes.
    t.prune(60, &seqs, &vec![]);
    assert_eq!(t.deleted_at("u"), None);
    assert_eq!(t.deleted_at("w"), Some(30));
}

#[test]
fn trusted_peers() {
    let mut p = Peers::new();
    p.add(peer("a", "t1"));
    p.add(peer("b", "t2"));
    assert_eq!(p.all().len(), 2);
    assert_eq!(p.find_by_token("t2").map(|e| e.device_id.clone()), Some("b".to_string()));
    assert!(p.find_by_token("nope").is_none());
    p.add(peer("a", "t3"));
    assert_eq!(p.all().len(), 2);
    assert_eq!(p.find_by_id("a").unwrap().token, "t3");
    assert!(p.update_ip("a", "10.0.0.5".into()));
    assert!(!p.update_ip("a", "10.0.0.5".into()));
    assert!(!p.update_ip("zz", "1.1.1.1".into()));
    assert_eq!(p.find_by_id("a").unwrap().ip_hint.as_deref(), Some("10.0.0.5"));
    assert!(p.update_last_synced("b", 99));
    assert_eq!(p.find_by_id("b").unwrap().last_synced_at, Some(99));
    assert!(p.apply_hello("b", "Laptop".into(), DeviceType::Desktop));
    assert!(!p.apply_hello("b", "Laptop".into(), DeviceType::Desktop));
    assert_eq!(p.find_by_id("b").unwrap().device_name, "Laptop");
    p.remove("a");
    assert_eq!(p.all().len(), 1);
    assert_eq!(p.index_of_id("b"), Some(0));
}

#[test]
fn local_operations_are_marked_seen() {
    let mut st = OplogState::Ready { oplog: OpLog { next_seq: 3 }, initial_ids: vec![] };
    let mut seen = vec!["a".to_string()];
    let r = record_local_op(&mut st, &mut seen, "b".into(), "dev".into(), 5, OpKind::DeleteProject { project_id: "p".into() });
    assert!(!r.queued);
    assert_eq!(r.op.seq, 3);
    assert_eq!(seen, vec!["a", "b"]);
    let mut loading = OplogState::Loading(Vec::new());
    let r = record_local_op(&mut loading, &mut seen, "a".into(), "dev".into(), 6, OpKind::DeleteProject { project_id: "p".into() });
    assert!(r.queued);
    assert_eq!(seen, vec!["a", "b"]);
}

#[test]
fn cursor_reads_give_the_last_set() {
    let mut c = Cursors::new();
    c.set("a", 3);
    c.set("b", 4);
    c.set("a", 9);
    assert_eq!(c.get("a"), 9);
    assert_eq!(c.get("b"), 4);
    assert_eq!(c.get("never"), 0);
}

#[test]
fn lan_address_prefers_private_then_default_route() {
    let p = |s: &str| Some(s.to_string());
    assert_eq!(choose_lan_ip(&vec![None, p("100.64.0.2"), p("10.0.0.7"), p("8.1.1.1")]), p("10.0.0.7"));
    assert_eq!(choose_lan_ip(&vec![p("100.64.0.2"), None, p("8.1.1.1")]), p("8.1.1.1"));
    assert_eq!(choose_lan_ip(&vec![p("100.64.0.2"), None]), None);
    assert_eq!(choose_lan_ip(&vec![]), None);
}
