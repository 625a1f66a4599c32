use cue::discovery::{current_at, on_announcement, subnet_broadcast, upsert_at, DiscoveredPeer, DiscoveryKind};
use cue::engine::{
    classify_response, first_line_of, hello_url, next_cursor, notify_urls, ops_url, parse_url, ping_url, pull_urls,
    status_after_pull, PullError,
};
use cue::cursors::Cursors;
use cue::identity::{device_name, DeviceIdentity};
use cue::oplog::{Op, OpKind};
use cue::peers::{PeerEntry, Peers};
use cue::server::{
    accept_pairing, accept_sync, authed, reject_pairing, control_request, ops_body, parse_query, query_get, request_sync, route, serve_since,
    split_path_query, HttpMethod, PairingRequest, Route,
};
use cue::sync_state::DeviceType;

fn peer(id: &str, token: &str) -> PeerEntry {
    PeerEntry {
        device_id: id.to_string(),
        device_name: id.to_string(),
        token: token.to_string(),
        ip_hint: None,
        last_synced_at: None,
        device_type: DeviceType::Unknown,
    }
}

#[test]
fn urls_split_into_host_and_path() {
    let (h, p) = parse_url("http://1.2.3.4:52684/1/ops?since=3").unwrap();
    assert_eq!(h, "1.2.3.4:52684");
    assert_eq!(p, "/1/ops?since=3");
    let (h, p) = parse_url("http://host").unwrap();
    assert_eq!(h, "host");
    assert_eq!(p, "/");
    assert!(parse_url("ftp://x/y").is_err());
}

#[test]
fn request_urls() {
    assert_eq!(ops_url("10.0.0.2", 52684, 5, "tok"), "http://10.0.0.2:52684/1/ops?since=5&token=tok");
    assert_eq!(hello_url("10.0.0.2", 52684), "http://10.0.0.2:52684/1/hello");
    assert_eq!(ping_url("10.0.0.2", 80, "t"), "http://10.0.0.2:80/1/ping_sync?token=t");
}

#[test]
fn reading_http_answers() {
    assert_eq!(first_line_of("HTTP/1.0 200 OK\r\nX: y"), "HTTP/1.0 200 OK");
    assert_eq!(first_line_of(""), "");
    assert_eq!(classify_response("HTTP/1.0 200 OK\r\nX: y\r\n\r\nline1\nline2"), Ok("line1\nline2".to_string()));
    assert_eq!(classify_response("HTTP/1.1 403 Forbidden\r\n\r\n"), Err(PullError::Revoked));
    assert_eq!(classify_response("HTTP/1.0 500 Oops\r\n\r\nx"), Err(PullError::Unavailable));
    assert_eq!(classify_response("HTTP/1.0 200"), Ok(String::new()));
    assert_eq!(classify_response(""), Err(PullError::Unavailable));
}

#[test]
fn status_and_cursor_after_a_pull() {
    let ok: Result<String, PullError> = Ok(String::new());
    assert!(status_after_pull(&ok).online);
    assert!(status_after_pull(&Err(PullError::Revoked)).revoked);
    assert!(status_after_pull(&Err(PullError::Unavailable)).error);
    assert_eq!(next_cursor(&vec![]), None);
    let mk = |seq: u64| Op { op_id: "o".into(), device_id: "d".into(), seq, ts: 0, kind: OpKind::DeleteProject { project_id: "p".into() } };
    assert_eq!(next_cursor(&vec![mk(3), mk(8), mk(5)]), Some(8));
}

#[test]
fn query_strings() {
    let q = parse_query("since=5&token=abc&flag");
    assert_eq!(q, vec![("since", "5"), ("token", "abc")]);
    assert_eq!(query_get(&q, "token"), Some("abc"));
    assert_eq!(query_get(&q, "nope"), None);
    let q2 = parse_query("a=1&a=2");
    assert_eq!(query_get(&q2, "a"), Some("2"));
    assert_eq!(serve_since(&parse_query("since=42")), 42);
    assert_eq!(serve_since(&parse_query("since=x")), 1);
    assert_eq!(serve_since(&parse_query("")), 1);
}

#[test]
fn authentication_by_token() {
    let mut peers = Peers::new();
    peers.add(peer("a", "secret"));
    assert!(authed(&parse_query("token=secret"), &peers));
    assert!(!authed(&parse_query("token=other"), &peers));
    assert!(!authed(&parse_query("token="), &peers));
    assert!(!authed(&parse_query(""), &peers));
}

#[test]
fn routing() {
    assert_eq!(route(HttpMethod::Get, "/1/hello"), Route::Hello);
    assert_eq!(route(HttpMethod::Get, "/1/ops"), Route::Ops);
    assert_eq!(route(HttpMethod::Post, "/1/request_sync"), Route::RequestSync);
    assert_eq!(route(HttpMethod::Post, "/1/accept_sync"), Route::AcceptSync);
    assert_eq!(route(HttpMethod::Post, "/1/ping_sync"), Route::PingSync);
    assert_eq!(route(HttpMethod::Post, "/1/ops"), Route::NotFound);
    assert_eq!(route(HttpMethod::Other, "/1/hello"), Route::NotFound);
    assert_eq!(split_path_query("/1/ops?since=2"), ("/1/ops", "since=2"));
    assert_eq!(split_path_query("/1/hello"), ("/1/hello", ""));
}

#[test]
fn serving_log_lines() {
    let lines = vec![
        ("l1".to_string(), Some(1)),
        ("junk".to_string(), None),
        ("l3".to_string(), Some(3)),
        ("l4".to_string(), Some(4)),
    ];
    assert_eq!(ops_body(&lines, 3), "l3\nl4");
    assert_eq!(ops_body(&lines, 1), "l1\nl3\nl4");
    assert_eq!(ops_body(&lines, 9), "");
}

#[test]
fn pairing_requests() {
    let mut peers = Peers::new();
    peers.add(peer("known", "t"));
    let mut pending = Vec::new();
    let req = |id: &str| PairingRequest { device_id: id.into(), device_name: "N".into(), token: "tok".into(), from_ip: "10.0.0.9".into() };
    assert_eq!(request_sync(&peers, &mut pending, req("known")), 200);
    assert!(pending.is_empty());
    assert_eq!(request_sync(&peers, &mut pending, req("new")), 202);
    assert_eq!(pending.len(), 1);
    accept_sync(&mut peers, "new".into(), "New".into(), "tok".into(), "10.0.0.9".into());
    let e = peers.find_by_id("new").unwrap();
    assert_eq!(e.ip_hint.as_deref(), Some("10.0.0.9"));
    assert_eq!(e.last_synced_at, None);
    assert_eq!(peers.all().len(), 2);
}

#[test]
fn control_requests() {
    assert_eq!(control_request(HttpMethod::Get, "/1/control", "cmd=yield", true), (200, true));
    assert_eq!(control_request(HttpMethod::Get, "/1/control", "x=1&cmd=yield", false), (403, false));
    assert_eq!(control_request(HttpMethod::Get, "/1/control", "cmd=stay", true), (404, false));
    assert_eq!(control_request(HttpMethod::Post, "/1/control", "cmd=yield", true), (404, false));
}

#[test]
fn broadcast_addresses() {
    assert_eq!(subnet_broadcast(Some("192.168.1.37")), "192.168.1.255");
    assert_eq!(subnet_broadcast(None), "255.255.255.255");
    assert_eq!(subnet_broadcast(Some("abc")), "255.255.255.255");
    assert_eq!(subnet_broadcast(Some("abc.def.ghi.jkl")), "255.255.255.255");
    assert_eq!(subnet_broadcast(Some("10.0.0.256")), "255.255.255.255");
    assert_eq!(subnet_broadcast(Some("10.+1.0.5")), "255.255.255.255");
    assert_eq!(subnet_broadcast(Some("10.0..5")), "255.255.255.255");
    assert_eq!(subnet_broadcast(Some("10.0.0.255")), "10.0.0.255");
}

#[test]
fn discovered_devices_expire() {
    let mut list = Vec::new();
    upsert_at(&mut list, "a".into(), "A".into(), DeviceType::Phone, "10.0.0.1".into(), 100);
    upsert_at(&mut list, "b".into(), "B".into(), DeviceType::Desktop, "10.0.0.2".into(), 105);
    upsert_at(&mut list, "a".into(), "A2".into(), DeviceType::Phone, "10.0.0.3".into(), 108);
    assert_eq!(list.len(), 2);
    assert_eq!(list[0].ip, "10.0.0.3");
    assert_eq!(list[0].seen_at(), 108);
    let now_current: Vec<String> = current_at(&list, 116).iter().map(|p| p.device_id.clone()).collect();
    assert_eq!(now_current, vec!["a"]);
    let later: Vec<DiscoveredPeer> = current_at(&list, 200);
    assert!(later.is_empty());
}

fn pairing(id: &str, ip: &str) -> PairingRequest {
    PairingRequest { device_id: id.to_string(), device_name: format!("{} name", id), token: "tk".to_string(), from_ip: ip.to_string() }
}

#[test]
fn rejecting_a_pairing_drops_its_requests() {
    let mut pending = vec![pairing("a", "1"), pairing("b", "2"), pairing("a", "3")];
    reject_pairing(&mut pending, "a");
    assert_eq!(pending.len(), 1);
    assert_eq!(pending[0].device_id, "b");
    reject_pairing(&mut pending, "zz");
    assert_eq!(pending.len(), 1);
}

#[test]
fn accepting_a_pairing_trusts_the_device() {
    let mut peers = Peers { list: vec![peer("x", "t1")] };
    let mut pending = vec![pairing("a", "10.0.0.9"), pairing("b", "10.0.0.8")];
    let req = pairing("a", "10.0.0.9");
    accept_pairing(&mut peers, &mut pending, &req);
    assert_eq!(peers.list.len(), 2);
    assert_eq!(peers.list[1].device_id, "a");
    assert_eq!(peers.list[1].ip_hint.as_deref(), Some("10.0.0.9"));
    assert_eq!(peers.list[1].last_synced_at, None);
    assert_eq!(pending.len(), 1);
    assert_eq!(pending[0].device_id, "b");
}

fn peer_at(id: &str, token: &str, ip: Option<&str>) -> PeerEntry {
    let mut p = peer(id, token);
    p.ip_hint = ip.map(|s| s.to_string());
    p
}

#[test]
fn notifying_skips_peers_without_address() {
    let peers = Peers { list: vec![peer_at("a", "ta", Some("10.0.0.1")), peer_at("b", "tb", None), peer_at("c", "tc", Some("10.0.0.3"))] };
    assert_eq!(
        notify_urls(&peers, 52684),
        vec!["http://10.0.0.1:52684/1/ping_sync?token=ta", "http://10.0.0.3:52684/1/ping_sync?token=tc"]
    );
    assert!(notify_urls(&Peers { list: vec![] }, 1).is_empty());
}

#[test]
fn pulling_starts_after_each_cursor() {
    let peers = Peers { list: vec![peer_at("a", "ta", Some("10.0.0.1")), peer_at("b", "tb", None), peer_at("c", "tc", Some("h"))] };
    let mut cursors = Cursors::new();
    cursors.set("c", 17);
    let got = pull_urls(&peers, &cursors, 80);
    assert_eq!(
        got,
        vec![
            ("a".to_string(), "http://10.0.0.1:80/1/ops?since=0&token=ta".to_string()),
            ("c".to_string(), "http://h:80/1/ops?since=17&token=tc".to_string()),
        ]
    );
}

#[test]
fn device_name_prefers_system_names() {
    assert_eq!(device_name(Some("PC".to_string()), Some("host"), None), "PC");
    assert_eq!(device_name(None, Some("  box\n"), Some("var".to_string())), "box");
    assert_eq!(device_name(None, Some(" \n"), Some("var".to_string())), "var");
    assert_eq!(device_name(None, None, None), "Cue Device");
}

#[test]
fn stored_identity_is_kept() {
    let stored = DeviceIdentity { device_id: "id1".to_string(), device_name: "old".to_string() };
    let r = DeviceIdentity::load_or_create(Some(stored), "id2".to_string(), "new".to_string());
    assert_eq!(r.device_id, "id1");
    assert_eq!(r.device_name, "old");
    let r = DeviceIdentity::load_or_create(None, "id2".to_string(), "new".to_string());
    assert_eq!(r.device_id, "id2");
    assert_eq!(r.device_name, "new");
}

#[test]
fn announcements_record_others_and_answer_pings() {
    let mut list: Vec<DiscoveredPeer> = vec![];
    assert!(on_announcement(&mut list, DiscoveryKind::Ping, "me".to_string(), "Me".to_string(), DeviceType::Unknown, "1.1.1.1".to_string(), "me", 5));
    assert!(list.is_empty());
    assert!(!on_announcement(&mut list, DiscoveryKind::Pong, "x".to_string(), "X".to_string(), DeviceType::Unknown, "1.1.1.2".to_string(), "me", 6));
    assert_eq!(list.len(), 1);
    assert_eq!(list[0].ip, "1.1.1.2");
    assert!(on_announcement(&mut list, DiscoveryKind::Ping, "x".to_string(), "X2".to_string(), DeviceType::Unknown, "1.1.1.3".to_string(), "me", 7));
    assert_eq!(list.len(), 1);
    assert_eq!(list[0].device_name, "X2");
    assert_eq!(list[0].seen_at, 7);
}
