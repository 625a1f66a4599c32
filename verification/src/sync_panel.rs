//! State of the sync settings panel and what it shows for each peer.
use vstd::prelude::*;
use std::time::Instant;
use crate::direct::{text_lt, text_less, lemma_text_lt_order};
use crate::discovery::{DiscoveredPeer, DiscoveredView, discovered_view};
use crate::peers::{PeerEntry, Peers, first_with_id};
use crate::sync_state::PeerStatus;
use crate::text::{decimal, push_char, push_decimal, str_eq};
use crate::time::current_time;

verus! {

#[verifier::external_type_specification]
#[verifier::external_body]
pub struct ExInstant(Instant);

/// The network scan of the panel.
pub enum ScanState {
    Idle,
    /// Scanning since `started_at`.
    Scanning { started_at: Instant },
    Results(Vec<DiscoveredPeer>),
    Empty,
}

impl Default for ScanState {
    fn default() -> (r: Self)
        ensures
            r is Idle,
    {
        ScanState::Idle
    }
}

/// A scan shows this long, in milliseconds, before its results.
pub const SCAN_MILLIS: u128 = 1800;

/// Whether a scan that started `elapsed_millis` ago shows its results.
pub fn scan_done(elapsed_millis: u128) -> (r: bool)
    ensures
        r == (elapsed_millis >= SCAN_MILLIS),
{
    elapsed_millis >= SCAN_MILLIS
}

/// The devices a finished scan shows: those found that are not paired
/// already, in the order found.
pub open spec fn unpaired(found: Seq<DiscoveredView>, peers: Seq<PeerEntry>) -> Seq<DiscoveredView> {
    found.filter(|p: DiscoveredView| first_with_id(peers, p.device_id) >= peers.len())
}

/// Ends a scan with the devices found: `Empty` when none is left after
/// dropping the paired ones, else their list.
pub fn finish_scan(found: Vec<DiscoveredPeer>, peers: &Peers) -> (r: ScanState)
    ensures
        match r {
            ScanState::Results(v) => v@.len() > 0 && discovered_view(v@) == unpaired(discovered_view(found@), peers.list@),
            ScanState::Empty => unpaired(discovered_view(found@), peers.list@).len() == 0,
            _ => false,
        },
{
    let ghost s = discovered_view(found@);
    let ghost keep = |p: DiscoveredView| first_with_id(peers.list@, p.device_id) >= peers.list@.len();
    let mut out: Vec<DiscoveredPeer> = Vec::new();
    let mut i: usize = 0;
    while i < found.len()
        invariant
            i <= found@.len(),
            s == discovered_view(found@),
            keep == |p: DiscoveredView| first_with_id(peers.list@, p.device_id) >= peers.list@.len(),
            discovered_view(out@) == s.take(i as int).filter(keep),
        decreases found@.len() - i,
    {
        proof {
            reveal_with_fuel(Seq::<_>::filter, 1);
            assert(s.take(i + 1).drop_last() =~= s.take(i as int));
            assert(s[i as int] == found@[i as int]@);
            crate::peers::lemma_first_with_id_bounds(peers.list@, found@[i as int].device_id@);
        }
        let paired = peers.find_by_id(found[i].device_id.as_str()).is_some();
        if !paired {
            let ghost before = discovered_view(out@);
            out.push(found[i].duplicate());
            assert(discovered_view(out@) =~= before.push(s[i as int]));
        }
        i = i + 1;
    }
    assert(s.take(found@.len() as int) =~= s);
    if out.len() == 0 { ScanState::Empty } else { ScanState::Results(out) }
}

/// State of the sync settings panel: the scan, and the editable device
/// name (filled from the identity the first time the panel shows).
pub struct SyncPanelState {
    pub scan_state: ScanState,
    pub device_name_buf: String,
    pub name_initialized: bool,
}

impl SyncPanelState {
    pub fn new() -> (r: Self)
        ensures
            r.scan_state is Idle,
            r.device_name_buf@.len() == 0,
            !r.name_initialized,
    {
        SyncPanelState { scan_state: ScanState::Idle, device_name_buf: String::new(), name_initialized: false }
    }

    /// The first time the panel shows, the name field takes the device
    /// name.
    pub fn init_name(&mut self, device_name: &str)
        ensures
            final(self).name_initialized,
            !old(self).name_initialized ==> final(self).device_name_buf@ == device_name@,
            old(self).name_initialized ==> final(self).device_name_buf@ == old(self).device_name_buf@,
    {
        if !self.name_initialized {
            self.device_name_buf = device_name.to_string();
            self.name_initialized = true;
        }
    }
}

pub open spec fn ago_units(diff: int) -> (int, Seq<char>) {
    if diff < 3600 {
        (diff / 60, seq![' ', 'м', 'и', 'н', ' ', 'н', 'а', 'з', 'а', 'д'])
    } else if diff < 86400 {
        (diff / 3600, seq![' ', 'ч', ' ', 'н', 'а', 'з', 'а', 'д'])
    } else {
        (diff / 86400, seq![' ', 'д', 'н', ' ', 'н', 'а', 'з', 'а', 'д'])
    }
}

/// How long ago `ts` was at `now`: "только что" under a minute, then
/// whole minutes, hours or days.
pub open spec fn ago_spec(ts: u64, now: u64) -> Seq<char> {
    let diff: int = if now >= ts { now - ts } else { 0 };
    if diff < 60 {
        seq!['т', 'о', 'л', 'ь', 'к', 'о', ' ', 'ч', 'т', 'о']
    } else {
        decimal(ago_units(diff).0 as nat) + ago_units(diff).1
    }
}

/// How long ago `ts` was at `now`.
pub fn format_ago_at(ts: u64, now: u64) -> (r: String)
    ensures
        r@ == ago_spec(ts, now),
{
    let diff = if now >= ts { now - ts } else { 0 };
    let just = "только что";
    let min = " мин назад";
    let hours = " ч назад";
    let days = " дн назад";
    proof {
        reveal_strlit("только что");
        reveal_strlit(" мин назад");
        reveal_strlit(" ч назад");
        reveal_strlit(" дн назад");
    }
    if diff < 60 {
        let r = just.to_string();
        assert(r@ =~= ago_spec(ts, now));
        return r;
    }
    let mut s = String::new();
    if diff < 3600 {
        push_decimal(&mut s, diff / 60);
        s.append(min);
    } else if diff < 86400 {
        push_decimal(&mut s, diff / 3600);
        s.append(hours);
    } else {
        push_decimal(&mut s, diff / 86400);
        s.append(days);
    }
    assert(s@ =~= ago_spec(ts, now));
    s
}

/// How long ago `ts` was, by the clock.
pub fn format_ago(ts: u64) -> (r: String)
    ensures
        exists|now: u64| r@ == ago_spec(ts, now),
{
    format_ago_at(ts, current_time())
}

/// The pairing token of two devices: the smaller id, `:`, the larger.
pub open spec fn token_spec(a: Seq<char>, b: Seq<char>) -> Seq<char> {
    if text_lt(a, b) { a + seq![':'] + b } else { b + seq![':'] + a }
}

/// The token both sides of a pairing derive from their ids.
pub fn deterministic_token(id_a: &str, id_b: &str) -> (r: String)
    ensures
        r@ == token_spec(id_a@, id_b@),
{
    let (lo, hi) = if text_less(id_a, id_b) { (id_a, id_b) } else { (id_b, id_a) };
    let mut s = String::new();
    s.append(lo);
    push_char(&mut s, ':');
    s.append(hi);
    assert(s@ =~= token_spec(id_a@, id_b@));
    s
}

/// Both devices of a pair derive the same token, whichever side computes it.
pub proof fn lemma_token_symmetric(a: Seq<char>, b: Seq<char>)
    ensures
        token_spec(a, b) == token_spec(b, a),
{
    lemma_text_lt_order(a, b);
}

/// The dot colour next to a peer.
#[derive(Clone, Copy, PartialEq, Eq, Structural, Debug)]
pub enum Indicator {
    /// Red: the peer withdrew our token.
    Revoked,
    /// Grey: unreachable or offline.
    Dim,
    /// Green: online.
    Online,
}

/// What the peer list shows: the dot, the text under the name, and whether
/// the text is a warning.
pub open spec fn peer_display_spec(last_synced_at: Option<u64>, status: PeerStatus, now: u64) -> (Indicator, Seq<char>, bool) {
    if status.revoked {
        (Indicator::Revoked, seq!['О', 'т', 'к', 'л', 'ю', 'ч', 'ё', 'н', ' ', 'с', ' ', 'т', 'о', 'й', ' ', 'с', 'т', 'о', 'р', 'о', 'н', 'ы'], true)
    } else if status.error {
        (Indicator::Dim, seq!['Н', 'е', 'д', 'о', 'с', 'т', 'у', 'п', 'е', 'н'], true)
    } else {
        let meta = match last_synced_at {
            Some(ts) => ago_spec(ts, now),
            None => seq!['о', 'ж', 'и', 'д', 'а', 'н', 'и', 'е', '…'],
        };
        (if status.online { Indicator::Online } else { Indicator::Dim }, meta, false)
    }
}

/// What the peer list shows for `peer` at `now`.
pub fn peer_display_at(peer: &PeerEntry, status: &PeerStatus, now: u64) -> (r: (Indicator, String, bool))
    ensures
        (r.0, r.1@, r.2) == peer_display_spec(peer.last_synced_at, *status, now),
{
    let revoked = "Отключён с той стороны";
    let unreachable = "Недоступен";
    let waiting = "ожидание…";
    proof {
        reveal_strlit("Отключён с той стороны");
        reveal_strlit("Недоступен");
        reveal_strlit("ожидание…");
    }
    if status.revoked {
        let s = revoked.to_string();
        assert(s@ =~= peer_display_spec(peer.last_synced_at, *status, now).1);
        return (Indicator::Revoked, s, true);
    }
    if status.error {
        let s = unreachable.to_string();
        assert(s@ =~= peer_display_spec(peer.last_synced_at, *status, now).1);
        return (Indicator::Dim, s, true);
    }
    let meta = match peer.last_synced_at {
        Some(ts) => format_ago_at(ts, now),
        None => {
            let s = waiting.to_string();
            assert(s@ =~= seq!['о', 'ж', 'и', 'д', 'а', 'н', 'и', 'е', '…']);
            s
        },
    };
    if status.online { (Indicator::Online, meta, false) } else { (Indicator::Dim, meta, false) }
}

/// What the peer list shows for `peer`, by the clock.
pub fn peer_display(peer: &PeerEntry, status: &PeerStatus) -> (r: (Indicator, String, bool))
    ensures
        exists|now: u64| (r.0, r.1@, r.2) == peer_display_spec(peer.last_synced_at, *status, now),
{
    peer_display_at(peer, status, current_time())
}

} // verus!
