//! Devices seen on the local network by their broadcast announcements.
use vstd::prelude::*;
use std::sync::{Arc, Mutex};
use std::sync::mpsc::SyncSender;
use crate::sync_state::DeviceType;
use crate::text::{split_all, split_all_char, strs_view, str_eq};
use crate::time::current_time;

verus! {

/// UDP port of the announcements.
pub const UDP_PORT: u16 = 52683;

/// A device not heard from for longer than this many seconds is dropped
/// from the list.
pub const PEER_TTL: u64 = 10;

/// A device seen on the network.
pub struct DiscoveredPeer {
    pub device_id: String,
    pub device_name: String,
    pub device_type: DeviceType,
    pub ip: String,
    pub seen_at: u64,
}

pub ghost struct DiscoveredView {
    pub device_id: Seq<char>,
    pub device_name: Seq<char>,
    pub device_type: DeviceType,
    pub ip: Seq<char>,
    pub seen_at: u64,
}

impl View for DiscoveredPeer {
    type V = DiscoveredView;

    open spec fn view(&self) -> DiscoveredView {
        DiscoveredView {
            device_id: self.device_id@,
            device_name: self.device_name@,
            device_type: self.device_type,
            ip: self.ip@,
            seen_at: self.seen_at,
        }
    }
}

pub open spec fn discovered_view(v: Seq<DiscoveredPeer>) -> Seq<DiscoveredView> {
    v.map_values(|p: DiscoveredPeer| p@)
}

/// `now - seen_at`, or 0 for a time in the future.
pub open spec fn age(now: u64, seen_at: u64) -> int {
    if now >= seen_at { now - seen_at } else { 0 }
}

/// The peers heard from within the last `PEER_TTL` seconds, in list order.
pub open spec fn current_spec(v: Seq<DiscoveredView>, now: u64) -> Seq<DiscoveredView> {
    v.filter(|p: DiscoveredView| age(now, p.seen_at) <= PEER_TTL)
}

impl DiscoveredPeer {
    /// A device seen at `seen_at`.
    pub fn new(device_id: String, device_name: String, device_type: DeviceType, ip: String, seen_at: u64) -> (p: Self)
        ensures
            p@ == (DiscoveredView { device_id: device_id@, device_name: device_name@, device_type, ip: ip@, seen_at }),
    {
        DiscoveredPeer { device_id, device_name, device_type, ip, seen_at }
    }

    pub fn seen_at(&self) -> (r: u64)
        ensures
            r == self@.seen_at,
    {
        self.seen_at
    }

    /// A copy of the entry.
    pub fn duplicate(&self) -> (r: Self)
        ensures
            r@ == self@,
    {
        DiscoveredPeer {
            device_id: self.device_id.clone(),
            device_name: self.device_name.clone(),
            device_type: self.device_type,
            ip: self.ip.clone(),
            seen_at: self.seen_at,
        }
    }
}

/// The peers of `list` still current at `now`.
pub fn current_at(list: &Vec<DiscoveredPeer>, now: u64) -> (r: Vec<DiscoveredPeer>)
    ensures
        discovered_view(r@) == current_spec(discovered_view(list@), now),
{
    let ghost s = discovered_view(list@);
    let ghost keep = |p: DiscoveredView| age(now, p.seen_at) <= PEER_TTL;
    let mut out: Vec<DiscoveredPeer> = Vec::new();
    let mut i: usize = 0;
    while i < list.len()
        invariant
            i <= list@.len(),
            s == discovered_view(list@),
            keep == |p: DiscoveredView| age(now, p.seen_at) <= PEER_TTL,
            discovered_view(out@) == s.take(i as int).filter(keep),
        decreases list@.len() - i,
    {
        proof {
            reveal_with_fuel(Seq::<_>::filter, 1);
            assert(s.take(i + 1).drop_last() =~= s.take(i as int));
            assert(s[i as int] == list@[i as int]@);
        }
        let seen = list[i].seen_at;
        let a = if now >= seen { now - seen } else { 0 };
        if a <= PEER_TTL {
            let ghost before = discovered_view(out@);
            out.push(list[i].duplicate());
            assert(discovered_view(out@) =~= before.push(s[i as int]));
        }
        i = i + 1;
    }
    assert(s.take(list@.len() as int) =~= s);
    out
}

/// The peers of `list` still current by the clock.
pub fn current(list: &Vec<DiscoveredPeer>) -> (r: Vec<DiscoveredPeer>)
    ensures
        exists|now: u64| discovered_view(r@) == current_spec(discovered_view(list@), now),
{
    let now = current_time();
    current_at(list, now)
}

/// Position of the first entry for `id`, or the length.
pub open spec fn first_seen(s: Seq<DiscoveredView>, id: Seq<char>) -> int
    decreases s.len(),
{
    if s.len() == 0 {
        0
    } else if s[0].device_id == id {
        0
    } else {
        1 + first_seen(s.drop_first(), id)
    }
}

proof fn lemma_first_seen(s: Seq<DiscoveredView>, id: Seq<char>, i: int)
    requires
        0 <= i <= s.len(),
        forall|j: int| 0 <= j < i ==> (#[trigger] s[j]).device_id != id,
        i < s.len() ==> s[i].device_id == id,
    ensures
        first_seen(s, id) == i,
    decreases s.len(),
{
    if s.len() > 0 && s[0].device_id != id {
        assert forall|j: int| 0 <= j < i - 1 implies (#[trigger] s.drop_first()[j]).device_id != id by {
            assert(s.drop_first()[j] == s[j + 1]);
        }
        lemma_first_seen(s.drop_first(), id, i - 1);
    }
}

/// Records an announcement at `now`: the entry for the device is updated
/// in place, or a new one is appended.
pub fn upsert_at(list: &mut Vec<DiscoveredPeer>, id: String, name: String, device_type: DeviceType, ip: String, now: u64)
    ensures
        ({
            let s0 = discovered_view(old(list)@);
            let e = DiscoveredView { device_id: id@, device_name: name@, device_type, ip: ip@, seen_at: now };
            let i = first_seen(s0, id@);
            discovered_view(final(list)@) == if i < s0.len() { s0.update(i, e) } else { s0.push(e) }
        }),
{
    let ghost s0 = discovered_view(list@);
    let ghost e = DiscoveredView { device_id: id@, device_name: name@, device_type, ip: ip@, seen_at: now };
    let mut i: usize = 0;
    while i < list.len()
        invariant
            i <= list@.len(),
            s0 == discovered_view(list@),
            s0 == discovered_view(old(list)@),
            e == (DiscoveredView { device_id: id@, device_name: name@, device_type, ip: ip@, seen_at: now }),
            forall|j: int| 0 <= j < i ==> (#[trigger] s0[j]).device_id != id@,
        decreases list@.len() - i,
    {
        assert(s0[i as int] == list@[i as int]@);
        if str_eq(list[i].device_id.as_str(), id.as_str()) {
            proof { lemma_first_seen(s0, id@, i as int); }
            let np = DiscoveredPeer { device_id: id, device_name: name, device_type, ip, seen_at: now };
            assert(np@ == e);
            let ghost l0 = list@;
            list.set(i, np);
            assert(list@ == l0.update(i as int, np));
            assert forall|j: int| 0 <= j < s0.len() implies #[trigger] discovered_view(list@)[j] == s0.update(i as int, e)[j] by {
                if j != i { assert(list@[j] == l0[j]); }
            }
            assert(discovered_view(list@) =~= s0.update(i as int, e));
            return;
        }
        i = i + 1;
    }
    proof { lemma_first_seen(s0, id@, i as int); }
    list.push(DiscoveredPeer { device_id: id, device_name: name, device_type, ip, seen_at: now });
    assert(discovered_view(list@) =~= s0.push(e));
}

/// The two kinds of announcement on the local network.
#[derive(Clone, Copy, PartialEq, Eq, Structural, Debug)]
pub enum DiscoveryKind {
    /// "Who is there?"; answered with a `Pong`.
    Ping,
    /// "I am here."
    Pong,
}

/// An announcement received from `ip` at `now`: another device is recorded
/// (see `upsert_at`), this device's own echo is not. Returns whether to
/// answer with a `Pong` (every `Ping` is answered).
pub fn on_announcement(
    list: &mut Vec<DiscoveredPeer>,
    kind: DiscoveryKind,
    id: String,
    name: String,
    device_type: DeviceType,
    ip: String,
    our_id: &str,
    now: u64,
) -> (reply: bool)
    ensures
        reply == (kind == DiscoveryKind::Ping),
        id@ == our_id@ ==> final(list)@ == old(list)@,
        id@ != our_id@ ==> ({
            let s0 = discovered_view(old(list)@);
            let e = DiscoveredView { device_id: id@, device_name: name@, device_type, ip: ip@, seen_at: now };
            let i = first_seen(s0, id@);
            discovered_view(final(list)@) == if i < s0.len() { s0.update(i, e) } else { s0.push(e) }
        }),
{
    if !str_eq(id.as_str(), our_id) {
        upsert_at(list, id, name, device_type, ip, now);
    }
    kind == DiscoveryKind::Ping
}

/// One part of a dotted address: one to three digits, a number from 0 to
/// 255.
pub open spec fn is_octet(p: Seq<char>) -> bool {
    &&& 1 <= p.len() <= 3
    &&& crate::text::is_digit(p[0])
    &&& crate::text::parse_u8_spec(p) is Some
}

fn octet(p: &str) -> (r: bool)
    ensures
        r == is_octet(p@),
{
    let n = p.unicode_len();
    if n < 1 || n > 3 {
        return false;
    }
    let c = p.get_char(0);
    ('0' <= c && c <= '9') && crate::text::parse_u8(p).is_some()
}

/// The broadcast address of a /24 network: the first three dot-separated
/// parts of `ip` and 255 when `ip` reads as an address (four parts, each a
/// number from 0 to 255); otherwise, or without an address,
/// `255.255.255.255`.
pub open spec fn subnet_broadcast_spec(ip: Option<Seq<char>>) -> Seq<char> {
    let all = seq!['2', '5', '5', '.', '2', '5', '5', '.', '2', '5', '5', '.', '2', '5', '5'];
    match ip {
        None => all,
        Some(s) => {
            let p = split_all(s, '.');
            if p.len() == 4 && is_octet(p[0]) && is_octet(p[1]) && is_octet(p[2]) && is_octet(p[3]) {
                p[0] + seq!['.'] + p[1] + seq!['.'] + p[2] + seq!['.', '2', '5', '5']
            } else {
                all
            }
        },
    }
}

/// Where announcements are broadcast, derived from the local address.
pub fn subnet_broadcast(local_ip: Option<&str>) -> (r: String)
    ensures
        r@ == subnet_broadcast_spec(match local_ip { Some(s) => Some(s@), None => None }),
{
    let all = "255.255.255.255";
    let tail = ".255";
    proof {
        reveal_strlit("255.255.255.255");
        reveal_strlit(".255");
        assert(all@ =~= seq!['2', '5', '5', '.', '2', '5', '5', '.', '2', '5', '5', '.', '2', '5', '5']);
    }
    let ip = match local_ip {
        Some(s) => s,
        None => return all.to_string(),
    };
    let parts = split_all_char(ip, '.');
    assert(strs_view(parts@).len() == parts@.len());
    let readable = if parts.len() == 4 {
        proof {
            let p = split_all(ip@, '.');
            assert(p[0] == parts@[0]@ && p[1] == parts@[1]@ && p[2] == parts@[2]@ && p[3] == parts@[3]@);
        }
        octet(parts[0]) && octet(parts[1]) && octet(parts[2]) && octet(parts[3])
    } else {
        false
    };
    if readable {
        let mut out = String::new();
        out.append(parts[0]);
        crate::text::push_char(&mut out, '.');
        out.append(parts[1]);
        crate::text::push_char(&mut out, '.');
        out.append(parts[2]);
        out.append(tail);
        proof {
            let p = split_all(ip@, '.');
            assert(p[0] == parts@[0]@ && p[1] == parts@[1]@ && p[2] == parts@[2]@);
            assert(out@ =~= p[0] + seq!['.'] + p[1] + seq!['.'] + p[2] + seq!['.', '2', '5', '5']);
        }
        out
    } else {
        all.to_string()
    }
}

#[verifier::external_type_specification]
#[verifier::external_body]
#[verifier::reject_recursive_types(T)]
pub struct ExSyncSender<T>(SyncSender<T>);

#[verifier::external_type_specification]
#[verifier::external_body]
#[verifier::reject_recursive_types(T)]
pub struct ExMutex<T: ?Sized>(Mutex<T>);

/// `SyncSender::try_send` of a unit signal; a full or closed channel is
/// ignored, so nothing is promised.
#[verifier::external_body]
fn try_signal(tx: &SyncSender<()>) {
    let _ = tx.try_send(());
}

/// The running discovery: the shared list its listener fills, and the
/// channel that asks it to broadcast an announcement.
pub struct Discovery {
    pub discovered: Arc<Mutex<Vec<DiscoveredPeer>>>,
    pub ping_tx: SyncSender<()>,
}

impl Discovery {
    /// Asks the listener to broadcast an announcement now.
    pub fn send_ping(&self) {
        try_signal(&self.ping_tx);
    }
}

} // verus!
