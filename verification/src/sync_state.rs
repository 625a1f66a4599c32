//! Sync bookkeeping: the log while it loads, device types, peer statuses,
//! and which addresses count as local network ones.
use vstd::prelude::*;
use crate::oplog::{Op, OpKind, OpKindView, OpLog, OpView, max_seq, ops_view};
use crate::keyed::Keyed;
use crate::text::{split_all, split_all_char, strs_view, parse_u8, parse_u8_spec, str_eq};

verus! {

/// An operation recorded while the log was still loading: complete but
/// for its number, which it gets when the log is ready.
pub struct PendingOp {
    pub op_id: String,
    pub device_id: String,
    pub ts: u64,
    pub kind: OpKind,
}

pub ghost struct PendingView {
    pub op_id: Seq<char>,
    pub device_id: Seq<char>,
    pub ts: u64,
    pub kind: OpKindView,
}

impl View for PendingOp {
    type V = PendingView;

    open spec fn view(&self) -> PendingView {
        PendingView { op_id: self.op_id@, device_id: self.device_id@, ts: self.ts, kind: self.kind@ }
    }
}

pub open spec fn pending_view(v: Seq<PendingOp>) -> Seq<PendingView> {
    v.map_values(|p: PendingOp| p@)
}

pub open spec fn ids_of(v: Seq<Op>) -> Seq<Seq<char>> {
    v.map_values(|o: Op| o.op_id@)
}

pub open spec fn strings_of(v: Seq<String>) -> Seq<Seq<char>> {
    v.map_values(|s: String| s@)
}

/// The local log at start-up: still loading, with the operations recorded
/// meanwhile, or ready, with the ids of the operations it already held.
pub enum OplogState {
    Loading(Vec<PendingOp>),
    Ready { oplog: OpLog, initial_ids: Vec<String> },
}

/// How a recorded operation was kept.
pub struct Recorded {
    /// The record; numbered only when `queued` is false.
    pub op: Op,
    /// True when the log is still loading and the operation waits in its
    /// queue; otherwise the record is to be written and then committed.
    pub queued: bool,
}

/// The queued operations numbered from `base` on, in queue order.
pub open spec fn numbered(q: Seq<PendingView>, base: int) -> Seq<OpView> {
    Seq::new(q.len(), |i: int| OpView {
        op_id: q[i].op_id,
        device_id: q[i].device_id,
        seq: (base + i) as u64,
        ts: q[i].ts,
        kind: q[i].kind,
    })
}

/// The number that follows the operations `existing` (1 for none).
pub open spec fn next_after(existing: Seq<Op>) -> int {
    if existing.len() == 0 { 1 } else { max_seq(ops_view(existing)) + 1 }
}

/// Turns a loading log (`state`) into a ready one that holds `existing`:
/// the operations queued meanwhile get the next numbers, in the order they
/// were recorded, and come back as the records to append to the log file,
/// in that order. A ready log stays as it is and nothing comes back.
pub fn ensure_oplog_ready(state: &mut OplogState, existing: &Vec<Op>) -> (written: Vec<Op>)
    requires
        max_seq(ops_view(existing@)) < u64::MAX,
        match *old(state) {
            OplogState::Loading(q) => next_after(existing@) + q@.len() <= u64::MAX,
            OplogState::Ready { .. } => true,
        },
    ensures
        match *old(state) {
            OplogState::Loading(q) => ops_view(written@) == numbered(pending_view(q@), next_after(existing@))
                && (match *final(state) {
                    OplogState::Ready { oplog, initial_ids } =>
                        oplog.next_seq == next_after(existing@) + q@.len()
                        && strings_of(initial_ids@) == ids_of(existing@),
                    OplogState::Loading(_) => false,
                }),
            OplogState::Ready { .. } => written@.len() == 0 && *final(state) == *old(state),
        },
{
    let mut taken = OplogState::Loading(Vec::new());
    std::mem::swap(state, &mut taken);
    let q = match taken {
        OplogState::Ready { oplog, initial_ids } => {
            *state = OplogState::Ready { oplog, initial_ids };
            return Vec::new();
        },
        OplogState::Loading(q) => q,
    };
    let mut oplog = OpLog::from_ops(existing);
    let mut ids: Vec<String> = Vec::new();
    let mut i: usize = 0;
    while i < existing.len()
        invariant
            i <= existing@.len(),
            strings_of(ids@) == ids_of(existing@).take(i as int),
        decreases existing@.len() - i,
    {
        let ghost before = ids@;
        let c = existing[i].op_id.clone();
        ids.push(c);
        assert(ids_of(existing@)[i as int] == existing@[i as int].op_id@);
        assert(strings_of(ids@) =~= strings_of(before).push(c@));
        assert(ids_of(existing@).take(i + 1) =~= ids_of(existing@).take(i as int).push(c@));
        assert(strings_of(ids@) =~= ids_of(existing@).take(i + 1));
        i = i + 1;
    }
    assert(ids_of(existing@).take(existing@.len() as int) =~= ids_of(existing@));
    let ghost base = next_after(existing@);
    let ghost pq = pending_view(q@);
    let mut written: Vec<Op> = Vec::new();
    let mut k: usize = 0;
    while k < q.len()
        invariant
            pq == pending_view(q@),
            base + q@.len() <= u64::MAX,
            k <= q@.len(),
            oplog.next_seq == base + k,
            ops_view(written@) == numbered(pq, base).take(k as int),
        decreases q@.len() - k,
    {
        let p = &q[k];
        assert(pq[k as int] == p@);
        let op = oplog.prepare(p.op_id.clone(), p.kind.duplicate(), p.device_id.as_str(), p.ts);
        oplog.commit();
        let ghost before = ops_view(written@);
        written.push(op);
        assert(ops_view(written@) =~= before.push(op@));
        assert(numbered(pq, base).take(k + 1) =~= numbered(pq, base).take(k as int).push(op@));
        k = k + 1;
    }
    assert(numbered(pq, base).take(q@.len() as int) =~= numbered(pq, base));
    *state = OplogState::Ready { oplog, initial_ids: ids };
    written
}

/// What recording an operation does: a ready log numbers it with its next
/// number and stays as it is (the number is used up by `commit`); a loading
/// log queues it and the record is numbered 0.
pub open spec fn recorded(before: OplogState, after: OplogState, r: Recorded, op_id: Seq<char>, device_id: Seq<char>, ts: u64, kind: OpKindView) -> bool {
    match before {
        OplogState::Ready { oplog, initial_ids } =>
            !r.queued && r.op@ == (OpView { op_id, device_id, seq: oplog.next_seq, ts, kind })
            && after == before,
        OplogState::Loading(q) =>
            r.queued && r.op@ == (OpView { op_id, device_id, seq: 0, ts, kind })
            && (match after {
                OplogState::Loading(q2) => pending_view(q2@) == pending_view(q@).push(
                    PendingView { op_id, device_id, ts, kind }),
                OplogState::Ready { .. } => false,
            }),
    }
}

/// Records a new operation of this device (see `OplogState::record`) and
/// marks its id as seen, so that it is not applied again when it comes back
/// from a peer.
pub fn record_local_op(
    state: &mut OplogState,
    seen: &mut Vec<String>,
    op_id: String,
    device_id: String,
    ts: u64,
    kind: OpKind,
) -> (r: Recorded)
    ensures
        recorded(*old(state), *final(state), r, op_id@, device_id@, ts, kind@),
        strings_of(final(seen)@) == if crate::apply::seen_has(old(seen)@, op_id@) {
            strings_of(old(seen)@)
        } else {
            strings_of(old(seen)@).push(op_id@)
        },
{
    let id = op_id.clone();
    if !crate::apply::seen_contains(seen, id.as_str()) {
        let ghost before = strings_of(seen@);
        seen.push(id);
        assert(strings_of(seen@) =~= before.push(op_id@));
    }
    state.record(op_id, device_id, ts, kind)
}

impl OplogState {
    /// Records operation `kind`: a ready log numbers it (write it, then
    /// `commit`); a loading log queues it and hands back a record numbered 0.
    pub fn record(&mut self, op_id: String, device_id: String, ts: u64, kind: OpKind) -> (r: Recorded)
        ensures
            recorded(*old(self), *final(self), r, op_id@, device_id@, ts, kind@),
    {
        match self {
            OplogState::Ready { oplog, .. } => {
                let op = oplog.prepare(op_id, kind, device_id.as_str(), ts);
                Recorded { op, queued: false }
            },
            OplogState::Loading(queue) => {
                let ghost q0 = pending_view(queue@);
                let p = PendingOp { op_id: op_id.clone(), device_id: device_id.clone(), ts, kind: kind.duplicate() };
                queue.push(p);
                assert(pending_view(queue@) =~= q0.push(PendingView { op_id: op_id@, device_id: device_id@, ts, kind: kind@ }));
                Recorded { op: Op { op_id, device_id, seq: 0, ts, kind }, queued: true }
            },
        }
    }

    /// The record handed out by `record` is on disk: the ready log moves on
    /// to the next number.
    pub fn commit(&mut self)
        requires
            match *old(self) {
                OplogState::Ready { oplog, .. } => oplog.next_seq < u64::MAX,
                OplogState::Loading(_) => true,
            },
        ensures
            match (*old(self), *final(self)) {
                (OplogState::Ready { oplog: a, initial_ids: i }, OplogState::Ready { oplog: b, initial_ids: j }) =>
                    b.next_seq == a.next_seq + 1 && j == i,
                (OplogState::Loading(q), s) => s == OplogState::Loading(q),
                _ => false,
            },
    {
        match self {
            OplogState::Ready { oplog, .. } => oplog.commit(),
            OplogState::Loading(_) => {},
        }
    }
}

/// Once the log is ready, adds the ids it already held to `seen` (one
/// time only: `merged` records that it happened).
pub fn poll_oplog_ready(seen: &mut Vec<String>, merged: &mut bool, state: &OplogState)
    ensures
        (!*old(merged) && state is Ready) ==> *final(merged) && strings_of(final(seen)@)
            == strings_of(old(seen)@) + strings_of(state->initial_ids@),
        (*old(merged) || state is Loading) ==> *final(merged) == *old(merged) && final(seen)@ == old(seen)@,
{
    if *merged {
        return;
    }
    match state {
        OplogState::Ready { initial_ids, .. } => {
            let ghost s0 = strings_of(seen@);
            let mut i: usize = 0;
            while i < initial_ids.len()
                invariant
                    i <= initial_ids@.len(),
                    strings_of(seen@) == s0 + strings_of(initial_ids@).take(i as int),
                decreases initial_ids@.len() - i,
            {
                let ghost before = seen@;
                let c = initial_ids[i].clone();
                seen.push(c);
                assert(strings_of(initial_ids@)[i as int] == initial_ids@[i as int]@);
                assert(strings_of(seen@) =~= strings_of(before).push(c@));
                assert(strings_of(initial_ids@).take(i + 1) =~= strings_of(initial_ids@).take(i as int).push(c@));
                assert(strings_of(seen@) =~= s0 + strings_of(initial_ids@).take(i + 1));
                i = i + 1;
            }
            assert(strings_of(initial_ids@).take(initial_ids@.len() as int) =~= strings_of(initial_ids@));
            *merged = true;
        },
        OplogState::Loading(_) => {},
    }
}

/// Kind of device, as announced by peers.
#[derive(Clone, Copy, PartialEq, Eq, Structural, Debug)]
pub enum DeviceType {
    Desktop,
    Phone,
    /// The default, and any name not known here.
    Unknown,
}

impl Default for DeviceType {
    fn default() -> (r: Self)
        ensures
            r == DeviceType::Unknown,
    {
        DeviceType::Unknown
    }
}

pub open spec fn device_type_of(s: Seq<char>) -> DeviceType {
    if s == seq!['d', 'e', 's', 'k', 't', 'o', 'p'] {
        DeviceType::Desktop
    } else if s == seq!['p', 'h', 'o', 'n', 'e'] {
        DeviceType::Phone
    } else {
        DeviceType::Unknown
    }
}

impl DeviceType {
    /// The type named `s` (`"desktop"`, `"phone"`; any other name is
    /// `Unknown`).
    pub fn from_name(s: &str) -> (r: DeviceType)
        ensures
            r == device_type_of(s@),
    {
        let desktop = "desktop";
        let phone = "phone";
        proof {
            reveal_strlit("desktop");
            reveal_strlit("phone");
            assert(desktop@ =~= seq!['d', 'e', 's', 'k', 't', 'o', 'p']);
            assert(phone@ =~= seq!['p', 'h', 'o', 'n', 'e']);
        }
        if str_eq(s, desktop) {
            DeviceType::Desktop
        } else if str_eq(s, phone) {
            DeviceType::Phone
        } else {
            DeviceType::Unknown
        }
    }

    /// The name of the type, as `from_name` reads it.
    pub fn name(&self) -> (s: &'static str)
        ensures
            device_type_of(s@) == *self,
    {
        match self {
            DeviceType::Desktop => {
                proof {
                    reveal_strlit("desktop");
                    assert("desktop"@ =~= seq!['d', 'e', 's', 'k', 't', 'o', 'p']);
                }
                "desktop"
            },
            DeviceType::Phone => {
                proof {
                    reveal_strlit("phone");
                    assert("phone"@ =~= seq!['p', 'h', 'o', 'n', 'e']);
                }
                "phone"
            },
            DeviceType::Unknown => {
                proof {
                    reveal_strlit("unknown");
                    assert("unknown"@[0] == 'u');
                    assert("unknown"@.len() == 7);
                }
                "unknown"
            },
        }
    }
}

/// Connection state of one peer.
#[derive(Clone, Copy, PartialEq, Eq, Structural, Debug)]
pub struct PeerStatus {
    pub online: bool,
    pub error: bool,
    /// The peer answered 403: it withdrew our token.
    pub revoked: bool,
}

impl Default for PeerStatus {
    fn default() -> (r: Self)
        ensures
            !r.online && !r.error && !r.revoked,
    {
        PeerStatus { online: false, error: false, revoked: false }
    }
}

/// Connection state of every peer by device id.
pub struct SyncStatus {
    pub peer_statuses: Keyed<PeerStatus>,
}

impl Default for SyncStatus {
    fn default() -> (r: Self)
        ensures
            r.peer_statuses.wf(),
            forall|k: Seq<char>| r.peer_statuses.get_spec(k) is None,
    {
        SyncStatus { peer_statuses: Keyed::new() }
    }
}

impl SyncStatus {
    /// The status of peer `id`.
    pub fn get(&self, id: &str) -> (r: Option<PeerStatus>)
        requires
            self.peer_statuses.wf(),
        ensures
            r == self.peer_statuses.get_spec(id@),
    {
        match self.peer_statuses.get(id) {
            Some(s) => Some(*s),
            None => None,
        }
    }

    /// Sets the status of peer `id`; other peers keep theirs.
    pub fn set(&mut self, id: &str, status: PeerStatus)
        requires
            old(self).peer_statuses.wf(),
        ensures
            final(self).peer_statuses.wf(),
            final(self).peer_statuses.get_spec(id@) == Some(status),
            forall|k: Seq<char>| k != id@ ==> final(self).peer_statuses.get_spec(k) == old(self).peer_statuses.get_spec(k),
    {
        self.peer_statuses.insert(id.to_string(), status);
    }
}

/// The numbers that parse among `pieces` (`filter_map(parse)`).
pub open spec fn octets(pieces: Seq<Seq<char>>) -> Seq<u8>
    decreases pieces.len(),
{
    if pieces.len() == 0 {
        Seq::empty()
    } else {
        let rest = octets(pieces.drop_last());
        match parse_u8_spec(pieces.last()) {
            Some(v) => rest.push(v),
            None => rest,
        }
    }
}

/// A private (RFC 1918) IPv4 address: 10/8, 172.16/12 or 192.168/16, read
/// as the dot-separated parts that parse as bytes, exactly four of them.
pub open spec fn is_private_spec(ip: Seq<char>) -> bool {
    let o = octets(split_all(ip, '.'));
    o.len() == 4 && (o[0] == 10 || (o[0] == 172 && 16 <= o[1] <= 31) || (o[0] == 192 && o[1] == 168))
}

/// Whether `ip` is a private local network address.
pub fn is_private_ip(ip: &str) -> (r: bool)
    ensures
        r == is_private_spec(ip@),
{
    let pieces = split_all_char(ip, '.');
    let ghost ps = strs_view(pieces@);
    let mut parts: Vec<u8> = Vec::new();
    let mut i: usize = 0;
    while i < pieces.len()
        invariant
            i <= pieces@.len(),
            ps == strs_view(pieces@),
            parts@ == octets(ps.take(i as int)),
        decreases pieces@.len() - i,
    {
        assert(ps.take(i + 1).drop_last() =~= ps.take(i as int));
        assert(ps.take(i + 1).last() == pieces@[i as int]@);
        match parse_u8(pieces[i]) {
            Some(v) => parts.push(v),
            None => {},
        }
        i = i + 1;
    }
    assert(ps.take(pieces@.len() as int) =~= ps);
    if parts.len() != 4 {
        return false;
    }
    let a = parts[0];
    let b = parts[1];
    a == 10 || (a == 172 && 16 <= b && b <= 31) || (a == 192 && b == 168)
}

/// Position of the first probe that found a private address, or the
/// number of probes.
pub open spec fn first_private(probes: Seq<Option<Seq<char>>>) -> int
    decreases probes.len(),
{
    if probes.len() == 0 {
        0
    } else if probes[0] matches Some(a) && is_private_spec(a) {
        0
    } else {
        1 + first_private(probes.drop_first())
    }
}

/// The local network address from probes towards known gateways, the
/// default route last: the first private address found; otherwise the
/// address the default route gave, if any.
pub open spec fn lan_ip_spec(probes: Seq<Option<Seq<char>>>) -> Option<Seq<char>> {
    let k = first_private(probes);
    if k < probes.len() {
        probes[k]
    } else if probes.len() > 0 {
        probes.last()
    } else {
        None
    }
}

pub open spec fn probes_view(v: Seq<Option<String>>) -> Seq<Option<Seq<char>>> {
    v.map_values(|p: Option<String>| match p { Some(a) => Some(a@), None => None })
}

/// Picks this device's local network address from the local addresses
/// that routing towards each candidate gave (`None` where the probe
/// failed), the default route's probe last (see `lan_ip_spec`).
pub fn choose_lan_ip(probes: &Vec<Option<String>>) -> (r: Option<String>)
    ensures
        match lan_ip_spec(probes_view(probes@)) {
            Some(a) => r matches Some(x) && x@ == a,
            None => r is None,
        },
{
    let ghost pv = probes_view(probes@);
    let mut i: usize = 0;
    assert(pv.skip(0) =~= pv);
    while i < probes.len()
        invariant
            pv == probes_view(probes@),
            i <= pv.len(),
            first_private(pv) == i + first_private(pv.skip(i as int)),
        decreases pv.len() - i,
    {
        assert(pv.skip(i as int)[0] == pv[i as int]);
        assert(pv.skip(i as int).drop_first() =~= pv.skip(i + 1));
        match &probes[i] {
            Some(a) => {
                if is_private_ip(a.as_str()) {
                    return Some(a.clone());
                }
            },
            None => {},
        }
        i = i + 1;
    }
    let n = probes.len();
    if n > 0 {
        match &probes[n - 1] {
            Some(a) => Some(a.clone()),
            None => None,
        }
    } else {
        None
    }
}

} // verus!
