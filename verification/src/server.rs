//! The answering side of sync: how requests are routed and checked, and
//! what pairing requests do.
use vstd::prelude::*;
use crate::peers::{PeerEntry, Peers, first_with_id, first_with_token};
use crate::sync_state::DeviceType;
use crate::text::{contains_spec, contains_str, split_all, split_all_char, split_once, split_once_char, strs_view, str_eq, parse_u64, parse_u64_spec};

verus! {

/// Port of the sync server.
pub const PORT: u16 = 52684;

/// Protocol version announced by `/1/hello`.
pub const PROTO_VER: u32 = 1;

/// A device asking to pair, waiting for the user's answer.
pub struct PairingRequest {
    pub device_id: String,
    pub device_name: String,
    pub token: String,
    pub from_ip: String,
}

/// The pairs `k=v` among the `&`-separated parts of a query, in order;
/// parts without `=` are left out.
pub open spec fn query_pairs(pieces: Seq<Seq<char>>) -> Seq<(Seq<char>, Seq<char>)>
    decreases pieces.len(),
{
    if pieces.len() == 0 {
        Seq::empty()
    } else {
        let rest = query_pairs(pieces.drop_last());
        match split_once(pieces.last(), '=') {
            Some(kv) => rest.push(kv),
            None => rest,
        }
    }
}

pub open spec fn parse_query_spec(q: Seq<char>) -> Seq<(Seq<char>, Seq<char>)> {
    query_pairs(split_all(q, '&'))
}

/// The value of `key`: the last pair with that key, as a map built from
/// the pairs in order keeps it.
pub open spec fn query_get_spec(pairs: Seq<(Seq<char>, Seq<char>)>, key: Seq<char>) -> Option<Seq<char>>
    decreases pairs.len(),
{
    if pairs.len() == 0 {
        None
    } else if pairs.last().0 == key {
        Some(pairs.last().1)
    } else {
        query_get_spec(pairs.drop_last(), key)
    }
}

pub open spec fn pairs_view<'q>(v: Seq<(&'q str, &'q str)>) -> Seq<(Seq<char>, Seq<char>)> {
    v.map_values(|p: (&'q str, &'q str)| (p.0@, p.1@))
}

/// The `key=value` pairs of a query string.
pub fn parse_query<'q>(query: &'q str) -> (r: Vec<(&'q str, &'q str)>)
    ensures
        pairs_view(r@) == parse_query_spec(query@),
{
    let pieces = split_all_char(query, '&');
    let ghost ps = strs_view(pieces@);
    let mut out: Vec<(&'q str, &'q str)> = Vec::new();
    let mut i: usize = 0;
    while i < pieces.len()
        invariant
            i <= pieces@.len(),
            ps == strs_view(pieces@),
            pairs_view(out@) == query_pairs(ps.take(i as int)),
        decreases pieces@.len() - i,
    {
        assert(ps.take(i + 1).drop_last() =~= ps.take(i as int));
        assert(ps.take(i + 1).last() == pieces@[i as int]@);
        let ghost before = out@;
        match split_once_char(pieces[i], '=') {
            Some(kv) => {
                out.push(kv);
                assert(pairs_view(out@) =~= pairs_view(before).push((kv.0@, kv.1@)));
            },
            None => {},
        }
        i = i + 1;
    }
    assert(ps.take(pieces@.len() as int) =~= ps);
    out
}

/// The value of `key` in parsed query pairs (the last one wins).
pub fn query_get<'q>(pairs: &Vec<(&'q str, &'q str)>, key: &str) -> (r: Option<&'q str>)
    ensures
        match query_get_spec(pairs_view(pairs@), key@) {
            Some(v) => r matches Some(x) && x@ == v,
            None => r is None,
        },
{
    let ghost pv = pairs_view(pairs@);
    let mut i: usize = pairs.len();
    assert(pv.take(i as int) =~= pv);
    while i > 0
        invariant
            i <= pairs@.len(),
            pv == pairs_view(pairs@),
            query_get_spec(pv, key@) == query_get_spec(pv.take(i as int), key@),
        decreases i,
    {
        let ghost t = pv.take(i as int);
        assert(t.drop_last() =~= pv.take(i - 1));
        assert(t.last() == (pairs@[i - 1].0@, pairs@[i - 1].1@));
        if str_eq(pairs[i - 1].0, key) {
            return Some(pairs[i - 1].1);
        }
        i = i - 1;
    }
    None
}

/// A request is let in when its `token` parameter is non-empty and
/// belongs to a trusted peer.
pub open spec fn authed_spec(pairs: Seq<(Seq<char>, Seq<char>)>, peers: Seq<PeerEntry>) -> bool {
    let token = match query_get_spec(pairs, seq!['t', 'o', 'k', 'e', 'n']) {
        Some(t) => t,
        None => Seq::empty(),
    };
    token.len() > 0 && first_with_token(peers, token) < peers.len()
}

/// Whether the request's token belongs to a trusted peer.
pub fn authed(params: &Vec<(&str, &str)>, peers: &Peers) -> (r: bool)
    ensures
        r == authed_spec(pairs_view(params@), peers.list@),
{
    let key = "token";
    proof {
        reveal_strlit("token");
        assert(key@ =~= seq!['t', 'o', 'k', 'e', 'n']);
    }
    let token = match query_get(params, key) {
        Some(t) => t,
        None => "",
    };
    proof { reveal_strlit(""); }
    if token.unicode_len() == 0 {
        return false;
    }
    peers.find_by_token(token).is_some()
}

/// Request methods the server answers.
#[derive(Clone, Copy, PartialEq, Eq, Structural, Debug)]
pub enum HttpMethod {
    Get,
    Post,
    Other,
}

/// What a request asks for.
#[derive(Clone, Copy, PartialEq, Eq, Structural, Debug)]
pub enum Route {
    Hello,
    Ops,
    RequestSync,
    AcceptSync,
    PingSync,
    NotFound,
}

pub open spec fn route_spec(m: HttpMethod, path: Seq<char>) -> Route {
    if m == HttpMethod::Get && path == seq!['/', '1', '/', 'h', 'e', 'l', 'l', 'o'] {
        Route::Hello
    } else if m == HttpMethod::Get && path == seq!['/', '1', '/', 'o', 'p', 's'] {
        Route::Ops
    } else if m == HttpMethod::Post && path == seq!['/', '1', '/', 'r', 'e', 'q', 'u', 'e', 's', 't', '_', 's', 'y', 'n', 'c'] {
        Route::RequestSync
    } else if m == HttpMethod::Post && path == seq!['/', '1', '/', 'a', 'c', 'c', 'e', 'p', 't', '_', 's', 'y', 'n', 'c'] {
        Route::AcceptSync
    } else if m == HttpMethod::Post && path == seq!['/', '1', '/', 'p', 'i', 'n', 'g', '_', 's', 'y', 'n', 'c'] {
        Route::PingSync
    } else {
        Route::NotFound
    }
}

/// Which handler answers `method` on `path`.
pub fn route(method: HttpMethod, path: &str) -> (r: Route)
    ensures
        r == route_spec(method, path@),
{
    let hello = "/1/hello";
    let ops = "/1/ops";
    let req = "/1/request_sync";
    let acc = "/1/accept_sync";
    let ping = "/1/ping_sync";
    proof {
        reveal_strlit("/1/hello");
        reveal_strlit("/1/ops");
        reveal_strlit("/1/request_sync");
        reveal_strlit("/1/accept_sync");
        reveal_strlit("/1/ping_sync");
        assert(hello@ =~= seq!['/', '1', '/', 'h', 'e', 'l', 'l', 'o']);
        assert(ops@ =~= seq!['/', '1', '/', 'o', 'p', 's']);
        assert(req@ =~= seq!['/', '1', '/', 'r', 'e', 'q', 'u', 'e', 's', 't', '_', 's', 'y', 'n', 'c']);
        assert(acc@ =~= seq!['/', '1', '/', 'a', 'c', 'c', 'e', 'p', 't', '_', 's', 'y', 'n', 'c']);
        assert(ping@ =~= seq!['/', '1', '/', 'p', 'i', 'n', 'g', '_', 's', 'y', 'n', 'c']);
    }
    match method {
        HttpMethod::Get => {
            if str_eq(path, hello) {
                Route::Hello
            } else if str_eq(path, ops) {
                Route::Ops
            } else {
                Route::NotFound
            }
        },
        HttpMethod::Post => {
            if str_eq(path, req) {
                Route::RequestSync
            } else if str_eq(path, acc) {
                Route::AcceptSync
            } else if str_eq(path, ping) {
                Route::PingSync
            } else {
                Route::NotFound
            }
        },
        HttpMethod::Other => Route::NotFound,
    }
}

/// A request URL split into its path and its query (empty without `?`).
pub fn split_path_query(raw: &str) -> (r: (&str, &str))
    ensures
        match split_once(raw@, '?') {
            Some((p, q)) => r.0@ == p && r.1@ == q,
            None => r.0@ == raw@ && r.1@ == Seq::<char>::empty(),
        },
{
    match split_once_char(raw, '?') {
        Some(pq) => pq,
        None => {
            proof { reveal_strlit(""); }
            (raw, "")
        },
    }
}

/// From which number `/1/ops` serves: the `since` parameter, 1 when it is
/// missing or not a number.
pub fn serve_since(params: &Vec<(&str, &str)>) -> (r: u64)
    ensures
        r == match query_get_spec(pairs_view(params@), seq!['s', 'i', 'n', 'c', 'e']) {
            Some(v) => match parse_u64_spec(v) {
                Some(n) => n,
                None => 1,
            },
            None => 1,
        },
{
    let key = "since";
    proof {
        reveal_strlit("since");
        assert(key@ =~= seq!['s', 'i', 'n', 'c', 'e']);
    }
    match query_get(params, key) {
        Some(v) => match parse_u64(v) {
            Some(n) => n,
            None => 1,
        },
        None => 1,
    }
}

/// The log lines numbered `since` or later (lines that did not read as an
/// operation carry no number and are left out).
pub open spec fn served_lines(lines: Seq<(Seq<char>, Option<u64>)>, since: u64) -> Seq<Seq<char>>
    decreases lines.len(),
{
    if lines.len() == 0 {
        Seq::empty()
    } else {
        let rest = served_lines(lines.drop_last(), since);
        match lines.last().1 {
            Some(q) => if q >= since { rest.push(lines.last().0) } else { rest },
            None => rest,
        }
    }
}

/// Lines joined with line feeds between them.
pub open spec fn join_lines(ls: Seq<Seq<char>>) -> Seq<char>
    decreases ls.len(),
{
    if ls.len() == 0 {
        Seq::empty()
    } else if ls.len() == 1 {
        ls[0]
    } else {
        join_lines(ls.drop_last()) + seq!['\n'] + ls.last()
    }
}

pub open spec fn lines_view(v: Seq<(String, Option<u64>)>) -> Seq<(Seq<char>, Option<u64>)> {
    v.map_values(|l: (String, Option<u64>)| (l.0@, l.1))
}

/// The body `/1/ops` answers: the selected lines joined by line feeds.
pub fn ops_body(lines: &Vec<(String, Option<u64>)>, since: u64) -> (r: String)
    ensures
        r@ == join_lines(served_lines(lines_view(lines@), since)),
{
    let ghost lv = lines_view(lines@);
    let mut out = String::new();
    let mut count: usize = 0;
    let mut i: usize = 0;
    while i < lines.len()
        invariant
            i <= lines@.len(),
            lv == lines_view(lines@),
            out@ == join_lines(served_lines(lv.take(i as int), since)),
            count as int == served_lines(lv.take(i as int), since).len(),
            count <= i,
        decreases lines@.len() - i,
    {
        let ghost sel = served_lines(lv.take(i as int), since);
        assert(lv.take(i + 1).drop_last() =~= lv.take(i as int));
        assert(lv.take(i + 1).last() == (lines@[i as int].0@, lines@[i as int].1));
        let take = match lines[i].1 {
            Some(q) => q >= since,
            None => false,
        };
        if take {
            if count > 0 {
                push_char_line(&mut out);
            }
            out.append(lines[i].0.as_str());
            proof {
                let sel2 = sel.push(lines@[i as int].0@);
                assert(sel2.drop_last() =~= sel);
                if sel.len() == 0 {
                    assert(out@ =~= join_lines(sel2));
                }
            }
            count = count + 1;
        }
        i = i + 1;
    }
    assert(lv.take(lines@.len() as int) =~= lv);
    out
}

fn push_char_line(out: &mut String)
    ensures
        final(out)@ == old(out)@ + seq!['\n'],
{
    crate::text::push_char(out, '\n');
    assert(out@ =~= old(out)@ + seq!['\n']);
}

/// HTTP status of an answer to a pairing request.
pub open spec fn request_sync_status(known: bool) -> u16 {
    if known { 200 } else { 202 }
}

/// A device asks to pair. A device already trusted is answered 200 and
/// nothing changes; otherwise the request waits for the user (appended to
/// `pending`) and the answer is 202.
pub fn request_sync(peers: &Peers, pending: &mut Vec<PairingRequest>, req: PairingRequest) -> (status: u16)
    ensures
        status == request_sync_status(first_with_id(peers.list@, req.device_id@) < peers.list@.len()),
        first_with_id(peers.list@, req.device_id@) < peers.list@.len() ==> final(pending)@ == old(pending)@,
        first_with_id(peers.list@, req.device_id@) >= peers.list@.len() ==> final(pending)@ == old(pending)@.push(req),
{
    if peers.find_by_id(req.device_id.as_str()).is_some() {
        return 200;
    }
    pending.push(req);
    202
}

/// The peer entry made when a pairing is accepted: known at `from_ip`,
/// never synced, of unknown type.
pub open spec fn accepted_entry(e: PeerEntry, device_id: String, device_name: String, token: String, from_ip: String) -> bool {
    e.device_id == device_id && e.device_name == device_name && e.token == token
        && e.ip_hint == Some(from_ip) && e.last_synced_at is None && e.device_type == DeviceType::Unknown
}

/// The other side accepted our pairing: it becomes a trusted peer.
pub fn accept_sync(peers: &mut Peers, device_id: String, device_name: String, token: String, from_ip: String)
    ensures
        ({
            let i = first_with_id(old(peers).list@, device_id@);
            &&& final(peers).list@.len() == if i < old(peers).list@.len() { old(peers).list@.len() } else { old(peers).list@.len() + 1 }
            &&& accepted_entry(final(peers).list@[if i < old(peers).list@.len() { i } else { old(peers).list@.len() as int }],
                device_id, device_name, token, from_ip)
            &&& forall|j: int| 0 <= j < old(peers).list@.len() && j != i ==> final(peers).list@[j] == old(peers).list@[j]
        }),
{
    proof { crate::peers::lemma_first_with_id_bounds(peers.list@, device_id@); }
    let entry = PeerEntry {
        device_id,
        device_name,
        token,
        ip_hint: Some(from_ip),
        last_synced_at: None,
        device_type: DeviceType::Unknown,
    };
    peers.add(entry);
}

/// The user turns down the pairing requests of `device_id`: they leave the
/// waiting list; the others stay, in order.
pub fn reject_pairing(pending: &mut Vec<PairingRequest>, device_id: &str)
    ensures
        final(pending)@ == old(pending)@.filter(|r: PairingRequest| r.device_id@ != device_id@),
{
    let ghost v0 = pending@;
    let ghost keep = |r: PairingRequest| r.device_id@ != device_id@;
    let mut rest: Vec<PairingRequest> = Vec::new();
    std::mem::swap(&mut rest, pending);
    let mut kept: Vec<PairingRequest> = Vec::new();
    let mut i: usize = 0;
    assert(v0.take(0).filter(keep) =~= kept@);
    assert(v0.len() == rest.len());
    while rest.len() > 0
        invariant
            v0.len() <= usize::MAX,
            i + rest@.len() == v0.len(),
            rest@ == v0.skip(i as int),
            kept@ == v0.take(i as int).filter(keep),
            keep == |r: PairingRequest| r.device_id@ != device_id@,
        decreases rest@.len(),
    {
        let e = rest.remove(0);
        proof {
            assert(e == v0[i as int]);
            assert(rest@ =~= v0.skip(i + 1));
            reveal_with_fuel(Seq::<_>::filter, 1);
            assert(v0.take(i + 1).drop_last() =~= v0.take(i as int));
            assert(v0.take(i + 1).last() == v0[i as int]);
        }
        if !str_eq(e.device_id.as_str(), device_id) {
            kept.push(e);
        }
        i = i + 1;
    }
    assert(v0.take(v0.len() as int) =~= v0);
    *pending = kept;
}

/// The user accepts a pending pairing request: its device becomes a trusted
/// peer (as in `accept_sync`, at the address the request came from) and its
/// requests leave the waiting list.
pub fn accept_pairing(peers: &mut Peers, pending: &mut Vec<PairingRequest>, req: &PairingRequest)
    ensures
        ({
            let i = first_with_id(old(peers).list@, req.device_id@);
            &&& final(peers).list@.len() == if i < old(peers).list@.len() { old(peers).list@.len() } else { old(peers).list@.len() + 1 }
            &&& accepted_entry(final(peers).list@[if i < old(peers).list@.len() { i } else { old(peers).list@.len() as int }],
                req.device_id, req.device_name, req.token, req.from_ip)
            &&& forall|j: int| 0 <= j < old(peers).list@.len() && j != i ==> final(peers).list@[j] == old(peers).list@[j]
        }),
        final(pending)@ == old(pending)@.filter(|r: PairingRequest| r.device_id@ != req.device_id@),
{
    accept_sync(peers, req.device_id.clone(), req.device_name.clone(), req.token.clone(), req.from_ip.clone());
    reject_pairing(pending, req.device_id.as_str());
}

/// Port of the background scheduler's control server.
pub const CONTROL_PORT: u16 = 52684;

/// The control server's answer to a request, and whether it lets go of its
/// port afterwards.
pub open spec fn control_spec(m: HttpMethod, path: Seq<char>, query: Seq<char>, loopback: bool) -> (u16, bool) {
    if m == HttpMethod::Get && path == seq!['/', '1', '/', 'c', 'o', 'n', 't', 'r', 'o', 'l']
        && contains_spec(query, seq!['c', 'm', 'd', '=', 'y', 'i', 'e', 'l', 'd']) {
        if loopback { (200, true) } else { (403, false) }
    } else {
        (404, false)
    }
}

/// A request to the control server: `GET /1/control?cmd=yield` from this
/// machine makes the scheduler give up its port (200); from elsewhere it
/// is refused (403); anything else is not found (404).
pub fn control_request(m: HttpMethod, path: &str, query: &str, loopback: bool) -> (r: (u16, bool))
    ensures
        r == control_spec(m, path@, query@, loopback),
{
    let control = "/1/control";
    let cmd = "cmd=yield";
    proof {
        reveal_strlit("/1/control");
        reveal_strlit("cmd=yield");
        assert(control@ =~= seq!['/', '1', '/', 'c', 'o', 'n', 't', 'r', 'o', 'l']);
        assert(cmd@ =~= seq!['c', 'm', 'd', '=', 'y', 'i', 'e', 'l', 'd']);
    }
    if m == HttpMethod::Get && str_eq(path, control) && contains_str(query, cmd) {
        if loopback { (200, true) } else { (403, false) }
    } else {
        (404, false)
    }
}

} // verus!
