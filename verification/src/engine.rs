//! The pulling side of sync: the addresses it asks, how it reads an HTTP
//! answer, and what it records afterwards.
use vstd::prelude::*;
use vstd::string::*;
use crate::oplog::{Op, max_seq, ops_view};
use crate::sync_state::PeerStatus;
use crate::text::{
    decimal, push_char, push_decimal, index_of, split_once, split_once_char, find_char,
    contains_spec, ends_with_spec, starts_with_spec, first_occurrence,
    contains_str, ends_with_str, starts_with_str, find_sub,
};

verus! {

/// Why a pull failed.
#[derive(Clone, Copy, PartialEq, Eq, Structural, Debug)]
pub enum PullError {
    /// The peer answered 403: it withdrew our token.
    Revoked,
    /// Any other connection or protocol failure.
    Unavailable,
}

/// A URL that is not `http://…`.
#[derive(Clone, Copy, PartialEq, Eq, Structural, Debug)]
pub struct UrlError;

pub open spec fn http_prefix() -> Seq<char> {
    seq!['h', 't', 't', 'p', ':', '/', '/']
}

/// Host and port, and the path with its query, of an `http://` URL.
pub open spec fn parse_url_spec(url: Seq<char>) -> Option<(Seq<char>, Seq<char>)> {
    if starts_with_spec(url, http_prefix()) {
        let rest = url.skip(7);
        match split_once(rest, '/') {
            Some((h, t)) => Some((h, seq!['/'] + t)),
            None => Some((rest, seq!['/'])),
        }
    } else {
        None
    }
}

/// Splits an `http://host:port/path?query` URL into `host:port` and
/// `/path?query`.
pub fn parse_url(url: &str) -> (r: Result<(&str, String), UrlError>)
    ensures
        match parse_url_spec(url@) {
            Some((h, p)) => r matches Ok(q) && q.0@ == h && q.1@ == p,
            None => r is Err,
        },
{
    let prefix = "http://";
    proof {
        reveal_strlit("http://");
        assert(prefix@ =~= http_prefix());
    }
    if !starts_with_str(url, prefix) {
        return Err(UrlError);
    }
    let n = url.unicode_len();
    let rest = url.substring_char(7, n);
    assert(rest@ =~= url@.skip(7));
    let mut path = String::new();
    push_char(&mut path, '/');
    match split_once_char(rest, '/') {
        Some((host, tail)) => {
            path.append(tail);
            Ok((host, path))
        },
        None => Ok((rest, path)),
    }
}

/// The first line of a text, as `str::lines` gives it: up to the first
/// line feed, a carriage return before it dropped.
pub open spec fn first_line(s: Seq<char>) -> Seq<char> {
    let i = index_of(s, '\n');
    if i < s.len() {
        let l = s.subrange(0, i);
        if l.len() > 0 && l.last() == '\r' { l.drop_last() } else { l }
    } else {
        s
    }
}

pub open spec fn status_403() -> Seq<char> {
    seq![' ', '4', '0', '3']
}

pub open spec fn status_200() -> Seq<char> {
    seq![' ', '2', '0', '0']
}

pub open spec fn blank_line() -> Seq<char> {
    seq!['\r', '\n', '\r', '\n']
}

/// The body of an HTTP answer: what follows the first empty line (nothing
/// when there is none).
pub open spec fn body_of(raw: Seq<char>) -> Seq<char> {
    match first_occurrence(raw, blank_line()) {
        Some(i) => raw.subrange(i + 4, raw.len() as int),
        None => Seq::empty(),
    }
}

/// How a raw HTTP answer reads: status 403 in the first line means the
/// token was withdrawn; anything but 200 is a failure; a 200 gives its body.
pub open spec fn classify_spec(raw: Seq<char>) -> Result<Seq<char>, PullError> {
    let status = first_line(raw);
    if contains_spec(status, status_403().push(' ')) || ends_with_spec(status, status_403()) {
        Err(PullError::Revoked)
    } else if !(contains_spec(status, status_200().push(' ')) || ends_with_spec(status, status_200())) {
        Err(PullError::Unavailable)
    } else {
        Ok(body_of(raw))
    }
}

/// First line of `s`.
pub fn first_line_of(s: &str) -> (r: &str)
    ensures
        r@ == first_line(s@),
{
    let n = s.unicode_len();
    let i = find_char(s, '\n');
    if i < n {
        if i > 0 && s.get_char(i - 1) == '\r' {
            let l = s.substring_char(0, i - 1);
            assert(l@ =~= s@.subrange(0, i as int).drop_last());
            l
        } else {
            s.substring_char(0, i)
        }
    } else {
        s
    }
}

/// Reads a raw HTTP answer: the body of a 200, or why it failed.
pub fn classify_response(raw: &str) -> (r: Result<String, PullError>)
    ensures
        match classify_spec(raw@) {
            Ok(b) => r matches Ok(x) && x@ == b,
            Err(e) => r == Err::<String, PullError>(e),
        },
{
    let s403 = " 403 ";
    let e403 = " 403";
    let s200 = " 200 ";
    let e200 = " 200";
    let sep = "\r\n\r\n";
    proof {
        reveal_strlit(" 403 ");
        reveal_strlit(" 403");
        reveal_strlit(" 200 ");
        reveal_strlit(" 200");
        reveal_strlit("\r\n\r\n");
        assert(s403@ =~= status_403().push(' '));
        assert(e403@ =~= status_403());
        assert(s200@ =~= status_200().push(' '));
        assert(e200@ =~= status_200());
        assert(sep@ =~= blank_line());
    }
    let status = first_line_of(raw);
    if contains_str(status, s403) || ends_with_str(status, e403) {
        return Err(PullError::Revoked);
    }
    if !(contains_str(status, s200) || ends_with_str(status, e200)) {
        return Err(PullError::Unavailable);
    }
    let mut body = String::new();
    match find_sub(raw, sep) {
        Some(i) => {
            let n = raw.unicode_len();
            body.append(raw.substring_char(i + 4, n));
            assert(body@ =~= raw@.subrange(i + 4, n as int));
        },
        None => {},
    }
    Ok(body)
}

/// The connection state a pull leaves a peer in.
pub fn status_after_pull(r: &Result<String, PullError>) -> (s: PeerStatus)
    ensures
        match r {
            Ok(_) => s.online && !s.error && !s.revoked,
            Err(PullError::Revoked) => !s.online && !s.error && s.revoked,
            Err(PullError::Unavailable) => !s.online && s.error && !s.revoked,
        },
{
    match r {
        Ok(_) => PeerStatus { online: true, error: false, revoked: false },
        Err(PullError::Revoked) => PeerStatus { online: false, error: false, revoked: true },
        Err(PullError::Unavailable) => PeerStatus { online: false, error: true, revoked: false },
    }
}

/// Where the cursor of a peer moves after receiving `ops`: to their
/// largest number; nowhere when nothing came.
pub fn next_cursor(ops: &Vec<Op>) -> (r: Option<u64>)
    ensures
        ops@.len() == 0 ==> r is None,
        ops@.len() > 0 ==> r == Some(max_seq(ops_view(ops@))),
{
    if ops.len() == 0 {
        return None;
    }
    let ghost s = ops_view(ops@);
    let mut m: u64 = 0;
    let mut i: usize = 0;
    while i < ops.len()
        invariant
            i <= ops@.len(),
            s == ops_view(ops@),
            m == max_seq(s.take(i as int)),
        decreases ops@.len() - i,
    {
        assert(s.take(i + 1).drop_last() =~= s.take(i as int));
        assert(s[i as int] == ops@[i as int]@);
        assert(max_seq(s.take(0)) == 0);
        if ops[i].seq > m {
            m = ops[i].seq;
        }
        i = i + 1;
    }
    assert(s.take(ops@.len() as int) =~= s);
    Some(m)
}

/// `http://{ip}:{port}/1/ops?since={since}&token={token}`.
pub open spec fn ops_url_spec(ip: Seq<char>, port: u16, since: u64, token: Seq<char>) -> Seq<char> {
    http_prefix() + ip + seq![':'] + decimal(port as nat) + seq!['/', '1', '/', 'o', 'p', 's', '?', 's', 'i', 'n', 'c', 'e', '=']
        + decimal(since as nat) + seq!['&', 't', 'o', 'k', 'e', 'n', '='] + token
}

/// `http://{ip}:{port}/1/hello`.
pub open spec fn hello_url_spec(ip: Seq<char>, port: u16) -> Seq<char> {
    http_prefix() + ip + seq![':'] + decimal(port as nat) + seq!['/', '1', '/', 'h', 'e', 'l', 'l', 'o']
}

/// `http://{ip}:{port}/1/ping_sync?token={token}`.
pub open spec fn ping_url_spec(ip: Seq<char>, port: u16, token: Seq<char>) -> Seq<char> {
    http_prefix() + ip + seq![':'] + decimal(port as nat)
        + seq!['/', '1', '/', 'p', 'i', 'n', 'g', '_', 's', 'y', 'n', 'c', '?', 't', 'o', 'k', 'e', 'n', '='] + token
}

fn push_base(out: &mut String, ip: &str, port: u16)
    ensures
        final(out)@ == old(out)@ + http_prefix() + ip@ + seq![':'] + decimal(port as nat),
{
    let prefix = "http://";
    proof {
        reveal_strlit("http://");
        assert(prefix@ =~= http_prefix());
    }
    out.append(prefix);
    out.append(ip);
    push_char(out, ':');
    push_decimal(out, port as u64);
    assert(out@ =~= old(out)@ + http_prefix() + ip@ + seq![':'] + decimal(port as nat));
}

/// The address to pull a peer's operations from `since` on.
pub fn ops_url(ip: &str, port: u16, since: u64, token: &str) -> (r: String)
    ensures
        r@ == ops_url_spec(ip@, port, since, token@),
{
    let mut s = String::new();
    push_base(&mut s, ip, port);
    let mid = "/1/ops?since=";
    let tok = "&token=";
    proof {
        reveal_strlit("/1/ops?since=");
        reveal_strlit("&token=");
    }
    s.append(mid);
    push_decimal(&mut s, since);
    s.append(tok);
    s.append(token);
    assert(s@ =~= ops_url_spec(ip@, port, since, token@));
    s
}

/// The address of a peer's self-description.
pub fn hello_url(ip: &str, port: u16) -> (r: String)
    ensures
        r@ == hello_url_spec(ip@, port),
{
    let mut s = String::new();
    push_base(&mut s, ip, port);
    let tail = "/1/hello";
    proof { reveal_strlit("/1/hello"); }
    s.append(tail);
    assert(s@ =~= hello_url_spec(ip@, port));
    s
}

/// The address that asks a peer to pull from us.
pub fn ping_url(ip: &str, port: u16, token: &str) -> (r: String)
    ensures
        r@ == ping_url_spec(ip@, port, token@),
{
    let mut s = String::new();
    push_base(&mut s, ip, port);
    let mid = "/1/ping_sync?token=";
    proof { reveal_strlit("/1/ping_sync?token="); }
    s.append(mid);
    s.append(token);
    assert(s@ =~= ping_url_spec(ip@, port, token@));
    s
}

/// The addresses to ask to pull from us: one per peer with a known
/// address, in peer order.
pub open spec fn ping_targets(s: Seq<crate::peers::PeerEntry>, port: u16) -> Seq<Seq<char>>
    decreases s.len(),
{
    if s.len() == 0 {
        Seq::empty()
    } else {
        let rest = ping_targets(s.drop_last(), port);
        match s.last().ip_hint {
            Some(ip) => rest.push(ping_url_spec(ip@, port, s.last().token@)),
            None => rest,
        }
    }
}

/// The addresses that tell every peer with a known address to pull from
/// us; peers without one are skipped.
pub fn notify_urls(peers: &crate::peers::Peers, port: u16) -> (r: Vec<String>)
    ensures
        r@.map_values(|u: String| u@) == ping_targets(peers.list@, port),
{
    let ghost v = peers.list@;
    let mut out: Vec<String> = Vec::new();
    let mut i: usize = 0;
    while i < peers.list.len()
        invariant
            v == peers.list@,
            i <= v.len(),
            out@.map_values(|u: String| u@) == ping_targets(v.take(i as int), port),
        decreases v.len() - i,
    {
        let ghost before = out@.map_values(|u: String| u@);
        proof {
            assert(v.take(i + 1).drop_last() =~= v.take(i as int));
            assert(v.take(i + 1).last() == v[i as int]);
        }
        match &peers.list[i].ip_hint {
            Some(ip) => {
                let url = ping_url(ip.as_str(), port, peers.list[i].token.as_str());
                out.push(url);
                assert(out@.map_values(|u: String| u@) =~= before.push(url@));
            },
            None => {},
        }
        i = i + 1;
    }
    proof { assert(v.take(v.len() as int) =~= v); }
    out
}

/// Where a pull starts for device `id`: its cursor, 0 when it has none.
pub open spec fn cursor_of(c: crate::cursors::Cursors, id: Seq<char>) -> u64 {
    match c.cursors.get_spec(id) {
        Some(v) => v,
        None => 0,
    }
}

/// The peers to pull from, each with the address of its operations after
/// its cursor: one per peer with a known address, in peer order.
pub open spec fn pull_targets(s: Seq<crate::peers::PeerEntry>, c: crate::cursors::Cursors, port: u16)
    -> Seq<(Seq<char>, Seq<char>)>
    decreases s.len(),
{
    if s.len() == 0 {
        Seq::empty()
    } else {
        let rest = pull_targets(s.drop_last(), c, port);
        let p = s.last();
        match p.ip_hint {
            Some(ip) => rest.push((p.device_id@, ops_url_spec(ip@, port, cursor_of(c, p.device_id@), p.token@))),
            None => rest,
        }
    }
}

/// What one round of pulling asks: for each peer with a known address, in
/// order, its device id and the address of its operations after the
/// cursor held for it. Peers without an address are skipped.
pub fn pull_urls(peers: &crate::peers::Peers, cursors: &crate::cursors::Cursors, port: u16) -> (r: Vec<(String, String)>)
    requires
        cursors.cursors.wf(),
    ensures
        r@.map_values(|e: (String, String)| (e.0@, e.1@)) == pull_targets(peers.list@, *cursors, port),
{
    let ghost v = peers.list@;
    let mut out: Vec<(String, String)> = Vec::new();
    let mut i: usize = 0;
    while i < peers.list.len()
        invariant
            v == peers.list@,
            cursors.cursors.wf(),
            i <= v.len(),
            out@.map_values(|e: (String, String)| (e.0@, e.1@)) == pull_targets(v.take(i as int), *cursors, port),
        decreases v.len() - i,
    {
        let ghost before = out@.map_values(|e: (String, String)| (e.0@, e.1@));
        proof {
            assert(v.take(i + 1).drop_last() =~= v.take(i as int));
            assert(v.take(i + 1).last() == v[i as int]);
        }
        let p = &peers.list[i];
        match &p.ip_hint {
            Some(ip) => {
                let since = cursors.get(p.device_id.as_str());
                let url = ops_url(ip.as_str(), port, since, p.token.as_str());
                let id = p.device_id.clone();
                out.push((id, url));
                assert(out@.map_values(|e: (String, String)| (e.0@, e.1@)) =~= before.push((p.device_id@, url@)));
            },
            None => {},
        }
        i = i + 1;
    }
    proof { assert(v.take(v.len() as int) =~= v); }
    out
}

} // verus!
