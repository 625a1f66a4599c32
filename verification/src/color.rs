//! Project colours as `#RRGGBB` text.
use vstd::prelude::*;
use crate::text::{push_char};

verus! {

pub open spec fn is_hex_digit(c: char) -> bool {
    ('0' <= c <= '9') || ('a' <= c <= 'f') || ('A' <= c <= 'F')
}

pub open spec fn hex_value(c: char) -> int {
    if '0' <= c <= '9' {
        c as int - '0' as int
    } else if 'a' <= c <= 'f' {
        c as int - 'a' as int + 10
    } else {
        c as int - 'A' as int + 10
    }
}

/// `u8::from_str_radix(p, 16)` for a two-character `p`: two hex digits, or
/// `+` and one hex digit.
pub open spec fn hex_pair(a: char, b: char) -> Option<u8> {
    if a == '+' && is_hex_digit(b) {
        Some(hex_value(b) as u8)
    } else if is_hex_digit(a) && is_hex_digit(b) {
        Some((hex_value(a) * 16 + hex_value(b)) as u8)
    } else {
        None
    }
}

/// Number of leading `#` characters.
pub open spec fn hash_prefix(s: Seq<char>) -> int
    decreases s.len(),
{
    if s.len() > 0 && s[0] == '#' { 1 + hash_prefix(s.drop_first()) } else { 0 }
}

/// The colour written as `#RRGGBB` (any number of leading `#`, or none):
/// six characters after the `#`s, read in pairs as hexadecimal bytes.
pub open spec fn hex_color_spec(s: Seq<char>) -> Option<Seq<u8>> {
    let h = s.skip(hash_prefix(s));
    if h.len() != 6 {
        None
    } else {
        match (hex_pair(h[0], h[1]), hex_pair(h[2], h[3]), hex_pair(h[4], h[5])) {
            (Some(r), Some(g), Some(b)) => Some(seq![r, g, b]),
            _ => None,
        }
    }
}

/// Upper-case hex digit of a value below 16.
pub open spec fn hex_char(v: int) -> char {
    if v < 10 { (v + '0' as int) as char } else { (v - 10 + 'A' as int) as char }
}

/// `format!("#{:02X}{:02X}{:02X}", r, g, b)`.
pub open spec fn hex_text(c: Seq<u8>) -> Seq<char> {
    seq!['#',
        hex_char(c[0] as int / 16), hex_char(c[0] as int % 16),
        hex_char(c[1] as int / 16), hex_char(c[1] as int % 16),
        hex_char(c[2] as int / 16), hex_char(c[2] as int % 16)]
}

fn hex_digit_value(c: char) -> (r: Option<u8>)
    ensures
        is_hex_digit(c) ==> r == Some(hex_value(c) as u8),
        !is_hex_digit(c) ==> r is None,
{
    if '0' <= c && c <= '9' {
        Some((c as u32 - '0' as u32) as u8)
    } else if 'a' <= c && c <= 'f' {
        Some((c as u32 - 'a' as u32 + 10) as u8)
    } else if 'A' <= c && c <= 'F' {
        Some((c as u32 - 'A' as u32 + 10) as u8)
    } else {
        None
    }
}

fn parse_pair(a: char, b: char) -> (r: Option<u8>)
    ensures
        r == hex_pair(a, b),
{
    let vb = match hex_digit_value(b) {
        Some(v) => v,
        None => return None,
    };
    if a == '+' {
        return Some(vb);
    }
    match hex_digit_value(a) {
        Some(va) => Some(va * 16 + vb),
        None => None,
    }
}

/// The colour of a `#RRGGBB` text, as red, green, blue.
pub fn hex_to_rgb(hex: &str) -> (r: Option<[u8; 3]>)
    ensures
        match hex_color_spec(hex@) {
            Some(c) => r matches Some(v) && v@ == c,
            None => r is None,
        },
{
    let n = hex.unicode_len();
    let mut i: usize = 0;
    assert(hex@.skip(0) =~= hex@);
    while i < n && hex.get_char(i) == '#'
        invariant
            n == hex@.len(),
            i <= n,
            hash_prefix(hex@) == i + hash_prefix(hex@.skip(i as int)),
        decreases n - i,
    {
        assert(hex@.skip(i as int).drop_first() =~= hex@.skip(i + 1));
        i = i + 1;
    }
    assert(hash_prefix(hex@.skip(i as int)) == 0);
    let ghost h = hex@.skip(i as int);
    if n - i != 6 {
        return None;
    }
    let r = match parse_pair(hex.get_char(i), hex.get_char(i + 1)) {
        Some(v) => v,
        None => return None,
    };
    let g = match parse_pair(hex.get_char(i + 2), hex.get_char(i + 3)) {
        Some(v) => v,
        None => return None,
    };
    let b = match parse_pair(hex.get_char(i + 4), hex.get_char(i + 5)) {
        Some(v) => v,
        None => return None,
    };
    let out = [r, g, b];
    assert(out@ =~= seq![r, g, b]);
    Some(out)
}

/// The colour of a `#RRGGBB` project colour text, as red, green, blue.
pub fn hex_to_color32(hex: &str) -> (r: Option<[u8; 3]>)
    ensures
        match hex_color_spec(hex@) {
            Some(c) => r matches Some(v) && v@ == c,
            None => r is None,
        },
{
    hex_to_rgb(hex)
}

fn hex_upper(v: u8) -> (c: char)
    requires
        v < 16,
    ensures
        c == hex_char(v as int),
{
    if v < 10 { ((v + 48u8) as char) } else { ((v - 10 + 65u8) as char) }
}

/// `#RRGGBB` text of a colour, upper-case.
pub fn color32_to_hex(c: [u8; 3]) -> (s: String)
    ensures
        s@ == hex_text(c@),
{
    let mut s = String::new();
    push_char(&mut s, '#');
    let mut k: usize = 0;
    while k < 3
        invariant
            k <= 3,
            c@.len() == 3,
            s@ == hex_text(c@).take(1 + 2 * k),
        decreases 3 - k,
    {
        let v = c[k];
        push_char(&mut s, hex_upper(v / 16));
        push_char(&mut s, hex_upper(v % 16));
        assert(s@ =~= hex_text(c@).take(1 + 2 * (k + 1)));
        k = k + 1;
    }
    assert(hex_text(c@).take(7) =~= hex_text(c@));
    s
}

/// Reading back the text of a colour gives the colour.
pub proof fn lemma_hex_round_trip(c: Seq<u8>)
    requires
        c.len() == 3,
    ensures
        hex_color_spec(hex_text(c)) == Some(c),
{
    let t = hex_text(c);
    assert(hash_prefix(t.drop_first()) == 0);
    assert(hash_prefix(t) == 1);
    let h = t.skip(1);
    assert(h.len() == 6);
    assert(hex_color_spec(t) =~= Some(seq![c[0], c[1], c[2]]));
    assert(seq![c[0], c[1], c[2]] =~= c);
}

} // verus!
