//! Notification icons in the colour of a project: the circle of the base
//! icon is repainted, the letter around it is kept; the generated files
//! are pruned by age and number.
use vstd::prelude::*;
use crate::color::{hash_prefix, hex_color_spec, hex_to_rgb};

verus! {

/// Icons unused for longer than this many seconds are deleted.
pub const MAX_AGE_SECS: u64 = 604800;

/// At most this many icons are kept.
pub const MAX_COUNT: usize = 100;

/// Reference colour of the circle (repainted).
pub open spec fn circle_ref() -> (int, int, int) {
    (86, 110, 146)
}

/// Reference colour of the letter (kept).
pub open spec fn ring_ref() -> (int, int, int) {
    (242, 244, 247)
}

/// A decoded image: width, height and RGBA bytes, row by row.
pub uninterp spec fn decoded_rgba(bytes: Seq<u8>) -> Option<(u32, u32, Seq<u8>)>;

/// `image::load_from_memory` followed by `DynamicImage::to_rgba8`, its
/// width, height and raw bytes: the decoded image is a function of the
/// file bytes; nothing more is stated of it.
#[verifier::external_body]
fn decode_rgba(bytes: &[u8]) -> (r: Option<(u32, u32, Vec<u8>)>)
    ensures
        match r {
            Some(x) => decoded_rgba(bytes@) == Some((x.0, x.1, x.2@)),
            None => decoded_rgba(bytes@) is None,
        },
{
    match image::load_from_memory(bytes) {
        Ok(img) => {
            let rgba = img.to_rgba8();
            Some((rgba.width(), rgba.height(), rgba.into_raw()))
        },
        Err(_) => None,
    }
}

/// Squared distance between two colours.
pub open spec fn dist(r: int, g: int, b: int, c: (int, int, int)) -> int {
    (r - c.0) * (r - c.0) + (g - c.1) * (g - c.1) + (b - c.2) * (b - c.2)
}

/// A pixel belongs to the circle when it is not transparent and nearer the
/// circle colour than the letter colour.
pub open spec fn is_circle(r: u8, g: u8, b: u8, a: u8) -> bool {
    a != 0 && dist(r as int, g as int, b as int, circle_ref()) < dist(r as int, g as int, b as int, ring_ref())
}

/// The circle mask of RGBA bytes, one flag per whole pixel.
pub open spec fn mask_spec(px: Seq<u8>) -> Seq<bool> {
    Seq::new(px.len() / 4, |k: int| is_circle(px[4 * k], px[4 * k + 1], px[4 * k + 2], px[4 * k + 3]))
}

fn dist_exec(r: u8, g: u8, b: u8, c0: i32, c1: i32, c2: i32) -> (d: i32)
    requires
        0 <= c0 <= 255,
        0 <= c1 <= 255,
        0 <= c2 <= 255,
    ensures
        d as int == dist(r as int, g as int, b as int, (c0 as int, c1 as int, c2 as int)),
{
    let dr = r as i32 - c0;
    let dg = g as i32 - c1;
    let db = b as i32 - c2;
    assert(dr * dr <= 65025) by (nonlinear_arith) requires -255 <= dr <= 255;
    assert(dg * dg <= 65025) by (nonlinear_arith) requires -255 <= dg <= 255;
    assert(db * db <= 65025) by (nonlinear_arith) requires -255 <= db <= 255;
    assert(dr * dr >= 0 && dg * dg >= 0 && db * db >= 0) by (nonlinear_arith);
    dr * dr + dg * dg + db * db
}

/// The base icon: its size, bytes and circle mask.
pub struct IconBase {
    pub width: u32,
    pub height: u32,
    pub pixels: Vec<u8>,
    pub mask: Vec<bool>,
}

/// Which pixels of RGBA bytes belong to the circle.
pub fn circle_mask(px: &Vec<u8>) -> (m: Vec<bool>)
    ensures
        m@ == mask_spec(px@),
{
    let len = px.len();
    let n = len / 4;
    let mut m: Vec<bool> = Vec::new();
    let mut k: usize = 0;
    while k < n
        invariant
            len == px@.len(),
            n == px@.len() / 4,
            k <= n,
            m@.len() == k,
            forall|j: int| 0 <= j < k ==> m@[j] == mask_spec(px@)[j],
        decreases n - k,
    {
        assert(4 * k + 3 < px@.len()) by (nonlinear_arith)
            requires k < n, n == px@.len() / 4;
        let r = px[4 * k];
        let g = px[4 * k + 1];
        let b = px[4 * k + 2];
        let a = px[4 * k + 3];
        let dc = dist_exec(r, g, b, 86, 110, 146);
        let dr = dist_exec(r, g, b, 242, 244, 247);
        m.push(a != 0 && dc < dr);
        k = k + 1;
    }
    assert(m@ =~= mask_spec(px@));
    m
}

/// The base icon from its file bytes, when they decode.
pub fn load_base(bytes: &[u8]) -> (r: Option<IconBase>)
    ensures
        match r {
            Some(b) => decoded_rgba(bytes@) == Some((b.width, b.height, b.pixels@)) && b.mask@ == mask_spec(b.pixels@),
            None => decoded_rgba(bytes@) is None,
        },
{
    match decode_rgba(bytes) {
        Some((width, height, pixels)) => {
            let mask = circle_mask(&pixels);
            Some(IconBase { width, height, pixels, mask })
        },
        None => None,
    }
}

/// The icon bytes for colour `c`: circle pixels take the colour and keep
/// their alpha, other bytes stay.
pub open spec fn recolored(px: Seq<u8>, mask: Seq<bool>, c: Seq<u8>) -> Seq<u8> {
    Seq::new(px.len(), |i: int|
        if i / 4 < mask.len() && mask[i / 4] && i % 4 < 3 && i - i % 4 + 3 < px.len() { c[i % 4] } else { px[i] })
}

/// The base icon repainted in colour `hex`; an unreadable colour leaves it
/// as it is.
pub fn generate(base: &IconBase, hex: &str) -> (r: Vec<u8>)
    ensures
        match hex_color_spec(hex@) {
            Some(c) => r@ == recolored(base.pixels@, base.mask@, c),
            None => r@ == base.pixels@,
        },
{
    let c = match hex_to_rgb(hex) {
        Some(c) => c,
        None => return base.pixels.clone(),
    };
    let px = &base.pixels;
    let n = px.len();
    let mut out: Vec<u8> = Vec::new();
    let mut i: usize = 0;
    while i < n
        invariant
            n == px@.len(),
            px@ == base.pixels@,
            c@.len() == 3,
            i <= n,
            out@.len() == i,
            forall|j: int| 0 <= j < i ==> out@[j] == recolored(px@, base.mask@, c@)[j],
        decreases n - i,
    {
        let k = i / 4;
        let lane = i % 4;
        let paint = k < base.mask.len() && base.mask[k] && lane < 3 && i - lane + 3 < n;
        if paint {
            out.push(c[lane]);
        } else {
            out.push(px[i]);
        }
        i = i + 1;
    }
    assert(out@ =~= recolored(px@, base.mask@, c@));
    out
}

/// `'A'`–`'Z'` lowered; other characters kept.
pub open spec fn ascii_lower(c: char) -> char {
    if 'A' <= c <= 'Z' { (((c as u32) + 32) as u8) as char } else { c }
}

/// The file name of a colour: `#`s dropped, ASCII letters lowered.
pub open spec fn normalize_spec(hex: Seq<char>) -> Seq<char> {
    hex.skip(hash_prefix(hex)).map_values(|c: char| ascii_lower(c))
}

/// The file name of colour `hex`.
pub fn normalize(hex: &str) -> (r: String)
    ensures
        r@ == normalize_spec(hex@),
{
    let n = hex.unicode_len();
    let mut i: usize = 0;
    assert(hex@.skip(0) =~= hex@);
    while i < n && hex.get_char(i) == '#'
        invariant
            n == hex@.len(),
            i <= n,
            hash_prefix(hex@) == i + hash_prefix(hex@.skip(i as int)),
        decreases n - i,
    {
        assert(hex@.skip(i as int).drop_first() =~= hex@.skip(i + 1));
        i = i + 1;
    }
    assert(hash_prefix(hex@.skip(i as int)) == 0);
    let start = i;
    let ghost tail = hex@.skip(start as int);
    let mut out = String::new();
    while i < n
        invariant
            n == hex@.len(),
            start <= i <= n,
            tail == hex@.skip(start as int),
            out@ == tail.take(i - start).map_values(|c: char| ascii_lower(c)),
        decreases n - i,
    {
        let ch = hex.get_char(i);
        let lo = if 'A' <= ch && ch <= 'Z' { (((ch as u32) + 32) as u8) as char } else { ch };
        crate::text::push_char(&mut out, lo);
        assert(tail.take(i + 1 - start) =~= tail.take(i - start).push(ch));
        assert(out@ =~= tail.take(i + 1 - start).map_values(|c: char| ascii_lower(c)));
        i = i + 1;
    }
    assert(tail.take(n - start) =~= tail);
    out
}

pub type IconEntry = (Seq<char>, u64);

pub open spec fn age_of(now: u64, ts: u64) -> int {
    if now >= ts { now - ts } else { 0 }
}

/// Stable insertion by time.
pub open spec fn ts_insert_pos(s: Seq<IconEntry>, x: IconEntry) -> int
    decreases s.len(),
{
    if s.len() == 0 {
        0
    } else if x.1 < s[0].1 {
        0
    } else {
        1 + ts_insert_pos(s.drop_first(), x)
    }
}

/// Stable sort by time, oldest first.
pub open spec fn sort_by_time(s: Seq<IconEntry>) -> Seq<IconEntry>
    decreases s.len(),
{
    if s.len() == 0 {
        s
    } else {
        let r = sort_by_time(s.drop_last());
        r.insert(ts_insert_pos(r, s.last()), s.last())
    }
}

pub open spec fn fresh(s: Seq<IconEntry>, now: u64) -> Seq<IconEntry> {
    s.filter(|e: IconEntry| age_of(now, e.1) <= MAX_AGE_SECS)
}

pub open spec fn stale(s: Seq<IconEntry>, now: u64) -> Seq<IconEntry> {
    s.filter(|e: IconEntry| age_of(now, e.1) > MAX_AGE_SECS)
}

/// The icons that stay: the fresh ones; beyond `MAX_COUNT` of them only
/// the newest `MAX_COUNT`, oldest first.
pub open spec fn kept_spec(s: Seq<IconEntry>, now: u64) -> Seq<IconEntry> {
    let f = fresh(s, now);
    if f.len() > MAX_COUNT { sort_by_time(f).skip(f.len() - MAX_COUNT) } else { f }
}

/// The icons whose files go: the stale ones in list order, then the
/// oldest fresh ones beyond `MAX_COUNT`.
pub open spec fn removed_spec(s: Seq<IconEntry>, now: u64) -> Seq<IconEntry> {
    let f = fresh(s, now);
    stale(s, now) + if f.len() > MAX_COUNT { sort_by_time(f).take(f.len() - MAX_COUNT) } else { Seq::empty() }
}

pub open spec fn icons_view(v: Seq<(String, u64)>) -> Seq<IconEntry> {
    v.map_values(|e: (String, u64)| (e.0@, e.1))
}

proof fn lemma_ts_insert_pos_bounds(s: Seq<IconEntry>, x: IconEntry)
    ensures
        0 <= ts_insert_pos(s, x) <= s.len(),
    decreases s.len(),
{
    if s.len() > 0 && !(x.1 < s[0].1) {
        lemma_ts_insert_pos_bounds(s.drop_first(), x);
    }
}

proof fn lemma_sort_by_time_len(s: Seq<IconEntry>)
    ensures
        sort_by_time(s).len() == s.len(),
    decreases s.len(),
{
    if s.len() > 0 {
        lemma_sort_by_time_len(s.drop_last());
        lemma_ts_insert_pos_bounds(sort_by_time(s.drop_last()), s.last());
    }
}

proof fn lemma_ts_insert_pos_is(s: Seq<IconEntry>, x: IconEntry, i: int)
    requires
        0 <= i <= s.len(),
        forall|j: int| 0 <= j < i ==> !(x.1 < (#[trigger] s[j]).1),
        i < s.len() ==> x.1 < s[i].1,
    ensures
        ts_insert_pos(s, x) == i,
    decreases s.len(),
{
    if s.len() > 0 && !(x.1 < s[0].1) {
        assert forall|j: int| 0 <= j < i - 1 implies !(x.1 < (#[trigger] s.drop_first()[j]).1) by {
            assert(s.drop_first()[j] == s[j + 1]);
        }
        lemma_ts_insert_pos_is(s.drop_first(), x, i - 1);
    }
}

fn insert_by_time(v: &mut Vec<(String, u64)>, e: (String, u64))
    ensures
        icons_view(final(v)@) == icons_view(old(v)@).insert(ts_insert_pos(icons_view(old(v)@), (e.0@, e.1)), (e.0@, e.1)),
{
    let ghost s = icons_view(v@);
    let ghost x = (e.0@, e.1);
    let mut i: usize = 0;
    while i < v.len()
        invariant
            i <= v@.len(),
            s == icons_view(v@),
            s == icons_view(old(v)@),
            x == (e.0@, e.1),
            forall|j: int| 0 <= j < i ==> !(x.1 < (#[trigger] s[j]).1),
        ensures
            i <= s.len(),
            s == icons_view(v@),
            s == icons_view(old(v)@),
            forall|j: int| 0 <= j < i ==> !(x.1 < (#[trigger] s[j]).1),
            i < s.len() ==> x.1 < s[i as int].1,
        decreases v@.len() - i,
    {
        assert(s[i as int] == (v@[i as int].0@, v@[i as int].1));
        if e.1 < v[i].1 {
            break;
        }
        i = i + 1;
    }
    proof { lemma_ts_insert_pos_is(s, x, i as int); }
    v.insert(i, e);
    assert(icons_view(v@) =~= s.insert(i as int, x));
}

/// Which icons stay and which files go, at `now`.
pub struct PrunePlan {
    pub kept: Vec<(String, u64)>,
    pub removed: Vec<String>,
}

/// Sorts out the icons with their last use times at start-up: stale ones
/// go, and of the fresh ones only the newest `MAX_COUNT` stay.
pub fn prune_plan(entries: &Vec<(String, u64)>, now: u64) -> (p: PrunePlan)
    ensures
        icons_view(p.kept@) == kept_spec(icons_view(entries@), now),
        p.removed@.map_values(|s: String| s@) == removed_spec(icons_view(entries@), now).map_values(|e: IconEntry| e.0),
{
    let ghost s = icons_view(entries@);
    let ghost keep = |e: IconEntry| age_of(now, e.1) <= MAX_AGE_SECS;
    let ghost drop = |e: IconEntry| age_of(now, e.1) > MAX_AGE_SECS;
    let mut fresh_v: Vec<(String, u64)> = Vec::new();
    let mut removed: Vec<String> = Vec::new();
    let mut i: usize = 0;
    while i < entries.len()
        invariant
            i <= entries@.len(),
            s == icons_view(entries@),
            keep == |e: IconEntry| age_of(now, e.1) <= MAX_AGE_SECS,
            drop == |e: IconEntry| age_of(now, e.1) > MAX_AGE_SECS,
            icons_view(fresh_v@) == s.take(i as int).filter(keep),
            removed@.map_values(|x: String| x@) == s.take(i as int).filter(drop).map_values(|e: IconEntry| e.0),
        decreases entries@.len() - i,
    {
        proof {
            reveal_with_fuel(Seq::<_>::filter, 1);
            assert(s.take(i + 1).drop_last() =~= s.take(i as int));
            assert(s[i as int] == (entries@[i as int].0@, entries@[i as int].1));
        }
        let ts = entries[i].1;
        let age = if now >= ts { now - ts } else { 0 };
        let ghost fb = icons_view(fresh_v@);
        let ghost rb = removed@.map_values(|x: String| x@);
        if age <= MAX_AGE_SECS {
            fresh_v.push((entries[i].0.clone(), ts));
            assert(icons_view(fresh_v@) =~= fb.push(s[i as int]));
            assert(removed@.map_values(|x: String| x@) =~= s.take(i + 1).filter(drop).map_values(|e: IconEntry| e.0));
        } else {
            let name = entries[i].0.clone();
            removed.push(name);
            assert(removed@.map_values(|x: String| x@) =~= rb.push(s[i as int].0));
            assert(s.take(i + 1).filter(drop).map_values(|e: IconEntry| e.0) =~=
                s.take(i as int).filter(drop).map_values(|e: IconEntry| e.0).push(s[i as int].0));
        }
        i = i + 1;
    }
    assert(s.take(entries@.len() as int) =~= s);
    let ghost f = icons_view(fresh_v@);
    assert(f == fresh(s, now));
    if fresh_v.len() <= MAX_COUNT {
        assert(removed_spec(s, now) =~= stale(s, now));
        return PrunePlan { kept: fresh_v, removed };
    }
    let mut sorted: Vec<(String, u64)> = Vec::new();
    let mut k: usize = 0;
    assert(sort_by_time(f.take(0)) =~= icons_view(sorted@));
    while k < fresh_v.len()
        invariant
            k <= fresh_v@.len(),
            f == icons_view(fresh_v@),
            icons_view(sorted@) == sort_by_time(f.take(k as int)),
        decreases fresh_v@.len() - k,
    {
        assert(f.take(k + 1).drop_last() =~= f.take(k as int));
        assert(f.take(k + 1).last() == (fresh_v@[k as int].0@, fresh_v@[k as int].1));
        let e = (fresh_v[k].0.clone(), fresh_v[k].1);
        insert_by_time(&mut sorted, e);
        k = k + 1;
    }
    assert(f.take(fresh_v@.len() as int) =~= f);
    let ghost sf = sort_by_time(f);
    proof { lemma_sort_by_time_len(f); }
    let cut = fresh_v.len() - MAX_COUNT;
    let ghost r0 = removed@.map_values(|x: String| x@);
    let mut kept: Vec<(String, u64)> = Vec::new();
    let mut j: usize = 0;
    while j < sorted.len()
        invariant
            icons_view(sorted@) == sf,
            sf.len() == f.len(),
            cut == f.len() - MAX_COUNT,
            j <= sorted@.len(),
            j <= cut ==> kept@.len() == 0 && removed@.map_values(|x: String| x@) == r0 + sf.take(j as int).map_values(|e: IconEntry| e.0),
            j > cut ==> icons_view(kept@) == sf.subrange(cut as int, j as int)
                && removed@.map_values(|x: String| x@) == r0 + sf.take(cut as int).map_values(|e: IconEntry| e.0),
        decreases sorted@.len() - j,
    {
        assert(sf[j as int] == (sorted@[j as int].0@, sorted@[j as int].1));
        if j < cut {
            let ghost rb = removed@.map_values(|x: String| x@);
            removed.push(sorted[j].0.clone());
            assert(removed@.map_values(|x: String| x@) =~= rb.push(sf[j as int].0));
            assert(sf.take(j + 1).map_values(|e: IconEntry| e.0) =~= sf.take(j as int).map_values(|e: IconEntry| e.0).push(sf[j as int].0));
        } else {
            let ghost kb = icons_view(kept@);
            kept.push((sorted[j].0.clone(), sorted[j].1));
            assert(icons_view(kept@) =~= kb.push(sf[j as int]));
            assert(sf.subrange(cut as int, j + 1) =~= sf.subrange(cut as int, j as int).push(sf[j as int]));
        }
        j = j + 1;
    }
    assert(sf.subrange(cut as int, sf.len() as int) =~= sf.skip(cut as int));
    PrunePlan { kept, removed }
}

} // verus!
