//! When routines fall due: the last past occurrence of each schedule
//! entry, measured in local seconds since the epoch.
use vstd::prelude::*;
use crate::calendar::{
    civil_from_days, date_of_day, day_number, days_from_civil, days_in_month, month_length,
    weekday_of, weekday_of_day, civil_formula, is_valid_date, lemma_date_of_day,
};
use crate::routine::{Routine, RoutineView, strings_view, opt_strings_view};
use crate::text::{
    split_once, split_once_char, parse_u32, parse_i32, parse_u32_spec, parse_i32_spec,
};

verus! {

/// Largest time this module works with (about a billion years after 1970):
/// beyond it the year no longer fits the calendar's `i32`.
pub const MAX_TIME: u64 = 36028797018963968;

/// An activation is announced when it is at most this many seconds old.
pub const NOTIFY_WINDOW_SECS: u64 = 60;

/// Weekday code of a week entry, 0 = `"mo"` … 6 = `"su"`.
pub open spec fn weekday_code_spec(s: Seq<char>) -> Option<int> {
    if s == seq!['m', 'o'] { Some(0) }
    else if s == seq!['t', 'u'] { Some(1) }
    else if s == seq!['w', 'e'] { Some(2) }
    else if s == seq!['t', 'h'] { Some(3) }
    else if s == seq!['f', 'r'] { Some(4) }
    else if s == seq!['s', 'a'] { Some(5) }
    else if s == seq!['s', 'u'] { Some(6) }
    else { None }
}

/// `"H:M"` split at the first colon, both halves parsed as `u32`.
pub open spec fn parse_hm_spec(s: Seq<char>) -> Option<(u32, u32)> {
    match split_once(s, ':') {
        Some(p) => match (parse_u32_spec(p.0), parse_u32_spec(p.1)) {
            (Some(h), Some(m)) => Some((h, m)),
            _ => None,
        },
        None => None,
    }
}

/// Seconds of the clock time `h:m` (no bounds on either).
pub open spec fn hm_secs(h: u32, m: u32) -> int {
    h as int * 3600 + m as int * 60
}

/// Last occurrence, at or before `now`, of a week entry, or `None` when
/// the entry does not parse. A clock time later than `now` today moves the
/// occurrence back a week.
pub open spec fn week_candidate(e: Seq<char>, now: int) -> Option<int> {
    match split_once(e, ' ') {
        None => None,
        Some(p) => match weekday_code_spec(p.0) {
            None => None,
            Some(wd) => match parse_hm_spec(p.1) {
                None => None,
                Some(hm) => {
                    let now_days = now / 86400;
                    let back = (weekday_of_day(now_days) - wd) % 7;
                    let c = (now_days - back) * 86400 + hm_secs(hm.0, hm.1);
                    Some(if c > now { c - 7 * 86400 } else { c })
                },
            },
        },
    }
}

/// Scans back from month `mo` of year `y`, at most `k` months, for the
/// first month that has day `day` and where `day` at `h:m` is not after
/// `now`.
pub open spec fn month_scan(y: int, mo: int, day: u32, h: u32, m: u32, now: int, k: nat) -> Option<int>
    decreases k,
{
    if k == 0 {
        None
    } else {
        let c = day_number(y, mo, day as int) * 86400 + hm_secs(h, m);
        if day <= month_length(mo, y) && c <= now {
            Some(c)
        } else if mo == 1 {
            month_scan(y - 1, 12, day, h, m, now, (k - 1) as nat)
        } else {
            month_scan(y, mo - 1, day, h, m, now, (k - 1) as nat)
        }
    }
}

/// Last occurrence, at or before `now`, of a month entry within the
/// current and the eleven previous months.
pub open spec fn month_candidate(e: Seq<char>, now: int) -> Option<int> {
    match split_once(e, ' ') {
        None => None,
        Some(p) => match parse_u32_spec(p.0) {
            None => None,
            Some(day) => match parse_hm_spec(p.1) {
                None => None,
                Some(hm) => {
                    let today = date_of_day(now / 86400);
                    month_scan(today.0, today.1, day, hm.0, hm.1, now, 12)
                },
            },
        },
    }
}

/// Moment of a direct entry `"Y-M-D H:M"`; the date is split like
/// `splitn(3, '-')`, so the day part keeps any further dashes.
pub open spec fn direct_secs_spec(e: Seq<char>) -> Option<int> {
    match split_once(e, ' ') {
        None => None,
        Some(p) => match split_once(p.0, '-') {
            None => None,
            Some(ym) => match parse_i32_spec(ym.0) {
                None => None,
                Some(y) => match split_once(ym.1, '-') {
                    None => None,
                    Some(md) => match (parse_u32_spec(md.0), parse_u32_spec(md.1)) {
                        (Some(mo), Some(d)) => match parse_hm_spec(p.1) {
                            Some(hm) => Some(civil_formula(y as int, mo as int, d as int) * 86400 + hm_secs(hm.0, hm.1)),
                            None => None,
                        },
                        _ => None,
                    },
                },
            },
        },
    }
}

pub open spec fn direct_candidate(e: Seq<char>, now: int) -> Option<int> {
    match direct_secs_spec(e) {
        Some(t) => if t <= now { Some(t) } else { None },
        None => None,
    }
}

pub open spec fn opt_max(a: Option<int>, b: Option<int>) -> Option<int> {
    match (a, b) {
        (Some(x), Some(y)) => Some(if x >= y { x } else { y }),
        (Some(x), None) => Some(x),
        (None, _) => b,
    }
}

/// Which kind of schedule a list holds.
pub enum EntryKind {
    Week,
    Month,
    Direct,
}

pub open spec fn candidate(kind: EntryKind, e: Seq<char>, now: int) -> Option<int> {
    match kind {
        EntryKind::Week => week_candidate(e, now),
        EntryKind::Month => month_candidate(e, now),
        EntryKind::Direct => direct_candidate(e, now),
    }
}

/// Latest candidate over a list of entries.
pub open spec fn best_candidate(kind: EntryKind, es: Seq<Seq<char>>, now: int) -> Option<int>
    decreases es.len(),
{
    if es.len() == 0 {
        None
    } else {
        opt_max(best_candidate(kind, es.drop_last(), now), candidate(kind, es.last(), now))
    }
}

/// A candidate moment as a timestamp (negative ones clamp to zero).
pub open spec fn clamp_time(t: Option<int>) -> Option<u64> {
    match t {
        Some(v) => Some(if v < 0 { 0u64 } else { v as u64 }),
        None => None,
    }
}

/// Last occurrence of any entry of the list.
pub open spec fn last_occurrence(kind: EntryKind, es: Seq<Seq<char>>, now: int) -> Option<u64> {
    clamp_time(best_candidate(kind, es, now))
}

pub open spec fn opt_max_u64(a: Option<u64>, b: Option<u64>) -> Option<u64> {
    match (a, b) {
        (Some(x), Some(y)) => Some(if x >= y { x } else { y }),
        (Some(x), None) => Some(x),
        (None, _) => b,
    }
}

pub open spec fn list_occurrence(kind: EntryKind, l: Option<Seq<Seq<char>>>, now: int) -> Option<u64> {
    match l {
        Some(es) => last_occurrence(kind, es, now),
        None => None,
    }
}

/// Latest occurrence of any schedule entry that is later than the last
/// activation.
pub open spec fn due_spec(r: RoutineView, now: int) -> Option<u64> {
    let best = opt_max_u64(
        opt_max_u64(list_occurrence(EntryKind::Week, r.week, now), list_occurrence(EntryKind::Month, r.month, now)),
        list_occurrence(EntryKind::Direct, r.direct, now),
    );
    match best {
        Some(t) => if t > r.last_triggered_at { Some(t) } else { None },
        None => None,
    }
}

/// Whether a direct entry survives pruning: unreadable ones stay, readable
/// ones stay until their moment has passed.
pub open spec fn direct_kept(e: Seq<char>, now: int) -> bool {
    match direct_secs_spec(e) {
        Some(t) => t >= now,
        None => true,
    }
}

pub open spec fn pruned_direct(l: Option<Seq<Seq<char>>>, now: int) -> Option<Seq<Seq<char>>> {
    match l {
        Some(es) => {
            let kept = es.filter(|e: Seq<char>| direct_kept(e, now));
            if kept.len() > 0 { Some(kept) } else { None }
        },
        None => None,
    }
}

/// Weekday code of `"mo"` … `"su"`.
pub fn weekday_code(s: &str) -> (r: Option<i64>)
    ensures
        match weekday_code_spec(s@) {
            Some(v) => r == Some(v as i64),
            None => r is None,
        },
{
    if s.unicode_len() != 2 {
        return None;
    }
    let a = s.get_char(0);
    let b = s.get_char(1);
    assert(s@ =~= seq![a, b]);
    if a == 'm' && b == 'o' { Some(0) }
    else if a == 't' && b == 'u' { Some(1) }
    else if a == 'w' && b == 'e' { Some(2) }
    else if a == 't' && b == 'h' { Some(3) }
    else if a == 'f' && b == 'r' { Some(4) }
    else if a == 's' && b == 'a' { Some(5) }
    else if a == 's' && b == 'u' { Some(6) }
    else { None }
}

/// `"H:M"` as `(H, M)`.
pub fn parse_hm(s: &str) -> (r: Option<(u32, u32)>)
    ensures
        r == parse_hm_spec(s@),
{
    let (h, m) = match split_once_char(s, ':') {
        Some(p) => p,
        None => return None,
    };
    let h = match parse_u32(h) {
        Some(v) => v,
        None => return None,
    };
    let m = match parse_u32(m) {
        Some(v) => v,
        None => return None,
    };
    Some((h, m))
}

/// Floor division of a time by one day.
fn day_of(t: i64) -> (r: i64)
    ensures
        r as int == t as int / 86400,
{
    let q = t / 86400;
    if t % 86400 < 0 { q - 1 } else { q }
}

fn week_entry(e: &str, now: i64) -> (r: Option<i64>)
    requires
        0 <= now <= MAX_TIME,
    ensures
        match week_candidate(e@, now as int) {
            Some(v) => r matches Some(x) && x as int == v,
            None => r is None,
        },
{
    let (wd_s, hm_s) = match split_once_char(e, ' ') {
        Some(p) => p,
        None => return None,
    };
    let wd = match weekday_code(wd_s) {
        Some(v) => v,
        None => return None,
    };
    let (h, m) = match parse_hm(hm_s) {
        Some(v) => v,
        None => return None,
    };
    let now_days = day_of(now);
    let now_wd = weekday_of(now_days);
    let diff = now_wd - wd;
    let back = if diff < 0 { diff + 7 } else { diff };
    let mut candidate = (now_days - back) * 86400 + h as i64 * 3600 + m as i64 * 60;
    if candidate > now {
        candidate = candidate - 7 * 86400;
    }
    Some(candidate)
}

fn month_entry(e: &str, now: i64, year: i32, month: u32) -> (r: Option<i64>)
    requires
        0 <= now <= MAX_TIME,
        1 <= month <= 12,
        1969 <= year <= 1_200_000_000,
        date_of_day(now as int / 86400).0 == year as int,
        date_of_day(now as int / 86400).1 == month as int,
    ensures
        match month_candidate(e@, now as int) {
            Some(v) => r matches Some(x) && x as int == v,
            None => r is None,
        },
{
    let (day_s, hm_s) = match split_once_char(e, ' ') {
        Some(p) => p,
        None => return None,
    };
    let day = match parse_u32(day_s) {
        Some(v) => v,
        None => return None,
    };
    let (h, m) = match parse_hm(hm_s) {
        Some(v) => v,
        None => return None,
    };
    let mut y = year;
    let mut mo = month;
    let mut k: u32 = 0;
    while k < 12
        invariant
            0 <= now <= MAX_TIME,
            k <= 12,
            1 <= mo <= 12,
            1967 <= y <= 1_200_000_000,
            1969 <= year <= 1_200_000_000,
            1 <= month <= 12,
            y as int * 12 + mo as int + k as int == year as int * 12 + month as int,
            month_candidate(e@, now as int) == month_scan(y as int, mo as int, day, h, m, now as int, (12 - k) as nat),
        decreases 12 - k,
    {
        if day <= days_in_month(mo, y) {
            let candidate = days_from_civil(y, mo, day) * 86400 + h as i64 * 3600 + m as i64 * 60;
            if candidate <= now {
                return Some(candidate);
            }
        }
        if mo == 1 {
            mo = 12;
            y = y - 1;
        } else {
            mo = mo - 1;
        }
        k = k + 1;
    }
    None
}

/// Moment of a direct entry `"Y-M-D H:M"`.
pub fn direct_entry_secs(entry: &str) -> (r: Option<i64>)
    ensures
        match direct_secs_spec(entry@) {
            Some(v) => r matches Some(x) && x as int == v,
            None => r is None,
        },
{
    let (date_s, hm_s) = match split_once_char(entry, ' ') {
        Some(p) => p,
        None => return None,
    };
    let (y_s, rest) = match split_once_char(date_s, '-') {
        Some(p) => p,
        None => return None,
    };
    let y = match parse_i32(y_s) {
        Some(v) => v,
        None => return None,
    };
    let (m_s, d_s) = match split_once_char(rest, '-') {
        Some(p) => p,
        None => return None,
    };
    let m = match parse_u32(m_s) {
        Some(v) => v,
        None => return None,
    };
    let d = match parse_u32(d_s) {
        Some(v) => v,
        None => return None,
    };
    let (h, mi) = match parse_hm(hm_s) {
        Some(v) => v,
        None => return None,
    };
    Some(days_from_civil(y, m, d) * 86400 + h as i64 * 3600 + mi as i64 * 60)
}


pub open spec fn opt_int(o: Option<i64>) -> Option<int> {
    match o {
        Some(x) => Some(x as int),
        None => None,
    }
}

fn max_opt(a: Option<i64>, b: Option<i64>) -> (r: Option<i64>)
    ensures
        opt_int(r) == opt_max(opt_int(a), opt_int(b)),
{
    match (a, b) {
        (Some(x), Some(y)) => Some(if x >= y { x } else { y }),
        (Some(x), None) => Some(x),
        (None, _) => b,
    }
}

fn clamp(o: Option<i64>) -> (r: Option<u64>)
    ensures
        r == clamp_time(opt_int(o)),
{
    match o {
        Some(v) => Some(if v < 0 { 0 } else { v as u64 }),
        None => None,
    }
}

/// Every day number is the day number of a date.
pub proof fn lemma_day_has_date(z: int)
    ensures
        is_valid_date(date_of_day(z).0, date_of_day(z).1, date_of_day(z).2),
        day_number(date_of_day(z).0, date_of_day(z).1, date_of_day(z).2) == z,
{
    crate::calendar::lemma_every_day_has_date(z);
}

/// Between 1970 and `MAX_TIME` the year is between 1970 and 1.2 billion.
proof fn lemma_year_bounds(z: int)
    requires
        0 <= z <= MAX_TIME / 86400,
    ensures
        1970 <= date_of_day(z).0 <= 1_200_000_000,
{
    lemma_day_has_date(z);
    let t = date_of_day(z);
    if t.0 < 1970 {
        crate::calendar::lemma_day_number_strict(t.0, t.1, t.2, 1970, 1, 1);
    }
    if t.0 > 1_200_000_000 {
        crate::calendar::lemma_day_number_strict(1_200_000_000, 1, 1, t.0, t.1, t.2);
    }
}

/// The last occurrence, at or before `now`, of any of the week entries
/// (`"mo 09:30"`); `None` when no entry parses.
pub fn last_week_occurrence(entries: &[String], now: u64) -> (r: Option<u64>)
    requires
        now <= MAX_TIME,
    ensures
        r == last_occurrence(EntryKind::Week, strings_view(entries@), now as int),
{
    let ghost sv = strings_view(entries@);
    let now_i = now as i64;
    let mut best: Option<i64> = None;
    let mut i: usize = 0;
    while i < entries.len()
        invariant
            now_i as int == now as int,
            now <= MAX_TIME,
            i <= entries@.len(),
            sv == strings_view(entries@),
            opt_int(best) == best_candidate(EntryKind::Week, sv.take(i as int), now as int),
        decreases entries@.len() - i,
    {
        let c = week_entry(entries[i].as_str(), now_i);
        assert(sv.take(i + 1).drop_last() =~= sv.take(i as int));
        best = max_opt(best, c);
        i = i + 1;
    }
    assert(sv.take(i as int) =~= sv);
    clamp(best)
}

/// The last occurrence, at or before `now`, of any of the month entries
/// (`"15 09:30"`), looking back at most twelve months per entry.
pub fn last_month_occurrence(entries: &[String], now: u64) -> (r: Option<u64>)
    requires
        now <= MAX_TIME,
    ensures
        r == last_occurrence(EntryKind::Month, strings_view(entries@), now as int),
{
    let ghost sv = strings_view(entries@);
    let now_i = now as i64;
    let now_days = day_of(now_i);
    let (year, month, _) = civil_from_days(now_days);
    proof {
        lemma_year_bounds(now_days as int);
        lemma_day_has_date(now_days as int);
    }
    let mut best: Option<i64> = None;
    let mut i: usize = 0;
    while i < entries.len()
        invariant
            now_i as int == now as int,
            now <= MAX_TIME,
            1 <= month <= 12,
            1969 <= year <= 1_200_000_000,
            date_of_day(now_i as int / 86400).0 == year as int,
            date_of_day(now_i as int / 86400).1 == month as int,
            i <= entries@.len(),
            sv == strings_view(entries@),
            opt_int(best) == best_candidate(EntryKind::Month, sv.take(i as int), now as int),
        decreases entries@.len() - i,
    {
        let c = month_entry(entries[i].as_str(), now_i, year, month);
        assert(sv.take(i + 1).drop_last() =~= sv.take(i as int));
        best = max_opt(best, c);
        i = i + 1;
    }
    assert(sv.take(i as int) =~= sv);
    clamp(best)
}

/// The latest direct entry (`"2025-07-01 09:30"`) at or before `now`.
pub fn last_direct_occurrence(entries: &[String], now: u64) -> (r: Option<u64>)
    ensures
        r == last_occurrence(EntryKind::Direct, strings_view(entries@), now as i64 as int),
{
    let ghost sv = strings_view(entries@);
    let now_i = now as i64;
    let mut best: Option<i64> = None;
    let mut i: usize = 0;
    while i < entries.len()
        invariant
            i <= entries@.len(),
            sv == strings_view(entries@),
            opt_int(best) == best_candidate(EntryKind::Direct, sv.take(i as int), now_i as int),
        decreases entries@.len() - i,
    {
        let t = direct_entry_secs(entries[i].as_str());
        let c = match t {
            Some(v) => if v <= now_i { Some(v) } else { None },
            None => None,
        };
        assert(sv.take(i + 1).drop_last() =~= sv.take(i as int));
        best = max_opt(best, c);
        i = i + 1;
    }
    assert(sv.take(i as int) =~= sv);
    clamp(best)
}

fn list_occ(kind: EntryKind, l: &Option<Vec<String>>, now: u64) -> (r: Option<u64>)
    requires
        now <= MAX_TIME,
    ensures
        r == list_occurrence(kind, opt_strings_view(*l), now as int),
{
    match l {
        Some(v) => match kind {
            EntryKind::Week => last_week_occurrence(v.as_slice(), now),
            EntryKind::Month => last_month_occurrence(v.as_slice(), now),
            EntryKind::Direct => last_direct_occurrence(v.as_slice(), now),
        },
        None => None,
    }
}

fn max_opt_u64(a: Option<u64>, b: Option<u64>) -> (r: Option<u64>)
    ensures
        r == opt_max_u64(a, b),
{
    match (a, b) {
        (Some(x), Some(y)) => Some(if x >= y { x } else { y }),
        (Some(x), None) => Some(x),
        (None, _) => b,
    }
}

/// The occurrence that makes the routine due: the latest past occurrence
/// of any of its entries, if it is later than the last activation.
pub fn due_occurrence(routine: &Routine, now: u64) -> (r: Option<u64>)
    requires
        now <= MAX_TIME,
    ensures
        r == due_spec(routine@, now as int),
{
    let w = list_occ(EntryKind::Week, &routine.week, now);
    let m = list_occ(EntryKind::Month, &routine.month, now);
    let d = list_occ(EntryKind::Direct, &routine.direct, now);
    let best = max_opt_u64(max_opt_u64(w, m), d);
    match best {
        Some(t) => if t > routine.last_triggered_at { Some(t) } else { None },
        None => None,
    }
}

/// Whether the routine has an occurrence since its last activation.
pub fn is_due(routine: &Routine, now: u64) -> (r: bool)
    requires
        now <= MAX_TIME,
    ensures
        r == (due_spec(routine@, now as int) is Some),
{
    due_occurrence(routine, now).is_some()
}

/// Drops the direct entries whose moment has passed (unreadable ones
/// stay); an emptied list becomes `None`.
pub fn prune_expired_direct(routine: &mut Routine, now: u64)
    ensures
        final(routine)@ == (RoutineView {
            direct: pruned_direct(old(routine)@.direct, now as i64 as int),
            ..old(routine)@
        }),
{
    let entries = match routine.direct.take() {
        Some(v) => v,
        None => return,
    };
    let now_i = now as i64;
    let ghost sv = strings_view(entries@);
    let ghost keep = |e: Seq<char>| direct_kept(e, now_i as int);
    let mut kept: Vec<String> = Vec::new();
    let mut i: usize = 0;
    while i < entries.len()
        invariant
            i <= entries@.len(),
            sv == strings_view(entries@),
            strings_view(kept@) == sv.take(i as int).filter(keep),
            keep == |e: Seq<char>| direct_kept(e, now_i as int),
        decreases entries@.len() - i,
    {
        let t = direct_entry_secs(entries[i].as_str());
        let stay = match t {
            Some(v) => v >= now_i,
            None => true,
        };
        proof {
            reveal_with_fuel(Seq::<_>::filter, 1);
            assert(sv.take(i + 1).drop_last() =~= sv.take(i as int));
        }
        if stay {
            kept.push(entries[i].clone());
            assert(strings_view(kept@) =~= sv.take(i as int).filter(keep).push(sv[i as int]));
        }
        i = i + 1;
    }
    assert(sv.take(i as int) =~= sv);
    if kept.len() > 0 {
        routine.direct = Some(kept);
    }
}

/// A week entry whose clock time, when it reads, is less than a week of
/// seconds (any real time of day is).
pub open spec fn week_time_ok(e: Seq<char>) -> bool {
    match split_once(e, ' ') {
        Some(p) => match parse_hm_spec(p.1) {
            Some(hm) => hm_secs(hm.0, hm.1) < 7 * 86400,
            None => true,
        },
        None => true,
    }
}

/// Every week entry of the routine has such a time.
pub open spec fn sane_week(r: RoutineView) -> bool {
    match r.week {
        Some(es) => forall|i: int| 0 <= i < es.len() ==> week_time_ok(#[trigger] es[i]),
        None => true,
    }
}

proof fn lemma_candidate_not_future(kind: EntryKind, e: Seq<char>, now: int)
    requires
        now >= 0,
        kind is Week ==> week_time_ok(e),
    ensures
        candidate(kind, e, now) matches Some(c) ==> c <= now,
{
    match kind {
        EntryKind::Week => {
            match split_once(e, ' ') {
                Some(p) => match weekday_code_spec(p.0) {
                    Some(wd) => match parse_hm_spec(p.1) {
                        Some(hm) => {
                            let now_days = now / 86400;
                            let back = (weekday_of_day(now_days) - wd) % 7;
                            let h = hm_secs(hm.0, hm.1);
                            assert(0 <= back < 7);
                            assert(h >= 0);
                            assert(now_days * 86400 <= now);
                            let c = (now_days - back) * 86400 + h;
                            assert(c == now_days * 86400 - back * 86400 + h);
                        },
                        None => {},
                    },
                    None => {},
                },
                None => {},
            }
        },
        EntryKind::Month => {
            match split_once(e, ' ') {
                Some(p) => match parse_u32_spec(p.0) {
                    Some(day) => match parse_hm_spec(p.1) {
                        Some(hm) => {
                            let today = date_of_day(now / 86400);
                            lemma_month_scan_not_future(today.0, today.1, day, hm.0, hm.1, now, 12);
                        },
                        None => {},
                    },
                    None => {},
                },
                None => {},
            }
        },
        EntryKind::Direct => {},
    }
}

proof fn lemma_month_scan_not_future(y: int, mo: int, day: u32, h: u32, m: u32, now: int, k: nat)
    ensures
        month_scan(y, mo, day, h, m, now, k) matches Some(c) ==> c <= now,
    decreases k,
{
    if k > 0 {
        if mo == 1 {
            lemma_month_scan_not_future(y - 1, 12, day, h, m, now, (k - 1) as nat);
        } else {
            lemma_month_scan_not_future(y, mo - 1, day, h, m, now, (k - 1) as nat);
        }
    }
}

proof fn lemma_best_not_future(kind: EntryKind, es: Seq<Seq<char>>, now: int)
    requires
        now >= 0,
        kind is Week ==> forall|i: int| 0 <= i < es.len() ==> week_time_ok(#[trigger] es[i]),
    ensures
        best_candidate(kind, es, now) matches Some(c) ==> c <= now,
    decreases es.len(),
{
    if es.len() > 0 {
        lemma_best_not_future(kind, es.drop_last(), now);
        lemma_candidate_not_future(kind, es.last(), now);
    }
}

proof fn lemma_list_not_future(kind: EntryKind, l: Option<Seq<Seq<char>>>, now: u64)
    requires
        kind is Week ==> (l matches Some(es) ==> forall|i: int| 0 <= i < es.len() ==> week_time_ok(#[trigger] es[i])),
    ensures
        list_occurrence(kind, l, now as int) matches Some(t) ==> t <= now,
{
    match l {
        Some(es) => lemma_best_not_future(kind, es, now as int),
        None => {},
    }
}

/// A due occurrence lies after the last activation and never after now
/// (for routines whose week times are times of day).
pub proof fn lemma_due_not_future(r: RoutineView, now: u64)
    requires
        sane_week(r),
    ensures
        due_spec(r, now as int) matches Some(t) ==> r.last_triggered_at < t <= now,
{
    lemma_list_not_future(EntryKind::Week, r.week, now);
    lemma_list_not_future(EntryKind::Month, r.month, now);
    lemma_list_not_future(EntryKind::Direct, r.direct, now);
}

/// A month entry whose clock time, when it reads, is within a day.
pub open spec fn month_time_ok(e: Seq<char>) -> bool {
    match split_once(e, ' ') {
        Some(p) => match parse_hm_spec(p.1) {
            Some(hm) => hm_secs(hm.0, hm.1) < 86400,
            None => true,
        },
        None => true,
    }
}

/// Every month entry of the routine has such a time.
pub open spec fn sane_month(r: RoutineView) -> bool {
    match r.month {
        Some(es) => forall|i: int| 0 <= i < es.len() ==> month_time_ok(#[trigger] es[i]),
        None => true,
    }
}

/// `t` is an occurrence of schedule entry `e`: for a week entry, its
/// weekday at its clock time; for a month entry, its day of any month that
/// has that day, at its clock time; for a direct entry, its moment.
pub open spec fn occurs(kind: EntryKind, e: Seq<char>, t: int) -> bool {
    match kind {
        EntryKind::Week => match split_once(e, ' ') {
            Some(p) => match (weekday_code_spec(p.0), parse_hm_spec(p.1)) {
                (Some(wd), Some(hm)) => exists|d: int| #[trigger] weekday_of_day(d) == wd
                    && t == d * 86400 + hm_secs(hm.0, hm.1),
                _ => false,
            },
            None => false,
        },
        EntryKind::Month => match split_once(e, ' ') {
            Some(p) => match (parse_u32_spec(p.0), parse_hm_spec(p.1)) {
                (Some(day), Some(hm)) => exists|y: int, mo: int| #[trigger] is_valid_date(y, mo, day as int)
                    && t == day_number(y, mo, day as int) * 86400 + hm_secs(hm.0, hm.1),
                _ => false,
            },
            None => false,
        },
        EntryKind::Direct => direct_secs_spec(e) == Some(t),
    }
}

pub open spec fn later_month(y1: int, m1: int, y2: int, m2: int) -> bool {
    y1 > y2 || (y1 == y2 && m1 > m2)
}

proof fn lemma_month_scan_latest(y: int, mo: int, day: u32, h: u32, m: u32, now: int, k: nat, yy: int, mm: int)
    requires
        1 <= mo <= 12,
        forall|y2: int, m2: int| is_valid_date(y2, m2, day as int) && later_month(y2, m2, y, mo)
            ==> #[trigger] day_number(y2, m2, day as int) * 86400 + hm_secs(h, m) > now,
        is_valid_date(yy, mm, day as int),
        day_number(yy, mm, day as int) * 86400 + hm_secs(h, m) <= now,
    ensures
        month_scan(y, mo, day, h, m, now, k) matches Some(c)
            ==> day_number(yy, mm, day as int) * 86400 + hm_secs(h, m) <= c,
    decreases k,
{
    if k > 0 {
        let c = day_number(y, mo, day as int) * 86400 + hm_secs(h, m);
        if day <= month_length(mo, y) && c <= now {
            if later_month(yy, mm, y, mo) {
            } else if yy == y && mm == mo {
            } else {
                crate::calendar::lemma_day_number_strict(yy, mm, day as int, y, mo, day as int);
            }
        } else {
            let (py, pm) = if mo == 1 { (y - 1, 12int) } else { (y, mo - 1) };
            assert forall|y2: int, m2: int| is_valid_date(y2, m2, day as int) && later_month(y2, m2, py, pm)
                implies #[trigger] day_number(y2, m2, day as int) * 86400 + hm_secs(h, m) > now by {
                if !later_month(y2, m2, y, mo) {
                    assert(y2 == y && m2 == mo);
                }
            }
            lemma_month_scan_latest(py, pm, day, h, m, now, (k - 1) as nat, yy, mm);
        }
    }
}

/// A scan that starts in a month whose first day is not after `nd`, for a
/// day that every month of 31 days has, at a time within a day, finds one
/// of the next three months it looks at.
proof fn lemma_month_scan_finds(y: int, mo: int, day: u32, h: u32, m: u32, now: int, nd: int)
    requires
        1 <= mo <= 12,
        1 <= day <= 31,
        hm_secs(h, m) < 86400,
        nd * 86400 <= now,
        day_number(y, mo, 1) <= nd,
    ensures
        month_scan(y, mo, day, h, m, now, 12) is Some,
{
    let (y1, m1) = if mo == 1 { (y - 1, 12int) } else { (y, mo - 1) };
    let (y2, m2) = if m1 == 1 { (y1 - 1, 12int) } else { (y1, m1 - 1) };
    let c0 = day_number(y, mo, day as int) * 86400 + hm_secs(h, m);
    if !(day <= month_length(mo, y) && c0 <= now) {
        let c1 = day_number(y1, m1, day as int) * 86400 + hm_secs(h, m);
        if day <= month_length(m1, y1) {
            crate::calendar::lemma_day_number_strict(y1, m1, day as int, y, mo, 1);
            assert(c1 <= now);
        } else {
            assert(month_length(m2, y2) == 31);
            crate::calendar::lemma_day_number_strict(y2, m2, day as int, y, mo, 1);
            assert(day_number(y2, m2, day as int) * 86400 + hm_secs(h, m) <= now);
            assert(month_scan(y2, m2, day, h, m, now, 10) is Some);
            assert(month_scan(y1, m1, day, h, m, now, 11) is Some);
        }
    }
}

#[verifier::spinoff_prover]
#[verifier::rlimit(40)]
proof fn lemma_candidate_latest(kind: EntryKind, e: Seq<char>, now: int, t: int)
    requires
        now >= 0,
        kind is Week ==> week_time_ok(e),
        kind is Month ==> month_time_ok(e),
        occurs(kind, e, t),
        t <= now,
    ensures
        candidate(kind, e, now) matches Some(c) && t <= c,
{
    match kind {
        EntryKind::Week => {
            let p = split_once(e, ' ')->0;
            let wd = weekday_code_spec(p.0)->0;
            let hm = parse_hm_spec(p.1)->0;
            let h = hm_secs(hm.0, hm.1);
            let d = choose|d: int| #[trigger] weekday_of_day(d) == wd && t == d * 86400 + h;
            let nd = now / 86400;
            let a = (nd + 3) % 7;
            let back = (weekday_of_day(nd) - wd) % 7;
            let dd = nd - back;
            assert(0 <= wd < 7);
            assert(0 <= back < 7);
            assert((dd + 3) % 7 == wd);
            assert((d + 3) % 7 == wd);
            let j = (d - dd) / 7;
            assert(d - dd == 7 * j);
            let c0 = dd * 86400 + h;
            assert(t == c0 + 604800 * j);
            assert(nd * 86400 <= now < nd * 86400 + 86400);
            assert(h >= 0);
        },
        EntryKind::Month => {
            let p = split_once(e, ' ')->0;
            let day = parse_u32_spec(p.0)->0;
            let hm = parse_hm_spec(p.1)->0;
            let h = hm_secs(hm.0, hm.1);
            let (yy, mm) = choose|y: int, mo: int| #[trigger] is_valid_date(y, mo, day as int)
                && t == day_number(y, mo, day as int) * 86400 + h;
            let nd = now / 86400;
            crate::calendar::lemma_every_day_has_date(nd);
            let today = date_of_day(nd);
            assert forall|y2: int, m2: int| is_valid_date(y2, m2, day as int) && later_month(y2, m2, today.0, today.1)
                implies #[trigger] day_number(y2, m2, day as int) * 86400 + hm_secs(hm.0, hm.1) > now by {
                crate::calendar::lemma_day_number_strict(today.0, today.1, today.2, y2, m2, day as int);
            }
            lemma_month_scan_latest(today.0, today.1, day, hm.0, hm.1, now, 12, yy, mm);
            lemma_month_scan_finds(today.0, today.1, day, hm.0, hm.1, now, nd);
        },
        EntryKind::Direct => {},
    }
}

proof fn lemma_best_latest(kind: EntryKind, es: Seq<Seq<char>>, now: int, i: int, t: int)
    requires
        now >= 0,
        0 <= i < es.len(),
        kind is Week ==> forall|j: int| 0 <= j < es.len() ==> week_time_ok(#[trigger] es[j]),
        kind is Month ==> forall|j: int| 0 <= j < es.len() ==> month_time_ok(#[trigger] es[j]),
        occurs(kind, es[i], t),
        t <= now,
    ensures
        best_candidate(kind, es, now) matches Some(c) && t <= c,
    decreases es.len(),
{
    let last = es.len() - 1;
    if i == last {
        lemma_candidate_latest(kind, es[last], now, t);
    } else {
        let front = es.drop_last();
        assert(front[i] == es[i]);
        assert forall|j: int| 0 <= j < front.len() implies
            (kind is Week ==> week_time_ok(#[trigger] front[j])) && (kind is Month ==> month_time_ok(front[j])) by {
            assert(front[j] == es[j]);
        }
        lemma_best_latest(kind, front, now, i, t);
    }
}

/// The due occurrence is the latest one: an occurrence of any entry of the
/// routine that is not after `now` is not after the due occurrence, and, when
/// nothing is due, not after the last activation (for routines whose week
/// and month times are times of day).
pub proof fn lemma_due_is_latest(r: RoutineView, now: u64, kind: EntryKind, i: int, t: int)
    requires
        sane_week(r),
        sane_month(r),
        match kind {
            EntryKind::Week => r.week matches Some(es) && 0 <= i < es.len() && occurs(kind, es[i], t),
            EntryKind::Month => r.month matches Some(es) && 0 <= i < es.len() && occurs(kind, es[i], t),
            EntryKind::Direct => r.direct matches Some(es) && 0 <= i < es.len() && occurs(kind, es[i], t),
        },
        t <= now,
    ensures
        match due_spec(r, now as int) {
            Some(d) => t <= d,
            None => t <= r.last_triggered_at,
        },
{
    let l = match kind {
        EntryKind::Week => r.week,
        EntryKind::Month => r.month,
        EntryKind::Direct => r.direct,
    };
    let es = l->0;
    lemma_best_latest(kind, es, now as int, i, t);
    lemma_best_not_future(kind, es, now as int);
    let b = best_candidate(kind, es, now as int);
    let v = b->0;
    assert(t <= v <= now);
    assert(list_occurrence(kind, l, now as int) == clamp_time(b));
    let c = if v < 0 { 0u64 } else { v as u64 };
    assert(clamp_time(b) == Some(c));
    assert(t <= c);
    let w = list_occurrence(EntryKind::Week, r.week, now as int);
    let mo = list_occurrence(EntryKind::Month, r.month, now as int);
    let di = list_occurrence(EntryKind::Direct, r.direct, now as int);
    match kind {
        EntryKind::Week => assert(w == Some(c)),
        EntryKind::Month => assert(mo == Some(c)),
        EntryKind::Direct => assert(di == Some(c)),
    }
}

/// The weekday codes of week entries are the editor's: the code at place
/// `i` of the editor's list (0 = Monday … 6 = Sunday) reads as `i`, and no
/// other text reads as a weekday. Weekdays count from the calendar:
/// 1970-01-01, day 0, was a Thursday ("th", place 3), and the weekday
/// repeats every seven days. So the last occurrence of a week entry whose
/// code is at place `i` lies on a day `d` with `(d + 3) % 7 == i`: a
/// Friday entry (`"fr"`, place 4) falls on a Friday.
pub proof fn lemma_week_codes_follow_the_calendar(e: Seq<char>, now: int)
    requires
        now >= 0,
    ensures
        forall|i: int| 0 <= i < 7 ==> weekday_code_spec(#[trigger] crate::routine_ui::week_codes()[i]) == Some(i),
        forall|t: Seq<char>| #[trigger] weekday_code_spec(t) is Some
            ==> t == crate::routine_ui::week_codes()[weekday_code_spec(t)->0],
        weekday_code_spec(seq!['f', 'r']) == Some(4int),
        weekday_code_spec(seq!['s', 'a']) == Some(5int),
        weekday_of_day(crate::calendar::day_number(1970, 1, 1)) == 3,
        crate::routine_ui::week_codes()[3] == seq!['t', 'h'],
        forall|d: int| #[trigger] weekday_of_day(d + 7) == weekday_of_day(d),
        week_candidate(e, now) matches Some(c) ==> ({
            let p = split_once(e, ' ')->0;
            let hm = parse_hm_spec(p.1)->0;
            let h = hm_secs(hm.0, hm.1);
            &&& (c - h) % 86400 == 0
            &&& forall|i: int| 0 <= i < 7 && p.0 == #[trigger] crate::routine_ui::week_codes()[i]
                ==> ((c - h) / 86400 + 3) % 7 == i
        }),
{
    let codes = crate::routine_ui::week_codes();
    assert(codes[0] == seq!['m', 'o']);
    assert(codes[1] == seq!['t', 'u']);
    assert(codes[2] == seq!['w', 'e']);
    assert(codes[3] == seq!['t', 'h']);
    assert(codes[4] == seq!['f', 'r']);
    assert(codes[5] == seq!['s', 'a']);
    assert(codes[6] == seq!['s', 'u']);
    assert forall|i: int| 0 <= i < 7 implies weekday_code_spec(#[trigger] codes[i]) == Some(i) by {
        if i == 0 {} else if i == 1 {} else if i == 2 {} else if i == 3 {} else if i == 4 {} else if i == 5 {} else {}
    }
    assert(crate::calendar::day_number(1970, 1, 1) == 0);
    match week_candidate(e, now) {
        Some(c) => {
            let p = split_once(e, ' ')->0;
            let wd = weekday_code_spec(p.0)->0;
            let hm = parse_hm_spec(p.1)->0;
            let h = hm_secs(hm.0, hm.1);
            let nd = now / 86400;
            let back = (weekday_of_day(nd) - wd) % 7;
            let dd = nd - back;
            assert(0 <= wd < 7);
            assert((dd + 3) % 7 == wd);
            let c0 = dd * 86400 + h;
            let day = if c0 > now { dd - 7 } else { dd };
            assert(c == day * 86400 + h);
            assert(c - h == day * 86400);
            assert((day + 3) % 7 == wd);
            assert forall|i: int| 0 <= i < 7 && p.0 == #[trigger] codes[i] implies ((c - h) / 86400 + 3) % 7 == i by {
                assert(weekday_code_spec(codes[i]) == Some(i));
            }
        },
        None => {},
    }
}

} // verus!
