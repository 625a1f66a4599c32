//! The month-grid date picker of the routine editor. Months are counted
//! from 0 (January) here.
use vstd::prelude::*;
use crate::calendar::{civil_from_days, date_of_day, month_length, lemma_every_day_has_date};
use crate::time::{local_now, local_spec};

verus! {

/// Short month names, January first.
pub open spec fn months_short() -> Seq<Seq<char>> {
    seq![
        seq!['я', 'н', 'в'], seq!['ф', 'е', 'в'], seq!['м', 'а', 'р'], seq!['а', 'п', 'р'],
        seq!['м', 'а', 'й'], seq!['и', 'ю', 'н'], seq!['и', 'ю', 'л'], seq!['а', 'в', 'г'],
        seq!['с', 'е', 'н'], seq!['о', 'к', 'т'], seq!['н', 'о', 'я'], seq!['д', 'е', 'к'],
    ]
}

/// Short name of month `m` (0 = January).
pub fn month_short(m: usize) -> (r: &'static str)
    requires
        m < 12,
    ensures
        r@ == months_short()[m as int],
{
    let names: [&'static str; 12] = ["янв", "фев", "мар", "апр", "май", "июн", "июл", "авг", "сен", "окт", "ноя", "дек"];
    proof {
        reveal_strlit("янв");
        reveal_strlit("фев");
        reveal_strlit("мар");
        reveal_strlit("апр");
        reveal_strlit("май");
        reveal_strlit("июн");
        reveal_strlit("июл");
        reveal_strlit("авг");
        reveal_strlit("сен");
        reveal_strlit("окт");
        reveal_strlit("ноя");
        reveal_strlit("дек");
    }
    let r = names[m];
    proof {
        assert(names@[m as int] == r);
        if m == 0 { assert(r@ =~= months_short()[0]); }
        else if m == 1 { assert(r@ =~= months_short()[1]); }
        else if m == 2 { assert(r@ =~= months_short()[2]); }
        else if m == 3 { assert(r@ =~= months_short()[3]); }
        else if m == 4 { assert(r@ =~= months_short()[4]); }
        else if m == 5 { assert(r@ =~= months_short()[5]); }
        else if m == 6 { assert(r@ =~= months_short()[6]); }
        else if m == 7 { assert(r@ =~= months_short()[7]); }
        else if m == 8 { assert(r@ =~= months_short()[8]); }
        else if m == 9 { assert(r@ =~= months_short()[9]); }
        else if m == 10 { assert(r@ =~= months_short()[10]); }
        else { assert(r@ =~= months_short()[11]); }
    }
    r
}

/// Today's local date as day, month from 0, year.
pub open spec fn today_spec(local: u64) -> (u32, usize, i32) {
    let t = date_of_day(local as int / 86400);
    (t.2 as u32, (t.1 - 1) as usize, t.0 as i32)
}

/// The local date at local time `local`.
pub fn date_at(local: u64) -> (r: (u32, usize, i32))
    ensures
        r == today_spec(local),
        1 <= r.0 <= 31,
        r.1 < 12,
{
    let days = local / 86400;
    proof { lemma_every_day_has_date(days as int); }
    let (y, m, d) = civil_from_days(days as i64);
    (d, (m - 1) as usize, y)
}

/// Today's local date, in a zone `offset_secs` ahead of UTC.
pub fn today(offset_secs: i64) -> (r: (u32, usize, i32))
    ensures
        exists|utc: u64| r == today_spec(local_spec(utc, offset_secs)),
        1 <= r.0 <= 31,
        r.1 < 12,
{
    date_at(local_now(offset_secs))
}

/// Days in month `month` (0 = January) of `year`.
pub fn days_in_month(month: usize, year: i32) -> (r: u32)
    requires
        month < 12,
    ensures
        r as int == month_length(month + 1, year as int),
{
    crate::calendar::days_in_month((month + 1) as u32, year)
}

/// Integer division rounding toward zero, as `/` does in code.
pub open spec fn tdiv(a: int, b: int) -> int {
    if a >= 0 { a / b } else { -((-a) / b) }
}

pub open spec fn month_code(m: int) -> int {
    seq![0int, 3, 2, 5, 0, 3, 5, 1, 4, 6, 2, 4][m]
}

/// The weekday formula of the grid (Sakamoto's, moved so that Monday is
/// 0), for the first of month `m` (0 = January) of year `year`.
pub open spec fn first_weekday_spec(m: int, year: int) -> int {
    let y = if m < 2 { year - 1 } else { year };
    (y + tdiv(y, 4) - tdiv(y, 100) + tdiv(y, 400) + month_code(m) + 1 + 6) % 7
}

/// Column (0 = Monday) of the first day of month `month` in the grid.
#[verifier::rlimit(40)]
pub fn first_weekday(month: usize, year: i32) -> (r: usize)
    requires
        month < 12,
        i32::MIN + 1 <= year,
        year + year / 4 <= i32::MAX - 12,
    ensures
        r as int == first_weekday_spec(month as int, year as int),
{
    let t: [i32; 12] = [0, 3, 2, 5, 0, 3, 5, 1, 4, 6, 2, 4];
    assert(t@ =~= seq![0i32, 3, 2, 5, 0, 3, 5, 1, 4, 6, 2, 4]);
    let y = if month < 2 { year - 1 } else { year };
    let q4 = y / 4;
    let q100 = y / 100;
    let q400 = y / 400;
    assert(q4 == tdiv(y as int, 4));
    assert(q100 == tdiv(y as int, 100));
    assert(q400 == tdiv(y as int, 400));
    let s = y as i64 + q4 as i64 - q100 as i64 + q400 as i64 + t[month] as i64 + 1 + 6;
    let r = s % 7;
    let r = if r < 0 { r + 7 } else { r };
    r as usize
}

/// The picker: open or closed, the chosen date, the month shown.
pub struct DatePickerState {
    pub open: bool,
    /// Day, month from 0, year.
    pub selected: Option<(u32, usize, i32)>,
    pub view_year: i32,
    pub view_month: usize,
}

impl DatePickerState {
    /// Closed, nothing chosen, showing the month of `today`.
    pub fn for_today(today: (u32, usize, i32)) -> (s: Self)
        ensures
            !s.open,
            s.selected is None,
            s.view_month == today.1,
            s.view_year == today.2,
    {
        DatePickerState { open: false, selected: None, view_year: today.2, view_month: today.1 }
    }

    /// The picker as it opens each time: closed, nothing chosen, on
    /// today's month.
    pub fn new(offset_secs: i64) -> (s: Self)
        ensures
            !s.open,
            s.selected is None,
            s.view_month < 12,
            exists|utc: u64| #![trigger local_spec(utc, offset_secs)]
                s.view_month == today_spec(local_spec(utc, offset_secs)).1
                && s.view_year == today_spec(local_spec(utc, offset_secs)).2,
    {
        let t = today(offset_secs);
        proof {
            let utc = choose|utc: u64| t == today_spec(local_spec(utc, offset_secs));
            assert(t == today_spec(local_spec(utc, offset_secs)));
        }
        DatePickerState::for_today(t)
    }

    /// A click on the field: opens or closes the popup; opening shows the
    /// month of the chosen date, or of today.
    pub fn toggle(&mut self, today: (u32, usize, i32))
        ensures
            final(self).open == !old(self).open,
            final(self).selected == old(self).selected,
            final(self).open ==> (match old(self).selected {
                Some((_, m, y)) => final(self).view_month == m && final(self).view_year == y,
                None => final(self).view_month == today.1 && final(self).view_year == today.2,
            }),
            !final(self).open ==> final(self).view_month == old(self).view_month && final(self).view_year == old(self).view_year,
    {
        self.open = !self.open;
        if self.open {
            let (_, m, y) = match self.selected {
                Some(s) => s,
                None => today,
            };
            self.view_month = m;
            self.view_year = y;
        }
    }

    /// The month shown is today's: no going back from it.
    pub fn at_minimum(&self, today_m: usize, today_y: i32) -> (r: bool)
        ensures
            r == (self.view_year == today_y && self.view_month == today_m),
    {
        self.view_year == today_y && self.view_month == today_m
    }

    /// The previous month (December of the previous year before January).
    pub fn prev_month(&mut self)
        requires
            old(self).view_month < 12,
            old(self).view_month == 0 ==> old(self).view_year > i32::MIN,
        ensures
            final(self).view_month < 12,
            old(self).view_month == 0 ==> final(self).view_month == 11 && final(self).view_year == old(self).view_year - 1,
            old(self).view_month > 0 ==> final(self).view_month == old(self).view_month - 1 && final(self).view_year == old(self).view_year,
            final(self).selected == old(self).selected,
            final(self).open == old(self).open,
    {
        if self.view_month == 0 {
            self.view_month = 11;
            self.view_year = self.view_year - 1;
        } else {
            self.view_month = self.view_month - 1;
        }
    }

    /// The next month (January of the next year after December).
    pub fn next_month(&mut self)
        requires
            old(self).view_month < 12,
            old(self).view_month == 11 ==> old(self).view_year < i32::MAX,
        ensures
            final(self).view_month < 12,
            old(self).view_month == 11 ==> final(self).view_month == 0 && final(self).view_year == old(self).view_year + 1,
            old(self).view_month < 11 ==> final(self).view_month == old(self).view_month + 1 && final(self).view_year == old(self).view_year,
            final(self).selected == old(self).selected,
            final(self).open == old(self).open,
    {
        if self.view_month == 11 {
            self.view_month = 0;
            self.view_year = self.view_year + 1;
        } else {
            self.view_month = self.view_month + 1;
        }
    }

    /// A day of the grid was clicked: it is chosen and the popup closes.
    pub fn select(&mut self, day: u32)
        ensures
            final(self).selected == Some((day, old(self).view_month, old(self).view_year)),
            !final(self).open,
            final(self).view_month == old(self).view_month,
            final(self).view_year == old(self).view_year,
    {
        self.selected = Some((day, self.view_month, self.view_year));
        self.open = false;
    }

    /// A day of today's month before today cannot be chosen.
    pub fn is_past(&self, day: u32, today: (u32, usize, i32)) -> (r: bool)
        ensures
            r == (self.view_year == today.2 && self.view_month == today.1 && day < today.0),
    {
        self.view_year == today.2 && self.view_month == today.1 && day < today.0
    }
}

/// The day shown in cell `i` (row by row, seven columns) of a month that
/// starts in column `offset` and has `total` days, if any.
pub fn grid_day(i: usize, offset: usize, total: u32) -> (r: Option<u32>)
    requires
        i < 42,
    ensures
        i < offset ==> r is None,
        i >= offset && i - offset + 1 > total ==> r is None,
        i >= offset && i - offset + 1 <= total ==> r == Some((i - offset + 1) as u32),
{
    if i < offset {
        return None;
    }
    let day = (i - offset + 1) as u32;
    if day > total { None } else { Some(day) }
}

proof fn lemma_div_step(y: int, d: int)
    requires
        y >= 1,
        d > 0,
    ensures
        y / d == (y - 1) / d + if y % d == 0 { 1int } else { 0int },
{
    let q = (y - 1) / d;
    let r = (y - 1) % d;
    assert(y - 1 == d * q + r && 0 <= r < d) by (nonlinear_arith)
        requires y >= 1, d > 0, q == (y - 1) / d, r == (y - 1) % d;
    if r == d - 1 {
        assert(y == d * (q + 1)) by (nonlinear_arith)
            requires y - 1 == d * q + r, r == d - 1;
        assert(y / d == q + 1 && y % d == 0) by (nonlinear_arith)
            requires y == d * (q + 1), d > 0;
    } else {
        assert(y == d * q + (r + 1) && 0 < r + 1 < d);
        assert(y / d == q && y % d == r + 1) by (nonlinear_arith)
            requires y == d * q + (r + 1), 0 < r + 1 < d, d > 0;
    }
}

proof fn lemma_mod7_shift(a: int, k: int)
    ensures
        (a + 7 * k) % 7 == a % 7,
{
    assert((a + 7 * k) % 7 == a % 7) by (nonlinear_arith);
}

/// The grid's weekday formula agrees with the calendar: month `m` (0 =
/// January) of a year from 1 on starts on the weekday of its first day's
/// number (0 = Monday).
pub proof fn lemma_first_weekday_is_calendar(m: int, year: int)
    requires
        0 <= m < 12,
        year >= 1,
    ensures
        first_weekday_spec(m, year) == crate::calendar::weekday_of_day(crate::calendar::day_number(year, m + 1, 1)),
{
    let yy = if m < 2 { year - 1 } else { year };
    assert(yy >= 0);
    assert(tdiv(yy, 4) == yy / 4);
    assert(tdiv(yy, 100) == yy / 100);
    assert(tdiv(yy, 400) == yy / 400);
    lemma_div_step(year, 4);
    lemma_div_step(year, 100);
    lemma_div_step(year, 400);
    let lb = crate::calendar::leap_years_before(year);
    assert(crate::calendar::leap_years_before(1970) == 477);
    let dn = crate::calendar::day_number(year, m + 1, 1);
    let s = yy + yy / 4 - yy / 100 + yy / 400 + month_code(m) + 1 + 6;
    let leap = crate::calendar::is_leap_year(year);
    let base: int = crate::calendar::days_before_month(m + 1, year) - if m + 1 > 2 && leap { 1int } else { 0int };
    let c: int = if m < 2 { 2450 } else { 2451 };
    if m < 2 {
        assert(yy / 4 - yy / 100 + yy / 400 == lb);
    } else {
        assert(yy / 4 - yy / 100 + yy / 400 == lb + if leap { 1int } else { 0int });
    }
    assert(dn + 3 == s + 364 * (year - 1970) + base - month_code(m) - c);
    let off = base - month_code(m) - c;
    let j: int = if m == 0 { -350 } else if m == 1 { -346 } else if m == 2 { -342 } else if m == 3 { -338 }
        else if m == 4 { -333 } else if m == 5 { -329 } else if m == 6 { -325 } else if m == 7 { -320 }
        else if m == 8 { -316 } else if m == 9 { -312 } else if m == 10 { -307 } else { -303 };
    assert(off == 7 * j);
    let k = 52 * (year - 1970) + j;
    assert(dn + 3 == s + 7 * k);
    lemma_mod7_shift(s, k);
}

} // verus!
