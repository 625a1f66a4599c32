//! The list of one-off dates of a routine, as edited in the routine editor
//! and stored as `"YYYY-MM-DD HH:MM"` entries.
use vstd::prelude::*;
use crate::date_picker::{DatePickerState, month_short, months_short};
use crate::routine::strings_view;
use crate::text::{
    lemma_decimal, lemma_zero_pad, lemma_digits_parse, lemma_split_at, is_digit, all_digits,
    split_once, split_once_char, parse_i32, parse_i32_spec, parse_usize, parse_usize_spec, parse_u32,
    parse_u32_spec, format_signed, zero_pad, decimal, push_char, push_decimal, push_padded, push_signed_padded,
};
use crate::time_input::{TimeInputState, cells_valid, is_fresh_input, time_text};

verus! {

/// A date (month from 0) and a time text.
pub struct DirectEntry {
    pub day: u32,
    pub month: usize,
    pub year: i32,
    pub time: String,
}

pub ghost struct DirectView {
    pub day: u32,
    pub month: usize,
    pub year: i32,
    pub time: Seq<char>,
}

impl View for DirectEntry {
    type V = DirectView;

    open spec fn view(&self) -> DirectView {
        DirectView { day: self.day, month: self.month, year: self.year, time: self.time@ }
    }
}

pub open spec fn entries_view(v: Seq<DirectEntry>) -> Seq<DirectView> {
    v.map_values(|e: DirectEntry| e@)
}

/// `"{day} {month name} {year} · {time}"`.
pub open spec fn display_spec(e: DirectView) -> Seq<char> {
    decimal(e.day as nat) + seq![' '] + months_short()[e.month as int] + seq![' '] + format_signed(e.year as int, 0)
        + seq![' ', '·', ' '] + e.time
}

/// `"YYYY-MM-DD HH:MM"`: year padded to four places (sign included),
/// month counted from 1 and day padded to two.
pub open spec fn routine_string_spec(e: DirectView) -> Seq<char> {
    format_signed(e.year as int, 4) + seq!['-'] + zero_pad(decimal((e.month + 1) as nat), 2) + seq!['-']
        + zero_pad(decimal(e.day as nat), 2) + seq![' '] + e.time
}

/// Reading an entry back: the date before the first space, the time after
/// it; the date as year, month (from 1) and day separated by the first two
/// dashes. Anything else reads as nothing.
pub open spec fn parse_spec(s: Seq<char>) -> Option<DirectView> {
    match split_once(s, ' ') {
        None => None,
        Some((date, time)) => match split_once(date, '-') {
            None => None,
            Some((ys, r1)) => match split_once(r1, '-') {
                None => None,
                Some((ms, ds)) => match (parse_i32_spec(ys), parse_usize_spec(ms), parse_u32_spec(ds)) {
                    (Some(y), Some(m), Some(d)) =>
                        if m >= 1 { Some(DirectView { day: d, month: (m - 1) as usize, year: y, time }) } else { None },
                    _ => None,
                },
            },
        },
    }
}

/// Lexicographic order of texts by character.
pub open spec fn text_lt(a: Seq<char>, b: Seq<char>) -> bool
    decreases a.len(),
{
    if a.len() == 0 {
        b.len() > 0
    } else if b.len() == 0 {
        false
    } else if a[0] != b[0] {
        a[0] < b[0]
    } else {
        text_lt(a.drop_first(), b.drop_first())
    }
}

/// Entries compare by year, month, day, then time.
pub open spec fn entry_lt(a: DirectView, b: DirectView) -> bool {
    a.year < b.year || (a.year == b.year && (a.month < b.month || (a.month == b.month
        && (a.day < b.day || (a.day == b.day && text_lt(a.time, b.time))))))
}

/// Where `x` goes in a sorted list: before the first entry it is smaller
/// than (after all entries equal to it, which keeps the sort stable).
pub open spec fn insert_pos(s: Seq<DirectView>, x: DirectView) -> int
    decreases s.len(),
{
    if s.len() == 0 {
        0
    } else if entry_lt(x, s[0]) {
        0
    } else {
        1 + insert_pos(s.drop_first(), x)
    }
}

/// Insertion sort, element by element in list order.
pub open spec fn sorted_of(s: Seq<DirectView>) -> Seq<DirectView>
    decreases s.len(),
{
    if s.len() == 0 {
        s
    } else {
        let r = sorted_of(s.drop_last());
        r.insert(insert_pos(r, s.last()), s.last())
    }
}

/// The entries that read among `strs`, in order.
pub open spec fn parsed_entries(strs: Seq<Seq<char>>) -> Seq<DirectView>
    decreases strs.len(),
{
    if strs.len() == 0 {
        Seq::empty()
    } else {
        let rest = parsed_entries(strs.drop_last());
        match parse_spec(strs.last()) {
            Some(e) => rest.push(e),
            None => rest,
        }
    }
}

proof fn lemma_insert_pos_is(s: Seq<DirectView>, x: DirectView, i: int)
    requires
        0 <= i <= s.len(),
        forall|j: int| 0 <= j < i ==> !entry_lt(x, #[trigger] s[j]),
        i < s.len() ==> entry_lt(x, s[i]),
    ensures
        insert_pos(s, x) == i,
    decreases s.len(),
{
    if s.len() > 0 && !entry_lt(x, s[0]) {
        assert forall|j: int| 0 <= j < i - 1 implies !entry_lt(x, #[trigger] s.drop_first()[j]) by {
            assert(s.drop_first()[j] == s[j + 1]);
        }
        lemma_insert_pos_is(s.drop_first(), x, i - 1);
    }
}

/// Whether text `a` sorts before text `b`.
pub fn text_less(a: &str, b: &str) -> (r: bool)
    ensures
        r == text_lt(a@, b@),
{
    let n = a.unicode_len();
    let m = b.unicode_len();
    let mut i: usize = 0;
    assert(a@.skip(0) =~= a@ && b@.skip(0) =~= b@);
    while i < n && i < m
        invariant
            n == a@.len(),
            m == b@.len(),
            i <= n,
            i <= m,
            forall|j: int| 0 <= j < i ==> a@[j] == b@[j],
            text_lt(a@, b@) == text_lt(a@.skip(i as int), b@.skip(i as int)),
        decreases n - i,
    {
        let x = a.get_char(i);
        let y = b.get_char(i);
        assert(a@.skip(i as int)[0] == x && b@.skip(i as int)[0] == y);
        if x != y {
            return x < y;
        }
        assert(a@.skip(i as int).drop_first() =~= a@.skip(i + 1));
        assert(b@.skip(i as int).drop_first() =~= b@.skip(i + 1));
        i = i + 1;
    }
    if i == n {
        if i < m {
            assert(a@.skip(i as int).len() == 0 && b@.skip(i as int).len() > 0);
        } else {
            assert(a@.skip(i as int).len() == 0 && b@.skip(i as int).len() == 0);
        }
    } else {
        assert(b@.skip(i as int).len() == 0 && a@.skip(i as int).len() > 0);
    }
    i == n && i < m
}

/// Whether entry `a` sorts before entry `b`.
pub fn entry_less(a: &DirectEntry, b: &DirectEntry) -> (r: bool)
    ensures
        r == entry_lt(a@, b@),
{
    a.year < b.year || (a.year == b.year && (a.month < b.month || (a.month == b.month
        && (a.day < b.day || (a.day == b.day && text_less(a.time.as_str(), b.time.as_str()))))))
}

impl DirectEntry {
    /// A copy of the entry.
    pub fn duplicate(&self) -> (r: DirectEntry)
        ensures
            r@ == self@,
    {
        DirectEntry { day: self.day, month: self.month, year: self.year, time: self.time.clone() }
    }

    /// The entry as listed: `"1 июл 2025 · 09:30"`.
    pub fn display(&self) -> (s: String)
        requires
            self.month < 12,
        ensures
            s@ == display_spec(self@),
    {
        let mut s = String::new();
        push_decimal(&mut s, self.day as u64);
        push_char(&mut s, ' ');
        s.append(month_short(self.month));
        push_char(&mut s, ' ');
        push_signed_padded(&mut s, self.year as i64, 0);
        push_char(&mut s, ' ');
        push_char(&mut s, '·');
        push_char(&mut s, ' ');
        s.append(self.time.as_str());
        assert(s@ =~= display_spec(self@));
        s
    }

    /// The entry as stored in a routine: `"2025-07-01 09:30"`.
    pub fn to_routine_string(&self) -> (s: String)
        requires
            self.month < usize::MAX,
        ensures
            s@ == routine_string_spec(self@),
    {
        let mut s = String::new();
        push_signed_padded(&mut s, self.year as i64, 4);
        push_char(&mut s, '-');
        push_padded(&mut s, (self.month + 1) as u64, 2);
        push_char(&mut s, '-');
        push_padded(&mut s, self.day as u64, 2);
        push_char(&mut s, ' ');
        s.append(self.time.as_str());
        assert(s@ =~= routine_string_spec(self@));
        s
    }

    /// Reads a stored entry back (`None` when it does not have the form).
    pub fn parse(s: &str) -> (r: Option<DirectEntry>)
        ensures
            match parse_spec(s@) {
                Some(e) => r matches Some(x) && x@ == e,
                None => r is None,
            },
    {
        let (date, time) = match split_once_char(s, ' ') {
            Some(p) => p,
            None => return None,
        };
        let (ys, r1) = match split_once_char(date, '-') {
            Some(p) => p,
            None => return None,
        };
        let (ms, ds) = match split_once_char(r1, '-') {
            Some(p) => p,
            None => return None,
        };
        let year = match parse_i32(ys) {
            Some(v) => v,
            None => return None,
        };
        let month = match parse_usize(ms) {
            Some(v) => v,
            None => return None,
        };
        if month < 1 {
            return None;
        }
        let day = match parse_u32(ds) {
            Some(v) => v,
            None => return None,
        };
        Some(DirectEntry { day, month: month - 1, year, time: time.to_string() })
    }
}

/// The date list of the editor, with the inputs for a new date.
pub struct DirectState {
    pub date: DatePickerState,
    pub time_input: TimeInputState,
    pub entries: Vec<DirectEntry>,
}

/// Inserts `e` into sorted `v` at its place.
fn insert_sorted(v: &mut Vec<DirectEntry>, e: DirectEntry)
    ensures
        entries_view(final(v)@) == entries_view(old(v)@).insert(insert_pos(entries_view(old(v)@), e@), e@),
{
    let ghost s = entries_view(v@);
    let mut i: usize = 0;
    while i < v.len()
        invariant
            i <= v@.len(),
            s == entries_view(v@),
            s == entries_view(old(v)@),
            forall|j: int| 0 <= j < i ==> !entry_lt(e@, #[trigger] s[j]),
        ensures
            i <= s.len(),
            s == entries_view(v@),
            s == entries_view(old(v)@),
            forall|j: int| 0 <= j < i ==> !entry_lt(e@, #[trigger] s[j]),
            i < s.len() ==> entry_lt(e@, s[i as int]),
        decreases v@.len() - i,
    {
        assert(s[i as int] == v@[i as int]@);
        if entry_less(&e, &v[i]) {
            break;
        }
        i = i + 1;
    }
    proof { lemma_insert_pos_is(s, e@, i as int); }
    let ghost ev = e@;
    v.insert(i, e);
    assert(entries_view(v@) =~= s.insert(i as int, ev));
}

impl DirectState {
    /// Empty list, fresh inputs, the picker on the month of `today`.
    pub fn for_today(today: (u32, usize, i32)) -> (s: Self)
        ensures
            s.entries@.len() == 0,
            s.date == (DatePickerState { open: false, selected: None, view_year: today.2, view_month: today.1 }),
            is_fresh_input(s.time_input),
    {
        DirectState {
            date: DatePickerState::for_today(today),
            time_input: TimeInputState::default(),
            entries: Vec::new(),
        }
    }

    /// Replaces the list with the entries of a routine that read (sorted by
    /// date and time), and resets the inputs.
    pub fn load_from(&mut self, entries: &Vec<String>, today: (u32, usize, i32))
        ensures
            entries_view(final(self).entries@) == sorted_of(parsed_entries(strings_view(entries@))),
            final(self).date == (DatePickerState { open: false, selected: None, view_year: today.2, view_month: today.1 }),
            is_fresh_input(final(self).time_input),
            forall|i: int| 0 <= i < final(self).entries@.len() ==> (#[trigger] final(self).entries@[i]).month < usize::MAX,
    {
        let ghost sv = strings_view(entries@);
        let mut parsed: Vec<DirectEntry> = Vec::new();
        let mut i: usize = 0;
        while i < entries.len()
            invariant
                i <= entries@.len(),
                sv == strings_view(entries@),
                entries_view(parsed@) == parsed_entries(sv.take(i as int)),
                forall|j: int| 0 <= j < parsed@.len() ==> (#[trigger] parsed@[j]).month < usize::MAX,
            decreases entries@.len() - i,
        {
            assert(sv.take(i + 1).drop_last() =~= sv.take(i as int));
            assert(sv.take(i + 1).last() == entries@[i as int]@);
            let ghost before = entries_view(parsed@);
            match DirectEntry::parse(entries[i].as_str()) {
                Some(e) => {
                    parsed.push(e);
                    assert(entries_view(parsed@) =~= before.push(e@));
                },
                None => {},
            }
            i = i + 1;
        }
        assert(sv.take(entries@.len() as int) =~= sv);
        let ghost p = entries_view(parsed@);
        let mut sorted: Vec<DirectEntry> = Vec::new();
        let mut k: usize = 0;
        assert(sorted_of(p.take(0)) =~= entries_view(sorted@));
        while k < parsed.len()
            invariant
                k <= parsed@.len(),
                p == entries_view(parsed@),
                entries_view(sorted@) == sorted_of(p.take(k as int)),
                forall|j: int| 0 <= j < parsed@.len() ==> (#[trigger] parsed@[j]).month < usize::MAX,
                forall|j: int| 0 <= j < sorted@.len() ==> (#[trigger] sorted@[j]).month < usize::MAX,
            decreases parsed@.len() - k,
        {
            assert(p.take(k + 1).drop_last() =~= p.take(k as int));
            assert(p.take(k + 1).last() == parsed@[k as int]@);
            let ghost before = sorted@;
            let ghost ev = parsed@[k as int]@;
            insert_sorted(&mut sorted, parsed[k].duplicate());
            proof {
                let pos = insert_pos(entries_view(before), ev);
                lemma_insert_pos_props(entries_view(before), ev);
                assert(entries_view(sorted@).len() == sorted@.len());
                assert(entries_view(before).len() == before.len());
                assert(sorted@.len() == before.len() + 1);
                assert(ev.month == parsed@[k as int].month);
                assert forall|j: int| 0 <= j < sorted@.len() implies (#[trigger] sorted@[j]).month < usize::MAX by {
                    assert(entries_view(sorted@)[j] == sorted@[j]@);
                    if j < pos {
                        assert(entries_view(before)[j] == before[j]@);
                    } else if j > pos {
                        assert(entries_view(before)[j - 1] == before[j - 1]@);
                    } else {
                        assert(entries_view(sorted@)[j] == ev);
                    }
                }
            }
            k = k + 1;
        }
        assert(p.take(parsed@.len() as int) =~= p);
        self.entries = sorted;
        self.date = DatePickerState::for_today(today);
        self.time_input = TimeInputState::default();
    }

    /// The entries as stored in a routine, in list order.
    pub fn to_strings(&self) -> (r: Vec<String>)
        requires
            forall|i: int| 0 <= i < self.entries@.len() ==> (#[trigger] self.entries@[i]).month < usize::MAX,
        ensures
            strings_view(r@) == entries_view(self.entries@).map_values(|e: DirectView| routine_string_spec(e)),
    {
        let ghost ev = entries_view(self.entries@);
        let mut out: Vec<String> = Vec::new();
        let mut i: usize = 0;
        while i < self.entries.len()
            invariant
                i <= self.entries@.len(),
                ev == entries_view(self.entries@),
                forall|i: int| 0 <= i < self.entries@.len() ==> (#[trigger] self.entries@[i]).month < usize::MAX,
                strings_view(out@) == ev.take(i as int).map_values(|e: DirectView| routine_string_spec(e)),
            decreases self.entries@.len() - i,
        {
            let ghost before = strings_view(out@);
            let s = self.entries[i].to_routine_string();
            let ghost sv = s@;
            out.push(s);
            assert(ev[i as int] == self.entries@[i as int]@);
            assert(strings_view(out@) =~= before.push(sv));
            assert(ev.take(i + 1).map_values(|e: DirectView| routine_string_spec(e)) =~=
                ev.take(i as int).map_values(|e: DirectView| routine_string_spec(e)).push(routine_string_spec(ev[i as int])));
            i = i + 1;
        }
        assert(ev.take(self.entries@.len() as int) =~= ev);
        out
    }

    /// The add button: with a date chosen and a valid time, the entry goes
    /// into the list at its place and both inputs are cleared. Returns
    /// whether it was added.
    pub fn add_selected(&mut self) -> (added: bool)
        ensures
            added == (old(self).date.selected is Some && cells_valid(old(self).time_input.digits@)),
            added ==> ({
                let (d, m, y) = old(self).date.selected.unwrap();
                let e = DirectView { day: d, month: m, year: y, time: time_text(old(self).time_input.digits@) };
                &&& entries_view(final(self).entries@) == entries_view(old(self).entries@).insert(
                    insert_pos(entries_view(old(self).entries@), e), e)
                &&& final(self).date.selected is None
                &&& final(self).time_input.cursor == 0
            }),
            !added ==> final(self).entries@ == old(self).entries@,
    {
        let (d, m, y) = match self.date.selected {
            Some(s) => s,
            None => return false,
        };
        let time = match self.time_input.to_time_string() {
            Some(t) => t,
            None => return false,
        };
        insert_sorted(&mut self.entries, DirectEntry { day: d, month: m, year: y, time });
        self.date.selected = None;
        self.time_input.clear();
        true
    }

    /// Removes entry `i` (nothing happens when there is none).
    pub fn remove(&mut self, i: usize)
        ensures
            i < old(self).entries@.len() ==> final(self).entries@ == old(self).entries@.remove(i as int),
            i >= old(self).entries@.len() ==> final(self).entries@ == old(self).entries@,
    {
        if i < self.entries.len() {
            self.entries.remove(i);
        }
    }
}

/// Reading back the stored text of an entry gives the entry, for every
/// year from 0 on.
pub proof fn lemma_routine_string_round_trip(e: DirectView)
    requires
        e.year >= 0,
        e.month < usize::MAX,
    ensures
        parse_spec(routine_string_spec(e)) == Some(e),
{
    let y = zero_pad(decimal(e.year as nat), 4);
    let m = zero_pad(decimal((e.month + 1) as nat), 2);
    let d = zero_pad(decimal(e.day as nat), 2);
    lemma_decimal(e.year as nat);
    lemma_decimal((e.month + 1) as nat);
    lemma_decimal(e.day as nat);
    lemma_zero_pad(decimal(e.year as nat), 4);
    lemma_zero_pad(decimal((e.month + 1) as nat), 2);
    lemma_zero_pad(decimal(e.day as nat), 2);
    lemma_digits_parse(y);
    lemma_digits_parse(m);
    lemma_digits_parse(d);
    let md = m + seq!['-'] + d;
    let date = y + seq!['-'] + md;
    assert(routine_string_spec(e) =~= date + seq![' '] + e.time);
    assert forall|i: int| 0 <= i < date.len() implies date[i] != ' ' by {
        if i < y.len() {
            assert(is_digit(y[i]));
        } else if i == y.len() {
        } else if i < y.len() + 1 + m.len() {
            assert(date[i] == m[i - y.len() - 1]);
            assert(is_digit(m[i - y.len() - 1]));
        } else if i == y.len() + 1 + m.len() {
        } else {
            assert(date[i] == d[i - y.len() - 2 - m.len()]);
            assert(is_digit(d[i - y.len() - 2 - m.len()]));
        }
    }
    assert forall|i: int| 0 <= i < y.len() implies y[i] != '-' by {
        assert(is_digit(y[i]));
    }
    assert forall|i: int| 0 <= i < m.len() implies m[i] != '-' by {
        assert(is_digit(m[i]));
    }
    lemma_split_at(date, ' ', e.time);
    lemma_split_at(y, '-', md);
    lemma_split_at(m, '-', d);
}

/// Text order is a strict total order: never both ways, and equal texts
/// only when neither way.
pub proof fn lemma_text_lt_order(a: Seq<char>, b: Seq<char>)
    ensures
        !(text_lt(a, b) && text_lt(b, a)),
        !text_lt(a, b) && !text_lt(b, a) ==> a == b,
    decreases a.len(),
{
    if a.len() > 0 && b.len() > 0 && a[0] == b[0] {
        lemma_text_lt_order(a.drop_first(), b.drop_first());
        if a.drop_first() == b.drop_first() {
            assert(a =~= seq![a[0]] + a.drop_first());
            assert(b =~= seq![b[0]] + b.drop_first());
        }
    } else if a.len() == 0 && b.len() == 0 {
        assert(a =~= b);
    }
}

pub proof fn lemma_text_lt_trans(a: Seq<char>, b: Seq<char>, c: Seq<char>)
    requires
        text_lt(a, b),
        text_lt(b, c),
    ensures
        text_lt(a, c),
    decreases a.len(),
{
    if a.len() > 0 && a[0] == b[0] && b[0] == c[0] {
        lemma_text_lt_trans(a.drop_first(), b.drop_first(), c.drop_first());
    }
}

proof fn lemma_entry_lt_order(a: DirectView, b: DirectView, c: DirectView)
    ensures
        !entry_lt(a, a),
        entry_lt(a, b) && entry_lt(b, c) ==> entry_lt(a, c),
{
    lemma_text_lt_order(a.time, a.time);
    if entry_lt(a, b) && entry_lt(b, c) && a.year == b.year && b.year == c.year && a.month == b.month
        && b.month == c.month && a.day == b.day && b.day == c.day {
        lemma_text_lt_trans(a.time, b.time, c.time);
    }
}

/// No entry comes after a later one.
pub open spec fn is_sorted(s: Seq<DirectView>) -> bool {
    forall|i: int, j: int| 0 <= i < j < s.len() ==> !entry_lt(#[trigger] s[j], #[trigger] s[i])
}

proof fn lemma_insert_pos_props(s: Seq<DirectView>, x: DirectView)
    ensures
        0 <= insert_pos(s, x) <= s.len(),
        forall|j: int| 0 <= j < insert_pos(s, x) ==> !entry_lt(x, #[trigger] s[j]),
        insert_pos(s, x) < s.len() ==> entry_lt(x, s[insert_pos(s, x)]),
    decreases s.len(),
{
    if s.len() > 0 && !entry_lt(x, s[0]) {
        let t = s.drop_first();
        lemma_insert_pos_props(t, x);
        assert forall|j: int| 0 <= j < insert_pos(s, x) implies !entry_lt(x, #[trigger] s[j]) by {
            if j > 0 {
                assert(s[j] == t[j - 1]);
            }
        }
    }
}

proof fn lemma_insert_keeps_sorted(r: Seq<DirectView>, x: DirectView)
    requires
        is_sorted(r),
    ensures
        is_sorted(r.insert(insert_pos(r, x), x)),
{
    lemma_insert_pos_props(r, x);
    let p = insert_pos(r, x);
    let t = r.insert(p, x);
    assert forall|i: int, j: int| 0 <= i < j < t.len() implies !entry_lt(#[trigger] t[j], #[trigger] t[i]) by {
        lemma_entry_lt_order(t[j], t[j], t[j]);
        if j < p {
            assert(t[i] == r[i] && t[j] == r[j]);
        } else if j == p {
            assert(t[i] == r[i] && t[j] == x);
        } else if i == p {
            assert(t[j] == r[j - 1] && t[i] == x);
            if entry_lt(r[j - 1], x) {
                lemma_entry_lt_order(r[j - 1], x, r[p]);
                if j - 1 > p {
                    assert(!entry_lt(r[j - 1], r[p]));
                }
            }
        } else if i < p {
            assert(t[i] == r[i] && t[j] == r[j - 1]);
        } else {
            assert(t[i] == r[i - 1] && t[j] == r[j - 1]);
        }
    }
}

/// The sorted list is sorted and holds exactly the entries given.
pub proof fn lemma_sorted_of(s: Seq<DirectView>)
    ensures
        is_sorted(sorted_of(s)),
        sorted_of(s).to_multiset() == s.to_multiset(),
    decreases s.len(),
{
    broadcast use {vstd::seq_lib::group_to_multiset_ensures, vstd::multiset::group_multiset_axioms};
    if s.len() > 0 {
        let r = sorted_of(s.drop_last());
        lemma_sorted_of(s.drop_last());
        lemma_insert_keeps_sorted(r, s.last());
        lemma_insert_pos_props(r, s.last());
        assert(s =~= s.drop_last().push(s.last()));
        assert(sorted_of(s).to_multiset() =~= s.to_multiset());
    }
}

proof fn lemma_text_lt_concat(a: Seq<char>, c: Seq<char>, b: Seq<char>, d: Seq<char>)
    requires
        a.len() == b.len(),
    ensures
        text_lt(a + c, b + d) == if a == b { text_lt(c, d) } else { text_lt(a, b) },
    decreases a.len(),
{
    if a.len() == 0 {
        assert(a =~= b);
        assert(a + c =~= c);
        assert(b + d =~= d);
    } else {
        assert((a + c)[0] == a[0]);
        assert((b + d)[0] == b[0]);
        if a[0] == b[0] {
            assert((a + c).drop_first() =~= a.drop_first() + c);
            assert((b + d).drop_first() =~= b.drop_first() + d);
            lemma_text_lt_concat(a.drop_first(), c, b.drop_first(), d);
            if a.drop_first() =~= b.drop_first() {
                assert forall|i: int| 0 <= i < a.len() implies a[i] == b[i] by {
                    if i > 0 {
                        assert(a[i] == a.drop_first()[i - 1]);
                        assert(b[i] == b.drop_first()[i - 1]);
                    }
                }
                assert(a =~= b);
            } else if a == b {
                assert(a.drop_first() =~= b.drop_first());
            }
        } else {
            assert(a != b);
        }
    }
}

proof fn lemma_text_lt_char(x: char, y: char)
    ensures
        text_lt(seq![x], seq![y]) == (x < y),
{
    assert(seq![x].drop_first() =~= Seq::<char>::empty());
    assert(seq![y].drop_first() =~= Seq::<char>::empty());
    assert(!text_lt(Seq::<char>::empty(), Seq::<char>::empty()));
}

proof fn lemma_digits_order(a: Seq<char>, b: Seq<char>)
    requires
        all_digits(a),
        all_digits(b),
        a.len() == b.len(),
    ensures
        text_lt(a, b) == (crate::text::digits_value(a) < crate::text::digits_value(b)),
        (a == b) == (crate::text::digits_value(a) == crate::text::digits_value(b)),
    decreases a.len(),
{
    if a.len() == 0 {
        assert(a =~= b);
    } else {
        let a1 = a.drop_last();
        let b1 = b.drop_last();
        let x = a.last();
        let y = b.last();
        assert(all_digits(a1));
        assert(all_digits(b1));
        assert(is_digit(x) && is_digit(y));
        lemma_digits_order(a1, b1);
        assert(a =~= a1 + seq![x]);
        assert(b =~= b1 + seq![y]);
        lemma_text_lt_concat(a1, seq![x], b1, seq![y]);
        lemma_text_lt_char(x, y);
        let va = crate::text::digits_value(a1);
        let vb = crate::text::digits_value(b1);
        let dx = crate::text::digit_value(x);
        let dy = crate::text::digit_value(y);
        assert(0 <= dx <= 9 && 0 <= dy <= 9);
        assert(crate::text::digits_value(a) == va * 10 + dx);
        assert(crate::text::digits_value(b) == vb * 10 + dy);
        if va < vb {
            assert(va * 10 + dx < vb * 10 + dy) by (nonlinear_arith)
                requires va < vb, 0 <= dx <= 9, 0 <= dy <= 9;
            assert(a != b) by { if a == b { assert(a1 =~= b1); } }
        } else if vb < va {
            assert(vb * 10 + dy < va * 10 + dx) by (nonlinear_arith)
                requires vb < va, 0 <= dx <= 9, 0 <= dy <= 9;
            assert(a != b) by { if a == b { assert(a1 =~= b1); } }
        } else {
            assert(a1 == b1);
            if x == y {
                assert(a =~= b);
            } else {
                assert(a != b) by { if a == b { assert(a[a.len() - 1] == b[b.len() - 1]); } }
            }
        }
    }
}

pub open spec fn pow10(k: nat) -> nat
    decreases k,
{
    if k == 0 { 1 } else { 10 * pow10((k - 1) as nat) }
}

proof fn lemma_decimal_len(n: nat, k: nat)
    requires
        k >= 1,
        n < pow10(k),
    ensures
        decimal(n).len() <= k,
    decreases n,
{
    if n >= 10 {
        let p = pow10((k - 1) as nat);
        assert(pow10(k) == 10 * p);
        if k == 1 {
            assert(pow10(0) == 1);
        } else {
            assert(n / 10 < p) by (nonlinear_arith)
                requires n < 10 * p, n >= 10;
            lemma_decimal_len(n / 10, (k - 1) as nat);
        }
    }
}

/// The padded field of `n` in `k` places: exactly `k` digits of value `n`.
proof fn lemma_padded(n: nat, k: nat)
    requires
        k >= 1,
        n < pow10(k),
    ensures
        zero_pad(decimal(n), k).len() == k,
        all_digits(zero_pad(decimal(n), k)),
        crate::text::digits_value(zero_pad(decimal(n), k)) == n,
{
    lemma_decimal(n);
    lemma_decimal_len(n, k);
    lemma_zero_pad(decimal(n), k);
}

/// Entries whose stored text has a year of four digits and a month and day
/// of two.
pub open spec fn fixed_width(e: DirectView) -> bool {
    0 <= e.year <= 9999 && e.month <= 98 && e.day <= 99
}

/// For entries of fixed width, their stored texts sort as the entries do.
pub proof fn lemma_text_order_is_entry_order(a: DirectView, b: DirectView)
    requires
        fixed_width(a),
        fixed_width(b),
    ensures
        text_lt(routine_string_spec(a), routine_string_spec(b)) == entry_lt(a, b),
{
    assert(pow10(0) == 1);
    assert(pow10(1) == 10);
    assert(pow10(2) == 100);
    assert(pow10(3) == 1000);
    assert(pow10(4) == 10000);
    let ya = zero_pad(decimal(a.year as nat), 4);
    let yb = zero_pad(decimal(b.year as nat), 4);
    let ma = zero_pad(decimal((a.month + 1) as nat), 2);
    let mb = zero_pad(decimal((b.month + 1) as nat), 2);
    let da = zero_pad(decimal(a.day as nat), 2);
    let db = zero_pad(decimal(b.day as nat), 2);
    lemma_padded(a.year as nat, 4);
    lemma_padded(b.year as nat, 4);
    lemma_padded((a.month + 1) as nat, 2);
    lemma_padded((b.month + 1) as nat, 2);
    lemma_padded(a.day as nat, 2);
    lemma_padded(b.day as nat, 2);
    lemma_digits_order(ya, yb);
    lemma_digits_order(ma, mb);
    lemma_digits_order(da, db);
    let r3a = seq![' '] + a.time;
    let r3b = seq![' '] + b.time;
    let r2a = seq!['-'] + (da + r3a);
    let r2b = seq!['-'] + (db + r3b);
    let r1a = seq!['-'] + (ma + r2a);
    let r1b = seq!['-'] + (mb + r2b);
    assert(routine_string_spec(a) =~= ya + r1a);
    assert(routine_string_spec(b) =~= yb + r1b);
    lemma_text_lt_concat(ya, r1a, yb, r1b);
    lemma_text_lt_concat(seq!['-'], ma + r2a, seq!['-'], mb + r2b);
    lemma_text_lt_concat(ma, r2a, mb, r2b);
    lemma_text_lt_concat(seq!['-'], da + r3a, seq!['-'], db + r3b);
    lemma_text_lt_concat(da, r3a, db, r3b);
    lemma_text_lt_concat(seq![' '], a.time, seq![' '], b.time);
}

/// The stored texts of a list of entries, in order.
pub open spec fn texts_of(es: Seq<DirectView>) -> Seq<Seq<char>> {
    es.map_values(|e: DirectView| routine_string_spec(e))
}

proof fn lemma_parsed_texts(es: Seq<DirectView>)
    requires
        forall|i: int| 0 <= i < es.len() ==> fixed_width(#[trigger] es[i]),
    ensures
        parsed_entries(texts_of(es)) == es,
    decreases es.len(),
{
    if es.len() > 0 {
        let front = es.drop_last();
        assert forall|i: int| 0 <= i < front.len() implies fixed_width(#[trigger] front[i]) by {
            assert(front[i] == es[i]);
        }
        lemma_parsed_texts(front);
        assert(texts_of(es).drop_last() =~= texts_of(front));
        assert(fixed_width(es[es.len() - 1]));
        lemma_routine_string_round_trip(es.last());
        assert(es =~= front.push(es.last()));
    }
}

proof fn lemma_sorted_texts_same(s: Seq<DirectView>)
    ensures
        texts_of(sorted_of(s)).to_multiset() == texts_of(s).to_multiset(),
    decreases s.len(),
{
    broadcast use {vstd::seq_lib::group_to_multiset_ensures, vstd::multiset::group_multiset_axioms};
    if s.len() > 0 {
        let r = sorted_of(s.drop_last());
        lemma_sorted_texts_same(s.drop_last());
        lemma_insert_pos_props(r, s.last());
        let k = insert_pos(r, s.last());
        assert(texts_of(r.insert(k, s.last())) =~= texts_of(r).insert(k, routine_string_spec(s.last())));
        assert(texts_of(s) =~= texts_of(s.drop_last()).push(routine_string_spec(s.last())));
        assert(texts_of(sorted_of(s)).to_multiset() =~= texts_of(s).to_multiset());
    }
}

/// Loading stored texts of the form `YYYY-MM-DD time` (each the text of
/// an entry with a year of four digits and a month and day of two) into the
/// editor and reading them back gives the same texts, sorted.
pub proof fn lemma_load_then_strings(es: Seq<DirectView>)
    requires
        forall|i: int| 0 <= i < es.len() ==> fixed_width(#[trigger] es[i]),
    ensures
        texts_of(sorted_of(parsed_entries(texts_of(es)))).to_multiset() == texts_of(es).to_multiset(),
        forall|i: int, j: int| 0 <= i < j < es.len() ==>
            !text_lt(#[trigger] texts_of(sorted_of(parsed_entries(texts_of(es))))[j],
                #[trigger] texts_of(sorted_of(parsed_entries(texts_of(es))))[i]),
{
    broadcast use {vstd::seq_lib::group_to_multiset_ensures, vstd::multiset::group_multiset_axioms};
    lemma_parsed_texts(es);
    let s = sorted_of(es);
    lemma_sorted_of(es);
    lemma_sorted_texts_same(es);
    assert(s.len() == es.len()) by {
        assert(s.to_multiset().len() == es.to_multiset().len());
    }
    assert forall|i: int| 0 <= i < s.len() implies fixed_width(#[trigger] s[i]) by {
        assert(s.contains(s[i]));
        assert(es.to_multiset().count(s[i]) > 0);
        assert(es.contains(s[i]));
        let k = choose|k: int| 0 <= k < es.len() && es[k] == s[i];
        assert(fixed_width(es[k]));
    }
    assert forall|i: int, j: int| 0 <= i < j < es.len() implies
        !text_lt(#[trigger] texts_of(s)[j], #[trigger] texts_of(s)[i]) by {
        assert(fixed_width(s[i]) && fixed_width(s[j]));
        lemma_text_order_is_entry_order(s[j], s[i]);
        assert(!entry_lt(s[j], s[i]));
    }
}

} // verus!
