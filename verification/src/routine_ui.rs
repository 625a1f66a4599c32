//! State of the routine editor: its tabs and the weekly and monthly lists.
use vstd::prelude::*;
use crate::direct::{DirectState, text_lt, text_less};
use crate::date_picker::DatePickerState;
use crate::text::push_char;
use crate::time_input::{TimeInputState, cells_valid, is_fresh_input, time_text};

verus! {

/// Two-letter codes of the weekdays, Monday first, as week entries use them.
pub open spec fn week_codes() -> Seq<Seq<char>> {
    seq![seq!['m', 'o'], seq!['t', 'u'], seq!['w', 'e'], seq!['t', 'h'], seq!['f', 'r'], seq!['s', 'a'], seq!['s', 'u']]
}

/// Code of weekday `i` (0 = Monday).
pub fn week_code(i: usize) -> (r: &'static str)
    requires
        i < 7,
    ensures
        r@ == week_codes()[i as int],
{
    proof {
        reveal_strlit("mo");
        reveal_strlit("tu");
        reveal_strlit("we");
        reveal_strlit("th");
        reveal_strlit("fr");
        reveal_strlit("sa");
        reveal_strlit("su");
    }
    let r = if i == 0 { "mo" } else if i == 1 { "tu" } else if i == 2 { "we" } else if i == 3 { "th" }
        else if i == 4 { "fr" } else if i == 5 { "sa" } else { "su" };
    assert(r@ =~= week_codes()[i as int]);
    r
}

pub type WeekItem = (usize, Seq<char>);

pub open spec fn week_lt(a: WeekItem, b: WeekItem) -> bool {
    a.0 < b.0 || (a.0 == b.0 && text_lt(a.1, b.1))
}

pub open spec fn week_insert_pos(s: Seq<WeekItem>, x: WeekItem) -> int
    decreases s.len(),
{
    if s.len() == 0 {
        0
    } else if week_lt(x, s[0]) {
        0
    } else {
        1 + week_insert_pos(s.drop_first(), x)
    }
}

/// Stable insertion sort by day, then time.
pub open spec fn week_sorted(s: Seq<WeekItem>) -> Seq<WeekItem>
    decreases s.len(),
{
    if s.len() == 0 {
        s
    } else {
        let r = week_sorted(s.drop_last());
        r.insert(week_insert_pos(r, s.last()), s.last())
    }
}

/// The new entries of the add button: the chosen days, Monday first, each
/// with the time.
pub open spec fn chosen_items(days: Seq<bool>, time: Seq<char>, n: int) -> Seq<WeekItem>
    decreases n,
{
    if n <= 0 {
        Seq::empty()
    } else {
        let rest = chosen_items(days, time, n - 1);
        if days[n - 1] { rest.push(((n - 1) as usize, time)) } else { rest }
    }
}

pub open spec fn week_view(v: Seq<(usize, String)>) -> Seq<WeekItem> {
    v.map_values(|e: (usize, String)| (e.0, e.1@))
}

/// `"{code} {time}"` of a week item.
pub open spec fn week_string(e: WeekItem) -> Seq<char> {
    week_codes()[e.0 as int] + seq![' '] + e.1
}

proof fn lemma_week_insert_pos_is(s: Seq<WeekItem>, x: WeekItem, i: int)
    requires
        0 <= i <= s.len(),
        forall|j: int| 0 <= j < i ==> !week_lt(x, #[trigger] s[j]),
        i < s.len() ==> week_lt(x, s[i]),
    ensures
        week_insert_pos(s, x) == i,
    decreases s.len(),
{
    if s.len() > 0 && !week_lt(x, s[0]) {
        assert forall|j: int| 0 <= j < i - 1 implies !week_lt(x, #[trigger] s.drop_first()[j]) by {
            assert(s.drop_first()[j] == s[j + 1]);
        }
        lemma_week_insert_pos_is(s.drop_first(), x, i - 1);
    }
}

fn week_insert(v: &mut Vec<(usize, String)>, e: (usize, String))
    ensures
        week_view(final(v)@) == week_view(old(v)@).insert(week_insert_pos(week_view(old(v)@), (e.0, e.1@)), (e.0, e.1@)),
{
    let ghost s = week_view(v@);
    let ghost x = (e.0, e.1@);
    let mut i: usize = 0;
    while i < v.len()
        invariant
            i <= v@.len(),
            s == week_view(v@),
            s == week_view(old(v)@),
            x == (e.0, e.1@),
            forall|j: int| 0 <= j < i ==> !week_lt(x, #[trigger] s[j]),
        ensures
            i <= s.len(),
            s == week_view(v@),
            s == week_view(old(v)@),
            forall|j: int| 0 <= j < i ==> !week_lt(x, #[trigger] s[j]),
            i < s.len() ==> week_lt(x, s[i as int]),
        decreases v@.len() - i,
    {
        assert(s[i as int] == (v@[i as int].0, v@[i as int].1@));
        let less = e.0 < v[i].0 || (e.0 == v[i].0 && text_less(e.1.as_str(), v[i].1.as_str()));
        if less {
            break;
        }
        i = i + 1;
    }
    proof { lemma_week_insert_pos_is(s, x, i as int); }
    v.insert(i, e);
    assert(week_view(v@) =~= s.insert(i as int, x));
}

/// Weekly entries: days chosen for the next entry, its time, and the list.
pub struct WeekState {
    pub selected_days: [bool; 7],
    pub time_input: TimeInputState,
    /// Weekday (0 = Monday) and time.
    pub entries: Vec<(usize, String)>,
}

impl WeekState {
    /// Nothing chosen, empty list.
    pub fn new() -> (s: Self)
        ensures
            s.selected_days@ == seq![false, false, false, false, false, false, false],
            s.entries@.len() == 0,
            is_fresh_input(s.time_input),
    {
        let s = WeekState {
            selected_days: [false, false, false, false, false, false, false],
            time_input: TimeInputState::default(),
            entries: Vec::new(),
        };
        assert(s.selected_days@ =~= seq![false, false, false, false, false, false, false]);
        s
    }

    /// Chooses or unchooses weekday `i`.
    pub fn toggle_day(&mut self, i: usize)
        requires
            i < 7,
        ensures
            final(self).selected_days@ == old(self).selected_days@.update(i as int, !old(self).selected_days@[i as int]),
            final(self).entries@ == old(self).entries@,
    {
        let v = !self.selected_days[i];
        self.selected_days.set(i, v);
    }

    /// The add button: with at least one day chosen and a valid time, an
    /// entry per chosen day joins the list, the list is sorted by day and
    /// time (stable), and the inputs are cleared. Returns whether entries
    /// were added.
    pub fn add_selected(&mut self) -> (added: bool)
        ensures
            added == ((exists|i: int| 0 <= i < 7 && old(self).selected_days@[i]) && cells_valid(old(self).time_input.digits@)),
            added ==> week_view(final(self).entries@) == week_sorted(week_view(old(self).entries@)
                + chosen_items(old(self).selected_days@, time_text(old(self).time_input.digits@), 7)),
            added ==> final(self).selected_days@ == seq![false, false, false, false, false, false, false],
            !added ==> final(self).entries@ == old(self).entries@,
    {
        let mut any = false;
        let mut k: usize = 0;
        while k < 7
            invariant
                k <= 7,
                self.selected_days@.len() == 7,
                any == exists|i: int| 0 <= i < k && self.selected_days@[i],
            decreases 7 - k,
        {
            if self.selected_days[k] {
                any = true;
            }
            k = k + 1;
        }
        if !any {
            return false;
        }
        let time = match self.time_input.to_time_string() {
            Some(t) => t,
            None => return false,
        };
        let ghost days = self.selected_days@;
        let ghost all = week_view(self.entries@) + chosen_items(days, time@, 7);
        let mut items: Vec<(usize, String)> = Vec::new();
        std::mem::swap(&mut items, &mut self.entries);
        let mut d: usize = 0;
        while d < 7
            invariant
                d <= 7,
                days.len() == 7,
                days == self.selected_days@,
                week_view(items@) == week_view(old(self).entries@) + chosen_items(days, time@, d as int),
            decreases 7 - d,
        {
            let ghost before = week_view(items@);
            if self.selected_days[d] {
                items.push((d, time.clone()));
                assert(week_view(items@) =~= before.push((d, time@)));
            }
            d = d + 1;
        }
        assert(week_view(items@) == all);
        let mut sorted: Vec<(usize, String)> = Vec::new();
        let mut k: usize = 0;
        assert(week_sorted(all.take(0)) =~= week_view(sorted@));
        while k < items.len()
            invariant
                k <= items@.len(),
                all == week_view(items@),
                week_view(sorted@) == week_sorted(all.take(k as int)),
            decreases items@.len() - k,
        {
            assert(all.take(k + 1).drop_last() =~= all.take(k as int));
            assert(all.take(k + 1).last() == (items@[k as int].0, items@[k as int].1@));
            let e = (items[k].0, items[k].1.clone());
            week_insert(&mut sorted, e);
            k = k + 1;
        }
        assert(all.take(items@.len() as int) =~= all);
        self.entries = sorted;
        self.selected_days = [false, false, false, false, false, false, false];
        assert(self.selected_days@ =~= seq![false, false, false, false, false, false, false]);
        self.time_input.clear();
        true
    }

    /// Removes entry `i` (nothing happens when there is none).
    pub fn remove(&mut self, i: usize)
        ensures
            i < old(self).entries@.len() ==> final(self).entries@ == old(self).entries@.remove(i as int),
            i >= old(self).entries@.len() ==> final(self).entries@ == old(self).entries@,
    {
        if i < self.entries.len() {
            self.entries.remove(i);
        }
    }

    /// The entries as stored in a routine: `"mo 09:30"`.
    pub fn to_strings(&self) -> (r: Vec<String>)
        requires
            forall|i: int| 0 <= i < self.entries@.len() ==> (#[trigger] self.entries@[i]).0 < 7,
        ensures
            r@.len() == self.entries@.len(),
            forall|i: int| 0 <= i < r@.len() ==> (#[trigger] r@[i])@ == week_string(week_view(self.entries@)[i]),
    {
        let mut out: Vec<String> = Vec::new();
        let mut i: usize = 0;
        while i < self.entries.len()
            invariant
                i <= self.entries@.len(),
                out@.len() == i,
                forall|i: int| 0 <= i < self.entries@.len() ==> (#[trigger] self.entries@[i]).0 < 7,
                forall|j: int| 0 <= j < i ==> (#[trigger] out@[j])@ == week_string(week_view(self.entries@)[j]),
            decreases self.entries@.len() - i,
        {
            let mut s = String::new();
            s.append(week_code(self.entries[i].0));
            push_char(&mut s, ' ');
            s.append(self.entries[i].1.as_str());
            assert(s@ =~= week_string(week_view(self.entries@)[i as int]));
            out.push(s);
            i = i + 1;
        }
        out
    }
}

/// Monthly entries: days of the month chosen for the next entry, its time,
/// and the list.
pub struct MonthState {
    pub selected_days: [bool; 31],
    pub time_input: TimeInputState,
    /// Day of the month and time.
    pub entries: Vec<(u32, String)>,
}

impl MonthState {
    /// Nothing chosen, empty list.
    pub fn new() -> (s: Self)
        ensures
            forall|i: int| 0 <= i < 31 ==> !s.selected_days@[i],
            s.entries@.len() == 0,
    {
        MonthState {
            selected_days: [false, false, false, false, false, false, false, false, false, false, false,
                false, false, false, false, false, false, false, false, false, false, false, false, false,
                false, false, false, false, false, false, false],
            time_input: TimeInputState::default(),
            entries: Vec::new(),
        }
    }
}

/// Tabs of the routine editor.
#[derive(Clone, Copy, PartialEq, Eq, Structural, Debug)]
pub enum RoutineTab {
    Direct,
    Week,
    Month,
}

/// The routine editor: which task, which tab, and the tab states.
pub struct RoutineUiState {
    pub task_id: String,
    pub task_name: String,
    pub tab: RoutineTab,
    pub direct: DirectState,
    pub week: WeekState,
}

impl RoutineUiState {
    /// The editor before any task is opened, on the direct tab.
    pub fn new(today: (u32, usize, i32)) -> (s: Self)
        ensures
            s.task_id@.len() == 0,
            s.task_name@.len() == 0,
            s.tab == RoutineTab::Direct,
            s.direct.entries@.len() == 0,
            s.direct.date == (DatePickerState { open: false, selected: None, view_year: today.2, view_month: today.1 }),
            is_fresh_input(s.direct.time_input),
            s.week.entries@.len() == 0,
            s.week.selected_days@ == seq![false, false, false, false, false, false, false],
            is_fresh_input(s.week.time_input),
    {
        RoutineUiState {
            task_id: String::new(),
            task_name: String::new(),
            tab: RoutineTab::Direct,
            direct: DirectState::for_today(today),
            week: WeekState::new(),
        }
    }
}

/// A task name longer than this many characters is cut in the editor's
/// title.
pub const TITLE_MAX_CHARS: usize = 28;

/// The editor's title for task `name`: the name, or, when it is longer
/// than the limit, its first characters without trailing white space and
/// an ellipsis.
pub open spec fn title_spec(name: Seq<char>) -> Seq<char> {
    if name.len() > TITLE_MAX_CHARS {
        crate::text::trim_end(name.take(TITLE_MAX_CHARS as int)).push('…')
    } else {
        name
    }
}

/// The title the routine editor shows for task `name`.
pub fn editor_title(name: &str) -> (r: String)
    ensures
        r@ == title_spec(name@),
{
    let n = name.unicode_len();
    if n <= TITLE_MAX_CHARS {
        return name.to_string();
    }
    let ghost t = name@.take(TITLE_MAX_CHARS as int);
    let mut b: usize = TITLE_MAX_CHARS;
    while b > 0 && crate::text::space(name.get_char(b - 1))
        invariant
            n == name@.len(),
            n > TITLE_MAX_CHARS,
            b <= TITLE_MAX_CHARS,
            t == name@.take(TITLE_MAX_CHARS as int),
            forall|j: int| b <= j < t.len() ==> crate::text::is_space(#[trigger] t[j]),
        decreases b,
    {
        assert(t[b - 1] == name@[b - 1]);
        b = b - 1;
    }
    proof {
        crate::text::lemma_trim_end_take(t, b as int);
        let u = t.take(b as int);
        if b > 0 {
            assert(u.last() == name@[b - 1]);
        }
        assert(crate::text::trim_end(u) == u);
    }
    let mut out = String::new();
    let mut i: usize = 0;
    while i < b
        invariant
            n == name@.len(),
            b <= TITLE_MAX_CHARS < n,
            i <= b,
            out@ == name@.take(i as int),
        decreases b - i,
    {
        let c = name.get_char(i);
        push_char(&mut out, c);
        proof { assert(name@.take(i + 1) =~= name@.take(i as int).push(c)); }
        i = i + 1;
    }
    push_char(&mut out, '…');
    proof { assert(name@.take(b as int) =~= t.take(b as int)); }
    out
}

} // verus!
