//! Routine schedules attached to tasks.
use vstd::prelude::*;

verus! {

/// Views of a list of strings.
pub open spec fn strings_view(v: Seq<String>) -> Seq<Seq<char>> {
    v.map_values(|s: String| s@)
}

pub open spec fn opt_strings_view(v: Option<Vec<String>>) -> Option<Seq<Seq<char>>> {
    match v {
        Some(l) => Some(strings_view(l@)),
        None => None,
    }
}

/// A routine schedule. `week`, `month` and `direct` are independent lists
/// that may be present at the same time; an empty list is stored as `None`.
/// Week entries read `"mo 09:30"`, month entries `"15 09:30"` and direct
/// entries `"2025-07-01 09:30"`.
#[derive(Clone)]
pub struct Routine {
    pub week: Option<Vec<String>>,
    pub month: Option<Vec<String>>,
    pub direct: Option<Vec<String>>,
    pub active: bool,
    pub last_triggered_at: u64,
}

/// Mathematical view of a routine.
pub ghost struct RoutineView {
    pub week: Option<Seq<Seq<char>>>,
    pub month: Option<Seq<Seq<char>>>,
    pub direct: Option<Seq<Seq<char>>>,
    pub active: bool,
    pub last_triggered_at: u64,
}

impl View for Routine {
    type V = RoutineView;

    open spec fn view(&self) -> RoutineView {
        RoutineView {
            week: opt_strings_view(self.week),
            month: opt_strings_view(self.month),
            direct: opt_strings_view(self.direct),
            active: self.active,
            last_triggered_at: self.last_triggered_at,
        }
    }
}

pub open spec fn list_is_empty(l: Option<Seq<Seq<char>>>) -> bool {
    match l {
        Some(v) => v.len() == 0,
        None => true,
    }
}

impl RoutineView {
    /// No entries in any of the three lists.
    pub open spec fn is_empty(self) -> bool {
        list_is_empty(self.week) && list_is_empty(self.month) && list_is_empty(self.direct)
    }

    /// Only direct entries (no week and no month list).
    pub open spec fn is_direct_only(self) -> bool {
        self.week is None && self.month is None && self.direct is Some
    }

    /// A direct-only routine whose dates are all used up.
    pub open spec fn is_exhausted(self) -> bool {
        self.week is None && self.month is None && list_is_empty(self.direct)
    }
}

/// Copy of a list of strings.
pub fn clone_strings(v: &Vec<String>) -> (r: Vec<String>)
    ensures
        strings_view(r@) == strings_view(v@),
{
    let mut r: Vec<String> = Vec::new();
    let mut i: usize = 0;
    while i < v.len()
        invariant
            i <= v.len(),
            strings_view(r@) == strings_view(v@.subrange(0, i as int)),
        decreases v.len() - i,
    {
        r.push(v[i].clone());
        assert(strings_view(v@.subrange(0, i + 1)) =~= strings_view(v@.subrange(0, i as int)).push(v@[i as int]@));
        assert(strings_view(r@) =~= strings_view(v@.subrange(0, i as int)).push(v@[i as int]@));
        i = i + 1;
    }
    assert(v@.subrange(0, v@.len() as int) =~= v@);
    r
}

pub fn clone_opt_strings(v: &Option<Vec<String>>) -> (r: Option<Vec<String>>)
    ensures
        opt_strings_view(r) == opt_strings_view(*v),
{
    match v {
        Some(l) => Some(clone_strings(l)),
        None => None,
    }
}

impl Routine {
    /// True when all three lists are empty: such a routine is dropped
    /// altogether.
    pub fn is_empty(&self) -> (r: bool)
        ensures
            r == self@.is_empty(),
    {
        let w = match &self.week { Some(v) => v.len() == 0, None => true };
        let m = match &self.month { Some(v) => v.len() == 0, None => true };
        let d = match &self.direct { Some(v) => v.len() == 0, None => true };
        w && m && d
    }

    /// True when the routine has only direct entries (no week/month list).
    pub fn is_direct_only(&self) -> (r: bool)
        ensures
            r == self@.is_direct_only(),
    {
        self.week.is_none() && self.month.is_none() && self.direct.is_some()
    }

    /// A copy of the routine.
    pub fn duplicate(&self) -> (r: Routine)
        ensures
            r@ == self@,
    {
        Routine {
            week: clone_opt_strings(&self.week),
            month: clone_opt_strings(&self.month),
            direct: clone_opt_strings(&self.direct),
            active: self.active,
            last_triggered_at: self.last_triggered_at,
        }
    }
}

} // verus!
