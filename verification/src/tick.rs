//! The routine tick: every inactive routine whose schedule has come round
//! since its last activation turns active.
use vstd::prelude::*;
use indexmap::IndexMap;
use crate::routine::RoutineView;
use crate::schedule::{due_occurrence, due_spec, prune_expired_direct, pruned_direct, MAX_TIME, NOTIFY_WINDOW_SECS};
use crate::task_map::{Entries, TaskData, TaskView, task_entries, tm_len, tm_get, tm_replace_at};
use crate::project::{LoadedProject, ProjectView};

verus! {

/// A routine that turned active during a tick.
pub struct Activation {
    pub task_id: String,
    pub text: String,
    /// The schedule moment that made it due.
    pub occurrence: u64,
    /// Whether that moment is recent enough for a notification.
    pub notify: bool,
}

pub ghost struct ActivationView {
    pub task_id: Seq<char>,
    pub text: Seq<char>,
    pub occurrence: u64,
    pub notify: bool,
}

impl View for Activation {
    type V = ActivationView;

    open spec fn view(&self) -> ActivationView {
        ActivationView { task_id: self.task_id@, text: self.text@, occurrence: self.occurrence, notify: self.notify }
    }
}

pub open spec fn activations_view(v: Seq<Activation>) -> Seq<ActivationView> {
    v.map_values(|a: Activation| a@)
}

/// Due occurrence of a task at `now`: only an inactive routine whose
/// schedule is due yields one.
pub open spec fn due_task(t: TaskView, now: u64) -> Option<u64> {
    match t.routine {
        Some(r) => if !r.active { due_spec(r, now as int) } else { None },
        None => None,
    }
}

/// An activated routine: active, stamped with `now`, expired direct dates
/// dropped.
pub open spec fn activated(r: RoutineView, now: u64) -> RoutineView {
    RoutineView { active: true, last_triggered_at: now, direct: pruned_direct(r.direct, now as i64 as int), ..r }
}

/// A task after a tick at `now`.
pub open spec fn tick_task(t: TaskView, now: u64) -> TaskView {
    if due_task(t, now) is Some {
        TaskView { routine: Some(activated(t.routine.unwrap(), now)), ..t }
    } else {
        t
    }
}

/// Task entries after a tick: same ids, same order.
pub open spec fn tick_entries(s: Entries, now: u64) -> Entries {
    Seq::new(s.len(), |j: int| (s[j].0, tick_task(s[j].1, now)))
}

/// `now - occ`, or 0 when `occ` is later.
pub open spec fn elapsed(now: u64, occ: u64) -> int {
    if now >= occ { now - occ } else { 0 }
}

pub open spec fn activation_of(e: (Seq<char>, TaskView), occ: u64, now: u64) -> ActivationView {
    ActivationView { task_id: e.0, text: e.1.text, occurrence: occ, notify: elapsed(now, occ) <= NOTIFY_WINDOW_SECS }
}

/// The activations of a tick over `s`, in list order.
pub open spec fn fired(s: Entries, now: u64) -> Seq<ActivationView>
    decreases s.len(),
{
    if s.len() == 0 {
        Seq::empty()
    } else {
        let rest = fired(s.drop_last(), now);
        match due_task(s.last().1, now) {
            Some(occ) => rest.push(activation_of(s.last(), occ, now)),
            None => rest,
        }
    }
}

/// The project after a tick at `now`.
pub open spec fn tick_project(p: ProjectView, now: u64) -> ProjectView {
    ProjectView { main: tick_entries(p.main, now), subs: tick_entries(p.subs, now), ..p }
}

proof fn lemma_fired_step(s: Entries, i: int, now: u64)
    requires
        0 <= i < s.len(),
    ensures
        fired(s.take(i + 1), now) == match due_task(s[i].1, now) {
            Some(occ) => fired(s.take(i), now).push(activation_of(s[i], occ, now)),
            None => fired(s.take(i), now),
        },
{
    assert(s.take(i + 1).drop_last() =~= s.take(i));
    assert(s.take(i + 1).last() == s[i]);
}

/// Runs the tick over one task list, appending the activations to `out`.
fn tick_map(m: &mut IndexMap<String, TaskData>, now: u64, out: &mut Vec<Activation>)
    requires
        now <= MAX_TIME,
    ensures
        task_entries(*final(m)) == tick_entries(task_entries(*old(m)), now),
        activations_view(final(out)@) == activations_view(old(out)@) + fired(task_entries(*old(m)), now),
{
    let ghost s0 = task_entries(*m);
    let ghost out0 = activations_view(out@);
    let n = tm_len(m);
    let mut i: usize = 0;
    assert(s0.take(0) =~= Seq::<(Seq<char>, TaskView)>::empty());
    assert(out0 + fired(s0.take(0), now) =~= out0);
    while i < n
        invariant
            n == s0.len(),
            i <= n,
            now <= MAX_TIME,
            task_entries(*m).len() == n,
            forall|j: int| 0 <= j < i ==> #[trigger] task_entries(*m)[j] == (s0[j].0, tick_task(s0[j].1, now)),
            forall|j: int| i <= j < n ==> #[trigger] task_entries(*m)[j] == s0[j],
            activations_view(out@) == out0 + fired(s0.take(i as int), now),
        decreases n - i,
    {
        let ghost before = task_entries(*m);
        let ghost outb = out@;
        let (id, mut task) = tm_get(m, i).unwrap();
        proof { lemma_fired_step(s0, i as int, now); }
        let occ: Option<u64> = match &task.routine {
            Some(r) => if !r.active { due_occurrence(r, now) } else { None },
            None => None,
        };
        match occ {
            Some(o) => {
                let mut r = task.routine.unwrap();
                r.active = true;
                r.last_triggered_at = now;
                prune_expired_direct(&mut r, now);
                task.routine = Some(r);
                let text = task.text.clone();
                tm_replace_at(m, i, task);
                let notify = if now >= o { now - o <= NOTIFY_WINDOW_SECS } else { true };
                out.push(Activation { task_id: id, text, occurrence: o, notify });
                proof {
                    assert(activations_view(out@) =~= activations_view(outb).push(activation_of(s0[i as int], o, now)));
                    assert(out0 + fired(s0.take(i + 1), now) =~= (out0 + fired(s0.take(i as int), now)).push(activation_of(s0[i as int], o, now)));
                    assert forall|j: int| 0 <= j < i + 1 implies #[trigger] task_entries(*m)[j] == (s0[j].0, tick_task(s0[j].1, now)) by {
                        if j < i { assert(task_entries(*m)[j] == before[j]); }
                    }
                    assert forall|j: int| i + 1 <= j < n implies #[trigger] task_entries(*m)[j] == s0[j] by {
                        assert(task_entries(*m)[j] == before[j]);
                    }
                }
            },
            None => {
                proof {
                    assert(task_entries(*m)[i as int] == (s0[i as int].0, tick_task(s0[i as int].1, now)));
                }
            },
        }
        i = i + 1;
    }
    assert(s0.take(n as int) =~= s0);
    assert(task_entries(*m) =~= tick_entries(s0, now));
}

impl LoadedProject {
    /// The routine tick at local time `now`: every inactive routine, in the
    /// main place and then among the sub-tasks, whose schedule has an
    /// occurrence later than its last activation turns active in place,
    /// stamped with `now`, its expired direct dates dropped. Returns the
    /// activations in that order; the project needs saving when there is
    /// one.
    pub fn activate_due(&mut self, now: u64) -> (r: Vec<Activation>)
        requires
            now <= MAX_TIME,
        ensures
            final(self)@ == tick_project(old(self)@, now),
            activations_view(r@) == fired(old(self)@.main, now) + fired(old(self)@.subs, now),
    {
        let mut out: Vec<Activation> = Vec::new();
        assert(activations_view(out@) =~= Seq::<ActivationView>::empty());
        tick_map(&mut self.main, now, &mut out);
        tick_map(&mut self.subs, now, &mut out);
        out
    }
}

/// After a tick, ticking again at the same moment activates nothing.
pub proof fn lemma_tick_settles(s: Entries, now: u64)
    ensures
        fired(tick_entries(s, now), now) == Seq::<ActivationView>::empty(),
    decreases s.len(),
{
    let t = tick_entries(s, now);
    if s.len() > 0 {
        lemma_tick_settles(s.drop_last(), now);
        assert(t.drop_last() =~= tick_entries(s.drop_last(), now));
        let last = s.last().1;
        assert(t.last().1 == tick_task(last, now));
        assert(due_task(tick_task(last, now), now) is None);
    }
}

/// Every activation comes from a routine that was inactive and whose
/// occurrence is later than its last activation.
pub proof fn lemma_fired_is_due(s: Entries, now: u64, k: int)
    requires
        0 <= k < fired(s, now).len(),
    ensures
        exists|j: int| 0 <= j < s.len() && #[trigger] s[j].0 == fired(s, now)[k].task_id
            && due_task(s[j].1, now) == Some(fired(s, now)[k].occurrence)
            && s[j].1.routine.unwrap().last_triggered_at < fired(s, now)[k].occurrence,
    decreases s.len(),
{
    let rest = fired(s.drop_last(), now);
    if k < rest.len() {
        lemma_fired_is_due(s.drop_last(), now, k);
        let j = choose|j: int| 0 <= j < s.drop_last().len() && #[trigger] s.drop_last()[j].0 == rest[k].task_id
            && due_task(s.drop_last()[j].1, now) == Some(rest[k].occurrence)
            && s.drop_last()[j].1.routine.unwrap().last_triggered_at < rest[k].occurrence;
        assert(s[j] == s.drop_last()[j]);
    } else {
        let j = s.len() - 1;
        assert(s[j] == s.last());
    }
}

/// The window's tick runs at most this often, in seconds.
pub const TICK_INTERVAL_SECS: u64 = 5;

/// The window rewrites its lock file this often, in seconds.
pub const LOCK_REFRESH_INTERVAL_SECS: u64 = 900;

/// When the window last refreshed its lock and last ran the tick.
pub struct TickClock {
    pub last_lock_refresh: u64,
    pub last_routine_tick: u64,
}

/// What to do at one frame: rewrite the lock file, run the tick.
pub struct TickPlan {
    pub refresh_lock: bool,
    pub run_tick: bool,
}

impl TickClock {
    /// Decides at local time `now` whether the lock is due for a refresh
    /// and whether the tick is due, and records the times of what runs.
    pub fn step(&mut self, now: u64) -> (p: TickPlan)
        ensures
            p.refresh_lock == (now >= old(self).last_lock_refresh + LOCK_REFRESH_INTERVAL_SECS),
            final(self).last_lock_refresh == if p.refresh_lock { now } else { old(self).last_lock_refresh },
            p.run_tick == (now >= old(self).last_routine_tick + TICK_INTERVAL_SECS),
            final(self).last_routine_tick == if p.run_tick { now } else { old(self).last_routine_tick },
    {
        let refresh_lock = now >= self.last_lock_refresh && now - self.last_lock_refresh >= LOCK_REFRESH_INTERVAL_SECS;
        if refresh_lock {
            self.last_lock_refresh = now;
        }
        let run_tick = now >= self.last_routine_tick && now - self.last_routine_tick >= TICK_INTERVAL_SECS;
        if run_tick {
            self.last_routine_tick = now;
        }
        TickPlan { refresh_lock, run_tick }
    }
}

} // verus!
