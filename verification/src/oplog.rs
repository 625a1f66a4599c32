//! The operation log: every change to projects, tasks and shared settings,
//! numbered per device, as exchanged between devices.
use vstd::prelude::*;
use crate::routine::{Routine, RoutineView};
use crate::task_map::opt_routine_view;

verus! {

/// Where an added task goes.
#[derive(Clone, Copy, PartialEq, Eq, Structural, Debug)]
pub enum AddTarget {
    Main,
    End,
    Beginning,
}

/// The value of a shared setting as carried by an operation: the parts of a
/// JSON value that settings are read from.
#[derive(Clone, Debug)]
pub enum SettingValue {
    Null,
    Bool(bool),
    Text(String),
    /// A number, an array or an object.
    Other,
}

pub ghost enum SettingValueView {
    Null,
    Bool(bool),
    Text(Seq<char>),
    Other,
}

impl View for SettingValue {
    type V = SettingValueView;

    open spec fn view(&self) -> SettingValueView {
        match self {
            SettingValue::Null => SettingValueView::Null,
            SettingValue::Bool(b) => SettingValueView::Bool(*b),
            SettingValue::Text(s) => SettingValueView::Text(s@),
            SettingValue::Other => SettingValueView::Other,
        }
    }
}

/// All kinds of change.
#[derive(Clone)]
pub enum OpKind {
    CreateProject { project_id: String, name: String, color: String, created_at: u64 },
    DeleteProject { project_id: String },
    RenameProject { project_id: String, name: String },
    RecolorProject { project_id: String, color: String },
    AddTask { project_id: String, task_id: String, text: String, target: AddTarget },
    DeleteTask { project_id: String, task_id: String },
    CompleteMain { project_id: String, task_id: String },
    /// Finishing a routine right in the sub-tasks, with no promotion.
    CompleteSub { project_id: String, task_id: String },
    PromoteTask { project_id: String, task_id: String },
    EditTask { project_id: String, task_id: String, text: String },
    /// Replaces the whole schedule of a task; `None` removes the routine.
    SetRoutine { project_id: String, task_id: String, routine: Option<Routine> },
    SetSharedSetting { key: String, value: SettingValue },
}

pub ghost enum OpKindView {
    CreateProject { project_id: Seq<char>, name: Seq<char>, color: Seq<char>, created_at: u64 },
    DeleteProject { project_id: Seq<char> },
    RenameProject { project_id: Seq<char>, name: Seq<char> },
    RecolorProject { project_id: Seq<char>, color: Seq<char> },
    AddTask { project_id: Seq<char>, task_id: Seq<char>, text: Seq<char>, target: AddTarget },
    DeleteTask { project_id: Seq<char>, task_id: Seq<char> },
    CompleteMain { project_id: Seq<char>, task_id: Seq<char> },
    CompleteSub { project_id: Seq<char>, task_id: Seq<char> },
    PromoteTask { project_id: Seq<char>, task_id: Seq<char> },
    EditTask { project_id: Seq<char>, task_id: Seq<char>, text: Seq<char> },
    SetRoutine { project_id: Seq<char>, task_id: Seq<char>, routine: Option<RoutineView> },
    SetSharedSetting { key: Seq<char>, value: SettingValueView },
}

impl View for OpKind {
    type V = OpKindView;

    open spec fn view(&self) -> OpKindView {
        match self {
            OpKind::CreateProject { project_id, name, color, created_at } =>
                OpKindView::CreateProject { project_id: project_id@, name: name@, color: color@, created_at: *created_at },
            OpKind::DeleteProject { project_id } => OpKindView::DeleteProject { project_id: project_id@ },
            OpKind::RenameProject { project_id, name } => OpKindView::RenameProject { project_id: project_id@, name: name@ },
            OpKind::RecolorProject { project_id, color } => OpKindView::RecolorProject { project_id: project_id@, color: color@ },
            OpKind::AddTask { project_id, task_id, text, target } =>
                OpKindView::AddTask { project_id: project_id@, task_id: task_id@, text: text@, target: *target },
            OpKind::DeleteTask { project_id, task_id } => OpKindView::DeleteTask { project_id: project_id@, task_id: task_id@ },
            OpKind::CompleteMain { project_id, task_id } => OpKindView::CompleteMain { project_id: project_id@, task_id: task_id@ },
            OpKind::CompleteSub { project_id, task_id } => OpKindView::CompleteSub { project_id: project_id@, task_id: task_id@ },
            OpKind::PromoteTask { project_id, task_id } => OpKindView::PromoteTask { project_id: project_id@, task_id: task_id@ },
            OpKind::EditTask { project_id, task_id, text } =>
                OpKindView::EditTask { project_id: project_id@, task_id: task_id@, text: text@ },
            OpKind::SetRoutine { project_id, task_id, routine } =>
                OpKindView::SetRoutine { project_id: project_id@, task_id: task_id@, routine: opt_routine_view(*routine) },
            OpKind::SetSharedSetting { key, value } => OpKindView::SetSharedSetting { key: key@, value: value@ },
        }
    }
}

/// One record of the log.
#[derive(Clone)]
pub struct Op {
    pub op_id: String,
    pub device_id: String,
    pub seq: u64,
    pub ts: u64,
    pub kind: OpKind,
}

pub ghost struct OpView {
    pub op_id: Seq<char>,
    pub device_id: Seq<char>,
    pub seq: u64,
    pub ts: u64,
    pub kind: OpKindView,
}

impl View for Op {
    type V = OpView;

    open spec fn view(&self) -> OpView {
        OpView { op_id: self.op_id@, device_id: self.device_id@, seq: self.seq, ts: self.ts, kind: self.kind@ }
    }
}

pub open spec fn ops_view(v: Seq<Op>) -> Seq<OpView> {
    v.map_values(|o: Op| o@)
}

/// Largest sequence number of a list of operations (0 when empty).
pub open spec fn max_seq(s: Seq<OpView>) -> u64
    decreases s.len(),
{
    if s.len() == 0 {
        0
    } else {
        let m = max_seq(s.drop_last());
        if s.last().seq > m { s.last().seq } else { m }
    }
}

/// The operations numbered `since` or later, in log order.
pub open spec fn ops_since_spec(s: Seq<OpView>, since: u64) -> Seq<OpView> {
    s.filter(|o: OpView| o.seq >= since)
}

/// The local log: the number the next operation gets.
pub struct OpLog {
    pub next_seq: u64,
}

impl OpLog {
    /// The log that holds `ops`: the next number follows the largest one
    /// (1 for an empty log).
    pub fn from_ops(ops: &Vec<Op>) -> (l: OpLog)
        requires
            max_seq(ops_view(ops@)) < u64::MAX,
        ensures
            l.next_seq == if ops@.len() == 0 { 1 } else { max_seq(ops_view(ops@)) + 1 },
    {
        let ghost s = ops_view(ops@);
        let mut m: Option<u64> = None;
        let mut i: usize = 0;
        while i < ops.len()
            invariant
                i <= ops@.len(),
                s == ops_view(ops@),
                max_seq(s) < u64::MAX,
                i == 0 ==> m is None,
                i > 0 ==> m == Some(max_seq(s.take(i as int))),
            decreases ops@.len() - i,
        {
            assert(s.take(i + 1).drop_last() =~= s.take(i as int));
            assert(s.take(i + 1).last() == ops@[i as int]@);
            assert(s[i as int] == ops@[i as int]@);
            assert(max_seq(s.take(0)) == 0);
            let q = ops[i].seq;
            m = match m {
                Some(b) => Some(if q > b { q } else { b }),
                None => Some(q),
            };
            i = i + 1;
        }
        assert(s.take(ops@.len() as int) =~= s);
        match m {
            Some(v) => OpLog { next_seq: v + 1 },
            None => OpLog { next_seq: 1 },
        }
    }

    /// The record for a new operation: it gets the next number. The number
    /// is used up only by `commit`, once the record is on disk.
    pub fn prepare(&self, op_id: String, kind: OpKind, device_id: &str, ts: u64) -> (op: Op)
        ensures
            op@ == (OpView { op_id: op_id@, device_id: device_id@, seq: self.next_seq, ts, kind: kind@ }),
    {
        Op { op_id, device_id: device_id.to_string(), seq: self.next_seq, ts, kind }
    }

    /// The prepared record was written: the next operation gets the next
    /// number.
    pub fn commit(&mut self)
        requires
            old(self).next_seq < u64::MAX,
        ensures
            final(self).next_seq == old(self).next_seq + 1,
    {
        self.next_seq = self.next_seq + 1;
    }
}

impl SettingValue {
    /// A copy of the value.
    pub fn duplicate(&self) -> (r: SettingValue)
        ensures
            r@ == self@,
    {
        match self {
            SettingValue::Null => SettingValue::Null,
            SettingValue::Bool(b) => SettingValue::Bool(*b),
            SettingValue::Text(t) => SettingValue::Text(t.clone()),
            SettingValue::Other => SettingValue::Other,
        }
    }
}

impl OpKind {
    /// A copy of the change.
    pub fn duplicate(&self) -> (r: OpKind)
        ensures
            r@ == self@,
    {
        match self {
            OpKind::CreateProject { project_id, name, color, created_at } => OpKind::CreateProject {
                project_id: project_id.clone(), name: name.clone(), color: color.clone(), created_at: *created_at },
            OpKind::DeleteProject { project_id } => OpKind::DeleteProject { project_id: project_id.clone() },
            OpKind::RenameProject { project_id, name } => OpKind::RenameProject {
                project_id: project_id.clone(), name: name.clone() },
            OpKind::RecolorProject { project_id, color } => OpKind::RecolorProject {
                project_id: project_id.clone(), color: color.clone() },
            OpKind::AddTask { project_id, task_id, text, target } => OpKind::AddTask {
                project_id: project_id.clone(), task_id: task_id.clone(), text: text.clone(), target: *target },
            OpKind::DeleteTask { project_id, task_id } => OpKind::DeleteTask {
                project_id: project_id.clone(), task_id: task_id.clone() },
            OpKind::CompleteMain { project_id, task_id } => OpKind::CompleteMain {
                project_id: project_id.clone(), task_id: task_id.clone() },
            OpKind::CompleteSub { project_id, task_id } => OpKind::CompleteSub {
                project_id: project_id.clone(), task_id: task_id.clone() },
            OpKind::PromoteTask { project_id, task_id } => OpKind::PromoteTask {
                project_id: project_id.clone(), task_id: task_id.clone() },
            OpKind::EditTask { project_id, task_id, text } => OpKind::EditTask {
                project_id: project_id.clone(), task_id: task_id.clone(), text: text.clone() },
            OpKind::SetRoutine { project_id, task_id, routine } => OpKind::SetRoutine {
                project_id: project_id.clone(), task_id: task_id.clone(),
                routine: match routine { Some(r) => Some(r.duplicate()), None => None } },
            OpKind::SetSharedSetting { key, value } => OpKind::SetSharedSetting {
                key: key.clone(), value: value.duplicate() },
        }
    }
}

impl Op {
    /// A copy of the record.
    pub fn duplicate(&self) -> (r: Op)
        ensures
            r@ == self@,
    {
        Op {
            op_id: self.op_id.clone(),
            device_id: self.device_id.clone(),
            seq: self.seq,
            ts: self.ts,
            kind: self.kind.duplicate(),
        }
    }
}

/// The operations numbered `since` or later, in log order.
pub fn ops_since(ops: Vec<Op>, since: u64) -> (r: Vec<Op>)
    ensures
        ops_view(r@) == ops_since_spec(ops_view(ops@), since),
{
    let ghost s = ops_view(ops@);
    let ghost keep = |o: OpView| o.seq >= since;
    let mut out: Vec<Op> = Vec::new();
    let mut i: usize = 0;
    while i < ops.len()
        invariant
            i <= ops@.len(),
            s == ops_view(ops@),
            keep == |o: OpView| o.seq >= since,
            ops_view(out@) == s.take(i as int).filter(keep),
        decreases ops@.len() - i,
    {
        proof {
            reveal_with_fuel(Seq::<_>::filter, 1);
            assert(s.take(i + 1).drop_last() =~= s.take(i as int));
        }
        if ops[i].seq >= since {
            out.push(ops[i].duplicate());
            assert(ops_view(out@) =~= s.take(i as int).filter(keep).push(s[i as int]));
        }
        i = i + 1;
    }
    assert(s.take(ops@.len() as int) =~= s);
    out
}

/// All operations, for replay: those numbered 1 or later.
pub fn all_ops(ops: Vec<Op>) -> (r: Vec<Op>)
    ensures
        ops_view(r@) == ops_since_spec(ops_view(ops@), 1),
{
    ops_since(ops, 1)
}

} // verus!
