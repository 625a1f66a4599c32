//! The order in which the sub-tasks are shown. The list itself is never
//! reordered for display: the result is a list of positions into it.
use vstd::prelude::*;
use indexmap::IndexMap;
use crate::project::is_active_view;
use crate::task_map::{Entries, TaskData, task_entries, tm_len, tm_get};

verus! {

/// 0 for an active task, 1 for an inactive one: active tasks come first.
pub open spec fn inactive_rank(s: Entries, i: int) -> int {
    if is_active_view(s[i].1) { 0 } else { 1 }
}

/// Whether the task at position `a` is shown before the one at `b` when
/// inactive tasks are grouped at the end: active ones first, then by
/// order key, then by creation time, and among equals in list order.
pub open spec fn shown_before(s: Entries, a: int, b: int) -> bool {
    let (ra, rb) = (inactive_rank(s, a), inactive_rank(s, b));
    let (ka, kb) = (s[a].1.order_key, s[b].1.order_key);
    let (ca, cb) = (s[a].1.created_at, s[b].1.created_at);
    ||| ra < rb
    ||| ra == rb && ka < kb
    ||| ra == rb && ka == kb && ca < cb
    ||| ra == rb && ka == kb && ca == cb && a < b
}

/// `o` lists every position of `s` once, in display order.
pub open spec fn is_display_order(s: Entries, group_inactive_at_end: bool, o: Seq<usize>) -> bool {
    &&& o.len() == s.len()
    &&& forall|i: int| 0 <= i < o.len() ==> #[trigger] o[i] < s.len()
    &&& if group_inactive_at_end {
        forall|i: int, j: int| 0 <= i < j < o.len() ==> shown_before(s, #[trigger] o[i] as int, #[trigger] o[j] as int)
    } else {
        forall|i: int| 0 <= i < o.len() ==> #[trigger] o[i] == i
    }
}

/// No position is shown twice.
pub proof fn lemma_display_order_distinct(s: Entries, group_inactive_at_end: bool, o: Seq<usize>)
    requires
        is_display_order(s, group_inactive_at_end, o),
    ensures
        forall|i: int, j: int| 0 <= i < j < o.len() ==> #[trigger] o[i] != #[trigger] o[j],
{
    assert forall|i: int, j: int| 0 <= i < j < o.len() implies #[trigger] o[i] != #[trigger] o[j] by {
        if group_inactive_at_end {
            assert(shown_before(s, o[i] as int, o[j] as int));
        } else {
            assert(o[i] == i && o[j] == j);
        }
    }
}

proof fn lemma_shown_before_trans(s: Entries, a: int, b: int, c: int)
    requires
        shown_before(s, a, b),
        shown_before(s, b, c),
    ensures
        shown_before(s, a, c),
{
}

proof fn lemma_shown_before_total(s: Entries, a: int, b: int)
    requires
        a != b,
    ensures
        shown_before(s, a, b) || shown_before(s, b, a),
{
}

/// What the comparison reads of each task: inactive, order key, created.
type SortKey = (bool, i64, u64);

spec fn keys_match(keys: Seq<SortKey>, s: Entries) -> bool {
    &&& keys.len() == s.len()
    &&& forall|i: int| 0 <= i < keys.len() ==> #[trigger] keys[i] == (
        !is_active_view(s[i].1),
        s[i].1.order_key,
        s[i].1.created_at,
    )
}

fn key_before(keys: &Vec<SortKey>, a: usize, b: usize, Ghost(s): Ghost<Entries>) -> (r: bool)
    requires
        keys_match(keys@, s),
        a < keys.len(),
        b < keys.len(),
    ensures
        r == shown_before(s, a as int, b as int),
{
    let ka = keys[a];
    let kb = keys[b];
    let ra: u8 = if ka.0 { 1 } else { 0 };
    let rb: u8 = if kb.0 { 1 } else { 0 };
    proof {
        assert(keys@[a as int] == ka);
        assert(keys@[b as int] == kb);
    }
    if ra != rb {
        ra < rb
    } else if ka.1 != kb.1 {
        ka.1 < kb.1
    } else if ka.2 != kb.2 {
        ka.2 < kb.2
    } else {
        a < b
    }
}

/// Positions of the sub-tasks in the order they are shown. With
/// `group_inactive_at_end` off that is the list order; with it on, active
/// tasks come first, then by order key, then by creation time, ties kept
/// in list order (a stable sort).
pub fn display_order(subs: &IndexMap<String, TaskData>, group_inactive_at_end: bool) -> (o: Vec<usize>)
    ensures
        is_display_order(task_entries(*subs), group_inactive_at_end, o@),
{
    let ghost s = task_entries(*subs);
    let n = tm_len(subs);
    if !group_inactive_at_end {
        let mut o: Vec<usize> = Vec::new();
        let mut i: usize = 0;
        while i < n
            invariant
                n == s.len(),
                i <= n,
                o.len() == i,
                forall|k: int| 0 <= k < i ==> #[trigger] o@[k] == k,
            decreases n - i,
        {
            o.push(i);
            i = i + 1;
        }
        return o;
    }
    let mut keys: Vec<SortKey> = Vec::new();
    let mut i: usize = 0;
    while i < n
        invariant
            s == task_entries(*subs),
            n == s.len(),
            i <= n,
            keys.len() == i,
            forall|k: int| 0 <= k < i ==> #[trigger] keys@[k] == (
                !is_active_view(s[k].1),
                s[k].1.order_key,
                s[k].1.created_at,
            ),
        decreases n - i,
    {
        match tm_get(subs, i) {
            Some(e) => {
                let inactive = !crate::project::is_active_task(&e.1);
                keys.push((inactive, e.1.order_key, e.1.created_at));
            },
            None => {
                proof { assert(false); }
            },
        }
        i = i + 1;
    }
    proof { assert(keys_match(keys@, s)); }
    let mut o: Vec<usize> = Vec::new();
    let mut r: usize = 0;
    while r < n
        invariant
            keys_match(keys@, s),
            n == s.len(),
            r <= n,
            o.len() == r,
            forall|i: int| 0 <= i < o.len() ==> #[trigger] o@[i] < r,
            forall|i: int, j: int| 0 <= i < j < o.len() ==> shown_before(s, #[trigger] o@[i] as int, #[trigger] o@[j] as int),
        decreases n - r,
    {
        let mut pos: usize = 0;
        while pos < o.len()
            invariant
                keys_match(keys@, s),
                n == s.len(),
                r < n,
                o.len() == r,
                pos <= o.len(),
                forall|i: int| 0 <= i < o.len() ==> #[trigger] o@[i] < r,
                forall|k: int| 0 <= k < pos ==> shown_before(s, #[trigger] o@[k] as int, r as int),
            ensures
                pos <= o.len(),
                forall|k: int| 0 <= k < pos ==> shown_before(s, #[trigger] o@[k] as int, r as int),
                pos < o.len() ==> shown_before(s, r as int, o@[pos as int] as int),
            decreases o.len() - pos,
        {
            let here = o[pos];
            if key_before(&keys, r, here, Ghost(s)) {
                break;
            }
            proof {
                assert(o@[pos as int] < r);
                lemma_shown_before_total(s, r as int, here as int);
            }
            pos = pos + 1;
        }
        let ghost old_o = o@;
        o.insert(pos, r);
        proof {
            assert(o@ == old_o.insert(pos as int, r));
            assert forall|i: int, j: int| 0 <= i < j < o@.len() implies shown_before(s, #[trigger] o@[i] as int, #[trigger] o@[j] as int) by {
                if j < pos {
                    assert(o@[i] == old_o[i] && o@[j] == old_o[j]);
                } else if j == pos {
                    assert(o@[i] == old_o[i]);
                } else if i == pos {
                    assert(o@[j] == old_o[j - 1]);
                    if j - 1 > pos {
                        assert(shown_before(s, old_o[pos as int] as int, old_o[j - 1] as int));
                        lemma_shown_before_trans(s, r as int, old_o[pos as int] as int, old_o[j - 1] as int);
                    }
                } else if i < pos {
                    assert(o@[i] == old_o[i] && o@[j] == old_o[j - 1]);
                } else {
                    assert(o@[i] == old_o[i - 1] && o@[j] == old_o[j - 1]);
                }
            }
        }
        r = r + 1;
    }
    o
}

} // verus!
