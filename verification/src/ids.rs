//! Random-looking ids for projects, tasks and operations, and where a new
//! task is recorded to go.
use vstd::prelude::*;
use crate::oplog::AddTarget;
use crate::settings::{NewTaskPos, Settings};
use crate::text::push_char;

verus! {

/// Length of a generated id.
pub const ID_LEN: usize = 12;

/// The mix of the clock (nanoseconds), the process id and a per-process
/// counter that an id is derived from.
pub open spec fn seed_spec(t: u64, pid: u32, ctr: u64) -> u64 {
    t ^ ((pid as u64) << 32u64) ^ vstd::wrapping::u64_specs::wrapping_mul(ctr, 0x9e3779b97f4a7c15)
}

/// One step of the generator.
pub open spec fn lcg_next(n: u64) -> u64 {
    vstd::wrapping::u64_specs::wrapping_add(vstd::wrapping::u64_specs::wrapping_mul(n, 6364136223846793005), 1442695040888963407)
}

/// Character `k` of the id alphabet: `a`–`z`, `A`–`Z`, `0`–`9`.
pub open spec fn id_char(k: int) -> char {
    if k < 26 { (k + 'a' as int) as char } else if k < 52 { (k - 26 + 'A' as int) as char } else { (k - 52 + '0' as int) as char }
}

/// The id characters of seed `n`: each step takes the character of the
/// state modulo 62, then advances the state.
pub open spec fn id_chars(n: u64, len: nat) -> Seq<char>
    decreases len,
{
    if len == 0 { Seq::empty() } else { seq![id_char((n % 62) as int)] + id_chars(lcg_next(n), (len - 1) as nat) }
}

/// The seed of an id.
pub fn id_seed(t: u64, pid: u32, ctr: u64) -> (r: u64)
    ensures
        r == seed_spec(t, pid, ctr),
{
    t ^ ((pid as u64) << 32u64) ^ ctr.wrapping_mul(0x9e3779b97f4a7c15)
}

fn alphabet_char(k: u64) -> (c: char)
    requires
        k < 62,
    ensures
        c == id_char(k as int),
{
    if k < 26 {
        ((k as u8) + 97u8) as char
    } else if k < 52 {
        ((k as u8) - 26 + 65u8) as char
    } else {
        ((k as u8) - 52 + 48u8) as char
    }
}

/// The twelve-character id of seed `n`.
pub fn id_from_seed(n: u64) -> (id: String)
    ensures
        id@ == id_chars(n, ID_LEN as nat),
{
    let mut id = String::new();
    let mut state = n;
    let mut i: usize = 0;
    while i < ID_LEN
        invariant
            i <= ID_LEN,
            id@ + id_chars(state, (ID_LEN - i) as nat) == id_chars(n, ID_LEN as nat),
        decreases ID_LEN - i,
    {
        let ghost before = id@;
        let ghost s0 = state;
        push_char(&mut id, alphabet_char(state % 62));
        state = state.wrapping_mul(6364136223846793005).wrapping_add(1442695040888963407);
        proof {
            assert(id_chars(s0, (ID_LEN - i) as nat) =~= seq![id_char((s0 % 62) as int)] + id_chars(state, (ID_LEN - i - 1) as nat));
            assert(id@ + id_chars(state, (ID_LEN - (i + 1)) as nat) =~= before + id_chars(s0, (ID_LEN - i) as nat));
        }
        i = i + 1;
    }
    assert(id_chars(state, 0) =~= Seq::<char>::empty());
    assert(id@ + id_chars(state, 0) =~= id@);
    id
}

/// Where a task added in the window is recorded to go: into the main
/// place when it is empty or the settings put new tasks there; otherwise
/// to the end or the beginning of the sub-tasks as the settings say.
pub fn add_target_for(s: &Settings, main_empty: bool) -> (r: AddTarget)
    ensures
        r == if main_empty || s.replace_main {
            AddTarget::Main
        } else {
            match s.new_task_pos {
                NewTaskPos::End => AddTarget::End,
                NewTaskPos::Beginning => AddTarget::Beginning,
            }
        },
{
    if main_empty || s.replace_main {
        return AddTarget::Main;
    }
    match s.new_task_pos {
        NewTaskPos::End => AddTarget::End,
        NewTaskPos::Beginning => AddTarget::Beginning,
    }
}

} // verus!
