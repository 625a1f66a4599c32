//! The lock file by which a running task-list window shows it is alive,
//! and how the background scheduler reads it.
use vstd::prelude::*;
use crate::time::current_time;

verus! {

/// A lock older than this many seconds no longer counts.
pub const LOCK_FRESH_SECS: u64 = 3600;

/// Contents of the lock file: process id and the time it was written.
pub struct LockData {
    pub pid: u32,
    pub time: u64,
}

/// `now - time`, or 0 when the lock is from the future.
pub open spec fn lock_age(now: u64, time: u64) -> int {
    if now >= time { now - time } else { 0 }
}

/// Whether a lock written at `l.time` is still fresh at `now`.
pub fn lock_is_fresh_at(l: &LockData, now: u64) -> (r: bool)
    ensures
        r == (lock_age(now, l.time) < LOCK_FRESH_SECS),
{
    let age = if now >= l.time { now - l.time } else { 0 };
    age < LOCK_FRESH_SECS
}

/// Whether the lock is fresh by the clock.
pub fn lock_is_fresh(l: &LockData) -> (r: bool)
    ensures
        exists|now: u64| r == (lock_age(now, l.time) < LOCK_FRESH_SECS),
{
    let now = current_time();
    lock_is_fresh_at(l, now)
}

/// Whether the window counts as running: there is a lock, it is fresh at
/// `now`, and its process is alive (`alive` is asked of the lock's pid and
/// only matters for a fresh lock).
pub fn cue_is_running(lock: &Option<LockData>, now: u64, alive: bool) -> (r: bool)
    ensures
        r == match lock {
            Some(l) => lock_age(now, l.time) < LOCK_FRESH_SECS && alive,
            None => false,
        },
{
    match lock {
        Some(l) => lock_is_fresh_at(l, now) && alive,
        None => false,
    }
}

} // verus!
