//! Wall-clock time in seconds since the Unix epoch.
use vstd::prelude::*;
use std::time::{Duration, SystemTime, SystemTimeError};
use crate::calendar::{civil_formula, days_from_civil};

verus! {

#[verifier::external_type_specification]
#[verifier::external_body]
pub struct ExSystemTime(SystemTime);

#[verifier::external_type_specification]
#[verifier::external_body]
pub struct ExSystemTimeError(SystemTimeError);

/// `SystemTime::now`: the clock, nothing known of it.
#[verifier::external_body]
fn system_now() -> SystemTime {
    SystemTime::now()
}

/// `SystemTime::duration_since(UNIX_EPOCH)`: fails for clocks before 1970.
#[verifier::external_body]
fn since_epoch(t: SystemTime) -> Result<Duration, SystemTimeError> {
    t.duration_since(std::time::UNIX_EPOCH)
}

/// `Duration::as_secs`: whole seconds of a duration.
#[verifier::external_body]
fn duration_secs(d: &Duration) -> u64 {
    d.as_secs()
}

/// Current time in whole seconds since the epoch (0 for a clock before 1970).
pub fn current_time() -> u64 {
    match since_epoch(system_now()) {
        Ok(d) => duration_secs(&d),
        Err(_) => 0,
    }
}

/// Local time: `utc` shifted by the zone offset, not below 0 (and not
/// above the largest signed 64-bit value).
pub open spec fn local_spec(utc: u64, offset: i64) -> u64 {
    let t = (if utc > i64::MAX { i64::MAX as int } else { utc as int }) + offset;
    if t < 0 { 0 } else if t > i64::MAX { i64::MAX as u64 } else { t as u64 }
}

/// Local time of UTC time `utc` in a zone `offset` seconds ahead.
pub fn local_time(utc: u64, offset: i64) -> (r: u64)
    ensures
        r == local_spec(utc, offset),
{
    let u: i64 = if utc > i64::MAX as u64 { i64::MAX } else { utc as i64 };
    let t: i128 = u as i128 + offset as i128;
    if t < 0 {
        0
    } else if t > i64::MAX as i128 {
        i64::MAX as u64
    } else {
        t as u64
    }
}

/// Local time now, in a zone `offset_secs` ahead of UTC (0 where the
/// system gives no zone).
pub fn local_now(offset_secs: i64) -> (r: u64)
    ensures
        exists|utc: u64| r == local_spec(utc, offset_secs),
{
    let utc = current_time();
    local_time(utc, offset_secs)
}

/// A calendar date and clock time as the system reports it.
#[allow(non_snake_case)]
pub struct SYSTEMTIME {
    pub wYear: u16,
    pub wMonth: u16,
    pub wDayOfWeek: u16,
    pub wDay: u16,
    pub wHour: u16,
    pub wMinute: u16,
    pub wSecond: u16,
    pub wMilliseconds: u16,
}

/// Seconds of a system time counted from the epoch, by the civil formula.
pub open spec fn clock_secs(t: SYSTEMTIME) -> int {
    civil_formula(t.wYear as int, t.wMonth as int, t.wDay as int) * 86400
        + t.wHour as int * 3600 + t.wMinute as int * 60 + t.wSecond as int
}

/// The zone offset: local clock minus UTC clock, in seconds.
pub fn offset_between(local: &SYSTEMTIME, utc: &SYSTEMTIME) -> (r: i64)
    ensures
        r as int == clock_secs(*local) - clock_secs(*utc),
{
    let l = days_from_civil(local.wYear as i32, local.wMonth as u32, local.wDay as u32);
    let u = days_from_civil(utc.wYear as i32, utc.wMonth as u32, utc.wDay as u32);
    proof { crate::calendar::lemma_civil_formula_small(local.wYear as int, local.wMonth as int, local.wDay as int); }
    proof { crate::calendar::lemma_civil_formula_small(utc.wYear as int, utc.wMonth as int, utc.wDay as int); }
    let ls = l * 86400 + local.wHour as i64 * 3600 + local.wMinute as i64 * 60 + local.wSecond as i64;
    let us = u * 86400 + utc.wHour as i64 * 3600 + utc.wMinute as i64 * 60 + utc.wSecond as i64;
    ls - us
}

} // verus!
