//! Wall-clock time.
use vstd::prelude::*;

verus! {

#[verifier::external_type_specification]
#[verifier::external_body]
pub struct ExSystemTime(std::time::SystemTime);

/// `std::time::SystemTime::now`: the current time.  It depends on the
/// moment of the call, so nothing is stated of it.
#[verifier::external_body]
fn system_now() -> std::time::SystemTime {
    std::time::SystemTime::now()
}

/// `SystemTime::duration_since(UNIX_EPOCH)` on `t`: `Ok` with the whole
/// seconds and the nanoseconds beyond them from the epoch to `t`, or, for a
/// time before the epoch, `Err` with those from `t` to the epoch.  The
/// nanoseconds are below one second, as `Duration` keeps them.
#[verifier::external_body]
fn since_epoch(t: &std::time::SystemTime) -> (r: std::result::Result<(u64, u32), (u64, u32)>)
    ensures
        r matches Ok((_, n)) ==> n < 1_000_000_000,
        r matches Err((_, n)) ==> n < 1_000_000_000,
{
    match t.duration_since(std::time::UNIX_EPOCH) {
        Ok(d) => Ok((d.as_secs(), d.subsec_nanos())),
        Err(e) => Err((e.duration().as_secs(), e.duration().subsec_nanos())),
    }
}

/// Whole milliseconds in `secs` seconds and `nanos` nanoseconds, or
/// `i64::MAX` where they do not fit.
pub open spec fn millis_capped(secs: u64, nanos: u32) -> int {
    let m = secs * 1000 + nanos / 1_000_000;
    if m <= i64::MAX {
        m
    } else {
        i64::MAX as int
    }
}

fn whole_millis(secs: u64, nanos: u32) -> (r: i64)
    requires
        nanos < 1_000_000_000,
    ensures
        r == millis_capped(secs, nanos),
{
    if secs >= 9_223_372_036_854_776 {
        return i64::MAX;
    }
    let m: u64 = secs * 1000 + (nanos / 1_000_000) as u64;
    if m > 9_223_372_036_854_775_807 {
        i64::MAX
    } else {
        m as i64
    }
}

/// The current time in whole milliseconds since the Unix epoch, rounded
/// down, so negative for a clock that reads before the epoch (capped at
/// the range of `i64`).  The
/// value depends on the moment of the call, so nothing is stated of it.
pub(crate) fn current_time_millis() -> i64 {
    let t = system_now();
    match since_epoch(&t) {
        Ok((s, n)) => whole_millis(s, n),
        Err((s, n)) => {
            let m = whole_millis(s, n);
            if n % 1_000_000 != 0 && m < i64::MAX {
                -(m + 1)
            } else {
                -m
            }
        },
    }
}

} // verus!
