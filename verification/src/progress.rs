//! Rate limiting of file-transfer progress reports.
use vstd::prelude::*;

verus! {

/// Least gap between two progress reports, in milliseconds.
pub const PROGRESS_INTERVAL_MS: u64 = 100;

/// Whether a progress report goes out: the first (nothing done yet) and the
/// final one (all of a known total done) always do; others only when at
/// least `PROGRESS_INTERVAL_MS` passed since the last report (a clock that
/// went back counts as no time passed).
pub fn should_report(done: u64, total: Option<u64>, now_ms: u64, last_ms: u64) -> (b: bool)
    ensures
        b == (done == 0 || (total matches Some(t) && done >= t) || (now_ms >= last_ms && now_ms - last_ms
            >= PROGRESS_INTERVAL_MS)),
{
    let final_call = match total {
        Some(t) => done >= t,
        None => false,
    };
    let gap: u64 = if now_ms >= last_ms {
        now_ms - last_ms
    } else {
        0
    };
    !(done > 0 && !final_call && gap < PROGRESS_INTERVAL_MS)
}

} // verus!
