//! Periodic watches: the TCP maximum-segment-size watch (report a change,
//! give up after a run of empty readings), the received-bytes rate (bytes
//! since the previous tick), the debounce of catalog-folder changes, and
//! the port a remote forward ends up bound to.
use vstd::prelude::*;
use crate::model::TcpMss;

verus! {

/// Empty readings in a row after which the MSS watch stops.
pub const MSS_MAX_EMPTY: u32 = 3;

/// What one tick of the MSS watch decides.
#[derive(Debug, Clone, Copy, PartialEq, Eq)]
pub enum MssTick {
    /// Nothing to report.
    Quiet,
    /// The MSS changed: report the new value.
    Emit(TcpMss),
    /// The socket has been gone for too long: stop watching.
    Stop,
}

/// The MSS watch: the last value reported and the run of empty readings.
pub struct MssWatch {
    pub last: TcpMss,
    pub empty_streak: u32,
}

/// Whether a reading is empty (the socket is gone).
pub open spec fn mss_empty(m: TcpMss) -> bool {
    m.send is None && m.recv is None
}

fn same_opt(a: Option<u32>, b: Option<u32>) -> (r: bool)
    ensures
        r == (a == b),
{
    match (a, b) {
        (Some(x), Some(y)) => x == y,
        (None, None) => true,
        _ => false,
    }
}

impl MssWatch {
    /// A watch that starts from the snapshot taken at connect.
    pub fn new(first: TcpMss) -> (w: MssWatch)
        ensures
            w.last == first,
            w.empty_streak == 0,
    {
        MssWatch { last: first, empty_streak: 0 }
    }

    /// One tick with a fresh reading: an empty reading extends the run and
    /// stops the watch at `MSS_MAX_EMPTY`; any other reading ends the run
    /// and is reported when it differs from the last one reported.
    pub fn tick(&mut self, now: TcpMss) -> (r: MssTick)
        requires
            old(self).empty_streak < MSS_MAX_EMPTY,
        ensures
            mss_empty(now) ==> {
                &&& final(self).empty_streak == old(self).empty_streak + 1
                &&& final(self).last == old(self).last
                &&& r == (if final(self).empty_streak >= MSS_MAX_EMPTY {
                    MssTick::Stop
                } else {
                    MssTick::Quiet
                })
            },
            !mss_empty(now) ==> {
                &&& final(self).empty_streak == 0
                &&& final(self).last == now
                &&& r == (if now == old(self).last {
                    MssTick::Quiet
                } else {
                    MssTick::Emit(now)
                })
            },
    {
        if now.send.is_none() && now.recv.is_none() {
            self.empty_streak = self.empty_streak + 1;
            if self.empty_streak >= MSS_MAX_EMPTY {
                return MssTick::Stop;
            }
            return MssTick::Quiet;
        }
        self.empty_streak = 0;
        if same_opt(now.send, self.last.send) && same_opt(now.recv, self.last.recv) {
            MssTick::Quiet
        } else {
            self.last = now;
            MssTick::Emit(now)
        }
    }
}

/// The received-bytes meter: the running total seen at the last tick.
pub struct RateMeter {
    pub last: u64,
}

impl RateMeter {
    /// A meter that starts at zero.
    pub fn new() -> (m: RateMeter)
        ensures
            m.last == 0,
    {
        RateMeter { last: 0 }
    }

    /// The bytes received since the last tick (zero if the total went
    /// back), remembering `total` for the next one.
    pub fn tick(&mut self, total: u64) -> (delta: u64)
        ensures
            final(self).last == total,
            delta == (if total >= old(self).last {
                total - old(self).last
            } else {
                0
            }),
    {
        let delta = total.saturating_sub(self.last);
        self.last = total;
        delta
    }
}

/// Quiet time after the last relevant change before catalogs are reloaded,
/// in milliseconds.
pub const RELOAD_DEBOUNCE_MS: u64 = 500;

/// The debounce of catalog-folder changes: when the last relevant change
/// was seen, if a reload is pending.
pub struct ReloadDebounce {
    pub pending_since: Option<u64>,
}

impl ReloadDebounce {
    /// Nothing pending.
    pub fn new() -> (d: ReloadDebounce)
        ensures
            d.pending_since is None,
    {
        ReloadDebounce { pending_since: None }
    }

    /// A relevant change at `now_ms`: the reload waits for quiet from now.
    pub fn changed(&mut self, now_ms: u64)
        ensures
            final(self).pending_since == Some(now_ms),
    {
        self.pending_since = Some(now_ms);
    }

    /// Whether to reload at `now_ms`: a change is pending and
    /// `RELOAD_DEBOUNCE_MS` have passed since it; the pending change is then
    /// consumed.
    pub fn due(&mut self, now_ms: u64) -> (reload: bool)
        ensures
            reload == (old(self).pending_since matches Some(t) && now_ms >= t && now_ms - t >= RELOAD_DEBOUNCE_MS),
            final(self).pending_since == (if reload {
                None
            } else {
                old(self).pending_since
            }),
    {
        match self.pending_since {
            Some(t) => {
                if now_ms >= t && now_ms - t >= RELOAD_DEBOUNCE_MS {
                    self.pending_since = None;
                    true
                } else {
                    false
                }
            },
            None => false,
        }
    }
}

/// The port a remote forward is bound to: the requested one when the
/// server grants `0` or a port that does not fit in 16 bits, else the
/// granted one.
pub fn resolved_port(granted: u32, bind_port: u16) -> (p: u16)
    ensures
        p == (if granted == 0 || granted > u16::MAX {
            bind_port
        } else {
            granted as u16
        }),
{
    if granted == 0 || granted > 65535 {
        bind_port
    } else {
        granted as u16
    }
}

} // verus!
