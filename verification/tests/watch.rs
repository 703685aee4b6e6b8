use zapx::model::TcpMss;
use zapx::watch::{resolved_port, MssTick, MssWatch, RateMeter, ReloadDebounce, MSS_MAX_EMPTY};

fn mss(send: Option<u32>, recv: Option<u32>) -> TcpMss {
    TcpMss { send, recv }
}

#[test]
fn mss_watch_reports_changes_only() {
    let mut w = MssWatch::new(mss(Some(1448), Some(1448)));
    assert_eq!(w.tick(mss(Some(1448), Some(1448))), MssTick::Quiet);
    assert_eq!(w.tick(mss(Some(1380), Some(1448))), MssTick::Emit(mss(Some(1380), Some(1448))));
    assert_eq!(w.tick(mss(Some(1380), Some(1448))), MssTick::Quiet);
}

#[test]
fn mss_watch_stops_after_empty_run() {
    let mut w = MssWatch::new(mss(Some(1448), None));
    assert_eq!(MSS_MAX_EMPTY, 3);
    assert_eq!(w.tick(mss(None, None)), MssTick::Quiet);
    assert_eq!(w.tick(mss(None, None)), MssTick::Quiet);
    // A reading in between resets the run.
    assert_eq!(w.tick(mss(Some(1448), None)), MssTick::Quiet);
    assert_eq!(w.empty_streak, 0);
    assert_eq!(w.tick(mss(None, None)), MssTick::Quiet);
    assert_eq!(w.tick(mss(None, None)), MssTick::Quiet);
    assert_eq!(w.tick(mss(None, None)), MssTick::Stop);
}

#[test]
fn rate_meter_counts_since_last_tick() {
    let mut m = RateMeter::new();
    assert_eq!(m.tick(100), 100);
    assert_eq!(m.tick(250), 150);
    assert_eq!(m.tick(250), 0);
    assert_eq!(m.tick(10), 0);
    assert_eq!(m.last, 10);
}

#[test]
fn catalog_reload_waits_for_quiet() {
    let mut d = ReloadDebounce::new();
    assert!(!d.due(1_000));
    d.changed(1_000);
    assert!(!d.due(1_400));
    d.changed(1_400);
    assert!(!d.due(1_800));
    assert!(d.due(1_900));
    // Consumed: nothing more until the next change.
    assert!(!d.due(5_000));
}

#[test]
fn remote_forward_port_resolution() {
    assert_eq!(resolved_port(0, 8022), 8022);
    assert_eq!(resolved_port(40123, 0), 40123);
    assert_eq!(resolved_port(8022, 8022), 8022);
    assert_eq!(resolved_port(70_000, 9000), 9000);
}
