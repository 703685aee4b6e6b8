use zapx::login_script::{LoginEffect, LoginRunner, LoginStep, Matcher, StepKind, default_timeout_ms, send_bytes};
use zapx::triggers::{Trigger, TriggerEffect, TriggerFired, TriggerRunner};

fn step(kind: StepKind, expect: &str, send: &str, timeout_ms: u64) -> LoginStep {
    LoginStep { kind, expect: expect.into(), is_regex: false, send: send.into(), timeout_ms }
}

fn drain(r: &mut LoginRunner) -> Vec<u8> {
    let mut out = Vec::new();
    for e in r.take_effects() {
        if let LoginEffect::Send(d) = e {
            out.extend_from_slice(&d);
        }
    }
    out
}

fn statuses(effects: &[LoginEffect]) -> Vec<String> {
    effects
        .iter()
        .filter_map(|e| match e {
            LoginEffect::Progress(p) => Some(p.status.clone()),
            _ => None,
        })
        .collect()
}

#[test]
fn matcher_literal_and_regex() {
    assert!(Matcher::build("Password:", false, "s").is_match("Enter Password: "));
    assert!(!Matcher::build("Password:", false, "s").is_match("login:"));
    let re = Matcher::build(r"[\w.-]+[#>]\s*$", true, "s");
    assert!(re.is_match("router1# "));
    assert!(re.is_match("sw-core>"));
    assert!(!re.is_match("Password:"));
    let bad = Matcher::build("(unclosed", true, "s");
    assert!(bad.is_match("see (unclosed here"));
}

#[test]
fn empty_matcher_never_matches() {
    assert!(!Matcher::build("", false, "s").is_match("anything"));
    assert!(!Matcher::build("", true, "s").is_match(""));
}

#[test]
fn silent_server_times_out_via_check_timeout() {
    let mut runner = LoginRunner::new("s".into(), vec![step(StepKind::Expect, "prompt-that-never-comes", "x", 1)], 0);
    assert!(!runner.check_timeout(1));
    assert!(runner.check_timeout(5), "script should be finished after timeout");
    let s = statuses(&runner.take_effects());
    assert_eq!(s.first().map(String::as_str), Some("running"));
    assert!(s.iter().any(|x| x == "timeout"), "expected a timeout event");
}

#[test]
fn send_steps_fire_immediately_in_order() {
    let mut runner = LoginRunner::new(
        "s".into(),
        vec![step(StepKind::Send, "", "term len 0", 0), step(StepKind::Send, "", "show ver", 0)],
        0,
    );
    assert_eq!(drain(&mut runner), b"term len 0\rshow ver\r");
    assert!(runner.check_timeout(0), "all-send script finishes immediately");
}

#[test]
fn wait_step_advances_after_its_delay() {
    let mut runner = LoginRunner::new(
        "s".into(),
        vec![step(StepKind::Wait, "", "", 1), step(StepKind::Send, "", "go", 0)],
        100,
    );
    assert!(drain(&mut runner).is_empty());
    assert!(!runner.check_timeout(100));
    assert!(runner.check_timeout(105), "finished after the wait + send");
    assert_eq!(drain(&mut runner), b"go\r");
}

#[test]
fn expect_then_send_chain() {
    let mut runner = LoginRunner::new("s".into(), vec![step(StepKind::Expect, "Password:", "hunter2", 1000)], 0);
    assert!(drain(&mut runner).is_empty(), "nothing sent before the match");
    runner.feed(b"\r\nEnter Password: ", 10);
    assert_eq!(drain(&mut runner), b"hunter2\r");
    assert!(runner.check_timeout(20), "finished after the expect matched");
}

#[test]
fn send_with_explicit_cr_is_not_doubled() {
    let mut runner = LoginRunner::new("s".into(), vec![step(StepKind::Send, "", "cmd\\r", 0)], 0);
    assert_eq!(drain(&mut runner), b"cmd\r");
    assert!(runner.check_timeout(0));
}

#[test]
fn expect_matches_through_colour_and_split_chunks() {
    let mut runner = LoginRunner::new(
        "s".into(),
        vec![step(StepKind::Expect, "login:", "admin", 1000), step(StepKind::Expect, "Password:", "", 1000)],
        0,
    );
    runner.feed(b"\x1b[1mlog", 1);
    assert!(drain(&mut runner).is_empty());
    runner.feed(b"in:\x1b[0m ", 2);
    assert_eq!(drain(&mut runner), b"admin\r");
    assert!(!runner.is_finished());
    // An empty send sends nothing but still advances.
    runner.feed(b"Password: ", 3);
    let effects = runner.take_effects();
    assert!(effects.iter().all(|e| !matches!(e, LoginEffect::Send(_))));
    assert_eq!(statuses(&effects), vec!["complete".to_string()]);
    assert!(runner.is_finished());
}

#[test]
fn late_output_times_out_the_expect() {
    let mut runner = LoginRunner::new("s".into(), vec![step(StepKind::Expect, "x", "y", 10)], 0);
    runner.take_effects();
    runner.feed(b"x", 11);
    let effects = runner.take_effects();
    assert_eq!(statuses(&effects), vec!["timeout".to_string()]);
    match &effects[0] {
        LoginEffect::Progress(p) => {
            assert_eq!((p.current, p.total, p.session_id.as_str()), (0, 1, "s"));
        }
        _ => panic!("expected progress"),
    }
    assert!(runner.is_finished());
}

#[test]
fn send_payload_and_default_timeout() {
    assert_eq!(send_bytes("enable"), b"enable\r");
    assert_eq!(send_bytes("x\\n"), b"x\n");
    assert_eq!(send_bytes(""), b"");
    assert_eq!(default_timeout_ms(), 10_000);
    assert_eq!(StepKind::default(), StepKind::Expect);
}

fn trig(pattern: &str, is_regex: bool, action: &str, text: &str) -> Trigger {
    Trigger { pattern: pattern.into(), is_regex, action: action.into(), text: text.into(), enabled: true }
}

fn fired(r: &mut TriggerRunner) -> Vec<TriggerFired> {
    r.take_effects()
        .into_iter()
        .filter_map(|e| match e {
            TriggerEffect::Fired(f) => Some(f),
            _ => None,
        })
        .collect()
}

#[test]
fn notify_fires_on_matching_line() {
    let mut r = TriggerRunner::new("s".into(), vec![trig("ERROR", false, "notify", "")]);
    r.feed(b"all good\r\nan ERROR happened\r\nstill ok\r\n", 0);
    let f = fired(&mut r);
    assert_eq!(f.len(), 1);
    assert_eq!(f[0].kind, "notify");
    assert!(f[0].text.contains("ERROR"));
}

#[test]
fn regex_and_ansi_stripping() {
    let mut r = TriggerRunner::new("s".into(), vec![trig(r"%\w+-\d", true, "notify", "alarm")]);
    r.feed(b"\x1b[31m%LINK-3-UPDOWN: down\x1b[0m\r\n", 0);
    let f = fired(&mut r);
    assert_eq!(f.len(), 1);
    assert_eq!(f[0].text, "alarm");
}

#[test]
fn disabled_trigger_does_not_fire() {
    let mut t = trig("ERROR", false, "notify", "");
    t.enabled = false;
    let mut r = TriggerRunner::new("s".into(), vec![t]);
    r.feed(b"ERROR here\r\n", 0);
    assert_eq!(fired(&mut r).len(), 0);
}

#[test]
fn partial_line_waits_for_newline() {
    let mut r = TriggerRunner::new("s".into(), vec![trig("done", false, "notify", "")]);
    r.feed(b"not yet ", 0);
    assert_eq!(fired(&mut r).len(), 0);
    r.feed(b"done\r\n", 1);
    assert_eq!(fired(&mut r).len(), 1);
}

#[test]
fn send_action_cooldown_and_bell() {
    let mut r = TriggerRunner::new(
        "s".into(),
        vec![trig("more", false, "send", " "), trig("beep", false, "bell", "")],
    );
    r.feed(b"--more--\n--more--\n", 1000);
    let e = r.take_effects();
    assert_eq!(e.len(), 1, "second fire within the cooldown is suppressed");
    match &e[0] {
        TriggerEffect::Send(b) => assert_eq!(b, b" \r"),
        _ => panic!("expected send"),
    }
    r.feed(b"--more--\n", 1300);
    assert_eq!(r.take_effects().len(), 1, "fires again once the cooldown passed");
    r.feed(b"beep beep\n", 1300);
    let f = fired(&mut r);
    assert_eq!((f[0].kind.as_str(), f[0].text.as_str(), f[0].session_id.as_str()), ("bell", "beep beep", "s"));
}
