use zapx::detector::{ends_with_prompt, PlatformDetector};
use zapx::platform::Platform;

fn detect(text: &str) -> Option<Platform> {
    let mut d = PlatformDetector::new();
    d.feed(text.as_bytes())
}

#[test]
fn cisco_with_banner() {
    let text = "Cisco IOS Software, ...\n\nrouter1#";
    assert_eq!(detect(text), Some(Platform::CiscoIos));
}

#[test]
fn cisco_config_mode() {
    let text = "Cisco IOS Software, ...\n\nrouter1(config-if)#";
    assert_eq!(detect(text), Some(Platform::CiscoIos));
}

#[test]
fn fortigate_with_banner() {
    let text = "FortiGate-100D login...\nfgt-edge # ";
    assert_eq!(detect(text), Some(Platform::Fortigate));
}

#[test]
fn fortigate_with_vdom() {
    let text = "FortiOS v7.4\nfgt-edge (root) # ";
    assert_eq!(detect(text), Some(Platform::Fortigate));
}

#[test]
fn fortimanager() {
    let text = "FortiManager 7.6\nfmg01 # ";
    assert_eq!(detect(text), Some(Platform::Fortimanager));
}

#[test]
fn paloalto() {
    // Real PAN-OS login banner advertises PAN-OS by name.
    let text = "PAN-OS 11.2.3\nadmin@PA-3220> ";
    assert_eq!(detect(text), Some(Platform::PaloAlto));
}

#[test]
fn juniper() {
    let text = "JUNOS 23.4R1\nroot@mx-edge> ";
    assert_eq!(detect(text), Some(Platform::Juniper));
}

#[test]
fn mikrotik() {
    let text = "MikroTik RouterOS\n[admin@MikroTik] > ";
    assert_eq!(detect(text), Some(Platform::Mikrotik));
}

#[test]
fn comware_operator() {
    let text = "Comware Software\n<HP-5130>";
    assert_eq!(detect(text), Some(Platform::HpComware));
}

#[test]
fn comware_system_view() {
    let text = "Comware Software\n[HP-5130]";
    assert_eq!(detect(text), Some(Platform::HpComware));
}

#[test]
fn brocade() {
    let text = "Fabric OS\nsanswitch:admin> ";
    assert_eq!(detect(text), Some(Platform::BrocadeFos));
}

#[test]
fn f5_tmos() {
    let text = "Welcome to the BIG-IP\n(Active)(/Common)(tmos)# ";
    assert_eq!(detect(text), Some(Platform::F5Bigip));
}

#[test]
fn linux_full_prompt() {
    let text = "Last login: ...\ncarlos@bastion:~/work$ ";
    assert_eq!(detect(text), Some(Platform::Linux));
}

#[test]
fn linux_container_dollar() {
    let text = "alpine\n$ ";
    assert_eq!(detect(text), Some(Platform::Linux));
}

#[test]
fn no_match_random_text() {
    let text = "nothing here\nlorem ipsum dolor sit\n";
    assert_eq!(detect(text), None);
}

#[test]
fn latch_does_not_flap() {
    let mut d = PlatformDetector::new();
    let first = d.feed(b"Cisco IOS Software\nrouter1#");
    assert_eq!(first, Some(Platform::CiscoIos));
    // A subsequent Linux-looking prompt must not change the verdict
    let second = d.feed(b"\nuser@host:~$ ");
    assert_eq!(second, None);
    assert_eq!(d.detected(), Some(Platform::CiscoIos));
}

#[test]
fn cisco_alone_no_banner_no_match() {
    // Without a banner clue, a bare `hostname#` is too generic to call
    // Cisco — we'd rather not detect than detect wrong.
    assert_eq!(detect("router1#"), None);
}

#[test]
fn host_hash_no_distro_does_not_misfire_as_linux() {
    // A scrollback consisting of just `host#` (a Cisco-style prompt
    // without any banner left around) must NOT be auto-classified as
    // Linux. We added a distro signature requirement to Linux exactly
    // for this case — otherwise we'd auto-write the wrong platform.
    assert_eq!(detect("router1#"), None);
    assert_eq!(detect("\n\nsw1-core#"), None);
}

#[test]
fn linux_case_insensitive_signature() {
    // MOTD says "ubuntu" lowercase; signature is "Ubuntu". Should still match.
    let text = "Welcome to ubuntu 22.04\nuser@web:~$ ";
    assert_eq!(detect(text), Some(Platform::Linux));
}

#[test]
fn linux_alpine_busybox() {
    let text = "BusyBox v1.36 built-in shell\n/ # ";
    assert_eq!(detect(text), Some(Platform::Linux));
}

#[test]
fn linux_centos_motd() {
    let text = "CentOS Linux 7\n[root@db ~]# ";
    assert_eq!(detect(text), Some(Platform::Linux));
}

#[test]
fn cisco_banner_wins_even_with_linux_keyword_present() {
    // If a Linux-y word appears in a Cisco router's `show running-config`
    // (unusual but possible), the Cisco rule must still win because it's
    // checked first in the rule table.
    let text = "Cisco IOS Software, Version 15.7\n\
                ! banner motd ^ ubuntu ^\n\
                sw1#";
    assert_eq!(detect(text), Some(Platform::CiscoIos));
}

#[test]
fn switching_streams_does_not_re_detect() {
    let mut d = PlatformDetector::new();
    // First detection.
    assert_eq!(d.feed(b"Ubuntu 22.04\nuser@host:~$ "), Some(Platform::Linux));
    // Now a stronger signal arrives — must NOT re-fire.
    assert_eq!(
        d.feed(b"\nCisco IOS Software, Version 15.7\nrouter1#"),
        None
    );
    assert_eq!(d.detected(), Some(Platform::Linux));
}

#[test]
fn ring_buffer_is_bounded() {
    // Push way more than RING_CAP bytes; the detector should still work
    // (drain not panic) and remain unlatched if nothing matches.
    let mut d = PlatformDetector::new();
    for _ in 0..50 {
        assert_eq!(d.feed(&[b'A'; 1024]), None);
    }
    assert_eq!(d.detected(), None);
    // Now feed a real banner + prompt; it should still latch from the
    // last RING_CAP bytes alone.
    let n = d.feed(b"FortiGate-100D\nfgt # ");
    assert_eq!(n, Some(Platform::Fortigate));
}

// ── ends_with_prompt — stateless completion check ────────────────────

#[test]
fn prompt_returns_after_command_output() {
    // The runner appends a command's echo + output + the returned prompt;
    // ends_with_prompt sees the prompt at the tail and reports done.
    let buf = "router1#show version\nCisco IOS XE, Version 17.9\n...\nrouter1#";
    assert!(ends_with_prompt(Platform::CiscoIos, buf));
}

#[test]
fn prompt_not_returned_mid_output() {
    // Still streaming output — no prompt at the tail yet.
    let buf = "router1#show version\nCisco IOS XE, Version 17.9\nuptime is 4 weeks";
    assert!(!ends_with_prompt(Platform::CiscoIos, buf));
}

#[test]
fn prompt_config_mode_counts_as_returned() {
    assert!(ends_with_prompt(Platform::CiscoIos, "sw1(config-if)#"));
}

#[test]
fn prompt_per_vendor_tails() {
    assert!(ends_with_prompt(Platform::Juniper, "root@mx> "));
    assert!(ends_with_prompt(Platform::F5Bigip, "(Active)(/Common)(tmos)# "));
    assert!(ends_with_prompt(Platform::Mikrotik, "[admin@MikroTik] > "));
    assert!(ends_with_prompt(Platform::HpComware, "<HP-5130>"));
    assert!(ends_with_prompt(Platform::Linux, "carlos@bastion:~/work$ "));
}

#[test]
fn prompt_generic_never_matches() {
    // Generic has no recognisable prompt — the runner must rely on the
    // time-window fallback for unknown platforms.
    assert!(!ends_with_prompt(Platform::Generic, "anything$ "));
    assert!(!ends_with_prompt(Platform::Generic, "host# "));
}

#[test]
fn prompt_no_signature_gate() {
    // Unlike feed(), ends_with_prompt does NOT require a banner: the caller
    // already knows the platform, so a bare `router1#` is a valid Cisco
    // prompt here (whereas detect("router1#") returns None).
    assert!(ends_with_prompt(Platform::CiscoIos, "router1#"));
    assert_eq!(detect("router1#"), None);
}


#[test]
fn detector_does_not_latch_on_generic_router_hash() {
    // A bare `router1#` with no banner in the buffer must not classify.
    let mut det = PlatformDetector::new();
    det.feed(b"\n\nrouter1#");
    assert_eq!(det.detected(), None);
}
