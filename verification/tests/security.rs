use zapx::hostkey::{check_trust, fingerprint_text, host_key_verdict, preflight_status, KeyVerdict, KnownHostsCheck};
use zapx::model::{AppError, HostKeyStatus};
use zapx::progress::should_report;
use zapx::vault::{typed_bytes, vault_field, VaultField};

#[test]
fn host_key_decisions() {
    assert_eq!(host_key_verdict(KnownHostsCheck::Matches, false), KeyVerdict::Accept);
    assert_eq!(host_key_verdict(KnownHostsCheck::Changed, true), KeyVerdict::Reject);
    assert_eq!(host_key_verdict(KnownHostsCheck::NotRecorded, false), KeyVerdict::Reject);
    assert_eq!(host_key_verdict(KnownHostsCheck::Unreadable, true), KeyVerdict::LearnAndAccept);
    let fp = fingerprint_text("abc");
    assert_eq!(fp, "SHA256:abc");
    assert_eq!(preflight_status(KnownHostsCheck::Matches, fp.clone()), HostKeyStatus::Known);
    assert_eq!(preflight_status(KnownHostsCheck::Unreadable, fp.clone()), HostKeyStatus::Unknown { fingerprint: fp.clone() });
    assert_eq!(preflight_status(KnownHostsCheck::Changed, fp.clone()), HostKeyStatus::Changed { fingerprint: fp.clone() });
    assert!(check_trust("SHA256:abc".into(), "SHA256:abc").is_ok());
    assert_eq!(check_trust("SHA256:x".into(), "SHA256:abc"), Err("SHA256:x".to_string()));
}

#[test]
fn vault_fields_and_typing() {
    assert_eq!(vault_field("Password").unwrap(), VaultField::Password);
    assert_eq!(vault_field("USERNAME").unwrap(), VaultField::Username);
    match vault_field("Token") {
        Err(AppError::Internal(m)) => assert_eq!(m, "unknown vault field 'token' (expected Username or Password)"),
        _ => panic!("expected an error"),
    }
    assert_eq!(typed_bytes(b"pw".to_vec(), true), b"pw\r");
    assert_eq!(typed_bytes(b"pw".to_vec(), false), b"pw");
}

#[test]
fn progress_rate_limit() {
    assert!(should_report(0, Some(10), 5, 5));
    assert!(should_report(10, Some(10), 5, 5));
    assert!(!should_report(5, Some(10), 50, 0));
    assert!(should_report(5, None, 100, 0));
    assert!(!should_report(5, None, 0, 100));
}

#[test]
fn reordering_sessions() {
    let r = zapx::ordering::reordered(vec![1, 2, 3], 9, 1);
    assert_eq!(r, vec![1, 9, 2, 3]);
    assert_eq!(zapx::ordering::reordered(vec![1, 2], 9, 99), vec![1, 2, 9]);
    assert_eq!(zapx::ordering::sort_orders(&vec![7, 5]), vec![(7, 0), (5, 1)]);
}
