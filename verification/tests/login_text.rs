use zapx::ansi::strip_ansi;
use zapx::escapes::decode_escapes;
use zapx::vault::reserved_name_error;

#[test]
fn strip_ansi_basics() {
    let s = strip_ansi(b"\x1b[32mhello\x1b[0m world");
    assert_eq!(s, "hello world");
}

#[test]
fn strip_ansi_osc() {
    let s = strip_ansi(b"\x1b]0;title\x07Plain text");
    assert_eq!(s, "Plain text");
}

#[test]
fn strip_ansi_osc_with_st_and_unterminated_csi() {
    assert_eq!(strip_ansi(b"a\x1b]2;t\x1b\\b"), "ab");
    assert_eq!(strip_ansi(b"x\x1b[12"), "x");
    assert_eq!(strip_ansi(b"x\x1b=y"), "xy");
    assert_eq!(strip_ansi(b"end\x1b"), "end\u{1b}");
}

#[test]
fn send_decodes_backslash_escapes() {
    assert_eq!(decode_escapes("ssh host\\r"), b"ssh host\r");
    assert_eq!(decode_escapes("a\\tb"), b"a\tb");
    assert_eq!(decode_escapes("\\x1b[A"), b"\x1b[A");
    assert_eq!(decode_escapes("C:\\\\tmp"), b"C:\\tmp");
    assert_eq!(decode_escapes("no escapes"), b"no escapes");
}

#[test]
fn malformed_escapes_are_kept() {
    assert_eq!(decode_escapes("\\q"), b"\\q");
    assert_eq!(decode_escapes("\\xzz"), b"\\xzz");
    assert_eq!(decode_escapes("\\x4"), b"\\x4");
    assert_eq!(decode_escapes("a\\x4"), b"a\\x4");
    assert_eq!(decode_escapes("\\x4g"), b"\\x4g");
    assert_eq!(decode_escapes("tail\\"), b"tail\\");
    assert_eq!(decode_escapes("é\\n"), "é\n".as_bytes());
}

#[test]
fn reserved_names_rejected_case_insensitively() {
    assert!(reserved_name_error("svc.username").is_some());
    assert!(reserved_name_error("svc.Password").is_some());
    assert!(reserved_name_error("SVC.PASSWORD").is_some());
    assert!(reserved_name_error("prod-root").is_none());
    assert!(reserved_name_error("svc.admin").is_none());
    assert!(reserved_name_error("password").is_none());
}
