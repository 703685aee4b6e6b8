use zapx::ansi::AnsiStripper;
use zapx::logfmt::{sanitize, LogFormat};

fn strip(input: &[u8]) -> String {
    let mut s = AnsiStripper::new();
    String::from_utf8(s.strip(input)).unwrap()
}

#[test]
fn sanitize_name() {
    assert_eq!(sanitize("my session/test:1"), "my_session_test_1");
}

#[test]
fn sanitize_keeps_unicode_letters() {
    assert_eq!(sanitize("café-1.log"), "café-1.log");
}

#[test]
fn strips_csi_colors() {
    let raw = b"\x1b[01;32mcarlos@kobe\x1b[00m:\x1b[01;34m~\x1b[00m$ ";
    assert_eq!(strip(raw), "carlos@kobe:~$ ");
}

#[test]
fn strips_osc_title() {
    let raw = b"\x1b]0;carlos@kobe: ~\x07$ ls";
    assert_eq!(strip(raw), "$ ls");
}

#[test]
fn strips_bracketed_paste_modes() {
    let raw = b"\x1b[?2004h$ hi\x1b[?2004l\n";
    assert_eq!(strip(raw), "$ hi\n");
}

#[test]
fn handles_sequence_split_across_chunks() {
    let mut s = AnsiStripper::new();
    let mut out = s.strip(b"hello \x1b[01");
    out.extend(s.strip(b";32mworld\x1b[00m"));
    assert_eq!(String::from_utf8(out).unwrap(), "hello world");
}

#[test]
fn keeps_newlines_and_utf8() {
    let raw = "hola múnd\n".as_bytes();
    assert_eq!(strip(raw), "hola múnd\n");
}

#[test]
fn chunked_equals_whole_for_osc_split() {
    let whole = b"a\x1b]0;title\x1b\\b\x07c";
    let mut one = AnsiStripper::new();
    let all = one.strip(whole);
    for cut in 0..whole.len() {
        let mut two = AnsiStripper::new();
        let mut out = two.strip(&whole[..cut]);
        out.extend(two.strip(&whole[cut..]));
        assert_eq!(out, all, "cut at {cut}");
    }
}

#[test]
fn drops_bell_and_nul_keeps_tab_and_backspace() {
    assert_eq!(strip(b"a\x07b\x00c\td\x08"), "abc\td\x08");
}

#[test]
fn log_format_names() {
    assert_eq!(LogFormat::Plain.as_str(), "plain");
    assert_eq!(LogFormat::Raw.as_str(), "raw");
    assert_eq!(LogFormat::parse("raw"), LogFormat::Raw);
    assert_eq!(LogFormat::parse("plain"), LogFormat::Plain);
    assert_eq!(LogFormat::parse("RAW"), LogFormat::Plain);
}

#[test]
fn log_part_names() {
    assert_eq!(zapx::logfmt::part_file_name("router_1", "20240102_030405", 0), "router_1_20240102_030405.log");
    assert_eq!(zapx::logfmt::part_file_name("router_1", "20240102_030405", 12), "router_1_20240102_030405.12.log");
}

#[test]
fn log_parts_rotate_at_fifty_megabytes() {
    let mut c = zapx::logfmt::PartCounter::new();
    assert_eq!(zapx::logfmt::MAX_FILE_BYTES, 50 * 1024 * 1024);
    assert!(!c.wrote(50 * 1024 * 1024 - 1));
    assert!(c.wrote(1));
    c.rotated();
    assert_eq!((c.part, c.bytes_written), (1, 0));
    assert!(!c.wrote(10));
    assert_eq!(c.bytes_written, 10);
}

#[test]
fn string_terminator_outside_a_string_is_dropped() {
    assert_eq!(strip(b"\x1b\\abc"), "abc");
    assert_eq!(strip(b"\x1bPq#data\x1b\\after"), "after");
}

#[test]
fn log_total_counts_every_part() {
    let mut c = zapx::logfmt::PartCounter::new();
    assert!(c.wrote(50 * 1024 * 1024));
    c.rotated();
    assert!(!c.wrote(12));
    assert_eq!((c.part, c.bytes_written, c.total), (1, 12, 50 * 1024 * 1024 + 12));
}
