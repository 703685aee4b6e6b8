use zapx::highlight::{build_open_code, color_usable, parse_hex_color, HighlightRule, Highlighter};

fn rule(pattern: &str, fg: &str, id: i64) -> HighlightRule {
    HighlightRule {
        id,
        name: pattern.to_string(),
        pattern: pattern.to_string(),
        is_regex: true,
        fg_color: Some(fg.to_string()),
        bg_color: None,
        bold: false,
        underline: false,
        enabled: true,
        sort_order: id as i32,
    }
}

#[test]
fn highlights_simple_match() {
    let h = Highlighter::new(vec![rule("error", "#ef4444", 1)]);
    let out = String::from_utf8(h.apply(b"this is an error here")).unwrap();
    assert!(out.contains("\x1b[38;2;239;68;68merror\x1b[0m"));
}

#[test]
fn passthrough_when_no_rules() {
    let h = Highlighter::new(vec![]);
    let input = b"plain text";
    assert_eq!(h.apply(input), input);
}

#[test]
fn strips_existing_ansi_before_matching() {
    let h = Highlighter::new(vec![rule("down", "#ef4444", 1)]);
    let out = String::from_utf8(h.apply(b"interface is \x1b[32mdown\x1b[0m")).unwrap();
    assert!(out.contains("down"));
}

#[test]
fn exact_output_and_first_rule_wins() {
    let mut a = rule("err", "#000001", 2);
    a.bold = true;
    let b = rule("error", "#ff0000", 1);
    let h = Highlighter::new(vec![a, b]);
    let out = String::from_utf8(h.apply(b"an error\nok err\n")).unwrap();
    assert_eq!(
        out,
        "an \x1b[38;2;255;0;0merror\x1b[0m\nok \x1b[1;38;2;0;0;1merr\x1b[0m\n"
    );
}

#[test]
fn literal_rules_disabled_rules_and_bad_regex() {
    let mut lit = rule("a.b", "#00ff00", 1);
    lit.is_regex = false;
    let mut off = rule("x", "#00ff00", 2);
    off.enabled = false;
    let bad = rule("(", "#00ff00", 3);
    let h = Highlighter::new(vec![lit, off, bad]);
    let out = String::from_utf8(h.apply(b"axb a.b x (")).unwrap();
    assert_eq!(out, "axb \x1b[38;2;0;255;0ma.b\x1b[0m x (");
    // Unmatched segments keep their own escape codes.
    assert_eq!(h.apply(b"\x1b[1mnone\x1b[0m"), b"\x1b[1mnone\x1b[0m");
}

#[test]
fn colours_and_codes() {
    assert_eq!(parse_hex_color("#ef4444"), Some((239, 68, 68)));
    assert_eq!(parse_hex_color("##00FFaa"), Some((0, 255, 170)));
    assert_eq!(parse_hex_color("+f0000"), Some((15, 0, 0)));
    assert_eq!(parse_hex_color("#12345"), None);
    assert_eq!(parse_hex_color("#zz0000"), None);
    let mut r = rule("x", "#010203", 1);
    r.underline = true;
    r.bg_color = Some("#0a0b0c".into());
    assert_eq!(build_open_code(&r), "\x1b[4;38;2;1;2;3;48;2;10;11;12m");
    r.underline = false;
    r.fg_color = None;
    r.bg_color = Some("bad".into());
    assert_eq!(build_open_code(&r), "");
}

#[test]
fn colour_fields_on_char_boundaries() {
    assert!(color_usable("#ef4444"));
    assert!(color_usable("#abc"));
    assert!(color_usable("ééé"));
    assert!(!color_usable("aé€"));
    assert!(color_usable("zzz€"));
    assert!(!color_usable("12z€"));
    assert_eq!(parse_hex_color("zzz€"), None);
    assert_eq!(parse_hex_color("ééé"), None);
}
