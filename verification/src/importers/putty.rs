//! PuTTY sessions → native export envelope.
//!
//! Sessions come from a `.reg` export of
//! `HKCU\Software\SimonTatham\PuTTY\Sessions` ([`parse_reg`]) or, on
//! Windows, from the live registry (read by the application shell). Both
//! feed [`from_sessions`], which maps PuTTY's values onto saved sessions.
use vstd::prelude::*;
use vstd::string::StringSliceAdditionalSpecFns;
use crate::importers::common::{
    self, default_port, serial_options, decimal, session_spec, Auth, AuthView, Parsed,
};
use crate::model::{
    forward_views, opt_str, session_forwards_views, session_views, str_views, ForwardView,
    SavedForward, SavedSession, SessionForwards, SessionForwardsView, SessionView,
};
use crate::text::{
    concat3,
    decode_lossy, digit_value, ends_with, find_from, find_char, find_in_range, find_seq, lines,
    lower_seq, lower_vec, next_line, owned, parse_uint, parse_uint_range, push_str, range_is,
    range_starts_with, replace_all, replace_range, rfind_char, starts_with, str_is,
    string_from_chars, string_from_range, to_chars, trim, trim_char, trim_end_char,
    trim_end_char_range, trim_range, trim_start_char_range, lossy,
};

verus! {

// ---------------------------------------------------------------------------
// Values of a `.reg` export
// ---------------------------------------------------------------------------

/// The value of hex digit byte `b`, if it is one.
pub open spec fn hex_byte(b: u8) -> Option<u32> {
    digit_value(b as char, 16)
}

fn hex_byte_value(b: u8) -> (r: Option<u32>)
    ensures
        r == hex_byte(b),
{
    if 48 <= b && b <= 57 {
        Some((b - 48) as u32)
    } else if 97 <= b && b <= 102 {
        Some((b - 87) as u32)
    } else if 65 <= b && b <= 70 {
        Some((b - 55) as u32)
    } else {
        None
    }
}

/// `%XX` escapes (hex) decoded; a `%` not followed by two more bytes that
/// are both hex digits is kept as is.
pub open spec fn pct_decoded(b: Seq<u8>) -> Seq<u8>
    decreases b.len(),
{
    if b.len() == 0 {
        Seq::empty()
    } else if b[0] == 0x25 && 2 < b.len() && hex_byte(b[1]) is Some && hex_byte(b[2]) is Some {
        seq![(hex_byte(b[1]).unwrap() * 16 + hex_byte(b[2]).unwrap()) as u8] + pct_decoded(
            b.skip(3),
        )
    } else {
        seq![b[0]] + pct_decoded(b.skip(1))
    }
}

proof fn lemma_scalar_no_percent(c: char)
    requires
        c != '%',
    ensures
        !vstd::utf8::encode_scalar(c as u32).contains(0x25u8),
{
    let u = c as u32;
    let e = vstd::utf8::encode_scalar(u);
    assert(forall|x: u8| (0x80u8 | x) != 0x25u8) by (bit_vector);
    assert(forall|x: u8| (0xC0u8 | x) != 0x25u8) by (bit_vector);
    assert(forall|x: u8| (0xE0u8 | x) != 0x25u8) by (bit_vector);
    assert(forall|x: u8| (0xF0u8 | x) != 0x25u8) by (bit_vector);
    if vstd::utf8::has_width_1_encoding(u) {
        assert(u < 0x80);
        assert((u & 0x7F) == u) by (bit_vector)
            requires
                u < 0x80u32,
        ;
        assert(u != 37);
    }
    if e.contains(0x25u8) {
        let k = choose|k: int| 0 <= k < e.len() && e[k] == 0x25u8;
        assert(false);
    }
}

proof fn lemma_no_percent_byte(t: Seq<char>)
    requires
        !t.contains('%'),
    ensures
        !vstd::utf8::encode_utf8(t).contains(0x25u8),
    decreases t.len(),
{
    if t.len() > 0 {
        assert(t[0] != '%') by {
            assert(t.contains(t[0]));
        }
        assert(!t.drop_first().contains('%')) by {
            if t.drop_first().contains('%') {
                let k = choose|k: int| 0 <= k < t.drop_first().len() && t.drop_first()[k] == '%';
                assert(t[k + 1] == '%');
            }
        }
        lemma_scalar_no_percent(t[0]);
        lemma_no_percent_byte(t.drop_first());
        let a = vstd::utf8::encode_scalar(t[0] as u32);
        let b = vstd::utf8::encode_utf8(t.drop_first());
        if (a + b).contains(0x25u8) {
            let k = choose|k: int| 0 <= k < (a + b).len() && (a + b)[k] == 0x25u8;
            if k < a.len() {
                assert(a[k] == 0x25u8);
            } else {
                assert(b[k - a.len()] == 0x25u8);
            }
        }
    }
}

proof fn lemma_pct_plain(b: Seq<u8>)
    requires
        !b.contains(0x25u8),
    ensures
        pct_decoded(b) == b,
    decreases b.len(),
{
    if b.len() > 0 {
        assert(b[0] != 0x25) by {
            assert(b.contains(b[0]));
        }
        assert(!b.skip(1).contains(0x25u8)) by {
            if b.skip(1).contains(0x25u8) {
                let k = choose|k: int| 0 <= k < b.skip(1).len() && b.skip(1)[k] == 0x25u8;
                assert(b[k + 1] == 0x25u8);
            }
        }
        lemma_pct_plain(b.skip(1));
        assert(seq![b[0]] + b.skip(1) =~= b);
    }
}

proof fn lemma_text_without_percent(t: Seq<char>)
    requires
        !t.contains('%'),
    ensures
        pct_decoded(vstd::utf8::encode_utf8(t)) == vstd::utf8::encode_utf8(t),
{
    lemma_no_percent_byte(t);
    lemma_pct_plain(vstd::utf8::encode_utf8(t));
}

/// Decodes PuTTY's percent-encoded session names (bytes level, then lossy
/// UTF-8).
pub fn percent_decode(s: &str) -> (r: String)
    ensures
        r@ == lossy(pct_decoded(s.spec_bytes())),
        !s@.contains('%') ==> r@ == s@,
{
    proof {
        if !s@.contains('%') {
            lemma_text_without_percent(s@);
            crate::text::lemma_lossy_of_text(s@);
        }
    }
    let bytes = s.as_bytes();
    let n = bytes.len();
    let mut out: Vec<u8> = Vec::new();
    let mut i: usize = 0;
    assert(bytes@.skip(0) =~= bytes@);
    while i < n
        invariant
            n == bytes@.len(),
            bytes@ == s.spec_bytes(),
            i <= n,
            pct_decoded(bytes@) == out@ + pct_decoded(bytes@.skip(i as int)),
        decreases n - i,
    {
        let ghost rest = bytes@.skip(i as int);
        let ghost before = out@;
        if bytes[i] == 0x25 && n - i > 2 {
            let hi = hex_byte_value(bytes[i + 1]);
            let lo = hex_byte_value(bytes[i + 2]);
            if let (Some(h), Some(l)) = (hi, lo) {
                assert(h < 16 && l < 16);
                out.push((h * 16 + l) as u8);
                assert(rest.skip(3) =~= bytes@.skip(i + 3));
                assert(before + (seq![(h * 16 + l) as u8] + pct_decoded(rest.skip(3))) =~= out@
                    + pct_decoded(bytes@.skip(i + 3)));
                i = i + 3;
                continue;
            }
        }
        out.push(bytes[i]);
        assert(rest.skip(1) =~= bytes@.skip(i + 1));
        assert(before + (seq![rest[0]] + pct_decoded(rest.skip(1))) =~= out@ + pct_decoded(
            bytes@.skip(i + 1),
        ));
        i = i + 1;
    }
    assert(out@ + pct_decoded(bytes@.skip(n as int)) =~= out@) by {
        assert(bytes@.skip(n as int) =~= Seq::<u8>::empty());
    }
    decode_lossy(&out)
}

/// A quoted `.reg` string value with `\\` and `\"` unescaped (in that
/// order); `None` when `v` (trimmed) is not quoted.
pub open spec fn unquoted(v: Seq<char>) -> Option<Seq<char>> {
    let t = trim(v);
    if t.len() < 2 || t[0] != '"' || t.last() != '"' {
        None
    } else {
        Some(replace_all(replace_all(t.subrange(1, t.len() - 1), "\\\\"@, "\\"@), "\\\""@, "\""@))
    }
}

/// `"value"` → `value`, unescaping `\\` and `\"`. Non-quoted input → `None`.
pub fn unquote(v: &str) -> (r: Option<String>)
    ensures
        opt_str(r) == unquoted(v@),
{
    let c = to_chars(v);
    let (a, b) = trim_range(&c, 0, c.len());
    assert(c@.subrange(0, c@.len() as int) =~= c@);
    let ghost t = c@.subrange(a as int, b as int);
    if b - a < 2 || c[a] != '"' || c[b - 1] != '"' {
        return None;
    }
    assert(t.subrange(1, t.len() - 1) =~= c@.subrange(a + 1, b - 1));
    proof {
        reveal_strlit("\\\\");
        reveal_strlit("\\\"");
    }
    let pat1 = to_chars("\\\\");
    let first = replace_range(&c, a + 1, b - 1, &pat1, &to_chars("\\"));
    let pat2 = to_chars("\\\"");
    let second = replace_range(&first, 0, first.len(), &pat2, &to_chars("\""));
    assert(first@.subrange(0, first@.len() as int) =~= first@);
    Some(string_from_chars(&second))
}

/// The value of a `dword:xxxxxxxx` entry.
pub open spec fn dword_value(v: Seq<char>) -> Option<u32> {
    let t = trim(v);
    if starts_with(t, "dword:"@) {
        match parse_uint(trim(t.skip(6)), 16, 0xffff_ffff) {
            Some(n) => Some(n as u32),
            None => None,
        }
    } else {
        None
    }
}

/// `dword:0000001a` → 26.
pub fn parse_dword(v: &str) -> (r: Option<u32>)
    ensures
        r == dword_value(v@),
{
    let c = to_chars(v);
    let (a, b) = trim_range(&c, 0, c.len());
    assert(c@.subrange(0, c@.len() as int) =~= c@);
    let ghost t = c@.subrange(a as int, b as int);
    let prefix = to_chars("dword:");
    if !range_starts_with(&c, a, b, &prefix) {
        return None;
    }
    proof {
        reveal_strlit("dword:");
    }
    assert(prefix@.len() == 6);
    assert(t.skip(6) =~= c@.subrange(a + 6, b as int));
    let (x, y) = trim_range(&c, a + 6, b);
    match crate::text::parse_u32_range(&c, x, y, 16) {
        Some(n) => Some(n),
        None => None,
    }
}

// ---------------------------------------------------------------------------
// Sessions
// ---------------------------------------------------------------------------

/// One PuTTY session's raw values, name decoded.
#[derive(Debug, Clone, PartialEq, Default)]
pub struct PuttySession {
    pub name: String,
    pub host: Option<String>,
    pub port: Option<u32>,
    pub protocol: Option<String>,
    pub username: Option<String>,
    pub public_key_file: Option<String>,
    pub serial_line: Option<String>,
    pub serial_speed: Option<u32>,
    /// PuTTY's `PortForwardings` string, e.g. `L8080=10.0.0.1:80,D1080`.
    pub port_forwardings: Option<String>,
}

/// Abstract PuTTY session.
pub struct PuttyView {
    pub name: Seq<char>,
    pub host: Option<Seq<char>>,
    pub port: Option<u32>,
    pub protocol: Option<Seq<char>>,
    pub username: Option<Seq<char>>,
    pub public_key_file: Option<Seq<char>>,
    pub serial_line: Option<Seq<char>>,
    pub serial_speed: Option<u32>,
    pub port_forwardings: Option<Seq<char>>,
}

impl View for PuttySession {
    type V = PuttyView;

    open spec fn view(&self) -> PuttyView {
        PuttyView {
            name: self.name@,
            host: opt_str(self.host),
            port: self.port,
            protocol: opt_str(self.protocol),
            username: opt_str(self.username),
            public_key_file: opt_str(self.public_key_file),
            serial_line: opt_str(self.serial_line),
            serial_speed: self.serial_speed,
            port_forwardings: opt_str(self.port_forwardings),
        }
    }
}

/// The views of a vector of sessions.
pub open spec fn putty_views(v: Seq<PuttySession>) -> Seq<PuttyView> {
    Seq::new(v.len(), |i: int| v[i]@)
}

/// The view of an optional session.
pub open spec fn opt_putty(o: Option<PuttySession>) -> Option<PuttyView> {
    match o {
        Some(s) => Some(s@),
        None => None,
    }
}

/// A session with only its name set.
pub open spec fn named(name: Seq<char>) -> PuttyView {
    PuttyView {
        name,
        host: None,
        port: None,
        protocol: None,
        username: None,
        public_key_file: None,
        serial_line: None,
        serial_speed: None,
        port_forwardings: None,
    }
}

/// The registry path that introduces a session key.
pub open spec fn sessions_marker() -> Seq<char> {
    "\\PuTTY\\Sessions\\"@
}

/// Records one `"Key"=value` pair of a session.
pub open spec fn set_value(s: PuttyView, key: Seq<char>, value: Seq<char>) -> PuttyView {
    if key == "HostName"@ {
        PuttyView { host: unquoted(value), ..s }
    } else if key == "Protocol"@ {
        PuttyView {
            protocol: match unquoted(value) {
                Some(p) => Some(lower_seq(p)),
                None => None,
            },
            ..s
        }
    } else if key == "UserName"@ {
        PuttyView { username: unquoted(value), ..s }
    } else if key == "PublicKeyFile"@ {
        PuttyView { public_key_file: unquoted(value), ..s }
    } else if key == "SerialLine"@ {
        PuttyView { serial_line: unquoted(value), ..s }
    } else if key == "PortNumber"@ {
        PuttyView { port: dword_value(value), ..s }
    } else if key == "SerialSpeed"@ {
        PuttyView { serial_speed: dword_value(value), ..s }
    } else if key == "PortForwardings"@ {
        PuttyView {
            port_forwardings: match unquoted(value) {
                Some(v) => if v.len() > 0 {
                    Some(v)
                } else {
                    None
                },
                None => None,
            },
            ..s
        }
    } else {
        s
    }
}

/// The decoded session name in a `[...\PuTTY\Sessions\<name>]` key line.
pub open spec fn key_name(line: Seq<char>, pos: int) -> Seq<char> {
    lossy(
        pct_decoded(
            vstd::utf8::encode_utf8(
                trim_end_char(line.skip(pos + sessions_marker().len()), ']'),
            ),
        ),
    )
}

/// One line of a `.reg` export: the finished sessions and the one being read.
pub open spec fn reg_step(out: Seq<PuttyView>, cur: Option<PuttyView>, raw: Seq<char>) -> (
    Seq<PuttyView>,
    Option<PuttyView>,
) {
    let line = trim(raw);
    if line.len() > 0 && line[0] == '[' {
        let out2 = match cur {
            Some(s) => out.push(s),
            None => out,
        };
        match find_seq(line, sessions_marker()) {
            Some(pos) => (out2, Some(named(key_name(line, pos)))),
            None => (out2, None),
        }
    } else {
        match cur {
            None => (out, None),
            Some(s) => {
                let e = find_from(line, '=', 0);
                if e >= line.len() {
                    (out, Some(s))
                } else {
                    let key = trim_char(trim(line.take(e)), '"');
                    let value = trim(line.skip(e + 1));
                    (out, Some(set_value(s, key, value)))
                }
            },
        }
    }
}

/// Folds `reg_step` over the lines, then flushes the session being read.
pub open spec fn reg_fold(out: Seq<PuttyView>, cur: Option<PuttyView>, ls: Seq<Seq<char>>) -> Seq<
    PuttyView,
>
    decreases ls.len(),
{
    if ls.len() == 0 {
        match cur {
            Some(s) => out.push(s),
            None => out,
        }
    } else {
        let (o, c) = reg_step(out, cur, ls[0]);
        reg_fold(o, c, ls.drop_first())
    }
}

/// The sessions of a `.reg` export.
pub open spec fn reg_sessions(content: Seq<char>) -> Seq<PuttyView> {
    reg_fold(Seq::empty(), None, lines(content))
}

fn set_value_exec(s: &mut PuttySession, key: &str, value: &str)
    ensures
        final(s)@ == set_value(old(s)@, key@, value@),
{
    if str_is(key, "HostName") {
        s.host = unquote(value);
    } else if str_is(key, "Protocol") {
        s.protocol = match unquote(value) {
            Some(p) => Some(string_from_chars(&lower_vec(&to_chars(p.as_str())))),
            None => None,
        };
    } else if str_is(key, "UserName") {
        s.username = unquote(value);
    } else if str_is(key, "PublicKeyFile") {
        s.public_key_file = unquote(value);
    } else if str_is(key, "SerialLine") {
        s.serial_line = unquote(value);
    } else if str_is(key, "PortNumber") {
        s.port = parse_dword(value);
    } else if str_is(key, "SerialSpeed") {
        s.serial_speed = parse_dword(value);
    } else if str_is(key, "PortForwardings") {
        s.port_forwardings = match unquote(value) {
            Some(v) => if v.as_str().unicode_len() > 0 {
                Some(v)
            } else {
                None
            },
            None => None,
        };
    }
}

fn reg_step_exec(out: &mut Vec<PuttySession>, cur: &mut Option<PuttySession>, c: &Vec<char>, lo: usize, hi: usize)
    requires
        lo <= hi <= c@.len(),
    ensures
        ({
            let (o, s) = reg_step(putty_views(old(out)@), opt_putty(*old(cur)), c@.subrange(lo as int, hi as int));
            putty_views(final(out)@) == o && opt_putty(*final(cur)) == s
        }),
{
    let ghost raw = c@.subrange(lo as int, hi as int);
    let (a, b) = trim_range(c, lo, hi);
    let ghost line = c@.subrange(a as int, b as int);
    if a < b && c[a] == '[' {
        let taken = cur.take();
        match taken {
            Some(s) => {
                let ghost before = out@;
                out.push(s);
                assert(putty_views(out@) =~= putty_views(before).push(s@));
            },
            None => {},
        }
        let marker = to_chars("\\PuTTY\\Sessions\\");
        match find_in_range(c, a, b, &marker) {
            Some(k) => {
                let start = k + marker.len();
                let e = trim_end_char_range(c, start, b, ']');
                assert(line.skip(k - a + marker@.len()) =~= c@.subrange(start as int, b as int));
                let enc = string_from_range(c, start, e);
                let name = percent_decode(enc.as_str());
                let fresh = PuttySession {
                    name,
                    host: None,
                    port: None,
                    protocol: None,
                    username: None,
                    public_key_file: None,
                    serial_line: None,
                    serial_speed: None,
                    port_forwardings: None,
                };
                *cur = Some(fresh);
            },
            None => {
                *cur = None;
            },
        }
        return;
    }
    match cur {
        None => {},
        Some(s) => {
            let e = find_char(c, '=', a, b);
            if e < b {
                assert(line.take(e - a) =~= c@.subrange(a as int, e as int));
                assert(line.skip(e - a + 1) =~= c@.subrange(e + 1, b as int));
                let (ka, kb) = trim_range(c, a, e);
                let ka2 = trim_start_char_range(c, ka, kb, '"');
                let kb2 = trim_end_char_range(c, ka2, kb, '"');
                let (va, vb) = trim_range(c, e + 1, b);
                let key = string_from_range(c, ka2, kb2);
                let value = string_from_range(c, va, vb);
                set_value_exec(s, key.as_str(), value.as_str());
            }
        },
    }
}

/// Parses a `.reg` export into PuTTY sessions. Keys outside
/// `...\PuTTY\Sessions\` end the current session and are otherwise ignored.
pub fn parse_reg(content: &str) -> (r: Vec<PuttySession>)
    ensures
        putty_views(r@) == reg_sessions(content@),
{
    let c = to_chars(content);
    let n = c.len();
    let mut out: Vec<PuttySession> = Vec::new();
    let mut cur: Option<PuttySession> = None;
    let mut pos: usize = 0;
    assert(c@.skip(0) =~= c@);
    assert(putty_views(out@) =~= Seq::<PuttyView>::empty());
    while pos < n
        invariant
            n == c@.len(),
            c@ == content@,
            pos <= n,
            reg_sessions(content@) == reg_fold(putty_views(out@), opt_putty(cur), lines(c@.skip(pos as int))),
        decreases n - pos,
    {
        let (a, b, nx) = next_line(&c, pos);
        reg_step_exec(&mut out, &mut cur, &c, a, b);
        proof {
            let l = c@.subrange(a as int, b as int);
            let rest = lines(c@.skip(nx as int));
            assert((seq![l] + rest).drop_first() =~= rest);
            assert((seq![l] + rest)[0] == l);
        }
        pos = nx;
    }
    assert(c@.skip(n as int) =~= Seq::<char>::empty());
    match cur {
        Some(s) => {
            let ghost before = out@;
            out.push(s);
            assert(putty_views(out@) =~= putty_views(before).push(s@));
        },
        None => {},
    }
    out
}

// ---------------------------------------------------------------------------
// PortForwardings
// ---------------------------------------------------------------------------

/// The warning for a forward spec that is skipped.
pub open spec fn fwd_warning(session: Seq<char>, item: Seq<char>, suffix: Seq<char>) -> Seq<char> {
    "«"@ + session + "»: forward «"@ + item + suffix
}

/// A forward with the given fields.
pub open spec fn fwd(
    kind: Seq<char>,
    bind_addr: Seq<char>,
    bind_port: nat,
    host: Option<Seq<char>>,
    port: Option<nat>,
) -> ForwardView {
    ForwardView {
        kind,
        bind_addr,
        bind_port: bind_port as u16,
        target_host: host,
        target_port: match port {
            Some(p) => Some(p as u16),
            None => None,
        },
    }
}

/// One trimmed, non-empty forward spec: `L[bind:]port=host:port`,
/// `R[bind:]port=host:port` or `D[bind:]port` (an optional `4`/`6` after the
/// letter is ignored). Yields the forward or the warning for skipping it.
pub open spec fn forward_item(item: Seq<char>, session: Seq<char>) -> (Option<ForwardView>, Option<Seq<char>>) {
    let k = crate::text::upper(item[0]);
    if k != 'L' && k != 'R' && k != 'D' {
        (None, Some(fwd_warning(session, item, "» no reconocido — omitido"@)))
    } else {
        let kind = if k == 'L' {
            "local"@
        } else if k == 'R' {
            "remote"@
        } else {
            "dynamic"@
        };
        let rest0 = item.skip(1);
        let rest = if rest0.len() > 0 && (rest0[0] == '4' || rest0[0] == '6') {
            rest0.skip(1)
        } else {
            rest0
        };
        let eq = find_from(rest, '=', 0);
        let source = if eq < rest.len() {
            rest.take(eq)
        } else {
            rest
        };
        let bind_addr = match crate::text::last_index(source, ':') {
            Some(j) => source.take(j),
            None => "127.0.0.1"@,
        };
        let port_s = match crate::text::last_index(source, ':') {
            Some(j) => source.skip(j + 1),
            None => source,
        };
        match parse_uint(trim(port_s), 10, 0xffff) {
            None => (None, Some(fwd_warning(session, item, "»: puerto inválido — omitido"@))),
            Some(bp) => if k == 'D' {
                (Some(fwd(kind, bind_addr, bp, None, None)), None)
            } else if eq >= rest.len() {
                (None, Some(fwd_warning(session, item, "» sin destino — omitido"@)))
            } else {
                let d = rest.skip(eq + 1);
                match crate::text::last_index(d, ':') {
                    None => (None, Some(fwd_warning(session, item, "»: destino inválido — omitido"@))),
                    Some(j) => match parse_uint(trim(d.skip(j + 1)), 10, 0xffff) {
                        None => (
                            None,
                            Some(fwd_warning(session, item, "»: puerto destino inválido — omitido"@)),
                        ),
                        Some(tp) => (Some(fwd(kind, bind_addr, bp, Some(d.take(j)), Some(tp))), None),
                    },
                }
            },
        }
    }
}

/// The sequence of an optional value.
pub open spec fn opt_seq<T>(o: Option<T>) -> Seq<T> {
    match o {
        Some(x) => seq![x],
        None => Seq::empty(),
    }
}

/// Forwards and warnings of comma-separated spec pieces (blank pieces skipped).
pub open spec fn forwards_of(pieces: Seq<Seq<char>>, session: Seq<char>) -> (Seq<ForwardView>, Seq<Seq<char>>)
    decreases pieces.len(),
{
    if pieces.len() == 0 {
        (Seq::empty(), Seq::empty())
    } else {
        let item = trim(pieces[0]);
        let (f, w) = forwards_of(pieces.drop_first(), session);
        if item.len() == 0 {
            (f, w)
        } else {
            let (f0, w0) = forward_item(item, session);
            (opt_seq(f0) + f, opt_seq(w0) + w)
        }
    }
}

#[verifier::rlimit(60)]
#[verifier::spinoff_prover]
fn forward_item_exec(c: &Vec<char>, a: usize, b: usize, session: &str) -> (r: (Option<SavedForward>, Option<String>))
    requires
        a < b <= c@.len(),
    ensures
        ({
            let (f, w) = forward_item(c@.subrange(a as int, b as int), session@);
            &&& r.0 matches Some(x) ==> f == Some(x@)
            &&& r.0 is None ==> f is None
            &&& opt_str(r.1) == w
        }),
{
    let ghost item = c@.subrange(a as int, b as int);
    let item_s = string_from_range(c, a, b);
    let k = crate::text::upper_char(c[a]);
    assert(item[0] == c@[a as int]);
    if k != 'L' && k != 'R' && k != 'D' {
        return (None, Some(crate::text::concat5("«", session, "»: forward «", item_s.as_str(), "» no reconocido — omitido")));
    }
    let kind = if k == 'L' {
        "local"
    } else if k == 'R' {
        "remote"
    } else {
        "dynamic"
    };
    let mut r0 = a + 1;
    assert(item.skip(1) =~= c@.subrange(a + 1, b as int));
    if r0 < b && (c[r0] == '4' || c[r0] == '6') {
        assert(c@.subrange(a + 1, b as int).skip(1) =~= c@.subrange(a + 2, b as int));
        r0 = r0 + 1;
    }
    let ghost rest = c@.subrange(r0 as int, b as int);
    let eq = find_char(c, '=', r0, b);
    let src_end = eq;
    let ghost source = c@.subrange(r0 as int, src_end as int);
    assert(eq < b ==> rest.take(eq - r0) =~= source);
    assert(eq == b ==> rest =~= source);
    let colon = crate::text::last_index_in(c, ':', r0, src_end);
    let (bind_addr, pa, pb) = match colon {
        Some(j) => {
            assert(source.take(j - r0) =~= c@.subrange(r0 as int, j as int));
            assert(source.skip(j - r0 + 1) =~= c@.subrange(j + 1, src_end as int));
            (string_from_range(c, r0, j), j + 1, src_end)
        },
        None => (owned("127.0.0.1"), r0, src_end),
    };
    let (ta, tb) = trim_range(c, pa, pb);
    let bp = match crate::text::parse_u16_range(c, ta, tb) {
        Some(p) => p,
        None => {
            return (None, Some(crate::text::concat5("«", session, "»: forward «", item_s.as_str(), "»: puerto inválido — omitido")));
        },
    };
    if k == 'D' {
        return (Some(SavedForward { kind: owned(kind), bind_addr, bind_port: bp, target_host: None, target_port: None }), None);
    }
    if eq >= b {
        return (None, Some(crate::text::concat5("«", session, "»: forward «", item_s.as_str(), "» sin destino — omitido")));
    }
    let ghost d = c@.subrange(eq + 1, b as int);
    assert(rest.skip(eq - r0 + 1) =~= d);
    match crate::text::last_index_in(c, ':', eq + 1, b) {
        None => (None, Some(crate::text::concat5("«", session, "»: forward «", item_s.as_str(), "»: destino inválido — omitido"))),
        Some(j) => {
            assert(d.skip(j - eq - 1 + 1) =~= c@.subrange(j + 1, b as int));
            assert(d.take(j - eq - 1) =~= c@.subrange(eq + 1, j as int));
            let (xa, xb) = trim_range(c, j + 1, b);
            match crate::text::parse_u16_range(c, xa, xb) {
                None => (None, Some(crate::text::concat5("«", session, "»: forward «", item_s.as_str(), "»: puerto destino inválido — omitido"))),
                Some(tp) => (
                    Some(SavedForward {
                        kind: owned(kind),
                        bind_addr,
                        bind_port: bp,
                        target_host: Some(string_from_range(c, eq + 1, j)),
                        target_port: Some(tp),
                    }),
                    None,
                ),
            }
        },
    }
}

/// Parses PuTTY's `PortForwardings` string into forwards; each skipped
/// spec adds one warning (in order) to `warnings`.
pub fn parse_port_forwardings(spec: &str, session: &str, warnings: &mut Vec<String>) -> (r: Vec<SavedForward>)
    ensures
        ({
            let (f, w) = forwards_of(crate::text::split_pieces(spec@, ','), session@);
            &&& forward_views(r@) == f
            &&& str_views(final(warnings)@) == str_views(old(warnings)@) + w
        }),
{
    let c = to_chars(spec);
    let n = c.len();
    let mut out: Vec<SavedForward> = Vec::new();
    let mut pos: usize = 0;
    let ghost w0 = str_views(warnings@);
    assert(c@.skip(0) =~= c@);
    proof {
        let (f, w) = forwards_of(crate::text::split_pieces(c@, ','), session@);
        assert(forward_views(out@) + f =~= f);
        assert(w0 + w =~= str_views(warnings@) + w);
    }
    loop
        invariant_except_break
            n == c@.len(),
            c@ == spec@,
            pos <= n,
            ({
                let (f, w) = forwards_of(crate::text::split_pieces(c@, ','), session@);
                let (f2, w2) = forwards_of(crate::text::split_pieces(c@.skip(pos as int), ','), session@);
                &&& f == forward_views(out@) + f2
                &&& w0 + w == str_views(warnings@) + w2
            }),
        ensures
            ({
                let (f, w) = forwards_of(crate::text::split_pieces(c@, ','), session@);
                &&& f == forward_views(out@)
                &&& w0 + w == str_views(warnings@)
            }),
        decreases n - pos,
    {
        let i = find_char(&c, ',', pos, n);
        let ghost s = c@.skip(pos as int);
        assert(c@.subrange(pos as int, n as int) =~= s);
        proof {
            crate::text::lemma_find_from(s, ',', 0);
        }
        let ghost piece = c@.subrange(pos as int, i as int);
        let ghost tail: Seq<Seq<char>> = if i < n {
            crate::text::split_pieces(c@.skip(i + 1), ',')
        } else {
            Seq::empty()
        };
        assert(crate::text::split_pieces(s, ',') =~= seq![piece] + tail) by {
            if i < n {
                assert(s.take(i - pos) =~= piece);
                assert(s.skip(i - pos + 1) =~= c@.skip(i + 1));
            } else {
                assert(s =~= piece);
            }
        }
        assert((seq![piece] + tail).drop_first() =~= tail);
        let ghost fb = forward_views(out@);
        let ghost wb = str_views(warnings@);
        let (ta, tb) = trim_range(&c, pos, i);
        if ta < tb {
            let (f0, w0x) = forward_item_exec(&c, ta, tb, session);
            match f0 {
                Some(x) => {
                    out.push(x);
                },
                None => {},
            }
            match w0x {
                Some(m) => {
                    warnings.push(m);
                },
                None => {},
            }
            proof {
                let (ff, ww) = forward_item(c@.subrange(ta as int, tb as int), session@);
                assert(forward_views(out@) =~= fb + opt_seq(ff));
                assert(str_views(warnings@) =~= wb + opt_seq(ww));
                let (f2, w2) = forwards_of(tail, session@);
                assert(fb + (opt_seq(ff) + f2) =~= forward_views(out@) + f2);
                assert(wb + (opt_seq(ww) + w2) =~= str_views(warnings@) + w2);
            }
        }
        if i == n {
            proof {
                assert(tail =~= Seq::<Seq<char>>::empty());
                assert(forwards_of(tail, session@) == (Seq::<ForwardView>::empty(), Seq::<Seq<char>>::empty()));
                assert(forward_views(out@) + Seq::<ForwardView>::empty() =~= forward_views(out@));
                assert(str_views(warnings@) + Seq::<Seq<char>>::empty() =~= str_views(warnings@));
            }
            break;
        }
        pos = i + 1;
    }
    out
}

// ---------------------------------------------------------------------------
// Sessions → envelope
// ---------------------------------------------------------------------------

/// State of the mapping: rows, forwards, warnings and the last id used.
pub struct MapState {
    pub rows: Seq<SessionView>,
    pub forwards: Seq<SessionForwardsView>,
    pub warnings: Seq<Seq<char>>,
    pub idx: int,
}

/// The protocol a PuTTY session uses (`ssh` when unset).
pub open spec fn putty_protocol(s: PuttyView) -> Seq<char> {
    match s.protocol {
        Some(p) => p,
        None => "ssh"@,
    }
}

/// A value that is present and non-empty.
pub open spec fn nonempty(o: Option<Seq<char>>) -> Option<Seq<char>> {
    match o {
        Some(v) => if v.len() > 0 {
            Some(v)
        } else {
            None
        },
        None => None,
    }
}

/// The port an imported PuTTY row gets.
pub open spec fn putty_port(s: PuttyView, proto: Seq<char>) -> u16 {
    match s.port {
        Some(p) => if p <= 0xffff {
            p as u16
        } else if proto == "telnet"@ {
            23
        } else {
            22
        },
        None => if proto == "telnet"@ {
            23
        } else {
            22
        },
    }
}

/// The abstract mapping state of concrete accumulators.
pub open spec fn state_of(
    rows: Seq<SavedSession>,
    forwards: Seq<SessionForwards>,
    warnings: Seq<String>,
    idx: int,
) -> MapState {
    MapState {
        rows: session_views(rows),
        forwards: session_forwards_views(forwards),
        warnings: str_views(warnings),
        idx,
    }
}

/// Maps one PuTTY session.
pub open spec fn map_session(st: MapState, s: PuttyView) -> MapState {
    let name = s.name;
    if lower_seq(name) == lower_seq("Default Settings"@) || name.len() == 0 {
        st
    } else {
        let proto = putty_protocol(s);
        if proto == "ssh"@ || proto == "telnet"@ {
            match nonempty(s.host) {
                None => MapState {
                    warnings: st.warnings.push("«"@ + name + "»: sin HostName — omitida"@),
                    ..st
                },
                Some(host) => {
                    let key = if proto == "ssh"@ {
                        nonempty(s.public_key_file)
                    } else {
                        None
                    };
                    let ppk = match key {
                        Some(k) => ends_with(lower_seq(k), ".ppk"@),
                        None => false,
                    };
                    let w1 = if ppk {
                        st.warnings.push(
                            "«"@ + name + "»: clave PuTTY "@ + key.unwrap()
                                + " (.ppk) — conviértela a OpenSSH para usarla"@,
                        )
                    } else {
                        st.warnings
                    };
                    let auth = match key {
                        Some(k) => AuthView::Key(k),
                        None => if proto == "ssh"@ {
                            AuthView::Agent
                        } else {
                            AuthView::Password
                        },
                    };
                    let idx = st.idx + 1;
                    let row = session_spec(
                        idx as i64,
                        None,
                        name,
                        proto,
                        Some(host),
                        Some(putty_port(s, proto)),
                        nonempty(s.username),
                        auth,
                        (idx - 1) as i64,
                    );
                    let (fw, ws) = if proto == "ssh"@ && s.port_forwardings is Some {
                        forwards_of(crate::text::split_pieces(s.port_forwardings.unwrap(), ','), name)
                    } else {
                        (Seq::empty(), Seq::empty())
                    };
                    MapState {
                        rows: st.rows.push(row),
                        forwards: if fw.len() > 0 {
                            st.forwards.push(SessionForwardsView { session_id: idx as i64, forwards: fw })
                        } else {
                            st.forwards
                        },
                        warnings: w1 + ws,
                        idx,
                    }
                },
            }
        } else if proto == "serial"@ {
            match nonempty(s.serial_line) {
                None => MapState {
                    warnings: st.warnings.push("«"@ + name + "»: serial sin SerialLine — omitida"@),
                    ..st
                },
                Some(device) => {
                    let idx = st.idx + 1;
                    let base = session_spec(
                        idx as i64,
                        None,
                        name,
                        "serial"@,
                        None,
                        None,
                        None,
                        AuthView::Password,
                        (idx - 1) as i64,
                    );
                    let baud = match s.serial_speed {
                        Some(b) => b,
                        None => 9600,
                    };
                    MapState {
                        rows: st.rows.push(
                            SessionView { options_json: serial_options(device, decimal(baud as nat)), ..base },
                        ),
                        idx,
                        ..st
                    }
                },
            }
        } else {
            MapState {
                warnings: st.warnings.push(
                    "«"@ + name + "»: protocolo «"@ + proto + "» no soportado — omitida"@,
                ),
                ..st
            }
        }
    }
}

/// Maps a list of sessions.
pub open spec fn map_sessions(st: MapState, ss: Seq<PuttyView>) -> MapState
    decreases ss.len(),
{
    if ss.len() == 0 {
        st
    } else {
        map_sessions(map_session(st, ss[0]), ss.drop_first())
    }
}

/// The mapping from its empty start.
pub open spec fn putty_import(ss: Seq<PuttyView>) -> MapState {
    map_sessions(MapState { rows: Seq::empty(), forwards: Seq::empty(), warnings: Seq::empty(), idx: 0 }, ss)
}

proof fn lemma_map_idx(st: MapState, ss: Seq<PuttyView>)
    ensures
        st.idx <= map_sessions(st, ss).idx <= st.idx + ss.len(),
    decreases ss.len(),
{
    if ss.len() > 0 {
        lemma_map_idx(map_session(st, ss[0]), ss.drop_first());
    }
}

fn opt_nonempty(o: &Option<String>) -> (r: Option<String>)
    ensures
        opt_str(r) == nonempty(opt_str(*o)),
{
    match o {
        Some(v) => if v.as_str().unicode_len() > 0 {
            Some(v.clone())
        } else {
            None
        },
        None => None,
    }
}

/// Maps decoded PuTTY sessions onto the native envelope. The
/// "Default Settings" template and nameless entries are skipped; SSH and
/// telnet need a host, serial a line; other protocols are skipped with a
/// warning. SSH sessions carry their saved forwards.
pub fn from_sessions(sessions: &[PuttySession]) -> (p: Parsed)
    requires
        sessions@.len() < 0x7fff_ffff_ffff_ffff,
    ensures
        ({
            let m = putty_import(putty_views(sessions@));
            &&& p.file.zapx_export == 1
            &&& p.file.folders@.len() == 0
            &&& session_views(p.file.sessions@) == m.rows
            &&& session_forwards_views(p.file.session_forwards@) == m.forwards
            &&& p.file.broadcast_groups@.len() == 0
            &&& p.file.snippets@.len() == 0
            &&& p.file.highlight_rules@.len() == 0
            &&& str_views(p.warnings@) == m.warnings
        }),
{
    let mut rows: Vec<SavedSession> = Vec::new();
    let mut forwards: Vec<SessionForwards> = Vec::new();
    let mut warnings: Vec<String> = Vec::new();
    let mut idx: i64 = 0;
    let mut k: usize = 0;
    let ghost all = putty_views(sessions@);
    assert(all.skip(0) =~= all);
    assert(state_of(rows@, forwards@, warnings@, 0) == MapState {
        rows: Seq::empty(),
        forwards: Seq::empty(),
        warnings: Seq::empty(),
        idx: 0,
    }) by {
        assert(session_views(rows@) =~= Seq::<SessionView>::empty());
        assert(session_forwards_views(forwards@) =~= Seq::<SessionForwardsView>::empty());
        assert(str_views(warnings@) =~= Seq::<Seq<char>>::empty());
    }
    while k < sessions.len()
        invariant
            k <= sessions@.len(),
            sessions@.len() < 0x7fff_ffff_ffff_ffff,
            all == putty_views(sessions@),
            0 <= idx <= k,
            putty_import(all) == map_sessions(state_of(rows@, forwards@, warnings@, idx as int), all.skip(k as int)),
        decreases sessions.len() - k,
    {
        let s = &sessions[k];
        let ghost st = state_of(rows@, forwards@, warnings@, idx as int);
        assert(all.skip(k as int)[0] == s@);
        assert(all.skip(k as int).drop_first() =~= all.skip(k + 1));
        map_one(s, &mut rows, &mut forwards, &mut warnings, &mut idx);
        k = k + 1;
    }
    let mut file = common::envelope(Vec::new(), rows);
    file.session_forwards = forwards;
    Parsed { file, warnings }
}

fn map_one(
    s: &PuttySession,
    rows: &mut Vec<SavedSession>,
    forwards: &mut Vec<SessionForwards>,
    warnings: &mut Vec<String>,
    idx: &mut i64,
)
    requires
        0 <= *old(idx) < 0x7fff_ffff_ffff_fffe,
    ensures
        state_of(final(rows)@, final(forwards)@, final(warnings)@, *final(idx) as int) == map_session(
            state_of(old(rows)@, old(forwards)@, old(warnings)@, *old(idx) as int),
            s@,
        ),
        *old(idx) <= *final(idx) <= *old(idx) + 1,
{
    let ghost r0 = session_views(rows@);
    let ghost f0 = session_forwards_views(forwards@);
    let ghost w0 = str_views(warnings@);
    let name = s.name.as_str();
    let lname = lower_vec(&to_chars(name));
    let ldef = lower_vec(&to_chars("Default Settings"));
    if crate::text::chars_eq(&lname, &ldef) || name.unicode_len() == 0 {
        return;
    }
    let proto: String = match &s.protocol {
        Some(p) => p.clone(),
        None => owned("ssh"),
    };
    let is_ssh = str_is(proto.as_str(), "ssh");
    let is_telnet = str_is(proto.as_str(), "telnet");
    if is_ssh || is_telnet {
        let host = match opt_nonempty(&s.host) {
            None => {
                warnings.push(concat3("«", name, "»: sin HostName — omitida"));
                assert(str_views(warnings@) =~= w0.push("«"@ + name@ + "»: sin HostName — omitida"@));
                return;
            },
            Some(h) => h,
        };
        let key = if is_ssh {
            opt_nonempty(&s.public_key_file)
        } else {
            None
        };
        match &key {
            Some(kf) => {
                let lk = lower_vec(&to_chars(kf.as_str()));
                let n = lk.len();
                if crate::text::range_ends_with(&lk, 0, n, &to_chars(".ppk")) {
                    warnings.push(crate::text::concat5("«", name, "»: clave PuTTY ", kf.as_str(), " (.ppk) — conviértela a OpenSSH para usarla"));
                }
                assert(lk@.subrange(0, n as int) =~= lk@);
            },
            None => {},
        }
        let ghost w1 = str_views(warnings@);
        let auth = match key {
            Some(kf) => Auth::Key(kf),
            None => if is_ssh {
                Auth::Agent
            } else {
                Auth::Password
            },
        };
        let port: u16 = match s.port {
            Some(p) => if p <= 0xffff {
                p as u16
            } else {
                default_port(proto.as_str())
            },
            None => default_port(proto.as_str()),
        };
        *idx = *idx + 1;
        let row = common::session(
            *idx,
            None,
            name,
            proto.as_str(),
            Some(host),
            Some(port),
            opt_nonempty(&s.username),
            auth,
            *idx - 1,
        );
        rows.push(row);
        assert(session_views(rows@) =~= r0.push(row@));
        if is_ssh {
            match &s.port_forwardings {
                Some(pf) => {
                    let fwds = parse_port_forwardings(pf.as_str(), name, warnings);
                    if fwds.len() > 0 {
                        let entry = SessionForwards { session_id: *idx, forwards: fwds };
                        forwards.push(entry);
                        assert(session_forwards_views(forwards@) =~= f0.push(entry@));
                    }
                },
                None => {
                    assert(w1 + Seq::<Seq<char>>::empty() =~= w1);
                },
            }
        } else {
            assert(w1 + Seq::<Seq<char>>::empty() =~= w1);
        }
        proof {
            let st = state_of(old(rows)@, old(forwards)@, old(warnings)@, *old(idx) as int);
            let exp = map_session(st, s@);
            assert(putty_protocol(s@) == proto@);
            assert(session_views(rows@) == exp.rows);
            assert(session_forwards_views(forwards@) == exp.forwards);
            assert(str_views(warnings@) == exp.warnings);
            assert(*idx == exp.idx);
        }
        return;
    }
    if str_is(proto.as_str(), "serial") {
        let device = match opt_nonempty(&s.serial_line) {
            None => {
                warnings.push(concat3("«", name, "»: serial sin SerialLine — omitida"));
                assert(str_views(warnings@) =~= w0.push("«"@ + name@ + "»: serial sin SerialLine — omitida"@));
                return;
            },
            Some(d) => d,
        };
        *idx = *idx + 1;
        let mut row = common::session(*idx, None, name, "serial", None, None, None, Auth::Password, *idx - 1);
        let baud = match s.serial_speed {
            Some(b) => b,
            None => 9600,
        };
        let ghost base = row@;
        row.options_json = common::serial_options_json(device.as_str(), baud);
        assert(row@ == SessionView { options_json: serial_options(device@, decimal(baud as nat)), ..base });
        rows.push(row);
        assert(session_views(rows@) =~= r0.push(row@));
        assert(session_forwards_views(forwards@) == f0);
        assert(str_views(warnings@) == w0);
        proof {
            let st = state_of(old(rows)@, old(forwards)@, old(warnings)@, *old(idx) as int);
            assert(putty_protocol(s@) == proto@);
            assert(proto@ != "ssh"@ && proto@ != "telnet"@);
            assert(proto@ == "serial"@);
            assert(nonempty(s@.serial_line) == Some(device@));
            assert(*idx as int == st.idx + 1);
        }
        return;
    }
    warnings.push(crate::text::concat5("«", name, "»: protocolo «", proto.as_str(), "» no soportado — omitida"));
    assert(str_views(warnings@) =~= w0.push("«"@ + name@ + "»: protocolo «"@ + proto@ + "» no soportado — omitida"@));
}

/// How an imported PuTTY row authenticates: an SSH row through the agent,
/// or with the key file it names; telnet and serial rows record no method.
pub open spec fn putty_auth_ok(r: SessionView) -> bool {
    if r.protocol == "ssh"@ {
        (r.auth_method == Some("agent"@) && r.options_json == "{}"@) || (r.auth_method == Some("key"@) && exists|
            k: Seq<char>,
        | r.options_json == crate::importers::common::key_options(k))
    } else {
        r.auth_method is None
    }
}

proof fn lemma_map_session_auth(st: MapState, s: PuttyView)
    requires
        forall|i: int| 0 <= i < st.rows.len() ==> putty_auth_ok(#[trigger] st.rows[i]),
    ensures
        forall|i: int| 0 <= i < map_session(st, s).rows.len() ==> putty_auth_ok(#[trigger] map_session(st, s).rows[i]),
{
    reveal_strlit("ssh");
    reveal_strlit("telnet");
    reveal_strlit("serial");
    reveal_strlit("agent");
    reveal_strlit("key");
    reveal_strlit("password");
    let r = map_session(st, s);
    assert forall|i: int| 0 <= i < r.rows.len() implies putty_auth_ok(#[trigger] r.rows[i]) by {
        if i < st.rows.len() {
            assert(r.rows[i] == st.rows[i]);
        } else {
            let proto = putty_protocol(s);
            if proto == "ssh"@ {
                let key = nonempty(s.public_key_file);
                match key {
                    Some(k) => {
                        assert(r.rows[i].options_json == crate::importers::common::key_options(k));
                    },
                    None => {},
                }
            } else if proto == "telnet"@ {
                assert(r.rows[i].protocol == "telnet"@);
            } else {
                assert(r.rows[i].protocol == "serial"@);
            }
        }
    }
}

proof fn lemma_map_sessions_auth(st: MapState, ss: Seq<PuttyView>)
    requires
        forall|i: int| 0 <= i < st.rows.len() ==> putty_auth_ok(#[trigger] st.rows[i]),
    ensures
        forall|i: int| 0 <= i < map_sessions(st, ss).rows.len() ==> putty_auth_ok(#[trigger] map_sessions(st, ss).rows[i]),
    decreases ss.len(),
{
    if ss.len() > 0 {
        lemma_map_session_auth(st, ss[0]);
        lemma_map_sessions_auth(map_session(st, ss[0]), ss.drop_first());
        assert(map_sessions(st, ss) == map_sessions(map_session(st, ss[0]), ss.drop_first()));
    }
}

/// Every imported PuTTY SSH session authenticates through the agent (its
/// options empty) or with a key file (its options naming the key); a
/// password is never chosen for it. Telnet and serial rows record no
/// method.
pub proof fn lemma_putty_ssh_auth(ss: Seq<PuttyView>)
    ensures
        forall|i: int| 0 <= i < putty_import(ss).rows.len() ==> putty_auth_ok(#[trigger] putty_import(ss).rows[i]),
{
    lemma_map_sessions_auth(MapState { rows: Seq::empty(), forwards: Seq::empty(), warnings: Seq::empty(), idx: 0 }, ss);
}

/// A PuTTY SSH session with a host and no key file is imported as an SSH
/// session that authenticates through the agent.
pub proof fn lemma_putty_agent_without_key(st: MapState, s: PuttyView)
    requires
        putty_protocol(s) == "ssh"@,
        lower_seq(s.name) != lower_seq("Default Settings"@),
        s.name.len() > 0,
        nonempty(s.host) is Some,
        nonempty(s.public_key_file) is None,
    ensures
        map_session(st, s).rows.len() == st.rows.len() + 1,
        map_session(st, s).rows.last().protocol == "ssh"@,
        map_session(st, s).rows.last().auth_method == Some("agent"@),
        map_session(st, s).rows.last().options_json == "{}"@,
        map_session(st, s).rows.last().host == nonempty(s.host),
{
}

/// A PuTTY SSH or telnet session with a host becomes one row that connects
/// to that host, on its `PortNumber` (22 for SSH and 23 for telnet when
/// none fits in 16 bits), with its user name, under its name.
pub proof fn lemma_putty_row(st: MapState, s: PuttyView)
    requires
        putty_protocol(s) == "ssh"@ || putty_protocol(s) == "telnet"@,
        lower_seq(s.name) != lower_seq("Default Settings"@),
        s.name.len() > 0,
        nonempty(s.host) is Some,
    ensures
        map_session(st, s).rows.len() == st.rows.len() + 1,
        map_session(st, s).rows.take(st.rows.len() as int) == st.rows,
        ({
            let r = map_session(st, s).rows.last();
            &&& r.name == s.name
            &&& r.protocol == putty_protocol(s)
            &&& r.host == nonempty(s.host)
            &&& r.username == nonempty(s.username)
            &&& (s.port is Some && s.port.unwrap() <= 0xffff) ==> r.port == Some(s.port.unwrap() as u16)
            &&& (s.port is None || s.port.unwrap() > 0xffff) && putty_protocol(s) == "ssh"@ ==> r.port == Some(22u16)
            &&& (s.port is None || s.port.unwrap() > 0xffff) && putty_protocol(s) == "telnet"@ ==> r.port == Some(23u16)
        }),
{
    reveal_strlit("ssh");
    reveal_strlit("telnet");
    assert(map_session(st, s).rows.take(st.rows.len() as int) =~= st.rows);
}

/// `%XX` with two hex digits stands for the byte they spell, high digit
/// first; a `%` not followed by two hex digits is kept, and the bytes after
/// it are read on their own.
pub proof fn lemma_percent_escape(h: u8, l: u8, rest: Seq<u8>)
    ensures
        hex_byte(h) is Some && hex_byte(l) is Some ==> pct_decoded(seq![0x25u8, h, l] + rest) == seq![
            (hex_byte(h).unwrap() * 16 + hex_byte(l).unwrap()) as u8,
        ] + pct_decoded(rest),
        hex_byte(h) is None ==> pct_decoded(seq![0x25u8, h] + rest) == seq![0x25u8] + pct_decoded(seq![h] + rest),
{
    assert((seq![0x25u8, h, l] + rest).skip(3) =~= rest);
    assert((seq![0x25u8, h] + rest).skip(1) =~= seq![h] + rest);
}

} // verus!
