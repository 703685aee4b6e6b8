//! Backslash escapes in the `send` text of login-script steps.
use vstd::prelude::*;
use crate::text::{digit_value, to_chars, to_digit};

verus! {

/// The UTF-8 bytes of one character.
///
/// Trusted: `char::encode_utf8`, whose result is the UTF-8 encoding of the
/// character (stated with vstd's `encode_utf8`).
#[verifier::external_body]
pub(crate) fn char_utf8(c: char) -> (r: Vec<u8>)
    ensures
        r@ == vstd::utf8::encode_utf8(seq![c]),
{
    let mut buf = [0u8; 4];
    c.encode_utf8(&mut buf).as_bytes().to_vec()
}

/// Whether `c` is an ASCII hex digit (`char::is_ascii_hexdigit`).
pub open spec fn is_hex(c: char) -> bool {
    digit_value(c, 16) is Some
}

/// The byte a simple escape letter stands for.
pub open spec fn simple_escape(c: char) -> Option<u8> {
    if c == 'r' {
        Some(13u8)
    } else if c == 'n' {
        Some(10u8)
    } else if c == 't' {
        Some(9u8)
    } else if c == 'b' {
        Some(8u8)
    } else if c == 'e' {
        Some(0x1bu8)
    } else if c == '0' {
        Some(0u8)
    } else if c == '\\' {
        Some(0x5cu8)
    } else {
        None
    }
}

/// The bytes `s` stands for: `\r \n \t \b \e \0 \\` and `\xHH` decoded,
/// other characters UTF-8 encoded. A malformed `\x` (fewer than two hex
/// digits) is kept verbatim, the characters after it read as ordinary text;
/// an unknown escape keeps the backslash and the character; a final lone
/// backslash is kept.
pub open spec fn unescape(s: Seq<char>) -> Seq<u8>
    decreases s.len(),
{
    if s.len() == 0 {
        Seq::empty()
    } else if s[0] != '\\' {
        vstd::utf8::encode_utf8(seq![s[0]]) + unescape(s.skip(1))
    } else if s.len() == 1 {
        seq![0x5cu8]
    } else if simple_escape(s[1]) is Some {
        seq![simple_escape(s[1]).unwrap()] + unescape(s.skip(2))
    } else if s[1] == 'x' {
        if s.len() >= 4 && is_hex(s[2]) && is_hex(s[3]) {
            seq![(digit_value(s[2], 16).unwrap() * 16 + digit_value(s[3], 16).unwrap()) as u8]
                + unescape(s.skip(4))
        } else {
            seq![0x5cu8, 0x78u8] + unescape(s.skip(2))
        }
    } else {
        seq![0x5cu8] + vstd::utf8::encode_utf8(seq![s[1]]) + unescape(s.skip(2))
    }
}

fn append(out: &mut Vec<u8>, more: &Vec<u8>)
    ensures
        final(out)@ == old(out)@ + more@,
{
    let mut k: usize = 0;
    while k < more.len()
        invariant
            k <= more@.len(),
            out@ == old(out)@ + more@.take(k as int),
        decreases more.len() - k,
    {
        out.push(more[k]);
        assert(old(out)@ + more@.take(k as int).push(more@[k as int]) =~= old(out)@ + more@.take(
            k + 1,
        ));
        k = k + 1;
    }
    assert(more@.take(k as int) =~= more@);
}

/// Decodes the backslash escapes of a `send` payload into raw bytes.
pub fn decode_escapes(s: &str) -> (out: Vec<u8>)
    ensures
        out@ == unescape(s@),
{
    let v = to_chars(s);
    let n = v.len();
    let mut out: Vec<u8> = Vec::new();
    let mut i: usize = 0;
    assert(v@.skip(0) =~= v@);
    while i < n
        invariant
            n == v@.len(),
            v@ == s@,
            i <= n,
            unescape(s@) == out@ + unescape(v@.skip(i as int)),
        decreases n - i,
    {
        let ghost rest = v@.skip(i as int);
        let ghost before = out@;
        let c = v[i];
        assert(rest[0] == c);
        if c != '\\' {
            let b = char_utf8(c);
            append(&mut out, &b);
            assert(rest.skip(1) =~= v@.skip(i + 1));
            assert(before + (b@ + unescape(rest.skip(1))) =~= out@ + unescape(v@.skip(i + 1)));
            i = i + 1;
        } else if i + 1 == n {
            out.push(0x5c);
            assert(before + seq![0x5cu8] =~= out@ + unescape(v@.skip(i + 1)));
            i = i + 1;
        } else {
            let d = v[i + 1];
            assert(rest[1] == d);
            assert(rest.skip(2) =~= v@.skip(i + 2));
            let simple: Option<u8> = if d == 'r' {
                Some(13u8)
            } else if d == 'n' {
                Some(10u8)
            } else if d == 't' {
                Some(9u8)
            } else if d == 'b' {
                Some(8u8)
            } else if d == 'e' {
                Some(0x1bu8)
            } else if d == '0' {
                Some(0u8)
            } else if d == '\\' {
                Some(0x5cu8)
            } else {
                None
            };
            assert(simple == simple_escape(d));
            match simple {
                Some(x) => {
                    out.push(x);
                    assert(before + (seq![x] + unescape(rest.skip(2))) =~= out@ + unescape(
                        v@.skip(i + 2),
                    ));
                    i = i + 2;
                },
                None => {
                    if d == 'x' {
                        let h1 = if i + 2 < n {
                            to_digit(v[i + 2], 16)
                        } else {
                            None
                        };
                        match h1 {
                            Some(a) => {
                                assert(rest[2] == v@[i + 2]);
                                let h2 = if i + 3 < n {
                                    to_digit(v[i + 3], 16)
                                } else {
                                    None
                                };
                                match h2 {
                                    Some(b) => {
                                        assert(rest[3] == v@[i + 3]);
                                        assert(a < 16 && b < 16);
                                        let x = (a * 16 + b) as u8;
                                        out.push(x);
                                        assert(rest.skip(4) =~= v@.skip(i + 4));
                                        assert(before + (seq![x] + unescape(rest.skip(4))) =~= out@
                                            + unescape(v@.skip(i + 4)));
                                        i = i + 4;
                                    },
                                    None => {
                                        out.push(0x5c);
                                        out.push(0x78);
                                        assert(i + 3 < n ==> rest[3] == v@[i + 3]);
                                        assert(before + (seq![0x5cu8, 0x78u8] + unescape(
                                            rest.skip(2),
                                        )) =~= out@ + unescape(v@.skip(i + 2)));
                                        i = i + 2;
                                    },
                                }
                            },
                            None => {
                                out.push(0x5c);
                                out.push(0x78);
                                assert(i + 2 < n ==> rest[2] == v@[i + 2]);
                                assert(before + (seq![0x5cu8, 0x78u8] + unescape(rest.skip(2)))
                                    =~= out@ + unescape(v@.skip(i + 2)));
                                i = i + 2;
                            },
                        }
                    } else {
                        out.push(0x5c);
                        let b = char_utf8(d);
                        append(&mut out, &b);
                        assert(before + (seq![0x5cu8] + b@ + unescape(rest.skip(2))) =~= out@
                            + unescape(v@.skip(i + 2)));
                        i = i + 2;
                    }
                },
            }
        }
    }
    assert(out@ + unescape(v@.skip(n as int)) =~= out@) by {
        assert(v@.skip(n as int) =~= Seq::<char>::empty());
    }
    out
}

/// Each documented escape stands for its byte, wherever it occurs:
/// `\r` CR (13), `\n` LF (10), `\t` TAB (9), `\b` backspace (8), `\e` ESC
/// (27), `\0` NUL (0), `\\` a backslash (92); the text after it decodes on
/// its own.
pub proof fn lemma_escape_letters(rest: Seq<char>)
    ensures
        unescape(seq!['\\', 'r'] + rest) == seq![13u8] + unescape(rest),
        unescape(seq!['\\', 'n'] + rest) == seq![10u8] + unescape(rest),
        unescape(seq!['\\', 't'] + rest) == seq![9u8] + unescape(rest),
        unescape(seq!['\\', 'b'] + rest) == seq![8u8] + unescape(rest),
        unescape(seq!['\\', 'e'] + rest) == seq![27u8] + unescape(rest),
        unescape(seq!['\\', '0'] + rest) == seq![0u8] + unescape(rest),
        unescape(seq!['\\', '\\'] + rest) == seq![92u8] + unescape(rest),
{
    assert((seq!['\\', 'r'] + rest).skip(2) =~= rest);
    assert((seq!['\\', 'n'] + rest).skip(2) =~= rest);
    assert((seq!['\\', 't'] + rest).skip(2) =~= rest);
    assert((seq!['\\', 'b'] + rest).skip(2) =~= rest);
    assert((seq!['\\', 'e'] + rest).skip(2) =~= rest);
    assert((seq!['\\', '0'] + rest).skip(2) =~= rest);
    assert((seq!['\\', '\\'] + rest).skip(2) =~= rest);
}

/// `\x` with two hex digits stands for the byte they spell (high digit
/// first); with fewer it is kept as the two characters `\x`, and what
/// follows decodes on its own.
pub proof fn lemma_escape_hex(h: char, l: char, rest: Seq<char>)
    ensures
        is_hex(h) && is_hex(l) ==> unescape(seq!['\\', 'x', h, l] + rest) == seq![
            (digit_value(h, 16).unwrap() * 16 + digit_value(l, 16).unwrap()) as u8,
        ] + unescape(rest),
        !is_hex(h) ==> unescape(seq!['\\', 'x', h] + rest) == seq![92u8, 120u8] + unescape(seq![h] + rest),
{
    assert((seq!['\\', 'x', h, l] + rest).skip(4) =~= rest);
    assert((seq!['\\', 'x', h] + rest).skip(2) =~= seq![h] + rest);
}

/// A plain character (not a backslash) stands for its UTF-8 bytes.
pub proof fn lemma_plain_char(c: char, rest: Seq<char>)
    requires
        c != '\\',
    ensures
        unescape(seq![c] + rest) == vstd::utf8::encode_utf8(seq![c]) + unescape(rest),
{
    assert((seq![c] + rest).skip(1) =~= rest);
}

} // verus!
