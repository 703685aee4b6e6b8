//! Lower-case hexadecimal encoding of byte strings, as used to keep
//! encrypted blobs in the settings table.
use vstd::prelude::*;
use crate::text::{char_from_ascii, parse_uint, parse_uint_range};
use vstd::string::StringSliceAdditionalSpecFns;

verus! {

/// The lower-case hex digit for `d < 16`.
pub open spec fn hex_digit(d: nat) -> char {
    if d < 10 {
        (48 + d) as char
    } else {
        (87 + d) as char
    }
}

/// `b` written as two lower-case hex digits per byte.
pub open spec fn hex_chars(b: Seq<u8>) -> Seq<char>
    decreases b.len(),
{
    if b.len() == 0 {
        Seq::empty()
    } else {
        hex_chars(b.drop_last()) + seq![hex_digit((b.last() / 16) as nat), hex_digit((b.last() % 16) as nat)]
    }
}

/// The value of the two-byte chunk `b0 b1` read as a hex number by
/// `u8::from_str_radix` (non-ASCII bytes are never digits).
pub open spec fn hex_pair(b0: u8, b1: u8) -> Option<u8> {
    if b0 < 128 && b1 < 128 {
        match parse_uint(seq![b0 as char, b1 as char], 16, 255) {
            Some(v) => Some(v as u8),
            None => None,
        }
    } else {
        None
    }
}

/// Decodes `b` pair by pair; `None` when the length is odd or a pair fails.
pub open spec fn hex_decode_bytes(b: Seq<u8>) -> Option<Seq<u8>>
    decreases b.len(),
{
    if b.len() % 2 != 0 {
        None
    } else if b.len() == 0 {
        Some(Seq::empty())
    } else {
        match (hex_decode_bytes(b.subrange(0, b.len() - 2)), hex_pair(b[b.len() - 2], b.last())) {
            (Some(front), Some(v)) => Some(front.push(v)),
            _ => None,
        }
    }
}

/// Whether decoding the text with bytes `b` two characters at a time never
/// cuts a character: each pair the decoding reaches (all pairs before it
/// decoded) ends on a character boundary, that is, is not followed by a
/// UTF-8 continuation byte.
pub open spec fn pairs_on_boundaries(b: Seq<u8>) -> bool {
    forall|i: int|
        0 <= i && i + 2 < b.len() && i % 2 == 0 && #[trigger] hex_decode_bytes(b.subrange(0, i)) is Some
            ==> !(0x80 <= b[i + 2] < 0xc0)
}

fn hex_digit_char(d: u8) -> (c: char)
    requires
        d < 16,
    ensures
        c == hex_digit(d as nat),
{
    if d < 10 {
        char_from_ascii(48 + d as u32)
    } else {
        char_from_ascii(87 + d as u32)
    }
}

/// Hex-encodes `bytes` (two lower-case digits per byte).
pub fn hex_encode(bytes: &[u8]) -> (s: String)
    ensures
        s@ == hex_chars(bytes@),
{
    let mut v: Vec<char> = Vec::new();
    let mut i: usize = 0;
    while i < bytes.len()
        invariant
            i <= bytes@.len(),
            v@ == hex_chars(bytes@.take(i as int)),
        decreases bytes.len() - i,
    {
        let b = bytes[i];
        let hi = hex_digit_char(b / 16);
        let lo = hex_digit_char(b % 16);
        v.push(hi);
        v.push(lo);
        proof {
            let t = bytes@.take(i + 1);
            assert(t.drop_last() =~= bytes@.take(i as int));
            assert(t.last() == b);
        }
        i = i + 1;
    }
    assert(bytes@.take(bytes@.len() as int) =~= bytes@);
    crate::text::string_from_chars(&v)
}

fn decode_pair(b0: u8, b1: u8) -> (r: Option<u8>)
    ensures
        r == hex_pair(b0, b1),
{
    if b0 >= 128 || b1 >= 128 {
        return None;
    }
    let mut v: Vec<char> = Vec::new();
    v.push(char_from_ascii(b0 as u32));
    v.push(char_from_ascii(b1 as u32));
    assert(v@.subrange(0, 2) =~= seq![b0 as char, b1 as char]);
    match parse_uint_range(&v, 0, 2, 16, 255) {
        Some(x) => Some(x as u8),
        None => None,
    }
}

/// Decodes a hex string; `None` when the length is odd or a pair is not a
/// hex number.
pub fn hex_decode(s: &str) -> (r: Option<Vec<u8>>)
    requires
        pairs_on_boundaries(s.spec_bytes()),
    ensures
        r matches Some(v) ==> hex_decode_bytes(s.spec_bytes()) == Some(v@),
        r is None ==> hex_decode_bytes(s.spec_bytes()) is None,
{
    let b = s.as_bytes();
    let n = b.len();
    if n % 2 != 0 {
        return None;
    }
    let mut out: Vec<u8> = Vec::new();
    let mut i: usize = 0;
    while i < n
        invariant
            n == b@.len(),
            b@ == s.spec_bytes(),
            n % 2 == 0,
            i <= n,
            i % 2 == 0,
            hex_decode_bytes(b@.subrange(0, i as int)) == Some(out@),
        decreases n - i,
    {
        let ghost pre = b@.subrange(0, i as int);
        let ghost nxt = b@.subrange(0, i + 2);
        assert(nxt.subrange(0, nxt.len() - 2) =~= pre);
        match decode_pair(b[i], b[i + 1]) {
            Some(x) => {
                out.push(x);
                i = i + 2;
            },
            None => {
                proof {
                    lemma_decode_prefix_fails(b@, i + 2);
                }
                return None;
            },
        }
    }
    assert(b@.subrange(0, n as int) =~= b@);
    Some(out)
}

proof fn lemma_decode_prefix_fails(b: Seq<u8>, k: int)
    requires
        0 <= k <= b.len(),
        k % 2 == 0,
        b.len() % 2 == 0,
        hex_decode_bytes(b.subrange(0, k)) is None,
    ensures
        hex_decode_bytes(b) is None,
    decreases b.len() - k,
{
    if k < b.len() {
        let nxt = b.subrange(0, k + 2);
        assert(nxt.subrange(0, nxt.len() - 2) =~= b.subrange(0, k));
        lemma_decode_prefix_fails(b, k + 2);
    } else {
        assert(b.subrange(0, k) =~= b);
    }
}

/// Round-trip law: decoding the bytes of an encoding gives back the input.
pub proof fn lemma_hex_roundtrip(b: Seq<u8>)
    ensures
        hex_decode_bytes(vstd::utf8::encode_utf8(hex_chars(b))) == Some(b),
    decreases b.len(),
{
    lemma_hex_chars_ascii(b);
    if b.len() > 0 {
        let f = b.drop_last();
        lemma_hex_roundtrip(f);
        lemma_hex_chars_ascii(f);
        let x = b.last();
        let enc = vstd::utf8::encode_utf8(hex_chars(b));
        let encf = vstd::utf8::encode_utf8(hex_chars(f));
        assert(enc.len() == encf.len() + 2);
        assert(enc.subrange(0, enc.len() - 2) =~= encf) by {
            assert forall|k: int| 0 <= k < encf.len() implies enc[k] == encf[k] by {
                assert(hex_chars(b)[k] == hex_chars(f)[k]);
            }
        }
        let h = hex_digit((x / 16) as nat);
        let l = hex_digit((x % 16) as nat);
        assert(enc[enc.len() - 2] == h as u8);
        assert(enc.last() == l as u8);
        lemma_hex_pair_digits(x);
    } else {
        assert(vstd::utf8::encode_utf8(hex_chars(b)) =~= Seq::<u8>::empty()) by {
            assert(hex_chars(b) =~= Seq::<char>::empty());
            reveal_with_fuel(vstd::utf8::encode_utf8, 1);
        }
    }
}

/// The encoding is ASCII and its UTF-8 bytes are its characters.
proof fn lemma_hex_chars_ascii(b: Seq<u8>)
    ensures
        hex_chars(b).len() == 2 * b.len(),
        vstd::utf8::is_ascii_chars(hex_chars(b)),
        vstd::utf8::encode_utf8(hex_chars(b)) =~= Seq::new(
            hex_chars(b).len(),
            |k: int| hex_chars(b)[k] as u8,
        ),
{
    lemma_hex_chars_len(b);
    assert forall|k: int| 0 <= k < hex_chars(b).len() implies '\0' <= #[trigger] hex_chars(b)[k]
        <= '\u{7f}' by {
        lemma_hex_chars_index(b, k);
    }
    vstd::utf8::is_ascii_chars_encode_utf8(hex_chars(b));
}

proof fn lemma_hex_digit_value(d: nat)
    requires
        d < 16,
    ensures
        crate::text::digit_value(hex_digit(d), 16) == Some(d as u32),
        hex_digit(d) as u8 as char == hex_digit(d),
        ('0' <= hex_digit(d) <= '9') || ('a' <= hex_digit(d) <= 'f'),
{
}

proof fn lemma_hex_chars_index(b: Seq<u8>, k: int)
    requires
        0 <= k < 2 * b.len(),
    ensures
        hex_chars(b).len() == 2 * b.len(),
        (hex_chars(b)[k] as u32) < 128,
        ('0' <= hex_chars(b)[k] <= '9') || ('a' <= hex_chars(b)[k] <= 'f'),
    decreases b.len(),
{
    let f = b.drop_last();
    if b.len() > 0 {
        lemma_hex_digit_value((b.last() / 16) as nat);
        lemma_hex_digit_value((b.last() % 16) as nat);
        if k < 2 * f.len() {
            lemma_hex_chars_index(f, k);
        } else {
            lemma_hex_chars_len(f);
        }
    }
}

proof fn lemma_hex_chars_len(b: Seq<u8>)
    ensures
        hex_chars(b).len() == 2 * b.len(),
    decreases b.len(),
{
    if b.len() > 0 {
        lemma_hex_chars_len(b.drop_last());
    }
}

proof fn lemma_hex_pair_digits(x: u8)
    ensures
        hex_pair(hex_digit((x / 16) as nat) as u8, hex_digit((x % 16) as nat) as u8) == Some(x),
{
    let h = hex_digit((x / 16) as nat);
    let l = hex_digit((x % 16) as nat);
    let s = seq![h as u8 as char, l as u8 as char];
    assert(s =~= seq![h, l]);
    assert(s.drop_last() =~= seq![h]);
    assert(s.drop_last().drop_last() =~= Seq::<char>::empty());
    lemma_hex_digit_value((x / 16) as nat);
    lemma_hex_digit_value((x % 16) as nat);
    let t = s.drop_last();
    assert(t.len() == 1);
    assert(t.last() == h);
    assert(crate::text::digits_value(t.drop_last(), 16) == 0);
    assert(crate::text::digits_value(t, 16) == crate::text::digits_value(t.drop_last(), 16) * 16
        + (x / 16));
    assert(crate::text::digits_value(s.drop_last(), 16) == (x / 16));
    assert(crate::text::digits_value(s, 16) == (x / 16) * 16 + x % 16);
}

} // verus!
