//! Character-level text primitives shared by the parsers: whitespace
//! trimming, line splitting, ASCII case folding, substring search and
//! integer parsing, each with the meaning that Rust's `str` methods give it.
use vstd::prelude::*;

verus! {

// ---------------------------------------------------------------------------
// Conversions between `str`/`String` and character vectors
// ---------------------------------------------------------------------------

/// The characters of `s`, in order.
pub fn to_chars(s: &str) -> (v: Vec<char>)
    ensures
        v@ == s@,
{
    broadcast use vstd::string::axiom_spec_iter;

    let mut v: Vec<char> = Vec::new();
    for c in it: s.chars()
        invariant
            v@ == it.seq().take(it.index() as int),
            it.seq() == s@,
    {
        v.push(c);
    }
    v
}

/// A `String` holding exactly the characters `v[lo..hi]`.
#[verifier::external_body]
pub(crate) fn string_from_range(v: &Vec<char>, lo: usize, hi: usize) -> (s: String)
    requires
        lo <= hi <= v@.len(),
    ensures
        s@ == v@.subrange(lo as int, hi as int),
{
    v[lo..hi].iter().collect()
}

/// A `String` holding exactly the characters of `v`.
pub fn string_from_chars(v: &Vec<char>) -> (s: String)
    ensures
        s@ == v@,
{
    let s = string_from_range(v, 0, v.len());
    assert(v@.subrange(0, v@.len() as int) =~= v@);
    s
}

/// Appends one character to a `String`.
#[verifier::external_body]
pub(crate) fn push_char(s: &mut String, c: char)
    ensures
        final(s)@ == old(s)@.push(c),
{
    s.push(c)
}

/// Appends `t` to `s`.
pub fn push_str(s: &mut String, t: &str)
    ensures
        final(s)@ == old(s)@ + t@,
{
    s.append(t);
}

/// A fresh `String` equal to `t`.
pub fn owned(t: &str) -> (s: String)
    ensures
        s@ == t@,
{
    t.to_owned()
}

/// What `String::from_utf8_lossy` makes of a byte sequence: the decoded
/// characters, each invalid sequence replaced by U+FFFD.
pub uninterp spec fn utf8_lossy(b: Seq<u8>) -> Seq<char>;

/// What `String::from_utf8_lossy` gives: valid UTF-8 decoded as it is,
/// other bytes as `utf8_lossy` names them.
pub open spec fn lossy(b: Seq<u8>) -> Seq<char> {
    if vstd::utf8::valid_utf8(b) {
        vstd::utf8::decode_utf8(b)
    } else {
        utf8_lossy(b)
    }
}

/// The UTF-8 bytes of a text decode back to it.
pub proof fn lemma_lossy_of_text(t: Seq<char>)
    ensures
        lossy(vstd::utf8::encode_utf8(t)) == t,
{
    vstd::utf8::encode_utf8_valid_utf8(t);
    vstd::utf8::encode_utf8_decode_utf8(t);
}

/// Decodes bytes as UTF-8, replacing invalid sequences.
///
/// Trusted: `String::from_utf8_lossy`. Its result is named `utf8_lossy`;
/// for valid UTF-8 the documentation says the text is returned unchanged,
/// which is stated through vstd's `decode_utf8`.
#[verifier::external_body]
pub(crate) fn decode_lossy(b: &[u8]) -> (s: String)
    ensures
        s@ == utf8_lossy(b@),
        vstd::utf8::valid_utf8(b@) ==> s@ == vstd::utf8::decode_utf8(b@),
        s@ == lossy(b@),
{
    String::from_utf8_lossy(b).into_owned()
}

// ---------------------------------------------------------------------------
// Whitespace and trimming (Unicode `White_Space`, as `char::is_whitespace`)
// ---------------------------------------------------------------------------

/// Unicode `White_Space` property, as tested by `char::is_whitespace`.
pub open spec fn is_ws(c: char) -> bool {
    let u = c as u32;
    ||| 0x09 <= u <= 0x0d
    ||| u == 0x20
    ||| u == 0x85
    ||| u == 0xa0
    ||| u == 0x1680
    ||| 0x2000 <= u <= 0x200a
    ||| u == 0x2028
    ||| u == 0x2029
    ||| u == 0x202f
    ||| u == 0x205f
    ||| u == 0x3000
}

/// Executable whitespace test.
pub fn is_whitespace(c: char) -> (b: bool)
    ensures
        b == is_ws(c),
{
    let u = c as u32;
    (0x09 <= u && u <= 0x0d) || u == 0x20 || u == 0x85 || u == 0xa0 || u == 0x1680 || (0x2000
        <= u && u <= 0x200a) || u == 0x2028 || u == 0x2029 || u == 0x202f || u == 0x205f || u
        == 0x3000
}

/// `s` without its leading whitespace.
pub open spec fn trim_start(s: Seq<char>) -> Seq<char>
    decreases s.len(),
{
    if s.len() > 0 && is_ws(s[0]) {
        trim_start(s.drop_first())
    } else {
        s
    }
}

/// `s` without its trailing whitespace.
pub open spec fn trim_end(s: Seq<char>) -> Seq<char>
    decreases s.len(),
{
    if s.len() > 0 && is_ws(s.last()) {
        trim_end(s.drop_last())
    } else {
        s
    }
}

/// `s` without leading and trailing whitespace (`str::trim`).
pub open spec fn trim(s: Seq<char>) -> Seq<char> {
    trim_end(trim_start(s))
}

/// Bounds of `v[lo..hi]` with leading whitespace removed.
pub fn trim_start_range(v: &Vec<char>, lo: usize, hi: usize) -> (a: usize)
    requires
        lo <= hi <= v@.len(),
    ensures
        lo <= a <= hi,
        v@.subrange(a as int, hi as int) == trim_start(v@.subrange(lo as int, hi as int)),
{
    let mut i = lo;
    while i < hi && is_whitespace(v[i])
        invariant
            lo <= i <= hi <= v@.len(),
            trim_start(v@.subrange(lo as int, hi as int)) == trim_start(
                v@.subrange(i as int, hi as int),
            ),
        decreases hi - i,
    {
        assert(v@.subrange(i as int, hi as int).drop_first() =~= v@.subrange(i + 1, hi as int));
        i = i + 1;
    }
    i
}

/// Bounds of `v[lo..hi]` with trailing whitespace removed.
pub fn trim_end_range(v: &Vec<char>, lo: usize, hi: usize) -> (b: usize)
    requires
        lo <= hi <= v@.len(),
    ensures
        lo <= b <= hi,
        v@.subrange(lo as int, b as int) == trim_end(v@.subrange(lo as int, hi as int)),
{
    let mut j = hi;
    while j > lo && is_whitespace(v[j - 1])
        invariant
            lo <= j <= hi <= v@.len(),
            trim_end(v@.subrange(lo as int, hi as int)) == trim_end(
                v@.subrange(lo as int, j as int),
            ),
        decreases j - lo,
    {
        assert(v@.subrange(lo as int, j as int).drop_last() =~= v@.subrange(lo as int, j - 1));
        j = j - 1;
    }
    j
}

/// Bounds of `v[lo..hi]` trimmed on both sides.
pub fn trim_range(v: &Vec<char>, lo: usize, hi: usize) -> (r: (usize, usize))
    requires
        lo <= hi <= v@.len(),
    ensures
        lo <= r.0 <= r.1 <= hi,
        v@.subrange(r.0 as int, r.1 as int) == trim(v@.subrange(lo as int, hi as int)),
{
    let a = trim_start_range(v, lo, hi);
    let b = trim_end_range(v, a, hi);
    (a, b)
}

/// `s.trim()` as an owned string.
pub fn trim_str(s: &str) -> (r: String)
    ensures
        r@ == trim(s@),
{
    let v = to_chars(s);
    let (a, b) = trim_range(&v, 0, v.len());
    assert(v@.subrange(0, v@.len() as int) =~= v@);
    string_from_range(&v, a, b)
}

// ---------------------------------------------------------------------------
// Searching
// ---------------------------------------------------------------------------

/// Index of the first `c` in `s` at or after `from`, or `s.len()` when absent.
pub open spec fn find_from(s: Seq<char>, c: char, from: int) -> int
    decreases s.len() - from,
{
    if from >= s.len() {
        s.len() as int
    } else if s[from] == c {
        from
    } else {
        find_from(s, c, from + 1)
    }
}

/// Facts about `find_from`.
pub proof fn lemma_find_from(s: Seq<char>, c: char, from: int)
    requires
        0 <= from <= s.len(),
    ensures
        from <= find_from(s, c, from) <= s.len(),
        forall|k: int| from <= k < find_from(s, c, from) ==> s[k] != c,
        find_from(s, c, from) < s.len() ==> s[find_from(s, c, from)] == c,
    decreases s.len() - from,
{
    if from < s.len() && s[from] != c {
        lemma_find_from(s, c, from + 1);
    }
}

/// Position of the first `c` in `v[lo..hi]` (or `hi`).
pub fn find_char(v: &Vec<char>, c: char, lo: usize, hi: usize) -> (r: usize)
    requires
        lo <= hi <= v@.len(),
    ensures
        lo <= r <= hi,
        forall|k: int| lo <= k < r ==> v@[k] != c,
        r < hi ==> v@[r as int] == c,
        r == lo + find_from(v@.subrange(lo as int, hi as int), c, 0),
{
    let mut i = lo;
    while i < hi && v[i] != c
        invariant
            lo <= i <= hi <= v@.len(),
            forall|k: int| lo <= k < i ==> v@[k] != c,
            find_from(v@.subrange(lo as int, hi as int), c, 0) == find_from(
                v@.subrange(lo as int, hi as int),
                c,
                i - lo,
            ),
        decreases hi - i,
    {
        i = i + 1;
    }
    i
}

/// Position of the last `c` in `v[lo..hi]`, if any.
pub fn rfind_char(v: &Vec<char>, c: char, lo: usize, hi: usize) -> (r: Option<usize>)
    requires
        lo <= hi <= v@.len(),
    ensures
        r matches Some(k) ==> lo <= k < hi && v@[k as int] == c && forall|j: int|
            k < j < hi ==> v@[j] != c,
        r is None ==> forall|j: int| lo <= j < hi ==> v@[j] != c,
{
    let mut j = hi;
    while j > lo
        invariant
            lo <= j <= hi <= v@.len(),
            forall|k: int| j <= k < hi ==> v@[k] != c,
        decreases j - lo,
    {
        if v[j - 1] == c {
            return Some(j - 1);
        }
        j = j - 1;
    }
    None
}

/// Whether `needle` occurs in `hay` at position `i`.
pub open spec fn occurs_at(hay: Seq<char>, needle: Seq<char>, i: int) -> bool {
    0 <= i && i + needle.len() <= hay.len() && hay.subrange(i, i + needle.len()) == needle
}

/// Whether `needle` is a substring of `hay` (`str::contains`).
pub open spec fn contains(hay: Seq<char>, needle: Seq<char>) -> bool {
    exists|i: int| occurs_at(hay, needle, i)
}

/// Whether `v[lo..lo+n.len()]` equals `n`.
pub fn matches_at(v: &Vec<char>, n: &Vec<char>, lo: usize) -> (b: bool)
    requires
        lo <= v@.len(),
    ensures
        b == occurs_at(v@, n@, lo as int),
{
    let vl = v.len();
    if n.len() > vl - lo {
        return false;
    }
    let mut k: usize = 0;
    while k < n.len()
        invariant
            vl == v@.len(),
            lo + n@.len() <= v@.len(),
            k <= n@.len(),
            forall|j: int| 0 <= j < k ==> v@[lo + j] == n@[j],
        decreases n.len() - k,
    {
        if v[lo + k] != n[k] {
            assert(v@.subrange(lo as int, lo + n@.len())[k as int] != n@[k as int]);
            return false;
        }
        k = k + 1;
    }
    assert(v@.subrange(lo as int, lo + n@.len()) =~= n@);
    true
}

/// Substring search.
pub fn contains_seq(hay: &Vec<char>, needle: &Vec<char>) -> (b: bool)
    ensures
        b == contains(hay@, needle@),
{
    if needle.len() > hay.len() {
        return false;
    }
    let last = hay.len() - needle.len();
    let mut i: usize = 0;
    loop
        invariant_except_break
            i <= last,
            last + needle@.len() == hay@.len(),
            forall|j: int| 0 <= j < i ==> !occurs_at(hay@, needle@, j),
        ensures
            forall|j: int| 0 <= j <= last ==> !occurs_at(hay@, needle@, j),
        decreases last - i,
    {
        if matches_at(hay, needle, i) {
            return true;
        }
        if i == last {
            break;
        }
        i = i + 1;
    }
    assert forall|j: int| !occurs_at(hay@, needle@, j) by {
        if 0 <= j && j <= last {
        }
    }
    false
}

/// Whether `s` starts with `p`.
pub open spec fn starts_with(s: Seq<char>, p: Seq<char>) -> bool {
    p.len() <= s.len() && s.take(p.len() as int) == p
}

/// Whether `s` ends with `p`.
pub open spec fn ends_with(s: Seq<char>, p: Seq<char>) -> bool {
    p.len() <= s.len() && s.skip(s.len() - p.len()) == p
}

/// Whether `v[lo..hi]` starts with `p`.
pub fn range_starts_with(v: &Vec<char>, lo: usize, hi: usize, p: &Vec<char>) -> (b: bool)
    requires
        lo <= hi <= v@.len(),
    ensures
        b == starts_with(v@.subrange(lo as int, hi as int), p@),
{
    if p.len() > hi - lo {
        return false;
    }
    let mut k: usize = 0;
    while k < p.len()
        invariant
            lo + p@.len() <= hi <= v@.len(),
            k <= p@.len(),
            forall|j: int| 0 <= j < k ==> v@[lo + j] == p@[j],
        decreases p.len() - k,
    {
        if v[lo + k] != p[k] {
            assert(v@.subrange(lo as int, hi as int).take(p@.len() as int)[k as int] != p@[k as int]);
            return false;
        }
        k = k + 1;
    }
    assert(v@.subrange(lo as int, hi as int).take(p@.len() as int) =~= p@);
    true
}

/// Whether `v[lo..hi]` ends with `p`.
pub fn range_ends_with(v: &Vec<char>, lo: usize, hi: usize, p: &Vec<char>) -> (b: bool)
    requires
        lo <= hi <= v@.len(),
    ensures
        b == ends_with(v@.subrange(lo as int, hi as int), p@),
{
    if p.len() > hi - lo {
        return false;
    }
    let start = hi - p.len();
    let mut k: usize = 0;
    while k < p.len()
        invariant
            start + p@.len() == hi <= v@.len(),
            lo <= start,
            k <= p@.len(),
            forall|j: int| 0 <= j < k ==> v@[start + j] == p@[j],
        decreases p.len() - k,
    {
        if v[start + k] != p[k] {
            let ghost s = v@.subrange(lo as int, hi as int);
            assert(s.skip(s.len() - p@.len())[k as int] != p@[k as int]);
            return false;
        }
        k = k + 1;
    }
    let ghost s = v@.subrange(lo as int, hi as int);
    assert(s.skip(s.len() - p@.len()) =~= p@);
    true
}

/// Whether `v[lo..hi]` equals `p`.
pub fn range_eq(v: &Vec<char>, lo: usize, hi: usize, p: &Vec<char>) -> (b: bool)
    requires
        lo <= hi <= v@.len(),
    ensures
        b == (v@.subrange(lo as int, hi as int) == p@),
{
    if hi - lo != p.len() {
        return false;
    }
    let r = range_starts_with(v, lo, hi, p);
    assert(v@.subrange(lo as int, hi as int).take(p@.len() as int) =~= v@.subrange(
        lo as int,
        hi as int,
    ));
    r
}

/// Equality of two character sequences.
pub fn chars_eq(a: &Vec<char>, b: &Vec<char>) -> (r: bool)
    ensures
        r == (a@ == b@),
{
    let r = range_eq(a, 0, a.len(), b);
    assert(a@.subrange(0, a@.len() as int) =~= a@);
    r
}

// ---------------------------------------------------------------------------
// ASCII case folding
// ---------------------------------------------------------------------------

/// `char::to_ascii_lowercase`.
pub open spec fn lower(c: char) -> char {
    if 'A' <= c <= 'Z' {
        ((c as u32) + 32) as char
    } else {
        c
    }
}

/// `char::to_ascii_uppercase`.
pub open spec fn upper(c: char) -> char {
    if 'a' <= c <= 'z' {
        ((c as u32) - 32) as char
    } else {
        c
    }
}

/// `str::to_ascii_lowercase`.
pub open spec fn lower_seq(s: Seq<char>) -> Seq<char> {
    Seq::new(s.len(), |i: int| lower(s[i]))
}

/// Executable `lower`.
pub fn lower_char(c: char) -> (r: char)
    ensures
        r == lower(c),
{
    if 'A' <= c && c <= 'Z' {
        let u = (c as u32) + 32;
        let r = char_from_ascii(u);
        r
    } else {
        c
    }
}

/// Executable `upper`.
pub fn upper_char(c: char) -> (r: char)
    ensures
        r == upper(c),
{
    if 'a' <= c && c <= 'z' {
        let u = (c as u32) - 32;
        char_from_ascii(u)
    } else {
        c
    }
}

/// The character with code point `u`, for `u` in the ASCII range.
#[verifier::external_body]
pub(crate) fn char_from_ascii(u: u32) -> (c: char)
    requires
        u < 128,
    ensures
        c == u as char,
        c as u32 == u,
{
    char::from(u as u8)
}

/// Lower-cased copy of `v[lo..hi]`.
pub fn lower_range(v: &Vec<char>, lo: usize, hi: usize) -> (r: Vec<char>)
    requires
        lo <= hi <= v@.len(),
    ensures
        r@ == lower_seq(v@.subrange(lo as int, hi as int)),
{
    let mut r: Vec<char> = Vec::new();
    let mut i = lo;
    while i < hi
        invariant
            lo <= i <= hi <= v@.len(),
            r@ =~= lower_seq(v@.subrange(lo as int, i as int)),
        decreases hi - i,
    {
        let c = lower_char(v[i]);
        r.push(c);
        i = i + 1;
    }
    r
}

/// Lower-cased copy of a whole vector.
pub fn lower_vec(v: &Vec<char>) -> (r: Vec<char>)
    ensures
        r@ == lower_seq(v@),
{
    let r = lower_range(v, 0, v.len());
    assert(v@.subrange(0, v@.len() as int) =~= v@);
    r
}

// ---------------------------------------------------------------------------
// Lines (`str::lines`)
// ---------------------------------------------------------------------------

/// A line body without its terminating `\n`, with one `\r` before it removed.
pub open spec fn strip_cr(s: Seq<char>) -> Seq<char> {
    if s.len() > 0 && s.last() == '\r' {
        s.drop_last()
    } else {
        s
    }
}

/// The lines of `s` as `str::lines` yields them: split after each `\n`,
/// the `\n` (and a `\r` right before it) removed, no empty final line.
pub open spec fn lines(s: Seq<char>) -> Seq<Seq<char>>
    decreases s.len(),
{
    if s.len() == 0 {
        Seq::empty()
    } else {
        let i = find_from(s, '\n', 0);
        if i >= s.len() {
            seq![s]
        } else {
            if 0 <= i < s.len() {
                seq![strip_cr(s.take(i))] + lines(s.skip(i + 1))
            } else {
                Seq::empty()
            }
        }
    }
}

/// Locates the next line of `v` starting at `pos`: returns the bounds of
/// the line body and the position where the following line starts.
pub fn next_line(v: &Vec<char>, pos: usize) -> (r: (usize, usize, usize))
    requires
        pos < v@.len(),
    ensures
        pos <= r.0 <= r.1 <= r.2 <= v@.len(),
        r.0 == pos,
        r.2 > pos,
        lines(v@.skip(pos as int)) == seq![v@.subrange(r.0 as int, r.1 as int)] + lines(
            v@.skip(r.2 as int),
        ),
{
    let n = v.len();
    let i = find_char(v, '\n', pos, n);
    let ghost s = v@.skip(pos as int);
    assert(v@.subrange(pos as int, n as int) =~= s);
    proof {
        lemma_find_from(s, '\n', 0);
    }
    if i == n {
        assert(v@.skip(n as int) =~= Seq::<char>::empty());
        (pos, n, n)
    } else {
        let mut e = i;
        if e > pos && v[e - 1] == '\r' {
            e = e - 1;
        }
        assert(s.skip(i - pos + 1) =~= v@.skip(i + 1));
        assert(strip_cr(s.take(i - pos)) =~= v@.subrange(pos as int, e as int));
        (pos, e, i + 1)
    }
}

// ---------------------------------------------------------------------------
// Integer parsing (`str::parse` / `from_str_radix` for unsigned types)
// ---------------------------------------------------------------------------

/// Value of a digit character in `radix` (10 or 16), as `char::to_digit`.
pub open spec fn digit_value(c: char, radix: u32) -> Option<u32> {
    if '0' <= c <= '9' {
        Some((c as u32 - '0' as u32) as u32)
    } else if radix == 16 && 'a' <= c <= 'f' {
        Some((c as u32 - 'a' as u32 + 10) as u32)
    } else if radix == 16 && 'A' <= c <= 'F' {
        Some((c as u32 - 'A' as u32 + 10) as u32)
    } else {
        None
    }
}

/// Executable `digit_value`.
pub fn to_digit(c: char, radix: u32) -> (r: Option<u32>)
    ensures
        r == digit_value(c, radix),
{
    if '0' <= c && c <= '9' {
        Some(c as u32 - '0' as u32)
    } else if radix == 16 && 'a' <= c && c <= 'f' {
        Some(c as u32 - 'a' as u32 + 10)
    } else if radix == 16 && 'A' <= c && c <= 'F' {
        Some(c as u32 - 'A' as u32 + 10)
    } else {
        None
    }
}

/// Whether every character of `s` is a digit in `radix`.
pub open spec fn all_digits(s: Seq<char>, radix: u32) -> bool {
    forall|i: int| 0 <= i < s.len() ==> (#[trigger] digit_value(s[i], radix)) is Some
}

/// The number written by the digits `s` in `radix`.
pub open spec fn digits_value(s: Seq<char>, radix: u32) -> nat
    decreases s.len(),
{
    if s.len() == 0 {
        0
    } else {
        let d = match digit_value(s.last(), radix) {
            Some(d) => d as nat,
            None => 0,
        };
        digits_value(s.drop_last(), radix) * (radix as nat) + d
    }
}

/// Unsigned parse: an optional `+`, then one or more digits, value at most
/// `max`; anything else is rejected.
pub open spec fn parse_uint(s: Seq<char>, radix: u32, max: nat) -> Option<nat> {
    let body = if s.len() > 0 && s[0] == '+' {
        s.drop_first()
    } else {
        s
    };
    if body.len() == 0 || !all_digits(body, radix) {
        None
    } else if digits_value(body, radix) > max {
        None
    } else {
        Some(digits_value(body, radix))
    }
}

proof fn lemma_digits_value_monotone(s: Seq<char>, radix: u32, k: int)
    requires
        0 <= k <= s.len(),
        radix == 10 || radix == 16,
        all_digits(s, radix),
    ensures
        digits_value(s.take(k), radix) <= digits_value(s, radix),
    decreases s.len() - k,
{
    if k < s.len() {
        lemma_digits_value_monotone(s, radix, k + 1);
        let t = s.take(k + 1);
        assert(t.drop_last() =~= s.take(k));
        assert(digit_value(t.last(), radix) is Some);
        assert(digits_value(t, radix) == digits_value(s.take(k), radix) * (radix as nat) + (
        match digit_value(t.last(), radix) {
            Some(d) => d as nat,
            None => 0,
        }));
        assert(digits_value(s.take(k), radix) <= digits_value(s.take(k), radix) * (
        radix as nat)) by (nonlinear_arith)
            requires
                radix >= 1,
        ;
    } else {
        assert(s.take(k) =~= s);
    }
}

/// Parses `v[lo..hi]` as an unsigned integer in `radix` bounded by `max`.
pub fn parse_uint_range(v: &Vec<char>, lo: usize, hi: usize, radix: u32, max: u64) -> (r: Option<
    u64,
>)
    requires
        lo <= hi <= v@.len(),
        radix == 10 || radix == 16,
        max < 0x1_0000_0000,
    ensures
        r matches Some(x) ==> parse_uint(v@.subrange(lo as int, hi as int), radix, max as nat)
            == Some(x as nat),
        r is None ==> parse_uint(v@.subrange(lo as int, hi as int), radix, max as nat) is None,
{
    let ghost s = v@.subrange(lo as int, hi as int);
    let mut start = lo;
    if lo < hi && v[lo] == '+' {
        start = lo + 1;
    }
    let ghost body = v@.subrange(start as int, hi as int);
    assert(body =~= (if s.len() > 0 && s[0] == '+' {
        s.drop_first()
    } else {
        s
    }));
    if start == hi {
        return None;
    }
    let mut acc: u64 = 0;
    let mut i = start;
    while i < hi
        invariant
            lo <= start <= i <= hi <= v@.len(),
            radix == 10 || radix == 16,
            max < 0x1_0000_0000,
            body == v@.subrange(start as int, hi as int),
            s == v@.subrange(lo as int, hi as int),
            body == (if s.len() > 0 && s[0] == '+' {
                s.drop_first()
            } else {
                s
            }),
            body.len() > 0,
            all_digits(v@.subrange(start as int, i as int), radix),
            acc as nat == digits_value(v@.subrange(start as int, i as int), radix),
            acc <= max,
        decreases hi - i,
    {
        let d = to_digit(v[i], radix);
        match d {
            None => {
                assert(body[i - start] == v@[i as int]);
                assert(digit_value(body[i - start], radix) is None);
                assert(!all_digits(body, radix));
                assert(parse_uint(s, radix, max as nat) is None);
                return None;
            },
            Some(d) => {
                let ghost pre = v@.subrange(start as int, i as int);
                let ghost nxt = v@.subrange(start as int, i + 1);
                assert(nxt.drop_last() =~= pre);
                assert(nxt.last() == v@[i as int]);
                assert(d < 16) by {
                    assert(digit_value(v@[i as int], radix) == Some(d));
                }
                assert(acc * (radix as u64) + (d as u64) < 0x1_0000_0000 * 16 + 16) by (
                nonlinear_arith)
                    requires
                        acc < 0x1_0000_0000,
                        radix <= 16,
                        d < 16,
                ;
                let nv: u64 = acc * (radix as u64) + (d as u64);
                assert(forall|j: int|
                    0 <= j < nxt.len() ==> (#[trigger] digit_value(nxt[j], radix)) is Some) by {
                    assert forall|j: int| 0 <= j < nxt.len() implies (#[trigger] digit_value(
                        nxt[j],
                        radix,
                    )) is Some by {
                        if j < pre.len() {
                            assert(nxt[j] == pre[j]);
                        }
                    }
                }
                if nv > max {
                    proof {
                        assert(body.take(i + 1 - start) =~= nxt);
                        lemma_all_digits_or_none(body, radix, max as nat, i + 1 - start);
                    }
                    return None;
                }
                acc = nv;
                i = i + 1;
            },
        }
    }
    assert(v@.subrange(start as int, i as int) =~= body);
    Some(acc)
}

proof fn lemma_all_digits_or_none(body: Seq<char>, radix: u32, max: nat, k: int)
    requires
        0 <= k <= body.len(),
        radix == 10 || radix == 16,
        all_digits(body.take(k), radix),
        digits_value(body.take(k), radix) > max,
    ensures
        !all_digits(body, radix) || digits_value(body, radix) > max,
{
    if all_digits(body, radix) {
        lemma_digits_value_monotone(body, radix, k);
    }
}

/// `s.parse::<u64>()` for a character range.
pub fn parse_u64_range(v: &Vec<char>, lo: usize, hi: usize) -> (r: Option<u64>)
    requires
        lo <= hi <= v@.len(),
    ensures
        r matches Some(x) ==> parse_uint(v@.subrange(lo as int, hi as int), 10, u64::MAX as nat) == Some(
            x as nat,
        ),
        r is None ==> parse_uint(v@.subrange(lo as int, hi as int), 10, u64::MAX as nat) is None,
{
    let ghost s = v@.subrange(lo as int, hi as int);
    let ghost max = u64::MAX as nat;
    let mut start = lo;
    if lo < hi && v[lo] == '+' {
        start = lo + 1;
    }
    let ghost body = v@.subrange(start as int, hi as int);
    assert(body =~= (if s.len() > 0 && s[0] == '+' {
        s.drop_first()
    } else {
        s
    }));
    if start == hi {
        return None;
    }
    let mut acc: u64 = 0;
    let mut i = start;
    while i < hi
        invariant
            lo <= start <= i <= hi <= v@.len(),
            body == v@.subrange(start as int, hi as int),
            s == v@.subrange(lo as int, hi as int),
            body == (if s.len() > 0 && s[0] == '+' {
                s.drop_first()
            } else {
                s
            }),
            body.len() > 0,
            max == u64::MAX as nat,
            all_digits(v@.subrange(start as int, i as int), 10),
            acc as nat == digits_value(v@.subrange(start as int, i as int), 10),
        decreases hi - i,
    {
        let d = to_digit(v[i], 10);
        match d {
            None => {
                assert(body[i - start] == v@[i as int]);
                assert(digit_value(body[i - start], 10) is None);
                assert(!all_digits(body, 10));
                return None;
            },
            Some(d) => {
                let ghost pre = v@.subrange(start as int, i as int);
                let ghost nxt = v@.subrange(start as int, i + 1);
                assert(nxt.drop_last() =~= pre);
                assert(nxt.last() == v@[i as int]);
                assert(d < 10) by {
                    assert(digit_value(v@[i as int], 10) == Some(d));
                }
                assert(forall|j: int|
                    0 <= j < nxt.len() ==> (#[trigger] digit_value(nxt[j], 10)) is Some) by {
                    assert forall|j: int| 0 <= j < nxt.len() implies (#[trigger] digit_value(
                        nxt[j],
                        10,
                    )) is Some by {
                        if j < pre.len() {
                            assert(nxt[j] == pre[j]);
                        }
                    }
                }
                assert(digits_value(nxt, 10) == digits_value(pre, 10) * 10 + d as nat);
                if acc > (u64::MAX - d as u64) / 10 {
                    proof {
                        assert(acc as nat * 10 + d as nat > max) by (nonlinear_arith)
                            requires
                                acc > (u64::MAX - d as u64) / 10,
                                d < 10,
                                max == u64::MAX as nat,
                        ;
                        assert(body.take(i + 1 - start) =~= nxt);
                        lemma_all_digits_or_none(body, 10, max, i + 1 - start);
                    }
                    return None;
                }
                assert(acc * 10 + d as u64 <= u64::MAX) by (nonlinear_arith)
                    requires
                        acc <= (u64::MAX - d as u64) / 10,
                        d < 10,
                ;
                acc = acc * 10 + d as u64;
                i = i + 1;
            },
        }
    }
    assert(v@.subrange(start as int, i as int) =~= body);
    Some(acc)
}

/// `s.parse::<u16>()` for a character range, as an `Option`.
pub fn parse_u16_range(v: &Vec<char>, lo: usize, hi: usize) -> (r: Option<u16>)
    requires
        lo <= hi <= v@.len(),
    ensures
        r matches Some(x) ==> parse_uint(v@.subrange(lo as int, hi as int), 10, 0xffff) == Some(
            x as nat,
        ),
        r is None ==> parse_uint(v@.subrange(lo as int, hi as int), 10, 0xffff) is None,
{
    match parse_uint_range(v, lo, hi, 10, 0xffff) {
        Some(x) => Some(x as u16),
        None => None,
    }
}

/// `s.parse::<u32>()` / `u32::from_str_radix` for a character range.
pub fn parse_u32_range(v: &Vec<char>, lo: usize, hi: usize, radix: u32) -> (r: Option<u32>)
    requires
        lo <= hi <= v@.len(),
        radix == 10 || radix == 16,
    ensures
        r matches Some(x) ==> parse_uint(v@.subrange(lo as int, hi as int), radix, 0xffff_ffff)
            == Some(x as nat),
        r is None ==> parse_uint(v@.subrange(lo as int, hi as int), radix, 0xffff_ffff) is None,
{
    match parse_uint_range(v, lo, hi, radix, 0xffff_ffff) {
        Some(x) => Some(x as u32),
        None => None,
    }
}

// ---------------------------------------------------------------------------
// Substring search, replacement and character trimming
// ---------------------------------------------------------------------------

/// Index of the first occurrence of `needle` in `hay` at or after `from`.
pub open spec fn find_seq_from(hay: Seq<char>, needle: Seq<char>, from: int) -> Option<int>
    decreases hay.len() + 1 - from,
{
    if from < 0 || from + needle.len() > hay.len() {
        None
    } else if occurs_at(hay, needle, from) {
        Some(from)
    } else {
        find_seq_from(hay, needle, from + 1)
    }
}

/// Index of the first occurrence of `needle` in `hay` (`str::find`).
pub open spec fn find_seq(hay: Seq<char>, needle: Seq<char>) -> Option<int> {
    find_seq_from(hay, needle, 0)
}

proof fn lemma_find_seq_from_bounds(hay: Seq<char>, needle: Seq<char>, from: int)
    ensures
        find_seq_from(hay, needle, from) matches Some(k) ==> from <= k && k + needle.len()
            <= hay.len(),
    decreases hay.len() + 1 - from,
{
    if !(from < 0 || from + needle.len() > hay.len()) && !occurs_at(hay, needle, from) {
        lemma_find_seq_from_bounds(hay, needle, from + 1);
    }
}

/// First occurrence of `needle` in `v[lo..hi]`, as an index into `v`.
pub fn find_in_range(v: &Vec<char>, lo: usize, hi: usize, needle: &Vec<char>) -> (r: Option<usize>)
    requires
        lo <= hi <= v@.len(),
    ensures
        r matches Some(k) ==> find_seq(v@.subrange(lo as int, hi as int), needle@) == Some(k - lo)
            && lo <= k && k + needle@.len() <= hi,
        r is None ==> find_seq(v@.subrange(lo as int, hi as int), needle@) is None,
{
    let ghost h = v@.subrange(lo as int, hi as int);
    if needle.len() > hi - lo {
        return None;
    }
    let last = hi - needle.len();
    let mut i = lo;
    loop
        invariant_except_break
            lo <= i <= last,
            last + needle@.len() == hi <= v@.len(),
            h == v@.subrange(lo as int, hi as int),
            find_seq(h, needle@) == find_seq_from(h, needle@, i - lo),
        ensures
            find_seq(h, needle@) is None,
        decreases last - i,
    {
        let hit = range_starts_with(v, i, hi, needle);
        proof {
            assert(h.subrange(i - lo, i - lo + needle@.len()) =~= v@.subrange(i as int, hi as int).take(
                needle@.len() as int,
            ));
        }
        if hit {
            proof {
                lemma_find_seq_from_bounds(h, needle@, i - lo);
            }
            return Some(i);
        }
        if i == last {
            assert(find_seq_from(h, needle@, i - lo + 1) is None);
            break;
        }
        i = i + 1;
    }
    None
}

/// `s` with every non-overlapping occurrence of `pat` (scanning left to
/// right) replaced by `rep` (`str::replace`, for a non-empty `pat`).
pub open spec fn replace_all(s: Seq<char>, pat: Seq<char>, rep: Seq<char>) -> Seq<char>
    decreases s.len(),
{
    if s.len() == 0 || pat.len() == 0 {
        s
    } else if starts_with(s, pat) {
        rep + replace_all(s.skip(pat.len() as int), pat, rep)
    } else {
        seq![s[0]] + replace_all(s.skip(1), pat, rep)
    }
}

/// Replaces every occurrence of `pat` in `v[lo..hi]` by `rep`.
pub fn replace_range(v: &Vec<char>, lo: usize, hi: usize, pat: &Vec<char>, rep: &Vec<char>) -> (r: Vec<char>)
    requires
        lo <= hi <= v@.len(),
        pat@.len() > 0,
    ensures
        r@ == replace_all(v@.subrange(lo as int, hi as int), pat@, rep@),
{
    let mut out: Vec<char> = Vec::new();
    let mut i = lo;
    while i < hi
        invariant
            lo <= i <= hi <= v@.len(),
            pat@.len() > 0,
            replace_all(v@.subrange(lo as int, hi as int), pat@, rep@) == out@ + replace_all(
                v@.subrange(i as int, hi as int),
                pat@,
                rep@,
            ),
        decreases hi - i,
    {
        let ghost before = out@;
        let ghost rest = v@.subrange(i as int, hi as int);
        if range_starts_with(v, i, hi, pat) {
            let mut k: usize = 0;
            while k < rep.len()
                invariant
                    k <= rep@.len(),
                    out@ == before + rep@.take(k as int),
                decreases rep.len() - k,
            {
                out.push(rep[k]);
                assert(before + rep@.take(k as int).push(rep@[k as int]) =~= before + rep@.take(
                    k + 1,
                ));
                k = k + 1;
            }
            assert(rep@.take(k as int) =~= rep@);
            assert(rest.skip(pat@.len() as int) =~= v@.subrange(i + pat@.len(), hi as int));
            assert(before + (rep@ + replace_all(rest.skip(pat@.len() as int), pat@, rep@)) =~= out@
                + replace_all(v@.subrange(i + pat@.len(), hi as int), pat@, rep@));
            i = i + pat.len();
        } else {
            out.push(v[i]);
            assert(rest.skip(1) =~= v@.subrange(i + 1, hi as int));
            assert(before + (seq![rest[0]] + replace_all(rest.skip(1), pat@, rep@)) =~= out@
                + replace_all(v@.subrange(i + 1, hi as int), pat@, rep@));
            i = i + 1;
        }
    }
    assert(v@.subrange(i as int, hi as int) =~= Seq::<char>::empty());
    assert(out@ + Seq::<char>::empty() =~= out@);
    out
}

/// `s` without any leading `c` (`trim_start_matches(c)`).
pub open spec fn trim_start_char(s: Seq<char>, c: char) -> Seq<char>
    decreases s.len(),
{
    if s.len() > 0 && s[0] == c {
        trim_start_char(s.drop_first(), c)
    } else {
        s
    }
}

/// `s` without any trailing `c` (`trim_end_matches(c)`).
pub open spec fn trim_end_char(s: Seq<char>, c: char) -> Seq<char>
    decreases s.len(),
{
    if s.len() > 0 && s.last() == c {
        trim_end_char(s.drop_last(), c)
    } else {
        s
    }
}

/// `s` without leading or trailing `c` (`trim_matches(c)`).
pub open spec fn trim_char(s: Seq<char>, c: char) -> Seq<char> {
    trim_end_char(trim_start_char(s, c), c)
}

/// Bounds of `v[lo..hi]` with leading `c` removed.
pub fn trim_start_char_range(v: &Vec<char>, lo: usize, hi: usize, c: char) -> (a: usize)
    requires
        lo <= hi <= v@.len(),
    ensures
        lo <= a <= hi,
        v@.subrange(a as int, hi as int) == trim_start_char(v@.subrange(lo as int, hi as int), c),
{
    let mut i = lo;
    while i < hi && v[i] == c
        invariant
            lo <= i <= hi <= v@.len(),
            trim_start_char(v@.subrange(lo as int, hi as int), c) == trim_start_char(
                v@.subrange(i as int, hi as int),
                c,
            ),
        decreases hi - i,
    {
        assert(v@.subrange(i as int, hi as int).drop_first() =~= v@.subrange(i + 1, hi as int));
        i = i + 1;
    }
    i
}

/// Bounds of `v[lo..hi]` with trailing `c` removed.
pub fn trim_end_char_range(v: &Vec<char>, lo: usize, hi: usize, c: char) -> (b: usize)
    requires
        lo <= hi <= v@.len(),
    ensures
        lo <= b <= hi,
        v@.subrange(lo as int, b as int) == trim_end_char(v@.subrange(lo as int, hi as int), c),
{
    let mut j = hi;
    while j > lo && v[j - 1] == c
        invariant
            lo <= j <= hi <= v@.len(),
            trim_end_char(v@.subrange(lo as int, hi as int), c) == trim_end_char(
                v@.subrange(lo as int, j as int),
                c,
            ),
        decreases j - lo,
    {
        assert(v@.subrange(lo as int, j as int).drop_last() =~= v@.subrange(lo as int, j - 1));
        j = j - 1;
    }
    j
}

/// Whether `v[lo..hi]` equals the literal `lit`.
pub fn range_is(v: &Vec<char>, lo: usize, hi: usize, lit: &str) -> (b: bool)
    requires
        lo <= hi <= v@.len(),
    ensures
        b == (v@.subrange(lo as int, hi as int) == lit@),
{
    range_eq(v, lo, hi, &to_chars(lit))
}

/// Whether `s` equals the literal `lit`.
pub fn str_is(s: &str, lit: &str) -> (b: bool)
    ensures
        b == (s@ == lit@),
{
    chars_eq(&to_chars(s), &to_chars(lit))
}

/// Index of the last `c` in `s`, if any.
pub open spec fn last_index(s: Seq<char>, c: char) -> Option<int>
    decreases s.len(),
{
    if s.len() == 0 {
        None
    } else if s.last() == c {
        Some(s.len() - 1)
    } else {
        last_index(s.drop_last(), c)
    }
}

proof fn lemma_last_index(s: Seq<char>, c: char, k: Option<int>)
    requires
        k matches Some(j) ==> 0 <= j < s.len() && s[j] == c && forall|m: int|
            j < m < s.len() ==> s[m] != c,
        k is None ==> forall|m: int| 0 <= m < s.len() ==> s[m] != c,
    ensures
        last_index(s, c) == k,
    decreases s.len(),
{
    if s.len() > 0 && s.last() != c {
        let t = s.drop_last();
        if let Some(j) = k {
            assert(j < s.len() - 1);
        }
        lemma_last_index(t, c, k);
    }
}

/// Position of the last `c` in `v[lo..hi]`, relative to `lo`.
pub fn last_index_in(v: &Vec<char>, c: char, lo: usize, hi: usize) -> (r: Option<usize>)
    requires
        lo <= hi <= v@.len(),
    ensures
        r matches Some(k) ==> lo <= k < hi && last_index(v@.subrange(lo as int, hi as int), c)
            == Some(k - lo),
        r is None ==> last_index(v@.subrange(lo as int, hi as int), c) is None,
{
    let r = rfind_char(v, c, lo, hi);
    proof {
        let s = v@.subrange(lo as int, hi as int);
        match r {
            Some(k) => {
                assert forall|m: int| k - lo < m < s.len() implies s[m] != c by {
                    assert(s[m] == v@[lo + m]);
                }
                lemma_last_index(s, c, Some(k - lo));
            },
            None => {
                assert forall|m: int| 0 <= m < s.len() implies s[m] != c by {
                    assert(s[m] == v@[lo + m]);
                }
                lemma_last_index(s, c, None);
            },
        }
    }
    r
}

/// The pieces of `s` between occurrences of `c` (`str::split(c)`); always
/// at least one piece.
pub open spec fn split_pieces(s: Seq<char>, c: char) -> Seq<Seq<char>>
    decreases s.len(),
{
    let i = find_from(s, c, 0);
    if 0 <= i < s.len() {
        seq![s.take(i)] + split_pieces(s.skip(i + 1), c)
    } else {
        seq![s]
    }
}

/// The pieces of `v[lo..hi]` between occurrences of `c`, as ranges into `v`.
pub open spec fn range_views(v: Seq<char>, r: Seq<(usize, usize)>) -> Seq<Seq<char>> {
    Seq::new(r.len(), |k: int| v.subrange(r[k].0 as int, r[k].1 as int))
}

/// Splits `v[lo..hi]` at each `c` (`str::split(c)`), giving each piece's range.
pub fn split_ranges(v: &Vec<char>, lo: usize, hi: usize, c: char) -> (r: Vec<(usize, usize)>)
    requires
        lo <= hi <= v@.len(),
    ensures
        range_views(v@, r@) == split_pieces(v@.subrange(lo as int, hi as int), c),
        forall|k: int| 0 <= k < r@.len() ==> lo <= #[trigger] r@[k].0 <= r@[k].1 <= hi,
{
    let mut r: Vec<(usize, usize)> = Vec::new();
    let mut pos = lo;
    assert(range_views(v@, r@) =~= Seq::<Seq<char>>::empty());
    loop
        invariant_except_break
            lo <= pos <= hi <= v@.len(),
            split_pieces(v@.subrange(lo as int, hi as int), c) == range_views(v@, r@) + split_pieces(
                v@.subrange(pos as int, hi as int),
                c,
            ),
            forall|k: int| 0 <= k < r@.len() ==> lo <= #[trigger] r@[k].0 <= r@[k].1 <= hi,
        ensures
            range_views(v@, r@) == split_pieces(v@.subrange(lo as int, hi as int), c),
            forall|k: int| 0 <= k < r@.len() ==> lo <= #[trigger] r@[k].0 <= r@[k].1 <= hi,
        decreases hi - pos,
    {
        let i = find_char(v, c, pos, hi);
        let ghost s = v@.subrange(pos as int, hi as int);
        let ghost piece = v@.subrange(pos as int, i as int);
        let ghost old_r = r@;
        proof {
            lemma_find_from(s, c, 0);
            if i < hi {
                assert(s.take(i - pos) =~= piece);
                assert(s.skip(i - pos + 1) =~= v@.subrange(i + 1, hi as int));
                assert(split_pieces(s, c) =~= seq![piece] + split_pieces(v@.subrange(i + 1, hi as int), c));
            } else {
                assert(s =~= piece);
                assert(split_pieces(s, c) =~= seq![piece]);
            }
        }
        r.push((pos, i));
        assert(range_views(v@, r@) =~= range_views(v@, old_r).push(piece));
        if i == hi {
            assert(range_views(v@, r@) =~= range_views(v@, old_r) + split_pieces(s, c));
            break;
        }
        assert(range_views(v@, old_r) + split_pieces(s, c) =~= range_views(v@, r@) + split_pieces(
            v@.subrange(i + 1, hi as int),
            c,
        ));
        pos = i + 1;
    }
    r
}

/// Concatenation of three strings into a fresh `String`.
pub fn concat3(a: &str, b: &str, c: &str) -> (r: String)
    ensures
        r@ == a@ + b@ + c@,
{
    let mut r = owned(a);
    push_str(&mut r, b);
    push_str(&mut r, c);
    r
}

/// Concatenation of five strings into a fresh `String`.
pub fn concat5(a: &str, b: &str, c: &str, d: &str, e: &str) -> (r: String)
    ensures
        r@ == a@ + b@ + c@ + d@ + e@,
{
    let mut r = concat3(a, b, c);
    push_str(&mut r, d);
    push_str(&mut r, e);
    r
}

} // verus!
