//! Session-log formats, log file naming and size-based rotation.
use vstd::prelude::*;
use crate::text::{char_from_ascii, string_from_chars, to_chars};

verus! {

/// How terminal output is written to a session log.
#[derive(Debug, Clone, Copy, PartialEq, Eq, Structural)]
pub enum LogFormat {
    /// Escape sequences and most control bytes stripped.
    Plain,
    /// The byte stream verbatim.
    Raw,
}

impl LogFormat {
    /// The persisted name of the format.
    pub fn as_str(self) -> (r: &'static str)
        ensures
            r@ == (match self {
                LogFormat::Plain => "plain"@,
                LogFormat::Raw => "raw"@,
            }),
    {
        match self {
            LogFormat::Plain => "plain",
            LogFormat::Raw => "raw",
        }
    }

    /// Parses a persisted name: `"raw"` is raw, anything else plain.
    pub fn parse(s: &str) -> (r: LogFormat)
        ensures
            r == (if s@ == "raw"@ {
                LogFormat::Raw
            } else {
                LogFormat::Plain
            }),
    {
        let v = to_chars(s);
        let raw = to_chars("raw");
        if crate::text::chars_eq(&v, &raw) {
            LogFormat::Raw
        } else {
            LogFormat::Plain
        }
    }
}

/// Law: the persisted name of a format parses back to the format.
pub proof fn lemma_logformat_roundtrip(f: LogFormat)
    ensures
        (match f {
            LogFormat::Plain => "plain"@,
            LogFormat::Raw => "raw"@,
        }) == "raw"@ <==> f == LogFormat::Raw,
{
    reveal_strlit("plain");
    reveal_strlit("raw");
    assert("plain"@.len() != "raw"@.len());
}

/// What `char::is_alphanumeric` says of `c` (Unicode `Alphabetic` or
/// `Numeric`).
pub uninterp spec fn unicode_alphanumeric(c: char) -> bool;

/// Whether `c` is alphanumeric.
///
/// Trusted: `char::is_alphanumeric`. Its result is named; for ASCII the
/// documented meaning (letters and digits) is stated.
#[verifier::external_body]
pub(crate) fn is_alphanumeric(c: char) -> (b: bool)
    ensures
        b == unicode_alphanumeric(c),
        (c as u32) < 128 ==> (b <==> ('a' <= c <= 'z' || 'A' <= c <= 'Z' || '0' <= c <= '9')),
{
    c.is_alphanumeric()
}

/// The character a log name keeps for `c`: itself when alphanumeric or one
/// of `-`, `_`, `.`, else `_`.
pub open spec fn safe_char(c: char) -> char {
    if unicode_alphanumeric(c) || c == '-' || c == '_' || c == '.' {
        c
    } else {
        '_'
    }
}

/// `s` with every character unsafe in a file name replaced by `_`.
pub open spec fn sanitized(s: Seq<char>) -> Seq<char> {
    Seq::new(s.len(), |i: int| safe_char(s[i]))
}

/// Makes a session name safe to use as a file-name prefix.
pub fn sanitize(s: &str) -> (r: String)
    ensures
        r@ == sanitized(s@),
        r@.len() == s@.len(),
{
    let v = to_chars(s);
    let mut out: Vec<char> = Vec::new();
    let mut i: usize = 0;
    while i < v.len()
        invariant
            v@ == s@,
            i <= v@.len(),
            out@ =~= sanitized(v@.take(i as int)),
        decreases v.len() - i,
    {
        let c = v[i];
        if is_alphanumeric(c) || c == '-' || c == '_' || c == '.' {
            out.push(c);
        } else {
            out.push(char_from_ascii(95));
        }
        i = i + 1;
    }
    assert(v@.take(v@.len() as int) =~= v@);
    string_from_chars(&out)
}

/// Size at which a log part is closed and the next one begun (50 MB).
pub const MAX_FILE_BYTES: u64 = 52428800;

/// The name of part `part` of a log: `<base>_<ts>.log` for the first part,
/// `<base>_<ts>.<part>.log` for the others.
pub open spec fn part_name(base: Seq<char>, ts: Seq<char>, part: nat) -> Seq<char> {
    if part == 0 {
        base + "_"@ + ts + ".log"@
    } else {
        base + "_"@ + ts + "."@ + crate::importers::common::decimal(part) + ".log"@
    }
}

/// The file name of part `part` of the log `base` started at time stamp `ts`.
pub fn part_file_name(base: &str, ts: &str, part: u32) -> (r: String)
    ensures
        r@ == part_name(base@, ts@, part as nat),
{
    let mut r = crate::text::owned(base);
    crate::text::push_str(&mut r, "_");
    crate::text::push_str(&mut r, ts);
    if part == 0 {
        crate::text::push_str(&mut r, ".log");
    } else {
        crate::text::push_str(&mut r, ".");
        let d = crate::importers::common::u32_decimal(part);
        crate::text::push_str(&mut r, d.as_str());
        crate::text::push_str(&mut r, ".log");
    }
    r
}

/// Which part of a log is being written, how many bytes it holds, and how
/// many the log holds over all its parts.
pub struct PartCounter {
    pub part: u32,
    pub bytes_written: u64,
    pub total: u64,
}

impl PartCounter {
    /// The first part, empty.
    pub fn new() -> (c: PartCounter)
        ensures
            c.part == 0,
            c.bytes_written == 0,
            c.total == 0,
    {
        PartCounter { part: 0, bytes_written: 0, total: 0 }
    }

    /// Counts `n` bytes written to the current part; whether the part has
    /// reached `MAX_FILE_BYTES` and the next one is due.
    pub fn wrote(&mut self, n: u64) -> (rotate: bool)
        requires
            old(self).bytes_written + n <= u64::MAX,
            old(self).total + n <= u64::MAX,
        ensures
            final(self).part == old(self).part,
            final(self).bytes_written == old(self).bytes_written + n,
            final(self).total == old(self).total + n,
            rotate == (final(self).bytes_written >= MAX_FILE_BYTES),
    {
        self.bytes_written = self.bytes_written + n;
        self.total = self.total + n;
        self.bytes_written >= MAX_FILE_BYTES
    }

    /// The next part has been opened: it is empty.
    pub fn rotated(&mut self)
        requires
            old(self).part < u32::MAX,
        ensures
            final(self).part == old(self).part + 1,
            final(self).bytes_written == 0,
            final(self).total == old(self).total,
    {
        self.part = self.part + 1;
        self.bytes_written = 0;
    }
}

} // verus!
