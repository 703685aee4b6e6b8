//! Regular-expression matching, delegated to the `regex` crate.
use vstd::prelude::*;
use vstd::string::StringSliceAdditionalSpecFns;

verus! {

/// What `regex::Regex::new(pattern)` followed by `is_match(text)` gives:
/// `None` when the pattern does not compile, else whether the regex finds a
/// match anywhere in `text`.
pub uninterp spec fn regex_search(pattern: Seq<char>, text: Seq<char>) -> Option<bool>;

/// Compiles `pattern` and searches `text` with it.
///
/// Trusted: `regex::Regex::new` and `regex::Regex::is_match`. The contract
/// only names the result (`regex_search` of the pattern and the text); it
/// claims nothing about regular-expression semantics.
#[verifier::external_body]
pub(crate) fn regex_is_match(pattern: &str, text: &str) -> (r: Option<bool>)
    ensures
        r == regex_search(pattern@, text@),
{
    match regex::Regex::new(pattern) {
        Ok(re) => Some(re.is_match(text)),
        Err(_) => None,
    }
}

/// Whether `pattern` compiles and matches `text`.
pub open spec fn regex_hit(pattern: Seq<char>, text: Seq<char>) -> bool {
    regex_search(pattern, text) == Some(true)
}

/// Whether `pattern` compiles and matches somewhere in `text`.
pub fn regex_hits(pattern: &str, text: &str) -> (b: bool)
    ensures
        b == regex_hit(pattern@, text@),
{
    match regex_is_match(pattern, text) {
        Some(true) => true,
        _ => false,
    }
}

/// Whether `regex::Regex::new(pattern)` succeeds.
pub uninterp spec fn regex_compiles(pattern: Seq<char>) -> bool;

/// Whether `pattern` is a valid regular expression.
///
/// Trusted: `regex::Regex::new`; the result is named `regex_compiles`.
#[verifier::external_body]
pub(crate) fn regex_valid(pattern: &str) -> (b: bool)
    ensures
        b == regex_compiles(pattern@),
{
    regex::Regex::new(pattern).is_ok()
}

/// The `(start, end)` byte offsets of the successive non-overlapping
/// matches that `find_iter` yields for a compiled `pattern` on `text`.
pub uninterp spec fn regex_find_spans(pattern: Seq<char>, text: Seq<char>) -> Seq<(usize, usize)>;

/// The match spans of `pattern` in `text`, or `None` when the pattern does
/// not compile.
///
/// Trusted: `regex::Regex::new` and `regex::Regex::find_iter`. The spans are
/// named `regex_find_spans`; as the crate documents for `Match`, each has
/// `start <= end` and lies within the text's bytes.
#[verifier::external_body]
pub(crate) fn regex_spans(pattern: &str, text: &str) -> (r: Option<Vec<(usize, usize)>>)
    ensures
        r is Some == regex_compiles(pattern@),
        r matches Some(v) ==> v@ == regex_find_spans(pattern@, text@),
        r matches Some(v) ==> forall|k: int|
            0 <= k < v@.len() ==> (#[trigger] v@[k]).0 <= v@[k].1 <= text.spec_bytes().len(),
{
    match regex::Regex::new(pattern) {
        Ok(re) => Some(re.find_iter(text).map(|m| (m.start(), m.end())).collect()),
        Err(_) => None,
    }
}

/// A regular-expression meta character (`regex_syntax::is_meta_character`).
pub open spec fn regex_meta(c: char) -> bool {
    c == '\\' || c == '.' || c == '+' || c == '*' || c == '?' || c == '(' || c == ')' || c == '|' || c == '['
        || c == ']' || c == '{' || c == '}' || c == '^' || c == '$' || c == '#' || c == '&' || c == '-' || c == '~'
}

/// What `regex::escape` makes of `s`: each meta character preceded by a
/// backslash, every other character as itself.
pub open spec fn regex_escaped(s: Seq<char>) -> Seq<char>
    decreases s.len(),
{
    if s.len() == 0 {
        Seq::empty()
    } else {
        regex_escaped(s.drop_last()) + if regex_meta(s.last()) {
            seq!['\\', s.last()]
        } else {
            seq![s.last()]
        }
    }
}

/// Escapes the regular-expression meta characters of `s`.
///
/// Trusted: `regex::escape`, which calls `regex_syntax::escape`: a
/// backslash before each meta character, as `regex_escaped` says.
#[verifier::external_body]
pub(crate) fn regex_escape(s: &str) -> (r: String)
    ensures
        r@ == regex_escaped(s@),
{
    regex::escape(s)
}

} // verus!
