//! The history filter: command lines that look like they carry a
//! credential are never recorded.
use vstd::prelude::*;
use crate::pattern::{regex_hit, regex_hits};

verus! {

/// Longest command line (in bytes) that is ever recorded.
pub const MAX_RECORD_LEN: usize = 200;

/// The credential pattern: a secret-ish keyword followed by `:` or `=`.
pub open spec fn sensitive_pattern() -> Seq<char> {
    "(?i)(password|passwd|secret|token|api[-_]?key|bearer)\\s*[:=]"@
}

/// Whether a command line must be kept out of the history: it is longer
/// than `MAX_RECORD_LEN` bytes (UTF-8) or matches the credential pattern.
pub open spec fn sensitive(command: &str) -> bool {
    command.len() > MAX_RECORD_LEN || regex_hit(sensitive_pattern(), command@)
}

/// Heuristic: should this command line be excluded from the history?
pub fn is_sensitive(command: &str) -> (b: bool)
    ensures
        b == sensitive(command),
{
    if command.len() > MAX_RECORD_LEN {
        return true;
    }
    regex_hits("(?i)(password|passwd|secret|token|api[-_]?key|bearer)\\s*[:=]", command)
}

} // verus!
