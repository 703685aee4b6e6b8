//! Which SSH agent backend(s) agent authentication tries, and in which order.
use vstd::prelude::*;
use crate::text::{lower_seq, lower_vec, chars_eq, to_chars, trim, trim_range, string_from_range};

verus! {

/// Agent backend preference (only consulted on Windows).
#[derive(Debug, Clone, Copy, PartialEq, Eq, Structural)]
pub enum AgentPriority {
    Auto,
    PageantFirst,
    OpenSshOnly,
    PageantOnly,
}

/// The persisted form of a preference.
pub open spec fn priority_setting(p: AgentPriority) -> Seq<char> {
    match p {
        AgentPriority::Auto => "auto"@,
        AgentPriority::PageantFirst => "pageant-first"@,
        AgentPriority::OpenSshOnly => "openssh-only"@,
        AgentPriority::PageantOnly => "pageant-only"@,
    }
}

/// The preference a persisted string names: trimmed and lower-cased, with
/// `-` or `_` accepted as separator; unknown text means `Auto`.
pub open spec fn priority_of(s: Seq<char>) -> AgentPriority {
    let k = lower_seq(trim(s));
    if k == "pageant-first"@ || k == "pageant_first"@ {
        AgentPriority::PageantFirst
    } else if k == "openssh-only"@ || k == "openssh_only"@ {
        AgentPriority::OpenSshOnly
    } else if k == "pageant-only"@ || k == "pageant_only"@ {
        AgentPriority::PageantOnly
    } else {
        AgentPriority::Auto
    }
}

fn eq_lit(k: &Vec<char>, lit: &str) -> (b: bool)
    ensures
        b == (k@ == lit@),
{
    chars_eq(k, &to_chars(lit))
}

impl AgentPriority {
    /// Parses the persisted string form; unknown strings fall back to `Auto`.
    pub fn from_setting(s: &str) -> (r: AgentPriority)
        ensures
            r == priority_of(s@),
    {
        let v = to_chars(s);
        let (a, b) = trim_range(&v, 0, v.len());
        assert(v@.subrange(0, v@.len() as int) =~= v@);
        let t = crate::text::to_chars(string_from_range(&v, a, b).as_str());
        let k = lower_vec(&t);
        if eq_lit(&k, "pageant-first") || eq_lit(&k, "pageant_first") {
            AgentPriority::PageantFirst
        } else if eq_lit(&k, "openssh-only") || eq_lit(&k, "openssh_only") {
            AgentPriority::OpenSshOnly
        } else if eq_lit(&k, "pageant-only") || eq_lit(&k, "pageant_only") {
            AgentPriority::PageantOnly
        } else {
            AgentPriority::Auto
        }
    }

    /// The persisted string form.
    pub fn as_setting(self) -> (r: &'static str)
        ensures
            r@ == priority_setting(self),
    {
        match self {
            AgentPriority::Auto => "auto",
            AgentPriority::PageantFirst => "pageant-first",
            AgentPriority::OpenSshOnly => "openssh-only",
            AgentPriority::PageantOnly => "pageant-only",
        }
    }
}

/// Round-trip law: a persisted preference parses back to itself.
pub proof fn lemma_priority_roundtrip(p: AgentPriority)
    ensures
        priority_of(priority_setting(p)) == p,
{
    reveal_strlit("auto");
    reveal_strlit("pageant-first");
    reveal_strlit("pageant_first");
    reveal_strlit("openssh-only");
    reveal_strlit("openssh_only");
    reveal_strlit("pageant-only");
    reveal_strlit("pageant_only");
    let s = priority_setting(p);
    assert(crate::text::trim_start(s) == s);
    assert(crate::text::trim_end(s) == s);
    assert(lower_seq(s) =~= s);
}

/// An SSH agent implementation on Windows.
#[derive(Debug, Clone, Copy, PartialEq, Eq, Structural)]
pub enum AgentBackend {
    OpenSsh,
    Pageant,
}

impl AgentBackend {
    /// The name shown in error messages.
    pub fn label(self) -> (r: &'static str)
        ensures
            r@ == (match self {
                AgentBackend::OpenSsh => "OpenSSH"@,
                AgentBackend::Pageant => "Pageant"@,
            }),
    {
        match self {
            AgentBackend::OpenSsh => "OpenSSH",
            AgentBackend::Pageant => "Pageant",
        }
    }
}

/// The backends agent authentication tries, in order: `Auto` tries
/// OpenSSH then Pageant, `PageantFirst` the reverse, the `*Only` variants
/// one each.
pub open spec fn backend_order(p: AgentPriority) -> Seq<AgentBackend> {
    match p {
        AgentPriority::Auto => seq![AgentBackend::OpenSsh, AgentBackend::Pageant],
        AgentPriority::PageantFirst => seq![AgentBackend::Pageant, AgentBackend::OpenSsh],
        AgentPriority::OpenSshOnly => seq![AgentBackend::OpenSsh],
        AgentPriority::PageantOnly => seq![AgentBackend::Pageant],
    }
}

/// The backends to try for a preference, in order.
pub fn backends_for(p: AgentPriority) -> (r: Vec<AgentBackend>)
    ensures
        r@ == backend_order(p),
{
    let r = match p {
        AgentPriority::Auto => vec![AgentBackend::OpenSsh, AgentBackend::Pageant],
        AgentPriority::PageantFirst => vec![AgentBackend::Pageant, AgentBackend::OpenSsh],
        AgentPriority::OpenSshOnly => vec![AgentBackend::OpenSsh],
        AgentPriority::PageantOnly => vec![AgentBackend::Pageant],
    };
    assert(r@ =~= backend_order(p));
    r
}

} // verus!
