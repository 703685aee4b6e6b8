//! Host-key decisions. A changed key is always refused (possible
//! man-in-the-middle). An unknown key is refused on direct connections, whose
//! keys the user approves beforehand, and trusted on first use only for
//! hosts reached through a jump host, where no approval prompt is possible.
use vstd::prelude::*;
use crate::model::HostKeyStatus;
use crate::text::{owned, push_str};

verus! {

/// What checking a server key against `known_hosts` found.
#[derive(Debug, Clone, Copy, PartialEq, Eq, Structural)]
pub enum KnownHostsCheck {
    /// Recorded and equal.
    Matches,
    /// Recorded with a different key.
    Changed,
    /// Not recorded.
    NotRecorded,
    /// `known_hosts` could not be read.
    Unreadable,
}

/// What to do with a server key.
#[derive(Debug, Clone, Copy, PartialEq, Eq, Structural)]
pub enum KeyVerdict {
    Accept,
    Reject,
    /// Record it in `known_hosts`, then accept it.
    LearnAndAccept,
}

/// The verdict on a server key: a recorded key is accepted, a changed one
/// refused, an unknown one refused unless trust on first use is allowed.
pub fn host_key_verdict(check: KnownHostsCheck, allow_tofu: bool) -> (v: KeyVerdict)
    ensures
        v == (match check {
            KnownHostsCheck::Matches => KeyVerdict::Accept,
            KnownHostsCheck::Changed => KeyVerdict::Reject,
            _ => if allow_tofu {
                KeyVerdict::LearnAndAccept
            } else {
                KeyVerdict::Reject
            },
        }),
        check == KnownHostsCheck::Changed ==> v == KeyVerdict::Reject,
        !allow_tofu ==> (v != KeyVerdict::Reject <==> check == KnownHostsCheck::Matches),
{
    match check {
        KnownHostsCheck::Matches => KeyVerdict::Accept,
        KnownHostsCheck::Changed => KeyVerdict::Reject,
        _ => if allow_tofu {
            KeyVerdict::LearnAndAccept
        } else {
            KeyVerdict::Reject
        },
    }
}

/// The text form of a key fingerprint: `SHA256:` and the digest.
pub fn fingerprint_text(digest: &str) -> (r: String)
    ensures
        r@ == "SHA256:"@ + digest@,
{
    let mut r = owned("SHA256:");
    push_str(&mut r, digest);
    r
}

/// What the pre-connection check reports: known, or the fingerprint of an
/// unknown (also when `known_hosts` is unreadable) or changed key.
pub fn preflight_status(check: KnownHostsCheck, fingerprint: String) -> (s: HostKeyStatus)
    ensures
        match check {
            KnownHostsCheck::Matches => s == HostKeyStatus::Known,
            KnownHostsCheck::Changed => s matches HostKeyStatus::Changed { fingerprint: f } && f@ == fingerprint@,
            _ => s matches HostKeyStatus::Unknown { fingerprint: f } && f@ == fingerprint@,
        },
{
    match check {
        KnownHostsCheck::Matches => HostKeyStatus::Known,
        KnownHostsCheck::Changed => HostKeyStatus::Changed { fingerprint },
        _ => HostKeyStatus::Unknown { fingerprint },
    }
}

/// Trusting a key needs the key seen now to be the one the user approved:
/// the error carries the fingerprint actually seen.
pub fn check_trust(actual: String, expected: &str) -> (r: Result<(), String>)
    ensures
        r is Ok == (actual@ == expected@),
        r matches Err(f) ==> f@ == actual@,
{
    if crate::text::str_is(actual.as_str(), expected) {
        Ok(())
    } else {
        Err(actual)
    }
}

} // verus!
