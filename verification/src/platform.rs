//! Network device platforms recognised by the hint engine.
use vstd::prelude::*;
use crate::text::{chars_eq, to_chars, owned};

verus! {

/// A device family whose commands the hint engine knows.
#[derive(Debug, Clone, Copy, PartialEq, Eq, Structural)]
pub enum Platform {
    Generic,
    Linux,
    CiscoIos,
    Juniper,
    Mikrotik,
    Aruba,
    Fortigate,
    Fortimanager,
    PaloAlto,
    F5Bigip,
    CheckpointGaia,
    HpComware,
    BrocadeFos,
}

/// The stable identifier of a platform, as persisted in the database.
pub open spec fn platform_id(p: Platform) -> Seq<char> {
    match p {
        Platform::Generic => "generic"@,
        Platform::Linux => "linux"@,
        Platform::CiscoIos => "cisco_ios"@,
        Platform::Juniper => "juniper"@,
        Platform::Mikrotik => "mikrotik"@,
        Platform::Aruba => "aruba"@,
        Platform::Fortigate => "fortigate"@,
        Platform::Fortimanager => "fortimanager"@,
        Platform::PaloAlto => "paloalto"@,
        Platform::F5Bigip => "f5_bigip"@,
        Platform::CheckpointGaia => "checkpoint_gaia"@,
        Platform::HpComware => "hp_comware"@,
        Platform::BrocadeFos => "brocade_fos"@,
    }
}

impl Platform {
    /// The stable snake_case identifier.
    pub fn as_str(self) -> (r: &'static str)
        ensures
            r@ == platform_id(self),
    {
        match self {
            Platform::Generic => "generic",
            Platform::Linux => "linux",
            Platform::CiscoIos => "cisco_ios",
            Platform::Juniper => "juniper",
            Platform::Mikrotik => "mikrotik",
            Platform::Aruba => "aruba",
            Platform::Fortigate => "fortigate",
            Platform::Fortimanager => "fortimanager",
            Platform::PaloAlto => "paloalto",
            Platform::F5Bigip => "f5_bigip",
            Platform::CheckpointGaia => "checkpoint_gaia",
            Platform::HpComware => "hp_comware",
            Platform::BrocadeFos => "brocade_fos",
        }
    }
}

/// The user-facing name of a platform.
pub open spec fn platform_display(p: Platform) -> Seq<char> {
    match p {
        Platform::Generic => "Generic"@,
        Platform::Linux => "Linux / bash"@,
        Platform::CiscoIos => "Cisco IOS"@,
        Platform::Juniper => "Juniper Junos"@,
        Platform::Mikrotik => "MikroTik RouterOS"@,
        Platform::Aruba => "Aruba (HP ProCurve)"@,
        Platform::Fortigate => "Fortinet FortiGate (FortiOS)"@,
        Platform::Fortimanager => "Fortinet FortiManager"@,
        Platform::PaloAlto => "Palo Alto (PAN-OS)"@,
        Platform::F5Bigip => "F5 BIG-IP (TMOS / tmsh)"@,
        Platform::CheckpointGaia => "Check Point Gaia (CLISH)"@,
        Platform::HpComware => "HPE Comware (HP / H3C)"@,
        Platform::BrocadeFos => "Brocade Fabric OS"@,
    }
}

/// The platforms in their canonical order.
pub open spec fn platform_list() -> Seq<Platform> {
    seq![
        Platform::Generic,
        Platform::Linux,
        Platform::CiscoIos,
        Platform::Juniper,
        Platform::Mikrotik,
        Platform::Aruba,
        Platform::Fortigate,
        Platform::Fortimanager,
        Platform::PaloAlto,
        Platform::F5Bigip,
        Platform::CheckpointGaia,
        Platform::HpComware,
        Platform::BrocadeFos,
    ]
}

/// The platform whose identifier is `s`, if any.
pub open spec fn platform_from_id(s: Seq<char>) -> Option<Platform> {
    if exists|i: int| 0 <= i < 13 && platform_id(#[trigger] platform_list()[i]) == s {
        Some(choose|p: Platform| platform_id(p) == s)
    } else {
        None
    }
}

/// Errors of the hint engine.
#[derive(Debug, Clone, PartialEq, Eq)]
pub enum HintError {
    /// The text names no known platform.
    InvalidPlatform(String),
    /// A user catalog file could not be read.
    Io(String),
    /// A user catalog file is not a JSON array of strings.
    InvalidUserCatalog { file: String, reason: String },
}

/// The text of an error.
pub open spec fn hint_error_text(e: HintError) -> Seq<char> {
    match e {
        HintError::InvalidPlatform(p) => "invalid platform: "@ + p@,
        HintError::Io(m) => "catalog I/O error: "@ + m@,
        HintError::InvalidUserCatalog { file, reason } => "invalid user catalog "@ + file@ + ".json: "@ + reason@,
    }
}

impl HintError {
    /// The error's text: what went wrong and, for a catalog file, which one.
    pub fn message(&self) -> (r: String)
        ensures
            r@ == hint_error_text(*self),
    {
        match self {
            HintError::InvalidPlatform(p) => {
                let mut r = owned("invalid platform: ");
                crate::text::push_str(&mut r, p.as_str());
                r
            },
            HintError::Io(m) => {
                let mut r = owned("catalog I/O error: ");
                crate::text::push_str(&mut r, m.as_str());
                r
            },
            HintError::InvalidUserCatalog { file, reason } => {
                let mut r = owned("invalid user catalog ");
                crate::text::push_str(&mut r, file.as_str());
                crate::text::push_str(&mut r, ".json: ");
                crate::text::push_str(&mut r, reason.as_str());
                r
            },
        }
    }
}

impl Platform {
    /// The user-facing display name.
    pub fn display_name(self) -> (r: &'static str)
        ensures
            r@ == platform_display(self),
    {
        match self {
            Platform::Generic => "Generic",
            Platform::Linux => "Linux / bash",
            Platform::CiscoIos => "Cisco IOS",
            Platform::Juniper => "Juniper Junos",
            Platform::Mikrotik => "MikroTik RouterOS",
            Platform::Aruba => "Aruba (HP ProCurve)",
            Platform::Fortigate => "Fortinet FortiGate (FortiOS)",
            Platform::Fortimanager => "Fortinet FortiManager",
            Platform::PaloAlto => "Palo Alto (PAN-OS)",
            Platform::F5Bigip => "F5 BIG-IP (TMOS / tmsh)",
            Platform::CheckpointGaia => "Check Point Gaia (CLISH)",
            Platform::HpComware => "HPE Comware (HP / H3C)",
            Platform::BrocadeFos => "Brocade Fabric OS",
        }
    }

    /// Parses a platform identifier; unknown text is an error naming it.
    pub fn parse_id(s: &str) -> (r: Result<Platform, HintError>)
        ensures
            r matches Ok(p) ==> platform_id(p) == s@ && platform_from_id(s@) == Some(p),
            r is Err ==> platform_from_id(s@) is None,
            r matches Err(e) ==> (e matches HintError::InvalidPlatform(t) && t@ == s@),
    {
        let v = to_chars(s);
        let list = all_platforms();
        let mut i: usize = 0;
        while i < list.len()
            invariant
                list@ == platform_list(),
                v@ == s@,
                i <= 13,
                forall|j: int| 0 <= j < i ==> platform_id(#[trigger] platform_list()[j]) != s@,
            decreases 13 - i,
        {
            let p = list[i];
            let id = to_chars(p.as_str());
            if chars_eq(&id, &v) {
                proof {
                    lemma_platform_id_injective();
                    assert(platform_id(platform_list()[i as int]) == s@);
                }
                return Ok(p);
            }
            i = i + 1;
        }
        Err(HintError::InvalidPlatform(owned(s)))
    }
}

/// Whether `p` appears in the platform list.
pub open spec fn listed(p: Platform) -> bool {
    exists|i: int| 0 <= i < 13 && #[trigger] platform_list()[i] == p
}

/// Distinct platforms have distinct identifiers, and every platform is listed.
pub proof fn lemma_platform_id_injective()
    ensures
        forall|p: Platform, q: Platform| platform_id(p) == platform_id(q) ==> p == q,
        forall|p: Platform| #[trigger] listed(p),
{
    reveal_strlit("generic");
    reveal_strlit("linux");
    reveal_strlit("cisco_ios");
    reveal_strlit("juniper");
    reveal_strlit("mikrotik");
    reveal_strlit("aruba");
    reveal_strlit("fortigate");
    reveal_strlit("fortimanager");
    reveal_strlit("paloalto");
    reveal_strlit("f5_bigip");
    reveal_strlit("checkpoint_gaia");
    reveal_strlit("hp_comware");
    reveal_strlit("brocade_fos");
    assert forall|p: Platform, q: Platform| platform_id(p) == platform_id(q) implies p == q by {
        assert(platform_id(p).len() == platform_id(q).len());
        assert(platform_id(p)[0] == platform_id(q)[0]);
    }
    assert forall|p: Platform| #[trigger] listed(p) by {
        match p {
            Platform::Generic => assert(platform_list()[0] == p),
            Platform::Linux => assert(platform_list()[1] == p),
            Platform::CiscoIos => assert(platform_list()[2] == p),
            Platform::Juniper => assert(platform_list()[3] == p),
            Platform::Mikrotik => assert(platform_list()[4] == p),
            Platform::Aruba => assert(platform_list()[5] == p),
            Platform::Fortigate => assert(platform_list()[6] == p),
            Platform::Fortimanager => assert(platform_list()[7] == p),
            Platform::PaloAlto => assert(platform_list()[8] == p),
            Platform::F5Bigip => assert(platform_list()[9] == p),
            Platform::CheckpointGaia => assert(platform_list()[10] == p),
            Platform::HpComware => assert(platform_list()[11] == p),
            Platform::BrocadeFos => assert(platform_list()[12] == p),
        }
    }
}

/// Round-trip law: parsing a platform's identifier gives the platform back.
pub proof fn lemma_platform_roundtrip(p: Platform)
    ensures
        platform_from_id(platform_id(p)) == Some(p),
{
    lemma_platform_id_injective();
    assert(listed(p));
    let i = choose|i: int| 0 <= i < 13 && #[trigger] platform_list()[i] == p;
    assert(platform_id(platform_list()[i]) == platform_id(p));
}

/// All platforms, `Generic` first.
pub fn all_platforms() -> (r: Vec<Platform>)
    ensures
        r@ == platform_list(),
{
    let r = vec![
        Platform::Generic,
        Platform::Linux,
        Platform::CiscoIos,
        Platform::Juniper,
        Platform::Mikrotik,
        Platform::Aruba,
        Platform::Fortigate,
        Platform::Fortimanager,
        Platform::PaloAlto,
        Platform::F5Bigip,
        Platform::CheckpointGaia,
        Platform::HpComware,
        Platform::BrocadeFos,
    ];
    assert(r@ =~= platform_list());
    r
}

impl core::str::FromStr for Platform {
    type Err = HintError;

    fn from_str(s: &str) -> (r: Result<Platform, HintError>)
        ensures
            r matches Ok(p) ==> platform_id(p) == s@ && platform_from_id(s@) == Some(p),
            r is Err ==> platform_from_id(s@) is None,
            r matches Err(e) ==> (e matches HintError::InvalidPlatform(t) && t@ == s@),
    {
        Platform::parse_id(s)
    }
}

} // verus!
