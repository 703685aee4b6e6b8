//! Platform auto-detection from terminal output.
//!
//! The detector keeps the last [`RING_CAP`] bytes of a session's output and
//! walks an ordered rule table: a rule fires when one of its signature words
//! occurs anywhere in the recent text (case-insensitively) and its prompt
//! regex matches the last non-blank line. Once a platform is detected it is
//! latched: later output never changes the verdict.
use vstd::prelude::*;
use crate::platform::Platform;
use crate::pattern::{regex_hit, regex_hits};
use crate::text::{
    contains, contains_seq, decode_lossy, is_ws, lines, lower_seq, lower_vec, next_line,
    string_from_range, to_chars, trim, trim_end, trim_end_range, trim_range, lossy,
};

verus! {

/// How many recent bytes are kept for matching.
pub const RING_CAP: usize = 8192;

/// The prompt regex of each platform, anchored at the end of the line.
pub open spec fn prompt_src(p: Platform) -> Seq<char> {
    match p {
        Platform::F5Bigip => "\\(tmos\\)\\s*[#>]\\s*$"@,
        Platform::Mikrotik => "^\\[[^]@]+@[^]]+\\]\\s*>\\s*$"@,
        Platform::BrocadeFos => "^[A-Za-z][\\w.-]*:(admin|user|root)>\\s*$"@,
        Platform::CheckpointGaia => "^[A-Za-z][\\w.-]*>\\s*$"@,
        Platform::HpComware => "^(?:<[\\w.-]+>|\\[[\\w.-]+\\])\\s*$"@,
        Platform::Aruba => "^[A-Za-z][\\w.-]*#\\s*$"@,
        Platform::Fortimanager => "^[A-Za-z][\\w.-]*\\s?#\\s*$"@,
        Platform::Fortigate => "^[A-Za-z][\\w.-]*\\s?(?:\\([\\w-]+\\)\\s?)?#\\s*$"@,
        Platform::PaloAlto => "^[\\w.-]+@[\\w.-]+\\s*[#>]\\s*$"@,
        Platform::Juniper => "^[\\w.-]+@[\\w.-]+\\s*[#>]\\s*$"@,
        Platform::CiscoIos => "^[A-Za-z][\\w.-]*(?:\\([^)]+\\))?\\s*[#>]\\s*$"@,
        Platform::Linux => "(?:^|\\n)(?:[\\w.-]+@[\\w.-]+(?::[^\\s]*)?\\s*[$#]|\\[[^\\]]*\\]\\s*[$#]|[^\\n$#]*[$#])\\s*$"@,
        Platform::Generic => "\\A\\z"@,
    }
}

/// The prompt regex source for a platform.
pub fn prompt_src_for(p: Platform) -> (r: &'static str)
    ensures
        r@ == prompt_src(p),
{
    match p {
        Platform::F5Bigip => "\\(tmos\\)\\s*[#>]\\s*$",
        Platform::Mikrotik => "^\\[[^]@]+@[^]]+\\]\\s*>\\s*$",
        Platform::BrocadeFos => "^[A-Za-z][\\w.-]*:(admin|user|root)>\\s*$",
        Platform::CheckpointGaia => "^[A-Za-z][\\w.-]*>\\s*$",
        Platform::HpComware => "^(?:<[\\w.-]+>|\\[[\\w.-]+\\])\\s*$",
        Platform::Aruba => "^[A-Za-z][\\w.-]*#\\s*$",
        Platform::Fortimanager => "^[A-Za-z][\\w.-]*\\s?#\\s*$",
        Platform::Fortigate => "^[A-Za-z][\\w.-]*\\s?(?:\\([\\w-]+\\)\\s?)?#\\s*$",
        Platform::PaloAlto => "^[\\w.-]+@[\\w.-]+\\s*[#>]\\s*$",
        Platform::Juniper => "^[\\w.-]+@[\\w.-]+\\s*[#>]\\s*$",
        Platform::CiscoIos => "^[A-Za-z][\\w.-]*(?:\\([^)]+\\))?\\s*[#>]\\s*$",
        Platform::Linux => "(?:^|\\n)(?:[\\w.-]+@[\\w.-]+(?::[^\\s]*)?\\s*[$#]|\\[[^\\]]*\\]\\s*[$#]|[^\\n$#]*[$#])\\s*$",
        Platform::Generic => "\\A\\z",
    }
}

/// The platform of rule `i`, most specific first.
pub open spec fn rule_platform(i: int) -> Platform {
    if i == 0 {
        Platform::F5Bigip
    } else if i == 1 {
        Platform::Mikrotik
    } else if i == 2 {
        Platform::BrocadeFos
    } else if i == 3 {
        Platform::CheckpointGaia
    } else if i == 4 {
        Platform::HpComware
    } else if i == 5 {
        Platform::Aruba
    } else if i == 6 {
        Platform::Fortimanager
    } else if i == 7 {
        Platform::Fortigate
    } else if i == 8 {
        Platform::PaloAlto
    } else if i == 9 {
        Platform::Juniper
    } else if i == 10 {
        Platform::CiscoIos
    } else {
        Platform::Linux
    }
}

/// The signature words of rule `i` (empty: the prompt alone suffices).
pub open spec fn rule_sigs(i: int) -> Seq<Seq<char>> {
    if i == 3 {
        seq!["Check Point"@, "Gaia"@]
    } else if i == 5 {
        seq!["ArubaOS"@, "ProCurve"@, "Aruba"@]
    } else if i == 6 {
        seq!["FortiManager"@]
    } else if i == 7 {
        seq!["FortiGate"@, "FortiOS"@, "FGT"@, "Fortinet"@]
    } else if i == 8 {
        seq!["Palo Alto Networks"@, "PAN-OS"@]
    } else if i == 9 {
        seq!["JUNOS"@, "Juniper"@]
    } else if i == 10 {
        seq!["Cisco IOS Software"@, "IOS XE"@, "Cisco Internetwork"@, "IOS-XE"@]
    } else if i == 11 {
        seq![
            "Ubuntu"@,
            "Debian"@,
            "CentOS"@,
            "Red Hat"@,
            "Rocky Linux"@,
            "AlmaLinux"@,
            "Alpine"@,
            "Arch Linux"@,
            "Fedora"@,
            "openSUSE"@,
            "GNU/Linux"@,
            "Linux Mint"@,
            "Last login:"@,
            "/etc/motd"@,
            "BusyBox"@,
            "kernel"@,
            "uname"@,
        ]
    } else {
        Seq::empty()
    }
}

/// The signature words of rule `i`.
pub fn rule_signatures(i: usize) -> (r: Vec<&'static str>)
    requires
        i < 12,
    ensures
        r@.map_values(|s: &str| s@) == rule_sigs(i as int),
{
    let r: Vec<&'static str> = if i == 3 {
        vec!["Check Point", "Gaia"]
    } else if i == 5 {
        vec!["ArubaOS", "ProCurve", "Aruba"]
    } else if i == 6 {
        vec!["FortiManager"]
    } else if i == 7 {
        vec!["FortiGate", "FortiOS", "FGT", "Fortinet"]
    } else if i == 8 {
        vec!["Palo Alto Networks", "PAN-OS"]
    } else if i == 9 {
        vec!["JUNOS", "Juniper"]
    } else if i == 10 {
        vec!["Cisco IOS Software", "IOS XE", "Cisco Internetwork", "IOS-XE"]
    } else if i == 11 {
        vec![
            "Ubuntu",
            "Debian",
            "CentOS",
            "Red Hat",
            "Rocky Linux",
            "AlmaLinux",
            "Alpine",
            "Arch Linux",
            "Fedora",
            "openSUSE",
            "GNU/Linux",
            "Linux Mint",
            "Last login:",
            "/etc/motd",
            "BusyBox",
            "kernel",
            "uname",
        ]
    } else {
        Vec::new()
    };
    assert(r@.map_values(|s: &str| s@) =~= rule_sigs(i as int));
    r
}

/// The platform of rule `i`.
pub fn rule_platform_at(i: usize) -> (p: Platform)
    requires
        i < 12,
    ensures
        p == rule_platform(i as int),
{
    if i == 0 {
        Platform::F5Bigip
    } else if i == 1 {
        Platform::Mikrotik
    } else if i == 2 {
        Platform::BrocadeFos
    } else if i == 3 {
        Platform::CheckpointGaia
    } else if i == 4 {
        Platform::HpComware
    } else if i == 5 {
        Platform::Aruba
    } else if i == 6 {
        Platform::Fortimanager
    } else if i == 7 {
        Platform::Fortigate
    } else if i == 8 {
        Platform::PaloAlto
    } else if i == 9 {
        Platform::Juniper
    } else if i == 10 {
        Platform::CiscoIos
    } else {
        Platform::Linux
    }
}

/// The last line of `ls` that is not blank, scanning from the front.
pub open spec fn last_nonblank(ls: Seq<Seq<char>>) -> Option<Seq<char>>
    decreases ls.len(),
{
    if ls.len() == 0 {
        None
    } else {
        match last_nonblank(ls.drop_first()) {
            Some(x) => Some(x),
            None => if trim(ls[0]).len() > 0 {
                Some(ls[0])
            } else {
                None
            },
        }
    }
}

/// The text a prompt regex is tested on: the last non-blank line (or the
/// whole text when every line is blank), without trailing whitespace.
pub open spec fn prompt_candidate(text: Seq<char>) -> Seq<char> {
    trim_end(
        match last_nonblank(lines(text)) {
            Some(l) => l,
            None => text,
        },
    )
}

/// Whether any signature word of `sigs` occurs in `text`, ignoring ASCII case.
pub open spec fn any_signature(text: Seq<char>, sigs: Seq<Seq<char>>) -> bool {
    exists|k: int| 0 <= k < sigs.len() && contains(lower_seq(text), lower_seq(#[trigger] sigs[k]))
}

/// Whether rule `i` fires on `text`.
pub open spec fn rule_fires(i: int, text: Seq<char>) -> bool {
    &&& (rule_sigs(i).len() == 0 || any_signature(text, rule_sigs(i)))
    &&& regex_hit(prompt_src(rule_platform(i)), prompt_candidate(text))
}

/// The first rule at or after `i` that fires on `text`.
pub open spec fn first_rule(text: Seq<char>, i: int) -> Option<Platform>
    decreases 12 - i,
{
    if i < 0 || i >= 12 {
        None
    } else if rule_fires(i, text) {
        Some(rule_platform(i))
    } else {
        first_rule(text, i + 1)
    }
}

/// The platform recognised in `text`, if any.
pub open spec fn detect(text: Seq<char>) -> Option<Platform> {
    first_rule(text, 0)
}

/// The recent-output window after appending `bytes`: the last `RING_CAP`
/// bytes of the old window followed by `bytes`.
pub open spec fn ring_after(recent: Seq<u8>, bytes: Seq<u8>) -> Seq<u8> {
    let all = recent + bytes;
    if all.len() > RING_CAP {
        all.skip(all.len() - RING_CAP)
    } else {
        all
    }
}

/// The effect of one `feed`: the new window, the new latch, and the result.
pub open spec fn feed_model(recent: Seq<u8>, locked: Option<Platform>, bytes: Seq<u8>) -> (
    Seq<u8>,
    Option<Platform>,
    Option<Platform>,
) {
    if locked is Some {
        (recent, locked, None)
    } else {
        let ring = ring_after(recent, bytes);
        let found = detect(lossy(ring));
        (ring, found, found)
    }
}

/// Per-session platform detector.
pub struct PlatformDetector {
    pub recent: Vec<u8>,
    pub locked: Option<Platform>,
}

impl PlatformDetector {
    /// A detector that has seen nothing and detected nothing.
    pub fn new() -> (d: Self)
        ensures
            d.recent@ == Seq::<u8>::empty(),
            d.locked is None,
    {
        PlatformDetector { recent: Vec::new(), locked: None }
    }

    /// The latched platform, if any.
    pub fn detected(&self) -> (r: Option<Platform>)
        ensures
            r == self.locked,
    {
        self.locked
    }

    /// Feeds a chunk of output. Returns the platform when this call is the
    /// one that latches it, `None` otherwise.
    pub fn feed(&mut self, bytes: &[u8]) -> (r: Option<Platform>)
        ensures
            (final(self).recent@, final(self).locked, r) == feed_model(
                old(self).recent@,
                old(self).locked,
                bytes@,
            ),
    {
        if self.locked.is_some() {
            return None;
        }
        let mut all: Vec<u8> = Vec::new();
        let mut k: usize = 0;
        while k < self.recent.len()
            invariant
                k <= self.recent@.len(),
                all@ == self.recent@.take(k as int),
            decreases self.recent.len() - k,
        {
            all.push(self.recent[k]);
            assert(self.recent@.take(k as int).push(self.recent@[k as int]) =~= self.recent@.take(
                k + 1,
            ));
            k = k + 1;
        }
        assert(self.recent@.take(k as int) =~= self.recent@);
        let mut j: usize = 0;
        while j < bytes.len()
            invariant
                j <= bytes@.len(),
                all@ == self.recent@ + bytes@.take(j as int),
            decreases bytes.len() - j,
        {
            all.push(bytes[j]);
            assert(self.recent@ + bytes@.take(j as int).push(bytes@[j as int]) =~= self.recent@
                + bytes@.take(j + 1));
            j = j + 1;
        }
        assert(bytes@.take(j as int) =~= bytes@);
        let start: usize = if all.len() > RING_CAP {
            all.len() - RING_CAP
        } else {
            0
        };
        let mut ring: Vec<u8> = Vec::new();
        let mut m = start;
        while m < all.len()
            invariant
                start <= m <= all@.len(),
                ring@ == all@.subrange(start as int, m as int),
            decreases all.len() - m,
        {
            ring.push(all[m]);
            assert(all@.subrange(start as int, m as int).push(all@[m as int]) =~= all@.subrange(
                start as int,
                m + 1,
            ));
            m = m + 1;
        }
        assert(ring@ =~= ring_after(self.recent@, bytes@));
        self.recent = ring;
        let text = decode_lossy(&self.recent);
        let found = detect_text(&text);
        self.locked = found;
        found
    }
}

/// The platform recognised in `text`, walking the rule table in order.
pub fn detect_text(text: &str) -> (r: Option<Platform>)
    ensures
        r == detect(text@),
{
    let v = to_chars(text);
    let lowered = lower_vec(&v);
    let cand = prompt_candidate_of(&v);
    let mut i: usize = 0;
    while i < 12
        invariant
            v@ == text@,
            lowered@ == lower_seq(text@),
            cand@ == prompt_candidate(text@),
            i <= 12,
            first_rule(text@, 0) == first_rule(text@, i as int),
        decreases 12 - i,
    {
        if rule_fires_exec(i, &lowered, &cand, Ghost(text@)) {
            return Some(rule_platform_at(i));
        }
        i = i + 1;
    }
    None
}

fn rule_fires_exec(i: usize, lowered: &Vec<char>, cand: &String, Ghost(text): Ghost<Seq<char>>) -> (b: bool)
    requires
        i < 12,
        lowered@ == lower_seq(text),
        cand@ == prompt_candidate(text),
    ensures
        b == rule_fires(i as int, text),
{
    let sigs = rule_signatures(i);
    if sigs.len() > 0 {
        let mut hit = false;
        let mut k: usize = 0;
        while k < sigs.len()
            invariant
                sigs@.map_values(|s: &str| s@) == rule_sigs(i as int),
                lowered@ == lower_seq(text),
                k <= sigs@.len(),
                hit == exists|q: int|
                    0 <= q < k && contains(lower_seq(text), lower_seq(#[trigger] rule_sigs(i as int)[q])),
            decreases sigs.len() - k,
        {
            let sig = lower_vec(&to_chars(sigs[k]));
            assert(rule_sigs(i as int)[k as int] == sigs@[k as int]@);
            if contains_seq(lowered, &sig) {
                hit = true;
            }
            k = k + 1;
        }
        if !hit {
            return false;
        }
    }
    let p = rule_platform_at(i);
    regex_hits(prompt_src_for(p), cand.as_str())
}

/// Bounds of the last non-blank line of `v` (or of all of `v`).
pub fn prompt_candidate_of(v: &Vec<char>) -> (s: String)
    ensures
        s@ == prompt_candidate(v@),
{
    let n = v.len();
    let mut pos: usize = 0;
    let mut best: Option<(usize, usize)> = None;
    assert(v@.skip(0) =~= v@);
    while pos < n
        invariant
            n == v@.len(),
            pos <= n,
            best matches Some(bb) ==> bb.0 <= bb.1 <= n,
            last_nonblank(lines(v@)) == (match last_nonblank(lines(v@.skip(pos as int))) {
                Some(x) => Some(x),
                None => match best {
                    Some(bb) => Some(v@.subrange(bb.0 as int, bb.1 as int)),
                    None => None,
                },
            }),
        decreases n - pos,
    {
        let (a, b, nx) = next_line(v, pos);
        let (ta, tb) = trim_range(v, a, b);
        if ta < tb {
            best = Some((a, b));
        }
        proof {
            let l = v@.subrange(a as int, b as int);
            let rest = lines(v@.skip(nx as int));
            assert((seq![l] + rest).drop_first() =~= rest);
            assert((seq![l] + rest)[0] == l);
        }
        pos = nx;
    }
    assert(v@.skip(n as int) =~= Seq::<char>::empty());
    let (lo, hi) = match best {
        Some(bb) => bb,
        None => (0, n),
    };
    assert(v@.subrange(0, n as int) =~= v@);
    let e = trim_end_range(v, lo, hi);
    string_from_range(v, lo, e)
}

/// Stateless check: does the last non-blank line of `text` look like an
/// idle prompt of `platform`? Never true for `Generic`.
pub fn ends_with_prompt(platform: Platform, text: &str) -> (b: bool)
    ensures
        b == (platform != Platform::Generic && regex_hit(prompt_src(platform), prompt_candidate(text@))),
{
    if platform == Platform::Generic {
        return false;
    }
    let v = to_chars(text);
    let cand = prompt_candidate_of(&v);
    regex_hits(prompt_src_for(platform), cand.as_str())
}

/// Latch law: once a feed returns a platform, the detector is locked on it
/// and every later feed returns `None` and changes nothing.
pub proof fn lemma_detector_latches(
    recent: Seq<u8>,
    locked: Option<Platform>,
    a: Seq<u8>,
    b: Seq<u8>,
)
    ensures
        ({
            let (r1, l1, out1) = feed_model(recent, locked, a);
            &&& out1 is Some ==> l1 == out1
            &&& l1 is Some ==> feed_model(r1, l1, b) == (r1, l1, None::<Platform>)
        }),
{
}

/// Window law: the detector never keeps more than `RING_CAP` bytes, and the
/// window always ends with the newest output.
pub proof fn lemma_ring_bounded(recent: Seq<u8>, bytes: Seq<u8>)
    requires
        recent.len() <= RING_CAP,
    ensures
        ring_after(recent, bytes).len() <= RING_CAP,
        bytes.len() <= RING_CAP ==> ring_after(recent, bytes).skip(
            ring_after(recent, bytes).len() - bytes.len(),
        ) == bytes,
{
    let all = recent + bytes;
    if bytes.len() <= RING_CAP {
        let r = ring_after(recent, bytes);
        assert(r.skip(r.len() - bytes.len()) =~= bytes);
    }
}

} // verus!
