//! Encrypted backup bundles: the whole environment (sessions, folders,
//! groups, snippets, highlight rules, settings, trusted host keys and
//! credentials), sealed under a passphrase by the caller. This module holds
//! the bundle's shape and the rules a backup follows: which settings
//! travel, how long a passphrase must be, which bundle versions can be
//! restored, and what a bundle is summarised as.
use vstd::prelude::*;
use crate::model::{AppError, ExportFile, ImportSummary};
use crate::text::{lines, next_line, owned, push_str, starts_with, to_chars, trim, trim_range, trim_start, trim_start_range};

verus! {

/// Bundle schema version; a restore refuses newer ones.
pub const BUNDLE_VERSION: u32 = 1;

/// File extension of bundles.
pub const BUNDLE_EXTENSION: &'static str = "zapxb";

/// Shortest passphrase accepted for an export, in characters.
pub const MIN_PASSPHRASE_CHARS: usize = 8;

/// Settings key of this install's device id.
pub const DEVICE_ID_KEY: &'static str = "backup.device_id";

/// The device that wrote a bundle.
#[derive(Debug, Clone)]
pub struct DeviceInfo {
    /// Random id minted once per install.
    pub id: String,
    /// Host name at export time (display only).
    pub name: String,
}

/// A reusable vault entry with its secret, matched by name on restore.
#[derive(Debug)]
pub struct BundleVaultEntry {
    pub name: String,
    pub username: Option<String>,
    pub secret: String,
}

/// The credential of one session (file-local id): a link to a vault entry
/// or a private secret of a kind (`ssh_password` or `ssh_key`).
#[derive(Debug)]
pub struct BundleSessionCredential {
    pub session_id: i64,
    pub vault_name: Option<String>,
    pub kind: Option<String>,
    pub secret: Option<String>,
}

/// A backup bundle.
#[derive(Debug)]
pub struct Bundle {
    pub zapx_bundle: u32,
    pub app_version: String,
    pub created_at: String,
    pub device: DeviceInfo,
    /// The plain environment export (file-local ids, no credentials).
    pub environment: ExportFile,
    /// Settings by key (each key once).
    pub settings: Vec<(String, String)>,
    pub vault_entries: Vec<BundleVaultEntry>,
    pub session_credentials: Vec<BundleSessionCredential>,
    /// The exporting device's `known_hosts`, verbatim.
    pub known_hosts: Option<String>,
}

/// What the user sees before restoring: counts, never secrets.
#[derive(Debug, Clone)]
pub struct BundleInfo {
    pub app_version: String,
    pub created_at: String,
    pub device_name: String,
    pub sessions: usize,
    pub folders: usize,
    pub groups: usize,
    pub snippets: usize,
    pub rules: usize,
    pub vault_entries: usize,
    pub session_credentials: usize,
    pub settings: usize,
    pub known_hosts_lines: usize,
}

/// What an export wrote.
#[derive(Debug)]
pub struct BackupExportSummary {
    pub path: String,
    pub info: BundleInfo,
    /// Items left out (a secret this device cannot read).
    pub warnings: Vec<String>,
}

/// What a restore did.
#[derive(Debug, Default)]
pub struct RestoreSummary {
    pub environment: ImportSummary,
    pub vault_added: usize,
    pub vault_updated: usize,
    pub credentials_linked: usize,
    pub settings_applied: usize,
    pub known_hosts_added: usize,
    pub warnings: Vec<String>,
}

/// A `known_hosts` line that names a key: not blank, not a comment.
pub open spec fn host_key_line(l: Seq<char>) -> bool {
    trim(l).len() > 0 && !starts_with(trim_start(l), "#"@)
}

/// How many lines of `ls` name a key.
pub open spec fn host_key_count(ls: Seq<Seq<char>>) -> nat
    decreases ls.len(),
{
    if ls.len() == 0 {
        0
    } else {
        host_key_count(ls.drop_first()) + if host_key_line(ls[0]) {
            1nat
        } else {
            0nat
        }
    }
}

proof fn lemma_host_key_count_bound(ls: Seq<Seq<char>>)
    ensures
        host_key_count(ls) <= ls.len(),
    decreases ls.len(),
{
    if ls.len() > 0 {
        lemma_host_key_count_bound(ls.drop_first());
    }
}

proof fn lemma_lines_bound(s: Seq<char>)
    ensures
        lines(s).len() <= s.len(),
    decreases s.len(),
{
    if s.len() > 0 {
        let i = crate::text::find_from(s, '\n', 0);
        crate::text::lemma_find_from(s, '\n', 0);
        if 0 <= i < s.len() {
            lemma_lines_bound(s.skip(i + 1));
        }
    }
}

/// The number of key lines of a `known_hosts` text.
pub fn known_hosts_lines(text: &str) -> (n: usize)
    ensures
        n as nat == host_key_count(lines(text@)),
{
    let c = to_chars(text);
    let len = c.len();
    let mut n: usize = 0;
    let mut pos: usize = 0;
    assert(c@.skip(0) =~= c@);
    proof {
        lemma_lines_bound(c@);
        lemma_host_key_count_bound(lines(c@));
    }
    while pos < len
        invariant
            len == c@.len(),
            c@ == text@,
            pos <= len,
            host_key_count(lines(text@)) == n + host_key_count(lines(c@.skip(pos as int))),
            host_key_count(lines(text@)) <= len,
        decreases len - pos,
    {
        let (a, b, nx) = next_line(&c, pos);
        let ghost l = c@.subrange(a as int, b as int);
        let ghost rest = lines(c@.skip(nx as int));
        assert((seq![l] + rest).drop_first() =~= rest);
        assert((seq![l] + rest)[0] == l);
        let (ta, tb) = trim_range(&c, a, b);
        let sa = trim_start_range(&c, a, b);
        if ta < tb && c[sa] != '#' {
            proof {
                reveal_strlit("#");
                assert(!starts_with(trim_start(l), "#"@)) by {
                    if starts_with(trim_start(l), "#"@) {
                        assert(trim_start(l).take(1)[0] == '#');
                    }
                }
            }
            n = n + 1;
        } else {
            proof {
                reveal_strlit("#");
                if ta < tb {
                    assert(trim_start(l).take(1) =~= "#"@);
                }
            }
        }
        pos = nx;
    }
    assert(c@.skip(len as int) =~= Seq::<char>::empty());
    n
}

impl Bundle {
    /// The bundle's summary: its header fields and how many items of each
    /// kind it holds.
    pub fn info(&self) -> (r: BundleInfo)
        ensures
            r.app_version@ == self.app_version@,
            r.created_at@ == self.created_at@,
            r.device_name@ == self.device.name@,
            r.sessions == self.environment.sessions@.len(),
            r.folders == self.environment.folders@.len(),
            r.groups == self.environment.broadcast_groups@.len(),
            r.snippets == self.environment.snippets@.len(),
            r.rules == self.environment.highlight_rules@.len(),
            r.vault_entries == self.vault_entries@.len(),
            r.session_credentials == self.session_credentials@.len(),
            r.settings == self.settings@.len(),
            r.known_hosts_lines as nat == match self.known_hosts {
                Some(t) => host_key_count(lines(t@)),
                None => 0,
            },
    {
        BundleInfo {
            app_version: self.app_version.clone(),
            created_at: self.created_at.clone(),
            device_name: self.device.name.clone(),
            sessions: self.environment.sessions.len(),
            folders: self.environment.folders.len(),
            groups: self.environment.broadcast_groups.len(),
            snippets: self.environment.snippets.len(),
            rules: self.environment.highlight_rules.len(),
            vault_entries: self.vault_entries.len(),
            session_credentials: self.session_credentials.len(),
            settings: self.settings.len(),
            known_hosts_lines: match &self.known_hosts {
                Some(t) => known_hosts_lines(t.as_str()),
                None => 0,
            },
        }
    }
}

/// Whether a setting describes this install (`backup.*`) and so neither
/// travels in a bundle nor is overwritten by one.
pub fn is_local_setting(key: &str) -> (b: bool)
    ensures
        b == starts_with(key@, "backup."@),
{
    let c = to_chars(key);
    let n = c.len();
    assert(c@.subrange(0, n as int) =~= c@);
    crate::text::range_starts_with(&c, 0, n, &to_chars("backup."))
}

/// The settings that travel in a bundle: all but the install-local ones,
/// in order.
pub open spec fn shared_settings(all: Seq<(Seq<char>, Seq<char>)>) -> Seq<(Seq<char>, Seq<char>)>
    decreases all.len(),
{
    if all.len() == 0 {
        Seq::empty()
    } else {
        let rest = shared_settings(all.drop_first());
        if starts_with(all[0].0, "backup."@) {
            rest
        } else {
            seq![all[0]] + rest
        }
    }
}

/// Keeps the settings that travel in a bundle.
pub fn bundle_settings(all: &Vec<(String, String)>) -> (r: Vec<(String, String)>)
    ensures
        crate::importers::ssh_config::pair_views(r@) == shared_settings(crate::importers::ssh_config::pair_views(all@)),
{
    let ghost av = crate::importers::ssh_config::pair_views(all@);
    let mut out: Vec<(String, String)> = Vec::new();
    let mut k: usize = 0;
    assert(av.skip(0) =~= av);
    assert(crate::importers::ssh_config::pair_views(out@) =~= Seq::<(Seq<char>, Seq<char>)>::empty());
    while k < all.len()
        invariant
            k <= all@.len(),
            av == crate::importers::ssh_config::pair_views(all@),
            shared_settings(av) == crate::importers::ssh_config::pair_views(out@) + shared_settings(av.skip(k as int)),
        decreases all.len() - k,
    {
        let ghost rest = av.skip(k as int);
        assert(rest[0] == (all@[k as int].0@, all@[k as int].1@));
        assert(rest.drop_first() =~= av.skip(k + 1));
        if !is_local_setting(all[k].0.as_str()) {
            let ghost before = crate::importers::ssh_config::pair_views(out@);
            let item = (all[k].0.clone(), all[k].1.clone());
            out.push(item);
            assert(crate::importers::ssh_config::pair_views(out@) =~= before.push(rest[0]));
            assert(before + (seq![rest[0]] + shared_settings(av.skip(k + 1))) =~= before.push(rest[0]) + shared_settings(av.skip(k + 1)));
        }
        k = k + 1;
    }
    assert(av.skip(k as int) =~= Seq::<(Seq<char>, Seq<char>)>::empty());
    assert(crate::importers::ssh_config::pair_views(out@) + Seq::<(Seq<char>, Seq<char>)>::empty() =~= crate::importers::ssh_config::pair_views(out@));
    out
}

/// The error of a passphrase that is too short.
pub open spec fn short_passphrase_message() -> Seq<char> {
    "the passphrase must be at least 8 characters"@
}

/// Refuses passphrases shorter than `MIN_PASSPHRASE_CHARS` characters.
pub fn validate_passphrase(passphrase: &str) -> (r: Result<(), AppError>)
    ensures
        r is Ok == (passphrase@.len() >= MIN_PASSPHRASE_CHARS),
        r matches Err(AppError::Internal(m)) ==> m@ == short_passphrase_message(),
{
    if to_chars(passphrase).len() < MIN_PASSPHRASE_CHARS {
        return Err(AppError::Internal(owned("the passphrase must be at least 8 characters")));
    }
    Ok(())
}

/// Refuses bundles written by a newer version.
pub fn check_bundle_version(version: u32) -> (r: Result<(), AppError>)
    ensures
        r is Ok == (version <= BUNDLE_VERSION),
        r matches Err(AppError::Internal(m)) ==> m@ == "the backup was made by a newer ZAPX (bundle v"@
            + crate::importers::common::decimal(version as nat) + ", this build reads v1)"@,
{
    if version > BUNDLE_VERSION {
        let mut m = owned("the backup was made by a newer ZAPX (bundle v");
        let d = crate::importers::common::u32_decimal(version);
        push_str(&mut m, d.as_str());
        push_str(&mut m, ", this build reads v1)");
        return Err(AppError::Internal(m));
    }
    Ok(())
}

/// The auth method a restored private credential gives its session: the
/// session's own, else `key` for a key passphrase and `password` otherwise.
pub fn restored_auth_method(auth_method: Option<String>, kind: &str) -> (r: String)
    ensures
        r@ == match auth_method {
            Some(m) => m@,
            None => if kind@ == "ssh_key"@ {
                "key"@
            } else {
                "password"@
            },
        },
{
    match auth_method {
        Some(m) => m,
        None => if crate::text::str_is(kind, "ssh_key") {
            owned("key")
        } else {
            owned("password")
        },
    }
}

} // verus!
