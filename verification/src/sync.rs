//! The sync folder: one sealed bundle kept in a folder that another
//! program synchronises, with a small plaintext sidecar saying who wrote it
//! and when. This module decides where things stand (in sync, local or
//! remote changes, a conflict) from what the caller read: the sidecar, the
//! recorded push/pull times and content fingerprints.
use vstd::prelude::*;
use crate::backup::RestoreSummary;

verus! {

/// Settings key of the sync folder.
pub const SYNC_DIR_KEY: &'static str = "backup.sync.dir";
/// Settings key of the last push time.
pub const SYNC_LAST_PUSH_KEY: &'static str = "backup.sync.last_push";
/// Settings key of the last pull time.
pub const SYNC_LAST_PULL_KEY: &'static str = "backup.sync.last_pull";
/// Settings key of the fingerprint last pushed or pulled.
pub const SYNC_FINGERPRINT_KEY: &'static str = "backup.sync.fingerprint";
/// Settings key of the encrypted passphrase fallback.
pub const SYNC_PASSPHRASE_KEY: &'static str = "backup.sync.passphrase";
/// Keyring entry of the sync passphrase.
pub const SYNC_KEYRING_KEY: &'static str = "backup:sync";
/// File name of the bundle in the folder.
pub const SYNC_BUNDLE_FILE: &'static str = "zapx-sync.zapxb";
/// File name of the sidecar in the folder.
pub const SYNC_META_FILE: &'static str = "zapx-sync.json";
/// Event carrying a status the user should see.
pub const SYNC_EVENT: &'static str = "backup-sync";

/// The sidecar next to the bundle.
#[derive(Debug, Clone, PartialEq)]
pub struct SyncMeta {
    pub zapx_sync: u32,
    pub device_id: String,
    pub device_name: String,
    /// RFC 3339; equals the bundle's `created_at`.
    pub written_at: String,
    pub app_version: String,
}

/// Where sync stands.
#[derive(Debug, Clone, Copy, PartialEq, Eq, Structural)]
pub enum SyncState {
    /// No folder configured.
    Disabled,
    /// Folder set, passphrase missing on this device.
    NoPassphrase,
    InSync,
    /// The local content changed since the last push or pull.
    LocalChanges,
    /// The folder holds a bundle newer than the last pull.
    RemoteChanges,
    /// Both of the above.
    Conflict,
    /// The folder or the bundle could not be read.
    Error,
}

/// The status reported to the user.
#[derive(Debug, Clone)]
pub struct SyncStatus {
    pub state: SyncState,
    pub dir: Option<String>,
    pub has_passphrase: bool,
    pub last_push: Option<String>,
    pub last_pull: Option<String>,
    /// The sidecar of the bundle in the folder, if any.
    pub remote: Option<SyncMeta>,
    pub detail: Option<String>,
    pub checked_at: String,
}

/// What a pull did and where sync stands afterwards.
#[derive(Debug)]
pub struct SyncPullResult {
    pub restore: RestoreSummary,
    pub status: SyncStatus,
}

/// What `chrono::DateTime::parse_from_rfc3339` makes of `s`: the instant's
/// Unix seconds and nanoseconds, or `None` when `s` is not RFC 3339.
pub uninterp spec fn rfc3339_utc(s: Seq<char>) -> Option<(i64, u32)>;

/// Parses an RFC 3339 time stamp into its UTC instant.
///
/// Trusted: `chrono::DateTime::parse_from_rfc3339`, then `timestamp` and
/// `timestamp_subsec_nanos`; the result is named `rfc3339_utc`. Two parsed
/// times compare as chrono compares them: by seconds, then nanoseconds.
#[verifier::external_body]
fn parse_ts(s: &str) -> (r: Option<(i64, u32)>)
    ensures
        r == rfc3339_utc(s@),
{
    chrono::DateTime::parse_from_rfc3339(s).ok().map(|d| (d.timestamp(), d.timestamp_subsec_nanos()))
}

/// Whether `a` comes after `b` in lexicographic (code point) order.
pub open spec fn text_after(a: Seq<char>, b: Seq<char>) -> bool
    decreases a.len(),
{
    if a.len() == 0 {
        false
    } else if b.len() == 0 {
        true
    } else if a[0] != b[0] {
        a[0] > b[0]
    } else {
        text_after(a.drop_first(), b.drop_first())
    }
}

/// `a` strictly after `b`: as instants when both parse, else as text.
pub open spec fn is_newer(a: Seq<char>, b: Seq<char>) -> bool {
    match (rfc3339_utc(a), rfc3339_utc(b)) {
        (Some(x), Some(y)) => x.0 > y.0 || (x.0 == y.0 && x.1 > y.1),
        _ => text_after(a, b),
    }
}

fn text_after_exec(a: &Vec<char>, b: &Vec<char>) -> (r: bool)
    ensures
        r == text_after(a@, b@),
{
    let mut i: usize = 0;
    assert(a@.skip(0) =~= a@);
    assert(b@.skip(0) =~= b@);
    while i < a.len() && i < b.len() && a[i] == b[i]
        invariant
            i <= a@.len(),
            i <= b@.len(),
            text_after(a@, b@) == text_after(a@.skip(i as int), b@.skip(i as int)),
        decreases a.len() - i,
    {
        assert(a@.skip(i as int).drop_first() =~= a@.skip(i + 1));
        assert(b@.skip(i as int).drop_first() =~= b@.skip(i + 1));
        i = i + 1;
    }
    if i == a.len() {
        assert(a@.skip(i as int).len() == 0);
        return false;
    }
    if i == b.len() {
        assert(b@.skip(i as int).len() == 0);
        return true;
    }
    assert(a@.skip(i as int)[0] == a@[i as int]);
    assert(b@.skip(i as int)[0] == b@[i as int]);
    a[i] > b[i]
}

/// Whether time stamp `a` is strictly after `b`; unparsable stamps compare
/// as text.
pub fn newer(a: &str, b: &str) -> (r: bool)
    ensures
        r == is_newer(a@, b@),
{
    match (parse_ts(a), parse_ts(b)) {
        (Some(x), Some(y)) => x.0 > y.0 || (x.0 == y.0 && x.1 > y.1),
        _ => text_after_exec(&crate::text::to_chars(a), &crate::text::to_chars(b)),
    }
}

/// Where sync stands, given the fingerprint recorded at the last push or
/// pull (none: never synced with this folder), the current content's
/// fingerprint, the folder's sidecar, and the recorded push and pull times.
/// Local content counts as changed when the fingerprints differ, or, when
/// none was recorded, when the folder holds no bundle yet. The remote
/// counts as newer when its bundle is not our own last push and is newer
/// than the last pull (or nothing was pulled yet).
pub open spec fn sync_state_of(
    stored_fp: Option<Seq<char>>,
    local_fp: Seq<char>,
    remote_written_at: Option<Seq<char>>,
    last_push: Option<Seq<char>>,
    last_pull: Option<Seq<char>>,
) -> SyncState {
    let local_changed = match stored_fp {
        None => remote_written_at is None,
        Some(fp) => fp != local_fp,
    };
    let remote_newer = match remote_written_at {
        None => false,
        Some(w) => last_push != Some(w) && match last_pull {
            None => true,
            Some(lp) => is_newer(w, lp),
        },
    };
    if local_changed && remote_newer {
        SyncState::Conflict
    } else if remote_newer {
        SyncState::RemoteChanges
    } else if local_changed {
        SyncState::LocalChanges
    } else {
        SyncState::InSync
    }
}

fn opt_eq(a: &Option<String>, b: &str) -> (r: bool)
    ensures
        r == (crate::model::opt_str(*a) == Some(b@)),
{
    match a {
        Some(x) => crate::text::str_is(x.as_str(), b),
        None => false,
    }
}

/// The sync state (see `sync_state_of`).
pub fn sync_state(
    stored_fp: &Option<String>,
    local_fp: &str,
    remote: &Option<SyncMeta>,
    last_push: &Option<String>,
    last_pull: &Option<String>,
) -> (r: SyncState)
    ensures
        r == sync_state_of(
            crate::model::opt_str(*stored_fp),
            local_fp@,
            match remote {
                Some(m) => Some(m.written_at@),
                None => None,
            },
            crate::model::opt_str(*last_push),
            crate::model::opt_str(*last_pull),
        ),
{
    let local_changed = match stored_fp {
        None => remote.is_none(),
        Some(fp) => !crate::text::str_is(fp.as_str(), local_fp),
    };
    let remote_newer = match remote {
        None => false,
        Some(m) => !opt_eq(last_push, m.written_at.as_str()) && match last_pull {
            None => true,
            Some(lp) => newer(m.written_at.as_str(), lp.as_str()),
        },
    };
    if local_changed && remote_newer {
        SyncState::Conflict
    } else if remote_newer {
        SyncState::RemoteChanges
    } else if local_changed {
        SyncState::LocalChanges
    } else {
        SyncState::InSync
    }
}

/// Whether the unattended check pushes: only when just the local side
/// changed.
pub fn auto_pushes(state: SyncState) -> (b: bool)
    ensures
        b == (state == SyncState::LocalChanges),
{
    state == SyncState::LocalChanges
}

/// Whether a background check tells the user: remote changes, a conflict
/// or an error.
pub fn worth_telling(state: SyncState) -> (b: bool)
    ensures
        b == (state == SyncState::RemoteChanges || state == SyncState::Conflict || state == SyncState::Error),
{
    state == SyncState::RemoteChanges || state == SyncState::Conflict || state == SyncState::Error
}

/// The sidecar a push writes for a bundle.
pub fn meta_for(device_id: &str, device_name: &str, created_at: &str, app_version: &str) -> (m: SyncMeta)
    ensures
        m.zapx_sync == 1,
        m.device_id@ == device_id@,
        m.device_name@ == device_name@,
        m.written_at@ == created_at@,
        m.app_version@ == app_version@,
{
    SyncMeta {
        zapx_sync: 1,
        device_id: crate::text::owned(device_id),
        device_name: crate::text::owned(device_name),
        written_at: crate::text::owned(created_at),
        app_version: crate::text::owned(app_version),
    }
}

/// Our own push is never news: right after a push that recorded the
/// fingerprint of the content and the bundle's time, the state is in sync
/// whatever was pulled before.
pub proof fn lemma_own_push_in_sync(fp: Seq<char>, written_at: Seq<char>, last_pull: Option<Seq<char>>)
    ensures
        sync_state_of(Some(fp), fp, Some(written_at), Some(written_at), last_pull) == SyncState::InSync,
{
}

} // verus!
