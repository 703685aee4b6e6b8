//! Assembling what leaves this device: the environment export (local-only
//! fields stripped, forwards only for sessions that have any) and the
//! credential part of a backup bundle (secrets that cannot be resolved here
//! are left out and reported).
use vstd::prelude::*;
use crate::backup::{bundle_settings, shared_settings, Bundle, BundleSessionCredential, BundleVaultEntry, DeviceInfo, BUNDLE_VERSION};
use crate::importers::ssh_config::pair_views;
use crate::model::{
    opt_str, session_forwards_views, session_views, str_views, BroadcastGroup, ExportFile, Folder, HighlightRule,
    SavedSession, SessionForwards, SessionForwardsView, SessionView, Snippet,
};
use crate::text::{owned, push_str};

verus! {

/// The schema version written into exports.
pub const EXPORT_VERSION: u32 = 1;

/// A session without its local-only fields (keyring reference and last use).
pub open spec fn stripped(s: SessionView) -> SessionView {
    SessionView { credential_id: None, last_used_at: None, ..s }
}

/// Clears the local-only fields of a saved session.
pub fn strip_local_fields(s: SavedSession) -> (r: SavedSession)
    ensures
        r@ == stripped(s@),
{
    SavedSession { credential_id: None, last_used_at: None, ..s }
}

/// The sessions of an export: each without its local-only fields.
pub open spec fn exported_sessions(v: Seq<SessionView>) -> Seq<SessionView> {
    v.map_values(|s: SessionView| stripped(s))
}

/// The per-session forwards that hold at least one forward, in order.
pub open spec fn nonempty_forwards(v: Seq<SessionForwardsView>) -> Seq<SessionForwardsView> {
    v.filter(|f: SessionForwardsView| f.forwards.len() > 0)
}

/// The environment export of a database snapshot, stamped with the app's
/// version and the time of export.
pub fn export_file(
    app_version: &str,
    exported_at: String,
    folders: Vec<Folder>,
    sessions: Vec<SavedSession>,
    broadcast_groups: Vec<BroadcastGroup>,
    snippets: Vec<Snippet>,
    highlight_rules: Vec<HighlightRule>,
    forwards: Vec<SessionForwards>,
) -> (r: ExportFile)
    ensures
        r.zapx_export == EXPORT_VERSION,
        r.app_version@ == app_version@,
        r.exported_at == exported_at,
        r.folders == folders,
        session_views(r.sessions@) == exported_sessions(session_views(sessions@)),
        r.broadcast_groups == broadcast_groups,
        r.snippets == snippets,
        r.highlight_rules == highlight_rules,
        session_forwards_views(r.session_forwards@) == nonempty_forwards(session_forwards_views(forwards@)),
{
    let mut out_sessions: Vec<SavedSession> = Vec::new();
    let mut rest = sessions;
    let ghost ss = session_views(rest@);
    let n = rest.len();
    let mut i: usize = 0;
    assert(ss.take(0) =~= Seq::<SessionView>::empty());
    assert(ss.skip(0) =~= ss);
    assert(ss.take(0).map_values(|s: SessionView| stripped(s)) =~= Seq::<SessionView>::empty());
    while i < n
        invariant
            n == ss.len(),
            i <= n,
            rest@.len() == n - i,
            session_views(rest@) == ss.skip(i as int),
            session_views(out_sessions@) == ss.take(i as int).map_values(|s: SessionView| stripped(s)),
        decreases n - i,
    {
        let ghost before = rest@;
        let s = rest.remove(0);
        assert(s == before[0]);
        assert(session_views(before)[0] == s@);
        assert(session_views(rest@) =~= session_views(before).skip(1));
        let ghost prev = out_sessions@;
        out_sessions.push(strip_local_fields(s));
        assert(session_views(out_sessions@) =~= session_views(prev).push(stripped(s@)));
        assert(ss.take(i + 1) =~= ss.take(i as int).push(ss[i as int]));
        assert(ss.skip(i as int)[0] == ss[i as int]);
        assert(ss.skip(i + 1) =~= ss.skip(i as int).skip(1));
        i = i + 1;
    }
    assert(ss.take(n as int) =~= ss);
    let mut out_forwards: Vec<SessionForwards> = Vec::new();
    let mut frest = forwards;
    let ghost fs = session_forwards_views(frest@);
    let m = frest.len();
    let mut j: usize = 0;
    assert(fs.take(0) =~= Seq::<SessionForwardsView>::empty());
    assert(fs.skip(0) =~= fs);
    while j < m
        invariant
            m == fs.len(),
            j <= m,
            frest@.len() == m - j,
            session_forwards_views(frest@) == fs.skip(j as int),
            session_forwards_views(out_forwards@) == nonempty_forwards(fs.take(j as int)),
        decreases m - j,
    {
        let ghost before = frest@;
        let f = frest.remove(0);
        assert(f == before[0]);
        assert(session_forwards_views(before)[0] == f@);
        assert(session_forwards_views(frest@) =~= session_forwards_views(before).skip(1));
        assert(fs.take(j + 1).drop_last() =~= fs.take(j as int));
        assert(fs.skip(j as int)[0] == fs[j as int]);
        assert(fs.skip(j + 1) =~= fs.skip(j as int).skip(1));
        let ghost prev = out_forwards@;
        proof {
            reveal(Seq::filter);
            assert(fs.take(j + 1).last() == fs[j as int]);
        }
        if f.forwards.len() > 0 {
            out_forwards.push(f);
            assert(session_forwards_views(out_forwards@) =~= session_forwards_views(prev).push(fs[j as int]));
        } else {
            assert(out_forwards@ == prev);
        }
        j = j + 1;
    }
    assert(fs.take(m as int) =~= fs);
    proof {
        reveal(Seq::filter);
    }
    ExportFile {
        zapx_export: EXPORT_VERSION,
        app_version: owned(app_version),
        exported_at,
        folders,
        sessions: out_sessions,
        broadcast_groups,
        snippets,
        highlight_rules,
        session_forwards: out_forwards,
    }
}

/// A reusable vault entry as read on this device, with its secret where
/// it could be resolved.
pub struct VaultSecret {
    pub name: String,
    pub username: Option<String>,
    pub secret: Option<String>,
}

/// The credential of a saved session as read on this device: the linked
/// credential's name and kind, whether it is a reusable vault entry, and
/// the session's secret where it could be resolved.
pub struct SessionSecret {
    pub session_id: i64,
    pub session_name: String,
    pub credential_name: String,
    pub credential_kind: String,
    pub reusable: bool,
    pub secret: Option<String>,
}

/// The credential part of a backup bundle.
pub struct BundleCredentials {
    pub vault_entries: Vec<BundleVaultEntry>,
    pub session_credentials: Vec<BundleSessionCredential>,
    /// One line per secret left out.
    pub warnings: Vec<String>,
}

/// A bundled vault entry as (name, username, secret).
pub open spec fn vault_entry_view(e: BundleVaultEntry) -> (Seq<char>, Option<Seq<char>>, Seq<char>) {
    (e.name@, opt_str(e.username), e.secret@)
}

/// A bundled session credential as (session id, vault name, kind, secret).
pub open spec fn session_credential_view(c: BundleSessionCredential) -> (
    i64,
    Option<Seq<char>>,
    Option<Seq<char>>,
    Option<Seq<char>>,
) {
    (c.session_id, opt_str(c.vault_name), opt_str(c.kind), opt_str(c.secret))
}

/// The warning for a vault entry whose secret is unavailable.
pub open spec fn vault_warning(name: Seq<char>) -> Seq<char> {
    "vault entry «"@ + name + "»: secret unavailable on this device — not included"@
}

/// The warning for a session whose private secret is unavailable.
pub open spec fn session_warning(name: Seq<char>) -> Seq<char> {
    "session «"@ + name + "»: password unavailable on this device — not included"@
}

/// Whether a vault entry goes into the bundle.
pub open spec fn vault_kept(e: VaultSecret) -> bool {
    e.secret is Some
}

/// Whether a session credential goes into the bundle: a link to a reusable
/// entry always, a private secret when it was resolved.
pub open spec fn session_kept(e: SessionSecret) -> bool {
    e.reusable || e.secret is Some
}

/// What a kept session credential becomes.
pub open spec fn bundled_session(e: SessionSecret) -> (i64, Option<Seq<char>>, Option<Seq<char>>, Option<Seq<char>>) {
    if e.reusable {
        (e.session_id, Some(e.credential_name@), None, None)
    } else {
        (e.session_id, None, Some(e.credential_kind@), opt_str(e.secret))
    }
}

/// The vault entries of a bundle.
pub open spec fn bundled_vault(v: Seq<VaultSecret>) -> Seq<(Seq<char>, Option<Seq<char>>, Seq<char>)> {
    v.filter(|e: VaultSecret| vault_kept(e)).map_values(
        |e: VaultSecret| (e.name@, opt_str(e.username), e.secret.unwrap()@),
    )
}

/// The session credentials of a bundle.
pub open spec fn bundled_sessions(v: Seq<SessionSecret>) -> Seq<(i64, Option<Seq<char>>, Option<Seq<char>>, Option<Seq<char>>)> {
    v.filter(|e: SessionSecret| session_kept(e)).map_values(|e: SessionSecret| bundled_session(e))
}

/// The warnings of a bundle: vault entries first, then sessions.
pub open spec fn bundle_warnings(v: Seq<VaultSecret>, s: Seq<SessionSecret>) -> Seq<Seq<char>> {
    v.filter(|e: VaultSecret| !vault_kept(e)).map_values(|e: VaultSecret| vault_warning(e.name@)) + s.filter(
        |e: SessionSecret| !session_kept(e),
    ).map_values(|e: SessionSecret| session_warning(e.session_name@))
}

fn warning_line(prefix: &str, name: &str, suffix: &str) -> (r: String)
    ensures
        r@ == prefix@ + name@ + suffix@,
{
    let mut w = owned(prefix);
    push_str(&mut w, name);
    push_str(&mut w, suffix);
    w
}

/// Splits the device's credentials into what a backup bundle carries and a
/// warning for each secret that could not be resolved here.
pub fn bundle_credentials(vault: Vec<VaultSecret>, sessions: Vec<SessionSecret>) -> (r: BundleCredentials)
    ensures
        r.vault_entries@.map_values(|e: BundleVaultEntry| vault_entry_view(e)) == bundled_vault(vault@),
        r.session_credentials@.map_values(|c: BundleSessionCredential| session_credential_view(c))
            == bundled_sessions(sessions@),
        str_views(r.warnings@) == bundle_warnings(vault@, sessions@),
{
    let mut entries: Vec<BundleVaultEntry> = Vec::new();
    let mut warnings: Vec<String> = Vec::new();
    let ghost vs = vault@;
    let mut rest = vault;
    let n = rest.len();
    let mut i: usize = 0;
    assert(vs.take(0) =~= Seq::<VaultSecret>::empty());
    assert(vs.skip(0) =~= vs);
    proof {
        reveal(Seq::filter);
    }
    while i < n
        invariant
            n == vs.len(),
            i <= n,
            rest@ == vs.skip(i as int),
            entries@.map_values(|e: BundleVaultEntry| vault_entry_view(e)) == bundled_vault(vs.take(i as int)),
            str_views(warnings@) == vs.take(i as int).filter(|e: VaultSecret| !vault_kept(e)).map_values(
                |e: VaultSecret| vault_warning(e.name@),
            ),
        decreases n - i,
    {
        let e = rest.remove(0);
        assert(e == vs[i as int]);
        assert(rest@ =~= vs.skip(i + 1));
        let ghost t = vs.take(i + 1);
        assert(t.drop_last() =~= vs.take(i as int));
        assert(t.last() == e);
        proof {
            reveal(Seq::filter);
        }
        let ghost pe = entries@;
        let ghost pw = warnings@;
        match e.secret {
            Some(secret) => {
                entries.push(BundleVaultEntry { name: e.name, username: e.username, secret });
                assert(entries@.map_values(|e: BundleVaultEntry| vault_entry_view(e)) =~= pe.map_values(
                    |e: BundleVaultEntry| vault_entry_view(e),
                ).push(vault_entry_view(entries@.last())));
                assert(t.filter(|e: VaultSecret| vault_kept(e)) == vs.take(i as int).filter(
                    |e: VaultSecret| vault_kept(e),
                ).push(e));
                assert(t.filter(|e: VaultSecret| !vault_kept(e)) == vs.take(i as int).filter(
                    |e: VaultSecret| !vault_kept(e),
                ));
                assert(bundled_vault(t) =~= bundled_vault(vs.take(i as int)).push(vault_entry_view(entries@.last())));
            },
            None => {
                let w = warning_line("vault entry «", e.name.as_str(), "»: secret unavailable on this device — not included");
                warnings.push(w);
                assert(str_views(warnings@) =~= str_views(pw).push(vault_warning(e.name@)));
                assert(t.filter(|e: VaultSecret| vault_kept(e)) == vs.take(i as int).filter(
                    |e: VaultSecret| vault_kept(e),
                ));
                assert(t.filter(|e: VaultSecret| !vault_kept(e)) == vs.take(i as int).filter(
                    |e: VaultSecret| !vault_kept(e),
                ).push(e));
                assert(t.filter(|e: VaultSecret| !vault_kept(e)).map_values(|e: VaultSecret| vault_warning(e.name@))
                    =~= str_views(pw).push(vault_warning(e.name@)));
            },
        }
        i = i + 1;
    }
    assert(vs.take(n as int) =~= vs);
    let ghost vw = str_views(warnings@);
    let mut creds: Vec<BundleSessionCredential> = Vec::new();
    let ghost ss = sessions@;
    let mut srest = sessions;
    let m = srest.len();
    let mut j: usize = 0;
    assert(ss.take(0) =~= Seq::<SessionSecret>::empty());
    assert(ss.skip(0) =~= ss);
    assert(vw + Seq::<Seq<char>>::empty() =~= vw);
    while j < m
        invariant
            m == ss.len(),
            j <= m,
            srest@ == ss.skip(j as int),
            creds@.map_values(|c: BundleSessionCredential| session_credential_view(c)) == bundled_sessions(
                ss.take(j as int),
            ),
            str_views(warnings@) == vw + ss.take(j as int).filter(|e: SessionSecret| !session_kept(e)).map_values(
                |e: SessionSecret| session_warning(e.session_name@),
            ),
        decreases m - j,
    {
        let e = srest.remove(0);
        assert(e == ss[j as int]);
        assert(srest@ =~= ss.skip(j + 1));
        let ghost t = ss.take(j + 1);
        assert(t.drop_last() =~= ss.take(j as int));
        assert(t.last() == e);
        proof {
            reveal(Seq::filter);
        }
        let ghost pc = creds@;
        let ghost pw = warnings@;
        let ghost ev = e;
        let ghost kept_before = ss.take(j as int).filter(|e: SessionSecret| session_kept(e));
        let ghost lost_before = ss.take(j as int).filter(|e: SessionSecret| !session_kept(e));
        if e.reusable {
            creds.push(BundleSessionCredential { session_id: e.session_id, vault_name: Some(e.credential_name), kind: None, secret: None });
            assert(t.filter(|e: SessionSecret| session_kept(e)) == kept_before.push(ev));
            assert(t.filter(|e: SessionSecret| !session_kept(e)) == lost_before);
            assert(creds@.map_values(|c: BundleSessionCredential| session_credential_view(c)) =~= pc.map_values(
                |c: BundleSessionCredential| session_credential_view(c),
            ).push(bundled_session(ev)));
            assert(bundled_sessions(t) =~= bundled_sessions(ss.take(j as int)).push(bundled_session(ev)));
        } else {
            match e.secret {
                Some(secret) => {
                    creds.push(BundleSessionCredential {
                        session_id: e.session_id,
                        vault_name: None,
                        kind: Some(e.credential_kind),
                        secret: Some(secret),
                    });
                    assert(t.filter(|e: SessionSecret| session_kept(e)) == kept_before.push(ev));
                    assert(t.filter(|e: SessionSecret| !session_kept(e)) == lost_before);
                    assert(creds@.map_values(|c: BundleSessionCredential| session_credential_view(c)) =~= pc.map_values(
                        |c: BundleSessionCredential| session_credential_view(c),
                    ).push(bundled_session(ev)));
                    assert(bundled_sessions(t) =~= bundled_sessions(ss.take(j as int)).push(bundled_session(ev)));
                },
                None => {
                    let w = warning_line("session «", e.session_name.as_str(), "»: password unavailable on this device — not included");
                    warnings.push(w);
                    assert(t.filter(|e: SessionSecret| session_kept(e)) == kept_before);
                    assert(t.filter(|e: SessionSecret| !session_kept(e)) == lost_before.push(ev));
                    assert(str_views(warnings@) =~= str_views(pw).push(session_warning(ev.session_name@)));
                    assert(lost_before.push(ev).map_values(|e: SessionSecret| session_warning(e.session_name@))
                        =~= lost_before.map_values(|e: SessionSecret| session_warning(e.session_name@)).push(
                        session_warning(ev.session_name@),
                    ));
                },
            }
        }
        assert(creds@.map_values(|c: BundleSessionCredential| session_credential_view(c)) =~= bundled_sessions(t));
        assert(str_views(warnings@) =~= vw + t.filter(|e: SessionSecret| !session_kept(e)).map_values(
            |e: SessionSecret| session_warning(e.session_name@),
        ));
        j = j + 1;
    }
    assert(ss.take(m as int) =~= ss);
    BundleCredentials { vault_entries: entries, session_credentials: creds, warnings }
}

/// A backup bundle: the environment export, the settings that travel, the
/// resolved credentials and the device's `known_hosts`, stamped with the
/// app's version, the time and the device. The credentials' warnings stay
/// with the caller.
pub fn build_bundle(
    app_version: &str,
    created_at: String,
    device: DeviceInfo,
    environment: ExportFile,
    all_settings: &Vec<(String, String)>,
    credentials: BundleCredentials,
    known_hosts: Option<String>,
) -> (r: Bundle)
    ensures
        r.zapx_bundle == BUNDLE_VERSION,
        r.app_version@ == app_version@,
        r.created_at == created_at,
        r.device == device,
        r.environment == environment,
        pair_views(r.settings@) == shared_settings(pair_views(all_settings@)),
        r.vault_entries == credentials.vault_entries,
        r.session_credentials == credentials.session_credentials,
        r.known_hosts == known_hosts,
{
    Bundle {
        zapx_bundle: BUNDLE_VERSION,
        app_version: owned(app_version),
        created_at,
        device,
        environment,
        settings: bundle_settings(all_settings),
        vault_entries: credentials.vault_entries,
        session_credentials: credentials.session_credentials,
        known_hosts,
    }
}

/// Credentials never leave in an export: no exported session keeps a
/// keyring reference or a last-use time.
pub proof fn lemma_export_has_no_credentials(sessions: Seq<SessionView>)
    ensures
        forall|i: int|
            0 <= i < sessions.len() ==> (#[trigger] exported_sessions(sessions)[i]).credential_id is None
                && exported_sessions(sessions)[i].last_used_at is None,
        exported_sessions(sessions).len() == sessions.len(),
{
}

} // verus!
