//! Restoring a backup bundle: the environment is imported as a plain
//! export, then vault entries are matched by name (new names created,
//! existing ones updated), session credentials are attached only to
//! sessions that have none on this device, settings are applied (but the
//! install-local ones), and `known_hosts` lines are merged. The caller owns
//! the database, the keyring and the files: a [`RestoreRun`] asks for each
//! read or write and is answered with its result.
use vstd::prelude::*;
use crate::backup::{Bundle, RestoreSummary, BUNDLE_VERSION};
use crate::import::{
    answer_view, run_step, AnswerView, Existing, ImportAnswer, ImportRun, ImportStep, Phase, StepView,
    SummaryView, id_get,
};
use crate::model::{opt_str, str_views, AppError, ImportSummary, SavedSession};
use crate::text::{owned, push_str, starts_with};

verus! {

/// A vault entry already on this device.
#[derive(Debug, Clone)]
pub struct VaultRef {
    pub id: i64,
    pub name: String,
    /// The keyring entry holding its secret.
    pub keyring_key: String,
}

/// A read or write the restore asks for.
#[derive(Debug)]
pub enum RestoreAction {
    /// A step of the environment import.
    Import(crate::import::ImportAction),
    /// Store `secret` in the keyring under `key`.
    PutSecret { key: String, secret: String },
    /// Store `secret` in the keyring under a fresh key made of `prefix` and a
    /// random id; answered with the key.
    PutNewSecret { prefix: String, secret: String },
    /// Remove a keyring entry.
    DeleteSecret { key: String },
    /// Rename a vault entry and set its user name.
    UpdateCredentialMeta { id: i64, name: String, username: Option<String> },
    /// Keep the encrypted fallback copy of a credential's secret (best effort).
    WriteCredentialFallback { id: i64, secret: String },
    /// Create a vault entry whose secret is under `key`; answered with its id.
    CreateVaultEntry { name: String, username: Option<String>, key: String },
    /// Read a session; answered with it.
    GetSession { id: i64 },
    /// Look up a vault entry by name; answered with its id, if any.
    GetCredentialByName { name: String },
    /// Attach a credential to a session with an auth method.
    SetSessionAuth { session: i64, credential: i64, method: String },
    /// Create a private credential; answered with its id.
    CreateCredential { name: String, kind: String, username: Option<String>, key: String },
    /// Remember a session's secret for this run of the program.
    CacheSecret { session: i64, secret: String },
    /// Keep the encrypted copy of a session's secret (portable installs).
    StoreSessionSecret { session: i64, secret: String },
    /// Set a setting.
    SetSetting { key: String, value: String },
    /// Merge `known_hosts` lines; answered with how many were added.
    MergeKnownHosts { text: String },
}

/// The caller's answer.
#[derive(Debug)]
pub enum RestoreAnswer {
    Import(ImportAnswer),
    Done,
    Key(String),
    Id(i64),
    Session(SavedSession),
    Credential(Option<i64>),
    Count(usize),
    /// No home directory to merge `known_hosts` into.
    NoHome,
    Failed(String),
}

/// What the restore asks next.
#[derive(Debug)]
pub enum RestoreStep {
    Act(RestoreAction),
    Continue,
    Finished(Result<RestoreSummary, AppError>),
}

/// Abstract request.
pub enum RActionView {
    Import(crate::import::ActionView),
    PutSecret { key: Seq<char>, secret: Seq<char> },
    PutNewSecret { prefix: Seq<char>, secret: Seq<char> },
    DeleteSecret { key: Seq<char> },
    UpdateCredentialMeta { id: i64, name: Seq<char>, username: Option<Seq<char>> },
    WriteCredentialFallback { id: i64, secret: Seq<char> },
    CreateVaultEntry { name: Seq<char>, username: Option<Seq<char>>, key: Seq<char> },
    GetSession { id: i64 },
    GetCredentialByName { name: Seq<char> },
    SetSessionAuth { session: i64, credential: i64, method: Seq<char> },
    CreateCredential { name: Seq<char>, kind: Seq<char>, username: Option<Seq<char>>, key: Seq<char> },
    CacheSecret { session: i64, secret: Seq<char> },
    StoreSessionSecret { session: i64, secret: Seq<char> },
    SetSetting { key: Seq<char>, value: Seq<char> },
    MergeKnownHosts { text: Seq<char> },
}

impl View for RestoreAction {
    type V = RActionView;

    open spec fn view(&self) -> RActionView {
        match self {
            RestoreAction::Import(a) => RActionView::Import(a@),
            RestoreAction::PutSecret { key, secret } => RActionView::PutSecret { key: key@, secret: secret@ },
            RestoreAction::PutNewSecret { prefix, secret } => RActionView::PutNewSecret {
                prefix: prefix@,
                secret: secret@,
            },
            RestoreAction::DeleteSecret { key } => RActionView::DeleteSecret { key: key@ },
            RestoreAction::UpdateCredentialMeta { id, name, username } => RActionView::UpdateCredentialMeta {
                id: *id,
                name: name@,
                username: opt_str(*username),
            },
            RestoreAction::WriteCredentialFallback { id, secret } => RActionView::WriteCredentialFallback {
                id: *id,
                secret: secret@,
            },
            RestoreAction::CreateVaultEntry { name, username, key } => RActionView::CreateVaultEntry {
                name: name@,
                username: opt_str(*username),
                key: key@,
            },
            RestoreAction::GetSession { id } => RActionView::GetSession { id: *id },
            RestoreAction::GetCredentialByName { name } => RActionView::GetCredentialByName { name: name@ },
            RestoreAction::SetSessionAuth { session, credential, method } => RActionView::SetSessionAuth {
                session: *session,
                credential: *credential,
                method: method@,
            },
            RestoreAction::CreateCredential { name, kind, username, key } => RActionView::CreateCredential {
                name: name@,
                kind: kind@,
                username: opt_str(*username),
                key: key@,
            },
            RestoreAction::CacheSecret { session, secret } => RActionView::CacheSecret {
                session: *session,
                secret: secret@,
            },
            RestoreAction::StoreSessionSecret { session, secret } => RActionView::StoreSessionSecret {
                session: *session,
                secret: secret@,
            },
            RestoreAction::SetSetting { key, value } => RActionView::SetSetting { key: key@, value: value@ },
            RestoreAction::MergeKnownHosts { text } => RActionView::MergeKnownHosts { text: text@ },
        }
    }
}

/// Abstract answer.
pub enum RAnswerView {
    Import(AnswerView),
    Done,
    Key(Seq<char>),
    Id(i64),
    Session(SavedSession),
    Credential(Option<i64>),
    Count(int),
    NoHome,
    Failed(Seq<char>),
}

impl View for RestoreAnswer {
    type V = RAnswerView;

    open spec fn view(&self) -> RAnswerView {
        match self {
            RestoreAnswer::Import(a) => RAnswerView::Import(a@),
            RestoreAnswer::Done => RAnswerView::Done,
            RestoreAnswer::Key(k) => RAnswerView::Key(k@),
            RestoreAnswer::Id(i) => RAnswerView::Id(*i),
            RestoreAnswer::Session(s) => RAnswerView::Session(*s),
            RestoreAnswer::Credential(c) => RAnswerView::Credential(*c),
            RestoreAnswer::Count(n) => RAnswerView::Count(*n as int),
            RestoreAnswer::NoHome => RAnswerView::NoHome,
            RestoreAnswer::Failed(m) => RAnswerView::Failed(m@),
        }
    }
}

/// The view of an optional answer.
pub open spec fn ranswer(a: Option<RestoreAnswer>) -> Option<RAnswerView> {
    match a {
        Some(x) => Some(x@),
        None => None,
    }
}

/// The failure message of an answer (empty when it carries none).
pub open spec fn rmsg(a: Option<RAnswerView>) -> Seq<char> {
    match a {
        Some(RAnswerView::Failed(m)) => m,
        _ => Seq::empty(),
    }
}

/// Whether an answer reports a failure.
pub open spec fn rfailed(a: Option<RAnswerView>) -> bool {
    a matches Some(RAnswerView::Failed(_))
}

/// The restore's counters and warnings.
pub struct RSummaryView {
    pub environment: SummaryView,
    pub vault_added: int,
    pub vault_updated: int,
    pub credentials_linked: int,
    pub settings_applied: int,
    pub known_hosts_added: int,
    pub warnings: Seq<Seq<char>>,
}

impl View for RestoreSummary {
    type V = RSummaryView;

    open spec fn view(&self) -> RSummaryView {
        RSummaryView {
            environment: self.environment@,
            vault_added: self.vault_added as int,
            vault_updated: self.vault_updated as int,
            credentials_linked: self.credentials_linked as int,
            settings_applied: self.settings_applied as int,
            known_hosts_added: self.known_hosts_added as int,
            warnings: str_views(self.warnings@),
        }
    }
}

/// Abstract step.
pub enum RStepView {
    Act(RActionView),
    Continue,
    Finished(Result<RSummaryView, Seq<char>>),
}

impl View for RestoreStep {
    type V = RStepView;

    open spec fn view(&self) -> RStepView {
        match self {
            RestoreStep::Act(a) => RStepView::Act(a@),
            RestoreStep::Continue => RStepView::Continue,
            RestoreStep::Finished(Ok(s)) => RStepView::Finished(Ok(s@)),
            RestoreStep::Finished(Err(AppError::Internal(m))) => RStepView::Finished(Err(m@)),
        }
    }
}

// ---------------------------------------------------------------------------
// The run
// ---------------------------------------------------------------------------

/// Where a restore stands.
#[derive(Debug, Clone, Copy, PartialEq, Eq, Structural)]
pub enum RPhase {
    Start,
    /// The environment import.
    Env,
    Vault,
    Credentials,
    Settings,
    KnownHosts,
    Finished,
}

/// What a restore works from.
pub struct RCtx {
    pub version: u32,
    pub file: crate::model::ExportFile,
    pub existing: Existing,
    pub entries: Seq<crate::backup::BundleVaultEntry>,
    pub vaults: Seq<VaultRef>,
    pub credentials: Seq<crate::backup::BundleSessionCredential>,
    pub settings: Seq<(String, String)>,
    pub known_hosts: Option<Seq<char>>,
    pub portable: bool,
}

/// The state of a restore.
pub struct RModel {
    pub phase: RPhase,
    pub env: crate::import::RunModel,
    pub session_map: Seq<(i64, i64)>,
    pub idx: int,
    pub stage: int,
    pub key: Seq<char>,
    pub pending_msg: Seq<char>,
    pub new_id: i64,
    pub current: Option<SavedSession>,
    pub summary: RSummaryView,
}

/// The warning of a vault entry that could not be restored.
pub open spec fn vault_warning(name: Seq<char>, msg: Seq<char>) -> Seq<char> {
    "vault entry «"@ + name + "»: "@ + msg
}

/// The first vault entry named `name`.
pub open spec fn vault_by_name(v: Seq<VaultRef>, name: Seq<char>, from: int) -> Option<int>
    decreases v.len() - from,
{
    if from < 0 || from >= v.len() {
        None
    } else if v[from].name@ == name {
        Some(from)
    } else {
        vault_by_name(v, name, from + 1)
    }
}

/// The empty restore summary.
pub open spec fn no_rsummary() -> RSummaryView {
    RSummaryView {
        environment: crate::import::no_summary(),
        vault_added: 0,
        vault_updated: 0,
        credentials_linked: 0,
        settings_applied: 0,
        known_hosts_added: 0,
        warnings: Seq::empty(),
    }
}

/// The restore ends with an error.
pub open spec fn rabort(m: RModel, msg: Seq<char>) -> (RModel, RStepView) {
    (RModel { phase: RPhase::Finished, ..m }, RStepView::Finished(Err(msg)))
}

/// Moves on to the next entry of the current phase.
pub open spec fn rnext(m: RModel) -> RModel {
    RModel { idx: m.idx + 1, stage: 0, ..m }
}

/// Adds a warning.
pub open spec fn rwarn(m: RModel, w: Seq<char>) -> RModel {
    RModel { summary: RSummaryView { warnings: m.summary.warnings.push(w), ..m.summary }, ..m }
}

/// The answer for the environment import.
pub open spec fn inner_answer(a: Option<RAnswerView>) -> Option<AnswerView> {
    match a {
        Some(RAnswerView::Import(x)) => Some(x),
        _ => None,
    }
}

/// The message refusing a bundle of a newer version.
pub open spec fn newer_bundle_message(v: u32) -> Seq<char> {
    "the backup was made by a newer ZAPX (bundle v"@ + crate::importers::common::decimal(v as nat)
        + ", this build reads v1)"@
}

/// Start: refuse newer bundles, else import the environment.
pub open spec fn rstart_step(c: RCtx, m: RModel) -> (RModel, RStepView) {
    if c.version > BUNDLE_VERSION {
        rabort(m, newer_bundle_message(c.version))
    } else {
        (RModel { phase: RPhase::Env, ..m }, RStepView::Continue)
    }
}

/// One step of the environment import; its failure ends the restore.
pub open spec fn env_step(c: RCtx, m: RModel, a: Option<RAnswerView>) -> (RModel, RStepView) {
    let (e2, st) = run_step(c.file, c.existing, m.env, inner_answer(a));
    match st {
        StepView::Act(x) => (RModel { env: e2, ..m }, RStepView::Act(RActionView::Import(x))),
        StepView::Continue => (RModel { env: e2, ..m }, RStepView::Continue),
        StepView::Finished(Err(msg)) => rabort(RModel { env: e2, ..m }, msg),
        StepView::Finished(Ok(s)) => (
            RModel {
                env: e2,
                phase: RPhase::Vault,
                idx: 0,
                stage: 0,
                session_map: e2.session_map,
                summary: RSummaryView { environment: s, ..m.summary },
                ..m
            },
            RStepView::Continue,
        ),
    }
}

/// One step of the vault entries: an entry with the name of an existing
/// one updates it (secret, then name and user, then the fallback copy); a
/// new one is stored under a fresh key and created. A secret the keyring
/// refuses, or an entry that cannot be created, is a warning.
pub open spec fn vault_step(c: RCtx, m: RModel, a: Option<RAnswerView>) -> (RModel, RStepView) {
    if m.stage == 0 && m.idx >= c.entries.len() {
        (RModel { phase: RPhase::Credentials, idx: 0, stage: 0, ..m }, RStepView::Continue)
    } else {
        let e = c.entries[m.idx];
        let found = vault_by_name(c.vaults, e.name@, 0);
        if m.stage == 0 {
            match found {
                Some(j) => (
                    RModel { stage: 1, ..m },
                    RStepView::Act(RActionView::PutSecret { key: c.vaults[j].keyring_key@, secret: e.secret@ }),
                ),
                None => (
                    RModel { stage: 3, ..m },
                    RStepView::Act(RActionView::PutNewSecret { prefix: "vault:"@, secret: e.secret@ }),
                ),
            }
        } else if m.stage == 1 {
            if rfailed(a) {
                (rnext(rwarn(m, vault_warning(e.name@, rmsg(a)))), RStepView::Continue)
            } else {
                (
                    RModel { stage: 2, ..m },
                    RStepView::Act(
                        RActionView::UpdateCredentialMeta {
                            id: c.vaults[found.unwrap()].id,
                            name: e.name@,
                            username: opt_str(e.username),
                        },
                    ),
                )
            }
        } else if m.stage == 2 {
            if rfailed(a) {
                rabort(m, rmsg(a))
            } else {
                (
                    RModel { stage: 5, ..m },
                    RStepView::Act(RActionView::WriteCredentialFallback { id: c.vaults[found.unwrap()].id, secret: e.secret@ }),
                )
            }
        } else if m.stage == 3 {
            match a {
                Some(RAnswerView::Key(k)) => (
                    RModel { stage: 4, key: k, ..m },
                    RStepView::Act(RActionView::CreateVaultEntry { name: e.name@, username: opt_str(e.username), key: k }),
                ),
                _ => (rnext(rwarn(m, vault_warning(e.name@, rmsg(a)))), RStepView::Continue),
            }
        } else if m.stage == 4 {
            match a {
                Some(RAnswerView::Id(id)) => (
                    RModel { stage: 6, ..m },
                    RStepView::Act(RActionView::WriteCredentialFallback { id, secret: e.secret@ }),
                ),
                _ => (
                    RModel { stage: 7, pending_msg: rmsg(a), ..m },
                    RStepView::Act(RActionView::DeleteSecret { key: m.key }),
                ),
            }
        } else if m.stage == 5 {
            (
                rnext(RModel { summary: RSummaryView { vault_updated: m.summary.vault_updated + 1, ..m.summary }, ..m }),
                RStepView::Continue,
            )
        } else if m.stage == 6 {
            (
                rnext(RModel { summary: RSummaryView { vault_added: m.summary.vault_added + 1, ..m.summary }, ..m }),
                RStepView::Continue,
            )
        } else {
            (rnext(rwarn(m, vault_warning(e.name@, m.pending_msg))), RStepView::Continue)
        }
    }
}

/// The credential kind of a private secret (`ssh_password` by default).
pub open spec fn cred_kind(sc: crate::backup::BundleSessionCredential) -> Seq<char> {
    match sc.kind {
        Some(k) => k@,
        None => "ssh_password"@,
    }
}

/// The auth method a restored private credential gives its session.
pub open spec fn cred_method(s: SavedSession, kind: Seq<char>) -> Seq<char> {
    match s.auth_method {
        Some(m) => m@,
        None => if kind == "ssh_key"@ {
            "key"@
        } else {
            "password"@
        },
    }
}

/// Adds a linked credential and moves on.
pub open spec fn linked(m: RModel) -> RModel {
    rnext(RModel { summary: RSummaryView { credentials_linked: m.summary.credentials_linked + 1, ..m.summary }, ..m })
}

/// One step of the session credentials. Only sessions of the backup that
/// have no credential on this device get one: a link to a vault entry by
/// name, or a private secret stored under a fresh key.
pub open spec fn cred_step(c: RCtx, m: RModel, a: Option<RAnswerView>) -> (RModel, RStepView) {
    if m.stage == 0 && m.idx >= c.credentials.len() {
        (RModel { phase: RPhase::Settings, idx: 0, stage: 0, ..m }, RStepView::Continue)
    } else {
        let sc = c.credentials[m.idx];
        if m.stage == 0 {
            match id_get(m.session_map, sc.session_id) {
                None => (
                    rnext(
                        rwarn(
                            m,
                            "credential for session id "@ + crate::import::signed_decimal(sc.session_id as int)
                                + ": session not found in the backup"@,
                        ),
                    ),
                    RStepView::Continue,
                ),
                Some(n) => (RModel { stage: 1, new_id: n, ..m }, RStepView::Act(RActionView::GetSession { id: n })),
            }
        } else if m.stage == 1 {
            match a {
                Some(RAnswerView::Session(s)) => if s.credential_id is Some {
                    (rnext(m), RStepView::Continue)
                } else {
                    match sc.vault_name {
                        Some(name) => (
                            RModel { stage: 2, current: Some(s), ..m },
                            RStepView::Act(RActionView::GetCredentialByName { name: name@ }),
                        ),
                        None => match sc.secret {
                            None => (rnext(m), RStepView::Continue),
                            Some(sec) => (
                                RModel { stage: 4, current: Some(s), ..m },
                                RStepView::Act(RActionView::PutNewSecret { prefix: "ssh:"@, secret: sec@ }),
                            ),
                        },
                    }
                },
                _ => rabort(m, rmsg(a)),
            }
        } else if m.stage == 2 {
            match a {
                Some(RAnswerView::Credential(Some(cid))) => (
                    RModel { stage: 3, ..m },
                    RStepView::Act(RActionView::SetSessionAuth { session: m.new_id, credential: cid, method: "password"@ }),
                ),
                Some(RAnswerView::Credential(None)) => (
                    rnext(
                        rwarn(
                            m,
                            "session «"@ + m.current.unwrap().name@ + "»: vault entry «"@ + sc.vault_name.unwrap()@
                                + "» not available — left without credential"@,
                        ),
                    ),
                    RStepView::Continue,
                ),
                _ => rabort(m, rmsg(a)),
            }
        } else if m.stage == 3 {
            if rfailed(a) {
                rabort(m, rmsg(a))
            } else {
                (linked(m), RStepView::Continue)
            }
        } else if m.stage == 4 {
            let s = m.current.unwrap();
            match a {
                Some(RAnswerView::Key(k)) => (
                    RModel { stage: 5, ..m },
                    RStepView::Act(
                        RActionView::CreateCredential { name: s.name@, kind: cred_kind(sc), username: opt_str(s.username), key: k },
                    ),
                ),
                _ => (rnext(rwarn(m, "session «"@ + s.name@ + "»: "@ + rmsg(a))), RStepView::Continue),
            }
        } else if m.stage == 5 {
            let s = m.current.unwrap();
            match a {
                Some(RAnswerView::Id(cid)) => (
                    RModel { stage: 6, ..m },
                    RStepView::Act(
                        RActionView::SetSessionAuth { session: m.new_id, credential: cid, method: cred_method(s, cred_kind(sc)) },
                    ),
                ),
                _ => rabort(m, rmsg(a)),
            }
        } else if m.stage == 6 {
            if rfailed(a) {
                rabort(m, rmsg(a))
            } else {
                (
                    RModel { stage: 7, ..m },
                    RStepView::Act(RActionView::CacheSecret { session: m.new_id, secret: sc.secret.unwrap()@ }),
                )
            }
        } else if m.stage == 7 {
            if c.portable {
                (
                    RModel { stage: 8, ..m },
                    RStepView::Act(RActionView::StoreSessionSecret { session: m.new_id, secret: sc.secret.unwrap()@ }),
                )
            } else {
                (linked(m), RStepView::Continue)
            }
        } else {
            (linked(m), RStepView::Continue)
        }
    }
}

/// One step of the settings: all but the install-local (`backup.*`) ones
/// are set.
pub open spec fn settings_step(c: RCtx, m: RModel, a: Option<RAnswerView>) -> (RModel, RStepView) {
    if m.stage == 0 {
        if m.idx >= c.settings.len() {
            (RModel { phase: RPhase::KnownHosts, stage: 0, ..m }, RStepView::Continue)
        } else if starts_with(c.settings[m.idx].0@, "backup."@) {
            (rnext(m), RStepView::Continue)
        } else {
            (
                RModel { stage: 1, ..m },
                RStepView::Act(RActionView::SetSetting { key: c.settings[m.idx].0@, value: c.settings[m.idx].1@ }),
            )
        }
    } else if rfailed(a) {
        rabort(m, rmsg(a))
    } else {
        (
            rnext(RModel { summary: RSummaryView { settings_applied: m.summary.settings_applied + 1, ..m.summary }, ..m }),
            RStepView::Continue,
        )
    }
}

/// The last step: merge `known_hosts` (a failure is a warning), then end.
pub open spec fn known_hosts_step(c: RCtx, m: RModel, a: Option<RAnswerView>) -> (RModel, RStepView) {
    if m.stage == 0 {
        match c.known_hosts {
            None => (RModel { phase: RPhase::Finished, summary: no_rsummary(), ..m }, RStepView::Finished(Ok(m.summary))),
            Some(t) => (RModel { stage: 1, ..m }, RStepView::Act(RActionView::MergeKnownHosts { text: t })),
        }
    } else {
        let m2 = match a {
            Some(RAnswerView::Count(n)) => RModel { summary: RSummaryView { known_hosts_added: n, ..m.summary }, ..m },
            Some(RAnswerView::NoHome) => rwarn(m, "known_hosts not merged: no home directory"@),
            _ => rwarn(m, "known_hosts not merged: "@ + rmsg(a)),
        };
        (RModel { phase: RPhase::Finished, summary: no_rsummary(), ..m2 }, RStepView::Finished(Ok(m2.summary)))
    }
}

/// One step of a restore, given the answer to the previous request.
pub open spec fn restore_step(c: RCtx, m: RModel, a: Option<RAnswerView>) -> (RModel, RStepView) {
    match m.phase {
        RPhase::Start => rstart_step(c, m),
        RPhase::Env => env_step(c, m, a),
        RPhase::Vault => vault_step(c, m, a),
        RPhase::Credentials => cred_step(c, m, a),
        RPhase::Settings => settings_step(c, m, a),
        RPhase::KnownHosts => known_hosts_step(c, m, a),
        RPhase::Finished => (m, RStepView::Continue),
    }
}

/// A restore in progress.
pub struct RestoreRun {
    version: u32,
    run: ImportRun,
    entries: Vec<crate::backup::BundleVaultEntry>,
    vaults: Vec<VaultRef>,
    credentials: Vec<crate::backup::BundleSessionCredential>,
    settings: Vec<(String, String)>,
    known_hosts: Option<String>,
    portable: bool,
    phase: RPhase,
    session_map: Vec<(i64, i64)>,
    idx: usize,
    stage: u8,
    key: String,
    pending_msg: String,
    new_id: i64,
    current: Option<SavedSession>,
    summary: RestoreSummary,
}

fn empty_rsummary() -> (r: RestoreSummary)
    ensures
        r@ == no_rsummary(),
{
    let env = ImportSummary {
        sessions_added: 0,
        sessions_skipped: 0,
        folders_added: 0,
        groups_added: 0,
        snippets_added: 0,
        rules_added: 0,
        warnings: Vec::new(),
    };
    let r = RestoreSummary {
        environment: env,
        vault_added: 0,
        vault_updated: 0,
        credentials_linked: 0,
        settings_applied: 0,
        known_hosts_added: 0,
        warnings: Vec::new(),
    };
    assert(str_views(r.warnings@) =~= Seq::<Seq<char>>::empty());
    assert(str_views(r.environment.warnings@) =~= Seq::<Seq<char>>::empty());
    r
}

fn rpush_warning(s: &mut RestoreSummary, w: String)
    ensures
        final(s)@ == (RSummaryView { warnings: old(s)@.warnings.push(w@), ..old(s)@ }),
{
    s.warnings.push(w);
    assert(str_views(s.warnings@) =~= str_views(old(s).warnings@).push(w@));
}

fn msg_of(a: &Option<RestoreAnswer>) -> (r: String)
    ensures
        r@ == rmsg(ranswer(*a)),
{
    match a {
        Some(RestoreAnswer::Failed(m)) => m.clone(),
        _ => String::new(),
    }
}

fn is_failed(a: &Option<RestoreAnswer>) -> (b: bool)
    ensures
        b == rfailed(ranswer(*a)),
{
    match a {
        Some(RestoreAnswer::Failed(_)) => true,
        _ => false,
    }
}

fn find_vault(v: &Vec<VaultRef>, name: &String) -> (r: Option<usize>)
    ensures
        match r {
            Some(j) => j < v@.len() && vault_by_name(v@, name@, 0) == Some(j as int),
            None => vault_by_name(v@, name@, 0) is None,
        },
{
    let nc = crate::text::to_chars(name.as_str());
    let mut j: usize = 0;
    while j < v.len()
        invariant
            j <= v@.len(),
            nc@ == name@,
            vault_by_name(v@, name@, 0) == vault_by_name(v@, name@, j as int),
        decreases v.len() - j,
    {
        if crate::text::chars_eq(&crate::text::to_chars(v[j].name.as_str()), &nc) {
            return Some(j);
        }
        j = j + 1;
    }
    None
}

impl RestoreRun {
    /// What the restore works from.
    pub closed spec fn ctx(&self) -> RCtx {
        RCtx {
            version: self.version,
            file: self.run.file_view(),
            existing: self.run.existing_view(),
            entries: self.entries@,
            vaults: self.vaults@,
            credentials: self.credentials@,
            settings: self.settings@,
            known_hosts: opt_str(self.known_hosts),
            portable: self.portable,
        }
    }

    /// The restore's state.
    pub closed spec fn model(&self) -> RModel {
        RModel {
            phase: self.phase,
            env: self.run.model(),
            session_map: self.session_map@,
            idx: self.idx as int,
            stage: self.stage as int,
            key: self.key@,
            pending_msg: self.pending_msg@,
            new_id: self.new_id,
            current: self.current,
            summary: self.summary@,
        }
    }

    /// The invariant: the import is live while it runs, positions stay in
    /// their lists, each stage has what it needs, counters stay bounded.
    pub closed spec fn wf(&self) -> bool {
        let s = self.summary;
        &&& self.run.wf()
        &&& (self.phase == RPhase::Start || self.phase == RPhase::Env) ==> self.run.model().phase != Phase::Finished
            && s.vault_added == 0 && s.vault_updated == 0
        &&& (self.phase == RPhase::Start || self.phase == RPhase::Env || self.phase == RPhase::Vault)
            ==> s.credentials_linked == 0
        &&& (self.phase == RPhase::Start || self.phase == RPhase::Env || self.phase == RPhase::Vault
            || self.phase == RPhase::Credentials) ==> s.settings_applied == 0
        &&& self.phase == RPhase::Vault ==> {
            &&& self.idx <= self.entries@.len()
            &&& self.stage <= 7
            &&& (self.stage > 0 ==> self.idx < self.entries@.len())
            &&& ((self.stage == 1 || self.stage == 2 || self.stage == 5) ==> vault_by_name(
                self.vaults@,
                self.entries@[self.idx as int].name@,
                0,
            ) is Some)
            &&& s.vault_added + s.vault_updated <= self.idx
        }
        &&& self.phase == RPhase::Credentials ==> {
            &&& self.idx <= self.credentials@.len()
            &&& self.stage <= 8
            &&& (self.stage > 0 ==> self.idx < self.credentials@.len())
            &&& (self.stage >= 2 ==> self.current is Some)
            &&& (self.stage == 2 ==> self.credentials@[self.idx as int].vault_name is Some)
            &&& (self.stage >= 4 ==> self.credentials@[self.idx as int].secret is Some)
            &&& s.credentials_linked <= self.idx
        }
        &&& self.phase == RPhase::Settings ==> {
            &&& self.idx <= self.settings@.len()
            &&& self.stage <= 1
            &&& (self.stage > 0 ==> self.idx < self.settings@.len())
            &&& s.settings_applied <= self.idx
        }
        &&& self.phase == RPhase::KnownHosts ==> self.stage <= 1 && (self.stage == 1 ==> self.known_hosts is Some)
    }

    /// A restore of `bundle` onto a database holding `existing` records and
    /// `vaults` entries; `portable` installs also keep encrypted secrets.
    pub fn new(bundle: Bundle, existing: Existing, vaults: Vec<VaultRef>, portable: bool) -> (r: RestoreRun)
        ensures
            r.wf(),
            r.model().phase == RPhase::Start,
            r.model().summary == no_rsummary(),
            r.ctx().version == bundle.zapx_bundle,
            r.ctx().file == bundle.environment,
            r.ctx().existing == existing,
            r.ctx().entries == bundle.vault_entries@,
            r.ctx().vaults == vaults@,
            r.ctx().credentials == bundle.session_credentials@,
            r.ctx().settings == bundle.settings@,
            r.ctx().known_hosts == opt_str(bundle.known_hosts),
            r.ctx().portable == portable,
    {
        let Bundle {
            zapx_bundle,
            app_version: _,
            created_at: _,
            device: _,
            environment,
            settings,
            vault_entries,
            session_credentials,
            known_hosts,
        } = bundle;
        RestoreRun {
            version: zapx_bundle,
            run: ImportRun::new(environment, existing),
            entries: vault_entries,
            vaults,
            credentials: session_credentials,
            settings,
            known_hosts,
            portable,
            phase: RPhase::Start,
            session_map: Vec::new(),
            idx: 0,
            stage: 0,
            key: String::new(),
            pending_msg: String::new(),
            new_id: 0,
            current: None,
            summary: empty_rsummary(),
        }
    }

    /// Whether the restore has ended.
    pub fn is_finished(&self) -> (b: bool)
        ensures
            b == (self.model().phase == RPhase::Finished),
    {
        self.phase == RPhase::Finished
    }

    fn abort(&mut self, msg: String) -> (step: RestoreStep)
        requires
            old(self).wf(),
            old(self).phase != RPhase::Start && old(self).phase != RPhase::Env,
        ensures
            final(self).wf(),
            final(self).ctx() == old(self).ctx(),
            (final(self).model(), step@) == rabort(old(self).model(), msg@),
    {
        self.phase = RPhase::Finished;
        RestoreStep::Finished(Err(AppError::Internal(msg)))
    }

    fn advance(&mut self)
        requires
            old(self).wf(),
            old(self).phase == RPhase::Vault || old(self).phase == RPhase::Credentials || old(self).phase == RPhase::Settings,
            old(self).phase == RPhase::Vault ==> old(self).idx < old(self).entries@.len(),
            old(self).phase == RPhase::Credentials ==> old(self).idx < old(self).credentials@.len(),
            old(self).phase == RPhase::Settings ==> old(self).idx < old(self).settings@.len(),
        ensures
            final(self).wf(),
            final(self).ctx() == old(self).ctx(),
            final(self).model() == rnext(old(self).model()),
    {
        let _a = self.entries.len();
        let _b = self.credentials.len();
        let _c = self.settings.len();
        self.idx = self.idx + 1;
        self.stage = 0;
    }

    fn env_next(&mut self, answer: Option<RestoreAnswer>) -> (step: RestoreStep)
        requires
            old(self).wf(),
            old(self).phase == RPhase::Env,
        ensures
            final(self).wf(),
            final(self).ctx() == old(self).ctx(),
            (final(self).model(), step@) == env_step(old(self).ctx(), old(self).model(), ranswer(answer)),
    {
        let inner = match answer {
            Some(RestoreAnswer::Import(a)) => Some(a),
            _ => None,
        };
        match self.run.next(inner) {
            ImportStep::Act(a) => RestoreStep::Act(RestoreAction::Import(a)),
            ImportStep::Continue => RestoreStep::Continue,
            ImportStep::Finished(Err(e)) => {
                self.phase = RPhase::Finished;
                RestoreStep::Finished(Err(e))
            },
            ImportStep::Finished(Ok(env)) => {
                self.session_map = self.run.session_id_map();
                self.summary.environment = env;
                self.phase = RPhase::Vault;
                self.idx = 0;
                self.stage = 0;
                RestoreStep::Continue
            },
        }
    }

    fn vault_next(&mut self, answer: Option<RestoreAnswer>) -> (step: RestoreStep)
        requires
            old(self).wf(),
            old(self).phase == RPhase::Vault,
        ensures
            final(self).wf(),
            final(self).ctx() == old(self).ctx(),
            (final(self).model(), step@) == vault_step(old(self).ctx(), old(self).model(), ranswer(answer)),
    {
        let ghost a = ranswer(answer);
        let _n = self.entries.len();
        if self.stage == 0 && self.idx >= self.entries.len() {
            self.phase = RPhase::Credentials;
            self.idx = 0;
            self.stage = 0;
            return RestoreStep::Continue;
        }
        let i = self.idx;
        let found = find_vault(&self.vaults, &self.entries[i].name);
        if self.stage == 0 {
            match found {
                Some(j) => {
                    self.stage = 1;
                    return RestoreStep::Act(
                        RestoreAction::PutSecret {
                            key: self.vaults[j].keyring_key.clone(),
                            secret: self.entries[i].secret.clone(),
                        },
                    );
                },
                None => {
                    self.stage = 3;
                    return RestoreStep::Act(
                        RestoreAction::PutNewSecret { prefix: owned("vault:"), secret: self.entries[i].secret.clone() },
                    );
                },
            }
        }
        if self.stage == 1 {
            if is_failed(&answer) {
                let mut w = owned("vault entry «");
                push_str(&mut w, self.entries[i].name.as_str());
                push_str(&mut w, "»: ");
                let m = msg_of(&answer);
                push_str(&mut w, m.as_str());
                rpush_warning(&mut self.summary, w);
                self.advance();
                return RestoreStep::Continue;
            }
            let j = found.unwrap();
            self.stage = 2;
            return RestoreStep::Act(
                RestoreAction::UpdateCredentialMeta {
                    id: self.vaults[j].id,
                    name: self.entries[i].name.clone(),
                    username: clone_opt(&self.entries[i].username),
                },
            );
        }
        if self.stage == 2 {
            if is_failed(&answer) {
                let m = msg_of(&answer);
                return self.abort(m);
            }
            let j = found.unwrap();
            self.stage = 5;
            return RestoreStep::Act(
                RestoreAction::WriteCredentialFallback { id: self.vaults[j].id, secret: self.entries[i].secret.clone() },
            );
        }
        if self.stage == 3 {
            match answer {
                Some(RestoreAnswer::Key(k)) => {
                    let key_copy = k.clone();
                    self.key = k;
                    self.stage = 4;
                    return RestoreStep::Act(
                        RestoreAction::CreateVaultEntry {
                            name: self.entries[i].name.clone(),
                            username: clone_opt(&self.entries[i].username),
                            key: key_copy,
                        },
                    );
                },
                _ => {
                    let mut w = owned("vault entry «");
                    push_str(&mut w, self.entries[i].name.as_str());
                    push_str(&mut w, "»: ");
                    let m = msg_of(&answer);
                    push_str(&mut w, m.as_str());
                    rpush_warning(&mut self.summary, w);
                    self.advance();
                    return RestoreStep::Continue;
                },
            }
        }
        if self.stage == 4 {
            match answer {
                Some(RestoreAnswer::Id(id)) => {
                    self.stage = 6;
                    return RestoreStep::Act(
                        RestoreAction::WriteCredentialFallback { id, secret: self.entries[i].secret.clone() },
                    );
                },
                _ => {
                    self.pending_msg = msg_of(&answer);
                    self.stage = 7;
                    return RestoreStep::Act(RestoreAction::DeleteSecret { key: self.key.clone() });
                },
            }
        }
        if self.stage == 5 {
            self.advance();
            self.summary.vault_updated = self.summary.vault_updated + 1;
            return RestoreStep::Continue;
        }
        if self.stage == 6 {
            self.advance();
            self.summary.vault_added = self.summary.vault_added + 1;
            return RestoreStep::Continue;
        }
        let mut w = owned("vault entry «");
        push_str(&mut w, self.entries[i].name.as_str());
        push_str(&mut w, "»: ");
        push_str(&mut w, self.pending_msg.as_str());
        rpush_warning(&mut self.summary, w);
        self.advance();
        RestoreStep::Continue
    }

    fn link_done(&mut self)
        requires
            old(self).wf(),
            old(self).phase == RPhase::Credentials,
            old(self).idx < old(self).credentials@.len(),
        ensures
            final(self).wf(),
            final(self).ctx() == old(self).ctx(),
            final(self).model() == linked(old(self).model()),
    {
        self.advance();
        self.summary.credentials_linked = self.summary.credentials_linked + 1;
    }

    fn cred_next(&mut self, answer: Option<RestoreAnswer>) -> (step: RestoreStep)
        requires
            old(self).wf(),
            old(self).phase == RPhase::Credentials,
        ensures
            final(self).wf(),
            final(self).ctx() == old(self).ctx(),
            (final(self).model(), step@) == cred_step(old(self).ctx(), old(self).model(), ranswer(answer)),
    {
        let ghost a = ranswer(answer);
        let _n = self.credentials.len();
        if self.stage == 0 && self.idx >= self.credentials.len() {
            self.phase = RPhase::Settings;
            self.idx = 0;
            self.stage = 0;
            return RestoreStep::Continue;
        }
        let i = self.idx;
        if self.stage == 0 {
            let sid = self.credentials[i].session_id;
            match crate::import::id_lookup(&self.session_map, sid) {
                None => {
                    let mut w = owned("credential for session id ");
                    let d = crate::import::i64_decimal(sid);
                    push_str(&mut w, d.as_str());
                    push_str(&mut w, ": session not found in the backup");
                    rpush_warning(&mut self.summary, w);
                    self.advance();
                    return RestoreStep::Continue;
                },
                Some(n) => {
                    self.new_id = n;
                    self.stage = 1;
                    return RestoreStep::Act(RestoreAction::GetSession { id: n });
                },
            }
        }
        if self.stage == 1 {
            match answer {
                Some(RestoreAnswer::Session(sess)) => {
                    if sess.credential_id.is_some() {
                        self.advance();
                        return RestoreStep::Continue;
                    }
                    match &self.credentials[i].vault_name {
                        Some(name) => {
                            let nm = name.clone();
                            self.current = Some(sess);
                            self.stage = 2;
                            return RestoreStep::Act(RestoreAction::GetCredentialByName { name: nm });
                        },
                        None => match &self.credentials[i].secret {
                            None => {
                                self.advance();
                                return RestoreStep::Continue;
                            },
                            Some(sec) => {
                                let secret = sec.clone();
                                self.current = Some(sess);
                                self.stage = 4;
                                return RestoreStep::Act(RestoreAction::PutNewSecret { prefix: owned("ssh:"), secret });
                            },
                        },
                    }
                },
                _ => {
                    let m = msg_of(&answer);
                    return self.abort(m);
                },
            }
        }
        if self.stage == 2 {
            match answer {
                Some(RestoreAnswer::Credential(Some(cid))) => {
                    self.stage = 3;
                    return RestoreStep::Act(
                        RestoreAction::SetSessionAuth { session: self.new_id, credential: cid, method: owned("password") },
                    );
                },
                Some(RestoreAnswer::Credential(None)) => {
                    let mut w = owned("session «");
                    match &self.current {
                        Some(cur) => push_str(&mut w, cur.name.as_str()),
                        None => {},
                    }
                    push_str(&mut w, "»: vault entry «");
                    match &self.credentials[i].vault_name {
                        Some(name) => push_str(&mut w, name.as_str()),
                        None => {},
                    }
                    push_str(&mut w, "» not available — left without credential");
                    rpush_warning(&mut self.summary, w);
                    self.advance();
                    return RestoreStep::Continue;
                },
                _ => {
                    let m = msg_of(&answer);
                    return self.abort(m);
                },
            }
        }
        if self.stage == 3 {
            if is_failed(&answer) {
                let m = msg_of(&answer);
                return self.abort(m);
            }
            self.link_done();
            return RestoreStep::Continue;
        }
        let kind = match &self.credentials[i].kind {
            Some(k) => k.clone(),
            None => owned("ssh_password"),
        };
        if self.stage == 4 {
            match answer {
                Some(RestoreAnswer::Key(k)) => {
                    let (name, username) = match &self.current {
                        Some(cur) => (cur.name.clone(), clone_opt(&cur.username)),
                        None => (String::new(), None),
                    };
                    self.stage = 5;
                    return RestoreStep::Act(RestoreAction::CreateCredential { name, kind, username, key: k });
                },
                _ => {
                    let mut w = owned("session «");
                    match &self.current {
                        Some(cur) => push_str(&mut w, cur.name.as_str()),
                        None => {},
                    }
                    push_str(&mut w, "»: ");
                    let m = msg_of(&answer);
                    push_str(&mut w, m.as_str());
                    rpush_warning(&mut self.summary, w);
                    self.advance();
                    return RestoreStep::Continue;
                },
            }
        }
        if self.stage == 5 {
            match answer {
                Some(RestoreAnswer::Id(cid)) => {
                    let method = match &self.current {
                        Some(cur) => crate::backup::restored_auth_method(clone_opt(&cur.auth_method), kind.as_str()),
                        None => String::new(),
                    };
                    self.stage = 6;
                    return RestoreStep::Act(RestoreAction::SetSessionAuth { session: self.new_id, credential: cid, method });
                },
                _ => {
                    let m = msg_of(&answer);
                    return self.abort(m);
                },
            }
        }
        let secret = match &self.credentials[i].secret {
            Some(sec) => sec.clone(),
            None => String::new(),
        };
        if self.stage == 6 {
            if is_failed(&answer) {
                let m = msg_of(&answer);
                return self.abort(m);
            }
            self.stage = 7;
            return RestoreStep::Act(RestoreAction::CacheSecret { session: self.new_id, secret });
        }
        if self.stage == 7 && self.portable {
            self.stage = 8;
            return RestoreStep::Act(RestoreAction::StoreSessionSecret { session: self.new_id, secret });
        }
        self.link_done();
        RestoreStep::Continue
    }

    fn settings_next(&mut self, answer: Option<RestoreAnswer>) -> (step: RestoreStep)
        requires
            old(self).wf(),
            old(self).phase == RPhase::Settings,
        ensures
            final(self).wf(),
            final(self).ctx() == old(self).ctx(),
            (final(self).model(), step@) == settings_step(old(self).ctx(), old(self).model(), ranswer(answer)),
    {
        let _n = self.settings.len();
        if self.stage == 0 {
            if self.idx >= self.settings.len() {
                self.phase = RPhase::KnownHosts;
                self.stage = 0;
                return RestoreStep::Continue;
            }
            let i = self.idx;
            if crate::backup::is_local_setting(self.settings[i].0.as_str()) {
                self.advance();
                return RestoreStep::Continue;
            }
            self.stage = 1;
            return RestoreStep::Act(
                RestoreAction::SetSetting { key: self.settings[i].0.clone(), value: self.settings[i].1.clone() },
            );
        }
        if is_failed(&answer) {
            let m = msg_of(&answer);
            return self.abort(m);
        }
        self.advance();
        self.summary.settings_applied = self.summary.settings_applied + 1;
        RestoreStep::Continue
    }

    fn known_hosts_next(&mut self, answer: Option<RestoreAnswer>) -> (step: RestoreStep)
        requires
            old(self).wf(),
            old(self).phase == RPhase::KnownHosts,
        ensures
            final(self).wf(),
            final(self).ctx() == old(self).ctx(),
            (final(self).model(), step@) == known_hosts_step(old(self).ctx(), old(self).model(), ranswer(answer)),
    {
        if self.stage == 0 {
            match &self.known_hosts {
                None => {
                    let mut done = empty_rsummary();
                    std::mem::swap(&mut done, &mut self.summary);
                    self.phase = RPhase::Finished;
                    return RestoreStep::Finished(Ok(done));
                },
                Some(t) => {
                    let text = t.clone();
                    self.stage = 1;
                    return RestoreStep::Act(RestoreAction::MergeKnownHosts { text });
                },
            }
        }
        match answer {
            Some(RestoreAnswer::Count(n)) => {
                self.summary.known_hosts_added = n;
            },
            Some(RestoreAnswer::NoHome) => {
                rpush_warning(&mut self.summary, owned("known_hosts not merged: no home directory"));
            },
            _ => {
                let mut w = owned("known_hosts not merged: ");
                let m = msg_of(&answer);
                push_str(&mut w, m.as_str());
                rpush_warning(&mut self.summary, w);
            },
        }
        let mut done = empty_rsummary();
        std::mem::swap(&mut done, &mut self.summary);
        self.phase = RPhase::Finished;
        RestoreStep::Finished(Ok(done))
    }

    /// The next request, given the answer to the previous one (`None` on
    /// the first call and after `Continue`).
    pub fn next(&mut self, answer: Option<RestoreAnswer>) -> (step: RestoreStep)
        requires
            old(self).wf(),
            old(self).model().phase != RPhase::Finished,
        ensures
            final(self).wf(),
            final(self).ctx() == old(self).ctx(),
            (final(self).model(), step@) == restore_step(old(self).ctx(), old(self).model(), ranswer(answer)),
    {
        match self.phase {
            RPhase::Start => {
                if self.version > BUNDLE_VERSION {
                    let mut m = owned("the backup was made by a newer ZAPX (bundle v");
                    let d = crate::importers::common::u32_decimal(self.version);
                    push_str(&mut m, d.as_str());
                    push_str(&mut m, ", this build reads v1)");
                    self.phase = RPhase::Finished;
                    return RestoreStep::Finished(Err(AppError::Internal(m)));
                }
                self.phase = RPhase::Env;
                RestoreStep::Continue
            },
            RPhase::Env => self.env_next(answer),
            RPhase::Vault => self.vault_next(answer),
            RPhase::Credentials => self.cred_next(answer),
            RPhase::Settings => self.settings_next(answer),
            RPhase::KnownHosts => self.known_hosts_next(answer),
            RPhase::Finished => RestoreStep::Continue,
        }
    }
}

fn clone_opt(o: &Option<String>) -> (r: Option<String>)
    ensures
        opt_str(r) == opt_str(*o),
{
    match o {
        Some(s) => Some(s.clone()),
        None => None,
    }
}

/// A restore never overwrites a credential this device already has: once
/// the session of a bundled credential reads back with a credential, the
/// restore moves on without a write and without counting a link.
pub proof fn lemma_local_credential_kept(c: RCtx, m: RModel, s: SavedSession)
    requires
        m.phase == RPhase::Credentials,
        m.stage == 1,
        0 <= m.idx < c.credentials.len(),
        s.credential_id is Some,
    ensures
        restore_step(c, m, Some(RAnswerView::Session(s))).1 == RStepView::Continue,
        restore_step(c, m, Some(RAnswerView::Session(s))).0.summary == m.summary,
{
}

/// Install-local settings (`backup.*`) are never written by a restore: no
/// step of a run, in any phase, asks to set one.
pub proof fn lemma_local_settings_kept(c: RCtx, m: RModel, a: Option<RAnswerView>)
    ensures
        restore_step(c, m, a).1 matches RStepView::Act(RActionView::SetSetting { key, value }) ==> !starts_with(
            key,
            "backup."@,
        ),
{
}

/// A refused vault secret or session secret is a warning, not a failure:
/// the restore goes on with the next entry.
pub proof fn lemma_refused_secret_is_warning(c: RCtx, m: RModel, msg: Seq<char>)
    requires
        (m.phase == RPhase::Vault && (m.stage == 1 || m.stage == 3) && 0 <= m.idx < c.entries.len()) || (m.phase
            == RPhase::Credentials && m.stage == 4 && 0 <= m.idx < c.credentials.len() && m.current is Some),
    ensures
        restore_step(c, m, Some(RAnswerView::Failed(msg))).1 == RStepView::Continue,
        restore_step(c, m, Some(RAnswerView::Failed(msg))).0.phase == m.phase,
        restore_step(c, m, Some(RAnswerView::Failed(msg))).0.idx == m.idx + 1,
        restore_step(c, m, Some(RAnswerView::Failed(msg))).0.summary.warnings.len() == m.summary.warnings.len() + 1,
{
}

} // verus!
