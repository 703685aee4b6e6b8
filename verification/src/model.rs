//! Persisted records and the transfer envelope shared by the importers,
//! the export/import pipeline and the backup bundle.
use vstd::prelude::*;

verus! {

/// A terminal colour scheme.
#[derive(Debug, Clone, PartialEq)]
pub struct ColorScheme {
    pub id: i64,
    pub name: String,
    pub palette_json: String,
    pub is_builtin: bool,
}

/// A finished or running session log.
#[derive(Debug, Clone, PartialEq)]
pub struct SessionLog {
    pub id: i64,
    pub session_id: Option<i64>,
    pub started_at: String,
    pub ended_at: Option<String>,
    pub file_path: String,
    pub bytes: i64,
    pub format: String,
}

/// A session folder; `parent_id` is `None` at the root.
#[derive(Debug, Clone, PartialEq)]
pub struct Folder {
    pub id: i64,
    pub parent_id: Option<i64>,
    pub name: String,
    pub sort_order: i32,
}

/// A named, ordered set of saved sessions opened together.
#[derive(Debug, Clone, PartialEq)]
pub struct BroadcastGroup {
    pub id: i64,
    pub name: String,
    pub sort_order: i32,
    pub session_ids: Vec<i64>,
}

/// A port forward saved on a session. `target_*` are `None` for dynamic
/// (SOCKS5) forwards.
#[derive(Debug, Clone, PartialEq)]
pub struct SavedForward {
    /// "local" (-L), "dynamic" (-D) or "remote" (-R).
    pub kind: String,
    pub bind_addr: String,
    pub bind_port: u16,
    pub target_host: Option<String>,
    pub target_port: Option<u16>,
}

/// A snippet (or macro) for the button bar and the hint popup.
#[derive(Debug, Clone, PartialEq)]
pub struct Snippet {
    pub id: i64,
    pub name: String,
    pub content: String,
    pub sort_order: i64,
    pub created_at: String,
    /// `None` = global; `Some(p)` = scoped to one platform identifier.
    pub platform: Option<String>,
    pub color: Option<String>,
}

/// One row of the command history.
#[derive(Debug, Clone, PartialEq)]
pub struct CommandHistoryEntry {
    pub command: String,
    pub freq: i64,
    pub last_used: String,
}

/// A keyword-highlighting rule.
#[derive(Debug, Clone, PartialEq)]
pub struct HighlightRule {
    pub id: i64,
    pub name: String,
    pub pattern: String,
    pub is_regex: bool,
    /// "#RRGGBB" or `None`.
    pub fg_color: Option<String>,
    pub bg_color: Option<String>,
    pub bold: bool,
    pub underline: bool,
    pub enabled: bool,
    pub sort_order: i32,
}

/// A saved connection.
#[derive(Debug, Clone, PartialEq)]
pub struct SavedSession {
    pub id: i64,
    pub folder_id: Option<i64>,
    pub name: String,
    pub protocol: String,
    pub host: Option<String>,
    pub port: Option<u16>,
    pub username: Option<String>,
    pub credential_id: Option<i64>,
    pub options_json: String,
    pub last_used_at: Option<String>,
    /// SSH auth method: `None`/"password" | "key" | "agent".
    pub auth_method: Option<String>,
    /// ProxyJump: the saved session used as transport for this one.
    pub via_session_id: Option<i64>,
    pub login_script_json: Option<String>,
    pub sort_order: i64,
}

/// The saved forwards of one session, referenced by its file-local id.
#[derive(Debug, Clone, PartialEq)]
pub struct SessionForwards {
    pub session_id: i64,
    pub forwards: Vec<SavedForward>,
}

/// The versioned export envelope.
#[derive(Debug, Clone, PartialEq)]
pub struct ExportFile {
    /// Schema version; imports reject newer files.
    pub zapx_export: u32,
    pub app_version: String,
    pub exported_at: String,
    pub folders: Vec<Folder>,
    pub sessions: Vec<SavedSession>,
    pub broadcast_groups: Vec<BroadcastGroup>,
    pub snippets: Vec<Snippet>,
    pub highlight_rules: Vec<HighlightRule>,
    /// Forwards keyed by file-local session id.
    pub session_forwards: Vec<SessionForwards>,
}

/// What an export wrote.
#[derive(Debug, Clone, PartialEq)]
pub struct ExportSummary {
    pub path: String,
    pub sessions: usize,
    pub folders: usize,
    pub groups: usize,
    pub snippets: usize,
    pub rules: usize,
}

/// What an import added, skipped and warned about.
#[derive(Debug, Clone, PartialEq, Default)]
pub struct ImportSummary {
    pub sessions_added: usize,
    pub sessions_skipped: usize,
    pub folders_added: usize,
    pub groups_added: usize,
    pub snippets_added: usize,
    pub rules_added: usize,
    pub warnings: Vec<String>,
}

/// A recent command offered in the snippets dialog.
#[derive(Debug, Clone, PartialEq)]
pub struct RecentCommand {
    pub text: String,
    pub freq: i64,
}

/// A macro in the macro export envelope.
#[derive(Debug, Clone, PartialEq)]
pub struct ExportedMacro {
    pub name: String,
    pub color: Option<String>,
    pub folder: Option<String>,
    pub steps_json: String,
}

/// The versioned macro export envelope.
#[derive(Debug, Clone, PartialEq)]
pub struct MacroExportFile {
    pub zapx_macro_export: u32,
    pub macros: Vec<ExportedMacro>,
}

/// What a macro import added and skipped.
#[derive(Debug, Clone, PartialEq, Default)]
pub struct MacroImportSummary {
    pub added: usize,
    pub skipped: usize,
}

/// A vault entry as the frontend sees it (no secret).
#[derive(Debug, Clone, PartialEq)]
pub struct VaultEntryDto {
    pub id: i64,
    pub name: String,
    pub username: Option<String>,
}

/// A platform as listed in the UI.
#[derive(Debug, Clone, PartialEq)]
pub struct PlatformInfo {
    pub id: String,
    pub name: String,
}

/// How the frontend specifies SSH authentication.
#[derive(Debug, Clone, PartialEq)]
pub enum AuthMethodArg {
    Password { password: String },
    Key { key_path: String, passphrase: Option<String> },
    KeyboardInteractive,
    Agent,
}

/// An error crossing into the frontend.
#[derive(Debug, Clone, PartialEq)]
pub enum AppError {
    Internal(String),
}

/// One entry of a remote directory listing.
#[derive(Debug, Clone, PartialEq)]
pub struct SftpEntry {
    pub name: String,
    /// `"dir" | "file" | "symlink" | "other"`.
    pub kind: String,
    pub size: Option<u64>,
    pub permissions: Option<u32>,
    pub mtime: Option<u64>,
}

/// Live metadata of a port forward.
#[derive(Debug, Clone, PartialEq)]
pub struct ForwardInfo {
    pub id: String,
    pub kind: String,
    pub bind_addr: String,
    pub bind_port: u16,
    pub target_host: Option<String>,
    pub target_port: Option<u16>,
}

/// Where an incoming remote-forward channel is bridged to.
#[derive(Debug, Clone, PartialEq)]
pub struct RemoteTarget {
    pub host: String,
    pub port: u16,
}

/// One keyboard-interactive prompt.
#[derive(Debug, Clone, PartialEq)]
pub struct KiPrompt {
    pub prompt: String,
    pub echo: bool,
}

/// A keyboard-interactive request from the server.
#[derive(Debug, Clone, PartialEq)]
pub struct KiRequest {
    pub name: String,
    pub instructions: String,
    pub prompts: Vec<KiPrompt>,
}

/// The result of checking a server's host key against known_hosts.
#[derive(Debug, Clone, PartialEq)]
pub enum HostKeyStatus {
    Known,
    Unknown { fingerprint: String },
    Changed { fingerprint: String },
}

/// Bidirectional TCP maximum segment size.
#[derive(Debug, Clone, Copy, PartialEq, Eq, Default)]
pub struct TcpMss {
    pub send: Option<u32>,
    pub recv: Option<u32>,
}

/// The view of an optional string.
pub open spec fn opt_str(o: Option<String>) -> Option<Seq<char>> {
    match o {
        Some(s) => Some(s@),
        None => None,
    }
}

/// Abstract folder.
pub struct FolderView {
    pub id: i64,
    pub parent_id: Option<i64>,
    pub name: Seq<char>,
    pub sort_order: i32,
}

impl View for Folder {
    type V = FolderView;

    open spec fn view(&self) -> FolderView {
        FolderView { id: self.id, parent_id: self.parent_id, name: self.name@, sort_order: self.sort_order }
    }
}

/// Abstract port forward.
pub struct ForwardView {
    pub kind: Seq<char>,
    pub bind_addr: Seq<char>,
    pub bind_port: u16,
    pub target_host: Option<Seq<char>>,
    pub target_port: Option<u16>,
}

impl View for SavedForward {
    type V = ForwardView;

    open spec fn view(&self) -> ForwardView {
        ForwardView {
            kind: self.kind@,
            bind_addr: self.bind_addr@,
            bind_port: self.bind_port,
            target_host: opt_str(self.target_host),
            target_port: self.target_port,
        }
    }
}

/// Abstract saved session.
pub struct SessionView {
    pub id: i64,
    pub folder_id: Option<i64>,
    pub name: Seq<char>,
    pub protocol: Seq<char>,
    pub host: Option<Seq<char>>,
    pub port: Option<u16>,
    pub username: Option<Seq<char>>,
    pub credential_id: Option<i64>,
    pub options_json: Seq<char>,
    pub last_used_at: Option<Seq<char>>,
    pub auth_method: Option<Seq<char>>,
    pub via_session_id: Option<i64>,
    pub login_script_json: Option<Seq<char>>,
    pub sort_order: i64,
}

impl View for SavedSession {
    type V = SessionView;

    open spec fn view(&self) -> SessionView {
        SessionView {
            id: self.id,
            folder_id: self.folder_id,
            name: self.name@,
            protocol: self.protocol@,
            host: opt_str(self.host),
            port: self.port,
            username: opt_str(self.username),
            credential_id: self.credential_id,
            options_json: self.options_json@,
            last_used_at: opt_str(self.last_used_at),
            auth_method: opt_str(self.auth_method),
            via_session_id: self.via_session_id,
            login_script_json: opt_str(self.login_script_json),
            sort_order: self.sort_order,
        }
    }
}

/// Abstract per-session forwards.
pub struct SessionForwardsView {
    pub session_id: i64,
    pub forwards: Seq<ForwardView>,
}

impl View for SessionForwards {
    type V = SessionForwardsView;

    open spec fn view(&self) -> SessionForwardsView {
        SessionForwardsView {
            session_id: self.session_id,
            forwards: Seq::new(self.forwards@.len(), |i: int| self.forwards@[i]@),
        }
    }
}

/// The views of a vector's elements.
pub open spec fn folder_views(v: Seq<Folder>) -> Seq<FolderView> {
    Seq::new(v.len(), |i: int| v[i]@)
}

/// The views of a vector's elements.
pub open spec fn session_views(v: Seq<SavedSession>) -> Seq<SessionView> {
    Seq::new(v.len(), |i: int| v[i]@)
}

/// The views of a vector's elements.
pub open spec fn forward_views(v: Seq<SavedForward>) -> Seq<ForwardView> {
    Seq::new(v.len(), |i: int| v[i]@)
}

/// The views of a vector's elements.
pub open spec fn session_forwards_views(v: Seq<SessionForwards>) -> Seq<SessionForwardsView> {
    Seq::new(v.len(), |i: int| v[i]@)
}

/// The views of a vector of strings.
pub open spec fn str_views(v: Seq<String>) -> Seq<Seq<char>> {
    Seq::new(v.len(), |i: int| v[i]@)
}

} // verus!
