//! Shared building blocks for the importers: the parse result, an empty
//! envelope, and the `SavedSession` builder every importer uses.
use vstd::prelude::*;
use crate::model::{opt_str, ExportFile, Folder, SavedSession, SessionView};
use crate::text::{owned, push_str};

verus! {

/// Result of an importer parse: the envelope plus parser warnings.
pub struct Parsed {
    pub file: ExportFile,
    pub warnings: Vec<String>,
}

/// An envelope with only folders and sessions, version 1, no other content.
pub open spec fn is_envelope(f: ExportFile, folders: Seq<Folder>, sessions: Seq<SavedSession>) -> bool {
    &&& f.zapx_export == 1
    &&& f.app_version@ == Seq::<char>::empty()
    &&& f.exported_at@ == Seq::<char>::empty()
    &&& f.folders@ == folders
    &&& f.sessions@ == sessions
    &&& f.broadcast_groups@.len() == 0
    &&& f.snippets@.len() == 0
    &&& f.highlight_rules@.len() == 0
    &&& f.session_forwards@.len() == 0
}

/// An `ExportFile` holding only the given folders and sessions.
pub fn envelope(folders: Vec<Folder>, sessions: Vec<SavedSession>) -> (f: ExportFile)
    ensures
        is_envelope(f, folders@, sessions@),
{
    ExportFile {
        zapx_export: 1,
        app_version: String::new(),
        exported_at: String::new(),
        folders,
        sessions,
        broadcast_groups: Vec::new(),
        snippets: Vec::new(),
        highlight_rules: Vec::new(),
        session_forwards: Vec::new(),
    }
}

/// A folder row with a file-local id.
pub fn folder(id: i64, parent_id: Option<i64>, name: &str, sort_order: i32) -> (f: Folder)
    ensures
        f@ == (crate::model::FolderView { id, parent_id, name: name@, sort_order }),
{
    Folder { id, parent_id, name: owned(name), sort_order }
}

/// Auth flavour of an imported session; `Key` carries the key path.
pub enum Auth {
    Password,
    Agent,
    Key(String),
}

/// A lower-case hexadecimal digit.
pub open spec fn hex_lower(n: u32) -> char {
    if n < 10 {
        (48 + n) as char
    } else {
        (87 + n) as char
    }
}

/// How serde_json writes one character inside a string literal: `"` and
/// `\\` escaped with a backslash; backspace, tab, line feed, form feed and
/// carriage return as `\b \t \n \f \r`; the other characters below
/// U+0020 as `\u00xx` (lower-case hex); every other character as itself.
pub open spec fn json_char(c: char) -> Seq<char> {
    let u = c as u32;
    if c == '"' {
        seq!['\\', '"']
    } else if c == '\\' {
        seq!['\\', '\\']
    } else if u == 8 {
        seq!['\\', 'b']
    } else if u == 9 {
        seq!['\\', 't']
    } else if u == 10 {
        seq!['\\', 'n']
    } else if u == 12 {
        seq!['\\', 'f']
    } else if u == 13 {
        seq!['\\', 'r']
    } else if u < 0x20 {
        seq!['\\', 'u', '0', '0', hex_lower(u / 16), hex_lower(u % 16)]
    } else {
        seq![c]
    }
}

/// The escaped characters of `s`, in order.
pub open spec fn json_escaped(s: Seq<char>) -> Seq<char>
    decreases s.len(),
{
    if s.len() == 0 {
        Seq::empty()
    } else {
        json_escaped(s.drop_last()) + json_char(s.last())
    }
}

/// What `serde_json::to_string` makes of a string: the JSON string literal,
/// `s` escaped between double quotes.
pub open spec fn json_string_literal(s: Seq<char>) -> Seq<char> {
    seq!['"'] + json_escaped(s) + seq!['"']
}

/// Quotes `s` as a JSON string literal.
///
/// Trusted: `serde_json::to_string::<str>`, which writes the literal that
/// `json_string_literal` describes (its `format_escaped_str` with the
/// `ESCAPE` table and the compact formatter's `write_char_escape`).
/// Serialising a string cannot fail; the fallback (`""` quoted) is never
/// taken.
#[verifier::external_body]
pub(crate) fn json_quote(s: &str) -> (r: String)
    ensures
        r@ == json_string_literal(s@),
{
    serde_json::to_string(s).unwrap_or_else(|_| "\"\"".into())
}

/// The options JSON that records a key path.
pub open spec fn key_options(path: Seq<char>) -> Seq<char> {
    "{\"key_path\":"@ + json_string_literal(path) + "}"@
}

/// Builds the key-path options JSON.
pub fn key_options_json(path: &str) -> (r: String)
    ensures
        r@ == key_options(path@),
{
    let mut r = owned("{\"key_path\":");
    let q = json_quote(path);
    push_str(&mut r, q.as_str());
    push_str(&mut r, "}");
    r
}

/// Abstract auth flavour.
pub enum AuthView {
    Password,
    Agent,
    Key(Seq<char>),
}

impl View for Auth {
    type V = AuthView;

    open spec fn view(&self) -> AuthView {
        match self {
            Auth::Password => AuthView::Password,
            Auth::Agent => AuthView::Agent,
            Auth::Key(p) => AuthView::Key(p@),
        }
    }
}

/// The auth method an imported SSH row records.
pub open spec fn auth_name(auth: AuthView) -> Seq<char> {
    match auth {
        AuthView::Password => "password"@,
        AuthView::Agent => "agent"@,
        AuthView::Key(_) => "key"@,
    }
}

/// The options JSON an imported row records for its auth.
pub open spec fn auth_options(auth: AuthView) -> Seq<char> {
    match auth {
        AuthView::Key(p) => key_options(p),
        _ => "{}"@,
    }
}

/// The row `session` builds from its arguments.
pub open spec fn session_spec(
    id: i64,
    folder_id: Option<i64>,
    name: Seq<char>,
    protocol: Seq<char>,
    host: Option<Seq<char>>,
    port: Option<u16>,
    username: Option<Seq<char>>,
    auth: AuthView,
    sort_order: i64,
) -> SessionView {
    SessionView {
        id,
        folder_id,
        name,
        protocol,
        host,
        port,
        username,
        credential_id: None,
        options_json: auth_options(auth),
        last_used_at: None,
        auth_method: if protocol == "ssh"@ {
            Some(auth_name(auth))
        } else {
            None
        },
        via_session_id: None,
        login_script_json: None,
        sort_order,
    }
}

/// Builds a `SavedSession` row with a file-local id. Non-SSH rows carry no
/// auth method.
pub fn session(
    id: i64,
    folder_id: Option<i64>,
    name: &str,
    protocol: &str,
    host: Option<String>,
    port: Option<u16>,
    username: Option<String>,
    auth: Auth,
    sort_order: i64,
) -> (r: SavedSession)
    ensures
        r@ == session_spec(id, folder_id, name@, protocol@, opt_str(host), port, opt_str(username), auth@, sort_order),
{
    let (auth_method, options_json) = match auth {
        Auth::Password => (owned("password"), owned("{}")),
        Auth::Agent => (owned("agent"), owned("{}")),
        Auth::Key(path) => (owned("key"), key_options_json(path.as_str())),
    };
    let is_ssh = crate::text::chars_eq(&crate::text::to_chars(protocol), &crate::text::to_chars("ssh"));
    let auth_method = if is_ssh {
        Some(auth_method)
    } else {
        None
    };
    SavedSession {
        id,
        folder_id,
        name: owned(name),
        protocol: owned(protocol),
        host,
        port,
        username,
        credential_id: None,
        options_json,
        last_used_at: None,
        auth_method,
        via_session_id: None,
        login_script_json: None,
        sort_order,
    }
}

/// Default port of a protocol when the source omits it: 23 for telnet, 22
/// otherwise.
pub fn default_port(protocol: &str) -> (p: u16)
    ensures
        p == (if protocol@ == "telnet"@ {
            23u16
        } else {
            22u16
        }),
{
    if crate::text::chars_eq(&crate::text::to_chars(protocol), &crate::text::to_chars("telnet")) {
        23
    } else {
        22
    }
}

/// The serial-port options JSON: `{"device":<json>,"baud_rate":<n>}`.
pub open spec fn serial_options(device: Seq<char>, baud: Seq<char>) -> Seq<char> {
    "{\"device\":"@ + json_string_literal(device) + ",\"baud_rate\":"@ + baud + "}"@
}

/// Decimal digits of `n`, most significant first.
pub open spec fn decimal(n: nat) -> Seq<char>
    decreases n,
{
    if n < 10 {
        seq![(48 + n) as char]
    } else {
        decimal(n / 10) + seq![(48 + n % 10) as char]
    }
}

/// `n` written in decimal (`u32`'s `Display`).
pub fn u32_decimal(n: u32) -> (s: String)
    ensures
        s@ == decimal(n as nat),
    decreases n,
{
    if n < 10 {
        let mut s = String::new();
        crate::text::push_char(&mut s, crate::text::char_from_ascii(48 + n));
        s
    } else {
        let mut s = u32_decimal(n / 10);
        crate::text::push_char(&mut s, crate::text::char_from_ascii(48 + n % 10));
        s
    }
}

/// `n` written in decimal (`usize`'s `Display`).
pub fn usize_decimal(n: usize) -> (s: String)
    ensures
        s@ == decimal(n as nat),
    decreases n,
{
    if n < 10 {
        let mut s = String::new();
        crate::text::push_char(&mut s, crate::text::char_from_ascii(48 + n as u32));
        s
    } else {
        let mut s = usize_decimal(n / 10);
        crate::text::push_char(&mut s, crate::text::char_from_ascii(48 + (n % 10) as u32));
        s
    }
}

/// Builds the serial-port options JSON for `device` at `baud`.
pub fn serial_options_json(device: &str, baud: u32) -> (r: String)
    ensures
        r@ == serial_options(device@, decimal(baud as nat)),
{
    let mut r = owned("{\"device\":");
    let q = json_quote(device);
    push_str(&mut r, q.as_str());
    push_str(&mut r, ",\"baud_rate\":");
    let b = u32_decimal(baud);
    push_str(&mut r, b.as_str());
    push_str(&mut r, "}");
    r
}

} // verus!
