//! What opening a saved session connects to and how it authenticates. The
//! caller resolves secrets (keyring, cache, encrypted store), opens the
//! transport and wires the session; the decisions are here.
use vstd::prelude::*;
use crate::agent::AgentPriority;
use crate::model::{opt_str, AppError, SavedSession};
use crate::text::{owned, push_str};

verus! {

/// What `serde_json::from_str::<Value>(text)` (`null`, which indexes as an empty object, when it does
/// not parse), indexed by `key` and read with `as_str`, gives.
pub uninterp spec fn json_str_field(text: Seq<char>, key: Seq<char>) -> Option<Seq<char>>;

/// The string field `key` of the JSON object `text`.
///
/// Trusted: `serde_json::from_str::<serde_json::Value>`, indexing and
/// `Value::as_str`; the result is named `json_str_field`.
#[verifier::external_body]
pub(crate) fn json_str(text: &str, key: &str) -> (r: Option<String>)
    ensures
        opt_str(r) == json_str_field(text@, key@),
{
    let v: serde_json::Value = serde_json::from_str(text).unwrap_or(serde_json::Value::Null);
    v[key].as_str().map(|s| s.to_owned())
}

/// What `serde_json::from_str::<Value>(text)` (`null`, which indexes as an empty object, when it does
/// not parse), indexed by `key` and read with `as_u64`, gives.
pub uninterp spec fn json_u64_field(text: Seq<char>, key: Seq<char>) -> Option<u64>;

/// The unsigned integer field `key` of the JSON object `text`.
///
/// Trusted: `serde_json::from_str::<serde_json::Value>`, indexing and
/// `Value::as_u64`; the result is named `json_u64_field`.
#[verifier::external_body]
fn json_u64(text: &str, key: &str) -> (r: Option<u64>)
    ensures
        r == json_u64_field(text@, key@),
{
    let v: serde_json::Value = serde_json::from_str(text).unwrap_or(serde_json::Value::Null);
    v[key].as_u64()
}

/// Where a saved session connects.
#[derive(Debug, Clone, PartialEq)]
pub enum ConnectPlan {
    Ssh { host: String, port: u16, username: String, via: Option<i64> },
    Telnet { host: String, port: u16 },
    Serial { device: String, baud_rate: u32 },
}

/// Abstract plan.
pub enum PlanView {
    Ssh { host: Seq<char>, port: u16, username: Seq<char>, via: Option<i64> },
    Telnet { host: Seq<char>, port: u16 },
    Serial { device: Seq<char>, baud_rate: u32 },
}

impl View for ConnectPlan {
    type V = PlanView;

    open spec fn view(&self) -> PlanView {
        match self {
            ConnectPlan::Ssh { host, port, username, via } => PlanView::Ssh {
                host: host@,
                port: *port,
                username: username@,
                via: *via,
            },
            ConnectPlan::Telnet { host, port } => PlanView::Telnet { host: host@, port: *port },
            ConnectPlan::Serial { device, baud_rate } => PlanView::Serial { device: device@, baud_rate: *baud_rate },
        }
    }
}

/// The plan of a saved session, or the error message when it cannot be
/// opened: SSH needs a host and a user (port 22 by default, through its
/// bastion if any), telnet a host (port 23), serial a `device` in its
/// options (`baud_rate` 9600 by default, kept to its low 32 bits).
pub open spec fn plan_of(s: SavedSession) -> Result<PlanView, Seq<char>> {
    if s.protocol@ == "ssh"@ {
        match (s.host, s.username) {
            (None, _) => Err("missing host"@),
            (Some(_), None) => Err("missing username"@),
            (Some(h), Some(u)) => Ok(
                PlanView::Ssh {
                    host: h@,
                    port: match s.port {
                        Some(p) => p,
                        None => 22u16,
                    },
                    username: u@,
                    via: s.via_session_id,
                },
            ),
        }
    } else if s.protocol@ == "telnet"@ {
        match s.host {
            None => Err("missing host"@),
            Some(h) => Ok(
                PlanView::Telnet {
                    host: h@,
                    port: match s.port {
                        Some(p) => p,
                        None => 23u16,
                    },
                },
            ),
        }
    } else if s.protocol@ == "serial"@ {
        match json_str_field(s.options_json@, "device"@) {
            None => Err("missing serial device"@),
            Some(d) => Ok(
                PlanView::Serial {
                    device: d,
                    baud_rate: match json_u64_field(s.options_json@, "baud_rate"@) {
                        Some(b) => b as u32,
                        None => 9600u32,
                    },
                },
            ),
        }
    } else {
        Err("protocol '"@ + s.protocol@ + "' not yet supported"@)
    }
}

/// Decides where a saved session connects.
pub fn connect_plan(session: &SavedSession) -> (r: Result<ConnectPlan, AppError>)
    ensures
        match plan_of(*session) {
            Ok(p) => r matches Ok(q) && q@ == p,
            Err(m) => r matches Err(AppError::Internal(e)) && e@ == m,
        },
{
    let proto = session.protocol.as_str();
    if crate::text::str_is(proto, "ssh") {
        match (&session.host, &session.username) {
            (None, _) => Err(AppError::Internal(owned("missing host"))),
            (Some(_), None) => Err(AppError::Internal(owned("missing username"))),
            (Some(h), Some(u)) => Ok(
                ConnectPlan::Ssh {
                    host: h.clone(),
                    port: match session.port {
                        Some(p) => p,
                        None => 22,
                    },
                    username: u.clone(),
                    via: session.via_session_id,
                },
            ),
        }
    } else if crate::text::str_is(proto, "telnet") {
        match &session.host {
            None => Err(AppError::Internal(owned("missing host"))),
            Some(h) => Ok(
                ConnectPlan::Telnet {
                    host: h.clone(),
                    port: match session.port {
                        Some(p) => p,
                        None => 23,
                    },
                },
            ),
        }
    } else if crate::text::str_is(proto, "serial") {
        match json_str(session.options_json.as_str(), "device") {
            None => Err(AppError::Internal(owned("missing serial device"))),
            Some(d) => Ok(
                ConnectPlan::Serial {
                    device: d,
                    baud_rate: match json_u64(session.options_json.as_str(), "baud_rate") {
                        Some(b) => b as u32,
                        None => 9600,
                    },
                },
            ),
        }
    } else {
        let mut m = owned("protocol '");
        push_str(&mut m, proto);
        push_str(&mut m, "' not yet supported");
        Err(AppError::Internal(m))
    }
}

/// How a saved SSH session authenticates.
#[derive(Debug, Clone, PartialEq)]
pub enum AuthPlan {
    Password(String),
    PublicKey { key_path: String, passphrase: Option<String> },
    KeyboardInteractive,
    Agent { priority: AgentPriority },
}

/// Abstract auth plan.
pub enum AuthView {
    Password(Seq<char>),
    PublicKey { key_path: Seq<char>, passphrase: Option<Seq<char>> },
    KeyboardInteractive,
    Agent { priority: AgentPriority },
}

impl View for AuthPlan {
    type V = AuthView;

    open spec fn view(&self) -> AuthView {
        match self {
            AuthPlan::Password(p) => AuthView::Password(p@),
            AuthPlan::PublicKey { key_path, passphrase } => AuthView::PublicKey {
                key_path: key_path@,
                passphrase: opt_str(*passphrase),
            },
            AuthPlan::KeyboardInteractive => AuthView::KeyboardInteractive,
            AuthPlan::Agent { priority } => AuthView::Agent { priority: *priority },
        }
    }
}

/// The authentication of a session with `auth_method` and `options_json`,
/// given the secret resolved for it (if any) and the agent preference:
/// `key` needs a `key_path` option (the secret is its passphrase), `agent`
/// and `keyboard-interactive` need nothing, anything else is a password
/// and needs the secret.
pub open spec fn auth_of(
    auth_method: Option<Seq<char>>,
    options_json: Seq<char>,
    secret: Option<Seq<char>>,
    priority: AgentPriority,
) -> Result<AuthView, Seq<char>> {
    if auth_method == Some("key"@) {
        match json_str_field(options_json, "key_path"@) {
            None => Err("missing key_path"@),
            Some(k) => Ok(AuthView::PublicKey { key_path: k, passphrase: secret }),
        }
    } else if auth_method == Some("agent"@) {
        Ok(AuthView::Agent { priority })
    } else if auth_method == Some("keyboard-interactive"@) {
        Ok(AuthView::KeyboardInteractive)
    } else {
        match secret {
            None => Err("missing credential"@),
            Some(p) => Ok(AuthView::Password(p)),
        }
    }
}

fn method_is(m: &Option<String>, lit: &str) -> (b: bool)
    ensures
        b == (opt_str(*m) == Some(lit@)),
{
    match m {
        Some(x) => crate::text::str_is(x.as_str(), lit),
        None => false,
    }
}

/// Decides how a saved SSH session authenticates.
pub fn ssh_auth_plan(
    auth_method: &Option<String>,
    options_json: &str,
    secret: Option<String>,
    priority: AgentPriority,
) -> (r: Result<AuthPlan, AppError>)
    ensures
        match auth_of(opt_str(*auth_method), options_json@, opt_str(secret), priority) {
            Ok(a) => r matches Ok(b) && b@ == a,
            Err(m) => r matches Err(AppError::Internal(e)) && e@ == m,
        },
{
    if method_is(auth_method, "key") {
        match json_str(options_json, "key_path") {
            None => Err(AppError::Internal(owned("missing key_path"))),
            Some(k) => Ok(AuthPlan::PublicKey { key_path: k, passphrase: secret }),
        }
    } else if method_is(auth_method, "agent") {
        Ok(AuthPlan::Agent { priority })
    } else if method_is(auth_method, "keyboard-interactive") {
        Ok(AuthPlan::KeyboardInteractive)
    } else {
        match secret {
            None => Err(AppError::Internal(owned("missing credential"))),
            Some(p) => Ok(AuthPlan::Password(p)),
        }
    }
}

/// The secret of a session: the keyring's, else the in-memory cache's,
/// else the encrypted store's.
pub fn first_secret(keyring: Option<String>, cache: Option<String>, stored: Option<String>) -> (r: Option<String>)
    ensures
        opt_str(r) == (if keyring is Some {
            opt_str(keyring)
        } else if cache is Some {
            opt_str(cache)
        } else {
            opt_str(stored)
        }),
{
    match keyring {
        Some(k) => Some(k),
        None => match cache {
            Some(c) => Some(c),
            None => stored,
        },
    }
}

// ---------------------------------------------------------------------------
// Saving a session and walking its bastions
// ---------------------------------------------------------------------------

/// What saving an SSH session records for its auth: the method, the
/// options JSON, and the secret to keep in the keyring with its credential
/// kind (a password; a key passphrase only when not empty).
pub struct SavedAuth {
    pub auth_method: &'static str,
    pub options_json: String,
    pub secret: Option<(String, &'static str)>,
}

/// The view of a secret to keep.
pub open spec fn secret_view(s: Option<(String, &'static str)>) -> Option<(Seq<char>, Seq<char>)> {
    match s {
        Some((v, k)) => Some((v@, k@)),
        None => None,
    }
}

/// The auth record of a new session.
pub open spec fn saved_auth_of(a: crate::model::AuthMethodArg) -> (Seq<char>, Seq<char>, Option<(Seq<char>, Seq<char>)>) {
    match a {
        crate::model::AuthMethodArg::Password { password } => ("password"@, "{}"@, Some((password@, "ssh_password"@))),
        crate::model::AuthMethodArg::Key { key_path, passphrase } => (
            "key"@,
            crate::importers::common::key_options(key_path@),
            match passphrase {
                Some(pp) => if pp@.len() > 0 {
                    Some((pp@, "ssh_key"@))
                } else {
                    None
                },
                None => None,
            },
        ),
        crate::model::AuthMethodArg::KeyboardInteractive => ("keyboard-interactive"@, "{}"@, None),
        crate::model::AuthMethodArg::Agent => ("agent"@, "{}"@, None),
    }
}

/// The auth record of a new session (see `saved_auth_of`).
pub fn saved_auth(a: crate::model::AuthMethodArg) -> (r: SavedAuth)
    ensures
        (r.auth_method@, r.options_json@, secret_view(r.secret)) == saved_auth_of(a),
{
    match a {
        crate::model::AuthMethodArg::Password { password } => SavedAuth {
            auth_method: "password",
            options_json: owned("{}"),
            secret: Some((password, "ssh_password")),
        },
        crate::model::AuthMethodArg::Key { key_path, passphrase } => {
            let options_json = crate::importers::common::key_options_json(key_path.as_str());
            let secret = match passphrase {
                Some(pp) => if crate::text::to_chars(pp.as_str()).len() > 0 {
                    Some((pp, "ssh_key"))
                } else {
                    None
                },
                None => None,
            };
            SavedAuth { auth_method: "key", options_json, secret }
        },
        crate::model::AuthMethodArg::KeyboardInteractive => SavedAuth {
            auth_method: "keyboard-interactive",
            options_json: owned("{}"),
            secret: None,
        },
        crate::model::AuthMethodArg::Agent => SavedAuth { auth_method: "agent", options_json: owned("{}"), secret: None },
    }
}

/// A bastion of a new session must be an SSH session.
pub fn check_bastion(via_id: i64, protocol: &str) -> (r: Result<(), AppError>)
    ensures
        r is Ok == (protocol@ == "ssh"@),
        r matches Err(AppError::Internal(m)) ==> m@ == "via_session_id "@ + crate::import::signed_decimal(via_id as int)
            + " is not an SSH session"@,
{
    if crate::text::str_is(protocol, "ssh") {
        return Ok(());
    }
    let mut m = owned("via_session_id ");
    let d = crate::import::i64_decimal(via_id);
    push_str(&mut m, d.as_str());
    push_str(&mut m, " is not an SSH session");
    Err(AppError::Internal(m))
}

/// What an update of saved session `id` is refused for, before its bastion
/// is looked at.
pub open spec fn update_refusal(id: i64, name: Seq<char>, via_session_id: Option<i64>) -> Option<Seq<char>> {
    if crate::text::trim(name).len() == 0 {
        Some("name is required"@)
    } else if via_session_id == Some(id) {
        Some("session cannot use itself as a jump host"@)
    } else {
        None
    }
}

/// Checks an update of saved session `id`: the name must not be blank and
/// the session cannot be its own jump host. Gives the trimmed name to
/// store. (A bastion must also be an SSH session: `check_bastion`, once the
/// bastion has been read.)
pub fn check_session_update(id: i64, name: &str, via_session_id: Option<i64>) -> (r: Result<String, AppError>)
    ensures
        match update_refusal(id, name@, via_session_id) {
            Some(m) => r matches Err(AppError::Internal(e)) && e@ == m,
            None => r matches Ok(t) && t@ == crate::text::trim(name@),
        },
{
    let t = crate::text::trim_str(name);
    if crate::text::to_chars(t.as_str()).len() == 0 {
        return Err(AppError::Internal(owned("name is required")));
    }
    match via_session_id {
        Some(v) => {
            if v == id {
                return Err(AppError::Internal(owned("session cannot use itself as a jump host")));
            }
        },
        None => {},
    }
    Ok(t)
}

/// Walks a chain of bastions (`via_session_id` links) from the target's
/// bastion outwards, refusing cycles and non-SSH hops.
pub struct ChainWalk {
    visited: Vec<i64>,
}

impl ChainWalk {
    /// The sessions visited so far, nearest bastion first.
    pub closed spec fn visited(&self) -> Seq<i64> {
        self.visited@
    }

    /// No session is visited twice.
    pub closed spec fn wf(&self) -> bool {
        forall|i: int, j: int| 0 <= i < j < self.visited@.len() ==> self.visited@[i] != self.visited@[j]
    }

    /// A walk that has visited nothing.
    pub fn new() -> (r: ChainWalk)
        ensures
            r.wf(),
            r.visited().len() == 0,
    {
        ChainWalk { visited: Vec::new() }
    }

    /// Enters session `id` (reached through `via_session_id`), an SSH
    /// session when `protocol` is `ssh`: a session seen before closes a
    /// cycle, a non-SSH one cannot be a bastion.
    pub fn visit(&mut self, id: i64, protocol: &str) -> (r: Result<(), AppError>)
        requires
            old(self).wf(),
        ensures
            final(self).wf(),
            old(self).visited().contains(id) ==> (r matches Err(AppError::Internal(m)) && m@
                == "circular via_session_id chain at session "@ + crate::import::signed_decimal(id as int)
                && final(self).visited() == old(self).visited()),
            !old(self).visited().contains(id) && protocol@ != "ssh"@ ==> (r matches Err(AppError::Internal(m))
                && m@ == "via_session_id "@ + crate::import::signed_decimal(id as int) + " points to non-SSH session"@
                && final(self).visited() == old(self).visited()),
            !old(self).visited().contains(id) && protocol@ == "ssh"@ ==> r is Ok && final(self).visited()
                == old(self).visited().push(id),
    {
        let mut i: usize = 0;
        while i < self.visited.len()
            invariant
                i <= self.visited@.len(),
                self.visited@ == old(self).visited@,
                self.wf(),
                forall|j: int| 0 <= j < i ==> self.visited@[j] != id,
            decreases self.visited.len() - i,
        {
            if self.visited[i] == id {
                assert(self.visited@.contains(id));
                let mut m = owned("circular via_session_id chain at session ");
                let d = crate::import::i64_decimal(id);
                push_str(&mut m, d.as_str());
                return Err(AppError::Internal(m));
            }
            i = i + 1;
        }
        if !crate::text::str_is(protocol, "ssh") {
            let mut m = owned("via_session_id ");
            let d = crate::import::i64_decimal(id);
            push_str(&mut m, d.as_str());
            push_str(&mut m, " points to non-SSH session");
            return Err(AppError::Internal(m));
        }
        self.visited.push(id);
        Ok(())
    }

    /// The chain to connect through, outermost bastion first.
    pub fn chain(&self) -> (r: Vec<i64>)
        ensures
            r@ == self.visited().reverse(),
    {
        let mut r: Vec<i64> = Vec::new();
        let mut k = self.visited.len();
        while k > 0
            invariant
                k <= self.visited@.len(),
                r@ == self.visited@.subrange(k as int, self.visited@.len() as int).reverse(),
            decreases k,
        {
            r.push(self.visited[k - 1]);
            assert(self.visited@.subrange(k - 1, self.visited@.len() as int).reverse() =~= self.visited@.subrange(
                k as int,
                self.visited@.len() as int,
            ).reverse().push(self.visited@[k - 1]));
            k = k - 1;
        }
        assert(self.visited@.subrange(0, self.visited@.len() as int) =~= self.visited@);
        r
    }
}

/// Where a bastion connects: its host, port (22 by default) and user.
pub fn bastion_target(s: &SavedSession) -> (r: Result<(String, u16, String), AppError>)
    ensures
        match (s.host, s.username) {
            (Some(h), Some(u)) => r matches Ok((rh, rp, ru)) && rh@ == h@ && ru@ == u@ && rp == match s.port {
                Some(p) => p,
                None => 22u16,
            },
            (None, _) => r matches Err(AppError::Internal(m)) && m@ == "bastion "@ + crate::import::signed_decimal(
                s.id as int,
            ) + " missing host"@,
            (Some(_), None) => r matches Err(AppError::Internal(m)) && m@ == "bastion "@
                + crate::import::signed_decimal(s.id as int) + " missing username"@,
        },
{
    match (&s.host, &s.username) {
        (Some(h), Some(u)) => Ok(
            (
                h.clone(),
                match s.port {
                    Some(p) => p,
                    None => 22,
                },
                u.clone(),
            ),
        ),
        (None, _) => {
            let mut m = owned("bastion ");
            let d = crate::import::i64_decimal(s.id);
            push_str(&mut m, d.as_str());
            push_str(&mut m, " missing host");
            Err(AppError::Internal(m))
        },
        (Some(_), None) => {
            let mut m = owned("bastion ");
            let d = crate::import::i64_decimal(s.id);
            push_str(&mut m, d.as_str());
            push_str(&mut m, " missing username");
            Err(AppError::Internal(m))
        },
    }
}

} // verus!
