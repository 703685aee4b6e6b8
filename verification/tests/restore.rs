use zapx::backup::{Bundle, BundleSessionCredential, BundleVaultEntry, DeviceInfo, RestoreSummary};
use zapx::import::{Existing, ImportAction, ImportAnswer};
use zapx::importers::common::envelope;
use zapx::model::{AppError, SavedSession};
use zapx::restore::{RestoreAction, RestoreAnswer, RestoreRun, RestoreStep, VaultRef};

#[derive(Clone)]
struct Cred {
    id: i64,
    name: String,
    key: String,
}

#[derive(Default)]
struct Device {
    next: i64,
    sessions: Vec<SavedSession>,
    creds: Vec<Cred>,
    vaults: Vec<VaultRef>,
    keyring: Vec<(String, String)>,
    settings: Vec<(String, String)>,
    refuse_keyring: bool,
    known_hosts: Option<usize>,
}

impl Device {
    fn id(&mut self) -> i64 {
        self.next += 1;
        self.next
    }

    fn put(&mut self, key: &str, secret: &str) -> bool {
        if self.refuse_keyring {
            return false;
        }
        self.keyring.retain(|(k, _)| k != key);
        self.keyring.push((key.into(), secret.into()));
        true
    }

    fn import(&mut self, a: ImportAction) -> ImportAnswer {
        match a {
            ImportAction::CreateSession { folder, name, protocol, host, port, username, options_json, auth_method } => {
                let id = self.id();
                self.sessions.push(SavedSession {
                    id,
                    folder_id: folder,
                    name,
                    protocol,
                    host,
                    port,
                    username,
                    credential_id: None,
                    options_json,
                    last_used_at: None,
                    auth_method,
                    via_session_id: None,
                    login_script_json: None,
                    sort_order: 0,
                });
                ImportAnswer::Id(id)
            }
            ImportAction::CheckKeyFile { .. } => ImportAnswer::Exists(true),
            _ => ImportAnswer::Id(self.id()),
        }
    }

    fn perform(&mut self, a: RestoreAction) -> RestoreAnswer {
        match a {
            RestoreAction::Import(x) => RestoreAnswer::Import(self.import(x)),
            RestoreAction::PutSecret { key, secret } => {
                if self.put(&key, &secret) {
                    RestoreAnswer::Done
                } else {
                    RestoreAnswer::Failed("internal error: keyring locked".into())
                }
            }
            RestoreAction::PutNewSecret { prefix, secret } => {
                let key = format!("{prefix}{}", self.next + 1000);
                if self.put(&key, &secret) {
                    RestoreAnswer::Key(key)
                } else {
                    RestoreAnswer::Failed("internal error: keyring locked".into())
                }
            }
            RestoreAction::DeleteSecret { key } => {
                self.keyring.retain(|(k, _)| *k != key);
                RestoreAnswer::Done
            }
            RestoreAction::CreateVaultEntry { name, username: _, key } => {
                let id = self.id();
                self.vaults.push(VaultRef { id, name: name.clone(), keyring_key: key.clone() });
                self.creds.push(Cred { id, name, key });
                RestoreAnswer::Id(id)
            }
            RestoreAction::GetSession { id } => {
                RestoreAnswer::Session(self.sessions.iter().find(|s| s.id == id).unwrap().clone())
            }
            RestoreAction::GetCredentialByName { name } => {
                RestoreAnswer::Credential(self.vaults.iter().find(|v| v.name == name).map(|v| v.id))
            }
            RestoreAction::SetSessionAuth { session, credential, method } => {
                let s = self.sessions.iter_mut().find(|s| s.id == session).unwrap();
                s.credential_id = Some(credential);
                s.auth_method = Some(method);
                RestoreAnswer::Done
            }
            RestoreAction::CreateCredential { name, kind: _, username: _, key } => {
                let id = self.id();
                self.creds.push(Cred { id, name, key });
                RestoreAnswer::Id(id)
            }
            RestoreAction::SetSetting { key, value } => {
                self.settings.retain(|(k, _)| *k != key);
                self.settings.push((key, value));
                RestoreAnswer::Done
            }
            RestoreAction::MergeKnownHosts { text } => match self.known_hosts {
                Some(_) => {
                    let n = text.lines().count();
                    self.known_hosts = Some(n);
                    RestoreAnswer::Count(n)
                }
                None => RestoreAnswer::NoHome,
            },
            _ => RestoreAnswer::Done,
        }
    }

    fn restore(&mut self, bundle: Bundle, portable: bool) -> Result<RestoreSummary, AppError> {
        let existing = Existing {
            folders: vec![],
            sessions: self.sessions.clone(),
            groups: vec![],
            snippets: vec![],
            rules: vec![],
        };
        let mut run = RestoreRun::new(bundle, existing, self.vaults.clone(), portable);
        let mut answer = None;
        loop {
            match run.next(answer.take()) {
                RestoreStep::Act(a) => answer = Some(self.perform(a)),
                RestoreStep::Continue => {}
                RestoreStep::Finished(r) => return r,
            }
        }
    }
}

fn ssh(id: i64, name: &str, auth: &str) -> SavedSession {
    SavedSession {
        id,
        folder_id: None,
        name: name.into(),
        protocol: "ssh".into(),
        host: Some(format!("{name}.example")),
        port: Some(22),
        username: Some("admin".into()),
        credential_id: None,
        options_json: "{}".into(),
        last_used_at: None,
        auth_method: Some(auth.into()),
        via_session_id: None,
        login_script_json: None,
        sort_order: 0,
    }
}

fn bundle(sessions: Vec<SavedSession>, creds: Vec<BundleSessionCredential>) -> Bundle {
    Bundle {
        zapx_bundle: 1,
        app_version: "1".into(),
        created_at: "2024-01-01T00:00:00Z".into(),
        device: DeviceInfo { id: "dev-src".into(), name: "src".into() },
        environment: envelope(vec![], sessions),
        settings: vec![("ui.theme".into(), "fjord".into()), ("backup.device_id".into(), "dev-src".into())],
        vault_entries: vec![BundleVaultEntry {
            name: "prod-root".into(),
            username: Some("root".into()),
            secret: "vault-secret".into(),
        }],
        session_credentials: creds,
        known_hosts: Some("A.example ssh-ed25519 AAAA\nC.example ssh-ed25519 CCCC\n".into()),
    }
}

fn private(session_id: i64, kind: &str, secret: &str) -> BundleSessionCredential {
    BundleSessionCredential { session_id, vault_name: None, kind: Some(kind.into()), secret: Some(secret.into()) }
}

fn linked(session_id: i64, name: &str) -> BundleSessionCredential {
    BundleSessionCredential { session_id, vault_name: Some(name.into()), kind: None, secret: None }
}

#[test]
fn restore_attaches_credentials_settings_and_host_keys() {
    let mut dev = Device { known_hosts: Some(0), ..Device::default() };
    dev.settings.push(("backup.device_id".into(), "dev-dst".into()));
    let mut c = ssh(3, "C", "key");
    c.auth_method = None;
    let b = bundle(
        vec![ssh(1, "A", "password"), ssh(2, "B", "password"), c, ssh(4, "D", "agent")],
        vec![private(1, "ssh_password", "pwA"), linked(2, "prod-root"), private(3, "ssh_key", "ppC")],
    );
    let s = dev.restore(b, false).unwrap();
    assert!(s.warnings.is_empty(), "{:?}", s.warnings);
    assert_eq!(s.environment.sessions_added, 4);
    assert_eq!((s.vault_added, s.vault_updated, s.credentials_linked), (1, 0, 3));
    assert_eq!(s.settings_applied, 1);
    assert_eq!(s.known_hosts_added, 2);
    let find = |n: &str| dev.sessions.iter().find(|x| x.name == n).unwrap().clone();
    let b_cred = find("B").credential_id.unwrap();
    assert_eq!(dev.vaults[0].id, b_cred);
    assert_eq!(find("C").auth_method.as_deref(), Some("key"), "key passphrase restores key auth");
    assert_eq!(find("A").auth_method.as_deref(), Some("password"));
    assert!(find("D").credential_id.is_none());
    assert!(dev.settings.contains(&("backup.device_id".into(), "dev-dst".into())), "local identity kept");
    assert!(dev.settings.contains(&("ui.theme".into(), "fjord".into())));

    // A second restore duplicates nothing and refreshes the vault entry by name.
    let b2 = bundle(
        vec![ssh(1, "A", "password"), ssh(2, "B", "password")],
        vec![private(1, "ssh_password", "other")],
    );
    let s2 = dev.restore(b2, false).unwrap();
    assert_eq!((s2.environment.sessions_added, s2.environment.sessions_skipped), (0, 2));
    assert_eq!((s2.vault_added, s2.vault_updated, s2.credentials_linked), (0, 1, 0));
    assert_eq!(dev.vaults.len(), 1);
}

#[test]
fn restore_never_overwrites_local_credentials() {
    // The destination already has session X with its own credential.
    let mut dst = Device::default();
    let mut x = ssh(100, "X", "password");
    x.credential_id = Some(77);
    dst.sessions.push(x);
    let creds = vec![private(1, "ssh_password", "from-backup"), linked(1, "nope")];
    let s = dst.restore(bundle(vec![ssh(1, "X", "password")], creds), false).unwrap();
    assert_eq!(s.environment.sessions_skipped, 1);
    assert_eq!(s.credentials_linked, 0);
    assert_eq!(dst.sessions[0].credential_id, Some(77));

    // A credential-less device gets the first credential; the dangling link
    // for the same session is then skipped.
    let mut dst2 = Device::default();
    let creds = vec![private(1, "ssh_password", "from-backup"), linked(1, "nope")];
    let s = dst2.restore(bundle(vec![ssh(1, "X", "password")], creds), false).unwrap();
    assert_eq!(s.credentials_linked, 1);
    assert_eq!(s.warnings, vec!["known_hosts not merged: no home directory".to_string()]);
}

#[test]
fn restore_warnings_and_refusals() {
    let mut dev = Device { refuse_keyring: true, known_hosts: Some(0), ..Device::default() };
    let creds = vec![private(1, "ssh_password", "pw"), private(9, "ssh_password", "pw"), linked(1, "nope")];
    let s = dev.restore(bundle(vec![ssh(1, "X", "password")], creds), true).unwrap();
    assert_eq!(
        s.warnings,
        vec![
            "vault entry «prod-root»: internal error: keyring locked".to_string(),
            "session «X»: internal error: keyring locked".to_string(),
            "credential for session id 9: session not found in the backup".to_string(),
            "session «X»: vault entry «nope» not available — left without credential".to_string(),
        ]
    );
    let mut newer = bundle(vec![], vec![]);
    newer.zapx_bundle = 2;
    match Device::default().restore(newer, false) {
        Err(AppError::Internal(m)) => assert_eq!(m, "the backup was made by a newer ZAPX (bundle v2, this build reads v1)"),
        Ok(_) => panic!("newer bundle accepted"),
    }
}
