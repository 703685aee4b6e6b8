use zapx::backup::{DeviceInfo, BUNDLE_VERSION};
use zapx::export::{
    build_bundle, bundle_credentials, export_file, strip_local_fields, SessionSecret, VaultSecret, EXPORT_VERSION,
};
use zapx::model::{Folder, SavedForward, SavedSession, SessionForwards};

fn session(id: i64, name: &str) -> SavedSession {
    SavedSession {
        id,
        folder_id: None,
        name: name.into(),
        protocol: "ssh".into(),
        host: Some("h".into()),
        port: Some(22),
        username: Some("u".into()),
        credential_id: Some(7),
        options_json: "{}".into(),
        last_used_at: Some("2024-01-01T00:00:00Z".into()),
        auth_method: Some("password".into()),
        via_session_id: None,
        login_script_json: None,
        sort_order: 3,
    }
}

fn forward() -> SavedForward {
    SavedForward {
        kind: "local".into(),
        bind_addr: "127.0.0.1".into(),
        bind_port: 8080,
        target_host: Some("db".into()),
        target_port: Some(5432),
    }
}

#[test]
fn export_strips_local_fields() {
    let s = strip_local_fields(session(1, "a"));
    assert_eq!(s.credential_id, None);
    assert_eq!(s.last_used_at, None);
    assert_eq!(s.name, "a");
    assert_eq!(s.sort_order, 3);
}

#[test]
fn export_keeps_only_sessions_with_forwards() {
    let folders = vec![Folder { id: 1, parent_id: None, name: "f".into(), sort_order: 0 }];
    let fwds = vec![
        SessionForwards { session_id: 1, forwards: vec![] },
        SessionForwards { session_id: 2, forwards: vec![forward()] },
    ];
    let f = export_file("1.2.3", "now".into(), folders.clone(), vec![session(1, "a"), session(2, "b")], vec![], vec![], vec![], fwds);
    assert_eq!(f.zapx_export, EXPORT_VERSION);
    assert_eq!(f.app_version, "1.2.3");
    assert_eq!(f.exported_at, "now");
    assert_eq!(f.folders, folders);
    assert_eq!(f.sessions.len(), 2);
    assert!(f.sessions.iter().all(|s| s.credential_id.is_none() && s.last_used_at.is_none()));
    assert_eq!(f.session_forwards.len(), 1);
    assert_eq!(f.session_forwards[0].session_id, 2);
}

#[test]
fn bundle_reports_unresolved_secrets() {
    let vault = vec![
        VaultSecret { name: "prod".into(), username: Some("root".into()), secret: Some("s3".into()) },
        VaultSecret { name: "lost".into(), username: None, secret: None },
    ];
    let sessions = vec![
        SessionSecret {
            session_id: 1,
            session_name: "web".into(),
            credential_name: "prod".into(),
            credential_kind: "ssh_password".into(),
            reusable: true,
            secret: None,
        },
        SessionSecret {
            session_id: 2,
            session_name: "db".into(),
            credential_name: "db".into(),
            credential_kind: "ssh_key".into(),
            reusable: false,
            secret: Some("pp".into()),
        },
        SessionSecret {
            session_id: 3,
            session_name: "old".into(),
            credential_name: "old".into(),
            credential_kind: "ssh_password".into(),
            reusable: false,
            secret: None,
        },
    ];
    let c = bundle_credentials(vault, sessions);
    assert_eq!(c.vault_entries.len(), 1);
    assert_eq!(c.vault_entries[0].name, "prod");
    assert_eq!(c.vault_entries[0].secret, "s3");
    assert_eq!(c.session_credentials.len(), 2);
    assert_eq!(c.session_credentials[0].vault_name.as_deref(), Some("prod"));
    assert_eq!(c.session_credentials[0].secret, None);
    assert_eq!(c.session_credentials[1].kind.as_deref(), Some("ssh_key"));
    assert_eq!(c.session_credentials[1].secret.as_deref(), Some("pp"));
    assert_eq!(
        c.warnings,
        vec![
            "vault entry «lost»: secret unavailable on this device — not included".to_string(),
            "session «old»: password unavailable on this device — not included".to_string(),
        ]
    );
    let env = export_file("1.0", "t".into(), vec![], vec![], vec![], vec![], vec![], vec![]);
    let settings = vec![("theme".to_string(), "dark".to_string()), ("backup.device_id".to_string(), "x".to_string())];
    let b = build_bundle("1.0", "t".into(), DeviceInfo { id: "d".into(), name: "n".into() }, env, &settings, c, Some("kh".into()));
    assert_eq!(b.zapx_bundle, BUNDLE_VERSION);
    assert_eq!(b.settings, vec![("theme".to_string(), "dark".to_string())]);
    assert_eq!(b.vault_entries.len(), 1);
    assert_eq!(b.session_credentials.len(), 2);
    assert_eq!(b.known_hosts.as_deref(), Some("kh"));
}

#[test]
fn unavailable_secret_is_a_warning() {
    let gone = SavedSession { credential_id: Some(1), ..session(1, "gone") };
    let env = export_file("1", "t".into(), vec![], vec![gone], vec![], vec![], vec![], vec![SessionForwards { session_id: 1, forwards: vec![] }]);
    let creds = bundle_credentials(
        vec![],
        vec![SessionSecret {
            session_id: 1,
            session_name: "gone".into(),
            credential_name: "gone".into(),
            credential_kind: "ssh_password".into(),
            reusable: false,
            secret: None,
        }],
    );
    let mut warnings = Vec::new();
    let mut creds = creds;
    warnings.append(&mut creds.warnings);
    let bundle = build_bundle("1", "t".into(), DeviceInfo { id: "d".into(), name: "n".into() }, env, &vec![], creds, None);
    assert!(bundle.session_credentials.is_empty());
    assert_eq!(bundle.environment.sessions.len(), 1);
    assert_eq!(warnings.len(), 1);
    assert!(warnings[0].contains("gone"));
}
