use zapx::backup::{Bundle, BundleSessionCredential, BundleVaultEntry, DeviceInfo};
use zapx::fingerprint::{canonical_text, fingerprint};
use zapx::model::{ExportFile, Folder, SavedSession};

fn session(id: i64, name: &str, folder: Option<i64>) -> SavedSession {
    SavedSession {
        id,
        folder_id: folder,
        name: name.into(),
        protocol: "ssh".into(),
        host: Some(format!("{name}.example")),
        port: Some(22),
        username: Some("ops".into()),
        credential_id: None,
        options_json: "{}".into(),
        last_used_at: None,
        auth_method: Some("password".into()),
        via_session_id: None,
        login_script_json: None,
        sort_order: 0,
    }
}

fn bundle(created_at: &str, device: &str, reversed: bool) -> Bundle {
    let mut folders = vec![
        Folder { id: 1, parent_id: None, name: "DC".into(), sort_order: 0 },
        Folder { id: 2, parent_id: Some(1), name: "Core".into(), sort_order: 1 },
    ];
    let mut sessions = vec![session(10, "a", Some(2)), session(11, "b", None)];
    let mut settings = vec![("ui.theme".to_string(), "fjord".to_string()), ("x".to_string(), "1".to_string())];
    let mut vault = vec![
        BundleVaultEntry { name: "v1".into(), username: None, secret: "s1".into() },
        BundleVaultEntry { name: "v2".into(), username: Some("u".into()), secret: "s2".into() },
    ];
    let mut kh = "A.example ssh-ed25519 AAAA\nC.example ssh-ed25519 CCCC\n".to_string();
    if reversed {
        folders.reverse();
        sessions.reverse();
        settings.reverse();
        vault.reverse();
        kh = "# c\nC.example ssh-ed25519 CCCC\nA.example ssh-ed25519 AAAA\nA.example ssh-ed25519 AAAA\n".to_string();
    }
    Bundle {
        zapx_bundle: 1,
        app_version: created_at.into(),
        created_at: created_at.into(),
        device: DeviceInfo { id: device.into(), name: device.into() },
        environment: ExportFile {
            zapx_export: 1,
            app_version: "1".into(),
            exported_at: created_at.into(),
            folders,
            sessions,
            broadcast_groups: vec![],
            snippets: vec![],
            highlight_rules: vec![],
            session_forwards: vec![],
        },
        settings,
        vault_entries: vault,
        session_credentials: vec![BundleSessionCredential {
            session_id: 10,
            vault_name: Some("v1".into()),
            kind: None,
            secret: None,
        }],
        known_hosts: Some(kh),
    }
}

#[test]
fn fingerprint_ignores_order_time_and_device() {
    let a = bundle("2024-01-01T00:00:00Z", "dev-a", false);
    let b = bundle("2025-06-30T12:00:00Z", "dev-b", true);
    assert_eq!(canonical_text(&a), canonical_text(&b));
    let fa = fingerprint(&a);
    assert_eq!(fa, fingerprint(&b));
    assert_eq!(fa.len(), 64);
    assert!(fa.chars().all(|c| c.is_ascii_hexdigit() && !c.is_ascii_uppercase()));
    let mut c = bundle("2024-01-01T00:00:00Z", "dev-a", false);
    c.settings[0].1 = "parchment".into();
    assert_ne!(fingerprint(&c), fa);
}

#[test]
fn canonical_text_names_records_by_content() {
    let t = canonical_text(&bundle("t", "d", false));
    assert!(t.starts_with("{\"folders\":[\"DC\",\"DC/Core\"],\"sessions\":["));
    assert!(t.contains("\"id\":\"a|ssh|a.example|22\""));
    assert!(t.contains("\"folder\":\"DC/Core\""));
    assert!(t.contains("\"credentials\":[{\"session\":\"a|ssh|a.example|22\",\"vault_name\":\"v1\",\"kind\":null,\"secret\":null}]"));
    assert!(t.ends_with("\"known_hosts\":[\"A.example ssh-ed25519 AAAA\",\"C.example ssh-ed25519 CCCC\"]}"));
    assert!(!t.contains("dev-") && !t.contains("\"t\""));
}

#[test]
fn fingerprint_of_empty_bundle_is_sha256_of_its_text() {
    let mut b = bundle("t", "d", false);
    b.environment.folders.clear();
    b.environment.sessions.clear();
    b.settings.clear();
    b.vault_entries.clear();
    b.session_credentials.clear();
    b.known_hosts = None;
    let t = canonical_text(&b);
    assert_eq!(
        t,
        "{\"folders\":[],\"sessions\":[],\"forwards\":[],\"groups\":[],\"snippets\":[],\"rules\":[],\"settings\":[],\"vault\":[],\"credentials\":[],\"known_hosts\":[]}"
    );
    assert_eq!(fingerprint(&b).len(), 64);
}

/// A device's bundle: its sessions in insertion order, ids from 1.
fn device_bundle(names: &[&str], theme: &str, app_version: &str, device: &str) -> Bundle {
    let sessions = names.iter().enumerate().map(|(i, n)| session(i as i64 + 1, n, None)).collect();
    let mut b = bundle(app_version, device, false);
    b.environment.folders.clear();
    b.environment.sessions = sessions;
    b.settings = vec![("ui.theme".to_string(), theme.to_string())];
    b.vault_entries.clear();
    b.session_credentials.clear();
    b.known_hosts = None;
    b
}

#[test]
fn fingerprint_is_canonical() {
    // Same content, inserted in different order → different ids.
    let fa = fingerprint(&device_bundle(&["one", "two"], "fjord", "1", "a"));
    let fb = fingerprint(&device_bundle(&["two", "one"], "fjord", "1", "b"));
    assert_eq!(fa, fb);
    // Device identity and timestamps don't count…
    let fa2 = fingerprint(&device_bundle(&["one", "two"], "fjord", "2", "a"));
    assert_eq!(fa, fa2);
    // …but a setting, a session or a host key does.
    assert_ne!(fa, fingerprint(&device_bundle(&["one", "two"], "oxide", "1", "a")));
    assert_ne!(fb, fingerprint(&device_bundle(&["two", "one", "three"], "fjord", "1", "b")));
}
