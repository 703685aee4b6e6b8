use zapx::backup::{
    bundle_settings, check_bundle_version, is_local_setting, known_hosts_lines, restored_auth_method,
    validate_passphrase, Bundle, DeviceInfo, BUNDLE_VERSION,
};
use zapx::config::{
    apply_persisted_keepalive, choose_data_dir, clamp_keepalive, cli_data_dir, data_dir_info, dir_from_text,
    DataDir, Source, PORTABLE_VAULT_SEED, SSH_KEEPALIVE_DEFAULT,
};
use zapx::history::{
    catalog_matches, civil_in_range, days_from_civil, should_learn_transition, should_record,
    timestamp_fields, timestamp_secs,
};
use zapx::importers::common::envelope;
use zapx::model::AppError;
use zapx::platform::Platform;
use zapx::snippets::{build_macro_export, default_snippets_for, macro_import_plan, should_seed_defaults, MacroRow};
use zapx::sync::{auto_pushes, newer, sync_state, worth_telling, SyncMeta, SyncState};
use zapx::model::{ExportedMacro, MacroExportFile};

fn s(v: &str) -> String {
    v.to_string()
}

#[test]
fn data_dir_priority_and_seed() {
    let args = vec![s("--verbose"), s("--data-dir=/tmp/a"), s("--data-dir"), s("/tmp/b")];
    assert_eq!(cli_data_dir(&args), Some(s("/tmp/a")));
    assert_eq!(cli_data_dir(&vec![s("--data-dir"), s("/x")]), Some(s("/x")));
    assert_eq!(cli_data_dir(&vec![s("--data-dir")]), None);
    assert_eq!(cli_data_dir(&vec![s("--data-dir="), s("--data-dir"), s("")]), None);
    assert_eq!(dir_from_text("  /srv/zapx \n"), Some(s("/srv/zapx")));
    assert_eq!(dir_from_text("   "), None);
    let d = choose_data_dir(None, None, Some(s("/exe/data")), Some(s("/p")), s("/def"));
    assert_eq!((d.dir.as_str(), d.source), ("/exe/data", Source::Portable));
    assert!(d.is_portable());
    assert_eq!(d.vault_seed(), PORTABLE_VAULT_SEED);
    let d2 = choose_data_dir(None, None, None, None, s("/def"));
    assert_eq!(d2.source, Source::Default);
    assert_eq!(d2.vault_seed(), "/def");
    let info = data_dir_info(&DataDir { dir: s("/e"), source: Source::EnvVar }, s("/def"));
    assert!(!info.changeable && !info.portable);
    assert_eq!(info.default_path, "/def");
}

#[test]
fn keepalive_setting() {
    assert_eq!(apply_persisted_keepalive(Some(s("15"))), 15);
    assert_eq!(apply_persisted_keepalive(Some(s("0"))), 0);
    assert_eq!(apply_persisted_keepalive(Some(s("x"))), SSH_KEEPALIVE_DEFAULT);
    assert_eq!(apply_persisted_keepalive(Some(s("18446744073709551615"))), u64::MAX);
    assert_eq!(apply_persisted_keepalive(Some(s("18446744073709551616"))), 60);
    assert_eq!(apply_persisted_keepalive(None), 60);
    assert_eq!(clamp_keepalive(99999), 3600);
    assert_eq!(clamp_keepalive(30), 30);
}

#[test]
fn backup_rules() {
    assert!(is_local_setting("backup.device_id"));
    assert!(!is_local_setting("ssh.keepalive_secs"));
    let kept = bundle_settings(&vec![(s("backup.x"), s("1")), (s("theme"), s("dark")), (s("backup.y"), s("2"))]);
    assert_eq!(kept, vec![(s("theme"), s("dark"))]);
    assert!(validate_passphrase("12345678").is_ok());
    match validate_passphrase("short") {
        Err(AppError::Internal(m)) => assert_eq!(m, "the passphrase must be at least 8 characters"),
        _ => panic!("expected an error"),
    }
    assert!(validate_passphrase("ñññññññ").is_err());
    assert!(check_bundle_version(BUNDLE_VERSION).is_ok());
    match check_bundle_version(2) {
        Err(AppError::Internal(m)) => {
            assert_eq!(m, "the backup was made by a newer ZAPX (bundle v2, this build reads v1)")
        }
        _ => panic!("expected an error"),
    }
    assert_eq!(restored_auth_method(None, "ssh_key"), "key");
    assert_eq!(restored_auth_method(None, "ssh_password"), "password");
    assert_eq!(restored_auth_method(Some(s("agent")), "ssh_key"), "agent");
}

#[test]
fn bundle_info_counts() {
    let b = Bundle {
        zapx_bundle: 1,
        app_version: s("1.2.3"),
        created_at: s("2024-01-01T00:00:00Z"),
        device: DeviceInfo { id: s("d"), name: s("host") },
        environment: envelope(Vec::new(), Vec::new()),
        settings: vec![(s("a"), s("b"))],
        vault_entries: Vec::new(),
        session_credentials: Vec::new(),
        known_hosts: Some(s("# c\nh1 ssh-ed25519 AAA\n\n   \n  #x\nh2 ssh-rsa BBB")),
    };
    let info = b.info();
    assert_eq!(info.known_hosts_lines, 2);
    assert_eq!(info.settings, 1);
    assert_eq!((info.sessions, info.device_name.as_str()), (0, "host"));
    assert_eq!(known_hosts_lines(""), 0);
}

fn meta(at: &str) -> SyncMeta {
    SyncMeta { zapx_sync: 1, device_id: s("d"), device_name: s("n"), written_at: s(at), app_version: s("v") }
}

#[test]
fn sync_states() {
    assert!(newer("2024-01-02T00:00:00Z", "2024-01-01T23:00:00Z"));
    assert!(!newer("2024-01-01T12:00:00+02:00", "2024-01-01T11:00:00Z"));
    assert!(newer("b", "a"));
    assert!(!newer("a", "a"));
    let r = Some(meta("2024-01-02T00:00:00Z"));
    assert_eq!(sync_state(&None, "fp", &None, &None, &None), SyncState::LocalChanges);
    assert_eq!(sync_state(&None, "fp", &r, &None, &None), SyncState::RemoteChanges);
    assert_eq!(sync_state(&Some(s("fp")), "fp", &r, &Some(s("2024-01-02T00:00:00Z")), &None), SyncState::InSync);
    assert_eq!(sync_state(&Some(s("old")), "fp", &r, &None, &Some(s("2024-01-01T00:00:00Z"))), SyncState::Conflict);
    assert_eq!(sync_state(&Some(s("fp")), "fp", &r, &None, &Some(s("2024-01-03T00:00:00Z"))), SyncState::InSync);
    assert!(auto_pushes(SyncState::LocalChanges));
    assert!(!auto_pushes(SyncState::Conflict));
    assert!(worth_telling(SyncState::Error) && !worth_telling(SyncState::InSync));
}

#[test]
fn snippet_defaults_and_macro_plan() {
    let linux = default_snippets_for("linux");
    assert_eq!(linux.len(), 6);
    assert_eq!(linux[3], ("ps aux | grep ", "ps aux | grep \n"));
    assert!(default_snippets_for("generic").is_empty());
    assert_eq!(default_snippets_for("fortimanager")[2].1, "execute backup all-settings ftp \n");
    assert!(should_seed_defaults("linux", false));
    assert!(!should_seed_defaults("linux", true));
    assert!(!should_seed_defaults("generic", false));
    assert!(!should_seed_defaults("", false));
    let m = |n: &str| ExportedMacro { name: s(n), color: None, folder: None, steps_json: s("[]") };
    let file = MacroExportFile { zapx_macro_export: 1, macros: vec![m("a"), m("b"), m("a")] };
    let (add, summary) = macro_import_plan(&vec![s("b")], &file).unwrap();
    assert_eq!(add, vec![0, 2]);
    assert_eq!((summary.added, summary.skipped), (2, 1));
    let newer_file = MacroExportFile { zapx_macro_export: 2, macros: vec![] };
    match macro_import_plan(&vec![], &newer_file) {
        Err(AppError::Internal(msg)) => assert_eq!(msg, "file is from a newer macro export version (v2, supported v1)"),
        _ => panic!("expected an error"),
    }
}

#[test]
fn history_rules_and_dates() {
    assert!(should_record("ls -la"));
    assert!(!should_record(""));
    assert!(!should_record("password: x"));
    assert!(should_learn_transition(Platform::CiscoIos, "conf t", "interface g0/1"));
    assert!(!should_learn_transition(Platform::Generic, "a", "b"));
    assert!(!should_learn_transition(Platform::Linux, "a", "a"));
    assert!(catalog_matches("Show Version", "show v"));
    assert!(!catalog_matches("show", "show v"));
    assert_eq!(days_from_civil(1970, 1, 1), 0);
    assert_eq!(days_from_civil(2000, 3, 1), 11017);
    assert_eq!(days_from_civil(1969, 12, 31), -1);
    assert_eq!(days_from_civil(-1, 1, 1), -719893);
    assert!(civil_in_range(2024, 2, 29));
    assert!(!civil_in_range(2024, 3, 0));
    assert_eq!(timestamp_fields("2024-05-06 07:08:09.123"), Some((2024, 5, 6, 7, 8, 9)));
    assert_eq!(timestamp_fields("2024-05-06T07:08:09"), Some((2024, 5, 6, 7, 8, 9)));
    assert_eq!(timestamp_fields("2024-05-06"), None);
    assert_eq!(timestamp_fields("-5-01-02 00:00:00"), None);
    assert_eq!(timestamp_fields("+5-01-02T00:00:00"), Some((5, 1, 2, 0, 0, 0)));
    assert_eq!(timestamp_fields("2024-05 07:08:09"), None);
    assert_eq!(timestamp_secs(1970, 1, 2, 0, 0, 1), 86401);
}

fn macro_row(id: i64, name: &str, steps: Option<&str>) -> MacroRow {
    MacroRow { id, name: name.into(), color: Some("#fff".into()), folder: None, steps_json: steps.map(|s| s.to_string()) }
}

#[test]
fn macro_export_takes_macros_only() {
    let rows = vec![macro_row(1, "a", Some("[1]")), macro_row(2, "plain", None), macro_row(3, "c", Some("[3]"))];
    let all = build_macro_export(rows, None);
    assert_eq!(all.zapx_macro_export, 1);
    let names: Vec<&str> = all.macros.iter().map(|m| m.name.as_str()).collect();
    assert_eq!(names, vec!["a", "c"]);
    assert_eq!(all.macros[1].steps_json, "[3]");
    assert_eq!(all.macros[0].color.as_deref(), Some("#fff"));
    let rows = vec![macro_row(1, "a", Some("[1]")), macro_row(2, "plain", None), macro_row(3, "c", Some("[3]"))];
    let some = build_macro_export(rows, Some(&vec![2, 3]));
    assert_eq!(some.macros.len(), 1);
    assert_eq!(some.macros[0].name, "c");
}

#[test]
fn macro_export_roundtrip() {
    let rows = vec![
        MacroRow {
            id: 1,
            name: "login".into(),
            color: Some("#0af".into()),
            folder: Some("Net".into()),
            steps_json: Some(r#"[{"kind":"send","send":"a\r"}]"#.into()),
        },
        MacroRow { id: 2, name: "plain".into(), color: None, folder: None, steps_json: None },
    ];
    let file = build_macro_export(rows, None);
    assert_eq!(file.zapx_macro_export, zapx::snippets::MACRO_EXPORT_VERSION);
    assert_eq!(file.macros.len(), 1);
    assert_eq!(file.macros[0].name, "login");
    assert_eq!(file.macros[0].color.as_deref(), Some("#0af"));
    assert_eq!(file.macros[0].folder.as_deref(), Some("Net"));
    assert_eq!(file.macros[0].steps_json, r#"[{"kind":"send","send":"a\r"}]"#);

    // Into an empty store: added; once it holds the name: skipped.
    let (add, s1) = macro_import_plan(&vec![], &file).unwrap();
    assert_eq!(add, vec![0]);
    assert_eq!((s1.added, s1.skipped), (1, 0));
    let (add, s2) = macro_import_plan(&vec!["login".to_string()], &file).unwrap();
    assert!(add.is_empty());
    assert_eq!((s2.added, s2.skipped), (0, 1));
}

#[test]
fn macro_import_rejects_newer_version() {
    let file = MacroExportFile { zapx_macro_export: zapx::snippets::MACRO_EXPORT_VERSION + 1, macros: vec![] };
    assert!(macro_import_plan(&vec![], &file).is_err());
}

#[test]
fn default_snippets_end_with_a_newline() {
    for p in ["linux", "cisco_ios", "juniper", "mikrotik", "aruba", "fortigate", "fortimanager", "paloalto", "f5_bigip", "checkpoint_gaia", "hp_comware", "brocade_fos"] {
        let d = default_snippets_for(p);
        assert!(!d.is_empty());
        for (name, content) in d {
            assert!(content.ends_with('\n'), "{p}: {name}");
            assert!(content.starts_with(name));
        }
    }
    for p in ["generic", "", "Linux"] {
        assert!(default_snippets_for(p).is_empty());
    }
}
