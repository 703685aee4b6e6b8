use std::str::FromStr;
use zapx::catalog::CatalogRegistry;
use zapx::platform::{all_platforms, Platform};
use zapx::sensitive::{is_sensitive, MAX_RECORD_LEN};

#[test]
fn sensitive_password() {
    assert!(is_sensitive("password: hunter2"));
    assert!(is_sensitive("PASSWORD=foo"));
    assert!(is_sensitive("api_key = abc"));
    assert!(is_sensitive("bearer: xyz"));
    assert!(is_sensitive("export SECRET_TOKEN=zzz"));
}

#[test]
fn not_sensitive() {
    assert!(!is_sensitive("ls -la"));
    assert!(!is_sensitive("show running-config"));
    assert!(!is_sensitive("git commit -m 'fix password reset bug'"));
}

#[test]
fn over_length() {
    let long = "a".repeat(MAX_RECORD_LEN + 1);
    assert!(is_sensitive(&long));
}

#[test]
fn exactly_max_length_is_not_sensitive() {
    let edge = "a".repeat(MAX_RECORD_LEN);
    assert!(!is_sensitive(&edge));
}

#[test]
fn platform_roundtrip() {
    for p in all_platforms() {
        assert_eq!(Platform::from_str(p.as_str()).unwrap(), p);
    }
}

#[test]
fn unknown_platform_is_an_error() {
    assert!(Platform::from_str("vax_vms").is_err());
    assert!(Platform::from_str("Linux").is_err());
}

#[test]
fn display_names() {
    assert_eq!(Platform::CiscoIos.display_name(), "Cisco IOS");
    assert_eq!(Platform::Linux.display_name(), "Linux / bash");
}

#[test]
fn catalogs_parse() {
    let reg = CatalogRegistry::bundled(None, &vec![]).unwrap();
    for p in all_platforms() {
        let _ = reg.for_platform(p);
    }
}

#[test]
fn catalog_override_replaces_one_platform() {
    let mut reg = CatalogRegistry::bundled(Some("/cat".into()), &vec![]).unwrap();
    let linux_before = reg.for_platform(Platform::Linux);
    assert_eq!(reg.apply_file("fortigate", r#"["just-my-one-command"]"#).ok(), Some(true));
    assert_eq!(reg.for_platform(Platform::Fortigate), vec!["just-my-one-command".to_string()]);
    assert_eq!(reg.for_platform(Platform::Linux), linux_before);
    // Unknown stems and the generic platform are ignored.
    assert_eq!(reg.apply_file("notes", "[]").ok(), Some(false));
    assert_eq!(reg.apply_file("generic", r#"["x"]"#).ok(), Some(false));
    assert!(reg.for_platform(Platform::Generic).is_empty());
}

#[test]
fn catalog_override_with_invalid_json_names_the_file() {
    assert_eq!(
        zapx::platform::HintError::InvalidPlatform("x".into()).message(),
        "invalid platform: x"
    );
    let mut reg = CatalogRegistry::bundled(None, &vec![]).unwrap();
    match reg.apply_file("linux", "{ not valid json") {
        Err(zapx::platform::HintError::InvalidUserCatalog { file, reason }) => {
            assert_eq!(file, "linux");
            assert!(!reason.is_empty());
        }
        _ => panic!("invalid JSON must be refused"),
    }
    assert_eq!(reg.apply_file("linux", r#"["a", 1]"#).is_err(), true);
}

#[test]
fn bundled_catalogs_and_overrides() {
    let data = vec![
        (Platform::Fortigate, r#"["diagnose sniffer packet any", "get system status"]"#.to_string()),
        (Platform::Linux, r#"["ls -la"]"#.to_string()),
    ];
    let mut reg = CatalogRegistry::bundled(None, &data).unwrap();
    assert!(reg.for_platform(Platform::Fortigate).iter().any(|c| c.contains("diagnose sniffer packet")));
    assert_eq!(reg.for_platform(Platform::Linux), vec!["ls -la".to_string()]);
    assert!(reg.for_platform(Platform::Juniper).is_empty());
    assert!(reg.for_platform(Platform::Generic).is_empty());
    // An override replaces the bundled list, not merges with it.
    assert_eq!(reg.apply_file("fortigate", r#"["just-my-one-command"]"#).ok(), Some(true));
    assert_eq!(reg.for_platform(Platform::Fortigate), vec!["just-my-one-command".to_string()]);
    // A broken bundled text is refused, naming its platform.
    let bad = vec![(Platform::Aruba, "{".to_string())];
    match CatalogRegistry::bundled(None, &bad) {
        Err(zapx::platform::HintError::InvalidUserCatalog { file, .. }) => assert_eq!(file, "aruba"),
        _ => panic!("broken bundled catalog must be refused"),
    }
}

#[test]
fn user_catalog_path_joins_dir_and_file() {
    let reg = CatalogRegistry::bundled(Some("/cat".into()), &vec![]).unwrap();
    let p = reg.user_catalog_path(Platform::CiscoIos).unwrap();
    assert!(p == "/cat/cisco_ios.json" || p == "/cat\\cisco_ios.json");
}

#[test]
fn reload_with_invalid_json_surfaces_error() {
    // The scan of the override folder applies each `<platform>.json` it
    // finds; here the folder holds an invalid `linux.json`.
    let mut reg = CatalogRegistry::bundled(Some("/catalogs".into()), &vec![]).unwrap();
    let err = reg.apply_file("linux", "{ not valid json").expect_err("invalid json must surface as Error");
    let msg = err.message();
    assert!(msg.contains("linux"), "error must name the offending file, got: {msg}");
}
