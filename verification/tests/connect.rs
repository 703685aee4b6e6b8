use zapx::agent::{backends_for, AgentBackend, AgentPriority};
use zapx::catalog::{catalog_file_name, CatalogRegistry};
use zapx::connect::{bastion_target, check_bastion, check_session_update, connect_plan, first_secret, saved_auth, ssh_auth_plan, AuthPlan, ChainWalk, ConnectPlan};
use zapx::history::{escape_like, platform_from_opt, resolve_platform};
use zapx::model::{AppError, AuthMethodArg, SavedSession};
use zapx::platform::Platform;

fn saved(protocol: &str) -> SavedSession {
    SavedSession {
        id: 1,
        folder_id: None,
        name: "s".into(),
        protocol: protocol.into(),
        host: Some("h".into()),
        port: None,
        username: Some("u".into()),
        credential_id: None,
        options_json: "{}".into(),
        last_used_at: None,
        auth_method: None,
        via_session_id: Some(9),
        login_script_json: None,
        sort_order: 0,
    }
}

fn err_text(r: Result<ConnectPlan, AppError>) -> String {
    match r {
        Err(AppError::Internal(m)) => m,
        Ok(p) => panic!("unexpected plan {p:?}"),
    }
}

#[test]
fn connect_plans() {
    assert_eq!(
        connect_plan(&saved("ssh")).unwrap(),
        ConnectPlan::Ssh { host: "h".into(), port: 22, username: "u".into(), via: Some(9) }
    );
    assert_eq!(connect_plan(&saved("telnet")).unwrap(), ConnectPlan::Telnet { host: "h".into(), port: 23 });
    let mut s = saved("serial");
    s.options_json = r#"{"device":"/dev/ttyUSB0","baud_rate":115200}"#.into();
    assert_eq!(connect_plan(&s).unwrap(), ConnectPlan::Serial { device: "/dev/ttyUSB0".into(), baud_rate: 115200 });
    s.options_json = r#"{"device":"COM1"}"#.into();
    assert_eq!(connect_plan(&s).unwrap(), ConnectPlan::Serial { device: "COM1".into(), baud_rate: 9600 });
    s.options_json = "not json".into();
    assert_eq!(err_text(connect_plan(&s)), "missing serial device");
    let mut n = saved("ssh");
    n.username = None;
    assert_eq!(err_text(connect_plan(&n)), "missing username");
    n.host = None;
    assert_eq!(err_text(connect_plan(&n)), "missing host");
    assert_eq!(err_text(connect_plan(&saved("rdp"))), "protocol 'rdp' not yet supported");
}

#[test]
fn auth_plans() {
    let key = Some("key".to_string());
    assert_eq!(
        ssh_auth_plan(&key, r#"{"key_path":"/k"}"#, Some("pp".into()), AgentPriority::Auto).unwrap(),
        AuthPlan::PublicKey { key_path: "/k".into(), passphrase: Some("pp".into()) }
    );
    assert!(ssh_auth_plan(&key, "{}", None, AgentPriority::Auto).is_err());
    assert_eq!(
        ssh_auth_plan(&Some("agent".into()), "{}", None, AgentPriority::PageantOnly).unwrap(),
        AuthPlan::Agent { priority: AgentPriority::PageantOnly }
    );
    assert_eq!(
        ssh_auth_plan(&Some("keyboard-interactive".into()), "{}", None, AgentPriority::Auto).unwrap(),
        AuthPlan::KeyboardInteractive
    );
    assert_eq!(ssh_auth_plan(&None, "{}", Some("pw".into()), AgentPriority::Auto).unwrap(), AuthPlan::Password("pw".into()));
    match ssh_auth_plan(&Some("password".into()), "{}", None, AgentPriority::Auto) {
        Err(AppError::Internal(m)) => assert_eq!(m, "missing credential"),
        _ => panic!("expected an error"),
    }
    assert_eq!(first_secret(None, Some("c".into()), Some("d".into())), Some("c".into()));
    assert_eq!(first_secret(Some("k".into()), Some("c".into()), None), Some("k".into()));
    assert_eq!(first_secret(None, None, None), None);
}

#[test]
fn agents_platforms_and_catalog_files() {
    assert_eq!(backends_for(AgentPriority::Auto), vec![AgentBackend::OpenSsh, AgentBackend::Pageant]);
    assert_eq!(backends_for(AgentPriority::PageantOnly), vec![AgentBackend::Pageant]);
    assert_eq!(AgentBackend::Pageant.label(), "Pageant");
    assert_eq!(escape_like("50%_a\\b"), "50\\%\\_a\\\\b");
    assert_eq!(platform_from_opt(Some("juniper")), Platform::Juniper);
    assert_eq!(platform_from_opt(Some("nope")), Platform::Generic);
    assert_eq!(resolve_platform(Some("nope"), Some("linux")), Platform::Generic);
    assert_eq!(resolve_platform(None, Some("linux")), Platform::Linux);
    assert_eq!(catalog_file_name(Platform::CiscoIos), "cisco_ios.json");
    assert_eq!(CatalogRegistry::bundled(None, &vec![]).unwrap().user_catalog_path(Platform::Linux), None);
    let with_dir = CatalogRegistry::bundled(Some("/cat".into()), &vec![]).unwrap();
    assert!(with_dir.user_catalog_path(Platform::Linux).unwrap().ends_with("linux.json"));
    assert_eq!(with_dir.user_dir(), Some("/cat".to_string()));
}

#[test]
fn saving_auth_and_bastion_chains() {
    let a = saved_auth(AuthMethodArg::Password { password: "pw".into() });
    assert_eq!((a.auth_method, a.options_json.as_str()), ("password", "{}"));
    assert_eq!(a.secret, Some(("pw".to_string(), "ssh_password")));
    let k = saved_auth(AuthMethodArg::Key { key_path: "/k".into(), passphrase: Some(String::new()) });
    assert_eq!((k.auth_method, k.options_json.as_str()), ("key", "{\"key_path\":\"/k\"}"));
    assert_eq!(k.secret, None);
    let k2 = saved_auth(AuthMethodArg::Key { key_path: "/k".into(), passphrase: Some("pp".into()) });
    assert_eq!(k2.secret, Some(("pp".to_string(), "ssh_key")));
    assert_eq!(saved_auth(AuthMethodArg::Agent).auth_method, "agent");
    assert!(check_bastion(3, "ssh").is_ok());
    match check_bastion(3, "telnet") {
        Err(AppError::Internal(m)) => assert_eq!(m, "via_session_id 3 is not an SSH session"),
        _ => panic!("expected an error"),
    }
    let mut walk = ChainWalk::new();
    assert!(walk.visit(5, "ssh").is_ok());
    assert!(walk.visit(6, "ssh").is_ok());
    match walk.visit(5, "ssh") {
        Err(AppError::Internal(m)) => assert_eq!(m, "circular via_session_id chain at session 5"),
        _ => panic!("expected a cycle"),
    }
    match walk.visit(7, "serial") {
        Err(AppError::Internal(m)) => assert_eq!(m, "via_session_id 7 points to non-SSH session"),
        _ => panic!("expected an error"),
    }
    assert_eq!(walk.chain(), vec![6, 5]);
    let mut s = saved("ssh");
    s.port = Some(2222);
    assert_eq!(bastion_target(&s).unwrap(), ("h".to_string(), 2222, "u".to_string()));
    s.username = None;
    match bastion_target(&s) {
        Err(AppError::Internal(m)) => assert_eq!(m, "bastion 1 missing username"),
        _ => panic!("expected an error"),
    }
}

#[test]
fn session_update_checks() {
    assert_eq!(check_session_update(3, "  core-1 ", Some(4)).unwrap(), "core-1");
    assert_eq!(check_session_update(3, "core-1", None).unwrap(), "core-1");
    assert_eq!(check_session_update(3, "   ", None), Err(AppError::Internal("name is required".into())));
    assert_eq!(
        check_session_update(3, "x", Some(3)),
        Err(AppError::Internal("session cannot use itself as a jump host".into()))
    );
}
