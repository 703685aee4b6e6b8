use zapx::importers::ssh_config::{
    config_lines, expand_home, glob_matches, glob_split, is_include, parse_config, read_hosts,
};

const CONFIG: &str = r#"
# defaults for everything — must be skipped
Host *
  ServerAliveInterval 60

Host jump
  HostName bastion.example.com
  User ops

Host spine-01
  HostName 10.0.0.1
  Port 2222
  User admin
  IdentityFile ~/.ssh/id_lab
  ProxyJump jump

Host web !web-prod
  HostName web.internal
"#;

#[test]
fn parses_hosts_with_jump_keys_and_skips_patterns() {
    let parsed = parse_config(&config_lines(CONFIG), "/home/u");
    let s = &parsed.file.sessions;
    assert_eq!(s.len(), 3, "jump, spine-01, web");

    let jump = s.iter().find(|x| x.name == "jump").unwrap();
    assert_eq!(jump.host.as_deref(), Some("bastion.example.com"));
    assert_eq!(jump.port, Some(22));
    assert_eq!(jump.auth_method.as_deref(), Some("agent"));

    let spine = s.iter().find(|x| x.name == "spine-01").unwrap();
    assert_eq!(spine.port, Some(2222));
    assert_eq!(spine.username.as_deref(), Some("admin"));
    assert_eq!(spine.auth_method.as_deref(), Some("key"));
    assert!(spine.options_json.contains("id_lab"));
    assert!(!spine.options_json.contains('~'), "~ expanded");
    assert_eq!(spine.via_session_id, Some(jump.id));

    assert!(parsed.warnings.iter().any(|w| w.contains("comodines")));
}

#[test]
fn config_line_forms() {
    let pairs = config_lines("  # c\nHostName=a.b\nUser \"bob\"\nKeyOnly\n\tPort\t22\nInclude config.d/*\n");
    let v: Vec<(&str, &str)> = pairs.iter().map(|(k, v)| (k.as_str(), v.as_str())).collect();
    assert_eq!(
        v,
        vec![("HostName", "a.b"), ("User", "bob"), ("Port", "22"), ("Include", "config.d/*")]
    );
    assert!(is_include("INCLUDE"));
    assert!(!is_include("Host"));
}

#[test]
fn warnings_match_blocks_ports_and_jumps() {
    let text = "Host a\n  Port 99999\n  ProxyJump b,c\nMatch host x\n  User ignored\nHost b\n  ProxyJump nowhere\nHost c\n  ProxyJump NONE\n  IdentityFile /k1\n  IdentityFile /k2\n";
    let (hosts, warnings) = read_hosts(&config_lines(text));
    assert_eq!(hosts.len(), 3);
    assert_eq!(hosts[2].identity_file.as_deref(), Some("/k1"));
    assert_eq!(
        warnings,
        vec![
            "host «a»: Port «99999» inválido, usando 22".to_string(),
            "bloque Match ignorado (config condicional no soportada)".to_string(),
        ]
    );
    let parsed = parse_config(&config_lines(text), "/h");
    let s = &parsed.file.sessions;
    assert_eq!(s[0].via_session_id, Some(2));
    assert_eq!(s[1].via_session_id, None);
    assert_eq!(s[2].via_session_id, None);
    assert_eq!(s[2].options_json, "{\"key_path\":\"/k1\"}");
    assert_eq!((s[0].id, s[0].sort_order, s[0].port), (1, 0, Some(22)));
    assert_eq!(
        parsed.warnings[2..].to_vec(),
        vec![
            "host «a»: ProxyJump con 2 saltos — solo se importa el primero".to_string(),
            "host «b»: ProxyJump «nowhere» no es un alias del fichero — queda sin bastión".to_string(),
        ]
    );
    let (_, w) = read_hosts(&config_lines("Host *\nHost ?x !y\n"));
    assert_eq!(w, vec!["2 bloque(s) Host con comodines omitidos (son defaults, no hosts concretos)".to_string()]);
}

#[test]
fn home_expansion_and_globs() {
    assert_eq!(expand_home("/abs/key", "/home/u"), "/abs/key");
    assert_eq!(expand_home("~x", "/home/u"), "~x");
    let e = expand_home("~/.ssh/id", "/home/u");
    assert!(e == "/home/u/.ssh/id" || e == "/home/u\\.ssh/id");
    assert_eq!(expand_home("~/k", "/home/u/"), "/home/u/k");
    assert_eq!(glob_split("*.conf"), Some((String::new(), ".conf".to_string())));
    assert_eq!(glob_split("config"), None);
    assert!(glob_matches("lab.conf", "", ".conf"));
    assert!(!glob_matches("lab.txt", "", ".conf"));
    assert!(!glob_matches("ab", "ab", "b"));
}
