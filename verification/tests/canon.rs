use zapx::canon::{folder_path, forward_line, known_host_keys, session_identity};
use zapx::model::{Folder, SavedForward, SavedSession};

fn folder(id: i64, parent_id: Option<i64>, name: &str) -> Folder {
    Folder { id, parent_id, name: name.into(), sort_order: 0 }
}

fn session(id: i64, name: &str, host: Option<&str>, port: Option<u16>) -> SavedSession {
    SavedSession {
        id,
        folder_id: None,
        name: name.into(),
        protocol: "ssh".into(),
        host: host.map(|h| h.to_string()),
        port,
        username: None,
        credential_id: None,
        options_json: "{}".into(),
        last_used_at: None,
        auth_method: None,
        via_session_id: None,
        login_script_json: None,
        sort_order: 0,
    }
}

#[test]
fn folder_paths_by_name() {
    let fs = vec![folder(10, None, "Net"), folder(11, Some(10), "Core"), folder(12, Some(11), "DC1")];
    assert_eq!(folder_path(&fs, 12), "Net/Core/DC1");
    assert_eq!(folder_path(&fs, 10), "Net");
    assert_eq!(folder_path(&fs, 99), "");
    // A dangling parent ends the path.
    let fs = vec![folder(1, Some(77), "Orphan")];
    assert_eq!(folder_path(&fs, 1), "Orphan");
}

#[test]
fn folder_path_walk_is_bounded() {
    // A cycle stops after the depth limit.
    let fs = vec![folder(1, Some(2), "a"), folder(2, Some(1), "b")];
    let p = folder_path(&fs, 1);
    assert_eq!(p.split('/').count(), 64);
    assert!(p.ends_with("b/a"));
}

#[test]
fn session_identities() {
    let ss = vec![session(1, "web", Some("10.0.0.1"), Some(22)), session(2, "con", None, None)];
    assert_eq!(session_identity(&ss, 1).as_deref(), Some("web|ssh|10.0.0.1|22"));
    assert_eq!(session_identity(&ss, 2).as_deref(), Some("con|ssh||"));
    assert_eq!(session_identity(&ss, 3), None);
}

#[test]
fn forward_lines() {
    let f = SavedForward {
        kind: "local".into(),
        bind_addr: "127.0.0.1".into(),
        bind_port: 8080,
        target_host: Some("db".into()),
        target_port: Some(5432),
    };
    assert_eq!(forward_line(&f), "local|127.0.0.1|8080|db|5432");
    let d = SavedForward { kind: "dynamic".into(), bind_addr: "0.0.0.0".into(), bind_port: 1080, target_host: None, target_port: None };
    assert_eq!(forward_line(&d), "dynamic|0.0.0.0|1080||");
}

#[test]
fn known_host_keys_sorted_and_distinct() {
    let text = "# comment\nC.example ssh-ed25519 CCCC\r\n\n  A.example ssh-ed25519 AAAA  \nC.example ssh-ed25519 CCCC\n   # indented comment\nB.example ssh-rsa BBBB";
    assert_eq!(
        known_host_keys(text),
        vec!["A.example ssh-ed25519 AAAA", "B.example ssh-rsa BBBB", "C.example ssh-ed25519 CCCC"]
    );
    assert!(known_host_keys("").is_empty());
}

#[test]
fn known_host_keys_ignore_order_and_repeats() {
    let a = "A.example ssh-ed25519 AAAA\nC.example ssh-ed25519 CCCC\n";
    let b = "# saved\nC.example ssh-ed25519 CCCC\n\nA.example ssh-ed25519 AAAA\nA.example ssh-ed25519 AAAA\n";
    assert_eq!(known_host_keys(a), known_host_keys(b));
}

#[test]
fn texts_sort_in_code_point_order() {
    let v: Vec<String> = vec!["b".into(), "B".into(), "a".into(), "b".into(), "".into(), "é".into(), "z".into()];
    let mut expected = v.clone();
    expected.sort();
    assert_eq!(zapx::canon::sort_texts(v), expected);
    assert!(zapx::canon::sort_texts(Vec::new()).is_empty());
}
