use zapx::importers::securecrt::{decode_session, is_session_stem, ScrtImport};

#[test]
fn walks_session_tree() {
    let mut imp = ScrtImport::new();
    imp.add_session(
        "edge",
        "S:\"Protocol Name\"=SSH2\nS:\"Hostname\"=10.0.0.1\nD:\"[SSH2] Port\"=00000016\nS:\"Username\"=admin\nS:\"Identity Filename V2\"=/home/u/.ssh/id_ed25519\n",
        None,
    );
    let lab_id = imp.add_folder(None, "Lab");
    imp.add_session(
        "sw1",
        "S:\"Protocol Name\"=Telnet\nS:\"Hostname\"=192.168.1.9\nD:\"[TELNET] Port\"=00000017\n",
        Some(lab_id),
    );
    assert!(!is_session_stem("__FolderData__"));
    let parsed = imp.finish();
    let s = &parsed.file.sessions;
    assert_eq!(s.len(), 2);

    let edge = s.iter().find(|x| x.name == "edge").unwrap();
    assert_eq!(edge.protocol, "ssh");
    assert_eq!(edge.host.as_deref(), Some("10.0.0.1"));
    assert_eq!(edge.port, Some(22));
    assert_eq!(edge.username.as_deref(), Some("admin"));
    assert_eq!(edge.auth_method.as_deref(), Some("key"));
    assert!(edge.options_json.contains("id_ed25519"));
    assert_eq!(edge.folder_id, None);

    let sw = s.iter().find(|x| x.name == "sw1").unwrap();
    assert_eq!(sw.protocol, "telnet");
    assert_eq!(sw.port, Some(23));
    let lab = parsed.file.folders.iter().find(|f| f.name == "Lab").unwrap();
    assert_eq!(sw.folder_id, Some(lab.id));
}

#[test]
fn folders_are_created_once() {
    let mut imp = ScrtImport::new();
    let a = imp.add_folder(None, "A");
    let b = imp.add_folder(Some(a), "B");
    assert_eq!(imp.add_folder(None, "A"), a);
    assert_eq!(imp.add_folder(Some(a), "B"), b);
    let c = imp.add_folder(Some(b), "A");
    assert_eq!((a, b, c), (1, 2, 3));
    assert_eq!(imp.folder_count(), 3);
    let p = imp.finish();
    assert_eq!(p.file.folders[2].parent_id, Some(2));
    assert_eq!(p.file.folders[2].sort_order, 2);
}

#[test]
fn decode_variants_and_warnings() {
    let mut next = 0i64;
    let mut w = Vec::new();
    let serial = decode_session(
        "con",
        "S:\"Protocol Name\"=Serial\nS:\"Serial Port\"=COM4\nD:\"Baud Rate\"=0001c200\n",
        None,
        &mut next,
        &mut w,
    )
    .unwrap();
    assert_eq!(serial.options_json, "{\"device\":\"COM4\",\"baud_rate\":115200}");
    assert_eq!((serial.id, next), (1, 1));
    assert!(decode_session("x", "S:\"Protocol Name\"=RDP\n", None, &mut next, &mut w).is_none());
    assert!(decode_session("y", "B:\"a\"=1\n", None, &mut next, &mut w).is_none());
    assert!(decode_session("z", "S:\"Protocol Name\"=SSH2\n", None, &mut next, &mut w).is_none());
    assert!(decode_session("s", "S:\"Protocol Name\"=serial\n", None, &mut next, &mut w).is_none());
    assert_eq!(
        w,
        vec![
            "«x»: protocolo «rdp» no soportado — omitida".to_string(),
            "«y»: sin protocolo ni host — omitida".to_string(),
            "«z»: sin Hostname — omitida".to_string(),
            "«s»: serial sin puerto — omitida".to_string(),
        ]
    );
    let bare = decode_session("h", "S:\"Hostname\"=h.example\nD:\"Port\"=00010000\n", Some(7), &mut next, &mut w).unwrap();
    assert_eq!((bare.protocol.as_str(), bare.port, bare.folder_id, bare.id), ("ssh", Some(22), Some(7), 2));
    assert_eq!(bare.auth_method.as_deref(), Some("agent"));
    assert!(is_session_stem("router"));
    assert!(!is_session_stem(""));
}
