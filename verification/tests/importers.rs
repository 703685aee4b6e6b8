use zapx::importers::common::key_options_json;
use zapx::importers::mobaxterm::parse;
use zapx::importers::putty::{from_sessions, parse_dword, parse_reg, percent_decode, unquote};

const MOBA_SAMPLE: &str = "\
[Bookmarks]
SubRep=
ImgNum=42
jump=#109#0%bastion.example%22%ops%%-1%-1%%%22%%0%0%0%%%-1%0%0%0

[Bookmarks_1]
SubRep=Datacenter\\Spines
ImgNum=41
spine-01=#109#0%10.0.0.1%2222%admin%%-1%-1
old-sw=#98#1%10.0.0.9%23%

[Bookmarks_2]
SubRep=Misc
ImgNum=41
desktop=#91#4%10.0.0.50%3389%user
";

#[test]
fn parses_bookmarks_with_folders() {
    let parsed = parse(MOBA_SAMPLE);
    let s = &parsed.file.sessions;
    assert_eq!(s.len(), 3);

    let jump = s.iter().find(|x| x.name == "jump").unwrap();
    assert_eq!(jump.protocol, "ssh");
    assert_eq!(jump.host.as_deref(), Some("bastion.example"));
    assert_eq!(jump.port, Some(22));
    assert_eq!(jump.username.as_deref(), Some("ops"));
    assert_eq!(jump.folder_id, None, "root section");

    let spine = s.iter().find(|x| x.name == "spine-01").unwrap();
    assert_eq!(spine.port, Some(2222));
    let folders = &parsed.file.folders;
    let spines = folders.iter().find(|f| f.name == "Spines").unwrap();
    let dc = folders.iter().find(|f| f.name == "Datacenter").unwrap();
    assert_eq!(spines.parent_id, Some(dc.id));
    assert_eq!(spine.folder_id, Some(spines.id));

    let sw = s.iter().find(|x| x.name == "old-sw").unwrap();
    assert_eq!(sw.protocol, "telnet");
    assert_eq!(sw.port, Some(23));

    assert!(parsed.warnings.iter().any(|w| w.contains("desktop")));
}

const FWD_SAMPLE: &str = "\
[Bookmarks]
SubRep=
ImgNum=42
jump=#109#0%bastion.example%22%ops%%-1%-1

[PortForwarding]
0000.=Local;ops@bastion.example:22;1.2.3.4:80;8080;0;No SSH key selected;0.0.0.0;No proxy selected;0
0001.=Dynamic;deploy@10.9.9.9:2200;;1080;0;No SSH key selected;127.0.0.1;No proxy selected;0
";

#[test]
fn imports_port_forwardings() {
    let parsed = parse(FWD_SAMPLE);
    let sessions = &parsed.file.sessions;

    let jump = sessions.iter().find(|s| s.name == "jump").unwrap();
    let jump_fwd = parsed
        .file
        .session_forwards
        .iter()
        .find(|sf| sf.session_id == jump.id)
        .expect("local forward attached to the jump session");
    assert_eq!(jump_fwd.forwards.len(), 1);
    let lf = &jump_fwd.forwards[0];
    assert_eq!(lf.kind, "local");
    assert_eq!(lf.bind_addr, "0.0.0.0");
    assert_eq!(lf.bind_port, 8080);
    assert_eq!(lf.target_host.as_deref(), Some("1.2.3.4"));
    assert_eq!(lf.target_port, Some(80));

    let gw = sessions.iter().find(|s| s.name == "deploy@10.9.9.9").unwrap();
    assert_eq!(gw.port, Some(2200));
    let dyn_fwd = parsed
        .file
        .session_forwards
        .iter()
        .find(|sf| sf.session_id == gw.id)
        .expect("dynamic forward attached to the created gateway session");
    assert_eq!(dyn_fwd.forwards[0].kind, "dynamic");
    assert_eq!(dyn_fwd.forwards[0].bind_port, 1080);
    assert!(dyn_fwd.forwards[0].target_host.is_none());
}

#[test]
fn moba_ids_folders_and_serial() {
    let parsed = parse(MOBA_SAMPLE);
    let f = &parsed.file.folders;
    assert_eq!(f.len(), 3);
    assert_eq!((f[0].id, f[0].name.as_str(), f[0].parent_id, f[0].sort_order), (1, "Datacenter", None, 0));
    assert_eq!((f[1].id, f[1].name.as_str(), f[1].parent_id, f[1].sort_order), (2, "Spines", Some(1), 1));
    assert_eq!((f[2].id, f[2].name.as_str(), f[2].parent_id), (3, "Misc", None));
    let s = &parsed.file.sessions;
    assert_eq!((s[0].id, s[0].sort_order), (1, 0));
    assert_eq!((s[2].id, s[2].sort_order), (3, 2));
    assert_eq!(s[0].auth_method.as_deref(), Some("agent"));
    assert_eq!(s[2].auth_method, None);
    assert_eq!(
        parsed.warnings,
        vec![
            "«old-sw»: telnet importada en modo best-effort, revisa host/puerto".to_string(),
            "«desktop»: tipo no soportado (icon 91, type 4) — omitida".to_string()
        ]
    );
    assert_eq!(parsed.file.zapx_export, 1);

    let serial = parse("[Bookmarks]\ncom=#131#8%COM3%115200\nbad=#131#8%%\n");
    assert_eq!(serial.file.sessions.len(), 1);
    assert_eq!(serial.file.sessions[0].protocol, "serial");
    assert_eq!(serial.file.sessions[0].options_json, "{\"device\":\"COM3\",\"baud_rate\":115200}");
    assert_eq!(serial.warnings.len(), 2);
    assert!(serial.warnings[1].contains("serial sin línea"));
}

#[test]
fn moba_tunnel_warnings() {
    let parsed = parse(
        "[PortForwarding]\nx=Local;h:22;1.2.3.4:80\ny=Weird;h;d:1;5\nz=Local;;d:1;5\nw=Local;h;d:1;0\nv=Local;h;nodest;5\nu=Remote;h;:80;5\n",
    );
    assert_eq!(parsed.warnings.len(), 6);
    assert!(parsed.warnings[0].contains("formato inesperado"));
    assert_eq!(parsed.warnings[1], "túnel «Weird»: tipo «weird» no soportado — omitido");
    assert!(parsed.warnings[2].contains("sin gateway"));
    assert!(parsed.warnings[3].contains("puerto local inválido"));
    assert!(parsed.warnings[4].contains("sin destino"));
    assert!(parsed.warnings[5].contains("destino inválido"));
    assert!(parsed.file.sessions.is_empty());
}

const REG_SAMPLE: &str = r#"Windows Registry Editor Version 5.00

[HKEY_CURRENT_USER\Software\SimonTatham\PuTTY\Sessions\Default%20Settings]
"HostName"=""
"Protocol"="ssh"

[HKEY_CURRENT_USER\Software\SimonTatham\PuTTY\Sessions\edge%20router]
"HostName"="10.0.0.1"
"PortNumber"=dword:0000001a
"Protocol"="ssh"
"UserName"="admin"
"PublicKeyFile"="C:\\keys\\id.ppk"
"PortForwardings"="L8080=10.0.0.1:80,D1080,R2000=localhost:22"

[HKEY_CURRENT_USER\Software\SimonTatham\PuTTY\Sessions\console]
"Protocol"="serial"
"SerialLine"="COM3"
"SerialSpeed"=dword:00002580

[HKEY_CURRENT_USER\Software\SomethingElse\Foo]
"Bar"="baz"
"#;

#[test]
fn parses_reg_export() {
    let parsed = from_sessions(&parse_reg(REG_SAMPLE));
    let s = &parsed.file.sessions;
    assert_eq!(s.len(), 2, "edge router + console");

    let edge = s.iter().find(|x| x.name == "edge router").unwrap();
    assert_eq!(edge.protocol, "ssh");
    assert_eq!(edge.host.as_deref(), Some("10.0.0.1"));
    assert_eq!(edge.port, Some(26));
    assert_eq!(edge.username.as_deref(), Some("admin"));
    assert_eq!(edge.auth_method.as_deref(), Some("key"));
    assert!(edge.options_json.contains("id.ppk"));
    assert!(parsed.warnings.iter().any(|w| w.contains(".ppk")));

    let console = s.iter().find(|x| x.name == "console").unwrap();
    assert_eq!(console.protocol, "serial");
    assert!(console.options_json.contains("COM3"));
    assert!(console.options_json.contains("9600"));
}

#[test]
fn parses_port_forwardings() {
    let parsed = from_sessions(&parse_reg(REG_SAMPLE));
    let sf = parsed.file.session_forwards.iter().find(|f| f.session_id == 1).unwrap();
    assert_eq!(sf.forwards.len(), 3);
    let local = sf.forwards.iter().find(|f| f.kind == "local").unwrap();
    assert_eq!(local.bind_port, 8080);
    assert_eq!(local.target_host.as_deref(), Some("10.0.0.1"));
    assert_eq!(local.target_port, Some(80));
    let dyn_f = sf.forwards.iter().find(|f| f.kind == "dynamic").unwrap();
    assert_eq!(dyn_f.bind_port, 1080);
    assert!(dyn_f.target_host.is_none());
    let remote = sf.forwards.iter().find(|f| f.kind == "remote").unwrap();
    assert_eq!(remote.bind_port, 2000);
    assert_eq!(remote.target_host.as_deref(), Some("localhost"));
}

#[test]
fn percent_decode_roundtrip() {
    assert_eq!(percent_decode("my%20host"), "my host");
    assert_eq!(percent_decode("plain"), "plain");
    assert_eq!(percent_decode("100%done"), "100%done");
}

#[test]
fn reg_value_helpers() {
    assert_eq!(unquote("\"C:\\\\keys\\\\id.ppk\""), Some("C:\\keys\\id.ppk".to_string()));
    assert_eq!(unquote("dword:1"), None);
    assert_eq!(parse_dword("dword:0000001a"), Some(26));
    assert_eq!(parse_dword("\"x\""), None);
}

#[test]
fn telnet_bookmarks_are_warned() {
    let parsed = parse(MOBA_SAMPLE);
    assert!(parsed.warnings.iter().any(|w| w.contains("old-sw") && w.contains("telnet")));
    assert!(!parsed.warnings.iter().any(|w| w.contains("spine-01")));
}

#[test]
fn key_options_quote_the_path_as_json() {
    assert_eq!(key_options_json("/home/u/.ssh/id_lab"), "{\"key_path\":\"/home/u/.ssh/id_lab\"}");
    assert_eq!(key_options_json("C:\\keys\\\"id\""), "{\"key_path\":\"C:\\\\keys\\\\\\\"id\\\"\"}");
    assert_eq!(key_options_json("a\tb\u{1}"), "{\"key_path\":\"a\\tb\\u0001\"}");
}
