use zapx::listing::{edit_file_name, kind_str, permission_bits, sort_entries};
use zapx::model::SftpEntry;

fn entry(name: &str, kind: &str) -> SftpEntry {
    SftpEntry { name: name.to_string(), kind: kind.to_string(), size: None, permissions: None, mtime: None }
}

#[test]
fn entry_kinds() {
    assert_eq!(kind_str(true, false, false), "dir");
    assert_eq!(kind_str(false, true, false), "file");
    assert_eq!(kind_str(false, false, true), "symlink");
    assert_eq!(kind_str(false, false, false), "other");
}

#[test]
fn permission_bits_drop_file_type() {
    assert_eq!(permission_bits(Some(0o100644)), Some(0o644));
    assert_eq!(permission_bits(Some(0o41777)), Some(0o1777));
    assert_eq!(permission_bits(None), None);
}

#[test]
fn listing_puts_dirs_first_and_ignores_case() {
    let es = vec![
        entry("b.txt", "file"),
        entry("Zeta", "dir"),
        entry("A.txt", "file"),
        entry("alpha", "dir"),
        entry("link", "symlink"),
    ];
    let names: Vec<String> = sort_entries(es).into_iter().map(|e| e.name).collect();
    assert_eq!(names, vec!["alpha", "Zeta", "A.txt", "b.txt", "link"]);
}

#[test]
fn listing_keeps_server_order_for_equal_keys() {
    let es = vec![entry("Readme", "file"), entry("README", "file"), entry("readme", "file")];
    let names: Vec<String> = sort_entries(es).into_iter().map(|e| e.name).collect();
    assert_eq!(names, vec!["Readme", "README", "readme"]);
    assert!(sort_entries(Vec::new()).is_empty());
}

#[test]
fn edit_file_names() {
    assert_eq!(edit_file_name("/etc/ssh/sshd_config"), "sshd_config");
    assert_eq!(edit_file_name("C:\\Users\\me\\notes.txt"), "notes.txt");
    assert_eq!(edit_file_name("plain.txt"), "plain.txt");
    assert_eq!(edit_file_name("/var/log/"), "remote-file");
    assert_eq!(edit_file_name(""), "remote-file");
}
