use zapx::import::{Existing, ImportAction, ImportAnswer, ImportRun, ImportStep};
use zapx::model::{
    AppError, BroadcastGroup, ExportFile, Folder, HighlightRule, ImportSummary, SavedForward, SavedSession,
    SessionForwards, Snippet,
};

/// An in-memory stand-in for the database.
#[derive(Default)]
struct MemDb {
    next: i64,
    folders: Vec<Folder>,
    sessions: Vec<SavedSession>,
    forwards: Vec<(i64, Vec<SavedForward>)>,
    groups: Vec<BroadcastGroup>,
    snippets: Vec<Snippet>,
    rules: Vec<HighlightRule>,
    existing_key_files: Vec<String>,
    fail_folder: Option<String>,
}

impl MemDb {
    fn id(&mut self) -> i64 {
        self.next += 1;
        self.next
    }

    fn perform(&mut self, a: ImportAction) -> ImportAnswer {
        match a {
            ImportAction::CreateFolder { name, parent } => {
                if self.fail_folder.as_deref() == Some(name.as_str()) {
                    return ImportAnswer::Failed("disk full".into());
                }
                let id = self.id();
                self.folders.push(Folder { id, parent_id: parent, name, sort_order: 0 });
                ImportAnswer::Id(id)
            }
            ImportAction::CreateSession { folder, name, protocol, host, port, username, options_json, auth_method } => {
                let id = self.id();
                self.sessions.push(SavedSession {
                    id,
                    folder_id: folder,
                    name,
                    protocol,
                    host,
                    port,
                    username,
                    credential_id: None,
                    options_json,
                    last_used_at: None,
                    auth_method,
                    via_session_id: None,
                    login_script_json: None,
                    sort_order: 0,
                });
                ImportAnswer::Id(id)
            }
            ImportAction::SetLoginScript { session, script } => {
                self.sessions.iter_mut().find(|s| s.id == session).unwrap().login_script_json = Some(script);
                ImportAnswer::Done
            }
            ImportAction::CheckKeyFile { path } => ImportAnswer::Exists(self.existing_key_files.contains(&path)),
            ImportAction::SetForwards { session, forwards } => {
                self.forwards.push((session, forwards));
                ImportAnswer::Done
            }
            ImportAction::SetVia { session, via } => {
                self.sessions.iter_mut().find(|s| s.id == session).unwrap().via_session_id = Some(via);
                ImportAnswer::Done
            }
            ImportAction::CreateGroup { name } => {
                let id = self.id();
                self.groups.push(BroadcastGroup { id, name, sort_order: 0, session_ids: vec![] });
                ImportAnswer::Id(id)
            }
            ImportAction::SetGroupMembers { group, members } => {
                self.groups.iter_mut().find(|g| g.id == group).unwrap().session_ids = members;
                ImportAnswer::Done
            }
            ImportAction::CreateSnippet { name, content, platform, color } => {
                let id = self.id();
                self.snippets.push(Snippet {
                    id,
                    name,
                    content,
                    sort_order: 0,
                    created_at: String::new(),
                    platform,
                    color,
                });
                ImportAnswer::Id(id)
            }
            ImportAction::CreateRule { name, pattern, is_regex, fg_color, bg_color, bold, underline } => {
                let id = self.id();
                self.rules.push(HighlightRule {
                    id,
                    name,
                    pattern,
                    is_regex,
                    fg_color,
                    bg_color,
                    bold,
                    underline,
                    enabled: true,
                    sort_order: 0,
                });
                ImportAnswer::Id(id)
            }
        }
    }

    fn import(&mut self, file: &ExportFile) -> Result<ImportSummary, AppError> {
        let existing = Existing {
            folders: self.folders.clone(),
            sessions: self.sessions.clone(),
            groups: self.groups.clone(),
            snippets: self.snippets.clone(),
            rules: self.rules.clone(),
        };
        let mut run = ImportRun::new(clone_file(file), existing);
        let mut answer = None;
        loop {
            match run.next(answer.take()) {
                ImportStep::Act(a) => answer = Some(self.perform(a)),
                ImportStep::Continue => {}
                ImportStep::Finished(r) => return r,
            }
        }
    }
}

fn clone_file(f: &ExportFile) -> ExportFile {
    ExportFile {
        zapx_export: f.zapx_export,
        app_version: f.app_version.clone(),
        exported_at: f.exported_at.clone(),
        folders: f.folders.clone(),
        sessions: f.sessions.clone(),
        broadcast_groups: f.broadcast_groups.clone(),
        snippets: f.snippets.clone(),
        highlight_rules: f.highlight_rules.clone(),
        session_forwards: f
            .session_forwards
            .iter()
            .map(|s| SessionForwards { session_id: s.session_id, forwards: s.forwards.clone() })
            .collect(),
    }
}

fn session(id: i64, folder: Option<i64>, name: &str, host: &str, auth: &str, via: Option<i64>) -> SavedSession {
    SavedSession {
        id,
        folder_id: folder,
        name: name.into(),
        protocol: "ssh".into(),
        host: Some(host.into()),
        port: Some(22),
        username: Some("ops".into()),
        credential_id: None,
        options_json: "{}".into(),
        last_used_at: None,
        auth_method: Some(auth.into()),
        via_session_id: via,
        login_script_json: None,
        sort_order: 0,
    }
}

fn sample() -> ExportFile {
    let mut spine = session(11, Some(2), "spine-01", "10.0.0.1", "password", Some(10));
    spine.login_script_json = Some(r#"[{"expect":"login:","send":"admin"}]"#.into());
    ExportFile {
        zapx_export: 1,
        app_version: "test".into(),
        exported_at: String::new(),
        // The child is listed first: it waits a round for its parent.
        folders: vec![
            Folder { id: 2, parent_id: Some(1), name: "Spines".into(), sort_order: 0 },
            Folder { id: 1, parent_id: None, name: "DC".into(), sort_order: 0 },
        ],
        sessions: vec![session(10, None, "jump", "j.example", "agent", None), spine],
        broadcast_groups: vec![BroadcastGroup { id: 5, name: "grid".into(), sort_order: 0, session_ids: vec![10, 11] }],
        snippets: vec![Snippet {
            id: 7,
            name: "brief".into(),
            content: "show ip int brief".into(),
            sort_order: 0,
            created_at: String::new(),
            platform: Some("cisco_ios".into()),
            color: None,
        }],
        highlight_rules: vec![HighlightRule {
            id: 3,
            name: "err".into(),
            pattern: "ERROR".into(),
            is_regex: false,
            fg_color: Some("#f00".into()),
            bg_color: None,
            bold: true,
            underline: false,
            enabled: true,
            sort_order: 0,
        }],
        session_forwards: vec![SessionForwards {
            session_id: 11,
            forwards: vec![SavedForward {
                kind: "local".into(),
                bind_addr: "127.0.0.1".into(),
                bind_port: 8080,
                target_host: Some("10.0.0.9".into()),
                target_port: Some(80),
            }],
        }],
    }
}

#[test]
fn roundtrip_and_idempotence() {
    let file = sample();
    let mut db = MemDb::default();
    let s1 = db.import(&file).unwrap();
    assert_eq!(s1.sessions_added, 2);
    assert_eq!(s1.folders_added, 2);
    assert_eq!(s1.groups_added, 1);
    assert_eq!(s1.snippets_added, 1);
    assert_eq!(s1.rules_added, 1);
    assert!(s1.warnings.is_empty(), "warnings: {:?}", s1.warnings);

    let new_spine = db.sessions.iter().find(|s| s.name == "spine-01").unwrap().clone();
    let new_bastion = db.sessions.iter().find(|s| s.name == "jump").unwrap().clone();
    assert_eq!(new_spine.via_session_id, Some(new_bastion.id));
    assert!(new_spine.login_script_json.is_some());
    assert_eq!(db.forwards.len(), 1);
    assert_eq!(db.forwards[0].0, new_spine.id);
    assert_eq!(db.forwards[0].1[0].bind_port, 8080);
    let new_child = db.folders.iter().find(|f| f.name == "Spines").unwrap();
    let new_parent = db.folders.iter().find(|f| f.name == "DC").unwrap();
    assert_eq!(new_child.parent_id, Some(new_parent.id));
    assert_eq!(new_spine.folder_id, Some(new_child.id));
    assert_eq!(db.groups[0].session_ids, vec![new_bastion.id, new_spine.id]);

    let s2 = db.import(&file).unwrap();
    assert_eq!(s2.sessions_added, 0);
    assert_eq!(s2.sessions_skipped, 2);
    assert_eq!(s2.folders_added, 0);
    assert_eq!(s2.groups_added, 0);
    assert_eq!(s2.snippets_added, 0);
    assert_eq!(s2.rules_added, 0);
    assert_eq!(db.forwards.len(), 1, "forwards only go to created sessions");
}

#[test]
fn rejects_newer_version() {
    let mut file = sample();
    file.zapx_export = 2;
    let mut db = MemDb::default();
    match db.import(&file) {
        Err(AppError::Internal(m)) => {
            assert_eq!(m, "el fichero es de una versión de ZAPX más nueva (export v2, soportado v1)")
        }
        Ok(_) => panic!("newer file accepted"),
    }
    assert!(db.sessions.is_empty());
}

#[test]
fn orphans_missing_bastions_members_and_key_files() {
    let mut lone = session(20, Some(99), "lone", "l.example", "key", Some(77));
    lone.options_json = r#"{"key_path":"/keys/missing"}"#.into();
    let file = ExportFile {
        zapx_export: 1,
        app_version: String::new(),
        exported_at: String::new(),
        folders: vec![
            Folder { id: 50, parent_id: Some(49), name: "Orphan".into(), sort_order: 0 },
            Folder { id: 60, parent_id: None, name: "Broken".into(), sort_order: 0 },
        ],
        sessions: vec![lone],
        broadcast_groups: vec![BroadcastGroup { id: 1, name: "g".into(), sort_order: 0, session_ids: vec![20, 404] }],
        snippets: vec![],
        highlight_rules: vec![],
        session_forwards: vec![],
    };
    let mut db = MemDb { fail_folder: Some("Broken".into()), ..MemDb::default() };
    let s = db.import(&file).unwrap();
    assert_eq!(s.folders_added, 1);
    assert_eq!(
        s.warnings,
        vec![
            "carpeta «Broken»: disk full".to_string(),
            "carpeta «Orphan»: padre no incluido en el export — movida a la raíz".to_string(),
            "sesión «lone»: la clave /keys/missing no existe en esta máquina".to_string(),
            format!("sesión id {}: bastión (jump host) no incluido en el export — queda sin via", db.sessions[0].id),
            "grupo «g»: 1 miembro(s) no resueltos, omitidos".to_string(),
        ]
    );
    assert_eq!(db.folders[0].parent_id, None);
    assert_eq!(db.sessions[0].folder_id, None, "folder 99 is not in the file");
}

#[test]
fn orphan_folder_imported_twice_is_created_once() {
    let mut file = sample();
    file.folders = vec![Folder { id: 5, parent_id: Some(9), name: "Lost".into(), sort_order: 0 }];
    file.sessions.clear();
    file.session_forwards.clear();
    file.broadcast_groups.clear();
    let mut db = MemDb::default();
    let s1 = db.import(&file).unwrap();
    assert_eq!(s1.folders_added, 1);
    assert!(s1.warnings.iter().any(|w| w.contains("Lost")));
    let s2 = db.import(&file).unwrap();
    assert_eq!(s2.folders_added, 0);
    assert_eq!(db.folders.iter().filter(|f| f.name == "Lost").count(), 1);
    assert_eq!(db.folders[0].parent_id, None);
}
