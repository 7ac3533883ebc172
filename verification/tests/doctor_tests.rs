use raft::doctor::{doctor_display_path, DirState, DoctorReport, IssueLevel, Loaded};
use raft::records::{Agent, Meta, Rate};
use raft::survey::{build_doctor_report, snapshot_checkable, BusSnapshot, ConversationEntry, RecordFile};

fn healthy() -> BusSnapshot {
    BusSnapshot {
        root: DirState::Directory(Some(0o700)),
        expected: (0..8).map(|_| DirState::Directory(Some(0o700))).collect(),
        agents: vec![],
        heartbeats: vec![],
        watches: vec![],
        locks: vec![],
        now: (1_767_225_600, 0),
        conversations: vec![],
        orphans: Ok(vec![]),
        summary_limit: 32768,
    }
}

fn agent(id: &str) -> Agent {
    Agent {
        v: 1,
        id: id.to_string(),
        mention: format!("@{id}"),
        workspace: None,
        capabilities: vec![],
        pid: 1,
        host: "h".to_string(),
        last_seen_at: "2026-01-01T00:00:00Z".to_string(),
        ttl_seconds: 120,
        expires_at: "2026-01-01T00:02:00Z".to_string(),
        current_state: "idle".to_string(),
        state_note: None,
        state_updated_at: "2026-01-01T00:00:00Z".to_string(),
        pubkey: None,
    }
}

fn codes(r: &DoctorReport) -> Vec<String> {
    r.issues.iter().map(|i| i.code.clone()).collect()
}

#[test]
fn a_healthy_bus_is_ok() {
    let snap = healthy();
    assert!(snapshot_checkable(&snap));
    let r = build_doctor_report("/bus", false, &snap);
    assert!(r.ok);
    assert_eq!(r.error_count, 0);
    assert_eq!(r.warning_count, 0);
    assert_eq!(r.root, "/bus");
}

#[test]
fn a_missing_root_stops_the_scan() {
    let mut snap = healthy();
    snap.root = DirState::Missing;
    let r = build_doctor_report("/bus", false, &snap);
    assert!(!r.ok);
    assert_eq!(codes(&r), vec!["missing_root".to_string()]);
    assert_eq!(r.issues[0].message, "bus root does not exist");
    assert_eq!(r.issues[0].path, ".");
    snap.root = DirState::NotDirectory;
    let r = build_doctor_report("/bus", false, &snap);
    assert_eq!(codes(&r), vec!["invalid_root".to_string()]);
}

#[test]
fn warnings_fail_only_in_strict_mode() {
    let mut snap = healthy();
    snap.orphans = Ok(vec!["conversations/.x.json.1.a.raft-staged".to_string()]);
    let lenient = build_doctor_report("/bus", false, &snap);
    assert!(lenient.ok);
    assert_eq!(lenient.warning_count, 1);
    assert_eq!(lenient.issues[0].level, IssueLevel::Warning);
    assert_eq!(lenient.issues[0].code, "orphan_temp_file");
    let strict = build_doctor_report("/bus", true, &snap);
    assert!(!strict.ok);
    assert_eq!(strict.error_count + strict.warning_count, strict.issues.len());
}

#[test]
fn agent_records_are_checked() {
    let mut snap = healthy();
    let mut wrong = agent("bob");
    wrong.mention = "@robert".to_string();
    snap.agents = vec![
        RecordFile { name: "ann.json".into(), path: "agents/ann.json".into(), mode: Some(0o600), loaded: Loaded::Parsed(agent("ann")) },
        RecordFile { name: "bob.json".into(), path: "agents/bob.json".into(), mode: Some(0o644), loaded: Loaded::Parsed(wrong) },
        RecordFile { name: "cy.json".into(), path: "agents/cy.json".into(), mode: Some(0o600), loaded: Loaded::Malformed("expected value".into()) },
        RecordFile { name: "ann.key.json".into(), path: "agents/ann.key.json".into(), mode: Some(0o600), loaded: Loaded::Missing },
    ];
    let r = build_doctor_report("/bus", false, &snap);
    assert_eq!(r.counts.agents, 3);
    let c = codes(&r);
    assert!(c.contains(&"agent_mention_mismatch".to_string()));
    assert!(c.contains(&"agent_missing_pubkey".to_string()));
    assert!(c.contains(&"invalid_json".to_string()));
    assert!(!r.ok);
    assert_eq!(r.error_count, 1);
}

#[test]
fn conversations_without_metadata_are_errors() {
    let mut snap = healthy();
    snap.conversations = vec![ConversationEntry {
        name: "room".into(),
        path: "conversations/room".into(),
        is_dir: true,
        mode: Some(0o700),
        meta: None,
        messages_path: "conversations/room/messages".into(),
        messages_dir: DirState::Directory(Some(0o700)),
        receipts_path: "conversations/room/receipts".into(),
        receipts_dir: DirState::Directory(Some(0o700)),
        messages: vec![],
        receipts: vec![],
    }];
    let r = build_doctor_report("/bus", false, &snap);
    assert_eq!(r.counts.conversations, 1);
    assert_eq!(codes(&r), vec!["missing_meta".to_string()]);
    let with_meta = RecordFile {
        name: "meta.json".to_string(),
        path: "conversations/room/meta.json".to_string(),
        mode: Some(0o600),
        loaded: Loaded::Parsed(Meta {
            v: 1,
            id: "room".into(),
            participants: vec!["ann".into(), "bob".into()],
            channel: false,
            private: false,
            state: "open".into(),
            created_at: "2026-01-01T00:00:00Z".into(),
            updated_at: "2026-01-01T00:00:00Z".into(),
            retention_days: 14,
            rate: Rate { window_seconds: 60, max_messages_per_sender: 10, max_message_bytes: 32768 },
        }),
    };
    snap.conversations[0].meta = Some(with_meta);
    let r = build_doctor_report("/bus", false, &snap);
    assert!(!codes(&r).contains(&"missing_meta".to_string()));
}

#[test]
fn display_paths_are_relative_to_the_root() {
    assert_eq!(doctor_display_path("/bus", "/bus/agents/a.json"), "agents/a.json");
    assert_eq!(doctor_display_path("/bus", "/bus"), ".");
    assert_eq!(doctor_display_path("/bus", "/elsewhere/x"), "/elsewhere/x");
}

fn stored(id: &str, kind: &str, from: &str) -> raft::records::Message {
    raft::records::Message {
        v: 1,
        id: id.to_string(),
        conversation_id: "room".to_string(),
        kind: kind.to_string(),
        from: from.to_string(),
        to: vec!["ann".to_string()],
        mentions: vec![],
        subject: String::new(),
        body: "hi".to_string(),
        created_at: "2026-01-01T00:00:00Z".to_string(),
        requires_ack: false,
        needs_response_from: vec![],
        subject_id: None,
        after: None,
        withdrawn: None,
    }
}

fn check_one(m: &raft::records::Message) -> Vec<String> {
    let meta = Meta {
        v: 1,
        id: "room".into(),
        participants: vec!["ann".into(), "bob".into()],
        channel: false,
        private: false,
        state: "open".into(),
        created_at: "2026-01-01T00:00:00Z".into(),
        updated_at: "2026-01-01T00:00:00Z".into(),
        retention_days: 14,
        rate: Rate { window_seconds: 60, max_messages_per_sender: 10, max_message_bytes: 32768 },
    };
    let mut report = DoctorReport::new("/bus", false);
    let name = format!("{}.json", m.id);
    raft::checks::doctor_check_message(
        &mut report,
        "conversations/room/messages/x.json",
        &name,
        &meta,
        m,
        32768,
        &Ok(None),
        &Ok(None),
        "agents/x.json",
        &Loaded::Missing,
        &raft::json::JsonValue::Null,
    );
    codes(&report)
}

#[test]
fn sender_errors_follow_the_message_kind() {
    let outsider = check_one(&stored("m1", "message", "eve"));
    assert!(outsider.contains(&"sender_not_participant".to_string()));
    assert!(!outsider.contains(&"forged_system_message".to_string()));
    let member = check_one(&stored("m2", "message", "bob"));
    assert!(!member.contains(&"sender_not_participant".to_string()));
    let forged = check_one(&stored("m3", "system", "eve"));
    assert!(forged.contains(&"forged_system_message".to_string()));
    assert!(!forged.contains(&"sender_not_participant".to_string()));
    let genuine = check_one(&stored("m4", "system", "raft"));
    assert!(!genuine.contains(&"forged_system_message".to_string()));
}

#[test]
fn file_stems_follow_the_path_rules() {
    assert_eq!(raft::doctor::file_stem_of("abc.md").as_deref(), Some("abc"));
    assert_eq!(raft::doctor::file_stem_of("m-1.json").as_deref(), Some("m-1"));
    assert_eq!(raft::doctor::file_stem_of("a.b.json").as_deref(), Some("a.b"));
    assert_eq!(raft::doctor::file_stem_of(".json").as_deref(), Some(".json"));
    assert_eq!(raft::doctor::file_stem_of("noext").as_deref(), Some("noext"));
    assert_eq!(raft::doctor::file_stem_of("dir/x.json").as_deref(), Some("x"));
    assert_eq!(raft::doctor::file_stem_of("x.json/").as_deref(), Some("x"));
    assert_eq!(raft::doctor::file_stem_of(".."), None);
    assert_eq!(raft::doctor::file_stem_of(""), None);
}

#[test]
fn message_file_names_are_compared_by_stem() {
    let m = stored("abc", "message", "bob");
    let mut report = DoctorReport::new("/bus", false);
    let meta_ok = |r: &mut DoctorReport, name: &str| {
        let meta = Meta {
            v: 1,
            id: "room".into(),
            participants: vec!["ann".into(), "bob".into()],
            channel: false,
            private: false,
            state: "open".into(),
            created_at: "2026-01-01T00:00:00Z".into(),
            updated_at: "2026-01-01T00:00:00Z".into(),
            retention_days: 14,
            rate: Rate { window_seconds: 60, max_messages_per_sender: 10, max_message_bytes: 32768 },
        };
        raft::checks::doctor_check_message(
            r,
            "p",
            name,
            &meta,
            &m,
            32768,
            &Ok(None),
            &Ok(None),
            "agents/bob.json",
            &Loaded::Missing,
            &raft::json::JsonValue::Null,
        );
    };
    meta_ok(&mut report, "abc.md");
    assert!(!codes(&report).contains(&"message_id_mismatch".to_string()));
    let mut report = DoctorReport::new("/bus", false);
    meta_ok(&mut report, "x.tmp");
    let issue = report.issues.iter().find(|i| i.code == "message_id_mismatch").unwrap();
    assert_eq!(issue.message, "file name is \"x\" but payload id is \"abc\"");
}
