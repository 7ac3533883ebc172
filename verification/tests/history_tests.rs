use raft::bus::{message_awaited, receipt_recipients, write_receipt};
use raft::error::ErrorCode;
use raft::history::{
    archive_due, first_unread, inbox_rows, newest_messages, parse_i64, retention_would_overflow, search_pattern,
    search_results, since_cutoff, since_would_overflow, watch_should_emit, watch_start,
};
use raft::listing::UiSourceMessage;
use raft::presence::{
    claimed_agent, heartbeat_agent, heartbeat_ttl, not_claimed, registered_agent, state_set_agent, Liveness,
};
use raft::records::{Meta, Message, Rate, Receipt, WatchState, Withdrawal};


fn parse_time(text: &str) -> Option<(i64, u32)> {
    chrono::DateTime::parse_from_rfc3339(text).ok().map(|t| {
        let u = t.with_timezone(&chrono::Utc);
        (u.timestamp(), u.timestamp_subsec_nanos())
    })
}

fn msg(id: &str, from: &str, to: &[&str], created_at: &str, body: &str) -> Message {
    Message {
        v: 1,
        id: id.to_string(),
        conversation_id: "room".to_string(),
        kind: "message".to_string(),
        from: from.to_string(),
        to: to.iter().map(|s| s.to_string()).collect(),
        mentions: vec![],
        subject: String::new(),
        body: body.to_string(),
        created_at: created_at.to_string(),
        requires_ack: false,
        needs_response_from: vec![],
        subject_id: None,
        after: None,
        withdrawn: None,
    }
}

fn meta(participants: &[&str]) -> Meta {
    Meta {
        v: 1,
        id: "room".to_string(),
        participants: participants.iter().map(|s| s.to_string()).collect(),
        channel: false,
        private: false,
        state: "open".to_string(),
        created_at: "2026-01-01T00:00:00Z".to_string(),
        updated_at: "2026-01-01T00:00:00Z".to_string(),
        retention_days: 14,
        rate: Rate { window_seconds: 60, max_messages_per_sender: 30, max_message_bytes: 65536 },
    }
}

fn ids(rows: &[Message]) -> Vec<String> {
    rows.iter().map(|m| m.id.clone()).collect()
}

#[test]
fn i64_parsing_follows_from_str() {
    let p = |s: &str| parse_i64(&s.chars().collect::<Vec<_>>());
    assert_eq!(p("30"), Some(30));
    assert_eq!(p("+7"), Some(7));
    assert_eq!(p("-12"), Some(-12));
    assert_eq!(p("9223372036854775807"), Some(i64::MAX));
    assert_eq!(p("-9223372036854775808"), Some(i64::MIN));
    assert_eq!(p("9223372036854775808"), None);
    assert_eq!(p(""), None);
    assert_eq!(p("-"), None);
    assert_eq!(p("1x"), None);
}

#[test]
fn since_accepts_rfc3339_or_a_duration() {
    let now = (1_800_000_000i64, 5u32);
    let at = since_cutoff("2026-01-01T00:00:00Z", now).ok().unwrap();
    assert_eq!(at, parse_time("2026-01-01T00:00:00Z").unwrap());
    assert_eq!(since_cutoff("30m", now).ok().unwrap(), (1_800_000_000 - 1800, 5));
    assert_eq!(since_cutoff("2h", now).ok().unwrap(), (1_800_000_000 - 7200, 5));
    assert_eq!(since_cutoff("7d", now).ok().unwrap(), (1_800_000_000 - 7 * 86400, 5));
    assert_eq!(since_cutoff("15s", now).ok().unwrap(), (1_800_000_000 - 15, 5));
}

#[test]
fn since_rejects_malformed_durations() {
    let now = (1_800_000_000i64, 0u32);
    let e = since_cutoff("xm", now).err().unwrap();
    assert_eq!(e.message, "invalid --since \"xm\"; duration must be numeric");
    let e = since_cutoff("", now).err().unwrap();
    assert_eq!(e.message, "invalid --since \"\"; duration must be numeric");
    let e = since_cutoff("-5m", now).err().unwrap();
    assert_eq!(e.message, "invalid --since \"-5m\"; duration must be non-negative");
    let e = since_cutoff("5w", now).err().unwrap();
    assert_eq!(e.message, "invalid --since \"5w\"; use s, m, h, or d duration suffix");
    let e = since_cutoff("5é", now).err().unwrap();
    assert_eq!(e.message, "invalid --since \"5é\"; use RFC3339 or a duration like 30m, 2h, 7d");
    assert_eq!(e.code, ErrorCode::Error);
}

#[test]
fn since_overflow_is_detected() {
    let now = (1_800_000_000i64, 0u32);
    assert!(!since_would_overflow("7d", now));
    assert!(since_would_overflow("9223372036854775807d", now));
    assert!(since_would_overflow("9000000000000s", now));
    assert!(!since_would_overflow("oops", now));
}

#[test]
fn search_keeps_newest_hits_in_id_order() {
    let rows = vec![
        msg("m3", "ann", &["bob"], "2026-01-03T00:00:00Z", "Deploy done"),
        msg("m1", "ann", &["bob"], "2026-01-01T00:00:00Z", "deploy started"),
        msg("m2", "bob", &["ann"], "2026-01-02T00:00:00Z", "lunch?"),
        msg("m4", "bob", &["ann"], "not a time", "deploy again"),
    ];
    let pattern = search_pattern("DEPLOY").ok().unwrap();
    assert_eq!(pattern, "deploy");
    let all = search_results(rows, &pattern, None, 10);
    assert_eq!(ids(&all), vec!["m1", "m3", "m4"]);
    let rows = vec![
        msg("m3", "ann", &["bob"], "2026-01-03T00:00:00Z", "Deploy done"),
        msg("m1", "ann", &["bob"], "2026-01-01T00:00:00Z", "deploy started"),
        msg("m4", "bob", &["ann"], "not a time", "deploy again"),
    ];
    let cutoff = parse_time("2026-01-02T00:00:00Z");
    let recent = search_results(rows, &pattern, cutoff, 10);
    assert_eq!(ids(&recent), vec!["m3"]);
    let e = search_pattern("  \t").err().unwrap();
    assert_eq!(e.message, "search pattern cannot be empty");
}

#[test]
fn show_keeps_the_newest_by_id() {
    let rows = vec![
        msg("b", "ann", &["*"], "t", ""),
        msg("a", "ann", &["*"], "t", ""),
        msg("d", "ann", &["*"], "t", ""),
        msg("c", "ann", &["*"], "t", ""),
    ];
    assert_eq!(ids(&newest_messages(rows, 2)), vec!["c", "d"]);
    let rows = vec![msg("b", "ann", &["*"], "t", ""), msg("a", "ann", &["*"], "t", "")];
    assert_eq!(ids(&newest_messages(rows, 5)), vec!["a", "b"]);
}

#[test]
fn inbox_and_wait_see_only_unread_when_asked() {
    let row = |id: &str, from: &str, read: bool| UiSourceMessage {
        message: msg(id, from, &["bob"], "t", ""),
        receipt_exists: read,
    };
    let rows = vec![row("1", "ann", true), row("2", "bob", false), row("3", "ann", false), row("4", "ann", false)];
    assert_eq!(first_unread(&rows, "bob"), Some(2));
    let unread = inbox_rows(rows, "bob", true, 1);
    assert_eq!(unread.len(), 1);
    assert_eq!(unread[0].message.id, "4");
    let rows = vec![row("1", "ann", true), row("2", "bob", false)];
    assert_eq!(first_unread(&rows, "bob"), None);
    let everything = inbox_rows(rows, "bob", false, 10);
    assert_eq!(everything.len(), 2);
}

#[test]
fn watch_reports_past_the_cursor() {
    let m = msg("m5", "ann", &["bob"], "t", "");
    // No bound at all, and past an explicit --since floor.
    assert!(watch_should_emit(&m, None, None, "bob", false, false, true));
    assert!(watch_should_emit(&m, Some("m4"), None, "bob", false, false, true));
    // An explicit --since is a hard floor.
    assert!(!watch_should_emit(&m, Some("m5"), None, "bob", false, false, true));
    assert!(!watch_should_emit(&m, Some("m6"), Some("m1"), "bob", false, false, true));
    // Without auto-read the stored cursor holds every message back.
    assert!(!watch_should_emit(&m, None, Some("m5"), "bob", false, false, false));
    assert!(watch_should_emit(&m, None, Some("m4"), "bob", false, false, false));
    // A read message is not reported again.
    assert!(!watch_should_emit(&m, None, None, "bob", true, false, true));
    let mut change = msg("m6", "system", &["*"], "t", "@ann is now busy");
    change.kind = "system".to_string();
    change.subject = "state changed".to_string();
    assert!(!watch_should_emit(&change, None, None, "bob", false, false, true));
    assert!(watch_should_emit(&change, None, None, "bob", false, true, true));
    // The cursor still holds back state-change notices under auto-read.
    assert!(!watch_should_emit(&change, None, Some("m6"), "bob", false, true, true));
}

#[test]
fn watch_emits_a_late_message_whose_id_sorts_below_the_cursor() {
    // The cursor was advanced to the already-read high-id message.
    let high = msg("m-20260101T000000000-0001", "a", &["b"], "t", "high id");
    let low = msg("m-20000101T000000000-0000", "a", &["b"], "t", "low id but newly arrived");
    let cursor = Some("m-20260101T000000000-0001");
    // Under auto-read, read receipts decide: the unread low-id message is reported...
    assert!(watch_should_emit(&low, None, cursor, "b", false, false, true));
    // ...and the already-read high-id message is not reported again.
    assert!(!watch_should_emit(&high, None, cursor, "b", true, false, true));
    // An explicit --since stays a hard floor for it.
    assert!(!watch_should_emit(&low, cursor, cursor, "b", false, false, true));
    // Reporting the late message does not move the cursor back.
    let kept = raft::history::advanced_cursor(Some(high.id.clone()), &low);
    assert_eq!(kept.as_deref(), Some("m-20260101T000000000-0001"));
    let moved = raft::history::advanced_cursor(Some(low.id.clone()), &high);
    assert_eq!(moved.as_deref(), Some("m-20260101T000000000-0001"));
    assert_eq!(raft::history::advanced_cursor(None, &low).as_deref(), Some("m-20000101T000000000-0000"));
}

#[test]
fn watch_resumes_from_the_stored_cursor() {
    let prev = WatchState {
        v: 1,
        agent: "bob".into(),
        pid: 1,
        host: "h".into(),
        started_at: "t0".into(),
        updated_at: "t0".into(),
        last_event_id: Some("m2".into()),
        shutdown_at: Some("t1".into()),
    };
    let s = watch_start("bob", None, Some(prev), 7, "host".into(), "now".into());
    assert_eq!(s.last_event_id.as_deref(), Some("m2"));
    assert!(s.shutdown_at.is_none());
    let s = watch_start("bob", Some("m9".into()), None, 7, "host".into(), "now".into());
    assert_eq!(s.last_event_id.as_deref(), Some("m9"));
}

#[test]
fn archiving_follows_the_retention_period() {
    let now = parse_time("2026-02-01T00:00:00Z").unwrap();
    assert!(archive_due("2026-01-17T23:59:59Z", now, 14));
    assert!(!archive_due("2026-01-18T00:00:00Z", now, 14));
    assert!(!archive_due("garbage", now, 14));
    assert!(!retention_would_overflow(now, 14));
    assert!(retention_would_overflow(now, 200_000_000_000));
}

fn live() -> Liveness {
    Liveness { pid: 42, host: "box".into(), now: "2026-01-01T00:00:00Z".into(), expires_at: "2026-01-01T00:02:00Z".into() }
}

#[test]
fn claims_heartbeats_and_state_changes() {
    let a = claimed_agent("ann", None, vec!["plan".into()], &live(), 120);
    assert_eq!(a.mention, "@ann");
    assert_eq!(a.current_state, "idle");
    assert_eq!(a.expires_at, "2026-01-01T00:02:00Z");
    let (busy, changed) = state_set_agent(&a, "ann", "working", Some("deploy".into()), &live());
    assert!(changed);
    assert_eq!(busy.current_state, "working");
    let (_, again) = state_set_agent(&busy, "ann", "working", Some("deploy".into()), &live());
    assert!(!again);
    assert_eq!(heartbeat_ttl(&busy, None), 120);
    assert_eq!(heartbeat_ttl(&busy, Some(30)), 30);
    let beat = heartbeat_agent(&busy, "ann", &live(), 30);
    assert_eq!(beat.current_state, "working");
    assert_eq!(beat.state_note.as_deref(), Some("deploy"));
    assert_eq!(beat.ttl_seconds, 30);
    let re = registered_agent(&beat, "ann", Some("/w".into()), vec![], &live(), 60);
    assert_eq!(re.capabilities, vec!["plan".to_string()]);
    assert_eq!(re.workspace.as_deref(), Some("/w"));
    let e = not_claimed("alise");
    assert_eq!(e.code, ErrorCode::NotClaimed);
    assert_eq!(e.message, "agent @alise is not claimed; use raft claim");
}

#[test]
fn receipts_never_downgrade() {
    let meta = meta(&["ann", "bob"]);
    let m = msg("m1", "ann", &["bob"], "t", "hi");
    let done = write_receipt(&meta, &m, "bob", "done", None, None, "t1").ok().unwrap();
    assert_eq!(done.status, "done");
    let after_read = write_receipt(&meta, &m, "bob", "read", None, Some(done), "t2").ok().unwrap();
    assert_eq!(after_read.status, "done");
    assert_eq!(after_read.history.len(), 2);
    assert_eq!(after_read.read_at.as_deref(), Some("t2"));
    let pending: Receipt = write_receipt(&meta, &m, "bob", "working", None, Some(after_read), "t3").ok().unwrap();
    assert_eq!(pending.status, "done");
    let err = write_receipt(&meta, &m, "eve", "read", None, None, "t").err().unwrap();
    assert_eq!(err.code, ErrorCode::NotParticipant);
    assert_eq!(err.message, "agent \"eve\" is not a participant in \"room\"");
}

#[test]
fn recipients_and_awaited_agents() {
    let meta = meta(&["ann", "bob", "cy"]);
    let all = msg("m1", "ann", &["*"], "t", "hi");
    assert_eq!(receipt_recipients(&all, &meta), vec!["bob".to_string(), "cy".to_string()]);
    let mut ask = msg("m2", "ann", &["bob"], "t", "please");
    ask.requires_ack = true;
    assert_eq!(message_awaited(&ask, &meta), vec!["bob".to_string()]);
    ask.withdrawn = Some(Withdrawal { by: "ann".into(), at: "t".into(), reason: None });
    assert!(message_awaited(&ask, &meta).is_empty());
}

#[test]
fn hidden_messages_are_refused_as_not_participant() {
    let meta = meta(&["ann", "bob", "cy"]);
    let m = msg("m1", "ann", &["bob"], "t", "hi");
    let err = write_receipt(&meta, &m, "cy", "read", None, None, "t").err().unwrap();
    assert_eq!(err.code, ErrorCode::NotParticipant);
    assert_eq!(err.message, "message \"m1\" is not visible to \"cy\"");
    let direct = raft::bus::not_visible("m1", "cy");
    assert_eq!(direct.message, err.message);
    assert_eq!(direct.code.as_str(), "not_participant");
}

#[test]
fn a_non_terminal_ack_cannot_downgrade_a_closed_ask() {
    let meta = meta(&["alice", "bob"]);
    let m = msg("m1", "alice", &["bob"], "t", "ship it");
    let closed = || write_receipt(&meta, &m, "bob", "done", Some("shipped".to_string()), None, "t1").ok().unwrap();
    let done = closed();
    assert_eq!(done.note.as_deref(), Some("shipped"));
    for status in ["received", "accepted", "working", "blocked", "read"] {
        let again = write_receipt(&meta, &m, "bob", status, None, Some(closed()), "t2").ok().unwrap();
        assert_eq!(again.status, "done");
        assert_eq!(again.note.as_deref(), Some("shipped"));
        assert_eq!(again.history.len(), 2);
        assert_eq!(again.history[1].status, status);
    }
    // A terminal status that is requested replaces the note.
    let rejected = write_receipt(&meta, &m, "bob", "rejected", Some("no".to_string()), Some(done), "t3").ok().unwrap();
    assert_eq!(rejected.status, "rejected");
    assert_eq!(rejected.note.as_deref(), Some("no"));
}
