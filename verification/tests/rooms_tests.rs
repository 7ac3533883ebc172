use raft::asks::{gather_open_asks, split_awaiting, AskSource, MessageReceipts};
use raft::error::ErrorCode;
use raft::listing::{build_ui_snapshot, cmd_roster, UiSource, UiSourceMessage};
use raft::rates::{enforce_rate_limit, RateState};
use raft::records::{Agent, Meta, Message, Rate};
use raft::rooms::{cmd_conversation_create, cmd_conversation_open, join_channel, open_private_chat, JoinOutcome, PrivateChat};
use raft::send::{send_message, send_recipients, SendMessageInput};
use raft::thread::build_thread_node;

fn meta(id: &str, participants: &[&str], channel: bool) -> Meta {
    Meta {
        v: 1,
        id: id.to_string(),
        participants: participants.iter().map(|s| s.to_string()).collect(),
        channel,
        private: false,
        state: "open".to_string(),
        created_at: "2026-01-01T00:00:00Z".to_string(),
        updated_at: "2026-01-01T00:00:00Z".to_string(),
        retention_days: 14,
        rate: Rate { window_seconds: 60, max_messages_per_sender: 2, max_message_bytes: 16 },
    }
}

fn msg(id: &str, from: &str, to: &[&str], after: Option<&str>) -> Message {
    Message {
        v: 1,
        id: id.to_string(),
        conversation_id: "room".to_string(),
        kind: "message".to_string(),
        from: from.to_string(),
        to: to.iter().map(|s| s.to_string()).collect(),
        mentions: vec![],
        subject: "s".to_string(),
        body: "b".to_string(),
        created_at: format!("2026-01-01T00:00:0{}Z", id.len() % 10),
        requires_ack: false,
        needs_response_from: vec![],
        subject_id: None,
        after: after.map(|s| s.to_string()),
        withdrawn: None,
    }
}

fn agent(id: &str, state: &str, expires_at: &str) -> Agent {
    Agent {
        v: 1,
        id: id.to_string(),
        mention: format!("@{id}"),
        workspace: None,
        capabilities: vec![],
        pid: 1,
        host: "h".to_string(),
        last_seen_at: "2026-01-01T00:00:00Z".to_string(),
        ttl_seconds: 120,
        expires_at: expires_at.to_string(),
        current_state: state.to_string(),
        state_note: None,
        state_updated_at: "2026-01-01T00:00:00Z".to_string(),
        pubkey: None,
    }
}

fn input(to: &str, body: &str) -> SendMessageInput {
    SendMessageInput {
        conversation_id: "room".to_string(),
        sender: "ann".to_string(),
        to: to.to_string(),
        subject: String::new(),
        body: body.to_string(),
        kind: "message".to_string(),
        after: None,
        subject_id: None,
        requires_ack: true,
        needs_response_from: String::new(),
    }
}

#[test]
fn conversations_need_two_participants_and_a_member_starter() {
    let e = cmd_conversation_create("room", "ann", None, false, 14, (60, 10, 32768), false, false, "t", "m0".into())
        .err()
        .unwrap();
    assert_eq!(e.message, "a conversation needs at least two participants");
    let e = cmd_conversation_create("room", "ann,bob", Some("cy"), false, 14, (60, 10, 32768), false, false, "t", "m0".into())
        .err()
        .unwrap();
    assert_eq!(e.message, "starter must be one of the participants");
    let rec = cmd_conversation_create("room", "ann, bob,ann", None, true, 14, (60, 10, 32768), false, false, "t", "m0".into())
        .ok()
        .unwrap()
        .unwrap();
    assert_eq!(rec.meta.participants, vec!["ann".to_string(), "bob".to_string()]);
    assert!(rec.meta.private);
    assert_eq!(rec.opening.kind, "system");
    assert_eq!(rec.opening.body, "Conversation opened by ann. Participants: ann,bob.");
    let e = cmd_conversation_create("room", "ann,bob", None, false, 14, (60, 10, 32768), true, false, "t", "m0".into())
        .err()
        .unwrap();
    assert_eq!(e.code, ErrorCode::Conflict);
    assert!(cmd_conversation_create("room", "ann,bob", None, false, 14, (60, 10, 32768), true, true, "t", "m0".into())
        .ok()
        .unwrap()
        .is_none());
}

#[test]
fn opening_a_private_chat_derives_its_id() {
    let a = cmd_conversation_open("ann", "bob", None, "plan", 14, (60, 10, 32768), false, false, "t", "m0".into())
        .ok()
        .unwrap()
        .unwrap();
    let b = cmd_conversation_open("bob", "ann", None, "plan", 14, (60, 10, 32768), false, false, "t", "m0".into())
        .ok()
        .unwrap()
        .unwrap();
    assert_eq!(a.meta.id, b.meta.id);
    assert!(a.meta.id.starts_with("p-plan-ann-bob-"));
    let e = cmd_conversation_open("ann", "ann", None, "", 14, (60, 10, 32768), false, false, "t", "m0".into())
        .err()
        .unwrap();
    assert_eq!(e.message, "a private chat needs at least two unique participants");
}

#[test]
fn joining_a_channel_adds_the_agent_once() {
    match join_channel("cy", "lobby", Some(meta("lobby", &["ann"], true)), "t", "m1".into()).ok().unwrap() {
        JoinOutcome::Joined(m, notice) => {
            assert_eq!(m.participants, vec!["ann".to_string(), "cy".to_string()]);
            assert_eq!(notice.body, "@cy joined channel lobby.");
        }
        JoinOutcome::AlreadyMember => panic!("expected a join"),
    }
    assert!(matches!(
        join_channel("ann", "lobby", Some(meta("lobby", &["ann"], true)), "t", "m1".into()).ok().unwrap(),
        JoinOutcome::AlreadyMember
    ));
    let e = join_channel("cy", "room", Some(meta("room", &["ann"], false)), "t", "m1".into()).err().unwrap();
    assert_eq!(e.message, "\"room\" is not a channel");
    let e = join_channel("cy", "gone", None, "t", "m1".into()).err().unwrap();
    assert_eq!(e.message, "channel \"gone\" does not exist");
}

#[test]
fn sending_checks_recipients_size_and_rate() {
    let m = meta("room", &["ann", "bob"], false);
    let (sender, to) = send_recipients("ann", "bob").ok().unwrap();
    assert_eq!(sender, "ann");
    let now = (1_767_225_600i64, 0u32);
    let (sent, rates) = send_message(&input("bob", "hi"), &sender, to, &m, RateState { v: 1, senders: vec![] }, now, "2026-01-01T00:00:00Z", "m1".into())
        .ok()
        .unwrap();
    assert_eq!(sent.to, vec!["bob".to_string()]);
    assert_eq!(sent.from, "ann");
    assert!(sent.requires_ack);
    assert_eq!(rates.senders.len(), 1);
    assert_eq!(rates.senders[0].1.count, 1);
    let e = send_recipients("ann", " , ").err().unwrap();
    assert_eq!(e.message, "--to needs at least one recipient");
    let big = enforce_rate_limit(&m, RateState { v: 1, senders: vec![] }, "ann", None, "0123456789abcdefg", now, "2026-01-01T00:00:00Z")
        .err()
        .unwrap();
    assert_eq!(big.message, "message is 17 bytes; limit is 16");
    assert_eq!(big.code, ErrorCode::TooLarge);
    assert_eq!(big.code.as_str(), "too_large");
    let once = enforce_rate_limit(&m, rates, "ann", None, "x", now, "2026-01-01T00:00:00Z").ok().unwrap();
    let limited = enforce_rate_limit(&m, once, "ann", None, "x", now, "2026-01-01T00:00:00Z").err().unwrap();
    assert_eq!(limited.message, "rate limited: \"ann\" already sent 2 messages in 60s for \"room\"");
    assert_eq!(limited.code, ErrorCode::RateLimited);
    assert_eq!(limited.code.as_str(), "rate_limited");
    let (_, to) = send_recipients("ann", "eve").ok().unwrap();
    let e = send_message(&input("eve", "hi"), "ann", to, &m, RateState { v: 1, senders: vec![] }, now, "t", "m2".into())
        .err()
        .unwrap();
    assert_eq!(e.message, "recipient \"eve\" is not a participant in \"room\"");
    assert_eq!(e.code, ErrorCode::NotParticipant);
    let e = send_message(&input("bob", "hi"), "cy", vec!["bob".to_string()], &m, RateState { v: 1, senders: vec![] }, now, "t", "m3".into())
        .err()
        .unwrap();
    assert_eq!(e.message, "agent \"cy\" is not a participant in \"room\"");
    assert_eq!(e.code.as_str(), "not_participant");
}

#[test]
fn open_asks_are_listed_oldest_first() {
    let mut first = msg("m1", "ann", &["bob"], None);
    first.requires_ack = true;
    first.created_at = "2026-01-02T00:00:00Z".to_string();
    let mut second = msg("m2", "bob", &["ann"], None);
    second.needs_response_from = vec!["ann".to_string()];
    second.created_at = "2026-01-01T00:00:00Z".to_string();
    let mut done = msg("m3", "ann", &["bob"], None);
    done.requires_ack = true;
    let sources = vec![AskSource {
        meta: meta("room", &["ann", "bob"], false),
        messages: vec![
            MessageReceipts { message: first, receipts: vec![("bob".into(), "read".into())] },
            MessageReceipts { message: second, receipts: vec![] },
            MessageReceipts { message: done, receipts: vec![("bob".into(), "done".into())] },
        ],
    }];
    let asks = gather_open_asks(&sources, None, None);
    assert_eq!(asks.len(), 2);
    assert_eq!(asks[0].message_id, "m2");
    assert_eq!(asks[0].status, "none");
    assert_eq!(asks[1].message_id, "m1");
    assert_eq!(asks[1].status, "read");
    let (owe, owed) = split_awaiting(&asks, "ann");
    assert_eq!(owe.len(), 1);
    assert_eq!(owe[0].message_id, "m2");
    assert_eq!(owed.len(), 1);
    assert_eq!(owed[0].awaited, "bob");
}

#[test]
fn roster_orders_by_state_then_id() {
    let agents = vec![
        agent("zed", "blocked", "2999-01-01T00:00:00Z"),
        agent("amy", "idle", "2999-01-01T00:00:00Z"),
        agent("bo", "working", "2999-01-01T00:00:00Z"),
        agent("old", "idle", "2000-01-01T00:00:00Z"),
    ];
    let now = (1_767_225_600i64, 0u32);
    let live = cmd_roster(&agents, &vec![], now, false);
    let ids: Vec<&str> = live.iter().map(|e| e.id.as_str()).collect();
    assert_eq!(ids, vec!["zed", "bo", "amy"]);
    let all = cmd_roster(&agents, &vec![], now, true);
    assert_eq!(all.len(), 4);
    assert!(!all.iter().find(|e| e.id == "old").unwrap().active);
}

#[test]
fn threads_follow_replies_within_a_budget() {
    let messages = vec![
        msg("a", "ann", &["*"], None),
        msg("b", "bob", &["*"], Some("a")),
        msg("c", "ann", &["*"], Some("b")),
        msg("d", "bob", &["*"], Some("a")),
    ];
    let view = build_thread_node("a", &messages, 10).ok().unwrap();
    let tree = &view.root;
    assert!(!view.truncated);
    assert_eq!(view.omitted, 0);
    assert_eq!(tree.message.id, "a");
    assert_eq!(tree.children.len(), 2);
    assert_eq!(tree.children[0].message.id, "b");
    assert_eq!(tree.children[0].children[0].message.id, "c");
    assert_eq!(tree.children[1].message.id, "d");
    // A limit of 2 keeps the root and the newest reply, "d".
    let cut = build_thread_node("a", &messages, 2).ok().unwrap();
    assert_eq!(cut.root.children.len(), 1);
    assert_eq!(cut.root.children[0].message.id, "d");
    assert!(cut.truncated);
    assert_eq!(cut.omitted, 2);
    // A limit of 3 keeps "c" and "d"; "c" lost its parent "b" and hangs under the root.
    let reparented = build_thread_node("a", &messages, 3).ok().unwrap();
    let ids: Vec<&str> = reparented.root.children.iter().map(|c| c.message.id.as_str()).collect();
    assert_eq!(ids, vec!["c", "d"]);
    assert_eq!(reparented.omitted, 1);
    // Even a limit of 0 shows the root.
    let bare = build_thread_node("a", &messages, 0).ok().unwrap();
    assert_eq!(bare.root.message.id, "a");
    assert!(bare.root.children.is_empty());
    assert_eq!(bare.omitted, 3);
    let e = build_thread_node("zz", &messages, 5).err().unwrap();
    assert_eq!(e.message, "message \"zz\" was not found in visible thread");
}

#[test]
fn ui_snapshot_counts_what_the_agent_sees() {
    let row = |id: &str, from: &str, read: bool| UiSourceMessage { message: msg(id, from, &["bob"], None), receipt_exists: read };
    let sources = vec![UiSource {
        meta: meta("room", &["ann", "bob"], false),
        messages: vec![row("m2", "ann", false), row("m1", "ann", true), row("m3", "bob", false)],
    }];
    let agents = vec![agent("ann", "idle", "2999-01-01T00:00:00Z"), agent("bob", "idle", "2000-01-01T00:00:00Z")];
    let snap = build_ui_snapshot("/bus", "bob", 2, &agents, &vec![], &sources, (1_767_225_600, 0), "now".into());
    assert_eq!(snap.totals.active_agents, 1);
    assert_eq!(snap.totals.stale_agents, 1);
    assert_eq!(snap.totals.messages, 3);
    assert_eq!(snap.totals.unread_messages, 1);
    let c = &snap.conversations[0];
    assert_eq!(c.message_count, 3);
    let shown: Vec<&str> = c.messages.iter().map(|m| m.id.as_str()).collect();
    assert_eq!(shown, vec!["m2", "m3"]);
}

#[test]
fn thread_limit_keeps_the_newest_replies_not_the_oldest() {
    let mut messages = vec![msg("r", "a", &["b"], None)];
    for i in 0..5 {
        messages.push(msg(&format!("r{i}"), "a", &["b"], Some("r")));
    }
    let view = build_thread_node("r", &messages, 3).ok().unwrap();
    assert_eq!(view.root.message.id, "r");
    assert!(view.truncated);
    assert_eq!(view.omitted, 3);
    let kept: Vec<&str> = view.root.children.iter().map(|c| c.message.id.as_str()).collect();
    assert_eq!(kept, vec!["r3", "r4"]);
    let full = build_thread_node("r", &messages, 100).ok().unwrap();
    assert!(!full.truncated);
    assert_eq!(full.omitted, 0);
    assert_eq!(full.root.children.len(), 5);
}

#[test]
fn conversation_open_if_missing_is_idempotent_for_a_derived_id() {
    let rate = (60, 10, 32768);
    let first = cmd_conversation_open("alice", "bob", None, "deploy", 14, rate, false, true, "t", "m0".into())
        .ok()
        .unwrap()
        .unwrap();
    let x = first.meta.id.clone();
    // Either side opening again with the same topic derives the same id and,
    // the room existing, creates nothing.
    for (opener, to) in [("alice", "bob"), ("bob", "alice")] {
        let again = cmd_conversation_open(opener, to, None, "deploy", 14, rate, true, true, "t", "m1".into()).ok().unwrap();
        assert!(again.is_none());
        let id = raft::naming::derived_private_conversation_id(&[opener.to_string(), to.to_string()], "deploy");
        assert_eq!(id, x);
    }
    // Another topic is another room.
    let other = cmd_conversation_open("alice", "bob", None, "incident", 14, rate, false, true, "t", "m2".into())
        .ok()
        .unwrap()
        .unwrap();
    assert_ne!(other.meta.id, x);
}

#[test]
fn a_private_chat_is_reused_by_the_same_pair() {
    let first = open_private_chat("alice", "bob", "t1", &[], "abc123", "t", "m0".into()).ok().unwrap();
    let created = match first {
        PrivateChat::Created(rec) => rec,
        PrivateChat::Existing(_) => panic!("nothing existed yet"),
    };
    let id = created.meta.id.clone();
    let metas = vec![meta("general", &["alice", "bob"], true), created.meta];
    match open_private_chat("bob", "alice", "t2", &metas, "def456", "t", "m1".into()).ok().unwrap() {
        PrivateChat::Existing(found) => assert_eq!(found, id),
        PrivateChat::Created(_) => panic!("the pair's chat must be reused"),
    }
}
