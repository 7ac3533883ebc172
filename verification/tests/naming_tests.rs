use raft::capability::{effective, effective_to_json, issue_root, Caveats};
use raft::crypto::Keypair;
use raft::display::truncated_body;
use raft::lists::{extract_mentions, split_csv, split_recipients, unique};
use raft::naming::{derived_private_conversation_id, generated_private_conversation_id, slugify_id_segment};
use raft::storage::{agent_path, conversation_path, receipt_path_for};
use raft::suggest::{edit_distance, nearest_ids};
use raft::util::{normalize_send_kind, rate_key, validate_claim_name, validate_id};

fn strings(v: &[&str]) -> Vec<String> {
    v.iter().map(|s| s.to_string()).collect()
}

#[test]
fn slugs_keep_ascii_words() {
    assert_eq!(slugify_id_segment("Deploy API!"), "deploy-api");
    assert_eq!(slugify_id_segment("--x__y--"), "x-y");
    assert_eq!(slugify_id_segment("ünï"), "n");
    assert_eq!(slugify_id_segment(""), "");
}

#[test]
fn private_ids_name_topic_and_people() {
    assert_eq!(
        generated_private_conversation_id(&strings(&["ann", "bob"]), "Deploy API!", "1a2b3c4d"),
        "p-deploy-api-ann-bob-1a2b3c4d"
    );
    assert_eq!(
        generated_private_conversation_id(&strings(&["a", "b", "c", "d"]), "", "xy"),
        "p-a-b-c-xy"
    );
    let long = "t".repeat(200);
    let id = generated_private_conversation_id(&strings(&["ann"]), &long, "12345678");
    assert_eq!(id.len(), 80);
    assert!(id.ends_with("-12345678"));
}

#[test]
fn derived_private_ids_ignore_who_opens_and_order() {
    let a = derived_private_conversation_id(&strings(&["bob", "ann"]), "Deploy API!");
    let b = derived_private_conversation_id(&strings(&["ann", "bob", "ann"]), "Deploy API!");
    assert_eq!(a, b);
    assert_eq!(a, "p-deploy-api-ann-bob-69ac8f06");
    assert_eq!(derived_private_conversation_id(&strings(&["bob", "ann"]), ""), "p-ann-bob-f0cacabb");
    assert_ne!(a, derived_private_conversation_id(&strings(&["ann", "bob"]), "other"));
}

#[test]
fn csv_lists_are_trimmed_and_checked() {
    assert_eq!(split_csv(" a, b,,c ").ok().unwrap(), strings(&["a", "b", "c"]));
    assert!(split_csv("").ok().unwrap().is_empty());
    let e = split_csv("a,b c").err().unwrap();
    assert!(e.message.starts_with("invalid id \"b c\""));
    assert_eq!(split_recipients("@ann, *, bob").ok().unwrap(), strings(&["ann", "*", "bob"]));
    assert!(split_recipients("@").is_err());
    assert_eq!(unique(strings(&["b", "a", "b", "c", "a"])), strings(&["b", "a", "c"]));
}

#[test]
fn mentions_are_collected_once() {
    assert_eq!(extract_mentions("hi @ann and @bob.x, @ann again @ @-x"), strings(&["ann", "bob.x"]));
    assert!(extract_mentions("mail me at x@").is_empty());
}

#[test]
fn near_misses_are_suggested_closest_first() {
    assert_eq!(edit_distance("kitten", "sitting"), 3);
    assert_eq!(edit_distance("", "abc"), 3);
    let candidates = strings(&["alicia", "alize", "bob", "alice", "alise"]);
    assert_eq!(nearest_ids("alise", &candidates, 3), strings(&["alice", "alize"]));
    assert_eq!(nearest_ids("zzz", &candidates, 3), Vec::<String>::new());
    assert_eq!(nearest_ids("alise", &candidates, 1), strings(&["alice"]));
}

#[test]
fn identifiers_and_kinds_are_validated() {
    assert_eq!(validate_id("room-1", "conversation id").ok().unwrap(), "room-1");
    assert_eq!(
        validate_id("-x", "conversation id").err().unwrap().message,
        "invalid conversation id \"-x\"; use 1-80 letters, digits, dots, dashes, or underscores"
    );
    assert!(validate_id(&"a".repeat(81), "id").is_err());
    assert_eq!(validate_claim_name("@annie").ok().unwrap(), "annie");
    assert_eq!(
        validate_claim_name("al").err().unwrap().message,
        "agent name @al is too short; choose a unique, personable name"
    );
    assert_eq!(normalize_send_kind("event").ok().unwrap(), "event");
    assert_eq!(
        normalize_send_kind("system").err().unwrap().message,
        "kind \"system\" is reserved for raft internals"
    );
    assert_eq!(
        normalize_send_kind("memo").err().unwrap().message,
        "unsupported kind \"memo\"; use message, event, or receipt"
    );
    assert_eq!(rate_key("ann", Some("t1")), "ann#t1");
    assert_eq!(rate_key("ann", None), "ann");
}

#[test]
fn store_paths_are_relative_to_the_bus() {
    assert_eq!(conversation_path("room").ok().unwrap(), "conversations/room");
    assert!(conversation_path("../x").is_err());
    assert_eq!(agent_path("ann"), "agents/ann.json");
    assert_eq!(receipt_path_for("room", "m1", "bob"), "conversations/room/receipts/m1/bob.json");
}

#[test]
fn bodies_are_collapsed_and_cut() {
    assert_eq!(truncated_body("a  b\n c", 80), "a b c");
    assert_eq!(truncated_body("abcdefghij", 8), "abcde...");
    assert_eq!(truncated_body("abcdefghij", 2), "ab");
    assert_eq!(truncated_body("ééééé", 6), "é...");
}

#[test]
fn authority_renders_as_sorted_json() {
    let k = Keypair::from_seed(vec![31u8; 32]);
    let token = issue_root(
        &k,
        &k.public_hex(),
        Caveats {
            action: vec!["b".into(), "a".into()],
            expires_at: Some("2030-01-01T12:00:00.5+02:00".into()),
            max_runtime_s: Some(60),
            ..Default::default()
        },
    );
    let eff = effective(&token).ok().unwrap();
    assert_eq!(
        effective_to_json(&eff),
        "{\"action\":[\"a\",\"b\"],\"conversation\":null,\"conversation_impossible\":false,\"env\":null,\"expires_at\":\"2030-01-01T10:00:00Z\",\"max_output_bytes\":null,\"max_runtime_s\":60,\"tool\":null}"
    );
}

#[test]
fn status_message_count_ignores_orphan_tmp_files() {
    let names: Vec<String> = vec!["m-1.json".into(), "m-2.json".into()];
    assert_eq!(raft::storage::count_json_files(&names), 2);
    let with_orphan: Vec<String> =
        vec![".orphan.1.abc.tmp".into(), "m-1.json".into(), "m-2.json".into(), ".m-3.json.raft-staged".into(), ".json".into()];
    assert_eq!(raft::storage::count_json_files(&with_orphan), 2);
    assert!(raft::storage::is_json_file("m-1.json"));
    assert!(!raft::storage::is_json_file(".json"));
}
