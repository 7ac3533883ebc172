use raft::crypto::Keypair;
use raft::error::ErrorCode;
use raft::identity::sign_passport;
use raft::json::{canonical_omitting, JsonMember, JsonValue};
use raft::mesh::{
    build_packet, ensure_import_conversation, import_message, packet_id, signed_record_hash, verify_local_record,
    verify_packet, MeshConversation, PacketRoute,
};
use raft::records::{Agent, Message, Meta, Rate, Receipt};

fn seed() -> Vec<u8> {
    vec![21u8; 32]
}

fn text(key: &str, value: &str) -> JsonMember {
    JsonMember { key: key.to_string(), value: JsonValue::Str(value.to_string()) }
}

fn meta() -> Meta {
    Meta {
        v: 1,
        id: "room".to_string(),
        participants: vec!["ann".to_string(), "bob".to_string()],
        channel: false,
        private: true,
        state: "open".to_string(),
        created_at: "2026-01-01T00:00:00Z".to_string(),
        updated_at: "2026-01-01T00:00:00Z".to_string(),
        retention_days: 14,
        rate: Rate { window_seconds: 60, max_messages_per_sender: 30, max_message_bytes: 65536 },
    }
}

fn message() -> Message {
    Message {
        v: 1,
        id: "m1".to_string(),
        conversation_id: "room".to_string(),
        kind: "message".to_string(),
        from: "ann".to_string(),
        to: vec!["bob".to_string()],
        mentions: vec![],
        subject: String::new(),
        body: "hello".to_string(),
        created_at: "2026-01-02T00:00:00Z".to_string(),
        requires_ack: false,
        needs_response_from: vec![],
        subject_id: None,
        after: None,
        withdrawn: None,
    }
}

/// The message as a signed record: signer key, content hash and signature.
fn signed_record(k: &Keypair) -> JsonValue {
    let base = vec![
        text("conversation_id", "room"),
        text("from", "ann"),
        text("id", "m1"),
        text("signer_key", &k.public_hex()),
    ];
    let hash = signed_record_hash(&JsonValue::Object(base));
    let with_hash = vec![
        text("conversation_id", "room"),
        text("from", "ann"),
        text("hash", &hash),
        text("id", "m1"),
        text("signer_key", &k.public_hex()),
    ];
    let sig = k.sign(&canonical_omitting(&JsonValue::Object(with_hash), &["sig"]));
    JsonValue::Object(vec![
        text("conversation_id", "room"),
        text("from", "ann"),
        text("hash", &hash),
        text("id", "m1"),
        text("sig", &sig),
        text("signer_key", &k.public_hex()),
    ])
}

fn agent(pubkey: String) -> Agent {
    Agent {
        v: 1,
        id: "ann".to_string(),
        mention: "@ann".to_string(),
        workspace: None,
        capabilities: vec![],
        pid: 1,
        host: "box".to_string(),
        last_seen_at: "2026-01-01T00:00:00Z".to_string(),
        ttl_seconds: 120,
        expires_at: "2026-01-01T00:02:00Z".to_string(),
        current_state: "idle".to_string(),
        state_note: None,
        state_updated_at: "2026-01-01T00:00:00Z".to_string(),
        pubkey: Some(pubkey),
    }
}

#[test]
fn local_records_verify_against_their_signer() {
    let k = Keypair::from_seed(seed());
    let record = signed_record(&k);
    let hash = verify_local_record(&record, &k.public_hex()).ok().unwrap();
    assert!(hash.starts_with("sha256:"));
    let other = Keypair::from_seed(vec![22u8; 32]);
    let err = verify_local_record(&record, &other.public_hex()).err().unwrap();
    assert_eq!(err.code, ErrorCode::AuthFailed);
    assert_eq!(err.message, "record signer key does not match passport");
    let unsigned = JsonValue::Object(vec![text("id", "m1")]);
    assert_eq!(verify_local_record(&unsigned, &k.public_hex()).err().unwrap().message, "record is unsigned");
}

#[test]
fn a_built_packet_verifies_and_tampering_is_caught() {
    let k = Keypair::from_seed(seed());
    let pk = k.public_hex();
    let passport = sign_passport(&k, "ann", &[], "2026-01-01T00:00:00Z".to_string());
    let packet = build_packet(
        "ann",
        "message",
        "m1",
        signed_record(&k),
        &meta(),
        PacketRoute { from_node: "node-a".to_string(), to_node: None },
        Ok(Some(agent(pk.clone()))),
        Some(passport),
        Ok(Some(Keypair::from_seed(seed()))),
        "n1".to_string(),
        "2026-01-02T00:00:00Z".to_string(),
    )
    .ok()
    .unwrap();
    assert_eq!(packet.packet_id, packet_id("node-a", "ann", "message", "m1", "n1"));
    assert!(packet.packet_id.starts_with("pkt-"));
    assert_eq!(packet.packet_id.len(), 36);
    let not_receipt: Result<Receipt, String> = Err("not a receipt".to_string());
    assert!(verify_packet(&packet, &Ok(message()), &not_receipt, &Ok(None), &Ok(None)).is_ok());
    // A stored claim under another key is a conflict.
    let other = Keypair::from_seed(vec![23u8; 32]);
    let clash = verify_packet(&packet, &Ok(message()), &not_receipt, &Ok(None), &Ok(Some(agent(other.public_hex()))))
        .err()
        .unwrap();
    assert_eq!(clash.code, ErrorCode::Conflict);
    // Changing what the packet says breaks its signature.
    let mut forged = packet;
    forged.issued_at = "2026-01-03T00:00:00Z".to_string();
    let err = verify_packet(&forged, &Ok(message()), &not_receipt, &Ok(None), &Ok(None)).err().unwrap();
    assert_eq!(err.code, ErrorCode::AuthFailed);
    assert!(err.message.starts_with("mesh packet signature failed verification"));
}

#[test]
fn packets_need_a_bound_signing_identity() {
    let k = Keypair::from_seed(seed());
    let passport = sign_passport(&k, "ann", &[], "2026-01-01T00:00:00Z".to_string());
    let err = build_packet(
        "ann",
        "message",
        "m1",
        signed_record(&k),
        &meta(),
        PacketRoute { from_node: "node-a".to_string(), to_node: None },
        Ok(None),
        Some(passport),
        Ok(Some(Keypair::from_seed(seed()))),
        "n1".to_string(),
        "2026-01-02T00:00:00Z".to_string(),
    )
    .err()
    .unwrap();
    assert_eq!(err.code, ErrorCode::NotClaimed);
    let bad = build_packet(
        "not valid",
        "message",
        "m1",
        signed_record(&k),
        &meta(),
        PacketRoute { from_node: "node-a".to_string(), to_node: None },
        Ok(None),
        None,
        Ok(None),
        "n1".to_string(),
        "2026-01-02T00:00:00Z".to_string(),
    )
    .err()
    .unwrap();
    assert!(bad.message.starts_with("invalid author \"not valid\""));
}

#[test]
fn imports_add_missing_participants_once() {
    let c = MeshConversation {
        id: "room".to_string(),
        participants: vec!["ann".to_string(), "cy".to_string(), "bob".to_string(), "cy".to_string()],
        channel: false,
        private: true,
    };
    let fresh = ensure_import_conversation(&c, "2026-01-05T00:00:00Z", None).ok().unwrap().unwrap();
    assert_eq!(fresh.participants, vec!["ann".to_string(), "cy".to_string(), "bob".to_string()]);
    assert_eq!(fresh.state, "open");
    assert_eq!(fresh.created_at, "2026-01-05T00:00:00Z");
    let grown = ensure_import_conversation(&c, "2026-01-06T00:00:00Z", Some(meta())).ok().unwrap().unwrap();
    assert_eq!(grown.participants, vec!["ann".to_string(), "bob".to_string(), "cy".to_string()]);
    assert_eq!(grown.updated_at, "2026-01-06T00:00:00Z");
    assert_eq!(grown.created_at, "2026-01-01T00:00:00Z");
    let same = MeshConversation {
        id: "room".to_string(),
        participants: vec!["bob".to_string(), "ann".to_string()],
        channel: false,
        private: true,
    };
    assert!(ensure_import_conversation(&same, "t", Some(meta())).ok().unwrap().is_none());
    let public = MeshConversation {
        id: "room".to_string(),
        participants: vec!["bob".to_string(), "ann".to_string()],
        channel: false,
        private: false,
    };
    let e = ensure_import_conversation(&public, "t", Some(meta())).err().unwrap();
    assert_eq!(e.code, ErrorCode::Conflict);
    assert_eq!(e.message, "conversation \"room\" already exists with different privacy");
}

#[test]
fn imported_records_are_duplicates_or_conflicts() {
    let k = Keypair::from_seed(seed());
    let record = signed_record(&k);
    let outcome = import_message(None, "m1", &record).ok().unwrap();
    assert!(outcome.imported && !outcome.duplicate);
    let again = import_message(Some(&record), "m1", &record).ok().unwrap();
    assert!(!again.imported && again.duplicate);
    let other = JsonValue::Object(vec![text("hash", "sha256:00"), text("sig", "00")]);
    let e = import_message(Some(&other), "m1", &record).err().unwrap();
    assert_eq!(e.code, ErrorCode::Conflict);
    assert_eq!(e.message, "message \"m1\" already exists with different content");
}
