use raft::capability::{
    attenuate, authorize, check, effective, issue_root, verify_chain, AuthRequest, Block, Caveats,
};
use raft::crypto::Keypair;
use raft::error::ErrorCode;


fn parse_time(text: &str) -> Option<(i64, u32)> {
    chrono::DateTime::parse_from_rfc3339(text).ok().map(|t| {
        let u = t.with_timezone(&chrono::Utc);
        (u.timestamp(), u.timestamp_subsec_nanos())
    })
}

fn now() -> (i64, u32) {
    let t = chrono::Utc::now();
    (t.timestamp(), t.timestamp_subsec_nanos())
}

fn iso_now() -> String {
    chrono::Utc::now().to_rfc3339_opts(chrono::SecondsFormat::Millis, true)
}

fn req(action: &str) -> AuthRequest {
    AuthRequest {
        action: action.to_string(),
        conversation: None,
        tool: None,
        env: None,
        now: now(),
        requested_runtime_s: None,
        requested_output_bytes: None,
    }
}

fn actions(list: &[&str]) -> Caveats {
    Caveats { action: list.iter().map(|s| s.to_string()).collect(), ..Default::default() }
}

#[test]
fn root_token_authorizes_its_action_and_nothing_else() {
    let alice = Keypair::generate();
    let bob = Keypair::generate();
    let token = issue_root(&alice, &bob.public_hex(), actions(&["task.dispatch"]));
    assert!(authorize(&token, Some(&alice.public_hex()), &req("task.dispatch")).is_ok());
    assert!(authorize(&token, Some(&alice.public_hex()), &req("task.cancel")).is_err());
    // A wrong expected root is rejected.
    assert!(authorize(&token, Some(&bob.public_hex()), &req("task.dispatch")).is_err());
}

#[test]
fn unconstrained_action_authorizes_nothing() {
    let alice = Keypair::generate();
    let bob = Keypair::generate();
    let token = issue_root(&alice, &bob.public_hex(), Caveats::default());
    assert!(authorize(&token, None, &req("task.dispatch")).is_err());
}

#[test]
fn attenuation_can_only_narrow() {
    let alice = Keypair::generate();
    let bob = Keypair::generate();
    let carol = Keypair::generate();
    let root = issue_root(
        &alice,
        &bob.public_hex(),
        Caveats {
            action: vec!["task.dispatch".into(), "task.cancel".into()],
            tool: vec!["deploy".into()],
            ..Default::default()
        },
    );
    // Bob narrows to dispatch and tries to add a tool: the intersection keeps
    // only the overlap, so the attempt to broaden has no effect.
    let attenuated = attenuate(
        &root,
        &bob,
        &carol.public_hex(),
        Caveats {
            action: vec!["task.dispatch".into()],
            tool: vec!["deploy".into(), "delete".into()],
            ..Default::default()
        },
    )
    .ok()
    .unwrap();
    let mut request = req("task.dispatch");
    request.tool = Some("deploy".into());
    assert!(authorize(&attenuated, Some(&alice.public_hex()), &request).is_ok());
    // task.cancel was dropped by the attenuation.
    assert!(authorize(&attenuated, Some(&alice.public_hex()), &req("task.cancel")).is_err());
    // The added delete tool was never in the root, so it is not authorized.
    let mut delete = req("task.dispatch");
    delete.tool = Some("delete".into());
    assert!(authorize(&attenuated, Some(&alice.public_hex()), &delete).is_err());
}

#[test]
fn only_the_holder_may_attenuate() {
    let alice = Keypair::generate();
    let bob = Keypair::generate();
    let mallory = Keypair::generate();
    let token = issue_root(&alice, &bob.public_hex(), actions(&["task.dispatch"]));
    // Mallory is not the holder (bob is), so she cannot attenuate.
    assert!(attenuate(&token, &mallory, &mallory.public_hex(), Caveats::default()).is_err());
}

#[test]
fn tampering_with_a_signed_caveat_breaks_verification() {
    let alice = Keypair::generate();
    let bob = Keypair::generate();
    let mut token = issue_root(
        &alice,
        &bob.public_hex(),
        Caveats { action: vec!["task.dispatch".into()], max_runtime_s: Some(60), ..Default::default() },
    );
    // Forge a higher runtime limit without re-signing.
    token.blocks[0].caveats.max_runtime_s = Some(86_400);
    assert!(verify_chain(&token, None).is_err());
}

#[test]
fn broken_chain_is_rejected() {
    let alice = Keypair::generate();
    let bob = Keypair::generate();
    let carol = Keypair::generate();
    let mut token = issue_root(&alice, &bob.public_hex(), actions(&["task.dispatch"]));
    // Splice in a block that is not signed by the previous holder (bob).
    let mut rogue = Block {
        issuer: carol.public_hex(),
        holder: carol.public_hex(),
        caveats: actions(&["task.dispatch"]),
        sig: None,
    };
    rogue.sig = Some(carol.sign(&rogue.signing_bytes()));
    token.blocks.push(rogue);
    assert!(verify_chain(&token, None).is_err());
}

#[test]
fn expiry_and_conversation_are_enforced() {
    let alice = Keypair::generate();
    let bob = Keypair::generate();
    let token = issue_root(
        &alice,
        &bob.public_hex(),
        Caveats {
            action: vec!["conversation.post".into()],
            conversation: Some("deploy-room".into()),
            expires_at: Some("2000-01-01T00:00:00Z".into()),
            ..Default::default()
        },
    );
    // The right conversation, but long expired.
    let mut request = req("conversation.post");
    request.conversation = Some("deploy-room".into());
    assert!(authorize(&token, None, &request).is_err());
    // The wrong conversation.
    let mut other = req("conversation.post");
    other.conversation = Some("other-room".into());
    other.now = parse_time("2000-01-01T00:00:00Z").unwrap();
    assert!(authorize(&token, None, &other).is_err());
    // The right conversation, at the expiry instant: allowed.
    let fresh = issue_root(
        &alice,
        &bob.public_hex(),
        Caveats {
            action: vec!["conversation.post".into()],
            conversation: Some("deploy-room".into()),
            expires_at: Some(iso_now()),
            ..Default::default()
        },
    );
    let mut now_request = req("conversation.post");
    now_request.conversation = Some("deploy-room".into());
    now_request.now = parse_time(&fresh.blocks[0].caveats.expires_at.clone().unwrap()).unwrap();
    assert!(authorize(&fresh, None, &now_request).is_ok());
}

#[test]
fn denials_carry_their_reason() {
    let alice = Keypair::from_seed(vec![3u8; 32]);
    let bob = Keypair::from_seed(vec![4u8; 32]);
    let token = issue_root(
        &alice,
        &bob.public_hex(),
        Caveats {
            action: vec!["task.dispatch".into()],
            env: vec!["staging".into()],
            max_runtime_s: Some(60),
            max_output_bytes: Some(1024),
            ..Default::default()
        },
    );
    let eff = verify_chain(&token, Some(&alice.public_hex())).ok().unwrap();
    let denied = check(&eff, &req("task.cancel")).err().unwrap();
    assert_eq!(denied.code, ErrorCode::NotAuthorized);
    assert_eq!(denied.message, "capability does not authorize action \"task.cancel\"");
    // A constrained dimension the request omits is denied.
    let no_env = check(&eff, &req("task.dispatch")).err().unwrap();
    assert_eq!(no_env.message, "capability does not authorize this environment");
    let mut ok = req("task.dispatch");
    ok.env = Some("staging".into());
    ok.requested_runtime_s = Some(60);
    ok.requested_output_bytes = Some(1024);
    assert!(check(&eff, &ok).is_ok());
    let mut long = req("task.dispatch");
    long.env = Some("staging".into());
    long.requested_runtime_s = Some(61);
    assert_eq!(
        check(&eff, &long).err().unwrap().message,
        "requested runtime exceeds the capability limit"
    );
    let mut big = req("task.dispatch");
    big.env = Some("staging".into());
    big.requested_output_bytes = Some(1025);
    assert_eq!(
        check(&eff, &big).err().unwrap().message,
        "requested output size exceeds the capability limit"
    );
}

#[test]
fn effective_authority_is_the_intersection_of_blocks() {
    let alice = Keypair::from_seed(vec![5u8; 32]);
    let bob = Keypair::from_seed(vec![6u8; 32]);
    let carol = Keypair::from_seed(vec![7u8; 32]);
    let root = issue_root(
        &alice,
        &bob.public_hex(),
        Caveats {
            action: vec!["a".into(), "b".into(), "c".into()],
            max_runtime_s: Some(100),
            ..Default::default()
        },
    );
    let child = attenuate(
        &root,
        &bob,
        &carol.public_hex(),
        Caveats { action: vec!["c".into(), "b".into(), "z".into()], max_runtime_s: Some(500), ..Default::default() },
    )
    .ok()
    .unwrap();
    let eff = effective(&child).ok().unwrap();
    assert_eq!(eff.action, Some(vec!["b".to_string(), "c".to_string()]));
    assert_eq!(eff.max_runtime_s, Some(100));
    assert!(verify_chain(&child, Some(&alice.public_hex())).is_ok());
}

#[test]
fn attenuating_an_empty_token_is_refused() {
    let alice = Keypair::from_seed(vec![9u8; 32]);
    let mut token = issue_root(&alice, &alice.public_hex(), actions(&["x"]));
    token.blocks.clear();
    let err = attenuate(&token, &alice, &alice.public_hex(), Caveats::default()).err().unwrap();
    assert_eq!(err.code, ErrorCode::Error);
    assert_eq!(err.message, "capability token has no blocks");
    assert!(verify_chain(&token, None).is_err());
}
