use raft::crypto::Keypair;
use raft::error::ErrorCode;
use raft::identity::{
    create_identity, ensure_identity, load_keypair, sign_passport, verify_local_identity, IdentityPlan,
};

fn iso_now() -> String {
    chrono::Utc::now().to_rfc3339_opts(chrono::SecondsFormat::Millis, true)
}

#[test]
fn passport_signs_and_verifies() {
    let keypair = Keypair::generate();
    let passport = sign_passport(&keypair, "ada", &["plan".to_string()], iso_now());
    assert!(passport.verify().is_ok());
    assert_eq!(passport.pubkey, keypair.public_hex());
}

#[test]
fn tampered_passport_fails_verification() {
    let keypair = Keypair::generate();
    let mut passport = sign_passport(&keypair, "ada", &[], iso_now());
    // Forge a broader capability set without re-signing.
    passport.capabilities.push("admin".to_string());
    assert!(passport.verify().is_err());
    // Swapping the id also breaks the binding.
    let mut renamed = sign_passport(&keypair, "ada", &[], iso_now());
    renamed.id = "root".to_string();
    assert!(renamed.verify().is_err());
}

#[test]
fn unsigned_passport_does_not_verify() {
    let keypair = Keypair::generate();
    let mut passport = sign_passport(&keypair, "a", &[], iso_now());
    passport.sig = None;
    let err = passport.verify().err().unwrap();
    assert_eq!(err.message, "passport is unsigned");
}

#[test]
fn passport_signing_bytes_are_canonical_json() {
    let keypair = Keypair::from_seed(vec![2u8; 32]);
    let passport = sign_passport(&keypair, "a", &["x".to_string()], "2026-01-01T00:00:00Z".to_string());
    let text = String::from_utf8(passport.signing_bytes()).unwrap();
    assert_eq!(
        text,
        format!(
            "{{\"_v\":1,\"capabilities\":[\"x\"],\"id\":\"a\",\"issued_at\":\"2026-01-01T00:00:00Z\",\"pubkey\":\"{}\"}}",
            keypair.public_hex()
        )
    );
}

#[test]
fn local_identity_binds_id_key_and_passport() {
    let keypair = Keypair::from_seed(vec![11u8; 32]);
    let passport = sign_passport(&keypair, "ada", &[], "2026-01-01T00:00:00Z".to_string());
    let same = Keypair::from_seed(vec![11u8; 32]);
    assert!(verify_local_identity("ada", &passport, &Ok(Some(same))).is_ok());
    let wrong_id = verify_local_identity("bob", &passport, &Ok(None)).err().unwrap();
    assert_eq!(wrong_id.code, ErrorCode::AuthFailed);
    assert_eq!(wrong_id.message, "passport file for @bob is bound to @ada instead");
    let no_key = verify_local_identity("ada", &passport, &Ok(None)).err().unwrap();
    assert_eq!(no_key.message, "no local keypair for @ada; cannot authenticate this claim");
    let other = Keypair::from_seed(vec![12u8; 32]);
    let mismatch = verify_local_identity("ada", &passport, &Ok(Some(other))).err().unwrap();
    assert_eq!(mismatch.message, "local keypair for @ada does not match its passport");
}

#[test]
fn identity_creation_never_overwrites_a_key() {
    let err = create_identity("ada", &[], true, iso_now()).err().unwrap();
    assert_eq!(err.code, ErrorCode::Conflict);
    assert_eq!(err.message, "identity for \"ada\" already exists; refusing to overwrite its key");
    let (kf, p) = create_identity("ada", &["plan".to_string()], false, iso_now()).ok().unwrap();
    assert_eq!(kf.public, p.pubkey);
    assert!(p.verify().is_ok());
    let loaded = load_keypair(Some(kf)).ok().unwrap().unwrap();
    assert_eq!(loaded.public_hex(), p.pubkey);
}

#[test]
fn ensure_identity_reissues_a_missing_passport() {
    let keypair = Keypair::from_seed(vec![13u8; 32]);
    let plan = ensure_identity("ada", &[], None, Ok(Some(keypair)), true, "2026-01-01T00:00:00Z".to_string())
        .ok()
        .unwrap();
    match plan {
        IdentityPlan::Reissued(p) => {
            assert!(p.verify().is_ok());
            assert_eq!(p.id, "ada");
        }
        _ => panic!("expected a reissued passport"),
    }
    let conflict = ensure_identity("ada", &[], None, Ok(None), true, iso_now()).err().unwrap();
    assert_eq!(conflict.code, ErrorCode::Conflict);
}
