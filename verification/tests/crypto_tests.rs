use raft::crypto::{sha256_hex, verify, Keypair};
use raft::error::ErrorCode;
use raft::hex::{hex_decode, hex_encode};

#[test]
fn hex_roundtrips() {
    let bytes = [0u8, 1, 15, 16, 200, 255];
    assert_eq!(hex_decode(&hex_encode(&bytes)).ok().unwrap(), bytes.to_vec());
    assert_eq!(hex_encode(&[255, 0]), "ff00");
    assert!(hex_decode("abc").is_err());
    assert!(hex_decode("zz").is_err());
}

#[test]
fn hex_decode_accepts_uppercase_and_reports_parse_errors() {
    assert_eq!(hex_decode("FF0a").ok().unwrap(), vec![255u8, 10]);
    assert_eq!(hex_decode("").ok().unwrap(), Vec::<u8>::new());
    let odd = hex_decode("abc").err().unwrap();
    assert_eq!(odd.code, ErrorCode::Parse);
    assert_eq!(odd.message, "hex string has odd length");
    let bad = hex_decode("zz").err().unwrap();
    assert_eq!(bad.code, ErrorCode::Parse);
}

#[test]
fn sign_and_verify_roundtrip() {
    let keypair = Keypair::generate();
    let public = keypair.public_hex();
    let message = b"delegate: deploy api to staging";
    let signature = keypair.sign(message);
    assert!(verify(&public, message, &signature).is_ok());
    // A tampered message fails.
    assert!(verify(&public, b"delegate: deploy api to prod", &signature).is_err());
    // The wrong key fails.
    let other = Keypair::generate();
    assert!(verify(&other.public_hex(), message, &signature).is_err());
}

#[test]
fn secret_roundtrips_and_signs_identically() {
    let keypair = Keypair::generate();
    let restored = Keypair::from_secret_hex(&keypair.secret_hex()).ok().unwrap();
    assert_eq!(keypair.public_hex(), restored.public_hex());
    let message = b"hello mesh";
    assert!(verify(&keypair.public_hex(), message, &restored.sign(message)).is_ok());
}

#[test]
fn short_secret_is_rejected() {
    let err = Keypair::from_secret_hex("00ff").err().unwrap();
    assert_eq!(err.code, ErrorCode::Parse);
    assert_eq!(err.message, "secret key must be 32 bytes");
}

#[test]
fn seed_determines_the_public_key() {
    let a = Keypair::from_seed(vec![7u8; 32]);
    let b = Keypair::from_seed(vec![7u8; 32]);
    let c = Keypair::from_seed(vec![8u8; 32]);
    assert_eq!(a.public_hex(), b.public_hex());
    assert_ne!(a.public_hex(), c.public_hex());
    assert!(a.public_hex().starts_with("ed25519:"));
    assert_eq!(a.public_hex().len(), "ed25519:".len() + 64);
    assert_eq!(a.secret_hex(), "07".repeat(32));
    // RFC 8032, test 1: this seed has this public key and signs the empty message so.
    let seed = hex_decode("9d61b19deffd5a60ba844af492ec2cc44449c5697b326919703bac031cae7f60").ok().unwrap();
    let k = Keypair::from_seed(seed);
    assert_eq!(
        k.public_hex(),
        "ed25519:d75a980182b10ab7d54bfed3c964073a0ee172f3daa62325af021a68f707511a"
    );
    assert_eq!(
        k.sign(b""),
        "e5564300c360ac729086e2cc806e828a84877f1eb8e5d974d873e065224901555fb8821590a33bacc61e39701cf9b46bd25bf5f0595bbe24655141438e7a100b"
    );
}

#[test]
fn verify_rejects_malformed_inputs_as_parse_errors() {
    let k = Keypair::from_seed(vec![1u8; 32]);
    let sig = k.sign(b"x");
    let err = verify("rsa:00", b"x", &sig).err().unwrap();
    assert_eq!(err.code, ErrorCode::Parse);
    let short = verify(&k.public_hex(), b"x", "00").err().unwrap();
    assert_eq!(short.code, ErrorCode::Parse);
}

#[test]
fn sha256_is_stable_and_prefixed() {
    let hash = sha256_hex(b"raft");
    assert!(hash.starts_with("sha256:"));
    assert_eq!(hash, sha256_hex(b"raft"));
    assert_ne!(hash, sha256_hex(b"raft2"));
}

#[test]
fn sha256_of_known_inputs() {
    assert_eq!(
        sha256_hex(b""),
        "sha256:e3b0c44298fc1c149afbf4c8996fb92427ae41e4649b934ca495991b7852b855"
    );
    assert_eq!(
        sha256_hex(b"abc"),
        "sha256:ba7816bf8f01cfea414140de5dae2223b00361a396177a9cb410ff61f20015ad"
    );
}
