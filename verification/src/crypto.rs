use vstd::prelude::*;
use crate::error::{ErrorCode, RaftError};
use crate::hex::{
    byte_len, hex_decode, hex_decoded, hex_encode, hex_of, hex_panics, invalid_digit_message,
    lemma_hex_roundtrip, odd_length_message,
};
use crate::text::{chars_of, string_of};
use ed25519_dalek::{Signature, Signer, SigningKey, Verifier, VerifyingKey};
use rand::rngs::OsRng;
use sha2::{Digest, Sha256};

verus! {

/// Prefix of a public key in text form: `ed25519:<64 lowercase hex chars>`.
pub open spec fn pubkey_prefix() -> Seq<char> {
    seq!['e', 'd', '2', '5', '5', '1', '9', ':']
}

/// Prefix of a content hash in text form: `sha256:<64 lowercase hex chars>`.
pub open spec fn hash_prefix() -> Seq<char> {
    seq!['s', 'h', 'a', '2', '5', '6', ':']
}

/// The SHA-256 digest of a byte string.
pub uninterp spec fn sha256_digest(bytes: Seq<u8>) -> Seq<u8>;

/// The Ed25519 public key (compressed point) derived from a 32-byte seed.
pub uninterp spec fn ed25519_public(seed: Seq<u8>) -> Seq<u8>;

/// The Ed25519 signature of a message under a 32-byte seed.
pub uninterp spec fn ed25519_signature(seed: Seq<u8>, message: Seq<u8>) -> Seq<u8>;

/// Whether 32 bytes decompress to a curve point, i.e. form a usable key.
pub uninterp spec fn ed25519_point_valid(key: Seq<u8>) -> bool;

/// Whether a signature verifies for a message under a public key.
pub uninterp spec fn ed25519_verifies(key: Seq<u8>, message: Seq<u8>, signature: Seq<u8>) -> bool;

/// `sha2::Sha256::digest`: the 32-byte digest, a function of the input.
#[verifier::external_body]
fn sha256(bytes: &[u8]) -> (r: Vec<u8>)
    ensures
        r@ == sha256_digest(bytes@),
        r@.len() == 32,
{
    Sha256::digest(bytes).to_vec()
}

/// `SigningKey::from_bytes(seed).verifying_key().to_bytes()`: the public key
/// of a seed. The key of a seed is a compressed curve point, so it decodes.
#[verifier::external_body]
fn ed25519_public_key(seed: &[u8]) -> (r: Vec<u8>)
    requires
        seed@.len() == 32,
    ensures
        r@ == ed25519_public(seed@),
        r@.len() == 32,
        ed25519_point_valid(r@),
{
    let mut array = [0u8; 32];
    array.copy_from_slice(seed);
    SigningKey::from_bytes(&array).verifying_key().to_bytes().to_vec()
}

/// `SigningKey::from_bytes(seed).sign(message).to_bytes()`: the deterministic
/// Ed25519 signature, which verifies under the seed's public key.
#[verifier::external_body]
fn ed25519_sign(seed: &[u8], message: &[u8]) -> (r: Vec<u8>)
    requires
        seed@.len() == 32,
    ensures
        r@ == ed25519_signature(seed@, message@),
        r@.len() == 64,
        ed25519_verifies(ed25519_public(seed@), message@, r@),
{
    let mut array = [0u8; 32];
    array.copy_from_slice(seed);
    SigningKey::from_bytes(&array).sign(message).to_bytes().to_vec()
}

/// `VerifyingKey::from_bytes(key).is_ok()`: whether the key decompresses.
#[verifier::external_body]
fn ed25519_key_decodes(key: &[u8]) -> (r: bool)
    requires
        key@.len() == 32,
    ensures
        r == ed25519_point_valid(key@),
{
    let mut array = [0u8; 32];
    array.copy_from_slice(key);
    VerifyingKey::from_bytes(&array).is_ok()
}

/// `VerifyingKey::verify(message, Signature::from_bytes(signature)).is_ok()`.
#[verifier::external_body]
fn ed25519_check(key: &[u8], message: &[u8], signature: &[u8]) -> (r: bool)
    requires
        key@.len() == 32,
        ed25519_point_valid(key@),
        signature@.len() == 64,
    ensures
        r == ed25519_verifies(key@, message@, signature@),
{
    let mut key_array = [0u8; 32];
    key_array.copy_from_slice(key);
    let mut sig_array = [0u8; 64];
    sig_array.copy_from_slice(signature);
    match VerifyingKey::from_bytes(&key_array) {
        Ok(verifying) => verifying.verify(message, &Signature::from_bytes(&sig_array)).is_ok(),
        Err(_) => false,
    }
}

/// `SigningKey::generate(&mut OsRng).to_bytes()`: a fresh random seed. Only
/// its length is known.
#[verifier::external_body]
fn random_seed() -> (r: Vec<u8>)
    ensures
        r@.len() == 32,
{
    SigningKey::generate(&mut OsRng).to_bytes().to_vec()
}

/// `sha256:<hex>` text of a digest.
pub open spec fn hash_text(bytes: Seq<u8>) -> Seq<char> {
    hash_prefix() + hex_of(sha256_digest(bytes))
}

/// `sha256:<hex>` content hash of arbitrary bytes.
pub fn sha256_hex(bytes: &[u8]) -> (r: String)
    ensures
        r@ == hash_text(bytes@),
        sha256_digest(bytes@).len() == 32,
{
    let digest = sha256(bytes);
    let mut out = String::from_str("sha256:");
    let h = hex_encode(digest.as_slice());
    out.append(h.as_str());
    proof {
        reveal_strlit("sha256:");
    }
    out
}

/// Public key text `ed25519:<hex>` of raw key bytes.
pub open spec fn pubkey_text(key: Seq<u8>) -> Seq<char> {
    pubkey_prefix() + hex_of(key)
}

/// An Ed25519 keypair: the 32-byte secret seed and the public key derived
/// from it. The secret half never leaves the host; only the public half and
/// signatures are shared.
pub struct Keypair {
    seed: Vec<u8>,
    public: Vec<u8>,
}

impl View for Keypair {
    type V = Seq<u8>;

    /// A keypair is determined by its seed.
    closed spec fn view(&self) -> Seq<u8> {
        self.seed@
    }
}

/// The facts a keypair's public key carries: derived from the seed, 32 bytes,
/// a valid curve point.
pub open spec fn keypair_facts(seed: Seq<u8>) -> bool {
    &&& seed.len() == 32
    &&& ed25519_public(seed).len() == 32
    &&& ed25519_point_valid(ed25519_public(seed))
}

impl Keypair {
    #[verifier::type_invariant]
    closed spec fn well_formed(&self) -> bool {
        &&& self.seed@.len() == 32
        &&& self.public@ == ed25519_public(self.seed@)
        &&& self.public@.len() == 32
        &&& ed25519_point_valid(self.public@)
    }

    /// The keypair of a 32-byte seed.
    pub fn from_seed(seed: Vec<u8>) -> (r: Keypair)
        requires
            seed@.len() == 32,
        ensures
            r@ == seed@,
            keypair_facts(r@),
    {
        let public = ed25519_public_key(seed.as_slice());
        Keypair { seed, public }
    }

    /// A fresh keypair from the operating system's random source.
    pub fn generate() -> (r: Keypair)
        ensures
            keypair_facts(r@),
    {
        Keypair::from_seed(random_seed())
    }

    /// Reconstruct from the 32-byte secret seed in hex.
    pub fn from_secret_hex(secret_hex: &str) -> (r: Result<Keypair, RaftError>)
        requires
            !hex_panics(secret_hex@),
        ensures
            match r {
                Ok(k) => hex_decoded(secret_hex@) == Some(k@) && keypair_facts(k@),
                Err(e) => e.code == ErrorCode::Parse && match hex_decoded(secret_hex@) {
                    None => true,
                    Some(b) => b.len() != 32 && e.message@ == "secret key must be 32 bytes"@,
                },
            },
    {
        let bytes = hex_decode(secret_hex)?;
        if bytes.len() != 32 {
            return Err(RaftError::coded(ErrorCode::Parse, String::from_str("secret key must be 32 bytes")));
        }
        Ok(Keypair::from_seed(bytes))
    }

    /// The 32-byte secret seed in hex (stored at mode 0600; never transmitted).
    pub fn secret_hex(&self) -> (r: String)
        ensures
            r@ == hex_of(self@),
            keypair_facts(self@),
    {
        proof {
            use_type_invariant(self);
        }
        hex_encode(self.seed.as_slice())
    }

    /// The public key as `ed25519:<hex>`; it parses back to the key.
    pub fn public_hex(&self) -> (r: String)
        ensures
            r@ == pubkey_text(ed25519_public(self@)),
            parsed_pubkey(r@) == Some(ed25519_public(self@)),
            !pubkey_panics(r@),
            keypair_facts(self@),
    {
        proof {
            use_type_invariant(self);
            lemma_pubkey_text_parses(self.public@);
        }
        let mut out = String::from_str("ed25519:");
        let h = hex_encode(self.public.as_slice());
        out.append(h.as_str());
        proof {
            reveal_strlit("ed25519:");
            assert(out@ =~= pubkey_text(self.public@));
        }
        out
    }

    /// Detached signature over `message`, as 128 hex chars. It verifies
    /// against this keypair's public key text.
    pub fn sign(&self, message: &[u8]) -> (r: String)
        ensures
            r@ == hex_of(ed25519_signature(self@, message@)),
            verify_safe(pubkey_text(ed25519_public(self@)), r@),
            signature_valid(pubkey_text(ed25519_public(self@)), message@, r@),
    {
        proof {
            use_type_invariant(self);
            lemma_pubkey_text_parses(self.public@);
        }
        let sig = ed25519_sign(self.seed.as_slice(), message);
        proof {
            lemma_hex_roundtrip(sig@);
        }
        hex_encode(sig.as_slice())
    }
}

/// A valid key's text form parses back to it without panicking.
pub proof fn lemma_pubkey_text_parses(key: Seq<u8>)
    requires
        key.len() == 32,
        ed25519_point_valid(key),
    ensures
        parsed_pubkey(pubkey_text(key)) == Some(key),
        !pubkey_panics(pubkey_text(key)),
{
    let text = pubkey_text(key);
    assert(text.take(8) =~= pubkey_prefix());
    assert(text.skip(8) =~= hex_of(key));
    lemma_hex_roundtrip(key);
}

/// Whether parsing a public key text would slice its hex off a character
/// boundary.
pub open spec fn pubkey_panics(value: Seq<char>) -> bool {
    value.len() >= pubkey_prefix().len() && value.take(8) == pubkey_prefix() && hex_panics(
        value.skip(8),
    )
}

/// The raw key bytes of a well-formed public key text.
pub open spec fn parsed_pubkey(value: Seq<char>) -> Option<Seq<u8>> {
    if value.len() >= 8 && value.take(8) == pubkey_prefix() {
        match hex_decoded(value.skip(8)) {
            Some(b) => if b.len() == 32 && ed25519_point_valid(b) { Some(b) } else { None },
            None => None,
        }
    } else {
        None
    }
}

fn strip_pubkey_prefix(value: &str) -> (r: Option<String>)
    ensures
        match r {
            Some(rest) => value@.len() >= 8 && value@.take(8) == pubkey_prefix() && rest@ == value@.skip(8),
            None => !(value@.len() >= 8 && value@.take(8) == pubkey_prefix()),
        },
{
    let cs = chars_of(value);
    if cs.len() < 8 {
        return None;
    }
    let p = ['e', 'd', '2', '5', '5', '1', '9', ':'];
    let mut i: usize = 0;
    while i < 8
        invariant
            cs@ == value@,
            cs@.len() >= 8,
            i <= 8,
            p@ == pubkey_prefix(),
            forall|k: int| 0 <= k < i ==> cs@[k] == p@[k],
        decreases 8 - i,
    {
        if cs[i] != p[i] {
            assert(value@.take(8)[i as int] != pubkey_prefix()[i as int]);
            return None;
        }
        i = i + 1;
    }
    assert(value@.take(8) =~= pubkey_prefix());
    let rest = string_of(vstd::slice::slice_subrange(cs.as_slice(), 8, cs.len()));
    Some(rest)
}

/// The message hex decoding fails with.
pub open spec fn hex_error(s: Seq<char>) -> Seq<char> {
    if byte_len(s) % 2 != 0 { odd_length_message() } else { invalid_digit_message() }
}

/// The message with which a public key text is refused.
pub open spec fn pubkey_error(value: Seq<char>) -> Seq<char> {
    if !(value.len() >= 8 && value.take(8) == pubkey_prefix()) {
        "public key must start with `ed25519:`"@
    } else {
        match hex_decoded(value.skip(8)) {
            None => hex_error(value.skip(8)),
            Some(b) => if b.len() != 32 {
                "public key must be 32 bytes"@
            } else {
                "invalid ed25519 public key"@
            },
        }
    }
}

/// Parse an `ed25519:<hex>` public key into its 32 raw bytes.
pub fn parse_pubkey(value: &str) -> (r: Result<Vec<u8>, RaftError>)
    requires
        !pubkey_panics(value@),
    ensures
        match r {
            Ok(b) => parsed_pubkey(value@) == Some(b@),
            Err(e) => parsed_pubkey(value@) is None && e.code == ErrorCode::Parse
                && e.message@ == pubkey_error(value@),
        },
{
    proof {
        reveal_strlit("public key must start with `ed25519:`");
        reveal_strlit("public key must be 32 bytes");
        reveal_strlit("invalid ed25519 public key");
    }
    let hex = match strip_pubkey_prefix(value) {
        Some(h) => h,
        None => {
            return Err(RaftError::coded(ErrorCode::Parse, String::from_str("public key must start with `ed25519:`")));
        },
    };
    let bytes = hex_decode(hex.as_str())?;
    if bytes.len() != 32 {
        return Err(RaftError::coded(ErrorCode::Parse, String::from_str("public key must be 32 bytes")));
    }
    if !ed25519_key_decodes(bytes.as_slice()) {
        return Err(RaftError::coded(ErrorCode::Parse, String::from_str("invalid ed25519 public key")));
    }
    Ok(bytes)
}

/// Whether a detached signature check can run without panicking: neither
/// the key text nor the signature text slices off a character boundary.
pub open spec fn verify_safe(public_hex: Seq<char>, sig_hex: Seq<char>) -> bool {
    !pubkey_panics(public_hex) && (parsed_pubkey(public_hex) is None || !hex_panics(sig_hex))
}

/// Whether a detached signature is accepted: the key parses, the signature is
/// 64 bytes of hex, and it verifies over the message.
pub open spec fn signature_valid(public_hex: Seq<char>, message: Seq<u8>, sig_hex: Seq<char>) -> bool {
    match parsed_pubkey(public_hex) {
        Some(key) => match hex_decoded(sig_hex) {
            Some(sig) => sig.len() == 64 && ed25519_verifies(key, message, sig),
            None => false,
        },
        None => false,
    }
}

/// The message with which a signature that is not accepted is refused.
pub open spec fn verify_error(public_hex: Seq<char>, sig_hex: Seq<char>) -> Seq<char> {
    match parsed_pubkey(public_hex) {
        None => pubkey_error(public_hex),
        Some(_) => match hex_decoded(sig_hex) {
            None => hex_error(sig_hex),
            Some(sig) => if sig.len() != 64 {
                "signature must be 64 bytes"@
            } else {
                "signature verification failed"@
            },
        },
    }
}

/// Verify a detached signature. `Ok(())` exactly when `sig_hex` is a valid
/// Ed25519 signature by `public_hex` over `message`.
pub fn verify(public_hex: &str, message: &[u8], sig_hex: &str) -> (r: Result<(), RaftError>)
    requires
        verify_safe(public_hex@, sig_hex@),
    ensures
        r is Ok <==> signature_valid(public_hex@, message@, sig_hex@),
        r matches Err(e) ==> (parsed_pubkey(public_hex@) is None || hex_decoded(sig_hex@) is None
            || hex_decoded(sig_hex@)->0.len() != 64) ==> e.code == ErrorCode::Parse,
        r matches Err(e) ==> (parsed_pubkey(public_hex@) is Some && hex_decoded(sig_hex@) is Some
            && hex_decoded(sig_hex@)->0.len() == 64) ==> e.code == ErrorCode::Error,
        r matches Err(e) ==> e.message@ == verify_error(public_hex@, sig_hex@),
{
    proof {
        reveal_strlit("signature must be 64 bytes");
        reveal_strlit("signature verification failed");
    }
    let key = parse_pubkey(public_hex)?;
    let bytes = hex_decode(sig_hex)?;
    if bytes.len() != 64 {
        return Err(RaftError::coded(ErrorCode::Parse, String::from_str("signature must be 64 bytes")));
    }
    if ed25519_check(key.as_slice(), message, bytes.as_slice()) {
        Ok(())
    } else {
        Err(RaftError::coded(ErrorCode::Error, String::from_str("signature verification failed")))
    }
}

/// Whether checking a signature with this key text and signature text would
/// slice either off a character boundary.
pub fn verify_would_panic(public_hex: &str, sig_hex: &str) -> (r: bool)
    ensures
        r == !verify_safe(public_hex@, sig_hex@),
{
    match strip_pubkey_prefix(public_hex) {
        Some(rest) => {
            if crate::hex::hex_decode_panics(rest.as_str()) {
                return true;
            }
        },
        None => {},
    }
    match parse_pubkey(public_hex) {
        Ok(_) => crate::hex::hex_decode_panics(sig_hex),
        Err(_) => false,
    }
}

} // verus!
