//! Agent identity: an Ed25519 keypair whose secret seed stays on the host,
//! and a self-signed passport binding the agent id to its public key.

use vstd::prelude::*;
use crate::capability::{opt_view, opt_part};
use crate::crypto::{
    ed25519_public, keypair_facts, pubkey_text, signature_valid, verify, verify_safe, Keypair,
};
use crate::error::{ErrorCode, RaftError};
use crate::hex::{hex_of, hex_panics};
use crate::json::{
    char_views, member_chars, member_text, object_chars, object_text, quoted, quoted_chars,
    string_list_chars, string_list_text, utf8, utf8_bytes,
};
use crate::lists::views;
use crate::text::{debug_quoted, debug_str, decimal, decimal_chars, str_eq};
use crate::util::schema_v1;

verus! {

/// The secret key file (mode 0600): the seed, the derived public key and the
/// creation time.
pub struct KeyFile {
    pub v: u16,
    pub id: String,
    /// 32-byte Ed25519 secret seed, hex. Never transmitted.
    pub secret: String,
    /// `ed25519:<hex>` public key.
    pub public: String,
    pub created_at: String,
}

/// A self-signed binding of an agent id to its public key.
pub struct Passport {
    pub v: u16,
    pub id: String,
    /// `ed25519:<hex>` key that must verify `sig`.
    pub pubkey: String,
    pub capabilities: Vec<String>,
    pub issued_at: String,
    /// Self-signature over the canonical passport without this field.
    pub sig: Option<String>,
}

/// A passport as values.
pub struct PassportView {
    pub v: u16,
    pub id: Seq<char>,
    pub pubkey: Seq<char>,
    pub capabilities: Seq<Seq<char>>,
    pub issued_at: Seq<char>,
    pub sig: Option<Seq<char>>,
}

impl View for Passport {
    type V = PassportView;

    open spec fn view(&self) -> PassportView {
        PassportView {
            v: self.v,
            id: self.id@,
            pubkey: self.pubkey@,
            capabilities: views(self.capabilities@),
            issued_at: self.issued_at@,
            sig: opt_view(self.sig),
        }
    }
}

/// Canonical JSON text of a passport without `sig`: what the signature covers.
pub open spec fn passport_signing_text(p: PassportView) -> Seq<char> {
    object_text(
        seq![
            member_text("_v"@, decimal(p.v as nat)),
            member_text("capabilities"@, string_list_text(p.capabilities)),
            member_text("id"@, quoted(p.id)),
            member_text("issued_at"@, quoted(p.issued_at)),
            member_text("pubkey"@, quoted(p.pubkey)),
        ],
    )
}

pub open spec fn passport_signing_bytes(p: PassportView) -> Seq<u8> {
    utf8(passport_signing_text(p))
}

/// A passport is valid when it is signed and the signature verifies under
/// its own public key.
pub open spec fn passport_valid(p: PassportView) -> bool {
    p.sig is Some && signature_valid(p.pubkey, passport_signing_bytes(p), p.sig->0)
}

/// The message a passport that does not verify is refused with.
pub open spec fn passport_error(p: PassportView) -> Seq<char> {
    match p.sig {
        None => "passport is unsigned"@,
        Some(sg) => crate::crypto::verify_error(p.pubkey, sg),
    }
}

/// Whether checking the passport's signature can run without panicking.
pub open spec fn passport_verify_safe(p: PassportView) -> bool {
    p.sig is Some ==> verify_safe(p.pubkey, p.sig->0)
}

impl Passport {
    /// Canonical bytes the `sig` covers: the passport with `sig` removed.
    pub fn signing_bytes(&self) -> (r: Vec<u8>)
        ensures
            r@ == passport_signing_bytes(self@),
    {
        let mut parts: Vec<Vec<char>> = Vec::new();
        let v = decimal_chars(self.v as u64);
        parts.push(member_chars("_v", v.as_slice()));
        let caps = string_list_chars(self.capabilities.as_slice());
        parts.push(member_chars("capabilities", caps.as_slice()));
        let id = quoted_chars(self.id.as_str());
        parts.push(member_chars("id", id.as_slice()));
        let at = quoted_chars(self.issued_at.as_str());
        parts.push(member_chars("issued_at", at.as_slice()));
        let key = quoted_chars(self.pubkey.as_str());
        parts.push(member_chars("pubkey", key.as_slice()));
        let text = object_chars(&parts);
        proof {
            assert(char_views(parts@) =~= seq![
                member_text("_v"@, decimal(self.v as nat)),
                member_text("capabilities"@, string_list_text(views(self.capabilities@))),
                member_text("id"@, quoted(self.id@)),
                member_text("issued_at"@, quoted(self.issued_at@)),
                member_text("pubkey"@, quoted(self.pubkey@)),
            ]);
        }
        utf8_bytes(text.as_slice())
    }

    /// Verify that `sig` is a valid signature by `pubkey` over the rest of
    /// the document.
    pub fn verify(&self) -> (r: Result<(), RaftError>)
        requires
            passport_verify_safe(self@),
        ensures
            r is Ok <==> passport_valid(self@),
            self@.sig is None ==> (r matches Err(e) && e.code == ErrorCode::Error && e.message@
                == "passport is unsigned"@),
            r matches Err(e) ==> e.message@ == passport_error(self@),
    {
        proof {
            reveal_strlit("passport is unsigned");
        }
        let sig = match &self.sig {
            Some(s) => s,
            None => {
                return Err(RaftError::coded(ErrorCode::Error, String::from_str("passport is unsigned")));
            },
        };
        let bytes = self.signing_bytes();
        verify(self.pubkey.as_str(), bytes.as_slice(), sig.as_str())
    }
}

/// The passport a keypair issues for `id`.
pub open spec fn issued_passport(
    key: Seq<u8>,
    id: Seq<char>,
    capabilities: Seq<Seq<char>>,
    issued_at: Seq<char>,
) -> PassportView {
    let unsigned = PassportView {
        v: 1,
        id,
        pubkey: pubkey_text(ed25519_public(key)),
        capabilities,
        issued_at,
        sig: None,
    };
    PassportView {
        sig: Some(hex_of(crate::crypto::ed25519_signature(key, passport_signing_bytes(unsigned)))),
        ..unsigned
    }
}

fn clone_list(v: &[String]) -> (r: Vec<String>)
    ensures
        views(r@) == views(v@),
{
    let mut out: Vec<String> = Vec::new();
    let mut i: usize = 0;
    while i < v.len()
        invariant
            i <= v@.len(),
            views(out@) == views(v@).take(i as int),
        decreases v@.len() - i,
    {
        let ghost before = out@;
        out.push(v[i].clone());
        proof {
            assert(views(out@) =~= views(before).push(v@[i as int]@));
            assert(views(v@).take(i + 1) =~= views(v@).take(i as int).push(v@[i as int]@));
        }
        i = i + 1;
    }
    assert(views(v@).take(v@.len() as int) =~= views(v@));
    out
}

/// Build and self-sign a passport with an explicit issue time. The result
/// verifies.
pub fn sign_passport(keypair: &Keypair, id: &str, capabilities: &[String], issued_at: String) -> (r: Passport)
    ensures
        r@ == issued_passport(keypair@, id@, views(capabilities@), issued_at@),
        passport_valid(r@),
        passport_verify_safe(r@),
{
    let mut passport = Passport {
        v: schema_v1(),
        id: String::from_str(id),
        pubkey: keypair.public_hex(),
        capabilities: clone_list(capabilities),
        issued_at,
        sig: None,
    };
    let bytes = passport.signing_bytes();
    passport.sig = Some(keypair.sign(bytes.as_slice()));
    passport
}

/// Relative path of an agent's secret key file under the bus root.
pub open spec fn key_path_text(id: Seq<char>) -> Seq<char> {
    "agents/"@ + id + ".key.json"@
}

/// Relative path of an agent's passport under the bus root.
pub open spec fn passport_path_text(id: Seq<char>) -> Seq<char> {
    "agents/"@ + id + ".passport.json"@
}

/// `agents/<id>.key.json`.
pub fn key_path(id: &str) -> (r: String)
    ensures
        r@ == key_path_text(id@),
{
    let mut p = String::from_str("agents/");
    p.append(id);
    p.append(".key.json");
    p
}

/// `agents/<id>.passport.json`.
pub fn passport_path(id: &str) -> (r: String)
    ensures
        r@ == passport_path_text(id@),
{
    let mut p = String::from_str("agents/");
    p.append(id);
    p.append(".passport.json");
    p
}

pub open spec fn auth_failed_verification_message(id: Seq<char>, detail: Seq<char>) -> Seq<char> {
    "passport for @"@ + id + " failed verification: "@ + detail
}

fn auth_failed(message: String) -> (r: RaftError)
    ensures
        r.code == ErrorCode::AuthFailed,
        r.message@ == message@,
{
    RaftError::coded(ErrorCode::AuthFailed, message)
}

/// The seed of a keypair that loading found, if any.
pub open spec fn loaded_key(keypair: Result<Option<Keypair>, RaftError>) -> Option<Seq<u8>> {
    match keypair {
        Ok(Some(k)) => Some(k@),
        _ => None,
    }
}

/// Whether the local identity checks pass: the passport verifies, is bound
/// to `id`, and the local keypair derives its public key.
pub open spec fn local_identity_ok(id: Seq<char>, passport: PassportView, keypair: Option<Seq<u8>>) -> bool {
    &&& passport_valid(passport)
    &&& passport.id == id
    &&& keypair is Some
    &&& pubkey_text(ed25519_public(keypair->0)) == passport.pubkey
}

/// Why the local identity checks refuse, checked in order: the passport must
/// verify, be bound to `id`, and the local keypair (which must have loaded)
/// must derive its public key.
pub open spec fn local_identity_refusal(
    id: Seq<char>,
    passport: PassportView,
    keypair: Result<Option<Keypair>, RaftError>,
) -> Option<(ErrorCode, Seq<char>)> {
    if !passport_valid(passport) {
        Some((ErrorCode::AuthFailed, auth_failed_verification_message(id, passport_error(passport))))
    } else if passport.id != id {
        Some((ErrorCode::AuthFailed, "passport file for @"@ + id + " is bound to @"@ + passport.id + " instead"@))
    } else {
        match keypair {
            Err(k) => Some((k.code, k.message@)),
            Ok(None) => Some((ErrorCode::AuthFailed, "no local keypair for @"@ + id + "; cannot authenticate this claim"@)),
            Ok(Some(k)) => if pubkey_text(ed25519_public(k@)) != passport.pubkey {
                Some((ErrorCode::AuthFailed, "local keypair for @"@ + id + " does not match its passport"@))
            } else {
                None
            },
        }
    }
}

/// Check that a passport and the local keypair both bind to `id` and to the
/// same public key. `keypair` is what loading the local key file gave.
pub fn verify_local_identity(
    id: &str,
    passport: &Passport,
    keypair: &Result<Option<Keypair>, RaftError>,
) -> (r: Result<(), RaftError>)
    requires
        passport_verify_safe(passport@),
    ensures
        r is Ok <==> keypair is Ok && local_identity_ok(
            id@,
            passport@,
            loaded_key(*keypair),
        ),
        match local_identity_refusal(id@, passport@, *keypair) {
            Some(x) => r matches Err(e) && e.code == x.0 && e.message@ == x.1,
            None => r is Ok,
        },
{
    match passport.verify() {
        Ok(()) => {},
        Err(err) => {
            let mut m = String::from_str("passport for @");
            m.append(id);
            m.append(" failed verification: ");
            m.append(err.message.as_str());
            return Err(auth_failed(m));
        },
    }
    if !str_eq(passport.id.as_str(), id) {
        let mut m = String::from_str("passport file for @");
        m.append(id);
        m.append(" is bound to @");
        m.append(passport.id.as_str());
        m.append(" instead");
        return Err(auth_failed(m));
    }
    let keypair = match keypair {
        Ok(Some(k)) => k,
        Ok(None) => {
            let mut m = String::from_str("no local keypair for @");
            m.append(id);
            m.append("; cannot authenticate this claim");
            return Err(auth_failed(m));
        },
        Err(e) => {
            return Err(e.duplicate());
        },
    };
    let public = keypair.public_hex();
    if !str_eq(public.as_str(), passport.pubkey.as_str()) {
        let mut m = String::from_str("local keypair for @");
        m.append(id);
        m.append(" does not match its passport");
        return Err(auth_failed(m));
    }
    Ok(())
}

/// Reconstruct the keypair a key file holds; `None` when there is no file.
pub fn load_keypair(key_file: Option<KeyFile>) -> (r: Result<Option<Keypair>, RaftError>)
    requires
        key_file matches Some(kf) ==> !hex_panics(kf.secret@),
    ensures
        match key_file {
            None => r matches Ok(None),
            Some(kf) => match crate::hex::hex_decoded(kf.secret@) {
                Some(b) => if b.len() == 32 {
                    r matches Ok(Some(k)) && k@ == b && keypair_facts(k@)
                } else {
                    r is Err
                },
                None => r is Err,
            },
        },
{
    match key_file {
        None => Ok(None),
        Some(kf) => {
            let k = Keypair::from_secret_hex(kf.secret.as_str())?;
            Ok(Some(k))
        },
    }
}

/// What making sure an agent has an identity comes to.
pub enum IdentityPlan {
    /// A valid passport bound to the local key already exists.
    Existing(Passport),
    /// The key exists but the passport is missing: this one is to be written.
    Reissued(Passport),
    /// Neither exists: this key file and passport are to be written.
    Created(KeyFile, Passport),
}

/// Create a keypair and self-signed passport for `id`, issued at `now`.
/// Refused when a key file already exists: identity creation never
/// overwrites a key that others may already trust. The key file and the
/// passport read back as a valid local identity.
pub fn create_identity(id: &str, capabilities: &[String], key_exists: bool, now: String) -> (r: Result<(KeyFile, Passport), RaftError>)
    ensures
        key_exists ==> (r matches Err(e) && e.code == ErrorCode::Conflict && e.message@ == "identity for "@
            + debug_quoted(id@) + " already exists; refusing to overwrite its key"@),
        !key_exists ==> (r matches Ok((kf, p)) && kf.v == 1 && kf.id@ == id@ && kf.created_at@ == now@
            && p@.id == id@ && p@.issued_at == now@ && p@.capabilities == views(capabilities@)
            && kf.public@ == p@.pubkey && !hex_panics(kf.secret@)
            && local_identity_ok(id@, p@, crate::hex::hex_decoded(kf.secret@))),
{
    if key_exists {
        let q = debug_str(id);
        let mut m = String::from_str("identity for ");
        m.append(q.as_str());
        m.append(" already exists; refusing to overwrite its key");
        return Err(RaftError::coded(ErrorCode::Conflict, m));
    }
    let keypair = Keypair::generate();
    let secret = keypair.secret_hex();
    let public = keypair.public_hex();
    let created_at = now.clone();
    let passport = sign_passport(&keypair, id, capabilities, now);
    proof {
        crate::hex::lemma_hex_roundtrip(keypair@);
    }
    let key_file = KeyFile { v: schema_v1(), id: String::from_str(id), secret, public, created_at };
    Ok((key_file, passport))
}

/// Make sure `id` has local signing material and a valid self-signed
/// passport. `passport` and `keypair` are what loading the agent's passport
/// and key file gave; `key_exists` whether the key file is present. Existing
/// keys are never overwritten.
pub fn ensure_identity(
    id: &str,
    capabilities: &[String],
    passport: Option<Passport>,
    keypair: Result<Option<Keypair>, RaftError>,
    key_exists: bool,
    now: String,
) -> (r: Result<IdentityPlan, RaftError>)
    requires
        passport matches Some(p) ==> passport_verify_safe(p@),
    ensures
        match passport {
            Some(p) => match local_identity_refusal(id@, p@, keypair) {
                Some(x) => r matches Err(e) && e.code == x.0 && e.message@ == x.1,
                None => r matches Ok(IdentityPlan::Existing(q)) && q@ == p@ && local_identity_ok(
                    id@,
                    p@,
                    loaded_key(keypair),
                ),
            },
            None => match keypair {
                Err(e) => r matches Err(f) && f.code == e.code && f.message@ == e.message@,
                Ok(Some(k)) => r matches Ok(IdentityPlan::Reissued(q)) && q@ == issued_passport(
                    k@,
                    id@,
                    views(capabilities@),
                    now@,
                ) && passport_valid(q@),
                Ok(None) => if key_exists {
                    r matches Err(e) && e.code == ErrorCode::Conflict && e.message@ == "identity for "@
                        + debug_quoted(id@) + " already exists; refusing to overwrite its key"@
                } else {
                    r matches Ok(IdentityPlan::Created(kf, q)) && q@.id == id@ && local_identity_ok(
                        id@,
                        q@,
                        crate::hex::hex_decoded(kf.secret@),
                    )
                },
            },
        },
{
    if let Some(p) = passport {
        verify_local_identity(id, &p, &keypair)?;
        return Ok(IdentityPlan::Existing(p));
    }
    match keypair {
        Err(e) => Err(e),
        Ok(Some(k)) => Ok(IdentityPlan::Reissued(sign_passport(&k, id, capabilities, now))),
        Ok(None) => {
            let (kf, p) = create_identity(id, capabilities, key_exists, now)?;
            Ok(IdentityPlan::Created(kf, p))
        },
    }
}

/// The signing keypair of `id` for records that need authentication: the
/// passport and the local keypair must both bind to `id` and to
/// `expected_pubkey`.
pub fn load_bound_keypair(
    id: &str,
    expected_pubkey: &str,
    passport: Option<Passport>,
    keypair: Result<Option<Keypair>, RaftError>,
) -> (r: Result<Keypair, RaftError>)
    requires
        passport matches Some(p) ==> passport_verify_safe(p@),
    ensures
        match r {
            Ok(k) => passport matches Some(p) && local_identity_ok(id@, p@, Some(k@)) && p@.pubkey
                == expected_pubkey@ && loaded_key(keypair) == Some(k@),
            Err(e) => e.code == ErrorCode::AuthFailed || keypair is Err,
        },
        match passport {
            None => r matches Err(e) && e.code == ErrorCode::AuthFailed && e.message@ == "no passport for @"@ + id@
                + "; run `raft id new "@ + id@ + "` or re-claim the agent"@,
            Some(p) => match local_identity_refusal(id@, p@, keypair) {
                Some(x) => r matches Err(e) && e.code == x.0 && e.message@ == x.1,
                None => if p@.pubkey != expected_pubkey@ {
                    r matches Err(e) && e.code == ErrorCode::AuthFailed && e.message@ == "passport for @"@ + id@
                        + " no longer matches the claimed agent key"@
                } else {
                    r is Ok
                },
            },
        },
        (passport matches Some(p) && keypair is Ok && local_identity_ok(id@, p@, loaded_key(keypair))
            && p@.pubkey == expected_pubkey@) ==> r is Ok,
{
    let p = match passport {
        Some(p) => p,
        None => {
            let mut m = String::from_str("no passport for @");
            m.append(id);
            m.append("; run `raft id new ");
            m.append(id);
            m.append("` or re-claim the agent");
            return Err(auth_failed(m));
        },
    };
    match verify_local_identity(id, &p, &keypair) {
        Ok(()) => {},
        Err(e) => {
            return Err(e);
        },
    }
    if !str_eq(p.pubkey.as_str(), expected_pubkey) {
        let mut m = String::from_str("passport for @");
        m.append(id);
        m.append(" no longer matches the claimed agent key");
        return Err(auth_failed(m));
    }
    let k = match keypair {
        Ok(Some(k)) => k,
        Ok(None) => {
            let mut m = String::from_str("no local keypair for @");
            m.append(id);
            m.append("; cannot sign as this agent");
            return Err(auth_failed(m));
        },
        Err(e) => {
            return Err(e);
        },
    };
    let public = k.public_hex();
    if !str_eq(public.as_str(), expected_pubkey) {
        let mut m = String::from_str("local keypair for @");
        m.append(id);
        m.append(" does not match the claimed agent key");
        return Err(auth_failed(m));
    }
    Ok(k)
}

} // verus!
