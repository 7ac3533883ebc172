//! Mesh packets: a signed record carried between nodes, with the author's
//! passport and the conversation it belongs to, and the checks a receiving
//! node runs before importing it.

use vstd::prelude::*;
use crate::audit::{signed_bytes, str_field, string_field};
use crate::crypto::{
    hash_text, sha256_digest, sha256_hex, signature_valid, verify, verify_error, verify_safe,
};
use crate::error::{ErrorCode, RaftError};
use crate::hex::{hex_of, lemma_hex_of_byte_len};
use crate::identity::{Passport, PassportView};
use crate::json::{
    canonical, canonical_omitting, char_views, member_chars, member_text, object_chars, object_text,
    omitting_text, quoted, quoted_chars, str_views, string_list_chars, string_list_text, utf8,
    utf8_bytes, write_canonical, JsonValue,
};
use crate::lists::{contains_str, views};
use crate::bus::first_stranger;
use crate::records::{Agent, Message, Receipt};
use crate::identity::{
    load_bound_keypair, loaded_key, local_identity_ok, passport_error, passport_valid,
    passport_verify_safe,
};
use crate::crypto::{ed25519_public, ed25519_signature, pubkey_text, Keypair};
use crate::records::{Meta, Rate};
use crate::lists::{dedup, unique};
use crate::rooms::{DEFAULT_MAX_MESSAGE_BYTES, DEFAULT_RATE_MAX_MESSAGES, DEFAULT_RATE_WINDOW_SECONDS};
use crate::lists::first_invalid_id;
use crate::text::{debug_quoted, debug_str};
use crate::time::{instant_lt, is_rfc3339, parse_time, rfc3339_instant};
use crate::util::{id_valid, invalid_id_message, validate_id};
use crate::capability::opt_view;
use crate::text::{chars_of, decimal, decimal_chars, str_eq, string_of};

verus! {

broadcast use vstd::std_specs::vec::group_vec_axioms, vstd::seq::group_seq_axioms;

/// The conversation a packet's record belongs to.
pub struct MeshConversation {
    pub id: String,
    pub participants: Vec<String>,
    pub channel: bool,
    pub private: bool,
}

/// A signed record in transit between nodes.
pub struct MeshPacket {
    pub v: u16,
    pub packet_id: String,
    pub from_node: String,
    pub to_node: Option<String>,
    pub issued_at: String,
    pub nonce: String,
    /// `message` or `receipt`.
    pub record_type: String,
    pub conversation: MeshConversation,
    pub author: String,
    pub author_pubkey: String,
    pub record_id: String,
    pub record_hash: String,
    pub passport: Passport,
    /// The record as a JSON document, its own signature fields included.
    pub record: JsonValue,
    /// The author's signature over the packet without this field.
    pub sig: Option<String>,
}

/// Where a packet goes: the sending node and, optionally, the one node it
/// is addressed to.
pub struct PacketRoute {
    pub from_node: String,
    pub to_node: Option<String>,
}

/// The text a packet id is hashed from.
pub open spec fn packet_id_text(from_node: Seq<char>, author: Seq<char>, record_type: Seq<char>, record_id: Seq<char>, nonce: Seq<char>) -> Seq<char> {
    from_node + ":"@ + author + ":"@ + record_type + ":"@ + record_id + ":"@ + nonce
}

/// `pkt-` and the first 32 hex digits of the SHA-256 of the id text.
pub open spec fn packet_id_of(from_node: Seq<char>, author: Seq<char>, record_type: Seq<char>, record_id: Seq<char>, nonce: Seq<char>) -> Seq<char> {
    "pkt-"@ + hex_of(sha256_digest(utf8(packet_id_text(from_node, author, record_type, record_id, nonce)))).take(32)
}

/// A packet's id, derived from its route, author, record and nonce.
pub fn packet_id(from_node: &str, author: &str, record_type: &str, record_id: &str, nonce: &str) -> (r: String)
    ensures
        r@ == packet_id_of(from_node@, author@, record_type@, record_id@, nonce@),
{
    let mut text = String::from_str(from_node);
    text.append(":");
    text.append(author);
    text.append(":");
    text.append(record_type);
    text.append(":");
    text.append(record_id);
    text.append(":");
    text.append(nonce);
    let bytes = utf8_bytes(chars_of(text.as_str()).as_slice());
    let digest = sha256_hex(bytes.as_slice());
    let d = chars_of(digest.as_str());
    proof {
        reveal_strlit("sha256:");
        lemma_hex_of_byte_len(sha256_digest(bytes@));
        assert(crate::crypto::hash_prefix().len() == 7);
    }
    let hex = vstd::slice::slice_subrange(d.as_slice(), 7, 39);
    let mut out = String::from_str("pkt-");
    out.append(string_of(hex).as_str());
    proof {
        let h = hex_of(sha256_digest(bytes@));
        assert(d@.skip(7) =~= h);
        assert(hex@ =~= h.take(32));
    }
    out
}

pub open spec fn bool_text(b: bool) -> Seq<char> {
    if b { "true"@ } else { "false"@ }
}

fn bool_chars(b: bool) -> (r: Vec<char>)
    ensures
        r@ == bool_text(b),
{
    proof {
        reveal_strlit("true");
        reveal_strlit("false");
    }
    if b {
        let v = vec!['t', 'r', 'u', 'e'];
        assert(v@ =~= "true"@);
        v
    } else {
        let v = vec!['f', 'a', 'l', 's', 'e'];
        assert(v@ =~= "false"@);
        v
    }
}

/// Canonical JSON text of a packet's conversation.
pub open spec fn conversation_text(c: MeshConversation) -> Seq<char> {
    object_text(
        seq![
            member_text("channel"@, bool_text(c.channel)),
            member_text("id"@, quoted(c.id@)),
            member_text("participants"@, string_list_text(views(c.participants@))),
            member_text("private"@, bool_text(c.private)),
        ],
    )
}

/// Canonical JSON text of a passport, signature included when it has one.
pub open spec fn passport_text(p: PassportView) -> Seq<char> {
    object_text(
        seq![
            member_text("_v"@, decimal(p.v as nat)),
            member_text("capabilities"@, string_list_text(p.capabilities)),
            member_text("id"@, quoted(p.id)),
            member_text("issued_at"@, quoted(p.issued_at)),
            member_text("pubkey"@, quoted(p.pubkey)),
        ] + match p.sig {
            Some(s) => seq![member_text("sig"@, quoted(s))],
            None => Seq::empty(),
        },
    )
}

/// Canonical JSON text of a packet without its `sig`: what the packet
/// signature covers.
pub open spec fn packet_signing_text(p: MeshPacket) -> Seq<char> {
    object_text(
        seq![
            member_text("_v"@, decimal(p.v as nat)),
            member_text("author"@, quoted(p.author@)),
            member_text("author_pubkey"@, quoted(p.author_pubkey@)),
            member_text("conversation"@, conversation_text(p.conversation)),
            member_text("from_node"@, quoted(p.from_node@)),
            member_text("issued_at"@, quoted(p.issued_at@)),
            member_text("nonce"@, quoted(p.nonce@)),
            member_text("packet_id"@, quoted(p.packet_id@)),
            member_text("passport"@, passport_text(p.passport@)),
            member_text("record"@, canonical(p.record)),
            member_text("record_hash"@, quoted(p.record_hash@)),
            member_text("record_id"@, quoted(p.record_id@)),
            member_text("record_type"@, quoted(p.record_type@)),
        ] + match p.to_node {
            Some(t) => seq![member_text("to_node"@, quoted(t@))],
            None => Seq::empty(),
        },
    )
}

pub open spec fn packet_signing_bytes_of(p: MeshPacket) -> Seq<u8> {
    utf8(packet_signing_text(p))
}

fn conversation_chars(c: &MeshConversation) -> (r: Vec<char>)
    ensures
        r@ == conversation_text(*c),
{
    let mut parts: Vec<Vec<char>> = Vec::new();
    parts.push(member_chars("channel", bool_chars(c.channel).as_slice()));
    parts.push(member_chars("id", quoted_chars(c.id.as_str()).as_slice()));
    parts.push(member_chars("participants", string_list_chars(c.participants.as_slice()).as_slice()));
    parts.push(member_chars("private", bool_chars(c.private).as_slice()));
    let r = object_chars(&parts);
    proof {
        assert(char_views(parts@) =~= seq![
            member_text("channel"@, bool_text(c.channel)),
            member_text("id"@, quoted(c.id@)),
            member_text("participants"@, string_list_text(views(c.participants@))),
            member_text("private"@, bool_text(c.private)),
        ]);
    }
    r
}

fn passport_chars(p: &Passport) -> (r: Vec<char>)
    ensures
        r@ == passport_text(p@),
{
    let mut parts: Vec<Vec<char>> = Vec::new();
    parts.push(member_chars("_v", decimal_chars(p.v as u64).as_slice()));
    parts.push(member_chars("capabilities", string_list_chars(p.capabilities.as_slice()).as_slice()));
    parts.push(member_chars("id", quoted_chars(p.id.as_str()).as_slice()));
    parts.push(member_chars("issued_at", quoted_chars(p.issued_at.as_str()).as_slice()));
    parts.push(member_chars("pubkey", quoted_chars(p.pubkey.as_str()).as_slice()));
    if let Some(s) = &p.sig {
        parts.push(member_chars("sig", quoted_chars(s.as_str()).as_slice()));
    }
    let r = object_chars(&parts);
    proof {
        let pv = p@;
        assert(char_views(parts@) =~= seq![
            member_text("_v"@, decimal(pv.v as nat)),
            member_text("capabilities"@, string_list_text(pv.capabilities)),
            member_text("id"@, quoted(pv.id)),
            member_text("issued_at"@, quoted(pv.issued_at)),
            member_text("pubkey"@, quoted(pv.pubkey)),
        ] + match pv.sig {
            Some(s) => seq![member_text("sig"@, quoted(s))],
            None => Seq::empty(),
        });
    }
    r
}

fn record_chars(v: &JsonValue) -> (r: Vec<char>)
    ensures
        r@ == canonical(*v),
{
    let mut out: Vec<char> = Vec::new();
    write_canonical(v, &mut out);
    assert(out@ =~= canonical(*v));
    out
}

/// Canonical bytes of a packet without its `sig`.
#[verifier::spinoff_prover]
#[verifier::rlimit(40)]
pub fn packet_signing_bytes(p: &MeshPacket) -> (r: Vec<u8>)
    ensures
        r@ == packet_signing_bytes_of(*p),
{
    let mut parts: Vec<Vec<char>> = Vec::new();
    parts.push(member_chars("_v", decimal_chars(p.v as u64).as_slice()));
    parts.push(member_chars("author", quoted_chars(p.author.as_str()).as_slice()));
    parts.push(member_chars("author_pubkey", quoted_chars(p.author_pubkey.as_str()).as_slice()));
    parts.push(member_chars("conversation", conversation_chars(&p.conversation).as_slice()));
    parts.push(member_chars("from_node", quoted_chars(p.from_node.as_str()).as_slice()));
    parts.push(member_chars("issued_at", quoted_chars(p.issued_at.as_str()).as_slice()));
    parts.push(member_chars("nonce", quoted_chars(p.nonce.as_str()).as_slice()));
    parts.push(member_chars("packet_id", quoted_chars(p.packet_id.as_str()).as_slice()));
    parts.push(member_chars("passport", passport_chars(&p.passport).as_slice()));
    parts.push(member_chars("record", record_chars(&p.record).as_slice()));
    parts.push(member_chars("record_hash", quoted_chars(p.record_hash.as_str()).as_slice()));
    parts.push(member_chars("record_id", quoted_chars(p.record_id.as_str()).as_slice()));
    parts.push(member_chars("record_type", quoted_chars(p.record_type.as_str()).as_slice()));
    if let Some(t) = &p.to_node {
        parts.push(member_chars("to_node", quoted_chars(t.as_str()).as_slice()));
    }
    let text = object_chars(&parts);
    proof {
        let pp = *p;
        assert(char_views(parts@) =~= seq![
            member_text("_v"@, decimal(pp.v as nat)),
            member_text("author"@, quoted(pp.author@)),
            member_text("author_pubkey"@, quoted(pp.author_pubkey@)),
            member_text("conversation"@, conversation_text(pp.conversation)),
            member_text("from_node"@, quoted(pp.from_node@)),
            member_text("issued_at"@, quoted(pp.issued_at@)),
            member_text("nonce"@, quoted(pp.nonce@)),
            member_text("packet_id"@, quoted(pp.packet_id@)),
            member_text("passport"@, passport_text(pp.passport@)),
            member_text("record"@, canonical(pp.record)),
            member_text("record_hash"@, quoted(pp.record_hash@)),
            member_text("record_id"@, quoted(pp.record_id@)),
            member_text("record_type"@, quoted(pp.record_type@)),
        ] + match pp.to_node {
            Some(t) => seq![member_text("to_node"@, quoted(t@))],
            None => Seq::empty(),
        });
    }
    utf8_bytes(text.as_slice())
}

fn auth_failed(message: String) -> (r: RaftError)
    ensures
        r.code == ErrorCode::AuthFailed,
        r.message@ == message@,
{
    RaftError::coded(ErrorCode::AuthFailed, message)
}

fn labelled(label: &str, text: &str) -> (r: String)
    ensures
        r@ == label@ + text@,
{
    let mut s = String::from_str(label);
    s.append(text);
    s
}

/// A record's content hash: its canonical bytes without `hash` and `sig`,
/// hashed.
pub open spec fn record_hash_of(record: JsonValue) -> Seq<char> {
    hash_text(utf8(omitting_text(record, seq!["hash"@, "sig"@])))
}

/// Why a signed record is refused, if it is: it must be signed by the
/// expected key, carry its own content hash, match the hash the packet
/// announced (when one is given), and carry a valid signature.
pub open spec fn record_refusal(record: JsonValue, key: Seq<char>, expected_hash: Seq<char>, label: Seq<char>) -> Option<Seq<char>> {
    match str_field(record, "signer_key"@) {
        None => Some(label + " is unsigned"@),
        Some(signer) => if signer != key {
            Some(label + " signer key does not match passport"@)
        } else {
            match str_field(record, "hash"@) {
                None => Some(label + " has no content hash"@),
                Some(h) => if h != record_hash_of(record) {
                    Some(label + " content hash failed verification"@)
                } else if expected_hash.len() > 0 && record_hash_of(record) != expected_hash {
                    Some(label + " hash does not match packet manifest"@)
                } else {
                    match str_field(record, "sig"@) {
                        None => Some(label + " is unsigned"@),
                        Some(sg) => if !signature_valid(key, signed_bytes(record), sg) {
                            Some(label + " signature failed verification: "@ + verify_error(key, sg))
                        } else {
                            None
                        },
                    }
                },
            }
        },
    }
}

/// Whether checking the record reaches a signature text that would make
/// verification panic.
pub open spec fn record_check_panics(record: JsonValue, key: Seq<char>, expected_hash: Seq<char>) -> bool {
    &&& str_field(record, "signer_key"@) == Some(key)
    &&& str_field(record, "hash"@) == Some(record_hash_of(record))
    &&& (expected_hash.len() == 0 || record_hash_of(record) == expected_hash)
    &&& str_field(record, "sig"@) matches Some(sg) && !verify_safe(key, sg)
}

/// Check a signed record against the key it must be signed by and, when
/// `expected_hash` is not empty, the hash a packet announced for it; its
/// content hash when it passes.
pub fn verify_record_value(record: &JsonValue, expected_pubkey: &str, expected_hash: &str, label: &str) -> (r: Result<String, RaftError>)
    requires
        !record_check_panics(*record, expected_pubkey@, expected_hash@),
    ensures
        match record_refusal(*record, expected_pubkey@, expected_hash@, label@) {
            Some(m) => r matches Err(e) && e.code == ErrorCode::AuthFailed && e.message@ == m,
            None => r matches Ok(h) && h@ == record_hash_of(*record),
        },
{
    let signer = match string_field(record, "signer_key") {
        Some(s) => s,
        None => {
            return Err(auth_failed(labelled(label, " is unsigned")));
        },
    };
    if !str_eq(signer.as_str(), expected_pubkey) {
        return Err(auth_failed(labelled(label, " signer key does not match passport")));
    }
    let stored = match string_field(record, "hash") {
        Some(h) => h,
        None => {
            return Err(auth_failed(labelled(label, " has no content hash")));
        },
    };
    let omit = ["hash", "sig"];
    proof {
        assert(str_views(omit@) =~= seq!["hash"@, "sig"@]);
    }
    let computed = sha256_hex(canonical_omitting(record, &omit).as_slice());
    if !str_eq(stored.as_str(), computed.as_str()) {
        return Err(auth_failed(labelled(label, " content hash failed verification")));
    }
    if chars_of(expected_hash).len() > 0 && !str_eq(computed.as_str(), expected_hash) {
        return Err(auth_failed(labelled(label, " hash does not match packet manifest")));
    }
    let sig = match string_field(record, "sig") {
        Some(s) => s,
        None => {
            return Err(auth_failed(labelled(label, " is unsigned")));
        },
    };
    let omit_sig = ["sig"];
    proof {
        assert(str_views(omit_sig@) =~= seq!["sig"@]);
    }
    let bytes = canonical_omitting(record, &omit_sig);
    match verify(expected_pubkey, bytes.as_slice(), sig.as_str()) {
        Ok(()) => Ok(computed),
        Err(e) => {
            let mut m = labelled(label, " signature failed verification: ");
            m.append(e.message.as_str());
            Err(auth_failed(m))
        },
    }
}

/// The first of `items` that is not among `participants`.
pub open spec fn first_absent(items: Seq<Seq<char>>, participants: Seq<Seq<char>>) -> Option<Seq<char>>
    decreases items.len(),
{
    if items.len() == 0 {
        None
    } else if !participants.contains(items[0]) {
        Some(items[0])
    } else {
        first_absent(items.drop_first(), participants)
    }
}

/// Why a message's addressing leaves the mesh conversation, if it does: a
/// recipient (other than `*`), then a mention, then an awaited agent that
/// is not a participant.
pub open spec fn routing_refusal(participants: Seq<Seq<char>>, m: Message) -> Option<Seq<char>> {
    match first_stranger(views(m.to@), participants) {
        Some(x) => Some("message recipient @"@ + x + " is not in the mesh conversation"@),
        None => match first_absent(views(m.mentions@), participants) {
            Some(x) => Some("message mention @"@ + x + " is not in the mesh conversation"@),
            None => match first_absent(views(m.needs_response_from@), participants) {
                Some(x) => Some("message awaits @"@ + x + ", who is not in the mesh conversation"@),
                None => None,
            },
        },
    }
}

fn find_stranger(items: &Vec<String>, participants: &[String]) -> (r: Option<String>)
    ensures
        match r {
            Some(x) => first_stranger(views(items@), views(participants@)) == Some(x@),
            None => first_stranger(views(items@), views(participants@)) is None,
        },
{
    let ghost xs = views(items@);
    let ghost ps = views(participants@);
    let mut i: usize = 0;
    assert(xs.skip(0) =~= xs);
    while i < items.len()
        invariant
            i <= items@.len(),
            xs == views(items@),
            ps == views(participants@),
            first_stranger(xs, ps) == first_stranger(xs.skip(i as int), ps),
        decreases items@.len() - i,
    {
        proof {
            let t = xs.skip(i as int);
            assert(t[0] == items@[i as int]@);
            assert(t.drop_first() =~= xs.skip(i + 1));
        }
        let x = items[i].as_str();
        if !str_eq(x, "*") && !contains_str(participants, x) {
            return Some(String::from_str(x));
        }
        i = i + 1;
    }
    None
}

fn find_absent(items: &Vec<String>, participants: &[String]) -> (r: Option<String>)
    ensures
        match r {
            Some(x) => first_absent(views(items@), views(participants@)) == Some(x@),
            None => first_absent(views(items@), views(participants@)) is None,
        },
{
    let ghost xs = views(items@);
    let ghost ps = views(participants@);
    let mut i: usize = 0;
    assert(xs.skip(0) =~= xs);
    while i < items.len()
        invariant
            i <= items@.len(),
            xs == views(items@),
            ps == views(participants@),
            first_absent(xs, ps) == first_absent(xs.skip(i as int), ps),
        decreases items@.len() - i,
    {
        proof {
            let t = xs.skip(i as int);
            assert(t[0] == items@[i as int]@);
            assert(t.drop_first() =~= xs.skip(i + 1));
        }
        let x = items[i].as_str();
        if !contains_str(participants, x) {
            return Some(String::from_str(x));
        }
        i = i + 1;
    }
    None
}

/// Check that a message's recipients, mentions and awaited agents all
/// belong to the mesh conversation.
pub fn verify_message_routing(participants: &[String], m: &Message) -> (r: Result<(), RaftError>)
    ensures
        match routing_refusal(views(participants@), *m) {
            Some(msg) => r matches Err(e) && e.code == ErrorCode::AuthFailed && e.message@ == msg,
            None => r is Ok,
        },
{
    if let Some(x) = find_stranger(&m.to, participants) {
        let mut t = String::from_str("message recipient @");
        t.append(x.as_str());
        t.append(" is not in the mesh conversation");
        return Err(auth_failed(t));
    }
    if let Some(x) = find_absent(&m.mentions, participants) {
        let mut t = String::from_str("message mention @");
        t.append(x.as_str());
        t.append(" is not in the mesh conversation");
        return Err(auth_failed(t));
    }
    if let Some(x) = find_absent(&m.needs_response_from, participants) {
        let mut t = String::from_str("message awaits @");
        t.append(x.as_str());
        t.append(", who is not in the mesh conversation");
        return Err(auth_failed(t));
    }
    Ok(())
}

/// A refusal: the error's category and message.
pub type Refusal = (ErrorCode, Seq<char>);

/// Why a packet addressed to another node is refused here.
pub open spec fn address_refusal(p: MeshPacket, expected: Option<Seq<char>>) -> Option<Seq<char>> {
    match (expected, p.to_node) {
        (Some(e), Some(a)) => if a@ != e {
            Some("packet is addressed to node "@ + debug_quoted(a@) + ", not "@ + debug_quoted(e))
        } else {
            None
        },
        _ => None,
    }
}

/// Refuse a packet addressed to a node other than `expected_node` (a packet
/// addressed to no node in particular, or a check without an expected
/// node, passes).
pub fn verify_packet_address(p: &MeshPacket, expected_node: Option<&str>) -> (r: Result<(), RaftError>)
    ensures
        match address_refusal(*p, crate::doctor::opt_seq(expected_node)) {
            Some(m) => r matches Err(e) && e.code == ErrorCode::NotAuthorized && e.message@ == m,
            None => r is Ok,
        },
{
    if let (Some(expected), Some(actual)) = (expected_node, &p.to_node) {
        if !str_eq(actual.as_str(), expected) {
            let mut m = String::from_str("packet is addressed to node ");
            m.append(debug_str(actual.as_str()).as_str());
            m.append(", not ");
            m.append(debug_str(expected).as_str());
            return Err(RaftError::coded(ErrorCode::NotAuthorized, m));
        }
    }
    Ok(())
}

/// Why a packet's own fields are refused: ids, time, conversation, and
/// that the author takes part in it.
pub open spec fn header_refusal(p: MeshPacket) -> Option<Refusal> {
    if !id_valid(p.packet_id@) {
        Some((ErrorCode::Error, invalid_id_message("packet id"@, p.packet_id@)))
    } else if !id_valid(p.from_node@) {
        Some((ErrorCode::Error, invalid_id_message("node id"@, p.from_node@)))
    } else if p.to_node matches Some(t) && !id_valid(t@) {
        Some((ErrorCode::Error, invalid_id_message("node id"@, p.to_node->0@)))
    } else if !is_rfc3339(p.issued_at@) {
        Some((ErrorCode::Parse, "packet issued_at is not an RFC3339 timestamp"@))
    } else if !id_valid(p.conversation.id@) {
        Some((ErrorCode::Error, invalid_id_message("conversation id"@, p.conversation.id@)))
    } else if first_invalid_id(views(p.conversation.participants@)) is Some {
        Some((ErrorCode::Error, invalid_id_message("participant"@, first_invalid_id(views(p.conversation.participants@))->0)))
    } else if !views(p.conversation.participants@).contains(p.author@) {
        Some((ErrorCode::AuthFailed, "packet author @"@ + p.author@ + " is not a conversation participant"@))
    } else {
        None
    }
}

/// Why the packet's passport does not vouch for its author, if it does not.
pub open spec fn passport_refusal(p: MeshPacket) -> Option<Seq<char>> {
    if !passport_valid(p.passport@) {
        Some("passport failed verification: "@ + passport_error(p.passport@))
    } else if p.passport.id@ != p.author@ {
        Some("passport id does not match packet author"@)
    } else if p.passport.pubkey@ != p.author_pubkey@ {
        Some("passport pubkey does not match packet author key"@)
    } else {
        None
    }
}

/// Why the packet signature is refused, if it is.
pub open spec fn signature_refusal(p: MeshPacket) -> Option<Seq<char>> {
    match p.sig {
        None => Some("mesh packet is unsigned"@),
        Some(sg) => if !signature_valid(p.author_pubkey@, packet_signing_bytes_of(p), sg@) {
            Some("mesh packet signature failed verification: "@ + verify_error(p.author_pubkey@, sg@))
        } else {
            None
        },
    }
}

/// The id a receipt travels under: `<message id>-<agent>`.
pub open spec fn receipt_record_id(r: Receipt) -> Seq<char> {
    r.message_id@ + "-"@ + r.agent@
}

/// Why a message record does not match its packet, before its signature.
pub open spec fn message_fields_refusal(p: MeshPacket, m: Message) -> Option<Seq<char>> {
    if m.id@ != p.record_id@ {
        Some("mesh packet message id does not match record_id"@)
    } else if m.from@ != p.author@ {
        Some("mesh packet message author does not match passport"@)
    } else if m.conversation_id@ != p.conversation.id@ {
        Some("mesh packet message conversation does not match manifest"@)
    } else {
        routing_refusal(views(p.conversation.participants@), m)
    }
}

/// Why a receipt record does not match its packet, before its signature.
pub open spec fn receipt_fields_refusal(p: MeshPacket, r: Receipt) -> Option<Seq<char>> {
    if receipt_record_id(r) != p.record_id@ {
        Some("mesh packet receipt id does not match record_id"@)
    } else if r.agent@ != p.author@ {
        Some("mesh packet receipt author does not match passport"@)
    } else if r.conversation_id@ != p.conversation.id@ {
        Some("mesh packet receipt conversation does not match manifest"@)
    } else {
        None
    }
}

/// Why the packet's record is refused: `as_message` and `as_receipt` are
/// the record read as a message and as a receipt (or the parser's error).
pub open spec fn content_refusal(p: MeshPacket, as_message: Result<Message, String>, as_receipt: Result<Receipt, String>) -> Option<Refusal> {
    if p.record_type@ == "message"@ {
        match as_message {
            Err(e) => Some((ErrorCode::Parse, e@)),
            Ok(m) => match message_fields_refusal(p, m) {
                Some(x) => Some((ErrorCode::AuthFailed, x)),
                None => match record_refusal(p.record, p.author_pubkey@, p.record_hash@, "message"@) {
                    Some(x) => Some((ErrorCode::AuthFailed, x)),
                    None => None,
                },
            },
        }
    } else if p.record_type@ == "receipt"@ {
        match as_receipt {
            Err(e) => Some((ErrorCode::Parse, e@)),
            Ok(r) => match receipt_fields_refusal(p, r) {
                Some(x) => Some((ErrorCode::AuthFailed, x)),
                None => match record_refusal(p.record, p.author_pubkey@, p.record_hash@, "receipt"@) {
                    Some(x) => Some((ErrorCode::AuthFailed, x)),
                    None => None,
                },
            },
        }
    } else {
        Some((ErrorCode::Parse, "unknown mesh record type "@ + debug_quoted(p.record_type@)))
    }
}

/// Whether checking the record would reach a signature that panics.
pub open spec fn content_panics(p: MeshPacket, as_message: Result<Message, String>, as_receipt: Result<Receipt, String>) -> bool {
    if p.record_type@ == "message"@ {
        as_message matches Ok(m) && message_fields_refusal(p, m) is None && record_check_panics(
            p.record,
            p.author_pubkey@,
            p.record_hash@,
        )
    } else if p.record_type@ == "receipt"@ {
        as_receipt matches Ok(r) && receipt_fields_refusal(p, r) is None && record_check_panics(
            p.record,
            p.author_pubkey@,
            p.record_hash@,
        )
    } else {
        false
    }
}

/// Why the author's name is refused here: a stored passport or agent claim
/// under that name binds another key. `stored_passport` and `stored_agent`
/// are what reading them gave.
pub open spec fn binding_refusal(
    author: Seq<char>,
    key: Seq<char>,
    stored_passport: Result<Option<Passport>, RaftError>,
    stored_agent: Result<Option<Agent>, RaftError>,
) -> Option<Refusal> {
    match stored_passport {
        Err(e) => Some((e.code, e.message@)),
        Ok(sp) => {
            if sp matches Some(ex) && !passport_valid(ex@) {
                Some((ErrorCode::AuthFailed, "stored passport for @"@ + author + " is invalid: "@ + passport_error(sp->0@)))
            } else if sp matches Some(ex) && ex.pubkey@ != key {
                Some((ErrorCode::Conflict, "agent name @"@ + author + " is already bound to a different passport key"@))
            } else {
                match stored_agent {
                    Err(e) => Some((e.code, e.message@)),
                    Ok(None) => None,
                    Ok(Some(a)) => match a.pubkey {
                        Some(pk) => if pk@ == key {
                            None
                        } else {
                            Some((ErrorCode::Conflict, "agent name @"@ + author + " is already claimed by a different key"@))
                        },
                        None => Some((ErrorCode::Conflict, "agent name @"@ + author + " exists locally without a passport binding"@)),
                    },
                }
            }
        },
    }
}

/// Every reason a packet is refused, in the order checked.
pub open spec fn packet_refusal(
    p: MeshPacket,
    as_message: Result<Message, String>,
    as_receipt: Result<Receipt, String>,
    stored_passport: Result<Option<Passport>, RaftError>,
    stored_agent: Result<Option<Agent>, RaftError>,
) -> Option<Refusal> {
    if header_refusal(p) is Some {
        header_refusal(p)
    } else if passport_refusal(p) is Some {
        Some((ErrorCode::AuthFailed, passport_refusal(p)->0))
    } else if signature_refusal(p) is Some {
        Some((ErrorCode::AuthFailed, signature_refusal(p)->0))
    } else if content_refusal(p, as_message, as_receipt) is Some {
        content_refusal(p, as_message, as_receipt)
    } else {
        binding_refusal(p.author@, p.author_pubkey@, stored_passport, stored_agent)
    }
}

/// The inputs on which checking a packet panics: a signature text reached
/// along the way that slices off a character boundary.
pub open spec fn packet_panics(
    p: MeshPacket,
    as_message: Result<Message, String>,
    as_receipt: Result<Receipt, String>,
    stored_passport: Result<Option<Passport>, RaftError>,
) -> bool {
    header_refusal(p) is None && (!passport_verify_safe(p.passport@) || (passport_refusal(p) is None && (
    signature_panics(p) || (signature_refusal(p) is None && (content_panics(p, as_message, as_receipt) || (
    content_refusal(p, as_message, as_receipt) is None && stored_passport_panics(stored_passport)))))))
}

/// Whether checking the packet signature panics.
pub open spec fn signature_panics(p: MeshPacket) -> bool {
    p.sig matches Some(sg) && !verify_safe(p.author_pubkey@, sg@)
}

/// Whether checking a stored passport panics.
pub open spec fn stored_passport_panics(stored_passport: Result<Option<Passport>, RaftError>) -> bool {
    stored_passport matches Ok(Some(ex)) && !passport_verify_safe(ex@)
}

fn refused(code: ErrorCode, message: String) -> (r: RaftError)
    ensures
        r.code == code,
        r.message@ == message@,
{
    RaftError::coded(code, message)
}

proof fn lemma_first_invalid_prefix(s: Seq<Seq<char>>, k: int)
    requires
        0 <= k <= s.len(),
        first_invalid_id(s.take(k)) is Some,
    ensures
        first_invalid_id(s) == first_invalid_id(s.take(k)),
    decreases s.len(),
{
    if k < s.len() {
        assert(s.drop_last().take(k) =~= s.take(k));
        lemma_first_invalid_prefix(s.drop_last(), k);
    } else {
        assert(s.take(k) =~= s);
    }
}

fn check_header(p: &MeshPacket) -> (r: Result<(), RaftError>)
    ensures
        match header_refusal(*p) {
            Some(x) => r matches Err(e) && e.code == x.0 && e.message@ == x.1,
            None => r is Ok,
        },
{
    validate_id(p.packet_id.as_str(), "packet id")?;
    validate_id(p.from_node.as_str(), "node id")?;
    if let Some(t) = &p.to_node {
        validate_id(t.as_str(), "node id")?;
    }
    if parse_time(p.issued_at.as_str()).is_none() {
        return Err(refused(ErrorCode::Parse, String::from_str("packet issued_at is not an RFC3339 timestamp")));
    }
    validate_id(p.conversation.id.as_str(), "conversation id")?;
    let ps = &p.conversation.participants;
    let mut i: usize = 0;
    while i < ps.len()
        invariant
            i <= ps@.len(),
            first_invalid_id(views(ps@).take(i as int)) is None,
            ps@ == p.conversation.participants@,
            id_valid(p.packet_id@),
            id_valid(p.from_node@),
            !(p.to_node matches Some(t) && !id_valid(t@)),
            is_rfc3339(p.issued_at@),
            id_valid(p.conversation.id@),
        decreases ps@.len() - i,
    {
        proof {
            assert(views(ps@).take(i + 1).drop_last() =~= views(ps@).take(i as int));
            assert(views(ps@).take(i + 1).last() == ps@[i as int]@);
        }
        if let Err(e) = validate_id(ps[i].as_str(), "participant") {
            proof {
                let t = views(ps@).take(i + 1);
                assert(t.drop_last() =~= views(ps@).take(i as int));
                assert(t.last() == ps@[i as int]@);
                assert(first_invalid_id(t) == Some(ps@[i as int]@));
                lemma_first_invalid_prefix(views(ps@), i + 1);
            }
            return Err(e);
        }
        i = i + 1;
    }
    assert(views(ps@).take(ps@.len() as int) =~= views(ps@));
    if !contains_str(ps.as_slice(), p.author.as_str()) {
        let mut m = String::from_str("packet author @");
        m.append(p.author.as_str());
        m.append(" is not a conversation participant");
        return Err(auth_failed(m));
    }
    Ok(())
}

/// Check that the packet's passport is valid and names its author and key.
pub fn verify_passport(p: &MeshPacket) -> (r: Result<(), RaftError>)
    requires
        passport_verify_safe(p.passport@),
    ensures
        match passport_refusal(*p) {
            Some(m) => r matches Err(e) && e.code == ErrorCode::AuthFailed && e.message@ == m,
            None => r is Ok,
        },
{
    if let Err(e) = p.passport.verify() {
        let mut m = String::from_str("passport failed verification: ");
        m.append(e.message.as_str());
        return Err(auth_failed(m));
    }
    if !str_eq(p.passport.id.as_str(), p.author.as_str()) {
        return Err(auth_failed(String::from_str("passport id does not match packet author")));
    }
    if !str_eq(p.passport.pubkey.as_str(), p.author_pubkey.as_str()) {
        return Err(auth_failed(String::from_str("passport pubkey does not match packet author key")));
    }
    Ok(())
}

fn check_signature(p: &MeshPacket) -> (r: Result<(), RaftError>)
    requires
        p.sig matches Some(sg) ==> verify_safe(p.author_pubkey@, sg@),
    ensures
        match signature_refusal(*p) {
            Some(m) => r matches Err(e) && e.code == ErrorCode::AuthFailed && e.message@ == m,
            None => r is Ok,
        },
{
    let sig = match &p.sig {
        Some(s) => s,
        None => {
            return Err(auth_failed(String::from_str("mesh packet is unsigned")));
        },
    };
    let bytes = packet_signing_bytes(p);
    if let Err(e) = verify(p.author_pubkey.as_str(), bytes.as_slice(), sig.as_str()) {
        let mut m = String::from_str("mesh packet signature failed verification: ");
        m.append(e.message.as_str());
        return Err(auth_failed(m));
    }
    Ok(())
}

fn check_content(p: &MeshPacket, as_message: &Result<Message, String>, as_receipt: &Result<Receipt, String>) -> (r: Result<(), RaftError>)
    requires
        !content_panics(*p, *as_message, *as_receipt),
    ensures
        match content_refusal(*p, *as_message, *as_receipt) {
            Some(x) => r matches Err(e) && e.code == x.0 && e.message@ == x.1,
            None => r is Ok,
        },
{
    if str_eq(p.record_type.as_str(), "message") {
        let m = match as_message {
            Err(e) => {
                return Err(refused(ErrorCode::Parse, e.clone()));
            },
            Ok(m) => m,
        };
        if !str_eq(m.id.as_str(), p.record_id.as_str()) {
            return Err(auth_failed(String::from_str("mesh packet message id does not match record_id")));
        }
        if !str_eq(m.from.as_str(), p.author.as_str()) {
            return Err(auth_failed(String::from_str("mesh packet message author does not match passport")));
        }
        if !str_eq(m.conversation_id.as_str(), p.conversation.id.as_str()) {
            return Err(auth_failed(String::from_str("mesh packet message conversation does not match manifest")));
        }
        verify_message_routing(p.conversation.participants.as_slice(), m)?;
        verify_record_value(&p.record, p.author_pubkey.as_str(), p.record_hash.as_str(), "message")?;
        Ok(())
    } else if str_eq(p.record_type.as_str(), "receipt") {
        let r = match as_receipt {
            Err(e) => {
                return Err(refused(ErrorCode::Parse, e.clone()));
            },
            Ok(r) => r,
        };
        let mut rid = r.message_id.clone();
        rid.append("-");
        rid.append(r.agent.as_str());
        if !str_eq(rid.as_str(), p.record_id.as_str()) {
            return Err(auth_failed(String::from_str("mesh packet receipt id does not match record_id")));
        }
        if !str_eq(r.agent.as_str(), p.author.as_str()) {
            return Err(auth_failed(String::from_str("mesh packet receipt author does not match passport")));
        }
        if !str_eq(r.conversation_id.as_str(), p.conversation.id.as_str()) {
            return Err(auth_failed(String::from_str("mesh packet receipt conversation does not match manifest")));
        }
        verify_record_value(&p.record, p.author_pubkey.as_str(), p.record_hash.as_str(), "receipt")?;
        Ok(())
    } else {
        let mut m = String::from_str("unknown mesh record type ");
        m.append(debug_str(p.record_type.as_str()).as_str());
        Err(refused(ErrorCode::Parse, m))
    }
}

/// Check that the author's name is not bound to another key here.
pub fn verify_name_binding(
    author: &str,
    key: &str,
    stored_passport: &Result<Option<Passport>, RaftError>,
    stored_agent: &Result<Option<Agent>, RaftError>,
) -> (r: Result<(), RaftError>)
    requires
        stored_passport matches Ok(Some(ex)) ==> passport_verify_safe(ex@),
    ensures
        match binding_refusal(author@, key@, *stored_passport, *stored_agent) {
            Some(x) => r matches Err(e) && e.code == x.0 && e.message@ == x.1,
            None => r is Ok,
        },
{
    match stored_passport {
        Err(e) => {
            return Err(e.duplicate());
        },
        Ok(Some(ex)) => {
            if let Err(e) = ex.verify() {
                let mut m = String::from_str("stored passport for @");
                m.append(author);
                m.append(" is invalid: ");
                m.append(e.message.as_str());
                return Err(auth_failed(m));
            }
            if !str_eq(ex.pubkey.as_str(), key) {
                let mut m = String::from_str("agent name @");
                m.append(author);
                m.append(" is already bound to a different passport key");
                return Err(refused(ErrorCode::Conflict, m));
            }
        },
        Ok(None) => {},
    }
    match stored_agent {
        Err(e) => Err(e.duplicate()),
        Ok(None) => Ok(()),
        Ok(Some(a)) => match &a.pubkey {
            Some(pk) => {
                if str_eq(pk.as_str(), key) {
                    Ok(())
                } else {
                    let mut m = String::from_str("agent name @");
                    m.append(author);
                    m.append(" is already claimed by a different key");
                    Err(refused(ErrorCode::Conflict, m))
                }
            },
            None => {
                let mut m = String::from_str("agent name @");
                m.append(author);
                m.append(" exists locally without a passport binding");
                Err(refused(ErrorCode::Conflict, m))
            },
        },
    }
}

/// Everything a receiving node checks before importing a packet: its own
/// fields, the author's passport, the packet signature, the record (read as
/// `as_message` or `as_receipt` by its type) and its signature, and that
/// the author's name is not bound to another key here (`stored_passport`,
/// `stored_agent`). `Ok` exactly when nothing is refused.
pub fn verify_packet(
    p: &MeshPacket,
    as_message: &Result<Message, String>,
    as_receipt: &Result<Receipt, String>,
    stored_passport: &Result<Option<Passport>, RaftError>,
    stored_agent: &Result<Option<Agent>, RaftError>,
) -> (r: Result<(), RaftError>)
    requires
        !packet_panics(*p, *as_message, *as_receipt, *stored_passport),
    ensures
        match packet_refusal(*p, *as_message, *as_receipt, *stored_passport, *stored_agent) {
            Some(x) => r matches Err(e) && e.code == x.0 && e.message@ == x.1,
            None => r is Ok,
        },
{
    check_header(p)?;
    verify_passport(p)?;
    check_signature(p)?;
    check_content(p, as_message, as_receipt)?;
    verify_name_binding(p.author.as_str(), p.author_pubkey.as_str(), stored_passport, stored_agent)
}

fn copy_strings(v: &Vec<String>) -> (r: Vec<String>)
    ensures
        views(r@) == views(v@),
{
    let mut out: Vec<String> = Vec::new();
    let mut i: usize = 0;
    while i < v.len()
        invariant
            i <= v@.len(),
            views(out@) == views(v@).take(i as int),
        decreases v@.len() - i,
    {
        let ghost before = out@;
        out.push(v[i].clone());
        proof {
            assert(views(out@) =~= views(before).push(v@[i as int]@));
            assert(views(v@).take(i + 1) =~= views(v@).take(i as int).push(v@[i as int]@));
        }
        i = i + 1;
    }
    assert(views(v@).take(v@.len() as int) =~= views(v@));
    out
}

fn copy_passport(p: &Passport) -> (r: Passport)
    ensures
        r@ == p@,
{
    Passport {
        v: p.v,
        id: p.id.clone(),
        pubkey: p.pubkey.clone(),
        capabilities: copy_strings(&p.capabilities),
        issued_at: p.issued_at.clone(),
        sig: match &p.sig {
            Some(s) => Some(s.clone()),
            None => None,
        },
    }
}

/// Whether the agent's claim, passport and local keypair let it sign: the
/// claim exists and is bound to a key, and the passport and keypair both
/// bind `agent_id` to that key.
pub open spec fn can_sign(
    agent_id: Seq<char>,
    agent: Result<Option<Agent>, RaftError>,
    passport: Option<Passport>,
    keypair: Result<Option<Keypair>, RaftError>,
) -> bool {
    &&& agent matches Ok(Some(a))
    &&& agent->Ok_0->Some_0.pubkey is Some
    &&& passport matches Some(p)
    &&& keypair is Ok
    &&& local_identity_ok(agent_id, passport->Some_0@, loaded_key(keypair))
    &&& passport->Some_0@.pubkey == agent->Ok_0->Some_0.pubkey->Some_0@
}

/// The key an agent signs with: its claim's public key and the local
/// keypair bound to it. `agent` is what reading the claim gave, `passport`
/// and `keypair` what reading its passport and key file gave.
pub fn agent_signing_key(
    agent_id: &str,
    agent: Result<Option<Agent>, RaftError>,
    passport: Option<Passport>,
    keypair: Result<Option<Keypair>, RaftError>,
) -> (r: Result<(String, Keypair), RaftError>)
    requires
        passport matches Some(p) ==> passport_verify_safe(p@),
    ensures
        r is Ok <==> can_sign(agent_id@, agent, passport, keypair),
        r matches Ok((pk, k)) ==> agent->Ok_0->Some_0.pubkey == Some(pk) && passport->Some_0@.pubkey
            == pk@ && pubkey_text(ed25519_public(k@)) == pk@ && loaded_key(keypair) == Some(k@),
        agent matches Err(e) ==> r == Err::<(String, Keypair), RaftError>(e),
        agent matches Ok(None) ==> (r matches Err(e) && e.code == ErrorCode::NotClaimed && e.message@ == "agent "@
            + debug_quoted(agent_id@) + " has not been claimed"@),
        (agent matches Ok(Some(a)) && a.pubkey is None) ==> (r matches Err(e) && e.code == ErrorCode::AuthFailed
            && e.message@ == "agent @"@ + agent_id@ + " is not bound to a passport key"@),
{
    let a = match agent {
        Err(e) => {
            return Err(e);
        },
        Ok(None) => {
            let mut m = String::from_str("agent ");
            m.append(debug_str(agent_id).as_str());
            m.append(" has not been claimed");
            return Err(refused(ErrorCode::NotClaimed, m));
        },
        Ok(Some(a)) => a,
    };
    let pubkey = match a.pubkey {
        Some(pk) => pk,
        None => {
            let mut m = String::from_str("agent @");
            m.append(agent_id);
            m.append(" is not bound to a passport key");
            return Err(auth_failed(m));
        },
    };
    let ghost pv = passport;
    let ghost kv = keypair;
    let k = load_bound_keypair(agent_id, pubkey.as_str(), passport, keypair)?;
    Ok((pubkey, k))
}

/// The packet fields fixed before signing.
pub open spec fn unsigned_packet(
    p: MeshPacket,
    author: Seq<char>,
    record_type: Seq<char>,
    record_id: Seq<char>,
    record: JsonValue,
    meta: Meta,
    from_node: Seq<char>,
    to_node: Option<Seq<char>>,
    passport: PassportView,
    record_hash: Seq<char>,
    nonce: Seq<char>,
    issued_at: Seq<char>,
) -> bool {
    &&& p.v == 1
    &&& p.packet_id@ == packet_id_of(from_node, author, record_type, record_id, nonce)
    &&& p.from_node@ == from_node
    &&& opt_view(p.to_node) == to_node
    &&& p.issued_at@ == issued_at
    &&& p.nonce@ == nonce
    &&& p.record_type@ == record_type
    &&& p.conversation.id@ == meta.id@
    &&& views(p.conversation.participants@) == views(meta.participants@)
    &&& p.conversation.channel == meta.channel
    &&& p.conversation.private == meta.private
    &&& p.author@ == author
    &&& p.author_pubkey@ == passport.pubkey
    &&& p.record_id@ == record_id
    &&& p.record_hash@ == record_hash
    &&& p.passport@ == passport
    &&& p.record == record
}

/// Build and sign the packet carrying `record` (of type `record_type`, id
/// `record_id`) by `author` in conversation `meta`. `agent`, `passport` and
/// `keypair` are what reading the author's claim, passport and key file
/// gave; `nonce` is fresh randomness and `issued_at` the current time.
/// The packet's passport and signature pass a receiver's checks.
pub fn build_packet(
    author: &str,
    record_type: &str,
    record_id: &str,
    record: JsonValue,
    meta: &Meta,
    route: PacketRoute,
    agent: Result<Option<Agent>, RaftError>,
    passport: Option<Passport>,
    keypair: Result<Option<Keypair>, RaftError>,
    nonce: String,
    issued_at: String,
) -> (r: Result<MeshPacket, RaftError>)
    requires
        passport matches Some(p) ==> passport_verify_safe(p@),
        passport matches Some(p) ==> !record_check_panics(record, p@.pubkey, Seq::empty()),
    ensures
        r is Ok <==> id_valid(author@) && can_sign(author@, agent, passport, keypair) && record_refusal(
            record,
            passport->Some_0@.pubkey,
            Seq::empty(),
            "record"@,
        ) is None,
        r matches Ok(pk) ==> unsigned_packet(
            pk,
            author@,
            record_type@,
            record_id@,
            record,
            *meta,
            route.from_node@,
            opt_view(route.to_node),
            passport->Some_0@,
            record_hash_of(record),
            nonce@,
            issued_at@,
        ),
        r matches Ok(pk) ==> passport_refusal(pk) is None && signature_refusal(pk) is None,
        !id_valid(author@) ==> (r matches Err(e) && e.code == ErrorCode::Error && e.message@
            == invalid_id_message("author"@, author@)),
{
    let author_s = validate_id(author, "author")?;
    let passport_copy = match &passport {
        Some(p) => Some(copy_passport(p)),
        None => None,
    };
    let (_pubkey, keypair) = agent_signing_key(author, agent, passport_copy, keypair)?;
    let passport = match passport {
        Some(p) => p,
        None => {
            let mut m = String::from_str("no passport for @");
            m.append(author);
            m.append("; run `raft id new ");
            m.append(author);
            m.append("`");
            return Err(auth_failed(m));
        },
    };
    if let Err(e) = passport.verify() {
        let mut m = String::from_str("passport for @");
        m.append(author);
        m.append(" failed verification: ");
        m.append(e.message.as_str());
        return Err(auth_failed(m));
    }
    proof {
        reveal_strlit("");
        assert(""@ =~= Seq::<char>::empty());
    }
    let record_hash = verify_record_value(&record, passport.pubkey.as_str(), "", "record")?;
    let pid = packet_id(route.from_node.as_str(), author, record_type, record_id, nonce.as_str());
    let mut packet = MeshPacket {
        v: 1,
        packet_id: pid,
        from_node: route.from_node,
        to_node: route.to_node,
        issued_at,
        nonce,
        record_type: String::from_str(record_type),
        conversation: MeshConversation {
            id: meta.id.clone(),
            participants: copy_strings(&meta.participants),
            channel: meta.channel,
            private: meta.private,
        },
        author: author_s,
        author_pubkey: passport.pubkey.clone(),
        record_id: String::from_str(record_id),
        record_hash,
        passport,
        record,
        sig: None,
    };
    let bytes = packet_signing_bytes(&packet);
    let sig = keypair.sign(bytes.as_slice());
    let ghost unsigned = packet;
    packet.sig = Some(sig);
    proof {
        assert(packet_signing_text(packet) == packet_signing_text(unsigned));
    }
    Ok(packet)
}

/// Why a packet's conversation cannot be imported: a bad id, fewer than two
/// distinct participants, or a bad participant id.
pub open spec fn import_refusal(c: MeshConversation) -> Option<Refusal> {
    let ps = dedup(views(c.participants@));
    if !id_valid(c.id@) {
        Some((ErrorCode::Error, invalid_id_message("conversation id"@, c.id@)))
    } else if ps.len() < 2 {
        Some((ErrorCode::AuthFailed, "mesh conversation must have at least two participants"@))
    } else if first_invalid_id(ps) is Some {
        Some((ErrorCode::Error, invalid_id_message("participant"@, first_invalid_id(ps)->0)))
    } else {
        None
    }
}

/// Check a packet's conversation before touching the bus: its id and its
/// distinct participants, which it returns.
pub fn validate_import_conversation(c: &MeshConversation) -> (r: Result<(String, Vec<String>), RaftError>)
    ensures
        match import_refusal(*c) {
            Some(x) => r matches Err(e) && e.code == x.0 && e.message@ == x.1,
            None => r matches Ok((id, ps)) && id@ == c.id@ && views(ps@) == dedup(views(c.participants@)),
        },
{
    let id = validate_id(c.id.as_str(), "conversation id")?;
    let ps = unique(copy_strings(&c.participants));
    if ps.len() < 2 {
        return Err(auth_failed(String::from_str("mesh conversation must have at least two participants")));
    }
    let ghost pv = views(ps@);
    let mut i: usize = 0;
    while i < ps.len()
        invariant
            i <= ps@.len(),
            pv == views(ps@),
            pv == dedup(views(c.participants@)),
            pv.len() >= 2,
            id_valid(c.id@),
            id@ == c.id@,
            first_invalid_id(pv.take(i as int)) is None,
        decreases ps@.len() - i,
    {
        proof {
            assert(pv.take(i + 1).drop_last() =~= pv.take(i as int));
            assert(pv.take(i + 1).last() == ps@[i as int]@);
        }
        if let Err(e) = validate_id(ps[i].as_str(), "participant") {
            proof {
                assert(first_invalid_id(pv.take(i + 1)) == Some(ps@[i as int]@));
                lemma_first_invalid_prefix(pv, i + 1);
            }
            return Err(e);
        }
        i = i + 1;
    }
    assert(pv.take(ps@.len() as int) =~= pv);
    Ok((id, ps))
}

/// The participants of `ps` not in `existing`, in order.
pub open spec fn newcomers(ps: Seq<Seq<char>>, existing: Seq<Seq<char>>) -> Seq<Seq<char>>
    decreases ps.len(),
{
    if ps.len() == 0 {
        Seq::empty()
    } else {
        newcomers(ps.drop_last(), existing) + if existing.contains(ps.last()) {
            Seq::empty()
        } else {
            seq![ps.last()]
        }
    }
}

/// The conversation record a fresh import creates.
pub open spec fn imported_meta(m: Meta, c: MeshConversation, issued_at: Seq<char>) -> bool {
    &&& m.v == 1
    &&& m.id@ == c.id@
    &&& views(m.participants@) == dedup(views(c.participants@))
    &&& m.channel == c.channel
    &&& m.private == c.private
    &&& m.state@ == "open"@
    &&& m.created_at@ == issued_at
    &&& m.updated_at@ == issued_at
    &&& m.retention_days == 14
    &&& m.rate.window_seconds == DEFAULT_RATE_WINDOW_SECONDS
    &&& m.rate.max_messages_per_sender == DEFAULT_RATE_MAX_MESSAGES
    &&& m.rate.max_message_bytes == DEFAULT_MAX_MESSAGE_BYTES
}

/// Make sure the conversation a packet belongs to exists here. `existing`
/// is the conversation record already on the bus, if any. Returns the record
/// to write: a new one, the existing one with the packet's missing
/// participants added (and its update time set to `issued_at`), or `None`
/// when nothing changes. A conversation that exists with other privacy
/// settings is a conflict.
pub fn ensure_import_conversation(c: &MeshConversation, issued_at: &str, existing: Option<Meta>) -> (r: Result<Option<Meta>, RaftError>)
    ensures
        import_refusal(*c) matches Some(x) ==> (r matches Err(e) && e.code == x.0 && e.message@ == x.1),
        import_refusal(*c) is None ==> match existing {
            None => r matches Ok(Some(m)) && imported_meta(m, *c, issued_at@),
            Some(old) => if old.channel != c.channel || old.private != c.private {
                r matches Err(e) && e.code == ErrorCode::Conflict && e.message@ == "conversation "@
                    + debug_quoted(c.id@) + " already exists with different privacy"@
            } else {
                let added = newcomers(dedup(views(c.participants@)), views(old.participants@));
                if added.len() == 0 {
                    r matches Ok(None)
                } else {
                    r matches Ok(Some(m)) && views(m.participants@) == views(old.participants@) + added
                        && m.updated_at@ == issued_at@ && m.id == old.id && m.v == old.v && m.channel
                        == old.channel && m.private == old.private && m.state == old.state
                        && m.created_at == old.created_at && m.retention_days == old.retention_days
                        && m.rate == old.rate
                }
            },
        },
{
    let (id, ps) = validate_import_conversation(c)?;
    match existing {
        Some(meta) => {
            if meta.channel != c.channel || meta.private != c.private {
                let mut m = String::from_str("conversation ");
                m.append(debug_str(id.as_str()).as_str());
                m.append(" already exists with different privacy");
                return Err(refused(ErrorCode::Conflict, m));
            }
            let ghost old_ps = views(meta.participants@);
            let ghost pv = views(ps@);
            let ghost orig = meta;
            let mut meta = meta;
            let mut changed = false;
            let mut i: usize = 0;
            while i < ps.len()
                invariant
                    i <= ps@.len(),
                    pv == views(ps@),
                    pv == dedup(views(c.participants@)),
                    views(meta.participants@) == old_ps + newcomers(pv.take(i as int), old_ps),
                    changed == (newcomers(pv.take(i as int), old_ps).len() > 0),
                    meta.id == orig.id,
                    meta.v == orig.v,
                    meta.channel == orig.channel,
                    meta.private == orig.private,
                    meta.state == orig.state,
                    meta.created_at == orig.created_at,
                    meta.retention_days == orig.retention_days,
                    meta.rate == orig.rate,
                decreases ps@.len() - i,
            {
                proof {
                    assert(pv.take(i + 1).drop_last() =~= pv.take(i as int));
                    assert(pv.take(i + 1).last() == ps@[i as int]@);
                    crate::lists::lemma_dedup_distinct(views(c.participants@));
                    assert(pv[i as int] == ps@[i as int]@);
                    if newcomers(pv.take(i as int), old_ps).contains(ps@[i as int]@) {
                        lemma_newcomers_from(pv.take(i as int), old_ps, ps@[i as int]@);
                        let k = choose|k: int| 0 <= k < pv.take(i as int).len() && pv.take(i as int)[k] == ps@[i as int]@;
                        assert(pv.take(i as int)[k] == pv[k]);
                        assert(false);
                    }
                    let x = ps@[i as int]@;
                    let nw = newcomers(pv.take(i as int), old_ps);
                    if (old_ps + nw).contains(x) {
                        let k = choose|k: int| 0 <= k < (old_ps + nw).len() && (old_ps + nw)[k] == x;
                        if k >= old_ps.len() {
                            assert(nw[k - old_ps.len()] == x);
                        } else {
                            assert(old_ps[k] == x);
                        }
                    }
                    if old_ps.contains(x) {
                        let k = choose|k: int| 0 <= k < old_ps.len() && old_ps[k] == x;
                        assert((old_ps + nw)[k] == x);
                    }
                    assert((old_ps + nw).contains(x) == old_ps.contains(x));
                }
                let ghost before = meta.participants@;
                if !contains_str(meta.participants.as_slice(), ps[i].as_str()) {
                    meta.participants.push(ps[i].clone());
                    changed = true;
                    proof {
                        assert(views(meta.participants@) =~= views(before).push(ps@[i as int]@));
                    }
                }
                proof {
                    assert(views(meta.participants@) =~= old_ps + newcomers(pv.take(i + 1), old_ps));
                }
                i = i + 1;
            }
            assert(pv.take(ps@.len() as int) =~= pv);
            if changed {
                meta.updated_at = String::from_str(issued_at);
                Ok(Some(meta))
            } else {
                Ok(None)
            }
        },
        None => {
            Ok(Some(Meta {
                v: 1,
                id,
                participants: ps,
                channel: c.channel,
                private: c.private,
                state: String::from_str("open"),
                created_at: String::from_str(issued_at),
                updated_at: String::from_str(issued_at),
                retention_days: 14,
                rate: Rate {
                    window_seconds: DEFAULT_RATE_WINDOW_SECONDS,
                    max_messages_per_sender: DEFAULT_RATE_MAX_MESSAGES,
                    max_message_bytes: DEFAULT_MAX_MESSAGE_BYTES,
                },
            }))
        },
    }
}

proof fn lemma_newcomers_from(ps: Seq<Seq<char>>, existing: Seq<Seq<char>>, x: Seq<char>)
    requires
        newcomers(ps, existing).contains(x),
    ensures
        ps.contains(x),
    decreases ps.len(),
{
    if ps.len() > 0 {
        let p = newcomers(ps.drop_last(), existing);
        if p.contains(x) {
            lemma_newcomers_from(ps.drop_last(), existing, x);
            let k = choose|k: int| 0 <= k < ps.drop_last().len() && ps.drop_last()[k] == x;
            assert(ps[k] == x);
        } else {
            assert(ps.last() == x);
            assert(ps[ps.len() - 1] == x);
        }
    }
}

/// What importing a record did: wrote it, or found it already present.
#[derive(Clone, Copy, PartialEq, Eq, Structural)]
pub struct ImportOutcome {
    pub imported: bool,
    pub duplicate: bool,
}

/// Whether two records carry the same content hash and signature.
pub open spec fn same_signed_content(a: JsonValue, b: JsonValue) -> bool {
    str_field(a, "hash"@) == str_field(b, "hash"@) && str_field(a, "sig"@) == str_field(b, "sig"@)
}

fn same_field(a: &JsonValue, b: &JsonValue, key: &str) -> (r: bool)
    ensures
        r == (str_field(*a, key@) == str_field(*b, key@)),
{
    match (string_field(a, key), string_field(b, key)) {
        (Some(x), Some(y)) => str_eq(x.as_str(), y.as_str()),
        (None, None) => true,
        _ => false,
    }
}

/// The record was written.
pub open spec fn written() -> ImportOutcome {
    ImportOutcome { imported: true, duplicate: false }
}

/// The record was already present.
pub open spec fn already_present() -> ImportOutcome {
    ImportOutcome { imported: false, duplicate: true }
}

/// Import a message record (id `message_id`) where `existing` is the record
/// already stored under that id, if any: the same signed content is a
/// duplicate, other content a conflict; otherwise it is written.
pub fn import_message(existing: Option<&JsonValue>, message_id: &str, incoming: &JsonValue) -> (r: Result<ImportOutcome, RaftError>)
    ensures
        match existing {
            None => r == Ok::<ImportOutcome, RaftError>(written()),
            Some(old) => if same_signed_content(*old, *incoming) {
                r == Ok::<ImportOutcome, RaftError>(already_present())
            } else {
                r matches Err(e) && e.code == ErrorCode::Conflict && e.message@ == "message "@ + debug_quoted(
                    message_id@,
                ) + " already exists with different content"@
            },
        },
{
    match existing {
        None => Ok(ImportOutcome { imported: true, duplicate: false }),
        Some(old) => {
            if same_field(old, incoming, "hash") && same_field(old, incoming, "sig") {
                Ok(ImportOutcome { imported: false, duplicate: true })
            } else {
                let mut m = String::from_str("message ");
                m.append(debug_str(message_id).as_str());
                m.append(" already exists with different content");
                Err(refused(ErrorCode::Conflict, m))
            }
        },
    }
}

/// What importing a receipt over a stored one does: the same signed content
/// is a duplicate; otherwise the newer update wins, and an incoming receipt
/// no newer than the stored one counts as a duplicate. Both update times
/// must be RFC 3339.
pub open spec fn receipt_import(existing: Option<(Receipt, JsonValue)>, incoming: Receipt, record: JsonValue) -> Result<ImportOutcome, Refusal> {
    match existing {
        None => Ok(written()),
        Some((old, old_record)) => if same_signed_content(old_record, record) {
            Ok(already_present())
        } else {
            match rfc3339_instant(old.updated_at@) {
                None => Err((ErrorCode::Parse, "stored receipt updated_at is not an RFC3339 timestamp"@)),
                Some(t0) => match rfc3339_instant(incoming.updated_at@) {
                    None => Err((ErrorCode::Parse, "incoming receipt updated_at is not an RFC3339 timestamp"@)),
                    Some(t1) => if instant_lt(t0, t1) {
                        Ok(written())
                    } else {
                        Ok(already_present())
                    },
                },
            }
        },
    }
}

/// Import a receipt (with its JSON record) over the stored one, if any.
pub fn import_receipt(existing: Option<(&Receipt, &JsonValue)>, incoming: &Receipt, record: &JsonValue) -> (r: Result<ImportOutcome, RaftError>)
    ensures
        match receipt_import(
            match existing {
                Some((a, b)) => Some((*a, *b)),
                None => None,
            },
            *incoming,
            *record,
        ) {
            Ok(o) => r == Ok::<ImportOutcome, RaftError>(o),
            Err(x) => r matches Err(e) && e.code == x.0 && e.message@ == x.1,
        },
{
    match existing {
        None => Ok(ImportOutcome { imported: true, duplicate: false }),
        Some((old, old_record)) => {
            if same_field(old_record, record, "hash") && same_field(old_record, record, "sig") {
                return Ok(ImportOutcome { imported: false, duplicate: true });
            }
            let t0 = match parse_time(old.updated_at.as_str()) {
                Some(t) => t,
                None => {
                    return Err(refused(
                        ErrorCode::Parse,
                        String::from_str("stored receipt updated_at is not an RFC3339 timestamp"),
                    ));
                },
            };
            let t1 = match parse_time(incoming.updated_at.as_str()) {
                Some(t) => t,
                None => {
                    return Err(refused(
                        ErrorCode::Parse,
                        String::from_str("incoming receipt updated_at is not an RFC3339 timestamp"),
                    ));
                },
            };
            if crate::time::instant_before(t0, t1) {
                Ok(ImportOutcome { imported: true, duplicate: false })
            } else {
                Ok(ImportOutcome { imported: false, duplicate: true })
            }
        },
    }
}

/// A stored message found by id: `found` is the first conversation (in
/// path order) holding a file for it, with that file's path and what
/// reading it gave.
pub fn find_message(message_id: &str, found: Option<(String, Result<Option<Message>, RaftError>)>) -> (r: Result<(String, Message), RaftError>)
    ensures
        !id_valid(message_id@) ==> (r matches Err(e) && e.code == ErrorCode::Error && e.message@
            == invalid_id_message("message id"@, message_id@)),
        id_valid(message_id@) ==> match found {
            None => r matches Err(e) && e.code == ErrorCode::NotFound && e.message@ == "message "@
                + debug_quoted(message_id@) + " was not found"@,
            Some((path, Err(e0))) => r == Err::<(String, Message), RaftError>(e0),
            Some((path, Ok(None))) => r matches Err(e) && e.code == ErrorCode::Error && e.message@
                == "message file disappeared: "@ + path@,
            Some((path, Ok(Some(m)))) => r == Ok::<(String, Message), RaftError>((path, m)),
        },
{
    validate_id(message_id, "message id")?;
    match found {
        None => {
            let mut m = String::from_str("message ");
            m.append(debug_str(message_id).as_str());
            m.append(" was not found");
            Err(refused(ErrorCode::NotFound, m))
        },
        Some((path, Err(e))) => Err(e),
        Some((path, Ok(None))) => {
            let mut m = String::from_str("message file disappeared: ");
            m.append(path.as_str());
            Err(refused(ErrorCode::Error, m))
        },
        Some((path, Ok(Some(msg)))) => Ok((path, msg)),
    }
}

/// A conversation's record: `read` is what reading its `meta.json` gave.
pub fn load_conversation(conversation_id: &str, read: Result<Option<Meta>, RaftError>) -> (r: Result<Meta, RaftError>)
    ensures
        !id_valid(conversation_id@) ==> (r matches Err(e) && e.code == ErrorCode::Error && e.message@
            == invalid_id_message("conversation id"@, conversation_id@)),
        id_valid(conversation_id@) ==> match read {
            Err(e0) => r == Err::<Meta, RaftError>(e0),
            Ok(None) => r matches Err(e) && e.code == ErrorCode::NotFound && e.message@ == "conversation "@
                + debug_quoted(conversation_id@) + " does not exist"@,
            Ok(Some(m)) => r == Ok::<Meta, RaftError>(m),
        },
{
    validate_id(conversation_id, "conversation id")?;
    match read {
        Err(e) => Err(e),
        Ok(None) => {
            let mut m = String::from_str("conversation ");
            m.append(debug_str(conversation_id).as_str());
            m.append(" does not exist");
            Err(refused(ErrorCode::NotFound, m))
        },
        Ok(Some(meta)) => Ok(meta),
    }
}

/// The route of an export: both node ids must be valid.
pub fn export_route(from_node: &str, to_node: Option<&str>) -> (r: Result<PacketRoute, RaftError>)
    ensures
        r is Ok <==> id_valid(from_node@) && !(to_node matches Some(t) && !id_valid(t@)),
        r matches Ok(rt) ==> rt.from_node@ == from_node@ && opt_view(rt.to_node) == crate::doctor::opt_seq(
            to_node,
        ),
        !id_valid(from_node@) ==> (r matches Err(e) && e.message@ == invalid_id_message("node id"@, from_node@)),
{
    let from = validate_id(from_node, "node id")?;
    let to = match to_node {
        Some(t) => Some(validate_id(t, "node id")?),
        None => None,
    };
    Ok(PacketRoute { from_node: from, to_node: to })
}

/// Whether [`build_packet`] signs a record for `author`: a valid id, a
/// signing key bound to it, and a record whose signature checks out.
pub open spec fn export_signable(
    author: Seq<char>,
    record: JsonValue,
    agent: Result<Option<Agent>, RaftError>,
    passport: Option<Passport>,
    keypair: Result<Option<Keypair>, RaftError>,
) -> bool {
    &&& id_valid(author)
    &&& can_sign(author, agent, passport, keypair)
    &&& record_refusal(record, passport->Some_0@.pubkey, Seq::empty(), "record"@) is None
}

/// Export a stored message as a packet. `found` is the message's file as
/// [`find_message`] takes it, `meta` what reading its conversation gave,
/// `record` the message file as a JSON document; the rest is as
/// [`build_packet`] takes it. The ids are checked before anything else.
pub fn cmd_mesh_export_message(
    message: &str,
    from_node: &str,
    to_node: Option<&str>,
    found: Option<(String, Result<Option<Message>, RaftError>)>,
    meta: Result<Option<Meta>, RaftError>,
    record: JsonValue,
    agent: Result<Option<Agent>, RaftError>,
    passport: Option<Passport>,
    keypair: Result<Option<Keypair>, RaftError>,
    nonce: String,
    issued_at: String,
) -> (r: Result<MeshPacket, RaftError>)
    requires
        passport matches Some(p) ==> passport_verify_safe(p@),
        passport matches Some(p) ==> !record_check_panics(record, p@.pubkey, Seq::empty()),
    ensures
        !id_valid(message@) ==> (r matches Err(e) && e.message@ == invalid_id_message("message id"@, message@)),
        r is Ok <==> id_valid(message@) && id_valid(from_node@) && !(to_node matches Some(t) && !id_valid(t@))
            && match found {
            Some((_, Ok(Some(m)))) => id_valid(m.conversation_id@) && (meta matches Ok(Some(_))) && export_signable(
                m.from@,
                record,
                agent,
                passport,
                keypair,
            ),
            _ => false,
        },
        r matches Ok(pk) ==> match (found, meta) {
            (Some((_, Ok(Some(m)))), Ok(Some(mt))) => unsigned_packet(
                pk,
                m.from@,
                "message"@,
                m.id@,
                record,
                mt,
                from_node@,
                crate::doctor::opt_seq(to_node),
                passport->Some_0@,
                record_hash_of(record),
                nonce@,
                issued_at@,
            ) && passport_refusal(pk) is None && signature_refusal(pk) is None,
            _ => false,
        },
        (id_valid(message@) && id_valid(from_node@) && !(to_node matches Some(t) && !id_valid(t@))
            && found is None) ==> (r matches Err(e) && e.code == ErrorCode::NotFound),
{
    validate_id(message, "message id")?;
    let route = export_route(from_node, to_node)?;
    let (_path, m) = find_message(message, found)?;
    let meta = load_conversation(m.conversation_id.as_str(), meta)?;
    build_packet(
        m.from.as_str(),
        "message",
        m.id.as_str(),
        record,
        &meta,
        route,
        agent,
        passport,
        keypair,
        nonce,
        issued_at,
    )
}

/// Export an agent's receipt for a stored message as a packet. `receipt`
/// is what reading the receipt file gave and `record` that file as a JSON
/// document; the rest is as [`cmd_mesh_export_message`] takes it.
pub fn cmd_mesh_export_receipt(
    message: &str,
    agent_id: &str,
    from_node: &str,
    to_node: Option<&str>,
    found: Option<(String, Result<Option<Message>, RaftError>)>,
    receipt: Result<Option<Receipt>, RaftError>,
    meta: Result<Option<Meta>, RaftError>,
    record: JsonValue,
    agent: Result<Option<Agent>, RaftError>,
    passport: Option<Passport>,
    keypair: Result<Option<Keypair>, RaftError>,
    nonce: String,
    issued_at: String,
) -> (r: Result<MeshPacket, RaftError>)
    requires
        passport matches Some(p) ==> passport_verify_safe(p@),
        passport matches Some(p) ==> !record_check_panics(record, p@.pubkey, Seq::empty()),
    ensures
        !id_valid(message@) ==> (r matches Err(e) && e.message@ == invalid_id_message("message id"@, message@)),
        (id_valid(message@) && !id_valid(agent_id@)) ==> (r matches Err(e) && e.message@ == invalid_id_message(
            "agent id"@,
            agent_id@,
        )),
        r is Ok <==> id_valid(message@) && id_valid(agent_id@) && id_valid(from_node@) && !(to_node matches Some(t)
            && !id_valid(t@)) && match (found, receipt) {
            (Some((_, Ok(Some(m)))), Ok(Some(rc))) => id_valid(m.conversation_id@) && (meta matches Ok(Some(_)))
                && export_signable(rc.agent@, record, agent, passport, keypair),
            _ => false,
        },
        r matches Ok(pk) ==> match (receipt, meta) {
            (Ok(Some(rc)), Ok(Some(mt))) => unsigned_packet(
                pk,
                rc.agent@,
                "receipt"@,
                receipt_record_id(rc),
                record,
                mt,
                from_node@,
                crate::doctor::opt_seq(to_node),
                passport->Some_0@,
                record_hash_of(record),
                nonce@,
                issued_at@,
            ) && passport_refusal(pk) is None && signature_refusal(pk) is None,
            _ => false,
        },
        (id_valid(message@) && id_valid(agent_id@) && id_valid(from_node@) && !(to_node matches Some(t)
            && !id_valid(t@)) && (found matches Some((p, Ok(Some(m))))) && (receipt matches Ok(None))) ==> (r matches Err(e)
            && e.code == ErrorCode::NotFound && e.message@ == "no receipt for message "@ + debug_quoted(message@)
            + " by @"@ + agent_id@),
{
    validate_id(message, "message id")?;
    validate_id(agent_id, "agent id")?;
    let route = export_route(from_node, to_node)?;
    let (_path, _m) = find_message(message, found)?;
    let rc = match receipt {
        Err(e) => {
            return Err(e);
        },
        Ok(None) => {
            let mut t = String::from_str("no receipt for message ");
            t.append(debug_str(message).as_str());
            t.append(" by @");
            t.append(agent_id);
            return Err(refused(ErrorCode::NotFound, t));
        },
        Ok(Some(rc)) => rc,
    };
    let meta = load_conversation(_m.conversation_id.as_str(), meta)?;
    let mut rid = rc.message_id.clone();
    rid.append("-");
    rid.append(rc.agent.as_str());
    build_packet(
        rc.agent.as_str(),
        "receipt",
        rid.as_str(),
        record,
        &meta,
        route,
        agent,
        passport,
        keypair,
        nonce,
        issued_at,
    )
}

/// How long, in seconds, an agent claim lasts without a heartbeat.
pub const DEFAULT_AGENT_TTL_SECONDS: u64 = 120;

/// The claim a receiving node records for a packet's author it did not know:
/// bound to the packet's key, away, and already expired.
pub open spec fn remote_agent_of(a: Agent, p: MeshPacket) -> bool {
    &&& a.v == 1
    &&& a.id@ == p.author@
    &&& a.mention@ == "@"@ + p.author@
    &&& a.workspace is None
    &&& views(a.capabilities@) == p.passport@.capabilities
    &&& a.pubkey == Some(p.author_pubkey)
    &&& a.pid == 0
    &&& a.host@ == "mesh:"@ + p.from_node@
    &&& a.last_seen_at@ == p.issued_at@
    &&& a.ttl_seconds == DEFAULT_AGENT_TTL_SECONDS
    &&& a.expires_at@ == "1970-01-01T00:00:00.000Z"@
    &&& a.current_state@ == "away"@
    &&& opt_view(a.state_note) == Some("imported from mesh packet"@)
    &&& a.state_updated_at@ == p.issued_at@
}

/// The claim to record for a packet's author when none exists here.
pub fn remote_agent(p: &MeshPacket) -> (a: Agent)
    ensures
        remote_agent_of(a, *p),
{
    let mut mention = String::from_str("@");
    mention.append(p.author.as_str());
    let mut host = String::from_str("mesh:");
    host.append(p.from_node.as_str());
    Agent {
        v: 1,
        id: p.author.clone(),
        mention,
        workspace: None,
        capabilities: copy_strings(&p.passport.capabilities),
        pid: 0,
        host,
        last_seen_at: p.issued_at.clone(),
        ttl_seconds: DEFAULT_AGENT_TTL_SECONDS,
        expires_at: String::from_str("1970-01-01T00:00:00.000Z"),
        current_state: String::from_str("away"),
        state_note: Some(String::from_str("imported from mesh packet")),
        state_updated_at: p.issued_at.clone(),
        pubkey: Some(p.author_pubkey.clone()),
    }
}

/// After an import, every participant the packet names belongs to the
/// conversation: those already there stay, the missing ones are added.
pub proof fn lemma_import_covers_participants(ps: Seq<Seq<char>>, existing: Seq<Seq<char>>)
    ensures
        forall|x: Seq<char>| ps.contains(x) ==> (existing + newcomers(ps, existing)).contains(x),
        forall|x: Seq<char>| existing.contains(x) ==> (existing + newcomers(ps, existing)).contains(x),
    decreases ps.len(),
{
    let all = existing + newcomers(ps, existing);
    assert forall|x: Seq<char>| existing.contains(x) implies all.contains(x) by {
        let i = choose|i: int| 0 <= i < existing.len() && existing[i] == x;
        assert(all[i] == x);
    }
    if ps.len() > 0 {
        lemma_import_covers_participants(ps.drop_last(), existing);
        let prev = existing + newcomers(ps.drop_last(), existing);
        let tail = if existing.contains(ps.last()) {
            Seq::<Seq<char>>::empty()
        } else {
            seq![ps.last()]
        };
        assert(all =~= prev + tail);
        assert forall|x: Seq<char>| ps.contains(x) implies all.contains(x) by {
            let i = choose|i: int| 0 <= i < ps.len() && ps[i] == x;
            if i < ps.len() - 1 {
                assert(ps.drop_last()[i] == x);
                assert(ps.drop_last().contains(x));
                assert(prev.contains(x));
                let j = choose|j: int| 0 <= j < prev.len() && prev[j] == x;
                assert(all[j] == x);
            } else if !existing.contains(x) {
                assert(all[all.len() - 1] == x);
            }
        }
    }
}

/// The content hash a signed record carries: the hash of its canonical form
/// without `hash` and `sig`.
pub fn signed_record_hash(record: &JsonValue) -> (r: String)
    ensures
        r@ == record_hash_of(*record),
{
    let omit = ["hash", "sig"];
    proof {
        assert(str_views(omit@) =~= seq!["hash"@, "sig"@]);
    }
    sha256_hex(canonical_omitting(record, &omit).as_slice())
}

/// Check a record of this node against the key it must be signed by.
pub fn verify_local_record(record: &JsonValue, expected_pubkey: &str) -> (r: Result<String, RaftError>)
    requires
        !record_check_panics(*record, expected_pubkey@, Seq::empty()),
    ensures
        match record_refusal(*record, expected_pubkey@, Seq::empty(), "record"@) {
            Some(m) => r matches Err(e) && e.code == ErrorCode::AuthFailed && e.message@ == m,
            None => r matches Ok(h) && h@ == record_hash_of(*record),
        },
{
    proof {
        reveal_strlit("");
    }
    verify_record_value(record, expected_pubkey, "", "record")
}

} // verus!
