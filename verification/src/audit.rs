//! The doctor's checks on signed records: an agent's claimed key, the
//! content hash and signature a message or receipt carries.

use vstd::prelude::*;
use crate::capability::opt_view;
use crate::crypto::{
    hash_text, parse_pubkey, parsed_pubkey, pubkey_error, pubkey_panics, sha256_hex,
    signature_valid, verify, verify_error, verify_safe,
};
use crate::doctor::{
    doctor_read_outcome, error_at, parsed, read_findings, warning_at, found_if, DoctorReport, Finding,
    Loaded,
};
use crate::json::{canonical_omitting, omitting_text, str_views, utf8, JsonMember, JsonValue};
use crate::records::Agent;
use crate::text::{debug_quoted, debug_str, str_eq};

verus! {

broadcast use vstd::std_specs::vec::group_vec_axioms, vstd::seq::group_seq_axioms;

/// The text of the first member named `key` among `members[i..]`, when that
/// member holds a string.
pub open spec fn member_str_from(members: Seq<JsonMember>, key: Seq<char>, i: int) -> Option<Seq<char>>
    decreases members.len() - i,
{
    if i < 0 || i >= members.len() {
        None
    } else if members[i].key@ == key {
        match members[i].value {
            JsonValue::Str(s) => Some(s@),
            _ => None,
        }
    } else {
        member_str_from(members, key, i + 1)
    }
}

/// The string field `key` of an object; `None` when absent or not a string
/// (a field left unset serializes as `null`).
pub open spec fn str_field(v: JsonValue, key: Seq<char>) -> Option<Seq<char>> {
    match v {
        JsonValue::Object(members) => member_str_from(members@, key, 0),
        _ => None,
    }
}

pub fn string_field(v: &JsonValue, key: &str) -> (r: Option<String>)
    ensures
        r matches Some(s) ==> str_field(*v, key@) == Some(s@),
        r is None ==> str_field(*v, key@) is None,
{
    match v {
        JsonValue::Object(members) => {
            let mut i: usize = 0;
            assert(str_field(*v, key@) == member_str_from(members@, key@, 0));
            while i < members.len()
                invariant
                    i <= members@.len(),
                    str_field(*v, key@) == member_str_from(members@, key@, 0),
                    member_str_from(members@, key@, 0) == member_str_from(members@, key@, i as int),
                decreases members@.len() - i,
            {
                if str_eq(members[i].key.as_str(), key) {
                    return match &members[i].value {
                        JsonValue::Str(s) => Some(s.clone()),
                        _ => None,
                    };
                }
                i = i + 1;
            }
            None
        },
        _ => None,
    }
}

/// The error about a claimed key that does not parse, reported at the
/// signed record that needed it.
pub open spec fn author_key_findings(record_path: Seq<char>, agent_id: Seq<char>, agent: Option<Agent>) -> Seq<Finding> {
    match agent {
        Some(a) => match a.pubkey {
            Some(pk) => found_if(
                parsed_pubkey(pk@) is None,
                error_at(
                    "invalid_agent_pubkey"@,
                    record_path,
                    "cannot verify @"@ + agent_id + ": "@ + pubkey_error(pk@),
                ),
            ),
            None => Seq::empty(),
        },
        None => Seq::empty(),
    }
}

/// The key an author's claim carries, when it parses.
pub open spec fn author_key(agent: Option<Agent>) -> Option<Seq<char>> {
    match agent {
        Some(a) => match a.pubkey {
            Some(pk) => if parsed_pubkey(pk@) is Some { Some(pk@) } else { None },
            None => None,
        },
        None => None,
    }
}

pub open spec fn loaded_key_panics(loaded: Loaded<Agent>) -> bool {
    loaded matches Loaded::Parsed(a) && a.pubkey matches Some(pk) && pubkey_panics(pk@)
}

/// The public key `agent_id` has claimed, read from its agent record at
/// `agent_path`, for checking the signed record at `record_path`. Problems
/// reading the agent record are reported there; a key that does not parse
/// is reported at the signed record.
pub fn doctor_agent_pubkey(
    report: &mut DoctorReport,
    record_path: &str,
    agent_id: &str,
    agent_path: &str,
    loaded: &Loaded<Agent>,
) -> (r: Option<String>)
    requires
        !loaded_key_panics(*loaded),
    ensures
        final(report).log() == old(report).log() + read_findings(agent_path@, *loaded)
            + author_key_findings(record_path@, agent_id@, parsed(*loaded)),
        final(report).same_but_log(old(report)),
        r matches Some(k) ==> author_key(parsed(*loaded)) == Some(k@),
        r is None ==> author_key(parsed(*loaded)) is None,
{
    let ghost l0 = report.log();
    let ghost lv = *loaded;
    let agent = doctor_read_outcome(report, agent_path, loaded);
    let ghost l1 = report.log();
    let r = match agent {
        Some(a) => match &a.pubkey {
            Some(pk) => {
                match parse_pubkey(pk.as_str()) {
                    Ok(_) => Some(pk.clone()),
                    Err(e) => {
                        let mut m = String::from_str("cannot verify @");
                        m.append(agent_id);
                        m.append(": ");
                        m.append(e.message.as_str());
                        report.error(record_path, "invalid_agent_pubkey", m);
                        None
                    },
                }
            },
            None => None,
        },
        None => None,
    };
    assert(final(report).log() =~= l1 + author_key_findings(record_path@, agent_id@, parsed(lv)));
    r
}

/// The stored content hash against the canonical one: the record's
/// canonical bytes without `hash` and `sig`, hashed.
pub open spec fn hash_findings(path: Seq<char>, record_type: Seq<char>, hash: Seq<char>, record: JsonValue) -> Seq<Finding> {
    let expected = hash_text(utf8(omitting_text(record, seq!["hash"@, "sig"@])));
    found_if(
        hash != expected,
        error_at(
            "invalid_"@ + record_type + "_hash"@,
            path,
            "stored hash "@ + debug_quoted(hash) + " does not match canonical "@ + debug_quoted(expected),
        ),
    )
}

/// The bytes a record's signature covers: its canonical form without `sig`.
pub open spec fn signed_bytes(record: JsonValue) -> Seq<u8> {
    utf8(omitting_text(record, seq!["sig"@]))
}

/// The findings on a signed record by `author`, whose claimed key is `key`
/// (`None` when the author has no usable claimed key): the signer must be
/// that key, and the hash and signature must be present and match.
pub open spec fn signed_record_findings(
    path: Seq<char>,
    record_type: Seq<char>,
    author: Seq<char>,
    key: Option<Seq<char>>,
    record: JsonValue,
) -> Seq<Finding> {
    let signer = str_field(record, "signer_key"@);
    let hash = str_field(record, "hash"@);
    let sig = str_field(record, "sig"@);
    let by = record_type + " by @"@ + author;
    match key {
        None => found_if(
            signer is Some || hash is Some || sig is Some,
            warning_at(
                "unverified_"@ + record_type + "_signature"@,
                path,
                "cannot verify "@ + record_type + " signature because @"@ + author
                    + " has no claimed pubkey"@,
            ),
        ),
        Some(k) => match signer {
            None => seq![error_at("missing_"@ + record_type + "_signer"@, path, by + " is missing signer_key"@)],
            Some(sk) => if sk != k {
                seq![
                    error_at(
                        record_type + "_signer_mismatch"@,
                        path,
                        record_type + " signer key does not match @"@ + author + "'s claimed pubkey"@,
                    ),
                ]
            } else {
                match hash {
                    None => seq![error_at("missing_"@ + record_type + "_hash"@, path, by + " is missing hash"@)],
                    Some(h) => match sig {
                        None => seq![
                            error_at("missing_"@ + record_type + "_signature"@, path, by + " is missing sig"@),
                        ],
                        Some(sg) => hash_findings(path, record_type, h, record) + found_if(
                            !signature_valid(sk, signed_bytes(record), sg),
                            error_at("invalid_"@ + record_type + "_signature"@, path, verify_error(sk, sg)),
                        ),
                    },
                }
            },
        },
    }
}

/// Whether checking the record's signature would panic: its signer and
/// signature texts slice off a character boundary.
pub open spec fn signature_check_panics(record: JsonValue) -> bool {
    match (str_field(record, "signer_key"@), str_field(record, "sig"@)) {
        (Some(sk), Some(sg)) => !verify_safe(sk, sg),
        _ => false,
    }
}

fn check_record_hash(report: &mut DoctorReport, path: &str, record_type: &str, hash: &str, record: &JsonValue)
    ensures
        final(report).log() == old(report).log() + hash_findings(path@, record_type@, hash@, *record),
        final(report).same_but_log(old(report)),
{
    let omit = ["hash", "sig"];
    proof {
        assert(str_views(omit@) =~= seq!["hash"@, "sig"@]);
    }
    let bytes = canonical_omitting(record, &omit);
    let expected = sha256_hex(bytes.as_slice());
    if !str_eq(hash, expected.as_str()) {
        let mut code = String::from_str("invalid_");
        code.append(record_type);
        code.append("_hash");
        let mut m = String::from_str("stored hash ");
        m.append(debug_str(hash).as_str());
        m.append(" does not match canonical ");
        m.append(debug_str(expected.as_str()).as_str());
        report.error(path, code.as_str(), m);
    }
    assert(final(report).log() =~= old(report).log() + hash_findings(path@, record_type@, hash@, *record));
}

fn appended(s: String, t: &str) -> (r: String)
    ensures
        r@ == s@ + t@,
{
    let mut s = s;
    s.append(t);
    s
}

fn prefixed_code(a: &str, b: &str, c: &str) -> (r: String)
    ensures
        r@ == a@ + b@ + c@,
{
    let mut s = String::from_str(a);
    s.append(b);
    s.append(c);
    s
}

/// Check the signature fields of a record by `author` at `path`; `key` is
/// what [`doctor_agent_pubkey`] found for the author.
pub fn doctor_check_signed_record(
    report: &mut DoctorReport,
    path: &str,
    record_type: &str,
    author: &str,
    key: Option<String>,
    record: &JsonValue,
)
    requires
        !signature_check_panics(*record),
    ensures
        final(report).log() == old(report).log() + signed_record_findings(
            path@,
            record_type@,
            author@,
            opt_view(key),
            *record,
        ),
        final(report).same_but_log(old(report)),
{
    let ghost l0 = report.log();
    let ghost kv = opt_view(key);
    let signer = string_field(record, "signer_key");
    let hash = string_field(record, "hash");
    let sig = string_field(record, "sig");
    let rt = record_type;
    let k = match key {
        None => {
            if signer.is_some() || hash.is_some() || sig.is_some() {
                let mut m = String::from_str("cannot verify ");
                m.append(rt);
                m.append(" signature because @");
                m.append(author);
                m.append(" has no claimed pubkey");
                report.warn(path, prefixed_code("unverified_", rt, "_signature").as_str(), m);
            }
            assert(report.log() =~= l0 + signed_record_findings(path@, rt@, author@, kv, *record));
            return;
        },
        Some(k) => k,
    };
    let sk = match signer {
        None => {
            report.error(
                path,
                prefixed_code("missing_", rt, "_signer").as_str(),
                appended(prefixed_code(rt, " by @", author), " is missing signer_key"),
            );
            assert(report.log() =~= l0 + signed_record_findings(path@, rt@, author@, kv, *record));
            return;
        },
        Some(s) => s,
    };
    if !str_eq(sk.as_str(), k.as_str()) {
        let mut m = String::from_str(rt);
        m.append(" signer key does not match @");
        m.append(author);
        m.append("'s claimed pubkey");
        report.error(path, appended(String::from_str(rt), "_signer_mismatch").as_str(), m);
        assert(report.log() =~= l0 + signed_record_findings(path@, rt@, author@, kv, *record));
        return;
    }
    let h = match hash {
        None => {
            report.error(
                path,
                prefixed_code("missing_", rt, "_hash").as_str(),
                appended(prefixed_code(rt, " by @", author), " is missing hash"),
            );
            assert(report.log() =~= l0 + signed_record_findings(path@, rt@, author@, kv, *record));
            return;
        },
        Some(h) => h,
    };
    let sg = match sig {
        None => {
            report.error(
                path,
                prefixed_code("missing_", rt, "_signature").as_str(),
                appended(prefixed_code(rt, " by @", author), " is missing sig"),
            );
            assert(report.log() =~= l0 + signed_record_findings(path@, rt@, author@, kv, *record));
            return;
        },
        Some(s) => s,
    };
    check_record_hash(report, path, rt, h.as_str(), record);
    let ghost l1 = report.log();
    let omit = ["sig"];
    proof {
        assert(str_views(omit@) =~= seq!["sig"@]);
    }
    let bytes = canonical_omitting(record, &omit);
    if let Err(e) = verify(sk.as_str(), bytes.as_slice(), sg.as_str()) {
        report.error(path, prefixed_code("invalid_", rt, "_signature").as_str(), e.message);
    }
    assert(report.log() =~= l0 + signed_record_findings(path@, rt@, author@, kv, *record));
}

} // verus!
