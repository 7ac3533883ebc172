use vstd::prelude::*;
use crate::error::{ErrorCode, RaftError};
use crate::hex::{byte_len, byte_len_of};
use vstd::string::StringSliceAdditionalSpecFns;
use crate::text::{
    char_is_ascii_alnum, char_is_control, char_is_id_char, chars_of, debug_quoted, debug_str,
    is_ascii_alnum, is_control, is_id_char, str_eq, string_of, strip_leading, strip_leading_chars,
};

verus! {

/// The schema version stamped on every record.
pub const SCHEMA_VERSION: u16 = 1;

/// The identifier grammar: 1-80 ASCII letters, digits, dots, dashes or
/// underscores, starting with a letter or digit.
pub open spec fn id_valid(s: Seq<char>) -> bool {
    &&& 1 <= s.len() <= 80
    &&& is_ascii_alnum(s[0])
    &&& forall|i: int| 0 <= i < s.len() ==> is_id_char(#[trigger] s[i])
}

pub open spec fn invalid_id_message(label: Seq<char>, value: Seq<char>) -> Seq<char> {
    "invalid "@ + label + " "@ + debug_quoted(value)
        + "; use 1-80 letters, digits, dots, dashes, or underscores"@
}

/// An error with the general category and the given message.
pub fn plain_error(message: String) -> (r: RaftError)
    ensures
        r.code == ErrorCode::Error,
        r.message@ == message@,
{
    RaftError { code: ErrorCode::Error, message }
}

pub(crate) fn invalid_id_error(label: &str, value: &[char]) -> (r: RaftError)
    ensures
        r.code == ErrorCode::Error,
        r.message@ == invalid_id_message(label@, value@),
{
    let v = string_of(value);
    let q = debug_str(v.as_str());
    let mut m = String::from_str("invalid ");
    m.append(label);
    m.append(" ");
    m.append(q.as_str());
    m.append("; use 1-80 letters, digits, dots, dashes, or underscores");
    plain_error(m)
}

/// Whether the characters form a valid identifier.
pub fn is_valid_id_chars(value: &[char]) -> (r: bool)
    ensures
        r == id_valid(value@),
{
    let n = value.len();
    if n == 0 || n > 80 || !char_is_ascii_alnum(value[0]) {
        return false;
    }
    let mut i: usize = 0;
    while i < n
        invariant
            n == value@.len(),
            i <= n,
            forall|j: int| 0 <= j < i ==> is_id_char(#[trigger] value@[j]),
        decreases n - i,
    {
        if !char_is_id_char(value[i]) {
            return false;
        }
        i = i + 1;
    }
    true
}

pub(crate) fn validate_id_chars(value: &[char], label: &str) -> (r: Result<String, RaftError>)
    ensures
        match r {
            Ok(v) => id_valid(value@) && v@ == value@,
            Err(e) => !id_valid(value@) && e.code == ErrorCode::Error
                && e.message@ == invalid_id_message(label@, value@),
        },
{
    if is_valid_id_chars(value) {
        Ok(string_of(value))
    } else {
        Err(invalid_id_error(label, value))
    }
}

/// Accepts `value` when it is a valid identifier; `label` names the field in
/// the error message.
pub fn validate_id(value: &str, label: &str) -> (r: Result<String, RaftError>)
    ensures
        match r {
            Ok(v) => id_valid(value@) && v@ == value@,
            Err(e) => !id_valid(value@) && e.code == ErrorCode::Error
                && e.message@ == invalid_id_message(label@, value@),
        },
{
    let chars = chars_of(value);
    validate_id_chars(chars.as_slice(), label)
}

/// Published presence states.
pub open spec fn is_agent_state(s: Seq<char>) -> bool {
    s == "idle"@ || s == "working"@ || s == "blocked"@ || s == "away"@
}

pub open spec fn invalid_state_message(value: Seq<char>) -> Seq<char> {
    "invalid state "@ + debug_quoted(value) + "; use idle, working, blocked, or away"@
}

pub fn validate_agent_state(value: &str) -> (r: Result<String, RaftError>)
    ensures
        match r {
            Ok(v) => is_agent_state(value@) && v@ == value@,
            Err(e) => !is_agent_state(value@) && e.code == ErrorCode::Error
                && e.message@ == invalid_state_message(value@),
        },
{
    if str_eq(value, "idle") || str_eq(value, "working") || str_eq(value, "blocked") || str_eq(
        value,
        "away",
    ) {
        Ok(String::from_str(value))
    } else {
        let q = debug_str(value);
        let mut m = String::from_str("invalid state ");
        m.append(q.as_str());
        m.append("; use idle, working, blocked, or away");
        Err(plain_error(m))
    }
}

/// Recognized acknowledgement statuses, in lifecycle order.
pub open spec fn is_ack_status(s: Seq<char>) -> bool {
    s == "received"@ || s == "accepted"@ || s == "working"@ || s == "blocked"@ || s == "done"@
        || s == "rejected"@
}

/// Statuses that close an open ask.
pub open spec fn is_terminal_status(s: Seq<char>) -> bool {
    s == "done"@ || s == "rejected"@
}

pub open spec fn invalid_status_message(value: Seq<char>) -> Seq<char> {
    "invalid status "@ + debug_quoted(value)
        + "; use one of: received, accepted, working, blocked, done, rejected"@
}

pub fn validate_ack_status(value: &str) -> (r: Result<String, RaftError>)
    ensures
        match r {
            Ok(v) => is_ack_status(value@) && v@ == value@,
            Err(e) => !is_ack_status(value@) && e.code == ErrorCode::Error
                && e.message@ == invalid_status_message(value@),
        },
{
    if str_eq(value, "received") || str_eq(value, "accepted") || str_eq(value, "working")
        || str_eq(value, "blocked") || str_eq(value, "done") || str_eq(value, "rejected") {
        Ok(String::from_str(value))
    } else {
        let q = debug_str(value);
        let mut m = String::from_str("invalid status ");
        m.append(q.as_str());
        m.append("; use one of: received, accepted, working, blocked, done, rejected");
        Err(plain_error(m))
    }
}

/// Whether an acknowledgement status closes an ask.
pub fn ask_is_terminal(status: &str) -> (r: bool)
    ensures
        r == is_terminal_status(status@),
{
    str_eq(status, "done") || str_eq(status, "rejected")
}

pub open spec fn reserved_kind_message() -> Seq<char> {
    "kind \"system\" is reserved for raft internals"@
}

pub open spec fn unsupported_kind_message(kind: Seq<char>) -> Seq<char> {
    "unsupported kind "@ + debug_quoted(kind) + "; use message, event, or receipt"@
}

/// Kinds a participant may send.
pub open spec fn is_send_kind(s: Seq<char>) -> bool {
    s == "message"@ || s == "event"@ || s == "receipt"@
}

pub fn normalize_send_kind(kind: &str) -> (r: Result<String, RaftError>)
    ensures
        match r {
            Ok(v) => is_send_kind(kind@) && v@ == kind@,
            Err(e) => !is_send_kind(kind@) && e.code == ErrorCode::Error && (if kind@ == "system"@ {
                e.message@ == reserved_kind_message()
            } else {
                e.message@ == unsupported_kind_message(kind@)
            }),
        },
{
    if str_eq(kind, "message") || str_eq(kind, "event") || str_eq(kind, "receipt") {
        Ok(String::from_str(kind))
    } else if str_eq(kind, "system") {
        Err(plain_error(String::from_str("kind \"system\" is reserved for raft internals")))
    } else {
        let q = debug_str(kind);
        let mut m = String::from_str("unsupported kind ");
        m.append(q.as_str());
        m.append("; use message, event, or receipt");
        Err(plain_error(m))
    }
}

pub open spec fn claim_too_short_message(id: Seq<char>) -> Seq<char> {
    "agent name @"@ + id + " is too short; choose a unique, personable name"@
}

/// A name an agent may claim: an identifier of at least three characters,
/// with any leading `@` dropped.
pub fn validate_claim_name(value: &str) -> (r: Result<String, RaftError>)
    ensures
        ({
            let id = strip_leading(value@, '@');
            match r {
                Ok(v) => id_valid(id) && id.len() >= 3 && v@ == id,
                Err(e) => e.code == ErrorCode::Error && (if !id_valid(id) {
                    e.message@ == invalid_id_message("agent name"@, id)
                } else {
                    id.len() < 3 && e.message@ == claim_too_short_message(id)
                }),
            }
        }),
{
    let chars = chars_of(value);
    let stripped = strip_leading_chars(chars.as_slice(), '@');
    let agent_id = validate_id_chars(stripped.as_slice(), "agent name")?;
    if stripped.len() < 3 {
        let mut m = String::from_str("agent name @");
        m.append(agent_id.as_str());
        m.append(" is too short; choose a unique, personable name");
        return Err(plain_error(m));
    }
    Ok(agent_id)
}

pub open spec fn subject_id_length_message() -> Seq<char> {
    "invalid subject id: use 1-160 printable characters"@
}

pub open spec fn subject_id_control_message() -> Seq<char> {
    "invalid subject id: control characters are not allowed"@
}

pub open spec fn subject_id_hash_message() -> Seq<char> {
    "invalid subject id: '#' is reserved for raft rate-limit keys"@
}

/// A bridge subject id: 1-160 bytes of UTF-8, no control characters, no `#`.
pub open spec fn subject_id_valid(s: Seq<char>) -> bool {
    &&& 1 <= byte_len(s) <= 160
    &&& forall|i: int| 0 <= i < s.len() ==> !is_control(#[trigger] s[i])
    &&& !s.contains('#')
}

/// The refusal of an invalid subject id.
pub open spec fn subject_id_error(s: Seq<char>) -> Seq<char> {
    if byte_len(s) == 0 || byte_len(s) > 160 {
        subject_id_length_message()
    } else if exists|i: int| 0 <= i < s.len() && is_control(#[trigger] s[i]) {
        subject_id_control_message()
    } else {
        subject_id_hash_message()
    }
}

pub fn validate_subject_id(value: &str) -> (r: Result<String, RaftError>)
    ensures
        match r {
            Ok(v) => subject_id_valid(value@) && v@ == value@,
            Err(e) => !subject_id_valid(value@) && e.code == ErrorCode::Error && e.message@ == subject_id_error(value@),
        },
{
    let chars = chars_of(value);
    let len = byte_len_of(chars.as_slice());
    if len == 0 || len > 160 {
        return Err(plain_error(String::from_str("invalid subject id: use 1-160 printable characters")));
    }
    let n = chars.len();
    let mut i: usize = 0;
    while i < n
        invariant
            n == chars@.len(),
            chars@ == value@,
            1 <= byte_len(value@) <= 160,
            i <= n,
            forall|j: int| 0 <= j < i ==> !is_control(#[trigger] chars@[j]),
        decreases n - i,
    {
        if char_is_control(chars[i]) {
            assert(is_control(value@[i as int]));
            return Err(plain_error(String::from_str("invalid subject id: control characters are not allowed")));
        }
        i = i + 1;
    }
    let mut k: usize = 0;
    while k < n
        invariant
            n == chars@.len(),
            chars@ == value@,
            1 <= byte_len(value@) <= 160,
            forall|j: int| 0 <= j < n ==> !is_control(#[trigger] chars@[j]),
            k <= n,
            forall|j: int| 0 <= j < k ==> #[trigger] chars@[j] != '#',
        decreases n - k,
    {
        if chars[k] == '#' {
            assert(value@[k as int] == '#');
            assert(value@.contains('#'));
            return Err(plain_error(String::from_str("invalid subject id: '#' is reserved for raft rate-limit keys")));
        }
        k = k + 1;
    }
    assert(!value@.contains('#')) by {
        if value@.contains('#') {
            let j = choose|j: int| 0 <= j < value@.len() && value@[j] == '#';
            assert(chars@[j] != '#');
        }
    }
    Ok(String::from_str(value))
}

/// The key under which sends are rate-limited: the sender, or the sender and
/// the subject id joined by `#`.
pub open spec fn rate_key_spec(sender: Seq<char>, subject_id: Option<Seq<char>>) -> Seq<char> {
    match subject_id {
        Some(s) => sender + "#"@ + s,
        None => sender,
    }
}

pub fn rate_key(sender: &str, subject_id: Option<&str>) -> (r: String)
    ensures
        r@ == rate_key_spec(sender@, match subject_id { Some(s) => Some(s@), None => None }),
{
    match subject_id {
        Some(s) => {
            let mut k = String::from_str(sender);
            k.append("#");
            k.append(s);
            k
        },
        None => String::from_str(sender),
    }
}

pub fn schema_v1() -> (r: u16)
    ensures
        r == SCHEMA_VERSION,
{
    SCHEMA_VERSION
}

pub fn default_agent_state() -> (r: String)
    ensures
        r@ == "idle"@,
{
    String::from_str("idle")
}

pub fn default_message_kind() -> (r: String)
    ensures
        r@ == "message"@,
{
    String::from_str("message")
}

} // verus!
