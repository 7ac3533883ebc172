//! Where records live under the bus root, and the small decisions the file
//! layer makes: which room a command targets, which files are agent records
//! or stale write leftovers, when a lock has expired.

use vstd::prelude::*;
use crate::error::{ErrorCode, RaftError};
use crate::http::starts_with;
use crate::lists::views;
use crate::text::{chars_of, str_eq};
use crate::time::{instant_lt, parse_time, rfc3339_instant};
use crate::util::{id_valid, invalid_id_message, validate_id};

verus! {

/// How long a lock directory without a readable owner may sit before it is
/// considered abandoned, seconds.
pub const LOCK_TTL_SECONDS: u64 = 30;

/// Age after which a leftover staged write is safe to reap, seconds.
pub const ORPHAN_TMP_STALE_SECONDS: u64 = 300;

/// `conversations/<id>`, for a valid conversation id.
pub fn conversation_path(conversation_id: &str) -> (r: Result<String, RaftError>)
    ensures
        match r {
            Ok(p) => id_valid(conversation_id@) && p@ == "conversations/"@ + conversation_id@,
            Err(e) => !id_valid(conversation_id@) && e.code == ErrorCode::Error && e.message@
                == invalid_id_message("conversation id"@, conversation_id@),
        },
{
    let id = validate_id(conversation_id, "conversation id")?;
    let mut p = String::from_str("conversations/");
    p.append(id.as_str());
    Ok(p)
}

pub open spec fn opt_str_view(o: Option<&str>) -> Option<Seq<char>> {
    match o {
        Some(s) => Some(s@),
        None => None,
    }
}

/// The room a command addresses: exactly one of a conversation or a channel.
pub fn target_room(conversation: Option<&str>, channel: Option<&str>) -> (r: Result<String, RaftError>)
    ensures
        match (opt_str_view(conversation), opt_str_view(channel)) {
            (Some(c), None) => if id_valid(c) {
                r matches Ok(id) && id@ == c
            } else {
                r matches Err(e) && e.message@ == invalid_id_message("conversation id"@, c)
            },
            (None, Some(c)) => if id_valid(c) {
                r matches Ok(id) && id@ == c
            } else {
                r matches Err(e) && e.message@ == invalid_id_message("channel id"@, c)
            },
            (None, None) => r matches Err(e) && e.message@ == "provide --conversation or --channel"@,
            (Some(_), Some(_)) => r matches Err(e) && e.message@
                == "provide only one of --conversation or --channel"@,
        },
        r matches Err(e) ==> e.code == ErrorCode::Error,
{
    match (conversation, channel) {
        (Some(c), None) => validate_id(c, "conversation id"),
        (None, Some(c)) => validate_id(c, "channel id"),
        (None, None) => Err(RaftError::coded(ErrorCode::Error, String::from_str("provide --conversation or --channel"))),
        (Some(_), Some(_)) => Err(
            RaftError::coded(ErrorCode::Error, String::from_str("provide only one of --conversation or --channel")),
        ),
    }
}

/// Like [`target_room`], but naming no room is allowed.
pub fn optional_target_room(conversation: Option<&str>, channel: Option<&str>) -> (r: Result<Option<String>, RaftError>)
    ensures
        match (opt_str_view(conversation), opt_str_view(channel)) {
            (Some(c), None) => if id_valid(c) {
                r matches Ok(Some(id)) && id@ == c
            } else {
                r matches Err(e) && e.message@ == invalid_id_message("conversation id"@, c)
            },
            (None, Some(c)) => if id_valid(c) {
                r matches Ok(Some(id)) && id@ == c
            } else {
                r matches Err(e) && e.message@ == invalid_id_message("channel id"@, c)
            },
            (None, None) => r matches Ok(None),
            (Some(_), Some(_)) => r matches Err(e) && e.message@
                == "provide only one of --conversation or --channel"@,
        },
        r matches Err(e) ==> e.code == ErrorCode::Error,
{
    match (conversation, channel) {
        (Some(c), None) => {
            let id = validate_id(c, "conversation id")?;
            Ok(Some(id))
        },
        (None, Some(c)) => {
            let id = validate_id(c, "channel id")?;
            Ok(Some(id))
        },
        (None, None) => Ok(None),
        (Some(_), Some(_)) => Err(
            RaftError::coded(ErrorCode::Error, String::from_str("provide only one of --conversation or --channel")),
        ),
    }
}

/// `agents/<id>.json`.
pub fn agent_path(agent_id: &str) -> (r: String)
    ensures
        r@ == "agents/"@ + agent_id@ + ".json"@,
{
    let mut p = String::from_str("agents/");
    p.append(agent_id);
    p.append(".json");
    p
}

/// `conversations/<conversation>/receipts/<message>/<agent>.json`.
pub fn receipt_path_for(conversation_id: &str, message_id: &str, agent_id: &str) -> (r: String)
    ensures
        r@ == "conversations/"@ + conversation_id@ + "/receipts/"@ + message_id@ + "/"@ + agent_id@ + ".json"@,
{
    let mut p = String::from_str("conversations/");
    p.append(conversation_id);
    p.append("/receipts/");
    p.append(message_id);
    p.append("/");
    p.append(agent_id);
    p.append(".json");
    p
}

/// `watch/<id>.json`.
pub fn watch_state_path(agent_id: &str) -> (r: String)
    ensures
        r@ == "watch/"@ + agent_id@ + ".json"@,
{
    let mut p = String::from_str("watch/");
    p.append(agent_id);
    p.append(".json");
    p
}

/// `heartbeat/<id>.json`.
pub fn heartbeat_state_path(agent_id: &str) -> (r: String)
    ensures
        r@ == "heartbeat/"@ + agent_id@ + ".json"@,
{
    let mut p = String::from_str("heartbeat/");
    p.append(agent_id);
    p.append(".json");
    p
}

/// Whether `s` ends with `p`.
pub open spec fn ends_with(s: Seq<char>, p: Seq<char>) -> bool {
    p.len() <= s.len() && s.skip(s.len() - p.len()) == p
}

pub fn str_ends_with(s: &str, p: &str) -> (r: bool)
    ensures
        r == ends_with(s@, p@),
{
    let sc = chars_of(s);
    let pc = chars_of(p);
    if pc.len() > sc.len() {
        return false;
    }
    let off = sc.len() - pc.len();
    let mut i: usize = 0;
    while i < pc.len()
        invariant
            sc@ == s@,
            pc@ == p@,
            sc@.len() <= isize::MAX,
            off == sc@.len() - pc@.len(),
            i <= pc@.len(),
            forall|j: int| 0 <= j < i ==> sc@[off + j] == pc@[j],
        decreases pc@.len() - i,
    {
        if sc[off + i] != pc[i] {
            assert(s@.skip(s@.len() - p@.len())[i as int] != p@[i as int]);
            return false;
        }
        i = i + 1;
    }
    assert(s@.skip(s@.len() - p@.len()) =~= p@);
    true
}

/// A file name with extension `json`: it ends in `.json` and has a stem.
pub open spec fn has_json_extension(name: Seq<char>) -> bool {
    ends_with(name, ".json"@) && name != ".json"@
}

/// How many of the names have extension `json`.
pub open spec fn json_files(names: Seq<Seq<char>>) -> nat
    decreases names.len(),
{
    if names.len() == 0 {
        0
    } else {
        json_files(names.drop_last()) + if has_json_extension(names.last()) {
            1nat
        } else {
            0nat
        }
    }
}

/// Whether a file name has extension `json`.
pub fn is_json_file(name: &str) -> (r: bool)
    ensures
        r == has_json_extension(name@),
{
    str_ends_with(name, ".json") && !str_eq(name, ".json")
}

/// The number of stored records among the entries of a directory: only
/// `.json` files count, so staged or orphaned temporary files do not.
pub fn count_json_files(names: &[String]) -> (r: usize)
    ensures
        r == json_files(views(names@)),
{
    let mut n: usize = 0;
    let mut i: usize = 0;
    while i < names.len()
        invariant
            i <= names@.len(),
            n == json_files(views(names@).take(i as int)),
            n <= i,
        decreases names@.len() - i,
    {
        proof {
            assert(views(names@).take(i + 1).drop_last() =~= views(names@).take(i as int));
            assert(views(names@).take(i + 1).last() == names@[i as int]@);
        }
        if is_json_file(names[i].as_str()) {
            n = n + 1;
        }
        i = i + 1;
    }
    assert(views(names@).take(names@.len() as int) =~= views(names@));
    n
}

/// A name that is not a `.json` file does not change the count, wherever it
/// stands among the others.
pub proof fn lemma_json_files_skip_other(names: Seq<Seq<char>>, i: int, x: Seq<char>)
    requires
        0 <= i <= names.len(),
        !has_json_extension(x),
    ensures
        json_files(names.insert(i, x)) == json_files(names),
    decreases names.len(),
{
    let t = names.insert(i, x);
    if i == names.len() {
        assert(t.drop_last() =~= names);
        assert(t.last() == x);
    } else {
        lemma_json_files_skip_other(names.drop_last(), i, x);
        assert(t.drop_last() =~= names.drop_last().insert(i, x));
        assert(t.last() == names.last());
    }
}

/// The staged and temporary files an atomic write leaves are not `.json`
/// files.
pub proof fn lemma_temp_artifact_not_json(name: Seq<char>)
    requires
        temp_artifact_name(name),
    ensures
        !has_json_extension(name),
{
    reveal_strlit(".json");
    reveal_strlit(".tmp");
    reveal_strlit(".raft-staged");
    if has_json_extension(name) {
        assert(name.last() == name.skip(name.len() - 5)[4]);
        if ends_with(name, ".tmp"@) {
            assert(name.last() == name.skip(name.len() - 4)[3]);
        } else {
            assert(name.last() == name.skip(name.len() - 12)[11]);
        }
    }
}

/// A message count by [`count_json_files`] does not change when an orphaned
/// temporary file appears among the entries.
pub proof fn lemma_count_ignores_temp_files(names: Seq<Seq<char>>, i: int, tmp: Seq<char>)
    requires
        0 <= i <= names.len(),
        temp_artifact_name(tmp),
    ensures
        json_files(names.insert(i, tmp)) == json_files(names),
{
    lemma_temp_artifact_not_json(tmp);
    lemma_json_files_skip_other(names, i, tmp);
}

/// Whether a file under `agents/` is an agent record rather than a key file
/// or a passport.
pub open spec fn agent_record_name(name: Seq<char>) -> bool {
    has_json_extension(name) && !ends_with(name, ".key.json"@) && !ends_with(name, ".passport.json"@)
}

/// Whether a file name under `agents/` names an agent record.
pub fn is_agent_record_file(name: &str) -> (r: bool)
    ensures
        r == agent_record_name(name@),
{
    str_ends_with(name, ".json") && !str_eq(name, ".json") && !str_ends_with(name, ".key.json")
        && !str_ends_with(name, ".passport.json")
}

/// The transient sibling files an atomic write stages.
pub open spec fn temp_artifact_name(name: Seq<char>) -> bool {
    starts_with(name, "."@) && (ends_with(name, ".raft-staged"@) || ends_with(name, ".tmp"@))
}

/// True for the transient sibling files written by an atomic write.
pub fn is_temp_artifact(name: &str) -> (r: bool)
    ensures
        r == temp_artifact_name(name@),
{
    let nc = chars_of(name);
    let dot = ['.'];
    proof {
        reveal_strlit(".");
        assert(dot@ =~= "."@);
    }
    crate::http::chars_start_with(nc.as_slice(), &dot) && (str_ends_with(name, ".raft-staged")
        || str_ends_with(name, ".tmp"))
}

/// An elapsed time, whole seconds and nanoseconds.
pub open spec fn age_exceeds(secs: u64, nanos: u32, limit: u64) -> bool {
    secs > limit || (secs == limit && nanos > 0)
}

/// Whether a staged file of the given age (if its age could be read) is old
/// enough to reap.
pub fn temp_file_is_stale(age: Option<(u64, u32)>) -> (r: bool)
    ensures
        r == match age {
            Some((s, n)) => age_exceeds(s, n, ORPHAN_TMP_STALE_SECONDS),
            None => false,
        },
{
    match age {
        Some((s, n)) => s > ORPHAN_TMP_STALE_SECONDS || (s == ORPHAN_TMP_STALE_SECONDS && n > 0),
        None => false,
    }
}

/// What could be read of a lock directory that has no readable owner record.
pub enum LockDirState {
    /// The directory itself is gone.
    Missing,
    /// Its modification time could not be read.
    Undated,
    /// Time since it was last modified, seconds and nanoseconds.
    Aged(u64, u32),
}

/// Whether a lock has lapsed: an owner whose expiry has passed or does not
/// parse; without an owner, a directory gone or idle past the lock TTL.
pub open spec fn lock_stale(owner_expires_at: Option<Seq<char>>, dir: LockDirState, now: (i64, u32)) -> bool {
    match owner_expires_at {
        Some(e) => match rfc3339_instant(e) {
            Some(t) => instant_lt(t, now),
            None => true,
        },
        None => match dir {
            LockDirState::Missing => true,
            LockDirState::Undated => false,
            LockDirState::Aged(s, n) => age_exceeds(s, n, LOCK_TTL_SECONDS),
        },
    }
}

/// Whether a lock has lapsed, from its owner's `expires_at` (when an owner
/// record was read) or else from the state of its directory.
pub fn lock_is_stale(owner_expires_at: Option<&str>, dir: LockDirState, now: (i64, u32)) -> (r: bool)
    ensures
        r == lock_stale(opt_str_view(owner_expires_at), dir, now),
{
    match owner_expires_at {
        Some(e) => match parse_time(e) {
            Some(t) => crate::time::instant_before(t, now),
            None => true,
        },
        None => match dir {
            LockDirState::Missing => true,
            LockDirState::Undated => false,
            LockDirState::Aged(s, n) => s > LOCK_TTL_SECONDS || (s == LOCK_TTL_SECONDS && n > 0),
        },
    }
}

/// The owner token of a lock, or `None` for an orphaned directory with no
/// readable owner.
pub fn lock_owner_token(owner_token: Option<&str>) -> (r: Option<String>)
    ensures
        crate::http::opt_string_view(r) == opt_str_view(owner_token),
{
    match owner_token {
        Some(t) => Some(String::from_str(t)),
        None => None,
    }
}

} // verus!
