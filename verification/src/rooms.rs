//! Conversations and channels: the records created when one opens, joins,
//! or announces an agent's state, and the checks made before.

use vstd::prelude::*;
use crate::bus::not_participant_message;
use crate::error::{ErrorCode, RaftError};
use crate::lists::{contains_str, csv_items, dedup, first_invalid_id, split_csv, unique, views};
use crate::naming::{
    derived_private_conversation_id, derived_private_id, generated_private_conversation_id, join, join_strings,
    private_conversation_id,
};
use crate::records::{Message, Meta, Rate};
use crate::sets::lemma_views_push;
use crate::text::{debug_quoted, debug_str, str_eq};
use crate::util::{id_valid, invalid_id_message, schema_v1, validate_id};

verus! {

pub const DEFAULT_RATE_WINDOW_SECONDS: u64 = 60;

pub const DEFAULT_RATE_MAX_MESSAGES: u64 = 10;

pub const DEFAULT_MAX_MESSAGE_BYTES: usize = 32768;

pub const DEFAULT_RETENTION_DAYS: u64 = 14;

/// A new conversation: its metadata and the system notice that opens it.
pub struct ConversationRecord {
    pub meta: Meta,
    pub opening: Message,
}

/// A system notice from `raft`.
pub open spec fn is_system_message(
    m: Message,
    conversation_id: Seq<char>,
    to: Seq<Seq<char>>,
    body: Seq<char>,
    subject: Seq<char>,
    message_id: Seq<char>,
    now: Seq<char>,
) -> bool {
    &&& m.v == 1
    &&& m.id@ == message_id
    &&& m.conversation_id@ == conversation_id
    &&& m.kind@ == "system"@
    &&& m.from@ == "raft"@
    &&& views(m.to@) == to
    &&& m.mentions@.len() == 0
    &&& m.subject@ == subject
    &&& m.body@ == body
    &&& m.created_at@ == now
    &&& !m.requires_ack
    &&& m.needs_response_from@.len() == 0
    &&& m.subject_id is None
    &&& m.after is None
    &&& m.withdrawn is None
}

/// The system notice `raft` writes into a conversation.
pub fn write_system_message(
    conversation_id: &str,
    to: Vec<String>,
    body: String,
    subject: &str,
    message_id: String,
    now: String,
) -> (r: Message)
    ensures
        is_system_message(r, conversation_id@, views(to@), body@, subject@, message_id@, now@),
{
    Message {
        v: schema_v1(),
        id: message_id,
        conversation_id: String::from_str(conversation_id),
        kind: String::from_str("system"),
        from: String::from_str("raft"),
        to,
        mentions: Vec::new(),
        subject: String::from_str(subject),
        body,
        created_at: now,
        requires_ack: false,
        needs_response_from: Vec::new(),
        subject_id: None,
        after: None,
        withdrawn: None,
    }
}

/// The body of the notice that opens a conversation or channel.
pub open spec fn opening_body(participants: Seq<Seq<char>>, starter: Seq<char>, channel: bool) -> Seq<char> {
    if channel {
        "Channel opened. Subscribers: "@ + join(participants, ","@) + "."@
    } else {
        "Conversation opened by "@ + starter + ". Participants: "@ + join(participants, ","@) + "."@
    }
}

/// The record of a new conversation opened at `now`.
pub open spec fn is_opened(
    rec: ConversationRecord,
    id: Seq<char>,
    participants: Seq<Seq<char>>,
    starter: Seq<char>,
    private: bool,
    channel: bool,
    retention_days: u64,
    rate: (u64, u64, usize),
    now: Seq<char>,
    message_id: Seq<char>,
) -> bool {
    &&& rec.meta.v == 1
    &&& rec.meta.id@ == id
    &&& views(rec.meta.participants@) == participants
    &&& rec.meta.channel == channel
    &&& rec.meta.private == private
    &&& rec.meta.state@ == "open"@
    &&& rec.meta.created_at@ == now
    &&& rec.meta.updated_at@ == now
    &&& rec.meta.retention_days == retention_days
    &&& (rec.meta.rate.window_seconds, rec.meta.rate.max_messages_per_sender, rec.meta.rate.max_message_bytes) == rate
    &&& is_system_message(
        rec.opening,
        id,
        seq![starter],
        opening_body(participants, starter, channel),
        if channel { "channel opened"@ } else { "conversation opened"@ },
        message_id,
        now,
    )
}

fn clone_strings(v: &Vec<String>) -> (r: Vec<String>)
    ensures
        views(r@) == views(v@),
{
    let mut out: Vec<String> = Vec::new();
    let mut i: usize = 0;
    while i < v.len()
        invariant
            i <= v@.len(),
            views(out@) == views(v@).take(i as int),
        decreases v@.len() - i,
    {
        let ghost before = out@;
        out.push(v[i].clone());
        proof {
            lemma_views_push(before, v@[i as int]);
            assert(views(v@).take(i + 1) =~= views(v@).take(i as int).push(v@[i as int]@));
        }
        i = i + 1;
    }
    assert(views(v@).take(v@.len() as int) =~= views(v@));
    out
}

fn opened_record(
    id: &str,
    participants: Vec<String>,
    starter: &str,
    private: bool,
    channel: bool,
    retention_days: u64,
    rate: Rate,
    now: &str,
    message_id: String,
) -> (r: ConversationRecord)
    ensures
        is_opened(
            r,
            id@,
            views(participants@),
            starter@,
            private,
            channel,
            retention_days,
            (rate.window_seconds, rate.max_messages_per_sender, rate.max_message_bytes),
            now@,
            message_id@,
        ),
{
    let joined = join_strings(participants.as_slice(), ",");
    let body = if channel {
        let mut b = String::from_str("Channel opened. Subscribers: ");
        b.append(joined.as_str());
        b.append(".");
        b
    } else {
        let mut b = String::from_str("Conversation opened by ");
        b.append(starter);
        b.append(". Participants: ");
        b.append(joined.as_str());
        b.append(".");
        b
    };
    let subject = if channel { "channel opened" } else { "conversation opened" };
    let mut to: Vec<String> = Vec::new();
    to.push(String::from_str(starter));
    assert(views(to@) =~= seq![starter@]);
    let opening = write_system_message(id, to, body, subject, message_id, String::from_str(now));
    let meta = Meta {
        v: schema_v1(),
        id: String::from_str(id),
        participants,
        channel,
        private,
        state: String::from_str("open"),
        created_at: String::from_str(now),
        updated_at: String::from_str(now),
        retention_days,
        rate,
    };
    ConversationRecord { meta, opening }
}

/// The first participant that is not a valid id, scanning in order.
pub open spec fn first_bad_participant(ps: Seq<Seq<char>>) -> Option<Seq<char>>
    decreases ps.len(),
{
    if ps.len() == 0 {
        None
    } else if !id_valid(ps[0]) {
        Some(ps[0])
    } else {
        first_bad_participant(ps.drop_first())
    }
}

fn validate_participants(participants: &Vec<String>) -> (r: Result<(), RaftError>)
    ensures
        match first_bad_participant(views(participants@)) {
            None => r is Ok,
            Some(x) => r matches Err(e) && e.code == ErrorCode::Error && e.message@ == invalid_id_message(
                "participant"@,
                x,
            ),
        },
{
    let ghost ps = views(participants@);
    let mut i: usize = 0;
    assert(ps.skip(0) =~= ps);
    while i < participants.len()
        invariant
            i <= participants@.len(),
            ps == views(participants@),
            first_bad_participant(ps) == first_bad_participant(ps.skip(i as int)),
        decreases participants@.len() - i,
    {
        proof {
            let t = ps.skip(i as int);
            assert(t[0] == participants@[i as int]@);
            assert(t.drop_first() =~= ps.skip(i + 1));
        }
        validate_id(participants[i].as_str(), "participant")?;
        i = i + 1;
    }
    Ok(())
}

pub open spec fn default_rate() -> (u64, u64, usize) {
    (60, 10, 32768)
}

fn rate_of(rate: (u64, u64, usize)) -> (r: Rate)
    ensures
        (r.window_seconds, r.max_messages_per_sender, r.max_message_bytes) == rate,
{
    Rate { window_seconds: rate.0, max_messages_per_sender: rate.1, max_message_bytes: rate.2 }
}

/// Why a conversation cannot be created, checked in order.
pub open spec fn creation_refusal(id: Seq<char>, ps: Seq<Seq<char>>, starter: Seq<char>) -> Option<Seq<char>> {
    if !id_valid(id) {
        Some(invalid_id_message("conversation id"@, id))
    } else if ps.len() < 2 {
        Some("a conversation needs at least two participants"@)
    } else if first_bad_participant(ps) is Some {
        Some(invalid_id_message("participant"@, first_bad_participant(ps)->0))
    } else if !ps.contains(starter) {
        Some("starter must be one of the participants"@)
    } else {
        None
    }
}

/// A conversation record with the default retention and rate limits, after
/// checking the id, at least two valid participants, and that the starter is
/// one of them.
pub fn create_conversation_record(
    conversation_id: &str,
    participants: Vec<String>,
    starter: &str,
    private: bool,
    channel: bool,
    now: &str,
    message_id: String,
) -> (r: Result<ConversationRecord, RaftError>)
    ensures
        match creation_refusal(conversation_id@, views(participants@), starter@) {
            Some(m) => r matches Err(e) && e.code == ErrorCode::Error && e.message@ == m,
            None => r matches Ok(rec) && is_opened(
                rec,
                conversation_id@,
                views(participants@),
                starter@,
                private,
                channel,
                14,
                default_rate(),
                now@,
                message_id@,
            ),
        },
{
    let id = validate_id(conversation_id, "conversation id")?;
    if participants.len() < 2 {
        return Err(RaftError::coded(ErrorCode::Error, String::from_str("a conversation needs at least two participants")));
    }
    validate_participants(&participants)?;
    if !contains_str(participants.as_slice(), starter) {
        return Err(RaftError::coded(ErrorCode::Error, String::from_str("starter must be one of the participants")));
    }
    let rate = rate_of((DEFAULT_RATE_WINDOW_SECONDS, DEFAULT_RATE_MAX_MESSAGES, DEFAULT_MAX_MESSAGE_BYTES));
    Ok(opened_record(id.as_str(), participants, starter, private, channel, DEFAULT_RETENTION_DAYS, rate, now, message_id))
}

/// What notifying conversations of an agent's new state comes to: the
/// notice body and the conversations (in the order given) the agent is in.
pub struct StateChangeNotice {
    pub body: String,
    pub conversation_ids: Vec<String>,
}

pub open spec fn state_change_body(agent: Seq<char>, state: Seq<char>, note: Option<Seq<char>>) -> Seq<char> {
    match note {
        Some(n) => if n.len() > 0 {
            "@"@ + agent + " is now "@ + state + ": "@ + n
        } else {
            "@"@ + agent + " is now "@ + state
        },
        None => "@"@ + agent + " is now "@ + state,
    }
}

/// The ids of the conversations whose participants include `agent`.
pub open spec fn rooms_of(metas: Seq<Meta>, agent: Seq<char>) -> Seq<Seq<char>>
    decreases metas.len(),
{
    if metas.len() == 0 {
        Seq::empty()
    } else {
        let p = rooms_of(metas.drop_last(), agent);
        if views(metas.last().participants@).contains(agent) {
            p.push(metas.last().id@)
        } else {
            p
        }
    }
}

/// The notice of `agent_id` moving to `state`, and where it goes.
/// A state-change notice goes exactly to the conversations the agent takes
/// part in: an id is listed if and only if some conversation with that id
/// has the agent among its participants.
pub proof fn lemma_rooms_of_members_only(metas: Seq<Meta>, agent: Seq<char>, id: Seq<char>)
    ensures
        rooms_of(metas, agent).contains(id) <==> exists|i: int| 0 <= i < metas.len() && (#[trigger] metas[i]).id@ == id
            && views(metas[i].participants@).contains(agent),
    decreases metas.len(),
{
    if metas.len() > 0 {
        let d = metas.drop_last();
        lemma_rooms_of_members_only(d, agent, id);
        let p = rooms_of(d, agent);
        vstd::seq_lib::lemma_seq_contains_after_push(p, metas.last().id@, id);
        if exists|i: int| 0 <= i < metas.len() && (#[trigger] metas[i]).id@ == id && views(metas[i].participants@).contains(
            agent,
        ) {
            let i = choose|i: int| 0 <= i < metas.len() && (#[trigger] metas[i]).id@ == id && views(
                metas[i].participants@,
            ).contains(agent);
            if i < metas.len() - 1 {
                assert(d[i] == metas[i]);
            }
        }
        if exists|i: int| 0 <= i < d.len() && (#[trigger] d[i]).id@ == id && views(d[i].participants@).contains(agent) {
            let i = choose|i: int| 0 <= i < d.len() && (#[trigger] d[i]).id@ == id && views(d[i].participants@).contains(
                agent,
            );
            assert(metas[i] == d[i]);
        }
    }
}

/// The notice reaches the agent's conversations and only those.
pub fn write_state_change_messages(agent_id: &str, state: &str, note: Option<&str>, metas: &[Meta]) -> (r: StateChangeNotice)
    ensures
        r.body@ == state_change_body(agent_id@, state@, match note { Some(n) => Some(n@), None => None }),
        views(r.conversation_ids@) == rooms_of(metas@, agent_id@),
        forall|id: Seq<char>| #[trigger] views(r.conversation_ids@).contains(id) <==> exists|i: int| 0 <= i
            < metas@.len() && (#[trigger] metas@[i]).id@ == id && views(metas@[i].participants@).contains(agent_id@),
{
    let mut body = String::from_str("@");
    body.append(agent_id);
    body.append(" is now ");
    body.append(state);
    match note {
        Some(n) => {
            let nc = crate::text::chars_of(n);
            if nc.len() > 0 {
                body.append(": ");
                body.append(n);
            }
        },
        None => {},
    }
    let mut ids: Vec<String> = Vec::new();
    let mut i: usize = 0;
    while i < metas.len()
        invariant
            i <= metas@.len(),
            views(ids@) == rooms_of(metas@.take(i as int), agent_id@),
        decreases metas@.len() - i,
    {
        proof {
            assert(metas@.take(i + 1).drop_last() =~= metas@.take(i as int));
            assert(metas@.take(i + 1).last() == metas@[i as int]);
        }
        if contains_str(metas[i].participants.as_slice(), agent_id) {
            let ghost before = ids@;
            ids.push(metas[i].id.clone());
            proof {
                lemma_views_push(before, metas@[i as int].id);
            }
        }
        i = i + 1;
    }
    assert(metas@.take(metas@.len() as int) =~= metas@);
    proof {
        assert forall|id: Seq<char>| #[trigger] views(ids@).contains(id) <==> exists|i: int| 0 <= i < metas@.len()
            && (#[trigger] metas@[i]).id@ == id && views(metas@[i].participants@).contains(agent_id@) by {
            lemma_rooms_of_members_only(metas@, agent_id@, id);
        }
    }
    StateChangeNotice { body, conversation_ids: ids }
}

/// The outcome of joining a channel.
pub enum JoinOutcome {
    /// The agent was added: the updated metadata and the notice to write.
    Joined(Meta, Message),
    /// The agent was already subscribed; nothing changes.
    AlreadyMember,
}

/// Subscribe `agent` to `channel`, given its loaded metadata. The ids must be
/// valid, the channel must exist and be a channel.
pub fn join_channel(agent: &str, channel: &str, meta: Option<Meta>, now: &str, message_id: String) -> (r: Result<JoinOutcome, RaftError>)
    ensures
        !id_valid(agent@) ==> (r matches Err(e) && e.message@ == invalid_id_message("agent id"@, agent@)),
        id_valid(agent@) && !id_valid(channel@) ==> (r matches Err(e) && e.message@ == invalid_id_message("channel id"@, channel@)),
        id_valid(agent@) && id_valid(channel@) ==> match meta {
            None => r matches Err(e) && e.message@ == "channel "@ + debug_quoted(channel@) + " does not exist"@,
            Some(m) => if !m.channel {
                r matches Err(e) && e.message@ == debug_quoted(channel@) + " is not a channel"@
            } else if views(m.participants@).contains(agent@) {
                r matches Ok(JoinOutcome::AlreadyMember)
            } else {
                r matches Ok(JoinOutcome::Joined(m2, note)) && views(m2.participants@) == views(m.participants@).push(agent@)
                    && m2.updated_at@ == now@ && m2.id@ == m.id@ && m2.channel == m.channel && m2.private == m.private
                    && m2.created_at@ == m.created_at@ && is_system_message(note, channel@, seq!["*"@],
                    "@"@ + agent@ + " joined channel "@ + channel@ + "."@, "channel joined"@, message_id@, now@)
            },
        },
        r matches Err(e) ==> e.code == ErrorCode::Error,
{
    let agent_id = validate_id(agent, "agent id")?;
    let channel_id = validate_id(channel, "channel id")?;
    let mut m = match meta {
        Some(m) => m,
        None => {
            let q = debug_str(channel);
            let mut msg = String::from_str("channel ");
            msg.append(q.as_str());
            msg.append(" does not exist");
            return Err(RaftError::coded(ErrorCode::Error, msg));
        },
    };
    if !m.channel {
        let mut msg = debug_str(channel);
        msg.append(" is not a channel");
        return Err(RaftError::coded(ErrorCode::Error, msg));
    }
    if contains_str(m.participants.as_slice(), agent) {
        return Ok(JoinOutcome::AlreadyMember);
    }
    let ghost before = m.participants@;
    m.participants.push(agent_id);
    proof {
        lemma_views_push(before, m.participants@.last());
    }
    m.updated_at = String::from_str(now);
    let mut body = String::from_str("@");
    body.append(agent);
    body.append(" joined channel ");
    body.append(channel);
    body.append(".");
    let mut to: Vec<String> = Vec::new();
    to.push(String::from_str("*"));
    assert(views(to@) =~= seq!["*"@]);
    let note = write_system_message(channel_id.as_str(), to, body, "channel joined", message_id, String::from_str(now));
    Ok(JoinOutcome::Joined(m, note))
}

/// `[first] + rest` without repeats.
pub open spec fn with_first(first: Seq<char>, rest: Seq<Seq<char>>) -> Seq<Seq<char>> {
    dedup(seq![first] + rest)
}

fn prepend_unique(first: String, rest: Vec<String>) -> (r: Vec<String>)
    ensures
        views(r@) == with_first(first@, views(rest@)),
{
    let mut all: Vec<String> = Vec::new();
    all.push(first);
    let ghost f = all@;
    let mut rest = rest;
    let ghost rv = rest@;
    all.append(&mut rest);
    assert(views(all@) =~= seq![f[0]@] + views(rv));
    unique(all)
}

/// Why creating a conversation from the command line is refused, checked in
/// the order the command checks.
pub open spec fn conversation_create_refusal(
    id: Seq<char>,
    csv: Seq<char>,
    starter: Option<Seq<char>>,
) -> Option<Seq<char>> {
    let items = csv_items(csv);
    let ps = dedup(items);
    if !id_valid(id) {
        Some(invalid_id_message("conversation id"@, id))
    } else if first_invalid_id(items) is Some {
        Some(invalid_id_message("id"@, first_invalid_id(items)->0))
    } else if ps.len() < 2 {
        Some("a conversation needs at least two participants"@)
    } else if first_bad_participant(ps) is Some {
        Some(invalid_id_message("participant"@, first_bad_participant(ps)->0))
    } else if starter is Some && !id_valid(starter->0) {
        Some(invalid_id_message("starter"@, starter->0))
    } else if !ps.contains(match starter { Some(s) => s, None => ps[0] }) {
        Some("starter must be one of the participants"@)
    } else {
        None
    }
}

fn finish_conversation_create(
    id: &str,
    participants: Vec<String>,
    starter: &str,
    private: bool,
    retention_days: u64,
    rate: (u64, u64, usize),
    exists: bool,
    if_missing: bool,
    now: &str,
    message_id: String,
) -> (r: Result<Option<ConversationRecord>, RaftError>)
    ensures
        exists && if_missing ==> (r matches Ok(None)),
        exists && !if_missing ==> (r matches Err(e) && e.code == ErrorCode::Conflict && e.message@ == "conversation "@
            + debug_quoted(id@) + " already exists"@),
        !exists ==> (r matches Ok(Some(rec)) && is_opened(rec, id@, views(participants@), starter@, private, false,
            retention_days, rate, now@, message_id@)),
{
    if exists {
        if if_missing {
            return Ok(None);
        }
        let q = debug_str(id);
        let mut m = String::from_str("conversation ");
        m.append(q.as_str());
        m.append(" already exists");
        return Err(RaftError::coded(ErrorCode::Conflict, m));
    }
    let r = rate_of(rate);
    Ok(Some(opened_record(id, participants, starter, private, false, retention_days, r, now, message_id)))
}

/// `conversation create`: the record to write, `None` when the conversation
/// already exists and `if_missing` asks to leave it be.
pub fn cmd_conversation_create(
    conversation: &str,
    participants_csv: &str,
    starter: Option<&str>,
    private: bool,
    retention_days: u64,
    rate: (u64, u64, usize),
    exists: bool,
    if_missing: bool,
    now: &str,
    message_id: String,
) -> (r: Result<Option<ConversationRecord>, RaftError>)
    ensures
        match conversation_create_refusal(conversation@, participants_csv@, match starter { Some(s) => Some(s@), None => None }) {
            Some(m) => r matches Err(e) && e.code == ErrorCode::Error && e.message@ == m,
            None => (exists && if_missing ==> (r matches Ok(None))) && (exists && !if_missing ==> (r matches Err(e)
                && e.code == ErrorCode::Conflict && e.message@ == "conversation "@ + debug_quoted(conversation@)
                + " already exists"@)) && (!exists ==> (r matches Ok(Some(rec)) && is_opened(
                rec,
                conversation@,
                dedup(csv_items(participants_csv@)),
                match starter {
                    Some(s) => s@,
                    None => dedup(csv_items(participants_csv@))[0],
                },
                private,
                false,
                retention_days,
                rate,
                now@,
                message_id@,
            ))),
        },
{
    let id = validate_id(conversation, "conversation id")?;
    let listed = split_csv(participants_csv)?;
    let participants = unique(listed);
    if participants.len() < 2 {
        return Err(RaftError::coded(ErrorCode::Error, String::from_str("a conversation needs at least two participants")));
    }
    validate_participants(&participants)?;
    let starter_id = match starter {
        Some(s) => validate_id(s, "starter")?,
        None => participants[0].clone(),
    };
    if !contains_str(participants.as_slice(), starter_id.as_str()) {
        return Err(RaftError::coded(ErrorCode::Error, String::from_str("starter must be one of the participants")));
    }
    finish_conversation_create(id.as_str(), participants, starter_id.as_str(), private, retention_days, rate, exists, if_missing, now, message_id)
}

/// Why opening a private chat is refused before any conversation is looked
/// at.
pub open spec fn private_chat_refusal(opener: Seq<char>, to: Seq<char>, opener_label: Seq<char>) -> Option<Seq<char>> {
    if !id_valid(opener) {
        Some(invalid_id_message(opener_label, opener))
    } else if first_invalid_id(csv_items(to)) is Some {
        Some(invalid_id_message("id"@, first_invalid_id(csv_items(to))->0))
    } else if with_first(opener, csv_items(to)).len() < 2 {
        Some("a private chat needs at least two unique participants"@)
    } else {
        None
    }
}

fn private_participants(opener: &str, to: &str, opener_label: &str) -> (r: Result<Vec<String>, RaftError>)
    ensures
        match private_chat_refusal(opener@, to@, opener_label@) {
            Some(m) => r matches Err(e) && e.code == ErrorCode::Error && e.message@ == m,
            None => r matches Ok(ps) && views(ps@) == with_first(opener@, csv_items(to@)),
        },
{
    let o = validate_id(opener, opener_label)?;
    let rest = split_csv(to)?;
    let ps = prepend_unique(o, rest);
    if ps.len() < 2 {
        return Err(RaftError::coded(ErrorCode::Error, String::from_str("a private chat needs at least two unique participants")));
    }
    Ok(ps)
}

/// The id a private chat is opened under.
pub open spec fn open_id(conversation: Option<&str>, opener: Seq<char>, to: Seq<char>, topic: Seq<char>) -> Seq<char> {
    match conversation {
        Some(c) => c@,
        None => derived_private_id(with_first(opener, csv_items(to)).to_set(), topic),
    }
}

/// Opening a private chat without an id derives the same id whoever opens
/// it and however the others are listed: only the set of participants and
/// the topic count.
pub proof fn lemma_open_id_symmetric(opener_a: Seq<char>, to_a: Seq<char>, opener_b: Seq<char>, to_b: Seq<char>, topic: Seq<char>)
    requires
        with_first(opener_a, csv_items(to_a)).to_set() == with_first(opener_b, csv_items(to_b)).to_set(),
    ensures
        open_id(None, opener_a, to_a, topic) == open_id(None, opener_b, to_b, topic),
{
}

/// The result of opening private chat `id` once its participants are known.
pub open spec fn open_outcome(
    r: Result<Option<ConversationRecord>, RaftError>,
    id: Seq<char>,
    ps: Seq<Seq<char>>,
    opener: Seq<char>,
    exists: bool,
    if_missing: bool,
    retention_days: u64,
    rate: (u64, u64, usize),
    now: Seq<char>,
    message_id: Seq<char>,
) -> bool {
    if exists {
        if if_missing {
            r matches Ok(None)
        } else {
            r matches Err(e) && e.code == ErrorCode::Conflict && e.message@ == "conversation "@ + debug_quoted(id)
                + " already exists"@
        }
    } else {
        r matches Ok(Some(rec)) && is_opened(rec, id, ps, opener, true, false, retention_days, rate, now, message_id)
    }
}

/// `conversation open`: a private chat between the opener and `to`, under
/// the given id or one generated from the participants and topic.
pub fn cmd_conversation_open(
    opener: &str,
    to: &str,
    conversation: Option<&str>,
    topic: &str,
    retention_days: u64,
    rate: (u64, u64, usize),
    exists: bool,
    if_missing: bool,
    now: &str,
    message_id: String,
) -> (r: Result<Option<ConversationRecord>, RaftError>)
    ensures
        private_chat_refusal(opener@, to@, "opener"@) matches Some(m) ==> (r matches Err(e) && e.code
            == ErrorCode::Error && e.message@ == m),
        private_chat_refusal(opener@, to@, "opener"@) is None && (conversation matches Some(c) && !id_valid(c@))
            ==> (r matches Err(e) && e.code == ErrorCode::Error && e.message@ == invalid_id_message(
            "conversation id"@,
            conversation->0@,
        )),
        private_chat_refusal(opener@, to@, "opener"@) is None && !(conversation matches Some(c) && !id_valid(c@))
            ==> open_outcome(r, open_id(conversation, opener@, to@, topic@), with_first(opener@, csv_items(to@)),
            opener@, exists, if_missing, retention_days, rate, now@, message_id@),
{
    let ps = private_participants(opener, to, "opener")?;
    let id = match conversation {
        Some(c) => validate_id(c, "conversation id")?,
        None => derived_private_conversation_id(ps.as_slice(), topic),
    };
    finish_conversation_create(id.as_str(), ps, opener, true, retention_days, rate, exists, if_missing, now, message_id)
}

/// What opening a private chat from the UI comes to.
pub enum PrivateChat {
    /// A private chat with exactly these participants exists already.
    Existing(String),
    /// A new one is to be written.
    Created(ConversationRecord),
}

/// The set of participants of a conversation.
pub open spec fn participant_set(m: Meta) -> Set<Seq<char>> {
    views(m.participants@).to_set()
}

/// The first private, non-channel conversation whose participants are
/// exactly `ps`.
pub open spec fn matching_private(metas: Seq<Meta>, ps: Set<Seq<char>>) -> Option<int>
    decreases metas.len(),
{
    if metas.len() == 0 {
        None
    } else if metas[0].private && !metas[0].channel && participant_set(metas[0]) == ps {
        Some(0)
    } else {
        match matching_private(metas.drop_first(), ps) {
            Some(i) => Some(i + 1),
            None => None,
        }
    }
}

/// The match is found at `k` when the conversation there is the only private,
/// non-channel one with exactly these participants.
proof fn lemma_matching_private_at(metas: Seq<Meta>, ps: Set<Seq<char>>, k: int)
    requires
        0 <= k < metas.len(),
        metas[k].private && !metas[k].channel && participant_set(metas[k]) == ps,
        forall|j: int| 0 <= j < metas.len() && j != k ==> !(#[trigger] metas[j].private && !metas[j].channel
            && participant_set(metas[j]) == ps),
    ensures
        matching_private(metas, ps) == Some(k),
    decreases metas.len(),
{
    if k > 0 {
        let t = metas.drop_first();
        assert forall|j: int| 0 <= j < t.len() && j != k - 1 implies !(#[trigger] t[j].private && !t[j].channel
            && participant_set(t[j]) == ps) by {
            assert(t[j] == metas[j + 1]);
        }
        assert(t[k - 1] == metas[k]);
        lemma_matching_private_at(t, ps, k - 1);
        assert(!(metas[0].private && !metas[0].channel && participant_set(metas[0]) == ps));
    }
}

/// A private chat opened from the UI is reused: once the first call has
/// created one, a later call by any of its participants, naming the others
/// in any order and under any topic, finds it again, as long as it is the
/// only private non-channel conversation with exactly those participants.
pub proof fn lemma_private_chat_reused(
    metas: Seq<Meta>,
    later: Seq<Meta>,
    k: int,
    opener_a: Seq<char>,
    to_a: Seq<char>,
    opener_b: Seq<char>,
    to_b: Seq<char>,
    id_a: Seq<char>,
    id_b: Seq<char>,
    now_a: Seq<char>,
    now_b: Seq<char>,
    message_a: Seq<char>,
    message_b: Seq<char>,
    first: Result<PrivateChat, RaftError>,
    second: Result<PrivateChat, RaftError>,
)
    requires
        private_chat_outcome(first, metas, with_first(opener_a, csv_items(to_a)), opener_a, id_a, now_a, message_a),
        first matches Ok(PrivateChat::Created(rec)) && 0 <= k < later.len() && later[k] == rec.meta,
        forall|j: int| 0 <= j < later.len() && j != k ==> !(#[trigger] later[j].private && !later[j].channel
            && participant_set(later[j]) == with_first(opener_a, csv_items(to_a)).to_set()),
        with_first(opener_b, csv_items(to_b)).to_set() == with_first(opener_a, csv_items(to_a)).to_set(),
        private_chat_outcome(second, later, with_first(opener_b, csv_items(to_b)), opener_b, id_b, now_b, message_b),
    ensures
        first matches Ok(PrivateChat::Created(rec)) && second matches Ok(PrivateChat::Existing(found)) && found@
            == rec.meta.id@,
{
    let ps = with_first(opener_a, csv_items(to_a)).to_set();
    let rec = first->Ok_0->Created_0;
    assert(rec.meta.private && !rec.meta.channel && participant_set(rec.meta) == ps);
    lemma_matching_private_at(later, ps, k);
}

/// Opening a private chat is idempotent under `--if-missing`: whoever of its
/// participants opens it, naming the others in any order, the topic leads to
/// the same derived id, and once a conversation exists there nothing new is
/// created.
pub proof fn lemma_open_if_missing_reuses(
    opener_a: Seq<char>,
    to_a: Seq<char>,
    opener_b: Seq<char>,
    to_b: Seq<char>,
    topic: Seq<char>,
    retention_days: u64,
    rate: (u64, u64, usize),
    now: Seq<char>,
    message_id: Seq<char>,
    second: Result<Option<ConversationRecord>, RaftError>,
)
    requires
        with_first(opener_b, csv_items(to_b)).to_set() == with_first(opener_a, csv_items(to_a)).to_set(),
        open_outcome(
            second,
            open_id(None, opener_b, to_b, topic),
            with_first(opener_b, csv_items(to_b)),
            opener_b,
            true,
            true,
            retention_days,
            rate,
            now,
            message_id,
        ),
    ensures
        open_id(None, opener_b, to_b, topic) == open_id(None, opener_a, to_a, topic),
        second matches Ok(None),
{
    lemma_open_id_symmetric(opener_b, to_b, opener_a, to_a, topic);
}

fn same_members(a: &Vec<String>, b: &Vec<String>) -> (r: bool)
    ensures
        r == (views(a@).to_set() == views(b@).to_set()),
{
    let mut i: usize = 0;
    while i < a.len()
        invariant
            i <= a@.len(),
            forall|k: int| 0 <= k < i ==> views(b@).contains(#[trigger] views(a@)[k]),
        decreases a@.len() - i,
    {
        if !contains_str(b.as_slice(), a[i].as_str()) {
            proof {
                assert(views(a@)[i as int] == a@[i as int]@);
                assert(views(a@).to_set().contains(a@[i as int]@));
                assert(!views(b@).to_set().contains(a@[i as int]@));
            }
            return false;
        }
        assert(views(a@)[i as int] == a@[i as int]@);
        i = i + 1;
    }
    let mut j: usize = 0;
    while j < b.len()
        invariant
            j <= b@.len(),
            forall|k: int| 0 <= k < a@.len() ==> views(b@).contains(#[trigger] views(a@)[k]),
            forall|k: int| 0 <= k < j ==> views(a@).contains(#[trigger] views(b@)[k]),
        decreases b@.len() - j,
    {
        if !contains_str(a.as_slice(), b[j].as_str()) {
            proof {
                assert(views(b@)[j as int] == b@[j as int]@);
                assert(views(b@).to_set().contains(b@[j as int]@));
                assert(!views(a@).to_set().contains(b@[j as int]@));
            }
            return false;
        }
        assert(views(b@)[j as int] == b@[j as int]@);
        j = j + 1;
    }
    proof {
        assert forall|x: Seq<char>| views(a@).to_set().contains(x) <==> views(b@).to_set().contains(x) by {
            if views(a@).contains(x) {
                let k = choose|k: int| 0 <= k < views(a@).len() && views(a@)[k] == x;
            }
            if views(b@).contains(x) {
                let k = choose|k: int| 0 <= k < views(b@).len() && views(b@)[k] == x;
            }
        }
        assert(views(a@).to_set() =~= views(b@).to_set());
    }
    true
}

/// The result of opening a private chat among `ps` from the UI.
pub open spec fn private_chat_outcome(
    r: Result<PrivateChat, RaftError>,
    metas: Seq<Meta>,
    ps: Seq<Seq<char>>,
    opener: Seq<char>,
    id: Seq<char>,
    now: Seq<char>,
    message_id: Seq<char>,
) -> bool {
    match matching_private(metas, ps.to_set()) {
        Some(i) => r matches Ok(PrivateChat::Existing(found)) && found@ == metas[i].id@,
        None => match creation_refusal(id, ps, opener) {
            Some(m) => r matches Err(e) && e.code == ErrorCode::Error && e.message@ == m,
            None => r matches Ok(PrivateChat::Created(rec)) && is_opened(rec, id, ps, opener, true, false, 14,
                default_rate(), now, message_id),
        },
    }
}

/// Open (or find) a private chat from the UI: reuse the first private chat
/// with exactly these participants, otherwise create one with a generated id.
pub fn open_private_chat(
    opener: &str,
    to: &str,
    topic: &str,
    metas: &[Meta],
    suffix: &str,
    now: &str,
    message_id: String,
) -> (r: Result<PrivateChat, RaftError>)
    ensures
        private_chat_refusal(opener@, to@, "agent id"@) matches Some(m) ==> (r matches Err(e) && e.code
            == ErrorCode::Error && e.message@ == m),
        private_chat_refusal(opener@, to@, "agent id"@) is None ==> private_chat_outcome(r, metas@, with_first(
            opener@,
            csv_items(to@),
        ), opener@, private_conversation_id(with_first(opener@, csv_items(to@)), topic@, suffix@, suffix.len() as nat),
            now@, message_id@),
{
    let ps = private_participants(opener, to, "agent id")?;
    let ghost pset = views(ps@).to_set();
    let mut i: usize = 0;
    assert(metas@.skip(0) =~= metas@);
    while i < metas.len()
        invariant
            i <= metas@.len(),
            pset == views(ps@).to_set(),
            private_chat_refusal(opener@, to@, "agent id"@) is None,
            views(ps@) == with_first(opener@, csv_items(to@)),
            matching_private(metas@, pset) == match matching_private(metas@.skip(i as int), pset) {
                Some(k) => Some(k + i),
                None => None,
            },
        decreases metas@.len() - i,
    {
        proof {
            let t = metas@.skip(i as int);
            assert(t[0] == metas@[i as int]);
            assert(t.drop_first() =~= metas@.skip(i + 1));
        }
        let m = &metas[i];
        if m.private && !m.channel && same_members(&ps, &m.participants) {
            return Ok(PrivateChat::Existing(m.id.clone()));
        }
        i = i + 1;
    }
    let id = generated_private_conversation_id(ps.as_slice(), topic, suffix);
    let rec = create_conversation_record(id.as_str(), ps, opener, true, false, now, message_id)?;
    Ok(PrivateChat::Created(rec))
}

/// What creating a channel from the UI comes to.
pub enum UiChannel {
    Created(ConversationRecord),
    /// The channel exists; the creator joins it.
    Joined(JoinOutcome),
}

/// The result of creating channel `channel` from the UI once the ids and
/// members check out.
pub open spec fn ui_channel_outcome(
    r: Result<UiChannel, RaftError>,
    creator: Seq<char>,
    channel: Seq<char>,
    ps: Seq<Seq<char>>,
    existing: Option<Meta>,
    meta_exists: bool,
    now: Seq<char>,
    message_id: Seq<char>,
) -> bool {
    if meta_exists {
        match existing {
            None => r matches Err(e) && e.message@ == "channel "@ + debug_quoted(channel) + " has no metadata"@,
            Some(m) => if !m.channel {
                r matches Err(e) && e.message@ == debug_quoted(channel) + " already exists but is not a channel"@
            } else if views(m.participants@).contains(creator) {
                r matches Ok(UiChannel::Joined(JoinOutcome::AlreadyMember))
            } else {
                r matches Ok(UiChannel::Joined(JoinOutcome::Joined(m2, note))) && views(m2.participants@)
                    == views(m.participants@).push(creator) && m2.updated_at@ == now && m2.id@ == m.id@
                    && m2.channel == m.channel && m2.private == m.private && m2.created_at@ == m.created_at@
                    && is_system_message(note, channel, seq!["*"@], "@"@ + creator + " joined channel "@ + channel
                    + "."@, "channel joined"@, message_id, now)
            },
        }
    } else {
        match creation_refusal(channel, ps, creator) {
            Some(msg) => r matches Err(e) && e.message@ == msg,
            None => r matches Ok(UiChannel::Created(rec)) && is_opened(rec, channel, ps, creator, false, true, 14,
                default_rate(), now, message_id),
        }
    }
}

/// Create a channel from the UI, or join it when it already exists.
pub fn create_ui_channel(
    creator: &str,
    channel: &str,
    members: &str,
    existing: Option<Meta>,
    meta_exists: bool,
    now: &str,
    message_id: String,
) -> (r: Result<UiChannel, RaftError>)
    ensures
        !id_valid(creator@) ==> (r matches Err(e) && e.message@ == invalid_id_message("agent id"@, creator@)),
        id_valid(creator@) && !id_valid(channel@) ==> (r matches Err(e) && e.message@ == invalid_id_message(
            "channel id"@,
            channel@,
        )),
        id_valid(creator@) && id_valid(channel@) && first_invalid_id(csv_items(members@)) is Some ==> (r matches Err(
            e,
        ) && e.message@ == invalid_id_message("id"@, first_invalid_id(csv_items(members@))->0)),
        id_valid(creator@) && id_valid(channel@) && first_invalid_id(csv_items(members@)) is None ==> ui_channel_outcome(
            r,
            creator@,
            channel@,
            with_first(creator@, csv_items(members@)),
            existing,
            meta_exists,
            now@,
            message_id@,
        ),
        r matches Err(e) ==> e.code == ErrorCode::Error,
{
    let c = validate_id(creator, "agent id")?;
    let channel_id = validate_id(channel, "channel id")?;
    let rest = split_csv(members)?;
    let ps = prepend_unique(c, rest);
    if meta_exists {
        let m = match existing {
            Some(m) => m,
            None => {
                let q = debug_str(channel);
                let mut msg = String::from_str("channel ");
                msg.append(q.as_str());
                msg.append(" has no metadata");
                return Err(RaftError::coded(ErrorCode::Error, msg));
            },
        };
        if !m.channel {
            let mut msg = debug_str(channel);
            msg.append(" already exists but is not a channel");
            return Err(RaftError::coded(ErrorCode::Error, msg));
        }
        let joined = join_channel(creator, channel, Some(m), now, message_id)?;
        return Ok(UiChannel::Joined(joined));
    }
    let rec = create_conversation_record(channel_id.as_str(), ps, creator, false, true, now, message_id)?;
    Ok(UiChannel::Created(rec))
}

/// The result of `channel create` once the ids and members check out.
pub open spec fn channel_create_outcome(
    r: Result<Option<ConversationRecord>, RaftError>,
    channel: Seq<char>,
    creator: Seq<char>,
    ps: Seq<Seq<char>>,
    exists: bool,
    existing: Option<Meta>,
    if_missing: bool,
    retention_days: u64,
    rate: (u64, u64, usize),
    now: Seq<char>,
    message_id: Seq<char>,
) -> bool {
    if exists {
        if if_missing {
            match existing {
                None => r matches Err(e) && e.message@ == "channel "@ + debug_quoted(channel) + " has no metadata"@,
                Some(m) => if m.channel {
                    r matches Ok(None)
                } else {
                    r matches Err(e) && e.message@ == debug_quoted(channel) + " already exists but is not a channel"@
                },
            }
        } else {
            r matches Err(e) && e.code == ErrorCode::Conflict && e.message@ == "channel "@ + debug_quoted(channel)
                + " already exists"@
        }
    } else {
        r matches Ok(Some(rec)) && is_opened(rec, channel, ps, creator, false, true, retention_days, rate, now, message_id)
    }
}

/// `channel create`: the record to write, `None` when the channel exists and
/// `if_missing` asks to leave it be. `existing` is its metadata when it
/// exists.
pub fn cmd_channel_create(
    channel: &str,
    creator: &str,
    members: &str,
    retention_days: u64,
    rate: (u64, u64, usize),
    exists: bool,
    existing: Option<Meta>,
    if_missing: bool,
    now: &str,
    message_id: String,
) -> (r: Result<Option<ConversationRecord>, RaftError>)
    ensures
        !id_valid(channel@) ==> (r matches Err(e) && e.message@ == invalid_id_message("channel id"@, channel@)),
        id_valid(channel@) && !id_valid(creator@) ==> (r matches Err(e) && e.message@ == invalid_id_message(
            "creator"@,
            creator@,
        )),
        id_valid(channel@) && id_valid(creator@) && first_invalid_id(csv_items(members@)) is Some ==> (r matches Err(
            e,
        ) && e.message@ == invalid_id_message("id"@, first_invalid_id(csv_items(members@))->0)),
        id_valid(channel@) && id_valid(creator@) && first_invalid_id(csv_items(members@)) is None ==> channel_create_outcome(
            r,
            channel@,
            creator@,
            with_first(creator@, csv_items(members@)),
            exists,
            existing,
            if_missing,
            retention_days,
            rate,
            now@,
            message_id@,
        ),
        r matches Err(e) ==> e.code == ErrorCode::Error || e.code == ErrorCode::Conflict,
{
    let channel_id = validate_id(channel, "channel id")?;
    let c = validate_id(creator, "creator")?;
    let rest = split_csv(members)?;
    let ps = prepend_unique(c, rest);
    if exists {
        if if_missing {
            match existing {
                None => {
                    let q = debug_str(channel);
                    let mut msg = String::from_str("channel ");
                    msg.append(q.as_str());
                    msg.append(" has no metadata");
                    return Err(RaftError::coded(ErrorCode::Error, msg));
                },
                Some(m) => {
                    if !m.channel {
                        let mut msg = debug_str(channel);
                        msg.append(" already exists but is not a channel");
                        return Err(RaftError::coded(ErrorCode::Error, msg));
                    }
                    return Ok(None);
                },
            }
        }
        let q = debug_str(channel);
        let mut msg = String::from_str("channel ");
        msg.append(q.as_str());
        msg.append(" already exists");
        return Err(RaftError::coded(ErrorCode::Conflict, msg));
    }
    let r = rate_of(rate);
    Ok(Some(opened_record(channel_id.as_str(), ps, creator, false, true, retention_days, r, now, message_id)))
}

} // verus!
