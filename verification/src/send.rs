//! Sending a message: resolving recipients and obligations, checking them
//! against the conversation, and counting the send against its limits.

use vstd::prelude::*;
use crate::bus::{
    ensure_participant, ensure_recipients, first_stranger, mentioned_participants, not_participant_message,
};
use crate::capability::opt_view;
use crate::error::{ErrorCode, RaftError};
use crate::lists::{
    contains_str, csv_items, dedup, first_bad_recipient, lemma_dedup_contains, mentions, recipients_of, split_recipients, unique, views,
};
use crate::rates::{enforce_rate_limit, rate_counted, rate_refusal, rate_refusal_code, RateState};
use crate::records::{Message, Meta};
use crate::sets::{lemma_sorted_of, lemma_views_push, sorted_of, sorted_strict};
use crate::storage::opt_str_view;
use crate::util::{
    id_valid, invalid_id_message, is_send_kind, normalize_send_kind, rate_key_spec, reserved_kind_message,
    schema_v1, subject_id_error, subject_id_valid, unsupported_kind_message, validate_id, validate_subject_id,
};

verus! {

/// What `send` was asked to do.
pub struct SendMessageInput {
    pub conversation_id: String,
    pub sender: String,
    /// Comma-separated recipients; `*` addresses everyone.
    pub to: String,
    pub subject: String,
    pub body: String,
    pub kind: String,
    pub after: Option<String>,
    pub subject_id: Option<String>,
    pub requires_ack: bool,
    /// Comma-separated agents whose substantive reply is expected.
    pub needs_response_from: String,
}

/// The recipients named by `to`, without repeats.
pub open spec fn listed_recipients(to: Seq<char>) -> Seq<Seq<char>> {
    dedup(recipients_of(csv_items(to)))
}

/// Why a send is refused before the conversation is consulted.
pub open spec fn address_refusal(sender: Seq<char>, to: Seq<char>) -> Option<Seq<char>> {
    if !id_valid(sender) {
        Some(invalid_id_message("sender"@, sender))
    } else if first_bad_recipient(csv_items(to)) is Some {
        Some(invalid_id_message("recipient"@, first_bad_recipient(csv_items(to))->0))
    } else if listed_recipients(to).len() == 0 {
        Some("--to needs at least one recipient"@)
    } else {
        None
    }
}

/// Check the sender and the recipient list of a send. On success, the sender
/// and the distinct recipients.
pub fn send_recipients(sender: &str, to: &str) -> (r: Result<(String, Vec<String>), RaftError>)
    ensures
        match address_refusal(sender@, to@) {
            Some(m) => r matches Err(e) && e.code == ErrorCode::Error && e.message@ == m,
            None => r matches Ok((s, rs)) && s@ == sender@ && views(rs@) == listed_recipients(to@),
        },
{
    let s = validate_id(sender, "sender")?;
    let listed = split_recipients(to)?;
    let recipients = unique(listed);
    if recipients.len() == 0 {
        return Err(RaftError::coded(ErrorCode::Error, String::from_str("--to needs at least one recipient")));
    }
    Ok((s, recipients))
}

/// The participants mentioned in a subject or body.
pub open spec fn mention_set(meta: Meta, subject: Seq<char>, body: Seq<char>) -> Set<Seq<char>> {
    Set::new(|x: Seq<char>| (mentions(subject).contains(x) || mentions(body).contains(x)) && views(meta.participants@).contains(x))
}

/// The recipients after adding the mentioned participants.
pub open spec fn addressed(recipients: Seq<Seq<char>>, meta: Meta, subject: Seq<char>, body: Seq<char>) -> Seq<Seq<char>> {
    dedup(recipients + sorted_of(mention_set(meta, subject, body)))
}

/// The first name that is not a participant.
pub open spec fn first_outsider(names: Seq<Seq<char>>, participants: Seq<Seq<char>>) -> Option<Seq<char>>
    decreases names.len(),
{
    if names.len() == 0 {
        None
    } else if !participants.contains(names[0]) {
        Some(names[0])
    } else {
        first_outsider(names.drop_first(), participants)
    }
}

/// The awaited agents not already addressed, unless everyone is.
pub open spec fn uncovered(needs: Seq<Seq<char>>, to: Seq<Seq<char>>) -> Seq<Seq<char>>
    decreases needs.len(),
{
    if needs.len() == 0 || to.contains("*"@) {
        Seq::empty()
    } else {
        let p = uncovered(needs.drop_last(), to);
        if to.contains(needs.last()) { p } else { p.push(needs.last()) }
    }
}

pub open spec fn obligation_kind_message() -> Seq<char> {
    "--requires-ack and --needs-response-from are only valid on kind \"message\""@
}

pub open spec fn kind_error(kind: Seq<char>) -> Seq<char> {
    if kind == "system"@ { reserved_kind_message() } else { unsupported_kind_message(kind) }
}

/// Why a send is refused once the conversation is known, checked in order
/// (rate limits come after).
pub open spec fn send_refusal(input: SendMessageInput, sender: Seq<char>, recipients: Seq<Seq<char>>, meta: Meta) -> Option<Seq<char>> {
    let ps = views(meta.participants@);
    let to1 = addressed(recipients, meta, input.subject@, input.body@);
    let needs_items = csv_items(input.needs_response_from@);
    let needs = listed_recipients(input.needs_response_from@);
    if !ps.contains(sender) {
        Some(not_participant_message(sender, meta.id@))
    } else if first_stranger(to1, ps) is Some {
        Some("recipient "@ + crate::text::debug_quoted(first_stranger(to1, ps)->0) + " is not a participant in "@
            + crate::text::debug_quoted(meta.id@))
    } else if first_bad_recipient(needs_items) is Some {
        Some(invalid_id_message("recipient"@, first_bad_recipient(needs_items)->0))
    } else if first_outsider(needs, ps) is Some {
        Some(not_participant_message(first_outsider(needs, ps)->0, meta.id@))
    } else if !is_send_kind(input.kind@) {
        Some(kind_error(input.kind@))
    } else if input.kind@ != "message"@ && (input.requires_ack || needs.len() > 0) {
        Some(obligation_kind_message())
    } else if input.subject_id is Some && !subject_id_valid(input.subject_id->0@) {
        Some(subject_id_error(input.subject_id->0@))
    } else if input.after is Some && !id_valid(input.after->0@) {
        Some(invalid_id_message("after message id"@, input.after->0@))
    } else {
        None
    }
}

/// The category of a refusal by [`send_refusal`]: a sender, recipient or
/// awaited agent outside the conversation is `not_participant`; the rest are
/// plain errors.
pub open spec fn send_refusal_code(input: SendMessageInput, sender: Seq<char>, recipients: Seq<Seq<char>>, meta: Meta) -> ErrorCode {
    let ps = views(meta.participants@);
    let to1 = addressed(recipients, meta, input.subject@, input.body@);
    let needs_items = csv_items(input.needs_response_from@);
    let needs = listed_recipients(input.needs_response_from@);
    if !ps.contains(sender) || first_stranger(to1, ps) is Some {
        ErrorCode::NotParticipant
    } else if first_bad_recipient(needs_items) is Some {
        ErrorCode::Error
    } else if first_outsider(needs, ps) is Some {
        ErrorCode::NotParticipant
    } else {
        ErrorCode::Error
    }
}

/// The message a send writes, given what it resolved.
pub open spec fn is_sent_message(
    m: Message,
    input: SendMessageInput,
    sender: Seq<char>,
    recipients: Seq<Seq<char>>,
    meta: Meta,
    message_id: Seq<char>,
    now_text: Seq<char>,
) -> bool {
    let to1 = addressed(recipients, meta, input.subject@, input.body@);
    let needs = listed_recipients(input.needs_response_from@);
    &&& m.v == 1
    &&& m.id@ == message_id
    &&& m.conversation_id@ == meta.id@
    &&& m.kind@ == input.kind@
    &&& m.from@ == sender
    &&& views(m.to@) == dedup(to1 + uncovered(needs, to1))
    &&& views(m.mentions@) == sorted_of(mention_set(meta, input.subject@, input.body@))
    &&& m.subject@ == input.subject@
    &&& m.body@ == input.body@
    &&& m.created_at@ == now_text
    &&& m.requires_ack == input.requires_ack
    &&& views(m.needs_response_from@) == needs
    &&& opt_view(m.subject_id) == opt_view(input.subject_id)
    &&& opt_view(m.after) == opt_view(input.after)
    &&& m.withdrawn is None
}

fn clone_strings(v: &Vec<String>) -> (r: Vec<String>)
    ensures
        views(r@) == views(v@),
{
    let mut out: Vec<String> = Vec::new();
    let mut i: usize = 0;
    while i < v.len()
        invariant
            i <= v@.len(),
            views(out@) == views(v@).take(i as int),
        decreases v@.len() - i,
    {
        let ghost before = out@;
        out.push(v[i].clone());
        proof {
            lemma_views_push(before, v@[i as int]);
            assert(views(v@).take(i + 1) =~= views(v@).take(i as int).push(v@[i as int]@));
        }
        i = i + 1;
    }
    assert(views(v@).take(v@.len() as int) =~= views(v@));
    out
}

fn concat_strings(a: Vec<String>, b: Vec<String>) -> (r: Vec<String>)
    ensures
        views(r@) == views(a@) + views(b@),
{
    let mut a = a;
    let mut b = b;
    let ghost av = a@;
    let ghost bv = b@;
    a.append(&mut b);
    assert(views(a@) =~= views(av) + views(bv));
    a
}

fn clone_opt(o: &Option<String>) -> (r: Option<String>)
    ensures
        opt_view(r) == opt_view(*o),
{
    match o {
        Some(s) => Some(s.clone()),
        None => None,
    }
}

/// Resolve a send within its conversation: add mentioned participants and
/// awaited agents to the recipients, check everything against the
/// participants and the kind, count the send against the rate limits, and
/// build the message. Returns the message and the rate state to store.
pub fn send_message(
    input: &SendMessageInput,
    sender: &str,
    recipients: Vec<String>,
    meta: &Meta,
    rates: RateState,
    now: (i64, u32),
    now_text: &str,
    message_id: String,
) -> (r: Result<(Message, RateState), RaftError>)
    ensures
        match send_refusal(*input, sender@, views(recipients@), *meta) {
            Some(m) => r matches Err(e) && e.code == send_refusal_code(*input, sender@, views(recipients@), *meta)
                && e.message@ == m,
            None => {
                let key = rate_key_spec(sender@, opt_view(input.subject_id));
                match rate_refusal(*meta, rates.senders@, key, input.body@, now, now_text@) {
                    Some(m) => r matches Err(e) && e.code == rate_refusal_code(*meta, input.body@) && e.message@ == m,
                    None => r matches Ok((msg, s)) && is_sent_message(msg, *input, sender@, views(recipients@), *meta,
                        message_id@, now_text@) && s.v == rates.v && rate_counted(rates.senders@, s.senders@, key,
                        now, now_text@, meta.rate.window_seconds),
                }
            },
        },
        r matches Ok((msg, _)) ==> (forall|x: Seq<char>| #[trigger] views(recipients@).contains(x) ==> views(
            msg.to@,
        ).contains(x)) && (forall|x: Seq<char>| #[trigger] listed_recipients(input.needs_response_from@).contains(x)
            ==> views(msg.to@).contains(x) || views(msg.to@).contains("*"@)) && views(msg.needs_response_from@)
            == listed_recipients(input.needs_response_from@),
{
    let ghost rv = views(recipients@);
    ensure_participant(meta, sender)?;
    let mentions = mentioned_participants(meta, input.subject.as_str(), input.body.as_str());
    proof {
        let ms = mention_set(*meta, input.subject@, input.body@);
        assert(views(mentions@).to_set() =~= ms);
        lemma_sorted_of(views(mentions@), ms);
    }
    let all = concat_strings(recipients, clone_strings(&mentions));
    let to1 = unique(all);
    ensure_recipients(meta, to1.as_slice())?;
    let listed = split_recipients(input.needs_response_from.as_str())?;
    let needs = unique(listed);
    let ghost nv = views(needs@);
    let star = contains_str(to1.as_slice(), "*");
    let mut extra: Vec<String> = Vec::new();
    let mut i: usize = 0;
    assert(nv.skip(0) =~= nv);
    while i < needs.len()
        invariant
            i <= needs@.len(),
            nv == views(needs@),
            nv == listed_recipients(input.needs_response_from@),
            rv == views(recipients@),
            views(meta.participants@).contains(sender@),
            views(to1@) == addressed(rv, *meta, input.subject@, input.body@),
            first_stranger(views(to1@), views(meta.participants@)) is None,
            first_bad_recipient(csv_items(input.needs_response_from@)) is None,
            star == views(to1@).contains("*"@),
            views(extra@) == uncovered(nv.take(i as int), views(to1@)),
            first_outsider(nv, views(meta.participants@)) == first_outsider(nv.skip(i as int), views(meta.participants@)),
        decreases needs@.len() - i,
    {
        proof {
            let t = nv.skip(i as int);
            assert(t[0] == needs@[i as int]@);
            assert(t.drop_first() =~= nv.skip(i + 1));
            assert(nv.take(i + 1).drop_last() =~= nv.take(i as int));
            assert(nv.take(i + 1).last() == needs@[i as int]@);
        }
        ensure_participant(meta, needs[i].as_str())?;
        if !star && !contains_str(to1.as_slice(), needs[i].as_str()) {
            let ghost before = extra@;
            extra.push(needs[i].clone());
            proof {
                lemma_views_push(before, needs@[i as int]);
            }
        }
        i = i + 1;
    }
    assert(nv.take(nv.len() as int) =~= nv);
    let to = unique(concat_strings(to1, extra));
    let kind = normalize_send_kind(input.kind.as_str())?;
    if !crate::text::str_eq(kind.as_str(), "message") && (input.requires_ack || needs.len() > 0) {
        return Err(RaftError::coded(
            ErrorCode::Error,
            String::from_str("--requires-ack and --needs-response-from are only valid on kind \"message\""),
        ));
    }
    let subject_id = match &input.subject_id {
        Some(s) => Some(validate_subject_id(s.as_str())?),
        None => None,
    };
    let after = match &input.after {
        Some(a) => Some(validate_id(a.as_str(), "after message id")?),
        None => None,
    };
    let subject_ref: Option<&str> = match &subject_id {
        Some(s) => Some(s.as_str()),
        None => None,
    };
    let state = enforce_rate_limit(meta, rates, sender, subject_ref, input.body.as_str(), now, now_text)?;
    let message = Message {
        v: schema_v1(),
        id: message_id,
        conversation_id: meta.id.clone(),
        kind,
        from: String::from_str(sender),
        to,
        mentions,
        subject: input.subject.clone(),
        body: input.body.clone(),
        created_at: String::from_str(now_text),
        requires_ack: input.requires_ack,
        needs_response_from: needs,
        subject_id,
        after,
        withdrawn: None,
    };
    proof {
        lemma_sent_message_reach(message, *input, sender@, rv, *meta, message.id@, now_text@);
    }
    Ok((message, state))
}


proof fn lemma_uncovered_contains(needs: Seq<Seq<char>>, to: Seq<Seq<char>>, x: Seq<char>)
    ensures
        uncovered(needs, to).contains(x) <==> needs.contains(x) && !to.contains(x) && !to.contains("*"@),
    decreases needs.len(),
{
    if needs.len() > 0 && !to.contains("*"@) {
        lemma_uncovered_contains(needs.drop_last(), to, x);
        let p = uncovered(needs.drop_last(), to);
        vstd::seq_lib::lemma_seq_contains_after_push(p, needs.last(), x);
        vstd::seq_lib::lemma_seq_contains_after_push(needs.drop_last(), needs.last(), x);
        assert(needs.drop_last().push(needs.last()) =~= needs);
    }
}

/// Who a sent message reaches: every recipient asked for, every awaited
/// agent (unless the message already goes to everyone, `*`), and nobody
/// else but the participants its subject and body mention; it records the
/// awaited agents as given.
pub proof fn lemma_sent_message_reach(
    m: Message,
    input: SendMessageInput,
    sender: Seq<char>,
    recipients: Seq<Seq<char>>,
    meta: Meta,
    message_id: Seq<char>,
    now_text: Seq<char>,
)
    requires
        is_sent_message(m, input, sender, recipients, meta, message_id, now_text),
    ensures
        forall|x: Seq<char>| #[trigger] recipients.contains(x) ==> views(m.to@).contains(x),
        forall|x: Seq<char>| #[trigger] listed_recipients(input.needs_response_from@).contains(x) ==> views(
            m.to@,
        ).contains(x) || views(m.to@).contains("*"@),
        forall|x: Seq<char>| #[trigger] views(m.to@).contains(x) ==> recipients.contains(x) || views(
            m.mentions@,
        ).contains(x) || listed_recipients(input.needs_response_from@).contains(x),
        views(m.needs_response_from@) == listed_recipients(input.needs_response_from@),
{
    let ms = sorted_of(mention_set(meta, input.subject@, input.body@));
    let to1 = addressed(recipients, meta, input.subject@, input.body@);
    let needs = listed_recipients(input.needs_response_from@);
    let u = uncovered(needs, to1);
    assert forall|x: Seq<char>| #![auto] true implies (views(m.to@).contains(x) <==> (recipients.contains(x)
        || ms.contains(x) || (needs.contains(x) && !to1.contains(x) && !to1.contains("*"@)))) by {
        lemma_dedup_contains(to1 + u, x);
        lemma_dedup_contains(recipients + ms, x);
        lemma_uncovered_contains(needs, to1, x);
        vstd::seq_lib::lemma_seq_concat_contains_all_elements(to1, u, x);
        vstd::seq_lib::lemma_seq_concat_contains_all_elements(recipients, ms, x);
    }
    assert forall|x: Seq<char>| #[trigger] needs.contains(x) implies views(m.to@).contains(x) || views(m.to@).contains(
        "*"@,
    ) by {
        lemma_dedup_contains(recipients + ms, x);
        lemma_dedup_contains(recipients + ms, "*"@);
        vstd::seq_lib::lemma_seq_concat_contains_all_elements(recipients, ms, x);
        vstd::seq_lib::lemma_seq_concat_contains_all_elements(recipients, ms, "*"@);
        assert(views(m.to@).contains(x) <==> (recipients.contains(x) || ms.contains(x) || (needs.contains(x)
            && !to1.contains(x) && !to1.contains("*"@))));
        assert(views(m.to@).contains("*"@) <==> (recipients.contains("*"@) || ms.contains("*"@) || (needs.contains("*"@)
            && !to1.contains("*"@) && !to1.contains("*"@))));
    }
}

} // verus!
