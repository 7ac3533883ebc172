//! Obligations and visibility on the bus: who sees a message, who owes a
//! response, how receipts evolve, who is mentioned.

use vstd::prelude::*;
use crate::error::{ErrorCode, RaftError};
use crate::lists::{contains_str, dedup, extract_mentions, mentions, unique, views};
use crate::records::{Message, Meta, Receipt, ReceiptEvent};
use crate::sets::{lemma_views_push, sorted_insert, sorted_strict};
use crate::text::{debug_quoted, debug_str, str_eq};
use crate::util::{ask_is_terminal, is_terminal_status};
use crate::capability::opt_view;

verus! {

/// The values of `s` other than `x`, in order.
pub open spec fn without(s: Seq<Seq<char>>, x: Seq<char>) -> Seq<Seq<char>>
    decreases s.len(),
{
    if s.len() == 0 {
        s
    } else {
        let p = without(s.drop_last(), x);
        if s.last() == x {
            p
        } else {
            p.push(s.last())
        }
    }
}

/// The strings of `v` other than `x`, in order.
pub fn strings_without(v: &Vec<String>, x: &str) -> (r: Vec<String>)
    ensures
        views(r@) == without(views(v@), x@),
{
    let mut out: Vec<String> = Vec::new();
    let mut i: usize = 0;
    while i < v.len()
        invariant
            i <= v@.len(),
            views(out@) == without(views(v@).take(i as int), x@),
        decreases v@.len() - i,
    {
        proof {
            assert(views(v@).take(i + 1).drop_last() =~= views(v@).take(i as int));
            assert(views(v@).take(i + 1).last() == v@[i as int]@);
        }
        if !str_eq(v[i].as_str(), x) {
            let ghost before = out@;
            out.push(v[i].clone());
            proof {
                lemma_views_push(before, v@[i as int]);
            }
        }
        i = i + 1;
    }
    assert(views(v@).take(v@.len() as int) =~= views(v@));
    out
}

/// A message is visible to its sender, to every named recipient, and to
/// everyone when addressed to `*`.
pub open spec fn visible_to(m: Message, agent: Seq<char>) -> bool {
    m.from@ == agent || views(m.to@).contains("*"@) || views(m.to@).contains(agent)
}

/// Whether `agent_id` may see `message`.
pub fn message_visible_to(message: &Message, agent_id: &str) -> (r: bool)
    ensures
        r == visible_to(*message, agent_id@),
{
    str_eq(message.from.as_str(), agent_id) || contains_str(message.to.as_slice(), "*")
        || contains_str(message.to.as_slice(), agent_id)
}

/// Who a receipt is expected from: every participant but the sender for a
/// message to `*`, otherwise every recipient but the sender.
pub open spec fn expected_receipts(m: Message, meta: Meta) -> Seq<Seq<char>> {
    if views(m.to@).contains("*"@) {
        without(views(meta.participants@), m.from@)
    } else {
        without(views(m.to@), m.from@)
    }
}

/// The agents a message expects receipts from.
pub fn receipt_recipients(message: &Message, meta: &Meta) -> (r: Vec<String>)
    ensures
        views(r@) == expected_receipts(*message, *meta),
{
    if contains_str(message.to.as_slice(), "*") {
        strings_without(&meta.participants, message.from.as_str())
    } else {
        strings_without(&message.to, message.from.as_str())
    }
}

/// The agents a message is still awaiting a response from, before receipts
/// are considered: each `needs_response_from` name, and with `requires_ack`
/// every expected receipt too, without repeats, the sender or `*`. A
/// withdrawn message awaits nobody.
pub open spec fn awaited(m: Message, meta: Meta) -> Seq<Seq<char>> {
    if m.withdrawn is Some {
        Seq::empty()
    } else {
        let base = views(m.needs_response_from@) + (if m.requires_ack {
            expected_receipts(m, meta)
        } else {
            Seq::empty()
        });
        without(without(dedup(base), m.from@), "*"@)
    }
}

fn append_strings(a: &mut Vec<String>, b: Vec<String>)
    ensures
        views(final(a)@) == views(old(a)@) + views(b@),
{
    let mut b = b;
    let ghost bv = b@;
    a.append(&mut b);
    assert(views(a@) =~= views(old(a)@) + views(bv));
}

fn clone_strings(v: &Vec<String>) -> (r: Vec<String>)
    ensures
        views(r@) == views(v@),
{
    let mut out: Vec<String> = Vec::new();
    let mut i: usize = 0;
    while i < v.len()
        invariant
            i <= v@.len(),
            views(out@) == views(v@).take(i as int),
        decreases v@.len() - i,
    {
        let ghost before = out@;
        out.push(v[i].clone());
        proof {
            lemma_views_push(before, v@[i as int]);
            assert(views(v@).take(i + 1) =~= views(v@).take(i as int).push(v@[i as int]@));
        }
        i = i + 1;
    }
    assert(views(v@).take(v@.len() as int) =~= views(v@));
    out
}

/// The agents `message` is awaiting a response from.
pub fn message_awaited(message: &Message, meta: &Meta) -> (r: Vec<String>)
    ensures
        views(r@) == awaited(*message, *meta),
{
    if message.withdrawn.is_some() {
        return Vec::new();
    }
    let mut base = clone_strings(&message.needs_response_from);
    if message.requires_ack {
        let more = receipt_recipients(message, meta);
        append_strings(&mut base, more);
    } else {
        assert(views(base@) =~= views(message.needs_response_from@) + Seq::<Seq<char>>::empty());
    }
    let distinct = unique(base);
    let no_sender = strings_without(&distinct, message.from.as_str());
    strings_without(&no_sender, "*")
}

/// What an awaited agent owes: a substantive reply when named in
/// `needs_response_from`, otherwise a bare acknowledgement.
pub open spec fn await_kind_of(m: Message, agent: Seq<char>) -> Seq<char> {
    if views(m.needs_response_from@).contains(agent) { "needs_response"@ } else { "requires_ack"@ }
}

/// `needs_response` or `requires_ack`.
pub fn await_kind(message: &Message, agent_id: &str) -> (r: &'static str)
    ensures
        r@ == await_kind_of(*message, agent_id@),
{
    if contains_str(message.needs_response_from.as_slice(), agent_id) {
        "needs_response"
    } else {
        "requires_ack"
    }
}

/// Sort rank of an agent state: blocked first, then working, idle, away,
/// anything else.
pub open spec fn state_rank(state: Seq<char>) -> u8 {
    if state == "blocked"@ { 0 } else if state == "working"@ { 1 } else if state == "idle"@ { 2 }
    else if state == "away"@ { 3 } else { 4 }
}

pub fn state_priority(state: &str) -> (r: u8)
    ensures
        r == state_rank(state@),
{
    if str_eq(state, "blocked") { 0 } else if str_eq(state, "working") { 1 } else if str_eq(state, "idle") { 2 }
    else if str_eq(state, "away") { 3 } else { 4 }
}

/// A message is unread by an agent when it is an ordinary message from
/// someone else and the agent has no receipt for it.
pub open spec fn unread(m: Message, agent: Seq<char>, receipt_exists: bool) -> bool {
    m.kind@ != "system"@ && m.kind@ != "receipt"@ && m.from@ != agent && !receipt_exists
}

/// Whether `message` is unread by `agent_id`, given whether the agent's
/// receipt file exists.
pub fn message_is_unread(message: &Message, agent_id: &str, receipt_exists: bool) -> (r: bool)
    ensures
        r == unread(*message, agent_id@, receipt_exists),
{
    if str_eq(message.kind.as_str(), "system") || str_eq(message.kind.as_str(), "receipt") {
        return false;
    }
    if str_eq(message.from.as_str(), agent_id) {
        return false;
    }
    !receipt_exists
}

/// Whether a message is the system notice of an agent's state change.
pub fn is_state_change_message(message: &Message) -> (r: bool)
    ensures
        r == (message.kind@ == "system"@ && message.subject@ == "state changed"@),
{
    str_eq(message.kind.as_str(), "system") && str_eq(message.subject.as_str(), "state changed")
}

pub open spec fn not_participant_message(agent: Seq<char>, conversation: Seq<char>) -> Seq<char> {
    "agent "@ + debug_quoted(agent) + " is not a participant in "@ + debug_quoted(conversation)
}

/// Refuses an agent that is not a participant of the conversation.
pub fn ensure_participant(meta: &Meta, agent_id: &str) -> (r: Result<(), RaftError>)
    ensures
        r is Ok <==> views(meta.participants@).contains(agent_id@),
        r matches Err(e) ==> e.code == ErrorCode::NotParticipant && e.message@ == not_participant_message(agent_id@, meta.id@),
{
    if !contains_str(meta.participants.as_slice(), agent_id) {
        let a = debug_str(agent_id);
        let c = debug_str(meta.id.as_str());
        let mut m = String::from_str("agent ");
        m.append(a.as_str());
        m.append(" is not a participant in ");
        m.append(c.as_str());
        return Err(RaftError::coded(ErrorCode::NotParticipant, m));
    }
    Ok(())
}

pub open spec fn not_visible_message(message_id: Seq<char>, agent: Seq<char>) -> Seq<char> {
    "message "@ + debug_quoted(message_id) + " is not visible to "@ + debug_quoted(agent)
}

/// The refusal given to an agent that asks for a message it cannot see.
pub fn not_visible(message_id: &str, agent_id: &str) -> (r: RaftError)
    ensures
        r.code == ErrorCode::NotParticipant,
        r.message@ == not_visible_message(message_id@, agent_id@),
{
    let q = debug_str(message_id);
    let a = debug_str(agent_id);
    let mut m = String::from_str("message ");
    m.append(q.as_str());
    m.append(" is not visible to ");
    m.append(a.as_str());
    RaftError::coded(ErrorCode::NotParticipant, m)
}

/// The first recipient (other than `*`) that is not a participant.
pub open spec fn first_stranger(recipients: Seq<Seq<char>>, participants: Seq<Seq<char>>) -> Option<Seq<char>>
    decreases recipients.len(),
{
    if recipients.len() == 0 {
        None
    } else if recipients[0] != "*"@ && !participants.contains(recipients[0]) {
        Some(recipients[0])
    } else {
        first_stranger(recipients.drop_first(), participants)
    }
}

/// Refuses recipients that are not participants (`*` is always allowed).
pub fn ensure_recipients(meta: &Meta, recipients: &[String]) -> (r: Result<(), RaftError>)
    ensures
        match first_stranger(views(recipients@), views(meta.participants@)) {
            None => r is Ok,
            Some(x) => r matches Err(e) && e.code == ErrorCode::NotParticipant && e.message@ == "recipient "@
                + debug_quoted(x) + " is not a participant in "@ + debug_quoted(meta.id@),
        },
{
    let ghost rs = views(recipients@);
    let mut i: usize = 0;
    assert(rs.skip(0) =~= rs);
    while i < recipients.len()
        invariant
            i <= recipients@.len(),
            rs == views(recipients@),
            first_stranger(rs, views(meta.participants@)) == first_stranger(rs.skip(i as int), views(meta.participants@)),
        decreases recipients@.len() - i,
    {
        proof {
            let t = rs.skip(i as int);
            assert(t[0] == recipients@[i as int]@);
            assert(t.drop_first() =~= rs.skip(i + 1));
        }
        let r = recipients[i].as_str();
        if !str_eq(r, "*") && !contains_str(meta.participants.as_slice(), r) {
            let q = debug_str(r);
            let c = debug_str(meta.id.as_str());
            let mut m = String::from_str("recipient ");
            m.append(q.as_str());
            m.append(" is not a participant in ");
            m.append(c.as_str());
            return Err(RaftError::coded(ErrorCode::NotParticipant, m));
        }
        i = i + 1;
    }
    Ok(())
}

/// The participants mentioned in a subject or body, sorted, without repeats.
pub fn mentioned_participants(meta: &Meta, subject: &str, body: &str) -> (r: Vec<String>)
    ensures
        sorted_strict(views(r@)),
        forall|x: Seq<char>| #[trigger] views(r@).contains(x) <==> (mentions(subject@).contains(x)
            || mentions(body@).contains(x)) && views(meta.participants@).contains(x),
{
    let mut all = extract_mentions(subject);
    let ghost from_subject = views(all@);
    let b = extract_mentions(body);
    append_strings(&mut all, b);
    let ghost cand = views(all@);
    let mut out: Vec<String> = Vec::new();
    let mut i: usize = 0;
    while i < all.len()
        invariant
            i <= all@.len(),
            cand == views(all@),
            cand == from_subject + mentions(body@),
            from_subject == mentions(subject@),
            sorted_strict(views(out@)),
            forall|x: Seq<char>| #[trigger] views(out@).contains(x) <==> cand.take(i as int).contains(x)
                && views(meta.participants@).contains(x),
        decreases all@.len() - i,
    {
        let ghost before = views(out@);
        if contains_str(meta.participants.as_slice(), all[i].as_str()) {
            sorted_insert(&mut out, &all[i]);
        }
        proof {
            assert(cand[i as int] == all@[i as int]@);
            assert(cand.take(i + 1) =~= cand.take(i as int).push(cand[i as int]));
            assert forall|x: Seq<char>| #[trigger] views(out@).contains(x) <==> cand.take(i + 1).contains(x)
                && views(meta.participants@).contains(x) by {
                vstd::seq_lib::lemma_seq_contains_after_push(cand.take(i as int), cand[i as int], x);
                assert(views(out@).to_set().contains(x) == views(out@).contains(x));
                assert(before.to_set().contains(x) == before.contains(x));
                assert(before.contains(x) <==> cand.take(i as int).contains(x) && views(meta.participants@).contains(x));
            }
        }
        i = i + 1;
    }
    proof {
        assert(cand.take(cand.len() as int) =~= cand);
        assert forall|x: Seq<char>| #[trigger] cand.contains(x) <==> (mentions(subject@).contains(x)
            || mentions(body@).contains(x)) by {
            if cand.contains(x) {
                let k = choose|k: int| 0 <= k < cand.len() && cand[k] == x;
                if k < from_subject.len() {
                    assert(mentions(subject@)[k] == x);
                } else {
                    assert(mentions(body@)[k - from_subject.len()] == x);
                }
            }
            if mentions(subject@).contains(x) {
                let k = choose|k: int| 0 <= k < mentions(subject@).len() && mentions(subject@)[k] == x;
                assert(cand[k] == x);
            }
            if mentions(body@).contains(x) {
                let k = choose|k: int| 0 <= k < mentions(body@).len() && mentions(body@)[k] == x;
                assert(cand[k + from_subject.len()] == x);
            }
        }
    }
    out
}

/// The status a receipt keeps when `requested` is recorded over `old`: a
/// bare `read` never reverts an explicit acknowledgement, and a non-terminal
/// status never reverts a terminal `done`/`rejected`. Anything else applies.
/// Whether a request leaves the stored status (and its note) in place: a
/// `read` over any other status, or a non-terminal status over a terminal one.
pub open spec fn status_held(old: Seq<char>, requested: Seq<char>) -> bool {
    (requested == "read"@ && old != "read"@) || (!is_terminal_status(requested) && is_terminal_status(old))
}

pub open spec fn kept_status(old: Seq<char>, requested: Seq<char>) -> Seq<char> {
    if status_held(old, requested) {
        old
    } else {
        requested
    }
}

/// A terminal receipt stays terminal: no later request reopens a `done` or
/// `rejected` ask.
pub proof fn lemma_terminal_status_sticks(old: Seq<char>, requested: Seq<char>)
    requires
        is_terminal_status(old),
    ensures
        is_terminal_status(kept_status(old, requested)),
{
}

/// A bare `read` never reverts an explicit acknowledgement.
pub proof fn lemma_read_never_reverts(old: Seq<char>)
    requires
        old != "read"@,
    ensures
        kept_status(old, "read"@) == old,
{
}

/// A terminal request, and any request over a non-terminal status other
/// than a bare `read`, takes effect.
pub proof fn lemma_requested_status_applies(old: Seq<char>, requested: Seq<char>)
    requires
        requested != "read"@ || old == "read"@,
        is_terminal_status(requested) || !is_terminal_status(old),
    ensures
        kept_status(old, requested) == requested,
{
}

/// The status after recording each of `requests` in turn over `start`.
pub open spec fn status_after(start: Seq<char>, requests: Seq<Seq<char>>) -> Seq<char>
    decreases requests.len(),
{
    if requests.len() == 0 {
        start
    } else {
        kept_status(status_after(start, requests.drop_last()), requests.last())
    }
}

/// Once a receipt has become terminal, every later sequence of requests
/// leaves it terminal.
pub proof fn lemma_terminal_after_any_requests(start: Seq<char>, requests: Seq<Seq<char>>)
    requires
        is_terminal_status(start),
    ensures
        is_terminal_status(status_after(start, requests)),
    decreases requests.len(),
{
    if requests.len() > 0 {
        lemma_terminal_after_any_requests(start, requests.drop_last());
    }
}

pub open spec fn event_view(e: ReceiptEvent) -> (Seq<char>, Seq<char>, Option<Seq<char>>) {
    (e.status@, e.at@, opt_view(e.note))
}

pub open spec fn event_views(v: Seq<ReceiptEvent>) -> Seq<(Seq<char>, Seq<char>, Option<Seq<char>>)> {
    Seq::new(v.len(), |i: int| event_view(v[i]))
}

fn clone_opt(o: &Option<String>) -> (r: Option<String>)
    ensures
        opt_view(r) == opt_view(*o),
{
    match o {
        Some(s) => Some(s.clone()),
        None => None,
    }
}

/// The receipt that results from `agent_id` recording `status` on
/// `message` at `now`, over the stored receipt if there is one. The agent
/// must be a participant and able to see the message. The status follows
/// [`kept_status`]; the history records every request.
pub fn write_receipt(
    meta: &Meta,
    message: &Message,
    agent_id: &str,
    status: &str,
    note: Option<String>,
    existing: Option<Receipt>,
    now: &str,
) -> (r: Result<Receipt, RaftError>)
    ensures
        !views(meta.participants@).contains(agent_id@) ==> (r matches Err(e) && e.code == ErrorCode::NotParticipant
            && e.message@ == not_participant_message(agent_id@, meta.id@)),
        views(meta.participants@).contains(agent_id@) && !visible_to(*message, agent_id@) ==> (r matches Err(e)
            && e.code == ErrorCode::NotParticipant && e.message@ == not_visible_message(message.id@, agent_id@)),
        views(meta.participants@).contains(agent_id@) && visible_to(*message, agent_id@) ==> (r matches Ok(rc)
            && rc.status@ == (match existing {
                Some(e) => kept_status(e.status@, status@),
                None => status@,
            }) && event_views(rc.history@) == (match existing {
                Some(e) => event_views(e.history@),
                None => Seq::empty(),
            }).push((status@, now@, opt_view(note))) && rc.updated_at@ == now@ && opt_view(rc.note) == (match existing {
                Some(e) => if status_held(e.status@, status@) { opt_view(e.note) } else { opt_view(note) },
                None => opt_view(note),
            })
            && opt_view(rc.read_at) == (match existing {
                Some(e) => if status@ == "read"@ && e.read_at is None { Some(now@) } else { opt_view(e.read_at) },
                None => if status@ == "read"@ { Some(now@) } else { None },
            }) && match existing {
                Some(e) => rc.v == e.v && rc.message_id@ == e.message_id@ && rc.conversation_id@
                    == e.conversation_id@ && rc.agent@ == e.agent@,
                None => rc.v == 1 && rc.message_id@ == message.id@ && rc.conversation_id@
                    == message.conversation_id@ && rc.agent@ == agent_id@,
            }),
{
    ensure_participant(meta, agent_id)?;
    if !message_visible_to(message, agent_id) {
        return Err(not_visible(message.id.as_str(), agent_id));
    }
    let mut receipt = match existing {
        Some(e) => e,
        None => Receipt {
            v: crate::util::schema_v1(),
            message_id: message.id.clone(),
            conversation_id: message.conversation_id.clone(),
            agent: String::from_str(agent_id),
            status: String::from_str(status),
            updated_at: String::from_str(now),
            note: clone_opt(&note),
            read_at: None,
            history: Vec::new(),
        },
    };
    let ghost old_history = receipt.history@;
    let ghost old_status = receipt.status@;
    receipt.history.push(ReceiptEvent { status: String::from_str(status), at: String::from_str(now), note: clone_opt(&note) });
    proof {
        assert(event_views(receipt.history@) =~= event_views(old_history).push((status@, now@, opt_view(note))));
    }
    let keep_old = (str_eq(status, "read") && !str_eq(receipt.status.as_str(), "read")) || (!ask_is_terminal(status)
        && ask_is_terminal(receipt.status.as_str()));
    if !keep_old {
        receipt.status = String::from_str(status);
        receipt.note = note;
    }
    receipt.updated_at = String::from_str(now);
    if str_eq(status, "read") && receipt.read_at.is_none() {
        receipt.read_at = Some(String::from_str(now));
    }
    Ok(receipt)
}

} // verus!
