//! Open asks: who still owes a response to which message, and the roster
//! of agents with what they owe and are owed.

use vstd::prelude::*;
use crate::bus::{awaited, message_awaited, state_priority, state_rank};
use crate::lists::{contains_str, views};
use crate::order::{insert_by, lemma_insert_by_at, sort_by, sorted_by, strict_weak_order};
use crate::records::{Agent, Message, Meta};
use crate::suggest::{
    lemma_seq_less_asymmetric, lemma_seq_less_irreflexive, lemma_seq_less_total,
    lemma_seq_less_transitive, seq_less, str_less,
};
use crate::text::str_eq;
use crate::time::{instant_before, instant_lt, parse_time, rfc3339_instant};
use crate::util::{ask_is_terminal, is_terminal_status};

verus! {

broadcast use vstd::std_specs::vec::group_vec_axioms, vstd::seq::group_seq_axioms;

/// One agent's pending response to one message.
pub struct OpenAsk {
    pub conversation_id: String,
    pub message_id: String,
    pub from: String,
    pub awaited: String,
    pub subject: String,
    pub created_at: String,
    /// The awaited agent's receipt status, `none` without a receipt.
    pub status: String,
}

pub struct AskView {
    pub conversation_id: Seq<char>,
    pub message_id: Seq<char>,
    pub from: Seq<char>,
    pub awaited: Seq<char>,
    pub subject: Seq<char>,
    pub created_at: Seq<char>,
    pub status: Seq<char>,
}

impl View for OpenAsk {
    type V = AskView;

    open spec fn view(&self) -> AskView {
        AskView {
            conversation_id: self.conversation_id@,
            message_id: self.message_id@,
            from: self.from@,
            awaited: self.awaited@,
            subject: self.subject@,
            created_at: self.created_at@,
            status: self.status@,
        }
    }
}

pub open spec fn ask_views(s: Seq<OpenAsk>) -> Seq<AskView> {
    s.map_values(|a: OpenAsk| a@)
}

/// A message with the receipt status of each agent that has a receipt for
/// it, as `(agent, status)`.
pub struct MessageReceipts {
    pub message: Message,
    pub receipts: Vec<(String, String)>,
}

/// A conversation with its stored messages, in file order.
pub struct AskSource {
    pub meta: Meta,
    pub messages: Vec<MessageReceipts>,
}

pub open spec fn receipt_views(v: Seq<(String, String)>) -> Seq<(Seq<char>, Seq<char>)> {
    v.map_values(|p: (String, String)| (p.0@, p.1@))
}

/// The receipt status `who` has, if any.
pub open spec fn receipt_status(receipts: Seq<(Seq<char>, Seq<char>)>, who: Seq<char>) -> Option<Seq<char>>
    decreases receipts.len(),
{
    if receipts.len() == 0 {
        None
    } else if receipts[0].0 == who {
        Some(receipts[0].1)
    } else {
        receipt_status(receipts.drop_first(), who)
    }
}

/// The open asks of message `m` toward the first `n` awaited agents `ws`:
/// every one but those whose receipt is terminal.
pub open spec fn asks_toward(meta: Meta, m: Message, receipts: Seq<(Seq<char>, Seq<char>)>, ws: Seq<Seq<char>>, n: int) -> Seq<AskView>
    decreases n,
{
    if n <= 0 {
        Seq::empty()
    } else {
        let p = asks_toward(meta, m, receipts, ws, n - 1);
        let who = ws[n - 1];
        match receipt_status(receipts, who) {
            Some(st) => if is_terminal_status(st) {
                p
            } else {
                p.push(ask_of(meta, m, who, st))
            },
            None => p.push(ask_of(meta, m, who, "none"@)),
        }
    }
}

pub open spec fn ask_of(meta: Meta, m: Message, who: Seq<char>, status: Seq<char>) -> AskView {
    AskView {
        conversation_id: meta.id@,
        message_id: m.id@,
        from: m.from@,
        awaited: who,
        subject: m.subject@,
        created_at: m.created_at@,
        status,
    }
}

/// The open asks a message carries: none for system and receipt messages.
pub open spec fn message_asks(meta: Meta, mr: MessageReceipts) -> Seq<AskView> {
    let m = mr.message;
    if m.kind@ == "system"@ || m.kind@ == "receipt"@ {
        Seq::empty()
    } else {
        asks_toward(meta, m, receipt_views(mr.receipts@), awaited(m, meta), awaited(m, meta).len() as int)
    }
}

pub open spec fn conversation_asks(meta: Meta, ms: Seq<MessageReceipts>, n: int) -> Seq<AskView>
    decreases n,
{
    if n <= 0 {
        Seq::empty()
    } else {
        conversation_asks(meta, ms, n - 1) + message_asks(meta, ms[n - 1])
    }
}

/// Whether a conversation is looked at: it is the one asked for (if any)
/// and has the participant asked for (if any).
pub open spec fn in_scope(meta: Meta, only: Option<Seq<char>>, participant: Option<Seq<char>>) -> bool {
    (only matches Some(id) ==> meta.id@ == id) && (participant matches Some(a) ==> views(
        meta.participants@,
    ).contains(a))
}

pub open spec fn gathered(srcs: Seq<AskSource>, only: Option<Seq<char>>, participant: Option<Seq<char>>, n: int) -> Seq<AskView>
    decreases n,
{
    if n <= 0 {
        Seq::empty()
    } else {
        gathered(srcs, only, participant, n - 1) + if in_scope(srcs[n - 1].meta, only, participant) {
            conversation_asks(srcs[n - 1].meta, srcs[n - 1].messages@, srcs[n - 1].messages@.len() as int)
        } else {
            Seq::empty()
        }
    }
}

/// Order of asks: oldest first, ties by message id.
pub open spec fn ask_less(a: AskView, b: AskView) -> bool {
    seq_less(a.created_at, b.created_at) || (a.created_at == b.created_at && seq_less(a.message_id, b.message_id))
}

/// The order of the open-ask listing.
pub open spec fn ask_order() -> spec_fn(AskView, AskView) -> bool {
    |a: AskView, b: AskView| ask_less(a, b)
}

/// The open asks of the conversations in scope, oldest first.
pub open spec fn open_asks(srcs: Seq<AskSource>, only: Option<Seq<char>>, participant: Option<Seq<char>>) -> Seq<AskView> {
    sort_by(gathered(srcs, only, participant, srcs.len() as int), ask_order())
}

/// Asks are ordered by a strict weak order, so the listing is sorted.
pub proof fn lemma_ask_order()
    ensures
        strict_weak_order(ask_order()),
{
    let less = ask_order();
    assert forall|a: AskView| !#[trigger] less(a, a) by {
        lemma_seq_less_irreflexive(a.created_at);
        lemma_seq_less_irreflexive(a.message_id);
    }
    assert forall|a: AskView, b: AskView, c: AskView| #[trigger] less(a, b) && #[trigger] less(b, c) implies less(a, c) by {
        lemma_seq_less_transitive(a.created_at, b.created_at, c.created_at);
        lemma_seq_less_transitive(a.message_id, b.message_id, c.message_id);
    }
    assert forall|a: AskView, b: AskView, c: AskView| !#[trigger] less(a, b) && !#[trigger] less(b, c) implies !less(a, c) by {
        lemma_seq_less_total(a.created_at, b.created_at);
        lemma_seq_less_total(b.created_at, c.created_at);
        lemma_seq_less_total(a.message_id, b.message_id);
        lemma_seq_less_total(b.message_id, c.message_id);
        lemma_seq_less_transitive(c.created_at, b.created_at, a.created_at);
        lemma_seq_less_transitive(c.message_id, b.message_id, a.message_id);
        lemma_seq_less_asymmetric(a.created_at, c.created_at);
        lemma_seq_less_asymmetric(a.message_id, c.message_id);
        lemma_seq_less_irreflexive(a.created_at);
        lemma_seq_less_irreflexive(a.message_id);
        lemma_seq_less_asymmetric(b.created_at, a.created_at);
        lemma_seq_less_asymmetric(c.created_at, b.created_at);
    }
}

/// The open-ask listing is in order: no ask is older than one before it.
pub proof fn lemma_open_asks_sorted(srcs: Seq<AskSource>, only: Option<Seq<char>>, participant: Option<Seq<char>>)
    ensures
        sorted_by(open_asks(srcs, only, participant), ask_order()),
{
    lemma_ask_order();
    crate::order::lemma_sort_by_sorted(
        gathered(srcs, only, participant, srcs.len() as int),
        ask_order(),
    );
}

fn find_status(receipts: &Vec<(String, String)>, who: &str) -> (r: Option<String>)
    ensures
        match r {
            Some(s) => receipt_status(receipt_views(receipts@), who@) == Some(s@),
            None => receipt_status(receipt_views(receipts@), who@) is None,
        },
{
    let ghost rv = receipt_views(receipts@);
    let mut i: usize = 0;
    assert(rv.skip(0) =~= rv);
    while i < receipts.len()
        invariant
            i <= receipts@.len(),
            rv == receipt_views(receipts@),
            receipt_status(rv, who@) == receipt_status(rv.skip(i as int), who@),
        decreases receipts@.len() - i,
    {
        proof {
            let t = rv.skip(i as int);
            assert(t[0] == rv[i as int]);
            assert(t.drop_first() =~= rv.skip(i + 1));
        }
        if str_eq(receipts[i].0.as_str(), who) {
            return Some(receipts[i].1.clone());
        }
        i = i + 1;
    }
    None
}

fn push_message_asks(out: &mut Vec<OpenAsk>, meta: &Meta, mr: &MessageReceipts)
    ensures
        ask_views(final(out)@) == ask_views(old(out)@) + message_asks(*meta, *mr),
{
    let m = &mr.message;
    if str_eq(m.kind.as_str(), "system") || str_eq(m.kind.as_str(), "receipt") {
        assert(ask_views(out@) =~= ask_views(old(out)@) + message_asks(*meta, *mr));
        return;
    }
    let ws = message_awaited(m, meta);
    let ghost wv = views(ws@);
    let ghost rv = receipt_views(mr.receipts@);
    let ghost start = ask_views(out@);
    let mut i: usize = 0;
    while i < ws.len()
        invariant
            i <= ws@.len(),
            wv == views(ws@),
            wv == awaited(*m, *meta),
            rv == receipt_views(mr.receipts@),
            ask_views(out@) == start + asks_toward(*meta, *m, rv, wv, i as int),
        decreases ws@.len() - i,
    {
        let who = ws[i].as_str();
        let st = find_status(&mr.receipts, who);
        let ghost before = out@;
        let keep = match &st {
            Some(s) => !ask_is_terminal(s.as_str()),
            None => true,
        };
        if keep {
            let status = match st {
                Some(s) => s,
                None => String::from_str("none"),
            };
            let ghost sv = status@;
            out.push(OpenAsk {
                conversation_id: meta.id.clone(),
                message_id: m.id.clone(),
                from: m.from.clone(),
                awaited: ws[i].clone(),
                subject: m.subject.clone(),
                created_at: m.created_at.clone(),
                status,
            });
        }
        proof {
            assert(wv[i as int] == who@);
            if keep {
                assert(ask_views(out@) =~= ask_views(before).push(out@.last()@));
                assert(out@.last()@ == ask_of(*meta, *m, who@, out@.last()@.status));
            } else {
                assert(ask_views(out@) =~= ask_views(before));
            }
            assert(ask_views(out@) =~= start + asks_toward(*meta, *m, rv, wv, i + 1));
        }
        i = i + 1;
    }
    assert(ask_views(out@) =~= ask_views(old(out)@) + message_asks(*meta, *mr));
}

fn ask_before(a: &OpenAsk, b: &OpenAsk) -> (r: bool)
    ensures
        r == ask_less(a@, b@),
{
    str_less(a.created_at.as_str(), b.created_at.as_str()) || (str_eq(a.created_at.as_str(), b.created_at.as_str())
        && str_less(a.message_id.as_str(), b.message_id.as_str()))
}

fn sort_asks(v: &Vec<OpenAsk>) -> (r: Vec<OpenAsk>)
    ensures
        ask_views(r@) == sort_by(ask_views(v@), ask_order()),
{
    let ghost less = ask_order();
    let mut sorted: Vec<OpenAsk> = Vec::new();
    let ghost all = ask_views(v@);
    let n = v.len();
    let mut i: usize = 0;
    while i < n
        invariant
            i <= n,
            n == all.len(),
            all == ask_views(v@),
            less == ask_order(),
            ask_views(sorted@) == sort_by(all.take(i as int), less),
        decreases n - i,
    {
        let x = copy_ask(&v[i]);
        let mut p: usize = 0;
        while p < sorted.len() && !ask_before(&x, &sorted[p])
            invariant
                p <= sorted@.len(),
                less == ask_order(),
                forall|k: int| 0 <= k < p ==> !less(x@, #[trigger] ask_views(sorted@)[k]),
            decreases sorted@.len() - p,
        {
            assert(ask_views(sorted@)[p as int] == sorted@[p as int]@);
            assert(less(x@, ask_views(sorted@)[p as int]) == ask_less(x@, sorted@[p as int]@));
            p = p + 1;
        }
        proof {
            if p < sorted@.len() {
                assert(ask_views(sorted@)[p as int] == sorted@[p as int]@);
                assert(less(x@, ask_views(sorted@)[p as int]) == ask_less(x@, sorted@[p as int]@));
            }
            lemma_insert_by_at(ask_views(sorted@), x@, less, p as int);
            assert(all.take(i + 1).drop_last() =~= all.take(i as int));
            assert(x@ == all[i as int]);
        }
        let ghost before = ask_views(sorted@);
        let ghost xv = x@;
        sorted.insert(p, x);
        proof {
            assert(ask_views(sorted@) =~= before.take(p as int) + seq![all[i as int]] + before.skip(p as int));
        }
        i = i + 1;
    }
    assert(all.take(n as int) =~= all);
    sorted
}

proof fn lemma_asks_toward_conversation(meta: Meta, m: Message, receipts: Seq<(Seq<char>, Seq<char>)>, ws: Seq<Seq<char>>, n: int, a: AskView)
    ensures
        asks_toward(meta, m, receipts, ws, n).contains(a) ==> a.conversation_id == meta.id@,
    decreases n,
{
    if n > 0 {
        lemma_asks_toward_conversation(meta, m, receipts, ws, n - 1, a);
        let p = asks_toward(meta, m, receipts, ws, n - 1);
        let who = ws[n - 1];
        match receipt_status(receipts, who) {
            Some(st) => {
                vstd::seq_lib::lemma_seq_contains_after_push(p, ask_of(meta, m, who, st), a);
            },
            None => {
                vstd::seq_lib::lemma_seq_contains_after_push(p, ask_of(meta, m, who, "none"@), a);
            },
        }
    }
}

proof fn lemma_conversation_asks_conversation(meta: Meta, ms: Seq<MessageReceipts>, n: int, a: AskView)
    ensures
        conversation_asks(meta, ms, n).contains(a) ==> a.conversation_id == meta.id@,
    decreases n,
{
    if n > 0 {
        lemma_conversation_asks_conversation(meta, ms, n - 1, a);
        let mr = ms[n - 1];
        let m = mr.message;
        lemma_asks_toward_conversation(meta, m, receipt_views(mr.receipts@), awaited(m, meta), awaited(m, meta).len() as int, a);
        vstd::seq_lib::lemma_seq_concat_contains_all_elements(conversation_asks(meta, ms, n - 1), message_asks(meta, mr), a);
    }
}

proof fn lemma_gathered_scope(srcs: Seq<AskSource>, only: Option<Seq<char>>, participant: Option<Seq<char>>, n: int, a: AskView)
    requires
        n <= srcs.len(),
        gathered(srcs, only, participant, n).contains(a),
    ensures
        exists|i: int| 0 <= i < n && (#[trigger] srcs[i]).meta.id@ == a.conversation_id && (only matches Some(id)
            ==> srcs[i].meta.id@ == id) && (participant matches Some(p) ==> views(srcs[i].meta.participants@).contains(
            p,
        )),
    decreases n,
{
    let prev = gathered(srcs, only, participant, n - 1);
    let src = srcs[n - 1];
    let here = if in_scope(src.meta, only, participant) {
        conversation_asks(src.meta, src.messages@, src.messages@.len() as int)
    } else {
        Seq::empty()
    };
    vstd::seq_lib::lemma_seq_concat_contains_all_elements(prev, here, a);
    if prev.contains(a) {
        lemma_gathered_scope(srcs, only, participant, n - 1, a);
        let i = choose|i: int| 0 <= i < n - 1 && (#[trigger] srcs[i]).meta.id@ == a.conversation_id && (only matches Some(
            id,
        ) ==> srcs[i].meta.id@ == id) && (participant matches Some(p) ==> views(srcs[i].meta.participants@).contains(
            p,
        ));
        assert(0 <= i < n);
    } else {
        lemma_conversation_asks_conversation(src.meta, src.messages@, src.messages@.len() as int, a);
        assert(srcs[n - 1].meta.id@ == a.conversation_id);
    }
}

/// The open-ask listing keeps to its scope: asked for one conversation, it
/// lists asks of that conversation only; asked for one participant, every
/// ask it lists belongs to a conversation that participant takes part in.
pub proof fn lemma_open_asks_in_scope(srcs: Seq<AskSource>, only: Option<Seq<char>>, participant: Option<Seq<char>>, a: AskView)
    requires
        open_asks(srcs, only, participant).contains(a),
    ensures
        only matches Some(id) ==> a.conversation_id == id,
        participant matches Some(p) ==> exists|i: int| 0 <= i < srcs.len() && (#[trigger] srcs[i]).meta.id@
            == a.conversation_id && views(srcs[i].meta.participants@).contains(p),
{
    crate::order::lemma_sort_by_contains(gathered(srcs, only, participant, srcs.len() as int), ask_order(), a);
    lemma_gathered_scope(srcs, only, participant, srcs.len() as int, a);
}

/// The open asks of the conversations in `sources` (their records, in
/// directory order), restricted to one conversation and to conversations
/// with a given participant when those are given; oldest first, ties by
/// message id.
pub fn gather_open_asks(sources: &Vec<AskSource>, only: Option<&str>, participant: Option<&str>) -> (r: Vec<OpenAsk>)
    ensures
        ask_views(r@) == open_asks(sources@, crate::doctor::opt_seq(only), crate::doctor::opt_seq(participant)),
        forall|k: int| 0 <= k < r@.len() ==> (only matches Some(id) ==> (#[trigger] r@[k]).conversation_id@ == id@),
        forall|k: int| 0 <= k < r@.len() ==> (participant matches Some(p) ==> exists|i: int| 0 <= i < sources@.len()
            && (#[trigger] sources@[i]).meta.id@ == (#[trigger] r@[k]).conversation_id@ && views(
            sources@[i].meta.participants@,
        ).contains(p@)),
{
    let ghost on = crate::doctor::opt_seq(only);
    let ghost pa = crate::doctor::opt_seq(participant);
    let mut out: Vec<OpenAsk> = Vec::new();
    let mut c: usize = 0;
    while c < sources.len()
        invariant
            c <= sources@.len(),
            on == crate::doctor::opt_seq(only),
            pa == crate::doctor::opt_seq(participant),
            ask_views(out@) == gathered(sources@, on, pa, c as int),
        decreases sources@.len() - c,
    {
        let src = &sources[c];
        let scoped = (match only {
            Some(id) => str_eq(src.meta.id.as_str(), id),
            None => true,
        }) && (match participant {
            Some(a) => contains_str(src.meta.participants.as_slice(), a),
            None => true,
        });
        if scoped {
            let ghost base = ask_views(out@);
            let mut j: usize = 0;
            while j < src.messages.len()
                invariant
                    j <= src.messages@.len(),
                    ask_views(out@) == base + conversation_asks(src.meta, src.messages@, j as int),
                decreases src.messages@.len() - j,
            {
                push_message_asks(&mut out, &src.meta, &src.messages[j]);
                assert(ask_views(out@) =~= base + conversation_asks(src.meta, src.messages@, j + 1));
                j = j + 1;
            }
        }
        assert(ask_views(out@) =~= gathered(sources@, on, pa, c + 1));
        c = c + 1;
    }
    let r = sort_asks(&out);
    proof {
        assert forall|k: int| 0 <= k < r@.len() implies (only matches Some(id) ==> (#[trigger] r@[k]).conversation_id@
            == id@) && (participant matches Some(p) ==> exists|i: int| 0 <= i < sources@.len()
            && (#[trigger] sources@[i]).meta.id@ == r@[k].conversation_id@ && views(
            sources@[i].meta.participants@,
        ).contains(p@)) by {
            assert(ask_views(r@)[k] == r@[k]@);
            lemma_open_asks_in_scope(sources@, on, pa, r@[k]@);
        }
    }
    r
}

/// The asks an agent owes a response to.
pub open spec fn owed_by(agent: Seq<char>) -> spec_fn(AskView) -> bool {
    |a: AskView| a.awaited == agent
}

/// The asks an agent waits on someone else for.
pub open spec fn owed_to(agent: Seq<char>) -> spec_fn(AskView) -> bool {
    |a: AskView| a.from == agent && a.awaited != agent
}

pub open spec fn awaiting_split(asks: Seq<AskView>, agent: Seq<char>) -> (Seq<AskView>, Seq<AskView>) {
    (
        asks.filter(owed_by(agent)),
        asks.filter(owed_to(agent)),
    )
}

/// An agent's side of the open asks: those it owes a response to, and those
/// it waits on others for, each in listing order.
pub fn split_awaiting(asks: &Vec<OpenAsk>, agent: &str) -> (r: (Vec<OpenAsk>, Vec<OpenAsk>))
    ensures
        ask_views(r.0@) == awaiting_split(ask_views(asks@), agent@).0,
        ask_views(r.1@) == awaiting_split(ask_views(asks@), agent@).1,
{
    let ghost av = ask_views(asks@);
    let mut owed: Vec<OpenAsk> = Vec::new();
    let mut waiting: Vec<OpenAsk> = Vec::new();
    let mut i: usize = 0;
    while i < asks.len()
        invariant
            i <= asks@.len(),
            av == ask_views(asks@),
            ask_views(owed@) == av.take(i as int).filter(owed_by(agent@)),
            ask_views(waiting@) == av.take(i as int).filter(owed_to(agent@)),
        decreases asks@.len() - i,
    {
        let a = &asks[i];
        proof {
            assert(av.take(i + 1).drop_last() =~= av.take(i as int));
            assert(av.take(i + 1).last() == a@);
        }
        let ghost ob = ask_views(owed@);
        let ghost wb = ask_views(waiting@);
        let mine = str_eq(a.awaited.as_str(), agent);
        if mine {
            owed.push(copy_ask(a));
            assert(ask_views(owed@) =~= ob.push(a@));
        }
        if str_eq(a.from.as_str(), agent) && !mine {
            waiting.push(copy_ask(a));
            assert(ask_views(waiting@) =~= wb.push(a@));
        }
        proof {
            av.take(i as int).lemma_filter_push(a@, owed_by(agent@));
            av.take(i as int).lemma_filter_push(a@, owed_to(agent@));
            assert(av.take(i as int).push(a@) =~= av.take(i + 1));
            assert(ask_views(owed@) =~= av.take(i + 1).filter(owed_by(agent@)));
            assert(ask_views(waiting@) =~= av.take(i + 1).filter(owed_to(agent@)));
        }
        i = i + 1;
    }
    assert(av.take(asks@.len() as int) =~= av);
    (owed, waiting)
}

pub fn copy_ask(a: &OpenAsk) -> (r: OpenAsk)
    ensures
        r@ == a@,
{
    OpenAsk {
        conversation_id: a.conversation_id.clone(),
        message_id: a.message_id.clone(),
        from: a.from.clone(),
        awaited: a.awaited.clone(),
        subject: a.subject.clone(),
        created_at: a.created_at.clone(),
        status: a.status.clone(),
    }
}

/// A withdrawn message awaits nobody: it carries no open ask.
pub proof fn lemma_withdrawn_has_no_asks(meta: Meta, mr: MessageReceipts)
    requires
        mr.message.withdrawn is Some,
    ensures
        message_asks(meta, mr) == Seq::<AskView>::empty(),
{
    let m = mr.message;
    if !(m.kind@ == "system"@ || m.kind@ == "receipt"@) {
        assert(awaited(m, meta) == Seq::<Seq<char>>::empty());
    }
}

/// An ask is never owed by its own sender, and a terminal receipt closes
/// it: every open ask of a message is toward an awaited agent other than
/// the sender whose receipt is not terminal.
pub proof fn lemma_open_ask_is_owed(meta: Meta, m: Message, receipts: Seq<(Seq<char>, Seq<char>)>, ws: Seq<Seq<char>>, n: int, k: int)
    requires
        0 <= n <= ws.len(),
        0 <= k < asks_toward(meta, m, receipts, ws, n).len(),
    ensures
        ws.take(n).contains(asks_toward(meta, m, receipts, ws, n)[k].awaited),
        !(receipt_status(receipts, asks_toward(meta, m, receipts, ws, n)[k].awaited) matches Some(st)
            && is_terminal_status(st)),
    decreases n,
{
    let p = asks_toward(meta, m, receipts, ws, n - 1);
    if k < p.len() {
        lemma_open_ask_is_owed(meta, m, receipts, ws, n - 1, k);
        let x = p[k].awaited;
        let j = choose|j: int| 0 <= j < ws.take(n - 1).len() && #[trigger] ws.take(n - 1)[j] == x;
        assert(ws.take(n)[j] == x);
        assert(asks_toward(meta, m, receipts, ws, n)[k] == p[k]);
    } else {
        assert(asks_toward(meta, m, receipts, ws, n)[k].awaited == ws[n - 1]);
        assert(ws.take(n)[n - 1] == ws[n - 1]);
    }
}

} // verus!
