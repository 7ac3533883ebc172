//! What the roster, the status summary and the local UI show of a bus.

use vstd::prelude::*;
use crate::asks::{ask_views, copy_ask, AskView, OpenAsk};
use crate::bus::{message_is_unread, message_visible_to, state_priority, state_rank, unread, visible_to};
use crate::lists::{contains_str, views};
use crate::order::{lemma_insert_by_at, lemma_sort_by_len, sort_by};
use crate::records::{Agent, Message, Meta};
use crate::suggest::{seq_less, str_less};
use crate::text::{chars_of, str_eq};
use crate::time::{instant_before, instant_lt, parse_time, rfc3339_instant};

verus! {

broadcast use vstd::std_specs::vec::group_vec_axioms, vstd::seq::group_seq_axioms;

/// An agent is live until its claim's expiry (which must be RFC 3339).
pub open spec fn agent_live(a: Agent, now: (i64, u32)) -> bool {
    match rfc3339_instant(a.expires_at@) {
        Some(t) => !instant_lt(t, now),
        None => false,
    }
}

/// Whether the agent's claim has not expired at `now`.
pub fn agent_active(a: &Agent, now: (i64, u32)) -> (r: bool)
    ensures
        r == agent_live(*a, now),
{
    match parse_time(a.expires_at.as_str()) {
        Some(t) => !instant_before(t, now),
        None => false,
    }
}

/// How an agent is mentioned: its recorded mention, or `@<id>` when none is
/// recorded.
pub open spec fn mention_of(a: Agent) -> Seq<char> {
    if a.mention@.len() == 0 { "@"@ + a.id@ } else { a.mention@ }
}

pub fn display_mention(a: &Agent) -> (r: String)
    ensures
        r@ == mention_of(*a),
{
    if chars_of(a.mention.as_str()).len() == 0 {
        let mut m = String::from_str("@");
        m.append(a.id.as_str());
        m
    } else {
        a.mention.clone()
    }
}

fn copy_strings(v: &Vec<String>) -> (r: Vec<String>)
    ensures
        views(r@) == views(v@),
{
    let mut out: Vec<String> = Vec::new();
    let mut i: usize = 0;
    while i < v.len()
        invariant
            i <= v@.len(),
            views(out@) == views(v@).take(i as int),
        decreases v@.len() - i,
    {
        let ghost before = out@;
        out.push(v[i].clone());
        proof {
            assert(views(out@) =~= views(before).push(v@[i as int]@));
            assert(views(v@).take(i + 1) =~= views(v@).take(i as int).push(v@[i as int]@));
        }
        i = i + 1;
    }
    assert(views(v@).take(v@.len() as int) =~= views(v@));
    out
}

fn copy_opt(o: &Option<String>) -> (r: Option<String>)
    ensures
        crate::capability::opt_view(r) == crate::capability::opt_view(*o),
{
    match o {
        Some(s) => Some(s.clone()),
        None => None,
    }
}

/// An agent as the status summary and the UI list it.
pub struct UiAgent {
    pub id: String,
    pub mention: String,
    pub workspace: Option<String>,
    pub capabilities: Vec<String>,
    pub current_state: String,
    pub state_note: Option<String>,
    pub state_updated_at: String,
    pub last_seen_at: String,
    pub expires_at: String,
    pub active: bool,
}

/// `u` lists agent `a` as seen at `now`.
pub open spec fn ui_agent_of(u: UiAgent, a: Agent, now: (i64, u32)) -> bool {
    &&& u.id@ == a.id@
    &&& u.mention@ == mention_of(a)
    &&& crate::capability::opt_view(u.workspace) == crate::capability::opt_view(a.workspace)
    &&& views(u.capabilities@) == views(a.capabilities@)
    &&& u.current_state@ == a.current_state@
    &&& crate::capability::opt_view(u.state_note) == crate::capability::opt_view(a.state_note)
    &&& u.state_updated_at@ == a.state_updated_at@
    &&& u.last_seen_at@ == a.last_seen_at@
    &&& u.expires_at@ == a.expires_at@
    &&& u.active == agent_live(a, now)
}

/// The listing of an agent at `now`.
pub fn ui_agent(a: &Agent, now: (i64, u32)) -> (r: UiAgent)
    ensures
        ui_agent_of(r, *a, now),
{
    UiAgent {
        id: a.id.clone(),
        mention: display_mention(a),
        workspace: copy_opt(&a.workspace),
        capabilities: copy_strings(&a.capabilities),
        current_state: a.current_state.clone(),
        state_note: copy_opt(&a.state_note),
        state_updated_at: a.state_updated_at.clone(),
        last_seen_at: a.last_seen_at.clone(),
        expires_at: a.expires_at.clone(),
        active: agent_active(a, now),
    }
}

/// The listings of agents, in order.
pub fn ui_agents(agents: &Vec<Agent>, now: (i64, u32)) -> (r: Vec<UiAgent>)
    ensures
        r@.len() == agents@.len(),
        forall|i: int| 0 <= i < agents@.len() ==> ui_agent_of(#[trigger] r@[i], agents@[i], now),
{
    let mut out: Vec<UiAgent> = Vec::new();
    let mut i: usize = 0;
    while i < agents.len()
        invariant
            i <= agents@.len(),
            out@.len() == i,
            forall|k: int| 0 <= k < i ==> ui_agent_of(#[trigger] out@[k], agents@[k], now),
        decreases agents@.len() - i,
    {
        out.push(ui_agent(&agents[i], now));
        i = i + 1;
    }
    out
}

/// The asks awaiting a response from `id`.
pub open spec fn awaiting_from(id: Seq<char>) -> spec_fn(AskView) -> bool {
    |a: AskView| a.awaited == id
}

/// The asks `id` is waiting on.
pub open spec fn raised_by(id: Seq<char>) -> spec_fn(AskView) -> bool {
    |a: AskView| a.from == id
}

fn count_asks(asks: &Vec<OpenAsk>, id: &str, by_sender: bool) -> (r: usize)
    ensures
        !by_sender ==> r == ask_views(asks@).filter(awaiting_from(id@)).len(),
        by_sender ==> r == ask_views(asks@).filter(raised_by(id@)).len(),
{
    let ghost av = ask_views(asks@);
    let ghost pred = if by_sender { raised_by(id@) } else { awaiting_from(id@) };
    let mut n: usize = 0;
    let mut i: usize = 0;
    while i < asks.len()
        invariant
            i <= asks@.len(),
            av == ask_views(asks@),
            pred == (if by_sender { raised_by(id@) } else { awaiting_from(id@) }),
            n == av.take(i as int).filter(pred).len(),
            n <= i,
        decreases asks@.len() - i,
    {
        proof {
            av.take(i as int).lemma_filter_push(av[i as int], pred);
            assert(av.take(i as int).push(av[i as int]) =~= av.take(i + 1));
            assert(av[i as int] == asks@[i as int]@);
        }
        let hit = if by_sender {
            str_eq(asks[i].from.as_str(), id)
        } else {
            str_eq(asks[i].awaited.as_str(), id)
        };
        if hit {
            n = n + 1;
        }
        i = i + 1;
    }
    assert(av.take(asks@.len() as int) =~= av);
    n
}

/// One line of the roster.
pub struct RosterEntry {
    pub id: String,
    pub mention: String,
    pub active: bool,
    pub current_state: String,
    pub state_note: Option<String>,
    pub last_seen_at: String,
    pub expires_at: String,
    /// How many open asks await a response from this agent.
    pub owes: usize,
    /// How many open asks this agent raised.
    pub waiting_on: usize,
}

pub struct RosterView {
    pub id: Seq<char>,
    pub mention: Seq<char>,
    pub active: bool,
    pub current_state: Seq<char>,
    pub state_note: Option<Seq<char>>,
    pub last_seen_at: Seq<char>,
    pub expires_at: Seq<char>,
    pub owes: nat,
    pub waiting_on: nat,
}

impl View for RosterEntry {
    type V = RosterView;

    open spec fn view(&self) -> RosterView {
        RosterView {
            id: self.id@,
            mention: self.mention@,
            active: self.active,
            current_state: self.current_state@,
            state_note: crate::capability::opt_view(self.state_note),
            last_seen_at: self.last_seen_at@,
            expires_at: self.expires_at@,
            owes: self.owes as nat,
            waiting_on: self.waiting_on as nat,
        }
    }
}

pub open spec fn roster_views(s: Seq<RosterEntry>) -> Seq<RosterView> {
    s.map_values(|e: RosterEntry| e@)
}

/// The roster line of agent `a` given the open asks.
pub open spec fn roster_line(a: Agent, asks: Seq<AskView>, now: (i64, u32)) -> RosterView {
    RosterView {
        id: a.id@,
        mention: mention_of(a),
        active: agent_live(a, now),
        current_state: a.current_state@,
        state_note: crate::capability::opt_view(a.state_note),
        last_seen_at: a.last_seen_at@,
        expires_at: a.expires_at@,
        owes: asks.filter(awaiting_from(a.id@)).len(),
        waiting_on: asks.filter(raised_by(a.id@)).len(),
    }
}

/// The roster lines of the first `n` agents: live ones, or all with `all`.
pub open spec fn roster_lines(agents: Seq<Agent>, asks: Seq<AskView>, now: (i64, u32), all: bool, n: int) -> Seq<RosterView>
    decreases n,
{
    if n <= 0 {
        Seq::empty()
    } else {
        roster_lines(agents, asks, now, all, n - 1) + if all || agent_live(agents[n - 1], now) {
            seq![roster_line(agents[n - 1], asks, now)]
        } else {
            Seq::empty()
        }
    }
}

/// Roster order: most pressing state first (blocked, working, idle, away,
/// anything else), ties by id.
pub open spec fn roster_order() -> spec_fn(RosterView, RosterView) -> bool {
    |a: RosterView, b: RosterView| state_rank(a.current_state) < state_rank(b.current_state) || (state_rank(
        a.current_state,
    ) == state_rank(b.current_state) && seq_less(a.id, b.id))
}

/// The roster: one line per live agent (every agent with `all`), with the
/// open asks it owes and waits on, in roster order.
pub fn roster(asks: &Vec<OpenAsk>, agents: &Vec<Agent>, now: (i64, u32), all: bool) -> (r: Vec<RosterEntry>)
    ensures
        roster_views(r@) == sort_by(
            roster_lines(agents@, ask_views(asks@), now, all, agents@.len() as int),
            roster_order(),
        ),
{
    let ghost less = roster_order();
    let ghost av = ask_views(asks@);
    let mut sorted: Vec<RosterEntry> = Vec::new();
    let ghost mut lines: Seq<RosterView> = Seq::empty();
    let mut i: usize = 0;
    while i < agents.len()
        invariant
            i <= agents@.len(),
            less == roster_order(),
            av == ask_views(asks@),
            lines == roster_lines(agents@, av, now, all, i as int),
            roster_views(sorted@) == sort_by(lines, less),
        decreases agents@.len() - i,
    {
        let a = &agents[i];
        let live = agent_active(a, now);
        if all || live {
            let e = RosterEntry {
                id: a.id.clone(),
                mention: display_mention(a),
                active: live,
                current_state: a.current_state.clone(),
                state_note: copy_opt(&a.state_note),
                last_seen_at: a.last_seen_at.clone(),
                expires_at: a.expires_at.clone(),
                owes: count_asks(asks, a.id.as_str(), false),
                waiting_on: count_asks(asks, a.id.as_str(), true),
            };
            let rank = state_priority(e.current_state.as_str());
            let mut p: usize = 0;
            while p < sorted.len() && !(rank < state_priority(sorted[p].current_state.as_str()) || (rank
                == state_priority(sorted[p].current_state.as_str()) && str_less(e.id.as_str(), sorted[p].id.as_str())))
                invariant
                    p <= sorted@.len(),
                    less == roster_order(),
                    rank == state_rank(e.current_state@),
                    forall|k: int| 0 <= k < p ==> !less(e@, #[trigger] roster_views(sorted@)[k]),
                decreases sorted@.len() - p,
            {
                assert(roster_views(sorted@)[p as int] == sorted@[p as int]@);
                p = p + 1;
            }
            proof {
                if p < sorted@.len() {
                    assert(roster_views(sorted@)[p as int] == sorted@[p as int]@);
                }
                lemma_insert_by_at(roster_views(sorted@), e@, less, p as int);
                assert(e@ == roster_line(agents@[i as int], av, now));
            }
            let ghost before = roster_views(sorted@);
            let ghost ev = e@;
            sorted.insert(p, e);
            proof {
                assert(roster_views(sorted@) =~= before.take(p as int) + seq![ev] + before.skip(p as int));
                lines = lines.push(ev);
                assert(lines.drop_last() =~= roster_lines(agents@, av, now, all, i as int));
            }
        }
        proof {
            assert(lines =~= roster_lines(agents@, av, now, all, i + 1));
        }
        i = i + 1;
    }
    sorted
}

/// A conversation as the status summary lists it.
pub struct StatusConversation {
    pub id: String,
    pub participants: Vec<String>,
    pub channel: bool,
    pub private: bool,
    /// How many entries its `messages/` directory holds.
    pub messages: usize,
    pub open_asks: usize,
}

/// A conversation record and the number of entries in its `messages/`.
pub struct StatusSource {
    pub meta: Meta,
    pub entries: usize,
}

/// The asks of a conversation.
pub open spec fn in_conversation(id: Seq<char>) -> spec_fn(AskView) -> bool {
    |a: AskView| a.conversation_id == id
}

fn count_conversation_asks(asks: &Vec<OpenAsk>, id: &str) -> (r: usize)
    ensures
        r == ask_views(asks@).filter(in_conversation(id@)).len(),
{
    let ghost av = ask_views(asks@);
    let mut n: usize = 0;
    let mut i: usize = 0;
    while i < asks.len()
        invariant
            i <= asks@.len(),
            av == ask_views(asks@),
            n == av.take(i as int).filter(in_conversation(id@)).len(),
            n <= i,
        decreases asks@.len() - i,
    {
        proof {
            av.take(i as int).lemma_filter_push(av[i as int], in_conversation(id@));
            assert(av.take(i as int).push(av[i as int]) =~= av.take(i + 1));
            assert(av[i as int] == asks@[i as int]@);
        }
        if str_eq(asks[i].conversation_id.as_str(), id) {
            n = n + 1;
        }
        i = i + 1;
    }
    assert(av.take(asks@.len() as int) =~= av);
    n
}

/// Whether the summary scoped to `agent` (if any) shows the conversation:
/// a private one only to its participants.
pub open spec fn status_shows(meta: Meta, agent: Option<Seq<char>>) -> bool {
    !(agent matches Some(a) && meta.private && !views(meta.participants@).contains(a))
}

/// `c` lists conversation `src` with the given open asks.
pub open spec fn status_line_of(c: StatusConversation, src: StatusSource, asks: Seq<AskView>) -> bool {
    &&& c.id@ == src.meta.id@
    &&& views(c.participants@) == views(src.meta.participants@)
    &&& c.channel == src.meta.channel
    &&& c.private == src.meta.private
    &&& c.messages == src.entries
    &&& c.open_asks == asks.filter(in_conversation(src.meta.id@)).len()
}

/// The sources the summary shows among the first `n`, in order.
pub open spec fn shown_sources(srcs: Seq<StatusSource>, agent: Option<Seq<char>>, n: int) -> Seq<StatusSource>
    decreases n,
{
    if n <= 0 {
        Seq::empty()
    } else {
        shown_sources(srcs, agent, n - 1) + if status_shows(srcs[n - 1].meta, agent) {
            seq![srcs[n - 1]]
        } else {
            Seq::empty()
        }
    }
}

/// The conversations of the status summary, in directory order, each with
/// its message entries and open asks.
pub fn status_conversations(srcs: &Vec<StatusSource>, asks: &Vec<OpenAsk>, agent: Option<&str>) -> (r: Vec<StatusConversation>)
    ensures
        r@.len() == shown_sources(srcs@, crate::doctor::opt_seq(agent), srcs@.len() as int).len(),
        forall|i: int| 0 <= i < r@.len() ==> status_line_of(
            #[trigger] r@[i],
            shown_sources(srcs@, crate::doctor::opt_seq(agent), srcs@.len() as int)[i],
            ask_views(asks@),
        ),
{
    let ghost ag = crate::doctor::opt_seq(agent);
    let mut out: Vec<StatusConversation> = Vec::new();
    let mut i: usize = 0;
    while i < srcs.len()
        invariant
            i <= srcs@.len(),
            ag == crate::doctor::opt_seq(agent),
            out@.len() == shown_sources(srcs@, ag, i as int).len(),
            forall|k: int| 0 <= k < out@.len() ==> status_line_of(
                #[trigger] out@[k],
                shown_sources(srcs@, ag, i as int)[k],
                ask_views(asks@),
            ),
        decreases srcs@.len() - i,
    {
        let src = &srcs[i];
        let hidden = match agent {
            Some(a) => src.meta.private && !contains_str(src.meta.participants.as_slice(), a),
            None => false,
        };
        let ghost prev = shown_sources(srcs@, ag, i as int);
        if !hidden {
            out.push(StatusConversation {
                id: src.meta.id.clone(),
                participants: copy_strings(&src.meta.participants),
                channel: src.meta.channel,
                private: src.meta.private,
                messages: src.entries,
                open_asks: count_conversation_asks(asks, src.meta.id.as_str()),
            });
        }
        proof {
            let next = shown_sources(srcs@, ag, i + 1);
            if !hidden {
                assert(next == prev.push(srcs@[i as int]));
                assert forall|k: int| 0 <= k < out@.len() implies status_line_of(
                    #[trigger] out@[k],
                    next[k],
                    ask_views(asks@),
                ) by {
                    if k < prev.len() {
                        assert(next[k] == prev[k]);
                    }
                }
            } else {
                assert(next =~= prev);
            }
        }
        i = i + 1;
    }
    out
}

/// What the status summary reports.
pub struct StatusReport {
    pub agents: Vec<UiAgent>,
    pub conversations: Vec<StatusConversation>,
}

/// The status summary, scoped to `agent` when given (which must be a valid
/// id): every agent, and the conversations the agent may see with their open
/// asks toward it. `ask_sources` are the conversations with their messages
/// and receipts, `conversations` the same records with their message entry
/// counts, both in directory order.
pub fn cmd_status(
    agent: Option<&str>,
    agents: &Vec<Agent>,
    ask_sources: &Vec<crate::asks::AskSource>,
    conversations: &Vec<StatusSource>,
    now: (i64, u32),
) -> (r: Result<StatusReport, crate::error::RaftError>)
    ensures
        (agent matches Some(a) && !crate::util::id_valid(a@)) ==> (r matches Err(e) && e.message@
            == crate::util::invalid_id_message("agent id"@, agent->0@)),
        !(agent matches Some(a) && !crate::util::id_valid(a@)) ==> (r matches Ok(rep) && rep.agents@.len()
            == agents@.len() && (forall|i: int| 0 <= i < agents@.len() ==> ui_agent_of(
            #[trigger] rep.agents@[i],
            agents@[i],
            now,
        )) && rep.conversations@.len() == shown_sources(
            conversations@,
            crate::doctor::opt_seq(agent),
            conversations@.len() as int,
        ).len() && (forall|i: int| 0 <= i < rep.conversations@.len() ==> status_line_of(
            #[trigger] rep.conversations@[i],
            shown_sources(conversations@, crate::doctor::opt_seq(agent), conversations@.len() as int)[i],
            crate::asks::open_asks(ask_sources@, None, crate::doctor::opt_seq(agent)),
        ))),
{
    if let Some(a) = agent {
        crate::util::validate_id(a, "agent id")?;
    }
    let listed = ui_agents(agents, now);
    let asks = crate::asks::gather_open_asks(ask_sources, None, agent);
    let convs = status_conversations(conversations, &asks, agent);
    assert(crate::doctor::opt_seq(None) == None::<Seq<char>>);
    Ok(StatusReport { agents: listed, conversations: convs })
}

/// A message as the UI shows it to one agent.
pub struct UiMessage {
    pub id: String,
    pub kind: String,
    pub from: String,
    pub to: Vec<String>,
    pub mentions: Vec<String>,
    pub subject: String,
    pub body: String,
    pub created_at: String,
    pub requires_ack: bool,
    pub needs_response_from: Vec<String>,
    pub unread: bool,
    pub after: Option<String>,
}

pub struct UiMessageView {
    pub id: Seq<char>,
    pub kind: Seq<char>,
    pub from: Seq<char>,
    pub to: Seq<Seq<char>>,
    pub mentions: Seq<Seq<char>>,
    pub subject: Seq<char>,
    pub body: Seq<char>,
    pub created_at: Seq<char>,
    pub requires_ack: bool,
    pub needs_response_from: Seq<Seq<char>>,
    pub unread: bool,
    pub after: Option<Seq<char>>,
}

impl View for UiMessage {
    type V = UiMessageView;

    open spec fn view(&self) -> UiMessageView {
        UiMessageView {
            id: self.id@,
            kind: self.kind@,
            from: self.from@,
            to: views(self.to@),
            mentions: views(self.mentions@),
            subject: self.subject@,
            body: self.body@,
            created_at: self.created_at@,
            requires_ack: self.requires_ack,
            needs_response_from: views(self.needs_response_from@),
            unread: self.unread,
            after: crate::capability::opt_view(self.after),
        }
    }
}

pub open spec fn ui_message_views(s: Seq<UiMessage>) -> Seq<UiMessageView> {
    s.map_values(|m: UiMessage| m@)
}

/// How the UI shows message `m` to an agent, given whether it is unread.
pub open spec fn ui_message_view(m: Message, unread: bool) -> UiMessageView {
    UiMessageView {
        id: m.id@,
        kind: m.kind@,
        from: m.from@,
        to: views(m.to@),
        mentions: views(m.mentions@),
        subject: m.subject@,
        body: m.body@,
        created_at: m.created_at@,
        requires_ack: m.requires_ack,
        needs_response_from: views(m.needs_response_from@),
        unread,
        after: crate::capability::opt_view(m.after),
    }
}

/// A stored message and whether the viewing agent has a receipt for it.
pub struct UiSourceMessage {
    pub message: Message,
    pub receipt_exists: bool,
}

/// A conversation record and its stored messages, in file order.
pub struct UiSource {
    pub meta: Meta,
    pub messages: Vec<UiSourceMessage>,
}

/// The messages among the first `n` that `agent` may see, as shown to it.
pub open spec fn visible_views(ms: Seq<UiSourceMessage>, agent: Seq<char>, n: int) -> Seq<UiMessageView>
    decreases n,
{
    if n <= 0 {
        Seq::empty()
    } else {
        let sm = ms[n - 1];
        visible_views(ms, agent, n - 1) + if visible_to(sm.message, agent) {
            seq![ui_message_view(sm.message, unread(sm.message, agent, sm.receipt_exists))]
        } else {
            Seq::empty()
        }
    }
}

/// Messages in id order.
pub open spec fn id_order() -> spec_fn(UiMessageView, UiMessageView) -> bool {
    |a: UiMessageView, b: UiMessageView| seq_less(a.id, b.id)
}

pub open spec fn is_unread() -> spec_fn(UiMessageView) -> bool {
    |m: UiMessageView| m.unread
}

/// The last `limit` of a sequence (all of it when shorter).
pub open spec fn last_n<A>(s: Seq<A>, limit: nat) -> Seq<A> {
    if s.len() > limit { s.skip(s.len() - limit) } else { s }
}

pub struct UiConversation {
    pub id: String,
    pub participants: Vec<String>,
    pub channel: bool,
    pub private: bool,
    pub joined: bool,
    pub message_count: usize,
    pub unread_count: usize,
    pub open_asks: usize,
    pub latest_at: Option<String>,
    pub messages: Vec<UiMessage>,
}

pub struct UiConversationView {
    pub id: Seq<char>,
    pub participants: Seq<Seq<char>>,
    pub channel: bool,
    pub private: bool,
    pub joined: bool,
    pub message_count: nat,
    pub unread_count: nat,
    pub open_asks: nat,
    pub latest_at: Option<Seq<char>>,
    pub messages: Seq<UiMessageView>,
}

impl View for UiConversation {
    type V = UiConversationView;

    open spec fn view(&self) -> UiConversationView {
        UiConversationView {
            id: self.id@,
            participants: views(self.participants@),
            channel: self.channel,
            private: self.private,
            joined: self.joined,
            message_count: self.message_count as nat,
            unread_count: self.unread_count as nat,
            open_asks: self.open_asks as nat,
            latest_at: crate::capability::opt_view(self.latest_at),
            messages: ui_message_views(self.messages@),
        }
    }
}

pub open spec fn ui_conversation_views(s: Seq<UiConversation>) -> Seq<UiConversationView> {
    s.map_values(|c: UiConversation| c@)
}

/// How the UI shows a conversation to `agent`: the messages it may see (only
/// when it has joined), in id order, the last `limit` of them; their count,
/// unread count and latest time; and the open asks in it.
pub open spec fn ui_conversation_view(src: UiSource, agent: Seq<char>, limit: usize, asks: Seq<AskView>) -> UiConversationView {
    let meta = src.meta;
    let joined = views(meta.participants@).contains(agent);
    let all = if joined {
        sort_by(visible_views(src.messages@, agent, src.messages@.len() as int), id_order())
    } else {
        Seq::empty()
    };
    UiConversationView {
        id: meta.id@,
        participants: views(meta.participants@),
        channel: meta.channel,
        private: meta.private,
        joined,
        message_count: all.len(),
        unread_count: all.filter(is_unread()).len(),
        open_asks: asks.filter(in_conversation(meta.id@)).len(),
        latest_at: if all.len() > 0 { Some(all.last().created_at) } else { None },
        messages: last_n(all, limit as nat),
    }
}

/// Whether the UI shows a conversation to `agent`: one it has joined, or a
/// public channel.
pub open spec fn ui_shows(meta: Meta, agent: Seq<char>) -> bool {
    views(meta.participants@).contains(agent) || (meta.channel && !meta.private)
}

pub open spec fn ui_conversation_list(srcs: Seq<UiSource>, agent: Seq<char>, limit: usize, asks: Seq<AskView>, n: int) -> Seq<UiConversationView>
    decreases n,
{
    if n <= 0 {
        Seq::empty()
    } else {
        ui_conversation_list(srcs, agent, limit, asks, n - 1) + if ui_shows(srcs[n - 1].meta, agent) {
            seq![ui_conversation_view(srcs[n - 1], agent, limit, asks)]
        } else {
            Seq::empty()
        }
    }
}

/// Whether latest time `a` is later than `b` (no time sorts earliest).
pub open spec fn later(a: Option<Seq<char>>, b: Option<Seq<char>>) -> bool {
    match (a, b) {
        (Some(x), Some(y)) => seq_less(y, x),
        (Some(_), None) => true,
        _ => false,
    }
}

/// Conversations with the most recent activity first, ties by id.
pub open spec fn recent_order() -> spec_fn(UiConversationView, UiConversationView) -> bool {
    |a: UiConversationView, b: UiConversationView| later(a.latest_at, b.latest_at) || (a.latest_at
        == b.latest_at && seq_less(a.id, b.id))
}

fn copy_message_view(m: &Message, unread: bool) -> (r: UiMessage)
    ensures
        r@ == ui_message_view(*m, unread),
{
    UiMessage {
        id: m.id.clone(),
        kind: m.kind.clone(),
        from: m.from.clone(),
        to: copy_strings(&m.to),
        mentions: copy_strings(&m.mentions),
        subject: m.subject.clone(),
        body: m.body.clone(),
        created_at: m.created_at.clone(),
        requires_ack: m.requires_ack,
        needs_response_from: copy_strings(&m.needs_response_from),
        unread,
        after: copy_opt(&m.after),
    }
}

fn sorted_visible(ms: &Vec<UiSourceMessage>, agent: &str) -> (r: Vec<UiMessage>)
    ensures
        ui_message_views(r@) == sort_by(visible_views(ms@, agent@, ms@.len() as int), id_order()),
{
    let ghost less = id_order();
    let mut sorted: Vec<UiMessage> = Vec::new();
    let ghost mut seen: Seq<UiMessageView> = Seq::empty();
    let mut i: usize = 0;
    while i < ms.len()
        invariant
            i <= ms@.len(),
            less == id_order(),
            seen == visible_views(ms@, agent@, i as int),
            ui_message_views(sorted@) == sort_by(seen, less),
        decreases ms@.len() - i,
    {
        let sm = &ms[i];
        if message_visible_to(&sm.message, agent) {
            let u = copy_message_view(&sm.message, message_is_unread(&sm.message, agent, sm.receipt_exists));
            let mut p: usize = 0;
            while p < sorted.len() && !str_less(u.id.as_str(), sorted[p].id.as_str())
                invariant
                    p <= sorted@.len(),
                    less == id_order(),
                    forall|k: int| 0 <= k < p ==> !less(u@, #[trigger] ui_message_views(sorted@)[k]),
                decreases sorted@.len() - p,
            {
                assert(ui_message_views(sorted@)[p as int] == sorted@[p as int]@);
                p = p + 1;
            }
            proof {
                if p < sorted@.len() {
                    assert(ui_message_views(sorted@)[p as int] == sorted@[p as int]@);
                }
                lemma_insert_by_at(ui_message_views(sorted@), u@, less, p as int);
            }
            let ghost before = ui_message_views(sorted@);
            let ghost uv = u@;
            sorted.insert(p, u);
            proof {
                assert(ui_message_views(sorted@) =~= before.take(p as int) + seq![uv] + before.skip(p as int));
                seen = seen.push(uv);
                assert(seen.drop_last() =~= visible_views(ms@, agent@, i as int));
            }
        }
        proof {
            assert(seen =~= visible_views(ms@, agent@, i + 1));
        }
        i = i + 1;
    }
    sorted
}

fn count_unread(ms: &Vec<UiMessage>) -> (r: usize)
    ensures
        r == ui_message_views(ms@).filter(is_unread()).len(),
{
    let ghost mv = ui_message_views(ms@);
    let mut n: usize = 0;
    let mut i: usize = 0;
    while i < ms.len()
        invariant
            i <= ms@.len(),
            mv == ui_message_views(ms@),
            n == mv.take(i as int).filter(is_unread()).len(),
            n <= i,
        decreases ms@.len() - i,
    {
        proof {
            mv.take(i as int).lemma_filter_push(mv[i as int], is_unread());
            assert(mv.take(i as int).push(mv[i as int]) =~= mv.take(i + 1));
            assert(mv[i as int] == ms@[i as int]@);
        }
        if ms[i].unread {
            n = n + 1;
        }
        i = i + 1;
    }
    assert(mv.take(ms@.len() as int) =~= mv);
    n
}

fn ui_conversation(src: &UiSource, agent: &str, limit: usize, asks: &Vec<OpenAsk>) -> (r: UiConversation)
    ensures
        r@ == ui_conversation_view(*src, agent@, limit, ask_views(asks@)),
{
    let joined = contains_str(src.meta.participants.as_slice(), agent);
    let all = if joined {
        sorted_visible(&src.messages, agent)
    } else {
        Vec::new()
    };
    let ghost allv = ui_message_views(all@);
    proof {
        if !joined {
            assert(allv =~= Seq::<UiMessageView>::empty());
        }
        assert(allv == (if joined {
            sort_by(visible_views(src.messages@, agent@, src.messages@.len() as int), id_order())
        } else {
            Seq::empty()
        }));
    }
    let count = all.len();
    let unread_count = count_unread(&all);
    let latest = if count > 0 {
        Some(all[count - 1].created_at.clone())
    } else {
        None
    };
    proof {
        if count > 0 {
            assert(allv.last() == all@[count - 1]@);
        }
    }
    let mut messages = all;
    if count > limit {
        messages = messages.split_off(count - limit);
        proof {
            assert(ui_message_views(messages@) =~= allv.skip(count - limit));
        }
    }
    assert(ui_message_views(messages@) == last_n(allv, limit as nat));
    let r = UiConversation {
        id: src.meta.id.clone(),
        participants: copy_strings(&src.meta.participants),
        channel: src.meta.channel,
        private: src.meta.private,
        joined,
        message_count: count,
        unread_count,
        open_asks: count_conversation_asks(asks, src.meta.id.as_str()),
        latest_at: latest,
        messages,
    };
    r
}

/// The UI's headline numbers.
pub struct UiTotals {
    pub active_agents: usize,
    pub stale_agents: usize,
    pub conversations: usize,
    pub unread_messages: usize,
    pub messages: usize,
}

/// Everything the UI shows one agent.
pub struct UiSnapshot {
    pub root: String,
    pub agent: String,
    pub generated_at: String,
    pub totals: UiTotals,
    pub agents: Vec<UiAgent>,
    pub conversations: Vec<UiConversation>,
}

pub open spec fn live_at(now: (i64, u32)) -> spec_fn(Agent) -> bool {
    |a: Agent| agent_live(a, now)
}

pub open spec fn unread_sum(cs: Seq<UiConversationView>) -> nat
    decreases cs.len(),
{
    if cs.len() == 0 { 0 } else { unread_sum(cs.drop_last()) + cs.last().unread_count }
}

pub open spec fn message_sum(cs: Seq<UiConversationView>) -> nat
    decreases cs.len(),
{
    if cs.len() == 0 { 0 } else { message_sum(cs.drop_last()) + cs.last().message_count }
}

/// How many messages the first `n` sources hold.
pub open spec fn source_messages(srcs: Seq<UiSource>, n: int) -> nat
    decreases n,
{
    if n <= 0 { 0 } else { source_messages(srcs, n - 1) + srcs[n - 1].messages@.len() }
}

proof fn lemma_visible_len(ms: Seq<UiSourceMessage>, agent: Seq<char>, n: int)
    requires
        0 <= n <= ms.len(),
    ensures
        visible_views(ms, agent, n).len() <= n,
    decreases n,
{
    if n > 0 {
        lemma_visible_len(ms, agent, n - 1);
    }
}

proof fn lemma_view_counts(src: UiSource, agent: Seq<char>, limit: usize, asks: Seq<AskView>)
    ensures
        ui_conversation_view(src, agent, limit, asks).unread_count <= ui_conversation_view(src, agent, limit, asks).message_count,
        ui_conversation_view(src, agent, limit, asks).message_count <= src.messages@.len(),
{
    let v = visible_views(src.messages@, agent, src.messages@.len() as int);
    lemma_visible_len(src.messages@, agent, src.messages@.len() as int);
    lemma_sort_by_len(v, id_order());
    let all = if views(src.meta.participants@).contains(agent) { sort_by(v, id_order()) } else { Seq::empty() };
    all.lemma_filter_len(is_unread());
}

/// The UI snapshot for `agent_id` at `now`: every agent; the conversations
/// it has joined or that are public channels, most recent first, each with
/// its last `limit` visible messages; and the totals. `ask_sources` and
/// `sources` are the conversations (with receipts, and with whether the
/// agent has a receipt for each message) in directory order.
pub fn build_ui_snapshot(
    root: &str,
    agent_id: &str,
    limit: usize,
    agents: &Vec<Agent>,
    ask_sources: &Vec<crate::asks::AskSource>,
    sources: &Vec<UiSource>,
    now: (i64, u32),
    generated_at: String,
) -> (r: UiSnapshot)
    requires
        source_messages(sources@, sources@.len() as int) <= usize::MAX,
    ensures
        r.root@ == root@,
        r.agent@ == agent_id@,
        r.generated_at@ == generated_at@,
        r.agents@.len() == agents@.len(),
        forall|i: int| 0 <= i < agents@.len() ==> ui_agent_of(#[trigger] r.agents@[i], agents@[i], now),
        ui_conversation_views(r.conversations@) == sort_by(
            ui_conversation_list(
                sources@,
                agent_id@,
                limit,
                crate::asks::open_asks(ask_sources@, None, Some(agent_id@)),
                sources@.len() as int,
            ),
            recent_order(),
        ),
        r.totals.active_agents == agents@.filter(live_at(now)).len(),
        r.totals.stale_agents == agents@.len() - agents@.filter(live_at(now)).len(),
        r.totals.conversations == r.conversations@.len(),
        r.totals.unread_messages == unread_sum(ui_conversation_views(r.conversations@)),
        r.totals.messages == message_sum(ui_conversation_views(r.conversations@)),
{
    let listed = ui_agents(agents, now);
    let asks = crate::asks::gather_open_asks(ask_sources, None, Some(agent_id));
    let ghost av = ask_views(asks@);
    let ghost less = recent_order();
    let mut sorted: Vec<UiConversation> = Vec::new();
    let ghost mut shown: Seq<UiConversationView> = Seq::empty();
    let mut i: usize = 0;
    while i < sources.len()
        invariant
            i <= sources@.len(),
            less == recent_order(),
            av == ask_views(asks@),
            shown == ui_conversation_list(sources@, agent_id@, limit, av, i as int),
            ui_conversation_views(sorted@) == sort_by(shown, less),
        decreases sources@.len() - i,
    {
        let src = &sources[i];
        if contains_str(src.meta.participants.as_slice(), agent_id) || (src.meta.channel && !src.meta.private) {
            let c = ui_conversation(src, agent_id, limit, &asks);
            let mut p: usize = 0;
            while p < sorted.len() && !conversation_first(&c, &sorted[p])
                invariant
                    p <= sorted@.len(),
                    less == recent_order(),
                    forall|k: int| 0 <= k < p ==> !less(c@, #[trigger] ui_conversation_views(sorted@)[k]),
                decreases sorted@.len() - p,
            {
                assert(ui_conversation_views(sorted@)[p as int] == sorted@[p as int]@);
                p = p + 1;
            }
            proof {
                if p < sorted@.len() {
                    assert(ui_conversation_views(sorted@)[p as int] == sorted@[p as int]@);
                }
                lemma_insert_by_at(ui_conversation_views(sorted@), c@, less, p as int);
            }
            let ghost before = ui_conversation_views(sorted@);
            let ghost cv = c@;
            sorted.insert(p, c);
            proof {
                assert(ui_conversation_views(sorted@) =~= before.take(p as int) + seq![cv] + before.skip(p as int));
                shown = shown.push(cv);
                assert(shown.drop_last() =~= ui_conversation_list(sources@, agent_id@, limit, av, i as int));
            }
        }
        proof {
            assert(shown =~= ui_conversation_list(sources@, agent_id@, limit, av, i + 1));
        }
        i = i + 1;
    }
    let totals = snapshot_totals(agents, &sorted, now, Ghost(sources@), Ghost(agent_id@), Ghost(limit), Ghost(av));
    UiSnapshot {
        root: String::from_str(root),
        agent: String::from_str(agent_id),
        generated_at,
        totals,
        agents: listed,
        conversations: sorted,
    }
}

fn conversation_first(a: &UiConversation, b: &UiConversation) -> (r: bool)
    ensures
        r == recent_order()(a@, b@),
{
    let later_first = match (&a.latest_at, &b.latest_at) {
        (Some(x), Some(y)) => str_less(y.as_str(), x.as_str()),
        (Some(_), None) => true,
        _ => false,
    };
    let same = match (&a.latest_at, &b.latest_at) {
        (Some(x), Some(y)) => str_eq(x.as_str(), y.as_str()),
        (None, None) => true,
        _ => false,
    };
    later_first || (same && str_less(a.id.as_str(), b.id.as_str()))
}

fn snapshot_totals(
    agents: &Vec<Agent>,
    cs: &Vec<UiConversation>,
    now: (i64, u32),
    Ghost(srcs): Ghost<Seq<UiSource>>,
    Ghost(agent): Ghost<Seq<char>>,
    Ghost(limit): Ghost<usize>,
    Ghost(asks): Ghost<Seq<AskView>>,
) -> (r: UiTotals)
    requires
        source_messages(srcs, srcs.len() as int) <= usize::MAX,
        ui_conversation_views(cs@) == sort_by(
            ui_conversation_list(srcs, agent, limit, asks, srcs.len() as int),
            recent_order(),
        ),
    ensures
        r.active_agents == agents@.filter(live_at(now)).len(),
        r.stale_agents == agents@.len() - agents@.filter(live_at(now)).len(),
        r.conversations == cs@.len(),
        r.unread_messages == unread_sum(ui_conversation_views(cs@)),
        r.messages == message_sum(ui_conversation_views(cs@)),
{
    let mut active: usize = 0;
    let mut i: usize = 0;
    while i < agents.len()
        invariant
            i <= agents@.len(),
            active == agents@.take(i as int).filter(live_at(now)).len(),
            active <= i,
        decreases agents@.len() - i,
    {
        proof {
            agents@.take(i as int).lemma_filter_push(agents@[i as int], live_at(now));
            assert(agents@.take(i as int).push(agents@[i as int]) =~= agents@.take(i + 1));
        }
        if agent_active(&agents[i], now) {
            active = active + 1;
        }
        i = i + 1;
    }
    assert(agents@.take(agents@.len() as int) =~= agents@);
    let ghost cv = ui_conversation_views(cs@);
    proof {
        lemma_list_sums(srcs, agent, limit, asks, srcs.len() as int);
        lemma_sums_sorted(ui_conversation_list(srcs, agent, limit, asks, srcs.len() as int));
        lemma_unread_below(cv);
    }
    let mut unread_total: usize = 0;
    let mut message_total: usize = 0;
    let mut k: usize = 0;
    while k < cs.len()
        invariant
            k <= cs@.len(),
            cv == ui_conversation_views(cs@),
            forall|i: int| 0 <= i < cv.len() ==> (#[trigger] cv[i]).unread_count <= cv[i].message_count,
            unread_sum(cv) <= message_sum(cv),
            message_sum(cv) <= usize::MAX,
            unread_total == unread_sum(cv.take(k as int)),
            message_total == message_sum(cv.take(k as int)),
        decreases cs@.len() - k,
    {
        proof {
            assert(cv.take(k + 1).drop_last() =~= cv.take(k as int));
            assert(cv[k as int] == cs@[k as int]@);
            lemma_prefix_sums(cv, k + 1);
        }
        unread_total = unread_total + cs[k].unread_count;
        message_total = message_total + cs[k].message_count;
        k = k + 1;
    }
    assert(cv.take(cs@.len() as int) =~= cv);
    UiTotals {
        active_agents: active,
        stale_agents: agents.len() - active,
        conversations: cs.len(),
        unread_messages: unread_total,
        messages: message_total,
    }
}

proof fn lemma_prefix_sums(cv: Seq<UiConversationView>, k: int)
    requires
        0 <= k <= cv.len(),
        forall|i: int| 0 <= i < cv.len() ==> (#[trigger] cv[i]).unread_count <= cv[i].message_count,
    ensures
        unread_sum(cv.take(k)) <= message_sum(cv.take(k)),
        message_sum(cv.take(k)) <= message_sum(cv),
        unread_sum(cv.take(k)) <= unread_sum(cv),
    decreases cv.len() - k,
{
    if k < cv.len() {
        lemma_prefix_sums(cv, k + 1);
        assert(cv.take(k + 1).drop_last() =~= cv.take(k));
    } else {
        assert(cv.take(k) =~= cv);
    }
    lemma_unread_below(cv.take(k));
}

proof fn lemma_unread_below(cv: Seq<UiConversationView>)
    requires
        forall|i: int| 0 <= i < cv.len() ==> (#[trigger] cv[i]).unread_count <= cv[i].message_count,
    ensures
        unread_sum(cv) <= message_sum(cv),
    decreases cv.len(),
{
    if cv.len() > 0 {
        lemma_unread_below(cv.drop_last());
    }
}

proof fn lemma_list_sums(srcs: Seq<UiSource>, agent: Seq<char>, limit: usize, asks: Seq<AskView>, n: int)
    requires
        0 <= n <= srcs.len(),
    ensures
        message_sum(ui_conversation_list(srcs, agent, limit, asks, n)) <= source_messages(srcs, n),
        forall|i: int| 0 <= i < ui_conversation_list(srcs, agent, limit, asks, n).len() ==> (#[trigger] ui_conversation_list(srcs, agent, limit, asks, n)[i]).unread_count
            <= ui_conversation_list(srcs, agent, limit, asks, n)[i].message_count,
    decreases n,
{
    if n > 0 {
        lemma_list_sums(srcs, agent, limit, asks, n - 1);
        lemma_view_counts(srcs[n - 1], agent, limit, asks);
        let p = ui_conversation_list(srcs, agent, limit, asks, n - 1);
        let l = ui_conversation_list(srcs, agent, limit, asks, n);
        if ui_shows(srcs[n - 1].meta, agent) {
            assert(l.drop_last() =~= p);
        } else {
            assert(l =~= p);
        }
    }
}

proof fn lemma_sums_sorted(l: Seq<UiConversationView>)
    requires
        forall|i: int| 0 <= i < l.len() ==> (#[trigger] l[i]).unread_count <= l[i].message_count,
    ensures
        message_sum(sort_by(l, recent_order())) == message_sum(l),
        unread_sum(sort_by(l, recent_order())) == unread_sum(l),
        forall|i: int| 0 <= i < sort_by(l, recent_order()).len() ==> (#[trigger] sort_by(l, recent_order())[i]).unread_count
            <= sort_by(l, recent_order())[i].message_count,
    decreases l.len(),
{
    if l.len() > 0 {
        lemma_sums_sorted(l.drop_last());
        lemma_sums_insert(sort_by(l.drop_last(), recent_order()), l.last());
    }
}

proof fn lemma_sums_insert(s: Seq<UiConversationView>, x: UiConversationView)
    requires
        forall|i: int| 0 <= i < s.len() ==> (#[trigger] s[i]).unread_count <= s[i].message_count,
        x.unread_count <= x.message_count,
    ensures
        message_sum(crate::order::insert_by(s, x, recent_order())) == message_sum(s) + x.message_count,
        unread_sum(crate::order::insert_by(s, x, recent_order())) == unread_sum(s) + x.unread_count,
        forall|i: int| 0 <= i < crate::order::insert_by(s, x, recent_order()).len() ==> (#[trigger] crate::order::insert_by(s, x, recent_order())[i]).unread_count
            <= crate::order::insert_by(s, x, recent_order())[i].message_count,
    decreases s.len(),
{
    let r = crate::order::insert_by(s, x, recent_order());
    if s.len() == 0 {
        assert(r.drop_last() =~= s);
    } else if recent_order()(x, s[0]) {
        lemma_sum_prepend(x, s);
        assert forall|i: int| 0 <= i < r.len() implies (#[trigger] r[i]).unread_count <= r[i].message_count by {
            if i > 0 {
                assert(r[i] == s[i - 1]);
            }
        }
    } else {
        let t = s.drop_first();
        assert forall|i: int| 0 <= i < t.len() implies (#[trigger] t[i]).unread_count <= t[i].message_count by {
            assert(t[i] == s[i + 1]);
        }
        lemma_sums_insert(t, x);
        let u = crate::order::insert_by(t, x, recent_order());
        lemma_sum_prepend(s[0], u);
        lemma_sum_prepend(s[0], t);
        assert(seq![s[0]] + t =~= s);
        assert forall|i: int| 0 <= i < r.len() implies (#[trigger] r[i]).unread_count <= r[i].message_count by {
            if i > 0 {
                assert(r[i] == u[i - 1]);
            }
        }
    }
}

proof fn lemma_sum_prepend(x: UiConversationView, s: Seq<UiConversationView>)
    ensures
        message_sum(seq![x] + s) == x.message_count + message_sum(s),
        unread_sum(seq![x] + s) == x.unread_count + unread_sum(s),
    decreases s.len(),
{
    if s.len() > 0 {
        lemma_sum_prepend(x, s.drop_last());
        assert((seq![x] + s).drop_last() =~= seq![x] + s.drop_last());
    } else {
        assert((seq![x] + s).drop_last() =~= s);
    }
}

/// The roster of the bus: the agents (live ones, or all with `all`) with
/// what they owe and wait on across every conversation in `ask_sources`.
pub fn cmd_roster(agents: &Vec<Agent>, ask_sources: &Vec<crate::asks::AskSource>, now: (i64, u32), all: bool) -> (r: Vec<RosterEntry>)
    ensures
        roster_views(r@) == sort_by(
            roster_lines(
                agents@,
                crate::asks::open_asks(ask_sources@, None, None),
                now,
                all,
                agents@.len() as int,
            ),
            roster_order(),
        ),
{
    let asks = crate::asks::gather_open_asks(ask_sources, None, None);
    roster(&asks, agents, now, all)
}

/// An agent's open asks, optionally in one conversation or channel: those
/// it owes a response to and those it waits on. `agent` must be a valid id
/// and at most one room may be named.
pub fn cmd_awaiting(
    agent: &str,
    conversation: Option<&str>,
    channel: Option<&str>,
    ask_sources: &Vec<crate::asks::AskSource>,
) -> (r: Result<(Vec<OpenAsk>, Vec<OpenAsk>), crate::error::RaftError>)
    ensures
        !crate::util::id_valid(agent@) ==> (r matches Err(e) && e.message@ == crate::util::invalid_id_message(
            "agent id"@,
            agent@,
        )),
        r matches Ok((owe, owed)) ==> crate::util::id_valid(agent@) && (crate::storage::opt_str_view(conversation)
            is None || crate::storage::opt_str_view(channel) is None) && {
            let only = match crate::storage::opt_str_view(conversation) {
                Some(c) => Some(c),
                None => crate::storage::opt_str_view(channel),
            };
            let asks = crate::asks::open_asks(ask_sources@, only, Some(agent@));
            &&& ask_views(owe@) == crate::asks::awaiting_split(asks, agent@).0
            &&& ask_views(owed@) == crate::asks::awaiting_split(asks, agent@).1
        },
        (crate::util::id_valid(agent@) && (conversation is None || channel is None) && !(conversation matches Some(c)
            && !crate::util::id_valid(c@)) && !(channel matches Some(c) && !crate::util::id_valid(c@))) ==> r is Ok,
{
    let agent_id = crate::util::validate_id(agent, "agent id")?;
    let only = crate::storage::optional_target_room(conversation, channel)?;
    let only_ref: Option<&str> = match &only {
        Some(id) => Some(id.as_str()),
        None => None,
    };
    let asks = crate::asks::gather_open_asks(ask_sources, only_ref, Some(agent_id.as_str()));
    Ok(crate::asks::split_awaiting(&asks, agent_id.as_str()))
}

} // verus!
