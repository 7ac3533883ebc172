//! Keeping an agent's claim current: claiming a name, registering again,
//! heartbeats and state changes. Each update writes the whole record anew;
//! what it keeps from the previous record, and what it takes from the
//! running process, is stated here.

use vstd::prelude::*;
use crate::error::{ErrorCode, RaftError};
use crate::lists::views;
use crate::records::Agent;
use crate::text::str_eq;
use crate::util::{default_agent_state, schema_v1};

verus! {

broadcast use vstd::std_specs::vec::group_vec_axioms, vstd::seq::group_seq_axioms;

/// Where a record update runs: the process id, the host name, the current
/// time, and the expiry that the record's time-to-live gives from now.
pub struct Liveness {
    pub pid: u32,
    pub host: String,
    pub now: String,
    pub expires_at: String,
}

pub open spec fn opt_view(o: Option<String>) -> Option<Seq<char>> {
    match o {
        Some(s) => Some(s@),
        None => None,
    }
}

/// The fields every update sets from the running process.
pub open spec fn stamped(a: Agent, id: Seq<char>, live: Liveness, ttl: u64) -> bool {
    &&& a.v == 1
    &&& a.id@ == id
    &&& a.mention@ == "@"@ + id
    &&& a.pid == live.pid
    &&& a.host@ == live.host@
    &&& a.last_seen_at@ == live.now@
    &&& a.ttl_seconds == ttl
    &&& a.expires_at@ == live.expires_at@
}

/// The fields that describe what the agent is doing, carried over unchanged.
pub open spec fn keeps_state(a: Agent, previous: Agent) -> bool {
    &&& a.current_state@ == previous.current_state@
    &&& opt_view(a.state_note) == opt_view(previous.state_note)
    &&& a.state_updated_at@ == previous.state_updated_at@
    &&& opt_view(a.pubkey) == opt_view(previous.pubkey)
}

fn copy_opt(o: &Option<String>) -> (r: Option<String>)
    ensures
        opt_view(r) == opt_view(*o),
{
    match o {
        Some(s) => Some(s.clone()),
        None => None,
    }
}

fn copy_strings(v: &Vec<String>) -> (r: Vec<String>)
    ensures
        views(r@) == views(v@),
{
    let mut out: Vec<String> = Vec::new();
    let mut i: usize = 0;
    while i < v.len()
        invariant
            i <= v@.len(),
            views(out@) == views(v@).take(i as int),
        decreases v@.len() - i,
    {
        let ghost before = out@;
        out.push(v[i].clone());
        proof {
            assert(views(out@) =~= views(before).push(v@[i as int]@));
            assert(views(v@).take(i + 1) =~= views(v@).take(i as int).push(v@[i as int]@));
        }
        i = i + 1;
    }
    assert(views(v@).take(v@.len() as int) =~= views(v@));
    out
}

fn mention(id: &str) -> (r: String)
    ensures
        r@ == "@"@ + id@,
{
    let mut m = String::from_str("@");
    m.append(id);
    m
}

/// A fresh claim of `agent_id`: idle, with no note, its state set now.
pub fn claimed_agent(agent_id: &str, workspace: Option<String>, capabilities: Vec<String>, live: &Liveness, ttl: u64) -> (r: Agent)
    ensures
        stamped(r, agent_id@, *live, ttl),
        opt_view(r.workspace) == opt_view(workspace),
        views(r.capabilities@) == views(capabilities@),
        r.current_state@ == "idle"@,
        r.state_note is None,
        r.state_updated_at@ == live.now@,
        r.pubkey is None,
{
    Agent {
        v: schema_v1(),
        id: String::from_str(agent_id),
        mention: mention(agent_id),
        workspace,
        capabilities,
        pid: live.pid,
        host: live.host.clone(),
        last_seen_at: live.now.clone(),
        ttl_seconds: ttl,
        expires_at: live.expires_at.clone(),
        current_state: default_agent_state(),
        state_note: None,
        state_updated_at: live.now.clone(),
        pubkey: None,
    }
}

/// Registering again: a new workspace and capability list replace the old
/// ones only when given (an empty list keeps the old one); the state is kept.
pub fn registered_agent(
    previous: &Agent,
    agent_id: &str,
    workspace: Option<String>,
    capabilities: Vec<String>,
    live: &Liveness,
    ttl: u64,
) -> (r: Agent)
    ensures
        stamped(r, agent_id@, *live, ttl),
        opt_view(r.workspace) == (if workspace is Some {
            opt_view(workspace)
        } else {
            opt_view(previous.workspace)
        }),
        views(r.capabilities@) == (if capabilities@.len() > 0 {
            views(capabilities@)
        } else {
            views(previous.capabilities@)
        }),
        keeps_state(r, *previous),
{
    let ws = match workspace {
        Some(w) => Some(w),
        None => copy_opt(&previous.workspace),
    };
    let caps = if capabilities.len() > 0 {
        capabilities
    } else {
        copy_strings(&previous.capabilities)
    };
    Agent {
        v: schema_v1(),
        id: String::from_str(agent_id),
        mention: mention(agent_id),
        workspace: ws,
        capabilities: caps,
        pid: live.pid,
        host: live.host.clone(),
        last_seen_at: live.now.clone(),
        ttl_seconds: ttl,
        expires_at: live.expires_at.clone(),
        current_state: previous.current_state.clone(),
        state_note: copy_opt(&previous.state_note),
        state_updated_at: previous.state_updated_at.clone(),
        pubkey: copy_opt(&previous.pubkey),
    }
}

/// The time-to-live a heartbeat uses: the one asked for, else the claim's.
pub fn heartbeat_ttl(previous: &Agent, ttl_override: Option<u64>) -> (r: u64)
    ensures
        r == match ttl_override {
            Some(t) => t,
            None => previous.ttl_seconds,
        },
{
    match ttl_override {
        Some(t) => t,
        None => previous.ttl_seconds,
    }
}

/// A heartbeat: the claim is renewed from the running process; workspace,
/// capabilities and state are kept.
pub fn heartbeat_agent(previous: &Agent, agent_id: &str, live: &Liveness, ttl: u64) -> (r: Agent)
    ensures
        stamped(r, agent_id@, *live, ttl),
        opt_view(r.workspace) == opt_view(previous.workspace),
        views(r.capabilities@) == views(previous.capabilities@),
        keeps_state(r, *previous),
{
    Agent {
        v: schema_v1(),
        id: String::from_str(agent_id),
        mention: mention(agent_id),
        workspace: copy_opt(&previous.workspace),
        capabilities: copy_strings(&previous.capabilities),
        pid: live.pid,
        host: live.host.clone(),
        last_seen_at: live.now.clone(),
        ttl_seconds: ttl,
        expires_at: live.expires_at.clone(),
        current_state: previous.current_state.clone(),
        state_note: copy_opt(&previous.state_note),
        state_updated_at: previous.state_updated_at.clone(),
        pubkey: copy_opt(&previous.pubkey),
    }
}

/// Whether setting `state` and `note` changes what the record says.
pub open spec fn state_changes(previous: Agent, state: Seq<char>, note: Option<Seq<char>>) -> bool {
    previous.current_state@ != state || opt_view(previous.state_note) != note
}

fn opt_str_eq(a: &Option<String>, b: &Option<String>) -> (r: bool)
    ensures
        r == (opt_view(*a) == opt_view(*b)),
{
    match (a, b) {
        (Some(x), Some(y)) => str_eq(x.as_str(), y.as_str()),
        (None, None) => true,
        _ => false,
    }
}

/// Setting the agent's state: the new state and note take effect now, the
/// claim is renewed with its own time-to-live. Also says whether anything
/// changed, in which case participants are told.
pub fn state_set_agent(previous: &Agent, agent_id: &str, state: &str, note: Option<String>, live: &Liveness) -> (r: (
    Agent,
    bool,
))
    ensures
        stamped(r.0, agent_id@, *live, previous.ttl_seconds),
        opt_view(r.0.workspace) == opt_view(previous.workspace),
        views(r.0.capabilities@) == views(previous.capabilities@),
        r.0.current_state@ == state@,
        opt_view(r.0.state_note) == opt_view(note),
        r.0.state_updated_at@ == live.now@,
        opt_view(r.0.pubkey) == opt_view(previous.pubkey),
        r.1 == state_changes(*previous, state@, opt_view(note)),
{
    let changed = !str_eq(previous.current_state.as_str(), state) || !opt_str_eq(&previous.state_note, &note);
    let a = Agent {
        v: schema_v1(),
        id: String::from_str(agent_id),
        mention: mention(agent_id),
        workspace: copy_opt(&previous.workspace),
        capabilities: copy_strings(&previous.capabilities),
        pid: live.pid,
        host: live.host.clone(),
        last_seen_at: live.now.clone(),
        ttl_seconds: previous.ttl_seconds,
        expires_at: live.expires_at.clone(),
        current_state: String::from_str(state),
        state_note: note,
        state_updated_at: live.now.clone(),
        pubkey: copy_opt(&previous.pubkey),
    };
    (a, changed)
}

/// The refusal when an update finds no claim for `agent_id`.
pub fn not_claimed(agent_id: &str) -> (r: RaftError)
    ensures
        r.code == ErrorCode::NotClaimed,
        r.message@ == "agent @"@ + agent_id@ + " is not claimed; use raft claim"@,
{
    let mut m = String::from_str("agent @");
    m.append(agent_id);
    m.append(" is not claimed; use raft claim");
    RaftError::coded(ErrorCode::NotClaimed, m)
}

/// The refusal when `agent_id` is claimed already.
pub fn already_claimed(agent_id: &str) -> (r: RaftError)
    ensures
        r.code == ErrorCode::Conflict,
        r.message@ == "agent name @"@ + agent_id@ + " is already claimed"@,
{
    let mut m = String::from_str("agent name @");
    m.append(agent_id);
    m.append(" is already claimed");
    RaftError::coded(ErrorCode::Conflict, m)
}

} // verus!
