//! The doctor's walk over a bus: what the directory scan read, entry by
//! entry, and the report it adds up to.
//!
//! The program reads the bus directory (sorted by path, as the doctor
//! lists entries) into the plain records below; everything decided about
//! them happens here.

use vstd::prelude::*;
use crate::doctor::{
    agent_findings, agent_key_panics, doctor_check_agent, doctor_check_dir_mode,
    doctor_check_file_mode, doctor_check_lock_owner, doctor_check_runtime_agent,
    doctor_check_schema, doctor_check_time, doctor_read_outcome, error_at, lock_owner_findings,
    mode_findings, read_findings, runtime_agent_findings, schema_findings, time_findings,
    warning_at, DirState, DoctorReport, Finding, Loaded,
};
use crate::capability::opt_view;
use crate::lists::views;
use crate::records::{Agent, LockOwner, Message, Meta, Receipt};
use crate::capability::Token;
use crate::checks::{
    doctor_check_message, doctor_check_receipt, doctor_check_reply, message_check_panics,
    message_findings, receipt_findings, reply_findings,
};
use crate::audit::{loaded_key_panics, signature_check_panics};
use crate::doctor::{
    count_level, doctor_check_expected_dir, doctor_check_meta, expected_dir_findings, meta_findings,
    DoctorCounts, IssueLevel,
};
use crate::json::JsonValue;
use crate::lists::contains_str;
use crate::storage::{
    agent_record_name, age_exceeds, ends_with, has_json_extension, is_agent_record_file, is_temp_artifact,
    str_ends_with, temp_artifact_name, temp_file_is_stale, ORPHAN_TMP_STALE_SECONDS,
};
use crate::text::{debug_quoted, debug_str, str_eq};

verus! {

broadcast use vstd::std_specs::vec::group_vec_axioms, vstd::seq::group_seq_axioms;

/// A record file as the scan found it: its file name, its display path,
/// its permission bits (when readable) and what reading it gave.
pub struct RecordFile<T> {
    pub name: String,
    pub path: String,
    pub mode: Option<u32>,
    pub loaded: Loaded<T>,
}

impl DoctorReport {
    /// Everything but the findings and the counts is as in `other`.
    pub open spec fn same_header(&self, other: &DoctorReport) -> bool {
        &&& self.root == other.root
        &&& self.ok == other.ok
        &&& self.strict == other.strict
        &&& self.error_count == other.error_count
        &&& self.warning_count == other.warning_count
    }
}

/// Whether the name has extension `ext` (given with its dot).
pub open spec fn has_extension(name: Seq<char>, ext: Seq<char>) -> bool {
    ends_with(name, ext) && name != ext
}

fn name_has_extension(name: &str, ext: &str) -> (r: bool)
    ensures
        r == has_extension(name@, ext@),
{
    str_ends_with(name, ext) && !str_eq(name, ext)
}

/// The findings on one entry of `agents/`: only agent records are looked at.
pub open spec fn agent_entry_findings(f: RecordFile<Agent>) -> Seq<Finding> {
    if !agent_record_name(f.name@) {
        Seq::empty()
    } else {
        mode_findings(f.path@, f.mode, 0o600, "file_mode"@) + read_findings(f.path@, f.loaded) + match f.loaded {
            Loaded::Parsed(a) => agent_findings(f.path@, f.name@, a),
            _ => Seq::empty(),
        }
    }
}

pub open spec fn agents_scan_findings(fs: Seq<RecordFile<Agent>>, n: int) -> Seq<Finding>
    decreases n,
{
    if n <= 0 {
        Seq::empty()
    } else {
        agents_scan_findings(fs, n - 1) + agent_entry_findings(fs[n - 1])
    }
}

/// How many of the first `n` entries are agent records.
pub open spec fn agent_records(fs: Seq<RecordFile<Agent>>, n: int) -> nat
    decreases n,
{
    if n <= 0 {
        0
    } else {
        agent_records(fs, n - 1) + if agent_record_name(fs[n - 1].name@) { 1nat } else { 0nat }
    }
}

/// The ids of the agents whose records among the first `n` entries parsed:
/// the claimed agents.
pub open spec fn claimed_ids(fs: Seq<RecordFile<Agent>>, n: int) -> Seq<Seq<char>>
    decreases n,
{
    if n <= 0 {
        Seq::empty()
    } else {
        claimed_ids(fs, n - 1) + if agent_record_name(fs[n - 1].name@) && fs[n - 1].loaded is Parsed {
            seq![fs[n - 1].loaded->Parsed_0.id@]
        } else {
            Seq::empty()
        }
    }
}

/// An agent record does not carry a key text that would make parsing panic.
pub open spec fn agent_key_safe(f: RecordFile<Agent>) -> bool {
    match f.loaded {
        Loaded::Parsed(a) => agent_record_name(f.name@) ==> !agent_key_panics(a),
        _ => true,
    }
}

/// No agent record carries a key text that would make parsing panic.
pub open spec fn agent_keys_safe(fs: Seq<RecordFile<Agent>>) -> bool {
    forall|i: int| 0 <= i < fs.len() ==> agent_key_safe(#[trigger] fs[i])
}

fn scan_agent_entry(report: &mut DoctorReport, f: &RecordFile<Agent>, claimed: &mut Vec<String>)
    requires
        old(report).counts.agents < usize::MAX,
        agent_key_safe(*f),
    ensures
        final(report).log() == old(report).log() + agent_entry_findings(*f),
        final(report).same_header(old(report)),
        final(report).counts == (crate::doctor::DoctorCounts {
            agents: (old(report).counts.agents + if agent_record_name(f.name@) { 1int } else { 0int }) as usize,
            ..old(report).counts
        }),
        views(final(claimed)@) == views(old(claimed)@) + if agent_record_name(f.name@) && f.loaded is Parsed {
            seq![f.loaded->Parsed_0.id@]
        } else {
            Seq::empty()
        },
{
    let ghost l0 = report.log();
    if !is_agent_record_file(f.name.as_str()) {
        assert(report.log() =~= l0 + agent_entry_findings(*f));
        assert(views(claimed@) =~= views(old(claimed)@));
        return;
    }
    report.counts.agents = report.counts.agents + 1;
    doctor_check_file_mode(report, f.path.as_str(), f.mode);
    let ghost l1 = report.log();
    let parsed = doctor_read_outcome(report, f.path.as_str(), &f.loaded);
    let ghost l2 = report.log();
    match parsed {
        Some(agent) => {
            proof {
                reveal_strlit(".json");
            }
            doctor_check_agent(report, f.path.as_str(), f.name.as_str(), agent);
            claimed.push(agent.id.clone());
            proof {
                assert(views(claimed@) =~= views(old(claimed)@) + seq![f.loaded->Parsed_0.id@]);
            }
        },
        None => {
            assert(views(claimed@) =~= views(old(claimed)@));
        },
    }
    assert(report.log() =~= l0 + agent_entry_findings(*f));
}

/// Scan the entries of `agents/`: check every agent record, count them, and
/// return the claimed agent ids.
pub fn doctor_scan_agents(report: &mut DoctorReport, files: &Vec<RecordFile<Agent>>) -> (claimed: Vec<String>)
    requires
        old(report).counts.agents + files@.len() <= usize::MAX,
        agent_keys_safe(files@),
    ensures
        final(report).log() == old(report).log() + agents_scan_findings(files@, files@.len() as int),
        final(report).same_header(old(report)),
        final(report).counts == (crate::doctor::DoctorCounts {
            agents: (old(report).counts.agents + agent_records(files@, files@.len() as int)) as usize,
            ..old(report).counts
        }),
        views(claimed@) == claimed_ids(files@, files@.len() as int),
{
    let mut claimed: Vec<String> = Vec::new();
    let ghost l0 = report.log();
    let ghost c0 = report.counts;
    let mut i: usize = 0;
    while i < files.len()
        invariant
            i <= files@.len(),
            c0.agents + files@.len() <= usize::MAX,
            agent_keys_safe(files@),
            agent_records(files@, i as int) <= i,
            report.log() == l0 + agents_scan_findings(files@, i as int),
            report.same_header(old(report)),
            report.counts == (crate::doctor::DoctorCounts {
                agents: (c0.agents + agent_records(files@, i as int)) as usize,
                ..c0
            }),
            views(claimed@) == claimed_ids(files@, i as int),
        decreases files@.len() - i,
    {
        let ghost f = files@[i as int];
        scan_agent_entry(report, &files[i], &mut claimed);
        assert(report.log() =~= l0 + agents_scan_findings(files@, i + 1));
        assert(views(claimed@) =~= claimed_ids(files@, i + 1));
        i = i + 1;
    }
    claimed
}

/// A watcher's state file: a heartbeat watcher's (with its last heartbeat)
/// or a watch cursor's.
pub struct RuntimeState {
    pub v: u16,
    pub agent: String,
    pub pid: u32,
    pub started_at: String,
    pub updated_at: String,
    pub last_heartbeat_at: Option<String>,
    pub shutdown_at: Option<String>,
}

/// A state file under `heartbeat/` or `watch/`, with whether the process it
/// names was found running.
pub struct RuntimeFile {
    pub file: RecordFile<RuntimeState>,
    pub pid_alive: bool,
}

/// The findings on a parsed watcher state at `path`; `label` names the kind
/// of state in the schema warning.
pub open spec fn runtime_state_findings(path: Seq<char>, label: Seq<char>, claimed: Seq<Seq<char>>, st: RuntimeState, pid_alive: bool) -> Seq<Finding> {
    schema_findings(path, st.v, label) + runtime_agent_findings(
        path,
        claimed,
        st.agent@,
        st.pid,
        opt_view(st.shutdown_at),
        pid_alive,
    ) + time_findings(path, "started_at"@, st.started_at@) + time_findings(path, "updated_at"@, st.updated_at@)
        + match st.last_heartbeat_at {
        Some(t) => time_findings(path, "last_heartbeat_at"@, t@),
        None => Seq::empty(),
    }
}

/// The findings on one entry of `heartbeat/` or `watch/`: only JSON files
/// are looked at.
pub open spec fn runtime_entry_findings(rf: RuntimeFile, label: Seq<char>, claimed: Seq<Seq<char>>) -> Seq<Finding> {
    let f = rf.file;
    if !has_json_extension(f.name@) {
        Seq::empty()
    } else {
        mode_findings(f.path@, f.mode, 0o600, "file_mode"@) + read_findings(f.path@, f.loaded) + match f.loaded {
            Loaded::Parsed(st) => runtime_state_findings(f.path@, label, claimed, st, rf.pid_alive),
            _ => Seq::empty(),
        }
    }
}

pub open spec fn runtime_scan_findings(fs: Seq<RuntimeFile>, label: Seq<char>, claimed: Seq<Seq<char>>, n: int) -> Seq<Finding>
    decreases n,
{
    if n <= 0 {
        Seq::empty()
    } else {
        runtime_scan_findings(fs, label, claimed, n - 1) + runtime_entry_findings(fs[n - 1], label, claimed)
    }
}

/// How many of the first `n` entries are JSON files.
pub open spec fn runtime_files(fs: Seq<RuntimeFile>, n: int) -> nat
    decreases n,
{
    if n <= 0 {
        0
    } else {
        runtime_files(fs, n - 1) + if has_json_extension(fs[n - 1].file.name@) { 1nat } else { 0nat }
    }
}

fn check_runtime_state(report: &mut DoctorReport, path: &str, label: &str, claimed: &[String], st: &RuntimeState, pid_alive: bool)
    ensures
        final(report).log() == old(report).log() + runtime_state_findings(path@, label@, views(claimed@), *st, pid_alive),
        final(report).same_but_log(old(report)),
{
    let ghost l0 = report.log();
    doctor_check_schema(report, path, st.v, label);
    let shutdown: Option<&str> = match &st.shutdown_at {
        Some(t) => Some(t.as_str()),
        None => None,
    };
    doctor_check_runtime_agent(report, path, claimed, st.agent.as_str(), st.pid, shutdown, pid_alive);
    assert(crate::doctor::opt_seq(shutdown) == opt_view(st.shutdown_at));
    doctor_check_time(report, path, "started_at", st.started_at.as_str());
    doctor_check_time(report, path, "updated_at", st.updated_at.as_str());
    if let Some(t) = &st.last_heartbeat_at {
        doctor_check_time(report, path, "last_heartbeat_at", t.as_str());
    }
    assert(report.log() =~= l0 + runtime_state_findings(path@, label@, views(claimed@), *st, pid_alive));
}

fn scan_runtime_entry(report: &mut DoctorReport, rf: &RuntimeFile, label: &str, claimed: &[String])
    ensures
        final(report).log() == old(report).log() + runtime_entry_findings(*rf, label@, views(claimed@)),
        final(report).same_but_log(old(report)),
{
    let ghost l0 = report.log();
    let f = &rf.file;
    if !name_has_extension(f.name.as_str(), ".json") {
        assert(report.log() =~= l0 + runtime_entry_findings(*rf, label@, views(claimed@)));
        return;
    }
    doctor_check_file_mode(report, f.path.as_str(), f.mode);
    let parsed = doctor_read_outcome(report, f.path.as_str(), &f.loaded);
    if let Some(st) = parsed {
        check_runtime_state(report, f.path.as_str(), label, claimed, st, rf.pid_alive);
    }
    assert(report.log() =~= l0 + runtime_entry_findings(*rf, label@, views(claimed@)));
}

/// Scan the watcher states: `heartbeats` from `heartbeat/`, then `watches`
/// from `watch/`, against the claimed agents.
pub fn doctor_scan_runtime_states(
    report: &mut DoctorReport,
    heartbeats: &Vec<RuntimeFile>,
    watches: &Vec<RuntimeFile>,
    claimed: &[String],
)
    requires
        old(report).counts.heartbeat_watchers + heartbeats@.len() <= usize::MAX,
        old(report).counts.watch_cursors + watches@.len() <= usize::MAX,
    ensures
        final(report).log() == old(report).log() + runtime_scan_findings(
            heartbeats@,
            "heartbeat state"@,
            views(claimed@),
            heartbeats@.len() as int,
        ) + runtime_scan_findings(watches@, "watch state"@, views(claimed@), watches@.len() as int),
        final(report).same_header(old(report)),
        final(report).counts == (crate::doctor::DoctorCounts {
            heartbeat_watchers: (old(report).counts.heartbeat_watchers + runtime_files(
                heartbeats@,
                heartbeats@.len() as int,
            )) as usize,
            watch_cursors: (old(report).counts.watch_cursors + runtime_files(watches@, watches@.len() as int)) as usize,
            ..old(report).counts
        }),
{
    let ghost l0 = report.log();
    let ghost c0 = report.counts;
    let ghost cl = views(claimed@);
    let mut i: usize = 0;
    while i < heartbeats.len()
        invariant
            i <= heartbeats@.len(),
            c0.heartbeat_watchers + heartbeats@.len() <= usize::MAX,
            runtime_files(heartbeats@, i as int) <= i,
            cl == views(claimed@),
            report.log() == l0 + runtime_scan_findings(heartbeats@, "heartbeat state"@, cl, i as int),
            report.same_header(old(report)),
            report.counts == (crate::doctor::DoctorCounts {
                heartbeat_watchers: (c0.heartbeat_watchers + runtime_files(heartbeats@, i as int)) as usize,
                ..c0
            }),
        decreases heartbeats@.len() - i,
    {
        if name_has_extension(heartbeats[i].file.name.as_str(), ".json") {
            report.counts.heartbeat_watchers = report.counts.heartbeat_watchers + 1;
        }
        proof {
            reveal_strlit(".json");
        }
        scan_runtime_entry(report, &heartbeats[i], "heartbeat state", claimed);
        assert(report.log() =~= l0 + runtime_scan_findings(heartbeats@, "heartbeat state"@, cl, i + 1));
        i = i + 1;
    }
    let ghost l1 = report.log();
    let ghost c1 = report.counts;
    let mut i: usize = 0;
    while i < watches.len()
        invariant
            i <= watches@.len(),
            c1.watch_cursors + watches@.len() <= usize::MAX,
            c1.watch_cursors == c0.watch_cursors,
            runtime_files(watches@, i as int) <= i,
            cl == views(claimed@),
            report.log() == l1 + runtime_scan_findings(watches@, "watch state"@, cl, i as int),
            report.same_header(old(report)),
            report.counts == (crate::doctor::DoctorCounts {
                watch_cursors: (c1.watch_cursors + runtime_files(watches@, i as int)) as usize,
                ..c1
            }),
        decreases watches@.len() - i,
    {
        if name_has_extension(watches[i].file.name.as_str(), ".json") {
            report.counts.watch_cursors = report.counts.watch_cursors + 1;
        }
        scan_runtime_entry(report, &watches[i], "watch state", claimed);
        assert(report.log() =~= l1 + runtime_scan_findings(watches@, "watch state"@, cl, i + 1));
        i = i + 1;
    }
}

/// A `*.lock` entry of `locks/`: a directory holding `owner.json`.
pub struct LockEntry {
    pub name: String,
    pub path: String,
    pub is_dir: bool,
    pub mode: Option<u32>,
    /// The owner record, `None` when the lock has no `owner.json`.
    pub owner: Option<RecordFile<LockOwner>>,
}

/// The findings on one entry of `locks/` at the instant `now`: only
/// `.lock` entries are looked at.
pub open spec fn lock_entry_findings(e: LockEntry, now: (i64, u32)) -> Seq<Finding> {
    if !has_extension(e.name@, ".lock"@) {
        Seq::empty()
    } else if !e.is_dir {
        seq![error_at("invalid_lock"@, e.path@, "lock path is not a directory"@)]
    } else {
        mode_findings(e.path@, e.mode, 0o700, "directory_mode"@) + match e.owner {
            None => seq![warning_at("missing_lock_owner"@, e.path@, "lock has no owner.json"@)],
            Some(o) => mode_findings(o.path@, o.mode, 0o600, "file_mode"@) + read_findings(o.path@, o.loaded)
                + match o.loaded {
                Loaded::Parsed(lo) => lock_owner_findings(e.path@, o.path@, lo, now),
                _ => Seq::empty(),
            },
        }
    }
}

pub open spec fn locks_scan_findings(es: Seq<LockEntry>, now: (i64, u32), n: int) -> Seq<Finding>
    decreases n,
{
    if n <= 0 {
        Seq::empty()
    } else {
        locks_scan_findings(es, now, n - 1) + lock_entry_findings(es[n - 1], now)
    }
}

/// How many of the first `n` entries are `.lock` entries.
pub open spec fn lock_entries(es: Seq<LockEntry>, n: int) -> nat
    decreases n,
{
    if n <= 0 {
        0
    } else {
        lock_entries(es, n - 1) + if has_extension(es[n - 1].name@, ".lock"@) { 1nat } else { 0nat }
    }
}

fn scan_lock_entry(report: &mut DoctorReport, e: &LockEntry, now: (i64, u32))
    ensures
        final(report).log() == old(report).log() + lock_entry_findings(*e, now),
        final(report).same_but_log(old(report)),
{
    let ghost l0 = report.log();
    if !name_has_extension(e.name.as_str(), ".lock") {
        assert(report.log() =~= l0 + lock_entry_findings(*e, now));
        return;
    }
    if !e.is_dir {
        report.error(e.path.as_str(), "invalid_lock", String::from_str("lock path is not a directory"));
        assert(report.log() =~= l0 + lock_entry_findings(*e, now));
        return;
    }
    doctor_check_dir_mode(report, e.path.as_str(), e.mode);
    let ghost l1 = report.log();
    match &e.owner {
        None => {
            report.warn(e.path.as_str(), "missing_lock_owner", String::from_str("lock has no owner.json"));
        },
        Some(o) => {
            doctor_check_file_mode(report, o.path.as_str(), o.mode);
            let parsed = doctor_read_outcome(report, o.path.as_str(), &o.loaded);
            if let Some(lo) = parsed {
                doctor_check_lock_owner(report, e.path.as_str(), o.path.as_str(), lo, now);
            }
        },
    }
    assert(report.log() =~= l0 + lock_entry_findings(*e, now));
}

/// Scan the entries of `locks/` at the instant `now`.
pub fn doctor_scan_locks(report: &mut DoctorReport, entries: &Vec<LockEntry>, now: (i64, u32))
    requires
        old(report).counts.locks + entries@.len() <= usize::MAX,
    ensures
        final(report).log() == old(report).log() + locks_scan_findings(entries@, now, entries@.len() as int),
        final(report).same_header(old(report)),
        final(report).counts == (crate::doctor::DoctorCounts {
            locks: (old(report).counts.locks + lock_entries(entries@, entries@.len() as int)) as usize,
            ..old(report).counts
        }),
{
    let ghost l0 = report.log();
    let ghost c0 = report.counts;
    let mut i: usize = 0;
    while i < entries.len()
        invariant
            i <= entries@.len(),
            c0.locks + entries@.len() <= usize::MAX,
            lock_entries(entries@, i as int) <= i,
            report.log() == l0 + locks_scan_findings(entries@, now, i as int),
            report.same_header(old(report)),
            report.counts == (crate::doctor::DoctorCounts {
                locks: (c0.locks + lock_entries(entries@, i as int)) as usize,
                ..c0
            }),
        decreases entries@.len() - i,
    {
        if name_has_extension(entries[i].name.as_str(), ".lock") {
            report.counts.locks = report.counts.locks + 1;
        }
        scan_lock_entry(report, &entries[i], now);
        assert(report.log() =~= l0 + locks_scan_findings(entries@, now, i + 1));
        i = i + 1;
    }
}

/// A file under a conversation's `messages/`, with what the scan found for
/// it besides the message itself: the first awaited worker's passport key
/// (or no passport, or the error text of one that could not be read); the
/// body parsed as a task (its capability) or the parser's error text; the
/// sender's agent record and where it was read; the message as a JSON
/// document; and the parser's error text when the body is not a task
/// result.
pub struct MessageFile {
    pub file: RecordFile<Message>,
    pub lookup: Result<Option<String>, String>,
    pub body: Result<Option<Token>, String>,
    pub agent_path: String,
    pub author: Loaded<Agent>,
    pub record: JsonValue,
    pub result_error: Option<String>,
}

/// A receipt file, with its agent's record and the receipt as a JSON
/// document.
pub struct ReceiptFile {
    pub file: RecordFile<Receipt>,
    pub agent_path: String,
    pub author: Loaded<Agent>,
    pub record: JsonValue,
}

/// An entry of a conversation's `receipts/`: a directory per message.
pub struct ReceiptDir {
    pub name: String,
    pub path: String,
    pub is_dir: bool,
    pub mode: Option<u32>,
    pub files: Vec<ReceiptFile>,
}

/// An entry of `conversations/`.
pub struct ConversationEntry {
    pub name: String,
    pub path: String,
    pub is_dir: bool,
    pub mode: Option<u32>,
    /// `meta.json`; `None` when the conversation has none.
    pub meta: Option<RecordFile<Meta>>,
    pub messages_path: String,
    pub messages_dir: DirState,
    pub receipts_path: String,
    pub receipts_dir: DirState,
    pub messages: Vec<MessageFile>,
    pub receipts: Vec<ReceiptDir>,
}

pub open spec fn message_entry_findings(mf: MessageFile, meta: Meta, limit: usize) -> Seq<Finding> {
    let f = mf.file;
    if !has_json_extension(f.name@) {
        Seq::empty()
    } else {
        mode_findings(f.path@, f.mode, 0o600, "file_mode"@) + read_findings(f.path@, f.loaded) + match f.loaded {
            Loaded::Parsed(m) => message_findings(
                f.path@,
                f.name@,
                meta,
                m,
                limit,
                mf.lookup,
                mf.body,
                mf.agent_path@,
                mf.author,
                mf.record,
            ),
            _ => Seq::empty(),
        }
    }
}

pub open spec fn messages_scan_findings(ms: Seq<MessageFile>, meta: Meta, limit: usize, n: int) -> Seq<Finding>
    decreases n,
{
    if n <= 0 {
        Seq::empty()
    } else {
        messages_scan_findings(ms, meta, limit, n - 1) + message_entry_findings(ms[n - 1], meta, limit)
    }
}

/// Whether the entry is a message file that parsed.
pub open spec fn stored(mf: MessageFile) -> bool {
    has_json_extension(mf.file.name@) && mf.file.loaded is Parsed
}

/// The ids of the stored messages among the first `n` entries.
pub open spec fn stored_ids(ms: Seq<MessageFile>, n: int) -> Seq<Seq<char>>
    decreases n,
{
    if n <= 0 {
        Seq::empty()
    } else {
        stored_ids(ms, n - 1) + if stored(ms[n - 1]) {
            seq![ms[n - 1].file.loaded->Parsed_0.id@]
        } else {
            Seq::empty()
        }
    }
}

/// The ids of the stored tasks among the first `n` entries.
pub open spec fn task_ids(ms: Seq<MessageFile>, n: int) -> Seq<Seq<char>>
    decreases n,
{
    if n <= 0 {
        Seq::empty()
    } else {
        task_ids(ms, n - 1) + if stored(ms[n - 1]) && ms[n - 1].file.loaded->Parsed_0.kind@ == "task"@ {
            seq![ms[n - 1].file.loaded->Parsed_0.id@]
        } else {
            Seq::empty()
        }
    }
}

/// The reply findings on the stored messages among the first `n` entries.
pub open spec fn replies_findings(ms: Seq<MessageFile>, ids: Seq<Seq<char>>, tids: Seq<Seq<char>>, n: int) -> Seq<Finding>
    decreases n,
{
    if n <= 0 {
        Seq::empty()
    } else {
        replies_findings(ms, ids, tids, n - 1) + if stored(ms[n - 1]) {
            reply_findings(ms[n - 1].file.path@, ms[n - 1].file.loaded->Parsed_0, ids, tids, ms[n - 1].result_error)
        } else {
            Seq::empty()
        }
    }
}

/// How many of the first `n` entries are message files.
pub open spec fn message_files(ms: Seq<MessageFile>, n: int) -> nat
    decreases n,
{
    if n <= 0 {
        0
    } else {
        message_files(ms, n - 1) + if has_json_extension(ms[n - 1].file.name@) { 1nat } else { 0nat }
    }
}

/// Checking a message file does not panic.
pub open spec fn message_file_safe(mf: MessageFile) -> bool {
    match mf.file.loaded {
        Loaded::Parsed(m) => has_json_extension(mf.file.name@) ==> !message_check_panics(
            m,
            mf.body,
            mf.author,
            mf.record,
        ),
        _ => true,
    }
}

fn scan_message_entry(
    report: &mut DoctorReport,
    mf: &MessageFile,
    meta: &Meta,
    limit: usize,
    ids: &mut Vec<String>,
    tids: &mut Vec<String>,
)
    requires
        message_file_safe(*mf),
    ensures
        final(report).log() == old(report).log() + message_entry_findings(*mf, *meta, limit),
        final(report).same_but_log(old(report)),
        views(final(ids)@) == views(old(ids)@) + if stored(*mf) {
            seq![mf.file.loaded->Parsed_0.id@]
        } else {
            Seq::empty()
        },
        views(final(tids)@) == views(old(tids)@) + if stored(*mf) && mf.file.loaded->Parsed_0.kind@ == "task"@ {
            seq![mf.file.loaded->Parsed_0.id@]
        } else {
            Seq::empty()
        },
{
    let ghost l0 = report.log();
    let f = &mf.file;
    if !name_has_extension(f.name.as_str(), ".json") {
        assert(report.log() =~= l0 + message_entry_findings(*mf, *meta, limit));
        assert(views(ids@) =~= views(old(ids)@));
        assert(views(tids@) =~= views(old(tids)@));
        return;
    }
    doctor_check_file_mode(report, f.path.as_str(), f.mode);
    let parsed = doctor_read_outcome(report, f.path.as_str(), &f.loaded);
    match parsed {
        Some(m) => {
            proof {
                reveal_strlit(".json");
            }
            doctor_check_message(
                report,
                f.path.as_str(),
                f.name.as_str(),
                meta,
                m,
                limit,
                &mf.lookup,
                &mf.body,
                mf.agent_path.as_str(),
                &mf.author,
                &mf.record,
            );
            ids.push(m.id.clone());
            if str_eq(m.kind.as_str(), "task") {
                tids.push(m.id.clone());
            }
            assert(views(ids@) =~= views(old(ids)@) + seq![m.id@]);
            assert(views(tids@) =~= views(old(tids)@) + if m.kind@ == "task"@ {
                seq![m.id@]
            } else {
                Seq::empty()
            });
        },
        None => {
            assert(views(ids@) =~= views(old(ids)@));
            assert(views(tids@) =~= views(old(tids)@));
        },
    }
    assert(report.log() =~= l0 + message_entry_findings(*mf, *meta, limit));
}

/// Scan a conversation's message files: check each, count them, and return
/// the stored message ids and task ids; then check every stored message's
/// reply link against them.
pub fn doctor_scan_messages(report: &mut DoctorReport, ms: &Vec<MessageFile>, meta: &Meta, limit: usize) -> (r: (Vec<String>, Vec<String>))
    requires
        old(report).counts.messages + ms@.len() <= usize::MAX,
        forall|i: int| 0 <= i < ms@.len() ==> message_file_safe(#[trigger] ms@[i]),
    ensures
        final(report).log() == old(report).log() + messages_scan_findings(ms@, *meta, limit, ms@.len() as int)
            + replies_findings(ms@, stored_ids(ms@, ms@.len() as int), task_ids(ms@, ms@.len() as int), ms@.len() as int),
        final(report).same_header(old(report)),
        final(report).counts == (DoctorCounts {
            messages: (old(report).counts.messages + message_files(ms@, ms@.len() as int)) as usize,
            ..old(report).counts
        }),
        views(r.0@) == stored_ids(ms@, ms@.len() as int),
        views(r.1@) == task_ids(ms@, ms@.len() as int),
{
    let ghost l0 = report.log();
    let ghost c0 = report.counts;
    let mut ids: Vec<String> = Vec::new();
    let mut tids: Vec<String> = Vec::new();
    let mut i: usize = 0;
    while i < ms.len()
        invariant
            i <= ms@.len(),
            c0.messages + ms@.len() <= usize::MAX,
            forall|k: int| 0 <= k < ms@.len() ==> message_file_safe(#[trigger] ms@[k]),
            message_files(ms@, i as int) <= i,
            report.log() == l0 + messages_scan_findings(ms@, *meta, limit, i as int),
            report.same_header(old(report)),
            report.counts == (DoctorCounts { messages: (c0.messages + message_files(ms@, i as int)) as usize, ..c0 }),
            views(ids@) == stored_ids(ms@, i as int),
            views(tids@) == task_ids(ms@, i as int),
        decreases ms@.len() - i,
    {
        if name_has_extension(ms[i].file.name.as_str(), ".json") {
            report.counts.messages = report.counts.messages + 1;
        }
        scan_message_entry(report, &ms[i], meta, limit, &mut ids, &mut tids);
        assert(report.log() =~= l0 + messages_scan_findings(ms@, *meta, limit, i + 1));
        assert(views(ids@) =~= stored_ids(ms@, i + 1));
        assert(views(tids@) =~= task_ids(ms@, i + 1));
        i = i + 1;
    }
    let ghost l1 = report.log();
    let ghost iv = views(ids@);
    let ghost tv = views(tids@);
    let mut i: usize = 0;
    while i < ms.len()
        invariant
            i <= ms@.len(),
            iv == views(ids@),
            tv == views(tids@),
            report.log() == l1 + replies_findings(ms@, iv, tv, i as int),
            report.same_header(old(report)),
            report.counts == (DoctorCounts {
                messages: (c0.messages + message_files(ms@, ms@.len() as int)) as usize,
                ..c0
            }),
        decreases ms@.len() - i,
    {
        let mf = &ms[i];
        if name_has_extension(mf.file.name.as_str(), ".json") {
            if let Loaded::Parsed(m) = &mf.file.loaded {
                doctor_check_reply(report, mf.file.path.as_str(), m, ids.as_slice(), tids.as_slice(), &mf.result_error);
            }
        }
        assert(report.log() =~= l1 + replies_findings(ms@, iv, tv, i + 1));
        i = i + 1;
    }
    (ids, tids)
}

pub open spec fn receipt_file_findings(rf: ReceiptFile, meta: Meta, dir_message_id: Seq<char>) -> Seq<Finding> {
    let f = rf.file;
    if !has_json_extension(f.name@) {
        Seq::empty()
    } else {
        mode_findings(f.path@, f.mode, 0o600, "file_mode"@) + read_findings(f.path@, f.loaded) + match f.loaded {
            Loaded::Parsed(r) => receipt_findings(
                f.path@,
                f.name@,
                meta,
                dir_message_id,
                r,
                rf.agent_path@,
                rf.author,
                rf.record,
            ),
            _ => Seq::empty(),
        }
    }
}

pub open spec fn receipt_files_findings(fs: Seq<ReceiptFile>, meta: Meta, dir_message_id: Seq<char>, n: int) -> Seq<Finding>
    decreases n,
{
    if n <= 0 {
        Seq::empty()
    } else {
        receipt_files_findings(fs, meta, dir_message_id, n - 1) + receipt_file_findings(fs[n - 1], meta, dir_message_id)
    }
}

/// The findings on one entry of `receipts/`, given the stored message ids.
pub open spec fn receipt_dir_findings(d: ReceiptDir, meta: Meta, ids: Seq<Seq<char>>) -> Seq<Finding> {
    if !d.is_dir {
        seq![warning_at("invalid_receipt_dir"@, d.path@, "receipt entry is not a directory"@)]
    } else {
        mode_findings(d.path@, d.mode, 0o700, "directory_mode"@) + crate::doctor::found_if(
            !ids.contains(d.name@),
            warning_at(
                "orphan_receipts"@,
                d.path@,
                "receipt directory references missing message "@ + debug_quoted(d.name@),
            ),
        ) + receipt_files_findings(d.files@, meta, d.name@, d.files@.len() as int)
    }
}

pub open spec fn receipts_scan_findings(ds: Seq<ReceiptDir>, meta: Meta, ids: Seq<Seq<char>>, n: int) -> Seq<Finding>
    decreases n,
{
    if n <= 0 {
        Seq::empty()
    } else {
        receipts_scan_findings(ds, meta, ids, n - 1) + receipt_dir_findings(ds[n - 1], meta, ids)
    }
}

/// How many of the first `n` files are receipt files.
pub open spec fn receipt_files(fs: Seq<ReceiptFile>, n: int) -> nat
    decreases n,
{
    if n <= 0 {
        0
    } else {
        receipt_files(fs, n - 1) + if has_json_extension(fs[n - 1].file.name@) { 1nat } else { 0nat }
    }
}

/// How many receipt files the first `n` receipt directories hold.
pub open spec fn receipts_counted(ds: Seq<ReceiptDir>, n: int) -> nat
    decreases n,
{
    if n <= 0 {
        0
    } else {
        receipts_counted(ds, n - 1) + if ds[n - 1].is_dir {
            receipt_files(ds[n - 1].files@, ds[n - 1].files@.len() as int)
        } else {
            0nat
        }
    }
}

/// How many files the first `n` receipt directories list.
pub open spec fn receipt_entries(ds: Seq<ReceiptDir>, n: int) -> nat
    decreases n,
{
    if n <= 0 {
        0
    } else {
        receipt_entries(ds, n - 1) + ds[n - 1].files@.len()
    }
}

proof fn lemma_receipt_files_bound(fs: Seq<ReceiptFile>, n: int)
    requires
        0 <= n <= fs.len(),
    ensures
        receipt_files(fs, n) <= n,
    decreases n,
{
    if n > 0 {
        lemma_receipt_files_bound(fs, n - 1);
    }
}

proof fn lemma_receipts_counted_bound(ds: Seq<ReceiptDir>, n: int)
    requires
        0 <= n <= ds.len(),
    ensures
        receipts_counted(ds, n) <= receipt_entries(ds, n),
    decreases n,
{
    if n > 0 {
        lemma_receipts_counted_bound(ds, n - 1);
        lemma_receipt_files_bound(ds[n - 1].files@, ds[n - 1].files@.len() as int);
    }
}

/// Checking a receipt file does not panic.
pub open spec fn receipt_file_safe(rf: ReceiptFile) -> bool {
    (rf.file.loaded is Parsed && has_json_extension(rf.file.name@)) ==> !loaded_key_panics(rf.author)
        && !signature_check_panics(rf.record)
}

pub open spec fn receipt_dir_safe(d: ReceiptDir) -> bool {
    forall|i: int| 0 <= i < d.files@.len() ==> receipt_file_safe(#[trigger] d.files@[i])
}

fn scan_receipt_file(report: &mut DoctorReport, rf: &ReceiptFile, meta: &Meta, dir_message_id: &str)
    requires
        receipt_file_safe(*rf),
    ensures
        final(report).log() == old(report).log() + receipt_file_findings(*rf, *meta, dir_message_id@),
        final(report).same_but_log(old(report)),
{
    let ghost l0 = report.log();
    let f = &rf.file;
    if !name_has_extension(f.name.as_str(), ".json") {
        assert(report.log() =~= l0 + receipt_file_findings(*rf, *meta, dir_message_id@));
        return;
    }
    doctor_check_file_mode(report, f.path.as_str(), f.mode);
    let parsed = doctor_read_outcome(report, f.path.as_str(), &f.loaded);
    if let Some(r) = parsed {
        proof {
            reveal_strlit(".json");
        }
        doctor_check_receipt(
            report,
            f.path.as_str(),
            f.name.as_str(),
            meta,
            dir_message_id,
            r,
            rf.agent_path.as_str(),
            &rf.author,
            &rf.record,
        );
    }
    assert(report.log() =~= l0 + receipt_file_findings(*rf, *meta, dir_message_id@));
}

fn scan_receipt_dir(report: &mut DoctorReport, d: &ReceiptDir, meta: &Meta, ids: &[String])
    requires
        old(report).counts.receipts + d.files@.len() <= usize::MAX,
        receipt_dir_safe(*d),
    ensures
        final(report).log() == old(report).log() + receipt_dir_findings(*d, *meta, views(ids@)),
        final(report).same_header(old(report)),
        final(report).counts == (DoctorCounts {
            receipts: (old(report).counts.receipts + if d.is_dir {
                receipt_files(d.files@, d.files@.len() as int)
            } else {
                0nat
            }) as usize,
            ..old(report).counts
        }),
{
    let ghost l0 = report.log();
    let ghost c0 = report.counts;
    if !d.is_dir {
        report.warn(d.path.as_str(), "invalid_receipt_dir", String::from_str("receipt entry is not a directory"));
        assert(report.log() =~= l0 + receipt_dir_findings(*d, *meta, views(ids@)));
        return;
    }
    doctor_check_dir_mode(report, d.path.as_str(), d.mode);
    if !contains_str(ids, d.name.as_str()) {
        let mut t = String::from_str("receipt directory references missing message ");
        t.append(debug_str(d.name.as_str()).as_str());
        report.warn(d.path.as_str(), "orphan_receipts", t);
    }
    let ghost l1 = report.log();
    let mut i: usize = 0;
    while i < d.files.len()
        invariant
            i <= d.files@.len(),
            c0.receipts + d.files@.len() <= usize::MAX,
            receipt_dir_safe(*d),
            receipt_files(d.files@, i as int) <= i,
            report.log() == l1 + receipt_files_findings(d.files@, *meta, d.name@, i as int),
            report.same_header(old(report)),
            report.counts == (DoctorCounts { receipts: (c0.receipts + receipt_files(d.files@, i as int)) as usize, ..c0 }),
        decreases d.files@.len() - i,
    {
        if name_has_extension(d.files[i].file.name.as_str(), ".json") {
            report.counts.receipts = report.counts.receipts + 1;
        }
        scan_receipt_file(report, &d.files[i], meta, d.name.as_str());
        assert(report.log() =~= l1 + receipt_files_findings(d.files@, *meta, d.name@, i + 1));
        i = i + 1;
    }
    assert(report.log() =~= l0 + receipt_dir_findings(*d, *meta, views(ids@)));
}

/// Scan a conversation's receipt directories against the stored message ids.
pub fn doctor_scan_receipts(report: &mut DoctorReport, ds: &Vec<ReceiptDir>, meta: &Meta, ids: &[String])
    requires
        old(report).counts.receipts + receipt_entries(ds@, ds@.len() as int) <= usize::MAX,
        forall|i: int| 0 <= i < ds@.len() ==> receipt_dir_safe(#[trigger] ds@[i]),
    ensures
        final(report).log() == old(report).log() + receipts_scan_findings(ds@, *meta, views(ids@), ds@.len() as int),
        final(report).same_header(old(report)),
        final(report).counts == (DoctorCounts {
            receipts: (old(report).counts.receipts + receipts_counted(ds@, ds@.len() as int)) as usize,
            ..old(report).counts
        }),
{
    let ghost l0 = report.log();
    let ghost c0 = report.counts;
    let mut i: usize = 0;
    while i < ds.len()
        invariant
            i <= ds@.len(),
            c0.receipts + receipt_entries(ds@, ds@.len() as int) <= usize::MAX,
            forall|k: int| 0 <= k < ds@.len() ==> receipt_dir_safe(#[trigger] ds@[k]),
            report.log() == l0 + receipts_scan_findings(ds@, *meta, views(ids@), i as int),
            report.same_header(old(report)),
            report.counts == (DoctorCounts { receipts: (c0.receipts + receipts_counted(ds@, i as int)) as usize, ..c0 }),
        decreases ds@.len() - i,
    {
        proof {
            lemma_receipts_counted_bound(ds@, i as int);
            lemma_receipt_entries_mono(ds@, i + 1, ds@.len() as int);
        }
        scan_receipt_dir(report, &ds[i], meta, ids);
        assert(report.log() =~= l0 + receipts_scan_findings(ds@, *meta, views(ids@), i + 1));
        i = i + 1;
    }
}

proof fn lemma_receipt_entries_mono(ds: Seq<ReceiptDir>, a: int, b: int)
    requires
        0 <= a <= b <= ds.len(),
    ensures
        receipt_entries(ds, a) <= receipt_entries(ds, b),
    decreases b - a,
{
    if a < b {
        lemma_receipt_entries_mono(ds, a, b - 1);
    }
}

/// The findings on a conversation's `messages/` or `receipts/` directory.
pub open spec fn child_dir_findings(path: Seq<char>, child: Seq<char>, state: DirState) -> Seq<Finding> {
    match state {
        DirState::Missing => seq![
            error_at("missing_conversation_dir"@, path, "conversation is missing "@ + child + "/"@),
        ],
        DirState::NotDirectory => seq![
            error_at("invalid_conversation_dir"@, path, child + "/ is not a directory"@),
        ],
        DirState::Directory(mode) => mode_findings(path, mode, 0o700, "directory_mode"@),
    }
}

fn check_child_dir(report: &mut DoctorReport, path: &str, child: &str, state: &DirState)
    ensures
        final(report).log() == old(report).log() + child_dir_findings(path@, child@, *state),
        final(report).same_but_log(old(report)),
{
    match state {
        DirState::Missing => {
            let mut t = String::from_str("conversation is missing ");
            t.append(child);
            t.append("/");
            report.error(path, "missing_conversation_dir", t);
        },
        DirState::NotDirectory => {
            let mut t = String::from_str(child);
            t.append("/ is not a directory");
            report.error(path, "invalid_conversation_dir", t);
        },
        DirState::Directory(mode) => {
            doctor_check_dir_mode(report, path, *mode);
        },
    }
    assert(final(report).log() =~= old(report).log() + child_dir_findings(path@, child@, *state));
}

/// The findings on a conversation whose `meta.json` parsed.
pub open spec fn conversation_body_findings(c: ConversationEntry, mf: RecordFile<Meta>, meta: Meta, claimed: Seq<Seq<char>>, limit: usize) -> Seq<Finding> {
    let n = c.messages@.len() as int;
    meta_findings(mf.path@, c.name@, claimed, meta) + child_dir_findings(c.messages_path@, "messages"@, c.messages_dir)
        + child_dir_findings(c.receipts_path@, "receipts"@, c.receipts_dir) + messages_scan_findings(
        c.messages@,
        meta,
        limit,
        n,
    ) + replies_findings(c.messages@, stored_ids(c.messages@, n), task_ids(c.messages@, n), n)
        + receipts_scan_findings(c.receipts@, meta, stored_ids(c.messages@, n), c.receipts@.len() as int)
}

/// The findings on one entry of `conversations/`, given the claimed agents.
pub open spec fn conversation_findings(c: ConversationEntry, claimed: Seq<Seq<char>>, limit: usize) -> Seq<Finding> {
    if !c.is_dir {
        Seq::empty()
    } else {
        mode_findings(c.path@, c.mode, 0o700, "directory_mode"@) + match c.meta {
            None => seq![error_at("missing_meta"@, c.path@, "conversation has no meta.json"@)],
            Some(mf) => mode_findings(mf.path@, mf.mode, 0o600, "file_mode"@) + read_findings(mf.path@, mf.loaded)
                + parsed_meta_findings(c, mf, claimed, limit),
        }
    }
}

/// The findings past `meta.json`, when it parsed.
pub open spec fn parsed_meta_findings(c: ConversationEntry, mf: RecordFile<Meta>, claimed: Seq<Seq<char>>, limit: usize) -> Seq<Finding> {
    match mf.loaded {
        Loaded::Parsed(meta) => conversation_body_findings(c, mf, meta, claimed, limit),
        _ => Seq::empty(),
    }
}

pub open spec fn conversations_scan_findings(cs: Seq<ConversationEntry>, claimed: Seq<Seq<char>>, limit: usize, n: int) -> Seq<Finding>
    decreases n,
{
    if n <= 0 {
        Seq::empty()
    } else {
        conversations_scan_findings(cs, claimed, limit, n - 1) + conversation_findings(cs[n - 1], claimed, limit)
    }
}

/// Whether the conversation's records are read further: it is a directory
/// whose `meta.json` parsed.
pub open spec fn meta_parsed(c: ConversationEntry) -> bool {
    c.is_dir && (c.meta matches Some(mf) && mf.loaded is Parsed)
}

/// The counts the first `n` conversation entries add: directories, message
/// files and receipt files.
pub open spec fn conversations_counted(cs: Seq<ConversationEntry>, n: int) -> (nat, nat, nat)
    decreases n,
{
    if n <= 0 {
        (0, 0, 0)
    } else {
        let p = conversations_counted(cs, n - 1);
        let c = cs[n - 1];
        (
            p.0 + if c.is_dir { 1nat } else { 0nat },
            p.1 + if meta_parsed(c) { message_files(c.messages@, c.messages@.len() as int) } else { 0nat },
            p.2 + if meta_parsed(c) { receipts_counted(c.receipts@, c.receipts@.len() as int) } else { 0nat },
        )
    }
}

/// How many message files and receipt-directory files the first `n`
/// conversation entries list.
pub open spec fn conversation_files(cs: Seq<ConversationEntry>, n: int) -> (nat, nat)
    decreases n,
{
    if n <= 0 {
        (0, 0)
    } else {
        let p = conversation_files(cs, n - 1);
        (
            p.0 + cs[n - 1].messages@.len(),
            p.1 + receipt_entries(cs[n - 1].receipts@, cs[n - 1].receipts@.len() as int),
        )
    }
}

/// Checking a conversation's records does not panic.
pub open spec fn conversation_safe(c: ConversationEntry) -> bool {
    &&& forall|i: int| 0 <= i < c.messages@.len() ==> message_file_safe(#[trigger] c.messages@[i])
    &&& forall|i: int| 0 <= i < c.receipts@.len() ==> receipt_dir_safe(#[trigger] c.receipts@[i])
}

proof fn lemma_message_files_bound(ms: Seq<MessageFile>, n: int)
    requires
        0 <= n <= ms.len(),
    ensures
        message_files(ms, n) <= n,
    decreases n,
{
    if n > 0 {
        lemma_message_files_bound(ms, n - 1);
    }
}

proof fn lemma_conversations_counted_bound(cs: Seq<ConversationEntry>, n: int)
    requires
        0 <= n <= cs.len(),
    ensures
        conversations_counted(cs, n).0 <= n,
        conversations_counted(cs, n).1 <= conversation_files(cs, n).0,
        conversations_counted(cs, n).2 <= conversation_files(cs, n).1,
    decreases n,
{
    if n > 0 {
        lemma_conversations_counted_bound(cs, n - 1);
        lemma_message_files_bound(cs[n - 1].messages@, cs[n - 1].messages@.len() as int);
        lemma_receipts_counted_bound(cs[n - 1].receipts@, cs[n - 1].receipts@.len() as int);
    }
}

proof fn lemma_conversation_files_mono(cs: Seq<ConversationEntry>, a: int, b: int)
    requires
        0 <= a <= b <= cs.len(),
    ensures
        conversation_files(cs, a).0 <= conversation_files(cs, b).0,
        conversation_files(cs, a).1 <= conversation_files(cs, b).1,
    decreases b - a,
{
    if a < b {
        lemma_conversation_files_mono(cs, a, b - 1);
    }
}

fn scan_conversation_body(report: &mut DoctorReport, c: &ConversationEntry, mf: &RecordFile<Meta>, meta: &Meta, claimed: &[String], limit: usize)
    requires
        old(report).counts.messages + c.messages@.len() <= usize::MAX,
        old(report).counts.receipts + receipt_entries(c.receipts@, c.receipts@.len() as int) <= usize::MAX,
        conversation_safe(*c),
    ensures
        final(report).log() == old(report).log() + conversation_body_findings(*c, *mf, *meta, views(claimed@), limit),
        final(report).same_header(old(report)),
        final(report).counts == (DoctorCounts {
            messages: (old(report).counts.messages + message_files(c.messages@, c.messages@.len() as int)) as usize,
            receipts: (old(report).counts.receipts + receipts_counted(c.receipts@, c.receipts@.len() as int)) as usize,
            ..old(report).counts
        }),
{
    let ghost l0 = report.log();
    let ghost n = c.messages@.len() as int;
    doctor_check_meta(report, mf.path.as_str(), c.name.as_str(), claimed, meta);
    check_child_dir(report, c.messages_path.as_str(), "messages", &c.messages_dir);
    check_child_dir(report, c.receipts_path.as_str(), "receipts", &c.receipts_dir);
    let ghost l1 = report.log();
    let (ids, _tids) = doctor_scan_messages(report, &c.messages, meta, limit);
    let ghost l2 = report.log();
    doctor_scan_receipts(report, &c.receipts, meta, ids.as_slice());
    proof {
        let a = meta_findings(mf.path@, c.name@, views(claimed@), *meta);
        let b = child_dir_findings(c.messages_path@, "messages"@, c.messages_dir);
        let d = child_dir_findings(c.receipts_path@, "receipts"@, c.receipts_dir);
        assert(l1 =~= l0 + (a + b + d));
        let e = messages_scan_findings(c.messages@, *meta, limit, n) + replies_findings(
            c.messages@,
            stored_ids(c.messages@, n),
            task_ids(c.messages@, n),
            n,
        );
        assert(l2 =~= l0 + (a + b + d + e));
        assert(report.log() =~= l0 + conversation_body_findings(*c, *mf, *meta, views(claimed@), limit));
    }
}

fn scan_conversation(report: &mut DoctorReport, c: &ConversationEntry, claimed: &[String], limit: usize)
    requires
        old(report).counts.conversations < usize::MAX,
        old(report).counts.messages + c.messages@.len() <= usize::MAX,
        old(report).counts.receipts + receipt_entries(c.receipts@, c.receipts@.len() as int) <= usize::MAX,
        conversation_safe(*c),
    ensures
        final(report).log() == old(report).log() + conversation_findings(*c, views(claimed@), limit),
        final(report).same_header(old(report)),
        final(report).counts == (DoctorCounts {
            conversations: (old(report).counts.conversations + if c.is_dir { 1nat } else { 0nat }) as usize,
            messages: (old(report).counts.messages + if meta_parsed(*c) {
                message_files(c.messages@, c.messages@.len() as int)
            } else {
                0nat
            }) as usize,
            receipts: (old(report).counts.receipts + if meta_parsed(*c) {
                receipts_counted(c.receipts@, c.receipts@.len() as int)
            } else {
                0nat
            }) as usize,
            ..old(report).counts
        }),
{
    let ghost l0 = report.log();
    if !c.is_dir {
        assert(report.log() =~= l0 + conversation_findings(*c, views(claimed@), limit));
        return;
    }
    report.counts.conversations = report.counts.conversations + 1;
    doctor_check_dir_mode(report, c.path.as_str(), c.mode);
    let ghost l1 = report.log();
    match &c.meta {
        None => {
            report.error(c.path.as_str(), "missing_meta", String::from_str("conversation has no meta.json"));
        },
        Some(mf) => {
            doctor_check_file_mode(report, mf.path.as_str(), mf.mode);
            let parsed = doctor_read_outcome(report, mf.path.as_str(), &mf.loaded);
            let ghost l2 = report.log();
            if let Some(meta) = parsed {
                scan_conversation_body(report, c, mf, meta, claimed, limit);
            }
            assert(report.log() =~= l2 + parsed_meta_findings(*c, *mf, views(claimed@), limit));
        },
    }
    assert(report.log() =~= l0 + conversation_findings(*c, views(claimed@), limit));
}

/// Scan the entries of `conversations/` against the claimed agents; a
/// summary may hold `limit` bytes.
pub fn doctor_scan_conversations(report: &mut DoctorReport, cs: &Vec<ConversationEntry>, claimed: &[String], limit: usize)
    requires
        old(report).counts.conversations + cs@.len() <= usize::MAX,
        old(report).counts.messages + conversation_files(cs@, cs@.len() as int).0 <= usize::MAX,
        old(report).counts.receipts + conversation_files(cs@, cs@.len() as int).1 <= usize::MAX,
        forall|i: int| 0 <= i < cs@.len() ==> conversation_safe(#[trigger] cs@[i]),
    ensures
        final(report).log() == old(report).log() + conversations_scan_findings(cs@, views(claimed@), limit, cs@.len() as int),
        final(report).same_header(old(report)),
        final(report).counts == (DoctorCounts {
            conversations: (old(report).counts.conversations + conversations_counted(cs@, cs@.len() as int).0) as usize,
            messages: (old(report).counts.messages + conversations_counted(cs@, cs@.len() as int).1) as usize,
            receipts: (old(report).counts.receipts + conversations_counted(cs@, cs@.len() as int).2) as usize,
            ..old(report).counts
        }),
{
    let ghost l0 = report.log();
    let ghost c0 = report.counts;
    let ghost total = conversation_files(cs@, cs@.len() as int);
    let mut i: usize = 0;
    while i < cs.len()
        invariant
            i <= cs@.len(),
            total == conversation_files(cs@, cs@.len() as int),
            c0.conversations + cs@.len() <= usize::MAX,
            c0.messages + total.0 <= usize::MAX,
            c0.receipts + total.1 <= usize::MAX,
            forall|k: int| 0 <= k < cs@.len() ==> conversation_safe(#[trigger] cs@[k]),
            report.log() == l0 + conversations_scan_findings(cs@, views(claimed@), limit, i as int),
            report.same_header(old(report)),
            report.counts == (DoctorCounts {
                conversations: (c0.conversations + conversations_counted(cs@, i as int).0) as usize,
                messages: (c0.messages + conversations_counted(cs@, i as int).1) as usize,
                receipts: (c0.receipts + conversations_counted(cs@, i as int).2) as usize,
                ..c0
            }),
        decreases cs@.len() - i,
    {
        proof {
            lemma_conversations_counted_bound(cs@, i as int);
            lemma_conversation_files_mono(cs@, i + 1, cs@.len() as int);
        }
        scan_conversation(report, &cs[i], claimed, limit);
        assert(report.log() =~= l0 + conversations_scan_findings(cs@, views(claimed@), limit, i + 1));
        i = i + 1;
    }
}

/// A file met while walking the bus for staged temp files: its name, its
/// path, whether it is a regular file, and its age when it could be read.
pub struct TempCandidate {
    pub name: String,
    pub path: String,
    pub is_file: bool,
    pub age: Option<(u64, u32)>,
}

/// Whether a walked file is a staged temp file old enough to reap.
pub open spec fn is_orphan(c: TempCandidate) -> bool {
    c.is_file && temp_artifact_name(c.name@) && match c.age {
        Some((secs, nanos)) => age_exceeds(secs, nanos, ORPHAN_TMP_STALE_SECONDS),
        None => false,
    }
}

/// The paths of the orphans among the first `n` walked files, in order.
pub open spec fn orphan_paths(cs: Seq<TempCandidate>, n: int) -> Seq<Seq<char>>
    decreases n,
{
    if n <= 0 {
        Seq::empty()
    } else {
        orphan_paths(cs, n - 1) + if is_orphan(cs[n - 1]) { seq![cs[n - 1].path@] } else { Seq::empty() }
    }
}

/// The stale staged temp files among the files the walk met, in walk order.
pub fn collect_orphan_temp_files(candidates: &[TempCandidate]) -> (r: Vec<String>)
    ensures
        views(r@) == orphan_paths(candidates@, candidates@.len() as int),
{
    let mut found: Vec<String> = Vec::new();
    let mut i: usize = 0;
    while i < candidates.len()
        invariant
            i <= candidates@.len(),
            views(found@) == orphan_paths(candidates@, i as int),
        decreases candidates@.len() - i,
    {
        let c = &candidates[i];
        if c.is_file && is_temp_artifact(c.name.as_str()) && temp_file_is_stale(c.age) {
            found.push(c.path.clone());
        }
        assert(views(found@) =~= orphan_paths(candidates@, i + 1));
        i = i + 1;
    }
    found
}

/// The warning on each orphan temp file, or the error when the walk failed.
pub open spec fn orphan_findings(orphans: Result<Vec<String>, String>) -> Seq<Finding> {
    match orphans {
        Err(e) => seq![error_at("tmp_scan_failed"@, "."@, e@)],
        Ok(ps) => Seq::new(
            ps@.len(),
            |i: int|
                warning_at(
                    "orphan_temp_file"@,
                    ps@[i]@,
                    "stale atomic-write temp file; run raft gc to reap it"@,
                ),
        ),
    }
}

/// Report the stale temp files found (display paths), or the walk's error.
pub fn doctor_scan_orphan_temp_files(report: &mut DoctorReport, orphans: &Result<Vec<String>, String>)
    ensures
        final(report).log() == old(report).log() + orphan_findings(*orphans),
        final(report).same_but_log(old(report)),
{
    proof {
        reveal_strlit(".");
    }
    let ghost l0 = report.log();
    match orphans {
        Err(e) => {
            report.error(".", "tmp_scan_failed", e.clone());
        },
        Ok(ps) => {
            let mut i: usize = 0;
            while i < ps.len()
                invariant
                    i <= ps@.len(),
                    report.log() == l0 + Seq::new(
                        i as nat,
                        |k: int|
                            warning_at(
                                "orphan_temp_file"@,
                                ps@[k]@,
                                "stale atomic-write temp file; run raft gc to reap it"@,
                            ),
                    ),
                    report.same_but_log(old(report)),
                decreases ps@.len() - i,
            {
                report.warn(
                    ps[i].as_str(),
                    "orphan_temp_file",
                    String::from_str("stale atomic-write temp file; run raft gc to reap it"),
                );
                assert(report.log() =~= l0 + Seq::new(
                    (i + 1) as nat,
                    |k: int|
                        warning_at(
                            "orphan_temp_file"@,
                            ps@[k]@,
                            "stale atomic-write temp file; run raft gc to reap it"@,
                        ),
                ));
                i = i + 1;
            }
        },
    }
    assert(report.log() =~= l0 + orphan_findings(*orphans));
}

/// The bus's own top-level directories, in the order the doctor checks them.
pub open spec fn bus_dirs() -> Seq<Seq<char>> {
    seq![
        "agents"@,
        "archive"@,
        "conversations"@,
        "heartbeat"@,
        "journal"@,
        "locks"@,
        "staging"@,
        "watch"@,
    ]
}

pub open spec fn expected_dirs_findings(states: Seq<DirState>, n: int) -> Seq<Finding>
    decreases n,
{
    if n <= 0 {
        Seq::empty()
    } else {
        expected_dirs_findings(states, n - 1) + expected_dir_findings(bus_dirs()[n - 1], bus_dirs()[n - 1], states[n - 1])
    }
}

/// Everything the doctor reads from a bus.
pub struct BusSnapshot {
    /// What the bus root is.
    pub root: DirState,
    /// The state of each of the bus's own directories, in checking order.
    pub expected: Vec<DirState>,
    pub agents: Vec<RecordFile<Agent>>,
    pub heartbeats: Vec<RuntimeFile>,
    pub watches: Vec<RuntimeFile>,
    pub locks: Vec<LockEntry>,
    /// The instant the scan ran.
    pub now: (i64, u32),
    pub conversations: Vec<ConversationEntry>,
    /// The stale temp files (display paths), or why the walk failed.
    pub orphans: Result<Vec<String>, String>,
    /// The most bytes a summary message may hold.
    pub summary_limit: usize,
}

/// The findings past the root's own checks.
pub open spec fn bus_findings(snap: BusSnapshot) -> Seq<Finding> {
    let claimed = claimed_ids(snap.agents@, snap.agents@.len() as int);
    expected_dirs_findings(snap.expected@, 8) + agents_scan_findings(snap.agents@, snap.agents@.len() as int)
        + runtime_scan_findings(snap.heartbeats@, "heartbeat state"@, claimed, snap.heartbeats@.len() as int)
        + runtime_scan_findings(snap.watches@, "watch state"@, claimed, snap.watches@.len() as int)
        + locks_scan_findings(snap.locks@, snap.now, snap.locks@.len() as int) + conversations_scan_findings(
        snap.conversations@,
        claimed,
        snap.summary_limit,
        snap.conversations@.len() as int,
    ) + orphan_findings(snap.orphans)
}

/// Every finding of the doctor on a bus, in report order.
pub open spec fn doctor_findings(snap: BusSnapshot) -> Seq<Finding> {
    match snap.root {
        DirState::Missing => seq![error_at("missing_root"@, "."@, "bus root does not exist"@)],
        DirState::NotDirectory => seq![error_at("invalid_root"@, "."@, "bus root is not a directory"@)],
        DirState::Directory(mode) => mode_findings("."@, mode, 0o700, "directory_mode"@) + bus_findings(snap),
    }
}

/// The record counts of a scan of the bus.
pub open spec fn doctor_counts(snap: BusSnapshot) -> DoctorCounts {
    let cc = conversations_counted(snap.conversations@, snap.conversations@.len() as int);
    if snap.root is Directory {
        DoctorCounts {
            agents: agent_records(snap.agents@, snap.agents@.len() as int) as usize,
            conversations: cc.0 as usize,
            messages: cc.1 as usize,
            receipts: cc.2 as usize,
            locks: lock_entries(snap.locks@, snap.locks@.len() as int) as usize,
            heartbeat_watchers: runtime_files(snap.heartbeats@, snap.heartbeats@.len() as int) as usize,
            watch_cursors: runtime_files(snap.watches@, snap.watches@.len() as int) as usize,
        }
    } else {
        DoctorCounts {
            agents: 0,
            conversations: 0,
            messages: 0,
            receipts: 0,
            locks: 0,
            heartbeat_watchers: 0,
            watch_cursors: 0,
        }
    }
}

/// What a scan needs of its input: all eight of the bus's directories were
/// looked at, the message and receipt totals fit a machine word, and no
/// record would make a check panic.
pub open spec fn snapshot_well_formed(snap: BusSnapshot) -> bool {
    &&& snap.expected@.len() == 8
    &&& conversation_files(snap.conversations@, snap.conversations@.len() as int).0 <= usize::MAX
    &&& conversation_files(snap.conversations@, snap.conversations@.len() as int).1 <= usize::MAX
    &&& agent_keys_safe(snap.agents@)
    &&& forall|i: int|
        0 <= i < snap.conversations@.len() ==> conversation_safe(#[trigger] snap.conversations@[i])
}

fn scan_expected_dirs(report: &mut DoctorReport, states: &Vec<DirState>)
    requires
        states@.len() == 8,
    ensures
        final(report).log() == old(report).log() + expected_dirs_findings(states@, 8),
        final(report).same_but_log(old(report)),
{
    let children = ["agents", "archive", "conversations", "heartbeat", "journal", "locks", "staging", "watch"];
    proof {
        reveal_strlit("agents");
        reveal_strlit("archive");
        reveal_strlit("conversations");
        reveal_strlit("heartbeat");
        reveal_strlit("journal");
        reveal_strlit("locks");
        reveal_strlit("staging");
        reveal_strlit("watch");
        assert(forall|k: int| 0 <= k < 8 ==> children@[k]@ == #[trigger] bus_dirs()[k]);
    }
    let ghost l0 = report.log();
    let mut k: usize = 0;
    while k < 8
        invariant
            k <= 8,
            states@.len() == 8,
            forall|j: int| 0 <= j < 8 ==> children@[j]@ == #[trigger] bus_dirs()[j],
            report.log() == l0 + expected_dirs_findings(states@, k as int),
            report.same_but_log(old(report)),
        decreases 8 - k,
    {
        let child = children[k];
        assert(child@ == bus_dirs()[k as int]);
        doctor_check_expected_dir(report, child, child, &states[k]);
        assert(report.log() =~= l0 + expected_dirs_findings(states@, k + 1));
        k = k + 1;
    }
}

fn scan_bus(report: &mut DoctorReport, snap: &BusSnapshot)
    requires
        snapshot_well_formed(*snap),
        old(report).counts.is_zero(),
    ensures
        final(report).log() == old(report).log() + bus_findings(*snap),
        final(report).same_header(old(report)),
        snap.root is Directory ==> final(report).counts == doctor_counts(*snap),
{
    let ghost l0 = report.log();
    let ghost claimed_v = claimed_ids(snap.agents@, snap.agents@.len() as int);
    let _na = snap.agents.len();
    let _nh = snap.heartbeats.len();
    let _nw = snap.watches.len();
    let _nl = snap.locks.len();
    let _nc = snap.conversations.len();
    scan_expected_dirs(report, &snap.expected);
    let claimed = doctor_scan_agents(report, &snap.agents);
    let ghost l1 = report.log();
    doctor_scan_runtime_states(report, &snap.heartbeats, &snap.watches, claimed.as_slice());
    let ghost l2 = report.log();
    doctor_scan_locks(report, &snap.locks, snap.now);
    let ghost l3 = report.log();
    doctor_scan_conversations(report, &snap.conversations, claimed.as_slice(), snap.summary_limit);
    let ghost l4 = report.log();
    doctor_scan_orphan_temp_files(report, &snap.orphans);
    proof {
        let a = expected_dirs_findings(snap.expected@, 8) + agents_scan_findings(snap.agents@, snap.agents@.len() as int);
        assert(l1 =~= l0 + a);
        let b = runtime_scan_findings(snap.heartbeats@, "heartbeat state"@, claimed_v, snap.heartbeats@.len() as int)
            + runtime_scan_findings(snap.watches@, "watch state"@, claimed_v, snap.watches@.len() as int);
        assert(l2 =~= l0 + (a + b));
        let c = locks_scan_findings(snap.locks@, snap.now, snap.locks@.len() as int);
        assert(l3 =~= l0 + (a + b + c));
        let d = conversations_scan_findings(
            snap.conversations@,
            claimed_v,
            snap.summary_limit,
            snap.conversations@.len() as int,
        );
        assert(l4 =~= l0 + (a + b + c + d));
        assert(report.log() =~= l0 + bus_findings(*snap));
    }
}

/// The doctor's report on the bus at `root`, from what the scan read: every
/// finding in order, the record counts, and whether it is healthy (no error, and in
/// strict mode no warning either).
pub fn build_doctor_report(root: &str, strict: bool, snap: &BusSnapshot) -> (r: DoctorReport)
    requires
        snapshot_well_formed(*snap),
    ensures
        r.root@ == root@,
        r.strict == strict,
        r.log() == doctor_findings(*snap),
        r.counts == doctor_counts(*snap),
        r.error_count == count_level(r.log(), IssueLevel::Error),
        r.warning_count == count_level(r.log(), IssueLevel::Warning),
        r.ok == (r.error_count == 0 && (!strict || r.warning_count == 0)),
{
    proof {
        reveal_strlit(".");
    }
    let mut report = DoctorReport::new(root, strict);
    match &snap.root {
        DirState::Missing => {
            report.error(".", "missing_root", String::from_str("bus root does not exist"));
        },
        DirState::NotDirectory => {
            report.error(".", "invalid_root", String::from_str("bus root is not a directory"));
        },
        DirState::Directory(mode) => {
            doctor_check_dir_mode(&mut report, ".", *mode);
            scan_bus(&mut report, snap);
        },
    }
    assert(report.log() =~= doctor_findings(*snap));
    report.finalize();
    report
}

fn key_would_panic(loaded: &Loaded<Agent>) -> (r: bool)
    ensures
        r == loaded_key_panics(*loaded),
{
    match loaded {
        Loaded::Parsed(a) => match &a.pubkey {
            Some(pk) => {
                let none = String::new();
                proof {
                    assert(none@ =~= Seq::<char>::empty());
                    assert(!crate::hex::hex_panics(Seq::<char>::empty())) by {
                        reveal_with_fuel(crate::hex::byte_len, 1);
                    }
                }
                crate::crypto::verify_would_panic(pk.as_str(), none.as_str())
            },
            None => false,
        },
        _ => false,
    }
}

fn signature_would_panic(record: &JsonValue) -> (r: bool)
    ensures
        r == signature_check_panics(*record),
{
    match (crate::audit::string_field(record, "signer_key"), crate::audit::string_field(record, "sig")) {
        (Some(sk), Some(sg)) => crate::crypto::verify_would_panic(sk.as_str(), sg.as_str()),
        _ => false,
    }
}

fn message_file_would_panic(mf: &MessageFile) -> (r: bool)
    ensures
        r == !message_file_safe(*mf),
{
    match &mf.file.loaded {
        Loaded::Parsed(m) => {
            if !name_has_extension(mf.file.name.as_str(), ".json") {
                return false;
            }
            let task = str_eq(m.kind.as_str(), "task") && match &mf.body {
                Ok(Some(t)) => crate::capability::verify_chain_panics(t, None),
                _ => false,
            };
            task || (!str_eq(m.kind.as_str(), "system") && (key_would_panic(&mf.author) || signature_would_panic(
                &mf.record,
            )))
        },
        _ => false,
    }
}

fn receipt_dir_would_panic(d: &ReceiptDir) -> (r: bool)
    ensures
        r == !receipt_dir_safe(*d),
{
    let mut i: usize = 0;
    while i < d.files.len()
        invariant
            i <= d.files@.len(),
            forall|k: int| 0 <= k < i ==> receipt_file_safe(#[trigger] d.files@[k]),
        decreases d.files@.len() - i,
    {
        let rf = &d.files[i];
        let parsed = match &rf.file.loaded {
            Loaded::Parsed(_) => true,
            _ => false,
        };
        if parsed && name_has_extension(rf.file.name.as_str(), ".json") && (key_would_panic(&rf.author)
            || signature_would_panic(&rf.record)) {
            return true;
        }
        i = i + 1;
    }
    false
}

fn conversation_would_panic(c: &ConversationEntry) -> (r: bool)
    ensures
        r == !conversation_safe(*c),
{
    let mut i: usize = 0;
    while i < c.messages.len()
        invariant
            i <= c.messages@.len(),
            forall|k: int| 0 <= k < i ==> message_file_safe(#[trigger] c.messages@[k]),
        decreases c.messages@.len() - i,
    {
        if message_file_would_panic(&c.messages[i]) {
            return true;
        }
        i = i + 1;
    }
    let mut j: usize = 0;
    while j < c.receipts.len()
        invariant
            j <= c.receipts@.len(),
            forall|k: int| 0 <= k < c.messages@.len() ==> message_file_safe(#[trigger] c.messages@[k]),
            forall|k: int| 0 <= k < j ==> receipt_dir_safe(#[trigger] c.receipts@[k]),
        decreases c.receipts@.len() - j,
    {
        if receipt_dir_would_panic(&c.receipts[j]) {
            return true;
        }
        j = j + 1;
    }
    false
}

/// Whether a scan can be checked: eight expected directories, file counts
/// that fit a `usize`, and no key or signature text that would make checking
/// panic.
pub fn snapshot_checkable(snap: &BusSnapshot) -> (r: bool)
    ensures
        r == snapshot_well_formed(*snap),
{
    if snap.expected.len() != 8 {
        return false;
    }
    let mut a: usize = 0;
    while a < snap.agents.len()
        invariant
            a <= snap.agents@.len(),
            forall|k: int| 0 <= k < a ==> agent_key_safe(#[trigger] snap.agents@[k]),
        decreases snap.agents@.len() - a,
    {
        let f = &snap.agents[a];
        if let Loaded::Parsed(ag) = &f.loaded {
            if is_agent_record_file(f.name.as_str()) && key_would_panic(&f.loaded) {
                return false;
            }
        }
        a = a + 1;
    }
    let mut messages: u128 = 0;
    let mut receipts: u128 = 0;
    let mut c: usize = 0;
    while c < snap.conversations.len()
        invariant
            c <= snap.conversations@.len(),
            forall|k: int| 0 <= k < snap.agents@.len() ==> agent_key_safe(#[trigger] snap.agents@[k]),
            messages == conversation_files(snap.conversations@, c as int).0,
            receipts == conversation_files(snap.conversations@, c as int).1,
            messages <= usize::MAX,
            receipts <= usize::MAX,
            forall|k: int| 0 <= k < c ==> conversation_safe(#[trigger] snap.conversations@[k]),
        decreases snap.conversations@.len() - c,
    {
        let entry = &snap.conversations[c];
        if conversation_would_panic(entry) {
            return false;
        }
        let rsum: u128 = match receipt_files_count(&entry.receipts) {
            Some(n) => n as u128,
            None => {
                proof {
                    lemma_conversation_files_grow(snap.conversations@, c + 1, snap.conversations@.len() as int);
                }
                return false;
            },
        };
        messages = messages + entry.messages.len() as u128;
        receipts = receipts + rsum;
        if messages > usize::MAX as u128 || receipts > usize::MAX as u128 {
            proof {
                lemma_conversation_files_grow(snap.conversations@, c + 1, snap.conversations@.len() as int);
            }
            return false;
        }
        c = c + 1;
    }
    true
}

fn receipt_files_count(ds: &Vec<ReceiptDir>) -> (r: Option<usize>)
    ensures
        match r {
            Some(n) => n == receipt_entries(ds@, ds@.len() as int),
            None => receipt_entries(ds@, ds@.len() as int) > usize::MAX,
        },
{
    let mut sum: usize = 0;
    let mut d: usize = 0;
    while d < ds.len()
        invariant
            d <= ds@.len(),
            sum == receipt_entries(ds@, d as int),
        decreases ds@.len() - d,
    {
        let k = ds[d].files.len();
        if sum > usize::MAX - k {
            proof {
                lemma_receipt_entries_grow(ds@, d + 1, ds@.len() as int);
            }
            return None;
        }
        sum = sum + k;
        d = d + 1;
    }
    Some(sum)
}

proof fn lemma_receipt_entries_grow(ds: Seq<ReceiptDir>, m: int, n: int)
    requires
        0 <= m <= n <= ds.len(),
    ensures
        receipt_entries(ds, m) <= receipt_entries(ds, n),
    decreases n - m,
{
    if m < n {
        lemma_receipt_entries_grow(ds, m, n - 1);
    }
}

proof fn lemma_conversation_files_grow(cs: Seq<ConversationEntry>, m: int, n: int)
    requires
        0 <= m <= n <= cs.len(),
    ensures
        conversation_files(cs, m).0 <= conversation_files(cs, n).0,
        conversation_files(cs, m).1 <= conversation_files(cs, n).1,
    decreases n - m,
{
    if m < n {
        lemma_conversation_files_grow(cs, m, n - 1);
    }
}

} // verus!
