//! The bus health report: every check `raft doctor` runs, as functions that
//! append findings to a report.
//!
//! Paths in findings are display paths relative to the bus root; the scan
//! that walks the directories computes them with [`doctor_display_path`].

use vstd::prelude::*;
use crate::crypto::{parse_pubkey, pubkey_error, pubkey_panics, parsed_pubkey};
use crate::lists::{contains_str, views};
use crate::records::{Agent, LockOwner, Meta};
use crate::text::{debug_quoted, debug_str, decimal, decimal_chars, digit_char, split_on, str_eq};
use crate::time::{instant_before, instant_lt, is_rfc3339, parse_time, rfc3339_instant};
use crate::util::{
    id_valid, invalid_id_message, invalid_state_message, is_agent_state, validate_agent_state,
    validate_id,
};
use std::path::Path;

verus! {

broadcast use vstd::std_specs::vec::group_vec_axioms, vstd::seq::group_seq_axioms;

/// How serious a finding is.
#[derive(Clone, Copy, Debug, PartialEq, Eq, Structural)]
pub enum IssueLevel {
    Error,
    Warning,
}

impl IssueLevel {
    /// The level as the report prints it.
    pub fn as_str(&self) -> (r: &'static str)
        ensures
            r@ == (if *self == IssueLevel::Error { "error"@ } else { "warning"@ }),
    {
        match self {
            IssueLevel::Error => "error",
            IssueLevel::Warning => "warning",
        }
    }
}

/// One finding of the doctor.
pub struct DoctorIssue {
    pub level: IssueLevel,
    pub code: String,
    pub path: String,
    pub message: String,
}

/// A finding as plain text values.
pub struct Finding {
    pub level: IssueLevel,
    pub code: Seq<char>,
    pub path: Seq<char>,
    pub message: Seq<char>,
}

impl View for DoctorIssue {
    type V = Finding;

    open spec fn view(&self) -> Finding {
        Finding { level: self.level, code: self.code@, path: self.path@, message: self.message@ }
    }
}

pub open spec fn error_at(code: Seq<char>, path: Seq<char>, message: Seq<char>) -> Finding {
    Finding { level: IssueLevel::Error, code, path, message }
}

pub open spec fn warning_at(code: Seq<char>, path: Seq<char>, message: Seq<char>) -> Finding {
    Finding { level: IssueLevel::Warning, code, path, message }
}

/// One finding when the condition holds, none otherwise.
pub open spec fn found_if(c: bool, f: Finding) -> Seq<Finding> {
    if c { seq![f] } else { Seq::empty() }
}

pub open spec fn findings(s: Seq<DoctorIssue>) -> Seq<Finding> {
    s.map_values(|i: DoctorIssue| i@)
}

/// How many findings have the given level.
pub open spec fn count_level(s: Seq<Finding>, level: IssueLevel) -> nat
    decreases s.len(),
{
    if s.len() == 0 {
        0
    } else {
        count_level(s.drop_last(), level) + if s.last().level == level { 1nat } else { 0nat }
    }
}

/// How many records of each kind the scan looked at.
pub struct DoctorCounts {
    pub agents: usize,
    pub conversations: usize,
    pub messages: usize,
    pub receipts: usize,
    pub locks: usize,
    pub heartbeat_watchers: usize,
    pub watch_cursors: usize,
}

impl DoctorCounts {
    pub open spec fn is_zero(&self) -> bool {
        self.agents == 0 && self.conversations == 0 && self.messages == 0 && self.receipts == 0
            && self.locks == 0 && self.heartbeat_watchers == 0 && self.watch_cursors == 0
    }
}

/// The doctor's report on a bus.
pub struct DoctorReport {
    pub root: String,
    pub ok: bool,
    pub strict: bool,
    pub error_count: usize,
    pub warning_count: usize,
    pub counts: DoctorCounts,
    pub issues: Vec<DoctorIssue>,
}

impl DoctorReport {
    /// The findings so far.
    pub open spec fn log(&self) -> Seq<Finding> {
        findings(self.issues@)
    }

    /// Everything but the findings is as in `other`.
    pub open spec fn same_but_log(&self, other: &DoctorReport) -> bool {
        &&& self.root == other.root
        &&& self.ok == other.ok
        &&& self.strict == other.strict
        &&& self.error_count == other.error_count
        &&& self.warning_count == other.warning_count
        &&& self.counts == other.counts
    }

    /// An empty report on the bus at `root`.
    pub fn new(root: &str, strict: bool) -> (r: DoctorReport)
        ensures
            r.root@ == root@,
            r.ok,
            r.strict == strict,
            r.error_count == 0,
            r.warning_count == 0,
            r.counts.is_zero(),
            r.log() == Seq::<Finding>::empty(),
    {
        let r = DoctorReport {
            root: String::from_str(root),
            ok: true,
            strict,
            error_count: 0,
            warning_count: 0,
            counts: DoctorCounts {
                agents: 0,
                conversations: 0,
                messages: 0,
                receipts: 0,
                locks: 0,
                heartbeat_watchers: 0,
                watch_cursors: 0,
            },
            issues: Vec::new(),
        };
        assert(r.log() =~= Seq::<Finding>::empty());
        r
    }

    fn push(&mut self, level: IssueLevel, path: &str, code: &str, message: String)
        ensures
            final(self).log() == old(self).log().push(
                Finding { level, code: code@, path: path@, message: message@ },
            ),
            final(self).same_but_log(old(self)),
    {
        let issue = DoctorIssue {
            level,
            code: String::from_str(code),
            path: String::from_str(path),
            message,
        };
        self.issues.push(issue);
        assert(self.log() =~= old(self).log().push(
            Finding { level, code: code@, path: path@, message: message@ },
        ));
    }

    /// Record an error at `path`.
    pub fn error(&mut self, path: &str, code: &str, message: String)
        ensures
            final(self).log() == old(self).log().push(error_at(code@, path@, message@)),
            final(self).same_but_log(old(self)),
    {
        self.push(IssueLevel::Error, path, code, message);
    }

    /// Record a warning at `path`.
    pub fn warn(&mut self, path: &str, code: &str, message: String)
        ensures
            final(self).log() == old(self).log().push(warning_at(code@, path@, message@)),
            final(self).same_but_log(old(self)),
    {
        self.push(IssueLevel::Warning, path, code, message);
    }

    /// Count errors and warnings and decide whether the bus is healthy: it is
    /// when there is no error and, in strict mode, no warning either.
    pub fn finalize(&mut self)
        ensures
            final(self).error_count == count_level(old(self).log(), IssueLevel::Error),
            final(self).warning_count == count_level(old(self).log(), IssueLevel::Warning),
            final(self).ok == (final(self).error_count == 0 && (!final(self).strict
                || final(self).warning_count == 0)),
            final(self).issues@ == old(self).issues@,
            final(self).root == old(self).root,
            final(self).strict == old(self).strict,
            final(self).counts == old(self).counts,
    {
        let mut errors: usize = 0;
        let mut warnings: usize = 0;
        let mut i: usize = 0;
        let n = self.issues.len();
        while i < n
            invariant
                n == self.issues@.len(),
                i <= n,
                errors == count_level(self.log().take(i as int), IssueLevel::Error),
                warnings == count_level(self.log().take(i as int), IssueLevel::Warning),
                errors <= i,
                warnings <= i,
            decreases n - i,
        {
            proof {
                assert(self.log().take(i + 1).drop_last() =~= self.log().take(i as int));
                assert(self.log()[i as int] == self.issues@[i as int]@);
            }
            match self.issues[i].level {
                IssueLevel::Error => errors = errors + 1,
                IssueLevel::Warning => warnings = warnings + 1,
            }
            i = i + 1;
        }
        proof {
            assert(self.log().take(n as int) =~= self.log());
        }
        self.error_count = errors;
        self.warning_count = warnings;
        self.ok = errors == 0 && (!self.strict || warnings == 0);
    }
}

/// Every finding is an error or a warning: the two counts add up to the
/// number of findings.
pub proof fn lemma_levels_partition(s: Seq<Finding>)
    ensures
        count_level(s, IssueLevel::Error) + count_level(s, IssueLevel::Warning) == s.len(),
    decreases s.len(),
{
    if s.len() > 0 {
        lemma_levels_partition(s.drop_last());
    }
}

/// Octal digits of a natural number, as `{:o}` prints them.
pub open spec fn octal(n: nat) -> Seq<char>
    decreases n,
{
    if n < 8 {
        seq![digit_char(n)]
    } else {
        octal(n / 8).push(digit_char(n % 8))
    }
}

fn octal_digit(d: u32) -> (c: char)
    requires
        d < 8,
    ensures
        c == digit_char(d as nat),
{
    if d == 0 { '0' } else if d == 1 { '1' } else if d == 2 { '2' } else if d == 3 { '3' }
    else if d == 4 { '4' } else if d == 5 { '5' } else if d == 6 { '6' } else { '7' }
}

fn octal_chars(n: u32) -> (r: Vec<char>)
    ensures
        r@ == octal(n as nat),
    decreases n,
{
    if n < 8 {
        let mut v = Vec::new();
        v.push(octal_digit(n));
        v
    } else {
        let mut v = octal_chars(n / 8);
        v.push(octal_digit(n % 8));
        v
    }
}

fn push_chars(s: &mut String, cs: &Vec<char>)
    ensures
        final(s)@ == old(s)@ + cs@,
{
    let t = crate::text::string_of(cs.as_slice());
    s.append(t.as_str());
}

/// A path relative to the root, or `None` when the root is not a prefix of
/// it (component-wise), as `Path::strip_prefix` then `display` give it.
pub uninterp spec fn path_relative_to(path: Seq<char>, root: Seq<char>) -> Option<Seq<char>>;

/// `Path::new(path).strip_prefix(root)`, displayed. The result depends on
/// the two texts alone.
#[verifier::external_body]
fn strip_path_prefix(path: &str, root: &str) -> (r: Option<String>)
    ensures
        r matches Some(s) ==> path_relative_to(path@, root@) == Some(s@),
        r is None ==> path_relative_to(path@, root@) is None,
{
    match Path::new(path).strip_prefix(root) {
        Ok(stripped) => Some(stripped.display().to_string()),
        Err(_) => None,
    }
}

/// How a finding names a path: relative to the root, `.` for the root
/// itself, the path unchanged when it lies outside the root.
pub open spec fn display_path(root: Seq<char>, path: Seq<char>) -> Seq<char> {
    match path_relative_to(path, root) {
        Some(s) => if s.len() == 0 { "."@ } else { s },
        None => path,
    }
}

pub fn doctor_display_path(root: &str, path: &str) -> (r: String)
    ensures
        r@ == display_path(root@, path@),
{
    proof {
        reveal_strlit(".");
    }
    match strip_path_prefix(path, root) {
        Some(s) => {
            if crate::text::chars_of(s.as_str()).len() == 0 {
                String::from_str(".")
            } else {
                s
            }
        },
        None => String::from_str(path),
    }
}

/// The warning about a record written under another schema version.
pub open spec fn schema_findings(path: Seq<char>, version: u16, label: Seq<char>) -> Seq<Finding> {
    found_if(
        version != 1,
        warning_at(
            "schema_version"@,
            path,
            label + " has _v="@ + decimal(version as nat) + "; current schema is 1"@,
        ),
    )
}

pub fn doctor_check_schema(report: &mut DoctorReport, path: &str, version: u16, label: &str)
    ensures
        final(report).log() == old(report).log() + schema_findings(path@, version, label@),
        final(report).same_but_log(old(report)),
{
    if version != 1 {
        let mut m = String::from_str(label);
        m.append(" has _v=");
        push_chars(&mut m, &decimal_chars(version as u64));
        m.append("; current schema is 1");
        report.warn(path, "schema_version", m);
    }
    assert(final(report).log() =~= old(report).log() + schema_findings(path@, version, label@));
}

/// The error about a time field that is not RFC 3339.
pub open spec fn time_findings(path: Seq<char>, field: Seq<char>, value: Seq<char>) -> Seq<Finding> {
    found_if(
        !is_rfc3339(value),
        error_at("invalid_time"@, path, field + " is not RFC3339: "@ + debug_quoted(value)),
    )
}

pub fn doctor_check_time(report: &mut DoctorReport, path: &str, field: &str, value: &str)
    ensures
        final(report).log() == old(report).log() + time_findings(path@, field@, value@),
        final(report).same_but_log(old(report)),
{
    if parse_time(value).is_none() {
        let mut m = String::from_str(field);
        m.append(" is not RFC3339: ");
        m.append(debug_str(value).as_str());
        report.error(path, "invalid_time", m);
    }
    assert(final(report).log() =~= old(report).log() + time_findings(path@, field@, value@));
}

/// The warning about permission bits other than the expected ones; no
/// finding when the mode could not be read.
pub open spec fn mode_findings(path: Seq<char>, mode: Option<u32>, expected: u32, code: Seq<char>) -> Seq<Finding> {
    match mode {
        Some(m) => found_if(
            m % 512 != expected,
            warning_at(
                code,
                path,
                "mode is "@ + octal((m % 512) as nat) + "; expected "@ + octal(expected as nat),
            ),
        ),
        None => Seq::empty(),
    }
}

fn doctor_check_mode(report: &mut DoctorReport, path: &str, mode: Option<u32>, expected: u32, code: &str)
    ensures
        final(report).log() == old(report).log() + mode_findings(path@, mode, expected, code@),
        final(report).same_but_log(old(report)),
{
    if let Some(m) = mode {
        let actual = m & 0o777;
        assert(m & 0o777 == m % 512) by (bit_vector);
        if actual != expected {
            let mut t = String::from_str("mode is ");
            push_chars(&mut t, &octal_chars(actual));
            t.append("; expected ");
            push_chars(&mut t, &octal_chars(expected));
            report.warn(path, code, t);
        }
    }
    assert(final(report).log() =~= old(report).log() + mode_findings(path@, mode, expected, code@));
}

/// Directories are private to their owner: mode 700.
pub fn doctor_check_dir_mode(report: &mut DoctorReport, path: &str, mode: Option<u32>)
    ensures
        final(report).log() == old(report).log() + mode_findings(path@, mode, 0o700, "directory_mode"@),
        final(report).same_but_log(old(report)),
{
    doctor_check_mode(report, path, mode, 0o700, "directory_mode");
}

/// Files are private to their owner: mode 600.
pub fn doctor_check_file_mode(report: &mut DoctorReport, path: &str, mode: Option<u32>)
    ensures
        final(report).log() == old(report).log() + mode_findings(path@, mode, 0o600, "file_mode"@),
        final(report).same_but_log(old(report)),
{
    doctor_check_mode(report, path, mode, 0o600, "file_mode");
}

/// What is found at a path that should be a directory.
pub enum DirState {
    Missing,
    NotDirectory,
    /// A directory, with its permission bits when they could be read.
    Directory(Option<u32>),
}

pub open spec fn expected_dir_findings(path: Seq<char>, child: Seq<char>, state: DirState) -> Seq<Finding> {
    match state {
        DirState::Missing => seq![
            warning_at(
                "missing_directory"@,
                path,
                "expected bus directory "@ + child + "/ is missing"@,
            ),
        ],
        DirState::NotDirectory => seq![
            error_at("invalid_directory"@, path, "expected "@ + child + "/ to be a directory"@),
        ],
        DirState::Directory(mode) => mode_findings(path, mode, 0o700, "directory_mode"@),
    }
}

/// One of the bus's own top-level directories.
pub fn doctor_check_expected_dir(report: &mut DoctorReport, path: &str, child: &str, state: &DirState)
    ensures
        final(report).log() == old(report).log() + expected_dir_findings(path@, child@, *state),
        final(report).same_but_log(old(report)),
{
    match state {
        DirState::Missing => {
            let mut m = String::from_str("expected bus directory ");
            m.append(child);
            m.append("/ is missing");
            report.warn(path, "missing_directory", m);
        },
        DirState::NotDirectory => {
            let mut m = String::from_str("expected ");
            m.append(child);
            m.append("/ to be a directory");
            report.error(path, "invalid_directory", m);
        },
        DirState::Directory(mode) => {
            doctor_check_dir_mode(report, path, *mode);
        },
    }
    assert(final(report).log() =~= old(report).log() + expected_dir_findings(path@, child@, *state));
}

/// The warnings about a watcher's state file: its agent has no claim, or
/// its process is gone though it never recorded a shutdown.
pub open spec fn runtime_agent_findings(
    path: Seq<char>,
    claimed: Seq<Seq<char>>,
    agent_id: Seq<char>,
    pid: u32,
    shutdown_at: Option<Seq<char>>,
    pid_alive: bool,
) -> Seq<Finding> {
    found_if(
        !claimed.contains(agent_id),
        warning_at(
            "runtime_unclaimed_agent"@,
            path,
            "runtime state references unclaimed agent @"@ + agent_id,
        ),
    ) + found_if(
        shutdown_at is None && !pid_alive,
        warning_at("stale_runtime_state"@, path, "pid "@ + decimal(pid as nat) + " is no longer running"@),
    )
}

pub open spec fn opt_seq(o: Option<&str>) -> Option<Seq<char>> {
    match o {
        Some(s) => Some(s@),
        None => None,
    }
}

/// `pid_alive` is whether process `pid` was found running.
pub fn doctor_check_runtime_agent(
    report: &mut DoctorReport,
    path: &str,
    claimed: &[String],
    agent_id: &str,
    pid: u32,
    shutdown_at: Option<&str>,
    pid_alive: bool,
)
    ensures
        final(report).log() == old(report).log() + runtime_agent_findings(
            path@,
            views(claimed@),
            agent_id@,
            pid,
            opt_seq(shutdown_at),
            pid_alive,
        ),
        final(report).same_but_log(old(report)),
{
    if !contains_str(claimed, agent_id) {
        let mut m = String::from_str("runtime state references unclaimed agent @");
        m.append(agent_id);
        report.warn(path, "runtime_unclaimed_agent", m);
    }
    if shutdown_at.is_none() && !pid_alive {
        let mut m = String::from_str("pid ");
        push_chars(&mut m, &decimal_chars(pid as u64));
        m.append(" is no longer running");
        report.warn(path, "stale_runtime_state", m);
    }
    assert(final(report).log() =~= old(report).log() + runtime_agent_findings(
        path@,
        views(claimed@),
        agent_id@,
        pid,
        opt_seq(shutdown_at),
        pid_alive,
    ));
}

/// What reading a JSON record gave.
pub enum Loaded<T> {
    /// The file is not there.
    Missing,
    /// The file could not be read; the I/O error's text.
    Unreadable(String),
    /// The file is not a valid record; the parser's error text.
    Malformed(String),
    Parsed(T),
}

/// An unreadable file is an error, and so is one that does not parse; a
/// missing one is passed over in silence.
pub open spec fn read_findings<T>(path: Seq<char>, loaded: Loaded<T>) -> Seq<Finding> {
    match loaded {
        Loaded::Unreadable(e) => seq![error_at("read_failed"@, path, e@)],
        Loaded::Malformed(e) => seq![error_at("invalid_json"@, path, "failed to parse JSON: "@ + e@)],
        _ => Seq::empty(),
    }
}

pub open spec fn parsed<T>(loaded: Loaded<T>) -> Option<T> {
    match loaded {
        Loaded::Parsed(t) => Some(t),
        _ => None,
    }
}

/// Report what went wrong reading a record; the record when it parsed.
pub fn doctor_read_outcome<'a, T>(report: &mut DoctorReport, path: &str, loaded: &'a Loaded<T>) -> (r: Option<&'a T>)
    ensures
        final(report).log() == old(report).log() + read_findings(path@, *loaded),
        final(report).same_but_log(old(report)),
        r matches Some(t) ==> parsed(*loaded) == Some(*t),
        r is None ==> parsed(*loaded) is None,
{
    match loaded {
        Loaded::Missing => {
            assert(final(report).log() =~= old(report).log() + read_findings(path@, *loaded));
            None
        },
        Loaded::Unreadable(e) => {
            report.error(path, "read_failed", e.clone());
            assert(final(report).log() =~= old(report).log() + read_findings(path@, *loaded));
            None
        },
        Loaded::Malformed(e) => {
            let mut m = String::from_str("failed to parse JSON: ");
            m.append(e.as_str());
            report.error(path, "invalid_json", m);
            assert(final(report).log() =~= old(report).log() + read_findings(path@, *loaded));
            None
        },
        Loaded::Parsed(t) => {
            assert(final(report).log() =~= old(report).log() + read_findings(path@, *loaded));
            Some(t)
        },
    }
}

/// The last component of `path` that names a file, as `Path::file_name`
/// finds it among the first `n` of its `/`-separated parts: empty parts and
/// `.` are skipped, and a final `..` names none.
pub open spec fn last_named(parts: Seq<Seq<char>>, n: int) -> Option<Seq<char>>
    decreases n,
{
    if n <= 0 || n > parts.len() {
        None
    } else if parts[n - 1].len() == 0 || parts[n - 1] == "."@ {
        last_named(parts, n - 1)
    } else if parts[n - 1] == ".."@ {
        None
    } else {
        Some(parts[n - 1])
    }
}

/// The file name a path ends in, if it ends in one.
pub open spec fn path_file_name(path: Seq<char>) -> Option<Seq<char>> {
    last_named(split_on(path, '/'), split_on(path, '/').len() as int)
}

/// The position of the last `.` among the first `n` characters.
pub open spec fn last_dot(f: Seq<char>, n: int) -> Option<int>
    decreases n,
{
    if n <= 0 || n > f.len() {
        None
    } else if f[n - 1] == '.' {
        Some(n - 1)
    } else {
        last_dot(f, n - 1)
    }
}

/// A file name without its extension: everything before the last `.`,
/// unless that dot leads the name (a dot file keeps its whole name).
pub open spec fn stem_of_file(f: Seq<char>) -> Seq<char> {
    match last_dot(f, f.len() as int) {
        Some(i) => if i == 0 {
            f
        } else {
            f.take(i)
        },
        None => f,
    }
}

/// The stem of the file a path names, as `Path::file_stem` gives it; `None`
/// when the path names no file.
pub open spec fn file_stem(path: Seq<char>) -> Option<Seq<char>> {
    match path_file_name(path) {
        Some(f) => Some(stem_of_file(f)),
        None => None,
    }
}

/// The stem of a record's file name, empty when it has none.
pub open spec fn json_stem(name: Seq<char>) -> Seq<char> {
    match file_stem(name) {
        Some(s) => s,
        None => Seq::empty(),
    }
}

/// The file has a stem and it differs from the id the record holds.
pub open spec fn stem_mismatch(name: Seq<char>, id: Seq<char>) -> bool {
    match file_stem(name) {
        Some(s) => s != id,
        None => false,
    }
}

fn last_named_part(parts: &Vec<Vec<char>>) -> (r: Option<usize>)
    ensures
        match r {
            Some(i) => i < parts@.len() && last_named(char_views(parts@), parts@.len() as int) == Some(parts@[i as int]@),
            None => last_named(char_views(parts@), parts@.len() as int) is None,
        },
{
    let ghost ps = char_views(parts@);
    let dot = ['.'];
    let dots = ['.', '.'];
    proof {
        reveal_strlit(".");
        reveal_strlit("..");
        assert(dot@ =~= "."@);
        assert(dots@ =~= ".."@);
    }
    let mut k: usize = parts.len();
    while k > 0
        invariant
            k <= parts@.len(),
            ps == char_views(parts@),
            dot@ == "."@,
            dots@ == ".."@,
            last_named(ps, parts@.len() as int) == last_named(ps, k as int),
        decreases k,
    {
        let p = &parts[k - 1];
        assert(ps[k - 1] == p@);
        if p.len() == 0 || crate::text::chars_eq(p.as_slice(), &dot) {
            k = k - 1;
        } else if crate::text::chars_eq(p.as_slice(), &dots) {
            return None;
        } else {
            return Some(k - 1);
        }
    }
    None
}

/// The stem of `name` when it differs from `id`.
pub(crate) fn stem_differs(name: &str, id: &str) -> (r: Option<String>)
    ensures
        match r {
            Some(s) => stem_mismatch(name@, id@) && s@ == json_stem(name@),
            None => !stem_mismatch(name@, id@),
        },
{
    match file_stem_of(name) {
        Some(s) => if str_eq(s.as_str(), id) {
            None
        } else {
            Some(s)
        },
        None => None,
    }
}

pub open spec fn char_views(v: Seq<Vec<char>>) -> Seq<Seq<char>> {
    Seq::new(v.len(), |i: int| v[i]@)
}

/// The stem of the file a path names, as `Path::file_stem` gives it.
pub fn file_stem_of(path: &str) -> (r: Option<String>)
    ensures
        match r {
            Some(s) => file_stem(path@) == Some(s@),
            None => file_stem(path@) is None,
        },
{
    let cs = crate::text::chars_of(path);
    let parts = crate::text::split_chars(cs.as_slice(), '/');
    proof {
        assert(char_views(parts@) =~= crate::text::split_on(path@, '/'));
    }
    let i = match last_named_part(&parts) {
        Some(i) => i,
        None => {
            return None;
        },
    };
    let f = &parts[i];
    assert(char_views(parts@)[i as int] == f@);
    assert(path_file_name(path@) == Some(f@));
    let mut n: usize = f.len();
    while n > 0
        invariant
            n <= f@.len(),
            path_file_name(path@) == Some(f@),
            last_dot(f@, f@.len() as int) == last_dot(f@, n as int),
        decreases n,
    {
        if f[n - 1] == '.' {
            if n - 1 == 0 {
                return Some(crate::text::string_of(f.as_slice()));
            }
            let stem = vstd::slice::slice_subrange(f.as_slice(), 0, n - 1);
            proof {
                assert(stem@ =~= f@.take(n - 1));
            }
            return Some(crate::text::string_of(stem));
        }
        n = n - 1;
    }
    Some(crate::text::string_of(f.as_slice()))
}

/// The findings on the identity fields of an agent record `agents/<name>`.
pub open spec fn agent_identity_findings(path: Seq<char>, name: Seq<char>, agent: Agent) -> Seq<Finding> {
    let id = agent.id@;
    let expected = "@"@ + id;
    schema_findings(path, agent.v, "agent"@) + found_if(
        stem_mismatch(name, id),
        error_at(
            "agent_id_mismatch"@,
            path,
            "file name is "@ + debug_quoted(json_stem(name)) + " but payload id is "@ + debug_quoted(id),
        ),
    ) + found_if(
        !id_valid(id),
        error_at("invalid_agent_id"@, path, invalid_id_message("agent id"@, id)),
    ) + found_if(
        agent.mention@ != expected,
        warning_at(
            "agent_mention_mismatch"@,
            path,
            "mention is "@ + debug_quoted(agent.mention@) + "; expected "@ + debug_quoted(expected),
        ),
    )
}

/// The findings on the time, key and presence fields of an agent record.
pub open spec fn agent_state_findings(path: Seq<char>, agent: Agent) -> Seq<Finding> {
    time_findings(path, "last_seen_at"@, agent.last_seen_at@) + time_findings(
        path,
        "expires_at"@,
        agent.expires_at@,
    ) + time_findings(path, "state_updated_at"@, agent.state_updated_at@) + match agent.pubkey {
        Some(pk) => found_if(
            parsed_pubkey(pk@) is None,
            error_at("invalid_agent_pubkey"@, path, pubkey_error(pk@)),
        ),
        None => seq![
            warning_at(
                "agent_missing_pubkey"@,
                path,
                "claimed agent is not bound to a passport public key"@,
            ),
        ],
    } + found_if(
        !is_agent_state(agent.current_state@),
        error_at("invalid_agent_state"@, path, invalid_state_message(agent.current_state@)),
    )
}

/// The findings on one agent record `agents/<name>`.
pub open spec fn agent_findings(path: Seq<char>, name: Seq<char>, agent: Agent) -> Seq<Finding> {
    agent_identity_findings(path, name, agent) + agent_state_findings(path, agent)
}

/// An agent record whose public key text would make parsing panic.
pub open spec fn agent_key_panics(agent: Agent) -> bool {
    agent.pubkey matches Some(pk) && pubkey_panics(pk@)
}

fn check_agent_identity(report: &mut DoctorReport, path: &str, name: &str, agent: &Agent)
    ensures
        final(report).log() == old(report).log() + agent_identity_findings(path@, name@, *agent),
        final(report).same_but_log(old(report)),
{
    let ghost l0 = report.log();
    doctor_check_schema(report, path, agent.v, "agent");
    let ghost l1 = report.log();
    if let Some(stem) = stem_differs(name, agent.id.as_str()) {
        let mut m = String::from_str("file name is ");
        m.append(debug_str(stem.as_str()).as_str());
        m.append(" but payload id is ");
        m.append(debug_str(agent.id.as_str()).as_str());
        report.error(path, "agent_id_mismatch", m);
    }
    let ghost l2 = report.log();
    if let Err(e) = validate_id(agent.id.as_str(), "agent id") {
        report.error(path, "invalid_agent_id", e.message);
    }
    let ghost l3 = report.log();
    let mut expected = String::from_str("@");
    expected.append(agent.id.as_str());
    if !str_eq(agent.mention.as_str(), expected.as_str()) {
        let mut m = String::from_str("mention is ");
        m.append(debug_str(agent.mention.as_str()).as_str());
        m.append("; expected ");
        m.append(debug_str(expected.as_str()).as_str());
        report.warn(path, "agent_mention_mismatch", m);
    }
    proof {
        let a = *agent;
        let id = a.id@;
        let w1 = found_if(
            stem_mismatch(name@, id),
            error_at(
                "agent_id_mismatch"@,
                path@,
                "file name is "@ + debug_quoted(json_stem(name@)) + " but payload id is "@
                    + debug_quoted(id),
            ),
        );
        let w2 = found_if(!id_valid(id), error_at("invalid_agent_id"@, path@, invalid_id_message("agent id"@, id)));
        let w3 = found_if(
            a.mention@ != "@"@ + id,
            warning_at(
                "agent_mention_mismatch"@,
                path@,
                "mention is "@ + debug_quoted(a.mention@) + "; expected "@ + debug_quoted("@"@ + id),
            ),
        );
        assert(l2 =~= l1 + w1);
        assert(l3 =~= l2 + w2);
        assert(final(report).log() =~= l3 + w3);
        assert(final(report).log() =~= l0 + (schema_findings(path@, a.v, "agent"@) + w1 + w2 + w3));
    }
}

fn check_agent_state(report: &mut DoctorReport, path: &str, agent: &Agent)
    requires
        !agent_key_panics(*agent),
    ensures
        final(report).log() == old(report).log() + agent_state_findings(path@, *agent),
        final(report).same_but_log(old(report)),
{
    let ghost l0 = report.log();
    doctor_check_time(report, path, "last_seen_at", agent.last_seen_at.as_str());
    doctor_check_time(report, path, "expires_at", agent.expires_at.as_str());
    doctor_check_time(report, path, "state_updated_at", agent.state_updated_at.as_str());
    let ghost l1 = report.log();
    match &agent.pubkey {
        Some(pk) => {
            if let Err(e) = parse_pubkey(pk.as_str()) {
                report.error(path, "invalid_agent_pubkey", e.message);
            }
        },
        None => {
            report.warn(
                path,
                "agent_missing_pubkey",
                String::from_str("claimed agent is not bound to a passport public key"),
            );
        },
    }
    let ghost l2 = report.log();
    if let Err(e) = validate_agent_state(agent.current_state.as_str()) {
        report.error(path, "invalid_agent_state", e.message);
    }
    proof {
        let a = *agent;
        let k = match a.pubkey {
            Some(pk) => found_if(
                parsed_pubkey(pk@) is None,
                error_at("invalid_agent_pubkey"@, path@, pubkey_error(pk@)),
            ),
            None => seq![
                warning_at(
                    "agent_missing_pubkey"@,
                    path@,
                    "claimed agent is not bound to a passport public key"@,
                ),
            ],
        };
        assert(l2 =~= l1 + k);
        assert(final(report).log() =~= old(report).log() + agent_state_findings(path@, a));
    }
}

/// Check one parsed agent record, found at `path` under the file name
/// `name` (which has extension `json`).
pub fn doctor_check_agent(report: &mut DoctorReport, path: &str, name: &str, agent: &Agent)
    requires
        !agent_key_panics(*agent),
    ensures
        final(report).log() == old(report).log() + agent_findings(path@, name@, *agent),
        final(report).same_but_log(old(report)),
{
    check_agent_identity(report, path, name, agent);
    check_agent_state(report, path, agent);
    assert(final(report).log() =~= old(report).log() + agent_findings(path@, name@, *agent));
}

/// Whether `x` occurs among the first `j` strings of `v`.
pub fn occurs_before(v: &[String], j: usize, x: &str) -> (r: bool)
    requires
        j <= v@.len(),
    ensures
        r == views(v@).take(j as int).contains(x@),
{
    let mut k: usize = 0;
    while k < j
        invariant
            j <= v@.len(),
            k <= j,
            forall|i: int| 0 <= i < k ==> v@[i]@ != x@,
        decreases j - k,
    {
        if str_eq(v[k].as_str(), x) {
            assert(views(v@).take(j as int)[k as int] == x@);
            return true;
        }
        k = k + 1;
    }
    assert(!views(v@).take(j as int).contains(x@)) by {
        if views(v@).take(j as int).contains(x@) {
            let i = choose|i: int| 0 <= i < j && views(v@).take(j as int)[i] == x@;
            assert(v@[i]@ != x@);
        }
    }
    false
}

/// The findings on the participant at index `j`: a bad id, a repeat of an
/// earlier participant, or no agent claim.
pub open spec fn participant_findings(path: Seq<char>, ps: Seq<Seq<char>>, claimed: Seq<Seq<char>>, j: int) -> Seq<Finding> {
    let p = ps[j];
    found_if(!id_valid(p), error_at("invalid_participant"@, path, invalid_id_message("participant"@, p)))
        + found_if(
        ps.take(j).contains(p),
        error_at(
            "duplicate_participant"@,
            path,
            "participant "@ + debug_quoted(p) + " appears more than once"@,
        ),
    ) + found_if(
        !claimed.contains(p),
        warning_at("unclaimed_participant"@, path, "participant @"@ + p + " has no agent claim"@),
    )
}

/// The findings on the first `n` participants, in order.
pub open spec fn participants_findings(path: Seq<char>, ps: Seq<Seq<char>>, claimed: Seq<Seq<char>>, n: int) -> Seq<Finding>
    decreases n,
{
    if n <= 0 {
        Seq::empty()
    } else {
        participants_findings(path, ps, claimed, n - 1) + participant_findings(path, ps, claimed, n - 1)
    }
}

/// The findings on a conversation's identity: schema, directory name, id
/// grammar, and that it has participants at all.
pub open spec fn meta_head_findings(path: Seq<char>, dir_name: Seq<char>, meta: Meta) -> Seq<Finding> {
    let id = meta.id@;
    schema_findings(path, meta.v, "conversation meta"@) + found_if(
        dir_name != id,
        error_at(
            "conversation_id_mismatch"@,
            path,
            "directory is "@ + debug_quoted(dir_name) + " but payload id is "@ + debug_quoted(id),
        ),
    ) + found_if(
        !id_valid(id),
        error_at("invalid_conversation_id"@, path, invalid_id_message("conversation id"@, id)),
    ) + found_if(
        meta.participants@.len() == 0,
        error_at("empty_participants"@, path, "conversation has no participants"@),
    )
}

/// The findings on a conversation's rate limits.
pub open spec fn meta_rate_findings(path: Seq<char>, meta: Meta) -> Seq<Finding> {
    found_if(
        meta.rate.window_seconds == 0,
        error_at("invalid_rate"@, path, "rate.window_seconds must be positive"@),
    ) + found_if(
        meta.rate.max_messages_per_sender == 0,
        error_at("invalid_rate"@, path, "rate.max_messages_per_sender must be positive"@),
    ) + found_if(
        meta.rate.max_message_bytes == 0,
        error_at("invalid_rate"@, path, "rate.max_message_bytes must be positive"@),
    )
}

/// The findings on a conversation's privacy, times and rate limits.
pub open spec fn meta_tail_findings(path: Seq<char>, meta: Meta) -> Seq<Finding> {
    found_if(
        meta.channel && meta.private,
        error_at("invalid_privacy"@, path, "a channel cannot also be private"@),
    ) + time_findings(path, "created_at"@, meta.created_at@) + time_findings(
        path,
        "updated_at"@,
        meta.updated_at@,
    ) + meta_rate_findings(path, meta)
}

/// The findings on a conversation's `meta.json` at `path`, in the
/// directory `dir_name`, given the agents that hold a claim.
pub open spec fn meta_findings(path: Seq<char>, dir_name: Seq<char>, claimed: Seq<Seq<char>>, meta: Meta) -> Seq<Finding> {
    meta_head_findings(path, dir_name, meta) + participants_findings(
        path,
        views(meta.participants@),
        claimed,
        meta.participants@.len() as int,
    ) + meta_tail_findings(path, meta)
}

fn check_meta_head(report: &mut DoctorReport, path: &str, dir_name: &str, meta: &Meta)
    ensures
        final(report).log() == old(report).log() + meta_head_findings(path@, dir_name@, *meta),
        final(report).same_but_log(old(report)),
{
    let ghost l0 = report.log();
    doctor_check_schema(report, path, meta.v, "conversation meta");
    let ghost l1 = report.log();
    if !str_eq(dir_name, meta.id.as_str()) {
        let mut m = String::from_str("directory is ");
        m.append(debug_str(dir_name).as_str());
        m.append(" but payload id is ");
        m.append(debug_str(meta.id.as_str()).as_str());
        report.error(path, "conversation_id_mismatch", m);
    }
    let ghost l2 = report.log();
    if let Err(e) = validate_id(meta.id.as_str(), "conversation id") {
        report.error(path, "invalid_conversation_id", e.message);
    }
    let ghost l3 = report.log();
    if meta.participants.len() == 0 {
        report.error(path, "empty_participants", String::from_str("conversation has no participants"));
    }
    proof {
        let m = *meta;
        let id = m.id@;
        let w1 = found_if(
            dir_name@ != id,
            error_at(
                "conversation_id_mismatch"@,
                path@,
                "directory is "@ + debug_quoted(dir_name@) + " but payload id is "@ + debug_quoted(id),
            ),
        );
        let w2 = found_if(
            !id_valid(id),
            error_at("invalid_conversation_id"@, path@, invalid_id_message("conversation id"@, id)),
        );
        let w3 = found_if(
            m.participants@.len() == 0,
            error_at("empty_participants"@, path@, "conversation has no participants"@),
        );
        assert(l2 =~= l1 + w1);
        assert(l3 =~= l2 + w2);
        assert(final(report).log() =~= l3 + w3);
        assert(final(report).log() =~= l0 + (schema_findings(path@, m.v, "conversation meta"@) + w1 + w2 + w3));
    }
}

fn check_participant(report: &mut DoctorReport, path: &str, ps: &Vec<String>, claimed: &[String], j: usize)
    requires
        j < ps@.len(),
    ensures
        final(report).log() == old(report).log() + participant_findings(
            path@,
            views(ps@),
            views(claimed@),
            j as int,
        ),
        final(report).same_but_log(old(report)),
{
    let p = ps[j].as_str();
    let ghost l0 = report.log();
    if let Err(e) = validate_id(p, "participant") {
        report.error(path, "invalid_participant", e.message);
    }
    let ghost l1 = report.log();
    if occurs_before(ps.as_slice(), j, p) {
        let mut m = String::from_str("participant ");
        m.append(debug_str(p).as_str());
        m.append(" appears more than once");
        report.error(path, "duplicate_participant", m);
    }
    let ghost l2 = report.log();
    if !contains_str(claimed, p) {
        let mut m = String::from_str("participant @");
        m.append(p);
        m.append(" has no agent claim");
        report.warn(path, "unclaimed_participant", m);
    }
    proof {
        let pv = views(ps@)[j as int];
        assert(pv == p@);
        let w0 = found_if(!id_valid(pv), error_at("invalid_participant"@, path@, invalid_id_message("participant"@, pv)));
        let w1 = found_if(
            views(ps@).take(j as int).contains(pv),
            error_at(
                "duplicate_participant"@,
                path@,
                "participant "@ + debug_quoted(pv) + " appears more than once"@,
            ),
        );
        assert(l1 =~= l0 + w0);
        assert(l2 =~= l1 + w1);
        assert(final(report).log() =~= old(report).log() + participant_findings(
            path@,
            views(ps@),
            views(claimed@),
            j as int,
        ));
    }
}

fn check_meta_rate(report: &mut DoctorReport, path: &str, meta: &Meta)
    ensures
        final(report).log() == old(report).log() + meta_rate_findings(path@, *meta),
        final(report).same_but_log(old(report)),
{
    let ghost l0 = report.log();
    if meta.rate.window_seconds == 0 {
        report.error(path, "invalid_rate", String::from_str("rate.window_seconds must be positive"));
    }
    let ghost l1 = report.log();
    if meta.rate.max_messages_per_sender == 0 {
        report.error(path, "invalid_rate", String::from_str("rate.max_messages_per_sender must be positive"));
    }
    let ghost l2 = report.log();
    if meta.rate.max_message_bytes == 0 {
        report.error(path, "invalid_rate", String::from_str("rate.max_message_bytes must be positive"));
    }
    proof {
        let m = *meta;
        let w0 = found_if(m.rate.window_seconds == 0, error_at("invalid_rate"@, path@, "rate.window_seconds must be positive"@));
        let w1 = found_if(
            m.rate.max_messages_per_sender == 0,
            error_at("invalid_rate"@, path@, "rate.max_messages_per_sender must be positive"@),
        );
        let w2 = found_if(
            m.rate.max_message_bytes == 0,
            error_at("invalid_rate"@, path@, "rate.max_message_bytes must be positive"@),
        );
        assert(l1 =~= l0 + w0);
        assert(l2 =~= l1 + w1);
        assert(final(report).log() =~= l2 + w2);
        assert(final(report).log() =~= l0 + (w0 + w1 + w2));
    }
}

fn check_meta_tail(report: &mut DoctorReport, path: &str, meta: &Meta)
    ensures
        final(report).log() == old(report).log() + meta_tail_findings(path@, *meta),
        final(report).same_but_log(old(report)),
{
    let ghost l0 = report.log();
    if meta.channel && meta.private {
        report.error(path, "invalid_privacy", String::from_str("a channel cannot also be private"));
    }
    let ghost l1 = report.log();
    doctor_check_time(report, path, "created_at", meta.created_at.as_str());
    let ghost l2 = report.log();
    doctor_check_time(report, path, "updated_at", meta.updated_at.as_str());
    let ghost l3 = report.log();
    check_meta_rate(report, path, meta);
    proof {
        let m = *meta;
        let w0 = found_if(m.channel && m.private, error_at("invalid_privacy"@, path@, "a channel cannot also be private"@));
        assert(l1 =~= l0 + w0);
        let t1 = time_findings(path@, "created_at"@, m.created_at@);
        let t2 = time_findings(path@, "updated_at"@, m.updated_at@);
        assert(final(report).log() =~= l0 + (w0 + t1 + t2 + meta_rate_findings(path@, m)));
    }
}

/// Check a conversation's parsed `meta.json` at `path`; `dir_name` is the
/// name of the conversation's directory and `claimed` the agents that hold
/// a claim.
pub fn doctor_check_meta(report: &mut DoctorReport, path: &str, dir_name: &str, claimed: &[String], meta: &Meta)
    ensures
        final(report).log() == old(report).log() + meta_findings(path@, dir_name@, views(claimed@), *meta),
        final(report).same_but_log(old(report)),
{
    check_meta_head(report, path, dir_name, meta);
    let ghost l1 = report.log();
    let n = meta.participants.len();
    let mut j: usize = 0;
    while j < n
        invariant
            n == meta.participants@.len(),
            j <= n,
            report.log() == l1 + participants_findings(path@, views(meta.participants@), views(claimed@), j as int),
            report.same_but_log(old(report)),
        decreases n - j,
    {
        check_participant(report, path, &meta.participants, claimed, j);
        proof {
            assert(report.log() =~= l1 + participants_findings(
                path@,
                views(meta.participants@),
                views(claimed@),
                j + 1,
            ));
        }
        j = j + 1;
    }
    check_meta_tail(report, path, meta);
    assert(final(report).log() =~= old(report).log() + meta_findings(path@, dir_name@, views(claimed@), *meta));
}

/// The findings on a parsed lock owner record at `owner_path`, for the lock
/// directory at `lock_path`, at the instant `now`.
pub open spec fn lock_owner_findings(lock_path: Seq<char>, owner_path: Seq<char>, owner: LockOwner, now: (i64, u32)) -> Seq<Finding> {
    schema_findings(owner_path, owner.v, "lock owner"@) + found_if(
        owner.token@.len() == 0,
        error_at("empty_lock_token"@, owner_path, "lock token is empty"@),
    ) + time_findings(owner_path, "acquired_at"@, owner.acquired_at@) + match rfc3339_instant(
        owner.expires_at@,
    ) {
        Some(t) => found_if(instant_lt(t, now), warning_at("stale_lock"@, lock_path, "lock owner is expired"@)),
        None => seq![
            error_at(
                "invalid_time"@,
                owner_path,
                "expires_at is not RFC3339: "@ + debug_quoted(owner.expires_at@),
            ),
        ],
    }
}

pub fn doctor_check_lock_owner(
    report: &mut DoctorReport,
    lock_path: &str,
    owner_path: &str,
    owner: &LockOwner,
    now: (i64, u32),
)
    ensures
        final(report).log() == old(report).log() + lock_owner_findings(lock_path@, owner_path@, *owner, now),
        final(report).same_but_log(old(report)),
{
    let ghost l0 = report.log();
    doctor_check_schema(report, owner_path, owner.v, "lock owner");
    let ghost l1 = report.log();
    if crate::text::chars_of(owner.token.as_str()).len() == 0 {
        report.error(owner_path, "empty_lock_token", String::from_str("lock token is empty"));
    }
    let ghost l2 = report.log();
    doctor_check_time(report, owner_path, "acquired_at", owner.acquired_at.as_str());
    let ghost l3 = report.log();
    match parse_time(owner.expires_at.as_str()) {
        Some(t) => {
            if instant_before(t, now) {
                report.warn(lock_path, "stale_lock", String::from_str("lock owner is expired"));
            }
        },
        None => {
            let mut m = String::from_str("expires_at is not RFC3339: ");
            m.append(debug_str(owner.expires_at.as_str()).as_str());
            report.error(owner_path, "invalid_time", m);
        },
    }
    proof {
        let o = *owner;
        let w1 = found_if(o.token@.len() == 0, error_at("empty_lock_token"@, owner_path@, "lock token is empty"@));
        assert(l2 =~= l1 + w1);
        assert(final(report).log() =~= old(report).log() + lock_owner_findings(lock_path@, owner_path@, o, now));
    }
}

} // verus!
