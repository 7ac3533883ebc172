//! Reading a conversation's history back: the orders and filters that
//! `show`, `search`, `inbox`, `wait` and `watch` apply to the messages an
//! agent may see, the `--since` cutoff, and when a message is old enough to
//! be archived.

use vstd::prelude::*;
use crate::bus::{is_state_change_message, message_is_unread, unread};
use crate::display::{contains_seq, lowercase, search_text, unicode_lowercase, message_matches_pattern};
use crate::error::{ErrorCode, RaftError};
use crate::hex::utf8_len;
use crate::http::{all_digits, digits_value, lemma_digits_monotone};
use crate::listing::{last_n, UiSourceMessage};
use crate::order::{lemma_insert_by_at, sort_by};
use crate::records::{Message, WatchState};
use crate::util::schema_v1;
use crate::suggest::{seq_less, str_less};
use crate::text::{chars_of, debug_quoted, debug_str, trim, trim_chars};
use crate::time::{instant_lt, parse_time, rfc3339_instant};

verus! {

broadcast use vstd::std_specs::vec::group_vec_axioms, vstd::seq::group_seq_axioms;

/// Messages ordered by id.
pub open spec fn by_id() -> spec_fn(Message, Message) -> bool {
    |a: Message, b: Message| seq_less(a.id@, b.id@)
}

/// Messages in id order; messages with equal ids keep their order.
pub fn sort_messages_by_id(rows: Vec<Message>) -> (r: Vec<Message>)
    ensures
        r@ == sort_by(rows@, by_id()),
{
    let ghost orig = rows@;
    let ghost less = by_id();
    let ghost mut k: int = 0;
    let mut rest = rows;
    let mut sorted: Vec<Message> = Vec::new();
    while rest.len() > 0
        invariant
            less == by_id(),
            0 <= k <= orig.len(),
            rest@ == orig.skip(k),
            sorted@ == sort_by(orig.take(k), less),
        decreases rest@.len(),
    {
        let x = rest.remove(0);
        let mut p: usize = 0;
        while p < sorted.len() && !str_less(x.id.as_str(), sorted[p].id.as_str())
            invariant
                p <= sorted@.len(),
                less == by_id(),
                forall|j: int| 0 <= j < p ==> !less(x, #[trigger] sorted@[j]),
            decreases sorted@.len() - p,
        {
            p = p + 1;
        }
        proof {
            lemma_insert_by_at(sorted@, x, less, p as int);
            assert(x == orig[k]);
            assert(orig.take(k + 1).drop_last() =~= orig.take(k));
            assert(orig.take(k + 1).last() == x);
            assert(rest@ =~= orig.skip(k + 1));
        }
        let ghost before = sorted@;
        let ghost xv = x;
        sorted.insert(p, x);
        proof {
            assert(sorted@ =~= before.take(p as int) + seq![xv] + before.skip(p as int));
            k = k + 1;
        }
    }
    proof {
        assert(orig.take(orig.len() as int) =~= orig);
    }
    sorted
}

/// The last `limit` messages (all of them when there are fewer).
pub fn keep_last(rows: Vec<Message>, limit: usize) -> (r: Vec<Message>)
    ensures
        r@ == last_n(rows@, limit as nat),
{
    let mut rows = rows;
    let n = rows.len();
    if n > limit {
        let tail = rows.split_off(n - limit);
        return tail;
    }
    rows
}

/// What `show` lists: the newest `limit` messages by id.
pub fn newest_messages(rows: Vec<Message>, limit: usize) -> (r: Vec<Message>)
    ensures
        r@ == last_n(sort_by(rows@, by_id()), limit as nat),
{
    let sorted = sort_messages_by_id(rows);
    keep_last(sorted, limit)
}

/// The rows among the first `n` that `agent` has not read yet.
pub open spec fn unread_rows(rows: Seq<UiSourceMessage>, agent: Seq<char>, n: int) -> Seq<UiSourceMessage>
    decreases n,
{
    if n <= 0 {
        Seq::empty()
    } else {
        unread_rows(rows, agent, n - 1) + if unread(rows[n - 1].message, agent, rows[n - 1].receipt_exists) {
            seq![rows[n - 1]]
        } else {
            Seq::empty()
        }
    }
}

/// What `inbox` lists: the visible rows in the order they were read, only
/// the unread ones when asked, then the last `limit` of them.
pub open spec fn inbox_view(rows: Seq<UiSourceMessage>, agent: Seq<char>, unread_only: bool, limit: nat) -> Seq<UiSourceMessage> {
    last_n(if unread_only { unread_rows(rows, agent, rows.len() as int) } else { rows }, limit)
}

/// The rows `inbox` prints for `agent`.
pub fn inbox_rows(rows: Vec<UiSourceMessage>, agent: &str, unread_only: bool, limit: usize) -> (r: Vec<UiSourceMessage>)
    ensures
        r@ == inbox_view(rows@, agent@, unread_only, limit as nat),
{
    let ghost orig = rows@;
    let mut kept: Vec<UiSourceMessage> = Vec::new();
    if unread_only {
        let ghost mut k: int = 0;
        let mut rest = rows;
        while rest.len() > 0
            invariant
                0 <= k <= orig.len(),
                rest@ == orig.skip(k),
                kept@ == unread_rows(orig, agent@, k),
            decreases rest@.len(),
        {
            let x = rest.remove(0);
            proof {
                assert(x == orig[k]);
                assert(rest@ =~= orig.skip(k + 1));
            }
            if message_is_unread(&x.message, agent, x.receipt_exists) {
                kept.push(x);
            }
            proof {
                k = k + 1;
            }
        }
    } else {
        kept = rows;
    }
    let n = kept.len();
    if n > limit {
        let tail = kept.split_off(n - limit);
        return tail;
    }
    kept
}

/// The first row `agent` has not read, which `wait` reports.
pub fn first_unread(rows: &Vec<UiSourceMessage>, agent: &str) -> (r: Option<usize>)
    ensures
        match r {
            Some(i) => i < rows@.len() && unread(rows@[i as int].message, agent@, rows@[i as int].receipt_exists)
                && forall|j: int| 0 <= j < i ==> !unread(#[trigger] rows@[j].message, agent@, rows@[j].receipt_exists),
            None => forall|j: int| 0 <= j < rows@.len() ==> !unread(#[trigger] rows@[j].message, agent@, rows@[j].receipt_exists),
        },
{
    let mut i: usize = 0;
    while i < rows.len()
        invariant
            i <= rows@.len(),
            forall|j: int| 0 <= j < i ==> !unread(#[trigger] rows@[j].message, agent@, rows@[j].receipt_exists),
        decreases rows@.len() - i,
    {
        if message_is_unread(&rows[i].message, agent, rows[i].receipt_exists) {
            return Some(i);
        }
        i = i + 1;
    }
    None
}

/// Whether a message lies past an id bound (no bound: every message does).
pub open spec fn past_bound(m: Message, bound: Option<Seq<char>>) -> bool {
    match bound {
        Some(last) => seq_less(last, m.id@),
        None => true,
    }
}

/// Whether `watch` reports a message. An explicit `since` is a hard floor for
/// every message. The stored `cursor` is a soft hint: under auto-read, read
/// receipts decide what is new, so the cursor holds back only state-change
/// notices; without auto-read it holds back every message. What is left is
/// reported when it is unread, or a state change when those are asked for.
pub open spec fn watch_emits(
    m: Message,
    since: Option<Seq<char>>,
    cursor: Option<Seq<char>>,
    agent: Seq<char>,
    receipt_exists: bool,
    state_changes: bool,
    auto_read: bool,
) -> bool {
    let state_change = m.kind@ == "system"@ && m.subject@ == "state changed"@;
    &&& past_bound(m, since)
    &&& (auto_read && !state_change) || past_bound(m, cursor)
    &&& unread(m, agent, receipt_exists) || (state_changes && state_change)
}

fn past_id(message: &Message, bound: Option<&str>) -> (r: bool)
    ensures
        r == past_bound(*message, match bound {
            Some(s) => Some(s@),
            None => None,
        }),
{
    match bound {
        Some(last) => str_less(last, message.id.as_str()),
        None => true,
    }
}

/// The resume cursor once `message` has been reported: it only moves
/// forward, so a late message with a lower id does not pull it back.
pub fn advanced_cursor(cursor: Option<String>, message: &Message) -> (r: Option<String>)
    ensures
        match cursor {
            Some(c) => if seq_less(c@, message.id@) {
                r matches Some(n) && n@ == message.id@
            } else {
                r matches Some(n) && n@ == c@
            },
            None => r matches Some(n) && n@ == message.id@,
        },
{
    match cursor {
        Some(c) => if str_less(c.as_str(), message.id.as_str()) {
            Some(message.id.clone())
        } else {
            Some(c)
        },
        None => Some(message.id.clone()),
    }
}

/// Decide whether `watch` reports `message`, given the explicit `--since`
/// floor, the stored resume cursor, and whether watch marks messages read.
pub fn watch_should_emit(
    message: &Message,
    since: Option<&str>,
    cursor: Option<&str>,
    agent: &str,
    receipt_exists: bool,
    state_changes: bool,
    auto_read: bool,
) -> (r: bool)
    ensures
        r == watch_emits(*message, match since {
            Some(s) => Some(s@),
            None => None,
        }, match cursor {
            Some(s) => Some(s@),
            None => None,
        }, agent@, receipt_exists, state_changes, auto_read),
{
    let state_change = is_state_change_message(message);
    past_id(message, since) && ((auto_read && !state_change) || past_id(message, cursor)) && (message_is_unread(
        message,
        agent,
        receipt_exists,
    ) || (state_changes && state_change))
}

/// Whether a message's creation time is at or after the search cutoff. A
/// message whose time does not parse is left out once a cutoff is given.
pub open spec fn since_ok(m: Message, cutoff: Option<(i64, u32)>) -> bool {
    match cutoff {
        None => true,
        Some(c) => match rfc3339_instant(m.created_at@) {
            Some(t) => !instant_lt(t, c),
            None => false,
        },
    }
}

/// Whether a message is a search hit for the lowercased `pattern`.
pub open spec fn search_hit(m: Message, pattern: Seq<char>, cutoff: Option<(i64, u32)>) -> bool {
    since_ok(m, cutoff) && contains_seq(unicode_lowercase(search_text(m)), pattern)
}

/// The hits among the first `n` rows, in their order.
pub open spec fn search_hits(rows: Seq<Message>, pattern: Seq<char>, cutoff: Option<(i64, u32)>, n: int) -> Seq<Message>
    decreases n,
{
    if n <= 0 {
        Seq::empty()
    } else {
        search_hits(rows, pattern, cutoff, n - 1) + if search_hit(rows[n - 1], pattern, cutoff) {
            seq![rows[n - 1]]
        } else {
            Seq::empty()
        }
    }
}

/// A search pattern must hold something besides whitespace; it is matched
/// lowercased.
pub fn search_pattern(pattern: &str) -> (r: Result<String, RaftError>)
    ensures
        match r {
            Ok(p) => trim(pattern@).len() > 0 && p@ == unicode_lowercase(pattern@),
            Err(e) => trim(pattern@).len() == 0 && e.code == ErrorCode::Error && e.message@
                == "search pattern cannot be empty"@,
        },
{
    let chars = chars_of(pattern);
    let t = trim_chars(chars.as_slice());
    if t.len() == 0 {
        return Err(RaftError::coded(ErrorCode::Error, String::from_str("search pattern cannot be empty")));
    }
    Ok(lowercase(pattern))
}

fn is_search_hit(m: &Message, pattern: &str, cutoff: Option<(i64, u32)>) -> (r: bool)
    ensures
        r == search_hit(*m, pattern@, cutoff),
{
    let recent = match cutoff {
        None => true,
        Some(c) => match parse_time(m.created_at.as_str()) {
            Some(t) => !(t.0 < c.0 || (t.0 == c.0 && t.1 < c.1)),
            None => false,
        },
    };
    recent && message_matches_pattern(m, pattern)
}

/// What `search` lists: the hits for the lowercased `pattern` at or after
/// `cutoff`, in id order, the newest `limit` of them.
pub fn search_results(rows: Vec<Message>, pattern: &str, cutoff: Option<(i64, u32)>, limit: usize) -> (r: Vec<Message>)
    ensures
        r@ == last_n(sort_by(search_hits(rows@, pattern@, cutoff, rows@.len() as int), by_id()), limit as nat),
{
    let ghost orig = rows@;
    let ghost mut k: int = 0;
    let mut rest = rows;
    let mut hits: Vec<Message> = Vec::new();
    while rest.len() > 0
        invariant
            0 <= k <= orig.len(),
            rest@ == orig.skip(k),
            hits@ == search_hits(orig, pattern@, cutoff, k),
        decreases rest@.len(),
    {
        let x = rest.remove(0);
        proof {
            assert(x == orig[k]);
            assert(rest@ =~= orig.skip(k + 1));
        }
        if is_search_hit(&x, pattern, cutoff) {
            hits.push(x);
        }
        proof {
            k = k + 1;
        }
    }
    newest_messages(hits, limit)
}

/// The number `i64::from_str` reads: an optional sign, then one or more
/// ASCII digits, within the range of `i64`.
pub open spec fn signed_parse(s: Seq<char>) -> Option<int> {
    let signed = s.len() > 0 && (s[0] == '+' || s[0] == '-');
    let d = if signed { s.drop_first() } else { s };
    let v: int = if s.len() > 0 && s[0] == '-' { -(digits_value(d) as int) } else { digits_value(d) as int };
    if d.len() > 0 && all_digits(d) && i64::MIN <= v <= i64::MAX { Some(v) } else { None }
}

/// `i64::from_str` on a run of characters.
pub fn parse_i64(s: &[char]) -> (r: Option<i64>)
    ensures
        match r {
            Some(v) => signed_parse(s@) == Some(v as int),
            None => signed_parse(s@) is None,
        },
{
    let neg = s.len() > 0 && s[0] == '-';
    let start: usize = if s.len() > 0 && (s[0] == '+' || s[0] == '-') { 1 } else { 0 };
    let ghost d = s@.skip(start as int);
    proof {
        if start == 1 {
            assert(d =~= s@.drop_first());
        } else {
            assert(d =~= s@);
        }
    }
    if start >= s.len() {
        return None;
    }
    let mut v: u64 = 0;
    let mut i: usize = start;
    while i < s.len()
        invariant
            start <= i <= s@.len(),
            d == s@.skip(start as int),
            d == (if s@.len() > 0 && (s@[0] == '+' || s@[0] == '-') { s@.drop_first() } else { s@ }),
            d.len() > 0,
            forall|j: int| 0 <= j < i - start ==> '0' <= #[trigger] d[j] && d[j] <= '9',
            v == digits_value(d.take(i - start)),
            v <= 9223372036854775808u64,
        decreases s@.len() - i,
    {
        let c = s[i];
        let ghost k = i - start;
        proof {
            assert(d[k] == c);
            assert(d.take(k + 1).drop_last() =~= d.take(k));
            assert(d.take(k + 1).last() == c);
        }
        if c < '0' || c > '9' {
            proof {
                assert(!('0' <= d[k] && d[k] <= '9'));
                assert(!all_digits(d));
            }
            return None;
        }
        let digit = (c as u32 - '0' as u32) as u64;
        if v > 922337203685477580u64 || (v == 922337203685477580u64 && digit > 8) {
            proof {
                assert(digits_value(d.take(k + 1)) == v * 10 + digit);
                if all_digits(d) {
                    lemma_digits_monotone(d, k + 1);
                    assert(digits_value(d) > 9223372036854775808);
                }
            }
            return None;
        }
        v = v * 10 + digit;
        i = i + 1;
    }
    assert(d.take(d.len() as int) =~= d);
    if neg {
        if v == 9223372036854775808u64 {
            Some(i64::MIN)
        } else {
            Some(-(v as i64))
        }
    } else if v > 9223372036854775807u64 {
        None
    } else {
        Some(v as i64)
    }
}

/// Seconds per unit of a `--since` duration suffix.
pub open spec fn since_unit(c: char) -> Option<int> {
    if c == 's' {
        Some(1)
    } else if c == 'm' {
        Some(60)
    } else if c == 'h' {
        Some(3600)
    } else if c == 'd' {
        Some(86400)
    } else {
        None
    }
}

/// How a `--since` text reads as a duration: a number and a one-byte unit.
pub enum SinceSpan {
    /// The last character is not a single byte.
    Malformed,
    /// What precedes the unit is not an `i64`.
    NotNumeric,
    Negative,
    BadUnit,
    /// The duration, in seconds.
    Span(int),
}

pub open spec fn since_span(value: Seq<char>) -> SinceSpan {
    if value.len() > 0 && utf8_len(value.last()) != 1 {
        SinceSpan::Malformed
    } else {
        let number = if value.len() == 0 { value } else { value.drop_last() };
        match signed_parse(number) {
            None => SinceSpan::NotNumeric,
            Some(a) => if a < 0 {
                SinceSpan::Negative
            } else {
                match since_unit(value.last()) {
                    None => SinceSpan::BadUnit,
                    Some(u) => SinceSpan::Span(a * u),
                }
            },
        }
    }
}

/// Seconds since the epoch of the earliest and the latest instant a UTC
/// date-time can hold (years -262143 and 262142).
pub open spec fn earliest_second() -> int {
    -8334601315200
}

pub open spec fn latest_second() -> int {
    8210266876799
}

/// Whether `now` moved back by `span` seconds stays a date-time: the span
/// fits a `TimeDelta` (at most `i64::MAX` milliseconds either way) and the
/// result stays within the years a date-time holds.
pub open spec fn shift_fits(now: (i64, u32), span: int) -> bool {
    &&& -9223372036854775 <= span <= 9223372036854775
    &&& earliest_second() <= now.0 - span <= latest_second()
}

/// A `--since` duration that moves `now` out of range.
pub open spec fn since_overflows(value: Seq<char>, now: (i64, u32)) -> bool {
    since_span(value) matches SinceSpan::Span(s) && !shift_fits(now, s)
}

pub open spec fn since_message(value: Seq<char>, tail: Seq<char>) -> Seq<char> {
    "invalid --since "@ + debug_quoted(value) + tail
}

/// What `--since` selects: an RFC 3339 instant as given, or `now` moved back
/// by a duration such as `30m`, `2h` or `7d`; otherwise the error message.
pub open spec fn since_outcome(value: Seq<char>, now: (i64, u32)) -> Result<(i64, u32), Seq<char>> {
    match rfc3339_instant(value) {
        Some(t) => Ok(t),
        None => match since_span(value) {
            SinceSpan::Malformed => Err(since_message(value, "; use RFC3339 or a duration like 30m, 2h, 7d"@)),
            SinceSpan::NotNumeric => Err(since_message(value, "; duration must be numeric"@)),
            SinceSpan::Negative => Err(since_message(value, "; duration must be non-negative"@)),
            SinceSpan::BadUnit => Err(since_message(value, "; use s, m, h, or d duration suffix"@)),
            SinceSpan::Span(s) => Ok(((now.0 - s) as i64, now.1)),
        },
    }
}

fn since_error(value: &str, tail: &str) -> (r: RaftError)
    ensures
        r.code == ErrorCode::Error,
        r.message@ == since_message(value@, tail@),
{
    let mut m = String::from_str("invalid --since ");
    let q = debug_str(value);
    m.append(q.as_str());
    m.append(tail);
    RaftError::coded(ErrorCode::Error, m)
}

/// Whether a `--since` duration would move `now` out of range.
pub fn since_would_overflow(value: &str, now: (i64, u32)) -> (r: bool)
    ensures
        r == since_overflows(value@, now),
{
    let chars = chars_of(value);
    let n = chars.len();
    if n == 0 || (chars[n - 1] as u32) >= 128 {
        return false;
    }
    let mut number = chars;
    let c = number.pop().unwrap();
    proof {
        assert(number@ =~= value@.drop_last());
    }
    let amount = match parse_i64(number.as_slice()) {
        Some(a) => a,
        None => {
            return false;
        },
    };
    if amount < 0 {
        return false;
    }
    let unit: i64 = if c == 's' {
        1
    } else if c == 'm' {
        60
    } else if c == 'h' {
        3600
    } else if c == 'd' {
        86400
    } else {
        return false;
    };
    if amount > 9223372036854775i64 / unit {
        proof {
            assert(amount * unit > 9223372036854775) by (nonlinear_arith)
                requires
                    amount > 9223372036854775i64 / unit,
                    unit > 0,
            ;
        }
        return true;
    }
    proof {
        assert(amount * unit <= 9223372036854775) by (nonlinear_arith)
            requires
                amount <= 9223372036854775i64 / unit,
                unit > 0,
        ;
    }
    let span = amount * unit;
    let back = now.0 as i128 - span as i128;
    back < -8334601315200i128 || back > 8210266876799i128
}

/// The cutoff a `--since` text selects, relative to `now`.
pub fn since_cutoff(value: &str, now: (i64, u32)) -> (r: Result<(i64, u32), RaftError>)
    requires
        !since_overflows(value@, now),
    ensures
        match since_outcome(value@, now) {
            Ok(t) => r matches Ok(u) && u == t,
            Err(m) => r matches Err(e) && e.code == ErrorCode::Error && e.message@ == m,
        },
{
    if let Some(t) = parse_time(value) {
        return Ok(t);
    }
    let chars = chars_of(value);
    let n = chars.len();
    if n > 0 && (chars[n - 1] as u32) >= 128 {
        return Err(since_error(value, "; use RFC3339 or a duration like 30m, 2h, 7d"));
    }
    let mut number = chars;
    let last = number.pop();
    proof {
        if n > 0 {
            assert(number@ =~= value@.drop_last());
        } else {
            assert(number@ =~= value@);
        }
    }
    let amount = match parse_i64(number.as_slice()) {
        Some(a) => a,
        None => {
            return Err(since_error(value, "; duration must be numeric"));
        },
    };
    if amount < 0 {
        return Err(since_error(value, "; duration must be non-negative"));
    }
    let c = last.unwrap();
    let unit: i64 = if c == 's' {
        1
    } else if c == 'm' {
        60
    } else if c == 'h' {
        3600
    } else if c == 'd' {
        86400
    } else {
        return Err(since_error(value, "; use s, m, h, or d duration suffix"));
    };
    let span = amount * unit;
    Ok((now.0 - span, now.1))
}

/// Whether a message is old enough to archive: created before `now` moved
/// back by the retention period. A message whose time does not parse is
/// kept. The retention is read as a signed day count, as the stored value
/// is cast to `i64`.
pub open spec fn retention_span(retention_days: u64) -> int {
    let d: int = if retention_days > i64::MAX { retention_days - 18446744073709551616 } else { retention_days as int };
    d * 86400
}

pub open spec fn archivable(created_at: Seq<char>, now: (i64, u32), retention_days: u64) -> bool {
    match rfc3339_instant(created_at) {
        Some(t) => instant_lt(t, ((now.0 - retention_span(retention_days)) as i64, now.1)),
        None => false,
    }
}

/// Whether the retention period moves `now` out of range.
pub fn retention_would_overflow(now: (i64, u32), retention_days: u64) -> (r: bool)
    ensures
        r == !shift_fits(now, retention_span(retention_days)),
{
    let d: i128 = if retention_days > 9223372036854775807u64 {
        retention_days as i128 - 18446744073709551616i128
    } else {
        retention_days as i128
    };
    let span = d * 86400;
    let back = now.0 as i128 - span;
    !(-9223372036854775i128 <= span && span <= 9223372036854775i128 && -8334601315200i128 <= back && back
        <= 8210266876799i128)
}

/// Decide whether a message created at `created_at` is due for archiving.
pub fn archive_due(created_at: &str, now: (i64, u32), retention_days: u64) -> (r: bool)
    requires
        shift_fits(now, retention_span(retention_days)),
    ensures
        r == archivable(created_at@, now, retention_days),
{
    let d: i128 = if retention_days > 9223372036854775807u64 {
        retention_days as i128 - 18446744073709551616i128
    } else {
        retention_days as i128
    };
    let span = (d * 86400) as i64;
    let cutoff = (now.0 - span, now.1);
    match parse_time(created_at) {
        Some(t) => t.0 < cutoff.0 || (t.0 == cutoff.0 && t.1 < cutoff.1),
        None => false,
    }
}

pub open spec fn opt_text(o: Option<String>) -> Option<Seq<char>> {
    match o {
        Some(s) => Some(s@),
        None => None,
    }
}

/// A watcher's state when it starts: the cursor is the `--since` id when
/// given, else where the previous watcher stopped.
pub fn watch_start(agent_id: &str, since: Option<String>, previous: Option<WatchState>, pid: u32, host: String, now: String) -> (r: WatchState)
    ensures
        r.v == 1,
        r.agent@ == agent_id@,
        r.pid == pid,
        r.host@ == host@,
        r.started_at@ == now@,
        r.updated_at@ == now@,
        opt_text(r.last_event_id) == match since {
            Some(s) => Some(s@),
            None => match previous {
                Some(p) => opt_text(p.last_event_id),
                None => None,
            },
        },
        r.shutdown_at is None,
{
    let last_event_id = match since {
        Some(s) => Some(s),
        None => match previous {
            Some(p) => p.last_event_id,
            None => None,
        },
    };
    WatchState {
        v: schema_v1(),
        agent: String::from_str(agent_id),
        pid,
        host,
        started_at: now.clone(),
        updated_at: now,
        last_event_id,
        shutdown_at: None,
    }
}

} // verus!
