//! Per-conversation send rate limiting: a fixed window per sender (and per
//! subject id), and a cap on message size.

use vstd::prelude::*;
use chrono::{DateTime, Utc};
use crate::capability::opt_view;
use crate::error::{ErrorCode, RaftError};
use crate::hex::{byte_len, byte_len_of};
use crate::records::{Meta, SenderRate};
use crate::storage::opt_str_view;
use crate::text::{chars_of, debug_quoted, debug_str, decimal, decimal_chars, str_eq, string_of};
use crate::util::{rate_key, rate_key_spec};

verus! {

/// Rate windows of a conversation, by key (`sender` or `sender#subject`).
pub struct RateState {
    pub v: u16,
    pub senders: Vec<(String, SenderRate)>,
}

/// A window as values: its start, the count sent in it, the last send.
pub open spec fn window_view(s: SenderRate) -> (Seq<char>, u64, Option<Seq<char>>) {
    (s.window_start@, s.count, opt_view(s.last_sent_at))
}

/// The window kept under `key` (the first entry with it).
pub open spec fn window_of(entries: Seq<(String, SenderRate)>, key: Seq<char>) -> Option<(Seq<char>, u64, Option<Seq<char>>)>
    decreases entries.len(),
{
    if entries.len() == 0 {
        None
    } else if entries[0].0@ == key {
        Some(window_view(entries[0].1))
    } else {
        window_of(entries.drop_first(), key)
    }
}

/// Whole seconds from the instant an RFC 3339 text denotes to `now`,
/// truncated toward zero; `None` when the text does not parse.
pub uninterp spec fn whole_seconds_since(text: Seq<char>, now: (i64, u32)) -> Option<i64>;

/// `(now - DateTime::parse_from_rfc3339(text)).num_seconds()`, with `now`
/// given as seconds and nanoseconds since the epoch.
#[verifier::external_body]
fn seconds_since(text: &str, now: (i64, u32)) -> (r: Option<i64>)
    ensures
        r == whole_seconds_since(text@, now),
{
    match (DateTime::parse_from_rfc3339(text), DateTime::from_timestamp(now.0, now.1)) {
        (Ok(start), Some(current)) => Some((current - start.with_timezone(&Utc)).num_seconds()),
        _ => None,
    }
}

/// Whether a window that started at `start` has run out by `now`; a start
/// that does not parse counts as starting now.
pub open spec fn window_expired(start: Seq<char>, now: (i64, u32), window_seconds: u64) -> bool {
    let elapsed = match whole_seconds_since(start, now) {
        Some(e) => e,
        None => 0,
    };
    elapsed >= window_seconds as i64
}

pub open spec fn too_large_message(size: nat, limit: usize) -> Seq<char> {
    "message is "@ + decimal(size) + " bytes; limit is "@ + decimal(limit as nat)
}

pub open spec fn rate_limited_message(key: Seq<char>, max: u64, window: u64, conversation: Seq<char>) -> Seq<char> {
    "rate limited: "@ + debug_quoted(key) + " already sent "@ + decimal(max as nat) + " messages in "@
        + decimal(window as nat) + "s for "@ + debug_quoted(conversation)
}

/// The window under `key` once a send at `now` is counted, before the limit
/// is checked: a fresh window when there was none or the old one ran out.
pub open spec fn current_window(
    entries: Seq<(String, SenderRate)>,
    key: Seq<char>,
    now: (i64, u32),
    now_text: Seq<char>,
    window_seconds: u64,
) -> (Seq<char>, u64, Option<Seq<char>>) {
    let w = match window_of(entries, key) {
        Some(w) => w,
        None => (now_text, 0u64, None),
    };
    if window_expired(w.0, now, window_seconds) {
        (now_text, 0u64, w.2)
    } else {
        w
    }
}

/// Why a send is refused by the conversation's limits, if it is.
pub open spec fn rate_refusal(
    meta: Meta,
    entries: Seq<(String, SenderRate)>,
    key: Seq<char>,
    body: Seq<char>,
    now: (i64, u32),
    now_text: Seq<char>,
) -> Option<Seq<char>> {
    if byte_len(body) > meta.rate.max_message_bytes {
        Some(too_large_message(byte_len(body), meta.rate.max_message_bytes))
    } else if current_window(entries, key, now, now_text, meta.rate.window_seconds).1
        >= meta.rate.max_messages_per_sender {
        Some(rate_limited_message(key, meta.rate.max_messages_per_sender, meta.rate.window_seconds, meta.id@))
    } else {
        None
    }
}

/// The category of a refusal by [`rate_refusal`]: the size limit is checked
/// first.
pub open spec fn rate_refusal_code(meta: Meta, body: Seq<char>) -> ErrorCode {
    if byte_len(body) > meta.rate.max_message_bytes {
        ErrorCode::TooLarge
    } else {
        ErrorCode::RateLimited
    }
}

/// `after` is `before` with one more send counted under `key` at `now`.
pub open spec fn rate_counted(
    before: Seq<(String, SenderRate)>,
    after: Seq<(String, SenderRate)>,
    key: Seq<char>,
    now: (i64, u32),
    now_text: Seq<char>,
    window_seconds: u64,
) -> bool {
    let w = current_window(before, key, now, now_text, window_seconds);
    &&& window_of(after, key) == Some((w.0, (w.1 + 1) as u64, Some(now_text)))
    &&& forall|k: Seq<char>| k != key ==> #[trigger] window_of(after, k) == window_of(before, k)
}

fn clone_opt(o: &Option<String>) -> (r: Option<String>)
    ensures
        opt_view(r) == opt_view(*o),
{
    match o {
        Some(s) => Some(s.clone()),
        None => None,
    }
}

fn find_window(entries: &Vec<(String, SenderRate)>, key: &str) -> (r: Option<usize>)
    ensures
        match r {
            Some(i) => i < entries@.len() && entries@[i as int].0@ == key@ && window_of(entries@, key@) == Some(
                window_view(entries@[i as int].1),
            ) && forall|j: int| 0 <= j < i ==> entries@[j].0@ != key@,
            None => window_of(entries@, key@) is None,
        },
{
    let mut i: usize = 0;
    assert(entries@.skip(0) =~= entries@);
    while i < entries.len()
        invariant
            i <= entries@.len(),
            window_of(entries@, key@) == window_of(entries@.skip(i as int), key@),
            forall|j: int| 0 <= j < i ==> entries@[j].0@ != key@,
        decreases entries@.len() - i,
    {
        proof {
            let t = entries@.skip(i as int);
            assert(t[0] == entries@[i as int]);
            assert(t.drop_first() =~= entries@.skip(i + 1));
        }
        if str_eq(entries[i].0.as_str(), key) {
            return Some(i);
        }
        i = i + 1;
    }
    None
}

proof fn lemma_window_of_update(entries: Seq<(String, SenderRate)>, i: int, e: (String, SenderRate), k: Seq<char>)
    requires
        0 <= i < entries.len(),
        entries[i].0@ == e.0@,
        window_of(entries, e.0@) == Some(window_view(entries[i].1)),
        forall|j: int| 0 <= j < i ==> entries[j].0@ != e.0@,
    ensures
        k == e.0@ ==> window_of(entries.update(i, e), k) == Some(window_view(e.1)),
        k != e.0@ ==> window_of(entries.update(i, e), k) == window_of(entries, k),
    decreases entries.len(),
{
    let u = entries.update(i, e);
    if i == 0 {
        assert(u.drop_first() =~= entries.drop_first());
    } else {
        assert(entries[0].0@ != e.0@);
        assert(u.drop_first() =~= entries.drop_first().update(i - 1, e));
        assert forall|j: int| 0 <= j < i - 1 implies entries.drop_first()[j].0@ != e.0@ by {
            assert(entries.drop_first()[j] == entries[j + 1]);
        }
        lemma_window_of_update(entries.drop_first(), i - 1, e, k);
    }
}

proof fn lemma_window_of_push(entries: Seq<(String, SenderRate)>, e: (String, SenderRate), k: Seq<char>)
    requires
        window_of(entries, e.0@) is None,
    ensures
        k == e.0@ ==> window_of(entries.push(e), k) == Some(window_view(e.1)),
        k != e.0@ ==> window_of(entries.push(e), k) == window_of(entries, k),
    decreases entries.len(),
{
    if entries.len() == 0 {
        assert(entries.push(e).drop_first() =~= Seq::<(String, SenderRate)>::empty());
        assert(entries.push(e)[0] == e);
        assert(window_of(entries.push(e), k) == if e.0@ == k {
            Some(window_view(e.1))
        } else {
            window_of(entries.push(e).drop_first(), k)
        });
    } else {
        assert(entries.push(e).drop_first() =~= entries.drop_first().push(e));
        assert(entries.push(e)[0] == entries[0]);
        lemma_window_of_push(entries.drop_first(), e, k);
        assert(window_of(entries.push(e), k) == if entries[0].0@ == k {
            Some(window_view(entries[0].1))
        } else {
            window_of(entries.push(e).drop_first(), k)
        });
        assert(window_of(entries, k) == if entries[0].0@ == k {
            Some(window_view(entries[0].1))
        } else {
            window_of(entries.drop_first(), k)
        });
    }
}

/// Count a send of `body` by `sender` (under `subject_id`) at `now` against
/// the conversation's limits, returning the rate state to store. Refused when
/// the body is larger than allowed, or the window already holds the maximum
/// number of sends.
pub fn enforce_rate_limit(
    meta: &Meta,
    state: RateState,
    sender: &str,
    subject_id: Option<&str>,
    body: &str,
    now: (i64, u32),
    now_text: &str,
) -> (r: Result<RateState, RaftError>)
    ensures
        match rate_refusal(*meta, state.senders@, rate_key_spec(sender@, opt_str_view(subject_id)), body@, now, now_text@) {
            Some(m) => r matches Err(e) && e.code == rate_refusal_code(*meta, body@) && e.message@ == m,
            None => r matches Ok(s) && s.v == state.v && rate_counted(
                state.senders@,
                s.senders@,
                rate_key_spec(sender@, opt_str_view(subject_id)),
                now,
                now_text@,
                meta.rate.window_seconds,
            ),
        },
{
    let bc = chars_of(body);
    let size = byte_len_of(bc.as_slice());
    if size > meta.rate.max_message_bytes as u128 {
        let mut m = String::from_str("message is ");
        let sc = crate::text::decimal_chars_wide(size);
        let ss = string_of(sc.as_slice());
        m.append(ss.as_str());
        m.append(" bytes; limit is ");
        let lc = decimal_chars(meta.rate.max_message_bytes as u64);
        let ls = string_of(lc.as_slice());
        m.append(ls.as_str());
        return Err(RaftError::coded(ErrorCode::TooLarge, m));
    }
    let key = rate_key(sender, subject_id);
    let mut state = state;
    let found = find_window(&state.senders, key.as_str());
    let (start, count, last) = match found {
        Some(i) => (state.senders[i].1.window_start.clone(), state.senders[i].1.count, clone_opt(&state.senders[i].1.last_sent_at)),
        None => (String::from_str(now_text), 0u64, None),
    };
    let elapsed = match seconds_since(start.as_str(), now) {
        Some(e) => e,
        None => 0,
    };
    let (start, count) = if elapsed >= #[verifier::truncate] (meta.rate.window_seconds as i64) {
        (String::from_str(now_text), 0u64)
    } else {
        (start, count)
    };
    if count >= meta.rate.max_messages_per_sender {
        let q = debug_str(key.as_str());
        let mut m = String::from_str("rate limited: ");
        m.append(q.as_str());
        m.append(" already sent ");
        let mc = decimal_chars(meta.rate.max_messages_per_sender);
        let ms = string_of(mc.as_slice());
        m.append(ms.as_str());
        m.append(" messages in ");
        let wc = decimal_chars(meta.rate.window_seconds);
        let ws = string_of(wc.as_slice());
        m.append(ws.as_str());
        m.append("s for ");
        let c = debug_str(meta.id.as_str());
        m.append(c.as_str());
        return Err(RaftError::coded(ErrorCode::RateLimited, m));
    }
    let entry = SenderRate { window_start: start, count: count + 1, last_sent_at: Some(String::from_str(now_text)) };
    let ghost old_entries = state.senders@;
    let k2 = key.clone();
    match found {
        Some(i) => {
            state.senders.set(i, (k2, entry));
            proof {
                assert forall|k: Seq<char>| k != key@ implies #[trigger] window_of(state.senders@, k) == window_of(old_entries, k) by {
                    lemma_window_of_update(old_entries, i as int, state.senders@[i as int], k);
                }
                lemma_window_of_update(old_entries, i as int, state.senders@[i as int], key@);
            }
        },
        None => {
            state.senders.push((k2, entry));
            proof {
                assert forall|k: Seq<char>| k != key@ implies #[trigger] window_of(state.senders@, k) == window_of(old_entries, k) by {
                    lemma_window_of_push(old_entries, state.senders@.last(), k);
                }
                lemma_window_of_push(old_entries, state.senders@.last(), key@);
            }
        },
    }
    Ok(state)
}

} // verus!
