use vstd::prelude::*;
use crate::error::{ErrorCode, RaftError};
use crate::text::{
    char_is_id_char, chars_eq, chars_of, split_chars, split_on, str_eq, string_of, strip_leading,
    strip_leading_chars, trim, trim_chars, is_id_char,
};
use crate::util::{id_valid, invalid_id_message, validate_id_chars, is_valid_id_chars};

verus! {

/// The character sequences held by a sequence of strings.
pub open spec fn views(v: Seq<String>) -> Seq<Seq<char>> {
    Seq::new(v.len(), |i: int| v[i]@)
}

/// First occurrences only, in their original order.
pub open spec fn dedup(s: Seq<Seq<char>>) -> Seq<Seq<char>>
    decreases s.len(),
{
    if s.len() == 0 {
        s
    } else {
        let p = dedup(s.drop_last());
        if p.contains(s.last()) {
            p
        } else {
            p.push(s.last())
        }
    }
}

/// Removing repeats keeps exactly the values that occur.
pub proof fn lemma_dedup_contains(s: Seq<Seq<char>>, x: Seq<char>)
    ensures
        dedup(s).contains(x) <==> s.contains(x),
    decreases s.len(),
{
    if s.len() > 0 {
        lemma_dedup_contains(s.drop_last(), x);
        vstd::seq_lib::lemma_seq_contains_after_push(dedup(s.drop_last()), s.last(), x);
        vstd::seq_lib::lemma_seq_contains_after_push(s.drop_last(), s.last(), x);
        assert(s.drop_last().push(s.last()) =~= s);
        if dedup(s.drop_last()).contains(s.last()) {
            lemma_dedup_contains(s.drop_last(), s.last());
        }
    }
}

/// Deduplication leaves no value twice.
pub proof fn lemma_dedup_distinct(s: Seq<Seq<char>>)
    ensures
        forall|i: int, j: int| 0 <= i < j < dedup(s).len() ==> dedup(s)[i] != dedup(s)[j],
    decreases s.len(),
{
    if s.len() > 0 {
        lemma_dedup_distinct(s.drop_last());
        let p = dedup(s.drop_last());
        if !p.contains(s.last()) {
            assert forall|i: int, j: int| 0 <= i < j < dedup(s).len() implies dedup(s)[i] != dedup(s)[j] by {
                if j == p.len() {
                    assert(dedup(s)[i] == p[i]);
                }
            }
        }
    }
}

/// Whether `x` occurs among the strings of `v`.
pub fn contains_str(v: &[String], x: &str) -> (r: bool)
    ensures
        r == views(v@).contains(x@),
{
    let mut i: usize = 0;
    while i < v.len()
        invariant
            i <= v@.len(),
            forall|j: int| 0 <= j < i ==> v@[j]@ != x@,
        decreases v@.len() - i,
    {
        if str_eq(v[i].as_str(), x) {
            assert(views(v@)[i as int] == x@);
            return true;
        }
        i = i + 1;
    }
    assert(!views(v@).contains(x@)) by {
        if views(v@).contains(x@) {
            let j = choose|j: int| 0 <= j < views(v@).len() && views(v@)[j] == x@;
            assert(v@[j]@ != x@);
        }
    }
    false
}

/// Drops repeated values, keeping the first occurrence of each.
pub fn unique(values: Vec<String>) -> (r: Vec<String>)
    ensures
        views(r@) == dedup(views(values@)),
{
    let mut out: Vec<String> = Vec::new();
    let mut i: usize = 0;
    while i < values.len()
        invariant
            i <= values@.len(),
            views(out@) == dedup(views(values@).take(i as int)),
        decreases values@.len() - i,
    {
        let ghost before = views(values@).take(i as int);
        assert(views(values@).take(i + 1).drop_last() =~= before);
        assert(views(values@).take(i + 1).last() == values@[i as int]@);
        if !contains_str(out.as_slice(), values[i].as_str()) {
            let item = values[i].clone();
            out.push(item);
            assert(views(out@) =~= dedup(before).push(values@[i as int]@));
        }
        i = i + 1;
    }
    assert(views(values@).take(values@.len() as int) =~= views(values@));
    out
}

/// The trimmed, non-empty fields.
pub open spec fn trimmed_nonempty(fields: Seq<Seq<char>>) -> Seq<Seq<char>>
    decreases fields.len(),
{
    if fields.len() == 0 {
        Seq::empty()
    } else {
        let p = trimmed_nonempty(fields.drop_last());
        let t = trim(fields.last());
        if t.len() > 0 {
            p.push(t)
        } else {
            p
        }
    }
}

/// The items of a comma-separated list: fields trimmed, empty ones dropped.
pub open spec fn csv_items(s: Seq<char>) -> Seq<Seq<char>> {
    trimmed_nonempty(split_on(s, ','))
}

/// The first item that is not a valid identifier, if any.
pub open spec fn first_invalid_id(items: Seq<Seq<char>>) -> Option<Seq<char>>
    decreases items.len(),
{
    if items.len() == 0 {
        None
    } else {
        match first_invalid_id(items.drop_last()) {
            Some(x) => Some(x),
            None => if id_valid(items.last()) {
                None
            } else {
                Some(items.last())
            },
        }
    }
}

/// The trimmed, non-empty fields of a comma-separated list.
pub fn csv_fields(value: &str) -> (r: Vec<Vec<char>>)
    ensures
        r@.len() == csv_items(value@).len(),
        forall|i: int| 0 <= i < r@.len() ==> #[trigger] r@[i]@ == csv_items(value@)[i],
{
    let chars = chars_of(value);
    let fields = split_chars(chars.as_slice(), ',');
    let ghost fs = split_on(value@, ',');
    let mut out: Vec<Vec<char>> = Vec::new();
    let mut i: usize = 0;
    while i < fields.len()
        invariant
            fs == split_on(value@, ','),
            fields@.len() == fs.len(),
            forall|j: int| 0 <= j < fields@.len() ==> #[trigger] fields@[j]@ == fs[j],
            i <= fields@.len(),
            out@.len() == trimmed_nonempty(fs.take(i as int)).len(),
            forall|j: int| 0 <= j < out@.len() ==> #[trigger] out@[j]@ == trimmed_nonempty(fs.take(i as int))[j],
        decreases fields@.len() - i,
    {
        assert(fs.take(i + 1).drop_last() =~= fs.take(i as int));
        assert(fs.take(i + 1).last() == fields@[i as int]@);
        let t = trim_chars(fields[i].as_slice());
        if t.len() > 0 {
            out.push(t);
        }
        i = i + 1;
    }
    assert(fs.take(fields@.len() as int) =~= fs);
    out
}

/// Splits a comma-separated list of identifiers, trimming each item and
/// dropping empty ones; fails on the first item that is not an identifier.
pub fn split_csv(value: &str) -> (r: Result<Vec<String>, RaftError>)
    ensures
        match r {
            Ok(v) => first_invalid_id(csv_items(value@)) is None && views(v@) == csv_items(value@),
            Err(e) => first_invalid_id(csv_items(value@)) is Some && e.code == ErrorCode::Error
                && e.message@ == invalid_id_message("id"@, first_invalid_id(csv_items(value@))->0),
        },
{
    let items = csv_fields(value);
    let ghost all = csv_items(value@);
    let mut out: Vec<String> = Vec::new();
    let mut i: usize = 0;
    while i < items.len()
        invariant
            all == csv_items(value@),
            items@.len() == all.len(),
            forall|j: int| 0 <= j < items@.len() ==> #[trigger] items@[j]@ == all[j],
            i <= items@.len(),
            first_invalid_id(all.take(i as int)) is None,
            views(out@) == all.take(i as int),
        decreases items@.len() - i,
    {
        assert(all.take(i + 1).drop_last() =~= all.take(i as int));
        assert(all.take(i + 1).last() == items@[i as int]@);
        match validate_id_chars(items[i].as_slice(), "id") {
            Ok(s) => {
                out.push(s);
                assert(views(out@) =~= all.take(i + 1));
            },
            Err(e) => {
                proof {
                    lemma_first_invalid_prefix(all, i as int + 1);
                }
                return Err(e);
            },
        }
        i = i + 1;
    }
    assert(all.take(items@.len() as int) =~= all);
    Ok(out)
}

/// A failure found in a prefix is the failure of the whole sequence.
pub proof fn lemma_first_invalid_prefix(items: Seq<Seq<char>>, k: int)
    requires
        0 <= k <= items.len(),
        first_invalid_id(items.take(k)) is Some,
    ensures
        first_invalid_id(items) == first_invalid_id(items.take(k)),
    decreases items.len() - k,
{
    if k < items.len() {
        assert(items.take(k + 1).drop_last() =~= items.take(k));
        lemma_first_invalid_prefix(items, k + 1);
    } else {
        assert(items.take(k) =~= items);
    }
}

/// A recipient item is the wildcard `*` or an identifier with any leading `@`.
pub open spec fn recipient_of(t: Seq<char>) -> Seq<char> {
    if t == "*"@ {
        t
    } else {
        strip_leading(t, '@')
    }
}

/// The recipients named by a list of items.
pub open spec fn recipients_of(items: Seq<Seq<char>>) -> Seq<Seq<char>> {
    Seq::new(items.len(), |i: int| recipient_of(items[i]))
}

proof fn lemma_recipients_step(all: Seq<Seq<char>>, i: int, prev: Seq<Seq<char>>, next: Seq<Seq<char>>)
    requires
        0 <= i < all.len(),
        prev == recipients_of(all.take(i)),
        next == prev.push(recipient_of(all[i])),
    ensures
        next == recipients_of(all.take(i + 1)),
{
    assert(next =~= recipients_of(all.take(i + 1)));
}

pub open spec fn recipient_ok(t: Seq<char>) -> bool {
    t == "*"@ || id_valid(strip_leading(t, '@'))
}

/// The first bad recipient (with its `@` prefix stripped), if any.
pub open spec fn first_bad_recipient(items: Seq<Seq<char>>) -> Option<Seq<char>>
    decreases items.len(),
{
    if items.len() == 0 {
        None
    } else {
        match first_bad_recipient(items.drop_last()) {
            Some(x) => Some(x),
            None => if recipient_ok(items.last()) {
                None
            } else {
                Some(strip_leading(items.last(), '@'))
            },
        }
    }
}

pub proof fn lemma_first_bad_recipient_prefix(items: Seq<Seq<char>>, k: int)
    requires
        0 <= k <= items.len(),
        first_bad_recipient(items.take(k)) is Some,
    ensures
        first_bad_recipient(items) == first_bad_recipient(items.take(k)),
    decreases items.len() - k,
{
    if k < items.len() {
        assert(items.take(k + 1).drop_last() =~= items.take(k));
        lemma_first_bad_recipient_prefix(items, k + 1);
    } else {
        assert(items.take(k) =~= items);
    }
}

/// Splits a comma-separated recipient list: `*` stays as is, other items lose
/// any leading `@` and must be identifiers.
pub fn split_recipients(value: &str) -> (r: Result<Vec<String>, RaftError>)
    ensures
        match r {
            Ok(v) => first_bad_recipient(csv_items(value@)) is None
                && views(v@) == recipients_of(csv_items(value@)),
            Err(e) => first_bad_recipient(csv_items(value@)) is Some && e.code == ErrorCode::Error
                && e.message@ == invalid_id_message(
                "recipient"@,
                first_bad_recipient(csv_items(value@))->0,
            ),
        },
{
    let items = csv_fields(value);
    let ghost all = csv_items(value@);
    let star = chars_of("*");
    let mut out: Vec<String> = Vec::new();
    let mut i: usize = 0;
    while i < items.len()
        invariant
            all == csv_items(value@),
            star@ == "*"@,
            items@.len() == all.len(),
            forall|j: int| 0 <= j < items@.len() ==> #[trigger] items@[j]@ == all[j],
            i <= items@.len(),
            first_bad_recipient(all.take(i as int)) is None,
            views(out@) == recipients_of(all.take(i as int)),
        decreases items@.len() - i,
    {
        assert(all.take(i + 1).drop_last() =~= all.take(i as int));
        assert(all.take(i + 1).last() == items@[i as int]@);
        let ghost prev = views(out@);
        if chars_eq(items[i].as_slice(), star.as_slice()) {
            out.push(string_of(items[i].as_slice()));
            proof {
                assert(views(out@) =~= prev.push(recipient_of(all[i as int])));
                lemma_recipients_step(all, i as int, prev, views(out@));
            }
        } else {
            let stripped = strip_leading_chars(items[i].as_slice(), '@');
            match validate_id_chars(stripped.as_slice(), "recipient") {
                Ok(s) => {
                    out.push(s);
                    proof {
                        assert(views(out@) =~= prev.push(recipient_of(all[i as int])));
                        lemma_recipients_step(all, i as int, prev, views(out@));
                    }
                },
                Err(e) => {
                    proof {
                        lemma_first_bad_recipient_prefix(all, i as int + 1);
                    }
                    return Err(e);
                },
            }
        }
        i = i + 1;
    }
    assert(all.take(items@.len() as int) =~= all);
    Ok(out)
}

/// End (exclusive) of the run of identifier characters starting at `j`.
pub open spec fn id_run_end(s: Seq<char>, j: int) -> int
    decreases s.len() - j,
{
    if j < s.len() && 0 <= j && is_id_char(s[j]) {
        id_run_end(s, j + 1)
    } else {
        j
    }
}

/// Every `@` followed by a valid identifier, in order of appearance.
pub open spec fn mentions_from(s: Seq<char>, i: int) -> Seq<Seq<char>>
    decreases s.len() - i,
{
    if i >= s.len() || i < 0 {
        Seq::empty()
    } else if s[i] == '@' {
        let run = s.subrange(i + 1, id_run_end(s, i + 1));
        if id_valid(run) {
            seq![run] + mentions_from(s, i + 1)
        } else {
            mentions_from(s, i + 1)
        }
    } else {
        mentions_from(s, i + 1)
    }
}

/// The distinct `@mentions` in a text, first occurrence first.
pub open spec fn mentions(s: Seq<char>) -> Seq<Seq<char>> {
    dedup(mentions_from(s, 0))
}

pub proof fn lemma_id_run_end_bounds(s: Seq<char>, j: int)
    requires
        0 <= j <= s.len(),
    ensures
        j <= id_run_end(s, j) <= s.len(),
        forall|k: int| j <= k < id_run_end(s, j) ==> is_id_char(#[trigger] s[k]),
        id_run_end(s, j) == s.len() || !is_id_char(s[id_run_end(s, j)]),
    decreases s.len() - j,
{
    if j < s.len() && is_id_char(s[j]) {
        lemma_id_run_end_bounds(s, j + 1);
    }
}

pub proof fn lemma_id_run_end_skip(s: Seq<char>, j: int, k: int)
    requires
        0 <= j <= k <= s.len(),
        forall|m: int| j <= m < k ==> is_id_char(#[trigger] s[m]),
    ensures
        id_run_end(s, j) == id_run_end(s, k),
    decreases k - j,
{
    if j < k {
        lemma_id_run_end_skip(s, j + 1, k);
    }
}

/// Mentions after index `i` equal mentions after `k` when `s[i..k]` holds no `@`.
pub proof fn lemma_mentions_skip(s: Seq<char>, i: int, k: int)
    requires
        0 <= i <= k <= s.len(),
        forall|m: int| i <= m < k ==> #[trigger] s[m] != '@',
    ensures
        mentions_from(s, i) == mentions_from(s, k),
    decreases k - i,
{
    if i < k {
        lemma_mentions_skip(s, i + 1, k);
    }
}

/// Collects the valid identifiers written after `@` in a text, without repeats.
pub fn extract_mentions(value: &str) -> (r: Vec<String>)
    ensures
        views(r@) == mentions(value@),
{
    let s = chars_of(value);
    let n = s.len();
    let mut found: Vec<String> = Vec::new();
    let mut i: usize = 0;
    while i < n
        invariant
            n == s@.len(),
            s@ == value@,
            i <= n,
            views(found@) + mentions_from(s@, i as int) == mentions_from(s@, 0),
        decreases n - i,
    {
        if s[i] != '@' {
            i = i + 1;
            proof {
                assert(mentions_from(s@, i - 1) == mentions_from(s@, i as int));
            }
            continue;
        }
        let mut j: usize = i + 1;
        let mut run: Vec<char> = Vec::new();
        while j < n && char_is_id_char(s[j])
            invariant
                n == s@.len(),
                i < n,
                i + 1 <= j <= n,
                run@ =~= s@.subrange(i + 1, j as int),
                forall|m: int| i + 1 <= m < j ==> is_id_char(#[trigger] s@[m]),
            decreases n - j,
        {
            run.push(s[j]);
            j = j + 1;
        }
        proof {
            lemma_id_run_end_skip(s@, i + 1, j as int);
            lemma_id_run_end_bounds(s@, j as int);
            assert(id_run_end(s@, j as int) == j);
            assert forall|m: int| i + 1 <= m < j implies #[trigger] s@[m] != '@' by {
                assert(is_id_char(s@[m]));
            }
            lemma_mentions_skip(s@, i + 1, j as int);
        }
        let ghost old_found = views(found@);
        if is_valid_id_chars(run.as_slice()) {
            found.push(string_of(run.as_slice()));
            assert(views(found@) =~= old_found.push(run@));
            assert(old_found + mentions_from(s@, i as int) =~= old_found + (seq![run@] + mentions_from(s@, i + 1)));
            assert(views(found@) + mentions_from(s@, j as int) =~= old_found + (seq![run@] + mentions_from(s@, i + 1)));
        }
        i = j;
    }
    assert(views(found@) =~= mentions_from(s@, 0));
    unique(found)
}

} // verus!
