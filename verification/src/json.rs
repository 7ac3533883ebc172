use vstd::prelude::*;
use crate::hex::{hex_digit, nibble_char};
use crate::order::{lemma_insert_by_at, lemma_sort_by_sorted, sort_by, sorted_by, strict_weak_order};
use crate::suggest::{
    lemma_seq_less_asymmetric, lemma_seq_less_irreflexive, lemma_seq_less_total, lemma_seq_less_transitive, seq_less,
    str_less,
};
use crate::text::{chars_of, decimal, decimal_chars, string_of};

verus! {

broadcast use vstd::std_specs::vec::group_vec_axioms, vstd::seq::group_seq_axioms;

/// A JSON document as records are signed and hashed. Numbers keep their
/// decimal text; an object's members may be held in any order, and its
/// canonical text sorts them by key.
pub enum JsonValue {
    Null,
    Bool(bool),
    Number(String),
    Str(String),
    Array(Vec<JsonValue>),
    Object(Vec<JsonMember>),
}

/// One `"key": value` member of an object.
pub struct JsonMember {
    pub key: String,
    pub value: JsonValue,
}

/// The escape sequence of a control character: `\u00` and two lowercase hex
/// digits.
pub open spec fn unicode_escape(c: char) -> Seq<char> {
    seq!['\\', 'u', '0', '0', hex_digit((c as u32 as nat) / 16), hex_digit((c as u32 as nat) % 16)]
}

/// How one character of a string is written inside the quotes.
pub open spec fn escape_char(c: char) -> Seq<char> {
    if c == '"' {
        seq!['\\', '"']
    } else if c == '\\' {
        seq!['\\', '\\']
    } else if c == '\u{8}' {
        seq!['\\', 'b']
    } else if c == '\t' {
        seq!['\\', 't']
    } else if c == '\n' {
        seq!['\\', 'n']
    } else if c == '\u{c}' {
        seq!['\\', 'f']
    } else if c == '\r' {
        seq!['\\', 'r']
    } else if (c as u32) < 0x20 {
        unicode_escape(c)
    } else {
        seq![c]
    }
}

pub open spec fn escaped(s: Seq<char>) -> Seq<char>
    decreases s.len(),
{
    if s.len() == 0 {
        Seq::empty()
    } else {
        escaped(s.drop_last()) + escape_char(s.last())
    }
}

/// A JSON string literal.
pub open spec fn quoted(s: Seq<char>) -> Seq<char> {
    seq!['"'] + escaped(s) + seq!['"']
}

/// Object members ordered by key (as positions into the member list).
pub open spec fn key_less(ms: Seq<JsonMember>) -> spec_fn(int, int) -> bool {
    |a: int, b: int| seq_less(ms[a].key@, ms[b].key@)
}

/// The positions `ps` of members sorted by key; members with equal keys keep
/// their order.
pub open spec fn key_order(ms: Seq<JsonMember>, ps: Seq<int>) -> Seq<int> {
    sort_by(ps, key_less(ms))
}

/// Every position of a list of `n` members, in order.
pub open spec fn all_positions(n: nat) -> Seq<int> {
    Seq::new(n, |i: int| i)
}

/// Compact JSON text: no whitespace, and an object's members sorted by key,
/// at every depth.
pub open spec fn canonical(v: JsonValue) -> Seq<char>
    decreases v, 0int,
{
    match v {
        JsonValue::Null => seq!['n', 'u', 'l', 'l'],
        JsonValue::Bool(b) => if b { seq!['t', 'r', 'u', 'e'] } else { seq!['f', 'a', 'l', 's', 'e'] },
        JsonValue::Number(t) => t@,
        JsonValue::Str(s) => quoted(s@),
        JsonValue::Array(items) => seq!['['] + canonical_items(items@) + seq![']'],
        JsonValue::Object(members) => seq!['{'] + ordered_members(
            members@,
            key_order(members@, all_positions(members@.len())),
            key_order(members@, all_positions(members@.len())).len() as int,
        ) + seq!['}'],
    }
}

/// Comma-separated canonical texts of array items.
pub open spec fn canonical_items(items: Seq<JsonValue>) -> Seq<char>
    decreases items, 0int,
{
    if items.len() == 0 {
        Seq::empty()
    } else if items.len() == 1 {
        canonical(items[0])
    } else {
        canonical_items(items.subrange(0, items.len() - 1)) + seq![','] + canonical(
            items[items.len() - 1],
        )
    }
}

/// The `"key":value` text of one member.
pub open spec fn canonical_member(m: JsonMember) -> Seq<char>
    decreases m, 0int,
{
    quoted(m.key@) + seq![':'] + canonical(m.value)
}

/// Comma-separated `"key":value` texts of the members at the first `k`
/// positions of `order`.
pub open spec fn ordered_members(ms: Seq<JsonMember>, order: Seq<int>, k: int) -> Seq<char>
    decreases ms, k,
{
    if k <= 0 || k > order.len() {
        Seq::empty()
    } else {
        let p = order[k - 1];
        let t = if 0 <= p < ms.len() {
            canonical_member(ms[p])
        } else {
            Seq::empty()
        };
        if k == 1 {
            t
        } else {
            ordered_members(ms, order, k - 1) + seq![','] + t
        }
    }
}

/// The UTF-8 encoding of one character.
pub open spec fn utf8_char(c: char) -> Seq<u8> {
    let v = c as u32;
    if v < 0x80 {
        seq![v as u8]
    } else if v < 0x800 {
        seq![(0xC0 | (v >> 6)) as u8, (0x80 | (v & 0x3F)) as u8]
    } else if v < 0x10000 {
        seq![(0xE0 | (v >> 12)) as u8, (0x80 | ((v >> 6) & 0x3F)) as u8, (0x80 | (v & 0x3F)) as u8]
    } else {
        seq![
            (0xF0 | (v >> 18)) as u8,
            (0x80 | ((v >> 12) & 0x3F)) as u8,
            (0x80 | ((v >> 6) & 0x3F)) as u8,
            (0x80 | (v & 0x3F)) as u8,
        ]
    }
}

/// The UTF-8 encoding of a text.
pub open spec fn utf8(s: Seq<char>) -> Seq<u8>
    decreases s.len(),
{
    if s.len() == 0 {
        Seq::empty()
    } else {
        utf8(s.drop_last()) + utf8_char(s.last())
    }
}

/// Canonical bytes of a document: its compact text in UTF-8.
pub open spec fn canonical_bytes(v: JsonValue) -> Seq<u8> {
    utf8(canonical(v))
}

fn push_utf8(c: char, out: &mut Vec<u8>)
    ensures
        final(out)@ == old(out)@ + utf8_char(c),
{
    let v = c as u32;
    if v < 0x80 {
        out.push(v as u8);
    } else if v < 0x800 {
        out.push((0xC0 | (v >> 6)) as u8);
        out.push((0x80 | (v & 0x3F)) as u8);
    } else if v < 0x10000 {
        out.push((0xE0 | (v >> 12)) as u8);
        out.push((0x80 | ((v >> 6) & 0x3F)) as u8);
        out.push((0x80 | (v & 0x3F)) as u8);
    } else {
        out.push((0xF0 | (v >> 18)) as u8);
        out.push((0x80 | ((v >> 12) & 0x3F)) as u8);
        out.push((0x80 | ((v >> 6) & 0x3F)) as u8);
        out.push((0x80 | (v & 0x3F)) as u8);
    }
}

/// UTF-8 encoding of a character sequence.
pub fn utf8_bytes(s: &[char]) -> (r: Vec<u8>)
    ensures
        r@ == utf8(s@),
{
    let mut out: Vec<u8> = Vec::new();
    let mut i: usize = 0;
    while i < s.len()
        invariant
            i <= s@.len(),
            out@ == utf8(s@.take(i as int)),
        decreases s@.len() - i,
    {
        proof {
            assert(s@.take(i + 1).drop_last() =~= s@.take(i as int));
            assert(s@.take(i + 1).last() == s@[i as int]);
        }
        push_utf8(s[i], &mut out);
        i = i + 1;
    }
    assert(s@.take(s@.len() as int) =~= s@);
    out
}

fn push_all(src: &[char], out: &mut Vec<char>)
    ensures
        final(out)@ == old(out)@ + src@,
{
    let mut i: usize = 0;
    while i < src.len()
        invariant
            i <= src@.len(),
            out@ == old(out)@ + src@.take(i as int),
        decreases src@.len() - i,
    {
        out.push(src[i]);
        i = i + 1;
        assert(out@ =~= old(out)@ + src@.take(i as int));
    }
    assert(src@.take(src@.len() as int) =~= src@);
}

fn push_escape(c: char, out: &mut Vec<char>)
    ensures
        final(out)@ == old(out)@ + escape_char(c),
{
    if c == '"' {
        out.push('\\');
        out.push('"');
    } else if c == '\\' {
        out.push('\\');
        out.push('\\');
    } else if c == '\u{8}' {
        out.push('\\');
        out.push('b');
    } else if c == '\t' {
        out.push('\\');
        out.push('t');
    } else if c == '\n' {
        out.push('\\');
        out.push('n');
    } else if c == '\u{c}' {
        out.push('\\');
        out.push('f');
    } else if c == '\r' {
        out.push('\\');
        out.push('r');
    } else if (c as u32) < 0x20 {
        let b = (c as u32) as u8;
        out.push('\\');
        out.push('u');
        out.push('0');
        out.push('0');
        out.push(nibble_char(b / 16));
        out.push(nibble_char(b % 16));
    } else {
        out.push(c);
    }
}

/// Appends a JSON string literal for `s`.
pub fn push_quoted(s: &str, out: &mut Vec<char>)
    ensures
        final(out)@ == old(out)@ + quoted(s@),
{
    let cs = chars_of(s);
    out.push('"');
    let ghost start = out@;
    let mut i: usize = 0;
    while i < cs.len()
        invariant
            i <= cs@.len(),
            out@ == start + escaped(cs@.take(i as int)),
        decreases cs@.len() - i,
    {
        proof {
            assert(cs@.take(i + 1).drop_last() =~= cs@.take(i as int));
            assert(cs@.take(i + 1).last() == cs@[i as int]);
        }
        push_escape(cs[i], out);
        i = i + 1;
    }
    assert(cs@.take(cs@.len() as int) =~= cs@);
    out.push('"');
}

proof fn lemma_items_step(items: Seq<JsonValue>, i: int)
    requires
        0 <= i < items.len(),
    ensures
        canonical_items(items.take(i + 1)) == if i == 0 {
            canonical(items[i])
        } else {
            canonical_items(items.take(i)) + seq![','] + canonical(items[i])
        },
{
    let t = items.take(i + 1);
    assert(t.subrange(0, t.len() - 1) =~= items.take(i));
    assert(t[i] == items[i]);
}

proof fn lemma_ordered_step(ms: Seq<JsonMember>, order: Seq<int>, k: int)
    requires
        0 <= k < order.len(),
        0 <= order[k] < ms.len(),
    ensures
        ordered_members(ms, order, k + 1) == if k == 0 {
            canonical_member(ms[order[k]])
        } else {
            ordered_members(ms, order, k) + seq![','] + canonical_member(ms[order[k]])
        },
{
}

pub open spec fn int_views(v: Seq<usize>) -> Seq<int> {
    Seq::new(v.len(), |i: int| v[i] as int)
}

/// The positions `ps` of `ms` sorted by key, stably.
fn sort_positions(ms: &Vec<JsonMember>, ps: Vec<usize>) -> (r: Vec<usize>)
    requires
        forall|k: int| 0 <= k < ps@.len() ==> ps@[k] < ms@.len(),
    ensures
        int_views(r@) == key_order(ms@, int_views(ps@)),
        forall|k: int| 0 <= k < r@.len() ==> r@[k] < ms@.len(),
{
    let ghost orig = int_views(ps@);
    let ghost less = key_less(ms@);
    let ghost mut k: int = 0;
    let mut rest = ps;
    let mut sorted: Vec<usize> = Vec::new();
    while rest.len() > 0
        invariant
            less == key_less(ms@),
            0 <= k <= orig.len(),
            int_views(rest@) == orig.skip(k),
            int_views(sorted@) == sort_by(orig.take(k), less),
            forall|j: int| 0 <= j < rest@.len() ==> rest@[j] < ms@.len(),
            forall|j: int| 0 <= j < sorted@.len() ==> sorted@[j] < ms@.len(),
        decreases rest@.len(),
    {
        let ghost rest0 = rest@;
        let x = rest.remove(0);
        proof {
            assert(int_views(rest0)[0] == x as int);
            assert(int_views(rest@) =~= int_views(rest0).skip(1));
            assert forall|j: int| 0 <= j < rest@.len() implies rest@[j] < ms@.len() by {
                assert(rest@[j] == rest0[j + 1]);
            }
        }
        let mut p: usize = 0;
        while p < sorted.len() && !str_less(ms[x].key.as_str(), ms[sorted[p]].key.as_str())
            invariant
                p <= sorted@.len(),
                less == key_less(ms@),
                x < ms@.len(),
                forall|j: int| 0 <= j < sorted@.len() ==> sorted@[j] < ms@.len(),
                forall|j: int| 0 <= j < p ==> !less(x as int, #[trigger] int_views(sorted@)[j]),
            decreases sorted@.len() - p,
        {
            p = p + 1;
        }
        proof {
            lemma_insert_by_at(int_views(sorted@), x as int, less, p as int);
            assert(x as int == orig[k]);
            assert(orig.take(k + 1).drop_last() =~= orig.take(k));
            assert(orig.take(k + 1).last() == x as int);
            assert(int_views(rest@) =~= orig.skip(k + 1));
        }
        let ghost before = int_views(sorted@);
        let ghost sb = sorted@;
        sorted.insert(p, x);
        proof {
            assert(int_views(sorted@) =~= before.take(p as int) + seq![x as int] + before.skip(p as int));
            assert forall|j: int| 0 <= j < sorted@.len() implies sorted@[j] < ms@.len() by {
                if j < p {
                    assert(sorted@[j] == sb[j]);
                } else if j > p {
                    assert(sorted@[j] == sb[j - 1]);
                }
            }
            k = k + 1;
        }
    }
    proof {
        assert(orig.take(orig.len() as int) =~= orig);
    }
    sorted
}

/// Appends the canonical text of `v`.
pub fn write_canonical(v: &JsonValue, out: &mut Vec<char>)
    ensures
        final(out)@ == old(out)@ + canonical(*v),
    decreases v,
{
    match v {
        JsonValue::Null => {
            out.push('n');
            out.push('u');
            out.push('l');
            out.push('l');
        },
        JsonValue::Bool(b) => {
            if *b {
                out.push('t');
                out.push('r');
                out.push('u');
                out.push('e');
            } else {
                out.push('f');
                out.push('a');
                out.push('l');
                out.push('s');
                out.push('e');
            }
        },
        JsonValue::Number(t) => {
            let cs = chars_of(t.as_str());
            push_all(cs.as_slice(), out);
        },
        JsonValue::Str(s) => {
            push_quoted(s.as_str(), out);
        },
        JsonValue::Array(items) => {
            out.push('[');
            let ghost start = out@;
            let n = items.len();
            let mut i: usize = 0;
            while i < n
                invariant
                    n == items@.len(),
                    *v == JsonValue::Array(*items),
                    i <= n,
                    out@ == start + canonical_items(items@.take(i as int)),
                decreases n - i,
            {
                proof {
                    lemma_items_step(items@, i as int);
                }
                if i > 0 {
                    out.push(',');
                }
                proof {
                    assert(decreases_to!(*v => (*v)->Array_0));
                    assert(decreases_to!(*items => items@));
                    assert(decreases_to!(items@ => items@[i as int]));
                }
                write_canonical(&items[i], out);
                i = i + 1;
                proof {
                    assert(out@ =~= start + canonical_items(items@.take(i as int)));
                }
            }
            assert(items@.take(n as int) =~= items@);
            out.push(']');
        },
        JsonValue::Object(members) => {
            out.push('{');
            let ghost start = out@;
            let n = members.len();
            let mut ps: Vec<usize> = Vec::new();
            let mut i: usize = 0;
            while i < n
                invariant
                    n == members@.len(),
                    i <= n,
                    int_views(ps@) == all_positions(i as nat),
                    forall|j: int| 0 <= j < ps@.len() ==> ps@[j] < n,
                decreases n - i,
            {
                let ghost before = ps@;
                ps.push(i);
                proof {
                    assert(ps@ == before.push(i));
                    assert(int_views(ps@) =~= int_views(before).push(i as int));
                    assert(all_positions((i + 1) as nat) =~= all_positions(i as nat).push(i as int));
                }
                i = i + 1;
            }
            let order = sort_positions(members, ps);
            let ghost ord = int_views(order@);
            let m = order.len();
            let mut k: usize = 0;
            while k < m
                invariant
                    m == order@.len(),
                    ord == int_views(order@),
                    *v == JsonValue::Object(*members),
                    forall|j: int| 0 <= j < order@.len() ==> order@[j] < members@.len(),
                    k <= m,
                    out@ == start + ordered_members(members@, ord, k as int),
                decreases m - k,
            {
                let j = order[k];
                proof {
                    lemma_ordered_step(members@, ord, k as int);
                }
                if k > 0 {
                    out.push(',');
                }
                push_quoted(members[j].key.as_str(), out);
                out.push(':');
                proof {
                    assert(decreases_to!(*v => (*v)->Object_0));
                    assert(decreases_to!(*members => members@));
                    assert(decreases_to!(members@ => members@[j as int]));
                    assert(decreases_to!(members@[j as int] => members@[j as int].value));
                }
                write_canonical(&members[j].value, out);
                k = k + 1;
                proof {
                    assert(out@ =~= start + ordered_members(members@, ord, k as int));
                }
            }
            out.push('}');
        },
    }
}

pub open spec fn str_views(s: Seq<&str>) -> Seq<Seq<char>> {
    Seq::new(s.len(), |i: int| s[i]@)
}

/// The positions of the members whose keys are not in `omit`, in order.
pub open spec fn kept_positions(members: Seq<JsonMember>, omit: Seq<Seq<char>>) -> Seq<int>
    decreases members.len(),
{
    if members.len() == 0 {
        Seq::empty()
    } else {
        let p = kept_positions(members.drop_last(), omit);
        if omit.contains(members.last().key@) {
            p
        } else {
            p.push(members.len() - 1)
        }
    }
}

/// Canonical text of a document with the named top-level keys removed; a
/// document that is not an object is unchanged.
pub open spec fn omitting_text(v: JsonValue, omit: Seq<Seq<char>>) -> Seq<char> {
    match v {
        JsonValue::Object(members) => seq!['{'] + ordered_members(
            members@,
            key_order(members@, kept_positions(members@, omit)),
            key_order(members@, kept_positions(members@, omit)).len() as int,
        ) + seq!['}'],
        _ => canonical(v),
    }
}

fn omitted(key: &str, omit: &[&str]) -> (r: bool)
    ensures
        r == str_views(omit@).contains(key@),
{
    let mut i: usize = 0;
    while i < omit.len()
        invariant
            i <= omit@.len(),
            forall|k: int| 0 <= k < i ==> omit@[k]@ != key@,
        decreases omit@.len() - i,
    {
        if crate::text::str_eq(omit[i], key) {
            assert(str_views(omit@)[i as int] == key@);
            return true;
        }
        i = i + 1;
    }
    assert forall|k: int| 0 <= k < str_views(omit@).len() implies str_views(omit@)[k] != key@ by {
        assert(str_views(omit@)[k] == omit@[k]@);
    }
    false
}

/// The canonical text of `value` with the top-level keys in `omit` removed.
pub fn canonical_text_omitting(value: &JsonValue, omit: &[&str]) -> (r: Vec<char>)
    ensures
        r@ == omitting_text(*value, str_views(omit@)),
{
    let mut out: Vec<char> = Vec::new();
    match value {
        JsonValue::Object(members) => {
            out.push('{');
            let ghost start = out@;
            let ghost om = str_views(omit@);
            let n = members.len();
            let mut ps: Vec<usize> = Vec::new();
            let mut i: usize = 0;
            while i < n
                invariant
                    n == members@.len(),
                    i <= n,
                    om == str_views(omit@),
                    int_views(ps@) == kept_positions(members@.take(i as int), om),
                    forall|j: int| 0 <= j < ps@.len() ==> ps@[j] < n,
                decreases n - i,
            {
                proof {
                    let t = members@.take(i + 1);
                    assert(t.drop_last() =~= members@.take(i as int));
                    assert(t.last() == members@[i as int]);
                }
                if !omitted(members[i].key.as_str(), omit) {
                    let ghost before = ps@;
                    ps.push(i);
                    proof {
                        assert(ps@ == before.push(i));
                        assert(int_views(ps@) =~= int_views(before).push(i as int));
                    }
                }
                i = i + 1;
            }
            assert(members@.take(n as int) =~= members@);
            let order = sort_positions(members, ps);
            let ghost ord = int_views(order@);
            let m = order.len();
            let mut k: usize = 0;
            while k < m
                invariant
                    m == order@.len(),
                    ord == int_views(order@),
                    forall|j: int| 0 <= j < order@.len() ==> order@[j] < members@.len(),
                    k <= m,
                    out@ == start + ordered_members(members@, ord, k as int),
                decreases m - k,
            {
                let j = order[k];
                proof {
                    lemma_ordered_step(members@, ord, k as int);
                }
                if k > 0 {
                    out.push(',');
                }
                push_quoted(members[j].key.as_str(), &mut out);
                out.push(':');
                write_canonical(&members[j].value, &mut out);
                k = k + 1;
                proof {
                    assert(out@ =~= start + ordered_members(members@, ord, k as int));
                }
            }
            out.push('}');
        },
        _ => {
            write_canonical(value, &mut out);
            assert(out@ =~= canonical(*value));
        },
    }
    out
}

/// Canonical bytes of a value with the named top-level keys removed: how a
/// record is signed without its own `sig`, and hashed without `hash`/`sig`.
pub fn canonical_omitting(value: &JsonValue, omit: &[&str]) -> (r: Vec<u8>)
    ensures
        r@ == utf8(omitting_text(*value, str_views(omit@))),
{
    let text = canonical_text_omitting(value, omit);
    utf8_bytes(text.as_slice())
}

/// Canonical bytes of a value: compact UTF-8 JSON.
pub fn canonical_bytes_of(value: &JsonValue) -> (r: Vec<u8>)
    ensures
        r@ == canonical_bytes(*value),
{
    let mut out: Vec<char> = Vec::new();
    write_canonical(value, &mut out);
    assert(out@ =~= canonical(*value));
    utf8_bytes(out.as_slice())
}

/// Parts joined by commas.
pub open spec fn comma_join(parts: Seq<Seq<char>>) -> Seq<char>
    decreases parts.len(),
{
    if parts.len() == 0 {
        Seq::empty()
    } else if parts.len() == 1 {
        parts[0]
    } else {
        comma_join(parts.drop_last()) + seq![','] + parts.last()
    }
}

/// `"key":value`.
pub open spec fn member_text(key: Seq<char>, value: Seq<char>) -> Seq<char> {
    quoted(key) + seq![':'] + value
}

/// An object from member texts already in key order.
pub open spec fn object_text(members: Seq<Seq<char>>) -> Seq<char> {
    seq!['{'] + comma_join(members) + seq!['}']
}

/// A JSON array of strings.
pub open spec fn string_list_text(items: Seq<Seq<char>>) -> Seq<char> {
    seq!['['] + comma_join(Seq::new(items.len(), |i: int| quoted(items[i]))) + seq![']']
}

pub open spec fn char_views(v: Seq<Vec<char>>) -> Seq<Seq<char>> {
    Seq::new(v.len(), |i: int| v[i]@)
}

/// `"key":value` from a key and the value's text.
pub fn member_chars(key: &str, value: &[char]) -> (r: Vec<char>)
    ensures
        r@ == member_text(key@, value@),
{
    let mut out: Vec<char> = Vec::new();
    push_quoted(key, &mut out);
    out.push(':');
    push_all(value, &mut out);
    assert(out@ =~= member_text(key@, value@));
    out
}

/// The JSON string literal of `s`.
pub fn quoted_chars(s: &str) -> (r: Vec<char>)
    ensures
        r@ == quoted(s@),
{
    let mut out: Vec<char> = Vec::new();
    push_quoted(s, &mut out);
    assert(out@ =~= quoted(s@));
    out
}

/// Appends comma-joined parts.
fn push_joined(parts: &Vec<Vec<char>>, out: &mut Vec<char>)
    ensures
        final(out)@ == old(out)@ + comma_join(char_views(parts@)),
{
    let ghost start = out@;
    let mut i: usize = 0;
    while i < parts.len()
        invariant
            i <= parts@.len(),
            out@ == start + comma_join(char_views(parts@).take(i as int)),
        decreases parts@.len() - i,
    {
        proof {
            let t = char_views(parts@).take(i + 1);
            assert(t.drop_last() =~= char_views(parts@).take(i as int));
            assert(t.last() == parts@[i as int]@);
            if i == 0 {
                assert(t.len() == 1);
            }
        }
        if i > 0 {
            out.push(',');
        }
        push_all(parts[i].as_slice(), out);
        i = i + 1;
        proof {
            assert(out@ =~= start + comma_join(char_views(parts@).take(i as int)));
        }
    }
    assert(char_views(parts@).take(parts@.len() as int) =~= char_views(parts@));
}

/// `{` member texts joined by commas `}`.
pub fn object_chars(members: &Vec<Vec<char>>) -> (r: Vec<char>)
    ensures
        r@ == object_text(char_views(members@)),
{
    let mut out: Vec<char> = Vec::new();
    out.push('{');
    push_joined(members, &mut out);
    out.push('}');
    assert(out@ =~= object_text(char_views(members@)));
    out
}

/// The JSON array of the given strings.
pub fn string_list_chars(items: &[String]) -> (r: Vec<char>)
    ensures
        r@ == string_list_text(crate::lists::views(items@)),
{
    let mut parts: Vec<Vec<char>> = Vec::new();
    let mut i: usize = 0;
    while i < items.len()
        invariant
            i <= items@.len(),
            parts@.len() == i,
            forall|k: int| 0 <= k < i ==> #[trigger] parts@[k]@ == quoted(items@[k]@),
        decreases items@.len() - i,
    {
        parts.push(quoted_chars(items[i].as_str()));
        i = i + 1;
    }
    let ghost vs = crate::lists::views(items@);
    assert(char_views(parts@) =~= Seq::new(vs.len(), |k: int| quoted(vs[k])));
    let mut out: Vec<char> = Vec::new();
    out.push('[');
    push_joined(&parts, &mut out);
    out.push(']');
    assert(out@ =~= string_list_text(vs));
    out
}


/// Ordering members by key is a strict weak order.
proof fn lemma_key_less_order(ms: Seq<JsonMember>)
    ensures
        strict_weak_order(key_less(ms)),
{
    let less = key_less(ms);
    assert forall|a: int| !#[trigger] less(a, a) by {
        lemma_seq_less_irreflexive(ms[a].key@);
    }
    assert forall|a: int, b: int, c: int| #[trigger] less(a, b) && #[trigger] less(b, c) implies less(a, c) by {
        lemma_seq_less_transitive(ms[a].key@, ms[b].key@, ms[c].key@);
    }
    assert forall|a: int, b: int, c: int| !#[trigger] less(a, b) && !#[trigger] less(b, c) implies !less(a, c) by {
        let (x, y, z) = (ms[a].key@, ms[b].key@, ms[c].key@);
        lemma_seq_less_total(x, y);
        lemma_seq_less_total(y, z);
        lemma_seq_less_transitive(z, y, x);
        lemma_seq_less_asymmetric(x, z);
        lemma_seq_less_asymmetric(z, x);
    }
}

/// Canonical text writes an object's members in key order: the order holds
/// one position per member, and no member is written after one whose key
/// sorts after its own.
pub proof fn lemma_canonical_key_order(ms: Seq<JsonMember>)
    ensures
        sorted_by(key_order(ms, all_positions(ms.len())), key_less(ms)),
        key_order(ms, all_positions(ms.len())).len() == ms.len(),
        forall|i: int, j: int| 0 <= i < j < key_order(ms, all_positions(ms.len())).len() ==> !seq_less(
            ms[#[trigger] key_order(ms, all_positions(ms.len()))[j]].key@,
            ms[#[trigger] key_order(ms, all_positions(ms.len()))[i]].key@,
        ),
{
    lemma_key_less_order(ms);
    lemma_sort_by_sorted(all_positions(ms.len()), key_less(ms));
}

} // verus!
