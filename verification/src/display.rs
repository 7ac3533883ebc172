//! Text shown for messages: whitespace-collapsed previews cut to a width,
//! and the case-insensitive search match.

use vstd::prelude::*;
use crate::hex::{byte_len, byte_len_of};
use crate::records::Message;
use crate::text::{char_is_whitespace, chars_of, is_whitespace, split_on, string_of};

verus! {

/// The words of `s` (maximal runs of non-whitespace) joined by single
/// spaces, built up character by character.
pub open spec fn collapse_ws(s: Seq<char>) -> Seq<char>
    decreases s.len(),
{
    if s.len() == 0 {
        Seq::empty()
    } else {
        let p = collapse_ws(s.drop_last());
        let c = s.last();
        if is_whitespace(c) {
            p
        } else if s.len() >= 2 && is_whitespace(s[s.len() - 2]) && p.len() > 0 {
            p.push(' ').push(c)
        } else {
            p.push(c)
        }
    }
}

/// The number of leading characters of `s` whose UTF-8 encoding fits in
/// `n` bytes.
pub open spec fn chars_within(s: Seq<char>, n: nat) -> nat
    decreases s.len(),
{
    if byte_len(s) <= n {
        s.len()
    } else {
        chars_within(s.drop_last(), n)
    }
}

/// A one-line preview: whitespace collapsed, and when longer than `width`
/// bytes, cut at a character boundary to leave room for `...` (or simply
/// cut, when `width` is 3 or less).
pub open spec fn preview(body: Seq<char>, width: nat) -> Seq<char> {
    let c = collapse_ws(body);
    if byte_len(c) > width {
        if width <= 3 {
            c.take(chars_within(c, width) as int)
        } else {
            c.take(chars_within(c, (width - 3) as nat) as int) + "..."@
        }
    } else {
        c
    }
}

proof fn lemma_byte_len_step(s: Seq<char>, i: int)
    requires
        0 <= i < s.len(),
    ensures
        byte_len(s.take(i + 1)) == byte_len(s.take(i)) + crate::hex::utf8_len(s[i]),
{
    assert(s.take(i + 1).drop_last() =~= s.take(i));
}

proof fn lemma_chars_within_take(s: Seq<char>, n: nat, k: int)
    requires
        0 <= k <= s.len(),
        byte_len(s.take(k)) <= n,
        k == s.len() || byte_len(s.take(k + 1)) > n,
    ensures
        chars_within(s, n) == k,
    decreases s.len(),
{
    if k == s.len() {
        assert(s.take(k) =~= s);
    } else {
        lemma_byte_len_monotone(s, k + 1, s.len() as int);
        assert(s.take(s.len() as int) =~= s);
        assert(s.drop_last().take(k) =~= s.take(k));
        if k + 1 <= s.drop_last().len() {
            assert(s.drop_last().take(k + 1) =~= s.take(k + 1));
        }
        lemma_chars_within_take(s.drop_last(), n, k);
    }
}

proof fn lemma_byte_len_monotone(s: Seq<char>, a: int, b: int)
    requires
        0 <= a <= b <= s.len(),
    ensures
        byte_len(s.take(a)) <= byte_len(s.take(b)),
    decreases b - a,
{
    if a < b {
        lemma_byte_len_step(s, b - 1);
        lemma_byte_len_monotone(s, a, b - 1);
    }
}

fn collapse_chars(s: &[char]) -> (r: Vec<char>)
    ensures
        r@ == collapse_ws(s@),
{
    let mut out: Vec<char> = Vec::new();
    let mut i: usize = 0;
    while i < s.len()
        invariant
            i <= s@.len(),
            out@ == collapse_ws(s@.take(i as int)),
        decreases s@.len() - i,
    {
        proof {
            let t = s@.take(i + 1);
            assert(t.drop_last() =~= s@.take(i as int));
            assert(t.last() == s@[i as int]);
            if i >= 1 {
                assert(t[t.len() - 2] == s@[i - 1]);
            }
        }
        let c = s[i];
        if !char_is_whitespace(c) {
            if i >= 1 && char_is_whitespace(s[i - 1]) && out.len() > 0 {
                out.push(' ');
            }
            out.push(c);
        }
        i = i + 1;
    }
    assert(s@.take(s@.len() as int) =~= s@);
    out
}

/// The longest prefix of `c` that fits in `n` bytes.
fn prefix_within(c: &Vec<char>, n: u128) -> (r: Vec<char>)
    ensures
        r@ == c@.take(chars_within(c@, n as nat) as int),
{
    let mut out: Vec<char> = Vec::new();
    let mut used: u128 = 0;
    let mut i: usize = 0;
    while i < c.len()
        invariant
            i <= c@.len(),
            used == byte_len(c@.take(i as int)),
            used <= n,
            used <= 4 * i,
            out@ == c@.take(i as int),
        decreases c@.len() - i,
    {
        proof {
            lemma_byte_len_step(c@, i as int);
        }
        let w: u128 = if (c[i] as u32) < 0x80 { 1 } else if (c[i] as u32) < 0x800 { 2 } else if (c[i] as u32) < 0x10000 { 3 } else { 4 };
        if used + w > n {
            proof {
                lemma_chars_within_take(c@, n as nat, i as int);
            }
            return out;
        }
        used = used + w;
        out.push(c[i]);
        i = i + 1;
        assert(out@ =~= c@.take(i as int));
    }
    proof {
        lemma_chars_within_take(c@, n as nat, i as int);
    }
    out
}

proof fn lemma_collapse_len(s: Seq<char>)
    ensures
        collapse_ws(s).len() <= 2 * s.len(),
    decreases s.len(),
{
    if s.len() > 0 {
        lemma_collapse_len(s.drop_last());
    }
}

/// A whitespace-collapsed preview of `body`, at most `width` bytes plus an
/// ellipsis.
pub fn truncated_body(body: &str, width: usize) -> (r: String)
    ensures
        r@ == preview(body@, width as nat),
{
    let s = chars_of(body);
    let c = collapse_chars(s.as_slice());
    proof {
        lemma_collapse_len(s@);
    }
    let len = byte_len_of(c.as_slice());
    if len > width as u128 {
        if width <= 3 {
            let p = prefix_within(&c, width as u128);
            return string_of(p.as_slice());
        }
        let mut p = prefix_within(&c, (width - 3) as u128);
        p.push('.');
        p.push('.');
        p.push('.');
        proof {
            reveal_strlit("...");
            assert(p@ =~= c@.take(chars_within(c@, (width - 3) as nat) as int) + "..."@);
        }
        return string_of(p.as_slice());
    }
    string_of(c.as_slice())
}

/// The lowercase form of a text under Unicode's case mapping.
pub uninterp spec fn unicode_lowercase(s: Seq<char>) -> Seq<char>;

/// `str::to_lowercase`.
#[verifier::external_body]
pub(crate) fn lowercase(s: &str) -> (r: String)
    ensures
        r@ == unicode_lowercase(s@),
{
    s.to_lowercase()
}

/// Whether `pattern` occurs in `s`.
pub open spec fn contains_seq(s: Seq<char>, pattern: Seq<char>) -> bool {
    exists|i: int| 0 <= i && i + pattern.len() <= s.len() && #[trigger] s.subrange(i, i + pattern.len()) == pattern
}

fn matches_at(s: &[char], p: &[char], i: usize) -> (r: bool)
    requires
        i + p@.len() <= s@.len(),
    ensures
        r == (s@.subrange(i as int, i + p@.len()) == p@),
{
    let n = p.len();
    let sl = s.len();
    let mut j: usize = 0;
    while j < n
        invariant
            n == p@.len(),
            sl == s@.len(),
            i + n <= s@.len(),
            j <= n,
            forall|m: int| 0 <= m < j ==> s@[i + m] == p@[m],
        decreases n - j,
    {
        if s[i + j] != p[j] {
            assert(s@.subrange(i as int, i + p@.len())[j as int] != p@[j as int]);
            return false;
        }
        j = j + 1;
    }
    assert(s@.subrange(i as int, i + p@.len()) =~= p@);
    true
}

fn contains_chars(s: &[char], p: &[char]) -> (r: bool)
    ensures
        r == contains_seq(s@, p@),
{
    let n = s.len();
    if p.len() > n {
        return false;
    }
    let last = n - p.len();
    let mut i: usize = 0;
    while i <= last
        invariant
            n == s@.len(),
            p@.len() <= n,
            last == n - p@.len(),
            i <= last + 1,
            forall|k: int| 0 <= k < i ==> #[trigger] s@.subrange(k, k + p@.len()) != p@,
        decreases last + 1 - i,
    {
        if matches_at(s, p, i) {
            return true;
        }
        if i == last {
            proof {
                assert forall|k: int| 0 <= k && k + p@.len() <= s@.len() implies #[trigger] s@.subrange(k, k + p@.len()) != p@ by {
                    assert(k <= last);
                }
            }
            return false;
        }
        i = i + 1;
    }
    false
}

/// The text a search looks in: id, conversation, sender, subject and body on
/// separate lines.
pub open spec fn search_text(m: Message) -> Seq<char> {
    m.id@ + "\n"@ + m.conversation_id@ + "\n"@ + m.from@ + "\n"@ + m.subject@ + "\n"@ + m.body@
}

/// Splitting a text with no separator in it gives the text itself.
proof fn lemma_split_plain(x: Seq<char>, c: char)
    requires
        !x.contains(c),
    ensures
        split_on(x, c) == seq![x],
    decreases x.len(),
{
    if x.len() > 0 {
        let d = x.drop_last();
        assert(!d.contains(c)) by {
            if d.contains(c) {
                let k = choose|k: int| 0 <= k < d.len() && d[k] == c;
                assert(x[k] == c);
            }
        }
        lemma_split_plain(d, c);
        assert(x.last() == x[x.len() - 1]);
        assert(x.last() != c);
        assert(d.push(x.last()) =~= x);
        assert(seq![d].update(0, d.push(x.last())) =~= seq![x]);
    } else {
        assert(x =~= Seq::<char>::empty());
    }
}

/// Splitting at a separator splits each side on its own.
proof fn lemma_split_join(x: Seq<char>, c: char, y: Seq<char>)
    ensures
        split_on(x + seq![c] + y, c) == split_on(x, c) + split_on(y, c),
    decreases y.len(),
{
    let xc = x + seq![c];
    if y.len() == 0 {
        assert(xc + y =~= xc);
        assert(xc.drop_last() =~= x);
    } else {
        let y0 = y.drop_last();
        lemma_split_join(x, c, y0);
        assert((xc + y).drop_last() =~= xc + y0);
        assert((xc + y).last() == y.last());
        lemma_split_nonempty(y0, c);
        lemma_split_nonempty(x, c);
        let a = split_on(x, c);
        let b = split_on(y0, c);
        if y.last() != c {
            assert((a + b).update((a + b).len() - 1, (a + b).last().push(y.last())) =~= a + b.update(b.len() - 1,
                b.last().push(y.last())));
        } else {
            assert((a + b).push(Seq::empty()) =~= a + b.push(Seq::empty()));
        }
    }
}

proof fn lemma_split_nonempty(x: Seq<char>, c: char)
    ensures
        split_on(x, c).len() >= 1,
    decreases x.len(),
{
    if x.len() > 0 {
        lemma_split_nonempty(x.drop_last(), c);
    }
}

/// The searched text holds a message's id, conversation, sender, subject and
/// body, one per line: split at line breaks it gives back exactly those five
/// fields, in that order, when none of them holds a line break.
pub proof fn lemma_search_text_fields(m: Message)
    requires
        !m.id@.contains('\n'),
        !m.conversation_id@.contains('\n'),
        !m.from@.contains('\n'),
        !m.subject@.contains('\n'),
    ensures
        split_on(search_text(m), '\n') == seq![m.id@, m.conversation_id@, m.from@, m.subject@] + split_on(m.body@, '\n'),
        !m.body@.contains('\n') ==> split_on(search_text(m), '\n') == seq![m.id@, m.conversation_id@, m.from@, m.subject@,
            m.body@],
{
    reveal_strlit("\n");
    let nl = seq!['\n'];
    assert("\n"@ =~= nl);
    let a = m.id@ + nl + m.conversation_id@ + nl + m.from@ + nl + m.subject@;
    assert(search_text(m) =~= a + nl + m.body@);
    lemma_split_join(a, '\n', m.body@);
    let b = m.id@ + nl + m.conversation_id@ + nl + m.from@;
    assert(a =~= b + nl + m.subject@);
    lemma_split_join(b, '\n', m.subject@);
    let d = m.id@ + nl + m.conversation_id@;
    assert(b =~= d + nl + m.from@);
    lemma_split_join(d, '\n', m.from@);
    lemma_split_join(m.id@, '\n', m.conversation_id@);
    lemma_split_plain(m.id@, '\n');
    lemma_split_plain(m.conversation_id@, '\n');
    lemma_split_plain(m.from@, '\n');
    lemma_split_plain(m.subject@, '\n');
    if !m.body@.contains('\n') {
        lemma_split_plain(m.body@, '\n');
    }
    assert(seq![m.id@] + seq![m.conversation_id@] + seq![m.from@] + seq![m.subject@] =~= seq![m.id@, m.conversation_id@,
        m.from@, m.subject@]);
    assert(seq![m.id@, m.conversation_id@, m.from@, m.subject@] + seq![m.body@] =~= seq![m.id@, m.conversation_id@, m.from@,
        m.subject@, m.body@]);
}

/// Whether the lowercased search text of `message` contains `pattern`
/// (already lowercased by the caller).
pub fn message_matches_pattern(message: &Message, pattern: &str) -> (r: bool)
    ensures
        r == contains_seq(unicode_lowercase(search_text(*message)), pattern@),
        !message.id@.contains('\n') && !message.conversation_id@.contains('\n') && !message.from@.contains('\n')
            && !message.subject@.contains('\n') ==> split_on(search_text(*message), '\n') == seq![
            message.id@,
            message.conversation_id@,
            message.from@,
            message.subject@,
        ] + split_on(message.body@, '\n'),
{
    proof {
        if !message.id@.contains('\n') && !message.conversation_id@.contains('\n') && !message.from@.contains('\n')
            && !message.subject@.contains('\n') {
            lemma_search_text_fields(*message);
        }
    }
    let mut hay = message.id.clone();
    hay.append("\n");
    hay.append(message.conversation_id.as_str());
    hay.append("\n");
    hay.append(message.from.as_str());
    hay.append("\n");
    hay.append(message.subject.as_str());
    hay.append("\n");
    hay.append(message.body.as_str());
    let low = lowercase(hay.as_str());
    let hc = chars_of(low.as_str());
    let pc = chars_of(pattern);
    contains_chars(hc.as_slice(), pc.as_slice())
}

} // verus!
