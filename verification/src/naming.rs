use vstd::prelude::*;
use crate::lists::views;
use crate::text::{char_is_ascii_alnum, chars_of, string_of, is_ascii_alnum};
use vstd::string::StringSliceAdditionalSpecFns;
use crate::crypto::{sha256_digest, sha256_hex};
use crate::hex::{hex_of, lemma_hex_of_ascii, lemma_hex_of_byte_len};
use crate::json::{utf8, utf8_bytes};
use crate::sets::{lemma_sorted_of, sorted_of, sorted_set_of, sorted_strict};

verus! {

/// `char::to_ascii_lowercase`.
pub open spec fn ascii_lower(c: char) -> char {
    if 'A' <= c && c <= 'Z' {
        ((c as u32) + 32) as char
    } else {
        c
    }
}

pub(crate) fn to_ascii_lower(c: char) -> (r: char)
    ensures
        r == ascii_lower(c),
{
    if 'A' <= c && c <= 'Z' {
        let b = (c as u8) + 32;
        (b as char)
    } else {
        c
    }
}

/// Slug state after a prefix: the slug so far and whether it ends in a dash
/// that was just emitted.
pub open spec fn slug_state(s: Seq<char>) -> (Seq<char>, bool)
    decreases s.len(),
{
    if s.len() == 0 {
        (Seq::empty(), false)
    } else {
        let (slug, dash) = slug_state(s.drop_last());
        let c = s.last();
        if is_ascii_alnum(c) {
            (slug.push(ascii_lower(c)), false)
        } else if !dash && slug.len() > 0 {
            (slug.push('-'), true)
        } else {
            (slug, dash)
        }
    }
}

/// Drops every trailing occurrence of `c`.
pub open spec fn strip_trailing(s: Seq<char>, c: char) -> Seq<char>
    decreases s.len(),
{
    if s.len() > 0 && s.last() == c {
        strip_trailing(s.drop_last(), c)
    } else {
        s
    }
}

/// A lowercase, dash-separated slug of the ASCII letters and digits of `s`.
pub open spec fn slugify(s: Seq<char>) -> Seq<char> {
    strip_trailing(slug_state(s).0, '-')
}

fn pop_trailing(v: &mut Vec<char>, c: char)
    ensures
        final(v)@ == strip_trailing(old(v)@, c),
{
    while v.len() > 0 && v[v.len() - 1] == c
        invariant
            strip_trailing(v@, c) == strip_trailing(old(v)@, c),
        decreases v@.len(),
    {
        let ghost before = v@;
        v.pop();
        assert(v@ =~= before.drop_last());
    }
}

/// Lowercase dash-separated slug of the ASCII alphanumerics in `value`.
pub fn slugify_id_segment(value: &str) -> (r: String)
    ensures
        r@ == slugify(value@),
{
    let s = chars_of(value);
    let mut slug: Vec<char> = Vec::new();
    let mut previous_dash = false;
    let mut i: usize = 0;
    while i < s.len()
        invariant
            i <= s@.len(),
            (slug@, previous_dash) == slug_state(s@.take(i as int)),
        decreases s@.len() - i,
    {
        assert(s@.take(i + 1).drop_last() =~= s@.take(i as int));
        let c = s[i];
        if char_is_ascii_alnum(c) {
            slug.push(to_ascii_lower(c));
            previous_dash = false;
        } else if !previous_dash && slug.len() > 0 {
            slug.push('-');
            previous_dash = true;
        }
        i = i + 1;
    }
    assert(s@.take(s@.len() as int) =~= s@);
    pop_trailing(&mut slug, '-');
    string_of(slug.as_slice())
}

/// Parts joined with a separator.
pub open spec fn join(parts: Seq<Seq<char>>, sep: Seq<char>) -> Seq<char>
    decreases parts.len(),
{
    if parts.len() == 0 {
        Seq::empty()
    } else if parts.len() == 1 {
        parts[0]
    } else {
        join(parts.drop_last(), sep) + sep + parts.last()
    }
}

/// Joins strings with a separator.
pub fn join_strings(parts: &[String], sep: &str) -> (r: String)
    ensures
        r@ == join(views(parts@), sep@),
{
    let mut out = String::new();
    let mut i: usize = 0;
    while i < parts.len()
        invariant
            i <= parts@.len(),
            out@ == join(views(parts@).take(i as int), sep@),
        decreases parts@.len() - i,
    {
        assert(views(parts@).take(i + 1).drop_last() =~= views(parts@).take(i as int));
        if i > 0 {
            out.append(sep);
        }
        out.append(parts[i].as_str());
        i = i + 1;
    }
    assert(views(parts@).take(parts@.len() as int) =~= views(parts@));
    out
}

/// Drops trailing `-`, `.` and `_` characters.
pub open spec fn strip_id_punct(s: Seq<char>) -> Seq<char>
    decreases s.len(),
{
    if s.len() > 0 && (s.last() == '-' || s.last() == '.' || s.last() == '_') {
        strip_id_punct(s.drop_last())
    } else {
        s
    }
}

/// The id a new private chat gets: `p-[topic-slug-]a-b-c`, cut to leave room
/// for `-` and the unique `suffix` within 80 characters.
pub open spec fn private_conversation_id(
    participants: Seq<Seq<char>>,
    topic: Seq<char>,
    suffix: Seq<char>,
    suffix_bytes: nat,
) -> Seq<char> {
    let topic_slug = slugify(topic);
    let n = if participants.len() < 3 { participants.len() } else { 3 };
    let participant_slug = join(participants.take(n as int), "-"@);
    let base = if topic_slug.len() == 0 {
        "p-"@ + participant_slug
    } else {
        "p-"@ + topic_slug + "-"@ + participant_slug
    };
    let max_base = if suffix_bytes <= 79 { 79 - suffix_bytes } else { 0 };
    let cut = if max_base < base.len() { base.take(max_base) } else { base };
    let trimmed = strip_id_punct(cut);
    let trimmed = if trimmed.len() == 0 { seq!['p'] } else { trimmed };
    trimmed + "-"@ + suffix
}

/// A fresh private-chat id from its participants, topic and a unique suffix.
pub fn generated_private_conversation_id(participants: &[String], topic: &str, suffix: &str) -> (r: String)
    ensures
        r@ == private_conversation_id(views(participants@), topic@, suffix@, suffix.len() as nat),
{
    let topic_slug = slugify_id_segment(topic);
    let n: usize = if participants.len() < 3 { participants.len() } else { 3 };
    let mut firsts: Vec<String> = Vec::new();
    let mut i: usize = 0;
    while i < n
        invariant
            n <= participants@.len(),
            i <= n,
            views(firsts@) =~= views(participants@).take(i as int),
        decreases n - i,
    {
        let item = participants[i].clone();
        assert(item@ == participants@[i as int]@);
        let ghost prev = views(firsts@);
        firsts.push(item);
        assert(views(firsts@) =~= prev.push(item@));
        assert(views(participants@).take(i + 1) =~= views(participants@).take(i as int).push(item@));
        i = i + 1;
    }
    assert(views(firsts@) =~= views(participants@).take(n as int));
    let participant_slug = join_strings(firsts.as_slice(), "-");
    let mut base = String::from_str("p-");
    if topic_slug.as_str().unicode_len() > 0 {
        base.append(topic_slug.as_str());
        base.append("-");
    }
    base.append(participant_slug.as_str());
    let suffix_len = suffix.len();
    let max_base: usize = if suffix_len <= 79 { 79 - suffix_len } else { 0 };
    let base_chars = chars_of(base.as_str());
    let mut trimmed: Vec<char> = Vec::new();
    let mut k: usize = 0;
    while k < base_chars.len() && k < max_base
        invariant
            k <= base_chars@.len(),
            k <= max_base,
            trimmed@ =~= base_chars@.take(k as int),
        decreases base_chars@.len() - k,
    {
        trimmed.push(base_chars[k]);
        k = k + 1;
    }
    while trimmed.len() > 0 && (trimmed[trimmed.len() - 1] == '-' || trimmed[trimmed.len() - 1] == '.'
        || trimmed[trimmed.len() - 1] == '_')
        invariant
            strip_id_punct(trimmed@) == strip_id_punct(base_chars@.take(k as int)),
        decreases trimmed@.len(),
    {
        let ghost before = trimmed@;
        trimmed.pop();
        assert(trimmed@ =~= before.drop_last());
    }
    if trimmed.len() == 0 {
        trimmed.push('p');
    }
    let mut out = string_of(trimmed.as_slice());
    out.append("-");
    out.append(suffix);
    proof {
        let ts = slugify(topic@);
        let b = if ts.len() == 0 {
            "p-"@ + join(views(participants@).take(n as int), "-"@)
        } else {
            "p-"@ + ts + "-"@ + join(views(participants@).take(n as int), "-"@)
        };
        assert(base_chars@ =~= b);
        if max_base < b.len() {
            assert(k == max_base);
        } else {
            assert(base_chars@.take(k as int) =~= b);
        }
    }
    out
}

/// The 8 hex digits that tell apart derived private-chat ids sharing their
/// readable part: a hash of the sorted participants and the topic.
pub open spec fn derived_suffix(sorted: Seq<Seq<char>>, topic: Seq<char>) -> Seq<char> {
    hex_of(sha256_digest(utf8(join(sorted, ","@) + "|"@ + topic))).take(8)
}

/// The id a private chat between a set of participants on a topic derives:
/// a function of the set and the topic alone.
pub open spec fn derived_private_id(participants: Set<Seq<char>>, topic: Seq<char>) -> Seq<char> {
    let sorted = sorted_of(participants);
    private_conversation_id(sorted, topic, derived_suffix(sorted, topic), 8)
}

/// The id a private chat derives from its participants and topic: whoever
/// opens it and in whatever order the participants are named, the same
/// membership and topic give the same id.
pub fn derived_private_conversation_id(participants: &[String], topic: &str) -> (r: String)
    ensures
        r@ == derived_private_id(views(participants@).to_set(), topic@),
{
    let sorted = sorted_set_of(participants);
    proof {
        lemma_sorted_of(views(sorted@), views(participants@).to_set());
    }
    let mut text = join_strings(sorted.as_slice(), ",");
    text.append("|");
    text.append(topic);
    let bytes = utf8_bytes(chars_of(text.as_str()).as_slice());
    let digest = sha256_hex(bytes.as_slice());
    let d = chars_of(digest.as_str());
    proof {
        reveal_strlit("sha256:");
        lemma_hex_of_byte_len(sha256_digest(bytes@));
        assert(crate::crypto::hash_prefix().len() == 7);
    }
    let hex = vstd::slice::slice_subrange(d.as_slice(), 7, 15);
    let suffix = string_of(hex);
    let sfx: &str = suffix.as_str();
    proof {
        let h = hex_of(sha256_digest(bytes@));
        assert(d@.skip(7) =~= h);
        assert(hex@ =~= h.take(8));
        lemma_hex_of_ascii(sha256_digest(bytes@));
        assert(vstd::utf8::is_ascii_chars(suffix@));
        vstd::string::is_ascii_spec_bytes(sfx);
        assert(sfx.spec_bytes().len() == 8);
    }
    generated_private_conversation_id(sorted.as_slice(), topic, sfx)
}

} // verus!
