use vstd::prelude::*;
use crate::error::{ErrorCode, RaftError};
use crate::text::{chars_of, string_of};

verus! {

/// Lowercase hexadecimal digit of a nibble.
pub open spec fn hex_digit(n: nat) -> char {
    if n == 0 { '0' } else if n == 1 { '1' } else if n == 2 { '2' } else if n == 3 { '3' }
    else if n == 4 { '4' } else if n == 5 { '5' } else if n == 6 { '6' } else if n == 7 { '7' }
    else if n == 8 { '8' } else if n == 9 { '9' } else if n == 10 { 'a' } else if n == 11 { 'b' }
    else if n == 12 { 'c' } else if n == 13 { 'd' } else if n == 14 { 'e' } else { 'f' }
}

/// Lowercase hex text of a byte string, two digits per byte.
pub open spec fn hex_of(b: Seq<u8>) -> Seq<char>
    decreases b.len(),
{
    if b.len() == 0 {
        Seq::empty()
    } else {
        hex_of(b.drop_last()) + seq![hex_digit(b.last() as nat / 16), hex_digit(b.last() as nat % 16)]
    }
}

/// Value of a hex digit in either case.
pub open spec fn hex_value(c: char) -> Option<nat> {
    if '0' <= c && c <= '9' {
        Some((c as nat - '0' as nat) as nat)
    } else if 'a' <= c && c <= 'f' {
        Some((c as nat - 'a' as nat + 10) as nat)
    } else if 'A' <= c && c <= 'F' {
        Some((c as nat - 'A' as nat + 10) as nat)
    } else {
        None
    }
}

/// How a two-character chunk parses as a base-16 `u8`: two digits, or a
/// leading `+` sign followed by one digit.
pub open spec fn hex_pair(c0: char, c1: char) -> Option<u8> {
    if c0 == '+' {
        match hex_value(c1) {
            Some(v) => Some(v as u8),
            None => None,
        }
    } else {
        match (hex_value(c0), hex_value(c1)) {
            (Some(h), Some(l)) => Some((h * 16 + l) as u8),
            _ => None,
        }
    }
}

/// Length of a character's UTF-8 encoding.
pub open spec fn utf8_len(c: char) -> nat {
    if (c as u32) < 0x80 { 1 } else if (c as u32) < 0x800 { 2 } else if (c as u32) < 0x10000 { 3 } else { 4 }
}

/// Length in bytes of the UTF-8 encoding of a text.
pub open spec fn byte_len(s: Seq<char>) -> nat
    decreases s.len(),
{
    if s.len() == 0 { 0 } else { byte_len(s.drop_last()) + utf8_len(s.last()) }
}

/// Decoding walks the text in two-byte chunks. The result pairs "a chunk
/// boundary fell inside a character" (slicing there panics) with the bytes
/// decoded, or `None` at the first chunk that is not a hex byte.
pub open spec fn hex_scan(s: Seq<char>) -> (bool, Option<Seq<u8>>)
    decreases s.len(),
{
    if s.len() == 0 {
        (false, Some(Seq::empty()))
    } else if utf8_len(s[0]) == 2 {
        (false, None)
    } else if utf8_len(s[0]) > 2 {
        (true, None)
    } else if s.len() == 1 {
        (false, None)
    } else if utf8_len(s[1]) > 1 {
        (true, None)
    } else {
        match hex_pair(s[0], s[1]) {
            None => (false, None),
            Some(b) => {
                let rest = hex_scan(s.skip(2));
                (rest.0, match rest.1 {
                    Some(t) => Some(seq![b] + t),
                    None => None,
                })
            },
        }
    }
}

/// Inputs on which hex decoding slices a string off a character boundary.
pub open spec fn hex_panics(s: Seq<char>) -> bool {
    byte_len(s) % 2 == 0 && hex_scan(s).0
}

/// What hex decoding gives: `None` for odd length or a bad chunk.
pub open spec fn hex_decoded(s: Seq<char>) -> Option<Seq<u8>> {
    if byte_len(s) % 2 != 0 { None } else { hex_scan(s).1 }
}

pub open spec fn odd_length_message() -> Seq<char> {
    "hex string has odd length"@
}

pub open spec fn invalid_digit_message() -> Seq<char> {
    "invalid hex digit"@
}

pub(crate) fn nibble_char(n: u8) -> (c: char)
    requires
        n < 16,
    ensures
        c == hex_digit(n as nat),
{
    if n == 0 { '0' } else if n == 1 { '1' } else if n == 2 { '2' } else if n == 3 { '3' }
    else if n == 4 { '4' } else if n == 5 { '5' } else if n == 6 { '6' } else if n == 7 { '7' }
    else if n == 8 { '8' } else if n == 9 { '9' } else if n == 10 { 'a' } else if n == 11 { 'b' }
    else if n == 12 { 'c' } else if n == 13 { 'd' } else if n == 14 { 'e' } else { 'f' }
}

pub(crate) fn hex_chars(bytes: &[u8]) -> (r: Vec<char>)
    ensures
        r@ == hex_of(bytes@),
{
    let mut out: Vec<char> = Vec::new();
    let mut i: usize = 0;
    while i < bytes.len()
        invariant
            i <= bytes@.len(),
            out@ == hex_of(bytes@.take(i as int)),
        decreases bytes@.len() - i,
    {
        let b = bytes[i];
        proof {
            assert(bytes@.take(i + 1).drop_last() =~= bytes@.take(i as int));
            assert(bytes@.take(i + 1).last() == b);
        }
        out.push(nibble_char(b / 16));
        out.push(nibble_char(b % 16));
        i = i + 1;
    }
    assert(bytes@.take(bytes@.len() as int) =~= bytes@);
    out
}

/// Lowercase-hex encode bytes.
pub fn hex_encode(bytes: &[u8]) -> (r: String)
    ensures
        r@ == hex_of(bytes@),
{
    let v = hex_chars(bytes);
    string_of(v.as_slice())
}

fn char_utf8_len(c: char) -> (n: usize)
    ensures
        n == utf8_len(c),
{
    let v = c as u32;
    if v < 0x80 { 1 } else if v < 0x800 { 2 } else if v < 0x10000 { 3 } else { 4 }
}

fn digit_value(c: char) -> (r: Option<u8>)
    ensures
        match hex_value(c) {
            Some(v) => r == Some(v as u8) && v < 16,
            None => r.is_none(),
        },
{
    if '0' <= c && c <= '9' {
        Some(((c as u32) - ('0' as u32)) as u8)
    } else if 'a' <= c && c <= 'f' {
        Some(((c as u32) - ('a' as u32) + 10) as u8)
    } else if 'A' <= c && c <= 'F' {
        Some(((c as u32) - ('A' as u32) + 10) as u8)
    } else {
        None
    }
}

pub(crate) fn pair_value(c0: char, c1: char) -> (r: Option<u8>)
    ensures
        r == hex_pair(c0, c1),
{
    if c0 == '+' {
        digit_value(c1)
    } else {
        match (digit_value(c0), digit_value(c1)) {
            (Some(h), Some(l)) => Some(h * 16 + l),
            _ => None,
        }
    }
}

proof fn lemma_byte_len_prefix(s: Seq<char>, i: int)
    requires
        0 <= i < s.len(),
    ensures
        byte_len(s.take(i + 1)) == byte_len(s.take(i)) + utf8_len(s[i]),
{
    assert(s.take(i + 1).drop_last() =~= s.take(i));
}

pub(crate) fn byte_len_of(s: &[char]) -> (n: u128)
    ensures
        n == byte_len(s@),
{
    let mut n: u128 = 0;
    let mut i: usize = 0;
    while i < s.len()
        invariant
            i <= s@.len(),
            n == byte_len(s@.take(i as int)),
            n <= 4 * i,
        decreases s@.len() - i,
    {
        proof {
            lemma_byte_len_prefix(s@, i as int);
        }
        n = n + (char_utf8_len(s[i]) as u128);
        i = i + 1;
    }
    assert(s@.take(s@.len() as int) =~= s@);
    n
}

proof fn lemma_hex_scan_skip(s: Seq<char>, i: int)
    requires
        0 <= i,
        i + 2 <= s.len(),
        utf8_len(s[i]) == 1,
        utf8_len(s[i + 1]) == 1,
        hex_pair(s[i], s[i + 1]) is Some,
    ensures
        hex_scan(s.skip(i)).0 == hex_scan(s.skip(i + 2)).0,
        hex_scan(s.skip(i)).1 == match hex_scan(s.skip(i + 2)).1 {
            Some(t) => Some(seq![hex_pair(s[i], s[i + 1])->0] + t),
            None => None,
        },
{
    let t = s.skip(i);
    assert(t[0] == s[i]);
    assert(t[1] == s[i + 1]);
    assert(t.skip(2) =~= s.skip(i + 2));
}

/// Scans the characters as hex-digit pairs, as decoding does once the length
/// is known to be even. Returns `Ok(bytes)`, `Err(false)` at the first bad
/// chunk, `Err(true)` where decoding would slice inside a character.
fn scan_hex(s: &[char]) -> (r: Result<Vec<u8>, bool>)
    ensures
        match r {
            Ok(b) => hex_scan(s@) == (false, Some(b@)),
            Err(p) => hex_scan(s@).1 is None && hex_scan(s@).0 == p,
        },
{
    let mut out: Vec<u8> = Vec::new();
    let mut i: usize = 0;
    assert(s@.skip(0) =~= s@);
    while i < s.len()
        invariant
            i <= s@.len(),
            hex_scan(s@).0 == hex_scan(s@.skip(i as int)).0,
            hex_scan(s@).1 == match hex_scan(s@.skip(i as int)).1 {
                Some(t) => Some(out@ + t),
                None => None,
            },
        decreases s@.len() - i,
    {
        let ghost t = s@.skip(i as int);
        assert(t[0] == s@[i as int]);
        let l0 = char_utf8_len(s[i]);
        if l0 == 2 {
            return Err(false);
        }
        if l0 > 2 {
            return Err(true);
        }
        if i + 1 == s.len() {
            assert(t.len() == 1);
            return Err(false);
        }
        assert(t[1] == s@[i + 1]);
        if char_utf8_len(s[i + 1]) > 1 {
            return Err(true);
        }
        match pair_value(s[i], s[i + 1]) {
            None => {
                return Err(false);
            },
            Some(b) => {
                proof {
                    lemma_hex_scan_skip(s@, i as int);
                    assert forall|u: Seq<u8>| true implies out@ + (seq![b] + u) =~= out@.push(b) + u by {}
                }
                out.push(b);
                i = i + 2;
            },
        }
    }
    assert(s@.skip(i as int).len() == 0);
    assert(out@ + Seq::<u8>::empty() =~= out@);
    Ok(out)
}

/// Whether decoding `value` would slice it off a character boundary: a
/// two-byte chunk that ends inside a multi-byte character, reached before any
/// chunk that is simply not hex.
pub fn hex_decode_panics(value: &str) -> (r: bool)
    ensures
        r == hex_panics(value@),
{
    let s = chars_of(value);
    let n = byte_len_of(s.as_slice());
    if n % 2 != 0 {
        return false;
    }
    match scan_hex(s.as_slice()) {
        Ok(_) => false,
        Err(p) => p,
    }
}

/// Decode hex (either case) into bytes. An odd byte length, or a chunk that
/// is not a base-16 byte, is a parse error.
pub fn hex_decode(value: &str) -> (r: Result<Vec<u8>, RaftError>)
    requires
        !hex_panics(value@),
    ensures
        match r {
            Ok(b) => hex_decoded(value@) == Some(b@),
            Err(e) => hex_decoded(value@) is None && e.code == ErrorCode::Parse
                && e.message@ == (if byte_len(value@) % 2 != 0 { odd_length_message() } else {
                    invalid_digit_message()
                }),
        },
{
    let s = chars_of(value);
    let n = byte_len_of(s.as_slice());
    if n % 2 != 0 {
        return Err(RaftError::coded(ErrorCode::Parse, String::from_str("hex string has odd length")));
    }
    match scan_hex(s.as_slice()) {
        Ok(b) => Ok(b),
        Err(_) => Err(RaftError::coded(ErrorCode::Parse, String::from_str("invalid hex digit"))),
    }
}

proof fn lemma_digit_roundtrip(n: nat)
    requires
        n < 16,
    ensures
        hex_value(hex_digit(n)) == Some(n),
        utf8_len(hex_digit(n)) == 1,
        hex_digit(n) != '+',
{
}

proof fn lemma_hex_of_concat(a: Seq<u8>, c: Seq<u8>)
    ensures
        hex_of(a + c) == hex_of(a) + hex_of(c),
    decreases c.len(),
{
    if c.len() == 0 {
        assert(a + c =~= a);
        assert(hex_of(a) + hex_of(c) =~= hex_of(a));
    } else {
        lemma_hex_of_concat(a, c.drop_last());
        assert((a + c).drop_last() =~= a + c.drop_last());
        assert((a + c).last() == c.last());
        let p = seq![hex_digit(c.last() as nat / 16), hex_digit(c.last() as nat % 16)];
        assert(hex_of(a + c) == hex_of(a + c.drop_last()) + p);
        assert(hex_of(c) == hex_of(c.drop_last()) + p);
        assert(hex_of(a) + hex_of(c.drop_last()) + p =~= hex_of(a) + (hex_of(c.drop_last()) + p));
    }
}

proof fn lemma_byte_len_concat(a: Seq<char>, c: Seq<char>)
    ensures
        byte_len(a + c) == byte_len(a) + byte_len(c),
    decreases c.len(),
{
    if c.len() == 0 {
        assert(a + c =~= a);
    } else {
        lemma_byte_len_concat(a, c.drop_last());
        assert((a + c).drop_last() =~= a + c.drop_last());
        assert((a + c).last() == c.last());
    }
}

pub proof fn lemma_hex_of_byte_len(b: Seq<u8>)
    ensures
        hex_of(b).len() == 2 * b.len(),
        byte_len(hex_of(b)) == 2 * b.len(),
    decreases b.len(),
{
    if b.len() > 0 {
        lemma_hex_of_byte_len(b.drop_last());
        let x = b.last() as nat;
        lemma_digit_roundtrip(x / 16);
        lemma_digit_roundtrip(x % 16);
        let p = seq![hex_digit(x / 16), hex_digit(x % 16)];
        lemma_byte_len_concat(hex_of(b.drop_last()), p);
        assert(p.drop_last() =~= seq![hex_digit(x / 16)]);
        assert(seq![hex_digit(x / 16)].drop_last() =~= Seq::<char>::empty());
        let q = seq![hex_digit(x / 16)];
        assert(q.last() == hex_digit(x / 16));
        assert(byte_len(q.drop_last()) == 0);
        assert(byte_len(q) == byte_len(q.drop_last()) + utf8_len(q.last()));
        assert(p.last() == hex_digit(x % 16));
        assert(byte_len(p) == byte_len(p.drop_last()) + utf8_len(p.last()));
        assert(byte_len(p) == 2);
    }
}

proof fn lemma_hex_scan_of(b: Seq<u8>)
    ensures
        hex_scan(hex_of(b)) == (false, Some(b)),
    decreases b.len(),
{
    if b.len() > 0 {
        let x = b[0];
        let r = b.skip(1);
        assert(b =~= seq![x] + r);
        lemma_hex_of_concat(seq![x], r);
        assert(seq![x].drop_last() =~= Seq::<u8>::empty());
        let d0 = hex_digit(x as nat / 16);
        let d1 = hex_digit(x as nat % 16);
        assert(seq![x].last() == x);
        assert(hex_of(seq![x]) == hex_of(Seq::<u8>::empty()) + seq![d0, d1]);
        assert(hex_of(seq![x]) =~= seq![d0, d1]);
        let s = hex_of(b);
        assert(s =~= seq![d0, d1] + hex_of(r));
        lemma_digit_roundtrip(x as nat / 16);
        lemma_digit_roundtrip(x as nat % 16);
        assert(s[0] == d0);
        assert(s[1] == d1);
        assert((x as nat / 16) * 16 + x as nat % 16 == x as nat);
        assert(hex_pair(s[0], s[1]) == Some(x));
        assert(s.skip(2) =~= hex_of(r));
        lemma_hex_scan_of(r);
        assert(seq![x] + r =~= b);
    }
}

/// Hex round trip: decoding what `hex_encode` produced never panics and gives
/// back the original bytes.
pub proof fn lemma_hex_roundtrip(b: Seq<u8>)
    ensures
        !hex_panics(hex_of(b)),
        hex_decoded(hex_of(b)) == Some(b),
{
    lemma_hex_of_byte_len(b);
    lemma_hex_scan_of(b);
}

/// Hex text is ASCII.
pub proof fn lemma_hex_of_ascii(b: Seq<u8>)
    ensures
        forall|i: int| 0 <= i < hex_of(b).len() ==> '\0' <= #[trigger] hex_of(b)[i] <= '\u{7f}',
    decreases b.len(),
{
    if b.len() > 0 {
        lemma_hex_of_ascii(b.drop_last());
        lemma_hex_of_byte_len(b.drop_last());
        let p = hex_of(b.drop_last());
        assert forall|i: int| 0 <= i < hex_of(b).len() implies '\0' <= #[trigger] hex_of(b)[i] <= '\u{7f}' by {
            if i < p.len() {
                assert(hex_of(b)[i] == p[i]);
            }
        }
    }
}

} // verus!
