//! The local UI's HTTP plumbing: request framing, header parsing, target and
//! query decoding, and the guard that refuses foreign hosts and cross-origin
//! writes.

use vstd::prelude::*;
use crate::error::{ErrorCode, RaftError};
use crate::naming::{ascii_lower, to_ascii_lower};
use crate::lists::views;
use crate::sets::{sorted_set_of, sorted_strict};
use crate::text::{debug_quoted, debug_str, decimal, decimal_chars, str_eq};
use crate::json::{utf8, utf8_bytes};
use crate::hex::hex_pair;
use crate::text::{chars_of, split_chars, split_on, string_of, trim, trim_chars, lemma_split_on_nonempty};

verus! {

/// A line without the carriage return that preceded its newline.
pub open spec fn strip_cr(x: Seq<char>) -> Seq<char> {
    if x.len() > 0 && x.last() == '\r' {
        x.drop_last()
    } else {
        x
    }
}

/// `str::lines`: split at `\n` (a `\r` before it is dropped too); a final
/// line ending adds no empty line.
pub open spec fn lines(s: Seq<char>) -> Seq<Seq<char>> {
    let p = split_on(s, '\n');
    if p.last().len() == 0 {
        Seq::new((p.len() - 1) as nat, |i: int| strip_cr(p[i]))
    } else {
        Seq::new(p.len(), |i: int| if i < p.len() - 1 { strip_cr(p[i]) } else { p[i] })
    }
}

fn strip_cr_chars(x: &Vec<char>) -> (r: Vec<char>)
    ensures
        r@ == strip_cr(x@),
{
    let mut r = x.clone();
    assert(r@ == x@);
    if r.len() > 0 && r[r.len() - 1] == '\r' {
        r.pop();
    }
    r
}

/// The lines of a text.
pub fn lines_of(s: &[char]) -> (r: Vec<Vec<char>>)
    ensures
        r@.len() == lines(s@).len(),
        forall|i: int| 0 <= i < r@.len() ==> #[trigger] r@[i]@ == lines(s@)[i],
{
    let p = split_chars(s, '\n');
    proof {
        lemma_split_on_nonempty(s@, '\n');
    }
    let ghost sp = split_on(s@, '\n');
    let n = p.len();
    let last_empty = p[n - 1].len() == 0;
    let keep = if last_empty { n - 1 } else { n };
    let mut out: Vec<Vec<char>> = Vec::new();
    let mut i: usize = 0;
    while i < keep
        invariant
            n == p@.len(),
            n == sp.len(),
            n >= 1,
            keep as int == (if last_empty { n - 1 } else { n as int }),
            last_empty == (sp.last().len() == 0),
            forall|k: int| 0 <= k < n ==> #[trigger] p@[k]@ == sp[k],
            sp == split_on(s@, '\n'),
            i <= keep,
            out@.len() == i,
            forall|k: int| 0 <= k < i ==> #[trigger] out@[k]@ == lines(s@)[k],
        decreases keep - i,
    {
        if i + 1 < n {
            out.push(strip_cr_chars(&p[i]));
        } else {
            out.push(p[i].clone());
        }
        i = i + 1;
    }
    out
}

/// The index of the first occurrence of `c`.
pub open spec fn first_index(s: Seq<char>, c: char) -> Option<int> {
    if exists|i: int| 0 <= i < s.len() && s[i] == c {
        Some(choose|i: int| 0 <= i < s.len() && s[i] == c && forall|j: int| 0 <= j < i ==> s[j] != c)
    } else {
        None
    }
}

/// `str::split_once(c)`: the parts before and after the first `c`.
pub open spec fn split_once(s: Seq<char>, c: char) -> Option<(Seq<char>, Seq<char>)> {
    match first_index(s, c) {
        Some(i) => Some((s.take(i), s.skip(i + 1))),
        None => None,
    }
}

/// Finds the first occurrence of `c`.
pub fn find_char(s: &[char], c: char) -> (r: Option<usize>)
    ensures
        match r {
            Some(i) => first_index(s@, c) == Some(i as int) && i < s@.len() && s@[i as int] == c
                && forall|j: int| 0 <= j < i ==> s@[j] != c,
            None => first_index(s@, c) is None && forall|j: int| 0 <= j < s@.len() ==> s@[j] != c,
        },
{
    let mut i: usize = 0;
    while i < s.len()
        invariant
            i <= s@.len(),
            forall|j: int| 0 <= j < i ==> s@[j] != c,
        decreases s@.len() - i,
    {
        if s[i] == c {
            proof {
                let k = choose|k: int| 0 <= k < s@.len() && s@[k] == c && forall|j: int| 0 <= j < k ==> s@[j] != c;
                assert(0 <= k < s@.len() && s@[k] == c && forall|j: int| 0 <= j < k ==> s@[j] != c);
                if k < i {
                } else if k > i {
                    assert(s@[i as int] != c);
                }
            }
            return Some(i);
        }
        i = i + 1;
    }
    None
}

/// Splits at the first `c`.
pub fn split_once_chars(s: &[char], c: char) -> (r: Option<(Vec<char>, Vec<char>)>)
    ensures
        match r {
            Some((a, b)) => split_once(s@, c) == Some((a@, b@)),
            None => split_once(s@, c) is None,
        },
{
    let n = s.len();
    let found = find_char(s, c);
    match found {
        None => None,
        Some(i) => {
            assert(i < n);
            let a = vstd::slice::slice_to_vec(vstd::slice::slice_subrange(s, 0, i));
            let b = vstd::slice::slice_to_vec(vstd::slice::slice_subrange(s, i + 1, n));
            assert(a@ =~= s@.take(i as int));
            assert(b@ =~= s@.skip(i + 1));
            Some((a, b))
        },
    }
}

/// `to_ascii_lowercase` on text.
pub open spec fn lower_ascii(s: Seq<char>) -> Seq<char> {
    Seq::new(s.len(), |i: int| ascii_lower(s[i]))
}

/// `eq_ignore_ascii_case`.
pub open spec fn eq_ignore_case(a: Seq<char>, b: Seq<char>) -> bool {
    lower_ascii(a) == lower_ascii(b)
}

pub fn lower_ascii_chars(s: &[char]) -> (r: Vec<char>)
    ensures
        r@ == lower_ascii(s@),
{
    let mut out: Vec<char> = Vec::new();
    let mut i: usize = 0;
    while i < s.len()
        invariant
            i <= s@.len(),
            out@ =~= lower_ascii(s@.take(i as int)),
        decreases s@.len() - i,
    {
        out.push(to_ascii_lower(s[i]));
        i = i + 1;
    }
    assert(s@.take(s@.len() as int) =~= s@);
    out
}

pub fn chars_eq_ignore_case(a: &[char], b: &[char]) -> (r: bool)
    ensures
        r == eq_ignore_case(a@, b@),
{
    let la = lower_ascii_chars(a);
    let lb = lower_ascii_chars(b);
    crate::text::chars_eq(la.as_slice(), lb.as_slice())
}

/// Whether `s` starts with `p`.
pub open spec fn starts_with(s: Seq<char>, p: Seq<char>) -> bool {
    p.len() <= s.len() && s.take(p.len() as int) == p
}

pub fn chars_start_with(s: &[char], p: &[char]) -> (r: bool)
    ensures
        r == starts_with(s@, p@),
{
    if p.len() > s.len() {
        return false;
    }
    let mut i: usize = 0;
    while i < p.len()
        invariant
            p@.len() <= s@.len(),
            i <= p@.len(),
            forall|j: int| 0 <= j < i ==> s@[j] == p@[j],
        decreases p@.len() - i,
    {
        if s[i] != p[i] {
            assert(s@.take(p@.len() as int)[i as int] != p@[i as int]);
            return false;
        }
        i = i + 1;
    }
    assert(s@.take(p@.len() as int) =~= p@);
    true
}

/// Value of a run of decimal digits.
pub open spec fn digits_value(s: Seq<char>) -> nat
    decreases s.len(),
{
    if s.len() == 0 {
        0
    } else {
        digits_value(s.drop_last()) * 10 + (s.last() as nat - '0' as nat) as nat
    }
}

pub open spec fn all_digits(s: Seq<char>) -> bool {
    forall|i: int| 0 <= i < s.len() ==> '0' <= #[trigger] s[i] && s[i] <= '9'
}

/// The number an unsigned integer parse reads: an optional `+`, then one or
/// more ASCII digits.
pub open spec fn parse_unsigned(s: Seq<char>) -> Option<nat> {
    let d = if s.len() > 0 && s[0] == '+' { s.drop_first() } else { s };
    if d.len() > 0 && all_digits(d) { Some(digits_value(d)) } else { None }
}

pub proof fn lemma_digits_monotone(s: Seq<char>, k: int)
    requires
        0 <= k <= s.len(),
        all_digits(s),
    ensures
        digits_value(s.take(k)) <= digits_value(s),
    decreases s.len() - k,
{
    if k == s.len() {
        assert(s.take(k) =~= s);
    } else {
        lemma_digits_monotone(s, k + 1);
        let t = s.take(k + 1);
        assert(t.drop_last() =~= s.take(k));
        let x = digits_value(s.take(k));
        assert(digits_value(t) == x * 10 + (t.last() as nat - '0' as nat) as nat);
        assert(x <= x * 10) by (nonlinear_arith);
    }
}

/// `usize::from_str`: `None` on a malformed or out-of-range number.
pub fn parse_usize(s: &[char]) -> (r: Option<usize>)
    ensures
        match r {
            Some(v) => parse_unsigned(s@) == Some(v as nat),
            None => parse_unsigned(s@) is None || parse_unsigned(s@)->0 > usize::MAX,
        },
{
    let start: usize = if s.len() > 0 && s[0] == '+' { 1 } else { 0 };
    let ghost d = if s@.len() > 0 && s@[0] == '+' { s@.drop_first() } else { s@ };
    assert(d =~= s@.skip(start as int));
    if start >= s.len() {
        return None;
    }
    let mut v: usize = 0;
    let mut i: usize = start;
    while i < s.len()
        invariant
            start <= i <= s@.len(),
            d =~= s@.skip(start as int),
            d == (if s@.len() > 0 && s@[0] == '+' { s@.drop_first() } else { s@ }),
            d.len() > 0,
            forall|j: int| 0 <= j < i - start ==> '0' <= #[trigger] d[j] && d[j] <= '9',
            v == digits_value(d.take(i - start)),
        decreases s@.len() - i,
    {
        let c = s[i];
        proof {
            assert(d[i - start] == c);
            assert(d.take(i - start + 1).drop_last() =~= d.take(i - start));
            assert(d.take(i - start + 1).last() == c);
        }
        if c < '0' || c > '9' {
            return None;
        }
        let digit = (c as u32 - '0' as u32) as usize;
        let m = v.checked_mul(10);
        match m {
            None => {
                proof {
                    let k = i - start;
                    assert(digits_value(d.take(k + 1)) == v * 10 + (c as nat - '0' as nat) as nat);
                    if all_digits(d) {
                        lemma_digits_monotone(d, k + 1);
                    }
                    assert(parse_unsigned(s@) == if d.len() > 0 && all_digits(d) { Some(digits_value(d)) } else { None });
                }
                return None;
            },
            Some(m) => {
                let a = m.checked_add(digit);
                match a {
                    None => {
                        proof {
                            let k = i - start;
                            assert(digits_value(d.take(k + 1)) == v * 10 + (c as nat - '0' as nat) as nat);
                            if all_digits(d) {
                                lemma_digits_monotone(d, k + 1);
                            }
                            assert(parse_unsigned(s@) == if d.len() > 0 && all_digits(d) { Some(digits_value(d)) } else { None });
                        }
                        return None;
                    },
                    Some(a) => {
                        v = a;
                    },
                }
            },
        }
        i = i + 1;
    }
    assert(d.take(d.len() as int) =~= d);
    Some(v)
}

/// Whether the four bytes at `i` are the blank line `\r\n\r\n`.
pub open spec fn blank_line_at(b: Seq<u8>, i: int) -> bool {
    0 <= i && i + 4 <= b.len() && b[i] == 13 && b[i + 1] == 10 && b[i + 2] == 13 && b[i + 3] == 10
}

/// Offset of the blank line that ends an HTTP head, if the bytes hold one.
pub fn http_header_end(bytes: &[u8]) -> (r: Option<usize>)
    ensures
        match r {
            Some(i) => blank_line_at(bytes@, i as int) && forall|j: int| 0 <= j < i ==> !blank_line_at(bytes@, j),
            None => forall|j: int| !blank_line_at(bytes@, j),
        },
{
    let n = bytes.len();
    if n < 4 {
        return None;
    }
    let mut i: usize = 0;
    while i <= n - 4
        invariant
            n == bytes@.len(),
            n >= 4,
            i <= n - 3,
            forall|j: int| 0 <= j < i ==> !blank_line_at(bytes@, j),
        decreases n - i,
    {
        if bytes[i] == 13 && bytes[i + 1] == 10 && bytes[i + 2] == 13 && bytes[i + 3] == 10 {
            return Some(i);
        }
        i = i + 1;
    }
    None
}

/// Header lines: every line after the request line.
pub open spec fn header_lines(head: Seq<char>) -> Seq<Seq<char>> {
    let ls = lines(head);
    if ls.len() == 0 { ls } else { ls.skip(1) }
}

/// What the first `Content-Length` line (in any case) says, if there is one:
/// the parsed number, or `None` when it does not parse.
pub open spec fn content_length_in(ls: Seq<Seq<char>>) -> Option<Option<nat>>
    decreases ls.len(),
{
    if ls.len() == 0 {
        None
    } else {
        match split_once(ls[0], ':') {
            Some((k, v)) => if eq_ignore_case(k, "content-length"@) {
                Some(parse_unsigned(trim(v)))
            } else {
                content_length_in(ls.drop_first())
            },
            None => content_length_in(ls.drop_first()),
        }
    }
}

/// Reads one header line: `None` when it is not a `Content-Length` line,
/// otherwise its value as a `usize` if it is one.
fn line_content_length(line: &Vec<char>) -> (r: Option<Option<usize>>)
    ensures
        match split_once(line@, ':') {
            Some((k, v)) => if eq_ignore_case(k, "content-length"@) {
                match parse_unsigned(trim(v)) {
                    Some(n) => if n <= usize::MAX { r == Some(Some(n as usize)) } else { r == Some(None::<usize>) },
                    None => r == Some(None::<usize>),
                }
            } else {
                r is None
            },
            None => r is None,
        },
{
    match split_once_chars(line.as_slice(), ':') {
        Some((k, v)) => {
            let key = ['c', 'o', 'n', 't', 'e', 'n', 't', '-', 'l', 'e', 'n', 'g', 't', 'h'];
            proof {
                reveal_strlit("content-length");
                assert(key@ =~= "content-length"@);
            }
            if chars_eq_ignore_case(k.as_slice(), &key) {
                let tv = trim_chars(v.as_slice());
                Some(parse_usize(tv.as_slice()))
            } else {
                None
            }
        },
        None => None,
    }
}

/// The body length an HTTP head declares: 0 without a `Content-Length`
/// header, an error when its value is not a `usize`.
pub fn http_content_length(headers: &str) -> (r: Result<usize, RaftError>)
    ensures
        match content_length_in(header_lines(headers@)) {
            None => r matches Ok(n) && n == 0,
            Some(Some(n)) => if n <= usize::MAX {
                r matches Ok(m) && m == n
            } else {
                r matches Err(e) && e.code == ErrorCode::Error && e.message@ == "invalid Content-Length"@
            },
            Some(None) => r matches Err(e) && e.code == ErrorCode::Error && e.message@ == "invalid Content-Length"@,
        },
{
    let cs = chars_of(headers);
    let ls = lines_of(cs.as_slice());
    let ghost all = lines(headers@);
    let ghost hl = header_lines(headers@);
    if ls.len() == 0 {
        return Ok(0);
    }
    let mut i: usize = 1;
    proof {
        assert(hl =~= all.skip(1));
        assert(all.skip(1).skip(0) =~= all.skip(1));
    }
    while i < ls.len()
        invariant
            1 <= i <= ls@.len(),
            ls@.len() == all.len(),
            all == lines(headers@),
            hl == header_lines(headers@),
            hl =~= all.skip(1),
            forall|k: int| 0 <= k < ls@.len() ==> #[trigger] ls@[k]@ == all[k],
            content_length_in(hl) == content_length_in(all.skip(i as int)),
        decreases ls@.len() - i,
    {
        proof {
            let t = all.skip(i as int);
            assert(t[0] == all[i as int]);
            assert(t.drop_first() =~= all.skip(i + 1));
        }
        match line_content_length(&ls[i]) {
            Some(Some(n)) => {
                return Ok(n);
            },
            Some(None) => {
                return Err(RaftError::coded(ErrorCode::Error, String::from_str("invalid Content-Length")));
            },
            None => {},
        }
        i = i + 1;
    }
    Ok(0)
}

/// The `(name, value)` pairs of header lines: names trimmed and lowercased,
/// values trimmed; lines without a colon are skipped.
pub open spec fn parsed_headers(ls: Seq<Seq<char>>) -> Seq<(Seq<char>, Seq<char>)>
    decreases ls.len(),
{
    if ls.len() == 0 {
        Seq::empty()
    } else {
        let p = parsed_headers(ls.drop_last());
        match split_once(ls.last(), ':') {
            Some((k, v)) => p.push((lower_ascii(trim(k)), trim(v))),
            None => p,
        }
    }
}

pub open spec fn pair_views(v: Seq<(String, String)>) -> Seq<(Seq<char>, Seq<char>)> {
    Seq::new(v.len(), |i: int| (v[i].0@, v[i].1@))
}

/// The headers of an HTTP head, in order.
pub fn parse_http_headers(headers: &str) -> (r: Vec<(String, String)>)
    ensures
        pair_views(r@) == parsed_headers(header_lines(headers@)),
{
    let cs = chars_of(headers);
    let ls = lines_of(cs.as_slice());
    let ghost all = lines(headers@);
    let ghost hl = header_lines(headers@);
    let mut out: Vec<(String, String)> = Vec::new();
    if ls.len() == 0 {
        return out;
    }
    let mut i: usize = 1;
    proof {
        assert(hl =~= all.skip(1));
    }
    while i < ls.len()
        invariant
            1 <= i <= ls@.len(),
            ls@.len() == all.len(),
            all == lines(headers@),
            hl == header_lines(headers@),
            hl =~= all.skip(1),
            forall|k: int| 0 <= k < ls@.len() ==> #[trigger] ls@[k]@ == all[k],
            pair_views(out@) == parsed_headers(hl.take(i - 1)),
        decreases ls@.len() - i,
    {
        proof {
            let t = hl.take(i as int);
            assert(t.drop_last() =~= hl.take(i - 1));
            assert(t.last() == all[i as int]);
        }
        let ghost before = out@;
        match split_once_chars(ls[i].as_slice(), ':') {
            Some((k, v)) => {
                let tk = trim_chars(k.as_slice());
                let lk = lower_ascii_chars(tk.as_slice());
                let tv = trim_chars(v.as_slice());
                out.push((string_of(lk.as_slice()), string_of(tv.as_slice())));
                proof {
                    assert(pair_views(out@) =~= pair_views(before).push((lk@, tv@)));
                }
            },
            None => {},
        }
        i = i + 1;
    }
    assert(hl.take(hl.len() as int) =~= hl);
    out
}

/// An HTTP request as read from a socket.
pub struct HttpRequest {
    pub method: String,
    pub target: String,
    pub headers: Vec<(String, String)>,
    pub body: Vec<u8>,
}

/// The value of the first header whose (lowercased) name is `key`.
pub open spec fn header_value(headers: Seq<(Seq<char>, Seq<char>)>, key: Seq<char>) -> Option<Seq<char>>
    decreases headers.len(),
{
    if headers.len() == 0 {
        None
    } else if headers[0].0 == key {
        Some(headers[0].1)
    } else {
        header_value(headers.drop_first(), key)
    }
}

/// A request header by name, matched case-insensitively.
pub fn http_header(request: &HttpRequest, name: &str) -> (r: Option<String>)
    ensures
        opt_string_view(r) == header_value(pair_views(request.headers@), lower_ascii(name@)),
{
    let nc = chars_of(name);
    let lname = lower_ascii_chars(nc.as_slice());
    let lstr = string_of(lname.as_slice());
    let ghost hs = pair_views(request.headers@);
    let mut i: usize = 0;
    assert(hs.skip(0) =~= hs);
    while i < request.headers.len()
        invariant
            i <= request.headers@.len(),
            hs == pair_views(request.headers@),
            lstr@ == lower_ascii(name@),
            header_value(hs, lstr@) == header_value(hs.skip(i as int), lstr@),
        decreases request.headers@.len() - i,
    {
        proof {
            let t = hs.skip(i as int);
            assert(t[0] == hs[i as int]);
            assert(t.drop_first() =~= hs.skip(i + 1));
        }
        if crate::text::str_eq(request.headers[i].0.as_str(), lstr.as_str()) {
            return Some(request.headers[i].1.clone());
        }
        i = i + 1;
    }
    None
}

pub open spec fn opt_string_view(o: Option<String>) -> Option<Seq<char>> {
    match o {
        Some(s) => Some(s@),
        None => None,
    }
}

/// `host:port`.
pub open spec fn host_port(host: Seq<char>, port: u16) -> Seq<char> {
    host + ":"@ + decimal(port as nat)
}

/// Whether the bind host names an address beyond the loopback ones, and so
/// is allowed as a `Host` too.
pub open spec fn extra_bind_host(h: Seq<char>) -> bool {
    let t = trim(h);
    t.len() > 0 && t != "127.0.0.1"@ && t != "localhost"@ && t != "0.0.0.0"@ && t != "::"@
}

/// The `Host` values the UI answers to.
pub open spec fn allowed_host_set(bind_host: Seq<char>, port: u16) -> Set<Seq<char>> {
    let base = set![host_port("127.0.0.1"@, port), host_port("localhost"@, port)];
    if extra_bind_host(bind_host) { base.insert(host_port(trim(bind_host), port)) } else { base }
}

fn host_port_string(host: &str, port_text: &Vec<char>) -> (r: String)
    ensures
        r@ == host@ + ":"@ + port_text@,
{
    let mut out = String::from_str(host);
    out.append(":");
    let p = string_of(port_text.as_slice());
    out.append(p.as_str());
    out
}

/// The allowed `Host` values for a bind address, sorted, without repeats.
pub fn ui_allowed_hosts(bind_host: &str, bind_port: u16) -> (r: Vec<String>)
    ensures
        sorted_strict(views(r@)),
        views(r@).to_set() == allowed_host_set(bind_host@, bind_port),
{
    let port = decimal_chars(bind_port as u64);
    let mut hosts: Vec<String> = Vec::new();
    hosts.push(host_port_string("127.0.0.1", &port));
    hosts.push(host_port_string("localhost", &port));
    let bc = chars_of(bind_host);
    let tc = trim_chars(bc.as_slice());
    let t = string_of(tc.as_slice());
    let extra = tc.len() > 0 && !str_eq(t.as_str(), "127.0.0.1") && !str_eq(t.as_str(), "localhost")
        && !str_eq(t.as_str(), "0.0.0.0") && !str_eq(t.as_str(), "::");
    proof {
        assert(t@.len() > 0 <==> trim(bind_host@).len() > 0);
        assert(extra == extra_bind_host(bind_host@));
    }
    if extra {
        hosts.push(host_port_string(t.as_str(), &port));
    }
    let r = sorted_set_of(hosts.as_slice());
    proof {
        let expected = allowed_host_set(bind_host@, bind_port);
        assert forall|y: Seq<char>| views(hosts@).contains(y) <==> expected.contains(y) by {
            if views(hosts@).contains(y) {
                let k = choose|k: int| 0 <= k < views(hosts@).len() && views(hosts@)[k] == y;
                assert(views(hosts@)[k] == hosts@[k]@);
            }
            if y == host_port("127.0.0.1"@, bind_port) {
                assert(views(hosts@)[0] == y);
            }
            if y == host_port("localhost"@, bind_port) {
                assert(views(hosts@)[1] == y);
            }
            if extra && y == host_port(trim(bind_host@), bind_port) {
                assert(views(hosts@)[2] == y);
            }
        }
        assert(views(hosts@).to_set() =~= expected);
    }
    r
}

/// `http://host` for each host.
pub open spec fn origins_of(hosts: Seq<Seq<char>>) -> Seq<Seq<char>> {
    Seq::new(hosts.len(), |i: int| "http://"@ + hosts[i])
}

/// The allowed `Origin` values: each allowed host behind `http://`.
pub fn ui_allowed_origins(hosts: &[String]) -> (r: Vec<String>)
    ensures
        views(r@) == origins_of(views(hosts@)),
{
    let mut out: Vec<String> = Vec::new();
    let mut i: usize = 0;
    while i < hosts.len()
        invariant
            i <= hosts@.len(),
            views(out@) =~= origins_of(views(hosts@)).take(i as int),
        decreases hosts@.len() - i,
    {
        let mut o = String::from_str("http://");
        o.append(hosts[i].as_str());
        let ghost before = out@;
        out.push(o);
        proof {
            assert(views(out@) =~= views(before).push("http://"@ + hosts@[i as int]@));
            assert(origins_of(views(hosts@)).take(i + 1) =~= origins_of(views(hosts@)).take(i as int).push(
                "http://"@ + hosts@[i as int]@,
            ));
        }
        i = i + 1;
    }
    assert(origins_of(views(hosts@)).take(hosts@.len() as int) =~= origins_of(views(hosts@)));
    out
}

/// Whether some listed value equals `x` ignoring ASCII case.
pub open spec fn any_eq_ignore_case(list: Seq<Seq<char>>, x: Seq<char>) -> bool {
    exists|k: int| 0 <= k < list.len() && eq_ignore_case(x, list[k])
}

/// Whether a `Referer` names an allowed origin, or a page under one.
pub open spec fn referer_allowed(origins: Seq<Seq<char>>, referer: Seq<char>) -> bool {
    exists|k: int| 0 <= k < origins.len() && (eq_ignore_case(referer, origins[k]) || starts_with(
        lower_ascii(referer),
        lower_ascii(origins[k]) + "/"@,
    ))
}

fn list_has_ignore_case(list: &Vec<String>, x: &str) -> (r: bool)
    ensures
        r == any_eq_ignore_case(views(list@), x@),
{
    let xc = chars_of(x);
    let mut i: usize = 0;
    while i < list.len()
        invariant
            i <= list@.len(),
            xc@ == x@,
            forall|k: int| 0 <= k < i ==> !eq_ignore_case(x@, #[trigger] views(list@)[k]),
        decreases list@.len() - i,
    {
        let lc = chars_of(list[i].as_str());
        if chars_eq_ignore_case(xc.as_slice(), lc.as_slice()) {
            assert(views(list@)[i as int] == list@[i as int]@);
            return true;
        }
        assert(views(list@)[i as int] == list@[i as int]@);
        i = i + 1;
    }
    false
}

fn referer_ok(origins: &Vec<String>, referer: &str) -> (r: bool)
    ensures
        r == referer_allowed(views(origins@), referer@),
{
    let rc = chars_of(referer);
    let rl = lower_ascii_chars(rc.as_slice());
    let mut i: usize = 0;
    while i < origins.len()
        invariant
            i <= origins@.len(),
            rc@ == referer@,
            rl@ == lower_ascii(referer@),
            forall|k: int| 0 <= k < i ==> !(eq_ignore_case(referer@, #[trigger] views(origins@)[k])
                || starts_with(lower_ascii(referer@), lower_ascii(views(origins@)[k]) + "/"@)),
        decreases origins@.len() - i,
    {
        let oc = chars_of(origins[i].as_str());
        let mut prefix = lower_ascii_chars(oc.as_slice());
        prefix.push('/');
        proof {
            reveal_strlit("/");
            assert(prefix@ =~= lower_ascii(origins@[i as int]@) + "/"@);
            assert(views(origins@)[i as int] == origins@[i as int]@);
        }
        if chars_eq_ignore_case(rc.as_slice(), oc.as_slice()) || chars_start_with(rl.as_slice(), prefix.as_slice()) {
            return true;
        }
        i = i + 1;
    }
    false
}

/// Why the UI refuses a request, or `None` when it may proceed: the `Host`
/// must be an allowed host, and a `POST` must come from an allowed origin
/// (its `Origin`, or failing that its `Referer`).
pub open spec fn ui_request_refusal(
    method: Seq<char>,
    headers: Seq<(Seq<char>, Seq<char>)>,
    bind_host: Seq<char>,
    port: u16,
    hosts: Seq<Seq<char>>,
) -> Option<Seq<char>> {
    match header_value(headers, lower_ascii("host"@)) {
        None => Some("missing Host header"@),
        Some(host) => if !any_eq_ignore_case(hosts, host) {
            Some("blocked request Host "@ + debug_quoted(host))
        } else if eq_ignore_case(method, "POST"@) {
            let origins = origins_of(hosts);
            let origin_ok = match header_value(headers, lower_ascii("origin"@)) {
                Some(o) => any_eq_ignore_case(origins, o),
                None => false,
            };
            let ref_ok = match header_value(headers, lower_ascii("referer"@)) {
                Some(rf) => referer_allowed(origins, rf),
                None => false,
            };
            if !origin_ok && !ref_ok { Some("blocked cross-origin UI write"@) } else { None }
        } else {
            None
        }
    }
}

/// Refuse requests to the local UI that come under a foreign `Host`, and
/// writes that do not come from the UI's own origin.
pub fn validate_ui_request_security(request: &HttpRequest, bind_host: &str, bind_port: u16) -> (r: Result<(), RaftError>)
    ensures
        exists|hosts: Seq<Seq<char>>| #![auto] sorted_strict(hosts) && hosts.to_set() == allowed_host_set(
            bind_host@,
            bind_port,
        ) && match ui_request_refusal(request.method@, pair_views(request.headers@), bind_host@, bind_port, hosts) {
            None => r is Ok,
            Some(m) => r matches Err(e) && e.code == ErrorCode::Error && e.message@ == m,
        },
{
    let hosts = ui_allowed_hosts(bind_host, bind_port);
    let ghost hv = views(hosts@);
    let host = match http_header(request, "host") {
        Some(h) => h,
        None => {
            return Err(RaftError::coded(ErrorCode::Error, String::from_str("missing Host header")));
        },
    };
    if !list_has_ignore_case(&hosts, host.as_str()) {
        let q = debug_str(host.as_str());
        let mut m = String::from_str("blocked request Host ");
        m.append(q.as_str());
        return Err(RaftError::coded(ErrorCode::Error, m));
    }
    let mc = chars_of(request.method.as_str());
    let post = ['P', 'O', 'S', 'T'];
    proof {
        reveal_strlit("POST");
        assert(post@ =~= "POST"@);
    }
    if chars_eq_ignore_case(mc.as_slice(), &post) {
        let origins = ui_allowed_origins(hosts.as_slice());
        let origin_ok = match http_header(request, "origin") {
            Some(o) => list_has_ignore_case(&origins, o.as_str()),
            None => false,
        };
        let ref_ok = match http_header(request, "referer") {
            Some(rf) => referer_ok(&origins, rf.as_str()),
            None => false,
        };
        if !origin_ok && !ref_ok {
            return Err(RaftError::coded(ErrorCode::Error, String::from_str("blocked cross-origin UI write")));
        }
    }
    Ok(())
}

/// A request target split at its first `?` into path and query.
pub open spec fn target_parts(target: Seq<char>) -> (Seq<char>, Option<Seq<char>>) {
    match split_once(target, '?') {
        Some((path, query)) => (path, Some(query)),
        None => (target, None),
    }
}

/// Splits a request target into its path and query string.
pub fn split_http_target(target: &str) -> (r: (String, Option<String>))
    ensures
        (r.0@, opt_string_view(r.1)) == target_parts(target@),
{
    let tc = chars_of(target);
    match split_once_chars(tc.as_slice(), '?') {
        Some((path, query)) => (string_of(path.as_slice()), Some(string_of(query.as_slice()))),
        None => (String::from_str(target), None),
    }
}

/// A UTF-8 continuation byte: never the start of a character.
pub open spec fn is_continuation(b: u8) -> bool {
    0x80 <= b && b < 0xC0
}

/// A two-byte chunk read as a base-16 byte; bytes outside ASCII never are.
pub open spec fn byte_pair(b1: u8, b2: u8) -> Option<u8> {
    if b1 < 0x80 && b2 < 0x80 { hex_pair(b1 as char, b2 as char) } else { None }
}

/// Percent-decoding from byte `i` on: `%XX` becomes that byte, `+` a
/// space, every other byte the character of the same number. The flag
/// reports a `%XX` chunk ending inside a multi-byte character, where slicing
/// the text panics.
pub open spec fn pct_scan(b: Seq<u8>, i: int) -> (bool, Seq<char>)
    decreases b.len() - i,
{
    if i < 0 || i >= b.len() {
        (false, Seq::empty())
    } else if b[i] == 37 && i + 2 < b.len() {
        if i + 3 < b.len() && is_continuation(b[i + 3]) {
            (true, Seq::empty())
        } else {
            match byte_pair(b[i + 1], b[i + 2]) {
                Some(x) => {
                    let r = pct_scan(b, i + 3);
                    (r.0, seq![x as char] + r.1)
                },
                None => {
                    let r = pct_scan(b, i + 1);
                    (r.0, seq!['%'] + r.1)
                },
            }
        }
    } else if b[i] == 43 {
        let r = pct_scan(b, i + 1);
        (r.0, seq![' '] + r.1)
    } else {
        let r = pct_scan(b, i + 1);
        (r.0, seq![b[i] as char] + r.1)
    }
}

/// Inputs on which percent-decoding slices off a character boundary.
pub open spec fn percent_decode_panics(value: Seq<char>) -> bool {
    pct_scan(utf8(value), 0).0
}

/// What percent-decoding gives.
pub open spec fn percent_decoded(value: Seq<char>) -> Seq<char> {
    pct_scan(utf8(value), 0).1
}

fn byte_char(b: u8) -> (c: char)
    ensures
        c == b as char,
{
    b as char
}

fn byte_pair_value(b1: u8, b2: u8) -> (r: Option<u8>)
    ensures
        r == byte_pair(b1, b2),
{
    if b1 < 0x80 && b2 < 0x80 {
        let c1 = byte_char(b1);
        let c2 = byte_char(b2);
        crate::hex::pair_value(c1, c2)
    } else {
        None
    }
}

/// Decodes bytes from `i` on; `Err` when a chunk would slice inside a character.
fn pct_bytes(b: &Vec<u8>) -> (r: Result<Vec<char>, ()>)
    ensures
        match r {
            Ok(out) => pct_scan(b@, 0) == (false, out@),
            Err(()) => pct_scan(b@, 0).0,
        },
{
    let n = b.len();
    let mut out: Vec<char> = Vec::new();
    let mut i: usize = 0;
    while i < n
        invariant
            n == b@.len(),
            i <= n,
            pct_scan(b@, 0).0 == pct_scan(b@, i as int).0,
            pct_scan(b@, 0).1 == out@ + pct_scan(b@, i as int).1,
        decreases n - i,
    {
        let ghost before = out@;
        if b[i] == 37 && n >= 3 && i < n - 2 {
            if i + 3 < n && b[i + 3] >= 0x80 && b[i + 3] < 0xC0 {
                return Err(());
            }
            match byte_pair_value(b[i + 1], b[i + 2]) {
                Some(x) => {
                    out.push(byte_char(x));
                    proof {
                        assert(out@ + pct_scan(b@, i + 3).1 =~= before + (seq![x as char] + pct_scan(b@, i + 3).1));
                    }
                    i = i + 3;
                },
                None => {
                    out.push('%');
                    proof {
                        assert(out@ + pct_scan(b@, i + 1).1 =~= before + (seq!['%'] + pct_scan(b@, i + 1).1));
                    }
                    i = i + 1;
                },
            }
        } else if b[i] == 43 {
            out.push(' ');
            proof {
                assert(out@ + pct_scan(b@, i + 1).1 =~= before + (seq![' '] + pct_scan(b@, i + 1).1));
            }
            i = i + 1;
        } else {
            let c = byte_char(b[i]);
            out.push(c);
            proof {
                assert(out@ + pct_scan(b@, i + 1).1 =~= before + (seq![b@[i as int] as char] + pct_scan(b@, i + 1).1));
            }
            i = i + 1;
        }
    }
    assert(out@ + Seq::<char>::empty() =~= out@);
    Ok(out)
}

/// Whether decoding `value` would slice it inside a multi-byte character.
pub fn percent_decode_would_panic(value: &str) -> (r: bool)
    ensures
        r == percent_decode_panics(value@),
{
    let cs = chars_of(value);
    let b = utf8_bytes(cs.as_slice());
    pct_bytes(&b).is_err()
}

/// Decode a URL-encoded query component: `%XX` escapes and `+` for space.
/// Each remaining byte becomes the character of the same number.
pub fn percent_decode(value: &str) -> (r: String)
    requires
        !percent_decode_panics(value@),
    ensures
        r@ == percent_decoded(value@),
{
    let cs = chars_of(value);
    let b = utf8_bytes(cs.as_slice());
    match pct_bytes(&b) {
        Ok(out) => string_of(out.as_slice()),
        Err(()) => String::new(),
    }
}

/// A query part split at its first `=`; a part without one is a key with an
/// empty value.
pub open spec fn key_value(part: Seq<char>) -> (Seq<char>, Seq<char>) {
    match split_once(part, '=') {
        Some((k, v)) => (k, v),
        None => (part, Seq::empty()),
    }
}

/// Looking up `name` among query parts: the decoded value of the first part
/// whose decoded key is `name`, with a flag for a decoding that panics
/// before the lookup ends.
pub open spec fn query_scan(parts: Seq<Seq<char>>, name: Seq<char>) -> (bool, Option<Seq<char>>)
    decreases parts.len(),
{
    if parts.len() == 0 {
        (false, None)
    } else {
        let kv = key_value(parts[0]);
        if percent_decode_panics(kv.0) {
            (true, None)
        } else if percent_decoded(kv.0) == name {
            (percent_decode_panics(kv.1), Some(percent_decoded(kv.1)))
        } else {
            query_scan(parts.drop_first(), name)
        }
    }
}

pub open spec fn query_panics(query: Option<Seq<char>>, name: Seq<char>) -> bool {
    match query {
        Some(q) => query_scan(split_on(q, '&'), name).0,
        None => false,
    }
}

pub open spec fn query_value(query: Option<Seq<char>>, name: Seq<char>) -> Option<Seq<char>> {
    match query {
        Some(q) => query_scan(split_on(q, '&'), name).1,
        None => None,
    }
}

/// The decoded value of the first `name=value` pair of a query string.
pub fn query_param(query: Option<&str>, name: &str) -> (r: Option<String>)
    requires
        !query_panics(match query { Some(q) => Some(q@), None => None }, name@),
    ensures
        opt_string_view(r) == query_value(match query { Some(q) => Some(q@), None => None }, name@),
{
    let q = match query {
        Some(q) => q,
        None => {
            return None;
        },
    };
    let qc = chars_of(q);
    let parts = split_chars(qc.as_slice(), '&');
    let ghost ps = split_on(q@, '&');
    let mut i: usize = 0;
    assert(ps.skip(0) =~= ps);
    while i < parts.len()
        invariant
            i <= parts@.len(),
            parts@.len() == ps.len(),
            ps == split_on(q@, '&'),
            query == Some(q),
            forall|k: int| 0 <= k < parts@.len() ==> #[trigger] parts@[k]@ == ps[k],
            query_scan(ps, name@) == query_scan(ps.skip(i as int), name@),
            !query_scan(ps, name@).0,
        decreases parts@.len() - i,
    {
        proof {
            let t = ps.skip(i as int);
            assert(t[0] == ps[i as int]);
            assert(t.drop_first() =~= ps.skip(i + 1));
        }
        let (key, value) = match split_once_chars(parts[i].as_slice(), '=') {
            Some((k, v)) => (k, v),
            None => (parts[i].clone(), Vec::new()),
        };
        proof {
            assert(key@ == key_value(ps[i as int]).0);
            assert(value@ =~= key_value(ps[i as int]).1);
        }
        let ks = string_of(key.as_slice());
        let dk = percent_decode(ks.as_str());
        if str_eq(dk.as_str(), name) {
            let vs = string_of(value.as_slice());
            proof {
                let kv = key_value(ps[i as int]);
                assert(kv.0 == key@ && kv.1 == value@);
                assert(!percent_decode_panics(kv.0));
                assert(percent_decoded(kv.0) == name@);
                assert(query_scan(ps.skip(i as int), name@) == (percent_decode_panics(kv.1), Some(percent_decoded(kv.1))));
                assert(query_value(Some(q@), name@) == Some(percent_decoded(value@)));
            }
            return Some(percent_decode(vs.as_str()));
        }
        i = i + 1;
    }
    None
}

/// Whether looking `name` up in `query` would panic while decoding.
pub fn query_would_panic(query: Option<&str>, name: &str) -> (r: bool)
    ensures
        r == query_panics(match query { Some(q) => Some(q@), None => None }, name@),
{
    let q = match query {
        Some(q) => q,
        None => {
            return false;
        },
    };
    let qc = chars_of(q);
    let parts = split_chars(qc.as_slice(), '&');
    let ghost ps = split_on(q@, '&');
    let mut i: usize = 0;
    assert(ps.skip(0) =~= ps);
    while i < parts.len()
        invariant
            i <= parts@.len(),
            parts@.len() == ps.len(),
            ps == split_on(q@, '&'),
            query == Some(q),
            forall|k: int| 0 <= k < parts@.len() ==> #[trigger] parts@[k]@ == ps[k],
            query_scan(ps, name@) == query_scan(ps.skip(i as int), name@),
        decreases parts@.len() - i,
    {
        proof {
            let t = ps.skip(i as int);
            assert(t[0] == ps[i as int]);
            assert(t.drop_first() =~= ps.skip(i + 1));
        }
        let (key, value) = match split_once_chars(parts[i].as_slice(), '=') {
            Some((k, v)) => (k, v),
            None => (parts[i].clone(), Vec::new()),
        };
        proof {
            assert(key@ == key_value(ps[i as int]).0);
            assert(value@ =~= key_value(ps[i as int]).1);
        }
        let ks = string_of(key.as_slice());
        if percent_decode_would_panic(ks.as_str()) {
            return true;
        }
        let dk = percent_decode(ks.as_str());
        if str_eq(dk.as_str(), name) {
            let vs = string_of(value.as_slice());
            return percent_decode_would_panic(vs.as_str());
        }
        i = i + 1;
    }
    assert(ps.skip(parts@.len() as int) =~= Seq::<Seq<char>>::empty());
    false
}

} // verus!
