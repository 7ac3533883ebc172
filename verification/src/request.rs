//! Framing an HTTP request read from a socket: whether the bytes read so far
//! hold the whole request, and which request they hold.

use vstd::prelude::*;
use crate::error::{ErrorCode, RaftError};
use crate::http::{
    blank_line_at, content_length_in, header_lines, http_content_length, http_header_end, lines, lines_of,
    pair_views, parse_http_headers, parsed_headers, HttpRequest,
};
use crate::text::{char_is_whitespace, is_whitespace, leading_ws, lemma_leading_ws, string_of};

verus! {

broadcast use vstd::std_specs::vec::group_vec_axioms, vstd::seq::group_seq_axioms;

/// The text `String::from_utf8_lossy` makes of some bytes: their UTF-8
/// reading, each invalid sequence replaced by U+FFFD.
pub uninterp spec fn lossy_text(bytes: Seq<u8>) -> Seq<char>;

/// `String::from_utf8_lossy`, which depends on the bytes alone.
#[verifier::external_body]
fn utf8_lossy(bytes: &[u8]) -> (r: String)
    ensures
        r@ == lossy_text(bytes@),
{
    String::from_utf8_lossy(bytes).into_owned()
}

/// The first blank line `\r\n\r\n` at or after `i`.
pub open spec fn blank_line_from(b: Seq<u8>, i: int) -> Option<int>
    decreases b.len() - i,
{
    if i < 0 || i + 4 > b.len() {
        None
    } else if blank_line_at(b, i) {
        Some(i)
    } else {
        blank_line_from(b, i + 1)
    }
}

/// Where the head of the request ends: its first blank line.
pub open spec fn head_end(b: Seq<u8>) -> Option<int> {
    blank_line_from(b, 0)
}

proof fn lemma_blank_line_found(b: Seq<u8>, k: int, i: int)
    requires
        0 <= k <= i,
        blank_line_at(b, i),
        forall|j: int| k <= j < i ==> !blank_line_at(b, j),
    ensures
        blank_line_from(b, k) == Some(i),
    decreases i - k,
{
    if k < i {
        lemma_blank_line_found(b, k + 1, i);
    }
}

proof fn lemma_blank_line_absent(b: Seq<u8>, k: int)
    requires
        0 <= k,
        forall|j: int| k <= j ==> !blank_line_at(b, j),
    ensures
        blank_line_from(b, k) is None,
    decreases b.len() - k,
{
    if k + 4 <= b.len() {
        lemma_blank_line_absent(b, k + 1);
    }
}

fn find_head_end(bytes: &[u8]) -> (r: Option<usize>)
    ensures
        match r {
            Some(i) => head_end(bytes@) == Some(i as int) && i + 4 <= bytes@.len(),
            None => head_end(bytes@) is None,
        },
{
    let r = http_header_end(bytes);
    proof {
        match r {
            Some(i) => lemma_blank_line_found(bytes@, 0, i as int),
            None => lemma_blank_line_absent(bytes@, 0),
        }
    }
    r
}

/// The body length a head declares: 0 without `Content-Length`, `None`
/// when its value is not a `usize`.
pub open spec fn declared_length(head: Seq<char>) -> Option<nat> {
    match content_length_in(header_lines(head)) {
        None => Some(0),
        Some(Some(n)) => if n <= usize::MAX { Some(n) } else { None },
        Some(None) => None,
    }
}

/// Largest request the UI reads, in bytes.
pub open spec fn request_limit() -> nat {
    1048576
}

/// Whether the bytes read so far make a whole request: `Ok(true)` once the
/// head and the body it declares are in; an error for an oversized request
/// or a bad `Content-Length`.
pub open spec fn request_complete(b: Seq<u8>) -> Result<bool, Seq<char>> {
    if b.len() > request_limit() {
        Err("request body is too large"@)
    } else {
        match head_end(b) {
            None => Ok(false),
            Some(h) => match declared_length(lossy_text(b.take(h))) {
                None => Err("invalid Content-Length"@),
                Some(n) => Ok(b.len() >= h + 4 + n),
            },
        }
    }
}

/// Decide, after each read, whether the request is complete.
pub fn frame_complete(bytes: &[u8]) -> (r: Result<bool, RaftError>)
    ensures
        match request_complete(bytes@) {
            Ok(c) => r matches Ok(d) && d == c,
            Err(m) => r matches Err(e) && e.code == ErrorCode::Error && e.message@ == m,
        },
{
    if bytes.len() > 1048576 {
        return Err(RaftError::coded(ErrorCode::Error, String::from_str("request body is too large")));
    }
    let h = match find_head_end(bytes) {
        Some(h) => h,
        None => {
            return Ok(false);
        },
    };
    let head_bytes = copy_bytes(bytes, 0, h);
    assert(head_bytes@ =~= bytes@.take(h as int));
    let head = utf8_lossy(head_bytes.as_slice());
    let n = http_content_length(head.as_str())?;
    Ok(bytes.len() - h - 4 >= n)
}

fn copy_bytes(b: &[u8], a: usize, e: usize) -> (r: Vec<u8>)
    requires
        a <= e <= b@.len(),
    ensures
        r@ == b@.subrange(a as int, e as int),
{
    let mut out: Vec<u8> = Vec::new();
    let mut i: usize = a;
    while i < e
        invariant
            a <= i <= e <= b@.len(),
            out@ == b@.subrange(a as int, i as int),
        decreases e - i,
    {
        out.push(b[i]);
        proof {
            assert(out@ =~= b@.subrange(a as int, i + 1));
        }
        i = i + 1;
    }
    out
}

fn copy_chars(s: &[char], a: usize, e: usize) -> (r: Vec<char>)
    requires
        a <= e <= s@.len(),
    ensures
        r@ == s@.subrange(a as int, e as int),
{
    let mut out: Vec<char> = Vec::new();
    let mut i: usize = a;
    while i < e
        invariant
            a <= i <= e <= s@.len(),
            out@ == s@.subrange(a as int, i as int),
        decreases e - i,
    {
        out.push(s[i]);
        proof {
            assert(out@ =~= s@.subrange(a as int, i + 1));
        }
        i = i + 1;
    }
    out
}

/// Length of the run of non-whitespace characters that starts `t`.
pub open spec fn token_len(t: Seq<char>) -> nat
    decreases t.len(),
{
    if t.len() > 0 && !is_whitespace(t[0]) {
        1 + token_len(t.drop_first())
    } else {
        0
    }
}

/// The first whitespace-separated word of `s` and what follows it.
pub open spec fn first_token(s: Seq<char>) -> Option<(Seq<char>, Seq<char>)> {
    let t = s.skip(leading_ws(s) as int);
    if t.len() == 0 {
        None
    } else {
        Some((t.take(token_len(t) as int), t.skip(token_len(t) as int)))
    }
}

proof fn lemma_token_len(t: Seq<char>, e: int)
    requires
        0 <= e <= t.len(),
        forall|j: int| 0 <= j < e ==> !is_whitespace(#[trigger] t[j]),
        e == t.len() || is_whitespace(t[e]),
    ensures
        token_len(t) == e,
    decreases e,
{
    if e > 0 {
        lemma_token_len(t.drop_first(), e - 1);
    }
}

/// The first word of `s[from..]` and the index where it ends.
fn next_token(s: &Vec<char>, from: usize) -> (r: Option<(Vec<char>, usize)>)
    requires
        from <= s@.len(),
    ensures
        match first_token(s@.skip(from as int)) {
            None => r is None,
            Some((w, rest)) => r matches Some((v, end)) && v@ == w && end <= s@.len() && s@.skip(end as int)
                == rest,
        },
{
    let ghost u = s@.skip(from as int);
    let n = s.len();
    let mut a: usize = from;
    while a < n && char_is_whitespace(s[a])
        invariant
            from <= a <= n == s@.len(),
            u == s@.skip(from as int),
            forall|j: int| from <= j < a ==> is_whitespace(s@[j]),
        decreases n - a,
    {
        a = a + 1;
    }
    proof {
        assert forall|j: int| 0 <= j < a - from implies is_whitespace(u[j]) by {
            assert(u[j] == s@[j + from]);
        }
        if a < n {
            assert(u[a - from] == s@[a as int]);
        }
        lemma_leading_ws(u, a - from);
        assert(u.skip(a - from) =~= s@.skip(a as int));
    }
    if a == n {
        return None;
    }
    let ghost t = s@.skip(a as int);
    let mut e: usize = a;
    while e < n && !char_is_whitespace(s[e])
        invariant
            a <= e <= n == s@.len(),
            t == s@.skip(a as int),
            forall|j: int| a <= j < e ==> !is_whitespace(s@[j]),
        decreases n - e,
    {
        e = e + 1;
    }
    proof {
        assert forall|j: int| 0 <= j < e - a implies !is_whitespace(#[trigger] t[j]) by {
            assert(t[j] == s@[j + a]);
        }
        if e < n {
            assert(t[e - a] == s@[e as int]);
        }
        lemma_token_len(t, e - a);
        assert(t.take(e - a) =~= s@.subrange(a as int, e as int));
        assert(t.skip(e - a) =~= s@.skip(e as int));
    }
    let w = copy_chars(s.as_slice(), a, e);
    Some((w, e))
}

/// A request as values.
pub struct RequestView {
    pub method: Seq<char>,
    pub target: Seq<char>,
    pub headers: Seq<(Seq<char>, Seq<char>)>,
    pub body: Seq<u8>,
}

pub open spec fn request_view(r: HttpRequest) -> RequestView {
    RequestView { method: r.method@, target: r.target@, headers: pair_views(r.headers@), body: r.body@ }
}

/// The request the bytes hold: method and target are the first two words of
/// the request line (`/` when there is no second), the headers follow, and
/// the body is what the head declares, cut short where the bytes end. No
/// bytes at all make an empty request.
pub open spec fn parsed_request(b: Seq<u8>) -> Result<RequestView, Seq<char>> {
    if b.len() == 0 {
        Ok(RequestView { method: Seq::empty(), target: Seq::empty(), headers: Seq::empty(), body: Seq::empty() })
    } else {
        match head_end(b) {
            None => Err("invalid HTTP request"@),
            Some(h) => {
                let head = lossy_text(b.take(h));
                let ls = lines(head);
                if ls.len() == 0 {
                    Err("missing HTTP request line"@)
                } else {
                    let (method, rest) = match first_token(ls[0]) {
                        Some((m, r)) => (m, r),
                        None => (Seq::<char>::empty(), Seq::<char>::empty()),
                    };
                    let target = match first_token(rest) {
                        Some((t, _)) => t,
                        None => "/"@,
                    };
                    match declared_length(head) {
                        None => Err("invalid Content-Length"@),
                        Some(n) => {
                            let end = if h + 4 + n < b.len() { h + 4 + n } else { b.len() as int };
                            Ok(
                                RequestView {
                                    method,
                                    target,
                                    headers: parsed_headers(header_lines(head)),
                                    body: b.subrange(h + 4, end),
                                },
                            )
                        },
                    }
                }
            },
        }
    }
}

/// Read the request the bytes hold.
pub fn parse_request(bytes: &[u8]) -> (r: Result<HttpRequest, RaftError>)
    ensures
        match parsed_request(bytes@) {
            Ok(v) => r matches Ok(q) && request_view(q) == v,
            Err(m) => r matches Err(e) && e.code == ErrorCode::Error && e.message@ == m,
        },
{
    if bytes.len() == 0 {
        let q = HttpRequest { method: String::new(), target: String::new(), headers: Vec::new(), body: Vec::new() };
        assert(request_view(q).headers =~= Seq::<(Seq<char>, Seq<char>)>::empty());
        return Ok(q);
    }
    let h = match find_head_end(bytes) {
        Some(h) => h,
        None => {
            return Err(RaftError::coded(ErrorCode::Error, String::from_str("invalid HTTP request")));
        },
    };
    let head_bytes = copy_bytes(bytes, 0, h);
    assert(head_bytes@ =~= bytes@.take(h as int));
    let head = utf8_lossy(head_bytes.as_slice());
    let hc = crate::text::chars_of(head.as_str());
    let ls = lines_of(hc.as_slice());
    if ls.len() == 0 {
        return Err(RaftError::coded(ErrorCode::Error, String::from_str("missing HTTP request line")));
    }
    let line = &ls[0];
    proof {
        assert(line@ == lines(head@)[0]);
        assert(line@.skip(0) =~= line@);
    }
    let (method, target) = match next_token(line, 0) {
        Some((m, e)) => {
            let t = match next_token(line, e) {
                Some((t, _)) => string_of(t.as_slice()),
                None => String::from_str("/"),
            };
            (string_of(m.as_slice()), t)
        },
        None => {
            proof {
                assert(line@.skip(0) =~= line@);
                assert(Seq::<char>::empty().skip(0) =~= Seq::<char>::empty());
                assert(first_token(Seq::<char>::empty()) is None);
            }
            (String::new(), String::from_str("/"))
        },
    };
    let n = http_content_length(head.as_str())?;
    let headers = parse_http_headers(head.as_str());
    let start = h + 4;
    let end = if bytes.len() - start > n {
        start + n
    } else {
        bytes.len()
    };
    let body = copy_bytes(bytes, start, end);
    Ok(HttpRequest { method, target, headers, body })
}

} // verus!
