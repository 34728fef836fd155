//! The HTTP/1.1 subset a request head is read in, and a reply head written
//! in: one request per connection, HTTP/1.0 or 1.1, bodies by
//! `Content-Length` (absent = empty, capped per route), `Expect:
//! 100-continue` honored, `Transfer-Encoding` refused; each header this
//! daemon reads at most once.

use vstd::prelude::*;
use vstd::string::*;
use vstd::utf8::*;
use crate::http::{self, Reply, TransportError};
use crate::lines;
use crate::origin;
use crate::query;
use crate::text;

verus! {

broadcast use vstd::utf8::group_utf8_lib;

/// Why a request was refused at the HTTP layer.
pub enum RequestRefusal {
    /// Not the HTTP subset this daemon speaks → `400 malformed_http`.
    Malformed(String),
    /// The declared `Content-Length` exceeds the route's body cap →
    /// `413 payload_too_large`, carrying the cap it exceeded.
    BodyTooLarge { declared: usize, cap: usize },
}

/// The body-cap refusal's detail.
pub open spec fn too_large_detail(declared: nat, cap: nat) -> Seq<char> {
    "Content-Length "@ + text::ascii_text(text::decimal(declared)) + " exceeds the "@
        + text::ascii_text(text::decimal(cap)) + "-byte body cap"@
}

/// Map a request refused at the HTTP layer onto the wire's transport
/// errors — the one place a refusal becomes HTTP.
pub fn refuse_request(refusal: RequestRefusal) -> (r: Reply)
    ensures
        match refusal {
            RequestRefusal::Malformed(d) => r.status == 400 && http::json_body(
                &r,
                http::refusal_bytes(
                    http::detail_fields(Some(encode_utf8(d@))),
                    TransportError::MalformedHttp,
                ),
            ),
            RequestRefusal::BodyTooLarge { declared, cap } => r.status == 413 && http::json_body(
                &r,
                http::refusal_bytes(
                    http::detail_fields(Some(encode_utf8(too_large_detail(declared as nat, cap as nat)))),
                    TransportError::PayloadTooLarge,
                ),
            ),
        },
{
    match refusal {
        RequestRefusal::Malformed(detail) => http::refuse(
            TransportError::MalformedHttp,
            Some(detail.as_str()),
        ),
        RequestRefusal::BodyTooLarge { declared, cap } => {
            let mut d = "Content-Length ".to_string();
            let a = text::u64_to_string(declared as u64);
            d.append(a.as_str());
            d.append(" exceeds the ");
            let b = text::u64_to_string(cap as u64);
            d.append(b.as_str());
            d.append("-byte body cap");
            http::refuse(TransportError::PayloadTooLarge, Some(d.as_str()))
        },
    }
}

// ── the request line ────────────────────────────────────────────────────

/// Uppercase ASCII letters only.
pub open spec fn all_upper(b: Seq<u8>) -> bool {
    forall|i: int| 0 <= i < b.len() ==> 65 <= #[trigger] b[i] <= 90
}

/// The request line, judged: the method and the target, or the refusal.
pub open spec fn request_line_verdict(line: Seq<u8>) -> Result<(Seq<u8>, Seq<u8>), Seq<char>> {
    let parts = query::pieces(line, 32u8);
    if parts.len() < 2 {
        Err("request line lacks a target"@)
    } else if parts.len() < 3 {
        Err("request line lacks an HTTP version"@)
    } else if parts.len() > 3 {
        Err("malformed request line"@)
    } else if parts[2] != "HTTP/1.1".spec_bytes() && parts[2] != "HTTP/1.0".spec_bytes() {
        Err("unsupported protocol '"@ + decode_utf8(parts[2]) + "'"@)
    } else if parts[0].len() == 0 || !all_upper(parts[0]) {
        Err("malformed method token"@)
    } else {
        Ok((parts[0], parts[1]))
    }
}

fn upper_only(b: &[u8]) -> (r: bool)
    ensures
        r == all_upper(b@),
{
    let mut i: usize = 0;
    while i < b.len()
        invariant
            0 <= i <= b@.len(),
            forall|j: int| 0 <= j < i ==> 65 <= #[trigger] b@[j] <= 90,
        decreases b@.len() - i,
    {
        if b[i] < 65 || b[i] > 90 {
            return false;
        }
        i = i + 1;
    }
    true
}

proof fn lemma_str_bytes_eq(a: &str, b: &str)
    ensures
        (a.spec_bytes() == b.spec_bytes()) == (a@ == b@),
{
    if a.spec_bytes() == b.spec_bytes() {
        assert(decode_utf8(a.spec_bytes()) == a@);
        assert(decode_utf8(b.spec_bytes()) == b@);
    }
}

/// The request line: the method and the target.
fn request_line(line: &str) -> (r: Result<(&str, &str), String>)
    ensures
        match request_line_verdict(line.spec_bytes()) {
            Ok((m, t)) => r matches Ok(x) && x.0.spec_bytes() == m && x.1.spec_bytes() == t,
            Err(e) => r matches Err(msg) && msg@ == e,
        },
{
    let ghost parts = query::pieces(line.spec_bytes(), 32u8);
    let (method, r1) = lines::next_run(line, 32u8);
    proof {
        origin::lemma_first_index_bounds(line.spec_bytes(), 32u8);
        match r1 {
            Some(a) => {
                assert(parts == seq![method.spec_bytes()] + query::pieces(a.spec_bytes(), 32u8));
            },
            None => {
                assert(parts == seq![method.spec_bytes()]);
            },
        }
    }
    let a = match r1 {
        None => {
            return Err("request line lacks a target".to_string());
        },
        Some(a) => a,
    };
    let (target, r2) = lines::next_run(a, 32u8);
    proof {
        origin::lemma_first_index_bounds(a.spec_bytes(), 32u8);
        let pa = query::pieces(a.spec_bytes(), 32u8);
        match r2 {
            Some(b) => {
                assert(pa == seq![target.spec_bytes()] + query::pieces(b.spec_bytes(), 32u8));
            },
            None => {
                assert(pa == seq![target.spec_bytes()]);
            },
        }
        assert(parts.drop_first() =~= pa);
    }
    let b = match r2 {
        None => {
            return Err("request line lacks an HTTP version".to_string());
        },
        Some(b) => b,
    };
    let (version, r3) = lines::next_run(b, 32u8);
    proof {
        origin::lemma_first_index_bounds(b.spec_bytes(), 32u8);
        let pa = query::pieces(a.spec_bytes(), 32u8);
        let pb = query::pieces(b.spec_bytes(), 32u8);
        match r3 {
            Some(c) => {
                assert(pb == seq![version.spec_bytes()] + query::pieces(c.spec_bytes(), 32u8));
                assert(query::pieces(c.spec_bytes(), 32u8).len() >= 1) by {
                    origin::lemma_first_index_bounds(c.spec_bytes(), 32u8);
                }
            },
            None => {
                assert(pb == seq![version.spec_bytes()]);
            },
        }
        assert(pa.drop_first() =~= pb);
        assert(parts[2] == version.spec_bytes());
    }
    if r3.is_some() {
        return Err("malformed request line".to_string());
    }
    proof {
        lemma_str_bytes_eq(version, "HTTP/1.1");
        lemma_str_bytes_eq(version, "HTTP/1.0");
        assert(decode_utf8(version.spec_bytes()) == version@);
    }
    if !text::str_eq(version, "HTTP/1.1") && !text::str_eq(version, "HTTP/1.0") {
        let mut m = "unsupported protocol '".to_string();
        m.append(version);
        m.append("'");
        return Err(m);
    }
    let mb = method.as_bytes();
    if mb.len() == 0 || !upper_only(mb) {
        return Err("malformed method token".to_string());
    }
    Ok((method, target))
}

// ── the headers ─────────────────────────────────────────────────────────

/// What the headers so far came to: the declared length, the session
/// token, the origin, and whether `100-continue` is expected — each read
/// at most once.
pub type HeadState = (Option<nat>, Option<Seq<char>>, Option<Seq<char>>, Option<bool>);

/// `duplicate header '<name>'`
pub open spec fn duplicate_header(name: Seq<char>) -> Seq<char> {
    "duplicate header '"@ + name + "'"@
}

/// One header line applied.
pub open spec fn request_step(st: HeadState, line: Seq<u8>) -> Result<HeadState, Seq<char>> {
    if line.len() == 0 {
        Ok(st)
    } else {
        match query::split_once(line, 58u8) {
            None => Err("malformed header line '"@ + decode_utf8(line) + "'"@),
            Some((n, v)) => {
                let name = lines::trim_chars(decode_utf8(n));
                let value = lines::trim_chars(decode_utf8(v));
                let nb = encode_utf8(name);
                if lines::eq_ignore_case(nb, "Content-Length".spec_bytes()) {
                    if st.0 is Some {
                        Err(duplicate_header(name))
                    } else {
                        match text::std_parse_unsigned(encode_utf8(value), usize::MAX as nat) {
                            Some(x) => Ok((Some(x), st.1, st.2, st.3)),
                            None => Err("bad Content-Length '"@ + value + "'"@),
                        }
                    }
                } else if lines::eq_ignore_case(nb, "Skepd-Session".spec_bytes()) {
                    if st.1 is Some {
                        Err(duplicate_header(name))
                    } else {
                        Ok((st.0, Some(value), st.2, st.3))
                    }
                } else if lines::eq_ignore_case(nb, "Origin".spec_bytes()) {
                    if st.2 is Some {
                        Err(duplicate_header(name))
                    } else {
                        Ok((st.0, st.1, Some(value), st.3))
                    }
                } else if lines::eq_ignore_case(nb, "Expect".spec_bytes()) {
                    if st.3 is Some {
                        Err(duplicate_header(name))
                    } else {
                        Ok(
                            (
                                st.0,
                                st.1,
                                st.2,
                                Some(
                                    lines::eq_ignore_case(
                                        encode_utf8(value),
                                        "100-continue".spec_bytes(),
                                    ),
                                ),
                            ),
                        )
                    }
                } else if lines::eq_ignore_case(nb, "Transfer-Encoding".spec_bytes()) {
                    Err("chunked request bodies are unsupported; send Content-Length"@)
                } else {
                    Ok(st)
                }
            },
        }
    }
}

/// The header lines, in order, from a starting state.
pub open spec fn request_headers(ls: Seq<Seq<u8>>, st: HeadState) -> Result<HeadState, Seq<char>>
    decreases ls.len(),
{
    if ls.len() == 0 {
        Ok(st)
    } else {
        match request_step(st, ls[0]) {
            Err(e) => Err(e),
            Ok(next) => request_headers(ls.drop_first(), next),
        }
    }
}

/// A request head, read: the method, the target split at its first `?`,
/// and the headers this daemon acts on.
pub struct RequestHead {
    pub method: String,
    pub path: String,
    pub query: Option<String>,
    pub content_length: Option<usize>,
    pub session_token: Option<String>,
    pub origin: Option<String>,
    pub expects_continue: bool,
}

/// An optional text as characters.
pub open spec fn opt_text(o: Option<String>) -> Option<Seq<char>> {
    match o {
        Some(s) => Some(s@),
        None => None,
    }
}

/// The exec state as the spec's.
pub open spec fn head_state(
    cl: Option<usize>,
    token: Option<String>,
    origin: Option<String>,
    expect: Option<bool>,
) -> HeadState {
    (
        match cl {
            Some(n) => Some(n as nat),
            None => None,
        },
        opt_text(token),
        opt_text(origin),
        expect,
    )
}

/// One header line applied to the reader's state.
fn request_apply(
    cl: Option<usize>,
    token: Option<String>,
    origin: Option<String>,
    expect: Option<bool>,
    line: &str,
) -> (r: Result<(Option<usize>, Option<String>, Option<String>, Option<bool>), String>)
    ensures
        match request_step(head_state(cl, token, origin, expect), line.spec_bytes()) {
            Ok(st) => r matches Ok(x) && head_state(x.0, x.1, x.2, x.3) == st,
            Err(e) => r matches Err(m) && m@ == e,
        },
{
    proof {
        assert(decode_utf8(line.spec_bytes()) == line@);
    }
    if line.as_bytes().len() == 0 {
        return Ok((cl, token, origin, expect));
    }
    let (n, rest) = lines::next_run(line, 58u8);
    let v = match rest {
        None => {
            let mut m = "malformed header line '".to_string();
            m.append(line);
            m.append("'");
            return Err(m);
        },
        Some(v) => v,
    };
    proof {
        assert(decode_utf8(n.spec_bytes()) == n@);
        assert(decode_utf8(v.spec_bytes()) == v@);
    }
    let name = lines::trim(n);
    let value = lines::trim(v);
    let nb = name.as_bytes();
    if lines::eq_ignore_ascii_case(nb, "Content-Length".as_bytes()) {
        if cl.is_some() {
            return Err(duplicate(name));
        }
        match text::parse_unsigned(value.as_bytes(), usize::MAX as u64) {
            Some(x) => Ok((Some(x as usize), token, origin, expect)),
            None => {
                let mut m = "bad Content-Length '".to_string();
                m.append(value);
                m.append("'");
                Err(m)
            },
        }
    } else if lines::eq_ignore_ascii_case(nb, "Skepd-Session".as_bytes()) {
        if token.is_some() {
            return Err(duplicate(name));
        }
        Ok((cl, Some(value.to_string()), origin, expect))
    } else if lines::eq_ignore_ascii_case(nb, "Origin".as_bytes()) {
        if origin.is_some() {
            return Err(duplicate(name));
        }
        Ok((cl, token, Some(value.to_string()), expect))
    } else if lines::eq_ignore_ascii_case(nb, "Expect".as_bytes()) {
        if expect.is_some() {
            return Err(duplicate(name));
        }
        let e = lines::eq_ignore_ascii_case(value.as_bytes(), "100-continue".as_bytes());
        Ok((cl, token, origin, Some(e)))
    } else if lines::eq_ignore_ascii_case(nb, "Transfer-Encoding".as_bytes()) {
        Err("chunked request bodies are unsupported; send Content-Length".to_string())
    } else {
        Ok((cl, token, origin, expect))
    }
}

fn duplicate(name: &str) -> (m: String)
    ensures
        m@ == duplicate_header(name@),
{
    let mut m = "duplicate header '".to_string();
    m.append(name);
    m.append("'");
    m
}

/// The header lines after the request line, read in order.
fn header_block(rest: Option<&str>) -> (r: Result<
    (Option<usize>, Option<String>, Option<String>, Option<bool>),
    String,
>)
    ensures
        match request_headers(
            match rest {
                Some(t) => lines::crlf_lines(t.spec_bytes()),
                None => Seq::<Seq<u8>>::empty(),
            },
            (None, None, None, None),
        ) {
            Ok(st) => r matches Ok(x) && head_state(x.0, x.1, x.2, x.3) == st,
            Err(e) => r matches Err(m) && m@ == e,
        },
{
    let ghost all = match rest {
        Some(t) => lines::crlf_lines(t.spec_bytes()),
        None => Seq::<Seq<u8>>::empty(),
    };
    let mut cl: Option<usize> = None;
    let mut token: Option<String> = None;
    let mut origin: Option<String> = None;
    let mut expect: Option<bool> = None;
    let mut cursor = rest;
    loop
        invariant
            all == (match rest {
                Some(t) => lines::crlf_lines(t.spec_bytes()),
                None => Seq::<Seq<u8>>::empty(),
            }),
            request_headers(all, (None, None, None, None)) == request_headers(
                match cursor {
                    Some(t) => lines::crlf_lines(t.spec_bytes()),
                    None => Seq::<Seq<u8>>::empty(),
                },
                head_state(cl, token, origin, expect),
            ),
        decreases match cursor {
            Some(t) => t.spec_bytes().len() + 1,
            None => 0,
        },
    {
        let t = match cursor {
            None => {
                return Ok((cl, token, origin, expect));
            },
            Some(t) => t,
        };
        let (line, next) = lines::next_line(t);
        proof {
            let rest_lines = match next {
                Some(u) => lines::crlf_lines(u.spec_bytes()),
                None => Seq::<Seq<u8>>::empty(),
            };
            let ls = lines::crlf_lines(t.spec_bytes());
            assert(ls[0] == line.spec_bytes());
            assert(ls.drop_first() =~= rest_lines);
        }
        match request_apply(cl, token, origin, expect, line) {
            Err(e) => {
                return Err(e);
            },
            Ok((a, b, c, d)) => {
                cl = a;
                token = b;
                origin = c;
                expect = d;
            },
        }
        cursor = next;
    }
}

/// The head, judged: the request line's method and target, and the
/// headers' state — or the first refusal.
pub open spec fn request_head_verdict(head: Seq<u8>) -> Result<
    (Seq<u8>, Seq<u8>, HeadState),
    Seq<char>,
> {
    if !valid_utf8(head) {
        Err("request head is not UTF-8"@)
    } else {
        let ls = lines::crlf_lines(head);
        match request_line_verdict(ls[0]) {
            Err(e) => Err(e),
            Ok((m, t)) => match request_headers(ls.drop_first(), (None, None, None, None)) {
                Err(e) => Err(e),
                Ok(st) => Ok((m, t, st)),
            },
        }
    }
}

/// Read a request head — the bytes before its `\r\n\r\n` — in the subset:
/// the method uppercase, the target, `HTTP/1.1` or `HTTP/1.0`, and the
/// headers this daemon acts on, each at most once; `Transfer-Encoding`
/// refused. The target is split at its first `?` into path and query.
pub fn parse_request_head(head: &[u8]) -> (r: Result<RequestHead, RequestRefusal>)
    ensures
        match request_head_verdict(head@) {
            Ok((m, t, st)) => r matches Ok(h) && {
                &&& h.method@ == decode_utf8(m)
                &&& match query::split_once(t, 63u8) {
                    Some((p, q)) => h.path@ == decode_utf8(p) && opt_text(h.query) == Some(
                        decode_utf8(q),
                    ),
                    None => h.path@ == decode_utf8(t) && h.query is None,
                }
                &&& (match h.content_length {
                    Some(n) => Some(n as nat),
                    None => None,
                }) == st.0
                &&& opt_text(h.session_token) == st.1
                &&& opt_text(h.origin) == st.2
                &&& h.expects_continue == (st.3 == Some(true))
            },
            Err(e) => r matches Err(RequestRefusal::Malformed(m)) && m@ == e,
        },
{
    let text_head = match text::str_from_utf8(head) {
        None => {
            return Err(RequestRefusal::Malformed("request head is not UTF-8".to_string()));
        },
        Some(h) => h,
    };
    let (line, rest) = lines::next_line(text_head);
    proof {
        let ls = lines::crlf_lines(text_head.spec_bytes());
        assert(ls[0] == line.spec_bytes());
        assert(ls.drop_first() =~= (match rest {
            Some(t) => lines::crlf_lines(t.spec_bytes()),
            None => Seq::<Seq<u8>>::empty(),
        }));
    }
    let (method, target) = match request_line(line) {
        Err(e) => {
            return Err(RequestRefusal::Malformed(e));
        },
        Ok(x) => x,
    };
    let (cl, token, origin, expect) = match header_block(rest) {
        Err(e) => {
            return Err(RequestRefusal::Malformed(e));
        },
        Ok(x) => x,
    };
    proof {
        assert(decode_utf8(method.spec_bytes()) == method@);
        assert(decode_utf8(target.spec_bytes()) == target@);
    }
    let (p, q) = lines::next_run(target, 63u8);
    proof {
        assert(decode_utf8(p.spec_bytes()) == p@);
        match q {
            Some(qq) => {
                assert(decode_utf8(qq.spec_bytes()) == qq@);
            },
            None => {},
        }
    }
    let query = match q {
        Some(qq) => Some(qq.to_string()),
        None => None,
    };
    let expects_continue = match expect {
        Some(true) => true,
        _ => false,
    };
    Ok(
        RequestHead {
            method: method.to_string(),
            path: p.to_string(),
            query,
            content_length: cl,
            session_token: token,
            origin,
            expects_continue,
        },
    )
}

/// The body length a head declares (absent = empty), refused before a
/// byte is read where it exceeds the route's cap — the cap that actually
/// bound this route.
pub fn admit_body(head: &RequestHead) -> (r: Result<usize, RequestRefusal>)
    ensures
        ({
            let declared = match head.content_length {
                Some(n) => n,
                None => 0usize,
            };
            let cap = if head.path@ == "/op"@ || head.path@ == "/op-at"@ {
                http::MAX_REQUEST_BODY
            } else {
                http::MAX_SMALL_BODY
            };
            &&& declared > cap ==> (r matches Err(RequestRefusal::BodyTooLarge { declared: d, cap: c })
                && d == declared && c == cap)
            &&& declared <= cap ==> r == Ok::<usize, RequestRefusal>(declared)
        }),
{
    let declared = match head.content_length {
        Some(n) => n,
        None => 0,
    };
    let cap = http::body_cap(head.path.as_str());
    if declared > cap {
        return Err(RequestRefusal::BodyTooLarge { declared, cap });
    }
    Ok(declared)
}

// ── the reply's head ────────────────────────────────────────────────────

/// A header list's lines.
pub open spec fn header_lines(h: Seq<(Seq<char>, Seq<char>)>) -> Seq<u8>
    decreases h.len(),
{
    if h.len() == 0 {
        Seq::empty()
    } else {
        header_lines(h.drop_last()) + http::header_line(
            encode_utf8(h.last().0),
            encode_utf8(h.last().1),
        )
    }
}

/// The reply's head, whole: the status line, the universal headers, the
/// reply's own, the content headers where there is a body, and the blank
/// line.
pub open spec fn reply_head_bytes(r: &Reply) -> Seq<u8> {
    "HTTP/1.1 ".spec_bytes() + text::decimal(r.status as nat) + " ".spec_bytes() + encode_utf8(
        http::reason_spec(r.status),
    ) + http::crlf() + header_lines(http::universal_headers_spec() + http::header_views(r.headers@))
        + match r.body {
        Some(b) => http::header_line("Content-Type".spec_bytes(), b.content_type.spec_bytes())
            + http::header_line(
            "Content-Length".spec_bytes(),
            text::decimal(b.bytes@.len()),
        ),
        None => Seq::empty(),
    } + http::crlf()
}

fn push_header_list(head: &mut Vec<u8>, h: &Vec<(&'static str, &'static str)>)
    ensures
        final(head)@ == old(head)@ + header_lines(http::header_views(h@)),
{
    let ghost start = head@;
    let mut i: usize = 0;
    while i < h.len()
        invariant
            0 <= i <= h@.len(),
            head@ == start + header_lines(http::header_views(h@).take(i as int)),
        decreases h@.len() - i,
    {
        let (name, value) = h[i];
        http::push_header(head, name, value);
        proof {
            let t = http::header_views(h@).take(i + 1);
            assert(t.drop_last() =~= http::header_views(h@).take(i as int));
        }
        i = i + 1;
    }
    assert(http::header_views(h@).take(i as int) =~= http::header_views(h@));
}

proof fn lemma_header_lines_concat(a: Seq<(Seq<char>, Seq<char>)>, b: Seq<(Seq<char>, Seq<char>)>)
    ensures
        header_lines(a + b) == header_lines(a) + header_lines(b),
    decreases b.len(),
{
    if b.len() == 0 {
        assert(a + b =~= a);
    } else {
        assert((a + b).drop_last() =~= a + b.drop_last());
        lemma_header_lines_concat(a, b.drop_last());
    }
}

/// The reply's head bytes; the body, where there is one, follows them
/// unchanged. Every reply carries the universal headers; a bodiless reply
/// carries no content headers.
pub fn reply_head(reply: &Reply) -> (head: Vec<u8>)
    ensures
        head@ == reply_head_bytes(reply),
{
    let mut head: Vec<u8> = Vec::new();
    text::push_str_bytes(&mut head, "HTTP/1.1 ");
    let code = text::u64_decimal(reply.status as u64);
    head.extend_from_slice(code.as_slice());
    text::push_str_bytes(&mut head, " ");
    text::push_str_bytes(&mut head, http::reason(reply.status));
    head.push(13u8);
    head.push(10u8);
    let universal = http::universal_headers();
    push_header_list(&mut head, &universal);
    push_header_list(&mut head, &reply.headers);
    proof {
        lemma_header_lines_concat(http::universal_headers_spec(), http::header_views(reply.headers@));
    }
    match &reply.body {
        Some(b) => {
            http::push_header(&mut head, "Content-Type", b.content_type);
            text::push_str_bytes(&mut head, "Content-Length");
            head.push(58u8);
            head.push(32u8);
            let n = text::u64_decimal(b.bytes.len() as u64);
            head.extend_from_slice(n.as_slice());
            head.push(13u8);
            head.push(10u8);
        },
        None => {},
    }
    head.push(13u8);
    head.push(10u8);
    assert(head@ =~= reply_head_bytes(reply));
    head
}

} // verus!
