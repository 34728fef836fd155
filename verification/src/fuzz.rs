//! The fuzzing harness's pure parts: the deterministic seed source, the
//! wire's two hand-transcribed name lists, the well-formedness oracle for
//! one HTTP response, the request builders, and the field-name mutation.

use vstd::prelude::*;
use vstd::string::*;
use vstd::utf8::*;
use crate::hex;
use crate::http;
use crate::lines;
use crate::origin;
use crate::query;
use crate::text;

verus! {

broadcast use vstd::utf8::group_utf8_lib;

// ── the seed source ─────────────────────────────────────────────────────

/// One SplitMix64 step: the state advanced by the golden-ratio increment,
/// and the output mixed from it.
pub open spec fn splitmix_next(s: u64) -> u64 {
    s.wrapping_add(0x9E37_79B9_7F4A_7C15)
}

/// SplitMix64's output for an advanced state.
pub open spec fn splitmix_out(z0: u64) -> u64 {
    let z1 = ((z0 ^ (z0 >> 30u64)) as u64).wrapping_mul(0xBF58_476D_1CE4_E5B9);
    let z2 = ((z1 ^ (z1 >> 27u64)) as u64).wrapping_mul(0x94D0_49BB_1331_11EB);
    z2 ^ (z2 >> 31u64)
}

/// SplitMix64 — the deterministic seed source; the seed is the entire
/// reproduction.
pub fn splitmix64(state: &mut u64) -> (r: u64)
    ensures
        *final(state) == splitmix_next(*old(state)),
        r == splitmix_out(splitmix_next(*old(state))),
{
    *state = state.wrapping_add(0x9E37_79B9_7F4A_7C15);
    let mut z = *state;
    z = (z ^ (z >> 30)).wrapping_mul(0xBF58_476D_1CE4_E5B9);
    z = (z ^ (z >> 27)).wrapping_mul(0x94D0_49BB_1331_11EB);
    z ^ (z >> 31)
}

// ── the name lists ──────────────────────────────────────────────────────

/// The response shapes every client must decode; a `/op` answer always
/// carries one of these in `resp`.
pub open spec fn response_shapes() -> Seq<Seq<char>> {
    seq![
        "ack"@,
        "ack_addr"@,
        "ack_edit"@,
        "delivery"@,
        "span_set"@,
        "addrs"@,
        "maybe_addr"@,
        "count"@,
        "page"@,
        "endsets"@,
        "runs"@,
        "bool"@,
        "link_value"@,
        "follow"@,
        "deletions"@,
        "compare"@,
        "orphans"@,
        "claims"@,
        "rejected"@,
    ]
}

/// The response shapes, as text.
pub fn resp_shapes() -> (v: Vec<&'static str>)
    ensures
        v@.len() == response_shapes().len(),
        forall|i: int| 0 <= i < v@.len() ==> #[trigger] v@[i]@ == response_shapes()[i],
{
    let v = vec![
        "ack",
        "ack_addr",
        "ack_edit",
        "delivery",
        "span_set",
        "addrs",
        "maybe_addr",
        "count",
        "page",
        "endsets",
        "runs",
        "bool",
        "link_value",
        "follow",
        "deletions",
        "compare",
        "orphans",
        "claims",
        "rejected",
    ];
    assert forall|i: int| 0 <= i < v@.len() implies #[trigger] v@[i]@ == response_shapes()[i] by {}
    v
}

/// The transport-level `error` names the HTTP surface is allowed to
/// answer: every transport error's wire name, and the handshake's own
/// `session_rejected`. A non-2xx body naming anything else is a
/// never-silent violation.
pub open spec fn documented_errors() -> Seq<Seq<char>> {
    seq![
        "malformed_session_request"@,
        "malformed_op_at"@,
        "write_at_history"@,
        "beyond_head"@,
        "not_a_position"@,
        "malformed_at"@,
        "malformed_changes"@,
        "malformed_http"@,
        "payload_too_large"@,
        "no_such_endpoint"@,
        "method_not_allowed"@,
        "history_reclaimed"@,
        "history_busy"@,
        "internal_panic"@,
        "history_io"@,
        "history_corrupt"@,
        "no_journal"@,
        "malformed_challenge"@,
        "session_rejected"@,
    ]
}

/// The documented transport-error names.
pub fn transport_errors() -> (v: Vec<&'static str>)
    ensures
        v@.len() == documented_errors().len(),
        forall|i: int| 0 <= i < v@.len() ==> #[trigger] v@[i]@ == documented_errors()[i],
{
    let v = vec![
        "malformed_session_request",
        "malformed_op_at",
        "write_at_history",
        "beyond_head",
        "not_a_position",
        "malformed_at",
        "malformed_changes",
        "malformed_http",
        "payload_too_large",
        "no_such_endpoint",
        "method_not_allowed",
        "history_reclaimed",
        "history_busy",
        "internal_panic",
        "history_io",
        "history_corrupt",
        "no_journal",
        "malformed_challenge",
        "session_rejected",
    ];
    assert forall|i: int| 0 <= i < v@.len() implies #[trigger] v@[i]@ == documented_errors()[i] by {}
    v
}

/// Lowercase hex of a byte slice — the reproduction form findings record.
pub fn hex(bytes: &[u8]) -> (s: String)
    ensures
        s@ == text::ascii_text(hex::hex_encode(bytes@)),
{
    hex::hex_string(bytes)
}

// ── the HTTP oracle ─────────────────────────────────────────────────────

/// A name for `{:?}` of a `str`: the text quoted and escaped as `str`'s
/// `Debug` writes it.
pub uninterp spec fn str_debug(s: Seq<char>) -> Seq<char>;

/// `format!("{:?}", s)` for a `&str`: the result is named, not described —
/// `Debug` escapes by Unicode tables (grapheme extension, printability)
/// that take pages to state; it depends on the text alone.
#[verifier::external_body]
fn debug_text(s: &str) -> (r: String)
    ensures
        r@ == str_debug(s@),
{
    format!("{s:?}")
}

/// What the header lines so far came to: the declared length (the last
/// one given), the lowercased content type, and whether the universal
/// `Access-Control-Allow-Origin` was seen.
pub open spec fn response_step(st: (Option<nat>, Seq<u8>, bool), line: Seq<u8>) -> Result<
    (Option<nat>, Seq<u8>, bool),
    Seq<char>,
> {
    if line.len() == 0 {
        Ok(st)
    } else {
        match query::split_once(line, 58u8) {
            None => Err("malformed header line: "@ + str_debug(decode_utf8(line))),
            Some((n, v)) => {
                let name = encode_utf8(lines::trim_chars(decode_utf8(n)));
                let value = lines::trim_chars(decode_utf8(v));
                if lines::eq_ignore_case(name, "Content-Length".spec_bytes()) {
                    match text::std_parse_unsigned(encode_utf8(value), usize::MAX as nat) {
                        Some(l) => Ok((Some(l), st.1, st.2)),
                        None => Err("bad Content-Length: "@ + str_debug(value)),
                    }
                } else if lines::eq_ignore_case(name, "Content-Type".spec_bytes()) {
                    Ok((st.0, lines::lowered(encode_utf8(value)), st.2))
                } else if lines::eq_ignore_case(name, "Access-Control-Allow-Origin".spec_bytes()) {
                    Ok((st.0, st.1, true))
                } else {
                    Ok(st)
                }
            },
        }
    }
}

/// The header lines, in order, from a starting state.
pub open spec fn response_headers(ls: Seq<Seq<u8>>, st: (Option<nat>, Seq<u8>, bool)) -> Result<
    (Option<nat>, Seq<u8>, bool),
    Seq<char>,
>
    decreases ls.len(),
{
    if ls.len() == 0 {
        Ok(st)
    } else {
        match response_step(st, ls[0]) {
            Err(e) => Err(e),
            Ok(next) => response_headers(ls.drop_first(), next),
        }
    }
}

/// `text/event-stream`
pub open spec fn event_stream() -> Seq<u8> {
    "text/event-stream".spec_bytes()
}

/// The oracle's verdict on what the head and body came to.
pub open spec fn response_verdict(
    status: u16,
    st: (Option<nat>, Seq<u8>, bool),
    body_len: nat,
) -> Result<u16, Seq<char>> {
    if !st.2 {
        Err("response missing Access-Control-Allow-Origin (wire v4)"@)
    } else if lines::contains_run(st.1, event_stream()) {
        Ok(status)
    } else if status == 204 {
        if body_len != 0 {
            Err("204 response carried a body"@)
        } else {
            Ok(status)
        }
    } else {
        match st.0 {
            Some(n) => if n == body_len {
                Ok(status)
            } else {
                Err(
                    "Content-Length "@ + text::ascii_text(text::decimal(n))
                        + " disagrees with body length "@ + text::ascii_text(
                        text::decimal(body_len),
                    ),
                )
            },
            None => Err("non-204 response without Content-Length"@),
        }
    }
}

/// The well-formedness oracle, decided: a parseable `HTTP/1.1 <code>`
/// status line, a header block of `Name: value` lines, the universal
/// `Access-Control-Allow-Origin`, and a body whose length agrees with
/// `Content-Length` — except a `204` carries none and a `text/event-stream`
/// is an unbounded stream with no declared length.
pub open spec fn http_verdict(bytes: Seq<u8>) -> Result<u16, Seq<char>> {
    if bytes.len() == 0 {
        Err("no response bytes (server closed without answering)"@)
    } else {
        match http::head_end(bytes) {
            None => Err("no CRLFCRLF header terminator"@),
            Some(sep) => {
                let head = bytes.take(sep);
                if !valid_utf8(head) {
                    Err("non-UTF-8 response head"@)
                } else {
                    let ls = lines::crlf_lines(head);
                    match status_verdict(ls[0]) {
                        Err(e) => Err(e),
                        Ok(status) => match response_headers(
                            ls.drop_first(),
                            (None, Seq::empty(), false),
                        ) {
                            Err(e) => Err(e),
                            Ok(st) => response_verdict(
                                status as u16,
                                st,
                                (bytes.len() - (sep + 4)) as nat,
                            ),
                        },
                    }
                }
            },
        }
    }
}

/// One header line applied to the oracle's state.
fn response_apply(
    cl: Option<usize>,
    ct: Vec<u8>,
    cors: bool,
    line: &str,
) -> (r: Result<(Option<usize>, Vec<u8>, bool), String>)
    ensures
        match response_step(
            (
                match cl {
                    Some(n) => Some(n as nat),
                    None => None,
                },
                ct@,
                cors,
            ),
            line.spec_bytes(),
        ) {
            Ok(st) => r matches Ok(x) && (match x.0 {
                Some(n) => Some(n as nat),
                None => None,
            }) == st.0 && x.1@ == st.1 && x.2 == st.2,
            Err(e) => r matches Err(m) && m@ == e,
        },
{
    proof {
        assert(decode_utf8(line.spec_bytes()) == line@);
    }
    if line.as_bytes().len() == 0 {
        return Ok((cl, ct, cors));
    }
    let (n, rest) = lines::next_run(line, 58u8);
    let v = match rest {
        None => {
            let mut m = "malformed header line: ".to_string();
            let d = debug_text(line);
            m.append(d.as_str());
            return Err(m);
        },
        Some(v) => v,
    };
    proof {
        assert(decode_utf8(n.spec_bytes()) == n@);
        assert(decode_utf8(v.spec_bytes()) == v@);
    }
    let name = lines::trim(n);
    let value = lines::trim(v);
    let nb = name.as_bytes();
    if lines::eq_ignore_ascii_case(nb, "Content-Length".as_bytes()) {
        match text::parse_unsigned(value.as_bytes(), usize::MAX as u64) {
            Some(l) => Ok((Some(l as usize), ct, cors)),
            None => {
                let mut m = "bad Content-Length: ".to_string();
                let d = debug_text(value);
                m.append(d.as_str());
                Err(m)
            },
        }
    } else if lines::eq_ignore_ascii_case(nb, "Content-Type".as_bytes()) {
        Ok((cl, lines::ascii_lowercase(value.as_bytes()), cors))
    } else if lines::eq_ignore_ascii_case(nb, "Access-Control-Allow-Origin".as_bytes()) {
        Ok((cl, ct, true))
    } else {
        Ok((cl, ct, cors))
    }
}

/// The status line, judged: its status number, or the refusal quoting it.
pub open spec fn status_verdict(status_line: Seq<u8>) -> Result<nat, Seq<char>> {
    let parts = query::pieces(status_line, 32u8);
    if parts[0] != "HTTP/1.1".spec_bytes() {
        Err("status line is not HTTP/1.1: "@ + str_debug(decode_utf8(status_line)))
    } else if parts.len() < 2 {
        Err("no status code"@)
    } else {
        match text::std_parse_unsigned(parts[1], 65535) {
            None => Err("non-numeric status code: "@ + str_debug(decode_utf8(status_line))),
            Some(status) => Ok(status),
        }
    }
}

/// The status line, judged.
fn status_code(status_line: &str) -> (r: Result<u16, String>)
    ensures
        match status_verdict(status_line.spec_bytes()) {
            Ok(s) => r == Ok::<u16, String>(s as u16) && s <= 65535,
            Err(e) => r matches Err(m) && m@ == e,
        },
{
    proof {
        assert(decode_utf8(status_line.spec_bytes()) == status_line@);
    }
    let (p0, after) = lines::next_run(status_line, 32u8);
    proof {
        origin::lemma_first_index_bounds(status_line.spec_bytes(), 32u8);
        let parts = query::pieces(status_line.spec_bytes(), 32u8);
        match after {
            Some(a) => {
                assert(parts == seq![p0.spec_bytes()] + query::pieces(a.spec_bytes(), 32u8));
            },
            None => {
                assert(parts == seq![p0.spec_bytes()]);
            },
        }
    }
    if !text::str_eq(p0, "HTTP/1.1") {
        proof {
            if p0.spec_bytes() == "HTTP/1.1".spec_bytes() {
                assert(decode_utf8(p0.spec_bytes()) == p0@);
                assert(decode_utf8("HTTP/1.1".spec_bytes()) == "HTTP/1.1"@);
            }
        }
        let mut m = "status line is not HTTP/1.1: ".to_string();
        let d = debug_text(status_line);
        m.append(d.as_str());
        return Err(m);
    }
    let a = match after {
        None => {
            return Err("no status code".to_string());
        },
        Some(a) => a,
    };
    let (p1, _) = lines::next_run(a, 32u8);
    proof {
        origin::lemma_first_index_bounds(a.spec_bytes(), 32u8);
        let pa = query::pieces(a.spec_bytes(), 32u8);
        assert(pa[0] == p1.spec_bytes());
    }
    match text::parse_unsigned(p1.as_bytes(), 65535) {
        None => {
            let mut m = "non-numeric status code: ".to_string();
            let d = debug_text(status_line);
            m.append(d.as_str());
            Err(m)
        },
        Some(s) => Ok(s as u16),
    }
}

/// The state as naturals.
pub open spec fn response_state(cl: Option<usize>, ct: Seq<u8>, cors: bool) -> (
    Option<nat>,
    Seq<u8>,
    bool,
) {
    (
        match cl {
            Some(n) => Some(n as nat),
            None => None,
        },
        ct,
        cors,
    )
}

/// The header lines after the status line, read in order.
fn response_header_block(rest: Option<&str>) -> (r: Result<(Option<usize>, Vec<u8>, bool), String>)
    ensures
        match response_headers(
            match rest {
                Some(t) => lines::crlf_lines(t.spec_bytes()),
                None => Seq::<Seq<u8>>::empty(),
            },
            (None, Seq::empty(), false),
        ) {
            Ok(st) => r matches Ok(x) && response_state(x.0, x.1@, x.2) == st,
            Err(e) => r matches Err(m) && m@ == e,
        },
{
    let ghost all = match rest {
        Some(t) => lines::crlf_lines(t.spec_bytes()),
        None => Seq::<Seq<u8>>::empty(),
    };
    let mut cl: Option<usize> = None;
    let mut ct: Vec<u8> = Vec::new();
    let mut cors = false;
    let mut cursor = rest;
    loop
        invariant
            all == (match rest {
                Some(t) => lines::crlf_lines(t.spec_bytes()),
                None => Seq::<Seq<u8>>::empty(),
            }),
            response_headers(all, (None, Seq::empty(), false)) == response_headers(
                match cursor {
                    Some(t) => lines::crlf_lines(t.spec_bytes()),
                    None => Seq::<Seq<u8>>::empty(),
                },
                response_state(cl, ct@, cors),
            ),
        decreases match cursor {
            Some(t) => t.spec_bytes().len() + 1,
            None => 0,
        },
    {
        let t = match cursor {
            None => {
                return Ok((cl, ct, cors));
            },
            Some(t) => t,
        };
        let (line, next) = lines::next_line(t);
        proof {
            let rest_lines = match next {
                Some(u) => lines::crlf_lines(u.spec_bytes()),
                None => Seq::<Seq<u8>>::empty(),
            };
            let ls = lines::crlf_lines(t.spec_bytes());
            assert(ls =~= seq![line.spec_bytes()] + rest_lines);
            assert(ls[0] == line.spec_bytes());
            assert(ls.drop_first() =~= rest_lines);
        }
        match response_apply(cl, ct, cors, line) {
            Err(e) => {
                return Err(e);
            },
            Ok((a, b, c)) => {
                cl = a;
                ct = b;
                cors = c;
            },
        }
        cursor = next;
    }
}

/// The verdict on what the head came to and the body's length.
fn judge(status: u16, cl: Option<usize>, ct: &[u8], cors: bool, body_len: usize) -> (r: Result<
    u16,
    String,
>)
    ensures
        match response_verdict(status, response_state(cl, ct@, cors), body_len as nat) {
            Ok(s) => r == Ok::<u16, String>(s),
            Err(e) => r matches Err(m) && m@ == e,
        },
{
    if !cors {
        return Err("response missing Access-Control-Allow-Origin (wire v4)".to_string());
    }
    if lines::contains_bytes(ct, "text/event-stream".as_bytes()) {
        return Ok(status);
    }
    if status == 204 {
        if body_len != 0 {
            return Err("204 response carried a body".to_string());
        }
        return Ok(status);
    }
    match cl {
        Some(n) => {
            if n == body_len {
                Ok(status)
            } else {
                let mut m = "Content-Length ".to_string();
                let a = text::u64_to_string(n as u64);
                m.append(a.as_str());
                m.append(" disagrees with body length ");
                let b = text::u64_to_string(body_len as u64);
                m.append(b.as_str());
                Err(m)
            }
        },
        None => Err("non-204 response without Content-Length".to_string()),
    }
}

/// The well-formedness oracle for one HTTP response: a parseable
/// `HTTP/1.1 <code>` status line, a header block of `Name: value` lines,
/// the universal `Access-Control-Allow-Origin`, and a body whose length
/// agrees with `Content-Length` — except a `204` carries none and a
/// `text/event-stream` is an unbounded stream with no declared length.
/// Returns the status code.
pub fn check_http_response(bytes: &[u8]) -> (r: Result<u16, String>)
    ensures
        match http_verdict(bytes@) {
            Ok(s) => r == Ok::<u16, String>(s),
            Err(e) => r matches Err(m) && m@ == e,
        },
{
    if bytes.len() == 0 {
        return Err("no response bytes (server closed without answering)".to_string());
    }
    let sep = match http::find_head_end(bytes) {
        None => {
            return Err("no CRLFCRLF header terminator".to_string());
        },
        Some(s) => s,
    };
    let head_bytes = text::slice_range(bytes, 0, sep);
    assert(head_bytes@ =~= bytes@.take(sep as int));
    let head = match text::str_from_utf8(head_bytes) {
        None => {
            return Err("non-UTF-8 response head".to_string());
        },
        Some(h) => h,
    };
    let (status_line, rest) = lines::next_line(head);
    proof {
        let ls = lines::crlf_lines(head.spec_bytes());
        assert(ls[0] == status_line.spec_bytes());
        assert(ls.drop_first() =~= (match rest {
            Some(t) => lines::crlf_lines(t.spec_bytes()),
            None => Seq::<Seq<u8>>::empty(),
        }));
    }
    let status = match status_code(status_line) {
        Err(e) => {
            return Err(e);
        },
        Ok(s) => s,
    };
    let (cl, ct, cors) = match response_header_block(rest) {
        Err(e) => {
            return Err(e);
        },
        Ok(x) => x,
    };
    judge(status, cl, ct.as_slice(), cors, bytes.len() - (sep + 4))
}

// ── the request builders ────────────────────────────────────────────────

/// A minimal `POST <path>` with a JSON body and correct `Content-Length`.
pub fn build_post(path: &str, body: &[u8]) -> (v: Vec<u8>)
    ensures
        v@ == "POST ".spec_bytes() + path.spec_bytes()
            + " HTTP/1.1\r\nHost: 127.0.0.1\r\nContent-Type: application/json\r\nContent-Length: ".spec_bytes()
            + text::decimal(body@.len()) + "\r\n\r\n".spec_bytes() + body@,
{
    let mut v: Vec<u8> = Vec::new();
    text::push_str_bytes(&mut v, "POST ");
    text::push_str_bytes(&mut v, path);
    text::push_str_bytes(
        &mut v,
        " HTTP/1.1\r\nHost: 127.0.0.1\r\nContent-Type: application/json\r\nContent-Length: ",
    );
    let d = text::u64_decimal(body.len() as u64);
    v.extend_from_slice(d.as_slice());
    text::push_str_bytes(&mut v, "\r\n\r\n");
    v.extend_from_slice(body);
    v
}

/// A minimal bodyless `GET <path>` (the query rides in `path`).
pub fn build_get(path: &str) -> (v: Vec<u8>)
    ensures
        v@ == "GET ".spec_bytes() + path.spec_bytes() + " HTTP/1.1\r\nHost: 127.0.0.1\r\n\r\n".spec_bytes(),
{
    let mut v: Vec<u8> = Vec::new();
    text::push_str_bytes(&mut v, "GET ");
    text::push_str_bytes(&mut v, path);
    text::push_str_bytes(&mut v, " HTTP/1.1\r\nHost: 127.0.0.1\r\n\r\n");
    v
}

// ── the field-name mutation ─────────────────────────────────────────────

/// A dotted-decimal tumbler string: nonempty, digits and dots only, at
/// least one digit.
pub open spec fn tumbler_shaped(b: Seq<u8>) -> bool {
    &&& b.len() > 0
    &&& forall|i: int| 0 <= i < b.len() ==> text::is_digit(#[trigger] b[i]) || b[i] == 46u8
    &&& exists|i: int| 0 <= i < b.len() && text::is_digit(#[trigger] b[i])
}

/// Whether the text is tumbler-shaped.
pub fn looks_like_tumbler(s: &str) -> (r: bool)
    ensures
        r == tumbler_shaped(s.spec_bytes()),
{
    let b = s.as_bytes();
    if b.len() == 0 {
        return false;
    }
    let mut any_digit = false;
    let mut i: usize = 0;
    while i < b.len()
        invariant
            0 <= i <= b@.len(),
            b@ == s.spec_bytes(),
            forall|j: int| 0 <= j < i ==> text::is_digit(#[trigger] b@[j]) || b@[j] == 46u8,
            any_digit == exists|j: int| 0 <= j < i && text::is_digit(#[trigger] b@[j]),
        decreases b@.len() - i,
    {
        let c = b[i];
        let digit = 48 <= c && c <= 57;
        if !digit && c != 46u8 {
            return false;
        }
        if digit {
            any_digit = true;
        }
        proof {
            if any_digit && !digit {
                let j = choose|j: int| 0 <= j < i && text::is_digit(#[trigger] b@[j]);
                assert(0 <= j < i + 1);
            }
        }
        i = i + 1;
    }
    any_digit
}

/// A name for `String::from_utf8_lossy`: the bytes decoded, each invalid
/// sequence replaced by U+FFFD.
pub uninterp spec fn utf8_lossy(b: Seq<u8>) -> Seq<char>;

/// `String::from_utf8_lossy(..).into_owned()`: valid UTF-8 decodes as
/// itself (std documents the borrowed case); the replacement of invalid
/// sequences is named, not described.
#[verifier::external_body]
fn lossy_string(b: &[u8]) -> (s: String)
    ensures
        s@ == utf8_lossy(b@),
        valid_utf8(b@) ==> s@ == decode_utf8(b@),
{
    String::from_utf8_lossy(b).into_owned()
}

/// The byte a mutated key carries: a lowercase ASCII letter.
pub open spec fn edited_byte(b: u8) -> u8 {
    (97 + b.wrapping_add(1) % 26) as u8
}

/// Flip one byte of a key to an ASCII letter — turns a known field name
/// into an unknown one. The byte is picked by one step of the seed.
pub fn edit_one_char(k: &str, st: &mut u64) -> (r: String)
    ensures
        k.spec_bytes().len() == 0 ==> r@ == "x"@ && *final(st) == *old(st),
        k.spec_bytes().len() > 0 ==> {
            let i = ((splitmix_out(splitmix_next(*old(st))) as usize) % (k.spec_bytes().len() as usize)) as int;
            &&& *final(st) == splitmix_next(*old(st))
            &&& r@ == utf8_lossy(k.spec_bytes().update(i, edited_byte(k.spec_bytes()[i])))
        },
{
    let b = k.as_bytes();
    if b.len() == 0 {
        return "x".to_string();
    }
    let mut bytes: Vec<u8> = Vec::new();
    bytes.extend_from_slice(b);
    let n = splitmix64(st);
    let len = b.len();
    assert(len == k.spec_bytes().len() as usize);
    let i = (n as usize) % len;
    let c = bytes[i];
    let e = 97u8 + (c.wrapping_add(1) % 26);
    bytes.set(i, e);
    assert(bytes@ == k.spec_bytes().update(i as int, edited_byte(k.spec_bytes()[i as int])));
    lossy_string(bytes.as_slice())
}

} // verus!
