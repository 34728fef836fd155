//! The HTTP/1.1 subset's values: the route set and body caps, a handler's
//! reply, the transport's error vocabulary and its refusals, the death
//! signal, and the head's byte framing.

use vstd::prelude::*;
use vstd::string::*;
use crate::json::{self, JsonObject, Scalar, ScalarView};
use crate::session::Peer;
use crate::text;

verus! {

broadcast use vstd::utf8::group_utf8_lib;

/// Preflight cache lifetime advertised on `OPTIONS`.
pub const CORS_MAX_AGE_SECS: &'static str = "86400";

/// The one request header this daemon reads beyond HTTP's own framing: the
/// opaque session token.
pub const SESSION_HEADER: &'static str = "Skepd-Session";

/// Request-head size cap.
pub const MAX_REQUEST_HEAD: usize = 65536;

/// Request-body cap for the two frame-carrying routes.
pub const MAX_REQUEST_BODY: usize = 8388608;

/// Request-body cap for every route that carries no frame.
pub const MAX_SMALL_BODY: usize = 8192;

/// `/changes` page size when `limit` is absent.
pub const CHANGES_LIMIT_DEFAULT: usize = 256;

/// `/changes` page-size ceiling; a larger request is refused, not clamped.
pub const CHANGES_LIMIT_MAX: usize = 4096;

/// A header list's names and values as text.
pub open spec fn header_views(h: Seq<(&str, &str)>) -> Seq<(Seq<char>, Seq<char>)> {
    Seq::new(h.len(), |i: int| (h[i].0@, h[i].1@))
}

/// The headers promised on EVERY response: the cross-origin posture, the
/// exposure that lets a page read the death signal, and the
/// one-request-per-connection framing.
pub open spec fn universal_headers_spec() -> Seq<(Seq<char>, Seq<char>)> {
    seq![
        ("Access-Control-Allow-Origin"@, "*"@),
        ("Access-Control-Expose-Headers"@, "Skepd-Session"@),
        ("Connection"@, "close"@),
    ]
}

/// The universal headers, as name/value pairs.
pub fn universal_headers() -> (h: Vec<(&'static str, &'static str)>)
    ensures
        header_views(h@) == universal_headers_spec(),
{
    let h = vec![
        ("Access-Control-Allow-Origin", "*"),
        ("Access-Control-Expose-Headers", SESSION_HEADER),
        ("Connection", "close"),
    ];
    assert(header_views(h@) =~= universal_headers_spec());
    h
}

/// The body cap for a path: the frame routes' ceiling for `/op` and
/// `/op-at`, the small cap for every other route.
pub fn body_cap(path: &str) -> (cap: usize)
    ensures
        cap == (if path@ == "/op"@ || path@ == "/op-at"@ {
            MAX_REQUEST_BODY
        } else {
            MAX_SMALL_BODY
        }),
{
    if text::str_eq(path, "/op") || text::str_eq(path, "/op-at") {
        MAX_REQUEST_BODY
    } else {
        MAX_SMALL_BODY
    }
}

/// The paths this daemon serves — the one place the route set is stated.
pub open spec fn known_path(p: Seq<char>) -> bool {
    p == "/session"@ || p == "/session/close"@ || p == "/challenge"@ || p == "/op"@ || p
        == "/op-at"@ || p == "/health"@ || p == "/events"@ || p == "/changes"@ || p == "/dump"@
}

/// Whether the daemon serves `path`: a known path answers `OPTIONS` with a
/// preflight and a wrong method with `405`; everything else is `404`.
pub fn path_is_known(path: &str) -> (r: bool)
    ensures
        r == known_path(path@),
{
    text::str_eq(path, "/session") || text::str_eq(path, "/session/close") || text::str_eq(
        path,
        "/challenge",
    ) || text::str_eq(path, "/op") || text::str_eq(path, "/op-at") || text::str_eq(
        path,
        "/health",
    ) || text::str_eq(path, "/events") || text::str_eq(path, "/changes") || text::str_eq(
        path,
        "/dump",
    )
}

// ── replies ─────────────────────────────────────────────────────────────

/// A response body and the type naming it — one value, so the two travel
/// together.
pub struct Body {
    pub content_type: &'static str,
    pub bytes: Vec<u8>,
}

/// One handler result: a status, an optional body, and any extra headers.
/// `body: None` is the bodiless answer, written with no content headers.
pub struct Reply {
    pub status: u16,
    pub body: Option<Body>,
    pub headers: Vec<(&'static str, &'static str)>,
}

/// The body bytes a reply carries; empty for a bodiless one.
pub open spec fn reply_bytes(r: &Reply) -> Seq<u8> {
    match r.body {
        Some(b) => b.bytes@,
        None => Seq::empty(),
    }
}

/// A JSON body of exactly these bytes.
pub open spec fn json_body(r: &Reply, bytes: Seq<u8>) -> bool {
    r.body matches Some(b) && b.content_type@ == "application/json"@ && b.bytes@ == bytes
}

impl Reply {
    /// The body bytes; empty for a bodiless reply.
    pub fn bytes(&self) -> (b: &[u8])
        ensures
            b@ == reply_bytes(self),
    {
        match &self.body {
            Some(b) => b.bytes.as_slice(),
            None => &[],
        }
    }

    /// A reply carrying `bytes` under `content_type`.
    pub fn bodied(status: u16, content_type: &'static str, bytes: Vec<u8>) -> (r: Reply)
        ensures
            r.status == status,
            r.body matches Some(b) && b.content_type == content_type && b.bytes@ == bytes@,
            r.headers@.len() == 0,
    {
        Reply { status, body: Some(Body { content_type, bytes }), headers: Vec::new() }
    }

    /// A JSON reply at `status`.
    pub fn json(status: u16, v: &JsonObject) -> (r: Reply)
        ensures
            r.status == status,
            json_body(&r, json::render_object(v@)),
            r.headers@.len() == 0,
    {
        Reply::bodied(status, "application/json", v.to_bytes())
    }

    /// The CORS preflight answer: 204, no body, the fixed method and header
    /// lists — the header list naming exactly the session header the
    /// request reader reads.
    pub fn preflight() -> (r: Reply)
        ensures
            r.status == 204,
            r.body is None,
            header_views(r.headers@) == seq![
                ("Access-Control-Allow-Methods"@, "GET, POST, OPTIONS"@),
                ("Access-Control-Allow-Headers"@, "Content-Type, Skepd-Session"@),
                ("Access-Control-Max-Age"@, "86400"@),
            ],
    {
        let headers = vec![
            ("Access-Control-Allow-Methods", "GET, POST, OPTIONS"),
            ("Access-Control-Allow-Headers", "Content-Type, Skepd-Session"),
            ("Access-Control-Max-Age", CORS_MAX_AGE_SECS),
        ];
        let r = Reply { status: 204, body: None, headers };
        assert(header_views(r.headers@) =~= seq![
            ("Access-Control-Allow-Methods"@, "GET, POST, OPTIONS"@),
            ("Access-Control-Allow-Headers"@, "Content-Type, Skepd-Session"@),
            ("Access-Control-Max-Age"@, "86400"@),
        ]);
        r
    }
}

/// One routing decision: a complete reply, or the event stream, which is
/// not request/response at all.
pub enum Routed {
    Reply(Reply),
    /// `GET /events` — the server-sent commit stream.
    EventStream,
}

/// One request, as routing receives it: the uppercase method; the target's
/// path without its query or `?`; the query without its `?`; the
/// `Skepd-Session` and `Origin` header values verbatim; the peer's
/// loopback-ness; exactly the declared `Content-Length` bytes of body.
pub struct HttpRequest {
    pub method: String,
    pub path: String,
    pub query: Option<String>,
    pub session_token: Option<String>,
    pub origin: Option<String>,
    pub peer: Peer,
    pub body: Vec<u8>,
}

// ── the transport's errors ──────────────────────────────────────────────

/// The transport's whole error vocabulary — every `{"error": …}` name this
/// daemon can answer, and the only way one is written.
#[derive(Clone, Copy, Debug, PartialEq, Eq, Structural)]
pub enum TransportError {
    MalformedSessionRequest,
    MalformedChallenge,
    MalformedOpAt,
    MalformedChanges,
    MalformedAt,
    NoSuchEndpoint,
    MethodNotAllowed,
    WriteAtHistory,
    BeyondHead,
    NotAPosition,
    HistoryReclaimed,
    HistoryBusy,
    NoJournal,
    HistoryIo,
    HistoryCorrupt,
    MalformedHttp,
    PayloadTooLarge,
    InternalPanic,
}

/// The wire name of each error.
pub open spec fn error_name(e: TransportError) -> Seq<char> {
    match e {
        TransportError::MalformedSessionRequest => "malformed_session_request"@,
        TransportError::MalformedChallenge => "malformed_challenge"@,
        TransportError::MalformedOpAt => "malformed_op_at"@,
        TransportError::MalformedChanges => "malformed_changes"@,
        TransportError::MalformedAt => "malformed_at"@,
        TransportError::NoSuchEndpoint => "no_such_endpoint"@,
        TransportError::MethodNotAllowed => "method_not_allowed"@,
        TransportError::WriteAtHistory => "write_at_history"@,
        TransportError::BeyondHead => "beyond_head"@,
        TransportError::NotAPosition => "not_a_position"@,
        TransportError::HistoryReclaimed => "history_reclaimed"@,
        TransportError::HistoryBusy => "history_busy"@,
        TransportError::NoJournal => "no_journal"@,
        TransportError::HistoryIo => "history_io"@,
        TransportError::HistoryCorrupt => "history_corrupt"@,
        TransportError::MalformedHttp => "malformed_http"@,
        TransportError::PayloadTooLarge => "payload_too_large"@,
        TransportError::InternalPanic => "internal_panic"@,
    }
}

/// The status each error is answered with: malformed requests and refused
/// positions 400, unknown path 404, wrong method 405, reclaimed history
/// 410, an oversized body 413, the journal's and the daemon's own faults
/// 500, a saturated reconstruction budget 503.
pub open spec fn error_status(e: TransportError) -> u16 {
    match e {
        TransportError::NoSuchEndpoint => 404,
        TransportError::MethodNotAllowed => 405,
        TransportError::HistoryReclaimed => 410,
        TransportError::PayloadTooLarge => 413,
        TransportError::NoJournal | TransportError::HistoryIo | TransportError::HistoryCorrupt
        | TransportError::InternalPanic => 500,
        TransportError::HistoryBusy => 503,
        _ => 400,
    }
}

impl TransportError {
    /// The wire name.
    pub fn name(self) -> (n: &'static str)
        ensures
            n@ == error_name(self),
    {
        match self {
            TransportError::MalformedSessionRequest => "malformed_session_request",
            TransportError::MalformedChallenge => "malformed_challenge",
            TransportError::MalformedOpAt => "malformed_op_at",
            TransportError::MalformedChanges => "malformed_changes",
            TransportError::MalformedAt => "malformed_at",
            TransportError::NoSuchEndpoint => "no_such_endpoint",
            TransportError::MethodNotAllowed => "method_not_allowed",
            TransportError::WriteAtHistory => "write_at_history",
            TransportError::BeyondHead => "beyond_head",
            TransportError::NotAPosition => "not_a_position",
            TransportError::HistoryReclaimed => "history_reclaimed",
            TransportError::HistoryBusy => "history_busy",
            TransportError::NoJournal => "no_journal",
            TransportError::HistoryIo => "history_io",
            TransportError::HistoryCorrupt => "history_corrupt",
            TransportError::MalformedHttp => "malformed_http",
            TransportError::PayloadTooLarge => "payload_too_large",
            TransportError::InternalPanic => "internal_panic",
        }
    }

    /// The status this failure is answered with.
    pub fn status(self) -> (s: u16)
        ensures
            s == error_status(self),
    {
        match self {
            TransportError::NoSuchEndpoint => 404,
            TransportError::MethodNotAllowed => 405,
            TransportError::HistoryReclaimed => 410,
            TransportError::PayloadTooLarge => 413,
            TransportError::NoJournal | TransportError::HistoryIo | TransportError::HistoryCorrupt
            | TransportError::InternalPanic => 500,
            TransportError::HistoryBusy => 503,
            _ => 400,
        }
    }
}

/// A refusal's members: the given fields, then `error` naming the error
/// (which a given `error` field cannot displace, being last).
pub open spec fn refusal_members(
    fields: Seq<(Seq<u8>, ScalarView)>,
    err: TransportError,
) -> Seq<(Seq<u8>, ScalarView)> {
    fields.push(("error".spec_bytes(), ScalarView::Text(vstd::utf8::encode_utf8(error_name(err)))))
}

/// The refusal's body bytes: the members as one sorted object.
pub open spec fn refusal_bytes(fields: Seq<(Seq<u8>, ScalarView)>, err: TransportError) -> Seq<
    u8,
> {
    json::render_object(json::canonical(refusal_members(fields, err)))
}

/// The refusal carrying the diagnostic fields a few errors name — `head`,
/// `nearest`, `floor` — with `error` appended, so a field list can never
/// omit it. Every non-2xx this daemon answers is built here.
pub fn refuse_with(err: TransportError, fields: Vec<(&str, Scalar)>) -> (r: Reply)
    ensures
        r.status == error_status(err),
        json_body(&r, refusal_bytes(json::given_views(fields@), err)),
        r.headers@.len() == 0,
{
    let ghost given = json::given_views(fields@);
    let mut pairs = fields;
    let name = err.name();
    pairs.push(("error", Scalar::Text(name.to_string())));
    assert(json::given_views(pairs@) =~= refusal_members(given, err));
    let o = json::obj(pairs);
    Reply::json(err.status(), &o)
}

/// The `detail` member, where there is one.
pub open spec fn detail_fields(detail: Option<Seq<u8>>) -> Seq<(Seq<u8>, ScalarView)> {
    match detail {
        Some(d) => seq![("detail".spec_bytes(), ScalarView::Text(d))],
        None => Seq::empty(),
    }
}

/// A transport-level refusal, whole: the status and the `{"error": name}`
/// body paired with `err`, plus an optional detail.
pub fn refuse(err: TransportError, detail: Option<&str>) -> (r: Reply)
    ensures
        r.status == error_status(err),
        json_body(
            &r,
            refusal_bytes(
                detail_fields(
                    match detail {
                        Some(d) => Some(d.spec_bytes()),
                        None => None,
                    },
                ),
                err,
            ),
        ),
        r.headers@.len() == 0,
{
    let mut fields: Vec<(&str, Scalar)> = Vec::new();
    match detail {
        Some(d) => {
            fields.push(("detail", Scalar::Text(d.to_string())));
        },
        None => {},
    }
    let ghost dv = match detail {
        Some(d) => Some(d.spec_bytes()),
        None => None,
    };
    assert(json::given_views(fields@) =~= detail_fields(dv));
    refuse_with(err, fields)
}

/// The `410 history_reclaimed` refusal, naming the oldest position that can
/// still be answered where one exists.
pub fn refuse_reclaimed(floor: Option<u64>) -> (r: Reply)
    ensures
        r.status == 410,
        json_body(
            &r,
            refusal_bytes(
                match floor {
                    Some(f) => seq![("floor".spec_bytes(), ScalarView::Number(f as nat))],
                    None => Seq::empty(),
                },
                TransportError::HistoryReclaimed,
            ),
        ),
{
    let mut fields: Vec<(&str, Scalar)> = Vec::new();
    match floor {
        Some(f) => {
            fields.push(("floor", Scalar::Number(f)));
        },
        None => {},
    }
    let ghost fv = match floor {
        Some(f) => seq![("floor".spec_bytes(), ScalarView::Number(f as nat))],
        None => Seq::<(Seq<u8>, ScalarView)>::empty(),
    };
    assert(json::given_views(fields@) =~= fv);
    refuse_with(TransportError::HistoryReclaimed, fields)
}

// ── the death signal, the operation channel ─────────────────────────────

/// Whether a header list already names `name`.
pub open spec fn names_header(h: Seq<(Seq<char>, Seq<char>)>, name: Seq<char>) -> bool {
    exists|i: int| 0 <= i < h.len() && #[trigger] h[i].0 == name
}

/// Attach the death signal when owed — once, however many resolution sites
/// observed the death on this request.
pub fn with_signal(reply: Reply, closed: bool) -> (r: Reply)
    ensures
        r.status == reply.status,
        r.body == reply.body,
        header_views(r.headers@) == (if closed && !names_header(
            header_views(reply.headers@),
            "Skepd-Session"@,
        ) {
            header_views(reply.headers@).push(("Skepd-Session"@, "closed"@))
        } else {
            header_views(reply.headers@)
        }),
{
    let mut reply = reply;
    if closed {
        let ghost hv = header_views(reply.headers@);
        let mut seen = false;
        let mut i: usize = 0;
        while i < reply.headers.len()
            invariant
                0 <= i <= reply.headers@.len(),
                hv == header_views(reply.headers@),
                seen == exists|j: int| 0 <= j < i && #[trigger] hv[j].0 == "Skepd-Session"@,
            decreases reply.headers@.len() - i,
        {
            if text::str_eq(reply.headers[i].0, SESSION_HEADER) {
                seen = true;
            }
            proof {
                if seen {
                    if hv[i as int].0 == "Skepd-Session"@ {
                        assert(exists|j: int| 0 <= j < i + 1 && #[trigger] hv[j].0 == "Skepd-Session"@);
                    }
                }
            }
            i = i + 1;
        }
        if !seen {
            reply.headers.push((SESSION_HEADER, "closed"));
            assert(header_views(reply.headers@) =~= hv.push(("Skepd-Session"@, "closed"@)));
        }
    }
    reply
}

/// One operation answer, already marshaled, as its reply — always `200`:
/// the envelope, not the HTTP status, is the operation protocol.
pub fn op_answer(bytes: Vec<u8>) -> (r: Reply)
    ensures
        r.status == 200,
        json_body(&r, bytes@),
        r.headers@.len() == 0,
{
    Reply::bodied(200, "application/json", bytes)
}

// ── the head's framing ──────────────────────────────────────────────────

/// The subset's reason phrases — informational only.
pub open spec fn reason_spec(status: u16) -> Seq<char> {
    if status == 200 {
        "OK"@
    } else if status == 204 {
        "No Content"@
    } else if status == 400 {
        "Bad Request"@
    } else if status == 401 {
        "Unauthorized"@
    } else if status == 404 {
        "Not Found"@
    } else if status == 405 {
        "Method Not Allowed"@
    } else if status == 410 {
        "Gone"@
    } else if status == 413 {
        "Payload Too Large"@
    } else if status == 500 {
        "Internal Server Error"@
    } else if status == 503 {
        "Service Unavailable"@
    } else {
        "Status"@
    }
}

/// The reason phrase for a status.
pub fn reason(status: u16) -> (r: &'static str)
    ensures
        r@ == reason_spec(status),
{
    match status {
        200 => "OK",
        204 => "No Content",
        400 => "Bad Request",
        401 => "Unauthorized",
        404 => "Not Found",
        405 => "Method Not Allowed",
        410 => "Gone",
        413 => "Payload Too Large",
        500 => "Internal Server Error",
        503 => "Service Unavailable",
        _ => "Status",
    }
}

/// `\r\n`
pub open spec fn crlf() -> Seq<u8> {
    seq![13u8, 10u8]
}

/// One `Name: value` line in this daemon's framing.
pub open spec fn header_line(name: Seq<u8>, value: Seq<u8>) -> Seq<u8> {
    name + seq![58u8, 32u8] + value + crlf()
}

/// Append one `Name: value` line — the one place a header becomes bytes.
pub fn push_header(head: &mut Vec<u8>, name: &str, value: &str)
    ensures
        final(head)@ == old(head)@ + header_line(name.spec_bytes(), value.spec_bytes()),
{
    head.extend_from_slice(name.as_bytes());
    head.push(58u8);
    head.push(32u8);
    head.extend_from_slice(value.as_bytes());
    head.push(13u8);
    head.push(10u8);
    assert(head@ =~= old(head)@ + header_line(name.spec_bytes(), value.spec_bytes()));
}

/// `\r\n\r\n` starts at `i`.
pub open spec fn terminator_at(b: Seq<u8>, i: int) -> bool {
    0 <= i && i + 4 <= b.len() && b[i] == 13u8 && b[i + 1] == 10u8 && b[i + 2] == 13u8 && b[i
        + 3] == 10u8
}

/// The first `\r\n\r\n` in `b`.
pub open spec fn head_end(b: Seq<u8>) -> Option<int> {
    if exists|i: int| terminator_at(b, i) {
        Some(choose|i: int| terminator_at(b, i) && forall|j: int| 0 <= j < i ==> !terminator_at(b, j))
    } else {
        None
    }
}

/// Where the head ends: the first `\r\n\r\n`.
pub fn find_head_end(buf: &[u8]) -> (r: Option<usize>)
    ensures
        r matches Some(i) ==> terminator_at(buf@, i as int) && forall|j: int|
            0 <= j < i ==> !terminator_at(buf@, j),
        r is None ==> forall|j: int| !terminator_at(buf@, j),
        match r {
            Some(i) => head_end(buf@) == Some(i as int),
            None => head_end(buf@) is None,
        },
{
    let r = find_terminator(buf);
    proof {
        match r {
            Some(i) => {
                let c = choose|c: int|
                    terminator_at(buf@, c) && forall|j: int| 0 <= j < c ==> !terminator_at(buf@, j);
                assert(terminator_at(buf@, c) && forall|j: int| 0 <= j < c ==> !terminator_at(buf@, j));
                if c < i {
                    assert(!terminator_at(buf@, c));
                }
                if c > i {
                    assert(!terminator_at(buf@, i as int));
                }
            },
            None => {},
        }
    }
    r
}

fn find_terminator(buf: &[u8]) -> (r: Option<usize>)
    ensures
        r matches Some(i) ==> terminator_at(buf@, i as int) && forall|j: int|
            0 <= j < i ==> !terminator_at(buf@, j),
        r is None ==> forall|j: int| !terminator_at(buf@, j),
{
    if buf.len() < 4 {
        return None;
    }
    let mut i: usize = 0;
    while i < buf.len() - 3
        invariant
            buf@.len() >= 4,
            0 <= i <= buf@.len() - 3,
            forall|j: int| 0 <= j < i ==> !terminator_at(buf@, j),
        decreases buf@.len() - i,
    {
        if buf[i] == 13u8 && buf[i + 1] == 10u8 && buf[i + 2] == 13u8 && buf[i + 3] == 10u8 {
            return Some(i);
        }
        i = i + 1;
    }
    None
}

} // verus!
