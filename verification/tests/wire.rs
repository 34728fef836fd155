use skepd::feed::{at_or_above, feed_index, merge_all, Merge};
use skepd::fuzz::{
    build_get, build_post, check_http_response, edit_one_char, hex, looks_like_tumbler,
    resp_shapes, splitmix64, transport_errors,
};
use skepd::history::{History, ReconstructPermits, MAX_CONCURRENT_RECONSTRUCTIONS};
use skepd::http::{
    body_cap, find_head_end, op_answer, path_is_known, reason, refuse, refuse_reclaimed,
    refuse_with, with_signal, Reply, TransportError, SESSION_HEADER,
};
use skepd::json::{obj, Scalar};
use skepd::query::{challenge_principal, changes_params, dump_at_param, query_pairs};
use skepd::request::{admit_body, parse_request_head, refuse_request, reply_head, RequestRefusal};

fn body_text(r: &Reply) -> String {
    String::from_utf8(r.bytes().to_vec()).expect("json")
}

#[test]
fn the_merge_dedups_by_position_across_every_source() {
    let a = [1u64, 4, 9];
    let b = [4u64, 5, 9, 12];
    let c: [u64; 0] = [];
    let sources = vec![a.to_vec(), b.to_vec(), c.to_vec(), a.to_vec()];
    let out: Vec<u64> = Merge::new(sources).into_vec();
    assert_eq!(out, vec![1, 4, 5, 9, 12]);
}

#[test]
fn the_merge_hands_out_positions_one_at_a_time() {
    let mut m = Merge::new(vec![vec![2, 2, 7], vec![3], vec![]]);
    assert_eq!(m.next(), Some(2));
    assert_eq!(m.next(), Some(3));
    assert_eq!(m.next(), Some(7));
    assert_eq!(m.next(), None);
    assert_eq!(m.next(), None);
    assert_eq!(merge_all(vec![vec![], vec![]]), Vec::<u64>::new());
}

#[test]
fn a_list_starts_at_the_fence() {
    let s = [3u64, 7, 8, 20];
    assert_eq!(at_or_above(&s, 8).to_vec(), vec![8, 20]);
    assert_eq!(at_or_above(&s, 9).to_vec(), vec![20]);
    assert_eq!(at_or_above(&s, 21).len(), 0);
    assert_eq!(at_or_above(&s, 0).len(), 4);
}

#[test]
fn reconstruct_permits_account_exactly() {
    let mut permits = ReconstructPermits::new(MAX_CONCURRENT_RECONSTRUCTIONS);
    let first = permits.try_acquire().expect("permit 1 of 2");
    let second = permits.try_acquire().expect("permit 2 of 2");
    assert!(permits.try_acquire().is_none(), "the cap is exactly 2 reconstructions");
    permits.release(first);
    let third = permits.try_acquire().expect("a released permit reopens its slot");
    assert!(permits.try_acquire().is_none(), "still exactly one slot came back");
    permits.release(second);
    permits.release(third);
    let a = permits.try_acquire().expect("all slots return");
    let b = permits.try_acquire().expect("all slots return");
    permits.release(a);
    permits.release(b);
    assert_eq!(permits.available(), 2);
}

#[test]
fn history_hands_out_exactly_the_reconstruction_budget() {
    let mut history = History::new();
    let held: Vec<_> = (0..MAX_CONCURRENT_RECONSTRUCTIONS)
        .map(|_| history.try_hold_permit().expect("a permit"))
        .collect();
    assert!(history.try_hold_permit().is_none(), "the budget is exactly 2 reconstructions");
    for p in held {
        history.release_permit(p);
    }
    assert!(history.try_hold_permit().is_some(), "released permits return to the budget");
}

#[test]
fn refusals_pair_their_status_with_their_name() {
    let r = refuse(TransportError::PayloadTooLarge, Some("too big"));
    assert_eq!(r.status, 413);
    assert_eq!(body_text(&r), r#"{"detail":"too big","error":"payload_too_large"}"#);
    let r = refuse_with(TransportError::BeyondHead, vec![("head", Scalar::Number(12))]);
    assert_eq!(r.status, 400);
    assert_eq!(body_text(&r), r#"{"error":"beyond_head","head":12}"#);
}

#[test]
fn every_transport_error_pairs_its_documented_name_with_its_documented_status() {
    let table: Vec<(TransportError, &'static str, u16)> = vec![
        (TransportError::MalformedSessionRequest, "malformed_session_request", 400),
        (TransportError::MalformedChallenge, "malformed_challenge", 400),
        (TransportError::MalformedOpAt, "malformed_op_at", 400),
        (TransportError::WriteAtHistory, "write_at_history", 400),
        (TransportError::BeyondHead, "beyond_head", 400),
        (TransportError::NotAPosition, "not_a_position", 400),
        (TransportError::MalformedChanges, "malformed_changes", 400),
        (TransportError::MalformedHttp, "malformed_http", 400),
        (TransportError::NoSuchEndpoint, "no_such_endpoint", 404),
        (TransportError::MethodNotAllowed, "method_not_allowed", 405),
        (TransportError::HistoryReclaimed, "history_reclaimed", 410),
        (TransportError::PayloadTooLarge, "payload_too_large", 413),
        (TransportError::InternalPanic, "internal_panic", 500),
        (TransportError::HistoryIo, "history_io", 500),
        (TransportError::HistoryCorrupt, "history_corrupt", 500),
        (TransportError::NoJournal, "no_journal", 500),
        (TransportError::HistoryBusy, "history_busy", 503),
        (TransportError::MalformedAt, "malformed_at", 400),
    ];
    let documented = transport_errors();
    for &(err, name, status) in &table {
        assert_eq!(err.name(), name, "wire name drifted for {err:?}");
        assert_eq!(err.status(), status, "{name} must be answered with {status}");
        let r = refuse(err, None);
        assert_eq!(r.status, status, "{name}: the reply's status");
        let body: serde_json::Value = serde_json::from_slice(r.bytes()).expect("json");
        assert_eq!(body["error"].as_str(), Some(name), "{name}: the reply's body");
        assert!(documented.contains(&name), "{name} is answerable but absent from the oracle's list");
    }
    assert_eq!(table.len() + 1, documented.len(), "the two transcriptions agree in length");
    assert!(documented.contains(&"session_rejected"));
}

#[test]
fn a_bodiless_reply_writes_no_content_headers() {
    let pre = Reply::preflight();
    assert!(pre.body.is_none(), "the preflight names no body");
    assert!(pre.bytes().is_empty());
    let json = Reply::json(200, &obj(vec![("ok", Scalar::Bool(true))]));
    let body = json.body.as_ref().expect("a JSON reply names its body");
    assert_eq!(body.content_type, "application/json");
    assert_eq!(body.bytes, br#"{"ok":true}"#);
    let head = String::from_utf8(reply_head(&pre)).unwrap();
    assert!(!head.contains("\r\nContent-Type:"));
    assert!(!head.contains("\r\nContent-Length:"));
    let head = String::from_utf8(reply_head(&json)).unwrap();
    assert!(head.contains("Content-Type: application/json\r\nContent-Length: 11\r\n"));
}

#[test]
fn the_changes_query_defaults_to_the_documented_page_size() {
    assert_eq!(changes_params(Some("since=0")).expect("since alone is enough"), (0, 256));
    assert_eq!(changes_params(Some("since=7&limit=10")).expect("both"), (7, 10));
    assert_eq!(changes_params(Some("limit=10&since=7")).expect("order-free"), (7, 10));
    assert_eq!(changes_params(Some("since=0&limit=4096")).expect("the maximum is in range").1, 4096);
    for bad in [
        None,
        Some(""),
        Some("limit=2"),
        Some("since=abc"),
        Some("since=0&limit=0"),
        Some("since=0&limit=4097"),
        Some("since=0&since=1"),
        Some("since=0&nope=1"),
        Some("since"),
    ] {
        assert!(changes_params(bad).is_err(), "{bad:?} must be refused");
    }
}

#[test]
fn the_changes_refusals_name_what_they_refuse() {
    assert_eq!(changes_params(None).unwrap_err(), "the required parameter is since=<position>");
    assert_eq!(changes_params(Some("since")).unwrap_err(), "malformed parameter 'since'");
    assert_eq!(
        changes_params(Some("since=abc")).unwrap_err(),
        "since: 'abc' is not a position (a non-negative integer)"
    );
    assert_eq!(changes_params(Some("since=0&limit=0")).unwrap_err(), "limit: must be 1..=4096");
    assert_eq!(changes_params(Some("since=0&limit=x")).unwrap_err(), "limit: 'x' is not a count");
    assert_eq!(changes_params(Some("since=0&since=1")).unwrap_err(), "duplicate parameter 'since'");
    assert_eq!(changes_params(Some("since=0&nope=1")).unwrap_err(), "unknown parameter 'nope'");
    assert_eq!(changes_params(Some("since=+5")).unwrap(), (5, 256));
}

#[test]
fn the_dump_query_is_absent_or_exactly_one_position() {
    assert_eq!(dump_at_param(None).expect("no query"), None);
    assert_eq!(dump_at_param(Some("")).expect("empty query"), None);
    assert_eq!(dump_at_param(Some("at=9")).expect("a position"), Some(9));
    assert_eq!(dump_at_param(Some("at=0")).expect("genesis is a position"), Some(0));
    for bad in [Some("at=abc"), Some("at=1&at=2"), Some("position=3"), Some("at")] {
        assert!(dump_at_param(bad).is_err(), "{bad:?} must be refused");
    }
    assert_eq!(
        dump_at_param(Some("position=3")).unwrap_err(),
        "unknown parameter 'position'; the one /dump parameter is at=<position>"
    );
}

#[test]
fn the_challenge_query_is_exactly_one_principal() {
    assert_eq!(challenge_principal(Some("principal=7")), Ok(7));
    assert_eq!(
        challenge_principal(None).unwrap_err(),
        "the required parameter is principal=<id>"
    );
    assert_eq!(
        challenge_principal(Some("principal=-1")).unwrap_err(),
        "principal: '-1' is not a non-negative integer"
    );
    assert_eq!(
        challenge_principal(Some("principal=1&principal=2")).unwrap_err(),
        "duplicate parameter 'principal'"
    );
    assert_eq!(challenge_principal(Some("who=1")).unwrap_err(), "unknown parameter 'who'");
}

#[test]
fn query_pairs_split_on_ampersand_and_the_first_equals() {
    assert_eq!(query_pairs("a=1&b=2=3").unwrap(), vec![("a", "1"), ("b", "2=3")]);
    assert_eq!(query_pairs("a=").unwrap(), vec![("a", "")]);
    assert_eq!(query_pairs("a=1&&b=2").unwrap_err(), "malformed parameter ''");
}

#[test]
fn the_preflight_advertises_the_session_header_the_reader_reads() {
    let pre = Reply::preflight();
    let allow = pre
        .headers
        .iter()
        .find(|(k, _)| *k == "Access-Control-Allow-Headers")
        .map(|&(_, v)| v)
        .expect("the preflight names its allowed headers");
    assert!(allow.contains(SESSION_HEADER), "{allow} must name {SESSION_HEADER}");
    assert_eq!(pre.status, 204);
}

#[test]
fn the_death_signal_is_attached_once() {
    let r = with_signal(op_answer(b"{}".to_vec()), true);
    assert_eq!(r.headers, vec![("Skepd-Session", "closed")]);
    let r = with_signal(r, true);
    assert_eq!(r.headers.len(), 1, "once, however many sites observed the death");
    let r = with_signal(op_answer(b"{}".to_vec()), false);
    assert!(r.headers.is_empty());
    assert_eq!(r.status, 200);
}

#[test]
fn routes_caps_and_reasons() {
    assert_eq!(body_cap("/op"), 8 * 1024 * 1024);
    assert_eq!(body_cap("/op-at"), 8 * 1024 * 1024);
    assert_eq!(body_cap("/session"), 8 * 1024);
    assert!(path_is_known("/changes"));
    assert!(path_is_known("/dump"));
    assert!(!path_is_known("/nope"));
    assert!(!path_is_known("/op?x"));
    assert_eq!(reason(404), "Not Found");
    assert_eq!(reason(299), "Status");
    assert_eq!(find_head_end(b"GET / HTTP/1.1\r\n\r\nbody"), Some(14));
    assert_eq!(find_head_end(b"GET / HTTP/1.1\r\n"), None);
}

#[test]
fn the_reclaimed_refusal_names_its_floor() {
    let r = refuse_reclaimed(Some(7));
    assert_eq!(r.status, 410);
    assert_eq!(body_text(&r), r#"{"error":"history_reclaimed","floor":7}"#);
    let r = refuse_reclaimed(None);
    assert_eq!(body_text(&r), r#"{"error":"history_reclaimed"}"#);
}

#[test]
fn the_object_sorts_keys_and_the_last_pair_wins() {
    let o = obj(vec![
        ("b", Scalar::Number(1)),
        ("a", Scalar::Text("x\"y\n".to_string())),
        ("b", Scalar::Null),
    ]);
    assert_eq!(String::from_utf8(o.to_bytes()).unwrap(), r#"{"a":"x\"y\n","b":null}"#);
    let o = obj(vec![("c", Scalar::Text("\u{1}".to_string()))]);
    assert_eq!(String::from_utf8(o.to_bytes()).unwrap(), "{\"c\":\"\\u0001\"}");
}

#[test]
fn a_request_head_is_read_in_the_subset() {
    let h = parse_request_head(
        b"POST /op?x=1 HTTP/1.1\r\nContent-Length: 12\r\nSkepd-Session:  tok \r\norigin: http://a\r\nExpect: 100-Continue",
    )
    .ok()
    .expect("a head in the subset");
    assert_eq!(h.method, "POST");
    assert_eq!(h.path, "/op");
    assert_eq!(h.query.as_deref(), Some("x=1"));
    assert_eq!(h.content_length, Some(12));
    assert_eq!(h.session_token.as_deref(), Some("tok"));
    assert_eq!(h.origin.as_deref(), Some("http://a"));
    assert!(h.expects_continue);
    assert_eq!(admit_body(&h).ok(), Some(12));
    let refusal = |head: &[u8]| match parse_request_head(head) {
        Err(RequestRefusal::Malformed(m)) => m,
        _ => panic!("refused"),
    };
    assert_eq!(refusal(b"GET"), "request line lacks a target");
    assert_eq!(refusal(b"GET /"), "request line lacks an HTTP version");
    assert_eq!(refusal(b"GET / HTTP/1.1 x"), "malformed request line");
    assert_eq!(refusal(b"GET / HTTP/2"), "unsupported protocol 'HTTP/2'");
    assert_eq!(refusal(b"get / HTTP/1.1"), "malformed method token");
    assert_eq!(refusal(b"GET / HTTP/1.1\r\nnocolon"), "malformed header line 'nocolon'");
    assert_eq!(
        refusal(b"GET / HTTP/1.1\r\nOrigin: a\r\nORIGIN: b"),
        "duplicate header 'ORIGIN'"
    );
    assert_eq!(
        refusal(b"GET / HTTP/1.1\r\nTransfer-Encoding: chunked"),
        "chunked request bodies are unsupported; send Content-Length"
    );
    assert_eq!(refusal(b"GET / HTTP/1.1\r\nContent-Length: x"), "bad Content-Length 'x'");
    assert_eq!(refusal(&[0xff, 0xfe]), "request head is not UTF-8");
    let big = parse_request_head(b"POST /session HTTP/1.1\r\nContent-Length: 9000").ok().unwrap();
    match admit_body(&big) {
        Err(RequestRefusal::BodyTooLarge { declared, cap }) => {
            assert_eq!((declared, cap), (9000, 8192));
        }
        _ => panic!("over the small cap"),
    }
    let r = refuse_request(RequestRefusal::BodyTooLarge { declared: 9000, cap: 8192 });
    assert_eq!(r.status, 413);
    assert_eq!(
        body_text(&r),
        r#"{"detail":"Content-Length 9000 exceeds the 8192-byte body cap","error":"payload_too_large"}"#
    );
}

#[test]
fn splitmix_is_the_reference_sequence() {
    let mut st = 0u64;
    assert_eq!(splitmix64(&mut st), 0xE220_A839_7B1D_CDAF);
    assert_eq!(st, 0x9E37_79B9_7F4A_7C15);
    assert_eq!(splitmix64(&mut st), 0x6E78_9E6A_A1B9_65F4);
}

#[test]
fn the_http_oracle_accepts_well_formed_responses() {
    let ok = b"HTTP/1.1 200 OK\r\nAccess-Control-Allow-Origin: *\r\nContent-Length: 2\r\n\r\n{}";
    assert_eq!(check_http_response(ok), Ok(200));
    let pre = b"HTTP/1.1 204 No Content\r\naccess-control-allow-origin: *\r\n\r\n";
    assert_eq!(check_http_response(pre), Ok(204));
    let stream = b"HTTP/1.1 200 OK\r\nAccess-Control-Allow-Origin: *\r\nContent-Type: Text/Event-Stream\r\n\r\ndata";
    assert_eq!(check_http_response(stream), Ok(200));
    let mut r = reply_head(&refuse(TransportError::NoSuchEndpoint, None));
    r.extend_from_slice(refuse(TransportError::NoSuchEndpoint, None).bytes());
    assert_eq!(check_http_response(&r), Ok(404));
}

#[test]
fn the_http_oracle_names_each_defect() {
    assert_eq!(
        check_http_response(b"").unwrap_err(),
        "no response bytes (server closed without answering)"
    );
    assert_eq!(check_http_response(b"HTTP/1.1 200 OK").unwrap_err(), "no CRLFCRLF header terminator");
    assert_eq!(
        check_http_response(b"HTTP/1.0 200 OK\r\n\r\n").unwrap_err(),
        "status line is not HTTP/1.1: \"HTTP/1.0 200 OK\""
    );
    assert_eq!(check_http_response(b"HTTP/1.1\r\n\r\n").unwrap_err(), "no status code");
    assert_eq!(
        check_http_response(b"HTTP/1.1 x OK\r\n\r\n").unwrap_err(),
        "non-numeric status code: \"HTTP/1.1 x OK\""
    );
    assert_eq!(
        check_http_response(b"HTTP/1.1 200 OK\r\nbad\r\n\r\n").unwrap_err(),
        "malformed header line: \"bad\""
    );
    assert_eq!(
        check_http_response(b"HTTP/1.1 200 OK\r\nContent-Length: 2\r\n\r\n{}").unwrap_err(),
        "response missing Access-Control-Allow-Origin (wire v4)"
    );
    assert_eq!(
        check_http_response(b"HTTP/1.1 204 X\r\nAccess-Control-Allow-Origin: *\r\n\r\nz").unwrap_err(),
        "204 response carried a body"
    );
    assert_eq!(
        check_http_response(b"HTTP/1.1 200 OK\r\nAccess-Control-Allow-Origin: *\r\nContent-Length: 3\r\n\r\n{}")
            .unwrap_err(),
        "Content-Length 3 disagrees with body length 2"
    );
    assert_eq!(
        check_http_response(b"HTTP/1.1 200 OK\r\nAccess-Control-Allow-Origin: *\r\n\r\n{}").unwrap_err(),
        "non-204 response without Content-Length"
    );
    assert_eq!(
        check_http_response(b"HTTP/1.1 200 OK\r\nContent-Length: x\r\n\r\n").unwrap_err(),
        "bad Content-Length: \"x\""
    );
    assert_eq!(check_http_response(&[0xff, b'\r', b'\n', b'\r', b'\n']).unwrap_err(), "non-UTF-8 response head");
}

#[test]
fn the_request_builders_frame_exactly() {
    assert_eq!(
        build_post("/op", b"{}"),
        b"POST /op HTTP/1.1\r\nHost: 127.0.0.1\r\nContent-Type: application/json\r\nContent-Length: 2\r\n\r\n{}".to_vec()
    );
    assert_eq!(build_get("/changes?since=0"), b"GET /changes?since=0 HTTP/1.1\r\nHost: 127.0.0.1\r\n\r\n".to_vec());
}

#[test]
fn the_mutation_helpers() {
    assert!(looks_like_tumbler("1.2.3"));
    assert!(looks_like_tumbler("1"));
    assert!(!looks_like_tumbler(""));
    assert!(!looks_like_tumbler("..."));
    assert!(!looks_like_tumbler("1.a"));
    let mut st = 5u64;
    assert_eq!(edit_one_char("", &mut st), "x");
    assert_eq!(st, 5);
    let e = edit_one_char("key", &mut st);
    assert_eq!(e.len(), 3);
    assert_ne!(st, 5);
    assert!(e.bytes().filter(|b| b.is_ascii_lowercase()).count() == 3);
    assert_eq!(hex(&[0x00, 0xab, 0x7f]), "00ab7f");
    assert_eq!(resp_shapes().len(), 19);
}

#[test]
fn a_reconstruction_hands_its_permit_back_on_the_way_out() {
    let mut history = History::new();
    assert_eq!(history.with_reconstruction(|| 5), Some(5), "a step runs under a free permit");
    let a = history.try_hold_permit().expect("the slot came back");
    let b = history.try_hold_permit().expect("both slots came back");
    let mut ran = false;
    assert_eq!(history.with_reconstruction(|| { ran = true; 1 }), None, "a busy history refuses");
    assert!(!ran, "and never runs the step");
    history.release_permit(a);
    history.release_permit(b);
    assert_eq!(history.with_reconstruction(|| 7), Some(7));
    assert!(history.try_hold_permit().is_some() && history.try_hold_permit().is_some(), "the whole budget is free again");
}

#[test]
fn the_feed_index_partitions_the_log_and_sorts_each_owner_stream() {
    let positions = vec![1u64, 2, 3, 5, 8];
    // 9 is not in the log: a masked record for it counts for nothing.
    let masked = vec![8u64, 2, 9];
    // Lines in record order, out of position order, one repeated, one
    // naming a position the log no longer holds.
    let lines = vec![
        (5u64, vec![70u64, 40]),
        (2u64, vec![40u64]),
        (9u64, vec![40u64, 99]),
        (2u64, vec![40u64]),
        (3u64, vec![70u64]),
    ];
    let f = feed_index(&positions, &masked, &lines);
    assert_eq!(f.masked, vec![2, 8]);
    assert_eq!(f.published, vec![1, 3, 5]);
    assert_eq!(f.streams, vec![(40, vec![2, 5]), (70, vec![3, 5])]);
}

#[test]
fn an_empty_log_indexes_to_nothing() {
    let f = feed_index(&Vec::new(), &vec![4u64], &vec![(4u64, vec![1u64])]);
    assert!(f.masked.is_empty());
    assert!(f.published.is_empty());
    assert!(f.streams.is_empty());
}
