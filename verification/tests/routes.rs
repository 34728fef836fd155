use skepd::challenges::{Challenges, OsEntropy};
use skepd::routes::{get_challenge, post_session_close};
use skepd::session::{Nonce, Scope};
use skepd::sessions::{Actor, GuestReason, Lookup, SessionBinding, Sessions};

fn body(r: &skepd::http::Reply) -> String {
    String::from_utf8(r.bytes().to_vec()).expect("JSON is text")
}

#[test]
fn a_challenge_is_issued_for_any_principal_and_burns_once() {
    let mut ch = Challenges::new(4);
    let r = get_challenge(&mut ch, Some("principal=7"), 100, &mut OsEntropy);
    assert_eq!(r.status, 200);
    let text = body(&r);
    let hex: String = text.chars().skip(10).take(64).collect();
    assert_eq!(text, format!("{{\"nonce\":\"{hex}\",\"principal\":7,\"ttl_ms\":60000}}"));
    let hex = hex.as_str();
    let nonce = Nonce::parse_hex(hex).expect("64 lowercase hex");
    assert!(ch.burn(&nonce, 7, 101), "the issued nonce is live for its principal");
    assert!(!ch.burn(&nonce, 7, 101), "once");
}

#[test]
fn a_malformed_challenge_query_issues_nothing() {
    let mut ch = Challenges::new(4);
    for (q, detail) in [
        (None, "the required parameter is principal=<id>"),
        (Some("principal=x"), "principal: 'x' is not a non-negative integer"),
    ] {
        let r = get_challenge(&mut ch, q, 0, &mut OsEntropy);
        assert_eq!(r.status, 400);
        assert_eq!(body(&r), format!("{{\"detail\":\"{detail}\",\"error\":\"malformed_challenge\"}}"));
    }
}

#[test]
fn a_session_close_is_always_the_bodiless_204() {
    let mut s = Sessions::new();
    let b = SessionBinding { sid: 1, principal: 7, signer: None, scope: Scope::Full };
    let t = s.open_with(b, [3u8; 16]);
    let wire = t.to_wire();
    let r = post_session_close(&mut s, &Actor::Guest(GuestReason::Unknown), Some(&wire));
    assert_eq!((r.status, r.bytes().len()), (204, 0));
    assert_eq!(s.lookup(Some(&t)), Lookup::Found(b), "a guest's close closes nothing here");
    let r = post_session_close(&mut s, &Actor::Principal(b), Some(&wire));
    assert_eq!(r.status, 204);
    assert_eq!(s.lookup(Some(&t)), Lookup::Unknown, "a principal's close ends its binding");
}
