//! The route handlers that stand on the auth surface alone: the challenge
//! issue and the session close. Each takes the request's parts and the
//! stores it touches, and answers the reply the daemon writes.

use vstd::prelude::*;
use vstd::string::*;
use crate::challenges::{self, Challenges, OsEntropy};
use crate::hex;
use crate::http::{self, Reply, TransportError};
use crate::json::{self, Scalar, ScalarView};
use crate::query;
use crate::session::{self, Token, CHALLENGE_TTL_MILLIS};
use crate::sessions::{Actor, Sessions};
use crate::text;

verus! {

/// The challenge answer's members: the nonce in lowercase hex, the
/// principal it was issued for, and the TTL in milliseconds — a pin of
/// the store's own constant.
pub open spec fn challenge_members(nonce: Seq<u8>, principal: nat) -> Seq<(Seq<u8>, ScalarView)> {
    seq![
        ("nonce".spec_bytes(), ScalarView::Text(hex::hex_encode(nonce))),
        ("principal".spec_bytes(), ScalarView::Number(principal)),
        ("ttl_ms".spec_bytes(), ScalarView::Number(CHALLENGE_TTL_MILLIS as nat)),
    ]
}

/// `GET /challenge?principal=N`: issue a nonce for ANY principal — nothing
/// is secret; the burn is the credential. A malformed query is the 400
/// `malformed_challenge`, naming the fault, and issues nothing. Where the
/// OS has no entropy to give, no nonce is minted from anything weaker: the
/// answer is the 500 `internal_panic` a handler's failure is answered with,
/// and nothing is issued.
pub fn get_challenge(challenges: &mut Challenges, query: Option<&str>, now: u64, rng: &mut OsEntropy) -> (r: Reply)
    requires
        now <= u64::MAX - CHALLENGE_TTL_MILLIS,
    ensures
        final(challenges).limit() == old(challenges).limit(),
        r.headers@.len() == 0,
        match query::challenge_spec(query::query_bytes(query)) {
            Err(d) => {
                &&& r.status == 400
                &&& http::json_body(
                    &r,
                    http::refusal_bytes(http::detail_fields(Some(vstd::utf8::encode_utf8(d))), TransportError::MalformedChallenge),
                )
                &&& final(challenges).live() == old(challenges).live()
                &&& final(challenges).queue() == old(challenges).queue()
            },
            Ok(p) => {
                ||| {
                    &&& r.status == 200
                    &&& exists|n: Seq<u8>|
                        #![trigger challenge_members(n, p)]
                        n.len() == 32 && http::json_body(&r, json::render_object(json::canonical(challenge_members(n, p))))
                            && (final(challenges).live(), final(challenges).queue()) == challenges::evicted(
                            old(challenges).live().insert(n, (p as u64, (now + CHALLENGE_TTL_MILLIS) as u64)),
                            old(challenges).queue().push(n),
                            old(challenges).limit(),
                        )
                }
                ||| {
                    &&& r.status == 500
                    &&& http::json_body(&r, http::refusal_bytes(http::detail_fields(None), TransportError::InternalPanic))
                    &&& final(challenges).live() == old(challenges).live()
                    &&& final(challenges).queue() == old(challenges).queue()
                }
            },
        },
{
    let principal = match query::challenge_principal(query) {
        Ok(p) => p,
        Err(detail) => {
            return http::refuse(TransportError::MalformedChallenge, Some(detail.as_str()));
        },
    };
    match challenges.issue_drawn(principal, now, rng) {
        None => http::refuse(TransportError::InternalPanic, None),
        Some(nonce) => {
            let pairs = vec![
                ("nonce", Scalar::Text(nonce.to_hex())),
                ("principal", Scalar::Number(principal)),
                ("ttl_ms", Scalar::Number(CHALLENGE_TTL_MILLIS)),
            ];
            proof {
                session::lemma_wire_text_bytes(nonce@);
                reveal_strlit("nonce");
                reveal_strlit("principal");
                reveal_strlit("ttl_ms");
                assert(json::given_views(pairs@) =~= challenge_members(nonce@, principal as nat));
            }
            let o = json::obj(pairs);
            Reply::json(200, &o)
        },
    }
}

/// `POST /session/close`: always the bodiless 204. A request that
/// resolved to a principal closes the binding its token names; one that
/// did not has nothing left to close here.
pub fn post_session_close(sessions: &mut Sessions, actor: &Actor, session_token: Option<&str>) -> (r: Reply)
    ensures
        r.status == 204,
        r.body is None,
        r.headers@.len() == 0,
        match (actor, session_token) {
            (Actor::Principal(_), Some(t)) => match hex::lower_hex_decode(t.spec_bytes(), 16) {
                Some(k) => final(sessions).map() == old(sessions).map().remove(k),
                None => final(sessions).map() == old(sessions).map(),
            },
            _ => final(sessions).map() == old(sessions).map(),
        },
{
    match actor {
        Actor::Principal(_) => match session_token {
            Some(text) => match Token::parse(text) {
                Some(t) => {
                    let _ = sessions.close(&t);
                },
                None => {},
            },
            None => {},
        },
        Actor::Guest(_) => {},
    }
    Reply { status: 204, body: None, headers: Vec::new() }
}

} // verus!
