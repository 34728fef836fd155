//! The handshake's pinned order. The bare arm is one predicate; the signed
//! arm is the origin set, the burn, the account, THE BLOCK, and only then
//! the signature. Every failure of the credential is the one unit refusal;
//! the block is the second value, carrying the record of the entry that
//! blocks.
//!
//! What the board knows of a principal — its account, its enrolled keys,
//! and which of them verifies the body — is the caller's to ask and is
//! handed in; the order in which the answers are consulted, and what each
//! decides, is this module's.

use vstd::prelude::*;
use vstd::string::*;
use crate::auth::{self, AuthConfig, BareBind};
use crate::blocked::{self, Address};
use crate::challenges::{self, Challenges};
use crate::session::{Peer, Scope, SessionBody, SessionBodyView};

verus! {

/// Why a handshake opened no session: the unit refusal, or the block with
/// the record of the longest covering entry.
pub enum HandshakeRefusal {
    Rejected,
    Blocked { record: Address },
}

/// A refusal with the record as components.
pub enum RefusalView {
    Rejected,
    Blocked(Seq<Seq<u8>>),
}

/// The handshake's answer as values.
pub open spec fn outcome_view(r: Result<(u64, Option<[u8; 32]>, Scope), HandshakeRefusal>) -> Result<
    (u64, Option<Seq<u8>>, Scope),
    RefusalView,
> {
    match r {
        Ok((p, s, sc)) => Ok(
            (
                p,
                match s {
                    Some(f) => Some(f@),
                    None => None,
                },
                sc,
            ),
        ),
        Err(HandshakeRefusal::Rejected) => Err(RefusalView::Rejected),
        Err(HandshakeRefusal::Blocked { record }) => Err(RefusalView::Blocked(record@)),
    }
}

/// The signed arm's origin set: the bare set until the claim, the
/// configured set after it.
pub open spec fn signed_set(cfg: AuthConfig, claimed: bool) -> Set<Seq<u8>> {
    if claimed {
        cfg.configured_view().to_set()
    } else {
        auth::bare_set(cfg)
    }
}

/// What the live challenges hold for `n`, if anything.
pub open spec fn entry_for(live: Map<Seq<u8>, (u64, u64)>, n: Seq<u8>) -> Option<(u64, u64)> {
    if live.dom().contains(n) {
        Some(live[n])
    } else {
        None
    }
}

/// The handshake's answer: the bare arm by the bare-bind rule; the signed
/// arm refused unless its origin is in the signed set, its nonce burns
/// valid, the board knows its account, no entry in force blocks that
/// account (the block answering the record), and a key verified.
pub open spec fn handshake_spec(
    cfg: AuthConfig,
    vs: Seq<Option<blocked::Comparand>>,
    es: Seq<(Seq<Seq<u8>>, Seq<Seq<u8>>)>,
    body: SessionBodyView,
    peer: Peer,
    origin_hdr: Option<Seq<u8>>,
    claimed: bool,
    live: Map<Seq<u8>, (u64, u64)>,
    now: u64,
    account: Option<Seq<Seq<u8>>>,
    signer: Option<Seq<u8>>,
) -> Result<(u64, Option<Seq<u8>>, Scope), RefusalView> {
    match body {
        SessionBodyView::Bare(p) => if auth::bare_bind_spec(cfg, peer, origin_hdr, claimed) == BareBind::Allowed {
            Ok((p, None, Scope::Full))
        } else {
            Err(RefusalView::Rejected)
        },
        SessionBodyView::Signed(p, nonce, origin, scope, _) => if !signed_set(cfg, claimed).contains(origin) {
            Err(RefusalView::Rejected)
        } else if !challenges::validates(entry_for(live, nonce), p, now) {
            Err(RefusalView::Rejected)
        } else {
            match account {
                None => Err(RefusalView::Rejected),
                Some(a) => match blocked::cover_of(vs, es, a) {
                    Some(rec) => Err(RefusalView::Blocked(rec)),
                    None => match signer {
                        Some(fp) => Ok((p, Some(fp), scope)),
                        None => Err(RefusalView::Rejected),
                    },
                },
            }
        },
    }
}

/// The burn happened: the body is signed and its origin passed step 2.
pub open spec fn burns(cfg: AuthConfig, body: SessionBodyView, claimed: bool) -> bool {
    match body {
        SessionBodyView::Signed(_, _, origin, _, _) => signed_set(cfg, claimed).contains(origin),
        SessionBodyView::Bare(_) => false,
    }
}

/// Which origins the signed arm takes. On a claimed board exactly the
/// configured ones: any other origin — the loopback defaults included — is
/// refused before the nonce is touched, whatever else the body carries.
/// Before the claim, the configured origins and the bound port's loopback
/// defaults, and nothing else.
pub proof fn law_signed_origins_by_board_mode(
    cfg: AuthConfig,
    vs: Seq<Option<blocked::Comparand>>,
    es: Seq<(Seq<Seq<u8>>, Seq<Seq<u8>>)>,
    p: u64,
    nonce: Seq<u8>,
    origin: Seq<u8>,
    scope: Scope,
    sig: Seq<u8>,
    peer: Peer,
    origin_hdr: Option<Seq<u8>>,
    claimed: bool,
    live: Map<Seq<u8>, (u64, u64)>,
    now: u64,
    account: Option<Seq<Seq<u8>>>,
    signer: Option<Seq<u8>>,
)
    ensures
        ({
            let body = SessionBodyView::Signed(p, nonce, origin, scope, sig);
            let admitted = if claimed {
                cfg.configured_view().contains(origin)
            } else {
                cfg.configured_view().contains(origin) || auth::defaults_view(cfg.bound_port()).contains(
                    origin,
                )
            };
            &&& burns(cfg, body, claimed) == admitted
            &&& !admitted ==> handshake_spec(
                cfg,
                vs,
                es,
                body,
                peer,
                origin_hdr,
                claimed,
                live,
                now,
                account,
                signer,
            ) == Err::<(u64, Option<Seq<u8>>, Scope), RefusalView>(RefusalView::Rejected)
        }),
{
}

/// The nonce a signed body carries.
pub open spec fn nonce_of(body: SessionBodyView) -> Seq<u8> {
    match body {
        SessionBodyView::Signed(_, n, _, _, _) => n,
        SessionBodyView::Bare(_) => Seq::empty(),
    }
}

/// THE HANDSHAKE. `account` is the session's own account as the board
/// resolves the body's principal (`None` for a principal it does not
/// know); `signer` is the fingerprint of the first of that account's
/// enrolled keys, in fingerprint order, whose key verifies the body's
/// signature over its signed bytes ([`crate::session::session_payload`]),
/// or `None`. Neither is consulted before the steps that stand ahead of
/// it: a party the board refuses at the origin set, the burn or the block
/// never has its keys read. The nonce is spent at step 3 whatever follows.
pub fn handshake(
    cfg: &AuthConfig,
    challenges: &mut Challenges,
    body: SessionBody,
    peer: Peer,
    origin_hdr: Option<&str>,
    claimed: bool,
    now: u64,
    account: Option<&Address>,
    signer: Option<[u8; 32]>,
) -> (r: Result<(u64, Option<[u8; 32]>, Scope), HandshakeRefusal>)
    ensures
        outcome_view(r) == handshake_spec(
            *cfg,
            cfg.list().verdicts(),
            cfg.list().entries(),
            body@,
            peer,
            match origin_hdr {
                Some(h) => Some(h.spec_bytes()),
                None => None,
            },
            claimed,
            old(challenges).live(),
            now,
            match account {
                Some(a) => Some(a@),
                None => None,
            },
            match signer {
                Some(f) => Some(f@),
                None => None,
            },
        ),
        burns(*cfg, body@, claimed) ==> final(challenges).live() == old(challenges).live().remove(nonce_of(body@))
            && final(challenges).queue() == challenges::without(old(challenges).queue(), nonce_of(body@)),
        !burns(*cfg, body@, claimed) ==> final(challenges).live() == old(challenges).live()
            && final(challenges).queue() == old(challenges).queue(),
        final(challenges).limit() == old(challenges).limit(),
{
    match body {
        SessionBody::Bare { principal } => {
            match auth::bare_bind_allowed(cfg, peer, origin_hdr, claimed) {
                BareBind::Allowed => Ok((principal, None, Scope::Full)),
                _ => Err(HandshakeRefusal::Rejected),
            }
        },
        SessionBody::Signed { principal, nonce, origin, scope, sig: _ } => {
            let set = auth::signed_origins(cfg, claimed);
            let inside = set.contains(&origin);
            proof {
                assert(inside == signed_set(*cfg, claimed).contains(origin@));
            }
            if !inside {
                return Err(HandshakeRefusal::Rejected);
            }
            if !challenges.burn(&nonce, principal, now) {
                return Err(HandshakeRefusal::Rejected);
            }
            let own = match account {
                Some(a) => a,
                None => {
                    return Err(HandshakeRefusal::Rejected);
                },
            };
            match cfg.blocked_prefixes().covers(own) {
                Some(record) => {
                    return Err(HandshakeRefusal::Blocked { record: record.duplicate() });
                },
                None => {},
            }
            match signer {
                Some(fp) => Ok((principal, Some(fp), scope)),
                None => Err(HandshakeRefusal::Rejected),
            }
        },
    }
}

} // verus!
