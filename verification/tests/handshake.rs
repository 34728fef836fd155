use skepd::auth::{AuthConfig, AuthOptions};
use skepd::blocked::{Address, BlockedEntry, BlockedHeader, BlockedIssue};
use skepd::challenges::Challenges;
use skepd::handshake::{handshake, HandshakeRefusal};
use skepd::origin::Origin;
use skepd::session::{Peer, Scope, SessionBody, CHALLENGE_TTL_MILLIS};

fn cfg_at(port: u16, local_trust: bool) -> AuthConfig {
    let mut opts = AuthOptions::default_options();
    opts.local_trust = local_trust;
    let mut cfg = AuthConfig::new(opts);
    cfg.bind_port(port).expect("a fresh config binds once");
    cfg
}

fn addr(s: &str) -> Address {
    Address::parse(s).expect("an address")
}

fn blocking(cfg: &mut AuthConfig, prefix: &str, record: &str) {
    cfg.install_blocked(
        BlockedIssue {
            header: BlockedHeader { operator: None, binding_writer: None },
            entries: vec![BlockedEntry { prefix: addr(prefix), record: addr(record) }],
        },
        None,
    );
}

fn signed(ch: &mut Challenges, principal: u64, issued: u64, origin: &str, scope: Scope) -> SessionBody {
    let nonce = ch.issue(principal, issued, [principal as u8; 32]);
    SessionBody::Signed { principal, nonce, origin: Origin::parse(origin).expect("canonical"), scope, sig: [0u8; 64] }
}

#[test]
fn an_expired_nonce_is_the_unit_refusal() {
    let cfg = cfg_at(8642, true);
    let mut ch = Challenges::new(4);
    let issued: u64 = 1_000;
    let body = signed(&mut ch, 7, issued, "http://127.0.0.1:8642", Scope::Full);
    let nonce = match &body {
        SessionBody::Signed { nonce, .. } => *nonce,
        _ => unreachable!(),
    };
    let own = addr("1.0.7");
    let outcome = handshake(
        &cfg,
        &mut ch,
        body,
        Peer::Loopback,
        None,
        false,
        issued + CHALLENGE_TTL_MILLIS,
        Some(&own),
        Some([1u8; 32]),
    );
    assert!(matches!(outcome, Err(HandshakeRefusal::Rejected)), "an expired nonce is the unit refusal");
    assert!(!ch.burn(&nonce, 7, issued), "and the expired entry burned with the attempt");
}

#[test]
fn the_signed_arm_answers_in_its_pinned_order() {
    let mut cfg = cfg_at(8642, true);
    let own = addr("1.0.7");
    let fp = [0x5au8; 32];
    let go = |cfg: &AuthConfig, ch: &mut Challenges, body: SessionBody, account: Option<&Address>, signer| {
        handshake(cfg, ch, body, Peer::Loopback, None, false, 10, account, signer)
    };
    let mut ch = Challenges::new(8);
    let body = signed(&mut ch, 7, 0, "http://127.0.0.1:8642", Scope::Content);
    assert!(matches!(go(&cfg, &mut ch, body, Some(&own), Some(fp)), Ok((7, Some(f), Scope::Content)) if f == fp));

    let body = signed(&mut ch, 8, 0, "https://elsewhere.example", Scope::Full);
    let nonce = match &body {
        SessionBody::Signed { nonce, .. } => *nonce,
        _ => unreachable!(),
    };
    assert!(matches!(go(&cfg, &mut ch, body, Some(&own), Some(fp)), Err(HandshakeRefusal::Rejected)));
    assert!(ch.burn(&nonce, 8, 10), "an origin outside the set refuses before the burn: the nonce survives");

    let body = signed(&mut ch, 9, 0, "http://localhost:8642", Scope::Full);
    assert!(matches!(go(&cfg, &mut ch, body, None, Some(fp)), Err(HandshakeRefusal::Rejected)), "an unknown principal");

    let body = signed(&mut ch, 11, 0, "http://127.0.0.1:8642", Scope::Full);
    assert!(matches!(go(&cfg, &mut ch, body, Some(&own), None), Err(HandshakeRefusal::Rejected)), "no key verified");

    blocking(&mut cfg, "1.0", "1.0.1.0.7.1");
    let body = signed(&mut ch, 10, 0, "http://127.0.0.1:8642", Scope::Full);
    match go(&cfg, &mut ch, body, Some(&own), Some(fp)) {
        Err(HandshakeRefusal::Blocked { record }) => assert_eq!(record, addr("1.0.1.0.7.1")),
        _ => panic!("a blocked account is the second value, whatever its keys"),
    }
}

#[test]
fn the_bare_arm_is_the_bare_bind_rule() {
    let cfg = cfg_at(8642, true);
    let mut ch = Challenges::new(1);
    let bare = || SessionBody::Bare { principal: 3 };
    assert!(matches!(
        handshake(&cfg, &mut ch, bare(), Peer::Loopback, None, true, 0, None, None),
        Ok((3, None, Scope::Full))
    ));
    assert!(matches!(
        handshake(&cfg, &mut ch, bare(), Peer::Remote, None, false, 0, None, None),
        Err(HandshakeRefusal::Rejected)
    ));
    let enforcing = cfg_at(8642, false);
    assert!(matches!(
        handshake(&enforcing, &mut ch, bare(), Peer::Loopback, None, true, 0, None, None),
        Err(HandshakeRefusal::Rejected)
    ));
}
