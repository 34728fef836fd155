use skepd::auth::{AuthConfig, AuthOptions};
use skepd::blocked::{Address, BlockedEntry, BlockedHeader, BlockedIssue};
use skepd::session::Peer;
use skepd::sessions::{resolve, Actor, GuestReason};
use skepd::challenges::OsEntropy;
use skepd::session::{Scope, Token};
use skepd::sessions::{Lookup, SessionBinding, Sessions};

fn binding(sid: u64, principal: u64, signer: Option<[u8; 32]>) -> SessionBinding {
    SessionBinding { sid, principal, signer, scope: Scope::Full }
}

#[test]
fn a_session_reads_back_its_binding_until_closed() {
    let mut s = Sessions::new();
    let mut rng = OsEntropy;
    let b = binding(1, 7, None);
    let t = s.open(b, &mut rng).expect("OS entropy");
    assert_eq!(s.lookup(Some(&t)), Lookup::Found(b), "a read gives back the write");
    assert_eq!(s.lookup(None), Lookup::NoToken, "no token presented");
    let other = Token::from_bytes([0u8; 16]);
    assert_eq!(s.lookup(Some(&other)), Lookup::Unknown, "a token never minted");
    assert_eq!(s.close(&t), Some(b), "the close hands back the binding");
    assert_eq!(s.lookup(Some(&t)), Lookup::Unknown, "and the token is gone");
    assert_eq!(s.close(&t), None, "a second close finds nothing");
}

#[test]
fn tokens_name_their_own_bindings() {
    let mut s = Sessions::new();
    let a = s.open_with(binding(1, 7, None), [1u8; 16]);
    let b = s.open_with(binding(2, 8, Some([0xab; 32])), [2u8; 16]);
    assert_eq!(s.lookup(Some(&a)), Lookup::Found(binding(1, 7, None)));
    assert_eq!(s.lookup(Some(&b)), Lookup::Found(binding(2, 8, Some([0xab; 32]))));
    s.close(&a);
    assert_eq!(s.lookup(Some(&b)), Lookup::Found(binding(2, 8, Some([0xab; 32]))), "closing one leaves the other");
    let again = s.open_with(binding(3, 9, None), [2u8; 16]);
    assert_eq!(s.lookup(Some(&again)), Lookup::Found(binding(3, 9, None)), "a token minted again names the new binding");
}

#[test]
fn the_testimony_is_the_fingerprint_or_bare() {
    assert_eq!(binding(1, 7, None).testimony(), "bare");
    assert_eq!(binding(1, 7, Some([0xab; 32])).testimony(), "ab".repeat(32));
}

fn cfg_at(port: u16, local_trust: bool) -> AuthConfig {
    let mut opts = AuthOptions::default_options();
    opts.local_trust = local_trust;
    let mut cfg = AuthConfig::new(opts);
    cfg.bind_port(port).expect("a fresh config binds once");
    cfg
}

#[test]
fn resolve_maps_every_lookup_arm_to_its_actor() {
    let mut cfg = cfg_at(8642, true);
    let own = Address::parse("1.0.7").expect("an address");
    let go = |cfg: &AuthConfig, lookup, peer, origin, key_live| resolve(cfg, lookup, peer, origin, false, Some(&own), key_live);
    assert_eq!(go(&cfg, Lookup::NoToken, Peer::Loopback, None, true), Actor::Guest(GuestReason::NoToken));
    assert_eq!(go(&cfg, Lookup::Unknown, Peer::Loopback, None, true), Actor::Guest(GuestReason::Unknown));
    let bare = binding(1, 7, None);
    assert_eq!(go(&cfg, Lookup::Found(bare), Peer::Loopback, None, true), Actor::Principal(bare));
    assert_eq!(
        go(&cfg, Lookup::Found(bare), Peer::Remote, None, true),
        Actor::Guest(GuestReason::RequestRefused),
        "a bare bind off loopback: refused for this request, and it lives"
    );
    let signed = binding(1, 7, Some([0xab; 32]));
    for peer in [Peer::Loopback, Peer::Remote] {
        assert_eq!(
            go(&cfg, Lookup::Found(signed), peer, Some("https://evil.example"), false),
            Actor::Guest(GuestReason::BindingDead),
            "a signer no key set holds is dead"
        );
    }
    assert_eq!(go(&cfg, Lookup::Found(signed), Peer::Remote, None, true), Actor::Principal(signed));
    let enforcing = cfg_at(8642, false);
    assert_eq!(
        resolve(&enforcing, Lookup::Found(bare), Peer::Loopback, None, true, Some(&own), true),
        Actor::Guest(GuestReason::BindingDead),
        "the mode's refusal of a bare bind is death"
    );
    cfg.install_blocked(
        BlockedIssue {
            header: BlockedHeader { operator: None, binding_writer: None },
            entries: vec![BlockedEntry {
                prefix: Address::parse("1.0").unwrap(),
                record: Address::parse("1.0.1.0.7.1").unwrap(),
            }],
        },
        None,
    );
    assert_eq!(go(&cfg, Lookup::Found(signed), Peer::Loopback, None, true), Actor::Guest(GuestReason::BindingDead));
    assert_eq!(
        go(&cfg, Lookup::Found(bare), Peer::Remote, None, true),
        Actor::Guest(GuestReason::BindingDead),
        "the block is arm-blind"
    );
}

#[test]
fn the_claim_flip_rejudges_the_issue_in_force() {
    let mut cfg = cfg_at(8642, true);
    cfg.install_blocked(
        BlockedIssue {
            header: BlockedHeader { operator: None, binding_writer: None },
            entries: vec![BlockedEntry {
                prefix: Address::parse("1.0.1").unwrap(),
                record: Address::parse("1.0.1.0.9.1").unwrap(),
            }],
        },
        None,
    );
    assert_eq!(cfg.blocked_prefixes().in_force(), 1, "unclaimed: no comparand, the entry stands");
    let claimant = Address::parse("1.0.1").unwrap();
    cfg.reinstall_blocked_at_claim(Some(&claimant));
    assert_eq!(cfg.blocked_prefixes().in_force(), 0, "the claim makes the entry over the claimant inert");
    assert!(!cfg.blocked_prefixes().issue_is_empty(), "and the issue is kept whole");
    assert!(cfg.blocked_prefixes().covers(&claimant).is_none());
}
