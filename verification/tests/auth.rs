use skepd::auth::{
    bare_bind_allowed, bare_origins, signed_origins, startup_warnings, AuthConfig, AuthOptions,
    BareBind, Mode, Warning,
};
use skepd::origin::{Origin, PortAlreadyBound};
use skepd::origins::{loopback_defaults, OriginSet};
use skepd::session::{Nonce, Peer, Token};

fn texts(set: &OriginSet) -> Vec<String> {
    (0..set.len()).map(|i| set.get(i).as_str().to_string()).collect()
}

fn cfg_with(port: u16, local_trust: bool, configured: &[&str]) -> AuthConfig {
    let mut opts = AuthOptions::default();
    opts.local_trust = local_trust;
    opts.configured = configured.iter().map(|s| Origin::parse(s).expect("canonical")).collect();
    let mut cfg = AuthConfig::new(opts);
    cfg.bind_port(port).expect("a fresh config binds once");
    cfg
}

fn warning_names(ws: &[Warning]) -> Vec<String> {
    ws.iter()
        .map(|w| match w {
            Warning::ClaimedWithLocalTrust => "local-trust".to_string(),
            Warning::ClaimedWithEmptyConfigured => "empty".to_string(),
            Warning::ConfiguredLoopbackPortChanged(o) => o.as_str().to_string(),
        })
        .collect()
}

#[test]
fn origins_are_canonical_only() {
    for ok in [
        "http://127.0.0.1:8642",
        "http://localhost:8642",
        "http://[::1]:8642",
        "http://127.0.0.1",
        "https://example.org",
        "https://skep.example:8443",
    ] {
        let o = Origin::parse(ok).unwrap_or_else(|| panic!("'{ok}' is canonical"));
        assert_eq!(o.as_str(), ok);
    }
    for bad in [
        "http://127.0.0.1:80",
        "https://example.org:443",
        "HTTP://x",
        "http://X.org",
        "http://x/",
        "http://x/path",
        "null",
        "",
        "http://x:08642",
        "ftp://x",
        "http://",
        "http://x:",
        "http://x:0",
    ] {
        assert!(Origin::parse(bad).is_none(), "'{bad}' must not parse");
    }
}

#[test]
fn loopback_defaults_are_the_three_canonical_members() {
    let at_8642 = texts(&loopback_defaults(Some(8642)));
    assert_eq!(at_8642, ["http://127.0.0.1:8642", "http://[::1]:8642", "http://localhost:8642"]);
    let at_80 = texts(&loopback_defaults(Some(80)));
    assert_eq!(at_80, ["http://127.0.0.1", "http://[::1]", "http://localhost"]);
    assert_eq!(loopback_defaults(None).len(), 0, "an unbound config derives no defaults");
}

#[test]
fn a_second_bind_is_refused_and_names_the_bound_port() {
    let mut cfg = cfg_with(8642, true, &[]);
    assert_eq!(cfg.port(), Some(8642));
    assert_eq!(cfg.bind_port(9999), Err(PortAlreadyBound(8642)), "the bound port, not the refused one");
    assert_eq!(cfg.port(), Some(8642), "and the binding did not move");
}

#[test]
fn an_unbound_config_derives_no_origins() {
    let mut opts = AuthOptions::default_options();
    opts.configured = vec![Origin::parse("https://board.example").expect("canonical")];
    let cfg = AuthConfig::new(opts);
    assert_eq!(cfg.port(), None);
    let bare = bare_origins(&cfg);
    assert_eq!(bare.len(), 1, "configured alone");
    assert!(bare.contains(&Origin::parse("https://board.example").unwrap()));
}

#[test]
fn the_two_origin_sets_split_at_the_claim() {
    let cfg = cfg_with(8642, false, &["https://board.example"]);
    let bare = bare_origins(&cfg);
    assert_eq!(bare.len(), 4, "configured and the three defaults");
    assert!(bare.contains(&Origin::parse("http://localhost:8642").unwrap()));
    let unclaimed = signed_origins(&cfg, false);
    assert_eq!(texts(&unclaimed), texts(&bare), "unclaimed: the signed set is the bare set");
    let claimed = signed_origins(&cfg, true);
    assert_eq!(claimed.len(), 1, "claimed: configured alone");
    assert!(claimed.contains(&Origin::parse("https://board.example").unwrap()));
}

#[test]
fn each_warning_arm_fires_only_on_its_own_cell() {
    assert!(startup_warnings(&cfg_with(8642, false, &["https://b.example"]), true).is_empty());
    assert_eq!(
        warning_names(&startup_warnings(&cfg_with(8642, true, &["https://b.example"]), true)),
        ["local-trust"]
    );
    assert_eq!(warning_names(&startup_warnings(&cfg_with(8642, false, &[]), true)), ["empty"]);
    let moved = cfg_with(80, false, &["http://127.0.0.1", "http://127.0.0.1:8080"]);
    assert_eq!(
        warning_names(&startup_warnings(&moved, false)),
        ["http://127.0.0.1:8080"],
        "the canonical member is silent; the moved port warns and is named"
    );
    assert!(startup_warnings(&cfg_with(443, false, &["https://b.example"]), false).is_empty());
}

#[test]
fn the_port_change_warning_names_the_origin_in_its_text() {
    let moved = cfg_with(80, false, &["http://localhost:9000"]);
    let ws = startup_warnings(&moved, false);
    assert_eq!(ws.len(), 1);
    assert_eq!(
        ws[0].text(),
        "configured origin http://localhost:9000 names a loopback host at a port this daemon is \
         not bound to; re-issue the origin for the bound port (keys enrolled under \
         http://localhost:9000 are stranded until then)"
    );
    assert!(Warning::ClaimedWithLocalTrust.text().contains("CLAIMED-PERMISSIVE"));
}

#[test]
fn bare_bind_cells_answer_mode_before_request() {
    let cfg = cfg_with(8642, true, &[]);
    let dialed = format!("http://127.0.0.1:{}", 8642);
    for claimed in [false, true] {
        assert_eq!(bare_bind_allowed(&cfg, Peer::Loopback, None, claimed), BareBind::Allowed);
        assert_eq!(
            bare_bind_allowed(&cfg, Peer::Loopback, Some(&dialed), claimed),
            BareBind::Allowed
        );
        assert_eq!(bare_bind_allowed(&cfg, Peer::Remote, None, claimed), BareBind::RequestRefused);
        for bad in ["https://evil.example", "null", "http://127.0.0.1:9999"] {
            assert_eq!(
                bare_bind_allowed(&cfg, Peer::Loopback, Some(bad), claimed),
                BareBind::RequestRefused,
                "'{bad}' is not in the bare set"
            );
        }
    }
    let enforcing_cfg = cfg_with(8642, false, &[]);
    assert_eq!(Mode::of(&enforcing_cfg, true), Mode::Enforcing);
    assert_eq!(Mode::of(&enforcing_cfg, false), Mode::Unclaimed, "the flag is not consulted");
    assert_eq!(Mode::of(&cfg, true), Mode::ClaimedPermissive);
    assert_eq!(
        bare_bind_allowed(&enforcing_cfg, Peer::Loopback, Some(&dialed), true),
        BareBind::ModeRefused
    );
    assert_eq!(bare_bind_allowed(&enforcing_cfg, Peer::Remote, Some("null"), true), BareBind::ModeRefused);
    assert_eq!(bare_bind_allowed(&enforcing_cfg, Peer::Loopback, None, false), BareBind::Allowed);
}

#[test]
fn nonce_hex_is_strict_lowercase() {
    let n = Nonce::from_bytes([0xab; 32]);
    assert_eq!(n.to_hex(), "ab".repeat(32));
    assert_eq!(Nonce::parse_hex(&n.to_hex()), Some(n));
    assert!(Nonce::parse_hex(&"AB".repeat(32)).is_none(), "uppercase is a syntax fault");
    assert!(Nonce::parse_hex("ab").is_none());
}

#[test]
fn token_parse_admits_only_to_wire_output() {
    let t = Token::from_bytes([0xab; 16]);
    assert_eq!(Token::parse(&t.to_wire()).map(|p| p.to_wire()), Some(t.to_wire()));
    assert!(Token::parse("nonsense").is_none());
    assert!(Token::parse(&t.to_wire().to_uppercase()).is_none());
    assert!(Token::parse("9f3a6c21d4b8e07a.1").is_none());
}
