use skepd::auth::{AuthConfig, AuthOptions};
use skepd::challenges::{Challenges, OsEntropy};
use skepd::cli::{parse_args, usage, Env, EnvValue, NodePrefix, PathSource, DEFAULT_WORKERS};
use skepd::codec::{bounded, MAX_ECHO_CHARS};
use skepd::json::{obj, Scalar};
use skepd::origin::Origin;
use skepd::session::{parse_session_body, session_payload, Scope, SessionBody, CHALLENGE_TTL_MILLIS};

fn quiet_env() -> Env {
    Env {
        data_dir_set: false,
        port: EnvValue::Unset,
        workers: EnvValue::Unset,
        local_trust: EnvValue::Unset,
        origin: EnvValue::Unset,
        blocked_prefixes_set: false,
        node_prefix: EnvValue::Unset,
    }
}

fn argv(args: &[&str]) -> Vec<String> {
    args.iter().map(|s| s.to_string()).collect()
}

fn given(p: &PathSource) -> Option<&str> {
    match p {
        PathSource::Given(s) => Some(s.as_str()),
        PathSource::FromEnv => None,
    }
}

#[test]
fn challenges_are_single_use_and_expire() {
    let mut ch = Challenges::new(4);
    let mut rng = OsEntropy;
    let now: u64 = 1_000;
    let n = ch.issue_drawn(7, now, &mut rng).expect("OS entropy");
    assert!(!ch.burn(&n, 8, now), "wrong principal refuses");
    assert!(!ch.burn(&n, 7, now), "and the entry burned with it");
    let n2 = ch.issue_drawn(7, now, &mut rng).expect("OS entropy");
    assert!(!ch.burn(&n2, 7, now + CHALLENGE_TTL_MILLIS), "expiry refuses");
    let n3 = ch.issue_drawn(7, now, &mut rng).expect("OS entropy");
    assert!(ch.burn(&n3, 7, now + 1_000));
    assert!(!ch.burn(&n3, 7, now + 1_000), "single use");
}

#[test]
fn challenge_cap_evicts_oldest() {
    let mut ch = Challenges::new(2);
    let mut rng = OsEntropy;
    let now: u64 = 5;
    let a = ch.issue_drawn(1, now, &mut rng).expect("OS entropy");
    let b = ch.issue_drawn(1, now, &mut rng).expect("OS entropy");
    let c = ch.issue_drawn(1, now, &mut rng).expect("OS entropy");
    assert!(!ch.burn(&a, 1, now), "the oldest was evicted");
    assert!(ch.burn(&b, 1, now));
    assert!(ch.burn(&c, 1, now));
}

#[test]
fn a_given_nonce_expires_exactly_at_the_ttl() {
    let mut ch = Challenges::new(1);
    let n = ch.issue(3, 10, [9u8; 32]);
    assert_eq!(n.bytes(), [9u8; 32]);
    assert!(ch.burn(&n, 3, 10 + CHALLENGE_TTL_MILLIS - 1), "one millisecond before expiry");
    let n = ch.issue(3, 10, [9u8; 32]);
    assert!(!ch.burn(&n, 3, 10 + CHALLENGE_TTL_MILLIS), "at expiry");
}

#[test]
fn a_node_prefix_is_a_node_address_strictly_under_the_root() {
    for ok in ["1.2", "1.3", "1.3.2", "1.1024.7"] {
        let parsed = NodePrefix::parse(ok).unwrap_or_else(|_| panic!("'{ok}' is a node prefix"));
        assert_eq!(parsed.as_str(), ok, "and renders as the operator spelled it");
        let parsed: NodePrefix = ok.parse().unwrap_or_else(|_| panic!("'{ok}' parses"));
        assert_eq!(parsed.as_str(), ok);
    }
    for bad in ["1", "2.4", "2", "1.3.0.7", "1.3.0.7.0.1", "1.0", "0.3", "1..3", "", "x", "1.3."] {
        assert!(NodePrefix::parse(bad).is_err(), "'{bad}' is not a node prefix");
    }
}

#[test]
fn help_is_an_answer_not_an_exit() {
    for flag in ["--help", "-h"] {
        let parsed = parse_args(&argv(&[flag]), &quiet_env()).expect("--help is not an error");
        assert!(parsed.is_none(), "{flag} asks for usage, not a run");
    }
}

#[test]
fn flags_parse_and_refusals_are_named() {
    let env = quiet_env();
    let a = parse_args(&argv(&["--data-dir", "/tmp/skepd-test", "--port", "0"]), &env)
        .expect("valid flags")
        .expect("a run, not usage");
    assert_eq!(given(&a.data_dir), Some("/tmp/skepd-test"));
    assert_eq!(a.port, 0);
    let a = parse_args(
        &argv(&["--data-dir", "/tmp/x", "--blocked-prefixes", "/etc/skepd/blocked.json"]),
        &env,
    )
    .expect("valid flags")
    .expect("a run, not usage");
    assert_eq!(
        a.blocked_prefixes.as_ref().and_then(given),
        Some("/etc/skepd/blocked.json"),
        "the list's supply is a path, carried as given"
    );
    assert!(
        parse_args(&argv(&["--data-dir", "/tmp/x", "--blocked-prefixes"]), &env).is_err(),
        "the flag without its file is refused"
    );
    assert!(parse_args(&argv(&["--frobnicate"]), &env).is_err(), "an unknown argument is refused");
    assert!(parse_args(&argv(&["--port"]), &env).is_err(), "a flag without its value is refused");
    assert!(
        parse_args(&argv(&["--data-dir", "/tmp/x", "--port", "notaport"]), &env).is_err(),
        "a non-numeric port is refused"
    );
    assert!(
        parse_args(&argv(&["--data-dir", "/tmp/x", "--workers", "0"]), &env).is_err(),
        "a zero worker count is refused, not repaired into a one-worker server"
    );
    assert_eq!(
        parse_args(&argv(&["--data-dir", "/tmp/x", "--workers", "2"]), &env)
            .expect("a count of two is in range")
            .expect("a run, not usage")
            .workers,
        2,
        "and a count in range is read as given"
    );
}

#[test]
fn the_node_prefix_flag_takes_a_node_address_under_the_root_and_nothing_else() {
    let env = quiet_env();
    let a = parse_args(&argv(&["--data-dir", "/tmp/x", "--node-prefix", "1.3"]), &env)
        .expect("valid flags")
        .expect("a run, not usage");
    assert_eq!(
        a.node_prefix.as_ref().map(|p| p.as_str().to_string()),
        Some("1.3".to_string()),
        "the board's node prefix, as given"
    );
    let absent = parse_args(&argv(&["--data-dir", "/tmp/x"]), &env)
        .expect("valid flags")
        .expect("a run, not usage");
    assert!(absent.node_prefix.is_none(), "the flag is optional: a notebook has none");
    for bad in ["1", "2.4", "1.3.0.7", "1.0", "x", ""] {
        match parse_args(&argv(&["--data-dir", "/tmp/x", "--node-prefix", bad]), &env) {
            Err(refused) => assert!(
                refused.starts_with(&format!("--node-prefix: '{bad}' is not a node prefix")),
                "the refusal names the flag, the value and the form: {refused}"
            ),
            Ok(_) => panic!("'{bad}' is not a node prefix, and was not refused"),
        }
    }
    assert!(
        parse_args(&argv(&["--data-dir", "/tmp/x", "--node-prefix"]), &env).is_err(),
        "the flag without its value is refused"
    );
}

#[test]
fn settings_fall_back_flag_then_environment_then_default() {
    let mut env = quiet_env();
    env.port = EnvValue::Text("9001".to_string());
    env.data_dir_set = true;
    let a = parse_args(&argv(&[]), &env).expect("valid").expect("a run");
    assert_eq!(a.port, 9001, "the environment seeds the port");
    assert!(matches!(a.data_dir, PathSource::FromEnv));
    assert_eq!(a.workers, DEFAULT_WORKERS, "and the default fills the rest");
    let a = parse_args(&argv(&["--port", "7"]), &env).expect("valid").expect("a run");
    assert_eq!(a.port, 7, "a flag wins over the environment");
    env.port = EnvValue::Text("seventy".to_string());
    assert!(parse_args(&argv(&[]), &env).is_err(), "a bad environment value is refused");
    assert!(parse_args(&argv(&[]), &quiet_env()).is_err(), "no data dir anywhere is refused");
}

#[test]
fn the_usage_names_the_defaults() {
    let u = usage();
    assert!(u.contains("default 8642;"), "{u}");
    assert!(u.contains(&format!("default {DEFAULT_WORKERS}")), "{u}");
}

#[test]
fn the_start_up_line_names_the_node_prefix_or_its_absence() {
    let cfg = AuthConfig::new(AuthOptions::default_options());
    assert!(cfg.node_prefix().is_none());
    assert!(cfg.node_prefix_line().starts_with("no --node-prefix: the off-board test is off"));
    let mut opts = AuthOptions::default_options();
    opts.node_prefix = Some(NodePrefix::parse("1.3").ok().expect("a node prefix"));
    let cfg = AuthConfig::new(opts);
    assert_eq!(cfg.node_prefix().map(|p| p.as_str()), Some("1.3"));
    assert!(cfg.node_prefix_line().starts_with("node prefix 1.3 (--node-prefix): egress"));
}

#[test]
fn a_scoped_body_signs_the_v2_layout_and_an_unscoped_one_the_v1() {
    let origin = Origin::parse("http://127.0.0.1:8642").expect("canonical");
    let nonce = "ab".repeat(32);
    let field = |bytes: &[u8]| {
        let len = u32::try_from(bytes.len()).expect("a field fits be32");
        [&len.to_be_bytes()[..], bytes].concat()
    };
    let body = [field(origin.as_str().as_bytes()), field(nonce.as_bytes()), field(b"42")].concat();

    let v1 = [&b"skep-session-v1"[..], &body].concat();
    assert_eq!(session_payload(&origin, &nonce, 42, Scope::Full), v1);
    let v2 = [&b"skep-session-v2"[..], &body, &field(b"content")].concat();
    assert_eq!(session_payload(&origin, &nonce, 42, Scope::Content), v2);
    assert!(!v2.starts_with(&v1) && !v1.starts_with(&v2));
}

#[test]
fn obj_is_order_insensitive() {
    let a = obj(vec![("b", Scalar::Number(2)), ("a", Scalar::Number(1))]);
    let b = obj(vec![("a", Scalar::Number(1)), ("b", Scalar::Number(2))]);
    assert_eq!(a.to_bytes(), b.to_bytes());
}

#[test]
fn obj_keeps_the_last_of_duplicate_keys() {
    let v = obj(vec![("k", Scalar::Number(1)), ("a", Scalar::Number(9)), ("k", Scalar::Number(2))]);
    assert!(matches!(v.get("k"), Some(Scalar::Number(2))), "the last pair given wins");
    assert!(v.get("z").is_none());
    assert_eq!(v.to_bytes(), br#"{"a":9,"k":2}"#.to_vec(), "and the keys still sort");
}

#[test]
fn a_refusal_echo_is_bounded_on_a_character_boundary() {
    let long = "é".repeat(4096);
    let e = bounded(&long);
    assert!(e.len() < 300, "bounded, not a copy: {}", e.len());
    assert!(e.starts_with(&"é".repeat(MAX_ECHO_CHARS)));
    assert!(e.ends_with(&format!("… ({} bytes)", long.len())), "{e}");
    assert_eq!(bounded("1.a"), "1.a", "a short value is shown whole");
    assert_eq!(bounded(&"x".repeat(MAX_ECHO_CHARS)), "x".repeat(MAX_ECHO_CHARS));
}

#[test]
fn the_session_body_takes_three_forms_and_scope_is_strict() {
    let signed = |scope: &str| {
        format!(
            "{{\"principal\":7,\"nonce\":\"{}\",\"origin\":\"http://127.0.0.1:8642\"{scope},\"sig\":\"{}\"}}",
            "ab".repeat(32),
            "cd".repeat(64)
        )
    };
    assert!(matches!(parse_session_body(b"{\"principal\":7}"), Ok(SessionBody::Bare { principal: 7 })));
    assert!(matches!(
        parse_session_body(signed("").as_bytes()),
        Ok(SessionBody::Signed { scope: Scope::Full, .. })
    ));
    assert!(matches!(
        parse_session_body(signed(",\"scope\":\"content\"").as_bytes()),
        Ok(SessionBody::Signed { scope: Scope::Content, .. })
    ));
    for bad in [
        "\"full\"",
        "\"Content\"",
        "\"CONTENT\"",
        "\"content \"",
        "\"\"",
        "null",
        "true",
        "1",
        "[\"content\"]",
        "{\"content\":true}",
    ] {
        assert!(
            parse_session_body(signed(&format!(",\"scope\":{bad}")).as_bytes()).is_err(),
            "scope {bad} is a syntax fault"
        );
    }
    for bare in ["{\"principal\":7,\"scope\":\"content\"}", "{\"principal\":7,\"scope\":null}"] {
        assert!(parse_session_body(bare.as_bytes()).is_err(), "{bare}");
    }
    assert!(parse_session_body(
        format!("{{\"principal\":7,\"nonce\":\"{}\",\"scope\":\"content\"}}", "ab".repeat(32)).as_bytes()
    )
    .is_err());
}

fn refusal(body: &str) -> String {
    match parse_session_body(body.as_bytes()) {
        Err(e) => e,
        Ok(_) => panic!("{body} parsed"),
    }
}

#[test]
fn each_session_body_refusal_names_its_fault() {
    assert!(refusal("nonsense").starts_with("invalid JSON: "));
    assert_eq!(refusal("[1]"), "session request must be a JSON object");
    assert_eq!(refusal("{\"principal\":-1}"), "missing or non-integer field 'principal'");
    assert_eq!(refusal("{\"principal\":7,\"zeta\":1,\"alpha\":2}"), "unknown field 'alpha'", "the map's first key");
    assert_eq!(
        refusal("{\"principal\":7,\"nonce\":\"x\"}"),
        "a signed session body carries nonce, origin and sig together"
    );
    let body = |origin: &str, nonce: &str, sig: &str| {
        format!("{{\"principal\":7,\"nonce\":{nonce},\"origin\":{origin},\"sig\":{sig}}}")
    };
    let quoted = |t: &str| format!("\"{t}\"");
    let (o, n, s) = (quoted("http://127.0.0.1:8642"), quoted(&"ab".repeat(32)), quoted(&"cd".repeat(64)));
    assert_eq!(refusal(&body("1", &n, &s)), "field 'origin' must be a string");
    assert_eq!(refusal(&body(&quoted("HTTP://x"), &n, &s)), "field 'origin' is not a canonical origin");
    assert_eq!(refusal(&body(&o, &quoted(&"AB".repeat(32)), &s)), "field 'nonce' is not 64 lowercase hex");
    assert_eq!(refusal(&body(&o, &n, &quoted("cd"))), "field 'sig' is not 128 hex characters decoding to 64 bytes");
    match parse_session_body(body(&o, &n, &s).as_bytes()) {
        Ok(SessionBody::Signed { principal, nonce, origin, scope, sig }) => {
            assert_eq!(principal, 7);
            assert_eq!(nonce.to_hex(), "ab".repeat(32));
            assert_eq!(origin.as_str(), "http://127.0.0.1:8642");
            assert_eq!(scope, Scope::Full);
            assert_eq!(sig, [0xcd; 64]);
        },
        _ => panic!("a well-formed signed body"),
    }
}
