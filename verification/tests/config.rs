use hop_endpoint::config::{
    build_endpoint, default_config, load_identity, normalize_host, normalize_origin, parse_args,
    parse_args_over, resolve_relay, startup, startup_banner, IdentitySource, NodeKind, Startup,
};

fn args_of(a: &[&str]) -> Vec<String> {
    a.iter().map(|s| s.to_string()).collect()
}

#[test]
fn parse_args_applies_the_documented_defaults_with_no_flags() {
    let c = parse_args(&Vec::new());
    assert_eq!(c.listen, "0.0.0.0:9444");
    assert!(c.origin.is_none(), "origin defaults unset (required later)");
    assert!(c.domain.is_none(), "domain defaults unset (required later)");
    assert!(c.identity_file.is_none());
    assert_eq!(c.max_resp, 8 * 1024 * 1024);
    assert!(!c.print_address);
    assert_eq!(
        c.relay.as_deref(),
        Some("wss://relay.hopme.sh/"),
        "the default relay is dialed unless overridden"
    );
    assert!(!c.relay_cli_set, "no --relay/--no-relay was given");
    assert!(c.ignored.is_empty());
}

#[test]
fn parse_args_reads_every_flag_and_ignores_unknowns() {
    let c = parse_args(&args_of(&[
        "--listen",
        "1.2.3.4:80",
        "--origin",
        "http://backend:8080/",
        "--domain",
        "Example.HopMe.sh.",
        "--identity-file",
        "/etc/hop/id.key",
        "--max-resp",
        "4096",
        "--relay",
        "wss://eu.relay/",
        "--print-address",
        "--totally-unknown-flag",
    ]));
    assert_eq!(c.listen, "1.2.3.4:80");
    assert_eq!(c.origin.as_deref(), Some("http://backend:8080/"));
    assert_eq!(c.domain.as_deref(), Some("Example.HopMe.sh."));
    assert_eq!(c.identity_file.as_deref(), Some("/etc/hop/id.key"));
    assert_eq!(c.max_resp, 4096);
    assert!(c.print_address);
    assert_eq!(c.relay.as_deref(), Some("wss://eu.relay/"));
    assert!(c.relay_cli_set, "an explicit --relay marks the CLI as set");
    assert_eq!(c.ignored, vec!["--totally-unknown-flag"]);
}

#[test]
fn parse_args_no_relay_clears_the_relay_and_marks_cli_set() {
    let c = parse_args(&args_of(&["--no-relay"]));
    assert!(c.relay.is_none(), "--no-relay clears the relay");
    assert!(
        c.relay_cli_set,
        "--no-relay marks the CLI as set (env won't override)"
    );
}

#[test]
fn parse_args_bad_max_resp_falls_back_to_the_default() {
    let c = parse_args(&args_of(&["--max-resp", "not-a-number"]));
    assert_eq!(c.max_resp, 8 * 1024 * 1024, "garbage --max-resp keeps the default");
    let c = parse_args(&args_of(&["--listen"]));
    assert_eq!(c.listen, "0.0.0.0:9444", "a dangling --listen keeps the default");
}

#[test]
fn parse_args_edges() {
    // A number that does not fit keeps what an earlier flag said.
    let c = parse_args(&args_of(&["--max-resp", "+7", "--max-resp", "4294967296"]));
    assert_eq!(c.max_resp, 7);
    // A flag without its value unsets what it names, and the relay counts as decided.
    let c = parse_args(&args_of(&["--domain", "a.b", "--domain"]));
    assert!(c.domain.is_none());
    let c = parse_args(&args_of(&["--relay"]));
    assert!(c.relay.is_none());
    assert!(c.relay_cli_set);
    // What follows a flag is its value, even where it looks like a flag.
    let c = parse_args(&args_of(&["--origin", "--no-relay"]));
    assert_eq!(c.origin.as_deref(), Some("--no-relay"));
    assert!(!c.relay_cli_set);
}

#[test]
fn the_environment_fills_the_defaults() {
    let c = parse_args_over(
        default_config(Some("8080"), Some("a.b"), Some("/id")),
        &args_of(&["--domain", "c.d"]),
    );
    assert_eq!(c.listen, "0.0.0.0:8080");
    assert_eq!(c.domain.as_deref(), Some("c.d"), "a flag wins");
    assert_eq!(c.identity_file.as_deref(), Some("/id"));
    let c = parse_args_over(default_config(Some(""), Some(""), Some("")), &Vec::new());
    assert_eq!(c.listen, "0.0.0.0:9444");
    assert!(c.domain.is_none());
    assert!(c.identity_file.is_none());
}

#[test]
fn an_unknown_argument_changes_no_setting() {
    let b = parse_args(&args_of(&["--max-resp", "5", "--no-relay"]));
    for args in [
        ["what", "--max-resp", "5", "--no-relay"],
        ["--max-resp", "5", "what", "--no-relay"],
        ["--max-resp", "5", "--no-relay", "what"],
    ] {
        let a = parse_args(&args_of(&args));
        assert_eq!(a.max_resp, b.max_resp);
        assert_eq!(a.relay, b.relay);
        assert_eq!(a.listen, b.listen);
        assert_eq!(a.ignored, vec!["what"]);
    }
}

#[test]
fn resolve_relay_precedence_cli_wins_then_env_degrade() {
    let default = || Some("wss://relay.hopme.sh/".to_string());
    assert_eq!(resolve_relay(default(), false, None, None), default());
    for v in ["1", "true", "yes"] {
        assert_eq!(
            resolve_relay(default(), false, Some(v), None),
            None,
            "HOP_NO_RELAY={v} degrades to no relay"
        );
    }
    assert_eq!(resolve_relay(default(), false, Some("0"), None), default());
    assert_eq!(
        resolve_relay(default(), false, None, Some("wss://eu.relay/")),
        Some("wss://eu.relay/".to_string())
    );
    assert_eq!(resolve_relay(default(), false, None, Some("")), default());
    assert_eq!(
        resolve_relay(default(), false, Some("1"), Some("wss://eu.relay/")),
        None,
        "degrade wins over an explicit HOP_RELAY"
    );
    assert_eq!(
        resolve_relay(Some("wss://cli/".into()), true, Some("1"), Some("wss://env/")),
        Some("wss://cli/".to_string()),
        "explicit --relay overrides even HOP_NO_RELAY"
    );
    assert_eq!(
        resolve_relay(None, true, None, Some("wss://env/")),
        None,
        "explicit --no-relay overrides HOP_RELAY"
    );
}

#[test]
fn build_endpoint_normalizes_origin_and_domain_and_builds_a_leaf_node() {
    let plan = build_endpoint("http://backend:8080/", "Example.HopMe.SH.", None);
    assert_eq!(plan.origin, "http://backend:8080", "a trailing slash is stripped");
    assert_eq!(
        plan.domain, "example.hopme.sh",
        "the domain is lowercased with the trailing dot removed"
    );
    assert_eq!(plan.name, "example.hopme.sh");
    assert_eq!(plan.kind, NodeKind::Endpoint);
    assert_eq!(plan.max_relayed, 0);
    let again = build_endpoint(&plan.origin, &plan.domain, None);
    assert_eq!((again.origin, again.domain), (plan.origin, plan.domain));
    assert_eq!(plan.cluster_secret, None);
    assert_eq!(build_endpoint("o", "d", Some("")).cluster_secret, None);
    assert_eq!(
        build_endpoint("o", "d", Some("s")).cluster_secret.as_deref(),
        Some("s")
    );
}

#[test]
fn normal_forms_are_their_own() {
    assert_eq!(normalize_origin("http://a//"), "http://a");
    assert_eq!(normalize_origin(&normalize_origin("http://a//")), "http://a");
    assert_eq!(normalize_host("A.B.."), "a.b");
    assert_eq!(normalize_host("\u{c9}.B"), "\u{c9}.b");
    assert_eq!(normalize_host(&normalize_host("A.B..")), "a.b");
}

#[test]
fn a_start_needs_an_origin_and_a_domain() {
    let c = parse_args(&args_of(&["--print-address"]));
    assert!(matches!(startup(&c), Startup::PrintAddress));
    let c = parse_args(&args_of(&["--domain", "d"]));
    assert!(matches!(startup(&c), Startup::MissingOrigin));
    let c = parse_args(&args_of(&["--origin", "o"]));
    assert!(matches!(startup(&c), Startup::MissingDomain));
    let c = parse_args(&args_of(&["--origin", "o", "--domain", "d"]));
    match startup(&c) {
        Startup::Serve { origin, domain } => {
            assert_eq!(origin, "o");
            assert_eq!(domain, "d");
        }
        _ => panic!("both are there"),
    }
}

#[test]
fn the_banner_names_what_is_served() {
    let plan = build_endpoint("http://o/", "D.", Some("s"));
    let lines = startup_banner("ADDR", &plan, "0.0.0.0:1");
    assert_eq!(
        lines,
        vec![
            "hop-endpoint: address ADDR",
            "hop-endpoint: authorized domain d  (rejects any other host)",
            "hop-endpoint: serving origin http://o",
            "hop-endpoint: HNS reach record served at https://d/.well-known/hop  (address ADDR)",
            "hop-endpoint: listening on 0.0.0.0:1 (ws = hops:// bearer, http = reverse-proxy to \
             origin + /.well-known/hop)",
            "hop-endpoint: clustering ON (HOP_CLUSTER_SECRET set); replicas dedup shared work over \
             the mesh",
        ]
    );
    let plan = build_endpoint("http://o/", "D.", None);
    assert_eq!(startup_banner("ADDR", &plan, "0.0.0.0:1").len(), 5);
}

#[test]
fn load_identity_is_stable_from_a_seed_file_and_persists_a_fresh_one() {
    for seed in [vec![7u8; 32], vec![7u8; 32], (1u8..33).collect()] {
        match load_identity(Some("/id.key"), Some(&seed)) {
            IdentitySource::Seed(s) => assert_eq!(s.to_vec(), seed, "a fixed seed file is stable"),
            _ => panic!("a file of 32 bytes holds a seed"),
        }
    }
    assert!(
        matches!(load_identity(Some("/id.key"), None), IdentitySource::FreshKept),
        "a fresh identity is persisted"
    );
    for n in [0usize, 31, 33] {
        assert!(matches!(
            load_identity(Some("/id.key"), Some(&vec![7u8; n])),
            IdentitySource::FreshKept
        ));
    }
    assert!(matches!(load_identity(None, None), IdentitySource::FreshLost));
}
