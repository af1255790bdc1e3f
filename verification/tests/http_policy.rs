use poe_wayfinder_app::http_policy::{
    host_of, scheme_of, user_agent_or_default, HttpResponse, NetworkPolicy, PolicyError,
    DEFAULT_USER_AGENT, MAX_REDIRECTS,
};

fn default_policy() -> NetworkPolicy {
    NetworkPolicy::new(true, true, "www.pathofexile.com")
}

#[test]
fn allows_the_one_listed_host() {
    let p = default_policy();

    assert_eq!(
        p.check("https://www.pathofexile.com/api/trade2/data/stats"),
        Ok(())
    );
}

#[test]
fn refuses_the_private_fork_server() {
    let p = default_policy();

    assert_eq!(
        p.check("https://api.trade-fork.dev/stats"),
        Err(PolicyError::HostNotAllowed {
            host: "api.trade-fork.dev".into()
        })
    );
}

#[test]
fn refuses_regional_domains() {
    let p = default_policy();

    for url in [
        "https://ru.pathofexile.com/api/trade/search",
        "https://poe.game.daum.net/api/trade/search",
        "https://pathofexile.tw/api/trade/search",
        "https://web.poe.garena.tw/api/trade/search",
    ] {
        assert!(p.check(url).is_err(), "{url} was allowed");
    }
}

#[test]
fn a_subdomain_of_an_allowed_host_is_not_allowed() {
    let p = default_policy();

    assert!(p
        .check("https://evil.www.pathofexile.com.attacker.test/")
        .is_err());
}

#[test]
fn userinfo_cannot_disguise_the_real_host() {
    let p = default_policy();

    assert_eq!(
        p.check("https://www.pathofexile.com@attacker.test/api"),
        Err(PolicyError::HostNotAllowed {
            host: "attacker.test".into()
        })
    );
}

#[test]
fn host_matching_ignores_case_and_port() {
    let p = default_policy();

    assert_eq!(p.check("HTTPS://WWW.PathOfExile.COM:443/api"), Ok(()));
}

#[test]
fn the_master_switch_beats_the_allowlist() {
    let p = NetworkPolicy::new(false, true, "www.pathofexile.com");

    assert_eq!(
        p.check("https://www.pathofexile.com/api"),
        Err(PolicyError::NetworkDisabled)
    );
}

#[test]
fn the_master_switch_beats_an_open_allowlist() {
    let p = NetworkPolicy::new(false, false, "");

    assert_eq!(
        p.check("https://anything.test/"),
        Err(PolicyError::NetworkDisabled)
    );
}

#[test]
fn unblocking_unlisted_hosts_allows_anything_http() {
    let p = NetworkPolicy::new(true, false, "www.pathofexile.com");

    assert_eq!(p.check("https://anything.test/"), Ok(()));
}

#[test]
fn non_http_schemes_are_refused_even_with_an_open_allowlist() {
    let p = NetworkPolicy::new(true, false, "");

    for url in [
        "file:///etc/passwd",
        "ftp://host.test/x",
        "ws://host.test/x",
    ] {
        assert!(
            matches!(p.check(url), Err(PolicyError::BadScheme { .. })),
            "{url} was allowed"
        );
    }
}

#[test]
fn a_url_with_no_host_is_refused() {
    let p = NetworkPolicy::new(true, false, "");

    for url in ["not a url", "https://", "https://:443/x", "://host.test"] {
        assert!(
            matches!(p.check(url), Err(PolicyError::NoHost { .. })),
            "{url} was allowed"
        );
    }
}

#[test]
fn an_unterminated_ipv6_literal_is_refused() {
    let p = NetworkPolicy::new(true, false, "");

    assert!(matches!(
        p.check("https://[::1/x"),
        Err(PolicyError::NoHost { .. })
    ));
}

#[test]
fn an_ipv6_literal_keeps_its_address() {
    let p = NetworkPolicy::new(true, true, "::1");

    assert_eq!(p.check("http://[::1]:8080/x"), Ok(()));
}

#[test]
fn blank_and_padded_allowlist_entries_are_dropped() {
    let p = NetworkPolicy::new(true, true, " www.pathofexile.com , ,, ");

    assert_eq!(p.allowed_hosts(), vec!["www.pathofexile.com"]);
    assert_eq!(p.check("https://www.pathofexile.com/x"), Ok(()));
}

#[test]
fn an_empty_allowlist_refuses_everything() {
    let p = NetworkPolicy::new(true, true, "");

    assert!(p.check("https://www.pathofexile.com/x").is_err());
}

#[test]
fn the_query_and_fragment_are_not_part_of_the_host() {
    let p = default_policy();

    assert_eq!(p.check("https://www.pathofexile.com?x=1"), Ok(()));
    assert_eq!(p.check("https://www.pathofexile.com#frag"), Ok(()));
}

#[test]
fn header_lookup_ignores_case() {
    let r = HttpResponse {
        status: 200,
        headers: vec![("X-Rate-Limit-Rules".into(), "Ip".into())],
        body: String::new(),
    };

    assert_eq!(r.header("x-rate-limit-rules"), Some("Ip"));
    assert_eq!(r.header("x-missing"), None);
}

#[test]
fn the_default_user_agent_names_the_tool_and_its_version() {
    assert!(DEFAULT_USER_AGENT.starts_with("poe-trader/"));
    assert!(DEFAULT_USER_AGENT.len() > "poe-trader/".len());
}

#[test]
fn a_redirect_target_is_judged_by_the_same_rules_as_a_first_request() {
    let p = default_policy();

    assert!(p
        .check("https://www.pathofexile.com/api/trade2/search")
        .is_ok());
    assert!(p.check("https://attacker.test/steal").is_err());
    assert!(p.check("http://169.254.169.254/latest/meta-data/").is_err());
    assert!(p.check("file:///etc/passwd").is_err());
}

#[test]
fn the_allowlist_comes_back_sorted_and_without_repeats() {
    let p = NetworkPolicy::new(true, true, "b.test, A.test,b.test,,c.TEST ");

    assert_eq!(p.allowed_hosts(), vec!["a.test", "b.test", "c.test"]);
}

#[test]
fn a_copied_policy_answers_the_same() {
    let p = default_policy();
    let q = p.duplicate();

    assert_eq!(q.allowed_hosts(), p.allowed_hosts());
    assert_eq!(
        q.check("https://attacker.test/x"),
        p.check("https://attacker.test/x")
    );
}

#[test]
fn the_scheme_and_host_are_read_lowercased() {
    assert_eq!(scheme_of("HTTPS://Host.Test/x").unwrap(), "https");
    assert_eq!(host_of("https://user@Host.Test:8080/x").unwrap(), "host.test");
    assert!(matches!(host_of("no scheme"), Err(PolicyError::NoHost { .. })));
}

#[test]
fn the_first_of_two_headers_with_one_name_wins() {
    let r = HttpResponse {
        status: 200,
        headers: vec![
            ("Retry-After".into(), "5".into()),
            ("retry-after".into(), "9".into()),
        ],
        body: String::new(),
    };

    assert_eq!(r.header("RETRY-AFTER"), Some("5"));
}

#[test]
fn a_redirect_is_followed_only_to_an_allowed_host_and_not_forever() {

    let policy = NetworkPolicy::new(true, true, "www.pathofexile.com");

    assert!(policy.follows_redirect("https://www.pathofexile.com/trade2", 0));
    assert!(!policy.follows_redirect("https://evil.example.com/", 0));
    assert!(policy.follows_redirect("https://www.pathofexile.com/trade2", MAX_REDIRECTS - 1));
    assert!(!policy.follows_redirect("https://www.pathofexile.com/trade2", MAX_REDIRECTS));
}

#[test]
fn a_blank_user_agent_falls_back_to_the_app_s_own() {

    assert_eq!(user_agent_or_default("  "), DEFAULT_USER_AGENT);
    assert_eq!(user_agent_or_default("my-agent/1"), "my-agent/1");
}

#[test]
fn every_policy_refusal_reads_as_a_sentence_naming_what_was_refused() {
    assert_eq!(PolicyError::NetworkDisabled.message(), "network is disabled");
    assert_eq!(
        PolicyError::HostNotAllowed {
            host: "evil.example".to_string()
        }
        .message(),
        "host \"evil.example\" is not allowed"
    );
    assert_eq!(
        PolicyError::NoHost {
            url: "https://".to_string()
        }
        .message(),
        "url \"https://\" has no host"
    );
    assert_eq!(
        PolicyError::BadScheme {
            url: "ftp://www.pathofexile.com/x".to_string(),
            scheme: "ftp".to_string()
        }
        .message(),
        "url \"ftp://www.pathofexile.com/x\" uses scheme \"ftp\""
    );
}
