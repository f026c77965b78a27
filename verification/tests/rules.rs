use simple_forwarder::config::{Config, ListenConfig, LogConfig, LogType, Rule, YamlParseError};
use simple_forwarder::matcher::RuleMatcher;
use simple_forwarder::proxy_client::ProxyConfig;
use simple_forwarder::rules::{
    choose_route, find_rule, parse_rules, reload, ReloadEvent, ReloadReport, Route,
};

fn config(rules: &[(&[&str], &str)]) -> Config {
    Config {
        log: LogConfig {
            log_type: LogType::Off,
            file: None,
            level: "warn".to_string(),
            flush_interval_secs: 5,
            flush_count: 100,
        },
        listen: ListenConfig { addr: "127.0.0.1".to_string(), port: 1080 },
        rules: rules
            .iter()
            .map(|(patterns, url)| Rule {
                match_patterns: patterns.iter().map(|p| p.to_string()).collect(),
                forward_to: url.to_string(),
            })
            .collect(),
    }
}

fn sample() -> Vec<(RuleMatcher, ProxyConfig)> {
    parse_rules(&config(&[
        (&["*.google.com"], "socks5://1.1.1.1:1"),
        (&["*.com", "10.0.0.0/8"], "http://2.2.2.2:2"),
        (&["*"], "socks5h://3.3.3.3:3"),
    ]))
    .unwrap()
}

#[test]
fn the_first_matching_rule_is_used() {
    let rules = sample();
    assert_eq!(find_rule(&rules, "www.google.com", None), Some(0));
    assert_eq!(find_rule(&rules, "example.com", None), Some(1));
    assert_eq!(find_rule(&rules, "x", Some("10.1.1.1".parse().unwrap())), Some(1));
    assert_eq!(find_rule(&rules, "example.org", None), Some(2));
    assert_eq!(find_rule(&sample_two(), "example.org", None), None);
}

#[test]
fn routes_follow_the_rules() {
    let rules = sample();
    match choose_route(&rules, "www.google.com", None) {
        Route::Via(p) => assert_eq!(p.addr, "1.1.1.1:1"),
        Route::Direct => panic!(),
    }
    assert_eq!(choose_route(&rules, "a.com", None).text(), "http://2.2.2.2:2");
    assert_eq!(choose_route(&rules, "a.b", None).text(), "socks5h://3.3.3.3:3");
    assert!(matches!(choose_route(&Vec::new(), "a.com", None), Route::Direct));
    assert_eq!(choose_route(&Vec::new(), "a.com", None).text(), "direct");
}

#[test]
fn rules_keep_their_order() {
    let rules = sample();
    let addrs: Vec<&str> = rules.iter().map(|r| r.1.addr.as_str()).collect();
    assert_eq!(addrs, ["1.1.1.1:1", "2.2.2.2:2", "3.3.3.3:3"]);
    assert!(parse_rules(&config(&[])).unwrap().is_empty());
}

#[test]
fn the_first_bad_url_is_reported() {
    let bad = config(&[
        (&["a"], "http://1.1.1.1:1"),
        (&["b"], "gopher://x:1"),
        (&["c"], "http://nope"),
    ]);
    match parse_rules(&bad) {
        Err(e) => assert_eq!(e.message(), "Unsupported proxy URL: gopher://x:1"),
        Ok(_) => panic!(),
    }
}

#[test]
fn reloading_replaces_good_rules_only() {
    let mut rules = sample();
    let report = reload(
        &mut rules,
        ReloadEvent::Loaded(config(&[(&["z"], "http://nope")])),
    );
    match report {
        ReloadReport::BadRule(e) => {
            assert_eq!(e.message(), "Proxy address must include a port: nope")
        }
        other => panic!("{:?}", other),
    }
    assert_eq!(rules.len(), 3);
    let parse_error = YamlParseError::located("c".to_string(), Some((1, 2)), "m".to_string());
    match reload(&mut rules, ReloadEvent::ParseFailed(parse_error)) {
        ReloadReport::BadFile(e) => assert_eq!((e.line, e.column), (Some(1), Some(2))),
        other => panic!("{:?}", other),
    }
    match reload(&mut rules, ReloadEvent::ReadFailed("gone".to_string())) {
        ReloadReport::Unreadable(reason) => assert_eq!(reason, "gone"),
        other => panic!("{:?}", other),
    }
    assert!(matches!(reload(&mut rules, ReloadEvent::TimedOut), ReloadReport::TimedOut));
    assert_eq!(rules.len(), 3);
    assert_eq!(find_rule(&rules, "www.google.com", None), Some(0));
    let report = reload(
        &mut rules,
        ReloadEvent::Loaded(config(&[(&["z"], "http://z:1")])),
    );
    assert!(matches!(report, ReloadReport::Reloaded));
    assert_eq!(rules.len(), 1);
    assert_eq!(find_rule(&rules, "z", None), Some(0));
    assert_eq!(find_rule(&rules, "www.google.com", None), None);
}

fn sample_two() -> Vec<(RuleMatcher, ProxyConfig)> {
    let mut rules = sample();
    rules.pop();
    rules
}
