use simple_forwarder::matcher::{classify_pattern, Pattern, RuleMatcher};
use simple_forwarder::net::{Cidr, IpAddr};

#[test]
fn test_domain_wildcard() {
    let matcher = RuleMatcher::new(vec![
        "*.google.com".to_string(),
    ]);

    assert!(matcher.matches("www.google.com", None));
    assert!(matcher.matches("mail.google.com", None));
    assert!(!matcher.matches("google.com", None));
    assert!(!matcher.matches("example.com", None));
}

#[test]
fn test_ip_match() {
    let ip = "192.168.1.1".parse().unwrap();
    let matcher = RuleMatcher::new(vec![
        "192.168.1.1".to_string(),
    ]);

    assert!(matcher.matches("example.com", Some(ip)));
    assert!(!matcher.matches("example.com", Some("192.168.1.2".parse().unwrap())));
}

#[test]
fn test_cidr_match() {
    let matcher = RuleMatcher::new(vec![
        "192.168.1.0/24".to_string(),
    ]);

    assert!(matcher.matches("example.com", Some("192.168.1.1".parse().unwrap())));
    assert!(matcher.matches("example.com", Some("192.168.1.255".parse().unwrap())));
    assert!(!matcher.matches("example.com", Some("192.168.2.1".parse().unwrap())));
}

#[test]
fn test_ipv6_cidr() {
    let matcher = RuleMatcher::new(vec![
        "2001:db8::/32".to_string(),
    ]);

    assert!(matcher.matches("example.com", Some("2001:db8::1".parse().unwrap())));
    assert!(!matcher.matches("example.com", Some("2001:db9::1".parse().unwrap())));
}

#[test]
fn test_mixed_patterns() {
    let matcher = RuleMatcher::new(vec![
        "*.google.com".to_string(),
        "192.168.1.0/24".to_string(),
        "10.0.0.1".to_string(),
    ]);

    assert!(matcher.matches("www.google.com", None));
    assert!(matcher.matches("example.com", Some("192.168.1.1".parse().unwrap())));
    assert!(matcher.matches("example.com", Some("10.0.0.1".parse().unwrap())));
    assert!(!matcher.matches("example.com", Some("10.0.0.2".parse().unwrap())));
}

fn one(pattern: &str) -> RuleMatcher {
    RuleMatcher::new(vec![pattern.to_string()])
}

#[test]
fn wildcards_match_as_stated() {
    assert!(one("example.com").matches("example.com", None));
    assert!(!one("example.com").matches("Example.com", None));
    assert!(!one("example.com").matches("example.comx", None));
    assert!(one("*").matches("", None));
    assert!(one("*").matches("anything", None));
    assert!(one("a?c").matches("abc", None));
    assert!(!one("a?c").matches("ac", None));
    assert!(!one("a?c").matches("abbc", None));
    assert!(one("a*c").matches("ac", None));
    assert!(one("a*c").matches("abcbc", None));
    assert!(!one("a*c").matches("abcb", None));
    assert!(one("*a*b*").matches("xxaxxbxx", None));
    assert!(!one("*a*b*").matches("xxbxxaxx", None));
    assert!(one("**").matches("", None));
    assert!(one("").matches("", None));
    assert!(!one("").matches("a", None));
    assert!(one("?*").matches("a", None));
    assert!(!one("?*").matches("", None));
}

#[test]
fn wildcards_agree_with_their_definition() {
    fn defined(p: &[char], t: &[char]) -> bool {
        if p.is_empty() {
            t.is_empty()
        } else if p[0] == '*' {
            defined(&p[1..], t) || (!t.is_empty() && defined(p, &t[1..]))
        } else {
            !t.is_empty() && (p[0] == '?' || p[0] == t[0]) && defined(&p[1..], &t[1..])
        }
    }
    fn words(letters: &[char], len: usize) -> Vec<String> {
        let mut all = vec![String::new()];
        let mut last = all.clone();
        for _ in 0..len {
            let mut next = Vec::new();
            for w in &last {
                for c in letters {
                    let mut longer = w.clone();
                    longer.push(*c);
                    next.push(longer);
                }
            }
            all.extend(next.iter().cloned());
            last = next;
        }
        all
    }
    let patterns = words(&['a', 'b', '*', '?'], 4);
    let texts = words(&['a', 'b'], 4);
    for p in &patterns {
        let m = one(p);
        let pc: Vec<char> = p.chars().collect();
        for t in &texts {
            let tc: Vec<char> = t.chars().collect();
            assert_eq!(m.matches(t, None), defined(&pc, &tc), "{} on {}", p, t);
        }
    }
}

#[test]
fn plain_and_star_patterns() {
    for text in ["", "a", "google.com", "x.google.com", "xgoogle.com"] {
        assert_eq!(one("google.com").matches(text, None), text == "google.com");
        assert_eq!(one("*.google.com").matches(text, None), text.ends_with(".google.com"));
    }
}

#[test]
fn bad_ranges_are_passed_over() {
    let m = RuleMatcher::new(vec!["10.0.0.0/33".to_string(), "a/b".to_string()]);
    assert!(!m.matches("a/b", Some("10.0.0.1".parse().unwrap())));
    let m = RuleMatcher::new(vec!["10.0.0.0/33".to_string(), "10.0.0.0/8".to_string()]);
    assert!(m.matches("x", Some("10.9.9.9".parse().unwrap())));
    assert!(!RuleMatcher::new(vec![]).matches("x", None));
}

#[test]
fn patterns_are_independent() {
    let a = one("*.a.com");
    let b = one("10.0.0.0/8");
    let both = RuleMatcher::new(vec!["*.a.com".to_string(), "10.0.0.0/8".to_string()]);
    let ten: IpAddr = "10.1.2.3".parse().unwrap();
    let other: IpAddr = "11.1.2.3".parse().unwrap();
    for host in ["x.a.com", "b.com"] {
        for ip in [None, Some(ten), Some(other)] {
            assert_eq!(
                both.matches(host, ip),
                a.matches(host, ip) || b.matches(host, ip)
            );
        }
    }
}

#[test]
fn without_an_address_only_domains_match() {
    assert!(!one("10.0.0.1").matches("10.0.0.1", None));
    assert!(!one("10.0.0.0/8").matches("10.0.0.1", None));
    assert!(one("10.0.0.*").matches("10.0.0.1", None));
}

#[test]
fn prefix_lengths() {
    let ip: IpAddr = "10.1.2.3".parse().unwrap();
    let near: IpAddr = "10.1.2.2".parse().unwrap();
    let six: IpAddr = "::1".parse().unwrap();
    assert!(one("10.1.2.3/32").matches("h", Some(ip)));
    assert!(!one("10.1.2.3/32").matches("h", Some(near)));
    assert!(one("1.1.1.1/0").matches("h", Some(ip)));
    assert!(!one("1.1.1.1/0").matches("h", Some(six)));
    assert!(one("::/0").matches("h", Some(six)));
    assert!(!one("::/0").matches("h", Some(ip)));
    assert!(one("::1/128").matches("h", Some(six)));
    assert!(!one("::2/128").matches("h", Some(six)));
    for n in 0..32 {
        let long = one(&format!("10.1.2.3/{}", n + 1));
        let short = one(&format!("10.1.2.3/{}", n));
        for other in [ip, near, "10.1.2.131".parse().unwrap(), "138.1.2.3".parse().unwrap()] {
            assert!(!long.matches("h", Some(other)) || short.matches("h", Some(other)));
        }
    }
}

#[test]
fn ranges_with_host_bits() {
    // The bits behind the prefix do not count.
    assert!(one("192.168.1.77/24").matches("h", Some("192.168.1.1".parse().unwrap())));
    assert!(one("128.0.0.0/1").matches("h", Some("255.0.0.1".parse().unwrap())));
    assert!(!one("128.0.0.0/1").matches("h", Some("127.0.0.1".parse().unwrap())));
    assert!(one("10.0.0.4/30").matches("h", Some("10.0.0.7".parse().unwrap())));
    assert!(!one("10.0.0.4/30").matches("h", Some("10.0.0.8".parse().unwrap())));
}

#[test]
fn patterns_are_classified() {
    let ip = IpAddr::V4([1, 2, 3, 4]);
    let net = Cidr { addr: ip, prefix_len: 8 };
    assert!(matches!(
        classify_pattern("1.2.3.4/8".to_string(), Some(net), None),
        Some(Pattern::Cidr(_))
    ));
    assert!(classify_pattern("1.2.3.4/x".to_string(), None, None).is_none());
    assert!(matches!(
        classify_pattern("1.2.3.4".to_string(), None, Some(ip)),
        Some(Pattern::Ip(_))
    ));
    assert!(matches!(
        classify_pattern("host".to_string(), None, None),
        Some(Pattern::Domain(_))
    ));
}

#[test]
fn clones_match_alike() {
    let m = RuleMatcher::new(vec!["*.a".to_string(), "10.0.0.0/8".to_string()]);
    let c = m.clone();
    assert!(c.matches("x.a", None));
    assert!(c.matches("y", Some("10.0.0.1".parse().unwrap())));
    assert!(!c.matches("y", None));
}

#[test]
fn addresses_read_and_write() {
    let v4: IpAddr = "192.168.1.20".parse().unwrap();
    assert_eq!(v4, IpAddr::V4([192, 168, 1, 20]));
    assert_eq!(v4.text(), "192.168.1.20");
    let v6: IpAddr = "2001:db8::1".parse().unwrap();
    assert_eq!(v6.text(), "2001:db8::1");
    assert!(v6.same(&IpAddr::parse("2001:0db8:0:0:0:0:0:1").unwrap()));
    assert!(!v6.same(&v4));
    assert!(IpAddr::parse("1.2.3").is_none());
    assert!(IpAddr::parse("01.2.3.4").is_none());
    assert!(IpAddr::parse("").is_none());
    assert!("example.com".parse::<IpAddr>().is_err());
}
