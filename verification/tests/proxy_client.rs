use simple_forwarder::proxy_client::{
    get_socks5_error, host_port, http_connect_request, judge_status, ClientError, ClientStep,
    ConnectAction, ConnectEvent, Handshake, HttpConnect, ProxyClient, ProxyConfig, ProxyType,
    Socks5Client, HTTP_RESPONSE_MAX_LEN,
};

fn config(url: &str) -> ProxyConfig {
    ProxyConfig::from_url(url).unwrap()
}

#[test]
fn urls_are_read() {
    let c = config("socks5://1.2.3.4:1080");
    assert!(c.proxy_type == ProxyType::Socks5);
    assert_eq!(c.addr, "1.2.3.4:1080");
    assert!(config("socks5h://h:1").proxy_type == ProxyType::Socks5h);
    assert!(config("http://h:1").proxy_type == ProxyType::Http);
    assert_eq!(config(" `\"http://h:1\"` ").addr, "h:1");
    assert_eq!(
        ProxyConfig::from_url("ftp://h:1").unwrap_err().message(),
        "Unsupported proxy URL: ftp://h:1"
    );
    assert_eq!(
        ProxyConfig::from_url("http://h").unwrap_err().message(),
        "Proxy address must include a port: h"
    );
}

#[test]
fn urls_come_back() {
    for url in ["socks5://1.2.3.4:1080", "socks5h://h:1", "http://[::1]:8080"] {
        assert_eq!(config(url).url(), url);
        assert_eq!(config(&config(url).url()).addr, config(url).addr);
    }
}

#[test]
fn connect_requests() {
    assert_eq!(host_port("h", 443), "h:443");
    assert_eq!(
        http_connect_request("h", 443),
        "CONNECT h:443 HTTP/1.1\r\nHost: h:443\r\n\r\n"
    );
}

#[test]
fn statuses_are_judged() {
    assert!(judge_status("HTTP/1.1 200 OK\r\n\r\n").is_ok());
    assert!(judge_status("HTTP/1.0 200\r\n").is_ok());
    match judge_status("HTTP/1.1 407 Proxy Authentication Required\r\nX: 200\r\n\r\n") {
        Err(ClientError::ConnectRejected(line)) => {
            assert_eq!(line, "HTTP/1.1 407 Proxy Authentication Required")
        }
        other => panic!("{:?}", other),
    }
}

#[test]
fn http_answers_end_at_an_empty_line_or_the_limit() {
    let mut c = HttpConnect::new();
    let answer = b"HTTP/1.1 200 OK\r\nA: b\r\n\r\n";
    for b in &answer[..answer.len() - 1] {
        assert!(matches!(c.step(*b), ClientStep::Read));
    }
    assert!(matches!(c.step(b'\n'), ClientStep::Done));
    let mut c = HttpConnect::new();
    for _ in 0..HTTP_RESPONSE_MAX_LEN {
        assert!(matches!(c.step(b'x'), ClientStep::Read));
    }
    match c.step(b'x') {
        ClientStep::Fail(e) => assert!(matches!(e, ClientError::ResponseTooLong)),
        other => panic!("{:?}", other),
    }
}

fn fail(client: &mut Socks5Client, inputs: &[&[u8]]) -> ClientError<String> {
    for input in inputs {
        assert_eq!(client.wanted(), input.len());
        if let ClientStep::Fail(e) = client.step(input) {
            return e;
        }
    }
    panic!("no failure")
}

#[test]
fn socks5_client_failures() {
    let start = || Socks5Client::start("1.2.3.4", 80, false).0;
    assert!(matches!(fail(&mut start(), &[&[4, 0]]), ClientError::InvalidVersion(4)));
    assert!(matches!(fail(&mut start(), &[&[5, 2]]), ClientError::AuthenticationFailed));
    assert!(matches!(
        fail(&mut start(), &[&[5, 0], &[4, 0, 0, 1]]),
        ClientError::InvalidReplyVersion
    ));
    assert!(matches!(fail(&mut start(), &[&[5, 0], &[5, 1, 0, 1]]), ClientError::Refused(1)));
    assert!(matches!(
        fail(&mut start(), &[&[5, 0], &[5, 0, 0, 2]]),
        ClientError::InvalidAddressType(2)
    ));
    let mut named = Socks5Client::start("host", 80, false).0;
    assert!(matches!(fail(&mut named, &[&[5, 0]]), ClientError::NeedsAddress(_)));
}

#[test]
fn socks5_client_skips_the_bound_address() {
    let (mut c, _) = Socks5Client::start("h", 80, true);
    assert!(matches!(c.step(&[5, 0]), ClientStep::Send(_)));
    assert!(matches!(c.step(&[5, 0, 0, 3]), ClientStep::Read));
    assert_eq!(c.wanted(), 1);
    assert!(matches!(c.step(&[4]), ClientStep::Read));
    assert_eq!(c.wanted(), 6);
    assert!(matches!(c.step(&[0; 6]), ClientStep::Done));
    let (mut c, _) = Socks5Client::start("h", 80, true);
    c.step(&[5, 0]);
    c.step(&[5, 0, 0, 4]);
    assert_eq!(c.wanted(), 18);
}

#[test]
fn reply_codes_have_meanings() {
    let meanings = [
        "succeeded",
        "general SOCKS server failure",
        "connection not allowed by ruleset",
        "Network unreachable",
        "Host unreachable",
        "Connection refused",
        "TTL expired",
        "Command not supported",
        "Address type not supported",
        "unknown error",
    ];
    for (code, meaning) in meanings.iter().enumerate() {
        assert_eq!(get_socks5_error(code as u8), *meaning);
    }
    assert_eq!(get_socks5_error(255), "unknown error");
}

#[test]
fn error_messages() {
    let text = |e: ClientError<String>| e.message();
    assert_eq!(text(ClientError::ConnectTimeout("a".to_string())), "Proxy connection timed out: a");
    assert_eq!(text(ClientError::ConnectFailed("a".to_string())), "Failed to connect to proxy a");
    assert_eq!(text(ClientError::HandshakeTimeout), "Handshake with proxy timed out");
    assert_eq!(text(ClientError::InvalidVersion(4)), "Invalid SOCKS5 version: 4");
}

#[test]
fn connecting_takes_its_course() {
    let accepted = |url: &str, resolve: bool| {
        ProxyClient::new(config(url)).connect("h", 80, resolve, ConnectEvent::Accepted)
    };
    match accepted("socks5://p:1", true) {
        ConnectAction::Lookup(what) => assert_eq!(what, "h:80"),
        _ => panic!(),
    }
    match accepted("socks5h://p:1", true) {
        ConnectAction::Shake(Handshake::Socks5 { remote_dns: true }, host) => assert_eq!(host, "h"),
        _ => panic!(),
    }
    match accepted("http://p:1", false) {
        ConnectAction::Shake(Handshake::Http, host) => assert_eq!(host, "h"),
        _ => panic!(),
    }
    let client = ProxyClient::new(config("socks5://p:1"));
    assert_eq!(client.addr(), "p:1");
    let step = |event| client.connect("h", 80, true, event);
    match step(ConnectEvent::LookedUp(Some("9.9.9.9".to_string()))) {
        ConnectAction::Shake(Handshake::Socks5 { remote_dns: false }, host) => {
            assert_eq!(host, "9.9.9.9")
        }
        _ => panic!(),
    }
    match step(ConnectEvent::LookedUp(None)) {
        ConnectAction::Shake(_, host) => assert_eq!(host, "h"),
        _ => panic!(),
    }
    assert!(matches!(step(ConnectEvent::HandshakeEnded(Ok(()))), ConnectAction::Done));
    match step(ConnectEvent::Failed) {
        ConnectAction::Fail(e) => assert_eq!(e.message(), "Failed to connect to proxy p:1"),
        _ => panic!(),
    }
    match step(ConnectEvent::TimedOut) {
        ConnectAction::Fail(e) => assert_eq!(e.message(), "Proxy connection timed out: p:1"),
        _ => panic!(),
    }
    assert!(matches!(
        step(ConnectEvent::HandshakeTimedOut),
        ConnectAction::Fail(ClientError::HandshakeTimeout)
    ));
    assert!(matches!(
        step(ConnectEvent::HandshakeEnded(Err(ClientError::HostnameTooLong))),
        ConnectAction::Fail(ClientError::HostnameTooLong)
    ));
}
