use simple_forwarder::config::SocketAddr;
use simple_forwarder::connection_tracker::{ConnStatus, ConnectionTracker, Protocol};
use simple_forwarder::http::{destination, parse_request};
use simple_forwarder::inbound::Destination;
use simple_forwarder::net::IpAddr;
use simple_forwarder::proxy_client::ProxyConfig;
use simple_forwarder::proxy_server::{
    conclude, greeting, on_accepted, on_ended, on_established, refusal, ClientRequest,
    ConnectFailure, ConnectionEnd,
};
use simple_forwarder::rules::Route;
use std::sync::atomic::Ordering;

fn http(line: &str) -> ClientRequest {
    ClientRequest::Http(parse_request(format!("{}\r\n\r\n", line).as_bytes()).unwrap())
}

fn failures() -> Vec<(ConnectFailure<String>, u8, &'static str)> {
    vec![
        (ConnectFailure::Proxy("p".to_string()), 1, "p"),
        (ConnectFailure::Refused("r".to_string()), 5, "r"),
        (ConnectFailure::Unreachable("u".to_string()), 4, "u"),
        (ConnectFailure::TimedOut, 6, "Connection timed out"),
    ]
}

#[test]
fn failures_are_answered() {
    for (failure, code, message) in failures() {
        assert_eq!(failure.message(), message);
        assert_eq!(failure.code(), code);
        assert_eq!(
            refusal(&ClientRequest::Socks5, &failure),
            [5, code, 0, 1, 0, 0, 0, 0, 0, 0]
        );
        assert_eq!(
            refusal(&ClientRequest::PlainSocks5, &failure),
            [5, 5, 0, 1, 0, 0, 0, 0, 0, 0]
        );
        for is_socks4a in [true, false] {
            assert_eq!(
                refusal(&ClientRequest::Socks4 { is_socks4a }, &failure),
                [0, 0x5B, 0, 0, 0, 0, 0, 0]
            );
        }
        assert!(refusal(&http("GET http://a/ HTTP/1.1"), &failure)
            .starts_with(b"HTTP/1.1 502 Bad Gateway\r\n"));
    }
}

#[test]
fn greetings_go_to_the_right_side() {
    let local = Some((IpAddr::V4([127, 0, 0, 1]), 1080));
    let g = greeting(&ClientRequest::Socks5, local);
    assert_eq!(g.to_client, [5, 0, 0, 1, 127, 0, 0, 1, 4, 56]);
    assert!(g.to_target.is_empty());
    let g = greeting(&ClientRequest::PlainSocks5, local);
    assert_eq!(g.to_client, [5, 0, 0, 1, 0, 0, 0, 0, 0, 0]);
    assert!(g.to_target.is_empty());
    let g = greeting(&ClientRequest::Socks4 { is_socks4a: true }, local);
    assert_eq!(g.to_client, [0, 0x5A, 0, 0, 0, 0, 0, 0]);
    assert!(g.to_target.is_empty());
    let g = greeting(&http("CONNECT a:1 HTTP/1.1"), local);
    assert_eq!(g.to_client, b"HTTP/1.1 200 Connection Established\r\n\r\n");
    assert!(g.to_target.is_empty());
    let g = greeting(&http("GET http://a/x HTTP/1.1"), local);
    assert!(g.to_client.is_empty());
    assert_eq!(g.to_target, b"GET /x HTTP/1.1\r\n\r\n");
}

#[test]
fn handshakes_are_summed_up() {
    let named = |resolve_hostname| Destination {
        host: "h".to_string(),
        port: 7,
        resolve_hostname,
        ip: None,
    };
    let r = conclude(&ClientRequest::Socks5, named(true), &Route::Direct, vec![1]);
    assert_eq!((r.host.as_str(), r.port, r.proxy_desc.as_str(), r.is_direct), ("h", 7, "direct", true));
    assert!(r.protocol == Protocol::Socks5h);
    assert_eq!(r.leftover, [1]);
    let via = Route::Via(ProxyConfig::from_url("http://p:1").unwrap());
    let r = conclude(&ClientRequest::Socks5, named(false), &via, vec![]);
    assert!(r.protocol == Protocol::Socks5);
    assert_eq!((r.proxy_desc.as_str(), r.is_direct), ("http://p:1", false));
    let r = conclude(&ClientRequest::Socks4 { is_socks4a: true }, named(true), &via, vec![]);
    assert!(r.protocol == Protocol::Socks4a);
    let r = conclude(&ClientRequest::Socks4 { is_socks4a: false }, named(false), &via, vec![]);
    assert!(r.protocol == Protocol::Socks4);
    let r = conclude(&http("CONNECT h:1 HTTP/1.1"), destination("h".to_string(), 1), &via, vec![]);
    assert!(r.protocol == Protocol::Http);
}

#[test]
fn the_traffic_window_follows() {
    let mut tracker = ConnectionTracker::new();
    let peer = SocketAddr { ip: IpAddr::V4([10, 0, 0, 9]), port: 50000, scope_id: 0 };
    let (id, sent, _) = on_accepted(&mut tracker, peer);
    sent.fetch_add(9, Ordering::Relaxed);
    let c = &tracker.snapshot()[0];
    assert_eq!(c.source_ip, "10.0.0.9:50000");
    assert_eq!(c.outbound_target, "resolving...");
    assert_eq!(c.proxy_protocol, "detecting...");
    assert_eq!(c.proxy, "connecting...");
    let bound = SocketAddr { ip: "fe80::9".parse().unwrap(), port: 7, scope_id: 2 };
    let (bound_id, _, _) = on_accepted(&mut tracker, bound);
    assert_eq!(tracker.snapshot()[1].id, bound_id);
    assert_eq!(tracker.snapshot()[1].source_ip, "[fe80::9%2]:7");
    let result = conclude(
        &ClientRequest::Socks5,
        Destination { host: "h".to_string(), port: 443, resolve_hostname: true, ip: None },
        &Route::Direct,
        vec![],
    );
    on_established(&mut tracker, id, &result);
    let c = &tracker.snapshot()[0];
    assert_eq!(c.source_ip, "10.0.0.9:50000");
    assert_eq!(c.outbound_target, "h:443");
    assert_eq!(c.proxy_protocol, "SOCKS5h");
    assert_eq!(c.proxy, "direct");
    assert_eq!(c.status, ConnStatus::Connected);
    assert_eq!(c.bytes_sent.load(Ordering::Relaxed), 9);
    on_ended(&mut tracker, id, ConnectionEnd::Closed);
    assert_eq!(tracker.snapshot()[0].status, ConnStatus::Closed);
    on_ended(&mut tracker, id, ConnectionEnd::Failed("x".to_string()));
    assert_eq!(tracker.snapshot()[0].status, ConnStatus::Error("x".to_string()));
    on_ended(&mut tracker, id, ConnectionEnd::HandshakeTimedOut);
    let c = &tracker.snapshot()[0];
    assert_eq!(c.status, ConnStatus::Error("Handshake timed out".to_string()));
    assert!(c.closed_at.is_some());
}
