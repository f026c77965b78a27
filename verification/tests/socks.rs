use simple_forwarder::inbound::{detect_protocol, Destination, InboundError, InboundProtocol};
use simple_forwarder::net::IpAddr;
use simple_forwarder::proxy_client::{connect_request, ClientStep, Socks5Client};
use simple_forwarder::socks4::{socks4_reply, Socks4Handshake, Socks4Next, GRANTED, REJECTED};
use simple_forwarder::socks5::{
    error_reply, success_reply, Entrance, ServerNext, Socks5Handshake,
};

/// Feeds a handshake: the replies, and what it came to.
fn serve(
    entrance: Entrance,
    input: &[u8],
) -> (Vec<u8>, Option<Result<Destination<String>, InboundError<String>>>) {
    let mut handshake = Socks5Handshake::new(entrance);
    let mut at = 0;
    let mut replies = Vec::new();
    loop {
        let n = handshake.wanted();
        if at + n > input.len() {
            return (replies, None);
        }
        let step = handshake.step(&input[at..at + n]);
        at += n;
        replies.extend_from_slice(&step.reply);
        match step.next {
            ServerNext::Read => {}
            ServerNext::Connect(d) => return (replies, Some(Ok(d))),
            ServerNext::Fail(e) => return (replies, Some(Err(e))),
        }
    }
}

fn failure(entrance: Entrance, input: &[u8]) -> (Vec<u8>, String) {
    match serve(entrance, input) {
        (replies, Some(Err(e))) => (replies, e.message()),
        other => panic!("{:?}", other),
    }
}

#[test]
fn test_socks5_bounds_checking() {
    // 1. Test case: nmethods = 0
    assert!(detect_protocol(0x05) == InboundProtocol::Socks5);
    let (_, message) = failure(Entrance::Shared, &[0x00]);
    assert!(message.contains("SOCKS5 nmethods must be between 1 and 255"));

    // 2. Test case: domain name length = 254 (invalid, > 253)
    let (replies, message) =
        failure(Entrance::Shared, &[0x01, 0x00, 0x05, 0x01, 0x00, 0x03, 254]);
    assert_eq!(replies[..2], [0x05, 0x00]);
    let reply = &replies[2..];
    assert_eq!(reply.len(), 10);
    assert_eq!(reply[0], 0x05); // VER
    assert_eq!(reply[1], 0x08); // REP (0x08 = Address type not supported)
    assert!(message.contains("SOCKS5 domain name length must be between 1 and 253"));
}

#[test]
fn protocols_are_detected() {
    assert!(detect_protocol(0x05) == InboundProtocol::Socks5);
    assert!(detect_protocol(0x04) == InboundProtocol::Socks4);
    assert!(detect_protocol(b'G') == InboundProtocol::Http);
    assert!(detect_protocol(0) == InboundProtocol::Http);
}

#[test]
fn socks5_destinations() {
    let (replies, d) =
        serve(Entrance::Shared, &[2, 9, 0, 5, 1, 0, 1, 10, 0, 0, 7, 0x1F, 0x90]);
    assert_eq!(replies, [5, 0]);
    let d = d.unwrap().unwrap();
    assert_eq!((d.host.as_str(), d.port, d.resolve_hostname), ("10.0.0.7", 8080, false));
    assert_eq!(d.ip, Some(IpAddr::V4([10, 0, 0, 7])));

    let mut input = vec![1, 0, 5, 1, 0, 3, 11];
    input.extend_from_slice(b"example.com");
    input.extend_from_slice(&[1, 0xBB]);
    let d = serve(Entrance::Shared, &input).1.unwrap().unwrap();
    assert_eq!((d.host.as_str(), d.port, d.resolve_hostname, d.ip), ("example.com", 443, true, None));

    let mut input = vec![1, 0, 5, 1, 0, 4];
    let mut octets = [0u8; 16];
    octets[15] = 1;
    input.extend_from_slice(&octets);
    input.extend_from_slice(&[0, 80]);
    let d = serve(Entrance::Shared, &input).1.unwrap().unwrap();
    assert_eq!((d.host.as_str(), d.port, d.resolve_hostname), ("::1", 80, false));
    assert_eq!(d.ip, Some(IpAddr::V6(octets)));

    // A name that is no text is shown with replacements.
    let d = serve(Entrance::Shared, &[1, 0, 5, 1, 0, 3, 2, b'a', 0xFF, 0, 1]).1.unwrap().unwrap();
    assert_eq!(d.host, "a\u{FFFD}");
}

#[test]
fn socks5_failures_on_the_shared_port() {
    let (replies, message) = failure(Entrance::Shared, &[2, 1, 2]);
    assert_eq!(replies, [5, 0xFF]);
    assert_eq!(message, "No acceptable authentication method");
    let (replies, message) = failure(Entrance::Shared, &[1, 0, 4, 1, 0, 1]);
    assert_eq!(replies, [5, 0]);
    assert_eq!(message, "Invalid SOCKS5 version in request");
    let (replies, message) = failure(Entrance::Shared, &[1, 0, 5, 2, 0, 1]);
    assert_eq!(replies, [5, 0, 5, 7, 0, 1, 0, 0, 0, 0, 0, 0]);
    assert_eq!(message, "Unsupported SOCKS5 command: 2");
    let (replies, message) = failure(Entrance::Shared, &[1, 0, 5, 1, 0, 9]);
    assert_eq!(replies[2..], error_reply(8));
    assert_eq!(message, "Unsupported SOCKS5 address type: 9");
    let (_, message) = failure(Entrance::Shared, &[1, 0, 5, 1, 0, 3, 0]);
    assert_eq!(message, "SOCKS5 domain name length must be between 1 and 253");
    // The longest name is taken.
    let mut input = vec![1, 0, 5, 1, 0, 3, 253];
    input.extend_from_slice(&[b'n'; 253]);
    input.extend_from_slice(&[0, 1]);
    assert_eq!(serve(Entrance::Shared, &input).1.unwrap().unwrap().host.len(), 253);
}

#[test]
fn socks5_on_its_own_port() {
    let (replies, d) = serve(Entrance::Plain, &[5, 1, 0, 5, 1, 0, 1, 1, 2, 3, 4, 0, 7]);
    assert_eq!(replies, [5, 0]);
    let d = d.unwrap().unwrap();
    assert_eq!((d.host.as_str(), d.port), ("1.2.3.4", 7));
    let (_, message) = failure(Entrance::Plain, &[4, 1]);
    assert_eq!(message, "Unsupported SOCKS version: 4");
    let (_, message) = failure(Entrance::Plain, &[5, 1, 0, 5, 3, 0, 1]);
    assert_eq!(message, "Unsupported command: 3");
    let (_, message) = failure(Entrance::Plain, &[5, 1, 0, 5, 1, 0, 2]);
    assert_eq!(message, "Unsupported address type: 2");
}

#[test]
fn socks5_replies() {
    assert_eq!(error_reply(4), [5, 4, 0, 1, 0, 0, 0, 0, 0, 0]);
    assert_eq!(success_reply(None), [5, 0, 0, 1, 0, 0, 0, 0, 0, 0]);
    assert_eq!(
        success_reply(Some((IpAddr::V4([1, 2, 3, 4]), 0x0506))),
        [5, 0, 0, 1, 1, 2, 3, 4, 5, 6]
    );
    let long = success_reply(Some((IpAddr::V6([9; 16]), 1)));
    assert_eq!(long.len(), 22);
    assert_eq!(long[..5], [5, 0, 0, 4, 9]);
    assert_eq!(long[20..], [0, 1]);
}

/// Runs the client against given answers, and hands out what it sent last.
fn run_client(client: &mut Socks5Client, answers: &[u8]) -> (Vec<u8>, Option<String>) {
    let mut at = 0;
    let mut sent = Vec::new();
    loop {
        let n = client.wanted();
        let step = client.step(&answers[at..at + n]);
        at += n;
        match step {
            ClientStep::Send(b) => sent = b,
            ClientStep::Read => {}
            ClientStep::Done => {
                assert_eq!(at, answers.len());
                return (sent, None);
            }
            ClientStep::Fail(e) => return (sent, Some(e.message())),
        }
    }
}

#[test]
fn client_and_server_understand_each_other() {
    for (host, port, remote) in
        [("10.0.0.1", 1u16, false), ("2001:db8::5", 65535, true), ("example.org", 443, true)]
    {
        let (mut client, hello) = Socks5Client::start(host, port, remote);
        assert_eq!(hello, [5, 1, 0]);
        let mut answers = vec![5, 0];
        answers.extend_from_slice(&success_reply(Some((IpAddr::V4([7, 7, 7, 7]), 9))));
        let (request, error) = run_client(&mut client, &answers);
        assert_eq!(error, None);
        let mut input = hello;
        input.extend_from_slice(&request);
        let (replies, d) = serve(Entrance::Plain, &input);
        assert_eq!(replies, [5, 0]);
        let d = d.unwrap().unwrap();
        assert_eq!((d.host.as_str(), d.port), (host, port));
    }
}

#[test]
fn client_understands_refusals() {
    let (mut client, _) = Socks5Client::start("1.2.3.4", 80, false);
    let mut answers = vec![5, 0];
    answers.extend_from_slice(&error_reply(5)[..4]);
    let (_, error) = run_client(&mut client, &answers);
    assert!(error.unwrap().contains("Connection refused"));
}

#[test]
fn names_need_a_proxy_that_resolves() {
    assert_eq!(
        connect_request("h", None, 80, true).unwrap(),
        [5, 1, 0, 3, 1, b'h', 0, 80]
    );
    let e = connect_request("h", None, 80, false).unwrap_err();
    assert!(e.message().starts_with("Hostname h found but upstream proxy requires an IP address"));
    let long = "n".repeat(256);
    assert_eq!(connect_request(&long, None, 80, true).unwrap_err().message(), "Hostname too long");
    assert!(connect_request(&long[1..], None, 80, true).is_ok());
}

#[test]
fn socks4_requests() {
    assert_eq!(socks4_reply(GRANTED), [0, 0x5A, 0, 0, 0, 0, 0, 0]);
    assert_eq!(socks4_reply(REJECTED), [0, 0x5B, 0, 0, 0, 0, 0, 0]);
    let mut h = Socks4Handshake::new(&[1, 0, 80, 10, 0, 0, 1]).unwrap();
    assert!(!h.is_socks4a());
    assert!(matches!(h.step(b"us"), Socks4Next::Read));
    match h.step(b"er\0more") {
        Socks4Next::Connect(d, left) => {
            assert_eq!((d.host.as_str(), d.port, d.resolve_hostname), ("10.0.0.1", 80, false));
            assert_eq!(d.ip, Some(IpAddr::V4([10, 0, 0, 1])));
            assert_eq!(left, b"more");
        }
        other => panic!("{:?}", other),
    }
    let (reply, e) = Socks4Handshake::new(&[2, 0, 80, 10, 0, 0, 1]).unwrap_err();
    assert_eq!(reply, socks4_reply(REJECTED));
    assert_eq!(e.message(), "Unsupported SOCKS4 command: 2");
}

#[test]
fn socks4a_requests() {
    for cut in 1..16 {
        let data = b"me\0example.com\0x";
        let mut h = Socks4Handshake::new(&[1, 1, 0xBB, 0, 0, 0, 3]).unwrap();
        assert!(h.is_socks4a());
        let mut outcome = h.step(&data[..cut]);
        if let Socks4Next::Read = outcome {
            outcome = h.step(&data[cut..]);
        }
        match outcome {
            Socks4Next::Connect(d, left) => {
                assert_eq!(
                    (d.host.as_str(), d.port, d.resolve_hostname, d.ip),
                    ("example.com", 443, true, None)
                );
                assert_eq!(left, if cut == 15 { &b""[..] } else { &b"x"[..] });
            }
            other => panic!("{:?}", other),
        }
    }
    // 0.0.0.0 names no domain.
    assert!(!Socks4Handshake::new(&[1, 0, 0, 0, 0, 0, 0]).unwrap().is_socks4a());
}

fn socks4_failure(header: &[u8], chunks: &[&[u8]]) -> String {
    let mut h = Socks4Handshake::new(header).unwrap();
    for c in chunks {
        match h.step(c) {
            Socks4Next::Read => {}
            Socks4Next::Fail(e) => return e.message(),
            Socks4Next::Connect(d, _) => panic!("{:?}", d),
        }
    }
    panic!("no end")
}

#[test]
fn socks4_limits() {
    let full = [b'a'; 256];
    assert_eq!(
        socks4_failure(&[1, 0, 1, 1, 1, 1, 1], &[b"abc", b""]),
        "Connection closed during SOCKS4 handshake"
    );
    assert_eq!(
        socks4_failure(&[1, 0, 1, 1, 1, 1, 1], &[&full, &full, &full, &full, &full]),
        "SOCKS4 handshake data too long"
    );
    assert_eq!(
        socks4_failure(&[1, 0, 1, 1, 1, 1, 1], &[&full, b"\0"]),
        "SOCKS4: User ID too long (256 bytes)"
    );
    assert_eq!(
        socks4_failure(&[1, 0, 1, 0, 0, 0, 1], &[b"\0", &full[..254], b"\0"]),
        "SOCKS4a: domain name too long (254 bytes)"
    );
    let mut h = Socks4Handshake::new(&[1, 0, 1, 0, 0, 0, 1]).unwrap();
    assert!(matches!(h.step(b"\0"), Socks4Next::Read));
    assert!(matches!(h.step(&full[..253]), Socks4Next::Read));
    assert!(matches!(h.step(b"\0"), Socks4Next::Connect(_, _)));
    let mut h = Socks4Handshake::new(&[1, 0, 1, 1, 1, 1, 1]).unwrap();
    assert!(matches!(h.step(&full[..255]), Socks4Next::Read));
    assert!(matches!(h.step(b"\0"), Socks4Next::Connect(_, _)));
}
