use simple_forwarder::http::{
    bad_gateway, destination, filter_hop_by_hop_headers, open_request, parse_request,
    parse_tunnel_target, HeaderNext, HeaderReader, HttpOpening, HttpRequest, UriParts,
    HEADER_MAX_LEN,
};
use simple_forwarder::inbound::InboundError;
use simple_forwarder::proxy_client::{http_connect_request, ClientStep, HttpConnect};
use simple_forwarder::util::find_header_separator;

#[test]
fn test_filter_hop_by_hop_headers() {
    // Normal \r\n headers — should preserve \r\n exactly (no double \r).
    let input = b"Host: example.com\r\nConnection: keep-alive\r\nContent-Length: 0\r\n\r\n";
    let out = filter_hop_by_hop_headers(input);
    assert_eq!(out, b"Host: example.com\r\nContent-Length: 0\r\n\r\n");

    // \n-only headers — should output \r\n (normalised).
    let input = b"Host: example.com\nConnection: keep-alive\nContent-Length: 0\n\n";
    let out = filter_hop_by_hop_headers(input);
    assert_eq!(out, b"Host: example.com\r\nContent-Length: 0\r\n\r\n");
}

#[test]
fn test_find_header_separator() {
    let b1 = b"Host: localhost\r\n\r\n";
    assert_eq!(find_header_separator(b1, 0), Some(b1.len()));

    let b2 = b"Host: localhost\n\n";
    assert_eq!(find_header_separator(b2, 0), Some(b2.len()));

    let b3 = b"Host: localhost\r\n\n";
    assert_eq!(find_header_separator(b3, 0), Some(b3.len()));

    let b4 = b"Host: localhost\n\r\n";
    assert_eq!(find_header_separator(b4, 0), Some(b4.len()));

    let b5 = b"Host: localhost\r\n";
    assert_eq!(find_header_separator(b5, 0), None);

    // Test start_pos optimization
    let b6 = b"Host: localhost\r\n\r\nLeftover data";
    assert_eq!(find_header_separator(b6, 15), Some(19));
}

#[test]
fn separator_edges() {
    assert_eq!(find_header_separator(b"", 0), None);
    assert_eq!(find_header_separator(b"\n", 0), None);
    assert_eq!(find_header_separator(b"\n\n", 0), Some(2));
    assert_eq!(find_header_separator(b"\n\r", 0), None);
    assert_eq!(find_header_separator(b"\n\r\n", 0), Some(3));
    assert_eq!(find_header_separator(b"\n\n\n\n", 0), Some(2));
    assert_eq!(find_header_separator(b"ab", 100), None);
    // An empty line that starts before the hint reaches back is passed over.
    assert_eq!(find_header_separator(b"\n\nabcdefgh\n\n", 9), Some(12));
}

#[test]
fn hints_and_later_bytes_lose_nothing() {
    let whole = b"A: b\r\nC: d\r\n\r\nbody\n\n";
    let end = find_header_separator(whole, 0).unwrap();
    assert_eq!(end, 14);
    for searched in 0..end {
        if find_header_separator(&whole[..searched], 0).is_none() {
            assert_eq!(find_header_separator(whole, searched), Some(end));
        }
    }
    for len in end..whole.len() + 1 {
        assert_eq!(find_header_separator(&whole[..len], 0), Some(end));
    }
}

#[test]
fn every_hop_header_goes() {
    let names = [
        "Connection",
        "KEEP-ALIVE",
        "proxy-authenticate",
        "Proxy-Authorization",
        "Proxy-Connection",
        "TE",
        "Trailers",
        "Transfer-Encoding",
        "upgrade",
    ];
    for name in names {
        let line = format!("{}: x\r\nA: 1\r\n\r\n", name);
        assert_eq!(filter_hop_by_hop_headers(line.as_bytes()), b"A: 1\r\n\r\n");
    }
    // Other names stay, also ones that a listed name is part of.
    for line in ["Tea: x\r\n\r\n", "Connections: x\r\n\r\n", "Connection : x\r\n\r\n", "te\r\n\r\n"] {
        assert_eq!(filter_hop_by_hop_headers(line.as_bytes()), line.as_bytes());
    }
}

#[test]
fn filtering_twice_changes_nothing() {
    for input in [
        "",
        "\n",
        "A: 1",
        "A: 1\r\r\nB: 2\n\nC: 3\r\nTE: x\n",
        "\r\r\n",
        "no colon\nConnection:\n",
    ] {
        let once = filter_hop_by_hop_headers(input.as_bytes());
        assert_eq!(filter_hop_by_hop_headers(&once), once);
        assert!(once.ends_with(b"\r\n"));
    }
    assert_eq!(filter_hop_by_hop_headers(b""), b"\r\n");
    assert_eq!(filter_hop_by_hop_headers(b"A: 1"), b"A: 1\r\n\r\n");
    assert_eq!(filter_hop_by_hop_headers(b"A\n\nB\n"), b"A\r\nB\r\n\r\n");
}

fn read_all(data: &[u8], piece: usize) -> HeaderNext<Vec<u8>, InboundError<String>> {
    let mut reader = HeaderReader::new(data[0]);
    let mut at = 1;
    loop {
        let to = std::cmp::min(at + piece, data.len());
        match reader.step(&data[at..to]) {
            HeaderNext::Read => at = to,
            other => return other,
        }
    }
}

#[test]
fn headers_do_not_depend_on_pieces() {
    let data = b"GET / HTTP/1.1\r\nHost: a\r\n\r\nrest of it";
    for piece in 1..data.len() {
        match read_all(data, piece) {
            HeaderNext::Complete(head, left) => {
                assert_eq!(head, b"GET / HTTP/1.1\r\nHost: a\r\n\r\n");
                let read = 1 + ((head.len() - 1 + piece - 1) / piece) * piece;
                assert_eq!(left, &data[head.len()..std::cmp::min(read, data.len())]);
            }
            other => panic!("{:?}", other),
        }
    }
}

#[test]
fn unfinished_headers_are_closed_or_too_long() {
    match read_all(b"GET / HTTP/1.1\r\n", 4) {
        HeaderNext::Fail(e) => {
            assert_eq!(e.message(), "Connection closed while reading HTTP headers")
        }
        other => panic!("{:?}", other),
    }
    let long = vec![b'a'; HEADER_MAX_LEN + 2];
    match read_all(&long, 1024) {
        HeaderNext::Fail(e) => assert_eq!(e.message(), "HTTP headers too long"),
        other => panic!("{:?}", other),
    }
    // As many bytes as are allowed, and the end within them.
    let mut fits = vec![b'a'; HEADER_MAX_LEN - 2];
    fits.extend_from_slice(b"\n\n");
    assert!(matches!(read_all(&fits, 1000), HeaderNext::Complete(_, _)));
    let mut over = vec![b'a'; HEADER_MAX_LEN - 1];
    over.extend_from_slice(b"\n\n");
    assert!(matches!(read_all(&over, 1000), HeaderNext::Fail(_)));
}

#[test]
fn request_lines_are_read() {
    let q = parse_request(b"GET http://a/b HTTP/1.0\r\nHost: a\r\n\r\n").unwrap();
    assert_eq!(q.method, "GET");
    assert_eq!(q.uri, "http://a/b");
    assert_eq!(q.version, "HTTP/1.0");
    assert_eq!(q.line, b"GET http://a/b HTTP/1.0\r\n");
    assert_eq!(q.headers, b"Host: a\r\n\r\n");
    let q = parse_request(b"  get \t /x \n").unwrap();
    assert_eq!((q.method.as_str(), q.uri.as_str(), q.version.as_str()), ("get", "/x", "HTTP/1.1"));
    let q = parse_request(b"G\xFFT /x\n").unwrap();
    assert_eq!(q.method, "G\u{FFFD}T");
}

#[test]
fn bad_request_lines_are_refused() {
    assert_eq!(parse_request(b"GET / HTTP/1.1").unwrap_err().message(), "Invalid HTTP request headers");
    assert_eq!(parse_request(b" GET \r\n").unwrap_err().message(), "Invalid HTTP request line: GET");
    assert_eq!(parse_request(b"\r\n").unwrap_err().message(), "Invalid HTTP request line: ");
}

#[test]
fn tunnel_targets_are_read() {
    let cases = [
        ("example.com:8443", "example.com", 8443),
        ("example.com", "example.com", 443),
        ("example.com:", "example.com", 443),
        ("example.com:http", "example.com", 443),
        ("example.com:65536", "example.com", 443),
        ("example.com:+80", "example.com", 80),
        ("a:b:99", "a:b", 99),
        (":1", "", 1),
        ("[::1]:8080", "::1", 8080),
        ("[::1]", "::1", 443),
        ("[::1]:", "::1", 443),
        ("[::1]x80", "::1", 443),
        ("[::1]:x", "::1", 443),
        ("[]:1", "", 1),
    ];
    for (uri, host, port) in cases {
        assert_eq!(parse_tunnel_target(uri).unwrap(), (host.to_string(), port), "{}", uri);
    }
    assert_eq!(
        parse_tunnel_target("[::1").unwrap_err().message(),
        "Invalid IPv6 CONNECT URI: [::1"
    );
}

fn request(line: &str) -> HttpRequest<Vec<u8>, String> {
    parse_request(format!("{}\r\nHost: h\r\nTE: x\r\n\r\n", line).as_bytes()).unwrap()
}

#[test]
fn targets_of_requests() {
    assert_eq!(request("CONNECT a:1 HTTP/1.1").target().unwrap(), ("a".to_string(), 1));
    assert_eq!(request("connect a HTTP/1.1").target().unwrap(), ("a".to_string(), 443));
    assert_eq!(request("GET http://a/b HTTP/1.1").target().unwrap(), ("a".to_string(), 80));
    assert_eq!(request("GET http://a:81/b HTTP/1.1").target().unwrap(), ("a".to_string(), 81));
    assert_eq!(
        request("GET http://[::1]:82/b HTTP/1.1").target().unwrap(),
        ("[::1]".to_string(), 82)
    );
    assert_eq!(
        request("GET /b HTTP/1.1").target().unwrap_err().message(),
        "Missing host in HTTP URI"
    );
    assert_eq!(
        request("GET http://a<b HTTP/1.1").target().unwrap_err().message(),
        "Failed to parse URI: http://a<b"
    );
}

#[test]
fn targets_from_given_parts() {
    let q = request("GET u HTTP/1.1");
    let parts = |host: Option<&str>, port| {
        Some(UriParts {
            host: host.map(|h| h.to_string()),
            port,
            path: "/".to_string(),
            query: None,
        })
    };
    assert_eq!(q.target_from(&parts(Some("h"), Some(5))).unwrap(), ("h".to_string(), 5));
    assert_eq!(q.target_from(&parts(Some("h"), None)).unwrap(), ("h".to_string(), 80));
    assert!(matches!(q.target_from(&parts(None, None)), Err(InboundError::MissingHost)));
    assert!(matches!(q.target_from(&None), Err(InboundError::InvalidUri(_))));
    // A tunnel does not look at them.
    let c = request("Connect h:7 HTTP/1.1");
    assert_eq!(c.target_from(&None).unwrap(), ("h".to_string(), 7));
}

#[test]
fn absolute_requests_are_rewritten() {
    let tail = "Host: h\r\n\r\n";
    let cases = [
        ("GET http://a/b?c=d HTTP/1.0", "GET /b?c=d HTTP/1.0\r\n"),
        ("GET http://a HTTP/1.1", "GET / HTTP/1.1\r\n"),
        ("POST https://a:1/x/y HTTP/1.1", "POST /x/y HTTP/1.1\r\n"),
        ("GET http://a?q", "GET /?q HTTP/1.1\r\n"),
        ("GET  /rel   HTTP/1.1", "GET  /rel   HTTP/1.1\r\n"),
        ("GET ftp://a/b HTTP/1.1", "GET ftp://a/b HTTP/1.1\r\n"),
        ("OPTIONS * HTTP/1.1", "OPTIONS * HTTP/1.1\r\n"),
    ];
    for (line, expected) in cases {
        let head = String::from_utf8(request(line).head()).unwrap();
        assert_eq!(head, format!("{}{}", expected, tail), "{}", line);
    }
}

#[test]
fn heads_from_given_parts() {
    let text = |b: Vec<u8>| String::from_utf8(b).unwrap();
    let q = request("GET http://a/b HTTP/1.1");
    let parts = UriParts { host: None, port: None, path: "".to_string(), query: Some("z".to_string()) };
    assert_eq!(text(q.head_from(&Some(parts))), "GET /?z HTTP/1.1\r\nHost: h\r\n\r\n");
    // Without parts the path is what follows the host.
    assert_eq!(text(q.head_from(&None)), "GET /b HTTP/1.1\r\nHost: h\r\n\r\n");
    let q = request("GET https://host HTTP/1.1");
    assert_eq!(text(q.head_from(&None)), "GET / HTTP/1.1\r\nHost: h\r\n\r\n");
    let q = request("GET https://host/p?q HTTP/1.1");
    assert_eq!(text(q.head_from(&None)), "GET /p?q HTTP/1.1\r\nHost: h\r\n\r\n");
}

#[test]
fn forwarded_heads_end_once() {
    let heads: [&[u8]; 5] = [
        b"GET http://a/b HTTP/1.1\r\nHost: a\r\n\r\n",
        b"GET /b HTTP/1.1\nHost: a\n\n",
        b"GET http://a HTTP/1.1\r\n\r\r\nHost: a\r\n\r\n",
        b"GET / HTTP/1.1\r\nConnection: close\r\n\r\n",
        b"GET http://a/ HTTP/1.1\r\n\r\n",
    ];
    for head in heads {
        let sent = match parse_request(head) {
            Ok(q) => q.head(),
            Err(_) => panic!("refused"),
        };
        assert_eq!(find_header_separator(&sent, 0), Some(sent.len()), "{:?}", head);
    }
}

#[test]
fn openings_go_one_way() {
    match open_request(&request("CONNECT a:1 HTTP/1.1")) {
        HttpOpening::ToClient(b) => {
            assert_eq!(b, b"HTTP/1.1 200 Connection Established\r\n\r\n")
        }
        other => panic!("{:?}", other),
    }
    match open_request(&request("GET http://a/ HTTP/1.1")) {
        HttpOpening::ToServer(b) => assert_eq!(b, b"GET / HTTP/1.1\r\nHost: h\r\n\r\n"),
        other => panic!("{:?}", other),
    }
    assert_eq!(
        bad_gateway(),
        b"HTTP/1.1 502 Bad Gateway\r\nContent-Length: 0\r\nConnection: close\r\n\r\n"
    );
    let d = destination("h".to_string(), 9);
    assert_eq!((d.host.as_str(), d.port, d.resolve_hostname, d.ip), ("h", 9, true, None));
}

#[test]
fn own_requests_come_back() {
    for (host, port) in [("example.com", 443u16), ("::1", 0), ("", 65535), ("b\u{fc}cher", 80)] {
        let sent = http_connect_request(host, port);
        match read_all(sent.as_bytes(), 7) {
            HeaderNext::Complete(head, left) => {
                assert_eq!(head, sent.as_bytes());
                assert!(left.is_empty());
                let q = parse_request(&head).unwrap();
                assert!(q.is_connect());
                assert_eq!(q.target().unwrap(), (host.to_string(), port));
            }
            other => panic!("{:?}", other),
        }
    }
}

#[test]
fn bracketed_hosts_lose_their_brackets() {
    assert_eq!(parse_tunnel_target("[fe80::1]:99").unwrap(), ("fe80::1".to_string(), 99));
}

fn judge(answer: &[u8]) -> Option<String> {
    let mut client = HttpConnect::new();
    for (i, b) in answer.iter().enumerate() {
        match client.step(*b) {
            ClientStep::Read => {}
            ClientStep::Done => {
                assert_eq!(i, answer.len() - 1);
                return None;
            }
            ClientStep::Fail(e) => return Some(e.message()),
            ClientStep::Send(_) => panic!("nothing to send"),
        }
    }
    panic!("no end")
}

#[test]
fn the_client_understands_the_server() {
    assert_eq!(judge(b"HTTP/1.1 200 Connection Established\r\n\r\n"), None);
    let refused = judge(&bad_gateway()).unwrap();
    assert!(refused.contains("502 Bad Gateway"), "{}", refused);
}
