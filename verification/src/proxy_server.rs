//! The course of a connection from its acceptance to its end.

use crate::config::SocketAddr;
use crate::connection_tracker;
use crate::connection_tracker::{ConnectionTracker, Protocol};
use crate::http;
use crate::http::{bad_gateway, open_request, HttpOpening, HttpRequest};
use crate::inbound::Destination;
use crate::net::IpAddr;
use crate::proxy_client;
use crate::proxy_client::{host_port, ProxyConfig};
use crate::rules;
use crate::rules::Route;
use crate::socks4;
use crate::socks4::socks4_reply;
use crate::socks5;
use crate::socks5::{error_reply, success_reply};
use std::sync::atomic::AtomicU64;
use std::sync::Arc;
use vstd::prelude::*;
use vstd::string::*;

verus! {

/// How long a handshake with a client may take, in seconds.
pub const HANDSHAKE_TIMEOUT_SECS: u64 = 10;

/// The number of connections that are served at a time.
pub const MAX_CONNECTIONS: usize = 1024;

// ---------------------------------------------------------------------------
// Answers to the client
// ---------------------------------------------------------------------------

/// A request that a client made, by its protocol.
#[derive(Debug)]
pub enum ClientRequest {
    Socks5,
    /// SOCKS5 on a port for it alone.
    PlainSocks5,
    Socks4 { is_socks4a: bool },
    Http(HttpRequest<Vec<u8>, String>),
}

/// Why the destination of a request could not be reached.
#[derive(Debug)]
pub enum ConnectFailure<T> {
    /// The proxy did not bring the connection about.
    Proxy(T),
    /// The destination refused the connection.
    Refused(T),
    /// The connection to the destination failed in another way.
    Unreachable(T),
    /// The destination did not accept in time.
    TimedOut,
}

impl View for ConnectFailure<String> {
    type V = ConnectFailure<Seq<char>>;

    open spec fn view(&self) -> ConnectFailure<Seq<char>> {
        match self {
            ConnectFailure::Proxy(message) => ConnectFailure::Proxy(message@),
            ConnectFailure::Refused(message) => ConnectFailure::Refused(message@),
            ConnectFailure::Unreachable(message) => ConnectFailure::Unreachable(message@),
            ConnectFailure::TimedOut => ConnectFailure::TimedOut,
        }
    }
}

/// The message of a failure.
pub open spec fn failure_text(f: ConnectFailure<Seq<char>>) -> Seq<char> {
    match f {
        ConnectFailure::Proxy(message) => message,
        ConnectFailure::Refused(message) => message,
        ConnectFailure::Unreachable(message) => message,
        ConnectFailure::TimedOut => "Connection timed out"@,
    }
}

/// The code by which a SOCKS5 client is told of a failure.
pub open spec fn failure_code(f: ConnectFailure<Seq<char>>) -> u8 {
    match f {
        ConnectFailure::Proxy(_) => 0x01,
        ConnectFailure::Refused(_) => 0x05,
        ConnectFailure::Unreachable(_) => 0x04,
        ConnectFailure::TimedOut => 0x06,
    }
}

impl ConnectFailure<String> {
    /// The message of the failure.
    pub fn message(&self) -> (r: String)
        ensures
            r@ == failure_text(self@),
    {
        match self {
            ConnectFailure::Proxy(message) => message.clone(),
            ConnectFailure::Refused(message) => message.clone(),
            ConnectFailure::Unreachable(message) => message.clone(),
            ConnectFailure::TimedOut => "Connection timed out".to_string(),
        }
    }

    /// The code by which a SOCKS5 client is told of the failure.
    pub fn code(&self) -> (r: u8)
        ensures
            r == failure_code(self@),
    {
        match self {
            ConnectFailure::Proxy(_) => 0x01,
            ConnectFailure::Refused(_) => 0x05,
            ConnectFailure::Unreachable(_) => 0x04,
            ConnectFailure::TimedOut => 0x06,
        }
    }
}

/// The answer to a client whose destination could not be reached.
pub open spec fn refusal_bytes(q: ClientRequest, f: ConnectFailure<Seq<char>>) -> Seq<u8> {
    match q {
        ClientRequest::Socks5 => socks5::error_reply_bytes(failure_code(f)),
        ClientRequest::PlainSocks5 => socks5::error_reply_bytes(0x05),
        ClientRequest::Socks4 { is_socks4a: _ } => socks4::reply_bytes(socks4::REJECTED),
        ClientRequest::Http(_) => vstd::utf8::encode_utf8(http::failure_reply()),
    }
}

/// Writes the answer to a client whose destination could not be reached.
pub fn refusal(request: &ClientRequest, failure: &ConnectFailure<String>) -> (r: Vec<u8>)
    ensures
        r@ == refusal_bytes(*request, failure@),
{
    match request {
        ClientRequest::Socks5 => error_reply(failure.code()),
        ClientRequest::PlainSocks5 => error_reply(0x05),
        ClientRequest::Socks4 { is_socks4a: _ } => socks4_reply(socks4::REJECTED),
        ClientRequest::Http(_) => bad_gateway(),
    }
}

/// What is sent first once the destination is reached: to the client, and to the destination.
#[derive(Debug)]
pub struct Greeting<B> {
    pub to_client: B,
    pub to_target: B,
}

impl View for Greeting<Vec<u8>> {
    type V = Greeting<Seq<u8>>;

    open spec fn view(&self) -> Greeting<Seq<u8>> {
        Greeting { to_client: self.to_client@, to_target: self.to_target@ }
    }
}

/// What is sent first once the destination is reached. `local` is the address of the connection
/// with the client, where it is known.
pub open spec fn greeting_of(q: ClientRequest, local: Option<(IpAddr, u16)>) -> Greeting<Seq<u8>> {
    let none = Seq::<u8>::empty();
    match q {
        ClientRequest::Socks5 => Greeting {
            to_client: socks5::success_reply_bytes(local),
            to_target: none,
        },
        ClientRequest::PlainSocks5 => Greeting {
            to_client: socks5::success_reply_bytes(None),
            to_target: none,
        },
        ClientRequest::Socks4 { is_socks4a: _ } => Greeting {
            to_client: socks4::reply_bytes(socks4::GRANTED),
            to_target: none,
        },
        ClientRequest::Http(request) => match http::opening_of(
            request@,
            http::uri_syntax(request@.uri),
        ) {
            HttpOpening::ToClient(b) => Greeting { to_client: b, to_target: none },
            HttpOpening::ToServer(b) => Greeting { to_client: none, to_target: b },
        },
    }
}

/// Writes what is sent first once the destination is reached.
pub fn greeting(request: &ClientRequest, local: Option<(IpAddr, u16)>) -> (r: Greeting<Vec<u8>>)
    ensures
        r@ == greeting_of(*request, local),
{
    match request {
        ClientRequest::Socks5 => Greeting {
            to_client: success_reply(local),
            to_target: Vec::new(),
        },
        ClientRequest::PlainSocks5 => Greeting {
            to_client: success_reply(None),
            to_target: Vec::new(),
        },
        ClientRequest::Socks4 { is_socks4a: _ } => Greeting {
            to_client: socks4_reply(socks4::GRANTED),
            to_target: Vec::new(),
        },
        ClientRequest::Http(request) => match open_request(request) {
            HttpOpening::ToClient(b) => Greeting { to_client: b, to_target: Vec::new() },
            HttpOpening::ToServer(b) => Greeting { to_client: Vec::new(), to_target: b },
        },
    }
}

// ---------------------------------------------------------------------------
// What the handshake came to
// ---------------------------------------------------------------------------

/// A connection whose destination is reached.
#[derive(Debug)]
pub struct HandshakeResult<B, T> {
    pub host: T,
    pub port: u16,
    pub proxy_desc: T,
    pub is_direct: bool,
    pub protocol: Protocol,
    pub leftover: B,
}

impl View for HandshakeResult<Vec<u8>, String> {
    type V = HandshakeResult<Seq<u8>, Seq<char>>;

    open spec fn view(&self) -> HandshakeResult<Seq<u8>, Seq<char>> {
        HandshakeResult {
            host: self.host@,
            port: self.port,
            proxy_desc: self.proxy_desc@,
            is_direct: self.is_direct,
            protocol: self.protocol,
            leftover: self.leftover@,
        }
    }
}

/// The protocol that is shown for a request.
pub open spec fn protocol_of(q: ClientRequest, resolve_hostname: bool) -> Protocol {
    match q {
        ClientRequest::Socks5 | ClientRequest::PlainSocks5 => if resolve_hostname {
            Protocol::Socks5h
        } else {
            Protocol::Socks5
        },
        ClientRequest::Socks4 { is_socks4a } => if is_socks4a {
            Protocol::Socks4a
        } else {
            Protocol::Socks4
        },
        ClientRequest::Http(_) => Protocol::Http,
    }
}

/// What the handshake for a request came to, with the destination reached this way.
pub open spec fn handshake_of(
    q: ClientRequest,
    d: Destination<Seq<char>>,
    route: Route<proxy_client::ProxyView>,
    leftover: Seq<u8>,
) -> HandshakeResult<Seq<u8>, Seq<char>> {
    HandshakeResult {
        host: d.host,
        port: d.port,
        proxy_desc: rules::route_text(route),
        is_direct: route is Direct,
        protocol: protocol_of(q, d.resolve_hostname),
        leftover,
    }
}

/// Sums up the handshake for a request.
pub fn conclude(
    request: &ClientRequest,
    destination: Destination<String>,
    route: &Route<ProxyConfig>,
    leftover: Vec<u8>,
) -> (r: HandshakeResult<Vec<u8>, String>)
    ensures
        r@ == handshake_of(*request, destination@, route@, leftover@),
{
    let protocol = match request {
        ClientRequest::Socks5 | ClientRequest::PlainSocks5 => if destination.resolve_hostname {
            Protocol::Socks5h
        } else {
            Protocol::Socks5
        },
        ClientRequest::Socks4 { is_socks4a } => if *is_socks4a {
            Protocol::Socks4a
        } else {
            Protocol::Socks4
        },
        ClientRequest::Http(_) => Protocol::Http,
    };
    let is_direct = match route {
        Route::Direct => true,
        Route::Via(_) => false,
    };
    HandshakeResult {
        host: destination.host,
        port: destination.port,
        proxy_desc: route.text(),
        is_direct,
        protocol,
        leftover,
    }
}

// ---------------------------------------------------------------------------
// What the traffic window shows of it
// ---------------------------------------------------------------------------

/// A connection that was just accepted, as the traffic window shows it.
pub open spec fn accepted_info(
    id: u64,
    peer: SocketAddr,
    start_time: Seq<char>,
    bytes_sent: Arc<AtomicU64>,
    bytes_received: Arc<AtomicU64>,
) -> connection_tracker::InfoView {
    connection_tracker::fresh_info(
        id,
        crate::config::socket_text(peer),
        "resolving..."@,
        "detecting..."@,
        start_time,
        bytes_sent,
        bytes_received,
    )
}

/// Registers a connection that was just accepted. Gives its id and its counters.
pub fn on_accepted(tracker: &mut ConnectionTracker, peer: SocketAddr) -> (r: (
    u64,
    Arc<AtomicU64>,
    Arc<AtomicU64>,
))
    requires
        old(tracker).wf(),
        old(tracker)@.next_id < u64::MAX,
    ensures
        final(tracker).wf(),
        r.0 == old(tracker)@.next_id,
        exists|start_time: Seq<char>|
            final(tracker)@ == connection_tracker::registered(
                old(tracker)@,
                #[trigger] accepted_info(r.0, peer, start_time, r.1, r.2),
            ),
{
    let r = tracker.register(
        peer.text(),
        "resolving...".to_string(),
        "detecting...".to_string(),
    );
    proof {
        let start_time = choose|start_time: Seq<char>|
            tracker@ == connection_tracker::registered(
                old(tracker)@,
                #[trigger] connection_tracker::fresh_info(
                    r.0,
                    crate::config::socket_text(peer),
                    "resolving..."@,
                    "detecting..."@,
                    start_time,
                    r.1,
                    r.2,
                ),
            );
        assert(tracker@ == connection_tracker::registered(
            old(tracker)@,
            accepted_info(r.0, peer, start_time, r.1, r.2),
        ));
    }
    r
}

/// A connection whose destination is reached, as the traffic window shows it.
pub open spec fn established_info(
    e: connection_tracker::InfoView,
    h: HandshakeResult<Seq<u8>, Seq<char>>,
) -> connection_tracker::InfoView {
    connection_tracker::InfoView {
        proxy_protocol: h.protocol.name(),
        outbound_target: proxy_client::authority(h.host, h.port),
        proxy: h.proxy_desc,
        status: connection_tracker::StatusView::Connected,
        ..e
    }
}

/// Shows a connection whose destination is reached.
pub fn on_established(
    tracker: &mut ConnectionTracker,
    id: u64,
    result: &HandshakeResult<Vec<u8>, String>,
)
    requires
        old(tracker).wf(),
    ensures
        final(tracker).wf(),
        final(tracker)@ == connection_tracker::changed(
            old(tracker)@,
            id,
            |e: connection_tracker::InfoView| established_info(e, result@),
        ),
{
    tracker.set_proxy_protocol(id, result.protocol.text());
    tracker.set_outbound_target(id, host_port(result.host.as_str(), result.port));
    tracker.set_proxy(id, result.proxy_desc.clone());
    tracker.set_connected(id);
    assert(tracker@ =~= connection_tracker::changed(
        old(tracker)@,
        id,
        |e: connection_tracker::InfoView| established_info(e, result@),
    ));
}

/// How a connection ended.
#[derive(Debug)]
pub enum ConnectionEnd<T> {
    /// Both sides are done, or one was given enough time.
    Closed,
    /// The handshake or the relay failed.
    Failed(T),
    /// The handshake took too long.
    HandshakeTimedOut,
}

/// The status of a connection that ended.
pub open spec fn end_status(end: ConnectionEnd<String>) -> connection_tracker::StatusView {
    match end {
        ConnectionEnd::Closed => connection_tracker::StatusView::Closed,
        ConnectionEnd::Failed(message) => connection_tracker::StatusView::Error(message@),
        ConnectionEnd::HandshakeTimedOut => connection_tracker::StatusView::Error(
            "Handshake timed out"@,
        ),
    }
}

/// Shows a connection that ended.
pub fn on_ended(tracker: &mut ConnectionTracker, id: u64, end: ConnectionEnd<String>)
    requires
        old(tracker).wf(),
    ensures
        final(tracker).wf(),
        exists|now: u128|
            final(tracker)@ == #[trigger] connection_tracker::with_ended(
                old(tracker)@,
                id,
                end_status(end),
                now,
            ),
{
    match end {
        ConnectionEnd::Closed => tracker.set_closed(id),
        ConnectionEnd::Failed(message) => tracker.set_error(id, message.as_str()),
        ConnectionEnd::HandshakeTimedOut => tracker.set_error(id, "Handshake timed out"),
    }
}

// ---------------------------------------------------------------------------
// Laws
// ---------------------------------------------------------------------------

/// Law: every client whose destination cannot be reached is answered, in its own protocol.
pub proof fn every_failure_is_answered(q: ClientRequest, f: ConnectFailure<Seq<char>>)
    ensures
        refusal_bytes(q, f).len() > 0,
        q is Socks5 || q is PlainSocks5 ==> refusal_bytes(q, f).len() == 10 && refusal_bytes(
            q,
            f,
        )[0] == 0x05 && refusal_bytes(q, f)[1] != 0,
        q is Socks4 ==> refusal_bytes(q, f).len() == 8 && refusal_bytes(q, f)[1]
            == socks4::REJECTED,
{
    crate::text::encoding_is_not_shorter(http::failure_reply());
    reveal_strlit(
        "HTTP/1.1 502 Bad Gateway\r\nContent-Length: 0\r\nConnection: close\r\n\r\n",
    );
}

/// Law: a request by CONNECT leads to an answer to the client and nothing to the destination;
/// any other HTTP request to the reverse.
pub proof fn http_greeting_goes_one_way(
    request: HttpRequest<Vec<u8>, String>,
    local: Option<(IpAddr, u16)>,
)
    ensures
        http::asks_for_tunnel(request@.method) ==> greeting_of(
            ClientRequest::Http(request),
            local,
        ).to_target.len() == 0,
        !http::asks_for_tunnel(request@.method) ==> greeting_of(
            ClientRequest::Http(request),
            local,
        ).to_client.len() == 0,
{
}

/// Law: what the handshake shows of a connection does not touch what is known of its source, its
/// start, its program and its counters.
pub proof fn establishing_keeps_the_rest(
    e: connection_tracker::InfoView,
    h: HandshakeResult<Seq<u8>, Seq<char>>,
)
    ensures
        established_info(e, h).id == e.id,
        established_info(e, h).source_ip == e.source_ip,
        established_info(e, h).start_time == e.start_time,
        established_info(e, h).exe_name == e.exe_name,
        established_info(e, h).bytes_sent == e.bytes_sent,
        established_info(e, h).bytes_received == e.bytes_received,
{
}

/// Law: a client is told why its destination was not reached, in its own protocol. On the shared
/// port a SOCKS5 client gets code 1 where the proxy failed, 5 where the destination refused, 6
/// where it took too long and 4 otherwise; on a port of its own always 5. A SOCKS4 client gets a
/// rejection, and an HTTP client an answer with status 502.
pub proof fn refusals_tell_why(q: ClientRequest, f: ConnectFailure<Seq<char>>)
    ensures
        q is Socks5 ==> refusal_bytes(q, f) == seq![
            5u8,
            match f {
                ConnectFailure::Proxy(_) => 1u8,
                ConnectFailure::Unreachable(_) => 4u8,
                ConnectFailure::Refused(_) => 5u8,
                ConnectFailure::TimedOut => 6u8,
            },
            0u8,
            1u8,
            0u8,
            0u8,
            0u8,
            0u8,
            0u8,
            0u8,
        ],
        q is PlainSocks5 ==> refusal_bytes(q, f) == seq![
            5u8,
            5u8,
            0u8,
            1u8,
            0u8,
            0u8,
            0u8,
            0u8,
            0u8,
            0u8,
        ],
        q is Socks4 ==> refusal_bytes(q, f) == seq![0u8, 91u8, 0u8, 0u8, 0u8, 0u8, 0u8, 0u8],
        q is Http ==> refusal_bytes(q, f) == vstd::utf8::encode_utf8(
            "HTTP/1.1 502 Bad Gateway\r\nContent-Length: 0\r\nConnection: close\r\n\r\n"@,
        ),
{
    if q is Socks5 {
        socks5::replies_have_their_form(IpAddr::V4([0, 0, 0, 0]), 0, failure_code(f));
    }
    if q is PlainSocks5 {
        socks5::replies_have_their_form(IpAddr::V4([0, 0, 0, 0]), 0, 5);
    }
    socks4::heads_are_read_as_they_stand(1, 0, 0, [0, 0, 0, 0]);
}

/// Law: the message of a failure is that of what failed.
pub proof fn failures_carry_their_message(message: Seq<char>)
    ensures
        failure_text(ConnectFailure::Proxy(message)) == message,
        failure_text(ConnectFailure::Refused(message)) == message,
        failure_text(ConnectFailure::Unreachable(message)) == message,
        failure_text(ConnectFailure::TimedOut) == "Connection timed out"@,
{
}

/// Law: once its destination is reached, a SOCKS client is told so and its destination is sent
/// nothing: SOCKS5 with success and the address of the connection on the shared port, and with
/// zeros on a port of its own; SOCKS4 with a grant. With HTTP it is as the request asks.
pub proof fn greetings_tell_of_success(
    q: ClientRequest,
    local: Option<(IpAddr, u16)>,
    request: HttpRequest<Vec<u8>, String>,
)
    ensures
        q is Socks5 ==> greeting_of(q, local).to_client == socks5::success_reply_bytes(local)
            && greeting_of(q, local).to_client[1] == 0 && greeting_of(q, local).to_target.len()
            == 0,
        q is PlainSocks5 ==> greeting_of(q, local).to_client == seq![
            5u8,
            0u8,
            0u8,
            1u8,
            0u8,
            0u8,
            0u8,
            0u8,
            0u8,
            0u8,
        ] && greeting_of(q, local).to_target.len() == 0,
        q is Socks4 ==> greeting_of(q, local).to_client == seq![
            0u8,
            90u8,
            0u8,
            0u8,
            0u8,
            0u8,
            0u8,
            0u8,
        ] && greeting_of(q, local).to_target.len() == 0,
        http::asks_for_tunnel(request@.method) ==> greeting_of(
            ClientRequest::Http(request),
            local,
        ).to_client == vstd::utf8::encode_utf8("HTTP/1.1 200 Connection Established\r\n\r\n"@),
        !http::asks_for_tunnel(request@.method) ==> greeting_of(
            ClientRequest::Http(request),
            local,
        ).to_target == http::forwarded_head(request@, http::uri_syntax(request@.uri)),
{
    socks5::replies_have_their_form(IpAddr::V4([0, 0, 0, 0]), 0, 5);
    socks4::heads_are_read_as_they_stand(1, 0, 0, [0, 0, 0, 0]);
}

/// Law: what a handshake comes to is what was asked for and how it was reached: the host and port
/// of the request, the way, the bytes that follow, and the protocol, which tells a name from an
/// address with SOCKS.
pub proof fn handshakes_are_summed_up(
    q: ClientRequest,
    d: Destination<Seq<char>>,
    route: Route<proxy_client::ProxyView>,
    leftover: Seq<u8>,
)
    ensures
        ({
            let h = handshake_of(q, d, route, leftover);
            &&& h.host == d.host && h.port == d.port && h.leftover == leftover
            &&& h.is_direct <==> route is Direct
            &&& h.proxy_desc == rules::route_text(route)
            &&& q is Http <==> h.protocol is Http
            &&& q is Socks5 || q is PlainSocks5 ==> h.protocol == (if d.resolve_hostname {
                Protocol::Socks5h
            } else {
                Protocol::Socks5
            })
            &&& q matches ClientRequest::Socks4 { is_socks4a } ==> h.protocol == (if is_socks4a {
                Protocol::Socks4a
            } else {
                Protocol::Socks4
            })
        }),
{
}

/// Law: the traffic window shows of a connection that was accepted where it comes from, and of one
/// that stands its protocol, where it goes and which way; of one that ended, how.
pub proof fn window_follows_the_connection(
    id: u64,
    peer: SocketAddr,
    start_time: Seq<char>,
    bytes_sent: Arc<AtomicU64>,
    bytes_received: Arc<AtomicU64>,
    e: connection_tracker::InfoView,
    h: HandshakeResult<Seq<u8>, Seq<char>>,
    message: String,
)
    ensures
        ({
            let a = accepted_info(id, peer, start_time, bytes_sent, bytes_received);
            &&& a.id == id && a.source_ip == crate::config::socket_text(peer)
            &&& a.outbound_target == "resolving..."@ && a.proxy_protocol == "detecting..."@
            &&& a.status is Connecting && a.closed_at is None
            &&& a.bytes_sent == bytes_sent && a.bytes_received == bytes_received
        }),
        ({
            let s = established_info(e, h);
            &&& s.status is Connected && s.closed_at == e.closed_at
            &&& s.outbound_target == h.host + seq![':'] + crate::text::decimal(h.port as nat)
            &&& s.proxy == h.proxy_desc && s.proxy_protocol == h.protocol.name()
        }),
        end_status(ConnectionEnd::Closed) is Closed,
        end_status(ConnectionEnd::Failed(message)) == connection_tracker::StatusView::Error(
            message@,
        ),
        end_status(ConnectionEnd::HandshakeTimedOut) == connection_tracker::StatusView::Error(
            "Handshake timed out"@,
        ),
{
    reveal_strlit(":");
    assert(":"@ =~= seq![':']);
}

/// Law: a handshake may take ten seconds, and 1024 connections are served at a time.
pub proof fn server_limits()
    ensures
        HANDSHAKE_TIMEOUT_SECS == 10,
        MAX_CONNECTIONS == 1024,
{
}

} // verus!
