//! What the handshakes with clients have in common.

use crate::net::IpAddr;
use crate::text;
use crate::text::push_decimal;
use vstd::prelude::*;
use vstd::string::*;

verus! {

/// The destination that a client asks for.
#[derive(Debug)]
pub struct Destination<T> {
    pub host: T,
    pub port: u16,
    /// Whether the host is a name that is still to be resolved.
    pub resolve_hostname: bool,
    /// The address, where the client gave one.
    pub ip: Option<IpAddr>,
}

impl View for Destination<String> {
    type V = Destination<Seq<char>>;

    open spec fn view(&self) -> Destination<Seq<char>> {
        Destination {
            host: self.host@,
            port: self.port,
            resolve_hostname: self.resolve_hostname,
            ip: self.ip,
        }
    }
}

/// Why a handshake with a client failed.
#[derive(Debug)]
pub enum InboundError<T> {
    /// The version is not the one of SOCKS5.
    UnsupportedVersion(u8),
    /// A SOCKS5 client offers no method.
    BadMethodCount,
    /// A SOCKS5 client offers no method that is served.
    NoAcceptableMethod,
    /// A SOCKS5 request has another version.
    BadRequestVersion,
    /// A SOCKS5 command that is not served.
    UnsupportedCommand(u8),
    /// A SOCKS5 domain name is too short or too long.
    BadNameLength,
    /// A SOCKS5 address type that is not served.
    UnsupportedAddressType(u8),
    /// A command that is not served, on a port for SOCKS5 alone.
    PlainUnsupportedCommand(u8),
    /// An address type that is not served, on a port for SOCKS5 alone.
    PlainUnsupportedAddressType(u8),
    /// A SOCKS4 command that is not served.
    UnsupportedSocks4Command(u8),
    /// SOCKS4 data has no end.
    Socks4TooLong,
    /// The client closed the connection in a SOCKS4 handshake.
    Socks4Closed,
    /// The SOCKS4 user is too long: this many bytes.
    UserIdTooLong(usize),
    /// The SOCKS4a domain name is too long: this many bytes.
    DomainTooLong(usize),
    /// HTTP headers have no end.
    HeadersTooLong,
    /// The client closed the connection within its HTTP headers.
    HeadersClosed,
    /// The HTTP headers hold no line.
    InvalidHeaders,
    /// The HTTP request line has fewer than two words.
    InvalidRequestLine(T),
    /// The destination of a CONNECT starts with a bracket and has no closing one.
    InvalidIpv6Uri(T),
    /// The URI of a request is none.
    InvalidUri(T),
    /// The URI of a request names no host.
    MissingHost,
    /// The handshake did not end in time.
    TimedOut,
}

impl View for InboundError<String> {
    type V = InboundError<Seq<char>>;

    open spec fn view(&self) -> InboundError<Seq<char>> {
        match self {
            InboundError::UnsupportedVersion(v) => InboundError::UnsupportedVersion(*v),
            InboundError::BadMethodCount => InboundError::BadMethodCount,
            InboundError::NoAcceptableMethod => InboundError::NoAcceptableMethod,
            InboundError::BadRequestVersion => InboundError::BadRequestVersion,
            InboundError::UnsupportedCommand(c) => InboundError::UnsupportedCommand(*c),
            InboundError::BadNameLength => InboundError::BadNameLength,
            InboundError::UnsupportedAddressType(a) => InboundError::UnsupportedAddressType(*a),
            InboundError::PlainUnsupportedCommand(c) => InboundError::PlainUnsupportedCommand(*c),
            InboundError::PlainUnsupportedAddressType(a) => {
                InboundError::PlainUnsupportedAddressType(*a)
            },
            InboundError::UnsupportedSocks4Command(c) => InboundError::UnsupportedSocks4Command(*c),
            InboundError::Socks4TooLong => InboundError::Socks4TooLong,
            InboundError::Socks4Closed => InboundError::Socks4Closed,
            InboundError::UserIdTooLong(n) => InboundError::UserIdTooLong(*n),
            InboundError::DomainTooLong(n) => InboundError::DomainTooLong(*n),
            InboundError::HeadersTooLong => InboundError::HeadersTooLong,
            InboundError::HeadersClosed => InboundError::HeadersClosed,
            InboundError::InvalidHeaders => InboundError::InvalidHeaders,
            InboundError::InvalidRequestLine(t) => InboundError::InvalidRequestLine(t@),
            InboundError::InvalidIpv6Uri(t) => InboundError::InvalidIpv6Uri(t@),
            InboundError::InvalidUri(t) => InboundError::InvalidUri(t@),
            InboundError::MissingHost => InboundError::MissingHost,
            InboundError::TimedOut => InboundError::TimedOut,
        }
    }
}

/// The message of an inbound error.
pub open spec fn inbound_error_text(e: InboundError<Seq<char>>) -> Seq<char> {
    match e {
        InboundError::UnsupportedVersion(v) => "Unsupported SOCKS version: "@ + text::decimal(
            v as nat,
        ),
        InboundError::BadMethodCount => "SOCKS5 nmethods must be between 1 and 255"@,
        InboundError::NoAcceptableMethod => "No acceptable authentication method"@,
        InboundError::BadRequestVersion => "Invalid SOCKS5 version in request"@,
        InboundError::UnsupportedCommand(c) => "Unsupported SOCKS5 command: "@ + text::decimal(
            c as nat,
        ),
        InboundError::BadNameLength => "SOCKS5 domain name length must be between 1 and 253"@,
        InboundError::UnsupportedAddressType(a) => "Unsupported SOCKS5 address type: "@
            + text::decimal(a as nat),
        InboundError::PlainUnsupportedCommand(c) => "Unsupported command: "@ + text::decimal(
            c as nat,
        ),
        InboundError::PlainUnsupportedAddressType(a) => "Unsupported address type: "@
            + text::decimal(a as nat),
        InboundError::UnsupportedSocks4Command(c) => "Unsupported SOCKS4 command: "@
            + text::decimal(c as nat),
        InboundError::Socks4TooLong => "SOCKS4 handshake data too long"@,
        InboundError::Socks4Closed => "Connection closed during SOCKS4 handshake"@,
        InboundError::UserIdTooLong(n) => "SOCKS4: User ID too long ("@ + text::decimal(n as nat)
            + " bytes)"@,
        InboundError::DomainTooLong(n) => "SOCKS4a: domain name too long ("@ + text::decimal(
            n as nat,
        ) + " bytes)"@,
        InboundError::HeadersTooLong => "HTTP headers too long"@,
        InboundError::HeadersClosed => "Connection closed while reading HTTP headers"@,
        InboundError::InvalidHeaders => "Invalid HTTP request headers"@,
        InboundError::InvalidRequestLine(t) => "Invalid HTTP request line: "@ + t,
        InboundError::InvalidIpv6Uri(t) => "Invalid IPv6 CONNECT URI: "@ + t,
        InboundError::InvalidUri(t) => "Failed to parse URI: "@ + t,
        InboundError::MissingHost => "Missing host in HTTP URI"@,
        InboundError::TimedOut => "Handshake timed out"@,
    }
}

fn with_number(head: &str, n: u64, tail: &str) -> (r: String)
    ensures
        r@ == head@ + text::decimal(n as nat) + tail@,
{
    let mut out = head.to_string();
    push_decimal(&mut out, n);
    out.append(tail);
    out
}

fn with_last_number(head: &str, n: u64) -> (r: String)
    ensures
        r@ == head@ + text::decimal(n as nat),
{
    let mut out = head.to_string();
    push_decimal(&mut out, n);
    out
}

impl InboundError<String> {
    /// The message of the error.
    pub fn message(&self) -> (r: String)
        ensures
            r@ == inbound_error_text(self@),
    {
        match self {
            InboundError::UnsupportedVersion(v) => {
                with_last_number("Unsupported SOCKS version: ", *v as u64)
            },
            InboundError::BadMethodCount => "SOCKS5 nmethods must be between 1 and 255".to_string(),
            InboundError::NoAcceptableMethod => "No acceptable authentication method".to_string(),
            InboundError::BadRequestVersion => "Invalid SOCKS5 version in request".to_string(),
            InboundError::UnsupportedCommand(c) => {
                with_last_number("Unsupported SOCKS5 command: ", *c as u64)
            },
            InboundError::BadNameLength => {
                "SOCKS5 domain name length must be between 1 and 253".to_string()
            },
            InboundError::UnsupportedAddressType(a) => {
                with_last_number("Unsupported SOCKS5 address type: ", *a as u64)
            },
            InboundError::PlainUnsupportedCommand(c) => {
                with_last_number("Unsupported command: ", *c as u64)
            },
            InboundError::PlainUnsupportedAddressType(a) => {
                with_last_number("Unsupported address type: ", *a as u64)
            },
            InboundError::UnsupportedSocks4Command(c) => {
                with_last_number("Unsupported SOCKS4 command: ", *c as u64)
            },
            InboundError::Socks4TooLong => "SOCKS4 handshake data too long".to_string(),
            InboundError::Socks4Closed => "Connection closed during SOCKS4 handshake".to_string(),
            InboundError::UserIdTooLong(n) => {
                with_number("SOCKS4: User ID too long (", *n as u64, " bytes)")
            },
            InboundError::DomainTooLong(n) => {
                with_number("SOCKS4a: domain name too long (", *n as u64, " bytes)")
            },
            InboundError::HeadersTooLong => "HTTP headers too long".to_string(),
            InboundError::HeadersClosed => {
                "Connection closed while reading HTTP headers".to_string()
            },
            InboundError::InvalidHeaders => "Invalid HTTP request headers".to_string(),
            InboundError::InvalidRequestLine(t) => {
                "Invalid HTTP request line: ".to_string().concat(t.as_str())
            },
            InboundError::InvalidIpv6Uri(t) => {
                "Invalid IPv6 CONNECT URI: ".to_string().concat(t.as_str())
            },
            InboundError::InvalidUri(t) => "Failed to parse URI: ".to_string().concat(t.as_str()),
            InboundError::MissingHost => "Missing host in HTTP URI".to_string(),
            InboundError::TimedOut => "Handshake timed out".to_string(),
        }
    }
}

/// The protocols that a client may speak.
#[derive(Clone, Copy, Debug, PartialEq, Eq, Structural)]
pub enum InboundProtocol {
    Socks5,
    Socks4,
    Http,
}

/// The protocol that the first byte of a connection announces: a SOCKS version, or else HTTP.
pub open spec fn announced_protocol(first_byte: u8) -> InboundProtocol {
    if first_byte == 0x05 {
        InboundProtocol::Socks5
    } else if first_byte == 0x04 {
        InboundProtocol::Socks4
    } else {
        InboundProtocol::Http
    }
}

/// Tells the protocol of a connection from its first byte.
pub fn detect_protocol(first_byte: u8) -> (r: InboundProtocol)
    ensures
        r == announced_protocol(first_byte),
{
    if first_byte == 0x05 {
        InboundProtocol::Socks5
    } else if first_byte == 0x04 {
        InboundProtocol::Socks4
    } else {
        InboundProtocol::Http
    }
}

/// Law: a connection that starts with 5 is SOCKS5, one that starts with 4 is SOCKS4, and every
/// other one is HTTP.
pub proof fn first_byte_tells_the_protocol(b: u8)
    ensures
        announced_protocol(b) is Socks5 <==> b == 5,
        announced_protocol(b) is Socks4 <==> b == 4,
        announced_protocol(b) is Http <==> b != 4 && b != 5,
{
}

/// Law: a message about a number or a text that a client sent shows it, behind what it is.
pub proof fn messages_show_what_was_sent(n: u8, len: usize, t: Seq<char>)
    ensures
        inbound_error_text(InboundError::UnsupportedVersion(n)) == "Unsupported SOCKS version: "@
            + text::decimal(n as nat),
        inbound_error_text(InboundError::UnsupportedCommand(n)) == "Unsupported SOCKS5 command: "@
            + text::decimal(n as nat),
        inbound_error_text(InboundError::UnsupportedAddressType(n))
            == "Unsupported SOCKS5 address type: "@ + text::decimal(n as nat),
        inbound_error_text(InboundError::PlainUnsupportedCommand(n)) == "Unsupported command: "@
            + text::decimal(n as nat),
        inbound_error_text(InboundError::PlainUnsupportedAddressType(n))
            == "Unsupported address type: "@ + text::decimal(n as nat),
        inbound_error_text(InboundError::UnsupportedSocks4Command(n))
            == "Unsupported SOCKS4 command: "@ + text::decimal(n as nat),
        inbound_error_text(InboundError::UserIdTooLong(len)) == "SOCKS4: User ID too long ("@
            + text::decimal(len as nat) + " bytes)"@,
        inbound_error_text(InboundError::DomainTooLong(len)) == "SOCKS4a: domain name too long ("@
            + text::decimal(len as nat) + " bytes)"@,
        inbound_error_text(InboundError::InvalidRequestLine(t)) == "Invalid HTTP request line: "@
            + t,
        inbound_error_text(InboundError::InvalidIpv6Uri(t)) == "Invalid IPv6 CONNECT URI: "@ + t,
        inbound_error_text(InboundError::InvalidUri(t)) == "Failed to parse URI: "@ + t,
{
}

/// Law: every other message has one text, whatever was sent.
pub proof fn messages_without_a_value(e: InboundError<Seq<char>>)
    ensures
        e is BadMethodCount ==> inbound_error_text(e)
            == "SOCKS5 nmethods must be between 1 and 255"@,
        e is NoAcceptableMethod ==> inbound_error_text(e)
            == "No acceptable authentication method"@,
        e is BadRequestVersion ==> inbound_error_text(e) == "Invalid SOCKS5 version in request"@,
        e is BadNameLength ==> inbound_error_text(e)
            == "SOCKS5 domain name length must be between 1 and 253"@,
        e is Socks4TooLong ==> inbound_error_text(e) == "SOCKS4 handshake data too long"@,
        e is Socks4Closed ==> inbound_error_text(e)
            == "Connection closed during SOCKS4 handshake"@,
        e is HeadersTooLong ==> inbound_error_text(e) == "HTTP headers too long"@,
        e is HeadersClosed ==> inbound_error_text(e)
            == "Connection closed while reading HTTP headers"@,
        e is InvalidHeaders ==> inbound_error_text(e) == "Invalid HTTP request headers"@,
        e is MissingHost ==> inbound_error_text(e) == "Missing host in HTTP URI"@,
        e is TimedOut ==> inbound_error_text(e) == "Handshake timed out"@,
{
}

} // verus!
