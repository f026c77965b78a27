//! Upstream proxies: their URLs and the client side of the handshakes with them.

use crate::buffer;
use crate::buffer::{buf_to_vec, buf_with_capacity, put_slice, put_u16, put_u8};
use crate::net;
use crate::net::{parse_ip, IpAddr};
use crate::text;
use crate::text::{
    char_range, contains_text, decode_lossy, find_first, from_chars, has_prefix, push_decimal,
    take_first_line, to_chars, trim_chars, TrimSet,
};
use vstd::prelude::*;
use vstd::string::*;

verus! {

/// How an upstream proxy is spoken to.
#[derive(Clone, Copy, Debug, PartialEq, Eq, Structural)]
pub enum ProxyType {
    Socks5,
    Socks5h,
    Http,
}

impl ProxyType {
    /// The scheme of the proxy's URL.
    pub open spec fn scheme(self) -> Seq<char> {
        match self {
            ProxyType::Socks5 => "socks5"@,
            ProxyType::Socks5h => "socks5h"@,
            ProxyType::Http => "http"@,
        }
    }

    /// The scheme of the proxy's URL.
    pub fn name(&self) -> (r: &'static str)
        ensures
            r@ == self.scheme(),
    {
        match self {
            ProxyType::Socks5 => "socks5",
            ProxyType::Socks5h => "socks5h",
            ProxyType::Http => "http",
        }
    }
}

/// An upstream proxy: its protocol and its address, which names a port.
#[derive(Debug)]
pub struct ProxyConfig {
    pub proxy_type: ProxyType,
    pub addr: String,
}

/// The model of an upstream proxy.
pub struct ProxyView {
    pub proxy_type: ProxyType,
    pub addr: Seq<char>,
}

impl View for ProxyConfig {
    type V = ProxyView;

    open spec fn view(&self) -> ProxyView {
        ProxyView { proxy_type: self.proxy_type, addr: self.addr@ }
    }
}

impl Clone for ProxyConfig {
    fn clone(&self) -> (r: ProxyConfig)
        ensures
            r@ == self@,
    {
        ProxyConfig { proxy_type: self.proxy_type, addr: self.addr.clone() }
    }
}

/// Why a text is no proxy URL.
#[derive(Clone, Debug)]
pub enum UrlError<T> {
    /// The scheme is none of the supported ones; holds the cleaned URL.
    Unsupported(T),
    /// The address names no port; holds the address.
    MissingPort(T),
}

impl View for UrlError<String> {
    type V = UrlError<Seq<char>>;

    open spec fn view(&self) -> UrlError<Seq<char>> {
        match self {
            UrlError::Unsupported(t) => UrlError::Unsupported(t@),
            UrlError::MissingPort(t) => UrlError::MissingPort(t@),
        }
    }
}

/// The message of a URL error.
pub open spec fn url_error_text(e: UrlError<Seq<char>>) -> Seq<char> {
    match e {
        UrlError::Unsupported(t) => "Unsupported proxy URL: "@ + t,
        UrlError::MissingPort(t) => "Proxy address must include a port: "@ + t,
    }
}

impl UrlError<String> {
    /// The message of the error.
    pub fn message(&self) -> (r: String)
        ensures
            r@ == url_error_text(self@),
    {
        match self {
            UrlError::Unsupported(t) => {
                "Unsupported proxy URL: ".to_string().concat(t.as_str())
            },
            UrlError::MissingPort(t) => {
                "Proxy address must include a port: ".to_string().concat(t.as_str())
            },
        }
    }
}

/// A URL without surrounding white space, then without surrounding backquotes, then without
/// surrounding double quotes.
pub open spec fn clean_url(url: Seq<char>) -> Seq<char> {
    text::trim(
        text::trim(text::trim(url, TrimSet::Whitespace), TrimSet::Only('`')),
        TrimSet::Only('"'),
    )
}

/// The protocol that a cleaned URL names, and the length of its scheme part.
pub open spec fn url_scheme(url: Seq<char>) -> Option<(ProxyType, int)> {
    if text::starts_with(url, "socks5h://"@) {
        Some((ProxyType::Socks5h, 10))
    } else if text::starts_with(url, "socks5://"@) {
        Some((ProxyType::Socks5, 9))
    } else if text::starts_with(url, "http://"@) {
        Some((ProxyType::Http, 7))
    } else {
        None
    }
}

/// The proxy that a URL denotes.
pub open spec fn proxy_of_url(url: Seq<char>) -> Result<ProxyView, UrlError<Seq<char>>> {
    let cleaned = clean_url(url);
    match url_scheme(cleaned) {
        None => Err(UrlError::Unsupported(cleaned)),
        Some((proxy_type, len)) => {
            let addr = cleaned.skip(len);
            if addr.contains(':') {
                Ok(ProxyView { proxy_type, addr })
            } else {
                Err(UrlError::MissingPort(addr))
            }
        },
    }
}

/// The URL of a proxy.
pub open spec fn url_of_proxy(p: ProxyView) -> Seq<char> {
    p.proxy_type.scheme() + "://"@ + p.addr
}

impl ProxyConfig {
    /// Reads the URL of an upstream proxy.
    pub fn from_url(url: &str) -> (r: Result<ProxyConfig, UrlError<String>>)
        ensures
            match r {
                Ok(p) => proxy_of_url(url@) == Ok::<ProxyView, UrlError<Seq<char>>>(p@),
                Err(e) => proxy_of_url(url@) == Err::<ProxyView, UrlError<Seq<char>>>(e@),
            },
    {
        let raw = to_chars(url);
        let spaced = trim_chars(&raw, TrimSet::Whitespace);
        let ticked = trim_chars(&spaced, TrimSet::Only('`'));
        let cleaned = trim_chars(&ticked, TrimSet::Only('"'));
        proof {
            reveal_strlit("socks5h://");
            reveal_strlit("socks5://");
            reveal_strlit("http://");
        }
        let proxy_type: ProxyType;
        let start: usize;
        if has_prefix(&cleaned, "socks5h://") {
            proxy_type = ProxyType::Socks5h;
            start = 10;
        } else if has_prefix(&cleaned, "socks5://") {
            proxy_type = ProxyType::Socks5;
            start = 9;
        } else if has_prefix(&cleaned, "http://") {
            proxy_type = ProxyType::Http;
            start = 7;
        } else {
            return Err(UrlError::Unsupported(from_chars(&cleaned)));
        }
        let rest = char_range(&cleaned, start, cleaned.len());
        assert(rest@ =~= cleaned@.skip(start as int));
        proof {
            text::first_index_is_least(rest@, ':');
        }
        if find_first(&rest, ':').is_none() {
            return Err(UrlError::MissingPort(from_chars(&rest)));
        }
        Ok(ProxyConfig { proxy_type, addr: from_chars(&rest) })
    }

    /// The URL of the proxy.
    pub fn url(&self) -> (r: String)
        ensures
            r@ == url_of_proxy(self@),
    {
        let mut out = self.proxy_type.name().to_string();
        out.append("://");
        out.append(self.addr.as_str());
        out
    }
}

// ---------------------------------------------------------------------------
// Errors of the client side
// ---------------------------------------------------------------------------

/// Why no connection through a proxy came about.
#[derive(Clone, Debug)]
pub enum ClientError<T> {
    /// The proxy at the address did not accept in time.
    ConnectTimeout(T),
    /// The proxy at the address could not be reached.
    ConnectFailed(T),
    /// The proxy did not finish the handshake in time.
    HandshakeTimeout,
    /// The first answer has this version.
    InvalidVersion(u8),
    /// The proxy asks for authentication.
    AuthenticationFailed,
    /// The host name does not fit a request.
    HostnameTooLong,
    /// The proxy takes addresses alone, and the host is a name.
    NeedsAddress(T),
    /// The answer to the request has another version.
    InvalidReplyVersion,
    /// The proxy refused with this code.
    Refused(u8),
    /// The answer holds an address of this unknown type.
    InvalidAddressType(u8),
    /// The HTTP answer has no end.
    ResponseTooLong,
    /// The HTTP answer has this status line.
    ConnectRejected(T),
}

impl View for ClientError<String> {
    type V = ClientError<Seq<char>>;

    open spec fn view(&self) -> ClientError<Seq<char>> {
        match self {
            ClientError::ConnectTimeout(t) => ClientError::ConnectTimeout(t@),
            ClientError::ConnectFailed(t) => ClientError::ConnectFailed(t@),
            ClientError::HandshakeTimeout => ClientError::HandshakeTimeout,
            ClientError::InvalidVersion(v) => ClientError::InvalidVersion(*v),
            ClientError::AuthenticationFailed => ClientError::AuthenticationFailed,
            ClientError::HostnameTooLong => ClientError::HostnameTooLong,
            ClientError::NeedsAddress(t) => ClientError::NeedsAddress(t@),
            ClientError::InvalidReplyVersion => ClientError::InvalidReplyVersion,
            ClientError::Refused(code) => ClientError::Refused(*code),
            ClientError::InvalidAddressType(a) => ClientError::InvalidAddressType(*a),
            ClientError::ResponseTooLong => ClientError::ResponseTooLong,
            ClientError::ConnectRejected(t) => ClientError::ConnectRejected(t@),
        }
    }
}

/// The meaning of a SOCKS5 reply code.
pub open spec fn socks5_error(code: u8) -> Seq<char> {
    if code == 0x00 {
        "succeeded"@
    } else if code == 0x01 {
        "general SOCKS server failure"@
    } else if code == 0x02 {
        "connection not allowed by ruleset"@
    } else if code == 0x03 {
        "Network unreachable"@
    } else if code == 0x04 {
        "Host unreachable"@
    } else if code == 0x05 {
        "Connection refused"@
    } else if code == 0x06 {
        "TTL expired"@
    } else if code == 0x07 {
        "Command not supported"@
    } else if code == 0x08 {
        "Address type not supported"@
    } else {
        "unknown error"@
    }
}

/// The meaning of a SOCKS5 reply code.
pub fn get_socks5_error(code: u8) -> (r: &'static str)
    ensures
        r@ == socks5_error(code),
{
    match code {
        0x00 => "succeeded",
        0x01 => "general SOCKS server failure",
        0x02 => "connection not allowed by ruleset",
        0x03 => "Network unreachable",
        0x04 => "Host unreachable",
        0x05 => "Connection refused",
        0x06 => "TTL expired",
        0x07 => "Command not supported",
        0x08 => "Address type not supported",
        _ => "unknown error",
    }
}

/// The message of a client error.
pub open spec fn client_error_text(e: ClientError<Seq<char>>) -> Seq<char> {
    match e {
        ClientError::ConnectTimeout(addr) => "Proxy connection timed out: "@ + addr,
        ClientError::ConnectFailed(addr) => "Failed to connect to proxy "@ + addr,
        ClientError::HandshakeTimeout => "Handshake with proxy timed out"@,
        ClientError::InvalidVersion(v) => "Invalid SOCKS5 version: "@ + text::decimal(v as nat),
        ClientError::AuthenticationFailed =>
            "SOCKS5 authentication failed, only 'NO AUTHENTICATION' is supported"@,
        ClientError::HostnameTooLong => "Hostname too long"@,
        ClientError::NeedsAddress(host) => "Hostname "@ + host
            + " found but upstream proxy requires an IP address (standard SOCKS5) and local resolution failed or was disabled"@,
        ClientError::InvalidReplyVersion => "Invalid SOCKS5 version in connect response"@,
        ClientError::Refused(code) => "SOCKS5 connect failed with code: "@ + text::decimal(
            code as nat,
        ) + " ("@ + socks5_error(code) + ")"@,
        ClientError::InvalidAddressType(a) => "Invalid ATYP in SOCKS5 response: "@ + text::decimal(
            a as nat,
        ),
        ClientError::ResponseTooLong => "HTTP CONNECT response headers too long"@,
        ClientError::ConnectRejected(status) => "HTTP CONNECT failed: "@ + status,
    }
}

impl ClientError<String> {
    /// The message of the error.
    pub fn message(&self) -> (r: String)
        ensures
            r@ == client_error_text(self@),
    {
        match self {
            ClientError::ConnectTimeout(addr) => {
                "Proxy connection timed out: ".to_string().concat(addr.as_str())
            },
            ClientError::ConnectFailed(addr) => {
                "Failed to connect to proxy ".to_string().concat(addr.as_str())
            },
            ClientError::HandshakeTimeout => "Handshake with proxy timed out".to_string(),
            ClientError::InvalidVersion(v) => {
                let mut out = "Invalid SOCKS5 version: ".to_string();
                push_decimal(&mut out, *v as u64);
                out
            },
            ClientError::AuthenticationFailed => {
                "SOCKS5 authentication failed, only 'NO AUTHENTICATION' is supported".to_string()
            },
            ClientError::HostnameTooLong => "Hostname too long".to_string(),
            ClientError::NeedsAddress(host) => {
                let mut out = "Hostname ".to_string();
                out.append(host.as_str());
                out.append(
                    " found but upstream proxy requires an IP address (standard SOCKS5) and local resolution failed or was disabled",
                );
                out
            },
            ClientError::InvalidReplyVersion => {
                "Invalid SOCKS5 version in connect response".to_string()
            },
            ClientError::Refused(code) => {
                let mut out = "SOCKS5 connect failed with code: ".to_string();
                push_decimal(&mut out, *code as u64);
                out.append(" (");
                out.append(get_socks5_error(*code));
                out.append(")");
                out
            },
            ClientError::InvalidAddressType(a) => {
                let mut out = "Invalid ATYP in SOCKS5 response: ".to_string();
                push_decimal(&mut out, *a as u64);
                out
            },
            ClientError::ResponseTooLong => "HTTP CONNECT response headers too long".to_string(),
            ClientError::ConnectRejected(status) => {
                "HTTP CONNECT failed: ".to_string().concat(status.as_str())
            },
        }
    }
}

// ---------------------------------------------------------------------------
// The SOCKS5 client
// ---------------------------------------------------------------------------

/// The first message of a SOCKS5 client: no authentication is the one method offered.
pub open spec fn greeting() -> Seq<u8> {
    seq![0x05u8, 0x01u8, 0x00u8]
}

/// The request of a SOCKS5 client for a host, given the address that the host denotes, if any.
/// The proxy is asked to resolve a name where it does so.
pub open spec fn request_bytes(
    host: Seq<char>,
    ip: Option<IpAddr>,
    port: u16,
    remote_dns: bool,
) -> Result<Seq<u8>, ClientError<Seq<char>>> {
    match ip {
        Some(IpAddr::V4(o)) => Ok(
            seq![0x05u8, 0x01u8, 0x00u8, 0x01u8] + o@ + buffer::be16(port),
        ),
        Some(IpAddr::V6(o)) => Ok(
            seq![0x05u8, 0x01u8, 0x00u8, 0x04u8] + o@ + buffer::be16(port),
        ),
        None => {
            let name = vstd::utf8::encode_utf8(host);
            if !remote_dns {
                Err(ClientError::NeedsAddress(host))
            } else if name.len() > 255 {
                Err(ClientError::HostnameTooLong)
            } else {
                Ok(
                    seq![0x05u8, 0x01u8, 0x00u8, 0x03u8, name.len() as u8] + name + buffer::be16(
                        port,
                    ),
                )
            }
        },
    }
}

/// Builds the request of a SOCKS5 client.
pub fn connect_request(host: &str, ip: Option<IpAddr>, port: u16, remote_dns: bool) -> (r: Result<
    Vec<u8>,
    ClientError<String>,
>)
    ensures
        match r {
            Ok(b) => request_bytes(host@, ip, port, remote_dns) == Ok::<
                Seq<u8>,
                ClientError<Seq<char>>,
            >(b@),
            Err(e) => request_bytes(host@, ip, port, remote_dns) == Err::<
                Seq<u8>,
                ClientError<Seq<char>>,
            >(e@),
        },
{
    let mut request = buf_with_capacity(256);
    put_u8(&mut request, 0x05);
    put_u8(&mut request, 0x01);
    put_u8(&mut request, 0x00);
    let ghost head = seq![0x05u8, 0x01u8, 0x00u8];
    assert(buffer::buf_bytes(request) =~= head);
    match ip {
        Some(IpAddr::V4(octets)) => {
            put_u8(&mut request, 0x01);
            put_slice(&mut request, octets.as_slice());
            put_u16(&mut request, port);
            assert(buffer::buf_bytes(request) =~= seq![0x05u8, 0x01u8, 0x00u8, 0x01u8] + octets@
                + buffer::be16(port));
        },
        Some(IpAddr::V6(octets)) => {
            put_u8(&mut request, 0x04);
            put_slice(&mut request, octets.as_slice());
            put_u16(&mut request, port);
            assert(buffer::buf_bytes(request) =~= seq![0x05u8, 0x01u8, 0x00u8, 0x04u8] + octets@
                + buffer::be16(port));
        },
        None => {
            if !remote_dns {
                return Err(ClientError::NeedsAddress(host.to_string()));
            }
            let name = host.as_bytes();
            if name.len() > 255 {
                return Err(ClientError::HostnameTooLong);
            }
            put_u8(&mut request, 0x03);
            put_u8(&mut request, name.len() as u8);
            put_slice(&mut request, name);
            put_u16(&mut request, port);
            assert(buffer::buf_bytes(request) =~= seq![
                0x05u8,
                0x01u8,
                0x00u8,
                0x03u8,
                name@.len() as u8,
            ] + name@ + buffer::be16(port));
        },
    }
    Ok(buf_to_vec(&request))
}

/// What a SOCKS5 client waits for.
#[derive(Clone, Copy, Debug, PartialEq, Eq, Structural)]
pub enum Socks5Phase {
    /// The method that the proxy selects.
    Method,
    /// The head of the answer to the request.
    Reply,
    /// The length of the bound name.
    BoundLength,
    /// The rest of the bound address, this many bytes.
    Bound(usize),
    /// Nothing more.
    Finished,
}

impl Socks5Phase {
    /// The number of bytes to read next.
    pub open spec fn want(self) -> nat {
        match self {
            Socks5Phase::Method => 2,
            Socks5Phase::Reply => 4,
            Socks5Phase::BoundLength => 1,
            Socks5Phase::Bound(n) => n as nat,
            Socks5Phase::Finished => 0,
        }
    }

    /// The number of phases that are left at most.
    pub open spec fn rank(self) -> nat {
        match self {
            Socks5Phase::Method => 4,
            Socks5Phase::Reply => 3,
            Socks5Phase::BoundLength => 2,
            Socks5Phase::Bound(_) => 1,
            Socks5Phase::Finished => 0,
        }
    }
}

/// What a SOCKS5 client does next.
#[derive(Debug)]
pub enum ClientStep<B, E> {
    /// Send these bytes, then read.
    Send(B),
    /// Read.
    Read,
    /// The proxy has connected.
    Done,
    /// Give up.
    Fail(E),
}

impl View for ClientStep<Vec<u8>, ClientError<String>> {
    type V = ClientStep<Seq<u8>, ClientError<Seq<char>>>;

    open spec fn view(&self) -> ClientStep<Seq<u8>, ClientError<Seq<char>>> {
        match self {
            ClientStep::Send(b) => ClientStep::Send(b@),
            ClientStep::Read => ClientStep::Read,
            ClientStep::Done => ClientStep::Done,
            ClientStep::Fail(e) => ClientStep::Fail(e@),
        }
    }
}

/// The reaction of a SOCKS5 client to the bytes that it waited for, given the request that it is
/// to send.
pub open spec fn client_reaction(
    phase: Socks5Phase,
    request: Result<Seq<u8>, ClientError<Seq<char>>>,
    input: Seq<u8>,
) -> (Socks5Phase, ClientStep<Seq<u8>, ClientError<Seq<char>>>) {
    match phase {
        Socks5Phase::Method => if input[0] != 0x05 {
            (Socks5Phase::Finished, ClientStep::Fail(ClientError::InvalidVersion(input[0])))
        } else if input[1] != 0x00 {
            (Socks5Phase::Finished, ClientStep::Fail(ClientError::AuthenticationFailed))
        } else {
            match request {
                Ok(b) => (Socks5Phase::Reply, ClientStep::Send(b)),
                Err(e) => (Socks5Phase::Finished, ClientStep::Fail(e)),
            }
        },
        Socks5Phase::Reply => if input[0] != 0x05 {
            (Socks5Phase::Finished, ClientStep::Fail(ClientError::InvalidReplyVersion))
        } else if input[1] != 0x00 {
            (Socks5Phase::Finished, ClientStep::Fail(ClientError::Refused(input[1])))
        } else if input[3] == 0x01 {
            (Socks5Phase::Bound(6), ClientStep::Read)
        } else if input[3] == 0x03 {
            (Socks5Phase::BoundLength, ClientStep::Read)
        } else if input[3] == 0x04 {
            (Socks5Phase::Bound(18), ClientStep::Read)
        } else {
            (Socks5Phase::Finished, ClientStep::Fail(ClientError::InvalidAddressType(input[3])))
        },
        Socks5Phase::BoundLength => (
            Socks5Phase::Bound((input[0] + 2) as usize),
            ClientStep::Read,
        ),
        Socks5Phase::Bound(_) => (Socks5Phase::Finished, ClientStep::Done),
        Socks5Phase::Finished => (Socks5Phase::Finished, ClientStep::Done),
    }
}

/// The client side of a SOCKS5 handshake.
#[derive(Debug)]
pub struct Socks5Client {
    pub host: String,
    pub port: u16,
    pub remote_dns: bool,
    pub phase: Socks5Phase,
}

impl Socks5Client {
    /// The request that the client is to send.
    pub open spec fn request(self) -> Result<Seq<u8>, ClientError<Seq<char>>> {
        request_bytes(self.host@, net::ip_syntax(self.host@), self.port, self.remote_dns)
    }

    /// Starts a handshake: hands out the client and its first message.
    pub fn start(host: &str, port: u16, remote_dns: bool) -> (r: (Socks5Client, Vec<u8>))
        ensures
            r.0.host@ == host@,
            r.0.port == port,
            r.0.remote_dns == remote_dns,
            r.0.phase == Socks5Phase::Method,
            r.1@ == greeting(),
    {
        let mut first: Vec<u8> = Vec::new();
        first.push(0x05);
        first.push(0x01);
        first.push(0x00);
        assert(first@ =~= greeting());
        (
            Socks5Client {
                host: host.to_string(),
                port,
                remote_dns,
                phase: Socks5Phase::Method,
            },
            first,
        )
    }

    /// The number of bytes to read next.
    pub fn wanted(&self) -> (r: usize)
        ensures
            r == self.phase.want(),
    {
        match self.phase {
            Socks5Phase::Method => 2,
            Socks5Phase::Reply => 4,
            Socks5Phase::BoundLength => 1,
            Socks5Phase::Bound(n) => n,
            Socks5Phase::Finished => 0,
        }
    }

    /// Takes the bytes that the client waited for.
    pub fn step(&mut self, input: &[u8]) -> (r: ClientStep<Vec<u8>, ClientError<String>>)
        requires
            input@.len() == old(self).phase.want(),
        ensures
            final(self).host == old(self).host,
            final(self).port == old(self).port,
            final(self).remote_dns == old(self).remote_dns,
            (final(self).phase, r@) == client_reaction(
                old(self).phase,
                old(self).request(),
                input@,
            ),
    {
        match self.phase {
            Socks5Phase::Method => {
                if input[0] != 0x05 {
                    self.phase = Socks5Phase::Finished;
                    return ClientStep::Fail(ClientError::InvalidVersion(input[0]));
                }
                if input[1] != 0x00 {
                    self.phase = Socks5Phase::Finished;
                    return ClientStep::Fail(ClientError::AuthenticationFailed);
                }
                let ip = parse_ip(self.host.as_str());
                match connect_request(self.host.as_str(), ip, self.port, self.remote_dns) {
                    Ok(request) => {
                        self.phase = Socks5Phase::Reply;
                        ClientStep::Send(request)
                    },
                    Err(e) => {
                        self.phase = Socks5Phase::Finished;
                        ClientStep::Fail(e)
                    },
                }
            },
            Socks5Phase::Reply => {
                if input[0] != 0x05 {
                    self.phase = Socks5Phase::Finished;
                    return ClientStep::Fail(ClientError::InvalidReplyVersion);
                }
                if input[1] != 0x00 {
                    self.phase = Socks5Phase::Finished;
                    return ClientStep::Fail(ClientError::Refused(input[1]));
                }
                match input[3] {
                    0x01 => {
                        self.phase = Socks5Phase::Bound(6);
                        ClientStep::Read
                    },
                    0x03 => {
                        self.phase = Socks5Phase::BoundLength;
                        ClientStep::Read
                    },
                    0x04 => {
                        self.phase = Socks5Phase::Bound(18);
                        ClientStep::Read
                    },
                    other => {
                        self.phase = Socks5Phase::Finished;
                        ClientStep::Fail(ClientError::InvalidAddressType(other))
                    },
                }
            },
            Socks5Phase::BoundLength => {
                self.phase = Socks5Phase::Bound(input[0] as usize + 2);
                ClientStep::Read
            },
            Socks5Phase::Bound(_) => {
                self.phase = Socks5Phase::Finished;
                ClientStep::Done
            },
            Socks5Phase::Finished => ClientStep::Done,
        }
    }
}

// ---------------------------------------------------------------------------
// The HTTP CONNECT client
// ---------------------------------------------------------------------------

/// The number of answer bytes after which an HTTP CONNECT client gives up.
pub const HTTP_RESPONSE_MAX_LEN: usize = 8192;

/// A host and a port as they stand in an authority.
pub open spec fn authority(host: Seq<char>, port: u16) -> Seq<char> {
    host + ":"@ + text::decimal(port as nat)
}

/// A host and a port as they stand in an authority.
pub fn host_port(host: &str, port: u16) -> (r: String)
    ensures
        r@ == authority(host@, port),
{
    let mut out = host.to_string();
    out.append(":");
    push_decimal(&mut out, port as u64);
    out
}

/// The text of an HTTP CONNECT request.
pub open spec fn connect_head(host: Seq<char>, port: u16) -> Seq<char> {
    "CONNECT "@ + authority(host, port) + " HTTP/1.1\r\nHost: "@ + authority(host, port)
        + "\r\n\r\n"@
}

/// Builds an HTTP CONNECT request.
pub fn http_connect_request(host: &str, port: u16) -> (r: String)
    ensures
        r@ == connect_head(host@, port),
{
    let target = host_port(host, port);
    let mut out = "CONNECT ".to_string();
    out.append(target.as_str());
    out.append(" HTTP/1.1\r\nHost: ");
    out.append(target.as_str());
    out.append("\r\n\r\n");
    out
}

/// Whether bytes end in an empty line.
pub open spec fn ends_in_blank_line(b: Seq<u8>) -> bool {
    &&& b.len() >= 4
    &&& b[b.len() - 4] == 0x0D
    &&& b[b.len() - 3] == 0x0A
    &&& b[b.len() - 2] == 0x0D
    &&& b[b.len() - 1] == 0x0A
}

/// Whether an answer with this text lets the client through: its status line holds ` 200`.
pub open spec fn status_result(answer: Seq<char>) -> Result<(), ClientError<Seq<char>>> {
    let status = text::first_line(answer);
    if text::has_substring(status, " 200"@) {
        Ok(())
    } else {
        Err(ClientError::ConnectRejected(text::trim(status, TrimSet::Whitespace)))
    }
}

/// Judges the text of an answer.
pub fn judge_status(answer: &str) -> (r: Result<(), ClientError<String>>)
    ensures
        match r {
            Ok(_) => status_result(answer@) is Ok,
            Err(e) => status_result(answer@) == Err::<(), ClientError<Seq<char>>>(e@),
        },
{
    let chars = to_chars(answer);
    let status = take_first_line(&chars);
    if contains_text(&status, " 200") {
        Ok(())
    } else {
        let shown = trim_chars(&status, TrimSet::Whitespace);
        Err(ClientError::ConnectRejected(from_chars(&shown)))
    }
}

/// What an HTTP CONNECT client does when it has read these bytes.
pub open spec fn response_reaction(response: Seq<u8>) -> ClientStep<
    Seq<u8>,
    ClientError<Seq<char>>,
> {
    if ends_in_blank_line(response) {
        match status_result(text::text_of_bytes(response)) {
            Ok(_) => ClientStep::Done,
            Err(e) => ClientStep::Fail(e),
        }
    } else if response.len() > HTTP_RESPONSE_MAX_LEN {
        ClientStep::Fail(ClientError::ResponseTooLong)
    } else {
        ClientStep::Read
    }
}

/// The client side of an HTTP CONNECT handshake: the answer read so far.
#[derive(Debug)]
pub struct HttpConnect {
    pub response: Vec<u8>,
}

impl HttpConnect {
    /// Starts to read an answer.
    pub fn new() -> (r: HttpConnect)
        ensures
            r.response@ == Seq::<u8>::empty(),
    {
        HttpConnect { response: Vec::new() }
    }

    /// Takes the next byte of the answer.
    pub fn step(&mut self, byte: u8) -> (r: ClientStep<Vec<u8>, ClientError<String>>)
        ensures
            final(self).response@ == old(self).response@.push(byte),
            r@ == response_reaction(final(self).response@),
    {
        self.response.push(byte);
        let n: usize = self.response.len();
        if n >= 4 && self.response[n - 4] == 0x0D && self.response[n - 3] == 0x0A
            && self.response[n - 2] == 0x0D && self.response[n - 1] == 0x0A {
            let answer = decode_lossy(self.response.as_slice());
            return match judge_status(answer.as_str()) {
                Ok(_) => ClientStep::Done,
                Err(e) => ClientStep::Fail(e),
            };
        }
        if n > HTTP_RESPONSE_MAX_LEN {
            return ClientStep::Fail(ClientError::ResponseTooLong);
        }
        ClientStep::Read
    }
}

// ---------------------------------------------------------------------------
// Connecting through a proxy
// ---------------------------------------------------------------------------

/// Seconds after which a connection attempt is given up.
pub const CONNECT_TIMEOUT_SECS: u64 = 10;

/// Seconds after which a handshake or a name lookup is given up.
pub const HANDSHAKE_TIMEOUT_SECS: u64 = 5;

/// Which handshake to make with a proxy.
#[derive(Clone, Copy, Debug, PartialEq, Eq, Structural)]
pub enum Handshake {
    Socks5 { remote_dns: bool },
    Http,
}

/// What happened to a connection attempt through a proxy.
pub enum ConnectEvent<T, E> {
    /// The proxy accepted the connection.
    Accepted,
    /// The connection to the proxy failed.
    Failed,
    /// The proxy did not accept in time.
    TimedOut,
    /// The host was looked up; an address came back or not.
    LookedUp(Option<T>),
    /// The handshake ended.
    HandshakeEnded(Result<(), E>),
    /// The handshake did not end in time.
    HandshakeTimedOut,
}

impl View for ConnectEvent<String, ClientError<String>> {
    type V = ConnectEvent<Seq<char>, ClientError<Seq<char>>>;

    open spec fn view(&self) -> ConnectEvent<Seq<char>, ClientError<Seq<char>>> {
        match self {
            ConnectEvent::Accepted => ConnectEvent::Accepted,
            ConnectEvent::Failed => ConnectEvent::Failed,
            ConnectEvent::TimedOut => ConnectEvent::TimedOut,
            ConnectEvent::LookedUp(Some(t)) => ConnectEvent::LookedUp(Some(t@)),
            ConnectEvent::LookedUp(None) => ConnectEvent::LookedUp(None),
            ConnectEvent::HandshakeEnded(Ok(_)) => ConnectEvent::HandshakeEnded(Ok(())),
            ConnectEvent::HandshakeEnded(Err(e)) => ConnectEvent::HandshakeEnded(Err(e@)),
            ConnectEvent::HandshakeTimedOut => ConnectEvent::HandshakeTimedOut,
        }
    }
}

/// What to do next in a connection attempt through a proxy.
pub enum ConnectAction<T, E> {
    /// Look up this host and port.
    Lookup(T),
    /// Make the handshake, with this as the destination host.
    Shake(Handshake, T),
    /// The connection stands.
    Done,
    /// Give up.
    Fail(E),
}

impl View for ConnectAction<String, ClientError<String>> {
    type V = ConnectAction<Seq<char>, ClientError<Seq<char>>>;

    open spec fn view(&self) -> ConnectAction<Seq<char>, ClientError<Seq<char>>> {
        match self {
            ConnectAction::Lookup(t) => ConnectAction::Lookup(t@),
            ConnectAction::Shake(h, t) => ConnectAction::Shake(*h, t@),
            ConnectAction::Done => ConnectAction::Done,
            ConnectAction::Fail(e) => ConnectAction::Fail(e@),
        }
    }
}

/// Whether the forwarder itself resolves host names for such a proxy.
pub open spec fn resolves_locally(proxy_type: ProxyType) -> bool {
    proxy_type != ProxyType::Socks5h
}

/// The handshake that such a proxy expects.
pub open spec fn handshake_of(proxy_type: ProxyType) -> Handshake {
    match proxy_type {
        ProxyType::Socks5 => Handshake::Socks5 { remote_dns: false },
        ProxyType::Socks5h => Handshake::Socks5 { remote_dns: true },
        ProxyType::Http => Handshake::Http,
    }
}

/// The reaction to an event of a connection attempt through a proxy.
pub open spec fn connect_reaction(
    proxy: ProxyView,
    host: Seq<char>,
    port: u16,
    resolve_hostname: bool,
    event: ConnectEvent<Seq<char>, ClientError<Seq<char>>>,
) -> ConnectAction<Seq<char>, ClientError<Seq<char>>> {
    match event {
        ConnectEvent::Accepted => if resolves_locally(proxy.proxy_type) && resolve_hostname {
            ConnectAction::Lookup(authority(host, port))
        } else {
            ConnectAction::Shake(handshake_of(proxy.proxy_type), host)
        },
        ConnectEvent::Failed => ConnectAction::Fail(ClientError::ConnectFailed(proxy.addr)),
        ConnectEvent::TimedOut => ConnectAction::Fail(ClientError::ConnectTimeout(proxy.addr)),
        ConnectEvent::LookedUp(Some(found)) => ConnectAction::Shake(
            handshake_of(proxy.proxy_type),
            found,
        ),
        ConnectEvent::LookedUp(None) => ConnectAction::Shake(handshake_of(proxy.proxy_type), host),
        ConnectEvent::HandshakeEnded(Ok(_)) => ConnectAction::Done,
        ConnectEvent::HandshakeEnded(Err(e)) => ConnectAction::Fail(e),
        ConnectEvent::HandshakeTimedOut => ConnectAction::Fail(ClientError::HandshakeTimeout),
    }
}

/// A client of one upstream proxy.
pub struct ProxyClient {
    config: ProxyConfig,
}

impl View for ProxyClient {
    type V = ProxyView;

    closed spec fn view(&self) -> ProxyView {
        self.config@
    }
}

impl ProxyClient {
    /// Makes a client of the proxy.
    pub fn new(config: ProxyConfig) -> (r: ProxyClient)
        ensures
            r@ == config@,
    {
        ProxyClient { config }
    }

    /// The address of the proxy.
    pub fn addr(&self) -> (r: &str)
        ensures
            r@ == self@.addr,
    {
        self.config.addr.as_str()
    }

    /// Decides what to do after an event of a connection attempt.
    pub fn connect(
        &self,
        host: &str,
        port: u16,
        resolve_hostname: bool,
        event: ConnectEvent<String, ClientError<String>>,
    ) -> (r: ConnectAction<String, ClientError<String>>)
        ensures
            r@ == connect_reaction(self@, host@, port, resolve_hostname, event@),
    {
        let handshake = match self.config.proxy_type {
            ProxyType::Socks5 => Handshake::Socks5 { remote_dns: false },
            ProxyType::Socks5h => Handshake::Socks5 { remote_dns: true },
            ProxyType::Http => Handshake::Http,
        };
        let should_resolve = match self.config.proxy_type {
            ProxyType::Socks5 => true,
            ProxyType::Socks5h => false,
            ProxyType::Http => true,
        };
        match event {
            ConnectEvent::Accepted => {
                if should_resolve && resolve_hostname {
                    ConnectAction::Lookup(host_port(host, port))
                } else {
                    ConnectAction::Shake(handshake, host.to_string())
                }
            },
            ConnectEvent::Failed => ConnectAction::Fail(
                ClientError::ConnectFailed(self.config.addr.clone()),
            ),
            ConnectEvent::TimedOut => ConnectAction::Fail(
                ClientError::ConnectTimeout(self.config.addr.clone()),
            ),
            ConnectEvent::LookedUp(found) => {
                let target = match found {
                    Some(found) => found,
                    None => host.to_string(),
                };
                ConnectAction::Shake(handshake, target)
            },
            ConnectEvent::HandshakeEnded(result) => match result {
                Ok(_) => ConnectAction::Done,
                Err(e) => ConnectAction::Fail(e),
            },
            ConnectEvent::HandshakeTimedOut => ConnectAction::Fail(ClientError::HandshakeTimeout),
        }
    }
}

// ---------------------------------------------------------------------------
// Laws
// ---------------------------------------------------------------------------

/// Whether a text ends in a character that cleaning a URL removes.
pub open spec fn ends_trimmable(s: Seq<char>) -> bool {
    s.len() > 0 && (text::is_space(s.last()) || s.last() == '`' || s.last() == '"')
}

/// Law: the URL of a proxy reads back as that proxy, unless its address names no port or ends in
/// a character that is cleaned away.
pub proof fn proxy_url_reads_back(p: ProxyView)
    requires
        p.addr.contains(':'),
        !ends_trimmable(p.addr),
    ensures
        proxy_of_url(url_of_proxy(p)) == Ok::<ProxyView, UrlError<Seq<char>>>(p),
{
    reveal_strlit("socks5h://");
    reveal_strlit("socks5://");
    reveal_strlit("http://");
    reveal_strlit("socks5h");
    reveal_strlit("socks5");
    reveal_strlit("http");
    reveal_strlit("://");
    let url = url_of_proxy(p);
    assert(url.len() > 0 && !text::is_space(url[0]) && url[0] != '`' && url[0] != '"');
    assert(url.last() == p.addr.last());
    assert(clean_url(url) == url);
    match p.proxy_type {
        ProxyType::Socks5h => {
            assert(url.take(10) =~= "socks5h://"@);
            assert(url.skip(10) =~= p.addr);
        },
        ProxyType::Socks5 => {
            assert(url.take(9) =~= "socks5://"@);
            assert(url.skip(9) =~= p.addr);
            assert(url[6] == ':');
            assert("socks5h://"@[6] == 'h');
            assert(!text::starts_with(url, "socks5h://"@)) by {
                if text::starts_with(url, "socks5h://"@) {
                    assert(url.take(10)[6] == 'h');
                }
            }
        },
        ProxyType::Http => {
            assert(url.take(7) =~= "http://"@);
            assert(url.skip(7) =~= p.addr);
            assert(url[0] == 'h');
            assert(!text::starts_with(url, "socks5h://"@)) by {
                if text::starts_with(url, "socks5h://"@) {
                    assert(url.take(10)[0] == 's');
                }
            }
            assert(!text::starts_with(url, "socks5://"@)) by {
                if text::starts_with(url, "socks5://"@) {
                    assert(url.take(9)[0] == 's');
                }
            }
        },
    }
}

/// How a SOCKS5 client's handshake goes on a stream of bytes from the proxy.
pub enum ClientOutcome {
    /// The proxy has connected; these bytes are left.
    Connected(Seq<u8>),
    /// The client gave up.
    Failed(ClientError<Seq<char>>),
    /// The stream is too short.
    Waiting,
}

/// The course of a SOCKS5 client's handshake, from a phase on: the bytes that the client sends
/// and the outcome.
pub open spec fn client_course(
    phase: Socks5Phase,
    request: Result<Seq<u8>, ClientError<Seq<char>>>,
    stream: Seq<u8>,
) -> (Seq<u8>, ClientOutcome)
    decreases phase.rank(),
{
    if phase is Finished || stream.len() < phase.want() {
        (Seq::empty(), ClientOutcome::Waiting)
    } else {
        let rest = stream.skip(phase.want() as int);
        let (next, step) = client_reaction(phase, request, stream.take(phase.want() as int));
        if next.rank() < phase.rank() {
            match step {
                ClientStep::Done => (Seq::empty(), ClientOutcome::Connected(rest)),
                ClientStep::Fail(e) => (Seq::empty(), ClientOutcome::Failed(e)),
                ClientStep::Read => client_course(next, request, rest),
                ClientStep::Send(b) => {
                    let (sent, outcome) = client_course(next, request, rest);
                    (b + sent, outcome)
                },
            }
        } else {
            (Seq::empty(), ClientOutcome::Waiting)
        }
    }
}

/// Law: each step of a SOCKS5 client brings it nearer to the end.
pub proof fn client_phases_run_out(
    phase: Socks5Phase,
    request: Result<Seq<u8>, ClientError<Seq<char>>>,
    input: Seq<u8>,
)
    requires
        !(phase is Finished),
    ensures
        client_reaction(phase, request, input).0.rank() < phase.rank(),
        client_reaction(phase, request, input).0 is Finished <==> (client_reaction(
            phase,
            request,
            input,
        ).1 is Done || client_reaction(phase, request, input).1 is Fail),
{
}

/// Law: when the proxy selects no authentication and answers with success and a bound IPv4
/// address, the client sends its request and is connected, and not a byte more is read.
pub proof fn client_connects_on_success(request: Seq<u8>, bound: Seq<u8>, rest: Seq<u8>)
    requires
        bound.len() == 6,
    ensures
        client_course(
            Socks5Phase::Method,
            Ok(request),
            seq![0x05u8, 0x00u8, 0x05u8, 0x00u8, 0x00u8, 0x01u8] + bound + rest,
        ) == (request, ClientOutcome::Connected(rest)),
{
    reveal_with_fuel(client_course, 4);
    let stream = seq![0x05u8, 0x00u8, 0x05u8, 0x00u8, 0x00u8, 0x01u8] + bound + rest;
    let after_method = stream.skip(2);
    let after_reply = after_method.skip(4);
    assert(after_reply.skip(6) =~= rest);
    assert(stream.take(2)[0] == 0x05 && stream.take(2)[1] == 0x00);
    assert(after_method.take(4)[0] == 0x05 && after_method.take(4)[1] == 0x00
        && after_method.take(4)[3] == 0x01);
    let r: Result<Seq<u8>, ClientError<Seq<char>>> = Ok(request);
    assert(client_course(Socks5Phase::Bound(6), r, after_reply) == (
        Seq::<u8>::empty(),
        ClientOutcome::Connected(rest),
    ));
    assert(request + Seq::<u8>::empty() =~= request);
}

/// Law: whatever else a proxy sends, a reply code other than success is reported as a refusal
/// with that code.
pub proof fn client_reports_refusal(request: Seq<u8>, code: u8, rest: Seq<u8>)
    requires
        code != 0x00,
        rest.len() >= 2,
    ensures
        client_course(
            Socks5Phase::Method,
            Ok(request),
            seq![0x05u8, 0x00u8, 0x05u8, code] + rest,
        ) == (request, ClientOutcome::Failed(ClientError::Refused(code))),
{
    reveal_with_fuel(client_course, 3);
    let stream = seq![0x05u8, 0x00u8, 0x05u8, code] + rest;
    let after_method = stream.skip(2);
    assert(stream.take(2)[0] == 0x05 && stream.take(2)[1] == 0x00);
    assert(after_method.take(4)[0] == 0x05 && after_method.take(4)[1] == code);
    assert(request + Seq::<u8>::empty() =~= request);
}

/// Law: a standard SOCKS5 proxy is never handed a host name, and a SOCKS5h proxy is handed every
/// name that fits a request, without a local lookup.
pub proof fn names_go_to_socks5h_alone(
    host: Seq<char>,
    ip: Option<IpAddr>,
    port: u16,
    proxy: ProxyView,
    resolve_hostname: bool,
)
    ensures
        request_bytes(host, ip, port, false) matches Ok(b) ==> b[3] == 0x01 || b[3] == 0x04,
        ip is None && vstd::utf8::encode_utf8(host).len() <= 255 ==> (request_bytes(
            host,
            ip,
            port,
            true,
        ) matches Ok(b) && b[3] == 0x03),
        proxy.proxy_type == ProxyType::Socks5h ==> connect_reaction(
            proxy,
            host,
            port,
            resolve_hostname,
            ConnectEvent::Accepted,
        ) == ConnectAction::<Seq<char>, ClientError<Seq<char>>>::Shake(
            Handshake::Socks5 { remote_dns: true },
            host,
        ),
{
}

/// Law: an HTTP CONNECT client reads at most one byte more than the limit.
pub proof fn response_length_is_bounded(response: Seq<u8>)
    requires
        response_reaction(response) is Read,
    ensures
        response.len() <= HTTP_RESPONSE_MAX_LEN,
{
}

/// Law: every handshake that is asked for is the one of the proxy's own type, whatever led to it: a
/// CONNECT with an HTTP proxy and with no other, names left to the proxy with SOCKS5h and with no
/// other.
pub proof fn handshake_fits_the_proxy(
    proxy: ProxyView,
    host: Seq<char>,
    port: u16,
    resolve_hostname: bool,
    event: ConnectEvent<Seq<char>, ClientError<Seq<char>>>,
)
    ensures
        connect_reaction(proxy, host, port, resolve_hostname, event) matches ConnectAction::Shake(
            shake,
            target,
        ) ==> {
            &&& shake is Http <==> proxy.proxy_type is Http
            &&& proxy.proxy_type is Socks5 ==> shake == (Handshake::Socks5 { remote_dns: false })
            &&& proxy.proxy_type is Socks5h ==> shake == (Handshake::Socks5 { remote_dns: true })
            &&& target == host || event == ConnectEvent::<
                Seq<char>,
                ClientError<Seq<char>>,
            >::LookedUp(Some(target))
        },
{
}

/// Law: a proxy that accepts is spoken to at once, with the host as it was asked for, unless the
/// host is a name and the proxy leaves names to its clients; then the host and port are looked up,
/// and the handshake follows, with the address that came back or else with the name.
pub proof fn names_are_looked_up_where_needed(
    proxy: ProxyView,
    host: Seq<char>,
    port: u16,
    resolve_hostname: bool,
    found: Seq<char>,
)
    ensures
        ({
            let after = |event: ConnectEvent<Seq<char>, ClientError<Seq<char>>>|
                connect_reaction(proxy, host, port, resolve_hostname, event);
            let accepted = after(ConnectEvent::Accepted);
            &&& proxy.proxy_type is Socks5h || !resolve_hostname ==> (
            accepted matches ConnectAction::Shake(_, target) && target == host)
            &&& !(proxy.proxy_type is Socks5h) && resolve_hostname ==> accepted
                == ConnectAction::<Seq<char>, ClientError<Seq<char>>>::Lookup(
                host + seq![':'] + text::decimal(port as nat),
            )
            &&& after(ConnectEvent::LookedUp(Some(found))) matches ConnectAction::Shake(_, target)
                && target == found
            &&& after(ConnectEvent::LookedUp(None)) matches ConnectAction::Shake(_, target)
                && target == host
        }),
{
    reveal_strlit(":");
    assert(":"@ =~= seq![':']);
}

/// Law: a connection through a proxy stands just where the handshake succeeded; every failure on
/// the way is reported as what it is, with the address of the proxy where that is what failed.
pub proof fn connect_outcomes_are_reported(
    proxy: ProxyView,
    host: Seq<char>,
    port: u16,
    resolve_hostname: bool,
    event: ConnectEvent<Seq<char>, ClientError<Seq<char>>>,
)
    ensures
        ({
            let r = connect_reaction(proxy, host, port, resolve_hostname, event);
            &&& r is Done <==> (event matches ConnectEvent::HandshakeEnded(o) && o is Ok)
            &&& event is Failed ==> r == ConnectAction::<Seq<char>, ClientError<Seq<char>>>::Fail(
                ClientError::ConnectFailed(proxy.addr),
            )
            &&& event is TimedOut ==> r == ConnectAction::<
                Seq<char>,
                ClientError<Seq<char>>,
            >::Fail(ClientError::ConnectTimeout(proxy.addr))
            &&& event is HandshakeTimedOut ==> r == ConnectAction::<
                Seq<char>,
                ClientError<Seq<char>>,
            >::Fail(ClientError::HandshakeTimeout)
            &&& event matches ConnectEvent::HandshakeEnded(Err(e)) ==> r == ConnectAction::<
                Seq<char>,
                ClientError<Seq<char>>,
            >::Fail(e)
            &&& r is Fail ==> !(event is Accepted) && !(event is LookedUp)
        }),
{
}

/// Law: the request for an address is that address and nothing of the name: version, command,
/// a zero, the type of the address, its octets, and the port with its high byte first.
pub proof fn address_requests_have_their_form(
    host: Seq<char>,
    ip: IpAddr,
    port: u16,
    remote_dns: bool,
)
    ensures
        ({
            let octets = match ip {
                IpAddr::V4(o) => o@,
                IpAddr::V6(o) => o@,
            };
            match request_bytes(host, Some(ip), port, remote_dns) {
                Ok(b) => {
                    &&& b.len() == octets.len() + 6
                    &&& b[0] == 5 && b[1] == 1 && b[2] == 0
                    &&& ip is V4 ==> b[3] == 1
                    &&& ip is V6 ==> b[3] == 4
                    &&& b.subrange(4, b.len() - 2) == octets
                    &&& b[b.len() - 2] * 256 + b[b.len() - 1] == port
                },
                Err(_) => false,
            }
        }),
{
    let octets = match ip {
        IpAddr::V4(o) => o@,
        IpAddr::V6(o) => o@,
    };
    let b = request_bytes(host, Some(ip), port, remote_dns)->Ok_0;
    assert(b.subrange(4, b.len() - 2) =~= octets);
}

/// Law: the request for a name holds its length in bytes, its bytes, and the port; it is made just
/// where the proxy resolves names and the name has at most 255 bytes, and each of the two reasons
/// against it is reported.
pub proof fn name_requests_have_their_form(host: Seq<char>, port: u16)
    ensures
        ({
            let name = vstd::utf8::encode_utf8(host);
            &&& request_bytes(host, None, port, false) == Err::<
                Seq<u8>,
                ClientError<Seq<char>>,
            >(ClientError::NeedsAddress(host))
            &&& name.len() > 255 ==> request_bytes(host, None, port, true) == Err::<
                Seq<u8>,
                ClientError<Seq<char>>,
            >(ClientError::HostnameTooLong)
            &&& name.len() <= 255 ==> (request_bytes(host, None, port, true) matches Ok(b) && {
                &&& b.len() == name.len() + 7
                &&& b[0] == 5 && b[1] == 1 && b[2] == 0 && b[3] == 3
                &&& b[4] == name.len()
                &&& b.subrange(5, b.len() - 2) == name
                &&& b[b.len() - 2] * 256 + b[b.len() - 1] == port
            })
        }),
{
    let name = vstd::utf8::encode_utf8(host);
    if name.len() <= 255 {
        let b = request_bytes(host, None, port, true)->Ok_0;
        assert(b.subrange(5, b.len() - 2) =~= name);
    }
}

/// The bytes of a bound address of a type, as a proxy sends it behind the head of its answer.
pub open spec fn is_bound_address(kind: u8, bound: Seq<u8>) -> bool {
    ||| kind == 1 && bound.len() == 4 + 2
    ||| kind == 4 && bound.len() == 16 + 2
    ||| kind == 3 && bound.len() > 0 && bound.len() == 1 + bound[0] + 2
}

/// Law: whatever kind of bound address a proxy answers with, and whatever its reserved byte, the
/// client reads all of it and not a byte more, and is connected.
pub proof fn client_reads_every_bound_address(
    request: Seq<u8>,
    reserved: u8,
    kind: u8,
    bound: Seq<u8>,
    rest: Seq<u8>,
)
    requires
        is_bound_address(kind, bound),
    ensures
        client_course(
            Socks5Phase::Method,
            Ok(request),
            seq![5u8, 0u8, 5u8, 0u8, reserved, kind] + bound + rest,
        ) == (request, ClientOutcome::Connected(rest)),
{
    reveal_with_fuel(client_course, 5);
    let stream = seq![5u8, 0u8, 5u8, 0u8, reserved, kind] + bound + rest;
    let s1 = stream.skip(2);
    let s2 = s1.skip(4);
    let r: Result<Seq<u8>, ClientError<Seq<char>>> = Ok(request);
    assert(stream.take(2)[0] == 5 && stream.take(2)[1] == 0);
    assert(s1.take(4)[0] == 5 && s1.take(4)[1] == 0 && s1.take(4)[3] == kind);
    assert(s2 =~= bound + rest);
    let n = bound.len() as int;
    if kind == 3 {
        let s3 = s2.skip(1);
        assert(s2.take(1)[0] == bound[0]);
        assert(s3.skip(n - 1) =~= rest);
        assert(client_course(Socks5Phase::Bound((n - 1) as usize), r, s3) == (
            Seq::<u8>::empty(),
            ClientOutcome::Connected(rest),
        ));
        assert(client_course(Socks5Phase::BoundLength, r, s2) == (
            Seq::<u8>::empty(),
            ClientOutcome::Connected(rest),
        ));
    } else {
        assert(s2.skip(n) =~= rest);
        assert(client_course(Socks5Phase::Bound(n as usize), r, s2) == (
            Seq::<u8>::empty(),
            ClientOutcome::Connected(rest),
        ));
    }
    assert(request + Seq::<u8>::empty() =~= request);
}

/// Law: a proxy that speaks another version, asks for authentication, or answers with an unknown
/// type of address is turned away with that, and a request that cannot be made with why; in none
/// of these cases is a connection taken as made.
pub proof fn client_reports_what_is_wrong(
    request: Seq<u8>,
    error: ClientError<Seq<char>>,
    version: u8,
    method: u8,
    reserved: u8,
    kind: u8,
    rest: Seq<u8>,
)
    requires
        rest.len() >= 4,
    ensures
        version != 5 ==> client_course(
            Socks5Phase::Method,
            Ok(request),
            seq![version, method] + rest,
        ) == (Seq::<u8>::empty(), ClientOutcome::Failed(ClientError::InvalidVersion(version))),
        method != 0 ==> client_course(
            Socks5Phase::Method,
            Ok(request),
            seq![5u8, method] + rest,
        ) == (Seq::<u8>::empty(), ClientOutcome::Failed(ClientError::AuthenticationFailed)),
        client_course(Socks5Phase::Method, Err(error), seq![5u8, 0u8] + rest) == (
            Seq::<u8>::empty(),
            ClientOutcome::Failed(error),
        ),
        rest[0] != 5 ==> client_course(
            Socks5Phase::Method,
            Ok(request),
            seq![5u8, 0u8] + rest,
        ) == (request, ClientOutcome::Failed(ClientError::InvalidReplyVersion)),
        kind != 1 && kind != 3 && kind != 4 ==> client_course(
            Socks5Phase::Method,
            Ok(request),
            seq![5u8, 0u8, 5u8, 0u8, reserved, kind] + rest,
        ) == (request, ClientOutcome::Failed(ClientError::InvalidAddressType(kind))),
{
    reveal_with_fuel(client_course, 3);
    let none = Seq::<u8>::empty();
    assert(request + none =~= request);
    let a = seq![version, method] + rest;
    assert(a.take(2)[0] == version && a.take(2)[1] == method);
    let b = seq![5u8, method] + rest;
    assert(b.take(2)[0] == 5 && b.take(2)[1] == method);
    let c = seq![5u8, 0u8] + rest;
    assert(c.take(2)[0] == 5 && c.take(2)[1] == 0);
    assert(c.skip(2) =~= rest);
    assert(rest.take(4)[0] == rest[0]);
    let d = seq![5u8, 0u8, 5u8, 0u8, reserved, kind] + rest;
    assert(d.take(2)[0] == 5 && d.take(2)[1] == 0);
    assert(d.skip(2).take(4)[0] == 5 && d.skip(2).take(4)[1] == 0 && d.skip(2).take(4)[3] == kind);
}

/// Law: the first message offers one method, no authentication.
pub proof fn greeting_offers_no_authentication()
    ensures
        greeting() == seq![5u8, 1u8, 0u8],
{
}

/// Law: the CONNECT request names the host and port in its first line and in its `Host` header,
/// and ends with an empty line.
pub proof fn connect_request_names_the_host(host: Seq<char>, port: u16)
    ensures
        connect_head(host, port) == "CONNECT "@ + host + seq![':'] + text::decimal(port as nat)
            + " HTTP/1.1\r\nHost: "@ + host + seq![':'] + text::decimal(port as nat)
            + "\r\n\r\n"@,
{
    reveal_strlit(":");
    assert(":"@ =~= seq![':']);
    let digits = text::decimal(port as nat);
    assert(connect_head(host, port) =~= "CONNECT "@ + host + seq![':'] + digits
        + " HTTP/1.1\r\nHost: "@ + host + seq![':'] + digits + "\r\n\r\n"@);
}

/// Law: an answer is judged when it ends with an empty line and not before: it is read on while it
/// has none and at most 8192 bytes.
pub proof fn answers_are_read_to_the_empty_line(front: Seq<u8>, response: Seq<u8>)
    ensures
        !(response_reaction(front + seq![0x0Du8, 0x0Au8, 0x0Du8, 0x0Au8]) is Read),
        !(response_reaction(front + seq![0x0Du8, 0x0Au8, 0x0Du8, 0x0Au8]) is Send),
        response_reaction(front + seq![0x0Du8, 0x0Au8, 0x0Du8, 0x0Au8])
            != ClientStep::<Seq<u8>, ClientError<Seq<char>>>::Fail(ClientError::ResponseTooLong),
        (response.len() < 4 || response.skip(response.len() - 4) != seq![
            0x0Du8,
            0x0Au8,
            0x0Du8,
            0x0Au8,
        ]) ==> (response_reaction(response) is Read <==> response.len() <= 8192) && (
        response.len() > 8192 ==> response_reaction(response) == ClientStep::<
            Seq<u8>,
            ClientError<Seq<char>>,
        >::Fail(ClientError::ResponseTooLong)),
{
    let end = seq![0x0Du8, 0x0Au8, 0x0Du8, 0x0Au8];
    let whole = front + end;
    assert(whole[whole.len() - 4] == end[0]);
    assert(whole[whole.len() - 3] == end[1]);
    assert(whole[whole.len() - 2] == end[2]);
    assert(whole[whole.len() - 1] == end[3]);
    if response.len() >= 4 && ends_in_blank_line(response) {
        assert(response.skip(response.len() - 4) =~= end);
    }
}

/// Law: an answer connects just where its first line holds a blank and 200, wherever in the line
/// and whatever the headers say; any other first line is the refusal, shown without the white
/// space around it.
pub proof fn status_line_decides(line: Seq<char>, headers: Seq<char>, at: int)
    requires
        !line.contains('\n'),
    ensures
        ({
            let answer = line + seq!['\r', '\n'] + headers + seq!['\r', '\n', '\r', '\n'];
            let bytes = vstd::utf8::encode_utf8(answer);
            &&& 0 <= at && at + 4 <= line.len() && line[at] == ' ' && line[at + 1] == '2'
                && line[at + 2] == '0' && line[at + 3] == '0' ==> response_reaction(bytes)
                == ClientStep::<Seq<u8>, ClientError<Seq<char>>>::Done
            &&& (forall|k: int|
                0 <= k <= line.len() - 4 ==> !(#[trigger] line[k] == ' ' && line[k + 1] == '2'
                    && line[k + 2] == '0' && line[k + 3] == '0')) ==> response_reaction(bytes)
                == ClientStep::<Seq<u8>, ClientError<Seq<char>>>::Fail(
                ClientError::ConnectRejected(text::trim(line, TrimSet::Whitespace)),
            )
        }),
{
    let end = seq!['\r', '\n', '\r', '\n'];
    let front = line + seq!['\r', '\n'] + headers;
    let answer = front + end;
    let bytes = vstd::utf8::encode_utf8(answer);
    let a = vstd::utf8::encode_utf8(front);
    let crlf = seq!['\r', '\n'];
    text::encoding_of_both(front, end);
    assert(end =~= crlf + crlf);
    assert(crlf =~= seq!['\r'] + seq!['\n']);
    text::encoding_of_both(crlf, crlf);
    text::encoding_of_both(seq!['\r'], seq!['\n']);
    text::encoding_of_ascii('\r');
    text::encoding_of_ascii('\n');
    assert(bytes =~= a + seq![0x0Du8, 0x0Au8, 0x0Du8, 0x0Au8]);
    assert(ends_in_blank_line(bytes));
    text::encoded_text_decodes(answer);
    assert(answer =~= line + crlf + (headers + end));
    text::first_line_ends_at_the_newline(line, headers + end);
    reveal_strlit(" 200");
    let sought = " 200"@;
    if 0 <= at && at + 4 <= line.len() && line[at] == ' ' && line[at + 1] == '2' && line[at + 2]
        == '0' && line[at + 3] == '0' {
        assert(line.subrange(at, at + 4) =~= sought);
        assert(line.subrange(at, at + sought.len()) == sought);
    }
    if text::has_substring(line, sought) {
        let k = choose|k: int|
            0 <= k <= line.len() - sought.len() && #[trigger] line.subrange(k, k + sought.len())
                == sought;
        let part = line.subrange(k, k + 4);
        assert(part[0] == line[k] && part[1] == line[k + 1] && part[2] == line[k + 2] && part[3]
            == line[k + 3]);
    }
}

proof fn lemma_outer_ends(before: Seq<char>, s: Seq<char>, after: Seq<char>, mark: char)
    requires
        s.len() > 0,
        forall|i: int| 0 <= i < before.len() ==> #[trigger] before[i] == mark,
        forall|i: int| 0 <= i < after.len() ==> #[trigger] after[i] == mark,
    ensures
        ({
            let all = before + s + after;
            &&& all.len() > 0
            &&& all[0] == mark || all[0] == s[0]
            &&& all.last() == mark || all.last() == s.last()
        }),
{
    let all = before + s + after;
    if before.len() > 0 {
        assert(all[0] == before[0]);
    }
    if after.len() > 0 {
        assert(all.last() == after[after.len() - 1]);
    }
}

/// Law: white space around a proxy URL, backquotes within that, and double quotes within those do
/// not matter.
pub proof fn quotes_around_a_url_do_not_matter(
    before: Seq<char>,
    ticks: Seq<char>,
    quotes: Seq<char>,
    url: Seq<char>,
    quotes_end: Seq<char>,
    ticks_end: Seq<char>,
    after: Seq<char>,
)
    requires
        url.len() > 0,
        !text::is_space(url[0]) && url[0] != '`' && url[0] != '"',
        !text::is_space(url.last()) && url.last() != '`' && url.last() != '"',
        forall|i: int| 0 <= i < before.len() ==> text::is_space(#[trigger] before[i]),
        forall|i: int| 0 <= i < after.len() ==> text::is_space(#[trigger] after[i]),
        forall|i: int| 0 <= i < ticks.len() ==> #[trigger] ticks[i] == '`',
        forall|i: int| 0 <= i < ticks_end.len() ==> #[trigger] ticks_end[i] == '`',
        forall|i: int| 0 <= i < quotes.len() ==> #[trigger] quotes[i] == '"',
        forall|i: int| 0 <= i < quotes_end.len() ==> #[trigger] quotes_end[i] == '"',
    ensures
        proxy_of_url(before + (ticks + (quotes + url + quotes_end) + ticks_end) + after)
            == proxy_of_url(url),
{
    let quoted = quotes + url + quotes_end;
    let ticked = ticks + quoted + ticks_end;
    let none = Seq::<char>::empty();
    lemma_outer_ends(quotes, url, quotes_end, '"');
    lemma_outer_ends(ticks, quoted, ticks_end, '`');
    text::surroundings_are_trimmed(before, ticked, after, TrimSet::Whitespace);
    text::surroundings_are_trimmed(ticks, quoted, ticks_end, TrimSet::Only('`'));
    text::surroundings_are_trimmed(quotes, url, quotes_end, TrimSet::Only('"'));
    assert(none + url + none =~= url);
    text::surroundings_are_trimmed(none, url, none, TrimSet::Whitespace);
    text::surroundings_are_trimmed(none, url, none, TrimSet::Only('`'));
    text::surroundings_are_trimmed(none, url, none, TrimSet::Only('"'));
}

/// Law: a URL is a scheme and an address with a port. One of another scheme is refused, and so is
/// one whose address has no colon; nothing else is.
pub proof fn proxy_urls_are_judged_by_scheme_and_port(addr: Seq<char>, url: Seq<char>)
    requires
        addr.len() > 0 && !ends_trimmable(addr),
        url.len() > 0 && !ends_trimmable(url),
        !text::is_space(url[0]) && url[0] != '`' && url[0] != '"',
    ensures
        ({
            let has_port = exists|i: int| 0 <= i < addr.len() && addr[i] == ':';
            let read = |t: ProxyType| if has_port {
                Ok::<ProxyView, UrlError<Seq<char>>>(ProxyView { proxy_type: t, addr })
            } else {
                Err(UrlError::MissingPort(addr))
            };
            &&& proxy_of_url("socks5://"@ + addr) == read(ProxyType::Socks5)
            &&& proxy_of_url("socks5h://"@ + addr) == read(ProxyType::Socks5h)
            &&& proxy_of_url("http://"@ + addr) == read(ProxyType::Http)
        }),
        !text::starts_with(url, "socks5://"@) && !text::starts_with(url, "socks5h://"@)
            && !text::starts_with(url, "http://"@) ==> proxy_of_url(url) == Err::<
            ProxyView,
            UrlError<Seq<char>>,
        >(UrlError::Unsupported(url)),
{
    reveal_strlit("socks5h://");
    reveal_strlit("socks5://");
    reveal_strlit("http://");
    lemma_clean(url);
    let a = "socks5://"@ + addr;
    let b = "socks5h://"@ + addr;
    let c = "http://"@ + addr;
    assert(a.last() == addr.last() && b.last() == addr.last() && c.last() == addr.last());
    lemma_clean(a);
    lemma_clean(b);
    lemma_clean(c);
    assert(a.take(9) =~= "socks5://"@ && a.skip(9) =~= addr);
    assert(b.take(10) =~= "socks5h://"@ && b.skip(10) =~= addr);
    assert(c.take(7) =~= "http://"@ && c.skip(7) =~= addr);
    assert(a[6] == ':');
    if text::starts_with(a, "socks5h://"@) {
        assert(a.take(10)[6] == 'h');
    }
    assert(c[0] == 'h');
    if text::starts_with(c, "socks5h://"@) {
        assert(c.take(10)[0] == 's');
    }
    if text::starts_with(c, "socks5://"@) {
        assert(c.take(9)[0] == 's');
    }
    assert(addr.contains(':') <==> exists|i: int| 0 <= i < addr.len() && addr[i] == ':');
}

proof fn lemma_clean(url: Seq<char>)
    requires
        url.len() > 0 && !ends_trimmable(url),
        !text::is_space(url[0]) && url[0] != '`' && url[0] != '"',
    ensures
        clean_url(url) == url,
{
    let none = Seq::<char>::empty();
    assert(none + url + none =~= url);
    text::surroundings_are_trimmed(none, url, none, TrimSet::Whitespace);
    text::surroundings_are_trimmed(none, url, none, TrimSet::Only('`'));
    text::surroundings_are_trimmed(none, url, none, TrimSet::Only('"'));
}

/// Law: a proxy has ten seconds to accept, and five for a handshake or a lookup.
pub proof fn client_limits()
    ensures
        CONNECT_TIMEOUT_SECS == 10,
        HANDSHAKE_TIMEOUT_SECS == 5,
{
}

/// Law: the reply codes of SOCKS5 are told in words, each in its own; all that have no meaning are
/// told alike.
pub proof fn reply_codes_are_told_in_words(code: u8)
    ensures
        code == 0 ==> socks5_error(code) == "succeeded"@,
        code == 1 ==> socks5_error(code) == "general SOCKS server failure"@,
        code == 2 ==> socks5_error(code) == "connection not allowed by ruleset"@,
        code == 3 ==> socks5_error(code) == "Network unreachable"@,
        code == 4 ==> socks5_error(code) == "Host unreachable"@,
        code == 5 ==> socks5_error(code) == "Connection refused"@,
        code == 6 ==> socks5_error(code) == "TTL expired"@,
        code == 7 ==> socks5_error(code) == "Command not supported"@,
        code == 8 ==> socks5_error(code) == "Address type not supported"@,
        code > 8 ==> socks5_error(code) == "unknown error"@,
{
}

/// Law: a message about a proxy names the proxy, the host or the code that it is about.
pub proof fn client_messages_show_what_they_are_about(
    e: ClientError<Seq<char>>,
    t: Seq<char>,
    n: u8,
)
    ensures
        url_error_text(UrlError::Unsupported(t)) == "Unsupported proxy URL: "@ + t,
        url_error_text(UrlError::MissingPort(t)) == "Proxy address must include a port: "@ + t,
        client_error_text(ClientError::ConnectTimeout(t)) == "Proxy connection timed out: "@ + t,
        client_error_text(ClientError::ConnectFailed(t)) == "Failed to connect to proxy "@ + t,
        client_error_text(ClientError::InvalidVersion(n)) == "Invalid SOCKS5 version: "@
            + text::decimal(n as nat),
        client_error_text(ClientError::NeedsAddress(t)) == "Hostname "@ + t
            + " found but upstream proxy requires an IP address (standard SOCKS5) and local resolution failed or was disabled"@,
        client_error_text(ClientError::Refused(n)) == "SOCKS5 connect failed with code: "@
            + text::decimal(n as nat) + " ("@ + socks5_error(n) + ")"@,
        client_error_text(ClientError::InvalidAddressType(n))
            == "Invalid ATYP in SOCKS5 response: "@ + text::decimal(n as nat),
        client_error_text(ClientError::ConnectRejected(t)) == "HTTP CONNECT failed: "@ + t,
        e is HandshakeTimeout ==> client_error_text(e) == "Handshake with proxy timed out"@,
        e is AuthenticationFailed ==> client_error_text(e)
            == "SOCKS5 authentication failed, only 'NO AUTHENTICATION' is supported"@,
        e is HostnameTooLong ==> client_error_text(e) == "Hostname too long"@,
        e is InvalidReplyVersion ==> client_error_text(e)
            == "Invalid SOCKS5 version in connect response"@,
        e is ResponseTooLong ==> client_error_text(e)
            == "HTTP CONNECT response headers too long"@,
{
}

} // verus!
