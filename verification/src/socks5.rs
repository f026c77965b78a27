//! The server side of SOCKS5 handshakes.

use crate::buffer;
use crate::buffer::{buf_to_vec, buf_with_capacity, put_slice, put_u16, put_u32, put_u8, read_port};
use crate::inbound::{Destination, InboundError};
use crate::net;
use crate::net::IpAddr;
use crate::proxy_client;
use crate::proxy_client::{ClientError, Socks5Phase};
use crate::text;
use crate::text::decode_lossy;
use vstd::prelude::*;
use vstd::string::*;

verus! {

// ---------------------------------------------------------------------------
// Replies
// ---------------------------------------------------------------------------

/// The reply that refuses a request with a code.
pub open spec fn error_reply_bytes(code: u8) -> Seq<u8> {
    seq![0x05u8, code, 0u8, 0x01u8, 0u8, 0u8, 0u8, 0u8, 0u8, 0u8]
}

/// Builds the reply that refuses a request with a code.
pub fn error_reply(code: u8) -> (r: Vec<u8>)
    ensures
        r@ == error_reply_bytes(code),
{
    let mut response = buf_with_capacity(10);
    put_u8(&mut response, 0x05);
    put_u8(&mut response, code);
    put_u8(&mut response, 0x00);
    put_u8(&mut response, 0x01);
    put_u32(&mut response, 0);
    put_u16(&mut response, 0);
    assert(buffer::buf_bytes(response) =~= error_reply_bytes(code));
    buf_to_vec(&response)
}

/// The reply that grants a request, with the local address of the client's connection where it
/// is known.
pub open spec fn success_reply_bytes(local: Option<(IpAddr, u16)>) -> Seq<u8> {
    match local {
        Some((IpAddr::V4(o), port)) => seq![0x05u8, 0x00u8, 0x00u8, 0x01u8] + o@ + buffer::be16(
            port,
        ),
        Some((IpAddr::V6(o), port)) => seq![0x05u8, 0x00u8, 0x00u8, 0x04u8] + o@ + buffer::be16(
            port,
        ),
        None => seq![0x05u8, 0x00u8, 0x00u8, 0x01u8, 0u8, 0u8, 0u8, 0u8, 0u8, 0u8],
    }
}

/// Builds the reply that grants a request.
pub fn success_reply(local: Option<(IpAddr, u16)>) -> (r: Vec<u8>)
    ensures
        r@ == success_reply_bytes(local),
{
    let mut response = buf_with_capacity(22);
    put_u8(&mut response, 0x05);
    put_u8(&mut response, 0x00);
    put_u8(&mut response, 0x00);
    match local {
        Some((IpAddr::V4(octets), port)) => {
            put_u8(&mut response, 0x01);
            put_slice(&mut response, octets.as_slice());
            put_u16(&mut response, port);
        },
        Some((IpAddr::V6(octets), port)) => {
            put_u8(&mut response, 0x04);
            put_slice(&mut response, octets.as_slice());
            put_u16(&mut response, port);
        },
        None => {
            put_u8(&mut response, 0x01);
            put_u32(&mut response, 0);
            put_u16(&mut response, 0);
        },
    }
    assert(buffer::buf_bytes(response) =~= success_reply_bytes(local));
    buf_to_vec(&response)
}

// ---------------------------------------------------------------------------
// The handshake
// ---------------------------------------------------------------------------

/// Where a SOCKS5 client comes in.
#[derive(Clone, Copy, Debug, PartialEq, Eq, Structural)]
pub enum Entrance {
    /// On the port that serves every protocol: the version byte has been read, and the number of
    /// methods and the length of a name are checked.
    Shared,
    /// On a port for SOCKS5 alone.
    Plain,
}

/// The longest domain name that a request may hold.
pub const MAX_NAME_LEN: usize = 253;

/// What the server waits for. `T` is the text of a host.
#[derive(Debug)]
pub enum ServerPhase<T> {
    /// The version and the number of methods.
    Version,
    /// The number of methods.
    MethodCount,
    /// This many methods.
    Methods(usize),
    /// The head of the request.
    Request,
    /// An IPv4 address.
    AddressV4,
    /// The length of a domain name.
    NameLength,
    /// A domain name of this length.
    Name(usize),
    /// An IPv6 address.
    AddressV6,
    /// The port; the host, and its address where the client gave one, are known.
    Port(T, Option<IpAddr>),
    /// Nothing more.
    Finished,
}

impl<T> ServerPhase<T> {
    /// The number of bytes to read next.
    pub open spec fn want(self) -> nat {
        match self {
            ServerPhase::Version => 2,
            ServerPhase::MethodCount => 1,
            ServerPhase::Methods(n) => n as nat,
            ServerPhase::Request => 4,
            ServerPhase::AddressV4 => 4,
            ServerPhase::NameLength => 1,
            ServerPhase::Name(n) => n as nat,
            ServerPhase::AddressV6 => 16,
            ServerPhase::Port(_, _) => 2,
            ServerPhase::Finished => 0,
        }
    }

    /// The number of phases that are left at most.
    pub open spec fn rank(self) -> nat {
        match self {
            ServerPhase::Version => 7,
            ServerPhase::MethodCount => 6,
            ServerPhase::Methods(_) => 5,
            ServerPhase::Request => 4,
            ServerPhase::NameLength => 3,
            ServerPhase::AddressV4 => 2,
            ServerPhase::Name(_) => 2,
            ServerPhase::AddressV6 => 2,
            ServerPhase::Port(_, _) => 1,
            ServerPhase::Finished => 0,
        }
    }
}

impl View for ServerPhase<String> {
    type V = ServerPhase<Seq<char>>;

    open spec fn view(&self) -> ServerPhase<Seq<char>> {
        match self {
            ServerPhase::Version => ServerPhase::Version,
            ServerPhase::MethodCount => ServerPhase::MethodCount,
            ServerPhase::Methods(n) => ServerPhase::Methods(*n),
            ServerPhase::Request => ServerPhase::Request,
            ServerPhase::AddressV4 => ServerPhase::AddressV4,
            ServerPhase::NameLength => ServerPhase::NameLength,
            ServerPhase::Name(n) => ServerPhase::Name(*n),
            ServerPhase::AddressV6 => ServerPhase::AddressV6,
            ServerPhase::Port(t, ip) => ServerPhase::Port(t@, *ip),
            ServerPhase::Finished => ServerPhase::Finished,
        }
    }
}

/// What the server does after it has sent its reply, if there is one.
#[derive(Debug)]
pub enum ServerNext<T> {
    /// Read on.
    Read,
    /// Connect to the destination.
    Connect(Destination<T>),
    /// Give up.
    Fail(InboundError<T>),
}

impl View for ServerNext<String> {
    type V = ServerNext<Seq<char>>;

    open spec fn view(&self) -> ServerNext<Seq<char>> {
        match self {
            ServerNext::Read => ServerNext::Read,
            ServerNext::Connect(d) => ServerNext::Connect(d@),
            ServerNext::Fail(e) => ServerNext::Fail(e@),
        }
    }
}

/// What the server does next: the reply that it sends first, which may be empty, and the rest.
#[derive(Debug)]
pub struct ServerStep<B, T> {
    pub reply: B,
    pub next: ServerNext<T>,
}

impl View for ServerStep<Vec<u8>, String> {
    type V = ServerStep<Seq<u8>, Seq<char>>;

    open spec fn view(&self) -> ServerStep<Seq<u8>, Seq<char>> {
        ServerStep { reply: self.reply@, next: self.next@ }
    }
}

/// The step that sends nothing and reads on.
pub open spec fn read_on() -> ServerStep<Seq<u8>, Seq<char>> {
    ServerStep { reply: Seq::empty(), next: ServerNext::Read }
}

/// The step that sends a reply and gives up.
pub open spec fn give_up(reply: Seq<u8>, error: InboundError<Seq<char>>) -> ServerStep<
    Seq<u8>,
    Seq<char>,
> {
    ServerStep { reply, next: ServerNext::Fail(error) }
}

/// The reaction to the head of a request.
pub open spec fn request_reaction(entrance: Entrance, head: Seq<u8>) -> (
    ServerPhase<Seq<char>>,
    ServerStep<Seq<u8>, Seq<char>>,
) {
    if head[0] != 0x05 {
        (ServerPhase::Finished, give_up(Seq::empty(), InboundError::BadRequestVersion))
    } else if head[1] != 0x01 {
        (
            ServerPhase::Finished,
            give_up(
                error_reply_bytes(0x07),
                if entrance == Entrance::Shared {
                    InboundError::UnsupportedCommand(head[1])
                } else {
                    InboundError::PlainUnsupportedCommand(head[1])
                },
            ),
        )
    } else if head[3] == 0x01 {
        (ServerPhase::AddressV4, read_on())
    } else if head[3] == 0x03 {
        (ServerPhase::NameLength, read_on())
    } else if head[3] == 0x04 {
        (ServerPhase::AddressV6, read_on())
    } else {
        (
            ServerPhase::Finished,
            give_up(
                error_reply_bytes(0x08),
                if entrance == Entrance::Shared {
                    InboundError::UnsupportedAddressType(head[3])
                } else {
                    InboundError::PlainUnsupportedAddressType(head[3])
                },
            ),
        )
    }
}

/// The four octets of an IPv4 address.
pub open spec fn octets4(b: Seq<u8>) -> [u8; 4] {
    [b[0], b[1], b[2], b[3]]
}

/// The sixteen octets of an IPv6 address.
pub open spec fn octets16(b: Seq<u8>) -> [u8; 16] {
    [
        b[0],
        b[1],
        b[2],
        b[3],
        b[4],
        b[5],
        b[6],
        b[7],
        b[8],
        b[9],
        b[10],
        b[11],
        b[12],
        b[13],
        b[14],
        b[15],
    ]
}

/// The reaction of the server to the bytes that it waited for.
pub open spec fn server_reaction(
    entrance: Entrance,
    phase: ServerPhase<Seq<char>>,
    input: Seq<u8>,
) -> (ServerPhase<Seq<char>>, ServerStep<Seq<u8>, Seq<char>>) {
    match phase {
        ServerPhase::Version => if input[0] != 0x05 {
            (
                ServerPhase::Finished,
                give_up(Seq::empty(), InboundError::UnsupportedVersion(input[0])),
            )
        } else {
            (ServerPhase::Methods(input[1] as usize), read_on())
        },
        ServerPhase::MethodCount => if input[0] == 0 {
            (ServerPhase::Finished, give_up(Seq::empty(), InboundError::BadMethodCount))
        } else {
            (ServerPhase::Methods(input[0] as usize), read_on())
        },
        ServerPhase::Methods(_) => if input.contains(0x00u8) {
            (
                ServerPhase::Request,
                ServerStep { reply: seq![0x05u8, 0x00u8], next: ServerNext::Read },
            )
        } else {
            (
                ServerPhase::Finished,
                give_up(seq![0x05u8, 0xFFu8], InboundError::NoAcceptableMethod),
            )
        },
        ServerPhase::Request => request_reaction(entrance, input),
        ServerPhase::AddressV4 => {
            let ip = IpAddr::V4(octets4(input));
            (ServerPhase::Port(net::address_text(ip), Some(ip)), read_on())
        },
        ServerPhase::NameLength => if entrance == Entrance::Shared && (input[0] == 0 || input[0]
            > MAX_NAME_LEN) {
            (
                ServerPhase::Finished,
                give_up(error_reply_bytes(0x08), InboundError::BadNameLength),
            )
        } else {
            (ServerPhase::Name(input[0] as usize), read_on())
        },
        ServerPhase::Name(_) => (ServerPhase::Port(text::text_of_bytes(input), None), read_on()),
        ServerPhase::AddressV6 => {
            let ip = IpAddr::V6(octets16(input));
            (ServerPhase::Port(net::address_text(ip), Some(ip)), read_on())
        },
        ServerPhase::Port(host, ip) => (
            ServerPhase::Finished,
            ServerStep {
                reply: Seq::empty(),
                next: ServerNext::Connect(
                    Destination {
                        host,
                        port: buffer::port_of(input[0], input[1]),
                        resolve_hostname: ip is None,
                        ip,
                    },
                ),
            },
        ),
        ServerPhase::Finished => (ServerPhase::Finished, read_on()),
    }
}

fn plain_read() -> (r: ServerStep<Vec<u8>, String>)
    ensures
        r@ == read_on(),
{
    ServerStep { reply: Vec::new(), next: ServerNext::Read }
}

/// The server side of a SOCKS5 handshake.
#[derive(Debug)]
pub struct Socks5Handshake {
    pub entrance: Entrance,
    pub phase: ServerPhase<String>,
}

impl Socks5Handshake {
    /// Starts a handshake.
    pub fn new(entrance: Entrance) -> (r: Socks5Handshake)
        ensures
            r.entrance == entrance,
            r.phase == (if entrance == Entrance::Shared {
                ServerPhase::<String>::MethodCount
            } else {
                ServerPhase::<String>::Version
            }),
            r.phase@ == first_phase(entrance),
    {
        match entrance {
            Entrance::Shared => Socks5Handshake { entrance, phase: ServerPhase::MethodCount },
            Entrance::Plain => Socks5Handshake { entrance, phase: ServerPhase::Version },
        }
    }

    /// The number of bytes to read next.
    pub fn wanted(&self) -> (r: usize)
        ensures
            r == self.phase@.want(),
    {
        match &self.phase {
            ServerPhase::Version => 2,
            ServerPhase::MethodCount => 1,
            ServerPhase::Methods(n) => *n,
            ServerPhase::Request => 4,
            ServerPhase::AddressV4 => 4,
            ServerPhase::NameLength => 1,
            ServerPhase::Name(n) => *n,
            ServerPhase::AddressV6 => 16,
            ServerPhase::Port(_, _) => 2,
            ServerPhase::Finished => 0,
        }
    }

    fn fail(&mut self, reply: Vec<u8>, error: InboundError<String>) -> (r: ServerStep<
        Vec<u8>,
        String,
    >)
        ensures
            final(self).entrance == old(self).entrance,
            final(self).phase@ == ServerPhase::<Seq<char>>::Finished,
            r@ == give_up(reply@, error@),
    {
        self.phase = ServerPhase::Finished;
        ServerStep { reply, next: ServerNext::Fail(error) }
    }

    /// Takes the bytes that the server waited for.
    pub fn step(&mut self, input: &[u8]) -> (r: ServerStep<Vec<u8>, String>)
        requires
            input@.len() == old(self).phase@.want(),
        ensures
            final(self).entrance == old(self).entrance,
            (final(self).phase@, r@) == server_reaction(
                old(self).entrance,
                old(self).phase@,
                input@,
            ),
    {
        let mut phase: ServerPhase<String> = ServerPhase::Finished;
        std::mem::swap(&mut phase, &mut self.phase);
        match phase {
            ServerPhase::Version => {
                if input[0] != 0x05 {
                    return self.fail(Vec::new(), InboundError::UnsupportedVersion(input[0]));
                }
                self.phase = ServerPhase::Methods(input[1] as usize);
                plain_read()
            },
            ServerPhase::MethodCount => {
                if input[0] == 0 {
                    return self.fail(Vec::new(), InboundError::BadMethodCount);
                }
                self.phase = ServerPhase::Methods(input[0] as usize);
                plain_read()
            },
            ServerPhase::Methods(_) => {
                let mut reply: Vec<u8> = Vec::new();
                reply.push(0x05);
                if offers_none(input) {
                    reply.push(0x00);
                    assert(reply@ =~= seq![0x05u8, 0x00u8]);
                    self.phase = ServerPhase::Request;
                    ServerStep { reply, next: ServerNext::Read }
                } else {
                    reply.push(0xFF);
                    assert(reply@ =~= seq![0x05u8, 0xFFu8]);
                    self.fail(reply, InboundError::NoAcceptableMethod)
                }
            },
            ServerPhase::Request => self.request(input),
            ServerPhase::AddressV4 => {
                let octets: [u8; 4] = [input[0], input[1], input[2], input[3]];
                let ip = IpAddr::V4(octets);
                self.phase = ServerPhase::Port(ip.text(), Some(ip));
                plain_read()
            },
            ServerPhase::NameLength => {
                let len: usize = input[0] as usize;
                let shared = match self.entrance {
                    Entrance::Shared => true,
                    Entrance::Plain => false,
                };
                if shared && (len == 0 || len > MAX_NAME_LEN) {
                    let reply = error_reply(0x08);
                    return self.fail(reply, InboundError::BadNameLength);
                }
                self.phase = ServerPhase::Name(len);
                plain_read()
            },
            ServerPhase::Name(_) => {
                self.phase = ServerPhase::Port(decode_lossy(input), None);
                plain_read()
            },
            ServerPhase::AddressV6 => {
                let octets: [u8; 16] = [
                    input[0],
                    input[1],
                    input[2],
                    input[3],
                    input[4],
                    input[5],
                    input[6],
                    input[7],
                    input[8],
                    input[9],
                    input[10],
                    input[11],
                    input[12],
                    input[13],
                    input[14],
                    input[15],
                ];
                let ip = IpAddr::V6(octets);
                self.phase = ServerPhase::Port(ip.text(), Some(ip));
                plain_read()
            },
            ServerPhase::Port(host, ip) => {
                let port = read_port(input[0], input[1]);
                ServerStep {
                    reply: Vec::new(),
                    next: ServerNext::Connect(
                        Destination { host, port, resolve_hostname: ip.is_none(), ip },
                    ),
                }
            },
            ServerPhase::Finished => plain_read(),
        }
    }

    fn request(&mut self, head: &[u8]) -> (r: ServerStep<Vec<u8>, String>)
        requires
            head@.len() == 4,
        ensures
            final(self).entrance == old(self).entrance,
            (final(self).phase@, r@) == request_reaction(old(self).entrance, head@),
    {
        if head[0] != 0x05 {
            return self.fail(Vec::new(), InboundError::BadRequestVersion);
        }
        let cmd: u8 = head[1];
        if cmd != 0x01 {
            let error = match self.entrance {
                Entrance::Shared => InboundError::UnsupportedCommand(cmd),
                Entrance::Plain => InboundError::PlainUnsupportedCommand(cmd),
            };
            let reply = error_reply(0x07);
            return self.fail(reply, error);
        }
        let atyp: u8 = head[3];
        match atyp {
            0x01 => {
                self.phase = ServerPhase::AddressV4;
                plain_read()
            },
            0x03 => {
                self.phase = ServerPhase::NameLength;
                plain_read()
            },
            0x04 => {
                self.phase = ServerPhase::AddressV6;
                plain_read()
            },
            _ => {
                let error = match self.entrance {
                    Entrance::Shared => InboundError::UnsupportedAddressType(atyp),
                    Entrance::Plain => InboundError::PlainUnsupportedAddressType(atyp),
                };
                let reply = error_reply(0x08);
                self.fail(reply, error)
            },
        }
    }
}

fn offers_none(methods: &[u8]) -> (r: bool)
    ensures
        r == methods@.contains(0x00u8),
{
    let mut i: usize = 0;
    while i < methods.len()
        invariant
            i <= methods@.len(),
            forall|j: int| 0 <= j < i ==> methods@[j] != 0x00u8,
        decreases methods@.len() - i,
    {
        if methods[i] == 0x00 {
            return true;
        }
        i = i + 1;
    }
    false
}

// ---------------------------------------------------------------------------
// Laws
// ---------------------------------------------------------------------------

/// How the server's handshake goes on a stream of bytes from the client.
pub enum ServerOutcome {
    /// The client asks for this destination; these bytes are left.
    Requested(Destination<Seq<char>>, Seq<u8>),
    /// The server gave up.
    Failed(InboundError<Seq<char>>),
    /// The stream is too short.
    Waiting,
}

/// The course of the server's handshake, from a phase on: the bytes that the server sends and
/// the outcome.
pub open spec fn server_course(
    entrance: Entrance,
    phase: ServerPhase<Seq<char>>,
    stream: Seq<u8>,
) -> (Seq<u8>, ServerOutcome)
    decreases phase.rank(),
{
    if phase is Finished || stream.len() < phase.want() {
        (Seq::empty(), ServerOutcome::Waiting)
    } else {
        let rest = stream.skip(phase.want() as int);
        let (next, step) = server_reaction(entrance, phase, stream.take(phase.want() as int));
        if next.rank() < phase.rank() {
            match step.next {
                ServerNext::Connect(d) => (step.reply, ServerOutcome::Requested(d, rest)),
                ServerNext::Fail(e) => (step.reply, ServerOutcome::Failed(e)),
                ServerNext::Read => {
                    let (sent, outcome) = server_course(entrance, next, rest);
                    (step.reply + sent, outcome)
                },
            }
        } else {
            (Seq::empty(), ServerOutcome::Waiting)
        }
    }
}

/// Law: each step of the server brings it nearer to the end, and it reads on just until it is
/// finished.
pub proof fn server_phases_run_out(
    entrance: Entrance,
    phase: ServerPhase<Seq<char>>,
    input: Seq<u8>,
)
    requires
        !(phase is Finished),
    ensures
        server_reaction(entrance, phase, input).0.rank() < phase.rank(),
        server_reaction(entrance, phase, input).0 is Finished <==> !(server_reaction(
            entrance,
            phase,
            input,
        ).1.next is Read),
{
}

/// The bytes that a client sends before its request, as the server on the shared port sees them
/// once the version byte is read.
pub open spec fn greeting_tail() -> Seq<u8> {
    proxy_client::greeting().skip(1)
}

proof fn lemma_after_greeting(entrance: Entrance, rest: Seq<u8>)
    ensures
        server_course(
            entrance,
            ServerPhase::MethodCount,
            seq![0x01u8, 0x00u8] + rest,
        ) == ({
            let (sent, outcome) = server_course(entrance, ServerPhase::Request, rest);
            (seq![0x05u8, 0x00u8] + sent, outcome)
        }),
{
    reveal_with_fuel(server_course, 3);
    let stream = seq![0x01u8, 0x00u8] + rest;
    let s1 = stream.skip(1);
    assert(stream.take(1)[0] == 0x01);
    assert(s1.take(1)[0] == 0x00);
    assert(s1.take(1).contains(0x00u8));
    assert(s1.skip(1) =~= rest);
    let tail = server_course(entrance, ServerPhase::Request, rest).0;
    assert(Seq::<u8>::empty() + (seq![0x05u8, 0x00u8] + tail) =~= seq![0x05u8, 0x00u8] + tail);
}

/// Law: the server on the shared port understands what the library's own client sends for an
/// address: it accepts the greeting and takes from the request the client's address and port.
pub proof fn server_understands_client_address(
    host: Seq<char>,
    ip: IpAddr,
    port: u16,
    remote_dns: bool,
    rest: Seq<u8>,
)
    ensures
        server_course(
            Entrance::Shared,
            ServerPhase::MethodCount,
            greeting_tail() + proxy_client::request_bytes(host, Some(ip), port, remote_dns)->Ok_0
                + rest,
        ) == (
            seq![0x05u8, 0x00u8],
            ServerOutcome::Requested(
                Destination {
                    host: net::address_text(ip),
                    port,
                    resolve_hostname: false,
                    ip: Some(ip),
                },
                rest,
            ),
        ),
{
    let request = proxy_client::request_bytes(host, Some(ip), port, remote_dns)->Ok_0;
    let stream = request + rest;
    assert(greeting_tail() + request + rest =~= seq![0x01u8, 0x00u8] + stream);
    lemma_after_greeting(Entrance::Shared, stream);
    match ip {
        IpAddr::V4(o) => {
            assert(stream =~= seq![0x05u8, 0x01u8, 0x00u8, 0x01u8] + o@ + buffer::be16(port)
                + rest);
            lemma_address_v4(o, port, rest);
        },
        IpAddr::V6(o) => {
            assert(stream =~= seq![0x05u8, 0x01u8, 0x00u8, 0x04u8] + o@ + buffer::be16(port)
                + rest);
            lemma_address_v6(o, port, rest);
        },
    }
    let none = Seq::<u8>::empty();
    assert(seq![0x05u8, 0x00u8] + none =~= seq![0x05u8, 0x00u8]);
}

proof fn lemma_port(host: Seq<char>, ip: Option<IpAddr>, port: u16, rest: Seq<u8>)
    ensures
        server_course(
            Entrance::Shared,
            ServerPhase::Port(host, ip),
            buffer::be16(port) + rest,
        ) == (
            Seq::<u8>::empty(),
            ServerOutcome::Requested(
                Destination { host, port, resolve_hostname: ip is None, ip },
                rest,
            ),
        ),
{
    let stream = buffer::be16(port) + rest;
    assert(stream.take(2) =~= buffer::be16(port));
    assert(stream.skip(2) =~= rest);
    buffer::port_bytes_read_back(port);
}

proof fn lemma_address_v4(o: [u8; 4], port: u16, rest: Seq<u8>)
    ensures
        server_course(
            Entrance::Shared,
            ServerPhase::Request,
            seq![0x05u8, 0x01u8, 0x00u8, 0x01u8] + o@ + buffer::be16(port) + rest,
        ) == (
            Seq::<u8>::empty(),
            ServerOutcome::Requested(
                Destination {
                    host: net::dotted(o@),
                    port,
                    resolve_hostname: false,
                    ip: Some(IpAddr::V4(o)),
                },
                rest,
            ),
        ),
{
    let stream = seq![0x05u8, 0x01u8, 0x00u8, 0x01u8] + o@ + buffer::be16(port) + rest;
    let s1 = stream.skip(4);
    let s2 = s1.skip(4);
    assert(stream.take(4) =~= seq![0x05u8, 0x01u8, 0x00u8, 0x01u8]);
    assert(s1.take(4) =~= o@);
    assert(octets4(o@) =~= o);
    assert(s2 =~= buffer::be16(port) + rest);
    lemma_port(net::dotted(o@), Some(IpAddr::V4(o)), port, rest);
    let none = Seq::<u8>::empty();
    assert(none + none =~= none);
    assert(server_course(Entrance::Shared, ServerPhase::AddressV4, s1) == server_course(
        Entrance::Shared,
        ServerPhase::Port(net::dotted(o@), Some(IpAddr::V4(o))),
        s2,
    ));
}

proof fn lemma_address_v6(o: [u8; 16], port: u16, rest: Seq<u8>)
    ensures
        server_course(
            Entrance::Shared,
            ServerPhase::Request,
            seq![0x05u8, 0x01u8, 0x00u8, 0x04u8] + o@ + buffer::be16(port) + rest,
        ) == (
            Seq::<u8>::empty(),
            ServerOutcome::Requested(
                Destination {
                    host: net::colon_hex(o@),
                    port,
                    resolve_hostname: false,
                    ip: Some(IpAddr::V6(o)),
                },
                rest,
            ),
        ),
{
    let stream = seq![0x05u8, 0x01u8, 0x00u8, 0x04u8] + o@ + buffer::be16(port) + rest;
    let s1 = stream.skip(4);
    let s2 = s1.skip(16);
    assert(stream.take(4) =~= seq![0x05u8, 0x01u8, 0x00u8, 0x04u8]);
    assert(s1.take(16) =~= o@);
    assert(octets16(o@) =~= o);
    assert(s2 =~= buffer::be16(port) + rest);
    lemma_port(net::colon_hex(o@), Some(IpAddr::V6(o)), port, rest);
    let none = Seq::<u8>::empty();
    assert(none + none =~= none);
    assert(server_course(Entrance::Shared, ServerPhase::AddressV6, s1) == server_course(
        Entrance::Shared,
        ServerPhase::Port(net::colon_hex(o@), Some(IpAddr::V6(o))),
        s2,
    ));
}

/// Law: the server on the shared port understands what the library's own client sends for a name
/// of 1 to 253 bytes: it takes from the request the same name and port.
pub proof fn server_understands_client_name(host: Seq<char>, port: u16, rest: Seq<u8>)
    requires
        1 <= vstd::utf8::encode_utf8(host).len() <= MAX_NAME_LEN,
    ensures
        server_course(
            Entrance::Shared,
            ServerPhase::MethodCount,
            greeting_tail() + proxy_client::request_bytes(host, None, port, true)->Ok_0 + rest,
        ) == (
            seq![0x05u8, 0x00u8],
            ServerOutcome::Requested(
                Destination { host, port, resolve_hostname: true, ip: None },
                rest,
            ),
        ),
{
    let name = vstd::utf8::encode_utf8(host);
    let request = proxy_client::request_bytes(host, None, port, true)->Ok_0;
    let stream = request + rest;
    assert(greeting_tail() + request + rest =~= seq![0x01u8, 0x00u8] + stream);
    lemma_after_greeting(Entrance::Shared, stream);
    let head = seq![0x05u8, 0x01u8, 0x00u8, 0x03u8];
    let len = seq![name.len() as u8];
    let s3 = buffer::be16(port) + rest;
    assert(stream =~= head + (len + (name + s3)));
    text::encoded_text_decodes(host);
    lemma_silent_step(
        Entrance::Shared,
        ServerPhase::Request,
        head,
        ServerPhase::NameLength,
        len + (name + s3),
    );
    lemma_silent_step(
        Entrance::Shared,
        ServerPhase::NameLength,
        len,
        ServerPhase::Name(name.len() as usize),
        name + s3,
    );
    lemma_silent_step(
        Entrance::Shared,
        ServerPhase::Name(name.len() as usize),
        name,
        ServerPhase::Port(host, None),
        s3,
    );
    lemma_port(host, None, port, rest);
    assert(seq![0x05u8, 0x00u8] + Seq::<u8>::empty() =~= seq![0x05u8, 0x00u8]);
}

/// Law: on the shared port a request that is not served is answered: a command other than CONNECT
/// with code 7, an unknown address type and a name that is empty or longer than 253 bytes with
/// code 8; and a client that offers no served method is told so.
pub proof fn refused_requests_are_answered(head: Seq<u8>, len: u8, methods: Seq<u8>, count: usize)
    requires
        head.len() == 4,
        head[0] == 0x05,
    ensures
        head[1] != 0x01 ==> server_reaction(Entrance::Shared, ServerPhase::Request, head).1
            == give_up(error_reply_bytes(0x07), InboundError::UnsupportedCommand(head[1])),
        head[1] == 0x01 && head[3] != 0x01 && head[3] != 0x03 && head[3] != 0x04
            ==> server_reaction(Entrance::Shared, ServerPhase::Request, head).1 == give_up(
            error_reply_bytes(0x08),
            InboundError::UnsupportedAddressType(head[3]),
        ),
        len == 0 || len > 253 ==> server_reaction(
            Entrance::Shared,
            ServerPhase::NameLength,
            seq![len],
        ).1 == give_up(error_reply_bytes(0x08), InboundError::BadNameLength),
        !methods.contains(0x00u8) ==> server_reaction(
            Entrance::Shared,
            ServerPhase::Methods(count),
            methods,
        ).1 == give_up(seq![0x05u8, 0xFFu8], InboundError::NoAcceptableMethod),
{
}

/// Law: the library's own client takes the server's replies as they are meant: a success reply
/// connects it with nothing left over, an error reply fails it with the code.
pub proof fn client_understands_server_replies(
    request: Seq<u8>,
    local: Option<(IpAddr, u16)>,
    code: u8,
    rest: Seq<u8>,
)
    requires
        code != 0x00,
    ensures
        proxy_client::client_course(
            Socks5Phase::Method,
            Ok(request),
            seq![0x05u8, 0x00u8] + success_reply_bytes(local) + rest,
        ) == (request, proxy_client::ClientOutcome::Connected(rest)),
        proxy_client::client_course(
            Socks5Phase::Method,
            Ok(request),
            seq![0x05u8, 0x00u8] + error_reply_bytes(code) + rest,
        ) == (request, proxy_client::ClientOutcome::Failed(ClientError::Refused(code))),
{
    let reply = success_reply_bytes(local);
    let stream = seq![0x05u8, 0x00u8] + reply + rest;
    match local {
        Some((IpAddr::V6(o), port)) => {
            reveal_with_fuel(proxy_client::client_course, 4);
            let s1 = stream.skip(2);
            let s2 = s1.skip(4);
            assert(stream.take(2)[0] == 0x05 && stream.take(2)[1] == 0x00);
            assert(s1.take(4)[0] == 0x05 && s1.take(4)[1] == 0x00 && s1.take(4)[3] == 0x04);
            assert(s2.skip(18) =~= rest);
            let r: Result<Seq<u8>, ClientError<Seq<char>>> = Ok(request);
            assert(proxy_client::client_course(Socks5Phase::Bound(18), r, s2) == (
                Seq::<u8>::empty(),
                proxy_client::ClientOutcome::Connected(rest),
            ));
            assert(request + Seq::<u8>::empty() =~= request);
        },
        _ => {
            let bound = reply.skip(4);
            assert(stream =~= seq![0x05u8, 0x00u8, 0x05u8, 0x00u8, 0x00u8, 0x01u8] + bound + rest);
            proxy_client::client_connects_on_success(request, bound, rest);
        },
    }
    let refusal = seq![0x05u8, 0x00u8] + error_reply_bytes(code) + rest;
    let tail = error_reply_bytes(code).skip(2) + rest;
    assert(refusal =~= seq![0x05u8, 0x00u8, 0x05u8, code] + tail);
    proxy_client::client_reports_refusal(request, code, tail);
}

/// Law: a client that offers no authentication is accepted, wherever that method stands in its
/// list, whatever else it offers and however much, on either port: it is told so, and its request
/// is read. A client that does not offer it is told that, and turned away.
pub proof fn methods_with_none_are_accepted(
    entrance: Entrance,
    count: usize,
    methods: Seq<u8>,
    i: int,
)
    ensures
        0 <= i < methods.len() && methods[i] == 0 ==> {
            let (phase, step) = server_reaction(entrance, ServerPhase::Methods(count), methods);
            &&& phase == ServerPhase::<Seq<char>>::Request
            &&& step.reply == seq![5u8, 0u8]
            &&& step.next == ServerNext::<Seq<char>>::Read
        },
        (forall|k: int| 0 <= k < methods.len() ==> methods[k] != 0) ==> {
            let (phase, step) = server_reaction(entrance, ServerPhase::Methods(count), methods);
            &&& phase == ServerPhase::<Seq<char>>::Finished
            &&& step.reply == seq![5u8, 255u8]
            &&& step.next == ServerNext::<Seq<char>>::Fail(InboundError::NoAcceptableMethod)
        },
{
}

/// Whether bytes are an address of a kind, as it stands in a request: four or sixteen octets, or
/// the length of a name and the name. On the shared port a name has 1 to 253 bytes.
pub open spec fn is_request_address(entrance: Entrance, kind: u8, address: Seq<u8>) -> bool {
    ||| kind == 1 && address.len() == 4
    ||| kind == 4 && address.len() == 16
    ||| {
        &&& kind == 3
        &&& address.len() > 0
        &&& address.len() == 1 + address[0]
        &&& entrance is Shared ==> 1 <= address[0] <= 253
    }
}

/// Whether a destination is the one that an address of a kind and the two bytes of a port ask for.
pub open spec fn is_asked_for(
    d: Destination<Seq<char>>,
    kind: u8,
    address: Seq<u8>,
    hi: u8,
    lo: u8,
) -> bool {
    &&& d.port == hi * 256 + lo
    &&& kind == 1 ==> (d.ip matches Some(IpAddr::V4(o)) && o@ == address) && !d.resolve_hostname
        && d.host == text::decimal(address[0] as nat) + seq!['.'] + text::decimal(
        address[1] as nat,
    ) + seq!['.'] + text::decimal(address[2] as nat) + seq!['.'] + text::decimal(address[3] as nat)
    &&& kind == 4 ==> (d.ip matches Some(IpAddr::V6(o)) && o@ == address) && !d.resolve_hostname
        && d.host == net::colon_hex(address)
    &&& kind == 3 ==> d.ip is None && d.resolve_hostname && d.host == text::text_of_bytes(
        address.skip(1),
    )
}

proof fn lemma_course_step(
    entrance: Entrance,
    phase: ServerPhase<Seq<char>>,
    input: Seq<u8>,
    rest: Seq<u8>,
)
    requires
        !(phase is Finished),
        input.len() == phase.want(),
    ensures
        ({
            let (next, step) = server_reaction(entrance, phase, input);
            server_course(entrance, phase, input + rest) == (match step.next {
                ServerNext::Connect(d) => (step.reply, ServerOutcome::Requested(d, rest)),
                ServerNext::Fail(e) => (step.reply, ServerOutcome::Failed(e)),
                ServerNext::Read => (
                    step.reply + server_course(entrance, next, rest).0,
                    server_course(entrance, next, rest).1,
                ),
            })
        }),
{
    let stream = input + rest;
    assert(stream.take(input.len() as int) =~= input);
    assert(stream.skip(input.len() as int) =~= rest);
    server_phases_run_out(entrance, phase, input);
}

proof fn lemma_silent_step(
    entrance: Entrance,
    phase: ServerPhase<Seq<char>>,
    input: Seq<u8>,
    next: ServerPhase<Seq<char>>,
    rest: Seq<u8>,
)
    requires
        !(phase is Finished),
        input.len() == phase.want(),
        server_reaction(entrance, phase, input) == (next, read_on()),
    ensures
        server_course(entrance, phase, input + rest) == server_course(entrance, next, rest),
{
    lemma_course_step(entrance, phase, input, rest);
    let tail = server_course(entrance, next, rest);
    assert(Seq::<u8>::empty() + tail.0 =~= tail.0);
}

proof fn lemma_port_course(
    entrance: Entrance,
    host: Seq<char>,
    ip: Option<IpAddr>,
    hi: u8,
    lo: u8,
    rest: Seq<u8>,
)
    ensures
        server_course(entrance, ServerPhase::Port(host, ip), seq![hi, lo] + rest) == (
            Seq::<u8>::empty(),
            ServerOutcome::Requested(
                Destination {
                    host,
                    port: (hi * 256 + lo) as u16,
                    resolve_hostname: ip is None,
                    ip,
                },
                rest,
            ),
        ),
{
    lemma_course_step(entrance, ServerPhase::Port(host, ip), seq![hi, lo], rest);
}

/// What a handshake comes to in which a client asks for a destination: nothing more is sent.
spec fn served(
    host: Seq<char>,
    ip: Option<IpAddr>,
    hi: u8,
    lo: u8,
    rest: Seq<u8>,
) -> (Seq<u8>, ServerOutcome) {
    (
        Seq::<u8>::empty(),
        ServerOutcome::Requested(
            Destination {
                host,
                port: (hi * 256 + lo) as u16,
                resolve_hostname: ip is None,
                ip,
            },
            rest,
        ),
    )
}

proof fn lemma_octets(address: Seq<u8>)
    ensures
        address.len() == 4 ==> octets4(address)@ == address,
        address.len() == 16 ==> octets16(address)@ == address,
{
    if address.len() == 4 {
        assert(octets4(address)@ =~= address);
    }
    if address.len() == 16 {
        assert(octets16(address)@ =~= address);
    }
}

proof fn lemma_v4_course(
    entrance: Entrance,
    reserved: u8,
    address: Seq<u8>,
    hi: u8,
    lo: u8,
    rest: Seq<u8>,
)
    requires
        address.len() == 4,
    ensures
        ({
            let ip = IpAddr::V4(octets4(address));
            server_course(
                entrance,
                ServerPhase::Request,
                seq![5u8, 1u8, reserved, 1u8] + (address + (seq![hi, lo] + rest)),
            ) == served(net::address_text(ip), Some(ip), hi, lo, rest)
        }),
{
    let ip = IpAddr::V4(octets4(address));
    let host = net::address_text(ip);
    let tail = seq![hi, lo] + rest;
    lemma_silent_step(
        entrance,
        ServerPhase::Request,
        seq![5u8, 1u8, reserved, 1u8],
        ServerPhase::AddressV4,
        address + tail,
    );
    lemma_silent_step(
        entrance,
        ServerPhase::AddressV4,
        address,
        ServerPhase::Port(host, Some(ip)),
        tail,
    );
    lemma_port_course(entrance, host, Some(ip), hi, lo, rest);
}

proof fn lemma_v6_course(
    entrance: Entrance,
    reserved: u8,
    address: Seq<u8>,
    hi: u8,
    lo: u8,
    rest: Seq<u8>,
)
    requires
        address.len() == 16,
    ensures
        ({
            let ip = IpAddr::V6(octets16(address));
            server_course(
                entrance,
                ServerPhase::Request,
                seq![5u8, 1u8, reserved, 4u8] + (address + (seq![hi, lo] + rest)),
            ) == served(net::address_text(ip), Some(ip), hi, lo, rest)
        }),
{
    let ip = IpAddr::V6(octets16(address));
    let host = net::address_text(ip);
    let tail = seq![hi, lo] + rest;
    lemma_silent_step(
        entrance,
        ServerPhase::Request,
        seq![5u8, 1u8, reserved, 4u8],
        ServerPhase::AddressV6,
        address + tail,
    );
    lemma_silent_step(
        entrance,
        ServerPhase::AddressV6,
        address,
        ServerPhase::Port(host, Some(ip)),
        tail,
    );
    lemma_port_course(entrance, host, Some(ip), hi, lo, rest);
}

proof fn lemma_name_course(
    entrance: Entrance,
    reserved: u8,
    address: Seq<u8>,
    hi: u8,
    lo: u8,
    rest: Seq<u8>,
)
    requires
        is_request_address(entrance, 3, address),
    ensures
        server_course(
            entrance,
            ServerPhase::Request,
            seq![5u8, 1u8, reserved, 3u8] + (address + (seq![hi, lo] + rest)),
        ) == served(text::text_of_bytes(address.skip(1)), None, hi, lo, rest),
{
    let len = seq![address[0]];
    let name = address.skip(1);
    let n = address[0] as usize;
    let host = text::text_of_bytes(name);
    let tail = seq![hi, lo] + rest;
    lemma_silent_step(
        entrance,
        ServerPhase::Request,
        seq![5u8, 1u8, reserved, 3u8],
        ServerPhase::NameLength,
        address + tail,
    );
    assert(address + tail =~= len + (name + tail));
    lemma_silent_step(entrance, ServerPhase::NameLength, len, ServerPhase::Name(n), name + tail);
    lemma_silent_step(entrance, ServerPhase::Name(n), name, ServerPhase::Port(host, None), tail);
    lemma_port_course(entrance, host, None, hi, lo, rest);
}

proof fn lemma_address_course(
    entrance: Entrance,
    reserved: u8,
    kind: u8,
    address: Seq<u8>,
    hi: u8,
    lo: u8,
    rest: Seq<u8>,
)
    requires
        is_request_address(entrance, kind, address),
    ensures
        ({
            let (sent, outcome) = server_course(
                entrance,
                ServerPhase::Request,
                seq![5u8, 1u8, reserved, kind] + (address + (seq![hi, lo] + rest)),
            );
            &&& sent == Seq::<u8>::empty()
            &&& outcome matches ServerOutcome::Requested(d, left) && left == rest && is_asked_for(
                d,
                kind,
                address,
                hi,
                lo,
            )
        }),
{
    lemma_octets(address);
    if kind == 1 {
        lemma_v4_course(entrance, reserved, address, hi, lo, rest);
        net::dotted_text_shows_the_octets(octets4(address));
    } else if kind == 4 {
        lemma_v6_course(entrance, reserved, address, hi, lo, rest);
    } else {
        lemma_name_course(entrance, reserved, address, hi, lo, rest);
    }
}

/// The phase in which a handshake begins, and what a client sends for it: on the shared port the
/// version has been read.
pub open spec fn first_phase(entrance: Entrance) -> ServerPhase<Seq<char>> {
    if entrance is Shared {
        ServerPhase::MethodCount
    } else {
        ServerPhase::Version
    }
}

/// The first bytes of a client that offers so many methods.
pub open spec fn opening_bytes(entrance: Entrance, count: int) -> Seq<u8> {
    if entrance is Shared {
        seq![count as u8]
    } else {
        seq![5u8, count as u8]
    }
}

/// Law: on either port, every client that offers no authentication among its methods and then asks
/// for a connection gets what it asks for: the method is accepted, the destination is the address
/// or name and the port of the request, and not a byte behind it is read.
pub proof fn every_request_is_served(
    entrance: Entrance,
    methods: Seq<u8>,
    i: int,
    reserved: u8,
    kind: u8,
    address: Seq<u8>,
    hi: u8,
    lo: u8,
    rest: Seq<u8>,
)
    requires
        0 <= i < methods.len() <= 255,
        methods[i] == 0,
        is_request_address(entrance, kind, address),
    ensures
        ({
            let (sent, outcome) = server_course(
                entrance,
                first_phase(entrance),
                opening_bytes(entrance, methods.len() as int) + (methods + (seq![
                    5u8,
                    1u8,
                    reserved,
                    kind,
                ] + (address + (seq![hi, lo] + rest)))),
            );
            &&& sent == seq![5u8, 0u8]
            &&& outcome matches ServerOutcome::Requested(d, left) && left == rest && is_asked_for(
                d,
                kind,
                address,
                hi,
                lo,
            )
        }),
{
    let request = seq![5u8, 1u8, reserved, kind] + (address + (seq![hi, lo] + rest));
    let n = methods.len() as usize;
    let none = Seq::<u8>::empty();
    lemma_course_step(
        entrance,
        first_phase(entrance),
        opening_bytes(entrance, methods.len() as int),
        methods + request,
    );
    methods_with_none_are_accepted(entrance, n, methods, i);
    lemma_course_step(entrance, ServerPhase::Methods(n), methods, request);
    lemma_address_course(entrance, reserved, kind, address, hi, lo, rest);
    assert(seq![5u8, 0u8] + none =~= seq![5u8, 0u8]);
    assert(none + seq![5u8, 0u8] =~= seq![5u8, 0u8]);
}

/// Law: what is not served is refused, on either port: another version without an answer, a
/// command that is not CONNECT with code 7, an unknown type of address with code 8; on the shared
/// port also an empty list of methods, and a name that is empty or longer than 253 bytes. The
/// answer has ten bytes and an address of zeros.
pub proof fn other_requests_are_refused(
    entrance: Entrance,
    version: u8,
    count: u8,
    command: u8,
    reserved: u8,
    kind: u8,
    len: u8,
)
    ensures
        version != 5 ==> server_reaction(
            Entrance::Plain,
            ServerPhase::Version,
            seq![version, count],
        ) == (
            ServerPhase::<Seq<char>>::Finished,
            ServerStep {
                reply: Seq::<u8>::empty(),
                next: ServerNext::<Seq<char>>::Fail(InboundError::UnsupportedVersion(version)),
            },
        ),
        server_reaction(Entrance::Shared, ServerPhase::MethodCount, seq![0u8]) == (
            ServerPhase::<Seq<char>>::Finished,
            ServerStep {
                reply: Seq::<u8>::empty(),
                next: ServerNext::<Seq<char>>::Fail(InboundError::BadMethodCount),
            },
        ),
        version != 5 ==> server_reaction(
            entrance,
            ServerPhase::Request,
            seq![version, command, reserved, kind],
        ) == (
            ServerPhase::<Seq<char>>::Finished,
            ServerStep {
                reply: Seq::<u8>::empty(),
                next: ServerNext::<Seq<char>>::Fail(InboundError::BadRequestVersion),
            },
        ),
        command != 1 ==> server_reaction(
            entrance,
            ServerPhase::Request,
            seq![5u8, command, reserved, kind],
        ) == (
            ServerPhase::<Seq<char>>::Finished,
            ServerStep {
                reply: seq![5u8, 7u8, 0u8, 1u8, 0u8, 0u8, 0u8, 0u8, 0u8, 0u8],
                next: ServerNext::<Seq<char>>::Fail(
                    if entrance is Shared {
                        InboundError::UnsupportedCommand(command)
                    } else {
                        InboundError::PlainUnsupportedCommand(command)
                    },
                ),
            },
        ),
        kind != 1 && kind != 3 && kind != 4 ==> server_reaction(
            entrance,
            ServerPhase::Request,
            seq![5u8, 1u8, reserved, kind],
        ) == (
            ServerPhase::<Seq<char>>::Finished,
            ServerStep {
                reply: seq![5u8, 8u8, 0u8, 1u8, 0u8, 0u8, 0u8, 0u8, 0u8, 0u8],
                next: ServerNext::<Seq<char>>::Fail(
                    if entrance is Shared {
                        InboundError::UnsupportedAddressType(kind)
                    } else {
                        InboundError::PlainUnsupportedAddressType(kind)
                    },
                ),
            },
        ),
        len == 0 || len > 253 ==> server_reaction(
            Entrance::Shared,
            ServerPhase::NameLength,
            seq![len],
        ) == (
            ServerPhase::<Seq<char>>::Finished,
            ServerStep {
                reply: seq![5u8, 8u8, 0u8, 1u8, 0u8, 0u8, 0u8, 0u8, 0u8, 0u8],
                next: ServerNext::<Seq<char>>::Fail(InboundError::BadNameLength),
            },
        ),
{
}

/// Law: a granted request is answered with success and the local address and port, or zeros where
/// they are not known; a refused one with its code.
pub proof fn replies_have_their_form(ip: IpAddr, port: u16, code: u8)
    ensures
        ({
            let octets = match ip {
                IpAddr::V4(o) => o@,
                IpAddr::V6(o) => o@,
            };
            let b = success_reply_bytes(Some((ip, port)));
            &&& b.len() == octets.len() + 6
            &&& b[0] == 5 && b[1] == 0 && b[2] == 0
            &&& b[3] == (if ip is V4 {
                1u8
            } else {
                4u8
            })
            &&& b.subrange(4, b.len() - 2) == octets
            &&& b[b.len() - 2] * 256 + b[b.len() - 1] == port
        }),
        success_reply_bytes(None) == seq![5u8, 0u8, 0u8, 1u8, 0u8, 0u8, 0u8, 0u8, 0u8, 0u8],
        error_reply_bytes(code) == seq![5u8, code, 0u8, 1u8, 0u8, 0u8, 0u8, 0u8, 0u8, 0u8],
{
    let octets = match ip {
        IpAddr::V4(o) => o@,
        IpAddr::V6(o) => o@,
    };
    let b = success_reply_bytes(Some((ip, port)));
    assert(b.subrange(4, b.len() - 2) =~= octets);
}

} // verus!
