//! The server side of SOCKS4 and SOCKS4a handshakes.

use crate::buffer;
use crate::buffer::{
    buf_slice, buf_to_vec, buf_with_capacity, find_byte, put_slice, read_port, split_to,
};
use crate::inbound::{Destination, InboundError};
use crate::net;
use crate::net::{ipv4_text, IpAddr};
use crate::text;
use crate::text::decode_lossy;
use bytes::BytesMut;
use vstd::prelude::*;
use vstd::string::*;

verus! {

/// The number of data bytes after which an unfinished handshake is given up.
pub const HANDSHAKE_MAX_LEN: usize = 1024;

/// The number of data bytes that are read at a time.
pub const CHUNK_LEN: usize = 256;

/// The longest user that a request may hold.
pub const MAX_USER_LEN: usize = 255;

/// The longest domain name that a request may hold.
pub const MAX_DOMAIN_LEN: usize = 253;

/// The status of a reply that grants a request.
pub const GRANTED: u8 = 0x5A;

/// The status of a reply that rejects a request.
pub const REJECTED: u8 = 0x5B;

/// The reply with a status.
pub open spec fn reply_bytes(status: u8) -> Seq<u8> {
    seq![0u8, status, 0u8, 0u8, 0u8, 0u8, 0u8, 0u8]
}

/// Builds the reply with a status.
pub fn socks4_reply(status: u8) -> (r: Vec<u8>)
    ensures
        r@ == reply_bytes(status),
{
    let mut reply: Vec<u8> = Vec::new();
    reply.push(0);
    reply.push(status);
    reply.push(0);
    reply.push(0);
    reply.push(0);
    reply.push(0);
    reply.push(0);
    reply.push(0);
    assert(reply@ =~= reply_bytes(status));
    reply
}

/// The head of a request, after the version byte: the port and the address.
#[derive(Clone, Copy, Debug)]
pub struct Socks4Head {
    pub port: u16,
    pub octets: [u8; 4],
}

impl Socks4Head {
    /// Whether the address announces a domain name: it is 0.0.0.x with x other than 0.
    pub open spec fn names_domain(self) -> bool {
        &&& self.octets@[0] == 0
        &&& self.octets@[1] == 0
        &&& self.octets@[2] == 0
        &&& self.octets@[3] != 0
    }

    /// Tells whether the address announces a domain name.
    pub fn is_socks4a(&self) -> (r: bool)
        ensures
            r == self.names_domain(),
    {
        self.octets[0] == 0 && self.octets[1] == 0 && self.octets[2] == 0 && self.octets[3] != 0
    }
}

/// What the server does next.
#[derive(Debug)]
pub enum Socks4Next<B, T> {
    /// Read on.
    Read,
    /// Connect to the destination; these bytes follow the request.
    Connect(Destination<T>, B),
    /// Give up.
    Fail(InboundError<T>),
}

impl View for Socks4Next<Vec<u8>, String> {
    type V = Socks4Next<Seq<u8>, Seq<char>>;

    open spec fn view(&self) -> Socks4Next<Seq<u8>, Seq<char>> {
        match self {
            Socks4Next::Read => Socks4Next::Read,
            Socks4Next::Connect(d, b) => Socks4Next::Connect(d@, b@),
            Socks4Next::Fail(e) => Socks4Next::Fail(e@),
        }
    }
}

/// The head of a request, or the error and the reply for a command that is not served.
pub open spec fn head_of(header: Seq<u8>) -> Result<Socks4Head, InboundError<Seq<char>>> {
    if header[0] != 0x01 {
        Err(InboundError::UnsupportedSocks4Command(header[0]))
    } else {
        Ok(
            Socks4Head {
                port: buffer::port_of(header[1], header[2]),
                octets: [header[3], header[4], header[5], header[6]],
            },
        )
    }
}

/// The reaction to the data that follows the head: the user and, where the head announces one,
/// a domain name, each closed by a zero byte.
pub open spec fn data_reaction(head: Socks4Head, data: Seq<u8>) -> Socks4Next<Seq<u8>, Seq<char>> {
    match buffer::first_byte(data, 0) {
        Some(user_len) if !head.names_domain() => if user_len > MAX_USER_LEN {
            Socks4Next::Fail(InboundError::UserIdTooLong(user_len as usize))
        } else {
            Socks4Next::Connect(
                Destination {
                    host: net::dotted(head.octets@),
                    port: head.port,
                    resolve_hostname: false,
                    ip: Some(IpAddr::V4(head.octets)),
                },
                data.skip(user_len + 1),
            )
        },
        Some(user_len) if buffer::first_byte(data.skip(user_len + 1), 0) is Some => {
            let after_user = data.skip(user_len + 1);
            let domain_len = buffer::first_byte(after_user, 0)->0;
            if user_len > MAX_USER_LEN {
                Socks4Next::Fail(InboundError::UserIdTooLong(user_len as usize))
            } else if domain_len > MAX_DOMAIN_LEN {
                Socks4Next::Fail(InboundError::DomainTooLong(domain_len as usize))
            } else {
                Socks4Next::Connect(
                    Destination {
                        host: text::text_of_bytes(after_user.take(domain_len)),
                        port: head.port,
                        resolve_hostname: true,
                        ip: None,
                    },
                    after_user.skip(domain_len + 1),
                )
            }
        },
        _ => if data.len() > HANDSHAKE_MAX_LEN {
            Socks4Next::Fail(InboundError::Socks4TooLong)
        } else {
            Socks4Next::Read
        },
    }
}

/// The reaction to the next bytes of the data; there are none when the client closed the
/// connection.
pub open spec fn after_chunk(head: Socks4Head, data: Seq<u8>, chunk: Seq<u8>) -> Socks4Next<
    Seq<u8>,
    Seq<char>,
> {
    if chunk.len() == 0 {
        Socks4Next::Fail(InboundError::Socks4Closed)
    } else {
        data_reaction(head, data + chunk)
    }
}

/// The head of a request, or the reply and the error for one that is not served.
pub open spec fn start_of(header: Seq<u8>) -> Result<
    Socks4Head,
    (Seq<u8>, InboundError<Seq<char>>),
> {
    match head_of(header) {
        Ok(head) => Ok(head),
        Err(e) => Err((reply_bytes(REJECTED), e)),
    }
}

/// The server side of a SOCKS4 handshake, once the head of the request is read.
#[derive(Debug)]
pub struct Socks4Handshake {
    head: Socks4Head,
    buf: BytesMut,
    user_end: Option<usize>,
}

impl Socks4Handshake {
    /// The head of the request.
    pub closed spec fn head(self) -> Socks4Head {
        self.head
    }

    /// The data read so far.
    pub closed spec fn data(self) -> Seq<u8> {
        buffer::buf_bytes(self.buf)
    }

    /// Whether the server still reads: the data does not complete a request, and the end of the
    /// user is remembered where it has been seen.
    pub closed spec fn reading(self) -> bool {
        &&& data_reaction(self.head, buffer::buf_bytes(self.buf)) is Read
        &&& match self.user_end {
            Some(u) => buffer::first_byte(buffer::buf_bytes(self.buf), 0) == Some(u as int),
            None => buffer::first_byte(buffer::buf_bytes(self.buf), 0) is None,
        }
    }

    /// Starts a handshake from the seven bytes after the version byte, or hands out the reply and
    /// the error for a command that is not served.
    pub fn new(header: &[u8]) -> (r: Result<Socks4Handshake, (Vec<u8>, InboundError<String>)>)
        requires
            header@.len() == 7,
        ensures
            match r {
                Ok(h) => head_of(header@) == Ok::<Socks4Head, InboundError<Seq<char>>>(h.head())
                    && h.data() == Seq::<u8>::empty() && h.reading(),
                Err((reply, e)) => head_of(header@) == Err::<Socks4Head, InboundError<Seq<char>>>(
                    e@,
                ) && reply@ == reply_bytes(REJECTED),
            },
            match r {
                Ok(h) => start_of(header@) == Ok::<Socks4Head, (Seq<u8>, InboundError<Seq<char>>)>(
                    h.head(),
                ),
                Err((reply, e)) => start_of(header@) == Err::<
                    Socks4Head,
                    (Seq<u8>, InboundError<Seq<char>>),
                >((reply@, e@)),
            },
    {
        let cmd: u8 = header[0];
        if cmd != 0x01 {
            return Err((socks4_reply(REJECTED), InboundError::UnsupportedSocks4Command(cmd)));
        }
        let port = read_port(header[1], header[2]);
        let head = Socks4Head { port, octets: [header[3], header[4], header[5], header[6]] };
        let buf = buf_with_capacity(512);
        Ok(Socks4Handshake { head, buf, user_end: None })
    }

    /// Whether the client asks for a domain name.
    pub fn is_socks4a(&self) -> (r: bool)
        ensures
            r == self.head().names_domain(),
    {
        self.head.is_socks4a()
    }

    /// Takes the bytes that were read; none were read when the client closed the connection.
    pub fn step(&mut self, chunk: &[u8]) -> (r: Socks4Next<Vec<u8>, String>)
        requires
            old(self).reading(),
            chunk@.len() <= CHUNK_LEN,
        ensures
            chunk@.len() == 0 ==> r@ == Socks4Next::<Seq<u8>, Seq<char>>::Fail(
                InboundError::Socks4Closed,
            ),
            chunk@.len() > 0 ==> r@ == data_reaction(old(self).head(), old(self).data() + chunk@),
            r@ == after_chunk(old(self).head(), old(self).data(), chunk@),
            final(self).head() == old(self).head(),
            r is Read ==> final(self).reading() && final(self).data() == old(self).data() + chunk@,
    {
        if chunk.len() == 0 {
            return Socks4Next::Fail(InboundError::Socks4Closed);
        }
        let ghost before = buffer::buf_bytes(self.buf);
        put_slice(&mut self.buf, chunk);
        let ghost data = before + chunk@;
        proof {
            buffer::first_byte_is_least(before, 0);
            buffer::first_byte_is_least(data, 0);
            if let Some(u) = buffer::first_byte(before, 0) {
                assert(data[u] == before[u]);
                assert(forall|j: int| 0 <= j < u ==> data[j] == before[j]);
                buffer::first_byte_from_least(data, 0, u);
            }
        }
        if self.user_end.is_none() {
            assert(data.skip(0) =~= data);
            self.user_end = find_byte(buf_slice(&self.buf), 0, 0);
        }
        let is_socks4a = self.head.is_socks4a();
        let user_len: usize = match self.user_end {
            Some(u) => u,
            None => {
                return self.unfinished();
            },
        };
        proof {
            buffer::first_byte_is_least(data.skip(user_len + 1), 0);
        }
        if !is_socks4a {
            if user_len > MAX_USER_LEN {
                return Socks4Next::Fail(InboundError::UserIdTooLong(user_len));
            }
            let _user = split_to(&mut self.buf, user_len + 1);
            let host = ipv4_text(&self.head.octets);
            return Socks4Next::Connect(
                Destination {
                    host,
                    port: self.head.port,
                    resolve_hostname: false,
                    ip: Some(IpAddr::V4(self.head.octets)),
                },
                buf_to_vec(&self.buf),
            );
        }
        let domain_end: usize = match find_byte(buf_slice(&self.buf), user_len + 1, 0) {
            Some(d) => d,
            None => {
                return self.unfinished();
            },
        };
        if user_len > MAX_USER_LEN {
            return Socks4Next::Fail(InboundError::UserIdTooLong(user_len));
        }
        let _user = split_to(&mut self.buf, user_len + 1);
        let domain_len: usize = domain_end - (user_len + 1);
        if domain_len > MAX_DOMAIN_LEN {
            return Socks4Next::Fail(InboundError::DomainTooLong(domain_len));
        }
        let domain = split_to(&mut self.buf, domain_len + 1);
        let name = vstd::slice::slice_subrange(buf_slice(&domain), 0, domain_len);
        assert(name@ =~= data.skip(user_len + 1).take(domain_len as int));
        Socks4Next::Connect(
            Destination {
                host: decode_lossy(name),
                port: self.head.port,
                resolve_hostname: true,
                ip: None,
            },
            buf_to_vec(&self.buf),
        )
    }

    fn unfinished(&self) -> (r: Socks4Next<Vec<u8>, String>)
        ensures
            r@ == (if buffer::buf_bytes(self.buf).len() > HANDSHAKE_MAX_LEN {
                Socks4Next::<Seq<u8>, Seq<char>>::Fail(InboundError::Socks4TooLong)
            } else {
                Socks4Next::<Seq<u8>, Seq<char>>::Read
            }),
    {
        if buf_slice(&self.buf).len() > HANDSHAKE_MAX_LEN {
            Socks4Next::Fail(InboundError::Socks4TooLong)
        } else {
            Socks4Next::Read
        }
    }
}

// ---------------------------------------------------------------------------
// Laws
// ---------------------------------------------------------------------------

/// A reaction with more bytes after the request.
pub open spec fn with_more(next: Socks4Next<Seq<u8>, Seq<char>>, more: Seq<u8>) -> Socks4Next<
    Seq<u8>,
    Seq<char>,
> {
    match next {
        Socks4Next::Connect(d, b) => Socks4Next::Connect(d, b + more),
        _ => next,
    }
}

/// Law: a request that the data completes stays the same request when more data follows, and so
/// does the error of one that is too long in a field; the bytes that follow are kept. So what a
/// client asks for does not depend on how its data is cut into pieces.
pub proof fn completed_request_is_stable(head: Socks4Head, data: Seq<u8>, more: Seq<u8>)
    requires
        !(data_reaction(head, data) is Read),
        data_reaction(head, data) != Socks4Next::<Seq<u8>, Seq<char>>::Fail(
            InboundError::Socks4TooLong,
        ),
    ensures
        data_reaction(head, data + more) == with_more(data_reaction(head, data), more),
{
    let all = data + more;
    buffer::first_byte_is_least(data, 0);
    let u = buffer::first_byte(data, 0)->0;
    assert(forall|j: int| 0 <= j <= u ==> all[j] == data[j]);
    buffer::first_byte_from_least(all, 0, u);
    let rest = data.skip(u + 1);
    assert(all.skip(u + 1) =~= rest + more);
    if head.names_domain() {
        buffer::first_byte_is_least(rest, 0);
        let d = buffer::first_byte(rest, 0)->0;
        assert(forall|j: int| 0 <= j <= d ==> (rest + more)[j] == rest[j]);
        buffer::first_byte_from_least(rest + more, 0, d);
        assert((rest + more).take(d) =~= rest.take(d));
        assert((rest + more).skip(d + 1) =~= rest.skip(d + 1) + more);
    }
}

/// The bytes, after the version byte, that ask for a connection to an address.
pub open spec fn connect_header(port: u16, octets: [u8; 4]) -> Seq<u8> {
    seq![0x01u8] + buffer::be16(port) + octets@
}

/// Law: the header written for a port and an address reads back as that head.
pub proof fn header_reads_back(port: u16, octets: [u8; 4])
    ensures
        connect_header(port, octets).len() == 7,
        head_of(connect_header(port, octets)) == Ok::<Socks4Head, InboundError<Seq<char>>>(
            Socks4Head { port, octets },
        ),
{
    let header = connect_header(port, octets);
    buffer::port_bytes_read_back(port);
    assert(header[1] == buffer::be16(port)[0] && header[2] == buffer::be16(port)[1]);
    assert([header[3], header[4], header[5], header[6]] =~= octets);
}

/// Law: a user of at most 255 bytes closed by a zero byte completes a SOCKS4 request for the
/// address of the head.
pub proof fn address_request_completes(head: Socks4Head, user: Seq<u8>, rest: Seq<u8>)
    requires
        !head.names_domain(),
        !user.contains(0u8),
        user.len() <= MAX_USER_LEN,
    ensures
        data_reaction(head, user + seq![0u8] + rest) == Socks4Next::<Seq<u8>, Seq<char>>::Connect(
            Destination {
                host: net::dotted(head.octets@),
                port: head.port,
                resolve_hostname: false,
                ip: Some(IpAddr::V4(head.octets)),
            },
            rest,
        ),
{
    let data = user + seq![0u8] + rest;
    assert forall|j: int| 0 <= j < user.len() implies data[j] != 0 by {
        assert(data[j] == user[j]);
        assert(user.contains(user[j]));
    }
    buffer::first_byte_from_least(data, 0, user.len() as int);
    assert(data.skip(user.len() as int + 1) =~= rest);
}

/// Law: a user of at most 255 bytes and a domain name of at most 253 bytes, each closed by a zero
/// byte, complete a SOCKS4a request for that name.
pub proof fn domain_request_completes(
    head: Socks4Head,
    user: Seq<u8>,
    name: Seq<char>,
    rest: Seq<u8>,
)
    requires
        head.names_domain(),
        !user.contains(0u8),
        user.len() <= MAX_USER_LEN,
        !vstd::utf8::encode_utf8(name).contains(0u8),
        vstd::utf8::encode_utf8(name).len() <= MAX_DOMAIN_LEN,
    ensures
        data_reaction(
            head,
            user + seq![0u8] + vstd::utf8::encode_utf8(name) + seq![0u8] + rest,
        ) == Socks4Next::<Seq<u8>, Seq<char>>::Connect(
            Destination { host: name, port: head.port, resolve_hostname: true, ip: None },
            rest,
        ),
{
    let domain = vstd::utf8::encode_utf8(name);
    let data = user + seq![0u8] + domain + seq![0u8] + rest;
    assert forall|j: int| 0 <= j < user.len() implies data[j] != 0 by {
        assert(data[j] == user[j]);
        assert(user.contains(user[j]));
    }
    buffer::first_byte_from_least(data, 0, user.len() as int);
    let tail = data.skip(user.len() as int + 1);
    assert(tail =~= domain + seq![0u8] + rest);
    assert forall|j: int| 0 <= j < domain.len() implies tail[j] != 0 by {
        assert(tail[j] == domain[j]);
        assert(domain.contains(domain[j]));
    }
    buffer::first_byte_from_least(tail, 0, domain.len() as int);
    assert(tail.take(domain.len() as int) =~= domain);
    assert(tail.skip(domain.len() as int + 1) =~= rest);
    text::encoded_text_decodes(name);
}

/// Law: while the server reads on, it holds at most 1024 bytes.
pub proof fn held_data_is_bounded(head: Socks4Head, data: Seq<u8>)
    requires
        data_reaction(head, data) is Read,
    ensures
        data.len() <= HANDSHAKE_MAX_LEN,
{
}

/// Whether the four octets of a request say that a name follows: the first three are zero, and the
/// last is not.
pub open spec fn announces_name(octets: Seq<u8>) -> bool {
    octets[0] == 0 && octets[1] == 0 && octets[2] == 0 && octets[3] > 0
}

/// Law: a request for a connection is taken as it stands: the port with its high byte first, and
/// the address; every other command is refused, with a rejection of eight bytes.
pub proof fn heads_are_read_as_they_stand(command: u8, hi: u8, lo: u8, octets: [u8; 4])
    ensures
        ({
            let header = seq![command, hi, lo] + octets@;
            match head_of(header) {
                Ok(head) => command == 1 && head.port == hi * 256 + lo && head.octets == octets
                    && head.names_domain() == announces_name(octets@),
                Err(e) => command != 1 && e == InboundError::<
                    Seq<char>,
                >::UnsupportedSocks4Command(command),
            }
        }),
        reply_bytes(REJECTED) == seq![0u8, 91u8, 0u8, 0u8, 0u8, 0u8, 0u8, 0u8],
        reply_bytes(GRANTED) == seq![0u8, 90u8, 0u8, 0u8, 0u8, 0u8, 0u8, 0u8],
{
    let header = seq![command, hi, lo] + octets@;
    assert([header[3], header[4], header[5], header[6]] =~= octets);
}

proof fn lemma_user(user: Seq<u8>, rest: Seq<u8>)
    requires
        forall|j: int| 0 <= j < user.len() ==> #[trigger] user[j] != 0,
    ensures
        buffer::first_byte(user + (seq![0u8] + rest), 0) == Some(user.len() as int),
        (user + (seq![0u8] + rest)).skip(user.len() as int + 1) == rest,
        (user + (seq![0u8] + rest)).take(user.len() as int) == user,
{
    let data = user + (seq![0u8] + rest);
    let n = user.len() as int;
    assert(data[n] == 0);
    assert(forall|j: int| 0 <= j < n ==> data[j] == user[j]);
    buffer::first_byte_from_least(data, 0, n);
    assert(data.skip(n + 1) =~= rest);
    assert(data.take(n) =~= user);
}

/// Law: a user closed by a zero completes a request for an address, up to 255 bytes of it; a longer
/// one is refused with its length. What follows is kept.
pub proof fn address_requests_are_served(head: Socks4Head, user: Seq<u8>, rest: Seq<u8>)
    requires
        !announces_name(head.octets@),
        forall|j: int| 0 <= j < user.len() ==> #[trigger] user[j] != 0,
        user.len() <= usize::MAX,
    ensures
        ({
            let r = data_reaction(head, user + (seq![0u8] + rest));
            &&& user.len() <= 255 ==> (r matches Socks4Next::Connect(d, left) && {
                &&& left == rest
                &&& d.port == head.port
                &&& d.ip == Some(IpAddr::V4(head.octets))
                &&& !d.resolve_hostname
                &&& d.host == net::address_text(IpAddr::V4(head.octets))
            })
            &&& user.len() > 255 ==> r == Socks4Next::<Seq<u8>, Seq<char>>::Fail(
                InboundError::UserIdTooLong(user.len() as usize),
            )
        }),
{
    lemma_user(user, rest);
}

/// Law: a user and a name, each closed by a zero, complete a request for that name, up to 255 and
/// 253 bytes; a longer user or name is refused with its length, the user first. What follows is
/// kept.
pub proof fn name_requests_are_served(
    head: Socks4Head,
    user: Seq<u8>,
    name: Seq<u8>,
    rest: Seq<u8>,
)
    requires
        announces_name(head.octets@),
        forall|j: int| 0 <= j < user.len() ==> #[trigger] user[j] != 0,
        forall|j: int| 0 <= j < name.len() ==> #[trigger] name[j] != 0,
        user.len() <= usize::MAX,
        name.len() <= usize::MAX,
    ensures
        ({
            let r = data_reaction(head, user + (seq![0u8] + (name + (seq![0u8] + rest))));
            &&& user.len() <= 255 && name.len() <= 253 ==> (r matches Socks4Next::Connect(
                d,
                left,
            ) && {
                &&& left == rest
                &&& d.port == head.port
                &&& d.ip is None
                &&& d.resolve_hostname
                &&& d.host == text::text_of_bytes(name)
            })
            &&& user.len() > 255 ==> r == Socks4Next::<Seq<u8>, Seq<char>>::Fail(
                InboundError::UserIdTooLong(user.len() as usize),
            )
            &&& user.len() <= 255 && name.len() > 253 ==> r == Socks4Next::<
                Seq<u8>,
                Seq<char>,
            >::Fail(InboundError::DomainTooLong(name.len() as usize))
        }),
{
    lemma_user(name, rest);
    lemma_user(user, name + (seq![0u8] + rest));
}

/// Law: data that does not complete a request is read on, up to 1024 bytes of it; more is refused.
/// It is incomplete without a zero, and where a name is announced, without a second one.
pub proof fn incomplete_requests_are_read_on(head: Socks4Head, user: Seq<u8>, name: Seq<u8>)
    requires
        forall|j: int| 0 <= j < user.len() ==> #[trigger] user[j] != 0,
        forall|j: int| 0 <= j < name.len() ==> #[trigger] name[j] != 0,
    ensures
        data_reaction(head, user) == (if user.len() <= 1024 {
            Socks4Next::<Seq<u8>, Seq<char>>::Read
        } else {
            Socks4Next::Fail(InboundError::Socks4TooLong)
        }),
        announces_name(head.octets@) ==> data_reaction(head, user + (seq![0u8] + name)) == (
        if user.len() + 1 + name.len() <= 1024 {
            Socks4Next::<Seq<u8>, Seq<char>>::Read
        } else {
            Socks4Next::Fail(InboundError::Socks4TooLong)
        }),
{
    buffer::first_byte_is_least(user, 0);
    buffer::first_byte_is_least(name, 0);
    lemma_user(user, name);
}

/// Law: a command other than CONNECT is answered with a rejection; any other request goes on with
/// its data.
pub proof fn other_commands_are_rejected(command: u8, rest: Seq<u8>)
    requires
        rest.len() == 6,
    ensures
        command != 1 ==> start_of(seq![command] + rest) == Err::<
            Socks4Head,
            (Seq<u8>, InboundError<Seq<char>>),
        >(
            (
                seq![0u8, 91u8, 0u8, 0u8, 0u8, 0u8, 0u8, 0u8],
                InboundError::UnsupportedSocks4Command(command),
            ),
        ),
        command == 1 ==> (start_of(seq![command] + rest) matches Ok(head) && head.port == rest[0]
            * 256 + rest[1] && head.octets@ == rest.skip(2)),
{
    let header = seq![command] + rest;
    heads_are_read_as_they_stand(
        command,
        rest[0],
        rest[1],
        [rest[2], rest[3], rest[4], rest[5]],
    );
    let octets: [u8; 4] = [rest[2], rest[3], rest[4], rest[5]];
    assert(header =~= seq![command, rest[0], rest[1]] + octets@);
    assert(octets@ =~= rest.skip(2));
}

/// Law: data that is read one chunk after the other leads to what it leads to in one piece; a
/// client that closes the connection before its request is complete is refused.
pub proof fn chunks_do_not_matter(head: Socks4Head, data: Seq<u8>, a: Seq<u8>, b: Seq<u8>)
    requires
        a.len() > 0,
        b.len() > 0,
        after_chunk(head, data, a) is Read,
    ensures
        after_chunk(head, data + a, b) == after_chunk(head, data, a + b),
        after_chunk(head, data + a, b) == data_reaction(head, data + a + b),
        after_chunk(head, data, Seq::empty()) == Socks4Next::<Seq<u8>, Seq<char>>::Fail(
            InboundError::Socks4Closed,
        ),
{
    assert(data + (a + b) =~= data + a + b);
}

/// Law: a reply is eight bytes: a zero, the status, and six bytes that mean nothing.
pub proof fn replies_have_their_form(status: u8, i: int)
    requires
        0 <= i < 8,
    ensures
        reply_bytes(status).len() == 8,
        reply_bytes(status)[i] == if i == 1 {
            status
        } else {
            0
        },
        GRANTED == 90,
        REJECTED == 91,
{
}

} // verus!
