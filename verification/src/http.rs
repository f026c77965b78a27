//! The server side of HTTP proxy requests.

use crate::buffer;
use crate::buffer::{
    buf_slice, buf_to_vec, buf_with_capacity, byte_range, find_byte, put_slice, put_u8, split_to,
};
use crate::inbound::{Destination, InboundError};
use crate::proxy_client;
use crate::text;
use crate::text::{
    char_range, decode_lossy, find_first, find_last, from_chars, has_prefix, parse_port,
    same_chars, split_words, substring, to_chars, to_upper, trim_chars, TrimSet,
};
use crate::util;
use crate::util::find_header_separator;
use bytes::BytesMut;
use vstd::prelude::*;
use vstd::string::*;

verus! {

// ---------------------------------------------------------------------------
// Reading the headers
// ---------------------------------------------------------------------------

/// The longest headers that are read.
pub const HEADER_MAX_LEN: usize = 16384;

/// The number of bytes that are read at a time.
pub const CHUNK_LEN: usize = 1024;

/// What to do when some bytes of a request are read.
#[derive(Debug)]
pub enum HeaderNext<B, E> {
    /// Read on.
    Read,
    /// The headers are complete; the second bytes follow them.
    Complete(B, B),
    /// Give up.
    Fail(E),
}

impl View for HeaderNext<Vec<u8>, InboundError<String>> {
    type V = HeaderNext<Seq<u8>, InboundError<Seq<char>>>;

    open spec fn view(&self) -> HeaderNext<Seq<u8>, InboundError<Seq<char>>> {
        match self {
            HeaderNext::Read => HeaderNext::Read,
            HeaderNext::Complete(a, b) => HeaderNext::Complete(a@, b@),
            HeaderNext::Fail(e) => HeaderNext::Fail(e@),
        }
    }
}

/// The reaction to the bytes of a request read so far: the headers end with the first empty line.
pub open spec fn header_reaction(data: Seq<u8>) -> HeaderNext<Seq<u8>, InboundError<Seq<char>>> {
    match util::headers_end(data) {
        Some(end) => if end > HEADER_MAX_LEN {
            HeaderNext::Fail(InboundError::HeadersTooLong)
        } else {
            HeaderNext::Complete(data.take(end), data.skip(end))
        },
        None => if data.len() > HEADER_MAX_LEN {
            HeaderNext::Fail(InboundError::HeadersTooLong)
        } else {
            HeaderNext::Read
        },
    }
}

/// The reaction to the next bytes of a request; there are none when the client closed the
/// connection.
pub open spec fn after_chunk(data: Seq<u8>, chunk: Seq<u8>) -> HeaderNext<
    Seq<u8>,
    InboundError<Seq<char>>,
> {
    if chunk.len() == 0 {
        HeaderNext::Fail(InboundError::HeadersClosed)
    } else {
        header_reaction(data + chunk)
    }
}

/// A reader of the headers of a request.
#[derive(Debug)]
pub struct HeaderReader {
    buf: BytesMut,
    start_pos: usize,
}

impl HeaderReader {
    /// The bytes read so far.
    pub closed spec fn data(self) -> Seq<u8> {
        buffer::buf_bytes(self.buf)
    }

    /// Whether the reader still reads: all of its bytes are searched and hold no end of headers.
    pub closed spec fn reading(self) -> bool {
        &&& header_reaction(buffer::buf_bytes(self.buf)) is Read
        &&& self.start_pos == buffer::buf_bytes(self.buf).len()
    }

    /// Starts to read headers after their first byte.
    pub fn new(first_byte: u8) -> (r: HeaderReader)
        ensures
            r.data() == seq![first_byte],
            r.reading(),
    {
        let mut buf = buf_with_capacity(4096);
        put_u8(&mut buf, first_byte);
        assert(buffer::buf_bytes(buf) =~= seq![first_byte]);
        HeaderReader { buf, start_pos: 1 }
    }

    /// Takes the bytes that were read; none were read when the client closed the connection.
    pub fn step(&mut self, chunk: &[u8]) -> (r: HeaderNext<Vec<u8>, InboundError<String>>)
        requires
            old(self).reading(),
            chunk@.len() <= CHUNK_LEN,
        ensures
            chunk@.len() == 0 ==> r@ == HeaderNext::<Seq<u8>, InboundError<Seq<char>>>::Fail(
                InboundError::HeadersClosed,
            ),
            chunk@.len() > 0 ==> r@ == header_reaction(old(self).data() + chunk@),
            r@ == after_chunk(old(self).data(), chunk@),
            r is Read ==> final(self).reading() && final(self).data() == old(self).data() + chunk@,
    {
        if chunk.len() == 0 {
            return HeaderNext::Fail(InboundError::HeadersClosed);
        }
        let ghost before = buffer::buf_bytes(self.buf);
        put_slice(&mut self.buf, chunk);
        let ghost data = before + chunk@;
        proof {
            assert(data.take(self.start_pos as int) =~= before);
            util::search_hint_loses_nothing(data, self.start_pos as int);
        }
        match find_header_separator(buf_slice(&self.buf), self.start_pos) {
            Some(end) => {
                if end > HEADER_MAX_LEN {
                    return HeaderNext::Fail(InboundError::HeadersTooLong);
                }
                let head = split_to(&mut self.buf, end);
                HeaderNext::Complete(buf_to_vec(&head), buf_to_vec(&self.buf))
            },
            None => {
                if buf_slice(&self.buf).len() > HEADER_MAX_LEN {
                    return HeaderNext::Fail(InboundError::HeadersTooLong);
                }
                self.start_pos = buf_slice(&self.buf).len();
                HeaderNext::Read
            },
        }
    }
}

/// Law: headers that the bytes complete stay the same when more bytes follow, and those bytes are
/// kept. So what a client sends does not depend on how it is cut into pieces.
pub proof fn complete_headers_are_stable(data: Seq<u8>, more: Seq<u8>)
    requires
        header_reaction(data) is Complete,
    ensures
        header_reaction(data + more) == HeaderNext::<Seq<u8>, InboundError<Seq<char>>>::Complete(
            header_reaction(data)->Complete_0,
            header_reaction(data)->Complete_1 + more,
        ),
{
    util::found_end_is_stable(data, more);
    let end = util::headers_end(data)->0;
    util::separator_is_first(data, 0);
    assert((data + more).take(end) =~= data.take(end));
    assert((data + more).skip(end) =~= data.skip(end) + more);
}

// ---------------------------------------------------------------------------
// Hop-by-hop headers
// ---------------------------------------------------------------------------

/// The number of hop-by-hop headers.
pub const HOP_COUNT: usize = 9;

/// The name of a hop-by-hop header, in lower case.
pub open spec fn hop_name(k: int) -> Seq<char> {
    if k == 0 {
        "connection"@
    } else if k == 1 {
        "keep-alive"@
    } else if k == 2 {
        "proxy-authenticate"@
    } else if k == 3 {
        "proxy-authorization"@
    } else if k == 4 {
        "proxy-connection"@
    } else if k == 5 {
        "te"@
    } else if k == 6 {
        "trailers"@
    } else if k == 7 {
        "transfer-encoding"@
    } else {
        "upgrade"@
    }
}

fn hop_header(k: usize) -> (r: &'static str)
    requires
        k < HOP_COUNT,
    ensures
        r@ == hop_name(k as int),
{
    match k {
        0 => "connection",
        1 => "keep-alive",
        2 => "proxy-authenticate",
        3 => "proxy-authorization",
        4 => "proxy-connection",
        5 => "te",
        6 => "trailers",
        7 => "transfer-encoding",
        _ => "upgrade",
    }
}

/// The lower case of an ASCII letter; every other byte as it is.
pub open spec fn lower_byte(b: u8) -> u8 {
    if 0x41 <= b <= 0x5A {
        (b + 32) as u8
    } else {
        b
    }
}

/// Whether a line is a header of this name, letter case aside.
pub open spec fn is_header(line: Seq<u8>, name: Seq<char>) -> bool {
    &&& line.len() > name.len()
    &&& line[name.len() as int] == 0x3A
    &&& forall|j: int| 0 <= j < name.len() ==> lower_byte(#[trigger] line[j]) as char == name[j]
}

/// Whether a line is a hop-by-hop header.
pub open spec fn is_hop_line(line: Seq<u8>) -> bool {
    exists|k: int| 0 <= k < HOP_COUNT && is_header(line, #[trigger] hop_name(k))
}

/// A line without the carriage return at its end.
pub open spec fn strip_cr(line: Seq<u8>) -> Seq<u8> {
    if line.len() > 0 && line.last() == 0x0D {
        line.drop_last()
    } else {
        line
    }
}

/// Whether a line is passed on: it is not empty and no hop-by-hop header.
pub open spec fn is_kept(line: Seq<u8>) -> bool {
    line.len() > 0 && !is_hop_line(line)
}

/// The first line of `b`, without its line ending, and what follows it.
pub open spec fn split_line(b: Seq<u8>) -> (Seq<u8>, Seq<u8>) {
    match buffer::first_byte(b, 0x0A) {
        Some(i) => (strip_cr(b.take(i)), b.skip(i + 1)),
        None => (strip_cr(b), Seq::empty()),
    }
}

/// The lines of a block of headers that are passed on, without their line endings.
pub open spec fn kept_lines(b: Seq<u8>) -> Seq<Seq<u8>>
    decreases b.len(),
{
    let (line, rest) = split_line(b);
    if b.len() == 0 || rest.len() >= b.len() {
        Seq::empty()
    } else if is_kept(line) {
        seq![line] + kept_lines(rest)
    } else {
        kept_lines(rest)
    }
}

/// Lines one after the other, each with a line ending.
pub open spec fn join_lines(lines: Seq<Seq<u8>>) -> Seq<u8>
    decreases lines.len(),
{
    if lines.len() == 0 {
        Seq::empty()
    } else {
        lines[0] + seq![0x0Du8, 0x0Au8] + join_lines(lines.skip(1))
    }
}

/// A block of headers without the hop-by-hop ones, closed by an empty line.
pub open spec fn end_to_end(headers: Seq<u8>) -> Seq<u8> {
    join_lines(kept_lines(headers)) + seq![0x0Du8, 0x0Au8]
}

fn header_named(line: &Vec<u8>, name: &str) -> (r: bool)
    ensures
        r == is_header(line@, name@),
{
    let chars = to_chars(name);
    if line.len() <= chars.len() || line[chars.len()] != 0x3A {
        return false;
    }
    let mut j: usize = 0;
    while j < chars.len()
        invariant
            chars@ == name@,
            chars@.len() < line@.len(),
            j <= chars@.len(),
            forall|i: int| 0 <= i < j ==> lower_byte(#[trigger] line@[i]) as char == name@[i],
        decreases chars@.len() - j,
    {
        let b: u8 = line[j];
        let low: u8 = if 0x41 <= b && b <= 0x5A {
            b + 32
        } else {
            b
        };
        if low as char != chars[j] {
            assert(lower_byte(line@[j as int]) as char != name@[j as int]);
            return false;
        }
        j = j + 1;
    }
    true
}

fn hop_line(line: &Vec<u8>) -> (r: bool)
    ensures
        r == is_hop_line(line@),
{
    let mut k: usize = 0;
    while k < HOP_COUNT
        invariant
            k <= HOP_COUNT,
            forall|i: int| 0 <= i < k ==> !is_header(line@, #[trigger] hop_name(i)),
        decreases HOP_COUNT - k,
    {
        if header_named(line, hop_header(k)) {
            assert(is_header(line@, hop_name(k as int)));
            return true;
        }
        k = k + 1;
    }
    false
}

proof fn lemma_join_append(a: Seq<Seq<u8>>, b: Seq<Seq<u8>>)
    ensures
        join_lines(a + b) == join_lines(a) + join_lines(b),
    decreases a.len(),
{
    if a.len() == 0 {
        assert(a + b =~= b);
        assert(join_lines(a) + join_lines(b) =~= join_lines(b));
    } else {
        assert((a + b).skip(1) =~= a.skip(1) + b);
        lemma_join_append(a.skip(1), b);
        assert(join_lines(a + b) =~= join_lines(a) + join_lines(b));
    }
}

/// Reads the line that starts at `pos`: gives it without its line ending, and where the next
/// line starts.
fn next_line(headers: &[u8], pos: usize) -> (r: (Vec<u8>, usize))
    requires
        pos < headers@.len(),
    ensures
        pos < r.1 <= headers@.len(),
        split_line(headers@.skip(pos as int)) == (r.0@, headers@.skip(r.1 as int)),
{
    let ghost b = headers@.skip(pos as int);
    proof {
        buffer::first_byte_is_least(b, 0x0A);
    }
    let total: usize = headers.len();
    let (line_end, next): (usize, usize) = match find_byte(headers, pos, 0x0A) {
        Some(i) => (i, i + 1),
        None => (total, total),
    };
    let stripped: usize = if line_end > pos && headers[line_end - 1] == 0x0D {
        line_end - 1
    } else {
        line_end
    };
    let line = byte_range(headers, pos, stripped);
    proof {
        assert(b.take(line_end - pos) =~= headers@.subrange(pos as int, line_end as int));
        assert(line@ =~= strip_cr(b.take(line_end - pos)));
        if next == line_end {
            assert(b.take(line_end - pos) =~= b);
            assert(headers@.skip(next as int) =~= Seq::<u8>::empty());
        } else {
            assert(headers@.skip(next as int) =~= b.skip(next - pos));
        }
    }
    (line, next)
}

proof fn lemma_single_line(line: Seq<u8>)
    ensures
        join_lines(seq![line]) == line + seq![0x0Du8, 0x0Au8],
{
    reveal_with_fuel(join_lines, 2);
    assert(seq![line].skip(1) =~= Seq::<Seq<u8>>::empty());
    assert(join_lines(seq![line]) =~= line + seq![0x0Du8, 0x0Au8]);
}

/// Removes the hop-by-hop headers from a block of headers, ends every line with a carriage return
/// and a newline, and closes the block with an empty line.
pub fn filter_hop_by_hop_headers(headers: &[u8]) -> (r: Vec<u8>)
    ensures
        r@ == end_to_end(headers@),
{
    let mut filtered: Vec<u8> = Vec::new();
    let mut pos: usize = 0;
    assert(headers@.skip(0) =~= headers@);
    while pos < headers.len()
        invariant
            pos <= headers@.len(),
            join_lines(kept_lines(headers@)) == filtered@ + join_lines(
                kept_lines(headers@.skip(pos as int)),
            ),
        decreases headers@.len() - pos,
    {
        let (line, next) = next_line(headers, pos);
        if line.len() > 0 && !hop_line(&line) {
            let ghost before = filtered@;
            let ghost tail = join_lines(kept_lines(headers@.skip(next as int)));
            proof {
                lemma_join_append(seq![line@], kept_lines(headers@.skip(next as int)));
                lemma_single_line(line@);
            }
            push_bytes(&mut filtered, line.as_slice());
            filtered.push(0x0D);
            filtered.push(0x0A);
            assert(filtered@ =~= before + (line@ + seq![0x0Du8, 0x0Au8]));
            assert(before + ((line@ + seq![0x0Du8, 0x0Au8]) + tail) =~= filtered@ + tail);
        }
        pos = next;
    }
    assert(headers@.skip(pos as int) =~= Seq::<u8>::empty());
    assert(filtered@ =~= join_lines(kept_lines(headers@)));
    filtered.push(0x0D);
    filtered.push(0x0A);
    assert(filtered@ =~= end_to_end(headers@));
    filtered
}

/// Appends `src` to `out`.
fn push_bytes(out: &mut Vec<u8>, src: &[u8])
    ensures
        final(out)@ == old(out)@ + src@,
{
    let mut i: usize = 0;
    while i < src.len()
        invariant
            i <= src@.len(),
            out@ == old(out)@ + src@.take(i as int),
        decreases src@.len() - i,
    {
        out.push(src[i]);
        assert(src@.take(i as int).push(src@[i as int]) =~= src@.take(i + 1));
        i = i + 1;
    }
    assert(src@.take(i as int) =~= src@);
}

/// Whether lines are passed on and hold no newline.
spec fn clean_lines(lines: Seq<Seq<u8>>) -> bool {
    forall|i: int| 0 <= i < lines.len() ==> is_kept(#[trigger] lines[i]) && !lines[i].contains(0x0A)
}

proof fn lemma_kept_lines_are_clean(b: Seq<u8>)
    ensures
        clean_lines(kept_lines(b)),
    decreases b.len(),
{
    if b.len() > 0 {
        buffer::first_byte_is_least(b, 0x0A);
        match buffer::first_byte(b, 0x0A) {
            Some(i) => {
                lemma_kept_lines_are_clean(b.skip(i + 1));
                assert(!strip_cr(b.take(i)).contains(0x0A));
            },
            None => {
                lemma_kept_lines_are_clean(Seq::<u8>::empty());
                assert(!strip_cr(b).contains(0x0A));
            },
        }
    }
}

proof fn lemma_joined_lines_split(lines: Seq<Seq<u8>>)
    requires
        clean_lines(lines),
    ensures
        kept_lines(join_lines(lines) + seq![0x0Du8, 0x0Au8]) == lines,
    decreases lines.len(),
{
    let crlf = seq![0x0Du8, 0x0Au8];
    let b = join_lines(lines) + crlf;
    if lines.len() == 0 {
        assert(b =~= crlf);
        assert(crlf[1] == 0x0A);
        buffer::first_byte_from_least(crlf, 0x0A, 1);
        assert(strip_cr(crlf.take(1)) =~= Seq::<u8>::empty());
        assert(crlf.skip(2) =~= Seq::<u8>::empty());
        assert(kept_lines(crlf.skip(2)) =~= Seq::<Seq<u8>>::empty());
        assert(kept_lines(b) =~= lines);
    } else {
        let line = lines[0];
        let rest = lines.skip(1);
        assert(clean_lines(rest)) by {
            assert forall|i: int| 0 <= i < rest.len() implies is_kept(#[trigger] rest[i])
                && !rest[i].contains(0x0A) by {
                assert(rest[i] == lines[i + 1]);
            }
        }
        lemma_joined_lines_split(rest);
        let n = line.len() as int + 1;
        assert(b =~= line + crlf + (join_lines(rest) + crlf));
        assert(b[n] == 0x0A);
        assert forall|j: int| 0 <= j < n implies b[j] != 0x0A by {
            if j < line.len() {
                assert(b[j] == line[j]);
                assert(line.contains(line[j]));
            }
        }
        buffer::first_byte_from_least(b, 0x0A, n);
        assert(b.take(n) =~= line.push(0x0D));
        assert(strip_cr(b.take(n)) =~= line);
        assert(b.skip(n + 1) =~= join_lines(rest) + crlf);
        assert(seq![line] + rest =~= lines);
    }
}

/// Law: the filter keeps the headers it passes on, and their order, and drops every hop-by-hop
/// header; a second pass changes nothing.
pub proof fn filter_keeps_the_other_headers(headers: Seq<u8>)
    ensures
        kept_lines(end_to_end(headers)) == kept_lines(headers),
        forall|i: int|
            0 <= i < kept_lines(headers).len() ==> !is_hop_line(#[trigger] kept_lines(headers)[i]),
        end_to_end(end_to_end(headers)) == end_to_end(headers),
{
    lemma_kept_lines_are_clean(headers);
    lemma_joined_lines_split(kept_lines(headers));
}

// ---------------------------------------------------------------------------
// The request
// ---------------------------------------------------------------------------

/// A request: the words of its first line, that line as it was sent, and the lines that follow.
#[derive(Debug)]
pub struct HttpRequest<B, T> {
    pub method: T,
    pub uri: T,
    pub version: T,
    pub line: B,
    pub headers: B,
}

impl View for HttpRequest<Vec<u8>, String> {
    type V = HttpRequest<Seq<u8>, Seq<char>>;

    open spec fn view(&self) -> HttpRequest<Seq<u8>, Seq<char>> {
        HttpRequest {
            method: self.method@,
            uri: self.uri@,
            version: self.version@,
            line: self.line@,
            headers: self.headers@,
        }
    }
}

/// The request that a block of headers holds: its first line has a method, a URI and mostly a
/// version.
pub open spec fn request_of(head: Seq<u8>) -> Result<
    HttpRequest<Seq<u8>, Seq<char>>,
    InboundError<Seq<char>>,
> {
    match buffer::first_byte(head, 0x0A) {
        None => Err(InboundError::InvalidHeaders),
        Some(i) => {
            let shown = text::trim(text::text_of_bytes(head.take(i + 1)), TrimSet::Whitespace);
            let words = text::words(shown);
            if words.len() < 2 {
                Err(InboundError::InvalidRequestLine(shown))
            } else {
                Ok(
                    HttpRequest {
                        method: words[0],
                        uri: words[1],
                        version: if words.len() >= 3 {
                            words[2]
                        } else {
                            "HTTP/1.1"@
                        },
                        line: head.take(i + 1),
                        headers: head.skip(i + 1),
                    },
                )
            }
        },
    }
}

/// Reads the request that a block of headers holds.
pub fn parse_request(head: &[u8]) -> (r: Result<
    HttpRequest<Vec<u8>, String>,
    InboundError<String>,
>)
    ensures
        match r {
            Ok(q) => request_of(head@) == Ok::<
                HttpRequest<Seq<u8>, Seq<char>>,
                InboundError<Seq<char>>,
            >(q@),
            Err(e) => request_of(head@) == Err::<
                HttpRequest<Seq<u8>, Seq<char>>,
                InboundError<Seq<char>>,
            >(e@),
        },
{
    proof {
        assert(head@.skip(0) =~= head@);
        buffer::first_byte_is_least(head@, 0x0A);
    }
    match find_byte(head, 0, 0x0A) {
        None => Err(InboundError::InvalidHeaders),
        Some(i) => {
            let end: usize = head.len();
            let line = byte_range(head, 0, i + 1);
            let headers = byte_range(head, i + 1, end);
            assert(line@ =~= head@.take(i + 1));
            assert(headers@ =~= head@.skip(i + 1));
            let decoded = decode_lossy(line.as_slice());
            let shown = trim_chars(&to_chars(decoded.as_str()), TrimSet::Whitespace);
            let words = split_words(&shown);
            if words.len() < 2 {
                return Err(InboundError::InvalidRequestLine(from_chars(&shown)));
            }
            let version = if words.len() >= 3 {
                from_chars(&words[2])
            } else {
                "HTTP/1.1".to_string()
            };
            Ok(
                HttpRequest {
                    method: from_chars(&words[0]),
                    uri: from_chars(&words[1]),
                    version,
                    line,
                    headers,
                },
            )
        },
    }
}

/// The parts of a URI that the proxy uses.
#[derive(Debug)]
pub struct UriParts<T> {
    pub host: Option<T>,
    pub port: Option<u16>,
    pub path: T,
    pub query: Option<T>,
}

/// A text that may be missing.
pub open spec fn opt_text(s: Option<String>) -> Option<Seq<char>> {
    match s {
        Some(t) => Some(t@),
        None => None,
    }
}

impl View for UriParts<String> {
    type V = UriParts<Seq<char>>;

    open spec fn view(&self) -> UriParts<Seq<char>> {
        UriParts {
            host: opt_text(self.host),
            port: self.port,
            path: self.path@,
            query: opt_text(self.query),
        }
    }
}

/// The view of the parts of a URI that may be none.
pub open spec fn opt_parts(p: Option<UriParts<String>>) -> Option<UriParts<Seq<char>>> {
    match p {
        Some(u) => Some(u@),
        None => None,
    }
}

/// The parts of the URI that a text denotes, by the grammar of URIs.
pub uninterp spec fn uri_syntax(s: Seq<char>) -> Option<UriParts<Seq<char>>>;

/// `http::Uri::from_str` reads a text as a URI, and `host`, `port_u16`, `path` and `query` give
/// its parts: they depend on the text alone.
#[verifier::external_body]
pub(crate) fn parse_uri(s: &str) -> (r: Option<UriParts<String>>)
    ensures
        opt_parts(r) == uri_syntax(s@),
{
    match s.parse::<http::Uri>() {
        Ok(u) => Some(
            UriParts {
                host: u.host().map(|h| h.to_string()),
                port: u.port_u16(),
                path: u.path().to_string(),
                query: u.query().map(|q| q.to_string()),
            },
        ),
        Err(_) => None,
    }
}

/// Whether a request asks for a tunnel, whatever the letter case of its method.
pub open spec fn asks_for_tunnel(method: Seq<char>) -> bool {
    text::upper_text(method) == "CONNECT"@
}

/// The port of a tunnel whose destination gives none that can be read.
pub const HTTPS_DEFAULT_PORT: u16 = 443;

/// The port of a request whose URI gives none.
pub const HTTP_DEFAULT_PORT: u16 = 80;

/// The port that a text denotes, or the one for tunnels.
pub open spec fn tunnel_port(s: Seq<char>) -> u16 {
    match text::port_number(s) {
        Some(p) => p,
        None => HTTPS_DEFAULT_PORT,
    }
}

/// The destination of a tunnel: `[address]:port`, `host:port` or a host alone.
pub open spec fn tunnel_target(uri: Seq<char>) -> Result<
    (Seq<char>, u16),
    InboundError<Seq<char>>,
> {
    if uri.len() > 0 && uri[0] == '[' {
        match text::first_index(uri, ']') {
            None => Err(InboundError::InvalidIpv6Uri(uri)),
            Some(end) => Ok(
                (
                    uri.subrange(1, end),
                    if end + 2 < uri.len() && uri[end + 1] == ':' {
                        tunnel_port(uri.skip(end + 2))
                    } else {
                        HTTPS_DEFAULT_PORT
                    },
                ),
            ),
        }
    } else {
        match text::last_index(uri, ':') {
            None => Ok((uri, HTTPS_DEFAULT_PORT)),
            Some(i) => Ok((uri.take(i), tunnel_port(uri.skip(i + 1)))),
        }
    }
}

/// The destination of a request that asks for no tunnel, from the parts of its URI.
pub open spec fn origin_target(uri: Seq<char>, parts: Option<UriParts<Seq<char>>>) -> Result<
    (Seq<char>, u16),
    InboundError<Seq<char>>,
> {
    match parts {
        None => Err(InboundError::InvalidUri(uri)),
        Some(u) => match u.host {
            None => Err(InboundError::MissingHost),
            Some(host) => Ok(
                (
                    host,
                    match u.port {
                        Some(p) => p,
                        None => HTTP_DEFAULT_PORT,
                    },
                ),
            ),
        },
    }
}

/// The view of a host and a port.
pub open spec fn target_view(r: Result<(String, u16), InboundError<String>>) -> Result<
    (Seq<char>, u16),
    InboundError<Seq<char>>,
> {
    match r {
        Ok(t) => Ok((t.0@, t.1)),
        Err(e) => Err(e@),
    }
}

/// The destination of a request, where `parts` are those of its URI.
pub open spec fn request_target(
    q: HttpRequest<Seq<u8>, Seq<char>>,
    parts: Option<UriParts<Seq<char>>>,
) -> Result<(Seq<char>, u16), InboundError<Seq<char>>> {
    if asks_for_tunnel(q.method) {
        tunnel_target(q.uri)
    } else {
        origin_target(q.uri, parts)
    }
}

fn port_or_https(s: &Vec<char>, from: usize) -> (r: u16)
    requires
        from <= s@.len(),
    ensures
        r == tunnel_port(s@.skip(from as int)),
{
    match parse_port(s, from) {
        Some(p) => p,
        None => HTTPS_DEFAULT_PORT,
    }
}

/// Reads the destination of a tunnel.
pub fn parse_tunnel_target(uri: &str) -> (r: Result<(String, u16), InboundError<String>>)
    ensures
        target_view(r) == tunnel_target(uri@),
{
    let chars = to_chars(uri);
    if chars.len() > 0 && chars[0] == '[' {
        proof {
            text::first_index_is_least(uri@, ']');
        }
        match find_first(&chars, ']') {
            None => Err(InboundError::InvalidIpv6Uri(from_chars(&chars))),
            Some(end) => {
                let host = substring(&chars, 1, end);
                let port: u16 = if chars.len() - end > 2 && chars[end + 1] == ':' {
                    port_or_https(&chars, end + 2)
                } else {
                    HTTPS_DEFAULT_PORT
                };
                Ok((host, port))
            },
        }
    } else {
        proof {
            text::last_index_is_greatest(uri@, ':');
        }
        match find_last(&chars, ':') {
            None => Ok((from_chars(&chars), HTTPS_DEFAULT_PORT)),
            Some(i) => {
                let host = substring(&chars, 0, i);
                assert(host@ =~= uri@.take(i as int));
                Ok((host, port_or_https(&chars, i + 1)))
            },
        }
    }
}

/// The path and query that a request asks its server for: those of the URI, or of what can be
/// made out of a text that is none.
pub open spec fn origin_form(uri: Seq<char>, parts: Option<UriParts<Seq<char>>>) -> Seq<char> {
    match parts {
        Some(u) => {
            let path = if u.path.len() == 0 {
                "/"@
            } else {
                u.path
            };
            match u.query {
                Some(query) => path + "?"@ + query,
                None => path,
            }
        },
        None => {
            let after_scheme = if text::starts_with(uri, "http://"@) {
                uri.skip(7)
            } else {
                uri.skip(8)
            };
            match text::first_index(after_scheme, '/') {
                Some(i) => after_scheme.skip(i),
                None => "/"@,
            }
        },
    }
}

/// Whether a request names its server in its URI.
pub open spec fn is_absolute(uri: Seq<char>) -> bool {
    text::starts_with(uri, "http://"@) || text::starts_with(uri, "https://"@)
}

/// The first line that the server is sent: with a path in place of an absolute URI.
pub open spec fn forwarded_line(
    q: HttpRequest<Seq<u8>, Seq<char>>,
    parts: Option<UriParts<Seq<char>>>,
) -> Seq<u8> {
    if is_absolute(q.uri) {
        vstd::utf8::encode_utf8(
            q.method + " "@ + origin_form(q.uri, parts) + " "@ + q.version + "\r\n"@,
        )
    } else {
        q.line
    }
}

/// The head of the request that the server is sent.
pub open spec fn forwarded_head(
    q: HttpRequest<Seq<u8>, Seq<char>>,
    parts: Option<UriParts<Seq<char>>>,
) -> Seq<u8> {
    forwarded_line(q, parts) + end_to_end(q.headers)
}

fn write_origin_form(uri: &str, parts: &Option<UriParts<String>>) -> (r: String)
    requires
        is_absolute(uri@),
    ensures
        r@ == origin_form(uri@, opt_parts(*parts)),
{
    match parts {
        Some(u) => {
            let path_chars = to_chars(u.path.as_str());
            let mut out = if path_chars.len() == 0 {
                "/".to_string()
            } else {
                from_chars(&path_chars)
            };
            match &u.query {
                Some(query) => {
                    out.append("?");
                    out.append(query.as_str());
                    out
                },
                None => out,
            }
        },
        None => {
            let chars = to_chars(uri);
            proof {
                reveal_strlit("http://");
                reveal_strlit("https://");
            }
            let from: usize = if has_prefix(&chars, "http://") {
                7
            } else {
                8
            };
            let after_scheme = char_range(&chars, from, chars.len());
            assert(after_scheme@ =~= uri@.skip(from as int));
            proof {
                text::first_index_is_least(after_scheme@, '/');
            }
            match find_first(&after_scheme, '/') {
                Some(i) => {
                    let path = substring(&after_scheme, i, after_scheme.len());
                    assert(path@ =~= after_scheme@.skip(i as int));
                    path
                },
                None => "/".to_string(),
            }
        },
    }
}

impl HttpRequest<Vec<u8>, String> {
    /// Whether the request asks for a tunnel.
    pub fn is_connect(&self) -> (r: bool)
        ensures
            r == asks_for_tunnel(self@.method),
    {
        let upper = to_chars(to_upper(self.method.as_str()).as_str());
        same_chars(&upper, &to_chars("CONNECT"))
    }

    /// The destination of the request, where `parts` are those of its URI.
    pub fn target_from(&self, parts: &Option<UriParts<String>>) -> (r: Result<
        (String, u16),
        InboundError<String>,
    >)
        ensures
            target_view(r) == request_target(self@, opt_parts(*parts)),
    {
        if self.is_connect() {
            return parse_tunnel_target(self.uri.as_str());
        }
        match parts {
            None => Err(InboundError::InvalidUri(from_chars(&to_chars(self.uri.as_str())))),
            Some(u) => match &u.host {
                None => Err(InboundError::MissingHost),
                Some(host) => {
                    let port: u16 = match u.port {
                        Some(p) => p,
                        None => HTTP_DEFAULT_PORT,
                    };
                    Ok((from_chars(&to_chars(host.as_str())), port))
                },
            },
        }
    }

    /// The destination of the request.
    pub fn target(&self) -> (r: Result<(String, u16), InboundError<String>>)
        ensures
            target_view(r) == request_target(self@, uri_syntax(self@.uri)),
    {
        if self.is_connect() {
            return parse_tunnel_target(self.uri.as_str());
        }
        self.target_from(&parse_uri(self.uri.as_str()))
    }

    /// The head of the request for its server, where `parts` are those of its URI.
    pub fn head_from(&self, parts: &Option<UriParts<String>>) -> (r: Vec<u8>)
        ensures
            r@ == forwarded_head(self@, opt_parts(*parts)),
    {
        let chars = to_chars(self.uri.as_str());
        let mut out: Vec<u8> = Vec::new();
        if has_prefix(&chars, "http://") || has_prefix(&chars, "https://") {
            let mut line = from_chars(&to_chars(self.method.as_str()));
            line.append(" ");
            line.append(write_origin_form(self.uri.as_str(), parts).as_str());
            line.append(" ");
            line.append(self.version.as_str());
            line.append("\r\n");
            push_bytes(&mut out, line.as_str().as_bytes());
        } else {
            push_bytes(&mut out, self.line.as_slice());
        }
        push_bytes(&mut out, filter_hop_by_hop_headers(self.headers.as_slice()).as_slice());
        assert(out@ =~= forwarded_head(self@, opt_parts(*parts)));
        out
    }

    /// The head of the request for its server.
    pub fn head(&self) -> (r: Vec<u8>)
        ensures
            r@ == forwarded_head(self@, uri_syntax(self@.uri)),
    {
        self.head_from(&parse_uri(self.uri.as_str()))
    }
}

/// The destination that a host and a port of a request stand for.
pub open spec fn proxied(target: (Seq<char>, u16)) -> Destination<Seq<char>> {
    Destination { host: target.0, port: target.1, resolve_hostname: true, ip: None }
}

/// Makes a destination of a host and a port.
pub fn destination(host: String, port: u16) -> (r: Destination<String>)
    ensures
        r@ == proxied((host@, port)),
{
    Destination { host, port, resolve_hostname: true, ip: None }
}

/// What is sent once the destination is reached.
#[derive(Debug)]
pub enum HttpOpening<B> {
    /// The client is told that its tunnel stands.
    ToClient(B),
    /// The server is sent the head of the request.
    ToServer(B),
}

impl View for HttpOpening<Vec<u8>> {
    type V = HttpOpening<Seq<u8>>;

    open spec fn view(&self) -> HttpOpening<Seq<u8>> {
        match self {
            HttpOpening::ToClient(b) => HttpOpening::ToClient(b@),
            HttpOpening::ToServer(b) => HttpOpening::ToServer(b@),
        }
    }
}

/// The answer to a client whose tunnel stands.
pub open spec fn tunnel_reply() -> Seq<char> {
    "HTTP/1.1 200 Connection Established\r\n\r\n"@
}

/// The answer to a client whose destination cannot be reached.
pub open spec fn failure_reply() -> Seq<char> {
    "HTTP/1.1 502 Bad Gateway\r\nContent-Length: 0\r\nConnection: close\r\n\r\n"@
}

/// What is sent first for a request, where `parts` are those of its URI.
pub open spec fn opening_of(
    q: HttpRequest<Seq<u8>, Seq<char>>,
    parts: Option<UriParts<Seq<char>>>,
) -> HttpOpening<Seq<u8>> {
    if asks_for_tunnel(q.method) {
        HttpOpening::ToClient(vstd::utf8::encode_utf8(tunnel_reply()))
    } else {
        HttpOpening::ToServer(forwarded_head(q, parts))
    }
}

/// What is sent first for a request, once its destination is reached.
pub fn open_request(q: &HttpRequest<Vec<u8>, String>) -> (r: HttpOpening<Vec<u8>>)
    ensures
        r@ == opening_of(q@, uri_syntax(q@.uri)),
{
    if q.is_connect() {
        let mut out: Vec<u8> = Vec::new();
        push_bytes(&mut out, "HTTP/1.1 200 Connection Established\r\n\r\n".as_bytes());
        HttpOpening::ToClient(out)
    } else {
        HttpOpening::ToServer(q.head())
    }
}

/// The answer to a client whose destination cannot be reached.
pub fn bad_gateway() -> (r: Vec<u8>)
    ensures
        r@ == vstd::utf8::encode_utf8(failure_reply()),
{
    let mut out: Vec<u8> = Vec::new();
    push_bytes(
        &mut out,
        "HTTP/1.1 502 Bad Gateway\r\nContent-Length: 0\r\nConnection: close\r\n\r\n".as_bytes(),
    );
    out
}

/// Law: the authority of a host and a port is read as that host and port. A host that starts
/// with a bracket is left out: its brackets are dropped.
pub proof fn authority_reads_back(host: Seq<char>, port: u16)
    requires
        host.len() == 0 || host[0] != '[',
    ensures
        tunnel_target(proxy_client::authority(host, port)) == Ok::<
            (Seq<char>, u16),
            InboundError<Seq<char>>,
        >((host, port)),
{
    reveal_strlit(":");
    let uri = proxy_client::authority(host, port);
    let digits = text::decimal(port as nat);
    text::port_numeral_reads_back(port);
    text::last_index_is_greatest(uri, ':');
    let n = host.len() as int;
    assert(uri[n] == ':');
    assert forall|j: int| n < j < uri.len() implies uri[j] != ':' by {
        assert(uri[j] == digits[j - n - 1]);
        assert(text::is_digit(digits[j - n - 1]));
    }
    assert(uri.take(n) =~= host);
    assert(uri.skip(n + 1) =~= digits);
}

/// Law: an address in brackets, a colon and a port are read as that address and port.
pub proof fn bracketed_authority_reads_back(address: Seq<char>, port: u16)
    requires
        !address.contains(']'),
    ensures
        tunnel_target(proxy_client::authority("["@ + address + "]"@, port)) == Ok::<
            (Seq<char>, u16),
            InboundError<Seq<char>>,
        >((address, port)),
{
    reveal_strlit(":");
    reveal_strlit("[");
    reveal_strlit("]");
    let uri = proxy_client::authority("["@ + address + "]"@, port);
    let digits = text::decimal(port as nat);
    text::port_numeral_reads_back(port);
    text::first_index_is_least(uri, ']');
    let n = address.len() as int + 1;
    assert(uri[n] == ']');
    assert forall|j: int| 0 <= j < n implies uri[j] != ']' by {
        if j > 0 {
            assert(uri[j] == address[j - 1]);
            assert(address.contains(address[j - 1]));
        }
    }
    assert(uri[n + 1] == ':');
    assert(uri.subrange(1, n) =~= address);
    assert(uri.skip(n + 2) =~= digits);
}

proof fn lemma_no_newline_in_authority(host: Seq<char>, port: u16)
    requires
        forall|i: int| 0 <= i < host.len() ==> !text::is_space(#[trigger] host[i]),
    ensures
        proxy_client::authority(host, port).len() > 0,
        forall|i: int|
            0 <= i < proxy_client::authority(host, port).len() ==> !text::is_space(
                #[trigger] proxy_client::authority(host, port)[i],
            ),
{
    reveal_strlit(":");
    text::port_numeral_reads_back(port);
    let digits = text::decimal(port as nat);
    let uri = proxy_client::authority(host, port);
    assert forall|i: int| 0 <= i < uri.len() implies !text::is_space(#[trigger] uri[i]) by {
        if i < host.len() {
            assert(uri[i] == host[i]);
        } else if i > host.len() {
            assert(uri[i] == digits[i - host.len() - 1]);
            assert(text::is_digit(digits[i - host.len() - 1]));
        }
    }
}

proof fn lemma_first_line(line: Seq<char>, rest: Seq<char>)
    requires
        is_one_line(line),
    ensures
        ({
            let head = vstd::utf8::encode_utf8(line + seq!['\n'] + rest);
            match buffer::first_byte(head, 0x0A) {
                Some(i) => 0 <= i < head.len() && text::text_of_bytes(head.take(i + 1)) == line
                    + seq!['\n'],
                None => false,
            }
        }),
{
    let nl = seq!['\n'];
    let head = vstd::utf8::encode_utf8(line + nl + rest);
    text::encoding_without(line, 0x0A);
    text::encoding_of_both(line + nl, rest);
    text::encoding_of_both(line, nl);
    text::encoding_of_ascii('\n');
    let b = vstd::utf8::encode_utf8(line);
    let n = b.len() as int;
    assert(head =~= b + seq![0x0Au8] + vstd::utf8::encode_utf8(rest));
    assert(head[n] == 0x0A);
    assert forall|j: int| 0 <= j < n implies head[j] != 0x0A by {
        assert(head[j] == b[j]);
        assert(b.contains(b[j]));
    }
    buffer::first_byte_from_least(head, 0x0A, n);
    assert(head.take(n + 1) =~= vstd::utf8::encode_utf8(line + nl));
    text::encoded_text_decodes(line + nl);
}

proof fn lemma_three_words(a: Seq<char>, b: Seq<char>, c: Seq<char>)
    requires
        a.len() > 0 && b.len() > 0 && c.len() > 0,
        forall|i: int| 0 <= i < a.len() ==> !text::is_space(#[trigger] a[i]),
        forall|i: int| 0 <= i < b.len() ==> !text::is_space(#[trigger] b[i]),
        forall|i: int| 0 <= i < c.len() ==> !text::is_space(#[trigger] c[i]),
    ensures
        text::words(a + seq![' '] + b + seq![' '] + c) == seq![a, b, c],
{
    let space = seq![' '];
    let after_b = space + c;
    let after_a = space + (b + after_b);
    assert(a + space + b + space + c =~= a + after_a);
    text::first_word(a, after_a);
    assert(after_a.skip(1) =~= b + after_b);
    text::first_word(b, after_b);
    assert(after_b.skip(1) =~= c);
    assert(c + Seq::<char>::empty() =~= c);
    text::first_word(c, Seq::empty());
    assert(text::words(a + space + b + space + c) =~= seq![a, b, c]);
}

proof fn lemma_connect_is_upper_case()
    ensures
        asks_for_tunnel("CONNECT"@),
{
    reveal_strlit("CONNECT");
    assert(vstd::utf8::is_ascii_chars("CONNECT"@));
    assert(text::upper_text("CONNECT"@) =~= "CONNECT"@);
}

/// Law: the CONNECT request that the forwarder sends to an HTTP proxy is one that the forwarder
/// serves: it asks for a tunnel to the same host and port. A host with white space, and one that
/// starts with a bracket, are left out.
pub proof fn own_requests_are_understood(
    host: Seq<char>,
    port: u16,
    parts: Option<UriParts<Seq<char>>>,
)
    requires
        forall|i: int| 0 <= i < host.len() ==> !text::is_space(#[trigger] host[i]),
        host.len() == 0 || host[0] != '[',
    ensures
        ({
            let head = vstd::utf8::encode_utf8(proxy_client::connect_head(host, port));
            &&& request_of(head) is Ok
            &&& asks_for_tunnel(request_of(head)->Ok_0.method)
            &&& request_target(request_of(head)->Ok_0, parts) == Ok::<
                (Seq<char>, u16),
                InboundError<Seq<char>>,
            >((host, port))
        }),
{
    let uri = proxy_client::authority(host, port);
    let method = "CONNECT"@;
    let version = "HTTP/1.1"@;
    let space = seq![' '];
    let shown = method + space + uri + space + version;
    let line = shown.push('\r');
    let nl = seq!['\n'];
    let rest = "Host: "@ + uri + "\r\n\r\n"@;
    lemma_no_newline_in_authority(host, port);
    assert(is_one_line(line) && proxy_client::connect_head(host, port) == line + nl + rest) by {
        reveal_strlit("CONNECT");
        reveal_strlit("CONNECT ");
        reveal_strlit("HTTP/1.1");
        reveal_strlit(" HTTP/1.1\r\nHost: ");
        reveal_strlit("\r\n\r\n");
        reveal_strlit("Host: ");
        assert(proxy_client::connect_head(host, port) =~= line + nl + rest);
        assert forall|i: int| 0 <= i < line.len() implies #[trigger] line[i] as u32 != 0x0A by {
            let a = method.len() as int + 1;
            if a <= i < a + uri.len() {
                assert(line[i] == uri[i - a]);
                assert(!text::is_space(uri[i - a]));
            }
        }
    }
    lemma_first_line(line, rest);
    let ends = seq!['\r', '\n'];
    assert(line + nl =~= shown + ends);
    reveal_strlit("CONNECT");
    reveal_strlit("HTTP/1.1");
    text::trimmed_between(shown, ends);
    lemma_three_words(method, uri, version);
    lemma_connect_is_upper_case();
    authority_reads_back(host, port);
}

/// Law: the CONNECT request that the forwarder sends to an HTTP proxy ends where its headers end,
/// so that a server which reads it takes it as complete and has nothing left over.
pub proof fn own_requests_are_complete(host: Seq<char>, port: u16)
    requires
        forall|i: int| 0 <= i < host.len() ==> !text::is_space(#[trigger] host[i]),
        vstd::utf8::encode_utf8(proxy_client::connect_head(host, port)).len() <= HEADER_MAX_LEN,
    ensures
        header_reaction(vstd::utf8::encode_utf8(proxy_client::connect_head(host, port)))
            == HeaderNext::<Seq<u8>, InboundError<Seq<char>>>::Complete(
            vstd::utf8::encode_utf8(proxy_client::connect_head(host, port)),
            Seq::empty(),
        ),
{
    let uri = proxy_client::authority(host, port);
    let all = proxy_client::connect_head(host, port);
    let head = vstd::utf8::encode_utf8(all);
    lemma_no_newline_in_authority(host, port);
    reveal_strlit("CONNECT ");
    reveal_strlit(" HTTP/1.1\r\nHost: ");
    reveal_strlit(" HTTP/1.1\r");
    reveal_strlit("Host: ");
    reveal_strlit("\r\n\r\n");
    let first = "CONNECT "@ + uri + " HTTP/1.1\r"@;
    let second = "Host: "@ + uri + seq!['\r'];
    let nl = seq!['\n'];
    let cr = seq!['\r'];
    assert(all =~= first + nl + (second + nl + (cr + nl)));
    assert forall|i: int| 0 <= i < first.len() implies #[trigger] first[i] as u32 != 0x0A by {
        if 8 <= i < 8 + uri.len() {
            assert(first[i] == uri[i - 8]);
            assert(!text::is_space(uri[i - 8]));
        }
    }
    assert forall|i: int| 0 <= i < second.len() implies #[trigger] second[i] as u32 != 0x0A by {
        if 6 <= i < 6 + uri.len() {
            assert(second[i] == uri[i - 6]);
            assert(!text::is_space(uri[i - 6]));
        }
    }
    text::encoding_without(first, 0x0A);
    text::encoding_without(second, 0x0A);
    text::encoding_of_ascii('\n');
    text::encoding_of_ascii('\r');
    text::encoding_of_both(first + nl, second + nl + (cr + nl));
    text::encoding_of_both(first, nl);
    text::encoding_of_both(second + nl, cr + nl);
    text::encoding_of_both(second, nl);
    text::encoding_of_both(cr, nl);
    let a = vstd::utf8::encode_utf8(first);
    let b = vstd::utf8::encode_utf8(second);
    let n = a.len() as int;
    let m = n + 1 + b.len();
    assert(head =~= a + seq![0x0Au8] + b + seq![0x0Au8, 0x0Du8, 0x0Au8]);
    let after_h = "ost: "@ + uri + seq!['\r'];
    reveal_strlit("ost: ");
    assert(second =~= seq!['H'] + after_h);
    text::encoding_of_both(seq!['H'], after_h);
    text::encoding_of_ascii('H');
    assert(b[0] == 0x48);
    assert(head[n + 1] == 0x48);
    assert forall|j: int| 0 <= j < m implies util::blank_line_end(head, j) is None by {
        if j < n {
            assert(head[j] == a[j]);
            assert(a.contains(a[j]));
        } else if j > n {
            assert(head[j] == b[j - n - 1]);
            assert(b.contains(b[j - n - 1]));
        }
    }
    assert(head[m] == 0x0A && head[m + 1] == 0x0D && head[m + 2] == 0x0A);
    util::headers_end_at_first_separator(head, m);
    assert(head.take(head.len() as int) =~= head);
    assert(head.skip(head.len() as int) =~= Seq::<u8>::empty());
}

proof fn lemma_block_ends_once(lines: Seq<Seq<u8>>)
    requires
        clean_lines(lines),
    ensures
        ({
            let block = seq![0x0Au8] + join_lines(lines) + seq![0x0Du8, 0x0Au8];
            util::headers_end(block) == Some(block.len() as int)
        }),
    decreases lines.len(),
{
    let crlf = seq![0x0Du8, 0x0Au8];
    let nl = seq![0x0Au8];
    let block = nl + join_lines(lines) + crlf;
    if lines.len() == 0 {
        assert(block =~= seq![0x0Au8, 0x0Du8, 0x0Au8]);
    } else {
        let line = lines[0];
        let rest = lines.skip(1);
        assert(clean_lines(rest)) by {
            assert forall|i: int| 0 <= i < rest.len() implies is_kept(#[trigger] rest[i])
                && !rest[i].contains(0x0A) by {
                assert(rest[i] == lines[i + 1]);
            }
        }
        lemma_block_ends_once(rest);
        let front = nl + line + seq![0x0Du8];
        let tail = nl + join_lines(rest) + crlf;
        assert(block =~= front + tail);
        let n = front.len() as int;
        assert forall|j: int| 0 <= j < n implies util::blank_line_end(block, j) is None by {
            if j == 0 {
                assert(block[1] == line[0]);
                assert(line.contains(line[0]));
                if line.len() == 1 {
                    assert(block[2] == 0x0D);
                } else {
                    assert(block[2] == line[1]);
                    assert(line.contains(line[1]));
                }
            } else if j < n - 1 {
                assert(block[j] == line[j - 1]);
                assert(line.contains(line[j - 1]));
            } else {
                assert(block[j] == 0x0D);
            }
        }
        util::headers_end_from(block, n);
        util::separator_after(front, tail, 0);
    }
}

/// Whether a text holds no newline.
pub open spec fn is_one_line(s: Seq<char>) -> bool {
    forall|i: int| 0 <= i < s.len() ==> #[trigger] s[i] as u32 != 0x0A
}

/// Law: the head that a server is sent is one block of headers: its first empty line is its end,
/// whatever the client sent. The parts of the URI are to hold no newline, as those of a URI do.
pub proof fn forwarded_head_is_one_block(head: Seq<u8>, parts: Option<UriParts<Seq<char>>>)
    requires
        request_of(head) is Ok,
        parts matches Some(u) ==> is_one_line(u.path) && (u.query matches Some(query)
            ==> is_one_line(query)),
    ensures
        util::headers_end(forwarded_head(request_of(head)->Ok_0, parts)) == Some(
            forwarded_head(request_of(head)->Ok_0, parts).len() as int,
        ),
{
    let q = request_of(head)->Ok_0;
    let line = forwarded_line(q, parts);
    let nl = seq![0x0Au8];
    buffer::first_byte_is_least(head, 0x0A);
    let i = buffer::first_byte(head, 0x0A)->0;
    let shown = text::trim(text::text_of_bytes(head.take(i + 1)), TrimSet::Whitespace);
    text::words_hold_no_space(shown);
    reveal_strlit("HTTP/1.1");
    assert forall|k: int| 0 <= k < q.method.len() implies !text::is_space(
        #[trigger] q.method[k],
    ) by {
        assert(!text::is_space(text::words(shown)[0][k]));
    }
    assert forall|k: int| 0 <= k < q.uri.len() implies !text::is_space(#[trigger] q.uri[k]) by {
        assert(!text::is_space(text::words(shown)[1][k]));
    }
    assert forall|k: int| 0 <= k < q.version.len() implies !text::is_space(
        #[trigger] q.version[k],
    ) by {
        if text::words(shown).len() >= 3 {
            assert(!text::is_space(text::words(shown)[2][k]));
        }
    }
    let b = if is_absolute(q.uri) {
        let origin = origin_form(q.uri, parts);
        lemma_origin_is_one_line(q.uri, parts);
        reveal_strlit(" ");
        reveal_strlit("\r\n");
        let front = q.method + " "@ + origin + " "@ + q.version + seq!['\r'];
        assert(q.method + " "@ + origin + " "@ + q.version + "\r\n"@ =~= front + seq!['\n']);
        assert(is_one_line(front)) by {
            let m = q.method.len() as int + 1;
            let o = m + origin.len() + 1;
            assert forall|k: int| 0 <= k < front.len() implies #[trigger] front[k] as u32
                != 0x0A by {
                if k < m - 1 {
                    assert(front[k] == q.method[k]);
                } else if m <= k < o - 1 {
                    assert(front[k] == origin[k - m]);
                } else if o <= k < o + q.version.len() {
                    assert(front[k] == q.version[k - o]);
                }
            }
        }
        text::encoding_without(front, 0x0A);
        text::encoding_of_both(front, seq!['\n']);
        text::encoding_of_ascii('\n');
        vstd::utf8::encode_utf8(front)
    } else {
        assert(head.take(i + 1) =~= head.take(i) + nl);
        assert(!head.take(i).contains(0x0A)) by {
            if head.take(i).contains(0x0A) {
                let j = choose|j: int| 0 <= j < i && head.take(i)[j] == 0x0A;
                assert(head[j] == 0x0A);
            }
        }
        head.take(i)
    };
    assert(line =~= b + nl);
    assert(!b.contains(0x0A));
    let lines = kept_lines(q.headers);
    lemma_kept_lines_are_clean(q.headers);
    lemma_block_ends_once(lines);
    let block = nl + join_lines(lines) + seq![0x0Du8, 0x0Au8];
    let all = forwarded_head(q, parts);
    assert(all =~= b + block);
    assert forall|j: int| 0 <= j < b.len() implies util::blank_line_end(all, j) is None by {
        assert(all[j] == b[j]);
        assert(b.contains(b[j]));
    }
    util::headers_end_from(all, b.len() as int);
    util::separator_after(b, block, 0);
}

proof fn lemma_origin_is_one_line(uri: Seq<char>, parts: Option<UriParts<Seq<char>>>)
    requires
        is_absolute(uri),
        forall|k: int| 0 <= k < uri.len() ==> !text::is_space(#[trigger] uri[k]),
        parts matches Some(u) ==> is_one_line(u.path) && (u.query matches Some(query)
            ==> is_one_line(query)),
    ensures
        is_one_line(origin_form(uri, parts)),
{
    reveal_strlit("/");
    reveal_strlit("?");
    let origin = origin_form(uri, parts);
    match parts {
        Some(u) => {
            let path = if u.path.len() == 0 {
                "/"@
            } else {
                u.path
            };
            assert(is_one_line(path));
            if let Some(query) = u.query {
                assert forall|k: int| 0 <= k < origin.len() implies #[trigger] origin[k] as u32
                    != 0x0A by {
                    if k < path.len() {
                        assert(origin[k] == path[k]);
                    } else if k > path.len() {
                        assert(origin[k] == query[k - path.len() - 1]);
                    }
                }
            }
        },
        None => {
            reveal_strlit("http://");
            reveal_strlit("https://");
            let n: int = if text::starts_with(uri, "http://"@) {
                7
            } else {
                8
            };
            let after = uri.skip(n);
            text::first_index_is_least(after, '/');
            if let Some(i) = text::first_index(after, '/') {
                assert forall|k: int| 0 <= k < origin.len() implies #[trigger] origin[k] as u32
                    != 0x0A by {
                    assert(origin[k] == uri[n + i + k]);
                }
            }
        },
    }
}

// ---------------------------------------------------------------------------
// Laws
// ---------------------------------------------------------------------------

/// Law: a request's headers are cut behind its first empty line, up to 16384 bytes of them; what
/// follows is kept. Without an empty line the reading goes on, up to as many bytes. More is
/// refused.
pub proof fn headers_are_cut_behind_the_empty_line(head: Seq<u8>, rest: Seq<u8>)
    requires
        forall|k: int| 0 <= k < head.len() ==> !util::ends_empty(#[trigger] head.take(k)),
    ensures
        util::ends_empty(head) && head.len() <= 16384 ==> header_reaction(head + rest)
            == HeaderNext::<Seq<u8>, InboundError<Seq<char>>>::Complete(head, rest),
        util::ends_empty(head) && head.len() > 16384 ==> header_reaction(head + rest)
            == HeaderNext::<Seq<u8>, InboundError<Seq<char>>>::Fail(InboundError::HeadersTooLong),
        !util::ends_empty(head) && head.len() <= 16384 ==> header_reaction(head) == HeaderNext::<
            Seq<u8>,
            InboundError<Seq<char>>,
        >::Read,
        !util::ends_empty(head) && head.len() > 16384 ==> header_reaction(head) == HeaderNext::<
            Seq<u8>,
            InboundError<Seq<char>>,
        >::Fail(InboundError::HeadersTooLong),
{
    util::headers_are_the_shortest_part(head, rest);
    let all = head + rest;
    assert(all.take(head.len() as int) =~= head);
    assert(all.skip(head.len() as int) =~= rest);
}

/// The nine headers that concern the connection with the proxy alone.
pub open spec fn is_hop_by_hop(name: Seq<char>) -> bool {
    ||| name == "connection"@
    ||| name == "keep-alive"@
    ||| name == "proxy-authenticate"@
    ||| name == "proxy-authorization"@
    ||| name == "proxy-connection"@
    ||| name == "te"@
    ||| name == "trailers"@
    ||| name == "transfer-encoding"@
    ||| name == "upgrade"@
}

/// Whether a byte is a character or its capital letter.
pub open spec fn is_letter_of(b: u8, c: char) -> bool {
    if 65 <= b <= 90 {
        b + 32 == c as u32
    } else {
        b == c as u32
    }
}

/// Whether a line is a header of this name: the name in any letter case, and a colon.
pub open spec fn has_name(line: Seq<u8>, name: Seq<char>) -> bool {
    &&& line.len() > name.len()
    &&& line[name.len() as int] == 58
    &&& forall|j: int| 0 <= j < name.len() ==> is_letter_of(#[trigger] line[j], name[j])
}

/// Whether a line is to reach the server.
pub open spec fn travels(line: Seq<u8>) -> bool {
    line.len() > 0 && !exists|name: Seq<char>|
        #![trigger has_name(line, name)]
        is_hop_by_hop(name) && has_name(line, name)
}

proof fn lemma_letter(b: u8, c: char)
    ensures
        is_letter_of(b, c) == (lower_byte(b) as char == c),
{
    let low: u8 = lower_byte(b);
    assert(low as char == c <==> low as u32 == c as u32);
}

proof fn lemma_travels(line: Seq<u8>)
    ensures
        travels(line) == is_kept(line),
{
    assert forall|name: Seq<char>| #[trigger] has_name(line, name) == is_header(line, name) by {
        assert forall|j: int| 0 <= j < name.len() && j < line.len() implies is_letter_of(
            #[trigger] line[j],
            name[j],
        ) == (lower_byte(line[j]) as char == name[j]) by {
            lemma_letter(line[j], name[j]);
        }
        if has_name(line, name) {
            assert forall|j: int| 0 <= j < name.len() implies lower_byte(#[trigger] line[j]) as char
                == name[j] by {
                assert(is_letter_of(line[j], name[j]));
            }
        }
        if is_header(line, name) {
            assert forall|j: int| 0 <= j < name.len() implies is_letter_of(
                #[trigger] line[j],
                name[j],
            ) by {
                assert(lower_byte(line[j]) as char == name[j]);
            }
        }
    }
    if is_hop_line(line) {
        let k = choose|k: int| 0 <= k < HOP_COUNT && is_header(line, #[trigger] hop_name(k));
        assert(has_name(line, hop_name(k)));
        assert(is_hop_by_hop(hop_name(k)));
    }
    if exists|name: Seq<char>|
        #![trigger has_name(line, name)]
        is_hop_by_hop(name) && has_name(line, name) {
        let name = choose|name: Seq<char>|
            #![trigger has_name(line, name)]
            is_hop_by_hop(name) && has_name(line, name);
        let k = if name == "connection"@ {
            0int
        } else if name == "keep-alive"@ {
            1
        } else if name == "proxy-authenticate"@ {
            2
        } else if name == "proxy-authorization"@ {
            3
        } else if name == "proxy-connection"@ {
            4
        } else if name == "te"@ {
            5
        } else if name == "trailers"@ {
            6
        } else if name == "transfer-encoding"@ {
            7
        } else {
            8
        };
        assert(hop_name(k) == name);
        assert(is_header(line, hop_name(k)));
    }
}

/// A line as it reaches the server: nothing of one that does not, and else the line with a line
/// ending.
pub open spec fn sent_line(line: Seq<u8>) -> Seq<u8> {
    if travels(line) {
        line + seq![13u8, 10u8]
    } else {
        Seq::empty()
    }
}

proof fn lemma_kept_front(line: Seq<u8>, rest: Seq<Seq<u8>>)
    ensures
        join_lines(
            if is_kept(line) {
                seq![line] + rest
            } else {
                rest
            },
        ) == sent_line(line) + join_lines(rest),
{
    lemma_travels(line);
    if is_kept(line) {
        lemma_join_append(seq![line], rest);
        lemma_single_line(line);
    } else {
        assert(sent_line(line) + join_lines(rest) =~= join_lines(rest));
    }
}

/// Law: the filter takes a block line by line. A line that ends in a newline, with or without a
/// carriage return before it, is sent on just where it is not empty and no hop-by-hop header,
/// however long it is, and the rest is filtered as if it stood alone; a last line without a line
/// ending is treated the same. An empty line closes the whole.
pub proof fn filter_goes_line_by_line(line: Seq<u8>, rest: Seq<u8>)
    requires
        forall|j: int| 0 <= j < line.len() ==> #[trigger] line[j] != 10,
    ensures
        end_to_end(line + seq![13u8, 10u8] + rest) == sent_line(line) + end_to_end(rest),
        line.len() == 0 || line.last() != 13 ==> end_to_end(line + seq![10u8] + rest) == sent_line(
            line,
        ) + end_to_end(rest),
        line.len() == 0 || line.last() != 13 ==> end_to_end(line) == sent_line(line) + seq![
            13u8,
            10u8,
        ],
        end_to_end(line + seq![13u8]) == sent_line(line) + seq![13u8, 10u8],
        end_to_end(Seq::empty()) == seq![13u8, 10u8],
{
    let crlf = seq![13u8, 10u8];
    let none = Seq::<u8>::empty();
    let n = line.len() as int;
    let a = line + crlf + rest;
    let b = line + seq![10u8] + rest;
    let c = line + seq![13u8];
    assert(forall|j: int|
        0 <= j < n ==> a[j] == line[j] && b[j] == line[j] && c[j] == line[j]);
    assert(a[n] == 13 && a[n + 1] == 10 && b[n] == 10 && c[n] == 13);
    buffer::first_byte_from_least(a, 0x0A, n + 1);
    buffer::first_byte_from_least(b, 0x0A, n);
    buffer::first_byte_is_least(line, 0x0A);
    buffer::first_byte_is_least(c, 0x0A);
    assert(strip_cr(a.take(n + 1)) =~= line);
    assert(b.take(n) =~= line);
    assert(strip_cr(c) =~= line);
    assert(a.skip(n + 2) =~= rest);
    assert(b.skip(n + 1) =~= rest);
    let after = kept_lines(rest);
    lemma_kept_front(line, after);
    assert(sent_line(line) + join_lines(after) + crlf =~= sent_line(line) + (join_lines(after)
        + crlf));
    assert(kept_lines(none) =~= Seq::<Seq<u8>>::empty());
    assert(join_lines(Seq::<Seq<u8>>::empty()) =~= none);
    assert(none + crlf =~= crlf);
    lemma_kept_front(line, Seq::empty());
    assert(sent_line(line) + none =~= sent_line(line));
    assert(join_lines(kept_lines(c)) == sent_line(line) + none);
    if n > 0 {
        if line.last() != 13 {
            assert(join_lines(kept_lines(line)) == sent_line(line) + none);
        }
    } else {
        assert(line =~= none);
        assert(sent_line(line) + crlf =~= crlf);
    }
}

/// Lines one after the other, each with its line ending.
pub open spec fn written(lines: Seq<Seq<u8>>) -> Seq<u8>
    decreases lines.len(),
{
    if lines.len() == 0 {
        Seq::empty()
    } else {
        lines[0] + seq![13u8, 10u8] + written(lines.skip(1))
    }
}

/// The lines that are to reach the server, in order.
pub open spec fn travelling(lines: Seq<Seq<u8>>) -> Seq<Seq<u8>>
    decreases lines.len(),
{
    if lines.len() == 0 {
        Seq::empty()
    } else if travels(lines[0]) {
        seq![lines[0]] + travelling(lines.skip(1))
    } else {
        travelling(lines.skip(1))
    }
}

/// Law: of a block of lines the filter sends on exactly those that are not empty and no hop-by-hop
/// header, each as it was, in their order, and closes the block with an empty line.
pub proof fn filter_sends_the_travelling_lines(lines: Seq<Seq<u8>>)
    requires
        forall|i: int, j: int|
            0 <= i < lines.len() && 0 <= j < lines[i].len() ==> #[trigger] lines[i][j] != 10,
    ensures
        end_to_end(written(lines) + seq![13u8, 10u8]) == written(travelling(lines)) + seq![
            13u8,
            10u8,
        ],
    decreases lines.len(),
{
    let crlf = seq![13u8, 10u8];
    let none = Seq::<u8>::empty();
    if lines.len() == 0 {
        filter_goes_line_by_line(none, none);
        assert(written(lines) + crlf =~= none + crlf + none);
        assert(sent_line(none) + crlf =~= crlf);
        assert(written(travelling(lines)) + crlf =~= crlf);
    } else {
        let line = lines[0];
        let rest = lines.skip(1);
        assert forall|i: int, j: int| 0 <= i < rest.len() && 0 <= j < rest[i].len() implies
            #[trigger] rest[i][j] != 10 by {
            assert(rest[i] == lines[i + 1]);
            assert(lines[i + 1][j] != 10);
        }
        filter_sends_the_travelling_lines(rest);
        assert forall|j: int| 0 <= j < line.len() implies #[trigger] line[j] != 10 by {
            assert(lines[0][j] != 10);
        }
        filter_goes_line_by_line(line, written(rest) + crlf);
        assert(written(lines) + crlf =~= line + crlf + (written(rest) + crlf));
        let tail = travelling(rest);
        if travels(line) {
            assert((seq![line] + tail).skip(1) =~= tail);
            assert(written(travelling(lines)) + crlf =~= sent_line(line) + (written(tail) + crlf));
        } else {
            assert(written(travelling(lines)) + crlf =~= sent_line(line) + (written(tail) + crlf));
        }
    }
}

/// Law: a header that is none of the nine travels: such as one whose first letter begins none of
/// them, or one with no colon.
pub proof fn other_headers_travel(line: Seq<u8>)
    requires
        line.len() > 0,
        (forall|j: int| 0 <= j < line.len() ==> #[trigger] line[j] != 58) || !(line[0] == 67
            || line[0] == 99 || line[0] == 75 || line[0] == 107 || line[0] == 80 || line[0] == 112
            || line[0] == 84 || line[0] == 116 || line[0] == 85 || line[0] == 117),
    ensures
        travels(line),
        sent_line(line) == line + seq![13u8, 10u8],
{
    reveal_strlit("connection");
    reveal_strlit("keep-alive");
    reveal_strlit("proxy-authenticate");
    reveal_strlit("proxy-authorization");
    reveal_strlit("proxy-connection");
    reveal_strlit("te");
    reveal_strlit("trailers");
    reveal_strlit("transfer-encoding");
    reveal_strlit("upgrade");
    assert forall|name: Seq<char>| is_hop_by_hop(name) implies !#[trigger] has_name(line, name) by {
        if has_name(line, name) {
            assert(is_letter_of(line[0], name[0]));
            assert(line[name.len() as int] == 58);
        }
    }
}

proof fn lemma_line_in_front(line: Seq<char>, rest: Seq<u8>)
    requires
        is_one_line(line),
    ensures
        ({
            let first = vstd::utf8::encode_utf8(line + seq!['\n']);
            let head = first + rest;
            &&& first.len() > 0
            &&& buffer::first_byte(head, 0x0A) == Some(first.len() - 1)
            &&& head.take(first.len() as int) == first
            &&& head.skip(first.len() as int) == rest
            &&& text::text_of_bytes(first) == line + seq!['\n']
        }),
{
    let nl = seq!['\n'];
    let first = vstd::utf8::encode_utf8(line + nl);
    let head = first + rest;
    text::encoding_without(line, 0x0A);
    text::encoding_of_both(line, nl);
    text::encoding_of_ascii('\n');
    let b = vstd::utf8::encode_utf8(line);
    let n = b.len() as int;
    assert(first =~= b.push(0x0A));
    assert(head[n] == 0x0A);
    assert forall|j: int| 0 <= j < n implies head[j] != 0x0A by {
        assert(head[j] == b[j]);
        assert(b.contains(b[j]));
    }
    buffer::first_byte_from_least(head, 0x0A, n);
    assert(head.take(n + 1) =~= first);
    assert(head.skip(n + 1) =~= rest);
    text::encoded_text_decodes(line + nl);
}

/// Law: a request is read by the words of its first line: a method, a URI, and a version, which is
/// that of HTTP/1.1 where there is none. The line is kept as it was sent, and so is what follows.
pub proof fn request_lines_are_read_by_words(
    method: Seq<char>,
    uri: Seq<char>,
    version: Seq<char>,
    rest: Seq<u8>,
)
    requires
        method.len() > 0 && uri.len() > 0 && version.len() > 0,
        forall|i: int| 0 <= i < method.len() ==> !text::is_space(#[trigger] method[i]),
        forall|i: int| 0 <= i < uri.len() ==> !text::is_space(#[trigger] uri[i]),
        forall|i: int| 0 <= i < version.len() ==> !text::is_space(#[trigger] version[i]),
    ensures
        ({
            let line = vstd::utf8::encode_utf8(
                method + seq![' '] + uri + seq![' '] + version + seq!['\r'] + seq!['\n'],
            );
            request_of(line + rest) == Ok::<
                HttpRequest<Seq<u8>, Seq<char>>,
                InboundError<Seq<char>>,
            >(HttpRequest { method, uri, version, line, headers: rest })
        }),
        ({
            let line = vstd::utf8::encode_utf8(
                method + seq![' '] + uri + seq!['\r'] + seq!['\n'],
            );
            request_of(line + rest) == Ok::<
                HttpRequest<Seq<u8>, Seq<char>>,
                InboundError<Seq<char>>,
            >(HttpRequest { method, uri, version: "HTTP/1.1"@, line, headers: rest })
        }),
        ({
            let line = vstd::utf8::encode_utf8(method + seq!['\r'] + seq!['\n']);
            request_of(line + rest) == Err::<
                HttpRequest<Seq<u8>, Seq<char>>,
                InboundError<Seq<char>>,
            >(InboundError::InvalidRequestLine(method))
        }),
        (forall|j: int| 0 <= j < rest.len() ==> #[trigger] rest[j] != 10) ==> request_of(rest)
            == Err::<HttpRequest<Seq<u8>, Seq<char>>, InboundError<Seq<char>>>(
            InboundError::InvalidHeaders,
        ),
{
    buffer::first_byte_is_least(rest, 0x0A);
    let space = seq![' '];
    let three = method + space + uri + space + version;
    let two = method + space + uri;
    lemma_three_words(method, uri, version);
    lemma_two_words(method, uri);
    assert(three[0] == method[0] && three.last() == version.last());
    assert(two[0] == method[0] && two.last() == uri.last());
    lemma_request_line(three, rest);
    lemma_request_line(two, rest);
    lemma_request_line(method, rest);
    text::words_are_split_at_white_space(method, space, uri);
}

proof fn lemma_two_words(a: Seq<char>, b: Seq<char>)
    requires
        a.len() > 0 && b.len() > 0,
        forall|i: int| 0 <= i < a.len() ==> !text::is_space(#[trigger] a[i]),
        forall|i: int| 0 <= i < b.len() ==> !text::is_space(#[trigger] b[i]),
    ensures
        text::words(a + seq![' '] + b) == seq![a, b],
        forall|i: int|
            0 <= i < (a + seq![' '] + b).len() ==> (#[trigger] (a + seq![' '] + b)[i]) as u32
                != 0x0A,
{
    text::words_are_split_at_white_space(a, seq![' '], b);
    text::words_are_split_at_white_space(b, seq![' '], a);
    assert(seq![a] + seq![b] =~= seq![a, b]);
    let all = a + seq![' '] + b;
    assert forall|i: int| 0 <= i < all.len() implies (#[trigger] all[i]) as u32 != 0x0A by {
        if i < a.len() {
            assert(all[i] == a[i]);
        } else if i > a.len() {
            assert(all[i] == b[i - a.len() - 1]);
        }
    }
}

proof fn lemma_request_line(shown: Seq<char>, rest: Seq<u8>)
    requires
        shown.len() > 0,
        !text::is_space(shown[0]),
        !text::is_space(shown.last()),
        is_one_line(shown),
    ensures
        ({
            let line = vstd::utf8::encode_utf8(shown + seq!['\r'] + seq!['\n']);
            let head = line + rest;
            &&& line.len() > 0
            &&& buffer::first_byte(head, 0x0A) == Some(line.len() - 1)
            &&& head.take(line.len() as int) == line
            &&& head.skip(line.len() as int) == rest
            &&& text::trim(text::text_of_bytes(line), TrimSet::Whitespace) == shown
        }),
{
    let with_cr = shown + seq!['\r'];
    assert(is_one_line(with_cr)) by {
        assert forall|i: int| 0 <= i < with_cr.len() implies #[trigger] with_cr[i] as u32
            != 0x0A by {
            if i < shown.len() {
                assert(with_cr[i] == shown[i]);
            }
        }
    }
    lemma_line_in_front(with_cr, rest);
    let ends = seq!['\r', '\n'];
    assert(with_cr + seq!['\n'] =~= shown + ends);
    text::trimmed_between(shown, ends);
}

/// Law: the destination of a tunnel is a host, and the port behind its last colon; the port is 443
/// where there is no colon, or nothing behind it that is a port.
pub proof fn tunnel_host_and_port(host: Seq<char>, port: Seq<char>, alone: Seq<char>)
    requires
        host.len() == 0 || host[0] != '[',
        forall|i: int| 0 <= i < port.len() ==> #[trigger] port[i] != ':',
        alone.len() == 0 || alone[0] != '[',
        forall|i: int| 0 <= i < alone.len() ==> #[trigger] alone[i] != ':',
    ensures
        tunnel_target(host + seq![':'] + port) == Ok::<
            (Seq<char>, u16),
            InboundError<Seq<char>>,
        >(
            (
                host,
                match text::port_number(port) {
                    Some(n) => n,
                    None => 443,
                },
            ),
        ),
        tunnel_target(alone) == Ok::<(Seq<char>, u16), InboundError<Seq<char>>>((alone, 443)),
{
    let uri = host + seq![':'] + port;
    let n = host.len() as int;
    assert(uri[n] == ':');
    assert forall|j: int| n < j < uri.len() implies uri[j] != ':' by {
        assert(uri[j] == port[j - n - 1]);
    }
    text::last_index_is_greatest(uri, ':');
    text::last_index_is_greatest(alone, ':');
    assert(uri.take(n) =~= host);
    assert(uri.skip(n + 1) =~= port);
    assert(n > 0 ==> uri[0] == host[0]);
}

/// Law: the destination of a tunnel may be an address in brackets; a colon and a port may follow,
/// and where none that can be read does, the port is 443. A bracket that is not closed is refused.
pub proof fn tunnel_address_in_brackets(address: Seq<char>, after: Seq<char>, open: Seq<char>)
    requires
        forall|i: int| 0 <= i < address.len() ==> #[trigger] address[i] != ']',
        forall|i: int| 0 <= i < open.len() ==> #[trigger] open[i] != ']',
    ensures
        tunnel_target(seq!['['] + address + seq![']'] + after) == Ok::<
            (Seq<char>, u16),
            InboundError<Seq<char>>,
        >(
            (
                address,
                if after.len() > 0 && after[0] == ':' {
                    match text::port_number(after.skip(1)) {
                        Some(n) => n,
                        None => 443,
                    }
                } else {
                    443
                },
            ),
        ),
        tunnel_target(seq!['['] + open) == Err::<(Seq<char>, u16), InboundError<Seq<char>>>(
            InboundError::InvalidIpv6Uri(seq!['['] + open),
        ),
{
    let uri = seq!['['] + address + seq![']'] + after;
    let n = address.len() as int + 1;
    assert(uri[0] == '[');
    assert(uri[n] == ']');
    assert forall|j: int| 0 <= j < n implies uri[j] != ']' by {
        if j > 0 {
            assert(uri[j] == address[j - 1]);
        }
    }
    text::first_index_is_least(uri, ']');
    assert(uri.subrange(1, n) =~= address);
    if after.len() > 0 {
        assert(uri[n + 1] == after[0]);
        assert(uri.skip(n + 2) =~= after.skip(1));
        if after.len() == 1 {
            assert(after.skip(1) =~= Seq::<char>::empty());
            text::ports_are_read_by_their_digits(Seq::empty(), 0);
        }
    }
    let other = seq!['['] + open;
    assert(other[0] == '[');
    assert forall|j: int| 0 <= j < other.len() implies other[j] != ']' by {
        if j > 0 {
            assert(other[j] == open[j - 1]);
        }
    }
    text::first_index_is_least(other, ']');
}

/// Law: a request that asks for no tunnel goes to the host of its URI, and to the port of that or
/// else to 80; a text that is no URI, and a URI without a host, are refused.
pub proof fn plain_requests_go_to_their_host(
    q: HttpRequest<Seq<u8>, Seq<char>>,
    host: Seq<char>,
    port: u16,
    path: Seq<char>,
    query: Option<Seq<char>>,
    some_port: Option<u16>,
)
    requires
        !asks_for_tunnel(q.method),
    ensures
        request_target(q, Some(UriParts { host: Some(host), port: Some(port), path, query }))
            == Ok::<(Seq<char>, u16), InboundError<Seq<char>>>((host, port)),
        request_target(q, Some(UriParts { host: Some(host), port: None, path, query })) == Ok::<
            (Seq<char>, u16),
            InboundError<Seq<char>>,
        >((host, 80)),
        request_target(q, Some(UriParts { host: None, port: some_port, path, query })) == Err::<
            (Seq<char>, u16),
            InboundError<Seq<char>>,
        >(InboundError::MissingHost),
        request_target(q, None) == Err::<(Seq<char>, u16), InboundError<Seq<char>>>(
            InboundError::InvalidUri(q.uri),
        ),
{
}

/// Law: a request that asks for a tunnel goes where its URI says, whatever a reader of URIs makes
/// of that.
pub proof fn tunnels_go_by_the_text(
    q: HttpRequest<Seq<u8>, Seq<char>>,
    parts: Option<UriParts<Seq<char>>>,
)
    requires
        asks_for_tunnel(q.method),
    ensures
        request_target(q, parts) == tunnel_target(q.uri),
{
}

/// Law: a method asks for a tunnel just where it is CONNECT, in any letter case.
pub proof fn connect_in_any_letter_case(method: Seq<char>)
    requires
        vstd::utf8::is_ascii_chars(method),
    ensures
        asks_for_tunnel(method) <==> method.len() == 7 && (method[0] == 'C' || method[0] == 'c')
            && (method[1] == 'O' || method[1] == 'o') && (method[2] == 'N' || method[2] == 'n')
            && (method[3] == 'N' || method[3] == 'n') && (method[4] == 'E' || method[4] == 'e')
            && (method[5] == 'C' || method[5] == 'c') && (method[6] == 'T' || method[6] == 't'),
{
    let upper = text::upper_text(method);
    if method.len() == 7 {
        lemma_upper_at(method, 0, 'C', 'c');
        lemma_upper_at(method, 1, 'O', 'o');
        lemma_upper_at(method, 2, 'N', 'n');
        lemma_upper_at(method, 3, 'N', 'n');
        lemma_upper_at(method, 4, 'E', 'e');
        lemma_upper_at(method, 5, 'C', 'c');
        lemma_upper_at(method, 6, 'T', 't');
    } else if method.len() > 0 {
        text::upper_case_changes_small_letters_alone(method, 0);
    }
    lemma_is_connect(upper);
}

proof fn lemma_is_connect(s: Seq<char>)
    ensures
        s == "CONNECT"@ <==> s.len() == 7 && s[0] == 'C' && s[1] == 'O' && s[2] == 'N' && s[3]
            == 'N' && s[4] == 'E' && s[5] == 'C' && s[6] == 'T',
{
    reveal_strlit("CONNECT");
    if s.len() == 7 && s[0] == 'C' && s[1] == 'O' && s[2] == 'N' && s[3] == 'N' && s[4] == 'E'
        && s[5] == 'C' && s[6] == 'T' {
        assert(s =~= "CONNECT"@);
    }
}

proof fn lemma_upper_at(s: Seq<char>, i: int, capital: char, small: char)
    requires
        vstd::utf8::is_ascii_chars(s),
        0 <= i < s.len(),
        'A' <= capital <= 'Z',
        small as u32 == capital as u32 + 32,
    ensures
        text::upper_text(s).len() == s.len(),
        text::upper_text(s)[i] == capital <==> s[i] == capital || s[i] == small,
{
    text::upper_case_changes_small_letters_alone(s, i);
    lemma_upper_of(s[i], text::upper_text(s)[i], capital, small);
}

proof fn lemma_upper_of(c: char, up: char, capital: char, small: char)
    requires
        'A' <= capital <= 'Z',
        small as u32 == capital as u32 + 32,
        'a' <= c <= 'z' ==> up as u32 + 32 == c as u32,
        !('a' <= c <= 'z') ==> up == c,
    ensures
        up == capital <==> c == capital || c == small,
{
}

/// Law: a request with an absolute URI reaches its server with the path and query of that, and with
/// its own method and version; an empty path is a slash. Behind the first line stand the headers
/// that travel.
pub proof fn absolute_requests_become_paths(
    q: HttpRequest<Seq<u8>, Seq<char>>,
    host: Option<Seq<char>>,
    port: Option<u16>,
    path: Seq<char>,
    query: Seq<char>,
    after_scheme: Seq<char>,
)
    requires
        q.uri == "http://"@ + after_scheme || q.uri == "https://"@ + after_scheme,
        path.len() > 0,
    ensures
        ({
            let sent = |target: Seq<char>| vstd::utf8::encode_utf8(
                q.method + " "@ + target + " "@ + q.version + "\r\n"@,
            ) + end_to_end(q.headers);
            let none = Seq::<char>::empty();
            &&& forwarded_head(q, Some(UriParts { host, port, path, query: None })) == sent(path)
            &&& forwarded_head(q, Some(UriParts { host, port, path, query: Some(query) })) == sent(
                path + "?"@ + query,
            )
            &&& forwarded_head(q, Some(UriParts { host, port, path: none, query: None })) == sent(
                "/"@,
            )
            &&& forwarded_head(q, Some(UriParts { host, port, path: none, query: Some(query) }))
                == sent("/"@ + "?"@ + query)
        }),
{
    reveal_strlit("http://");
    reveal_strlit("https://");
    if q.uri == "http://"@ + after_scheme {
        assert(q.uri.take(7) =~= "http://"@);
    } else {
        assert(q.uri.take(8) =~= "https://"@);
    }
}

/// Law: what is no URI after all is sent with what stands from the first slash behind the host on,
/// or a slash.
pub proof fn odd_requests_keep_their_path(
    q: HttpRequest<Seq<u8>, Seq<char>>,
    host: Seq<char>,
    path: Seq<char>,
)
    requires
        forall|i: int| 0 <= i < host.len() ==> #[trigger] host[i] != '/',
        path.len() == 0 || path[0] == '/',
        q.uri == "http://"@ + (host + path) || q.uri == "https://"@ + (host + path),
    ensures
        forwarded_head(q, None) == vstd::utf8::encode_utf8(
            q.method + " "@ + (if path.len() > 0 {
                path
            } else {
                "/"@
            }) + " "@ + q.version + "\r\n"@,
        ) + end_to_end(q.headers),
{
    reveal_strlit("http://");
    reveal_strlit("https://");
    let after = host + path;
    if q.uri == "http://"@ + after {
        assert(q.uri.take(7) =~= "http://"@);
        assert(q.uri.skip(7) =~= after);
    } else {
        assert(q.uri.take(8) =~= "https://"@);
        assert(q.uri.skip(8) =~= after);
        if text::starts_with(q.uri, "http://"@) {
            assert(q.uri.take(7)[4] == ':');
            assert(q.uri[4] == 's');
        }
    }
    let n = host.len() as int;
    text::first_index_is_least(after, '/');
    assert(forall|j: int| 0 <= j < n ==> after[j] == host[j]);
    if path.len() > 0 {
        assert(after[n] == '/');
        assert(after.skip(n) =~= path);
    }
}

/// Law: a request whose URI names no server is sent on with its first line as it was, byte for
/// byte, and the headers that travel.
pub proof fn other_requests_keep_their_line(
    q: HttpRequest<Seq<u8>, Seq<char>>,
    parts: Option<UriParts<Seq<char>>>,
)
    requires
        !text::starts_with(q.uri, "http://"@),
        !text::starts_with(q.uri, "https://"@),
    ensures
        forwarded_head(q, parts) == q.line + end_to_end(q.headers),
{
}

/// Law: a client whose tunnel stands is told so, and the server is sent nothing; the server of any
/// other request is sent the head of it. Names are left to be resolved.
pub proof fn openings_have_their_form(
    q: HttpRequest<Seq<u8>, Seq<char>>,
    parts: Option<UriParts<Seq<char>>>,
    host: Seq<char>,
    port: u16,
)
    ensures
        asks_for_tunnel(q.method) ==> opening_of(q, parts) == HttpOpening::ToClient(
            vstd::utf8::encode_utf8("HTTP/1.1 200 Connection Established\r\n\r\n"@),
        ),
        !asks_for_tunnel(q.method) ==> opening_of(q, parts) == HttpOpening::ToServer(
            forwarded_head(q, parts),
        ),
        proxied((host, port)) == (Destination {
            host,
            port,
            resolve_hostname: true,
            ip: None,
        }),
{
}

/// Law: bytes that are read one chunk after the other lead to what they lead to in one piece; a
/// client that closes the connection before the headers end is refused.
pub proof fn chunks_do_not_matter(data: Seq<u8>, a: Seq<u8>, b: Seq<u8>)
    requires
        a.len() > 0,
        b.len() > 0,
        after_chunk(data, a) is Read,
    ensures
        after_chunk(data + a, b) == after_chunk(data, a + b),
        after_chunk(data + a, b) == header_reaction(data + a + b),
        after_chunk(data, Seq::empty()) == HeaderNext::<Seq<u8>, InboundError<Seq<char>>>::Fail(
            InboundError::HeadersClosed,
        ),
{
    assert(data + (a + b) =~= data + a + b);
}

/// Law: a client whose destination cannot be reached is answered with status 502, no body and the
/// end of the connection.
pub proof fn failures_are_answered_without_a_body()
    ensures
        failure_reply()
            == "HTTP/1.1 502 Bad Gateway\r\nContent-Length: 0\r\nConnection: close\r\n\r\n"@,
        tunnel_reply() == "HTTP/1.1 200 Connection Established\r\n\r\n"@,
{
}

} // verus!
