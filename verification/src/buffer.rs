//! Growable byte buffers, held in `bytes::BytesMut`.

use bytes::BufMut;
use bytes::BytesMut;
use vstd::prelude::*;

verus! {

/// A growable byte buffer of the crate `bytes`.
#[verifier::external_type_specification]
#[verifier::external_body]
pub struct ExBytesMut(BytesMut);

/// The bytes that a buffer holds, in order.
pub uninterp spec fn buf_bytes(b: BytesMut) -> Seq<u8>;

/// The number of bytes that a buffer may hold at most.
pub open spec fn buf_limit() -> nat {
    isize::MAX as nat
}

/// `BytesMut::with_capacity` makes an empty buffer.
#[verifier::external_body]
pub(crate) fn buf_with_capacity(capacity: usize) -> (r: BytesMut)
    requires
        capacity <= buf_limit(),
    ensures
        buf_bytes(r) == Seq::<u8>::empty(),
{
    BytesMut::with_capacity(capacity)
}

/// `BufMut::put_u8` appends one byte.
#[verifier::external_body]
pub(crate) fn put_u8(b: &mut BytesMut, n: u8)
    requires
        buf_bytes(*old(b)).len() + 1 <= buf_limit(),
    ensures
        buf_bytes(*final(b)) == buf_bytes(*old(b)).push(n),
{
    b.put_u8(n)
}

/// `BufMut::put_slice` appends the bytes of `src`.
#[verifier::external_body]
pub(crate) fn put_slice(b: &mut BytesMut, src: &[u8])
    requires
        buf_bytes(*old(b)).len() + src@.len() <= buf_limit(),
    ensures
        buf_bytes(*final(b)) == buf_bytes(*old(b)) + src@,
{
    b.put_slice(src)
}

/// The two bytes of `n`, the high one first.
pub open spec fn be16(n: u16) -> Seq<u8> {
    seq![(n / 256) as u8, (n % 256) as u8]
}

/// `BufMut::put_u16` appends the two bytes of `n`, the high one first.
#[verifier::external_body]
pub(crate) fn put_u16(b: &mut BytesMut, n: u16)
    requires
        buf_bytes(*old(b)).len() + 2 <= buf_limit(),
    ensures
        buf_bytes(*final(b)) == buf_bytes(*old(b)) + be16(n),
{
    b.put_u16(n)
}

/// The four bytes of `n`, the highest one first.
pub open spec fn be32(n: u32) -> Seq<u8> {
    seq![
        (n / 0x100_0000) as u8,
        (n / 0x1_0000 % 256) as u8,
        (n / 256 % 256) as u8,
        (n % 256) as u8,
    ]
}

/// `BufMut::put_u32` appends the four bytes of `n`, the highest one first.
#[verifier::external_body]
pub(crate) fn put_u32(b: &mut BytesMut, n: u32)
    requires
        buf_bytes(*old(b)).len() + 4 <= buf_limit(),
    ensures
        buf_bytes(*final(b)) == buf_bytes(*old(b)) + be32(n),
{
    b.put_u32(n)
}

/// `BytesMut::deref` lends the bytes that the buffer holds.
#[verifier::external_body]
pub(crate) fn buf_slice(b: &BytesMut) -> (r: &[u8])
    ensures
        r@ == buf_bytes(*b),
{
    b
}

/// `BytesMut::split_to` removes the first `at` bytes from the buffer and hands them out.
#[verifier::external_body]
pub(crate) fn split_to(b: &mut BytesMut, at: usize) -> (r: BytesMut)
    requires
        at <= buf_bytes(*old(b)).len(),
    ensures
        buf_bytes(r) == buf_bytes(*old(b)).take(at as int),
        buf_bytes(*final(b)) == buf_bytes(*old(b)).skip(at as int),
{
    b.split_to(at)
}

/// The bytes of a buffer as a vector.
pub(crate) fn buf_to_vec(b: &BytesMut) -> (r: Vec<u8>)
    ensures
        r@ == buf_bytes(*b),
{
    let s = buf_slice(b);
    vstd::slice::slice_to_vec(s)
}

/// The position of the first `b` in `s`.
pub open spec fn first_byte(s: Seq<u8>, b: u8) -> Option<int>
    decreases s.len(),
{
    if s.len() == 0 {
        None
    } else if s[0] == b {
        Some(0)
    } else {
        match first_byte(s.skip(1), b) {
            Some(i) => Some(i + 1),
            None => None,
        }
    }
}

/// `first_byte` is the least position that holds the byte.
pub proof fn first_byte_is_least(s: Seq<u8>, b: u8)
    ensures
        match first_byte(s, b) {
            Some(i) => 0 <= i < s.len() && s[i] == b && forall|j: int| 0 <= j < i ==> s[j] != b,
            None => forall|j: int| 0 <= j < s.len() ==> s[j] != b,
        },
    decreases s.len(),
{
    if s.len() > 0 && s[0] != b {
        first_byte_is_least(s.skip(1), b);
        assert(forall|j: int| 1 <= j < s.len() ==> s[j] == s.skip(1)[j - 1]);
    }
}

/// `first_byte` is known from any least position that holds the byte.
pub proof fn first_byte_from_least(s: Seq<u8>, b: u8, i: int)
    requires
        0 <= i < s.len(),
        s[i] == b,
        forall|j: int| 0 <= j < i ==> s[j] != b,
    ensures
        first_byte(s, b) == Some(i),
{
    first_byte_is_least(s, b);
}

/// Finds the first `b` in `s[from..]`.
pub fn find_byte(s: &[u8], from: usize, b: u8) -> (r: Option<usize>)
    requires
        from <= s@.len(),
    ensures
        match r {
            Some(i) => from <= i < s@.len() && first_byte(s@.skip(from as int), b) == Some(
                i - from,
            ),
            None => first_byte(s@.skip(from as int), b) is None,
        },
{
    let ghost tail = s@.skip(from as int);
    proof {
        first_byte_is_least(tail, b);
    }
    let mut i: usize = from;
    while i < s.len()
        invariant
            from <= i <= s@.len(),
            tail == s@.skip(from as int),
            forall|j: int| 0 <= j < i - from ==> tail[j] != b,
            match first_byte(tail, b) {
                Some(k) => 0 <= k < tail.len() && tail[k] == b && forall|j: int|
                    0 <= j < k ==> tail[j] != b,
                None => forall|j: int| 0 <= j < tail.len() ==> tail[j] != b,
            },
        decreases s@.len() - i,
    {
        assert(s@[i as int] == tail[i - from]);
        if s[i] == b {
            return Some(i);
        }
        i = i + 1;
    }
    None
}

/// The bytes of `s[lo..hi]`.
pub fn byte_range(s: &[u8], lo: usize, hi: usize) -> (r: Vec<u8>)
    requires
        lo <= hi <= s@.len(),
    ensures
        r@ == s@.subrange(lo as int, hi as int),
{
    let mut out: Vec<u8> = Vec::new();
    let mut i: usize = lo;
    while i < hi
        invariant
            lo <= i <= hi <= s@.len(),
            out@ == s@.subrange(lo as int, i as int),
        decreases hi - i,
    {
        out.push(s[i]);
        i = i + 1;
    }
    out
}

/// The port that two bytes stand for, the high one first.
pub open spec fn port_of(hi: u8, lo: u8) -> u16 {
    (hi * 256 + lo) as u16
}

/// Reads a port from two bytes, the high one first.
pub fn read_port(hi: u8, lo: u8) -> (r: u16)
    ensures
        r == port_of(hi, lo),
{
    (hi as u16) * 256 + (lo as u16)
}

/// Law: the two bytes written for a port read back as that port.
pub proof fn port_bytes_read_back(port: u16)
    ensures
        be16(port).len() == 2,
        port_of(be16(port)[0], be16(port)[1]) == port,
{
}

/// Law: a port is written with its high byte first and read that way: bytes and port tell each
/// other.
pub proof fn ports_are_big_endian(port: u16, hi: u8, lo: u8)
    ensures
        be16(port).len() == 2,
        be16(port)[0] * 256 + be16(port)[1] == port,
        port_of(hi, lo) == hi * 256 + lo,
{
}

} // verus!
