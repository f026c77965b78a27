//! IP addresses and address ranges as plain values.

use crate::text;
use crate::text::push_decimal;
use vstd::prelude::*;
use vstd::string::*;

verus! {

/// An IP address: its octets in network order.
#[derive(Clone, Copy, Debug, PartialEq, Eq)]
pub enum IpAddr {
    V4([u8; 4]),
    V6([u8; 16]),
}

/// An address range: an address and the number of leading bits that it fixes.
#[derive(Clone, Copy, Debug, PartialEq, Eq)]
pub struct Cidr {
    pub addr: IpAddr,
    pub prefix_len: u8,
}

/// The number that octets stand for, the first one being the highest.
pub open spec fn octets_value(octets: Seq<u8>) -> nat
    decreases octets.len(),
{
    if octets.len() == 0 {
        0
    } else {
        octets_value(octets.drop_last()) * 256 + octets.last() as nat
    }
}

/// The leading `prefix_len` bits of a `width`-bit number.
pub open spec fn leading_bits(value: nat, width: nat, prefix_len: nat) -> nat {
    value / vstd::arithmetic::power2::pow2((width - prefix_len) as nat)
}

impl Cidr {
    /// Whether the prefix fits the address family.
    pub open spec fn wf(self) -> bool {
        match self.addr {
            IpAddr::V4(_) => self.prefix_len <= 32,
            IpAddr::V6(_) => self.prefix_len <= 128,
        }
    }

    /// Whether `ip` is in the range: it is of the same family and agrees with the range's address
    /// on the leading bits.
    pub open spec fn covers(self, ip: IpAddr) -> bool {
        match (self.addr, ip) {
            (IpAddr::V4(a), IpAddr::V4(b)) => leading_bits(
                octets_value(a@),
                32,
                self.prefix_len as nat,
            ) == leading_bits(octets_value(b@), 32, self.prefix_len as nat),
            (IpAddr::V6(a), IpAddr::V6(b)) => leading_bits(
                octets_value(a@),
                128,
                self.prefix_len as nat,
            ) == leading_bits(octets_value(b@), 128, self.prefix_len as nat),
            _ => false,
        }
    }
}

/// `IpNet::contains` of the crate `ipnet` tells whether an address lies between the network
/// address and the broadcast address of a range: whether the leading bits agree.
#[verifier::external_body]
pub(crate) fn cidr_contains(net: &Cidr, ip: &IpAddr) -> (r: bool)
    requires
        net.wf(),
    ensures
        r == net.covers(*ip),
{
    let net = ipnet::IpNet::new_assert(
        match net.addr {
            IpAddr::V4(octets) => octets.into(),
            IpAddr::V6(octets) => octets.into(),
        },
        net.prefix_len,
    );
    let ip = match *ip {
        IpAddr::V4(octets) => ipnet::IpNet::new_assert(octets.into(), 0).addr(),
        IpAddr::V6(octets) => ipnet::IpNet::new_assert(octets.into(), 0).addr(),
    };
    net.contains(&ip)
}

/// The range that a text such as `192.168.1.0/24` denotes.
pub uninterp spec fn cidr_syntax(s: Seq<char>) -> Option<Cidr>;

/// `IpNet::from_str` of the crate `ipnet` reads an address, a slash and a prefix length that fits
/// the address family: the result depends on the text alone.
#[verifier::external_body]
pub(crate) fn parse_cidr(s: &str) -> (r: Option<Cidr>)
    ensures
        r == cidr_syntax(s@),
        r matches Some(net) ==> net.wf(),
{
    match s.parse::<ipnet::IpNet>() {
        Ok(ipnet::IpNet::V4(net)) => Some(
            Cidr { addr: IpAddr::V4(net.addr().octets()), prefix_len: net.prefix_len() },
        ),
        Ok(ipnet::IpNet::V6(net)) => Some(
            Cidr { addr: IpAddr::V6(net.addr().octets()), prefix_len: net.prefix_len() },
        ),
        Err(_) => None,
    }
}

/// The dotted decimal text of an IPv4 address.
pub open spec fn dotted(octets: Seq<u8>) -> Seq<char> {
    let first = text::decimal(octets[0] as nat) + seq!['.'] + text::decimal(octets[1] as nat);
    let last = text::decimal(octets[2] as nat) + seq!['.'] + text::decimal(octets[3] as nat);
    first + seq!['.'] + last
}

/// The dotted decimal text of an IPv4 address.
pub fn ipv4_text(octets: &[u8; 4]) -> (r: String)
    ensures
        r@ == dotted(octets@),
{
    let mut out = String::new();
    push_decimal(&mut out, octets[0] as u64);
    out.push('.');
    push_decimal(&mut out, octets[1] as u64);
    out.push('.');
    push_decimal(&mut out, octets[2] as u64);
    out.push('.');
    push_decimal(&mut out, octets[3] as u64);
    assert(out@ =~= dotted(octets@));
    out
}

/// The canonical text of an IPv6 address.
pub uninterp spec fn colon_hex(octets: Seq<u8>) -> Seq<char>;

/// The standard library's `Display` for an IPv6 address, reached through `Ipv6Net::addr`, writes
/// the canonical text of the address: the result depends on the octets alone.
#[verifier::external_body]
pub(crate) fn ipv6_text(octets: &[u8; 16]) -> (r: String)
    ensures
        r@ == colon_hex(octets@),
{
    ipnet::Ipv6Net::new_assert((*octets).into(), 128).addr().to_string()
}

/// The text of an address.
pub open spec fn address_text(ip: IpAddr) -> Seq<char> {
    match ip {
        IpAddr::V4(octets) => dotted(octets@),
        IpAddr::V6(octets) => colon_hex(octets@),
    }
}

/// The address that a text denotes.
pub uninterp spec fn ip_syntax(s: Seq<char>) -> Option<IpAddr>;

/// The standard library's `str::parse` for an address of either family, reached through
/// `IpNet::new`, reads the text of an address: the result depends on the text alone.
#[verifier::external_body]
pub(crate) fn parse_ip(s: &str) -> (r: Option<IpAddr>)
    ensures
        r == ip_syntax(s@),
{
    match s.parse().map(|ip| ipnet::IpNet::new_assert(ip, 0)) {
        Ok(ipnet::IpNet::V4(net)) => Some(IpAddr::V4(net.addr().octets())),
        Ok(ipnet::IpNet::V6(net)) => Some(IpAddr::V6(net.addr().octets())),
        Err(_) => None,
    }
}

impl IpAddr {
    /// The text of the address.
    pub fn text(&self) -> (r: String)
        ensures
            r@ == address_text(*self),
    {
        match self {
            IpAddr::V4(octets) => ipv4_text(octets),
            IpAddr::V6(octets) => ipv6_text(octets),
        }
    }

    /// Whether both addresses are the same.
    pub fn same(&self, other: &IpAddr) -> (r: bool)
        ensures
            r == (*self == *other),
    {
        match (self, other) {
            (IpAddr::V4(a), IpAddr::V4(b)) => {
                let mut i: usize = 0;
                while i < 4
                    invariant
                        i <= 4,
                        *self == IpAddr::V4(*a),
                        *other == IpAddr::V4(*b),
                        forall|j: int| 0 <= j < i ==> a@[j] == b@[j],
                    decreases 4 - i,
                {
                    if a[i] != b[i] {
                        return false;
                    }
                    i = i + 1;
                }
                assert(a =~= b);
                true
            },
            (IpAddr::V6(a), IpAddr::V6(b)) => {
                let mut i: usize = 0;
                while i < 16
                    invariant
                        i <= 16,
                        *self == IpAddr::V6(*a),
                        *other == IpAddr::V6(*b),
                        forall|j: int| 0 <= j < i ==> a@[j] == b@[j],
                    decreases 16 - i,
                {
                    if a[i] != b[i] {
                        return false;
                    }
                    i = i + 1;
                }
                assert(a =~= b);
                true
            },
            _ => false,
        }
    }

    /// Reads the text of an address.
    pub fn parse(s: &str) -> (r: Option<IpAddr>)
        ensures
            r == ip_syntax(s@),
    {
        parse_ip(s)
    }
}

impl std::str::FromStr for IpAddr {
    type Err = ();

    fn from_str(s: &str) -> (r: Result<IpAddr, ()>)
        ensures
            r == (match ip_syntax(s@) {
                Some(ip) => Ok::<IpAddr, ()>(ip),
                None => Err(()),
            }),
    {
        match parse_ip(s) {
            Some(ip) => Ok(ip),
            None => Err(()),
        }
    }
}

/// Law: the text of an address of four octets is their numerals, in order, with dots between.
pub proof fn dotted_text_shows_the_octets(o: [u8; 4])
    ensures
        address_text(IpAddr::V4(o)) == text::decimal(o@[0] as nat) + seq!['.'] + text::decimal(
            o@[1] as nat,
        ) + seq!['.'] + text::decimal(o@[2] as nat) + seq!['.'] + text::decimal(o@[3] as nat),
{
    assert(dotted(o@) =~= text::decimal(o@[0] as nat) + seq!['.'] + text::decimal(o@[1] as nat)
        + seq!['.'] + text::decimal(o@[2] as nat) + seq!['.'] + text::decimal(o@[3] as nat));
}

/// Law: an address is in a range just where the range around it with the same prefix holds the
/// address of the range; and a range holds its own address.
pub proof fn ranges_are_symmetric(a: IpAddr, b: IpAddr, prefix_len: u8)
    ensures
        (Cidr { addr: a, prefix_len }).covers(b) == (Cidr { addr: b, prefix_len }).covers(a),
        (Cidr { addr: a, prefix_len }).covers(a),
{
}

} // verus!
