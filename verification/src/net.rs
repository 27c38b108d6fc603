use vstd::prelude::*;

use crate::text::{
    chars_of, parse_unsigned, piece_end, slice_chars, spec_next_sep, spec_parse_unsigned,
    string_from_chars,
};

verus! {

/// An IP address: an IPv4 address as its 32-bit value, an IPv6 address as
/// its 128-bit value (both in network bit order, most significant bit first).
#[derive(Debug, Clone, Copy, PartialEq, Eq, Structural)]
pub enum IpAddress {
    V4(u32),
    V6(u128),
}

/// An IP address and a port.
#[derive(Debug, Clone, Copy, PartialEq, Eq, Structural)]
pub struct SocketAddress {
    pub ip: IpAddress,
    pub port: u16,
}

/// An IP network: an address and a prefix length, the address possibly with
/// host bits set, as a CIDR string writes it.
#[derive(Debug, Clone, Copy, PartialEq, Eq, Structural)]
pub struct Network {
    pub addr: IpAddress,
    pub prefix_len: u8,
}

impl IpAddress {
    /// The IPv4 address `a.b.c.d`.
    pub fn v4(a: u8, b: u8, c: u8, d: u8) -> (r: IpAddress)
        ensures
            r == IpAddress::V4(((a as u32) * 0x100_0000 + (b as u32) * 0x1_0000 + (c as u32)
                * 0x100 + d as u32) as u32),
    {
        IpAddress::V4((a as u32) * 0x100_0000 + (b as u32) * 0x1_0000 + (c as u32) * 0x100
            + d as u32)
    }

    /// 127.0.0.0/8 or ::1 (`IpAddr::is_loopback`).
    pub open spec fn spec_is_loopback(self) -> bool {
        match self {
            IpAddress::V4(a) => a >> 24u32 == 127,
            IpAddress::V6(a) => a == 1,
        }
    }

    /// 0.0.0.0 or :: (`IpAddr::is_unspecified`).
    pub open spec fn spec_is_unspecified(self) -> bool {
        match self {
            IpAddress::V4(a) => a == 0,
            IpAddress::V6(a) => a == 0,
        }
    }

    /// 224.0.0.0/4 or ff00::/8 (`IpAddr::is_multicast`).
    pub open spec fn spec_is_multicast(self) -> bool {
        match self {
            IpAddress::V4(a) => a >> 28u32 == 14,
            IpAddress::V6(a) => a >> 120u32 == 0xff,
        }
    }

    /// 255.255.255.255 (`Ipv4Addr::is_broadcast`); never an IPv6 address.
    pub open spec fn spec_is_broadcast(self) -> bool {
        match self {
            IpAddress::V4(a) => a == 0xffff_ffff,
            IpAddress::V6(_) => false,
        }
    }

    /// fe80::/10 (`Ipv6Addr::is_unicast_link_local`); never an IPv4 address.
    pub open spec fn spec_is_unicast_link_local(self) -> bool {
        match self {
            IpAddress::V4(_) => false,
            IpAddress::V6(a) => a >> 118u32 == 0x3fa,
        }
    }

    pub fn is_loopback(&self) -> (r: bool)
        ensures
            r == self.spec_is_loopback(),
    {
        match *self {
            IpAddress::V4(a) => a >> 24u32 == 127,
            IpAddress::V6(a) => a == 1,
        }
    }

    pub fn is_unspecified(&self) -> (r: bool)
        ensures
            r == self.spec_is_unspecified(),
    {
        match *self {
            IpAddress::V4(a) => a == 0,
            IpAddress::V6(a) => a == 0,
        }
    }

    pub fn is_multicast(&self) -> (r: bool)
        ensures
            r == self.spec_is_multicast(),
    {
        match *self {
            IpAddress::V4(a) => a >> 28u32 == 14,
            IpAddress::V6(a) => a >> 120u32 == 0xff,
        }
    }

    pub fn is_broadcast(&self) -> (r: bool)
        ensures
            r == self.spec_is_broadcast(),
    {
        match *self {
            IpAddress::V4(a) => a == 0xffff_ffff,
            IpAddress::V6(_) => false,
        }
    }

    pub fn is_unicast_link_local(&self) -> (r: bool)
        ensures
            r == self.spec_is_unicast_link_local(),
    {
        match *self {
            IpAddress::V4(_) => false,
            IpAddress::V6(a) => a >> 118u32 == 0x3fa,
        }
    }

    pub fn is_ipv4(&self) -> (r: bool)
        ensures
            r == (*self is V4),
    {
        match *self {
            IpAddress::V4(_) => true,
            IpAddress::V6(_) => false,
        }
    }
}

/// A listener and an endpoint on the same port that a packet to the endpoint
/// could reach: the same address, or either side unspecified (of either family).
pub open spec fn spec_socket_addresses_overlap(
    listener: SocketAddress,
    endpoint: SocketAddress,
) -> bool {
    listener.port == endpoint.port && (listener.ip == endpoint.ip
        || listener.ip.spec_is_unspecified() || endpoint.ip.spec_is_unspecified())
}

pub fn socket_addresses_overlap(listener: SocketAddress, endpoint: SocketAddress) -> (r: bool)
    ensures
        r == spec_socket_addresses_overlap(listener, endpoint),
{
    if listener.port != endpoint.port {
        return false;
    }
    match (listener.ip, endpoint.ip) {
        (IpAddress::V4(l), IpAddress::V4(e)) => l == e || l == 0 || e == 0,
        (IpAddress::V6(l), IpAddress::V6(e)) => l == e || l == 0 || e == 0,
        _ => listener.ip.is_unspecified() || endpoint.ip.is_unspecified(),
    }
}

/// The IPv4 netmask of a prefix length.
pub open spec fn spec_v4_netmask(prefix_len: u8) -> u32 {
    if prefix_len == 0 {
        0
    } else {
        0xffff_ffffu32 << ((32 - prefix_len) as u32)
    }
}

/// The IPv4 host mask of a prefix length.
pub open spec fn spec_v4_hostmask(prefix_len: u8) -> u32 {
    if prefix_len >= 32 {
        0
    } else {
        0xffff_ffffu32 >> (prefix_len as u32)
    }
}

/// The IPv6 netmask of a prefix length.
pub open spec fn spec_v6_netmask(prefix_len: u8) -> u128 {
    if prefix_len == 0 {
        0
    } else {
        0xffff_ffff_ffff_ffff_ffff_ffff_ffff_ffffu128 << ((128 - prefix_len) as u32)
    }
}

/// The IPv6 host mask of a prefix length.
pub open spec fn spec_v6_hostmask(prefix_len: u8) -> u128 {
    if prefix_len >= 128 {
        0
    } else {
        0xffff_ffff_ffff_ffff_ffff_ffff_ffff_ffffu128 >> (prefix_len as u32)
    }
}

impl Network {
    /// The prefix length fits the address family.
    pub open spec fn wf(self) -> bool {
        match self.addr {
            IpAddress::V4(_) => self.prefix_len <= 32,
            IpAddress::V6(_) => self.prefix_len <= 128,
        }
    }

    /// The address lies between the network address and the broadcast address
    /// of this network, and is of the same family.
    pub open spec fn spec_contains(self, address: IpAddress) -> bool {
        match (self.addr, address) {
            (IpAddress::V4(n), IpAddress::V4(a)) => (n & spec_v4_netmask(self.prefix_len)) <= a
                <= (n | spec_v4_hostmask(self.prefix_len)),
            (IpAddress::V6(n), IpAddress::V6(a)) => (n & spec_v6_netmask(self.prefix_len)) <= a
                <= (n | spec_v6_hostmask(self.prefix_len)),
            _ => false,
        }
    }

    pub fn contains(&self, address: IpAddress) -> (r: bool)
        requires
            self.wf(),
        ensures
            r == self.spec_contains(address),
    {
        match (self.addr, address) {
            (IpAddress::V4(n), IpAddress::V4(a)) => {
                let p = self.prefix_len;
                let netmask: u32 = if p == 0 {
                    0
                } else {
                    0xffff_ffffu32 << ((32 - p) as u32)
                };
                let hostmask: u32 = if p >= 32 {
                    0
                } else {
                    0xffff_ffffu32 >> (p as u32)
                };
                (n & netmask) <= a && a <= (n | hostmask)
            },
            (IpAddress::V6(n), IpAddress::V6(a)) => {
                let p = self.prefix_len;
                let netmask: u128 = if p == 0 {
                    0
                } else {
                    0xffff_ffff_ffff_ffff_ffff_ffff_ffff_ffffu128 << ((128 - p) as u32)
                };
                let hostmask: u128 = if p >= 128 {
                    0
                } else {
                    0xffff_ffff_ffff_ffff_ffff_ffff_ffff_ffffu128 >> (p as u32)
                };
                (n & netmask) <= a && a <= (n | hostmask)
            },
            _ => false,
        }
    }
}

/// The network of one address: a /32 or a /128.
pub open spec fn spec_host_network(address: IpAddress) -> Network {
    match address {
        IpAddress::V4(_) => Network { addr: address, prefix_len: 32 },
        IpAddress::V6(_) => Network { addr: address, prefix_len: 128 },
    }
}

pub fn host_network(address: IpAddress) -> (r: Network)
    ensures
        r == spec_host_network(address),
        r.wf(),
{
    match address {
        IpAddress::V4(_) => Network { addr: address, prefix_len: 32 },
        IpAddress::V6(_) => Network { addr: address, prefix_len: 128 },
    }
}

/// Some network of `ranges` contains `address`.
pub open spec fn spec_in_ranges(ranges: Seq<Network>, address: IpAddress) -> bool {
    exists|i: int| 0 <= i < ranges.len() && ranges[i].spec_contains(address)
}

/// Every network of `ranges` is well formed.
pub open spec fn spec_ranges_wf(ranges: Seq<Network>) -> bool {
    forall|i: int| 0 <= i < ranges.len() ==> ranges[i].wf()
}

/// Some network of `ranges` contains `address`.
pub fn in_ranges(ranges: &[Network], address: IpAddress) -> (r: bool)
    requires
        spec_ranges_wf(ranges@),
    ensures
        r == spec_in_ranges(ranges@, address),
{
    let mut i: usize = 0;
    while i < ranges.len()
        invariant
            i <= ranges.len(),
            spec_ranges_wf(ranges@),
            forall|k: int| 0 <= k < i ==> !ranges@[k].spec_contains(address),
        decreases ranges.len() - i,
    {
        if ranges[i].contains(address) {
            return true;
        }
        i += 1;
    }
    false
}

/// What `rustls::pki_types::IpAddr::try_from(&str)` gives for a string
/// (`None` where it fails).
pub uninterp spec fn spec_parse_ip_address(s: Seq<char>) -> Option<IpAddress>;

/// What `ipnet::IpNet::from_str` gives for a string (`None` where it fails).
pub uninterp spec fn spec_parse_network(s: Seq<char>) -> Option<Network>;

/// Parses an IPv4 or IPv6 address with rustls-pki-types' parser, which is
/// adapted from the standard library's `IpAddr` parser. The contract names the
/// result and claims nothing else of the grammar.
#[verifier::external_body]
pub fn parse_ip_address(s: &str) -> (r: Option<IpAddress>)
    ensures
        r == spec_parse_ip_address(s@),
{
    match rustls::pki_types::IpAddr::try_from(s) {
        Ok(rustls::pki_types::IpAddr::V4(a)) => Some(IpAddress::V4(u32::from_be_bytes(*a.as_ref()))),
        Ok(rustls::pki_types::IpAddr::V6(a)) => Some(IpAddress::V6(u128::from_be_bytes(*a.as_ref()))),
        Err(_) => None,
    }
}

/// Parses a CIDR network with `ipnet::IpNet::from_str`. Beside naming the
/// result, the contract states what ipnet's parser checks: the prefix length
/// fits the family (at most 32 for IPv4, 128 for IPv6).
#[verifier::external_body]
pub fn parse_network(s: &str) -> (r: Option<Network>)
    ensures
        r == spec_parse_network(s@),
        r matches Some(n) ==> n.wf(),
{
    match s.parse::<ipnet::IpNet>() {
        Ok(ipnet::IpNet::V4(n)) => Some(
            Network { addr: IpAddress::V4(u32::from(n.addr())), prefix_len: n.prefix_len() },
        ),
        Ok(ipnet::IpNet::V6(n)) => Some(
            Network { addr: IpAddress::V6(u128::from(n.addr())), prefix_len: n.prefix_len() },
        ),
        Err(_) => None,
    }
}

/// A port or scope number: decimal digits, no sign, at most `max`.
pub open spec fn spec_parse_decimal(s: Seq<char>, max: nat) -> Option<nat> {
    if s.len() > 0 && s[0] == '+' {
        None
    } else {
        spec_parse_unsigned(s, max)
    }
}

fn parse_decimal(s: &[char], max: u64) -> (r: Option<u64>)
    ensures
        match spec_parse_decimal(s@, max as nat) {
            Some(v) => r == Some(v as u64),
            None => r is None,
        },
{
    if s.len() > 0 && s[0] == '+' {
        None
    } else {
        parse_unsigned(s, max)
    }
}

/// A socket address as text: `address:port` with an IPv4 address, or
/// `[address]:port` with an IPv6 address, optionally followed inside the
/// brackets by `%` and a numeric scope; the addresses read by
/// `spec_parse_ip_address`, the port and scope in decimal digits.
pub open spec fn spec_parse_socket_address(s: Seq<char>) -> Option<SocketAddress> {
    if s.len() > 0 && s[0] == '[' {
        let close = spec_next_sep(s, ']', 1);
        if close + 1 < s.len() && s[close + 1] == ':' {
            let inner = s.subrange(1, close);
            let percent = spec_next_sep(inner, '%', 0);
            let scope_ok = percent == inner.len() || spec_parse_decimal(
                inner.subrange(percent + 1, inner.len() as int),
                u32::MAX as nat,
            ) is Some;
            match (
                spec_parse_ip_address(inner.subrange(0, percent)),
                spec_parse_decimal(s.subrange(close + 2, s.len() as int), u16::MAX as nat),
            ) {
                (Some(IpAddress::V6(a)), Some(port)) => if scope_ok {
                    Some(SocketAddress { ip: IpAddress::V6(a), port: port as u16 })
                } else {
                    None
                },
                _ => None,
            }
        } else {
            None
        }
    } else {
        let colon = spec_next_sep(s, ':', 0);
        if colon < s.len() {
            match (
                spec_parse_ip_address(s.subrange(0, colon)),
                spec_parse_decimal(s.subrange(colon + 1, s.len() as int), u16::MAX as nat),
            ) {
                (Some(IpAddress::V4(a)), Some(port)) => Some(
                    SocketAddress { ip: IpAddress::V4(a), port: port as u16 },
                ),
                _ => None,
            }
        } else {
            None
        }
    }
}

/// Reads a socket address written as `address:port` or `[address]:port`
/// (see `spec_parse_socket_address`); `None` where the text is not one.
pub fn parse_socket_address(text: &str) -> (r: Option<SocketAddress>)
    ensures
        r == spec_parse_socket_address(text@),
{
    let s = chars_of(text);
    if s.len() > 0 && s[0] == '[' {
        let close = piece_end(s.as_slice(), ']', 1);
        if close < s.len() && close + 1 < s.len() && s[close + 1] == ':' {
            let inner = slice_chars(s.as_slice(), 1, close);
            let percent = piece_end(inner.as_slice(), '%', 0);
            let scope_ok = if percent == inner.len() {
                true
            } else {
                let scope = slice_chars(inner.as_slice(), percent + 1, inner.len());
                parse_decimal(scope.as_slice(), 0xffff_ffff).is_some()
            };
            let ip_text = string_from_chars(&slice_chars(inner.as_slice(), 0, percent));
            let port_text = slice_chars(s.as_slice(), close + 2, s.len());
            match (parse_ip_address(ip_text.as_str()), parse_decimal(port_text.as_slice(), 0xffff)) {
                (Some(IpAddress::V6(a)), Some(port)) => if scope_ok {
                    Some(SocketAddress { ip: IpAddress::V6(a), port: port as u16 })
                } else {
                    None
                },
                _ => None,
            }
        } else {
            None
        }
    } else {
        let colon = piece_end(s.as_slice(), ':', 0);
        if colon < s.len() {
            let ip_text = string_from_chars(&slice_chars(s.as_slice(), 0, colon));
            let port_text = slice_chars(s.as_slice(), colon + 1, s.len());
            match (parse_ip_address(ip_text.as_str()), parse_decimal(port_text.as_slice(), 0xffff)) {
                (Some(IpAddress::V4(a)), Some(port)) => Some(
                    SocketAddress { ip: IpAddress::V4(a), port: port as u16 },
                ),
                _ => None,
            }
        } else {
            None
        }
    }
}

} // verus!
