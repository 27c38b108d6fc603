use vstd::prelude::*;

use crate::config::{FileConfig, LayerType};
use crate::net::{
    parse_ip_address, socket_addresses_overlap, spec_parse_ip_address,
    spec_socket_addresses_overlap, IpAddress, SocketAddress,
};
use crate::text::{
    chars_equal, chars_of, fields, lower, pieces, piece_end, slice_chars, spec_char_lists,
    spec_fields, spec_lower, spec_next_sep, spec_pieces, spec_starts_with, starts_with,
    string_from_chars,
};

verus! {

broadcast use vstd::string::group_string_axioms;

/// A system resolver that local layers may forward to: not loopback,
/// unspecified, multicast, broadcast or IPv6 link-local, and not the
/// listener itself (port 53).
pub open spec fn spec_usable_dns_server(address: IpAddress, listener: SocketAddress) -> bool {
    &&& !address.spec_is_loopback()
    &&& !address.spec_is_unspecified()
    &&& !address.spec_is_multicast()
    &&& !address.spec_is_broadcast()
    &&& !address.spec_is_unicast_link_local()
    &&& !spec_socket_addresses_overlap(listener, SocketAddress { ip: address, port: 53 })
}

pub fn usable_dns_server(address: IpAddress, listener: SocketAddress) -> (r: bool)
    ensures
        r == spec_usable_dns_server(address, listener),
{
    if address.is_loopback() || address.is_unspecified() || address.is_multicast() {
        return false;
    }
    if address.is_broadcast() || address.is_unicast_link_local() {
        return false;
    }
    !socket_addresses_overlap(listener, SocketAddress { ip: address, port: 53 })
}

/// The usable resolvers, each once, in order of first appearance.
pub open spec fn spec_usable_unique(addresses: Seq<IpAddress>, listener: SocketAddress) -> Seq<
    IpAddress,
>
    decreases addresses.len(),
{
    if addresses.len() == 0 {
        Seq::empty()
    } else {
        let before = spec_usable_unique(addresses.drop_last(), listener);
        let a = addresses.last();
        if spec_usable_dns_server(a, listener) && !before.contains(a) {
            before.push(a)
        } else {
            before
        }
    }
}

/// The usable resolvers, each once, in order, on port 53.
pub fn normalize_dns_servers(addresses: &Vec<IpAddress>, listener: SocketAddress) -> (r: Vec<
    SocketAddress,
>)
    ensures
        r@ == spec_usable_unique(addresses@, listener).map_values(
            |a: IpAddress| SocketAddress { ip: a, port: 53 },
        ),
{
    let mut kept: Vec<IpAddress> = Vec::new();
    let mut out: Vec<SocketAddress> = Vec::new();
    let mut i: usize = 0;
    while i < addresses.len()
        invariant
            i <= addresses@.len(),
            kept@ == spec_usable_unique(addresses@.take(i as int), listener),
            out@ == kept@.map_values(|a: IpAddress| SocketAddress { ip: a, port: 53 }),
        decreases addresses@.len() - i,
    {
        let a = addresses[i];
        assert(addresses@.take(i + 1).drop_last() =~= addresses@.take(i as int));
        let mut seen = false;
        let mut k: usize = 0;
        while k < kept.len()
            invariant
                k <= kept@.len(),
                seen <==> exists|m: int| 0 <= m < k && kept@[m] == a,
            decreases kept@.len() - k,
        {
            if kept[k] == a {
                seen = true;
            }
            k += 1;
        }
        if usable_dns_server(a, listener) && !seen {
            let ghost before = kept@;
            kept.push(a);
            out.push(SocketAddress { ip: a, port: 53 });
            assert(out@ =~= kept@.map_values(|a: IpAddress| SocketAddress { ip: a, port: 53 }));
        }
        i += 1;
    }
    assert(addresses@.take(addresses@.len() as int) =~= addresses@);
    out
}

/// The keyword of a nameserver line.
pub const NAMESERVER: &'static str = "nameserver";

/// The resolver a `resolv.conf` line names: before any `#`, a first field
/// that is `nameserver` in any ASCII case, then an address.
pub open spec fn spec_resolv_line(line: Seq<char>) -> Option<IpAddress> {
    let content = line.subrange(0, spec_next_sep(line, '#', 0));
    let f = spec_fields(content);
    if f.len() >= 2 && spec_lower(f[0]) == NAMESERVER@ {
        spec_parse_ip_address(f[1])
    } else {
        None
    }
}

/// The resolvers named by the lines, in order.
pub open spec fn spec_resolv_lines(lines: Seq<Seq<char>>) -> Seq<IpAddress>
    decreases lines.len(),
{
    if lines.len() == 0 {
        Seq::empty()
    } else {
        let before = spec_resolv_lines(lines.drop_last());
        match spec_resolv_line(lines.last()) {
            Some(a) => before.push(a),
            None => before,
        }
    }
}

/// The nameservers of a `resolv.conf` file, read as text: the system
/// resolver itself is never asked.
pub open spec fn spec_parse_resolv_conf(contents: Seq<char>) -> Seq<IpAddress> {
    spec_resolv_lines(spec_pieces(contents, '\n'))
}

fn resolv_line(line: &Vec<char>) -> (r: Option<IpAddress>)
    ensures
        r == spec_resolv_line(line@),
{
    let end = piece_end(line.as_slice(), '#', 0);
    let content = slice_chars(line.as_slice(), 0, end);
    let f = fields(content.as_slice());
    if f.len() < 2 {
        return None;
    }
    assert(f@[0]@ == spec_fields(content@)[0]);
    assert(f@[1]@ == spec_fields(content@)[1]);
    let keyword = lower(f[0].as_slice());
    let expected = chars_of(NAMESERVER);
    if !chars_equal(keyword.as_slice(), expected.as_slice()) {
        return None;
    }
    let address = string_from_chars(&f[1]);
    parse_ip_address(address.as_str())
}

pub fn parse_resolv_conf(contents: &str) -> (r: Vec<IpAddress>)
    ensures
        r@ == spec_parse_resolv_conf(contents@),
{
    let chars = chars_of(contents);
    let lines = pieces(chars.as_slice(), '\n');
    let ghost lv = spec_char_lists(lines@);
    let mut out: Vec<IpAddress> = Vec::new();
    let mut i: usize = 0;
    while i < lines.len()
        invariant
            i <= lines@.len(),
            lv == spec_char_lists(lines@),
            out@ == spec_resolv_lines(lv.take(i as int)),
        decreases lines@.len() - i,
    {
        assert(lv.take(i + 1).drop_last() =~= lv.take(i as int));
        assert(lv.take(i + 1).last() == lines@[i as int]@);
        match resolv_line(&lines[i]) {
            Some(a) => out.push(a),
            None => {},
        }
        i += 1;
    }
    assert(lv.take(lv.len() as int) =~= lv);
    out
}

/// Interface-name prefixes of tunnels (VPNs), whose resolvers are skipped.
pub open spec fn spec_is_tunnel_interface(interface: Seq<char>) -> bool {
    let name = spec_lower(interface);
    ||| spec_starts_with(name, "utun"@)
    ||| spec_starts_with(name, "tun"@)
    ||| spec_starts_with(name, "tap"@)
    ||| spec_starts_with(name, "ppp"@)
    ||| spec_starts_with(name, "ipsec"@)
}

pub fn is_tunnel_interface(interface: &str) -> (r: bool)
    ensures
        r == spec_is_tunnel_interface(interface@),
{
    let chars = chars_of(interface);
    let name = lower(chars.as_slice());
    let utun = chars_of("utun");
    let tun = chars_of("tun");
    let tap = chars_of("tap");
    let ppp = chars_of("ppp");
    let ipsec = chars_of("ipsec");
    starts_with(name.as_slice(), utun.as_slice()) || starts_with(name.as_slice(), tun.as_slice())
        || starts_with(name.as_slice(), tap.as_slice()) || starts_with(
        name.as_slice(),
        ppp.as_slice(),
    ) || starts_with(name.as_slice(), ipsec.as_slice())
}

/// The shortest refresh interval of the local layers among the first `n`
/// layers, if there is one.
pub open spec fn spec_min_refresh(config: FileConfig, n: int) -> Option<u64>
    decreases n,
{
    if n <= 0 || n > config.layers@.len() {
        None
    } else {
        let before = spec_min_refresh(config, n - 1);
        let layer = config.layers@[n - 1];
        if layer.kind == LayerType::Local {
            let v = layer.spec_refresh_secs();
            match before {
                Some(b) => Some(if v < b {
                    v
                } else {
                    b
                }),
                None => Some(v),
            }
        } else {
            before
        }
    }
}

/// How often to rediscover the system resolvers: the shortest refresh
/// interval of the local layers; `None` without local layers.
pub fn configured_refresh_secs(config: &FileConfig) -> (r: Option<u64>)
    ensures
        r == spec_min_refresh(*config, config.layers@.len() as int),
{
    let mut best: Option<u64> = None;
    let mut i: usize = 0;
    while i < config.layers.len()
        invariant
            i <= config.layers@.len(),
            best == spec_min_refresh(*config, i as int),
        decreases config.layers@.len() - i,
    {
        let layer = &config.layers[i];
        if layer.kind == LayerType::Local {
            let v = layer.refresh_secs();
            best = match best {
                Some(b) => Some(if v < b {
                    v
                } else {
                    b
                }),
                None => Some(v),
            };
        }
        i += 1;
    }
    best
}

} // verus!
