use edgesteer::local_dns::{is_tunnel_interface, normalize_dns_servers, parse_resolv_conf};
use edgesteer::net::{parse_ip_address, IpAddress, SocketAddress};

#[test]
fn recognizes_macos_tunnel_interface_names() {
    assert!(is_tunnel_interface("utun4"));
    assert!(is_tunnel_interface("ppp0"));
    assert!(!is_tunnel_interface("en7"));
}

#[test]
fn parses_nameservers_without_using_the_system_resolver() {
    let parsed = parse_resolv_conf(
        "# generated\nnameserver 10.0.0.53\nnameserver 2001:db8::53 # comment\nsearch example.test\n",
    );
    assert_eq!(
        parsed,
        vec![
            IpAddress::v4(10, 0, 0, 53),
            parse_ip_address("2001:db8::53").unwrap(),
        ]
    );
}

#[test]
fn filters_loopback_listener_and_duplicate_addresses() {
    let listener = SocketAddress { ip: IpAddress::v4(127, 0, 0, 1), port: 53 };
    let addresses = normalize_dns_servers(
        &vec![
            IpAddress::v4(127, 0, 0, 1),
            IpAddress::v4(0, 0, 0, 0),
            IpAddress::v4(224, 0, 0, 1),
            IpAddress::v4(10, 0, 0, 53),
            IpAddress::v4(10, 0, 0, 53),
            IpAddress::V6(1),
        ],
        listener,
    );
    assert_eq!(
        addresses,
        vec![SocketAddress { ip: IpAddress::v4(10, 0, 0, 53), port: 53 }]
    );
}
