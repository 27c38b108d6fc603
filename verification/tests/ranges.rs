use edgesteer::net::IpAddress;
use edgesteer::ranges::{fallback_ranges, ranges_from_bodies};

#[test]
fn fallback_ranges_contain_current_cloudflare_examples() {
    let ranges = match fallback_ranges() {
        Ok(ranges) => ranges,
        Err(_) => panic!("fallback ranges parse"),
    };
    assert!(ranges.iter().any(|range| range.contains(IpAddress::v4(104, 16, 1, 1))));
    assert!(ranges
        .iter()
        .any(|range| range.contains(IpAddress::V6(0x2606_4700_0000_0000_0000_0000_0000_1111u128))));
}

#[test]
fn downloaded_bodies_are_read_line_by_line() {
    let bodies = vec!["173.245.48.0/20\n\n103.21.244.0/22\n".to_owned(), "2400:cb00::/32\n".to_owned()];
    let ranges = match ranges_from_bodies(&bodies) {
        Ok(ranges) => ranges,
        Err(_) => panic!("bodies parse"),
    };
    assert_eq!(ranges.len(), 3);
    assert!(ranges[0].contains(IpAddress::v4(173, 245, 48, 1)));
    assert!(ranges_from_bodies(&vec!["not a range\n".to_owned()]).is_err());
}
