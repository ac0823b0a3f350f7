use ipv_proxy::forward::{backend_public_ip, Backend};
use ipv_proxy::net::{IpAddress, Ipv4Address, Ipv6Address};
use ipv_proxy::text::decimal_string;

fn v6(segments: [u16; 8]) -> String {
    Ipv6Address::from_segments(segments).to_text()
}

#[test]
fn decimal_text_has_no_leading_zeros() {
    assert_eq!(decimal_string(0), "0");
    assert_eq!(decimal_string(7), "7");
    assert_eq!(decimal_string(10), "10");
    assert_eq!(decimal_string(30033), "30033");
    assert_eq!(decimal_string(65535), "65535");
}

#[test]
fn ipv4_text_is_dotted_decimal() {
    assert_eq!(Ipv4Address::new(51, 158, 177, 228).to_text(), "51.158.177.228");
    assert_eq!(Ipv4Address::new(0, 0, 0, 0).to_text(), "0.0.0.0");
    assert_eq!(Ipv4Address::new(255, 255, 255, 255).to_text(), "255.255.255.255");
    assert_eq!(Ipv4Address::unspecified().octets, [0, 0, 0, 0]);
}

#[test]
fn ipv6_text_without_zero_runs() {
    assert_eq!(
        v6([0x2001, 0x4dd5, 0xb276, 0x1, 0xf652, 0x14ff, 0xfe94, 0xdc00]),
        "2001:4dd5:b276:1:f652:14ff:fe94:dc00"
    );
}

#[test]
fn ipv6_text_compresses_longest_zero_run() {
    assert_eq!(v6([0, 0, 0, 0, 0, 0, 0, 0]), "::");
    assert_eq!(v6([0, 0, 0, 0, 0, 0, 0, 1]), "::1");
    assert_eq!(v6([1, 0, 0, 0, 0, 0, 0, 0]), "1::");
    assert_eq!(v6([0x2001, 0xdb8, 0, 0, 1, 0, 0, 0]), "2001:db8:0:0:1::");
    assert_eq!(v6([0x2001, 0xdb8, 0, 0, 0, 1, 0, 0]), "2001:db8::1:0:0");
}

#[test]
fn ipv6_text_takes_first_of_equal_runs() {
    assert_eq!(v6([1, 0, 0, 2, 0, 0, 3, 4]), "1::2:0:0:3:4");
}

#[test]
fn ipv6_text_keeps_single_zero_group() {
    assert_eq!(v6([1, 0, 2, 3, 4, 5, 6, 7]), "1:0:2:3:4:5:6:7");
}

#[test]
fn ipv6_text_of_ipv4_mapped_address() {
    assert_eq!(v6([0, 0, 0, 0, 0, 0xffff, 0xc000, 0x0280]), "::ffff:192.0.2.128");
}

#[test]
fn ip_address_text_follows_its_family() {
    assert_eq!(IpAddress::V4(Ipv4Address::new(127, 0, 0, 1)).to_text(), "127.0.0.1");
    assert_eq!(
        IpAddress::V6(Ipv6Address::from_segments([0xfe80, 0, 0, 0, 0xabc, 0, 0, 0xff])).to_text(),
        "fe80::abc:0:0:ff"
    );
}

#[test]
fn manual_backend_defaults_to_unspecified_address() {
    let given = Ipv4Address::new(10, 1, 2, 3);
    assert_eq!(backend_public_ip(Backend::Manual, Some(given)), Some(given));
    assert_eq!(
        backend_public_ip(Backend::Manual, None),
        Some(Ipv4Address::new(0, 0, 0, 0))
    );
}

#[test]
fn jool_backend_needs_a_public_address() {
    let given = Ipv4Address::new(10, 1, 2, 3);
    assert_eq!(backend_public_ip(Backend::Jool, Some(given)), Some(given));
    assert_eq!(backend_public_ip(Backend::Jool, None), None);
}
