use d3cap::d3cap::OrdAddrs;
use d3cap::ether::MacAddr;
use d3cap::ip::{IP4Addr, IP6Addr};
use d3cap::util::Addr;

#[test]
fn canonical_pair_ignores_argument_order() {
    let x = MacAddr([0xaa, 0xbb, 0xcc, 0xdd, 0xee, 0xff]);
    let y = MacAddr([0x11, 0x22, 0x33, 0x44, 0x55, 0x66]);
    assert_eq!(OrdAddrs::from(x, y), OrdAddrs::from(y, x));
    assert_eq!(OrdAddrs::from(x, y).first(), y);
    assert_eq!(OrdAddrs::from(x, y).second(), x);

    let a = IP4Addr([10, 0, 0, 1]);
    let b = IP4Addr([10, 0, 0, 2]);
    assert_eq!(OrdAddrs::from(a, b), OrdAddrs::from(b, a));
    assert_eq!(OrdAddrs::from(b, a).first(), a);

    let p = IP6Addr([0x2001, 0xdb8, 0, 0, 0, 0, 0, 1]);
    let q = IP6Addr([0x2001, 0xdb8, 0, 0, 0, 0, 0, 2]);
    assert_eq!(OrdAddrs::from(p, q), OrdAddrs::from(q, p));

    // a pair of one address with itself is its own canonical pair
    assert_eq!(OrdAddrs::from(x, x), OrdAddrs::from(x, x));
    assert_eq!(OrdAddrs::from(x, x).first(), x);
}

#[test]
fn mac_formats_as_colon_separated_hex_octets() {
    let m = MacAddr([0xaa, 0xbb, 0xcc, 0xdd, 0xee, 0xff]);
    assert_eq!(m.to_str(), "aa:bb:cc:dd:ee:ff");
    let z = MacAddr([0x00, 0x01, 0x0a, 0x10, 0x99, 0xf0]);
    assert_eq!(z.to_str(), "00:01:0a:10:99:f0");
}

#[test]
fn ip4_formats_as_dotted_quad() {
    assert_eq!(IP4Addr([1, 2, 3, 4]).to_str(), "1.2.3.4");
    assert_eq!(IP4Addr([255, 0, 10, 100]).to_str(), "255.0.10.100");
}

#[test]
fn ip6_formats_compact_and_general() {
    // IPv4-compatible: six leading zero words
    let compat = IP6Addr([0, 0, 0, 0, 0, 0, 0x0102, 0x0304]);
    assert_eq!(compat.to_str(), "[::1.2.3.4]");

    // IPv4-mapped: five zero words then 0xffff
    let mapped = IP6Addr([0, 0, 0, 0, 0, 0xFFFF, 0xc0a8, 0x0101]);
    assert_eq!(mapped.to_str(), "[::FFFF:192.168.1.1]");

    // anything else: all eight words, minimal lower-case hex
    let general = IP6Addr([0x2001, 0x0db8, 0, 0, 0x8d3, 0, 0x42, 0x8329]);
    assert_eq!(general.to_str(), "[2001:db8:0:0:8d3:0:42:8329]");
}

#[test]
fn address_order_is_lexicographic() {
    let lo = MacAddr([0, 0, 0, 0, 0, 1]);
    let hi = MacAddr([0, 0, 0, 0, 1, 0]);
    assert!(lo.le(&hi));
    assert!(!hi.le(&lo));
    assert!(lo.le(&lo));
    assert!(lo.eq_addr(&lo));
    assert!(!lo.eq_addr(&hi));
}
