use d3cap::d3cap::decode_frame;
use d3cap::dot11::{Dot11MacBaseHeader, FrameControl, FROM_DS, RETRY, TO_DS};
use d3cap::ether::EthernetHeader;
use d3cap::ip::{IP4Header, IP6Header};
use d3cap::rustpcap::{PcapData, PcapTimeval};
use d3cap::tap::{decode_radiotap_frame, RadiotapHeader, ANTENNA_SIGNAL, TSFT};

fn tv() -> PcapTimeval {
    PcapTimeval { tv_sec: 7, tv_usec: 9 }
}

/// 14-byte Ethernet header followed by a 20-byte IPv4 header.
fn eth_ip4_frame() -> Vec<u8> {
    let mut f = vec![
        0x11, 0x22, 0x33, 0x44, 0x55, 0x66, // dst MAC
        0xaa, 0xbb, 0xcc, 0xdd, 0xee, 0xff, // src MAC
        0x08, 0x00, // EtherType: IPv4
    ];
    f.extend_from_slice(&[
        0x45, 0x00, // version/IHL, DSCP/ECN
        0x00, 0x28, // total length: 40
        0x12, 0x34, // identification
        0x40, 0x00, // flags/fragment
        0x40, 0x06, // TTL 64, protocol TCP
        0xbe, 0xef, // header checksum
        10, 0, 0, 1, // source address
        10, 0, 0, 2, // destination address
    ]);
    f
}

#[test]
fn ip4_frame_yields_two_records_with_declared_length() {
    let bytes = eth_ip4_frame();
    let frame = PcapData::new(bytes, 60, tv());
    let r = decode_frame(&frame);

    let mac = r.mac.expect("MAC record expected");
    assert_eq!(mac.src.0, [0xaa, 0xbb, 0xcc, 0xdd, 0xee, 0xff]);
    assert_eq!(mac.dst.0, [0x11, 0x22, 0x33, 0x44, 0x55, 0x66]);
    // MAC-layer size is the wire length
    assert_eq!(mac.size, 60);
    assert_eq!(mac.tm, tv());

    let ip = r.ip4.expect("IPv4 record expected");
    assert_eq!(ip.src.0, [10, 0, 0, 1]);
    assert_eq!(ip.dst.0, [10, 0, 0, 2]);
    // network-layer size is the declared total length, not the capture
    assert_eq!(ip.size, 40);

    assert!(r.ip6.is_none());
    assert!(r.unknown.is_none());
    assert!(r.truncated);
}

#[test]
fn short_capture_yields_no_records() {
    let frame = PcapData::new(vec![0xaa, 0xbb, 0xcc], 64, tv());
    let r = decode_frame(&frame);
    assert!(r.mac.is_none());
    assert!(r.ip4.is_none());
    assert!(r.ip6.is_none());
    assert!(r.unknown.is_none());
    assert!(r.truncated);
}

#[test]
fn unknown_ethertype_is_reported_without_record() {
    let mut bytes = vec![0u8; 14];
    bytes[12] = 0x99;
    bytes[13] = 0x99;
    let frame = PcapData::new(bytes, 14, tv());
    let r = decode_frame(&frame);
    assert!(r.mac.is_some());
    assert_eq!(r.unknown, Some(0x9999));
    assert!(r.ip4.is_none());
    assert!(r.ip6.is_none());
    assert!(!r.truncated);
}

#[test]
fn arp_is_recognized_but_yields_no_network_record() {
    let mut bytes = vec![0u8; 40];
    bytes[12] = 0x08;
    bytes[13] = 0x06;
    let frame = PcapData::new(bytes, 40, tv());
    let r = decode_frame(&frame);
    assert!(r.mac.is_some());
    assert!(r.ip4.is_none());
    assert!(r.ip6.is_none());
    assert!(r.unknown.is_none());
}

#[test]
fn truncated_ip4_layer_emits_mac_record_only() {
    let bytes = eth_ip4_frame()[..20].to_vec();
    let frame = PcapData::new(bytes, 60, tv());
    let r = decode_frame(&frame);
    assert!(r.mac.is_some());
    assert!(r.ip4.is_none());
}

#[test]
fn ip6_frame_uses_payload_length() {
    let mut bytes = vec![
        0x11, 0x22, 0x33, 0x44, 0x55, 0x66, 0xaa, 0xbb, 0xcc, 0xdd, 0xee, 0xff, 0x86, 0xdd,
    ];
    let mut ip6 = vec![
        0x60, 0x00, 0x00, 0x00, // version/class/flow
        0x01, 0x02, // payload length: 258
        0x11, 0x40, // next header, hop limit
    ];
    // source 2001:db8::1, destination 2001:db8::2
    ip6.extend_from_slice(&[0x20, 0x01, 0x0d, 0xb8, 0, 0, 0, 0, 0, 0, 0, 0, 0, 0, 0, 1]);
    ip6.extend_from_slice(&[0x20, 0x01, 0x0d, 0xb8, 0, 0, 0, 0, 0, 0, 0, 0, 0, 0, 0, 2]);
    bytes.extend_from_slice(&ip6);
    let frame = PcapData::new(bytes, 54, tv());
    let r = decode_frame(&frame);
    assert!(r.mac.is_some());
    let ip = r.ip6.expect("IPv6 record expected");
    assert_eq!(ip.size, 258);
    assert_eq!(ip.src.0, [0x2001, 0x0db8, 0, 0, 0, 0, 0, 1]);
    assert_eq!(ip.dst.0, [0x2001, 0x0db8, 0, 0, 0, 0, 0, 2]);
}

#[test]
fn header_parsers_check_their_bounds() {
    assert!(EthernetHeader::from_bytes(&[0u8; 13]).is_none());
    assert!(EthernetHeader::from_bytes(&[0u8; 14]).is_some());
    assert!(IP4Header::from_bytes(&[0u8; 19]).is_none());
    assert!(IP4Header::from_bytes(&[0u8; 20]).is_some());
    assert!(IP6Header::from_bytes(&[0u8; 39]).is_none());
    assert!(IP6Header::from_bytes(&[0u8; 40]).is_some());
    assert!(RadiotapHeader::from_bytes(&[0u8; 7]).is_none());
    assert!(Dot11MacBaseHeader::from_bytes(&[0u8; 9]).is_none());
}

#[test]
fn ethernet_fields_read_in_network_byte_order() {
    let bytes = eth_ip4_frame();
    let h = EthernetHeader::from_bytes(&bytes).unwrap();
    assert_eq!(h.typ, 0x0800);
    let ip = IP4Header::from_bytes(&bytes[14..]).unwrap();
    assert_eq!(ip.len, 40);
    assert_eq!(ip.ttl, 64);
    assert_eq!(ip.ident, 0x1234);
}

#[test]
fn radiotap_and_dot11_headers_decode() {
    // radiotap: version 0, length 8, TSFT + antenna-signal present
    let rt = vec![0x00, 0x00, 0x08, 0x00, 0x21, 0x00, 0x00, 0x00];
    let h = RadiotapHeader::from_bytes(&rt).unwrap();
    assert_eq!(h.it_version, 0);
    assert_eq!(h.it_len, 8);
    assert!(h.has_field(TSFT));
    assert!(h.has_field(ANTENNA_SIGNAL));
    assert!(!h.has_field(0x02));

    // 802.11 header: data frame, ToDS + Retry, duration 0x013a
    let mac = vec![0x08, 0x09, 0x3a, 0x01, 1, 2, 3, 4, 5, 6];
    let d = Dot11MacBaseHeader::from_bytes(&mac).unwrap();
    assert_eq!(d.fr_ctrl.protocol_version(), 0);
    assert_eq!(d.fr_ctrl.frame_type(), 2);
    assert_eq!(d.fr_ctrl.frame_subtype(), 0);
    assert!(d.fr_ctrl.has_flag(TO_DS));
    assert!(d.fr_ctrl.has_flag(RETRY));
    assert_eq!(d.dur_id, 0x013a);
    assert_eq!(d.addr1.0, [1, 2, 3, 4, 5, 6]);

    let fc = FrameControl { ty: 0x03, flags: 0 };
    assert_eq!(fc.protocol_version(), 3);
}

#[test]
fn radiotap_frame_skips_metadata_before_the_mac_header() {
    // 12-byte radiotap area, then the 802.11 MAC header
    let mut b = vec![0x00, 0x00, 0x0c, 0x00, 0x01, 0x00, 0x00, 0x00, 0xde, 0xad, 0xbe, 0xef];
    b.extend_from_slice(&[0x08, 0x01, 0x00, 0x00, 9, 8, 7, 6, 5, 4]);
    let f = decode_radiotap_frame(&b).expect("frame expected");
    assert_eq!(f.tap.it_len, 12);
    assert_eq!(f.mac.addr1.0, [9, 8, 7, 6, 5, 4]);
    assert_eq!(f.mac.fr_ctrl.frame_type(), 2);
    assert!(!f.malformed);

    // a non-zero protocol version is reported, not fatal
    let mut bogus = b.clone();
    bogus[12] = 0x0b;
    assert!(decode_radiotap_frame(&bogus).unwrap().malformed);

    // radiotap header longer than the capture: nothing to decode
    let short = vec![0x00, 0x00, 0x40, 0x00, 0x00, 0x00, 0x00, 0x00];
    assert!(decode_radiotap_frame(&short).is_none());
}

#[test]
fn multi_bit_flags_need_every_bit() {
    // containment: a combined flag holds only when all of its bits do
    let one = FrameControl { ty: 0x08, flags: TO_DS };
    assert!(one.has_flag(TO_DS));
    assert!(!one.has_flag(TO_DS | FROM_DS));
    let both = FrameControl { ty: 0x08, flags: TO_DS | FROM_DS };
    assert!(both.has_flag(TO_DS | FROM_DS));
    assert!(both.has_flag(FROM_DS));
    assert!(!both.has_flag(RETRY));
}
