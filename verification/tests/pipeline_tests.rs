use d3cap::d3cap::{feed_frame, EthernetCtx, RouteMsg};
use d3cap::multicast::Multicast;
use d3cap::rustpcap::{PcapData, PcapTimeval};

fn tv() -> PcapTimeval {
    PcapTimeval { tv_sec: 1, tv_usec: 0 }
}

/// A frame with only a MAC layer of interest: an unrecognized EtherType.
fn mac_frame(src: [u8; 6], dst: [u8; 6], wire: u32) -> PcapData {
    let mut bytes = Vec::new();
    bytes.extend_from_slice(&dst);
    bytes.extend_from_slice(&src);
    bytes.extend_from_slice(&[0x99, 0x99]);
    PcapData::new(bytes, wire, tv())
}

fn drain(mc: &mut Multicast<RouteMsg>, id: usize) -> Vec<RouteMsg> {
    let mut out = Vec::new();
    loop {
        let next = match mc.peek(id) {
            Some(m) => m.clone(),
            None => break,
        };
        out.push(next);
        mc.advance(id);
    }
    out
}

#[test]
fn two_frames_end_to_end() {
    let mut ctx = EthernetCtx::new();
    let mut mc: Multicast<RouteMsg> = Multicast::new();
    let viewer = mc.push();

    let x = [0xaa, 0xbb, 0xcc, 0xdd, 0xee, 0xff];
    let y = [0x11, 0x22, 0x33, 0x44, 0x55, 0x66];

    feed_frame(&mut ctx, &mut mc, &mac_frame(x, y, 64));
    feed_frame(&mut ctx, &mut mc, &mac_frame(y, x, 128));

    let msgs = drain(&mut mc, viewer);
    assert_eq!(msgs.len(), 2);

    // the second update reports both directions, sides in canonical order
    let m = &msgs[1];
    assert_eq!(m.typ, "mac");
    assert_eq!(m.a, "11:22:33:44:55:66");
    assert_eq!(m.from_a_count, 1);
    assert_eq!(m.from_a_size, 128);
    assert_eq!(m.b, "aa:bb:cc:dd:ee:ff");
    assert_eq!(m.from_b_count, 1);
    assert_eq!(m.from_b_size, 64);

    // the first update saw only the first packet
    assert_eq!(msgs[0].from_b_count, 1);
    assert_eq!(msgs[0].from_b_size, 64);
    assert_eq!(msgs[0].from_a_count, 0);
    assert_eq!(msgs[0].from_a_size, 0);

    assert_eq!(ctx.mac.route_count(), 1);
}

#[test]
fn ip4_frame_publishes_mac_and_ip_updates() {
    let mut ctx = EthernetCtx::new();
    let mut mc: Multicast<RouteMsg> = Multicast::new();
    let viewer = mc.push();

    let mut bytes = vec![
        0x11, 0x22, 0x33, 0x44, 0x55, 0x66, 0xaa, 0xbb, 0xcc, 0xdd, 0xee, 0xff, 0x08, 0x00,
    ];
    bytes.extend_from_slice(&[
        0x45, 0x00, 0x00, 0x28, 0x12, 0x34, 0x40, 0x00, 0x40, 0x06, 0xbe, 0xef, 10, 0, 0, 1, 10,
        0, 0, 2,
    ]);
    feed_frame(&mut ctx, &mut mc, &PcapData::new(bytes, 60, tv()));

    let msgs = drain(&mut mc, viewer);
    assert_eq!(msgs.len(), 2);
    assert_eq!(msgs[0].typ, "mac");
    assert_eq!(msgs[1].typ, "ip4");
    assert_eq!(msgs[1].a, "10.0.0.1");
    assert_eq!(msgs[1].from_a_size, 40);
    assert_eq!(ctx.ip4.route_count(), 1);
    assert_eq!(ctx.ip6.route_count(), 0);
}
