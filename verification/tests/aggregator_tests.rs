use d3cap::d3cap::{AddrStats, OrdAddrs, PktMeta, ProtocolHandler};
use d3cap::ip::IP4Addr;
use d3cap::rustpcap::PcapTimeval;

fn tv() -> PcapTimeval {
    PcapTimeval { tv_sec: 0, tv_usec: 0 }
}

#[test]
fn both_directions_collapse_into_one_route() {
    let a = IP4Addr([10, 0, 0, 1]);
    let b = IP4Addr([10, 0, 0, 2]);
    let mut h: ProtocolHandler<IP4Addr> = ProtocolHandler::new("ip4");

    let m1 = h.update(PktMeta::new(a, b, 10, tv()));
    assert_eq!(h.route_count(), 1);
    assert_eq!(m1.typ, "ip4");
    assert_eq!(m1.a, "10.0.0.1");
    assert_eq!(m1.from_a_count, 1);
    assert_eq!(m1.from_a_size, 10);
    assert_eq!(m1.b, "10.0.0.2");
    assert_eq!(m1.from_b_count, 0);
    assert_eq!(m1.from_b_size, 0);

    let m2 = h.update(PktMeta::new(b, a, 20, tv()));
    assert_eq!(h.route_count(), 1);

    let key = OrdAddrs::from(a, b);
    let rs = h.find_route(&key).expect("route should exist");
    // sides are assigned by canonical order, not by arrival order
    assert_eq!(rs.a.addr, a);
    assert_eq!(rs.a.sent_count, 1);
    assert_eq!(rs.a.sent_size, 10);
    assert_eq!(rs.b.addr, b);
    assert_eq!(rs.b.sent_count, 1);
    assert_eq!(rs.b.sent_size, 20);
    assert_eq!(rs.last.len(), 2);

    // the message republishes the full cumulative statistics
    assert_eq!(m2.from_a_count, 1);
    assert_eq!(m2.from_a_size, 10);
    assert_eq!(m2.from_b_count, 1);
    assert_eq!(m2.from_b_size, 20);
}

#[test]
fn distinct_pairs_get_distinct_routes() {
    let a = IP4Addr([1, 1, 1, 1]);
    let b = IP4Addr([2, 2, 2, 2]);
    let c = IP4Addr([3, 3, 3, 3]);
    let mut h: ProtocolHandler<IP4Addr> = ProtocolHandler::new("ip4");
    h.update(PktMeta::new(a, b, 1, tv()));
    h.update(PktMeta::new(a, c, 2, tv()));
    h.update(PktMeta::new(b, a, 3, tv()));
    assert_eq!(h.route_count(), 2);
}

#[test]
fn route_history_is_bounded_to_five() {
    let a = IP4Addr([1, 1, 1, 1]);
    let b = IP4Addr([2, 2, 2, 2]);
    let mut h: ProtocolHandler<IP4Addr> = ProtocolHandler::new("ip4");
    for i in 0..8 {
        h.update(PktMeta::new(a, b, i, tv()));
    }
    let rs = h.find_route(&OrdAddrs::from(a, b)).unwrap();
    assert_eq!(rs.last.len(), 5);
    // the history keeps the most recent packets, oldest first
    assert_eq!(rs.last.get(0).size, 3);
    assert_eq!(rs.last.get(4).size, 7);
    assert_eq!(rs.a.sent_count, 8);
    assert_eq!(rs.a.sent_size, 0 + 1 + 2 + 3 + 4 + 5 + 6 + 7);
}

#[test]
fn a_flow_from_an_address_to_itself_is_one_route() {
    let a = IP4Addr([5, 5, 5, 5]);
    let mut h: ProtocolHandler<IP4Addr> = ProtocolHandler::new("ip4");
    let m = h.update(PktMeta::new(a, a, 9, tv()));
    assert_eq!(h.route_count(), 1);
    assert_eq!(m.a, "5.5.5.5");
    assert_eq!(m.b, "5.5.5.5");
    assert_eq!(m.from_a_count, 1);
    assert_eq!(m.from_a_size, 9);
    assert_eq!(m.from_b_count, 0);
}

#[test]
fn counters_saturate_instead_of_wrapping() {
    let mut s = AddrStats { addr: IP4Addr([1, 2, 3, 4]), sent_count: u64::MAX, sent_size: u64::MAX - 5 };
    s.update(10);
    assert_eq!(s.sent_count, u64::MAX);
    assert_eq!(s.sent_size, u64::MAX);
    let mut t = AddrStats::new(IP4Addr([1, 2, 3, 4]));
    t.update(7);
    t.update(3);
    assert_eq!(t.sent_count, 2);
    assert_eq!(t.sent_size, 10);
}
