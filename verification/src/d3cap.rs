//! The flow-aggregation core: canonical unordered address pairs, per-
//! route traffic statistics with a bounded recent-packet history, the
//! per-protocol-family aggregation engine, and the per-frame decode +
//! aggregate + publish step of the capture pipeline.

use vstd::prelude::*;

use crate::ether::{
    EthernetHeader, MacAddr, ETHERTYPE_802_1X, ETHERTYPE_ARP, ETHERTYPE_IP4, ETHERTYPE_IP6,
};
use crate::ip::{spec_ip6_words, IP4Addr, IP4Header, IP6Addr, IP6Header};
use crate::multicast::Multicast;
use crate::ring::{push_model, RingBuffer};
use crate::rustpcap::{PcapData, PcapTimeval};
use crate::util::{lex_le, spec_be16, Addr};

verus! {

/// A pair of addresses in packet direction: source, then destination.
pub type Addrs<T> = (T, T);

/// An unordered pair of addresses, normalized so the lexicographically
/// smaller address comes first: traffic in either direction between two
/// endpoints maps to the same pair.
#[verifier::ext_equal]
#[derive(Clone, Copy, PartialEq, Eq, Hash, Debug)]
pub struct OrdAddrs<T>(pub T, pub T);

/// The canonical pair for two addresses, in either order.
pub open spec fn spec_ord_from<T: Addr>(a: T, b: T) -> OrdAddrs<T> {
    if lex_le(a.key(), b.key()) {
        OrdAddrs(a, b)
    } else {
        OrdAddrs(b, a)
    }
}

impl<T: Addr> OrdAddrs<T> {
    /// The canonically first (smaller) address.
    pub open spec fn spec_first(&self) -> T {
        self.0
    }

    /// The canonically second (larger) address.
    pub open spec fn spec_second(&self) -> T {
        self.1
    }

    /// Build the canonical pair: the smaller address first, whichever
    /// argument order the packet direction produced.
    pub fn from(a: T, b: T) -> (r: OrdAddrs<T>)
        ensures
            r == spec_ord_from(a, b),
    {
        if a.le(&b) {
            OrdAddrs(a, b)
        } else {
            OrdAddrs(b, a)
        }
    }

    pub fn first(&self) -> (r: T)
        ensures
            r == self.spec_first(),
    {
        self.0
    }

    pub fn second(&self) -> (r: T)
        ensures
            r == self.spec_second(),
    {
        self.1
    }

    /// Equality of two pairs.
    pub fn key_eq(&self, other: &OrdAddrs<T>) -> (r: bool)
        ensures
            r == (*self == *other),
    {
        let r = self.0.eq_addr(&other.0) && self.1.eq_addr(&other.1);
        proof {
            if self.0 == other.0 && self.1 == other.1 {
                assert(*self =~= *other);
            }
        }
        r
    }
}

/// Canonicalization is symmetric: both packet directions of a flow give
/// the same pair, so statistics for the two directions never fragment
/// into two records.
pub proof fn lemma_ord_from_comm<T: Addr>(a: T, b: T)
    ensures
        spec_ord_from(a, b) == spec_ord_from(b, a),
{
    crate::util::lemma_lex_le_total(a.key(), b.key());
    if lex_le(a.key(), b.key()) && lex_le(b.key(), a.key()) {
        a.lemma_key(&b);
        crate::util::lemma_lex_le_antisymm(a.key(), b.key());
    }
}

/// The canonical pair really is ordered: its first member never
/// exceeds its second, whichever direction created it.
pub proof fn lemma_ord_from_canonical<T: Addr>(a: T, b: T)
    ensures
        lex_le(spec_ord_from(a, b).spec_first().key(), spec_ord_from(a, b).spec_second().key()),
{
    crate::util::lemma_lex_le_total(a.key(), b.key());
}

/// One decoded packet: source, destination, size attributed to the
/// flow, and the capture timestamp.
#[derive(Clone, Copy, PartialEq, Eq, Debug)]
pub struct PktMeta<T> {
    pub src: T,
    pub dst: T,
    pub size: u32,
    pub tm: PcapTimeval,
}

impl<T> PktMeta<T> {
    pub fn new(src: T, dst: T, size: u32, tm: PcapTimeval) -> (r: PktMeta<T>)
        ensures
            r.src == src && r.dst == dst && r.size == size && r.tm == tm,
    {
        PktMeta { src, dst, size, tm }
    }
}

impl<T: Addr> PktMeta<T> {
    /// Both endpoints, in packet direction.
    pub fn addrs(&self) -> (r: Addrs<T>)
        ensures
            r.0 == self.src && r.1 == self.dst,
    {
        (self.src, self.dst)
    }
}

/// Saturating unsigned addition: counters stick at the top of their
/// range instead of wrapping.
pub open spec fn spec_sat_add(a: int, b: int) -> int {
    if a + b <= u64::MAX {
        a + b
    } else {
        u64::MAX as int
    }
}

/// Sent-traffic counters for one side of a route.
#[derive(Clone, Copy, PartialEq, Eq, Debug)]
pub struct AddrStats<T> {
    pub addr: T,
    pub sent_count: u64,
    pub sent_size: u64,
}

/// What attributing one packet of `size` bytes to a side does.
pub open spec fn stats_updated<T>(o: AddrStats<T>, n: AddrStats<T>, size: int) -> bool {
    &&& n.addr == o.addr
    &&& n.sent_count == spec_sat_add(o.sent_count as int, 1)
    &&& n.sent_size == spec_sat_add(o.sent_size as int, size)
}

impl<T> AddrStats<T> {
    pub fn new(addr: T) -> (r: AddrStats<T>)
        ensures
            r.addr == addr && r.sent_count == 0 && r.sent_size == 0,
    {
        AddrStats { addr, sent_count: 0, sent_size: 0 }
    }

    /// Attribute one sent packet of `size` bytes to this side.
    pub fn update(&mut self, size: u32)
        ensures
            stats_updated(*old(self), *final(self), size as int),
    {
        if self.sent_count < u64::MAX {
            self.sent_count = self.sent_count + 1;
        }
        if (size as u64) <= u64::MAX - self.sent_size {
            self.sent_size = self.sent_size + (size as u64);
        } else {
            self.sent_size = u64::MAX;
        }
    }
}

/// How many recent packets each route remembers.
pub const ROUTE_HISTORY: usize = 5;

/// Cumulative statistics for one flow: one counter set per canonical
/// side, plus a bounded history of the most recent packets.
pub struct RouteStats<T> {
    pub typ: &'static str,
    pub a: AddrStats<T>,
    pub b: AddrStats<T>,
    pub last: RingBuffer<PktMeta<T>>,
}

impl<T> RouteStats<T> {
    pub open spec fn wf(&self) -> bool {
        self.last.wf() && self.last.cap() == ROUTE_HISTORY
    }
}

/// What one packet does to a route: its size and count go to whichever
/// side sent it, and it enters the bounded history.
pub open spec fn route_updated<T: Addr>(o: RouteStats<T>, n: RouteStats<T>, pkt: PktMeta<T>) -> bool {
    &&& n.typ@ == o.typ@
    &&& if pkt.src == o.a.addr {
        stats_updated(o.a, n.a, pkt.size as int) && n.b == o.b
    } else {
        n.a == o.a && stats_updated(o.b, n.b, pkt.size as int)
    }
    &&& n.last@ == push_model(o.last@, o.last.cap(), pkt)
}

impl<T: Addr> RouteStats<T> {
    /// A fresh route between sides `a` and `b`, with empty history.
    pub fn new(typ: &'static str, a: T, b: T) -> (r: RouteStats<T>)
        ensures
            r.wf(),
            r.typ == typ,
            r.a.addr == a && r.a.sent_count == 0 && r.a.sent_size == 0,
            r.b.addr == b && r.b.sent_count == 0 && r.b.sent_size == 0,
            r.last@ =~= Seq::<PktMeta<T>>::empty(),
    {
        RouteStats {
            typ,
            a: AddrStats::new(a),
            b: AddrStats::new(b),
            last: RingBuffer::new(ROUTE_HISTORY),
        }
    }

    /// Attribute one packet to whichever side sent it and remember it
    /// in the history.
    pub fn update(&mut self, pkt: PktMeta<T>)
        requires
            old(self).wf(),
        ensures
            final(self).wf(),
            route_updated(*old(self), *final(self), pkt),
    {
        if pkt.src.eq_addr(&self.a.addr) {
            self.a.update(pkt.size);
        } else {
            self.b.update(pkt.size);
        }
        self.last.push(pkt);
    }
}

/// One update message, built from the current cumulative statistics of
/// a route after a packet: the protocol-family tag and, for each side,
/// its address in text form with its sent count and sent size.
#[derive(Clone, PartialEq, Eq, Debug)]
pub struct RouteMsg {
    pub typ: &'static str,
    pub a: String,
    pub from_a_count: u64,
    pub from_a_size: u64,
    pub b: String,
    pub from_b_count: u64,
    pub from_b_size: u64,
}

/// The message that reports route `rs`.
pub open spec fn msg_of<T: Addr>(typ: Seq<char>, rs: RouteStats<T>, m: RouteMsg) -> bool {
    &&& m.typ@ == typ
    &&& m.a@ == rs.a.addr.fmt()
    &&& m.from_a_count == rs.a.sent_count
    &&& m.from_a_size == rs.a.sent_size
    &&& m.b@ == rs.b.addr.fmt()
    &&& m.from_b_count == rs.b.sent_count
    &&& m.from_b_size == rs.b.sent_size
}

/// Build the update message for the current state of a route.
pub fn route_msg<T: Addr>(typ: &'static str, rt: &RouteStats<T>) -> (m: RouteMsg)
    ensures
        msg_of(typ@, *rt, m),
{
    RouteMsg {
        typ,
        a: rt.a.addr.to_str(),
        from_a_count: rt.a.sent_count,
        from_a_size: rt.a.sent_size,
        b: rt.b.addr.to_str(),
        from_b_count: rt.b.sent_count,
        from_b_size: rt.b.sent_size,
    }
}

/// One well-formed flow-map entry: the route is well formed, carries
/// the family tag, and its sides sit in the canonical order of its key.
pub open spec fn entry_ok<T: Addr>(e: (OrdAddrs<T>, RouteStats<T>), typ: Seq<char>) -> bool {
    &&& e.1.wf()
    &&& e.1.typ@ == typ
    &&& e.1.a.addr == e.0.spec_first()
    &&& e.1.b.addr == e.0.spec_second()
    &&& lex_le(e.0.spec_first().key(), e.0.spec_second().key())
}

/// The aggregation engine for one protocol family. It exclusively owns
/// the map from canonical pair to route statistics; flows are created
/// lazily on their first packet and never evicted.
pub struct ProtocolHandler<T> {
    pub typ: &'static str,
    pub routes: Vec<(OrdAddrs<T>, RouteStats<T>)>,
}

impl<T: Addr> ProtocolHandler<T> {
    /// No two entries share a key.
    pub closed spec fn keys_unique(&self) -> bool {
        forall|i: int, j: int|
            0 <= i < j < self.routes@.len() ==> (#[trigger] self.routes@[i]).0 != (
            #[trigger] self.routes@[j]).0
    }

    /// Every entry is well formed: its key is canonical, its sides sit
    /// in canonical order, and it carries this handler's family tag.
    pub closed spec fn entries_ok(&self) -> bool {
        forall|i: int|
            0 <= i < self.routes@.len() ==> entry_ok(#[trigger] self.routes@[i], self.typ@)
    }

    pub open spec fn wf(&self) -> bool {
        self.keys_unique() && self.entries_ok()
    }

    /// Number of flows tracked so far.
    pub closed spec fn routes_len(&self) -> nat {
        self.routes@.len()
    }

    /// Whether a flow exists for this canonical pair.
    pub closed spec fn has_route(&self, k: OrdAddrs<T>) -> bool {
        exists|i: int| 0 <= i < self.routes@.len() && (#[trigger] self.routes@[i]).0 == k
    }

    /// The statistics of the flow for this canonical pair.
    pub closed spec fn route_at(&self, k: OrdAddrs<T>) -> RouteStats<T> {
        self.routes@[choose|i: int| 0 <= i < self.routes@.len() && (#[trigger] self.routes@[i]).0 == k].1
    }

    /// With unique keys, the entry at any matching index is the route.
    proof fn lemma_route_at(&self, i: int)
        requires
            self.keys_unique(),
            0 <= i < self.routes@.len(),
        ensures
            self.has_route(self.routes@[i].0),
            self.route_at(self.routes@[i].0) == self.routes@[i].1,
    {
        let k = self.routes@[i].0;
        assert(self.has_route(k));
        let j = choose|j: int| 0 <= j < self.routes@.len() && (#[trigger] self.routes@[j]).0 == k;
        if i < j {
            assert(self.routes@[i].0 != self.routes@[j].0);
        } else if j < i {
            assert(self.routes@[j].0 != self.routes@[i].0);
        }
    }

    pub fn new(typ: &'static str) -> (r: ProtocolHandler<T>)
        ensures
            r.wf(),
            r.typ == typ,
            r.routes_len() == 0,
            forall|k: OrdAddrs<T>| !r.has_route(k),
    {
        ProtocolHandler { typ, routes: Vec::new() }
    }

    /// Number of flows tracked so far.
    pub fn route_count(&self) -> (n: usize)
        ensures
            n == self.routes_len(),
    {
        self.routes.len()
    }

    /// Look up the flow for a canonical pair.
    pub fn find_route(&self, key: &OrdAddrs<T>) -> (r: Option<&RouteStats<T>>)
        requires
            self.wf(),
        ensures
            match r {
                Some(rs) => self.has_route(*key) && *rs == self.route_at(*key),
                None => !self.has_route(*key),
            },
    {
        match self.find_idx(key) {
            Some(i) => {
                proof {
                    self.lemma_route_at(i as int);
                }
                Some(&self.routes[i].1)
            },
            None => None,
        }
    }
}

/// What one packet does to a handler: the flow map gains or updates
/// exactly the entry for the packet's canonical pair, nothing else
/// changes, and the emitted message reports that entry's new
/// cumulative state.
pub open spec fn handler_updated<T: Addr>(
    o: ProtocolHandler<T>,
    n: ProtocolHandler<T>,
    pkt: PktMeta<T>,
    msg: RouteMsg,
) -> bool {
    let key = spec_ord_from(pkt.src, pkt.dst);
    &&& n.typ@ == o.typ@
    &&& n.has_route(key)
    &&& forall|k: OrdAddrs<T>|
        k != key ==> #[trigger] n.has_route(k) == o.has_route(k) && (o.has_route(k)
            ==> n.route_at(k) == o.route_at(k))
    &&& n.routes_len() == o.routes_len() + if o.has_route(key) {
        0int
    } else {
        1int
    }
    &&& if o.has_route(key) {
        route_updated(o.route_at(key), n.route_at(key), pkt)
    } else {
        fresh_route(key, n.route_at(key), pkt)
    }
    &&& msg_of(o.typ@, n.route_at(key), msg)
}

/// A route created by its first packet: sides assigned from the
/// canonical pair order — not from the packet direction — with the
/// packet attributed to whichever side sent it.
pub open spec fn fresh_route<T: Addr>(key: OrdAddrs<T>, rs: RouteStats<T>, pkt: PktMeta<T>) -> bool {
    &&& rs.a.addr == key.spec_first()
    &&& rs.b.addr == key.spec_second()
    &&& if pkt.src == key.spec_first() {
        rs.a.sent_count == 1 && rs.a.sent_size == pkt.size && rs.b.sent_count == 0
            && rs.b.sent_size == 0
    } else {
        rs.a.sent_count == 0 && rs.a.sent_size == 0 && rs.b.sent_count == 1 && rs.b.sent_size
            == pkt.size
    }
    &&& rs.last@ == Seq::<PktMeta<T>>::empty().push(pkt)
}

impl<T: Addr> ProtocolHandler<T> {
    /// Index of the entry for a canonical pair, if one exists.
    fn find_idx(&self, key: &OrdAddrs<T>) -> (r: Option<usize>)
        requires
            self.wf(),
        ensures
            match r {
                Some(i) => i < self.routes@.len() && self.routes@[i as int].0 == *key,
                None => forall|j: int|
                    0 <= j < self.routes@.len() ==> (#[trigger] self.routes@[j]).0 != *key,
            },
    {
        let n = self.routes.len();
        for i in 0..n
            invariant
                self.wf(),
                n == self.routes@.len(),
                forall|j: int| 0 <= j < i ==> (#[trigger] self.routes@[j]).0 != *key,
        {
            if self.routes[i].0.key_eq(key) {
                return Some(i);
            }
        }
        None
    }

    /// Consume one decoded packet: find or lazily create the route for
    /// its canonical pair, attribute the packet, and report the route's
    /// new cumulative statistics as the update message to publish.
    pub fn update(&mut self, pkt: PktMeta<T>) -> (msg: RouteMsg)
        requires
            old(self).wf(),
        ensures
            final(self).wf(),
            final(self).typ == old(self).typ,
            handler_updated(*old(self), *final(self), pkt, msg),
    {
        let key = OrdAddrs::from(pkt.src, pkt.dst);
        let found = self.find_idx(&key);
        proof {
            crate::util::lemma_lex_le_total(pkt.src.key(), pkt.dst.key());
        }
        match found {
            Some(i) => {
                proof {
                    old(self).lemma_route_at(i as int);
                }
                let (k, mut rs) = self.routes.remove(i);
                rs.update(pkt);
                let msg = route_msg(self.typ, &rs);
                self.routes.push((k, rs));
                proof {
                    let old_rs = old(self).routes@;
                    let new_rs = self.routes@;
                    assert(new_rs =~= old_rs.remove(i as int).push((k, rs)));
                    assert forall|p: int, q: int|
                        0 <= p < q < new_rs.len() implies (#[trigger] new_rs[p]).0 != (
                    #[trigger] new_rs[q]).0 by {
                        if q < new_rs.len() - 1 {
                            let p0 = if p < i { p } else { p + 1 };
                            let q0 = if q < i { q } else { q + 1 };
                            assert(new_rs[p] == old_rs[p0] && new_rs[q] == old_rs[q0]);
                            assert(old_rs[p0].0 != old_rs[q0].0);
                        } else {
                            let p0 = if p < i { p } else { p + 1 };
                            assert(new_rs[p] == old_rs[p0]);
                            assert(p0 != i);
                            if p0 < i {
                                assert(old_rs[p0].0 != old_rs[i as int].0);
                            } else {
                                assert(old_rs[i as int].0 != old_rs[p0].0);
                            }
                        }
                    }
                    assert forall|e: int| 0 <= e < new_rs.len() implies entry_ok(
                        #[trigger] new_rs[e],
                        self.typ@,
                    ) by {
                        if e < new_rs.len() - 1 {
                            let e0 = if e < i { e } else { e + 1 };
                            assert(new_rs[e] == old_rs[e0]);
                            assert(entry_ok(old(self).routes@[e0], old(self).typ@));
                        } else {
                            assert(new_rs[e] == (k, rs));
                            assert(entry_ok(old(self).routes@[i as int], old(self).typ@));
                        }
                    }
                    // the updated entry sits at the end
                    self.lemma_route_at(new_rs.len() - 1);
                    assert(self.route_at(key) == rs);
                    // every other key keeps its entry
                    assert forall|k2: OrdAddrs<T>| k2 != key implies #[trigger] self.has_route(k2)
                        == old(self).has_route(k2) && (old(self).has_route(k2) ==> self.route_at(k2)
                        == old(self).route_at(k2)) by {
                        if old(self).has_route(k2) {
                            let j = choose|j: int|
                                0 <= j < old_rs.len() && (#[trigger] old_rs[j]).0 == k2;
                            let j1 = if j < i {
                                j
                            } else {
                                j - 1
                            };
                            assert(j != i);
                            assert(new_rs[j1] == old_rs[j]);
                            self.lemma_route_at(j1);
                            old(self).lemma_route_at(j);
                        }
                        if self.has_route(k2) {
                            let j = choose|j: int|
                                0 <= j < new_rs.len() && (#[trigger] new_rs[j]).0 == k2;
                            assert(j < new_rs.len() - 1);
                            let j0 = if j < i {
                                j
                            } else {
                                j + 1
                            };
                            assert(new_rs[j] == old_rs[j0]);
                            assert(old(self).has_route(k2));
                        }
                    }
                }
                msg
            },
            None => {
                let x = key.first();
                let y = key.second();
                let mut rs = RouteStats::new(self.typ, x, y);
                rs.update(pkt);
                let msg = route_msg(self.typ, &rs);
                self.routes.push((key, rs));
                proof {
                    let old_rs = old(self).routes@;
                    let new_rs = self.routes@;
                    assert(new_rs =~= old_rs.push((key, rs)));
                    assert(forall|j: int| 0 <= j < old_rs.len() ==> (#[trigger] old_rs[j]).0 != key);
                    assert forall|p: int, q: int|
                        0 <= p < q < new_rs.len() implies (#[trigger] new_rs[p]).0 != (
                    #[trigger] new_rs[q]).0 by {
                        if q < new_rs.len() - 1 {
                            assert(old_rs[p].0 != old_rs[q].0);
                        } else {
                            assert(new_rs[p] == old_rs[p]);
                            assert(old_rs[p].0 != key);
                        }
                    }
                    assert forall|e: int| 0 <= e < new_rs.len() implies entry_ok(
                        #[trigger] new_rs[e],
                        self.typ@,
                    ) by {
                        if e < new_rs.len() - 1 {
                            assert(entry_ok(old(self).routes@[e], old(self).typ@));
                        } else {
                            assert(new_rs[e] == (key, rs));
                        }
                    }
                    self.lemma_route_at(new_rs.len() - 1);
                    assert(self.route_at(key) == rs);
                    assert(!old(self).has_route(key));
                    assert forall|k2: OrdAddrs<T>| k2 != key implies #[trigger] self.has_route(k2)
                        == old(self).has_route(k2) && (old(self).has_route(k2) ==> self.route_at(k2)
                        == old(self).route_at(k2)) by {
                        if old(self).has_route(k2) {
                            let j = choose|j: int|
                                0 <= j < old_rs.len() && (#[trigger] old_rs[j]).0 == k2;
                            assert(new_rs[j] == old_rs[j]);
                            self.lemma_route_at(j);
                            old(self).lemma_route_at(j);
                        }
                        if self.has_route(k2) {
                            let j = choose|j: int|
                                0 <= j < new_rs.len() && (#[trigger] new_rs[j]).0 == k2;
                            assert(j < new_rs.len() - 1);
                            assert(old(self).has_route(k2));
                        }
                    }
                    assert(fresh_route(key, rs, pkt));
                }
                msg
            },
        }
    }
}

/// Everything one captured frame decodes to: at most one MAC-layer
/// record, at most one network-layer record, the EtherType if it was
/// not recognized, and whether the capture was shorter than the wire.
#[derive(Clone, Copy, PartialEq, Eq, Debug)]
pub struct FrameRecords {
    pub mac: Option<PktMeta<MacAddr>>,
    pub ip4: Option<PktMeta<IP4Addr>>,
    pub ip6: Option<PktMeta<IP6Addr>>,
    pub unknown: Option<u16>,
    pub truncated: bool,
}

/// Exactly what decoding a frame of captured bytes `b` with reported
/// wire length `wire` yields. A frame too short for the Ethernet header
/// — on the wire or in the capture — yields nothing. Otherwise the MAC
/// record carries the wire length, and the EtherType dispatches the
/// network layer: an IPv4 record carries the datagram's declared total
/// length, an IPv6 record the declared payload length; ARP and 802.1X
/// are recognized but yield no record; anything else is reported as
/// unknown. A network layer whose header does not fit yields nothing
/// for that layer.
pub open spec fn decode_rel(b: Seq<u8>, wire: int, tm: PcapTimeval, r: FrameRecords) -> bool {
    &&& r.truncated == (b.len() < wire)
    &&& if b.len() >= 14 && wire >= 14 {
        &&& (r.mac matches Some(p) && p.dst.0@ == b.subrange(0, 6) && p.src.0@ == b.subrange(6, 12)
            && p.size as int == wire && p.tm == tm)
        &&& {
            let t = spec_be16(b, 12);
            &&& (t == ETHERTYPE_IP4 as int ==> {
                &&& if b.len() >= 34 && wire >= 34 {
                    r.ip4 matches Some(q) && q.src.0@ == b.subrange(26, 30) && q.dst.0@
                        == b.subrange(30, 34) && q.size as int == spec_be16(b, 16) && q.tm == tm
                } else {
                    r.ip4 is None
                }
                &&& r.ip6 is None
                &&& r.unknown is None
            })
            &&& (t == ETHERTYPE_IP6 as int ==> {
                &&& if b.len() >= 54 && wire >= 54 {
                    r.ip6 matches Some(q) && q.src.key() == spec_ip6_words(b, 22) && q.dst.key()
                        == spec_ip6_words(b, 38) && q.size as int == spec_be16(b, 18) && q.tm == tm
                } else {
                    r.ip6 is None
                }
                &&& r.ip4 is None
                &&& r.unknown is None
            })
            &&& (t == ETHERTYPE_ARP as int || t == ETHERTYPE_802_1X as int ==> r.ip4 is None
                && r.ip6 is None && r.unknown is None)
            &&& (t != ETHERTYPE_IP4 as int && t != ETHERTYPE_IP6 as int && t != ETHERTYPE_ARP as int
                && t != ETHERTYPE_802_1X as int ==> r.ip4 is None && r.ip6 is None && (
            r.unknown matches Some(u) && u as int == t))
        }
    } else {
        r.mac is None && r.ip4 is None && r.ip6 is None && r.unknown is None
    }
}

/// Decode one captured frame into its per-layer records, reading every
/// field behind an explicit bounds check.
pub fn decode_frame(frame: &PcapData) -> (r: FrameRecords)
    requires
        frame.wf(),
    ensures
        decode_rel(frame.bytes(), frame.wire_len() as int, frame.timestamp(), r),
{
    let b = frame.pkt_ptr();
    let wire = frame.len();
    let tm = frame.ts();
    let n = b.len();
    let mut r = FrameRecords {
        mac: None,
        ip4: None,
        ip6: None,
        unknown: None,
        truncated: frame.caplen() < wire,
    };
    if n >= 14 && wire >= 14 {
        let h = EthernetHeader::from_bytes(b).unwrap();
        r.mac = Some(PktMeta::new(h.src, h.dst, wire, tm));
        if h.typ == ETHERTYPE_IP4 {
            if n >= 34 && wire >= 34 {
                let sub = vstd::slice::slice_subrange(b, 14, n);
                let ip = IP4Header::from_bytes(sub).unwrap();
                proof {
                    assert(ip.src.0@ =~= b@.subrange(26, 30));
                    assert(ip.dst.0@ =~= b@.subrange(30, 34));
                    assert(spec_be16(sub@, 2) == spec_be16(b@, 16));
                }
                r.ip4 = Some(PktMeta::new(ip.src, ip.dst, ip.len as u32, tm));
            }
        } else if h.typ == ETHERTYPE_IP6 {
            if n >= 54 && wire >= 54 {
                let sub = vstd::slice::slice_subrange(b, 14, n);
                let ip = IP6Header::from_bytes(sub).unwrap();
                proof {
                    assert(spec_ip6_words(sub@, 8) =~= spec_ip6_words(b@, 22));
                    assert(spec_ip6_words(sub@, 24) =~= spec_ip6_words(b@, 38));
                    assert(spec_be16(sub@, 4) == spec_be16(b@, 18));
                }
                r.ip6 = Some(PktMeta::new(ip.src, ip.dst, ip.len as u32, tm));
            }
        } else if h.typ == ETHERTYPE_ARP || h.typ == ETHERTYPE_802_1X {
        } else {
            r.unknown = Some(h.typ);
        }
    }
    r
}

/// The decode context for Ethernet captures: one aggregation engine per
/// protocol family.
pub struct EthernetCtx {
    pub mac: ProtocolHandler<MacAddr>,
    pub ip4: ProtocolHandler<IP4Addr>,
    pub ip6: ProtocolHandler<IP6Addr>,
}

impl EthernetCtx {
    pub open spec fn wf(&self) -> bool {
        self.mac.wf() && self.ip4.wf() && self.ip6.wf()
    }

    pub fn new() -> (r: EthernetCtx)
        ensures
            r.wf(),
            r.mac.typ@ == "mac"@ && r.mac.routes_len() == 0,
            r.ip4.typ@ == "ip4"@ && r.ip4.routes_len() == 0,
            r.ip6.typ@ == "ip6"@ && r.ip6.routes_len() == 0,
    {
        EthernetCtx {
            mac: ProtocolHandler::new("mac"),
            ip4: ProtocolHandler::new("ip4"),
            ip6: ProtocolHandler::new("ip6"),
        }
    }

    /// Decode one frame and feed each decoded record to its family's
    /// engine, collecting the update messages to publish, in emission
    /// order: the MAC-layer update first, then the network layer's.
    pub fn parse(&mut self, frame: &PcapData) -> (out: (FrameRecords, Vec<RouteMsg>))
        requires
            old(self).wf(),
            frame.wf(),
        ensures
            final(self).wf(),
            decode_rel(frame.bytes(), frame.wire_len() as int, frame.timestamp(), out.0),
            out.1@.len() == mac_n(out.0) + net_n(out.0),
            (match out.0.mac {
                Some(p) => handler_updated(old(self).mac, final(self).mac, p, out.1@[0]),
                None => final(self).mac == old(self).mac,
            }),
            (match out.0.ip4 {
                Some(q) => handler_updated(old(self).ip4, final(self).ip4, q, out.1@[1]),
                None => final(self).ip4 == old(self).ip4,
            }),
            (match out.0.ip6 {
                Some(q) => handler_updated(old(self).ip6, final(self).ip6, q, out.1@[1]),
                None => final(self).ip6 == old(self).ip6,
            }),
    {
        let rec = decode_frame(frame);
        let mut msgs: Vec<RouteMsg> = Vec::new();
        if let Some(p) = rec.mac {
            let m = self.mac.update(p);
            msgs.push(m);
        }
        if let Some(q) = rec.ip4 {
            let m = self.ip4.update(q);
            msgs.push(m);
        }
        if let Some(q) = rec.ip6 {
            let m = self.ip6.update(q);
            msgs.push(m);
        }
        (rec, msgs)
    }
}

/// One if the frame yielded a MAC-layer record, else zero.
pub open spec fn mac_n(r: FrameRecords) -> int {
    if r.mac is Some {
        1
    } else {
        0
    }
}

/// One if the frame yielded a network-layer record, else zero.
pub open spec fn net_n(r: FrameRecords) -> int {
    if r.ip4 is Some || r.ip6 is Some {
        1
    } else {
        0
    }
}

/// One whole pipeline step for one captured frame: decode it, update
/// the per-family statistics, and publish every resulting update
/// message to the hub, in emission order.
pub fn feed_frame(ctx: &mut EthernetCtx, mc: &mut Multicast<RouteMsg>, frame: &PcapData) -> (rec:
    FrameRecords)
    requires
        old(ctx).wf(),
        old(mc).wf(),
        frame.wf(),
    ensures
        final(ctx).wf(),
        final(mc).wf(),
        decode_rel(frame.bytes(), frame.wire_len() as int, frame.timestamp(), rec),
        final(mc).sub_count() == old(mc).sub_count(),
        forall|j: int|
            0 <= j < old(mc).sub_count() ==> final(mc).reg(j) == old(mc).reg(j) && final(mc).cur(j)
                == old(mc).cur(j),
        final(mc).log_seq().len() == old(mc).log_seq().len() + mac_n(rec) + net_n(rec),
        forall|j: int|
            0 <= j < old(mc).log_seq().len() ==> final(mc).log_seq()[j] == old(mc).log_seq()[j],
        (match rec.mac {
            Some(p) => handler_updated(
                old(ctx).mac,
                final(ctx).mac,
                p,
                final(mc).log_seq()[old(mc).log_seq().len() as int],
            ),
            None => final(ctx).mac == old(ctx).mac,
        }),
        (match rec.ip4 {
            Some(q) => handler_updated(
                old(ctx).ip4,
                final(ctx).ip4,
                q,
                final(mc).log_seq()[old(mc).log_seq().len() as int + 1],
            ),
            None => final(ctx).ip4 == old(ctx).ip4,
        }),
        (match rec.ip6 {
            Some(q) => handler_updated(
                old(ctx).ip6,
                final(ctx).ip6,
                q,
                final(mc).log_seq()[old(mc).log_seq().len() as int + 1],
            ),
            None => final(ctx).ip6 == old(ctx).ip6,
        }),
{
    let (rec, mut msgs) = ctx.parse(frame);
    let ghost all = msgs@;
    let ghost base = mc.log_seq().len();
    while msgs.len() > 0
        invariant
            mc.wf(),
            all.len() >= msgs@.len(),
            msgs@ =~= all.skip(all.len() - msgs@.len()),
            mc.log_seq() =~= old(mc).log_seq() + all.take(all.len() - msgs@.len()),
            mc.sub_count() == old(mc).sub_count(),
            forall|j: int|
                0 <= j < old(mc).sub_count() ==> mc.reg(j) == old(mc).reg(j) && mc.cur(j) == old(
                    mc,
                ).cur(j),
        decreases msgs@.len(),
    {
        let m = msgs.remove(0);
        proof {
            assert(m == all[all.len() - msgs@.len() - 1]);
        }
        mc.send(m);
    }
    proof {
        assert(all.take(all.len() as int) =~= all);
        assert(mc.log_seq() =~= old(mc).log_seq() + all);
    }
    rec
}

/// The decode context for radiotap-framed 802.11 captures. Monitor-
/// mode frames carry no flow records in this scope; decoding reports
/// the MAC header and whether the frame is bogus.
pub struct RadiotapCtx;

impl RadiotapCtx {
    pub fn parse(&mut self, frame: &PcapData) -> (r: Option<crate::tap::Dot11Frame>)
        ensures
            ({
                let s = frame.bytes();
                if s.len() >= 8 && 8 <= crate::util::spec_le16(s, 2) && crate::util::spec_le16(s, 2)
                    + 10 <= s.len() {
                    let off = crate::util::spec_le16(s, 2);
                    r matches Some(f) && f.tap.it_len as int == off && f.tap.it_present as int
                        == crate::util::spec_le32(s, 4) && f.mac.fr_ctrl.ty == s[off]
                        && f.mac.fr_ctrl.flags == s[off + 1] && f.mac.addr1.0@ == s.subrange(
                        off + 4,
                        off + 10,
                    ) && f.malformed == (f.mac.fr_ctrl.ty & 0x03 != 0)
                } else {
                    r is None
                }
            }),
    {
        crate::tap::decode_radiotap_frame(frame.pkt_ptr())
    }
}

/// Runtime configuration: the viewer port, which capture interface to
/// open (or the default one), and the promiscuous / monitor mode
/// switches for the capture session.
#[derive(Clone, PartialEq, Eq, Debug)]
pub struct D3capConf {
    pub port: u16,
    pub interface: Option<String>,
    pub promisc: bool,
    pub monitor: bool,
}

} // verus!
