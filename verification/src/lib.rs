//! Live network-traffic analysis core: zero-copy header decoding for
//! Ethernet / IPv4 / IPv6 / radiotap + 802.11 frames, per-flow traffic
//! aggregation keyed by unordered address pairs, a publish/subscribe
//! broadcast hub, a bounded ring buffer for recent-packet history, and a
//! duplex websocket-style framing layer used to stream updates to viewers.

pub mod util;
pub mod ring;
pub mod ether;
pub mod ip;
pub mod dot11;
pub mod tap;
pub mod rustpcap;
pub mod multicast;
pub mod d3cap;
pub mod rustwebsocket;
