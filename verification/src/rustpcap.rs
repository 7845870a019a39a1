//! The capture boundary, modelled as plain values: the datalink types
//! the pipeline understands, capture timestamps, and one captured frame
//! with its wire length. The capture device itself is an external
//! collaborator; it hands frames to this model.

use vstd::prelude::*;

verus! {

pub type DataLinkType = i32;

pub const DLT_NULL: DataLinkType = 0;

pub const DLT_ETHERNET: DataLinkType = 1;

pub const DLT_IEEE802_11_RADIO: DataLinkType = 127;

/// A capture timestamp: seconds and microseconds since the epoch.
#[derive(Clone, Copy, PartialEq, Eq, Structural, Debug)]
pub struct PcapTimeval {
    pub tv_sec: i64,
    pub tv_usec: i32,
}

impl PcapTimeval {
    pub fn sec(&self) -> (r: i64)
        ensures
            r == self.tv_sec,
    {
        self.tv_sec
    }

    pub fn usec(&self) -> (r: i32)
        ensures
            r == self.tv_usec,
    {
        self.tv_usec
    }
}

/// One captured frame: the bytes actually captured, the length the
/// frame had on the wire (which may exceed what was captured), and the
/// capture timestamp.
pub struct PcapData {
    dat: Vec<u8>,
    wire: u32,
    tv: PcapTimeval,
}

impl PcapData {
    /// The captured length fits the 32-bit length field of the capture
    /// format.
    pub closed spec fn wf(&self) -> bool {
        self.dat@.len() <= 0xFFFFFFFF
    }

    /// The captured bytes.
    pub closed spec fn bytes(&self) -> Seq<u8> {
        self.dat@
    }

    /// The reported on-wire length.
    pub closed spec fn wire_len(&self) -> u32 {
        self.wire
    }

    /// The capture timestamp.
    pub closed spec fn timestamp(&self) -> PcapTimeval {
        self.tv
    }

    pub fn new(dat: Vec<u8>, wire: u32, tv: PcapTimeval) -> (r: PcapData)
        requires
            dat@.len() <= 0xFFFFFFFF,
        ensures
            r.wf(),
            r.bytes() == dat@,
            r.wire_len() == wire,
            r.timestamp() == tv,
    {
        PcapData { dat, wire, tv }
    }

    /// The length the frame had on the wire.
    pub fn len(&self) -> (r: u32)
        ensures
            r == self.wire_len(),
    {
        self.wire
    }

    /// How many bytes of the frame were captured.
    pub fn caplen(&self) -> (r: u32)
        requires
            self.wf(),
        ensures
            r == self.bytes().len(),
    {
        self.dat.len() as u32
    }

    pub fn ts(&self) -> (r: PcapTimeval)
        ensures
            r == self.timestamp(),
    {
        self.tv
    }

    /// The captured bytes themselves.
    pub fn pkt_ptr(&self) -> (r: &[u8])
        ensures
            r@ == self.bytes(),
    {
        self.dat.as_slice()
    }
}

} // verus!
