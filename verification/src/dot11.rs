//! IEEE 802.11 MAC headers: the packed frame-control field and the
//! fixed leading part of the MAC header that every frame carries.

use vstd::prelude::*;

use crate::ether::MacAddr;
use crate::util::{read_le16, read_le32, spec_le16, spec_le32};

verus! {

pub const TO_DS: u8 = 0x01;

pub const FROM_DS: u8 = 0x02;

pub const MORE_FRAGS: u8 = 0x04;

pub const RETRY: u8 = 0x08;

pub const POWER_MGMT: u8 = 0x10;

pub const MORE_DATA: u8 = 0x20;

pub const PROTECTED_FRAME: u8 = 0x40;

pub const ORDER: u8 = 0x80;

/// The two-byte 802.11 frame-control field: `ty` packs the protocol
/// version, frame type and subtype; `flags` holds the eight single-bit
/// flags.
#[derive(Clone, Copy, PartialEq, Eq, Structural, Debug)]
pub struct FrameControl {
    pub ty: u8,
    pub flags: u8,
}

impl FrameControl {
    /// When this is non-zero the frame is bogus, though zero alone does
    /// not make it good; bogus frames are common enough that decoding
    /// must tolerate them.
    pub fn protocol_version(&self) -> (r: u8)
        ensures
            r == self.ty & 0b00000011,
    {
        self.ty & 0b00000011
    }

    pub fn frame_type(&self) -> (r: u8)
        ensures
            r == (self.ty & 0b00001100) >> 2,
    {
        (self.ty & 0b00001100) >> 2
    }

    pub fn frame_subtype(&self) -> (r: u8)
        ensures
            r == (self.ty & 0b11110000) >> 4,
    {
        (self.ty & 0b11110000) >> 4
    }

    /// Whether every bit of `flag` is set: containment, so a multi-bit
    /// flag is only reported when all of its flags are present.
    pub fn has_flag(&self, flag: u8) -> (r: bool)
        ensures
            r == (self.flags & flag == flag),
    {
        self.flags & flag == flag
    }
}

/// The leading part of every 802.11 MAC header: frame control, the
/// duration/ID field, and the first address, which is always present.
#[derive(Clone, Copy, PartialEq, Eq, Debug)]
pub struct Dot11MacBaseHeader {
    pub fr_ctrl: FrameControl,
    pub dur_id: u16,
    pub addr1: MacAddr,
}

impl Dot11MacBaseHeader {
    /// Decode the fixed leading ten bytes of an 802.11 MAC header.
    /// Fails exactly when fewer than ten bytes are available.
    /// Multi-byte fields are little-endian on the wire.
    pub fn from_bytes(b: &[u8]) -> (r: Option<Dot11MacBaseHeader>)
        ensures
            b@.len() >= 10 ==> (r matches Some(h) && h.fr_ctrl.ty == b@[0] && h.fr_ctrl.flags
                == b@[1] && h.dur_id as int == spec_le16(b@, 2) && h.addr1.0@ == b@.subrange(
                4,
                10,
            )),
            b@.len() < 10 ==> r is None,
    {
        if b.len() < 10 {
            return None;
        }
        let addr1 = MacAddr([b[4], b[5], b[6], b[7], b[8], b[9]]);
        assert(addr1.0@ =~= b@.subrange(4, 10));
        Some(
            Dot11MacBaseHeader {
                fr_ctrl: FrameControl { ty: b[0], flags: b[1] },
                dur_id: read_le16(b, 2),
                addr1,
            },
        )
    }
}

/// The longest 802.11 MAC header layout, with all four addresses and
/// the QoS and HT control fields.
#[derive(Clone, Copy, PartialEq, Eq, Debug)]
pub struct Dot11MacFullHeader {
    pub base: Dot11MacBaseHeader,
    pub addr2: MacAddr,
    pub addr3: MacAddr,
    pub seq_ctrl: u16,
    pub addr4: MacAddr,
    pub qos_ctrl: u16,
    pub ht_ctrl: u32,
}

impl Dot11MacFullHeader {
    /// Decode the full 36-byte header layout. Fails exactly when fewer
    /// than thirty-six bytes are available.
    pub fn from_bytes(b: &[u8]) -> (r: Option<Dot11MacFullHeader>)
        ensures
            b@.len() >= 36 ==> (r matches Some(h) && h.base.fr_ctrl.ty == b@[0]
                && h.base.fr_ctrl.flags == b@[1] && h.base.dur_id as int == spec_le16(b@, 2)
                && h.base.addr1.0@ == b@.subrange(4, 10) && h.addr2.0@ == b@.subrange(10, 16)
                && h.addr3.0@ == b@.subrange(16, 22) && h.seq_ctrl as int == spec_le16(b@, 22)
                && h.addr4.0@ == b@.subrange(24, 30) && h.qos_ctrl as int == spec_le16(b@, 30)
                && h.ht_ctrl as int == spec_le32(b@, 32)),
            b@.len() < 36 ==> r is None,
    {
        if b.len() < 36 {
            return None;
        }
        let base = match Dot11MacBaseHeader::from_bytes(b) {
            Some(h) => h,
            None => {
                return None;
            },
        };
        let addr2 = MacAddr([b[10], b[11], b[12], b[13], b[14], b[15]]);
        let addr3 = MacAddr([b[16], b[17], b[18], b[19], b[20], b[21]]);
        let addr4 = MacAddr([b[24], b[25], b[26], b[27], b[28], b[29]]);
        assert(addr2.0@ =~= b@.subrange(10, 16));
        assert(addr3.0@ =~= b@.subrange(16, 22));
        assert(addr4.0@ =~= b@.subrange(24, 30));
        Some(
            Dot11MacFullHeader {
                base,
                addr2,
                addr3,
                seq_ctrl: read_le16(b, 22),
                addr4,
                qos_ctrl: read_le16(b, 30),
                ht_ctrl: read_le32(b, 32),
            },
        )
    }
}

} // verus!
