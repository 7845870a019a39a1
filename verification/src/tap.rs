//! Radiotap capture metadata: the fixed header prefixed to captured
//! 802.11 frames. Only `it_len` matters for flow decoding — it says how
//! many metadata bytes to skip — while the presence bitmap is
//! informational.

use vstd::prelude::*;

use crate::dot11::Dot11MacBaseHeader;
use crate::util::{read_le16, read_le32, spec_le16, spec_le32};

verus! {

pub const TSFT: u32 = 0x00000001;

pub const FLAGS: u32 = 0x00000002;

pub const RATE: u32 = 0x00000004;

pub const CHANNEL: u32 = 0x00000008;

pub const FHSS: u32 = 0x00000010;

pub const ANTENNA_SIGNAL: u32 = 0x00000020;

pub const ANTENNA_NOISE: u32 = 0x00000040;

pub const LOCK_QUALITY: u32 = 0x00000080;

pub const TX_ATTENUATION: u32 = 0x00000100;

pub const DB_TX_ATTENUATION: u32 = 0x00000200;

pub const DBM_TX_POWER: u32 = 0x00000400;

pub const ANTENNA: u32 = 0x00000800;

pub const DB_ANTENNA_SIGNAL: u32 = 0x00001000;

pub const DB_ANTENNA_NOISE: u32 = 0x00002000;

pub const RX_FLAGS: u32 = 0x00004000;

pub const MCS: u32 = 0x00080000;

pub const A_MPDU_STATUS: u32 = 0x00100000;

pub const VHT: u32 = 0x00200000;

pub const MORE_IT_PRESENT: u32 = 0x80000000;

/// The fixed eight-byte radiotap header. `it_len` is the total length
/// of the radiotap area, including this header and all metadata fields.
#[derive(Clone, Copy, PartialEq, Eq, Structural, Debug)]
pub struct RadiotapHeader {
    pub it_version: u8,
    pub it_pad: u8,
    pub it_len: u16,
    pub it_present: u32,
}

impl RadiotapHeader {
    /// Decode the fixed radiotap header from the front of a capture.
    /// Fails exactly when fewer than eight bytes are available.
    /// Multi-byte fields are little-endian.
    pub fn from_bytes(b: &[u8]) -> (r: Option<RadiotapHeader>)
        ensures
            b@.len() >= 8 ==> (r matches Some(h) && h.it_version == b@[0] && h.it_pad == b@[1]
                && h.it_len as int == spec_le16(b@, 2) && h.it_present as int == spec_le32(b@, 4)),
            b@.len() < 8 ==> r is None,
    {
        if b.len() < 8 {
            return None;
        }
        Some(
            RadiotapHeader {
                it_version: b[0],
                it_pad: b[1],
                it_len: read_le16(b, 2),
                it_present: read_le32(b, 4),
            },
        )
    }

    /// Whether the presence bitmap announces the given metadata field.
    pub fn has_field(&self, field: u32) -> (r: bool)
        ensures
            r == (self.it_present & field != 0),
    {
        self.it_present & field != 0
    }
}

/// One decoded monitor-mode frame: the radiotap header, the 802.11 MAC
/// header that follows it, and whether the frame control marks the
/// frame as bogus.
#[derive(Clone, Copy, PartialEq, Eq, Debug)]
pub struct Dot11Frame {
    pub tap: RadiotapHeader,
    pub mac: Dot11MacBaseHeader,
    pub malformed: bool,
}

/// Decode a radiotap-framed 802.11 capture: read the radiotap header,
/// skip `it_len` bytes of metadata, and interpret what follows as the
/// MAC header. Fails exactly when the radiotap header does not fit,
/// declares a length shorter than itself, or leaves no room for the
/// MAC header. A non-zero protocol version marks the frame malformed
/// rather than failing: bogus frames are reported, never fatal.
pub fn decode_radiotap_frame(b: &[u8]) -> (r: Option<Dot11Frame>)
    ensures
        ({
            let s = b@;
            if s.len() >= 8 && 8 <= spec_le16(s, 2) && spec_le16(s, 2) + 10 <= s.len() {
                let off = spec_le16(s, 2);
                r matches Some(f) && f.tap.it_version == s[0] && f.tap.it_pad == s[1]
                    && f.tap.it_len as int == off && f.tap.it_present as int == spec_le32(s, 4)
                    && f.mac.fr_ctrl.ty == s[off] && f.mac.fr_ctrl.flags == s[off + 1]
                    && f.mac.dur_id as int == spec_le16(s, off + 2) && f.mac.addr1.0@
                    == s.subrange(off + 4, off + 10) && f.malformed == (f.mac.fr_ctrl.ty & 0x03
                    != 0)
            } else {
                r is None
            }
        }),
{
    let n = b.len();
    let tap = match RadiotapHeader::from_bytes(b) {
        Some(h) => h,
        None => {
            return None;
        },
    };
    let off = tap.it_len as usize;
    if off < 8 || n < off || n - off < 10 {
        return None;
    }
    let rest = vstd::slice::slice_subrange(b, off, n);
    let mac = Dot11MacBaseHeader::from_bytes(rest).unwrap();
    proof {
        assert(mac.addr1.0@ =~= b@.subrange(off + 4, off + 10));
        assert(spec_le16(rest@, 2) == spec_le16(b@, off as int + 2));
    }
    let malformed = mac.fr_ctrl.protocol_version() != 0;
    proof {
        assert((mac.fr_ctrl.ty & 0x03 == 0) == (mac.fr_ctrl.ty & 0b00000011 == 0));
    }
    Some(Dot11Frame { tap, mac, malformed })
}

} // verus!
