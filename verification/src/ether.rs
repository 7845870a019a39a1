//! Ethernet layer: MAC addresses and the 14-byte Ethernet header
//! (destination, source, EtherType in network byte order).

use vstd::prelude::*;

use crate::util::{
    byte_key, bytes_eq, bytes_lex_le, push_byte_hex, spec_be16, spec_byte_hex, string_push, Addr,
};

verus! {

pub const ETHERTYPE_ARP: u16 = 0x0806;

pub const ETHERTYPE_IP4: u16 = 0x0800;

pub const ETHERTYPE_IP6: u16 = 0x86DD;

pub const ETHERTYPE_802_1X: u16 = 0x888E;

/// Number of bytes in a MAC address.
pub const ETHERNET_MAC_ADDR_BYTES: usize = 6;

/// Number of bytes in the EtherType field.
pub const ETHERNET_ETHERTYPE_BYTES: usize = 2;

/// Number of bytes in a whole Ethernet header.
pub const ETHERNET_HEADER_BYTES: usize = 14;

/// A 48-bit IEEE 802 MAC address.
#[verifier::ext_equal]
#[derive(Clone, Copy, PartialEq, Eq, Hash, Debug)]
pub struct MacAddr(pub [u8; 6]);

/// The text form of a MAC address: six two-digit lower-case hexadecimal
/// octets separated by colons.
pub open spec fn mac_fmt(a: Seq<u8>) -> Seq<char> {
    spec_byte_hex(a[0]) + seq![':'] + spec_byte_hex(a[1]) + seq![':'] + spec_byte_hex(a[2])
        + seq![':'] + spec_byte_hex(a[3]) + seq![':'] + spec_byte_hex(a[4]) + seq![':']
        + spec_byte_hex(a[5])
}

impl Addr for MacAddr {
    open spec fn key(&self) -> Seq<int> {
        byte_key(self.0@)
    }

    open spec fn fmt(&self) -> Seq<char> {
        mac_fmt(self.0@)
    }

    proof fn lemma_key(&self, other: &Self) {
        if self.key() == other.key() {
            assert forall|i: int| 0 <= i < 6 implies self.0@[i] == other.0@[i] by {
                assert(self.key()[i] == other.key()[i]);
            }
            assert(self.0 =~= other.0);
            assert(*self =~= *other);
        }
    }

    fn le(&self, other: &Self) -> (r: bool) {
        bytes_lex_le(self.0.as_slice(), other.0.as_slice())
    }

    fn eq_addr(&self, other: &Self) -> (r: bool) {
        let r = bytes_eq(self.0.as_slice(), other.0.as_slice());
        proof {
            if self.0@ == other.0@ {
                assert(self.0 =~= other.0);
                assert(*self =~= *other);
            }
        }
        r
    }

    fn to_str(&self) -> (r: String) {
        let mut s = String::new();
        push_byte_hex(&mut s, self.0[0]);
        string_push(&mut s, ':');
        push_byte_hex(&mut s, self.0[1]);
        string_push(&mut s, ':');
        push_byte_hex(&mut s, self.0[2]);
        string_push(&mut s, ':');
        push_byte_hex(&mut s, self.0[3]);
        string_push(&mut s, ':');
        push_byte_hex(&mut s, self.0[4]);
        string_push(&mut s, ':');
        push_byte_hex(&mut s, self.0[5]);
        assert(s@ =~= self.fmt());
        s
    }
}

/// The fixed Ethernet header: destination and source MAC followed by the
/// EtherType, read in network byte order.
#[derive(Clone, Copy, PartialEq, Eq, Debug)]
pub struct EthernetHeader {
    pub dst: MacAddr,
    pub src: MacAddr,
    pub typ: u16,
}

impl EthernetHeader {
    /// Decode the header from the front of a captured frame. Fails
    /// exactly when fewer than fourteen bytes were captured.
    pub fn from_bytes(b: &[u8]) -> (r: Option<EthernetHeader>)
        ensures
            b@.len() >= 14 ==> (r matches Some(h) && h.dst.0@ == b@.subrange(0, 6) && h.src.0@
                == b@.subrange(6, 12) && h.typ as int == spec_be16(b@, 12)),
            b@.len() < 14 ==> r is None,
    {
        if b.len() < 14 {
            return None;
        }
        let dst = MacAddr([b[0], b[1], b[2], b[3], b[4], b[5]]);
        let src = MacAddr([b[6], b[7], b[8], b[9], b[10], b[11]]);
        let typ = crate::util::read_be16(b, 12);
        assert(dst.0@ =~= b@.subrange(0, 6));
        assert(src.0@ =~= b@.subrange(6, 12));
        Some(EthernetHeader { dst, src, typ })
    }
}

} // verus!
