//! IPv4 and IPv6 layer: address types with their conventional text
//! forms, and bounds-checked decoding of the fixed network headers.

use vstd::prelude::*;

use crate::util::{
    byte_key, bytes_eq, bytes_lex_le, read_be16, read_be32, spec_be16, spec_be32, spec_dec,
    spec_hex, string_push, u64_dec, u64_hex, word_key, words_eq, words_lex_le, Addr,
};

verus! {

/// A 32-bit IPv4 address.
#[verifier::ext_equal]
#[derive(Clone, Copy, PartialEq, Eq, Hash, Debug)]
pub struct IP4Addr(pub [u8; 4]);

/// Dotted-quad text form of an IPv4 address.
pub open spec fn ip4_fmt(a: Seq<u8>) -> Seq<char> {
    spec_dec(a[0] as int) + seq!['.'] + spec_dec(a[1] as int) + seq!['.'] + spec_dec(a[2] as int)
        + seq!['.'] + spec_dec(a[3] as int)
}

impl Addr for IP4Addr {
    open spec fn key(&self) -> Seq<int> {
        byte_key(self.0@)
    }

    open spec fn fmt(&self) -> Seq<char> {
        ip4_fmt(self.0@)
    }

    proof fn lemma_key(&self, other: &Self) {
        if self.key() == other.key() {
            assert forall|i: int| 0 <= i < 4 implies self.0@[i] == other.0@[i] by {
                assert(self.key()[i] == other.key()[i]);
            }
            assert(self.0 =~= other.0);
            assert(*self =~= *other);
        }
    }

    fn le(&self, other: &Self) -> (r: bool) {
        bytes_lex_le(self.0.as_slice(), other.0.as_slice())
    }

    fn eq_addr(&self, other: &Self) -> (r: bool) {
        let r = bytes_eq(self.0.as_slice(), other.0.as_slice());
        proof {
            if self.0@ == other.0@ {
                assert(self.0 =~= other.0);
                assert(*self =~= *other);
            }
        }
        r
    }

    fn to_str(&self) -> (r: String) {
        let mut s = u64_dec(self.0[0] as u64);
        string_push(&mut s, '.');
        let p1 = u64_dec(self.0[1] as u64);
        s.append(p1.as_str());
        string_push(&mut s, '.');
        let p2 = u64_dec(self.0[2] as u64);
        s.append(p2.as_str());
        string_push(&mut s, '.');
        let p3 = u64_dec(self.0[3] as u64);
        s.append(p3.as_str());
        assert(s@ =~= self.fmt());
        s
    }
}

/// A 128-bit IPv6 address as eight 16-bit words in network order.
#[verifier::ext_equal]
#[derive(Clone, Copy, PartialEq, Eq, Hash, Debug)]
pub struct IP6Addr(pub [u16; 8]);

/// The embedded dotted-quad form of the last two address words, used by
/// the IPv4-compatible and IPv4-mapped text forms.
pub open spec fn ip6_embedded_quad(g: int, h: int) -> Seq<char> {
    spec_dec(g / 0x100) + seq!['.'] + spec_dec(g % 0x100) + seq!['.'] + spec_dec(h / 0x100)
        + seq!['.'] + spec_dec(h % 0x100)
}

/// Text form of an IPv6 address, bracketed: an IPv4-compatible address
/// (six leading zero words) compacts to `[::a.b.c.d]`, an IPv4-mapped
/// address (five zero words then 0xffff) to `[::FFFF:a.b.c.d]`, and any
/// other address shows all eight words in minimal hexadecimal.
pub open spec fn ip6_fmt(w: Seq<u16>) -> Seq<char> {
    if w[0] == 0 && w[1] == 0 && w[2] == 0 && w[3] == 0 && w[4] == 0 && w[5] == 0 {
        seq!['[', ':', ':'] + ip6_embedded_quad(w[6] as int, w[7] as int) + seq![']']
    } else if w[0] == 0 && w[1] == 0 && w[2] == 0 && w[3] == 0 && w[4] == 0 && w[5] == 0xFFFF {
        seq!['[', ':', ':', 'F', 'F', 'F', 'F', ':'] + ip6_embedded_quad(w[6] as int, w[7] as int)
            + seq![']']
    } else {
        seq!['['] + spec_hex(w[0] as int) + seq![':'] + spec_hex(w[1] as int) + seq![':']
            + spec_hex(w[2] as int) + seq![':'] + spec_hex(w[3] as int) + seq![':'] + spec_hex(
            w[4] as int,
        ) + seq![':'] + spec_hex(w[5] as int) + seq![':'] + spec_hex(w[6] as int) + seq![':']
            + spec_hex(w[7] as int) + seq![']']
    }
}

impl IP6Addr {
    /// Append the embedded dotted-quad form of the last two words.
    fn push_embedded_quad(s: &mut String, g: u16, h: u16)
        ensures
            final(s)@ == old(s)@ + ip6_embedded_quad(g as int, h as int),
    {
        let p0 = u64_dec((g / 0x100) as u64);
        s.append(p0.as_str());
        string_push(s, '.');
        let p1 = u64_dec((g % 0x100) as u64);
        s.append(p1.as_str());
        string_push(s, '.');
        let p2 = u64_dec((h / 0x100) as u64);
        s.append(p2.as_str());
        string_push(s, '.');
        let p3 = u64_dec((h % 0x100) as u64);
        s.append(p3.as_str());
        assert(s@ =~= old(s)@ + ip6_embedded_quad(g as int, h as int));
    }
}

impl Addr for IP6Addr {
    open spec fn key(&self) -> Seq<int> {
        word_key(self.0@)
    }

    open spec fn fmt(&self) -> Seq<char> {
        ip6_fmt(self.0@)
    }

    proof fn lemma_key(&self, other: &Self) {
        if self.key() == other.key() {
            assert forall|i: int| 0 <= i < 8 implies self.0@[i] == other.0@[i] by {
                assert(self.key()[i] == other.key()[i]);
            }
            assert(self.0 =~= other.0);
            assert(*self =~= *other);
        }
    }

    fn le(&self, other: &Self) -> (r: bool) {
        words_lex_le(self.0.as_slice(), other.0.as_slice())
    }

    fn eq_addr(&self, other: &Self) -> (r: bool) {
        let r = words_eq(self.0.as_slice(), other.0.as_slice());
        proof {
            if self.0@ == other.0@ {
                assert(self.0 =~= other.0);
                assert(*self =~= *other);
            }
        }
        r
    }

    fn to_str(&self) -> (r: String) {
        let w = &self.0;
        if w[0] == 0 && w[1] == 0 && w[2] == 0 && w[3] == 0 && w[4] == 0 && w[5] == 0 {
            let mut s = String::new();
            string_push(&mut s, '[');
            string_push(&mut s, ':');
            string_push(&mut s, ':');
            Self::push_embedded_quad(&mut s, w[6], w[7]);
            string_push(&mut s, ']');
            assert(s@ =~= self.fmt());
            s
        } else if w[0] == 0 && w[1] == 0 && w[2] == 0 && w[3] == 0 && w[4] == 0 && w[5] == 0xFFFF {
            let mut s = String::new();
            string_push(&mut s, '[');
            string_push(&mut s, ':');
            string_push(&mut s, ':');
            string_push(&mut s, 'F');
            string_push(&mut s, 'F');
            string_push(&mut s, 'F');
            string_push(&mut s, 'F');
            string_push(&mut s, ':');
            Self::push_embedded_quad(&mut s, w[6], w[7]);
            string_push(&mut s, ']');
            assert(s@ =~= self.fmt());
            s
        } else {
            let mut s = String::new();
            string_push(&mut s, '[');
            let p0 = u64_hex(w[0] as u64);
            s.append(p0.as_str());
            string_push(&mut s, ':');
            let p1 = u64_hex(w[1] as u64);
            s.append(p1.as_str());
            string_push(&mut s, ':');
            let p2 = u64_hex(w[2] as u64);
            s.append(p2.as_str());
            string_push(&mut s, ':');
            let p3 = u64_hex(w[3] as u64);
            s.append(p3.as_str());
            string_push(&mut s, ':');
            let p4 = u64_hex(w[4] as u64);
            s.append(p4.as_str());
            string_push(&mut s, ':');
            let p5 = u64_hex(w[5] as u64);
            s.append(p5.as_str());
            string_push(&mut s, ':');
            let p6 = u64_hex(w[6] as u64);
            s.append(p6.as_str());
            string_push(&mut s, ':');
            let p7 = u64_hex(w[7] as u64);
            s.append(p7.as_str());
            string_push(&mut s, ']');
            assert(s@ =~= self.fmt());
            s
        }
    }
}

/// The fixed 20-byte IPv4 header, without options.
#[derive(Clone, Copy, PartialEq, Eq, Debug)]
pub struct IP4Header {
    pub ver_ihl: u8,
    pub dscp_ecn: u8,
    pub len: u16,
    pub ident: u16,
    pub flags_frag: u16,
    pub ttl: u8,
    pub proto: u8,
    pub hchk: u16,
    pub src: IP4Addr,
    pub dst: IP4Addr,
}

impl IP4Header {
    /// Decode the fixed IPv4 header from the front of `b`. Fails exactly
    /// when fewer than twenty bytes are available. Multi-byte fields are
    /// read in network byte order; `len` is the declared total length of
    /// the whole datagram.
    pub fn from_bytes(b: &[u8]) -> (r: Option<IP4Header>)
        ensures
            b@.len() >= 20 ==> (r matches Some(h) && h.ver_ihl == b@[0] && h.dscp_ecn == b@[1]
                && h.len as int == spec_be16(b@, 2) && h.ident as int == spec_be16(b@, 4)
                && h.flags_frag as int == spec_be16(b@, 6) && h.ttl == b@[8] && h.proto == b@[9]
                && h.hchk as int == spec_be16(b@, 10) && h.src.0@ == b@.subrange(12, 16)
                && h.dst.0@ == b@.subrange(16, 20)),
            b@.len() < 20 ==> r is None,
    {
        if b.len() < 20 {
            return None;
        }
        let src = IP4Addr([b[12], b[13], b[14], b[15]]);
        let dst = IP4Addr([b[16], b[17], b[18], b[19]]);
        assert(src.0@ =~= b@.subrange(12, 16));
        assert(dst.0@ =~= b@.subrange(16, 20));
        Some(
            IP4Header {
                ver_ihl: b[0],
                dscp_ecn: b[1],
                len: read_be16(b, 2),
                ident: read_be16(b, 4),
                flags_frag: read_be16(b, 6),
                ttl: b[8],
                proto: b[9],
                hchk: read_be16(b, 10),
                src,
                dst,
            },
        )
    }
}

/// The fixed 40-byte IPv6 header.
#[derive(Clone, Copy, PartialEq, Eq, Debug)]
pub struct IP6Header {
    pub ver_tc_fl: u32,
    pub len: u16,
    pub nxthdr: u8,
    pub hoplim: u8,
    pub src: IP6Addr,
    pub dst: IP6Addr,
}

/// The eight 16-bit words of an IPv6 address starting at offset `i`,
/// each read in network byte order.
pub open spec fn spec_ip6_words(b: Seq<u8>, i: int) -> Seq<int> {
    Seq::new(8, |k: int| spec_be16(b, i + 2 * k))
}

impl IP6Header {
    /// Read one IPv6 address at offset `i`.
    fn addr_at(b: &[u8], i: usize) -> (a: IP6Addr)
        requires
            i + 16 <= b@.len(),
        ensures
            a.key() == spec_ip6_words(b@, i as int),
    {
        let n = b.len();
        assert(i + 16 <= n);
        let a = IP6Addr(
            [
                read_be16(b, i),
                read_be16(b, i + 2),
                read_be16(b, i + 4),
                read_be16(b, i + 6),
                read_be16(b, i + 8),
                read_be16(b, i + 10),
                read_be16(b, i + 12),
                read_be16(b, i + 14),
            ],
        );
        assert(a.key() =~= spec_ip6_words(b@, i as int));
        a
    }

    /// Decode the fixed IPv6 header from the front of `b`. Fails exactly
    /// when fewer than forty bytes are available; `len` is the declared
    /// payload length.
    pub fn from_bytes(b: &[u8]) -> (r: Option<IP6Header>)
        ensures
            b@.len() >= 40 ==> (r matches Some(h) && h.ver_tc_fl as int == spec_be32(b@, 0)
                && h.len as int == spec_be16(b@, 4) && h.nxthdr == b@[6] && h.hoplim == b@[7]
                && h.src.key() == spec_ip6_words(b@, 8) && h.dst.key() == spec_ip6_words(b@, 24)),
            b@.len() < 40 ==> r is None,
    {
        if b.len() < 40 {
            return None;
        }
        Some(
            IP6Header {
                ver_tc_fl: read_be32(b, 0),
                len: read_be16(b, 4),
                nxthdr: b[6],
                hoplim: b[7],
                src: Self::addr_at(b, 8),
                dst: Self::addr_at(b, 24),
            },
        )
    }
}

} // verus!
