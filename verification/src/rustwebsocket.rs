//! The duplex streaming layer: websocket-style frame encode/decode, the
//! upgrade handshake with its key-derived response, and the per-
//! connection state machine. Frames are opcode-tagged with a 7-bit,
//! 16-bit or 64-bit length field; inbound frames may be masked.

use vstd::prelude::*;

use sha1::Digest;

use crate::util::{read_be16, spec_be16};
use vstd::slice::{slice_subrange, slice_to_vec};
use vstd::string::{StrSliceExecFns, StringSliceAdditionalSpecFns};

verus! {

pub const WS_CONT_FRAME: u8 = 0x0;

pub const WS_TEXT_FRAME: u8 = 0x1;

pub const WS_BINARY_FRAME: u8 = 0x2;

pub const WS_CLOSING_FRAME: u8 = 0x8;

pub const WS_PING_FRAME: u8 = 0x9;

pub const WS_PONG_FRAME: u8 = 0xA;

/// How many queued outbound messages a connection worker flushes
/// before re-checking the inbound side, so neither direction starves.
pub const WS_BATCH_LIMIT: usize = 100;

/// A 64-bit big-endian field at offset `i`.
pub open spec fn spec_be64(s: Seq<u8>, i: int) -> int {
    (s[i] as int) * 0x100000000000000 + (s[i + 1] as int) * 0x1000000000000 + (s[i + 2] as int)
        * 0x10000000000 + (s[i + 3] as int) * 0x100000000 + (s[i + 4] as int) * 0x1000000 + (s[i
        + 5] as int) * 0x10000 + (s[i + 6] as int) * 0x100 + (s[i + 7] as int)
}

/// Read a 64-bit big-endian field.
fn read_be64(b: &[u8], i: usize) -> (v: u64)
    requires
        i + 8 <= b@.len(),
    ensures
        v as int == spec_be64(b@, i as int),
{
    let n = b.len();
    let b0 = b[i] as u64;
    let b1 = b[i + 1] as u64;
    let b2 = b[i + 2] as u64;
    let b3 = b[i + 3] as u64;
    let b4 = b[i + 4] as u64;
    let b5 = b[i + 5] as u64;
    let b6 = b[i + 6] as u64;
    let b7 = b[i + 7] as u64;
    b0 * 0x100000000000000 + b1 * 0x1000000000000 + b2 * 0x10000000000 + b3 * 0x100000000 + b4
        * 0x1000000 + b5 * 0x10000 + b6 * 0x100 + b7
}

/// The eight big-endian bytes of a 64-bit length.
pub open spec fn spec_be64_bytes(n: int) -> Seq<u8> {
    seq![
        (n / 0x100000000000000 % 0x100) as u8,
        (n / 0x1000000000000 % 0x100) as u8,
        (n / 0x10000000000 % 0x100) as u8,
        (n / 0x100000000 % 0x100) as u8,
        (n / 0x1000000 % 0x100) as u8,
        (n / 0x10000 % 0x100) as u8,
        (n / 0x100 % 0x100) as u8,
        (n % 0x100) as u8,
    ]
}

/// The length field of an unmasked frame: one byte below 126, three
/// bytes up to the 16-bit range, nine bytes beyond it.
pub open spec fn spec_len_bytes(n: int) -> Seq<u8> {
    if n < 126 {
        seq![n as u8]
    } else if n < 0x10000 {
        seq![126u8, (n / 0x100) as u8, (n % 0x100) as u8]
    } else {
        seq![127u8] + spec_be64_bytes(n)
    }
}

/// An encoded, unmasked frame: the FIN bit with the opcode, the length
/// field, then the payload unchanged.
pub open spec fn spec_make_frame(p: Seq<u8>, op: u8) -> Seq<u8> {
    seq![(128 + op) as u8] + spec_len_bytes(p.len() as int) + p
}

/// Whether the sender set the mask bit.
pub open spec fn is_masked(b: Seq<u8>) -> bool {
    (b[1] as int) / 128 == 1
}

/// The 7-bit length field.
pub open spec fn len7(b: Seq<u8>) -> int {
    (b[1] as int) % 128
}

/// Bytes of header up to and including the extended length field.
pub open spec fn ext_hdr_len(b: Seq<u8>) -> int {
    if len7(b) < 126 {
        2
    } else if len7(b) == 126 {
        4
    } else {
        10
    }
}

/// Total header bytes, masking key included.
pub open spec fn hdr_len(b: Seq<u8>) -> int {
    ext_hdr_len(b) + if is_masked(b) {
        4int
    } else {
        0int
    }
}

/// The declared payload length.
pub open spec fn payload_len(b: Seq<u8>) -> int {
    if len7(b) < 126 {
        len7(b)
    } else if len7(b) == 126 {
        spec_be16(b, 2)
    } else {
        spec_be64(b, 2)
    }
}

/// Total bytes the frame at the front of `b` occupies.
pub open spec fn frame_total(b: Seq<u8>) -> int {
    hdr_len(b) + payload_len(b)
}

/// Whether `b` begins with one complete frame.
pub open spec fn frame_ready(b: Seq<u8>) -> bool {
    b.len() >= 2 && b.len() >= frame_total(b)
}

pub open spec fn frame_fin(b: Seq<u8>) -> bool {
    (b[0] as int) / 128 == 1
}

pub open spec fn frame_op(b: Seq<u8>) -> u8 {
    ((b[0] as int) % 16) as u8
}

/// The four masking-key bytes.
pub open spec fn mask_key(b: Seq<u8>) -> Seq<u8> {
    b.subrange(ext_hdr_len(b), ext_hdr_len(b) + 4)
}

/// The payload bytes as they sit on the wire.
pub open spec fn raw_payload(b: Seq<u8>) -> Seq<u8> {
    b.subrange(hdr_len(b), frame_total(b))
}

/// Remove the rolling four-byte mask.
pub open spec fn unmask(p: Seq<u8>, k: Seq<u8>) -> Seq<u8> {
    Seq::new(p.len(), |i: int| p[i] ^ k[i % 4])
}

/// The payload the frame carries, unmasked if needed.
pub open spec fn frame_payload(b: Seq<u8>) -> Seq<u8> {
    if is_masked(b) {
        unmask(raw_payload(b), mask_key(b))
    } else {
        raw_payload(b)
    }
}

/// The outcome of reading one frame from the front of a byte buffer.
pub enum FrameParse {
    /// Not enough bytes buffered yet for one whole frame.
    Incomplete,
    /// One whole frame: its opcode, FIN flag, unmasked payload, and how
    /// many buffer bytes it consumed.
    Frame { op: u8, fin: bool, payload: Vec<u8>, consumed: usize },
}

/// Encode one unmasked frame with the given opcode and payload.
pub fn ws_make_frame(data: &[u8], op: u8) -> (r: Vec<u8>)
    requires
        op < 16,
    ensures
        r@ == spec_make_frame(data@, op),
{
    let n = data.len();
    let mut v: Vec<u8> = Vec::new();
    v.push(128 + op);
    if n < 126 {
        v.push(n as u8);
    } else if n < 0x10000 {
        v.push(126);
        v.push((n / 0x100) as u8);
        v.push((n % 0x100) as u8);
    } else {
        v.push(127);
        let m = n as u64;
        v.push((m / 0x100000000000000 % 0x100) as u8);
        v.push((m / 0x1000000000000 % 0x100) as u8);
        v.push((m / 0x10000000000 % 0x100) as u8);
        v.push((m / 0x100000000 % 0x100) as u8);
        v.push((m / 0x1000000 % 0x100) as u8);
        v.push((m / 0x10000 % 0x100) as u8);
        v.push((m / 0x100 % 0x100) as u8);
        v.push((m % 0x100) as u8);
    }
    let mut d = vstd::slice::slice_to_vec(data);
    v.append(&mut d);
    assert(v@ =~= spec_make_frame(data@, op));
    v
}

/// Decode the frame at the front of `buf`, if a whole one has arrived.
pub fn ws_parse_frame(buf: &[u8]) -> (r: FrameParse)
    ensures
        frame_ready(buf@) ==> (r matches FrameParse::Frame { op, fin, payload, consumed } && op
            == frame_op(buf@) && fin == frame_fin(buf@) && payload@ == frame_payload(buf@)
            && consumed == frame_total(buf@)),
        !frame_ready(buf@) ==> r is Incomplete,
{
    let n = buf.len();
    if n < 2 {
        return FrameParse::Incomplete;
    }
    let b0 = buf[0];
    let b1 = buf[1];
    let masked = b1 / 128 == 1;
    let l7 = b1 % 128;
    let ext: usize = if l7 < 126 {
        2
    } else if l7 == 126 {
        4
    } else {
        10
    };
    let hdr = if masked {
        ext + 4
    } else {
        ext
    };
    if n < hdr {
        return FrameParse::Incomplete;
    }
    let pay: u64 = if l7 < 126 {
        l7 as u64
    } else if l7 == 126 {
        read_be16(buf, 2) as u64
    } else {
        read_be64(buf, 2)
    };
    if ((n - hdr) as u64) < pay {
        return FrameParse::Incomplete;
    }
    let paylen = pay as usize;
    let total = hdr + paylen;
    let payload: Vec<u8> = if masked {
        let k0 = buf[ext];
        let k1 = buf[ext + 1];
        let k2 = buf[ext + 2];
        let k3 = buf[ext + 3];
        let ghost key = mask_key(buf@);
        let ghost raw = raw_payload(buf@);
        assert(key =~= seq![k0, k1, k2, k3]);
        let mut out: Vec<u8> = Vec::new();
        for j in 0..paylen
            invariant
                n == buf@.len(),
                hdr + paylen <= n,
                hdr == hdr_len(buf@) && paylen == payload_len(buf@),
                k0 == key[0] && k1 == key[1] && k2 == key[2] && k3 == key[3],
                raw == raw_payload(buf@) && raw.len() == paylen,
                out@.len() == j,
                forall|t: int| 0 <= t < j ==> out@[t] == raw[t] ^ key[t % 4],
        {
            let m = j % 4;
            let k = if m == 0 {
                k0
            } else if m == 1 {
                k1
            } else if m == 2 {
                k2
            } else {
                k3
            };
            out.push(buf[hdr + j] ^ k);
        }
        assert(out@ =~= frame_payload(buf@));
        out
    } else {
        let s = vstd::slice::slice_subrange(buf, hdr, total);
        let out = vstd::slice::slice_to_vec(s);
        assert(out@ =~= frame_payload(buf@));
        out
    };
    FrameParse::Frame { op: b0 % 16, fin: b0 / 128 == 1, payload, consumed: total }
}

/// Round trip: a frame encoded with any opcode and payload decodes on
/// the same stream to exactly that opcode and payload, consuming
/// exactly its own bytes.
pub proof fn lemma_frame_roundtrip(p: Seq<u8>, op: u8)
    requires
        op < 16,
        p.len() <= u64::MAX,
    ensures
        frame_ready(spec_make_frame(p, op)),
        frame_op(spec_make_frame(p, op)) == op,
        frame_fin(spec_make_frame(p, op)),
        !is_masked(spec_make_frame(p, op)),
        frame_payload(spec_make_frame(p, op)) == p,
        frame_total(spec_make_frame(p, op)) == spec_make_frame(p, op).len(),
{
    let f = spec_make_frame(p, op);
    let n = p.len() as int;
    assert(f[0] == (128 + op) as u8);
    assert((128 + op) as u8 == 128 + op);
    assert((128 + op) / 128 == 1);
    assert((128 + op) % 16 == op);
    if n < 126 {
        assert(f[1] == n as u8);
        assert(len7(f) == n && !is_masked(f));
        assert(raw_payload(f) =~= p);
    } else if n < 0x10000 {
        assert(f[1] == 126u8);
        assert(len7(f) == 126 && !is_masked(f));
        assert(f[2] == (n / 0x100) as u8 && f[3] == (n % 0x100) as u8);
        assert(payload_len(f) == n);
        assert(raw_payload(f) =~= p);
    } else {
        assert(f[1] == 127u8);
        assert(len7(f) == 127 && !is_masked(f));
        let x = n as u64;
        assert((x / 0x100000000000000 % 0x100) * 0x100000000000000 + (x / 0x1000000000000 % 0x100)
            * 0x1000000000000 + (x / 0x10000000000 % 0x100) * 0x10000000000 + (x / 0x100000000
            % 0x100) * 0x100000000 + (x / 0x1000000 % 0x100) * 0x1000000 + (x / 0x10000 % 0x100)
            * 0x10000 + (x / 0x100 % 0x100) * 0x100 + (x % 0x100) == x) by (bit_vector);
        assert(f[2] == (n / 0x100000000000000 % 0x100) as u8);
        assert(f[3] == (n / 0x1000000000000 % 0x100) as u8);
        assert(f[4] == (n / 0x10000000000 % 0x100) as u8);
        assert(f[5] == (n / 0x100000000 % 0x100) as u8);
        assert(f[6] == (n / 0x1000000 % 0x100) as u8);
        assert(f[7] == (n / 0x10000 % 0x100) as u8);
        assert(f[8] == (n / 0x100 % 0x100) as u8);
        assert(f[9] == (n % 0x100) as u8);
        assert(payload_len(f) == n);
        assert(raw_payload(f) =~= p);
    }
}

/// The digest the SHA-1 hash function assigns to a byte sequence.
pub uninterp spec fn sha1_of(data: Seq<u8>) -> Seq<u8>;

/// Relies on sha1::Sha1 (through the Digest trait): returns the SHA-1
/// digest of the input, a function of the input bytes alone, always 20
/// bytes long.
#[verifier::external_body]
fn sha1_digest(data: &[u8]) -> (r: Vec<u8>)
    ensures
        r@ == sha1_of(data@),
        r@.len() == 20,
{
    sha1::Sha1::digest(data).to_vec()
}

/// The base64 alphabet, by six-bit value.
pub open spec fn b64_char(v: int) -> u8 {
    if v < 26 {
        (65 + v) as u8
    } else if v < 52 {
        (97 + (v - 26)) as u8
    } else if v < 62 {
        (48 + (v - 52)) as u8
    } else if v == 62 {
        43
    } else {
        47
    }
}

/// Standard base64 with `=` padding, three input bytes to four output
/// characters.
pub open spec fn spec_b64(s: Seq<u8>) -> Seq<u8>
    decreases s.len(),
{
    if s.len() == 0 {
        Seq::empty()
    } else if s.len() == 1 {
        seq![
            b64_char((s[0] as int) / 4),
            b64_char((s[0] as int) % 4 * 16),
            61,
            61,
        ]
    } else if s.len() == 2 {
        seq![
            b64_char((s[0] as int) / 4),
            b64_char((s[0] as int) % 4 * 16 + (s[1] as int) / 16),
            b64_char((s[1] as int) % 16 * 4),
            61,
        ]
    } else {
        seq![
            b64_char((s[0] as int) / 4),
            b64_char((s[0] as int) % 4 * 16 + (s[1] as int) / 16),
            b64_char((s[1] as int) % 16 * 4 + (s[2] as int) / 64),
            b64_char((s[2] as int) % 64),
        ] + spec_b64(s.skip(3))
    }
}

/// One base64 alphabet character.
fn b64_byte(v: u8) -> (r: u8)
    requires
        v < 64,
    ensures
        r == b64_char(v as int),
{
    if v < 26 {
        65 + v
    } else if v < 52 {
        97 + (v - 26)
    } else if v < 62 {
        48 + (v - 52)
    } else if v == 62 {
        43
    } else {
        47
    }
}

/// Base64-encode a byte string.
pub fn b64_encode(data: &[u8]) -> (r: Vec<u8>)
    ensures
        r@ == spec_b64(data@),
{
    let n = data.len();
    let mut out: Vec<u8> = Vec::new();
    let mut i: usize = 0;
    assert(data@.skip(0) =~= data@);
    while i < n && n - i >= 3
        invariant
            n == data@.len(),
            i <= n,
            i % 3 == 0,
            spec_b64(data@) =~= out@ + spec_b64(data@.skip(i as int)),
        decreases n - i,
    {
        let ghost pre = data@.skip(i as int);
        let x = data[i];
        let y = data[i + 1];
        let z = data[i + 2];
        assert(pre[0] == x && pre[1] == y && pre[2] == z);
        out.push(b64_byte(x / 4));
        out.push(b64_byte(x % 4 * 16 + y / 16));
        out.push(b64_byte(y % 16 * 4 + z / 64));
        out.push(b64_byte(z % 64));
        i = i + 3;
        assert(pre.skip(3) =~= data@.skip(i as int));
    }
    let ghost pre = data@.skip(i as int);
    if n - i == 1 {
        let x = data[i];
        assert(pre[0] == x && pre.len() == 1);
        out.push(b64_byte(x / 4));
        out.push(b64_byte(x % 4 * 16));
        out.push(61);
        out.push(61);
    } else if n - i == 2 {
        let x = data[i];
        let y = data[i + 1];
        assert(pre[0] == x && pre[1] == y && pre.len() == 2);
        out.push(b64_byte(x / 4));
        out.push(b64_byte(x % 4 * 16 + y / 16));
        out.push(b64_byte(y % 16 * 4));
        out.push(61);
    } else {
        assert(pre.len() == 0);
    }
    assert(out@ =~= spec_b64(data@));
    out
}

/// The fixed GUID the handshake appends to the client key before
/// hashing.
pub open spec fn ws_guid() -> Seq<u8> {
    "258EAFA5-E914-47DA-95CA-C5AB0DC85B11".spec_bytes()
}

/// The accept token the handshake owes for a client key: the base64
/// form of the SHA-1 digest of the key with the fixed GUID appended.
pub open spec fn spec_accept(key: Seq<u8>) -> Seq<u8> {
    spec_b64(sha1_of(key + ws_guid()))
}

/// Compute the handshake accept token for a client key.
pub fn ws_accept(key: &[u8]) -> (r: Vec<u8>)
    ensures
        r@ == spec_accept(key@),
{
    let mut buf = slice_to_vec(key);
    let mut g = "258EAFA5-E914-47DA-95CA-C5AB0DC85B11".as_bytes_vec();
    buf.append(&mut g);
    let digest = sha1_digest(buf.as_slice());
    b64_encode(digest.as_slice())
}

/// A carriage-return / line-feed pair at position `k`.
pub open spec fn is_crlf_at(b: Seq<u8>, k: int) -> bool {
    0 <= k && k + 1 < b.len() && b[k] == 13 && b[k + 1] == 10
}

/// Position of the first line break, or a negative value if there is
/// none.
pub open spec fn first_crlf(b: Seq<u8>) -> int
    decreases b.len(),
{
    if b.len() < 2 {
        -1
    } else if b[0] == 13 && b[1] == 10 {
        0
    } else {
        let r = first_crlf(b.skip(1));
        if r < 0 {
            -1
        } else {
            r + 1
        }
    }
}

/// `first_crlf` finds exactly the least line-break position.
pub proof fn lemma_first_crlf(b: Seq<u8>)
    ensures
        first_crlf(b) == -1 ==> forall|k: int| !is_crlf_at(b, k),
        first_crlf(b) >= 0 ==> is_crlf_at(b, first_crlf(b)) && (forall|k: int|
            0 <= k < first_crlf(b) ==> !is_crlf_at(b, k)),
    decreases b.len(),
{
    if b.len() < 2 {
        assert(forall|k: int| !is_crlf_at(b, k));
    } else if b[0] == 13 && b[1] == 10 {
    } else {
        lemma_first_crlf(b.skip(1));
        assert forall|k: int| 1 <= k implies is_crlf_at(b, k) == is_crlf_at(b.skip(1), k - 1) by {
            assert(k - 1 + 1 < b.skip(1).len() <==> k + 1 < b.len());
            if 0 <= k - 1 && k < b.len() {
                assert(b.skip(1)[k - 1] == b[k]);
            }
            if 0 <= k && k + 1 < b.len() {
                assert(b.skip(1)[k - 1 + 1] == b[k + 1]);
            }
        }
        if first_crlf(b) == -1 {
            assert forall|k: int| !is_crlf_at(b, k) by {
                if k >= 1 {
                    assert(!is_crlf_at(b.skip(1), k - 1));
                }
            }
        }
    }
}

/// Whether `b` begins with the byte sequence `pre`.
pub open spec fn starts_with(b: Seq<u8>, pre: Seq<u8>) -> bool {
    b.len() >= pre.len() && b.take(pre.len() as int) == pre
}

/// The value of the first header line that begins with `pre`, walking
/// the request line by line.
pub open spec fn spec_find_key(b: Seq<u8>, pre: Seq<u8>) -> Option<Seq<u8>>
    decreases b.len() via spec_find_key_dec
{
    let i = first_crlf(b);
    let line = if i < 0 {
        b
    } else {
        b.take(i)
    };
    if starts_with(line, pre) {
        Some(line.skip(pre.len() as int))
    } else if i < 0 {
        None
    } else {
        spec_find_key(b.skip(i + 2), pre)
    }
}

#[via_fn]
proof fn spec_find_key_dec(b: Seq<u8>, pre: Seq<u8>) {
    lemma_first_crlf(b);
}

/// Scan a request for the first header line beginning with `pre` and
/// hand back the rest of that line.
fn find_header_value(req: &[u8], pre: &[u8]) -> (r: Option<Vec<u8>>)
    ensures
        match r {
            Some(v) => spec_find_key(req@, pre@) == Some(v@),
            None => spec_find_key(req@, pre@) is None,
        },
{
    let n = req.len();
    let plen = pre.len();
    let mut s: usize = 0;
    assert(req@.skip(0) =~= req@);
    loop
        invariant
            n == req@.len(),
            plen == pre@.len(),
            s <= n,
            spec_find_key(req@, pre@) == spec_find_key(req@.skip(s as int), pre@),
        decreases n - s,
    {
        let ghost tail = req@.skip(s as int);
        // find the end of the current line
        let mut j: usize = s;
        while j < n && j + 1 < n && !(req[j] == 13 && req[j + 1] == 10)
            invariant
                n == req@.len(),
                s <= j <= n,
                forall|k: int| s <= k < j ==> !is_crlf_at(req@, k),
            decreases n - j,
        {
            j = j + 1;
        }
        proof {
            lemma_first_crlf(tail);
            assert forall|k: int| 0 <= k implies is_crlf_at(tail, k) == is_crlf_at(
                req@,
                k + s,
            ) by {
                if k + 1 < tail.len() {
                    assert(tail[k] == req@[k + s]);
                    assert(tail[k + 1] == req@[k + s + 1]);
                }
            }
        }
        let e: usize = if j < n && j + 1 < n {
            proof {
                assert(is_crlf_at(req@, j as int));
                assert(is_crlf_at(tail, j - s));
                assert forall|k: int| 0 <= k < j - s implies !is_crlf_at(tail, k) by {
                    assert(!is_crlf_at(req@, k + s));
                }
                if first_crlf(tail) < j - s {
                    assert(!is_crlf_at(tail, first_crlf(tail)));
                }
                assert(first_crlf(tail) == j - s);
            }
            j
        } else {
            proof {
                assert forall|k: int| 0 <= k implies !is_crlf_at(tail, k) by {
                    if k < j - s {
                        assert(!is_crlf_at(req@, k + s));
                    } else {
                        assert(k + s + 1 >= n);
                    }
                }
                if first_crlf(tail) >= 0 {
                    assert(is_crlf_at(tail, first_crlf(tail)));
                }
                assert(first_crlf(tail) == -1);
            }
            n
        };
        let ghost line = if first_crlf(tail) < 0 {
            tail
        } else {
            tail.take(first_crlf(tail))
        };
        assert(line =~= req@.subrange(s as int, e as int));
        // does this line carry the header?
        if e - s >= plen {
            let head = slice_subrange(req, s, s + plen);
            if crate::util::bytes_eq(head, pre) {
                assert(line.take(plen as int) =~= head@);
                let v = slice_to_vec(slice_subrange(req, s + plen, e));
                assert(v@ =~= line.skip(plen as int));
                return Some(v);
            }
            assert(line.take(plen as int) =~= head@);
            assert(!starts_with(line, pre@));
        } else {
            assert(!starts_with(line, pre@));
        }
        if e == n {
            assert(spec_find_key(tail, pre@) is None);
            return None;
        }
        proof {
            assert(tail.skip(first_crlf(tail) + 2) =~= req@.skip(e + 2));
        }
        s = e + 2;
    }
}

/// The header that carries the client's handshake key.
pub open spec fn ws_key_prefix() -> Seq<u8> {
    "Sec-WebSocket-Key: ".spec_bytes()
}

/// Find the client key in an upgrade request, if the request carries
/// one.
pub fn ws_parse_handshake(req: &[u8]) -> (r: Option<Vec<u8>>)
    ensures
        match r {
            Some(k) => spec_find_key(req@, ws_key_prefix()) == Some(k@),
            None => spec_find_key(req@, ws_key_prefix()) is None,
        },
{
    let pre = "Sec-WebSocket-Key: ".as_bytes();
    find_header_value(req, pre)
}

/// The upgrade response owed to a well-formed handshake request whose
/// key is `key`.
pub open spec fn spec_answer(key: Seq<u8>) -> Seq<u8> {
    "HTTP/1.1 101 Switching Protocols\r\nUpgrade: websocket\r\nConnection: Upgrade\r\nSec-WebSocket-Accept: ".spec_bytes()
        + spec_accept(key) + "\r\n\r\n".spec_bytes()
}

/// The response to any request that is not an upgrade request.
pub open spec fn spec_not_found() -> Seq<u8> {
    "HTTP/1.1 404 Not Found\r\n\r\n".spec_bytes()
}

/// Build the upgrade response for a client key.
pub fn ws_answer(key: &[u8]) -> (r: Vec<u8>)
    ensures
        r@ == spec_answer(key@),
{
    let mut v =
        "HTTP/1.1 101 Switching Protocols\r\nUpgrade: websocket\r\nConnection: Upgrade\r\nSec-WebSocket-Accept: ".as_bytes_vec();
    let mut acc = ws_accept(key);
    v.append(&mut acc);
    let mut end = "\r\n\r\n".as_bytes_vec();
    v.append(&mut end);
    assert(v@ =~= spec_answer(key@));
    v
}

/// Build the not-found response.
pub fn ws_not_found() -> (r: Vec<u8>)
    ensures
        r@ == spec_not_found(),
{
    "HTTP/1.1 404 Not Found\r\n\r\n".as_bytes_vec()
}

/// The lifecycle of one viewer connection.
#[derive(Clone, Copy, PartialEq, Eq, Structural, Debug)]
pub enum ConnState {
    AwaitingHandshake,
    Open,
    Closing,
    Closed,
}

/// An inbound frame opcode that ends the connection: a close frame, or
/// anything that is not a recognized frame type.
pub open spec fn is_close_or_error(op: u8) -> bool {
    op == WS_CLOSING_FRAME || !(op == WS_CONT_FRAME || op == WS_TEXT_FRAME || op == WS_BINARY_FRAME
        || op == WS_PING_FRAME || op == WS_PONG_FRAME)
}

/// The state machine of one viewer connection. The worker that owns the
/// socket asks it what to send and where to go next; stream reads and
/// writes stay with the worker.
#[derive(Clone, Copy, PartialEq, Eq, Structural, Debug)]
pub struct Connection {
    pub state: ConnState,
}

impl Connection {
    pub fn new() -> (r: Connection)
        ensures
            r.state == ConnState::AwaitingHandshake,
    {
        Connection { state: ConnState::AwaitingHandshake }
    }

    /// Answer the initial request: an upgrade request with a key gets
    /// the computed handshake response and opens the connection; any
    /// other request gets the not-found response and the connection is
    /// done.
    pub fn on_request(&mut self, req: &[u8]) -> (resp: Vec<u8>)
        requires
            old(self).state == ConnState::AwaitingHandshake,
        ensures
            match spec_find_key(req@, ws_key_prefix()) {
                Some(k) => resp@ == spec_answer(k) && final(self).state == ConnState::Open,
                None => resp@ == spec_not_found() && final(self).state == ConnState::Closed,
            },
    {
        match ws_parse_handshake(req) {
            Some(key) => {
                self.state = ConnState::Open;
                ws_answer(key.as_slice())
            },
            None => {
                self.state = ConnState::Closed;
                ws_not_found()
            },
        }
    }

    /// React to one inbound frame: a close or unrecognized frame is
    /// answered with a close frame and moves the connection to Closing;
    /// every other frame is ignored.
    pub fn on_frame(&mut self, op: u8) -> (reply: Option<Vec<u8>>)
        requires
            old(self).state == ConnState::Open,
        ensures
            if is_close_or_error(op) {
                &&& reply matches Some(f) && f@ == spec_make_frame(Seq::empty(), WS_CLOSING_FRAME)
                &&& final(self).state == ConnState::Closing
            } else {
                reply is None && final(self).state == ConnState::Open
            },
    {
        if op == WS_CLOSING_FRAME || !(op == WS_CONT_FRAME || op == WS_TEXT_FRAME || op
            == WS_BINARY_FRAME || op == WS_PING_FRAME || op == WS_PONG_FRAME) {
            self.state = ConnState::Closing;
            let empty: [u8; 0] = [];
            let f = ws_make_frame(empty.as_slice(), WS_CLOSING_FRAME);
            assert(empty@ =~= Seq::<u8>::empty());
            Some(f)
        } else {
            None
        }
    }

    /// The close reply went out: the connection is done and its
    /// resources can be released.
    pub fn finish_close(&mut self)
        requires
            old(self).state == ConnState::Closing,
        ensures
            final(self).state == ConnState::Closed,
    {
        self.state = ConnState::Closed;
    }

    /// A read error or end of stream is an ordinary disconnect, from
    /// any state.
    pub fn on_disconnect(&mut self)
        ensures
            final(self).state == ConnState::Closed,
    {
        self.state = ConnState::Closed;
    }
}

} // verus!
