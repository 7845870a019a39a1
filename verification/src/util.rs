//! Shared helpers: the lexicographic order used to canonicalize address
//! pairs, the `Addr` trait that every endpoint address type implements,
//! and verified decimal / hexadecimal text formatting.

use vstd::prelude::*;

verus! {

/// Lexicographic `<=` over integer sequences: the order every address
/// type uses, applied to its fixed-width component sequence.
pub open spec fn lex_le(a: Seq<int>, b: Seq<int>) -> bool
    decreases a.len(),
{
    if a.len() == 0 {
        true
    } else if b.len() == 0 {
        false
    } else if a[0] != b[0] {
        a[0] < b[0]
    } else {
        lex_le(a.drop_first(), b.drop_first())
    }
}

/// `lex_le` is total: any two sequences compare one way or the other.
pub proof fn lemma_lex_le_total(a: Seq<int>, b: Seq<int>)
    ensures
        lex_le(a, b) || lex_le(b, a),
    decreases a.len(),
{
    if a.len() == 0 || b.len() == 0 {
    } else if a[0] == b[0] {
        lemma_lex_le_total(a.drop_first(), b.drop_first());
    }
}

/// `lex_le` is antisymmetric on equal-length sequences.
pub proof fn lemma_lex_le_antisymm(a: Seq<int>, b: Seq<int>)
    requires
        a.len() == b.len(),
        lex_le(a, b),
        lex_le(b, a),
    ensures
        a == b,
    decreases a.len(),
{
    if a.len() == 0 {
        assert(a =~= b);
    } else {
        assert(a[0] == b[0]);
        lemma_lex_le_antisymm(a.drop_first(), b.drop_first());
        assert forall|i: int| 0 <= i < a.len() implies a[i] == b[i] by {
            if i > 0 {
                assert(a.drop_first()[i - 1] == b.drop_first()[i - 1]);
            }
        }
        assert(a =~= b);
    }
}

/// An endpoint address: a fixed-width value with a total order (by its
/// component sequence) and a conventional text form.
pub trait Addr: Sized + Copy {
    /// The address as its sequence of numeric components.
    spec fn key(&self) -> Seq<int>;

    /// The conventional human-readable text form of the address.
    spec fn fmt(&self) -> Seq<char>;

    /// All addresses of one type have the same key width, and the key
    /// determines the address.
    proof fn lemma_key(&self, other: &Self)
        ensures
            self.key().len() == other.key().len(),
            self.key() == other.key() ==> *self == *other,
    ;

    /// Compare two addresses in the order of their component sequences.
    fn le(&self, other: &Self) -> (r: bool)
        ensures
            r == lex_le(self.key(), other.key()),
    ;

    /// Equality of two addresses.
    fn eq_addr(&self, other: &Self) -> (r: bool)
        ensures
            r == (*self == *other),
    ;

    /// Render the address in its conventional text form.
    fn to_str(&self) -> (r: String)
        ensures
            r@ == self.fmt(),
    ;
}

/// Relies on String::push: appends exactly the given character.
#[verifier::external_body]
pub fn string_push(s: &mut String, c: char)
    ensures
        final(s)@ == old(s)@.push(c),
{
    s.push(c);
}

/// The digit characters used by decimal and hexadecimal formatting.
pub open spec fn spec_digit(n: int) -> char {
    if n == 0 {
        '0'
    } else if n == 1 {
        '1'
    } else if n == 2 {
        '2'
    } else if n == 3 {
        '3'
    } else if n == 4 {
        '4'
    } else if n == 5 {
        '5'
    } else if n == 6 {
        '6'
    } else if n == 7 {
        '7'
    } else if n == 8 {
        '8'
    } else if n == 9 {
        '9'
    } else if n == 10 {
        'a'
    } else if n == 11 {
        'b'
    } else if n == 12 {
        'c'
    } else if n == 13 {
        'd'
    } else if n == 14 {
        'e'
    } else {
        'f'
    }
}

/// One digit character, for values below sixteen.
pub fn digit_char(n: u8) -> (c: char)
    requires
        n < 16,
    ensures
        c == spec_digit(n as int),
{
    if n == 0 {
        '0'
    } else if n == 1 {
        '1'
    } else if n == 2 {
        '2'
    } else if n == 3 {
        '3'
    } else if n == 4 {
        '4'
    } else if n == 5 {
        '5'
    } else if n == 6 {
        '6'
    } else if n == 7 {
        '7'
    } else if n == 8 {
        '8'
    } else if n == 9 {
        '9'
    } else if n == 10 {
        'a'
    } else if n == 11 {
        'b'
    } else if n == 12 {
        'c'
    } else if n == 13 {
        'd'
    } else if n == 14 {
        'e'
    } else {
        'f'
    }
}

/// Decimal form of a non-negative integer, most significant digit first.
pub open spec fn spec_dec(n: int) -> Seq<char>
    decreases n,
{
    if n < 10 {
        seq![spec_digit(n)]
    } else {
        spec_dec(n / 10).push(spec_digit(n % 10))
    }
}

/// Minimal-width lower-case hexadecimal form of a non-negative integer.
pub open spec fn spec_hex(n: int) -> Seq<char>
    decreases n,
{
    if n < 16 {
        seq![spec_digit(n)]
    } else {
        spec_hex(n / 16).push(spec_digit(n % 16))
    }
}

/// Render an unsigned integer in decimal.
pub fn u64_dec(n: u64) -> (r: String)
    ensures
        r@ == spec_dec(n as int),
    decreases n,
{
    if n < 10 {
        let mut s = String::new();
        string_push(&mut s, digit_char(n as u8));
        assert(s@ =~= spec_dec(n as int));
        s
    } else {
        let mut s = u64_dec(n / 10);
        string_push(&mut s, digit_char((n % 10) as u8));
        s
    }
}

/// Render an unsigned integer in minimal-width lower-case hexadecimal.
pub fn u64_hex(n: u64) -> (r: String)
    ensures
        r@ == spec_hex(n as int),
    decreases n,
{
    if n < 16 {
        let mut s = String::new();
        string_push(&mut s, digit_char(n as u8));
        assert(s@ =~= spec_hex(n as int));
        s
    } else {
        let mut s = u64_hex(n / 16);
        string_push(&mut s, digit_char((n % 16) as u8));
        s
    }
}

/// Two-digit lower-case hexadecimal form of one byte.
pub open spec fn spec_byte_hex(b: u8) -> Seq<char> {
    seq![spec_digit((b >> 4) as int), spec_digit((b & 0x0f) as int)]
}

/// Append the two-digit hexadecimal form of one byte.
pub fn push_byte_hex(s: &mut String, b: u8)
    ensures
        final(s)@ == old(s)@ + spec_byte_hex(b),
{
    assert(b >> 4 < 16 && b & 0x0f < 16) by (bit_vector);
    let hi = b >> 4;
    let lo = b & 0x0f;
    string_push(s, digit_char(hi));
    string_push(s, digit_char(lo));
    assert(s@ =~= old(s)@ + spec_byte_hex(b));
}

/// One unfolding step of `lex_le` below equal prefixes.
pub proof fn lemma_lex_le_step(a: Seq<int>, b: Seq<int>, i: int)
    requires
        0 <= i < a.len(),
        0 <= i < b.len(),
        a[i] == b[i],
    ensures
        lex_le(a.skip(i), b.skip(i)) == lex_le(a.skip(i + 1), b.skip(i + 1)),
{
    assert(a.skip(i).drop_first() =~= a.skip(i + 1));
    assert(b.skip(i).drop_first() =~= b.skip(i + 1));
    assert(a.skip(i)[0] == a[i]);
    assert(b.skip(i)[0] == b[i]);
}

/// The integer key sequence of a byte slice.
pub open spec fn byte_key(s: Seq<u8>) -> Seq<int> {
    s.map_values(|b: u8| b as int)
}

/// The integer key sequence of a 16-bit word slice.
pub open spec fn word_key(s: Seq<u16>) -> Seq<int> {
    s.map_values(|w: u16| w as int)
}

/// Lexicographic comparison of two equal-length byte slices.
pub fn bytes_lex_le(a: &[u8], b: &[u8]) -> (r: bool)
    requires
        a@.len() == b@.len(),
    ensures
        r == lex_le(byte_key(a@), byte_key(b@)),
{
    let ghost ka = byte_key(a@);
    let ghost kb = byte_key(b@);
    let n = a.len();
    assert(ka.skip(0) =~= ka && kb.skip(0) =~= kb);
    for i in 0..n
        invariant
            n == a@.len() == b@.len(),
            ka == byte_key(a@) && kb == byte_key(b@),
            lex_le(ka, kb) == lex_le(ka.skip(i as int), kb.skip(i as int)),
    {
        if a[i] != b[i] {
            assert(ka.skip(i as int)[0] == ka[i as int]);
            assert(kb.skip(i as int)[0] == kb[i as int]);
            return a[i] < b[i];
        }
        proof {
            lemma_lex_le_step(ka, kb, i as int);
        }
    }
    assert(ka.skip(n as int) =~= Seq::<int>::empty());
    true
}

/// Lexicographic comparison of two equal-length word slices.
pub fn words_lex_le(a: &[u16], b: &[u16]) -> (r: bool)
    requires
        a@.len() == b@.len(),
    ensures
        r == lex_le(word_key(a@), word_key(b@)),
{
    let ghost ka = word_key(a@);
    let ghost kb = word_key(b@);
    let n = a.len();
    assert(ka.skip(0) =~= ka && kb.skip(0) =~= kb);
    for i in 0..n
        invariant
            n == a@.len() == b@.len(),
            ka == word_key(a@) && kb == word_key(b@),
            lex_le(ka, kb) == lex_le(ka.skip(i as int), kb.skip(i as int)),
    {
        if a[i] != b[i] {
            assert(ka.skip(i as int)[0] == ka[i as int]);
            assert(kb.skip(i as int)[0] == kb[i as int]);
            return a[i] < b[i];
        }
        proof {
            lemma_lex_le_step(ka, kb, i as int);
        }
    }
    assert(ka.skip(n as int) =~= Seq::<int>::empty());
    true
}

/// Element-wise equality of two byte slices.
pub fn bytes_eq(a: &[u8], b: &[u8]) -> (r: bool)
    ensures
        r == (a@ == b@),
{
    if a.len() != b.len() {
        return false;
    }
    let n = a.len();
    for i in 0..n
        invariant
            n == a@.len() == b@.len(),
            forall|j: int| 0 <= j < i ==> a@[j] == b@[j],
    {
        if a[i] != b[i] {
            return false;
        }
    }
    assert(a@ =~= b@);
    true
}

/// Element-wise equality of two word slices.
pub fn words_eq(a: &[u16], b: &[u16]) -> (r: bool)
    ensures
        r == (a@ == b@),
{
    if a.len() != b.len() {
        return false;
    }
    let n = a.len();
    for i in 0..n
        invariant
            n == a@.len() == b@.len(),
            forall|j: int| 0 <= j < i ==> a@[j] == b@[j],
    {
        if a[i] != b[i] {
            return false;
        }
    }
    assert(a@ =~= b@);
    true
}

/// A 16-bit big-endian field at offset `i`.
pub open spec fn spec_be16(s: Seq<u8>, i: int) -> int {
    (s[i] as int) * 0x100 + (s[i + 1] as int)
}

/// A 32-bit big-endian field at offset `i`.
pub open spec fn spec_be32(s: Seq<u8>, i: int) -> int {
    (s[i] as int) * 0x1000000 + (s[i + 1] as int) * 0x10000 + (s[i + 2] as int) * 0x100 + (s[i
        + 3] as int)
}

/// A 16-bit little-endian field at offset `i`.
pub open spec fn spec_le16(s: Seq<u8>, i: int) -> int {
    (s[i + 1] as int) * 0x100 + (s[i] as int)
}

/// A 32-bit little-endian field at offset `i`.
pub open spec fn spec_le32(s: Seq<u8>, i: int) -> int {
    (s[i + 3] as int) * 0x1000000 + (s[i + 2] as int) * 0x10000 + (s[i + 1] as int) * 0x100 + (
    s[i] as int)
}

/// Read a 16-bit big-endian field.
pub fn read_be16(b: &[u8], i: usize) -> (v: u16)
    requires
        i + 2 <= b@.len(),
    ensures
        v as int == spec_be16(b@, i as int),
{
    (b[i] as u16) * 0x100 + (b[i + 1] as u16)
}

/// Read a 32-bit big-endian field.
pub fn read_be32(b: &[u8], i: usize) -> (v: u32)
    requires
        i + 4 <= b@.len(),
    ensures
        v as int == spec_be32(b@, i as int),
{
    (b[i] as u32) * 0x1000000 + (b[i + 1] as u32) * 0x10000 + (b[i + 2] as u32) * 0x100 + (b[i
        + 3] as u32)
}

/// Read a 16-bit little-endian field.
pub fn read_le16(b: &[u8], i: usize) -> (v: u16)
    requires
        i + 2 <= b@.len(),
    ensures
        v as int == spec_le16(b@, i as int),
{
    let lo = b[i] as u16;
    let hi = b[i + 1] as u16;
    hi * 0x100 + lo
}

/// Read a 32-bit little-endian field.
pub fn read_le32(b: &[u8], i: usize) -> (v: u32)
    requires
        i + 4 <= b@.len(),
    ensures
        v as int == spec_le32(b@, i as int),
{
    let b0 = b[i] as u32;
    let b1 = b[i + 1] as u32;
    let b2 = b[i + 2] as u32;
    let b3 = b[i + 3] as u32;
    b3 * 0x1000000 + b2 * 0x10000 + b1 * 0x100 + b0
}

} // verus!
