//! The wire format: how single values are laid out as bytes.
//!
//! Fixed-width integers are big-endian, signed ones in two's complement. A
//! size takes one, two or four bytes; the top bits of its first byte tell
//! which. Everything here is a function from values to values: the encoder
//! and the decoder are specified over these.
use vstd::prelude::*;

verus! {

/// The largest size that the format can hold: 30 bits, all set.
pub const MAX_SIZE: usize = 0x3FFF_FFFF;

/// The two bytes of a 16-bit unsigned integer, most significant first.
pub open spec fn be16(v: u16) -> Seq<u8> {
    seq![(v / 0x100) as u8, (v % 0x100) as u8]
}

/// The four bytes of a 32-bit unsigned integer, most significant first.
pub open spec fn be32(v: u32) -> Seq<u8> {
    seq![
        (v / 0x100_0000) as u8,
        (v / 0x1_0000 % 0x100) as u8,
        (v / 0x100 % 0x100) as u8,
        (v % 0x100) as u8,
    ]
}

/// The eight bytes of a 64-bit pattern: its upper half, then its lower half,
/// each as a 32-bit unsigned integer.
pub open spec fn be64(v: u64) -> Seq<u8> {
    be32((v / 0x1_0000_0000) as u32) + be32((v % 0x1_0000_0000) as u32)
}

/// The 16-bit unsigned integer that two bytes stand for.
pub open spec fn from_be16(s: Seq<u8>) -> u16
    recommends
        s.len() == 2,
{
    (s[0] * 0x100 + s[1]) as u16
}

/// The 32-bit unsigned integer that four bytes stand for.
pub open spec fn from_be32(s: Seq<u8>) -> u32
    recommends
        s.len() == 4,
{
    (s[0] * 0x100_0000 + s[1] * 0x1_0000 + s[2] * 0x100 + s[3]) as u32
}

/// The 64-bit pattern that eight bytes stand for.
pub open spec fn from_be64(s: Seq<u8>) -> u64
    recommends
        s.len() == 8,
{
    (from_be32(s.subrange(0, 4)) * 0x1_0000_0000 + from_be32(s.subrange(4, 8))) as u64
}

/// The byte that holds an 8-bit signed integer in two's complement.
pub open spec fn twos8(v: i8) -> u8 {
    if v < 0 {
        (v + 0x100) as u8
    } else {
        v as u8
    }
}

/// The 16-bit pattern of a signed integer in two's complement.
pub open spec fn twos16(v: i16) -> u16 {
    if v < 0 {
        (v + 0x1_0000) as u16
    } else {
        v as u16
    }
}

/// The 32-bit pattern of a signed integer in two's complement.
pub open spec fn twos32(v: i32) -> u32 {
    if v < 0 {
        (v + 0x1_0000_0000) as u32
    } else {
        v as u32
    }
}

/// The signed integer that a byte holds in two's complement.
pub open spec fn from_twos8(v: u8) -> i8 {
    if v >= 0x80 {
        (v - 0x100) as i8
    } else {
        v as i8
    }
}

/// The signed integer that a 16-bit pattern holds in two's complement.
pub open spec fn from_twos16(v: u16) -> i16 {
    if v >= 0x8000 {
        (v - 0x1_0000) as i16
    } else {
        v as i16
    }
}

/// The signed integer that a 32-bit pattern holds in two's complement.
pub open spec fn from_twos32(v: u32) -> i32 {
    if v >= 0x8000_0000 {
        (v - 0x1_0000_0000) as i32
    } else {
        v as i32
    }
}

/// The bytes of a size. Below 128 it is one byte, the size itself. Below
/// 16384 it is two bytes: the size as a 16-bit integer with the top bit set.
/// Otherwise it is four bytes: the size as a 32-bit integer with the two top
/// bits set.
pub open spec fn size_bytes(n: nat) -> Seq<u8>
    recommends
        n <= MAX_SIZE,
{
    if n < 0x80 {
        seq![n as u8]
    } else if n < 0x4000 {
        be16((n + 0x8000) as u16)
    } else {
        be32((n + 0xC000_0000) as u32)
    }
}

/// How many bytes a size takes, told by its first byte: one where the top bit
/// is clear, two where the top bits are `10`, four where they are `11`.
pub open spec fn size_width(first: u8) -> nat {
    if first < 0x80 {
        1
    } else if first < 0xC0 {
        2
    } else {
        4
    }
}

/// The size that the bytes of a size field stand for: the bits below the
/// signature, most significant first.
pub open spec fn size_value(s: Seq<u8>) -> nat
    recommends
        s.len() >= 1,
        s.len() == size_width(s[0]),
{
    if s[0] < 0x80 {
        s[0] as nat
    } else if s[0] < 0xC0 {
        (s[0] % 0x40 * 0x100 + s[1]) as nat
    } else {
        (s[0] % 0x40 * 0x100_0000 + s[1] * 0x1_0000 + s[2] * 0x100 + s[3]) as nat
    }
}

/// The value of one bit of a byte.
pub open spec fn bit_of(flag: bool) -> u8 {
    if flag {
        1
    } else {
        0
    }
}

/// Whether bit `k` of a byte is set, bit 0 being the least significant.
pub open spec fn bit_at(byte: u8, k: u8) -> bool {
    byte & (1u8 << k) == (1u8 << k)
}

/// A byte with bit `k` set where the flag holds, and otherwise unchanged.
pub open spec fn with_bit(byte: u8, k: u8, flag: bool) -> u8 {
    byte | (bit_of(flag) << k)
}

/// Whether a byte has no bit set at position `k` or above.
pub open spec fn below_bit(byte: u8, k: u8) -> bool {
    k >= 8 || byte < (1u8 << k)
}

/// The two bytes of a 16-bit integer stand for that integer.
pub proof fn lemma_be16_round_trip(v: u16)
    ensures
        from_be16(be16(v)) == v,
{
}

/// The four bytes of a 32-bit integer stand for that integer.
pub proof fn lemma_be32_round_trip(v: u32)
    ensures
        from_be32(be32(v)) == v,
{
    assert(v / 0x100_0000 * 0x100_0000 + v / 0x1_0000 % 0x100 * 0x1_0000 + v / 0x100 % 0x100
        * 0x100 + v % 0x100 == v) by (bit_vector);
}

/// The eight bytes of a 64-bit pattern stand for that pattern.
pub proof fn lemma_be64_round_trip(v: u64)
    ensures
        from_be64(be64(v)) == v,
{
    let high = (v / 0x1_0000_0000) as u32;
    let low = (v % 0x1_0000_0000) as u32;
    lemma_be32_round_trip(high);
    lemma_be32_round_trip(low);
    assert(be64(v).subrange(0, 4) =~= be32(high));
    assert(be64(v).subrange(4, 8) =~= be32(low));
}

/// A signed integer is read back from its two's complement.
pub proof fn lemma_twos_round_trip(a: i8, b: i16, c: i32)
    ensures
        from_twos8(twos8(a)) == a,
        from_twos16(twos16(b)) == b,
        from_twos32(twos32(c)) == c,
{
}

/// The bytes of a size are one, two or four by its magnitude, as many as
/// their first byte tells, and stand for that size.
pub proof fn lemma_size_round_trip(n: nat)
    requires
        n <= MAX_SIZE,
    ensures
        size_bytes(n).len() == if n < 0x80 {
            1nat
        } else if n < 0x4000 {
            2nat
        } else {
            4nat
        },
        size_bytes(n).len() == size_width(size_bytes(n)[0]),
        size_value(size_bytes(n)) == n,
{
    if n < 0x80 {
    } else if n < 0x4000 {
        let v = (n + 0x8000) as u16;
        assert(v / 0x100 % 0x40 * 0x100 + v % 0x100 == v - 0x8000 && 0x80 <= v / 0x100 < 0xC0)
            by (bit_vector)
            requires
                0x8080 <= v < 0xC000,
        ;
    } else {
        let v = (n + 0xC000_0000) as u32;
        assert(v / 0x100_0000 % 0x40 * 0x100_0000 + v / 0x1_0000 % 0x100 * 0x1_0000 + v / 0x100
            % 0x100 * 0x100 + v % 0x100 == v - 0xC000_0000 && 0xC0 <= v / 0x100_0000)
            by (bit_vector)
            requires
                0xC000_4000 <= v,
        ;
    }
}

/// A bit that was put into a byte with nothing at its position or above is
/// read back as it was put, and the byte then has nothing above it.
pub proof fn lemma_with_bit_reads_back(byte: u8, k: u8, flag: bool)
    requires
        k < 8,
        below_bit(byte, k),
    ensures
        bit_at(with_bit(byte, k, flag), k) == flag,
        below_bit(with_bit(byte, k, flag), (k + 1) as u8),
{
    let bit = bit_of(flag);
    assert(k < 8 && byte < (1u8 << k) && (bit == 0 || bit == 1) ==> (((byte | (bit << k)) & (1u8
        << k) == (1u8 << k)) <==> bit == 1)) by (bit_vector);
    assert(k < 7 && byte < (1u8 << k) && (bit == 0 || bit == 1) ==> (byte | (bit << k)) < (1u8
        << ((k + 1) as u8))) by (bit_vector);
}

/// Putting a bit into a byte leaves the bits at the other positions as they
/// were.
pub proof fn lemma_with_bit_keeps_others(byte: u8, k: u8, flag: bool, j: u8)
    requires
        k < 8,
        j < 8,
        j != k,
    ensures
        bit_at(with_bit(byte, k, flag), j) == bit_at(byte, j),
{
    let bit = bit_of(flag);
    assert(k < 8 && j < 8 && j != k && (bit == 0 || bit == 1) ==> (((byte | (bit << k)) & (1u8
        << j) == (1u8 << j)) <==> (byte & (1u8 << j) == (1u8 << j)))) by (bit_vector);
}

/// The byte that starts a run of booleans holds the first of them in bit 0
/// and nothing above it.
pub proof fn lemma_first_bit(flag: bool)
    ensures
        bit_at(bit_of(flag), 0) == flag,
        below_bit(bit_of(flag), 1),
{
    assert(1u8 << 0u8 == 1 && 1u8 << 1u8 == 2 && 0u8 & 1 == 0 && 1u8 & 1 == 1) by (bit_vector);
}

/// Shifting and masking a 16-bit integer gives its two big-endian bytes.
pub(crate) proof fn lemma_split16(v: u16)
    ensures
        v >> 8 == v / 0x100,
        v & 0xFF == v % 0x100,
{
    assert(v >> 8 == v / 0x100) by (bit_vector);
    assert(v & 0xFF == v % 0x100) by (bit_vector);
}

/// Shifting and masking a 32-bit integer gives its four big-endian bytes.
pub(crate) proof fn lemma_split32(v: u32)
    ensures
        v >> 24 == v / 0x100_0000,
        (v >> 16) & 0xFF == v / 0x1_0000 % 0x100,
        (v >> 8) & 0xFF == v / 0x100 % 0x100,
        v & 0xFF == v % 0x100,
{
    assert(v >> 24 == v / 0x100_0000) by (bit_vector);
    assert((v >> 16) & 0xFF == v / 0x1_0000 % 0x100) by (bit_vector);
    assert((v >> 8) & 0xFF == v / 0x100 % 0x100) by (bit_vector);
    assert(v & 0xFF == v % 0x100) by (bit_vector);
}

/// Shifting and masking a 64-bit pattern gives its two halves.
pub(crate) proof fn lemma_split64(v: u64)
    ensures
        v >> 32 == v / 0x1_0000_0000,
        v & 0xFFFF_FFFF == v % 0x1_0000_0000,
{
    assert(v >> 32 == v / 0x1_0000_0000) by (bit_vector);
    assert(v & 0xFFFF_FFFF == v % 0x1_0000_0000) by (bit_vector);
}

/// Joining two bytes by shift and or gives the integer they stand for.
pub(crate) proof fn lemma_join16(b0: u8, b1: u8)
    ensures
        (b0 as u16) << 8 | (b1 as u16) == b0 * 0x100 + b1,
{
    assert((b0 as u16) << 8 | (b1 as u16) == b0 * 0x100 + b1) by (bit_vector);
}

/// Joining four bytes by shift and or gives the integer they stand for.
pub(crate) proof fn lemma_join32(b0: u8, b1: u8, b2: u8, b3: u8)
    ensures
        (b0 as u32) << 24 | (b1 as u32) << 16 | (b2 as u32) << 8 | (b3 as u32) == b0 * 0x100_0000
            + b1 * 0x1_0000 + b2 * 0x100 + b3,
{
    assert((b0 as u32) << 24 | (b1 as u32) << 16 | (b2 as u32) << 8 | (b3 as u32) == b0
        * 0x100_0000 + b1 * 0x1_0000 + b2 * 0x100 + b3) by (bit_vector);
}

/// Joining two 32-bit halves by shift and or gives the 64-bit pattern.
pub(crate) proof fn lemma_join64(high: u32, low: u32)
    ensures
        (high as u64) << 32 | (low as u64) == high * 0x1_0000_0000 + low,
{
    assert((high as u64) << 32 | (low as u64) == high * 0x1_0000_0000 + low) by (bit_vector);
}

/// Casting a signed 8-bit integer to the unsigned type gives its two's
/// complement.
pub(crate) proof fn lemma_unsigned8(v: i8)
    ensures
        v as u8 == twos8(v),
{
    assert(v as u8 == if v < 0 { (v + 0x100) as u8 } else { v as u8 }) by (bit_vector);
}

/// Casting a signed 16-bit integer to the unsigned type gives its two's
/// complement.
pub(crate) proof fn lemma_unsigned16(v: i16)
    ensures
        v as u16 == twos16(v),
{
    assert(v as u16 == if v < 0 { (v + 0x1_0000) as u16 } else { v as u16 }) by (bit_vector);
}

/// Casting a signed 32-bit integer to the unsigned type gives its two's
/// complement.
pub(crate) proof fn lemma_unsigned32(v: i32)
    ensures
        v as u32 == twos32(v),
{
    assert(v as u32 == if v < 0 { (v + 0x1_0000_0000) as u32 } else { v as u32 })
        by (bit_vector);
}

/// Casting a byte to the signed type reads it in two's complement.
pub(crate) proof fn lemma_signed8(v: u8)
    ensures
        v as i8 == from_twos8(v),
{
    assert(v as i8 == if v >= 0x80 { (v - 0x100) as i8 } else { v as i8 }) by (bit_vector);
}

/// Casting a 16-bit pattern to the signed type reads it in two's complement.
pub(crate) proof fn lemma_signed16(v: u16)
    ensures
        v as i16 == from_twos16(v),
{
    assert(v as i16 == if v >= 0x8000 { (v - 0x1_0000) as i16 } else { v as i16 })
        by (bit_vector);
}

/// Casting a 32-bit pattern to the signed type reads it in two's complement.
pub(crate) proof fn lemma_signed32(v: u32)
    ensures
        v as i32 == from_twos32(v),
{
    assert(v as i32 == if v >= 0x8000_0000 { (v - 0x1_0000_0000) as i32 } else { v as i32 })
        by (bit_vector);
}

/// Setting the signature bit of a two-byte size adds its value.
pub(crate) proof fn lemma_signature16(size: u16)
    requires
        size < 0x4000,
    ensures
        size | 0x8000 == size + 0x8000,
{
    assert(size < 0x4000 ==> size | 0x8000 == size + 0x8000) by (bit_vector);
}

/// Setting the signature bits of a four-byte size adds their value.
pub(crate) proof fn lemma_signature32(size: u32)
    requires
        size <= 0x3FFF_FFFF,
    ensures
        size | 0xC000_0000 == size + 0xC000_0000,
{
    assert(size <= 0x3FFF_FFFF ==> size | 0xC000_0000 == size + 0xC000_0000) by (bit_vector);
}

/// The signature of a size and the bits below it, by shift and mask.
pub(crate) proof fn lemma_size_prefix(first: u8)
    ensures
        first & 128 == 0 <==> first < 0x80,
        first >= 0x80 ==> (first >> 6 == 2 <==> first < 0xC0),
        first & 63 == first % 0x40,
{
    assert(first & 128 == 0 <==> first < 0x80) by (bit_vector);
    assert(first >= 0x80 ==> (first >> 6 == 2 <==> first < 0xC0)) by (bit_vector);
    assert(first & 63 == first % 0x40) by (bit_vector);
}

/// Bit 0 of a byte, by mask.
pub(crate) proof fn lemma_bit_zero(byte: u8)
    ensures
        bit_at(byte, 0) <==> byte & 1 == 1,
{
    assert(1u8 << 0u8 == 1) by (bit_vector);
}

} // verus!
