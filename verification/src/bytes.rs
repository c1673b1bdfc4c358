//! Little-endian packing of fixed-width integers.
//!
//! Every integer on the wire is little-endian. The spec functions here say
//! what the bytes of a value are in plain arithmetic; the executable
//! functions compute them with shifts and masks and are proved to agree.

use vstd::prelude::*;

verus! {

/// The two bytes of `x`, least significant first.
pub open spec fn u16_le(x: u16) -> Seq<u8> {
    seq![(x as int % 256) as u8, (x as int / 256) as u8]
}

/// The value whose two little-endian bytes are `b0`, `b1`.
pub open spec fn u16_of(b0: u8, b1: u8) -> u16 {
    (b0 as int + 256 * (b1 as int)) as u16
}

/// The 16-bit pattern that stands for `x` in two's complement.
pub open spec fn i16_bits(x: i16) -> u16 {
    if x >= 0 {
        x as u16
    } else {
        (x as int + 65536) as u16
    }
}

/// The signed value that the 16-bit pattern `u` stands for.
pub open spec fn i16_of_bits(u: u16) -> i16 {
    if u < 32768 {
        u as i16
    } else {
        (u as int - 65536) as i16
    }
}

/// The two bytes of `x` in two's complement, least significant first.
pub open spec fn i16_le(x: i16) -> Seq<u8> {
    u16_le(i16_bits(x))
}

/// The signed value whose two little-endian bytes are `b0`, `b1`.
pub open spec fn i16_of(b0: u8, b1: u8) -> i16 {
    i16_of_bits(u16_of(b0, b1))
}

/// The four bytes of `x`, least significant first.
pub open spec fn u32_le(x: u32) -> Seq<u8> {
    seq![
        (x as int % 256) as u8,
        (x as int / 256 % 256) as u8,
        (x as int / 65536 % 256) as u8,
        (x as int / 16777216) as u8,
    ]
}

/// The value whose four little-endian bytes are `b0` to `b3`.
pub open spec fn u32_of(b0: u8, b1: u8, b2: u8, b3: u8) -> u32 {
    (b0 as int + 256 * (b1 as int) + 65536 * (b2 as int) + 16777216 * (b3 as int)) as u32
}

/// The value that the first four bytes of `s` hold.
pub open spec fn u32_at(s: Seq<u8>, at: int) -> u32
    recommends
        0 <= at,
        at + 4 <= s.len(),
{
    u32_of(s[at], s[at + 1], s[at + 2], s[at + 3])
}

/// Packing then unpacking a `u16` gives the value back, and the other way
/// round gives the bytes back.
pub proof fn lemma_u16_round_trip(x: u16, b0: u8, b1: u8)
    ensures
        u16_of(u16_le(x)[0], u16_le(x)[1]) == x,
        u16_le(u16_of(b0, b1)) == seq![b0, b1],
{
    assert(u16_le(u16_of(b0, b1)) =~= seq![b0, b1]);
}

/// Packing then unpacking an `i16` gives the value back, and the other way
/// round gives the bytes back.
pub proof fn lemma_i16_round_trip(x: i16, b0: u8, b1: u8)
    ensures
        i16_of(i16_le(x)[0], i16_le(x)[1]) == x,
        i16_le(i16_of(b0, b1)) == seq![b0, b1],
{
    lemma_u16_round_trip(i16_bits(x), b0, b1);
    assert(i16_bits(i16_of_bits(u16_of(b0, b1))) == u16_of(b0, b1));
    assert(i16_le(i16_of(b0, b1)) =~= seq![b0, b1]);
}

/// Packing then unpacking a `u32` gives the value back, and the other way
/// round gives the bytes back.
pub proof fn lemma_u32_round_trip(x: u32, b0: u8, b1: u8, b2: u8, b3: u8)
    ensures
        u32_of(u32_le(x)[0], u32_le(x)[1], u32_le(x)[2], u32_le(x)[3]) == x,
        u32_le(u32_of(b0, b1, b2, b3)) == seq![b0, b1, b2, b3],
{
    assert(u32_le(u32_of(b0, b1, b2, b3)) =~= seq![b0, b1, b2, b3]);
}

/// Splits `x` into its two little-endian bytes.
pub fn pack_u16(x: u16) -> (b: [u8; 2])
    ensures
        b@ == u16_le(x),
{
    let b0: u8 = (x & 0xff) as u8;
    let b1: u8 = (x >> 8) as u8;
    assert((x & 0xff) as u8 == (x as int % 256) as u8) by (bit_vector);
    assert((x >> 8) as u8 == (x as int / 256) as u8) by (bit_vector);
    let b = [b0, b1];
    assert(b@ =~= u16_le(x));
    b
}

/// Joins two little-endian bytes into a `u16`.
pub fn unpack_u16(b0: u8, b1: u8) -> (x: u16)
    ensures
        x == u16_of(b0, b1),
{
    assert(((b0 as u16) | ((b1 as u16) << 8)) == (b0 as int + 256 * (b1 as int)) as u16)
        by (bit_vector);
    (b0 as u16) | ((b1 as u16) << 8)
}

/// Splits `x` into its two little-endian bytes, in two's complement.
pub fn pack_i16(x: i16) -> (b: [u8; 2])
    ensures
        b@ == i16_le(x),
{
    assert(x as u16 == (if x >= 0 {
        x as u16
    } else {
        (x as int + 65536) as u16
    })) by (bit_vector);
    pack_u16(x as u16)
}

/// Joins two little-endian bytes into an `i16`, in two's complement.
pub fn unpack_i16(b0: u8, b1: u8) -> (x: i16)
    ensures
        x == i16_of(b0, b1),
{
    let u: u16 = unpack_u16(b0, b1);
    assert(u as i16 == (if u < 32768 {
        u as i16
    } else {
        (u as int - 65536) as i16
    })) by (bit_vector);
    u as i16
}

/// Splits `x` into its four little-endian bytes.
pub fn pack_u32(x: u32) -> (b: [u8; 4])
    ensures
        b@ == u32_le(x),
{
    let b0: u8 = (x & 0xff) as u8;
    let b1: u8 = ((x >> 8) & 0xff) as u8;
    let b2: u8 = ((x >> 16) & 0xff) as u8;
    let b3: u8 = (x >> 24) as u8;
    assert((x & 0xff) as u8 == (x as int % 256) as u8) by (bit_vector);
    assert(((x >> 8) & 0xff) as u8 == (x as int / 256 % 256) as u8) by (bit_vector);
    assert(((x >> 16) & 0xff) as u8 == (x as int / 65536 % 256) as u8) by (bit_vector);
    assert((x >> 24) as u8 == (x as int / 16777216) as u8) by (bit_vector);
    let b = [b0, b1, b2, b3];
    assert(b@ =~= u32_le(x));
    b
}

/// Joins four little-endian bytes into a `u32`.
pub fn unpack_u32(b0: u8, b1: u8, b2: u8, b3: u8) -> (x: u32)
    ensures
        x == u32_of(b0, b1, b2, b3),
{
    assert(((b0 as u32) | ((b1 as u32) << 8) | ((b2 as u32) << 16) | ((b3 as u32) << 24)) == (b0 as int
        + 256 * (b1 as int) + 65536 * (b2 as int) + 16777216 * (b3 as int)) as u32)
        by (bit_vector);
    (b0 as u32) | ((b1 as u32) << 8) | ((b2 as u32) << 16) | ((b3 as u32) << 24)
}

} // verus!
