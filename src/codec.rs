//! Fixed little-endian conversions between integers and bytes.
use vstd::prelude::*;

verus! {

/// The integer held little-endian in the first two bytes of `b`.
pub open spec fn le_u16(b: Seq<u8>) -> u16 {
    ((b[0] as u16) | ((b[1] as u16) << 8u16)) as u16
}

/// The integer held little-endian in the first four bytes of `b`.
pub open spec fn le_u32(b: Seq<u8>) -> u32 {
    ((b[0] as u32) | ((b[1] as u32) << 8u32) | ((b[2] as u32) << 16u32) | ((b[3] as u32)
        << 24u32)) as u32
}

/// The integer held little-endian in the first eight bytes of `b`.
pub open spec fn le_u64(b: Seq<u8>) -> u64 {
    ((b[0] as u64) | ((b[1] as u64) << 8u64) | ((b[2] as u64) << 16u64) | ((b[3] as u64)
        << 24u64) | ((b[4] as u64) << 32u64) | ((b[5] as u64) << 40u64) | ((b[6] as u64)
        << 48u64) | ((b[7] as u64) << 56u64)) as u64
}

/// The eight bytes of `x`, least significant first.
pub open spec fn u64_bytes(x: u64) -> Seq<u8> {
    seq![
        (x & 0xff) as u8,
        ((x >> 8u64) & 0xff) as u8,
        ((x >> 16u64) & 0xff) as u8,
        ((x >> 24u64) & 0xff) as u8,
        ((x >> 32u64) & 0xff) as u8,
        ((x >> 40u64) & 0xff) as u8,
        ((x >> 48u64) & 0xff) as u8,
        ((x >> 56u64) & 0xff) as u8,
    ]
}

/// The four bytes of `x`, least significant first.
pub open spec fn u32_bytes(x: u32) -> Seq<u8> {
    u64_bytes(x as u64).subrange(0, 4)
}

/// The two bytes of `x`, least significant first.
pub open spec fn u16_bytes(x: u16) -> Seq<u8> {
    u64_bytes(x as u64).subrange(0, 2)
}

/// Reads a little-endian `u64` from the first eight bytes of `buf`.
pub fn make_u64(buf: &[u8]) -> (r: u64)
    requires
        buf@.len() >= 8,
    ensures
        r == le_u64(buf@),
{
    let mut num: u64 = 0;
    num = num | ((buf[7] as u64) << 56u64);
    num = num | ((buf[6] as u64) << 48u64);
    num = num | ((buf[5] as u64) << 40u64);
    num = num | ((buf[4] as u64) << 32u64);
    num = num | ((buf[3] as u64) << 24u64);
    num = num | ((buf[2] as u64) << 16u64);
    num = num | ((buf[1] as u64) << 8u64);
    num = num | (buf[0] as u64);
    let ghost b = buf@;
    let (b0, b1, b2, b3, b4, b5, b6, b7) = (buf[0], buf[1], buf[2], buf[3], buf[4], buf[5], buf[6], buf[7]);
    assert(num == ((b0 as u64) | ((b1 as u64) << 8u64) | ((b2 as u64) << 16u64) | ((b3 as u64)
        << 24u64) | ((b4 as u64) << 32u64) | ((b5 as u64) << 40u64) | ((b6 as u64) << 48u64) | ((
    b7 as u64) << 56u64))) by (bit_vector)
        requires
            num == ((((((((0u64 | ((b7 as u64) << 56u64)) | ((b6 as u64) << 48u64)) | ((b5 as u64)
                << 40u64)) | ((b4 as u64) << 32u64)) | ((b3 as u64) << 24u64)) | ((b2 as u64)
                << 16u64)) | ((b1 as u64) << 8u64)) | (b0 as u64)),
    ;
    num
}

/// Reads a little-endian `u32` from the first four bytes of `buf`.
pub fn make_u32(buf: &[u8]) -> (r: u32)
    requires
        buf@.len() >= 4,
    ensures
        r == le_u32(buf@),
{
    let (b0, b1, b2, b3) = (buf[0], buf[1], buf[2], buf[3]);
    let mut num: u32 = 0;
    num = num | ((b3 as u32) << 24u32);
    num = num | ((b2 as u32) << 16u32);
    num = num | ((b1 as u32) << 8u32);
    num = num | (b0 as u32);
    assert(num == ((b0 as u32) | ((b1 as u32) << 8u32) | ((b2 as u32) << 16u32) | ((b3 as u32)
        << 24u32))) by (bit_vector)
        requires
            num == ((((0u32 | ((b3 as u32) << 24u32)) | ((b2 as u32) << 16u32)) | ((b1 as u32)
                << 8u32)) | (b0 as u32)),
    ;
    num
}

/// Reads a little-endian `u16` from the first two bytes of `buf`.
pub fn make_u16(buf: &[u8]) -> (r: u16)
    requires
        buf@.len() >= 2,
    ensures
        r == le_u16(buf@),
{
    let (b0, b1) = (buf[0], buf[1]);
    let mut num: u16 = 0;
    num = num | ((b1 as u16) << 8u16);
    num = num | (b0 as u16);
    assert(num == ((b0 as u16) | ((b1 as u16) << 8u16))) by (bit_vector)
        requires
            num == ((0u16 | ((b1 as u16) << 8u16)) | (b0 as u16)),
    ;
    num
}

/// The eight little-endian bytes of `buf`.
pub fn u64_to_u8(buf: u64) -> (r: [u8; 8])
    ensures
        r@ == u64_bytes(buf),
{
    let r = [
        (buf & 0xff) as u8,
        ((buf >> 8u64) & 0xff) as u8,
        ((buf >> 16u64) & 0xff) as u8,
        ((buf >> 24u64) & 0xff) as u8,
        ((buf >> 32u64) & 0xff) as u8,
        ((buf >> 40u64) & 0xff) as u8,
        ((buf >> 48u64) & 0xff) as u8,
        ((buf >> 56u64) & 0xff) as u8,
    ];
    assert(r@ =~= u64_bytes(buf));
    r
}

/// Decoding the bytes of `x` gives `x` back.
pub proof fn lemma_u64_round_trip(x: u64)
    ensures
        le_u64(u64_bytes(x)) == x,
{
    let b = u64_bytes(x);
    assert(((((x) & 0xff) as u8) as u64) | (((((x >> 8u64) & 0xff) as u8) as u64)
        << 8u64) | (((((x >> 16u64) & 0xff) as u8) as u64) << 16u64) | (((((x >> 24u64) & 0xff)
        as u8) as u64) << 24u64) | (((((x >> 32u64) & 0xff) as u8) as u64) << 32u64) | (((((x
        >> 40u64) & 0xff) as u8) as u64) << 40u64) | (((((x >> 48u64) & 0xff) as u8) as u64)
        << 48u64) | (((((x >> 56u64) & 0xff) as u8) as u64) << 56u64) == x) by (bit_vector);
}

/// Decoding the four bytes of `x` gives `x` back.
pub proof fn lemma_u32_round_trip(x: u32)
    ensures
        le_u32(u32_bytes(x)) == x,
{
    let y = x as u64;
    assert(((((y & 0xff) as u8) as u32) | (((((y >> 8u64) & 0xff) as u8) as u32) << 8u32) | (((((y
        >> 16u64) & 0xff) as u8) as u32) << 16u32) | (((((y >> 24u64) & 0xff) as u8) as u32)
        << 24u32)) == x) by (bit_vector)
        requires
            y == x as u64,
    ;
}

/// Decoding the two bytes of `x` gives `x` back.
pub proof fn lemma_u16_round_trip(x: u16)
    ensures
        le_u16(u16_bytes(x)) == x,
{
    let y = x as u64;
    assert(((((y & 0xff) as u8) as u16) | (((((y >> 8u64) & 0xff) as u8) as u16) << 8u16)) == x)
        by (bit_vector)
        requires
            y == x as u64,
    ;
}

/// Encoding the integer held in eight bytes gives those bytes back.
pub proof fn lemma_u64_bytes_of_le(b: Seq<u8>)
    requires
        b.len() == 8,
    ensures
        u64_bytes(le_u64(b)) == b,
{
    let (b0, b1, b2, b3, b4, b5, b6, b7) = (b[0], b[1], b[2], b[3], b[4], b[5], b[6], b[7]);
    let x = le_u64(b);
    assert(x == ((b0 as u64) | ((b1 as u64) << 8u64) | ((b2 as u64) << 16u64) | ((b3 as u64)
        << 24u64) | ((b4 as u64) << 32u64) | ((b5 as u64) << 40u64) | ((b6 as u64) << 48u64) | ((
    b7 as u64) << 56u64)));
    assert((x & 0xff) as u8 == b0 && ((x >> 8u64) & 0xff) as u8 == b1 && ((x >> 16u64) & 0xff) as u8
        == b2 && ((x >> 24u64) & 0xff) as u8 == b3 && ((x >> 32u64) & 0xff) as u8 == b4 && ((x
        >> 40u64) & 0xff) as u8 == b5 && ((x >> 48u64) & 0xff) as u8 == b6 && ((x >> 56u64)
        & 0xff) as u8 == b7) by (bit_vector)
        requires
            x == ((b0 as u64) | ((b1 as u64) << 8u64) | ((b2 as u64) << 16u64) | ((b3 as u64)
                << 24u64) | ((b4 as u64) << 32u64) | ((b5 as u64) << 40u64) | ((b6 as u64)
                << 48u64) | ((b7 as u64) << 56u64)),
    ;
    assert(u64_bytes(x) =~= b);
}

} // verus!
