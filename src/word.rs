//! Packing of instruction words and offset operands.
use vstd::prelude::*;
use crate::machine::{immediate, opcode_of, priv_of, tag1, tag2, tag3, Args, OFFSET_MASK};

verus! {

/// Operand tag: an eight-byte integer immediate follows.
pub const TAG_INT: u8 = 81;

/// Operand tag: an eight-byte float immediate follows.
pub const TAG_DECIMAL: u8 = 82;

/// Operand tag: an eight-byte offset operand follows.
pub const TAG_OFFSET: u8 = 83;

/// The word `opcode:10 | op1:7 | op2:7 | op3:7 | priv:1`, most significant first.
pub open spec fn word_of(opcode: u32, t1: u8, t2: u8, t3: u8, privileged: bool) -> u32 {
    ((opcode << 22u32) | ((t1 as u32) << 15u32) | ((t2 as u32) << 8u32) | ((t3 as u32) << 1u32) | (
    if privileged {
        1u32
    } else {
        0u32
    })) as u32
}

/// Packs an opcode, three operand tags and the privilege bit into a word.
pub fn encode_word(opcode: u32, t1: u8, t2: u8, t3: u8, privileged: bool) -> (r: u32)
    requires
        opcode < 1024,
        t1 < 128,
        t2 < 128,
        t3 < 128,
    ensures
        r == word_of(opcode, t1, t2, t3, privileged),
        opcode_of(r) == opcode,
        tag1(r) == t1,
        tag2(r) == t2,
        tag3(r) == t3,
        priv_of(r) == privileged,
{
    let p: u32 = if privileged {
        1
    } else {
        0
    };
    let r = (opcode << 22u32) | ((t1 as u32) << 15u32) | ((t2 as u32) << 8u32) | ((t3 as u32) << 1u32) | p;
    proof {
        lemma_word_round_trip(opcode, t1, t2, t3, privileged);
    }
    r
}

/// The eight bytes of the offset operand `[reg + off]`: the base register in
/// the high 7 bits, the low 57 bits of `off` below.
pub open spec fn offset_of(reg: u8, off: u64) -> u64 {
    ((reg as u64) << 57u64) | (off & OFFSET_MASK)
}

/// Packs an offset operand.
pub fn encode_offset(reg: u8, off: u64) -> (r: u64)
    requires
        reg < 128,
    ensures
        r == offset_of(reg, off),
        immediate(TAG_OFFSET, r) == Args::OFFSET(reg, off & OFFSET_MASK),
{
    let r = ((reg as u64) << 57u64) | (off & OFFSET_MASK);
    proof {
        lemma_offset_round_trip(reg, off);
    }
    r
}

/// Decoding a packed word gives back its opcode, its three tags and its
/// privilege bit.
pub proof fn lemma_word_round_trip(opcode: u32, t1: u8, t2: u8, t3: u8, privileged: bool)
    requires
        opcode < 1024,
        t1 < 128,
        t2 < 128,
        t3 < 128,
    ensures
        opcode_of(word_of(opcode, t1, t2, t3, privileged)) == opcode,
        tag1(word_of(opcode, t1, t2, t3, privileged)) == t1,
        tag2(word_of(opcode, t1, t2, t3, privileged)) == t2,
        tag3(word_of(opcode, t1, t2, t3, privileged)) == t3,
        priv_of(word_of(opcode, t1, t2, t3, privileged)) == privileged,
{
    let p: u32 = if privileged {
        1
    } else {
        0
    };
    let (a, b, c) = (t1 as u32, t2 as u32, t3 as u32);
    let w = ((opcode << 22u32) | (a << 15u32) | (b << 8u32) | (c << 1u32) | p) as u32;
    assert(w >> 22u32 == opcode && ((w >> 15u32) & 127) == a && ((w >> 8u32) & 127) == b && ((w
        >> 1u32) & 127) == c && (w & 1 != 0) == (p == 1)) by (bit_vector)
        requires
            opcode < 1024,
            a < 128,
            b < 128,
            c < 128,
            p <= 1,
            w == ((opcode << 22u32) | (a << 15u32) | (b << 8u32) | (c << 1u32) | p),
    ;
}

/// Decoding a packed offset operand gives back its base register and the
/// low 57 bits of its displacement; all of it when the displacement fits.
pub proof fn lemma_offset_round_trip(reg: u8, off: u64)
    requires
        reg < 128,
    ensures
        immediate(TAG_OFFSET, offset_of(reg, off)) == Args::OFFSET(reg, off & OFFSET_MASK),
        off <= OFFSET_MASK ==> off & OFFSET_MASK == off,
{
    let r = reg as u64;
    let v = (r << 57u64) | (off & 0x01ff_ffff_ffff_ffffu64);
    assert((v >> 57u64) == r && (v & 0x01ff_ffff_ffff_ffffu64) == (off & 0x01ff_ffff_ffff_ffffu64))
        by (bit_vector)
        requires
            r < 128,
            v == (r << 57u64) | (off & 0x01ff_ffff_ffff_ffffu64),
    ;
    assert(off <= 0x01ff_ffff_ffff_ffffu64 ==> off & 0x01ff_ffff_ffff_ffffu64 == off) by (bit_vector);
}

} // verus!
