//! The register file: twenty 64-bit cells seen through byte, halfword, word
//! and full views, plus the stack pointer and the flags register.
use vstd::prelude::*;

verus! {

/// Number of register ids: `0..=81`.
pub const REG_COUNT: u64 = 82;

/// Register id of the stack pointer.
pub const SP: u64 = 80;

/// Register id of the flags register.
pub const FLAGS: u64 = 81;

/// Bit of the flags register set by a compare that found its operands equal.
pub const FLAG_EQUAL: u64 = 1;

/// Bit of the flags register set by a compare whose first operand was greater.
pub const FLAG_GREATER: u64 = 2;

/// Bit of the flags register set by a compare whose first operand was less.
pub const FLAG_LESS: u64 = 4;

/// Bit of the flags register that turns memory permission checks on.
pub const FLAG_PRIVILEGE: u64 = 8;

/// The storage cell behind register id `i`.
pub open spec fn cell_of(i: u64) -> int {
    if i < 20 {
        i as int
    } else if i < 40 {
        i - 20
    } else if i < 60 {
        i - 40
    } else {
        i - 60
    }
}

/// The bits of its cell that register id `i` shows.
pub open spec fn view_mask(i: u64) -> u64 {
    if i < 20 {
        0xff
    } else if i < 40 {
        0xffff
    } else if i < 60 {
        0xffff_ffff
    } else {
        0xffff_ffff_ffff_ffff
    }
}

/// What register id `i` reads from the cells `c`.
pub open spec fn reg_value(c: Seq<u64>, i: u64) -> u64 {
    c[cell_of(i)] & view_mask(i)
}

/// The cells after writing `v` through register id `i`: the bits outside the
/// view keep their value, those inside take the low bits of `v`.
pub open spec fn reg_update(c: Seq<u64>, i: u64, v: u64) -> Seq<u64> {
    c.update(cell_of(i), (c[cell_of(i)] & !view_mask(i)) | (v & view_mask(i)))
}

/// The cells of the register file: 0..20 general, 20 the stack pointer,
/// 21 the flags.
pub struct Regs(pub [u64; 22]);

impl Regs {
    /// A register file with every cell zero.
    pub fn new() -> (r: Self)
        ensures
            forall|k: int| 0 <= k < 22 ==> r.0@[k] == 0,
    {
        Self([0u64; 22])
    }

    /// Reads register id `idx` through its view.
    pub fn get(&self, idx: u64) -> (r: u64)
        requires
            idx < REG_COUNT,
        ensures
            r == reg_value(self.0@, idx),
            r & !view_mask(idx) == 0,
    {
        let (cell, mask) = if idx < 20 {
            (idx as usize, 0xffu64)
        } else if idx < 40 {
            ((idx - 20) as usize, 0xffffu64)
        } else if idx < 60 {
            ((idx - 40) as usize, 0xffff_ffffu64)
        } else {
            ((idx - 60) as usize, 0xffff_ffff_ffff_ffffu64)
        };
        let r = self.0[cell] & mask;
        proof {
            lemma_masked_fits(self.0@[cell as int], mask);
        }
        r
    }

    /// Writes `val` through register id `idx`: a narrow view changes only its
    /// own bits of the cell.
    pub fn set(&mut self, idx: u64, val: u64)
        requires
            idx < REG_COUNT,
        ensures
            final(self).0@ == reg_update(old(self).0@, idx, val),
    {
        let (cell, mask) = if idx < 20 {
            (idx as usize, 0xffu64)
        } else if idx < 40 {
            ((idx - 20) as usize, 0xffffu64)
        } else if idx < 60 {
            ((idx - 40) as usize, 0xffff_ffffu64)
        } else {
            ((idx - 60) as usize, 0xffff_ffff_ffff_ffffu64)
        };
        let v = (self.0[cell] & !mask) | (val & mask);
        self.0[cell] = v;
    }
}

proof fn lemma_masked_fits(x: u64, mask: u64)
    ensures
        (x & mask) & !mask == 0,
{
    assert((x & mask) & !mask == 0) by (bit_vector);
}

/// Every register id reads a value no wider than its view.
pub proof fn lemma_value_fits_view(c: Seq<u64>, i: u64)
    requires
        c.len() == 22,
        i < REG_COUNT,
    ensures
        reg_value(c, i) & !view_mask(i) == 0,
        reg_value(c, i) <= view_mask(i),
{
    let x = c[cell_of(i)];
    let m = view_mask(i);
    assert((x & m) & !m == 0) by (bit_vector);
    assert((x & m) <= m) by (bit_vector);
}

/// After writing `v` through id `i`, id `i` reads `v` cut to its view, and
/// every id backed by another cell reads what it read before.
pub proof fn lemma_set_then_get(c: Seq<u64>, i: u64, v: u64, j: u64)
    requires
        c.len() == 22,
        i < REG_COUNT,
        j < REG_COUNT,
    ensures
        reg_value(reg_update(c, i, v), i) == v & view_mask(i),
        cell_of(j) != cell_of(i) ==> reg_value(reg_update(c, i, v), j) == reg_value(c, j),
        cell_of(j) == cell_of(i) ==> reg_value(reg_update(c, i, v), j) == ((c[cell_of(i)]
            & !view_mask(i)) | (v & view_mask(i))) & view_mask(j),
{
    let x = c[cell_of(i)];
    let m = view_mask(i);
    assert(((x & !m) | (v & m)) & m == v & m) by (bit_vector);
}

} // verus!
