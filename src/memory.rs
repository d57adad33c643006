//! Permission-checked reads and writes of the processor's memory.
use vstd::prelude::*;
use mmap_rs::MmapMut;
use crate::buffer::{buffer_byte, buffer_len, mapped_bytes, set_buffer_byte};
use crate::codec::{make_u32, make_u64};
use crate::cpu::Cpu;
use crate::machine::{access_spec, checks_on, load4_spec, load8_spec, overwrite, read_spec, write_spec, CpuState, Fatal, Fault};
use crate::segment::{check_areas, first_cover, first_denial, lacks, segment_of, READ, WRITE};

verus! {

/// Copies `buf` into the mapping from `addr` on.
pub(crate) fn copy_into(m: &mut MmapMut, addr: usize, buf: &[u8])
    requires
        addr + buf@.len() <= mapped_bytes(*old(m)).len(),
    ensures
        mapped_bytes(*final(m)) == overwrite(mapped_bytes(*old(m)), addr as int, buf@),
{
    let ghost m0 = mapped_bytes(*m);
    // The mapping's length fits a usize, so no index below overflows.
    let _len = buffer_len(m);
    let mut k: usize = 0;
    while k < buf.len()
        invariant
            k <= buf@.len(),
            m0.len() <= usize::MAX,
            addr + buf@.len() <= m0.len(),
            mapped_bytes(*m) =~= Seq::new(
                m0.len(),
                |i: int|
                    if addr <= i < addr + k {
                        buf@[i - addr]
                    } else {
                        m0[i]
                    },
            ),
        decreases buf@.len() - k,
    {
        set_buffer_byte(m, addr + k, buf[k]);
        k = k + 1;
    }
    assert(mapped_bytes(*m) =~= overwrite(m0, addr as int, buf@));
}

/// Copies `len` bytes of the mapping from `addr` on.
fn copy_from(m: &MmapMut, addr: usize, len: usize) -> (r: Vec<u8>)
    requires
        addr + len <= mapped_bytes(*m).len(),
    ensures
        r@ == mapped_bytes(*m).subrange(addr as int, addr + len),
{
    // The mapping's length fits a usize, so no index below overflows.
    let _len = buffer_len(m);
    let mut v: Vec<u8> = Vec::new();
    let mut k: usize = 0;
    while k < len
        invariant
            k <= len,
            mapped_bytes(*m).len() <= usize::MAX,
            addr + len <= mapped_bytes(*m).len(),
            v@ =~= mapped_bytes(*m).subrange(addr as int, addr + k),
        decreases len - k,
    {
        v.push(buffer_byte(m, addr + k));
        k = k + 1;
    }
    v
}

impl Cpu {
    /// Checks `[beg, end]` for the bits `perm`. With the privilege bit of the
    /// flags clear every access passes; otherwise every segment entry that
    /// meets the range must carry `perm`, and the first that does not gives
    /// its own bits as the error.
    pub fn check_permission(&self, beg: u64, end: u64, perm: u8) -> (r: Result<(), u8>)
        ensures
            !checks_on(self@) ==> r is Ok,
            checks_on(self@) ==> (r is Ok <==> first_denial(self@.gdt, beg as int, end as int, perm) is None),
            r is Err ==> first_denial(self@.gdt, beg as int, end as int, perm) == Some(r->Err_0),
    {
        if self.regs.0[21] & 8 == 0 {
            return Ok(());
        }
        check_areas(&self.gdt, beg, end, perm)
    }

    /// Whether an access of `len` bytes at `addr` needing `needed` may go ahead.
    pub fn access(&self, addr: u64, len: u64, needed: u8) -> (r: Result<(), Fault>)
        ensures
            r == access_spec(self@, addr, len, needed),
            self@.mem.len() <= usize::MAX,
    {
        let size = buffer_len(&self.memory);
        if len == 0 {
            return Ok(());
        }
        if addr > u64::MAX - (len - 1) || addr + (len - 1) >= size as u64 {
            return Err(Fault::Fatal(Fatal::OutOfBounds { addr, len }));
        }
        let end = addr + (len - 1);
        if end >= size as u64 {
            return Err(Fault::Fatal(Fatal::OutOfBounds { addr, len }));
        }
        match self.check_permission(addr, end, needed) {
            Err(p) => Err(Fault::Trap { kind: 1, info: p as u64 }),
            Ok(()) => Ok(()),
        }
    }

    /// Writes `buf` at `offset`, needing write permission.
    pub fn write(&mut self, offset: u64, buf: &[u8]) -> (r: Result<(), Fault>)
        ensures
            r is Ok <==> write_spec(old(self)@, offset, buf@) is Ok,
            r is Ok ==> final(self)@ == (CpuState { mem: write_spec(old(self)@, offset, buf@)->Ok_0, ..old(self)@ }),
            r is Err ==> r->Err_0 == write_spec(old(self)@, offset, buf@)->Err_0 && final(self)@ == old(self)@,
    {
        let len = buf.len() as u64;
        match self.access(offset, len, WRITE) {
            Err(f) => Err(f),
            Ok(()) => {
                if len > 0 {
                    copy_into(&mut self.memory, offset as usize, buf);
                } else {
                    assert(overwrite(self@.mem, offset as int, buf@) =~= self@.mem);
                }
                Ok(())
            },
        }
    }

    /// Reads `len` bytes at `offset`, needing read permission.
    pub fn read(&self, offset: u64, len: u64) -> (r: Result<Vec<u8>, Fault>)
        ensures
            r is Ok <==> read_spec(self@, offset, len) is Ok,
            r is Ok ==> r->Ok_0@ == read_spec(self@, offset, len)->Ok_0,
            r is Err ==> r->Err_0 == read_spec(self@, offset, len)->Err_0,
    {
        match self.access(offset, len, READ) {
            Err(f) => Err(f),
            Ok(()) => {
                if len == 0 {
                    let v: Vec<u8> = Vec::new();
                    assert(v@ =~= Seq::<u8>::empty());
                    Ok(v)
                } else {
                    Ok(copy_from(&self.memory, offset as usize, len as usize))
                }
            },
        }
    }

    /// Reads the little-endian word at `from`.
    pub fn read_u32(&self, from: u64) -> (r: Result<u32, Fault>)
        ensures
            r == load4_spec(self@, from),
    {
        match self.read(from, 4) {
            Err(f) => Err(f),
            Ok(v) => Ok(make_u32(v.as_slice())),
        }
    }

    /// Reads the little-endian doubleword at `from`.
    pub fn read_u64(&self, from: u64) -> (r: Result<u64, Fault>)
        ensures
            r == load8_spec(self@, from),
    {
        match self.read(from, 8) {
            Err(f) => Err(f),
            Ok(v) => Ok(make_u64(v.as_slice())),
        }
    }
}

/// The segments that a loaded image starts with, in table order.
#[derive(Clone, Copy, Debug, PartialEq, Eq, Structural)]
pub enum SegmentName {
    Code,
    Data,
    Stack,
    Heap,
}

/// The table entry of a named segment.
pub open spec fn segment_index(name: SegmentName) -> int {
    match name {
        SegmentName::Code => 0,
        SegmentName::Data => 1,
        SegmentName::Stack => 2,
        SegmentName::Heap => 3,
    }
}

/// Whether a raw access of `[b, e]` needing `needed` may go ahead: the
/// bytes must lie in the buffer (checked first); with checks on, the first
/// entry that holds `b` governs, and must carry `needed` and hold `e` too.
pub open spec fn raw_access_spec(s: CpuState, b: u64, e: u64, needed: u8) -> Result<(), Fault> {
    if e < b {
        Ok(())
    } else if e >= s.mem.len() {
        Err(
            Fault::Fatal(
                Fatal::OutOfBounds {
                    addr: b,
                    len: if e - b == u64::MAX {
                        u64::MAX
                    } else {
                        (e - b + 1) as u64
                    },
                },
            ),
        )
    } else if checks_on(s) && first_cover(s.gdt, b as int) is Some && (lacks(
        s.gdt[first_cover(s.gdt, b as int)->Some_0],
        needed,
    ) || s.gdt[first_cover(s.gdt, b as int)->Some_0].end < e) {
        Err(Fault::Trap { kind: 1, info: s.gdt[first_cover(s.gdt, b as int)->Some_0].perm as u64 })
    } else {
        Ok(())
    }
}

/// Whether an access of `len` bytes at `offset` of the named segment needing
/// `needed` may go ahead: the segment must exist, hold every byte and carry
/// `needed`; the bytes must lie in the buffer.
pub open spec fn segment_access_spec(s: CpuState, name: SegmentName, offset: u64, len: u64, needed: u8) -> Result<(), Fault> {
    let k = segment_index(name);
    if k >= s.gdt.len() {
        Err(Fault::Fatal(Fatal::NoSegment))
    } else if len == 0 {
        Ok(())
    } else if !(s.gdt[k].begin <= offset && offset + len - 1 <= s.gdt[k].end) || lacks(s.gdt[k], needed) {
        Err(Fault::Trap { kind: 1, info: s.gdt[k].perm as u64 })
    } else if offset + len > s.mem.len() {
        Err(Fault::Fatal(Fatal::OutOfBounds { addr: offset, len }))
    } else {
        Ok(())
    }
}

impl Cpu {
    /// Whether a raw access of `[beg, end]` may go ahead.
    pub fn raw_access(&self, beg: u64, end: u64, needed: u8) -> (r: Result<(), Fault>)
        ensures
            r == raw_access_spec(self@, beg, end, needed),
            self@.mem.len() <= usize::MAX,
    {
        let size = buffer_len(&self.memory);
        if end < beg {
            return Ok(());
        }
        if end >= size as u64 {
            let len = if end - beg == u64::MAX {
                u64::MAX
            } else {
                end - beg + 1
            };
            return Err(Fault::Fatal(Fatal::OutOfBounds { addr: beg, len }));
        }
        if self.regs.0[21] & 8 != 0 {
            match segment_of(&self.gdt, beg) {
                Some(k) => {
                    let a = self.gdt[k];
                    if a.perm & needed == 0 || a.end < end {
                        return Err(Fault::Trap { kind: 1, info: a.perm as u64 });
                    }
                },
                None => {},
            }
        }
        Ok(())
    }

    /// Writes `buf` from the absolute address `beg` on, under the raw rule.
    pub fn raw_write(&mut self, beg: u64, buf: &[u8]) -> (r: Result<(), Fault>)
        ensures
            buf@.len() == 0 ==> r is Ok && final(self)@ == old(self)@,
            buf@.len() > 0 && beg + buf@.len() - 1 > u64::MAX ==> r == Err::<(), Fault>(Fault::Fatal(Fatal::OutOfBounds { addr: beg, len: buf@.len() as u64 })) && final(self)@ == old(self)@,
            buf@.len() > 0 && beg + buf@.len() - 1 <= u64::MAX ==> ({
                let acc = raw_access_spec(old(self)@, beg, (beg + buf@.len() - 1) as u64, WRITE);
                &&& r is Ok <==> acc is Ok
                &&& r is Err ==> r->Err_0 == acc->Err_0 && final(self)@ == old(self)@
                &&& r is Ok ==> final(self)@ == (CpuState { mem: overwrite(old(self)@.mem, beg as int, buf@), ..old(self)@ })
            }),
    {
        let len = buf.len() as u64;
        if len == 0 {
            return Ok(());
        }
        if beg > u64::MAX - (len - 1) {
            return Err(Fault::Fatal(Fatal::OutOfBounds { addr: beg, len }));
        }
        match self.raw_access(beg, beg + (len - 1), WRITE) {
            Err(f) => Err(f),
            Ok(()) => {
                copy_into(&mut self.memory, beg as usize, buf);
                Ok(())
            },
        }
    }

    /// Reads the bytes of `[beg, end]` under the raw rule.
    pub fn raw_read(&self, beg: u64, end: u64) -> (r: Result<Vec<u8>, Fault>)
        ensures
            r is Ok <==> raw_access_spec(self@, beg, end, READ) is Ok,
            r is Err ==> r->Err_0 == raw_access_spec(self@, beg, end, READ)->Err_0,
            r is Ok && beg <= end ==> r->Ok_0@ == self@.mem.subrange(beg as int, end + 1),
            r is Ok && end < beg ==> r->Ok_0@.len() == 0,
    {
        match self.raw_access(beg, end, READ) {
            Err(f) => Err(f),
            Ok(()) => {
                if end < beg {
                    Ok(Vec::new())
                } else {
                    Ok(copy_from(&self.memory, beg as usize, (end - beg + 1) as usize))
                }
            },
        }
    }

    fn segment_access(&self, name: SegmentName, offset: u64, len: u64, needed: u8) -> (r: Result<(), Fault>)
        ensures
            r == segment_access_spec(self@, name, offset, len, needed),
            self@.mem.len() <= usize::MAX,
    {
        let size = buffer_len(&self.memory);
        let k: usize = match name {
            SegmentName::Code => 0,
            SegmentName::Data => 1,
            SegmentName::Stack => 2,
            SegmentName::Heap => 3,
        };
        if k >= self.gdt.len() {
            return Err(Fault::Fatal(Fatal::NoSegment));
        }
        if len == 0 {
            return Ok(());
        }
        let a = self.gdt[k];
        if !(a.begin <= offset && offset <= a.end && len - 1 <= a.end - offset) || a.perm & needed == 0 {
            return Err(Fault::Trap { kind: 1, info: a.perm as u64 });
        }
        if offset + (len - 1) >= size as u64 {
            return Err(Fault::Fatal(Fatal::OutOfBounds { addr: offset, len }));
        }
        Ok(())
    }

    /// Writes `buf` at the absolute address `offset`, which must lie, with
    /// every byte of `buf`, in the named segment, and that segment must be
    /// writable.
    pub fn segment_write(&mut self, name: SegmentName, offset: u64, buf: &[u8]) -> (r: Result<(), Fault>)
        ensures
            r is Ok <==> segment_access_spec(old(self)@, name, offset, buf@.len() as u64, WRITE) is Ok,
            r is Err ==> r->Err_0 == segment_access_spec(old(self)@, name, offset, buf@.len() as u64, WRITE)->Err_0
                && final(self)@ == old(self)@,
            r is Ok ==> final(self)@ == (CpuState { mem: overwrite(old(self)@.mem, offset as int, buf@), ..old(self)@ }),
    {
        match self.segment_access(name, offset, buf.len() as u64, WRITE) {
            Err(f) => Err(f),
            Ok(()) => {
                if buf.len() > 0 {
                    copy_into(&mut self.memory, offset as usize, buf);
                } else {
                    assert(overwrite(self@.mem, offset as int, buf@) =~= self@.mem);
                }
                Ok(())
            },
        }
    }

    /// Reads `len` bytes at the absolute address `offset` of the named
    /// segment, which must hold them and be readable.
    pub fn segment_read(&self, name: SegmentName, offset: u64, len: u64) -> (r: Result<Vec<u8>, Fault>)
        ensures
            r is Ok <==> segment_access_spec(self@, name, offset, len, READ) is Ok,
            r is Err ==> r->Err_0 == segment_access_spec(self@, name, offset, len, READ)->Err_0,
            r is Ok && len > 0 ==> r->Ok_0@ == self@.mem.subrange(offset as int, offset + len),
            r is Ok && len == 0 ==> r->Ok_0@.len() == 0,
    {
        match self.segment_access(name, offset, len, READ) {
            Err(f) => Err(f),
            Ok(()) => {
                if len == 0 {
                    Ok(Vec::new())
                } else {
                    Ok(copy_from(&self.memory, offset as usize, len as usize))
                }
            },
        }
    }
}

} // verus!
