//! The processor: its registers, segment table, memory buffer and call
//! stack, and the fetch-decode-execute loop.
use vstd::prelude::*;
use mmap_rs::MmapMut;
use crate::buffer::{buffer_len, map_buffer, mapped_bytes};
use crate::codec::{le_u16, le_u32, le_u64, make_u16, make_u32, make_u64};
use crate::machine::CpuState;
use crate::memory::copy_into;
use crate::regs::Regs;
use crate::segment::{Area, EXEC, READ, WRITE};

verus! {

/// Magic number that opens an object image.
pub const MAGIC: u32 = 0xAFC;

/// Major version of the object format.
pub const MAJOR: u16 = 1;

/// Minor version of the object format.
pub const MINOR: u16 = 0;

/// Bytes in the header of an object image.
pub const HEADER_LEN: usize = 24;

/// Size of the memory buffer of a loaded image: 2 MiB.
pub const MEM_SIZE: usize = 0x20_0000;

/// Address just past the stack segment, where the stack pointer starts.
pub const STACK_TOP: u64 = 0x10_0000;

/// Why an image could not be loaded.
#[derive(Clone, Copy, Debug, PartialEq, Eq, Structural)]
pub enum LoadError {
    /// Shorter than its header.
    Truncated,
    BadMagic { magic: u32 },
    BadVersion { major: u16, minor: u16 },
    /// Larger than the memory buffer.
    TooLarge,
    /// The host could not provide the memory buffer.
    NoMemory,
    /// The code section does not split into whole instructions, or the data
    /// offset lies outside the image.
    Malformed,
}

/// The segment table of a freshly loaded image: code (read, write,
/// execute), data (read), stack (read, write) and heap (read, write).
pub open spec fn initial_gdt() -> Seq<Area> {
    seq![
        Area { begin: 0, end: 0x7dfff, perm: 7 },
        Area { begin: 0x7e000, end: 0xfdfff, perm: 1 },
        Area { begin: 0xfe000, end: 0xfffff, perm: 3 },
        Area { begin: 0xff000, end: 0x1f_ffff, perm: 3 },
    ]
}

/// What is wrong with the header of `code`, if anything.
pub open spec fn header_check(code: Seq<u8>) -> Option<LoadError> {
    if code.len() < HEADER_LEN {
        Some(LoadError::Truncated)
    } else if le_u32(code) != MAGIC {
        Some(LoadError::BadMagic { magic: le_u32(code) })
    } else if le_u16(code.subrange(4, 6)) != MAJOR || le_u16(code.subrange(6, 8)) != MINOR {
        Some(LoadError::BadVersion { major: le_u16(code.subrange(4, 6)), minor: le_u16(code.subrange(6, 8)) })
    } else if code.len() > MEM_SIZE {
        Some(LoadError::TooLarge)
    } else {
        None
    }
}

/// The entry point that the header of `code` names.
pub open spec fn start_of(code: Seq<u8>) -> u64 {
    le_u64(code.subrange(8, 16))
}

/// The processor. Floating-point registers hold bit patterns.
pub struct Cpu {
    pub regs: Regs,
    pub fregs: [u64; 20],
    pub special: [u64; 6],
    pub gdt: Vec<Area>,
    pub pc: u64,
    pub memory: MmapMut,
    /// Return addresses of the calls in progress, innermost last.
    pub calls: Vec<u64>,
}

impl View for Cpu {
    type V = CpuState;

    open spec fn view(&self) -> CpuState {
        CpuState {
            regs: self.regs.0@,
            fregs: self.fregs@,
            special: self.special@,
            gdt: self.gdt@,
            pc: self.pc,
            mem: mapped_bytes(self.memory),
            calls: self.calls@,
        }
    }
}

impl Cpu {
    /// Loads the object image `code`: checks its header, copies the whole
    /// image to address 0 of a fresh 2 MiB buffer, lays out the initial
    /// segments, points the stack pointer at the top of the stack segment
    /// and the pc at the header's entry point. Every other register is zero
    /// and the privilege bit is clear.
    pub fn init(code: Vec<u8>) -> (r: Result<Cpu, LoadError>)
        ensures
            header_check(code@) is Some ==> r == Err::<Cpu, LoadError>(header_check(code@)->Some_0),
            header_check(code@) is None ==> r is Ok || r == Err::<Cpu, LoadError>(LoadError::NoMemory),
            r is Ok ==> ({
                let c = r->Ok_0@;
                &&& c.regs == Seq::new(22, |i: int| if i == 20 { STACK_TOP } else { 0u64 })
                &&& c.fregs == Seq::new(20, |i: int| 0u64)
                &&& c.special == Seq::new(6, |i: int| 0u64)
                &&& c.gdt == initial_gdt()
                &&& c.pc == start_of(code@)
                &&& c.calls.len() == 0
                &&& c.mem.len() == MEM_SIZE
                &&& c.mem.subrange(0, code@.len() as int) == code@
            }),
    {
        if code.len() < HEADER_LEN {
            return Err(LoadError::Truncated);
        }
        let bytes = code.as_slice();
        let magic = make_u32(bytes);
        if magic != MAGIC {
            return Err(LoadError::BadMagic { magic });
        }
        let major = make_u16(&bytes[4..6]);
        let minor = make_u16(&bytes[6..8]);
        if major != MAJOR || minor != MINOR {
            return Err(LoadError::BadVersion { major, minor });
        }
        if code.len() > MEM_SIZE {
            return Err(LoadError::TooLarge);
        }
        let start = make_u64(&bytes[8..16]);
        let mut memory = match map_buffer(MEM_SIZE) {
            Ok(m) => m,
            Err(_) => return Err(LoadError::NoMemory),
        };
        copy_into(&mut memory, 0, bytes);
        let mut regs = Regs::new();
        regs.0[20] = STACK_TOP;
        assert(1u8 | 2u8 | 4u8 == 7u8 && 1u8 | 2u8 == 3u8) by (bit_vector);
        let mut gdt: Vec<Area> = Vec::new();
        gdt.push(Area { begin: 0, end: 0x7dfff, perm: READ | WRITE | EXEC });
        gdt.push(Area { begin: 0x7e000, end: 0xfdfff, perm: READ });
        gdt.push(Area { begin: 0xfe000, end: 0xfffff, perm: READ | WRITE });
        gdt.push(Area { begin: 0xff000, end: 0x1f_ffff, perm: READ | WRITE });
        let cpu = Cpu {
            regs,
            fregs: [0u64; 20],
            special: [0u64; 6],
            gdt,
            pc: start,
            memory,
            calls: Vec::new(),
        };
        assert(cpu@.regs =~= Seq::new(22, |i: int| if i == 20 { STACK_TOP } else { 0u64 }));
        assert(cpu@.fregs =~= Seq::new(20, |i: int| 0u64));
        assert(cpu@.special =~= Seq::new(6, |i: int| 0u64));
        assert(cpu@.gdt =~= initial_gdt());
        assert(cpu@.mem.subrange(0, code@.len() as int) =~= code@);
        Ok(cpu)
    }

    /// The size of the memory buffer.
    pub fn mem_size(&self) -> (r: usize)
        ensures
            r == self@.mem.len(),
    {
        buffer_len(&self.memory)
    }
}

} // verus!
