//! The machine's state as mathematics, and the meaning of one instruction.
use vstd::prelude::*;
use vstd::wrapping::u64_specs;
use crate::codec::{le_u32, le_u64, u64_bytes};
use crate::regs::{reg_update, reg_value};
use crate::segment::{covers, first_denial, intersects, lacks, lemma_no_denial_iff, Area, EXEC, READ, WRITE};

verus! {

/// Low 57 bits of an offset operand: the unsigned displacement.
pub const OFFSET_MASK: u64 = 0x01ff_ffff_ffff_ffff;

/// An operand as the decoder hands it out. Float immediates travel as their
/// bit pattern.
#[derive(Clone, Copy, Debug, PartialEq, Eq, Structural)]
pub enum Args {
    INT(u64),
    DECIMAL(u64),
    OFFSET(u8, u64),
    FLAG(bool),
    REG(u8),
}

/// A decoded instruction: three operands, the privilege bit, and the address
/// just past its inline immediates.
#[derive(Clone, Copy, Debug, PartialEq, Eq, Structural)]
pub struct Decoded {
    pub op1: Args,
    pub op2: Args,
    pub op3: Args,
    pub privileged: bool,
    pub next: u64,
}

/// An error of the host: the image is broken or misuses the machine. It ends
/// the run.
#[derive(Clone, Copy, Debug, PartialEq, Eq, Structural)]
pub enum Fatal {
    /// An access that leaves the memory buffer or the address space.
    OutOfBounds { addr: u64, len: u64 },
    /// An operand tag above 83, or an offset whose base is no register.
    IllegalOperand { tag: u8 },
    /// An operand of a kind that the opcode cannot take.
    BadOperand { opcode: u32 },
    /// A trap with no handler installed.
    Unhandled { kind: u64, pc: u64, info: u64 },
    /// The report-and-die system call, with the saved trap registers.
    Report { kind: u64, pc: u64, info: u64 },
    /// A system call other than the report.
    UnknownSyscall { kind: u64 },
    /// A named segment that the table does not hold.
    NoSegment,
}

/// Why an instruction stopped short.
#[derive(Clone, Copy, Debug, PartialEq, Eq, Structural)]
pub enum Fault {
    /// A guest trap: 0 divide by zero, 1 memory permission, 2 illegal opcode,
    /// 3 privilege violation; `info` goes to the fourth special register.
    Trap { kind: u64, info: u64 },
    Fatal(Fatal),
}

/// Floating-point work that the host carries out.
#[derive(Clone, Copy, Debug, PartialEq, Eq, Structural)]
pub enum FloatOp {
    Add,
    Sub,
    Mul,
    Div,
    Mod,
    Inc,
    Dec,
    Cmp,
}

/// A floating-point instruction, decoded and checked, waiting for the host
/// to compute on the bit patterns `a` and `b`.
#[derive(Clone, Copy, Debug, PartialEq, Eq, Structural)]
pub struct FloatRequest {
    pub op: FloatOp,
    pub dst: u8,
    pub a: u64,
    pub b: u64,
    pub next: u64,
}

/// What one step of the machine came to.
#[derive(Clone, Copy, Debug, PartialEq, Eq, Structural)]
pub enum Step {
    /// The instruction ran (or a trap entered its handler); the machine goes on.
    Continue,
    /// `RET` with an empty call stack: the program is done.
    Halt,
    Fatal(Fatal),
    /// A floating-point instruction that the host must finish.
    Float(FloatRequest),
}

/// The whole machine as values.
pub struct CpuState {
    pub regs: Seq<u64>,
    pub fregs: Seq<u64>,
    pub special: Seq<u64>,
    pub gdt: Seq<Area>,
    pub pc: u64,
    pub mem: Seq<u8>,
    pub calls: Seq<u64>,
}

/// The register file, the float registers and the special registers have
/// their sizes.
pub open spec fn well_formed(s: CpuState) -> bool {
    s.regs.len() == 22 && s.fregs.len() == 20 && s.special.len() == 6
}

/// Whether memory permission checks are on (flags bit 3).
pub open spec fn checks_on(s: CpuState) -> bool {
    s.regs[21] & 8 != 0
}

/// Whether an access of `len` bytes at `addr` needing `needed` may go ahead:
/// bytes past the buffer are a host error, checked first; then, with checks
/// on, every segment entry meeting the range must carry `needed`.
pub open spec fn access_spec(s: CpuState, addr: u64, len: u64, needed: u8) -> Result<(), Fault> {
    if len == 0 {
        Ok(())
    } else if addr + len > s.mem.len() {
        Err(Fault::Fatal(Fatal::OutOfBounds { addr, len }))
    } else if checks_on(s) && first_denial(s.gdt, addr as int, addr + len - 1, needed) is Some {
        Err(
            Fault::Trap {
                kind: 1,
                info: first_denial(s.gdt, addr as int, addr + len - 1, needed)->Some_0 as u64,
            },
        )
    } else {
        Ok(())
    }
}

/// The bytes that a read of `len` bytes at `addr` gives.
pub open spec fn read_spec(s: CpuState, addr: u64, len: u64) -> Result<Seq<u8>, Fault> {
    match access_spec(s, addr, len, READ) {
        Err(f) => Err(f),
        Ok(_) => if len == 0 {
            Ok(Seq::empty())
        } else {
            Ok(s.mem.subrange(addr as int, addr + len))
        },
    }
}

/// `mem` with `bytes` laid over it from `addr` on.
pub open spec fn overwrite(mem: Seq<u8>, addr: int, bytes: Seq<u8>) -> Seq<u8> {
    Seq::new(
        mem.len(),
        |i: int|
            if addr <= i < addr + bytes.len() {
                bytes[i - addr]
            } else {
                mem[i]
            },
    )
}

/// The memory after writing `bytes` at `addr`.
pub open spec fn write_spec(s: CpuState, addr: u64, bytes: Seq<u8>) -> Result<Seq<u8>, Fault> {
    match access_spec(s, addr, bytes.len() as u64, WRITE) {
        Err(f) => Err(f),
        Ok(_) => Ok(overwrite(s.mem, addr as int, bytes)),
    }
}

pub open spec fn load4_spec(s: CpuState, addr: u64) -> Result<u32, Fault> {
    match read_spec(s, addr, 4) {
        Err(f) => Err(f),
        Ok(b) => Ok(le_u32(b)),
    }
}

pub open spec fn load8_spec(s: CpuState, addr: u64) -> Result<u64, Fault> {
    match read_spec(s, addr, 8) {
        Err(f) => Err(f),
        Ok(b) => Ok(le_u64(b)),
    }
}

pub open spec fn store8_spec(s: CpuState, addr: u64, v: u64) -> Result<Seq<u8>, Fault> {
    write_spec(s, addr, u64_bytes(v))
}

/// The opcode field of an instruction word.
pub open spec fn opcode_of(word: u32) -> u32 {
    word >> 22u32
}

/// The three operand tags of an instruction word, first to third.
pub open spec fn tag1(word: u32) -> u8 {
    ((word >> 15u32) & 127) as u8
}

pub open spec fn tag2(word: u32) -> u8 {
    ((word >> 8u32) & 127) as u8
}

pub open spec fn tag3(word: u32) -> u8 {
    ((word >> 1u32) & 127) as u8
}

/// The privilege bit of an instruction word.
pub open spec fn priv_of(word: u32) -> bool {
    word & 1 != 0
}

/// The operand of tag `tag`: a register id, or an immediate made of the
/// eight bytes `v`.
pub open spec fn immediate(tag: u8, v: u64) -> Args {
    if tag <= 80 {
        Args::REG(tag)
    } else if tag == 81 {
        Args::INT(v)
    } else if tag == 82 {
        Args::DECIMAL(v)
    } else {
        Args::OFFSET((v >> 57u64) as u8, v & OFFSET_MASK)
    }
}

/// The operand of `tag` whose immediate, if any, stands at `at`, and the
/// address after it.
pub open spec fn operand_spec(s: CpuState, tag: u8, at: u64) -> Result<(Args, u64), Fault> {
    if tag <= 80 {
        Ok((immediate(tag, 0), at))
    } else if tag <= 83 {
        match load8_spec(s, at) {
            Err(f) => Err(f),
            Ok(v) => if tag == 83 && (v >> 57u64) > 80 {
                Err(Fault::Fatal(Fatal::IllegalOperand { tag }))
            } else {
                Ok((immediate(tag, v), (at + 8) as u64))
            },
        }
    } else {
        Err(Fault::Fatal(Fatal::IllegalOperand { tag }))
    }
}

/// Decoding of the word `word` fetched at `pc`.
pub open spec fn decode_spec(s: CpuState, word: u32, pc: u64) -> Result<Decoded, Fault> {
    match operand_spec(s, tag1(word), u64_specs::wrapping_add(pc, 4)) {
        Err(f) => Err(f),
        Ok((a, at1)) => match operand_spec(s, tag2(word), at1) {
            Err(f) => Err(f),
            Ok((b, at2)) => match operand_spec(s, tag3(word), at2) {
                Err(f) => Err(f),
                Ok((c, at3)) => Ok(
                    Decoded { op1: a, op2: b, op3: c, privileged: priv_of(word), next: at3 },
                ),
            },
        },
    }
}

/// A register operand, and the base of an offset operand, name one of the
/// ids `0..=80`.
pub open spec fn arg_valid(a: Args) -> bool {
    match a {
        Args::REG(r) => r <= 80,
        Args::OFFSET(b, _) => b <= 80,
        _ => true,
    }
}

pub open spec fn decoded_valid(d: Decoded) -> bool {
    arg_valid(d.op1) && arg_valid(d.op2) && arg_valid(d.op3)
}

/// The integer that an operand reads: a register through its view, or an
/// immediate.
pub open spec fn int_src(s: CpuState, a: Args) -> Option<u64> {
    match a {
        Args::REG(r) => Some(reg_value(s.regs, r as u64)),
        Args::INT(v) => Some(v),
        _ => None,
    }
}

/// The float bit pattern that an operand reads: a float register or a float
/// immediate.
pub open spec fn float_src(s: CpuState, a: Args) -> Option<u64> {
    match a {
        Args::DECIMAL(v) => Some(v),
        Args::REG(r) => if r < 20 {
            Some(s.fregs[r as int])
        } else {
            None
        },
        _ => None,
    }
}

/// The float register that an operand names.
pub open spec fn freg_dst(a: Args) -> Option<u8> {
    match a {
        Args::REG(r) => if r < 20 {
            Some(r)
        } else {
            None
        },
        _ => None,
    }
}

/// The immediate integer of an operand.
pub open spec fn int_imm(a: Args) -> Option<u64> {
    match a {
        Args::INT(v) => Some(v),
        _ => None,
    }
}

/// The address `[base + off]`, wrapping.
pub open spec fn offset_addr(s: CpuState, base: u8, off: u64) -> u64 {
    u64_specs::wrapping_add(reg_value(s.regs, base as u64), off)
}

/// Whether a float bit pattern is zero (positive or negative).
pub open spec fn float_is_zero(bits: u64) -> bool {
    bits & 0x7fff_ffff_ffff_ffff == 0
}

/// The integer operation `k` (ADD..SHR in order) on `a` and `b`.
pub open spec fn alu_value(k: u32, a: u64, b: u64) -> u64 {
    if k == 0 {
        u64_specs::wrapping_add(a, b)
    } else if k == 1 {
        u64_specs::wrapping_sub(a, b)
    } else if k == 2 {
        u64_specs::wrapping_mul(a, b)
    } else if k == 3 {
        (a / b) as u64
    } else if k == 4 {
        (a % b) as u64
    } else if k == 5 {
        a | b
    } else if k == 6 {
        a & b
    } else if k == 7 {
        a ^ b
    } else if k == 8 {
        u64_specs::wrapping_shl(a, (b % 64) as u32)
    } else {
        u64_specs::wrapping_shr(a, (b % 64) as u32)
    }
}

/// Whether the conditional jump `k` (JE..JLT in order) is taken on `flags`.
pub open spec fn branch_taken(k: u32, flags: u64) -> bool {
    let eq = flags & 1 != 0;
    let gt = flags & 2 != 0;
    let lt = flags & 4 != 0;
    if k == 0 {
        eq
    } else if k == 1 {
        !eq
    } else if k == 2 {
        gt || eq
    } else if k == 3 {
        gt
    } else if k == 4 {
        lt || eq
    } else {
        lt
    }
}

/// The flag bit that a compare of `a` with `b` sets.
pub open spec fn compare_bit(a: u64, b: u64) -> u64 {
    if a == b {
        1
    } else if a > b {
        2
    } else {
        4
    }
}

pub open spec fn with_pc(s: CpuState, pc: u64) -> CpuState {
    CpuState { pc, ..s }
}

pub open spec fn with_reg(s: CpuState, r: u64, v: u64) -> CpuState {
    CpuState { regs: reg_update(s.regs, r, v), ..s }
}

pub open spec fn bad_operand(opcode: u32) -> Fault {
    Fault::Fatal(Fatal::BadOperand { opcode })
}

/// `MOV dst, src`.
pub open spec fn mov_spec(s: CpuState, d: Decoded) -> Result<(CpuState, Step), Fault> {
    let v: Result<u64, Fault> = match d.op2 {
        Args::REG(r) => Ok(reg_value(s.regs, r as u64)),
        Args::INT(v) => Ok(v),
        Args::OFFSET(b, o) => load8_spec(s, offset_addr(s, b, o)),
        _ => Err(bad_operand(1)),
    };
    match v {
        Err(f) => Err(f),
        Ok(v) => match d.op1 {
            Args::REG(r) => Ok((with_pc(with_reg(s, r as u64, v), d.next), Step::Continue)),
            Args::OFFSET(b, o) => match store8_spec(s, offset_addr(s, b, o), v) {
                Err(f) => Err(f),
                Ok(m) => Ok((CpuState { mem: m, pc: d.next, ..s }, Step::Continue)),
            },
            _ => Err(bad_operand(1)),
        },
    }
}

/// `ADD`..`SHR` (opcodes 2..=11).
pub open spec fn alu_spec(s: CpuState, op: u32, d: Decoded) -> Result<(CpuState, Step), Fault> {
    match (d.op1, int_src(s, d.op2), int_src(s, d.op3)) {
        (Args::REG(r), Some(a), Some(b)) => {
            let k = (op - 2) as u32;
            if (k == 3 || k == 4) && b == 0 {
                Err(Fault::Trap { kind: 0, info: s.special[3] })
            } else {
                Ok((with_pc(with_reg(s, r as u64, alu_value(k, a, b)), d.next), Step::Continue))
            }
        },
        _ => Err(bad_operand(op)),
    }
}

/// The last byte that a jump to `t` checks for execution.
pub open spec fn jump_end(t: u64) -> u64 {
    if t == u64::MAX {
        t
    } else {
        (t + 1) as u64
    }
}

/// `JMP tgt`.
pub open spec fn jmp_spec(s: CpuState, d: Decoded) -> Result<(CpuState, Step), Fault> {
    match int_src(s, d.op1) {
        None => Err(bad_operand(12)),
        Some(t) => if checks_on(s) && first_denial(s.gdt, t as int, jump_end(t) as int, EXEC) is Some {
            Err(
                Fault::Trap {
                    kind: 1,
                    info: first_denial(s.gdt, t as int, jump_end(t) as int, EXEC)->Some_0 as u64,
                },
            )
        } else {
            Ok((with_pc(s, t), Step::Continue))
        },
    }
}

/// Integer stores through the stack pointer: the bytes of `v` at `sp - 8`.
pub open spec fn push_spec(s: CpuState, v: u64, next: u64) -> Result<(CpuState, Step), Fault> {
    let sp = u64_specs::wrapping_sub(reg_value(s.regs, 80), 8);
    match store8_spec(s, sp, v) {
        Err(f) => Err(f),
        Ok(m) => Ok((CpuState { mem: m, regs: reg_update(s.regs, 80, sp), pc: next, ..s }, Step::Continue)),
    }
}

/// The eight bytes at the stack pointer, and the stack pointer past them.
pub open spec fn pop_spec(s: CpuState) -> Result<(u64, u64), Fault> {
    match load8_spec(s, reg_value(s.regs, 80)) {
        Err(f) => Err(f),
        Ok(v) => Ok((v, u64_specs::wrapping_add(reg_value(s.regs, 80), 8))),
    }
}

/// `INC` (opcode 26) or `DEC` (27) on a register or a memory word, wrapping.
pub open spec fn incdec_spec(s: CpuState, op: u32, d: Decoded) -> Result<(CpuState, Step), Fault> {
    let f = |v: u64|
        if op == 26 {
            u64_specs::wrapping_add(v, 1)
        } else {
            u64_specs::wrapping_sub(v, 1)
        };
    match d.op1 {
        Args::REG(r) => Ok(
            (with_pc(with_reg(s, r as u64, f(reg_value(s.regs, r as u64))), d.next), Step::Continue),
        ),
        Args::OFFSET(b, o) => match load8_spec(s, offset_addr(s, b, o)) {
            Err(e) => Err(e),
            Ok(v) => match store8_spec(s, offset_addr(s, b, o), f(v)) {
                Err(e) => Err(e),
                Ok(m) => Ok((CpuState { mem: m, pc: d.next, ..s }, Step::Continue)),
            },
        },
        _ => Err(bad_operand(op)),
    }
}

/// The floating-point operation of opcodes 21..=25.
pub open spec fn float_op_of(op: u32) -> FloatOp {
    if op == 21 {
        FloatOp::Add
    } else if op == 22 {
        FloatOp::Sub
    } else if op == 23 {
        FloatOp::Mul
    } else if op == 24 {
        FloatOp::Div
    } else {
        FloatOp::Mod
    }
}

/// `FADD`..`FMOD`: checked here, computed by the host.
pub open spec fn farith_spec(s: CpuState, op: u32, d: Decoded) -> Result<(CpuState, Step), Fault> {
    match (freg_dst(d.op1), float_src(s, d.op2), float_src(s, d.op3)) {
        (Some(r), Some(a), Some(b)) => if (op == 24 || op == 25) && float_is_zero(b) {
            Err(Fault::Trap { kind: 0, info: s.special[3] })
        } else {
            Ok((s, Step::Float(FloatRequest { op: float_op_of(op), dst: r, a, b, next: d.next })))
        },
        _ => Err(bad_operand(op)),
    }
}

/// The privileged instructions, their privilege bit set: `SETHANDLER h`
/// (40) installs the handler address; `IRET` (41) copies the whole cell of
/// r60 into the flags and resumes at the address a trap saved; `GDTADD b, e,
/// p` (42) appends the segment `[b, e]` with the permission bits of its
/// third operand.
pub open spec fn privileged_spec(s: CpuState, op: u32, d: Decoded) -> Result<(CpuState, Step), Fault> {
    if op == 40 {
        match int_imm(d.op1) {
            Some(h) => Ok((CpuState { special: s.special.update(0, h), pc: d.next, ..s }, Step::Continue)),
            None => Err(bad_operand(op)),
        }
    } else if op == 41 {
        Ok((with_pc(with_reg(s, 81, s.regs[0]), s.special[4]), Step::Continue))
    } else {
        match (int_imm(d.op1), int_imm(d.op2), int_imm(d.op3)) {
            (Some(b), Some(e), Some(p)) => Ok(
                (
                    CpuState { gdt: s.gdt.push(Area { begin: b, end: e, perm: p as u8 }), pc: d.next, ..s },
                    Step::Continue,
                ),
            ),
            _ => Err(bad_operand(op)),
        }
    }
}

/// The meaning of the decoded instruction `d` with opcode `op` in state `s`:
/// the next state and the step's result, or the fault that stopped it, in
/// which case the state is left as it was.
pub open spec fn exec_spec(s: CpuState, op: u32, d: Decoded) -> Result<(CpuState, Step), Fault> {
    let next = d.next;
    if op == 0 {
        Ok((with_pc(s, next), Step::Continue))
    } else if op == 1 {
        mov_spec(s, d)
    } else if 2 <= op <= 11 {
        alu_spec(s, op, d)
    } else if op == 12 {
        jmp_spec(s, d)
    } else if 13 <= op <= 18 {
        match int_imm(d.op1) {
            None => Err(bad_operand(op)),
            Some(t) => if branch_taken((op - 13) as u32, s.regs[21]) {
                Ok((with_pc(s, t), Step::Continue))
            } else {
                Ok((with_pc(s, next), Step::Continue))
            },
        }
    } else if op == 19 {
        match int_imm(d.op1) {
            None => Err(bad_operand(op)),
            Some(t) => Ok((CpuState { calls: s.calls.push(next), pc: t, ..s }, Step::Continue)),
        }
    } else if op == 20 {
        match (freg_dst(d.op1), float_src(s, d.op2)) {
            (Some(r), Some(v)) => Ok(
                (CpuState { fregs: s.fregs.update(r as int, v), pc: next, ..s }, Step::Continue),
            ),
            _ => Err(bad_operand(op)),
        }
    } else if 21 <= op <= 25 {
        farith_spec(s, op, d)
    } else if op == 26 || op == 27 {
        incdec_spec(s, op, d)
    } else if op == 28 || op == 29 {
        match freg_dst(d.op1) {
            Some(r) => Ok(
                (
                    s,
                    Step::Float(
                        FloatRequest {
                            op: if op == 28 {
                                FloatOp::Inc
                            } else {
                                FloatOp::Dec
                            },
                            dst: r,
                            a: s.fregs[r as int],
                            b: 0,
                            next,
                        },
                    ),
                ),
            ),
            None => Err(bad_operand(op)),
        }
    } else if op == 30 || op == 31 {
        match (d.op1, int_imm(d.op2)) {
            (Args::REG(r), Some(bit)) => {
                let old = reg_value(s.regs, r as u64);
                let m = u64_specs::wrapping_shl(1, (bit % 64) as u32);
                let v = if op == 30 {
                    old | m
                } else {
                    old & !m
                };
                Ok((with_pc(with_reg(s, r as u64, v), next), Step::Continue))
            },
            _ => Err(bad_operand(op)),
        }
    } else if op == 32 {
        match float_src(s, d.op1) {
            Some(v) => push_spec(s, v, next),
            None => Err(bad_operand(op)),
        }
    } else if op == 33 {
        match freg_dst(d.op1) {
            Some(r) => match pop_spec(s) {
                Err(f) => Err(f),
                Ok((v, sp)) => Ok(
                    (
                        CpuState {
                            fregs: s.fregs.update(r as int, v),
                            regs: reg_update(s.regs, 80, sp),
                            pc: next,
                            ..s
                        },
                        Step::Continue,
                    ),
                ),
            },
            None => Err(bad_operand(op)),
        }
    } else if op == 34 {
        match int_src(s, d.op1) {
            Some(v) => push_spec(s, v, next),
            None => Err(bad_operand(op)),
        }
    } else if op == 35 {
        match d.op1 {
            Args::REG(r) => match pop_spec(s) {
                Err(f) => Err(f),
                Ok((v, sp)) => Ok(
                    (
                        CpuState { regs: reg_update(reg_update(s.regs, 80, sp), r as u64, v), pc: next, ..s },
                        Step::Continue,
                    ),
                ),
            },
            _ => Err(bad_operand(op)),
        }
    } else if op == 36 {
        match (d.op1, d.op2) {
            (Args::REG(r), Args::OFFSET(b, o)) => Ok(
                (with_pc(with_reg(s, r as u64, offset_addr(s, b, o)), next), Step::Continue),
            ),
            _ => Err(bad_operand(op)),
        }
    } else if op == 37 {
        if s.calls.len() == 0 {
            Ok((s, Step::Halt))
        } else {
            Ok((CpuState { pc: s.calls.last(), calls: s.calls.drop_last(), ..s }, Step::Continue))
        }
    } else if op == 38 {
        match (int_src(s, d.op1), int_src(s, d.op2)) {
            (Some(a), Some(b)) => Ok(
                (with_pc(with_reg(s, 81, s.regs[21] | compare_bit(a, b)), next), Step::Continue),
            ),
            _ => Err(bad_operand(op)),
        }
    } else if op == 39 {
        match (float_src(s, d.op1), float_src(s, d.op2)) {
            (Some(a), Some(b)) => Ok(
                (s, Step::Float(FloatRequest { op: FloatOp::Cmp, dst: 0, a, b, next })),
            ),
            _ => Err(bad_operand(op)),
        }
    } else if 40 <= op <= 42 {
        if d.privileged {
            privileged_spec(s, op, d)
        } else {
            Err(Fault::Trap { kind: 3, info: s.special[3] })
        }
    } else if op == 50 {
        match int_imm(d.op1) {
            None => Err(bad_operand(op)),
            Some(k) => if k != 0 {
                Err(Fault::Fatal(Fatal::UnknownSyscall { kind: k }))
            } else if !d.privileged {
                Err(Fault::Trap { kind: 3, info: s.special[3] })
            } else {
                Err(
                    Fault::Fatal(
                        Fatal::Report { kind: s.special[1], pc: s.special[2], info: s.special[3] },
                    ),
                )
            },
        }
    } else {
        Err(Fault::Trap { kind: 2, info: op as u64 })
    }
}

/// What a fault does to the machine. A trap with a handler installed saves
/// its kind, the faulting pc, its datum and the resume address `resume` in
/// the special registers 1..=4 and enters the handler; one without a
/// handler, and a host error, stop the machine as it is.
pub open spec fn fault_spec(s: CpuState, f: Fault, resume: u64) -> (CpuState, Step) {
    match f {
        Fault::Fatal(x) => (s, Step::Fatal(x)),
        Fault::Trap { kind, info } => if s.special[0] == 0 {
            (s, Step::Fatal(Fatal::Unhandled { kind, pc: s.pc, info }))
        } else {
            (
                CpuState {
                    special: s.special.update(1, kind).update(2, s.pc).update(3, info).update(
                        4,
                        resume,
                    ),
                    pc: s.special[0],
                    ..s
                },
                Step::Continue,
            )
        },
    }
}

/// One fetch-decode-execute step. A trap resumes, after its handler's
/// `IRET`, at the instruction that follows the faulting one.
pub open spec fn step_spec(s: CpuState) -> (CpuState, Step) {
    match load4_spec(s, s.pc) {
        Err(f) => fault_spec(s, f, s.pc),
        Ok(word) => match decode_spec(s, word, s.pc) {
            Err(f) => fault_spec(s, f, s.pc),
            Ok(d) => match exec_spec(s, opcode_of(word), d) {
                Err(f) => fault_spec(s, f, d.next),
                Ok(r) => r,
            },
        },
    }
}

/// Up to `fuel` steps, stopping at the first that does not continue.
pub open spec fn run_spec(s: CpuState, fuel: u64) -> (CpuState, Step)
    decreases fuel,
{
    if fuel == 0 {
        (s, Step::Continue)
    } else {
        let (t, r) = step_spec(s);
        if r is Continue {
            run_spec(t, (fuel - 1) as u64)
        } else {
            (t, r)
        }
    }
}

/// The host's answer to a floating-point request: the result's bit pattern,
/// or for a compare 0 (equal), 1 (greater), 2 (less) or any other value
/// (unordered).
pub open spec fn float_done_spec(s: CpuState, q: FloatRequest, result: u64) -> CpuState {
    if q.op is Cmp {
        let bit: u64 = if result == 0 {
            1
        } else if result == 1 {
            2
        } else if result == 2 {
            4
        } else {
            0
        };
        with_pc(with_reg(s, 81, s.regs[21] | bit), q.next)
    } else {
        CpuState { fregs: s.fregs.update(q.dst as int, result), pc: q.next, ..s }
    }
}

/// With checks on, or off, an access that stays inside the buffer and meets
/// only segment entries that carry `needed` goes ahead; in particular one
/// that lies inside a single entry carrying `needed` and meets no entry
/// lacking it.
pub proof fn lemma_access_granted(s: CpuState, addr: u64, len: u64, needed: u8)
    requires
        len > 0,
        addr + len <= s.mem.len() <= u64::MAX,
        forall|k: int|
            0 <= k < s.gdt.len() && intersects(#[trigger] s.gdt[k], addr as int, addr + len - 1)
                ==> !lacks(s.gdt[k], needed),
    ensures
        access_spec(s, addr, len, needed) is Ok,
{
    lemma_no_denial_iff(s.gdt, addr as int, addr + len - 1, needed);
}

/// With checks on, an access inside the buffer with a byte in a segment
/// entry that lacks `needed` traps with kind 1, whatever other entries hold
/// that byte.
pub proof fn lemma_access_denied(s: CpuState, addr: u64, len: u64, needed: u8, k: int, x: int)
    requires
        checks_on(s),
        len > 0,
        addr + len <= s.mem.len(),
        addr <= x <= addr + len - 1,
        0 <= k < s.gdt.len(),
        covers(s.gdt[k], x),
        lacks(s.gdt[k], needed),
    ensures
        access_spec(s, addr, len, needed) is Err,
        access_spec(s, addr, len, needed)->Err_0 is Trap,
        access_spec(s, addr, len, needed)->Err_0->kind == 1,
{
    lemma_no_denial_iff(s.gdt, addr as int, addr + len - 1, needed);
    assert(intersects(s.gdt[k], addr as int, addr + len - 1));
}

/// Whether the instruction `d` with opcode `op` divides by zero.
pub open spec fn divides_by_zero(s: CpuState, op: u32, d: Decoded) -> bool {
    ||| (op == 5 || op == 6) && int_src(s, d.op3) == Some(0u64)
    ||| (op == 24 || op == 25) && float_src(s, d.op3) is Some && float_is_zero(
        float_src(s, d.op3)->Some_0,
    )
}

/// The instruction at the pc, if it fetches and decodes, is one of the
/// machine's opcodes below the privileged ones and divides by no zero.
pub open spec fn calm_instruction(s: CpuState) -> bool {
    match load4_spec(s, s.pc) {
        Ok(word) => match decode_spec(s, word, s.pc) {
            Ok(d) => opcode_of(word) <= 39 && !divides_by_zero(s, opcode_of(word), d),
            Err(_) => true,
        },
        Err(_) => true,
    }
}

/// Every instruction that a run of up to `fuel` steps from `s` reaches is calm.
pub open spec fn calm_run(s: CpuState, fuel: u64) -> bool
    decreases fuel,
{
    fuel == 0 || (calm_instruction(s) && (step_spec(s).1 is Continue ==> calm_run(
        step_spec(s).0,
        (fuel - 1) as u64,
    )))
}

/// Whether a step result is a trap that found no handler.
pub open spec fn is_unhandled(r: Step) -> bool {
    r is Fatal && r->Fatal_0 is Unhandled
}

proof fn lemma_calm_exec(s: CpuState, op: u32, d: Decoded)
    requires
        well_formed(s),
        !checks_on(s),
        op <= 39,
        !divides_by_zero(s, op, d),
        decoded_valid(d),
    ensures
        exec_spec(s, op, d) is Err ==> exec_spec(s, op, d)->Err_0 is Fatal,
        exec_spec(s, op, d) is Ok ==> ({
            let t = exec_spec(s, op, d)->Ok_0.0;
            t.special == s.special && !checks_on(t) && well_formed(t)
        }),
{
    if op == 38 {
        let f = s.regs[21];
        let m = 0xffff_ffff_ffff_ffffu64;
        assert(f & 8 == 0 ==> ((f & !m) | ((f | 1) & m)) & 8 == 0 && ((f & !m) | ((f | 2) & m)) & 8
            == 0 && ((f & !m) | ((f | 4) & m)) & 8 == 0) by (bit_vector);
    }
}

/// A calm instruction never traps: it enters no handler, stops on no
/// unhandled trap, and leaves the privilege bit clear.
pub proof fn lemma_calm_step(s: CpuState)
    requires
        well_formed(s),
        !checks_on(s),
        calm_instruction(s),
    ensures
        well_formed(step_spec(s).0),
        !is_unhandled(step_spec(s).1),
        step_spec(s).0.special == s.special,
        !checks_on(step_spec(s).0),
{
    match load4_spec(s, s.pc) {
        Ok(word) => match decode_spec(s, word, s.pc) {
            Ok(d) => {
                lemma_decoded_valid(s, word, s.pc);
                lemma_calm_exec(s, opcode_of(word), d);
            },
            Err(_) => {
                lemma_decode_no_trap(s, word, s.pc);
            },
        },
        Err(_) => {},
    }
}

proof fn lemma_operand_no_trap(s: CpuState, tag: u8, at: u64)
    requires
        !checks_on(s),
    ensures
        operand_spec(s, tag, at) is Err ==> operand_spec(s, tag, at)->Err_0 is Fatal,
        operand_spec(s, tag, at) is Ok ==> arg_valid(operand_spec(s, tag, at)->Ok_0.0),
{
    if tag == 83 {
        if let Ok(v) = load8_spec(s, at) {
            assert((v >> 57u64) <= 80 ==> (v >> 57u64) as u8 == v >> 57u64) by (bit_vector);
        }
    }
}

proof fn lemma_decode_no_trap(s: CpuState, word: u32, pc: u64)
    requires
        !checks_on(s),
    ensures
        decode_spec(s, word, pc) is Err ==> decode_spec(s, word, pc)->Err_0 is Fatal,
{
    lemma_operand_no_trap(s, tag1(word), u64_specs::wrapping_add(pc, 4));
    if let Ok((a, at1)) = operand_spec(s, tag1(word), u64_specs::wrapping_add(pc, 4)) {
        lemma_operand_no_trap(s, tag2(word), at1);
        if let Ok((b, at2)) = operand_spec(s, tag2(word), at1) {
            lemma_operand_no_trap(s, tag3(word), at2);
        }
    }
}

proof fn lemma_decoded_valid(s: CpuState, word: u32, pc: u64)
    requires
        !checks_on(s),
        decode_spec(s, word, pc) is Ok,
    ensures
        decoded_valid(decode_spec(s, word, pc)->Ok_0),
{
    lemma_operand_no_trap(s, tag1(word), u64_specs::wrapping_add(pc, 4));
    let (a, at1) = operand_spec(s, tag1(word), u64_specs::wrapping_add(pc, 4))->Ok_0;
    lemma_operand_no_trap(s, tag2(word), at1);
    let (b, at2) = operand_spec(s, tag2(word), at1)->Ok_0;
    lemma_operand_no_trap(s, tag3(word), at2);
}

/// A program that holds no privileged instruction and never divides by
/// zero never traps: started with the privilege bit clear, a run of any
/// length enters no handler and stops on no unhandled trap. A loaded image
/// starts with the bit clear (`Cpu::init` zeroes the flags), and only the
/// privileged `IRET` can set it: no operand names the flags register, tag
/// 81 being an immediate. It ends in
/// `RET` (halt), runs on (out of fuel), hands a float operation to the host,
/// or stops on a broken image.
pub proof fn lemma_calm_run_never_traps(s: CpuState, fuel: u64)
    requires
        well_formed(s),
        !checks_on(s),
        calm_run(s, fuel),
    ensures
        !is_unhandled(run_spec(s, fuel).1),
        run_spec(s, fuel).0.special == s.special,
    decreases fuel,
{
    if fuel > 0 {
        lemma_calm_step(s);
        if step_spec(s).1 is Continue {
            lemma_calm_run_never_traps(step_spec(s).0, (fuel - 1) as u64);
        }
    }
}

/// The machine is deterministic: two machines with the same registers,
/// float registers, special registers, segment table and memory, started
/// by `Cpu::exec` at one address for as many steps, end in one state with
/// one result, whatever calls or pc they held before.
pub proof fn lemma_run_deterministic(s: CpuState, t: CpuState, pc: u64, fuel: u64)
    requires
        s.regs == t.regs,
        s.fregs == t.fregs,
        s.special == t.special,
        s.gdt == t.gdt,
        s.mem == t.mem,
    ensures
        run_spec(CpuState { pc, calls: Seq::empty(), ..s }, fuel) == run_spec(
            CpuState { pc, calls: Seq::empty(), ..t },
            fuel,
        ),
{
    assert(CpuState { pc, calls: Seq::empty(), ..s } == CpuState { pc, calls: Seq::empty(), ..t });
}

} // verus!
