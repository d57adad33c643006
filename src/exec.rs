//! Decoding and executing instructions.
use vstd::prelude::*;
use crate::cpu::Cpu;
use crate::machine::{
    alu_spec, arg_valid, decode_spec, decoded_valid, exec_spec,
    farith_spec, fault_spec, float_done_spec, float_src, immediate,
    incdec_spec, int_src, jmp_spec, mov_spec, offset_addr, operand_spec,
    privileged_spec, push_spec, pop_spec, run_spec, step_spec, with_pc, Args, CpuState, Decoded,
    Fatal, Fault, FloatOp, FloatRequest, Step, OFFSET_MASK,
};
use crate::regs::{FLAGS, SP};
use crate::segment::{Area, EXEC};

verus! {

/// The operand of tag `value`: the register `value` for a tag up to 80,
/// else the immediate that the doubleword `v` makes (ignored for a register).
pub fn read_args(value: u8, v: u64) -> (r: Args)
    requires
        value <= 83,
    ensures
        r == immediate(value, v),
{
    if value <= 80 {
        Args::REG(value)
    } else if value == 81 {
        Args::INT(v)
    } else if value == 82 {
        Args::DECIMAL(v)
    } else {
        Args::OFFSET((v >> 57u64) as u8, v & OFFSET_MASK)
    }
}

impl Cpu {
    fn operand(&self, tag: u8, at: u64) -> (r: Result<(Args, u64), Fault>)
        ensures
            r == operand_spec(self@, tag, at),
            r is Ok ==> arg_valid(r->Ok_0.0),
    {
        if tag <= 80 {
            Ok((read_args(tag, 0), at))
        } else if tag <= 83 {
            // The buffer's length fits a usize, so `at + 8` below cannot overflow.
            let _len = self.mem_size();
            match self.read_u64(at) {
                Err(f) => Err(f),
                Ok(v) => {
                    if tag == 83 && (v >> 57u64) > 80 {
                        return Err(Fault::Fatal(Fatal::IllegalOperand { tag }));
                    }
                    let r = read_args(tag, v);
                    assert(tag == 83 ==> (v >> 57u64) as u8 == v >> 57u64) by (bit_vector)
                        requires (tag == 83 ==> (v >> 57u64) <= 80);
                    Ok((r, at + 8))
                },
            }
        } else {
            Err(Fault::Fatal(Fatal::IllegalOperand { tag }))
        }
    }

    /// Splits the word `ins` fetched at `offset` into its operands, reading
    /// the inline immediates that follow it.
    pub fn decode(&self, ins: u32, offset: u64) -> (r: Result<Decoded, Fault>)
        ensures
            r == decode_spec(self@, ins, offset),
            r is Ok ==> decoded_valid(r->Ok_0),
    {
        let arg1 = ((ins >> 15u32) & 127) as u8;
        let arg2 = ((ins >> 8u32) & 127) as u8;
        let arg3 = ((ins >> 1u32) & 127) as u8;
        let pc = offset.wrapping_add(4);
        let (a, at1) = match self.operand(arg1, pc) {
            Err(f) => return Err(f),
            Ok(x) => x,
        };
        let (b, at2) = match self.operand(arg2, at1) {
            Err(f) => return Err(f),
            Ok(x) => x,
        };
        let (c, at3) = match self.operand(arg3, at2) {
            Err(f) => return Err(f),
            Ok(x) => x,
        };
        Ok(Decoded { op1: a, op2: b, op3: c, privileged: ins & 1 != 0, next: at3 })
    }

    fn int_value(&self, a: Args) -> (r: Option<u64>)
        requires
            arg_valid(a),
        ensures
            r == int_src(self@, a),
    {
        match a {
            Args::REG(r) => Some(self.regs.get(r as u64)),
            Args::INT(v) => Some(v),
            _ => None,
        }
    }

    fn float_value(&self, a: Args) -> (r: Option<u64>)
        ensures
            r == float_src(self@, a),
    {
        match a {
            Args::DECIMAL(v) => Some(v),
            Args::REG(r) => if r < 20 {
                Some(self.fregs[r as usize])
            } else {
                None
            },
            _ => None,
        }
    }

    fn offset_address(&self, base: u8, off: u64) -> (r: u64)
        requires
            base <= 80,
        ensures
            r == offset_addr(self@, base, off),
    {
        self.regs.get(base as u64).wrapping_add(off)
    }

    /// Writes the eight bytes of `v` at `addr`.
    fn store(&mut self, addr: u64, v: u64) -> (r: Result<(), Fault>)
        ensures
            r is Ok <==> crate::machine::store8_spec(old(self)@, addr, v) is Ok,
            r is Ok ==> final(self)@ == (CpuState {
                mem: crate::machine::store8_spec(old(self)@, addr, v)->Ok_0,
                ..old(self)@
            }),
            r is Err ==> r->Err_0 == crate::machine::store8_spec(old(self)@, addr, v)->Err_0
                && final(self)@ == old(self)@,
    {
        let bytes = crate::codec::u64_to_u8(v);
        self.write(addr, bytes.as_slice())
    }

    fn exec_mov(&mut self, d: Decoded) -> (r: Result<Step, Fault>)
        requires
            decoded_valid(d),
        ensures
            r is Ok ==> mov_spec(old(self)@, d) == Ok::<(CpuState, Step), Fault>((final(self)@, r->Ok_0)),
            r is Err ==> mov_spec(old(self)@, d) == Err::<(CpuState, Step), Fault>(r->Err_0) && final(self)@ == old(self)@,
    {
        let v = match d.op2 {
            Args::REG(r) => self.regs.get(r as u64),
            Args::INT(v) => v,
            Args::OFFSET(b, o) => {
                let addr = self.offset_address(b, o);
                match self.read_u64(addr) {
                    Err(f) => return Err(f),
                    Ok(v) => v,
                }
            },
            _ => return Err(Fault::Fatal(Fatal::BadOperand { opcode: 1 })),
        };
        match d.op1 {
            Args::REG(r) => {
                self.regs.set(r as u64, v);
                self.pc = d.next;
                Ok(Step::Continue)
            },
            Args::OFFSET(b, o) => {
                let addr = self.offset_address(b, o);
                match self.store(addr, v) {
                    Err(f) => Err(f),
                    Ok(()) => {
                        self.pc = d.next;
                        Ok(Step::Continue)
                    },
                }
            },
            _ => Err(Fault::Fatal(Fatal::BadOperand { opcode: 1 })),
        }
    }

    fn exec_alu(&mut self, op: u32, d: Decoded) -> (r: Result<Step, Fault>)
        requires
            decoded_valid(d),
            2 <= op <= 11,
        ensures
            r is Ok ==> alu_spec(old(self)@, op, d) == Ok::<(CpuState, Step), Fault>((final(self)@, r->Ok_0)),
            r is Err ==> alu_spec(old(self)@, op, d) == Err::<(CpuState, Step), Fault>(r->Err_0) && final(self)@ == old(self)@,
    {
        let a = self.int_value(d.op2);
        let b = self.int_value(d.op3);
        match (d.op1, a, b) {
            (Args::REG(r), Some(a), Some(b)) => {
                let k = op - 2;
                if (k == 3 || k == 4) && b == 0 {
                    return Err(Fault::Trap { kind: 0, info: self.special[3] });
                }
                let v = if k == 0 {
                    a.wrapping_add(b)
                } else if k == 1 {
                    a.wrapping_sub(b)
                } else if k == 2 {
                    a.wrapping_mul(b)
                } else if k == 3 {
                    a / b
                } else if k == 4 {
                    a % b
                } else if k == 5 {
                    a | b
                } else if k == 6 {
                    a & b
                } else if k == 7 {
                    a ^ b
                } else if k == 8 {
                    a.wrapping_shl((b % 64) as u32)
                } else {
                    a.wrapping_shr((b % 64) as u32)
                };
                self.regs.set(r as u64, v);
                self.pc = d.next;
                Ok(Step::Continue)
            },
            _ => Err(Fault::Fatal(Fatal::BadOperand { opcode: op })),
        }
    }

    fn exec_jmp(&mut self, d: Decoded) -> (r: Result<Step, Fault>)
        requires
            decoded_valid(d),
        ensures
            r is Ok ==> jmp_spec(old(self)@, d) == Ok::<(CpuState, Step), Fault>((final(self)@, r->Ok_0)),
            r is Err ==> jmp_spec(old(self)@, d) == Err::<(CpuState, Step), Fault>(r->Err_0) && final(self)@ == old(self)@,
    {
        match self.int_value(d.op1) {
            None => Err(Fault::Fatal(Fatal::BadOperand { opcode: 12 })),
            Some(t) => {
                let end = if t == u64::MAX {
                    t
                } else {
                    t + 1
                };
                match self.check_permission(t, end, EXEC) {
                    Ok(()) => {
                        self.pc = t;
                        Ok(Step::Continue)
                    },
                    Err(p) => Err(Fault::Trap { kind: 1, info: p as u64 }),
                }
            },
        }
    }

    fn exec_incdec(&mut self, op: u32, d: Decoded) -> (r: Result<Step, Fault>)
        requires
            decoded_valid(d),
            op == 26 || op == 27,
        ensures
            r is Ok ==> incdec_spec(old(self)@, op, d) == Ok::<(CpuState, Step), Fault>((final(self)@, r->Ok_0)),
            r is Err ==> incdec_spec(old(self)@, op, d) == Err::<(CpuState, Step), Fault>(r->Err_0) && final(self)@ == old(self)@,
    {
        match d.op1 {
            Args::REG(r) => {
                let v = self.regs.get(r as u64);
                let w = if op == 26 {
                    v.wrapping_add(1)
                } else {
                    v.wrapping_sub(1)
                };
                self.regs.set(r as u64, w);
                self.pc = d.next;
                Ok(Step::Continue)
            },
            Args::OFFSET(b, o) => {
                let addr = self.offset_address(b, o);
                let v = match self.read_u64(addr) {
                    Err(f) => return Err(f),
                    Ok(v) => v,
                };
                let w = if op == 26 {
                    v.wrapping_add(1)
                } else {
                    v.wrapping_sub(1)
                };
                match self.store(addr, w) {
                    Err(f) => Err(f),
                    Ok(()) => {
                        self.pc = d.next;
                        Ok(Step::Continue)
                    },
                }
            },
            _ => Err(Fault::Fatal(Fatal::BadOperand { opcode: op })),
        }
    }

    fn exec_farith(&mut self, op: u32, d: Decoded) -> (r: Result<Step, Fault>)
        requires
            decoded_valid(d),
            21 <= op <= 25,
        ensures
            r is Ok ==> farith_spec(old(self)@, op, d) == Ok::<(CpuState, Step), Fault>((final(self)@, r->Ok_0)),
            r is Err ==> farith_spec(old(self)@, op, d) == Err::<(CpuState, Step), Fault>(r->Err_0) && final(self)@ == old(self)@,
    {
        let dst = match d.op1 {
            Args::REG(r) => if r < 20 {
                Some(r)
            } else {
                None
            },
            _ => None,
        };
        let a = self.float_value(d.op2);
        let b = self.float_value(d.op3);
        match (dst, a, b) {
            (Some(r), Some(a), Some(b)) => {
                if (op == 24 || op == 25) && b & 0x7fff_ffff_ffff_ffff == 0 {
                    return Err(Fault::Trap { kind: 0, info: self.special[3] });
                }
                let fop = if op == 21 {
                    FloatOp::Add
                } else if op == 22 {
                    FloatOp::Sub
                } else if op == 23 {
                    FloatOp::Mul
                } else if op == 24 {
                    FloatOp::Div
                } else {
                    FloatOp::Mod
                };
                Ok(Step::Float(FloatRequest { op: fop, dst: r, a, b, next: d.next }))
            },
            _ => Err(Fault::Fatal(Fatal::BadOperand { opcode: op })),
        }
    }

    fn push_word(&mut self, v: u64, next: u64) -> (r: Result<Step, Fault>)
        ensures
            r is Ok ==> push_spec(old(self)@, v, next) == Ok::<(CpuState, Step), Fault>((final(self)@, r->Ok_0)),
            r is Err ==> push_spec(old(self)@, v, next) == Err::<(CpuState, Step), Fault>(r->Err_0) && final(self)@ == old(self)@,
    {
        let sp = self.regs.get(SP).wrapping_sub(8);
        match self.store(sp, v) {
            Err(f) => Err(f),
            Ok(()) => {
                self.regs.set(SP, sp);
                self.pc = next;
                Ok(Step::Continue)
            },
        }
    }

    fn pop_word(&self) -> (r: Result<(u64, u64), Fault>)
        ensures
            r == pop_spec(self@),
    {
        let sp = self.regs.get(SP);
        match self.read_u64(sp) {
            Err(f) => Err(f),
            Ok(v) => Ok((v, sp.wrapping_add(8))),
        }
    }

    fn exec_privileged(&mut self, op: u32, d: Decoded) -> (r: Result<Step, Fault>)
        requires
            40 <= op <= 42,
        ensures
            r is Ok ==> privileged_spec(old(self)@, op, d) == Ok::<(CpuState, Step), Fault>((final(self)@, r->Ok_0)),
            r is Err ==> privileged_spec(old(self)@, op, d) == Err::<(CpuState, Step), Fault>(r->Err_0) && final(self)@ == old(self)@,
    {
        if op == 40 {
            match d.op1 {
                Args::INT(h) => {
                    self.special[0] = h;
                    self.pc = d.next;
                    Ok(Step::Continue)
                },
                _ => Err(Fault::Fatal(Fatal::BadOperand { opcode: op })),
            }
        } else if op == 41 {
            let saved = self.regs.0[0];
            self.regs.set(FLAGS, saved);
            self.pc = self.special[4];
            Ok(Step::Continue)
        } else {
            match (d.op1, d.op2, d.op3) {
                (Args::INT(b), Args::INT(e), Args::INT(p)) => {
                    self.gdt.push(Area { begin: b, end: e, perm: p as u8 });
                    self.pc = d.next;
                    Ok(Step::Continue)
                },
                _ => Err(Fault::Fatal(Fatal::BadOperand { opcode: op })),
            }
        }
    }

    /// Runs the decoded instruction `d` with opcode `op`. On a fault the
    /// machine is left as it was.
    pub fn execute(&mut self, op: u32, d: Decoded) -> (r: Result<Step, Fault>)
        requires
            decoded_valid(d),
        ensures
            r is Ok ==> exec_spec(old(self)@, op, d) == Ok::<(CpuState, Step), Fault>((final(self)@, r->Ok_0)),
            r is Err ==> exec_spec(old(self)@, op, d) == Err::<(CpuState, Step), Fault>(r->Err_0) && final(self)@ == old(self)@,
    {
        let next = d.next;
        if op == 0 {
            self.pc = next;
            Ok(Step::Continue)
        } else if op == 1 {
            self.exec_mov(d)
        } else if 2 <= op && op <= 11 {
            self.exec_alu(op, d)
        } else if op == 12 {
            self.exec_jmp(d)
        } else if 13 <= op && op <= 18 {
            match d.op1 {
                Args::INT(t) => {
                    let flags = self.regs.0[21];
                    let k = op - 13;
                    let eq = flags & 1 != 0;
                    let gt = flags & 2 != 0;
                    let lt = flags & 4 != 0;
                    let taken = if k == 0 {
                        eq
                    } else if k == 1 {
                        !eq
                    } else if k == 2 {
                        gt || eq
                    } else if k == 3 {
                        gt
                    } else if k == 4 {
                        lt || eq
                    } else {
                        lt
                    };
                    self.pc = if taken {
                        t
                    } else {
                        next
                    };
                    Ok(Step::Continue)
                },
                _ => Err(Fault::Fatal(Fatal::BadOperand { opcode: op })),
            }
        } else if op == 19 {
            match d.op1 {
                Args::INT(t) => {
                    self.calls.push(next);
                    self.pc = t;
                    Ok(Step::Continue)
                },
                _ => Err(Fault::Fatal(Fatal::BadOperand { opcode: op })),
            }
        } else if op == 20 {
            let v = self.float_value(d.op2);
            match (d.op1, v) {
                (Args::REG(r), Some(v)) => {
                    if r >= 20 {
                        return Err(Fault::Fatal(Fatal::BadOperand { opcode: op }));
                    }
                    self.fregs[r as usize] = v;
                    self.pc = next;
                    Ok(Step::Continue)
                },
                _ => Err(Fault::Fatal(Fatal::BadOperand { opcode: op })),
            }
        } else if 21 <= op && op <= 25 {
            self.exec_farith(op, d)
        } else if op == 26 || op == 27 {
            self.exec_incdec(op, d)
        } else if op == 28 || op == 29 {
            match d.op1 {
                Args::REG(r) => {
                    if r >= 20 {
                        return Err(Fault::Fatal(Fatal::BadOperand { opcode: op }));
                    }
                    let fop = if op == 28 {
                        FloatOp::Inc
                    } else {
                        FloatOp::Dec
                    };
                    Ok(Step::Float(FloatRequest { op: fop, dst: r, a: self.fregs[r as usize], b: 0, next }))
                },
                _ => Err(Fault::Fatal(Fatal::BadOperand { opcode: op })),
            }
        } else if op == 30 || op == 31 {
            match (d.op1, d.op2) {
                (Args::REG(r), Args::INT(bit)) => {
                    let old = self.regs.get(r as u64);
                    let m = 1u64.wrapping_shl((bit % 64) as u32);
                    let v = if op == 30 {
                        old | m
                    } else {
                        old & !m
                    };
                    self.regs.set(r as u64, v);
                    self.pc = next;
                    Ok(Step::Continue)
                },
                _ => Err(Fault::Fatal(Fatal::BadOperand { opcode: op })),
            }
        } else if op == 32 {
            match self.float_value(d.op1) {
                Some(v) => self.push_word(v, next),
                None => Err(Fault::Fatal(Fatal::BadOperand { opcode: op })),
            }
        } else if op == 33 {
            match d.op1 {
                Args::REG(r) => {
                    if r >= 20 {
                        return Err(Fault::Fatal(Fatal::BadOperand { opcode: op }));
                    }
                    match self.pop_word() {
                        Err(f) => Err(f),
                        Ok((v, sp)) => {
                            self.fregs[r as usize] = v;
                            self.regs.set(SP, sp);
                            self.pc = next;
                            Ok(Step::Continue)
                        },
                    }
                },
                _ => Err(Fault::Fatal(Fatal::BadOperand { opcode: op })),
            }
        } else if op == 34 {
            match self.int_value(d.op1) {
                Some(v) => self.push_word(v, next),
                None => Err(Fault::Fatal(Fatal::BadOperand { opcode: op })),
            }
        } else if op == 35 {
            match d.op1 {
                Args::REG(r) => match self.pop_word() {
                    Err(f) => Err(f),
                    Ok((v, sp)) => {
                        self.regs.set(SP, sp);
                        self.regs.set(r as u64, v);
                        self.pc = next;
                        Ok(Step::Continue)
                    },
                },
                _ => Err(Fault::Fatal(Fatal::BadOperand { opcode: op })),
            }
        } else if op == 36 {
            match (d.op1, d.op2) {
                (Args::REG(r), Args::OFFSET(b, o)) => {
                    let v = self.offset_address(b, o);
                    self.regs.set(r as u64, v);
                    self.pc = next;
                    Ok(Step::Continue)
                },
                _ => Err(Fault::Fatal(Fatal::BadOperand { opcode: op })),
            }
        } else if op == 37 {
            match self.calls.pop() {
                None => Ok(Step::Halt),
                Some(t) => {
                    self.pc = t;
                    Ok(Step::Continue)
                },
            }
        } else if op == 38 {
            match (self.int_value(d.op1), self.int_value(d.op2)) {
                (Some(a), Some(b)) => {
                    let bit: u64 = if a == b {
                        1
                    } else if a > b {
                        2
                    } else {
                        4
                    };
                    let flags = self.regs.0[21];
                    self.regs.set(FLAGS, flags | bit);
                    self.pc = next;
                    Ok(Step::Continue)
                },
                _ => Err(Fault::Fatal(Fatal::BadOperand { opcode: op })),
            }
        } else if op == 39 {
            match (self.float_value(d.op1), self.float_value(d.op2)) {
                (Some(a), Some(b)) => Ok(Step::Float(FloatRequest { op: FloatOp::Cmp, dst: 0, a, b, next })),
                _ => Err(Fault::Fatal(Fatal::BadOperand { opcode: op })),
            }
        } else if 40 <= op && op <= 42 {
            if d.privileged {
                self.exec_privileged(op, d)
            } else {
                Err(Fault::Trap { kind: 3, info: self.special[3] })
            }
        } else if op == 50 {
            match d.op1 {
                Args::INT(k) => if k != 0 {
                    Err(Fault::Fatal(Fatal::UnknownSyscall { kind: k }))
                } else if !d.privileged {
                    Err(Fault::Trap { kind: 3, info: self.special[3] })
                } else {
                    Err(Fault::Fatal(Fatal::Report { kind: self.special[1], pc: self.special[2], info: self.special[3] }))
                },
                _ => Err(Fault::Fatal(Fatal::BadOperand { opcode: op })),
            }
        } else {
            Err(Fault::Trap { kind: 2, info: op as u64 })
        }
    }

    /// Raises a trap of kind `extype` with datum `info`. With a handler
    /// installed, saves the kind, the faulting pc, the datum and the resume
    /// address `resume` in the special registers 1..=4 and enters the
    /// handler; without one, the machine stops.
    pub fn throw(&mut self, extype: u64, info: u64, resume: u64) -> (r: Step)
        ensures
            (final(self)@, r) == fault_spec(old(self)@, Fault::Trap { kind: extype, info }, resume),
    {
        if self.special[0] == 0 {
            return Step::Fatal(Fatal::Unhandled { kind: extype, pc: self.pc, info });
        }
        self.special[1] = extype;
        self.special[2] = self.pc;
        self.special[3] = info;
        self.special[4] = resume;
        self.pc = self.special[0];
        assert(self@.special =~= old(self)@.special.update(1, extype).update(2, old(self)@.pc).update(3, info).update(4, resume));
        Step::Continue
    }

    fn fault(&mut self, f: Fault, resume: u64) -> (r: Step)
        ensures
            (final(self)@, r) == fault_spec(old(self)@, f, resume),
    {
        match f {
            Fault::Fatal(x) => Step::Fatal(x),
            Fault::Trap { kind, info } => self.throw(kind, info, resume),
        }
    }

    /// Fetches, decodes and executes the instruction at `pc`.
    pub fn step(&mut self) -> (r: Step)
        ensures
            (final(self)@, r) == step_spec(old(self)@),
    {
        let pc = self.pc;
        let word = match self.read_u32(pc) {
            Ok(w) => w,
            Err(f) => return self.fault(f, pc),
        };
        let d = match self.decode(word, pc) {
            Ok(d) => d,
            Err(f) => return self.fault(f, pc),
        };
        match self.execute(word >> 22u32, d) {
            Ok(r) => r,
            Err(f) => self.fault(f, d.next),
        }
    }

    /// Runs up to `fuel` steps from the current pc, stopping at the first
    /// that does not continue.
    pub fn run(&mut self, fuel: u64) -> (r: Step)
        ensures
            (final(self)@, r) == run_spec(old(self)@, fuel),
    {
        let mut n = fuel;
        while n > 0
            invariant
                run_spec(self@, n) == run_spec(old(self)@, fuel),
            decreases n,
        {
            let r = self.step();
            match r {
                Step::Continue => {},
                _ => return r,
            }
            n = n - 1;
        }
        Step::Continue
    }

    /// Starts execution at `pc` with an empty call stack and runs up to
    /// `fuel` steps.
    pub fn exec(&mut self, pc: u64, fuel: u64) -> (r: Step)
        ensures
            (final(self)@, r) == run_spec(CpuState { pc, calls: Seq::empty(), ..old(self)@ }, fuel),
    {
        self.pc = pc;
        self.calls = Vec::new();
        assert(self@ == CpuState { pc, calls: Seq::empty(), ..old(self)@ });
        self.run(fuel)
    }

    /// Completes a floating-point request with the host's answer `result`:
    /// the bit pattern of the result, or for a compare 0 (equal), 1
    /// (greater), 2 (less) or another value (unordered).
    pub fn finish_float(&mut self, q: FloatRequest, result: u64)
        requires
            q.dst < 20,
        ensures
            final(self)@ == float_done_spec(old(self)@, q, result),
    {
        match q.op {
            FloatOp::Cmp => {
                let bit: u64 = if result == 0 {
                    1
                } else if result == 1 {
                    2
                } else if result == 2 {
                    4
                } else {
                    0
                };
                let flags = self.regs.0[21];
                self.regs.set(FLAGS, flags | bit);
            },
            _ => {
                self.fregs[q.dst as usize] = result;
            },
        }
        self.pc = q.next;
    }
}

} // verus!
