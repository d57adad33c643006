//! The assembler's instruction set, and the parser that turns token lines
//! into functions of instructions.
use vstd::prelude::*;
use crate::token::{fits, float_candidate, line_split, parse_int, parse_radix, split_result, token_shape, tokens_fit, FloatSyntax, Shape, Token};

verus! {

/// Whether the characters `v` spell the literal `lit`.
pub fn chars_eq(v: &[char], lit: &str) -> (r: bool)
    ensures
        r == (v@ == lit@),
{
    let n = lit.unicode_len();
    if v.len() != n {
        return false;
    }
    let mut i: usize = 0;
    while i < n
        invariant
            i <= n,
            n == lit@.len(),
            v@.len() == n,
            forall|j: int| 0 <= j < i ==> v@[j] == lit@[j],
        decreases n - i,
    {
        if v[i] != lit.get_char(i) {
            assert(v@[i as int] != lit@[i as int]);
            return false;
        }
        i = i + 1;
    }
    assert(v@ =~= lit@);
    true
}

/// The mnemonics of the assembler, in opcode order.
#[derive(Clone, Copy, Debug, PartialEq, Eq, Structural)]
pub enum Instruction {
    NOP,
    MOV,
    ADD,
    SUB,
    MUL,
    DIV,
    MOD,
    OR,
    AND,
    XOR,
    SHL,
    SHR,
    JMP,
    JE,
    JNE,
    JGE,
    JGT,
    JLE,
    JLT,
    CALL,
    FMOV,
    FADD,
    FSUB,
    FMUL,
    FDIV,
    FMOD,
    INC,
    DEC,
    FINC,
    FDEC,
    SET,
    CLEAR,
    FPUSH,
    FPOP,
    PUSH,
    POP,
    LEA,
    RET,
    CMP,
    FCMP,
}

impl Instruction {
    /// The opcode of the mnemonic.
    pub open spec fn spec_code(self) -> u32 {
        match self {
            Instruction::NOP => 0,
            Instruction::MOV => 1,
            Instruction::ADD => 2,
            Instruction::SUB => 3,
            Instruction::MUL => 4,
            Instruction::DIV => 5,
            Instruction::MOD => 6,
            Instruction::OR => 7,
            Instruction::AND => 8,
            Instruction::XOR => 9,
            Instruction::SHL => 10,
            Instruction::SHR => 11,
            Instruction::JMP => 12,
            Instruction::JE => 13,
            Instruction::JNE => 14,
            Instruction::JGE => 15,
            Instruction::JGT => 16,
            Instruction::JLE => 17,
            Instruction::JLT => 18,
            Instruction::CALL => 19,
            Instruction::FMOV => 20,
            Instruction::FADD => 21,
            Instruction::FSUB => 22,
            Instruction::FMUL => 23,
            Instruction::FDIV => 24,
            Instruction::FMOD => 25,
            Instruction::INC => 26,
            Instruction::DEC => 27,
            Instruction::FINC => 28,
            Instruction::FDEC => 29,
            Instruction::SET => 30,
            Instruction::CLEAR => 31,
            Instruction::FPUSH => 32,
            Instruction::FPOP => 33,
            Instruction::PUSH => 34,
            Instruction::POP => 35,
            Instruction::LEA => 36,
            Instruction::RET => 37,
            Instruction::CMP => 38,
            Instruction::FCMP => 39,
        }
    }

    /// The opcode of the mnemonic.
    pub fn code(&self) -> (r: u32)
        ensures
            r == self.spec_code(),
    {
        match self {
            Instruction::NOP => 0,
            Instruction::MOV => 1,
            Instruction::ADD => 2,
            Instruction::SUB => 3,
            Instruction::MUL => 4,
            Instruction::DIV => 5,
            Instruction::MOD => 6,
            Instruction::OR => 7,
            Instruction::AND => 8,
            Instruction::XOR => 9,
            Instruction::SHL => 10,
            Instruction::SHR => 11,
            Instruction::JMP => 12,
            Instruction::JE => 13,
            Instruction::JNE => 14,
            Instruction::JGE => 15,
            Instruction::JGT => 16,
            Instruction::JLE => 17,
            Instruction::JLT => 18,
            Instruction::CALL => 19,
            Instruction::FMOV => 20,
            Instruction::FADD => 21,
            Instruction::FSUB => 22,
            Instruction::FMUL => 23,
            Instruction::FDIV => 24,
            Instruction::FMOD => 25,
            Instruction::INC => 26,
            Instruction::DEC => 27,
            Instruction::FINC => 28,
            Instruction::FDEC => 29,
            Instruction::SET => 30,
            Instruction::CLEAR => 31,
            Instruction::FPUSH => 32,
            Instruction::FPOP => 33,
            Instruction::PUSH => 34,
            Instruction::POP => 35,
            Instruction::LEA => 36,
            Instruction::RET => 37,
            Instruction::CMP => 38,
            Instruction::FCMP => 39,
        }
    }
}

/// The mnemonic that `s` names, all lower case or all upper case, with the
/// number of words its line holds (the name and its operands).
pub open spec fn mnemonic(s: Seq<char>) -> Option<(Instruction, usize)> {
    if s == "nop"@ || s == "NOP"@ {
        Some((Instruction::NOP, 1))
    } else if s == "mov"@ || s == "MOV"@ {
        Some((Instruction::MOV, 3))
    } else if s == "add"@ || s == "ADD"@ {
        Some((Instruction::ADD, 4))
    } else if s == "sub"@ || s == "SUB"@ {
        Some((Instruction::SUB, 4))
    } else if s == "mul"@ || s == "MUL"@ {
        Some((Instruction::MUL, 4))
    } else if s == "div"@ || s == "DIV"@ {
        Some((Instruction::DIV, 4))
    } else if s == "mod"@ || s == "MOD"@ {
        Some((Instruction::MOD, 4))
    } else if s == "or"@ || s == "OR"@ {
        Some((Instruction::OR, 4))
    } else if s == "and"@ || s == "AND"@ {
        Some((Instruction::AND, 4))
    } else if s == "xor"@ || s == "XOR"@ {
        Some((Instruction::XOR, 4))
    } else if s == "shl"@ || s == "SHL"@ {
        Some((Instruction::SHL, 4))
    } else if s == "shr"@ || s == "SHR"@ {
        Some((Instruction::SHR, 4))
    } else if s == "jmp"@ || s == "JMP"@ {
        Some((Instruction::JMP, 2))
    } else if s == "je"@ || s == "JE"@ {
        Some((Instruction::JE, 2))
    } else if s == "jne"@ || s == "JNE"@ {
        Some((Instruction::JNE, 2))
    } else if s == "jge"@ || s == "JGE"@ {
        Some((Instruction::JGE, 2))
    } else if s == "jgt"@ || s == "JGT"@ {
        Some((Instruction::JGT, 2))
    } else if s == "jle"@ || s == "JLE"@ {
        Some((Instruction::JLE, 2))
    } else if s == "jlt"@ || s == "JLT"@ {
        Some((Instruction::JLT, 2))
    } else if s == "call"@ || s == "CALL"@ {
        Some((Instruction::CALL, 2))
    } else if s == "fmov"@ || s == "FMOV"@ {
        Some((Instruction::FMOV, 3))
    } else if s == "fadd"@ || s == "FADD"@ {
        Some((Instruction::FADD, 4))
    } else if s == "fsub"@ || s == "FSUB"@ {
        Some((Instruction::FSUB, 4))
    } else if s == "fmul"@ || s == "FMUL"@ {
        Some((Instruction::FMUL, 4))
    } else if s == "fdiv"@ || s == "FDIV"@ {
        Some((Instruction::FDIV, 4))
    } else if s == "fmod"@ || s == "FMOD"@ {
        Some((Instruction::FMOD, 4))
    } else if s == "inc"@ || s == "INC"@ {
        Some((Instruction::INC, 2))
    } else if s == "dec"@ || s == "DEC"@ {
        Some((Instruction::DEC, 2))
    } else if s == "finc"@ || s == "FINC"@ {
        Some((Instruction::FINC, 2))
    } else if s == "fdec"@ || s == "FDEC"@ {
        Some((Instruction::FDEC, 2))
    } else if s == "set"@ || s == "SET"@ {
        Some((Instruction::SET, 3))
    } else if s == "clear"@ || s == "CLEAR"@ {
        Some((Instruction::CLEAR, 3))
    } else if s == "fpush"@ || s == "FPUSH"@ {
        Some((Instruction::FPUSH, 2))
    } else if s == "fpop"@ || s == "FPOP"@ {
        Some((Instruction::FPOP, 2))
    } else if s == "push"@ || s == "PUSH"@ {
        Some((Instruction::PUSH, 2))
    } else if s == "pop"@ || s == "POP"@ {
        Some((Instruction::POP, 2))
    } else if s == "lea"@ || s == "LEA"@ {
        Some((Instruction::LEA, 3))
    } else if s == "ret"@ || s == "RET"@ {
        Some((Instruction::RET, 1))
    } else if s == "cmp"@ || s == "CMP"@ {
        Some((Instruction::CMP, 3))
    } else if s == "fcmp"@ || s == "FCMP"@ {
        Some((Instruction::FCMP, 3))
    } else {
        None
    }
}

impl Instruction {
    /// Looks up a mnemonic, all lower case or all upper case; gives the
    /// instruction and the number of words its line holds.
    pub fn new(name: &[char]) -> (r: Result<(Self, usize), &'static str>)
        ensures
            r is Ok <==> mnemonic(name@) is Some,
            r is Ok ==> r->Ok_0 == mnemonic(name@)->Some_0,
            r is Err ==> r->Err_0@ == "Invalid instruction"@,
    {
        if chars_eq(name, "nop") || chars_eq(name, "NOP") {
            Ok((Instruction::NOP, 1))
        } else if chars_eq(name, "mov") || chars_eq(name, "MOV") {
            Ok((Instruction::MOV, 3))
        } else if chars_eq(name, "add") || chars_eq(name, "ADD") {
            Ok((Instruction::ADD, 4))
        } else if chars_eq(name, "sub") || chars_eq(name, "SUB") {
            Ok((Instruction::SUB, 4))
        } else if chars_eq(name, "mul") || chars_eq(name, "MUL") {
            Ok((Instruction::MUL, 4))
        } else if chars_eq(name, "div") || chars_eq(name, "DIV") {
            Ok((Instruction::DIV, 4))
        } else if chars_eq(name, "mod") || chars_eq(name, "MOD") {
            Ok((Instruction::MOD, 4))
        } else if chars_eq(name, "or") || chars_eq(name, "OR") {
            Ok((Instruction::OR, 4))
        } else if chars_eq(name, "and") || chars_eq(name, "AND") {
            Ok((Instruction::AND, 4))
        } else if chars_eq(name, "xor") || chars_eq(name, "XOR") {
            Ok((Instruction::XOR, 4))
        } else if chars_eq(name, "shl") || chars_eq(name, "SHL") {
            Ok((Instruction::SHL, 4))
        } else if chars_eq(name, "shr") || chars_eq(name, "SHR") {
            Ok((Instruction::SHR, 4))
        } else if chars_eq(name, "jmp") || chars_eq(name, "JMP") {
            Ok((Instruction::JMP, 2))
        } else if chars_eq(name, "je") || chars_eq(name, "JE") {
            Ok((Instruction::JE, 2))
        } else if chars_eq(name, "jne") || chars_eq(name, "JNE") {
            Ok((Instruction::JNE, 2))
        } else if chars_eq(name, "jge") || chars_eq(name, "JGE") {
            Ok((Instruction::JGE, 2))
        } else if chars_eq(name, "jgt") || chars_eq(name, "JGT") {
            Ok((Instruction::JGT, 2))
        } else if chars_eq(name, "jle") || chars_eq(name, "JLE") {
            Ok((Instruction::JLE, 2))
        } else if chars_eq(name, "jlt") || chars_eq(name, "JLT") {
            Ok((Instruction::JLT, 2))
        } else if chars_eq(name, "call") || chars_eq(name, "CALL") {
            Ok((Instruction::CALL, 2))
        } else if chars_eq(name, "fmov") || chars_eq(name, "FMOV") {
            Ok((Instruction::FMOV, 3))
        } else if chars_eq(name, "fadd") || chars_eq(name, "FADD") {
            Ok((Instruction::FADD, 4))
        } else if chars_eq(name, "fsub") || chars_eq(name, "FSUB") {
            Ok((Instruction::FSUB, 4))
        } else if chars_eq(name, "fmul") || chars_eq(name, "FMUL") {
            Ok((Instruction::FMUL, 4))
        } else if chars_eq(name, "fdiv") || chars_eq(name, "FDIV") {
            Ok((Instruction::FDIV, 4))
        } else if chars_eq(name, "fmod") || chars_eq(name, "FMOD") {
            Ok((Instruction::FMOD, 4))
        } else if chars_eq(name, "inc") || chars_eq(name, "INC") {
            Ok((Instruction::INC, 2))
        } else if chars_eq(name, "dec") || chars_eq(name, "DEC") {
            Ok((Instruction::DEC, 2))
        } else if chars_eq(name, "finc") || chars_eq(name, "FINC") {
            Ok((Instruction::FINC, 2))
        } else if chars_eq(name, "fdec") || chars_eq(name, "FDEC") {
            Ok((Instruction::FDEC, 2))
        } else if chars_eq(name, "set") || chars_eq(name, "SET") {
            Ok((Instruction::SET, 3))
        } else if chars_eq(name, "clear") || chars_eq(name, "CLEAR") {
            Ok((Instruction::CLEAR, 3))
        } else if chars_eq(name, "fpush") || chars_eq(name, "FPUSH") {
            Ok((Instruction::FPUSH, 2))
        } else if chars_eq(name, "fpop") || chars_eq(name, "FPOP") {
            Ok((Instruction::FPOP, 2))
        } else if chars_eq(name, "push") || chars_eq(name, "PUSH") {
            Ok((Instruction::PUSH, 2))
        } else if chars_eq(name, "pop") || chars_eq(name, "POP") {
            Ok((Instruction::POP, 2))
        } else if chars_eq(name, "lea") || chars_eq(name, "LEA") {
            Ok((Instruction::LEA, 3))
        } else if chars_eq(name, "ret") || chars_eq(name, "RET") {
            Ok((Instruction::RET, 1))
        } else if chars_eq(name, "cmp") || chars_eq(name, "CMP") {
            Ok((Instruction::CMP, 3))
        } else if chars_eq(name, "fcmp") || chars_eq(name, "FCMP") {
            Ok((Instruction::FCMP, 3))
        } else {
            Err("Invalid instruction")
        }
    }

    /// Whether the first operand may be something other than a register.
    pub open spec fn spec_farg_nreg(self) -> bool {
        match self {
            Instruction::JMP | Instruction::JE | Instruction::JNE | Instruction::JLT
            | Instruction::JLE | Instruction::JGT | Instruction::JGE | Instruction::CALL
            | Instruction::PUSH | Instruction::FPUSH | Instruction::MOV | Instruction::INC
            | Instruction::DEC => true,
            _ => false,
        }
    }

    /// Whether the first operand may be something other than a register:
    /// jumps, calls, pushes, moves, increments and decrements.
    pub fn is_farg_nreg(&self) -> (r: bool)
        ensures
            r == self.spec_farg_nreg(),
    {
        match self {
            Instruction::JMP | Instruction::JE | Instruction::JNE | Instruction::JLT
            | Instruction::JLE | Instruction::JGT | Instruction::JGE | Instruction::CALL
            | Instruction::PUSH | Instruction::FPUSH | Instruction::MOV | Instruction::INC
            | Instruction::DEC => true,
            _ => false,
        }
    }
}

/// Attributes that a function may carry.
#[derive(Clone, Copy, Debug, PartialEq, Eq, Structural)]
pub enum Attrs {
    /// Every instruction of the function runs with the privilege bit set.
    FIRMWARE,
}

/// An operand as the assembler writes it. Float literals hold their bit
/// pattern; a string is a symbol that the encoder resolves.
#[derive(Debug, PartialEq)]
pub enum Args {
    INT(i64),
    DECIMAL(u64),
    STRING(Vec<char>),
    REGISTER(u8),
    OFFSET(u8, i64),
}

/// An operand as values.
pub enum ArgV {
    Int(i64),
    Decimal(u64),
    Symbol(Seq<char>),
    Register(u8),
    Offset(u8, i64),
}

pub open spec fn arg_view(a: Args) -> ArgV {
    match a {
        Args::INT(v) => ArgV::Int(v),
        Args::DECIMAL(v) => ArgV::Decimal(v),
        Args::STRING(s) => ArgV::Symbol(s@),
        Args::REGISTER(r) => ArgV::Register(r),
        Args::OFFSET(r, o) => ArgV::Offset(r, o),
    }
}

/// A `define NAME VALUE` line.
pub struct Define(pub Vec<char>, pub Token);

/// The number after the first character of `s`, read as a `u8`.
pub open spec fn reg_number(s: Seq<char>) -> Option<u8> {
    let t = s.drop_first();
    if t.len() > 0 && t[0] == '-' {
        None
    } else {
        match parse_radix(t, 10) {
            Some(v) => if 0 <= v <= 255 {
                Some(v as u8)
            } else {
                None
            },
            None => None,
        }
    }
}

/// The register that the name `s` writes: `sp`, or `b`/`f`, `w`, `d`, `r`
/// followed by a number below 20; an error for a larger number.
pub open spec fn register_of(s: Seq<char>) -> Result<Option<u8>, Seq<char>> {
    let id: u8 = match reg_number(s) {
        Some(v) => v,
        None => 127,
    };
    if s.len() == 0 {
        Ok(None)
    } else if s == "sp"@ {
        Ok(Some(80u8))
    } else if id >= 20 && id != 127 {
        Err("Invalid register number"@)
    } else if id == 127 {
        Ok(None)
    } else if s[0] == 'r' {
        Ok(Some((id + 60) as u8))
    } else if s[0] == 'b' || s[0] == 'f' {
        Ok(Some(id))
    } else if s[0] == 'w' {
        Ok(Some((id + 20) as u8))
    } else if s[0] == 'd' {
        Ok(Some((id + 40) as u8))
    } else {
        Ok(None)
    }
}

/// The index of the first define named `s`.
pub open spec fn define_index(defs: Seq<Define>, s: Seq<char>) -> Option<int> {
    if exists|k: int| 0 <= k < defs.len() && defs[k].0@ == s {
        Some(choose|k: int| 0 <= k < defs.len() && defs[k].0@ == s && forall|j: int| 0 <= j < k ==> defs[j].0@ != s)
    } else {
        None
    }
}

/// The operand that `tok` makes, following defines at most `fuel` deep; an
/// offset is only known to be one.
pub open spec fn arg_spec(tok: Token, defs: Seq<Define>, fuel: nat) -> Option<Result<ArgV, Seq<char>>>
    decreases fuel,
{
    match tok {
        Token::IDENT(s) => match register_of(s@) {
            Err(m) => Some(Err(m)),
            Ok(Some(r)) => Some(Ok(ArgV::Register(r))),
            Ok(None) => match define_index(defs, s@) {
                Some(k) => if fuel == 0 {
                    Some(Err("Recursive define"@))
                } else {
                    arg_spec(defs[k].1, defs, (fuel - 1) as nat)
                },
                None => Some(Ok(ArgV::Symbol(s@))),
            },
        },
        Token::OFFSET(_) => None,
        Token::INT(i) => Some(Ok(ArgV::Int(i))),
        Token::DECIMAL(j) => Some(Ok(ArgV::Decimal(j))),
        Token::STRING(x) => Some(Ok(ArgV::Symbol(x@))),
        _ => Some(Err("Illegal argument to instruction"@)),
    }
}

/// The line that the text of an offset is split as: its characters as
/// bytes, then a space.
pub open spec fn offset_line(t: Seq<char>) -> Seq<u8> {
    Seq::new(t.len(), |i: int| t[i] as u32 as u8).push(32u8)
}

/// Whether `(reg, off)` is what the offset text `t` writes: it splits into
/// a register name alone, or a register name, a sign and an integer.
#[verifier::opaque]
pub open spec fn offset_fits(reg: u8, off: i64, t: Seq<char>) -> bool {
    match split_result(offset_line(t)) {
        Err(_) => false,
        Ok(p) => {
            &&& p.len() >= 1
            &&& p[0] is Text
            &&& register_of(p[0]->Text_0) == Ok::<Option<u8>, Seq<char>>(Some(reg))
            &&& (p.len() == 1 && off == 0) || (p.len() >= 3 && p[2] is Text && token_shape(
                p[2]->Text_0,
            ) is Ok && token_shape(p[2]->Text_0)->Ok_0 is Int && ({
                let v = token_shape(p[2]->Text_0)->Ok_0->Int_0;
                (p[1] is Plus && off == v) || (p[1] is Minus && (if v == i64::MIN {
                    off == v
                } else {
                    off == -v
                }))
            }))
        },
    }
}

/// Whether the offset text `t` is owed success: its characters fit a byte,
/// and it splits into a register name alone, or a register name, a sign
/// and an integer.
#[verifier::opaque]
pub open spec fn offset_ok(t: Seq<char>) -> bool {
    &&& forall|i: int| 0 <= i < t.len() ==> (#[trigger] t[i] as u32) < 256
    &&& match split_result(offset_line(t)) {
        Err(_) => false,
        Ok(p) => {
            &&& p.len() >= 1
            &&& p[0] is Text
            &&& token_shape(p[0]->Text_0) == Ok::<Shape, Seq<char>>(Shape::Word)
            &&& !float_candidate(p[0]->Text_0)
            &&& register_of(p[0]->Text_0) is Ok
            &&& register_of(p[0]->Text_0)->Ok_0 is Some
            &&& p.len() == 1 || (p.len() >= 3 && (p[1] is Plus || p[1] is Minus) && p[2] is Text
                && token_shape(p[2]->Text_0) is Ok && token_shape(p[2]->Text_0)->Ok_0 is Int)
        },
    }
}

/// The text of the offset that `tok` stands for, following defines at most
/// `fuel` deep.
pub open spec fn offset_source(tok: Token, defs: Seq<Define>, fuel: nat) -> Seq<char>
    decreases fuel,
{
    match tok {
        Token::IDENT(s) => match define_index(defs, s@) {
            Some(k) => if fuel == 0 {
                Seq::empty()
            } else {
                offset_source(defs[k].1, defs, (fuel - 1) as nat)
            },
            None => Seq::empty(),
        },
        Token::OFFSET(t) => t@,
        _ => Seq::empty(),
    }
}

/// Whether `r` is what `Args::new` may give for `tok`.
pub open spec fn arg_fits(r: Result<Args, &'static str>, tok: Token, defs: Seq<Define>) -> bool {
    match arg_spec(tok, defs, defs.len()) {
        Some(Ok(v)) => r is Ok && arg_view(r->Ok_0) == v,
        Some(Err(m)) => r is Err && r->Err_0@ == m,
        None => (offset_ok(offset_source(tok, defs, defs.len())) ==> r is Ok) && (r is Ok ==> r->Ok_0 is OFFSET
            && offset_fits(r->Ok_0->OFFSET_0, r->Ok_0->OFFSET_1, offset_source(tok, defs, defs.len()))),
    }
}

/// Whether `Args::new` is owed success on `tok`.
pub open spec fn arg_ok(tok: Token, defs: Seq<Define>) -> bool {
    match arg_spec(tok, defs, defs.len()) {
        Some(Ok(_)) => true,
        Some(Err(_)) => false,
        None => offset_ok(offset_source(tok, defs, defs.len())),
    }
}

/// Whether `tok` converts to a register operand.
pub open spec fn arg_is_register(tok: Token, defs: Seq<Define>) -> bool {
    match arg_spec(tok, defs, defs.len()) {
        Some(Ok(v)) => v is Register,
        _ => false,
    }
}

/// Whether `add_args` is owed success: the operand count fits, every
/// operand converts, and the first is a register where the mnemonic asks
/// for one.
pub open spec fn add_args_ok(name: Instruction, len: usize, toks: Seq<Token>, defs: Seq<Define>) -> bool {
    &&& toks.len() + 1 == len
    &&& forall|k: int| 0 <= k < toks.len() ==> arg_ok(#[trigger] toks[k], defs)
    &&& name.spec_farg_nreg() || toks.len() == 0 || arg_is_register(toks[0], defs)
}

fn register_name(s: &Vec<char>) -> (r: Result<Option<u8>, &'static str>)
    ensures
        r is Ok <==> register_of(s@) is Ok,
        r is Ok ==> r->Ok_0 == register_of(s@)->Ok_0,
        r is Err ==> r->Err_0@ == register_of(s@)->Err_0,
{
    let n = s.len();
    if n == 0 {
        return Ok(None);
    }
    let ghost t = s@.drop_first();
    let rest = crate::token::copy_chars(s.as_slice(), 1, n);
    assert(rest@ =~= t);
    let id: u8 = if rest.len() > 0 && rest[0] == '-' {
        127
    } else {
        match parse_int(rest.as_slice(), 10) {
            Some(v) => if 0 <= v && v <= 255 {
                v as u8
            } else {
                127
            },
            None => 127,
        }
    };
    if chars_eq(s.as_slice(), "sp") {
        return Ok(Some(80));
    }
    if id >= 20 && id != 127 {
        return Err("Invalid register number");
    }
    if id == 127 {
        return Ok(None);
    }
    let c = s[0];
    if c == 'r' {
        Ok(Some(id + 60))
    } else if c == 'b' || c == 'f' {
        Ok(Some(id))
    } else if c == 'w' {
        Ok(Some(id + 20))
    } else if c == 'd' {
        Ok(Some(id + 40))
    } else {
        Ok(None)
    }
}

fn find_define(defs: &Vec<Define>, s: &Vec<char>) -> (r: Option<usize>)
    ensures
        r is Some <==> define_index(defs@, s@) is Some,
        r is Some ==> define_index(defs@, s@) == Some(r->Some_0 as int),
        r is Some ==> r->Some_0 < defs@.len() && defs@[r->Some_0 as int].0@ == s@,
{
    let mut k: usize = 0;
    while k < defs.len()
        invariant
            k <= defs@.len(),
            forall|j: int| 0 <= j < k ==> defs@[j].0@ != s@,
        decreases defs@.len() - k,
    {
        if same_chars(&defs[k].0, s) {
            proof {
                let c = choose|c: int| 0 <= c < defs@.len() && defs@[c].0@ == s@ && forall|j: int| 0 <= j < c ==> defs@[j].0@ != s@;
                assert(c == k as int) by {
                    if c < k {
                        assert(defs@[c].0@ != s@);
                    }
                    if k < c {
                        assert(defs@[k as int].0@ != s@);
                    }
                }
            }
            return Some(k);
        }
        k = k + 1;
    }
    None
}

/// Whether two texts are the same.
pub fn same_chars(a: &Vec<char>, b: &Vec<char>) -> (r: bool)
    ensures
        r == (a@ == b@),
{
    if a.len() != b.len() {
        return false;
    }
    let mut i: usize = 0;
    while i < a.len()
        invariant
            i <= a@.len() == b@.len(),
            forall|j: int| 0 <= j < i ==> a@[j] == b@[j],
        decreases a@.len() - i,
    {
        if a[i] != b[i] {
            assert(a@[i as int] != b@[i as int]);
            return false;
        }
        i = i + 1;
    }
    assert(a@ =~= b@);
    true
}

impl Args {
    /// The operand that `token` writes: a register name, a define (followed
    /// to its value), an offset `[reg]`, `[reg + n]` or `[reg - n]`, an
    /// integer, a float, or a symbol left for the encoder.
    pub fn new<F: FloatSyntax>(token: &Token, defines: &Vec<Define>, floats: &F) -> (r: Result<Self, &'static str>)
        ensures
            arg_fits(r, *token, defines@),
    {
        Self::resolve(token, defines, floats, defines.len())
    }

    fn resolve<F: FloatSyntax>(token: &Token, defines: &Vec<Define>, floats: &F, fuel: usize) -> (r: Result<Self, &'static str>)
        ensures
            match arg_spec(*token, defines@, fuel as nat) {
                Some(Ok(v)) => r is Ok && arg_view(r->Ok_0) == v,
                Some(Err(m)) => r is Err && r->Err_0@ == m,
                None => (offset_ok(offset_source(*token, defines@, fuel as nat)) ==> r is Ok) && (r is Ok
                    ==> r->Ok_0 is OFFSET && offset_fits(
                    r->Ok_0->OFFSET_0,
                    r->Ok_0->OFFSET_1,
                    offset_source(*token, defines@, fuel as nat),
                )),
            },
        decreases fuel,
    {
        match token {
            Token::IDENT(s) => {
                match register_name(s) {
                    Err(e) => return Err(e),
                    Ok(Some(r)) => return Ok(Args::REGISTER(r)),
                    Ok(None) => {},
                }
                match find_define(defines, s) {
                    Some(k) => {
                        if fuel == 0 {
                            return Err("Recursive define");
                        }
                        Self::resolve(&defines[k].1, defines, floats, fuel - 1)
                    },
                    None => {
                        assert(s@.subrange(0, s@.len() as int) =~= s@);
                        Ok(Args::STRING(crate::token::copy_chars(s.as_slice(), 0, s.len())))
                    },
                }
            },
            Token::OFFSET(text) => Self::offset(text, defines, floats),
            Token::INT(i) => Ok(Args::INT(*i)),
            Token::DECIMAL(j) => Ok(Args::DECIMAL(*j)),
            Token::STRING(x) => {
                assert(x@.subrange(0, x@.len() as int) =~= x@);
                Ok(Args::STRING(crate::token::copy_chars(x.as_slice(), 0, x.len())))
            },
            _ => Err("Illegal argument to instruction"),
        }
    }

    fn offset<F: FloatSyntax>(text: &Vec<char>, defines: &Vec<Define>, floats: &F) -> (r: Result<Self, &'static str>)
        ensures
            offset_ok(text@) ==> r is Ok,
            r is Ok ==> r->Ok_0 is OFFSET && offset_fits(r->Ok_0->OFFSET_0, r->Ok_0->OFFSET_1, text@),
    {
        reveal(offset_fits);
        reveal(offset_ok);
        let mut line: Vec<u8> = Vec::new();
        let mut i: usize = 0;
        while i < text.len()
            invariant
                i <= text@.len(),
                line@ =~= Seq::new(i as nat, |j: int| text@[j] as u32 as u8),
                forall|j: int| 0 <= j < i ==> (#[trigger] text@[j] as u32) < 256,
            decreases text@.len() - i,
        {
            let c = text[i];
            if (c as u32) < 256 {
                line.push(c as u32 as u8);
            } else {
                assert(!((text@[i as int] as u32) < 256));
                proof {
                    reveal(offset_ok);
                }
                return Err("Offset must be a register and a number");
            }
            i = i + 1;
        }
        line.push(32u8);
        assert(line@ =~= offset_line(text@));
        let split = match line_split(line.as_slice(), floats) {
            Ok(v) => v,
            Err(_) => return Err("Offset must be a register and a number"),
        };
        let ghost p = split_result(line@)->Ok_0;
        assert(tokens_fit(split@, p));
        if split.len() == 0 {
            return Err("First argument to offset must be register");
        }
        assert(fits(split@[0], p[0]->Text_0) || !(p[0] is Text));
        assert(split.len() >= 3 ==> (fits(split@[2], p[2]->Text_0) || !(p[2] is Text)));
        assert(split.len() >= 2 ==> ((p[1] is Plus ==> split@[1] is PLUS) && (p[1] is Minus ==> split@[1] is MINUS)));
        let reg = match &split[0] {
            Token::IDENT(s) => {
                match register_name(s) {
                    Err(e) => return Err(e),
                    Ok(Some(r)) => r,
                    Ok(None) => return Err("First argument to offset must be register"),
                }
            },
            _ => return Err("First argument to offset must be register"),
        };
        assert(p[0] is Text && token_shape(p[0]->Text_0) == Ok::<Shape, Seq<char>>(Shape::Word)
            && split@[0]->IDENT_0@ == p[0]->Text_0) by {
            assert(split@[0] is IDENT);
        }
        if split.len() == 1 {
            return Ok(Args::OFFSET(reg, 0));
        }
        if split.len() < 3 {
            return Err("Offset argument incomplete");
        }
        let number = match &split[2] {
            Token::INT(n) => *n,
            _ => return Err("Offset must be int"),
        };
        assert(p[2] is Text && token_shape(p[2]->Text_0) == Ok::<Shape, Seq<char>>(Shape::Int(number))) by {
            assert(split@[2] is INT);
        }
        match &split[1] {
            Token::PLUS => Ok(Args::OFFSET(reg, number)),
            Token::MINUS => Ok(
                Args::OFFSET(
                    reg,
                    if number == i64::MIN {
                        number
                    } else {
                        -number
                    },
                ),
            ),
            _ => Err("Only operator + or - allowed in offset"),
        }
    }
}

/// An instruction line: its mnemonic, the number of words its line holds,
/// and its operands (none for a one-word line).
#[derive(Debug)]
pub struct Instr {
    pub name: Instruction,
    pub len: usize,
    pub args: Option<Vec<Args>>,
}

impl Instr {
    /// Starts the instruction that the mnemonic `name` names.
    pub fn new(name: &[char]) -> (r: Result<Self, &'static str>)
        ensures
            r is Ok <==> mnemonic(name@) is Some,
            r is Ok ==> (r->Ok_0.name, r->Ok_0.len) == mnemonic(name@)->Some_0,
            r is Ok ==> (r->Ok_0.args is None <==> r->Ok_0.len == 1),
            r is Ok && r->Ok_0.args is Some ==> r->Ok_0.args->Some_0@.len() == 0,
            r is Err ==> r->Err_0@ == "Invalid instruction"@,
    {
        let (ins, len) = Instruction::new(name)?;
        Ok(Self {
            name: ins,
            len,
            args: if len != 1 {
                Some(Vec::new())
            } else {
                None
            },
        })
    }

    /// Reads the operands `args`: one fewer than the words of the line, and
    /// a register first unless the mnemonic takes something else there.
    pub fn add_args<F: FloatSyntax>(&mut self, args: &[Token], defines: &Vec<Define>, floats: &F) -> (r: Result<(), &'static str>)
        requires
            old(self).args is Some,
            old(self).args->Some_0@.len() == 0,
        ensures
            args@.len() + 1 != old(self).len ==> r is Err && r->Err_0@ == "Instruction has been given more or less arguments than needed"@,
            final(self).name == old(self).name,
            final(self).len == old(self).len,
            r is Err ==> final(self).args == old(self).args,
            add_args_ok(old(self).name, old(self).len, args@, defines@) ==> r is Ok,
            r is Ok ==> final(self).args is Some,
            r is Ok ==> ({
                let a = final(self).args->Some_0@;
                &&& args@.len() + 1 == old(self).len
                &&& a.len() == args@.len()
                &&& forall|k: int| 0 <= k < a.len() ==> arg_fits(Ok(#[trigger] a[k]), args@[k], defines@)
                &&& !old(self).name.spec_farg_nreg() && a.len() > 0 ==> a[0] is REGISTER
            }),
    {
        if self.len == 0 || args.len() != self.len - 1 {
            return Err("Instruction has been given more or less arguments than needed");
        }
        let mut list: Vec<Args> = Vec::new();
        let mut i: usize = 0;
        while i < args.len()
            invariant
                i <= args@.len(),
                self.name == old(self).name,
                self.len == old(self).len,
                self.args == old(self).args,
                args@.len() + 1 == self.len,
                add_args_ok(self.name, self.len, args@, defines@) ==> forall|k: int| 0 <= k < args@.len() ==> arg_ok(#[trigger] args@[k], defines@),
                list@.len() == i,
                forall|k: int| 0 <= k < i ==> arg_fits(Ok(#[trigger] list@[k]), args@[k], defines@),
            decreases args@.len() - i,
        {
            let ar = Args::new(&args[i], defines, floats);
            match ar {
                Err(e) => {
                    return Err(e);
                },
                Ok(a) => {
                    list.push(a);
                },
            }
            i = i + 1;
        }
        if !self.name.is_farg_nreg() && list.len() > 0 {
            match list[0] {
                Args::REGISTER(..) => {},
                _ => {
                    return Err("First argument to instruction must be a register");
                },
            }
        }
        self.args = Some(list);
        Ok(())
    }
}

/// An attribute line of a function.
#[derive(Debug)]
pub struct Attr(pub Attrs, pub Option<Token>);

impl Attr {
    /// The attribute that `name` names: only `firmware` exists.
    pub fn new(name: &[char], _arg: Option<Token>) -> (r: Result<Self, &'static str>)
        ensures
            r is Ok <==> name@ == "firmware"@,
            r is Ok ==> r->Ok_0.0 == Attrs::FIRMWARE && r->Ok_0.1 is None,
            r is Err ==> r->Err_0@ == "Unknown attribute or attribute not expected here"@,
    {
        if chars_eq(name, "firmware") {
            Ok(Self(Attrs::FIRMWARE, None))
        } else {
            Err("Unknown attribute or attribute not expected here")
        }
    }
}

/// A function, or a label, of the source: its name, its instructions and
/// its attributes.
#[derive(Debug)]
pub struct Function {
    pub name: Vec<char>,
    pub ins: Vec<Instr>,
    pub attrs: Option<Vec<Attr>>,
}

impl Function {
    /// An empty function named by the identifier `func`.
    pub fn new(func: &Token) -> (r: Result<Self, &'static str>)
        ensures
            r is Ok <==> func is IDENT,
            r is Ok ==> r->Ok_0.name@ == func->IDENT_0@ && r->Ok_0.ins@.len() == 0 && r->Ok_0.attrs is Some
                && r->Ok_0.attrs->Some_0@.len() == 0,
            r is Err ==> r->Err_0@ == "Expected identifier after keyword 'func'"@,
    {
        match func {
            Token::IDENT(s) => {
                assert(s@.subrange(0, s@.len() as int) =~= s@);
                Ok(Self { name: crate::token::copy_chars(s.as_slice(), 0, s.len()), ins: Vec::new(), attrs: Some(Vec::new()) })
            },
            _ => Err("Expected identifier after keyword 'func'"),
        }
    }

    /// Appends an instruction.
    pub fn add_ins(&mut self, ins: Instr)
        ensures
            final(self).ins@ == old(self).ins@.push(ins),
            final(self).name == old(self).name,
            final(self).attrs == old(self).attrs,
    {
        self.ins.push(ins)
    }
}

impl Token {
    /// A copy of the token.
    pub fn duplicate(&self) -> (r: Token)
        ensures
            same_token(r, *self),
    {
        match self {
            Token::FUNC => Token::FUNC,
            Token::DEFINE => Token::DEFINE,
            Token::INCLUDE => Token::INCLUDE,
            Token::ENDFUNC => Token::ENDFUNC,
            Token::INT(v) => Token::INT(*v),
            Token::DECIMAL(v) => Token::DECIMAL(*v),
            Token::STRING(s) => Token::STRING(s.clone()),
            Token::IDENT(s) => Token::IDENT(s.clone()),
            Token::LABEL(s) => Token::LABEL(s.clone()),
            Token::ATTR(s) => Token::ATTR(s.clone()),
            Token::PLUS => Token::PLUS,
            Token::MINUS => Token::MINUS,
            Token::OFFSET(s) => Token::OFFSET(s.clone()),
        }
    }
}

/// Whether two tokens are of one kind with the same contents.
pub open spec fn same_token(a: Token, b: Token) -> bool {
    match (a, b) {
        (Token::FUNC, Token::FUNC) => true,
        (Token::DEFINE, Token::DEFINE) => true,
        (Token::INCLUDE, Token::INCLUDE) => true,
        (Token::ENDFUNC, Token::ENDFUNC) => true,
        (Token::INT(x), Token::INT(y)) => x == y,
        (Token::DECIMAL(x), Token::DECIMAL(y)) => x == y,
        (Token::STRING(x), Token::STRING(y)) => x@ == y@,
        (Token::IDENT(x), Token::IDENT(y)) => x@ == y@,
        (Token::LABEL(x), Token::LABEL(y)) => x@ == y@,
        (Token::ATTR(x), Token::ATTR(y)) => x@ == y@,
        (Token::PLUS, Token::PLUS) => true,
        (Token::MINUS, Token::MINUS) => true,
        (Token::OFFSET(x), Token::OFFSET(y)) => x@ == y@,
        _ => false,
    }
}

/// The parser of source lines. At the top level (state 0) it takes
/// functions, defines and includes; inside a function (state 2) it takes
/// instructions, labels, attributes and `end`.
pub struct Parser {
    pub define: Vec<Define>,
    pub funcs: Vec<Function>,
    pub state: u8,
}

impl Parser {
    /// A parser at the top level, with nothing read.
    pub fn new() -> (r: Self)
        ensures
            r.define@.len() == 0,
            r.funcs@.len() == 0,
            r.state == 0,
    {
        Self { define: Vec::new(), funcs: Vec::new(), state: 0u8 }
    }

    /// Reads one line of tokens. On an `include` line it gives the file's
    /// name: the caller parses that file with a parser of its own and hands
    /// it to `merge`.
    pub fn parse<F: FloatSyntax>(&mut self, target: Vec<Token>, floats: &F) -> (r: Result<Option<Vec<char>>, &'static str>)
        ensures
            target@.len() == 0 ==> r == Ok::<Option<Vec<char>>, &'static str>(None) && final(self).funcs@ == old(self).funcs@
                && final(self).state == old(self).state,
            r is Ok && r->Ok_0 is Some ==> old(self).state == 0 && target@.len() >= 2 && target@[0] is INCLUDE
                && target@[1] is STRING && r->Ok_0->Some_0@ == target@[1]->STRING_0@,
            r is Err ==> final(self).funcs@ == old(self).funcs@ && final(self).define@ == old(self).define@
                && final(self).state == old(self).state,
            old(self).state == 0 && target@.len() > 0 && target@[0] is FUNC ==> (r is Ok <==> (target@.len() >= 2 && target@[1] is IDENT))
                && (r is Ok ==> final(self).state == 2),
            old(self).state == 0 && target@.len() >= 2 && target@[0] is INCLUDE && target@[1] is STRING ==> r is Ok && r->Ok_0 is Some
                && final(self).funcs@ == old(self).funcs@ && final(self).define@ == old(self).define@,
            old(self).state == 0 && target@.len() >= 3 && target@[0] is DEFINE && target@[1] is IDENT && (target@[2] is INT
                || target@[2] is DECIMAL || target@[2] is STRING || target@[2] is IDENT) ==> r is Ok,
            old(self).state == 0 && target@.len() >= 2 && target@[0] is FUNC && r is Ok ==> final(self).funcs@.len() == old(self).funcs@.len() + 1
                && final(self).funcs@.drop_last() == old(self).funcs@ && final(self).funcs@.last().name@ == target@[1]->IDENT_0@
                && final(self).funcs@.last().ins@.len() == 0,
            old(self).state == 0 && target@.len() > 0 && !(target@[0] is FUNC || target@[0] is INCLUDE || target@[0] is DEFINE)
                ==> r is Err && r->Err_0@ == "Only functions are allowed at top level"@,
            old(self).state == 0 && target@.len() >= 3 && target@[0] is DEFINE && r is Ok ==> final(self).define@.len() == old(self).define@.len() + 1
                && final(self).define@.last().0@ == target@[1]->IDENT_0@ && same_token(final(self).define@.last().1, target@[2]),
            old(self).state == 2 && target@.len() > 0 && target@[0] is ENDFUNC ==> r is Ok && final(self).state == 0
                && final(self).funcs@ == old(self).funcs@,
            old(self).state == 2 && target@.len() > 0 && target@[0] is LABEL ==> r is Ok && final(self).funcs@.len() == old(self).funcs@.len() + 1
                && final(self).funcs@.drop_last() == old(self).funcs@ && final(self).funcs@.last().name@ == target@[0]->LABEL_0@,
            old(self).state == 2 && target@.len() > 0 && target@[0] is IDENT && old(self).funcs@.len() > 0
                && mnemonic(target@[0]->IDENT_0@) is Some && (mnemonic(target@[0]->IDENT_0@)->Some_0.1 == 1
                || add_args_ok(mnemonic(target@[0]->IDENT_0@)->Some_0.0, mnemonic(target@[0]->IDENT_0@)->Some_0.1,
                target@.subrange(1, target@.len() as int), old(self).define@)) ==> r is Ok,
            old(self).state == 2 && target@.len() > 0 && target@[0] is ATTR && old(self).funcs@.len() > 0
                && target@[0]->ATTR_0@ == "firmware"@ ==> r is Ok,
            old(self).state == 2 && target@.len() > 0 && target@[0] is IDENT && r is Ok ==> final(self).funcs@.len() == old(self).funcs@.len()
                && final(self).funcs@.len() > 0 && final(self).funcs@.last().ins@.len() == old(self).funcs@.last().ins@.len() + 1
                && mnemonic(target@[0]->IDENT_0@) is Some
                && final(self).funcs@.last().ins@.last().name == mnemonic(target@[0]->IDENT_0@)->Some_0.0,
            old(self).state == 2 && target@.len() > 0 && !(target@[0] is IDENT || target@[0] is LABEL || target@[0] is ATTR || target@[0] is ENDFUNC)
                ==> r is Err && r->Err_0@ == "Expected instruction name here"@,
    {
        if target.len() == 0 {
            return Ok(None);
        }
        if self.state == 0 {
            match &target[0] {
                Token::FUNC => {
                    if target.len() < 2 {
                        return Err("Expected identifier after keyword 'func'");
                    }
                    let f = Function::new(&target[1])?;
                    self.state = 2;
                    self.funcs.push(f);
                    assert(self.funcs@.drop_last() =~= old(self).funcs@);
                },
                Token::INCLUDE => {
                    if target.len() < 2 {
                        return Err("include keyword has to be followed by a file name");
                    }
                    return match &target[1] {
                        Token::STRING(s) => {
                            assert(s@.subrange(0, s@.len() as int) =~= s@);
                            Ok(Some(crate::token::copy_chars(s.as_slice(), 0, s.len())))
                        },
                        _ => Err("Expected string representing filename after define keyword"),
                    };
                },
                Token::DEFINE => {
                    if target.len() < 3 {
                        return Err("define keyword has to be followed by an identifier and a value");
                    }
                    let name = match &target[1] {
                        Token::IDENT(s) => {
                            assert(s@.subrange(0, s@.len() as int) =~= s@);
                            crate::token::copy_chars(s.as_slice(), 0, s.len())
                        },
                        _ => return Err("Expected identifier after define keyword"),
                    };
                    match &target[2] {
                        Token::INT(..) | Token::DECIMAL(..) | Token::STRING(..) | Token::IDENT(..) => {
                            let value = target[2].duplicate();
                            self.define.push(Define(name, value));
                        },
                        _ => return Err("Expected value here"),
                    }
                },
                _ => return Err("Only functions are allowed at top level"),
            }
        } else if self.state == 2 {
            match &target[0] {
                Token::IDENT(s) => {
                    if self.funcs.len() == 0 {
                        return Err("Instruction outside a function");
                    }
                    let mut ins = Instr::new(s.as_slice())?;
                    if ins.len != 1 {
                        let rest = target.as_slice().split_at(1).1;
                        assert(rest@ =~= target@.subrange(1, target@.len() as int));
                        ins.add_args(rest, &self.define, floats)?;
                    }
                    let mut this_func = self.funcs.pop().unwrap();
                    this_func.add_ins(ins);
                    self.funcs.push(this_func);
                },
                Token::LABEL(s) => {
                    let label = Function::new(&Token::IDENT(crate::token::copy_chars(s.as_slice(), 0, s.len())))?;
                    assert(s@.subrange(0, s@.len() as int) =~= s@);
                    self.funcs.push(label);
                    assert(self.funcs@.drop_last() =~= old(self).funcs@);
                },
                Token::ATTR(s) => {
                    if self.funcs.len() == 0 {
                        return Err("Attribute outside a function");
                    }
                    let attr = Attr::new(s.as_slice(), None)?;
                    let mut this_func = self.funcs.pop().unwrap();
                    match &mut this_func.attrs {
                        Some(v) => v.push(attr),
                        None => {
                            let mut v: Vec<Attr> = Vec::new();
                            v.push(attr);
                            this_func.attrs = Some(v);
                        },
                    }
                    self.funcs.push(this_func);
                },
                Token::ENDFUNC => {
                    self.state = 0;
                },
                _ => return Err("Expected instruction name here"),
            }
        }
        Ok(None)
    }

    /// Takes over the defines and functions of the parser of an included
    /// file, after this parser's own.
    pub fn merge(&mut self, other: Parser)
        ensures
            final(self).define@ == old(self).define@ + other.define@,
            final(self).funcs@ == old(self).funcs@ + other.funcs@,
            final(self).state == old(self).state,
    {
        let mut other = other;
        self.define.append(&mut other.define);
        self.funcs.append(&mut other.funcs);
    }
}

} // verus!
