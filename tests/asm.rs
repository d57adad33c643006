use blitz::cpu::Cpu;
use blitz::machine::Step;
use blitz::object::{code_gen, load};
use blitz::parser::{Args, Attr, Attrs, Define, Function, Instr, Instruction, Parser};
use blitz::sema::{sem_analyse, Unit};
use blitz::token::{line_split, parse_int, FloatSyntax, Token};

struct StdFloats;

impl FloatSyntax for StdFloats {
    fn parse_float(&self, text: &[char]) -> Option<u64> {
        let s: String = text.iter().collect();
        s.parse::<f64>().ok().map(|f| f.to_bits())
    }
}

fn chars(s: &str) -> Vec<char> {
    s.chars().collect()
}

fn split(s: &str) -> Vec<Token> {
    let mut line = s.to_string();
    line.push(' ');
    line_split(line.as_bytes(), &StdFloats).expect("line splits")
}

fn assemble(src: &str) -> Vec<u8> {
    let mut parser = Parser::new();
    for line in src.lines() {
        let mut l = line.trim().to_string();
        l.push(' ');
        let toks = line_split(l.as_bytes(), &StdFloats).expect("line splits");
        assert_eq!(parser.parse(toks, &StdFloats).expect("line parses"), None);
    }
    let unit = Unit::new(chars("test.su"), parser);
    code_gen(&sem_analyse(unit).expect("encodes"))
}

#[test]
fn mnemonics_in_either_case() {
    assert_eq!(Instruction::new(&chars("mov")), Ok((Instruction::MOV, 3)));
    assert_eq!(Instruction::new(&chars("ADD")), Ok((Instruction::ADD, 4)));
    assert_eq!(Instruction::new(&chars("ret")), Ok((Instruction::RET, 1)));
    assert_eq!(Instruction::new(&chars("Mov")), Err("Invalid instruction"));
    assert_eq!(Instruction::FCMP.code(), 39);
}

#[test]
fn first_operand_kinds() {
    assert!(Instruction::JMP.is_farg_nreg());
    assert!(Instruction::PUSH.is_farg_nreg());
    assert!(!Instruction::ADD.is_farg_nreg());
    assert!(!Instruction::POP.is_farg_nreg());
}

#[test]
fn numbers_in_three_bases() {
    assert_eq!(parse_int(&chars("42"), 10), Some(42));
    assert_eq!(parse_int(&chars("-42"), 10), Some(-42));
    assert_eq!(parse_int(&chars("ff"), 16), Some(255));
    assert_eq!(parse_int(&chars("101"), 2), Some(5));
    assert_eq!(parse_int(&chars("12a"), 10), None);
    assert_eq!(parse_int(&chars(""), 10), None);
    assert_eq!(parse_int(&chars("9223372036854775807"), 10), Some(i64::MAX));
    assert_eq!(parse_int(&chars("9223372036854775808"), 10), None);
    assert_eq!(parse_int(&chars("-9223372036854775808"), 10), Some(i64::MIN));
}

#[test]
fn token_shapes() {
    assert!(matches!(Token::new(&chars("0x1f"), &StdFloats), Ok(Token::INT(31))));
    assert!(matches!(Token::new(&chars("0b11"), &StdFloats), Ok(Token::INT(3))));
    assert!(matches!(Token::new(&chars("0xzz"), &StdFloats), Err("Malformed hexadecimal integer")));
    assert!(matches!(Token::new(&chars("func"), &StdFloats), Ok(Token::FUNC)));
    assert!(matches!(Token::new(&chars("end"), &StdFloats), Ok(Token::ENDFUNC)));
    match Token::new(&chars("loop:"), &StdFloats) {
        Ok(Token::LABEL(s)) => assert_eq!(s, chars("loop")),
        other => panic!("unexpected {:?}", other),
    }
    match Token::new(&chars("2.5"), &StdFloats) {
        Ok(Token::DECIMAL(b)) => assert_eq!(f64::from_bits(b), 2.5),
        other => panic!("unexpected {:?}", other),
    }
    match Token::new(&chars("r60"), &StdFloats) {
        Ok(Token::IDENT(s)) => assert_eq!(s, chars("r60")),
        other => panic!("unexpected {:?}", other),
    }
}

#[test]
fn split_an_instruction_line() {
    let t = split("mov r60, [sp + 8] // comment");
    assert_eq!(t.len(), 3);
    assert!(matches!(&t[0], Token::IDENT(s) if *s == chars("mov")));
    assert!(matches!(&t[1], Token::IDENT(s) if *s == chars("r60")));
    assert!(matches!(&t[2], Token::OFFSET(s) if *s == chars("sp + 8")));
    assert!(line_split("mov 'abc ".as_bytes(), &StdFloats).is_err());
    assert_eq!(line_split("a / b ".as_bytes(), &StdFloats).err(), Some("Unclosed comment"));
    assert_eq!(line_split("] ".as_bytes(), &StdFloats).err(), Some("Empty offset"));
}

#[test]
fn operands_resolve_registers_and_defines() {
    let defs = vec![Define(chars("LIMIT"), Token::INT(10)), Define(chars("ACC"), Token::IDENT(chars("r5")))];
    assert_eq!(Args::new(&Token::IDENT(chars("r3")), &defs, &StdFloats), Ok(Args::REGISTER(63)));
    assert_eq!(Args::new(&Token::IDENT(chars("w3")), &defs, &StdFloats), Ok(Args::REGISTER(23)));
    assert_eq!(Args::new(&Token::IDENT(chars("sp")), &defs, &StdFloats), Ok(Args::REGISTER(80)));
    assert_eq!(Args::new(&Token::IDENT(chars("r20")), &defs, &StdFloats), Err("Invalid register number"));
    assert_eq!(Args::new(&Token::IDENT(chars("LIMIT")), &defs, &StdFloats), Ok(Args::INT(10)));
    assert_eq!(Args::new(&Token::IDENT(chars("ACC")), &defs, &StdFloats), Ok(Args::REGISTER(65)));
    assert_eq!(Args::new(&Token::IDENT(chars("main")), &defs, &StdFloats), Ok(Args::STRING(chars("main"))));
    assert_eq!(Args::new(&Token::OFFSET(chars("sp - 8")), &defs, &StdFloats), Ok(Args::OFFSET(80, -8)));
    assert_eq!(Args::new(&Token::OFFSET(chars("r1")), &defs, &StdFloats), Ok(Args::OFFSET(61, 0)));
    assert_eq!(Args::new(&Token::PLUS, &defs, &StdFloats), Err("Illegal argument to instruction"));
    let looped = vec![Define(chars("A"), Token::IDENT(chars("A")))];
    assert_eq!(Args::new(&Token::IDENT(chars("A")), &looped, &StdFloats), Err("Recursive define"));
}

#[test]
fn instruction_operand_count_and_kind() {
    let defs: Vec<Define> = Vec::new();
    let mut add = Instr::new(&chars("add")).unwrap();
    assert_eq!(add.add_args(&split("r1 r2")[..], &defs, &StdFloats), Err("Instruction has been given more or less arguments than needed"));
    let mut add = Instr::new(&chars("add")).unwrap();
    assert_eq!(add.add_args(&split("5 r2 r3")[..], &defs, &StdFloats), Err("First argument to instruction must be a register"));
    let mut push = Instr::new(&chars("push")).unwrap();
    assert_eq!(push.add_args(&split("5")[..], &defs, &StdFloats), Ok(()));
    assert_eq!(push.args, Some(vec![Args::INT(5)]));
    assert!(Instr::new(&chars("ret")).unwrap().args.is_none());
    assert!(matches!(Attr::new(&chars("firmware"), None), Ok(Attr(Attrs::FIRMWARE, None))));
    assert!(Attr::new(&chars("fast"), None).is_err());
    assert!(Function::new(&Token::INT(1)).is_err());
}

#[test]
fn parser_states() {
    let mut p = Parser::new();
    assert_eq!(p.parse(split("mov r1 2"), &StdFloats).err(), Some("Only functions are allowed at top level"));
    assert_eq!(p.parse(split("define N 4"), &StdFloats), Ok(None));
    assert_eq!(p.parse(split("include 'lib.su'"), &StdFloats), Ok(Some(chars("lib.su"))));
    assert_eq!(p.parse(split("func _start"), &StdFloats), Ok(None));
    assert_eq!(p.state, 2);
    assert_eq!(p.parse(split("mov r0 N"), &StdFloats), Ok(None));
    assert_eq!(p.parse(split("done:"), &StdFloats), Ok(None));
    assert_eq!(p.parse(split("ret"), &StdFloats), Ok(None));
    assert_eq!(p.parse(split("end"), &StdFloats), Ok(None));
    assert_eq!(p.state, 0);
    assert_eq!(p.funcs.len(), 2);
    assert_eq!(p.funcs[0].ins.len(), 1);
    assert_eq!(p.funcs[1].name, chars("done"));
}

#[test]
fn assemble_and_run_addition() {
    let src = "func _start\nmov r0 3\nmov r1 4\nadd r2 r0 r1\nret\nend";
    let bytes = assemble(src);
    let img = load(&bytes).expect("loads back");
    assert_eq!(img.code.len(), 4);
    assert_eq!(img.header.start, 24);
    let mut cpu = Cpu::init(bytes).expect("boots");
    let start = cpu.pc;
    assert_eq!(cpu.exec(start, 100), Step::Halt);
    assert_eq!(cpu.regs.get(62), 7);
}

#[test]
fn assemble_forward_call() {
    let src = "func _start\ncall helper\nret\nend\nfunc helper\nmov r5 11\nret\nend";
    let mut cpu = Cpu::init(assemble(src)).expect("boots");
    let start = cpu.pc;
    assert_eq!(cpu.exec(start, 100), Step::Halt);
    assert_eq!(cpu.regs.get(65), 11);
}

#[test]
fn firmware_functions_are_privileged() {
    let src = "func _start\n.firmware\nmov r0 1\nret\nend";
    let bytes = assemble(src);
    let img = load(&bytes).unwrap();
    assert!(img.code.iter().all(|i| i.opcode & 1 == 1));
}

#[test]
fn missing_start_is_refused() {
    let mut parser = Parser::new();
    parser.parse(split("func main"), &StdFloats).unwrap();
    parser.parse(split("ret"), &StdFloats).unwrap();
    let unit = Unit::new(chars("x"), parser);
    assert_eq!(sem_analyse(unit).err(), Some("_start not found"));
}

struct GreedyFloats;

impl FloatSyntax for GreedyFloats {
    fn parse_float(&self, _text: &[char]) -> Option<u64> {
        Some(0)
    }
}

#[test]
fn words_that_cannot_be_floats_stay_identifiers() {
    let t = line_split("MOV r60, 42 // note ".as_bytes(), &GreedyFloats).unwrap();
    assert_eq!(t.len(), 3);
    assert!(matches!(&t[0], Token::IDENT(s) if *s == chars("MOV")));
    assert!(matches!(&t[1], Token::IDENT(s) if *s == chars("r60")));
    assert!(matches!(&t[2], Token::INT(42)));
    assert!(matches!(Token::new(&chars("1.5e3"), &GreedyFloats), Ok(Token::DECIMAL(0))));
    assert!(matches!(Token::new(&chars("-Infinity"), &GreedyFloats), Ok(Token::DECIMAL(0))));
    assert!(matches!(Token::new(&chars("1.5e3"), &StdFloats), Ok(Token::DECIMAL(b)) if f64::from_bits(b) == 1500.0));
    assert!(blitz::token::is_float_candidate(&chars("nan")));
    assert!(!blitz::token::is_float_candidate(&chars("e")));
    assert!(!blitz::token::is_float_candidate(&chars("main")));
}

#[test]
fn rejected_lines_leave_the_parser_alone() {
    let mut p = Parser::new();
    assert!(p.parse(split("func"), &StdFloats).is_err());
    assert_eq!(p.state, 0);
    assert_eq!(p.funcs.len(), 0);
    p.parse(split("func _start"), &StdFloats).unwrap();
    assert!(p.parse(split("add r1 5 r2 r3"), &StdFloats).is_err());
    assert!(p.parse(split("bogus r1"), &StdFloats).is_err());
    assert_eq!(p.funcs[0].ins.len(), 0);
    let defs: Vec<Define> = Vec::new();
    let mut add = Instr::new(&chars("add")).unwrap();
    assert!(add.add_args(&split("5 r2 r3")[..], &defs, &StdFloats).is_err());
    assert_eq!(add.args, Some(vec![]));
}

#[test]
fn encoder_tags_immediates_and_symbols() {
    let src = "func _start\ncall later\nmov [r1 + 8] 5\nadd r2 r0 r1\nret\nend\nfunc later\nret\nend";
    let bytes = assemble(src);
    let img = load(&bytes).unwrap();
    let call = &img.code[0];
    assert_eq!(call.opcode, (19 << 22) | (81 << 15));
    let later_addr = 24 + 12 + 20 + 4 + 4;
    assert_eq!(call.args, vec![later_addr]);
    let mov = &img.code[1];
    assert_eq!(mov.opcode, (1 << 22) | (83 << 15) | (81 << 8));
    assert_eq!(mov.args, vec![(61u64 << 57) | 8, 5]);
    assert_eq!(img.code[2].opcode, (2 << 22) | (62 << 15) | (60 << 8) | (61 << 1));
    assert_eq!(img.code[2].args, Vec::<u64>::new());
}

#[test]
fn unknown_symbol_is_refused() {
    let mut parser = Parser::new();
    parser.parse(split("func _start"), &StdFloats).unwrap();
    parser.parse(split("call nowhere"), &StdFloats).unwrap();
    let unit = Unit::new(chars("x"), parser);
    assert_eq!(sem_analyse(unit).err(), Some("Function or label not found"));
}
