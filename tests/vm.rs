use blitz::codec::{make_u16, make_u32, make_u64, u64_to_u8};
use blitz::cpu::{Cpu, LoadError, MEM_SIZE, STACK_TOP};
use blitz::machine::{Args, Fatal, Fault, FloatOp, Step};
use blitz::memory::SegmentName;
use blitz::object::{code_gen, load, Func, Header, Ins, SemUnit};
use blitz::regs::Regs;
use blitz::segment::{check_areas, segment_of, Area, EXEC, READ, WRITE};
use blitz::word::{encode_offset, encode_word, TAG_INT};

const MOV: u32 = 1;
const ADD: u32 = 2;
const DIV: u32 = 5;
const JGT: u32 = 16;
const PUSH: u32 = 34;
const POP: u32 = 35;
const RET: u32 = 37;
const CMP: u32 = 38;
const SETHANDLER: u32 = 40;
const IRET: u32 = 41;

fn ins(op: u32, tags: [u8; 3], args: Vec<u64>, privileged: bool) -> Ins {
    let opcode = encode_word(op, tags[0], tags[1], tags[2], privileged);
    let size = 4 + 8 * args.len() as u64;
    Ins { opcode, args, size }
}

fn reg_imm(op: u32, r: u8, v: u64) -> Ins {
    ins(op, [r, TAG_INT, 0], vec![v], false)
}

fn image(code: Vec<Ins>) -> Vec<u8> {
    let size: u64 = code.iter().map(|i| i.size).sum();
    let unit = SemUnit {
        name: Vec::new(),
        header: Header { magic: 0xAFC, major: 1, minor: 0, start: 24, data: 24 + size },
        funcs: vec![Func { ins: code, size }],
        data: Vec::new(),
    };
    code_gen(&unit)
}

fn boot(code: Vec<Ins>) -> Cpu {
    Cpu::init(image(code)).expect("image loads")
}

#[test]
fn codec_reads_little_endian() {
    assert_eq!(make_u16(&[0x34, 0x12]), 0x1234);
    assert_eq!(make_u32(&[0x78, 0x56, 0x34, 0x12]), 0x1234_5678);
    assert_eq!(make_u64(&[1, 2, 3, 4, 5, 6, 7, 8]), 0x0807_0605_0403_0201);
    assert_eq!(u64_to_u8(0x0807_0605_0403_0201), [1, 2, 3, 4, 5, 6, 7, 8]);
    assert_eq!(make_u64(&u64_to_u8(0xdead_beef_0bad_f00d)), 0xdead_beef_0bad_f00d);
}

#[test]
fn float_bits_survive_the_codec() {
    let nan = f64::from_bits(0x7ff8_0000_dead_beef);
    let bits = make_u64(&u64_to_u8(nan.to_bits()));
    assert_eq!(bits, 0x7ff8_0000_dead_beef);
}

#[test]
fn register_views_mask_to_their_width() {
    let mut r = Regs::new();
    r.set(60, 0x1122_3344_5566_7788);
    assert_eq!(r.get(0), 0x88);
    assert_eq!(r.get(20), 0x7788);
    assert_eq!(r.get(40), 0x5566_7788);
    assert_eq!(r.get(60), 0x1122_3344_5566_7788);
    for i in 0..82u64 {
        let mask: u64 = if i < 20 { 0xff } else if i < 40 { 0xffff } else if i < 60 { 0xffff_ffff } else { u64::MAX };
        assert_eq!(r.get(i) & !mask, 0);
    }
}

#[test]
fn narrow_write_keeps_high_bits_and_other_cells() {
    let mut r = Regs::new();
    r.set(61, 0xaaaa_aaaa_aaaa_aaaa);
    r.set(60, 0x1122_3344_5566_7788);
    r.set(20, 0x1_abcd);
    assert_eq!(r.get(20), 0xabcd);
    assert_eq!(r.get(60), 0x1122_3344_5566_abcd);
    assert_eq!(r.get(61), 0xaaaa_aaaa_aaaa_aaaa);
    r.set(1, 0xffff);
    assert_eq!(r.get(61), 0xaaaa_aaaa_aaaa_aaff);
    r.set(80, 7);
    assert_eq!(r.get(80), 7);
    assert_eq!(r.0[20], 7);
}

#[test]
fn mov_then_ret_halts() {
    let mut cpu = boot(vec![reg_imm(MOV, 60, 42), ins(RET, [0, 0, 0], vec![], false)]);
    assert_eq!(cpu.exec(24, 100), Step::Halt);
    assert_eq!(cpu.regs.get(60), 42);
}

#[test]
fn add_two_registers() {
    let mut cpu = boot(vec![
        reg_imm(MOV, 60, 3),
        reg_imm(MOV, 61, 4),
        ins(ADD, [62, 60, 61], vec![], false),
        ins(RET, [0, 0, 0], vec![], false),
    ]);
    assert_eq!(cpu.exec(24, 100), Step::Halt);
    assert_eq!(cpu.regs.get(62), 7);
}

#[test]
fn divide_by_zero_without_handler_is_fatal() {
    let mut cpu = boot(vec![
        reg_imm(MOV, 60, 10),
        reg_imm(MOV, 61, 0),
        ins(DIV, [62, 60, 61], vec![], false),
    ]);
    let div_pc = 24 + 12 + 12;
    match cpu.exec(24, 100) {
        Step::Fatal(Fatal::Unhandled { kind, pc, .. }) => {
            assert_eq!(kind, 0);
            assert_eq!(pc, div_pc);
        }
        other => panic!("unexpected {:?}", other),
    }
}

#[test]
fn divide_by_zero_enters_handler_and_resumes() {
    // 24: SETHANDLER H (12) 36: MOV r60,10 (12) 48: MOV r61,0 (12)
    // 60: DIV (4) 64: RET (4) 68: H: MOV r63,99 (12) 80: IRET (4)
    let handler = 68;
    let mut cpu = boot(vec![
        ins(SETHANDLER, [TAG_INT, 0, 0], vec![handler], true),
        reg_imm(MOV, 60, 10),
        reg_imm(MOV, 61, 0),
        ins(DIV, [62, 60, 61], vec![], false),
        ins(RET, [0, 0, 0], vec![], false),
        reg_imm(MOV, 63, 99),
        ins(IRET, [0, 0, 0], vec![], true),
    ]);
    assert_eq!(cpu.exec(24, 100), Step::Halt);
    assert_eq!(cpu.regs.get(63), 99);
    assert_eq!(cpu.regs.get(62), 0);
    assert_eq!(cpu.special[1], 0);
    assert_eq!(cpu.special[2], 60);
    assert_eq!(cpu.special[4], 64);
}

#[test]
fn push_push_pop_pop() {
    let mut cpu = boot(vec![
        ins(PUSH, [TAG_INT, 0, 0], vec![7], false),
        ins(PUSH, [TAG_INT, 0, 0], vec![8], false),
        ins(POP, [60, 0, 0], vec![], false),
        ins(POP, [61, 0, 0], vec![], false),
        ins(RET, [0, 0, 0], vec![], false),
    ]);
    assert_eq!(cpu.exec(24, 100), Step::Halt);
    assert_eq!(cpu.regs.get(60), 8);
    assert_eq!(cpu.regs.get(61), 7);
    assert_eq!(cpu.regs.get(80), STACK_TOP);
}

#[test]
fn compare_then_branch_greater() {
    // 24: MOV r60,5 36: MOV r61,2 48: CMP (4) 52: JGT L (12) 64: MOV r62,1 (12) 76: L: RET
    let mut cpu = boot(vec![
        reg_imm(MOV, 60, 5),
        reg_imm(MOV, 61, 2),
        ins(CMP, [60, 61, 0], vec![], false),
        ins(JGT, [TAG_INT, 0, 0], vec![76], false),
        reg_imm(MOV, 62, 1),
        ins(RET, [0, 0, 0], vec![], false),
    ]);
    assert_eq!(cpu.exec(24, 100), Step::Halt);
    assert_eq!(cpu.regs.get(81) & 2, 2);
    assert_eq!(cpu.regs.get(62), 0);
}

#[test]
fn compare_ors_flags_in() {
    let mut cpu = boot(vec![
        reg_imm(MOV, 60, 5),
        ins(CMP, [60, 60, 0], vec![], false),
        ins(CMP, [61, 60, 0], vec![], false),
        ins(RET, [0, 0, 0], vec![], false),
    ]);
    assert_eq!(cpu.exec(24, 100), Step::Halt);
    assert_eq!(cpu.regs.get(81), 1 | 4);
}

#[test]
fn same_image_same_final_state() {
    let prog = || {
        vec![
            reg_imm(MOV, 60, 9),
            reg_imm(MOV, 61, 13),
            ins(ADD, [62, 60, 61], vec![], false),
            ins(PUSH, [62, 0, 0], vec![], false),
            ins(POP, [63, 0, 0], vec![], false),
            ins(CMP, [63, 60, 0], vec![], false),
            ins(RET, [0, 0, 0], vec![], false),
        ]
    };
    let mut a = boot(prog());
    let mut b = boot(prog());
    assert_eq!(a.exec(24, 1000), b.exec(24, 1000));
    assert_eq!(a.regs.0, b.regs.0);
    assert_eq!(a.special, b.special);
    assert_eq!(a.pc, b.pc);
    assert_eq!(a.read(0, 0x1000).unwrap(), b.read(0, 0x1000).unwrap());
}

#[test]
fn calm_program_never_traps() {
    let mut cpu = boot(vec![
        reg_imm(MOV, 60, 100),
        reg_imm(MOV, 61, 7),
        ins(DIV, [62, 60, 61], vec![], false),
        ins(RET, [0, 0, 0], vec![], false),
    ]);
    let before = cpu.special;
    assert_eq!(cpu.exec(24, 100), Step::Halt);
    assert_eq!(cpu.special, before);
    assert_eq!(cpu.regs.get(62), 14);
}

#[test]
fn unknown_opcode_traps_with_opcode() {
    let mut cpu = boot(vec![ins(45, [0, 0, 0], vec![], false)]);
    match cpu.exec(24, 10) {
        Step::Fatal(Fatal::Unhandled { kind, info, pc }) => {
            assert_eq!((kind, info, pc), (2, 45, 24));
        }
        other => panic!("unexpected {:?}", other),
    }
}

#[test]
fn privileged_without_bit_traps() {
    let mut cpu = boot(vec![ins(SETHANDLER, [TAG_INT, 0, 0], vec![100], false)]);
    match cpu.exec(24, 10) {
        Step::Fatal(Fatal::Unhandled { kind, .. }) => assert_eq!(kind, 3),
        other => panic!("unexpected {:?}", other),
    }
}

#[test]
fn unknown_operand_tag_is_fatal() {
    let mut cpu = boot(vec![ins(MOV, [60, 90, 0], vec![], false)]);
    assert_eq!(cpu.exec(24, 10), Step::Fatal(Fatal::IllegalOperand { tag: 90 }));
}

#[test]
fn float_ops_are_handed_to_the_host() {
    // FADD f1, 1.5, 2.25
    let a = 1.5f64.to_bits();
    let b = 2.25f64.to_bits();
    let mut cpu = boot(vec![
        ins(21, [1, 82, 82], vec![a, b], false),
        ins(RET, [0, 0, 0], vec![], false),
    ]);
    match cpu.exec(24, 10) {
        Step::Float(q) => {
            assert_eq!(q.op, FloatOp::Add);
            assert_eq!((q.dst, q.a, q.b), (1, a, b));
            let r = f64::from_bits(q.a) + f64::from_bits(q.b);
            cpu.finish_float(q, r.to_bits());
        }
        other => panic!("unexpected {:?}", other),
    }
    assert_eq!(cpu.run(10), Step::Halt);
    assert_eq!(f64::from_bits(cpu.fregs[1]), 3.75);
}

#[test]
fn float_divide_by_negative_zero_traps() {
    let mut cpu = boot(vec![ins(24, [1, 82, 82], vec![1.0f64.to_bits(), (-0.0f64).to_bits()], false)]);
    match cpu.exec(24, 10) {
        Step::Fatal(Fatal::Unhandled { kind, .. }) => assert_eq!(kind, 0),
        other => panic!("unexpected {:?}", other),
    }
}

#[test]
fn init_checks_header() {
    assert_eq!(Cpu::init(vec![0; 10]).err(), Some(LoadError::Truncated));
    let mut bad = image(vec![ins(RET, [0, 0, 0], vec![], false)]);
    bad[0] = 0;
    assert_eq!(Cpu::init(bad).err(), Some(LoadError::BadMagic { magic: 0xA00 }));
    let mut old = image(vec![ins(RET, [0, 0, 0], vec![], false)]);
    old[4] = 2;
    assert_eq!(Cpu::init(old).err(), Some(LoadError::BadVersion { major: 2, minor: 0 }));
    let cpu = boot(vec![ins(RET, [0, 0, 0], vec![], false)]);
    assert_eq!(cpu.mem_size(), MEM_SIZE);
    assert_eq!(cpu.gdt.len(), 4);
    assert_eq!(cpu.pc, 24);
}

#[test]
fn permission_inside_one_segment() {
    let mut cpu = boot(vec![ins(RET, [0, 0, 0], vec![], false)]);
    cpu.regs.0[21] = 8;
    assert_eq!(cpu.check_permission(0x100, 0x1ff, READ), Ok(()));
    assert_eq!(cpu.check_permission(0x7e010, 0x7e020, WRITE), Err(1));
    assert!(cpu.write(0x7e010, &[1, 2, 3]).is_err());
    assert!(cpu.write(0x100, &[1, 2, 3]).is_ok());
    assert_eq!(cpu.read(0x100, 3).unwrap(), vec![1, 2, 3]);
    // a range that crosses from code into data needs write in both
    assert_eq!(cpu.check_permission(0x7dff0, 0x7e008, WRITE), Err(1));
    cpu.regs.0[21] = 0;
    assert_eq!(cpu.check_permission(0x7e010, 0x7e020, WRITE), Ok(()));
}

#[test]
fn first_inserted_segment_governs_lookup() {
    let gdt = vec![
        Area { begin: 0, end: 99, perm: READ },
        Area { begin: 50, end: 200, perm: READ | WRITE | EXEC },
    ];
    assert_eq!(segment_of(&gdt, 60), Some(0));
    assert_eq!(segment_of(&gdt, 150), Some(1));
    assert_eq!(segment_of(&gdt, 300), None);
    assert_eq!(check_areas(&gdt, 150, 160, WRITE), Ok(()));
    assert_eq!(check_areas(&gdt, 60, 70, WRITE), Err(READ));
}

#[test]
fn word_and_offset_round_trip() {
    let w = encode_word(42, 81, 7, 83, true);
    assert_eq!(w >> 22, 42);
    assert_eq!((w >> 15) & 127, 81);
    assert_eq!((w >> 8) & 127, 7);
    assert_eq!((w >> 1) & 127, 83);
    assert_eq!(w & 1, 1);
    let o = encode_offset(61, 0x1234);
    assert_eq!(blitz::exec::read_args(83, o), Args::OFFSET(61, 0x1234));
    assert_eq!(blitz::exec::read_args(81, 5), Args::INT(5));
    assert_eq!(blitz::exec::read_args(5, 99), Args::REG(5));
}

#[test]
fn object_round_trip() {
    let code = vec![
        reg_imm(MOV, 60, 42),
        ins(MOV, [83, 60, 0], vec![encode_offset(80, 16)], false),
        ins(RET, [0, 0, 0], vec![], false),
    ];
    let size: u64 = code.iter().map(|i| i.size).sum();
    let unit = SemUnit {
        name: Vec::new(),
        header: Header { magic: 0xAFC, major: 1, minor: 0, start: 24, data: 24 + size },
        funcs: vec![Func { ins: code.clone(), size }],
        data: vec![blitz::object::Data { name: vec!['x'], item: blitz::object::DataItem::Short(0x1234) }],
    };
    let bytes = code_gen(&unit);
    assert_eq!(bytes.len(), 24 + size as usize + 2);
    let img = load(&bytes).expect("loads");
    assert_eq!(img.header, unit.header);
    assert_eq!(img.code.len(), 3);
    for (a, b) in img.code.iter().zip(code.iter()) {
        assert_eq!(a.opcode, b.opcode);
        assert_eq!(a.args, b.args);
    }
    assert_eq!(img.data, vec![0x34, 0x12]);
}

#[test]
fn loader_refuses_broken_images() {
    let mut bytes = image(vec![reg_imm(MOV, 60, 1)]);
    bytes.truncate(bytes.len() - 3);
    // the data offset still points past the shortened code
    assert_eq!(load(&bytes).err(), Some(LoadError::Malformed));
    assert_eq!(load(&[0u8; 5]).err(), Some(LoadError::Truncated));
}

#[test]
fn raw_access_follows_first_segment() {
    let mut cpu = boot(vec![ins(RET, [0, 0, 0], vec![], false)]);
    cpu.regs.0[21] = 8;
    // the stack segment comes before the heap, which overlaps it
    assert_eq!(cpu.raw_write(0xff000, &[9, 8]), Ok(()));
    assert_eq!(cpu.raw_read(0xff000, 0xff001), Ok(vec![9, 8]));
    assert_eq!(cpu.raw_write(0x7e000, &[1]), Err(Fault::Trap { kind: 1, info: 1 }));
    assert_eq!(cpu.raw_read(0x7e000, 0x7e003).map(|v| v.len()), Ok(4));
    // the heap entry governs the last byte but ends before the range does;
    // leaving the buffer is a host error first
    assert_eq!(
        cpu.raw_read(MEM_SIZE as u64 - 1, MEM_SIZE as u64),
        Err(Fault::Fatal(Fatal::OutOfBounds { addr: MEM_SIZE as u64 - 1, len: 2 }))
    );
    cpu.gdt.push(Area { begin: 0x1f_f000, end: 0x1f_fffe, perm: 3 });
    cpu.gdt.insert(0, Area { begin: 0x1f_f000, end: 0x1f_fffe, perm: 3 });
    assert_eq!(cpu.raw_read(0x1f_fffd, 0x1f_ffff), Err(Fault::Trap { kind: 1, info: 3 }));
    cpu.regs.0[21] = 0;
    assert_eq!(
        cpu.raw_read(MEM_SIZE as u64 - 1, MEM_SIZE as u64),
        Err(Fault::Fatal(Fatal::OutOfBounds { addr: MEM_SIZE as u64 - 1, len: 2 }))
    );
}

#[test]
fn named_segment_access() {
    let mut cpu = boot(vec![ins(RET, [0, 0, 0], vec![], false)]);
    assert_eq!(cpu.segment_write(SegmentName::Stack, 0xfe010, &[5, 6, 7]), Ok(()));
    assert_eq!(cpu.segment_read(SegmentName::Stack, 0xfe010, 3), Ok(vec![5, 6, 7]));
    assert_eq!(cpu.segment_write(SegmentName::Data, 0x7e000, &[1]), Err(Fault::Trap { kind: 1, info: 1 }));
    assert_eq!(cpu.segment_write(SegmentName::Stack, 0xffffe, &[1, 2, 3]), Err(Fault::Trap { kind: 1, info: 3 }));
    assert_eq!(cpu.segment_read(SegmentName::Data, 0x7e000, 2), Ok(vec![0, 0]));
    cpu.gdt.truncate(2);
    assert_eq!(cpu.segment_read(SegmentName::Heap, 0xff000, 1), Err(Fault::Fatal(Fatal::NoSegment)));
}

struct Lcg(u64);

impl Lcg {
    fn next(&mut self) -> u64 {
        self.0 = self.0.wrapping_mul(6364136223846793005).wrapping_add(1442695040888963407);
        self.0 >> 11
    }
}

fn random_calm_program(rng: &mut Lcg) -> Vec<Ins> {
    let len = 1 + (rng.next() % 99) as usize;
    let mut code = Vec::new();
    for _ in 0..len {
        let r = |g: &mut Lcg| 60 + (g.next() % 20) as u8;
        let choice = rng.next() % 6;
        let i = match choice {
            0 => reg_imm(MOV, r(rng), rng.next()),
            1 => ins(2 + (rng.next() % 3) as u32, [r(rng), r(rng), r(rng)], vec![], false),
            2 => ins(7 + (rng.next() % 5) as u32, [r(rng), r(rng), r(rng)], vec![], false),
            3 => ins(CMP, [r(rng), r(rng), 0], vec![], false),
            4 => ins(26 + (rng.next() % 2) as u32, [r(rng), 0, 0], vec![], false),
            _ => ins(0, [0, 0, 0], vec![], false),
        };
        code.push(i);
    }
    code.push(ins(RET, [0, 0, 0], vec![], false));
    code
}

#[test]
fn random_calm_programs_are_deterministic_and_never_trap() {
    let mut rng = Lcg(0x5eed);
    for _ in 0..50 {
        let prog = random_calm_program(&mut rng);
        let mut a = boot(prog.clone());
        let mut b = boot(prog);
        let before = a.special;
        let ra = a.exec(24, 1000);
        let rb = b.exec(24, 1000);
        assert_eq!(ra, Step::Halt);
        assert_eq!(ra, rb);
        assert_eq!(a.regs.0, b.regs.0);
        assert_eq!(a.pc, b.pc);
        assert_eq!(a.special, before);
    }
}

#[test]
fn random_words_and_offsets_round_trip() {
    let mut rng = Lcg(42);
    for _ in 0..1000 {
        let op = (rng.next() % 1024) as u32;
        let t = [(rng.next() % 128) as u8, (rng.next() % 128) as u8, (rng.next() % 128) as u8];
        let p = rng.next() % 2 == 1;
        let w = encode_word(op, t[0], t[1], t[2], p);
        assert_eq!(w >> 22, op);
        assert_eq!(((w >> 15) & 127) as u8, t[0]);
        assert_eq!(((w >> 8) & 127) as u8, t[1]);
        assert_eq!(((w >> 1) & 127) as u8, t[2]);
        assert_eq!(w & 1 == 1, p);
        let reg = (rng.next() % 81) as u8;
        let off = rng.next() & 0x01ff_ffff_ffff_ffff;
        assert_eq!(blitz::exec::read_args(83, encode_offset(reg, off)), Args::OFFSET(reg, off));
    }
}

#[test]
fn oversized_image_is_refused() {
    let mut big = image(vec![ins(RET, [0, 0, 0], vec![], false)]);
    big.resize(MEM_SIZE + 1, 0);
    assert_eq!(Cpu::init(big).err(), Some(LoadError::TooLarge));
}

#[test]
fn wrong_operand_kind_is_fatal() {
    // JE takes an immediate target, not a register
    let mut cpu = boot(vec![ins(13, [60, 0, 0], vec![], false)]);
    assert_eq!(cpu.exec(24, 10), Step::Fatal(Fatal::BadOperand { opcode: 13 }));
}

#[test]
fn syscalls() {
    let mut cpu = boot(vec![ins(50, [TAG_INT, 0, 0], vec![1], true)]);
    assert_eq!(cpu.exec(24, 10), Step::Fatal(Fatal::UnknownSyscall { kind: 1 }));
    // 24: SETHANDLER 48 (12) 36: DIV r62,r60,r61 (4) 40: RET (4) 44: NOP (4) 48: SYSCALL 0 (12)
    let mut cpu = boot(vec![
        ins(SETHANDLER, [TAG_INT, 0, 0], vec![48], true),
        ins(DIV, [62, 60, 61], vec![], false),
        ins(RET, [0, 0, 0], vec![], false),
        ins(0, [0, 0, 0], vec![], false),
        ins(50, [TAG_INT, 0, 0], vec![0], true),
    ]);
    assert_eq!(cpu.exec(24, 10), Step::Fatal(Fatal::Report { kind: 0, pc: 36, info: 0 }));
}

#[test]
fn call_lea_set_clear_and_memory_moves() {
    // 24: CALL 44 (12) 36: RET (4) 40: NOP (4) 44: LEA r60,[sp + 16] (12)
    // 56: SET r61, 5 (12) 68: CLEAR r61, 0 (12) 80: MOV [r60 + 0], r61 (12) 92: MOV r62, [r60 + 0] (12) 104: RET
    let mut cpu = boot(vec![
        ins(19, [TAG_INT, 0, 0], vec![44], false),
        ins(RET, [0, 0, 0], vec![], false),
        ins(0, [0, 0, 0], vec![], false),
        ins(36, [60, 83, 0], vec![encode_offset(80, 16)], false),
        ins(30, [61, TAG_INT, 0], vec![5], false),
        ins(31, [61, TAG_INT, 0], vec![0], false),
        ins(MOV, [83, 61, 0], vec![encode_offset(60, 0)], false),
        ins(MOV, [62, 83, 0], vec![encode_offset(60, 0)], false),
        ins(RET, [0, 0, 0], vec![], false),
    ]);
    assert_eq!(cpu.exec(24, 100), Step::Halt);
    assert_eq!(cpu.regs.get(61), 32);
    assert_eq!(cpu.regs.get(62), 32);
    assert_eq!(cpu.regs.get(60), STACK_TOP + 16);
}

#[test]
fn displacement_is_unsigned_57_bits() {
    let mut cpu = boot(vec![
        ins(36, [60, 83, 0], vec![encode_offset(80, (-16i64) as u64)], false),
        ins(RET, [0, 0, 0], vec![], false),
    ]);
    assert_eq!(cpu.exec(24, 10), Step::Halt);
    assert_eq!(cpu.regs.get(60), STACK_TOP + ((-16i64) as u64 & 0x01ff_ffff_ffff_ffff));
}

#[test]
fn float_stack_and_compare() {
    let x = 6.5f64.to_bits();
    let mut cpu = boot(vec![
        ins(32, [82, 0, 0], vec![x], false),
        ins(33, [3, 0, 0], vec![], false),
        ins(39, [3, 82, 0], vec![2.0f64.to_bits()], false),
        ins(28, [3, 0, 0], vec![], false),
        ins(RET, [0, 0, 0], vec![], false),
    ]);
    match cpu.exec(24, 10) {
        Step::Float(q) => {
            assert_eq!(q.op, FloatOp::Cmp);
            assert_eq!(cpu.fregs[3], x);
            assert_eq!(cpu.regs.get(80), STACK_TOP);
            cpu.finish_float(q, 1);
        }
        other => panic!("unexpected {:?}", other),
    }
    assert_eq!(cpu.regs.get(81) & 2, 2);
    match cpu.run(10) {
        Step::Float(q) => {
            assert_eq!(q.op, FloatOp::Inc);
            cpu.finish_float(q, (f64::from_bits(q.a) + 1.0).to_bits());
        }
        other => panic!("unexpected {:?}", other),
    }
    assert_eq!(cpu.run(10), Step::Halt);
    assert_eq!(f64::from_bits(cpu.fregs[3]), 7.5);
}

#[test]
fn added_segment_is_checked_when_privileged() {
    // GDTADD appends [0x1000, 0x1fff] read-only after the initial entries;
    // the code entry still governs, so a write there passes the raw rule
    // but fails the every-entry rule once the privilege bit is set.
    let mut cpu = boot(vec![
        ins(42, [TAG_INT, TAG_INT, TAG_INT], vec![0x1000, 0x1fff, 1], true),
        ins(RET, [0, 0, 0], vec![], false),
    ]);
    assert_eq!(cpu.exec(24, 10), Step::Halt);
    assert_eq!(cpu.gdt.len(), 5);
    assert_eq!(cpu.gdt[4], Area { begin: 0x1000, end: 0x1fff, perm: 1 });
    cpu.regs.0[21] = 8;
    assert_eq!(cpu.raw_write(0x1000, &[1]), Ok(()));
    assert_eq!(cpu.write(0x1000, &[1]), Err(Fault::Trap { kind: 1, info: 1 }));
}

#[test]
fn write_past_buffer_is_host_error_not_trap() {
    let mut cpu = boot(vec![ins(RET, [0, 0, 0], vec![], false)]);
    cpu.regs.0[21] = 8;
    cpu.gdt.insert(0, Area { begin: 0x1f_fff0, end: 0x1f_ffff, perm: READ });
    let before = cpu.special;
    assert_eq!(
        cpu.write(0x1f_fffc, &[0; 8]),
        Err(Fault::Fatal(Fatal::OutOfBounds { addr: 0x1f_fffc, len: 8 }))
    );
    assert_eq!(cpu.special, before);
}

#[test]
fn empty_segment_meets_no_range() {
    let gdt = vec![Area { begin: 5, end: 3, perm: WRITE }, Area { begin: 0, end: 10, perm: READ }];
    assert_eq!(check_areas(&gdt, 2, 6, EXEC), Err(READ));
}
