//! The encoder pass: lays out the data items and functions, resolves
//! symbols to addresses, and encodes every instruction.
use vstd::prelude::*;
use crate::cpu::{HEADER_LEN, MAGIC, MAJOR, MINOR};
use crate::object::{
    code_bytes, flat_code, imm_count, ins_list, ins_well_formed, lemma_args_bytes,
    unit_well_formed, Data, DataItem, Func, Header, Ins, InsView, SemUnit,
};
use crate::parser::{chars_eq, define_index, same_chars, Args, Define, Function, Instr, Parser};
use crate::token::{copy_chars, Token};
use crate::word::{encode_offset, encode_word, offset_of, word_of, TAG_DECIMAL, TAG_INT, TAG_OFFSET};

verus! {

/// A parsed source unit.
pub struct Unit {
    pub name: Vec<char>,
    pub funcs: Vec<Function>,
    pub define: Vec<Define>,
    pub data: Vec<Data>,
}

impl Unit {
    /// The unit named `name` that `parser` has read.
    pub fn new(name: Vec<char>, parser: Parser) -> (r: Unit)
        ensures
            r.name@ == name@,
            r.funcs@ == parser.funcs@,
            r.define@ == parser.define@,
            r.data@.len() == 0,
    {
        Unit { name, funcs: parser.funcs, define: parser.define, data: Vec::new() }
    }
}

/// The operands that an instruction line encodes: none for a one-word line.
pub open spec fn ins_args(ins: Instr) -> Seq<Args> {
    if ins.len == 1 {
        Seq::empty()
    } else {
        match ins.args {
            Some(a) => a@,
            None => Seq::empty(),
        }
    }
}

/// How many of the operands `a` take an immediate.
pub open spec fn imm_args(a: Seq<Args>) -> nat
    decreases a.len(),
{
    if a.len() == 0 {
        0
    } else {
        imm_args(a.drop_last()) + if a.last() is REGISTER {
            0nat
        } else {
            1nat
        }
    }
}

/// The bytes that an instruction line takes once encoded (counting at
/// most three operands).
pub open spec fn instr_size_spec(ins: Instr) -> nat {
    let a = ins_args(ins);
    4 + 8 * imm_args(
        if a.len() <= 3 {
            a
        } else {
            a.subrange(0, 3)
        },
    )
}

/// The bytes that a list of instruction lines takes.
pub open spec fn ins_list_size(v: Seq<Instr>) -> nat
    decreases v.len(),
{
    if v.len() == 0 {
        0
    } else {
        ins_list_size(v.drop_last()) + instr_size_spec(v.last())
    }
}

/// The bytes that a list of functions takes.
pub open spec fn funcs_size(fs: Seq<Function>) -> nat
    decreases fs.len(),
{
    if fs.len() == 0 {
        0
    } else {
        funcs_size(fs.drop_last()) + ins_list_size(fs.last().ins@)
    }
}

/// The bytes that a data item takes.
pub open spec fn data_item_size(d: Data) -> nat {
    match d.item {
        DataItem::Byte(_) => 1,
        DataItem::Short(_) => 2,
        DataItem::Int(_) => 4,
        DataItem::Long(_) => 8,
        DataItem::Str(b) => if (b@.len() as u64) < u64::MAX {
            (b@.len() + 1) as nat
        } else {
            u64::MAX as nat
        },
    }
}

/// The bytes that a list of data items takes.
pub open spec fn data_total(d: Seq<Data>) -> nat
    decreases d.len(),
{
    if d.len() == 0 {
        0
    } else {
        data_total(d.drop_last()) + data_item_size(d.last())
    }
}

/// Where the data items start: the value of the first `DATA_BEGIN` define,
/// or 0.
pub open spec fn data_base(defs: Seq<Define>) -> u64 {
    match define_index(defs, "DATA_BEGIN"@) {
        Some(k) => match defs[k].1 {
            Token::INT(s) => s as u64,
            _ => 0,
        },
        None => 0,
    }
}

/// Whether the first `DATA_BEGIN` define holds something other than an
/// integer.
pub open spec fn data_begin_bad(defs: Seq<Define>) -> bool {
    match define_index(defs, "DATA_BEGIN"@) {
        Some(k) => !(defs[k].1 is INT),
        None => false,
    }
}

/// The symbols of the data items, with their addresses.
pub open spec fn data_entries(base: u64, d: Seq<Data>) -> Seq<(u64, Seq<char>)>
    decreases d.len(),
{
    if d.len() == 0 {
        Seq::empty()
    } else {
        data_entries(base, d.drop_last()).push(((base + data_total(d.drop_last())) as u64, d.last().name@))
    }
}

/// The symbols of the functions and labels, each at the end of the header
/// plus the bytes of those before it.
pub open spec fn func_entries(fs: Seq<Function>) -> Seq<(u64, Seq<char>)> {
    Seq::new(fs.len(), |f: int| ((HEADER_LEN + funcs_size(fs.subrange(0, f))) as u64, fs[f].name@))
}

/// The symbol table of a unit: data items first, then functions and
/// labels, wherever in the source they are declared.
pub open spec fn symbols(u: Unit) -> Seq<(u64, Seq<char>)> {
    (if u.data@.len() == 0 {
        Seq::empty()
    } else {
        data_entries(data_base(u.define@), u.data@)
    }) + func_entries(u.funcs@)
}

/// The address of the first symbol named `s`.
pub open spec fn first_match(t: Seq<(u64, Seq<char>)>, s: Seq<char>) -> Option<u64>
    decreases t.len(),
{
    if t.len() == 0 {
        None
    } else if t[0].1 == s {
        Some(t[0].0)
    } else {
        first_match(t.drop_first(), s)
    }
}

/// The tag of an operand and its immediate, if any: a register id; 81 and
/// the integer; 82 and the float bits; 83 and the packed offset; 81 and the
/// address of a symbol.
pub open spec fn operand_enc(a: Args, t: Seq<(u64, Seq<char>)>) -> Result<(u8, Option<u64>), Seq<char>> {
    match a {
        Args::REGISTER(r) => if r > 80 {
            Err("Invalid register number"@)
        } else {
            Ok((r, None))
        },
        Args::INT(i) => Ok((81u8, Some(i as u64))),
        Args::DECIMAL(d) => Ok((82u8, Some(d))),
        Args::OFFSET(r, o) => if r > 80 {
            Err("Invalid register number"@)
        } else {
            Ok((83u8, Some(offset_of(r, o as u64))))
        },
        Args::STRING(s) => match first_match(t, s@) {
            Some(x) => Ok((81u8, Some(x))),
            None => Err("Function or label not found"@),
        },
    }
}

pub open spec fn opt_seq(x: Option<u64>) -> Seq<u64> {
    match x {
        Some(v) => seq![v],
        None => Seq::empty(),
    }
}

/// The encoding of operand `k` of `a`, tag 0 for an unused slot.
pub open spec fn slot_enc(a: Seq<Args>, k: int, t: Seq<(u64, Seq<char>)>) -> Result<(u8, Option<u64>), Seq<char>> {
    if k < a.len() {
        operand_enc(a[k], t)
    } else {
        Ok((0u8, None))
    }
}

/// The encoded instruction of a line: the word holding its opcode, the
/// tags of its operands in order (0 for unused slots) and the firmware bit,
/// then the immediates in operand order.
pub open spec fn ins_enc(ins: Instr, t: Seq<(u64, Seq<char>)>, fw: bool) -> Result<InsView, Seq<char>> {
    let a = ins_args(ins);
    if a.len() > 3 {
        Err("Too many operands"@)
    } else {
        match (slot_enc(a, 0, t), slot_enc(a, 1, t), slot_enc(a, 2, t)) {
            (Err(m), _, _) => Err(m),
            (Ok(_), Err(m), _) => Err(m),
            (Ok(_), Ok(_), Err(m)) => Err(m),
            (Ok((t1, i1)), Ok((t2, i2)), Ok((t3, i3))) => Ok(
                InsView {
                    opcode: word_of(ins.name.spec_code(), t1, t2, t3, fw),
                    args: opt_seq(i1) + opt_seq(i2) + opt_seq(i3),
                },
            ),
        }
    }
}

/// Whether the function carries an attribute; firmware is the only one.
pub open spec fn has_firmware(f: Function) -> bool {
    f.attrs is Some && f.attrs->Some_0@.len() > 0
}

/// The first error among the lines `v`, in order.
pub open spec fn ins_list_error(v: Seq<Instr>, t: Seq<(u64, Seq<char>)>, fw: bool) -> Option<Seq<char>>
    decreases v.len(),
{
    if v.len() == 0 {
        None
    } else {
        match ins_list_error(v.drop_last(), t, fw) {
            Some(m) => Some(m),
            None => match ins_enc(v.last(), t, fw) {
                Err(m) => Some(m),
                Ok(_) => None,
            },
        }
    }
}

/// The first error among the functions `fs`, in order.
pub open spec fn funcs_error(fs: Seq<Function>, t: Seq<(u64, Seq<char>)>) -> Option<Seq<char>>
    decreases fs.len(),
{
    if fs.len() == 0 {
        None
    } else {
        match funcs_error(fs.drop_last(), t) {
            Some(m) => Some(m),
            None => ins_list_error(fs.last().ins@, t, has_firmware(fs.last())),
        }
    }
}

/// What stops the encoding of `u`, if anything: a non-integer
/// `DATA_BEGIN`, data or code past the address space, the first operand
/// that cannot be encoded (too many operands, a register above 80, a symbol
/// that no data item, function or label names), or no `_start`.
pub open spec fn sema_error(u: Unit) -> Option<Seq<char>> {
    if u.data@.len() > 0 && data_begin_bad(u.define@) {
        Some("DATA_BEGIN must be an integer"@)
    } else if u.data@.len() > 0 && data_base(u.define@) + data_total(u.data@) > u64::MAX {
        Some("Image too large"@)
    } else if HEADER_LEN + funcs_size(u.funcs@) > u64::MAX {
        Some("Image too large"@)
    } else {
        match funcs_error(u.funcs@, symbols(u)) {
            Some(m) => Some(m),
            None => if exists|f: int| 0 <= f < u.funcs@.len() && (#[trigger] u.funcs@[f]).name@ == "_start"@ {
                None
            } else {
                Some("_start not found"@)
            },
        }
    }
}

pub open spec fn table_view(t: Seq<(u64, Vec<char>)>) -> Seq<(u64, Seq<char>)> {
    Seq::new(t.len(), |i: int| (t[i].0, t[i].1@))
}

/// The bytes that a data item takes.
fn data_size(d: &Data) -> (r: u64)
    ensures
        r == data_item_size(*d),
        r >= 1,
{
    match &d.item {
        DataItem::Byte(_) => 1,
        DataItem::Short(_) => 2,
        DataItem::Int(_) => 4,
        DataItem::Long(_) => 8,
        DataItem::Str(b) => if (b.len() as u64) < u64::MAX {
            b.len() as u64 + 1
        } else {
            u64::MAX
        },
    }
}

/// The bytes that an instruction line takes once encoded.
fn instr_size(ins: &Instr) -> (r: u64)
    ensures
        r == instr_size_spec(*ins),
{
    if ins.len == 1 {
        return 4;
    }
    match &ins.args {
        None => 4,
        Some(args) => {
            let ghost a = args@;
            let n: usize = if args.len() <= 3 {
                args.len()
            } else {
                3
            };
            let ghost cut = if a.len() <= 3 {
                a
            } else {
                a.subrange(0, 3)
            };
            let mut size: u64 = 4;
            let mut k: usize = 0;
            while k < n
                invariant
                    k <= n <= 3,
                    n == cut.len(),
                    a == args@,
                    cut == if a.len() <= 3 { a } else { a.subrange(0, 3) },
                    size == 4 + 8 * imm_args(cut.subrange(0, k as int)),
                    size <= 4 + 8 * k,
                decreases n - k,
            {
                assert(cut.subrange(0, k + 1).drop_last() =~= cut.subrange(0, k as int));
                assert(cut[k as int] == args@[k as int]);
                match &args[k] {
                    Args::REGISTER(_) => {},
                    _ => {
                        size = size + 8;
                    },
                }
                k = k + 1;
            }
            assert(cut.subrange(0, n as int) =~= cut);
            size
        },
    }
}

/// The address of the first symbol named `s` in `table`.
fn lookup(table: &Vec<(u64, Vec<char>)>, s: &Vec<char>) -> (r: Option<u64>)
    ensures
        r == first_match(table_view(table@), s@),
{
    let ghost tv = table_view(table@);
    assert(tv.subrange(0, tv.len() as int) =~= tv);
    let mut k: usize = 0;
    while k < table.len()
        invariant
            k <= table@.len(),
            tv == table_view(table@),
            first_match(tv, s@) == first_match(tv.subrange(k as int, tv.len() as int), s@),
        decreases table@.len() - k,
    {
        let ghost rest = tv.subrange(k as int, tv.len() as int);
        assert(rest.drop_first() =~= tv.subrange(k + 1, tv.len() as int));
        assert(rest[0] == (table@[k as int].0, table@[k as int].1@));
        if same_chars(&table[k].1, s) {
            return Some(table[k].0);
        }
        k = k + 1;
    }
    assert(tv.subrange(k as int, tv.len() as int) =~= Seq::<(u64, Seq<char>)>::empty());
    None
}

/// The tag of an operand, and its immediate if it has one.
fn encode_operand(a: &Args, table: &Vec<(u64, Vec<char>)>) -> (r: Result<(u8, Option<u64>), &'static str>)
    ensures
        r is Ok <==> operand_enc(*a, table_view(table@)) is Ok,
        r is Ok ==> r->Ok_0 == operand_enc(*a, table_view(table@))->Ok_0,
        r is Err ==> r->Err_0@ == operand_enc(*a, table_view(table@))->Err_0,
{
    match a {
        Args::REGISTER(reg) => {
            if *reg > 80 {
                return Err("Invalid register number");
            }
            Ok((*reg, None))
        },
        Args::INT(i) => Ok((TAG_INT, Some(*i as u64))),
        Args::DECIMAL(d) => Ok((TAG_DECIMAL, Some(*d))),
        Args::OFFSET(reg, off) => {
            if *reg > 80 {
                return Err("Invalid register number");
            }
            Ok((TAG_OFFSET, Some(encode_offset(*reg, *off as u64))))
        },
        Args::STRING(s) => match lookup(table, s) {
            Some(addr) => Ok((TAG_INT, Some(addr))),
            None => Err("Function or label not found"),
        },
    }
}

/// Whether the function carries the firmware attribute.
fn is_firmware(f: &Function) -> (r: bool)
    ensures
        r == has_firmware(*f),
{
    match &f.attrs {
        None => false,
        Some(attrs) => attrs.len() > 0,
    }
}

fn push_imm(v: &mut Vec<u64>, x: Option<u64>)
    ensures
        final(v)@ == old(v)@ + opt_seq(x),
{
    match x {
        Some(a) => v.push(a),
        None => {},
    }
    assert(final(v)@ =~= old(v)@ + opt_seq(x)) by {
        match x {
            Some(a) => {},
            None => {},
        }
    }
}

/// 1 where operand `k` of `a` takes an immediate, else 0.
pub open spec fn imm_at(a: Seq<Args>, k: int) -> nat {
    if k < a.len() && !(a[k] is REGISTER) {
        1
    } else {
        0
    }
}

proof fn lemma_enc_size(ins: Instr, t: Seq<(u64, Seq<char>)>, fw: bool)
    requires
        ins_enc(ins, t, fw) is Ok,
    ensures
        4 + 8 * ins_enc(ins, t, fw)->Ok_0.args.len() == instr_size_spec(ins),
        ins_well_formed(ins_enc(ins, t, fw)->Ok_0),
{
    let a = ins_args(ins);
    assert(a.len() <= 3);
    let (t1, i1) = slot_enc(a, 0, t)->Ok_0;
    let (t2, i2) = slot_enc(a, 1, t)->Ok_0;
    let (t3, i3) = slot_enc(a, 2, t)->Ok_0;
    let c0 = imm_at(a, 0);
    let c1 = imm_at(a, 1);
    let c2 = imm_at(a, 2);
    assert(opt_seq(i1).len() == c0);
    assert(opt_seq(i2).len() == c1);
    assert(opt_seq(i3).len() == c2);
    let a1 = a.subrange(0, 1);
    let a2 = a.subrange(0, 2);
    if a.len() >= 1 {
        assert(a1.drop_last() =~= Seq::<Args>::empty());
        assert(a1.last() == a[0]);
        assert(imm_args(a1.drop_last()) == 0);
        assert(imm_args(a1) == c0);
    }
    if a.len() >= 2 {
        assert(a2.drop_last() =~= a1);
        assert(a2.last() == a[1]);
        assert(imm_args(a2) == c0 + c1);
    }
    if a.len() == 3 {
        assert(a.drop_last() =~= a2);
        assert(a.last() == a[2]);
    } else if a.len() == 2 {
        assert(a =~= a2);
    } else if a.len() == 1 {
        assert(a =~= a1);
    }
    assert(imm_args(a) == c0 + c1 + c2);
    crate::word::lemma_word_round_trip(ins.name.spec_code(), t1, t2, t3, fw);
    let w = word_of(ins.name.spec_code(), t1, t2, t3, fw);
    assert(crate::object::is_immediate_tag(t1) <==> i1 is Some);
    assert(crate::object::is_immediate_tag(t2) <==> i2 is Some);
    assert(crate::object::is_immediate_tag(t3) <==> i3 is Some);
    assert(imm_count(w) == c0 + c1 + c2);
}

/// Encodes one instruction line.
fn encode_ins(ins: &Instr, table: &Vec<(u64, Vec<char>)>, firmware: bool) -> (r: Result<Ins, &'static str>)
    ensures
        r is Ok <==> ins_enc(*ins, table_view(table@), firmware) is Ok,
        r is Err ==> r->Err_0@ == ins_enc(*ins, table_view(table@), firmware)->Err_0,
        r is Ok ==> ({
            let e = r->Ok_0;
            &&& (InsView { opcode: e.opcode, args: e.args@ }) == ins_enc(*ins, table_view(table@), firmware)->Ok_0
            &&& e.size == instr_size_spec(*ins)
        }),
{
    let none: Vec<Args> = Vec::new();
    let args: &Vec<Args> = if ins.len == 1 {
        &none
    } else {
        match &ins.args {
            Some(a) => a,
            None => &none,
        }
    };
    assert(args@ == ins_args(*ins));
    if args.len() > 3 {
        return Err("Too many operands");
    }
    let ghost t = table_view(table@);
    let (t1, i1) = if args.len() > 0 {
        encode_operand(&args[0], table)?
    } else {
        (0u8, None)
    };
    let (t2, i2) = if args.len() > 1 {
        encode_operand(&args[1], table)?
    } else {
        (0u8, None)
    };
    let (t3, i3) = if args.len() > 2 {
        encode_operand(&args[2], table)?
    } else {
        (0u8, None)
    };
    assert(slot_enc(args@, 0, t) == Ok::<(u8, Option<u64>), Seq<char>>((t1, i1)));
    assert(slot_enc(args@, 1, t) == Ok::<(u8, Option<u64>), Seq<char>>((t2, i2)));
    assert(slot_enc(args@, 2, t) == Ok::<(u8, Option<u64>), Seq<char>>((t3, i3)));
    assert(t1 < 128 && t2 < 128 && t3 < 128);
    let code = ins.name.code();
    assert(code < 40) by {
        match ins.name {
            _ => {},
        }
    }
    let word = encode_word(code, t1, t2, t3, firmware);
    let mut imms: Vec<u64> = Vec::new();
    push_imm(&mut imms, i1);
    push_imm(&mut imms, i2);
    push_imm(&mut imms, i3);
    assert(imms@ =~= Seq::<u64>::empty() + opt_seq(i1) + opt_seq(i2) + opt_seq(i3));
    assert(imms@ =~= opt_seq(i1) + opt_seq(i2) + opt_seq(i3));
    proof {
        lemma_enc_size(*ins, t, firmware);
    }
    let size = 4 + 8 * imms.len() as u64;
    Ok(Ins { opcode: word, args: imms, size })
}

/// The index of the first `DATA_BEGIN` define.
fn find_data_begin(defs: &Vec<Define>) -> (r: Option<usize>)
    ensures
        r is Some <==> define_index(defs@, "DATA_BEGIN"@) is Some,
        r is Some ==> define_index(defs@, "DATA_BEGIN"@) == Some(r->Some_0 as int) && r->Some_0 < defs@.len(),
{
    let mut k: usize = 0;
    while k < defs.len()
        invariant
            k <= defs@.len(),
            forall|j: int| 0 <= j < k ==> defs@[j].0@ != "DATA_BEGIN"@,
        decreases defs@.len() - k,
    {
        if chars_eq(defs[k].0.as_slice(), "DATA_BEGIN") {
            proof {
                let s = "DATA_BEGIN"@;
                let c = choose|c: int| 0 <= c < defs@.len() && defs@[c].0@ == s && forall|j: int| 0 <= j < c ==> defs@[j].0@ != s;
                assert(c == k as int) by {
                    if c < k {
                        assert(defs@[c].0@ != s);
                    }
                    if k < c {
                        assert(defs@[k as int].0@ != s);
                    }
                }
            }
            return Some(k);
        }
        k = k + 1;
    }
    None
}

proof fn lemma_data_total_prefix(d: Seq<Data>, k: int)
    requires
        0 <= k <= d.len(),
    ensures
        data_total(d.subrange(0, k)) <= data_total(d),
    decreases d.len() - k,
{
    if k < d.len() {
        lemma_data_total_prefix(d, k + 1);
        assert(d.subrange(0, k + 1).drop_last() =~= d.subrange(0, k));
    } else {
        assert(d.subrange(0, k) =~= d);
    }
}

proof fn lemma_ins_size_prefix(v: Seq<Instr>, k: int)
    requires
        0 <= k <= v.len(),
    ensures
        ins_list_size(v.subrange(0, k)) <= ins_list_size(v),
    decreases v.len() - k,
{
    if k < v.len() {
        lemma_ins_size_prefix(v, k + 1);
        assert(v.subrange(0, k + 1).drop_last() =~= v.subrange(0, k));
    } else {
        assert(v.subrange(0, k) =~= v);
    }
}

proof fn lemma_funcs_size_prefix(fs: Seq<Function>, k: int)
    requires
        0 <= k <= fs.len(),
    ensures
        funcs_size(fs.subrange(0, k)) <= funcs_size(fs),
    decreases fs.len() - k,
{
    if k < fs.len() {
        lemma_funcs_size_prefix(fs, k + 1);
        assert(fs.subrange(0, k + 1).drop_last() =~= fs.subrange(0, k));
    } else {
        assert(fs.subrange(0, k) =~= fs);
    }
}

proof fn lemma_code_bytes_push(v: Seq<InsView>, x: InsView)
    ensures
        code_bytes(v.push(x)).len() == code_bytes(v).len() + 4 + 8 * x.args.len(),
{
    assert(v.push(x).drop_last() =~= v);
    lemma_args_bytes(x.args);
}

/// Encodes the lines of one function, stopping at the first that fails.
fn encode_func(func: &Function, table: &Vec<(u64, Vec<char>)>, firmware: bool) -> (r: Result<(Vec<Ins>, u64), &'static str>)
    requires
        ins_list_size(func.ins@) <= u64::MAX,
    ensures
        r is Ok <==> ins_list_error(func.ins@, table_view(table@), firmware) is None,
        r is Err ==> r->Err_0@ == ins_list_error(func.ins@, table_view(table@), firmware)->Some_0,
        r is Ok ==> ({
            let (ins, size) = r->Ok_0;
            &&& ins@.len() == func.ins@.len()
            &&& size == ins_list_size(func.ins@)
            &&& code_bytes(ins_list(ins@)).len() == size
            &&& forall|j: int| 0 <= j < ins@.len() ==> ins_well_formed(#[trigger] ins_list(ins@)[j])
            &&& forall|m: int| 0 <= m < ins@.len() ==> (InsView { opcode: (#[trigger] ins@[m]).opcode, args: ins@[m].args@ })
                == ins_enc(func.ins@[m], table_view(table@), firmware)->Ok_0
        }),
{
    let ghost fins = func.ins@;
    let ghost syms = table_view(table@);
    let mut ins: Vec<Ins> = Vec::new();
    let mut size: u64 = 0;
    let mut k: usize = 0;
    while k < func.ins.len()
        invariant
            fins == func.ins@,
            syms == table_view(table@),
            k <= fins.len(),
            ins@.len() == k,
            ins_list_size(fins) <= u64::MAX,
            size == ins_list_size(fins.subrange(0, k as int)),
            code_bytes(ins_list(ins@)).len() == size,
            ins_list_error(fins.subrange(0, k as int), syms, firmware) is None,
            forall|j: int| 0 <= j < ins@.len() ==> ins_well_formed(#[trigger] ins_list(ins@)[j]),
            forall|m: int| 0 <= m < k ==> (InsView { opcode: (#[trigger] ins@[m]).opcode, args: ins@[m].args@ })
                == ins_enc(fins[m], syms, firmware)->Ok_0,
        decreases fins.len() - k,
    {
        assert(fins.subrange(0, k + 1).drop_last() =~= fins.subrange(0, k as int));
        assert(fins.subrange(0, k + 1).last() == fins[k as int]);
        let e = match encode_ins(&func.ins[k], table, firmware) {
            Ok(e) => e,
            Err(m) => {
                proof {
                    lemma_ins_error_extends(fins, k as int + 1, syms, firmware);
                }
                return Err(m);
            },
        };
        let ghost ev = InsView { opcode: e.opcode, args: e.args@ };
        proof {
            lemma_enc_size(fins[k as int], syms, firmware);
            lemma_code_bytes_push(ins_list(ins@), ev);
            lemma_ins_size_prefix(fins, k + 1);
        }
        size = size + e.size;
        let ghost prev = ins@;
        ins.push(e);
        assert(ins_list(ins@) =~= ins_list(prev).push(ev));
        k = k + 1;
    }
    assert(fins.subrange(0, k as int) =~= fins);
    Ok((ins, size))
}

/// Lays out the unit and encodes it: data symbols from the `DATA_BEGIN`
/// define on, functions and labels from the end of the header on, each
/// symbolic operand resolved to its address wherever it is declared, every
/// instruction of a `firmware` function with its privilege bit set, and
/// the entry point at `_start`.
#[verifier::rlimit(100)]
pub fn sem_analyse(unit: Unit) -> (r: Result<SemUnit, &'static str>)
    ensures
        r is Ok <==> sema_error(unit) is None,
        r is Err ==> r->Err_0@ == sema_error(unit)->Some_0,
        r is Ok ==> unit_well_formed(r->Ok_0),
        r is Ok ==> r->Ok_0.funcs@.len() == unit.funcs@.len(),
        r is Ok ==> forall|f: int| 0 <= f < unit.funcs@.len() ==> (#[trigger] r->Ok_0.funcs@[f]).ins@.len() == unit.funcs@[f].ins@.len(),
        r is Ok ==> forall|f: int, k: int|
            0 <= f < unit.funcs@.len() && 0 <= k < unit.funcs@[f].ins@.len() ==> (InsView {
                opcode: (#[trigger] r->Ok_0.funcs@[f].ins@[k]).opcode,
                args: r->Ok_0.funcs@[f].ins@[k].args@,
            }) == ins_enc(unit.funcs@[f].ins@[k], symbols(unit), has_firmware(unit.funcs@[f]))->Ok_0,
        r is Ok ==> exists|f: int| 0 <= f < unit.funcs@.len() && (#[trigger] unit.funcs@[f]).name@ == "_start"@
            && r->Ok_0.header.start == HEADER_LEN + code_bytes(flat_code(r->Ok_0.funcs@.subrange(0, f))).len()
            && r->Ok_0.header.start == HEADER_LEN + funcs_size(unit.funcs@.subrange(0, f)),
{
    let mut table: Vec<(u64, Vec<char>)> = Vec::new();
    if unit.data.len() != 0 {
        let mut start: u64 = 0;
        match find_data_begin(&unit.define) {
            Some(k) => match &unit.define[k].1 {
                Token::INT(s) => {
                    start = *s as u64;
                },
                _ => {
                    return Err("DATA_BEGIN must be an integer");
                },
            },
            None => {},
        }
        assert(start == data_base(unit.define@));
        let mut d: usize = 0;
        while d < unit.data.len()
            invariant
                d <= unit.data@.len(),
                unit.data@.len() > 0,
                !data_begin_bad(unit.define@),
                start == data_base(unit.define@) + data_total(unit.data@.subrange(0, d as int)),
                table_view(table@) == data_entries(data_base(unit.define@), unit.data@.subrange(0, d as int)),
            decreases unit.data@.len() - d,
        {
            let ghost pre = unit.data@.subrange(0, d as int);
            let ghost nxt = unit.data@.subrange(0, d + 1);
            assert(nxt.drop_last() =~= pre);
            assert(nxt.last() == unit.data@[d as int]);
            let size = data_size(&unit.data[d]);
            if start > u64::MAX - size {
                proof {
                    lemma_data_total_prefix(unit.data@, d + 1);
                }
                return Err("Image too large");
            }
            let name = copy_chars(unit.data[d].name.as_slice(), 0, unit.data[d].name.len());
            assert(name@ =~= unit.data@[d as int].name@);
            let ghost tv0 = table_view(table@);
            table.push((start, name));
            assert(table_view(table@) =~= tv0.push((start, unit.data@[d as int].name@)));
            start = start + size;
            d = d + 1;
        }
        assert(unit.data@.subrange(0, d as int) =~= unit.data@);
    }
    let ghost dtab = table_view(table@);
    assert(unit.data@.len() > 0 ==> !data_begin_bad(unit.define@) && data_base(unit.define@) + data_total(unit.data@) <= u64::MAX);
    assert(dtab == (if unit.data@.len() == 0 {
        Seq::empty()
    } else {
        data_entries(data_base(unit.define@), unit.data@)
    }));
    let mut offset: u64 = HEADER_LEN as u64;
    let mut f: usize = 0;
    while f < unit.funcs.len()
        invariant
            f <= unit.funcs@.len(),
            offset == HEADER_LEN + funcs_size(unit.funcs@.subrange(0, f as int)),
            table_view(table@) == dtab + func_entries(unit.funcs@).subrange(0, f as int),
            unit.data@.len() > 0 ==> !data_begin_bad(unit.define@) && data_base(unit.define@) + data_total(unit.data@) <= u64::MAX,
        decreases unit.funcs@.len() - f,
    {
        let name = copy_chars(unit.funcs[f].name.as_slice(), 0, unit.funcs[f].name.len());
        assert(name@ =~= unit.funcs@[f as int].name@);
        let ghost tv0 = table_view(table@);
        table.push((offset, name));
        assert(table_view(table@) =~= tv0.push((offset, unit.funcs@[f as int].name@)));
        assert(func_entries(unit.funcs@).subrange(0, f + 1) =~= func_entries(unit.funcs@).subrange(0, f as int).push(
            func_entries(unit.funcs@)[f as int],
        ));
        assert(table_view(table@) =~= dtab + func_entries(unit.funcs@).subrange(0, f + 1));
        let ghost fins = unit.funcs@[f as int].ins@;
        let ghost base = offset as int;
        let mut k: usize = 0;
        while k < unit.funcs[f].ins.len()
            invariant
                f < unit.funcs@.len(),
                fins == unit.funcs@[f as int].ins@,
                k <= fins.len(),
                base == HEADER_LEN + funcs_size(unit.funcs@.subrange(0, f as int)),
                offset == base + ins_list_size(fins.subrange(0, k as int)),
                unit.data@.len() > 0 ==> !data_begin_bad(unit.define@) && data_base(unit.define@) + data_total(unit.data@) <= u64::MAX,
            decreases fins.len() - k,
        {
            let size = instr_size(&unit.funcs[f].ins[k]);
            assert(fins.subrange(0, k + 1).drop_last() =~= fins.subrange(0, k as int));
            assert(fins.subrange(0, k + 1).last() == fins[k as int]);
            if offset > u64::MAX - size {
                proof {
                    lemma_ins_size_prefix(fins, k + 1);
                    lemma_funcs_size_prefix(unit.funcs@, f + 1);
                    assert(unit.funcs@.subrange(0, f + 1).drop_last() =~= unit.funcs@.subrange(0, f as int));
                    assert(unit.funcs@.subrange(0, f + 1).last() == unit.funcs@[f as int]);
                }
                return Err("Image too large");
            }
            offset = offset + size;
            k = k + 1;
        }
        assert(fins.subrange(0, k as int) =~= fins);
        assert(unit.funcs@.subrange(0, f + 1).drop_last() =~= unit.funcs@.subrange(0, f as int));
        assert(unit.funcs@.subrange(0, f + 1).last() == unit.funcs@[f as int]);
        f = f + 1;
    }
    assert(unit.funcs@.subrange(0, f as int) =~= unit.funcs@);
    assert(func_entries(unit.funcs@).subrange(0, f as int) =~= func_entries(unit.funcs@));
    assert(table_view(table@) == symbols(unit));
    let ghost total = funcs_size(unit.funcs@);
    let ghost syms = symbols(unit);
    let mut funcs: Vec<Func> = Vec::new();
    let mut offset: u64 = HEADER_LEN as u64;
    let mut start: Option<u64> = None;
    let ghost mut start_index: int = 0;
    let mut f: usize = 0;
    while f < unit.funcs.len()
        invariant
            f <= unit.funcs@.len(),
            table_view(table@) == syms,
            syms == symbols(unit),
            HEADER_LEN + total <= u64::MAX,
            total == funcs_size(unit.funcs@),
            unit.data@.len() > 0 ==> !data_begin_bad(unit.define@) && data_base(unit.define@) + data_total(unit.data@) <= u64::MAX,
            funcs@.len() == f,
            funcs_error(unit.funcs@.subrange(0, f as int), syms) is None,
            offset == HEADER_LEN + code_bytes(flat_code(funcs@)).len(),
            offset == HEADER_LEN + funcs_size(unit.funcs@.subrange(0, f as int)),
            forall|k: int| 0 <= k < flat_code(funcs@).len() ==> ins_well_formed(#[trigger] flat_code(funcs@)[k]),
            forall|j: int| 0 <= j < f ==> (#[trigger] funcs@[j]).ins@.len() == unit.funcs@[j].ins@.len(),
            forall|j: int, k: int|
                0 <= j < f && 0 <= k < unit.funcs@[j].ins@.len() ==> (InsView {
                    opcode: (#[trigger] funcs@[j].ins@[k]).opcode,
                    args: funcs@[j].ins@[k].args@,
                }) == ins_enc(unit.funcs@[j].ins@[k], syms, has_firmware(unit.funcs@[j]))->Ok_0,
            start is Some <==> exists|j: int| 0 <= j < f && (#[trigger] unit.funcs@[j]).name@ == "_start"@,
            start is Some ==> 0 <= start_index < f && unit.funcs@[start_index].name@ == "_start"@
                && start->Some_0 == HEADER_LEN + code_bytes(flat_code(funcs@.subrange(0, start_index))).len()
                && start->Some_0 == HEADER_LEN + funcs_size(unit.funcs@.subrange(0, start_index)),
        decreases unit.funcs@.len() - f,
    {
        let func = &unit.funcs[f];
        let firmware = is_firmware(func);
        let ghost fins = func.ins@;
        proof {
            lemma_funcs_size_prefix(unit.funcs@, f + 1);
            assert(unit.funcs@.subrange(0, f + 1).drop_last() =~= unit.funcs@.subrange(0, f as int));
        }
        if start.is_none() && chars_eq(func.name.as_slice(), "_start") {
            start = Some(offset);
            proof {
                start_index = f as int;
                assert(funcs@.subrange(0, f as int) =~= funcs@);
            }
        }
        let ghost before = flat_code(funcs@);
        proof {
            assert(unit.funcs@.subrange(0, f + 1).last() == unit.funcs@[f as int]);
        }
        let (ins, size) = match encode_func(func, &table, firmware) {
            Ok(x) => x,
            Err(m) => {
                proof {
                    lemma_funcs_error_extends(unit.funcs@, f as int + 1, syms);
                }
                return Err(m);
            },
        };
        proof {
            crate::object::lemma_code_bytes_concat(before, ins_list(ins@));
            assert forall|j: int| 0 <= j < (before + ins_list(ins@)).len() implies ins_well_formed(
                #[trigger] (before + ins_list(ins@))[j],
            ) by {
                if j >= before.len() {
                    assert((before + ins_list(ins@))[j] == ins_list(ins@)[j - before.len()]);
                }
            }
            assert(funcs_error(unit.funcs@.subrange(0, f + 1), syms) is None) by {
                assert(unit.funcs@.subrange(0, f + 1).drop_last() =~= unit.funcs@.subrange(0, f as int));
            }
        }
        let ghost fs0 = funcs@;
        let ghost new_ins = ins@;
        funcs.push(Func { ins, size });
        assert(funcs@.drop_last() =~= fs0);
        assert(funcs@.last().ins@ == new_ins);
        assert(flat_code(funcs@) == before + ins_list(new_ins));
        assert(forall|j: int| 0 <= j < f ==> funcs@[j] == fs0[j]);
        proof {
            if start is Some {
                assert(funcs@.subrange(0, start_index) =~= fs0.subrange(0, start_index));
            }
        }
        offset = offset + size;
        f = f + 1;
    }
    assert(unit.funcs@.subrange(0, f as int) =~= unit.funcs@);
    match start {
        None => Err("_start not found"),
        Some(s) => {
            let header = Header { magic: MAGIC, major: MAJOR, minor: MINOR, start: s, data: offset };
            Ok(SemUnit { name: unit.name, header, funcs, data: unit.data })
        },
    }
}

proof fn lemma_ins_error_extends(v: Seq<Instr>, n: int, t: Seq<(u64, Seq<char>)>, fw: bool)
    requires
        0 <= n <= v.len(),
        ins_list_error(v.subrange(0, n), t, fw) is Some,
    ensures
        ins_list_error(v, t, fw) == ins_list_error(v.subrange(0, n), t, fw),
    decreases v.len() - n,
{
    if n < v.len() {
        assert(v.subrange(0, n + 1).drop_last() =~= v.subrange(0, n));
        lemma_ins_error_extends(v, n + 1, t, fw);
    } else {
        assert(v.subrange(0, n) =~= v);
    }
}

proof fn lemma_funcs_error_extends(fs: Seq<Function>, n: int, t: Seq<(u64, Seq<char>)>)
    requires
        0 < n <= fs.len(),
        funcs_error(fs.subrange(0, n - 1), t) is None,
        ins_list_error(fs[n - 1].ins@, t, has_firmware(fs[n - 1])) is Some,
    ensures
        funcs_error(fs, t) == ins_list_error(fs[n - 1].ins@, t, has_firmware(fs[n - 1])),
    decreases fs.len() - n,
{
    let p = fs.subrange(0, n);
    assert(p.drop_last() =~= fs.subrange(0, n - 1));
    assert(funcs_error(p, t) is Some);
    lemma_funcs_error_prefix(fs, n, t);
}

proof fn lemma_funcs_error_prefix(fs: Seq<Function>, n: int, t: Seq<(u64, Seq<char>)>)
    requires
        0 <= n <= fs.len(),
        funcs_error(fs.subrange(0, n), t) is Some,
    ensures
        funcs_error(fs, t) == funcs_error(fs.subrange(0, n), t),
    decreases fs.len() - n,
{
    if n < fs.len() {
        assert(fs.subrange(0, n + 1).drop_last() =~= fs.subrange(0, n));
        lemma_funcs_error_prefix(fs, n + 1, t);
    } else {
        assert(fs.subrange(0, n) =~= fs);
    }
}

} // verus!
