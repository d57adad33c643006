//! The object format: a header, the instructions of every function in order,
//! then the data items. All fields are little-endian.
use vstd::prelude::*;
use crate::codec::{le_u16, le_u32, le_u64, lemma_u16_round_trip, lemma_u32_round_trip, lemma_u64_round_trip, make_u16, make_u32, make_u64, u16_bytes, u32_bytes, u64_bytes, u64_to_u8};
use crate::cpu::{LoadError, HEADER_LEN, MAGIC, MAJOR, MINOR};
use crate::machine::{tag1, tag2, tag3};

verus! {

/// The header of an object image.
#[derive(Clone, Copy, Debug, PartialEq, Eq, Structural)]
pub struct Header {
    pub magic: u32,
    pub major: u16,
    pub minor: u16,
    /// Address of `_start`.
    pub start: u64,
    /// Address where the data items begin.
    pub data: u64,
}

/// An encoded instruction: its word, the eight-byte immediates that follow
/// it, and its size in bytes.
#[derive(Clone, Debug)]
pub struct Ins {
    pub opcode: u32,
    pub args: Vec<u64>,
    pub size: u64,
}

/// An encoded function.
#[derive(Clone, Debug)]
pub struct Func {
    pub ins: Vec<Ins>,
    pub size: u64,
}

/// A data item's value, by type.
#[derive(Clone, Debug)]
pub enum DataItem {
    Byte(u8),
    Short(u16),
    Int(u32),
    Long(u64),
    /// The bytes of a string, written with a terminating zero.
    Str(Vec<u8>),
}

/// A named data item.
#[derive(Clone, Debug)]
pub struct Data {
    pub name: Vec<char>,
    pub item: DataItem,
}

/// An analysed unit ready to be written out.
pub struct SemUnit {
    pub name: Vec<char>,
    pub header: Header,
    pub funcs: Vec<Func>,
    pub data: Vec<Data>,
}

/// A loaded image: its header, its instructions in order, and the bytes of
/// its data section.
pub struct Image {
    pub header: Header,
    pub code: Vec<Ins>,
    pub data: Vec<u8>,
}

/// An instruction as values: its word and its immediates.
pub struct InsView {
    pub opcode: u32,
    pub args: Seq<u64>,
}

pub open spec fn ins_view(i: Ins) -> InsView {
    InsView { opcode: i.opcode, args: i.args@ }
}

pub open spec fn ins_list(v: Seq<Ins>) -> Seq<InsView> {
    Seq::new(v.len(), |k: int| ins_view(v[k]))
}

/// Whether an operand tag announces an eight-byte immediate.
pub open spec fn is_immediate_tag(t: u8) -> bool {
    81 <= t <= 83
}

/// How many immediates follow the word `w`.
pub open spec fn imm_count(w: u32) -> nat {
    (if is_immediate_tag(tag1(w)) { 1nat } else { 0nat }) + (if is_immediate_tag(tag2(w)) {
        1nat
    } else {
        0nat
    }) + (if is_immediate_tag(tag3(w)) { 1nat } else { 0nat })
}

/// The bytes of a list of immediates.
pub open spec fn args_bytes(a: Seq<u64>) -> Seq<u8>
    decreases a.len(),
{
    if a.len() == 0 {
        Seq::empty()
    } else {
        args_bytes(a.drop_last()) + u64_bytes(a.last())
    }
}

/// The bytes of one instruction.
pub open spec fn ins_bytes(i: InsView) -> Seq<u8> {
    u32_bytes(i.opcode) + args_bytes(i.args)
}

/// The bytes of a list of instructions.
pub open spec fn code_bytes(v: Seq<InsView>) -> Seq<u8>
    decreases v.len(),
{
    if v.len() == 0 {
        Seq::empty()
    } else {
        code_bytes(v.drop_last()) + ins_bytes(v.last())
    }
}

/// The instructions of every function, in order.
pub open spec fn flat_code(fs: Seq<Func>) -> Seq<InsView>
    decreases fs.len(),
{
    if fs.len() == 0 {
        Seq::empty()
    } else {
        flat_code(fs.drop_last()) + ins_list(fs.last().ins@)
    }
}

/// The bytes of one data item.
pub open spec fn data_item_bytes(d: Data) -> Seq<u8> {
    match d.item {
        DataItem::Byte(v) => seq![v],
        DataItem::Short(v) => u16_bytes(v),
        DataItem::Int(v) => u32_bytes(v),
        DataItem::Long(v) => u64_bytes(v),
        DataItem::Str(b) => b@.push(0u8),
    }
}

/// The bytes of the data section.
pub open spec fn data_bytes(d: Seq<Data>) -> Seq<u8>
    decreases d.len(),
{
    if d.len() == 0 {
        Seq::empty()
    } else {
        data_bytes(d.drop_last()) + data_item_bytes(d.last())
    }
}

/// The bytes of a header.
pub open spec fn header_bytes(h: Header) -> Seq<u8> {
    u32_bytes(h.magic) + u16_bytes(h.major) + u16_bytes(h.minor) + u64_bytes(h.start) + u64_bytes(
        h.data,
    )
}

/// The whole image of a unit.
pub open spec fn unit_bytes(u: SemUnit) -> Seq<u8> {
    header_bytes(u.header) + code_bytes(flat_code(u.funcs@)) + data_bytes(u.data@)
}

fn push_bytes(out: &mut Vec<u8>, b: &[u8])
    ensures
        final(out)@ == old(out)@ + b@,
{
    let mut k: usize = 0;
    while k < b.len()
        invariant
            k <= b@.len(),
            out@ == old(out)@ + b@.subrange(0, k as int),
        decreases b@.len() - k,
    {
        out.push(b[k]);
        k = k + 1;
        assert(old(out)@ + b@.subrange(0, k as int) =~= old(out)@ + b@.subrange(0, k - 1) + seq![b@[k - 1]]);
    }
    assert(b@.subrange(0, b@.len() as int) =~= b@);
}

fn push_u64(out: &mut Vec<u8>, v: u64)
    ensures
        final(out)@ == old(out)@ + u64_bytes(v),
{
    let b = u64_to_u8(v);
    push_bytes(out, b.as_slice());
}

fn push_u32(out: &mut Vec<u8>, v: u32)
    ensures
        final(out)@ == old(out)@ + u32_bytes(v),
{
    let b = u64_to_u8(v as u64);
    push_bytes(out, &b.as_slice()[0..4]);
}

fn push_u16(out: &mut Vec<u8>, v: u16)
    ensures
        final(out)@ == old(out)@ + u16_bytes(v),
{
    let b = u64_to_u8(v as u64);
    push_bytes(out, &b.as_slice()[0..2]);
}

fn push_ins(out: &mut Vec<u8>, i: &Ins)
    ensures
        final(out)@ == old(out)@ + ins_bytes(ins_view(*i)),
{
    push_u32(out, i.opcode);
    let mut k: usize = 0;
    while k < i.args.len()
        invariant
            k <= i.args@.len(),
            out@ == old(out)@ + u32_bytes(i.opcode) + args_bytes(i.args@.subrange(0, k as int)),
        decreases i.args@.len() - k,
    {
        push_u64(out, i.args[k]);
        k = k + 1;
        assert(i.args@.subrange(0, k as int).drop_last() =~= i.args@.subrange(0, k - 1));
    }
    assert(i.args@.subrange(0, k as int) =~= i.args@);
}

/// Writes the object image of `unit`: the header, the instructions of every
/// function in order, each word followed by its immediates, then the data
/// items in declaration order.
pub fn code_gen(unit: &SemUnit) -> (r: Vec<u8>)
    ensures
        r@ == unit_bytes(*unit),
{
    let mut out: Vec<u8> = Vec::new();
    push_u32(&mut out, unit.header.magic);
    push_u16(&mut out, unit.header.major);
    push_u16(&mut out, unit.header.minor);
    push_u64(&mut out, unit.header.start);
    push_u64(&mut out, unit.header.data);
    let ghost h = out@;
    assert(h =~= header_bytes(unit.header));
    let mut f: usize = 0;
    while f < unit.funcs.len()
        invariant
            f <= unit.funcs@.len(),
            out@ == h + code_bytes(flat_code(unit.funcs@.subrange(0, f as int))),
        decreases unit.funcs@.len() - f,
    {
        let func = &unit.funcs[f];
        let ghost before = out@;
        let mut k: usize = 0;
        while k < func.ins.len()
            invariant
                k <= func.ins@.len(),
                out@ == before + code_bytes(ins_list(func.ins@.subrange(0, k as int))),
            decreases func.ins@.len() - k,
        {
            push_ins(&mut out, &func.ins[k]);
            k = k + 1;
            assert(ins_list(func.ins@.subrange(0, k as int)).drop_last() =~= ins_list(func.ins@.subrange(0, k - 1)));
        }
        assert(func.ins@.subrange(0, k as int) =~= func.ins@);
        proof {
            lemma_code_bytes_concat(flat_code(unit.funcs@.subrange(0, f as int)), ins_list(func.ins@));
        }
        f = f + 1;
        assert(unit.funcs@.subrange(0, f as int).drop_last() =~= unit.funcs@.subrange(0, f - 1));
    }
    assert(unit.funcs@.subrange(0, f as int) =~= unit.funcs@);
    let ghost c = out@;
    let mut k: usize = 0;
    while k < unit.data.len()
        invariant
            k <= unit.data@.len(),
            out@ == c + data_bytes(unit.data@.subrange(0, k as int)),
        decreases unit.data@.len() - k,
    {
        match &unit.data[k].item {
            DataItem::Byte(v) => {
                out.push(*v);
            },
            DataItem::Short(v) => push_u16(&mut out, *v),
            DataItem::Int(v) => push_u32(&mut out, *v),
            DataItem::Long(v) => push_u64(&mut out, *v),
            DataItem::Str(b) => {
                push_bytes(&mut out, b.as_slice());
                out.push(0u8);
            },
        }
        k = k + 1;
        assert(unit.data@.subrange(0, k as int).drop_last() =~= unit.data@.subrange(0, k - 1));
    }
    assert(unit.data@.subrange(0, k as int) =~= unit.data@);
    out
}

/// The bytes of two lists of instructions one after the other.
pub proof fn lemma_code_bytes_concat(a: Seq<InsView>, b: Seq<InsView>)
    ensures
        code_bytes(a + b) == code_bytes(a) + code_bytes(b),
    decreases b.len(),
{
    if b.len() == 0 {
        assert(a + b =~= a);
    } else {
        lemma_code_bytes_concat(a, b.drop_last());
        assert((a + b).drop_last() =~= a + b.drop_last());
    }
}

/// The immediates held in `s`, eight bytes each.
pub open spec fn args_of(s: Seq<u8>, n: nat) -> Seq<u64> {
    Seq::new(n, |k: int| le_u64(s.subrange(8 * k, 8 * k + 8)))
}

/// The instructions that the code section `s` holds, read front to back, or
/// `None` where it does not split into whole instructions.
pub open spec fn parse_code(s: Seq<u8>) -> Option<Seq<InsView>>
    decreases s.len(),
{
    if s.len() == 0 {
        Some(Seq::empty())
    } else if s.len() < 4 {
        None
    } else {
        let w = le_u32(s);
        let size = 4 + 8 * imm_count(w);
        if s.len() < size {
            None
        } else {
            match parse_code(s.subrange(size as int, s.len() as int)) {
                Some(rest) => Some(
                    seq![InsView { opcode: w, args: args_of(s.subrange(4, size as int), imm_count(w)) }]
                        + rest,
                ),
                None => None,
            }
        }
    }
}

/// The header that the first bytes of `b` hold.
pub open spec fn header_of(b: Seq<u8>) -> Header {
    Header {
        magic: le_u32(b),
        major: le_u16(b.subrange(4, 6)),
        minor: le_u16(b.subrange(6, 8)),
        start: le_u64(b.subrange(8, 16)),
        data: le_u64(b.subrange(16, 24)),
    }
}

/// What loading the image `b` gives: its header, its instructions and its
/// data bytes, or why it is refused.
pub open spec fn load_spec(b: Seq<u8>) -> Result<(Header, Seq<InsView>, Seq<u8>), LoadError> {
    if b.len() < HEADER_LEN {
        Err(LoadError::Truncated)
    } else {
        let h = header_of(b);
        if h.magic != MAGIC {
            Err(LoadError::BadMagic { magic: h.magic })
        } else if h.major != MAJOR || h.minor != MINOR {
            Err(LoadError::BadVersion { major: h.major, minor: h.minor })
        } else if h.data < HEADER_LEN || h.data > b.len() {
            Err(LoadError::Malformed)
        } else {
            match parse_code(b.subrange(HEADER_LEN as int, h.data as int)) {
                None => Err(LoadError::Malformed),
                Some(code) => Ok((h, code, b.subrange(h.data as int, b.len() as int))),
            }
        }
    }
}

/// Checks and reads an object image: the header, the code section from the
/// end of the header to the data offset, and the data section after it.
pub fn load(bytes: &[u8]) -> (r: Result<Image, LoadError>)
    ensures
        r is Ok <==> load_spec(bytes@) is Ok,
        r is Err ==> load_spec(bytes@) == Err::<(Header, Seq<InsView>, Seq<u8>), LoadError>(r->Err_0),
        r is Ok ==> ({
            let img = r->Ok_0;
            let (h, code, data) = load_spec(bytes@)->Ok_0;
            img.header == h && ins_list(img.code@) == code && img.data@ == data
        }),
{
    if bytes.len() < HEADER_LEN {
        return Err(LoadError::Truncated);
    }
    let magic = make_u32(bytes);
    if magic != MAGIC {
        return Err(LoadError::BadMagic { magic });
    }
    let major = make_u16(&bytes[4..6]);
    let minor = make_u16(&bytes[6..8]);
    if major != MAJOR || minor != MINOR {
        return Err(LoadError::BadVersion { major, minor });
    }
    let start = make_u64(&bytes[8..16]);
    let data = make_u64(&bytes[16..24]);
    let header = Header { magic, major, minor, start, data };
    assert(header == header_of(bytes@));
    if data < HEADER_LEN as u64 || data > bytes.len() as u64 {
        return Err(LoadError::Malformed);
    }
    let end = data as usize;
    let ghost section = bytes@.subrange(HEADER_LEN as int, end as int);
    let mut code: Vec<Ins> = Vec::new();
    let mut p: usize = HEADER_LEN;
    while p < end
        invariant
            HEADER_LEN <= p <= end <= bytes@.len(),
            section == bytes@.subrange(HEADER_LEN as int, end as int),
            load_spec(bytes@) == match parse_code(section) {
                None => Err(LoadError::Malformed),
                Some(c) => Ok((header, c, bytes@.subrange(end as int, bytes@.len() as int))),
            },
            parse_code(section) == match parse_code(bytes@.subrange(p as int, end as int)) {
                Some(rest) => Some(ins_list(code@) + rest),
                None => None::<Seq<InsView>>,
            },
        decreases end - p,
    {
        let ghost s = bytes@.subrange(p as int, end as int);
        if end - p < 4 {
            assert(parse_code(s) is None);
            return Err(LoadError::Malformed);
        }
        let w = make_u32(&bytes[p..end]);
        let n: usize = (if (((w >> 15u32) & 127) as u8) >= 81 && (((w >> 15u32) & 127) as u8) <= 83 { 1usize } else { 0usize })
            + (if (((w >> 8u32) & 127) as u8) >= 81 && (((w >> 8u32) & 127) as u8) <= 83 { 1usize } else { 0usize })
            + (if (((w >> 1u32) & 127) as u8) >= 81 && (((w >> 1u32) & 127) as u8) <= 83 { 1usize } else { 0usize });
        assert(n == imm_count(w));
        let size = 4 + 8 * n;
        if end - p < size {
            assert(parse_code(s) is None);
            return Err(LoadError::Malformed);
        }
        let mut args: Vec<u64> = Vec::new();
        let mut k: usize = 0;
        while k < n
            invariant
                k <= n,
                n == imm_count(w),
                size == 4 + 8 * n,
                p + size <= end <= bytes@.len(),
                s == bytes@.subrange(p as int, end as int),
                args@ =~= args_of(s.subrange(4, size as int), imm_count(w)).subrange(0, k as int),
            decreases n - k,
        {
            let a = make_u64(&bytes[p + 4 + 8 * k..p + 4 + 8 * k + 8]);
            assert(bytes@.subrange(p + 4 + 8 * k, p + 4 + 8 * k + 8) =~= s.subrange(4, size as int).subrange(8 * k, 8 * k + 8));
            args.push(a);
            k = k + 1;
        }
        assert(args@ =~= args_of(s.subrange(4, size as int), imm_count(w)));
        let ghost rest = bytes@.subrange((p + size) as int, end as int);
        assert(s.subrange(size as int, s.len() as int) =~= rest);
        let ghost before = ins_list(code@);
        let ins = Ins { opcode: w, args, size: size as u64 };
        code.push(ins);
        assert(ins_list(code@) =~= before + seq![InsView { opcode: w, args: args_of(s.subrange(4, size as int), imm_count(w)) }]);
        p = p + size;
    }
    assert(bytes@.subrange(p as int, end as int) =~= Seq::<u8>::empty());
    assert(ins_list(code@) + Seq::<InsView>::empty() =~= ins_list(code@));
    let mut rest: Vec<u8> = Vec::new();
    let mut q: usize = end;
    while q < bytes.len()
        invariant
            end <= q <= bytes@.len(),
            rest@ =~= bytes@.subrange(end as int, q as int),
        decreases bytes@.len() - q,
    {
        rest.push(bytes[q]);
        q = q + 1;
    }
    Ok(Image { header, code, data: rest })
}

/// An instruction carries one immediate for each immediate tag of its word.
pub open spec fn ins_well_formed(i: InsView) -> bool {
    i.args.len() == imm_count(i.opcode)
}

/// A unit that the loader accepts back: a current header whose data offset
/// is the end of the code, and well-formed instructions.
pub open spec fn unit_well_formed(u: SemUnit) -> bool {
    &&& u.header.magic == MAGIC
    &&& u.header.major == MAJOR
    &&& u.header.minor == MINOR
    &&& u.header.data == HEADER_LEN + code_bytes(flat_code(u.funcs@)).len()
    &&& forall|k: int|
        0 <= k < flat_code(u.funcs@).len() ==> ins_well_formed(#[trigger] flat_code(u.funcs@)[k])
}

pub proof fn lemma_args_bytes(a: Seq<u64>)
    ensures
        args_bytes(a).len() == 8 * a.len(),
        forall|k: int|
            0 <= k < a.len() ==> #[trigger] args_bytes(a).subrange(8 * k, 8 * k + 8) == u64_bytes(a[k]),
    decreases a.len(),
{
    if a.len() > 0 {
        let p = a.drop_last();
        lemma_args_bytes(p);
        assert forall|k: int| 0 <= k < a.len() implies #[trigger] args_bytes(a).subrange(
            8 * k,
            8 * k + 8,
        ) == u64_bytes(a[k]) by {
            if k < p.len() {
                assert(args_bytes(a).subrange(8 * k, 8 * k + 8) =~= args_bytes(p).subrange(8 * k, 8 * k + 8));
                assert(p[k] == a[k]);
            } else {
                assert(args_bytes(a).subrange(8 * k, 8 * k + 8) =~= u64_bytes(a.last()));
            }
        }
    }
}

proof fn lemma_args_round_trip(a: Seq<u64>)
    ensures
        args_of(args_bytes(a), a.len()) == a,
{
    lemma_args_bytes(a);
    assert forall|k: int| 0 <= k < a.len() implies args_of(args_bytes(a), a.len())[k] == a[k] by {
        assert(args_bytes(a).subrange(8 * k, 8 * k + 8) == u64_bytes(a[k]));
        lemma_u64_round_trip(a[k]);
    }
    assert(args_of(args_bytes(a), a.len()) =~= a);
}

proof fn lemma_code_bytes_front(v: Seq<InsView>)
    requires
        v.len() > 0,
    ensures
        code_bytes(v) == ins_bytes(v[0]) + code_bytes(v.drop_first()),
{
    lemma_code_bytes_concat(seq![v[0]], v.drop_first());
    assert(seq![v[0]] + v.drop_first() =~= v);
    let one = seq![v[0]];
    assert(one.drop_last() =~= Seq::<InsView>::empty());
    assert(code_bytes(one.drop_last()) =~= Seq::<u8>::empty());
    assert(one.last() == v[0]);
    assert(code_bytes(one) =~= ins_bytes(v[0]));
}

/// The loader reads back every list of well-formed instructions from its
/// bytes.
pub proof fn lemma_parse_code_bytes(v: Seq<InsView>)
    requires
        forall|k: int| 0 <= k < v.len() ==> ins_well_formed(#[trigger] v[k]),
    ensures
        parse_code(code_bytes(v)) == Some(v),
    decreases v.len(),
{
    if v.len() == 0 {
        assert(code_bytes(v) =~= Seq::<u8>::empty());
    } else {
        let i = v[0];
        let t = v.drop_first();
        assert forall|k: int| 0 <= k < t.len() implies ins_well_formed(#[trigger] t[k]) by {
            assert(t[k] == v[k + 1]);
        }
        lemma_parse_code_bytes(t);
        lemma_code_bytes_front(v);
        lemma_args_bytes(i.args);
        let s = code_bytes(v);
        assert(ins_well_formed(v[0]));
        lemma_u32_round_trip(i.opcode);
        assert(s.subrange(0, 4) =~= u32_bytes(i.opcode));
        assert(le_u32(s) == le_u32(u32_bytes(i.opcode)));
        let size = 4 + 8 * imm_count(i.opcode);
        assert(s.subrange(size as int, s.len() as int) =~= code_bytes(t));
        assert(s.subrange(4, size as int) =~= args_bytes(i.args));
        lemma_args_round_trip(i.args);
        assert(seq![i] + t =~= v);
    }
}

/// Writing a well-formed unit and loading the bytes back gives its header,
/// every instruction word with its immediates in order, and the bytes of its
/// data items.
pub proof fn lemma_object_round_trip(u: SemUnit)
    requires
        unit_well_formed(u),
    ensures
        load_spec(unit_bytes(u)) == Ok::<(Header, Seq<InsView>, Seq<u8>), LoadError>(
            (u.header, flat_code(u.funcs@), data_bytes(u.data@)),
        ),
{
    let h = u.header;
    let b = unit_bytes(u);
    let code = code_bytes(flat_code(u.funcs@));
    let hb = header_bytes(h);
    assert(hb.len() == 24);
    lemma_u32_round_trip(h.magic);
    lemma_u16_round_trip(h.major);
    lemma_u16_round_trip(h.minor);
    lemma_u64_round_trip(h.start);
    lemma_u64_round_trip(h.data);
    assert(b.subrange(0, 4) =~= u32_bytes(h.magic));
    assert(b.subrange(4, 6) =~= u16_bytes(h.major));
    assert(b.subrange(6, 8) =~= u16_bytes(h.minor));
    assert(b.subrange(8, 16) =~= u64_bytes(h.start));
    assert(b.subrange(16, 24) =~= u64_bytes(h.data));
    assert(le_u32(b) == le_u32(b.subrange(0, 4)));
    assert(header_of(b) == h);
    assert(b.subrange(24, h.data as int) =~= code);
    assert(b.subrange(h.data as int, b.len() as int) =~= data_bytes(u.data@));
    lemma_parse_code_bytes(flat_code(u.funcs@));
}

} // verus!
