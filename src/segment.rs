//! The segment table: ordered `(begin, end, permission)` entries that govern
//! access to the flat memory buffer.
use vstd::prelude::*;

verus! {

/// Permission bit: the segment may be read.
pub const READ: u8 = 1;

/// Permission bit: the segment may be written.
pub const WRITE: u8 = 2;

/// Permission bit: the segment may be executed.
pub const EXEC: u8 = 4;

/// One entry of the segment table: the inclusive byte range `[begin, end]`
/// and its permission bits.
#[derive(Clone, Copy, Debug, PartialEq, Eq, Structural)]
pub struct Area {
    pub begin: u64,
    pub end: u64,
    pub perm: u8,
}

/// Whether entry `a` holds a byte of `[b, e]`; an entry whose begin lies
/// past its end holds none.
pub open spec fn intersects(a: Area, b: int, e: int) -> bool {
    a.begin <= a.end && a.begin <= e && b <= a.end
}

/// Whether entry `a` holds byte `x`.
pub open spec fn covers(a: Area, x: int) -> bool {
    a.begin <= x <= a.end
}

/// Whether entry `a` lacks every bit of `needed`.
pub open spec fn lacks(a: Area, needed: u8) -> bool {
    a.perm & needed == 0
}

/// Walking the table in order, the permission bits of the first entry that
/// meets `[b, e]` and lacks `needed`, if there is one.
pub open spec fn first_denial(gdt: Seq<Area>, b: int, e: int, needed: u8) -> Option<u8>
    decreases gdt.len(),
{
    if gdt.len() == 0 {
        None
    } else {
        match first_denial(gdt.drop_last(), b, e, needed) {
            Some(p) => Some(p),
            None => {
                let a = gdt.last();
                if intersects(a, b, e) && lacks(a, needed) {
                    Some(a.perm)
                } else {
                    None
                }
            },
        }
    }
}

/// The index of the first entry that holds byte `x`, if there is one.
pub open spec fn first_cover(gdt: Seq<Area>, x: int) -> Option<int> {
    if exists|k: int| 0 <= k < gdt.len() && covers(gdt[k], x) {
        Some(choose|k: int| 0 <= k < gdt.len() && covers(gdt[k], x) && forall|j: int| 0 <= j < k ==> !covers(gdt[j], x))
    } else {
        None
    }
}

/// Checks every entry that meets `[beg, end]` for the bits `needed`: the
/// first that lacks them gives its own bits as the error.
pub fn check_areas(gdt: &Vec<Area>, beg: u64, end: u64, needed: u8) -> (r: Result<(), u8>)
    ensures
        r is Ok <==> first_denial(gdt@, beg as int, end as int, needed) is None,
        r is Err ==> first_denial(gdt@, beg as int, end as int, needed) == Some(r->Err_0),
{
    let mut i: usize = 0;
    while i < gdt.len()
        invariant
            i <= gdt@.len(),
            first_denial(gdt@.subrange(0, i as int), beg as int, end as int, needed) is None,
        decreases gdt@.len() - i,
    {
        let a = gdt[i];
        assert(gdt@.subrange(0, i + 1).drop_last() =~= gdt@.subrange(0, i as int));
        if a.begin <= a.end && a.begin <= end && beg <= a.end && (a.perm & needed) == 0 {
            proof {
                lemma_denial_prefix(gdt@, (i + 1) as int, beg as int, end as int, needed);
            }
            return Err(a.perm);
        }
        i = i + 1;
    }
    assert(gdt@.subrange(0, i as int) =~= gdt@);
    Ok(())
}

/// A denial found in a prefix of the table is the denial of the whole table.
proof fn lemma_denial_prefix(gdt: Seq<Area>, n: int, b: int, e: int, needed: u8)
    requires
        0 <= n <= gdt.len(),
        first_denial(gdt.subrange(0, n), b, e, needed) is Some,
    ensures
        first_denial(gdt, b, e, needed) == first_denial(gdt.subrange(0, n), b, e, needed),
    decreases gdt.len() - n,
{
    if n < gdt.len() {
        assert(gdt.subrange(0, n + 1).drop_last() =~= gdt.subrange(0, n));
        lemma_denial_prefix(gdt, n + 1, b, e, needed);
    } else {
        assert(gdt.subrange(0, n) =~= gdt);
    }
}

/// No denial exactly when every entry that meets `[b, e]` carries `needed`.
pub proof fn lemma_no_denial_iff(gdt: Seq<Area>, b: int, e: int, needed: u8)
    ensures
        first_denial(gdt, b, e, needed) is None <==> forall|k: int|
            0 <= k < gdt.len() && intersects(#[trigger] gdt[k], b, e) ==> !lacks(gdt[k], needed),
    decreases gdt.len(),
{
    if gdt.len() > 0 {
        let p = gdt.drop_last();
        lemma_no_denial_iff(p, b, e, needed);
        assert forall|k: int| 0 <= k < p.len() implies p[k] == gdt[k] by {}
        if first_denial(gdt, b, e, needed) is None {
            assert forall|k: int|
                0 <= k < gdt.len() && intersects(#[trigger] gdt[k], b, e) implies !lacks(
                gdt[k],
                needed,
            ) by {
                if k < p.len() {
                    assert(p[k] == gdt[k]);
                }
            }
        } else {
            if first_denial(p, b, e, needed) is Some {
                let k = choose|k: int|
                    0 <= k < p.len() && intersects(#[trigger] p[k], b, e) && lacks(p[k], needed);
                assert(gdt[k] == p[k]);
            } else {
                assert(intersects(gdt[gdt.len() - 1], b, e));
            }
        }
    }
}

/// The first entry that holds `x`, searched in table order.
pub fn segment_of(gdt: &Vec<Area>, x: u64) -> (r: Option<usize>)
    ensures
        r is Some <==> first_cover(gdt@, x as int) is Some,
        r is Some ==> first_cover(gdt@, x as int) == Some(r->Some_0 as int),
        r is Some ==> r->Some_0 < gdt@.len() && covers(gdt@[r->Some_0 as int], x as int)
            && forall|j: int| 0 <= j < r->Some_0 ==> !covers(#[trigger] gdt@[j], x as int),
        r is None ==> forall|j: int| 0 <= j < gdt@.len() ==> !covers(#[trigger] gdt@[j], x as int),
{
    let mut i: usize = 0;
    while i < gdt.len()
        invariant
            i <= gdt@.len(),
            forall|j: int| 0 <= j < i ==> !covers(#[trigger] gdt@[j], x as int),
        decreases gdt@.len() - i,
    {
        if gdt[i].begin <= x && x <= gdt[i].end {
            let ghost k = i as int;
            proof {
                let c = choose|c: int|
                    0 <= c < gdt@.len() && covers(gdt@[c], x as int) && forall|j: int|
                        0 <= j < c ==> !covers(gdt@[j], x as int);
                assert(c == k) by {
                    if c < k {
                        assert(!covers(gdt@[c], x as int));
                    }
                    if k < c {
                        assert(!covers(gdt@[k], x as int));
                    }
                }
            }
            return Some(i);
        }
        i = i + 1;
    }
    None
}

/// Where entries overlap, lookup gives the one inserted first: an entry `i`
/// that holds `x` is passed over only for an earlier entry that holds it too.
pub proof fn lemma_first_inserted_governs(gdt: Seq<Area>, x: int, i: int)
    requires
        0 <= i < gdt.len(),
        covers(gdt[i], x),
    ensures
        first_cover(gdt, x) is Some,
        first_cover(gdt, x)->Some_0 <= i,
        covers(gdt[first_cover(gdt, x)->Some_0], x),
        forall|j: int| 0 <= j < first_cover(gdt, x)->Some_0 ==> !covers(#[trigger] gdt[j], x),
{
    lemma_first_cover_exists(gdt, x, i);
    let c = first_cover(gdt, x)->Some_0;
    if c > i {
        assert(!covers(gdt[i], x));
    }
}

proof fn lemma_first_cover_exists(gdt: Seq<Area>, x: int, i: int)
    requires
        0 <= i < gdt.len(),
        covers(gdt[i], x),
    ensures
        exists|c: int|
            0 <= c < gdt.len() && covers(gdt[c], x) && forall|j: int|
                0 <= j < c ==> !covers(gdt[j], x),
    decreases i,
{
    if exists|j: int| 0 <= j < i && covers(gdt[j], x) {
        let j = choose|j: int| 0 <= j < i && covers(gdt[j], x);
        lemma_first_cover_exists(gdt, x, j);
    } else {
        assert(forall|j: int| 0 <= j < i ==> !covers(gdt[j], x));
    }
}

/// A denial gives the bits of an entry that holds a byte of the range and
/// lacks `needed`.
pub proof fn lemma_denial_names_covering_entry(gdt: Seq<Area>, b: int, e: int, needed: u8)
    requires
        b <= e,
        first_denial(gdt, b, e, needed) is Some,
    ensures
        exists|k: int, x: int|
            0 <= k < gdt.len() && b <= x <= e && #[trigger] covers(gdt[k], x) && lacks(gdt[k], needed)
                && gdt[k].perm == first_denial(gdt, b, e, needed)->Some_0,
    decreases gdt.len(),
{
    let p = gdt.drop_last();
    if first_denial(p, b, e, needed) is Some {
        lemma_denial_names_covering_entry(p, b, e, needed);
        let (k, x) = choose|k: int, x: int|
            0 <= k < p.len() && b <= x <= e && #[trigger] covers(p[k], x) && lacks(p[k], needed)
                && p[k].perm == first_denial(p, b, e, needed)->Some_0;
        assert(gdt[k] == p[k]);
        assert(first_denial(gdt, b, e, needed) == first_denial(p, b, e, needed));
        assert(0 <= k < gdt.len() && b <= x <= e && covers(gdt[k], x) && lacks(gdt[k], needed)
            && gdt[k].perm == first_denial(gdt, b, e, needed)->Some_0);
    } else {
        let k = gdt.len() - 1;
        let a = gdt[k];
        assert(a == gdt.last());
        assert(intersects(a, b, e) && lacks(a, needed));
        assert(first_denial(gdt, b, e, needed) == Some(a.perm));
        let x = if a.begin <= b { b } else { a.begin as int };
        assert(0 <= k < gdt.len() && b <= x <= e && covers(gdt[k], x) && lacks(gdt[k], needed)
            && gdt[k].perm == first_denial(gdt, b, e, needed)->Some_0);
    }
}

} // verus!
