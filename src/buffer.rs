//! The guest's memory buffer: a private anonymous mapping of the host.
use vstd::prelude::*;
use mmap_rs::{MmapMut, MmapOptions};

verus! {

#[verifier::external_type_specification]
#[verifier::external_body]
pub struct ExMmapMut(MmapMut);

#[verifier::external_type_specification]
#[verifier::external_body]
pub struct ExMmapError(mmap_rs::Error);

/// The bytes that a mapping holds, first to last.
pub uninterp spec fn mapped_bytes(m: MmapMut) -> Seq<u8>;

/// Relies on `MmapOptions::new` and `MmapOptions::map_mut`: on success the
/// mapping is `size` bytes long.
#[verifier::external_body]
pub(crate) fn map_buffer(size: usize) -> (r: Result<MmapMut, mmap_rs::Error>)
    ensures
        r is Ok ==> mapped_bytes(r->Ok_0).len() == size,
{
    match MmapOptions::new(size) {
        Ok(options) => options.map_mut(),
        Err(e) => Err(e),
    }
}

/// Relies on `MmapMut::size`: the length of the mapping.
#[verifier::external_body]
pub(crate) fn buffer_len(m: &MmapMut) -> (r: usize)
    ensures
        r == mapped_bytes(*m).len(),
{
    m.size()
}

/// Relies on `MmapMut::as_slice`: byte `i` of the mapping.
#[verifier::external_body]
pub(crate) fn buffer_byte(m: &MmapMut, i: usize) -> (r: u8)
    requires
        i < mapped_bytes(*m).len(),
    ensures
        r == mapped_bytes(*m)[i as int],
{
    m.as_slice()[i]
}

/// Relies on `MmapMut::as_mut_slice`: stores `v` at byte `i` and leaves the
/// other bytes alone.
#[verifier::external_body]
pub(crate) fn set_buffer_byte(m: &mut MmapMut, i: usize, v: u8)
    requires
        i < mapped_bytes(*old(m)).len(),
    ensures
        mapped_bytes(*final(m)) == mapped_bytes(*old(m)).update(i as int, v),
{
    m.as_mut_slice()[i] = v;
}

} // verus!
