//! Where the chunks of a file lie.

use crate::entry::{stripe_size_of, CachedFileChunk, Placement};
use crate::meta_model::{max_u64, stripe_needle, stripe_unit};
use vstd::prelude::*;

verus! {

/// Two chunks that hold the same data in the same place.
pub open spec fn same_place(a: CachedFileChunk, b: CachedFileChunk) -> bool {
    a.needle_id == b.needle_id && a.volume_id == b.volume_id && a.offset == b.offset && a.size
        == b.size
}

/// Two chunk lists that describe the same data.
pub open spec fn same_chunks(a: Seq<CachedFileChunk>, b: Seq<CachedFileChunk>) -> bool {
    a.len() == b.len() && forall|i: int|
        0 <= i < a.len() ==> same_place(#[trigger] a[i], b[i])
}

/// True if two chunk lists describe the same data. Checksums and modification
/// times do not count.
pub fn chunks_match(a: &Vec<CachedFileChunk>, b: &Vec<CachedFileChunk>) -> (r: bool)
    ensures
        r == same_chunks(a@, b@),
{
    if a.len() != b.len() {
        return false;
    }
    let mut i: usize = 0;
    while i < a.len()
        invariant
            i <= a.len(),
            a.len() == b.len(),
            forall|j: int| 0 <= j < i ==> same_place(#[trigger] a@[j], b@[j]),
        decreases a.len() - i,
    {
        let x: CachedFileChunk = a[i];
        let y: CachedFileChunk = b[i];
        if !(x.needle_id == y.needle_id && x.volume_id == y.volume_id && x.offset == y.offset
            && x.size == y.size) {
            assert(!same_place(a@[i as int], b@[i as int]));
            return false;
        }
        i += 1;
    }
    true
}

/// The volume and the needle of the chunk at `offset` of a striped file; none
/// where the file is not striped or the offset lies beyond the allocated
/// units.
pub open spec fn stripe_location(
    placement: Placement,
    units: Seq<CachedFileChunk>,
    offset: u64,
    chunk_size: u64,
) -> Option<(u64, u64)> {
    match stripe_size_of(placement) {
        None => None,
        Some(s) => {
            let size = max_u64(s, 1) as int;
            if stripe_unit(offset as int, size) < units.len() {
                Some(
                    (
                        units[stripe_unit(offset as int, size)].volume_id,
                        stripe_needle(units, offset as int, size, max_u64(chunk_size, 1) as int),
                    ),
                )
            } else {
                None
            }
        },
    }
}

/// The volume and the needle of the chunk at `file_offset` of a striped file.
///
/// Each stripe unit was allocated one needle on one volume; the chunks within
/// the unit use consecutive needles from there on.
pub fn resolve_stripe_chunk(
    placement: &Placement,
    chunks: &Vec<CachedFileChunk>,
    file_offset: u64,
    chunk_size: u64,
) -> (r: Option<(u64, u64)>)
    ensures
        r == stripe_location(*placement, chunks@, file_offset, chunk_size),
{
    let stripe_size: u64 = match placement.stripe_size() {
        Some(s) => if s > 1 {
            s
        } else {
            1
        },
        None => {
            return None;
        },
    };
    let unit: u64 = file_offset / stripe_size;
    if unit >= chunks.len() as u64 {
        return None;
    }
    let base: CachedFileChunk = chunks[unit as usize];
    let step: u64 = if chunk_size > 1 {
        chunk_size
    } else {
        1
    };
    let within: u64 = (file_offset % stripe_size) / step;
    Some((base.volume_id, base.needle_id.saturating_add(within)))
}

/// Within a stripe unit, neighbouring chunks lie on the same volume under
/// consecutive needles.
pub proof fn law_stripe_chunks_are_consecutive(
    placement: Placement,
    units: Seq<CachedFileChunk>,
    offset: u64,
    chunk_size: u64,
)
    requires
        stripe_size_of(placement) matches Some(s) && s > 0 && s % chunk_size == 0,
        chunk_size > 0,
        offset % chunk_size == 0,
        offset + chunk_size <= u64::MAX,
        offset as int / stripe_size_of(placement)->0 as int == (offset + chunk_size)
            / stripe_size_of(placement)->0 as int,
        stripe_location(placement, units, offset, chunk_size) matches Some(here) && here.1
            < u64::MAX,
    ensures
        ({
            let here = stripe_location(placement, units, offset, chunk_size)->0;
            stripe_location(placement, units, (offset + chunk_size) as u64, chunk_size) == Some(
                (here.0, (here.1 + 1) as u64),
            )
        }),
{
    let s = stripe_size_of(placement)->0 as int;
    let c = chunk_size as int;
    let o = offset as int;
    let q = o / s;
    assert((o + c) % s == o % s + c) by (nonlinear_arith)
        requires
            s > 0,
            o / s == (o + c) / s,
    ;
    let r = o % s;
    assert((r + c) / c == r / c + 1) by (nonlinear_arith)
        requires
            c > 0,
    ;
}

} // verus!
