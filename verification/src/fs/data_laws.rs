//! What reading, writing and flushing are for: which needle holds which bytes,
//! which bytes a read gives, and which bytes a write leaves alone.

use super::laws::{
    byte_at, chunks_fit, holds_piece, law_piece_is_written, law_read_is_bytewise, offsets_differ,
    pieces_written,
};
use super::open::{created_entry, open_refreshed_to, refetched_to};
use super::read::{
    chunk_reach, chunk_stored, copied, ec_step, flat_needle_of, flat_reread_needle, group_stored,
    hole_stored, joined, last_at, last_wanted, lease_range, listed_intact, present, read_end,
    read_missing, readable_size, replica_of, reread_needle, stripe_needle_of, wanted, MissingChunk,
    Needle, ReadStep,
};
use super::write::{
    keeps_data, kept_len, kept_needle, lemma_piece, migrated, piece_of, plan_ok, WritePlan,
};
use super::{
    crc32_of, flush_items, flush_target, min_int, FlushItemView, FsView, LEASE_STRIPE_SIZE,
};
use crate::chunk_cache::ChunksView;
use crate::chunk_laws::law_put_then_get;
use crate::entry::{stripe_size_of, CachedFileChunk, EntryView, Fid, Now, Placement};
use crate::layout::{same_chunks, same_place, stripe_location};
use crate::meta_laws::{lemma_chunk_at_bounds, lemma_grow_keeps};
use crate::meta_model::{
    chunk_at, chunks_cut, covered, flat_chunk, flat_grown, grow_chunk, stripe_chunk, stripe_grown,
    with_crc, FILE_KEY_BLOCK_SIZE,
};
use crate::records::{as_unsigned, MetadataAttr};
use vstd::arithmetic::div_mod::lemma_fundamental_div_mod;
use vstd::arithmetic::div_mod::lemma_fundamental_div_mod_converse;
use vstd::prelude::*;

verus! {

/// Chunk `j` of the list is the one that counts for its offset: no later one
/// starts there.
pub open spec fn counts(chunks: Seq<CachedFileChunk>, j: int) -> bool {
    &&& 0 <= j < chunks.len()
    &&& forall|k: int| j < k < chunks.len() ==> (#[trigger] chunks[k]).offset != chunks[j].offset
}

/// No chunk of the list starts at `offset`.
pub open spec fn unlisted(chunks: Seq<CachedFileChunk>, offset: u64) -> bool {
    forall|k: int| 0 <= k < chunks.len() ==> (#[trigger] chunks[k]).offset != offset
}

/// A search of a chunk list finds the last chunk at an offset, if there is one.
pub proof fn law_last_chunk_is_found(chunks: Seq<CachedFileChunk>, offset: u64)
    ensures
        match last_at(chunks, offset) {
            Some(c) => c.offset == offset && exists|j: int| #[trigger]
                counts(chunks, j) && chunks[j] == c,
            None => unlisted(chunks, offset),
        },
        forall|j: int| #[trigger]
            counts(chunks, j) && chunks[j].offset == offset ==> last_at(chunks, offset) == Some(
                chunks[j],
            ),
    decreases chunks.len(),
{
    if chunks.len() > 0 {
        let p = chunks.drop_last();
        let n = chunks.len() - 1;
        law_last_chunk_is_found(p, offset);
        if chunks.last().offset == offset {
            assert(counts(chunks, n) && chunks[n] == chunks.last());
        } else {
            if let Some(c) = last_at(p, offset) {
                let j = choose|j: int| #[trigger] counts(p, j) && p[j] == c;
                assert forall|k: int| j < k < chunks.len() implies (#[trigger] chunks[k]).offset
                    != chunks[j].offset by {
                    if k < n {
                        assert(p[k].offset != p[j].offset);
                    }
                }
                assert(counts(chunks, j) && chunks[j] == c);
            } else {
                assert forall|k: int| 0 <= k < chunks.len() implies (#[trigger] chunks[k]).offset
                    != offset by {
                    if k < n {
                        assert(p[k].offset != offset);
                    }
                }
            }
        }
        assert forall|j: int| #[trigger]
            counts(chunks, j) && chunks[j].offset == offset implies last_at(chunks, offset) == Some(
            chunks[j],
        ) by {
            if j < n {
                assert(chunks[n].offset != chunks[j].offset);
                assert forall|k: int| j < k < p.len() implies (#[trigger] p[k]).offset
                    != p[j].offset by {
                    assert(chunks[k].offset != chunks[j].offset);
                }
                assert(counts(p, j));
            }
        }
    }
}

/// A read of a flat file asks for the needle that the chunk list has at the
/// offset; only for a chunk that is not listed does it count on from the file id.
pub proof fn law_flat_reads_go_by_the_list(e: EntryView, idx: u64, offset: u64)
    requires
        e.fid is Some,
    ensures
        ({
            let r = flat_needle_of(e, idx, offset);
            let fid = e.fid->0;
            &&& forall|j: int| #[trigger]
                counts(e.chunks, j) && e.chunks[j].offset == offset ==> r.needle_id
                    == e.chunks[j].needle_id && r.volume_id == e.chunks[j].volume_id
            &&& unlisted(e.chunks, offset) && fid.file_key + idx <= u64::MAX ==> r.needle_id
                == fid.file_key + idx && r.volume_id == fid.volume_id.0
            &&& unlisted(e.chunks, offset) || exists|j: int| #[trigger]
                counts(e.chunks, j) && e.chunks[j].offset == offset
        }),
{
    law_last_chunk_is_found(e.chunks, offset);
    if last_at(e.chunks, offset) is Some {
        let j = choose|j: int| #[trigger]
            counts(e.chunks, j) && e.chunks[j] == last_at(e.chunks, offset)->0;
        assert(!unlisted(e.chunks, offset)) by {
            assert(e.chunks[j].offset == offset);
        }
    }
}

/// Chunks that are listed with different needles are read from different
/// needles.
pub proof fn law_listed_chunks_are_read_apart(e: EntryView, a: int, b: int, ia: u64, ib: u64)
    requires
        e.fid is Some,
        offsets_differ(e.chunks),
        0 <= a < e.chunks.len(),
        0 <= b < e.chunks.len(),
        e.chunks[a].needle_id != e.chunks[b].needle_id || e.chunks[a].volume_id
            != e.chunks[b].volume_id,
    ensures
        flat_needle_of(e, ia, e.chunks[a].offset) != flat_needle_of(e, ib, e.chunks[b].offset),
{
    law_flat_reads_go_by_the_list(e, ia, e.chunks[a].offset);
    law_flat_reads_go_by_the_list(e, ib, e.chunks[b].offset);
    assert(counts(e.chunks, a));
    assert(counts(e.chunks, b));
}

/// The list of a flat file numbers its needles through: the chunk at index `i`
/// lies on the file's volume, under the file's key plus `i`.
pub open spec fn numbered(chunks: Seq<CachedFileChunk>, fid: Fid, chunk_size: u64) -> bool {
    forall|j: int|
        0 <= j < chunks.len() ==> {
            let c = #[trigger] chunks[j];
            &&& c.volume_id == fid.volume_id.0
            &&& c.offset as int % chunk_size as int == 0
            &&& c.needle_id == fid.file_key + c.offset as int / chunk_size as int
        }
}

/// What a flush writes is what a read asks for: chunk `idx` of a flat file is read
/// from the needle to which it is flushed, first and again and before a partial
/// write, whether or not it is listed.
pub proof fn law_reads_find_what_was_flushed(e: EntryView, idx: u64, chunk_size: u64)
    requires
        e.fid is Some,
        chunk_size > 0,
        idx * chunk_size <= u64::MAX,
        e.fid->0.file_key + idx <= u64::MAX,
        numbered(e.chunks, e.fid->0, chunk_size),
    ensures
        ({
            let offset = (idx * chunk_size) as u64;
            let here = Needle {
                volume_id: e.fid->0.volume_id.0,
                needle_id: (e.fid->0.file_key + idx) as u64,
            };
            &&& flat_needle_of(e, idx, offset) == here
            &&& flat_reread_needle(e, idx, offset) == here
            &&& kept_needle(e, chunk_size, idx, offset) == Some(here)
            &&& flush_target(e, idx, chunk_size) == Some((here.volume_id, here.needle_id))
        }),
{
    let offset = (idx * chunk_size) as u64;
    law_last_chunk_is_found(e.chunks, offset);
    lemma_chunk_at_bounds(e.chunks, offset);
    assert((idx * chunk_size) as int / chunk_size as int == idx) by (nonlinear_arith)
        requires
            chunk_size > 0,
    ;
    if let Some(c) = last_at(e.chunks, offset) {
        let j = choose|j: int| #[trigger] counts(e.chunks, j) && e.chunks[j] == c;
        assert(e.chunks[j].needle_id == e.fid->0.file_key + idx);
    }
}

/// A write keeps the needles of a flat file numbered through.
pub proof fn law_lists_stay_numbered(
    chunks: Seq<CachedFileChunk>,
    fid: Fid,
    lo: int,
    hi: int,
    write_end: int,
    chunk_size: u64,
    mtime: u64,
)
    requires
        numbered(chunks, fid, chunk_size),
        chunk_size > 0,
        0 <= lo,
        hi <= FILE_KEY_BLOCK_SIZE,
        chunk_size * FILE_KEY_BLOCK_SIZE <= u64::MAX,
        fid.file_key + FILE_KEY_BLOCK_SIZE <= u64::MAX,
    ensures
        numbered(
            flat_grown(chunks, fid, lo, hi, write_end, chunk_size as int, mtime),
            fid,
            chunk_size,
        ),
    decreases hi - lo,
{
    if lo < hi {
        law_lists_stay_numbered(chunks, fid, lo, hi - 1, write_end, chunk_size, mtime);
        let before = flat_grown(chunks, fid, lo, hi - 1, write_end, chunk_size as int, mtime);
        let cs = chunk_size as int;
        let i = hi - 1;
        assert(0 <= i * cs <= cs * FILE_KEY_BLOCK_SIZE && (i * cs) / cs == i && (i * cs) % cs == 0)
            by (nonlinear_arith)
            requires
                0 <= i < FILE_KEY_BLOCK_SIZE,
                cs > 0,
        ;
        let fresh = flat_chunk(fid, i, write_end, cs, mtime);
        lemma_chunk_at_bounds(before, fresh.offset);
        let g = grow_chunk(before, fresh);
        assert forall|j: int| 0 <= j < g.len() implies {
            let c = #[trigger] g[j];
            &&& c.volume_id == fid.volume_id.0
            &&& c.offset as int % chunk_size as int == 0
            &&& c.needle_id == fid.file_key + c.offset as int / chunk_size as int
        } by {
            if j < before.len() {
                let c = before[j];
                assert(g[j].offset == c.offset && g[j].needle_id == c.needle_id && g[j].volume_id
                    == c.volume_id);
            }
        }
    }
}

/// A cut and a checksum keep the needles of a flat file numbered through.
pub proof fn law_cuts_stay_numbered(
    chunks: Seq<CachedFileChunk>,
    fid: Fid,
    chunk_size: u64,
    size: u64,
    offset: u64,
    crc: u32,
)
    requires
        numbered(chunks, fid, chunk_size),
    ensures
        numbered(chunks_cut(chunks, size), fid, chunk_size),
        numbered(with_crc(chunks, offset, crc), fid, chunk_size),
    decreases chunks.len(),
{
    lemma_chunk_at_bounds(chunks, offset);
    let w = with_crc(chunks, offset, crc);
    assert forall|j: int| 0 <= j < w.len() implies {
        let c = #[trigger] w[j];
        &&& c.volume_id == fid.volume_id.0
        &&& c.offset as int % chunk_size as int == 0
        &&& c.needle_id == fid.file_key + c.offset as int / chunk_size as int
    } by {
        let c = chunks[j];
    }
    if chunks.len() > 0 {
        let p = chunks.drop_last();
        assert forall|j: int| 0 <= j < p.len() implies {
            let c = #[trigger] p[j];
            &&& c.volume_id == fid.volume_id.0
            &&& c.offset as int % chunk_size as int == 0
            &&& c.needle_id == fid.file_key + c.offset as int / chunk_size as int
        } by {
            let c = chunks[j];
        }
        law_cuts_stay_numbered(p, fid, chunk_size, size, offset, crc);
        let last = chunks[chunks.len() - 1];
        let before = chunks_cut(p, size);
        let after = chunks_cut(chunks, size);
        assert forall|j: int| 0 <= j < after.len() implies {
            let c = #[trigger] after[j];
            &&& c.volume_id == fid.volume_id.0
            &&& c.offset as int % chunk_size as int == 0
            &&& c.needle_id == fid.file_key + c.offset as int / chunk_size as int
        } by {
            if j < before.len() {
                let c = before[j];
            }
        }
    }
}

/// A new flat file, and a file that moves onto a volume, start with a list that is
/// numbered through.
pub proof fn law_new_lists_are_numbered(
    attr: &MetadataAttr,
    parent: u64,
    name: Seq<char>,
    mode: u32,
    uid: u32,
    gid: u32,
    now: Now,
    chunk_size: u64,
    fs: FsView,
    inode: u64,
    merged: Seq<u8>,
    new_size: u64,
    volume_id: u64,
    needle_id: u64,
)
    requires
        chunk_size > 0,
        fs.meta.has(inode),
    ensures
        ({
            let e = created_entry(attr, parent, name, mode, uid, gid, now);
            e.fid is Some ==> numbered(e.chunks, e.fid->0, chunk_size) && e.chunks.len() > 0
        }),
        ({
            let m = migrated(fs, inode, merged, new_size, volume_id, needle_id, now);
            let e = m.meta.entries[inode];
            &&& e.fid matches Some(f) && f.volume_id.0 == volume_id && f.file_key == needle_id
                && numbered(e.chunks, f, chunk_size)
            &&& e.chunks.len() == 1 && e.chunks[0].size == new_size
        }),
{
    assert(0int % chunk_size as int == 0 && 0int / chunk_size as int == 0) by (nonlinear_arith)
        requires
            chunk_size > 0,
    ;
}

/// Where the chunk at `offset` of a striped file lies: in the unit that covers the
/// offset, as many needles behind the unit's own as there are chunks before it in
/// the unit.
pub open spec fn lies_in_unit(
    units: Seq<CachedFileChunk>,
    stripe_size: u64,
    chunk_size: u64,
    offset: u64,
    volume_id: u64,
    needle_id: u64,
) -> bool {
    exists|u: int|
        0 <= u < units.len() && u * stripe_size <= offset < (u + 1) * stripe_size && (
        #[trigger] units[u]).volume_id == volume_id && needle_id == units[u].needle_id + (offset - u
            * stripe_size) / chunk_size as int
}

/// The stripe units of a file leave room for their needles.
pub open spec fn units_have_room(units: Seq<CachedFileChunk>, stripe_size: u64) -> bool {
    forall|u: int| 0 <= u < units.len() ==> (#[trigger] units[u]).needle_id + stripe_size <= u64::MAX
}

/// The chunk of a striped file is found in its unit, and not at all beyond the
/// units.
pub proof fn law_stripes_lie_in_their_units(
    placement: Placement,
    units: Seq<CachedFileChunk>,
    offset: u64,
    chunk_size: u64,
)
    requires
        stripe_size_of(placement) matches Some(s) && s > 0 && units_have_room(units, s),
        chunk_size > 0,
    ensures
        ({
            let s = stripe_size_of(placement)->0;
            match stripe_location(placement, units, offset, chunk_size) {
                Some((v, n)) => lies_in_unit(units, s, chunk_size, offset, v, n),
                None => units.len() * s <= offset,
            }
        }),
{
    let s = stripe_size_of(placement)->0;
    let o = offset as int;
    let u = o / s as int;
    lemma_fundamental_div_mod(o, s as int);
    assert(s * u == u * s && (u + 1) * s == u * s + s) by (nonlinear_arith);
    let c = chunk_size as int;
    let r = o % s as int;
    assert(0 <= r / c <= r) by (nonlinear_arith)
        requires
            r >= 0,
            c > 0,
    ;
    if u < units.len() {
        assert(units[u].needle_id + s <= u64::MAX);
        assert(o - u * s == r);
    } else {
        let n = units.len() as int;
        assert(n * s <= u * s) by (nonlinear_arith)
            requires
                n <= u,
                s > 0,
        ;
    }
}

/// A chunk of a striped file is read, read again and read before a partial write
/// from the needle to which it is flushed.
pub proof fn law_stripes_are_read_where_they_were_flushed(
    e: EntryView,
    idx: u64,
    chunk_size: u64,
)
    requires
        e.fid is None,
        e.placement is Some,
        flush_target(e, idx, chunk_size) is Some,
    ensures
        ({
            let offset = (idx * chunk_size) as u64;
            let t = flush_target(e, idx, chunk_size)->0;
            let here = Needle { volume_id: t.0, needle_id: t.1 };
            &&& Some(t) == stripe_location(e.placement->0, e.chunks, offset, chunk_size)
            &&& stripe_needle_of(e, chunk_size, offset) == here
            &&& reread_needle(e, chunk_size, offset) == here
            &&& kept_needle(e, chunk_size, idx, offset) matches Some(n) ==> n == here
        }),
{
}

/// A copy of a chunk is looked for in the list of copies, at the same offset.
pub proof fn law_copies_go_by_their_list(e: EntryView, offset: u64)
    ensures
        match replica_of(e, offset) {
            Some(n) => exists|j: int| #[trigger]
                counts(e.replica_chunks, j) && e.replica_chunks[j].offset == offset
                    && e.replica_chunks[j].needle_id == n.needle_id && e.replica_chunks[j].volume_id
                    == n.volume_id,
            None => unlisted(e.replica_chunks, offset),
        },
{
    law_last_chunk_is_found(e.replica_chunks, offset);
    if let Some(c) = last_at(e.replica_chunks, offset) {
        let j = choose|j: int| #[trigger] counts(e.replica_chunks, j) && e.replica_chunks[j] == c;
        assert(counts(e.replica_chunks, j));
    }
}

/// An item of a flush carries the data of a chunk that waits, to the place of
/// that chunk: for a flat file the needle whose distance from the file's key is
/// the chunk's index, for a striped one the needle in its unit.
pub open spec fn is_sent_right(
    chunks: ChunksView,
    inode: u64,
    e: EntryView,
    dirty: Seq<u64>,
    item: FlushItemView,
) -> bool {
    &&& dirty.contains(item.idx)
    &&& item.idx < FILE_KEY_BLOCK_SIZE
    &&& item.offset == item.idx * chunks.chunk_size
    &&& chunks.chunks.contains_key((inode, item.idx))
    &&& item.data == chunks.chunks[(inode, item.idx)].data
    &&& e.fid matches Some(f) ==> item.volume_id == f.volume_id.0 && (f.file_key
        + FILE_KEY_BLOCK_SIZE <= u64::MAX ==> item.file_key - f.file_key == item.idx)
    &&& e.fid is None ==> e.placement is Some && (stripe_size_of(e.placement->0) matches Some(s)
        && (s > 0 && units_have_room(e.chunks, s) ==> lies_in_unit(
        e.chunks,
        s,
        chunks.chunk_size,
        item.offset,
        item.volume_id,
        item.file_key,
    )))
}

/// A flush sends the data of every chunk to the chunk's own needle, and no two
/// chunks of a flat file to the same one.
pub proof fn law_flush_sends_chunks_apart(
    chunks: ChunksView,
    inode: u64,
    e: EntryView,
    dirty: Seq<u64>,
)
    requires
        chunks.chunk_size > 0,
        chunks.chunk_size * FILE_KEY_BLOCK_SIZE <= u64::MAX,
        e.fid is Some || e.placement is Some,
        dirty.no_duplicates(),
    ensures
        ({
            let items = flush_items(chunks, inode, e, dirty);
            &&& forall|n: int|
                0 <= n < items.len() ==> is_sent_right(
                    chunks,
                    inode,
                    e,
                    dirty,
                    #[trigger] items[n],
                )
            &&& forall|n: int, m: int|
                0 <= n < m < items.len() ==> (#[trigger] items[n]).idx != (#[trigger] items[m]).idx
            &&& forall|n: int, m: int|
                0 <= n < m < items.len() && e.fid is Some && e.fid->0.file_key + FILE_KEY_BLOCK_SIZE
                    <= u64::MAX ==> (#[trigger] items[n]).file_key != (#[trigger] items[m]).file_key
        }),
    decreases dirty.len(),
{
    let items = flush_items(chunks, inode, e, dirty);
    if dirty.len() > 0 {
        let p = dirty.drop_last();
        let last = dirty.len() - 1;
        law_flush_sends_chunks_apart(chunks, inode, e, p);
        let before = flush_items(chunks, inode, e, p);
        let idx = dirty[last];
        let cs = chunks.chunk_size;
        assert forall|n: int| 0 <= n < before.len() implies is_sent_right(
            chunks,
            inode,
            e,
            dirty,
            #[trigger] before[n],
        ) && before[n].idx != idx by {
            assert(is_sent_right(chunks, inode, e, p, before[n]));
            let j = choose|j: int| 0 <= j < p.len() && p[j] == before[n].idx;
            assert(dirty[j] == before[n].idx);
        }
        if idx < FILE_KEY_BLOCK_SIZE {
            assert(0 <= idx * cs <= cs * FILE_KEY_BLOCK_SIZE && (idx * cs) / cs as int == idx)
                by (nonlinear_arith)
                requires
                    idx < FILE_KEY_BLOCK_SIZE,
                    cs > 0,
            ;
            let offset = (idx * cs) as u64;
            if e.fid is None {
                if let Some(s) = stripe_size_of(e.placement->0) {
                    if s > 0 && units_have_room(e.chunks, s) {
                        law_stripes_lie_in_their_units(e.placement->0, e.chunks, offset, cs);
                    }
                }
            }
            if items.len() > before.len() {
                assert(items[before.len() as int].idx == idx);
                assert(is_sent_right(chunks, inode, e, dirty, items[before.len() as int]));
            }
        }
        assert forall|n: int| 0 <= n < items.len() implies is_sent_right(
            chunks,
            inode,
            e,
            dirty,
            #[trigger] items[n],
        ) by {
            if n < before.len() {
                assert(items[n] == before[n]);
            }
        }
        assert forall|n: int, m: int| 0 <= n < m < items.len() implies (#[trigger] items[n]).idx != (
        #[trigger] items[m]).idx by {
            assert(items[n] == before[n]);
            if m < before.len() {
                assert(items[m] == before[m]);
            }
        }
    }
    assert forall|n: int, m: int| 0 <= n < m < items.len() && e.fid is Some && e.fid->0.file_key
        + FILE_KEY_BLOCK_SIZE <= u64::MAX implies (#[trigger] items[n]).file_key != (
    #[trigger] items[m]).file_key by {
        assert(is_sent_right(chunks, inode, e, dirty, items[n]));
        assert(is_sent_right(chunks, inode, e, dirty, items[m]));
    }
}

/// Byte `q` of a file lies in chunk `idx`, outside what a write puts there, and
/// the file had it before the write.
pub open spec fn is_left_alone(plan: WritePlan, chunk_size: u64, idx: u64, q: u64) -> bool {
    &&& idx * chunk_size <= q < (idx + 1) * chunk_size
    &&& q < plan.entry@.content_size
    &&& !(plan.offset <= q < plan.offset + plan.data@.len())
}

pub proof fn lemma_kept_covers(plan: WritePlan, chunk_size: u64, idx: u64)
    requires
        plan_ok(plan, chunk_size),
        plan.first_chunk <= idx <= plan.last_chunk,
    ensures
        ({
            let start = (idx * chunk_size) as u64;
            plan.entry@.content_size > start ==> forall|q: u64| #[trigger]
                is_left_alone(plan, chunk_size, idx, q) ==> q - idx * chunk_size < kept_len(
                    plan.entry@.content_size,
                    start,
                    chunk_size,
                )
        }),
{
    lemma_piece(plan.offset as int, plan.data@.len() as int, chunk_size as int, idx as int);
}

/// A write into a chunk of a flat file that is not cached reads the chunk back
/// first exactly where the file has bytes in the chunk that the write does not
/// cover. What is read back then covers all bytes that the file has in the chunk,
/// and comes from the needle of the chunk.
pub proof fn law_bytes_left_alone_are_read_first(plan: WritePlan, chunk_size: u64, idx: u64)
    requires
        plan_ok(plan, chunk_size),
        plan.first_chunk <= idx <= plan.last_chunk,
        plan.entry@.fid is Some,
    ensures
        ({
            let e = plan.entry@;
            let p = piece_of(
                plan.offset as int,
                plan.data@.len() as int,
                chunk_size as int,
                idx as int,
            );
            let asked = keeps_data(p, e.content_size, chunk_size) && kept_needle(
                e,
                chunk_size,
                idx,
                p.start,
            ) is Some;
            let len = kept_len(e.content_size, p.start, chunk_size);
            &&& forall|q: u64| #[trigger] is_left_alone(plan, chunk_size, idx, q) ==> asked
            &&& asked ==> exists|q: u64| #[trigger] is_left_alone(plan, chunk_size, idx, q)
            &&& asked ==> len <= chunk_size && forall|q: u64| #[trigger]
                is_left_alone(plan, chunk_size, idx, q) ==> q - idx * chunk_size < len
            &&& asked ==> idx * chunk_size + len <= e.content_size
            &&& kept_needle(e, chunk_size, idx, p.start) == Some(
                flat_needle_of(e, idx, (idx * chunk_size) as u64),
            )
        }),
{
    let e = plan.entry@;
    lemma_piece(plan.offset as int, plan.data@.len() as int, chunk_size as int, idx as int);
    let p = piece_of(plan.offset as int, plan.data@.len() as int, chunk_size as int, idx as int);
    let start = idx * chunk_size;
    if keeps_data(p, e.content_size, chunk_size) {
        let q = if p.within > 0 {
            p.start
        } else {
            (p.start + p.within + p.len) as u64
        };
        assert(is_left_alone(plan, chunk_size, idx, q));
    }
}

/// The byte at `q` of a file as the cached chunk there holds it; zero behind its
/// data.
pub open spec fn held(chunks: ChunksView, inode: u64, q: u64) -> u8 {
    let k = (inode, (q as int / chunks.chunk_size as int) as u64);
    let within = q as int % chunks.chunk_size as int;
    if within < chunks.chunks[k].data.len() {
        chunks.chunks[k].data[within]
    } else {
        0
    }
}

/// The parts of a write were written as they have to be: a chunk that was cached
/// when its turn came holds the file's bytes, and one that was not was read back
/// where `write_chunk` asks for it, and then gave the file's bytes.
pub open spec fn written_properly(
    fs: FsView,
    plan: WritePlan,
    bases: spec_fn(int) -> Option<Seq<u8>>,
    content: spec_fn(u64) -> u8,
    idx: int,
) -> bool {
    let v = pieces_written(fs, plan, bases, idx);
    let cs = fs.chunks.chunk_size;
    let e = plan.entry@;
    let p = piece_of(plan.offset as int, plan.data@.len() as int, cs as int, idx);
    if v.chunks.chunks.contains_key((plan.inode, idx as u64)) {
        bases(idx) is None && forall|q: u64|
            is_left_alone(plan, cs, idx as u64, q) ==> #[trigger] held(v.chunks, plan.inode, q)
                == content(q)
    } else if keeps_data(p, e.content_size, cs) && kept_needle(e, cs, idx as u64, p.start) is Some {
        bases(idx) matches Some(b) && b.len() <= cs && forall|q: u64| #[trigger]
            is_left_alone(plan, cs, idx as u64, q) ==> q - idx * cs < b.len() && b[q - idx * cs]
                == content(q)
    } else {
        bases(idx) is None
    }
}

proof fn lemma_kept_so_far(
    fs: FsView,
    plan: WritePlan,
    bases: spec_fn(int) -> Option<Seq<u8>>,
    content: spec_fn(u64) -> u8,
    n: int,
)
    requires
        fs.chunks.chunks.dom().finite(),
        plan_ok(plan, fs.chunks.chunk_size),
        plan.entry@.fid is Some,
        chunks_fit(fs.chunks, plan.inode),
        plan.first_chunk <= n <= plan.last_chunk + 1,
        forall|i: int|
            plan.first_chunk <= i <= plan.last_chunk ==> #[trigger] written_properly(
                fs,
                plan,
                bases,
                content,
                i,
            ),
    ensures
        ({
            let w = pieces_written(fs, plan, bases, n);
            &&& w.chunks.chunk_size == fs.chunks.chunk_size
            &&& w.chunks.chunks.dom().finite()
            &&& chunks_fit(w.chunks, plan.inode)
            &&& forall|i: int|
                plan.first_chunk <= i < n ==> #[trigger] holds_piece(w.chunks, plan, i)
            &&& forall|i: int, q: u64|
                plan.first_chunk <= i < n && #[trigger] is_left_alone(
                    plan,
                    fs.chunks.chunk_size,
                    i as u64,
                    q,
                ) ==> held(w.chunks, plan.inode, q) == content(q)
        }),
    decreases n - plan.first_chunk,
{
    if n > plan.first_chunk {
        let idx = n - 1;
        lemma_kept_so_far(fs, plan, bases, content, idx);
        let v = pieces_written(fs, plan, bases, idx);
        let w = pieces_written(fs, plan, bases, n);
        let cs = fs.chunks.chunk_size;
        let e = plan.entry@;
        assert(written_properly(fs, plan, bases, content, idx));
        law_piece_is_written(v, plan, idx, bases(idx));
        lemma_piece(plan.offset as int, plan.data@.len() as int, cs as int, idx);
        let p = piece_of(plan.offset as int, plan.data@.len() as int, cs as int, idx);
        let k = (plan.inode, idx as u64);
        law_bytes_left_alone_are_read_first(plan, cs, idx as u64);
        assert forall|i: int| plan.first_chunk <= i < n implies #[trigger] holds_piece(
            w.chunks,
            plan,
            i,
        ) by {
            if i < idx {
                assert(holds_piece(v.chunks, plan, i));
                assert(v.chunks.chunks.contains_key((plan.inode, i as u64)));
            }
        }
        assert forall|i: int, q: u64|
            plan.first_chunk <= i < n && #[trigger] is_left_alone(plan, cs, i as u64, q) implies held(
            w.chunks,
            plan.inode,
            q,
        ) == content(q) by {
            lemma_piece(plan.offset as int, plan.data@.len() as int, cs as int, i);
            lemma_fundamental_div_mod_converse(q as int, cs as int, i, q - i * cs);
            if i < idx {
                assert(holds_piece(v.chunks, plan, i));
                assert(v.chunks.chunks.contains_key((plan.inode, i as u64)));
                assert(held(v.chunks, plan.inode, q) == content(q));
            } else {
                let within = q - idx * cs;
                assert(!(p.within <= within < p.within + p.len));
                let d = w.chunks.chunks[k].data;
                if v.chunks.chunks.contains_key(k) {
                    assert(held(v.chunks, plan.inode, q) == content(q));
                    let b = v.chunks.chunks[k].data;
                    assert(d.len() >= b.len());
                    if within < d.len() {
                        assert(d[within] == if within < b.len() {
                            b[within]
                        } else {
                            0u8
                        });
                    }
                } else {
                    let b = bases(idx)->0;
                    assert(d.len() >= b.len());
                    assert(d[within] == b[within]);
                }
            }
        }
    }
}

/// A write to a flat file changes no byte that it does not cover: every byte that
/// the file had in the chunks of the write, outside the written range, is held
/// afterwards as it was, whether its chunk was cached or had to be read back.
pub proof fn law_write_leaves_other_bytes_alone(
    fs: FsView,
    plan: WritePlan,
    bases: spec_fn(int) -> Option<Seq<u8>>,
    content: spec_fn(u64) -> u8,
    q: u64,
)
    requires
        fs.chunks.chunks.dom().finite(),
        plan_ok(plan, fs.chunks.chunk_size),
        plan.entry@.fid is Some,
        chunks_fit(fs.chunks, plan.inode),
        forall|i: int|
            plan.first_chunk <= i <= plan.last_chunk ==> #[trigger] written_properly(
                fs,
                plan,
                bases,
                content,
                i,
            ),
        plan.first_chunk <= q as int / fs.chunks.chunk_size as int <= plan.last_chunk,
        q < plan.entry@.content_size,
        !(plan.offset <= q < plan.offset + plan.data@.len()),
    ensures
        ({
            let w = pieces_written(fs, plan, bases, plan.last_chunk + 1).chunks;
            &&& w.at(plan.inode, q) is Some
            &&& held(w, plan.inode, q) == content(q)
        }),
{
    let cs = fs.chunks.chunk_size;
    let idx = q as int / cs as int;
    lemma_kept_so_far(fs, plan, bases, content, plan.last_chunk + 1);
    let w = pieces_written(fs, plan, bases, plan.last_chunk + 1).chunks;
    lemma_fundamental_div_mod(q as int, cs as int);
    assert(cs * idx == idx * cs && (idx + 1) * cs == idx * cs + cs) by (nonlinear_arith);
    assert(is_left_alone(plan, cs, idx as u64, q));
    assert(holds_piece(w, plan, idx));
}

/// Part `k` of a group's data is cached, where it belongs in the file.
spec fn holds_part(
    chunks: ChunksView,
    inode: u64,
    start: u64,
    data: Seq<u8>,
    len: int,
    k: int,
) -> bool {
    let cs = chunks.chunk_size as int;
    let key = (inode, (start as int / cs + k) as u64);
    &&& chunks.chunks.contains_key(key)
    &&& chunks.chunks[key].dirty
    &&& chunks.chunks[key].data == data.subrange(k * cs, min_int(k * cs + cs, len))
}

proof fn lemma_group_stored(
    fs: FsView,
    inode: u64,
    start: u64,
    data: Seq<u8>,
    len: int,
    mtime: i64,
    n: int,
)
    requires
        fs.chunks.chunks.dom().finite(),
        fs.chunks.chunk_size > 0,
        chunks_fit(fs.chunks, inode),
        start as int % fs.chunks.chunk_size as int == 0,
        0 <= len <= data.len(),
        start + len <= u64::MAX,
        n > 0 ==> (n - 1) * fs.chunks.chunk_size < len,
    ensures
        ({
            let g = group_stored(fs, inode, start, data, len, mtime, n);
            let cs = fs.chunks.chunk_size as int;
            &&& g.chunks.chunk_size == cs
            &&& g.chunks.chunks.dom().finite()
            &&& chunks_fit(g.chunks, inode)
            &&& forall|k: int|
                0 <= k < n ==> #[trigger] holds_part(g.chunks, inode, start, data, len, k)
            &&& forall|o: (u64, u64)| #[trigger]
                fs.chunks.chunks.contains_key(o) && fs.chunks.chunks[o].dirty && o.0 != inode
                    ==> g.chunks.chunks.contains_key(o) && g.chunks.chunks[o] == fs.chunks.chunks[o]
        }),
    decreases n,
{
    if n > 0 {
        let cs = fs.chunks.chunk_size as int;
        let i = n - 1;
        assert(n - 1 > 0 ==> (i - 1) * cs <= i * cs && 0 <= i * cs) by (nonlinear_arith)
            requires
                cs > 0,
                i == n - 1,
        ;
        lemma_group_stored(fs, inode, start, data, len, mtime, i);
        let b = group_stored(fs, inode, start, data, len, mtime, i);
        let g = group_stored(fs, inode, start, data, len, mtime, n);
        assert(0 <= i * cs) by (nonlinear_arith)
            requires
                cs > 0,
                i >= 0,
        ;
        let off = (start + i * cs) as u64;
        let s = start as int / cs;
        lemma_fundamental_div_mod(start as int, cs);
        assert(start + i * cs == (s + i) * cs) by (nonlinear_arith)
            requires
                start == cs * s,
        ;
        lemma_fundamental_div_mod_converse(off as int, cs, s + i, 0);
        assert(off as int / cs <= off) by (nonlinear_arith)
            requires
                cs > 0,
                off >= 0,
        ;
        let piece = data.subrange(i * cs, min_int(i * cs + cs, len));
        law_put_then_get(b.chunks, inode, off, piece, as_unsigned(mtime), 0);
        let key = (inode, (s + i) as u64);
        assert(b.chunks.key(inode, off) == key);
        assert(g.chunks.key(inode, off) == key);
        assert forall|x: u64| #[trigger] g.chunks.chunks.contains_key((inode, x)) implies
            g.chunks.chunks[(inode, x)].data.len() <= cs by {
            if (inode, x) != key {
                assert(b.chunks.chunks.contains_key((inode, x)));
            }
        }
        assert forall|k: int| 0 <= k < n implies #[trigger] holds_part(
            g.chunks,
            inode,
            start,
            data,
            len,
            k,
        ) by {
            if k < i {
                assert(holds_part(b.chunks, inode, start, data, len, k));
                let o = (inode, (s + k) as u64);
                assert(b.chunks.chunks.contains_key(o));
                assert(o != key);
            }
        }
        assert forall|o: (u64, u64)| #[trigger]
            fs.chunks.chunks.contains_key(o) && fs.chunks.chunks[o].dirty && o.0
                != inode implies g.chunks.chunks.contains_key(o) && g.chunks.chunks[o]
            == fs.chunks.chunks[o] by {
            assert(b.chunks.chunks.contains_key(o) && b.chunks.chunks[o].dirty);
        }
    }
}

/// A shard group is read back as it was decoded: once the data of a group is
/// stored, a read from the start of the group gives that data, up to the end of
/// the file. Groups start at a chunk.
pub proof fn law_stored_group_reads_back(
    fs: FsView,
    inode: u64,
    start: u64,
    data: Seq<u8>,
    len: int,
    mtime: i64,
)
    requires
        fs.chunks.chunks.dom().finite(),
        fs.chunks.chunk_size > 0,
        chunks_fit(fs.chunks, inode),
        start as int % fs.chunks.chunk_size as int == 0,
        0 <= len <= data.len(),
        start + len <= u64::MAX,
    ensures
        ({
            let cs = fs.chunks.chunk_size as int;
            let g = group_stored(fs, inode, start, data, len, mtime, (len + cs - 1) / cs);
            copied(g.chunks, inode, start, (start + len) as u64, None) == Some(data.take(len))
        }),
{
    let cs = fs.chunks.chunk_size as int;
    let n = (len + cs - 1) / cs;
    let g = group_stored(fs, inode, start, data, len, mtime, n);
    assert(n > 0 ==> (n - 1) * cs < len) by (nonlinear_arith)
        requires
            n == (len + cs - 1) / cs,
            cs > 0,
            len >= 0,
    ;
    assert(n * cs >= len) by (nonlinear_arith)
        requires
            n == (len + cs - 1) / cs,
            cs > 0,
            len >= 0,
    ;
    lemma_group_stored(fs, inode, start, data, len, mtime, n);
    let end = (start + len) as u64;
    let s = start as int / cs;
    lemma_fundamental_div_mod(start as int, cs);
    law_read_is_bytewise(g.chunks, inode, start, end, None);
    assert forall|q: u64| start <= q < end implies #[trigger] g.chunks.at(inode, q) is Some
        && byte_at(g.chunks, inode, q, None) == data[q - start] by {
        let i = q - start;
        let k = i / cs;
        lemma_fundamental_div_mod(i, cs);
        assert(cs * k == k * cs && q == (s + k) * cs + i % cs) by (nonlinear_arith)
            requires
                start == cs * s,
                i == q - start,
                i == cs * k + i % cs,
        ;
        lemma_fundamental_div_mod_converse(q as int, cs, s + k, i % cs);
        assert(0 <= k < n) by (nonlinear_arith)
            requires
                0 <= i < len,
                n * cs >= len,
                k == i / cs,
                cs > 0,
        ;
        let key = (inode, (s + k) as u64);
        assert(holds_part(g.chunks, inode, start, data, len, k));
        let c = g.chunks.chunks[key];
        assert(g.chunks.key(inode, q) == key);
        assert(c.data == data.subrange(k * cs, min_int(k * cs + cs, len)));
    }
    let r = copied(g.chunks, inode, start, end, None)->0;
    assert forall|i: int| 0 <= i < r.len() implies #[trigger] r[i] == data.take(len)[i] by {
        let q = (start + i) as u64;
        assert(g.chunks.at(inode, q) is Some);
    }
    assert(r =~= data.take(len));
}

/// Two chunk lists differ in a needle, a volume, an offset or a size.
pub open spec fn lists_differ(a: Seq<CachedFileChunk>, b: Seq<CachedFileChunk>) -> bool {
    a.len() != b.len() || exists|i: int|
        0 <= i < a.len() && ((#[trigger] a[i]).needle_id != b[i].needle_id || a[i].volume_id
            != b[i].volume_id || a[i].offset != b[i].offset || a[i].size != b[i].size)
}

/// An open takes over what the server lists: where the server's entry is taken and
/// its list is not empty, or the local one is, cached data stays only if the two
/// lists agree. No other inode's data is touched.
pub proof fn law_open_drops_outdated_data(
    fs: FsView,
    inode: u64,
    e: EntryView,
    fresh: EntryView,
    now_ms: u64,
    k: (u64, u64),
)
    ensures
        ({
            let after = open_refreshed_to(fs, inode, e, fresh, now_ms);
            let ahead = e.content_size > fresh.content_size && exists|o: (u64, u64)| #[trigger]
                fs.chunks.chunks.contains_key(o) && o.0 == inode;
            let told = fresh.chunks.len() > 0 || e.chunks.len() == 0;
            &&& !ahead && told && lists_differ(e.chunks, fresh.chunks) && k.0 == inode
                ==> !after.chunks.chunks.contains_key(k)
            &&& ahead || !told || !lists_differ(e.chunks, fresh.chunks) ==> after.chunks
                == fs.chunks
            &&& ahead ==> after == fs
            &&& k.0 != inode ==> after.chunks.chunks.contains_key(k)
                == fs.chunks.chunks.contains_key(k) && (fs.chunks.chunks.contains_key(k)
                ==> after.chunks.chunks[k] == fs.chunks.chunks[k])
            &&& after.waiting == fs.waiting
            &&& after.inline == fs.inline
            &&& after.open == fs.open
        }),
{
    lemma_lists_differ(e.chunks, fresh.chunks);
}

pub proof fn lemma_lists_differ(a: Seq<CachedFileChunk>, b: Seq<CachedFileChunk>)
    ensures
        lists_differ(a, b) == !same_chunks(a, b),
{
    if lists_differ(a, b) && a.len() == b.len() {
        let i = choose|i: int|
            0 <= i < a.len() && ((#[trigger] a[i]).needle_id != b[i].needle_id || a[i].volume_id
                != b[i].volume_id || a[i].offset != b[i].offset || a[i].size != b[i].size);
        assert(!same_place(a[i], b[i]));
    }
    if !lists_differ(a, b) {
        assert forall|i: int| 0 <= i < a.len() implies same_place(#[trigger] a[i], b[i]) by {}
    }
}

/// An entry that was out of date and is fetched again takes cached data along only
/// if the server lists the same chunks, or some of the data was never flushed.
pub proof fn law_refetch_drops_outdated_data(
    fs: FsView,
    inode: u64,
    fresh: EntryView,
    now_ms: u64,
    k: (u64, u64),
)
    requires
        fs.meta.needs_refetch(inode, now_ms),
    ensures
        ({
            let after = refetched_to(fs, inode, fresh, now_ms);
            let unflushed = exists|o: (u64, u64)| #[trigger]
                fs.chunks.chunks.contains_key(o) && o.0 == inode && fs.chunks.chunks[o].dirty;
            let differ = lists_differ(fs.meta.entries[inode].chunks, fresh.chunks);
            &&& differ && !unflushed && k.0 == inode ==> !after.chunks.chunks.contains_key(k)
            &&& unflushed || !differ ==> after.chunks == fs.chunks
            &&& k.0 != inode ==> after.chunks.chunks.contains_key(k)
                == fs.chunks.chunks.contains_key(k) && (fs.chunks.chunks.contains_key(k)
                ==> after.chunks.chunks[k] == fs.chunks.chunks[k])
            &&& after.waiting == fs.waiting
        }),
{
    lemma_lists_differ(fs.meta.entries[inode].chunks, fresh.chunks);
}

/// The byte that a read of a flat file gives at `q`: the cached one, as far as the
/// chunk holds it and the chunk list vouches for it, and else zero.
pub open spec fn is_served(
    chunks: ChunksView,
    inode: u64,
    list: Seq<CachedFileChunk>,
    q: u64,
    b: u8,
) -> bool {
    let cs = chunks.chunk_size as int;
    let start = (q - q as int % cs) as u64;
    let data = chunks.chunks[(inode, (q as int / cs) as u64)].data;
    if q - start < data.len() && exists|j: int| #[trigger]
        counts(list, j) && list[j].offset == start && q - start < list[j].size {
        b == data[q - start]
    } else {
        b == 0
    }
}

/// A read of a flat file gives the cached bytes that the chunk list vouches for,
/// and zeros in between and behind; it fails exactly where a chunk of its range is
/// not cached.
pub proof fn law_flat_read_serves_listed_bytes(
    chunks: ChunksView,
    inode: u64,
    position: u64,
    end: u64,
    list: Seq<CachedFileChunk>,
)
    requires
        chunks.chunk_size > 0,
        chunks_fit(chunks, inode),
        position <= end,
    ensures
        match copied(chunks, inode, position, end, Some(list)) {
            Some(s) => s.len() == end - position && forall|i: int|
                0 <= i < s.len() ==> is_served(
                    chunks,
                    inode,
                    list,
                    (position + i) as u64,
                    #[trigger] s[i],
                ),
            None => exists|q: u64|
                position <= q < end && !#[trigger] chunks.chunks.contains_key(
                    (inode, (q as int / chunks.chunk_size as int) as u64),
                ),
        },
{
    law_read_is_bytewise(chunks, inode, position, end, Some(list));
    let cs = chunks.chunk_size as int;
    match copied(chunks, inode, position, end, Some(list)) {
        Some(s) => {
            assert forall|i: int| 0 <= i < s.len() implies is_served(
                chunks,
                inode,
                list,
                (position + i) as u64,
                #[trigger] s[i],
            ) by {
                let q = (position + i) as u64;
                assert(s[i] == byte_at(chunks, inode, q, Some(list)));
                assert(chunks.at(inode, q) is Some);
                lemma_fundamental_div_mod(q as int, cs);
                assert(cs * (q as int / cs) == (q as int / cs) * cs) by (nonlinear_arith);
                let start = (q - q as int % cs) as u64;
                assert(start == (q as int / cs) * cs);
                law_last_chunk_is_found(list, start);
                if let Some(c) = last_at(list, start) {
                    let j = choose|j: int| #[trigger] counts(list, j) && list[j] == c;
                    assert(counts(list, j));
                }
            }
        },
        None => {
            let q = choose|q: u64| position <= q < end && !(#[trigger] chunks.at(inode, q) is Some);
            assert(!chunks.chunks.contains_key((inode, (q as int / cs) as u64)));
        },
    }
}

/// A read of a striped or an erasure-coded file gives the cached bytes, and zeros
/// where a chunk is shorter than that.
pub proof fn law_read_serves_cached_bytes(
    chunks: ChunksView,
    inode: u64,
    position: u64,
    end: u64,
)
    requires
        chunks.chunk_size > 0,
        chunks_fit(chunks, inode),
        position <= end,
    ensures
        match copied(chunks, inode, position, end, None) {
            Some(s) => s.len() == end - position && forall|i: int|
                0 <= i < s.len() ==> #[trigger] s[i] == held(chunks, inode, (position + i) as u64),
            None => exists|q: u64|
                position <= q < end && !#[trigger] chunks.chunks.contains_key(
                    (inode, (q as int / chunks.chunk_size as int) as u64),
                ),
        },
{
    law_read_is_bytewise(chunks, inode, position, end, None);
    let cs = chunks.chunk_size as int;
    match copied(chunks, inode, position, end, None) {
        Some(s) => {
            assert forall|i: int| 0 <= i < s.len() implies #[trigger] s[i] == held(
                chunks,
                inode,
                (position + i) as u64,
            ) by {
                let q = (position + i) as u64;
                assert(s[i] == byte_at(chunks, inode, q, None));
                assert(chunks.at(inode, q) is Some);
            }
        },
        None => {
            let q = choose|q: u64| position <= q < end && !(#[trigger] chunks.at(inode, q) is Some);
            assert(!chunks.chunks.contains_key((inode, (q as int / cs) as u64)));
        },
    }
}

/// A read gives as many bytes as were asked for, or up to the end of the file
/// where that comes first.
pub proof fn law_read_stops_at_the_end(offset: u64, size: u32, file_size: u64)
    ensures
        offset + size <= file_size ==> read_end(offset, size, file_size) == offset + size,
        offset + size > file_size ==> read_end(offset, size, file_size) == file_size,
{
}

/// The size of a file as a read sees it is the recorded one; where none is
/// recorded, the file reaches as far as its chunks do, and no further.
pub proof fn law_unsized_files_reach_as_far_as_their_chunks(e: EntryView, chunk_size: u64)
    requires
        forall|j: int|
            0 <= j < e.chunks.len() ==> (#[trigger] e.chunks[j]).offset + e.chunks[j].size
                <= u64::MAX && e.chunks[j].offset + chunk_size <= u64::MAX,
    ensures
        ({
            let n = readable_size(e, chunk_size);
            &&& e.size > 0 ==> n == e.size
            &&& e.size == 0 ==> forall|j: int|
                0 <= j < e.chunks.len() ==> n >= (#[trigger] e.chunks[j]).offset + full_size(
                    e.chunks[j],
                    chunk_size,
                )
            &&& e.size == 0 && n > 0 ==> exists|j: int|
                0 <= j < e.chunks.len() && n == (#[trigger] e.chunks[j]).offset + full_size(
                    e.chunks[j],
                    chunk_size,
                )
        }),
{
    lemma_chunk_reach(e.chunks, chunk_size);
}

/// How many bytes a listed chunk counts for: those that it has, or a chunk where
/// that is not known.
pub open spec fn full_size(c: CachedFileChunk, chunk_size: u64) -> u64 {
    if c.size > 0 {
        c.size
    } else {
        chunk_size
    }
}

proof fn lemma_chunk_reach(l: Seq<CachedFileChunk>, chunk_size: u64)
    requires
        forall|j: int|
            0 <= j < l.len() ==> (#[trigger] l[j]).offset + l[j].size <= u64::MAX && l[j].offset
                + chunk_size <= u64::MAX,
    ensures
        ({
            let n = chunk_reach(l, chunk_size);
            &&& forall|j: int|
                0 <= j < l.len() ==> n >= (#[trigger] l[j]).offset + full_size(l[j], chunk_size)
            &&& n > 0 ==> exists|j: int|
                0 <= j < l.len() && n == (#[trigger] l[j]).offset + full_size(l[j], chunk_size)
        }),
    decreases l.len(),
{
    if l.len() > 0 {
        let p = l.drop_last();
        let last = l.len() - 1;
        assert forall|j: int| 0 <= j < p.len() implies (#[trigger] p[j]).offset + p[j].size
            <= u64::MAX && p[j].offset + chunk_size <= u64::MAX by {
            assert(p[j] == l[j]);
        }
        lemma_chunk_reach(p, chunk_size);
        let n = chunk_reach(l, chunk_size);
        assert(l[last].offset + l[last].size <= u64::MAX);
        assert forall|j: int| 0 <= j < l.len() implies n >= (#[trigger] l[j]).offset + full_size(
            l[j],
            chunk_size,
        ) by {
            if j < last {
                assert(p[j] == l[j]);
            }
        }
        if n > 0 {
            if n == chunk_reach(p, chunk_size) {
                let j = choose|j: int|
                    0 <= j < p.len() && n == (#[trigger] p[j]).offset + full_size(p[j], chunk_size);
                assert(l[j] == p[j]);
            } else {
                assert(n == l[last].offset + full_size(l[last], chunk_size));
            }
        }
    }
}

/// A read lacks nothing once its missing chunks are fetched: every byte of its
/// range lies in a cached chunk or in one that is asked for, with enough bytes of
/// it. Nothing is asked for twice, nothing that is cached, and nothing beyond the
/// end of the file.
pub proof fn law_read_plans_are_complete(
    chunks: ChunksView,
    inode: u64,
    offset: u64,
    end: u64,
    file_size: u64,
    q: u64,
)
    requires
        chunks.chunk_size > 0,
        offset <= q < end <= file_size,
    ensures
        ({
            let cs = chunks.chunk_size as int;
            let missing = read_missing(chunks, inode, offset, end, file_size);
            &&& chunks.chunks.contains_key((inode, (q as int / cs) as u64)) || exists|n: int|
                0 <= n < missing.len() && (#[trigger] missing[n]).idx == q as int / cs
                    && missing[n].offset == missing[n].idx * cs && q - missing[n].offset
                    < missing[n].size
            &&& forall|n: int|
                0 <= n < missing.len() ==> {
                    let m = #[trigger] missing[n];
                    &&& !chunks.chunks.contains_key((inode, m.idx))
                    &&& m.offset == m.idx * cs
                    &&& m.offset < file_size
                    &&& m.offset + m.size <= file_size
                    &&& 0 < m.size <= cs
                    &&& m.size == cs || m.offset + m.size == file_size
                }
            &&& forall|n: int, m: int|
                0 <= n < m < missing.len() ==> (#[trigger] missing[n]).idx < (
                #[trigger] missing[m]).idx
        }),
{
    let cs = chunks.chunk_size as int;
    let lo = offset as int / cs;
    let last = last_wanted(end, file_size, chunks.chunk_size);
    let stop = if end + 4 * cs < file_size {
        end + 4 * cs
    } else {
        file_size as int
    };
    assert(stop > 0 && last == (stop - 1) / cs);
    lemma_fundamental_div_mod(stop - 1, cs);
    assert(last * cs <= stop - 1) by (nonlinear_arith)
        requires
            stop - 1 == cs * last + (stop - 1) % cs,
            0 <= (stop - 1) % cs,
    ;
    vstd::arithmetic::div_mod::lemma_div_is_ordered(offset as int, q as int, cs);
    vstd::arithmetic::div_mod::lemma_div_is_ordered(q as int, stop - 1, cs);
    lemma_wanted(chunks, inode, lo, last + 1, file_size);
    let missing = read_missing(chunks, inode, offset, end, file_size);
    let i = q as int / cs;
    if !chunks.chunks.contains_key((inode, i as u64)) {
        lemma_fundamental_div_mod(q as int, cs);
        assert(cs * i == i * cs) by (nonlinear_arith);
        assert(i <= q) by (nonlinear_arith)
            requires
                i == q as int / cs,
                cs > 0,
        ;
        let x = i as u64;
        assert(lo <= x < last + 1 && !chunks.chunks.contains_key((inode, x)));
        let n = choose|n: int| 0 <= n < missing.len() && (#[trigger] missing[n]).idx == x;
        assert(missing[n].idx == i);
    }
}

proof fn lemma_wanted(chunks: ChunksView, inode: u64, lo: int, hi: int, file_size: u64)
    requires
        chunks.chunk_size > 0,
        0 <= lo,
        (hi - 1) * chunks.chunk_size < file_size,
    ensures
        ({
            let cs = chunks.chunk_size as int;
            let w = wanted(chunks, inode, lo, hi, file_size);
            &&& forall|n: int|
                0 <= n < w.len() ==> {
                    let m = #[trigger] w[n];
                    &&& lo <= m.idx < hi
                    &&& !chunks.chunks.contains_key((inode, m.idx))
                    &&& m.offset == m.idx * cs
                    &&& m.offset < file_size
                    &&& m.offset + m.size <= file_size
                    &&& 0 < m.size <= cs
                    &&& m.size == cs || m.offset + m.size == file_size
                }
            &&& forall|n: int, m: int|
                0 <= n < m < w.len() ==> (#[trigger] w[n]).idx < (#[trigger] w[m]).idx
            &&& forall|i: u64|
                lo <= i < hi && !#[trigger] chunks.chunks.contains_key((inode, i)) ==> exists|n: int|
                    0 <= n < w.len() && (#[trigger] w[n]).idx == i
        }),
    decreases hi - lo,
{
    if lo < hi {
        let cs = chunks.chunk_size as int;
        let last = hi - 1;
        assert(0 <= last * cs && (last - 1) * cs < last * cs && (last * cs) / cs == last && last
            <= last * cs) by (nonlinear_arith)
            requires
                0 < cs,
                0 <= last,
        ;
        lemma_wanted(chunks, inode, lo, last, file_size);
        let w = wanted(chunks, inode, lo, hi, file_size);
        let b = wanted(chunks, inode, lo, last, file_size);
        assert(chunks.key(inode, (last * cs) as u64) == (inode, last as u64));
        assert forall|i: u64|
            lo <= i < hi && !#[trigger] chunks.chunks.contains_key((inode, i)) implies exists|n: int|
            0 <= n < w.len() && (#[trigger] w[n]).idx == i by {
            if i == last {
                assert(w[b.len() as int].idx == i);
            } else {
                let n = choose|n: int| 0 <= n < b.len() && (#[trigger] b[n]).idx == i;
                assert(w[n].idx == i);
            }
        }
        assert forall|n: int, m: int| 0 <= n < m < w.len() implies (#[trigger] w[n]).idx < (
        #[trigger] w[m]).idx by {
            assert(w[n] == b[n]);
            if m < b.len() {
                assert(w[m] == b[m]);
            }
        }
    }
}

/// A chunk that was fetched is held as it came, from its first byte on, and every
/// other chunk that may not be thrown out is as it was.
pub proof fn law_fetched_chunks_are_held(
    fs: FsView,
    inode: u64,
    idx: u64,
    data: Seq<u8>,
    mtime: i64,
    q: u64,
)
    requires
        fs.chunks.chunks.dom().finite(),
        fs.chunks.chunk_size > 0,
        idx * fs.chunks.chunk_size <= q < (idx + 1) * fs.chunks.chunk_size,
    ensures
        ({
            let cs = fs.chunks.chunk_size;
            let after = chunk_stored(fs, inode, (idx * cs) as u64, data, mtime);
            &&& after.chunks.chunks.contains_key((inode, idx))
            &&& after.chunks.chunks[(inode, idx)].data == data
            &&& held(after.chunks, inode, q) == if q - idx * cs < data.len() {
                data[q - idx * cs]
            } else {
                0u8
            }
            &&& forall|o: (u64, u64)| #[trigger]
                fs.chunks.chunks.contains_key(o) && fs.chunks.chunks[o].dirty && o != (inode, idx)
                    ==> after.chunks.chunks.contains_key(o) && after.chunks.chunks[o]
                    == fs.chunks.chunks[o]
            &&& after.meta == fs.meta
            &&& after.waiting == fs.waiting
        }),
{
    let cs = fs.chunks.chunk_size;
    let c = cs as int;
    assert((idx * c) / c == idx && (idx + 1) * c == idx * c + c && 0 <= idx * c) by (nonlinear_arith)
        requires
            c > 0,
            idx >= 0,
    ;
    law_put_then_get(fs.chunks, inode, (idx * cs) as u64, data, as_unsigned(mtime), 0);
    lemma_fundamental_div_mod_converse(q as int, c, idx as int, q - idx * c);
    let after = chunk_stored(fs, inode, (idx * cs) as u64, data, mtime);
    assert(after.chunks.key(inode, (idx * cs) as u64) == (inode, idx));
}

/// A hole reads as zeros.
pub proof fn law_holes_read_as_zeros(fs: FsView, inode: u64, m: MissingChunk, mtime: i64, q: u64)
    requires
        fs.chunks.chunks.dom().finite(),
        fs.chunks.chunk_size > 0,
        m.offset == m.idx * fs.chunks.chunk_size,
        m.offset <= q < m.offset + fs.chunks.chunk_size,
    ensures
        ({
            let after = hole_stored(fs, inode, m, mtime);
            &&& after.chunks.chunks.contains_key((inode, m.idx))
            &&& held(after.chunks, inode, q) == 0
        }),
{
    let cs = fs.chunks.chunk_size as int;
    assert((m.idx + 1) * cs == m.idx * cs + cs) by (nonlinear_arith);
    law_fetched_chunks_are_held(
        fs,
        inode,
        m.idx,
        Seq::new(m.size as nat, |i: int| 0u8),
        mtime,
        q,
    );
}

/// The leases of a read cover every byte that it gives.
pub proof fn law_leases_cover_the_read(offset: u64, end: u64, q: u64)
    requires
        offset <= q < end,
    ensures
        ({
            let (first, count) = lease_range(offset, end);
            let stripe = q as int / LEASE_STRIPE_SIZE as int;
            first <= stripe && stripe < first + count
        }),
        lease_range(offset, end).0 * LEASE_STRIPE_SIZE <= offset,
        (lease_range(offset, end).0 + lease_range(offset, end).1 - 1) * LEASE_STRIPE_SIZE < end,
{
}

/// Data is refused only where the list has a checksum for it that differs.
pub proof fn law_checksums_guard_data(e: EntryView, offset: u64, data: Seq<u8>)
    ensures
        forall|j: int| #[trigger]
            counts(e.chunks, j) && e.chunks[j].offset == offset ==> (listed_intact(e, offset, data)
                <==> e.chunks[j].crc32 == 0 || e.chunks[j].crc32 == crc32_of(data)),
        unlisted(e.chunks, offset) ==> listed_intact(e, offset, data),
{
    law_last_chunk_is_found(e.chunks, offset);
    if last_at(e.chunks, offset) is Some {
        let j = choose|j: int| #[trigger]
            counts(e.chunks, j) && e.chunks[j] == last_at(e.chunks, offset)->0;
        assert(e.chunks[j].offset == offset);
    }
}

/// All of the first `n` shards are there.
pub open spec fn all_there(shards: Seq<Option<Vec<u8>>>, n: int) -> bool {
    forall|i: int| 0 <= i < n ==> #[trigger] shards[i] is Some
}

/// The shards of a group are put together in their order: with shards of equal
/// length, byte `i` of the data is byte `i` modulo that length of the shard with
/// the quotient as its number. None is missing exactly where all are counted.
pub proof fn law_shards_join_in_order(shards: Seq<Option<Vec<u8>>>, n: int, len: int)
    requires
        0 <= n <= shards.len(),
        len > 0,
    ensures
        0 <= present(shards, n) <= n,
        present(shards, n) == n <==> all_there(shards, n),
        (forall|i: int| 0 <= i < n ==> (#[trigger] shards[i]) is Some && shards[i]->0@.len() == len)
            ==> joined(shards, n).len() == n * len && forall|i: int|
            0 <= i < n * len ==> #[trigger] joined(shards, n)[i] == shards[i / len]->0@[i % len],
    decreases n,
{
    if n > 0 {
        law_shards_join_in_order(shards, n - 1, len);
        if present(shards, n) == n {
            assert forall|i: int| 0 <= i < n implies #[trigger] shards[i] is Some by {}
        }
        if all_there(shards, n) {
            assert(shards[n - 1] is Some);
            assert(all_there(shards, n - 1));
        }
        if forall|i: int|
            0 <= i < n ==> (#[trigger] shards[i]) is Some && shards[i]->0@.len() == len {
            assert(shards[n - 1] is Some);
            let b = joined(shards, n - 1);
            let j = joined(shards, n);
            assert((n - 1) * len + len == n * len) by (nonlinear_arith);
            assert forall|i: int| 0 <= i < n * len implies #[trigger] j[i] == shards[i
                / len]->0@[i % len] by {
                if i < (n - 1) * len {
                    assert(j[i] == b[i]);
                } else {
                    lemma_fundamental_div_mod_converse(i, len, n - 1, i - (n - 1) * len);
                }
            }
        }
    }
}

/// A write to a striped file keeps every chunk of the list in its place, under its
/// needle and at least as long as it was, and lists every chunk that it touches in the
/// unit where the chunk lies, with at least the bytes that it put there.
pub proof fn law_striped_writes_are_covered(
    chunks: Seq<CachedFileChunk>,
    units: Seq<CachedFileChunk>,
    stripe_size: int,
    lo: int,
    hi: int,
    write_end: int,
    chunk_size: int,
    mtime: u64,
    idx: int,
    i: int,
)
    requires
        0 <= lo,
        0 < chunk_size,
        0 < stripe_size,
        hi * chunk_size <= u64::MAX,
        lo <= idx < hi ==> 0 <= covered(idx, write_end, chunk_size) <= u64::MAX,
    ensures
        ({
            let g = stripe_grown(
                chunks,
                units,
                stripe_size,
                lo,
                hi,
                write_end,
                chunk_size,
                mtime,
            );
            &&& g.len() >= chunks.len()
            &&& 0 <= i < chunks.len() ==> g[i].offset == chunks[i].offset && g[i].size
                >= chunks[i].size && g[i].needle_id == chunks[i].needle_id && g[i].volume_id
                == chunks[i].volume_id
            &&& lo <= idx < hi && (idx * chunk_size) / stripe_size < units.len() ==> exists|j: int|
                0 <= j < g.len() && (#[trigger] g[j]).offset == idx * chunk_size && g[j].size
                    >= covered(idx, write_end, chunk_size)
        }),
    decreases hi - lo,
{
    if lo < hi {
        let last = hi - 1;
        assert(last * chunk_size <= hi * chunk_size && 0 <= last * chunk_size) by (nonlinear_arith)
            requires
                0 < chunk_size,
                0 <= last,
                last == hi - 1,
        ;
        law_striped_writes_are_covered(
            chunks,
            units,
            stripe_size,
            lo,
            last,
            write_end,
            chunk_size,
            mtime,
            idx,
            i,
        );
        let b = stripe_grown(chunks, units, stripe_size, lo, last, write_end, chunk_size, mtime);
        let g = stripe_grown(chunks, units, stripe_size, lo, hi, write_end, chunk_size, mtime);
        if (last * chunk_size) / stripe_size < units.len() {
            let fresh = stripe_chunk(units, stripe_size, last, write_end, chunk_size, mtime);
            lemma_chunk_at_bounds(b, fresh.offset);
            if 0 <= i < chunks.len() {
                lemma_grow_keeps(b, fresh, i);
            }
            if idx == last {
                let at = chunk_at(b, fresh.offset);
                assert(g[at].offset == idx * chunk_size);
            } else if lo <= idx < last && (idx * chunk_size) / stripe_size < units.len() {
                let j = choose|j: int|
                    0 <= j < b.len() && (#[trigger] b[j]).offset == idx * chunk_size && b[j].size
                        >= covered(idx, write_end, chunk_size);
                lemma_grow_keeps(b, fresh, j);
                assert(g[j].offset == idx * chunk_size);
            }
        }
    }
}

/// What a write covers of a chunk reaches to the end of the write, or of the chunk.
pub proof fn law_writes_cover_up_to_their_end(idx: int, write_end: int, chunk_size: int)
    requires
        chunk_size > 0,
    ensures
        write_end >= (idx + 1) * chunk_size ==> covered(idx, write_end, chunk_size) == chunk_size,
        write_end < (idx + 1) * chunk_size ==> idx * chunk_size + covered(
            idx,
            write_end,
            chunk_size,
        ) == write_end,
{
    assert((idx + 1) * chunk_size == idx * chunk_size + chunk_size) by (nonlinear_arith);
}

/// A read of an erasure-coded file fetches the group of every chunk that it lacks, as
/// far as the file has groups; it fails where the list is not whole groups.
pub proof fn law_erasure_reads_fetch_their_groups(
    fs: FsView,
    inode: u64,
    size: u32,
    offset: u64,
    e: EntryView,
    data: u8,
    parity: u8,
    r: ReadStep,
    n: int,
)
    requires
        ec_step(fs, inode, size, offset, e, data, parity, r),
        fs.chunks.chunk_size > 0,
        data > 0,
        offset < e.size,
        size > 0,
        e.chunks.len() > 0,
    ensures
        ({
            let shards = data + parity;
            let end = read_end(offset, size, e.size);
            let missing = read_missing(fs.chunks, inode, offset, end, e.size);
            let group = 1_048_576 * data;
            &&& e.chunks.len() % (shards as nat) != 0 <==> r is Fail
            &&& r matches ReadStep::Erasure { ec } ==> {
                &&& ec.inode == inode && ec.offset == offset && ec.end == end && ec.entry@ == e
                &&& ec.data_shards == data && ec.parity_shards == parity
                &&& ec.end_group * shards <= e.chunks.len()
                &&& 0 <= n < missing.len() ==> ec.first_group * group <= missing[n].offset && (
                missing[n].offset < ec.end_group * group || ec.end_group == e.chunks.len() as int
                    / shards)
            }
        }),
{
    let shards = (data + parity) as int;
    let end = read_end(offset, size, e.size);
    let missing = read_missing(fs.chunks, inode, offset, end, e.size);
    let group = 1_048_576 * data;
    let len = e.chunks.len() as int;
    assert((len / shards) * shards <= len) by (nonlinear_arith)
        requires
            shards > 0,
            len >= 0,
    ;
    law_read_plans_are_complete(fs.chunks, inode, offset, end, e.size, offset);
    if let ReadStep::Erasure { ec } = r {
        if missing.len() > 0 {
            let a = missing[0].offset as int;
            let z = missing.last().offset as int;
            let g = ec.end_group as int;
            assert(g * shards <= len) by (nonlinear_arith)
                requires
                    0 <= g <= len / shards,
                    (len / shards) * shards <= len,
                    shards > 0,
            ;
            assert((a / group) * group <= a) by (nonlinear_arith)
                requires
                    group > 0,
                    a >= 0,
            ;
            assert(z < (z / group + 1) * group) by (nonlinear_arith)
                requires
                    group > 0,
                    z >= 0,
            ;
            if 0 <= n < missing.len() {
                let cs = fs.chunks.chunk_size as int;
                let first = missing[0];
                let here = missing[n];
                let last = missing[missing.len() - 1];
                assert(first.idx <= here.idx <= last.idx);
                assert(first.idx * cs <= here.idx * cs <= last.idx * cs) by (nonlinear_arith)
                    requires
                        first.idx <= here.idx <= last.idx,
                        cs > 0,
                ;
            }
        } else {
            assert(0 * shards == 0) by (nonlinear_arith);
        }
    }
}

} // verus!
