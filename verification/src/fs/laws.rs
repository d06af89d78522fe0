//! What holds of reading, writing and flushing files, across several steps.

use super::read::{
    copied, copy_len, last_at, read_end, readable_size, served_len, wanted,
};
use super::write::{
    chunk_patched, chunk_put, lemma_piece, migrated, piece_bytes, piece_of, plan_ok,
    write_finished, write_offset, WritePlan,
};
use super::invalidate::is_protected;
use super::names::{
    epoch_checked, of_shard, row_listed, shards_of, unlink_applied, UNLINK_BATCH,
};
use super::open::{
    can_open, chunks_closed, inline_closed, is_last, opened, refetched_entry, refetched_to,
};
use super::{
    flush_items, flush_progress, is_stuck, stuck_chunks, was_taken, FlushItemView, FsView,
};
use crate::chunk_cache::ChunksView;
use crate::chunk_laws::law_put_then_get;
use crate::dirty::{all_marked, marked, waiting_for, Waiting};
use crate::entry::{CachedFileChunk, EntryState, EntryView, Fid, Now, ROOT_INODE};
use crate::inline::{slice_of, spliced, InlineView};
use crate::meta_laws::{
    before_filing, law_cleared_names_are_gone, law_climb_keeps_entries, law_fetch_keeps_entries,
    law_inserted_entry_is_found, law_writes_are_covered, lemma_alter_wf, lemma_chunk_at_bounds,
    lemma_removed_wf,
};
use crate::meta_model::{
    chunk_at, flat_chunk, flat_grown, grow_chunk, MetaView, FILE_KEY_BLOCK_SIZE,
};
use crate::records::{entry_of_row, MetadataDirEntry};
use vstd::arithmetic::div_mod::lemma_fundamental_div_mod;
use vstd::arithmetic::div_mod::lemma_fundamental_div_mod_converse;
use vstd::prelude::*;

verus! {

/// No cached chunk of the inode is longer than a chunk.
pub open spec fn chunks_fit(chunks: ChunksView, inode: u64) -> bool {
    forall|i: u64| #[trigger]
        chunks.chunks.contains_key((inode, i)) ==> chunks.chunks[(inode, i)].data.len()
            <= chunks.chunk_size
}

/// The byte at `position` of a file, out of the cached chunks: what the chunk
/// there holds, or zero behind its data.
pub open spec fn byte_at(
    chunks: ChunksView,
    inode: u64,
    position: u64,
    listed: Option<Seq<CachedFileChunk>>,
) -> u8 {
    let c = chunks.at(inode, position)->0;
    let within = position as int % chunks.chunk_size as int;
    if within < served_len(c, position, chunks.chunk_size, listed) {
        c.data[within]
    } else {
        0
    }
}

proof fn lemma_same_chunk(position: int, i: int, cs: int)
    requires
        0 <= position,
        0 <= i,
        0 < cs,
        position % cs + i < cs,
    ensures
        (position + i) / cs == position / cs,
        (position + i) % cs == position % cs + i,
{
    lemma_fundamental_div_mod(position, cs);
    let q = position / cs;
    let r = position % cs;
    assert(cs * q == q * cs) by (nonlinear_arith);
    assert(position + i == q * cs + (r + i));
    assert(0 <= r + i < cs);
    lemma_fundamental_div_mod_converse(position + i, cs, q, r + i);
}

/// A read succeeds exactly where every chunk of its range is cached, and gives
/// the bytes of the range.
pub proof fn law_read_is_bytewise(
    chunks: ChunksView,
    inode: u64,
    position: u64,
    end: u64,
    listed: Option<Seq<CachedFileChunk>>,
)
    requires
        chunks.chunk_size > 0,
        chunks_fit(chunks, inode),
        position <= end,
    ensures
        copied(chunks, inode, position, end, listed) is Some <==> forall|p: u64|
            position <= p < end ==> #[trigger] chunks.at(inode, p) is Some,
        copied(chunks, inode, position, end, listed) matches Some(s) ==> s.len() == end - position
            && forall|i: int|
            0 <= i < s.len() ==> #[trigger] s[i] == byte_at(
                chunks,
                inode,
                (position + i) as u64,
                listed,
            ),
    decreases end - position,
{
    if position < end {
        match chunks.at(inode, position) {
            None => {},
            Some(c) => {
                let cs = chunks.chunk_size as int;
                let within = position as int % cs;
                let served = served_len(c, position, chunks.chunk_size, listed);
                let left = served - within;
                let n = copy_len(left, end - position, cs - within);
                assert(chunks.chunks.contains_key((inode, chunks.key(inode, position).1)));
                assert(0 <= within < cs);
                assert(served <= c.data.len() <= cs);
                assert(0 < n <= cs - within);
                let next = (position + n) as u64;
                law_read_is_bytewise(chunks, inode, next, end, listed);
                assert forall|i: int| 0 <= i < n implies chunks.at(inode, (position + i) as u64)
                    == Some(c) && #[trigger] byte_at(chunks, inode, (position + i) as u64, listed)
                    == (if left > 0 {
                    c.data[within + i]
                } else {
                    0u8
                }) by {
                    lemma_same_chunk(position as int, i, cs);
                }
                if forall|p: u64| next <= p < end ==> #[trigger] chunks.at(inode, p) is Some {
                    assert forall|p: u64| position <= p < end implies #[trigger] chunks.at(
                        inode,
                        p,
                    ) is Some by {
                        if p < next {
                            let i = p - position;
                            let b = byte_at(chunks, inode, (position + i) as u64, listed);
                            assert((position + i) as u64 == p);
                        }
                    }
                }
                match copied(chunks, inode, next, end, listed) {
                    None => {},
                    Some(rest) => {
                        let s = copied(chunks, inode, position, end, listed)->0;
                        assert forall|i: int| 0 <= i < s.len() implies #[trigger] s[i] == byte_at(
                            chunks,
                            inode,
                            (position + i) as u64,
                            listed,
                        ) by {
                            if i >= n {
                                assert(s[i] == rest[i - n]);
                                assert((next + (i - n)) as u64 == (position + i) as u64);
                            }
                        }
                    },
                }
            },
        }
    }
}

/// The state after the part of a write that falls into chunk `idx` was written:
/// over the data that was read back first, where there is a `base`, or else
/// over what is cached.
pub open spec fn piece_written(
    fs: FsView,
    plan: WritePlan,
    idx: int,
    base: Option<Seq<u8>>,
) -> FsView {
    let p = piece_of(
        plan.offset as int,
        plan.data@.len() as int,
        fs.chunks.chunk_size as int,
        idx,
    );
    let bytes = piece_bytes(plan.data@, p);
    let mtime = plan.entry@.mtime;
    match base {
        Some(b) => chunk_put(fs, plan.inode, idx as u64, p, b, bytes, mtime),
        None => if fs.chunks.at(plan.inode, p.start) is Some {
            chunk_patched(fs, plan.inode, idx as u64, p, bytes, mtime)
        } else {
            chunk_put(fs, plan.inode, idx as u64, p, Seq::empty(), bytes, mtime)
        },
    }
}

/// The state after the parts of a write that fall into the chunks before `n`
/// were written.
pub open spec fn pieces_written(
    fs: FsView,
    plan: WritePlan,
    bases: spec_fn(int) -> Option<Seq<u8>>,
    n: int,
) -> FsView
    decreases n - plan.first_chunk,
{
    if n <= plan.first_chunk {
        fs
    } else {
        piece_written(pieces_written(fs, plan, bases, n - 1), plan, n - 1, bases(n - 1))
    }
}

/// Chunk `idx` is cached with the written bytes in it, and is dirty.
pub open spec fn holds_piece(chunks: ChunksView, plan: WritePlan, idx: int) -> bool {
    let p = piece_of(
        plan.offset as int,
        plan.data@.len() as int,
        chunks.chunk_size as int,
        idx,
    );
    let k = (plan.inode, idx as u64);
    &&& chunks.chunks.contains_key(k)
    &&& chunks.chunks[k].dirty
    &&& p.within + p.len <= chunks.chunks[k].data.len()
    &&& chunks.chunks[k].data.subrange(p.within as int, p.within + p.len) == piece_bytes(
        plan.data@,
        p,
    )
}

proof fn lemma_piece_bounds(plan: WritePlan, cs: u64, idx: int)
    requires
        plan_ok(plan, cs),
        plan.first_chunk <= idx <= plan.last_chunk,
    ensures
        ({
            let p = piece_of(plan.offset as int, plan.data@.len() as int, cs as int, idx);
            let end = plan.offset + plan.data@.len();
            &&& p.start == idx * cs
            &&& p.start as int / cs as int == idx
            &&& 0 <= idx <= u64::MAX
            &&& p.len > 0
            &&& p.within + p.len <= cs
            &&& p.from + p.len <= plan.data@.len()
            &&& p.start + p.within == plan.offset + p.from
            &&& p.start + p.within + p.len <= end
            &&& p.within + p.len == (if end - p.start < cs {
                end - p.start
            } else {
                cs as int
            })
        }),
{
    lemma_piece(plan.offset as int, plan.data@.len() as int, cs as int, idx);
}

/// Writing one part of a write caches it, keeps every other dirty chunk, and
/// keeps the chunks from growing beyond a chunk. The bytes of the chunk that
/// the write does not cover are those that the chunk had.
pub proof fn law_piece_is_written(fs: FsView, plan: WritePlan, idx: int, base: Option<Seq<u8>>)
    requires
        fs.chunks.chunks.dom().finite(),
        plan_ok(plan, fs.chunks.chunk_size),
        plan.first_chunk <= idx <= plan.last_chunk,
        chunks_fit(fs.chunks, plan.inode),
        base matches Some(b) ==> b.len() <= fs.chunks.chunk_size,
    ensures
        ({
            let after = piece_written(fs, plan, idx, base);
            let cs = fs.chunks.chunk_size;
            let p = piece_of(plan.offset as int, plan.data@.len() as int, cs as int, idx);
            let k = (plan.inode, idx as u64);
            let before = match base {
                Some(b) => b,
                None => if fs.chunks.chunks.contains_key(k) {
                    fs.chunks.chunks[k].data
                } else {
                    Seq::empty()
                },
            };
            &&& after.meta == fs.meta
            &&& after.chunks.chunk_size == cs
            &&& after.chunks.chunks.dom().finite()
            &&& chunks_fit(after.chunks, plan.inode)
            &&& holds_piece(after.chunks, plan, idx)
            &&& after.waiting == fs.marked_dirty(plan.inode, idx as u64).waiting
            &&& forall|o: (u64, u64)| #[trigger]
                fs.chunks.chunks.contains_key(o) && fs.chunks.chunks[o].dirty && o != k
                    ==> after.chunks.chunks.contains_key(o) && after.chunks.chunks[o]
                    == fs.chunks.chunks[o]
            &&& after.chunks.chunks[k].data.len() == if before.len() > p.within + p.len {
                before.len() as int
            } else {
                p.within + p.len
            }
            &&& forall|i: int|
                0 <= i < after.chunks.chunks[k].data.len() && !(p.within <= i < p.within + p.len)
                    ==> #[trigger] after.chunks.chunks[k].data[i] == if i < before.len() {
                    before[i]
                } else {
                    0u8
                }
        }),
{
    let cs = fs.chunks.chunk_size;
    lemma_piece_bounds(plan, cs, idx);
    let p = piece_of(plan.offset as int, plan.data@.len() as int, cs as int, idx);
    let bytes = piece_bytes(plan.data@, p);
    let k = (plan.inode, idx as u64);
    assert(fs.chunks.key(plan.inode, p.start) == k);
    let b = match base {
        Some(b) => b,
        None => if fs.chunks.chunks.contains_key(k) {
            fs.chunks.chunks[k].data
        } else {
            Seq::empty()
        },
    };
    let data = spliced(b, p.within as int, bytes);
    assert(data.len() <= cs);
    assert(data.subrange(p.within as int, p.within + p.len) =~= bytes);
    let after = piece_written(fs, plan, idx, base);
    if base is None && fs.chunks.chunks.contains_key(k) {
        assert(after.chunks.chunks.dom() =~= fs.chunks.chunks.dom().insert(k));
        assert forall|i: u64| #[trigger]
            after.chunks.chunks.contains_key((plan.inode, i)) implies after.chunks.chunks[(
            plan.inode,
            i,
        )].data.len() <= cs by {
            assert(fs.chunks.chunks.contains_key((plan.inode, i)));
        }
    } else {
        law_put_then_get(
            fs.chunks,
            plan.inode,
            p.start,
            data,
            crate::records::as_unsigned(plan.entry@.mtime),
            0,
        );
        assert(after.chunks.key(plan.inode, p.start) == k);
        assert forall|i: u64| #[trigger]
            after.chunks.chunks.contains_key((plan.inode, i)) implies after.chunks.chunks[(
            plan.inode,
            i,
        )].data.len() <= cs by {
            if i != idx {
                assert(fs.chunks.chunks.contains_key((plan.inode, i)));
            }
        }
    }
}

proof fn lemma_pieces_written(
    fs: FsView,
    plan: WritePlan,
    bases: spec_fn(int) -> Option<Seq<u8>>,
    n: int,
)
    requires
        fs.chunks.chunks.dom().finite(),
        plan_ok(plan, fs.chunks.chunk_size),
        plan.first_chunk <= n <= plan.last_chunk + 1,
        chunks_fit(fs.chunks, plan.inode),
        forall|i: int| (#[trigger] bases(i) matches Some(b) ==> b.len() <= fs.chunks.chunk_size),
    ensures
        ({
            let w = pieces_written(fs, plan, bases, n);
            &&& w.meta == fs.meta
            &&& w.chunks.chunk_size == fs.chunks.chunk_size
            &&& w.chunks.chunks.dom().finite()
            &&& chunks_fit(w.chunks, plan.inode)
            &&& forall|i: int| plan.first_chunk <= i < n ==> #[trigger] holds_piece(w.chunks, plan, i)
        }),
    decreases n - plan.first_chunk,
{
    if n > plan.first_chunk {
        lemma_pieces_written(fs, plan, bases, n - 1);
        let before = pieces_written(fs, plan, bases, n - 1);
        let w = pieces_written(fs, plan, bases, n);
        assert(bases(n - 1) matches Some(b) ==> b.len() <= fs.chunks.chunk_size);
        law_piece_is_written(before, plan, n - 1, bases(n - 1));
        assert forall|i: int| plan.first_chunk <= i < n implies #[trigger] holds_piece(
            w.chunks,
            plan,
            i,
        ) by {
            lemma_piece_bounds(plan, fs.chunks.chunk_size, i);
            lemma_piece_bounds(plan, fs.chunks.chunk_size, n - 1);
            if i < n - 1 {
                assert(holds_piece(before.chunks, plan, i));
                assert(before.chunks.chunks.contains_key((plan.inode, i as u64)));
            }
        }
    }
}

/// Every chunk that a write touches is listed with at least the bytes that the
/// write put there.
pub open spec fn pieces_listed(listed: Seq<CachedFileChunk>, plan: WritePlan, cs: u64) -> bool {
    forall|idx: int| #![trigger piece_of(plan.offset as int, plan.data@.len() as int, cs as int, idx)]
        plan.first_chunk <= idx <= plan.last_chunk ==> {
            let p = piece_of(plan.offset as int, plan.data@.len() as int, cs as int, idx);
            last_at(listed, p.start) matches Some(c) && c.size >= p.within + p.len
        }
}

/// What was written is what is read: once all parts of a write are written, a
/// read of the same range gives the written data, whatever was cached or read
/// back before, and whatever had to leave the cache. Where a read goes by a
/// chunk list, the list has to vouch for the bytes.
pub proof fn law_read_after_write(
    fs: FsView,
    plan: WritePlan,
    bases: spec_fn(int) -> Option<Seq<u8>>,
    listed: Option<Seq<CachedFileChunk>>,
)
    requires
        fs.chunks.chunks.dom().finite(),
        plan_ok(plan, fs.chunks.chunk_size),
        chunks_fit(fs.chunks, plan.inode),
        forall|i: int| (#[trigger] bases(i) matches Some(b) ==> b.len() <= fs.chunks.chunk_size),
        listed matches Some(l) ==> pieces_listed(l, plan, fs.chunks.chunk_size),
    ensures
        copied(
            pieces_written(fs, plan, bases, plan.last_chunk + 1).chunks,
            plan.inode,
            plan.offset,
            (plan.offset + plan.data@.len()) as u64,
            listed,
        ) == Some(plan.data@),
{
    let w = pieces_written(fs, plan, bases, plan.last_chunk + 1).chunks;
    let cs = fs.chunks.chunk_size;
    let end = (plan.offset + plan.data@.len()) as u64;
    assert(plan.first_chunk <= plan.last_chunk) by (nonlinear_arith)
        requires
            plan.first_chunk == plan.offset as int / cs as int,
            plan.last_chunk == (plan.offset + plan.data@.len() - 1) / cs as int,
            plan.data@.len() > 0,
            cs > 0,
    ;
    lemma_pieces_written(fs, plan, bases, plan.last_chunk + 1);
    law_read_is_bytewise(w, plan.inode, plan.offset, end, listed);
    assert forall|q: u64| plan.offset <= q < end implies #[trigger] w.at(plan.inode, q) is Some
        && byte_at(w, plan.inode, q, listed) == plan.data@[q - plan.offset] by {
        let idx = q as int / cs as int;
        lemma_index_in_plan(plan, cs, q);
        lemma_piece_bounds(plan, cs, idx);
        lemma_fundamental_div_mod(q as int, cs as int);
        assert(holds_piece(w, plan, idx));
        let p = piece_of(plan.offset as int, plan.data@.len() as int, cs as int, idx);
        let within = q as int % cs as int;
        assert(idx * cs == cs * idx) by (nonlinear_arith);
        assert(q == p.start + within);
        assert(p.within <= within < p.within + p.len);
        let c = w.chunks[(plan.inode, idx as u64)];
        assert(c.data.subrange(p.within as int, p.within + p.len)[within - p.within]
            == piece_bytes(plan.data@, p)[within - p.within]);
    }
    let s = copied(w, plan.inode, plan.offset, end, listed)->0;
    assert forall|i: int| 0 <= i < s.len() implies #[trigger] s[i] == plan.data@[i] by {
        let q = (plan.offset + i) as u64;
        assert(w.at(plan.inode, q) is Some);
    }
    assert(s =~= plan.data@);
}

proof fn lemma_index_in_plan(plan: WritePlan, cs: u64, q: u64)
    requires
        plan_ok(plan, cs),
        plan.offset <= q < plan.offset + plan.data@.len(),
    ensures
        plan.first_chunk <= q as int / cs as int <= plan.last_chunk,
{
    vstd::arithmetic::div_mod::lemma_div_is_ordered(plan.offset as int, q as int, cs as int);
    vstd::arithmetic::div_mod::lemma_div_is_ordered(
        q as int,
        plan.offset + plan.data@.len() - 1,
        cs as int,
    );
}

/// No two chunks of a list start at the same offset.
pub open spec fn offsets_differ(l: Seq<CachedFileChunk>) -> bool {
    forall|i: int, j: int| 0 <= i < j < l.len() ==> (#[trigger] l[i]).offset != (#[trigger] l[j]).offset
}

proof fn lemma_last_is_first(l: Seq<CachedFileChunk>, offset: u64)
    requires
        offsets_differ(l),
    ensures
        last_at(l, offset) == if chunk_at(l, offset) < l.len() {
            Some(l[chunk_at(l, offset)])
        } else {
            None
        },
    decreases l.len(),
{
    if l.len() > 0 {
        let p = l.drop_last();
        assert forall|i: int, j: int| 0 <= i < j < p.len() implies (#[trigger] p[i]).offset != (
        #[trigger] p[j]).offset by {
            assert(l[i].offset != l[j].offset);
        }
        lemma_last_is_first(p, offset);
        lemma_chunk_at_bounds(p, offset);
        let i = chunk_at(p, offset);
        if i < p.len() {
            assert(l[i].offset != l[l.len() - 1].offset);
        }
    }
}

/// A write lists no offset twice.
pub proof fn law_listed_offsets_differ(
    chunks: Seq<CachedFileChunk>,
    fid: Fid,
    lo: int,
    hi: int,
    write_end: int,
    chunk_size: int,
    mtime: u64,
)
    requires
        offsets_differ(chunks),
    ensures
        offsets_differ(flat_grown(chunks, fid, lo, hi, write_end, chunk_size, mtime)),
    decreases hi - lo,
{
    if lo < hi {
        law_listed_offsets_differ(chunks, fid, lo, hi - 1, write_end, chunk_size, mtime);
        let before = flat_grown(chunks, fid, lo, hi - 1, write_end, chunk_size, mtime);
        let fresh = flat_chunk(fid, hi - 1, write_end, chunk_size, mtime);
        lemma_chunk_at_bounds(before, fresh.offset);
        let g = grow_chunk(before, fresh);
        assert forall|i: int, j: int| 0 <= i < j < g.len() implies (#[trigger] g[i]).offset != (
        #[trigger] g[j]).offset by {
            assert(i < before.len() ==> g[i].offset == before[i].offset);
            if j < before.len() {
                assert(before[i].offset != before[j].offset);
                assert(g[j].offset == before[j].offset);
            }
        }
    }
}

/// A write to a flat file is read back: after its last step the chunk list of
/// the file vouches for the written bytes, and a read that goes by the list
/// gives them. Chunks beyond the largest file are not listed.
pub proof fn law_flat_file_reads_back(
    fs: FsView,
    plan: WritePlan,
    bases: spec_fn(int) -> Option<Seq<u8>>,
    now: Now,
)
    requires
        fs.chunks.chunks.dom().finite(),
        plan_ok(plan, fs.chunks.chunk_size),
        plan.entry@.fid is Some,
        plan.last_chunk < FILE_KEY_BLOCK_SIZE,
        fs.chunks.chunk_size * FILE_KEY_BLOCK_SIZE <= u64::MAX,
        chunks_fit(fs.chunks, plan.inode),
        forall|i: int| (#[trigger] bases(i) matches Some(b) ==> b.len() <= fs.chunks.chunk_size),
        fs.meta.has(plan.inode),
        offsets_differ(fs.meta.entries[plan.inode].chunks),
    ensures
        ({
            let w = write_finished(
                pieces_written(fs, plan, bases, plan.last_chunk + 1),
                plan,
                now,
            );
            let end = plan.offset + plan.data@.len();
            &&& w.meta.has(plan.inode)
            &&& w.meta.entries[plan.inode].size >= end
            &&& plan.data@.len() <= u32::MAX ==> read_end(
                plan.offset,
                plan.data@.len() as u32,
                readable_size(w.meta.entries[plan.inode], fs.chunks.chunk_size),
            ) == end
            &&& copied(
                w.chunks,
                plan.inode,
                plan.offset,
                end as u64,
                Some(w.meta.entries[plan.inode].chunks),
            ) == Some(plan.data@)
        }),
{
    let before = pieces_written(fs, plan, bases, plan.last_chunk + 1);
    let w = write_finished(before, plan, now);
    let cs = fs.chunks.chunk_size;
    let end = plan.offset + plan.data@.len();
    let fid = plan.entry@.fid->0;
    vstd::arithmetic::div_mod::lemma_div_is_ordered(plan.offset as int, end - 1, cs as int);
    lemma_pieces_written(fs, plan, bases, plan.last_chunk + 1);
    let e = fs.meta.entries[plan.inode];
    let grown = if end > e.size {
        fs.meta.resized(plan.inode, end as u64, now)
    } else {
        fs.meta
    };
    let mtime = crate::meta_model::unsigned_time(grown.entries[plan.inode].mtime);
    let listed = w.meta.entries[plan.inode].chunks;
    assert(grown.entries[plan.inode].chunks == e.chunks);
    assert(listed == flat_grown(
        e.chunks,
        fid,
        plan.first_chunk as int,
        plan.last_chunk + 1,
        end,
        cs as int,
        mtime,
    ));
    law_listed_offsets_differ(
        e.chunks,
        fid,
        plan.first_chunk as int,
        plan.last_chunk + 1,
        end,
        cs as int,
        mtime,
    );
    assert((plan.last_chunk + 1) * cs <= u64::MAX) by (nonlinear_arith)
        requires
            plan.last_chunk < FILE_KEY_BLOCK_SIZE,
            cs * FILE_KEY_BLOCK_SIZE <= u64::MAX,
    ;
    assert forall|idx: int|
        #![trigger piece_of(plan.offset as int, plan.data@.len() as int, cs as int, idx)]
        plan.first_chunk <= idx <= plan.last_chunk implies {
        let p = piece_of(plan.offset as int, plan.data@.len() as int, cs as int, idx);
        last_at(listed, p.start) matches Some(c) && c.size >= p.within + p.len
    } by {
        lemma_piece_bounds(plan, cs, idx);
        law_writes_are_covered(
            e.chunks,
            fid,
            plan.first_chunk as int,
            plan.last_chunk + 1,
            end,
            cs as int,
            mtime,
            idx,
        );
        lemma_last_is_first(listed, (idx * cs) as u64);
    }
    law_read_after_write(fs, plan, bases, Some(listed));
}

/// A write to a striped file is read back: after its last step the file is long
/// enough, and a read of the written range gives the written data.
pub proof fn law_striped_file_reads_back(
    fs: FsView,
    plan: WritePlan,
    bases: spec_fn(int) -> Option<Seq<u8>>,
    now: Now,
)
    requires
        fs.chunks.chunks.dom().finite(),
        plan_ok(plan, fs.chunks.chunk_size),
        plan.entry@.fid is None,
        chunks_fit(fs.chunks, plan.inode),
        forall|i: int| (#[trigger] bases(i) matches Some(b) ==> b.len() <= fs.chunks.chunk_size),
        fs.meta.has(plan.inode),
    ensures
        ({
            let w = write_finished(
                pieces_written(fs, plan, bases, plan.last_chunk + 1),
                plan,
                now,
            );
            let end = plan.offset + plan.data@.len();
            &&& w.meta.has(plan.inode)
            &&& w.meta.entries[plan.inode].size >= end
            &&& plan.data@.len() <= u32::MAX ==> read_end(
                plan.offset,
                plan.data@.len() as u32,
                readable_size(w.meta.entries[plan.inode], fs.chunks.chunk_size),
            ) == end
            &&& copied(w.chunks, plan.inode, plan.offset, end as u64, None) == Some(plan.data@)
        }),
{
    vstd::arithmetic::div_mod::lemma_div_is_ordered(
        plan.offset as int,
        plan.offset + plan.data@.len() - 1,
        fs.chunks.chunk_size as int,
    );
    lemma_pieces_written(fs, plan, bases, plan.last_chunk + 1);
    law_read_after_write(fs, plan, bases, None);
}

/// A file that moves out of its metadata record onto a volume keeps its data: a
/// read gives what was handed over, up to the end of the write that made the
/// file move.
pub proof fn law_migrated_file_reads_back(
    fs: FsView,
    inode: u64,
    merged: Seq<u8>,
    new_size: u64,
    volume_id: u64,
    needle_id: u64,
    now: Now,
)
    requires
        fs.chunks.chunks.dom().finite(),
        fs.chunks.chunk_size > 0,
        new_size <= merged.len(),
        fs.meta.has(inode),
    ensures
        ({
            let m = migrated(fs, inode, merged, new_size, volume_id, needle_id, now);
            &&& !m.inline.contains_key(inode)
            &&& m.meta.has(inode)
            &&& m.meta.entries[inode].size == new_size
            &&& copied(m.chunks, inode, 0, new_size, Some(m.meta.entries[inode].chunks)) == Some(
                merged.take(new_size as int),
            )
        }),
{
    let mtime = crate::records::as_unsigned(now.unix_secs);
    law_put_then_get(fs.chunks, inode, 0, merged, mtime, 0);
    let m = migrated(fs, inode, merged, new_size, volume_id, needle_id, now);
    let l = m.meta.entries[inode].chunks;
    let n = new_size;
    assert(l.len() == 1 && l[0].offset == 0 && l[0].size == n);
    let part = merged.take(n as int);
    if n > 0 {
        let cs = fs.chunks.chunk_size as int;
        assert(0int / cs == 0 && 0int % cs == 0);
        assert(0int * cs == 0) by (nonlinear_arith);
        assert(last_at(l, 0) == Some(l[0]));
        assert(served_len(m.chunks.at(inode, 0)->0, 0, fs.chunks.chunk_size, Some(l)) == n);
        assert(m.chunks.at(inode, 0)->0.data == merged);
        assert(merged.subrange(0, n as int) =~= part);
        assert(copied(m.chunks, inode, n, n, Some(l)) == Some(Seq::<u8>::empty()));
        assert(part + Seq::<u8>::empty() =~= part);
    } else {
        assert(part =~= Seq::<u8>::empty());
    }
}

/// What was written to a small file is read back from its buffer.
pub proof fn law_inline_file_reads_back(b: InlineView, at: u64, bytes: Seq<u8>)
    requires
        at + bytes.len() <= u64::MAX,
        bytes.len() <= u32::MAX,
    ensures
        slice_of(b.written(at, bytes).data, at, bytes.len() as u32) == bytes,
{
    assert(slice_of(b.written(at, bytes).data, at, bytes.len() as u32) =~= bytes);
}

/// A flush changes no data: what was cached is cached, with the same bytes,
/// whatever the volume servers answered.
pub proof fn law_flush_keeps_data(
    fs: FsView,
    inode: u64,
    items: Seq<FlushItemView>,
    stuck: Seq<u64>,
    taken: Seq<bool>,
    now_ms: u64,
    k: (u64, u64),
)
    ensures
        ({
            let after = fs.flush_ended(inode, items, stuck, taken, now_ms);
            &&& after.chunks.chunks.contains_key(k) == fs.chunks.chunks.contains_key(k)
            &&& fs.chunks.chunks.contains_key(k) ==> after.chunks.chunks[k].data
                == fs.chunks.chunks[k].data
            &&& fs.flush_begun(inode, now_ms).chunks == fs.chunks
        }),
{
    lemma_flush_progress(fs, inode, items, taken, items.len() as int);
}

proof fn lemma_marked(d: Waiting, inode: u64, idx: u64)
    ensures
        waiting_for(marked(d, inode, idx), inode).contains(idx),
        forall|x: u64| #[trigger]
            waiting_for(d, inode).contains(x) ==> waiting_for(marked(d, inode, idx), inode).contains(
                x,
            ),
{
    let w = waiting_for(d, inode);
    if !w.contains(idx) {
        let p = w.push(idx);
        assert(p[w.len() as int] == idx);
        assert forall|x: u64| #[trigger] w.contains(x) implies p.contains(x) by {
            let i = choose|i: int| 0 <= i < w.len() && w[i] == x;
            assert(p[i] == x);
        }
    }
}

proof fn lemma_flush_progress(
    fs: FsView,
    inode: u64,
    items: Seq<FlushItemView>,
    taken: Seq<bool>,
    n: int,
)
    requires
        0 <= n <= items.len(),
    ensures
        ({
            let p = flush_progress(fs, inode, items, taken, n);
            &&& p.fs.chunks == fs.chunks
            &&& p.fs.meta.has(inode) == fs.meta.has(inode)
            &&& fs.meta.has(inode) ==> p.fs.meta.entries[inode].state
                == fs.meta.entries[inode].state
            &&& p.failed <==> exists|i: int| 0 <= i < n && !#[trigger] was_taken(taken, i)
            &&& forall|i: int|
                0 <= i < n && !(#[trigger] was_taken(taken, i)) ==> waiting_for(
                    p.fs.waiting,
                    inode,
                ).contains(items[i].idx)
            &&& forall|i: int|
                0 <= i < n && #[trigger] was_taken(taken, i) ==> p.flushed.contains(items[i].idx)
            &&& forall|x: u64| #[trigger]
                p.flushed.contains(x) ==> exists|i: int|
                    0 <= i < n && #[trigger] was_taken(taken, i) && items[i].idx == x
        }),
    decreases n,
{
    if n > 0 {
        lemma_flush_progress(fs, inode, items, taken, n - 1);
        let b = flush_progress(fs, inode, items, taken, n - 1);
        let p = flush_progress(fs, inode, items, taken, n);
        let item = items[n - 1];
        if was_taken(taken, n - 1) {
            assert(p.flushed[b.flushed.len() as int] == item.idx);
            assert forall|i: int| 0 <= i < n && #[trigger] was_taken(taken, i) implies p.flushed.contains(
                items[i].idx,
            ) by {
                if i < n - 1 {
                    assert(b.flushed.contains(items[i].idx));
                    let j = choose|j: int|
                        0 <= j < b.flushed.len() && b.flushed[j] == items[i].idx;
                    assert(p.flushed[j] == items[i].idx);
                }
            }
            assert forall|x: u64| #[trigger] p.flushed.contains(x) implies exists|i: int|
                0 <= i < n && #[trigger] was_taken(taken, i) && items[i].idx == x by {
                let j = choose|j: int| 0 <= j < p.flushed.len() && p.flushed[j] == x;
                if j < b.flushed.len() {
                    assert(b.flushed[j] == x);
                    assert(b.flushed.contains(x));
                } else {
                    assert(was_taken(taken, n - 1) && items[n - 1].idx == x);
                }
            }
        } else {
            lemma_marked(b.fs.waiting, inode, item.idx);
            assert forall|x: u64| #[trigger] p.flushed.contains(x) implies exists|i: int|
                0 <= i < n && #[trigger] was_taken(taken, i) && items[i].idx == x by {
                assert(b.flushed.contains(x));
            }
        }
    }
}

/// A chunk that a volume server did not take, or did not answer for, stays dirty
/// and waits for the next flush, and its file is not in step with the server.
pub proof fn law_refused_chunks_wait(
    fs: FsView,
    inode: u64,
    items: Seq<FlushItemView>,
    stuck: Seq<u64>,
    taken: Seq<bool>,
    now_ms: u64,
    i: int,
)
    requires
        0 <= i < items.len(),
        !was_taken(taken, i),
        forall|a: int, b: int|
            0 <= a < b < items.len() ==> (#[trigger] items[a]).idx != (#[trigger] items[b]).idx,
        fs.chunks.chunks.contains_key((inode, items[i].idx)),
        fs.chunks.chunks[(inode, items[i].idx)].dirty,
        fs.meta.has(inode),
        fs.meta.entries[inode].state.is_authoritative(),
    ensures
        ({
            let after = fs.flush_ended(inode, items, stuck, taken, now_ms);
            &&& !fs.flush_succeeded(inode, items, stuck, taken)
            &&& waiting_for(after.waiting, inode).contains(items[i].idx)
            &&& after.chunks.chunks[(inode, items[i].idx)] == fs.chunks.chunks[(
                inode,
                items[i].idx,
            )]
            &&& after.meta.entries[inode].state is Dirty
        }),
{
    lemma_flush_progress(fs, inode, items, taken, items.len() as int);
    let p = flush_progress(fs, inode, items, taken, items.len() as int);
    lemma_all_marked(p.fs.waiting, inode, stuck);
    if p.flushed.contains(items[i].idx) {
        let j = choose|j: int|
            0 <= j < items.len() && #[trigger] was_taken(taken, j) && items[j].idx == items[i].idx;
        if j < i {
            assert(items[j].idx != items[i].idx);
        } else if i < j {
            assert(items[i].idx != items[j].idx);
        }
    }
}

/// After every chunk was taken, the sent chunks and their file are in step with
/// the server.
pub proof fn law_taken_chunks_are_clean(
    fs: FsView,
    inode: u64,
    items: Seq<FlushItemView>,
    taken: Seq<bool>,
    now_ms: u64,
    i: int,
)
    requires
        0 <= i < items.len(),
        forall|j: int| 0 <= j < items.len() ==> #[trigger] was_taken(taken, j),
        fs.chunks.chunks.contains_key((inode, items[i].idx)),
        fs.meta.has(inode),
        fs.meta.entries[inode].state is Flushing,
    ensures
        ({
            let after = fs.flush_ended(inode, items, Seq::empty(), taken, now_ms);
            &&& fs.flush_succeeded(inode, items, Seq::empty(), taken)
            &&& !after.chunks.chunks[(inode, items[i].idx)].dirty
            &&& after.meta.entries[inode].state is Clean
        }),
{
    lemma_flush_progress(fs, inode, items, taken, items.len() as int);
    assert(was_taken(taken, i));
}

proof fn lemma_all_marked(d: Waiting, inode: u64, which: Seq<u64>)
    ensures
        forall|x: u64| #[trigger]
            waiting_for(d, inode).contains(x) ==> waiting_for(
                all_marked(d, inode, which),
                inode,
            ).contains(x),
        forall|x: u64| #[trigger]
            which.contains(x) ==> waiting_for(all_marked(d, inode, which), inode).contains(x),
    decreases which.len(),
{
    if which.len() > 0 {
        let p = which.drop_last();
        lemma_all_marked(d, inode, p);
        let m = all_marked(d, inode, p);
        lemma_marked(m, inode, which.last());
        assert forall|x: u64| #[trigger] which.contains(x) implies waiting_for(
            all_marked(d, inode, which),
            inode,
        ).contains(x) by {
            if x != which.last() {
                let j = choose|j: int| 0 <= j < which.len() && which[j] == x;
                assert(p[j] == x);
                assert(p.contains(x));
                assert(waiting_for(m, inode).contains(x));
            }
        }
    }
}

/// A chunk that has no place to go waits on, and the flush fails, whatever became
/// of the others.
pub proof fn law_stuck_chunks_wait(
    fs: FsView,
    inode: u64,
    items: Seq<FlushItemView>,
    stuck: Seq<u64>,
    taken: Seq<bool>,
    now_ms: u64,
    idx: u64,
)
    requires
        stuck.contains(idx),
    ensures
        !fs.flush_succeeded(inode, items, stuck, taken),
        waiting_for(
            fs.flush_ended(inode, items, stuck, taken, now_ms).waiting,
            inode,
        ).contains(idx),
        fs.flush_ended(inode, items, stuck, taken, now_ms).has_dirty,
{
    let p = flush_progress(fs, inode, items, taken, items.len() as int);
    lemma_all_marked(p.fs.waiting, inode, stuck);
}

/// A flush leaves no data out: every waiting chunk that is cached is sent, or is
/// among those that have no place to go.
pub proof fn law_flush_leaves_nothing_out(
    chunks: ChunksView,
    inode: u64,
    e: EntryView,
    dirty: Seq<u64>,
    i: int,
)
    requires
        0 <= i < dirty.len(),
        chunks.at(inode, (dirty[i] * chunks.chunk_size) as u64) is Some,
    ensures
        stuck_chunks(chunks, inode, e, dirty).contains(dirty[i]) || exists|n: int|
            0 <= n < flush_items(chunks, inode, e, dirty).len() && (#[trigger] flush_items(
                chunks,
                inode,
                e,
                dirty,
            )[n]).idx == dirty[i],
    decreases dirty.len(),
{
    let p = dirty.drop_last();
    let s = stuck_chunks(chunks, inode, e, dirty);
    let f = flush_items(chunks, inode, e, dirty);
    let s0 = stuck_chunks(chunks, inode, e, p);
    let f0 = flush_items(chunks, inode, e, p);
    if i == dirty.len() - 1 {
        if is_stuck(chunks, inode, e, dirty[i]) {
            assert(s[s0.len() as int] == dirty[i]);
        } else {
            assert(f[f0.len() as int].idx == dirty[i]);
        }
    } else {
        assert(p[i] == dirty[i]);
        law_flush_leaves_nothing_out(chunks, inode, e, p, i);
        if s0.contains(dirty[i]) {
            let j = choose|j: int| 0 <= j < s0.len() && s0[j] == dirty[i];
            assert(s[j] == dirty[i]);
        } else {
            let n = choose|n: int| 0 <= n < f0.len() && (#[trigger] f0[n]).idx == dirty[i];
            assert(f[n].idx == dirty[i]);
        }
    }
}

/// A flush of a file that has nowhere to go yet, or that is not known, fails and
/// leaves its chunks waiting.
pub proof fn law_unplaced_chunks_wait(fs: FsView, inode: u64, now_ms: u64)
    requires
        fs.meta.stepped(inode, EntryState::Flushing).answer(inode, now_ms) matches Some(e)
            ==> e.fid is None && e.placement is None,
    ensures
        fs.flush_begun(inode, now_ms).waiting == fs.waiting,
        waiting_for(fs.waiting, inode).len() > 0 ==> fs.flush_begun(inode, now_ms).has_dirty,
{
}

/// An appending write starts where the file ends.
pub proof fn law_append_starts_at_end(meta: MetaView, inode: u64, offset: u64, now_ms: u64)
    requires
        meta.answer(inode, now_ms) is Some,
    ensures
        write_offset(meta, inode, offset, true, now_ms) == meta.entries[inode].size,
        write_offset(meta, inode, offset, false, now_ms) == offset,
{
}

/// A second look at the same epoch changes nothing; another epoch puts every
/// entry out of date that is neither open nor carries local changes.
pub proof fn law_epoch_check_settles(fs: FsView, epoch: u64, now_ms: u64, later: u64, inode: u64)
    requires
        fs.meta.has(inode),
    ensures
        epoch_checked(epoch_checked(fs, epoch, now_ms), epoch, later) == epoch_checked(
            fs,
            epoch,
            now_ms,
        ),
        epoch != fs.epoch && fs.meta.entries[inode].state is Clean
            && fs.meta.entries[inode].hold is Unpinned ==> epoch_checked(
            fs,
            epoch,
            now_ms,
        ).meta.answer(inode, later) is None,
        fs.meta.entries[inode].state.is_authoritative() ==> ({
            let f = epoch_checked(fs, epoch, now_ms).meta.entries[inode];
            f == EntryView { dentry_lease: f.dentry_lease, ..fs.meta.entries[inode] }
        }),
{
}

/// An open file stays usable over any change of the server's epoch: its entry is
/// still answered, with the size, chunks, handles and everything else that it
/// had, but for its age, its state and the lease on its name. So reads, writes
/// and the close go on as before.
pub proof fn law_open_files_outlive_epochs(
    fs: FsView,
    epoch: u64,
    now_ms: u64,
    later: u64,
    inode: u64,
)
    requires
        fs.meta.has(inode),
        fs.meta.entries[inode].hold is Pinned,
        !(fs.meta.entries[inode].state is Tombstone),
    ensures
        ({
            let e = fs.meta.entries[inode];
            let after = epoch_checked(fs, epoch, now_ms);
            &&& fs.meta.answer(inode, now_ms) == Some(e)
            &&& after.meta.answer(inode, later) matches Some(f) && f == EntryView {
                state: f.state,
                cached_at: f.cached_at,
                dentry_lease: f.dentry_lease,
                ..e
            }
            &&& after.chunks == fs.chunks
            &&& after.inline == fs.inline
            &&& after.waiting == fs.waiting
            &&& after.open == fs.open
        }),
{
}

/// What the server sends for an entry that was out of date makes the entry good
/// again: it is answered from then on, under the same inode and with the same
/// placement.
pub proof fn law_refetch_brings_back(fs: FsView, inode: u64, fresh: EntryView, now_ms: u64)
    requires
        fs.meta.wf(),
        fs.meta.needs_refetch(inode, now_ms),
        fresh.state is New,
        fresh.cached_at == now_ms,
    ensures
        refetched_to(fs, inode, fresh, now_ms).meta.answer(inode, now_ms) matches Some(f)
            && f.inode == inode && f.placement == fs.meta.entries[inode].placement && f.reliability
            == fs.meta.entries[inode].reliability,
{
    let looked = fs.meta.fetched(inode, now_ms);
    law_fetch_keeps_entries(fs.meta, inode, now_ms);
    let e = refetched_entry(looked.entries[inode], fresh);
    if inode != ROOT_INODE {
        law_climb_keeps_entries(looked, e.parent, set![inode], now_ms);
    }
    let b = before_filing(looked, e, now_ms);
    assert(looked.has(inode));
    assert(b.has(inode));
    assert(b.entries[inode].hold == fs.meta.entries[inode].hold);
}

/// A child that a listing brings into the cache is a hint: it stands there with
/// the attributes of the row, out of date, so that whoever needs more than a hint
/// asks the server again. Only a lookup in a directory that is cached in full is
/// answered from it. In a cache full of open inodes the hint stays out.
pub proof fn law_listed_child_is_a_hint(fs: FsView, dir: u64, row: MetadataDirEntry, now_ms: u64)
    requires
        fs.meta.wf(),
        row.attrs is Some,
        !fs.meta.has(row.inode),
        fs.meta.order.len() < fs.meta.capacity || exists|k: u64| #[trigger]
            fs.meta.has(k) && fs.meta.entries[k].hold is Unpinned,
    ensures
        ({
            let after = row_listed(fs, dir, row, now_ms).meta;
            let attr = row.attrs->0;
            &&& after.has(row.inode)
            &&& after.entries[row.inode].state is Stale
            &&& after.entries[row.inode].parent == dir
            &&& after.entries[row.inode].mode == attr.mode & 0o7777
            &&& after.entries[row.inode].size == attr.size
            &&& after.answer(row.inode, now_ms) is None
            &&& after.needs_refetch(row.inode, now_ms)
        }),
{
    let e = entry_of_row(dir, &row, &row.attrs->0, now_ms);
    law_inserted_entry_is_found(fs.meta, e, now_ms, now_ms);
}

/// An unlink that takes the last name of a file takes the file out of the cache,
/// with its buffer and whatever else stood under the name; and the queue of unlinks stays short.
pub proof fn law_unlink_takes_the_file(
    fs: FsView,
    inode: u64,
    parent: u64,
    name: Seq<char>,
    shard: u64,
    now_ms: u64,
)
    requires
        fs.meta.wf(),
        fs.meta.has(inode),
        fs.meta.entries[inode].nlink <= 1,
        inode != parent,
        fs.pending.len() < UNLINK_BATCH,
    ensures
        ({
            let after = unlink_applied(fs, inode, parent, name, shard, now_ms);
            &&& !after.meta.has(inode)
            &&& after.meta.none_named(parent, name, None)
            &&& !after.inline.contains_key(inode)
            &&& !after.meta.dirs.contains_key(parent)
            &&& after.pending.len() < UNLINK_BATCH
            &&& after.pending.len() > 0 ==> after.pending.last().0 == parent
                && after.pending.last().1 == name
        }),
{
    let m = fs.meta;
    let v1 = m.unlinked_once(inode);
    lemma_alter_wf(m, inode, v1.entries[inode]);
    let v2 = v1.cap_flushed(inode);
    lemma_alter_wf(v1, inode, v2.entries[inode]);
    let v3 = v2.cap_set(inode, None);
    lemma_alter_wf(v2, inode, v3.entries[inode]);
    lemma_removed_wf(v3, inode);
    let v4 = v3.removed(inode);
    law_cleared_names_are_gone(v4, parent, name, None);
    let v5 = v4.cleared(parent, name, None);
    law_fetch_keeps_entries(v5, parent, now_ms);
    let after = unlink_applied(fs, inode, parent, name, shard, now_ms).meta;
    assert(after.entries == v5.fetched(parent, now_ms).entries);
    assert forall|k: u64| #[trigger] after.has(k) implies v5.has(k) && after.entries[k].parent
        == v5.entries[k].parent && after.entries[k].name == v5.entries[k].name by {}
}

proof fn lemma_of_shard_push(v: Seq<(u64, Seq<char>, u64)>, i: int)
    requires
        0 <= i < v.len(),
    ensures
        of_shard(v, v[i].2).contains((v[i].0, v[i].1)),
        shards_of(v).contains(v[i].2),
    decreases v.len(),
{
    let p = v.drop_last();
    let shard = v[i].2;
    let u = (v[i].0, v[i].1);
    let s = of_shard(v, shard);
    let t = shards_of(v);
    let before = shards_of(p);
    if i == v.len() - 1 {
        assert(s[s.len() - 1] == u);
        if !before.contains(shard) {
            assert(t[t.len() - 1] == shard);
        }
    } else {
        assert(p[i] == v[i]);
        lemma_of_shard_push(p, i);
        let o = of_shard(p, shard);
        let j = choose|j: int| 0 <= j < o.len() && o[j] == u;
        assert(s[j] == u);
        let q = choose|q: int| 0 <= q < before.len() && before[q] == shard;
        assert(t[q] == shard);
    }
}

/// Every queued unlink is sent to its shard, and no shard is sent to twice.
pub proof fn law_every_unlink_is_sent(v: Seq<(u64, Seq<char>, u64)>, i: int)
    requires
        0 <= i < v.len(),
    ensures
        shards_of(v).contains(v[i].2),
        of_shard(v, v[i].2).contains((v[i].0, v[i].1)),
        shards_of(v).no_duplicates(),
{
    lemma_of_shard_push(v, i);
    lemma_shards_differ(v);
}

proof fn lemma_shards_differ(v: Seq<(u64, Seq<char>, u64)>)
    ensures
        shards_of(v).no_duplicates(),
    decreases v.len(),
{
    if v.len() > 0 {
        lemma_shards_differ(v.drop_last());
    }
}

/// A file that was just opened is protected from invalidation, and one handle
/// more is counted.
pub proof fn law_open_files_are_protected(fs: FsView, inode: u64)
    requires
        can_open(fs, inode),
        fs.meta.has(inode),
    ensures
        ({
            let after = FsView {
                open: opened(fs.open, inode),
                meta: fs.meta.pinned(inode),
                ..fs
            };
            &&& is_protected(after, inode)
            &&& after.open.contains_key(inode)
            &&& after.open[inode] >= 1
        }),
{
}

/// The last close of a file whose data reached the server gives its cap back;
/// while the flush fails, the file stays pinned.
pub proof fn law_last_close_returns_cap(fs: FsView, inode: u64, now_ms: u64)
    requires
        fs.meta.has(inode),
        is_last(fs.meta, inode),
    ensures
        chunks_closed(fs, inode, true, true, now_ms).meta.entries[inode].cap is None,
        chunks_closed(fs, inode, true, true, now_ms).meta.entries[inode].hold is Unpinned,
        chunks_closed(fs, inode, false, true, now_ms).meta.entries[inode].hold
            == fs.meta.entries[inode].hold,
        inline_closed(fs, inode, true, now_ms).meta.entries[inode].cap is None,
{
}

/// A read asks for exactly the chunks of its range that are not cached, each
/// once and in order.
pub proof fn law_reads_fetch_what_is_missing(
    chunks: ChunksView,
    inode: u64,
    lo: int,
    hi: int,
    file_size: u64,
)
    requires
        chunks.chunk_size > 0,
        0 <= lo,
        hi * chunks.chunk_size <= u64::MAX,
    ensures
        ({
            let w = wanted(chunks, inode, lo, hi, file_size);
            &&& forall|n: int|
                0 <= n < w.len() ==> lo <= (#[trigger] w[n]).idx < hi
                    && !chunks.chunks.contains_key((inode, w[n].idx)) && w[n].offset == w[n].idx
                    * chunks.chunk_size
            &&& forall|n: int, m: int|
                0 <= n < m < w.len() ==> (#[trigger] w[n]).idx < (#[trigger] w[m]).idx
            &&& forall|i: u64|
                lo <= i < hi && !#[trigger] chunks.chunks.contains_key((inode, i)) ==> exists|n: int|
                    0 <= n < w.len() && (#[trigger] w[n]).idx == i
        }),
    decreases hi - lo,
{
    if lo < hi {
        let cs = chunks.chunk_size as int;
        let last = hi - 1;
        assert(0 <= last * cs && last * cs + cs == hi * cs && (last * cs) / cs == last && last
            <= last * cs) by (nonlinear_arith)
            requires
                0 < cs,
                0 <= last,
                last == hi - 1,
        ;
        law_reads_fetch_what_is_missing(chunks, inode, lo, last, file_size);
        let w = wanted(chunks, inode, lo, hi, file_size);
        let b = wanted(chunks, inode, lo, last, file_size);
        assert(chunks.key(inode, (last * cs) as u64) == (inode, last as u64));
        assert forall|i: u64|
            lo <= i < hi && !#[trigger] chunks.chunks.contains_key((inode, i)) implies exists|n: int|
            0 <= n < w.len() && (#[trigger] w[n]).idx == i by {
            if i == last {
                assert(w[b.len() as int].idx == i);
            } else {
                let n = choose|n: int| 0 <= n < b.len() && (#[trigger] b[n]).idx == i;
                assert(w[n].idx == i);
            }
        }
    }
}

} // verus!
