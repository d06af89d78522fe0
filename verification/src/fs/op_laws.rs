//! What the operations on files promise of the state that they leave behind.

use super::attrs::{attr_ttl, attrs_set, data_resized, getattr_answer, setattr_of, SetattrValid};
use super::invalidate::{
    invalidate_forgets, invalidate_handled, invalidate_seen, name_due, SeenView,
};
use super::open::{buffer_outdated, chunks_closed, has_unsynced, created, inline_closed};
use super::read::inline_arrived;
use super::sync::{round_action, taken_by_server, InlineSync, InlineSyncAction};
use super::write::{kept_base, plan_ok, share, write_finished, write_step, WritePlan, WriteStep};
use super::{
    crc32_of, flush_items, flush_progress, stuck_chunks, was_taken, FlushItemView, FsView,
};
use crate::chunk_cache::ChunksView;
use crate::dirty::{all_marked, marked, waiting_for, Waiting};
use crate::entry::{stripe_size_of, CachedFileChunk, EntryState, EntryView, Now, ROOT_INODE};
use crate::inline::{migrate_threshold, retry_after, slice_of, InlineView, RetryStep};
use crate::meta_laws::lemma_chunk_at_bounds;
use crate::meta_model::{chunk_at, chunks_cut, with_crc, MetaView, FILE_KEY_BLOCK_SIZE};
use crate::records::{stat_of, MetadataAttr, Stat};
use vstd::arithmetic::div_mod::lemma_fundamental_div_mod;
use vstd::prelude::*;

verus! {

/// Marking a chunk makes it wait, and changes nothing else: every other chunk of
/// any inode waits exactly if it did.
pub proof fn law_marking_adds_one_chunk(d: Waiting, inode: u64, idx: u64, other: u64, x: u64)
    ensures
        waiting_for(marked(d, inode, idx), inode).contains(idx),
        other != inode || x != idx ==> (waiting_for(marked(d, inode, idx), other).contains(x)
            <==> waiting_for(d, other).contains(x)),
{
    let w = waiting_for(d, inode);
    if !w.contains(idx) {
        let p = w.push(idx);
        assert(p[w.len() as int] == idx);
        if other == inode && x != idx {
            if w.contains(x) {
                let i = choose|i: int| 0 <= i < w.len() && w[i] == x;
                assert(p[i] == x);
            }
            if p.contains(x) {
                let i = choose|i: int| 0 <= i < p.len() && p[i] == x;
                assert(w[i] == x);
            }
        }
    }
}

proof fn lemma_all_marked_exact(d: Waiting, inode: u64, which: Seq<u64>, other: u64, x: u64)
    ensures
        waiting_for(all_marked(d, inode, which), other).contains(x) <==> waiting_for(
            d,
            other,
        ).contains(x) || (other == inode && which.contains(x)),
    decreases which.len(),
{
    if which.len() > 0 {
        let p = which.drop_last();
        lemma_all_marked_exact(d, inode, p, other, x);
        law_marking_adds_one_chunk(all_marked(d, inode, p), inode, which.last(), other, x);
        assert(which[which.len() - 1] == which.last());
        if p.contains(x) {
            let j = choose|j: int| 0 <= j < p.len() && p[j] == x;
            assert(which[j] == x);
        }
        if which.contains(x) && x != which.last() {
            let j = choose|j: int| 0 <= j < which.len() && which[j] == x;
            assert(p[j] == x);
        }
    }
}

proof fn lemma_progress_exact(
    fs: FsView,
    inode: u64,
    items: Seq<FlushItemView>,
    taken: Seq<bool>,
    n: int,
    other: u64,
    x: u64,
)
    requires
        0 <= n <= items.len(),
    ensures
        ({
            let p = flush_progress(fs, inode, items, taken, n);
            &&& p.fs.chunks == fs.chunks
            &&& p.fs.inline == fs.inline
            &&& p.fs.open == fs.open
            &&& p.failed <==> exists|i: int| 0 <= i < n && !#[trigger] was_taken(taken, i)
            &&& p.fs.has_dirty == (fs.has_dirty || p.failed)
            &&& waiting_for(p.fs.waiting, other).contains(x) <==> waiting_for(
                fs.waiting,
                other,
            ).contains(x) || (other == inode && exists|i: int|
                0 <= i < n && !#[trigger] was_taken(taken, i) && items[i].idx == x)
            &&& p.flushed.contains(x) <==> exists|i: int|
                0 <= i < n && #[trigger] was_taken(taken, i) && items[i].idx == x
        }),
    decreases n,
{
    if n > 0 {
        lemma_progress_exact(fs, inode, items, taken, n - 1, other, x);
        let b = flush_progress(fs, inode, items, taken, n - 1);
        let p = flush_progress(fs, inode, items, taken, n);
        let item = items[n - 1];
        if was_taken(taken, n - 1) {
            assert(p.flushed[b.flushed.len() as int] == item.idx);
            if b.flushed.contains(x) {
                let j = choose|j: int| 0 <= j < b.flushed.len() && b.flushed[j] == x;
                assert(p.flushed[j] == x);
            }
            if p.flushed.contains(x) && x != item.idx {
                let j = choose|j: int| 0 <= j < p.flushed.len() && p.flushed[j] == x;
                assert(b.flushed[j] == x);
            }
        } else {
            law_marking_adds_one_chunk(b.fs.waiting, inode, item.idx, other, x);
        }
    }
}

/// The volume server took item `i`.
pub open spec fn took(taken: Seq<bool>, i: int) -> bool {
    0 <= i < taken.len() && taken[i]
}

/// After a flush exactly those chunks wait that waited before, were not taken, or
/// have no place to go; exactly those that were taken, and no others, count as
/// clean; and the flush succeeded exactly if all were taken and all had a place.
pub proof fn law_flush_settles_each_chunk(
    fs: FsView,
    inode: u64,
    items: Seq<FlushItemView>,
    stuck: Seq<u64>,
    taken: Seq<bool>,
    now_ms: u64,
    other: u64,
    x: u64,
)
    ensures
        ({
            let after = fs.flush_ended(inode, items, stuck, taken, now_ms);
            let refused = exists|i: int|
                0 <= i < items.len() && !#[trigger] took(taken, i) && items[i].idx == x;
            let sent = exists|i: int|
                0 <= i < items.len() && #[trigger] took(taken, i) && items[i].idx == x;
            let k = (other, x);
            &&& waiting_for(after.waiting, other).contains(x) <==> waiting_for(
                fs.waiting,
                other,
            ).contains(x) || (other == inode && (refused || stuck.contains(x)))
            &&& after.chunks.chunks.contains_key(k) == fs.chunks.chunks.contains_key(k)
            &&& fs.chunks.chunks.contains_key(k) ==> after.chunks.chunks[k].dirty == (
            fs.chunks.chunks[k].dirty && !(other == inode && sent))
            &&& fs.chunks.chunks.contains_key(k) ==> after.chunks.chunks[k].data
                == fs.chunks.chunks[k].data
            &&& fs.flush_succeeded(inode, items, stuck, taken) <==> stuck.len() == 0 && forall|
                i: int|
                0 <= i < items.len() ==> #[trigger] took(taken, i)
            &&& after.has_dirty == (fs.has_dirty || !fs.flush_succeeded(inode, items, stuck, taken))
            &&& after.inline == fs.inline
            &&& after.open == fs.open
        }),
{
    lemma_progress_exact(fs, inode, items, taken, items.len() as int, other, x);
    let p = flush_progress(fs, inode, items, taken, items.len() as int);
    lemma_all_marked_exact(p.fs.waiting, inode, stuck, other, x);
    assert forall|i: int| #[trigger] took(taken, i) == was_taken(taken, i) by {}
    assert forall|i: int| #[trigger] was_taken(taken, i) == took(taken, i) by {}
}

/// Only chunks that waited are stuck, and of a flat file only those that a file may
/// not hold. No chunk is both stuck and sent.
pub proof fn law_stuck_chunks_have_no_place(
    chunks: ChunksView,
    inode: u64,
    e: EntryView,
    dirty: Seq<u64>,
    x: u64,
)
    requires
        e.fid is Some || e.placement is Some,
        dirty.no_duplicates(),
        stuck_chunks(chunks, inode, e, dirty).contains(x),
    ensures
        dirty.contains(x),
        e.fid is Some ==> x >= FILE_KEY_BLOCK_SIZE,
        forall|n: int|
            0 <= n < flush_items(chunks, inode, e, dirty).len() ==> (#[trigger] flush_items(
                chunks,
                inode,
                e,
                dirty,
            )[n]).idx != x,
{
    lemma_stuck_or_sent(chunks, inode, e, dirty, x);
}

proof fn lemma_stuck_or_sent(
    chunks: ChunksView,
    inode: u64,
    e: EntryView,
    dirty: Seq<u64>,
    x: u64,
)
    requires
        e.fid is Some || e.placement is Some,
        dirty.no_duplicates(),
    ensures
        ({
            let s = stuck_chunks(chunks, inode, e, dirty);
            let f = flush_items(chunks, inode, e, dirty);
            &&& s.contains(x) ==> dirty.contains(x)
            &&& s.contains(x) && e.fid is Some ==> x >= FILE_KEY_BLOCK_SIZE
            &&& forall|n: int| 0 <= n < f.len() && (#[trigger] f[n]).idx == x ==> dirty.contains(x)
            &&& s.contains(x) ==> forall|n: int| 0 <= n < f.len() ==> (#[trigger] f[n]).idx != x
        }),
    decreases dirty.len(),
{
    if dirty.len() > 0 {
        let p = dirty.drop_last();
        lemma_stuck_or_sent(chunks, inode, e, p, x);
        let s0 = stuck_chunks(chunks, inode, e, p);
        let f0 = flush_items(chunks, inode, e, p);
        let s = stuck_chunks(chunks, inode, e, dirty);
        let f = flush_items(chunks, inode, e, dirty);
        assert(dirty[dirty.len() - 1] == dirty.last());
        if p.contains(x) {
            let j = choose|j: int| 0 <= j < p.len() && p[j] == x;
            assert(dirty[j] == x);
        }
        if s.contains(x) && x != dirty.last() {
            let j = choose|j: int| 0 <= j < s.len() && s[j] == x;
            assert(s0[j] == x);
            assert(s0.contains(x));
        }
        assert forall|n: int| 0 <= n < f.len() && (#[trigger] f[n]).idx == x implies dirty.contains(
            x,
        ) by {
            if n < f0.len() {
                assert(f0[n].idx == x);
            }
        }
        if s.contains(x) {
            assert forall|n: int| 0 <= n < f.len() implies (#[trigger] f[n]).idx != x by {
                if n < f0.len() {
                    if f0[n].idx == x {
                        assert(p.contains(x));
                        let j = choose|j: int| 0 <= j < p.len() && p[j] == x;
                        assert(dirty[j] == x);
                    }
                }
            }
        }
    }
}

/// A checksum goes to the chunk that was flushed: the first one at its offset gets
/// the checksum of the data, and no other chunk of the list changes in any way.
pub proof fn law_checksums_go_to_their_chunk(
    chunks: Seq<CachedFileChunk>,
    offset: u64,
    crc: u32,
    j: int,
)
    requires
        0 <= j < chunks.len(),
    ensures
        ({
            let after = with_crc(chunks, offset, crc);
            &&& after.len() == chunks.len()
            &&& after[j].offset == chunks[j].offset
            &&& after[j].size == chunks[j].size
            &&& after[j].needle_id == chunks[j].needle_id
            &&& after[j].volume_id == chunks[j].volume_id
            &&& chunks[j].offset != offset ==> after[j] == chunks[j]
            &&& chunks[j].offset == offset && (forall|k: int|
                0 <= k < j ==> (#[trigger] chunks[k]).offset != offset) ==> after[j].crc32 == crc
        }),
{
    lemma_chunk_at_bounds(chunks, offset);
    let at = chunk_at(chunks, offset);
    if chunks[j].offset == offset && at < j {
        assert(chunks[at].offset == offset);
    }
}

/// A chunk that a volume server took is listed with the checksum of what was sent,
/// as long as no other item of the flush lies at its offset.
pub proof fn law_taken_chunks_are_checksummed(
    fs: FsView,
    inode: u64,
    items: Seq<FlushItemView>,
    taken: Seq<bool>,
    n: int,
    m: int,
    j: int,
)
    requires
        fs.meta.has(inode),
        0 <= m < n <= items.len(),
        m < taken.len() && taken[m],
        forall|a: int, b: int|
            0 <= a < b < items.len() ==> (#[trigger] items[a]).offset != (#[trigger] items[b]).offset,
        0 <= j < fs.meta.entries[inode].chunks.len(),
        fs.meta.entries[inode].chunks[j].offset == items[m].offset,
        forall|k: int|
            0 <= k < j ==> (#[trigger] fs.meta.entries[inode].chunks[k]).offset != items[m].offset,
    ensures
        ({
            let after = flush_progress(fs, inode, items, taken, n).fs.meta.entries[inode].chunks;
            after.len() == fs.meta.entries[inode].chunks.len() && after[j].crc32 == crc32_of(
                items[m].data,
            )
        }),
    decreases n,
{
    let old_list = fs.meta.entries[inode].chunks;
    lemma_progress_list(fs, inode, items, taken, n - 1);
    let before = flush_progress(fs, inode, items, taken, n - 1).fs.meta.entries[inode].chunks;
    assert(before[j].offset == old_list[j].offset);
    if m == n - 1 {
        assert forall|k: int| 0 <= k < j implies (#[trigger] before[k]).offset != items[m].offset by {
            assert(before[k].offset == old_list[k].offset);
        }
        law_checksums_go_to_their_chunk(before, items[m].offset, crc32_of(items[m].data), j);
    } else {
        law_taken_chunks_are_checksummed(fs, inode, items, taken, n - 1, m, j);
        assert(items[m].offset != items[n - 1].offset);
        law_checksums_go_to_their_chunk(
            before,
            items[n - 1].offset,
            crc32_of(items[n - 1].data),
            j,
        );
    }
}

proof fn lemma_progress_list(
    fs: FsView,
    inode: u64,
    items: Seq<FlushItemView>,
    taken: Seq<bool>,
    n: int,
)
    requires
        fs.meta.has(inode),
        0 <= n <= items.len(),
    ensures
        ({
            let p = flush_progress(fs, inode, items, taken, n);
            let a = p.fs.meta.entries[inode].chunks;
            let b = fs.meta.entries[inode].chunks;
            &&& p.fs.meta.has(inode)
            &&& a.len() == b.len()
            &&& forall|k: int| 0 <= k < b.len() ==> (#[trigger] a[k]).offset == b[k].offset
        }),
    decreases n,
{
    if n > 0 {
        lemma_progress_list(fs, inode, items, taken, n - 1);
        let a = flush_progress(fs, inode, items, taken, n - 1).fs.meta.entries[inode].chunks;
        let c = flush_progress(fs, inode, items, taken, n).fs.meta.entries[inode].chunks;
        let b = fs.meta.entries[inode].chunks;
        let item = items[n - 1];
        lemma_chunk_at_bounds(a, item.offset);
        assert forall|k: int| 0 <= k < b.len() implies (#[trigger] c[k]).offset == b[k].offset by {
            assert(a[k].offset == b[k].offset);
            law_checksums_go_to_their_chunk(a, item.offset, crc32_of(item.data), k);
        }
    }
}

/// A write never shortens a file and makes it reach at least as far as the write:
/// the size is the larger of the two, and the file counts as changed. No other
/// entry, no data and no buffer is touched by that.
pub proof fn law_writes_set_the_size(fs: FsView, plan: WritePlan, now: Now, other: u64)
    requires
        plan_ok(plan, fs.chunks.chunk_size),
        fs.meta.has(plan.inode),
    ensures
        ({
            let after = write_finished(fs, plan, now);
            let x = fs.meta.entries[plan.inode];
            let y = after.meta.entries[plan.inode];
            let end = plan.offset + plan.data@.len();
            &&& after.meta.has(plan.inode)
            &&& x.size >= end ==> y.size == x.size && y.content_size == x.content_size
            &&& x.size < end ==> y.size == end && y.content_size == end
            &&& x.state is New || x.state is Clean || x.state.is_authoritative() ==> y.state is Dirty
            &&& y.mode == x.mode && y.uid == x.uid && y.gid == x.gid && y.fid == x.fid
                && y.placement == x.placement && y.hold == x.hold && y.parent == x.parent && y.name
                == x.name && y.xattrs == x.xattrs && y.nlink == x.nlink
            &&& other != plan.inode ==> after.meta.has(other) == fs.meta.has(other) && (
            fs.meta.has(other) ==> after.meta.entries[other] == fs.meta.entries[other])
            &&& after.chunks == fs.chunks
            &&& after.inline == fs.inline
            &&& after.waiting == fs.waiting
        }),
{
}

/// A byte of a small file after a write: the written one, else the one that the
/// file had, else zero.
pub open spec fn merged_byte(before: Seq<u8>, at: u64, data: Seq<u8>, i: int) -> u8 {
    if at <= i < at + data.len() {
        data[i - at]
    } else if i < before.len() {
        before[i]
    } else {
        0
    }
}

/// What a write does first follows from what the file is. A small file with a
/// buffer takes the bytes into it, in their place, and its size follows; beyond
/// its limit it moves to a volume with all its bytes. A file with a place on a
/// volume is written chunk by chunk. Data beyond the stripe units is refused.
pub proof fn law_first_step_of_a_write(
    fs: FsView,
    inode: u64,
    at: u64,
    data: Seq<u8>,
    e: EntryView,
    now: Now,
    r: WriteStep,
    after: FsView,
)
    requires
        write_step(fs, inode, at, data, e, now, r, after),
        data.len() > 0,
        at + data.len() <= u64::MAX,
        fs.meta.has(inode),
    ensures
        ({
            let before = if fs.inline.contains_key(inode) {
                fs.inline[inode].data
            } else {
                Seq::empty()
            };
            let end = at + data.len();
            let len = if before.len() > end {
                before.len() as int
            } else {
                end
            };
            let on_volume = e.fid is Some || (e.placement is Some && stripe_size_of(
                e.placement->0,
            ) is Some);
            match r {
                WriteStep::Done { written } => {
                    &&& written == data.len() as usize
                    &&& fs.inline.contains_key(inode) || !on_volume
                    &&& after.inline.contains_key(inode)
                    &&& after.inline[inode].dirty
                    &&& after.inline[inode].data.len() == len
                    &&& forall|i: int|
                        0 <= i < len ==> #[trigger] after.inline[inode].data[i] == merged_byte(
                            before,
                            at,
                            data,
                            i,
                        )
                    &&& after.meta.entries[inode].size == len as u64
                    &&& end <= 8192
                    &&& fs.inline.contains_key(inode) && fs.limits.contains_key(inode) ==> 2 * end
                        <= 3 * fs.limits[inode]
                },
                WriteStep::SyncInline { written } => {
                    &&& written == data.len() as usize
                    &&& fs.inline.contains_key(inode)
                    &&& fs.meta.entries[inode].hold is Unpinned
                    &&& after.inline.contains_key(inode)
                    &&& after.inline[inode].data.len() == len
                    &&& forall|i: int|
                        0 <= i < len ==> #[trigger] after.inline[inode].data[i] == merged_byte(
                            before,
                            at,
                            data,
                            i,
                        )
                    &&& after.meta.entries[inode].size == len as u64
                    &&& end <= 8192
                },
                WriteStep::Migrate { merged, new_size } => {
                    &&& new_size == end
                    &&& merged@.len() == len
                    &&& forall|i: int|
                        0 <= i < len ==> #[trigger] merged@[i] == merged_byte(before, at, data, i)
                    &&& after == fs
                    &&& fs.inline.contains_key(inode) || end > 8192
                    &&& fs.inline.contains_key(inode) && fs.limits.contains_key(inode) ==> end
                        > 8192 || 2 * end > 3 * fs.limits[inode]
                },
                WriteStep::Chunks { plan } => {
                    &&& on_volume && !fs.inline.contains_key(inode)
                    &&& e.fid is None ==> end <= e.chunks.len() * stripe_size_of(e.placement->0)->0
                    &&& plan.inode == inode && plan.offset == at && plan.data@ == data
                        && plan.entry@ == e
                    &&& plan.first_chunk * fs.chunks.chunk_size <= at
                    &&& end <= (plan.last_chunk + 1) * fs.chunks.chunk_size
                    &&& after == fs
                },
                WriteStep::Fail { errno } => {
                    &&& e.fid is None && e.placement is Some
                    &&& end > e.chunks.len() * stripe_size_of(e.placement->0)->0
                    &&& after == fs
                },
                WriteStep::Refetch { data } => false,
            }
        }),
{
    if let WriteStep::Chunks { plan } = r {
        let cs = fs.chunks.chunk_size as int;
        lemma_fundamental_div_mod(at as int, cs);
        lemma_fundamental_div_mod(at + data.len() - 1, cs);
        let a = plan.first_chunk as int;
        let b = plan.last_chunk as int;
        assert(cs * a == a * cs && cs * b == b * cs && (b + 1) * cs == b * cs + cs)
            by (nonlinear_arith);
    }
}

/// A file moves out of its metadata record in good time and not before: it may
/// grow to one and a half times its limit, and never beyond 8 KiB.
pub proof fn law_small_files_stay_small(limit: u64)
    ensures
        migrate_threshold(limit) <= 8192,
        migrate_threshold(limit) < 8192 ==> 2 * migrate_threshold(limit) <= 3 * limit < 2
            * migrate_threshold(limit) + 2,
        migrate_threshold(limit) == 8192 ==> 3 * limit >= 2 * 8192,
{
}

/// A read of a small file gives its bytes from the offset on, as many as were asked
/// for or as there are.
pub proof fn law_small_files_are_read_bytewise(data: Seq<u8>, offset: u64, size: u32, i: int)
    ensures
        offset >= data.len() ==> slice_of(data, offset, size).len() == 0,
        offset < data.len() && offset + size <= data.len() ==> slice_of(data, offset, size).len()
            == size,
        offset < data.len() && offset + size > data.len() ==> slice_of(data, offset, size).len()
            == data.len() - offset,
        0 <= i < slice_of(data, offset, size).len() ==> slice_of(data, offset, size)[i]
            == data[offset + i],
{
}

/// The data that the server sends for a small file becomes its buffer, clean and
/// in step with the server; attributes of any other file change nothing.
pub proof fn law_sent_data_becomes_the_buffer(fs: FsView, inode: u64, attr: MetadataAttr)
    ensures
        ({
            let after = inline_arrived(fs, inode, Some(attr));
            &&& !attr.is_inline ==> after == fs
            &&& attr.is_inline ==> {
                &&& after.inline.contains_key(inode)
                &&& attr.inline_data matches Some(d) ==> after.inline[inode].data == d@
                &&& attr.inline_data is None ==> after.inline[inode].data.len() == 0
                &&& !after.inline[inode].dirty
                &&& !after.inline[inode].needs_refresh
                &&& fs.meta.has(inode) ==> after.meta.entries[inode].size == attr.size
                &&& attr.inline_max_size matches Some(n) ==> after.limits.contains_key(inode)
                    && after.limits[inode] == n
            }
            &&& after.chunks == fs.chunks
            &&& after.waiting == fs.waiting
            &&& forall|k: u64|
                k != inode ==> #[trigger] after.inline.contains_key(k) == fs.inline.contains_key(k)
        }),
{
}

/// Writers are held back by the number of bytes: a share is the given part of the
/// bound, rounded down.
pub proof fn law_shares_are_parts(max: usize, percent: u64)
    requires
        percent <= 100,
    ensures
        share(max, percent) * 100 <= max * percent < (share(max, percent) + 1) * 100,
        share(max, percent) <= max,
{
    let m = max as int;
    let p = percent as int;
    assert(0 <= m * p <= m * 100) by (nonlinear_arith)
        requires
            0 <= p <= 100,
            0 <= m,
    ;
}

proof fn lemma_cut(chunks: Seq<CachedFileChunk>, size: u64)
    ensures
        ({
            let after = chunks_cut(chunks, size);
            &&& forall|j: int|
                0 <= j < after.len() ==> (#[trigger] after[j]).offset < size && after[j].offset
                    + after[j].size <= size && exists|i: int|
                    0 <= i < chunks.len() && is_cut_of(#[trigger] chunks[i], after[j], size)
            &&& forall|i: int|
                0 <= i < chunks.len() && (#[trigger] chunks[i]).offset < size ==> exists|j: int|
                    0 <= j < after.len() && is_cut_of(chunks[i], #[trigger] after[j], size)
            &&& after.len() <= chunks.len()
        }),
    decreases chunks.len(),
{
    if chunks.len() > 0 {
        let p = chunks.drop_last();
        let last = chunks.len() - 1;
        lemma_cut(p, size);
        let b = chunks_cut(p, size);
        let after = chunks_cut(chunks, size);
        assert forall|j: int| 0 <= j < after.len() implies (#[trigger] after[j]).offset < size
            && after[j].offset + after[j].size <= size && exists|i: int|
            0 <= i < chunks.len() && is_cut_of(#[trigger] chunks[i], after[j], size) by {
            if j < b.len() {
                assert(after[j] == b[j]);
                let i = choose|i: int|
                    0 <= i < p.len() && is_cut_of(#[trigger] p[i], b[j], size);
                assert(is_cut_of(chunks[i], after[j], size));
            } else {
                assert(is_cut_of(chunks[last], after[j], size));
            }
        }
        assert forall|i: int|
            0 <= i < chunks.len() && (#[trigger] chunks[i]).offset < size implies exists|j: int|
            0 <= j < after.len() && is_cut_of(chunks[i], #[trigger] after[j], size) by {
            if i < last {
                assert(p[i] == chunks[i]);
                let j = choose|j: int|
                    0 <= j < b.len() && is_cut_of(p[i], #[trigger] b[j], size);
                assert(after[j] == b[j]);
            } else {
                assert(is_cut_of(chunks[i], after[b.len() as int], size));
            }
        }
    }
}

/// `b` is the chunk `a` of a file that was cut to `size`: in the same place and
/// under the same needle, and as long as it was, or up to the cut.
pub open spec fn is_cut_of(a: CachedFileChunk, b: CachedFileChunk, size: u64) -> bool {
    &&& b.offset == a.offset && b.needle_id == a.needle_id && b.volume_id == a.volume_id
    &&& a.offset + a.size <= size ==> b.size == a.size
    &&& a.offset + a.size > size ==> b.offset + b.size == size
}

/// A file that was cut or extended has the new size. What it had before that size,
/// in its buffer and its cached chunks, it still has; what lay
/// behind is gone, and nothing takes its place.
pub proof fn law_resized_files_keep_their_start(fs: FsView, inode: u64, size: u64, now: Now)
    requires
        fs.meta.has(inode),
        fs.chunks.chunk_size > 0,
    ensures
        ({
            let after = data_resized(fs, inode, size, now);
            let cs = fs.chunks.chunk_size;
            &&& after.meta.has(inode)
            &&& after.meta.entries[inode].size == size
            &&& after.meta.entries[inode].content_size == size
            &&& fs.inline.contains_key(inode) ==> {
                let b = after.inline[inode];
                &&& after.inline.contains_key(inode)
                &&& b.dirty
                &&& b.data.len() == size
                &&& forall|i: int|
                    0 <= i < size ==> #[trigger] b.data[i] == if i < fs.inline[inode].data.len() {
                        fs.inline[inode].data[i]
                    } else {
                        0u8
                    }
                &&& after.chunks == fs.chunks
            }
            &&& !fs.inline.contains_key(inode) ==> {
                &&& forall|i: u64| #[trigger]
                    after.chunks.chunks.contains_key((inode, i)) <==> fs.chunks.chunks.contains_key(
                        (inode, i),
                    ) && i * cs < size
                &&& forall|i: u64, b: int|
                    fs.chunks.chunks.contains_key((inode, i)) && 0 <= b
                        < fs.chunks.chunks[(inode, i)].data.len() && i * cs + b < size
                        ==> b < after.chunks.chunks[(inode, i)].data.len()
                        && #[trigger] after.chunks.chunks[(inode, i)].data[b]
                        == fs.chunks.chunks[(inode, i)].data[b]
                &&& forall|i: u64| #[trigger]
                    after.chunks.chunks.contains_key((inode, i)) ==> i * cs
                        + after.chunks.chunks[(inode, i)].data.len() <= size
            }
            &&& forall|k: (u64, u64)|
                k.0 != inode ==> (#[trigger] after.chunks.chunks.contains_key(k)
                    == fs.chunks.chunks.contains_key(k)) && (fs.chunks.chunks.contains_key(k)
                    ==> after.chunks.chunks[k] == fs.chunks.chunks[k])
        }),
{
    let cs = fs.chunks.chunk_size;
    let after = data_resized(fs, inode, size, now);
    if !fs.inline.contains_key(inode) {
        assert forall|i: u64| #[trigger] after.chunks.chunks.contains_key((inode, i)) implies
            fs.chunks.chunks.contains_key((inode, i)) && i * cs < size by {
            assert(i * cs >= 0) by (nonlinear_arith);
        }
        assert forall|i: u64| fs.chunks.chunks.contains_key((inode, i)) && i * cs
            < size implies #[trigger] after.chunks.chunks.contains_key((inode, i)) by {
            assert(i * cs >= 0) by (nonlinear_arith);
        }
        assert forall|i: u64, b: int|
            fs.chunks.chunks.contains_key((inode, i)) && 0 <= b < fs.chunks.chunks[(
                inode,
                i,
            )].data.len() && i * cs + b < size implies b < after.chunks.chunks[(
            inode,
            i,
        )].data.len() && #[trigger] after.chunks.chunks[(inode, i)].data[b]
            == fs.chunks.chunks[(inode, i)].data[b] by {
            assert(after.chunks.chunks.contains_key((inode, i)));
        }
    }
}

/// The chunk list of a file that was cut lists exactly the chunks that start before
/// the cut, in the same place and under the same needles, and vouches for no byte
/// behind it.
pub proof fn law_resized_lists_keep_their_start(fs: FsView, inode: u64, size: u64, now: Now)
    requires
        fs.meta.has(inode),
        !fs.inline.contains_key(inode),
    ensures
        ({
            let list = fs.meta.entries[inode].chunks;
            let cut = data_resized(fs, inode, size, now).meta.entries[inode].chunks;
            &&& forall|j: int|
                0 <= j < cut.len() ==> (#[trigger] cut[j]).offset < size && cut[j].offset
                    + cut[j].size <= size && exists|i: int|
                    0 <= i < list.len() && is_cut_of(#[trigger] list[i], cut[j], size)
            &&& forall|i: int|
                0 <= i < list.len() && (#[trigger] list[i]).offset < size ==> exists|j: int|
                    0 <= j < cut.len() && is_cut_of(list[i], #[trigger] cut[j], size)
            &&& cut.len() <= list.len()
        }),
{
    let list = fs.meta.entries[inode].chunks;
    let cut = data_resized(fs, inode, size, now).meta.entries[inode].chunks;
    lemma_cut(list, size);
    if size > 0 {
        assert(cut == chunks_cut(list, size));
    } else {
        assert(cut.len() == 0);
        assert forall|i: int| 0 <= i < list.len() implies (#[trigger] list[i]).offset >= size by {}
    }
}

/// A change of attributes sets what was asked for, to the given value, and nothing
/// else. A time can be given or be this moment.
pub proof fn law_setattr_sets_what_was_asked(
    fs: FsView,
    inode: u64,
    valid: SetattrValid,
    stat: Stat,
    now: Now,
)
    requires
        fs.meta.has(inode),
        stat.size >= 0,
        stat.atime >= 0,
        stat.mtime >= 0,
        now.unix_secs >= 0,
    ensures
        ({
            let p = setattr_of(valid, stat, now.unix_secs);
            let x = fs.meta.entries[inode];
            let y = attrs_set(fs, inode, p, now).meta.entries[inode];
            &&& y.mode == if valid.mode {
                stat.mode & 0o7777
            } else {
                x.mode
            }
            &&& y.uid == if valid.uid {
                stat.uid
            } else {
                x.uid
            }
            &&& y.gid == if valid.gid {
                stat.gid
            } else {
                x.gid
            }
            &&& y.size == if valid.size {
                stat.size as u64
            } else {
                x.size
            }
            &&& y.atime == if valid.atime_now {
                now.unix_secs
            } else if valid.atime {
                stat.atime
            } else {
                x.atime
            }
            &&& !valid.size ==> y.mtime == if valid.mtime_now {
                now.unix_secs
            } else if valid.mtime {
                stat.mtime
            } else {
                x.mtime
            }
            &&& y.ctime == now.unix_secs
            &&& y.nlink == x.nlink && y.fid == x.fid && y.parent == x.parent && y.name == x.name
                && y.is_dir == x.is_dir && y.hold == x.hold && y.xattrs == x.xattrs
            &&& !valid.size ==> y.chunks == x.chunks && y.content_size == x.content_size
            &&& !valid.size ==> attrs_set(fs, inode, p, now).chunks == fs.chunks && attrs_set(
                fs,
                inode,
                p,
                now,
            ).inline == fs.inline
        }),
{
}

/// The inode is in use or has changes of its own: it is open, its entry is being
/// changed or flushed, one of its cached chunks is dirty, or its buffer is.
pub open spec fn in_use(fs: FsView, inode: u64) -> bool {
    ||| fs.open.contains_key(inode)
    ||| fs.meta.has(inode) && (fs.meta.entries[inode].hold is Pinned)
    ||| fs.meta.has(inode) && (fs.meta.entries[inode].state is Dirty
        || fs.meta.entries[inode].state is Flushing)
    ||| exists|i: u64| #[trigger]
        fs.chunks.chunks.contains_key((inode, i)) && fs.chunks.chunks[(inode, i)].dirty
    ||| fs.inline.contains_key(inode) && fs.inline[inode].dirty
}

/// A notification takes no inode out of the cache that is in use or has changes of
/// its own, and no data of it; any other inode that is older than the notification
/// goes, with its data and its buffer, and the kernel is told to forget it.
pub proof fn law_notifications_respect_use(fs: FsView, seen: SeenView, inode: u64, version: u64)
    requires
        inode != 0,
        inode != ROOT_INODE,
    ensures
        ({
            let after = invalidate_handled(fs, seen, inode, version);
            let known = seen.inodes.contains_key(inode) && version <= seen.inodes[inode];
            let older = fs.meta.has(inode) ==> fs.meta.entries[inode].generation < version;
            &&& known ==> after == fs
            &&& known || in_use(fs, inode) || !older ==> {
                &&& after.meta.has(inode) == fs.meta.has(inode)
                &&& fs.meta.has(inode) ==> after.meta.entries[inode].size
                    == fs.meta.entries[inode].size && after.meta.entries[inode].chunks
                    == fs.meta.entries[inode].chunks && after.meta.entries[inode].hold
                    == fs.meta.entries[inode].hold && after.meta.entries[inode].state
                    == fs.meta.entries[inode].state
                &&& after.chunks == fs.chunks
                &&& after.inline.contains_key(inode) == fs.inline.contains_key(inode)
                &&& fs.inline.contains_key(inode) ==> after.inline[inode].data
                    == fs.inline[inode].data
                &&& invalidate_forgets(fs, seen, inode, version).len() == 0
            }
            &&& !known && !in_use(fs, inode) && older ==> {
                &&& !after.meta.has(inode)
                &&& forall|i: u64| !#[trigger] after.chunks.chunks.contains_key((inode, i))
                &&& !after.inline.contains_key(inode)
                &&& invalidate_forgets(fs, seen, inode, version).contains(inode)
                &&& fs.meta.has(inode) ==> invalidate_forgets(fs, seen, inode, version).contains(
                    fs.meta.entries[inode].parent,
                )
            }
            &&& forall|k: u64|
                k != inode ==> #[trigger] after.meta.has(k) == fs.meta.has(k)
            &&& forall|k: (u64, u64)|
                k.0 != inode ==> #[trigger] after.chunks.chunks.contains_key(k)
                    == fs.chunks.chunks.contains_key(k)
            &&& after.waiting == fs.waiting
            &&& after.open == fs.open
        }),
{
    let f = invalidate_forgets(fs, seen, inode, version);
    if f.len() == 2 {
        assert(f[0] == fs.meta.entries[inode].parent && f[1] == inode);
    } else if f.len() == 1 {
        assert(f[0] == inode);
    }
    if exists|k: (u64, u64)| #[trigger]
        fs.chunks.chunks.contains_key(k) && k.0 == inode && fs.chunks.chunks[k].dirty {
        let k = choose|k: (u64, u64)| #[trigger]
            fs.chunks.chunks.contains_key(k) && k.0 == inode && fs.chunks.chunks[k].dirty;
        assert(fs.chunks.chunks.contains_key((inode, k.1)));
    }
}

/// Closing a file loses no data: no chunk and no buffer with bytes or changes
/// leaves the cache by it, a chunk counts as clean only once both data and metadata
/// reached the servers, and exactly one handle less is counted.
pub proof fn law_close_keeps_data(
    fs: FsView,
    inode: u64,
    flushed: bool,
    synced: bool,
    now_ms: u64,
    k: (u64, u64),
)
    ensures
        ({
            let a = chunks_closed(fs, inode, flushed, synced, now_ms);
            let b = inline_closed(fs, inode, synced, now_ms);
            &&& a.chunks.chunks.contains_key(k) == fs.chunks.chunks.contains_key(k)
            &&& fs.chunks.chunks.contains_key(k) ==> a.chunks.chunks[k].data
                == fs.chunks.chunks[k].data && a.chunks.chunks[k].dirty == (
            fs.chunks.chunks[k].dirty && !(synced && k.0 == inode))
            &&& a.inline == fs.inline
            &&& a.waiting == fs.waiting
            &&& b.chunks == fs.chunks
            &&& b.waiting == fs.waiting
            &&& fs.inline.contains_key(inode) && (fs.inline[inode].dirty
                || fs.inline[inode].data.len() > 0) ==> b.inline == fs.inline && b.limits
                == fs.limits
            &&& forall|i: u64|
                i != inode && fs.inline.contains_key(i) ==> #[trigger] b.inline.contains_key(i)
                    && b.inline[i] == fs.inline[i]
            &&& one_handle_less(fs.open, a.open, inode)
            &&& one_handle_less(fs.open, b.open, inode)
        }),
{
}

/// One handle on the inode less is counted, and none on any other.
pub open spec fn one_handle_less(
    before: Map<u64, usize>,
    after: Map<u64, usize>,
    inode: u64,
) -> bool {
    &&& before.contains_key(inode) && before[inode] > 1 ==> after.contains_key(inode)
        && after[inode] == before[inode] - 1
    &&& !before.contains_key(inode) || before[inode] <= 1 ==> !after.contains_key(inode)
    &&& forall|k: u64|
        k != inode ==> (#[trigger] after.contains_key(k) == before.contains_key(k)) && (
        before.contains_key(k) ==> after[k] == before[k])
}

/// The metadata of a file follows what became of its close: the last handle leaves
/// a file clean only where its data reached the server, and a file whose flush
/// failed keeps its handle on the entry.
pub proof fn law_close_is_honest(
    fs: FsView,
    inode: u64,
    flushed: bool,
    synced: bool,
    now_ms: u64,
)
    requires
        fs.meta.has(inode),
    ensures
        ({
            let a = chunks_closed(fs, inode, flushed, synced, now_ms).meta.entries[inode];
            let b = inline_closed(fs, inode, synced, now_ms).meta.entries[inode];
            let x = fs.meta.entries[inode];
            &&& !flushed ==> a.hold == x.hold && a.cap == x.cap
            &&& !synced ==> a.cap == x.cap && b.cap == x.cap
            &&& flushed && x.hold is Pinned && x.hold.count() > 1 ==> a.hold.count()
                == x.hold.count() - 1 && a.cap == x.cap
            &&& x.hold is Pinned && x.hold.count() > 1 ==> b.hold.count() == x.hold.count() - 1
                && b.cap == x.cap
            &&& x.hold is Pinned && x.hold.count() <= 1 ==> b.hold is Unpinned
            &&& !synced && x.state is Dirty ==> b.state is Dirty
            &&& a.size == x.size && a.chunks == x.chunks && b.size == x.size && b.chunks == x.chunks
        }),
{
}

/// A file that was created is open and cached, with the owner and permissions that
/// were asked for, empty, and with its data where the server put it. A file that
/// the server did not place is not opened.
pub proof fn law_created_files_are_open(
    fs: FsView,
    attr: &MetadataAttr,
    parent: u64,
    name: Seq<char>,
    mode: u32,
    uid: u32,
    gid: u32,
    now: Now,
)
    requires
        fs.open.contains_key(attr.inode) ==> fs.open[attr.inode] < usize::MAX,
    ensures
        ({
            let e = super::open::created_entry(attr, parent, name, mode, uid, gid, now);
            let after = created(fs, attr, parent, name, mode, uid, gid, now);
            let placed = attr.is_inline || attr.striped() || (attr.volume_id is Some
                && attr.file_key is Some);
            &&& !after.meta.dirs.contains_key(parent)
            &&& !placed ==> after.open == fs.open && after.inline == fs.inline
                && after.meta.entries == fs.meta.entries
            &&& placed ==> {
                &&& after.open.contains_key(attr.inode)
                &&& after.open[attr.inode] == (if fs.open.contains_key(attr.inode) {
                    fs.open[attr.inode] + 1
                } else {
                    1
                })
                &&& e.inode == attr.inode && e.parent == parent && e.name == name
                &&& e.uid == uid && e.gid == gid && e.size == 0 && e.content_size == 0
                &&& e.mtime == now.unix_secs && e.ctime == now.unix_secs && e.atime
                    == now.unix_secs
                &&& !e.is_dir && !e.is_symlink
                &&& attr.is_inline ==> e.fid is None && e.chunks.len() == 0
                    && after.inline.contains_key(attr.inode)
                    && after.inline[attr.inode].data.len() == 0 && after.limits.contains_key(
                    attr.inode,
                )
                &&& !attr.is_inline && !attr.striped() ==> e.fid is Some && Some(
                    e.fid->0.volume_id.0,
                ) == attr.volume_id && Some(e.fid->0.file_key) == attr.file_key
                &&& !attr.is_inline && attr.striped() ==> e.fid is None && e.placement
                    == attr.placement
            }
        }),
{
}

/// A sync of a small file leaves the server with the bytes of the buffer: what it
/// sends is added to what the server has, or takes its place, and gives the buffer
/// either way. Nothing is sent only where there is no change to tell.
pub proof fn law_sync_gives_the_server_the_buffer(
    fs: FsView,
    inode: u64,
    a: InlineSyncAction,
    server: Seq<u8>,
)
    requires
        round_action(fs, inode, a),
        fs.inline.contains_key(inode),
        fs.inline[inode].data.len() <= u64::MAX,
        !fs.inline[inode].modified_in_place && fs.inline[inode].original_len
            <= fs.inline[inode].data.len() ==> server == fs.inline[inode].data.take(
            fs.inline[inode].original_len as int,
        ),
    ensures
        ({
            let b = fs.inline[inode];
            match a {
                InlineSyncAction::Send { data, size, is_append } => {
                    &&& b.dirty
                    &&& !is_append ==> data@ == b.data && size == b.data.len()
                    &&& is_append ==> !b.modified_in_place && server + data@ == b.data
                },
                InlineSyncAction::Done { synced } => !synced && (!b.dirty || (server == b.data
                    && !b.modified_in_place)),
                _ => false,
            }
        }),
{
    let b = fs.inline[inode];
    if !b.modified_in_place && b.original_len <= b.data.len() {
        assert(server + b.data.skip(b.original_len as int) =~= b.data);
        if b.original_len == b.data.len() {
            assert(server =~= b.data);
        }
    }
}

/// An update that was taken leaves the buffer clean exactly if nothing was added
/// meanwhile, and never changes its bytes; one that was refused is sent again after
/// half a second more each time.
pub proof fn law_updates_are_settled(b: InlineView, st: InlineSync, attempt: u32)
    requires
        st.size <= usize::MAX,
    ensures
        ({
            let after = taken_by_server(b, st);
            &&& after.data == b.data
            &&& b.data.len() <= st.size ==> !after.dirty
            &&& b.data.len() > st.size ==> after.dirty == b.dirty
            &&& st.is_append ==> after.original_len == st.size
            &&& !st.is_append ==> after.original_len == b.original_len
        }),
        attempt < 5 ==> retry_after(attempt, false) == (RetryStep::WaitThenRetry {
            wait_ms: (500 * attempt) as u64,
        }),
        attempt >= 5 ==> retry_after(attempt, false) == RetryStep::GiveUp,
        retry_after(attempt, true) == RetryStep::Done,
{
}

/// The kernel is told the cached attributes of an open inode, of a directory that can
/// be answered, and of a file in step with the server; for anything else the server is
/// asked. Attributes of an open file are not to be kept.
pub proof fn law_attributes_are_told_from_the_cache(fs: FsView, inode: u64, now_ms: u64)
    requires
        fs.meta.has(inode),
    ensures
        ({
            let e = fs.meta.entries[inode];
            let r = getattr_answer(fs, inode, now_ms);
            let fresh = now_ms <= e.cached_at + fs.meta.ttl || e.hold is Pinned;
            &&& r matches Some(s) ==> s == stat_of(e)
            &&& fs.open.contains_key(inode) ==> r is Some
            &&& e.state is Clean && fresh ==> r is Some
            &&& !fs.open.contains_key(inode) && !e.is_dir && !(e.state is Clean) ==> r is None
            &&& !fs.open.contains_key(inode) && !e.is_dir && !fresh && e.state is Clean ==> r is None
            &&& fs.open.contains_key(inode) ==> attr_ttl(fs, inode) == 0
            &&& !fs.open.contains_key(inode) ==> attr_ttl(fs, inode) == 100
        }),
{
}

/// A file has something to tell the server exactly if one of its cached chunks or its
/// buffer is dirty. A clean buffer is worthless once the server's copy changed, or the
/// file has another length.
pub proof fn law_unsynced_means_dirty(fs: FsView, inode: u64, size: u64)
    ensures
        has_unsynced(fs, inode) <==> (exists|i: u64| #[trigger]
            fs.chunks.chunks.contains_key((inode, i)) && fs.chunks.chunks[(inode, i)].dirty) || (
        fs.inline.contains_key(inode) && fs.inline[inode].dirty),
        fs.inline.contains_key(inode) ==> (buffer_outdated(fs.inline[inode], size)
            <==> !fs.inline[inode].dirty && (fs.inline[inode].needs_refresh || size
            != fs.inline[inode].data.len())),
{
    if exists|k: (u64, u64)| #[trigger]
        fs.chunks.chunks.contains_key(k) && k.0 == inode && fs.chunks.chunks[k].dirty {
        let k = choose|k: (u64, u64)| #[trigger]
            fs.chunks.chunks.contains_key(k) && k.0 == inode && fs.chunks.chunks[k].dirty;
        assert(fs.chunks.chunks.contains_key((inode, k.1)));
    }
}

/// A name is forgotten at each change of it that was not seen before, and only then;
/// what was seen of it is never unseen.
pub proof fn law_names_are_forgotten_once(
    seen: SeenView,
    inode: u64,
    parent: u64,
    name: Seq<char>,
    version: u64,
)
    requires
        inode != 0,
    ensures
        ({
            let last = crate::names::find(seen.names_in(parent), name);
            let due = name_due(seen, parent, name, version);
            let after = invalidate_seen(seen, inode, version, parent, name);
            &&& due <==> parent != 0 && name.len() > 0 && (last is None || last->0 < version)
            &&& parent != 0 && name.len() > 0 ==> !name_due(after, parent, name, version)
            &&& due ==> crate::names::find(after.names_in(parent), name) == Some(version)
            &&& after.inodes.contains_key(inode) && after.inodes[inode] >= version
            &&& forall|k: u64|
                k != inode ==> #[trigger] after.inodes.contains_key(k) == seen.inodes.contains_key(k)
        }),
{
    crate::names::law_put(seen.names_in(parent), name, version, name);
}

/// What is read back for a partial write is what the write goes over: the data as it
/// came, or zeros where it could not be had.
pub proof fn law_writes_go_over_what_was_read(fetched: Option<Vec<u8>>, len: u64, i: int)
    ensures
        fetched matches Some(d) ==> kept_base(fetched, len) == d@,
        fetched is None ==> kept_base(fetched, len).len() == len && (0 <= i < len ==> kept_base(
            fetched,
            len,
        )[i] == 0),
{
}

/// The last close of a file whose data and metadata reached the servers gives its cap
/// back and lets the entry go.
pub proof fn law_last_close_lets_go(fs: FsView, inode: u64, now_ms: u64)
    requires
        fs.meta.has(inode),
        fs.meta.entries[inode].hold is Pinned,
        fs.meta.entries[inode].hold.count() <= 1,
    ensures
        ({
            let a = chunks_closed(fs, inode, true, true, now_ms).meta.entries[inode];
            let b = inline_closed(fs, inode, true, now_ms).meta.entries[inode];
            a.cap is None && a.hold is Unpinned && b.cap is None && b.hold is Unpinned
        }),
        fs.meta.entries[inode].state is Flushing && !(fs.inline.contains_key(inode)
            && fs.inline[inode].dirty) ==> inline_closed(
            fs,
            inode,
            true,
            now_ms,
        ).meta.entries[inode].state is Clean,
{
}

/// The life of an entry: it starts new, is clean while in step with the server, dirty
/// with local changes, and flushing while these are sent. Only a clean one goes out of
/// date, only by a fetch does that end, and a deleted one stays deleted.
pub proof fn law_entries_live_by_the_rules(a: EntryState, b: EntryState)
    ensures
        a.may_become(b) <==> a == b || (a is New && (b is Clean || b is Dirty)) || (a is Clean && (
        b is Dirty || b is Stale || b is Tombstone)) || (a is Dirty && (b is Flushing
            || b is Tombstone)) || (a is Flushing && (b is Clean || b is Dirty)) || (a is Stale && (
        b is Clean || b is Tombstone)),
        a.step(b) == if a.may_become(b) {
            b
        } else {
            a
        },
{
}

/// A change of size changes both sizes and the modification time, and nothing else.
pub proof fn law_resize_changes_the_size(v: MetaView, inode: u64, size: u64, now: Now, k: u64)
    requires
        v.has(inode),
    ensures
        ({
            let x = v.entries[inode];
            let y = v.resized(inode, size, now).entries[inode];
            &&& y.size == size && y.content_size == size && y.mtime == now.unix_secs
            &&& y.mode == x.mode && y.uid == x.uid && y.gid == x.gid && y.chunks == x.chunks && y.fid
                == x.fid && y.hold == x.hold && y.state == x.state && y.name == x.name && y.parent
                == x.parent && y.nlink == x.nlink && y.xattrs == x.xattrs
            &&& k != inode && v.has(k) ==> v.resized(inode, size, now).entries[k] == v.entries[k]
        }),
{
}

} // verus!
