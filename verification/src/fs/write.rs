//! Writing files: into the inline buffer of a small file, or into the cached
//! chunks of a large one; and holding writers back while the cache is full.

use super::data_laws::{is_left_alone, law_bytes_left_alone_are_read_first, lemma_kept_covers};
use super::read::{last_at, Needle};
use super::{FsView, PowerFsFs};
use crate::chunk_cache::{
    bytes_from_vec, bytes_slice, counter, evicted, ChunkData, ChunkView, ChunksView,
};
use crate::client_cap::{CapSet, CAP_W};
use crate::entry::{
    stripe_size_of, CachedEntry, CachedFileChunk, EntryState, EntryView, Fid, Now, VolumeId,
};
use crate::inline::{
    buffers_get, buffers_insert, buffers_remove, created_buffer, limits_get, limits_remove,
    migrate_threshold, migration_threshold, splice, spliced, zeros, InlineBuffer, InlineView,
    INLINE_HARD_LIMIT,
};
use crate::layout::{resolve_stripe_chunk, stripe_location};
use crate::meta_model::{sat_add, MetaView};
use crate::records::{as_unsigned, fid_of, to_unsigned};
use crate::scan::{EFBIG, ENOENT};
use vstd::prelude::*;

verus! {

/// A writer waits where the cache holds more than this part of its bound.
pub const BACKPRESSURE_THRESHOLD_PCT: u64 = 85;

/// A writer that waits goes on where the cache holds at most this part.
pub const BACKPRESSURE_TARGET_PCT: u64 = 70;

/// How often a waiting writer has the file system flushed.
pub const BACKPRESSURE_MAX_ITERS: u32 = 64;

/// The open flag of a file that is only appended to.
pub const FUSE_APPEND: u32 = 0x400;

/// A part of the cache's bound.
pub open spec fn share(max: usize, percent: u64) -> u64 {
    (max * percent / 100) as u64
}

/// What a writer does while the cache is full.
#[derive(Debug, Clone, Copy, PartialEq, Eq, Structural)]
pub enum Backpressure {
    /// Write.
    Proceed,
    /// Flush every file, then look again.
    Flush,
    /// The cache does not empty: give up rather than pile up data that cannot
    /// be stored.
    GiveUp,
}

/// What a write has to do next.
#[derive(Debug)]
pub enum WriteStep {
    /// The write failed.
    Fail { errno: i32 },
    /// The cached entry is out of date: ask the server for it, then begin again
    /// with the same data.
    Refetch { data: Vec<u8> },
    /// The write is done.
    Done { written: usize },
    /// The write is done, but no handle is open any more to bring the buffer
    /// to the server later: bring it there now.
    SyncInline { written: usize },
    /// The file has outgrown its metadata record: ask the server for a place
    /// on a volume for `merged`. The file then ends where the write ends.
    Migrate { merged: Vec<u8>, new_size: u64 },
    /// Write chunk by chunk.
    Chunks { plan: WritePlan },
}

/// A write to the chunks of a file.
#[derive(Debug)]
pub struct WritePlan {
    pub inode: u64,
    pub offset: u64,
    pub data: Vec<u8>,
    /// The entry before the write.
    pub entry: CachedEntry,
    pub first_chunk: u64,
    pub last_chunk: u64,
}

/// What the write of one chunk has to do next.
#[derive(Debug, Clone, Copy, PartialEq, Eq, Structural)]
pub enum ChunkWrite {
    /// The chunk is written.
    Done,
    /// The chunk holds data that the write leaves alone: read `len` bytes of
    /// this needle first.
    ReadFirst { needle: Needle, len: u64 },
}

/// The part of a write that falls into one chunk.
#[derive(Debug, Clone, Copy, PartialEq, Eq, Structural)]
pub struct Piece {
    /// Where the chunk starts in the file.
    pub start: u64,
    /// Where the part starts in the chunk.
    pub within: u64,
    /// Where the part starts in the written data.
    pub from: u64,
    /// How long the part is.
    pub len: u64,
}

/// The part of a write of `len` bytes at `offset` that falls into chunk `idx`.
pub open spec fn piece_of(offset: int, len: int, chunk_size: int, idx: int) -> Piece {
    let start = idx * chunk_size;
    let from = if offset > start {
        offset
    } else {
        start
    };
    let to = if offset + len < start + chunk_size {
        offset + len
    } else {
        start + chunk_size
    };
    Piece {
        start: start as u64,
        within: (from - start) as u64,
        from: (from - offset) as u64,
        len: (to - from) as u64,
    }
}

/// The bytes of a write that fall into a chunk.
pub open spec fn piece_bytes(data: Seq<u8>, p: Piece) -> Seq<u8> {
    data.subrange(p.from as int, p.from + p.len)
}

/// The chunk has data before or behind the written part that the write leaves
/// alone, as far as the size of the file before the write tells.
pub open spec fn keeps_data(p: Piece, content_size: u64, chunk_size: u64) -> bool {
    let existing = content_size - p.start;
    let behind = p.within + p.len;
    (p.within > 0 && existing > 0) || (behind < chunk_size && existing > behind)
}

/// The needle whose data a write has to keep: none for a chunk of a striped
/// file that was never flushed.
pub open spec fn kept_needle(e: EntryView, chunk_size: u64, idx: u64, start: u64) -> Option<
    Needle,
> {
    if writes_striped(e) {
        match last_at(e.chunks, start) {
            Some(c) => if c.size > 0 {
                Some(
                    match stripe_location(e.placement->0, e.chunks, start, chunk_size) {
                        Some((v, n)) => Needle { volume_id: v, needle_id: n },
                        None => Needle { volume_id: c.volume_id, needle_id: c.needle_id },
                    },
                )
            } else {
                None
            },
            None => None,
        }
    } else {
        Some(
            match last_at(e.chunks, start) {
                Some(c) => Needle { volume_id: c.volume_id, needle_id: c.needle_id },
                None => Needle {
                    volume_id: e.fid->0.volume_id.0,
                    needle_id: sat_add(e.fid->0.file_key, idx),
                },
            },
        )
    }
}

/// Writes to the file go to stripe units.
pub open spec fn writes_striped(e: EntryView) -> bool {
    e.fid is None && e.placement is Some && stripe_size_of(e.placement->0) is Some
}

/// How far the stripe units of a file reach.
pub open spec fn stripe_reach(e: EntryView) -> int {
    let reach = e.chunks.len() * stripe_size_of(e.placement->0)->0;
    if reach > u64::MAX {
        u64::MAX as int
    } else {
        reach
    }
}

/// The offset at which a write starts: an appending one starts at the end.
pub open spec fn write_offset(
    meta: MetaView,
    inode: u64,
    offset: u64,
    append: bool,
    now_ms: u64,
) -> u64 {
    match meta.answer(inode, now_ms) {
        Some(e) => if append {
            e.size
        } else {
            offset
        },
        None => offset,
    }
}

/// The state after a buffer was written and the file's size follows it.
pub open spec fn buffer_written(fs: FsView, inode: u64, b: InlineView, now: Now) -> FsView {
    FsView {
        inline: fs.inline.insert(inode, b),
        meta: fs.meta.resized(inode, b.data.len() as u64, now).cap_dirtied(inode, CapSet(CAP_W)),
        ..fs
    }
}

/// The size limit of a small file.
pub open spec fn limit_of(fs: FsView, inode: u64) -> u64 {
    if fs.limits.contains_key(inode) {
        fs.limits[inode] as u64
    } else {
        INLINE_HARD_LIMIT
    }
}

/// The state after a file moved out of its metadata record onto a volume.
pub open spec fn migrated(
    fs: FsView,
    inode: u64,
    merged: Seq<u8>,
    new_size: u64,
    volume_id: u64,
    needle_id: u64,
    now: Now,
) -> FsView {
    let mtime = as_unsigned(now.unix_secs);
    let chunk = CachedFileChunk {
        offset: 0,
        size: new_size,
        mtime,
        needle_id,
        volume_id,
        crc32: 0,
    };
    FsView {
        chunks: fs.chunks.stored(inode, 0, merged, mtime, 0),
        meta: fs.meta.fid_set(inode, fid_of(volume_id, needle_id)).chunks_set(
            inode,
            seq![chunk],
        ).resized(inode, new_size, now).cap_dirtied(inode, CapSet(CAP_W)),
        inline: fs.inline.remove(inode),
        limits: fs.limits.remove(inode),
        ..fs.marked_dirty(inode, 0)
    }
}

/// The state after a chunk was written over a base: the chunk is cached, dirty,
/// and waits for a flush.
pub open spec fn chunk_put(
    fs: FsView,
    plan_inode: u64,
    idx: u64,
    p: Piece,
    base: Seq<u8>,
    bytes: Seq<u8>,
    mtime: i64,
) -> FsView {
    FsView {
        chunks: fs.chunks.stored(
            plan_inode,
            p.start,
            spliced(base, p.within as int, bytes),
            as_unsigned(mtime),
            0,
        ),
        ..fs
    }.marked_dirty(plan_inode, idx)
}

/// The state after a cached chunk was overwritten in part.
pub open spec fn chunk_patched(
    fs: FsView,
    plan_inode: u64,
    idx: u64,
    p: Piece,
    bytes: Seq<u8>,
    mtime: i64,
) -> FsView {
    FsView {
        chunks: fs.chunks.rewritten(
            plan_inode,
            p.start,
            spliced(fs.chunks.at(plan_inode, p.start)->0.data, p.within as int, bytes),
            as_unsigned(mtime),
        ),
        ..fs
    }.marked_dirty(plan_inode, idx)
}

/// A plan that a chunk write can follow.
pub open spec fn plan_ok(plan: WritePlan, chunk_size: u64) -> bool {
    &&& plan.data@.len() > 0
    &&& plan.offset + plan.data@.len() <= usize::MAX
    &&& plan.offset + plan.data@.len() <= u64::MAX
    &&& chunk_size > 0
    &&& plan.first_chunk == plan.offset as int / chunk_size as int
    &&& plan.last_chunk == (plan.offset + plan.data@.len() - 1) / chunk_size as int
    &&& writes_striped(plan.entry@) || plan.entry@.fid is Some
}

/// The data read back for a chunk, or zeros in its place.
pub open spec fn kept_base(fetched: Option<Vec<u8>>, len: u64) -> Seq<u8> {
    match fetched {
        Some(d) => d@,
        None => Seq::new(len as nat, |i: int| 0u8),
    }
}

/// How much of a chunk the file had before the write.
pub open spec fn kept_len(content_size: u64, start: u64, chunk_size: u64) -> u64 {
    if content_size - start < chunk_size {
        (content_size - start) as u64
    } else {
        chunk_size
    }
}

pub proof fn lemma_piece(offset: int, len: int, chunk_size: int, idx: int)
    requires
        0 <= offset,
        0 < len,
        0 < chunk_size,
        offset / chunk_size <= idx <= (offset + len - 1) / chunk_size,
    ensures
        0 <= idx * chunk_size < offset + len,
        offset < (idx + 1) * chunk_size,
        (idx + 1) * chunk_size == idx * chunk_size + chunk_size,
        (idx * chunk_size) / chunk_size == idx,
{
    assert(0 <= idx * chunk_size <= offset + len - 1) by (nonlinear_arith)
        requires
            0 <= offset / chunk_size,
            offset / chunk_size <= idx <= (offset + len - 1) / chunk_size,
            0 < chunk_size,
    ;
    assert(offset < (idx + 1) * chunk_size) by (nonlinear_arith)
        requires
            offset / chunk_size <= idx,
            0 < chunk_size,
    ;
    assert((idx + 1) * chunk_size == idx * chunk_size + chunk_size) by (nonlinear_arith);
    assert((idx * chunk_size) / chunk_size == idx) by (nonlinear_arith)
        requires
            0 < chunk_size,
    ;
}

impl PowerFsFs {
    /// A part of the chunk cache's bound.
    fn cache_share(&self, percent: u64) -> (r: u64)
        requires
            percent <= 100,
        ensures
            r == share(self@.chunks.max_bytes, percent),
    {
        let max: u128 = self.chunk_cache.max_bytes() as u128;
        proof {
            let m = max as int;
            let p = percent as int;
            assert(0 <= m * p <= m * 100) by (nonlinear_arith)
                requires
                    0 <= p <= 100,
                    0 <= m,
            ;
        }
        (max * (percent as u128) / 100) as u64
    }

    /// True if a writer has to wait: the cache is bounded and holds more than
    /// the threshold.
    pub fn backpressure_due(&self) -> (r: bool)
        requires
            self.wf(),
        ensures
            r == (self@.chunks.max_bytes > 0 && counter(self@.chunks.chunks) > share(
                self@.chunks.max_bytes,
                BACKPRESSURE_THRESHOLD_PCT,
            )),
    {
        proof {
            self.lemma_parts();
        }
        self.chunk_cache.max_bytes() > 0 && self.chunk_cache.current_bytes() > self.cache_share(
            BACKPRESSURE_THRESHOLD_PCT,
        )
    }

    /// What a waiting writer does after `flushes` flushes.
    pub fn backpressure_next(&self, flushes: u32) -> (r: Backpressure)
        requires
            self.wf(),
        ensures
            r == if counter(self@.chunks.chunks) <= share(
                self@.chunks.max_bytes,
                BACKPRESSURE_TARGET_PCT,
            ) {
                Backpressure::Proceed
            } else if flushes >= BACKPRESSURE_MAX_ITERS {
                Backpressure::GiveUp
            } else {
                Backpressure::Flush
            },
    {
        proof {
            self.lemma_parts();
        }
        if self.chunk_cache.current_bytes() <= self.cache_share(BACKPRESSURE_TARGET_PCT) {
            Backpressure::Proceed
        } else if flushes >= BACKPRESSURE_MAX_ITERS {
            Backpressure::GiveUp
        } else {
            Backpressure::Flush
        }
    }

    /// After a flush, throw clean chunks out until the cache holds at most the
    /// target.
    pub fn backpressure_evict(&mut self)
        requires
            old(self).wf(),
        ensures
            final(self).wf(),
            final(self)@ == (FsView {
                chunks: ChunksView {
                    chunks: evicted(
                        old(self)@.chunks.chunks,
                        share(old(self)@.chunks.max_bytes, BACKPRESSURE_TARGET_PCT),
                    ),
                    ..old(self)@.chunks
                },
                ..old(self)@
            }),
    {
        let target: u64 = self.cache_share(BACKPRESSURE_TARGET_PCT);
        let _freed: u64 = self.chunk_cache.evict_clean_to(target);
    }

    /// The offset at which a write would start; none where the file is not
    /// cached.
    pub fn write_position(&mut self, inode: u64, offset: u64, append: bool, now_ms: u64) -> (r:
        Option<u64>)
        requires
            old(self).wf(),
        ensures
            final(self).wf(),
            final(self)@ == (FsView { meta: old(self)@.meta.fetched(inode, now_ms), ..old(self)@ }),
            r == match old(self)@.meta.answer(inode, now_ms) {
                Some(e) => Some(
                    write_offset(old(self)@.meta, inode, offset, append, now_ms),
                ),
                None => None,
            },
    {
        match self.cache.get_inode(inode, now_ms) {
            Some(e) => if append {
                Some(e.size)
            } else {
                Some(offset)
            },
            None => None,
        }
    }

    /// Begin to write `data` at `offset`, or at the end of the file with
    /// `append`. A file that is not cached cannot be written; one whose entry is
    /// out of date is fetched first.
    pub fn write_begin(
        &mut self,
        inode: u64,
        offset: u64,
        append: bool,
        data: Vec<u8>,
        now: Now,
    ) -> (r: WriteStep)
        requires
            old(self).wf(),
            data@.len() > 0,
            write_offset(old(self)@.meta, inode, offset, append, now.mono_ms) + data@.len()
                <= usize::MAX,
        ensures
            final(self).wf(),
            ({
                let looked = FsView {
                    meta: old(self)@.meta.fetched(inode, now.mono_ms),
                    ..old(self)@
                };
                let at = write_offset(old(self)@.meta, inode, offset, append, now.mono_ms);
                match old(self)@.meta.answer(inode, now.mono_ms) {
                    None => {
                        &&& final(self)@ == looked
                        &&& if old(self)@.meta.needs_refetch(inode, now.mono_ms) {
                            r matches WriteStep::Refetch { data: d } && d@ == data@
                        } else {
                            r == WriteStep::Fail { errno: ENOENT }
                        }
                    },
                    Some(e) => write_step(looked, inode, at, data@, e, now, r, final(self)@),
                }
            }),
    {
        let e: CachedEntry = match self.cache.get_inode(inode, now.mono_ms) {
            Some(e) => e,
            None => {
                if self.keeps_entry(inode) {
                    return WriteStep::Refetch { data };
                }
                return WriteStep::Fail { errno: ENOENT };
            },
        };
        proof {
            self.lemma_parts();
        }
        let at: u64 = if append {
            e.size
        } else {
            offset
        };
        let written: usize = data.len();
        let new_end: u64 = at + written as u64;
        if let Some(b) = buffers_get(&self.inline_buffers, inode) {
            let max_size: u32 = match limits_get(&self.inline_max_sizes, inode) {
                Some(n) => n,
                None => 8192,
            };
            if new_end > migration_threshold(max_size) {
                let merged: Vec<u8> = splice(b.data.as_slice(), at as usize, data.as_slice());
                return WriteStep::Migrate { merged, new_size: new_end };
            }
            let mut b: InlineBuffer = b;
            b.write_at(at as usize, data.as_slice());
            self.put_buffer(inode, b, now);
            if !self.cache.is_pinned(inode) {
                self.cache.mark_flushing(inode);
                return WriteStep::SyncInline { written };
            }
            return WriteStep::Done { written };
        }
        let striped: bool = match (&e.placement, &e.fid) {
            (Some(p), None) => p.stripe_size().is_some(),
            _ => false,
        };
        assert(striped == writes_striped(e@));
        if striped {
            let size: u64 = match &e.placement {
                Some(p) => match p.stripe_size() {
                    Some(s) => s,
                    None => 0,
                },
                None => 0,
            };
            let units: u64 = e.chunks.len() as u64;
            proof {
                let a = units as int;
                let b = size as int;
                assert(0 <= a * b <= 0xffff_ffff_ffff_ffff * 0xffff_ffff_ffff_ffff)
                    by (nonlinear_arith)
                    requires
                        0 <= a <= 0xffff_ffff_ffff_ffff,
                        0 <= b <= 0xffff_ffff_ffff_ffff,
                ;
            }
            let reach: u128 = (units as u128) * (size as u128);
            if new_end as u128 > reach {
                return WriteStep::Fail { errno: EFBIG };
            }
        }
        if striped || e.fid.is_some() {
            let first_chunk: u64 = self.chunk_cache.get_chunk_index(at);
            let last_chunk: u64 = self.chunk_cache.get_chunk_index(new_end - 1);
            return WriteStep::Chunks {
                plan: WritePlan { inode, offset: at, data, entry: e, first_chunk, last_chunk },
            };
        }
        let empty: Vec<u8> = Vec::new();
        assert(empty@ =~= Seq::<u8>::empty());
        if new_end > INLINE_HARD_LIMIT {
            let merged: Vec<u8> = splice(empty.as_slice(), at as usize, data.as_slice());
            return WriteStep::Migrate { merged, new_size: new_end };
        }
        let mut b = InlineBuffer {
            data: empty,
            dirty: false,
            original_len: 0,
            modified_in_place: false,
            needs_refresh: false,
        };
        b.write_at(at as usize, data.as_slice());
        self.put_buffer(inode, b, now);
        WriteStep::Done { written }
    }

    /// Keep a written buffer, and let the file's size follow it.
    fn put_buffer(&mut self, inode: u64, b: InlineBuffer, now: Now)
        requires
            old(self).wf(),
        ensures
            final(self).wf(),
            final(self)@ == buffer_written(old(self)@, inode, b@, now),
    {
        let size: u64 = b.data.len() as u64;
        buffers_insert(&mut self.inline_buffers, inode, b);
        self.cache.update_size(inode, size, now);
        self.cache.mark_dirty_cap_w(inode);
    }

    /// The buffer of a file without open handles was brought to the server, or
    /// was not. Brought there, it is dropped, and the entry is out of date, so
    /// that the next open asks the server.
    pub fn write_inline_synced(&mut self, inode: u64, synced: bool, now_ms: u64)
        requires
            old(self).wf(),
        ensures
            final(self).wf(),
            final(self)@ == if synced {
                let v = old(self)@;
                let drop_it = v.inline.contains_key(inode) && !v.inline[inode].dirty;
                FsView {
                    meta: v.meta.cleaned(inode, now_ms).stepped(inode, EntryState::Stale),
                    inline: if drop_it {
                        v.inline.remove(inode)
                    } else {
                        v.inline
                    },
                    limits: if drop_it {
                        v.limits.remove(inode)
                    } else {
                        v.limits
                    },
                    ..v
                }
            } else {
                FsView {
                    meta: old(self)@.meta.stepped(inode, EntryState::Dirty),
                    ..old(self)@
                }
            },
    {
        if synced {
            self.cache.mark_clean(inode, now_ms);
            if let Some(b) = buffers_get(&self.inline_buffers, inode) {
                if !b.dirty {
                    let _had: bool = buffers_remove(&mut self.inline_buffers, inode);
                    limits_remove(&mut self.inline_max_sizes, inode);
                }
            }
            self.cache.mark_stale(inode);
        } else {
            self.cache.mark_dirty(inode);
        }
    }

    /// The server gave a file that outgrew its metadata record a place on a
    /// volume, or did not. With one, the data waits there for a flush; without,
    /// the write fails and the buffer is as it was.
    pub fn write_migrated(
        &mut self,
        inode: u64,
        merged: Vec<u8>,
        new_size: u64,
        place: Option<(u64, u64)>,
        now: Now,
    ) -> (r: Result<(), i32>)
        requires
            old(self).wf(),
        ensures
            final(self).wf(),
            match place {
                Some((v, n)) => r is Ok && final(self)@ == migrated(
                    old(self)@,
                    inode,
                    merged@,
                    new_size,
                    v,
                    n,
                    now,
                ),
                None => r == Err::<(), i32>(EFBIG) && final(self)@ == old(self)@,
            },
    {
        match place {
            None => Err(EFBIG),
            Some((volume_id, needle_id)) => {
                let mtime: u64 = to_unsigned(now.unix_secs);
                self.chunk_cache.put(inode, 0, bytes_from_vec(merged), mtime, 0);
                self.mark_dirty(inode, 0);
                self.cache.update_fid(
                    inode,
                    Fid { volume_id: VolumeId(volume_id), cookie: 0, file_key: needle_id },
                );
                let mut chunks: Vec<CachedFileChunk> = Vec::new();
                chunks.push(
                    CachedFileChunk {
                        offset: 0,
                        size: new_size,
                        mtime,
                        needle_id,
                        volume_id,
                        crc32: 0,
                    },
                );
                assert(chunks@ =~= seq![chunks@[0]]);
                self.cache.update_chunks(inode, chunks);
                self.cache.update_size(inode, new_size, now);
                let _had: bool = buffers_remove(&mut self.inline_buffers, inode);
                limits_remove(&mut self.inline_max_sizes, inode);
                self.cache.mark_dirty_cap_w(inode);
                Ok(())
            },
        }
    }

    /// The part of a write that falls into chunk `idx`.
    fn find_piece(&self, plan: &WritePlan, idx: u64) -> (r: Piece)
        requires
            self.wf(),
            plan_ok(*plan, self@.chunks.chunk_size),
            plan.first_chunk <= idx <= plan.last_chunk,
        ensures
            r == piece_of(
                plan.offset as int,
                plan.data@.len() as int,
                self@.chunks.chunk_size as int,
                idx as int,
            ),
            r.from + r.len <= plan.data@.len(),
            r.len > 0,
            r.within + r.len <= self@.chunks.chunk_size,
            r.start + r.within + r.len <= plan.offset + plan.data@.len(),
            self@.chunks.key(plan.inode, r.start) == (plan.inode, idx),
    {
        proof {
            self.lemma_parts();
            lemma_piece(
                plan.offset as int,
                plan.data@.len() as int,
                self@.chunks.chunk_size as int,
                idx as int,
            );
        }
        let cs: u64 = self.chunk_cache.chunk_size();
        let start: u64 = idx * cs;
        let end: u64 = plan.offset + plan.data.len() as u64;
        let from: u64 = if plan.offset > start {
            plan.offset
        } else {
            start
        };
        let to: u64 = if end - start < cs {
            end
        } else {
            start + cs
        };
        Piece { start, within: from - start, from: from - plan.offset, len: to - from }
    }

    /// Write the part of the data that falls into chunk `idx`. A cached chunk
    /// is overwritten in part. Where the chunk is not cached and the file has
    /// data in it that the write leaves alone, that data is needed first.
    pub fn write_chunk(&mut self, plan: &WritePlan, idx: u64) -> (r: ChunkWrite)
        requires
            old(self).wf(),
            plan_ok(*plan, old(self)@.chunks.chunk_size),
            plan.first_chunk <= idx <= plan.last_chunk,
        ensures
            final(self).wf(),
            ({
                let v = old(self)@;
                let cs = v.chunks.chunk_size;
                let e = plan.entry@;
                let p = piece_of(
                    plan.offset as int,
                    plan.data@.len() as int,
                    cs as int,
                    idx as int,
                );
                let bytes = piece_bytes(plan.data@, p);
                if v.chunks.at(plan.inode, p.start) is Some {
                    &&& r == ChunkWrite::Done
                    &&& final(self)@ == chunk_patched(v, plan.inode, idx, p, bytes, e.mtime)
                } else if keeps_data(p, e.content_size, cs) && kept_needle(
                    e,
                    cs,
                    idx,
                    p.start,
                ) is Some {
                    &&& r == ChunkWrite::ReadFirst {
                        needle: kept_needle(e, cs, idx, p.start)->0,
                        len: kept_len(e.content_size, p.start, cs),
                    }
                    &&& final(self)@ == v
                } else {
                    &&& r == ChunkWrite::Done
                    &&& final(self)@ == chunk_put(
                        v,
                        plan.inode,
                        idx,
                        p,
                        Seq::empty(),
                        bytes,
                        e.mtime,
                    )
                }
            }),
            r == ChunkWrite::Done && plan.entry@.fid is Some && !old(
                self,
            )@.chunks.chunks.contains_key((plan.inode, idx)) ==> forall|q: u64|
                !#[trigger] is_left_alone(*plan, old(self)@.chunks.chunk_size, idx, q),
            r matches ChunkWrite::ReadFirst { needle, len } ==> forall|q: u64| #[trigger]
                is_left_alone(*plan, old(self)@.chunks.chunk_size, idx, q) ==> q - idx * old(
                    self,
                )@.chunks.chunk_size < len,
    {
        let p: Piece = self.find_piece(plan, idx);
        proof {
            self.lemma_parts();
            lemma_kept_covers(*plan, self@.chunks.chunk_size, idx);
            if plan.entry@.fid is Some {
                law_bytes_left_alone_are_read_first(*plan, self@.chunks.chunk_size, idx);
            }
        }
        let bytes: &[u8] = vstd::slice::slice_subrange(
            plan.data.as_slice(),
            p.from as usize,
            (p.from + p.len) as usize,
        );
        assert(bytes@ =~= piece_bytes(plan.data@, p));
        let mtime: u64 = to_unsigned(plan.entry.mtime);
        let within: usize = p.within as usize;
        let ghost c0 = self@.chunks;
        let f = |c: ChunkData| -> (d: ChunkData)
            ensures
                d@ == (ChunkView {
                    data: spliced(c@.data, within as int, bytes@),
                    mtime,
                    ..c@
                }),
            {
                let data: Vec<u8> = splice(bytes_slice(&c.data), within, bytes);
                ChunkData {
                    data: bytes_from_vec(data),
                    offset: c.offset,
                    size: c.size,
                    mtime,
                    crc32: c.crc32,
                    dirty: c.dirty,
                }
            };
        if self.chunk_cache.modify(plan.inode, p.start, f) {
            assert(self@.chunks == c0.rewritten(
                plan.inode,
                p.start,
                spliced(c0.at(plan.inode, p.start)->0.data, p.within as int, bytes@),
                mtime,
            ));
            self.mark_dirty(plan.inode, idx);
            return ChunkWrite::Done;
        }
        let cs: u64 = self.chunk_cache.chunk_size();
        let content: u64 = plan.entry.content_size;
        let existing: u64 = if content > p.start {
            content - p.start
        } else {
            0
        };
        let behind: u64 = p.within + p.len;
        let keeps: bool = (p.within > 0 && existing > 0) || (behind < cs && existing > behind);
        assert(keeps == keeps_data(p, content, cs));
        if keeps {
            if let Some(needle) = self.find_kept(&plan.entry, idx, p.start) {
                let len: u64 = if existing < cs {
                    existing
                } else {
                    cs
                };
                return ChunkWrite::ReadFirst { needle, len };
            }
        }
        let empty: Vec<u8> = Vec::new();
        assert(empty@ =~= Seq::<u8>::empty());
        let data: Vec<u8> = splice(empty.as_slice(), within, bytes);
        self.chunk_cache.put(plan.inode, p.start, bytes_from_vec(data), mtime, 0);
        self.mark_dirty(plan.inode, idx);
        ChunkWrite::Done
    }

    /// The needle whose data a write has to keep.
    fn find_kept(&self, e: &CachedEntry, idx: u64, start: u64) -> (r: Option<Needle>)
        requires
            self.wf(),
            writes_striped(e@) || e@.fid is Some,
        ensures
            r == kept_needle(e@, self@.chunks.chunk_size, idx, start),
    {
        let cs: u64 = self.chunk_cache.chunk_size();
        let at: Option<CachedFileChunk> = super::read::find_last(&e.chunks, start);
        match (&e.placement, &e.fid) {
            (Some(p), None) => match at {
                Some(c) => if c.size > 0 {
                    Some(
                        match resolve_stripe_chunk(p, &e.chunks, start, cs) {
                            Some((v, n)) => Needle { volume_id: v, needle_id: n },
                            None => Needle { volume_id: c.volume_id, needle_id: c.needle_id },
                        },
                    )
                } else {
                    None
                },
                None => None,
            },
            (_, Some(f)) => Some(
                match at {
                    Some(c) => Needle { volume_id: c.volume_id, needle_id: c.needle_id },
                    None => Needle {
                        volume_id: f.volume_id.0,
                        needle_id: f.file_key.saturating_add(idx),
                    },
                },
            ),
            _ => None,
        }
    }

    /// The data that a chunk write has to keep was read, or could not be: then
    /// zeros stand in for it. The written part goes over it.
    pub fn write_chunk_over(&mut self, plan: &WritePlan, idx: u64, fetched: Option<Vec<u8>>)
        requires
            old(self).wf(),
            plan_ok(*plan, old(self)@.chunks.chunk_size),
            plan.first_chunk <= idx <= plan.last_chunk,
            plan.entry@.content_size > idx * old(self)@.chunks.chunk_size,
            old(self)@.chunks.chunk_size <= usize::MAX,
        ensures
            final(self).wf(),
            ({
                let v = old(self)@;
                let cs = v.chunks.chunk_size;
                let e = plan.entry@;
                let p = piece_of(
                    plan.offset as int,
                    plan.data@.len() as int,
                    cs as int,
                    idx as int,
                );
                final(self)@ == chunk_put(
                    v,
                    plan.inode,
                    idx,
                    p,
                    kept_base(fetched, kept_len(e.content_size, p.start, cs)),
                    piece_bytes(plan.data@, p),
                    e.mtime,
                )
            }),
    {
        let p: Piece = self.find_piece(plan, idx);
        proof {
            self.lemma_parts();
        }
        let cs: u64 = self.chunk_cache.chunk_size();
        let bytes: &[u8] = vstd::slice::slice_subrange(
            plan.data.as_slice(),
            p.from as usize,
            (p.from + p.len) as usize,
        );
        assert(bytes@ =~= piece_bytes(plan.data@, p));
        let existing: u64 = plan.entry.content_size - p.start;
        let len: u64 = if existing < cs {
            existing
        } else {
            cs
        };
        let base: Vec<u8> = match fetched {
            Some(d) => d,
            None => zeros(len as usize),
        };
        let data: Vec<u8> = splice(base.as_slice(), p.within as usize, bytes);
        self.chunk_cache.put(
            plan.inode,
            p.start,
            bytes_from_vec(data),
            to_unsigned(plan.entry.mtime),
            0,
        );
        self.mark_dirty(plan.inode, idx);
    }

    /// All chunks of a write are written: the file grows where the write went
    /// beyond its end, the chunk list follows, and the file is dirty.
    pub fn write_finish(&mut self, plan: &WritePlan, now: Now) -> (written: usize)
        requires
            old(self).wf(),
            plan_ok(*plan, old(self)@.chunks.chunk_size),
        ensures
            final(self).wf(),
            written == plan.data@.len(),
            final(self)@ == write_finished(old(self)@, *plan, now),
    {
        proof {
            self.lemma_parts();
        }
        let cs: u64 = self.chunk_cache.chunk_size();
        let len: u64 = plan.data.len() as u64;
        let new_size: u64 = plan.offset + len;
        if let Some(current) = self.cache.peek_inode(plan.inode) {
            if new_size > current.size {
                self.cache.update_size(plan.inode, new_size, now);
            }
        }
        match &plan.entry.fid {
            Some(fid) => {
                self.cache.update_chunk_sizes_after_write(plan.inode, plan.offset, len, cs, fid);
            },
            None => {
                if let Some(p) = &plan.entry.placement {
                    self.cache.update_chunk_sizes_after_write_stripe(
                        plan.inode,
                        plan.offset,
                        len,
                        cs,
                        p,
                        &plan.entry.chunks,
                    );
                }
            },
        }
        self.cache.mark_dirty_cap_w(plan.inode);
        plan.data.len()
    }
}

/// The state after all chunks of a write were written.
pub open spec fn write_finished(fs: FsView, plan: WritePlan, now: Now) -> FsView {
    let cs = fs.chunks.chunk_size;
    let len = plan.data@.len() as u64;
    let new_size = (plan.offset + len) as u64;
    let e = plan.entry@;
    let grown = if fs.meta.has(plan.inode) && new_size > fs.meta.entries[plan.inode].size {
        fs.meta.resized(plan.inode, new_size, now)
    } else {
        fs.meta
    };
    let listed = match e.fid {
        Some(fid) => grown.flat_written(plan.inode, plan.offset, len, cs, fid),
        None => grown.stripe_written(
            plan.inode,
            plan.offset,
            len,
            cs,
            e.placement->0,
            e.chunks,
        ),
    };
    FsView { meta: listed.cap_dirtied(plan.inode, CapSet(CAP_W)), ..fs }
}

/// What a write to a file whose entry is `e` does first.
pub open spec fn write_step(
    fs: FsView,
    inode: u64,
    at: u64,
    data: Seq<u8>,
    e: EntryView,
    now: Now,
    r: WriteStep,
    after: FsView,
) -> bool {
    let new_end = at + data.len();
    if fs.inline.contains_key(inode) {
        let b = fs.inline[inode];
        if new_end > migrate_threshold(limit_of(fs, inode)) {
            &&& r matches WriteStep::Migrate { merged, new_size } && new_size == new_end && merged@
                == spliced(b.data, at as int, data)
            &&& after == fs
        } else {
            let done = buffer_written(fs, inode, b.written(at, data), now);
            if done.meta.has(inode) && done.meta.entries[inode].hold is Pinned {
                r == WriteStep::Done { written: data.len() as usize } && after == done
            } else {
                &&& r == WriteStep::SyncInline { written: data.len() as usize }
                &&& after == FsView {
                    meta: done.meta.stepped(inode, EntryState::Flushing),
                    ..done
                }
            }
        }
    } else if writes_striped(e) && new_end > stripe_reach(e) {
        r == WriteStep::Fail { errno: EFBIG } && after == fs
    } else if writes_striped(e) || e.fid is Some {
        &&& r matches WriteStep::Chunks { plan } && {
            &&& plan.inode == inode
            &&& plan.offset == at
            &&& plan.data@ == data
            &&& plan.entry@ == e
            &&& plan_ok(plan, fs.chunks.chunk_size)
        }
        &&& after == fs
    } else if new_end > INLINE_HARD_LIMIT {
        &&& r matches WriteStep::Migrate { merged, new_size } && new_size == new_end && merged@
            == spliced(Seq::empty(), at as int, data)
        &&& after == fs
    } else {
        &&& r == WriteStep::Done { written: data.len() as usize }
        &&& after == buffer_written(fs, inode, created_buffer().written(at, data), now)
    }
}

} // verus!
