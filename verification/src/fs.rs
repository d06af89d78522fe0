//! The state of a mounted file system, and the flush of its dirty data.
//!
//! The mount talks to servers between the steps below; each step is handed
//! what a server answered and says what to ask next.

use self::data_laws::{is_sent_right, law_flush_sends_chunks_apart};
use crate::chunk_cache::{bytes_of, bytes_slice, ChunkCache, ChunksView};
use crate::dirty::{all_marked, law_remark_restores, marked, waiting_for, DirtySet, Waiting};
use crate::entry::{CachedEntry, EntryState, EntryView, Now};
use crate::file_locks::{FileLock, FileLocks};
use crate::inline::{
    buffers_new, buffers_of, cursors_new, cursors_of, limits_new, limits_of, InlineBuffer,
    InlineView,
};
use crate::layout::{resolve_stripe_chunk, stripe_location};
use crate::meta_model::{sat_add, MetaView, FILE_KEY_BLOCK_SIZE};
use crate::metadata_cache::MetadataCache;
use crate::scan::{EIO, ENOENT};
use bytes::Bytes;
use dashmap::DashMap;
use std::collections::HashMap;
use vstd::prelude::*;

pub mod attrs;
pub mod data_laws;
pub mod invalidate;
pub mod laws;
pub mod name_laws;
pub mod names;
pub mod op_laws;
pub mod open;
pub mod read;
pub mod step_laws;
pub mod sync;
pub mod write;

verus! {

/// How many chunks are sent to the volume servers at once.
pub const FLUSH_BATCH: usize = 32;

/// How long a lease on a file runs: 30 seconds.
pub const LEASE_DURATION_MS: u64 = 30_000;

/// How many bytes of a file one read lease covers: 64 MiB.
pub const LEASE_STRIPE_SIZE: u64 = 67_108_864;

/// The CRC-32 checksum of some bytes.
pub uninterp spec fn crc32_of(data: Seq<u8>) -> u32;

/// `crc32fast::hash` is the CRC-32 checksum of a slice. Its value is not
/// stated, only that it depends on the bytes alone.
#[verifier::external_body]
fn crc32(data: &[u8]) -> (r: u32)
    ensures
        r == crc32_of(data@),
{
    crc32fast::hash(data)
}

/// A checksum that a chunk may have: 0 stands for none.
pub open spec fn crc_fits(expected: u32, actual: u32) -> bool {
    expected == 0 || expected == actual
}

/// True if a chunk's checksum allows data with this checksum.
pub fn crc_accepts(expected: u32, actual: u32) -> (r: bool)
    ensures
        r == crc_fits(expected, actual),
{
    expected == 0 || expected == actual
}

/// True if a chunk's checksum allows this data.
pub fn data_intact(expected: u32, data: &[u8]) -> (r: bool)
    ensures
        r == crc_fits(expected, crc32_of(data@)),
{
    crc_accepts(expected, crc32(data))
}

/// What the state of a mount says.
pub struct FsView {
    pub meta: MetaView,
    pub chunks: ChunksView,
    /// Chunks that wait for a flush.
    pub waiting: Waiting,
    /// The background flusher has work.
    pub has_dirty: bool,
    /// The number of open handles of each open inode.
    pub open: Map<u64, usize>,
    /// The data of small files that are in use.
    pub inline: Map<u64, InlineView>,
    /// The size up to which a file's data stays in its metadata record.
    pub limits: Map<u64, u32>,
    /// Where the next page of a directory listing starts.
    pub cursors: Map<u64, Seq<char>>,
    /// Unlinks that the server has not been told of: directory, name, shard.
    pub pending: Seq<(u64, Seq<char>, u64)>,
    /// The server epoch that the cache belongs to.
    pub epoch: u64,
    pub locks: Map<u64, Seq<FileLock>>,
}

/// The state of a mount.
pub struct PowerFsFs {
    pub cache: MetadataCache,
    pub chunk_cache: ChunkCache,
    pub dirty: DirtySet,
    pub has_dirty: bool,
    pub open_inodes: HashMap<u64, usize>,
    pub inline_buffers: DashMap<u64, InlineBuffer>,
    pub inline_max_sizes: DashMap<u64, u32>,
    pub readdir_cursors: DashMap<u64, String>,
    pub pending_unlinks: Vec<(u64, String, u64)>,
    pub last_cache_epoch: u64,
    pub locks: FileLocks,
}

/// The unlinks of a list, with their names as characters.
pub open spec fn unlinks(v: Seq<(u64, String, u64)>) -> Seq<(u64, Seq<char>, u64)> {
    Seq::new(v.len(), |i: int| (v[i].0, v[i].1@, v[i].2))
}

impl View for PowerFsFs {
    type V = FsView;

    open spec fn view(&self) -> FsView {
        FsView {
            meta: self.cache@,
            chunks: self.chunk_cache@,
            waiting: self.dirty@,
            has_dirty: self.has_dirty,
            open: self.open_inodes@,
            inline: buffers_of(&self.inline_buffers),
            limits: limits_of(&self.inline_max_sizes),
            cursors: cursors_of(&self.readdir_cursors),
            pending: unlinks(self.pending_unlinks@),
            epoch: self.last_cache_epoch,
            locks: self.locks@,
        }
    }
}

/// A chunk on its way to a volume server.
pub struct FlushItemView {
    pub idx: u64,
    pub volume_id: u64,
    pub file_key: u64,
    pub offset: u64,
    pub data: Seq<u8>,
}

/// A chunk on its way to a volume server: its index in the file, the needle
/// that stores it, its place in the file, and its data.
#[derive(Debug)]
pub struct FlushItem {
    pub idx: u64,
    pub volume_id: u64,
    pub file_key: u64,
    pub offset: u64,
    pub data: Bytes,
}

impl View for FlushItem {
    type V = FlushItemView;

    open spec fn view(&self) -> FlushItemView {
        FlushItemView {
            idx: self.idx,
            volume_id: self.volume_id,
            file_key: self.file_key,
            offset: self.offset,
            data: bytes_of(&self.data),
        }
    }
}

/// What a list of items says.
pub open spec fn item_views(v: Seq<FlushItem>) -> Seq<FlushItemView> {
    Seq::new(v.len(), |i: int| v[i]@)
}

/// What a flush of an inode has to send.
#[derive(Debug)]
pub struct FlushJob {
    pub inode: u64,
    /// The chunks that waited.
    pub dirty: Vec<u64>,
    /// The chunks to send.
    pub items: Vec<FlushItem>,
    /// The chunks that have no place to go: beyond what a file may hold, or
    /// beyond its stripe units.
    pub stuck: Vec<u64>,
    /// The volume whose address must be known first, for a flat file.
    pub volume: Option<u64>,
}

/// The first step of a flush.
#[derive(Debug)]
pub enum FlushStep {
    /// There was nothing to do, or the flush failed.
    Finished { result: Result<(), i32> },
    /// Send the chunks of the job.
    Send { job: FlushJob },
}

/// A waiting chunk has no place to go: it lies beyond what a file may hold, or it
/// is cached and lies beyond the stripe units.
pub open spec fn is_stuck(chunks: ChunksView, inode: u64, e: EntryView, idx: u64) -> bool {
    idx >= FILE_KEY_BLOCK_SIZE || (chunks.at(inode, (idx * chunks.chunk_size) as u64) is Some
        && flush_target(e, idx, chunks.chunk_size) is None)
}

/// The waiting chunks of an inode that have no place to go.
pub open spec fn stuck_chunks(
    chunks: ChunksView,
    inode: u64,
    e: EntryView,
    dirty: Seq<u64>,
) -> Seq<u64>
    decreases dirty.len(),
{
    if dirty.len() == 0 {
        Seq::empty()
    } else {
        let before = stuck_chunks(chunks, inode, e, dirty.drop_last());
        if is_stuck(chunks, inode, e, dirty.last()) {
            before.push(dirty.last())
        } else {
            before
        }
    }
}

/// Where the chunk `idx` of a file goes: by the stripe units of a striped
/// file, or else by the file id.
pub open spec fn flush_target(e: EntryView, idx: u64, chunk_size: u64) -> Option<(u64, u64)> {
    if e.placement is Some && e.fid is None {
        stripe_location(e.placement->0, e.chunks, (idx * chunk_size) as u64, chunk_size)
    } else {
        match e.fid {
            Some(f) => Some((f.volume_id.0, sat_add(f.file_key, idx))),
            None => None,
        }
    }
}

/// The items that the waiting chunks of an inode give: those that a file may
/// hold, that are cached, and that have a place to go.
pub open spec fn flush_items(
    chunks: ChunksView,
    inode: u64,
    e: EntryView,
    dirty: Seq<u64>,
) -> Seq<FlushItemView>
    decreases dirty.len(),
{
    if dirty.len() == 0 {
        Seq::empty()
    } else {
        let before = flush_items(chunks, inode, e, dirty.drop_last());
        let idx = dirty.last();
        let offset = (idx * chunks.chunk_size) as u64;
        if idx < FILE_KEY_BLOCK_SIZE && chunks.at(inode, offset) is Some && flush_target(
            e,
            idx,
            chunks.chunk_size,
        ) is Some {
            let target = flush_target(e, idx, chunks.chunk_size)->0;
            before.push(
                FlushItemView {
                    idx,
                    volume_id: target.0,
                    file_key: target.1,
                    offset,
                    data: chunks.at(inode, offset)->0.data,
                },
            )
        } else {
            before
        }
    }
}

/// How far the answers to a flush were worked off.
pub struct FlushProgress {
    pub fs: FsView,
    pub flushed: Seq<u64>,
    pub failed: bool,
}

/// The progress after one more answer: a chunk that was not taken waits again,
/// one that was taken gets its checksum.
pub open spec fn flush_answered(
    p: FlushProgress,
    inode: u64,
    item: FlushItemView,
    taken: bool,
) -> FlushProgress {
    if taken {
        FlushProgress {
            fs: FsView {
                meta: p.fs.meta.crc_set(inode, item.offset, crc32_of(item.data)),
                ..p.fs
            },
            flushed: p.flushed.push(item.idx),
            ..p
        }
    } else {
        FlushProgress { fs: p.fs.marked_dirty(inode, item.idx), failed: true, ..p }
    }
}

/// The volume server took the item; one that it did not answer for it did not
/// take.
pub open spec fn was_taken(taken: Seq<bool>, i: int) -> bool {
    0 <= i < taken.len() && taken[i]
}

/// The progress after the first `n` answers.
pub open spec fn flush_progress(
    start: FsView,
    inode: u64,
    items: Seq<FlushItemView>,
    taken: Seq<bool>,
    n: int,
) -> FlushProgress
    decreases n,
{
    if n <= 0 {
        FlushProgress { fs: start, flushed: Seq::empty(), failed: false }
    } else {
        flush_answered(
            flush_progress(start, inode, items, taken, n - 1),
            inode,
            items[n - 1],
            was_taken(taken, n - 1),
        )
    }
}

/// The smaller of two numbers.
pub open spec fn min_int(a: int, b: int) -> int {
    if a < b {
        a
    } else {
        b
    }
}

impl FsView {
    /// The state after a chunk became dirty.
    pub open spec fn marked_dirty(self, inode: u64, idx: u64) -> FsView {
        FsView { waiting: marked(self.waiting, inode, idx), has_dirty: true, ..self }
    }

    /// The first step of a flush: what it does, and what is left to do.
    pub open spec fn flush_begun(self, inode: u64, now_ms: u64) -> FsView {
        let d = waiting_for(self.waiting, inode);
        if d.len() == 0 {
            self
        } else {
            let flushing = self.meta.stepped(inode, EntryState::Flushing);
            let looked = flushing.fetched(inode, now_ms);
            match flushing.answer(inode, now_ms) {
                None => FsView { meta: looked, has_dirty: true, ..self },
                Some(e) => if e.fid is None && e.placement is None {
                    FsView {
                        meta: looked.stepped(inode, EntryState::Dirty),
                        has_dirty: true,
                        ..self
                    }
                } else {
                    FsView { meta: looked, waiting: self.waiting.remove(inode), ..self }
                },
            }
        }
    }

    /// The state after the answers to a flush were worked off.
    pub open spec fn flush_ended(
        self,
        inode: u64,
        items: Seq<FlushItemView>,
        stuck: Seq<u64>,
        taken: Seq<bool>,
        now_ms: u64,
    ) -> FsView {
        let p = flush_progress(self, inode, items, taken, items.len() as int);
        let meta = if stuck.len() > 0 || p.failed {
            p.fs.meta.stepped(inode, EntryState::Dirty)
        } else {
            p.fs.meta.cleaned(inode, now_ms)
        };
        FsView {
            meta,
            chunks: if p.flushed.len() > 0 {
                p.fs.chunks.some_cleaned(inode, p.flushed)
            } else {
                p.fs.chunks
            },
            waiting: all_marked(p.fs.waiting, inode, stuck),
            has_dirty: p.fs.has_dirty || stuck.len() > 0,
            ..p.fs
        }
    }

    /// The flush reached the volume servers in full.
    pub open spec fn flush_succeeded(
        self,
        inode: u64,
        items: Seq<FlushItemView>,
        stuck: Seq<u64>,
        taken: Seq<bool>,
    ) -> bool {
        stuck.len() == 0 && !flush_progress(self, inode, items, taken, items.len() as int).failed
    }
}

impl PowerFsFs {
    /// The parts of the state hold their own invariants, and every chunk that
    /// a file may hold has an offset.
    pub open spec fn wf(&self) -> bool {
        &&& self.cache.wf()
        &&& self.chunk_cache.wf()
        &&& self.dirty.wf()
        &&& self.chunk_cache@.chunk_size * FILE_KEY_BLOCK_SIZE <= u64::MAX
    }

    pub proof fn lemma_parts(&self)
        requires
            self.wf(),
        ensures
            self.cache.wf(),
            self.chunk_cache.wf(),
            self.dirty.wf(),
            self@.meta == self.cache@,
            self@.chunks == self.chunk_cache@,
            self@.meta.wf(),
            self@.chunks.chunk_size > 0,
            self@.chunks.chunks.dom().finite(),
            self@.chunks.chunk_size * FILE_KEY_BLOCK_SIZE <= u64::MAX,
            crate::dirty::waiting_ok(self@.waiting),
    {
        self.chunk_cache.lemma_wf();
    }

    /// The state of a fresh mount.
    pub fn new(uid: u32, gid: u32, now: Now) -> (r: Self)
        ensures
            r.wf(),
            r@ == (FsView {
                meta: crate::metadata_cache::fresh_cache(
                    crate::metadata_cache::DEFAULT_CAPACITY as nat,
                    crate::metadata_cache::DEFAULT_METADATA_TTL_MS,
                    uid,
                    gid,
                    now,
                ),
                chunks: ChunksView {
                    chunks: Map::empty(),
                    chunk_size: crate::chunk_cache::DEFAULT_CHUNK_SIZE,
                    max_bytes: crate::chunk_cache::DEFAULT_MAX_BYTES,
                },
                waiting: Map::empty(),
                has_dirty: false,
                open: Map::empty(),
                inline: Map::empty(),
                limits: Map::empty(),
                cursors: Map::empty(),
                pending: Seq::empty(),
                epoch: 0,
                locks: Map::empty(),
            }),
    {
        broadcast use vstd::std_specs::hash::group_hash_axioms;

        let r = PowerFsFs {
            cache: MetadataCache::new(uid, gid, now),
            chunk_cache: ChunkCache::with_defaults(),
            dirty: DirtySet::new(),
            has_dirty: false,
            open_inodes: HashMap::new(),
            inline_buffers: buffers_new(),
            inline_max_sizes: limits_new(),
            readdir_cursors: cursors_new(),
            pending_unlinks: Vec::new(),
            last_cache_epoch: 0,
            locks: FileLocks::new(),
        };
        assert(r@.pending =~= Seq::<(u64, Seq<char>, u64)>::empty());
        r
    }

    /// Note that a chunk has to be flushed, and wake the background flusher.
    pub fn mark_dirty(&mut self, inode: u64, chunk_idx: u64)
        requires
            old(self).wf(),
        ensures
            final(self).wf(),
            final(self)@ == old(self)@.marked_dirty(inode, chunk_idx),
    {
        self.dirty.mark_dirty(inode, chunk_idx);
        self.has_dirty = true;
    }

    /// True if a chunk of the inode waits for a flush.
    pub fn has_dirty_for_inode(&self, inode: u64) -> (r: bool)
        ensures
            r == self@.waiting.contains_key(inode),
    {
        self.dirty.has_dirty_for_inode(inode)
    }

    /// The inodes of which a chunk waits for a flush.
    pub fn all_dirty_inodes(&self) -> (r: Vec<u64>)
        ensures
            r@.no_duplicates(),
            forall|i: u64| #[trigger] r@.contains(i) <==> self@.waiting.contains_key(i),
    {
        self.dirty.all_dirty_inodes()
    }

    /// True if the background flusher has work; asking takes the mark away.
    pub fn take_has_dirty(&mut self) -> (r: bool)
        requires
            old(self).wf(),
        ensures
            final(self).wf(),
            r == old(self)@.has_dirty,
            final(self)@ == (FsView { has_dirty: false, ..old(self)@ }),
    {
        let r: bool = self.has_dirty;
        self.has_dirty = false;
        r
    }

    /// Take the chunks of an inode that wait for a flush and prepare to send
    /// them. Where that cannot be, they wait on.
    pub fn flush_begin(&mut self, inode: u64, now_ms: u64) -> (r: FlushStep)
        requires
            old(self).wf(),
        ensures
            final(self).wf(),
            final(self)@ == old(self)@.flush_begun(inode, now_ms),
            ({
                let d = waiting_for(old(self)@.waiting, inode);
                let flushing = old(self)@.meta.stepped(inode, EntryState::Flushing);
                if d.len() == 0 {
                    r == FlushStep::Finished { result: Ok(()) }
                } else {
                    match flushing.answer(inode, now_ms) {
                        None => r == FlushStep::Finished { result: Err(ENOENT) },
                        Some(e) => if e.fid is None && e.placement is None {
                            r == FlushStep::Finished { result: Err(EIO) }
                        } else {
                            r matches FlushStep::Send { job } && {
                                &&& job.inode == inode
                                &&& job.dirty@ == d
                                &&& job.stuck@ == stuck_chunks(old(self)@.chunks, inode, e, d)
                                &&& job.volume == match e.fid {
                                    Some(f) => Some(f.volume_id.0),
                                    None => None,
                                }
                                &&& item_views(job.items@) == flush_items(
                                    old(self)@.chunks,
                                    inode,
                                    e,
                                    d,
                                )
                                &&& forall|n: int|
                                    0 <= n < job.items@.len() ==> is_sent_right(
                                        old(self)@.chunks,
                                        inode,
                                        e,
                                        d,
                                        (#[trigger] job.items@[n])@,
                                    )
                            }
                        },
                    }
                }
            }),
    {
        proof {
            self.lemma_parts();
            law_remark_restores(self@.waiting, inode);
        }
        let ghost w0 = self@.waiting;
        let dirty: Vec<u64> = self.dirty.drain_dirty_for_inode(inode);
        if dirty.len() == 0 {
            assert(w0.remove(inode) =~= w0);
            return FlushStep::Finished { result: Ok(()) };
        }
        self.cache.mark_flushing(inode);
        match self.cache.get_inode(inode, now_ms) {
            None => {
                self.dirty.mark_all(inode, &dirty);
                self.has_dirty = true;
                FlushStep::Finished { result: Err(ENOENT) }
            },
            Some(e) => {
                if e.fid.is_none() && e.placement.is_none() {
                    self.dirty.mark_all(inode, &dirty);
                    self.has_dirty = true;
                    self.cache.mark_dirty(inode);
                    FlushStep::Finished { result: Err(EIO) }
                } else {
                    let (items, stuck) = self.collect_items(inode, &e, &dirty);
                    proof {
                        law_flush_sends_chunks_apart(self@.chunks, inode, e@, dirty@);
                        assert forall|n: int| 0 <= n < items@.len() implies is_sent_right(
                            self@.chunks,
                            inode,
                            e@,
                            dirty@,
                            (#[trigger] items@[n])@,
                        ) by {
                            assert(item_views(items@)[n] == items@[n]@);
                        }
                    }
                    let volume: Option<u64> = match e.fid {
                        Some(f) => Some(f.volume_id.0),
                        None => None,
                    };
                    FlushStep::Send { job: FlushJob { inode, dirty, items, stuck, volume } }
                }
            },
        }
    }

    /// The items that the waiting chunks of an inode give, and the chunks that
    /// have no place to go.
    fn collect_items(&self, inode: u64, e: &CachedEntry, dirty: &Vec<u64>) -> (r: (
        Vec<FlushItem>,
        Vec<u64>,
    ))
        requires
            self.wf(),
            e@.fid is Some || e@.placement is Some,
        ensures
            item_views(r.0@) == flush_items(self@.chunks, inode, e@, dirty@),
            r.1@ == stuck_chunks(self@.chunks, inode, e@, dirty@),
    {
        proof {
            self.lemma_parts();
        }
        let cs: u64 = self.chunk_cache.chunk_size();
        let mut items: Vec<FlushItem> = Vec::new();
        let mut stuck: Vec<u64> = Vec::new();
        let mut i: usize = 0;
        let ghost d = dirty@;
        assert(stuck@ =~= Seq::<u64>::empty());
        assert(d.take(0) =~= Seq::<u64>::empty());
        assert(item_views(items@) =~= Seq::<FlushItemView>::empty());
        while i < dirty.len()
            invariant
                i <= dirty.len(),
                d == dirty@,
                self.wf(),
                self.chunk_cache.wf(),
                self@.chunks == self.chunk_cache@,
                cs == self@.chunks.chunk_size,
                cs * FILE_KEY_BLOCK_SIZE <= u64::MAX,
                e@.fid is Some || e@.placement is Some,
                item_views(items@) == flush_items(self@.chunks, inode, e@, d.take(i as int)),
                stuck@ == stuck_chunks(self@.chunks, inode, e@, d.take(i as int)),
            decreases dirty.len() - i,
        {
            let idx: u64 = dirty[i];
            assert(d.take(i as int + 1).drop_last() =~= d.take(i as int));
            assert(d.take(i as int + 1).last() == d[i as int]);
            if idx >= FILE_KEY_BLOCK_SIZE {
                stuck.push(idx);
            } else {
                assert(idx * cs <= cs * FILE_KEY_BLOCK_SIZE) by (nonlinear_arith)
                    requires
                        idx < FILE_KEY_BLOCK_SIZE,
                        cs >= 0,
                ;
                let offset: u64 = idx * cs;
                if let Some(c) = self.chunk_cache.get(inode, offset) {
                    let target: Option<(u64, u64)> = if e.placement.is_some() && e.fid.is_none() {
                        match &e.placement {
                            Some(p) => resolve_stripe_chunk(p, &e.chunks, offset, cs),
                            None => None,
                        }
                    } else {
                        match e.fid {
                            Some(f) => Some((f.volume_id.0, f.file_key.saturating_add(idx))),
                            None => None,
                        }
                    };
                    assert(target == flush_target(e@, idx, cs));
                    if let Some((volume_id, file_key)) = target {
                        let ghost before = item_views(items@);
                        let item = FlushItem { idx, volume_id, file_key, offset, data: c.data };
                        let ghost iv = item@;
                        items.push(item);
                        assert(item_views(items@) =~= before.push(iv));
                    } else {
                        stuck.push(idx);
                    }
                }
            }
            i += 1;
        }
        assert(d.take(i as int) =~= d);
        (items, stuck)
    }

    /// Give up a flush whose volume has no address: its chunks wait on.
    pub fn flush_abort(&mut self, inode: u64, dirty: &Vec<u64>) -> (r: Result<(), i32>)
        requires
            old(self).wf(),
        ensures
            final(self).wf(),
            r == Err::<(), i32>(EIO),
            final(self)@ == (FsView {
                waiting: all_marked(old(self)@.waiting, inode, dirty@),
                has_dirty: true,
                meta: old(self)@.meta.stepped(inode, EntryState::Dirty),
                ..old(self)@
            }),
    {
        self.dirty.mark_all(inode, dirty);
        self.has_dirty = true;
        self.cache.mark_dirty(inode);
        Err(EIO)
    }

    /// Work off the answers to a flush: a chunk that was not taken, or not
    /// answered for, waits again, one that was taken gets its checksum and may be
    /// thrown out. A chunk that has no place to go waits on. Only a flush of
    /// which every chunk was taken leaves the file clean.
    pub fn flush_finish(
        &mut self,
        inode: u64,
        items: &Vec<FlushItem>,
        stuck: &Vec<u64>,
        taken: &Vec<bool>,
        now_ms: u64,
    ) -> (r: Result<(), i32>)
        requires
            old(self).wf(),
        ensures
            final(self).wf(),
            final(self)@ == old(self)@.flush_ended(
                inode,
                item_views(items@),
                stuck@,
                taken@,
                now_ms,
            ),
            r == if old(self)@.flush_succeeded(inode, item_views(items@), stuck@, taken@) {
                Ok::<(), i32>(())
            } else {
                Err::<(), i32>(EIO)
            },
    {
        let ghost views = item_views(items@);
        let n: usize = items.len();
        let mut flushed: Vec<u64> = Vec::new();
        let mut failed: bool = false;
        let mut i: usize = 0;
        assert(flushed@ =~= Seq::<u64>::empty());
        while i < n
            invariant
                i <= n,
                n == items.len(),
                views == item_views(items@),
                self.wf(),
                ({
                    let p = flush_progress(old(self)@, inode, views, taken@, i as int);
                    &&& self@ == p.fs
                    &&& flushed@ == p.flushed
                    &&& failed == p.failed
                }),
            decreases n - i,
        {
            let item: &FlushItem = &items[i];
            assert(views[i as int] == item@);
            if i < taken.len() && taken[i] {
                let crc: u32 = crc32(bytes_slice(&item.data));
                self.cache.update_chunk_crc32(inode, item.offset, crc);
                flushed.push(item.idx);
            } else {
                self.mark_dirty(inode, item.idx);
                failed = true;
            }
            i += 1;
        }
        if flushed.len() > 0 {
            self.chunk_cache.clear_dirty_for_chunks(inode, &flushed);
        }
        self.dirty.mark_all(inode, stuck);
        if stuck.len() > 0 {
            self.has_dirty = true;
        }
        if stuck.len() > 0 || failed {
            self.cache.mark_dirty(inode);
            Err(EIO)
        } else {
            self.cache.mark_clean(inode, now_ms);
            Ok(())
        }
    }

    /// After a flush by the background flusher: whether the file's metadata is
    /// due, which it is when no chunk waits any more, and whether the file is
    /// open.
    pub fn background_sync_due(&self, inode: u64) -> (r: Option<bool>)
        ensures
            r == if self@.waiting.contains_key(inode) {
                None
            } else {
                Some(self@.open.contains_key(inode))
            },
    {
        broadcast use vstd::std_specs::hash::group_hash_axioms;

        if self.dirty.has_dirty_for_inode(inode) {
            None
        } else {
            Some(self.open_inodes.contains_key(&inode))
        }
    }

    /// After the background flusher brought a file's data and metadata to the
    /// servers: its chunks are clean. A file that was not open before and is
    /// not open now loses the pin that a failed close left behind.
    pub fn background_synced(&mut self, inode: u64, was_open: bool)
        requires
            old(self).wf(),
        ensures
            final(self).wf(),
            final(self)@ == (FsView {
                chunks: old(self)@.chunks.all_cleaned(inode),
                meta: if !was_open && !old(self)@.open.contains_key(inode) {
                    old(self)@.meta.unpinned(inode)
                } else {
                    old(self)@.meta
                },
                ..old(self)@
            }),
    {
        broadcast use vstd::std_specs::hash::group_hash_axioms;

        self.chunk_cache.clear_dirty(inode);
        if !was_open && !self.open_inodes.contains_key(&inode) {
            self.cache.unpin_inode(inode);
        }
    }
}

} // verus!
