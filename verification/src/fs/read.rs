//! Reading files: what is cached is copied out; what is missing is asked of
//! the volume servers first.

use super::data_laws::{counts, law_flat_reads_go_by_the_list, law_stored_group_reads_back};
use super::laws::chunks_fit;
use super::{crc_fits, crc32_of, data_intact, FsView, PowerFsFs, LEASE_STRIPE_SIZE};
use crate::chunk_cache::{bytes_from_vec, bytes_slice, ChunkData, ChunksView};
use crate::dirty::waiting_for;
use crate::entry::{CachedEntry, CachedFileChunk, EntryView, Fid, Reliability};
use crate::inline::{
    buffers_get, buffers_insert, fetched_buffer, limits_insert, slice_of, zeros, InlineBuffer,
};
use crate::layout::{resolve_stripe_chunk, stripe_location};
use crate::meta_model::{chunk_at, max_u64, sat_add};
use crate::metadata_cache::find_chunk;
use crate::records::{as_unsigned, to_unsigned, MetadataAttr};
use crate::scan::{is_needle_missing, says_needle_missing, EIO, ENOENT};
use vstd::prelude::*;

verus! {

/// How many chunks are read ahead.
pub const PREFETCH_CHUNKS: u64 = 4;

/// The size of a shard of an erasure-coded file: 1 MiB.
pub const EC_SHARD_SIZE: u64 = 1_048_576;

/// A chunk that has to be fetched: its index, its place in the file, and how
/// many bytes of it the file has.
#[derive(Debug, Clone, Copy, PartialEq, Eq, Structural)]
pub struct MissingChunk {
    pub idx: u64,
    pub offset: u64,
    pub size: u64,
}

/// A needle to read from a volume server.
#[derive(Debug, Clone, Copy, PartialEq, Eq, Structural)]
pub struct Needle {
    pub volume_id: u64,
    pub needle_id: u64,
}

/// What a read has to do before it can copy.
#[derive(Debug)]
pub struct ReadPlan {
    pub inode: u64,
    /// The first byte to copy.
    pub offset: u64,
    /// The end of the bytes to copy.
    pub end: u64,
    pub entry: CachedEntry,
    pub missing: Vec<MissingChunk>,
}

/// What a read of an erasure-coded file has to do before it can copy: fetch
/// the shard groups `first_group..end_group`.
#[derive(Debug)]
pub struct EcPlan {
    pub inode: u64,
    pub offset: u64,
    pub end: u64,
    pub entry: CachedEntry,
    pub data_shards: usize,
    pub parity_shards: usize,
    pub first_group: u64,
    pub end_group: u64,
}

/// The first step of a read.
#[derive(Debug)]
pub enum ReadStep {
    /// The read failed.
    Fail { errno: i32 },
    /// The data is at hand.
    Reply { data: Vec<u8> },
    /// The cached entry is out of date: ask the server for it, then begin again.
    Refetch,
    /// Ask the server for the inline data of the file.
    FetchInline,
    /// An erasure-coded file.
    Erasure { ec: EcPlan },
    /// A striped file.
    Striped { plan: ReadPlan },
    /// A flat file. Where chunks are missing, a shared lease on some stripes
    /// is taken first: the first one, and how many. The volume must have an
    /// address.
    Flat { plan: ReadPlan, volume_id: u64, lease: Option<(u64, u64)> },
}

/// What comes after a chunk was asked for.
#[derive(Debug, Clone, Copy, PartialEq, Eq, Structural)]
pub enum ChunkStep {
    /// The chunk is cached.
    Stored,
    /// The read failed.
    Fail { errno: i32 },
    /// The chunk may still be waiting for a flush: flush the file, then read
    /// this needle.
    FlushThenRead { needle: Needle },
    /// Read this copy.
    TryReplica { needle: Needle },
    /// Come back to this chunk when the others are done.
    Deferred,
}

/// What comes after the shards of a group were read.
#[derive(Debug)]
pub enum EcStep {
    /// All data shards are there: this is the data.
    Complete { data: Vec<u8> },
    /// Enough shards are there to compute the others.
    Decode,
    /// Too few shards are there.
    Fail { errno: i32 },
}

/// The last chunk of the list at `offset`.
pub open spec fn last_at(chunks: Seq<CachedFileChunk>, offset: u64) -> Option<CachedFileChunk>
    decreases chunks.len(),
{
    if chunks.len() == 0 {
        None
    } else if chunks.last().offset == offset {
        Some(chunks.last())
    } else {
        last_at(chunks.drop_last(), offset)
    }
}

/// The last chunk of the list at `offset`.
pub(crate) fn find_last(chunks: &Vec<CachedFileChunk>, offset: u64) -> (r: Option<CachedFileChunk>)
    ensures
        r == last_at(chunks@, offset),
{
    let mut i: usize = chunks.len();
    assert(chunks@.take(i as int) =~= chunks@);
    while i > 0
        invariant
            i <= chunks.len(),
            last_at(chunks@, offset) == last_at(chunks@.take(i as int), offset),
        decreases i,
    {
        i -= 1;
        assert(chunks@.take(i as int + 1).drop_last() =~= chunks@.take(i as int));
        assert(chunks@.take(i as int + 1).last() == chunks@[i as int]);
        if chunks[i].offset == offset {
            return Some(chunks[i]);
        }
    }
    None
}

/// How far the chunks of a file reach; a chunk of unknown size counts as a full
/// one.
pub open spec fn chunk_reach(chunks: Seq<CachedFileChunk>, chunk_size: u64) -> u64
    decreases chunks.len(),
{
    if chunks.len() == 0 {
        0
    } else {
        let c = chunks.last();
        max_u64(
            chunk_reach(chunks.drop_last(), chunk_size),
            sat_add(
                c.offset,
                if c.size > 0 {
                    c.size
                } else {
                    chunk_size
                },
            ),
        )
    }
}

/// The size of a file as a read sees it: where the entry has none, as far as
/// the chunks reach.
pub open spec fn readable_size(e: EntryView, chunk_size: u64) -> u64 {
    if e.size > 0 {
        e.size
    } else {
        chunk_reach(e.chunks, chunk_size)
    }
}

/// The size of a file as a read sees it.
fn find_readable_size(e: &CachedEntry, chunk_size: u64) -> (r: u64)
    ensures
        r == readable_size(e@, chunk_size),
{
    if e.size > 0 {
        return e.size;
    }
    let mut best: u64 = 0;
    let mut i: usize = 0;
    let ghost chunks = e.chunks@;
    assert(chunks.take(0) =~= Seq::<CachedFileChunk>::empty());
    while i < e.chunks.len()
        invariant
            i <= e.chunks.len(),
            chunks == e.chunks@,
            best == chunk_reach(chunks.take(i as int), chunk_size),
        decreases e.chunks.len() - i,
    {
        assert(chunks.take(i as int + 1).drop_last() =~= chunks.take(i as int));
        assert(chunks.take(i as int + 1).last() == chunks[i as int]);
        let c: CachedFileChunk = e.chunks[i];
        let reach: u64 = c.offset.saturating_add(
            if c.size > 0 {
                c.size
            } else {
                chunk_size
            },
        );
        if reach > best {
            best = reach;
        }
        i += 1;
    }
    assert(chunks.take(i as int) =~= chunks);
    best
}

/// The end of the bytes that a read copies.
pub open spec fn read_end(offset: u64, size: u32, file_size: u64) -> u64 {
    if offset + size < file_size {
        (offset + size) as u64
    } else {
        file_size
    }
}

/// The index of the last chunk that a read asks for, with what it reads ahead.
pub open spec fn last_wanted(end: u64, file_size: u64, chunk_size: u64) -> int {
    let ahead = end + PREFETCH_CHUNKS * chunk_size;
    let stop = if ahead < file_size {
        ahead
    } else {
        file_size as int
    };
    if stop == 0 {
        0
    } else {
        (stop - 1) / chunk_size as int
    }
}

/// How many bytes of the chunk at `offset` the file has.
pub open spec fn bytes_in_chunk(offset: int, file_size: int, chunk_size: int) -> int {
    if file_size <= offset {
        0
    } else if file_size - offset < chunk_size {
        file_size - offset
    } else {
        chunk_size
    }
}

/// The chunks of `lo..hi` that are not cached.
pub open spec fn wanted(chunks: ChunksView, inode: u64, lo: int, hi: int, file_size: u64) -> Seq<
    MissingChunk,
>
    decreases hi - lo,
{
    if hi <= lo {
        Seq::empty()
    } else {
        let before = wanted(chunks, inode, lo, hi - 1, file_size);
        let offset = (hi - 1) * chunks.chunk_size;
        if chunks.at(inode, offset as u64) is Some {
            before
        } else {
            before.push(
                MissingChunk {
                    idx: (hi - 1) as u64,
                    offset: offset as u64,
                    size: bytes_in_chunk(offset, file_size as int, chunks.chunk_size as int) as u64,
                },
            )
        }
    }
}

/// The chunks that a read has to fetch.
pub open spec fn read_missing(
    chunks: ChunksView,
    inode: u64,
    offset: u64,
    end: u64,
    file_size: u64,
) -> Seq<MissingChunk> {
    wanted(
        chunks,
        inode,
        offset as int / chunks.chunk_size as int,
        last_wanted(end, file_size, chunks.chunk_size) + 1,
        file_size,
    )
}

/// The stripes that a read lease covers: the first one, and how many.
pub open spec fn lease_range(offset: u64, end: u64) -> (u64, u64) {
    let first = offset as int / LEASE_STRIPE_SIZE as int;
    let stop = if end > 0 {
        (end - 1) / LEASE_STRIPE_SIZE as int + 1
    } else {
        1
    };
    (
        first as u64,
        if stop > first {
            (stop - first) as u64
        } else {
            0
        },
    )
}

/// The bytes of a chunk that may be served: all of them, or as many as the
/// chunk list vouches for.
pub open spec fn served_len(
    c: crate::chunk_cache::ChunkView,
    position: u64,
    chunk_size: u64,
    listed: Option<Seq<CachedFileChunk>>,
) -> int {
    match listed {
        None => c.data.len() as int,
        Some(l) => {
            let start = (position as int / chunk_size as int) * chunk_size;
            let size = match last_at(l, start as u64) {
                Some(m) => m.size,
                None => 0,
            };
            if c.data.len() < size {
                c.data.len() as int
            } else {
                size as int
            }
        },
    }
}

/// The bytes of a file from `position` up to `end`, out of the cached chunks.
/// What a chunk does not hold reads as zeros; a chunk that is not cached at all
/// makes the read fail.
pub open spec fn copied(
    chunks: ChunksView,
    inode: u64,
    position: u64,
    end: u64,
    listed: Option<Seq<CachedFileChunk>>,
) -> Option<Seq<u8>>
    decreases end - position,
{
    if position >= end {
        Some(Seq::empty())
    } else {
        match chunks.at(inode, position) {
            None => None,
            Some(c) => {
                let cs = chunks.chunk_size as int;
                let within = position as int % cs;
                let left = served_len(c, position, chunks.chunk_size, listed) - within;
                let n = copy_len(left, end - position, cs - within);
                if n <= 0 {
                    None
                } else {
                    match copied(chunks, inode, (position + n) as u64, end, listed) {
                        None => None,
                        Some(rest) => Some(
                            if left > 0 {
                                c.data.subrange(within, within + n)
                            } else {
                                Seq::new(n as nat, |i: int| 0u8)
                            } + rest,
                        ),
                    }
                }
            },
        }
    }
}

/// How many bytes are copied in one go: what the chunk serves, or else zeros up
/// to its end, and never more than was asked for.
pub open spec fn copy_len(left: int, asked: int, to_end: int) -> int {
    if left > 0 {
        if left < asked {
            left
        } else {
            asked
        }
    } else if to_end < asked {
        to_end
    } else {
        asked
    }
}

/// The state after a fetched chunk was put into the cache.
pub open spec fn chunk_stored(
    fs: FsView,
    inode: u64,
    offset: u64,
    data: Seq<u8>,
    mtime: i64,
) -> FsView {
    FsView { chunks: fs.chunks.stored(inode, offset, data, as_unsigned(mtime), 0), ..fs }
}

/// The needle of a chunk of a striped file: by the stripe units, or else by the
/// chunk list, or else the first chunk's.
pub open spec fn stripe_needle_of(e: EntryView, chunk_size: u64, offset: u64) -> Needle {
    match stripe_location(e.placement->0, e.chunks, offset, chunk_size) {
        Some((v, n)) => Needle { volume_id: v, needle_id: n },
        None => match last_at(e.chunks, offset) {
            Some(c) => Needle { volume_id: c.volume_id, needle_id: c.needle_id },
            None => Needle {
                volume_id: e.chunks[0].volume_id,
                needle_id: e.chunks[0].needle_id,
            },
        },
    }
}

/// The needle of a chunk of a flat file: by the chunk list, or else by the file
/// id.
pub open spec fn flat_needle_of(e: EntryView, idx: u64, offset: u64) -> Needle {
    match last_at(e.chunks, offset) {
        Some(c) => Needle { volume_id: c.volume_id, needle_id: c.needle_id },
        None => Needle {
            volume_id: e.fid->0.volume_id.0,
            needle_id: sat_add(e.fid->0.file_key, idx),
        },
    }
}

/// The copy of a chunk.
pub open spec fn replica_of(e: EntryView, offset: u64) -> Option<Needle> {
    match last_at(e.replica_chunks, offset) {
        Some(c) => Some(Needle { volume_id: c.volume_id, needle_id: c.needle_id }),
        None => None,
    }
}

/// The chunk list's checksum allows this data.
pub open spec fn listed_intact(e: EntryView, offset: u64, data: Seq<u8>) -> bool {
    match last_at(e.chunks, offset) {
        Some(c) => crc_fits(c.crc32, crc32_of(data)),
        None => true,
    }
}

/// The data that the server sent for a small file.
pub open spec fn sent_data(attr: Option<MetadataAttr>) -> Seq<u8> {
    match attr {
        Some(a) => match a.inline_data {
            Some(d) => d@,
            None => Seq::empty(),
        },
        None => Seq::empty(),
    }
}

/// The state after the server answered a request for inline data: a file that
/// is inline gets a buffer.
pub open spec fn inline_arrived(fs: FsView, inode: u64, attr: Option<MetadataAttr>) -> FsView {
    match attr {
        Some(a) => if a.is_inline {
            FsView {
                meta: fs.meta.content_size_set(inode, a.size),
                limits: match a.inline_max_size {
                    Some(n) => fs.limits.insert(inode, n),
                    None => fs.limits,
                },
                inline: fs.inline.insert(inode, fetched_buffer(sent_data(attr))),
                ..fs
            }
        } else {
            fs
        },
        None => fs,
    }
}

/// The state after a hole was put into the cache as zeros.
pub open spec fn hole_stored(fs: FsView, inode: u64, m: MissingChunk, mtime: i64) -> FsView {
    chunk_stored(fs, inode, m.offset, Seq::new(m.size as nat, |i: int| 0u8), mtime)
}

/// What comes after a failed read: a copy, or the end.
pub open spec fn replica_step(e: EntryView, offset: u64) -> ChunkStep {
    match replica_of(e, offset) {
        Some(needle) => ChunkStep::TryReplica { needle },
        None => ChunkStep::Fail { errno: EIO },
    }
}

/// The needle of a chunk of a striped file that is read again.
pub open spec fn reread_needle(e: EntryView, chunk_size: u64, offset: u64) -> Needle {
    match stripe_location(e.placement->0, e.chunks, offset, chunk_size) {
        Some((v, n)) => Needle { volume_id: v, needle_id: n },
        None => Needle { volume_id: e.chunks[0].volume_id, needle_id: e.chunks[0].needle_id },
    }
}

/// The needle of a chunk of a flat file that is read again.
pub open spec fn flat_reread_needle(e: EntryView, idx: u64, offset: u64) -> Needle {
    let at = chunk_at(e.chunks, offset);
    if at < e.chunks.len() {
        Needle { volume_id: e.chunks[at].volume_id, needle_id: e.chunks[at].needle_id }
    } else {
        Needle { volume_id: e.fid->0.volume_id.0, needle_id: sat_add(e.fid->0.file_key, idx) }
    }
}

/// A plan that fits a read.
pub open spec fn plan_fits(
    plan: ReadPlan,
    fs: FsView,
    inode: u64,
    offset: u64,
    size: u32,
    e: EntryView,
) -> bool {
    let file_size = readable_size(e, fs.chunks.chunk_size);
    let end = read_end(offset, size, file_size);
    &&& plan.inode == inode
    &&& plan.offset == offset
    &&& plan.end == end
    &&& plan.entry@ == e
    &&& plan.missing@ == read_missing(fs.chunks, inode, offset, end, file_size)
}

/// How many bytes of data a shard group holds.
pub open spec fn group_size(data_shards: int) -> int {
    data_shards * EC_SHARD_SIZE
}

/// The first step of a read of an erasure-coded file. The chunk list must be
/// whole shard groups, and without data shards nothing can be fetched.
pub open spec fn ec_step(
    fs: FsView,
    inode: u64,
    size: u32,
    offset: u64,
    e: EntryView,
    data: u8,
    parity: u8,
    r: ReadStep,
) -> bool {
    let shards = data + parity;
    let end = read_end(offset, size, e.size);
    let missing = read_missing(fs.chunks, inode, offset, end, e.size);
    if shards == 0 || e.chunks.len() == 0 || e.chunks.len() % (shards as nat) != 0 {
        r == ReadStep::Fail { errno: EIO }
    } else if offset >= e.size {
        r matches ReadStep::Reply { data } && data@ == Seq::<u8>::empty()
    } else if data == 0 && missing.len() > 0 {
        r == ReadStep::Fail { errno: EIO }
    } else {
        r matches ReadStep::Erasure { ec: plan } && {
            &&& plan.inode == inode
            &&& plan.offset == offset
            &&& plan.end == end
            &&& plan.entry@ == e
            &&& plan.data_shards == data
            &&& plan.parity_shards == parity
            &&& if missing.len() == 0 {
                plan.first_group == 0 && plan.end_group == 0
            } else {
                &&& plan.first_group == missing[0].offset as int / group_size(data as int)
                &&& plan.end_group == super::min_int(
                    missing.last().offset as int / group_size(data as int) + 1,
                    e.chunks.len() as int / shards,
                )
            }
        }
    }
}

/// The first step of a read of a file whose entry is `e`.
pub open spec fn read_step(
    fs: FsView,
    inode: u64,
    size: u32,
    offset: u64,
    e: EntryView,
    r: ReadStep,
) -> bool {
    if fs.inline.contains_key(inode) {
        r matches ReadStep::Reply { data } && data@ == slice_of(
            fs.inline[inode].data,
            offset,
            size,
        )
    } else if e.fid is None && e.chunks.len() == 0 {
        r == ReadStep::FetchInline
    } else if e.reliability is EC {
        ec_step(
            fs,
            inode,
            size,
            offset,
            e,
            e.reliability->data,
            e.reliability->parity,
            r,
        )
    } else {
        let file_size = readable_size(e, fs.chunks.chunk_size);
        let end = read_end(offset, size, file_size);
        if e.placement is Some && e.fid is None {
            if offset >= file_size {
                r matches ReadStep::Reply { data } && data@ == Seq::<u8>::empty()
            } else {
                r matches ReadStep::Striped { plan } && plan_fits(plan, fs, inode, offset, size, e)
            }
        } else if e.fid is None {
            r == ReadStep::Fail { errno: EIO }
        } else if offset >= file_size && e.chunks.len() == 0 {
            r matches ReadStep::Reply { data } && data@ == Seq::<u8>::empty()
        } else {
            r matches ReadStep::Flat { plan, volume_id, lease } && {
                &&& plan_fits(plan, fs, inode, offset, size, e)
                &&& volume_id == e.fid->0.volume_id.0
                &&& lease == if plan.missing@.len() > 0 {
                    Some(lease_range(offset, end))
                } else {
                    None
                }
            }
        }
    }
}

/// The end of the bytes that a read copies.
fn end_of_read(offset: u64, size: u32, file_size: u64) -> (r: u64)
    ensures
        r == read_end(offset, size, file_size),
{
    if offset < file_size && file_size - offset > size as u64 {
        offset + size as u64
    } else {
        file_size
    }
}

/// The stripes that a read lease covers.
fn find_lease_range(offset: u64, end: u64) -> (r: (u64, u64))
    ensures
        r == lease_range(offset, end),
{
    let first: u64 = offset / LEASE_STRIPE_SIZE;
    let stop: u64 = if end > 0 {
        (end - 1) / LEASE_STRIPE_SIZE + 1
    } else {
        1
    };
    (
        first,
        if stop > first {
            stop - first
        } else {
            0
        },
    )
}

/// How many of the first `n` shards are there.
pub open spec fn present(shards: Seq<Option<Vec<u8>>>, n: int) -> int
    decreases n,
{
    if n <= 0 {
        0
    } else {
        present(shards, n - 1) + if shards[n - 1] is Some {
            1int
        } else {
            0
        }
    }
}

/// The first `n` shards, one behind the other.
pub open spec fn joined(shards: Seq<Option<Vec<u8>>>, n: int) -> Seq<u8>
    decreases n,
{
    if n <= 0 {
        Seq::empty()
    } else {
        joined(shards, n - 1) + shards[n - 1]->0@
    }
}

/// The state after the first `n` chunks of a shard group were put into the
/// cache. The group starts at `start`, and `len` bytes of its data belong to
/// the file.
pub open spec fn group_stored(
    fs: FsView,
    inode: u64,
    start: u64,
    data: Seq<u8>,
    len: int,
    mtime: i64,
    n: int,
) -> FsView
    decreases n,
{
    if n <= 0 {
        fs
    } else {
        let cs = fs.chunks.chunk_size as int;
        let from = (n - 1) * cs;
        chunk_stored(
            group_stored(fs, inode, start, data, len, mtime, n - 1),
            inode,
            (start + from) as u64,
            data.subrange(from, super::min_int(from + cs, len)),
            mtime,
        )
    }
}

impl PowerFsFs {
    /// Begin to read an erasure-coded file.
    fn ec_begin(
        &self,
        inode: u64,
        size: u32,
        offset: u64,
        e: CachedEntry,
        data: u8,
        parity: u8,
    ) -> (r: ReadStep)
        requires
            self.wf(),
        ensures
            ec_step(self@, inode, size, offset, e@, data, parity, r),
    {
        let data_shards: usize = data as usize;
        let shards: usize = data as usize + parity as usize;
        if shards == 0 || e.chunks.len() == 0 || e.chunks.len() % shards != 0 {
            return ReadStep::Fail { errno: EIO };
        }
        if offset >= e.size {
            let data: Vec<u8> = Vec::new();
            assert(data@ =~= Seq::<u8>::empty());
            return ReadStep::Reply { data };
        }
        let end: u64 = end_of_read(offset, size, e.size);
        let missing: Vec<MissingChunk> = self.find_missing(inode, offset, end, e.size);
        if data == 0 && missing.len() > 0 {
            return ReadStep::Fail { errno: EIO };
        }
        let group_bytes: u64 = data as u64 * EC_SHARD_SIZE;
        let groups: u64 = (e.chunks.len() / shards) as u64;
        let (first_group, end_group): (u64, u64) = if missing.len() == 0 {
            (0, 0)
        } else {
            let first: u64 = missing[0].offset / group_bytes;
            let last: u64 = missing[missing.len() - 1].offset / group_bytes;
            (
                first,
                if last < groups {
                    last + 1
                } else {
                    groups
                },
            )
        };
        ReadStep::Erasure {
            ec: EcPlan {
                inode,
                offset,
                end,
                entry: e,
                data_shards,
                parity_shards: parity as usize,
                first_group,
                end_group,
            },
        }
    }

    /// True if every chunk of a shard group is cached.
    pub fn ec_group_cached(&self, plan: &EcPlan, group: u64) -> (r: bool)
        requires
            self.wf(),
            0 < plan.data_shards <= 255,
            group * group_size(plan.data_shards as int) <= plan.entry@.size,
        ensures
            ({
                let start = group * group_size(plan.data_shards as int);
                let stop = super::min_int(
                    start + group_size(plan.data_shards as int),
                    plan.entry@.size as int,
                );
                r == forall|k: int|
                    0 <= k && start + k * self@.chunks.chunk_size < stop ==> (
                    #[trigger] self@.chunks.at(
                        plan.inode,
                        (start + k * self@.chunks.chunk_size) as u64,
                    )) is Some
            }),
    {
        proof {
            self.lemma_parts();
        }
        let cs: u64 = self.chunk_cache.chunk_size();
        let group_bytes: u64 = plan.data_shards as u64 * EC_SHARD_SIZE;
        let start: u64 = group * group_bytes;
        let file_size: u64 = plan.entry.size;
        let stop: u64 = if file_size - start < group_bytes {
            file_size
        } else {
            start + group_bytes
        };
        let mut position: u64 = start;
        let ghost mut k: int = 0;
        while position < stop
            invariant
                self.wf(),
                self.chunk_cache.wf(),
                self@.chunks == self.chunk_cache@,
                cs == self@.chunks.chunk_size,
                cs > 0,
                0 <= k,
                stop <= file_size,
                position < stop ==> position == start + k * cs,
                start == group * group_size(plan.data_shards as int),
                stop == super::min_int(
                    start + group_size(plan.data_shards as int),
                    plan.entry@.size as int,
                ),
                forall|j: int|
                    0 <= j < k ==> (#[trigger] self@.chunks.at(
                        plan.inode,
                        (start + j * cs) as u64,
                    )) is Some,
                position >= stop ==> start + k * cs >= stop,
            decreases stop - position,
        {
            if self.chunk_cache.get(plan.inode, position).is_none() {
                assert(self@.chunks.at(plan.inode, (start + k * cs) as u64) is None);
                return false;
            }
            assert((k + 1) * cs == k * cs + cs) by (nonlinear_arith);
            proof {
                k = k + 1;
            }
            if stop - position > cs {
                position = position + cs;
            } else {
                position = stop;
            }
        }
        assert forall|j: int| 0 <= j && start + j * cs < stop implies (#[trigger] self@.chunks.at(
            plan.inode,
            (start + j * cs) as u64,
        )) is Some by {
            if j >= k {
                assert(j * cs >= k * cs) by (nonlinear_arith)
                    requires
                        j >= k,
                        cs > 0,
                ;
            }
        }
        true
    }

    /// The chunk record of a shard of a group.
    pub fn ec_shard(&self, plan: &EcPlan, group: u64, i: usize) -> (r: CachedFileChunk)
        requires
            i < plan.data_shards + plan.parity_shards <= 510,
            (group + 1) * (plan.data_shards + plan.parity_shards) <= plan.entry@.chunks.len(),
        ensures
            r == plan.entry@.chunks[group * (plan.data_shards + plan.parity_shards) + i],
    {
        let shards: usize = plan.data_shards + plan.parity_shards;
        let n: usize = plan.entry.chunks.len();
        proof {
            let g = group as int;
            let s = shards as int;
            assert(g * s + s <= n) by (nonlinear_arith)
                requires
                    (g + 1) * s <= n,
            ;
            assert(g <= n) by (nonlinear_arith)
                requires
                    (g + 1) * s <= n,
                    s >= 1,
                    g >= 0,
            ;
        }
        let base: usize = (group as usize) * shards;
        plan.entry.chunks[base + i]
    }

    /// A shard that was read: one that its checksum does not allow counts as
    /// missing.
    pub fn ec_accept(&self, chunk: CachedFileChunk, data: Vec<u8>) -> (r: Option<Vec<u8>>)
        ensures
            match r {
                Some(d) => crc_fits(chunk.crc32, crc32_of(data@)) && d@ == data@,
                None => !crc_fits(chunk.crc32, crc32_of(data@)),
            },
    {
        if data_intact(chunk.crc32, data.as_slice()) {
            Some(data)
        } else {
            None
        }
    }

    /// The shards of a group were read: the data is complete, or can be
    /// computed from as many shards as there are data shards, or is lost.
    pub fn ec_decide(&self, data_shards: usize, shards: &Vec<Option<Vec<u8>>>) -> (r: EcStep)
        requires
            data_shards <= shards@.len(),
        ensures
            ({
                let have = present(shards@, shards@.len() as int);
                if present(shards@, data_shards as int) == data_shards {
                    r matches EcStep::Complete { data } && data@ == joined(
                        shards@,
                        data_shards as int,
                    )
                } else if have >= data_shards {
                    r == EcStep::Decode
                } else {
                    r == EcStep::Fail { errno: EIO }
                }
            }),
    {
        let mut count: usize = 0;
        let mut data_count: usize = 0;
        let mut data: Vec<u8> = Vec::new();
        let mut i: usize = 0;
        assert(data@ =~= Seq::<u8>::empty());
        while i < shards.len()
            invariant
                i <= shards.len(),
                count <= i,
                count == present(shards@, i as int),
                data_count == present(
                    shards@,
                    if i < data_shards {
                        i as int
                    } else {
                        data_shards as int
                    },
                ),
                data_count <= i,
                data_count <= data_shards,
                data_count == (if i < data_shards {
                    i
                } else {
                    data_shards
                }) ==> data@ == joined(
                    shards@,
                    if i < data_shards {
                        i as int
                    } else {
                        data_shards as int
                    },
                ),
            decreases shards.len() - i,
        {
            if let Some(d) = &shards[i] {
                count += 1;
                if i < data_shards {
                    data_count += 1;
                    let mut piece: Vec<u8> = d.clone();
                    assert(piece@ =~= d@);
                    data.append(&mut piece);
                }
            }
            i += 1;
        }
        if data_count == data_shards {
            EcStep::Complete { data }
        } else if count >= data_shards {
            EcStep::Decode
        } else {
            EcStep::Fail { errno: EIO }
        }
    }

    /// Put the data of a shard group into the cache, chunk by chunk, up to the
    /// end of the file.
    pub fn ec_store_group(&mut self, plan: &EcPlan, group: u64, data: &Vec<u8>)
        requires
            old(self).wf(),
            0 < plan.data_shards <= 255,
            group * group_size(plan.data_shards as int) < plan.entry@.size,
        ensures
            final(self).wf(),
            ({
                let start = group * group_size(plan.data_shards as int);
                let len = super::min_int(plan.entry@.size - start, data@.len() as int);
                let cs = old(self)@.chunks.chunk_size as int;
                final(self)@ == group_stored(
                    old(self)@,
                    plan.inode,
                    start as u64,
                    data@,
                    len,
                    plan.entry@.mtime,
                    (len + cs - 1) / cs,
                )
            }),
            ({
                let start = group * group_size(plan.data_shards as int);
                let len = super::min_int(plan.entry@.size - start, data@.len() as int);
                chunks_fit(old(self)@.chunks, plan.inode) && start
                    % old(self)@.chunks.chunk_size as int == 0 ==> copied(
                    final(self)@.chunks,
                    plan.inode,
                    start as u64,
                    (start + len) as u64,
                    None,
                ) == Some(data@.take(len))
            }),
    {
        proof {
            self.lemma_parts();
        }
        let cs: u64 = self.chunk_cache.chunk_size();
        let start: u64 = group * (plan.data_shards as u64 * EC_SHARD_SIZE);
        let in_file: u64 = plan.entry.size - start;
        let len: u64 = if in_file < data.len() as u64 {
            in_file
        } else {
            data.len() as u64
        };
        let all: usize = data.len();
        let mut off: u64 = 0;
        let ghost mut n: int = 0;
        assert(0 * cs == 0) by (nonlinear_arith);
        while off < len
            invariant
                self.wf(),
                cs == old(self)@.chunks.chunk_size,
                self@.chunks.chunk_size == cs,
                cs > 0,
                0 <= n,
                all == data@.len(),
                len <= all,
                len <= in_file,
                start + in_file == plan.entry@.size,
                off < len ==> off == n * cs,
                off <= len,
                off == len ==> n * cs >= len && (n - 1) * cs < len || len == 0 && n == 0,
                self@ == group_stored(
                    old(self)@,
                    plan.inode,
                    start,
                    data@,
                    len as int,
                    plan.entry@.mtime,
                    n,
                ),
            decreases len - off,
        {
            let stop: u64 = if len - off > cs {
                off + cs
            } else {
                len
            };
            let piece: Vec<u8> = vstd::slice::slice_to_vec(
                vstd::slice::slice_subrange(data.as_slice(), off as usize, stop as usize),
            );
            assert((n + 1) * cs == n * cs + cs) by (nonlinear_arith);
            self.store_chunk(plan.inode, start + off, piece, plan.entry.mtime);
            proof {
                n = n + 1;
            }
            off = stop;
        }
        proof {
            let l = len as int;
            let c = cs as int;
            if l == 0 {
                assert((l + c - 1) / c == 0) by (nonlinear_arith)
                    requires
                        l == 0,
                        c > 0,
                ;
            } else {
                assert((l + c - 1) / c == n) by (nonlinear_arith)
                    requires
                        n * c >= l,
                        (n - 1) * c < l,
                        c > 0,
                ;
            }
            if chunks_fit(old(self)@.chunks, plan.inode) && start as int % c == 0 {
                law_stored_group_reads_back(
                    old(self)@,
                    plan.inode,
                    start,
                    data@,
                    l,
                    plan.entry@.mtime,
                );
            }
        }
    }

    /// The chunks that a read has to fetch.
    fn find_missing(&self, inode: u64, offset: u64, end: u64, file_size: u64) -> (r: Vec<
        MissingChunk,
    >)
        requires
            self.wf(),
            end <= file_size,
        ensures
            r@ == read_missing(self@.chunks, inode, offset, end, file_size),
    {
        proof {
            self.lemma_parts();
        }
        let cs: u64 = self.chunk_cache.chunk_size();
        let stop: u64 = if (file_size - end) / cs >= PREFETCH_CHUNKS {
            proof {
                let a = (file_size - end) as int;
                let c = cs as int;
                assert(4 * c <= a) by (nonlinear_arith)
                    requires
                        a / c >= 4,
                        c > 0,
                        a >= 0,
                ;
            }
            end + PREFETCH_CHUNKS * cs
        } else {
            proof {
                let a = (file_size - end) as int;
                let c = cs as int;
                assert(4 * c > a) by (nonlinear_arith)
                    requires
                        a / c < 4,
                        c > 0,
                        a >= 0,
                ;
            }
            file_size
        };
        let last: u64 = if stop == 0 {
            0
        } else {
            (stop - 1) / cs
        };
        assert(last == last_wanted(end, file_size, cs));
        let lo: u64 = offset / cs;
        let mut r: Vec<MissingChunk> = Vec::new();
        assert(r@ =~= Seq::<MissingChunk>::empty());
        if lo > last {
            return r;
        }
        proof {
            if stop > 0 {
                let a = (stop - 1) as int;
                let c = cs as int;
                assert(last * c <= a) by (nonlinear_arith)
                    requires
                        last == a / c,
                        c > 0,
                        a >= 0,
                ;
            }
        }
        let mut idx: u64 = lo;
        let mut more: bool = true;
        while more
            invariant
                self.wf(),
                self.chunk_cache.wf(),
                self@.chunks == self.chunk_cache@,
                cs == self@.chunks.chunk_size,
                cs > 0,
                last * cs <= u64::MAX,
                lo <= idx <= last,
                more ==> r@ == wanted(self@.chunks, inode, lo as int, idx as int, file_size),
                !more ==> r@ == wanted(self@.chunks, inode, lo as int, last + 1, file_size),
            decreases (if more {
                last + 1 - idx
            } else {
                0
            }),
        {
            assert(idx * cs <= last * cs) by (nonlinear_arith)
                requires
                    idx <= last,
            ;
            let chunk_offset: u64 = idx * cs;
            if self.chunk_cache.get(inode, chunk_offset).is_none() {
                let remaining: u64 = if file_size > chunk_offset {
                    file_size - chunk_offset
                } else {
                    0
                };
                let size: u64 = if remaining < cs {
                    remaining
                } else {
                    cs
                };
                r.push(MissingChunk { idx, offset: chunk_offset, size });
            }
            if idx == last {
                more = false;
            } else {
                idx += 1;
            }
        }
        r
    }

    /// Begin to read at most `size` bytes from `offset` of a file. A file that is
    /// not cached cannot be read; one whose entry is out of date is fetched
    /// first.
    pub fn read_begin(&mut self, inode: u64, size: u32, offset: u64, now_ms: u64) -> (r: ReadStep)
        requires
            old(self).wf(),
        ensures
            final(self).wf(),
            final(self)@ == (FsView { meta: old(self)@.meta.fetched(inode, now_ms), ..old(self)@ }),
            match old(self)@.meta.answer(inode, now_ms) {
                None => r == if old(self)@.meta.needs_refetch(inode, now_ms) {
                    ReadStep::Refetch
                } else {
                    ReadStep::Fail { errno: ENOENT }
                },
                Some(e) => read_step(old(self)@, inode, size, offset, e, r),
            },
    {
        let e: CachedEntry = match self.cache.get_inode(inode, now_ms) {
            Some(e) => e,
            None => {
                if self.keeps_entry(inode) {
                    return ReadStep::Refetch;
                }
                return ReadStep::Fail { errno: ENOENT };
            },
        };
        proof {
            self.lemma_parts();
        }
        match buffers_get(&self.inline_buffers, inode) {
            Some(b) => {
                return ReadStep::Reply { data: b.read_at(offset, size) };
            },
            None => {
                if e.fid.is_none() && e.chunks.len() == 0 {
                    return ReadStep::FetchInline;
                }
            },
        }
        if let Reliability::EC { data, parity } = e.reliability {
            return self.ec_begin(inode, size, offset, e, data, parity);
        }
        let cs: u64 = self.chunk_cache.chunk_size();
        let file_size: u64 = find_readable_size(&e, cs);
        if e.placement.is_some() && e.fid.is_none() {
            if offset >= file_size {
                let data: Vec<u8> = Vec::new();
                assert(data@ =~= Seq::<u8>::empty());
                return ReadStep::Reply { data };
            }
            let end: u64 = end_of_read(offset, size, file_size);
            let missing: Vec<MissingChunk> = self.find_missing(inode, offset, end, file_size);
            return ReadStep::Striped { plan: ReadPlan { inode, offset, end, entry: e, missing } };
        }
        match e.fid {
            None => ReadStep::Fail { errno: EIO },
            Some(fid) => {
                if offset >= file_size && e.chunks.len() == 0 {
                    let data: Vec<u8> = Vec::new();
                    assert(data@ =~= Seq::<u8>::empty());
                    return ReadStep::Reply { data };
                }
                let end: u64 = end_of_read(offset, size, file_size);
                let missing: Vec<MissingChunk> = self.find_missing(inode, offset, end, file_size);
                let lease: Option<(u64, u64)> = if missing.len() > 0 {
                    Some(find_lease_range(offset, end))
                } else {
                    None
                };
                ReadStep::Flat {
                    plan: ReadPlan { inode, offset, end, entry: e, missing },
                    volume_id: fid.volume_id.0,
                    lease,
                }
            },
        }
    }

    /// The server answered a request for the inline data of a file. Where it
    /// sent some, or another reader did meanwhile, the read is served from the
    /// buffer; a file without any data to be found cannot be read.
    pub fn read_inline_fetched(
        &mut self,
        inode: u64,
        size: u32,
        offset: u64,
        attr: Option<MetadataAttr>,
    ) -> (r: Result<Vec<u8>, i32>)
        requires
            old(self).wf(),
        ensures
            final(self).wf(),
            final(self)@ == inline_arrived(old(self)@, inode, attr),
            match r {
                Ok(data) => final(self)@.inline.contains_key(inode) && data@ == slice_of(
                    final(self)@.inline[inode].data,
                    offset,
                    size,
                ),
                Err(errno) => errno == EIO && !final(self)@.inline.contains_key(inode),
            },
    {
        if let Some(a) = attr {
            self.store_inline(inode, a);
        }
        match buffers_get(&self.inline_buffers, inode) {
            Some(b) => Ok(b.read_at(offset, size)),
            None => Err(EIO),
        }
    }

    /// Keep the inline data that the server sent for a file. Attributes of a
    /// file that is not inline change nothing.
    pub(crate) fn store_inline(&mut self, inode: u64, attr: MetadataAttr) -> (stored: bool)
        requires
            old(self).wf(),
        ensures
            final(self).wf(),
            stored == attr.is_inline,
            final(self)@ == inline_arrived(old(self)@, inode, Some(attr)),
    {
        if !attr.is_inline {
            return false;
        }
        let data: Vec<u8> = match attr.inline_data {
            Some(d) => d,
            None => Vec::new(),
        };
        assert(data@ =~= sent_data(Some(attr)));
        let n: usize = data.len();
        self.cache.set_content_size(inode, attr.size);
        if let Some(max) = attr.inline_max_size {
            limits_insert(&mut self.inline_max_sizes, inode, max);
        }
        buffers_insert(
            &mut self.inline_buffers,
            inode,
            InlineBuffer {
                data,
                dirty: false,
                original_len: n,
                modified_in_place: false,
                needs_refresh: false,
            },
        );
        true
    }

    /// The needle of a missing chunk of a striped file.
    pub fn stripe_target(&self, plan: &ReadPlan, i: usize) -> (r: Needle)
        requires
            self.wf(),
            i < plan.missing@.len(),
            plan.entry@.placement is Some,
            plan.entry@.chunks.len() > 0,
        ensures
            r == stripe_needle_of(
                plan.entry@,
                self@.chunks.chunk_size,
                plan.missing@[i as int].offset,
            ),
    {
        let offset: u64 = plan.missing[i].offset;
        let cs: u64 = self.chunk_cache.chunk_size();
        let located: Option<(u64, u64)> = match &plan.entry.placement {
            Some(p) => resolve_stripe_chunk(p, &plan.entry.chunks, offset, cs),
            None => None,
        };
        match located {
            Some((v, n)) => Needle { volume_id: v, needle_id: n },
            None => match find_last(&plan.entry.chunks, offset) {
                Some(c) => Needle { volume_id: c.volume_id, needle_id: c.needle_id },
                None => Needle {
                    volume_id: plan.entry.chunks[0].volume_id,
                    needle_id: plan.entry.chunks[0].needle_id,
                },
            },
        }
    }

    /// The needle of a missing chunk of a flat file.
    pub fn flat_target(&self, plan: &ReadPlan, i: usize) -> (r: Needle)
        requires
            i < plan.missing@.len(),
            plan.entry@.fid is Some,
        ensures
            r == flat_needle_of(
                plan.entry@,
                plan.missing@[i as int].idx,
                plan.missing@[i as int].offset,
            ),
            forall|j: int| #[trigger]
                counts(plan.entry@.chunks, j) && plan.entry@.chunks[j].offset
                    == plan.missing@[i as int].offset ==> r.needle_id
                    == plan.entry@.chunks[j].needle_id && r.volume_id
                    == plan.entry@.chunks[j].volume_id,
    {
        let m: MissingChunk = plan.missing[i];
        proof {
            law_flat_reads_go_by_the_list(plan.entry@, m.idx, m.offset);
        }
        match find_last(&plan.entry.chunks, m.offset) {
            Some(c) => Needle { volume_id: c.volume_id, needle_id: c.needle_id },
            None => {
                let fid: Fid = plan.entry.fid.unwrap();
                Needle {
                    volume_id: fid.volume_id.0,
                    needle_id: fid.file_key.saturating_add(m.idx),
                }
            },
        }
    }

    /// Put a fetched chunk into the cache.
    fn store_chunk(&mut self, inode: u64, offset: u64, data: Vec<u8>, mtime: i64)
        requires
            old(self).wf(),
        ensures
            final(self).wf(),
            final(self)@ == chunk_stored(old(self)@, inode, offset, data@, mtime),
    {
        self.chunk_cache.put(inode, offset, bytes_from_vec(data), to_unsigned(mtime), 0);
    }

    /// A volume server answered a read of a chunk of a striped file. Data that
    /// its checksum does not allow fails the read. A needle that is not there
    /// may still be waiting for a flush; if not, the chunk is a hole. After any
    /// other failure a copy is tried, where there is one.
    pub fn stripe_chunk_read(&mut self, plan: &ReadPlan, i: usize, result: Result<Vec<u8>, String>)
        -> (r: ChunkStep)
        requires
            old(self).wf(),
            i < plan.missing@.len(),
            plan.entry@.placement is Some,
            plan.entry@.chunks.len() > 0,
            plan.missing@[i as int].size <= usize::MAX,
        ensures
            final(self).wf(),
            ({
                let m = plan.missing@[i as int];
                let e = plan.entry@;
                match result {
                    Ok(data) => if listed_intact(e, m.offset, data@) {
                        &&& r == ChunkStep::Stored
                        &&& final(self)@ == chunk_stored(
                            old(self)@,
                            plan.inode,
                            m.offset,
                            data@,
                            e.mtime,
                        )
                    } else {
                        r == ChunkStep::Fail { errno: EIO } && final(self)@ == old(self)@
                    },
                    Err(msg) => if says_needle_missing(msg@) {
                        if waiting_for(old(self)@.waiting, plan.inode).contains(m.idx) {
                            &&& r == ChunkStep::FlushThenRead {
                                needle: reread_needle(e, old(self)@.chunks.chunk_size, m.offset),
                            }
                            &&& final(self)@ == old(self)@
                        } else {
                            &&& r == ChunkStep::Stored
                            &&& final(self)@ == hole_stored(old(self)@, plan.inode, m, e.mtime)
                        }
                    } else {
                        r == replica_step(e, m.offset) && final(self)@ == old(self)@
                    },
                }
            }),
    {
        let m: MissingChunk = plan.missing[i];
        match result {
            Ok(data) => {
                if self.check_listed(&plan.entry, m.offset, &data) {
                    self.store_chunk(plan.inode, m.offset, data, plan.entry.mtime);
                    ChunkStep::Stored
                } else {
                    ChunkStep::Fail { errno: EIO }
                }
            },
            Err(msg) => {
                if is_needle_missing(msg.as_str()) {
                    if self.dirty.is_dirty(plan.inode, m.idx) {
                        let cs: u64 = self.chunk_cache.chunk_size();
                        let located: Option<(u64, u64)> = match &plan.entry.placement {
                            Some(p) => resolve_stripe_chunk(p, &plan.entry.chunks, m.offset, cs),
                            None => None,
                        };
                        let needle = match located {
                            Some((v, n)) => Needle { volume_id: v, needle_id: n },
                            None => Needle {
                                volume_id: plan.entry.chunks[0].volume_id,
                                needle_id: plan.entry.chunks[0].needle_id,
                            },
                        };
                        ChunkStep::FlushThenRead { needle }
                    } else {
                        self.store_hole(plan.inode, m, plan.entry.mtime);
                        ChunkStep::Stored
                    }
                } else {
                    self.replica_next(&plan.entry, m.offset)
                }
            },
        }
    }

    /// The data that the chunk list's checksum allows.
    fn check_listed(&self, e: &CachedEntry, offset: u64, data: &Vec<u8>) -> (r: bool)
        ensures
            r == listed_intact(e@, offset, data@),
    {
        match find_last(&e.chunks, offset) {
            Some(c) => data_intact(c.crc32, data.as_slice()),
            None => true,
        }
    }

    /// The copy to try after a failed read.
    fn replica_next(&self, e: &CachedEntry, offset: u64) -> (r: ChunkStep)
        ensures
            r == replica_step(e@, offset),
    {
        match find_last(&e.replica_chunks, offset) {
            Some(c) => ChunkStep::TryReplica {
                needle: Needle { volume_id: c.volume_id, needle_id: c.needle_id },
            },
            None => ChunkStep::Fail { errno: EIO },
        }
    }

    /// Put zeros into the cache for a chunk that was never written.
    fn store_hole(&mut self, inode: u64, m: MissingChunk, mtime: i64)
        requires
            old(self).wf(),
            m.size <= usize::MAX,
        ensures
            final(self).wf(),
            final(self)@ == hole_stored(old(self)@, inode, m, mtime),
    {
        let data: Vec<u8> = zeros(m.size as usize);
        self.store_chunk(inode, m.offset, data, mtime);
    }

    /// A chunk of a striped file was read again after a flush. Where that
    /// failed too, the chunk is a hole.
    pub fn stripe_chunk_reread(&mut self, plan: &ReadPlan, i: usize, result: Option<Vec<u8>>) -> (r:
        ChunkStep)
        requires
            old(self).wf(),
            i < plan.missing@.len(),
            plan.missing@[i as int].size <= usize::MAX,
        ensures
            final(self).wf(),
            r == ChunkStep::Stored,
            ({
                let m = plan.missing@[i as int];
                final(self)@ == match result {
                    Some(data) => chunk_stored(
                        old(self)@,
                        plan.inode,
                        m.offset,
                        data@,
                        plan.entry@.mtime,
                    ),
                    None => hole_stored(old(self)@, plan.inode, m, plan.entry@.mtime),
                }
            }),
    {
        let m: MissingChunk = plan.missing[i];
        match result {
            Some(data) => {
                self.store_chunk(plan.inode, m.offset, data, plan.entry.mtime);
            },
            None => {
                self.store_hole(plan.inode, m, plan.entry.mtime);
            },
        }
        ChunkStep::Stored
    }

    /// A copy of a chunk was read, or could not be. Data that the chunk's
    /// checksum does not allow fails the read.
    pub fn replica_read(&mut self, plan: &ReadPlan, i: usize, result: Option<Vec<u8>>) -> (r:
        ChunkStep)
        requires
            old(self).wf(),
            i < plan.missing@.len(),
        ensures
            final(self).wf(),
            ({
                let m = plan.missing@[i as int];
                let e = plan.entry@;
                if result matches Some(data) && listed_intact(e, m.offset, data@) {
                    &&& r == ChunkStep::Stored
                    &&& final(self)@ == chunk_stored(
                        old(self)@,
                        plan.inode,
                        m.offset,
                        result->0@,
                        e.mtime,
                    )
                } else {
                    r == ChunkStep::Fail { errno: EIO } && final(self)@ == old(self)@
                }
            }),
    {
        let m: MissingChunk = plan.missing[i];
        match result {
            Some(data) => {
                if self.check_listed(&plan.entry, m.offset, &data) {
                    self.store_chunk(plan.inode, m.offset, data, plan.entry.mtime);
                    ChunkStep::Stored
                } else {
                    ChunkStep::Fail { errno: EIO }
                }
            },
            None => ChunkStep::Fail { errno: EIO },
        }
    }

    /// A volume server answered a read of a chunk of a flat file. The data is
    /// kept whatever its checksum: the file may have been recoded meanwhile. A
    /// needle that is not there is put off until the other chunks are done.
    /// After any other failure a copy is tried, where there is one.
    pub fn flat_chunk_read(&mut self, plan: &ReadPlan, i: usize, result: Result<Vec<u8>, String>)
        -> (r: ChunkStep)
        requires
            old(self).wf(),
            i < plan.missing@.len(),
        ensures
            final(self).wf(),
            ({
                let m = plan.missing@[i as int];
                let e = plan.entry@;
                match result {
                    Ok(data) => {
                        &&& r == ChunkStep::Stored
                        &&& final(self)@ == chunk_stored(
                            old(self)@,
                            plan.inode,
                            m.offset,
                            data@,
                            e.mtime,
                        )
                    },
                    Err(msg) => {
                        &&& final(self)@ == old(self)@
                        &&& r == if says_needle_missing(msg@) {
                            ChunkStep::Deferred
                        } else {
                            replica_step(e, m.offset)
                        }
                    },
                }
            }),
    {
        let m: MissingChunk = plan.missing[i];
        match result {
            Ok(data) => {
                self.store_chunk(plan.inode, m.offset, data, plan.entry.mtime);
                ChunkStep::Stored
            },
            Err(msg) => {
                if is_needle_missing(msg.as_str()) {
                    ChunkStep::Deferred
                } else {
                    self.replica_next(&plan.entry, m.offset)
                }
            },
        }
    }

    /// Come back to a chunk of a flat file whose needle was not there: it may
    /// still be waiting for a flush; if not, it is a hole.
    pub fn flat_deferred(&mut self, plan: &ReadPlan, i: usize) -> (r: ChunkStep)
        requires
            old(self).wf(),
            i < plan.missing@.len(),
            plan.entry@.fid is Some,
            plan.missing@[i as int].size <= usize::MAX,
        ensures
            final(self).wf(),
            ({
                let m = plan.missing@[i as int];
                let e = plan.entry@;
                if waiting_for(old(self)@.waiting, plan.inode).contains(m.idx) {
                    &&& final(self)@ == old(self)@
                    &&& r == ChunkStep::FlushThenRead {
                        needle: flat_reread_needle(e, m.idx, m.offset),
                    }
                } else {
                    &&& final(self)@ == hole_stored(old(self)@, plan.inode, m, e.mtime)
                    &&& r == ChunkStep::Stored
                }
            }),
    {
        let m: MissingChunk = plan.missing[i];
        if self.dirty.is_dirty(plan.inode, m.idx) {
            let at: usize = find_chunk(&plan.entry.chunks, m.offset);
            let needle = if at < plan.entry.chunks.len() {
                Needle {
                    volume_id: plan.entry.chunks[at].volume_id,
                    needle_id: plan.entry.chunks[at].needle_id,
                }
            } else {
                let fid: Fid = plan.entry.fid.unwrap();
                Needle {
                    volume_id: fid.volume_id.0,
                    needle_id: fid.file_key.saturating_add(m.idx),
                }
            };
            ChunkStep::FlushThenRead { needle }
        } else {
            self.store_hole(plan.inode, m, plan.entry.mtime);
            ChunkStep::Stored
        }
    }

    /// A chunk of a flat file was read again after a flush. Where that failed
    /// too, the read fails.
    pub fn flat_chunk_reread(&mut self, plan: &ReadPlan, i: usize, result: Option<Vec<u8>>) -> (r:
        ChunkStep)
        requires
            old(self).wf(),
            i < plan.missing@.len(),
        ensures
            final(self).wf(),
            ({
                let m = plan.missing@[i as int];
                match result {
                    Some(data) => {
                        &&& r == ChunkStep::Stored
                        &&& final(self)@ == chunk_stored(
                            old(self)@,
                            plan.inode,
                            m.offset,
                            data@,
                            plan.entry@.mtime,
                        )
                    },
                    None => r == ChunkStep::Fail { errno: EIO } && final(self)@ == old(self)@,
                }
            }),
    {
        let m: MissingChunk = plan.missing[i];
        match result {
            Some(data) => {
                self.store_chunk(plan.inode, m.offset, data, plan.entry.mtime);
                ChunkStep::Stored
            },
            None => ChunkStep::Fail { errno: EIO },
        }
    }

    /// The data of a flat file, once its chunks are fetched: no chunk serves more
    /// bytes than the file's chunk list vouches for.
    pub fn flat_finish(&self, plan: &ReadPlan) -> (r: Result<Vec<u8>, i32>)
        requires
            self.wf(),
            plan.end - plan.offset <= usize::MAX,
        ensures
            match copied(
                self@.chunks,
                plan.inode,
                plan.offset,
                plan.end,
                Some(plan.entry@.chunks),
            ) {
                Some(data) => r matches Ok(v) && v@ == data,
                None => r == Err::<Vec<u8>, i32>(EIO),
            },
    {
        self.copy_out(plan.inode, plan.offset, plan.end, Some(&plan.entry.chunks))
    }

    /// The data of a striped file, once its chunks are fetched. The chunk list
    /// does not count: it names stripe units.
    pub fn striped_finish(&self, plan: &ReadPlan) -> (r: Result<Vec<u8>, i32>)
        requires
            self.wf(),
            plan.end - plan.offset <= usize::MAX,
        ensures
            match copied(self@.chunks, plan.inode, plan.offset, plan.end, None) {
                Some(data) => r matches Ok(v) && v@ == data,
                None => r == Err::<Vec<u8>, i32>(EIO),
            },
    {
        self.copy_out(plan.inode, plan.offset, plan.end, None)
    }

    /// The data of an erasure-coded file, once its groups are fetched. The chunk
    /// list does not count: it names shards.
    pub fn ec_finish(&self, plan: &EcPlan) -> (r: Result<Vec<u8>, i32>)
        requires
            self.wf(),
            plan.end - plan.offset <= usize::MAX,
        ensures
            match copied(self@.chunks, plan.inode, plan.offset, plan.end, None) {
                Some(data) => r matches Ok(v) && v@ == data,
                None => r == Err::<Vec<u8>, i32>(EIO),
            },
    {
        self.copy_out(plan.inode, plan.offset, plan.end, None)
    }

    /// Copy bytes of a file out of the cached chunks. With a chunk list, no
    /// chunk serves more bytes than the list vouches for.
    pub fn copy_out(&self, inode: u64, offset: u64, end: u64, listed: Option<&Vec<CachedFileChunk>>)
        -> (r: Result<Vec<u8>, i32>)
        requires
            self.wf(),
            end - offset <= usize::MAX,
        ensures
            ({
                let l = match listed {
                    Some(v) => Some(v@),
                    None => None,
                };
                match copied(self@.chunks, inode, offset, end, l) {
                    Some(data) => r matches Ok(v) && v@ == data,
                    None => r == Err::<Vec<u8>, i32>(EIO),
                }
            }),
    {
        proof {
            self.lemma_parts();
        }
        let ghost l = match listed {
            Some(v) => Some(v@),
            None => None,
        };
        let ghost goal = copied(self@.chunks, inode, offset, end, l);
        let cs: u64 = self.chunk_cache.chunk_size();
        let mut out: Vec<u8> = Vec::new();
        let mut position: u64 = offset;
        while position < end
            invariant
                self.wf(),
                self.chunk_cache.wf(),
                self@.chunks == self.chunk_cache@,
                cs == self@.chunks.chunk_size,
                cs > 0,
                end - position <= usize::MAX,
                l == match listed {
                    Some(v) => Some(v@),
                    None => None,
                },
                goal == copied(self@.chunks, inode, offset, end, l),
                goal is Some == copied(self@.chunks, inode, position, end, l) is Some,
                goal is Some ==> goal->0 == out@ + copied(
                    self@.chunks,
                    inode,
                    position,
                    end,
                    l,
                )->0,
            decreases end - position,
        {
            let c: ChunkData = match self.chunk_cache.get(inode, position) {
                Some(c) => c,
                None => {
                    return Err(EIO);
                },
            };
            let within: u64 = position % cs;
            let data: &[u8] = bytes_slice(&c.data);
            let have: u64 = data.len() as u64;
            let serve: u64 = match listed {
                None => have,
                Some(v) => {
                    proof {
                        let p = position as int;
                        let d = cs as int;
                        assert(p - p % d == (p / d) * d && p % d <= p) by (nonlinear_arith)
                            requires
                                d > 0,
                                p >= 0,
                        ;
                    }
                    let start: u64 = position - within;
                    let size: u64 = match find_last(v, start) {
                        Some(m) => m.size,
                        None => 0,
                    };
                    if have < size {
                        have
                    } else {
                        size
                    }
                },
            };
            assert(serve == served_len(c@, position, cs, l));
            let ghost before = out@;
            if serve > within {
                let left: u64 = serve - within;
                let n: u64 = if left < end - position {
                    left
                } else {
                    end - position
                };
                let piece: &[u8] = vstd::slice::slice_subrange(
                    data,
                    within as usize,
                    (within + n) as usize,
                );
                let mut piece: Vec<u8> = vstd::slice::slice_to_vec(piece);
                let ghost pv = piece@;
                out.append(&mut piece);
                position = position + n;
                proof {
                    let rest = copied(self@.chunks, inode, position, end, l);
                    if rest is Some {
                        assert(before + (pv + rest->0) =~= out@ + rest->0);
                    }
                }
            } else {
                let to_end: u64 = cs - within;
                let n: u64 = if to_end < end - position {
                    to_end
                } else {
                    end - position
                };
                let mut piece: Vec<u8> = zeros(n as usize);
                let ghost pv = piece@;
                out.append(&mut piece);
                position = position + n;
                proof {
                    let rest = copied(self@.chunks, inode, position, end, l);
                    if rest is Some {
                        assert(before + (pv + rest->0) =~= out@ + rest->0);
                    }
                }
            }
        }
        assert(goal is Some);
        assert(goal->0 =~= out@);
        Ok(out)
    }
}

} // verus!
