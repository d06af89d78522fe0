//! The chunk cache: file data in chunks of a fixed size, keyed by inode and
//! chunk index, bounded by the number of bytes it holds.

use bytes::Bytes;
use std::collections::HashMap;
use vstd::prelude::*;
use vstd::std_specs::iter::IteratorSpec;

verus! {

/// The default chunk size: 1 MiB.
pub const DEFAULT_CHUNK_SIZE: u64 = 1_048_576;

/// How many bytes the cache holds by default: 512 MiB.
pub const DEFAULT_MAX_BYTES: usize = 536_870_912;

/// `bytes::Bytes`, a shared slice of bytes, opaque.
#[verifier::external_type_specification]
#[verifier::external_body]
pub struct ExBytes(Bytes);

/// The bytes that a `Bytes` holds.
pub uninterp spec fn bytes_of(b: &Bytes) -> Seq<u8>;

/// `bytes::Bytes::from` takes over the bytes of a vector.
#[verifier::external_body]
pub(crate) fn bytes_from_vec(v: Vec<u8>) -> (r: Bytes)
    ensures
        bytes_of(&r) == v@,
{
    Bytes::from(v)
}

/// `bytes::Bytes::clone` gives a second handle on the same bytes.
#[verifier::external_body]
pub(crate) fn bytes_clone(b: &Bytes) -> (r: Bytes)
    ensures
        bytes_of(&r) == bytes_of(b),
{
    b.clone()
}

/// `bytes::Bytes::len` is the number of bytes held.
#[verifier::external_body]
pub(crate) fn bytes_len(b: &Bytes) -> (r: usize)
    ensures
        r == bytes_of(b).len(),
{
    b.len()
}

/// A `Bytes` dereferences to the slice that it holds.
#[verifier::external_body]
pub(crate) fn bytes_slice(b: &Bytes) -> (r: &[u8])
    ensures
        r@ == bytes_of(b),
{
    b
}

/// What a chunk says.
pub struct ChunkView {
    pub data: Seq<u8>,
    pub offset: u64,
    pub size: u64,
    pub mtime: u64,
    pub crc32: u32,
    pub dirty: bool,
}

/// One cached chunk.
#[derive(Debug)]
pub struct ChunkData {
    pub data: Bytes,
    pub offset: u64,
    pub size: u64,
    pub mtime: u64,
    pub crc32: u32,
    pub dirty: bool,
}

impl View for ChunkData {
    type V = ChunkView;

    open spec fn view(&self) -> ChunkView {
        ChunkView {
            data: bytes_of(&self.data),
            offset: self.offset,
            size: self.size,
            mtime: self.mtime,
            crc32: self.crc32,
            dirty: self.dirty,
        }
    }
}

impl Clone for ChunkData {
    fn clone(&self) -> (r: Self)
        ensures
            r@ == self@,
    {
        ChunkData {
            data: bytes_clone(&self.data),
            offset: self.offset,
            size: self.size,
            mtime: self.mtime,
            crc32: self.crc32,
            dirty: self.dirty,
        }
    }
}

/// Chunks by inode and index.
pub type Chunks = Map<(u64, u64), ChunkView>;

/// The number of bytes that some chunks hold together.
pub open spec fn total(m: Chunks) -> nat
    decreases m.dom().len(),
    when m.dom().finite()
{
    if m.dom().len() == 0 {
        0
    } else {
        let k = m.dom().choose();
        m[k].data.len() + total(m.remove(k))
    }
}

/// The byte count that the cache keeps: the sum, in a 64-bit counter.
pub open spec fn counter(m: Chunks) -> u64 {
    (total(m) % 0x1_0000_0000_0000_0000) as u64
}

/// A chunk that may be thrown out: it is not dirty, and it has a place in the
/// order of modification times.
pub open spec fn evictable(m: Chunks, k: (u64, u64)) -> bool {
    m.contains_key(k) && !m[k].dirty && m[k].mtime < u64::MAX
}

/// `a` was modified before `b`; inode and index decide between equals.
pub open spec fn older(m: Chunks, a: (u64, u64), b: (u64, u64)) -> bool {
    m[a].mtime < m[b].mtime || (m[a].mtime == m[b].mtime && (a.0 < b.0 || (a.0 == b.0 && a.1
        < b.1)))
}

/// The oldest chunk that may be thrown out.
pub open spec fn is_victim(m: Chunks, k: (u64, u64)) -> bool {
    evictable(m, k) && forall|o: (u64, u64)| #[trigger]
        evictable(m, o) ==> o == k || older(m, k, o)
}

/// The chunks after the oldest ones that may go have gone, one by one, until
/// at most `limit` bytes are left or none may go.
pub open spec fn evicted(m: Chunks, limit: u64) -> Chunks
    decreases m.dom().len(),
    when m.dom().finite()
{
    if counter(m) <= limit {
        m
    } else if exists|k: (u64, u64)| is_victim(m, k) {
        let k = choose|k: (u64, u64)| is_victim(m, k);
        evicted(m.remove(k), limit)
    } else {
        m
    }
}

/// The chunks with those of `inode` from index `first` on left out.
pub open spec fn cut_from(m: Chunks, inode: u64, first: u64) -> Chunks {
    Map::new(|k: (u64, u64)| m.contains_key(k) && !(k.0 == inode && k.1 >= first), |k: (u64, u64)|
        m[k])
}

/// The chunk in step with the volume server.
pub open spec fn clean(c: ChunkView) -> ChunkView {
    ChunkView { dirty: false, ..c }
}

/// The chunks after those of `inode` whose index is in `which` were found in
/// step with the volume server.
pub open spec fn cleaned(m: Chunks, inode: u64, which: spec_fn(u64) -> bool) -> Chunks {
    Map::new(|k: (u64, u64)| m.contains_key(k), |k: (u64, u64)|
        if k.0 == inode && which(k.1) {
            clean(m[k])
        } else {
            m[k]
        })
}

/// The first `n` bytes, or all where there are fewer.
pub open spec fn prefix(s: Seq<u8>, n: int) -> Seq<u8> {
    if s.len() > n {
        s.take(n)
    } else {
        s
    }
}

/// The chunks of a file cut to `size` bytes: those that start at or beyond it
/// are left out, and the one that it cuts through is shorter.
pub open spec fn truncated(m: Chunks, inode: u64, size: u64, chunk_size: u64) -> Chunks {
    Map::new(
        |k: (u64, u64)| m.contains_key(k) && !(k.0 == inode && k.1 * chunk_size >= size),
        |k: (u64, u64)|
            if k.0 == inode {
                ChunkView { data: prefix(m[k].data, size - k.1 * chunk_size), ..m[k] }
            } else {
                m[k]
            },
    )
}

/// The chunks that are dirty.
pub open spec fn dirty_only(m: Chunks) -> Chunks {
    Map::new(|k: (u64, u64)| m.contains_key(k) && m[k].dirty, |k: (u64, u64)| m[k])
}

/// Some chunk of the inode is dirty.
pub open spec fn has_dirty(m: Chunks, inode: u64) -> bool {
    exists|k: (u64, u64)| #[trigger] m.contains_key(k) && k.0 == inode && m[k].dirty
}

/// Some chunk of the inode is cached.
pub open spec fn has_any_chunk(m: Chunks, inode: u64) -> bool {
    exists|k: (u64, u64)| #[trigger] m.contains_key(k) && k.0 == inode
}

/// The place and size of each chunk of `lo..hi` that is not cached.
pub open spec fn missing(m: Chunks, inode: u64, lo: int, hi: int, chunk_size: u64) -> Seq<
    (u64, u64),
>
    decreases hi - lo,
{
    if hi <= lo {
        Seq::empty()
    } else {
        let before = missing(m, inode, lo, hi - 1, chunk_size);
        if m.contains_key((inode, (hi - 1) as u64)) {
            before
        } else {
            before.push((((hi - 1) * chunk_size) as u64, chunk_size))
        }
    }
}

/// What the chunk cache holds.
pub struct ChunksView {
    pub chunks: Chunks,
    pub chunk_size: u64,
    pub max_bytes: usize,
}

impl ChunksView {
    /// The key of the chunk that holds byte `offset` of an inode.
    pub open spec fn key(self, inode: u64, offset: u64) -> (u64, u64) {
        (inode, (offset as int / self.chunk_size as int) as u64)
    }

    /// The chunk that holds byte `offset` of an inode, if it is cached.
    pub open spec fn at(self, inode: u64, offset: u64) -> Option<ChunkView> {
        if self.chunks.contains_key(self.key(inode, offset)) {
            Some(self.chunks[self.key(inode, offset)])
        } else {
            None
        }
    }

    /// The cache after a chunk was put into it: the chunk is dirty, and older
    /// chunks made room.
    pub open spec fn stored(
        self,
        inode: u64,
        offset: u64,
        data: Seq<u8>,
        mtime: u64,
        crc32: u32,
    ) -> ChunksView {
        let k = self.key(inode, offset);
        let m = self.chunks.insert(
            k,
            ChunkView {
                data,
                offset: (k.1 * self.chunk_size) as u64,
                size: self.chunk_size,
                mtime,
                crc32,
                dirty: true,
            },
        );
        ChunksView {
            chunks: if self.max_bytes > 0 {
                evicted(m, self.max_bytes as u64)
            } else {
                m
            },
            ..self
        }
    }

    /// The cache after new data was written into the chunk that holds byte
    /// `offset`; nothing changes where it is not cached.
    pub open spec fn rewritten(
        self,
        inode: u64,
        offset: u64,
        data: Seq<u8>,
        mtime: u64,
    ) -> ChunksView {
        let k = self.key(inode, offset);
        if self.chunks.contains_key(k) {
            ChunksView {
                chunks: self.chunks.insert(
                    k,
                    ChunkView { data, mtime, dirty: true, ..self.chunks[k] },
                ),
                ..self
            }
        } else {
            self
        }
    }

    /// The cache without the chunks of an inode.
    pub open spec fn dropped(self, inode: u64) -> ChunksView {
        ChunksView { chunks: cut_from(self.chunks, inode, 0), ..self }
    }

    /// The cache after all chunks of an inode were found in step with the
    /// volume server.
    pub open spec fn all_cleaned(self, inode: u64) -> ChunksView {
        ChunksView { chunks: cleaned(self.chunks, inode, |i: u64| true), ..self }
    }

    /// The cache after some chunks of an inode were found in step with the
    /// volume server.
    pub open spec fn some_cleaned(self, inode: u64, which: Seq<u64>) -> ChunksView {
        ChunksView { chunks: cleaned(self.chunks, inode, |i: u64| which.contains(i)), ..self }
    }

    /// The cache after a file was cut to `size`.
    pub open spec fn cut(self, inode: u64, size: u64) -> ChunksView {
        ChunksView { chunks: truncated(self.chunks, inode, size, self.chunk_size), ..self }
    }
}

/// A chunk's key as one number.
spec fn pack(k: (u64, u64)) -> u128 {
    (k.0 * 0x1_0000_0000_0000_0000 + k.1) as u128
}

/// A chunk's key as one number.
fn pack_key(inode: u64, index: u64) -> (r: u128)
    ensures
        r == pack((inode, index)),
        r / 0x1_0000_0000_0000_0000 == inode,
        r % 0x1_0000_0000_0000_0000 == index,
{
    (inode as u128) * 0x1_0000_0000_0000_0000u128 + index as u128
}

proof fn lemma_pack_injective()
    ensures
        forall|a: (u64, u64), b: (u64, u64)| #[trigger] pack(a) == #[trigger] pack(b) ==> a == b,
{
}

/// The pairs whose packed form is in the table.
spec fn unpacked(m: Map<u128, ChunkData>) -> Chunks {
    Map::new(|k: (u64, u64)| m.contains_key(pack(k)), |k: (u64, u64)| m[pack(k)]@)
}

proof fn lemma_unpacked_finite(m: Map<u128, ChunkData>)
    requires
        m.dom().finite(),
    ensures
        unpacked(m).dom().finite(),
{
    let f = |p: u128|
        ((p / 0x1_0000_0000_0000_0000) as u64, (p % 0x1_0000_0000_0000_0000) as u64);
    let image = m.dom().map(f);
    m.dom().lemma_map_finite(f);
    assert forall|k: (u64, u64)| unpacked(m).dom().contains(k) implies image.contains(k) by {
        assert(f(pack(k)) == k);
    }
    vstd::set_lib::lemma_len_subset(unpacked(m).dom(), image);
}

pub proof fn lemma_total_remove(m: Chunks, k: (u64, u64))
    requires
        m.dom().finite(),
        m.contains_key(k),
    ensures
        total(m) == m[k].data.len() + total(m.remove(k)),
    decreases m.dom().len(),
{
    let c = m.dom().choose();
    assert(m.dom().contains(c));
    if c != k {
        let mc = m.remove(c);
        let mk = m.remove(k);
        assert(mc.dom() =~= m.dom().remove(c));
        assert(mk.dom() =~= m.dom().remove(k));
        lemma_total_remove(mc, k);
        lemma_total_remove(mk, c);
        assert(mc.remove(k) =~= mk.remove(c));
    }
}

pub proof fn lemma_total_insert(m: Chunks, k: (u64, u64), c: ChunkView)
    requires
        m.dom().finite(),
    ensures
        total(m.insert(k, c)) == c.data.len() + total(m.remove(k)),
        m.contains_key(k) ==> total(m) == m[k].data.len() + total(m.remove(k)),
        !m.contains_key(k) ==> m.remove(k) == m,
{
    let n = m.insert(k, c);
    assert(n.dom() =~= m.dom().insert(k));
    lemma_total_remove(n, k);
    assert(n.remove(k) =~= m.remove(k));
    if m.contains_key(k) {
        lemma_total_remove(m, k);
    } else {
        assert(m.remove(k) =~= m);
    }
}

proof fn lemma_victim_unique(m: Chunks, a: (u64, u64), b: (u64, u64))
    requires
        is_victim(m, a),
        is_victim(m, b),
    ensures
        a == b,
{
    assert(evictable(m, a));
    assert(evictable(m, b));
}

/// The chunk cache of a mount.
pub struct ChunkCache {
    map: HashMap<u128, ChunkData>,
    chunk_size: u64,
    max_bytes: usize,
    current: u64,
}

impl View for ChunkCache {
    type V = ChunksView;

    /// The byte counter is not a part of its own: `wf` ties it to the chunks.
    closed spec fn view(&self) -> ChunksView {
        ChunksView {
            chunks: unpacked(self.map@),
            chunk_size: self.chunk_size,
            max_bytes: self.max_bytes,
        }
    }
}

impl Default for ChunkCache {
    fn default() -> (r: Self)
        ensures
            r.wf(),
            r@ == (ChunksView {
                chunks: Map::empty(),
                chunk_size: DEFAULT_CHUNK_SIZE,
                max_bytes: DEFAULT_MAX_BYTES,
            }),
    {
        Self::with_defaults()
    }
}

impl ChunkCache {
    /// The byte count is the sum over the chunks, and chunks have a size.
    pub closed spec fn wf(&self) -> bool {
        &&& self.chunk_size > 0
        &&& self.map@.dom().finite()
        &&& self.current == counter(self@.chunks)
        &&& forall|p: u128| #[trigger] self.map@.contains_key(p) ==> exists|k: (u64, u64)| p == #[trigger] pack(k)
    }

    pub broadcast proof fn lemma_wf(&self)
        requires
            #[trigger] self.wf(),
        ensures
            self@.chunk_size > 0,
            self@.chunks.dom().finite(),
    {
        lemma_unpacked_finite(self.map@);
    }

    /// A cache that holds `max_chunks` full chunks.
    pub fn new(chunk_size: u64, max_chunks: usize) -> (r: Self)
        requires
            0 < chunk_size <= usize::MAX,
            chunk_size * max_chunks <= usize::MAX,
        ensures
            r.wf(),
            r@ == (ChunksView {
                chunks: Map::empty(),
                chunk_size,
                max_bytes: (chunk_size * max_chunks) as usize,
            }),
    {
        let max_bytes: usize = (chunk_size as usize) * max_chunks;
        Self::with_shards(chunk_size, max_bytes)
    }

    /// A cache that holds `max_bytes` bytes; any number where that is zero.
    pub fn with_max_bytes(chunk_size: u64, max_bytes: usize) -> (r: Self)
        requires
            0 < chunk_size,
        ensures
            r.wf(),
            r@ == (ChunksView { chunks: Map::empty(), chunk_size, max_bytes }),
    {
        Self::with_shards(chunk_size, max_bytes)
    }

    fn with_shards(chunk_size: u64, max_bytes: usize) -> (r: Self)
        requires
            0 < chunk_size,
        ensures
            r.wf(),
            r@ == (ChunksView { chunks: Map::empty(), chunk_size, max_bytes }),
    {
        broadcast use vstd::std_specs::hash::group_hash_axioms;

        let r = ChunkCache { map: HashMap::new(), chunk_size, max_bytes, current: 0 };
        assert(r@.chunks =~= Map::empty());
        r
    }

    /// A cache of the default sizes.
    pub fn with_defaults() -> (r: Self)
        ensures
            r.wf(),
            r@ == (ChunksView {
                chunks: Map::empty(),
                chunk_size: DEFAULT_CHUNK_SIZE,
                max_bytes: DEFAULT_MAX_BYTES,
            }),
    {
        ChunkCache::with_max_bytes(DEFAULT_CHUNK_SIZE, DEFAULT_MAX_BYTES)
    }

    /// The size of a chunk.
    pub fn chunk_size(&self) -> (r: u64)
        ensures
            r == self@.chunk_size,
    {
        self.chunk_size
    }

    /// The index of the chunk that holds byte `offset`.
    pub fn get_chunk_index(&self, offset: u64) -> (r: u64)
        requires
            self.wf(),
        ensures
            r == offset as int / self@.chunk_size as int,
    {
        offset / self.chunk_size
    }

    /// The place of byte `offset` in its chunk.
    pub fn get_chunk_offset(&self, offset: u64) -> (r: u64)
        requires
            self.wf(),
        ensures
            r == offset as int % self@.chunk_size as int,
    {
        offset % self.chunk_size
    }

    /// The chunk that holds byte `offset` of an inode.
    pub fn get(&self, inode: u64, offset: u64) -> (r: Option<ChunkData>)
        requires
            self.wf(),
        ensures
            match r {
                Some(c) => self@.at(inode, offset) == Some(c@),
                None => self@.at(inode, offset) is None,
            },
    {
        broadcast use vstd::std_specs::hash::group_hash_axioms;

        let key: u128 = pack_key(inode, self.get_chunk_index(offset));
        match self.map.get(&key) {
            Some(c) => Some(c.clone()),
            None => None,
        }
    }

    /// True if the chunk with this index is cached.
    fn holds(&self, inode: u64, index: u64) -> (r: bool)
        requires
            self.wf(),
        ensures
            r == self@.chunks.contains_key((inode, index)),
    {
        broadcast use vstd::std_specs::hash::group_hash_axioms;

        let key: u128 = pack_key(inode, index);
        self.map.contains_key(&key)
    }

    /// Take a chunk out.
    fn take(&mut self, inode: u64, index: u64) -> (r: Option<ChunkData>)
        requires
            old(self).wf(),
        ensures
            final(self).wf(),
            final(self)@ == (ChunksView {
                chunks: old(self)@.chunks.remove((inode, index)),
                ..old(self)@
            }),
            match r {
                Some(c) => old(self)@.chunks.contains_key((inode, index)) && c@ == old(
                    self,
                )@.chunks[(inode, index)],
                None => !old(self)@.chunks.contains_key((inode, index)),
            },
    {
        broadcast use vstd::std_specs::hash::group_hash_axioms;

        proof {
            lemma_pack_injective();
            lemma_unpacked_finite(self.map@);
        }
        let ghost m = self@.chunks;
        let key: u128 = pack_key(inode, index);
        let out: Option<ChunkData> = self.map.remove(&key);
        assert(self@.chunks =~= m.remove((inode, index)));
        if let Some(c) = &out {
            self.current = self.current.wrapping_sub(bytes_len(&c.data) as u64);
            proof {
                lemma_total_remove(m, (inode, index));
                lemma_counter_sub(total(m), c@.data.len(), total(self@.chunks));
            }
        } else {
            assert(m.remove((inode, index)) =~= m);
        }
        out
    }

    /// Put a chunk in, in place of the one under the same key.
    fn place(&mut self, inode: u64, index: u64, chunk: ChunkData)
        requires
            old(self).wf(),
        ensures
            final(self).wf(),
            final(self)@ == (ChunksView {
                chunks: old(self)@.chunks.insert((inode, index), chunk@),
                ..old(self)@
            }),
    {
        broadcast use vstd::std_specs::hash::group_hash_axioms;

        let ghost m0 = self@.chunks;
        let _old: Option<ChunkData> = self.take(inode, index);
        proof {
            lemma_pack_injective();
            lemma_unpacked_finite(self.map@);
        }
        let ghost m = self@.chunks;
        let ghost c = chunk@;
        let len: u64 = bytes_len(&chunk.data) as u64;
        let key: u128 = pack_key(inode, index);
        self.map.insert(key, chunk);
        self.current = self.current.wrapping_add(len);
        proof {
            assert(self@.chunks =~= m.insert((inode, index), c));
            assert(self@.chunks =~= m0.insert((inode, index), c));
            lemma_total_insert(m, (inode, index), c);
            assert(m.remove((inode, index)) =~= m);
            lemma_counter_add(total(m), c.data.len(), total(self@.chunks));
        }
    }

    /// The keys of all chunks, in no particular order.
    fn keys(&self) -> (r: Vec<(u64, u64)>)
        requires
            self.wf(),
        ensures
            r@.no_duplicates(),
            forall|k: (u64, u64)| #[trigger] self@.chunks.contains_key(k) <==> r@.contains(k),
            r@.len() == self@.chunks.dom().len(),
    {
        broadcast use vstd::std_specs::hash::group_hash_axioms;

        let mut r: Vec<(u64, u64)> = Vec::new();
        let ghost all = vstd::std_specs::hash::spec_keys_iter(&self.map).remaining();
        assert forall|i: int| 0 <= i < all.len() implies self.map@.contains_key(
            *#[trigger] all[i],
        ) by {
            assert(all.unref()[i] == *all[i]);
            assert(all.unref().to_set().contains(all.unref()[i]));
        }
        for k in it: self.map.keys()
            invariant
                it.seq() == all,
                r@.len() == it.index(),
                forall|i: int| 0 <= i < r@.len() ==> #[trigger] pack(r@[i]) == *all[i],
                forall|i: int| 0 <= i < all.len() ==> self.map@.contains_key(*#[trigger] all[i]),
                self.wf(),
        {
            let p: u128 = *k;
            proof {
                assert(self.map@.contains_key(*all[it.index()]));
                let pr = choose|pr: (u64, u64)| p == #[trigger] pack(pr);
            }
            let key: (u64, u64) = (
                (p / 0x1_0000_0000_0000_0000u128) as u64,
                (p % 0x1_0000_0000_0000_0000u128) as u64,
            );
            assert(pack(key) == p);
            r.push(key);
        }
        proof {
            lemma_pack_injective();
            let s = r@;
            assert forall|i: int, j: int| 0 <= i < s.len() && 0 <= j < s.len() && i != j implies s[i]
                != s[j] by {
                assert(pack(s[i]) == *all[i]);
                assert(pack(s[j]) == *all[j]);
            }
            assert forall|k: (u64, u64)| #[trigger]
                self@.chunks.contains_key(k) <==> s.contains(k) by {
                if self@.chunks.contains_key(k) {
                    assert(all.unref().to_set().contains(pack(k)));
                    let i = choose|i: int| 0 <= i < all.unref().len() && all.unref()[i] == pack(k);
                    assert(pack(s[i]) == pack(k));
                    assert(s[i] == k);
                }
                if s.contains(k) {
                    let i = choose|i: int| 0 <= i < s.len() && s[i] == k;
                    assert(pack(s[i]) == *all[i]);
                    assert(self.map@.contains_key(*all[i]));
                }
            }
            assert(s.to_set() =~= self@.chunks.dom());
            s.unique_seq_to_set();
        }
        r
    }
}

impl ChunkCache {
    /// Change a cached chunk and mark it dirty. Returns whether there was one.
    pub fn modify<F>(&mut self, inode: u64, offset: u64, f: F) -> (r: bool) where
        F: FnOnce(ChunkData) -> ChunkData,

        requires
            old(self).wf(),
            forall|c: ChunkData| f.requires((c,)),
        ensures
            final(self).wf(),
            ({
                let k = old(self)@.key(inode, offset);
                if old(self)@.chunks.contains_key(k) {
                    &&& r
                    &&& exists|c: ChunkData, d: ChunkData|
                        {
                            &&& c@ == old(self)@.chunks[k]
                            &&& #[trigger] f.ensures((c,), d)
                            &&& final(self)@ == ChunksView {
                                chunks: old(self)@.chunks.insert(
                                    k,
                                    ChunkView { dirty: true, ..d@ },
                                ),
                                ..old(self)@
                            }
                        }
                } else {
                    !r && final(self)@ == old(self)@
                }
            }),
    {
        let index: u64 = self.get_chunk_index(offset);
        let ghost m0 = self@.chunks;
        match self.take(inode, index) {
            Some(c) => {
                let ghost before = c;
                let mut d: ChunkData = f(c);
                let ghost after = d;
                d.dirty = true;
                self.place(inode, index, d);
                proof {
                    assert(self@.chunks =~= m0.insert(
                        (inode, index),
                        ChunkView { dirty: true, ..after@ },
                    ));
                    assert(f.ensures((before,), after));
                }
                true
            },
            None => {
                assert(self@.chunks =~= m0);
                false
            },
        }
    }

    /// Put a chunk into the cache, dirty. Where the cache then holds more than
    /// it may, the oldest chunks that are not dirty go.
    pub fn put(&mut self, inode: u64, offset: u64, data: Bytes, mtime: u64, crc32: u32)
        requires
            old(self).wf(),
        ensures
            final(self).wf(),
            final(self)@ == old(self)@.stored(inode, offset, bytes_of(&data), mtime, crc32),
    {
        let index: u64 = self.get_chunk_index(offset);
        proof {
            let cs = self.chunk_size as int;
            assert(index * cs <= offset) by (nonlinear_arith)
                requires
                    index == offset as int / cs,
                    cs > 0,
            ;
        }
        let size: u64 = self.chunk_size;
        self.place(
            inode,
            index,
            ChunkData { data, offset: index * size, size, mtime, crc32, dirty: true },
        );
        if self.max_bytes > 0 {
            self.evict_to(self.max_bytes as u64);
        }
    }

    /// Throw out the oldest chunks that are not dirty until at most `limit`
    /// bytes are left or only dirty chunks are.
    fn evict_to(&mut self, limit: u64)
        requires
            old(self).wf(),
        ensures
            final(self).wf(),
            final(self)@ == (ChunksView {
                chunks: evicted(old(self)@.chunks, limit),
                ..old(self)@
            }),
    {
        broadcast use ChunkCache::lemma_wf;

        let ghost goal = evicted(self@.chunks, limit);
        let mut more: bool = true;
        while more
            invariant
                self.wf(),
                self@ == (ChunksView { chunks: self@.chunks, ..old(self)@ }),
                goal == evicted(old(self)@.chunks, limit),
                more ==> evicted(self@.chunks, limit) == goal,
                !more ==> self@.chunks == goal,
            decreases
                    (if more {
                        1int
                    } else {
                        0
                    }),
                    self@.chunks.dom().len(),
        {
            proof {
                self.lemma_wf();
            }
            if self.current <= limit {
                more = false;
            } else {
                match self.oldest() {
                    Some(k) => {
                        proof {
                            let m = self@.chunks;
                            let c = choose|c: (u64, u64)| is_victim(m, c);
                            lemma_victim_unique(m, k, c);
                            assert(m.remove(k).dom() =~= m.dom().remove(k));
                        }
                        let _gone: Option<ChunkData> = self.take(k.0, k.1);
                    },
                    None => {
                        more = false;
                    },
                }
            }
        }
    }

    /// The oldest chunk that may be thrown out.
    fn oldest(&self) -> (r: Option<(u64, u64)>)
        requires
            self.wf(),
        ensures
            match r {
                Some(k) => is_victim(self@.chunks, k),
                None => forall|k: (u64, u64)| !is_victim(self@.chunks, k),
            },
    {
        broadcast use vstd::std_specs::hash::group_hash_axioms;

        let keys: Vec<(u64, u64)> = self.keys();
        let ghost m = self@.chunks;
        let mut best: Option<(u64, u64)> = None;
        let mut best_mtime: u64 = u64::MAX;
        let mut i: usize = 0;
        while i < keys.len()
            invariant
                i <= keys.len(),
                self.wf(),
                m == self@.chunks,
                forall|k: (u64, u64)| #[trigger] m.contains_key(k) <==> keys@.contains(k),
                match best {
                    Some(b) => {
                        &&& evictable(m, b)
                        &&& best_mtime == m[b].mtime
                        &&& forall|j: int|
                            0 <= j < i && #[trigger] evictable(m, keys@[j]) ==> keys@[j] == b
                                || older(m, b, keys@[j])
                    },
                    None => best_mtime == u64::MAX && forall|j: int|
                        0 <= j < i ==> !#[trigger] evictable(m, keys@[j]),
                },
            decreases keys.len() - i,
        {
            let k: (u64, u64) = keys[i];
            assert(keys@.contains(k));
            let key: u128 = pack_key(k.0, k.1);
            if let Some(c) = self.map.get(&key) {
                assert(c@ == m[k]);
                if !c.dirty && c.mtime < u64::MAX {
                    let better: bool = match best {
                        Some(b) => c.mtime < best_mtime || (c.mtime == best_mtime && (k.0 < b.0 || (
                        k.0 == b.0 && k.1 < b.1))),
                        None => true,
                    };
                    if better {
                        best = Some(k);
                        best_mtime = c.mtime;
                    }
                }
            }
            i += 1;
        }
        proof {
            assert forall|o: (u64, u64)| #[trigger] evictable(m, o) implies best is Some && (o
                == best->0 || older(m, best->0, o)) by {
                assert(keys@.contains(o));
                let j = choose|j: int| 0 <= j < keys@.len() && keys@[j] == o;
                assert(evictable(m, keys@[j]));
            }
        }
        best
    }

    /// Throw out the oldest chunks that are not dirty until at most `target`
    /// bytes are left or only dirty chunks are. Returns the bytes freed.
    pub fn evict_clean_to(&mut self, target: u64) -> (freed: u64)
        requires
            old(self).wf(),
        ensures
            final(self).wf(),
            final(self)@ == (ChunksView {
                chunks: evicted(old(self)@.chunks, target),
                ..old(self)@
            }),
            freed == vstd::wrapping::u64_specs::wrapping_sub(
                counter(old(self)@.chunks),
                counter(final(self)@.chunks),
            ),
    {
        let before: u64 = self.current;
        self.evict_to(target);
        before.wrapping_sub(self.current)
    }

    /// Remove the chunks of an inode from index `first` on.
    fn remove_from(&mut self, inode: u64, first: u64)
        requires
            old(self).wf(),
        ensures
            final(self).wf(),
            final(self)@ == (ChunksView {
                chunks: cut_from(old(self)@.chunks, inode, first),
                ..old(self)@
            }),
    {
        let keys: Vec<(u64, u64)> = self.keys();
        let ghost m0 = self@.chunks;
        let mut i: usize = 0;
        while i < keys.len()
            invariant
                i <= keys.len(),
                self.wf(),
                self@ == (ChunksView { chunks: self@.chunks, ..old(self)@ }),
                forall|k: (u64, u64)| #[trigger]
                    self@.chunks.contains_key(k) <==> m0.contains_key(k) && !(k.0 == inode && k.1
                        >= first && keys@.take(i as int).contains(k)),
                forall|k: (u64, u64)| #[trigger]
                    self@.chunks.contains_key(k) ==> self@.chunks[k] == m0[k],
            decreases keys.len() - i,
        {
            let k: (u64, u64) = keys[i];
            proof {
                lemma_take_contains(keys@, i as int);
            }
            if k.0 == inode && k.1 >= first {
                let _gone: Option<ChunkData> = self.take(k.0, k.1);
            }
            i += 1;
        }
        assert(keys@.take(i as int) =~= keys@);
        assert(self@.chunks =~= cut_from(m0, inode, first));
    }

    /// Remove the chunks of an inode that lie wholly at or beyond `max_offset`.
    pub fn remove_after(&mut self, inode: u64, max_offset: u64)
        requires
            old(self).wf(),
        ensures
            final(self).wf(),
            final(self)@ == (ChunksView {
                chunks: cut_from(
                    old(self)@.chunks,
                    inode,
                    first_beyond(max_offset, old(self)@.chunk_size),
                ),
                ..old(self)@
            }),
    {
        let first: u64 = if max_offset == 0 {
            0
        } else {
            proof {
                let a = (max_offset - 1) as int;
                let b = self.chunk_size as int;
                assert(a / b <= a) by (nonlinear_arith)
                    requires
                        a >= 0,
                        b > 0,
                ;
            }
            (max_offset - 1) / self.chunk_size + 1
        };
        self.remove_from(inode, first);
    }

    /// The number of bytes that the cache holds.
    pub fn current_bytes(&self) -> (r: u64)
        requires
            self.wf(),
        ensures
            r == counter(self@.chunks),
    {
        self.current
    }

    /// The number of bytes that the cache may hold; 0 stands for any number.
    pub fn max_bytes(&self) -> (r: usize)
        ensures
            r == self@.max_bytes,
    {
        self.max_bytes
    }

    /// Remove all chunks of an inode.
    pub fn remove(&mut self, inode: u64)
        requires
            old(self).wf(),
        ensures
            final(self).wf(),
            final(self)@ == old(self)@.dropped(inode),
    {
        self.remove_from(inode, 0);
    }

    /// Remove the chunk that holds byte `offset` of an inode.
    pub fn remove_chunk(&mut self, inode: u64, offset: u64)
        requires
            old(self).wf(),
        ensures
            final(self).wf(),
            final(self)@ == (ChunksView {
                chunks: old(self)@.chunks.remove(old(self)@.key(inode, offset)),
                ..old(self)@
            }),
    {
        let index: u64 = self.get_chunk_index(offset);
        let _gone: Option<ChunkData> = self.take(inode, index);
    }

    /// Remove all chunks of an inode.
    pub fn remove_inode_chunks(&mut self, inode: u64)
        requires
            old(self).wf(),
        ensures
            final(self).wf(),
            final(self)@ == old(self)@.dropped(inode),
    {
        self.remove(inode);
    }

    /// True if some chunk of the inode has not reached the volume server.
    pub fn has_dirty_chunks(&self, inode: u64) -> (r: bool)
        requires
            self.wf(),
        ensures
            r == has_dirty(self@.chunks, inode),
    {
        broadcast use vstd::std_specs::hash::group_hash_axioms;

        let keys: Vec<(u64, u64)> = self.keys();
        let ghost m = self@.chunks;
        let mut i: usize = 0;
        while i < keys.len()
            invariant
                i <= keys.len(),
                self.wf(),
                m == self@.chunks,
                forall|k: (u64, u64)| #[trigger] m.contains_key(k) <==> keys@.contains(k),
                forall|j: int|
                    0 <= j < i ==> !((#[trigger] keys@[j]).0 == inode && m[keys@[j]].dirty),
            decreases keys.len() - i,
        {
            let k: (u64, u64) = keys[i];
            assert(keys@.contains(k));
            assert(m.contains_key(k));
            if k.0 == inode {
                let key: u128 = pack_key(k.0, k.1);
                if let Some(c) = self.map.get(&key) {
                    assert(c@ == m[k]);
                    if c.dirty {
                        assert(m.contains_key(k));
                        return true;
                    }
                }
            }
            i += 1;
        }
        proof {
            if has_dirty(m, inode) {
                let k = choose|k: (u64, u64)| #[trigger] m.contains_key(k) && k.0 == inode
                    && m[k].dirty;
                assert(keys@.contains(k));
                let j = choose|j: int| 0 <= j < keys@.len() && keys@[j] == k;
                assert(keys@[j].0 == inode);
            }
        }
        false
    }

    /// True if some chunk of the inode is cached.
    pub fn has_chunks(&self, inode: u64) -> (r: bool)
        requires
            self.wf(),
        ensures
            r == has_any_chunk(self@.chunks, inode),
    {
        let keys: Vec<(u64, u64)> = self.keys();
        let ghost m = self@.chunks;
        let mut i: usize = 0;
        while i < keys.len()
            invariant
                i <= keys.len(),
                m == self@.chunks,
                forall|k: (u64, u64)| #[trigger] m.contains_key(k) <==> keys@.contains(k),
                forall|j: int| 0 <= j < i ==> (#[trigger] keys@[j]).0 != inode,
            decreases keys.len() - i,
        {
            if keys[i].0 == inode {
                assert(keys@.contains(keys@[i as int]));
                assert(m.contains_key(keys@[i as int]));
                return true;
            }
            i += 1;
        }
        proof {
            if has_any_chunk(m, inode) {
                let k = choose|k: (u64, u64)| #[trigger] m.contains_key(k) && k.0 == inode;
                assert(keys@.contains(k));
                let j = choose|j: int| 0 <= j < keys@.len() && keys@[j] == k;
                assert(keys@[j].0 == inode);
            }
        }
        false
    }

    /// Mark one chunk as in step with the volume server.
    fn clean_one(&mut self, inode: u64, index: u64)
        requires
            old(self).wf(),
        ensures
            final(self).wf(),
            final(self)@ == if old(self)@.chunks.contains_key((inode, index)) {
                ChunksView {
                    chunks: old(self)@.chunks.insert(
                        (inode, index),
                        clean(old(self)@.chunks[(inode, index)]),
                    ),
                    ..old(self)@
                }
            } else {
                old(self)@
            },
    {
        let ghost m0 = self@.chunks;
        match self.take(inode, index) {
            Some(c) => {
                let mut c: ChunkData = c;
                c.dirty = false;
                self.place(inode, index, c);
                assert(self@.chunks =~= m0.insert((inode, index), clean(m0[(inode, index)])));
            },
            None => {
                assert(self@.chunks =~= m0);
            },
        }
    }

    /// Mark all chunks of an inode as in step with the volume server.
    pub fn clear_dirty(&mut self, inode: u64)
        requires
            old(self).wf(),
        ensures
            final(self).wf(),
            final(self)@ == old(self)@.all_cleaned(inode),
    {
        let keys: Vec<(u64, u64)> = self.keys();
        let ghost m0 = self@.chunks;
        let mut i: usize = 0;
        while i < keys.len()
            invariant
                i <= keys.len(),
                self.wf(),
                self@ == (ChunksView { chunks: self@.chunks, ..old(self)@ }),
                self@.chunks.dom() == m0.dom(),
                forall|k: (u64, u64)| #[trigger]
                    m0.contains_key(k) ==> self@.chunks[k] == if k.0 == inode && keys@.take(
                        i as int,
                    ).contains(k) {
                        clean(m0[k])
                    } else {
                        m0[k]
                    },
            decreases keys.len() - i,
        {
            let k: (u64, u64) = keys[i];
            proof {
                lemma_take_contains(keys@, i as int);
            }
            if k.0 == inode {
                self.clean_one(k.0, k.1);
            }
            assert(self@.chunks.dom() =~= m0.dom());
            i += 1;
        }
        proof {
            assert(keys@.take(i as int) =~= keys@);
            assert(self@.chunks =~= cleaned(m0, inode, |i: u64| true));
        }
    }

    /// Mark the chunks of an inode with the given indices as in step with the
    /// volume server.
    pub fn clear_dirty_for_chunks(&mut self, inode: u64, chunk_indices: &Vec<u64>)
        requires
            old(self).wf(),
        ensures
            final(self).wf(),
            final(self)@ == old(self)@.some_cleaned(inode, chunk_indices@),
    {
        let ghost m0 = self@.chunks;
        let ghost want = chunk_indices@;
        let mut i: usize = 0;
        assert(want.take(0) =~= Seq::<u64>::empty());
        while i < chunk_indices.len()
            invariant
                i <= chunk_indices.len(),
                want == chunk_indices@,
                self.wf(),
                self@ == (ChunksView { chunks: self@.chunks, ..old(self)@ }),
                self@.chunks.dom() == m0.dom(),
                forall|k: (u64, u64)| #[trigger]
                    m0.contains_key(k) ==> self@.chunks[k] == if k.0 == inode && want.take(
                        i as int,
                    ).contains(k.1) {
                        clean(m0[k])
                    } else {
                        m0[k]
                    },
            decreases chunk_indices.len() - i,
        {
            proof {
                lemma_take_contains(want, i as int);
            }
            self.clean_one(inode, chunk_indices[i]);
            assert(self@.chunks.dom() =~= m0.dom());
            i += 1;
        }
        proof {
            assert(want.take(i as int) =~= want);
            assert(self@.chunks =~= cleaned(m0, inode, |i: u64| want.contains(i)));
        }
    }

    /// Cut the data of a file to `size` bytes.
    pub fn truncate_chunks(&mut self, inode: u64, size: u64)
        requires
            old(self).wf(),
        ensures
            final(self).wf(),
            final(self)@ == old(self)@.cut(inode, size),
    {
        let keys: Vec<(u64, u64)> = self.keys();
        let ghost m0 = self@.chunks;
        let cs: u64 = self.chunk_size;
        let ghost goal = truncated(m0, inode, size, cs);
        let mut i: usize = 0;
        while i < keys.len()
            invariant
                i <= keys.len(),
                self.wf(),
                cs == old(self)@.chunk_size,
                cs > 0,
                goal == truncated(m0, inode, size, cs),
                keys@.no_duplicates(),
                forall|k: (u64, u64)| #[trigger] m0.contains_key(k) <==> keys@.contains(k),
                self@ == (ChunksView { chunks: self@.chunks, ..old(self)@ }),
                forall|k: (u64, u64)| #[trigger]
                    self@.chunks.contains_key(k) <==> if keys@.take(i as int).contains(k) {
                        goal.contains_key(k)
                    } else {
                        m0.contains_key(k)
                    },
                forall|k: (u64, u64)| #[trigger]
                    self@.chunks.contains_key(k) ==> self@.chunks[k] == if keys@.take(
                        i as int,
                    ).contains(k) {
                        goal[k]
                    } else {
                        m0[k]
                    },
            decreases keys.len() - i,
        {
            let k: (u64, u64) = keys[i];
            proof {
                lemma_take_contains(keys@, i as int);
                assert(keys@.contains(k));
                assert(m0.contains_key(k));
                if keys@.take(i as int).contains(k) {
                    let done = keys@.take(i as int);
                    let j = choose|j: int| 0 <= j < done.len() && done[j] == k;
                    assert(keys@[j] == keys@[i as int]);
                }
                assert(self@.chunks.contains_key(k));
            }
            if k.0 == inode {
                proof {
                    let a = k.1 as int;
                    let b = cs as int;
                    assert(0 <= a * b <= 0xffff_ffff_ffff_ffff * 0xffff_ffff_ffff_ffff)
                        by (nonlinear_arith)
                        requires
                            0 <= a <= 0xffff_ffff_ffff_ffff,
                            0 <= b <= 0xffff_ffff_ffff_ffff,
                    ;
                }
                let start: u128 = (k.1 as u128) * (cs as u128);
                if let Some(c) = self.take(k.0, k.1) {
                    if start < size as u128 {
                        let keep: u64 = size - start as u64;
                        let mut c: ChunkData = c;
                        if bytes_len(&c.data) as u64 > keep {
                            let cut: Vec<u8> = vstd::slice::slice_to_vec(
                                vstd::slice::slice_subrange(bytes_slice(&c.data), 0, keep as usize),
                            );
                            assert(cut@ =~= m0[k].data.take(keep as int));
                            c.data = bytes_from_vec(cut);
                        }
                        self.place(k.0, k.1, c);
                    }
                }
            }
            i += 1;
        }
        proof {
            assert(keys@.take(i as int) =~= keys@);
            assert(self@.chunks =~= goal);
        }
    }

    /// The number of chunks that have not reached the volume server.
    pub fn dirty_chunks(&self) -> (r: u64)
        requires
            self.wf(),
        ensures
            r == dirty_only(self@.chunks).dom().len(),
    {
        broadcast use vstd::std_specs::hash::group_hash_axioms;
        broadcast use ChunkCache::lemma_wf;

        let keys: Vec<(u64, u64)> = self.keys();
        let ghost m = self@.chunks;
        let mut count: u64 = 0;
        let mut i: usize = 0;
        let ghost mut seen: Set<(u64, u64)> = Set::empty();
        while i < keys.len()
            invariant
                i <= keys.len(),
                self.wf(),
                m == self@.chunks,
                keys@.no_duplicates(),
                forall|k: (u64, u64)| #[trigger] m.contains_key(k) <==> keys@.contains(k),
                seen.finite(),
                seen.len() == count,
                count <= i,
                forall|k: (u64, u64)| #[trigger]
                    seen.contains(k) <==> keys@.take(i as int).contains(k) && m[k].dirty,
            decreases keys.len() - i,
        {
            let k: (u64, u64) = keys[i];
            proof {
                lemma_take_contains(keys@, i as int);
                assert(keys@.contains(k));
                assert(m.contains_key(k));
                if keys@.take(i as int).contains(k) {
                    let done = keys@.take(i as int);
                    let j = choose|j: int| 0 <= j < done.len() && done[j] == k;
                    assert(keys@[j] == keys@[i as int]);
                }
            }
            let key: u128 = pack_key(k.0, k.1);
            if let Some(c) = self.map.get(&key) {
                assert(c@ == m[k]);
                if c.dirty {
                    count += 1;
                    proof {
                        seen = seen.insert(k);
                    }
                }
            }
            i += 1;
        }
        proof {
            assert(keys@.take(i as int) =~= keys@);
            assert(seen =~= dirty_only(m).dom());
        }
        count
    }

    /// The number of bytes that have not reached the volume server, in a
    /// 64-bit counter.
    pub fn dirty_bytes(&self) -> (r: u64)
        requires
            self.wf(),
        ensures
            r == counter(dirty_only(self@.chunks)),
    {
        broadcast use vstd::std_specs::hash::group_hash_axioms;
        broadcast use ChunkCache::lemma_wf;

        let keys: Vec<(u64, u64)> = self.keys();
        let ghost m = self@.chunks;
        let mut sum: u64 = 0;
        let mut i: usize = 0;
        let ghost mut seen: Chunks = Map::empty();
        while i < keys.len()
            invariant
                i <= keys.len(),
                self.wf(),
                m == self@.chunks,
                keys@.no_duplicates(),
                forall|k: (u64, u64)| #[trigger] m.contains_key(k) <==> keys@.contains(k),
                seen.dom().finite(),
                sum == counter(seen),
                forall|k: (u64, u64)| #[trigger]
                    seen.contains_key(k) <==> keys@.take(i as int).contains(k) && m[k].dirty,
                forall|k: (u64, u64)| #[trigger] seen.contains_key(k) ==> seen[k] == m[k],
            decreases keys.len() - i,
        {
            let k: (u64, u64) = keys[i];
            proof {
                lemma_take_contains(keys@, i as int);
                assert(keys@.contains(k));
                assert(m.contains_key(k));
                if keys@.take(i as int).contains(k) {
                    let done = keys@.take(i as int);
                    let j = choose|j: int| 0 <= j < done.len() && done[j] == k;
                    assert(keys@[j] == keys@[i as int]);
                }
            }
            let key: u128 = pack_key(k.0, k.1);
            if let Some(c) = self.map.get(&key) {
                assert(c@ == m[k]);
                if c.dirty {
                    sum = sum.wrapping_add(bytes_len(&c.data) as u64);
                    proof {
                        lemma_total_insert(seen, k, m[k]);
                        lemma_counter_add(total(seen), m[k].data.len(), total(seen.insert(k, m[k])));
                        seen = seen.insert(k, m[k]);
                    }
                }
            }
            i += 1;
        }
        proof {
            assert(keys@.take(i as int) =~= keys@);
            assert(seen =~= dirty_only(m));
        }
        sum
    }

    /// Remove every chunk.
    pub fn clear(&mut self)
        requires
            old(self).wf(),
        ensures
            final(self).wf(),
            final(self)@ == (ChunksView { chunks: Map::empty(), ..old(self)@ }),
    {
        self.map.clear();
        self.current = 0;
        assert(self@.chunks =~= Map::empty());
    }

    /// The number of chunks.
    pub fn len(&self) -> (r: usize)
        requires
            self.wf(),
        ensures
            r == self@.chunks.dom().len(),
    {
        self.keys().len()
    }

    /// True if no chunk is cached.
    pub fn is_empty(&self) -> (r: bool)
        requires
            self.wf(),
        ensures
            r == (self@.chunks =~= Map::empty()),
    {
        let r: bool = self.keys().len() == 0;
        proof {
            self.lemma_wf();
            if r {
                assert(self@.chunks.dom() =~= Set::empty());
            }
        }
        r
    }

    /// The place and size of each chunk between two offsets that is not cached.
    /// An end of 0 stands for the end of the first chunk.
    pub fn prefetch(&self, inode: u64, start_offset: u64, end_offset: u64) -> (r: Vec<(u64, u64)>)
        requires
            self.wf(),
        ensures
            r@ == missing(
                self@.chunks,
                inode,
                start_offset as int / self@.chunk_size as int,
                if end_offset == 0 {
                    1
                } else {
                    (end_offset - 1) / self@.chunk_size as int + 1
                },
                self@.chunk_size,
            ),
    {
        let lo: u64 = self.get_chunk_index(start_offset);
        let hi: u64 = if end_offset == 0 {
            0
        } else {
            self.get_chunk_index(end_offset - 1)
        };
        let cs: u64 = self.chunk_size;
        let mut r: Vec<(u64, u64)> = Vec::new();
        if lo > hi {
            return r;
        }
        let mut idx: u64 = lo;
        let mut more: bool = true;
        proof {
            if end_offset > 0 {
                let a = (end_offset - 1) as int;
                let b = cs as int;
                assert(hi * b <= a) by (nonlinear_arith)
                    requires
                        hi == a / b,
                        b > 0,
                        a >= 0,
                ;
            }
        }
        while more
            invariant
                self.wf(),
                cs == self@.chunk_size,
                hi * cs <= u64::MAX,
                lo <= idx <= hi,
                more ==> r@ == missing(self@.chunks, inode, lo as int, idx as int, cs),
                !more ==> r@ == missing(self@.chunks, inode, lo as int, hi + 1, cs),
            decreases (if more {
                hi + 1 - idx
            } else {
                0
            }),
        {
            if !self.holds(inode, idx) {
                assert(idx * cs <= hi * cs) by (nonlinear_arith)
                    requires
                        idx <= hi,
                ;
                r.push((idx * cs, cs));
            }
            if idx == hi {
                more = false;
            } else {
                idx += 1;
            }
        }
        r
    }
}

/// The index of the first chunk that lies wholly at or beyond `offset`.
pub open spec fn first_beyond(offset: u64, chunk_size: u64) -> u64 {
    if offset == 0 {
        0
    } else {
        ((offset - 1) / chunk_size as int + 1) as u64
    }
}

pub proof fn lemma_take_contains<T>(s: Seq<T>, i: int)
    requires
        0 <= i < s.len(),
    ensures
        forall|k: T| #[trigger] s.take(i + 1).contains(k) <==> s.take(i).contains(k) || k == s[i],
{
    let t = s.take(i + 1);
    let u = s.take(i);
    assert forall|k: T| #[trigger] t.contains(k) <==> u.contains(k) || k == s[i] by {
        if t.contains(k) {
            let j = choose|j: int| 0 <= j < t.len() && t[j] == k;
            if j < i {
                assert(u[j] == k);
            }
        }
        if u.contains(k) {
            let j = choose|j: int| 0 <= j < u.len() && u[j] == k;
            assert(t[j] == k);
        }
        if k == s[i] {
            assert(t[i] == k);
        }
    }
}

proof fn lemma_counter_add(before: nat, n: nat, after: nat)
    requires
        after == before + n,
        n <= usize::MAX,
    ensures
        (after % 0x1_0000_0000_0000_0000) as u64 == vstd::wrapping::u64_specs::wrapping_add(
            (before % 0x1_0000_0000_0000_0000) as u64,
            n as u64,
        ),
{
}

proof fn lemma_counter_sub(before: nat, n: nat, after: nat)
    requires
        before == n + after,
        n <= usize::MAX,
    ensures
        (after % 0x1_0000_0000_0000_0000) as u64 == vstd::wrapping::u64_specs::wrapping_sub(
            (before % 0x1_0000_0000_0000_0000) as u64,
            n as u64,
        ),
{
}

} // verus!
