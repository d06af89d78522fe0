//! What holds of the chunk cache whatever is done to it.

use crate::chunk_cache::{
    counter, cut_from, evictable, evicted, first_beyond, has_any_chunk, has_dirty, is_victim,
    lemma_total_insert, missing, older, total, truncated, ChunkView, Chunks, ChunksView,
};
use vstd::prelude::*;

verus! {

/// Throwing chunks out never touches a dirty chunk, changes no chunk that
/// stays, and adds none.
pub proof fn law_eviction_spares_dirty(m: Chunks, limit: u64)
    requires
        m.dom().finite(),
    ensures
        evicted(m, limit).dom().finite(),
        forall|k: (u64, u64)| #[trigger]
            m.contains_key(k) && m[k].dirty ==> evicted(m, limit).contains_key(k),
        forall|k: (u64, u64)| #[trigger]
            evicted(m, limit).contains_key(k) ==> m.contains_key(k) && evicted(m, limit)[k] == m[k],
    decreases m.dom().len(),
{
    if counter(m) > limit && exists|k: (u64, u64)| is_victim(m, k) {
        let k = choose|k: (u64, u64)| is_victim(m, k);
        assert(evictable(m, k));
        assert(m.remove(k).dom() =~= m.dom().remove(k));
        law_eviction_spares_dirty(m.remove(k), limit);
        assert forall|j: (u64, u64)| #[trigger] m.contains_key(j) && m[j].dirty implies evicted(
            m,
            limit,
        ).contains_key(j) by {
            assert(m.remove(k).contains_key(j));
        }
    }
}

proof fn lemma_victim_exists(m: Chunks, k: (u64, u64))
    requires
        m.dom().finite(),
        evictable(m, k),
    ensures
        exists|v: (u64, u64)| is_victim(m, v),
    decreases m.dom().len(),
{
    if forall|o: (u64, u64)| #[trigger] evictable(m, o) ==> o == k || older(m, k, o) {
        assert(is_victim(m, k));
    } else {
        let o = choose|o: (u64, u64)| #[trigger]
            evictable(m, o) && o != k && !older(m, k, o);
        let r = m.remove(k);
        assert(r.dom() =~= m.dom().remove(k));
        assert(evictable(r, o));
        lemma_victim_exists(r, o);
        let v = choose|v: (u64, u64)| is_victim(r, v);
        assert(evictable(r, v));
        assert(evictable(m, v));
        assert forall|x: (u64, u64)| #[trigger] evictable(m, x) implies x == v || older(m, v, x) by {
            if x == k {
                assert(older(m, o, k));
                assert(evictable(r, o));
                assert(o == v || older(r, v, o));
            } else {
                assert(evictable(r, x));
            }
        }
        assert(is_victim(m, v));
    }
}

/// Throwing chunks out ends only where the cache is small enough or no chunk
/// may go any more.
pub proof fn law_eviction_reaches_limit(m: Chunks, limit: u64)
    requires
        m.dom().finite(),
    ensures
        counter(evicted(m, limit)) <= limit || forall|k: (u64, u64)|
            !#[trigger] evictable(evicted(m, limit), k),
    decreases m.dom().len(),
{
    if counter(m) > limit {
        if exists|k: (u64, u64)| is_victim(m, k) {
            let k = choose|k: (u64, u64)| is_victim(m, k);
            assert(evictable(m, k));
            assert(m.remove(k).dom() =~= m.dom().remove(k));
            law_eviction_reaches_limit(m.remove(k), limit);
        } else {
            assert forall|k: (u64, u64)| !#[trigger] evictable(m, k) by {
                if evictable(m, k) {
                    lemma_victim_exists(m, k);
                }
            }
        }
    }
}

/// The oldest chunks go first: a chunk that may go and stays is younger than
/// every chunk that went.
pub proof fn law_eviction_takes_oldest(m: Chunks, limit: u64, gone: (u64, u64), kept: (u64, u64))
    requires
        m.dom().finite(),
        m.contains_key(gone),
        !evicted(m, limit).contains_key(gone),
        evictable(evicted(m, limit), kept),
    ensures
        older(m, gone, kept),
    decreases m.dom().len(),
{
    let k = choose|k: (u64, u64)| is_victim(m, k);
    let r = m.remove(k);
    assert(r.dom() =~= m.dom().remove(k));
    law_eviction_spares_dirty(r, limit);
    assert(evicted(m, limit) == evicted(r, limit));
    assert(r.contains_key(kept));
    assert(evictable(m, kept));
    if gone == k {
        assert(kept != k);
    } else {
        law_eviction_takes_oldest(r, limit, gone, kept);
    }
}

/// A chunk that was put into the cache is there, dirty, with the data that was
/// put, whatever had to go to make room; and every other dirty chunk is still
/// there as it was.
pub proof fn law_put_then_get(
    v: ChunksView,
    inode: u64,
    offset: u64,
    data: Seq<u8>,
    mtime: u64,
    crc: u32,
)
    requires
        v.chunks.dom().finite(),
    ensures
        ({
            let after = v.stored(inode, offset, data, mtime, crc);
            let k = v.key(inode, offset);
            &&& after.chunks.dom().finite()
            &&& after.chunk_size == v.chunk_size
            &&& after.at(inode, offset) matches Some(c) && c.data == data && c.dirty && c.mtime
                == mtime
            &&& forall|o: (u64, u64)| #[trigger]
                v.chunks.contains_key(o) && v.chunks[o].dirty && o != k
                    ==> after.chunks.contains_key(o) && after.chunks[o] == v.chunks[o]
            &&& forall|o: (u64, u64)| #[trigger]
                after.chunks.contains_key(o) && o != k ==> v.chunks.contains_key(o)
                    && after.chunks[o] == v.chunks[o]
        }),
{
    let k = v.key(inode, offset);
    let m = v.chunks.insert(
        k,
        ChunkView {
            data,
            offset: (k.1 * v.chunk_size) as u64,
            size: v.chunk_size,
            mtime,
            crc32: crc,
            dirty: true,
        },
    );
    assert(m.dom() =~= v.chunks.dom().insert(k));
    if v.max_bytes > 0 {
        let limit = v.max_bytes as u64;
        law_eviction_spares_dirty(m, limit);
        assert(m.contains_key(k) && m[k].dirty);
        let e = evicted(m, limit);
        assert forall|o: (u64, u64)| #[trigger]
            v.chunks.contains_key(o) && v.chunks[o].dirty && o != k implies e.contains_key(o)
            && e[o] == v.chunks[o] by {
            assert(m.contains_key(o) && m[o].dirty);
        }
    }
}

/// A chunk put into a cache with room makes the byte count grow by what it
/// adds, and nothing goes.
pub proof fn law_put_counts_bytes(m: Chunks, k: (u64, u64), c: ChunkView)
    requires
        m.dom().finite(),
        !m.contains_key(k),
    ensures
        total(m.insert(k, c)) == total(m) + c.data.len(),
        total(m.insert(k, c).remove(k)) == total(m),
{
    lemma_total_insert(m, k, c);
    assert(m.insert(k, c).remove(k) =~= m);
}

/// Cutting the chunks behind an offset keeps exactly those that start before
/// it.
pub proof fn law_remove_after(m: Chunks, inode: u64, offset: u64, chunk_size: u64, k: (u64, u64))
    requires
        chunk_size > 0,
        m.contains_key(k),
    ensures
        cut_from(m, inode, first_beyond(offset, chunk_size)).contains_key(k) == (k.0 != inode || k.1
            * chunk_size < offset),
{
    let c = chunk_size as int;
    let i = k.1 as int;
    if offset > 0 {
        let a = (offset - 1) as int;
        assert((i >= a / c + 1) == (i * c > a)) by (nonlinear_arith)
            requires
                c > 0,
                a >= 0,
                i >= 0,
        ;
        assert(a / c <= a) by (nonlinear_arith)
            requires
                a >= 0,
                c > 0,
        ;
    } else {
        assert(i * c >= 0) by (nonlinear_arith)
            requires
                c > 0,
                i >= 0,
        ;
    }
}

/// After a file was cut to a size, no cached byte of it lies at or beyond that
/// size, and the bytes before it are as they were.
pub proof fn law_truncate_leaves_nothing_behind(
    m: Chunks,
    inode: u64,
    size: u64,
    chunk_size: u64,
    k: (u64, u64),
)
    requires
        truncated(m, inode, size, chunk_size).contains_key(k),
        k.0 == inode,
    ensures
        ({
            let c = truncated(m, inode, size, chunk_size)[k];
            &&& k.1 * chunk_size + c.data.len() <= size
            &&& forall|i: int| 0 <= i < c.data.len() ==> c.data[i] == m[k].data[i]
            &&& c.dirty == m[k].dirty
        }),
{
}

proof fn lemma_missing_elements(
    m: Chunks,
    inode: u64,
    lo: int,
    hi: int,
    chunk_size: u64,
    n: int,
) -> (j: int)
    requires
        0 <= lo,
        0 <= n < missing(m, inode, lo, hi, chunk_size).len(),
    ensures
        lo <= j < hi,
        missing(m, inode, lo, hi, chunk_size)[n] == ((j * chunk_size) as u64, chunk_size),
        !m.contains_key((inode, j as u64)),
    decreases hi - lo,
{
    let p = missing(m, inode, lo, hi - 1, chunk_size);
    if n < p.len() {
        lemma_missing_elements(m, inode, lo, hi - 1, chunk_size, n)
    } else {
        hi - 1
    }
}

/// Prefetching lists exactly the chunks of a range that are not cached.
pub proof fn law_missing_lists_gaps(
    m: Chunks,
    inode: u64,
    lo: int,
    hi: int,
    chunk_size: u64,
    i: int,
)
    requires
        0 <= lo <= i < hi,
        0 < chunk_size,
        hi * chunk_size <= u64::MAX,
    ensures
        missing(m, inode, lo, hi, chunk_size).contains(((i * chunk_size) as u64, chunk_size))
            <==> !m.contains_key((inode, i as u64)),
    decreases hi - lo,
{
    let s = missing(m, inode, lo, hi, chunk_size);
    let e = ((i * chunk_size) as u64, chunk_size);
    let c = chunk_size as int;
    if s.contains(e) {
        let n = choose|n: int| 0 <= n < s.len() && s[n] == e;
        let j = lemma_missing_elements(m, inode, lo, hi, chunk_size, n);
        assert(0 <= i * c <= hi * c && 0 <= j * c <= hi * c) by (nonlinear_arith)
            requires
                0 <= i < hi,
                0 <= j < hi,
                c > 0,
        ;
        assert(i == j) by (nonlinear_arith)
            requires
                i * c == j * c,
                c > 0,
        ;
    } else if !m.contains_key((inode, i as u64)) {
        let p = missing(m, inode, lo, hi - 1, chunk_size);
        if i == hi - 1 {
            assert(s[s.len() - 1] == e);
        } else {
            assert((hi - 1) * c <= hi * c) by (nonlinear_arith)
                requires
                    c > 0,
            ;
            law_missing_lists_gaps(m, inode, lo, hi - 1, chunk_size, i);
            let j = choose|j: int| 0 <= j < p.len() && p[j] == e;
            assert(s[j] == p[j]);
        }
    }
}

/// Nothing is listed as missing twice or without need: the list is as long as
/// the number of gaps.
pub proof fn law_missing_is_bounded(m: Chunks, inode: u64, lo: int, hi: int, chunk_size: u64)
    ensures
        lo <= hi ==> missing(m, inode, lo, hi, chunk_size).len() <= hi - lo,
        (forall|i: int| lo <= i < hi ==> m.contains_key((inode, #[trigger] (i as u64))))
            ==> missing(m, inode, lo, hi, chunk_size).len() == 0,
    decreases hi - lo,
{
    if lo < hi {
        law_missing_is_bounded(m, inode, lo, hi - 1, chunk_size);
        if forall|i: int| lo <= i < hi ==> m.contains_key((inode, #[trigger] (i as u64))) {
            assert(m.contains_key((inode, ((hi - 1) as u64))));
        }
    }
}

/// After an inode was found clean, none of its chunks is dirty; the data of
/// every chunk, and the chunks of other inodes, are as they were.
pub proof fn law_clear_dirty(v: ChunksView, inode: u64)
    ensures
        !has_dirty(v.all_cleaned(inode).chunks, inode),
        v.all_cleaned(inode).chunks.dom() == v.chunks.dom(),
        forall|k: (u64, u64)| #[trigger]
            v.chunks.contains_key(k) ==> v.all_cleaned(inode).chunks[k].data == v.chunks[k].data
                && (k.0 != inode ==> v.all_cleaned(inode).chunks[k] == v.chunks[k]),
{
    assert(v.all_cleaned(inode).chunks.dom() =~= v.chunks.dom());
}

/// After the chunks of an inode were removed, none is left, and those of other
/// inodes are as they were.
pub proof fn law_removed_inode_has_no_chunks(v: ChunksView, inode: u64, other: (u64, u64))
    requires
        other.0 != inode,
    ensures
        !has_any_chunk(v.dropped(inode).chunks, inode),
        v.dropped(inode).chunks.contains_key(other) == v.chunks.contains_key(other),
        v.chunks.contains_key(other) ==> v.dropped(inode).chunks[other] == v.chunks[other],
{
}

} // verus!
