//! The bounded table of cached entries: `lru::LruCache`, keyed by inode, which
//! drops the least recently used entry when it is full.

use crate::entry::{CachedEntry, EntryView};
use lru::LruCache;
use std::num::NonZeroUsize;
use vstd::prelude::*;

verus! {

/// `lru::LruCache`, opaque.
#[verifier::external_type_specification]
#[verifier::external_body]
#[verifier::reject_recursive_types(K)]
#[verifier::reject_recursive_types(V)]
#[verifier::reject_recursive_types(S)]
pub struct ExLruCache<K, V, S>(LruCache<K, V, S>);

/// The hasher that an `LruCache` uses unless told otherwise, opaque.
#[verifier::external_type_specification]
#[verifier::external_body]
pub struct ExDefaultHasher(lru::DefaultHasher);

/// What an `LruCache` holds under each key.
pub uninterp spec fn lru_entries(cache: &LruCache<u64, CachedEntry>) -> Map<u64, EntryView>;

/// The keys of an `LruCache`, the most recently used first.
pub uninterp spec fn lru_order(cache: &LruCache<u64, CachedEntry>) -> Seq<u64>;

/// The number of entries at which an `LruCache` is full.
pub uninterp spec fn lru_capacity(cache: &LruCache<u64, CachedEntry>) -> nat;

/// The table without entries.
pub open spec fn no_entries() -> Map<u64, EntryView> {
    Map::empty()
}

/// The keys without `k`.
pub open spec fn without(order: Seq<u64>, k: u64) -> Seq<u64> {
    order.filter(|x: u64| x != k)
}

/// The keys after `k` was used.
pub open spec fn bump(order: Seq<u64>, k: u64) -> Seq<u64> {
    seq![k] + without(order, k)
}

pub proof fn lemma_without(order: Seq<u64>, k: u64)
    ensures
        forall|x: u64| #[trigger] without(order, k).contains(x) <==> order.contains(x) && x != k,
        order.no_duplicates() ==> without(order, k).no_duplicates(),
        without(order, k).len() <= order.len(),
        order.contains(k) && order.no_duplicates() ==> without(order, k).len() == order.len() - 1,
    decreases order.len(),
{
    reveal(Seq::filter);
    if order.len() > 0 {
        let p = order.drop_last();
        lemma_without(p, k);
        let w = without(order, k);
        let wp = without(p, k);
        assert forall|x: u64| #[trigger] w.contains(x) <==> order.contains(x) && x != k by {
            if w.contains(x) {
                let i = choose|i: int| 0 <= i < w.len() && w[i] == x;
                if order.last() != k && i == w.len() - 1 {
                    assert(order[order.len() - 1] == x);
                } else {
                    assert(wp[i] == x);
                    assert(wp.contains(x));
                    let j = choose|j: int| 0 <= j < p.len() && p[j] == x;
                    assert(order[j] == x);
                }
            }
            if order.contains(x) && x != k {
                let i = choose|i: int| 0 <= i < order.len() && order[i] == x;
                if i < p.len() {
                    assert(p[i] == x);
                    assert(wp.contains(x));
                    let j = choose|j: int| 0 <= j < wp.len() && wp[j] == x;
                    assert(w[j] == x);
                } else {
                    assert(w[w.len() - 1] == x);
                }
            }
        }
        if order.no_duplicates() {
            assert(p.no_duplicates());
            if order.last() != k {
                assert forall|i: int, j: int|
                    0 <= i < w.len() && 0 <= j < w.len() && i != j implies w[i] != w[j] by {
                    if i == w.len() - 1 || j == w.len() - 1 {
                        let o = if i == w.len() - 1 {
                            j
                        } else {
                            i
                        };
                        assert(wp.contains(wp[o]));
                        let q = choose|q: int| 0 <= q < p.len() && p[q] == wp[o];
                        assert(order[q] != order[order.len() - 1]);
                    }
                }
            }
            if order.contains(k) {
                if order.last() == k {
                    if p.contains(k) {
                        let q = choose|q: int| 0 <= q < p.len() && p[q] == k;
                        assert(order[q] == order[order.len() - 1]);
                    }
                    lemma_without_absent(p, k);
                } else {
                    let q = choose|q: int| 0 <= q < order.len() && order[q] == k;
                    assert(p[q] == k);
                }
            }
        }
    }
}

proof fn lemma_without_absent(order: Seq<u64>, k: u64)
    requires
        !order.contains(k),
    ensures
        without(order, k) == order,
    decreases order.len(),
{
    reveal(Seq::filter);
    if order.len() > 0 {
        let p = order.drop_last();
        if p.contains(k) {
            let q = choose|q: int| 0 <= q < p.len() && p[q] == k;
            assert(order[q] == k);
        }
        assert(order[order.len() - 1] == order.last());
        lemma_without_absent(p, k);
        assert(p.push(order.last()) =~= order);
    } else {
        assert(without(order, k) =~= order);
    }
}

/// A recency order lists each key of the table once and is never longer than
/// the table may grow.
pub open spec fn lru_consistent(
    entries: Map<u64, EntryView>,
    order: Seq<u64>,
    capacity: nat,
) -> bool {
    &&& order.no_duplicates()
    &&& forall|k: u64| #[trigger] entries.contains_key(k) <==> order.contains(k)
    &&& order.len() <= capacity
    &&& 0 < capacity
}

/// The table's three aspects agree.
pub open spec fn lru_wf(cache: &LruCache<u64, CachedEntry>) -> bool {
    lru_consistent(lru_entries(cache), lru_order(cache), lru_capacity(cache))
}

/// `lru::LruCache::new` makes an empty table of the given capacity. Its index
/// is allocated at once, so the capacity is kept below what an allocation may
/// ask for.
#[verifier::external_body]
pub(crate) fn lru_new(capacity: usize) -> (r: LruCache<u64, CachedEntry>)
    requires
        0 < capacity <= isize::MAX / 64,
    ensures
        lru_entries(&r) == no_entries(),
        lru_order(&r) == Seq::<u64>::empty(),
        lru_capacity(&r) == capacity,
        lru_wf(&r),
{
    LruCache::new(NonZeroUsize::new(capacity).unwrap())
}

/// `lru::LruCache::get_mut` gives access to the entry under a key and makes
/// that key the most recently used one. A key that is not there changes
/// nothing.
#[verifier::external_body]
pub(crate) fn lru_get_mut(cache: &mut LruCache<u64, CachedEntry>, k: u64) -> (r: Option<
    &mut CachedEntry,
>)
    ensures
        r is Some == lru_entries(old(cache)).contains_key(k),
        match r {
            Some(e) => {
                &&& e@ == lru_entries(old(cache))[k]
                &&& lru_entries(final(cache)) == lru_entries(old(cache)).insert(k, final(e)@)
                &&& lru_order(final(cache)) == bump(lru_order(old(cache)), k)
            },
            None => {
                &&& lru_entries(final(cache)) == lru_entries(old(cache))
                &&& lru_order(final(cache)) == lru_order(old(cache))
            },
        },
        lru_capacity(final(cache)) == lru_capacity(old(cache)),
        lru_wf(final(cache)),
{
    cache.get_mut(&k)
}

/// `lru::LruCache::peek_mut` gives access to the entry under a key and leaves
/// the recency order alone.
#[verifier::external_body]
pub(crate) fn lru_peek_mut(cache: &mut LruCache<u64, CachedEntry>, k: u64) -> (r: Option<
    &mut CachedEntry,
>)
    ensures
        r is Some == lru_entries(old(cache)).contains_key(k),
        match r {
            Some(e) => {
                &&& e@ == lru_entries(old(cache))[k]
                &&& lru_entries(final(cache)) == lru_entries(old(cache)).insert(k, final(e)@)
            },
            None => lru_entries(final(cache)) == lru_entries(old(cache)),
        },
        lru_order(final(cache)) == lru_order(old(cache)),
        lru_capacity(final(cache)) == lru_capacity(old(cache)),
        lru_wf(final(cache)),
{
    cache.peek_mut(&k)
}

/// `lru::LruCache::peek` reads the entry under a key and leaves the recency
/// order alone.
#[verifier::external_body]
pub(crate) fn lru_peek(cache: &LruCache<u64, CachedEntry>, k: u64) -> (r: Option<&CachedEntry>)
    ensures
        r is Some == lru_entries(cache).contains_key(k),
        r matches Some(e) ==> e@ == lru_entries(cache)[k],
{
    cache.peek(&k)
}

/// `lru::LruCache::push` stores an entry as the most recently used one. It
/// returns the pair that had to go: the old entry under the same key, or else,
/// where the table was full, the least recently used pair.
#[verifier::external_body]
pub(crate) fn lru_push(cache: &mut LruCache<u64, CachedEntry>, k: u64, e: CachedEntry) -> (r:
    Option<(u64, CachedEntry)>)
    ensures
        ({
            let entries = lru_entries(old(cache));
            let order = lru_order(old(cache));
            if entries.contains_key(k) {
                &&& r matches Some(p) && p.0 == k && p.1@ == entries[k]
                &&& lru_entries(final(cache)) == entries.insert(k, e@)
                &&& lru_order(final(cache)) == bump(order, k)
            } else if order.len() < lru_capacity(old(cache)) {
                &&& r is None
                &&& lru_entries(final(cache)) == entries.insert(k, e@)
                &&& lru_order(final(cache)) == seq![k] + order
            } else {
                &&& r matches Some(p) && p.0 == order.last() && p.1@ == entries[order.last()]
                &&& lru_entries(final(cache)) == entries.remove(order.last()).insert(k, e@)
                &&& lru_order(final(cache)) == seq![k] + order.drop_last()
            }
        }),
        lru_capacity(final(cache)) == lru_capacity(old(cache)),
        lru_wf(final(cache)),
{
    cache.push(k, e)
}

/// `lru::LruCache::pop` takes the entry under a key out of the table.
#[verifier::external_body]
pub(crate) fn lru_pop(cache: &mut LruCache<u64, CachedEntry>, k: u64) -> (r: Option<CachedEntry>)
    ensures
        r is Some == lru_entries(old(cache)).contains_key(k),
        r matches Some(e) ==> e@ == lru_entries(old(cache))[k],
        lru_entries(final(cache)) == lru_entries(old(cache)).remove(k),
        lru_order(final(cache)) == without(lru_order(old(cache)), k),
        lru_capacity(final(cache)) == lru_capacity(old(cache)),
        lru_wf(final(cache)),
{
    cache.pop(&k)
}

/// `lru::LruCache::clear` empties the table.
#[verifier::external_body]
pub(crate) fn lru_clear(cache: &mut LruCache<u64, CachedEntry>)
    ensures
        lru_entries(final(cache)) == no_entries(),
        lru_order(final(cache)) == Seq::<u64>::empty(),
        lru_capacity(final(cache)) == lru_capacity(old(cache)),
        lru_wf(final(cache)),
{
    cache.clear()
}

/// `lru::LruCache::iter` walks the table from the most to the least recently
/// used entry; the keys are kept.
#[verifier::external_body]
pub(crate) fn lru_keys(cache: &LruCache<u64, CachedEntry>) -> (r: Vec<u64>)
    ensures
        r@ == lru_order(cache),
{
    cache.iter().map(|(k, _)| *k).collect()
}

} // verus!
