//! What holds of the metadata cache whatever is done to it.

use crate::entry::{CachedFileChunk, EntryState, EntryView, Fid, Now, ROOT_INODE};
use crate::lru_entries::{bump, lemma_without, without};
use crate::meta_model::{
    chunk_at, child_named, covered, flat_chunk, flat_grown, grow_chunk, last_closed,
    lemma_child_is_cached, lemma_last_closed, merged, MetaView,
};
use crate::metadata_cache::lemma_dom_finite;
use crate::names;
use crate::text;
use vstd::prelude::*;

verus! {

proof fn lemma_bump_contains(order: Seq<u64>, k: u64)
    ensures
        forall|x: u64| #[trigger] bump(order, k).contains(x) <==> order.contains(x) || x == k,
{
    lemma_without(order, k);
    let b = bump(order, k);
    let w = without(order, k);
    assert forall|x: u64| #[trigger] b.contains(x) <==> order.contains(x) || x == k by {
        if b.contains(x) {
            let i = choose|i: int| 0 <= i < b.len() && b[i] == x;
            if i > 0 {
                assert(w[i - 1] == x);
                assert(w.contains(x));
            }
        }
        if x == k {
            assert(b[0] == k);
        } else if order.contains(x) {
            assert(w.contains(x));
            let i = choose|i: int| 0 <= i < w.len() && w[i] == x;
            assert(b[i + 1] == x);
        }
    }
}

pub proof fn lemma_alter_wf(v: MetaView, inode: u64, e: EntryView)
    requires
        v.wf(),
        e.inode == inode || !v.has(inode),
    ensures
        v.alter(inode, e).wf(),
        v.alter(inode, e).entries.dom() == v.entries.dom(),
{
    if v.has(inode) {
        lemma_set_wf(v, inode, e);
    }
}

pub proof fn lemma_removed_wf(v: MetaView, k: u64)
    requires
        v.wf(),
    ensures
        v.removed(k).wf(),
{
    lemma_without(v.order, k);
}

/// Clearing a name leaves no child of the directory under it but the one to
/// keep, and touches nothing else.
pub proof fn law_cleared_names_are_gone(
    v: MetaView,
    dir: u64,
    name: Seq<char>,
    keep: Option<u64>,
)
    requires
        v.wf(),
    ensures
        ({
            let c = v.cleared(dir, name, keep);
            &&& c.wf()
            &&& c.none_named(dir, name, keep)
            &&& child_named(c.entries, c.order, dir, name, keep) is None
            &&& forall|k: u64| #[trigger]
                c.has(k) ==> v.has(k) && c.entries[k] == v.entries[k]
            &&& forall|k: u64| #[trigger]
                v.has(k) && !(v.entries[k].parent == dir && v.entries[k].name == name) ==> c.has(k)
        }),
    decreases v.order.len(),
{
    lemma_child_is_cached(v, dir, name, keep, v.order);
    match child_named(v.entries, v.order, dir, name, keep) {
        Some(k) => {
            lemma_removed_wf(v, k);
            lemma_without(v.order, k);
            law_cleared_names_are_gone(v.removed(k), dir, name, keep);
            let c = v.cleared(dir, name, keep);
            assert forall|j: u64| #[trigger] v.has(j) && !(v.entries[j].parent == dir
                && v.entries[j].name == name) implies c.has(j) by {
                assert(v.removed(k).has(j));
            }
        },
        None => {
            assert forall|k: u64| #[trigger]
                v.has(k) && v.entries[k].parent == dir && v.entries[k].name == name && k
                    != dir implies keep == Some(k) by {
                assert(v.order.contains(k));
                let i = choose|i: int| 0 <= i < v.order.len() && v.order[i] == k;
                assert(v.order[i] == k);
            }
        },
    }
}

pub proof fn lemma_lookup_keeps_child(v: MetaView, parent: u64, name: Seq<char>, now_ms: u64)
    requires
        v.wf(),
    ensures
        ({
            let l = v.fetched_named(parent, name, now_ms);
            &&& l.known_absent(parent, name) == v.known_absent(parent, name)
            &&& l.child(parent, name) is None == v.child(parent, name) is None
        }),
{
    lemma_child_is_cached(v, parent, name, None, v.order);
    if let Some(k) = v.child(parent, name) {
        let l = v.fetched(k, now_ms);
        law_fetch_keeps_entries(v, k, now_ms);
        lemma_child_is_cached(l, parent, name, None, l.order);
        assert(l.has(k));
        assert(l.order.contains(k));
        let i = choose|i: int| 0 <= i < l.order.len() && l.order[i] == k;
        assert(l.order[i] == k);
    }
}

/// The cache never holds more entries than fit.
pub proof fn law_cache_is_bounded(v: MetaView)
    requires
        v.wf(),
    ensures
        v.entries.dom().finite(),
        v.entries.dom().len() <= v.capacity,
{
    lemma_dom_finite(v);
    v.order.unique_seq_to_set();
}

/// A walk up to the root changes nothing but the recency order and the state
/// of entries that it found too old: the same inodes stay cached, and paths
/// and listings are as they were.
pub proof fn law_climb_keeps_entries(v: MetaView, current: u64, visited: Set<u64>, now_ms: u64)
    requires
        v.wf(),
    ensures
        ({
            let c = v.climb(current, visited, now_ms);
            &&& c.end.wf()
            &&& c.end.entries.dom() == v.entries.dom()
            &&& c.end == MetaView { entries: c.end.entries, order: c.end.order, ..v }
            &&& c.end.order.len() == v.order.len()
            &&& forall|k: u64| #[trigger]
                v.has(k) ==> c.end.entries[k] == v.entries[k] || (c.end.entries[k]
                    == v.entries[k].step(EntryState::Stale) && v.entries[k].expired(
                    now_ms,
                    v.ttl,
                ))
        }),
    decreases v.entries.dom().difference(visited).len(),
{
    lemma_dom_finite(v);
    law_fetch_keeps_entries(v, current, now_ms);
    if current != ROOT_INODE && !visited.contains(current) {
        match v.answer(current, now_ms) {
            None => {},
            Some(e) => {
                let next = v.fetched(current, now_ms);
                let a = v.entries.dom().difference(visited);
                let b = next.entries.dom().difference(visited.insert(current));
                assert(b =~= a.remove(current));
                assert(a.contains(current));
                assert(a.finite());
                law_climb_keeps_entries(next, e.parent, visited.insert(current), now_ms);
                assert(next.entries == v.entries);
                assert forall|k: u64| #[trigger] v.has(k) implies next.has(k) by {}
            },
        }
    }
}

/// A lookup changes nothing but the recency order and, where it found the entry
/// too old, the entry's state.
pub proof fn law_fetch_keeps_entries(v: MetaView, inode: u64, now_ms: u64)
    requires
        v.wf(),
    ensures
        v.fetched(inode, now_ms).wf(),
        v.fetched(inode, now_ms).entries.dom() == v.entries.dom(),
        v.fetched(inode, now_ms).order.len() == v.order.len(),
        v.has(inode) && !v.entries[inode].expired(now_ms, v.ttl) ==> v.fetched(
            inode,
            now_ms,
        ).entries == v.entries,
        forall|k: u64| #[trigger]
            v.has(k) && k != inode ==> v.fetched(inode, now_ms).entries[k] == v.entries[k],
{
    let f = v.fetched(inode, now_ms);
    if v.has(inode) {
        lemma_set_wf(v, inode, f.entries[inode]);
        assert(f.entries.dom() =~= v.entries.dom());
        if !v.entries[inode].expired(now_ms, v.ttl) {
            assert(f.entries =~= v.entries);
        }
    }
}

proof fn lemma_set_wf(v: MetaView, inode: u64, e: EntryView)
    requires
        v.wf(),
        v.has(inode),
        e.inode == inode,
    ensures
        v.set(inode, e).wf(),
        v.set(inode, e).order.len() == v.order.len(),
        v.set(inode, e).entries.dom() == v.entries.dom(),
{
    let s = v.set(inode, e);
    lemma_without(v.order, inode);
    lemma_bump_contains(v.order, inode);
    assert(v.order.contains(inode));
    assert(s.entries.dom() =~= v.entries.dom());
    let w = without(v.order, inode);
    assert forall|i: int, j: int|
        0 <= i < s.order.len() && 0 <= j < s.order.len() && i != j implies s.order[i]
        != s.order[j] by {
        if i == 0 {
            assert(w.contains(w[j - 1]));
        } else if j == 0 {
            assert(w.contains(w[i - 1]));
        } else {
            assert(w[i - 1] != w[j - 1]);
        }
    }
}

/// An entry that is open is found at any time, however old or out of date it is,
/// and so is one that carries local changes. Only a deleted one is not.
pub proof fn law_held_entries_do_not_age(v: MetaView, inode: u64, now_ms: u64)
    requires
        v.has(inode),
        v.entries[inode].hold is Pinned || v.entries[inode].state.is_authoritative(),
        !(v.entries[inode].state is Tombstone),
    ensures
        v.answer(inode, now_ms) == Some(v.entries[inode]),
{
}

/// An entry in step with the server that nobody holds open is found up to its
/// lifetime and not after it; then it is out of date.
pub proof fn law_entries_expire(v: MetaView, inode: u64, now_ms: u64)
    requires
        v.has(inode),
        v.entries[inode].hold is Unpinned,
        v.entries[inode].state is Clean,
    ensures
        v.answer(inode, now_ms) is Some <==> now_ms - v.entries[inode].cached_at <= v.ttl,
        v.answer(inode, now_ms) is None ==> v.fetched(inode, now_ms).entries[inode].state is Stale,
{
}

/// An entry that nobody holds open is not found any more once it was marked out
/// of date; one with local changes cannot be marked.
pub proof fn law_stale_entries_are_not_found(v: MetaView, inode: u64, now_ms: u64)
    requires
        v.has(inode),
        v.entries[inode].hold is Unpinned,
    ensures
        v.entries[inode].state is Clean ==> v.stepped(inode, EntryState::Stale).answer(
            inode,
            now_ms,
        ) is None,
        v.entries[inode].state.is_authoritative() ==> v.stepped(inode, EntryState::Stale).answer(
            inode,
            now_ms,
        ) == Some(v.entries[inode]),
{
}

/// A change of size makes an entry as good as new: it is found until its
/// lifetime is over, counted from the change.
pub proof fn law_resize_renews(v: MetaView, inode: u64, size: u64, now: Now, later: u64)
    requires
        v.has(inode),
        later - now.mono_ms <= v.ttl,
        v.entries[inode].hold is Pinned || !(v.entries[inode].state is Stale),
        !(v.entries[inode].state is Tombstone),
    ensures
        v.resized(inode, size, now).answer(inode, later) matches Some(e) && e.size == size
            && e.content_size == size,
{
}

/// After everything was declared out of date, no entry is found that is neither
/// open nor carries local changes. One with local changes is as it was, and an
/// open one is still found, with its attributes and handles as they were. No
/// entry is dropped, but no name is vouched for any more.
pub proof fn law_invalidate_all(v: MetaView, inode: u64, now_ms: u64, later: u64)
    requires
        v.has(inode),
    ensures
        ({
            let after = v.all_invalidated(now_ms);
            let e = v.entries[inode];
            &&& after.has(inode)
            &&& e.hold is Unpinned && (e.state is Clean || e.state is Stale || e.state is Tombstone)
                ==> after.answer(inode, later) is None
            &&& e.hold is Unpinned && e.state is New && later >= now_ms >= 2 * v.ttl && v.ttl > 0
                ==> after.answer(inode, later) is None
            &&& e.state.is_authoritative() ==> after.entries[inode] == EntryView {
                dentry_lease: None,
                ..e
            }
            &&& e.hold is Pinned && !(e.state is Tombstone) ==> (after.answer(inode, later) matches
                Some(f) && f == EntryView {
                state: f.state,
                cached_at: f.cached_at,
                dentry_lease: None,
                ..e
            })
            &&& after.dirs == Map::<u64, crate::meta_model::ListingView>::empty()
        }),
{
}

/// After everything was declared out of date, every name has to be asked for:
/// neither a lease nor a full listing vouches for it.
pub proof fn law_invalidated_names_are_asked_for(
    v: MetaView,
    dir: u64,
    name: Seq<char>,
    now_ms: u64,
    later: u64,
)
    requires
        v.wf(),
    ensures
        ({
            let s = v.all_invalidated(now_ms).lease_status(dir, name, later);
            s is Expired || s is Miss
        }),
{
    let after = v.all_invalidated(now_ms);
    assert(after.wf());
    lemma_child_is_cached(after, dir, name, None, after.order);
}

proof fn lemma_erase_value_gone(s: Seq<(Seq<char>, u64)>, v: u64, p: Seq<char>)
    ensures
        names::find(names::erase_value(s, v), p) != Some(v),
    decreases s.len(),
{
    if s.len() > 0 {
        lemma_erase_value_gone(s.drop_last(), v, p);
        if s.last().1 != v {
            let r = names::erase_value(s.drop_last(), v);
            assert(r.push(s.last()).drop_last() =~= r);
        }
    }
}

/// After an inode was removed it is not cached, and no path leads to it.
pub proof fn law_removed_inode_is_gone(v: MetaView, inode: u64, path: Seq<char>, now_ms: u64)
    requires
        v.has(inode),
    ensures
        !v.removed(inode).has(inode),
        v.removed(inode).answer(inode, now_ms) is None,
        names::find(v.removed(inode).paths, path) != Some(inode),
        !v.removed(inode).dirs.contains_key(v.entries[inode].parent),
{
    lemma_erase_value_gone(v.paths, inode, path);
}

/// After the cache was emptied it holds the root directory, at the path "/",
/// and nothing else.
pub proof fn law_emptied_cache(v: MetaView, uid: u32, gid: u32, now: Now, inode: u64, path: Seq<char>)
    ensures
        ({
            let e = v.emptied(uid, gid, now);
            &&& e.has(inode) <==> inode == ROOT_INODE
            &&& e.entries[ROOT_INODE].is_dir
            &&& names::find(e.paths, text::root_path()) == Some(ROOT_INODE)
            &&& path != text::root_path() ==> names::find(e.paths, path) is None
            &&& names::find(e.generations, path) is None
        }),
{
    let e = v.emptied(uid, gid, now);
    assert(e.paths.drop_last() =~= Seq::<(Seq<char>, u64)>::empty());
    assert(e.paths.last() == (text::root_path(), ROOT_INODE));
}

/// An extended attribute that was set is read back as it was set, and the
/// others are as they were.
pub proof fn law_xattr_read_back(
    v: MetaView,
    inode: u64,
    name: Seq<char>,
    value: Seq<u8>,
    other: Seq<char>,
)
    requires
        v.has(inode),
        other != name,
    ensures
        v.xattr_set(inode, name, value).xattr(inode, name) == Some(value),
        v.xattr_set(inode, name, value).xattr(inode, other) == v.xattr(inode, other),
{
    names::law_put(v.entries[inode].xattrs, name, value, other);
}

/// A refresh from the server keeps what only the client knows: extended
/// attributes, local changes, open handles and the cap. An open file never gets
/// shorter by it, and a file id, chunks and a link target are not lost to an
/// answer without them.
pub proof fn law_refresh_keeps_local_state(x: EntryView, e: EntryView, now_ms: u64)
    ensures
        ({
            let r = merged(x, e, now_ms);
            &&& r.xattrs == x.xattrs
            &&& r.state == x.state
            &&& r.hold == x.hold
            &&& r.cap == x.cap
            &&& x.hold is Pinned ==> r.content_size >= x.content_size
            &&& x.fid is Some ==> r.fid is Some
            &&& x.chunks.len() > 0 ==> r.chunks.len() > 0
            &&& x.symlink_target is Some ==> r.symlink_target is Some
        }),
{
}

/// The state of the cache right before an inserted entry is filed.
pub open spec fn before_filing(v: MetaView, e: EntryView, now_ms: u64) -> MetaView {
    let (path, walked) = v.insert_path(e, now_ms);
    MetaView { paths: names::put(walked.paths, path, e.inode), ..walked }.without_listing(e.parent)
}

proof fn lemma_before_filing(v: MetaView, e: EntryView, now_ms: u64)
    requires
        v.wf(),
    ensures
        ({
            let b = before_filing(v, e, now_ms);
            &&& b.wf()
            &&& b.entries.dom() == v.entries.dom()
            &&& b.order.len() == v.order.len()
            &&& b.capacity == v.capacity
            &&& b.ttl == v.ttl
            &&& forall|k: u64| #[trigger]
                v.has(k) ==> b.entries[k].hold == v.entries[k].hold && (b.entries[k].state
                    == v.entries[k].state || !v.entries[k].state.is_authoritative())
        }),
{
    if e.inode != ROOT_INODE {
        law_climb_keeps_entries(v, e.parent, set![e.inode], now_ms);
    }
}

proof fn lemma_room_made(b: MetaView, e: EntryView) -> (gone: u64)
    requires
        b.wf(),
        !b.has(e.inode),
        b.order.len() >= b.capacity,
        b.entries[b.order.last()].hold is Pinned,
    ensures
        ({
            let p = b.pushed(e.inode, e);
            let out = b.order.last();
            let a = b.admitted(e.inode, e);
            &&& p.has(gone)
            &&& gone != out
            &&& a.entries == p.entries.remove(gone).insert(out, b.entries[out])
            &&& match last_closed(p.entries, p.order) {
                Some(k) => gone == k && p.entries[k].hold is Unpinned,
                None => gone == p.order.last() && e.hold is Pinned && forall|k: u64| #[trigger]
                    b.has(k) ==> b.entries[k].hold is Pinned,
            }
        }),
{
    let p = b.pushed(e.inode, e);
    let out = b.order.last();
    assert(b.order.contains(out));
    assert(b.has(out));
    assert(p.order.len() == b.order.len());
    assert forall|x: int, y: int|
        0 <= x < p.order.len() && 0 <= y < p.order.len() && x != y implies p.order[x]
        != p.order[y] by {
        if x == 0 {
            assert(b.order.contains(b.order[y - 1]));
        } else if y == 0 {
            assert(b.order.contains(b.order[x - 1]));
        } else {
            assert(b.order[x - 1] != b.order[y - 1]);
        }
    }
    assert forall|i: int| 0 <= i < p.order.len() implies p.has(#[trigger] p.order[i]) && p.order[i]
        != out by {
        if i > 0 {
            assert(b.order.contains(b.order[i - 1]));
            assert(b.order[i - 1] != b.order[b.order.len() - 1]);
        }
    }
    lemma_last_closed(p.entries, p.order);
    let gone = match last_closed(p.entries, p.order) {
        Some(k) => k,
        None => p.order.last(),
    };
    assert(p.order.contains(p.order[p.order.len() - 1]));
    assert(p.order.contains(gone));
    let g = choose|g: int| 0 <= g < p.order.len() && p.order[g] == gone;
    assert(p.has(p.order[g]));
    lemma_without(p.order, gone);
    if last_closed(p.entries, p.order) is None {
        assert(p.order[0] == e.inode);
        assert(p.order.contains(e.inode));
        assert forall|k: u64| #[trigger] b.has(k) implies b.entries[k].hold is Pinned by {
            assert(b.order.contains(k));
            let i = choose|i: int| 0 <= i < b.order.len() && b.order[i] == k;
            if k != out {
                assert(p.order[i + 1] == k);
                assert(p.order.contains(k));
            }
        }
    }
    assert(!p.popped(gone).has(out));
    gone
}

/// An entry of an inode that was not cached is found after it was inserted, in
/// step with the server, and its path leads to it, as long as there is room or
/// another inode that is not open, or the new one is open and not alone. In a
/// cache full of open inodes an entry that is not open stays out.
pub proof fn law_inserted_entry_is_found(v: MetaView, e: EntryView, now_ms: u64, later: u64)
    requires
        v.wf(),
        !v.has(e.inode),
        v.order.len() < v.capacity || (exists|k: u64| #[trigger]
            v.has(k) && v.entries[k].hold is Unpinned) || (e.hold is Pinned && v.capacity > 1),
        !(e.state is Tombstone),
        e.step(EntryState::Clean).is_live(later, v.ttl),
    ensures
        v.inserted(e, now_ms).answer(e.inode, later) == Some(e.step(EntryState::Clean)),
        names::find(v.inserted(e, now_ms).paths, v.insert_path(e, now_ms).0) == Some(e.inode),
{
    lemma_before_filing(v, e, now_ms);
    let b = before_filing(v, e, now_ms);
    let a = b.filed(e, now_ms);
    let (path, walked) = v.insert_path(e, now_ms);
    names::law_put(walked.paths, path, e.inode, path);
    if b.order.len() >= b.capacity {
        let out = b.order.last();
        assert(b.order.contains(out));
        assert(b.has(out));
        if b.entries[out].hold is Pinned {
            let gone = lemma_room_made(b, e);
            let p = b.pushed(e.inode, e);
            assert(gone != e.inode) by {
                if last_closed(p.entries, p.order) is Some {
                    if gone == e.inode {
                        lemma_newcomer_goes_last(b, e);
                        let k = choose|k: u64| #[trigger]
                            v.has(k) && v.entries[k].hold is Unpinned;
                        assert(b.has(k));
                    }
                } else {
                    if exists|k: u64| #[trigger] v.has(k) && v.entries[k].hold is Unpinned {
                        let k = choose|k: u64| #[trigger]
                            v.has(k) && v.entries[k].hold is Unpinned;
                        assert(b.has(k));
                    }
                    assert(p.order.last() == b.order[b.order.len() - 2]);
                    assert(b.order.contains(b.order[b.order.len() - 2]));
                }
            }
        }
    }
    assert(a.has(e.inode));
    assert(a.entries[e.inode] == e);
}

proof fn lemma_newcomer_goes_last(b: MetaView, e: EntryView)
    requires
        b.wf(),
        !b.has(e.inode),
        b.order.len() >= b.capacity,
        b.entries[b.order.last()].hold is Pinned,
        last_closed(b.pushed(e.inode, e).entries, b.pushed(e.inode, e).order) == Some(e.inode),
    ensures
        forall|k: u64| #[trigger] b.has(k) ==> b.entries[k].hold is Pinned,
{
    let p = b.pushed(e.inode, e);
    let n = p.order.len() as int;
    assert(p.order.take(n) =~= p.order);
    assert forall|i: int| 1 <= i < n implies #[trigger] p.order[i] != p.order[0] by {
        assert(b.order.contains(b.order[i - 1]));
    }
    lemma_first_is_last_closed(p.entries, p.order, n);
    assert forall|k: u64| #[trigger] b.has(k) implies b.entries[k].hold is Pinned by {
        assert(b.order.contains(k));
        let i = choose|i: int| 0 <= i < b.order.len() && b.order[i] == k;
        if i < b.order.len() - 1 {
            assert(p.order[i + 1] == k);
            assert(b.order[i] != b.order[b.order.len() - 1]);
        }
    }
}

proof fn lemma_first_is_last_closed(entries: Map<u64, EntryView>, order: Seq<u64>, n: int)
    requires
        1 <= n <= order.len(),
        forall|i: int| 1 <= i < n ==> #[trigger] order[i] != order[0],
        last_closed(entries, order.take(n)) == Some(order[0]),
    ensures
        forall|i: int| 1 <= i < n ==> entries[#[trigger] order[i]].hold is Pinned,
    decreases n,
{
    let t = order.take(n);
    assert(t.last() == order[n - 1]);
    if n > 1 {
        assert(t.drop_last() =~= order.take(n - 1));
        assert(order[n - 1] != order[0]);
        lemma_first_is_last_closed(entries, order, n - 1);
    }
}

/// An open inode stays cached when another one comes in, with the same number of
/// handles, unless every cached inode is open and the new one is open too: only
/// then does an open one go from a full cache.
pub proof fn law_open_inodes_survive_insertion(v: MetaView, e: EntryView, now_ms: u64, held: u64)
    requires
        v.wf(),
        v.has(held),
        v.entries[held].hold is Pinned,
        held != e.inode,
        v.has(e.inode) || v.order.len() < v.capacity || e.hold is Unpinned || exists|k: u64|
            #[trigger] v.has(k) && v.entries[k].hold is Unpinned,
    ensures
        v.inserted(e, now_ms).has(held),
        v.inserted(e, now_ms).entries[held].hold == v.entries[held].hold,
{
    lemma_before_filing(v, e, now_ms);
    let b = before_filing(v, e, now_ms);
    assert(b.has(held));
    assert(b.order.contains(held));
    if !b.has(e.inode) && b.order.len() >= b.capacity {
        let out = b.order.last();
        assert(b.order.contains(out));
        assert(b.has(out));
        if b.entries[out].hold is Pinned {
            let gone = lemma_room_made(b, e);
            let p = b.pushed(e.inode, e);
            if last_closed(p.entries, p.order) is None && e.hold is Pinned {
                let k = choose|k: u64| #[trigger] v.has(k) && v.entries[k].hold is Unpinned;
                assert(b.has(k));
            }
            assert(gone != held);
        } else {
            assert(out != held);
        }
    }
}

/// A renamed inode stands under its new name, and the path there leads to it;
/// what it is, apart from its name and its times, has not changed.
pub proof fn law_rename_moves(
    v: MetaView,
    inode: u64,
    olddir: u64,
    newdir: u64,
    newname: Seq<char>,
    now: Now,
)
    requires
        v.wf(),
        v.has(inode),
        inode != olddir,
        inode != newdir,
    ensures
        ({
            let m = v.moved(inode, olddir, newdir, newname, now);
            &&& m.has(inode)
            &&& m.entries[inode].parent == newdir
            &&& m.entries[inode].name == newname
            &&& m.entries[inode] == EntryView {
                parent: newdir,
                name: newname,
                ctime: now.unix_secs,
                mtime: now.unix_secs,
                ..v.entries[inode]
            }
            &&& newdir == ROOT_INODE ==> names::find(m.paths, seq!['/'] + newname) == Some(inode)
            &&& !m.dirs.contains_key(olddir)
            &&& !m.dirs.contains_key(newdir)
        }),
{
    let v1 = MetaView { paths: names::erase(v.paths, v.path_or_empty(inode)), ..v };
    crate::metadata_cache::lemma_child_named_is_child(
        v1,
        newdir,
        newname,
        Some(inode),
        v1.order.len() as int,
    );
    let v2 = match crate::meta_model::child_named(v1.entries, v1.order, newdir, newname, Some(inode)) {
        Some(target) => v1.removed_entry_only(target),
        None => v1,
    };
    assert(v2.has(inode));
    assert(v2.entries[inode] == v.entries[inode]);
    let dir_path = if newdir == ROOT_INODE {
        Seq::<char>::empty()
    } else {
        v2.path_or_empty(newdir)
    };
    let p = dir_path.push('/') + newname;
    names::law_put(v2.paths, p, inode, p);
    if newdir == ROOT_INODE {
        assert(Seq::<char>::empty().push('/') + newname =~= seq!['/'] + newname);
    }
}

pub proof fn lemma_grow_keeps(chunks: Seq<CachedFileChunk>, fresh: CachedFileChunk, i: int)
    requires
        0 <= i < chunks.len(),
    ensures
        grow_chunk(chunks, fresh).len() >= chunks.len(),
        grow_chunk(chunks, fresh)[i].offset == chunks[i].offset,
        grow_chunk(chunks, fresh)[i].size >= chunks[i].size,
        grow_chunk(chunks, fresh)[i].needle_id == chunks[i].needle_id,
        grow_chunk(chunks, fresh)[i].volume_id == chunks[i].volume_id,
{
    lemma_chunk_at_bounds(chunks, fresh.offset);
}

pub proof fn lemma_chunk_at_bounds(chunks: Seq<CachedFileChunk>, offset: u64)
    ensures
        0 <= chunk_at(chunks, offset) <= chunks.len(),
        chunk_at(chunks, offset) < chunks.len() ==> chunks[chunk_at(chunks, offset)].offset
            == offset,
        forall|j: int|
            0 <= j < chunk_at(chunks, offset) ==> (#[trigger] chunks[j]).offset != offset,
    decreases chunks.len(),
{
    if chunks.len() > 0 {
        lemma_chunk_at_bounds(chunks.drop_last(), offset);
        let p = chunks.drop_last();
        assert forall|j: int| 0 <= j < chunk_at(chunks, offset) implies (
        #[trigger] chunks[j]).offset != offset by {
            if j < p.len() {
                assert(p[j] == chunks[j]);
            }
        }
    }
}

/// A write never makes a chunk shorter and never moves one: every chunk of the
/// list keeps its place and its needle, and covers at least what it covered.
pub proof fn law_writes_only_grow_chunks(
    chunks: Seq<CachedFileChunk>,
    fid: Fid,
    lo: int,
    hi: int,
    write_end: int,
    chunk_size: int,
    mtime: u64,
    i: int,
)
    requires
        0 <= i < chunks.len(),
    ensures
        ({
            let g = flat_grown(chunks, fid, lo, hi, write_end, chunk_size, mtime);
            &&& g.len() >= chunks.len()
            &&& g[i].offset == chunks[i].offset
            &&& g[i].size >= chunks[i].size
            &&& g[i].needle_id == chunks[i].needle_id
            &&& g[i].volume_id == chunks[i].volume_id
        }),
    decreases hi - lo,
{
    if lo < hi {
        law_writes_only_grow_chunks(chunks, fid, lo, hi - 1, write_end, chunk_size, mtime, i);
        lemma_grow_keeps(
            flat_grown(chunks, fid, lo, hi - 1, write_end, chunk_size, mtime),
            flat_chunk(fid, hi - 1, write_end, chunk_size, mtime),
            i,
        );
    }
}

/// Every chunk that a write touches is in the list afterwards and covers the
/// data written to it.
pub proof fn law_writes_are_covered(
    chunks: Seq<CachedFileChunk>,
    fid: Fid,
    lo: int,
    hi: int,
    write_end: int,
    chunk_size: int,
    mtime: u64,
    idx: int,
)
    requires
        lo <= idx < hi,
        0 <= lo,
        0 < chunk_size,
        hi * chunk_size <= u64::MAX,
        0 <= covered(idx, write_end, chunk_size) <= u64::MAX,
    ensures
        ({
            let g = flat_grown(chunks, fid, lo, hi, write_end, chunk_size, mtime);
            let at = chunk_at(g, (idx * chunk_size) as u64);
            &&& 0 <= at < g.len()
            &&& g[at].offset == idx * chunk_size
            &&& g[at].size >= covered(idx, write_end, chunk_size)
        }),
    decreases hi - lo,
{
    let before = flat_grown(chunks, fid, lo, hi - 1, write_end, chunk_size, mtime);
    let fresh = flat_chunk(fid, hi - 1, write_end, chunk_size, mtime);
    let g = grow_chunk(before, fresh);
    let offset = (idx * chunk_size) as u64;
    assert(0 <= idx * chunk_size <= hi * chunk_size) by (nonlinear_arith)
        requires
            0 <= idx < hi,
            0 < chunk_size,
    ;
    lemma_chunk_at_bounds(before, fresh.offset);
    lemma_chunk_at_bounds(before, offset);
    lemma_chunk_at_bounds(g, offset);
    let fat = chunk_at(before, fresh.offset);
    if idx == hi - 1 {
        assert(g[fat].offset == offset);
        let at = chunk_at(g, offset);
        if at < fat {
            assert(g[at].offset == before[at].offset);
        }
        if at > fat {
            assert(g[fat].offset != offset);
        }
    } else {
        assert((hi - 1) * chunk_size <= hi * chunk_size) by (nonlinear_arith)
            requires
                0 < chunk_size,
        ;
        law_writes_are_covered(chunks, fid, lo, hi - 1, write_end, chunk_size, mtime, idx);
        let bat = chunk_at(before, offset);
        let at = chunk_at(g, offset);
        lemma_grow_keeps(before, fresh, bat);
        assert(g[bat].offset == offset);
        if at > bat {
            assert(g[bat].offset != offset);
        }
        if at < bat {
            lemma_grow_keeps(before, fresh, at);
            assert(before[at].offset == offset);
        }
    }
}

/// Counting one name more and then one less leaves the count as it was.
pub proof fn law_unlink_undoes_link(v: MetaView, inode: u64)
    requires
        v.has(inode),
        v.entries[inode].nlink < u32::MAX,
    ensures
        ({
            let linked = v.alter(
                inode,
                EntryView {
                    nlink: (v.entries[inode].nlink + 1) as u32,
                    ..v.entries[inode]
                },
            );
            linked.unlinked_once(inode).entries[inode] == v.entries[inode]
        }),
{
}

/// A name is answered from the cache without asking the server only where its
/// own lease runs, or where its directory was listed in full and has not
/// changed since.
pub proof fn law_names_are_vouched_for(v: MetaView, parent: u64, name: Seq<char>, now_ms: u64)
    ensures
        ({
            let s = v.lease_status(parent, name, now_ms);
            &&& s is SharedGenValid || s is NegativeComplete ==> v.is_complete(parent)
            &&& s is NegativeComplete || s is Miss ==> v.child(parent, name) is None
            &&& s is LeaseValid ==> (v.child(parent, name) matches Some(k)
                && v.entries[k].dentry_lease matches Some(l) && now_ms < l.expires_ms)
        }),
{
}

} // verus!
