//! The metadata cache: cached entries by inode, the paths that lead to them,
//! and directory listings.

use crate::client_cap::{CapSet, ClientCap, RecallAction, CAP_W, CAP_X};
use crate::entry::{
    copy_opt_cap, copy_opt_string, opt_cap, opt_text, CachedEntry, CachedFileChunk, DentryLease,
    EntryState, EntryView, Fid, HoldState, Now, Placement, Reliability, UpdateAttrParams,
    ROOT_INODE,
};
use crate::lru_entries::{
    bump, lemma_without, lru_capacity, lru_clear, lru_consistent, lru_entries, lru_get_mut, lru_keys, lru_new,
    lru_order, lru_peek, lru_peek_mut, lru_pop, lru_push, without,
};
use crate::meta_laws::law_cleared_names_are_gone;
use crate::meta_model::{
    attrs_updated, child_named, children_in, chunk_at, chunks_cut, flat_chunk, flat_grown,
    grow_chunk, invalidated, last_closed, lease_dropped, lemma_child_is_cached, lemma_last_closed, merged,
    root_entry, stripe_chunk, stripe_grown, stripe_unit, Climb, DentryLeaseStatus, ListingView,
    MetaView, FILE_KEY_BLOCK_SIZE,
};
use crate::names::{self, NameMap};
use crate::text;
use lru::LruCache;
use std::collections::{HashMap, HashSet};
use vstd::prelude::*;
use vstd::string::*;

verus! {

/// How long a metadata entry is trusted by default: 30 seconds.
pub const DEFAULT_METADATA_TTL_MS: u64 = 30_000;

/// How long a directory listing is trusted: 5 seconds.
pub const DIR_CACHE_TTL_MS: u64 = 5_000;

/// How many entries the cache holds by default.
pub const DEFAULT_CAPACITY: usize = 10_000;

/// A directory listing (inode, name, is-directory) and when it was taken.
struct DirCacheEntry {
    entries: Vec<(u64, String, bool)>,
    cached_at: u64,
}

/// The rows of a listing with their names as characters.
pub open spec fn rows(v: Seq<(u64, String, bool)>) -> Seq<(u64, Seq<char>, bool)> {
    Seq::new(v.len(), |i: int| (v[i].0, v[i].1@, v[i].2))
}

impl View for DirCacheEntry {
    type V = ListingView;

    closed spec fn view(&self) -> ListingView {
        ListingView { entries: rows(self.entries@), cached_at: self.cached_at }
    }
}

/// A copy of a listing.
fn copy_rows(v: &Vec<(u64, String, bool)>) -> (r: Vec<(u64, String, bool)>)
    ensures
        rows(r@) == rows(v@),
{
    let mut r: Vec<(u64, String, bool)> = Vec::new();
    let mut i: usize = 0;
    while i < v.len()
        invariant
            i <= v.len(),
            rows(r@) == rows(v@).take(i as int),
        decreases v.len() - i,
    {
        let ghost before = rows(r@);
        r.push((v[i].0, v[i].1.clone(), v[i].2));
        i += 1;
        assert(rows(r@) =~= before.push(rows(v@)[i - 1]));
        assert(rows(r@) =~= rows(v@).take(i as int));
    }
    assert(rows(v@).take(i as int) =~= rows(v@));
    r
}

/// The age of something that was made at `at`.
pub open spec fn age(now_ms: u64, at: u64) -> int {
    if now_ms > at {
        now_ms - at
    } else {
        0
    }
}

/// The number of bytes that a text takes.
pub open spec fn byte_len(t: Seq<char>) -> u64 {
    (vstd::utf8::encode_utf8(t).len() as usize) as u64
}

/// The number of bytes of a string.
pub fn text_bytes(s: &str) -> (r: u64)
    ensures
        r == byte_len(s@),
{
    s.len() as u64
}

pub proof fn lemma_dom_finite(v: MetaView)
    requires
        lru_consistent(v.entries, v.order, v.capacity),
    ensures
        v.entries.dom().finite(),
        v.entries.dom() == v.order.to_set(),
{
    assert(v.entries.dom() =~= v.order.to_set());
}

/// Metadata cache of a mount.
pub struct MetadataCache {
    inodes: LruCache<u64, CachedEntry>,
    path_map: NameMap<u64>,
    dir_cache: HashMap<u64, DirCacheEntry>,
    next_inode: u64,
    dir_cache_ttl: u64,
    metadata_ttl: u64,
    path_generations: NameMap<u64>,
    dir_versions: HashMap<u64, u64>,
    complete_dirs: HashMap<u64, u64>,
}

impl View for MetadataCache {
    type V = MetaView;

    closed spec fn view(&self) -> MetaView {
        MetaView {
            entries: lru_entries(&self.inodes),
            order: lru_order(&self.inodes),
            capacity: lru_capacity(&self.inodes),
            paths: self.path_map@,
            dirs: self.dir_cache@.map_values(|d: DirCacheEntry| d@),
            next_inode: self.next_inode,
            dir_ttl: self.dir_cache_ttl,
            ttl: self.metadata_ttl,
            generations: self.path_generations@,
            dir_versions: self.dir_versions@,
            complete_dirs: self.complete_dirs@,
        }
    }
}

/// The root directory's entry, not yet inserted.
fn make_root(mode: u32, uid: u32, gid: u32, now: Now) -> (r: CachedEntry)
    ensures
        r@ == root_entry(mode, uid, gid, now),
{
    let r = CachedEntry {
        inode: ROOT_INODE,
        parent: ROOT_INODE,
        name: String::new(),
        is_dir: true,
        is_symlink: false,
        symlink_target: None,
        nlink: 2,
        fid: None,
        size: 4096,
        mode,
        uid,
        gid,
        atime: now.unix_secs,
        mtime: now.unix_secs,
        ctime: now.unix_secs,
        xattrs: NameMap::new(),
        chunks: Vec::new(),
        hard_link_id: String::new(),
        hard_link_counter: 0,
        content_size: 4096,
        disk_size: 4096,
        generation: 1,
        placement: None,
        reliability: Reliability::SingleReplica,
        replica_chunks: Vec::new(),
        shard_id: None,
        cached_at: now.mono_ms,
        state: EntryState::New,
        hold: HoldState::Unpinned,
        cap: None,
        dentry_lease: None,
        dir_shared_gen: 0,
    };
    assert(r@.name =~= Seq::<char>::empty());
    r
}

impl MetadataCache {
    /// The cache's parts agree.
    pub open spec fn wf(&self) -> bool {
        self@.wf()
    }

    /// Get an entry by inode. Answers nothing where the inode is not cached or
    /// deleted, and where its entry is too old or `Stale`. An entry that is
    /// open is answered however old or out of date it is, and one that carries
    /// local changes does not age.
    pub fn get_inode(&mut self, inode: u64, now_ms: u64) -> (r: Option<CachedEntry>)
        requires
            old(self).wf(),
        ensures
            final(self).wf(),
            final(self)@ == old(self)@.fetched(inode, now_ms),
            match r {
                Some(e) => old(self)@.answer(inode, now_ms) == Some(e@),
                None => old(self)@.answer(inode, now_ms) is None,
            },
    {
        let ttl: u64 = self.metadata_ttl;
        if let Some(e) = lru_get_mut(&mut self.inodes, inode) {
            let old_enough: bool = now_ms > e.cached_at && now_ms - e.cached_at > ttl;
            let authoritative: bool = e.state == EntryState::Dirty || e.state
                == EntryState::Flushing;
            if !e.hold.is_pinned() && !authoritative && old_enough {
                e.try_transition(EntryState::Stale);
                None
            } else if (e.state == EntryState::Stale && !e.hold.is_pinned()) || e.state
                == EntryState::Tombstone {
                None
            } else {
                Some(e.clone())
            }
        } else {
            None
        }
    }

    /// Count one more open handle on an inode, which keeps its entry from
    /// ageing. Handles are counted, so an inode that two callers opened stays
    /// pinned until both closed it.
    pub fn pin_inode(&mut self, inode: u64)
        requires
            old(self).wf(),
            old(self)@.has(inode) ==> old(self)@.entries[inode].hold.count() < u32::MAX,
        ensures
            final(self).wf(),
            final(self)@ == old(self)@.pinned(inode),
    {
        if let Some(e) = lru_get_mut(&mut self.inodes, inode) {
            e.pin();
        }
    }

    /// Count one open handle less. Returns true if that was the last one.
    pub fn unpin_inode(&mut self, inode: u64) -> (released: bool)
        requires
            old(self).wf(),
        ensures
            final(self).wf(),
            final(self)@ == old(self)@.unpinned(inode),
            released == (old(self)@.has(inode) && old(self)@.entries[inode].hold is Pinned && old(
                self,
            )@.entries[inode].hold.count() <= 1),
    {
        if let Some(e) = lru_get_mut(&mut self.inodes, inode) {
            e.unpin()
        } else {
            false
        }
    }

    /// True if an inode is cached and open.
    pub fn is_pinned(&self, inode: u64) -> (r: bool)
        ensures
            r == (self@.has(inode) && self@.entries[inode].hold is Pinned),
    {
        match lru_peek(&self.inodes, inode) {
            Some(e) => e.hold.is_pinned(),
            None => false,
        }
    }

    /// The lifecycle state of a cached inode, however old its entry is.
    pub fn get_entry_state(&self, inode: u64) -> (r: Option<EntryState>)
        ensures
            r == if self@.has(inode) {
                Some(self@.entries[inode].state)
            } else {
                None
            },
    {
        match lru_peek(&self.inodes, inode) {
            Some(e) => Some(e.state),
            None => None,
        }
    }

    /// The entry of a cached inode, whatever its age and state.
    pub fn peek_inode(&self, inode: u64) -> (r: Option<CachedEntry>)
        ensures
            match r {
                Some(e) => self@.has(inode) && e@ == self@.entries[inode],
                None => !self@.has(inode),
            },
    {
        match lru_peek(&self.inodes, inode) {
            Some(e) => Some(e.clone()),
            None => None,
        }
    }

    /// Mark an inode as having local changes.
    pub fn mark_dirty(&mut self, inode: u64)
        requires
            old(self).wf(),
        ensures
            final(self).wf(),
            final(self)@ == old(self)@.stepped(inode, EntryState::Dirty),
    {
        if let Some(e) = lru_get_mut(&mut self.inodes, inode) {
            e.try_transition(EntryState::Dirty);
        }
    }

    /// Mark an inode's local changes as being sent.
    pub fn mark_flushing(&mut self, inode: u64)
        requires
            old(self).wf(),
        ensures
            final(self).wf(),
            final(self)@ == old(self)@.stepped(inode, EntryState::Flushing),
    {
        if let Some(e) = lru_get_mut(&mut self.inodes, inode) {
            e.try_transition(EntryState::Flushing);
        }
    }

    /// Mark an inode as in step with the server, as of now.
    pub fn mark_clean(&mut self, inode: u64, now_ms: u64)
        requires
            old(self).wf(),
        ensures
            final(self).wf(),
            final(self)@ == old(self)@.cleaned(inode, now_ms),
    {
        if let Some(e) = lru_get_mut(&mut self.inodes, inode) {
            e.try_transition(EntryState::Clean);
            e.cached_at = now_ms;
        }
    }

    /// Mark an inode as out of date: the next lookup of it answers nothing, so
    /// that the server is asked again. While it is open it is still answered.
    pub fn mark_stale(&mut self, inode: u64)
        requires
            old(self).wf(),
        ensures
            final(self).wf(),
            final(self)@ == old(self)@.stepped(inode, EntryState::Stale),
    {
        if let Some(e) = lru_get_mut(&mut self.inodes, inode) {
            e.try_transition(EntryState::Stale);
        }
    }

    /// Walk from `start` up to the root and append the names on the way.
    /// Returns whether the root was reached.
    fn climb(&mut self, start: u64, below: u64, now_ms: u64, parts: &mut Vec<String>) -> (reached:
        bool)
        requires
            old(self).wf(),
        ensures
            final(self).wf(),
            ({
                let c = old(self)@.climb(start, set![below], now_ms);
                &&& final(self)@ == c.end
                &&& text::texts(final(parts)@) == text::texts(old(parts)@) + c.names
                &&& reached == c.reached
            }),
    {
        broadcast use vstd::std_specs::hash::group_hash_axioms;

        proof {
            lemma_dom_finite(self@);
        }
        let ghost total = self@.climb(start, set![below], now_ms);
        let ghost p0 = text::texts(parts@);
        let ghost mut done: Seq<Seq<char>> = Seq::empty();
        let mut visited: HashSet<u64> = HashSet::new();
        visited.insert(below);
        proof {
            assert(visited@ =~= set![below]);
            assert(p0 + done =~= text::texts(parts@));
            assert(done + total.names =~= total.names);
        }
        let mut current: u64 = start;
        while current != ROOT_INODE
            invariant
                self.wf(),
                self@.entries.dom().finite(),
                total == old(self)@.climb(start, set![below], now_ms),
                p0 == text::texts(old(parts)@),
                text::texts(parts@) == p0 + done,
                total.names == done + self@.climb(current, visited@, now_ms).names,
                total.end == self@.climb(current, visited@, now_ms).end,
                total.reached == self@.climb(current, visited@, now_ms).reached,
            decreases self@.entries.dom().difference(visited@).len(),
        {
            let ghost v0 = self@;
            let ghost seen = visited@;
            let ghost here = v0.climb(current, seen, now_ms);
            if !visited.insert(current) {
                assert(total.names =~= done);
                return false;
            }
            match self.get_inode(current, now_ms) {
                Some(e) => {
                    let ghost p1 = text::texts(parts@);
                    parts.push(e.name.clone());
                    proof {
                        assert(text::texts(parts@) =~= p1.push(e@.name));
                        assert(text::texts(parts@) =~= p0 + done.push(e@.name));
                        assert(total.names =~= done.push(e@.name) + self@.climb(
                            e@.parent,
                            seen.insert(current),
                            now_ms,
                        ).names);
                        done = done.push(e@.name);
                        lemma_dom_finite(self@);
                        assert(self@.entries.dom() =~= v0.entries.dom());
                        let a = v0.entries.dom().difference(seen);
                        assert(self@.entries.dom().difference(visited@) =~= a.remove(current));
                        assert(a.contains(current));
                    }
                    current = e.parent;
                },
                None => {
                    assert(here == Climb {
                        names: Seq::empty(),
                        end: v0.fetched(current, now_ms),
                        reached: false,
                    });
                    assert(total.names =~= done);
                    return false;
                },
            }
        }
        assert(total.names =~= done);
        true
    }

    /// The path of an inode, found by walking up from directory to directory.
    pub fn get_path_by_parent_chain(&mut self, inode: u64, now_ms: u64) -> (r: Option<String>)
        requires
            old(self).wf(),
        ensures
            final(self).wf(),
            opt_text(r) == old(self)@.chain_path(inode, now_ms).0,
            final(self)@ == old(self)@.chain_path(inode, now_ms).1,
    {
        if inode == ROOT_INODE {
            return Some(text::root());
        }
        match self.get_inode(inode, now_ms) {
            Some(e) => {
                let mut parts: Vec<String> = Vec::new();
                let parent: u64 = e.parent;
                let ghost name = e@.name;
                parts.push(e.name);
                assert(text::texts(parts@) =~= seq![name]);
                if self.climb(parent, inode, now_ms, &mut parts) {
                    Some(text::join_upward(&parts))
                } else {
                    None
                }
            },
            None => None,
        }
    }

    /// The inode that a full path leads to.
    pub fn get_path(&self, path: &str) -> (r: Option<u64>)
        ensures
            r == names::find(self@.paths, path@),
    {
        match self.path_map.get(path) {
            Some(ino) => Some(*ino),
            None => None,
        }
    }

    /// Drop the cached listing of a directory. The entries of its children
    /// stay.
    pub fn invalidate_dir(&mut self, parent_inode: u64)
        requires
            old(self).wf(),
        ensures
            final(self).wf(),
            final(self)@ == old(self)@.without_listing(parent_inode),
    {
        broadcast use vstd::std_specs::hash::group_hash_axioms;

        self.dir_cache.remove(&parent_inode);
        assert(self@.dirs =~= old(self)@.dirs.remove(parent_inode));
    }

    /// Put an entry under its path and drop its directory's listing.
    fn file_path(&mut self, entry: &CachedEntry, now_ms: u64)
        requires
            old(self).wf(),
        ensures
            final(self).wf(),
            ({
                let (path, walked) = old(self)@.insert_path(entry@, now_ms);
                final(self)@ == MetaView {
                    paths: names::put(walked.paths, path, entry.inode),
                    ..walked
                }.without_listing(entry.parent)
            }),
    {
        let path: String = if entry.inode == ROOT_INODE {
            text::root()
        } else {
            let mut parts: Vec<String> = Vec::new();
            parts.push(entry.name.clone());
            assert(text::texts(parts@) =~= seq![entry@.name]);
            self.climb(entry.parent, entry.inode, now_ms, &mut parts);
            text::join_upward(&parts)
        };
        self.path_map.insert(path, entry.inode);
        self.invalidate_dir(entry.parent);
    }

    /// The inode that makes room: the least recently used one that is not open,
    /// or else the least recently used one.
    fn find_victim(&self) -> (r: u64)
        requires
            self.wf(),
            self@.order.len() > 0,
        ensures
            r == match last_closed(self@.entries, self@.order) {
                Some(k) => k,
                None => self@.order.last(),
            },
    {
        let keys: Vec<u64> = lru_keys(&self.inodes);
        let n: usize = keys.len();
        let mut i: usize = n;
        assert(keys@.take(i as int) =~= keys@);
        while i > 0
            invariant
                self.wf(),
                i <= n,
                n == keys@.len(),
                keys@ == self@.order,
                last_closed(self@.entries, keys@) == last_closed(
                    self@.entries,
                    keys@.take(i as int),
                ),
            decreases i,
        {
            i -= 1;
            let k: u64 = keys[i];
            assert(keys@.take(i + 1).last() == k);
            assert(keys@.take(i + 1).drop_last() =~= keys@.take(i as int));
            assert(self@.order.contains(k));
            if let Some(e) = lru_peek(&self.inodes, k) {
                if !e.hold.is_pinned() {
                    return k;
                }
            }
        }
        assert(keys@.take(0) =~= Seq::<u64>::empty());
        keys[n - 1]
    }

    /// Insert an entry. Its path is noted, and its directory's listing is
    /// dropped. A cached inode under the same name is refreshed; one under
    /// another name is replaced, but keeps its extended attributes. In a full
    /// cache a new inode takes the place of the least recently used one that is
    /// not open; where all others are open, it stays out unless it is open
    /// itself. Afterwards the entry counts as in step with the server, unless
    /// it carries local changes.
    pub fn insert(&mut self, entry: CachedEntry, now_ms: u64)
        requires
            old(self).wf(),
        ensures
            final(self).wf(),
            final(self)@ == old(self)@.inserted(entry@, now_ms),
    {
        broadcast use vstd::std_specs::hash::group_hash_axioms;

        let inode: u64 = entry.inode;
        self.file_path(&entry, now_ms);
        let ghost v1 = self@;
        let ghost e1 = entry@;
        proof {
            if v1.order.len() > 0 {
                assert(v1.order.contains(v1.order.last()));
                assert(v1.entries.contains_key(v1.order.last()));
            }
        }
        if let Some(existing) = lru_get_mut(&mut self.inodes, inode) {
            if existing.name != entry.name || existing.parent != entry.parent {
                let parent: u64 = existing.parent;
                let kept: NameMap<Vec<u8>> = existing.xattrs.duplicate();
                *existing = entry;
                existing.xattrs = kept;
                self.complete_dirs.remove(&parent);
            } else {
                refresh(existing, &entry, now_ms);
            }
        } else {
            let evicted: Option<(u64, CachedEntry)> = lru_push(&mut self.inodes, inode, entry);
            if let Some((out, out_entry)) = evicted {
                let parent: u64 = if out_entry.hold.is_pinned() {
                    let k: u64 = self.find_victim();
                    assert(self@.order.contains(k)) by {
                        lemma_last_closed(self@.entries, self@.order);
                        assert(self@.order.contains(self@.order[self@.order.len() - 1]));
                    }
                    let gone: Option<CachedEntry> = lru_pop(&mut self.inodes, k);
                    let ghost next = v1.pushed(inode, e1);
                    proof {
                        lemma_without(next.order, k);
                        assert(!self@.has(out)) by {
                            if next.has(out) {
                                assert(next.order.contains(out));
                                let i = choose|i: int|
                                    0 <= i < next.order.len() && next.order[i] == out;
                                assert(v1.order[i - 1] == v1.order[v1.order.len() - 1]);
                            }
                        }
                    }
                    let _none: Option<(u64, CachedEntry)> = lru_push(
                        &mut self.inodes,
                        out,
                        out_entry,
                    );
                    match gone {
                        Some(g) => g.parent,
                        None => 0,
                    }
                } else {
                    out_entry.parent
                };
                self.complete_dirs.remove(&parent);
            }
        }
        proof {
            assert(self@.entries == v1.filed(e1, now_ms).entries);
            assert(self@.order == v1.filed(e1, now_ms).order);
            assert(self@.complete_dirs =~= v1.filed(e1, now_ms).complete_dirs);
            assert(self@ == v1.filed(e1, now_ms));
        }
        if let Some(e) = lru_get_mut(&mut self.inodes, inode) {
            e.try_transition(EntryState::Clean);
        }
    }

    /// Insert an entry that is open from the moment it enters the cache.
    pub fn insert_pinned(&mut self, entry: CachedEntry, now_ms: u64)
        requires
            old(self).wf(),
        ensures
            final(self).wf(),
            final(self)@ == old(self)@.inserted_pinned(entry@, now_ms),
    {
        let mut entry: CachedEntry = entry;
        entry.hold = HoldState::Pinned { open_count: 1 };
        self.insert(entry, now_ms);
    }
}

/// Refresh a cached entry from one with the same name and parent.
fn refresh(existing: &mut CachedEntry, entry: &CachedEntry, now_ms: u64)
    ensures
        final(existing)@ == merged(old(existing)@, entry@, now_ms),
{
    if entry.hard_link_id.as_str().unicode_len() > 0
        && existing.hard_link_id.as_str().unicode_len() == 0 {
        existing.hard_link_id = entry.hard_link_id.clone();
    }
    if entry.hard_link_counter > 0 {
        existing.hard_link_counter = entry.hard_link_counter;
    }
    if entry.fid.is_some() {
        existing.fid = entry.fid;
    }
    if entry.chunks.len() > 0 {
        existing.chunks = crate::entry::copy_chunks(&entry.chunks);
    }
    if !(existing.hold.is_pinned() && existing.content_size > entry.content_size) {
        existing.size = entry.size;
        existing.content_size = entry.content_size;
    }
    existing.mode = entry.mode;
    existing.uid = entry.uid;
    existing.gid = entry.gid;
    existing.atime = entry.atime;
    existing.mtime = entry.mtime;
    existing.ctime = entry.ctime;
    existing.nlink = entry.nlink;
    existing.is_dir = entry.is_dir;
    existing.is_symlink = entry.is_symlink;
    if entry.is_symlink {
        if let Some(t) = &entry.symlink_target {
            if t.as_str().unicode_len() > 0 {
                existing.symlink_target = Some(t.clone());
            }
        }
    }
    existing.disk_size = entry.disk_size;
    existing.generation = entry.generation;
    existing.cached_at = now_ms;
}

impl MetadataCache {
    /// A cache of the default capacity and lifetime.
    pub fn new(uid: u32, gid: u32, now: Now) -> (r: Self)
        ensures
            r.wf(),
            r@ == fresh_cache(DEFAULT_CAPACITY as nat, DEFAULT_METADATA_TTL_MS, uid, gid, now),
    {
        Self::with_capacity(DEFAULT_CAPACITY, uid, gid, now)
    }

    /// A cache of the default lifetime.
    pub fn with_capacity(capacity: usize, uid: u32, gid: u32, now: Now) -> (r: Self)
        requires
            capacity <= isize::MAX / 64,
        ensures
            r.wf(),
            r@ == fresh_cache(
                capacity_or_default(capacity),
                DEFAULT_METADATA_TTL_MS,
                uid,
                gid,
                now,
            ),
    {
        Self::with_capacity_and_ttl(capacity, DEFAULT_METADATA_TTL_MS, uid, gid, now)
    }

    /// A cache that trusts an entry for `metadata_ttl` milliseconds. A capacity
    /// of zero stands for the default one. The cache holds the root directory,
    /// owned by `uid` and `gid`.
    pub fn with_capacity_and_ttl(
        capacity: usize,
        metadata_ttl: u64,
        uid: u32,
        gid: u32,
        now: Now,
    ) -> (r: Self)
        requires
            capacity <= isize::MAX / 64,
        ensures
            r.wf(),
            r@ == fresh_cache(capacity_or_default(capacity), metadata_ttl, uid, gid, now),
    {
        broadcast use vstd::std_specs::hash::group_hash_axioms;

        let size: usize = if capacity == 0 {
            DEFAULT_CAPACITY
        } else {
            capacity
        };
        let mut cache = MetadataCache {
            inodes: lru_new(size),
            path_map: NameMap::new(),
            dir_cache: HashMap::new(),
            next_inode: 2,
            dir_cache_ttl: DIR_CACHE_TTL_MS,
            metadata_ttl,
            path_generations: NameMap::new(),
            dir_versions: HashMap::new(),
            complete_dirs: HashMap::new(),
        };
        proof {
            assert(cache@.dirs =~= Map::<u64, ListingView>::empty());
        }
        cache.insert(make_root(0o777, uid, gid, now), now.mono_ms);
        proof {
            lemma_bump_single(ROOT_INODE);
            assert(Seq::<u64>::empty().len() == 0);
            assert(seq![ROOT_INODE] + Seq::<u64>::empty() =~= seq![ROOT_INODE]);
            let f = fresh_cache(capacity_or_default(capacity), metadata_ttl, uid, gid, now);
            assert(cache@.entries =~= f.entries);
            assert(cache@.paths =~= f.paths);
            assert(cache@.dirs =~= f.dirs);
            assert(cache@.order =~= f.order);
        }
        cache
    }

    /// Hand out a new inode number.
    pub fn allocate_inode(&mut self) -> (r: u64)
        requires
            old(self).wf(),
        ensures
            final(self).wf(),
            r == old(self)@.next_inode,
            final(self)@ == (MetaView {
                next_inode: if r == u64::MAX {
                    0
                } else {
                    (r + 1) as u64
                },
                ..old(self)@
            }),
    {
        let r: u64 = self.next_inode;
        self.next_inode = r.wrapping_add(1);
        r
    }

    /// Set both sizes of an inode, whether or not it is open.
    pub fn set_content_size(&mut self, inode: u64, size: u64)
        requires
            old(self).wf(),
        ensures
            final(self).wf(),
            final(self)@ == old(self)@.content_size_set(inode, size),
    {
        if let Some(e) = lru_get_mut(&mut self.inodes, inode) {
            e.content_size = size;
            e.size = size;
        }
    }

    /// Remove an inode, all of its paths, and its directory's listing.
    pub fn remove(&mut self, inode: u64)
        requires
            old(self).wf(),
        ensures
            final(self).wf(),
            final(self)@ == old(self)@.removed(inode),
    {
        let gone: Option<CachedEntry> = lru_pop(&mut self.inodes, inode);
        if let Some(entry) = gone {
            self.path_map.remove_value(inode);
            self.invalidate_dir(entry.parent);
        }
    }

    /// Remove an inode, one of its paths, and its directory's listing.
    fn remove_entry_only(&mut self, inode: u64) -> (r: Option<CachedEntry>)
        requires
            old(self).wf(),
        ensures
            final(self).wf(),
            final(self)@ == old(self)@.removed_entry_only(inode),
            r is Some == old(self)@.has(inode),
    {
        let gone: Option<CachedEntry> = lru_pop(&mut self.inodes, inode);
        if let Some(entry) = &gone {
            let path: String = self.path_or_empty(inode);
            self.path_map.remove(path.as_str());
            self.invalidate_dir(entry.parent);
        }
        gone
    }

    /// A path of an inode, empty where none is known.
    fn path_or_empty(&self, inode: u64) -> (r: String)
        ensures
            r@ == self@.path_or_empty(inode),
    {
        match self.path_map.name_of(inode) {
            Some(p) => p,
            None => String::new(),
        }
    }

    /// Remove one path of an inode, as for a hard link. Where the entry stood
    /// under that path, it takes another name that the inode still has.
    pub fn remove_path(&mut self, inode: u64, path: &str, now_ms: u64)
        requires
            old(self).wf(),
        ensures
            final(self).wf(),
            final(self)@ == old(self)@.removed_path(inode, path@, now_ms),
    {
        self.path_map.remove(path);
        if lru_peek(&self.inodes, inode).is_some() {
            let found: Option<String> = self.get_path_by_parent_chain(inode, now_ms);
            let matches_entry: bool = match &found {
                Some(p) => text::same(p.as_str(), path),
                None => false,
            };
            if matches_entry {
                if let Some(other) = self.path_map.name_of(inode) {
                    let name: String = text::leaf_name(other.as_str());
                    if let Some(e) = lru_get_mut(&mut self.inodes, inode) {
                        e.name = name;
                    }
                }
            }
        }
        if let Some(e) = self.get_inode(inode, now_ms) {
            self.invalidate_dir(e.parent);
        }
    }

    /// Declare every entry out of date, as after a change of the server's
    /// leader, when notifications may have been missed. Entries with local
    /// changes are left alone; no entry is dropped. All listings go.
    pub fn invalidate_all(&mut self, now_ms: u64)
        requires
            old(self).wf(),
        ensures
            final(self).wf(),
            final(self)@ == old(self)@.all_invalidated(now_ms),
    {
        let ttl: u64 = self.metadata_ttl;
        let past: u64 = now_ms.saturating_sub(ttl).saturating_sub(ttl);
        let keys: Vec<u64> = lru_keys(&self.inodes);
        let ghost v0 = self@;
        let mut i: usize = 0;
        while i < keys.len()
            invariant
                i <= keys.len(),
                keys@ == v0.order,
                v0.wf(),
                v0.ttl == ttl,
                past == if now_ms > 2 * ttl {
                    (now_ms - 2 * ttl) as u64
                } else {
                    0
                },
                self@ == (MetaView { entries: self@.entries, ..v0 }),
                self@.entries.dom() == v0.entries.dom(),
                forall|j: int|
                    0 <= j < i ==> self@.entries[#[trigger] keys@[j]] == invalidated(
                        v0.entries[keys@[j]],
                        now_ms,
                        ttl,
                    ),
                forall|j: int|
                    i <= j < keys@.len() ==> self@.entries[#[trigger] keys@[j]]
                        == v0.entries[keys@[j]],
            decreases keys.len() - i,
        {
            let ghost before = self@;
            proof {
                assert(v0.order.contains(keys@[i as int]));
                assert(v0.entries.contains_key(keys@[i as int]));
                assert(before.entries.dom().contains(keys@[i as int]));
            }
            if let Some(e) = lru_peek_mut(&mut self.inodes, keys[i]) {
                e.dentry_lease = None;
                if !(e.state == EntryState::Dirty || e.state == EntryState::Flushing) {
                    e.cached_at = past;
                    e.try_transition(EntryState::Stale);
                }
            }
            assert(self@.entries.dom() =~= v0.entries.dom());
            i += 1;
        }
        self.dir_cache.clear();
        self.complete_dirs.clear();
        proof {
            let f = old(self)@.all_invalidated(now_ms);
            assert(self@.dirs =~= f.dirs);
            assert(self@.complete_dirs =~= f.complete_dirs);
            assert forall|k: u64| self@.entries.contains_key(k) implies self@.entries[k]
                == f.entries[k] by {
                assert(v0.order.contains(k));
                let j = choose|j: int| 0 <= j < v0.order.len() && v0.order[j] == k;
                assert(keys@[j] == k);
            }
            assert(self@.entries =~= f.entries);
        }
    }

    /// The cached listing of a directory, if it is recent enough.
    pub fn get_dir_listing(&self, parent_inode: u64, now_ms: u64) -> (r: Option<
        Vec<(u64, String, bool)>,
    >)
        ensures
            match r {
                Some(v) => {
                    &&& self@.dirs.contains_key(parent_inode)
                    &&& age(now_ms, self@.dirs[parent_inode].cached_at) < self@.dir_ttl
                    &&& rows(v@) == self@.dirs[parent_inode].entries
                },
                None => !self@.dirs.contains_key(parent_inode) || age(
                    now_ms,
                    self@.dirs[parent_inode].cached_at,
                ) >= self@.dir_ttl,
            },
    {
        broadcast use vstd::std_specs::hash::group_hash_axioms;

        match self.dir_cache.get(&parent_inode) {
            Some(d) => {
                assert(self@.dirs[parent_inode] == d@);
                if now_ms.saturating_sub(d.cached_at) < self.dir_cache_ttl {
                    Some(copy_rows(&d.entries))
                } else {
                    None
                }
            },
            None => None,
        }
    }

    /// Keep a listing of a directory.
    pub fn set_dir_listing(
        &mut self,
        parent_inode: u64,
        entries: Vec<(u64, String, bool)>,
        now_ms: u64,
    )
        requires
            old(self).wf(),
        ensures
            final(self).wf(),
            final(self)@ == (MetaView {
                dirs: old(self)@.dirs.insert(
                    parent_inode,
                    ListingView { entries: rows(entries@), cached_at: now_ms },
                ),
                ..old(self)@
            }),
    {
        broadcast use vstd::std_specs::hash::group_hash_axioms;

        let ghost l = ListingView { entries: rows(entries@), cached_at: now_ms };
        self.dir_cache.insert(parent_inode, DirCacheEntry { entries, cached_at: now_ms });
        assert(self@.dirs =~= old(self)@.dirs.insert(parent_inode, l));
    }

    /// The earliest known path of an inode.
    pub fn inode_to_path(&self, inode: u64) -> (r: Option<String>)
        ensures
            opt_text(r) == names::first_name(self@.paths, inode),
    {
        self.path_map.name_of(inode)
    }

    /// Note that a file has a new size as of now.
    pub fn update_size(&mut self, inode: u64, size: u64, now: Now)
        requires
            old(self).wf(),
        ensures
            final(self).wf(),
            final(self)@ == old(self)@.resized(inode, size, now),
    {
        if let Some(e) = lru_get_mut(&mut self.inodes, inode) {
            e.size = size;
            e.content_size = size;
            e.mtime = now.unix_secs;
            e.cached_at = now.mono_ms;
        }
    }

    /// Set the file id of an inode.
    pub fn update_fid(&mut self, inode: u64, fid: Fid)
        requires
            old(self).wf(),
        ensures
            final(self).wf(),
            final(self)@ == old(self)@.fid_set(inode, fid),
    {
        if let Some(e) = lru_get_mut(&mut self.inodes, inode) {
            e.fid = Some(fid);
        }
    }

    /// Replace the chunk list of an inode.
    pub fn update_chunks(&mut self, inode: u64, chunks: Vec<CachedFileChunk>)
        requires
            old(self).wf(),
        ensures
            final(self).wf(),
            final(self)@ == old(self)@.chunks_set(inode, chunks@),
    {
        if let Some(e) = lru_get_mut(&mut self.inodes, inode) {
            e.chunks = chunks;
        }
    }

    /// Note in the chunk list that `length` bytes were written at `offset` of
    /// a flat file: each chunk that the write touches covers at least the data
    /// written to it, and chunks that were not there are added.
    pub fn update_chunk_sizes_after_write(
        &mut self,
        inode: u64,
        offset: u64,
        length: u64,
        chunk_size: u64,
        fid: &Fid,
    )
        requires
            old(self).wf(),
            chunk_size > 0,
            offset + length <= u64::MAX,
        ensures
            final(self).wf(),
            final(self)@ == old(self)@.flat_written(inode, offset, length, chunk_size, *fid),
    {
        if length == 0 {
            return ;
        }
        let write_end: u64 = offset + length;
        let start_idx: u64 = offset / chunk_size;
        let end_idx: u64 = (write_end - 1) / chunk_size;
        if let Some(e) = lru_get_mut(&mut self.inodes, inode) {
            let mtime: u64 = if e.mtime > 0 {
                e.mtime as u64
            } else {
                0
            };
            let stop: u64 = if end_idx < FILE_KEY_BLOCK_SIZE {
                end_idx + 1
            } else {
                FILE_KEY_BLOCK_SIZE
            };
            let ghost c0 = e.chunks@;
            let mut idx: u64 = start_idx;
            proof {
                assert(start_idx <= end_idx) by (nonlinear_arith)
                    requires
                        start_idx == offset / chunk_size,
                        end_idx == (write_end - 1) / chunk_size as int,
                        offset <= write_end - 1,
                        chunk_size > 0,
                ;
            }
            let ghost before = e@;
            while idx < stop
                invariant
                    start_idx <= idx,
                    idx <= stop || stop < start_idx,
                    stop <= end_idx + 1,
                    stop <= FILE_KEY_BLOCK_SIZE,
                    chunk_size > 0,
                    write_end == offset + length,
                    length > 0,
                    end_idx == (write_end - 1) / chunk_size as int,
                    e@ == (EntryView { chunks: e.chunks@, ..before }),
                    stop < start_idx ==> idx == start_idx,
                    e.chunks@ == flat_grown(
                        c0,
                        *fid,
                        start_idx as int,
                        idx as int,
                        write_end as int,
                        chunk_size as int,
                        mtime,
                    ),
                decreases stop - idx,
            {
                proof {
                    lemma_chunk_start(idx as int, end_idx as int, write_end as int, chunk_size as int);
                }
                let chunk_offset: u64 = idx * chunk_size;
                let left: u64 = write_end - chunk_offset;
                let size: u64 = if left < chunk_size {
                    left
                } else {
                    chunk_size
                };
                let fresh = CachedFileChunk {
                    offset: chunk_offset,
                    size,
                    mtime,
                    needle_id: fid.file_key.saturating_add(idx),
                    volume_id: fid.volume_id.0,
                    crc32: 0,
                };
                assert(fresh == flat_chunk(
                    *fid,
                    idx as int,
                    write_end as int,
                    chunk_size as int,
                    mtime,
                ));
                grow_or_add(&mut e.chunks, fresh);
                idx += 1;
            }
        }
    }

    /// Note in the chunk list that `length` bytes were written at `offset` of
    /// a striped file. A chunk that is added lies on the volume of its stripe
    /// unit; chunks beyond the allocated units are not added.
    pub fn update_chunk_sizes_after_write_stripe(
        &mut self,
        inode: u64,
        offset: u64,
        length: u64,
        chunk_size: u64,
        placement: &Placement,
        stripe_chunks: &Vec<CachedFileChunk>,
    )
        requires
            old(self).wf(),
            chunk_size > 0,
            offset + length <= u64::MAX,
        ensures
            final(self).wf(),
            final(self)@ == old(self)@.stripe_written(
                inode,
                offset,
                length,
                chunk_size,
                *placement,
                stripe_chunks@,
            ),
    {
        if length == 0 {
            return ;
        }
        let stripe_size: u64 = match placement.stripe_size() {
            Some(s) => if s > 1 {
                s
            } else {
                1
            },
            None => {
                return ;
            },
        };
        let write_end: u64 = offset + length;
        let start_idx: u64 = offset / chunk_size;
        let end_idx: u64 = (write_end - 1) / chunk_size;
        if let Some(e) = lru_get_mut(&mut self.inodes, inode) {
            let mtime: u64 = if e.mtime > 0 {
                e.mtime as u64
            } else {
                0
            };
            let ghost c0 = e.chunks@;
            let ghost before = e@;
            let mut idx: u64 = start_idx;
            let mut more: bool = true;
            let ghost units = stripe_chunks@;
            proof {
                assert(start_idx <= end_idx) by (nonlinear_arith)
                    requires
                        start_idx == offset / chunk_size,
                        end_idx == (write_end - 1) / chunk_size as int,
                        offset <= write_end - 1,
                        chunk_size > 0,
                ;
            }
            while more
                invariant
                    start_idx <= idx <= end_idx + 1,
                    more ==> idx <= end_idx,
                    chunk_size > 0,
                    stripe_size > 0,
                    units == stripe_chunks@,
                    write_end == offset + length,
                    length > 0,
                    end_idx == (write_end - 1) / chunk_size as int,
                    e@ == (EntryView { chunks: e.chunks@, ..before }),
                    more ==> e.chunks@ == stripe_grown(
                        c0,
                        units,
                        stripe_size as int,
                        start_idx as int,
                        idx as int,
                        write_end as int,
                        chunk_size as int,
                        mtime,
                    ),
                    !more ==> e.chunks@ == stripe_grown(
                        c0,
                        units,
                        stripe_size as int,
                        start_idx as int,
                        end_idx + 1,
                        write_end as int,
                        chunk_size as int,
                        mtime,
                    ),
                decreases (if more {
                    end_idx + 2 - idx
                } else {
                    0
                }),
            {
                proof {
                    lemma_chunk_start(idx as int, end_idx as int, write_end as int, chunk_size as int);
                }
                let chunk_offset: u64 = idx * chunk_size;
                let left: u64 = write_end - chunk_offset;
                let size: u64 = if left < chunk_size {
                    left
                } else {
                    chunk_size
                };
                let unit: u64 = chunk_offset / stripe_size;
                if unit >= stripe_chunks.len() as u64 {
                    proof {
                        lemma_stripe_grown_beyond(
                            c0,
                            units,
                            stripe_size as int,
                            start_idx as int,
                            idx as int,
                            end_idx + 1,
                            write_end as int,
                            chunk_size as int,
                            mtime,
                        );
                    }
                    more = false;
                } else {
                    let base: CachedFileChunk = stripe_chunks[unit as usize];
                    let within: u64 = (chunk_offset % stripe_size) / chunk_size;
                    let fresh = CachedFileChunk {
                        offset: chunk_offset,
                        size,
                        mtime,
                        needle_id: base.needle_id.saturating_add(within),
                        volume_id: base.volume_id,
                        crc32: 0,
                    };
                    assert(fresh == stripe_chunk(
                        units,
                        stripe_size as int,
                        idx as int,
                        write_end as int,
                        chunk_size as int,
                        mtime,
                    ));
                    grow_or_add(&mut e.chunks, fresh);
                    if idx == end_idx {
                        more = false;
                    } else {
                        idx += 1;
                    }
                }
            }
        }
    }

    /// Note the checksum of a chunk that was flushed.
    pub fn update_chunk_crc32(&mut self, inode: u64, chunk_offset: u64, crc32: u32)
        requires
            old(self).wf(),
        ensures
            final(self).wf(),
            final(self)@ == old(self)@.crc_set(inode, chunk_offset, crc32),
    {
        if let Some(e) = lru_get_mut(&mut self.inodes, inode) {
            let i: usize = find_chunk(&e.chunks, chunk_offset);
            if i < e.chunks.len() {
                let mut c: CachedFileChunk = e.chunks[i];
                c.crc32 = crc32;
                e.chunks.set(i, c);
            }
        }
    }

    /// Change some of an inode's attributes.
    pub fn update_attr(&mut self, inode: u64, params: UpdateAttrParams, now: Now)
        requires
            old(self).wf(),
        ensures
            final(self).wf(),
            final(self)@ == old(self)@.alter(
                inode,
                attrs_updated(old(self)@.entries[inode], params, now),
            ),
    {
        if let Some(e) = lru_get_mut(&mut self.inodes, inode) {
            if let Some(m) = params.mode {
                e.mode = m;
            }
            if let Some(s) = params.size {
                e.size = s;
            }
            if let Some(u) = params.uid {
                e.uid = u;
            }
            if let Some(g) = params.gid {
                e.gid = g;
            }
            if let Some(a) = params.atime {
                e.atime = a;
            }
            if let Some(mt) = params.mtime {
                e.mtime = mt;
            }
            e.ctime = now.unix_secs;
            e.cached_at = now.mono_ms;
        }
    }

    /// The children of a directory among the cached entries, whatever their
    /// age, the most recently used first.
    pub fn list_children(&self, parent_inode: u64) -> (r: Vec<(u64, String, bool)>)
        requires
            self.wf(),
        ensures
            rows(r@) == children_in(self@.entries, self@.order, parent_inode),
    {
        let keys: Vec<u64> = lru_keys(&self.inodes);
        let mut r: Vec<(u64, String, bool)> = Vec::new();
        let mut i: usize = 0;
        assert(keys@.take(0) =~= Seq::<u64>::empty());
        assert(rows(r@) =~= Seq::<(u64, Seq<char>, bool)>::empty());
        while i < keys.len()
            invariant
                i <= keys.len(),
                self.wf(),
                keys@ == self@.order,
                rows(r@) == children_in(self@.entries, keys@.take(i as int), parent_inode),
            decreases keys.len() - i,
        {
            proof {
                assert(self@.order.contains(keys@[i as int]));
                assert(self@.entries.contains_key(keys@[i as int]));
                assert(keys@.take(i as int + 1).drop_last() =~= keys@.take(i as int));
                assert(keys@.take(i as int + 1).last() == keys@[i as int]);
            }
            if let Some(e) = lru_peek(&self.inodes, keys[i]) {
                if e.parent == parent_inode && e.inode != parent_inode {
                    let ghost before = rows(r@);
                    r.push((e.inode, e.name.clone(), e.is_dir));
                    assert(rows(r@) =~= before.push((e@.inode, e@.name, e@.is_dir)));
                }
            }
            i += 1;
        }
        assert(keys@.take(i as int) =~= keys@);
        r
    }

    /// The first child of a directory that has a name and is not `except`.
    fn find_child(&self, parent_inode: u64, name: &str, except: Option<u64>) -> (r: Option<u64>)
        requires
            self.wf(),
        ensures
            r == child_named(self@.entries, self@.order, parent_inode, name@, except),
    {
        let keys: Vec<u64> = lru_keys(&self.inodes);
        let wanted: String = name.to_owned();
        let mut i: usize = 0;
        assert(keys@.take(0) =~= Seq::<u64>::empty());
        while i < keys.len()
            invariant
                i <= keys.len(),
                self.wf(),
                wanted@ == name@,
                keys@ == self@.order,
                child_named(
                    self@.entries,
                    keys@.take(i as int),
                    parent_inode,
                    name@,
                    except,
                ) is None,
            decreases keys.len() - i,
        {
            proof {
                assert(self@.order.contains(keys@[i as int]));
                assert(self@.entries.contains_key(keys@[i as int]));
                assert(keys@.take(i as int + 1).drop_last() =~= keys@.take(i as int));
                assert(keys@.take(i as int + 1).last() == keys@[i as int]);
            }
            if let Some(e) = lru_peek(&self.inodes, keys[i]) {
                let excluded: bool = match except {
                    Some(x) => x == e.inode,
                    None => false,
                };
                if e.parent == parent_inode && e.inode != parent_inode && e.name == wanted
                    && !excluded {
                    proof {
                        lemma_child_named_prefix(
                            self@.entries,
                            keys@,
                            parent_inode,
                            name@,
                            except,
                            i as int + 1,
                        );
                    }
                    return Some(e.inode);
                }
            }
            i += 1;
        }
        assert(keys@.take(i as int) =~= keys@);
        None
    }

    /// Rename an entry: the entry under the new name, if there was one, goes,
    /// the path follows, and both directories count as changed. Fails where
    /// the old name is not cached.
    pub fn rename(
        &mut self,
        olddir: u64,
        oldname: &str,
        newdir: u64,
        newname: &str,
        now: Now,
    ) -> (r: Result<(), String>)
        requires
            old(self).wf(),
        ensures
            final(self).wf(),
            ({
                let v = old(self)@;
                match v.answer_named(olddir, oldname@, now.mono_ms) {
                    Some(e) => r is Ok && final(self)@ == v.fetched(e.inode, now.mono_ms).moved(
                        e.inode,
                        olddir,
                        newdir,
                        newname@,
                        now,
                    ),
                    None => {
                        &&& r matches Err(m) && m@ == "source not found"@
                        &&& final(self)@ == v.fetched_named(olddir, oldname@, now.mono_ms)
                    },
                }
            }),
    {
        let source: Option<u64> = self.find_child(olddir, oldname, None);
        proof {
            lemma_child_named_is_child(
                self@,
                olddir,
                oldname@,
                None,
                self@.order.len() as int,
            );
        }
        let inode: u64 = match source {
            Some(ino) => ino,
            None => {
                return Err("source not found".to_owned());
            },
        };
        if self.get_inode(inode, now.mono_ms).is_none() {
            return Err("source not found".to_owned());
        }
        let ghost v1 = self@;
        let old_path: String = self.path_or_empty(inode);
        self.path_map.remove(old_path.as_str());
        let ghost v2 = self@;
        let target: Option<u64> = self.find_child(newdir, newname, Some(inode));
        proof {
            lemma_child_named_is_child(
                v2,
                newdir,
                newname@,
                Some(inode),
                v2.order.len() as int,
            );
        }
        if let Some(t) = target {
            let _gone: Option<CachedEntry> = self.remove_entry_only(t);
        }
        let ghost v3 = self@;
        assert(v3.has(inode));
        if let Some(e) = lru_get_mut(&mut self.inodes, inode) {
            e.parent = newdir;
            e.name = newname.to_owned();
            e.ctime = now.unix_secs;
            e.mtime = now.unix_secs;
        }
        let dir_path: String = if newdir == ROOT_INODE {
            String::new()
        } else {
            self.path_or_empty(newdir)
        };
        let new_path: String = text::slash_between(dir_path.as_str(), newname);
        self.path_map.insert(new_path, inode);
        self.touch_dir(olddir, now);
        if olddir != newdir {
            self.touch_dir(newdir, now);
        }
        self.invalidate_dir(olddir);
        self.invalidate_dir(newdir);
        Ok(())
    }

    /// Note that a directory changed at this moment.
    fn touch_dir(&mut self, dir: u64, now: Now)
        requires
            old(self).wf(),
        ensures
            final(self).wf(),
            final(self)@ == old(self)@.dir_touched(dir, now),
    {
        if let Some(e) = lru_get_mut(&mut self.inodes, dir) {
            e.mtime = now.unix_secs;
            e.ctime = now.unix_secs;
            e.cached_at = now.mono_ms;
        }
    }

    /// Count one more name of an inode.
    pub fn inc_nlink(&mut self, inode: u64)
        requires
            old(self).wf(),
            old(self)@.has(inode) ==> old(self)@.entries[inode].nlink < u32::MAX,
        ensures
            final(self).wf(),
            final(self)@ == old(self)@.alter(
                inode,
                EntryView {
                    nlink: (old(self)@.entries[inode].nlink + 1) as u32,
                    ..old(self)@.entries[inode]
                },
            ),
    {
        if let Some(e) = lru_get_mut(&mut self.inodes, inode) {
            e.nlink = e.nlink + 1;
        }
    }

    /// Count one name of an inode less. Returns true if none is left.
    pub fn dec_nlink(&mut self, inode: u64) -> (gone: bool)
        requires
            old(self).wf(),
        ensures
            final(self).wf(),
            final(self)@ == old(self)@.unlinked_once(inode),
            gone == (old(self)@.has(inode) && old(self)@.entries[inode].nlink <= 1),
    {
        if let Some(e) = lru_get_mut(&mut self.inodes, inode) {
            if e.nlink > 0 {
                e.nlink = e.nlink - 1;
            }
            e.nlink == 0
        } else {
            false
        }
    }

    /// The number of names of an inode; 0 where it is not cached.
    pub fn get_nlink(&self, inode: u64) -> (r: u32)
        ensures
            r == if self@.has(inode) {
                self@.entries[inode].nlink
            } else {
                0
            },
    {
        match lru_peek(&self.inodes, inode) {
            Some(e) => e.nlink,
            None => 0,
        }
    }

    /// Note where a symbolic link points.
    pub fn set_symlink_target(&mut self, inode: u64, target: String)
        requires
            old(self).wf(),
        ensures
            final(self).wf(),
            final(self)@ == old(self)@.alter(
                inode,
                EntryView {
                    is_symlink: true,
                    size: byte_len(target@),
                    symlink_target: Some(target@),
                    ..old(self)@.entries[inode]
                },
            ),
    {
        if let Some(e) = lru_get_mut(&mut self.inodes, inode) {
            e.is_symlink = true;
            e.size = text_bytes(target.as_str());
            e.symlink_target = Some(target);
        }
    }

    /// Where a symbolic link points, if that is known.
    pub fn get_symlink_target(&self, inode: u64) -> (r: Option<String>)
        ensures
            opt_text(r) == if self@.has(inode) {
                self@.entries[inode].symlink_target
            } else {
                None
            },
    {
        match lru_peek(&self.inodes, inode) {
            Some(e) => copy_opt_string(&e.symlink_target),
            None => None,
        }
    }

    /// Set an extended attribute.
    pub fn set_xattr(&mut self, inode: u64, name: &str, value: &[u8])
        requires
            old(self).wf(),
        ensures
            final(self).wf(),
            final(self)@ == old(self)@.xattr_set(inode, name@, value@),
    {
        if let Some(e) = lru_get_mut(&mut self.inodes, inode) {
            e.xattrs.insert(name.to_owned(), vstd::slice::slice_to_vec(value));
        }
    }

    /// The value of an extended attribute.
    pub fn get_xattr(&self, inode: u64, name: &str) -> (r: Option<Vec<u8>>)
        ensures
            match r {
                Some(v) => self@.xattr(inode, name@) == Some(v@),
                None => self@.xattr(inode, name@) is None,
            },
    {
        match lru_peek(&self.inodes, inode) {
            Some(e) => match e.xattrs.get(name) {
                Some(v) => {
                    let r: Vec<u8> = v.clone();
                    assert(r@ =~= v@);
                    Some(r)
                },
                None => None,
            },
            None => None,
        }
    }

    /// Remove an extended attribute. Returns whether it was there.
    pub fn remove_xattr(&mut self, inode: u64, name: &str) -> (r: bool)
        requires
            old(self).wf(),
        ensures
            final(self).wf(),
            r == (old(self)@.xattr(inode, name@) is Some),
            final(self)@ == old(self)@.alter(
                inode,
                EntryView {
                    xattrs: names::erase(old(self)@.entries[inode].xattrs, name@),
                    ..old(self)@.entries[inode]
                },
            ),
    {
        if let Some(e) = lru_get_mut(&mut self.inodes, inode) {
            e.xattrs.remove(name)
        } else {
            false
        }
    }

    /// The names of an inode's extended attributes.
    pub fn list_xattrs(&self, inode: u64) -> (r: Vec<String>)
        ensures
            text::texts(r@) == if self@.has(inode) {
                names::names_of(self@.entries[inode].xattrs)
            } else {
                Seq::empty()
            },
    {
        match lru_peek(&self.inodes, inode) {
            Some(e) => {
                let r: Vec<String> = e.xattrs.names();
                assert(text::texts(r@) =~= names::names_of(e@.xattrs));
                r
            },
            None => {
                let r: Vec<String> = Vec::new();
                assert(text::texts(r@) =~= Seq::<Seq<char>>::empty());
                r
            },
        }
    }

    /// Look an entry up by directory and name.
    pub fn lookup_in_cache(&mut self, parent: u64, name: &str, now_ms: u64) -> (r: Option<
        CachedEntry,
    >)
        requires
            old(self).wf(),
        ensures
            final(self).wf(),
            final(self)@ == old(self)@.fetched_named(parent, name@, now_ms),
            match r {
                Some(e) => old(self)@.answer_named(parent, name@, now_ms) == Some(e@),
                None => old(self)@.answer_named(parent, name@, now_ms) is None,
            },
    {
        match self.find_child(parent, name, None) {
            Some(ino) => self.get_inode(ino, now_ms),
            None => None,
        }
    }

    /// Declare a path out of date: its inode goes, and so does the listing of
    /// the directory that holds it.
    pub fn invalidate_path(&mut self, path: &str)
        requires
            old(self).wf(),
        ensures
            final(self).wf(),
            final(self)@ == old(self)@.path_invalidated(path@),
    {
        if let Some(ino) = self.get_path(path) {
            self.invalidate_inode(ino);
        }
        let parent: String = text::parent_path(path);
        if let Some(dir) = self.get_path(parent.as_str()) {
            self.invalidate_dir(dir);
        }
    }

    /// Drop everything and make the root directory anew.
    pub fn clear_all(&mut self, uid: u32, gid: u32, now: Now)
        requires
            old(self).wf(),
        ensures
            final(self).wf(),
            final(self)@ == old(self)@.emptied(uid, gid, now),
    {
        broadcast use vstd::std_specs::hash::group_hash_axioms;

        lru_clear(&mut self.inodes);
        self.path_map.clear();
        self.dir_cache.clear();
        self.path_generations.clear();
        self.dir_versions.clear();
        self.complete_dirs.clear();
        let _none: Option<(u64, CachedEntry)> = lru_push(
            &mut self.inodes,
            ROOT_INODE,
            make_root(0o755, uid, gid, now),
        );
        self.path_map.insert(text::root(), ROOT_INODE);
        proof {
            let f = old(self)@.emptied(uid, gid, now);
            assert(self@.entries =~= f.entries);
            assert(self@.order =~= f.order);
            assert(self@.paths =~= f.paths);
            assert(self@.dirs =~= f.dirs);
        }
    }

    /// Drop an inode that the server declared out of date, and its directory's
    /// listing. The directory is not cached in full any more.
    pub fn invalidate_inode(&mut self, inode: u64)
        requires
            old(self).wf(),
        ensures
            final(self).wf(),
            final(self)@ == old(self)@.outdated(inode),
    {
        broadcast use vstd::std_specs::hash::group_hash_axioms;

        let parent: Option<u64> = match lru_peek(&self.inodes, inode) {
            Some(e) => Some(e.parent),
            None => None,
        };
        self.remove(inode);
        if let Some(p) = parent {
            self.complete_dirs.remove(&p);
        }
    }

    /// Drop every child of a directory that has the given name, but for `keep`.
    pub(crate) fn clear_children(&mut self, dir: u64, name: &str, keep: Option<u64>)
        requires
            old(self).wf(),
        ensures
            final(self).wf(),
            final(self)@ == old(self)@.cleared(dir, name@, keep),
    {
        let mut next: Option<u64> = self.find_child(dir, name, keep);
        while next.is_some()
            invariant
                self.wf(),
                next == child_named(self@.entries, self@.order, dir, name@, keep),
                self@.cleared(dir, name@, keep) == old(self)@.cleared(dir, name@, keep),
            decreases self@.order.len(),
        {
            if let Some(k) = next {
                proof {
                    lemma_child_is_cached(self@, dir, name@, keep, self@.order);
                    lemma_without(self@.order, k);
                }
                self.remove(k);
                next = self.find_child(dir, name, keep);
            }
        }
    }

    /// Follow a rename that the server made. A cached source that can be
    /// answered moves along; else whatever stood under the old name goes, and
    /// the new directory is not cached in full any more. Nothing else stays
    /// under the new name.
    pub fn rename_stored(
        &mut self,
        olddir: u64,
        oldname: &str,
        newdir: u64,
        newname: &str,
        now: Now,
    )
        requires
            old(self).wf(),
        ensures
            final(self).wf(),
            final(self)@ == old(self)@.renamed(olddir, oldname@, newdir, newname@, now),
            olddir != newdir || oldname@ != newname@ ==> final(self)@.child(
                olddir,
                oldname@,
            ) is None,
            final(self)@.child(newdir, newname@) matches Some(k) ==> (old(self)@.answer_named(
                olddir,
                oldname@,
                now.mono_ms,
            ) matches Some(e) && e.inode == k),
    {
        let source: Option<u64> = self.find_child(olddir, oldname, None);
        proof {
            lemma_child_is_cached(self@, olddir, oldname@, None, self@.order);
        }
        match self.rename(olddir, oldname, newdir, newname, now) {
            Ok(()) => {
                let ghost m1 = self@;
                self.clear_children(olddir, oldname, source);
                let ghost m2 = self@;
                self.clear_children(newdir, newname, source);
                proof {
                    law_cleared_names_are_gone(m1, olddir, oldname@, source);
                    law_cleared_names_are_gone(m2, newdir, newname@, source);
                    lemma_child_is_cached(self@, olddir, oldname@, None, self@.order);
                    lemma_child_is_cached(self@, newdir, newname@, None, self@.order);
                    let moved = source->0;
                    assert(m1.entries[moved].parent == newdir && m1.entries[moved].name
                        == newname@);
                    if let Some(k) = self@.child(olddir, oldname@) {
                        assert(m2.has(k));
                        assert(k == moved);
                        assert(m1.has(k));
                    }
                    if let Some(k) = self@.child(newdir, newname@) {
                        assert(self@.none_named(newdir, newname@, source));
                        assert(k == moved);
                    }
                }
            },
            Err(_) => {
                let ghost m1 = self@;
                self.clear_children(olddir, oldname, None);
                let ghost m2 = self@;
                self.clear_children(newdir, newname, None);
                let ghost m3 = self@;
                self.invalidate_dir(olddir);
                self.invalidate_dir(newdir);
                self.invalidate_dentry_leases(newdir);
                proof {
                    law_cleared_names_are_gone(m1, olddir, oldname@, None);
                    law_cleared_names_are_gone(m2, newdir, newname@, None);
                    lemma_child_is_cached(self@, olddir, oldname@, None, self@.order);
                    lemma_child_is_cached(self@, newdir, newname@, None, self@.order);
                    if let Some(k) = self@.child(olddir, oldname@) {
                        assert(m3.has(k));
                        assert(m2.has(k));
                    }
                    if let Some(k) = self@.child(newdir, newname@) {
                        assert(m3.has(k));
                    }
                }
            },
        }
    }

    /// True if the server's version is newer than the cached one, or nothing
    /// is cached.
    pub fn is_inode_stale(&self, inode: u64, server_version: u64) -> (r: bool)
        ensures
            r == (self@.has(inode) ==> server_version > self@.entries[inode].generation),
    {
        match lru_peek(&self.inodes, inode) {
            Some(e) => server_version > e.generation,
            None => true,
        }
    }

    /// Note the latest known generation of a path.
    pub fn update_path_generation(&mut self, path: &str, generation: u64)
        requires
            old(self).wf(),
        ensures
            final(self).wf(),
            final(self)@ == (MetaView {
                generations: names::put(old(self)@.generations, path@, generation),
                ..old(self)@
            }),
    {
        self.path_generations.insert(path.to_owned(), generation);
    }

    /// The latest known generation of a path.
    pub fn get_path_generation(&self, path: &str) -> (r: Option<u64>)
        ensures
            r == names::find(self@.generations, path@),
    {
        match self.path_generations.get(path) {
            Some(g) => Some(*g),
            None => None,
        }
    }
}

impl MetadataCache {
    /// A copy of the cap record of an inode.
    pub fn get_cap(&self, inode: u64) -> (r: Option<ClientCap>)
        ensures
            opt_cap(r) == self@.cap_of(inode),
    {
        match lru_peek(&self.inodes, inode) {
            Some(e) => copy_opt_cap(&e.cap),
            None => None,
        }
    }

    /// Keep the cap that the server granted on an inode.
    pub fn grant_cap(&mut self, inode: u64, cap: ClientCap)
        requires
            old(self).wf(),
        ensures
            final(self).wf(),
            final(self)@ == old(self)@.cap_set(inode, Some(cap@)),
    {
        if let Some(e) = lru_get_mut(&mut self.inodes, inode) {
            e.cap = Some(cap);
        }
    }

    /// Take the cap record of an inode out, to release it.
    pub fn take_cap(&mut self, inode: u64) -> (r: Option<ClientCap>)
        requires
            old(self).wf(),
        ensures
            final(self).wf(),
            opt_cap(r) == old(self)@.cap_of(inode),
            final(self)@ == old(self)@.cap_set(inode, None),
    {
        if let Some(e) = lru_get_mut(&mut self.inodes, inode) {
            let cap: Option<ClientCap> = copy_opt_cap(&e.cap);
            e.cap = None;
            cap
        } else {
            None
        }
    }

    /// Apply a recall to the cap of an inode. Says what the holder has to do;
    /// nothing where the inode has no cap.
    pub fn recall_cap(&mut self, inode: u64, retained: CapSet, epoch: u64) -> (r: Option<
        RecallAction,
    >)
        requires
            old(self).wf(),
        ensures
            final(self).wf(),
            match old(self)@.cap_of(inode) {
                Some(c) => {
                    &&& r == Some(c.recall_action(retained))
                    &&& final(self)@ == old(self)@.cap_set(
                        inode,
                        Some(c.recalled(retained, epoch)),
                    )
                },
                None => {
                    &&& r is None
                    &&& final(self)@ == old(self)@.alter(inode, old(self)@.entries[inode])
                },
            },
    {
        if let Some(e) = lru_get_mut(&mut self.inodes, inode) {
            match &mut e.cap {
                Some(cap) => Some(crate::client_cap::process_recall(cap, retained, epoch)),
                None => None,
            }
        } else {
            None
        }
    }

    /// Apply an upgrade to the cap of an inode. Returns whether it has one.
    pub fn upgrade_cap(&mut self, inode: u64, granted: CapSet, epoch: u64, seq: u64) -> (r: bool)
        requires
            old(self).wf(),
        ensures
            final(self).wf(),
            match old(self)@.cap_of(inode) {
                Some(c) => {
                    &&& r
                    &&& final(self)@ == old(self)@.cap_set(
                        inode,
                        Some(c.upgraded(granted, epoch, seq)),
                    )
                },
                None => {
                    &&& !r
                    &&& final(self)@ == old(self)@.alter(inode, old(self)@.entries[inode])
                },
            },
    {
        if let Some(e) = lru_get_mut(&mut self.inodes, inode) {
            match &mut e.cap {
                Some(cap) => {
                    cap.apply_upgrade(granted, epoch, seq);
                    true
                },
                None => false,
            }
        } else {
            false
        }
    }

    /// Note local changes under some cap bits of an inode.
    fn mark_dirty_cap(&mut self, inode: u64, bits: CapSet)
        requires
            old(self).wf(),
        ensures
            final(self).wf(),
            final(self)@ == old(self)@.cap_dirtied(inode, bits),
    {
        if let Some(e) = lru_get_mut(&mut self.inodes, inode) {
            e.try_transition(EntryState::Dirty);
            if let Some(cap) = &mut e.cap {
                cap.mark_dirty(bits);
            }
        }
    }

    /// Note a local write to an inode.
    pub fn mark_dirty_cap_w(&mut self, inode: u64)
        requires
            old(self).wf(),
        ensures
            final(self).wf(),
            final(self)@ == old(self)@.cap_dirtied(inode, CapSet(CAP_W)),
    {
        self.mark_dirty_cap(inode, CapSet(CAP_W));
    }

    /// Note a local change of an inode's attributes.
    pub fn mark_dirty_cap_x(&mut self, inode: u64)
        requires
            old(self).wf(),
        ensures
            final(self).wf(),
            final(self)@ == old(self)@.cap_dirtied(inode, CapSet(CAP_X)),
    {
        self.mark_dirty_cap(inode, CapSet(CAP_X));
    }

    /// Note that the flush under an inode's cap reached the server.
    pub fn mark_cap_flushed(&mut self, inode: u64)
        requires
            old(self).wf(),
        ensures
            final(self).wf(),
            final(self)@ == old(self)@.cap_flushed(inode),
    {
        if let Some(e) = lru_get_mut(&mut self.inodes, inode) {
            if let Some(cap) = &mut e.cap {
                cap.mark_flushed();
            }
        }
    }

    /// Cut the chunk list of an inode to `size`.
    pub fn truncate_chunks_metadata(&mut self, inode: u64, size: u64)
        requires
            old(self).wf(),
        ensures
            final(self).wf(),
            final(self)@ == old(self)@.chunks_set(
                inode,
                chunks_cut(old(self)@.entries[inode].chunks, size),
            ),
    {
        if let Some(e) = lru_get_mut(&mut self.inodes, inode) {
            let cut: Vec<CachedFileChunk> = cut_chunks(&e.chunks, size);
            e.chunks = cut;
        }
    }

    /// The version of a directory; 0 where none is known.
    pub fn get_dir_version(&self, dir: u64) -> (r: u64)
        ensures
            r == self@.dir_version(dir),
    {
        broadcast use vstd::std_specs::hash::group_hash_axioms;

        match self.dir_versions.get(&dir) {
            Some(v) => *v,
            None => 0,
        }
    }

    /// Note the version of a directory.
    pub fn update_dir_version(&mut self, dir: u64, version: u64)
        requires
            old(self).wf(),
        ensures
            final(self).wf(),
            final(self)@ == (MetaView {
                dir_versions: old(self)@.dir_versions.insert(dir, version),
                ..old(self)@
            }),
    {
        broadcast use vstd::std_specs::hash::group_hash_axioms;

        self.dir_versions.insert(dir, version);
    }

    /// Note that a directory is not cached in full.
    pub fn mark_dir_incomplete(&mut self, dir: u64)
        requires
            old(self).wf(),
        ensures
            final(self).wf(),
            final(self)@ == old(self)@.not_complete(dir),
    {
        broadcast use vstd::std_specs::hash::group_hash_axioms;

        self.complete_dirs.remove(&dir);
    }

    /// Note that a directory was listed in full at a version.
    pub fn mark_dir_complete(&mut self, dir: u64, version: u64)
        requires
            old(self).wf(),
        ensures
            final(self).wf(),
            final(self)@ == (MetaView {
                complete_dirs: old(self)@.complete_dirs.insert(dir, version),
                ..old(self)@
            }),
    {
        broadcast use vstd::std_specs::hash::group_hash_axioms;

        self.complete_dirs.insert(dir, version);
    }

    /// Grant a lease on a cached name for `ttl_ms` from now.
    pub fn grant_dentry_lease(
        &mut self,
        parent: u64,
        name: &str,
        ttl_ms: u64,
        issuer: u64,
        now_ms: u64,
    )
        requires
            old(self).wf(),
        ensures
            final(self).wf(),
            final(self)@ == old(self)@.lease_granted(parent, name@, ttl_ms, issuer, now_ms),
    {
        let version: u64 = self.get_dir_version(parent);
        proof {
            lemma_child_named_is_child(self@, parent, name@, None, self@.order.len() as int);
        }
        if let Some(ino) = self.find_child(parent, name, None) {
            if let Some(e) = lru_get_mut(&mut self.inodes, ino) {
                e.dentry_lease = Some(
                    DentryLease { expires_ms: now_ms.saturating_add(ttl_ms), issuer },
                );
                e.dir_shared_gen = version;
            }
        }
    }

    /// Whether a name in a directory can be answered from the cache.
    pub fn check_dentry_lease(&self, parent: u64, name: &str, now_ms: u64) -> (r:
        DentryLeaseStatus)
        requires
            self.wf(),
        ensures
            r == self@.lease_status(parent, name@, now_ms),
    {
        broadcast use vstd::std_specs::hash::group_hash_axioms;

        let version: u64 = self.get_dir_version(parent);
        let complete: bool = match self.complete_dirs.get(&parent) {
            Some(v) => *v == version,
            None => false,
        };
        proof {
            lemma_child_named_is_child(self@, parent, name@, None, self@.order.len() as int);
        }
        match self.find_child(parent, name, None) {
            Some(ino) => {
                if let Some(e) = lru_peek(&self.inodes, ino) {
                    let running: bool = match e.dentry_lease {
                        Some(l) => now_ms < l.expires_ms,
                        None => false,
                    };
                    if running {
                        DentryLeaseStatus::LeaseValid
                    } else if complete && e.dir_shared_gen == version {
                        DentryLeaseStatus::SharedGenValid
                    } else {
                        DentryLeaseStatus::Expired
                    }
                } else {
                    DentryLeaseStatus::Miss
                }
            },
            None => if complete {
                DentryLeaseStatus::NegativeComplete
            } else {
                DentryLeaseStatus::Miss
            },
        }
    }

    /// The entry under a name, whatever its age and state.
    pub fn get_inode_by_name(&self, parent: u64, name: &str) -> (r: Option<CachedEntry>)
        requires
            self.wf(),
        ensures
            match r {
                Some(e) => self@.child(parent, name@) == Some(e.inode) && e@
                    == self@.entries[e.inode],
                None => self@.child(parent, name@) is None,
            },
    {
        proof {
            lemma_child_named_is_child(self@, parent, name@, None, self@.order.len() as int);
        }
        match self.find_child(parent, name, None) {
            Some(ino) => self.peek_inode(ino),
            None => None,
        }
    }

    /// Drop every lease on the names of a directory, which no longer counts as
    /// listed in full.
    pub fn invalidate_dentry_leases(&mut self, parent: u64)
        requires
            old(self).wf(),
        ensures
            final(self).wf(),
            final(self)@ == old(self)@.leases_dropped(parent),
    {
        broadcast use vstd::std_specs::hash::group_hash_axioms;

        let keys: Vec<u64> = lru_keys(&self.inodes);
        let ghost v0 = self@;
        let mut i: usize = 0;
        while i < keys.len()
            invariant
                i <= keys.len(),
                keys@ == v0.order,
                v0.wf(),
                self@ == (MetaView { entries: self@.entries, ..v0 }),
                self@.entries.dom() == v0.entries.dom(),
                forall|j: int|
                    0 <= j < i ==> self@.entries[#[trigger] keys@[j]] == lease_dropped(
                        v0.entries[keys@[j]],
                        parent,
                    ),
                forall|j: int|
                    i <= j < keys@.len() ==> self@.entries[#[trigger] keys@[j]]
                        == v0.entries[keys@[j]],
            decreases keys.len() - i,
        {
            proof {
                assert(v0.order.contains(keys@[i as int]));
                assert(v0.entries.contains_key(keys@[i as int]));
                assert(self@.entries.dom().contains(keys@[i as int]));
            }
            if let Some(e) = lru_peek_mut(&mut self.inodes, keys[i]) {
                if e.parent == parent {
                    e.dentry_lease = None;
                }
            }
            assert(self@.entries.dom() =~= v0.entries.dom());
            i += 1;
        }
        self.complete_dirs.remove(&parent);
        proof {
            let f = old(self)@.leases_dropped(parent);
            assert forall|k: u64| self@.entries.contains_key(k) implies self@.entries[k]
                == f.entries[k] by {
                assert(v0.order.contains(k));
                let j = choose|j: int| 0 <= j < v0.order.len() && v0.order[j] == k;
                assert(keys@[j] == k);
            }
            assert(self@.entries =~= f.entries);
        }
    }
}

/// A chunk list cut to `size`.
fn cut_chunks(chunks: &Vec<CachedFileChunk>, size: u64) -> (r: Vec<CachedFileChunk>)
    ensures
        r@ == chunks_cut(chunks@, size),
{
    let mut r: Vec<CachedFileChunk> = Vec::new();
    let mut i: usize = 0;
    assert(chunks@.take(0) =~= Seq::<CachedFileChunk>::empty());
    while i < chunks.len()
        invariant
            i <= chunks.len(),
            r@ == chunks_cut(chunks@.take(i as int), size),
        decreases chunks.len() - i,
    {
        proof {
            assert(chunks@.take(i as int + 1).drop_last() =~= chunks@.take(i as int));
            assert(chunks@.take(i as int + 1).last() == chunks@[i as int]);
        }
        let mut c: CachedFileChunk = chunks[i];
        if c.offset < size {
            if c.size > size - c.offset {
                c.size = size - c.offset;
            }
            r.push(c);
        }
        i += 1;
    }
    assert(chunks@.take(i as int) =~= chunks@);
    r
}

/// What a new cache holds: the root directory and nothing else.
pub open spec fn fresh_cache(capacity: nat, ttl: u64, uid: u32, gid: u32, now: Now) -> MetaView {
    MetaView {
        entries: Map::empty().insert(
            ROOT_INODE,
            root_entry(0o777, uid, gid, now).step(EntryState::Clean),
        ),
        order: seq![ROOT_INODE],
        capacity,
        paths: seq![(text::root_path(), ROOT_INODE)],
        dirs: Map::empty(),
        next_inode: 2,
        dir_ttl: DIR_CACHE_TTL_MS,
        ttl,
        generations: Seq::empty(),
        dir_versions: Map::empty(),
        complete_dirs: Map::empty(),
    }
}

/// A capacity of zero stands for the default one.
pub open spec fn capacity_or_default(capacity: usize) -> nat {
    if capacity == 0 {
        DEFAULT_CAPACITY as nat
    } else {
        capacity as nat
    }
}

proof fn lemma_bump_single(k: u64)
    ensures
        bump(seq![k], k) == seq![k],
        without(Seq::<u64>::empty(), k) == Seq::<u64>::empty(),
{
    reveal_with_fuel(Seq::filter, 3);
    let s = seq![k];
    assert(s.drop_last() =~= Seq::<u64>::empty());
    assert(without(s, k) =~= Seq::<u64>::empty());
    assert(bump(s, k) =~= s);
}

proof fn lemma_chunk_start(idx: int, end_idx: int, write_end: int, chunk_size: int)
    requires
        0 <= idx <= end_idx,
        chunk_size > 0,
        write_end > 0,
        end_idx == (write_end - 1) / chunk_size,
    ensures
        0 <= idx * chunk_size < write_end,
{
    assert(0 <= idx * chunk_size <= write_end - 1) by (nonlinear_arith)
        requires
            0 <= idx <= end_idx,
            chunk_size > 0,
            write_end > 0,
            end_idx == (write_end - 1) / chunk_size,
    ;
}

proof fn lemma_stripe_grown_beyond(
    chunks: Seq<CachedFileChunk>,
    units: Seq<CachedFileChunk>,
    stripe_size: int,
    lo: int,
    mid: int,
    hi: int,
    write_end: int,
    chunk_size: int,
    mtime: u64,
)
    requires
        lo <= mid <= hi,
        0 <= mid,
        chunk_size > 0,
        stripe_size > 0,
        stripe_unit(mid * chunk_size, stripe_size) >= units.len(),
    ensures
        stripe_grown(chunks, units, stripe_size, lo, hi, write_end, chunk_size, mtime)
            == stripe_grown(chunks, units, stripe_size, lo, mid, write_end, chunk_size, mtime),
    decreases hi - mid,
{
    if mid < hi {
        lemma_stripe_grown_beyond(
            chunks,
            units,
            stripe_size,
            lo,
            mid,
            hi - 1,
            write_end,
            chunk_size,
            mtime,
        );
        assert(mid * chunk_size <= (hi - 1) * chunk_size) by (nonlinear_arith)
            requires
                mid <= hi - 1,
                chunk_size > 0,
        ;
        let a = mid * chunk_size;
        let b = (hi - 1) * chunk_size;
        assert(a / stripe_size <= b / stripe_size) by (nonlinear_arith)
            requires
                a <= b,
                stripe_size > 0,
        ;
    }
}

proof fn lemma_child_named_prefix(
    entries: Map<u64, EntryView>,
    order: Seq<u64>,
    parent: u64,
    name: Seq<char>,
    except: Option<u64>,
    n: int,
)
    requires
        0 <= n <= order.len(),
        child_named(entries, order.take(n), parent, name, except) is Some,
    ensures
        child_named(entries, order, parent, name, except) == child_named(
            entries,
            order.take(n),
            parent,
            name,
            except,
        ),
    decreases order.len() - n,
{
    if n < order.len() {
        assert(order.take(n + 1).drop_last() =~= order.take(n));
        lemma_child_named_prefix(entries, order, parent, name, except, n + 1);
    } else {
        assert(order.take(n) =~= order);
    }
}

/// A child that was found by name is cached, is filed under its own inode, and
/// is the child that was asked for.
pub proof fn lemma_child_named_is_child(
    v: MetaView,
    parent: u64,
    name: Seq<char>,
    except: Option<u64>,
    n: int,
)
    requires
        v.wf(),
        0 <= n <= v.order.len(),
    ensures
        child_named(v.entries, v.order.take(n), parent, name, except) matches Some(k) ==> {
            &&& v.has(k)
            &&& v.entries[k].inode == k
            &&& v.entries[k].parent == parent
            &&& v.entries[k].name == name
            &&& except != Some(k)
        },
        v.order.take(v.order.len() as int) == v.order,
    decreases n,
{
    assert(v.order.take(v.order.len() as int) =~= v.order);
    if n > 0 {
        lemma_child_named_is_child(v, parent, name, except, n - 1);
        assert(v.order.take(n).drop_last() =~= v.order.take(n - 1));
        assert(v.order.take(n).last() == v.order[n - 1]);
        assert(v.order.contains(v.order[n - 1]));
        assert(v.entries.contains_key(v.order[n - 1]));
    }
}

/// The place of the first chunk at `offset`, or the length where there is none.
pub fn find_chunk(chunks: &Vec<CachedFileChunk>, offset: u64) -> (r: usize)
    ensures
        r == chunk_at(chunks@, offset),
        r <= chunks@.len(),
        r < chunks@.len() ==> chunks@[r as int].offset == offset,
{
    let mut i: usize = 0;
    assert(chunks@.take(0) =~= Seq::<CachedFileChunk>::empty());
    while i < chunks.len()
        invariant
            i <= chunks.len(),
            chunk_at(chunks@.take(i as int), offset) == i,
        decreases chunks.len() - i,
    {
        proof {
            assert(chunks@.take(i as int + 1).drop_last() =~= chunks@.take(i as int));
            assert(chunks@.take(i as int + 1).last() == chunks@[i as int]);
        }
        if chunks[i].offset == offset {
            proof {
                lemma_chunk_at_prefix(chunks@, offset, i as int + 1);
            }
            return i;
        }
        i += 1;
    }
    assert(chunks@.take(i as int) =~= chunks@);
    i
}

proof fn lemma_chunk_at_prefix(chunks: Seq<CachedFileChunk>, offset: u64, n: int)
    requires
        0 <= n <= chunks.len(),
        chunk_at(chunks.take(n), offset) < n,
    ensures
        chunk_at(chunks, offset) == chunk_at(chunks.take(n), offset),
    decreases chunks.len() - n,
{
    if n < chunks.len() {
        assert(chunks.take(n + 1).drop_last() =~= chunks.take(n));
        lemma_chunk_at_prefix(chunks, offset, n + 1);
    } else {
        assert(chunks.take(n) =~= chunks);
    }
}

/// Let the chunk at `fresh.offset` cover at least `fresh.size` bytes, or add
/// `fresh`.
fn grow_or_add(chunks: &mut Vec<CachedFileChunk>, fresh: CachedFileChunk)
    ensures
        final(chunks)@ == grow_chunk(old(chunks)@, fresh),
{
    let i: usize = find_chunk(chunks, fresh.offset);
    if i < chunks.len() {
        let mut c: CachedFileChunk = chunks[i];
        if fresh.size > c.size {
            c.size = fresh.size;
        }
        chunks.set(i, c);
    } else {
        chunks.push(fresh);
    }
}

} // verus!
