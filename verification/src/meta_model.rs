//! What the metadata cache holds, and what each of its operations does to it.

use crate::client_cap::{CapSet, CapView};
use crate::entry::{
    stripe_size_of, CachedFileChunk, DentryLease, EntryState, EntryView, Fid, HoldState, Now, Placement,
    Reliability, UpdateAttrParams, ROOT_INODE,
};
use crate::lru_entries::{bump, lemma_without, lru_consistent, without};
use crate::names;
use crate::text;
use vstd::prelude::*;

verus! {

/// Needle ids are handed out in blocks of this many per file, so a chunk index
/// must stay below it.
pub const FILE_KEY_BLOCK_SIZE: u64 = 1_048_576;

/// A directory listing and the time at which it was taken.
pub struct ListingView {
    pub entries: Seq<(u64, Seq<char>, bool)>,
    pub cached_at: u64,
}

/// What the metadata cache holds.
pub struct MetaView {
    /// The entry of each cached inode.
    pub entries: Map<u64, EntryView>,
    /// The cached inodes, the most recently used first.
    pub order: Seq<u64>,
    /// How many entries fit.
    pub capacity: nat,
    /// The inode behind each known path.
    pub paths: Seq<(Seq<char>, u64)>,
    /// Directory listings, by directory.
    pub dirs: Map<u64, ListingView>,
    /// The next inode number to hand out.
    pub next_inode: u64,
    /// How long a listing is trusted.
    pub dir_ttl: u64,
    /// How long an entry is trusted.
    pub ttl: u64,
    /// The latest known generation of each path.
    pub generations: Seq<(Seq<char>, u64)>,
    /// The latest known version of each directory.
    pub dir_versions: Map<u64, u64>,
    /// The directories that were listed in full, with their version then.
    pub complete_dirs: Map<u64, u64>,
}

/// How far a walk from a directory up to the root came.
pub struct Climb {
    /// The names on the way, from the bottom up.
    pub names: Seq<Seq<char>>,
    /// The cache after the walk.
    pub end: MetaView,
    /// True if the walk reached the root.
    pub reached: bool,
}

/// Whether a name in a directory can be answered from the cache.
#[derive(Debug, Clone, Copy, PartialEq, Eq, Structural)]
pub enum DentryLeaseStatus {
    /// The name's own lease is running.
    LeaseValid,
    /// The lease has run out, but the directory was listed in full and has not
    /// changed since the name was cached.
    SharedGenValid,
    /// The name is not cached, and the directory was listed in full and has
    /// not changed since: the name does not exist.
    NegativeComplete,
    /// The name is cached but nothing vouches for it.
    Expired,
    /// Nothing is known of the name.
    Miss,
}

/// The attributes that every root directory has.
pub open spec fn root_entry(mode: u32, uid: u32, gid: u32, now: Now) -> EntryView {
    EntryView {
        inode: ROOT_INODE,
        parent: ROOT_INODE,
        name: Seq::empty(),
        is_dir: true,
        is_symlink: false,
        symlink_target: None,
        nlink: 2,
        fid: None,
        size: 4096,
        mode,
        uid,
        gid,
        atime: now.unix_secs,
        mtime: now.unix_secs,
        ctime: now.unix_secs,
        xattrs: Seq::empty(),
        chunks: Seq::empty(),
        hard_link_id: Seq::empty(),
        hard_link_counter: 0,
        content_size: 4096,
        disk_size: 4096,
        generation: 1,
        placement: None,
        reliability: Reliability::SingleReplica,
        replica_chunks: Seq::empty(),
        shard_id: None,
        cached_at: now.mono_ms,
        state: EntryState::New,
        hold: HoldState::Unpinned,
        cap: None,
        dentry_lease: None,
        dir_shared_gen: 0,
    }
}

/// The last key of the list whose entry is not open.
pub open spec fn last_closed(entries: Map<u64, EntryView>, order: Seq<u64>) -> Option<u64>
    decreases order.len(),
{
    if order.len() == 0 {
        None
    } else if entries[order.last()].hold is Unpinned {
        Some(order.last())
    } else {
        last_closed(entries, order.drop_last())
    }
}

pub proof fn lemma_last_closed(entries: Map<u64, EntryView>, order: Seq<u64>)
    ensures
        match last_closed(entries, order) {
            Some(k) => order.contains(k) && entries[k].hold is Unpinned,
            None => forall|k: u64| #[trigger] order.contains(k) ==> entries[k].hold is Pinned,
        },
    decreases order.len(),
{
    if order.len() > 0 {
        let p = order.drop_last();
        lemma_last_closed(entries, p);
        assert(order.contains(order[order.len() - 1]));
        if let Some(k) = last_closed(entries, p) {
            let j = choose|j: int| 0 <= j < p.len() && p[j] == k;
            assert(order[j] == k);
        }
        assert forall|k: u64| #[trigger] order.contains(k) && entries[order.last()].hold is Pinned
            && last_closed(entries, p) is None implies entries[k].hold is Pinned by {
            let j = choose|j: int| 0 <= j < order.len() && order[j] == k;
            if j < p.len() {
                assert(p[j] == k);
                assert(p.contains(k));
            }
        }
    }
}

/// The entry `x` refreshed by `e`, which has the same name and parent. The
/// larger content size of an open file wins over what the server knows; a
/// file id, chunks and a link target are kept where `e` brings none.
pub open spec fn merged(x: EntryView, e: EntryView, now_ms: u64) -> EntryView {
    let keep = x.hold is Pinned && x.content_size > e.content_size;
    EntryView {
        hard_link_id: if e.hard_link_id.len() > 0 && x.hard_link_id.len() == 0 {
            e.hard_link_id
        } else {
            x.hard_link_id
        },
        hard_link_counter: if e.hard_link_counter > 0 {
            e.hard_link_counter
        } else {
            x.hard_link_counter
        },
        fid: if e.fid is Some {
            e.fid
        } else {
            x.fid
        },
        chunks: if e.chunks.len() > 0 {
            e.chunks
        } else {
            x.chunks
        },
        size: if keep {
            x.size
        } else {
            e.size
        },
        content_size: if keep {
            x.content_size
        } else {
            e.content_size
        },
        mode: e.mode,
        uid: e.uid,
        gid: e.gid,
        atime: e.atime,
        mtime: e.mtime,
        ctime: e.ctime,
        nlink: e.nlink,
        is_dir: e.is_dir,
        is_symlink: e.is_symlink,
        symlink_target: if e.is_symlink && e.symlink_target is Some && e.symlink_target->0.len()
            > 0 {
            e.symlink_target
        } else {
            x.symlink_target
        },
        disk_size: e.disk_size,
        generation: e.generation,
        cached_at: now_ms,
        ..x
    }
}

/// The larger of two numbers.
pub open spec fn max_u64(a: u64, b: u64) -> u64 {
    if a > b {
        a
    } else {
        b
    }
}

/// The place of the first chunk at `offset`, or the length where there is none.
pub open spec fn chunk_at(chunks: Seq<CachedFileChunk>, offset: u64) -> int
    decreases chunks.len(),
{
    if chunks.len() == 0 {
        0
    } else {
        let i = chunk_at(chunks.drop_last(), offset);
        if i < chunks.len() - 1 {
            i
        } else if chunks.last().offset == offset {
            chunks.len() - 1
        } else {
            chunks.len() as int
        }
    }
}

/// The chunk list after data up to `fresh.size` was written at `fresh.offset`:
/// the chunk there grows, or `fresh` joins the list.
pub open spec fn grow_chunk(chunks: Seq<CachedFileChunk>, fresh: CachedFileChunk) -> Seq<
    CachedFileChunk,
> {
    let i = chunk_at(chunks, fresh.offset);
    if i < chunks.len() {
        chunks.update(i, CachedFileChunk { size: max_u64(chunks[i].size, fresh.size), ..chunks[i] })
    } else {
        chunks.push(fresh)
    }
}

/// How many bytes of chunk `idx` a write that ends at `write_end` covers.
pub open spec fn covered(idx: int, write_end: int, chunk_size: int) -> int {
    if write_end - idx * chunk_size < chunk_size {
        write_end - idx * chunk_size
    } else {
        chunk_size
    }
}

/// The sum, or the largest number where it would be larger.
pub open spec fn sat_add(a: u64, b: u64) -> u64 {
    if a + b > u64::MAX {
        u64::MAX
    } else {
        (a + b) as u64
    }
}

/// The chunk that a write to a flat file adds at `idx`.
pub open spec fn flat_chunk(
    fid: Fid,
    idx: int,
    write_end: int,
    chunk_size: int,
    mtime: u64,
) -> CachedFileChunk {
    CachedFileChunk {
        offset: (idx * chunk_size) as u64,
        size: covered(idx, write_end, chunk_size) as u64,
        mtime,
        needle_id: sat_add(fid.file_key, idx as u64),
        volume_id: fid.volume_id.0,
        crc32: 0,
    }
}

/// The chunk list of a flat file after the chunks `lo..hi` were written.
pub open spec fn flat_grown(
    chunks: Seq<CachedFileChunk>,
    fid: Fid,
    lo: int,
    hi: int,
    write_end: int,
    chunk_size: int,
    mtime: u64,
) -> Seq<CachedFileChunk>
    decreases hi - lo,
{
    if hi <= lo {
        chunks
    } else {
        grow_chunk(
            flat_grown(chunks, fid, lo, hi - 1, write_end, chunk_size, mtime),
            flat_chunk(fid, hi - 1, write_end, chunk_size, mtime),
        )
    }
}

/// The stripe unit that holds byte `offset`.
pub open spec fn stripe_unit(offset: int, stripe_size: int) -> int {
    offset / stripe_size
}

/// The needle that holds the chunk at `offset`: the unit's own needle, and one
/// more for each chunk before it in the unit.
pub open spec fn stripe_needle(
    units: Seq<CachedFileChunk>,
    offset: int,
    stripe_size: int,
    chunk_size: int,
) -> u64 {
    sat_add(
        units[stripe_unit(offset, stripe_size)].needle_id,
        ((offset % stripe_size) / chunk_size) as u64,
    )
}

/// The chunk that a write to a striped file adds at `idx`.
pub open spec fn stripe_chunk(
    units: Seq<CachedFileChunk>,
    stripe_size: int,
    idx: int,
    write_end: int,
    chunk_size: int,
    mtime: u64,
) -> CachedFileChunk {
    CachedFileChunk {
        offset: (idx * chunk_size) as u64,
        size: covered(idx, write_end, chunk_size) as u64,
        mtime,
        needle_id: stripe_needle(units, idx * chunk_size, stripe_size, chunk_size),
        volume_id: units[stripe_unit(idx * chunk_size, stripe_size)].volume_id,
        crc32: 0,
    }
}

/// The chunk list of a striped file after the chunks `lo..hi` were written.
/// Chunks beyond the allocated units are left out.
pub open spec fn stripe_grown(
    chunks: Seq<CachedFileChunk>,
    units: Seq<CachedFileChunk>,
    stripe_size: int,
    lo: int,
    hi: int,
    write_end: int,
    chunk_size: int,
    mtime: u64,
) -> Seq<CachedFileChunk>
    decreases hi - lo,
{
    if hi <= lo {
        chunks
    } else {
        let before = stripe_grown(
            chunks,
            units,
            stripe_size,
            lo,
            hi - 1,
            write_end,
            chunk_size,
            mtime,
        );
        if stripe_unit((hi - 1) * chunk_size, stripe_size) < units.len() {
            grow_chunk(
                before,
                stripe_chunk(units, stripe_size, hi - 1, write_end, chunk_size, mtime),
            )
        } else {
            before
        }
    }
}

/// A modification time as an unsigned number; before the epoch it is 0.
pub open spec fn unsigned_time(t: i64) -> u64 {
    if t > 0 {
        t as u64
    } else {
        0
    }
}

/// The children of a directory among the inodes of `order`, in that order.
pub open spec fn children_in(
    entries: Map<u64, EntryView>,
    order: Seq<u64>,
    parent: u64,
) -> Seq<(u64, Seq<char>, bool)>
    decreases order.len(),
{
    if order.len() == 0 {
        Seq::empty()
    } else {
        let before = children_in(entries, order.drop_last(), parent);
        let e = entries[order.last()];
        if e.parent == parent && e.inode != parent {
            before.push((e.inode, e.name, e.is_dir))
        } else {
            before
        }
    }
}

/// The first child of a directory that has the given name and is not `except`.
pub open spec fn child_named(
    entries: Map<u64, EntryView>,
    order: Seq<u64>,
    parent: u64,
    name: Seq<char>,
    except: Option<u64>,
) -> Option<u64>
    decreases order.len(),
{
    if order.len() == 0 {
        None
    } else {
        match child_named(entries, order.drop_last(), parent, name, except) {
            Some(ino) => Some(ino),
            None => {
                let e = entries[order.last()];
                if e.parent == parent && e.inode != parent && e.name == name && except != Some(
                    e.inode,
                ) {
                    Some(e.inode)
                } else {
                    None
                }
            },
        }
    }
}

pub proof fn lemma_child_is_cached(
    v: MetaView,
    parent: u64,
    name: Seq<char>,
    except: Option<u64>,
    order: Seq<u64>,
)
    requires
        v.wf(),
        forall|i: int| 0 <= i < order.len() ==> v.order.contains(#[trigger] order[i]),
    ensures
        match child_named(v.entries, order, parent, name, except) {
            Some(k) => {
                &&& v.has(k)
                &&& v.order.contains(k)
                &&& v.entries[k].parent == parent
                &&& v.entries[k].name == name
                &&& k != parent
                &&& except != Some(k)
            },
            None => forall|i: int|
                0 <= i < order.len() && v.entries[#[trigger] order[i]].parent == parent
                    && v.entries[order[i]].name == name && order[i] != parent ==> except == Some(
                    order[i],
                ),
        },
    decreases order.len(),
{
    if order.len() > 0 {
        let p = order.drop_last();
        assert forall|i: int| 0 <= i < p.len() implies v.order.contains(#[trigger] p[i]) by {
            assert(p[i] == order[i]);
        }
        lemma_child_is_cached(v, parent, name, except, p);
        assert(v.order.contains(order[order.len() - 1]));
        assert(v.has(order.last()));
        if child_named(v.entries, order, parent, name, except) is None {
            assert forall|i: int|
                0 <= i < order.len() && v.entries[#[trigger] order[i]].parent == parent
                    && v.entries[order[i]].name == name && order[i] != parent implies except
                == Some(order[i]) by {
                if i < p.len() {
                    assert(p[i] == order[i]);
                }
            }
        }
    }
}

/// The entry after it was declared out of date: without a lease on its name, too
/// old to be served, and `Stale` where the lifecycle allows it. Local changes are
/// left alone.
pub open spec fn invalidated(e: EntryView, now_ms: u64, ttl: u64) -> EntryView {
    if e.state.is_authoritative() {
        EntryView { dentry_lease: None, ..e }
    } else {
        EntryView {
            dentry_lease: None,
            cached_at: if now_ms > 2 * ttl {
                (now_ms - 2 * ttl) as u64
            } else {
                0
            },
            ..e.step(EntryState::Stale)
        }
    }
}

/// The entry after some of its attributes were changed.
pub open spec fn attrs_updated(e: EntryView, p: UpdateAttrParams, now: Now) -> EntryView {
    EntryView {
        mode: if p.mode is Some {
            p.mode->0
        } else {
            e.mode
        },
        size: if p.size is Some {
            p.size->0
        } else {
            e.size
        },
        uid: if p.uid is Some {
            p.uid->0
        } else {
            e.uid
        },
        gid: if p.gid is Some {
            p.gid->0
        } else {
            e.gid
        },
        atime: if p.atime is Some {
            p.atime->0
        } else {
            e.atime
        },
        mtime: if p.mtime is Some {
            p.mtime->0
        } else {
            e.mtime
        },
        ctime: now.unix_secs,
        cached_at: now.mono_ms,
        ..e
    }
}

/// The chunk list after its first chunk at `offset` got the checksum `crc`.
pub open spec fn with_crc(chunks: Seq<CachedFileChunk>, offset: u64, crc: u32) -> Seq<
    CachedFileChunk,
> {
    let i = chunk_at(chunks, offset);
    if i < chunks.len() {
        chunks.update(i, CachedFileChunk { crc32: crc, ..chunks[i] })
    } else {
        chunks
    }
}

/// The chunk list of a file cut to `size`: chunks that start at or beyond it
/// go, and the one that it cuts through becomes shorter.
pub open spec fn chunks_cut(chunks: Seq<CachedFileChunk>, size: u64) -> Seq<CachedFileChunk>
    decreases chunks.len(),
{
    if chunks.len() == 0 {
        chunks
    } else {
        let before = chunks_cut(chunks.drop_last(), size);
        let c = chunks.last();
        if c.offset >= size {
            before
        } else if c.size > size - c.offset {
            before.push(CachedFileChunk { size: (size - c.offset) as u64, ..c })
        } else {
            before.push(c)
        }
    }
}

/// The entry without its lease, if it stands in the directory `parent`.
pub open spec fn lease_dropped(e: EntryView, parent: u64) -> EntryView {
    if e.parent == parent {
        EntryView { dentry_lease: None, ..e }
    } else {
        e
    }
}

impl MetaView {
    /// The aspects of the cache agree, and every entry is filed under its own
    /// inode.
    pub open spec fn wf(self) -> bool {
        &&& lru_consistent(self.entries, self.order, self.capacity)
        &&& forall|k: u64| #[trigger]
            self.entries.contains_key(k) ==> self.entries[k].inode == k
    }

    /// The inode is cached, however old its entry is.
    pub open spec fn has(self, inode: u64) -> bool {
        self.entries.contains_key(inode)
    }

    /// The entry of a cached inode replaced, and the inode used.
    pub open spec fn set(self, inode: u64, e: EntryView) -> MetaView {
        MetaView {
            entries: self.entries.insert(inode, e),
            order: bump(self.order, inode),
            ..self
        }
    }

    /// `set` where the inode is cached; nothing otherwise.
    pub open spec fn alter(self, inode: u64, e: EntryView) -> MetaView {
        if self.has(inode) {
            self.set(inode, e)
        } else {
            self
        }
    }

    /// What a lookup of the inode answers.
    pub open spec fn answer(self, inode: u64, now_ms: u64) -> Option<EntryView> {
        if self.has(inode) && self.entries[inode].is_live(now_ms, self.ttl) {
            Some(self.entries[inode])
        } else {
            None
        }
    }

    /// The inode is cached, but its entry is too old or out of date to be
    /// answered: the server has to be asked again.
    pub open spec fn needs_refetch(self, inode: u64, now_ms: u64) -> bool {
        &&& self.has(inode)
        &&& !(self.entries[inode].state is Tombstone)
        &&& self.answer(inode, now_ms) is None
    }

    /// The cache after a lookup of the inode: it was used, and an entry that
    /// was found too old has become `Stale`.
    pub open spec fn fetched(self, inode: u64, now_ms: u64) -> MetaView {
        let e = self.entries[inode];
        self.alter(
            inode,
            if e.expired(now_ms, self.ttl) {
                e.step(EntryState::Stale)
            } else {
                e
            },
        )
    }

    /// The cache after a state transition of the inode was asked for.
    pub open spec fn stepped(self, inode: u64, target: EntryState) -> MetaView {
        self.alter(inode, self.entries[inode].step(target))
    }

    /// The cache after the inode was found in step with the server.
    pub open spec fn cleaned(self, inode: u64, now_ms: u64) -> MetaView {
        self.alter(
            inode,
            EntryView { cached_at: now_ms, ..self.entries[inode].step(EntryState::Clean) },
        )
    }

    /// The cache after one more handle on the inode was opened.
    pub open spec fn pinned(self, inode: u64) -> MetaView {
        self.alter(
            inode,
            EntryView {
                hold: self.entries[inode].hold.pinned_once_more(),
                ..self.entries[inode]
            },
        )
    }

    /// The cache after one handle on the inode was closed.
    pub open spec fn unpinned(self, inode: u64) -> MetaView {
        self.alter(
            inode,
            EntryView { hold: self.entries[inode].hold.unpinned_once(), ..self.entries[inode] },
        )
    }

    /// The cache after the file grew or shrank to `size`.
    pub open spec fn resized(self, inode: u64, size: u64, now: Now) -> MetaView {
        self.alter(
            inode,
            EntryView {
                size,
                content_size: size,
                mtime: now.unix_secs,
                cached_at: now.mono_ms,
                ..self.entries[inode]
            },
        )
    }

    /// The cache after a directory stopped to be cached in full.
    pub open spec fn not_complete(self, dir: u64) -> MetaView {
        MetaView { complete_dirs: self.complete_dirs.remove(dir), ..self }
    }

    /// The cache after the server declared an inode out of date: the inode goes,
    /// and since its name may still stand, its directory is not cached in full
    /// any more.
    pub open spec fn outdated(self, inode: u64) -> MetaView {
        if self.has(inode) {
            self.removed(inode).not_complete(self.entries[inode].parent)
        } else {
            self.removed(inode)
        }
    }

    /// The cache without the children of a directory that have the given name,
    /// but for `keep`.
    pub open spec fn cleared(self, dir: u64, name: Seq<char>, keep: Option<u64>) -> MetaView
        decreases self.order.len(),
        when self.wf()
        via Self::cleared_decreases
    {
        match child_named(self.entries, self.order, dir, name, keep) {
            Some(k) => self.removed(k).cleared(dir, name, keep),
            None => self,
        }
    }

    #[via_fn]
    proof fn cleared_decreases(self, dir: u64, name: Seq<char>, keep: Option<u64>) {
        if let Some(k) = child_named(self.entries, self.order, dir, name, keep) {
            lemma_child_is_cached(self, dir, name, keep, self.order);
            lemma_without(self.order, k);
        }
    }

    /// No child of a directory has the given name, but for `keep`.
    pub open spec fn none_named(self, dir: u64, name: Seq<char>, keep: Option<u64>) -> bool {
        forall|k: u64| #[trigger]
            self.has(k) && self.entries[k].parent == dir && self.entries[k].name == name && k != dir
                ==> keep == Some(k)
    }

    /// The cache after the server moved a name to another one. A source that the
    /// cache can answer for moves along; else the new name has to be asked for.
    /// Nothing else stays under either name.
    pub open spec fn renamed(
        self,
        olddir: u64,
        oldname: Seq<char>,
        newdir: u64,
        newname: Seq<char>,
        now: Now,
    ) -> MetaView {
        match self.answer_named(olddir, oldname, now.mono_ms) {
            Some(e) => self.fetched(e.inode, now.mono_ms).moved(
                e.inode,
                olddir,
                newdir,
                newname,
                now,
            ).cleared(olddir, oldname, Some(e.inode)).cleared(newdir, newname, Some(e.inode)),
            None => self.fetched_named(olddir, oldname, now.mono_ms).cleared(
                olddir,
                oldname,
                None,
            ).cleared(newdir, newname, None).without_listing(olddir).without_listing(
                newdir,
            ).leases_dropped(newdir),
        }
    }

    /// The cache after the listing of a directory was dropped.
    pub open spec fn without_listing(self, dir: u64) -> MetaView {
        MetaView { dirs: self.dirs.remove(dir), ..self }
    }

    /// The walk from `current` up to the root. It ends at the root, at an
    /// inode that was visited before, or at one that the cache cannot answer.
    pub open spec fn climb(self, current: u64, visited: Set<u64>, now_ms: u64) -> Climb
        decreases self.entries.dom().difference(visited).len(),
        when self.entries.dom().finite()
        via Self::climb_decreases
    {
        if current == ROOT_INODE {
            Climb { names: Seq::empty(), end: self, reached: true }
        } else if visited.contains(current) {
            Climb { names: Seq::empty(), end: self, reached: false }
        } else {
            match self.answer(current, now_ms) {
                None => Climb {
                    names: Seq::empty(),
                    end: self.fetched(current, now_ms),
                    reached: false,
                },
                Some(e) => {
                    let above = self.fetched(current, now_ms).climb(
                        e.parent,
                        visited.insert(current),
                        now_ms,
                    );
                    Climb { names: seq![e.name] + above.names, ..above }
                },
            }
        }
    }

    #[via_fn]
    proof fn climb_decreases(self, current: u64, visited: Set<u64>, now_ms: u64) {
        if self.answer(current, now_ms) is Some && !visited.contains(current) {
            let next = self.fetched(current, now_ms);
            assert(next.entries.dom() =~= self.entries.dom());
            let a = self.entries.dom().difference(visited);
            let b = next.entries.dom().difference(visited.insert(current));
            assert(b =~= a.remove(current));
            assert(a.contains(current));
            assert(a.finite());
        }
    }

    /// The cache and the path after the walk from an inode up to the root; no
    /// path where the walk did not reach it.
    pub open spec fn chain_path(self, inode: u64, now_ms: u64) -> (Option<Seq<char>>, MetaView) {
        if inode == ROOT_INODE {
            (Some(text::root_path()), self)
        } else {
            match self.answer(inode, now_ms) {
                None => (None, self.fetched(inode, now_ms)),
                Some(e) => {
                    let c = self.fetched(inode, now_ms).climb(
                        e.parent,
                        set![inode],
                        now_ms,
                    );
                    (
                        if c.reached {
                            Some(text::join((seq![e.name] + c.names).reverse()))
                        } else {
                            None
                        },
                        c.end,
                    )
                },
            }
        }
    }

    /// The path under which an entry is filed, and the cache after the walk
    /// that found it. Where the walk does not reach the root, the path starts
    /// at the last name that it found.
    pub open spec fn insert_path(self, e: EntryView, now_ms: u64) -> (Seq<char>, MetaView) {
        if e.inode == ROOT_INODE {
            (text::root_path(), self)
        } else {
            let c = self.climb(e.parent, set![e.inode], now_ms);
            (text::join((seq![e.name] + c.names).reverse()), c.end)
        }
    }

    /// The table after an entry was pushed: the least recently used one made
    /// room where the table was full.
    pub open spec fn pushed(self, inode: u64, e: EntryView) -> MetaView {
        if self.has(inode) {
            self.set(inode, e)
        } else if self.order.len() < self.capacity {
            MetaView {
                entries: self.entries.insert(inode, e),
                order: seq![inode] + self.order,
                ..self
            }
        } else {
            MetaView {
                entries: self.entries.remove(self.order.last()).insert(inode, e),
                order: seq![inode] + self.order.drop_last(),
                ..self
            }
        }
    }

    /// The table after a new inode came in. In a full table the least recently
    /// used inode that is not open makes room, be it the new one; an open one
    /// that was pushed out comes back in front. Only where every inode is open,
    /// the new one too, does an open one go. The directory of the inode that
    /// went is not cached in full any more.
    pub open spec fn admitted(self, inode: u64, e: EntryView) -> MetaView {
        let next = self.pushed(inode, e);
        if !self.has(inode) && self.order.len() >= self.capacity {
            let out = self.order.last();
            if self.entries[out].hold is Pinned {
                let gone = match last_closed(next.entries, next.order) {
                    Some(k) => k,
                    None => next.order.last(),
                };
                next.popped(gone).pushed(out, self.entries[out]).not_complete(
                    next.entries[gone].parent,
                )
            } else {
                next.not_complete(self.entries[out].parent)
            }
        } else {
            next
        }
    }

    /// The table after an entry was filed: a cached inode under the same name
    /// is refreshed, one under another name is replaced but for its extended
    /// attributes, and an unknown one is admitted. A directory that loses a name
    /// by it is not cached in full any more.
    pub open spec fn filed(self, e: EntryView, now_ms: u64) -> MetaView {
        if self.has(e.inode) {
            let x = self.entries[e.inode];
            if x.name != e.name || x.parent != e.parent {
                self.set(e.inode, EntryView { xattrs: x.xattrs, ..e }).not_complete(x.parent)
            } else {
                self.set(e.inode, merged(x, e, now_ms))
            }
        } else {
            self.admitted(e.inode, e)
        }
    }

    /// The cache after an entry was inserted.
    pub open spec fn inserted(self, e: EntryView, now_ms: u64) -> MetaView {
        let (path, walked) = self.insert_path(e, now_ms);
        MetaView {
            paths: names::put(walked.paths, path, e.inode),
            ..walked
        }.without_listing(e.parent).filed(e, now_ms).stepped(e.inode, EntryState::Clean)
    }

    /// The cache after an open entry was inserted.
    pub open spec fn inserted_pinned(self, e: EntryView, now_ms: u64) -> MetaView {
        self.inserted(EntryView { hold: HoldState::Pinned { open_count: 1 }, ..e }, now_ms)
    }

    /// The table without an inode.
    pub open spec fn popped(self, inode: u64) -> MetaView {
        MetaView {
            entries: self.entries.remove(inode),
            order: without(self.order, inode),
            ..self
        }
    }

    /// The cache after an inode was removed with all of its paths.
    pub open spec fn removed(self, inode: u64) -> MetaView {
        if self.has(inode) {
            MetaView {
                paths: names::erase_value(self.paths, inode),
                ..self.popped(inode)
            }.without_listing(self.entries[inode].parent)
        } else {
            self.popped(inode)
        }
    }

    /// The path of an inode, empty where none is known.
    pub open spec fn path_or_empty(self, inode: u64) -> Seq<char> {
        match names::first_name(self.paths, inode) {
            Some(p) => p,
            None => Seq::empty(),
        }
    }

    /// The cache after an inode was removed with one of its paths.
    pub open spec fn removed_entry_only(self, inode: u64) -> MetaView {
        if self.has(inode) {
            MetaView {
                paths: names::erase(self.paths, self.path_or_empty(inode)),
                ..self.popped(inode)
            }.without_listing(self.entries[inode].parent)
        } else {
            self.popped(inode)
        }
    }

    /// The cache after one path of an inode was removed. Where the entry stood
    /// under that path, it moves to another name that the inode still has.
    pub open spec fn removed_path(self, inode: u64, path: Seq<char>, now_ms: u64) -> MetaView {
        let v1 = MetaView { paths: names::erase(self.paths, path), ..self };
        let v3 = if v1.has(inode) {
            let (found, v2) = v1.chain_path(inode, now_ms);
            if found == Some(path) {
                match names::first_name(v2.paths, inode) {
                    Some(p) => v2.alter(
                        inode,
                        EntryView { name: text::leaf_of(p), ..v2.entries[inode] },
                    ),
                    None => v2,
                }
            } else {
                v2
            }
        } else {
            v1
        };
        let v4 = v3.fetched(inode, now_ms);
        match v3.answer(inode, now_ms) {
            Some(e) => v4.without_listing(e.parent),
            None => v4,
        }
    }

    /// The cache after every entry was declared out of date. No listing and no
    /// lease on a name is worth anything any more.
    pub open spec fn all_invalidated(self, now_ms: u64) -> MetaView {
        MetaView {
            entries: self.entries.map_values(|e: EntryView| invalidated(e, now_ms, self.ttl)),
            dirs: Map::empty(),
            complete_dirs: Map::empty(),
            ..self
        }
    }

    /// The cache after one chunk of an inode got a checksum.
    pub open spec fn crc_set(self, inode: u64, offset: u64, crc: u32) -> MetaView {
        self.alter(
            inode,
            EntryView {
                chunks: with_crc(self.entries[inode].chunks, offset, crc),
                ..self.entries[inode]
            },
        )
    }

    /// The cache after the chunk list of an inode was replaced.
    pub open spec fn chunks_set(self, inode: u64, chunks: Seq<CachedFileChunk>) -> MetaView {
        self.alter(inode, EntryView { chunks, ..self.entries[inode] })
    }

    /// The cache after the file id of an inode was set.
    pub open spec fn fid_set(self, inode: u64, fid: Fid) -> MetaView {
        self.alter(inode, EntryView { fid: Some(fid), ..self.entries[inode] })
    }

    /// The cache after both sizes of an inode were set.
    pub open spec fn content_size_set(self, inode: u64, size: u64) -> MetaView {
        self.alter(inode, EntryView { size, content_size: size, ..self.entries[inode] })
    }

    /// The cache after `length` bytes were written at `offset` of a flat file.
    pub open spec fn flat_written(
        self,
        inode: u64,
        offset: u64,
        length: u64,
        chunk_size: u64,
        fid: Fid,
    ) -> MetaView {
        if length == 0 {
            self
        } else {
            let last = (offset + length - 1) / chunk_size as int;
            let e = self.entries[inode];
            self.chunks_set(
                inode,
                flat_grown(
                    e.chunks,
                    fid,
                    offset as int / chunk_size as int,
                    if last < FILE_KEY_BLOCK_SIZE {
                        last + 1
                    } else {
                        FILE_KEY_BLOCK_SIZE as int
                    },
                    offset + length,
                    chunk_size as int,
                    unsigned_time(e.mtime),
                ),
            )
        }
    }

    /// The cache after `length` bytes were written at `offset` of a striped
    /// file.
    pub open spec fn stripe_written(
        self,
        inode: u64,
        offset: u64,
        length: u64,
        chunk_size: u64,
        placement: Placement,
        units: Seq<CachedFileChunk>,
    ) -> MetaView {
        if length == 0 || stripe_size_of(placement) is None {
            self
        } else {
            let e = self.entries[inode];
            self.chunks_set(
                inode,
                stripe_grown(
                    e.chunks,
                    units,
                    max_u64(stripe_size_of(placement)->0, 1) as int,
                    offset as int / chunk_size as int,
                    (offset + length - 1) / chunk_size as int + 1,
                    offset + length,
                    chunk_size as int,
                    unsigned_time(e.mtime),
                ),
            )
        }
    }

    /// The first child of a directory with the given name.
    pub open spec fn child(self, parent: u64, name: Seq<char>) -> Option<u64> {
        child_named(self.entries, self.order, parent, name, None)
    }

    /// What a lookup by name answers.
    pub open spec fn answer_named(self, parent: u64, name: Seq<char>, now_ms: u64) -> Option<
        EntryView,
    > {
        match self.child(parent, name) {
            Some(ino) => self.answer(ino, now_ms),
            None => None,
        }
    }

    /// The cache after a lookup by name.
    pub open spec fn fetched_named(self, parent: u64, name: Seq<char>, now_ms: u64) -> MetaView {
        match self.child(parent, name) {
            Some(ino) => self.fetched(ino, now_ms),
            None => self,
        }
    }

    /// The cache after a directory was found changed at this moment.
    pub open spec fn dir_touched(self, dir: u64, now: Now) -> MetaView {
        self.alter(
            dir,
            EntryView {
                mtime: now.unix_secs,
                ctime: now.unix_secs,
                cached_at: now.mono_ms,
                ..self.entries[dir]
            },
        )
    }

    /// The cache after the inode, which is cached, moved to another name.
    pub open spec fn moved(
        self,
        inode: u64,
        olddir: u64,
        newdir: u64,
        newname: Seq<char>,
        now: Now,
    ) -> MetaView {
        let v1 = MetaView {
            paths: names::erase(self.paths, self.path_or_empty(inode)),
            ..self
        };
        let v2 = match child_named(v1.entries, v1.order, newdir, newname, Some(inode)) {
            Some(target) => v1.removed_entry_only(target),
            None => v1,
        };
        let v3 = v2.set(
            inode,
            EntryView {
                parent: newdir,
                name: newname,
                ctime: now.unix_secs,
                mtime: now.unix_secs,
                ..v2.entries[inode]
            },
        );
        let dir_path = if newdir == ROOT_INODE {
            Seq::empty()
        } else {
            v3.path_or_empty(newdir)
        };
        let v4 = MetaView {
            paths: names::put(v3.paths, dir_path.push('/') + newname, inode),
            ..v3
        };
        let v5 = v4.dir_touched(olddir, now);
        let v6 = if olddir != newdir {
            v5.dir_touched(newdir, now)
        } else {
            v5
        };
        v6.without_listing(olddir).without_listing(newdir)
    }

    /// The cache after a path was declared out of date.
    pub open spec fn path_invalidated(self, path: Seq<char>) -> MetaView {
        let v1 = match names::find(self.paths, path) {
            Some(ino) => self.outdated(ino),
            None => self,
        };
        match names::find(v1.paths, text::parent_of(path)) {
            Some(dir) => v1.without_listing(dir),
            None => v1,
        }
    }

    /// The cache after everything was dropped and the root made anew.
    pub open spec fn emptied(self, uid: u32, gid: u32, now: Now) -> MetaView {
        MetaView {
            entries: Map::empty().insert(ROOT_INODE, root_entry(0o755, uid, gid, now)),
            order: seq![ROOT_INODE],
            paths: seq![(text::root_path(), ROOT_INODE)],
            dirs: Map::empty(),
            generations: Seq::empty(),
            dir_versions: Map::empty(),
            complete_dirs: Map::empty(),
            ..self
        }
    }

    /// The cache after the cap record of an inode was set.
    pub open spec fn cap_set(self, inode: u64, cap: Option<CapView>) -> MetaView {
        self.alter(inode, EntryView { cap, ..self.entries[inode] })
    }

    /// The cap record of an inode.
    pub open spec fn cap_of(self, inode: u64) -> Option<CapView> {
        if self.has(inode) {
            self.entries[inode].cap
        } else {
            None
        }
    }

    /// The cache after local changes under `bits` of an inode: the entry is
    /// dirty, and so are the bits of its cap, where it has one.
    pub open spec fn cap_dirtied(self, inode: u64, bits: CapSet) -> MetaView {
        let e = self.entries[inode];
        self.alter(
            inode,
            EntryView {
                cap: match e.cap {
                    Some(c) => Some(c.dirtied(bits)),
                    None => None,
                },
                ..e.step(EntryState::Dirty)
            },
        )
    }

    /// The cache after the flush of an inode reached the server.
    pub open spec fn cap_flushed(self, inode: u64) -> MetaView {
        match self.cap_of(inode) {
            Some(c) => self.cap_set(inode, Some(c.flushed())),
            None => self.alter(inode, self.entries[inode]),
        }
    }

    /// The cache after one name of an inode was counted off.
    pub open spec fn unlinked_once(self, inode: u64) -> MetaView {
        let n = self.entries[inode].nlink;
        self.alter(
            inode,
            EntryView {
                nlink: if n > 0 {
                    (n - 1) as u32
                } else {
                    0
                },
                ..self.entries[inode]
            },
        )
    }

    /// The value of an extended attribute.
    pub open spec fn xattr(self, inode: u64, name: Seq<char>) -> Option<Seq<u8>> {
        if self.has(inode) {
            names::find(self.entries[inode].xattrs, name)
        } else {
            None
        }
    }

    /// The cache after an extended attribute was set.
    pub open spec fn xattr_set(self, inode: u64, name: Seq<char>, value: Seq<u8>) -> MetaView {
        self.alter(
            inode,
            EntryView {
                xattrs: names::put(self.entries[inode].xattrs, name, value),
                ..self.entries[inode]
            },
        )
    }

    /// The version of a directory; 0 where none is known.
    pub open spec fn dir_version(self, dir: u64) -> u64 {
        if self.dir_versions.contains_key(dir) {
            self.dir_versions[dir]
        } else {
            0
        }
    }

    /// The directory was listed in full and has not changed since.
    pub open spec fn is_complete(self, dir: u64) -> bool {
        self.complete_dirs.contains_key(dir) && self.complete_dirs[dir] == self.dir_version(dir)
    }

    /// The name is known not to exist: its directory is cached in full, and no
    /// entry stands under it, be it one that is out of date.
    pub open spec fn known_absent(self, parent: u64, name: Seq<char>) -> bool {
        self.child(parent, name) is None && self.is_complete(parent)
    }

    /// The cache after a lease on a cached name was granted.
    pub open spec fn lease_granted(
        self,
        parent: u64,
        name: Seq<char>,
        ttl_ms: u64,
        issuer: u64,
        now_ms: u64,
    ) -> MetaView {
        match self.child(parent, name) {
            Some(ino) => self.set(
                ino,
                EntryView {
                    dentry_lease: Some(
                        DentryLease { expires_ms: sat_add(now_ms, ttl_ms), issuer },
                    ),
                    dir_shared_gen: self.dir_version(parent),
                    ..self.entries[ino]
                },
            ),
            None => self,
        }
    }

    /// The cache after the leases on a directory's names were dropped.
    pub open spec fn leases_dropped(self, parent: u64) -> MetaView {
        MetaView {
            entries: self.entries.map_values(|e: EntryView| lease_dropped(e, parent)),
            complete_dirs: self.complete_dirs.remove(parent),
            ..self
        }
    }

    /// Whether a name in a directory can be answered from the cache.
    pub open spec fn lease_status(self, parent: u64, name: Seq<char>, now_ms: u64) ->
        DentryLeaseStatus {
        match self.child(parent, name) {
            Some(ino) => {
                let e = self.entries[ino];
                if e.dentry_lease is Some && now_ms < e.dentry_lease->0.expires_ms {
                    DentryLeaseStatus::LeaseValid
                } else if self.is_complete(parent) && e.dir_shared_gen == self.dir_version(parent) {
                    DentryLeaseStatus::SharedGenValid
                } else {
                    DentryLeaseStatus::Expired
                }
            },
            None => if self.is_complete(parent) {
                DentryLeaseStatus::NegativeComplete
            } else {
                DentryLeaseStatus::Miss
            },
        }
    }
}

} // verus!
