//! Names: looking them up, walking paths, making, moving and removing them,
//! and listing directories.

use super::sync::shard_of;
use super::{unlinks, FsView, PowerFsFs};
use crate::client_cap::ClientCap;
use crate::entry::{
    copy_opt_string, opt_cap, opt_text, CachedEntry, EntryState, EntryView, Now, ROOT_INODE,
};
use crate::inline::{buffers_remove, cursors_get, cursors_insert, cursors_remove, limits_remove};
use crate::meta_laws::{law_cleared_names_are_gone, lemma_lookup_keeps_child};
use crate::meta_model::{lemma_child_is_cached, DentryLeaseStatus, MetaView};
use crate::metadata_cache::{byte_len, text_bytes};
use crate::names;
use crate::records::{
    attr_to_cached_entry, blank_entry, create_fuse_entry, create_negative_entry, entry_of_attr,
    entry_of_row, entry_of_stored, entry_to_cached, fuse_entry_of, make_blank, negative_entry,
    row_to_cached, FilerEntry, FuseEntry, MetadataAttr, MetadataDirEntry, S_IFDIR,
};
use crate::scan::{ENOENT, EPERM};
use crate::text;
use vstd::prelude::*;

verus! {

/// How many unlinks are sent to the server at once.
pub const UNLINK_BATCH: usize = 16;

/// How many rows of a directory are asked for at once.
pub const READDIR_PAGE: u32 = 1000;

/// What a lookup has to do next.
#[derive(Debug, Clone, Copy, PartialEq, Eq, Structural)]
pub enum LookupStep {
    /// The answer.
    Reply { entry: FuseEntry },
    /// The name is ".".
    Dot,
    /// The name is "..".
    DotDot,
    /// Ask the server.
    Ask,
}

/// Whether a name exists.
#[derive(Debug, Clone, Copy, PartialEq, Eq, Structural)]
pub enum Existence {
    Exists,
    Absent,
    /// Ask the server.
    Ask,
}

/// A walk along a path, as far as it came.
#[derive(Debug)]
pub struct PathWalk {
    /// The directory that the walk reached.
    pub current: u64,
    pub parts: Vec<String>,
    /// How many parts it has behind it.
    pub next: usize,
}

/// What a walk along a path has to do next.
#[derive(Debug, Clone, Copy, PartialEq, Eq, Structural)]
pub enum WalkStep {
    /// The path leads to this inode.
    Done { inode: u64 },
    /// Ask the server for the next part in the directory that was reached.
    Ask,
}

/// What an unlink has to do first.
#[derive(Debug)]
pub enum UnlinkStep {
    Fail { errno: i32 },
    /// Ask the server for the entry.
    Ask,
    Found { entry: CachedEntry },
}

/// What is left to do when a name was unlinked.
#[derive(Debug)]
pub struct Unlinked {
    /// That was the last name: the data goes too.
    pub last_name: bool,
    /// The cap to give back.
    pub cap: Option<ClientCap>,
    /// The unlinks to send to the server now.
    pub batch: Vec<(u64, String, u64)>,
}

/// How far a walk along cached names came.
pub struct Walked {
    pub meta: MetaView,
    pub current: u64,
    pub next: int,
}

/// The walk along the parts from `next` on, as far as the cache answers.
pub open spec fn walked(
    meta: MetaView,
    current: u64,
    parts: Seq<Seq<char>>,
    next: int,
    now_ms: u64,
) -> Walked
    decreases parts.len() - next,
{
    if next >= parts.len() {
        Walked { meta, current, next }
    } else {
        let looked = meta.fetched_named(current, parts[next], now_ms);
        match meta.answer_named(current, parts[next], now_ms) {
            Some(e) => walked(looked, e.inode, parts, next + 1, now_ms),
            None => Walked { meta: looked, current, next },
        }
    }
}

/// The directory listing is answered from the cache whatever the server says.
pub open spec fn is_vouched(s: DentryLeaseStatus) -> bool {
    s is LeaseValid || s is SharedGenValid || s is NegativeComplete
}

/// What a lookup of a plain name does, after the epoch was checked.
pub open spec fn lookup_plain(fs: FsView, parent: u64, name: Seq<char>, now_ms: u64) -> LookupStep {
    match fs.meta.answer_named(parent, name, now_ms) {
        Some(e) => LookupStep::Reply { entry: fuse_entry_of(e) },
        None => {
            let looked = fs.meta.fetched_named(parent, name, now_ms);
            let status = looked.lease_status(parent, name, now_ms);
            if !is_vouched(status) {
                LookupStep::Ask
            } else if status is NegativeComplete {
                LookupStep::Reply { entry: negative_entry() }
            } else {
                LookupStep::Reply {
                    entry: match looked.child(parent, name) {
                        Some(ino) => fuse_entry_of(looked.entries[ino]),
                        None => negative_entry(),
                    },
                }
            }
        },
    }
}

/// The state after the server's epoch was compared with the cache's: another
/// leader may have kept notifications back, so everything is out of date.
pub open spec fn epoch_checked(fs: FsView, epoch: u64, now_ms: u64) -> FsView {
    if epoch == fs.epoch {
        fs
    } else {
        FsView { meta: fs.meta.all_invalidated(now_ms), epoch, ..fs }
    }
}

/// The cache after the server answered a lookup.
pub open spec fn lookup_stored(
    meta: MetaView,
    parent: u64,
    name: Seq<char>,
    attr: &MetadataAttr,
    now_ms: u64,
) -> MetaView {
    let v1 = if attr.dir_version > 0 {
        MetaView { dir_versions: meta.dir_versions.insert(parent, attr.dir_version), ..meta }
    } else {
        meta
    };
    let v2 = v1.inserted(entry_of_attr(attr, parent, name, now_ms), now_ms);
    if attr.dentry_lease_ttl_ms > 0 {
        v2.lease_granted(parent, name, attr.dentry_lease_ttl_ms, 0, now_ms)
    } else {
        v2
    }
}

/// The path of a name in a directory, where the directory's path is known.
pub open spec fn path_below(meta: MetaView, parent: u64, name: Seq<char>) -> Option<Seq<char>> {
    match names::first_name(meta.paths, parent) {
        Some(p) => Some(
            if p == text::root_path() {
                p + name
            } else {
                p.push('/') + name
            },
        ),
        None => None,
    }
}

/// The cache after a name of an inode was unlinked. No other inode stays under
/// the name.
pub open spec fn unlinked_meta(
    meta: MetaView,
    inode: u64,
    parent: u64,
    name: Seq<char>,
    now_ms: u64,
) -> MetaView {
    let last = meta.has(inode) && meta.entries[inode].nlink <= 1;
    let v1 = meta.unlinked_once(inode);
    if last {
        v1.cap_flushed(inode).cap_set(inode, None).removed(inode).cleared(parent, name, None)
    } else {
        match path_below(v1, parent, name) {
            Some(p) => v1.removed_path(inode, p, now_ms),
            None => v1,
        }.cleared(parent, name, Some(inode))
    }
}

/// The state after a name was unlinked and the server's unlink was queued.
pub open spec fn unlink_applied(
    fs: FsView,
    inode: u64,
    parent: u64,
    name: Seq<char>,
    computed_shard: u64,
    now_ms: u64,
) -> FsView {
    let last = fs.meta.has(inode) && fs.meta.entries[inode].nlink <= 1;
    let meta = unlinked_meta(fs.meta, inode, parent, name, now_ms);
    let queued = fs.pending.push(
        (parent, name, shard_of(meta, parent, computed_shard, now_ms)),
    );
    FsView {
        meta: meta.fetched(parent, now_ms).without_listing(parent),
        inline: if last {
            fs.inline.remove(inode)
        } else {
            fs.inline
        },
        limits: if last {
            fs.limits.remove(inode)
        } else {
            fs.limits
        },
        pending: if queued.len() >= UNLINK_BATCH {
            Seq::empty()
        } else {
            queued
        },
        ..fs
    }
}

/// The unlinks of one shard, in order.
pub open spec fn of_shard(v: Seq<(u64, Seq<char>, u64)>, shard: u64) -> Seq<(u64, Seq<char>)>
    decreases v.len(),
{
    if v.len() == 0 {
        Seq::empty()
    } else if v.last().2 == shard {
        of_shard(v.drop_last(), shard).push((v.last().0, v.last().1))
    } else {
        of_shard(v.drop_last(), shard)
    }
}

/// The shards of some unlinks, in the order in which they first occur.
pub open spec fn shards_of(v: Seq<(u64, Seq<char>, u64)>) -> Seq<u64>
    decreases v.len(),
{
    if v.len() == 0 {
        Seq::empty()
    } else {
        let before = shards_of(v.drop_last());
        if before.contains(v.last().2) {
            before
        } else {
            before.push(v.last().2)
        }
    }
}

/// Names in directories, with the names as characters.
pub open spec fn dir_names(v: Seq<(u64, String)>) -> Seq<(u64, Seq<char>)> {
    Seq::new(v.len(), |i: int| (v[i].0, v[i].1@))
}

/// The entry of a new symbolic link.
pub open spec fn link_entry(
    inode: u64,
    parent: u64,
    name: Seq<char>,
    target: Seq<char>,
    now: Now,
) -> EntryView {
    EntryView {
        is_symlink: true,
        symlink_target: Some(target),
        size: byte_len(target),
        mode: 0o777,
        atime: now.unix_secs,
        mtime: now.unix_secs,
        ctime: now.unix_secs,
        content_size: byte_len(target),
        ..blank_entry(inode, parent, name, now.mono_ms)
    }
}

/// The entry of a further name of a file.
pub open spec fn hard_link_entry(
    e: EntryView,
    inode: u64,
    parent: u64,
    name: Seq<char>,
    nlink: u32,
    now: Now,
) -> EntryView {
    EntryView {
        is_symlink: e.is_symlink,
        symlink_target: e.symlink_target,
        nlink,
        fid: e.fid,
        size: e.size,
        mode: e.mode,
        uid: e.uid,
        gid: e.gid,
        atime: e.atime,
        mtime: e.mtime,
        ctime: now.unix_secs,
        xattrs: e.xattrs,
        chunks: e.chunks,
        hard_link_id: e.hard_link_id,
        hard_link_counter: e.hard_link_counter,
        content_size: e.content_size,
        disk_size: e.disk_size,
        ..blank_entry(inode, parent, name, now.mono_ms)
    }
}

/// The mode with which a directory is made.
pub fn mkdir_mode(mode: u32) -> (r: u32)
    ensures
        r == mode | S_IFDIR,
{
    mode | S_IFDIR
}

/// The flag of a rename that must not replace anything.
pub fn rename_keeps_target(flags: u32) -> (r: bool)
    ensures
        r == (flags & 1 != 0),
{
    (flags & 1) != 0
}

/// Begin a walk from the root along a path.
pub fn begin_walk(path: &str) -> (r: PathWalk)
    ensures
        r.current == ROOT_INODE,
        r.next == 0,
        text::texts(r.parts@) == text::components_of(path@),
{
    PathWalk { current: ROOT_INODE, parts: text::components(path), next: 0 }
}

/// The path whose inode is the parent of the entry at `path`; none where the
/// path is empty or the root itself.
pub fn parent_to_resolve(path: &str) -> (r: Option<String>)
    ensures
        opt_text(r) == if path@.len() == 0 || path@ == text::root_path() {
            None
        } else {
            Some(text::parent_of(path@))
        },
{
    let p: String = path.to_owned();
    if path.is_empty() || text::is_root(&p) {
        None
    } else {
        Some(text::parent_path(path))
    }
}

/// Split unlinks by shard. Each shard occurs once, with its unlinks in order.
pub fn group_unlinks(entries: &Vec<(u64, String, u64)>) -> (r: Vec<(u64, Vec<(u64, String)>)>)
    ensures
        r@.len() == shards_of(unlinks(entries@)).len(),
        forall|i: int|
            0 <= i < r@.len() ==> {
                &&& (#[trigger] r@[i]).0 == shards_of(unlinks(entries@))[i]
                &&& dir_names(r@[i].1@) == of_shard(unlinks(entries@), r@[i].0)
            },
{
    let ghost all = unlinks(entries@);
    let mut shards: Vec<u64> = Vec::new();
    let mut i: usize = 0;
    assert(all.take(0) =~= Seq::<(u64, Seq<char>, u64)>::empty());
    while i < entries.len()
        invariant
            i <= entries.len(),
            all == unlinks(entries@),
            shards@ == shards_of(all.take(i as int)),
        decreases entries.len() - i,
    {
        assert(all.take(i as int + 1).drop_last() =~= all.take(i as int));
        assert(all.take(i as int + 1).last() == all[i as int]);
        if !crate::dirty::list_has(&shards, entries[i].2) {
            shards.push(entries[i].2);
        }
        i += 1;
    }
    assert(all.take(i as int) =~= all);
    let mut r: Vec<(u64, Vec<(u64, String)>)> = Vec::new();
    let mut k: usize = 0;
    while k < shards.len()
        invariant
            k <= shards.len(),
            all == unlinks(entries@),
            shards@ == shards_of(all),
            r@.len() == k,
            forall|i: int|
                0 <= i < k ==> {
                    &&& (#[trigger] r@[i]).0 == shards@[i]
                    &&& dir_names(r@[i].1@) == of_shard(all, r@[i].0)
                },
        decreases shards.len() - k,
    {
        let group: Vec<(u64, String)> = pick_shard(entries, shards[k]);
        r.push((shards[k], group));
        k += 1;
    }
    r
}

/// The unlinks of one shard.
fn pick_shard(entries: &Vec<(u64, String, u64)>, shard: u64) -> (r: Vec<(u64, String)>)
    ensures
        dir_names(r@) == of_shard(unlinks(entries@), shard),
{
    let ghost all = unlinks(entries@);
    let mut r: Vec<(u64, String)> = Vec::new();
    let mut i: usize = 0;
    assert(all.take(0) =~= Seq::<(u64, Seq<char>, u64)>::empty());
    assert(dir_names(r@) =~= Seq::<(u64, Seq<char>)>::empty());
    while i < entries.len()
        invariant
            i <= entries.len(),
            all == unlinks(entries@),
            dir_names(r@) == of_shard(all.take(i as int), shard),
        decreases entries.len() - i,
    {
        assert(all.take(i as int + 1).drop_last() =~= all.take(i as int));
        assert(all.take(i as int + 1).last() == all[i as int]);
        if entries[i].2 == shard {
            let ghost before = dir_names(r@);
            r.push((entries[i].0, entries[i].1.clone()));
            assert(dir_names(r@) =~= before.push((all[i as int].0, all[i as int].1)));
        }
        i += 1;
    }
    assert(all.take(i as int) =~= all);
    r
}

impl PowerFsFs {
    /// Compare the server's epoch with the cache's. Returns true if it changed:
    /// then everything cached is out of date, and all leases are void.
    pub fn check_cache_epoch(&mut self, epoch: u64, now_ms: u64) -> (changed: bool)
        requires
            old(self).wf(),
        ensures
            final(self).wf(),
            changed == (epoch != old(self)@.epoch),
            final(self)@ == epoch_checked(old(self)@, epoch, now_ms),
    {
        if epoch == self.last_cache_epoch {
            false
        } else {
            self.cache.invalidate_all(now_ms);
            self.last_cache_epoch = epoch;
            true
        }
    }

    /// Begin to look a name up.
    pub fn lookup_begin(&mut self, parent: u64, name: &str, now_ms: u64) -> (r: LookupStep)
        requires
            old(self).wf(),
        ensures
            final(self).wf(),
            if name@ == "."@ {
                r == LookupStep::Dot && final(self)@ == old(self)@
            } else if name@ == ".."@ {
                r == LookupStep::DotDot && final(self)@ == old(self)@
            } else {
                &&& r == lookup_plain(old(self)@, parent, name@, now_ms)
                &&& final(self)@ == FsView {
                    meta: old(self)@.meta.fetched_named(parent, name@, now_ms),
                    ..old(self)@
                }
            },
    {
        if text::same(name, ".") {
            return LookupStep::Dot;
        }
        if text::same(name, "..") {
            return LookupStep::DotDot;
        }
        if let Some(e) = self.cache.lookup_in_cache(parent, name, now_ms) {
            return LookupStep::Reply { entry: create_fuse_entry(&e) };
        }
        match self.cache.check_dentry_lease(parent, name, now_ms) {
            DentryLeaseStatus::LeaseValid | DentryLeaseStatus::SharedGenValid => {
                match self.cache.get_inode_by_name(parent, name) {
                    Some(e) => LookupStep::Reply { entry: create_fuse_entry(&e) },
                    None => LookupStep::Reply { entry: create_negative_entry() },
                }
            },
            DentryLeaseStatus::NegativeComplete => LookupStep::Reply {
                entry: create_negative_entry(),
            },
            DentryLeaseStatus::Expired | DentryLeaseStatus::Miss => LookupStep::Ask,
        }
    }

    /// The server answered a lookup: the entry is cached, with the directory's
    /// version and a lease where the server sent them. A name that the server
    /// does not know is answered as absent.
    pub fn lookup_finish(
        &mut self,
        parent: u64,
        name: &str,
        attr: Option<MetadataAttr>,
        now_ms: u64,
    ) -> (r: FuseEntry)
        requires
            old(self).wf(),
        ensures
            final(self).wf(),
            match attr {
                Some(a) => {
                    &&& r == fuse_entry_of(entry_of_attr(&a, parent, name@, now_ms))
                    &&& final(self)@ == FsView {
                        meta: lookup_stored(old(self)@.meta, parent, name@, &a, now_ms),
                        ..old(self)@
                    }
                },
                None => r == negative_entry() && final(self)@ == old(self)@,
            },
    {
        match attr {
            None => create_negative_entry(),
            Some(a) => {
                if a.dir_version > 0 {
                    self.cache.update_dir_version(parent, a.dir_version);
                }
                let e: CachedEntry = attr_to_cached_entry(&a, parent, name, now_ms);
                let reply: FuseEntry = create_fuse_entry(&e);
                self.cache.insert(e, now_ms);
                if a.dentry_lease_ttl_ms > 0 {
                    self.cache.grant_dentry_lease(
                        parent,
                        name,
                        a.dentry_lease_ttl_ms,
                        0,
                        now_ms,
                    );
                }
                reply
            },
        }
    }

    /// Look an inode itself up, as "." does. None where the server has to be
    /// asked.
    pub fn lookup_dot(&mut self, inode: u64, now_ms: u64) -> (r: Option<FuseEntry>)
        requires
            old(self).wf(),
        ensures
            final(self).wf(),
            final(self)@ == (FsView { meta: old(self)@.meta.fetched(inode, now_ms), ..old(self)@ }),
            r == match old(self)@.meta.answer(inode, now_ms) {
                Some(e) => Some(fuse_entry_of(e)),
                None => None,
            },
    {
        match self.cache.get_inode(inode, now_ms) {
            Some(e) => Some(create_fuse_entry(&e)),
            None => None,
        }
    }

    /// The inode that ".." of a directory stands for. The root is its own
    /// parent. None where the server has to be asked for the directory first.
    pub fn lookup_dotdot(&mut self, dir: u64, now_ms: u64) -> (r: Option<u64>)
        requires
            old(self).wf(),
        ensures
            final(self).wf(),
            if dir == ROOT_INODE {
                r == Some(ROOT_INODE) && final(self)@ == old(self)@
            } else {
                &&& final(self)@ == FsView {
                    meta: old(self)@.meta.fetched(dir, now_ms),
                    ..old(self)@
                }
                &&& r == match old(self)@.meta.answer(dir, now_ms) {
                    Some(e) => Some(above(e.parent)),
                    None => None,
                }
            },
    {
        if dir == ROOT_INODE {
            return Some(ROOT_INODE);
        }
        match self.cache.get_inode(dir, now_ms) {
            Some(e) => Some(
                if e.parent == 0 {
                    ROOT_INODE
                } else {
                    e.parent
                },
            ),
            None => None,
        }
    }

    /// The parent of an inode as the cache knows it, or the root.
    pub fn known_parent(&mut self, inode: u64, now_ms: u64) -> (r: u64)
        requires
            old(self).wf(),
        ensures
            final(self).wf(),
            final(self)@ == (FsView { meta: old(self)@.meta.fetched(inode, now_ms), ..old(self)@ }),
            r == match old(self)@.meta.answer(inode, now_ms) {
                Some(e) => e.parent,
                None => ROOT_INODE,
            },
    {
        match self.cache.get_inode(inode, now_ms) {
            Some(e) => e.parent,
            None => ROOT_INODE,
        }
    }

    /// Cache an entry that the server sent.
    pub fn cache_stored(&mut self, parent: u64, entry: &FilerEntry, now_ms: u64) -> (r: CachedEntry)
        requires
            old(self).wf(),
        ensures
            final(self).wf(),
            r@ == entry_of_stored(parent, entry, now_ms),
            final(self)@ == (FsView {
                meta: old(self)@.meta.inserted(r@, now_ms),
                ..old(self)@
            }),
    {
        let e: CachedEntry = entry_to_cached(parent, entry, now_ms);
        self.cache.insert(e.clone(), now_ms);
        e
    }

    /// Walk on along a path, as far as the cache answers.
    pub fn resolve_path_inode(&mut self, walk: &mut PathWalk, now_ms: u64) -> (r: WalkStep)
        requires
            old(self).wf(),
            old(walk).next <= old(walk).parts@.len(),
        ensures
            final(self).wf(),
            final(walk).parts == old(walk).parts,
            final(walk).next <= final(walk).parts@.len(),
            ({
                let w = walked(
                    old(self)@.meta,
                    old(walk).current,
                    text::texts(old(walk).parts@),
                    old(walk).next as int,
                    now_ms,
                );
                &&& final(self)@ == FsView { meta: w.meta, ..old(self)@ }
                &&& final(walk).current == w.current
                &&& final(walk).next == w.next
                &&& r == if w.next >= old(walk).parts@.len() {
                    WalkStep::Done { inode: w.current }
                } else {
                    WalkStep::Ask
                }
            }),
    {
        let ghost parts = text::texts(walk.parts@);
        let ghost goal = walked(self@.meta, walk.current, parts, walk.next as int, now_ms);
        while walk.next < walk.parts.len()
            invariant
                self.wf(),
                walk.parts == old(walk).parts,
                parts == text::texts(walk.parts@),
                walk.next <= walk.parts@.len(),
                self@ == (FsView { meta: self@.meta, ..old(self)@ }),
                goal == walked(
                    old(self)@.meta,
                    old(walk).current,
                    parts,
                    old(walk).next as int,
                    now_ms,
                ),
                goal == walked(self@.meta, walk.current, parts, walk.next as int, now_ms),
            decreases walk.parts@.len() - walk.next,
        {
            let found: Option<CachedEntry> = self.cache.lookup_in_cache(
                walk.current,
                walk.parts[walk.next].as_str(),
                now_ms,
            );
            match found {
                Some(e) => {
                    walk.current = e.inode;
                    walk.next = walk.next + 1;
                },
                None => {
                    return WalkStep::Ask;
                },
            }
        }
        WalkStep::Done { inode: walk.current }
    }

    /// The server answered for the next part of a path. Returns false if it
    /// knows no such name: the path leads nowhere.
    pub fn resolve_answered(
        &mut self,
        walk: &mut PathWalk,
        entry: Option<FilerEntry>,
        now_ms: u64,
    ) -> (found: bool)
        requires
            old(self).wf(),
            old(walk).next < old(walk).parts@.len(),
        ensures
            final(self).wf(),
            final(walk).parts == old(walk).parts,
            final(walk).next <= final(walk).parts@.len(),
            found == (entry is Some),
            match entry {
                Some(f) => {
                    let e = entry_of_stored(old(walk).current, &f, now_ms);
                    &&& final(self)@ == FsView {
                        meta: old(self)@.meta.inserted(e, now_ms),
                        ..old(self)@
                    }
                    &&& final(walk).current == e.inode
                    &&& final(walk).next == old(walk).next + 1
                },
                None => final(self)@ == old(self)@ && *final(walk) == *old(walk),
            },
    {
        let n: usize = walk.parts.len();
        assert(walk.next < n);
        match entry {
            Some(f) => {
                let e: CachedEntry = self.cache_stored(walk.current, &f, now_ms);
                walk.current = e.inode;
                walk.next = walk.next + 1;
                true
            },
            None => false,
        }
    }

    /// Whether a name exists, as far as the cache can tell. Where an entry stands
    /// under it that is out of date, the server has to be asked.
    pub fn entry_exists(&mut self, parent: u64, name: &str, now_ms: u64) -> (r: Existence)
        requires
            old(self).wf(),
        ensures
            final(self).wf(),
            final(self)@ == (FsView {
                meta: old(self)@.meta.fetched_named(parent, name@, now_ms),
                ..old(self)@
            }),
            r == if old(self)@.meta.answer_named(parent, name@, now_ms) is Some {
                Existence::Exists
            } else if old(self)@.meta.known_absent(parent, name@) {
                Existence::Absent
            } else {
                Existence::Ask
            },
    {
        if self.cache.lookup_in_cache(parent, name, now_ms).is_some() {
            return Existence::Exists;
        }
        proof {
            lemma_lookup_keeps_child(old(self)@.meta, parent, name@, now_ms);
        }
        match self.cache.check_dentry_lease(parent, name, now_ms) {
            DentryLeaseStatus::NegativeComplete => Existence::Absent,
            _ => Existence::Ask,
        }
    }

    /// The server made a directory or a special file: it is cached, and the
    /// listing of its directory goes.
    pub fn make_finish(&mut self, attr: &MetadataAttr, parent: u64, name: &str, now_ms: u64) -> (r:
        FuseEntry)
        requires
            old(self).wf(),
        ensures
            final(self).wf(),
            r == fuse_entry_of(entry_of_attr(attr, parent, name@, now_ms)),
            final(self)@ == (FsView {
                meta: old(self)@.meta.inserted(
                    entry_of_attr(attr, parent, name@, now_ms),
                    now_ms,
                ).without_listing(parent),
                ..old(self)@
            }),
    {
        let e: CachedEntry = attr_to_cached_entry(attr, parent, name, now_ms);
        let reply: FuseEntry = create_fuse_entry(&e);
        self.cache.insert(e, now_ms);
        self.cache.invalidate_dir(parent);
        reply
    }

    /// The server removed a directory: whatever is cached under its name goes,
    /// out of date or not.
    pub fn rmdir_finish(&mut self, parent: u64, name: &str, now_ms: u64)
        requires
            old(self).wf(),
        ensures
            final(self).wf(),
            ({
                let looked = old(self)@.meta.fetched_named(parent, name@, now_ms);
                final(self)@ == FsView {
                    meta: looked.cleared(parent, name@, None).without_listing(parent),
                    ..old(self)@
                }
            }),
            final(self)@.meta.child(parent, name@) is None,
    {
        let _known: Option<CachedEntry> = self.cache.lookup_in_cache(parent, name, now_ms);
        proof {
            law_cleared_names_are_gone(self@.meta, parent, name@, None);
        }
        self.cache.clear_children(parent, name, None);
        self.cache.invalidate_dir(parent);
    }

    /// The server renamed an entry: so does the cache, as far as it can answer
    /// for it. Nothing stays under the old name, and under the new one nothing
    /// but what moved there.
    pub fn rename_finish(
        &mut self,
        olddir: u64,
        oldname: &str,
        newdir: u64,
        newname: &str,
        now: Now,
    )
        requires
            old(self).wf(),
        ensures
            final(self).wf(),
            final(self)@ == (FsView {
                meta: old(self)@.meta.renamed(olddir, oldname@, newdir, newname@, now),
                ..old(self)@
            }),
            olddir != newdir || oldname@ != newname@ ==> final(self)@.meta.child(
                olddir,
                oldname@,
            ) is None,
            final(self)@.meta.child(newdir, newname@) matches Some(k) ==> (old(
                self,
            )@.meta.answer_named(olddir, oldname@, now.mono_ms) matches Some(e) && e.inode == k),
    {
        self.cache.rename_stored(olddir, oldname, newdir, newname, now);
    }

    /// Begin to unlink a name. It fails only where the name is known not to
    /// exist; where an entry stands under it that is out of date, the server has
    /// to be asked.
    pub fn unlink_begin(&mut self, parent: u64, name: &str, now_ms: u64) -> (r: UnlinkStep)
        requires
            old(self).wf(),
        ensures
            final(self).wf(),
            final(self)@ == (FsView {
                meta: old(self)@.meta.fetched_named(parent, name@, now_ms),
                ..old(self)@
            }),
            match old(self)@.meta.answer_named(parent, name@, now_ms) {
                Some(e) => r matches UnlinkStep::Found { entry } && entry@ == e,
                None => r == if old(self)@.meta.known_absent(parent, name@) {
                    UnlinkStep::Fail { errno: ENOENT }
                } else {
                    UnlinkStep::Ask
                },
            },
    {
        if let Some(e) = self.cache.lookup_in_cache(parent, name, now_ms) {
            return UnlinkStep::Found { entry: e };
        }
        proof {
            lemma_lookup_keeps_child(old(self)@.meta, parent, name@, now_ms);
        }
        match self.cache.check_dentry_lease(parent, name, now_ms) {
            DentryLeaseStatus::NegativeComplete => UnlinkStep::Fail { errno: ENOENT },
            _ => UnlinkStep::Ask,
        }
    }

    /// The server sent the attributes of a name that is to be unlinked.
    pub fn unlink_fetched(&mut self, parent: u64, name: &str, attr: &MetadataAttr, now_ms: u64)
        -> (r: CachedEntry)
        requires
            old(self).wf(),
        ensures
            final(self).wf(),
            r@ == entry_of_attr(attr, parent, name@, now_ms),
            final(self)@ == (FsView {
                meta: old(self)@.meta.inserted(r@, now_ms),
                ..old(self)@
            }),
    {
        let e: CachedEntry = attr_to_cached_entry(attr, parent, name, now_ms);
        self.cache.insert(e.clone(), now_ms);
        e
    }

    /// Unlink a name in the cache, and queue the unlink for the server. With
    /// its last name a file goes, with its buffer and its cap; else only the
    /// path goes. A full queue is handed out.
    pub fn unlink_apply(
        &mut self,
        inode: u64,
        parent: u64,
        name: &str,
        computed_shard: u64,
        now_ms: u64,
    ) -> (r: Unlinked)
        requires
            old(self).wf(),
        ensures
            final(self).wf(),
            final(self)@ == unlink_applied(
                old(self)@,
                inode,
                parent,
                name@,
                computed_shard,
                now_ms,
            ),
            r.last_name == (old(self)@.meta.has(inode) && old(self)@.meta.entries[inode].nlink
                <= 1),
            opt_cap(r.cap) == if r.last_name {
                old(self)@.meta.unlinked_once(inode).cap_flushed(inode).cap_of(inode)
            } else {
                None
            },
            ({
                let meta = unlinked_meta(old(self)@.meta, inode, parent, name@, now_ms);
                let queued = old(self)@.pending.push(
                    (parent, name@, shard_of(meta, parent, computed_shard, now_ms)),
                );
                unlinks(r.batch@) == if queued.len() >= UNLINK_BATCH {
                    queued
                } else {
                    Seq::empty()
                }
            }),
    {
        let last_name: bool = self.cache.dec_nlink(inode);
        let mut cap: Option<ClientCap> = None;
        if last_name {
            self.cache.mark_cap_flushed(inode);
            cap = self.cache.take_cap(inode);
            self.cache.remove(inode);
            let _had: bool = buffers_remove(&mut self.inline_buffers, inode);
            limits_remove(&mut self.inline_max_sizes, inode);
            self.cache.clear_children(parent, name, None);
        } else {
            if let Some(dir) = self.cache.inode_to_path(parent) {
                let path: String = text::join_one(dir, name);
                self.cache.remove_path(inode, path.as_str(), now_ms);
            }
            self.cache.clear_children(parent, name, Some(inode));
        }
        let shard: u64 = self.routing_shard(parent, computed_shard, now_ms);
        let ghost before = self@.pending;
        self.pending_unlinks.push((parent, name.to_owned(), shard));
        assert(self@.pending =~= before.push((parent, name@, shard)));
        let batch: Vec<(u64, String, u64)> = if self.pending_unlinks.len() >= UNLINK_BATCH {
            self.take_pending_unlinks()
        } else {
            let none: Vec<(u64, String, u64)> = Vec::new();
            assert(unlinks(none@) =~= Seq::<(u64, Seq<char>, u64)>::empty());
            none
        };
        self.cache.invalidate_dir(parent);
        Unlinked { last_name, cap, batch }
    }

    /// Take the queued unlinks out of the queue.
    pub fn take_pending_unlinks(&mut self) -> (r: Vec<(u64, String, u64)>)
        requires
            old(self).wf(),
        ensures
            final(self).wf(),
            unlinks(r@) == old(self)@.pending,
            final(self)@ == (FsView { pending: Seq::empty(), ..old(self)@ }),
    {
        let mut r: Vec<(u64, String, u64)> = Vec::new();
        r.append(&mut self.pending_unlinks);
        assert(unlinks(r@) =~= old(self)@.pending);
        assert(self@.pending =~= Seq::<(u64, Seq<char>, u64)>::empty());
        r
    }

    /// The server made a symbolic link.
    pub fn symlink_finish(&mut self, inode: u64, parent: u64, name: &str, target: &str, now: Now)
        -> (r: FuseEntry)
        requires
            old(self).wf(),
        ensures
            final(self).wf(),
            r == fuse_entry_of(link_entry(inode, parent, name@, target@, now)),
            final(self)@ == (FsView {
                meta: old(self)@.meta.inserted(
                    link_entry(inode, parent, name@, target@, now),
                    now.mono_ms,
                ),
                ..old(self)@
            }),
    {
        let mut e: CachedEntry = make_blank(inode, parent, name, now.mono_ms);
        let size: u64 = text_bytes(target);
        e.is_symlink = true;
        e.symlink_target = Some(target.to_owned());
        e.size = size;
        e.mode = 0o777;
        e.atime = now.unix_secs;
        e.mtime = now.unix_secs;
        e.ctime = now.unix_secs;
        e.content_size = size;
        let reply: FuseEntry = create_fuse_entry(&e);
        self.cache.insert(e, now.mono_ms);
        reply
    }

    /// Begin to give a file a further name: it must be cached, and no
    /// directory.
    pub fn link_begin(&mut self, inode: u64, now_ms: u64) -> (r: Result<CachedEntry, i32>)
        requires
            old(self).wf(),
        ensures
            final(self).wf(),
            final(self)@ == (FsView { meta: old(self)@.meta.fetched(inode, now_ms), ..old(self)@ }),
            match old(self)@.meta.answer(inode, now_ms) {
                Some(e) => if e.is_dir {
                    r == Err::<CachedEntry, i32>(EPERM)
                } else {
                    r matches Ok(c) && c@ == e
                },
                None => r == Err::<CachedEntry, i32>(ENOENT),
            },
    {
        match self.cache.get_inode(inode, now_ms) {
            None => Err(ENOENT),
            Some(e) => if e.is_dir {
                Err(EPERM)
            } else {
                Ok(e)
            },
        }
    }

    /// The server gave a file a further name.
    pub fn link_finish(
        &mut self,
        entry: &CachedEntry,
        inode: u64,
        newparent: u64,
        newname: &str,
        now: Now,
    ) -> (r: FuseEntry)
        requires
            old(self).wf(),
            old(self)@.meta.has(inode) ==> old(self)@.meta.entries[inode].nlink < u32::MAX,
        ensures
            final(self).wf(),
            ({
                let v = old(self)@.meta;
                let n = if v.has(inode) {
                    (v.entries[inode].nlink + 1) as u32
                } else {
                    0
                };
                let counted = v.alter(inode, EntryView { nlink: n, ..v.entries[inode] });
                let e = hard_link_entry(entry@, inode, newparent, newname@, n, now);
                &&& r == fuse_entry_of(e)
                &&& final(self)@ == FsView {
                    meta: counted.inserted(e, now.mono_ms),
                    ..old(self)@
                }
            }),
    {
        self.cache.inc_nlink(inode);
        let mut e: CachedEntry = make_blank(inode, newparent, newname, now.mono_ms);
        e.is_symlink = entry.is_symlink;
        e.symlink_target = copy_opt_string(&entry.symlink_target);
        e.nlink = self.cache.get_nlink(inode);
        e.fid = entry.fid;
        e.size = entry.size;
        e.mode = entry.mode;
        e.uid = entry.uid;
        e.gid = entry.gid;
        e.atime = entry.atime;
        e.mtime = entry.mtime;
        e.ctime = now.unix_secs;
        e.xattrs = entry.xattrs.duplicate();
        e.chunks = crate::entry::copy_chunks(&entry.chunks);
        e.hard_link_id = entry.hard_link_id.clone();
        e.hard_link_counter = entry.hard_link_counter;
        e.content_size = entry.content_size;
        e.disk_size = entry.disk_size;
        let reply: FuseEntry = create_fuse_entry(&e);
        self.cache.insert(e, now.mono_ms);
        reply
    }

    /// Whether an inode is a directory whose listing may be read: `None` where
    /// the server has to be asked.
    pub fn readdir_begin(&mut self, inode: u64, now_ms: u64) -> (r: Option<(bool, u64)>)
        requires
            old(self).wf(),
        ensures
            final(self).wf(),
            final(self)@ == (FsView { meta: old(self)@.meta.fetched(inode, now_ms), ..old(self)@ }),
            r == match old(self)@.meta.answer(inode, now_ms) {
                Some(e) => Some(
                    (
                        e.is_dir,
                        if inode == ROOT_INODE {
                            ROOT_INODE
                        } else {
                            e.parent
                        },
                    ),
                ),
                None => None,
            },
    {
        match self.cache.get_inode(inode, now_ms) {
            Some(e) => Some(
                (
                    e.is_dir,
                    if inode == ROOT_INODE {
                        ROOT_INODE
                    } else {
                        e.parent
                    },
                ),
            ),
            None => None,
        }
    }

    /// The name behind which the next page of a listing starts. A listing that
    /// starts over forgets where it was.
    pub fn readdir_cursor(&mut self, inode: u64, offset: u64) -> (r: String)
        requires
            old(self).wf(),
        ensures
            final(self).wf(),
            r@ == cursor_of(old(self)@.cursors, inode, offset),
            final(self)@ == if offset == 0 {
                FsView { cursors: old(self)@.cursors.remove(inode), ..old(self)@ }
            } else {
                old(self)@
            },
    {
        if offset == 0 {
            cursors_remove(&mut self.readdir_cursors, inode);
            String::new()
        } else {
            match cursors_get(&self.readdir_cursors, inode) {
                Some(c) => c,
                None => String::new(),
            }
        }
    }

    /// A row of a listing went to the kernel. Attributes that came with it are
    /// cached as a hint, out of date from the start, unless the cache has an
    /// answer for the inode.
    pub fn readdir_emitted(&mut self, dir: u64, row: &MetadataDirEntry, now_ms: u64)
        requires
            old(self).wf(),
        ensures
            final(self).wf(),
            final(self)@ == row_listed(old(self)@, dir, *row, now_ms),
    {
        if let Some(attr) = &row.attrs {
            if self.cache.get_inode(row.inode, now_ms).is_none() {
                let e: CachedEntry = row_to_cached(dir, row, attr, now_ms);
                self.cache.insert(e, now_ms);
                self.cache.mark_stale(row.inode);
            }
        }
    }

    /// A page of a listing is done: the next one starts behind the last name
    /// that the kernel took. A listing from the start makes the directory
    /// count as listed in full at its present version, unless a row that was
    /// taken is not cached: then it does not, and no more.
    pub fn readdir_end(
        &mut self,
        inode: u64,
        offset: u64,
        last_name: Option<String>,
        all_cached: bool,
    )
        requires
            old(self).wf(),
        ensures
            final(self).wf(),
            final(self)@ == listing_ended(
                old(self)@,
                inode,
                offset,
                opt_text(last_name),
                all_cached,
            ),
    {
        if let Some(n) = last_name {
            cursors_insert(&mut self.readdir_cursors, inode, n);
        }
        if !all_cached {
            self.cache.mark_dir_incomplete(inode);
        } else if offset == 0 {
            let version: u64 = self.cache.get_dir_version(inode);
            self.cache.mark_dir_complete(inode, version);
        }
    }
}

impl PowerFsFs {
    /// The kernel took the first `taken` rows of a page and refused the others:
    /// the rows that it took are worked off one by one, and the next page starts
    /// behind the last of them.
    pub fn readdir_page(
        &mut self,
        dir: u64,
        offset: u64,
        rows: &Vec<MetadataDirEntry>,
        taken: usize,
        now_ms: u64,
    )
        requires
            old(self).wf(),
            taken <= rows@.len(),
        ensures
            final(self).wf(),
            final(self)@ == page_listed(old(self)@, dir, offset, rows@, taken as int, now_ms),
    {
        let mut i: usize = 0;
        while i < taken
            invariant
                i <= taken <= rows@.len(),
                self.wf(),
                self@ == rows_listed(old(self)@, dir, rows@, i as int, now_ms),
            decreases taken - i,
        {
            self.readdir_emitted(dir, &rows[i], now_ms);
            i += 1;
        }
        let last_name: Option<String> = if taken > 0 {
            Some(rows[taken - 1].name.clone())
        } else {
            None
        };
        let mut all_cached: bool = true;
        let mut i: usize = 0;
        while i < taken
            invariant
                i <= taken <= rows@.len(),
                self.wf(),
                self@ == rows_listed(old(self)@, dir, rows@, taken as int, now_ms),
                all_cached == forall|j: int|
                    0 <= j < i ==> row_cached(self@.meta, dir, #[trigger] rows@[j]),
            decreases taken - i,
        {
            let row: &MetadataDirEntry = &rows[i];
            let cached: bool = match self.cache.peek_inode(row.inode) {
                Some(e) => e.parent == dir && e.name == row.name && row.inode != dir,
                None => false,
            };
            assert(cached == row_cached(self@.meta, dir, rows@[i as int]));
            if !cached {
                all_cached = false;
            }
            i += 1;
        }
        self.readdir_end(dir, offset, last_name, all_cached);
    }
}

/// The state after a row of a listing went to the kernel.
pub open spec fn row_listed(fs: FsView, dir: u64, row: MetadataDirEntry, now_ms: u64) -> FsView {
    match row.attrs {
        Some(attr) => {
            let looked = fs.meta.fetched(row.inode, now_ms);
            FsView {
                meta: if fs.meta.answer(row.inode, now_ms) is None {
                    looked.inserted(entry_of_row(dir, &row, &attr, now_ms), now_ms).stepped(
                        row.inode,
                        EntryState::Stale,
                    )
                } else {
                    looked
                },
                ..fs
            }
        },
        None => fs,
    }
}

/// The state after the first `n` rows of a page went to the kernel.
pub open spec fn rows_listed(
    fs: FsView,
    dir: u64,
    rows: Seq<MetadataDirEntry>,
    n: int,
    now_ms: u64,
) -> FsView
    decreases n,
{
    if n <= 0 {
        fs
    } else {
        row_listed(rows_listed(fs, dir, rows, n - 1, now_ms), dir, rows[n - 1], now_ms)
    }
}

/// The row stands in the cache as a child of its directory.
pub open spec fn row_cached(meta: MetaView, dir: u64, row: MetadataDirEntry) -> bool {
    &&& meta.has(row.inode)
    &&& meta.entries[row.inode].parent == dir
    &&& meta.entries[row.inode].name == row.name@
    &&& row.inode != dir
}

/// The state at the end of a page, given whether every row that was taken is
/// cached.
pub open spec fn listing_ended(
    fs: FsView,
    dir: u64,
    offset: u64,
    last_name: Option<Seq<char>>,
    all_cached: bool,
) -> FsView {
    FsView {
        cursors: match last_name {
            Some(n) => fs.cursors.insert(dir, n),
            None => fs.cursors,
        },
        meta: if !all_cached {
            fs.meta.not_complete(dir)
        } else if offset == 0 {
            MetaView {
                complete_dirs: fs.meta.complete_dirs.insert(dir, fs.meta.dir_version(dir)),
                ..fs.meta
            }
        } else {
            fs.meta
        },
        ..fs
    }
}

/// The state after a page of which the kernel took the first `taken` rows.
pub open spec fn page_listed(
    fs: FsView,
    dir: u64,
    offset: u64,
    rows: Seq<MetadataDirEntry>,
    taken: int,
    now_ms: u64,
) -> FsView {
    let listed = rows_listed(fs, dir, rows, taken, now_ms);
    listing_ended(
        listed,
        dir,
        offset,
        if taken > 0 {
            Some(rows[taken - 1].name@)
        } else {
            None
        },
        forall|i: int| 0 <= i < taken ==> row_cached(listed.meta, dir, #[trigger] rows[i]),
    )
}

/// The name behind which a page starts.
pub open spec fn cursor_of(cursors: Map<u64, Seq<char>>, dir: u64, offset: u64) -> Seq<char> {
    if offset != 0 && cursors.contains_key(dir) {
        cursors[dir]
    } else {
        Seq::empty()
    }
}

/// Which of the rows "." and ".." a page that starts at `offset` has.
pub open spec fn dots_of(offset: u64) -> (bool, bool) {
    (offset == 0, offset <= 1)
}

/// Which of the rows "." and ".." a page that starts at `offset` has.
pub fn dot_rows(offset: u64) -> (r: (bool, bool))
    ensures
        r == dots_of(offset),
{
    (offset == 0, offset <= 1)
}

/// True if the kernel took a row, so that the listing goes on: a count of 0 says
/// that its buffer is full.
pub fn row_taken(added: Option<usize>) -> (go_on: bool)
    ensures
        go_on == (added matches Some(n) && n > 0),
{
    match added {
        Some(n) => n > 0,
        None => false,
    }
}

/// A name that was just listed is never taken for absent: after a page, an unlink
/// of a row that the kernel took finds the entry or asks the server, and so does
/// a test whether the name exists.
pub proof fn law_listed_names_are_not_absent(
    fs: FsView,
    dir: u64,
    offset: u64,
    rows: Seq<MetadataDirEntry>,
    taken: int,
    now_ms: u64,
    i: int,
)
    requires
        0 <= i < taken <= rows.len(),
        page_listed(fs, dir, offset, rows, taken, now_ms).meta.wf(),
    ensures
        !page_listed(fs, dir, offset, rows, taken, now_ms).meta.known_absent(dir, rows[i].name@),
{
    let after = page_listed(fs, dir, offset, rows, taken, now_ms).meta;
    let listed = rows_listed(fs, dir, rows, taken, now_ms).meta;
    if after.is_complete(dir) {
        assert(row_cached(listed, dir, rows[i]));
        lemma_child_is_cached(after, dir, rows[i].name@, None, after.order);
        assert(after.has(rows[i].inode));
        assert(after.order.contains(rows[i].inode));
        let j = choose|j: int| 0 <= j < after.order.len() && after.order[j] == rows[i].inode;
        assert(after.order[j] == rows[i].inode);
    }
}

/// The names of a directory behind `last`, in the server's order; all of them
/// where `last` is empty.
pub open spec fn names_behind(all: Seq<Seq<char>>, last: Seq<char>) -> Seq<Seq<char>> {
    if last.len() == 0 {
        all
    } else {
        all.skip(all.index_of(last) + 1)
    }
}

proof fn lemma_rows_keep_cursors(
    fs: FsView,
    dir: u64,
    rows: Seq<MetadataDirEntry>,
    n: int,
    now_ms: u64,
)
    ensures
        rows_listed(fs, dir, rows, n, now_ms).cursors == fs.cursors,
    decreases n,
{
    if n > 0 {
        lemma_rows_keep_cursors(fs, dir, rows, n - 1, now_ms);
    }
}

/// A listing that goes on skips no name and offers a refused one again: after a
/// page of which the kernel took the first `taken` rows, the server is asked for
/// exactly the names behind them. That page has neither "." nor "..", and its
/// offsets count on from where it starts.
pub proof fn law_listing_resumes(
    fs: FsView,
    dir: u64,
    offset: u64,
    all: Seq<Seq<char>>,
    rows: Seq<MetadataDirEntry>,
    taken: int,
    resume: u64,
    now_ms: u64,
)
    requires
        all.no_duplicates(),
        forall|i: int| 0 <= i < all.len() ==> (#[trigger] all[i]).len() > 0,
        0 <= taken <= rows.len(),
        rows.len() <= names_behind(all, cursor_of(fs.cursors, dir, offset)).len(),
        forall|i: int|
            0 <= i < rows.len() ==> (#[trigger] rows[i]).name@ == names_behind(
                all,
                cursor_of(fs.cursors, dir, offset),
            )[i],
        cursor_of(fs.cursors, dir, offset).len() > 0 ==> all.contains(
            cursor_of(fs.cursors, dir, offset),
        ),
        offset == 0 ==> !fs.cursors.contains_key(dir),
        resume >= 2,
    ensures
        ({
            let after = page_listed(fs, dir, offset, rows, taken, now_ms);
            let was = names_behind(all, cursor_of(fs.cursors, dir, offset));
            let next = names_behind(all, cursor_of(after.cursors, dir, resume));
            &&& taken > 0 ==> cursor_of(after.cursors, dir, resume) == rows[taken - 1].name@
            &&& next == was.skip(taken)
            &&& taken < rows.len() ==> next[0] == rows[taken].name@
        }),
        dots_of(resume) == (false, false),
        forall|i: int| 0 <= i ==> #[trigger] row_offset_of(resume, i) == resume + i + 1,
{
    lemma_rows_keep_cursors(fs, dir, rows, taken, now_ms);
    let start = cursor_of(fs.cursors, dir, offset);
    let was = names_behind(all, start);
    let after = page_listed(fs, dir, offset, rows, taken, now_ms);
    let base = if start.len() == 0 {
        0
    } else {
        all.index_of(start) + 1
    };
    if start.len() > 0 {
        assert(0 <= all.index_of(start) < all.len());
    }
    assert(was =~= all.skip(base));
    if taken > 0 {
        let last = rows[taken - 1].name@;
        assert(last == was[taken - 1]);
        let at = base + taken - 1;
        assert(all[at] == last);
        assert(all.contains(last));
        let k = all.index_of(last);
        assert(all[k] == last);
        assert(k == at);
        assert(names_behind(all, last) =~= was.skip(taken));
    } else {
        assert(was.skip(0) =~= was);
    }
    if taken < rows.len() {
        assert(was.skip(taken)[0] == was[taken]);
    }
}

/// The directory above: an unknown one counts as the root.
pub open spec fn above(parent: u64) -> u64 {
    if parent == 0 {
        ROOT_INODE
    } else {
        parent
    }
}

/// The offset of row `i` of a page that starts at `offset`: rows are counted
/// on from page to page, behind the two rows for "." and "..".
pub open spec fn row_offset_of(offset: u64, i: int) -> int {
    (if offset > 2 {
        offset as int
    } else {
        2
    }) + i + 1
}

/// The offset of row `i` of a page that starts at `offset`.
pub fn row_offset(offset: u64, i: u64) -> (r: u64)
    requires
        row_offset_of(offset, i as int) <= u64::MAX,
    ensures
        r == row_offset_of(offset, i as int),
{
    let base: u64 = if offset > 2 {
        offset
    } else {
        2
    };
    base + i + 1
}

/// Row offsets never go back: not within a page, and not from one page to a
/// page that resumes behind it.
pub proof fn law_row_offsets_grow(offset: u64, i: int, j: int, resume: u64, k: int)
    requires
        0 <= i < j,
        0 <= k,
        resume >= row_offset_of(offset, j),
    ensures
        row_offset_of(offset, i) < row_offset_of(offset, j),
        row_offset_of(offset, j) < row_offset_of(resume, k),
        row_offset_of(offset, i) > 2,
{
}

} // verus!
