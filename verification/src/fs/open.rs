//! Opening, creating and closing files.

use super::data_laws::{lemma_lists_differ, lists_differ};
use super::read::inline_arrived;
use super::{FsView, PowerFsFs};
use crate::chunk_cache::{has_any_chunk, has_dirty};
use crate::client_cap::{CapSet, ClientCap, CAP_R, EXCLUSIVE};
use crate::entry::{
    cached_chunks, chunks_from_proto, opt_cap, CachedEntry, CachedFileChunk, EntryState, EntryView,
    Fid, Now, VolumeId, ROOT_INODE,
};
use crate::inline::{
    buffers_get, buffers_has, buffers_insert, buffers_remove, created_buffer, limits_insert,
    limits_remove, InlineBuffer, InlineView, INLINE_HARD_LIMIT,
};
use crate::layout::{chunks_match, same_chunks};
use crate::meta_model::MetaView;
use crate::records::{
    as_unsigned, blank_entry, create_fuse_entry, entry_of_stored, entry_to_cached, fid_of,
    fuse_entry_of, make_blank, to_unsigned, FilerEntry, FuseEntry, MetadataAttr, S_IFDIR, S_IFMT,
    S_IFREG,
};
use crate::scan::{EIO, EISDIR};
use vstd::prelude::*;

verus! {

/// The bits of the open flags that tell reading from writing.
pub const O_ACCMODE: u32 = 3;

/// What the opening of a file has to do next.
#[derive(Debug)]
pub enum OpenStep {
    /// The file cannot be opened.
    Fail { errno: i32 },
    /// The file is cached, but its entry may be out of date: ask the server.
    Refresh { entry: CachedEntry },
    /// The file is not cached: ask the server.
    Fetch,
    /// The cached entry can be trusted.
    Ready,
}

/// Which leases of a closed file are given back.
#[derive(Debug, Clone, Copy, PartialEq, Eq, Structural)]
pub enum LeaseRelease {
    /// None.
    Keep,
    /// Those for reading and for writing.
    All { volume_id: u64 },
    /// Only those for reading: the flush will be tried again.
    ReadsOnly { volume_id: u64 },
}

/// What is left to do when a file was closed.
#[derive(Debug)]
pub struct Closed {
    pub result: Result<(), i32>,
    /// The cap to give back.
    pub cap: Option<ClientCap>,
    /// The server counts one handle less.
    pub count_down: bool,
    pub lease: LeaseRelease,
}

/// The open handles after one more was opened.
pub open spec fn opened(open: Map<u64, usize>, inode: u64) -> Map<u64, usize> {
    open.insert(
        inode,
        if open.contains_key(inode) {
            (open[inode] + 1) as usize
        } else {
            1
        },
    )
}

/// The open handles after one was closed.
pub open spec fn closed_once(open: Map<u64, usize>, inode: u64) -> Map<u64, usize> {
    if !open.contains_key(inode) {
        open
    } else if open[inode] <= 1 {
        open.remove(inode)
    } else {
        open.insert(inode, (open[inode] - 1) as usize)
    }
}

/// One more handle on the inode can be counted.
pub open spec fn can_open(fs: FsView, inode: u64) -> bool {
    &&& fs.open.contains_key(inode) ==> fs.open[inode] < usize::MAX
    &&& fs.meta.has(inode) ==> fs.meta.entries[inode].hold.count() < u32::MAX
}

/// The file has data that the server has not seen.
pub open spec fn has_unsynced(fs: FsView, inode: u64) -> bool {
    has_dirty(fs.chunks.chunks, inode) || (fs.inline.contains_key(inode) && fs.inline[inode].dirty)
}

/// The open file was written for.
pub open spec fn is_write_open(flags: u32) -> bool {
    flags & O_ACCMODE != 0
}

/// True if a file was opened for writing.
pub fn opened_for_writing(flags: u32) -> (r: bool)
    ensures
        r == is_write_open(flags),
{
    (flags & O_ACCMODE) != 0
}

/// The caps that an open asks for.
pub open spec fn wanted_caps(writing: bool) -> CapSet {
    if writing {
        CapSet(EXCLUSIVE)
    } else {
        CapSet(CAP_R)
    }
}

/// The entry that an open takes over from the server: the placement of a file
/// never changes and is not part of the answer.
pub open spec fn refreshed_entry(e: EntryView, fresh: EntryView) -> EntryView {
    EntryView {
        placement: e.placement,
        fid: if e.placement is Some {
            None
        } else {
            fresh.fid
        },
        ..fresh
    }
}

/// The state after the server's copy of an open file's entry came in.
///
/// Where the local file is longer and has data in the cache, the server is
/// behind, and nothing changes. Otherwise the server's entry is taken over.
/// The cached data goes where the server lists other chunks; an empty list
/// beside a local one only means that the server is behind.
pub open spec fn open_refreshed_to(
    fs: FsView,
    inode: u64,
    e: EntryView,
    fresh: EntryView,
    now_ms: u64,
) -> FsView {
    let local_data = has_any_chunk(fs.chunks.chunks, inode);
    if e.content_size > fresh.content_size && local_data {
        fs
    } else {
        let behind = fresh.chunks.len() == 0 && e.chunks.len() > 0;
        let taken = fs.meta.inserted_pinned(refreshed_entry(e, fresh), now_ms);
        FsView {
            meta: if local_data {
                taken
            } else {
                taken.content_size_set(inode, fresh.content_size)
            },
            chunks: if !behind && !same_chunks(e.chunks, fresh.chunks) {
                fs.chunks.dropped(inode)
            } else {
                fs.chunks
            },
            ..fs
        }
    }
}

/// A buffer that another client's write has made worthless.
pub open spec fn buffer_outdated(b: InlineView, size: u64) -> bool {
    !b.dirty && (b.needs_refresh || size != b.data.len())
}

/// The file's data is on a volume.
pub open spec fn is_flat(meta: MetaView, inode: u64, now_ms: u64) -> bool {
    match meta.answer(inode, now_ms) {
        Some(e) => e.fid is Some,
        None => false,
    }
}

/// The size of a cached file; 0 where it is not cached.
pub open spec fn known_size(meta: MetaView, inode: u64, now_ms: u64) -> u64 {
    match meta.answer(inode, now_ms) {
        Some(e) => e.size,
        None => 0,
    }
}

/// The entry of a file that was just created.
pub open spec fn created_entry(
    attr: &MetadataAttr,
    parent: u64,
    name: Seq<char>,
    mode: u32,
    uid: u32,
    gid: u32,
    now: Now,
) -> EntryView {
    EntryView {
        mode: mode | S_IFREG,
        uid,
        gid,
        atime: now.unix_secs,
        mtime: now.unix_secs,
        ctime: now.unix_secs,
        fid: if attr.is_inline || attr.striped() {
            None
        } else {
            Some(fid_of(attr.volume_id->0, attr.file_key->0))
        },
        chunks: if attr.is_inline {
            Seq::empty()
        } else if attr.striped() {
            cached_chunks(attr.chunks@)
        } else {
            seq![
                CachedFileChunk {
                    offset: 0,
                    size: 0,
                    mtime: as_unsigned(now.unix_secs),
                    needle_id: attr.file_key->0,
                    volume_id: attr.volume_id->0,
                    crc32: 0,
                },
            ]
        },
        placement: if !attr.is_inline && attr.striped() {
            attr.placement
        } else {
            None
        },
        ..blank_entry(attr.inode, parent, name, now.mono_ms)
    }
}

/// The server placed the data of a new file.
pub open spec fn is_placed(attr: &MetadataAttr) -> bool {
    attr.is_inline || attr.striped() || (attr.volume_id is Some && attr.file_key is Some)
}

/// The state after a file was created: its directory's listing goes, and the
/// file is open. One whose data lives in its metadata record gets a buffer.
pub open spec fn created(
    fs: FsView,
    attr: &MetadataAttr,
    parent: u64,
    name: Seq<char>,
    mode: u32,
    uid: u32,
    gid: u32,
    now: Now,
) -> FsView {
    let listed = fs.meta.without_listing(parent);
    if !is_placed(attr) {
        FsView { meta: listed, ..fs }
    } else {
        FsView {
            meta: listed.inserted_pinned(
                created_entry(attr, parent, name, mode, uid, gid, now),
                now.mono_ms,
            ),
            open: opened(fs.open, attr.inode),
            inline: if attr.is_inline {
                fs.inline.insert(attr.inode, created_buffer())
            } else {
                fs.inline
            },
            limits: if attr.is_inline {
                fs.limits.insert(
                    attr.inode,
                    match attr.inline_max_size {
                        Some(n) => n,
                        None => INLINE_HARD_LIMIT as u32,
                    },
                )
            } else {
                fs.limits
            },
            ..fs
        }
    }
}

/// The handle is the last one.
pub open spec fn is_last(meta: MetaView, inode: u64) -> bool {
    meta.has(inode) && meta.entries[inode].hold is Pinned && meta.entries[inode].hold.count() <= 1
}

/// The state after a file with an inline buffer was closed. `synced` tells
/// whether the buffer reached the server.
pub open spec fn inline_closed(fs: FsView, inode: u64, synced: bool, now_ms: u64) -> FsView {
    let m0 = if synced {
        fs.meta
    } else {
        fs.meta.stepped(inode, EntryState::Dirty)
    };
    let last = is_last(m0, inode);
    let m1 = m0.unpinned(inode);
    let dirty = fs.inline.contains_key(inode) && fs.inline[inode].dirty;
    let empty = !fs.inline.contains_key(inode) || fs.inline[inode].data.len() == 0;
    let drop_it = last && !dirty && empty;
    let m2 = if !last {
        m1
    } else if !dirty && synced {
        m1.cleaned(inode, now_ms)
    } else {
        m1.stepped(inode, EntryState::Stale)
    };
    FsView {
        meta: if last && synced {
            m2.cap_flushed(inode).cap_set(inode, None)
        } else {
            m2
        },
        open: closed_once(fs.open, inode),
        inline: if drop_it {
            fs.inline.remove(inode)
        } else {
            fs.inline
        },
        limits: if drop_it {
            fs.limits.remove(inode)
        } else {
            fs.limits
        },
        ..fs
    }
}

/// The state after a file with chunks was closed. A file whose flush failed
/// stays pinned, so that the flush can be tried again.
pub open spec fn chunks_closed(
    fs: FsView,
    inode: u64,
    flushed: bool,
    synced: bool,
    now_ms: u64,
) -> FsView {
    let m1 = fs.meta.fetched(inode, now_ms);
    let last = is_last(m1, inode);
    let m2 = if flushed {
        m1.unpinned(inode)
    } else {
        m1
    };
    let m3 = if flushed && last && synced {
        m2.cap_flushed(inode).cap_set(inode, None)
    } else {
        m2
    };
    FsView {
        meta: m3,
        chunks: if synced {
            fs.chunks.all_cleaned(inode)
        } else {
            fs.chunks
        },
        open: closed_once(fs.open, inode),
        ..fs
    }
}

/// The metadata sync of a closed file is due: its chunks were flushed, and it was
/// open for writing.
pub fn close_syncs(flushed: bool, flags: u32) -> (r: bool)
    ensures
        r == (flushed && is_write_open(flags)),
{
    flushed && opened_for_writing(flags)
}

/// The entry that replaces an outdated one: where a file's data goes, how it is
/// protected and which shard it lives on are not part of the server's answer.
pub open spec fn refetched_entry(e: EntryView, fresh: EntryView) -> EntryView {
    EntryView {
        inode: e.inode,
        reliability: e.reliability,
        shard_id: e.shard_id,
        ..refreshed_entry(e, fresh)
    }
}

/// The state after the server sent the entry of an inode whose cached entry was
/// out of date. Cached data goes where the server lists other chunks, unless
/// some of it was never flushed.
pub open spec fn refetched_to(
    fs: FsView,
    inode: u64,
    fresh: EntryView,
    now_ms: u64,
) -> FsView {
    let looked = fs.meta.fetched(inode, now_ms);
    if !fs.meta.needs_refetch(inode, now_ms) {
        FsView { meta: looked, ..fs }
    } else {
        let e = looked.entries[inode];
        FsView {
            meta: looked.inserted(refetched_entry(e, fresh), now_ms),
            chunks: if has_dirty(fs.chunks.chunks, inode) || same_chunks(e.chunks, fresh.chunks) {
                fs.chunks
            } else {
                fs.chunks.dropped(inode)
            },
            ..fs
        }
    }
}

impl PowerFsFs {
    /// Count one more open handle.
    pub(crate) fn count_open(&mut self, inode: u64)
        requires
            old(self).wf(),
            old(self)@.open.contains_key(inode) ==> old(self)@.open[inode] < usize::MAX,
        ensures
            final(self).wf(),
            final(self)@ == (FsView { open: opened(old(self)@.open, inode), ..old(self)@ }),
    {
        broadcast use vstd::std_specs::hash::group_hash_axioms;

        let n: usize = match self.open_inodes.get(&inode) {
            Some(n) => *n + 1,
            None => 1,
        };
        self.open_inodes.insert(inode, n);
    }

    /// Count one open handle less.
    fn count_close(&mut self, inode: u64)
        requires
            old(self).wf(),
        ensures
            final(self).wf(),
            final(self)@ == (FsView { open: closed_once(old(self)@.open, inode), ..old(self)@ }),
    {
        broadcast use vstd::std_specs::hash::group_hash_axioms;

        let n: Option<usize> = match self.open_inodes.get(&inode) {
            Some(n) => Some(*n),
            None => None,
        };
        if let Some(n) = n {
            if n <= 1 {
                self.open_inodes.remove(&inode);
            } else {
                self.open_inodes.insert(inode, n - 1);
            }
        }
    }

    /// True if the inode is open.
    pub fn is_open(&self, inode: u64) -> (r: bool)
        ensures
            r == self@.open.contains_key(inode),
    {
        broadcast use vstd::std_specs::hash::group_hash_axioms;

        self.open_inodes.contains_key(&inode)
    }

    /// True if the file has data that the server has not seen.
    fn unsynced(&self, inode: u64) -> (r: bool)
        requires
            self.wf(),
        ensures
            r == has_unsynced(self@, inode),
    {
        proof {
            self.lemma_parts();
        }
        if self.chunk_cache.has_dirty_chunks(inode) {
            return true;
        }
        match buffers_get(&self.inline_buffers, inode) {
            Some(b) => b.dirty,
            None => false,
        }
    }

    /// Begin to open a file. A cached file is pinned at once, before the server
    /// is asked anything. Its entry is trusted where the client holds the
    /// file's exclusive lease, where the file has data that the server has not
    /// seen, or where its chunks are known.
    pub fn open_begin(&mut self, inode: u64, holds_lease: bool, now_ms: u64) -> (r: OpenStep)
        requires
            old(self).wf(),
            can_open(old(self)@, inode),
        ensures
            final(self).wf(),
            ({
                let v = old(self)@;
                let looked = v.meta.fetched(inode, now_ms);
                if inode == ROOT_INODE {
                    r == OpenStep::Fail { errno: EISDIR } && final(self)@ == v
                } else {
                    match v.meta.answer(inode, now_ms) {
                        None => r == OpenStep::Fetch && final(self)@ == FsView { meta: looked, ..v },
                        Some(e) => if e.is_dir {
                            &&& r == OpenStep::Fail { errno: EISDIR }
                            &&& final(self)@ == FsView { meta: looked, ..v }
                        } else {
                            &&& final(self)@ == FsView {
                                meta: looked.pinned(inode),
                                open: opened(v.open, inode),
                                ..v
                            }
                            &&& if holds_lease || has_unsynced(v, inode) || (!(e.state is Stale)
                                && e.chunks.len() > 0) {
                                r == OpenStep::Ready
                            } else {
                                r matches OpenStep::Refresh { entry } && entry@ == e
                            }
                        },
                    }
                }
            }),
    {
        if inode == ROOT_INODE {
            return OpenStep::Fail { errno: EISDIR };
        }
        match self.cache.get_inode(inode, now_ms) {
            None => OpenStep::Fetch,
            Some(e) => {
                if e.is_dir {
                    return OpenStep::Fail { errno: EISDIR };
                }
                self.count_open(inode);
                self.cache.pin_inode(inode);
                if holds_lease || self.unsynced(inode) || (e.state != EntryState::Stale
                    && e.chunks.len() > 0) {
                    OpenStep::Ready
                } else {
                    OpenStep::Refresh { entry: e }
                }
            },
        }
    }

    /// The server sent the entry of a cached file that is being opened.
    pub fn open_refreshed(&mut self, inode: u64, entry: &CachedEntry, fresh: &FilerEntry, now_ms: u64)
        requires
            old(self).wf(),
        ensures
            final(self).wf(),
            final(self)@ == open_refreshed_to(
                old(self)@,
                inode,
                entry@,
                entry_of_stored(entry.parent, fresh, now_ms),
                now_ms,
            ),
            ({
                let list = entry_of_stored(entry.parent, fresh, now_ms).chunks;
                let told = list.len() > 0 || entry@.chunks.len() == 0;
                let ahead = entry@.content_size > entry_of_stored(
                    entry.parent,
                    fresh,
                    now_ms,
                ).content_size && has_any_chunk(old(self)@.chunks.chunks, inode);
                !ahead && told && lists_differ(entry@.chunks, list) ==> !has_any_chunk(
                    final(self)@.chunks.chunks,
                    inode,
                )
            }),
    {
        proof {
            self.lemma_parts();
            lemma_lists_differ(
                entry@.chunks,
                entry_of_stored(entry.parent, fresh, now_ms).chunks,
            );
        }
        let mut fresh: CachedEntry = entry_to_cached(entry.parent, fresh, now_ms);
        let ghost f = fresh@;
        let local_data: bool = self.chunk_cache.has_chunks(inode);
        if entry.content_size > fresh.content_size && local_data {
            return ;
        }
        let behind: bool = fresh.chunks.len() == 0 && entry.chunks.len() > 0;
        let changed: bool = !behind && !chunks_match(&entry.chunks, &fresh.chunks);
        let content_size: u64 = fresh.content_size;
        fresh.placement = entry.placement;
        if fresh.placement.is_some() {
            fresh.fid = None;
        }
        assert(fresh@ == refreshed_entry(entry@, f));
        self.cache.insert_pinned(fresh, now_ms);
        if !local_data {
            self.cache.set_content_size(inode, content_size);
        }
        if changed {
            self.chunk_cache.remove_inode_chunks(inode);
        }
    }

    /// The server sent the entry of a file that was not cached. A directory
    /// cannot be opened as a file. Cached data without its entry is not
    /// trusted, unless some of it has not reached the server.
    pub fn open_fetched(&mut self, inode: u64, parent: u64, entry: &FilerEntry, now_ms: u64) -> (r:
        Result<(), i32>)
        requires
            old(self).wf(),
            can_open(old(self)@, inode),
        ensures
            final(self).wf(),
            if entry.attributes matches Some(a) && a.mode & S_IFMT == S_IFDIR {
                r == Err::<(), i32>(EISDIR) && final(self)@ == old(self)@
            } else {
                &&& r is Ok
                &&& final(self)@ == FsView {
                    open: opened(old(self)@.open, inode),
                    meta: old(self)@.meta.inserted_pinned(
                        entry_of_stored(parent, entry, now_ms),
                        now_ms,
                    ),
                    chunks: if has_dirty(old(self)@.chunks.chunks, inode) {
                        old(self)@.chunks
                    } else {
                        old(self)@.chunks.dropped(inode)
                    },
                    ..old(self)@
                }
            },
    {
        proof {
            self.lemma_parts();
        }
        if let Some(a) = &entry.attributes {
            if a.mode & S_IFMT == S_IFDIR {
                return Err(EISDIR);
            }
        }
        self.count_open(inode);
        let cached: CachedEntry = entry_to_cached(parent, entry, now_ms);
        self.cache.insert_pinned(cached, now_ms);
        if !self.chunk_cache.has_dirty_chunks(inode) {
            self.chunk_cache.remove_inode_chunks(inode);
        }
        Ok(())
    }

    /// True if the inode has an entry that was not deleted.
    pub(crate) fn keeps_entry(&self, inode: u64) -> (r: bool)
        requires
            self.wf(),
        ensures
            r == (self@.meta.has(inode) && !(self@.meta.entries[inode].state is Tombstone)),
    {
        match self.cache.get_entry_state(inode) {
            Some(state) => state != EntryState::Tombstone,
            None => false,
        }
    }

    /// True if the inode is cached, but its entry is too old or out of date: the
    /// server has to be asked again.
    pub fn refetch_due(&mut self, inode: u64, now_ms: u64) -> (r: bool)
        requires
            old(self).wf(),
        ensures
            final(self).wf(),
            r == old(self)@.meta.needs_refetch(inode, now_ms),
            final(self)@ == (FsView { meta: old(self)@.meta.fetched(inode, now_ms), ..old(self)@ }),
    {
        self.cache.get_inode(inode, now_ms).is_none() && self.keeps_entry(inode)
    }

    /// The server sent the entry of an inode whose cached entry was out of date.
    /// Where it is not any more, nothing changes.
    pub fn refetched(&mut self, inode: u64, parent: u64, fresh: &FilerEntry, now_ms: u64)
        requires
            old(self).wf(),
        ensures
            final(self).wf(),
            final(self)@ == refetched_to(
                old(self)@,
                inode,
                entry_of_stored(parent, fresh, now_ms),
                now_ms,
            ),
    {
        proof {
            self.lemma_parts();
        }
        if !self.refetch_due(inode, now_ms) {
            return ;
        }
        if let Some(e) = self.cache.peek_inode(inode) {
            let mut fresh: CachedEntry = entry_to_cached(parent, fresh, now_ms);
            let same: bool = chunks_match(&e.chunks, &fresh.chunks);
            fresh.inode = e.inode;
            fresh.reliability = e.reliability;
            fresh.shard_id = e.shard_id;
            fresh.placement = e.placement;
            if fresh.placement.is_some() {
                fresh.fid = None;
            }
            self.cache.insert(fresh, now_ms);
            if !same && !self.chunk_cache.has_dirty_chunks(inode) {
                self.chunk_cache.remove_inode_chunks(inode);
            }
        }
    }

    /// Look at the inline buffer of a file that is being opened. A clean buffer
    /// that another client's write has made worthless goes. Returns true if the
    /// server has to be asked whether the file has inline data.
    pub fn open_check_inline(&mut self, inode: u64, now_ms: u64) -> (ask: bool)
        requires
            old(self).wf(),
        ensures
            final(self).wf(),
            ({
                let v = old(self)@;
                let looked = v.meta.fetched(inode, now_ms);
                if is_flat(v.meta, inode, now_ms) {
                    !ask && final(self)@ == FsView { meta: looked, ..v }
                } else if v.inline.contains_key(inode) && !v.inline[inode].dirty {
                    let gone = buffer_outdated(
                        v.inline[inode],
                        known_size(looked, inode, now_ms),
                    );
                    &&& ask == gone
                    &&& final(self)@ == FsView {
                        meta: looked.fetched(inode, now_ms),
                        inline: if gone {
                            v.inline.remove(inode)
                        } else {
                            v.inline
                        },
                        ..v
                    }
                } else {
                    &&& ask == !v.inline.contains_key(inode)
                    &&& final(self)@ == FsView { meta: looked, ..v }
                }
            }),
    {
        let flat: bool = match self.cache.get_inode(inode, now_ms) {
            Some(e) => e.fid.is_some(),
            None => false,
        };
        if flat {
            return false;
        }
        match buffers_get(&self.inline_buffers, inode) {
            None => true,
            Some(b) => {
                if b.dirty {
                    return false;
                }
                let size: u64 = match self.cache.get_inode(inode, now_ms) {
                    Some(e) => e.size,
                    None => 0,
                };
                if b.needs_refresh || size != b.data.len() as u64 {
                    let _had: bool = buffers_remove(&mut self.inline_buffers, inode);
                    true
                } else {
                    false
                }
            },
        }
    }

    /// The server told whether a file that is being opened has inline data.
    /// With some, the file gets a buffer, and the kernel's copy of its data is
    /// out of date. Without, a buffer that is left over goes.
    pub fn open_inline_fetched(&mut self, inode: u64, attr: MetadataAttr) -> (notify: bool)
        requires
            old(self).wf(),
        ensures
            final(self).wf(),
            notify == attr.is_inline,
            final(self)@ == if attr.is_inline {
                inline_arrived(old(self)@, inode, Some(attr))
            } else if old(self)@.inline.contains_key(inode) {
                FsView {
                    inline: old(self)@.inline.remove(inode),
                    limits: old(self)@.limits.remove(inode),
                    ..old(self)@
                }
            } else {
                old(self)@
            },
    {
        if attr.is_inline {
            self.store_inline(inode, attr)
        } else {
            if buffers_has(&self.inline_buffers, inode) {
                let _had: bool = buffers_remove(&mut self.inline_buffers, inode);
                limits_remove(&mut self.inline_max_sizes, inode);
            }
            false
        }
    }

    /// True if a lease on the inode is taken when the file is opened: its data
    /// is on a volume.
    pub fn open_takes_lease(&mut self, inode: u64, now_ms: u64) -> (r: bool)
        requires
            old(self).wf(),
        ensures
            final(self).wf(),
            r == is_flat(old(self)@.meta, inode, now_ms),
            final(self)@ == (FsView { meta: old(self)@.meta.fetched(inode, now_ms), ..old(self)@ }),
    {
        match self.cache.get_inode(inode, now_ms) {
            Some(e) => e.fid.is_some(),
            None => false,
        }
    }

    /// True if the server has to be asked for caps on a file that is being
    /// opened: the client does not hold all that it wants.
    pub fn acquire_cap_on_open(&self, inode: u64, writing: bool) -> (ask: bool)
        ensures
            ask == match self@.meta.cap_of(inode) {
                Some(c) => !c.issued.includes(wanted_caps(writing)),
                None => true,
            },
    {
        let want: CapSet = if writing {
            CapSet::exclusive()
        } else {
            CapSet::cap_r()
        };
        match self.cache.get_cap(inode) {
            Some(c) => !c.issued.contains(want),
            None => true,
        }
    }

    /// Keep the caps that the server granted.
    pub fn cap_granted(&mut self, inode: u64, cap: ClientCap)
        requires
            old(self).wf(),
        ensures
            final(self).wf(),
            final(self)@ == (FsView {
                meta: old(self)@.meta.cap_set(inode, Some(cap@)),
                ..old(self)@
            }),
    {
        self.cache.grant_cap(inode, cap);
    }

    /// The server created a file. It is open from now on. Where the server did
    /// not say where its data goes, the creation failed.
    pub fn create_finish(
        &mut self,
        attr: &MetadataAttr,
        parent: u64,
        name: &str,
        mode: u32,
        uid: u32,
        gid: u32,
        now: Now,
    ) -> (r: Result<FuseEntry, i32>)
        requires
            old(self).wf(),
            can_open(old(self)@, attr.inode),
        ensures
            final(self).wf(),
            final(self)@ == created(old(self)@, attr, parent, name@, mode, uid, gid, now),
            r == if is_placed(attr) {
                Ok::<FuseEntry, i32>(
                    fuse_entry_of(created_entry(attr, parent, name@, mode, uid, gid, now)),
                )
            } else {
                Err::<FuseEntry, i32>(EIO)
            },
    {
        self.cache.invalidate_dir(parent);
        let mut e: CachedEntry = make_blank(attr.inode, parent, name, now.mono_ms);
        e.mode = mode | S_IFREG;
        e.uid = uid;
        e.gid = gid;
        e.atime = now.unix_secs;
        e.mtime = now.unix_secs;
        e.ctime = now.unix_secs;
        if attr.is_inline {
            let max: u32 = match attr.inline_max_size {
                Some(n) => n,
                None => 8192,
            };
            let data: Vec<u8> = Vec::new();
            assert(data@ =~= Seq::<u8>::empty());
            buffers_insert(
                &mut self.inline_buffers,
                attr.inode,
                InlineBuffer {
                    data,
                    dirty: false,
                    original_len: 0,
                    modified_in_place: false,
                    needs_refresh: false,
                },
            );
            limits_insert(&mut self.inline_max_sizes, attr.inode, max);
        } else if attr.is_stripe() {
            e.chunks = chunks_from_proto(&attr.chunks);
            e.placement = attr.placement;
        } else {
            match (attr.volume_id, attr.file_key) {
                (Some(volume_id), Some(needle_id)) => {
                    e.fid = Some(
                        Fid { volume_id: VolumeId(volume_id), cookie: 0, file_key: needle_id },
                    );
                    let mut chunks: Vec<CachedFileChunk> = Vec::new();
                    chunks.push(
                        CachedFileChunk {
                            offset: 0,
                            size: 0,
                            mtime: to_unsigned(now.unix_secs),
                            needle_id,
                            volume_id,
                            crc32: 0,
                        },
                    );
                    assert(chunks@ =~= seq![chunks@[0]]);
                    e.chunks = chunks;
                },
                _ => {
                    return Err(EIO);
                },
            }
        }
        assert(e@ == created_entry(attr, parent, name@, mode, uid, gid, now));
        self.count_open(attr.inode);
        let reply: FuseEntry = create_fuse_entry(&e);
        self.cache.insert_pinned(e, now.mono_ms);
        Ok(reply)
    }

    /// Begin to close a file. Returns true for a file with an inline buffer,
    /// whose entry is then marked as being flushed.
    pub fn release_begin(&mut self, inode: u64) -> (inline: bool)
        requires
            old(self).wf(),
        ensures
            final(self).wf(),
            inline == old(self)@.inline.contains_key(inode),
            final(self)@ == if inline {
                FsView {
                    meta: old(self)@.meta.stepped(inode, EntryState::Flushing),
                    ..old(self)@
                }
            } else {
                old(self)@
            },
    {
        self.cap_flush_begin(inode)
    }

    /// Close a file with an inline buffer, after the buffer was brought to the
    /// server or could not be.
    ///
    /// The last handle leaves the file clean, or out of date where the buffer
    /// did not reach the server. The buffer itself stays, but for an empty one,
    /// and its cap is given back once the data is safe.
    pub fn release_inline(&mut self, inode: u64, synced: bool, now_ms: u64) -> (r: Closed)
        requires
            old(self).wf(),
        ensures
            final(self).wf(),
            final(self)@ == inline_closed(old(self)@, inode, synced, now_ms),
            r.result == if synced {
                Ok::<(), i32>(())
            } else {
                Err::<(), i32>(EIO)
            },
            opt_cap(r.cap) == if synced && is_last(old(self)@.meta, inode) {
                let m = old(self)@.meta.unpinned(inode);
                let m2 = if old(self)@.inline.contains_key(inode)
                    && old(self)@.inline[inode].dirty {
                    m.stepped(inode, EntryState::Stale)
                } else {
                    m.cleaned(inode, now_ms)
                };
                m2.cap_flushed(inode).cap_of(inode)
            } else {
                None
            },
            r.count_down,
            r.lease == LeaseRelease::Keep,
    {
        if !synced {
            self.cache.mark_dirty(inode);
        }
        let (dirty, empty): (bool, bool) = match buffers_get(&self.inline_buffers, inode) {
            Some(b) => (b.dirty, b.data.len() == 0),
            None => (false, true),
        };
        self.count_close(inode);
        let last: bool = self.cache.unpin_inode(inode);
        if last && !dirty {
            if empty {
                let _had: bool = buffers_remove(&mut self.inline_buffers, inode);
                limits_remove(&mut self.inline_max_sizes, inode);
            }
            if synced {
                self.cache.mark_clean(inode, now_ms);
            } else {
                self.cache.mark_stale(inode);
            }
        } else if last {
            self.cache.mark_stale(inode);
        }
        if !synced {
            return Closed {
                result: Err(EIO),
                cap: None,
                count_down: true,
                lease: LeaseRelease::Keep,
            };
        }
        let cap: Option<ClientCap> = if last {
            self.cache.mark_cap_flushed(inode);
            self.cache.take_cap(inode)
        } else {
            None
        };
        Closed { result: Ok(()), cap, count_down: true, lease: LeaseRelease::Keep }
    }

    /// Close a file with chunks, after its chunks were flushed or could not be,
    /// and after its metadata reached the server or did not. Only a file of
    /// which both reached the servers counts as clean and gives its cap back;
    /// one whose flush failed stays pinned and keeps its write lease. The entry
    /// that the closed handle held decides about the leases.
    pub fn release_chunks(&mut self, inode: u64, flushed: bool, synced: bool, now_ms: u64) -> (r:
        Closed)
        requires
            old(self).wf(),
            synced ==> flushed,
        ensures
            final(self).wf(),
            final(self)@ == chunks_closed(old(self)@, inode, flushed, synced, now_ms),
            r.result == if synced {
                Ok::<(), i32>(())
            } else {
                Err::<(), i32>(EIO)
            },
            opt_cap(r.cap) == if flushed && synced && is_last(
                old(self)@.meta.fetched(inode, now_ms),
                inode,
            ) {
                old(self)@.meta.fetched(inode, now_ms).unpinned(inode).cap_flushed(inode).cap_of(
                    inode,
                )
            } else {
                None
            },
            r.count_down == (old(self)@.meta.answer(inode, now_ms) is Some),
            r.lease == match old(self)@.meta.answer(inode, now_ms) {
                Some(e) => match e.fid {
                    Some(f) => if flushed {
                        LeaseRelease::All { volume_id: f.volume_id.0 }
                    } else {
                        LeaseRelease::ReadsOnly { volume_id: f.volume_id.0 }
                    },
                    None => LeaseRelease::Keep,
                },
                None => LeaseRelease::Keep,
            },
    {
        if synced {
            self.chunk_cache.clear_dirty(inode);
        }
        let entry: Option<CachedEntry> = self.cache.get_inode(inode, now_ms);
        let count_down: bool = entry.is_some();
        self.count_close(inode);
        let mut cap: Option<ClientCap> = None;
        if flushed {
            let last: bool = self.cache.unpin_inode(inode);
            if last && synced {
                self.cache.mark_cap_flushed(inode);
                cap = self.cache.take_cap(inode);
            }
        }
        let lease: LeaseRelease = match entry {
            Some(e) => match e.fid {
                Some(f) => if flushed {
                    LeaseRelease::All { volume_id: f.volume_id.0 }
                } else {
                    LeaseRelease::ReadsOnly { volume_id: f.volume_id.0 }
                },
                None => LeaseRelease::Keep,
            },
            None => LeaseRelease::Keep,
        };
        Closed {
            result: if synced {
                Ok(())
            } else {
                Err(EIO)
            },
            cap,
            count_down,
            lease,
        }
    }
}

/// Closing a handle undoes opening one: the count of open handles is what it
/// was.
pub proof fn law_close_undoes_open(open: Map<u64, usize>, inode: u64)
    requires
        open.contains_key(inode) ==> 0 < open[inode] < usize::MAX,
    ensures
        closed_once(opened(open, inode), inode) == open,
        opened(open, inode).contains_key(inode),
{
    if open.contains_key(inode) {
        assert(closed_once(opened(open, inode), inode) =~= open);
    } else {
        assert(closed_once(opened(open, inode), inode) =~= open);
    }
}

} // verus!
