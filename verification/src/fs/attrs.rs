//! Attributes, extended attributes, locks and the space of the file system.

use super::{FsView, PowerFsFs};
use crate::acl::{acl_mode, parse_posix_acl_mode};
use crate::client_cap::{CapSet, CAP_X};
use crate::entry::{
    opt_text, CachedEntry, CachedFileChunk, EntryState, EntryView, Now, UpdateAttrParams,
};
use crate::file_locks::{first_clash, held_on, released, FileLock};
use crate::inline::{buffers_get, buffers_has, buffers_insert, InlineBuffer, INLINE_HARD_LIMIT};
use crate::meta_model::{attrs_updated, chunks_cut};
use crate::names;
use crate::records::{
    as_signed, as_unsigned, create_stat, entry_of_stored, stat_of, to_signed, to_unsigned,
    FilerEntry, Stat, TTL_MS, TTL_OPEN_MS,
};
use crate::scan::{
    begins_with, stands_at, EACCES, EFBIG, EINVAL, EISDIR, ENODATA, ENOENT, EOPNOTSUPP, ERANGE,
};
use crate::text;
use vstd::prelude::*;
use vstd::string::*;

verus! {

/// May be read.
pub const R_OK: u32 = 4;

/// May be written.
pub const W_OK: u32 = 2;

/// May be executed.
pub const X_OK: u32 = 1;

/// Allocate without changing the size.
pub const FALLOC_FL_KEEP_SIZE: u32 = 1;

/// Free a range.
pub const FALLOC_FL_PUNCH_HOLE: u32 = 2;

/// Which attributes a caller wants to change. A time can be set to a value or
/// to this moment.
#[derive(Debug, Clone, Copy, PartialEq, Eq, Structural)]
pub struct SetattrValid {
    pub mode: bool,
    pub uid: bool,
    pub gid: bool,
    pub size: bool,
    pub atime: bool,
    pub mtime: bool,
    pub atime_now: bool,
    pub mtime_now: bool,
}

/// A change of attributes as it goes to the server.
#[derive(Debug, Clone, Copy, PartialEq, Eq, Structural)]
pub struct SetattrParams {
    pub mode: Option<u32>,
    pub uid: Option<u32>,
    pub gid: Option<u32>,
    pub size: Option<u64>,
    pub atime: Option<u64>,
    pub mtime: Option<u64>,
}

/// The attributes of an inode, and how long the kernel may keep them.
#[derive(Debug, Clone, Copy, PartialEq, Eq, Structural)]
pub struct StatReply {
    pub stat: Stat,
    pub ttl_ms: u64,
}

/// What an allocation has to do next.
#[derive(Debug, Clone, Copy, PartialEq, Eq, Structural)]
pub enum FallocStep {
    Fail { errno: i32 },
    Done,
    /// Tell the server the new size.
    Grow { size: u64 },
}

/// The answer to a request for an extended attribute or for their names: the
/// length alone where no room was offered.
#[derive(Debug)]
pub enum XattrReply {
    Count { len: u32 },
    Value { data: Vec<u8> },
}

/// The space of the file system.
#[derive(Debug, Clone, Copy, PartialEq, Eq, Structural)]
pub struct Statfs {
    pub bsize: u64,
    pub frsize: u64,
    pub blocks: u64,
    pub bfree: u64,
    pub bavail: u64,
    pub files: u64,
    pub ffree: u64,
    pub favail: u64,
    pub namemax: u64,
}

/// The change of attributes that a caller asks for. "Now" wins over a given
/// time.
pub open spec fn setattr_of(valid: SetattrValid, stat: Stat, unix_secs: i64) -> SetattrParams {
    SetattrParams {
        mode: if valid.mode {
            Some(stat.mode & 0o7777)
        } else {
            None
        },
        uid: if valid.uid {
            Some(stat.uid)
        } else {
            None
        },
        gid: if valid.gid {
            Some(stat.gid)
        } else {
            None
        },
        size: if valid.size {
            Some(as_unsigned(stat.size))
        } else {
            None
        },
        atime: if valid.atime_now {
            Some(as_unsigned(unix_secs))
        } else if valid.atime {
            Some(as_unsigned(stat.atime))
        } else {
            None
        },
        mtime: if valid.mtime_now {
            Some(as_unsigned(unix_secs))
        } else if valid.mtime {
            Some(as_unsigned(stat.mtime))
        } else {
            None
        },
    }
}

/// The change of attributes that a caller asks for.
pub fn setattr_params(valid: SetattrValid, stat: Stat, unix_secs: i64) -> (r: SetattrParams)
    ensures
        r == setattr_of(valid, stat, unix_secs),
{
    let now: u64 = to_unsigned(unix_secs);
    SetattrParams {
        mode: if valid.mode {
            Some(stat.mode & 0o7777)
        } else {
            None
        },
        uid: if valid.uid {
            Some(stat.uid)
        } else {
            None
        },
        gid: if valid.gid {
            Some(stat.gid)
        } else {
            None
        },
        size: if valid.size {
            Some(to_unsigned(stat.size))
        } else {
            None
        },
        atime: if valid.atime_now {
            Some(now)
        } else if valid.atime {
            Some(to_unsigned(stat.atime))
        } else {
            None
        },
        mtime: if valid.mtime_now {
            Some(now)
        } else if valid.mtime {
            Some(to_unsigned(stat.mtime))
        } else {
            None
        },
    }
}

/// The same change as the cache takes it.
pub open spec fn cached_change(p: SetattrParams) -> UpdateAttrParams {
    UpdateAttrParams {
        mode: p.mode,
        size: p.size,
        uid: p.uid,
        gid: p.gid,
        atime: match p.atime {
            Some(t) => Some(as_signed(t)),
            None => None,
        },
        mtime: match p.mtime {
            Some(t) => Some(as_signed(t)),
            None => None,
        },
    }
}

/// The state after the data of a file was cut or extended to `size`.
pub open spec fn data_resized(fs: FsView, inode: u64, size: u64, now: Now) -> FsView {
    if fs.inline.contains_key(inode) {
        FsView {
            inline: fs.inline.insert(inode, fs.inline[inode].truncated(size)),
            meta: fs.meta.resized(inode, size, now),
            ..fs
        }
    } else if size == 0 {
        FsView {
            chunks: fs.chunks.dropped(inode),
            meta: fs.meta.chunks_set(inode, Seq::empty()).resized(inode, size, now),
            ..fs
        }
    } else {
        FsView {
            chunks: fs.chunks.cut(inode, size),
            meta: fs.meta.chunks_set(
                inode,
                chunks_cut(fs.meta.entries[inode].chunks, size),
            ).resized(inode, size, now),
            ..fs
        }
    }
}

/// The state after the server took a change of attributes.
pub open spec fn attrs_set(fs: FsView, inode: u64, p: SetattrParams, now: Now) -> FsView {
    let m1 = fs.meta.alter(inode, attrs_updated(fs.meta.entries[inode], cached_change(p), now));
    let m2 = if p.mode is Some || p.size is Some || p.uid is Some || p.gid is Some {
        m1.cap_dirtied(inode, CapSet(CAP_X))
    } else {
        m1
    };
    let changed = FsView { meta: m2, ..fs };
    match p.size {
        Some(size) => data_resized(changed, inode, size, now),
        None => changed,
    }
}

/// The mode allows what is asked for.
pub open spec fn mode_allows(mode: u32, mask: u32) -> bool {
    &&& mask & R_OK == 0 || mode & 0o444 != 0
    &&& mask & W_OK == 0 || mode & 0o222 != 0
    &&& mask & X_OK == 0 || mode & 0o111 != 0
}

/// The name under which the server keeps an extended attribute: the file
/// system's own attributes lose their namespace.
pub open spec fn stored_name(name: Seq<char>) -> Seq<char> {
    if stands_at(name, "user.powerfs."@, 0) {
        name.skip(5)
    } else {
        name
    }
}

/// The name under which the server keeps an extended attribute.
pub fn normalize_xattr_name(name: &str) -> (r: String)
    ensures
        r@ == stored_name(name@),
{
    if begins_with(name, "user.powerfs.") {
        proof {
            reveal_strlit("user.powerfs.");
        }
        let n: usize = name.unicode_len();
        assert(name@.subrange(5, n as int) =~= name@.skip(5));
        name.substring_char(5, n).to_owned()
    } else {
        name.to_owned()
    }
}

/// The answer that fits into the room that was offered.
pub open spec fn xattr_fits(data: Seq<u8>, size: u32, r: Result<XattrReply, i32>) -> bool {
    if size == 0 {
        r == Ok::<XattrReply, i32>(XattrReply::Count { len: low_word(data.len()) })
    } else if data.len() > size {
        r == Err::<XattrReply, i32>(ERANGE)
    } else {
        r matches Ok(XattrReply::Value { data: d }) && d@ == data
    }
}

/// The low 32 bits of a length.
pub open spec fn low_word(n: nat) -> u32 {
    (n % 0x1_0000_0000) as u32
}

/// The answer that fits into the room that was offered.
pub fn xattr_reply(data: Vec<u8>, size: u32) -> (r: Result<XattrReply, i32>)
    ensures
        xattr_fits(data@, size, r),
{
    if size == 0 {
        let n: u64 = data.len() as u64;
        Ok(XattrReply::Count { len: (n % 0x1_0000_0000) as u32 })
    } else if data.len() as u64 > size as u64 {
        Err(ERANGE)
    } else {
        Ok(XattrReply::Value { data })
    }
}

/// The names of a list, each with a zero byte behind it.
pub open spec fn name_list(v: Seq<Seq<char>>) -> Seq<u8>
    decreases v.len(),
{
    if v.len() == 0 {
        Seq::empty()
    } else {
        (name_list(v.drop_last()) + vstd::utf8::encode_utf8(v.last())).push(0u8)
    }
}

/// The names of a list, each with a zero byte behind it.
fn join_names(v: &Vec<String>) -> (r: Vec<u8>)
    ensures
        r@ == name_list(text::texts(v@)),
{
    let ghost all = text::texts(v@);
    let mut r: Vec<u8> = Vec::new();
    let mut i: usize = 0;
    assert(all.take(0) =~= Seq::<Seq<char>>::empty());
    assert(r@ =~= Seq::<u8>::empty());
    while i < v.len()
        invariant
            i <= v.len(),
            all == text::texts(v@),
            r@ == name_list(all.take(i as int)),
        decreases v.len() - i,
    {
        assert(all.take(i as int + 1).drop_last() =~= all.take(i as int));
        assert(all.take(i as int + 1).last() == all[i as int]);
        let ghost before = r@;
        let mut bytes: Vec<u8> = vstd::slice::slice_to_vec(v[i].as_str().as_bytes());
        let ghost b = bytes@;
        r.append(&mut bytes);
        assert(r@ =~= before + b);
        r.push(0);
        i += 1;
    }
    assert(all.take(i as int) =~= all);
    r
}

/// The space of the file system in blocks of 4096 bytes. The number of files
/// is not limited; the kernel is told a large one.
pub fn statfs_of(total_size: u64, free_size: u64) -> (r: Statfs)
    ensures
        r == (Statfs {
            bsize: 4096,
            frsize: 4096,
            blocks: (total_size / 4096) as u64,
            bfree: (free_size / 4096) as u64,
            bavail: (free_size / 4096) as u64,
            files: 10_000_000,
            ffree: 9_900_000,
            favail: 9_900_000,
            namemax: 255,
        }),
{
    let free: u64 = free_size / 4096;
    Statfs {
        bsize: 4096,
        frsize: 4096,
        blocks: total_size / 4096,
        bfree: free,
        bavail: free,
        files: 10_000_000,
        ffree: 9_900_000,
        favail: 9_900_000,
        namemax: 255,
    }
}

/// The first error of an allocation's arguments.
pub open spec fn falloc_error(mode: u32, length: u64) -> Option<i32> {
    if mode & !(FALLOC_FL_KEEP_SIZE | FALLOC_FL_PUNCH_HOLE) != 0 {
        Some(EOPNOTSUPP)
    } else if mode & FALLOC_FL_PUNCH_HOLE != 0 && mode & FALLOC_FL_KEEP_SIZE == 0 {
        Some(EOPNOTSUPP)
    } else if length == 0 {
        Some(EINVAL)
    } else {
        None
    }
}

/// The first error of an allocation's arguments.
fn check_falloc(mode: u32, length: u64) -> (r: Option<i32>)
    ensures
        r == falloc_error(mode, length),
{
    if mode & !(FALLOC_FL_KEEP_SIZE | FALLOC_FL_PUNCH_HOLE) != 0 {
        Some(EOPNOTSUPP)
    } else if (mode & FALLOC_FL_PUNCH_HOLE) != 0 && (mode & FALLOC_FL_KEEP_SIZE) == 0 {
        Some(EOPNOTSUPP)
    } else if length == 0 {
        Some(EINVAL)
    } else {
        None
    }
}

/// How long the kernel may keep an inode's attributes.
pub open spec fn attr_ttl(fs: FsView, inode: u64) -> u64 {
    if fs.open.contains_key(inode) {
        TTL_OPEN_MS
    } else {
        TTL_MS
    }
}

/// The attributes that the cache answers a request with: those of an open
/// inode and those of a directory as they are, those of any other file where
/// they are in step with the server.
pub open spec fn getattr_answer(fs: FsView, inode: u64, now_ms: u64) -> Option<Stat> {
    let looked = fs.meta.fetched(inode, now_ms);
    if fs.open.contains_key(inode) && fs.meta.has(inode) {
        Some(stat_of(fs.meta.entries[inode]))
    } else if fs.meta.answer(inode, now_ms) matches Some(e) && e.is_dir {
        Some(stat_of(fs.meta.answer(inode, now_ms)->0))
    } else if looked.has(inode) && looked.entries[inode].state is Clean {
        Some(stat_of(looked.entries[inode]))
    } else {
        None
    }
}

impl PowerFsFs {
    /// The attributes of an inode, as far as the cache has them. `None` where
    /// the server has to be asked.
    pub fn getattr_begin(&mut self, inode: u64, now_ms: u64) -> (r: Option<StatReply>)
        requires
            old(self).wf(),
        ensures
            final(self).wf(),
            r == match getattr_answer(old(self)@, inode, now_ms) {
                Some(stat) => Some(
                    StatReply { stat, ttl_ms: attr_ttl(old(self)@, inode) },
                ),
                None => None,
            },
            final(self)@ == if old(self)@.open.contains_key(inode) && old(self)@.meta.has(inode) {
                old(self)@
            } else {
                FsView { meta: old(self)@.meta.fetched(inode, now_ms), ..old(self)@ }
            },
    {
        let open: bool = self.is_open(inode);
        let ttl_ms: u64 = if open {
            TTL_OPEN_MS
        } else {
            TTL_MS
        };
        if open {
            if let Some(e) = self.cache.peek_inode(inode) {
                return Some(StatReply { stat: create_stat(&e), ttl_ms });
            }
        }
        if let Some(e) = self.cache.get_inode(inode, now_ms) {
            if e.is_dir {
                return Some(StatReply { stat: create_stat(&e), ttl_ms });
            }
        }
        if let Some(e) = self.cache.peek_inode(inode) {
            if e.state == EntryState::Clean {
                return Some(StatReply { stat: create_stat(&e), ttl_ms });
            }
        }
        None
    }

    /// The server sent the entry of an inode whose attributes were asked for.
    pub fn getattr_finish(&mut self, inode: u64, parent: u64, entry: &FilerEntry, now_ms: u64)
        -> (r: StatReply)
        requires
            old(self).wf(),
        ensures
            final(self).wf(),
            ({
                let e = entry_of_stored(parent, entry, now_ms);
                &&& r == StatReply { stat: stat_of(e), ttl_ms: attr_ttl(old(self)@, inode) }
                &&& final(self)@ == FsView {
                    meta: old(self)@.meta.inserted(e, now_ms),
                    ..old(self)@
                }
            }),
    {
        let ttl_ms: u64 = if self.is_open(inode) {
            TTL_OPEN_MS
        } else {
            TTL_MS
        };
        let e: CachedEntry = self.cache_stored(parent, entry, now_ms);
        StatReply { stat: create_stat(&e), ttl_ms }
    }

    /// Check a change of attributes before the server is asked: a file whose
    /// data lives in its metadata record cannot be extended beyond the hard
    /// limit.
    pub fn setattr_check(&self, inode: u64, size: Option<u64>) -> (r: Result<(), i32>)
        ensures
            r == if size matches Some(n) && n > INLINE_HARD_LIMIT && self@.inline.contains_key(
                inode,
            ) {
                Err::<(), i32>(EFBIG)
            } else {
                Ok::<(), i32>(())
            },
    {
        if let Some(n) = size {
            if buffers_has(&self.inline_buffers, inode) && n > INLINE_HARD_LIMIT {
                return Err(EFBIG);
            }
        }
        Ok(())
    }

    /// The server took a change of attributes: so does the cache. A change of
    /// size cuts or extends the data, too. Returns the new attributes, or
    /// nothing where the server has to be asked for them.
    pub fn setattr_apply(&mut self, inode: u64, params: SetattrParams, now: Now) -> (r: Option<
        StatReply,
    >)
        requires
            old(self).wf(),
            params.size is Some && old(self)@.inline.contains_key(inode) ==> params.size->0
                <= INLINE_HARD_LIMIT,
        ensures
            final(self).wf(),
            ({
                let done = attrs_set(old(self)@, inode, params, now);
                &&& final(self)@ == FsView {
                    meta: done.meta.fetched(inode, now.mono_ms),
                    ..done
                }
                &&& r == match done.meta.answer(inode, now.mono_ms) {
                    Some(e) => Some(StatReply { stat: stat_of(e), ttl_ms: TTL_MS }),
                    None => None,
                }
            }),
    {
        let change = UpdateAttrParams {
            mode: params.mode,
            size: params.size,
            uid: params.uid,
            gid: params.gid,
            atime: match params.atime {
                Some(t) => Some(to_signed(t)),
                None => None,
            },
            mtime: match params.mtime {
                Some(t) => Some(to_signed(t)),
                None => None,
            },
        };
        self.cache.update_attr(inode, change, now);
        if params.mode.is_some() || params.size.is_some() || params.uid.is_some()
            || params.gid.is_some() {
            self.cache.mark_dirty_cap_x(inode);
        }
        if let Some(size) = params.size {
            self.resize_data(inode, size, now);
        }
        match self.cache.get_inode(inode, now.mono_ms) {
            Some(e) => Some(StatReply { stat: create_stat(&e), ttl_ms: TTL_MS }),
            None => None,
        }
    }

    /// Cut or extend the data of a file to `size`.
    fn resize_data(&mut self, inode: u64, size: u64, now: Now)
        requires
            old(self).wf(),
            old(self)@.inline.contains_key(inode) ==> size <= INLINE_HARD_LIMIT,
        ensures
            final(self).wf(),
            final(self)@ == data_resized(old(self)@, inode, size, now),
    {
        match buffers_get(&self.inline_buffers, inode) {
            Some(b) => {
                let mut b: InlineBuffer = b;
                b.truncate(size as usize);
                buffers_insert(&mut self.inline_buffers, inode, b);
            },
            None => {
                if size == 0 {
                    self.chunk_cache.remove_inode_chunks(inode);
                    let none: Vec<CachedFileChunk> = Vec::new();
                    assert(none@ =~= Seq::<CachedFileChunk>::empty());
                    self.cache.update_chunks(inode, none);
                } else {
                    self.chunk_cache.truncate_chunks(inode, size);
                    self.cache.truncate_chunks_metadata(inode, size);
                }
            },
        }
        self.cache.update_size(inode, size, now);
    }

    /// Check whether an inode may be used in a way. What belongs to the
    /// superuser may be used in any way.
    pub fn access(&mut self, inode: u64, mask: u32, now_ms: u64) -> (r: Result<(), i32>)
        requires
            old(self).wf(),
        ensures
            final(self).wf(),
            final(self)@ == (FsView { meta: old(self)@.meta.fetched(inode, now_ms), ..old(self)@ }),
            r == match old(self)@.meta.answer(inode, now_ms) {
                None => Err::<(), i32>(ENOENT),
                Some(e) => if e.uid == 0 || mode_allows(e.mode, mask) {
                    Ok::<(), i32>(())
                } else {
                    Err::<(), i32>(EACCES)
                },
            },
    {
        match self.cache.get_inode(inode, now_ms) {
            None => Err(ENOENT),
            Some(e) => {
                if e.uid == 0 {
                    return Ok(());
                }
                let mode: u32 = e.mode;
                let r_ok: bool = (mask & R_OK) == 0 || (mode & 0o444) != 0;
                let w_ok: bool = (mask & W_OK) == 0 || (mode & 0o222) != 0;
                let x_ok: bool = (mask & X_OK) == 0 || (mode & 0o111) != 0;
                if r_ok && w_ok && x_ok {
                    Ok(())
                } else {
                    Err(EACCES)
                }
            },
        }
    }

    /// True if a flush or an fsync of the file has nothing to do: its data
    /// lives in its metadata record and goes to the server when it is closed.
    pub fn flush_is_noop(&self, inode: u64) -> (r: bool)
        ensures
            r == self@.inline.contains_key(inode),
    {
        buffers_has(&self.inline_buffers, inode)
    }

    /// An fsync brought a file's data and metadata to the servers.
    pub fn fsync_finish(&mut self, inode: u64)
        requires
            old(self).wf(),
        ensures
            final(self).wf(),
            final(self)@ == (FsView {
                chunks: old(self)@.chunks.all_cleaned(inode),
                ..old(self)@
            }),
    {
        self.chunk_cache.clear_dirty(inode);
    }

    /// Begin to allocate space for a file. Only an allocation that may change
    /// the size and goes beyond the end does anything.
    pub fn fallocate(&mut self, inode: u64, mode: u32, offset: u64, length: u64, now_ms: u64) -> (r:
        FallocStep)
        requires
            old(self).wf(),
            mode & FALLOC_FL_KEEP_SIZE == 0 ==> offset + length <= u64::MAX,
        ensures
            final(self).wf(),
            match falloc_error(mode, length) {
                Some(errno) => r == FallocStep::Fail { errno } && final(self)@ == old(self)@,
                None => {
                    &&& final(self)@ == FsView {
                        meta: old(self)@.meta.fetched(inode, now_ms),
                        ..old(self)@
                    }
                    &&& r == match old(self)@.meta.answer(inode, now_ms) {
                        None => FallocStep::Fail { errno: ENOENT },
                        Some(e) => if e.is_dir {
                            FallocStep::Fail { errno: EISDIR }
                        } else if mode & FALLOC_FL_KEEP_SIZE == 0 && offset + length > e.size {
                            FallocStep::Grow { size: (offset + length) as u64 }
                        } else {
                            FallocStep::Done
                        },
                    }
                },
            },
    {
        if let Some(errno) = check_falloc(mode, length) {
            return FallocStep::Fail { errno };
        }
        match self.cache.get_inode(inode, now_ms) {
            None => FallocStep::Fail { errno: ENOENT },
            Some(e) => {
                if e.is_dir {
                    return FallocStep::Fail { errno: EISDIR };
                }
                if (mode & FALLOC_FL_KEEP_SIZE) == 0 && offset + length > e.size {
                    FallocStep::Grow { size: offset + length }
                } else {
                    FallocStep::Done
                }
            },
        }
    }

    /// The server took the new size of a file that was allocated space.
    pub fn fallocate_finish(&mut self, inode: u64, size: u64, now: Now)
        requires
            old(self).wf(),
        ensures
            final(self).wf(),
            final(self)@ == (FsView {
                meta: old(self)@.meta.resized(inode, size, now),
                ..old(self)@
            }),
    {
        self.cache.update_size(inode, size, now);
    }

    /// Ask whether a lock could be had.
    pub fn getlk(&self, inode: u64, lock: FileLock) -> (r: FileLock)
        ensures
            r == match first_clash(held_on(self@.locks, inode), lock) {
                Some(l) => l,
                None => FileLock { pid: 0, ..lock },
            },
    {
        self.locks.getlk(inode, lock)
    }

    /// Take or drop a lock.
    pub fn setlk(&mut self, inode: u64, lock: FileLock) -> (r: Result<(), i32>)
        requires
            old(self).wf(),
        ensures
            final(self).wf(),
            ({
                let held = held_on(old(self)@.locks, inode);
                if lock.lock_type == 0 {
                    &&& r is Ok
                    &&& final(self)@ == FsView {
                        locks: old(self)@.locks.insert(
                            inode,
                            released(held, lock.start, lock.end),
                        ),
                        ..old(self)@
                    }
                } else if first_clash(held, lock) is Some {
                    &&& r == Err::<(), i32>(crate::scan::EAGAIN)
                    &&& final(self)@ == FsView {
                        locks: old(self)@.locks.insert(inode, held),
                        ..old(self)@
                    }
                } else {
                    &&& r is Ok
                    &&& final(self)@ == FsView {
                        locks: old(self)@.locks.insert(inode, held.push(lock)),
                        ..old(self)@
                    }
                }
            }),
    {
        self.locks.setlk(inode, lock)
    }

    /// The server took an extended attribute: so does the cache, under the name
    /// that the kernel uses. An access ACL also stands for a file mode: that
    /// one is returned, to be set next.
    pub fn setxattr_finish(&mut self, inode: u64, name: &str, value: &[u8], now_ms: u64) -> (r:
        Option<u32>)
        requires
            old(self).wf(),
        ensures
            final(self).wf(),
            ({
                let kept = old(self)@.meta.xattr_set(inode, name@, value@);
                if name@ == "system.posix_acl_access"@ {
                    &&& final(self)@ == FsView { meta: kept.fetched(inode, now_ms), ..old(self)@ }
                    &&& r == acl_mode(
                        value@,
                        match kept.answer(inode, now_ms) {
                            Some(e) => e.mode,
                            None => 0o644,
                        },
                    )
                } else {
                    r is None && final(self)@ == FsView { meta: kept, ..old(self)@ }
                }
            }),
    {
        self.cache.set_xattr(inode, name, value);
        if text::same(name, "system.posix_acl_access") {
            let cur_mode: u32 = match self.cache.get_inode(inode, now_ms) {
                Some(e) => e.mode,
                None => 0o644,
            };
            parse_posix_acl_mode(value, cur_mode)
        } else {
            None
        }
    }

    /// The server took the mode that an ACL stands for.
    pub fn acl_mode_finish(&mut self, inode: u64, mode: u32, now: Now)
        requires
            old(self).wf(),
        ensures
            final(self).wf(),
            final(self)@ == (FsView {
                meta: old(self)@.meta.alter(
                    inode,
                    EntryView {
                        mode,
                        ctime: now.unix_secs,
                        cached_at: now.mono_ms,
                        ..old(self)@.meta.entries[inode]
                    },
                ),
                ..old(self)@
            }),
    {
        self.cache.update_attr(
            inode,
            UpdateAttrParams {
                mode: Some(mode),
                size: None,
                uid: None,
                gid: None,
                atime: None,
                mtime: None,
            },
            now,
        );
    }

    /// An extended attribute out of the cache. `None` where the server has to
    /// be asked.
    pub fn getxattr_begin(&self, inode: u64, name: &str, size: u32) -> (r: Option<
        Result<XattrReply, i32>,
    >)
        ensures
            match self@.meta.xattr(inode, name@) {
                Some(v) => r matches Some(reply) && xattr_fits(v, size, reply),
                None => r is None,
            },
    {
        match self.cache.get_xattr(inode, name) {
            Some(v) => Some(xattr_reply(v, size)),
            None => None,
        }
    }

    /// The server sent an extended attribute, or has none: then there is no
    /// data.
    pub fn getxattr_finish(&mut self, inode: u64, name: &str, size: u32, value: Option<Vec<u8>>)
        -> (r: Result<XattrReply, i32>)
        requires
            old(self).wf(),
        ensures
            final(self).wf(),
            match value {
                Some(v) => {
                    &&& final(self)@ == FsView {
                        meta: old(self)@.meta.xattr_set(inode, name@, v@),
                        ..old(self)@
                    }
                    &&& xattr_fits(v@, size, r)
                },
                None => final(self)@ == old(self)@ && r == Err::<XattrReply, i32>(ENODATA),
            },
    {
        match value {
            Some(v) => {
                self.cache.set_xattr(inode, name, v.as_slice());
                xattr_reply(v, size)
            },
            None => Err(ENODATA),
        }
    }

    /// True if the server has to be asked for the names of a file's extended
    /// attributes: the cache knows none.
    pub fn listxattr_asks(&self, inode: u64) -> (r: bool)
        ensures
            r == (self@.meta.has(inode) ==> self@.meta.entries[inode].xattrs.len() == 0),
    {
        let v: Vec<String> = self.cache.list_xattrs(inode);
        proof {
            assert(text::texts(v@).len() == v@.len());
        }
        v.len() == 0
    }

    /// The server sent the name of an extended attribute: it is kept without a
    /// value, unless the cache has one.
    pub fn listxattr_seen(&mut self, inode: u64, name: &str)
        requires
            old(self).wf(),
        ensures
            final(self).wf(),
            final(self)@ == (FsView {
                meta: if old(self)@.meta.xattr(inode, name@) is None {
                    old(self)@.meta.xattr_set(inode, name@, Seq::empty())
                } else {
                    old(self)@.meta
                },
                ..old(self)@
            }),
    {
        if self.cache.get_xattr(inode, name).is_none() {
            let empty: Vec<u8> = Vec::new();
            assert(empty@ =~= Seq::<u8>::empty());
            self.cache.set_xattr(inode, name, empty.as_slice());
        }
    }

    /// The names of a file's extended attributes, each with a zero byte behind
    /// it.
    pub fn listxattr_reply(&self, inode: u64, size: u32) -> (r: Result<XattrReply, i32>)
        ensures
            xattr_fits(
                name_list(
                    if self@.meta.has(inode) {
                        names::names_of(self@.meta.entries[inode].xattrs)
                    } else {
                        Seq::empty()
                    },
                ),
                size,
                r,
            ),
    {
        let v: Vec<String> = self.cache.list_xattrs(inode);
        xattr_reply(join_names(&v), size)
    }

    /// Forget an extended attribute. Fails where the cache has none.
    pub fn removexattr_finish(&mut self, inode: u64, name: &str) -> (r: Result<(), i32>)
        requires
            old(self).wf(),
        ensures
            final(self).wf(),
            r == if old(self)@.meta.xattr(inode, name@) is Some {
                Ok::<(), i32>(())
            } else {
                Err::<(), i32>(ENODATA)
            },
            final(self)@ == (FsView {
                meta: old(self)@.meta.alter(
                    inode,
                    EntryView {
                        xattrs: names::erase(old(self)@.meta.entries[inode].xattrs, name@),
                        ..old(self)@.meta.entries[inode]
                    },
                ),
                ..old(self)@
            }),
    {
        if self.cache.remove_xattr(inode, name) {
            Ok(())
        } else {
            Err(ENODATA)
        }
    }

    /// The target of a symbolic link as the cache knows it.
    pub fn readlink_begin(&self, inode: u64) -> (r: Option<String>)
        ensures
            opt_text(r) == if self@.meta.has(inode) {
                self@.meta.entries[inode].symlink_target
            } else {
                None
            },
    {
        self.cache.get_symlink_target(inode)
    }

    /// The server sent the target of a symbolic link.
    pub fn readlink_finish(&mut self, inode: u64, target: String)
        requires
            old(self).wf(),
        ensures
            final(self).wf(),
            final(self)@ == (FsView {
                meta: old(self)@.meta.alter(
                    inode,
                    EntryView {
                        is_symlink: true,
                        size: crate::metadata_cache::byte_len(target@),
                        symlink_target: Some(target@),
                        ..old(self)@.meta.entries[inode]
                    },
                ),
                ..old(self)@
            }),
    {
        self.cache.set_symlink_target(inode, target);
    }
}

} // verus!
