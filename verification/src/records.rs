//! Records that the server sends, how they become cached entries, and how
//! cached entries become the attributes that the kernel sees.

use crate::entry::{
    cached_chunks, chunks_from_proto, copy_opt_string, opt_text, stripe_size_of, CachedEntry,
    EntryState, EntryView, Fid, FileChunk, HoldState, Placement, Reliability, VolumeId,
};
use crate::meta_model::{max_u64, sat_add};
use crate::names::NameMap;
use vstd::prelude::*;

verus! {

/// Directory, as a directory entry's type.
pub const DT_DIR: u8 = 4;

/// Symbolic link, as a directory entry's type.
pub const DT_LNK: u8 = 10;

/// The file type bits of a mode.
pub const S_IFMT: u32 = 0o170000;

/// The type bits of a directory.
pub const S_IFDIR: u32 = 0o040000;

/// The type bits of a regular file.
pub const S_IFREG: u32 = 0o100000;

/// The type bits of a symbolic link.
pub const S_IFLNK: u32 = 0o120000;

/// How long the kernel may keep attributes: 100 milliseconds.
pub const TTL_MS: u64 = 100;

/// How long the kernel may keep the attributes of an open file: not at all.
pub const TTL_OPEN_MS: u64 = 0;

/// The attributes of an inode as the metadata service sends them.
#[derive(Debug)]
pub struct MetadataAttr {
    pub inode: u64,
    pub file_type: u8,
    pub mode: u32,
    pub uid: u32,
    pub gid: u32,
    pub size: u64,
    pub nlink: u32,
    pub atime: u64,
    pub mtime: u64,
    pub ctime: i64,
    pub symlink_target: Option<String>,
    pub volume_id: Option<u64>,
    pub file_key: Option<u64>,
    pub chunks: Vec<FileChunk>,
    pub placement: Option<Placement>,
    pub reliability: Reliability,
    pub replica_chunks: Vec<FileChunk>,
    pub shard_id: Option<u64>,
    /// The data lives in the metadata record.
    pub is_inline: bool,
    pub inline_max_size: Option<u32>,
    pub inline_data: Option<Vec<u8>>,
    /// The version of the directory that was asked.
    pub dir_version: u64,
    /// How long the name may be trusted; 0 where no lease was granted.
    pub dentry_lease_ttl_ms: u64,
}

/// The POSIX attributes of a stored entry.
#[derive(Debug, Clone, Copy, PartialEq, Eq, Structural)]
pub struct FilerAttrs {
    pub ino: u64,
    pub mode: u32,
    pub nlink: u32,
    pub uid: u32,
    pub gid: u32,
    pub size: u64,
    pub atime: u64,
    pub mtime: u64,
    pub ctime: u64,
}

/// A stored entry as the server sends it.
#[derive(Debug)]
pub struct FilerEntry {
    pub name: String,
    pub attributes: Option<FilerAttrs>,
    pub chunks: Vec<FileChunk>,
    pub replica_chunks: Vec<FileChunk>,
    pub symlink_target: String,
    pub hard_link_id: String,
    pub hard_link_counter: u32,
    pub content_size: u64,
    pub disk_size: u64,
    pub generation: u64,
}

/// One row of a directory listing, with attributes where the server added
/// them.
#[derive(Debug)]
pub struct MetadataDirEntry {
    pub inode: u64,
    pub name: String,
    pub file_type: u8,
    pub attrs: Option<MetadataAttr>,
    pub child_shard_id: u64,
}

/// The attributes that the kernel sees.
#[derive(Debug, Clone, Copy, PartialEq, Eq, Structural)]
pub struct Stat {
    pub ino: u64,
    pub mode: u32,
    pub nlink: u64,
    pub uid: u32,
    pub gid: u32,
    pub size: i64,
    pub blksize: i64,
    pub blocks: i64,
    pub atime: i64,
    pub mtime: i64,
    pub ctime: i64,
}

/// The answer to a lookup. A name that does not exist is answered with inode
/// 0 and no attributes.
#[derive(Debug, Clone, Copy, PartialEq, Eq, Structural)]
pub struct FuseEntry {
    pub inode: u64,
    pub generation: u64,
    pub attr: Option<Stat>,
    pub attr_flags: u32,
    pub attr_timeout_ms: u64,
    pub entry_timeout_ms: u64,
}

/// A 64-bit pattern read as a signed number.
pub open spec fn as_signed(x: u64) -> i64 {
    if x <= i64::MAX {
        x as i64
    } else {
        (x - 0x1_0000_0000_0000_0000) as i64
    }
}

/// A 64-bit pattern read as a signed number.
pub fn to_signed(x: u64) -> (r: i64)
    ensures
        r == as_signed(x),
{
    if x <= 0x7fff_ffff_ffff_ffff {
        x as i64
    } else {
        -1 - ((u64::MAX - x) as i64)
    }
}

/// A signed number as a 64-bit pattern.
pub open spec fn as_unsigned(x: i64) -> u64 {
    if x >= 0 {
        x as u64
    } else {
        (x + 0x1_0000_0000_0000_0000) as u64
    }
}

/// A signed number as a 64-bit pattern.
pub fn to_unsigned(x: i64) -> (r: u64)
    ensures
        r == as_unsigned(x),
{
    if x >= 0 {
        x as u64
    } else {
        u64::MAX - ((-1 - x) as u64)
    }
}

/// The number, or the largest signed one where it is larger.
pub open spec fn capped_signed(x: u64) -> i64 {
    if x <= i64::MAX {
        x as i64
    } else {
        i64::MAX
    }
}

/// The entry of a fresh, empty record: no data, no cap, no lease.
pub open spec fn blank_entry(
    inode: u64,
    parent: u64,
    name: Seq<char>,
    now_ms: u64,
) -> EntryView {
    EntryView {
        inode,
        parent,
        name,
        is_dir: false,
        is_symlink: false,
        symlink_target: None,
        nlink: 1,
        fid: None,
        size: 0,
        mode: 0,
        uid: 0,
        gid: 0,
        atime: 0,
        mtime: 0,
        ctime: 0,
        xattrs: Seq::empty(),
        chunks: Seq::empty(),
        hard_link_id: Seq::empty(),
        hard_link_counter: 0,
        content_size: 0,
        disk_size: 0,
        generation: 0,
        placement: None,
        reliability: Reliability::SingleReplica,
        replica_chunks: Seq::empty(),
        shard_id: None,
        cached_at: now_ms,
        state: EntryState::New,
        hold: HoldState::Unpinned,
        cap: None,
        dentry_lease: None,
        dir_shared_gen: 0,
    }
}

/// The entry of a fresh, empty record.
pub fn make_blank(inode: u64, parent: u64, name: &str, now_ms: u64) -> (r: CachedEntry)
    ensures
        r@ == blank_entry(inode, parent, name@, now_ms),
{
    CachedEntry {
        inode,
        parent,
        name: name.to_owned(),
        is_dir: false,
        is_symlink: false,
        symlink_target: None,
        nlink: 1,
        fid: None,
        size: 0,
        mode: 0,
        uid: 0,
        gid: 0,
        atime: 0,
        mtime: 0,
        ctime: 0,
        xattrs: NameMap::new(),
        chunks: Vec::new(),
        hard_link_id: String::new(),
        hard_link_counter: 0,
        content_size: 0,
        disk_size: 0,
        generation: 0,
        placement: None,
        reliability: Reliability::SingleReplica,
        replica_chunks: Vec::new(),
        shard_id: None,
        cached_at: now_ms,
        state: EntryState::New,
        hold: HoldState::Unpinned,
        cap: None,
        dentry_lease: None,
        dir_shared_gen: 0,
    }
}

/// The file id of a run of needles.
pub open spec fn fid_of(volume_id: u64, file_key: u64) -> Fid {
    Fid { volume_id: VolumeId(volume_id), cookie: 0, file_key }
}

/// The file id of a file by its first chunk.
pub open spec fn fid_of_first(chunks: Seq<FileChunk>) -> Option<Fid> {
    if chunks.len() > 0 {
        Some(fid_of(chunks[0].volume_id, chunks[0].needle_id))
    } else {
        None
    }
}

impl MetadataAttr {
    /// The data is spread over stripe units.
    pub open spec fn striped(&self) -> bool {
        self.placement matches Some(p) && stripe_size_of(p) is Some
    }

    /// The file id of a flat file: none where a placement routes the data,
    /// else the one that the server named, else that of the first chunk.
    pub open spec fn fid(&self) -> Option<Fid> {
        if self.placement is Some {
            None
        } else if self.volume_id is Some && self.file_key is Some {
            Some(fid_of(self.volume_id->0, self.file_key->0))
        } else {
            fid_of_first(self.chunks@)
        }
    }

    /// True if the data is spread over stripe units.
    pub fn is_stripe(&self) -> (r: bool)
        ensures
            r == self.striped(),
    {
        match &self.placement {
            Some(p) => p.stripe_size().is_some(),
            None => false,
        }
    }

    /// True for a directory.
    pub fn is_dir(&self) -> (r: bool)
        ensures
            r == (self.file_type == DT_DIR),
    {
        self.file_type == DT_DIR
    }
}

/// The entry that the attributes of an inode describe.
pub open spec fn entry_of_attr(
    attr: &MetadataAttr,
    parent: u64,
    name: Seq<char>,
    now_ms: u64,
) -> EntryView {
    EntryView {
        is_dir: attr.file_type == DT_DIR,
        is_symlink: attr.file_type == DT_LNK,
        symlink_target: opt_text(attr.symlink_target),
        nlink: attr.nlink,
        fid: attr.fid(),
        size: attr.size,
        mode: attr.mode,
        uid: attr.uid,
        gid: attr.gid,
        atime: as_signed(attr.atime),
        mtime: as_signed(attr.mtime),
        ctime: attr.ctime,
        chunks: cached_chunks(attr.chunks@),
        content_size: attr.size,
        placement: attr.placement,
        reliability: attr.reliability,
        replica_chunks: cached_chunks(attr.replica_chunks@),
        shard_id: attr.shard_id,
        ..blank_entry(attr.inode, parent, name, now_ms)
    }
}

/// The entry that the attributes of an inode describe. The attributes do not
/// say where the inode stands: that comes from the caller.
pub fn attr_to_cached_entry(attr: &MetadataAttr, parent: u64, name: &str, now_ms: u64) -> (r:
    CachedEntry)
    ensures
        r@ == entry_of_attr(attr, parent, name@, now_ms),
{
    let mut e: CachedEntry = make_blank(attr.inode, parent, name, now_ms);
    e.is_dir = attr.file_type == DT_DIR;
    e.is_symlink = attr.file_type == DT_LNK;
    e.symlink_target = copy_opt_string(&attr.symlink_target);
    e.nlink = attr.nlink;
    e.fid = if attr.placement.is_some() {
        None
    } else {
        match (attr.volume_id, attr.file_key) {
            (Some(vol), Some(key)) => Some(
                Fid { volume_id: VolumeId(vol), cookie: 0, file_key: key },
            ),
            _ => first_fid(&attr.chunks),
        }
    };
    e.size = attr.size;
    e.mode = attr.mode;
    e.uid = attr.uid;
    e.gid = attr.gid;
    e.atime = to_signed(attr.atime);
    e.mtime = to_signed(attr.mtime);
    e.ctime = attr.ctime;
    e.chunks = chunks_from_proto(&attr.chunks);
    e.content_size = attr.size;
    e.placement = attr.placement;
    e.reliability = attr.reliability;
    e.replica_chunks = chunks_from_proto(&attr.replica_chunks);
    e.shard_id = attr.shard_id;
    e
}

/// The file id of a file by its first chunk.
fn first_fid(chunks: &Vec<FileChunk>) -> (r: Option<Fid>)
    ensures
        r == fid_of_first(chunks@),
{
    if chunks.len() > 0 {
        Some(
            Fid {
                volume_id: VolumeId(chunks[0].volume_id),
                cookie: 0,
                file_key: chunks[0].needle_id,
            },
        )
    } else {
        None
    }
}

/// The largest end of a chunk; 0 where there is none. An end that is too large
/// for a number counts as the largest number.
pub open spec fn largest_end(chunks: Seq<FileChunk>) -> u64
    decreases chunks.len(),
{
    if chunks.len() == 0 {
        0
    } else {
        max_u64(
            largest_end(chunks.drop_last()),
            sat_add(chunks.last().offset, chunks.last().size),
        )
    }
}

/// The size of a file: the attributes' size, or else the content size, or else
/// the largest end of a chunk.
pub open spec fn stored_size(entry: &FilerEntry) -> u64 {
    if entry.attributes is Some && entry.attributes->0.size > 0 {
        entry.attributes->0.size
    } else if entry.content_size > 0 {
        entry.content_size
    } else {
        largest_end(entry.chunks@)
    }
}

/// The entry that a stored entry describes. Without attributes it is a plain
/// file of mode 0644 with inode 0.
pub open spec fn entry_of_stored(parent: u64, entry: &FilerEntry, now_ms: u64) -> EntryView {
    let base = EntryView {
        fid: fid_of_first(entry.chunks@),
        size: stored_size(entry),
        mode: 0o644,
        chunks: cached_chunks(entry.chunks@),
        hard_link_id: entry.hard_link_id@,
        hard_link_counter: entry.hard_link_counter,
        content_size: entry.content_size,
        disk_size: entry.disk_size,
        generation: entry.generation,
        replica_chunks: cached_chunks(entry.replica_chunks@),
        ..blank_entry(0, parent, entry.name@, now_ms)
    };
    match entry.attributes {
        None => base,
        Some(a) => {
            let is_symlink = a.mode & S_IFMT == S_IFLNK;
            EntryView {
                inode: a.ino,
                is_dir: a.mode & S_IFMT == S_IFDIR,
                is_symlink,
                symlink_target: if is_symlink {
                    Some(entry.symlink_target@)
                } else {
                    None
                },
                nlink: a.nlink,
                mode: a.mode & 0o7777,
                uid: a.uid,
                gid: a.gid,
                atime: as_signed(a.atime),
                mtime: as_signed(a.mtime),
                ctime: as_signed(a.ctime),
                ..base
            }
        },
    }
}

/// The entry that a stored entry describes.
pub fn entry_to_cached(parent: u64, entry: &FilerEntry, now_ms: u64) -> (r: CachedEntry)
    ensures
        r@ == entry_of_stored(parent, entry, now_ms),
{
    let mut e: CachedEntry = make_blank(0, parent, entry.name.as_str(), now_ms);
    let attrs_size: u64 = match &entry.attributes {
        Some(a) => a.size,
        None => 0,
    };
    e.fid = first_fid(&entry.chunks);
    e.size = if attrs_size > 0 {
        attrs_size
    } else if entry.content_size > 0 {
        entry.content_size
    } else {
        find_largest_end(&entry.chunks)
    };
    e.mode = 0o644;
    e.chunks = chunks_from_proto(&entry.chunks);
    e.hard_link_id = entry.hard_link_id.clone();
    e.hard_link_counter = entry.hard_link_counter;
    e.content_size = entry.content_size;
    e.disk_size = entry.disk_size;
    e.generation = entry.generation;
    e.replica_chunks = chunks_from_proto(&entry.replica_chunks);
    if let Some(a) = &entry.attributes {
        e.inode = a.ino;
        e.is_dir = a.mode & S_IFMT == S_IFDIR;
        e.is_symlink = a.mode & S_IFMT == S_IFLNK;
        e.symlink_target = if e.is_symlink {
            Some(entry.symlink_target.clone())
        } else {
            None
        };
        e.nlink = a.nlink;
        e.mode = a.mode & 0o7777;
        e.uid = a.uid;
        e.gid = a.gid;
        e.atime = to_signed(a.atime);
        e.mtime = to_signed(a.mtime);
        e.ctime = to_signed(a.ctime);
    }
    e
}

/// The largest end of a chunk; 0 where there is none.
fn find_largest_end(chunks: &Vec<FileChunk>) -> (r: u64)
    ensures
        r == largest_end(chunks@),
{
    let mut best: u64 = 0;
    let mut i: usize = 0;
    assert(chunks@.take(0) =~= Seq::<FileChunk>::empty());
    while i < chunks.len()
        invariant
            i <= chunks.len(),
            best == largest_end(chunks@.take(i as int)),
        decreases chunks.len() - i,
    {
        assert(chunks@.take(i as int + 1).drop_last() =~= chunks@.take(i as int));
        assert(chunks@.take(i as int + 1).last() == chunks@[i as int]);
        let end: u64 = chunks[i].offset.saturating_add(chunks[i].size);
        if end > best {
            best = end;
        }
        i += 1;
    }
    assert(chunks@.take(i as int) =~= chunks@);
    best
}

/// The entry that a listing row with attributes describes. Times come in
/// milliseconds and are capped; the shard is the row's own where it names one.
pub open spec fn entry_of_row(
    dir: u64,
    row: &MetadataDirEntry,
    attr: &MetadataAttr,
    now_ms: u64,
) -> EntryView {
    let is_symlink = row.file_type == DT_LNK;
    EntryView {
        is_dir: row.file_type == DT_DIR,
        is_symlink,
        symlink_target: if is_symlink {
            opt_text(attr.symlink_target)
        } else {
            None
        },
        nlink: if attr.nlink > 1 {
            attr.nlink
        } else {
            1
        },
        size: attr.size,
        mode: attr.mode & 0o7777,
        uid: attr.uid,
        gid: attr.gid,
        atime: capped_signed(attr.atime),
        mtime: capped_signed(attr.mtime),
        ctime: attr.ctime,
        content_size: attr.size,
        disk_size: attr.size,
        placement: attr.placement,
        reliability: attr.reliability,
        shard_id: if row.child_shard_id != 0 {
            Some(row.child_shard_id)
        } else {
            attr.shard_id
        },
        state: EntryState::Stale,
        ..blank_entry(row.inode, dir, row.name@, now_ms)
    }
}

/// The number, or the largest signed one where it is larger.
fn cap_signed(x: u64) -> (r: i64)
    ensures
        r == capped_signed(x),
{
    if x <= 0x7fff_ffff_ffff_ffff {
        x as i64
    } else {
        i64::MAX
    }
}

/// The entry that a listing row with attributes describes: a value of last
/// resort, until a lookup brings the real one.
pub fn row_to_cached(dir: u64, row: &MetadataDirEntry, attr: &MetadataAttr, now_ms: u64) -> (r:
    CachedEntry)
    ensures
        r@ == entry_of_row(dir, row, attr, now_ms),
{
    let mut e: CachedEntry = make_blank(row.inode, dir, row.name.as_str(), now_ms);
    e.is_dir = row.file_type == DT_DIR;
    e.is_symlink = row.file_type == DT_LNK;
    e.symlink_target = if e.is_symlink {
        copy_opt_string(&attr.symlink_target)
    } else {
        None
    };
    e.nlink = if attr.nlink > 1 {
        attr.nlink
    } else {
        1
    };
    e.size = attr.size;
    e.mode = attr.mode & 0o7777;
    e.uid = attr.uid;
    e.gid = attr.gid;
    e.atime = cap_signed(attr.atime);
    e.mtime = cap_signed(attr.mtime);
    e.ctime = attr.ctime;
    e.content_size = attr.size;
    e.disk_size = attr.size;
    e.placement = attr.placement;
    e.reliability = attr.reliability;
    e.shard_id = if row.child_shard_id != 0 {
        Some(row.child_shard_id)
    } else {
        attr.shard_id
    };
    e.state = EntryState::Stale;
    e
}

/// The mode that the kernel sees: a link or a directory says so itself, a
/// special file's mode already says what it is, and anything else is a
/// regular file.
pub open spec fn stat_mode(e: EntryView) -> u32 {
    if e.is_symlink {
        (e.mode & !S_IFMT) | S_IFLNK
    } else if e.is_dir {
        (e.mode & !S_IFMT) | S_IFDIR
    } else if e.mode & S_IFMT != 0 {
        e.mode
    } else {
        e.mode | S_IFREG
    }
}

/// The attributes of an entry that the kernel sees.
pub open spec fn stat_of(e: EntryView) -> Stat {
    Stat {
        ino: e.inode,
        mode: stat_mode(e),
        nlink: e.nlink as u64,
        uid: e.uid,
        gid: e.gid,
        size: as_signed(e.size),
        blksize: 4096,
        blocks: ((e.size + 511) / 512) as i64,
        atime: e.atime,
        mtime: e.mtime,
        ctime: e.ctime,
    }
}

/// The attributes of an entry that the kernel sees. Blocks count 512 bytes,
/// the last one rounded up.
pub fn create_stat(entry: &CachedEntry) -> (r: Stat)
    ensures
        r == stat_of(entry@),
{
    let mode: u32 = if entry.is_symlink {
        (entry.mode & !S_IFMT) | S_IFLNK
    } else if entry.is_dir {
        (entry.mode & !S_IFMT) | S_IFDIR
    } else if (entry.mode & S_IFMT) != 0 {
        entry.mode
    } else {
        entry.mode | S_IFREG
    };
    let whole: u64 = entry.size / 512;
    let blocks: u64 = if entry.size % 512 == 0 {
        whole
    } else {
        whole + 1
    };
    Stat {
        ino: entry.inode,
        mode,
        nlink: entry.nlink as u64,
        uid: entry.uid,
        gid: entry.gid,
        size: to_signed(entry.size),
        blksize: 4096,
        blocks: blocks as i64,
        atime: entry.atime,
        mtime: entry.mtime,
        ctime: entry.ctime,
    }
}

/// The answer to a lookup that found an entry.
pub open spec fn fuse_entry_of(e: EntryView) -> FuseEntry {
    FuseEntry {
        inode: e.inode,
        generation: 0,
        attr: Some(stat_of(e)),
        attr_flags: 0,
        attr_timeout_ms: TTL_MS,
        entry_timeout_ms: TTL_MS,
    }
}

/// The answer to a lookup of a name that does not exist.
pub open spec fn negative_entry() -> FuseEntry {
    FuseEntry {
        inode: 0,
        generation: 0,
        attr: None,
        attr_flags: 0,
        attr_timeout_ms: 0,
        entry_timeout_ms: 0,
    }
}

/// The answer to a lookup that found an entry.
pub fn create_fuse_entry(cached: &CachedEntry) -> (r: FuseEntry)
    ensures
        r == fuse_entry_of(cached@),
{
    FuseEntry {
        inode: cached.inode,
        generation: 0,
        attr: Some(create_stat(cached)),
        attr_flags: 0,
        attr_timeout_ms: TTL_MS,
        entry_timeout_ms: TTL_MS,
    }
}

/// The answer to a lookup of a name that does not exist.
pub fn create_negative_entry() -> (r: FuseEntry)
    ensures
        r == negative_entry(),
{
    FuseEntry {
        inode: 0,
        generation: 0,
        attr: None,
        attr_flags: 0,
        attr_timeout_ms: 0,
        entry_timeout_ms: 0,
    }
}

/// The type bits that the kernel sees never contradict the entry: a directory
/// shows as one, a link as one, and the permission bits are kept.
pub proof fn law_stat_mode_type(e: EntryView)
    ensures
        e.is_symlink ==> stat_mode(e) & S_IFMT == S_IFLNK,
        !e.is_symlink && e.is_dir ==> stat_mode(e) & S_IFMT == S_IFDIR,
        !e.is_symlink && !e.is_dir ==> stat_mode(e) & S_IFMT != 0,
        stat_mode(e) & 0o7777 == e.mode & 0o7777,
{
    let m = e.mode;
    assert(((m & !0o170000u32) | 0o120000u32) & 0o170000u32 == 0o120000u32) by (bit_vector);
    assert(((m & !0o170000u32) | 0o040000u32) & 0o170000u32 == 0o040000u32) by (bit_vector);
    assert((m | 0o100000u32) & 0o170000u32 != 0) by (bit_vector);
    assert(((m & !0o170000u32) | 0o120000u32) & 0o7777u32 == m & 0o7777u32) by (bit_vector);
    assert(((m & !0o170000u32) | 0o040000u32) & 0o7777u32 == m & 0o7777u32) by (bit_vector);
    assert((m | 0o100000u32) & 0o7777u32 == m & 0o7777u32) by (bit_vector);
}

} // verus!
