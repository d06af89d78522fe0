//! Cached entries: what the client knows of an inode, the lifecycle of that
//! knowledge, and the count of open handles that hold it in place.

use crate::client_cap::{CapView, ClientCap};
use crate::names::NameMap;
use vstd::prelude::*;

verus! {

/// The inode of the file system's root directory.
pub const ROOT_INODE: u64 = 1;

/// The number of a volume.
#[derive(Debug, Clone, Copy, PartialEq, Eq, Structural)]
pub struct VolumeId(pub u64);

/// Where the data of a flat file starts: a volume and the key of the first
/// needle on it.
#[derive(Debug, Clone, Copy, PartialEq, Eq, Structural)]
pub struct Fid {
    pub volume_id: VolumeId,
    pub cookie: u32,
    pub file_key: u64,
}

/// One piece of a file's data and the needle that stores it.
#[derive(Debug, Clone, Copy, PartialEq, Eq, Structural)]
pub struct CachedFileChunk {
    pub offset: u64,
    pub size: u64,
    pub mtime: u64,
    pub needle_id: u64,
    pub volume_id: u64,
    pub crc32: u32,
}

/// A chunk record as the server sends it.
#[derive(Debug, Clone, Copy, PartialEq, Eq, Structural)]
pub struct FileChunk {
    pub offset: u64,
    pub size: u64,
    pub mtime: u64,
    pub needle_id: u64,
    pub volume_id: u64,
    pub crc32: u32,
}

/// The cached form of a chunk record.
pub open spec fn cached_chunk(chunk: FileChunk) -> CachedFileChunk {
    CachedFileChunk {
        offset: chunk.offset,
        size: chunk.size,
        mtime: chunk.mtime,
        needle_id: chunk.needle_id,
        volume_id: chunk.volume_id,
        crc32: chunk.crc32,
    }
}

/// Turn a chunk record of the server into its cached form.
pub fn chunk_from_proto(chunk: FileChunk) -> (r: CachedFileChunk)
    ensures
        r == cached_chunk(chunk),
{
    CachedFileChunk {
        offset: chunk.offset,
        size: chunk.size,
        mtime: chunk.mtime,
        needle_id: chunk.needle_id,
        volume_id: chunk.volume_id,
        crc32: chunk.crc32,
    }
}

/// The cached form of a list of chunk records.
pub open spec fn cached_chunks(chunks: Seq<FileChunk>) -> Seq<CachedFileChunk> {
    Seq::new(chunks.len(), |i: int| cached_chunk(chunks[i]))
}

/// Turn the server's chunk list into its cached form.
pub fn chunks_from_proto(chunks: &Vec<FileChunk>) -> (r: Vec<CachedFileChunk>)
    ensures
        r@ == cached_chunks(chunks@),
{
    let mut r: Vec<CachedFileChunk> = Vec::new();
    let mut i: usize = 0;
    while i < chunks.len()
        invariant
            i <= chunks.len(),
            r@ == cached_chunks(chunks@.take(i as int)),
        decreases chunks.len() - i,
    {
        r.push(chunk_from_proto(chunks[i]));
        i += 1;
        assert(r@ =~= cached_chunks(chunks@.take(i as int)));
    }
    assert(chunks@.take(i as int) =~= chunks@);
    r
}

/// How the data of a file is spread over volumes.
#[derive(Debug, Clone, Copy, PartialEq, Eq, Structural)]
pub enum Placement {
    /// The data lives in the metadata record.
    Inline { max_size: u32 },
    /// One run of needles on one volume.
    Flat,
    /// Stripe units over several volumes.
    Stripe { stripe_size: u64, stripe_count: u32 },
    /// Stripe units over many volumes.
    WideStripe { stripe_size: u64, stripe_count: u32 },
}

/// The stripe size of a placement that has one.
pub open spec fn stripe_size_of(p: Placement) -> Option<u64> {
    match p {
        Placement::Stripe { stripe_size, .. } => Some(stripe_size),
        Placement::WideStripe { stripe_size, .. } => Some(stripe_size),
        _ => None,
    }
}

impl Placement {
    /// The stripe size, for the two striped placements.
    pub fn stripe_size(&self) -> (r: Option<u64>)
        ensures
            r == stripe_size_of(*self),
    {
        match *self {
            Placement::Stripe { stripe_size, .. } => Some(stripe_size),
            Placement::WideStripe { stripe_size, .. } => Some(stripe_size),
            _ => None,
        }
    }
}

/// How the data of a file is protected against the loss of a volume.
#[derive(Debug, Clone, Copy, PartialEq, Eq, Structural)]
pub enum Reliability {
    SingleReplica,
    Replicated { copies: u8 },
    /// The first `data` chunks of a group are data shards, the next `parity`
    /// chunks are parity shards.
    EC { data: u8, parity: u8 },
}

impl Default for Reliability {
    fn default() -> (r: Self)
        ensures
            r == Reliability::SingleReplica,
    {
        Reliability::SingleReplica
    }
}

/// Lifecycle state of a cached entry.
#[derive(Debug, Clone, Copy, PartialEq, Eq, Structural)]
pub enum EntryState {
    /// Just allocated, attributes not yet populated.
    New,
    /// Attributes populated and consistent with the server.
    Clean,
    /// Has local modifications that the server has not seen.
    Dirty,
    /// Local modifications are being sent.
    Flushing,
    /// Out of date: needs a refresh on the next access.
    Stale,
    /// Deleted, about to leave the cache.
    Tombstone,
}

impl Default for EntryState {
    fn default() -> (r: Self)
        ensures
            r == EntryState::New,
    {
        EntryState::New
    }
}

impl EntryState {
    /// The transition matrix of the lifecycle. Staying in a state is always
    /// allowed; local authoritative data (`Dirty`, `Flushing`) never becomes
    /// `Stale`.
    pub open spec fn may_become(self, target: EntryState) -> bool {
        self == target || match self {
            EntryState::New => target is Clean || target is Dirty,
            EntryState::Clean => target is Dirty || target is Stale || target is Tombstone,
            EntryState::Dirty => target is Flushing || target is Tombstone,
            EntryState::Flushing => target is Clean || target is Dirty,
            EntryState::Stale => target is Clean || target is Tombstone,
            EntryState::Tombstone => false,
        }
    }

    /// The state after `target` was asked for.
    pub open spec fn step(self, target: EntryState) -> EntryState {
        if self.may_become(target) {
            target
        } else {
            self
        }
    }

    /// The entry holds local changes, so it outranks the server's copy.
    pub open spec fn is_authoritative(self) -> bool {
        self is Dirty || self is Flushing
    }
}

/// Whether the inode is open.
#[derive(Debug, Clone, Copy, PartialEq, Eq, Structural)]
pub enum HoldState {
    /// No open handle: the entry may expire and may be evicted.
    Unpinned,
    /// At least one open handle: the entry does not expire and is not evicted.
    Pinned { open_count: u32 },
}

impl Default for HoldState {
    fn default() -> (r: Self)
        ensures
            r == HoldState::Unpinned,
    {
        HoldState::Unpinned
    }
}

impl HoldState {
    /// The number of open handles that the state stands for.
    pub open spec fn count(self) -> nat {
        match self {
            HoldState::Unpinned => 0,
            HoldState::Pinned { open_count } => open_count as nat,
        }
    }

    /// The state with one handle more.
    pub open spec fn pinned_once_more(self) -> HoldState {
        match self {
            HoldState::Unpinned => HoldState::Pinned { open_count: 1 },
            HoldState::Pinned { open_count } => HoldState::Pinned {
                open_count: (open_count + 1) as u32,
            },
        }
    }

    /// The state with one handle less.
    pub open spec fn unpinned_once(self) -> HoldState {
        match self {
            HoldState::Unpinned => HoldState::Unpinned,
            HoldState::Pinned { open_count } => if open_count <= 1 {
                HoldState::Unpinned
            } else {
                HoldState::Pinned { open_count: (open_count - 1) as u32 }
            },
        }
    }

    /// True if at least one handle is open.
    pub fn is_pinned(&self) -> (r: bool)
        ensures
            r == (*self is Pinned),
    {
        matches!(self, HoldState::Pinned { .. })
    }
}

/// A lease on one directory entry: until it expires the client may trust what
/// it has cached under that name.
#[derive(Debug, Clone, Copy, PartialEq, Eq, Structural)]
pub struct DentryLease {
    /// When the lease ends, on the monotonic clock, in milliseconds.
    pub expires_ms: u64,
    /// The server node that issued it.
    pub issuer: u64,
}

/// A reading of the two clocks: the monotonic one in milliseconds, by which
/// entries age, and the wall clock in seconds, which time stamps carry.
#[derive(Debug, Clone, Copy, PartialEq, Eq, Structural)]
pub struct Now {
    pub mono_ms: u64,
    pub unix_secs: i64,
}

/// What a cached entry says.
pub struct EntryView {
    pub inode: u64,
    pub parent: u64,
    pub name: Seq<char>,
    pub is_dir: bool,
    pub is_symlink: bool,
    pub symlink_target: Option<Seq<char>>,
    pub nlink: u32,
    pub fid: Option<Fid>,
    pub size: u64,
    pub mode: u32,
    pub uid: u32,
    pub gid: u32,
    pub atime: i64,
    pub mtime: i64,
    pub ctime: i64,
    pub xattrs: Seq<(Seq<char>, Seq<u8>)>,
    pub chunks: Seq<CachedFileChunk>,
    pub hard_link_id: Seq<char>,
    pub hard_link_counter: u32,
    pub content_size: u64,
    pub disk_size: u64,
    pub generation: u64,
    pub placement: Option<Placement>,
    pub reliability: Reliability,
    pub replica_chunks: Seq<CachedFileChunk>,
    pub shard_id: Option<u64>,
    pub cached_at: u64,
    pub state: EntryState,
    pub hold: HoldState,
    pub cap: Option<CapView>,
    pub dentry_lease: Option<DentryLease>,
    pub dir_shared_gen: u64,
}

impl EntryView {
    /// The entry after a transition to `target` was asked for.
    pub open spec fn step(self, target: EntryState) -> EntryView {
        EntryView { state: self.state.step(target), ..self }
    }

    /// The entry is too old to be trusted: nobody holds it open, it carries no
    /// local change, and more than `ttl` has passed since it was cached.
    pub open spec fn expired(self, now_ms: u64, ttl: u64) -> bool {
        &&& !(self.hold is Pinned)
        &&& !self.state.is_authoritative()
        &&& now_ms - self.cached_at > ttl
    }

    /// The entry answers a lookup. One that is open does so even where it is out
    /// of date: its handles have to be served.
    pub open spec fn is_live(self, now_ms: u64, ttl: u64) -> bool {
        &&& !self.expired(now_ms, ttl)
        &&& self.hold is Pinned || !(self.state is Stale)
        &&& !(self.state is Tombstone)
    }
}

/// A cached entry: the metadata of an inode under one of its names.
#[derive(Debug)]
pub struct CachedEntry {
    pub inode: u64,
    pub parent: u64,
    pub name: String,
    pub is_dir: bool,
    pub is_symlink: bool,
    pub symlink_target: Option<String>,
    pub nlink: u32,
    pub fid: Option<Fid>,
    pub size: u64,
    pub mode: u32,
    pub uid: u32,
    pub gid: u32,
    pub atime: i64,
    pub mtime: i64,
    pub ctime: i64,
    pub xattrs: NameMap<Vec<u8>>,
    pub chunks: Vec<CachedFileChunk>,
    pub hard_link_id: String,
    pub hard_link_counter: u32,
    pub content_size: u64,
    pub disk_size: u64,
    pub generation: u64,
    /// Placement strategy. With `Some(Stripe)` and no `fid`, reads and writes
    /// are routed by file offset.
    pub placement: Option<Placement>,
    /// Protection against the loss of a volume.
    pub reliability: Reliability,
    /// Copies of the chunks, read where the primary volume fails.
    pub replica_chunks: Vec<CachedFileChunk>,
    /// The metadata shard that the server named for this inode.
    pub shard_id: Option<u64>,
    /// When this entry was populated, on the monotonic clock.
    pub cached_at: u64,
    /// Lifecycle state.
    pub state: EntryState,
    /// Open handles.
    pub hold: HoldState,
    /// The capability that the server granted on this inode.
    pub cap: Option<ClientCap>,
    /// Lease on the directory entry.
    pub dentry_lease: Option<DentryLease>,
    /// The directory's version when this entry was cached.
    pub dir_shared_gen: u64,
}

/// The characters of an optional string.
pub open spec fn opt_text(s: Option<String>) -> Option<Seq<char>> {
    match s {
        Some(t) => Some(t@),
        None => None,
    }
}

/// What an optional cap record says.
pub open spec fn opt_cap(c: Option<ClientCap>) -> Option<CapView> {
    match c {
        Some(c) => Some(c@),
        None => None,
    }
}

impl View for CachedEntry {
    type V = EntryView;

    open spec fn view(&self) -> EntryView {
        EntryView {
            inode: self.inode,
            parent: self.parent,
            name: self.name@,
            is_dir: self.is_dir,
            is_symlink: self.is_symlink,
            symlink_target: opt_text(self.symlink_target),
            nlink: self.nlink,
            fid: self.fid,
            size: self.size,
            mode: self.mode,
            uid: self.uid,
            gid: self.gid,
            atime: self.atime,
            mtime: self.mtime,
            ctime: self.ctime,
            xattrs: self.xattrs@,
            chunks: self.chunks@,
            hard_link_id: self.hard_link_id@,
            hard_link_counter: self.hard_link_counter,
            content_size: self.content_size,
            disk_size: self.disk_size,
            generation: self.generation,
            placement: self.placement,
            reliability: self.reliability,
            replica_chunks: self.replica_chunks@,
            shard_id: self.shard_id,
            cached_at: self.cached_at,
            state: self.state,
            hold: self.hold,
            cap: opt_cap(self.cap),
            dentry_lease: self.dentry_lease,
            dir_shared_gen: self.dir_shared_gen,
        }
    }
}

/// A copy of a chunk list.
pub fn copy_chunks(chunks: &Vec<CachedFileChunk>) -> (r: Vec<CachedFileChunk>)
    ensures
        r@ == chunks@,
{
    let r: Vec<CachedFileChunk> = chunks.clone();
    assert(r@ =~= chunks@);
    r
}

/// A copy of an optional string.
pub fn copy_opt_string(s: &Option<String>) -> (r: Option<String>)
    ensures
        opt_text(r) == opt_text(*s),
{
    match s {
        Some(t) => Some(t.clone()),
        None => None,
    }
}

/// A copy of an optional cap record.
pub fn copy_opt_cap(c: &Option<ClientCap>) -> (r: Option<ClientCap>)
    ensures
        opt_cap(r) == opt_cap(*c),
{
    match c {
        Some(c) => Some(c.clone()),
        None => None,
    }
}

impl Clone for CachedEntry {
    fn clone(&self) -> (r: Self)
        ensures
            r@ == self@,
    {
        CachedEntry {
            inode: self.inode,
            parent: self.parent,
            name: self.name.clone(),
            is_dir: self.is_dir,
            is_symlink: self.is_symlink,
            symlink_target: copy_opt_string(&self.symlink_target),
            nlink: self.nlink,
            fid: self.fid,
            size: self.size,
            mode: self.mode,
            uid: self.uid,
            gid: self.gid,
            atime: self.atime,
            mtime: self.mtime,
            ctime: self.ctime,
            xattrs: self.xattrs.duplicate(),
            chunks: copy_chunks(&self.chunks),
            hard_link_id: self.hard_link_id.clone(),
            hard_link_counter: self.hard_link_counter,
            content_size: self.content_size,
            disk_size: self.disk_size,
            generation: self.generation,
            placement: self.placement,
            reliability: self.reliability,
            replica_chunks: copy_chunks(&self.replica_chunks),
            shard_id: self.shard_id,
            cached_at: self.cached_at,
            state: self.state,
            hold: self.hold,
            cap: copy_opt_cap(&self.cap),
            dentry_lease: self.dentry_lease,
            dir_shared_gen: self.dir_shared_gen,
        }
    }
}

impl CachedEntry {
    /// Ask for a state transition. Returns `false`, and leaves the entry as it
    /// is, where the lifecycle does not allow it.
    pub fn try_transition(&mut self, target: EntryState) -> (allowed: bool)
        ensures
            allowed == old(self).state.may_become(target),
            final(self)@ == old(self)@.step(target),
    {
        let allowed: bool = self.state == target || match self.state {
            EntryState::New => matches!(target, EntryState::Clean | EntryState::Dirty),
            EntryState::Clean => matches!(
                target,
                EntryState::Dirty | EntryState::Stale | EntryState::Tombstone
            ),
            EntryState::Dirty => matches!(target, EntryState::Flushing | EntryState::Tombstone),
            EntryState::Flushing => matches!(target, EntryState::Clean | EntryState::Dirty),
            EntryState::Stale => matches!(target, EntryState::Clean | EntryState::Tombstone),
            EntryState::Tombstone => false,
        };
        if allowed {
            self.state = target;
        }
        allowed
    }

    /// Count one more open handle.
    pub fn pin(&mut self)
        requires
            old(self).hold.count() < u32::MAX,
        ensures
            final(self)@ == (EntryView { hold: old(self).hold.pinned_once_more(), ..old(self)@ }),
    {
        match self.hold {
            HoldState::Unpinned => {
                self.hold = HoldState::Pinned { open_count: 1 };
            },
            HoldState::Pinned { open_count } => {
                self.hold = HoldState::Pinned { open_count: open_count + 1 };
            },
        }
    }

    /// Count one open handle less. Returns `true` if that was the last one.
    pub fn unpin(&mut self) -> (released: bool)
        ensures
            final(self)@ == (EntryView { hold: old(self).hold.unpinned_once(), ..old(self)@ }),
            released == (old(self).hold is Pinned && old(self).hold.count() <= 1),
    {
        match self.hold {
            HoldState::Pinned { open_count } => {
                if open_count <= 1 {
                    self.hold = HoldState::Unpinned;
                    true
                } else {
                    self.hold = HoldState::Pinned { open_count: open_count - 1 };
                    false
                }
            },
            HoldState::Unpinned => false,
        }
    }
}

/// Local changes are never declared stale: neither a dirty entry nor one
/// being flushed can become `Stale`, and a dirty entry cannot become `Clean`
/// without being flushed.
pub proof fn law_local_changes_survive(e: EntryView)
    ensures
        e.state.is_authoritative() ==> e.step(EntryState::Stale) == e,
        e.state is Dirty ==> e.step(EntryState::Clean) == e,
        e.state.is_authoritative() ==> !(e.step(EntryState::Stale).state is Stale),
{
}

/// A flush that fails takes an entry back to `Dirty`, and one that succeeds
/// takes it to `Clean`, whatever writes came before it.
pub proof fn law_flush_outcomes(e: EntryView)
    requires
        e.state is Dirty,
    ensures
        e.step(EntryState::Flushing).step(EntryState::Dirty).state is Dirty,
        e.step(EntryState::Flushing).step(EntryState::Clean).state is Clean,
        e.step(EntryState::Flushing).step(EntryState::Dirty).step(EntryState::Clean).state is Dirty,
{
}

/// A deleted entry stays deleted.
pub proof fn law_tombstone_is_final(e: EntryView, target: EntryState)
    requires
        e.state is Tombstone,
    ensures
        e.step(target).state is Tombstone,
{
}

/// Closing a handle undoes opening one, and an entry stays pinned until as
/// many handles were closed as had been opened.
pub proof fn law_unpin_undoes_pin(h: HoldState)
    requires
        h.count() < u32::MAX,
        h is Pinned ==> h.count() > 0,
    ensures
        h.pinned_once_more().unpinned_once() == h,
        h.pinned_once_more().count() == h.count() + 1,
        h.pinned_once_more() is Pinned,
        h.count() > 0 ==> h.unpinned_once().count() == h.count() - 1,
        (h.unpinned_once() is Pinned) == (h.count() > 1),
{
}

/// The attributes that a caller wants to change; `None` leaves one alone.
#[derive(Debug, Clone, Copy, PartialEq, Eq, Structural)]
pub struct UpdateAttrParams {
    pub mode: Option<u32>,
    pub size: Option<u64>,
    pub uid: Option<u32>,
    pub gid: Option<u32>,
    pub atime: Option<i64>,
    pub mtime: Option<i64>,
}

impl Default for UpdateAttrParams {
    fn default() -> (r: Self)
        ensures
            r == (UpdateAttrParams {
                mode: None,
                size: None,
                uid: None,
                gid: None,
                atime: None,
                mtime: None,
            }),
    {
        UpdateAttrParams { mode: None, size: None, uid: None, gid: None, atime: None, mtime: None }
    }
}

} // verus!
