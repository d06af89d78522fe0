//! Small files whose data lives in the metadata record: the buffer that holds
//! their data while they are open, and when and how it goes to the server.

use dashmap::DashMap;
use vstd::prelude::*;

verus! {

/// No file larger than this keeps its data in the metadata record: 8 KiB.
pub const INLINE_HARD_LIMIT: u64 = 8192;

/// How often an update is sent before it counts as failed.
pub const MAX_ATTEMPTS: u32 = 5;

/// How often a buffer that keeps growing is sent in one go.
pub const MAX_SYNC_ROUNDS: u32 = 3;

/// What an inline buffer says.
pub struct InlineView {
    pub data: Seq<u8>,
    pub dirty: bool,
    pub original_len: usize,
    pub modified_in_place: bool,
    pub needs_refresh: bool,
}

/// The data of a small file while it is in use.
#[derive(Debug)]
pub struct InlineBuffer {
    pub data: Vec<u8>,
    /// The buffer holds changes that the server has not seen.
    pub dirty: bool,
    /// The length of the data when it was last in step with the server.
    pub original_len: usize,
    /// Some write changed data below `original_len`.
    pub modified_in_place: bool,
    /// The server's copy changed while this one was dirty: fetch it at the
    /// next open.
    pub needs_refresh: bool,
}

impl View for InlineBuffer {
    type V = InlineView;

    open spec fn view(&self) -> InlineView {
        InlineView {
            data: self.data@,
            dirty: self.dirty,
            original_len: self.original_len,
            modified_in_place: self.modified_in_place,
            needs_refresh: self.needs_refresh,
        }
    }
}

/// The buffer of a file that was read from the server.
pub open spec fn fetched_buffer(data: Seq<u8>) -> InlineView {
    InlineView {
        data,
        dirty: false,
        original_len: data.len() as usize,
        modified_in_place: false,
        needs_refresh: false,
    }
}

/// The buffer of a file that was just created: empty, and clean until the first
/// write.
pub open spec fn created_buffer() -> InlineView {
    InlineView {
        data: Seq::empty(),
        dirty: false,
        original_len: 0,
        modified_in_place: false,
        needs_refresh: false,
    }
}

impl Default for InlineBuffer {
    fn default() -> (r: Self)
        ensures
            r@ == fetched_buffer(Seq::empty()),
    {
        let r = InlineBuffer {
            data: Vec::new(),
            dirty: false,
            original_len: 0,
            modified_in_place: false,
            needs_refresh: false,
        };
        assert(r@.data =~= Seq::<u8>::empty());
        r
    }
}

impl Clone for InlineBuffer {
    fn clone(&self) -> (r: Self)
        ensures
            r@ == self@,
    {
        let data: Vec<u8> = self.data.clone();
        assert(data@ =~= self.data@);
        InlineBuffer {
            data,
            dirty: self.dirty,
            original_len: self.original_len,
            modified_in_place: self.modified_in_place,
            needs_refresh: self.needs_refresh,
        }
    }
}

/// The data after `bytes` were written at `at`. A gap before them is filled
/// with zeros.
pub open spec fn spliced(data: Seq<u8>, at: int, bytes: Seq<u8>) -> Seq<u8> {
    Seq::new(
        if data.len() > at + bytes.len() {
            data.len()
        } else {
            (at + bytes.len()) as nat
        },
        |i: int|
            if at <= i < at + bytes.len() {
                bytes[i - at]
            } else if i < data.len() {
                data[i]
            } else {
                0u8
            },
    )
}

/// The data with zeros added, or cut, to length `n`.
pub open spec fn sized(data: Seq<u8>, n: int) -> Seq<u8> {
    Seq::new(n as nat, |i: int|
        if i < data.len() {
            data[i]
        } else {
            0u8
        })
}

/// The data between `offset` and at most `size` bytes behind it.
pub open spec fn slice_of(data: Seq<u8>, offset: u64, size: u32) -> Seq<u8> {
    if offset >= data.len() {
        Seq::empty()
    } else if offset + size < data.len() {
        data.subrange(offset as int, offset + size)
    } else {
        data.skip(offset as int)
    }
}

/// The data after `bytes` were written at `at`.
pub fn splice(data: &[u8], at: usize, bytes: &[u8]) -> (r: Vec<u8>)
    requires
        at + bytes@.len() <= usize::MAX,
    ensures
        r@ == spliced(data@, at as int, bytes@),
{
    let end: usize = at + bytes.len();
    let mut r: Vec<u8> = Vec::new();
    let n: usize = if data.len() > end {
        data.len()
    } else {
        end
    };
    let ghost goal = spliced(data@, at as int, bytes@);
    let mut i: usize = 0;
    while i < n
        invariant
            i <= n,
            end == at + bytes@.len(),
            n == goal.len(),
            goal == spliced(data@, at as int, bytes@),
            r@ == goal.take(i as int),
        decreases n - i,
    {
        let b: u8 = if at <= i && i < end {
            bytes[i - at]
        } else if i < data.len() {
            data[i]
        } else {
            0
        };
        r.push(b);
        i += 1;
        assert(r@ =~= goal.take(i as int));
    }
    assert(goal.take(n as int) =~= goal);
    r
}

/// The data with zeros added, or cut, to length `n`.
pub fn resize(data: &Vec<u8>, n: usize) -> (r: Vec<u8>)
    ensures
        r@ == sized(data@, n as int),
{
    let mut r: Vec<u8> = Vec::new();
    let ghost goal = sized(data@, n as int);
    let mut i: usize = 0;
    while i < n
        invariant
            i <= n,
            goal == sized(data@, n as int),
            r@ == goal.take(i as int),
        decreases n - i,
    {
        r.push(
            if i < data.len() {
                data[i]
            } else {
                0
            },
        );
        i += 1;
        assert(r@ =~= goal.take(i as int));
    }
    assert(goal.take(n as int) =~= goal);
    r
}

/// `n` zero bytes.
pub fn zeros(n: usize) -> (r: Vec<u8>)
    ensures
        r@ == Seq::new(n as nat, |i: int| 0u8),
{
    let empty: Vec<u8> = Vec::new();
    let r: Vec<u8> = resize(&empty, n);
    assert(r@ =~= Seq::new(n as nat, |i: int| 0u8));
    r
}

/// How far a buffer may grow before its file is moved to a volume: one and a
/// half times the file's own limit, and never beyond the hard one.
pub open spec fn migrate_threshold(max_size: u64) -> int {
    if max_size * 3 / 2 < INLINE_HARD_LIMIT {
        max_size * 3 / 2
    } else {
        INLINE_HARD_LIMIT as int
    }
}

/// How far a buffer may grow before its file is moved to a volume.
pub fn migration_threshold(max_size: u32) -> (r: u64)
    ensures
        r == migrate_threshold(max_size as u64),
{
    let t: u64 = (max_size as u64) * 3 / 2;
    if t < INLINE_HARD_LIMIT {
        t
    } else {
        INLINE_HARD_LIMIT
    }
}

impl InlineView {
    /// The buffer after `bytes` were written at `at`.
    pub open spec fn written(self, at: u64, bytes: Seq<u8>) -> InlineView {
        InlineView {
            data: spliced(self.data, at as int, bytes),
            dirty: true,
            modified_in_place: self.modified_in_place || at < self.original_len,
            ..self
        }
    }

    /// The buffer after the file was cut or extended to `size`.
    pub open spec fn truncated(self, size: u64) -> InlineView {
        InlineView { data: sized(self.data, size as int), dirty: true, ..self }
    }

    /// What a sync of the buffer sends. Nothing where the buffer is clean, and
    /// nothing where it neither grew nor changed in place: sending it would
    /// wipe what other clients appended. A buffer that only grew sends what is
    /// new, to be appended; any other buffer replaces the server's copy.
    pub open spec fn sync_plan(self) -> SyncPlan {
        if !self.dirty {
            SyncPlan::Clean
        } else if self.modified_in_place || self.data.len() < self.original_len {
            SyncPlan::Overwrite
        } else if self.data.len() > self.original_len {
            SyncPlan::Append
        } else {
            SyncPlan::Unchanged
        }
    }

    /// The bytes that a sync of the buffer sends.
    pub open spec fn sync_data(self) -> Seq<u8> {
        if self.sync_plan() is Append {
            self.data.skip(self.original_len as int)
        } else {
            self.data
        }
    }
}

/// What a sync of an inline buffer has to do.
#[derive(Debug, Clone, Copy, PartialEq, Eq, Structural)]
pub enum SyncPlan {
    /// The buffer is clean.
    Clean,
    /// The buffer is dirty, but the data is what the server has.
    Unchanged,
    /// The data grew: send what is new, to be appended.
    Append,
    /// The data changed: send all of it.
    Overwrite,
}

impl InlineBuffer {
    /// Write `bytes` at `at`.
    pub fn write_at(&mut self, at: usize, bytes: &[u8])
        requires
            at + bytes@.len() <= usize::MAX,
        ensures
            final(self)@ == old(self)@.written(at as u64, bytes@),
    {
        self.data = splice(self.data.as_slice(), at, bytes);
        self.dirty = true;
        if at < self.original_len {
            self.modified_in_place = true;
        }
    }

    /// Cut or extend the data to `size` bytes.
    pub fn truncate(&mut self, size: usize)
        ensures
            final(self)@ == old(self)@.truncated(size as u64),
    {
        self.data = resize(&self.data, size);
        self.dirty = true;
    }

    /// At most `size` bytes from `offset` on.
    pub fn read_at(&self, offset: u64, size: u32) -> (r: Vec<u8>)
        ensures
            r@ == slice_of(self.data@, offset, size),
    {
        let len: usize = self.data.len();
        if offset >= len as u64 {
            let r: Vec<u8> = Vec::new();
            assert(r@ =~= Seq::<u8>::empty());
            return r;
        }
        let start: usize = offset as usize;
        let end: usize = if ((len - start) as u64) > size as u64 {
            start + size as usize
        } else {
            len
        };
        assert(self.data@.subrange(start as int, end as int) =~= slice_of(
            self.data@,
            offset,
            size,
        ));
        vstd::slice::slice_to_vec(
            vstd::slice::slice_subrange(self.data.as_slice(), start, end),
        )
    }

    /// What a sync of the buffer has to do.
    pub fn plan_sync(&self) -> (r: SyncPlan)
        ensures
            r == self@.sync_plan(),
    {
        if !self.dirty {
            SyncPlan::Clean
        } else if self.modified_in_place || self.data.len() < self.original_len {
            SyncPlan::Overwrite
        } else if self.data.len() > self.original_len {
            SyncPlan::Append
        } else {
            SyncPlan::Unchanged
        }
    }

    /// The bytes that a sync of the buffer sends.
    pub fn data_to_sync(&self) -> (r: Vec<u8>)
        ensures
            r@ == self@.sync_data(),
    {
        let start: usize = match self.plan_sync() {
            SyncPlan::Append => self.original_len,
            _ => 0,
        };
        assert(self.data@.subrange(start as int, self.data@.len() as int) =~= self@.sync_data());
        vstd::slice::slice_to_vec(
            vstd::slice::slice_subrange(self.data.as_slice(), start, self.data.len()),
        )
    }
}

/// Appending what a grown buffer sends to what the server had gives the whole
/// buffer, as long as the server's copy did not change in between.
pub proof fn law_append_sync_completes(b: InlineView, server: Seq<u8>)
    requires
        b.sync_plan() is Append,
        server == b.data.take(b.original_len as int),
    ensures
        server + b.sync_data() == b.data,
{
    assert(server + b.sync_data() =~= b.data);
}

/// Writes that only append to a buffer leave the data below `original_len`
/// alone, so that a later sync can append.
pub proof fn law_append_writes_stay_appends(b: InlineView, at: u64, bytes: Seq<u8>)
    requires
        !b.modified_in_place,
        b.original_len <= b.data.len(),
        at >= b.original_len,
    ensures
        !b.written(at, bytes).modified_in_place,
        b.written(at, bytes).data.take(b.original_len as int) == b.data.take(
            b.original_len as int,
        ),
        !(b.written(at, bytes).sync_plan() is Overwrite),
{
    assert(b.written(at, bytes).data.take(b.original_len as int) =~= b.data.take(
        b.original_len as int,
    ));
}

/// What was written is what is read back, and the rest of the file is as it
/// was; a gap reads as zeros.
pub proof fn law_read_back(b: InlineView, at: u64, bytes: Seq<u8>, i: int)
    requires
        0 <= i < b.written(at, bytes).data.len(),
    ensures
        b.written(at, bytes).data[i] == if at <= i < at + bytes.len() {
            bytes[i - at]
        } else if i < b.data.len() {
            b.data[i]
        } else {
            0u8
        },
{
}

/// What comes after an update was sent.
#[derive(Debug, Clone, Copy, PartialEq, Eq, Structural)]
pub enum RetryStep {
    /// The server took it.
    Done,
    /// Wait, then send it again.
    WaitThenRetry { wait_ms: u64 },
    /// It was sent often enough.
    GiveUp,
}

/// What comes after the `attempt`th sending of an update: the wait grows by
/// half a second each time.
pub open spec fn retry_after(attempt: u32, accepted: bool) -> RetryStep {
    if accepted {
        RetryStep::Done
    } else if attempt < MAX_ATTEMPTS {
        RetryStep::WaitThenRetry { wait_ms: (500 * attempt) as u64 }
    } else {
        RetryStep::GiveUp
    }
}

/// What comes after the `attempt`th sending of an update.
pub fn next_attempt(attempt: u32, accepted: bool) -> (r: RetryStep)
    ensures
        r == retry_after(attempt, accepted),
{
    if accepted {
        RetryStep::Done
    } else if attempt < MAX_ATTEMPTS {
        RetryStep::WaitThenRetry { wait_ms: 500 * (attempt as u64) }
    } else {
        RetryStep::GiveUp
    }
}

/// `dashmap::DashMap`, opaque.
#[verifier::external_type_specification]
#[verifier::external_body]
#[verifier::reject_recursive_types(K)]
#[verifier::reject_recursive_types(V)]
#[verifier::reject_recursive_types(S)]
pub struct ExDashMap<K, V, S>(DashMap<K, V, S>);

/// The buffers that a map holds.
pub uninterp spec fn buffers_of(m: &DashMap<u64, InlineBuffer>) -> Map<u64, InlineView>;

/// The size limits that a map holds.
pub uninterp spec fn limits_of(m: &DashMap<u64, u32>) -> Map<u64, u32>;

/// The names that a map holds.
pub uninterp spec fn cursors_of(m: &DashMap<u64, String>) -> Map<u64, Seq<char>>;

/// No buffer.
pub open spec fn no_buffers() -> Map<u64, InlineView> {
    Map::empty()
}

/// No size limit.
pub open spec fn no_limits() -> Map<u64, u32> {
    Map::empty()
}

/// No name.
pub open spec fn no_cursors() -> Map<u64, Seq<char>> {
    Map::empty()
}

/// `dashmap::DashMap::new` makes an empty map.
#[verifier::external_body]
pub(crate) fn buffers_new() -> (r: DashMap<u64, InlineBuffer>)
    ensures
        buffers_of(&r) == no_buffers(),
{
    DashMap::new()
}

/// `dashmap::DashMap::get` gives access to the value under a key; a copy of it
/// is handed out.
#[verifier::external_body]
pub(crate) fn buffers_get(m: &DashMap<u64, InlineBuffer>, k: u64) -> (r: Option<InlineBuffer>)
    ensures
        r is Some == buffers_of(m).contains_key(k),
        r matches Some(b) ==> b@ == buffers_of(m)[k],
{
    m.get(&k).map(|b| b.clone())
}

/// `dashmap::DashMap::contains_key` tells whether there is a value under a key.
#[verifier::external_body]
pub(crate) fn buffers_has(m: &DashMap<u64, InlineBuffer>, k: u64) -> (r: bool)
    ensures
        r == buffers_of(m).contains_key(k),
{
    m.contains_key(&k)
}

/// `dashmap::DashMap::insert` sets the value under a key. Nobody else has
/// access to the map meanwhile.
#[verifier::external_body]
pub(crate) fn buffers_insert(m: &mut DashMap<u64, InlineBuffer>, k: u64, b: InlineBuffer)
    ensures
        buffers_of(final(m)) == buffers_of(old(m)).insert(k, b@),
{
    m.insert(k, b);
}

/// `dashmap::DashMap::remove` takes the value under a key out. Nobody else has
/// access to the map meanwhile.
#[verifier::external_body]
pub(crate) fn buffers_remove(m: &mut DashMap<u64, InlineBuffer>, k: u64) -> (r: bool)
    ensures
        buffers_of(final(m)) == buffers_of(old(m)).remove(k),
        r == buffers_of(old(m)).contains_key(k),
{
    m.remove(&k).is_some()
}

/// `dashmap::DashMap::new` makes an empty map.
#[verifier::external_body]
pub(crate) fn limits_new() -> (r: DashMap<u64, u32>)
    ensures
        limits_of(&r) == no_limits(),
{
    DashMap::new()
}

/// `dashmap::DashMap::get` gives access to the value under a key; a copy of it
/// is handed out.
#[verifier::external_body]
pub(crate) fn limits_get(m: &DashMap<u64, u32>, k: u64) -> (r: Option<u32>)
    ensures
        r is Some == limits_of(m).contains_key(k),
        r matches Some(n) ==> n == limits_of(m)[k],
{
    m.get(&k).map(|n| *n)
}

/// `dashmap::DashMap::insert` sets the value under a key. Nobody else has
/// access to the map meanwhile.
#[verifier::external_body]
pub(crate) fn limits_insert(m: &mut DashMap<u64, u32>, k: u64, n: u32)
    ensures
        limits_of(final(m)) == limits_of(old(m)).insert(k, n),
{
    m.insert(k, n);
}

/// `dashmap::DashMap::remove` takes the value under a key out. Nobody else has
/// access to the map meanwhile.
#[verifier::external_body]
pub(crate) fn limits_remove(m: &mut DashMap<u64, u32>, k: u64)
    ensures
        limits_of(final(m)) == limits_of(old(m)).remove(k),
{
    m.remove(&k);
}

/// `dashmap::DashMap::new` makes an empty map.
#[verifier::external_body]
pub(crate) fn cursors_new() -> (r: DashMap<u64, String>)
    ensures
        cursors_of(&r) == no_cursors(),
{
    DashMap::new()
}

/// `dashmap::DashMap::get` gives access to the value under a key; a copy of it
/// is handed out.
#[verifier::external_body]
pub(crate) fn cursors_get(m: &DashMap<u64, String>, k: u64) -> (r: Option<String>)
    ensures
        r is Some == cursors_of(m).contains_key(k),
        r matches Some(s) ==> s@ == cursors_of(m)[k],
{
    m.get(&k).map(|s| s.clone())
}

/// `dashmap::DashMap::insert` sets the value under a key. Nobody else has
/// access to the map meanwhile.
#[verifier::external_body]
pub(crate) fn cursors_insert(m: &mut DashMap<u64, String>, k: u64, s: String)
    ensures
        cursors_of(final(m)) == cursors_of(old(m)).insert(k, s@),
{
    m.insert(k, s);
}

/// `dashmap::DashMap::remove` takes the value under a key out. Nobody else has
/// access to the map meanwhile.
#[verifier::external_body]
pub(crate) fn cursors_remove(m: &mut DashMap<u64, String>, k: u64)
    ensures
        cursors_of(final(m)) == cursors_of(old(m)).remove(k),
{
    m.remove(&k);
}

} // verus!
