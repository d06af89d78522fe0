//! Bringing a file's size, chunk list and inline data to the server.

use crate::entry::{CachedFileChunk, EntryState, EntryView};
use crate::fs::{FsView, PowerFsFs};
use crate::inline::{
    buffers_get, buffers_has, buffers_insert, next_attempt, retry_after, InlineBuffer, InlineView,
    RetryStep, SyncPlan, MAX_SYNC_ROUNDS,
};
use crate::meta_model::MetaView;
use vstd::prelude::*;

verus! {

/// An update of a file's size and data map on the server.
#[derive(Debug)]
pub struct UpdateRequest {
    pub shard_id: u64,
    pub inode: u64,
    pub size: u64,
    pub chunks: Vec<CachedFileChunk>,
    pub inline_data: Option<Vec<u8>>,
    pub is_append: bool,
}

/// The shard that an inode's record lives on: the one that the server named,
/// or else the computed one.
pub open spec fn shard_of(meta: MetaView, inode: u64, computed: u64, now_ms: u64) -> u64 {
    match meta.answer(inode, now_ms) {
        Some(e) => match e.shard_id {
            Some(s) => s,
            None => computed,
        },
        None => computed,
    }
}

/// A file whose data the server keeps in its metadata record, and whose buffer
/// is gone: the server must not be told that it has no data.
pub open spec fn inline_at_rest(fs: FsView, inode: u64, e: EntryView) -> bool {
    e.fid is None && e.chunks.len() == 0 && !fs.inline.contains_key(inode)
}

/// How far the sync of an inline buffer came.
#[derive(Debug, Clone, Copy, PartialEq, Eq, Structural)]
pub struct InlineSync {
    pub inode: u64,
    /// How often the buffer was found grown.
    pub round: u32,
    /// How often the update of this round was sent.
    pub attempt: u32,
    /// The length of the buffer when this round began.
    pub size: u64,
    /// The update of this round appends.
    pub is_append: bool,
}

/// What the sync of an inline buffer asks for next.
#[derive(Debug)]
pub enum InlineSyncAction {
    /// Send this data: with `is_append` it is added to what the server has,
    /// without it replaces that.
    Send { data: Vec<u8>, size: u64, is_append: bool },
    /// Wait, then send the same update again.
    Resend { wait_ms: u64 },
    /// Finished; `synced` tells whether anything was sent.
    Done { synced: bool },
    /// The server did not take the update.
    Failed,
}

/// The state after a buffer was replaced.
pub open spec fn with_buffer(fs: FsView, inode: u64, b: InlineView) -> FsView {
    FsView { inline: fs.inline.insert(inode, b), ..fs }
}

/// The start of a round: what it does to the state.
pub open spec fn round_started(fs: FsView, inode: u64) -> FsView {
    if fs.inline.contains_key(inode) && fs.inline[inode].sync_plan() is Unchanged {
        with_buffer(fs, inode, InlineView { dirty: false, ..fs.inline[inode] })
    } else {
        fs
    }
}

/// The start of a round: what it asks for.
pub open spec fn round_action(fs: FsView, inode: u64, a: InlineSyncAction) -> bool {
    if !fs.inline.contains_key(inode) {
        a == InlineSyncAction::Done { synced: false }
    } else {
        let b = fs.inline[inode];
        match b.sync_plan() {
            SyncPlan::Clean => a == InlineSyncAction::Done { synced: false },
            SyncPlan::Unchanged => a == InlineSyncAction::Done { synced: false },
            SyncPlan::Append => a matches InlineSyncAction::Send { data, size, is_append }
                && data@ == b.sync_data() && size == 0 && is_append,
            SyncPlan::Overwrite => a matches InlineSyncAction::Send { data, size, is_append }
                && data@ == b.sync_data() && size == b.data.len() && !is_append,
        }
    }
}

/// The progress record of a round that has begun.
pub open spec fn round_record(fs: FsView, st: InlineSync) -> InlineSync {
    if fs.inline.contains_key(st.inode) && (fs.inline[st.inode].sync_plan() is Append
        || fs.inline[st.inode].sync_plan() is Overwrite) {
        InlineSync {
            attempt: 1,
            size: fs.inline[st.inode].data.len() as u64,
            is_append: fs.inline[st.inode].sync_plan() is Append,
            ..st
        }
    } else {
        st
    }
}

/// The buffer after the server took an update of its first `st.size` bytes.
pub open spec fn taken_by_server(b: InlineView, st: InlineSync) -> InlineView {
    InlineView {
        original_len: if st.is_append {
            st.size as usize
        } else {
            b.original_len
        },
        dirty: if b.data.len() > st.size {
            b.dirty
        } else {
            false
        },
        ..b
    }
}

/// The state after the server took an update.
pub open spec fn update_taken(fs: FsView, st: InlineSync) -> FsView {
    if fs.inline.contains_key(st.inode) {
        with_buffer(fs, st.inode, taken_by_server(fs.inline[st.inode], st))
    } else {
        fs
    }
}

/// The buffer grew while the update was on its way, and there is a round left
/// to send the rest.
pub open spec fn goes_on(fs: FsView, st: InlineSync) -> bool {
    fs.inline.contains_key(st.inode) && fs.inline[st.inode].data.len() > st.size && st.round + 1
        < MAX_SYNC_ROUNDS
}

impl PowerFsFs {
    /// The shard that an inode's record lives on: the one that the server
    /// named, or else the computed one.
    pub fn routing_shard(&mut self, inode: u64, computed: u64, now_ms: u64) -> (r: u64)
        requires
            old(self).wf(),
        ensures
            final(self).wf(),
            r == shard_of(old(self)@.meta, inode, computed, now_ms),
            final(self)@ == (FsView { meta: old(self)@.meta.fetched(inode, now_ms), ..old(self)@ }),
    {
        match self.cache.get_inode(inode, now_ms) {
            Some(e) => match e.shard_id {
                Some(s) => s,
                None => computed,
            },
            None => computed,
        }
    }

    /// The update that tells the server a file's size and chunks when it is
    /// closed. None is due where the file is not cached, is a directory, or
    /// has its data in the metadata record.
    pub fn sync_request(&mut self, inode: u64, computed_shard: u64, now_ms: u64) -> (r: Option<
        UpdateRequest,
    >)
        requires
            old(self).wf(),
        ensures
            final(self).wf(),
            ({
                let v = old(self)@;
                let looked = v.meta.fetched(inode, now_ms);
                match v.meta.answer(inode, now_ms) {
                    Some(e) => if e.is_dir || inline_at_rest(v, inode, e) {
                        r is None && final(self)@ == FsView { meta: looked, ..v }
                    } else {
                        &&& r matches Some(u) && {
                            &&& u.shard_id == shard_of(looked, inode, computed_shard, now_ms)
                            &&& u.inode == inode
                            &&& u.size == e.content_size
                            &&& u.chunks@ == e.chunks
                            &&& u.inline_data is None
                            &&& !u.is_append
                        }
                        &&& final(self)@ == FsView { meta: looked.fetched(inode, now_ms), ..v }
                    },
                    None => r is None && final(self)@ == FsView { meta: looked, ..v },
                }
            }),
    {
        match self.cache.get_inode(inode, now_ms) {
            None => None,
            Some(e) => {
                if e.is_dir {
                    return None;
                }
                if e.fid.is_none() && e.chunks.len() == 0 && !buffers_has(
                    &self.inline_buffers,
                    inode,
                ) {
                    return None;
                }
                let shard_id: u64 = self.routing_shard(inode, computed_shard, now_ms);
                Some(
                    UpdateRequest {
                        shard_id,
                        inode,
                        size: e.content_size,
                        chunks: e.chunks,
                        inline_data: None,
                        is_append: false,
                    },
                )
            },
        }
    }

    /// Begin to bring an inline buffer to the server.
    pub fn inline_sync_start(&mut self, inode: u64) -> (r: (InlineSync, InlineSyncAction))
        requires
            old(self).wf(),
        ensures
            final(self).wf(),
            final(self)@ == round_started(old(self)@, inode),
            round_action(old(self)@, inode, r.1),
            r.0 == round_record(
                old(self)@,
                InlineSync { inode, round: 0, attempt: 0, size: 0, is_append: false },
            ),
    {
        let mut st = InlineSync { inode, round: 0, attempt: 0, size: 0, is_append: false };
        let a: InlineSyncAction = self.inline_sync_round(&mut st);
        (st, a)
    }

    /// Take a snapshot of the buffer and say what to send.
    fn inline_sync_round(&mut self, st: &mut InlineSync) -> (r: InlineSyncAction)
        requires
            old(self).wf(),
        ensures
            final(self).wf(),
            final(self)@ == round_started(old(self)@, old(st).inode),
            round_action(old(self)@, old(st).inode, r),
            *final(st) == round_record(old(self)@, *old(st)),
    {
        match buffers_get(&self.inline_buffers, st.inode) {
            None => InlineSyncAction::Done { synced: false },
            Some(b) => match b.plan_sync() {
                SyncPlan::Clean => InlineSyncAction::Done { synced: false },
                SyncPlan::Unchanged => {
                    let mut b: InlineBuffer = b;
                    b.dirty = false;
                    buffers_insert(&mut self.inline_buffers, st.inode, b);
                    InlineSyncAction::Done { synced: false }
                },
                SyncPlan::Append => {
                    st.attempt = 1;
                    st.size = b.data.len() as u64;
                    st.is_append = true;
                    InlineSyncAction::Send { data: b.data_to_sync(), size: 0, is_append: true }
                },
                SyncPlan::Overwrite => {
                    st.attempt = 1;
                    st.size = b.data.len() as u64;
                    st.is_append = false;
                    InlineSyncAction::Send {
                        data: b.data_to_sync(),
                        size: b.data.len() as u64,
                        is_append: false,
                    }
                },
            },
        }
    }

    /// The server answered an update of an inline buffer.
    ///
    /// Taken: the buffer is clean, unless it grew meanwhile; then the rest is
    /// sent, as long as there are rounds left. Not taken: the update is sent
    /// again, up to the last attempt, after which the buffer stays dirty.
    pub fn inline_sync_reply(&mut self, st: &mut InlineSync, accepted: bool) -> (r:
        InlineSyncAction)
        requires
            old(self).wf(),
            old(st).size <= usize::MAX,
            old(st).round < MAX_SYNC_ROUNDS,
        ensures
            final(self).wf(),
            final(st).inode == old(st).inode,
            ({
                let v = old(self)@;
                let s = *old(st);
                match retry_after(s.attempt, accepted) {
                    RetryStep::Done => {
                        let after = update_taken(v, s);
                        if goes_on(v, s) {
                            let next = InlineSync { round: (s.round + 1) as u32, ..s };
                            &&& final(self)@ == round_started(after, s.inode)
                            &&& round_action(after, s.inode, r)
                            &&& *final(st) == round_record(after, next)
                        } else {
                            &&& final(self)@ == after
                            &&& r == InlineSyncAction::Done { synced: true }
                            &&& *final(st) == s
                        }
                    },
                    RetryStep::WaitThenRetry { wait_ms } => {
                        &&& final(self)@ == v
                        &&& r == InlineSyncAction::Resend { wait_ms }
                        &&& *final(st) == InlineSync { attempt: (s.attempt + 1) as u32, ..s }
                    },
                    RetryStep::GiveUp => {
                        &&& final(self)@ == if v.inline.contains_key(s.inode) {
                            with_buffer(
                                v,
                                s.inode,
                                InlineView { dirty: true, ..v.inline[s.inode] },
                            )
                        } else {
                            v
                        }
                        &&& r == InlineSyncAction::Failed
                        &&& *final(st) == s
                    },
                }
            }),
    {
        let inode: u64 = st.inode;
        match next_attempt(st.attempt, accepted) {
            RetryStep::Done => {
                let mut grew: bool = false;
                if let Some(b) = buffers_get(&self.inline_buffers, inode) {
                    let mut b: InlineBuffer = b;
                    if st.is_append {
                        b.original_len = st.size as usize;
                    }
                    if b.data.len() as u64 > st.size {
                        grew = true;
                    } else {
                        b.dirty = false;
                    }
                    buffers_insert(&mut self.inline_buffers, inode, b);
                }
                if grew && st.round + 1 < MAX_SYNC_ROUNDS {
                    st.round = st.round + 1;
                    self.inline_sync_round(st)
                } else {
                    InlineSyncAction::Done { synced: true }
                }
            },
            RetryStep::WaitThenRetry { wait_ms } => {
                st.attempt = st.attempt + 1;
                InlineSyncAction::Resend { wait_ms }
            },
            RetryStep::GiveUp => {
                if let Some(b) = buffers_get(&self.inline_buffers, inode) {
                    let mut b: InlineBuffer = b;
                    b.dirty = true;
                    buffers_insert(&mut self.inline_buffers, inode, b);
                }
                InlineSyncAction::Failed
            },
        }
    }

    /// Begin to flush a file whose cap is recalled. Returns true for a file
    /// with an inline buffer, whose entry is then marked as being flushed.
    pub fn cap_flush_begin(&mut self, inode: u64) -> (inline: bool)
        requires
            old(self).wf(),
        ensures
            final(self).wf(),
            inline == old(self)@.inline.contains_key(inode),
            final(self)@ == if inline {
                FsView {
                    meta: old(self)@.meta.stepped(inode, EntryState::Flushing),
                    ..old(self)@
                }
            } else {
                old(self)@
            },
    {
        if buffers_has(&self.inline_buffers, inode) {
            self.cache.mark_flushing(inode);
            true
        } else {
            false
        }
    }

    /// The inline buffer of a file whose cap is recalled was brought to the
    /// server, or was not: the file is clean and its cap flushed, or dirty.
    pub fn cap_flush_inline_end(&mut self, inode: u64, synced: bool, now_ms: u64)
        requires
            old(self).wf(),
        ensures
            final(self).wf(),
            final(self)@ == (FsView {
                meta: if synced {
                    old(self)@.meta.cleaned(inode, now_ms).cap_flushed(inode)
                } else {
                    old(self)@.meta.stepped(inode, EntryState::Dirty)
                },
                ..old(self)@
            }),
    {
        if synced {
            self.cache.mark_clean(inode, now_ms);
            self.cache.mark_cap_flushed(inode);
        } else {
            self.cache.mark_dirty(inode);
        }
    }

    /// The chunks and the metadata of a file whose cap is recalled reached the
    /// servers.
    pub fn cap_flush_chunks_end(&mut self, inode: u64)
        requires
            old(self).wf(),
        ensures
            final(self).wf(),
            final(self)@ == (FsView {
                meta: old(self)@.meta.cap_flushed(inode),
                ..old(self)@
            }),
    {
        self.cache.mark_cap_flushed(inode);
    }
}

/// An update that the server took leaves a buffer that did not grow meanwhile
/// clean, and a grown buffer dirty with only its new part left to send.
pub proof fn law_synced_buffer(fs: FsView, st: InlineSync)
    requires
        fs.inline.contains_key(st.inode),
        st.size <= usize::MAX,
        fs.inline[st.inode].dirty,
        fs.inline[st.inode].data.len() >= st.size,
    ensures
        ({
            let b = fs.inline[st.inode];
            let after = update_taken(fs, st).inline[st.inode];
            &&& after.data == b.data
            &&& b.data.len() == st.size ==> !after.dirty
            &&& b.data.len() > st.size ==> after.dirty
            &&& b.data.len() > st.size && st.is_append && !b.modified_in_place ==> {
                &&& after.sync_plan() is Append
                &&& after.sync_data() == b.data.skip(st.size as int)
            }
        }),
{
}

/// An update is sent at most as often as there are attempts: one that the
/// server takes is not sent again, and the last one that it does not take ends
/// the sync.
pub proof fn law_attempts_are_bounded(attempt: u32, accepted: bool)
    ensures
        accepted ==> retry_after(attempt, accepted) is Done,
        !accepted ==> (retry_after(attempt, accepted) is WaitThenRetry <==> attempt
            < crate::inline::MAX_ATTEMPTS),
        !accepted ==> !(retry_after(attempt, accepted) is Done),
{
}

} // verus!
