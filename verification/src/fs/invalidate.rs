//! Notifications from the server: a file or a name has changed, or a cap is
//! recalled or upgraded.
//!
//! What a notification means for the local caches is decided here; telling the
//! kernel, giving leases back and acknowledging recalls is left to the caller,
//! who is told what is due.

use super::{FsView, PowerFsFs};
use crate::chunk_cache::has_dirty;
use crate::client_cap::{CapSet, RecallAction};
use crate::entry::{EntryState, ROOT_INODE};
use crate::inline::{buffers_get, buffers_insert, buffers_remove, InlineBuffer, InlineView};
use crate::meta_model::MetaView;
use crate::names::{self, NameMap};
use std::collections::HashMap;
use vstd::prelude::*;
use vstd::string::*;

verus! {

/// A notification from the server. Numbers that were not sent are 0, and names
/// that were not sent are empty.
#[derive(Debug)]
pub enum Notification {
    /// An inode changed; with a directory and a name, that name changed too.
    Invalidate { inode: u64, version: u64, parent: u64, name: String },
    /// A cap is recalled. The high half of `packed` is what the client may
    /// keep.
    CapRecall { inode: u64, packed: u8, epoch: u64 },
    /// A cap is upgraded.
    CapUpgrade { inode: u64, granted: u8, epoch: u64, sn: u64 },
    /// Anything else.
    Other,
}

/// How a recall is answered.
#[derive(Debug, Clone, Copy, PartialEq, Eq, Structural)]
pub enum Ack {
    /// At once.
    Immediate,
    /// Once the file is flushed.
    AfterFlush,
}

/// What is due after a notification.
#[derive(Debug)]
pub struct Effects {
    /// The kernel has to forget the name that changed.
    pub forget_name: bool,
    /// The inodes whose data the kernel has to forget, in this order.
    pub forget_inodes: Vec<u64>,
    /// The inode left the caches: its lease and its recall gate go, too.
    pub evicted: bool,
    /// How a recall is answered.
    pub ack: Option<Ack>,
}

/// Which versions were seen.
pub struct SeenView {
    /// The last version of each inode.
    pub inodes: Map<u64, u64>,
    /// The last version of each name, by directory.
    pub names: Map<u64, Seq<(Seq<char>, u64)>>,
}

impl SeenView {
    /// This version of an inode, or a later one, was seen.
    pub open spec fn has_inode(self, inode: u64, version: u64) -> bool {
        self.inodes.contains_key(inode) && version <= self.inodes[inode]
    }

    /// The names of a directory that were seen.
    pub open spec fn names_in(self, parent: u64) -> Seq<(Seq<char>, u64)> {
        if self.names.contains_key(parent) {
            self.names[parent]
        } else {
            Seq::empty()
        }
    }

    /// This version of a name, or a later one, was seen.
    pub open spec fn has_name(self, parent: u64, name: Seq<char>, version: u64) -> bool {
        names::find(self.names_in(parent), name) matches Some(v) && version <= v
    }

    /// The versions after one of an inode was seen.
    pub open spec fn with_inode(self, inode: u64, version: u64) -> SeenView {
        SeenView {
            inodes: self.inodes.insert(
                inode,
                if self.has_inode(inode, version) {
                    self.inodes[inode]
                } else {
                    version
                },
            ),
            ..self
        }
    }

    /// The versions after one of a name was seen.
    pub open spec fn with_name(self, parent: u64, name: Seq<char>, version: u64) -> SeenView {
        SeenView {
            names: self.names.insert(
                parent,
                names::put(
                    self.names_in(parent),
                    name,
                    match names::find(self.names_in(parent), name) {
                        Some(v) => if version <= v {
                            v
                        } else {
                            version
                        },
                        None => version,
                    },
                ),
            ),
            ..self
        }
    }
}

/// The inode must not be evicted: it is open, or has changes that the server
/// has not seen.
pub open spec fn is_protected(fs: FsView, inode: u64) -> bool {
    ||| fs.meta.has(inode) && fs.meta.entries[inode].hold is Pinned
    ||| fs.open.contains_key(inode)
    ||| fs.meta.has(inode) && fs.meta.entries[inode].state.is_authoritative()
    ||| has_dirty(fs.chunks.chunks, inode)
}

/// The inode's inline buffer has changes that the server has not seen.
pub open spec fn buffer_dirty(fs: FsView, inode: u64) -> bool {
    fs.inline.contains_key(inode) && fs.inline[inode].dirty
}

/// The cached entry is older than the server's version, or there is none.
pub open spec fn is_outdated(fs: FsView, inode: u64, version: u64) -> bool {
    fs.meta.has(inode) ==> version > fs.meta.entries[inode].generation
}

/// The inode leaves the caches.
pub open spec fn evicts(fs: FsView, inode: u64, version: u64) -> bool {
    !is_protected(fs, inode) && !buffer_dirty(fs, inode) && is_outdated(fs, inode, version)
}

/// The state after the server said that an inode, not the root, changed.
pub open spec fn invalidate_applied(fs: FsView, inode: u64, version: u64) -> FsView {
    let relisted = FsView {
        meta: fs.meta.leases_dropped(inode).without_listing(inode),
        ..fs
    };
    if is_protected(fs, inode) {
        relisted
    } else if buffer_dirty(fs, inode) {
        FsView {
            inline: fs.inline.insert(
                inode,
                InlineView { needs_refresh: true, ..fs.inline[inode] },
            ),
            ..relisted
        }
    } else if is_outdated(fs, inode, version) {
        FsView {
            meta: relisted.meta.outdated(inode),
            chunks: fs.chunks.dropped(inode),
            inline: fs.inline.remove(inode),
            ..relisted
        }
    } else {
        relisted
    }
}

/// The state after an `Invalidate`, given whether its version was seen before.
pub open spec fn invalidate_handled(fs: FsView, seen: SeenView, inode: u64, version: u64) -> FsView {
    if inode == 0 {
        fs
    } else if inode == ROOT_INODE {
        FsView { meta: fs.meta.stepped(inode, EntryState::Stale), ..fs }
    } else if seen.has_inode(inode, version) {
        fs
    } else {
        invalidate_applied(fs, inode, version)
    }
}

/// The name of an `Invalidate` has to be forgotten.
pub open spec fn name_due(seen: SeenView, parent: u64, name: Seq<char>, version: u64) -> bool {
    parent != 0 && name.len() > 0 && !seen.has_name(parent, name, version)
}

/// The versions that were seen after an `Invalidate`.
pub open spec fn invalidate_seen(
    seen: SeenView,
    inode: u64,
    version: u64,
    parent: u64,
    name: Seq<char>,
) -> SeenView {
    if inode == 0 {
        seen
    } else {
        let named = if name_due(seen, parent, name, version) {
            seen.with_name(parent, name, version)
        } else {
            seen
        };
        if inode != ROOT_INODE && seen.has_inode(inode, version) {
            named
        } else {
            named.with_inode(inode, version)
        }
    }
}

/// The inodes whose data the kernel has to forget after an `Invalidate`.
pub open spec fn invalidate_forgets(fs: FsView, seen: SeenView, inode: u64, version: u64) -> Seq<
    u64,
> {
    if inode == 0 {
        Seq::empty()
    } else if inode == ROOT_INODE {
        seq![ROOT_INODE]
    } else if seen.has_inode(inode, version) || !evicts(fs, inode, version) {
        Seq::empty()
    } else if fs.meta.has(inode) {
        seq![fs.meta.entries[inode].parent, inode]
    } else {
        seq![inode]
    }
}

/// What a recall leaves to the client: the high half of the packed field.
pub open spec fn retained_of(packed: u8) -> CapSet {
    CapSet((packed >> 4) & 0x0f)
}

impl PowerFsFs {
    /// The server said that an inode, not the root, changed. What is known of
    /// the names in it goes in any case. The inode itself goes from the caches
    /// if it is older than the server's version, is not open, and carries no
    /// local change; a dirty inline buffer is only marked for a refresh.
    /// Returns whether it went, and the directory it stood in.
    fn apply_invalidate(&mut self, inode: u64, version: u64) -> (r: (bool, Option<u64>))
        requires
            old(self).wf(),
        ensures
            final(self).wf(),
            final(self)@ == invalidate_applied(old(self)@, inode, version),
            r.0 == evicts(old(self)@, inode, version),
            r.1 == if r.0 && old(self)@.meta.has(inode) {
                Some(old(self)@.meta.entries[inode].parent)
            } else {
                None
            },
    {
        broadcast use vstd::std_specs::hash::group_hash_axioms;

        proof {
            self.lemma_parts();
        }
        self.cache.invalidate_dentry_leases(inode);
        self.cache.invalidate_dir(inode);
        if self.cache.is_pinned(inode) || self.open_inodes.contains_key(&inode) {
            return (false, None);
        }
        if let Some(state) = self.cache.get_entry_state(inode) {
            if state == EntryState::Dirty || state == EntryState::Flushing {
                return (false, None);
            }
        }
        if self.chunk_cache.has_dirty_chunks(inode) {
            return (false, None);
        }
        if let Some(b) = buffers_get(&self.inline_buffers, inode) {
            if b.dirty {
                let mut b: InlineBuffer = b;
                b.needs_refresh = true;
                buffers_insert(&mut self.inline_buffers, inode, b);
                return (false, None);
            }
        }
        if self.cache.is_inode_stale(inode, version) {
            let parent: Option<u64> = match self.cache.peek_inode(inode) {
                Some(e) => Some(e.parent),
                None => None,
            };
            self.cache.invalidate_inode(inode);
            self.chunk_cache.remove_inode_chunks(inode);
            let _had: bool = buffers_remove(&mut self.inline_buffers, inode);
            (true, parent)
        } else {
            (false, None)
        }
    }

    /// The server said that the root changed: it never leaves the cache, but
    /// its attributes are out of date.
    fn apply_root_invalidate(&mut self)
        requires
            old(self).wf(),
        ensures
            final(self).wf(),
            final(self)@ == (FsView {
                meta: old(self)@.meta.stepped(ROOT_INODE, EntryState::Stale),
                ..old(self)@
            }),
    {
        self.cache.mark_stale(ROOT_INODE);
    }

    /// The server recalled a cap.
    fn apply_recall(&mut self, inode: u64, retained: CapSet, epoch: u64) -> (r: Option<
        RecallAction,
    >)
        requires
            old(self).wf(),
        ensures
            final(self).wf(),
            ({
                let m = old(self)@.meta;
                match m.cap_of(inode) {
                    Some(c) => {
                        &&& r == Some(c.recall_action(retained))
                        &&& final(self)@ == FsView {
                            meta: m.cap_set(inode, Some(c.recalled(retained, epoch))),
                            ..old(self)@
                        }
                    },
                    None => {
                        &&& r is None
                        &&& final(self)@ == FsView {
                            meta: m.alter(inode, m.entries[inode]),
                            ..old(self)@
                        }
                    },
                }
            }),
    {
        self.cache.recall_cap(inode, retained, epoch)
    }

    /// The server upgraded a cap.
    fn apply_upgrade(&mut self, inode: u64, granted: CapSet, epoch: u64, sn: u64)
        requires
            old(self).wf(),
        ensures
            final(self).wf(),
            final(self)@ == (FsView {
                meta: upgraded_meta(old(self)@.meta, inode, granted, epoch, sn),
                ..old(self)@
            }),
    {
        let _had: bool = self.cache.upgrade_cap(inode, granted, epoch, sn);
    }
}

/// The cache after the cap of an inode was upgraded.
pub open spec fn upgraded_meta(
    m: MetaView,
    inode: u64,
    granted: CapSet,
    epoch: u64,
    sn: u64,
) -> MetaView {
    match m.cap_of(inode) {
        Some(c) => m.cap_set(inode, Some(c.upgraded(granted, epoch, sn))),
        None => m.alter(inode, m.entries[inode]),
    }
}

/// Handler of the server's notifications. It remembers which versions it has
/// seen: one that comes twice is worked off once.
pub struct InvalidateHandler {
    processed_versions: HashMap<u64, u64>,
    processed_dentry_versions: HashMap<u64, NameMap<u64>>,
}

impl View for InvalidateHandler {
    type V = SeenView;

    closed spec fn view(&self) -> SeenView {
        SeenView {
            inodes: self.processed_versions@,
            names: self.processed_dentry_versions@.map_values(|m: NameMap<u64>| m@),
        }
    }
}

impl InvalidateHandler {
    /// A handler that has seen nothing.
    pub fn new() -> (r: Self)
        ensures
            r@ == (SeenView { inodes: Map::empty(), names: Map::empty() }),
    {
        broadcast use vstd::std_specs::hash::group_hash_axioms;

        let r = InvalidateHandler {
            processed_versions: HashMap::new(),
            processed_dentry_versions: HashMap::new(),
        };
        assert(r@.names =~= Map::<u64, Seq<(Seq<char>, u64)>>::empty());
        r
    }

    /// True if this version of an inode, or a later one, was seen.
    pub fn is_duplicate(&self, inode: u64, version: u64) -> (r: bool)
        ensures
            r == self@.has_inode(inode, version),
    {
        broadcast use vstd::std_specs::hash::group_hash_axioms;

        match self.processed_versions.get(&inode) {
            Some(last) => version <= *last,
            None => false,
        }
    }

    /// Note that a version of an inode was seen.
    pub fn mark_processed(&mut self, inode: u64, version: u64)
        ensures
            final(self)@ == old(self)@.with_inode(inode, version),
    {
        broadcast use vstd::std_specs::hash::group_hash_axioms;

        let last: u64 = match self.processed_versions.get(&inode) {
            Some(last) => if version <= *last {
                *last
            } else {
                version
            },
            None => version,
        };
        self.processed_versions.insert(inode, last);
    }

    /// True if this version of a name, or a later one, was seen.
    pub fn is_duplicate_dentry(&self, parent: u64, name: &str, version: u64) -> (r: bool)
        ensures
            r == self@.has_name(parent, name@, version),
    {
        broadcast use vstd::std_specs::hash::group_hash_axioms;

        match self.processed_dentry_versions.get(&parent) {
            Some(m) => {
                assert(self@.names_in(parent) == m@);
                match m.get(name) {
                    Some(last) => version <= *last,
                    None => false,
                }
            },
            None => false,
        }
    }

    /// Note that a version of a name was seen.
    pub fn mark_dentry_processed(&mut self, parent: u64, name: &str, version: u64)
        ensures
            final(self)@ == old(self)@.with_name(parent, name@, version),
    {
        broadcast use vstd::std_specs::hash::group_hash_axioms;

        let mut m: NameMap<u64> = match self.processed_dentry_versions.remove(&parent) {
            Some(m) => m,
            None => NameMap::new(),
        };
        assert(m@ =~= old(self)@.names_in(parent));
        let last: u64 = match m.get(name) {
            Some(last) => if version <= *last {
                *last
            } else {
                version
            },
            None => version,
        };
        m.insert(name.to_owned(), last);
        let ghost mv = m@;
        self.processed_dentry_versions.insert(parent, m);
        assert(self@.names =~= old(self)@.names.insert(parent, mv));
    }

    /// Work a notification off.
    pub fn handle_notification(&mut self, fs: &mut PowerFsFs, note: &Notification) -> (r: Effects)
        requires
            old(fs).wf(),
        ensures
            final(fs).wf(),
            match *note {
                Notification::Invalidate { inode, version, parent, name } => {
                    &&& final(fs)@ == invalidate_handled(old(fs)@, old(self)@, inode, version)
                    &&& final(self)@ == invalidate_seen(
                        old(self)@,
                        inode,
                        version,
                        parent,
                        name@,
                    )
                    &&& r.forget_name == (inode != 0 && name_due(
                        old(self)@,
                        parent,
                        name@,
                        version,
                    ))
                    &&& r.forget_inodes@ == invalidate_forgets(
                        old(fs)@,
                        old(self)@,
                        inode,
                        version,
                    )
                    &&& r.evicted == (inode != 0 && inode != ROOT_INODE && !old(
                        self,
                    )@.has_inode(inode, version) && evicts(old(fs)@, inode, version))
                    &&& r.ack is None
                },
                Notification::CapRecall { inode, packed, epoch } => {
                    &&& final(self)@ == old(self)@
                    &&& !r.forget_name && r.forget_inodes@.len() == 0 && !r.evicted
                    &&& if inode == 0 {
                        r.ack is None && final(fs)@ == old(fs)@
                    } else {
                        let m = old(fs)@.meta;
                        let retained = retained_of(packed);
                        match m.cap_of(inode) {
                            Some(c) => {
                                &&& r.ack == Some(
                                    if c.recall_action(retained) is ImmediateAck {
                                        Ack::Immediate
                                    } else {
                                        Ack::AfterFlush
                                    },
                                )
                                &&& final(fs)@ == FsView {
                                    meta: m.cap_set(inode, Some(c.recalled(retained, epoch))),
                                    ..old(fs)@
                                }
                            },
                            None => {
                                &&& r.ack == Some(Ack::Immediate)
                                &&& final(fs)@ == FsView {
                                    meta: m.alter(inode, m.entries[inode]),
                                    ..old(fs)@
                                }
                            },
                        }
                    }
                },
                Notification::CapUpgrade { inode, granted, epoch, sn } => {
                    &&& final(self)@ == old(self)@
                    &&& !r.forget_name && r.forget_inodes@.len() == 0 && !r.evicted && r.ack is None
                    &&& final(fs)@ == if inode == 0 {
                        old(fs)@
                    } else {
                        FsView {
                            meta: upgraded_meta(
                                old(fs)@.meta,
                                inode,
                                CapSet(granted),
                                epoch,
                                sn,
                            ),
                            ..old(fs)@
                        }
                    }
                },
                Notification::Other => {
                    &&& final(self)@ == old(self)@
                    &&& final(fs)@ == old(fs)@
                    &&& !r.forget_name && r.forget_inodes@.len() == 0 && !r.evicted && r.ack is None
                },
            },
    {
        match note {
            Notification::Invalidate { inode, version, parent, name } => self.handle_invalidate(
                fs,
                *inode,
                *version,
                *parent,
                name.as_str(),
            ),
            Notification::CapRecall { inode, packed, epoch } => {
                let mut e: Effects = no_effects();
                if *inode != 0 {
                    let bits: u8 = (*packed >> 4) & 0x0f;
                    e.ack = Some(
                        match fs.apply_recall(*inode, CapSet(bits), *epoch) {
                            Some(RecallAction::FlushThenAck { flushing_caps: _ }) => Ack::AfterFlush,
                            Some(RecallAction::ImmediateAck) => Ack::Immediate,
                            None => Ack::Immediate,
                        },
                    );
                }
                e
            },
            Notification::CapUpgrade { inode, granted, epoch, sn } => {
                if *inode != 0 {
                    fs.apply_upgrade(*inode, CapSet(*granted), *epoch, *sn);
                }
                no_effects()
            },
            Notification::Other => no_effects(),
        }
    }

    /// Work an `Invalidate` off.
    fn handle_invalidate(
        &mut self,
        fs: &mut PowerFsFs,
        inode: u64,
        version: u64,
        parent: u64,
        name: &str,
    ) -> (r: Effects)
        requires
            old(fs).wf(),
        ensures
            final(fs).wf(),
            final(fs)@ == invalidate_handled(old(fs)@, old(self)@, inode, version),
            final(self)@ == invalidate_seen(old(self)@, inode, version, parent, name@),
            r.forget_name == (inode != 0 && name_due(old(self)@, parent, name@, version)),
            r.forget_inodes@ == invalidate_forgets(old(fs)@, old(self)@, inode, version),
            r.evicted == (inode != 0 && inode != ROOT_INODE && !old(self)@.has_inode(
                inode,
                version,
            ) && evicts(old(fs)@, inode, version)),
            r.ack is None,
    {
        let mut e: Effects = no_effects();
        assert(e.forget_inodes@ =~= Seq::<u64>::empty());
        if inode == 0 {
            return e;
        }
        if parent != 0 && !name.is_empty() {
            if !self.is_duplicate_dentry(parent, name, version) {
                e.forget_name = true;
                self.mark_dentry_processed(parent, name, version);
            }
        }
        if inode == ROOT_INODE {
            e.forget_inodes.push(inode);
            assert(e.forget_inodes@ =~= seq![ROOT_INODE]);
            fs.apply_root_invalidate();
            self.mark_processed(inode, version);
            return e;
        }
        if self.is_duplicate(inode, version) {
            return e;
        }
        let (evicted, dir) = fs.apply_invalidate(inode, version);
        if evicted {
            e.evicted = true;
            if let Some(p) = dir {
                e.forget_inodes.push(p);
                e.forget_inodes.push(inode);
                assert(e.forget_inodes@ =~= seq![p, inode]);
            } else {
                e.forget_inodes.push(inode);
                assert(e.forget_inodes@ =~= seq![inode]);
            }
        }
        self.mark_processed(inode, version);
        e
    }
}

/// Nothing is due.
fn no_effects() -> (r: Effects)
    ensures
        !r.forget_name,
        r.forget_inodes@.len() == 0,
        !r.evicted,
        r.ack is None,
{
    Effects { forget_name: false, forget_inodes: Vec::new(), evicted: false, ack: None }
}

/// A notification that comes twice is worked off once: the second one changes
/// neither the caches nor what was seen. The root is the exception, which may
/// be marked out of date again.
pub proof fn law_duplicates_change_nothing(
    fs: FsView,
    seen: SeenView,
    inode: u64,
    version: u64,
    later: FsView,
)
    requires
        inode != ROOT_INODE,
        inode != 0,
    ensures
        ({
            let after = invalidate_seen(seen, inode, version, 0, Seq::empty());
            &&& after.has_inode(inode, version)
            &&& invalidate_handled(later, after, inode, version) == later
            &&& invalidate_forgets(later, after, inode, version).len() == 0
            &&& invalidate_seen(after, inode, version, 0, Seq::empty()) == after
        }),
{
}

/// The version that was seen of an inode never goes back.
pub proof fn law_seen_versions_grow(
    seen: SeenView,
    inode: u64,
    version: u64,
    parent: u64,
    name: Seq<char>,
    other: u64,
    v: u64,
)
    requires
        seen.has_inode(other, v),
    ensures
        invalidate_seen(seen, inode, version, parent, name).has_inode(other, v),
{
}

/// An inode that is open, or that carries changes that the server has not
/// seen, keeps its entry, its data and its buffer, whatever the server says.
pub proof fn law_protected_inodes_stay(fs: FsView, seen: SeenView, inode: u64, version: u64)
    requires
        inode != ROOT_INODE,
        is_protected(fs, inode) || buffer_dirty(fs, inode),
    ensures
        ({
            let after = invalidate_handled(fs, seen, inode, version);
            &&& after.meta.has(inode) == fs.meta.has(inode)
            &&& fs.meta.has(inode) ==> {
                &&& after.meta.entries[inode].state == fs.meta.entries[inode].state
                &&& after.meta.entries[inode].hold == fs.meta.entries[inode].hold
                &&& after.meta.entries[inode].content_size == fs.meta.entries[inode].content_size
                &&& after.meta.entries[inode].chunks == fs.meta.entries[inode].chunks
                &&& after.meta.entries[inode].cap == fs.meta.entries[inode].cap
            }
            &&& after.chunks == fs.chunks
            &&& after.waiting == fs.waiting
            &&& fs.inline.contains_key(inode) ==> after.inline.contains_key(inode)
                && after.inline[inode].data == fs.inline[inode].data && after.inline[inode].dirty
                == fs.inline[inode].dirty
        }),
{
}

/// The root never leaves the cache.
pub proof fn law_root_is_never_evicted(fs: FsView, seen: SeenView, inode: u64, version: u64)
    requires
        fs.meta.has(ROOT_INODE),
    ensures
        invalidate_handled(fs, seen, inode, version).meta.has(ROOT_INODE),
{
}

/// An inode that nobody protects, and whose entry is older than the server's
/// version, is gone afterwards, with its data and its buffer.
pub proof fn law_outdated_inodes_go(fs: FsView, seen: SeenView, inode: u64, version: u64)
    requires
        inode != 0,
        inode != ROOT_INODE,
        !seen.has_inode(inode, version),
        evicts(fs, inode, version),
    ensures
        ({
            let after = invalidate_handled(fs, seen, inode, version);
            &&& !after.meta.has(inode)
            &&& forall|i: u64| !after.chunks.chunks.contains_key((inode, i))
            &&& !after.inline.contains_key(inode)
        }),
{
}

/// After any notification of a change, no name in the inode is vouched for: its
/// leases are gone, and it does not count as listed in full.
pub proof fn law_invalidate_drops_leases(fs: FsView, seen: SeenView, dir: u64, version: u64)
    requires
        dir != 0,
        dir != ROOT_INODE,
        !seen.has_inode(dir, version),
    ensures
        ({
            let after = invalidate_handled(fs, seen, dir, version);
            &&& !after.meta.is_complete(dir)
            &&& !after.meta.dirs.contains_key(dir)
            &&& forall|k: u64| #[trigger]
                after.meta.has(k) && after.meta.entries[k].parent == dir
                    ==> after.meta.entries[k].dentry_lease is None
        }),
{
}

} // verus!
