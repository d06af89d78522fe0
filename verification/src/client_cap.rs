//! Client-side capabilities (caps): the per-inode cap record kept inside a
//! cached entry, and the queue of callers waiting for a cap upgrade.
//!
//! A cap record remembers which bits the server has issued, which of them
//! carry local changes that the server has not seen (`dirty_caps`), and which
//! of those are on their way to the server (`flushing_caps`).

use std::collections::{HashMap, VecDeque};
use std::time::Instant;
use vstd::prelude::*;

verus! {

/// `std::time::Instant`: an opaque point in time.
#[verifier::external_type_specification]
#[verifier::external_body]
pub struct ExInstant(Instant);

/// `std::time::Instant::now` reads the machine's clock. Nothing is claimed of
/// the instant that it returns.
pub assume_specification[ Instant::now ]() -> (r: Instant)
;

/// The sending half of a `tokio::sync::oneshot` channel, opaque.
#[verifier::external_type_specification]
#[verifier::external_body]
#[verifier::reject_recursive_types(T)]
pub struct ExSender<T>(tokio::sync::oneshot::Sender<T>);

/// The receiving half of a `tokio::sync::oneshot` channel, opaque.
#[verifier::external_type_specification]
#[verifier::external_body]
#[verifier::reject_recursive_types(T)]
pub struct ExReceiver<T>(tokio::sync::oneshot::Receiver<T>);

/// What a receiver gets where its sender was dropped unused, opaque.
#[verifier::external_type_specification]
#[verifier::external_body]
pub struct ExRecvError(tokio::sync::oneshot::error::RecvError);

/// `tokio::sync::oneshot::channel` makes a fresh channel for one value. The
/// two halves are opaque, so nothing is claimed of them; that they belong
/// together is left unsaid.
pub assume_specification<T>[ tokio::sync::oneshot::channel::<T> ]() -> (r: (
    tokio::sync::oneshot::Sender<T>,
    tokio::sync::oneshot::Receiver<T>,
))
;

/// `tokio::sync::oneshot::Sender::send` hands the value to the receiving half.
/// Whether anyone still listens is not known here, so nothing is claimed.
#[verifier::external_body]
fn send_caps(tx: tokio::sync::oneshot::Sender<CapSet>, issued: CapSet) {
    let _ = tx.send(issued);
}

/// The bit that allows read caching.
pub const CAP_R: u8 = 0b001;

/// The bit that allows write caching.
pub const CAP_W: u8 = 0b010;

/// The bit that allows local metadata changes.
pub const CAP_X: u8 = 0b100;

/// All three bits.
pub const EXCLUSIVE: u8 = 0b111;

/// A set of cap bits.
#[derive(Clone, Copy, Debug, PartialEq, Eq, Structural)]
pub struct CapSet(pub u8);

impl Default for CapSet {
    fn default() -> (r: Self)
        ensures
            r == CapSet(0),
    {
        CapSet(0)
    }
}

impl CapSet {
    /// No cap at all.
    pub fn none() -> (r: CapSet)
        ensures
            r == CapSet(0),
    {
        CapSet(0)
    }

    /// The holder may cache reads.
    pub fn cap_r() -> (r: CapSet)
        ensures
            r == CapSet(CAP_R),
    {
        CapSet(CAP_R)
    }

    /// The holder may cache writes.
    pub fn cap_w() -> (r: CapSet)
        ensures
            r == CapSet(CAP_W),
    {
        CapSet(CAP_W)
    }

    /// The holder may change metadata locally.
    pub fn cap_x() -> (r: CapSet)
        ensures
            r == CapSet(CAP_X),
    {
        CapSet(CAP_X)
    }

    /// R + W + X: the exclusive write holder.
    pub fn exclusive() -> (r: CapSet)
        ensures
            r == CapSet(EXCLUSIVE),
    {
        CapSet(EXCLUSIVE)
    }

    /// Bit `i` of the set.
    pub open spec fn bit(self, i: u8) -> bool {
        (self.0 >> i) & 1 == 1
    }

    /// Every bit of `other` is in `self`.
    pub open spec fn includes(self, other: Self) -> bool {
        self.0 & other.0 == other.0
    }

    /// True if every bit of `other` is in `self`.
    pub fn contains(self, other: Self) -> (r: bool)
        ensures
            r == self.includes(other),
            r == (forall|i: u8| #![trigger other.bit(i)] i < 8 && other.bit(i) ==> self.bit(i)),
    {
        let a: u8 = self.0;
        let b: u8 = other.0;
        proof {
            lemma_includes_bits(self, other);
        }
        (a & b) == b
    }

    /// True if the two sets share a bit.
    pub fn has_any(self, other: Self) -> (r: bool)
        ensures
            r == (self.0 & other.0 != 0),
            r == (exists|i: u8| #![trigger other.bit(i)] i < 8 && other.bit(i) && self.bit(i)),
    {
        let a: u8 = self.0;
        let b: u8 = other.0;
        proof {
            lemma_shares_bits(self, other);
        }
        (a & b) != 0
    }

    /// True if the set holds no bit.
    pub fn is_empty(self) -> (r: bool)
        ensures
            r == (self == CapSet(0)),
    {
        self.0 == 0
    }

    /// True if the set allows both write caching and metadata changes.
    pub fn is_exclusive(self) -> (r: bool)
        ensures
            r == (self.includes(CapSet(CAP_W)) && self.includes(CapSet(CAP_X))),
    {
        self.contains(CapSet(CAP_W)) && self.contains(CapSet(CAP_X))
    }

    /// The bits of either set.
    pub fn union(self, other: Self) -> (r: Self)
        ensures
            r.0 == self.0 | other.0,
            forall|i: u8| #![trigger r.bit(i)] i < 8 ==> r.bit(i) == (self.bit(i) || other.bit(i)),
    {
        let a: u8 = self.0;
        let b: u8 = other.0;
        let r: CapSet = CapSet(a | b);
        proof {
            assert forall|i: u8| #![trigger r.bit(i)] i < 8 implies r.bit(i) == (self.bit(i)
                || other.bit(i)) by {
                assert(i < 8 ==> (((a | b) >> i) & 1 == 1) == (((a >> i) & 1 == 1) || ((b >> i) & 1
                    == 1))) by (bit_vector);
            }
        }
        r
    }

    /// The bits of `self` that are not in `other`.
    pub fn remove(self, other: Self) -> (r: Self)
        ensures
            r.0 == self.0 & !other.0,
            forall|i: u8| #![trigger r.bit(i)] i < 8 ==> r.bit(i) == (self.bit(i) && !other.bit(i)),
    {
        let a: u8 = self.0;
        let b: u8 = other.0;
        let r: CapSet = CapSet(a & !b);
        proof {
            assert forall|i: u8| #![trigger r.bit(i)] i < 8 implies r.bit(i) == (self.bit(i)
                && !other.bit(i)) by {
                assert(i < 8 ==> (((a & !b) >> i) & 1 == 1) == (((a >> i) & 1 == 1) && !((b >> i)
                    & 1 == 1))) by (bit_vector);
            }
        }
        r
    }

    /// The bits that both sets hold.
    pub fn intersection(self, other: Self) -> (r: Self)
        ensures
            r.0 == self.0 & other.0,
            forall|i: u8| #![trigger r.bit(i)] i < 8 ==> r.bit(i) == (self.bit(i) && other.bit(i)),
    {
        let a: u8 = self.0;
        let b: u8 = other.0;
        let r: CapSet = CapSet(a & b);
        proof {
            assert forall|i: u8| #![trigger r.bit(i)] i < 8 implies r.bit(i) == (self.bit(i)
                && other.bit(i)) by {
                assert(i < 8 ==> (((a & b) >> i) & 1 == 1) == (((a >> i) & 1 == 1) && ((b >> i) & 1
                    == 1))) by (bit_vector);
            }
        }
        r
    }
}

proof fn lemma_includes_bits(s: CapSet, o: CapSet)
    ensures
        s.includes(o) == (forall|i: u8| #![trigger o.bit(i)] i < 8 && o.bit(i) ==> s.bit(i)),
{
    let a = s.0;
    let b = o.0;
    if s.includes(o) {
        assert forall|i: u8| #![trigger o.bit(i)] i < 8 && o.bit(i) implies s.bit(i) by {
            assert(a & b == b && i < 8 && (b >> i) & 1 == 1 ==> (a >> i) & 1 == 1) by (bit_vector);
        }
    } else {
        if forall|i: u8| #![trigger o.bit(i)] i < 8 && o.bit(i) ==> s.bit(i) {
            assert(o.bit(0) ==> s.bit(0));
            assert(o.bit(1) ==> s.bit(1));
            assert(o.bit(2) ==> s.bit(2));
            assert(o.bit(3) ==> s.bit(3));
            assert(o.bit(4) ==> s.bit(4));
            assert(o.bit(5) ==> s.bit(5));
            assert(o.bit(6) ==> s.bit(6));
            assert(o.bit(7) ==> s.bit(7));
            assert(((b >> 0u8) & 1 == 1 ==> (a >> 0u8) & 1 == 1) && ((b >> 1u8) & 1 == 1 ==> (a
                >> 1u8) & 1 == 1) && ((b >> 2u8) & 1 == 1 ==> (a >> 2u8) & 1 == 1) && ((b >> 3u8)
                & 1 == 1 ==> (a >> 3u8) & 1 == 1) && ((b >> 4u8) & 1 == 1 ==> (a >> 4u8) & 1 == 1)
                && ((b >> 5u8) & 1 == 1 ==> (a >> 5u8) & 1 == 1) && ((b >> 6u8) & 1 == 1 ==> (a
                >> 6u8) & 1 == 1) && ((b >> 7u8) & 1 == 1 ==> (a >> 7u8) & 1 == 1) ==> a & b == b)
                by (bit_vector);
        }
    }
}

proof fn lemma_shares_bits(s: CapSet, o: CapSet)
    ensures
        (s.0 & o.0 != 0) == (exists|i: u8|
            #![trigger o.bit(i)]
            i < 8 && o.bit(i) && s.bit(i)),
{
    let a = s.0;
    let b = o.0;
    if exists|i: u8| #![trigger o.bit(i)] i < 8 && o.bit(i) && s.bit(i) {
        let i = choose|i: u8| #![trigger o.bit(i)] i < 8 && o.bit(i) && s.bit(i);
        assert(i < 8 && (b >> i) & 1 == 1 && (a >> i) & 1 == 1 ==> a & b != 0) by (bit_vector);
    } else if a & b != 0 {
        assert(!(o.bit(0) && s.bit(0)) && !(o.bit(1) && s.bit(1)) && !(o.bit(2) && s.bit(2)) && !(
        o.bit(3) && s.bit(3)) && !(o.bit(4) && s.bit(4)) && !(o.bit(5) && s.bit(5)) && !(o.bit(6)
            && s.bit(6)) && !(o.bit(7) && s.bit(7)));
        assert(!((b >> 0u8) & 1 == 1 && (a >> 0u8) & 1 == 1) && !((b >> 1u8) & 1 == 1 && (a >> 1u8)
            & 1 == 1) && !((b >> 2u8) & 1 == 1 && (a >> 2u8) & 1 == 1) && !((b >> 3u8) & 1 == 1 && (
        a >> 3u8) & 1 == 1) && !((b >> 4u8) & 1 == 1 && (a >> 4u8) & 1 == 1) && !((b >> 5u8) & 1
            == 1 && (a >> 5u8) & 1 == 1) && !((b >> 6u8) & 1 == 1 && (a >> 6u8) & 1 == 1) && !((b
            >> 7u8) & 1 == 1 && (a >> 7u8) & 1 == 1) ==> a & b == 0) by (bit_vector);
    }
}

/// What a cap record says, with the token as a sequence of characters.
pub struct CapView {
    pub cap_id: u64,
    pub token: Seq<char>,
    pub issued: CapSet,
    pub implemented: CapSet,
    pub wanted: CapSet,
    pub seq: u64,
    pub issue_seq: u64,
    pub mseq: u32,
    pub epoch: u64,
    pub dirty_caps: CapSet,
    pub flushing_caps: CapSet,
    pub is_writer: bool,
    pub granted_at: Instant,
}

impl CapView {
    /// The record after local changes under `cap`.
    pub open spec fn dirtied(self, cap: CapSet) -> CapView {
        CapView { dirty_caps: CapSet(self.dirty_caps.0 | cap.0), ..self }
    }

    /// The bits that a recall to `retained` takes away.
    pub open spec fn recalled_bits(self, retained: CapSet) -> CapSet {
        CapSet(self.issued.0 & !retained.0)
    }

    /// The record after the server recalled everything outside `retained`.
    pub open spec fn recalled(self, retained: CapSet, epoch: u64) -> CapView {
        let lost = self.issued.0 & !retained.0;
        CapView {
            issued: retained,
            implemented: CapSet(self.implemented.0 & retained.0),
            flushing_caps: CapSet(self.flushing_caps.0 | (self.dirty_caps.0 & lost)),
            dirty_caps: CapSet(self.dirty_caps.0 & !lost),
            epoch,
            ..self
        }
    }

    /// The record after the server granted `issued`.
    pub open spec fn granted(self, issued: CapSet, seq: u64, epoch: u64) -> CapView {
        CapView {
            issued,
            implemented: issued,
            seq,
            issue_seq: seq,
            epoch,
            dirty_caps: CapSet(self.dirty_caps.0 & !issued.0),
            ..self
        }
    }

    /// The record after the server added `granted`.
    pub open spec fn upgraded(self, granted: CapSet, epoch: u64, seq: u64) -> CapView {
        CapView {
            issued: CapSet(self.issued.0 | granted.0),
            implemented: CapSet(self.implemented.0 | granted.0),
            epoch,
            seq,
            issue_seq: seq,
            ..self
        }
    }

    /// The record after its flush reached the server.
    pub open spec fn flushed(self) -> CapView {
        CapView { flushing_caps: CapSet(0), ..self }
    }

    /// What the server has confirmed is a subset of what it issued.
    pub open spec fn wf(self) -> bool {
        self.issued.includes(self.implemented)
    }

    /// What a recall to `retained` asks of the holder.
    pub open spec fn recall_action(self, retained: CapSet) -> RecallAction {
        let flushing = self.recalled(retained, self.epoch).flushing_caps;
        if flushing == CapSet(0) {
            RecallAction::ImmediateAck
        } else {
            RecallAction::FlushThenAck { flushing_caps: flushing }
        }
    }
}

/// Client-side cap record, at most one per inode.
#[derive(Debug)]
pub struct ClientCap {
    /// Server-assigned monotonic cap id.
    pub cap_id: u64,
    /// Server-issued token, sent with flushes and releases.
    pub token: String,
    /// Currently issued caps.
    pub issued: CapSet,
    /// What the server has confirmed applied. Always a subset of `issued`.
    pub implemented: CapSet,
    /// What this client wants (advisory).
    pub wanted: CapSet,
    /// Last seq sent by the server.
    pub seq: u64,
    /// Last issue seq.
    pub issue_seq: u64,
    /// Migration seq, bumped on a leader handoff.
    pub mseq: u32,
    /// Epoch at grant time, used for fencing.
    pub epoch: u64,
    /// Bits with local changes that the server has not seen.
    pub dirty_caps: CapSet,
    /// Bits whose changes are being flushed.
    pub flushing_caps: CapSet,
    /// True if the file was opened for writing.
    pub is_writer: bool,
    /// Grant timestamp.
    pub granted_at: Instant,
}

impl View for ClientCap {
    type V = CapView;

    open spec fn view(&self) -> CapView {
        CapView {
            cap_id: self.cap_id,
            token: self.token@,
            issued: self.issued,
            implemented: self.implemented,
            wanted: self.wanted,
            seq: self.seq,
            issue_seq: self.issue_seq,
            mseq: self.mseq,
            epoch: self.epoch,
            dirty_caps: self.dirty_caps,
            flushing_caps: self.flushing_caps,
            is_writer: self.is_writer,
            granted_at: self.granted_at,
        }
    }
}

impl Clone for ClientCap {
    fn clone(&self) -> (r: Self)
        ensures
            r@ == self@,
    {
        ClientCap {
            cap_id: self.cap_id,
            token: self.token.clone(),
            issued: self.issued,
            implemented: self.implemented,
            wanted: self.wanted,
            seq: self.seq,
            issue_seq: self.issue_seq,
            mseq: self.mseq,
            epoch: self.epoch,
            dirty_caps: self.dirty_caps,
            flushing_caps: self.flushing_caps,
            is_writer: self.is_writer,
            granted_at: self.granted_at,
        }
    }
}

impl ClientCap {
    /// A fresh record for the caps that the server issued.
    pub fn new(
        cap_id: u64,
        token: String,
        issued: CapSet,
        epoch: u64,
        is_writer: bool,
        seq: u64,
    ) -> (r: Self)
        ensures
            r@ == (CapView {
                cap_id,
                token: token@,
                issued,
                implemented: issued,
                wanted: issued,
                seq,
                issue_seq: seq,
                mseq: 0,
                epoch,
                dirty_caps: CapSet(0),
                flushing_caps: CapSet(0),
                is_writer,
                granted_at: r.granted_at,
            }),
            r@.wf(),
    {
        proof {
            let a = issued.0;
            assert(a & a == a) by (bit_vector);
        }
        ClientCap {
            cap_id,
            token,
            issued,
            implemented: issued,
            wanted: issued,
            seq,
            issue_seq: seq,
            mseq: 0,
            epoch,
            dirty_caps: CapSet(0),
            flushing_caps: CapSet(0),
            is_writer,
            granted_at: Instant::now(),
        }
    }

    /// Mark the given cap bits as dirty (local unsynced state).
    pub fn mark_dirty(&mut self, cap: CapSet)
        ensures
            final(self)@ == old(self)@.dirtied(cap),
    {
        self.dirty_caps = self.dirty_caps.union(cap);
    }

    /// Issued caps minus dirty and flushing ones.
    pub fn issued_non_dirty(&self) -> (r: CapSet)
        ensures
            r.0 == (self.issued.0 & !self.dirty_caps.0) & !self.flushing_caps.0,
    {
        self.issued.remove(self.dirty_caps).remove(self.flushing_caps)
    }

    /// True if this cap allows local write caching.
    pub fn can_cache_writes(&self) -> (r: bool)
        ensures
            r == self.issued.includes(CapSet(CAP_W)),
    {
        self.issued.contains(CapSet(CAP_W))
    }

    /// True if this cap allows local read caching.
    pub fn can_cache_reads(&self) -> (r: bool)
        ensures
            r == self.issued.includes(CapSet(CAP_R)),
    {
        self.issued.contains(CapSet(CAP_R))
    }

    /// True if this cap allows local metadata modification.
    pub fn can_modify_meta(&self) -> (r: bool)
        ensures
            r == self.issued.includes(CapSet(CAP_X)),
    {
        self.issued.contains(CapSet(CAP_X))
    }

    /// Apply a server grant. Returns the caps that were issued before.
    pub fn apply_grant(&mut self, issued: CapSet, seq: u64, epoch: u64) -> (old_issued: CapSet)
        ensures
            old_issued == old(self).issued,
            final(self)@ == old(self)@.granted(issued, seq, epoch),
            final(self)@.wf(),
    {
        proof {
            let a = issued.0;
            assert(a & a == a) by (bit_vector);
        }
        let before: CapSet = self.issued;
        self.issued = issued;
        self.implemented = issued;
        self.seq = seq;
        self.issue_seq = seq;
        self.epoch = epoch;
        self.dirty_caps = self.dirty_caps.remove(issued);
        before
    }

    /// Apply a server recall: recalled bits with local changes move to
    /// `flushing_caps`, so that the caller knows what to flush before the
    /// acknowledgement. Returns the recalled bits.
    pub fn apply_recall(&mut self, retained: CapSet, new_epoch: u64) -> (recalled: CapSet)
        ensures
            recalled == old(self)@.recalled_bits(retained),
            final(self)@ == old(self)@.recalled(retained, new_epoch),
            final(self)@.wf(),
    {
        let recalled: CapSet = self.issued.remove(retained);
        let dirty_recalled: CapSet = self.dirty_caps.intersection(recalled);
        proof {
            let i = self.implemented.0;
            let t = retained.0;
            let d = self.dirty_caps.0;
            let l = recalled.0;
            let f = self.flushing_caps.0;
            assert(t & (i & t) == i & t) by (bit_vector);
            assert(d & !(d & l) == d & !l) by (bit_vector);
            assert(d & l == 0 ==> f | (d & l) == f && d & !l == d) by (bit_vector);
        }
        if !dirty_recalled.is_empty() {
            self.flushing_caps = self.flushing_caps.union(dirty_recalled);
            self.dirty_caps = self.dirty_caps.remove(dirty_recalled);
        }
        self.issued = retained;
        self.implemented = self.implemented.intersection(retained);
        self.epoch = new_epoch;
        recalled
    }

    /// Mark the flush complete.
    pub fn mark_flushed(&mut self)
        ensures
            final(self)@ == old(self)@.flushed(),
    {
        self.flushing_caps = CapSet(0);
    }

    /// Apply a server upgrade: `granted` is added to the issued caps.
    pub fn apply_upgrade(&mut self, granted: CapSet, epoch: u64, seq: u64)
        ensures
            final(self)@ == old(self)@.upgraded(granted, epoch, seq),
            old(self)@.wf() ==> final(self)@.wf(),
    {
        proof {
            let a = self.issued.0;
            let i = self.implemented.0;
            let g = granted.0;
            assert(a & i == i ==> (a | g) & (i | g) == i | g) by (bit_vector);
        }
        self.issued = self.issued.union(granted);
        self.implemented = self.implemented.union(granted);
        self.epoch = epoch;
        self.seq = seq;
        self.issue_seq = seq;
    }
}

/// What a recall asks of the holder.
#[derive(Debug, PartialEq, Eq, Structural)]
pub enum RecallAction {
    /// Nothing is being flushed: acknowledge at once.
    ImmediateAck,
    /// Local changes must reach the server first. `flushing_caps` says under
    /// which bits they were made.
    FlushThenAck { flushing_caps: CapSet },
}

/// Process a recall of an inode's cap down to `retained_caps`, under the new
/// fencing epoch.
pub fn process_recall(cap: &mut ClientCap, retained_caps: CapSet, new_epoch: u64) -> (action:
    RecallAction)
    ensures
        final(cap)@ == old(cap)@.recalled(retained_caps, new_epoch),
        action == old(cap)@.recall_action(retained_caps),
        final(cap)@.wf(),
{
    let _recalled: CapSet = cap.apply_recall(retained_caps, new_epoch);
    if cap.flushing_caps.is_empty() {
        RecallAction::ImmediateAck
    } else {
        RecallAction::FlushThenAck { flushing_caps: cap.flushing_caps }
    }
}

/// A recall loses no local change: every bit that was dirty or being flushed
/// is afterwards still dirty or being flushed, no such bit appears from
/// nowhere, and no bit that the client lost stays merely dirty.
pub proof fn law_recall_keeps_unsynced_bits(cap: CapView, retained: CapSet, epoch: u64)
    ensures
        ({
            let after = cap.recalled(retained, epoch);
            &&& after.dirty_caps.0 | after.flushing_caps.0 == cap.dirty_caps.0
                | cap.flushing_caps.0
            &&& after.dirty_caps.0 & cap.recalled_bits(retained).0 == 0
        }),
{
    let d = cap.dirty_caps.0;
    let f = cap.flushing_caps.0;
    let l = cap.issued.0 & !retained.0;
    assert((d & !l) | (f | (d & l)) == d | f) by (bit_vector);
    assert((d & !l) & l == 0) by (bit_vector);
}

/// A recall is acknowledged at once exactly when no recalled bit is dirty and
/// nothing was being flushed before.
pub proof fn law_immediate_ack_iff_nothing_to_flush(cap: CapView, retained: CapSet)
    ensures
        (cap.recall_action(retained) is ImmediateAck) == (cap.flushing_caps == CapSet(0)
            && cap.dirty_caps.0 & cap.recalled_bits(retained).0 == 0),
{
    let f = cap.flushing_caps.0;
    let x = cap.dirty_caps.0 & cap.recalled_bits(retained).0;
    assert((f | x == 0) == (f == 0 && x == 0)) by (bit_vector);
}

/// An upgrade that grants W and X back after any recall makes the holder
/// exclusive again and leaves its unsynced bits alone.
pub proof fn law_upgrade_restores_exclusive(
    cap: CapView,
    retained: CapSet,
    e1: u64,
    e2: u64,
    seq: u64,
)
    ensures
        ({
            let low = cap.recalled(retained, e1);
            let up = low.upgraded(CapSet(0b110), e2, seq);
            &&& up.issued.includes(CapSet(CAP_W))
            &&& up.issued.includes(CapSet(CAP_X))
            &&& up.dirty_caps == low.dirty_caps
            &&& up.flushing_caps == low.flushing_caps
        }),
{
    let a = retained.0;
    assert((a | 0b110) & CAP_W == CAP_W && (a | 0b110) & CAP_X == CAP_X) by (bit_vector);
}

/// Callers waiting for a cap change, per inode and in order of arrival.
///
/// The queue lives outside the cached entries: an entry may be evicted while
/// a caller still waits, and the caller must be woken regardless.
pub struct CapWaiters {
    waiters: HashMap<u64, VecDeque<tokio::sync::oneshot::Sender<CapSet>>>,
}

impl View for CapWaiters {
    type V = Map<u64, Seq<tokio::sync::oneshot::Sender<CapSet>>>;

    closed spec fn view(&self) -> Map<u64, Seq<tokio::sync::oneshot::Sender<CapSet>>> {
        self.waiters@.map_values(|q: VecDeque<tokio::sync::oneshot::Sender<CapSet>>| q@)
    }
}

/// The senders that wait for `inode`, in order of arrival.
pub open spec fn queue_of(
    waiters: Map<u64, Seq<tokio::sync::oneshot::Sender<CapSet>>>,
    inode: u64,
) -> Seq<tokio::sync::oneshot::Sender<CapSet>> {
    if waiters.contains_key(inode) {
        waiters[inode]
    } else {
        Seq::empty()
    }
}

/// Each sender with what it is to be told.
pub open spec fn told(
    queue: Seq<tokio::sync::oneshot::Sender<CapSet>>,
    issued: CapSet,
) -> Seq<(tokio::sync::oneshot::Sender<CapSet>, CapSet)> {
    Seq::new(queue.len(), |i: int| (queue[i], issued))
}

impl Default for CapWaiters {
    fn default() -> (r: Self)
        ensures
            r@ == Map::<u64, Seq<tokio::sync::oneshot::Sender<CapSet>>>::empty(),
    {
        Self::new()
    }
}

impl CapWaiters {
    /// No waiter.
    pub fn new() -> (r: Self)
        ensures
            r@ == Map::<u64, Seq<tokio::sync::oneshot::Sender<CapSet>>>::empty(),
    {
        broadcast use vstd::std_specs::hash::group_hash_axioms;

        let r = CapWaiters { waiters: HashMap::new() };
        assert(r@ =~= Map::<u64, Seq<tokio::sync::oneshot::Sender<CapSet>>>::empty());
        r
    }

    /// Register a waiter for cap changes on an inode: its sender joins the end
    /// of the inode's queue, and the caller keeps the receiver.
    pub fn wait_for_cap(&mut self, inode: u64) -> (rx: tokio::sync::oneshot::Receiver<CapSet>)
        ensures
            exists|tx: tokio::sync::oneshot::Sender<CapSet>|
                final(self)@ == old(self)@.insert(inode, #[trigger] queue_of(old(self)@, inode).push(tx)),
    {
        broadcast use vstd::std_specs::hash::group_hash_axioms;

        let (tx, rx) = tokio::sync::oneshot::channel();
        let ghost sender = tx;
        let mut queue: VecDeque<tokio::sync::oneshot::Sender<CapSet>> = match self.waiters.remove(
            &inode,
        ) {
            Some(q) => q,
            None => VecDeque::new(),
        };
        queue.push_back(tx);
        self.waiters.insert(inode, queue);
        assert(self@ =~= old(self)@.insert(inode, queue_of(old(self)@, inode).push(sender)));
        rx
    }

    /// Take every waiter of an inode out of the queue, in order of arrival.
    pub fn take_waiters(&mut self, inode: u64) -> (queue: VecDeque<
        tokio::sync::oneshot::Sender<CapSet>,
    >)
        ensures
            queue@ == queue_of(old(self)@, inode),
            final(self)@ == old(self)@.remove(inode),
    {
        broadcast use vstd::std_specs::hash::group_hash_axioms;

        let queue: VecDeque<tokio::sync::oneshot::Sender<CapSet>> = match self.waiters.remove(
            &inode,
        ) {
            Some(q) => q,
            None => VecDeque::new(),
        };
        assert(self@ =~= old(self)@.remove(inode));
        queue
    }

    /// Take every waiter of an inode out of the queue and pair it with what it
    /// is to be told.
    pub fn wakeups(&mut self, inode: u64, issued: CapSet) -> (r: VecDeque<
        (tokio::sync::oneshot::Sender<CapSet>, CapSet),
    >)
        ensures
            r@ == told(queue_of(old(self)@, inode), issued),
            final(self)@ == old(self)@.remove(inode),
    {
        let mut queue = self.take_waiters(inode);
        let ghost q0 = queue@;
        let mut r: VecDeque<(tokio::sync::oneshot::Sender<CapSet>, CapSet)> = VecDeque::new();
        assert(r@ =~= told(q0.take(0), issued));
        assert(q0.skip(0) =~= q0);
        while queue.len() > 0
            invariant
                self@ == old(self)@.remove(inode),
                r@.len() + queue@.len() == q0.len(),
                r@ == told(q0.take(r@.len() as int), issued),
                queue@ == q0.skip(r@.len() as int),
            decreases queue@.len(),
        {
            let ghost n = r@.len() as int;
            if let Some(tx) = queue.pop_front() {
                assert(tx == q0[n]);
                r.push_back((tx, issued));
                assert(r@ =~= told(q0.take(n + 1), issued));
                assert(queue@ =~= q0.skip(n + 1));
            }
        }
        assert(q0.take(r@.len() as int) =~= q0);
        r
    }

    /// Wake all waiters of an inode with the current issued caps, in order of
    /// arrival; the queues of other inodes stay. What each of them is told is
    /// what `wakeups` pairs it with; that it arrives is left unsaid, since
    /// nobody may listen any more.
    pub fn notify(&mut self, inode: u64, issued: CapSet)
        ensures
            final(self)@ == old(self)@.remove(inode),
    {
        let mut sends = self.wakeups(inode, issued);
        while sends.len() > 0
            invariant
                self@ == old(self)@.remove(inode),
            decreases sends@.len(),
        {
            if let Some((tx, caps)) = sends.pop_front() {
                send_caps(tx, caps);
            }
        }
    }
}

} // verus!
