//! Which chunks of which files still have to be flushed.

use std::collections::HashMap;
use vstd::prelude::*;
use vstd::std_specs::iter::IteratorSpec;

verus! {

/// The chunks that wait for a flush, by inode and in the order in which they
/// became dirty.
pub type Waiting = Map<u64, Seq<u64>>;

/// The chunks of an inode that wait for a flush.
pub open spec fn waiting_for(d: Waiting, inode: u64) -> Seq<u64> {
    if d.contains_key(inode) {
        d[inode]
    } else {
        Seq::empty()
    }
}

/// The chunks after one more became dirty.
pub open spec fn marked(d: Waiting, inode: u64, idx: u64) -> Waiting {
    if waiting_for(d, inode).contains(idx) {
        d
    } else {
        d.insert(inode, waiting_for(d, inode).push(idx))
    }
}

/// The chunks after several of one inode became dirty, one after another.
pub open spec fn all_marked(d: Waiting, inode: u64, which: Seq<u64>) -> Waiting
    decreases which.len(),
{
    if which.len() == 0 {
        d
    } else {
        marked(all_marked(d, inode, which.drop_last()), inode, which.last())
    }
}

/// No inode is listed without a chunk, and no chunk twice.
pub open spec fn waiting_ok(d: Waiting) -> bool {
    forall|i: u64| #[trigger] d.contains_key(i) ==> d[i].len() > 0 && d[i].no_duplicates()
}

/// The chunks that still have to be flushed.
pub struct DirtySet {
    chunks: HashMap<u64, Vec<u64>>,
}

impl View for DirtySet {
    type V = Waiting;

    closed spec fn view(&self) -> Waiting {
        self.chunks@.map_values(|v: Vec<u64>| v@)
    }
}

/// True if `x` is in the list.
pub fn list_has(v: &Vec<u64>, x: u64) -> (r: bool)
    ensures
        r == v@.contains(x),
{
    let mut i: usize = 0;
    while i < v.len()
        invariant
            i <= v.len(),
            forall|j: int| 0 <= j < i ==> v@[j] != x,
        decreases v.len() - i,
    {
        if v[i] == x {
            assert(v@[i as int] == x);
            return true;
        }
        i += 1;
    }
    false
}

impl DirtySet {
    /// Every listed inode has a chunk that waits.
    pub open spec fn wf(&self) -> bool {
        waiting_ok(self@)
    }

    /// Nothing waits.
    pub fn new() -> (r: Self)
        ensures
            r.wf(),
            r@ == Map::<u64, Seq<u64>>::empty(),
    {
        broadcast use vstd::std_specs::hash::group_hash_axioms;

        let r = DirtySet { chunks: HashMap::new() };
        assert(r@ =~= Map::<u64, Seq<u64>>::empty());
        r
    }

    /// Note that a chunk has to be flushed.
    pub fn mark_dirty(&mut self, inode: u64, chunk_idx: u64)
        requires
            old(self).wf(),
        ensures
            final(self).wf(),
            final(self)@ == marked(old(self)@, inode, chunk_idx),
    {
        broadcast use vstd::std_specs::hash::group_hash_axioms;

        let mut v: Vec<u64> = match self.chunks.remove(&inode) {
            Some(v) => v,
            None => Vec::new(),
        };
        let ghost v0 = v@;
        assert(v0 =~= waiting_for(old(self)@, inode));
        if !list_has(&v, chunk_idx) {
            v.push(chunk_idx);
        }
        let ghost v1 = v@;
        self.chunks.insert(inode, v);
        proof {
            assert(self@ =~= old(self)@.insert(inode, v1));
            if v0.contains(chunk_idx) {
                assert(self@ =~= old(self)@);
            }
        }
    }

    /// Take the chunks of an inode that wait for a flush out of the list.
    pub fn drain_dirty_for_inode(&mut self, inode: u64) -> (r: Vec<u64>)
        requires
            old(self).wf(),
        ensures
            final(self).wf(),
            r@ == waiting_for(old(self)@, inode),
            r@.no_duplicates(),
            final(self)@ == old(self)@.remove(inode),
    {
        broadcast use vstd::std_specs::hash::group_hash_axioms;

        let r: Vec<u64> = match self.chunks.remove(&inode) {
            Some(v) => v,
            None => Vec::new(),
        };
        assert(r@ =~= waiting_for(old(self)@, inode));
        assert(self@ =~= old(self)@.remove(inode));
        r
    }

    /// True if a chunk of the inode waits for a flush.
    pub fn has_dirty_for_inode(&self, inode: u64) -> (r: bool)
        ensures
            r == self@.contains_key(inode),
    {
        broadcast use vstd::std_specs::hash::group_hash_axioms;

        self.chunks.contains_key(&inode)
    }

    /// True if this chunk waits for a flush.
    pub fn is_dirty(&self, inode: u64, chunk_idx: u64) -> (r: bool)
        ensures
            r == waiting_for(self@, inode).contains(chunk_idx),
    {
        broadcast use vstd::std_specs::hash::group_hash_axioms;

        match self.chunks.get(&inode) {
            Some(v) => list_has(v, chunk_idx),
            None => false,
        }
    }

    /// The inodes of which a chunk waits for a flush, in no particular order.
    pub fn all_dirty_inodes(&self) -> (r: Vec<u64>)
        ensures
            r@.no_duplicates(),
            forall|i: u64| #[trigger] r@.contains(i) <==> self@.contains_key(i),
    {
        broadcast use vstd::std_specs::hash::group_hash_axioms;

        let mut r: Vec<u64> = Vec::new();
        let ghost all = vstd::std_specs::hash::spec_keys_iter(&self.chunks).remaining();
        for k in it: self.chunks.keys()
            invariant
                it.seq() == all,
                r@ == all.unref().take(it.index()),
        {
            r.push(*k);
            assert(r@ =~= all.unref().take(it.index() + 1));
        }
        proof {
            assert(r@ =~= all.unref());
            assert forall|i: int, j: int| 0 <= i < r@.len() && 0 <= j < r@.len() && i
                != j implies r@[i] != r@[j] by {
                assert(all[i] != all[j]);
            }
            assert forall|i: u64| #[trigger] r@.contains(i) <==> self@.contains_key(i) by {
                assert(r@.to_set().contains(i) <==> self.chunks@.dom().contains(i));
            }
        }
        r
    }

    /// Note that several chunks of an inode have to be flushed.
    pub fn mark_all(&mut self, inode: u64, which: &Vec<u64>)
        requires
            old(self).wf(),
        ensures
            final(self).wf(),
            final(self)@ == all_marked(old(self)@, inode, which@),
    {
        let mut i: usize = 0;
        assert(which@.take(0) =~= Seq::<u64>::empty());
        while i < which.len()
            invariant
                i <= which.len(),
                self.wf(),
                self@ == all_marked(old(self)@, inode, which@.take(i as int)),
            decreases which.len() - i,
        {
            assert(which@.take(i as int + 1).drop_last() =~= which@.take(i as int));
            assert(which@.take(i as int + 1).last() == which@[i as int]);
            self.mark_dirty(inode, which[i]);
            i += 1;
        }
        assert(which@.take(i as int) =~= which@);
    }
}

proof fn lemma_all_marked(d: Waiting, inode: u64, which: Seq<u64>, n: int)
    requires
        !d.contains_key(inode),
        which.no_duplicates(),
        0 <= n <= which.len(),
    ensures
        n == 0 ==> all_marked(d, inode, which.take(n)) == d,
        n > 0 ==> all_marked(d, inode, which.take(n)) == d.insert(inode, which.take(n)),
    decreases n,
{
    if n > 0 {
        lemma_all_marked(d, inode, which, n - 1);
        let t = which.take(n);
        let p = which.take(n - 1);
        assert(t.drop_last() =~= p);
        assert(t =~= p.push(which[n - 1]));
        if p.contains(which[n - 1]) {
            let j = choose|j: int| 0 <= j < p.len() && p[j] == which[n - 1];
            assert(which[j] == which[n - 1]);
        }
        if n == 1 {
            assert(p =~= Seq::<u64>::empty());
            assert(waiting_for(d, inode).push(which[0]) =~= t);
        } else {
            assert(d.insert(inode, p).insert(inode, t) =~= d.insert(inode, t));
        }
    }
}

/// Marking again what was drained restores the list: a flush that fails before
/// it sends anything loses nothing.
pub proof fn law_remark_restores(d: Waiting, inode: u64)
    requires
        waiting_ok(d),
    ensures
        all_marked(d.remove(inode), inode, waiting_for(d, inode)) == d,
{
    let w = waiting_for(d, inode);
    lemma_all_marked(d.remove(inode), inode, w, w.len() as int);
    assert(w.take(w.len() as int) =~= w);
    if d.contains_key(inode) {
        assert(d.remove(inode).insert(inode, w) =~= d);
    } else {
        assert(d.remove(inode) =~= d);
    }
}

} // verus!
