//! Advisory locks on byte ranges of files.

use crate::scan::EAGAIN;
use std::collections::HashMap;
use vstd::prelude::*;

verus! {

/// A lock on the bytes from `start` up to `end`. A lock of type 0 stands for
/// unlocking.
#[derive(Debug, Clone, Copy, PartialEq, Eq, Structural)]
pub struct FileLock {
    pub start: u64,
    pub end: u64,
    pub lock_type: u32,
    pub pid: u32,
}

/// Two locks that cannot stand together: they share a byte and differ in type.
pub open spec fn clash(a: FileLock, b: FileLock) -> bool {
    a.start < b.end && a.end > b.start && a.lock_type != b.lock_type
}

/// The first lock of the list that clashes with `lock`.
pub open spec fn first_clash(held: Seq<FileLock>, lock: FileLock) -> Option<FileLock>
    decreases held.len(),
{
    if held.len() == 0 {
        None
    } else {
        match first_clash(held.drop_last(), lock) {
            Some(l) => Some(l),
            None => if clash(held.last(), lock) {
                Some(held.last())
            } else {
                None
            },
        }
    }
}

/// The list without the locks on exactly this range.
pub open spec fn released(held: Seq<FileLock>, start: u64, end: u64) -> Seq<FileLock>
    decreases held.len(),
{
    if held.len() == 0 {
        held
    } else if held.last().start == start && held.last().end == end {
        released(held.drop_last(), start, end)
    } else {
        released(held.drop_last(), start, end).push(held.last())
    }
}

/// The locks held on each file.
pub struct FileLocks {
    locks: HashMap<u64, Vec<FileLock>>,
}

impl View for FileLocks {
    type V = Map<u64, Seq<FileLock>>;

    closed spec fn view(&self) -> Map<u64, Seq<FileLock>> {
        self.locks@.map_values(|v: Vec<FileLock>| v@)
    }
}

/// The locks held on one file.
pub open spec fn held_on(locks: Map<u64, Seq<FileLock>>, inode: u64) -> Seq<FileLock> {
    if locks.contains_key(inode) {
        locks[inode]
    } else {
        Seq::empty()
    }
}

proof fn lemma_first_clash_prefix(held: Seq<FileLock>, lock: FileLock, n: int)
    requires
        0 <= n <= held.len(),
        first_clash(held.take(n), lock) is Some,
    ensures
        first_clash(held, lock) == first_clash(held.take(n), lock),
    decreases held.len() - n,
{
    if n < held.len() {
        assert(held.take(n + 1).drop_last() =~= held.take(n));
        lemma_first_clash_prefix(held, lock, n + 1);
    } else {
        assert(held.take(n) =~= held);
    }
}

/// The first lock of the list that clashes with `lock`.
fn find_clash(held: &Vec<FileLock>, lock: FileLock) -> (r: Option<FileLock>)
    ensures
        r == first_clash(held@, lock),
{
    let mut i: usize = 0;
    assert(held@.take(0) =~= Seq::<FileLock>::empty());
    while i < held.len()
        invariant
            i <= held.len(),
            first_clash(held@.take(i as int), lock) is None,
        decreases held.len() - i,
    {
        assert(held@.take(i as int + 1).drop_last() =~= held@.take(i as int));
        assert(held@.take(i as int + 1).last() == held@[i as int]);
        let l: FileLock = held[i];
        if l.start < lock.end && l.end > lock.start && l.lock_type != lock.lock_type {
            proof {
                lemma_first_clash_prefix(held@, lock, i as int + 1);
            }
            return Some(l);
        }
        i += 1;
    }
    assert(held@.take(i as int) =~= held@);
    None
}

/// The list without the locks on exactly this range.
fn release_range(held: &Vec<FileLock>, start: u64, end: u64) -> (r: Vec<FileLock>)
    ensures
        r@ == released(held@, start, end),
{
    let mut r: Vec<FileLock> = Vec::new();
    let mut i: usize = 0;
    assert(held@.take(0) =~= Seq::<FileLock>::empty());
    while i < held.len()
        invariant
            i <= held.len(),
            r@ == released(held@.take(i as int), start, end),
        decreases held.len() - i,
    {
        assert(held@.take(i as int + 1).drop_last() =~= held@.take(i as int));
        assert(held@.take(i as int + 1).last() == held@[i as int]);
        if held[i].start != start || held[i].end != end {
            r.push(held[i]);
        }
        i += 1;
    }
    assert(held@.take(i as int) =~= held@);
    r
}

impl FileLocks {
    /// No lock.
    pub fn new() -> (r: Self)
        ensures
            r@ == Map::<u64, Seq<FileLock>>::empty(),
    {
        broadcast use vstd::std_specs::hash::group_hash_axioms;

        let r = FileLocks { locks: HashMap::new() };
        assert(r@ =~= Map::<u64, Seq<FileLock>>::empty());
        r
    }

    /// Ask whether a lock could be had: the first lock that is in its way, or
    /// the lock itself with no owner where none is.
    pub fn getlk(&self, inode: u64, lock: FileLock) -> (r: FileLock)
        ensures
            r == match first_clash(held_on(self@, inode), lock) {
                Some(l) => l,
                None => FileLock { pid: 0, ..lock },
            },
    {
        broadcast use vstd::std_specs::hash::group_hash_axioms;

        if let Some(held) = self.locks.get(&inode) {
            if let Some(l) = find_clash(held, lock) {
                return l;
            }
        }
        FileLock { start: lock.start, end: lock.end, lock_type: lock.lock_type, pid: 0 }
    }

    /// Take or drop a lock. Dropping removes the locks on exactly that range.
    /// A lock that another one is in the way of is refused.
    pub fn setlk(&mut self, inode: u64, lock: FileLock) -> (r: Result<(), i32>)
        ensures
            ({
                let held = held_on(old(self)@, inode);
                if lock.lock_type == 0 {
                    &&& r is Ok
                    &&& final(self)@ == old(self)@.insert(
                        inode,
                        released(held, lock.start, lock.end),
                    )
                } else if first_clash(held, lock) is Some {
                    &&& r == Err::<(), i32>(EAGAIN)
                    &&& final(self)@ == old(self)@.insert(inode, held)
                } else {
                    &&& r is Ok
                    &&& final(self)@ == old(self)@.insert(inode, held.push(lock))
                }
            }),
    {
        broadcast use vstd::std_specs::hash::group_hash_axioms;

        let mut held: Vec<FileLock> = match self.locks.remove(&inode) {
            Some(v) => v,
            None => Vec::new(),
        };
        let ghost h0 = held@;
        assert(h0 =~= held_on(old(self)@, inode));
        if lock.lock_type == 0 {
            let left: Vec<FileLock> = release_range(&held, lock.start, lock.end);
            self.locks.insert(inode, left);
            assert(self@ =~= old(self)@.insert(inode, released(h0, lock.start, lock.end)));
            return Ok(());
        }
        if find_clash(&held, lock).is_some() {
            self.locks.insert(inode, held);
            assert(self@ =~= old(self)@.insert(inode, h0));
            return Err(EAGAIN);
        }
        held.push(lock);
        self.locks.insert(inode, held);
        assert(self@ =~= old(self)@.insert(inode, h0.push(lock)));
        Ok(())
    }
}

proof fn lemma_first_clash_sound(held: Seq<FileLock>, lock: FileLock)
    ensures
        first_clash(held, lock) is None <==> forall|i: int|
            0 <= i < held.len() ==> !clash(#[trigger] held[i], lock),
    decreases held.len(),
{
    if held.len() > 0 {
        let p = held.drop_last();
        lemma_first_clash_sound(p, lock);
        if first_clash(held, lock) is None {
            assert forall|i: int| 0 <= i < held.len() implies !clash(#[trigger] held[i], lock) by {
                if i < p.len() {
                    assert(p[i] == held[i]);
                }
            }
        } else if first_clash(p, lock) is Some {
            let i = choose|i: int| 0 <= i < p.len() && clash(#[trigger] p[i], lock);
            assert(held[i] == p[i]);
        } else {
            assert(clash(held[held.len() - 1], lock));
        }
    }
}

/// The locks held on a file never clash with one another: a lock that was
/// granted clashes with none that was held.
pub proof fn law_granted_locks_do_not_clash(held: Seq<FileLock>, lock: FileLock)
    requires
        forall|i: int, j: int|
            0 <= i < held.len() && 0 <= j < held.len() ==> !clash(#[trigger] held[i], #[trigger] held[j]),
        first_clash(held, lock) is None,
    ensures
        forall|i: int, j: int|
            0 <= i < held.push(lock).len() && 0 <= j < held.push(lock).len() ==> !clash(
                #[trigger] held.push(lock)[i],
                #[trigger] held.push(lock)[j],
            ),
{
    lemma_first_clash_sound(held, lock);
    let all = held.push(lock);
    assert forall|i: int, j: int| 0 <= i < all.len() && 0 <= j < all.len() implies !clash(
        #[trigger] all[i],
        #[trigger] all[j],
    ) by {
        if i < held.len() && j < held.len() {
            assert(!clash(held[i], held[j]));
        } else if i < held.len() {
            assert(!clash(held[i], lock));
        } else if j < held.len() {
            assert(!clash(held[j], lock));
        }
    }
}

} // verus!
