//! A small map from names to values that remembers the order in which the
//! names were set. Setting a name again moves it to the end.

use vstd::prelude::*;

verus! {

/// The list without the entries called `name`.
pub open spec fn erase<V>(s: Seq<(Seq<char>, V)>, name: Seq<char>) -> Seq<(Seq<char>, V)>
    decreases s.len(),
{
    if s.len() == 0 {
        s
    } else if s.last().0 == name {
        erase(s.drop_last(), name)
    } else {
        erase(s.drop_last(), name).push(s.last())
    }
}

/// The value that `name` has, if it has one.
pub open spec fn find<V>(s: Seq<(Seq<char>, V)>, name: Seq<char>) -> Option<V>
    decreases s.len(),
{
    if s.len() == 0 {
        None
    } else if s.last().0 == name {
        Some(s.last().1)
    } else {
        find(s.drop_last(), name)
    }
}

/// The list after `name` was set to `v`.
pub open spec fn put<V>(s: Seq<(Seq<char>, V)>, name: Seq<char>, v: V) -> Seq<(Seq<char>, V)> {
    erase(s, name).push((name, v))
}

/// The earliest name whose value is `v`.
pub open spec fn first_name<V>(s: Seq<(Seq<char>, V)>, v: V) -> Option<Seq<char>>
    decreases s.len(),
{
    if s.len() == 0 {
        None
    } else {
        match first_name(s.drop_last(), v) {
            Some(n) => Some(n),
            None => if s.last().1 == v {
                Some(s.last().0)
            } else {
                None
            },
        }
    }
}

/// The list without the entries whose value is `v`.
pub open spec fn erase_value<V>(s: Seq<(Seq<char>, V)>, v: V) -> Seq<(Seq<char>, V)>
    decreases s.len(),
{
    if s.len() == 0 {
        s
    } else if s.last().1 == v {
        erase_value(s.drop_last(), v)
    } else {
        erase_value(s.drop_last(), v).push(s.last())
    }
}

/// No name occurs twice.
pub open spec fn distinct<V>(s: Seq<(Seq<char>, V)>) -> bool {
    forall|i: int, j: int| 0 <= i < j < s.len() ==> (#[trigger] s[i]).0 != (#[trigger] s[j]).0
}

/// The names, in the order of the list.
pub open spec fn names_of<V>(s: Seq<(Seq<char>, V)>) -> Seq<Seq<char>> {
    Seq::new(s.len(), |i: int| s[i].0)
}

/// A name that was erased is gone, and every other name keeps its value.
pub proof fn law_erase<V>(s: Seq<(Seq<char>, V)>, name: Seq<char>, other: Seq<char>)
    ensures
        find(erase(s, name), name) is None,
        other != name ==> find(erase(s, name), other) == find(s, other),
    decreases s.len(),
{
    if s.len() > 0 {
        law_erase(s.drop_last(), name, other);
        if s.last().0 != name {
            let r = erase(s.drop_last(), name);
            assert(r.push(s.last()).drop_last() =~= r);
        }
    }
}

/// A name that was set has the value that was set, and every other name keeps
/// its value.
pub proof fn law_put<V>(s: Seq<(Seq<char>, V)>, name: Seq<char>, v: V, other: Seq<char>)
    ensures
        find(put(s, name, v), name) == Some(v),
        other != name ==> find(put(s, name, v), other) == find(s, other),
{
    law_erase(s, name, other);
    assert(put(s, name, v).drop_last() =~= erase(s, name));
}

proof fn lemma_erase_subset<V>(s: Seq<(Seq<char>, V)>, name: Seq<char>)
    ensures
        erase(s, name).len() <= s.len(),
        forall|i: int|
            0 <= i < erase(s, name).len() ==> {
                &&& #[trigger] s.contains(erase(s, name)[i])
                &&& erase(s, name)[i].0 != name
            },
    decreases s.len(),
{
    if s.len() > 0 {
        let p = s.drop_last();
        lemma_erase_subset(p, name);
        let e = erase(s, name);
        assert forall|i: int| 0 <= i < e.len() implies #[trigger] s.contains(e[i]) && e[i].0
            != name by {
            let ep = erase(p, name);
            if i < ep.len() {
                assert(e[i] == ep[i]);
                assert(p.contains(ep[i]));
                let j = choose|j: int| 0 <= j < p.len() && p[j] == ep[i];
                assert(s[j] == e[i]);
            } else {
                assert(e[i] == s[s.len() - 1]);
            }
        }
    }
}

/// Setting and erasing names keeps every name unique.
pub proof fn law_names_stay_distinct<V>(s: Seq<(Seq<char>, V)>, name: Seq<char>, v: V)
    requires
        distinct(s),
    ensures
        distinct(erase(s, name)),
        distinct(put(s, name, v)),
    decreases s.len(),
{
    lemma_erase_subset(s, name);
    if s.len() > 0 {
        let p = s.drop_last();
        assert(distinct(p));
        law_names_stay_distinct(p, name, v);
        lemma_erase_subset(p, name);
        let ep = erase(p, name);
        let e = erase(s, name);
        if s.last().0 != name {
            assert forall|i: int, j: int| 0 <= i < j < e.len() implies (#[trigger] e[i]).0 != (
            #[trigger] e[j]).0 by {
                if j == ep.len() {
                    assert(p.contains(ep[i]));
                    let k = choose|k: int| 0 <= k < p.len() && p[k] == ep[i];
                    assert(s[k] == e[i]);
                    assert(s[s.len() - 1] == e[j]);
                }
            }
        }
    }
    let r = put(s, name, v);
    assert forall|i: int, j: int| 0 <= i < j < r.len() implies (#[trigger] r[i]).0 != (
    #[trigger] r[j]).0 by {
        if j == erase(s, name).len() {
            assert(s.contains(erase(s, name)[i]));
        }
    }
}

/// A map from names to values.
#[derive(Debug)]
pub struct NameMap<V> {
    items: Vec<(String, V)>,
}

impl<V: View> View for NameMap<V> {
    type V = Seq<(Seq<char>, V::V)>;

    closed spec fn view(&self) -> Seq<(Seq<char>, V::V)> {
        Seq::new(self.items@.len(), |i: int| (self.items@[i].0@, self.items@[i].1@))
    }
}

impl<V: View> NameMap<V> {
    /// An empty map.
    pub fn new() -> (r: Self)
        ensures
            r@ == Seq::<(Seq<char>, V::V)>::empty(),
    {
        let r = NameMap { items: Vec::new() };
        assert(r@ =~= Seq::<(Seq<char>, V::V)>::empty());
        r
    }

    /// The number of names.
    pub fn len(&self) -> (r: usize)
        ensures
            r == self@.len(),
    {
        self.items.len()
    }

    /// The value of a name.
    pub fn get(&self, name: &str) -> (r: Option<&V>)
        ensures
            match r {
                Some(v) => find(self@, name@) == Some(v@),
                None => find(self@, name@) is None,
            },
    {
        let key: String = name.to_owned();
        let mut i: usize = self.items.len();
        assert(self@.take(i as int) =~= self@);
        while i > 0
            invariant
                i <= self.items.len(),
                key@ == name@,
                find(self@, name@) == find(self@.take(i as int), name@),
            decreases i,
        {
            i -= 1;
            assert(self@.take(i as int + 1).drop_last() =~= self@.take(i as int));
            assert(self@.take(i as int + 1).last() == self@[i as int]);
            if self.items[i].0 == key {
                return Some(&self.items[i].1);
            }
        }
        None
    }

    /// Forget a name. Returns whether it had a value.
    pub fn remove(&mut self, name: &str) -> (r: bool)
        ensures
            final(self)@ == erase(old(self)@, name@),
            r == (find(old(self)@, name@) is Some),
    {
        let key: String = name.to_owned();
        let ghost s0 = self@;
        let ghost mut k: int = 0;
        let mut found: bool = false;
        let mut i: usize = 0;
        assert(s0.take(0) =~= Seq::<(Seq<char>, V::V)>::empty());
        assert(self@ =~= erase(s0.take(0), name@) + s0.skip(0));
        while i < self.items.len()
            invariant
                key@ == name@,
                0 <= k <= s0.len(),
                i == erase(s0.take(k), name@).len(),
                self@ == erase(s0.take(k), name@) + s0.skip(k),
                found == (find(s0.take(k), name@) is Some),
            decreases s0.len() - k,
        {
            let ghost before = erase(s0.take(k), name@);
            proof {
                assert(self@[i as int] == s0.skip(k)[0]);
                assert(s0.take(k + 1).drop_last() =~= s0.take(k));
                assert(s0.take(k + 1).last() == s0[k]);
            }
            if self.items[i].0 == key {
                let ghost v0 = self@;
                self.items.remove(i);
                found = true;
                assert(self@ =~= v0.remove(i as int));
                assert(self@ =~= before + s0.skip(k + 1));
            } else {
                i += 1;
                assert(self@ =~= before.push(s0[k]) + s0.skip(k + 1));
            }
            proof {
                k = k + 1;
            }
        }
        proof {
            assert(self@.len() == i);
            assert(s0.skip(k).len() == 0);
            assert(s0.take(k) =~= s0);
            assert(self@ =~= erase(s0, name@));
        }
        found
    }

    /// Set the value of a name.
    pub fn insert(&mut self, name: String, value: V)
        ensures
            final(self)@ == put(old(self)@, name@, value@),
    {
        let ghost s0 = self@;
        self.remove(name.as_str());
        let ghost v0 = self@;
        let ghost n = name@;
        let ghost v = value@;
        self.items.push((name, value));
        assert(self@ =~= v0.push((n, v)));
    }

    /// Forget every name.
    pub fn clear(&mut self)
        ensures
            final(self)@ == Seq::<(Seq<char>, V::V)>::empty(),
    {
        self.items.clear();
        assert(self@ =~= Seq::<(Seq<char>, V::V)>::empty());
    }

    /// The names, in the order of the list.
    pub fn names(&self) -> (r: Vec<String>)
        ensures
            r@.len() == self@.len(),
            forall|i: int| 0 <= i < r@.len() ==> (#[trigger] r@[i])@ == self@[i].0,
    {
        let mut r: Vec<String> = Vec::new();
        let mut i: usize = 0;
        while i < self.items.len()
            invariant
                i <= self.items.len(),
                r@.len() == i,
                forall|j: int| 0 <= j < i ==> (#[trigger] r@[j])@ == self@[j].0,
            decreases self.items.len() - i,
        {
            r.push(self.items[i].0.clone());
            i += 1;
        }
        r
    }
}

impl NameMap<u64> {
    /// The earliest name whose value is `v`.
    pub fn name_of(&self, v: u64) -> (r: Option<String>)
        ensures
            match r {
                Some(n) => first_name(self@, v) == Some(n@),
                None => first_name(self@, v) is None,
            },
    {
        let mut i: usize = 0;
        assert(self@.take(0) =~= Seq::<(Seq<char>, u64)>::empty());
        while i < self.items.len()
            invariant
                i <= self.items.len(),
                first_name(self@.take(i as int), v) is None,
            decreases self.items.len() - i,
        {
            proof {
                assert(self@.take(i as int + 1).drop_last() =~= self@.take(i as int));
                assert(self@.take(i as int + 1).last() == self@[i as int]);
            }
            if self.items[i].1 == v {
                proof {
                    lemma_first_name_prefix(self@, v, i as int + 1);
                }
                return Some(self.items[i].0.clone());
            }
            i += 1;
        }
        assert(self@.take(i as int) =~= self@);
        None
    }

    /// Forget every name whose value is `v`.
    pub fn remove_value(&mut self, v: u64)
        ensures
            final(self)@ == erase_value(old(self)@, v),
    {
        let ghost s0 = self@;
        let ghost mut k: int = 0;
        let mut i: usize = 0;
        assert(s0.take(0) =~= Seq::<(Seq<char>, u64)>::empty());
        assert(self@ =~= erase_value(s0.take(0), v) + s0.skip(0));
        while i < self.items.len()
            invariant
                0 <= k <= s0.len(),
                i == erase_value(s0.take(k), v).len(),
                self@ == erase_value(s0.take(k), v) + s0.skip(k),
            decreases s0.len() - k,
        {
            let ghost before = erase_value(s0.take(k), v);
            proof {
                assert(self@[i as int] == s0.skip(k)[0]);
                assert(s0.take(k + 1).drop_last() =~= s0.take(k));
                assert(s0.take(k + 1).last() == s0[k]);
            }
            if self.items[i].1 == v {
                let ghost v0 = self@;
                self.items.remove(i);
                assert(self@ =~= v0.remove(i as int));
                assert(self@ =~= before + s0.skip(k + 1));
            } else {
                i += 1;
                assert(self@ =~= before.push(s0[k]) + s0.skip(k + 1));
            }
            proof {
                k = k + 1;
            }
        }
        proof {
            assert(self@.len() == i);
            assert(s0.skip(k).len() == 0);
            assert(s0.take(k) =~= s0);
            assert(self@ =~= erase_value(s0, v));
        }
    }
}

proof fn lemma_first_name_prefix(s: Seq<(Seq<char>, u64)>, v: u64, n: int)
    requires
        0 <= n <= s.len(),
        first_name(s.take(n), v) is Some,
    ensures
        first_name(s, v) == first_name(s.take(n), v),
    decreases s.len() - n,
{
    if n < s.len() {
        assert(s.take(n + 1).drop_last() =~= s.take(n));
        lemma_first_name_prefix(s, v, n + 1);
    } else {
        assert(s.take(n) =~= s);
    }
}

impl NameMap<Vec<u8>> {
    /// A copy of the map.
    pub fn duplicate(&self) -> (r: Self)
        ensures
            r@ == self@,
    {
        let mut items: Vec<(String, Vec<u8>)> = Vec::new();
        let mut i: usize = 0;
        while i < self.items.len()
            invariant
                i <= self.items.len(),
                items@.len() == i,
                forall|j: int|
                    0 <= j < i ==> (#[trigger] items@[j]).0@ == self@[j].0 && items@[j].1@
                        == self@[j].1,
            decreases self.items.len() - i,
        {
            let v: Vec<u8> = self.items[i].1.clone();
            assert(v@ =~= self.items@[i as int].1@);
            items.push((self.items[i].0.clone(), v));
            i += 1;
        }
        let r = NameMap { items };
        assert(r@ =~= self@);
        r
    }
}

} // verus!
