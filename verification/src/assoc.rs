//! Finite maps kept as vectors of entries with distinct keys: the storage
//! maps of the pallet and the accounts of the currency.

use vstd::prelude::*;

verus! {

/// A key whose equality can be decided at run time.
pub trait Key: Copy + Sized {
    fn key_eq(&self, other: &Self) -> (r: bool)
        ensures
            r == (*self == *other),
    ;
}

impl Key for u64 {
    fn key_eq(&self, other: &Self) -> (r: bool) {
        *self == *other
    }
}

/// The map that a sequence of entries stands for: later entries win.
pub open spec fn seq_to_map<K, T>(s: Seq<(K, T)>) -> Map<K, T>
    decreases s.len(),
{
    if s.len() == 0 {
        Map::empty()
    } else {
        seq_to_map(s.drop_last()).insert(s.last().0, s.last().1)
    }
}

/// No key occurs twice.
pub open spec fn keys_distinct<K, T>(s: Seq<(K, T)>) -> bool {
    forall|i: int, j: int|
        #![trigger s[i], s[j]]
        0 <= i < s.len() && 0 <= j < s.len() && i != j ==> s[i].0 != s[j].0
}

pub proof fn lemma_seq_to_map_push<K, T>(s: Seq<(K, T)>, e: (K, T))
    ensures
        seq_to_map(s.push(e)) == seq_to_map(s).insert(e.0, e.1),
{
    assert(s.push(e).drop_last() =~= s);
}

pub proof fn lemma_seq_to_map_finite<K, T>(s: Seq<(K, T)>)
    ensures
        seq_to_map(s).dom().finite(),
    decreases s.len(),
{
    if s.len() > 0 {
        lemma_seq_to_map_finite(s.drop_last());
    }
}

pub proof fn lemma_seq_to_map_contains<K, T>(s: Seq<(K, T)>, k: K)
    ensures
        seq_to_map(s).dom().contains(k) <==> exists|i: int| 0 <= i < s.len() && #[trigger] s[i].0 == k,
    decreases s.len(),
{
    if s.len() > 0 {
        lemma_seq_to_map_contains(s.drop_last(), k);
        if seq_to_map(s).dom().contains(k) {
            if s.last().0 != k {
                let i = choose|i: int| 0 <= i < s.drop_last().len() && #[trigger] s.drop_last()[i].0 == k;
                assert(s[i].0 == k);
            }
        } else {
            assert forall|i: int| 0 <= i < s.len() implies #[trigger] s[i].0 != k by {
                if i < s.len() - 1 {
                    assert(s.drop_last()[i] == s[i]);
                }
            }
        }
    }
}

pub proof fn lemma_seq_to_map_index<K, T>(s: Seq<(K, T)>, i: int)
    requires
        keys_distinct(s),
        0 <= i < s.len(),
    ensures
        seq_to_map(s).dom().contains(s[i].0),
        seq_to_map(s)[s[i].0] == s[i].1,
    decreases s.len(),
{
    if i < s.len() - 1 {
        let t = s.drop_last();
        assert(t[i] == s[i]);
        assert(keys_distinct(t)) by {
            assert forall|a: int, b: int|
                0 <= a < t.len() && 0 <= b < t.len() && a != b implies #[trigger] t[a].0 != #[trigger] t[b].0 by {
                assert(t[a] == s[a] && t[b] == s[b]);
            }
        }
        lemma_seq_to_map_index(t, i);
        assert(s[i].0 != s[s.len() - 1].0);
    }
}

pub proof fn lemma_seq_to_map_update<K, T>(s: Seq<(K, T)>, i: int, v: T)
    requires
        keys_distinct(s),
        0 <= i < s.len(),
    ensures
        keys_distinct(s.update(i, (s[i].0, v))),
        seq_to_map(s.update(i, (s[i].0, v))) == seq_to_map(s).insert(s[i].0, v),
    decreases s.len(),
{
    let u = s.update(i, (s[i].0, v));
    assert forall|a: int, b: int|
        0 <= a < u.len() && 0 <= b < u.len() && a != b implies #[trigger] u[a].0 != #[trigger] u[b].0 by {
        assert(u[a].0 == s[a].0 && u[b].0 == s[b].0);
    }
    let t = s.drop_last();
    assert(keys_distinct(t)) by {
        assert forall|a: int, b: int|
            0 <= a < t.len() && 0 <= b < t.len() && a != b implies #[trigger] t[a].0 != #[trigger] t[b].0 by {
            assert(t[a] == s[a] && t[b] == s[b]);
        }
    }
    if i == s.len() - 1 {
        assert(u.drop_last() =~= t);
        assert(seq_to_map(u) =~= seq_to_map(s).insert(s[i].0, v));
    } else {
        lemma_seq_to_map_update(t, i, v);
        assert(u.drop_last() =~= t.update(i, (s[i].0, v)));
        assert(s.last().0 != s[i].0);
        assert(seq_to_map(u) =~= seq_to_map(s).insert(s[i].0, v));
    }
}

/// A vector of copies of the elements of `v`.
pub fn copy_vec<T: Copy>(v: &Vec<T>) -> (r: Vec<T>)
    ensures
        r@ == v@,
{
    let mut r: Vec<T> = Vec::new();
    let n = v.len();
    for i in 0..n
        invariant
            n == v.len(),
            r@ == v@.take(i as int),
    {
        r.push(v[i]);
        assert(v@.take(i as int).push(v@[i as int]) =~= v@.take(i + 1));
    }
    assert(v@.take(n as int) =~= v@);
    r
}

/// A finite map from `K` to `T` held as a vector of entries with distinct keys.
#[derive(Clone, Debug, PartialEq, Eq)]
pub struct AssocList<K, T> {
    entries: Vec<(K, T)>,
}

impl<K, T> View for AssocList<K, T> {
    type V = Map<K, T>;

    closed spec fn view(&self) -> Map<K, T> {
        seq_to_map(self.entries@)
    }
}

impl<K: Key, T> AssocList<K, T> {
    /// The entries, in the order in which their keys were first inserted.
    pub closed spec fn entries(&self) -> Seq<(K, T)> {
        self.entries@
    }

    pub closed spec fn wf(&self) -> bool {
        keys_distinct(self.entries@)
    }

    pub fn new() -> (r: Self)
        ensures
            r.wf(),
            r@ == Map::<K, T>::empty(),
            r.entries() == Seq::<(K, T)>::empty(),
    {
        AssocList { entries: Vec::new() }
    }

    pub fn len(&self) -> (r: usize)
        ensures
            r == self.entries().len(),
    {
        self.entries.len()
    }

    /// The position of the entry for `k`, if there is one.
    pub fn find(&self, k: &K) -> (r: Option<usize>)
        requires
            self.wf(),
        ensures
            match r {
                Some(i) => i < self.entries().len() && self.entries()[i as int].0 == *k
                    && self@.dom().contains(*k) && self@[*k] == self.entries()[i as int].1,
                None => !self@.dom().contains(*k),
            },
    {
        let n = self.entries.len();
        for i in 0..n
            invariant
                n == self.entries@.len(),
                keys_distinct(self.entries@),
                forall|j: int| 0 <= j < i ==> #[trigger] self.entries@[j].0 != *k,
        {
            if self.entries[i].0.key_eq(k) {
                proof {
                    lemma_seq_to_map_index(self.entries@, i as int);
                }
                return Some(i);
            }
        }
        proof {
            lemma_seq_to_map_contains(self.entries@, *k);
        }
        None
    }

    pub fn get(&self, k: &K) -> (r: Option<&T>)
        requires
            self.wf(),
        ensures
            match r {
                Some(v) => self@.dom().contains(*k) && *v == self@[*k],
                None => !self@.dom().contains(*k),
            },
    {
        match self.find(k) {
            Some(i) => Some(&self.entries[i].1),
            None => None,
        }
    }

    pub fn contains_key(&self, k: &K) -> (r: bool)
        requires
            self.wf(),
        ensures
            r == self@.dom().contains(*k),
    {
        self.find(k).is_some()
    }

    /// Sets the value of `k`: in place when `k` has an entry, else as a new last entry.
    pub fn insert(&mut self, k: K, v: T)
        requires
            old(self).wf(),
        ensures
            final(self).wf(),
            final(self)@ == old(self)@.insert(k, v),
    {
        match self.find(&k) {
            Some(i) => {
                proof {
                    lemma_seq_to_map_update(self.entries@, i as int, v);
                }
                self.entries.set(i, (k, v));
            },
            None => {
                proof {
                    lemma_seq_to_map_push(self.entries@, (k, v));
                    lemma_seq_to_map_contains(self.entries@, k);
                }
                self.entries.push((k, v));
                assert(keys_distinct(self.entries@)) by {
                    assert forall|a: int, b: int|
                        0 <= a < self.entries@.len() && 0 <= b < self.entries@.len() && a != b implies
                        #[trigger] self.entries@[a].0 != #[trigger] self.entries@[b].0 by {
                        if a < old(self).entries@.len() && b < old(self).entries@.len() {
                            assert(self.entries@[a] == old(self).entries@[a]);
                            assert(self.entries@[b] == old(self).entries@[b]);
                        } else if a < old(self).entries@.len() {
                            assert(self.entries@[a] == old(self).entries@[a]);
                        } else {
                            assert(self.entries@[b] == old(self).entries@[b]);
                        }
                    }
                }
            },
        }
    }
}

impl<K: Key, T: Copy> AssocList<K, T> {
    /// A copy of the map.
    pub fn copy(&self) -> (r: Self)
        requires
            self.wf(),
        ensures
            r.wf(),
            r@ == self@,
            r.entries() == self.entries(),
    {
        AssocList { entries: copy_vec(&self.entries) }
    }
}

} // verus!
