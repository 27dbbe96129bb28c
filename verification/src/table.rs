//! Small maps and sets over keys that can be compared.

use vstd::prelude::*;

use crate::mir::SsaLocal;

verus! {

/// A key: values that are equal exactly where their models are.
pub trait Key: DeepView + Sized {
    fn same_key(&self, other: &Self) -> (r: bool)
        ensures
            r == (self.deep_view() == other.deep_view()),
    ;
}

impl Key for String {
    fn same_key(&self, other: &Self) -> (r: bool) {
        *self == *other
    }
}

impl Key for usize {
    fn same_key(&self, other: &Self) -> (r: bool) {
        *self == *other
    }
}

impl Key for SsaLocal {
    fn same_key(&self, other: &Self) -> (r: bool) {
        *self == *other
    }
}

/// A map; the last binding of a key counts.
pub struct Table<K, V> {
    entries: Vec<(K, V)>,
}

/// The map that a list of bindings stands for.
pub open spec fn bindings<K: DeepView, V: DeepView>(s: Seq<(K, V)>) -> Map<K::V, V::V>
    decreases s.len(),
{
    if s.len() == 0 {
        Map::empty()
    } else {
        bindings(s.drop_last()).insert(s.last().0.deep_view(), s.last().1.deep_view())
    }
}

impl<K: DeepView, V: DeepView> DeepView for Table<K, V> {
    type V = Map<K::V, V::V>;

    closed spec fn deep_view(&self) -> Map<K::V, V::V> {
        bindings(self.entries@)
    }
}

impl<K: Key, V: DeepView> Table<K, V> {
    /// The empty map.
    pub fn new() -> (r: Self)
        ensures
            r.deep_view() == Map::<K::V, V::V>::empty(),
    {
        Table { entries: Vec::new() }
    }

    /// Binds `key` to `value`, in place of any earlier value.
    pub fn insert(&mut self, key: K, value: V)
        ensures
            final(self).deep_view() == old(self).deep_view().insert(
                key.deep_view(),
                value.deep_view(),
            ),
    {
        let ghost before = self.entries@;
        self.entries.push((key, value));
        assert(self.entries@.drop_last() =~= before);
    }

    /// The value bound to `key`, if there is one.
    pub fn get(&self, key: &K) -> (r: Option<&V>)
        ensures
            match r {
                Some(v) => self.deep_view().contains_key(key.deep_view()) && v.deep_view()
                    == self.deep_view()[key.deep_view()],
                None => !self.deep_view().contains_key(key.deep_view()),
            },
    {
        let mut i: usize = self.entries.len();
        let ghost all = self.entries@;
        assert(all.take(i as int) =~= all);
        while i > 0
            invariant
                i <= self.entries.len(),
                all == self.entries@,
                bindings(all.take(i as int)).contains_key(key.deep_view()) == bindings(
                    all,
                ).contains_key(key.deep_view()),
                bindings(all).contains_key(key.deep_view()) ==> bindings(
                    all.take(i as int),
                )[key.deep_view()] == bindings(all)[key.deep_view()],
            decreases i,
        {
            i = i - 1;
            proof {
                assert(all.take(i + 1).drop_last() =~= all.take(i as int));
                assert(all.take(i + 1).last() == all[i as int]);
            }
            if self.entries[i].0.same_key(key) {
                return Some(&self.entries[i].1);
            }
        }
        assert(all.take(0) =~= Seq::empty());
        None
    }

    /// Binds `key`, where it is bound, to `value`, and gives the value it had.
    pub fn replace(&mut self, key: &K, value: V) -> (r: Option<V>)
        ensures
            match r {
                Some(v) => {
                    &&& old(self).deep_view().contains_key(key.deep_view())
                    &&& v.deep_view() == old(self).deep_view()[key.deep_view()]
                    &&& final(self).deep_view() == old(self).deep_view().insert(
                        key.deep_view(),
                        value.deep_view(),
                    )
                },
                None => {
                    &&& !old(self).deep_view().contains_key(key.deep_view())
                    &&& final(self).deep_view() == old(self).deep_view()
                },
            },
    {
        let mut i: usize = self.entries.len();
        let ghost all = self.entries@;
        while i > 0
            invariant
                i <= self.entries.len(),
                all == self.entries@,
                all == old(self).entries@,
                forall|j: int|
                    i <= j < all.len() ==> (#[trigger] all[j]).0.deep_view() != key.deep_view(),
            decreases i,
        {
            i = i - 1;
            if self.entries[i].0.same_key(key) {
                let mut v = value;
                proof {
                    lemma_last_binding(all, i as int);
                }
                std::mem::swap(&mut v, &mut self.entries[i].1);
                proof {
                    lemma_rebound(all, i as int, self.entries@[i as int]);
                    assert(self.entries@ =~= all.update(i as int, self.entries@[i as int]));
                }
                return Some(v);
            }
        }
        proof {
            lemma_unbound(all, key.deep_view());
        }
        None
    }

    /// Whether `key` is bound.
    pub fn contains_key(&self, key: &K) -> (r: bool)
        ensures
            r == self.deep_view().contains_key(key.deep_view()),
    {
        match self.get(key) {
            Some(_) => true,
            None => false,
        }
    }
}

/// A binding that no later one hides is the value of its key.
proof fn lemma_last_binding<K: DeepView, V: DeepView>(s: Seq<(K, V)>, i: int)
    requires
        0 <= i < s.len(),
        forall|j: int| i < j < s.len() ==> (#[trigger] s[j]).0.deep_view() != s[i].0.deep_view(),
    ensures
        bindings(s).contains_key(s[i].0.deep_view()),
        bindings(s)[s[i].0.deep_view()] == s[i].1.deep_view(),
    decreases s.len(),
{
    if i < s.len() - 1 {
        let t = s.drop_last();
        assert forall|j: int| i < j < t.len() implies (#[trigger] t[j]).0.deep_view()
            != t[i].0.deep_view() by {
            assert(t[j] == s[j]);
        }
        lemma_last_binding(t, i);
        assert(s[s.len() - 1].0.deep_view() != s[i].0.deep_view());
    }
}

/// Changing the value of such a binding binds its key anew.
proof fn lemma_rebound<K: DeepView, V: DeepView>(s: Seq<(K, V)>, i: int, e: (K, V))
    requires
        0 <= i < s.len(),
        e.0 == s[i].0,
        forall|j: int| i < j < s.len() ==> (#[trigger] s[j]).0.deep_view() != s[i].0.deep_view(),
    ensures
        bindings(s.update(i, e)) == bindings(s).insert(e.0.deep_view(), e.1.deep_view()),
    decreases s.len(),
{
    let u = s.update(i, e);
    let t = s.drop_last();
    if i < s.len() - 1 {
        assert forall|j: int| i < j < t.len() implies (#[trigger] t[j]).0.deep_view()
            != t[i].0.deep_view() by {
            assert(t[j] == s[j]);
        }
        lemma_rebound(t, i, e);
        assert(u.drop_last() =~= t.update(i, e));
        assert(u.last() == s.last());
        assert(s[s.len() - 1].0.deep_view() != s[i].0.deep_view());
        assert(bindings(u) =~= bindings(s).insert(e.0.deep_view(), e.1.deep_view()));
    } else {
        assert(u.drop_last() =~= t);
        assert(bindings(u) =~= bindings(s).insert(e.0.deep_view(), e.1.deep_view()));
    }
}

/// A key that no entry has is not bound.
proof fn lemma_unbound<K: DeepView, V: DeepView>(s: Seq<(K, V)>, k: K::V)
    requires
        forall|j: int| 0 <= j < s.len() ==> (#[trigger] s[j]).0.deep_view() != k,
    ensures
        !bindings(s).contains_key(k),
    decreases s.len(),
{
    if s.len() > 0 {
        let t = s.drop_last();
        assert forall|j: int| 0 <= j < t.len() implies (#[trigger] t[j]).0.deep_view() != k by {
            assert(t[j] == s[j]);
        }
        lemma_unbound(t, k);
        assert(s[s.len() - 1].0.deep_view() != k);
    }
}

/// A set of keys.
pub struct KeySet<K> {
    items: Vec<K>,
}

impl<K: DeepView> DeepView for KeySet<K> {
    type V = Set<K::V>;

    closed spec fn deep_view(&self) -> Set<K::V> {
        self.items.deep_view().to_set()
    }
}

impl<K: Key> KeySet<K> {
    /// The empty set.
    pub fn new() -> (r: Self)
        ensures
            r.deep_view() == Set::<K::V>::empty(),
    {
        let r = KeySet { items: Vec::new() };
        assert(r.deep_view() =~= Set::<K::V>::empty());
        r
    }

    /// Whether `key` is in the set.
    pub fn contains(&self, key: &K) -> (r: bool)
        ensures
            r == self.deep_view().contains(key.deep_view()),
    {
        let ghost all = self.items.deep_view();
        let mut i: usize = 0;
        while i < self.items.len()
            invariant
                i <= self.items.len(),
                all == self.items.deep_view(),
                forall|j: int| 0 <= j < i ==> all[j] != key.deep_view(),
            decreases self.items.len() - i,
        {
            assert(all[i as int] == self.items@[i as int].deep_view());
            if self.items[i].same_key(key) {
                return true;
            }
            i = i + 1;
        }
        false
    }

    /// The members, in the order in which they were added.
    pub fn items(&self) -> (r: &Vec<K>)
        ensures
            r.deep_view().to_set() == self.deep_view(),
    {
        &self.items
    }

    /// Adds `key` to the set.
    pub fn insert(&mut self, key: K)
        ensures
            final(self).deep_view() == old(self).deep_view().insert(key.deep_view()),
    {
        let ghost before = self.items.deep_view();
        if !self.contains(&key) {
            let ghost kv = key.deep_view();
            self.items.push(key);
            assert(self.items.deep_view() =~= before.push(kv));
            assert(before.push(kv).to_set() =~= before.to_set().insert(kv)) by {
                broadcast use vstd::seq_lib::group_seq_properties;
            }
        } else {
            assert(self.deep_view() =~= self.deep_view().insert(key.deep_view()));
        }
    }
}

} // verus!
