//! Sets of variable numbers.

use vstd::prelude::*;

use crate::mir::SsaLocal;
use crate::table::KeySet;

verus! {

/// A finite set of variable numbers.
pub struct IdSet {
    items: Vec<usize>,
}

impl View for IdSet {
    type V = Set<usize>;

    closed spec fn view(&self) -> Set<usize> {
        self.items@.to_set()
    }
}

/// The least member of `s`, where it has one.
pub open spec fn is_least(s: Set<usize>, u: usize) -> bool {
    s.contains(u) && forall|v: usize| #[trigger] s.contains(v) ==> u <= v
}

/// The variable numbers of a set of SSA locals.
pub open spec fn base_ids(s: Set<SsaLocal>) -> Set<usize> {
    s.map(|l: SsaLocal| l.base_id)
}

/// `push` adds one member to the set of a sequence.
proof fn lemma_push_to_set(s: Seq<usize>, x: usize)
    ensures
        s.push(x).to_set() == s.to_set().insert(x),
{
    assert(s.push(x).to_set() =~= s.to_set().insert(x)) by {
        assert forall|y: usize| s.push(x).to_set().contains(y) == s.to_set().insert(x).contains(y) by {
            if s.contains(y) {
                let i = choose|i: int| 0 <= i < s.len() && s[i] == y;
                assert(s.push(x)[i] == y);
            }
            if y == x {
                assert(s.push(x)[s.len() as int] == x);
            }
        }
    }
}

impl IdSet {
    /// An `IdSet` is finite.
    pub proof fn lemma_finite(&self)
        ensures
            self@.finite(),
    {
        vstd::seq_lib::seq_to_set_is_finite(self.items@);
    }

    /// The empty set.
    pub fn new() -> (r: Self)
        ensures
            r@ == Set::<usize>::empty(),
    {
        let r = IdSet { items: Vec::new() };
        assert(r@ =~= Set::<usize>::empty());
        r
    }

    /// Whether `x` is in the set.
    pub fn contains(&self, x: usize) -> (r: bool)
        ensures
            r == self@.contains(x),
    {
        let mut i: usize = 0;
        while i < self.items.len()
            invariant
                i <= self.items.len(),
                forall|j: int| 0 <= j < i ==> self.items@[j] != x,
            decreases self.items.len() - i,
        {
            if self.items[i] == x {
                return true;
            }
            i = i + 1;
        }
        false
    }

    /// Adds `x`.
    pub fn insert(&mut self, x: usize)
        ensures
            final(self)@ == old(self)@.insert(x),
    {
        if !self.contains(x) {
            proof {
                lemma_push_to_set(self.items@, x);
            }
            self.items.push(x);
        } else {
            assert(self@ =~= self@.insert(x));
        }
    }

    /// Removes `x`.
    pub fn remove(&mut self, x: usize)
        ensures
            final(self)@ == old(self)@.remove(x),
    {
        let ghost before = self.items@;
        let mut kept: Vec<usize> = Vec::new();
        let mut i: usize = 0;
        assert(kept@.to_set() =~= before.take(0).to_set().remove(x));
        while i < self.items.len()
            invariant
                i <= self.items.len(),
                before == self.items@,
                kept@.to_set() == before.take(i as int).to_set().remove(x),
            decreases self.items.len() - i,
        {
            let y = self.items[i];
            proof {
                assert(before.take(i + 1) =~= before.take(i as int).push(y));
                lemma_push_to_set(before.take(i as int), y);
            }
            if y != x {
                proof {
                    lemma_push_to_set(kept@, y);
                }
                kept.push(y);
            }
            assert(kept@.to_set() =~= before.take(i + 1).to_set().remove(x));
            i = i + 1;
        }
        assert(before.take(i as int) =~= before);
        self.items = kept;
    }

    /// A copy of the set.
    pub fn copy(&self) -> (r: Self)
        ensures
            r@ == self@,
    {
        let items = self.items.clone();
        assert(items@ =~= self.items@);
        IdSet { items }
    }

    /// Adds every member of `other`; whether that changed the set.
    pub fn union_with(&mut self, other: &IdSet) -> (changed: bool)
        ensures
            final(self)@ == old(self)@.union(other@),
            changed == (final(self)@ != old(self)@),
    {
        let ghost s0 = self@;
        let ghost all = other.items@;
        let mut changed = false;
        let mut i: usize = 0;
        assert(s0 =~= s0.union(all.take(0).to_set()));
        while i < other.items.len()
            invariant
                i <= other.items.len(),
                all == other.items@,
                self@ == s0.union(all.take(i as int).to_set()),
                changed == (self@ != s0),
            decreases other.items.len() - i,
        {
            let x = other.items[i];
            proof {
                assert(all.take(i + 1) =~= all.take(i as int).push(x));
                lemma_push_to_set(all.take(i as int), x);
            }
            let ghost s1 = self@;
            if !self.contains(x) {
                self.insert(x);
                assert(!s0.contains(x) && self@.contains(x));
                changed = true;
            }
            assert(self@ =~= s0.union(all.take(i + 1).to_set()));
            i = i + 1;
        }
        assert(all.take(i as int) =~= all);
        changed
    }

    /// Removes every member that is not in `other`; whether that changed the set.
    pub fn intersect_with(&mut self, other: &IdSet) -> (changed: bool)
        ensures
            final(self)@ == old(self)@.intersect(other@),
            changed == (final(self)@ != old(self)@),
    {
        let ghost before = self.items@;
        let mut kept: Vec<usize> = Vec::new();
        let mut changed = false;
        let mut i: usize = 0;
        assert(kept@.to_set() =~= before.take(0).to_set().intersect(other@));
        while i < self.items.len()
            invariant
                i <= self.items.len(),
                before == self.items@,
                kept@.to_set() == before.take(i as int).to_set().intersect(other@),
                changed ==> exists|y: usize| before.to_set().contains(y) && !other@.contains(y),
                !changed ==> forall|j: int| 0 <= j < i ==> other@.contains(#[trigger] before[j]),
            decreases self.items.len() - i,
        {
            let y = self.items[i];
            proof {
                assert(before.take(i + 1) =~= before.take(i as int).push(y));
                lemma_push_to_set(before.take(i as int), y);
            }
            if other.contains(y) {
                proof {
                    lemma_push_to_set(kept@, y);
                }
                kept.push(y);
            } else {
                assert(before.to_set().contains(y)) by {
                    assert(before[i as int] == y);
                }
                changed = true;
            }
            assert(kept@.to_set() =~= before.take(i + 1).to_set().intersect(other@));
            i = i + 1;
        }
        proof {
            assert(before.take(i as int) =~= before);
            if !changed {
                assert(before.to_set().intersect(other@) =~= before.to_set());
            }
        }
        self.items = kept;
        changed
    }

    /// Whether two sets have the same members.
    pub fn same(&self, other: &IdSet) -> (r: bool)
        ensures
            r == (self@ == other@),
    {
        let r = self.inside(other) && other.inside(self);
        if r {
            assert(self@ =~= other@);
        }
        r
    }

    /// Whether every member is a member of `other`.
    fn inside(&self, other: &IdSet) -> (r: bool)
        ensures
            r == (forall|x: usize| #[trigger] self@.contains(x) ==> other@.contains(x)),
    {
        match self.least_outside(other) {
            Some(u) => {
                assert(self@.contains(u) && !other@.contains(u));
                false
            },
            None => true,
        }
    }

    /// The least member that is not in `other`.
    pub fn least_outside(&self, other: &IdSet) -> (r: Option<usize>)
        ensures
            match r {
                Some(u) => is_least(self@.difference(other@), u),
                None => forall|x: usize| #[trigger] self@.contains(x) ==> other@.contains(x),
            },
    {
        let ghost all = self.items@;
        let mut best: Option<usize> = None;
        let mut i: usize = 0;
        while i < self.items.len()
            invariant
                i <= self.items.len(),
                all == self.items@,
                match best {
                    Some(u) => all.to_set().contains(u) && !other@.contains(u) && forall|j: int|
                        0 <= j < i && !other@.contains(#[trigger] all[j]) ==> u <= all[j],
                    None => forall|j: int| 0 <= j < i ==> other@.contains(#[trigger] all[j]),
                },
            decreases self.items.len() - i,
        {
            let x = self.items[i];
            if !other.contains(x) {
                assert(all.to_set().contains(x)) by {
                    assert(all[i as int] == x);
                }
                match best {
                    Some(u) => {
                        if x < u {
                            best = Some(x);
                        }
                    },
                    None => {
                        best = Some(x);
                    },
                }
            }
            i = i + 1;
        }
        proof {
            assert forall|x: usize| #[trigger] self@.contains(x) && !other@.contains(x) implies (
            best matches Some(u) && u <= x) by {
                let j = choose|j: int| 0 <= j < all.len() && all[j] == x;
                assert(all[j] == x);
            }
        }
        best
    }

    /// The variable numbers of a set of SSA locals.
    pub fn from_locals(locals: &KeySet<SsaLocal>) -> (r: IdSet)
        ensures
            r@ == base_ids(locals.deep_view()),
    {
        let items = locals.items();
        let ghost all = items.deep_view();
        let mut r = IdSet::new();
        let mut i: usize = 0;
        while i < items.len()
            invariant
                i <= items.len(),
                all == items.deep_view(),
                forall|j: int| 0 <= j < i ==> r@.contains((#[trigger] all[j]).base_id),
                forall|x: usize| #[trigger]
                    r@.contains(x) ==> exists|j: int|
                        0 <= j < all.len() && (#[trigger] all[j]).base_id == x,
            decreases items.len() - i,
        {
            assert(all[i as int] == items@[i as int]);
            r.insert(items[i].base_id);
            i = i + 1;
        }
        proof {
            let f = |l: SsaLocal| l.base_id;
            let s = locals.deep_view();
            assert forall|x: usize| r@.contains(x) == base_ids(s).contains(x) by {
                if r@.contains(x) {
                    let j = choose|j: int| 0 <= j < all.len() && (#[trigger] all[j]).base_id == x;
                    assert(s.contains(all[j]));
                    assert(f(all[j]) == x);
                }
                if base_ids(s).contains(x) {
                    let l = choose|l: SsaLocal| s.contains(l) && f(l) == x;
                    let j = choose|j: int| 0 <= j < all.len() && all[j] == l;
                    assert(r@.contains(all[j].base_id));
                }
            }
            assert(r@ =~= base_ids(s));
        }
        r
    }
}

} // verus!
