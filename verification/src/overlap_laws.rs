//! Laws of overlapping places, in terms of the places themselves.

use vstd::prelude::*;

use crate::borrow::{overlap, steps_of, ProjV};
use crate::borrow_laws::{lemma_overlap_exact, part_of, part_ways};
use crate::builder::root_ssa;
use crate::init::root_of;
use crate::mir::PlaceV;
use crate::reading::{bottom, lemma_root_bottom};

verus! {

/// Whether two places are reached by naming the same fields, from some version of the same
/// variable.
pub open spec fn alike(a: PlaceV, b: PlaceV) -> bool
    decreases a,
{
    match (a, b) {
        (PlaceV::Ssa(x), PlaceV::Ssa(y)) => x.base_id == y.base_id,
        (PlaceV::Field { base: c, field: f }, PlaceV::Field { base: d, field: g }) => f == g
            && alike(*c, *d),
        _ => false,
    }
}

/// Whether two places lie in different fields of one place.
pub open spec fn apart(a: PlaceV, b: PlaceV) -> bool {
    exists|c: PlaceV, d: PlaceV, f: Seq<char>, g: Seq<char>|
        f != g && #[trigger] lies_in(a, c, f) && #[trigger] lies_in(b, d, g) && alike(c, d)
}

/// Whether place `a` is, or lies in, field `f` of place `c`.
pub open spec fn lies_in(a: PlaceV, c: PlaceV, f: Seq<char>) -> bool {
    part_of(a, PlaceV::Field { base: Box::new(c), field: f })
}

/// The place that is reached by the first `n` steps to `p`.
spec fn front(p: PlaceV, n: nat) -> PlaceV
    decreases p,
{
    if steps_of(p).len() <= n {
        p
    } else {
        match p {
            PlaceV::Ssa(_) => p,
            PlaceV::Field { base, .. } => front(*base, n),
            PlaceV::Index { base, .. } => front(*base, n),
            PlaceV::Deref(base) => front(*base, n),
            PlaceV::EnumPayload { base, .. } => front(*base, n),
        }
    }
}

proof fn lemma_front(p: PlaceV, n: nat)
    requires
        n <= steps_of(p).len(),
    ensures
        steps_of(front(p, n)) == steps_of(p).take(n as int),
        part_of(p, front(p, n)),
        root_of(front(p, n)) == root_of(p),
    decreases p,
{
    if steps_of(p).len() == n {
        assert(steps_of(p).take(n as int) =~= steps_of(p));
    } else {
        let base = match p {
            PlaceV::Ssa(_) => p,
            PlaceV::Field { base, .. } => *base,
            PlaceV::Index { base, .. } => *base,
            PlaceV::Deref(base) => *base,
            PlaceV::EnumPayload { base, .. } => *base,
        };
        lemma_front(base, n);
        assert(steps_of(p).take(n as int) =~= steps_of(base).take(n as int));
    }
}

proof fn lemma_alike_steps(a: PlaceV, b: PlaceV)
    ensures
        alike(a, b) <==> root_of(a) == root_of(b) && steps_of(a) == steps_of(b) && forall|i: int|
            0 <= i < steps_of(a).len() ==> (#[trigger] steps_of(a)[i]) is Field,
    decreases a,
{
    let x = steps_of(a);
    let y = steps_of(b);
    match (a, b) {
        (PlaceV::Field { base: c, field: f }, PlaceV::Field { base: d, field: g }) => {
            lemma_alike_steps(*c, *d);
            let u = steps_of(*c);
            let v = steps_of(*d);
            if x == y {
                assert(u =~= x.drop_last());
                assert(v =~= y.drop_last());
                assert(x.last() == y.last());
            }
            if alike(a, b) {
                assert forall|i: int| 0 <= i < x.len() implies (#[trigger] x[i]) is Field by {
                    if i < u.len() {
                        assert(x[i] == u[i]);
                    }
                }
            }
            if forall|i: int| 0 <= i < x.len() ==> (#[trigger] x[i]) is Field {
                assert forall|i: int| 0 <= i < u.len() implies (#[trigger] u[i]) is Field by {
                    assert(x[i] == u[i]);
                }
            }
        },
        (PlaceV::Ssa(_), PlaceV::Ssa(_)) => {},
        _ => {
            if x == y && x.len() > 0 {
                assert(x.last() == y.last());
                assert(x[x.len() - 1] == x.last());
            }
        },
    }
}

proof fn lemma_part_front(part: PlaceV, whole: PlaceV)
    requires
        part_of(part, whole),
    ensures
        root_of(part) == root_of(whole),
        steps_of(whole).len() <= steps_of(part).len(),
        steps_of(part).take(steps_of(whole).len() as int) == steps_of(whole),
    decreases part,
{
    if part == whole {
        assert(steps_of(part).take(steps_of(part).len() as int) =~= steps_of(part));
    } else {
        let base = match part {
            PlaceV::Ssa(_) => part,
            PlaceV::Field { base, .. } => *base,
            PlaceV::Index { base, .. } => *base,
            PlaceV::Deref(base) => *base,
            PlaceV::EnumPayload { base, .. } => *base,
        };
        lemma_part_front(base, whole);
        let n = steps_of(whole).len() as int;
        assert(steps_of(part).take(n) =~= steps_of(base).take(n));
    }
}

proof fn lemma_parted_apart(a: PlaceV, b: PlaceV, i: int)
    requires
        root_of(a) == root_of(b),
        part_ways(steps_of(a), steps_of(b), i),
    ensures
        apart(a, b),
{
    let x = steps_of(a);
    let y = steps_of(b);
    let n = (i + 1) as nat;
    lemma_front(a, n);
    lemma_front(b, n);
    let p = front(a, n);
    let q = front(b, n);
    assert(steps_of(p).last() == x[i]);
    assert(steps_of(q).last() == y[i]);
    assert(p is Field && q is Field);
    let c = *p->Field_base;
    let d = *q->Field_base;
    let f = p->Field_field;
    let g = q->Field_field;
    assert(steps_of(c) =~= steps_of(p).drop_last());
    assert(steps_of(d) =~= steps_of(q).drop_last());
    assert(steps_of(c) =~= x.take(i));
    assert(steps_of(d) =~= y.take(i));
    assert forall|j: int| 0 <= j < i implies (#[trigger] steps_of(c)[j]) is Field && steps_of(c)[j]
        == steps_of(d)[j] by {
        assert(x[j] is Field && x[j] == y[j]);
    }
    assert(steps_of(c) =~= steps_of(d));
    lemma_alike_steps(c, d);
    assert(lies_in(a, c, f));
    assert(lies_in(b, d, g));
}

/// Two places may overlap exactly where they lie in the same variable and not in different
/// fields of one place. An index, a variant's payload and what is behind a reference may
/// be any part.
pub proof fn lemma_overlap_apart(a: PlaceV, b: PlaceV)
    ensures
        overlap(a, b) <==> bottom(a).base_id == bottom(b).base_id && !apart(a, b),
{
    lemma_root_bottom(a);
    lemma_root_bottom(b);
    lemma_overlap_exact(a, b);
    let x = steps_of(a);
    let y = steps_of(b);
    if root_of(a) == root_of(b) {
        if exists|i: int| #[trigger] part_ways(x, y, i) {
            let i = choose|i: int| #[trigger] part_ways(x, y, i);
            lemma_parted_apart(a, b, i);
        }
        if apart(a, b) {
            let (c, d, f, g) = choose|c: PlaceV, d: PlaceV, f: Seq<char>, g: Seq<char>|
                f != g && #[trigger] lies_in(a, c, f) && #[trigger] lies_in(b, d, g) && alike(c, d);
            let p = PlaceV::Field { base: Box::new(c), field: f };
            let q = PlaceV::Field { base: Box::new(d), field: g };
            lemma_part_front(a, p);
            lemma_part_front(b, q);
            lemma_alike_steps(c, d);
            let i = steps_of(c).len() as int;
            assert(steps_of(p) == steps_of(c).push(ProjV::Field(f)));
            assert(steps_of(q) == steps_of(d).push(ProjV::Field(g)));
            assert(x[i] == steps_of(p)[i]);
            assert(y[i] == steps_of(q)[i]);
            assert forall|j: int| 0 <= j < i implies (#[trigger] x[j]) is Field && x[j] == y[j] by {
                assert(x[j] == steps_of(p)[j] && y[j] == steps_of(q)[j]);
                assert(steps_of(p)[j] == steps_of(c)[j] && steps_of(q)[j] == steps_of(d)[j]);
                assert(steps_of(c)[j] is Field);
            }
            assert(part_ways(x, y, i));
        }
    }
}

/// The local that a place lies in is the one at its bottom.
pub proof fn lemma_root_local(p: PlaceV)
    ensures
        root_ssa(p) == bottom(p),
    decreases p,
{
    match p {
        PlaceV::Ssa(_) => {},
        PlaceV::Field { base, .. } => lemma_root_local(*base),
        PlaceV::Index { base, .. } => lemma_root_local(*base),
        PlaceV::Deref(base) => lemma_root_local(*base),
        PlaceV::EnumPayload { base, .. } => lemma_root_local(*base),
    }
}

} // verus!
