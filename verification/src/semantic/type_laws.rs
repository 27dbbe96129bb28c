//! Laws of types: which types are the same, and what privacy labels do to them.

use vstd::prelude::*;

use crate::ast::TypeV;
use crate::semantic::check_type::{all_types_same, types_same};

verus! {

/// A type with the privacy labels taken off it and off all its parts.
pub open spec fn bare(t: TypeV) -> TypeV
    decreases t,
{
    match t {
        TypeV::Privacy(e, _) => bare(*e),
        TypeV::Generic(n, ts) => TypeV::Generic(n, all_bare(ts)),
        TypeV::Tuple(ts) => TypeV::Tuple(all_bare(ts)),
        TypeV::Array(e, n) => TypeV::Array(Box::new(bare(*e)), n),
        TypeV::Ref { mutable, inner } => TypeV::Ref { mutable, inner: Box::new(bare(*inner)) },
        TypeV::Slice(e) => TypeV::Slice(Box::new(bare(*e))),
        TypeV::Tensor { dtype, shape } => TypeV::Tensor { dtype: Box::new(bare(*dtype)), shape },
        _ => t,
    }
}

/// Each type of a list with all its privacy labels taken off.
pub open spec fn all_bare(ts: Seq<TypeV>) -> Seq<TypeV>
    decreases ts,
{
    Seq::new(
        ts.len(),
        |i: int|
            if 0 <= i < ts.len() {
                bare(ts[i])
            } else {
                TypeV::Unit
            },
    )
}

/// Whether no privacy label is left on a type or on any part of it.
pub open spec fn unlabelled(t: TypeV) -> bool
    decreases t,
{
    match t {
        TypeV::Privacy(..) => false,
        TypeV::Generic(_, ts) => forall|i: int| 0 <= i < ts.len() ==> unlabelled(#[trigger] ts[i]),
        TypeV::Tuple(ts) => forall|i: int| 0 <= i < ts.len() ==> unlabelled(#[trigger] ts[i]),
        TypeV::Array(e, _) => unlabelled(*e),
        TypeV::Ref { inner, .. } => unlabelled(*inner),
        TypeV::Slice(e) => unlabelled(*e),
        TypeV::Tensor { dtype, .. } => unlabelled(*dtype),
        _ => true,
    }
}

/// Two types are the same exactly where they are identical once the privacy labels at
/// every depth are taken off.
pub proof fn lemma_same_exact(a: TypeV, b: TypeV)
    ensures
        types_same(a, b) <==> bare(a) == bare(b),
    decreases a, b,
{
    match (a, b) {
        (TypeV::Privacy(x, _), TypeV::Privacy(y, _)) => lemma_same_exact(*x, *y),
        (TypeV::Privacy(x, _), _) => lemma_same_exact(*x, b),
        (_, TypeV::Privacy(y, _)) => lemma_same_exact(a, *y),
        (TypeV::Generic(m, x), TypeV::Generic(n, y)) => lemma_all_same_exact(x, y),
        (TypeV::Tuple(x), TypeV::Tuple(y)) => lemma_all_same_exact(x, y),
        (TypeV::Ref { mutable: _, inner: x }, TypeV::Ref { mutable: _, inner: y }) => {
            lemma_same_exact(*x, *y)
        },
        (TypeV::Slice(x), TypeV::Slice(y)) => lemma_same_exact(*x, *y),
        (TypeV::Array(x, _), TypeV::Array(y, _)) => lemma_same_exact(*x, *y),
        (TypeV::Tensor { dtype: x, shape: _ }, TypeV::Tensor { dtype: y, shape: _ }) => {
            lemma_same_exact(*x, *y)
        },
        _ => {},
    }
}

proof fn lemma_all_same_exact(x: Seq<TypeV>, y: Seq<TypeV>)
    ensures
        x.len() == y.len() && all_types_same(x, y) <==> all_bare(x) == all_bare(y),
    decreases x, y,
{
    let p = all_bare(x);
    let q = all_bare(y);
    if x.len() == y.len() {
        if x.len() > 0 {
            let n = x.len() - 1;
            lemma_same_exact(x.last(), y.last());
            lemma_all_same_exact(x.drop_last(), y.drop_last());
            assert(p.drop_last() =~= all_bare(x.drop_last()));
            assert(q.drop_last() =~= all_bare(y.drop_last()));
            assert(p.last() == bare(x.last()) && q.last() == bare(y.last()));
            if all_types_same(x, y) {
                assert(p =~= p.drop_last().push(p.last()));
                assert(q =~= q.drop_last().push(q.last()));
            }
        } else {
            assert(p =~= q);
        }
    } else {
        assert(p.len() != q.len());
    }
}

/// A type without privacy labels is the same as an identical one, and as no other type
/// without labels.
pub proof fn lemma_same_unlabelled(a: TypeV, b: TypeV)
    requires
        unlabelled(a),
        unlabelled(b),
    ensures
        types_same(a, b) <==> a == b,
{
    lemma_bare_unlabelled(a);
    lemma_bare_unlabelled(b);
    lemma_same_exact(a, b);
}

/// Taking the privacy labels off leaves none, and changes nothing where there were none.
pub proof fn lemma_bare_unlabelled(t: TypeV)
    ensures
        unlabelled(bare(t)),
        unlabelled(t) ==> bare(t) == t,
    decreases t,
{
    match t {
        TypeV::Privacy(e, _) => lemma_bare_unlabelled(*e),
        TypeV::Generic(_, ts) | TypeV::Tuple(ts) => {
            let r = all_bare(ts);
            assert forall|i: int| 0 <= i < ts.len() implies unlabelled(#[trigger] r[i]) && (
            unlabelled(ts[i]) ==> r[i] == ts[i]) by {
                lemma_bare_unlabelled(ts[i]);
            }
            if unlabelled(t) {
                assert forall|i: int| 0 <= i < ts.len() implies #[trigger] r[i] == ts[i] by {
                    assert(unlabelled(ts[i]));
                }
                assert(r =~= ts);
            }
        },
        TypeV::Array(e, _) => lemma_bare_unlabelled(*e),
        TypeV::Ref { inner, .. } => lemma_bare_unlabelled(*inner),
        TypeV::Slice(e) => lemma_bare_unlabelled(*e),
        TypeV::Tensor { dtype, .. } => lemma_bare_unlabelled(*dtype),
        _ => {},
    }
}

} // verus!
