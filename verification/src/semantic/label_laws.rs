//! Laws of privacy labels: when two are the same, where a type's label is found, and what
//! is left of the labels of two values.

use vstd::prelude::*;

use crate::ast::{TagV, TypeV};
use crate::expr::FnDef;
use crate::semantic::check_type::types_same;
use crate::semantic::lookup::{lemma_methods_registered, methods_added};
use crate::semantic::privacy::{labelled_same, labels_joined, tag_of, tags_joined, tags_same};
use crate::semantic::rational::text_eq;
use crate::semantic::MethodInfoV;

verus! {

/// Whether two texts stand for the same number.
pub open spec fn same_number(a: Seq<char>, b: Seq<char>) -> bool {
    text_eq(a, b) matches Ok(e) && e
}

/// Two labels are the same exactly where they are of one kind and, for those with bounds,
/// where both bounds are the same number or the second is missing in both.
pub proof fn lemma_tags_exact(a: TagV, b: TagV)
    ensures
        tags_same(a, b) == Ok::<bool, Seq<char>>(true) <==> {
            ||| a is Public && b is Public
            ||| a is Private && b is Private
            ||| {
                &&& a is Differential && b is Differential
                &&& same_number(a->eps, b->eps)
                &&& {
                    ||| a->delta is None && b->delta is None
                    ||| {
                        &&& a->delta is Some && b->delta is Some
                        &&& same_number(a->delta->0, b->delta->0)
                    }
                }
            }
        },
{
}

/// Comparing two labels fails exactly where both have bounds and one of the bounds that
/// are compared is no number or one too large.
pub proof fn lemma_tags_fault(a: TagV, b: TagV)
    ensures
        tags_same(a, b) is Err <==> {
            &&& a is Differential && b is Differential
            &&& {
                ||| text_eq(a->eps, b->eps) is Err
                ||| {
                    &&& a->delta is Some && b->delta is Some
                    &&& text_eq(a->delta->0, b->delta->0) is Err
                }
            }
        },
{
}

/// Two types are the same, labels included, where they are the same without their labels
/// and no two labels differ; a label on one of them alone makes no difference.
pub proof fn lemma_labelled_exact(a: TypeV, b: TypeV, s: TagV, t: TagV)
    requires
        a !is Privacy,
        b !is Privacy,
    ensures
        ({
            let x = TypeV::Privacy(Box::new(a), s);
            let y = TypeV::Privacy(Box::new(b), t);
            let yes = Ok::<bool, Seq<char>>(true);
            &&& labelled_same(a, b) == yes <==> types_same(a, b)
            &&& labelled_same(x, b) == yes <==> types_same(x, b)
            &&& labelled_same(a, y) == yes <==> types_same(a, y)
            &&& labelled_same(x, y) == yes <==> types_same(a, b) && tags_same(s, t) == yes
        }),
{
}

/// Whether a type is a label around another, behind any number of references.
pub open spec fn under_label(t: TypeV, g: TagV, depth: nat) -> bool
    decreases depth,
{
    if depth == 0 {
        t matches TypeV::Privacy(_, h) && h == g
    } else {
        t matches TypeV::Ref { inner, .. } && under_label(*inner, g, (depth - 1) as nat)
    }
}

/// A type's label is the one that is found behind its references, if there is one.
pub proof fn lemma_tag_exact(t: TypeV, g: TagV)
    ensures
        tag_of(t) == Some(g) <==> exists|depth: nat| under_label(t, g, depth),
    decreases t,
{
    if let TypeV::Ref { mutable, inner } = t {
        lemma_tag_exact(*inner, g);
        if tag_of(t) == Some(g) {
            let d = choose|depth: nat| under_label(*inner, g, depth);
            assert(under_label(t, g, d + 1));
        }
        if exists|depth: nat| under_label(t, g, depth) {
            let d = choose|depth: nat| under_label(t, g, depth);
            assert(under_label(*inner, g, (d - 1) as nat));
        }
    } else {
        if let TypeV::Privacy(_, h) = t {
            assert(h == g ==> under_label(t, g, 0));
        }
        if exists|depth: nat| under_label(t, g, depth) {
            let d = choose|depth: nat| under_label(t, g, depth);
            assert(d == 0);
        }
    }
}

/// What is computed from two values has a label exactly where one of them has: that
/// label, or the two joined.
pub proof fn lemma_labels_kept(a: TypeV, b: TypeV, g: TagV)
    ensures
        labels_joined(a, b) == Ok::<Option<TagV>, Seq<char>>(None) <==> tag_of(a) is None && tag_of(
            b,
        ) is None,
        labels_joined(a, b) == Ok::<Option<TagV>, Seq<char>>(Some(g)) <==> {
            ||| tag_of(a) == Some(g) && tag_of(b) is None
            ||| tag_of(a) is None && tag_of(b) == Some(g)
            ||| tag_of(a) is Some && tag_of(b) is Some && tags_joined(tag_of(a)->0, tag_of(b)->0)
                == Ok::<TagV, Seq<char>>(g)
        },
{
}

/// A method that was registered is kept as it is written, with the type that its block is
/// for.
pub proof fn lemma_method_kept(
    known: Map<Seq<char>, MethodInfoV>,
    fns: Seq<FnDef>,
    target: TypeV,
    i: int,
)
    requires
        methods_added(known, fns, target).1 is None,
        0 <= i < fns.len(),
    ensures
        methods_added(known, fns, target).0[fns[i].name@].target_type == target,
        methods_added(known, fns, target).0[fns[i].name@].fn_def == fns[i].deep_view(),
{
    lemma_methods_registered(known, fns, target, i);
}

} // verus!
