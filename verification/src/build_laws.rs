//! Laws of building bodies: what place an expression denotes, which literal a number
//! becomes, and which label a result has.

use vstd::prelude::*;

use crate::ast::{TagV, TypeV};
use crate::builder::{found, literal_for, version_of, MirBuilder};
use crate::calc_exact::{held, lemma_held};
use crate::guide::{
    element_built, field_place, field_type, place_built, Built, HirExpr, HirExprKind,
};
use crate::literal::{IntKind, LiteralV};
use crate::mir::PlaceV;
use crate::semantic::privacy::{labels_joined, tag_of, tags_same};
use crate::semantic::rational::text_eq;

verus! {

// Places.

/// Whether a place is the one that an expression denotes: the current version of the
/// variable that a name is bound to, a field of what the expression before the point
/// denotes, or an element of what the expression before the bracket denotes.
pub open spec fn denotes(b: MirBuilder, expr: HirExpr, p: PlaceV) -> bool
    decreases expr,
{
    match expr.kind {
        HirExprKind::Ident(name) => {
            &&& p matches PlaceV::Ssa(s)
            &&& found(b.scope.deep_view(), name@) == Some(s.base_id)
            &&& s.version == version_of(b.ssa_versions.deep_view(), s.base_id)
        },
        HirExprKind::FieldAccess { struct_expr, field_name } => {
            &&& p matches PlaceV::Field { base, field }
            &&& field == field_name@
            &&& denotes(b, *struct_expr, *base)
        },
        HirExprKind::Index { expr: inner, .. } => {
            &&& p matches PlaceV::Index { base, .. }
            &&& denotes(b, *inner, *base)
        },
        HirExprKind::Other(_) => false,
    }
}

/// The place that is built for an expression is the one that it denotes.
pub proof fn lemma_place_denoted<E: Fn(MirBuilder, &HirExpr) -> Built>(
    e: E,
    expr: HirExpr,
    before: MirBuilder,
    after: MirBuilder,
    p: PlaceV,
)
    requires
        place_built(e, expr, before, after, Ok(Some(p))),
    ensures
        denotes(before, expr, p),
    decreases expr,
{
    let r = Ok::<Option<PlaceV>, Seq<char>>(Some(p));
    match expr.kind {
        HirExprKind::Ident(_) => {},
        HirExprKind::FieldAccess { struct_expr, field_name } => {
            let base = choose|base: Result<Option<PlaceV>, Seq<char>>|
                {
                    &&& place_built(e, *struct_expr, before, after, base)
                    &&& r == #[trigger] field_place(base, field_name@)
                };
            let q = base->Ok_0->0;
            assert(base == Ok::<Option<PlaceV>, Seq<char>>(Some(q)));
            lemma_place_denoted(e, *struct_expr, before, after, q);
        },
        HirExprKind::Index { expr: inner, index } => {
            let (mid, base) = choose|mid: MirBuilder, base: Result<Option<PlaceV>, Seq<char>>|
                {
                    &&& place_built(e, *inner, before, mid, base)
                    &&& #[trigger] element_built(e, base, &*index, mid, after, r)
                };
            let q = base->Ok_0->0;
            assert(base == Ok::<Option<PlaceV>, Seq<char>>(Some(q)));
            lemma_place_denoted(e, *inner, before, mid, q);
        },
        HirExprKind::Other(_) => {},
    }
}

/// The type of a field is the one that the struct declares for it, whether the struct is
/// at hand or behind one reference; unit where there is no such field.
pub proof fn lemma_field_exact(
    fields: Map<Seq<char>, Map<Seq<char>, TypeV>>,
    t: TypeV,
    owner: Seq<char>,
    field: Seq<char>,
    mutable: bool,
)
    requires
        t == TypeV::Struct(owner) || (t matches TypeV::Generic(n, _) && n == owner),
    ensures
        field_type(fields, t, field) == field_type(
            fields,
            TypeV::Ref { mutable, inner: Box::new(t) },
            field,
        ),
        fields.contains_key(owner) && fields[owner].contains_key(field) ==> field_type(
            fields,
            t,
            field,
        ) == fields[owner][field],
        !(fields.contains_key(owner) && fields[owner].contains_key(field)) ==> field_type(
            fields,
            t,
            field,
        ) == TypeV::Unit,
{
}

// Literals.

/// The number of values of an integer type.
pub open spec fn span(k: IntKind) -> int {
    match k {
        IntKind::I8 | IntKind::U8 => 0x100,
        IntKind::I16 | IntKind::U16 => 0x1_0000,
        IntKind::I32 | IntKind::U32 => 0x1_0000_0000,
        IntKind::Isize | IntKind::Usize => usize::MAX + 1,
        IntKind::I64 | IntKind::U64 => 0x1_0000_0000_0000_0000int,
        IntKind::I128 | IntKind::U128 => 0x1_0000_0000_0000_0000_0000_0000_0000_0000int,
    }
}

/// Whether an integer literal is of a type.
pub open spec fn kind_of_type(k: IntKind, t: TypeV) -> bool {
    match t {
        TypeV::I8 => k == IntKind::I8,
        TypeV::I16 => k == IntKind::I16,
        TypeV::I32 => k == IntKind::I32,
        TypeV::I64 => k == IntKind::I64,
        TypeV::I128 => k == IntKind::I128,
        TypeV::U8 => k == IntKind::U8,
        TypeV::U16 => k == IntKind::U16,
        TypeV::U32 => k == IntKind::U32,
        TypeV::U64 => k == IntKind::U64,
        TypeV::U128 => k == IntKind::U128,
        _ => false,
    }
}

/// A number becomes the literal of an integer type whose value differs from it by a
/// multiple of the number of values of the type, and which the type can hold; for other
/// types there is none.
pub proof fn lemma_literal_wraps(v: i64, t: TypeV)
    ensures
        literal_for(v, t) is Ok <==> exists|k: IntKind| #[trigger] kind_of_type(k, t),
        literal_for(v, t) is Ok ==> ({
            &&& literal_for(v, t)->Ok_0 matches LiteralV::Int(k, n)
            &&& kind_of_type(k, t)
            &&& held(k, n)
            &&& (v - n) % span(k) == 0
        }),
{
    if literal_for(v, t) is Ok {
        let l = literal_for(v, t)->Ok_0;
        let k = l->Int_0;
        let n = l->Int_1;
        assert(kind_of_type(k, t));
        lemma_held(k, n);
        lemma_span(v as int, n, span(k));
    } else {
        assert forall|k: IntKind| !#[trigger] kind_of_type(k, t) by {}
    }
}

proof fn lemma_span(v: int, n: int, m: int)
    requires
        m > 0,
        n == v || n == v % m || n == v % m - m,
    ensures
        (v - n) % m == 0,
{
    vstd::arithmetic::div_mod::lemma_fundamental_div_mod(v, m);
    let q = v / m;
    assert(v == m * q + v % m);
    if n == v % m {
        assert(v - n == q * m + 0) by (nonlinear_arith)
            requires
                v == m * q + n,
        ;
        vstd::arithmetic::div_mod::lemma_fundamental_div_mod_converse(v - n, m, q, 0);
    } else if n == v % m - m {
        assert(v - n == (q + 1) * m + 0) by (nonlinear_arith)
            requires
                v == m * q + (n + m),
        ;
        vstd::arithmetic::div_mod::lemma_fundamental_div_mod_converse(v - n, m, q + 1, 0);
    } else {
        vstd::arithmetic::div_mod::lemma_fundamental_div_mod_converse(0, m, 0, 0);
    }
}

// Labels.

/// What is computed from two values has no label exactly where neither has one; a value
/// without a label leaves the other's label as it is; and what is computed from a private
/// value is private.
pub proof fn lemma_labels_exact(a: TypeV, b: TypeV)
    ensures
        labels_joined(a, b) == Ok::<Option<TagV>, Seq<char>>(None) <==> tag_of(a) is None && tag_of(
            b,
        ) is None,
        tag_of(a) is None ==> labels_joined(a, b) == Ok::<Option<TagV>, Seq<char>>(tag_of(b)),
        tag_of(b) is None ==> labels_joined(a, b) == Ok::<Option<TagV>, Seq<char>>(tag_of(a)),
        tag_of(a) == Some(TagV::Private) || tag_of(b) == Some(TagV::Private) ==> labels_joined(a, b)
            == Ok::<Option<TagV>, Seq<char>>(Some(TagV::Private)),
        labels_joined(a, b) == Ok::<Option<TagV>, Seq<char>>(Some(TagV::Public)) ==> (tag_of(
            a,
        ) matches Some(x) ==> x is Public) && (tag_of(b) matches Some(y) ==> y is Public),
{
}

/// The label of a type is the outermost one, behind references too.
pub proof fn lemma_tag_exact(t: TypeV, tag: TagV, mutable: bool)
    ensures
        tag_of(TypeV::Privacy(Box::new(t), tag)) == Some(tag),
        tag_of(TypeV::Ref { mutable, inner: Box::new(t) }) == tag_of(t),
        !(t is Privacy) && !(t is Ref) ==> tag_of(t) is None,
{
}

/// Two labels are equal exactly where both are public, both are private, or both are
/// differential with numbers of equal value, delta given in both or in neither.
pub proof fn lemma_tags_exact(a: TagV, b: TagV)
    ensures
        tags_same(a, b) == Ok::<bool, Seq<char>>(true) <==> {
            ||| a is Public && b is Public
            ||| a is Private && b is Private
            ||| {
                &&& a is Differential && b is Differential
                &&& text_eq(a->eps, b->eps) matches Ok(x) && x
                &&& a->delta is Some <==> b->delta is Some
                &&& a->delta is Some ==> (text_eq(a->delta->0, b->delta->0) matches Ok(y) && y)
            }
        },
{
}

} // verus!
