//! Properties of types, and when two are the same.

use vstd::prelude::*;

use crate::ast::{same_dims, same_ints, Type};
use crate::ast::TypeV;
use crate::ast::group_type_view;
use crate::expr::{Expr, ExprKind};
use crate::expr::ExprV;
use crate::intrinsic_check::stripped;
use crate::semantic::TypeChecker;

verus! {

/// The type behind all references.
pub open spec fn referent(t: TypeV) -> TypeV
    decreases t,
{
    match t {
        TypeV::Ref { mutable, inner } => referent(*inner),
        _ => t,
    }
}

/// Whether a type is a signed integer.
pub open spec fn is_signed_integer(t: TypeV) -> bool {
    t is I8 || t is I16 || t is I32 || t is I64 || t is I128
}

/// Whether a type is an unsigned integer.
pub open spec fn is_unsigned_integer(t: TypeV) -> bool {
    t is U8 || t is U16 || t is U32 || t is U64 || t is U128
}

/// Whether a type is a floating-point number.
pub open spec fn is_float(t: TypeV) -> bool {
    t is F16 || t is F32 || t is F64
}

/// Whether an expression names a place that can be assigned to.
pub open spec fn assignable(e: ExprV) -> bool {
    e.kind is Ident || e.kind is FieldAccess || e.kind is Index
}

/// Whether two types are the same in structure, privacy labels aside.
pub open spec fn types_same(a: TypeV, b: TypeV) -> bool
    decreases a, b,
{
    match (a, b) {
        (TypeV::Privacy(x, _), TypeV::Privacy(y, _)) => types_same(*x, *y),
        (TypeV::Privacy(x, _), _) => types_same(*x, b),
        (_, TypeV::Privacy(y, _)) => types_same(a, *y),
        (TypeV::Generic(m, x), TypeV::Generic(n, y)) => m == n && x.len() == y.len()
            && all_types_same(x, y),
        (TypeV::Ref { mutable: m, inner: x }, TypeV::Ref { mutable: n, inner: y }) => m == n
            && types_same(*x, *y),
        (TypeV::Slice(x), TypeV::Slice(y)) => types_same(*x, *y),
        (TypeV::Tensor { dtype: x, shape: s }, TypeV::Tensor { dtype: y, shape: t }) => types_same(
            *x,
            *y,
        ) && s == t,
        (TypeV::Tuple(x), TypeV::Tuple(y)) => x.len() == y.len() && all_types_same(x, y),
        (TypeV::Array(x, m), TypeV::Array(y, n)) => m == n && types_same(*x, *y),
        _ => a == b,
    }
}

/// Whether the types of two lists of one length are the same, pair by pair.
pub open spec fn all_types_same(x: Seq<TypeV>, y: Seq<TypeV>) -> bool
    decreases x, y,
{
    if x.len() == 0 || y.len() == 0 {
        true
    } else {
        types_same(x.last(), y.last()) && all_types_same(x.drop_last(), y.drop_last())
    }
}

/// Being the same does not depend on the order of the two types.
pub proof fn lemma_types_same_symmetric(a: TypeV, b: TypeV)
    ensures
        types_same(a, b) == types_same(b, a),
    decreases a, b,
{
    match (a, b) {
        (TypeV::Privacy(x, _), TypeV::Privacy(y, _)) => lemma_types_same_symmetric(*x, *y),
        (TypeV::Privacy(x, _), _) => lemma_types_same_symmetric(*x, b),
        (_, TypeV::Privacy(y, _)) => lemma_types_same_symmetric(a, *y),
        (TypeV::Generic(m, x), TypeV::Generic(n, y)) => {
            if x.len() == y.len() {
                lemma_all_same_symmetric(x, y);
            }
        },
        (TypeV::Ref { mutable: m, inner: x }, TypeV::Ref { mutable: n, inner: y }) =>
        lemma_types_same_symmetric(*x, *y),
        (TypeV::Slice(x), TypeV::Slice(y)) => lemma_types_same_symmetric(*x, *y),
        (TypeV::Tuple(x), TypeV::Tuple(y)) => {
            if x.len() == y.len() {
                lemma_all_same_symmetric(x, y);
            }
        },
        (TypeV::Array(x, m), TypeV::Array(y, n)) => lemma_types_same_symmetric(*x, *y),
        (TypeV::Tensor { dtype: x, shape: s }, TypeV::Tensor { dtype: y, shape: t }) =>
        lemma_types_same_symmetric(*x, *y),
        _ => {},
    }
}

proof fn lemma_all_same_symmetric(x: Seq<TypeV>, y: Seq<TypeV>)
    requires
        x.len() == y.len(),
    ensures
        all_types_same(x, y) == all_types_same(y, x),
    decreases x, y,
{
    if x.len() > 0 {
        lemma_types_same_symmetric(x.last(), y.last());
        lemma_all_same_symmetric(x.drop_last(), y.drop_last());
    }
}

/// Every type is the same as itself.
pub proof fn lemma_types_same_reflexive(a: TypeV)
    ensures
        types_same(a, a),
    decreases a,
{
    match a {
        TypeV::Privacy(x, _) => lemma_types_same_reflexive(*x),
        TypeV::Generic(_, x) => lemma_all_same_reflexive(x),
        TypeV::Tuple(x) => lemma_all_same_reflexive(x),
        TypeV::Ref { mutable: _, inner: x } => lemma_types_same_reflexive(*x),
        TypeV::Slice(x) => lemma_types_same_reflexive(*x),
        TypeV::Array(x, _) => lemma_types_same_reflexive(*x),
        TypeV::Tensor { dtype: x, shape: _ } => lemma_types_same_reflexive(*x),
        _ => {},
    }
}

proof fn lemma_all_same_reflexive(x: Seq<TypeV>)
    ensures
        all_types_same(x, x),
    decreases x,
{
    if x.len() > 0 {
        lemma_types_same_reflexive(x.last());
        lemma_all_same_reflexive(x.drop_last());
    }
}

/// A type and the type with its outer privacy label taken off are the same as the
/// same types.
pub proof fn lemma_label_ignored(inner: TypeV, tag: crate::ast::TagV, b: TypeV)
    ensures
        types_same(TypeV::Privacy(Box::new(inner), tag), b) == types_same(inner, b),
    decreases inner, b,
{
    if let TypeV::Privacy(y, t) = b {
        lemma_inner_label(inner, *y, t);
    }
}

/// But for privacy labels, `never` is the same as itself alone: that it may stand where
/// any type is wanted is no matter of sameness.
pub proof fn lemma_never_strict(b: TypeV)
    ensures
        types_same(TypeV::Never, b) <==> stripped(b) is Never,
    decreases b,
{
    if let TypeV::Privacy(y, _) = b {
        lemma_never_strict(*y);
    }
}

/// But for privacy labels, a type parameter is the same as itself alone.
pub proof fn lemma_param_strict(name: Seq<char>, b: TypeV)
    ensures
        types_same(TypeV::TypeParam(name), b) <==> stripped(b) == TypeV::TypeParam(name),
    decreases b,
{
    if let TypeV::Privacy(y, _) = b {
        lemma_param_strict(name, *y);
    }
}

proof fn lemma_inner_label(a: TypeV, inner: TypeV, tag: crate::ast::TagV)
    ensures
        types_same(a, TypeV::Privacy(Box::new(inner), tag)) == types_same(a, inner),
    decreases a, inner,
{
    if let TypeV::Privacy(x, t) = a {
        lemma_label_ignored(*x, t, inner);
    }
}

/// Whether a value of type `actual` can stand where `expected` is wanted: it is of
/// the same type, or never comes to be.
pub open spec fn satisfies(actual: TypeV, expected: TypeV) -> bool {
    stripped(actual) is Never || types_same(actual, expected)
}

/// Whether all pairs of types are the same.
fn all_equal(checker: &TypeChecker, x: &Vec<Type>, y: &Vec<Type>) -> (r: bool)
    requires
        x.len() == y.len(),
    ensures
        r == all_types_same(x.deep_view(), y.deep_view()),
    decreases x, y,
{
    let ghost xv = x.deep_view();
    let ghost yv = y.deep_view();
    let mut i: usize = x.len();
    assert(xv.take(i as int) =~= xv);
    assert(yv.take(i as int) =~= yv);
    while i > 0
        invariant
            i <= x.len(),
            x.len() == y.len(),
            xv == x.deep_view(),
            yv == y.deep_view(),
            all_types_same(xv, yv) == all_types_same(xv.take(i as int), yv.take(i as int)),
        decreases i,
    {
        assert(xv.take(i as int).last() == x@[i - 1].deep_view());
        assert(yv.take(i as int).last() == y@[i - 1].deep_view());
        assert(xv.take(i as int).drop_last() =~= xv.take(i - 1));
        assert(yv.take(i as int).drop_last() =~= yv.take(i - 1));
        i = i - 1;
        if !checker.types_equal(&x[i], &y[i]) {
            return false;
        }
    }
    true
}

impl TypeChecker {
    /// The type behind all references.
    pub fn strip_ref(&self, ty: &Type) -> (r: Type)
        ensures
            r.deep_view() == referent(ty.deep_view()),
        decreases ty,
    {
        match ty {
            Type::Ref { inner, .. } => self.strip_ref(inner),
            _ => ty.clone(),
        }
    }

    /// Whether a type is a number.
    pub fn is_numeric_type(&self, ty: &Type) -> (r: bool)
        ensures
            r == (is_signed_integer(ty.deep_view()) || is_unsigned_integer(ty.deep_view())
                || is_float(ty.deep_view())),
    {
        match ty {
            Type::I8
            | Type::I16
            | Type::I32
            | Type::I64
            | Type::I128
            | Type::U8
            | Type::U16
            | Type::U32
            | Type::U64
            | Type::U128
            | Type::F16
            | Type::F32
            | Type::F64 => true,
            _ => false,
        }
    }

    /// Whether a type is a number that can be negative.
    pub fn is_signed_numeric_type(&self, ty: &Type) -> (r: bool)
        ensures
            r == (is_signed_integer(ty.deep_view()) || is_float(ty.deep_view())),
    {
        match ty {
            Type::I8
            | Type::I16
            | Type::I32
            | Type::I64
            | Type::I128
            | Type::F16
            | Type::F32
            | Type::F64 => true,
            _ => false,
        }
    }

    /// Whether a type is an integer.
    pub fn is_integer_type(&self, ty: &Type) -> (r: bool)
        ensures
            r == (is_signed_integer(ty.deep_view()) || is_unsigned_integer(ty.deep_view())),
    {
        match ty {
            Type::I8
            | Type::I16
            | Type::I32
            | Type::I64
            | Type::I128
            | Type::U8
            | Type::U16
            | Type::U32
            | Type::U64
            | Type::U128 => true,
            _ => false,
        }
    }

    /// Whether an expression names a place that can be assigned to.
    pub fn is_assignable(&self, expr: &Expr) -> (r: bool)
        ensures
            r == assignable(expr.deep_view()),
    {
        match &expr.kind {
            ExprKind::Ident(_) | ExprKind::FieldAccess { .. } | ExprKind::Index { .. } => true,
            _ => false,
        }
    }

    /// Whether two types are the same, privacy labels aside.
    pub fn types_equal(&self, a: &Type, b: &Type) -> (r: bool)
        ensures
            r == types_same(a.deep_view(), b.deep_view()),
        decreases a, b,
    {
        broadcast use group_type_view;

        match (a, b) {
            (Type::I8, Type::I8) => true,
            (Type::I16, Type::I16) => true,
            (Type::I32, Type::I32) => true,
            (Type::I64, Type::I64) => true,
            (Type::I128, Type::I128) => true,
            (Type::U8, Type::U8) => true,
            (Type::U16, Type::U16) => true,
            (Type::U32, Type::U32) => true,
            (Type::U64, Type::U64) => true,
            (Type::U128, Type::U128) => true,
            (Type::F16, Type::F16) => true,
            (Type::F32, Type::F32) => true,
            (Type::F64, Type::F64) => true,
            (Type::Bool, Type::Bool) => true,
            (Type::Char, Type::Char) => true,
            (Type::Str, Type::Str) => true,
            (Type::Unit, Type::Unit) => true,
            (Type::Struct(m), Type::Struct(n)) => *m == *n,
            (Type::Enum(m), Type::Enum(n)) => *m == *n,
            (Type::Generic(m, x), Type::Generic(n, y)) => {
                if *m != *n {
                    return false;
                }
                if x.len() != y.len() {
                    return false;
                }
                all_equal(self, x, y)
            },
            (Type::Ref { mutable: m, inner: x }, Type::Ref { mutable: n, inner: y }) => *m == *n
                && self.types_equal(x, y),
            (Type::Slice(x), Type::Slice(y)) => self.types_equal(x, y),
            (Type::Tensor { dtype: x, shape: s }, Type::Tensor { dtype: y, shape: t }) => {
                if !self.types_equal(x, y) {
                    return false;
                }
                same_dims(s, t)
            },
            (Type::ConstIntArray(x), Type::ConstIntArray(y)) => same_ints(x, y),
            (Type::Tuple(x), Type::Tuple(y)) => x.len() == y.len() && all_equal(self, x, y),
            (Type::Array(x, m), Type::Array(y, n)) => *m == *n && self.types_equal(x, y),
            (Type::SelfType, Type::SelfType) => true,
            (Type::SymInt, Type::SymInt) => true,
            (Type::Privacy(x, _), Type::Privacy(y, _)) => self.types_equal(x, y),
            (Type::Privacy(x, _), _) => self.types_equal(x, b),
            (_, Type::Privacy(y, _)) => self.types_equal(a, y),
            (Type::Never, Type::Never) => true,
            (Type::TypeParam(m), Type::TypeParam(n)) => *m == *n,
            _ => false,
        }
    }

    /// Whether a value of type `actual` can stand where `expected` is wanted.
    pub fn types_equal_allowing_never(&self, actual: &Type, expected: &Type) -> (r: bool)
        ensures
            r == satisfies(actual.deep_view(), expected.deep_view()),
    {
        match self.strip_privacy(actual) {
            Type::Never => true,
            _ => self.types_equal(actual, expected),
        }
    }
}

} // verus!
