//! Expressions as places: which location an assignment target names.

use vstd::prelude::*;

use crate::ast::Type;
use crate::ast::TypeV;
use crate::builder::MirBuilder;
use crate::builder::{current, found, root_ssa};
use crate::const_eval::told;
use crate::mir::{MirOperand, MirPlace};
use crate::mir::PlaceV;
use crate::table::Table;
use crate::text::cat3;

verus! {

/// A typed expression.
#[derive(Debug)]
pub struct HirExpr {
    pub kind: HirExprKind,
    pub ty: Type,
}

/// What a typed expression is, as far as it can name a place.
#[derive(Debug)]
pub enum HirExprKind {
    Ident(String),
    FieldAccess { struct_expr: Box<HirExpr>, field_name: String },
    Index { expr: Box<HirExpr>, index: Box<HirExpr> },
    /// Any other expression, with its debug text.
    Other(String),
}

/// A value, or nothing because evaluation never gets that far.
#[derive(Debug)]
pub enum Diverging<T> {
    Value(T),
    Diverged,
}

/// The fields of each struct, by name.
pub struct SharedContext {
    pub struct_fields: Table<String, Table<String, Type>>,
}

impl<T: DeepView> DeepView for Diverging<T> {
    type V = Option<T::V>;

    open spec fn deep_view(&self) -> Option<T::V> {
        match *self {
            Diverging::Value(v) => Some(v.deep_view()),
            Diverging::Diverged => None,
        }
    }
}

/// What a supplied evaluation hands back: the builder, and the value, if evaluation gets
/// that far.
pub type Built = (MirBuilder, Result<Diverging<MirOperand>, String>);

/// The place of a variable.
pub open spec fn variable_place(
    scopes: Seq<Map<Seq<char>, usize>>,
    versions: Map<usize, u32>,
    name: Seq<char>,
) -> Result<Option<PlaceV>, Seq<char>> {
    match found(scopes, name) {
        Some(id) => Ok(Some(PlaceV::Ssa(current(versions, id)))),
        None => Err("undefined variable `"@ + name + "`"@),
    }
}

/// The place of a field, from that of the struct.
pub open spec fn field_place(
    base: Result<Option<PlaceV>, Seq<char>>,
    field: Seq<char>,
) -> Result<Option<PlaceV>, Seq<char>> {
    match base {
        Ok(Some(p)) => Ok(Some(PlaceV::Field { base: Box::new(p), field })),
        other => other,
    }
}

/// Whether evaluating an index after the place that is indexed, `base`, may take the
/// builder from `before` to `after` and give the place `r`. Where `base` is in error or
/// its evaluation never completes, the index is not evaluated.
pub open spec fn element_built<E: Fn(MirBuilder, &HirExpr) -> Built>(
    e: E,
    base: Result<Option<PlaceV>, Seq<char>>,
    index: &HirExpr,
    before: MirBuilder,
    after: MirBuilder,
    r: Result<Option<PlaceV>, Seq<char>>,
) -> bool {
    match base {
        Ok(Some(p)) => exists|v: Result<Diverging<MirOperand>, String>|
            {
                &&& #[trigger] call_ensures(e, (before, index), (after, v))
                &&& r == match v {
                    Err(text) => Err(text@),
                    Ok(Diverging::Diverged) => Ok(None),
                    Ok(Diverging::Value(o)) => Ok(
                        Some(PlaceV::Index { base: Box::new(p), index: Box::new(o.deep_view()) }),
                    ),
                }
            },
        _ => after == before && r == base,
    }
}

/// Whether finding the place that an expression names may take the builder from `before`
/// to `after` and give `r`: a variable, a field of a place or an element of one. An
/// evaluation that never completes leaves no place.
pub open spec fn place_built<E: Fn(MirBuilder, &HirExpr) -> Built>(
    e: E,
    expr: HirExpr,
    before: MirBuilder,
    after: MirBuilder,
    r: Result<Option<PlaceV>, Seq<char>>,
) -> bool
    decreases expr,
{
    match expr.kind {
        HirExprKind::Ident(name) => {
            &&& after == before
            &&& r == variable_place(
                before.scope.deep_view(),
                before.ssa_versions.deep_view(),
                name@,
            )
        },
        HirExprKind::FieldAccess { struct_expr, field_name } => exists|
            base: Result<Option<PlaceV>, Seq<char>>,
        |
            {
                &&& place_built(e, *struct_expr, before, after, base)
                &&& r == #[trigger] field_place(base, field_name@)
            },
        HirExprKind::Index { expr: inner, index } => exists|
            mid: MirBuilder,
            base: Result<Option<PlaceV>, Seq<char>>,
        |
            {
                &&& place_built(e, *inner, before, mid, base)
                &&& #[trigger] element_built(e, base, &*index, mid, after, r)
            },
        HirExprKind::Other(text) => {
            &&& after == before
            &&& r == Err::<Option<PlaceV>, Seq<char>>(
                "internal error: "@ + text@
                    + " is not a valid assignment target (sema.rs 的 is_assignable 应该已经拦住了这种情况，走到这里说明两边检查不一致)"@,
            )
        },
    }
}

/// The name of the struct that a type is, behind one reference too.
pub open spec fn struct_of(t: TypeV) -> Option<Seq<char>> {
    match t {
        TypeV::Struct(n) => Some(n),
        TypeV::Generic(n, _) => Some(n),
        TypeV::Ref { mutable, inner } => match *inner {
            TypeV::Struct(n) => Some(n),
            TypeV::Generic(n, _) => Some(n),
            _ => None,
        },
        _ => None,
    }
}

/// The type of a field, or the unit type where it is not known.
pub open spec fn field_type(
    fields: Map<Seq<char>, Map<Seq<char>, TypeV>>,
    t: TypeV,
    field: Seq<char>,
) -> TypeV {
    match struct_of(t) {
        Some(n) => if fields.contains_key(n) && fields[n].contains_key(field) {
            fields[n][field]
        } else {
            TypeV::Unit
        },
        None => TypeV::Unit,
    }
}

/// The place that an expression names lies in the version that was current, before any
/// index was evaluated, of the variable that the expression starts from.
pub proof fn lemma_place_root<E: Fn(MirBuilder, &HirExpr) -> Built>(
    e: E,
    expr: HirExpr,
    before: MirBuilder,
    after: MirBuilder,
    p: PlaceV,
)
    requires
        place_built(e, expr, before, after, Ok(Some(p))),
    ensures
        exists|id: usize|
            root_ssa(p) == #[trigger] current(before.ssa_versions.deep_view(), id),
    decreases expr,
{
    let r = Ok::<Option<PlaceV>, Seq<char>>(Some(p));
    match expr.kind {
        HirExprKind::Ident(name) => {
            let id = found(before.scope.deep_view(), name@)->Some_0;
            assert(root_ssa(p) == current(before.ssa_versions.deep_view(), id));
        },
        HirExprKind::FieldAccess { struct_expr, field_name } => {
            let base = choose|base: Result<Option<PlaceV>, Seq<char>>|
                {
                    &&& place_built(e, *struct_expr, before, after, base)
                    &&& r == #[trigger] field_place(base, field_name@)
                };
            lemma_place_root(e, *struct_expr, before, after, base->Ok_0->Some_0);
        },
        HirExprKind::Index { expr: inner, index } => {
            let (mid, base) = choose|mid: MirBuilder, base: Result<Option<PlaceV>, Seq<char>>|
                {
                    &&& place_built(e, *inner, before, mid, base)
                    &&& #[trigger] element_built(e, base, &*index, mid, after, r)
                };
            lemma_place_root(e, *inner, before, mid, base->Ok_0->Some_0);
        },
        HirExprKind::Other(text) => {},
    }
}

impl MirBuilder {
    /// Makes a supplied evaluation of an expression.
    fn ask_value<E: Copy + Fn(MirBuilder, &HirExpr) -> Built>(
        &mut self,
        e: E,
        expr: &HirExpr,
    ) -> (r: Result<Diverging<MirOperand>, String>)
        requires
            call_requires(e, (*old(self), expr)),
        ensures
            call_ensures(e, (*old(self), expr), (*final(self), r)),
    {
        let mut b = MirBuilder::new();
        std::mem::swap(self, &mut b);
        let (after, r) = e(b, expr);
        *self = after;
        r
    }

    /// The place that an expression names. Indices are evaluated in order, innermost
    /// first, up to the first that never completes or is in error.
    pub fn build_place<E: Copy + Fn(MirBuilder, &HirExpr) -> Built>(
        &mut self,
        expr: &HirExpr,
        build_expr: E,
    ) -> (r: Result<Diverging<MirPlace>, String>)
        requires
            forall|b: MirBuilder, e: &HirExpr| #[trigger] call_requires(build_expr, (b, e)),
        ensures
            place_built(build_expr, *expr, *old(self), *final(self), told(r)),
        decreases expr,
    {
        match &expr.kind {
            HirExprKind::Ident(name) => match self.lookup(name.as_str()) {
                Some(id) => Ok(Diverging::Value(MirPlace::Ssa(self.current_ssa(id)))),
                None => Err(cat3("undefined variable `", name.as_str(), "`")),
            },
            HirExprKind::FieldAccess { struct_expr, field_name } => {
                let base = self.build_place(struct_expr, build_expr);
                let ghost b = told(base);
                let r = match base {
                    Ok(Diverging::Value(p)) => Ok(
                        Diverging::Value(
                            MirPlace::Field { base: Box::new(p), field: field_name.clone() },
                        ),
                    ),
                    other => other,
                };
                assert(told(r) == field_place(b, field_name@));
                r
            },
            HirExprKind::Index { expr: inner, index } => {
                let base = self.build_place(inner, build_expr);
                let ghost b = told(base);
                let ghost mid = *self;
                let r = match base {
                    Ok(Diverging::Value(p)) => match self.ask_value(build_expr, index) {
                        Ok(Diverging::Value(o)) => Ok(
                            Diverging::Value(
                                MirPlace::Index { base: Box::new(p), index: Box::new(o) },
                            ),
                        ),
                        Ok(Diverging::Diverged) => Ok(Diverging::Diverged),
                        Err(e) => Err(e),
                    },
                    other => other,
                };
                assert(element_built(build_expr, b, &**index, mid, *self, told(r)));
                r
            },
            HirExprKind::Other(text) => Err(
                cat3(
                    "internal error: ",
                    text.as_str(),
                    " is not a valid assignment target (sema.rs 的 is_assignable 应该已经拦住了这种情况，走到这里说明两边检查不一致)",
                ),
            ),
        }
    }

    /// The type of a field of the struct that an expression has the type of.
    pub fn lookup_field_type(
        &self,
        struct_expr: &HirExpr,
        field_name: &str,
        shared: &SharedContext,
    ) -> (r: Type)
        ensures
            r.deep_view() == field_type(
                shared.struct_fields.deep_view(),
                struct_expr.ty.deep_view(),
                field_name@,
            ),
    {
        proof {
            reveal_with_fuel(crate::ast::type_view, 2);
        }
        let name = match &struct_expr.ty {
            Type::Struct(n) => n,
            Type::Generic(n, _) => n,
            Type::Ref { inner, .. } => match &**inner {
                Type::Struct(n) => n,
                Type::Generic(n, _) => n,
                _ => {
                    return Type::Unit;
                },
            },
            _ => {
                return Type::Unit;
            },
        };
        match shared.struct_fields.get(name) {
            Some(fields) => match fields.get(&field_name.to_owned()) {
                Some(t) => t.clone(),
                None => Type::Unit,
            },
            None => Type::Unit,
        }
    }
}

} // verus!
