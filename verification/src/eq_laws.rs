//! Laws of equality: which pieces of a body count as equal.

use vstd::prelude::*;

use crate::literal::{float_magnitude, float_nan, literal_eq, FloatKind, LiteralV};
use crate::mir::{OperandV, PlaceV, RvalueV, StmtV, TermV};
use crate::mir_eq::{
    operand_eq, operands_eq, place_eq, rvalue_eq, stmt_eq, stmts_eq, term_eq,
};
use crate::reading::operand_of;

verus! {

/// Two literals that are no floats are equal exactly where they are identical; a float
/// equals no literal of another kind.
pub proof fn lemma_literal_eq_exact(a: LiteralV, b: LiteralV)
    ensures
        !(a is Float) || !(b is Float) ==> (literal_eq(a, b) <==> a == b),
        literal_eq(a, b) == literal_eq(b, a),
{
}

/// Two floats of one kind are equal exactly where both are numbers and they are identical
/// or both zero.
pub proof fn lemma_float_eq_exact(k: FloatKind, l: FloatKind, x: int, y: int)
    requires
        0 <= float_magnitude(k, x) <= x,
        0 <= float_magnitude(k, y) <= y,
        x < 2 * crate::literal::float_sign(k),
        y < 2 * crate::literal::float_sign(k),
    ensures
        literal_eq(LiteralV::Float(k, x), LiteralV::Float(l, y)) <==> k == l && !float_nan(k, x)
            && !float_nan(k, y) && (x == y || float_magnitude(k, x) == 0 && float_magnitude(k, y)
            == 0),
{
}

/// Whether no float constant stands in a place.
pub open spec fn place_floatless(p: PlaceV) -> bool
    decreases p,
{
    match p {
        PlaceV::Ssa(_) => true,
        PlaceV::Field { base, .. } => place_floatless(*base),
        PlaceV::Index { base, index } => place_floatless(*base) && floatless(*index),
        PlaceV::Deref(base) => place_floatless(*base),
        PlaceV::EnumPayload { base, .. } => place_floatless(*base),
    }
}

/// Whether no float constant stands in an operand.
pub open spec fn floatless(o: OperandV) -> bool
    decreases o,
{
    match o {
        OperandV::Copy(p) => place_floatless(p),
        OperandV::Move(p) => place_floatless(p),
        OperandV::Constant(l) => !(l is Float),
        _ => true,
    }
}

/// Whether no float constant stands in a right-hand side.
pub open spec fn value_floatless(rv: RvalueV) -> bool {
    &&& forall|o: OperandV| #[trigger] operand_of(rv, o) ==> floatless(o)
    &&& rv matches RvalueV::Ref { place, .. } ==> place_floatless(place)
}

/// Whether no float constant stands in a statement.
pub open spec fn stmt_floatless(s: StmtV) -> bool {
    match s {
        StmtV::Assign { dest, value } => place_floatless(dest) && value_floatless(value),
        StmtV::ExprStmt(value) => value_floatless(value),
        StmtV::Drop { place } => place_floatless(place),
        StmtV::SetMetadata { place, .. } => place_floatless(place),
        StmtV::EffectCheck { .. } => true,
    }
}

/// Whether no float constant stands in a terminator.
pub open spec fn term_floatless(t: TermV) -> bool {
    match t {
        TermV::If { cond, .. } => floatless(cond),
        TermV::Switch { discr, targets, .. } => floatless(discr) && forall|i: int|
            0 <= i < targets.len() ==> !((#[trigger] targets[i]).0 is Float),
        TermV::Return(v) => v is Some ==> floatless(v->0),
        _ => true,
    }
}

/// But for float constants, places are equal exactly where they are identical.
pub proof fn lemma_place_eq_exact(a: PlaceV, b: PlaceV)
    requires
        place_floatless(a),
    ensures
        place_eq(a, b) <==> a == b,
    decreases a,
{
    match (a, b) {
        (PlaceV::Field { base: x, .. }, PlaceV::Field { base: y, .. }) => lemma_place_eq_exact(
            *x,
            *y,
        ),
        (PlaceV::Index { base: x, index: i }, PlaceV::Index { base: y, index: j }) => {
            lemma_place_eq_exact(*x, *y);
            lemma_operand_eq_exact(*i, *j);
        },
        (PlaceV::Deref(x), PlaceV::Deref(y)) => lemma_place_eq_exact(*x, *y),
        (
            PlaceV::EnumPayload { base: x, .. },
            PlaceV::EnumPayload { base: y, .. },
        ) => lemma_place_eq_exact(*x, *y),
        _ => {},
    }
}

/// But for float constants, operands are equal exactly where they are identical.
pub proof fn lemma_operand_eq_exact(a: OperandV, b: OperandV)
    requires
        floatless(a),
    ensures
        operand_eq(a, b) <==> a == b,
    decreases a,
{
    match (a, b) {
        (OperandV::Copy(x), OperandV::Copy(y)) => lemma_place_eq_exact(x, y),
        (OperandV::Move(x), OperandV::Move(y)) => lemma_place_eq_exact(x, y),
        _ => {},
    }
}

proof fn lemma_operands_eq_exact(a: Seq<OperandV>, b: Seq<OperandV>)
    requires
        forall|i: int| 0 <= i < a.len() ==> floatless(#[trigger] a[i]),
    ensures
        operands_eq(a, b) <==> a == b,
{
    assert forall|i: int| 0 <= i < a.len() implies (operand_eq(#[trigger] a[i], b[i]) <==> a[i]
        == b[i]) by {
        lemma_operand_eq_exact(a[i], b[i]);
    }
    if operands_eq(a, b) {
        assert forall|i: int| 0 <= i < a.len() implies #[trigger] a[i] == b[i] by {
            assert(operand_eq(a[i], b[i]));
        }
        assert(a =~= b);
    }
}

/// But for float constants, right-hand sides are equal exactly where they are identical.
pub proof fn lemma_value_eq_exact(a: RvalueV, b: RvalueV)
    requires
        value_floatless(a),
    ensures
        rvalue_eq(a, b) <==> a == b,
{
    match (a, b) {
        (RvalueV::Use(x), RvalueV::Use(y)) => {
            assert(operand_of(a, x));
            lemma_operand_eq_exact(x, y);
        },
        (RvalueV::UnaryOp(_, x), RvalueV::UnaryOp(_, y)) => {
            assert(operand_of(a, x));
            lemma_operand_eq_exact(x, y);
        },
        (RvalueV::Cast(x, _), RvalueV::Cast(y, _)) => {
            assert(operand_of(a, x));
            lemma_operand_eq_exact(x, y);
        },
        (RvalueV::Discriminant { value: x, .. }, RvalueV::Discriminant { value: y, .. }) => {
            assert(operand_of(a, x));
            lemma_operand_eq_exact(x, y);
        },
        (RvalueV::BinaryOp(_, x, y), RvalueV::BinaryOp(_, z, w)) => {
            assert(operand_of(a, x) && operand_of(a, y));
            lemma_operand_eq_exact(x, z);
            lemma_operand_eq_exact(y, w);
        },
        (RvalueV::Call { args: xs, .. }, RvalueV::Call { args: ys, .. }) => {
            assert forall|i: int| 0 <= i < xs.len() implies floatless(#[trigger] xs[i]) by {
                assert(operand_of(a, xs[i]));
            }
            lemma_operands_eq_exact(xs, ys);
        },
        (
            RvalueV::MethodCall { receiver: x, args: xs, .. },
            RvalueV::MethodCall { receiver: y, args: ys, .. },
        ) => {
            assert(operand_of(a, x));
            assert forall|i: int| 0 <= i < xs.len() implies floatless(#[trigger] xs[i]) by {
                assert(operand_of(a, xs[i]));
            }
            lemma_operand_eq_exact(x, y);
            lemma_operands_eq_exact(xs, ys);
        },
        (
            RvalueV::EnumVariantConstruction { args: xs, .. },
            RvalueV::EnumVariantConstruction { args: ys, .. },
        ) => {
            assert forall|i: int| 0 <= i < xs.len() implies floatless(#[trigger] xs[i]) by {
                assert(operand_of(a, xs[i]));
            }
            lemma_operands_eq_exact(xs, ys);
        },
        (RvalueV::ArrayLiteral(xs), RvalueV::ArrayLiteral(ys)) => {
            assert forall|i: int| 0 <= i < xs.len() implies floatless(#[trigger] xs[i]) by {
                assert(operand_of(a, xs[i]));
            }
            lemma_operands_eq_exact(xs, ys);
        },
        (RvalueV::StructInit { fields: xs, .. }, RvalueV::StructInit { fields: ys, .. }) => {
            assert forall|i: int| 0 <= i < xs.len() implies (operand_eq(
                (#[trigger] xs[i]).1,
                ys[i].1,
            ) <==> xs[i].1 == ys[i].1) by {
                assert(operand_of(a, xs[i].1));
                lemma_operand_eq_exact(xs[i].1, ys[i].1);
            }
            if rvalue_eq(a, b) {
                assert(xs =~= ys);
            }
        },
        (RvalueV::Phi { values: xs }, RvalueV::Phi { values: ys }) => {
            assert forall|i: int| 0 <= i < xs.len() implies (operand_eq(
                (#[trigger] xs[i]).1,
                ys[i].1,
            ) <==> xs[i].1 == ys[i].1) by {
                assert(operand_of(a, xs[i].1));
                lemma_operand_eq_exact(xs[i].1, ys[i].1);
            }
            if rvalue_eq(a, b) {
                assert(xs =~= ys);
            }
        },
        (RvalueV::Ref { place: x, .. }, RvalueV::Ref { place: y, .. }) => lemma_place_eq_exact(
            x,
            y,
        ),
        _ => {},
    }
}

/// But for float constants, statements are equal exactly where they are identical.
pub proof fn lemma_stmt_eq_exact(a: StmtV, b: StmtV)
    requires
        stmt_floatless(a),
    ensures
        stmt_eq(a, b) <==> a == b,
{
    match (a, b) {
        (StmtV::Assign { dest: d, value: x }, StmtV::Assign { dest: e, value: y }) => {
            lemma_place_eq_exact(d, e);
            lemma_value_eq_exact(x, y);
        },
        (StmtV::ExprStmt(x), StmtV::ExprStmt(y)) => lemma_value_eq_exact(x, y),
        (StmtV::Drop { place: x }, StmtV::Drop { place: y }) => lemma_place_eq_exact(x, y),
        (StmtV::SetMetadata { place: x, .. }, StmtV::SetMetadata { place: y, .. }) => {
            lemma_place_eq_exact(x, y)
        },
        _ => {},
    }
}

/// But for float constants, rows of statements are equal exactly where they are identical.
pub proof fn lemma_stmts_eq_exact(a: Seq<StmtV>, b: Seq<StmtV>)
    requires
        forall|i: int| 0 <= i < a.len() ==> stmt_floatless(#[trigger] a[i]),
    ensures
        stmts_eq(a, b) <==> a == b,
{
    assert forall|i: int| 0 <= i < a.len() implies (stmt_eq(#[trigger] a[i], b[i]) <==> a[i]
        == b[i]) by {
        lemma_stmt_eq_exact(a[i], b[i]);
    }
    if stmts_eq(a, b) {
        assert forall|i: int| 0 <= i < a.len() implies #[trigger] a[i] == b[i] by {
            assert(stmt_eq(a[i], b[i]));
        }
        assert(a =~= b);
    }
}

/// But for float constants, terminators are equal exactly where they are identical.
pub proof fn lemma_term_eq_exact(a: TermV, b: TermV)
    requires
        term_floatless(a),
    ensures
        term_eq(a, b) <==> a == b,
{
    match (a, b) {
        (TermV::If { cond: x, .. }, TermV::If { cond: y, .. }) => lemma_operand_eq_exact(x, y),
        (
            TermV::Switch { discr: x, targets: xs, .. },
            TermV::Switch { discr: y, targets: ys, .. },
        ) => {
            lemma_operand_eq_exact(x, y);
            assert forall|i: int| 0 <= i < xs.len() implies (literal_eq(
                (#[trigger] xs[i]).0,
                ys[i].0,
            ) <==> xs[i].0 == ys[i].0) by {
                assert(!(xs[i].0 is Float));
            }
            if term_eq(a, b) {
                assert(xs =~= ys);
            }
        },
        (TermV::Return(Some(x)), TermV::Return(Some(y))) => lemma_operand_eq_exact(x, y),
        _ => {},
    }
}

} // verus!
