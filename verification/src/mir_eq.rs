//! Equality of IR values: structural, with float literals compared as IEEE
//! numbers.

use vstd::prelude::*;

use crate::literal::Literal;
use crate::literal::{literal_eq, LiteralV};
use crate::mir::{MirOperand, MirPlace, MirRvalue, MirStmt, MirTerminator};
use crate::mir::{OperandV, PlaceV, RvalueV, StmtV, TermV};
use vstd::std_specs::cmp::PartialEqSpecImpl;

verus! {

/// Equality of places.
pub open spec fn place_eq(a: PlaceV, b: PlaceV) -> bool
    decreases a,
{
    match (a, b) {
        (PlaceV::Ssa(x), PlaceV::Ssa(y)) => x == y,
        (PlaceV::Field { base: x, field: f }, PlaceV::Field { base: y, field: g }) => f == g
            && place_eq(*x, *y),
        (PlaceV::Index { base: x, index: i }, PlaceV::Index { base: y, index: j }) => place_eq(
            *x,
            *y,
        ) && operand_eq(*i, *j),
        (PlaceV::Deref(x), PlaceV::Deref(y)) => place_eq(*x, *y),
        (
            PlaceV::EnumPayload { base: x, enum_name: e, variant_name: v },
            PlaceV::EnumPayload { base: y, enum_name: f, variant_name: w },
        ) => e == f && v == w && place_eq(*x, *y),
        _ => false,
    }
}

/// Equality of operands.
pub open spec fn operand_eq(a: OperandV, b: OperandV) -> bool
    decreases a,
{
    match (a, b) {
        (OperandV::Copy(x), OperandV::Copy(y)) => place_eq(x, y),
        (OperandV::Move(x), OperandV::Move(y)) => place_eq(x, y),
        (OperandV::Constant(x), OperandV::Constant(y)) => literal_eq(x, y),
        (OperandV::Sym(x), OperandV::Sym(y)) => x == y,
        (OperandV::Static(x), OperandV::Static(y)) => x == y,
        _ => false,
    }
}

/// Equality of operand lists.
pub open spec fn operands_eq(a: Seq<OperandV>, b: Seq<OperandV>) -> bool {
    &&& a.len() == b.len()
    &&& forall|i: int| 0 <= i < a.len() ==> operand_eq(#[trigger] a[i], b[i])
}

/// Equality of named operand lists.
pub open spec fn fields_eq(a: Seq<(Seq<char>, OperandV)>, b: Seq<(Seq<char>, OperandV)>) -> bool {
    &&& a.len() == b.len()
    &&& forall|i: int|
        0 <= i < a.len() ==> (#[trigger] a[i]).0 == b[i].0 && operand_eq(a[i].1, b[i].1)
}

/// Equality of incoming-value lists.
pub open spec fn phi_eq(a: Seq<(usize, OperandV)>, b: Seq<(usize, OperandV)>) -> bool {
    &&& a.len() == b.len()
    &&& forall|i: int|
        0 <= i < a.len() ==> (#[trigger] a[i]).0 == b[i].0 && operand_eq(a[i].1, b[i].1)
}

/// Equality of switch arms.
pub open spec fn targets_eq(a: Seq<(LiteralV, usize)>, b: Seq<(LiteralV, usize)>) -> bool {
    &&& a.len() == b.len()
    &&& forall|i: int|
        0 <= i < a.len() ==> literal_eq((#[trigger] a[i]).0, b[i].0) && a[i].1 == b[i].1
}

/// Equality of right-hand sides.
pub open spec fn rvalue_eq(a: RvalueV, b: RvalueV) -> bool {
    match (a, b) {
        (RvalueV::Use(x), RvalueV::Use(y)) => operand_eq(x, y),
        (RvalueV::BinaryOp(o, x, y), RvalueV::BinaryOp(p, z, w)) => o == p && operand_eq(x, z)
            && operand_eq(y, w),
        (RvalueV::UnaryOp(o, x), RvalueV::UnaryOp(p, y)) => o == p && operand_eq(x, y),
        (RvalueV::Cast(x, t), RvalueV::Cast(y, u)) => operand_eq(x, y) && t == u,
        (
            RvalueV::Call {
                func: f,
                args: xs,
                is_intrinsic: i,
                intrinsic_name: n,
                generic_args: ts,
            },
            RvalueV::Call {
                func: g,
                args: ys,
                is_intrinsic: j,
                intrinsic_name: m,
                generic_args: us,
            },
        ) => f == g && operands_eq(xs, ys) && i == j && n == m && ts == us,
        (
            RvalueV::MethodCall { receiver: x, method: f, args: xs, generic_args: ts },
            RvalueV::MethodCall { receiver: y, method: g, args: ys, generic_args: us },
        ) => operand_eq(x, y) && f == g && operands_eq(xs, ys) && ts == us,
        (
            RvalueV::StructInit { struct_name: n, generic_args: ts, fields: xs },
            RvalueV::StructInit { struct_name: m, generic_args: us, fields: ys },
        ) => n == m && ts == us && fields_eq(xs, ys),
        (
            RvalueV::EnumVariantConstruction {
                enum_name: n,
                generic_args: ts,
                variant_name: v,
                args: xs,
            },
            RvalueV::EnumVariantConstruction {
                enum_name: m,
                generic_args: us,
                variant_name: w,
                args: ys,
            },
        ) => n == m && ts == us && v == w && operands_eq(xs, ys),
        (RvalueV::Ref { mutable: m, place: x }, RvalueV::Ref { mutable: n, place: y }) => m == n
            && place_eq(x, y),
        (RvalueV::ArrayLiteral(xs), RvalueV::ArrayLiteral(ys)) => operands_eq(xs, ys),
        (
            RvalueV::Discriminant { value: x, enum_name: n },
            RvalueV::Discriminant { value: y, enum_name: m },
        ) => operand_eq(x, y) && n == m,
        (RvalueV::Phi { values: xs }, RvalueV::Phi { values: ys }) => phi_eq(xs, ys),
        _ => false,
    }
}

/// Equality of statements.
pub open spec fn stmt_eq(a: StmtV, b: StmtV) -> bool {
    match (a, b) {
        (StmtV::Assign { dest: d, value: x }, StmtV::Assign { dest: e, value: y }) => place_eq(d, e)
            && rvalue_eq(x, y),
        (StmtV::ExprStmt(x), StmtV::ExprStmt(y)) => rvalue_eq(x, y),
        (StmtV::Drop { place: x }, StmtV::Drop { place: y }) => place_eq(x, y),
        (
            StmtV::SetMetadata { place: x, key: k, data: v },
            StmtV::SetMetadata { place: y, key: l, data: w },
        ) => place_eq(x, y) && k == l && v == w,
        (StmtV::EffectCheck { effect: x }, StmtV::EffectCheck { effect: y }) => x == y,
        _ => false,
    }
}

/// Equality of statement lists.
pub open spec fn stmts_eq(a: Seq<StmtV>, b: Seq<StmtV>) -> bool {
    &&& a.len() == b.len()
    &&& forall|i: int| 0 <= i < a.len() ==> stmt_eq(#[trigger] a[i], b[i])
}

/// Equality of terminators.
pub open spec fn term_eq(a: TermV, b: TermV) -> bool {
    match (a, b) {
        (TermV::Goto(x), TermV::Goto(y)) => x == y,
        (
            TermV::If { cond: x, then_block: t, else_block: e },
            TermV::If { cond: y, then_block: u, else_block: f },
        ) => operand_eq(x, y) && t == u && e == f,
        (
            TermV::Switch { discr: x, discr_ty: t, targets: xs, default: d },
            TermV::Switch { discr: y, discr_ty: u, targets: ys, default: e },
        ) => operand_eq(x, y) && t == u && targets_eq(xs, ys) && d == e,
        (TermV::Return(Some(x)), TermV::Return(Some(y))) => operand_eq(x, y),
        (TermV::Return(None), TermV::Return(None)) => true,
        (TermV::Unreachable, TermV::Unreachable) => true,
        (TermV::Placeholder, TermV::Placeholder) => true,
        _ => false,
    }
}

/// Whether two places are equal.
pub fn same_place(a: &MirPlace, b: &MirPlace) -> (r: bool)
    ensures
        r == place_eq(a.deep_view(), b.deep_view()),
    decreases a,
{
    match (a, b) {
        (MirPlace::Ssa(x), MirPlace::Ssa(y)) => *x == *y,
        (MirPlace::Field { base: x, field: f }, MirPlace::Field { base: y, field: g }) => *f == *g
            && same_place(x, y),
        (
            MirPlace::Index { base: x, index: i },
            MirPlace::Index { base: y, index: j },
        ) => same_place(x, y) && same_operand(i, j),
        (MirPlace::Deref(x), MirPlace::Deref(y)) => same_place(x, y),
        (
            MirPlace::EnumPayload { base: x, enum_name: e, variant_name: v },
            MirPlace::EnumPayload { base: y, enum_name: f, variant_name: w },
        ) => *e == *f && *v == *w && same_place(x, y),
        _ => false,
    }
}

/// Whether two operands are equal.
pub fn same_operand(a: &MirOperand, b: &MirOperand) -> (r: bool)
    ensures
        r == operand_eq(a.deep_view(), b.deep_view()),
    decreases a,
{
    match (a, b) {
        (MirOperand::Copy(x), MirOperand::Copy(y)) => same_place(x, y),
        (MirOperand::Move(x), MirOperand::Move(y)) => same_place(x, y),
        (MirOperand::Constant(x), MirOperand::Constant(y)) => *x == *y,
        (MirOperand::Sym(x), MirOperand::Sym(y)) => *x == *y,
        (MirOperand::Static(x), MirOperand::Static(y)) => *x == *y,
        _ => false,
    }
}

fn same_operands(a: &Vec<MirOperand>, b: &Vec<MirOperand>) -> (r: bool)
    ensures
        r == operands_eq(a.deep_view(), b.deep_view()),
{
    let ghost x = a.deep_view();
    let ghost y = b.deep_view();
    if a.len() != b.len() {
        return false;
    }
    let mut i: usize = 0;
    while i < a.len()
        invariant
            i <= a.len(),
            a.len() == b.len(),
            x == a.deep_view(),
            y == b.deep_view(),
            forall|j: int| 0 <= j < i ==> operand_eq(#[trigger] x[j], y[j]),
        decreases a.len() - i,
    {
        if !same_operand(&a[i], &b[i]) {
            assert(!operand_eq(x[i as int], y[i as int]));
            return false;
        }
        i = i + 1;
    }
    true
}

fn same_fields(a: &Vec<(String, MirOperand)>, b: &Vec<(String, MirOperand)>) -> (r: bool)
    ensures
        r == fields_eq(a.deep_view(), b.deep_view()),
{
    let ghost x = a.deep_view();
    let ghost y = b.deep_view();
    if a.len() != b.len() {
        return false;
    }
    let mut i: usize = 0;
    while i < a.len()
        invariant
            i <= a.len(),
            a.len() == b.len(),
            x == a.deep_view(),
            y == b.deep_view(),
            forall|j: int|
                0 <= j < i ==> (#[trigger] x[j]).0 == y[j].0 && operand_eq(x[j].1, y[j].1),
        decreases a.len() - i,
    {
        assert(x[i as int] == a@[i as int].deep_view() && y[i as int] == b@[i as int].deep_view());
        if a[i].0 != b[i].0 || !same_operand(&a[i].1, &b[i].1) {
            return false;
        }
        i = i + 1;
    }
    true
}

fn same_phi(a: &Vec<(usize, MirOperand)>, b: &Vec<(usize, MirOperand)>) -> (r: bool)
    ensures
        r == phi_eq(a.deep_view(), b.deep_view()),
{
    let ghost x = a.deep_view();
    let ghost y = b.deep_view();
    if a.len() != b.len() {
        return false;
    }
    let mut i: usize = 0;
    while i < a.len()
        invariant
            i <= a.len(),
            a.len() == b.len(),
            x == a.deep_view(),
            y == b.deep_view(),
            forall|j: int|
                0 <= j < i ==> (#[trigger] x[j]).0 == y[j].0 && operand_eq(x[j].1, y[j].1),
        decreases a.len() - i,
    {
        assert(x[i as int] == a@[i as int].deep_view() && y[i as int] == b@[i as int].deep_view());
        if a[i].0 != b[i].0 || !same_operand(&a[i].1, &b[i].1) {
            return false;
        }
        i = i + 1;
    }
    true
}

fn same_targets(a: &Vec<(Literal, usize)>, b: &Vec<(Literal, usize)>) -> (r: bool)
    ensures
        r == targets_eq(a.deep_view(), b.deep_view()),
{
    let ghost x = a.deep_view();
    let ghost y = b.deep_view();
    if a.len() != b.len() {
        return false;
    }
    let mut i: usize = 0;
    while i < a.len()
        invariant
            i <= a.len(),
            a.len() == b.len(),
            x == a.deep_view(),
            y == b.deep_view(),
            forall|j: int|
                0 <= j < i ==> literal_eq((#[trigger] x[j]).0, y[j].0) && x[j].1 == y[j].1,
        decreases a.len() - i,
    {
        assert(x[i as int] == a@[i as int].deep_view() && y[i as int] == b@[i as int].deep_view());
        if a[i].0 != b[i].0 || a[i].1 != b[i].1 {
            return false;
        }
        i = i + 1;
    }
    true
}

/// Whether two right-hand sides are equal.
pub fn same_rvalue(a: &MirRvalue, b: &MirRvalue) -> (r: bool)
    ensures
        r == rvalue_eq(a.deep_view(), b.deep_view()),
{
    match (a, b) {
        (MirRvalue::Use(x), MirRvalue::Use(y)) => same_operand(x, y),
        (MirRvalue::BinaryOp(o, x, y), MirRvalue::BinaryOp(p, z, w)) => *o == *p && same_operand(
            x,
            z,
        ) && same_operand(y, w),
        (MirRvalue::UnaryOp(o, x), MirRvalue::UnaryOp(p, y)) => *o == *p && same_operand(x, y),
        (MirRvalue::Cast(x, t), MirRvalue::Cast(y, u)) => same_operand(x, y) && *t == *u,
        (
            MirRvalue::Call {
                func: f,
                args: xs,
                is_intrinsic: i,
                intrinsic_name: n,
                generic_args: ts,
            },
            MirRvalue::Call {
                func: g,
                args: ys,
                is_intrinsic: j,
                intrinsic_name: m,
                generic_args: us,
            },
        ) => *f == *g && same_operands(xs, ys) && *i == *j && (match (n, m) {
            (Some(p), Some(q)) => *p == *q,
            (None, None) => true,
            _ => false,
        }) && crate::ast::same_types(ts, us),
        (
            MirRvalue::MethodCall { receiver: x, method: f, args: xs, generic_args: ts },
            MirRvalue::MethodCall { receiver: y, method: g, args: ys, generic_args: us },
        ) => same_operand(x, y) && *f == *g && same_operands(xs, ys) && crate::ast::same_types(
            ts,
            us,
        ),
        (
            MirRvalue::StructInit { struct_name: n, generic_args: ts, fields: xs },
            MirRvalue::StructInit { struct_name: m, generic_args: us, fields: ys },
        ) => *n == *m && crate::ast::same_types(ts, us) && same_fields(xs, ys),
        (
            MirRvalue::EnumVariantConstruction {
                enum_name: n,
                generic_args: ts,
                variant_name: v,
                args: xs,
            },
            MirRvalue::EnumVariantConstruction {
                enum_name: m,
                generic_args: us,
                variant_name: w,
                args: ys,
            },
        ) => *n == *m && crate::ast::same_types(ts, us) && *v == *w && same_operands(xs, ys),
        (MirRvalue::Ref { mutable: m, place: x }, MirRvalue::Ref { mutable: n, place: y }) => *m
            == *n && same_place(x, y),
        (MirRvalue::ArrayLiteral(xs), MirRvalue::ArrayLiteral(ys)) => same_operands(xs, ys),
        (
            MirRvalue::Discriminant { value: x, enum_name: n },
            MirRvalue::Discriminant { value: y, enum_name: m },
        ) => same_operand(x, y) && *n == *m,
        (MirRvalue::Phi { values: xs }, MirRvalue::Phi { values: ys }) => same_phi(xs, ys),
        _ => false,
    }
}

/// Whether two statements are equal.
pub fn same_stmt(a: &MirStmt, b: &MirStmt) -> (r: bool)
    ensures
        r == stmt_eq(a.deep_view(), b.deep_view()),
{
    match (a, b) {
        (
            MirStmt::Assign { dest: d, value: x },
            MirStmt::Assign { dest: e, value: y },
        ) => same_place(d, e) && same_rvalue(x, y),
        (MirStmt::ExprStmt(x), MirStmt::ExprStmt(y)) => same_rvalue(x, y),
        (MirStmt::Drop { place: x }, MirStmt::Drop { place: y }) => same_place(x, y),
        (
            MirStmt::SetMetadata { place: x, key: k, data: v },
            MirStmt::SetMetadata { place: y, key: l, data: w },
        ) => same_place(x, y) && *k == *l && *v == *w,
        (MirStmt::EffectCheck { effect: x }, MirStmt::EffectCheck { effect: y }) => *x == *y,
        _ => false,
    }
}

/// Whether two statement lists are equal.
pub fn same_stmts(a: &Vec<MirStmt>, b: &Vec<MirStmt>) -> (r: bool)
    ensures
        r == stmts_eq(a.deep_view(), b.deep_view()),
{
    let ghost x = a.deep_view();
    let ghost y = b.deep_view();
    if a.len() != b.len() {
        return false;
    }
    let mut i: usize = 0;
    while i < a.len()
        invariant
            i <= a.len(),
            a.len() == b.len(),
            x == a.deep_view(),
            y == b.deep_view(),
            forall|j: int| 0 <= j < i ==> stmt_eq(#[trigger] x[j], y[j]),
        decreases a.len() - i,
    {
        if !same_stmt(&a[i], &b[i]) {
            assert(!stmt_eq(x[i as int], y[i as int]));
            return false;
        }
        i = i + 1;
    }
    true
}

/// Whether two terminators are equal.
pub fn same_terminator(a: &MirTerminator, b: &MirTerminator) -> (r: bool)
    ensures
        r == term_eq(a.deep_view(), b.deep_view()),
{
    match (a, b) {
        (MirTerminator::Goto(x), MirTerminator::Goto(y)) => *x == *y,
        (
            MirTerminator::If { cond: x, then_block: t, else_block: e },
            MirTerminator::If { cond: y, then_block: u, else_block: f },
        ) => same_operand(x, y) && *t == *u && *e == *f,
        (
            MirTerminator::Switch { discr: x, discr_ty: t, targets: xs, default: d },
            MirTerminator::Switch { discr: y, discr_ty: u, targets: ys, default: e },
        ) => same_operand(x, y) && *t == *u && same_targets(xs, ys) && *d == *e,
        (MirTerminator::Return(x), MirTerminator::Return(y)) => match (x, y) {
            (Some(p), Some(q)) => same_operand(p, q),
            (None, None) => true,
            _ => false,
        },
        (MirTerminator::Unreachable, MirTerminator::Unreachable) => true,
        (MirTerminator::Placeholder, MirTerminator::Placeholder) => true,
        _ => false,
    }
}

impl PartialEq for MirPlace {
    fn eq(&self, other: &Self) -> (r: bool) {
        same_place(self, other)
    }
}

impl PartialEqSpecImpl for MirPlace {
    open spec fn obeys_eq_spec() -> bool {
        true
    }

    open spec fn eq_spec(&self, other: &Self) -> bool {
        place_eq(self.deep_view(), other.deep_view())
    }
}

impl PartialEq for MirOperand {
    fn eq(&self, other: &Self) -> (r: bool) {
        same_operand(self, other)
    }
}

impl PartialEqSpecImpl for MirOperand {
    open spec fn obeys_eq_spec() -> bool {
        true
    }

    open spec fn eq_spec(&self, other: &Self) -> bool {
        operand_eq(self.deep_view(), other.deep_view())
    }
}

impl PartialEq for MirRvalue {
    fn eq(&self, other: &Self) -> (r: bool) {
        same_rvalue(self, other)
    }
}

impl PartialEqSpecImpl for MirRvalue {
    open spec fn obeys_eq_spec() -> bool {
        true
    }

    open spec fn eq_spec(&self, other: &Self) -> bool {
        rvalue_eq(self.deep_view(), other.deep_view())
    }
}

impl PartialEq for MirStmt {
    fn eq(&self, other: &Self) -> (r: bool) {
        same_stmt(self, other)
    }
}

impl PartialEqSpecImpl for MirStmt {
    open spec fn obeys_eq_spec() -> bool {
        true
    }

    open spec fn eq_spec(&self, other: &Self) -> bool {
        stmt_eq(self.deep_view(), other.deep_view())
    }
}

impl PartialEq for MirTerminator {
    fn eq(&self, other: &Self) -> (r: bool) {
        same_terminator(self, other)
    }
}

impl PartialEqSpecImpl for MirTerminator {
    open spec fn obeys_eq_spec() -> bool {
        true
    }

    open spec fn eq_spec(&self, other: &Self) -> bool {
        term_eq(self.deep_view(), other.deep_view())
    }
}

} // verus!
