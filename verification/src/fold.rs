//! Folding within a basic block: constant and copy propagation, algebraic
//! identities and branches on constants.

use vstd::prelude::*;

use crate::ast::BinaryOp;
use crate::calc::Calc;
use crate::calc::{fold_binary, fold_unary};
use crate::literal::Literal;
use crate::literal::{literal_eq, LiteralV};
use crate::mir::{BlockV, OperandV, PlaceV, RvalueV, SsaLocal, StmtV, TermV};
use crate::mir::{MirBlock, MirOperand, MirPlace, MirRvalue, MirStmt, MirTerminator};
use crate::mir_eq::operand_eq;
use crate::mir_eq::same_operand;
use crate::table::{KeySet, Table};

verus! {

/// What is known of SSA locals at a point of a block: those that hold a constant
/// and those that hold a copy of another local.
#[verifier::ext_equal]
pub struct Known {
    pub consts: Map<SsaLocal, LiteralV>,
    pub copies: Map<SsaLocal, OperandV>,
}

/// Nothing is known.
pub open spec fn nothing_known() -> Known {
    Known { consts: Map::empty(), copies: Map::empty() }
}

/// An operand with a known local replaced by what it holds; a constant comes
/// before a copy.
pub open spec fn folded_operand(op: OperandV, known: Known) -> OperandV {
    match op {
        OperandV::Copy(PlaceV::Ssa(s)) | OperandV::Move(PlaceV::Ssa(s)) => if known.consts.contains_key(
            s,
        ) {
            OperandV::Constant(known.consts[s])
        } else if known.copies.contains_key(s) {
            known.copies[s]
        } else {
            op
        },
        _ => op,
    }
}

/// Each operand folded.
pub open spec fn folded_operands(ops: Seq<OperandV>, known: Known) -> Seq<OperandV> {
    Seq::new(ops.len(), |i: int| folded_operand(ops[i], known))
}

/// Each named operand folded.
pub open spec fn folded_fields(fs: Seq<(Seq<char>, OperandV)>, known: Known) -> Seq<
    (Seq<char>, OperandV),
> {
    Seq::new(fs.len(), |i: int| (fs[i].0, folded_operand(fs[i].1, known)))
}

/// Whether an operand is an integer constant of value `v`.
pub open spec fn is_int(op: OperandV, v: int) -> bool {
    op matches OperandV::Constant(LiteralV::Int(_, x)) && x == v
}

/// Whether an operand is the boolean constant `b`.
pub open spec fn is_bool(op: OperandV, b: bool) -> bool {
    op == OperandV::Constant(LiteralV::Bool(b))
}

/// The operand that an operation equals by an algebraic identity, if one applies.
pub open spec fn identity_of(op: BinaryOp, l: OperandV, r: OperandV) -> Option<OperandV> {
    match op {
        BinaryOp::Mul => if is_int(l, 0) {
            Some(l)
        } else if is_int(r, 0) {
            Some(r)
        } else if is_int(l, 1) {
            Some(r)
        } else if is_int(r, 1) {
            Some(l)
        } else {
            None
        },
        BinaryOp::Add => if is_int(l, 0) {
            Some(r)
        } else if is_int(r, 0) {
            Some(l)
        } else {
            None
        },
        BinaryOp::Sub => if is_int(r, 0) {
            Some(l)
        } else {
            None
        },
        BinaryOp::And => if is_bool(l, true) {
            Some(r)
        } else if is_bool(r, true) {
            Some(l)
        } else if is_bool(l, false) {
            Some(l)
        } else if is_bool(r, false) {
            Some(r)
        } else {
            None
        },
        BinaryOp::Or => if is_bool(l, true) {
            Some(l)
        } else if is_bool(r, true) {
            Some(r)
        } else if is_bool(l, false) {
            Some(r)
        } else if is_bool(r, false) {
            Some(l)
        } else {
            None
        },
        BinaryOp::Eq => if operand_eq(l, r) {
            Some(OperandV::Constant(LiteralV::Bool(true)))
        } else {
            None
        },
        BinaryOp::Neq => if operand_eq(l, r) {
            Some(OperandV::Constant(LiteralV::Bool(false)))
        } else {
            None
        },
        _ => None,
    }
}

/// The literal that both operands' constants fold to, if they are constants and
/// do.
pub open spec fn constant_result(op: BinaryOp, l: OperandV, r: OperandV) -> Option<LiteralV> {
    match (l, r) {
        (OperandV::Constant(x), OperandV::Constant(y)) => fold_binary(op, x, y),
        _ => None,
    }
}

/// A right-hand side with its operands folded, and evaluated where they allow it.
pub open spec fn folded_rvalue(rv: RvalueV, known: Known) -> RvalueV {
    match rv {
        RvalueV::BinaryOp(op, left, right) => {
            let l = folded_operand(left, known);
            let r = folded_operand(right, known);
            match constant_result(op, l, r) {
                Some(c) => RvalueV::Use(OperandV::Constant(c)),
                None => match identity_of(op, l, r) {
                    Some(o) => RvalueV::Use(o),
                    None => RvalueV::BinaryOp(op, l, r),
                },
            }
        },
        RvalueV::UnaryOp(op, operand) => {
            let o = folded_operand(operand, known);
            match o {
                OperandV::Constant(x) => match fold_unary(op, x) {
                    Some(c) => RvalueV::Use(OperandV::Constant(c)),
                    None => RvalueV::UnaryOp(op, o),
                },
                _ => RvalueV::UnaryOp(op, o),
            }
        },
        RvalueV::Use(o) => RvalueV::Use(folded_operand(o, known)),
        RvalueV::Cast(o, ty) => RvalueV::Cast(folded_operand(o, known), ty),
        RvalueV::Call { func, args, is_intrinsic, intrinsic_name, generic_args } => RvalueV::Call {
            func,
            args: folded_operands(args, known),
            is_intrinsic,
            intrinsic_name,
            generic_args,
        },
        RvalueV::MethodCall { receiver, method, args, generic_args } => RvalueV::MethodCall {
            receiver: folded_operand(receiver, known),
            method,
            args: folded_operands(args, known),
            generic_args,
        },
        RvalueV::StructInit { struct_name, generic_args, fields } => RvalueV::StructInit {
            struct_name,
            generic_args,
            fields: folded_fields(fields, known),
        },
        RvalueV::EnumVariantConstruction { enum_name, generic_args, variant_name, args } => {
            RvalueV::EnumVariantConstruction {
                enum_name,
                generic_args,
                variant_name,
                args: folded_operands(args, known),
            }
        },
        RvalueV::ArrayLiteral(es) => RvalueV::ArrayLiteral(folded_operands(es, known)),
        RvalueV::Discriminant { value, enum_name } => RvalueV::Discriminant {
            value: folded_operand(value, known),
            enum_name,
        },
        RvalueV::Ref { .. } | RvalueV::Phi { .. } => rv,
    }
}

/// What an assignment of a folded value to a local tells: a constant, or, where
/// the local's type is copied, a copy of another local.
pub open spec fn learn(known: Known, dest: PlaceV, value: RvalueV, copied: Set<usize>) -> Known {
    match (dest, value) {
        (PlaceV::Ssa(s), RvalueV::Use(OperandV::Constant(c))) => Known {
            consts: known.consts.insert(s, c),
            ..known
        },
        (PlaceV::Ssa(s), RvalueV::Use(OperandV::Copy(PlaceV::Ssa(x)))) => if copied.contains(
            s.base_id,
        ) {
            Known { copies: known.copies.insert(s, OperandV::Copy(PlaceV::Ssa(x))), ..known }
        } else {
            known
        },
        (PlaceV::Ssa(s), RvalueV::Use(OperandV::Move(PlaceV::Ssa(x)))) => if copied.contains(
            s.base_id,
        ) {
            Known { copies: known.copies.insert(s, OperandV::Move(PlaceV::Ssa(x))), ..known }
        } else {
            known
        },
        _ => known,
    }
}

/// A folded statement.
pub open spec fn folded_stmt(s: StmtV, known: Known) -> StmtV {
    match s {
        StmtV::Assign { dest, value } => StmtV::Assign { dest, value: folded_rvalue(value, known) },
        StmtV::ExprStmt(value) => StmtV::ExprStmt(folded_rvalue(value, known)),
        _ => s,
    }
}

/// What is known after a statement.
pub open spec fn known_after(s: StmtV, known: Known, copied: Set<usize>) -> Known {
    match s {
        StmtV::Assign { dest, value } => learn(known, dest, folded_rvalue(value, known), copied),
        _ => known,
    }
}

/// What is known after the first `n` statements.
pub open spec fn known_at(stmts: Seq<StmtV>, n: int, copied: Set<usize>) -> Known
    decreases n,
{
    if n <= 0 {
        nothing_known()
    } else {
        known_after(stmts[n - 1], known_at(stmts, n - 1, copied), copied)
    }
}

/// Where a switch leads on a given literal: the first arm that equals it, else
/// the default.
pub open spec fn switch_target(
    targets: Seq<(LiteralV, usize)>,
    lit: LiteralV,
    default: usize,
) -> usize
    decreases targets.len(),
{
    if targets.len() == 0 {
        default
    } else if literal_eq(targets[0].0, lit) {
        targets[0].1
    } else {
        switch_target(targets.drop_first(), lit, default)
    }
}

/// A terminator with its operand folded; a branch on a constant is a jump.
pub open spec fn folded_term(t: TermV, known: Known) -> TermV {
    match t {
        TermV::If { cond, then_block, else_block } => {
            let c = folded_operand(cond, known);
            match c {
                OperandV::Constant(LiteralV::Bool(b)) => TermV::Goto(
                    if b {
                        then_block
                    } else {
                        else_block
                    },
                ),
                _ => TermV::If { cond: c, then_block, else_block },
            }
        },
        TermV::Switch { discr, discr_ty, targets, default } => {
            let d = folded_operand(discr, known);
            match d {
                OperandV::Constant(lit) => TermV::Goto(switch_target(targets, lit, default)),
                _ => TermV::Switch { discr: d, discr_ty, targets, default },
            }
        },
        _ => t,
    }
}

/// A folded block.
pub open spec fn folded_block(b: BlockV, copied: Set<usize>) -> BlockV {
    BlockV {
        id: b.id,
        stmts: Seq::new(
            b.stmts.len(),
            |i: int| folded_stmt(b.stmts[i], known_at(b.stmts, i, copied)),
        ),
        terminator: folded_term(b.terminator, known_at(b.stmts, b.stmts.len() as int, copied)),
    }
}

/// The tables that block folding keeps.
pub struct FoldTables {
    pub const_map: Table<SsaLocal, Literal>,
    pub copy_map: Table<SsaLocal, MirOperand>,
}

impl DeepView for FoldTables {
    type V = Known;

    open spec fn deep_view(&self) -> Known {
        Known { consts: self.const_map.deep_view(), copies: self.copy_map.deep_view() }
    }
}

/// An operand with a known local replaced by what it holds.
pub fn fold_operand(op: &MirOperand, tables: &FoldTables) -> (r: MirOperand)
    ensures
        r.deep_view() == folded_operand(op.deep_view(), tables.deep_view()),
{
    match op {
        MirOperand::Copy(MirPlace::Ssa(s)) | MirOperand::Move(MirPlace::Ssa(s)) => {
            if let Some(lit) = tables.const_map.get(s) {
                return MirOperand::Constant(lit.clone());
            }
            if let Some(resolved) = tables.copy_map.get(s) {
                return resolved.clone();
            }
            op.clone()
        },
        _ => op.clone(),
    }
}

fn fold_operands(ops: &Vec<MirOperand>, tables: &FoldTables) -> (r: Vec<MirOperand>)
    ensures
        r.deep_view() == folded_operands(ops.deep_view(), tables.deep_view()),
{
    let mut r: Vec<MirOperand> = Vec::new();
    let mut i: usize = 0;
    while i < ops.len()
        invariant
            i <= ops.len(),
            r.len() == i,
            forall|j: int|
                0 <= j < i ==> (#[trigger] r@[j]).deep_view() == folded_operand(
                    ops@[j].deep_view(),
                    tables.deep_view(),
                ),
        decreases ops.len() - i,
    {
        r.push(fold_operand(&ops[i], tables));
        i = i + 1;
    }
    assert(r.deep_view() =~= folded_operands(ops.deep_view(), tables.deep_view()));
    r
}

fn fold_fields(fs: &Vec<(String, MirOperand)>, tables: &FoldTables) -> (r: Vec<
    (String, MirOperand),
>)
    ensures
        r.deep_view() == folded_fields(fs.deep_view(), tables.deep_view()),
{
    let mut r: Vec<(String, MirOperand)> = Vec::new();
    let mut i: usize = 0;
    while i < fs.len()
        invariant
            i <= fs.len(),
            r.len() == i,
            forall|j: int|
                0 <= j < i ==> (#[trigger] r@[j]).deep_view() == (
                    fs@[j].0.deep_view(),
                    folded_operand(fs@[j].1.deep_view(), tables.deep_view()),
                ),
        decreases fs.len() - i,
    {
        r.push((fs[i].0.clone(), fold_operand(&fs[i].1, tables)));
        i = i + 1;
    }
    assert(r.deep_view() =~= folded_fields(fs.deep_view(), tables.deep_view()));
    r
}

/// Whether an operand is an integer constant of value zero.
fn is_zero(op: &MirOperand) -> (r: bool)
    ensures
        r == is_int(op.deep_view(), 0),
{
    match op {
        MirOperand::Constant(lit) => match lit {
            Literal::Int8(v) => *v == 0,
            Literal::Int16(v) => *v == 0,
            Literal::Int32(v) => *v == 0,
            Literal::Int64(v) => *v == 0,
            Literal::Int128(v) => *v == 0,
            Literal::Isize(v) => *v == 0,
            Literal::UInt8(v) => *v == 0,
            Literal::UInt16(v) => *v == 0,
            Literal::UInt32(v) => *v == 0,
            Literal::UInt64(v) => *v == 0,
            Literal::UInt128(v) => *v == 0,
            Literal::Usize(v) => *v == 0,
            _ => false,
        },
        _ => false,
    }
}

/// Whether an operand is an integer constant of value one.
fn is_one(op: &MirOperand) -> (r: bool)
    ensures
        r == is_int(op.deep_view(), 1),
{
    match op {
        MirOperand::Constant(lit) => match lit {
            Literal::Int8(v) => *v == 1,
            Literal::Int16(v) => *v == 1,
            Literal::Int32(v) => *v == 1,
            Literal::Int64(v) => *v == 1,
            Literal::Int128(v) => *v == 1,
            Literal::Isize(v) => *v == 1,
            Literal::UInt8(v) => *v == 1,
            Literal::UInt16(v) => *v == 1,
            Literal::UInt32(v) => *v == 1,
            Literal::UInt64(v) => *v == 1,
            Literal::UInt128(v) => *v == 1,
            Literal::Usize(v) => *v == 1,
            _ => false,
        },
        _ => false,
    }
}

/// The value of a boolean constant.
fn bool_literal_value(op: &MirOperand) -> (r: Option<bool>)
    ensures
        match r {
            Some(b) => is_bool(op.deep_view(), b),
            None => !is_bool(op.deep_view(), true) && !is_bool(op.deep_view(), false),
        },
{
    match op {
        MirOperand::Constant(Literal::Bool(v)) => Some(*v),
        _ => None,
    }
}

fn is_bool_true(op: &MirOperand) -> (r: bool)
    ensures
        r == is_bool(op.deep_view(), true),
{
    match bool_literal_value(op) {
        Some(v) => v,
        None => false,
    }
}

fn is_bool_false(op: &MirOperand) -> (r: bool)
    ensures
        r == is_bool(op.deep_view(), false),
{
    match bool_literal_value(op) {
        Some(v) => !v,
        None => false,
    }
}

/// The operand that an operation equals by an algebraic identity, if one applies.
pub fn apply_algebraic_identity(op: BinaryOp, left: &MirOperand, right: &MirOperand) -> (r: Option<
    MirOperand,
>)
    ensures
        r.deep_view() == identity_of(op, left.deep_view(), right.deep_view()),
{
    match op {
        BinaryOp::Mul => {
            if is_zero(left) {
                return Some(left.clone());
            }
            if is_zero(right) {
                return Some(right.clone());
            }
            if is_one(left) {
                return Some(right.clone());
            }
            if is_one(right) {
                return Some(left.clone());
            }
            None
        },
        BinaryOp::Add => {
            if is_zero(left) {
                return Some(right.clone());
            }
            if is_zero(right) {
                return Some(left.clone());
            }
            None
        },
        BinaryOp::Sub => {
            if is_zero(right) {
                return Some(left.clone());
            }
            None
        },
        BinaryOp::And => {
            if is_bool_true(left) {
                return Some(right.clone());
            }
            if is_bool_true(right) {
                return Some(left.clone());
            }
            if is_bool_false(left) {
                return Some(left.clone());
            }
            if is_bool_false(right) {
                return Some(right.clone());
            }
            None
        },
        BinaryOp::Or => {
            if is_bool_true(left) {
                return Some(left.clone());
            }
            if is_bool_true(right) {
                return Some(right.clone());
            }
            if is_bool_false(left) {
                return Some(right.clone());
            }
            if is_bool_false(right) {
                return Some(left.clone());
            }
            None
        },
        BinaryOp::Eq => {
            if same_operand(left, right) {
                return Some(MirOperand::Constant(Literal::Bool(true)));
            }
            None
        },
        BinaryOp::Neq => {
            if same_operand(left, right) {
                return Some(MirOperand::Constant(Literal::Bool(false)));
            }
            None
        },
        _ => None,
    }
}

/// A right-hand side with its operands folded, and evaluated where they allow it.
pub fn fold_rvalue(rv: &MirRvalue, tables: &FoldTables) -> (r: MirRvalue)
    ensures
        r.deep_view() == folded_rvalue(rv.deep_view(), tables.deep_view()),
{
    match rv {
        MirRvalue::BinaryOp(op, left, right) => {
            let l = fold_operand(left, tables);
            let r = fold_operand(right, tables);
            if let (MirOperand::Constant(lc), MirOperand::Constant(rc)) = (&l, &r) {
                if let Some(result) = Calc::eval_binary_op(*op, lc.clone(), rc.clone()) {
                    return MirRvalue::Use(MirOperand::Constant(result));
                }
            }
            if let Some(simplified) = apply_algebraic_identity(*op, &l, &r) {
                return MirRvalue::Use(simplified);
            }
            MirRvalue::BinaryOp(*op, l, r)
        },
        MirRvalue::UnaryOp(op, operand) => {
            let folded = fold_operand(operand, tables);
            if let MirOperand::Constant(lit) = &folded {
                if let Some(result) = Calc::eval_unary_op(*op, lit.clone()) {
                    return MirRvalue::Use(MirOperand::Constant(result));
                }
            }
            MirRvalue::UnaryOp(*op, folded)
        },
        MirRvalue::Use(operand) => MirRvalue::Use(fold_operand(operand, tables)),
        MirRvalue::Cast(operand, ty) => MirRvalue::Cast(fold_operand(operand, tables), ty.clone()),
        MirRvalue::Call { func, args, is_intrinsic, intrinsic_name, generic_args } => {
            MirRvalue::Call {
                func: func.clone(),
                args: fold_operands(args, tables),
                is_intrinsic: *is_intrinsic,
                intrinsic_name: *intrinsic_name,
                generic_args: crate::ast::clone_types(generic_args),
            }
        },
        MirRvalue::MethodCall { receiver, method, args, generic_args } => MirRvalue::MethodCall {
            receiver: fold_operand(receiver, tables),
            method: method.clone(),
            args: fold_operands(args, tables),
            generic_args: crate::ast::clone_types(generic_args),
        },
        MirRvalue::StructInit { struct_name, generic_args, fields } => MirRvalue::StructInit {
            struct_name: struct_name.clone(),
            generic_args: crate::ast::clone_types(generic_args),
            fields: fold_fields(fields, tables),
        },
        MirRvalue::EnumVariantConstruction { enum_name, generic_args, variant_name, args } => {
            MirRvalue::EnumVariantConstruction {
                enum_name: enum_name.clone(),
                generic_args: crate::ast::clone_types(generic_args),
                variant_name: variant_name.clone(),
                args: fold_operands(args, tables),
            }
        },
        MirRvalue::ArrayLiteral(elements) => MirRvalue::ArrayLiteral(
            fold_operands(elements, tables),
        ),
        MirRvalue::Discriminant { value, enum_name } => MirRvalue::Discriminant {
            value: fold_operand(value, tables),
            enum_name: enum_name.clone(),
        },
        MirRvalue::Ref { .. } | MirRvalue::Phi { .. } => rv.clone(),
    }
}

/// A folded statement; `tables` learns what the statement tells.
pub fn fold_stmt(stmt: &MirStmt, tables: &mut FoldTables, copy_types: &KeySet<usize>) -> (r:
    MirStmt)
    ensures
        r.deep_view() == folded_stmt(stmt.deep_view(), old(tables).deep_view()),
        final(tables).deep_view() == known_after(
            stmt.deep_view(),
            old(tables).deep_view(),
            copy_types.deep_view(),
        ),
{
    match stmt {
        MirStmt::Assign { dest, value } => {
            let folded_value = fold_rvalue(value, tables);
            if let MirPlace::Ssa(ssa) = dest {
                match &folded_value {
                    MirRvalue::Use(MirOperand::Constant(lit)) => {
                        tables.const_map.insert(*ssa, lit.clone());
                    },
                    MirRvalue::Use(MirOperand::Copy(MirPlace::Ssa(x))) => {
                        if copy_types.contains(&ssa.base_id) {
                            tables.copy_map.insert(*ssa, MirOperand::Copy(MirPlace::Ssa(*x)));
                        }
                    },
                    MirRvalue::Use(MirOperand::Move(MirPlace::Ssa(x))) => {
                        if copy_types.contains(&ssa.base_id) {
                            tables.copy_map.insert(*ssa, MirOperand::Move(MirPlace::Ssa(*x)));
                        }
                    },
                    _ => {},
                }
            }
            MirStmt::Assign { dest: dest.clone(), value: folded_value }
        },
        MirStmt::ExprStmt(value) => MirStmt::ExprStmt(fold_rvalue(value, tables)),
        _ => stmt.clone(),
    }
}

/// Where a switch leads on a given literal.
fn find_target(targets: &Vec<(Literal, usize)>, lit: &Literal, default: usize) -> (r: usize)
    ensures
        r == switch_target(targets.deep_view(), lit.deep_view(), default),
{
    let ghost tv = targets.deep_view();
    let mut i: usize = 0;
    assert(tv.skip(0) =~= tv);
    while i < targets.len()
        invariant
            i <= targets.len(),
            tv == targets.deep_view(),
            switch_target(tv, lit.deep_view(), default) == switch_target(
                tv.skip(i as int),
                lit.deep_view(),
                default,
            ),
        decreases targets.len() - i,
    {
        assert(tv.skip(i as int)[0] == targets@[i as int].deep_view());
        if targets[i].0 == *lit {
            return targets[i].1;
        }
        assert(tv.skip(i as int).drop_first() =~= tv.skip(i + 1));
        i = i + 1;
    }
    default
}

/// A terminator with its operand folded; a branch on a constant is a jump.
pub fn fold_terminator(t: &MirTerminator, tables: &FoldTables) -> (r: MirTerminator)
    ensures
        r.deep_view() == folded_term(t.deep_view(), tables.deep_view()),
{
    match t {
        MirTerminator::If { cond, then_block, else_block } => {
            let folded_cond = fold_operand(cond, tables);
            match bool_literal_value(&folded_cond) {
                Some(true) => MirTerminator::Goto(*then_block),
                Some(false) => MirTerminator::Goto(*else_block),
                None => MirTerminator::If {
                    cond: folded_cond,
                    then_block: *then_block,
                    else_block: *else_block,
                },
            }
        },
        MirTerminator::Switch { discr, discr_ty, targets, default } => {
            let folded_discr = fold_operand(discr, tables);
            if let MirOperand::Constant(lit) = &folded_discr {
                return MirTerminator::Goto(find_target(targets, lit, *default));
            }
            MirTerminator::Switch {
                discr: folded_discr,
                discr_ty: discr_ty.clone(),
                targets: crate::mir::clone_targets(targets),
                default: *default,
            }
        },
        _ => t.clone(),
    }
}

/// Folds a block, starting from nothing known.
pub fn fold_block(block: &MirBlock, copy_types: &KeySet<usize>) -> (r: MirBlock)
    ensures
        r.deep_view() == folded_block(block.deep_view(), copy_types.deep_view()),
{
    let ghost sv = block.deep_view().stmts;
    let ghost cp = copy_types.deep_view();
    let mut tables = FoldTables { const_map: Table::new(), copy_map: Table::new() };
    let mut new_stmts: Vec<MirStmt> = Vec::new();
    let mut i: usize = 0;
    while i < block.stmts.len()
        invariant
            i <= block.stmts.len(),
            new_stmts.len() == i,
            sv == block.stmts.deep_view(),
            cp == copy_types.deep_view(),
            tables.deep_view() == known_at(sv, i as int, cp),
            forall|j: int|
                0 <= j < i ==> (#[trigger] new_stmts@[j]).deep_view() == folded_stmt(
                    sv[j],
                    known_at(sv, j, cp),
                ),
        decreases block.stmts.len() - i,
    {
        assert(sv[i as int] == block.stmts@[i as int].deep_view());
        let s = fold_stmt(&block.stmts[i], &mut tables, copy_types);
        new_stmts.push(s);
        i = i + 1;
    }
    let terminator = fold_terminator(&block.terminator, &tables);
    let r = MirBlock { id: block.id, stmts: new_stmts, terminator };
    assert(r.deep_view().stmts =~= folded_block(block.deep_view(), cp).stmts);
    r
}

} // verus!
