//! Laws of reading: which operands a statement evaluates, which places it thereby copies
//! and moves out of, and which locals it reads.

use vstd::prelude::*;

use crate::borrow::{index_places, operand_places, operands_places, rvalue_reads};
use crate::cfg::successors_of;
use crate::idset::base_ids;
use crate::init::root_of;
use crate::liveness::{term_uses_of, uses_of};
use crate::mir::{OperandV, PlaceV, RvalueV, SsaLocal, StmtV, TermV};
use crate::uses::{
    operand_locals, operands_locals, place_locals, rvalue_locals, rvalue_operands, stmt_locals,
    term_locals,
};

verus! {

/// Whether an operand stands in a right-hand side.
pub open spec fn operand_of(rv: RvalueV, o: OperandV) -> bool {
    match rv {
        RvalueV::Use(x) | RvalueV::UnaryOp(_, x) | RvalueV::Cast(x, _) => o == x,
        RvalueV::Discriminant { value, .. } => o == value,
        RvalueV::BinaryOp(_, x, y) => o == x || o == y,
        RvalueV::MethodCall { receiver, args, .. } => o == receiver || args.contains(o),
        RvalueV::Call { args, .. } => args.contains(o),
        RvalueV::EnumVariantConstruction { args, .. } => args.contains(o),
        RvalueV::ArrayLiteral(es) => es.contains(o),
        RvalueV::StructInit { fields, .. } => exists|i: int|
            0 <= i < fields.len() && (#[trigger] fields[i]).1 == o,
        RvalueV::Phi { values } => exists|i: int|
            0 <= i < values.len() && (#[trigger] values[i]).1 == o,
        RvalueV::Ref { .. } => false,
    }
}

/// Whether evaluating where a place lies evaluates an operand: one of its indices, or one
/// inside those.
pub open spec fn indexed_by(p: PlaceV, o: OperandV) -> bool
    decreases p,
{
    match p {
        PlaceV::Ssa(_) => false,
        PlaceV::Index { base, index } => indexed_by(*base, o) || within(*index, o),
        PlaceV::Field { base, .. } => indexed_by(*base, o),
        PlaceV::EnumPayload { base, .. } => indexed_by(*base, o),
        PlaceV::Deref(base) => indexed_by(*base, o),
    }
}

/// Whether evaluating operand `q` evaluates operand `o`.
pub open spec fn within(q: OperandV, o: OperandV) -> bool
    decreases q,
{
    q == o || match q {
        OperandV::Copy(p) => indexed_by(p, o),
        OperandV::Move(p) => indexed_by(p, o),
        _ => false,
    }
}

/// Whether evaluating a right-hand side evaluates an operand.
pub open spec fn evaluates(rv: RvalueV, o: OperandV) -> bool {
    ||| exists|q: OperandV| #[trigger] operand_of(rv, q) && within(q, o)
    ||| (rv matches RvalueV::Ref { place, .. } && indexed_by(place, o))
}

/// The operands of a right-hand side are those that stand in it.
pub proof fn lemma_operands_exact(rv: RvalueV, o: OperandV)
    ensures
        rvalue_operands(rv).contains(o) <==> operand_of(rv, o),
{
    let ops = rvalue_operands(rv);
    match rv {
        RvalueV::BinaryOp(_, x, y) => {
            assert(ops[0] == x && ops[1] == y);
        },
        RvalueV::MethodCall { receiver, args, .. } => {
            assert(ops[0] == receiver);
            if args.contains(o) {
                let i = choose|i: int| 0 <= i < args.len() && args[i] == o;
                assert(ops[i + 1] == o);
            }
            if ops.contains(o) && o != receiver {
                let i = choose|i: int| 0 <= i < ops.len() && ops[i] == o;
                assert(args[i - 1] == o);
            }
        },
        RvalueV::StructInit { fields, .. } => {
            if operand_of(rv, o) {
                let i = choose|i: int| 0 <= i < fields.len() && (#[trigger] fields[i]).1 == o;
                assert(ops[i] == o);
            }
            if ops.contains(o) {
                let i = choose|i: int| 0 <= i < ops.len() && ops[i] == o;
                assert(fields[i].1 == o);
            }
        },
        RvalueV::Phi { values } => {
            if operand_of(rv, o) {
                let i = choose|i: int| 0 <= i < values.len() && (#[trigger] values[i]).1 == o;
                assert(ops[i] == o);
            }
            if ops.contains(o) {
                let i = choose|i: int| 0 <= i < ops.len() && ops[i] == o;
                assert(values[i].1 == o);
            }
        },
        RvalueV::Use(x) | RvalueV::UnaryOp(_, x) | RvalueV::Cast(x, _) => {
            assert(ops[0] == x);
        },
        RvalueV::Discriminant { value, .. } => {
            assert(ops[0] == value);
        },
        _ => {},
    }
}

proof fn lemma_joined<A>(a: Seq<A>, b: Seq<A>, x: A)
    ensures
        (a + b).contains(x) <==> a.contains(x) || b.contains(x),
{
    let s = a + b;
    if a.contains(x) {
        let i = choose|i: int| 0 <= i < a.len() && a[i] == x;
        assert(s[i] == x);
    }
    if b.contains(x) {
        let i = choose|i: int| 0 <= i < b.len() && b[i] == x;
        assert(s[a.len() + i] == x);
    }
    if s.contains(x) {
        let i = choose|i: int| 0 <= i < s.len() && s[i] == x;
        if i < a.len() {
            assert(a[i] == x);
        } else {
            assert(b[i - a.len()] == x);
        }
    }
}

proof fn lemma_pushed<A>(a: Seq<A>, y: A, x: A)
    ensures
        a.push(y).contains(x) <==> a.contains(x) || x == y,
{
    assert(a.push(y) =~= a + seq![y]);
    lemma_joined(a, seq![y], x);
    assert(seq![y][0] == y);
}

proof fn lemma_index_places(p: PlaceV, x: PlaceV)
    ensures
        index_places(p).0.contains(x) <==> indexed_by(p, OperandV::Copy(x)),
        index_places(p).1.contains(x) <==> indexed_by(p, OperandV::Move(x)),
    decreases p,
{
    match p {
        PlaceV::Ssa(_) => {},
        PlaceV::Index { base, index } => {
            lemma_index_places(*base, x);
            lemma_operand_places(*index, x);
            lemma_joined(index_places(*base).0, operand_places(*index).0, x);
            lemma_joined(index_places(*base).1, operand_places(*index).1, x);
        },
        PlaceV::Field { base, .. } => lemma_index_places(*base, x),
        PlaceV::EnumPayload { base, .. } => lemma_index_places(*base, x),
        PlaceV::Deref(base) => lemma_index_places(*base, x),
    }
}

/// The places that evaluating an operand copies and moves out of.
pub proof fn lemma_operand_places(q: OperandV, x: PlaceV)
    ensures
        operand_places(q).0.contains(x) <==> within(q, OperandV::Copy(x)),
        operand_places(q).1.contains(x) <==> within(q, OperandV::Move(x)),
    decreases q,
{
    match q {
        OperandV::Copy(p) | OperandV::Move(p) => {
            lemma_index_places(p, x);
            lemma_pushed(index_places(p).0, p, x);
            lemma_pushed(index_places(p).1, p, x);
        },
        _ => {},
    }
}

proof fn lemma_operands_places(ops: Seq<OperandV>, x: PlaceV)
    ensures
        operands_places(ops).0.contains(x) <==> exists|q: OperandV|
            ops.contains(q) && #[trigger] within(q, OperandV::Copy(x)),
        operands_places(ops).1.contains(x) <==> exists|q: OperandV|
            ops.contains(q) && #[trigger] within(q, OperandV::Move(x)),
    decreases ops.len(),
{
    if ops.len() > 0 {
        let front = ops.drop_last();
        let last = ops.last();
        lemma_operands_places(front, x);
        lemma_operand_places(last, x);
        lemma_joined(operands_places(front).0, operand_places(last).0, x);
        lemma_joined(operands_places(front).1, operand_places(last).1, x);
        assert(front.push(last) =~= ops);
        assert forall|q: OperandV| ops.contains(q) <==> front.contains(q) || q == last by {
            lemma_pushed(front, last, q);
        }
    }
}

/// What a right-hand side reads: each place of a copy operand that it evaluates, inside
/// indices too, is copied, and each of a move operand is moved out of; nothing else is.
pub proof fn lemma_reads_exact(rv: RvalueV, x: PlaceV)
    ensures
        rvalue_reads(rv).0.contains(x) <==> evaluates(rv, OperandV::Copy(x)),
        rvalue_reads(rv).1.contains(x) <==> evaluates(rv, OperandV::Move(x)),
{
    match rv {
        RvalueV::Ref { mutable, place } => {
            lemma_index_places(place, x);
            assert forall|q: OperandV| !#[trigger] operand_of(rv, q) by {}
        },
        _ => {
            let ops = rvalue_operands(rv);
            lemma_operands_places(ops, x);
            assert forall|q: OperandV| #[trigger] ops.contains(q) <==> operand_of(rv, q) by {
                lemma_operands_exact(rv, q);
            }
            assert forall|o: OperandV|
                (exists|q: OperandV| ops.contains(q) && #[trigger] within(q, o))
                    <==> #[trigger] evaluates(rv, o) by {
                if exists|q: OperandV| ops.contains(q) && #[trigger] within(q, o) {
                    let q = choose|q: OperandV| ops.contains(q) && #[trigger] within(q, o);
                    assert(operand_of(rv, q) && within(q, o));
                }
                if evaluates(rv, o) {
                    let q = choose|q: OperandV| #[trigger] operand_of(rv, q) && within(q, o);
                    assert(ops.contains(q) && within(q, o));
                }
            }
        },
    }
}

/// The local at the bottom of a place.
pub open spec fn bottom(p: PlaceV) -> SsaLocal
    decreases p,
{
    match p {
        PlaceV::Ssa(s) => s,
        PlaceV::Field { base, .. } => bottom(*base),
        PlaceV::Index { base, .. } => bottom(*base),
        PlaceV::Deref(base) => bottom(*base),
        PlaceV::EnumPayload { base, .. } => bottom(*base),
    }
}

/// The variable at the root of a place is that of the local at its bottom.
pub proof fn lemma_root_bottom(p: PlaceV)
    ensures
        root_of(p) == bottom(p).base_id,
    decreases p,
{
    match p {
        PlaceV::Ssa(_) => {},
        PlaceV::Field { base, .. } => lemma_root_bottom(*base),
        PlaceV::Index { base, .. } => lemma_root_bottom(*base),
        PlaceV::Deref(base) => lemma_root_bottom(*base),
        PlaceV::EnumPayload { base, .. } => lemma_root_bottom(*base),
    }
}

/// Whether an operand itself, indices aside, is a place of a local.
pub open spec fn out_of(o: OperandV, l: SsaLocal) -> bool {
    match o {
        OperandV::Copy(p) => bottom(p) == l,
        OperandV::Move(p) => bottom(p) == l,
        _ => false,
    }
}

/// Whether evaluating where a place lies reads a local.
pub open spec fn place_reads(p: PlaceV, l: SsaLocal) -> bool {
    bottom(p) == l || exists|o: OperandV| #[trigger] indexed_by(p, o) && out_of(o, l)
}

/// Whether evaluating an operand reads a local.
pub open spec fn operand_reads(q: OperandV, l: SsaLocal) -> bool {
    exists|o: OperandV| #[trigger] within(q, o) && out_of(o, l)
}

/// The locals of a place are those that evaluating where it lies reads.
pub proof fn lemma_place_locals(p: PlaceV, l: SsaLocal)
    ensures
        place_locals(p).contains(l) <==> place_reads(p, l),
    decreases p,
{
    match p {
        PlaceV::Ssa(_) => {},
        PlaceV::Index { base, index } => {
            lemma_place_locals(*base, l);
            lemma_operand_locals(*index, l);
            if place_reads(p, l) && bottom(p) != l {
                let o = choose|o: OperandV| #[trigger] indexed_by(p, o) && out_of(o, l);
                assert(indexed_by(*base, o) || within(*index, o));
            }
            if place_reads(*base, l) && bottom(p) != l {
                let o = choose|o: OperandV| #[trigger] indexed_by(*base, o) && out_of(o, l);
                assert(indexed_by(p, o));
            }
            if operand_reads(*index, l) {
                let o = choose|o: OperandV| #[trigger] within(*index, o) && out_of(o, l);
                assert(indexed_by(p, o));
            }
        },
        PlaceV::Field { base, .. } => {
            lemma_place_locals(*base, l);
            if place_reads(*base, l) && bottom(p) != l {
                let o = choose|o: OperandV| #[trigger] indexed_by(*base, o) && out_of(o, l);
                assert(indexed_by(p, o));
            }
            if place_reads(p, l) && bottom(p) != l {
                let o = choose|o: OperandV| #[trigger] indexed_by(p, o) && out_of(o, l);
                assert(indexed_by(*base, o));
            }
        },
        PlaceV::EnumPayload { base, .. } => {
            lemma_place_locals(*base, l);
            if place_reads(*base, l) && bottom(p) != l {
                let o = choose|o: OperandV| #[trigger] indexed_by(*base, o) && out_of(o, l);
                assert(indexed_by(p, o));
            }
            if place_reads(p, l) && bottom(p) != l {
                let o = choose|o: OperandV| #[trigger] indexed_by(p, o) && out_of(o, l);
                assert(indexed_by(*base, o));
            }
        },
        PlaceV::Deref(base) => {
            lemma_place_locals(*base, l);
            if place_reads(*base, l) && bottom(p) != l {
                let o = choose|o: OperandV| #[trigger] indexed_by(*base, o) && out_of(o, l);
                assert(indexed_by(p, o));
            }
            if place_reads(p, l) && bottom(p) != l {
                let o = choose|o: OperandV| #[trigger] indexed_by(p, o) && out_of(o, l);
                assert(indexed_by(*base, o));
            }
        },
    }
}

/// The locals of an operand are those that evaluating it reads.
pub proof fn lemma_operand_locals(q: OperandV, l: SsaLocal)
    ensures
        operand_locals(q).contains(l) <==> operand_reads(q, l),
    decreases q,
{
    match q {
        OperandV::Copy(p) | OperandV::Move(p) => {
            lemma_place_locals(p, l);
            assert(within(q, q));
            if place_reads(p, l) {
                if bottom(p) == l {
                    assert(within(q, q) && out_of(q, l));
                } else {
                    let o = choose|o: OperandV| #[trigger] indexed_by(p, o) && out_of(o, l);
                    assert(within(q, o) && out_of(o, l));
                }
                assert(operand_reads(q, l));
            }
            if operand_reads(q, l) {
                let o = choose|o: OperandV| #[trigger] within(q, o) && out_of(o, l);
                if o != q {
                    assert(indexed_by(p, o));
                }
                assert(place_reads(p, l));
            }
        },
        _ => {},
    }
}

proof fn lemma_operands_locals(ops: Seq<OperandV>, l: SsaLocal)
    ensures
        operands_locals(ops).contains(l) <==> exists|q: OperandV|
            ops.contains(q) && #[trigger] operand_reads(q, l),
    decreases ops.len(),
{
    if ops.len() > 0 {
        let front = ops.drop_last();
        let last = ops.last();
        lemma_operands_locals(front, l);
        lemma_operand_locals(last, l);
        assert(front.push(last) =~= ops);
        assert forall|q: OperandV| ops.contains(q) <==> front.contains(q) || q == last by {
            lemma_pushed(front, last, q);
        }
    }
}

/// Whether evaluating a right-hand side reads a local. Borrowing a place goes through the
/// local at its bottom.
pub open spec fn value_reads(rv: RvalueV, l: SsaLocal) -> bool {
    ||| exists|q: OperandV| #[trigger] operand_of(rv, q) && operand_reads(q, l)
    ||| (rv matches RvalueV::Ref { place, .. } && place_reads(place, l))
}

/// The locals of a right-hand side are those that evaluating it reads.
pub proof fn lemma_value_locals(rv: RvalueV, l: SsaLocal)
    ensures
        rvalue_locals(rv).contains(l) <==> value_reads(rv, l),
{
    match rv {
        RvalueV::Ref { mutable, place } => {
            lemma_place_locals(place, l);
            assert forall|q: OperandV| !#[trigger] operand_of(rv, q) by {}
        },
        _ => {
            let ops = rvalue_operands(rv);
            lemma_operands_locals(ops, l);
            assert forall|q: OperandV| #[trigger] ops.contains(q) <==> operand_of(rv, q) by {
                lemma_operands_exact(rv, q);
            }
            if rvalue_locals(rv).contains(l) {
                let q = choose|q: OperandV| ops.contains(q) && #[trigger] operand_reads(q, l);
                assert(operand_of(rv, q) && operand_reads(q, l));
            }
            if value_reads(rv, l) {
                let q = choose|q: OperandV| #[trigger] operand_of(rv, q) && operand_reads(q, l);
                assert(ops.contains(q) && operand_reads(q, l));
            }
        },
    }
}

/// Whether a statement reads a local. A part of a local is written through the local, a
/// local as a whole is not.
pub open spec fn stmt_reads(s: StmtV, l: SsaLocal) -> bool {
    match s {
        StmtV::Assign { dest, value } => value_reads(value, l) || (!(dest is Ssa) && place_reads(
            dest,
            l,
        )),
        StmtV::ExprStmt(value) => value_reads(value, l),
        StmtV::Drop { place } => place_reads(place, l),
        StmtV::SetMetadata { place, .. } => place_reads(place, l),
        StmtV::EffectCheck { .. } => false,
    }
}

/// Whether a terminator reads a local.
pub open spec fn term_reads(t: TermV, l: SsaLocal) -> bool {
    match t {
        TermV::If { cond, .. } => operand_reads(cond, l),
        TermV::Switch { discr, .. } => operand_reads(discr, l),
        TermV::Return(v) => v is Some && operand_reads(v->0, l),
        _ => false,
    }
}

/// The locals of a statement are those that it reads.
pub proof fn lemma_stmt_locals(s: StmtV, l: SsaLocal)
    ensures
        stmt_locals(s).contains(l) <==> stmt_reads(s, l),
{
    match s {
        StmtV::Assign { dest, value } => {
            lemma_value_locals(value, l);
            lemma_place_locals(dest, l);
        },
        StmtV::ExprStmt(value) => lemma_value_locals(value, l),
        StmtV::Drop { place } => lemma_place_locals(place, l),
        StmtV::SetMetadata { place, .. } => lemma_place_locals(place, l),
        StmtV::EffectCheck { .. } => {},
    }
}

/// The locals of a terminator are those that it reads.
pub proof fn lemma_term_locals(t: TermV, l: SsaLocal)
    ensures
        term_locals(t).contains(l) <==> term_reads(t, l),
{
    match t {
        TermV::If { cond, .. } => lemma_operand_locals(cond, l),
        TermV::Switch { discr, .. } => lemma_operand_locals(discr, l),
        TermV::Return(Some(v)) => lemma_operand_locals(v, l),
        _ => {},
    }
}

/// Whether a statement reads some version of a variable.
pub open spec fn reads_var(s: StmtV, x: usize) -> bool {
    exists|l: SsaLocal| #[trigger] stmt_reads(s, l) && l.base_id == x
}

/// Whether a terminator reads some version of a variable.
pub open spec fn ends_on_var(t: TermV, x: usize) -> bool {
    exists|l: SsaLocal| #[trigger] term_reads(t, l) && l.base_id == x
}

proof fn lemma_base_ids(s: Set<SsaLocal>, x: usize)
    ensures
        base_ids(s).contains(x) <==> exists|l: SsaLocal| #[trigger] s.contains(l) && l.base_id == x,
{
    let f = |l: SsaLocal| l.base_id;
    if base_ids(s).contains(x) {
        let l = choose|l: SsaLocal| s.contains(l) && f(l) == x;
        assert(s.contains(l) && l.base_id == x);
    }
    if exists|l: SsaLocal| #[trigger] s.contains(l) && l.base_id == x {
        let l = choose|l: SsaLocal| #[trigger] s.contains(l) && l.base_id == x;
        assert(f(l) == x);
    }
}

/// The variables that count as used by a statement are those that it reads.
pub proof fn lemma_uses_exact(s: StmtV, x: usize)
    ensures
        uses_of(s).contains(x) <==> reads_var(s, x),
{
    lemma_base_ids(stmt_locals(s), x);
    if uses_of(s).contains(x) {
        let l = choose|l: SsaLocal| #[trigger] stmt_locals(s).contains(l) && l.base_id == x;
        lemma_stmt_locals(s, l);
        assert(stmt_reads(s, l) && l.base_id == x);
    }
    if reads_var(s, x) {
        let l = choose|l: SsaLocal| #[trigger] stmt_reads(s, l) && l.base_id == x;
        lemma_stmt_locals(s, l);
        assert(stmt_locals(s).contains(l) && l.base_id == x);
    }
}

/// The variables that count as used by a terminator are those that it reads.
pub proof fn lemma_term_uses_exact(t: TermV, x: usize)
    ensures
        term_uses_of(t).contains(x) <==> ends_on_var(t, x),
{
    lemma_base_ids(term_locals(t), x);
    if term_uses_of(t).contains(x) {
        let l = choose|l: SsaLocal| #[trigger] term_locals(t).contains(l) && l.base_id == x;
        lemma_term_locals(t, l);
        assert(term_reads(t, l) && l.base_id == x);
    }
    if ends_on_var(t, x) {
        let l = choose|l: SsaLocal| #[trigger] term_reads(t, l) && l.base_id == x;
        lemma_term_locals(t, l);
        assert(term_locals(t).contains(l) && l.base_id == x);
    }
}

/// Whether a terminator names a block that control may pass to.
pub open spec fn names(t: TermV, x: usize) -> bool {
    match t {
        TermV::Goto(y) => x == y,
        TermV::If { then_block, else_block, .. } => x == then_block || x == else_block,
        TermV::Switch { targets, default, .. } => x == default || exists|i: int|
            0 <= i < targets.len() && (#[trigger] targets[i]).1 == x,
        _ => false,
    }
}

/// The successors of a terminator are the blocks that it names.
pub proof fn lemma_successors_exact(t: TermV, x: usize)
    ensures
        successors_of(t).contains(x) <==> names(t, x),
{
    let s = successors_of(t);
    match t {
        TermV::Goto(y) => {
            assert(s[0] == y);
        },
        TermV::If { then_block, else_block, .. } => {
            assert(s[0] == then_block && s[1] == else_block);
        },
        TermV::Switch { targets, default, .. } => {
            assert(s[targets.len() as int] == default);
            if exists|i: int| 0 <= i < targets.len() && (#[trigger] targets[i]).1 == x {
                let i = choose|i: int| 0 <= i < targets.len() && (#[trigger] targets[i]).1 == x;
                assert(s[i] == x);
            }
            if s.contains(x) {
                let i = choose|i: int| 0 <= i < s.len() && s[i] == x;
                if i < targets.len() {
                    assert(targets[i].1 == x);
                }
            }
        },
        _ => {},
    }
}

} // verus!
