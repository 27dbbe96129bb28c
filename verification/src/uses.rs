//! The SSA locals that IR values read.

use vstd::prelude::*;

use crate::mir::{BlockV, OperandV, PlaceV, RvalueV, SsaLocal, StmtV, TermV};
use crate::mir::{MirBlock, MirOperand, MirPlace, MirRvalue, MirStmt, MirTerminator};
use crate::table::KeySet;

verus! {

/// The locals that evaluating a place reads, its root included.
pub open spec fn place_locals(p: PlaceV) -> Set<SsaLocal>
    decreases p,
{
    match p {
        PlaceV::Ssa(s) => set![s],
        PlaceV::Field { base, .. } => place_locals(*base),
        PlaceV::Index { base, index } => place_locals(*base).union(operand_locals(*index)),
        PlaceV::Deref(base) => place_locals(*base),
        PlaceV::EnumPayload { base, .. } => place_locals(*base),
    }
}

/// The locals that an operand reads.
pub open spec fn operand_locals(o: OperandV) -> Set<SsaLocal>
    decreases o,
{
    match o {
        OperandV::Copy(p) | OperandV::Move(p) => place_locals(p),
        _ => Set::empty(),
    }
}

/// The operands of a right-hand side, in order.
pub open spec fn rvalue_operands(rv: RvalueV) -> Seq<OperandV> {
    match rv {
        RvalueV::Use(o) => seq![o],
        RvalueV::BinaryOp(_, l, r) => seq![l, r],
        RvalueV::UnaryOp(_, o) => seq![o],
        RvalueV::Cast(o, _) => seq![o],
        RvalueV::Call { args, .. } => args,
        RvalueV::MethodCall { receiver, args, .. } => seq![receiver] + args,
        RvalueV::StructInit { fields, .. } => Seq::new(fields.len(), |i: int| fields[i].1),
        RvalueV::EnumVariantConstruction { args, .. } => args,
        RvalueV::Ref { .. } => Seq::empty(),
        RvalueV::ArrayLiteral(es) => es,
        RvalueV::Discriminant { value, .. } => seq![value],
        RvalueV::Phi { values } => Seq::new(values.len(), |i: int| values[i].1),
    }
}

/// The locals that the operands read.
pub open spec fn operands_locals(ops: Seq<OperandV>) -> Set<SsaLocal>
    decreases ops.len(),
{
    if ops.len() == 0 {
        Set::empty()
    } else {
        operands_locals(ops.drop_last()).union(operand_locals(ops.last()))
    }
}

/// The locals that a right-hand side reads.
pub open spec fn rvalue_locals(rv: RvalueV) -> Set<SsaLocal> {
    match rv {
        RvalueV::Ref { place, .. } => place_locals(place),
        _ => operands_locals(rvalue_operands(rv)),
    }
}

/// The locals that a statement reads. Assigning a whole local does not read it;
/// assigning through a projection reads what the projection goes through.
pub open spec fn stmt_locals(s: StmtV) -> Set<SsaLocal> {
    match s {
        StmtV::Assign { dest, value } => match dest {
            PlaceV::Ssa(_) => rvalue_locals(value),
            _ => rvalue_locals(value).union(place_locals(dest)),
        },
        StmtV::ExprStmt(value) => rvalue_locals(value),
        StmtV::Drop { place } => place_locals(place),
        StmtV::SetMetadata { place, .. } => place_locals(place),
        StmtV::EffectCheck { .. } => Set::empty(),
    }
}

/// The locals that a terminator reads.
pub open spec fn term_locals(t: TermV) -> Set<SsaLocal> {
    match t {
        TermV::If { cond, .. } => operand_locals(cond),
        TermV::Switch { discr, .. } => operand_locals(discr),
        TermV::Return(Some(o)) => operand_locals(o),
        _ => Set::empty(),
    }
}

/// The locals that the first `n` statements read.
pub open spec fn stmts_locals(stmts: Seq<StmtV>, n: int) -> Set<SsaLocal>
    decreases n,
{
    if n <= 0 {
        Set::empty()
    } else {
        stmts_locals(stmts, n - 1).union(stmt_locals(stmts[n - 1]))
    }
}

/// The locals that the first `n` blocks read.
pub open spec fn blocks_locals(blocks: Seq<BlockV>, n: int) -> Set<SsaLocal>
    decreases n,
{
    if n <= 0 {
        Set::empty()
    } else {
        blocks_locals(blocks, n - 1).union(
            stmts_locals(blocks[n - 1].stmts, blocks[n - 1].stmts.len() as int),
        ).union(term_locals(blocks[n - 1].terminator))
    }
}

/// Adds the locals that a place reads.
pub fn collect_used_vars_in_place(place: &MirPlace, used: &mut KeySet<SsaLocal>)
    ensures
        final(used).deep_view() == old(used).deep_view().union(place_locals(place.deep_view())),
    decreases place,
{
    let ghost u0 = used.deep_view();
    match place {
        MirPlace::Ssa(s) => {
            used.insert(*s);
        },
        MirPlace::Field { base, .. } => collect_used_vars_in_place(base, used),
        MirPlace::Index { base, index } => {
            collect_used_vars_in_place(base, used);
            collect_used_vars_in_operand(index, used);
        },
        MirPlace::Deref(base) => collect_used_vars_in_place(base, used),
        MirPlace::EnumPayload { base, .. } => collect_used_vars_in_place(base, used),
    }
    assert(used.deep_view() =~= u0.union(place_locals(place.deep_view())));
}

/// Adds the locals that an operand reads.
pub fn collect_used_vars_in_operand(op: &MirOperand, used: &mut KeySet<SsaLocal>)
    ensures
        final(used).deep_view() == old(used).deep_view().union(operand_locals(op.deep_view())),
    decreases op,
{
    let ghost u0 = used.deep_view();
    match op {
        MirOperand::Copy(place) | MirOperand::Move(place) => collect_used_vars_in_place(
            place,
            used,
        ),
        _ => {},
    }
    assert(used.deep_view() =~= u0.union(operand_locals(op.deep_view())));
}

fn collect_used_vars_in_operands(ops: &Vec<MirOperand>, used: &mut KeySet<SsaLocal>)
    ensures
        final(used).deep_view() == old(used).deep_view().union(operands_locals(ops.deep_view())),
{
    let ghost u0 = used.deep_view();
    let ghost ov = ops.deep_view();
    let mut i: usize = 0;
    assert(u0 =~= u0.union(operands_locals(ov.take(0))));
    while i < ops.len()
        invariant
            i <= ops.len(),
            ov == ops.deep_view(),
            used.deep_view() == u0.union(operands_locals(ov.take(i as int))),
        decreases ops.len() - i,
    {
        proof {
            assert(ov.take(i + 1).drop_last() =~= ov.take(i as int));
            assert(ov.take(i + 1).last() == ops@[i as int].deep_view());
        }
        collect_used_vars_in_operand(&ops[i], used);
        assert(used.deep_view() =~= u0.union(operands_locals(ov.take(i + 1))));
        i = i + 1;
    }
    assert(ov.take(i as int) =~= ov);
}

/// The locals that a list of operands with one more in front reads.
pub proof fn lemma_operands_locals_cons(o: OperandV, ops: Seq<OperandV>)
    ensures
        operands_locals(seq![o] + ops) == operand_locals(o).union(operands_locals(ops)),
    decreases ops.len(),
{
    let all = seq![o] + ops;
    if ops.len() == 0 {
        assert(all =~= seq![o]);
        reveal_with_fuel(operands_locals, 2);
        assert(operands_locals(all) =~= operand_locals(o).union(operands_locals(ops)));
    } else {
        assert(all.drop_last() =~= seq![o] + ops.drop_last());
        lemma_operands_locals_cons(o, ops.drop_last());
        assert(operands_locals(all) =~= operand_locals(o).union(operands_locals(ops)));
    }
}

/// Adds the locals that a right-hand side reads.
pub fn collect_used_vars_in_rvalue(rv: &MirRvalue, used: &mut KeySet<SsaLocal>)
    ensures
        final(used).deep_view() == old(used).deep_view().union(rvalue_locals(rv.deep_view())),
{
    let ghost u0 = used.deep_view();
    proof {
        reveal_with_fuel(operands_locals, 3);
    }
    match rv {
        MirRvalue::Use(op) => {
            collect_used_vars_in_operand(op, used);
            assert(seq![op.deep_view()].drop_last() =~= Seq::empty());
        },
        MirRvalue::BinaryOp(_, left, right) => {
            collect_used_vars_in_operand(left, used);
            collect_used_vars_in_operand(right, used);
            proof {
                let s = seq![left.deep_view(), right.deep_view()];
                assert(s =~= seq![left.deep_view()] + seq![right.deep_view()]);
                lemma_operands_locals_cons(left.deep_view(), seq![right.deep_view()]);
                assert(seq![right.deep_view()].drop_last() =~= Seq::empty());
            }
        },
        MirRvalue::UnaryOp(_, op) => {
            collect_used_vars_in_operand(op, used);
            assert(seq![op.deep_view()].drop_last() =~= Seq::empty());
        },
        MirRvalue::Cast(op, _) => {
            collect_used_vars_in_operand(op, used);
            assert(seq![op.deep_view()].drop_last() =~= Seq::empty());
        },
        MirRvalue::Call { args, .. } => collect_used_vars_in_operands(args, used),
        MirRvalue::MethodCall { receiver, args, .. } => {
            collect_used_vars_in_operand(receiver, used);
            collect_used_vars_in_operands(args, used);
            proof {
                lemma_operands_locals_cons(receiver.deep_view(), args.deep_view());
            }
        },
        MirRvalue::StructInit { fields, .. } => {
            let ghost ov = rvalue_operands(rv.deep_view());
            let mut i: usize = 0;
            assert(u0 =~= u0.union(operands_locals(ov.take(0))));
            while i < fields.len()
                invariant
                    i <= fields.len(),
                    ov.len() == fields.len(),
                    forall|j: int| 0 <= j < fields.len() ==> #[trigger] ov[j] == fields@[j].1.deep_view(),
                    used.deep_view() == u0.union(operands_locals(ov.take(i as int))),
                decreases fields.len() - i,
            {
                proof {
                    assert(ov.take(i + 1).drop_last() =~= ov.take(i as int));
                    assert(ov.take(i + 1).last() == ov[i as int]);
                }
                collect_used_vars_in_operand(&fields[i].1, used);
                assert(used.deep_view() =~= u0.union(operands_locals(ov.take(i + 1))));
                i = i + 1;
            }
            assert(ov.take(i as int) =~= ov);
        },
        MirRvalue::EnumVariantConstruction { args, .. } => collect_used_vars_in_operands(
            args,
            used,
        ),
        MirRvalue::ArrayLiteral(elements) => collect_used_vars_in_operands(elements, used),
        MirRvalue::Discriminant { value, .. } => {
            collect_used_vars_in_operand(value, used);
            assert(seq![value.deep_view()].drop_last() =~= Seq::empty());
        },
        MirRvalue::Ref { place, .. } => collect_used_vars_in_place(place, used),
        MirRvalue::Phi { values } => {
            let ghost ov = rvalue_operands(rv.deep_view());
            let mut i: usize = 0;
            assert(u0 =~= u0.union(operands_locals(ov.take(0))));
            while i < values.len()
                invariant
                    i <= values.len(),
                    ov.len() == values.len(),
                    forall|j: int| 0 <= j < values.len() ==> #[trigger] ov[j] == values@[j].1.deep_view(),
                    used.deep_view() == u0.union(operands_locals(ov.take(i as int))),
                decreases values.len() - i,
            {
                proof {
                    assert(ov.take(i + 1).drop_last() =~= ov.take(i as int));
                    assert(ov.take(i + 1).last() == ov[i as int]);
                }
                collect_used_vars_in_operand(&values[i].1, used);
                assert(used.deep_view() =~= u0.union(operands_locals(ov.take(i + 1))));
                i = i + 1;
            }
            assert(ov.take(i as int) =~= ov);
        },
    }
    assert(used.deep_view() =~= u0.union(rvalue_locals(rv.deep_view())));
}

/// Adds the locals that a statement reads.
pub fn collect_used_vars(stmt: &MirStmt, used: &mut KeySet<SsaLocal>)
    ensures
        final(used).deep_view() == old(used).deep_view().union(stmt_locals(stmt.deep_view())),
{
    let ghost u0 = used.deep_view();
    match stmt {
        MirStmt::Assign { dest, value } => {
            collect_used_vars_in_rvalue(value, used);
            match dest {
                MirPlace::Ssa(_) => {},
                _ => collect_used_vars_in_place(dest, used),
            }
        },
        MirStmt::ExprStmt(value) => collect_used_vars_in_rvalue(value, used),
        MirStmt::Drop { place } => collect_used_vars_in_place(place, used),
        MirStmt::SetMetadata { place, .. } => collect_used_vars_in_place(place, used),
        MirStmt::EffectCheck { .. } => {},
    }
    assert(used.deep_view() =~= u0.union(stmt_locals(stmt.deep_view())));
}

/// Adds the locals that a terminator reads.
pub fn collect_used_vars_in_terminator(term: &MirTerminator, used: &mut KeySet<SsaLocal>)
    ensures
        final(used).deep_view() == old(used).deep_view().union(term_locals(term.deep_view())),
{
    let ghost u0 = used.deep_view();
    match term {
        MirTerminator::If { cond, .. } => collect_used_vars_in_operand(cond, used),
        MirTerminator::Switch { discr, .. } => collect_used_vars_in_operand(discr, used),
        MirTerminator::Return(Some(op)) => collect_used_vars_in_operand(op, used),
        _ => {},
    }
    assert(used.deep_view() =~= u0.union(term_locals(term.deep_view())));
}

/// The locals that the blocks read.
pub fn used_in_blocks(blocks: &Vec<MirBlock>) -> (r: KeySet<SsaLocal>)
    ensures
        r.deep_view() == blocks_locals(blocks.deep_view(), blocks.deep_view().len() as int),
{
    let ghost bv = blocks.deep_view();
    let mut used: KeySet<SsaLocal> = KeySet::new();
    let mut i: usize = 0;
    while i < blocks.len()
        invariant
            i <= blocks.len(),
            bv == blocks.deep_view(),
            used.deep_view() == blocks_locals(bv, i as int),
        decreases blocks.len() - i,
    {
        let block = &blocks[i];
        assert(bv[i as int] == block.deep_view());
        let ghost sv = block.stmts.deep_view();
        let ghost u0 = used.deep_view();
        let mut j: usize = 0;
        assert(u0 =~= u0.union(stmts_locals(sv, 0)));
        while j < block.stmts.len()
            invariant
                j <= block.stmts.len(),
                sv == block.stmts.deep_view(),
                used.deep_view() == u0.union(stmts_locals(sv, j as int)),
            decreases block.stmts.len() - j,
        {
            assert(sv[j as int] == block.stmts@[j as int].deep_view());
            collect_used_vars(&block.stmts[j], &mut used);
            assert(used.deep_view() =~= u0.union(stmts_locals(sv, j + 1)));
            j = j + 1;
        }
        collect_used_vars_in_terminator(&block.terminator, &mut used);
        i = i + 1;
    }
    used
}

} // verus!
