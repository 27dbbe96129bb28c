//! Laws of the optimiser: what a body computes, it computes optimised.

use vstd::prelude::*;

use crate::ast::BinaryOp;
use crate::calc::fold_binary;
use crate::cfg::{
    lemma_compact_index, lemma_compact_len, lemma_compact_source, lemma_entry_reachable,
    lemma_rank_bounds, rank, reachable, reachable_set, renumbering, retarget, successors_of,
    targets_ok, term_in_range,
};
use crate::control::{armless_to_goto, has_phi, is_phi, lemma_kept_target};
use crate::control_laws::{hops, lemma_hops_run, no_phis};
use crate::fold::{
    constant_result, folded_operand, folded_operands, folded_rvalue, folded_stmt, folded_term,
    identity_of, known_after, known_at, Known,
};
use crate::machine::{
    eval_of, given, lemma_computed, lemma_run_extends, lemma_store_push, lemma_truthful_prefix, memory_after,
    rvalue_truthful, seen, settled, settled_operands, spot_of, step, stmt_truthful, store_after,
    trace_truthful, value_of, yields, Machine, Seen, Store,
};
use crate::mir::{BlockV, OperandV, PlaceV, ProgramV, RvalueV, SsaLocal, StmtV, TermV};
use crate::mir_eq::operand_eq;
use crate::run::{
    finishes, lemma_next_named, lemma_next_retargeted, next_block, run, same_runs, Eval, Outcome,
};
use crate::simplify::{
    blocks_folded, collapse_keeps, collapsed_target, copied_locals, dead_store, empties_collapsed,
    flowing_values, flows_in, landing, lemma_opt_round_ok, lemma_resolved_range, live_stmts,
    only_jumps, opt_round, opt_rounds, optimized, phis_reduced, reduced_phi, resolved, side_effect,
    stores_removed, unreachable_removed, MAX_OPT_ITERATIONS,
};
use crate::uses::{
    blocks_locals, operand_locals, operands_locals, place_locals, rvalue_locals, rvalue_operands,
    stmt_locals, stmts_locals, term_locals,
};

verus! {

// The shape of bodies that the laws speak of.

/// The local that a statement assigns as a whole.
pub open spec fn assigned(s: StmtV) -> Set<SsaLocal> {
    match s {
        StmtV::Assign { dest: PlaceV::Ssa(d), .. } => set![d],
        _ => Set::empty(),
    }
}

/// The locals that the statements assign.
pub open spec fn all_assigned(stmts: Seq<StmtV>) -> Set<SsaLocal>
    decreases stmts.len(),
{
    if stmts.len() == 0 {
        Set::empty()
    } else {
        all_assigned(stmts.drop_last()).union(assigned(stmts.last()))
    }
}

/// The locals that the statements read.
pub open spec fn all_read(stmts: Seq<StmtV>) -> Set<SsaLocal>
    decreases stmts.len(),
{
    if stmts.len() == 0 {
        Set::empty()
    } else {
        all_read(stmts.drop_last()).union(stmt_locals(stmts.last()))
    }
}

/// Whether the statements of a block are in static single assignment form: none assigns
/// a local that it reads, or that a statement before it reads or assigns.
pub open spec fn orderly(stmts: Seq<StmtV>) -> bool
    decreases stmts.len(),
{
    stmts.len() == 0 || {
        &&& orderly(stmts.drop_last())
        &&& assigned(stmts.last()).disjoint(all_read(stmts))
        &&& assigned(stmts.last()).disjoint(all_assigned(stmts.drop_last()))
    }
}

/// Whether an operand equals no other operand.
pub open spec fn exact_operand(o: OperandV) -> bool {
    forall|p: OperandV| operand_eq(o, p) ==> o == p
}

/// Whether a comparison compares constants or operands that equal no others. The only
/// operands that equal others index by a floating-point zero.
pub open spec fn tidy_rvalue(rv: RvalueV) -> bool {
    rv matches RvalueV::BinaryOp(op, l, r) ==> (l is Constant || exact_operand(l))
}

/// Whether the comparisons of a statement do.
pub open spec fn tidy(s: StmtV) -> bool {
    match s {
        StmtV::Assign { value, .. } | StmtV::ExprStmt(value) => tidy_rvalue(value),
        _ => true,
    }
}

/// Whether the blocks are in static single assignment form each, hold no phis and name
/// only blocks that exist.
pub open spec fn body_ok(blocks: Seq<BlockV>) -> bool {
    &&& targets_ok(blocks)
    &&& blocks.len() <= usize::MAX
    &&& no_phis(blocks)
    &&& forall|i: int| 0 <= i < blocks.len() ==> orderly((#[trigger] blocks[i]).stmts)
    &&& forall|i: int, j: int|
        0 <= i < blocks.len() && 0 <= j < blocks[i].stmts.len() ==> tidy(
            #[trigger] blocks[i].stmts[j],
        )
}

// Folding.

/// Whether a store holds what is known of it.
pub open spec fn consistent(known: Known, st: Store) -> bool {
    &&& forall|s: SsaLocal| #[trigger]
        known.consts.contains_key(s) ==> st.regs[s] == known.consts[s]
    &&& forall|s: SsaLocal| #[trigger]
        known.copies.contains_key(s) ==> match known.copies[s] {
            OperandV::Copy(PlaceV::Ssa(x)) | OperandV::Move(PlaceV::Ssa(x)) => st.regs[s]
                == st.regs[x],
            _ => false,
        }
}

/// Folding an operand keeps its value.
pub proof fn lemma_operand_kept(m: Machine, o: OperandV, known: Known, st: Store)
    requires
        consistent(known, st),
    ensures
        value_of(m, folded_operand(o, known), st) == value_of(m, o, st),
{
    match o {
        OperandV::Copy(PlaceV::Ssa(s)) | OperandV::Move(PlaceV::Ssa(s)) => {
            if known.consts.contains_key(s) {
            } else if known.copies.contains_key(s) {
                match known.copies[s] {
                    OperandV::Copy(PlaceV::Ssa(x)) | OperandV::Move(PlaceV::Ssa(x)) => {},
                    _ => {},
                }
            }
        },
        _ => {},
    }
}

proof fn lemma_operands_kept(m: Machine, ops: Seq<OperandV>, known: Known, st: Store)
    requires
        consistent(known, st),
    ensures
        settled_operands(m, folded_operands(ops, known), st) == settled_operands(m, ops, st),
{
    assert forall|i: int| 0 <= i < ops.len() implies value_of(
        m,
        folded_operand(#[trigger] ops[i], known),
        st,
    ) == value_of(m, ops[i], st) by {
        lemma_operand_kept(m, ops[i], known, st);
    }
    assert(settled_operands(m, folded_operands(ops, known), st) =~= settled_operands(m, ops, st));
}

/// Folding an operand keeps it exact, a constant apart.
proof fn lemma_folded_exact(o: OperandV, known: Known, st: Store)
    requires
        consistent(known, st),
        o is Constant || exact_operand(o),
    ensures
        folded_operand(o, known) is Constant || exact_operand(folded_operand(o, known)),
{
    let f = folded_operand(o, known);
    if f != o && !(f is Constant) {
        match o {
            OperandV::Copy(PlaceV::Ssa(s)) | OperandV::Move(PlaceV::Ssa(s)) => {
                assert(known.copies.contains_key(s));
            },
            _ => {},
        }
        assert forall|p: OperandV| operand_eq(f, p) implies f == p by {
            match f {
                OperandV::Copy(PlaceV::Ssa(x)) | OperandV::Move(PlaceV::Ssa(x)) => {
                    match p {
                        OperandV::Copy(q) | OperandV::Move(q) => {
                            assert(q is Ssa);
                        },
                        _ => {},
                    }
                },
                _ => {},
            }
        }
    }
}

/// Folding a right-hand side keeps its value and its effect.
pub proof fn lemma_rvalue_kept(m: Machine, rv: RvalueV, known: Known, st: Store)
    requires
        consistent(known, st),
        rvalue_truthful(m, rv, st),
        tidy_rvalue(rv),
    ensures
        given(m, folded_rvalue(rv, known), st) == given(m, rv, st),
        memory_after(m, folded_rvalue(rv, known), st) == memory_after(m, rv, st),
        rvalue_truthful(m, folded_rvalue(rv, known), st),
        tidy_rvalue(folded_rvalue(rv, known)),
{
    let f = folded_rvalue(rv, known);
    match rv {
        RvalueV::BinaryOp(op, left, right) => {
            lemma_computed(op, value_of(m, left, st), value_of(m, right, st));
            let l = folded_operand(left, known);
            let r = folded_operand(right, known);
            lemma_operand_kept(m, left, known, st);
            lemma_operand_kept(m, right, known, st);
            lemma_folded_exact(left, known, st);
            if constant_result(op, l, r) is None {
                if identity_of(op, l, r) is Some {
                    if (op == BinaryOp::Eq || op == BinaryOp::Neq) && operand_eq(l, r) {
                        if l is Constant {
                            let x = l->Constant_0;
                            let y = r->Constant_0;
                            assert(fold_binary(op, x, y) is None);
                            assert(x == y);
                        } else {
                            assert(l == r);
                        }
                    }
                }
            }
        },
        RvalueV::UnaryOp(op, o) => {
            lemma_operand_kept(m, o, known, st);
        },
        RvalueV::Use(o) => {
            lemma_operand_kept(m, o, known, st);
        },
        RvalueV::Cast(o, ty) => {
            lemma_operand_kept(m, o, known, st);
        },
        RvalueV::Call { args, .. } => {
            lemma_operands_kept(m, args, known, st);
        },
        RvalueV::MethodCall { receiver, args, .. } => {
            lemma_operand_kept(m, receiver, known, st);
            lemma_operands_kept(m, args, known, st);
        },
        RvalueV::StructInit { fields, .. } => {
            assert forall|i: int| 0 <= i < fields.len() implies value_of(
                m,
                folded_operand((#[trigger] fields[i]).1, known),
                st,
            ) == value_of(m, fields[i].1, st) by {
                lemma_operand_kept(m, fields[i].1, known, st);
            }
            assert(settled(m, f, st)->fields =~= settled(m, rv, st)->fields);
        },
        RvalueV::EnumVariantConstruction { args, .. } => {
            lemma_operands_kept(m, args, known, st);
        },
        RvalueV::ArrayLiteral(es) => {
            lemma_operands_kept(m, es, known, st);
        },
        RvalueV::Discriminant { value, .. } => {
            lemma_operand_kept(m, value, known, st);
        },
        _ => {},
    }
}

/// A folded statement does what the statement does.
pub proof fn lemma_stmt_kept(m: Machine, s: StmtV, known: Known, st: Store)
    requires
        consistent(known, st),
        stmt_truthful(m, s, st),
        tidy(s),
    ensures
        step(m, folded_stmt(s, known), st) == step(m, s, st),
        stmt_truthful(m, folded_stmt(s, known), st),
        tidy(folded_stmt(s, known)),
{
    match s {
        StmtV::Assign { value, .. } | StmtV::ExprStmt(value) => {
            lemma_rvalue_kept(m, value, known, st);
        },
        _ => {},
    }
}

/// Whether what is known speaks only of locals in `keys`, and of copies of locals in
/// `sources`.
spec fn within(known: Known, keys: Set<SsaLocal>, sources: Set<SsaLocal>) -> bool {
    &&& forall|s: SsaLocal| #[trigger] known.consts.contains_key(s) ==> keys.contains(s)
    &&& forall|s: SsaLocal| #[trigger]
        known.copies.contains_key(s) ==> keys.contains(s) && match known.copies[s] {
            OperandV::Copy(PlaceV::Ssa(x)) | OperandV::Move(PlaceV::Ssa(x)) => sources.contains(x),
            _ => false,
        }
}

/// Folding an operand reads no more than the operand and the sources of copies.
proof fn lemma_folded_operand_reads(
    o: OperandV,
    known: Known,
    keys: Set<SsaLocal>,
    sources: Set<SsaLocal>,
)
    requires
        within(known, keys, sources),
    ensures
        operand_locals(folded_operand(o, known)).subset_of(operand_locals(o).union(sources)),
{
    match o {
        OperandV::Copy(PlaceV::Ssa(s)) | OperandV::Move(PlaceV::Ssa(s)) => {
            if !known.consts.contains_key(s) && known.copies.contains_key(s) {
                match known.copies[s] {
                    OperandV::Copy(PlaceV::Ssa(x)) | OperandV::Move(PlaceV::Ssa(x)) => {
                        assert(place_locals(PlaceV::Ssa(x)) == set![x]);
                    },
                    _ => {},
                }
            }
        },
        _ => {},
    }
}

proof fn lemma_folded_operands_reads(
    ops: Seq<OperandV>,
    known: Known,
    keys: Set<SsaLocal>,
    sources: Set<SsaLocal>,
)
    requires
        within(known, keys, sources),
    ensures
        operands_locals(folded_operands(ops, known)).subset_of(
            operands_locals(ops).union(sources),
        ),
    decreases ops.len(),
{
    if ops.len() > 0 {
        let f = folded_operands(ops, known);
        assert(f.drop_last() =~= folded_operands(ops.drop_last(), known));
        lemma_folded_operands_reads(ops.drop_last(), known, keys, sources);
        lemma_folded_operand_reads(ops.last(), known, keys, sources);
    }
}

proof fn lemma_two_reads(l: OperandV, r: OperandV)
    ensures
        operands_locals(seq![l, r]) == operand_locals(l).union(operand_locals(r)),
        operands_locals(seq![l]) == operand_locals(l),
{
    assert(seq![l, r].drop_last() =~= seq![l]);
    assert(seq![l].drop_last() =~= Seq::<OperandV>::empty());
    assert(operands_locals(Seq::<OperandV>::empty()) =~= Set::empty());
    assert(operands_locals(seq![l]) =~= operand_locals(l));
    assert(operands_locals(seq![l, r]) =~= operand_locals(l).union(operand_locals(r)));
}

proof fn lemma_folded_rvalue_reads(
    rv: RvalueV,
    known: Known,
    keys: Set<SsaLocal>,
    sources: Set<SsaLocal>,
)
    requires
        within(known, keys, sources),
    ensures
        rvalue_locals(folded_rvalue(rv, known)).subset_of(rvalue_locals(rv).union(sources)),
        folded_rvalue(rv, known) is Phi <==> rv is Phi,
{
    let f = folded_rvalue(rv, known);
    match rv {
        RvalueV::BinaryOp(op, left, right) => {
            let l = folded_operand(left, known);
            let r = folded_operand(right, known);
            lemma_folded_operand_reads(left, known, keys, sources);
            lemma_folded_operand_reads(right, known, keys, sources);
            lemma_two_reads(left, right);
            lemma_two_reads(l, r);
            lemma_two_reads(r, r);
            match f {
                RvalueV::Use(o) => {
                    lemma_two_reads(o, o);
                },
                _ => {},
            }
        },
        RvalueV::UnaryOp(_, o) | RvalueV::Use(o) | RvalueV::Cast(o, _) => {
            lemma_folded_operand_reads(o, known, keys, sources);
            lemma_two_reads(o, o);
            lemma_two_reads(folded_operand(o, known), o);
            match f {
                RvalueV::Use(p) => {
                    lemma_two_reads(p, p);
                },
                _ => {},
            }
        },
        RvalueV::Discriminant { value, .. } => {
            lemma_folded_operand_reads(value, known, keys, sources);
            lemma_two_reads(value, value);
            lemma_two_reads(folded_operand(value, known), value);
        },
        RvalueV::Call { args, .. } => {
            lemma_folded_operands_reads(args, known, keys, sources);
        },
        RvalueV::EnumVariantConstruction { args, .. } => {
            lemma_folded_operands_reads(args, known, keys, sources);
        },
        RvalueV::ArrayLiteral(es) => {
            lemma_folded_operands_reads(es, known, keys, sources);
        },
        RvalueV::MethodCall { receiver, args, .. } => {
            let all = seq![receiver] + args;
            lemma_folded_operands_reads(all, known, keys, sources);
            assert(rvalue_operands(f) =~= folded_operands(all, known));
        },
        RvalueV::StructInit { fields, .. } => {
            let all = rvalue_operands(rv);
            lemma_folded_operands_reads(all, known, keys, sources);
            assert(rvalue_operands(f) =~= folded_operands(all, known));
        },
        _ => {},
    }
}

/// The statements of a block, folded.
pub open spec fn folded_stmts(stmts: Seq<StmtV>, copied: Set<usize>) -> Seq<StmtV> {
    Seq::new(stmts.len(), |i: int| folded_stmt(stmts[i], known_at(stmts, i, copied)))
}

proof fn lemma_known_prefix(stmts: Seq<StmtV>, i: int, copied: Set<usize>)
    requires
        0 <= i < stmts.len(),
    ensures
        known_at(stmts.drop_last(), i, copied) == known_at(stmts, i, copied),
    decreases i,
{
    if i > 0 {
        lemma_known_prefix(stmts, i - 1, copied);
    }
}

proof fn lemma_folded_prefix(stmts: Seq<StmtV>, copied: Set<usize>)
    requires
        stmts.len() > 0,
    ensures
        folded_stmts(stmts, copied) == folded_stmts(stmts.drop_last(), copied).push(
            folded_stmt(
                stmts.last(),
                known_at(stmts.drop_last(), stmts.len() - 1, copied),
            ),
        ),
        known_at(stmts, stmts.len() as int, copied) == known_after(
            stmts.last(),
            known_at(stmts.drop_last(), stmts.len() - 1, copied),
            copied,
        ),
{
    assert forall|i: int| 0 <= i < stmts.len() implies #[trigger] known_at(
        stmts.drop_last(),
        i,
        copied,
    ) == known_at(stmts, i, copied) by {
        lemma_known_prefix(stmts, i, copied);
    }
    assert(folded_stmts(stmts, copied) =~= folded_stmts(stmts.drop_last(), copied).push(
        folded_stmt(stmts.last(), known_at(stmts.drop_last(), stmts.len() - 1, copied)),
    ));
}

/// What is known after some statements speaks of what they assign and read; folded, they
/// assign the same and read no more.
proof fn lemma_known_within(stmts: Seq<StmtV>, copied: Set<usize>)
    ensures
        within(known_at(stmts, stmts.len() as int, copied), all_assigned(stmts), all_read(stmts)),
        all_assigned(folded_stmts(stmts, copied)) == all_assigned(stmts),
        all_read(folded_stmts(stmts, copied)).subset_of(all_read(stmts)),
    decreases stmts.len(),
{
    if stmts.len() > 0 {
        let front = stmts.drop_last();
        let last = stmts.last();
        let n = stmts.len() - 1;
        lemma_known_within(front, copied);
        lemma_folded_prefix(stmts, copied);
        let known = known_at(front, n, copied);
        let f = folded_stmt(last, known);
        let fs = folded_stmts(stmts, copied);
        assert(fs.drop_last() =~= folded_stmts(front, copied));
        match last {
            StmtV::Assign { value, .. } | StmtV::ExprStmt(value) => {
                lemma_folded_rvalue_reads(value, known, all_assigned(front), all_read(front));
            },
            _ => {},
        }
        assert(stmt_locals(f).subset_of(stmt_locals(last).union(all_read(front))));
        let after = known_at(stmts, stmts.len() as int, copied);
        match last {
            StmtV::Assign { dest: PlaceV::Ssa(d), value } => {
                match folded_rvalue(value, known) {
                    RvalueV::Use(o) => {
                        lemma_two_reads(o, o);
                        assert(operand_locals(o).subset_of(all_read(stmts)));
                        match o {
                            OperandV::Copy(PlaceV::Ssa(x)) | OperandV::Move(PlaceV::Ssa(x)) => {
                                assert(place_locals(PlaceV::Ssa(x)).contains(x));
                                assert(operand_locals(o).contains(x));
                            },
                            _ => {},
                        }
                    },
                    _ => {},
                }
            },
            _ => {},
        }
    }
}


/// A folded block does, statement by statement, what the block does; and what folding
/// knows is so.
pub(crate) proof fn lemma_block_kept(
    m: Machine,
    start: Store,
    h: Seq<StmtV>,
    h2: Seq<StmtV>,
    stmts: Seq<StmtV>,
    copied: Set<usize>,
)
    requires
        store_after(m, start, h) == store_after(m, start, h2),
        trace_truthful(m, start, h2),
        trace_truthful(m, start, h + stmts),
        orderly(stmts),
        forall|i: int| 0 <= i < stmts.len() ==> tidy(#[trigger] stmts[i]),
    ensures
        store_after(m, start, h + stmts) == store_after(
            m,
            start,
            h2 + folded_stmts(stmts, copied),
        ),
        trace_truthful(m, start, h2 + folded_stmts(stmts, copied)),
        consistent(
            known_at(stmts, stmts.len() as int, copied),
            store_after(m, start, h + stmts),
        ),
    decreases stmts.len(),
{
    let fs = folded_stmts(stmts, copied);
    if stmts.len() == 0 {
        assert(h + stmts =~= h);
        assert(h2 + fs =~= h2);
    } else {
        let front = stmts.drop_last();
        let last = stmts.last();
        let n = stmts.len() - 1;
        assert(h + stmts =~= (h + front).push(last));
        lemma_store_push(m, start, h + front, last);
        assert forall|i: int| 0 <= i < front.len() implies tidy(#[trigger] front[i]) by {
            assert(front[i] == stmts[i]);
        }
        lemma_block_kept(m, start, h, h2, front, copied);
        lemma_folded_prefix(stmts, copied);
        let known = known_at(front, n, copied);
        let st = store_after(m, start, h + front);
        let f = folded_stmt(last, known);
        let ff = folded_stmts(front, copied);
        assert(h2 + fs =~= (h2 + ff).push(f));
        lemma_store_push(m, start, h2 + ff, f);
        assert(tidy(stmts[n]));
        lemma_stmt_kept(m, last, known, st);
        lemma_known_within(front, copied);
        lemma_known_within(stmts, copied);
        let after = known_at(stmts, stmts.len() as int, copied);
        let st2 = step(m, last, st);
        match last {
            StmtV::Assign { dest: PlaceV::Ssa(d), value } => {
                lemma_rvalue_kept(m, value, known, st);
                let fv = folded_rvalue(value, known);
                assert(assigned(last).contains(d));
                assert forall|s: SsaLocal| #[trigger]
                    after.consts.contains_key(s) implies st2.regs[s] == after.consts[s] by {
                    if s != d {
                        assert(known.consts.contains_key(s));
                    } else if known.consts.contains_key(s) {
                        assert(all_assigned(front).contains(s));
                    }
                }
                assert forall|s: SsaLocal| #[trigger]
                    after.copies.contains_key(s) implies match after.copies[s] {
                    OperandV::Copy(PlaceV::Ssa(x)) | OperandV::Move(PlaceV::Ssa(x)) => st2.regs[s]
                        == st2.regs[x],
                    _ => false,
                } by {
                    match after.copies[s] {
                        OperandV::Copy(PlaceV::Ssa(x)) | OperandV::Move(PlaceV::Ssa(x)) => {
                            assert(all_read(stmts).contains(x));
                            assert(x != d);
                            if s != d {
                                assert(known.copies.contains_key(s));
                            } else if known.copies.contains_key(s) {
                                assert(all_assigned(front).contains(s));
                            }
                        },
                        _ => {},
                    }
                }
            },
            _ => {
                assert(after == known);
                assert(st2.regs == st.regs);
            },
        }
    }
}

/// A folded terminator passes control on as the terminator does.
pub(crate) proof fn lemma_term_kept(m: Machine, t: TermV, known: Known, start: Store, h: Seq<StmtV>, h2: Seq<StmtV>)
    requires
        store_after(m, start, h) == store_after(m, start, h2),
        consistent(known, store_after(m, start, h)),
    ensures
        next_block(folded_term(t, known), eval_of(m, start), h2) == next_block(
            t,
            eval_of(m, start),
            h,
        ),
        next_block(t, eval_of(m, start), h) is None ==> folded_term(t, known) == t,
{
    let st = store_after(m, start, h);
    match t {
        TermV::If { cond, .. } => {
            lemma_operand_kept(m, cond, known, st);
        },
        TermV::Switch { discr, .. } => {
            lemma_operand_kept(m, discr, known, st);
        },
        _ => {},
    }
}

/// A run of a body is matched by a run of the folded body.
proof fn lemma_folded_run(
    blocks: Seq<BlockV>,
    copied: Set<usize>,
    m: Machine,
    start: Store,
    b: int,
    h: Seq<StmtV>,
    h2: Seq<StmtV>,
    n: nat,
) -> (o2: Outcome)
    requires
        body_ok(blocks),
        run(blocks, eval_of(m, start), b, h, n) is Some,
        trace_truthful(m, start, run(blocks, eval_of(m, start), b, h, n)->0.trace),
        store_after(m, start, h) == store_after(m, start, h2),
        trace_truthful(m, start, h2),
    ensures
        run(blocks_folded(blocks, copied), eval_of(m, start), b, h2, n) == Some(o2),
        o2.end == run(blocks, eval_of(m, start), b, h, n)->0.end,
        store_after(m, start, o2.trace) == store_after(
            m,
            start,
            run(blocks, eval_of(m, start), b, h, n)->0.trace,
        ),
        trace_truthful(m, start, o2.trace),
    decreases n,
{
    let eval = eval_of(m, start);
    let r = blocks_folded(blocks, copied);
    let o = run(blocks, eval, b, h, n)->0;
    let stmts = blocks[b].stmts;
    let after = h + stmts;
    let fs = folded_stmts(stmts, copied);
    let after2 = h2 + fs;
    let t = blocks[b].terminator;
    let known = known_at(stmts, stmts.len() as int, copied);
    assert(r[b].stmts =~= fs);
    assert forall|j: int| 0 <= j < stmts.len() implies tidy(#[trigger] stmts[j]) by {
        assert(tidy(blocks[b].stmts[j]));
    }
    assert(orderly(blocks[b].stmts));
    match next_block(t, eval, after) {
        None => {
            lemma_block_kept(m, start, h, h2, stmts, copied);
            lemma_term_kept(m, t, known, start, after, after2);
            Outcome { trace: after2, end: t }
        },
        Some(x) => {
            let rest = lemma_run_extends(blocks, eval, x as int, after, (n - 1) as nat);
            lemma_truthful_prefix(m, start, after, rest);
            lemma_block_kept(m, start, h, h2, stmts, copied);
            lemma_term_kept(m, t, known, start, after, after2);
            lemma_folded_run(
                blocks,
                copied,
                m,
                start,
                x as int,
                after,
                after2,
                (n - 1) as nat,
            )
        },
    }
}

/// Folding keeps what a body yields.
pub proof fn lemma_folded_yields(
    blocks: Seq<BlockV>,
    copied: Set<usize>,
    m: Machine,
    start: Store,
    r: Seen,
)
    requires
        body_ok(blocks),
        yields(blocks, m, start, r),
    ensures
        yields(blocks_folded(blocks, copied), m, start, r),
{
    let eval = eval_of(m, start);
    let e = Seq::<StmtV>::empty();
    let o = choose|o: Outcome| #[trigger]
        finishes(blocks, eval, 0, e, o) && trace_truthful(m, start, o.trace) && seen(m, start, o)
            == r;
    let n = choose|n: nat| #[trigger] run(blocks, eval, 0, e, n) == Some(o);
    let o2 = lemma_folded_run(blocks, copied, m, start, 0, e, e, n);
    assert(finishes(blocks_folded(blocks, copied), eval, 0, e, o2));
    assert(seen(m, start, o2) == r);
}

proof fn lemma_folded_orderly(stmts: Seq<StmtV>, copied: Set<usize>)
    requires
        orderly(stmts),
    ensures
        orderly(folded_stmts(stmts, copied)),
    decreases stmts.len(),
{
    if stmts.len() > 0 {
        let front = stmts.drop_last();
        lemma_folded_orderly(front, copied);
        lemma_folded_prefix(stmts, copied);
        lemma_known_within(stmts, copied);
        lemma_known_within(front, copied);
        let fs = folded_stmts(stmts, copied);
        assert(fs.drop_last() =~= folded_stmts(front, copied));
        assert(assigned(fs.last()) == assigned(stmts.last()));
    }
}

/// Folding keeps a comparison tidy.
proof fn lemma_folded_tidy(s: StmtV, known: Known, keys: Set<SsaLocal>, sources: Set<SsaLocal>)
    requires
        tidy(s),
        within(known, keys, sources),
    ensures
        tidy(folded_stmt(s, known)),
        is_phi(folded_stmt(s, known)) <==> is_phi(s),
{
    match s {
        StmtV::Assign { value, .. } | StmtV::ExprStmt(value) => {
            lemma_folded_rvalue_reads(value, known, keys, sources);
            match value {
                RvalueV::BinaryOp(op, l, r) => {
                    let f = folded_operand(l, known);
                    if f != l && !(f is Constant) {
                        assert forall|p: OperandV| operand_eq(f, p) implies f == p by {
                            match f {
                                OperandV::Copy(PlaceV::Ssa(x)) | OperandV::Move(PlaceV::Ssa(x)) => {
                                    match p {
                                        OperandV::Copy(q) | OperandV::Move(q) => {
                                            assert(q is Ssa);
                                        },
                                        _ => {},
                                    }
                                },
                                _ => {},
                            }
                        }
                    }
                },
                _ => {},
            }
        },
        _ => {},
    }
}

pub(crate) proof fn lemma_folded_ok(blocks: Seq<BlockV>, copied: Set<usize>)
    requires
        body_ok(blocks),
    ensures
        body_ok(blocks_folded(blocks, copied)),
{
    let r = blocks_folded(blocks, copied);
    lemma_opt_round_ok(blocks, copied);
    assert forall|i: int, j: int|
        0 <= i < r.len() && 0 <= j < r[i].stmts.len() implies tidy(#[trigger] r[i].stmts[j])
        && !is_phi(r[i].stmts[j]) by {
        let stmts = blocks[i].stmts;
        assert(tidy(blocks[i].stmts[j]));
        assert(!has_phi(blocks[i]));
        assert(!is_phi(blocks[i].stmts[j]));
        let front = stmts.take(j);
        lemma_known_within(front, copied);
        lemma_known_take(stmts, j, j, copied);
        lemma_folded_tidy(
            stmts[j],
            known_at(stmts, j, copied),
            all_assigned(front),
            all_read(front),
        );
    }
    assert forall|i: int| 0 <= i < r.len() implies orderly((#[trigger] r[i]).stmts) && !has_phi(
        r[i],
    ) by {
        assert(orderly(blocks[i].stmts));
        lemma_folded_orderly(blocks[i].stmts, copied);
        assert(r[i].stmts =~= folded_stmts(blocks[i].stmts, copied));
        if has_phi(r[i]) {
            let j = choose|j: int| 0 <= j < r[i].stmts.len() && is_phi(#[trigger] r[i].stmts[j]);
            assert(tidy(r[i].stmts[j]) && !is_phi(r[i].stmts[j]));
        }
    }
}

proof fn lemma_known_take(stmts: Seq<StmtV>, n: int, i: int, copied: Set<usize>)
    requires
        0 <= i <= n <= stmts.len(),
    ensures
        known_at(stmts.take(n), i, copied) == known_at(stmts, i, copied),
    decreases i,
{
    if i > 0 {
        lemma_known_take(stmts, n, i - 1, copied);
    }
}

// Dead stores.

/// Whether two stores agree on the memory and on the given registers.
pub open spec fn alike(used: Set<SsaLocal>, a: Store, b: Store) -> bool {
    &&& a.memory == b.memory
    &&& forall|s: SsaLocal| #[trigger] used.contains(s) ==> a.regs[s] == b.regs[s]
}

proof fn lemma_spot_alike(m: Machine, p: PlaceV, used: Set<SsaLocal>, a: Store, b: Store)
    requires
        alike(used, a, b),
        place_locals(p).subset_of(used),
    ensures
        spot_of(m, p, a) == spot_of(m, p, b),
    decreases p,
{
    match p {
        PlaceV::Ssa(s) => {
            assert(place_locals(p).contains(s));
        },
        PlaceV::Field { base, .. } => {
            lemma_spot_alike(m, *base, used, a, b);
        },
        PlaceV::Index { base, index } => {
            assert(place_locals(*base).subset_of(place_locals(p)));
            assert(operand_locals(*index).subset_of(place_locals(p)));
            lemma_spot_alike(m, *base, used, a, b);
            lemma_value_alike(m, *index, used, a, b);
        },
        PlaceV::Deref(base) => {
            lemma_spot_alike(m, *base, used, a, b);
        },
        PlaceV::EnumPayload { base, .. } => {
            lemma_spot_alike(m, *base, used, a, b);
        },
    }
}

pub(crate) proof fn lemma_value_alike(m: Machine, o: OperandV, used: Set<SsaLocal>, a: Store, b: Store)
    requires
        alike(used, a, b),
        operand_locals(o).subset_of(used),
    ensures
        value_of(m, o, a) == value_of(m, o, b),
    decreases o,
{
    match o {
        OperandV::Copy(p) | OperandV::Move(p) => {
            lemma_spot_alike(m, p, used, a, b);
            if let PlaceV::Ssa(s) = p {
                assert(place_locals(p).contains(s));
            }
        },
        _ => {},
    }
}

proof fn lemma_operand_among(ops: Seq<OperandV>, i: int)
    requires
        0 <= i < ops.len(),
    ensures
        operand_locals(ops[i]).subset_of(operands_locals(ops)),
    decreases ops.len(),
{
    if i < ops.len() - 1 {
        lemma_operand_among(ops.drop_last(), i);
    }
}

proof fn lemma_rvalue_alike(m: Machine, rv: RvalueV, used: Set<SsaLocal>, a: Store, b: Store)
    requires
        alike(used, a, b),
        rvalue_locals(rv).subset_of(used),
    ensures
        given(m, rv, a) == given(m, rv, b),
        memory_after(m, rv, a) == memory_after(m, rv, b),
        rvalue_truthful(m, rv, a) == rvalue_truthful(m, rv, b),
{
    let ops = rvalue_operands(rv);
    if !(rv is Ref) {
        assert forall|i: int| 0 <= i < ops.len() implies value_of(m, #[trigger] ops[i], a)
            == value_of(m, ops[i], b) by {
            lemma_operand_among(ops, i);
            lemma_value_alike(m, ops[i], used, a, b);
        }
    }
    match rv {
        RvalueV::Ref { place, .. } => {
            lemma_spot_alike(m, place, used, a, b);
        },
        RvalueV::BinaryOp(_, l, r) => {
            assert(ops[0] == l && ops[1] == r);
        },
        RvalueV::Use(o) | RvalueV::UnaryOp(_, o) | RvalueV::Cast(o, _) => {
            assert(ops[0] == o);
        },
        RvalueV::Discriminant { value, .. } => {
            assert(ops[0] == value);
        },
        RvalueV::Call { args, .. } => {
            assert(settled_operands(m, args, a) =~= settled_operands(m, args, b));
        },
        RvalueV::EnumVariantConstruction { args, .. } => {
            assert(settled_operands(m, args, a) =~= settled_operands(m, args, b));
        },
        RvalueV::ArrayLiteral(es) => {
            assert(settled_operands(m, es, a) =~= settled_operands(m, es, b));
        },
        RvalueV::MethodCall { receiver, args, .. } => {
            assert(ops[0] == receiver);
            assert forall|i: int| 0 <= i < args.len() implies value_of(m, #[trigger] args[i], a)
                == value_of(m, args[i], b) by {
                assert(ops[i + 1] == args[i]);
            }
            assert(settled_operands(m, args, a) =~= settled_operands(m, args, b));
        },
        RvalueV::StructInit { fields, .. } => {
            assert forall|i: int| 0 <= i < fields.len() implies value_of(
                m,
                (#[trigger] fields[i]).1,
                a,
            ) == value_of(m, fields[i].1, b) by {
                assert(ops[i] == fields[i].1);
            }
            assert(settled(m, rv, a)->fields =~= settled(m, rv, b)->fields);
        },
        RvalueV::Phi { .. } => {},
    }
}

/// A statement that reads only registers on which two stores agree takes them to stores
/// that agree.
proof fn lemma_step_alike(m: Machine, s: StmtV, used: Set<SsaLocal>, a: Store, b: Store)
    requires
        alike(used, a, b),
        stmt_locals(s).subset_of(used),
    ensures
        alike(used, step(m, s, a), step(m, s, b)),
        stmt_truthful(m, s, a) == stmt_truthful(m, s, b),
{
    match s {
        StmtV::Assign { dest, value } => {
            assert(rvalue_locals(value).subset_of(stmt_locals(s)));
            lemma_rvalue_alike(m, value, used, a, b);
            if !(dest is Ssa) {
                assert(place_locals(dest).subset_of(stmt_locals(s)));
                lemma_spot_alike(m, dest, used, a, b);
            }
        },
        StmtV::ExprStmt(value) => {
            lemma_rvalue_alike(m, value, used, a, b);
        },
        StmtV::Drop { place } => {
            lemma_spot_alike(m, place, used, a, b);
        },
        StmtV::SetMetadata { place, .. } => {
            lemma_spot_alike(m, place, used, a, b);
        },
        _ => {},
    }
}

/// A block without its dead stores takes stores that agree to stores that agree.
pub(crate) proof fn lemma_live_block(
    m: Machine,
    start: Store,
    h: Seq<StmtV>,
    h2: Seq<StmtV>,
    stmts: Seq<StmtV>,
    used: Set<SsaLocal>,
)
    requires
        alike(used, store_after(m, start, h), store_after(m, start, h2)),
        trace_truthful(m, start, h2),
        trace_truthful(m, start, h + stmts),
        forall|i: int| 0 <= i < stmts.len() ==> stmt_locals(#[trigger] stmts[i]).subset_of(used),
    ensures
        alike(
            used,
            store_after(m, start, h + stmts),
            store_after(m, start, h2 + live_stmts(stmts, used)),
        ),
        trace_truthful(m, start, h2 + live_stmts(stmts, used)),
    decreases stmts.len(),
{
    let live = live_stmts(stmts, used);
    if stmts.len() == 0 {
        assert(h + stmts =~= h);
        assert(h2 + live =~= h2);
    } else {
        let front = stmts.drop_last();
        let last = stmts.last();
        assert(h + stmts =~= (h + front).push(last));
        lemma_store_push(m, start, h + front, last);
        assert forall|i: int| 0 <= i < front.len() implies stmt_locals(
            #[trigger] front[i],
        ).subset_of(used) by {
            assert(front[i] == stmts[i]);
        }
        lemma_live_block(m, start, h, h2, front, used);
        let lf = live_stmts(front, used);
        let a = store_after(m, start, h + front);
        let b = store_after(m, start, h2 + lf);
        if dead_store(last, used) {
        } else {
            assert(h2 + live =~= (h2 + lf).push(last));
            lemma_store_push(m, start, h2 + lf, last);
            assert(stmts[stmts.len() - 1] == last);
            lemma_step_alike(m, last, used, a, b);
        }
    }
}

pub(crate) proof fn lemma_stmt_used(stmts: Seq<StmtV>, n: int, j: int)
    requires
        0 <= j < n <= stmts.len(),
    ensures
        stmt_locals(stmts[j]).subset_of(stmts_locals(stmts, n)),
    decreases n,
{
    if j < n - 1 {
        lemma_stmt_used(stmts, n - 1, j);
    }
}

pub(crate) proof fn lemma_block_used(blocks: Seq<BlockV>, n: int, i: int)
    requires
        0 <= i < n <= blocks.len(),
    ensures
        stmts_locals(blocks[i].stmts, blocks[i].stmts.len() as int).subset_of(
            blocks_locals(blocks, n),
        ),
        term_locals(blocks[i].terminator).subset_of(blocks_locals(blocks, n)),
    decreases n,
{
    if i < n - 1 {
        lemma_block_used(blocks, n - 1, i);
    }
}

/// A run of a body is matched by a run of the body without dead stores.
proof fn lemma_live_run(
    blocks: Seq<BlockV>,
    m: Machine,
    start: Store,
    b: int,
    h: Seq<StmtV>,
    h2: Seq<StmtV>,
    n: nat,
) -> (o2: Outcome)
    requires
        run(blocks, eval_of(m, start), b, h, n) is Some,
        trace_truthful(m, start, run(blocks, eval_of(m, start), b, h, n)->0.trace),
        alike(
            blocks_locals(blocks, blocks.len() as int),
            store_after(m, start, h),
            store_after(m, start, h2),
        ),
        trace_truthful(m, start, h2),
    ensures
        run(stores_removed(blocks), eval_of(m, start), b, h2, n) == Some(o2),
        o2.end == run(blocks, eval_of(m, start), b, h, n)->0.end,
        term_locals(o2.end).subset_of(blocks_locals(blocks, blocks.len() as int)),
        alike(
            blocks_locals(blocks, blocks.len() as int),
            store_after(m, start, run(blocks, eval_of(m, start), b, h, n)->0.trace),
            store_after(m, start, o2.trace),
        ),
        trace_truthful(m, start, o2.trace),
    decreases n,
{
    let eval = eval_of(m, start);
    let r = stores_removed(blocks);
    let used = blocks_locals(blocks, blocks.len() as int);
    let stmts = blocks[b].stmts;
    let t = blocks[b].terminator;
    let after = h + stmts;
    let after2 = h2 + live_stmts(stmts, used);
    lemma_block_used(blocks, blocks.len() as int, b);
    assert forall|j: int| 0 <= j < stmts.len() implies stmt_locals(#[trigger] stmts[j]).subset_of(
        used,
    ) by {
        lemma_stmt_used(stmts, stmts.len() as int, j);
    }
    match next_block(t, eval, after) {
        None => {
            lemma_live_block(m, start, h, h2, stmts, used);
            assert(next_block(t, eval, after2) is None);
            Outcome { trace: after2, end: t }
        },
        Some(x) => {
            let rest = lemma_run_extends(blocks, eval, x as int, after, (n - 1) as nat);
            lemma_truthful_prefix(m, start, after, rest);
            lemma_live_block(m, start, h, h2, stmts, used);
            let a = store_after(m, start, after);
            let c = store_after(m, start, after2);
            match t {
                TermV::If { cond, .. } => {
                    lemma_value_alike(m, cond, used, a, c);
                },
                TermV::Switch { discr, .. } => {
                    lemma_value_alike(m, discr, used, a, c);
                },
                _ => {},
            }
            assert(next_block(t, eval, after2) == Some(x));
            lemma_live_run(blocks, m, start, x as int, after, after2, (n - 1) as nat)
        },
    }
}

/// Removing dead stores keeps what a body yields.
pub proof fn lemma_live_yields(blocks: Seq<BlockV>, m: Machine, start: Store, r: Seen)
    requires
        yields(blocks, m, start, r),
    ensures
        yields(stores_removed(blocks), m, start, r),
{
    let eval = eval_of(m, start);
    let e = Seq::<StmtV>::empty();
    let o = choose|o: Outcome| #[trigger]
        finishes(blocks, eval, 0, e, o) && trace_truthful(m, start, o.trace) && seen(m, start, o)
            == r;
    let n = choose|n: nat| #[trigger] run(blocks, eval, 0, e, n) == Some(o);
    let o2 = lemma_live_run(blocks, m, start, 0, e, e, n);
    assert(finishes(stores_removed(blocks), eval, 0, e, o2));
    let used = blocks_locals(blocks, blocks.len() as int);
    if let TermV::Return(Some(v)) = o.end {
        lemma_value_alike(
            m,
            v,
            used,
            store_after(m, start, o.trace),
            store_after(m, start, o2.trace),
        );
    }
    assert(seen(m, start, o2) == r);
}

proof fn lemma_live_reads(stmts: Seq<StmtV>, used: Set<SsaLocal>)
    ensures
        all_read(live_stmts(stmts, used)).subset_of(all_read(stmts)),
        all_assigned(live_stmts(stmts, used)).subset_of(all_assigned(stmts)),
        orderly(stmts) ==> orderly(live_stmts(stmts, used)),
    decreases stmts.len(),
{
    if stmts.len() > 0 {
        let front = stmts.drop_last();
        lemma_live_reads(front, used);
        let live = live_stmts(stmts, used);
        if !dead_store(stmts.last(), used) {
            assert(live.drop_last() =~= live_stmts(front, used));
        }
    }
}

proof fn lemma_live_among(stmts: Seq<StmtV>, used: Set<SsaLocal>, j: int) -> (i: int)
    requires
        0 <= j < live_stmts(stmts, used).len(),
    ensures
        0 <= i < stmts.len(),
        live_stmts(stmts, used)[j] == stmts[i],
    decreases stmts.len(),
{
    let front = stmts.drop_last();
    let lf = live_stmts(front, used);
    if j < lf.len() {
        lemma_live_among(front, used, j)
    } else {
        stmts.len() - 1
    }
}

pub(crate) proof fn lemma_live_ok(blocks: Seq<BlockV>)
    requires
        body_ok(blocks),
    ensures
        body_ok(stores_removed(blocks)),
{
    let r = stores_removed(blocks);
    let used = blocks_locals(blocks, blocks.len() as int);
    assert forall|i: int| 0 <= i < r.len() implies term_in_range(
        (#[trigger] r[i]).terminator,
        r.len() as int,
    ) by {
        assert(term_in_range(blocks[i].terminator, blocks.len() as int));
    }
    assert forall|i: int, j: int|
        0 <= i < r.len() && 0 <= j < r[i].stmts.len() implies tidy(#[trigger] r[i].stmts[j])
        && !is_phi(r[i].stmts[j]) by {
        let k = lemma_live_among(blocks[i].stmts, used, j);
        assert(tidy(blocks[i].stmts[k]));
        assert(!has_phi(blocks[i]));
        assert(!is_phi(blocks[i].stmts[k]));
    }
    assert forall|i: int| 0 <= i < r.len() implies orderly((#[trigger] r[i]).stmts) && !has_phi(
        r[i],
    ) by {
        assert(orderly(blocks[i].stmts));
        lemma_live_reads(blocks[i].stmts, used);
        if has_phi(r[i]) {
            let j = choose|j: int| 0 <= j < r[i].stmts.len() && is_phi(#[trigger] r[i].stmts[j]);
            assert(tidy(r[i].stmts[j]) && !is_phi(r[i].stmts[j]));
        }
    }
}

// Blocks that only jump.

proof fn lemma_landing_hops(blocks: Seq<BlockV>, t: usize, fuel: nat) -> (k: nat)
    requires
        landing(blocks, t, fuel) is Some,
    ensures
        hops(blocks, t, landing(blocks, t, fuel)->0, k),
    decreases fuel,
{
    match only_jumps(blocks, t as int) {
        Some(next) => {
            let k = lemma_landing_hops(blocks, next, (fuel - 1) as nat);
            k + 1
        },
        None => 0,
    }
}

pub(crate) proof fn lemma_resolved_hops(blocks: Seq<BlockV>, t: usize) -> (k: nat)
    ensures
        hops(blocks, t, resolved(blocks, t), k),
{
    match landing(blocks, t, blocks.len()) {
        Some(l) => lemma_landing_hops(blocks, t, blocks.len()),
        None => 0,
    }
}

/// A block that stays, in its new place.
pub(crate) proof fn lemma_collapsed_block(blocks: Seq<BlockV>, b: int)
    requires
        0 <= b < blocks.len(),
        collapse_keeps(blocks)[b],
    ensures
        ({
            let r = empties_collapsed(blocks);
            let a = rank(collapse_keeps(blocks), b);
            &&& 0 <= a < r.len()
            &&& r[a].stmts == blocks[b].stmts
            &&& r[a].terminator == retarget(blocks[b].terminator, collapsed_target(blocks))
        }),
{
    let all = Seq::new(
        blocks.len(),
        |i: int|
            BlockV {
                terminator: retarget(blocks[i].terminator, collapsed_target(blocks)),
                ..blocks[i]
            },
    );
    lemma_compact_index(all, collapse_keeps(blocks), blocks.len() as int, b);
}

proof fn lemma_collapse_forward(
    blocks: Seq<BlockV>,
    eval: Eval,
    b: int,
    trace: Seq<StmtV>,
    n: nat,
) -> (r: nat)
    requires
        targets_ok(blocks),
        0 <= b < blocks.len() <= usize::MAX,
        collapse_keeps(blocks)[b],
        run(blocks, eval, b, trace, n) is Some,
    ensures
        run(empties_collapsed(blocks), eval, rank(collapse_keeps(blocks), b), trace, r) == run(
            blocks,
            eval,
            b,
            trace,
            n,
        ),
    decreases n,
{
    lemma_collapsed_block(blocks, b);
    let t = blocks[b].terminator;
    let after = trace + blocks[b].stmts;
    lemma_next_retargeted(t, collapsed_target(blocks), eval, after);
    lemma_next_named(t, eval, after);
    match next_block(t, eval, after) {
        None => n,
        Some(x) => {
            let n1 = (n - 1) as nat;
            assert(term_in_range(t, blocks.len() as int));
            let i = choose|i: int| 0 <= i < successors_of(t).len() && successors_of(t)[i] == x;
            assert(successors_of(t)[i] < blocks.len());
            lemma_resolved_range(blocks, x);
            let l = resolved(blocks, x);
            let k = lemma_resolved_hops(blocks, x);
            if n1 < k {
                lemma_hops_run(blocks, eval, x, l, k, after, n1);
                assert(false);
                0
            } else {
                lemma_hops_run(blocks, eval, x, l, k, after, (n1 - k) as nat);
                lemma_collapsed_block(blocks, l as int);
                lemma_collapsed_len(blocks);
                let r = lemma_collapse_forward(
                    blocks,
                    eval,
                    l as int,
                    after,
                    (n1 - k) as nat,
                );
                r + 1
            }
        },
    }
}

pub(crate) proof fn lemma_collapsed_len(blocks: Seq<BlockV>)
    ensures
        empties_collapsed(blocks).len() <= blocks.len(),
{
    let all = Seq::new(
        blocks.len(),
        |i: int|
            BlockV {
                terminator: retarget(blocks[i].terminator, collapsed_target(blocks)),
                ..blocks[i]
            },
    );
    lemma_compact_len(all, collapse_keeps(blocks), blocks.len() as int);
    lemma_rank_bounds(collapse_keeps(blocks), blocks.len() as int);
}

proof fn lemma_collapse_backward(
    blocks: Seq<BlockV>,
    eval: Eval,
    b: int,
    trace: Seq<StmtV>,
    n: nat,
) -> (r: nat)
    requires
        targets_ok(blocks),
        0 <= b < blocks.len() <= usize::MAX,
        collapse_keeps(blocks)[b],
        run(empties_collapsed(blocks), eval, rank(collapse_keeps(blocks), b), trace, n) is Some,
    ensures
        run(blocks, eval, b, trace, r) == run(
            empties_collapsed(blocks),
            eval,
            rank(collapse_keeps(blocks), b),
            trace,
            n,
        ),
    decreases n,
{
    lemma_collapsed_block(blocks, b);
    let t = blocks[b].terminator;
    let after = trace + blocks[b].stmts;
    lemma_next_retargeted(t, collapsed_target(blocks), eval, after);
    lemma_next_named(t, eval, after);
    match next_block(t, eval, after) {
        None => n,
        Some(x) => {
            let n1 = (n - 1) as nat;
            assert(term_in_range(t, blocks.len() as int));
            let i = choose|i: int| 0 <= i < successors_of(t).len() && successors_of(t)[i] == x;
            assert(successors_of(t)[i] < blocks.len());
            lemma_resolved_range(blocks, x);
            let l = resolved(blocks, x);
            let k = lemma_resolved_hops(blocks, x);
            lemma_collapsed_block(blocks, l as int);
            lemma_collapsed_len(blocks);
            let r = lemma_collapse_backward(blocks, eval, l as int, after, n1);
            lemma_hops_run(blocks, eval, x, l, k, after, r);
            r + k + 1
        },
    }
}

/// Removing blocks that only jump changes no run.
pub proof fn lemma_collapsed_runs(blocks: Seq<BlockV>, eval: Eval)
    requires
        targets_ok(blocks),
        blocks.len() <= usize::MAX,
    ensures
        same_runs(empties_collapsed(blocks), blocks, eval),
{
    let r = empties_collapsed(blocks);
    let e = Seq::<StmtV>::empty();
    assert forall|o: Outcome| #[trigger]
        finishes(r, eval, 0, e, o) <==> finishes(blocks, eval, 0, e, o) by {
        if blocks.len() > 0 {
            assert(only_jumps(blocks, 0) is None);
            assert(rank(collapse_keeps(blocks), 0) == 0);
            if finishes(blocks, eval, 0, e, o) {
                let n = choose|n: nat| #[trigger] run(blocks, eval, 0, e, n) == Some(o);
                let k = lemma_collapse_forward(blocks, eval, 0, e, n);
                assert(run(r, eval, 0, e, k) == Some(o));
            }
            if finishes(r, eval, 0, e, o) {
                let n = choose|n: nat| #[trigger] run(r, eval, 0, e, n) == Some(o);
                let k = lemma_collapse_backward(blocks, eval, 0, e, n);
                assert(run(blocks, eval, 0, e, k) == Some(o));
            }
        } else {
            lemma_collapsed_len(blocks);
        }
    }
}

// Unreachable blocks.

proof fn lemma_unreachable_run(blocks: Seq<BlockV>, eval: Eval, b: int, trace: Seq<StmtV>, n: nat)
    requires
        targets_ok(blocks),
        0 <= b < blocks.len() <= usize::MAX,
        reachable(blocks, b),
        !(forall|i: int| 0 <= i < blocks.len() ==> #[trigger] reachable_set(blocks)[i]),
    ensures
        run(unreachable_removed(blocks), eval, rank(reachable_set(blocks), b), trace, n) == run(
            blocks,
            eval,
            b,
            trace,
            n,
        ),
    decreases n,
{
    let keep = reachable_set(blocks);
    let f = renumbering(keep);
    let all = Seq::new(
        blocks.len(),
        |i: int|
            BlockV {
                terminator: armless_to_goto(retarget(blocks[i].terminator, f)),
                ..blocks[i]
            },
    );
    lemma_compact_index(all, keep, blocks.len() as int, b);
    if n > 0 {
        let t = blocks[b].terminator;
        let after = trace + blocks[b].stmts;
        lemma_next_retargeted(t, f, eval, after);
        lemma_next_named(t, eval, after);
        if let Some(x) = next_block(t, eval, after) {
            let k = choose|k: int| 0 <= k < successors_of(t).len() && successors_of(t)[k] == x;
            lemma_kept_target(blocks, keep, b, k);
            lemma_unreachable_run(blocks, eval, x as int, after, (n - 1) as nat);
        }
    }
}

/// Removing unreachable blocks changes no run.
pub proof fn lemma_unreachable_runs(blocks: Seq<BlockV>, eval: Eval)
    requires
        targets_ok(blocks),
        blocks.len() <= usize::MAX,
    ensures
        same_runs(unreachable_removed(blocks), blocks, eval),
{
    let r = unreachable_removed(blocks);
    let e = Seq::<StmtV>::empty();
    if blocks.len() > 0 && r != blocks {
        lemma_entry_reachable(blocks);
        assert(rank(reachable_set(blocks), 0) == 0);
        assert forall|n: nat| #[trigger] run(r, eval, 0, e, n) == run(blocks, eval, 0, e, n) by {
            lemma_unreachable_run(blocks, eval, 0, e, n);
        }
        assert forall|o: Outcome| #[trigger]
            finishes(r, eval, 0, e, o) <==> finishes(blocks, eval, 0, e, o) by {
            if finishes(r, eval, 0, e, o) {
                let n = choose|n: nat| #[trigger] run(r, eval, 0, e, n) == Some(o);
                assert(run(blocks, eval, 0, e, n) == Some(o));
            }
            if finishes(blocks, eval, 0, e, o) {
                let n = choose|n: nat| #[trigger] run(blocks, eval, 0, e, n) == Some(o);
                assert(run(r, eval, 0, e, n) == Some(o));
            }
        }
    }
}

// Rounds.

/// Bodies that run the same yield the same.
pub(crate) proof fn lemma_same_yield(a: Seq<BlockV>, b: Seq<BlockV>, m: Machine, start: Store, r: Seen)
    requires
        same_runs(a, b, eval_of(m, start)),
        yields(b, m, start, r),
    ensures
        yields(a, m, start, r),
{
    let e = Seq::<StmtV>::empty();
    let eval = eval_of(m, start);
    let o = choose|o: Outcome| #[trigger]
        finishes(b, eval, 0, e, o) && trace_truthful(m, start, o.trace) && seen(m, start, o) == r;
    assert(finishes(a, eval, 0, e, o) <==> finishes(b, eval, 0, e, o));
}

/// Blocks with the statements of blocks that are in order are in order.
proof fn lemma_ok_from(a: Seq<BlockV>, b: Seq<BlockV>)
    requires
        body_ok(a),
        targets_ok(b),
        b.len() <= a.len(),
        forall|i: int|
            0 <= i < b.len() ==> exists|j: int|
                0 <= j < a.len() && (#[trigger] a[j]).stmts == (#[trigger] b[i]).stmts,
    ensures
        body_ok(b),
{
    assert forall|i: int| 0 <= i < b.len() implies orderly((#[trigger] b[i]).stmts) && !has_phi(
        b[i],
    ) by {
        let j = choose|j: int| 0 <= j < a.len() && (#[trigger] a[j]).stmts == b[i].stmts;
        assert(orderly(a[j].stmts));
        assert(!has_phi(a[j]));
        if has_phi(b[i]) {
            let k = choose|k: int| 0 <= k < b[i].stmts.len() && is_phi(#[trigger] b[i].stmts[k]);
            assert(is_phi(a[j].stmts[k]));
        }
    }
    assert forall|i: int, k: int| 0 <= i < b.len() && 0 <= k < b[i].stmts.len() implies tidy(
        #[trigger] b[i].stmts[k],
    ) by {
        let j = choose|j: int| 0 <= j < a.len() && (#[trigger] a[j]).stmts == b[i].stmts;
        assert(tidy(a[j].stmts[k]));
    }
}

pub(crate) proof fn lemma_collapsed_kept_ok(blocks: Seq<BlockV>)
    requires
        body_ok(blocks),
        targets_ok(empties_collapsed(blocks)),
    ensures
        body_ok(empties_collapsed(blocks)),
{
    let r = empties_collapsed(blocks);
    let all = Seq::new(
        blocks.len(),
        |i: int|
            BlockV {
                terminator: retarget(blocks[i].terminator, collapsed_target(blocks)),
                ..blocks[i]
            },
    );
    lemma_collapsed_len(blocks);
    assert forall|i: int| 0 <= i < r.len() implies exists|j: int|
        0 <= j < blocks.len() && (#[trigger] blocks[j]).stmts == (#[trigger] r[i]).stmts by {
        let j = lemma_compact_source(all, collapse_keeps(blocks), blocks.len() as int, i);
        assert(blocks[j].stmts == r[i].stmts);
    }
    lemma_ok_from(blocks, r);
}

pub(crate) proof fn lemma_unreachable_kept_ok(blocks: Seq<BlockV>)
    requires
        body_ok(blocks),
        targets_ok(unreachable_removed(blocks)),
    ensures
        body_ok(unreachable_removed(blocks)),
{
    let r = unreachable_removed(blocks);
    let keep = reachable_set(blocks);
    if !(forall|i: int| 0 <= i < blocks.len() ==> #[trigger] keep[i]) {
        let all = Seq::new(
            blocks.len(),
            |i: int|
                BlockV {
                    terminator: armless_to_goto(
                        retarget(blocks[i].terminator, renumbering(keep)),
                    ),
                    ..blocks[i]
                },
        );
        lemma_compact_len(all, keep, blocks.len() as int);
        lemma_rank_bounds(keep, blocks.len() as int);
        assert forall|i: int| 0 <= i < r.len() implies exists|j: int|
            0 <= j < blocks.len() && (#[trigger] blocks[j]).stmts == (#[trigger] r[i]).stmts by {
            let j = lemma_compact_source(all, keep, blocks.len() as int, i);
            assert(blocks[j].stmts == r[i].stmts);
        }
        lemma_ok_from(blocks, r);
    }
}

/// Without phis there is nothing to reduce.
pub(crate) proof fn lemma_no_phis_reduced(blocks: Seq<BlockV>)
    requires
        no_phis(blocks),
    ensures
        phis_reduced(blocks) == blocks,
{
    let r = phis_reduced(blocks);
    assert forall|i: int| 0 <= i < blocks.len() implies #[trigger] r[i] == blocks[i] by {
        assert(!has_phi(blocks[i]));
        assert forall|j: int| 0 <= j < blocks[i].stmts.len() implies #[trigger] r[i].stmts[j]
            == blocks[i].stmts[j] by {
            assert(!is_phi(blocks[i].stmts[j]));
        }
        assert(r[i].stmts =~= blocks[i].stmts);
    }
    assert(r =~= blocks);
}

/// One round of optimisation keeps what a body yields.
pub proof fn lemma_round_yields(
    blocks: Seq<BlockV>,
    copied: Set<usize>,
    m: Machine,
    start: Store,
    r: Seen,
)
    requires
        body_ok(blocks),
    ensures
        body_ok(opt_round(blocks, copied)),
        yields(blocks, m, start, r) ==> yields(opt_round(blocks, copied), m, start, r),
{
    let a = blocks_folded(blocks, copied);
    let c = stores_removed(a);
    let d = empties_collapsed(c);
    lemma_opt_round_ok(blocks, copied);
    lemma_folded_ok(blocks, copied);
    lemma_no_phis_reduced(a);
    lemma_live_ok(a);
    lemma_collapsed_kept_ok(c);
    lemma_unreachable_kept_ok(d);
    if yields(blocks, m, start, r) {
        let eval = eval_of(m, start);
        lemma_folded_yields(blocks, copied, m, start, r);
        lemma_live_yields(a, m, start, r);
        lemma_collapsed_runs(c, eval);
        lemma_same_yield(d, c, m, start, r);
        lemma_unreachable_runs(d, eval);
        lemma_same_yield(unreachable_removed(d), d, m, start, r);
    }
}

/// Optimising keeps what a body yields: where it runs to an end, the optimised body does,
/// returns the same and leaves the same memory.
pub proof fn lemma_rounds_yield(
    blocks: Seq<BlockV>,
    copied: Set<usize>,
    n: nat,
    m: Machine,
    start: Store,
    r: Seen,
)
    requires
        body_ok(blocks),
        yields(blocks, m, start, r),
    ensures
        yields(opt_rounds(blocks, copied, n), m, start, r),
    decreases n,
{
    if n > 0 {
        lemma_round_yields(blocks, copied, m, start, r);
        lemma_rounds_yield(opt_round(blocks, copied), copied, (n - 1) as nat, m, start, r);
    }
}

/// Optimising a program keeps what each of its functions yields.
pub proof fn lemma_optimized_yields(p: ProgramV, i: int, m: Machine, start: Store, r: Seen)
    requires
        0 <= i < p.fns.len(),
        body_ok(p.fns[i].body.blocks),
        yields(p.fns[i].body.blocks, m, start, r),
    ensures
        yields(optimized(p).fns[i].body.blocks, m, start, r),
        optimized(p).fns[i].name == p.fns[i].name,
        optimized(p).fns[i].params == p.fns[i].params,
        optimized(p).fns[i].return_type == p.fns[i].return_type,
        optimized(p).fns[i].body.locals == p.fns[i].body.locals,
{
    let f = p.fns[i];
    lemma_rounds_yield(
        f.body.blocks,
        copied_locals(f.body.locals, f.body.locals.len() as int),
        MAX_OPT_ITERATIONS as nat,
        m,
        start,
        r,
    );
}

/// Calls survive the removal of dead stores.
pub proof fn lemma_calls_kept(stmts: Seq<StmtV>, used: Set<SsaLocal>, j: int) -> (i: int)
    requires
        0 <= j < stmts.len(),
        stmts[j] matches StmtV::Assign { value, .. } ==> side_effect(value),
    ensures
        0 <= i < live_stmts(stmts, used).len(),
        live_stmts(stmts, used)[i] == stmts[j],
    decreases stmts.len(),
{
    let front = stmts.drop_last();
    if j < front.len() {
        lemma_calls_kept(front, used, j)
    } else {
        live_stmts(front, used).len() as int
    }
}

// Phis.

/// The value that a phi gives where control comes from `pred`.
pub open spec fn incoming(values: Seq<(usize, OperandV)>, pred: usize) -> Option<OperandV>
    decreases values.len(),
{
    if values.len() == 0 {
        None
    } else if values[0].0 == pred {
        Some(values[0].1)
    } else {
        incoming(values.drop_first(), pred)
    }
}

/// Dropping values that cannot come in keeps those that can.
proof fn lemma_incoming_flows(blocks: Seq<BlockV>, values: Seq<(usize, OperandV)>, pred: usize)
    requires
        flows_in(blocks, pred),
    ensures
        incoming(flowing_values(blocks, values), pred) == incoming(values, pred),
    decreases values.len(),
{
    if values.len() > 0 {
        let front = values.drop_last();
        lemma_incoming_flows(blocks, front, pred);
        lemma_incoming_push(front, values.last(), pred);
        assert(front.push(values.last()) =~= values);
        lemma_incoming_push(flowing_values(blocks, front), values.last(), pred);
    }
}

proof fn lemma_incoming_push(values: Seq<(usize, OperandV)>, v: (usize, OperandV), pred: usize)
    ensures
        incoming(values.push(v), pred) == match incoming(values, pred) {
            Some(o) => Some(o),
            None => if v.0 == pred {
                Some(v.1)
            } else {
                None
            },
        },
    decreases values.len(),
{
    let all = values.push(v);
    if values.len() == 0 {
        assert(all.drop_first() =~= Seq::empty());
    } else {
        assert(all.drop_first() =~= values.drop_first().push(v));
        lemma_incoming_push(values.drop_first(), v, pred);
    }
}

proof fn lemma_incoming_among(values: Seq<(usize, OperandV)>, pred: usize) -> (i: int)
    requires
        incoming(values, pred) is Some,
    ensures
        0 <= i < values.len(),
        incoming(values, pred) == Some(values[i].1),
    decreases values.len(),
{
    if values[0].0 == pred {
        0
    } else {
        let i = lemma_incoming_among(values.drop_first(), pred);
        i + 1
    }
}

/// A reduced phi gives, where control comes from a block that can be left, a value equal
/// to the one that the phi gives.
pub proof fn lemma_phi_kept(
    blocks: Seq<BlockV>,
    dest: PlaceV,
    values: Seq<(usize, OperandV)>,
    pred: usize,
)
    requires
        flows_in(blocks, pred),
        incoming(values, pred) is Some,
    ensures
        match reduced_phi(blocks, StmtV::Assign { dest, value: RvalueV::Phi { values } }) {
            StmtV::Assign { dest: d, value } => d == dest && match value {
                RvalueV::Phi { values: vs } => incoming(vs, pred) == incoming(values, pred),
                RvalueV::Use(o) => o == incoming(values, pred)->0 || operand_eq(
                    incoming(values, pred)->0,
                    o,
                ),
                _ => false,
            },
            _ => false,
        },
{
    let live = flowing_values(blocks, values);
    lemma_incoming_flows(blocks, values, pred);
    let i = lemma_incoming_among(live, pred);
    assert(live[i].1 == incoming(values, pred)->0);
}

} // verus!
