//! Laws of the optimiser: what is left of a body once it was optimised.

use vstd::prelude::*;

use crate::ast::{copy_type, BinaryOp, UnaryOp};
use crate::calc::{fold_binary, fold_unary};
use crate::cfg::{reachable, reachable_set};
use crate::fold::{
    folded_block, folded_operand, folded_rvalue, folded_stmt, known_at, switch_target, Known,
};
use crate::literal::{literal_eq, LiteralV};
use crate::mir::{BlockV, FnV, LocalV, OperandV, PlaceV, ProgramV, RvalueV, SsaLocal, StmtV, TermV};
use crate::reading::{
    lemma_stmt_locals, lemma_term_locals, operand_of, stmt_reads, term_reads,
};
use crate::simplify::{
    blocks_folded, copied_locals, dead_store, empties_collapsed, flowing_values, live_stmts,
    opt_round, opt_rounds, optimized, optimized_fn, phis_reduced, stmt_count, stores_removed,
    unreachable_removed,
};
use crate::uses::{blocks_locals, stmts_locals};

verus! {

// Folding.

/// Whether an operation on two operands has a constant on one side that decides it or
/// leaves the other side as it is.
pub open spec fn trivial(op: BinaryOp, l: OperandV, r: OperandV) -> bool {
    let zero = |o: OperandV| o matches OperandV::Constant(LiteralV::Int(_, v)) && v == 0;
    let one = |o: OperandV| o matches OperandV::Constant(LiteralV::Int(_, v)) && v == 1;
    let truth = |o: OperandV| o matches OperandV::Constant(LiteralV::Bool(_));
    match op {
        BinaryOp::Mul => zero(l) || zero(r) || one(l) || one(r),
        BinaryOp::Add => zero(l) || zero(r),
        BinaryOp::Sub => zero(r),
        BinaryOp::And | BinaryOp::Or => truth(l) || truth(r),
        _ => false,
    }
}

/// The right-hand side that a statement of a block evaluates.
pub open spec fn value_at(b: BlockV, j: int) -> Option<RvalueV> {
    match b.stmts[j] {
        StmtV::Assign { value, .. } => Some(value),
        StmtV::ExprStmt(value) => Some(value),
        _ => None,
    }
}

/// In a folded block no operation is left whose operands are constants that it can be
/// computed from, and none that a constant on one side decides.
pub proof fn lemma_nothing_to_fold(b: BlockV, copied: Set<usize>, j: int)
    requires
        0 <= j < b.stmts.len(),
    ensures
        ({
            let value = value_at(folded_block(b, copied), j);
            &&& forall|op: BinaryOp, x: LiteralV, y: LiteralV|
                value == Some(
                    RvalueV::BinaryOp(op, OperandV::Constant(x), OperandV::Constant(y)),
                ) ==> #[trigger] fold_binary(op, x, y) is None
            &&& forall|op: UnaryOp, x: LiteralV|
                value == Some(RvalueV::UnaryOp(op, OperandV::Constant(x))) ==> #[trigger] fold_unary(
                    op,
                    x,
                ) is None
            &&& forall|op: BinaryOp, l: OperandV, r: OperandV| #[trigger]
                trivial(op, l, r) ==> value != Some(RvalueV::BinaryOp(op, l, r))
        }),
{
    let known = known_at(b.stmts, j, copied);
    let s = b.stmts[j];
    assert(folded_block(b, copied).stmts[j] == folded_stmt(s, known));
}

/// In a folded block no branch on a truth value and no switch on a constant is left.
pub proof fn lemma_no_known_branch(b: BlockV, copied: Set<usize>)
    ensures
        ({
            let t = folded_block(b, copied).terminator;
            &&& !(t matches TermV::If { cond: OperandV::Constant(LiteralV::Bool(_)), .. })
            &&& !(t matches TermV::Switch { discr: OperandV::Constant(_), .. })
        }),
{
}

/// A switch leads, on a literal, to the block of the first arm that equals it, and to the
/// default where none does.
pub proof fn lemma_switch_first(
    targets: Seq<(LiteralV, usize)>,
    lit: LiteralV,
    default: usize,
    i: int,
)
    requires
        0 <= i <= targets.len(),
        forall|k: int| 0 <= k < i ==> !literal_eq((#[trigger] targets[k]).0, lit),
        i < targets.len() ==> literal_eq(targets[i].0, lit),
    ensures
        switch_target(targets, lit, default) == (if i < targets.len() {
            targets[i].1
        } else {
            default
        }),
    decreases targets.len(),
{
    if targets.len() > 0 && i > 0 {
        let rest = targets.drop_first();
        assert(!literal_eq(targets[0].0, lit));
        assert forall|k: int| 0 <= k < i - 1 implies !literal_eq((#[trigger] rest[k]).0, lit) by {
            assert(!literal_eq(targets[k + 1].0, lit));
        }
        lemma_switch_first(rest, lit, default, i - 1);
    }
}

/// Whether an operand reads a local as a whole.
pub open spec fn reads_whole(o: OperandV, s: SsaLocal) -> bool {
    o == OperandV::Copy(PlaceV::Ssa(s)) || o == OperandV::Move(PlaceV::Ssa(s))
}

/// Whether a statement gives a local a constant.
pub open spec fn gives_constant(st: StmtV, s: SsaLocal) -> bool {
    st matches StmtV::Assign { dest: PlaceV::Ssa(d), value: RvalueV::Use(OperandV::Constant(_)) }
        && d == s
}

/// Whether a statement makes a local a copy of another.
pub open spec fn copies_from(st: StmtV, s: SsaLocal) -> bool {
    st matches StmtV::Assign { dest: PlaceV::Ssa(_), value: RvalueV::Use(o) } && reads_whole(o, s)
}

proof fn lemma_constants_stay(b: BlockV, copied: Set<usize>, i: int, j: int, s: SsaLocal)
    requires
        0 <= i < j <= b.stmts.len(),
        gives_constant(folded_block(b, copied).stmts[i], s),
    ensures
        known_at(b.stmts, j, copied).consts.contains_key(s),
    decreases j,
{
    if i < j - 1 {
        lemma_constants_stay(b, copied, i, j - 1, s);
    }
}

proof fn lemma_no_copies(b: BlockV, copied: Set<usize>, j: int, s: SsaLocal, x: SsaLocal)
    requires
        0 <= j <= b.stmts.len(),
        forall|k: int|
            0 <= k < j ==> !copies_from(#[trigger] folded_block(b, copied).stmts[k], s),
        known_at(b.stmts, j, copied).copies.contains_key(x),
    ensures
        !reads_whole(known_at(b.stmts, j, copied).copies[x], s),
    decreases j,
{
    if j > 0 {
        let before = known_at(b.stmts, j - 1, copied);
        assert(!copies_from(folded_block(b, copied).stmts[j - 1], s));
        if before.copies.contains_key(x) {
            lemma_no_copies(b, copied, j - 1, s, x);
        }
    }
}

proof fn lemma_operand_not(o: OperandV, known: Known, s: SsaLocal)
    requires
        known.consts.contains_key(s),
        forall|x: SsaLocal| #[trigger]
            known.copies.contains_key(x) ==> !reads_whole(known.copies[x], s),
    ensures
        !reads_whole(folded_operand(o, known), s),
{
}

/// Once a local of a block was given a constant, no operand behind it reads the local,
/// where no copy of it was made before.
pub proof fn lemma_constants_spread(
    b: BlockV,
    copied: Set<usize>,
    i: int,
    j: int,
    s: SsaLocal,
    o: OperandV,
)
    requires
        0 <= i < j < b.stmts.len(),
        gives_constant(folded_block(b, copied).stmts[i], s),
        forall|k: int|
            0 <= k < j ==> !copies_from(#[trigger] folded_block(b, copied).stmts[k], s),
        value_at(folded_block(b, copied), j) matches Some(rv) && !(rv is Phi) && operand_of(rv, o),
    ensures
        !reads_whole(o, s),
{
    let known = known_at(b.stmts, j, copied);
    lemma_constants_stay(b, copied, i, j, s);
    assert forall|x: SsaLocal| #[trigger] known.copies.contains_key(x) implies !reads_whole(
        known.copies[x],
        s,
    ) by {
        lemma_no_copies(b, copied, j, s, x);
    }
    let old = match b.stmts[j] {
        StmtV::Assign { value, .. } => value,
        StmtV::ExprStmt(value) => value,
        _ => arbitrary(),
    };
    let rv = folded_rvalue(old, known);
    assert(value_at(folded_block(b, copied), j) == Some(rv));
    assert forall|p: OperandV| !reads_whole(#[trigger] folded_operand(p, known), s) by {
        lemma_operand_not(p, known, s);
    }
    match old {
        RvalueV::BinaryOp(op, l, r) => {
            let x = folded_operand(l, known);
            let y = folded_operand(r, known);
            assert(!reads_whole(x, s) && !reads_whole(y, s));
        },
        RvalueV::Call { args, .. } => lemma_args_not(args, known, s, o),
        RvalueV::EnumVariantConstruction { args, .. } => lemma_args_not(args, known, s, o),
        RvalueV::ArrayLiteral(args) => lemma_args_not(args, known, s, o),
        RvalueV::MethodCall { receiver, args, .. } => {
            if o != folded_operand(receiver, known) {
                lemma_args_not(args, known, s, o);
            }
        },
        RvalueV::StructInit { fields, .. } => {
            let fs = rv->StructInit_fields;
            let k = choose|k: int| 0 <= k < fs.len() && (#[trigger] fs[k]).1 == o;
            assert(fs[k].1 == folded_operand(fields[k].1, known));
        },
        _ => {},
    }
}

proof fn lemma_args_not(args: Seq<OperandV>, known: Known, s: SsaLocal, o: OperandV)
    requires
        forall|p: OperandV| !reads_whole(#[trigger] folded_operand(p, known), s),
        crate::fold::folded_operands(args, known).contains(o),
    ensures
        !reads_whole(o, s),
{
    let fs = crate::fold::folded_operands(args, known);
    let k = choose|k: int| 0 <= k < fs.len() && fs[k] == o;
    assert(fs[k] == folded_operand(args[k], known));
}

// What is removed.

/// Whether something in the blocks reads a local.
pub open spec fn read_somewhere(blocks: Seq<BlockV>, l: SsaLocal) -> bool {
    ||| exists|b: int, j: int|
        0 <= b < blocks.len() && 0 <= j < blocks[b].stmts.len() && stmt_reads(
            #[trigger] blocks[b].stmts[j],
            l,
        )
    ||| exists|b: int| 0 <= b < blocks.len() && term_reads((#[trigger] blocks[b]).terminator, l)
}

/// Whether a statement does no more than give a value to a local that nothing reads. A call
/// does more.
pub open spec fn useless(blocks: Seq<BlockV>, s: StmtV) -> bool {
    s matches StmtV::Assign { dest: PlaceV::Ssa(d), value } && !read_somewhere(blocks, d) && !(
    value is Call) && !(value is MethodCall)
}

proof fn lemma_stmts_read(stmts: Seq<StmtV>, n: int, l: SsaLocal)
    requires
        0 <= n <= stmts.len(),
    ensures
        stmts_locals(stmts, n).contains(l) <==> exists|j: int|
            0 <= j < n && stmt_reads(#[trigger] stmts[j], l),
    decreases n,
{
    if n > 0 {
        lemma_stmts_read(stmts, n - 1, l);
        lemma_stmt_locals(stmts[n - 1], l);
    }
}

proof fn lemma_blocks_read(blocks: Seq<BlockV>, n: int, l: SsaLocal)
    requires
        0 <= n <= blocks.len(),
    ensures
        blocks_locals(blocks, n).contains(l) <==> read_somewhere(blocks.take(n), l),
    decreases n,
{
    let now = blocks.take(n);
    if n > 0 {
        lemma_blocks_read(blocks, n - 1, l);
        let before = blocks.take(n - 1);
        let last = blocks[n - 1];
        assert(now[n - 1] == last);
        assert forall|b: int| 0 <= b < n - 1 implies #[trigger] now[b] == before[b] by {}
        lemma_stmts_read(last.stmts, last.stmts.len() as int, l);
        lemma_term_locals(last.terminator, l);
        if read_somewhere(before, l) {
            if exists|b: int, j: int|
                0 <= b < before.len() && 0 <= j < before[b].stmts.len() && stmt_reads(
                    #[trigger] before[b].stmts[j],
                    l,
                ) {
                let (b, j) = choose|b: int, j: int|
                    0 <= b < before.len() && 0 <= j < before[b].stmts.len() && stmt_reads(
                        #[trigger] before[b].stmts[j],
                        l,
                    );
                assert(stmt_reads(now[b].stmts[j], l));
            } else {
                let b = choose|b: int|
                    0 <= b < before.len() && term_reads((#[trigger] before[b]).terminator, l);
                assert(term_reads(now[b].terminator, l));
            }
        }
        if stmts_locals(last.stmts, last.stmts.len() as int).contains(l) {
            let j = choose|j: int|
                0 <= j < last.stmts.len() && stmt_reads(#[trigger] last.stmts[j], l);
            assert(stmt_reads(now[n - 1].stmts[j], l));
        }
        if term_reads(last.terminator, l) {
            assert(term_reads(now[n - 1].terminator, l));
        }
        if read_somewhere(now, l) && !read_somewhere(before, l) {
            if exists|b: int, j: int|
                0 <= b < now.len() && 0 <= j < now[b].stmts.len() && stmt_reads(
                    #[trigger] now[b].stmts[j],
                    l,
                ) {
                let (b, j) = choose|b: int, j: int|
                    0 <= b < now.len() && 0 <= j < now[b].stmts.len() && stmt_reads(
                        #[trigger] now[b].stmts[j],
                        l,
                    );
                if b < n - 1 {
                    assert(stmt_reads(before[b].stmts[j], l));
                }
                assert(stmt_reads(last.stmts[j], l));
            } else {
                let b = choose|b: int|
                    0 <= b < now.len() && term_reads((#[trigger] now[b]).terminator, l);
                if b < n - 1 {
                    assert(term_reads(before[b].terminator, l));
                }
            }
        }
    }
}

proof fn lemma_live_filter(blocks: Seq<BlockV>, stmts: Seq<StmtV>, used: Set<SsaLocal>)
    requires
        forall|l: SsaLocal| #[trigger] used.contains(l) <==> read_somewhere(blocks, l),
    ensures
        live_stmts(stmts, used) == stmts.filter(|s: StmtV| !useless(blocks, s)),
    decreases stmts.len(),
{
    reveal(Seq::filter);
    if stmts.len() > 0 {
        lemma_live_filter(blocks, stmts.drop_last(), used);
        assert(dead_store(stmts.last(), used) <==> useless(blocks, stmts.last()));
    }
}

/// Removing dead stores leaves, of each block, the statements in their order without those
/// that do no more than give a value to a local that nothing reads.
pub proof fn lemma_stores_exact(blocks: Seq<BlockV>, b: int)
    requires
        0 <= b < blocks.len(),
    ensures
        stores_removed(blocks).len() == blocks.len(),
        stores_removed(blocks)[b].stmts == blocks[b].stmts.filter(
            |s: StmtV| !useless(blocks, s),
        ),
        stores_removed(blocks)[b].terminator == blocks[b].terminator,
        stores_removed(blocks)[b].id == blocks[b].id,
{
    let used = blocks_locals(blocks, blocks.len() as int);
    assert(blocks.take(blocks.len() as int) =~= blocks);
    assert forall|l: SsaLocal| #[trigger] used.contains(l) <==> read_somewhere(blocks, l) by {
        lemma_blocks_read(blocks, blocks.len() as int, l);
    }
    lemma_live_filter(blocks, blocks[b].stmts, used);
}

/// The values of a phi that can come in are, in their order, those of the blocks that
/// control can reach and leave.
pub proof fn lemma_flowing_exact(blocks: Seq<BlockV>, values: Seq<(usize, OperandV)>)
    ensures
        flowing_values(blocks, values) == values.filter(
            |v: (usize, OperandV)|
                v.0 < blocks.len() && reachable(blocks, v.0 as int) && blocks[v.0 as int].terminator
                    != TermV::Unreachable,
        ),
    decreases values.len(),
{
    reveal(Seq::filter);
    if values.len() > 0 {
        lemma_flowing_exact(blocks, values.drop_last());
        let p = values.last().0;
        if p < blocks.len() {
            assert(reachable_set(blocks)[p as int] == reachable(blocks, p as int));
        }
    }
}

/// The locals that count as copied are those of a type that is copied.
pub proof fn lemma_copied_exact(locals: Seq<LocalV>, n: int, x: usize)
    requires
        0 <= n <= locals.len(),
    ensures
        copied_locals(locals, n).contains(x) <==> exists|i: int|
            0 <= i < n && (#[trigger] locals[i]).id == x && copy_type(locals[i].ty),
    decreases n,
{
    if n > 0 {
        lemma_copied_exact(locals, n - 1, x);
    }
}

/// Optimising a program changes nothing but the blocks of its functions.
pub proof fn lemma_optimized_shape(p: ProgramV, i: int)
    requires
        0 <= i < p.fns.len(),
    ensures
        optimized(p).structs == p.structs,
        optimized(p).enums == p.enums,
        optimized(p).intrinsics_used == p.intrinsics_used,
        optimized(p).fns.len() == p.fns.len(),
        optimized(p).fns[i].name == p.fns[i].name,
        optimized(p).fns[i].generic_params == p.fns[i].generic_params,
        optimized(p).fns[i].params == p.fns[i].params,
        optimized(p).fns[i].return_type == p.fns[i].return_type,
        optimized(p).fns[i].body.locals == p.fns[i].body.locals,
{
}

/// Optimising does at least one round, and what it gives is the outcome of a round.
pub proof fn lemma_rounds_done(blocks: Seq<BlockV>, copied: Set<usize>, n: nat) -> (prev: Seq<
    BlockV,
>)
    requires
        n > 0,
    ensures
        opt_rounds(blocks, copied, n) == opt_round(prev, copied),
    decreases n,
{
    let next = opt_round(blocks, copied);
    if next.len() == blocks.len() && stmt_count(next, next.len() as int) == stmt_count(
        blocks,
        blocks.len() as int,
    ) {
        blocks
    } else if n == 1 {
        assert(opt_rounds(next, copied, 0) == next);
        blocks
    } else {
        lemma_rounds_done(next, copied, (n - 1) as nat)
    }
}

/// What is left of a function once it was optimised came out of a round: folded, its phis
/// reduced, without dead stores, without blocks that only jump, and without unreachable
/// blocks.
pub proof fn lemma_optimized_worked(f: FnV) -> (prev: Seq<BlockV>)
    ensures
        ({
            let copied = copied_locals(f.body.locals, f.body.locals.len() as int);
            let folded = phis_reduced(blocks_folded(prev, copied));
            optimized_fn(f).body.blocks == unreachable_removed(
                empties_collapsed(stores_removed(folded)),
            )
        }),
{
    let copied = copied_locals(f.body.locals, f.body.locals.len() as int);
    lemma_rounds_done(f.body.blocks, copied, crate::simplify::MAX_OPT_ITERATIONS as nat)
}

} // verus!
