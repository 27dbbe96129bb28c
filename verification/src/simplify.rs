//! The optimiser: folding, dead stores, empty blocks and dead blocks, repeated
//! until nothing shrinks.

use vstd::prelude::*;

use crate::ast::copy_type;
use crate::cfg::{compute_reachable, ranks, retarget_by};
use crate::cfg::{
    by_table, compact, lemma_compact_len, lemma_compact_source, lemma_rank_bounds,
    lemma_rank_monotone, rank, reachable_set, renumbering, retarget, successors_of, targets_ok,
    term_in_range,
};
use crate::control::{
    armless_to_goto, lemma_kept_target, lemma_retarget_agrees, lemma_retarget_range,
};
use crate::fold::fold_block;
use crate::fold::{folded_block, folded_operand, folded_term, known_at, switch_target, Known};
use crate::literal::{literal_eq, LiteralV};
use crate::mir::{
    BlockV, BodyV, FnV, LocalV, OperandV, PlaceV, ProgramV, RvalueV, SsaLocal, StmtV, TermV,
};
use crate::mir::{
    MirBlock, MirBody, MirFn, MirLocal, MirOperand, MirPlace, MirProgram, MirRvalue, MirStmt,
    MirTerminator,
};
use crate::mir_eq::operand_eq;
use crate::mir_eq::same_operand;
use crate::table::KeySet;
use crate::uses::blocks_locals;
use crate::uses::used_in_blocks;

verus! {

/// The optimiser.
pub struct Simplify;

/// The number of rounds after which optimisation of a function stops.
pub const MAX_OPT_ITERATIONS: usize = 20;

/// The numbers of the locals whose type is copied.
pub open spec fn copied_locals(locals: Seq<LocalV>, n: int) -> Set<usize>
    decreases n,
{
    if n <= 0 {
        Set::empty()
    } else if copy_type(locals[n - 1].ty) {
        copied_locals(locals, n - 1).insert(locals[n - 1].id)
    } else {
        copied_locals(locals, n - 1)
    }
}

/// Every block folded.
pub open spec fn blocks_folded(blocks: Seq<BlockV>, copied: Set<usize>) -> Seq<BlockV> {
    Seq::new(blocks.len(), |i: int| folded_block(blocks[i], copied))
}

/// Whether a value can come in from block `pred`: the block exists, is reachable
/// and is left.
pub open spec fn flows_in(blocks: Seq<BlockV>, pred: usize) -> bool {
    &&& pred < blocks.len()
    &&& reachable_set(blocks)[pred as int]
    &&& blocks[pred as int].terminator != TermV::Unreachable
}

/// The incoming values that can come in.
pub open spec fn flowing_values(blocks: Seq<BlockV>, values: Seq<(usize, OperandV)>) -> Seq<
    (usize, OperandV),
>
    decreases values.len(),
{
    if values.len() == 0 {
        Seq::empty()
    } else {
        let rest = flowing_values(blocks, values.drop_last());
        if flows_in(blocks, values.last().0) {
            rest.push(values.last())
        } else {
            rest
        }
    }
}

/// A phi reduced to the values that can come in: untouched where none can, a
/// plain use where they are all the same.
pub open spec fn reduced_phi(blocks: Seq<BlockV>, s: StmtV) -> StmtV {
    match s {
        StmtV::Assign { dest, value: RvalueV::Phi { values } } => {
            let live = flowing_values(blocks, values);
            if live.len() == 0 {
                s
            } else if live.len() == 1 || (forall|i: int|
                0 <= i < live.len() ==> operand_eq((#[trigger] live[i]).1, live[0].1)) {
                StmtV::Assign { dest, value: RvalueV::Use(live[0].1) }
            } else {
                StmtV::Assign { dest, value: RvalueV::Phi { values: live } }
            }
        },
        _ => s,
    }
}

/// Every phi reduced.
pub open spec fn phis_reduced(blocks: Seq<BlockV>) -> Seq<BlockV> {
    Seq::new(
        blocks.len(),
        |i: int|
            BlockV {
                stmts: Seq::new(
                    blocks[i].stmts.len(),
                    |j: int| reduced_phi(blocks, blocks[i].stmts[j]),
                ),
                ..blocks[i]
            },
    )
}

/// Whether evaluating a right-hand side does more than give a value.
pub open spec fn side_effect(rv: RvalueV) -> bool {
    rv is Call || rv is MethodCall
}

/// Whether a statement assigns a local that nothing reads, without effect.
pub open spec fn dead_store(s: StmtV, used: Set<SsaLocal>) -> bool {
    s matches StmtV::Assign { dest: PlaceV::Ssa(d), value } && !used.contains(d) && !side_effect(
        value,
    )
}

/// The statements without the dead stores.
pub open spec fn live_stmts(stmts: Seq<StmtV>, used: Set<SsaLocal>) -> Seq<StmtV>
    decreases stmts.len(),
{
    if stmts.len() == 0 {
        Seq::empty()
    } else if dead_store(stmts.last(), used) {
        live_stmts(stmts.drop_last(), used)
    } else {
        live_stmts(stmts.drop_last(), used).push(stmts.last())
    }
}

/// The blocks without the dead stores.
pub open spec fn stores_removed(blocks: Seq<BlockV>) -> Seq<BlockV> {
    let used = blocks_locals(blocks, blocks.len() as int);
    Seq::new(
        blocks.len(),
        |i: int| BlockV { stmts: live_stmts(blocks[i].stmts, used), ..blocks[i] },
    )
}

/// Where a block that only jumps leads: not the entry block, without statements,
/// and not to itself.
pub open spec fn only_jumps(blocks: Seq<BlockV>, b: int) -> Option<usize> {
    if 0 < b < blocks.len() && blocks[b].stmts.len() == 0 {
        match blocks[b].terminator {
            TermV::Goto(t) => if t != b {
                Some(t)
            } else {
                None
            },
            _ => None,
        }
    } else {
        None
    }
}

/// The first block from `t` on that does more than jump, if at most `fuel` blocks
/// are passed on the way.
pub open spec fn landing(blocks: Seq<BlockV>, t: usize, fuel: nat) -> Option<usize>
    decreases fuel,
{
    match only_jumps(blocks, t as int) {
        None => Some(t),
        Some(next) => if fuel == 0 {
            None
        } else {
            landing(blocks, next, (fuel - 1) as nat)
        },
    }
}

/// Whether a block goes: it only jumps, and the jumps lead somewhere. A block
/// that jumps in a circle stays.
pub open spec fn collapses(blocks: Seq<BlockV>, b: int) -> bool {
    only_jumps(blocks, b) is Some && landing(blocks, b as usize, blocks.len()) is Some
}

/// Where a jump to `t` leads once the blocks that only jump are gone.
pub open spec fn resolved(blocks: Seq<BlockV>, t: usize) -> usize {
    match landing(blocks, t, blocks.len()) {
        Some(l) => l,
        None => t,
    }
}

/// The blocks that stay.
pub open spec fn collapse_keeps(blocks: Seq<BlockV>) -> Seq<bool> {
    Seq::new(blocks.len(), |i: int| !collapses(blocks, i))
}

/// The new number of the block that a jump to `t` leads to.
pub open spec fn collapsed_target(blocks: Seq<BlockV>) -> spec_fn(usize) -> usize {
    |t: usize| rank(collapse_keeps(blocks), resolved(blocks, t) as int) as usize
}

/// The blocks without those that only jump.
pub open spec fn empties_collapsed(blocks: Seq<BlockV>) -> Seq<BlockV> {
    compact(
        Seq::new(
            blocks.len(),
            |i: int|
                BlockV {
                    terminator: retarget(blocks[i].terminator, collapsed_target(blocks)),
                    ..blocks[i]
                },
        ),
        collapse_keeps(blocks),
        blocks.len() as int,
    )
}

/// The reachable blocks, renumbered; unchanged where all are reachable.
pub open spec fn unreachable_removed(blocks: Seq<BlockV>) -> Seq<BlockV> {
    let keep = reachable_set(blocks);
    if forall|i: int| 0 <= i < blocks.len() ==> #[trigger] keep[i] {
        blocks
    } else {
        compact(
            Seq::new(
                blocks.len(),
                |i: int|
                    BlockV {
                        terminator: armless_to_goto(
                            retarget(blocks[i].terminator, renumbering(keep)),
                        ),
                        ..blocks[i]
                    },
            ),
            keep,
            blocks.len() as int,
        )
    }
}

/// The number of statements of the first `n` blocks.
pub open spec fn stmt_count(blocks: Seq<BlockV>, n: int) -> int
    decreases n,
{
    if n <= 0 {
        0
    } else {
        stmt_count(blocks, n - 1) + blocks[n - 1].stmts.len()
    }
}

/// One round of optimisation.
pub open spec fn opt_round(blocks: Seq<BlockV>, copied: Set<usize>) -> Seq<BlockV> {
    unreachable_removed(
        empties_collapsed(stores_removed(phis_reduced(blocks_folded(blocks, copied)))),
    )
}

/// At most `n` rounds, up to the first that removes neither a block nor a
/// statement.
pub open spec fn opt_rounds(blocks: Seq<BlockV>, copied: Set<usize>, n: nat) -> Seq<BlockV>
    decreases n,
{
    if n == 0 {
        blocks
    } else {
        let next = opt_round(blocks, copied);
        if next.len() == blocks.len() && stmt_count(next, next.len() as int) == stmt_count(
            blocks,
            blocks.len() as int,
        ) {
            next
        } else {
            opt_rounds(next, copied, (n - 1) as nat)
        }
    }
}

/// An optimised function.
pub open spec fn optimized_fn(f: FnV) -> FnV {
    FnV {
        body: BodyV {
            blocks: opt_rounds(
                f.body.blocks,
                copied_locals(f.body.locals, f.body.locals.len() as int),
                MAX_OPT_ITERATIONS as nat,
            ),
            ..f.body
        },
        ..f
    }
}

/// An optimised program.
pub open spec fn optimized(p: ProgramV) -> ProgramV {
    ProgramV { fns: Seq::new(p.fns.len(), |i: int| optimized_fn(p.fns[i])), ..p }
}

/// The block that jumps land on exists, does more than jump, and is kept.
proof fn lemma_landing(blocks: Seq<BlockV>, t: usize, fuel: nat)
    requires
        targets_ok(blocks),
        t < blocks.len(),
    ensures
        landing(blocks, t, fuel) matches Some(l) ==> l < blocks.len() && only_jumps(
            blocks,
            l as int,
        ) is None,
    decreases fuel,
{
    match only_jumps(blocks, t as int) {
        Some(next) => {
            assert(term_in_range(blocks[t as int].terminator, blocks.len() as int));
            assert(successors_of(blocks[t as int].terminator)[0] == next);
            if fuel > 0 {
                lemma_landing(blocks, next, (fuel - 1) as nat);
            }
        },
        None => {},
    }
}

/// A jump leads, in the end, to a block that exists and stays.
pub proof fn lemma_resolved_range(blocks: Seq<BlockV>, t: usize)
    requires
        targets_ok(blocks),
        t < blocks.len(),
    ensures
        resolved(blocks, t) < blocks.len(),
        collapse_keeps(blocks)[resolved(blocks, t) as int],
{
    lemma_landing(blocks, t, blocks.len());
}

/// The target of a switch on a literal is one that the switch names.
pub proof fn lemma_switch_target_named(
    targets: Seq<(LiteralV, usize)>,
    lit: LiteralV,
    default: usize,
)
    ensures
        ({
            let r = switch_target(targets, lit, default);
            r == default || exists|i: int| 0 <= i < targets.len() && (#[trigger] targets[i]).1 == r
        }),
    decreases targets.len(),
{
    if targets.len() > 0 {
        let rest = targets.drop_first();
        lemma_switch_target_named(rest, lit, default);
        let r = switch_target(targets, lit, default);
        if literal_eq(targets[0].0, lit) {
            assert(targets[0].1 == r);
        } else if r != default {
            let i = choose|i: int| 0 <= i < rest.len() && (#[trigger] rest[i]).1 == r;
            assert(targets[i + 1] == rest[i]);
        }
    }
}

/// Folding a terminator names no new block.
proof fn lemma_folded_term_range(t: TermV, known: Known, n: int)
    requires
        term_in_range(t, n),
    ensures
        term_in_range(folded_term(t, known), n),
{
    let s = successors_of(t);
    match t {
        TermV::If { then_block, else_block, .. } => {
            assert(s[0] == then_block && s[1] == else_block);
            let r = folded_term(t, known);
            if r is If {
                assert(successors_of(r) =~= s);
            }
        },
        TermV::Switch { discr, targets, default, .. } => {
            assert(s[targets.len() as int] == default);
            let r = folded_term(t, known);
            match folded_operand(discr, known) {
                OperandV::Constant(lit) => {
                    lemma_switch_target_named(targets, lit, default);
                    let x = switch_target(targets, lit, default);
                    if x != default {
                        let i = choose|i: int|
                            0 <= i < targets.len() && (#[trigger] targets[i]).1 == x;
                        assert(s[i] == x);
                    }
                },
                _ => {
                    assert(successors_of(r) =~= s);
                },
            }
        },
        _ => {},
    }
}

/// Collapsing leaves only names of blocks that exist.
proof fn lemma_collapsed_ok(blocks: Seq<BlockV>)
    requires
        targets_ok(blocks),
    ensures
        targets_ok(empties_collapsed(blocks)),
{
    let keep = collapse_keeps(blocks);
    let n = blocks.len() as int;
    let all = Seq::new(
        blocks.len(),
        |i: int|
            BlockV {
                terminator: retarget(blocks[i].terminator, collapsed_target(blocks)),
                ..blocks[i]
            },
    );
    let r = empties_collapsed(blocks);
    lemma_compact_len(all, keep, n);
    assert forall|a: int| 0 <= a < r.len() implies term_in_range(
        (#[trigger] r[a]).terminator,
        r.len() as int,
    ) by {
        let i = lemma_compact_source(all, keep, n, a);
        let t = blocks[i].terminator;
        assert(term_in_range(t, n));
        assert forall|k: int| 0 <= k < successors_of(t).len() implies collapsed_target(blocks)(
            #[trigger] successors_of(t)[k],
        ) < r.len() by {
            let x = successors_of(t)[k];
            lemma_resolved_range(blocks, x);
            let l = resolved(blocks, x) as int;
            lemma_rank_bounds(keep, l);
            lemma_rank_monotone(keep, l, n);
        }
        lemma_retarget_range(t, collapsed_target(blocks), r.len() as int);
    }
}

/// Removing unreachable blocks leaves only names of blocks that exist.
proof fn lemma_unreachable_removed_ok(blocks: Seq<BlockV>)
    requires
        targets_ok(blocks),
    ensures
        targets_ok(unreachable_removed(blocks)),
{
    let keep = reachable_set(blocks);
    let n = blocks.len() as int;
    if !(forall|i: int| 0 <= i < blocks.len() ==> #[trigger] keep[i]) {
        let all = Seq::new(
            blocks.len(),
            |i: int|
                BlockV {
                    terminator: armless_to_goto(
                        retarget(blocks[i].terminator, renumbering(keep)),
                    ),
                    ..blocks[i]
                },
        );
        let r = unreachable_removed(blocks);
        lemma_compact_len(all, keep, n);
        assert forall|a: int| 0 <= a < r.len() implies term_in_range(
            (#[trigger] r[a]).terminator,
            r.len() as int,
        ) by {
            let i = lemma_compact_source(all, keep, n, a);
            let t = blocks[i].terminator;
            assert forall|k: int| 0 <= k < successors_of(t).len() implies renumbering(keep)(
                #[trigger] successors_of(t)[k],
            ) < r.len() by {
                lemma_kept_target(blocks, keep, i, k);
            }
            lemma_retarget_range(t, renumbering(keep), r.len() as int);
            let u = retarget(t, renumbering(keep));
            if let TermV::Switch { targets, default, .. } = u {
                assert(successors_of(u)[targets.len() as int] == default);
            }
        }
    }
}

/// A round of optimisation leaves only names of blocks that exist.
pub proof fn lemma_opt_round_ok(blocks: Seq<BlockV>, copied: Set<usize>)
    requires
        targets_ok(blocks),
    ensures
        ({
            let a = blocks_folded(blocks, copied);
            let b = phis_reduced(a);
            let c = stores_removed(b);
            let d = empties_collapsed(c);
            &&& targets_ok(a)
            &&& targets_ok(b)
            &&& targets_ok(c)
            &&& targets_ok(d)
        }),
        targets_ok(opt_round(blocks, copied)),
{
    let a = blocks_folded(blocks, copied);
    assert forall|i: int| 0 <= i < a.len() implies term_in_range(
        (#[trigger] a[i]).terminator,
        a.len() as int,
    ) by {
        assert(term_in_range(blocks[i].terminator, blocks.len() as int));
        lemma_folded_term_range(
            blocks[i].terminator,
            known_at(blocks[i].stmts, blocks[i].stmts.len() as int, copied),
            blocks.len() as int,
        );
    }
    let b = phis_reduced(a);
    assert forall|i: int| 0 <= i < b.len() implies term_in_range(
        (#[trigger] b[i]).terminator,
        b.len() as int,
    ) by {
        assert(term_in_range(a[i].terminator, a.len() as int));
    }
    let c = stores_removed(b);
    assert forall|i: int| 0 <= i < c.len() implies term_in_range(
        (#[trigger] c[i]).terminator,
        c.len() as int,
    ) by {
        assert(term_in_range(b[i].terminator, b.len() as int));
    }
    lemma_collapsed_ok(c);
    lemma_unreachable_removed_ok(empties_collapsed(c));
}

impl Simplify {
    /// The numbers of the locals whose type is copied.
    fn copy_types(locals: &Vec<MirLocal>) -> (r: KeySet<usize>)
        ensures
            r.deep_view() == copied_locals(locals.deep_view(), locals.deep_view().len() as int),
    {
        let ghost lv = locals.deep_view();
        let mut r: KeySet<usize> = KeySet::new();
        let mut i: usize = 0;
        while i < locals.len()
            invariant
                i <= locals.len(),
                lv == locals.deep_view(),
                r.deep_view() == copied_locals(lv, i as int),
            decreases locals.len() - i,
        {
            assert(lv[i as int] == locals@[i as int].deep_view());
            if locals[i].ty.is_copy() {
                r.insert(locals[i].id);
            }
            i = i + 1;
        }
        r
    }

    fn fold_blocks(body: &mut MirBody, copy_types: &KeySet<usize>)
        ensures
            final(body).deep_view() == (BodyV {
                blocks: blocks_folded(old(body).deep_view().blocks, copy_types.deep_view()),
                ..old(body).deep_view()
            }),
    {
        let ghost b0 = body.deep_view();
        let mut new_blocks: Vec<MirBlock> = Vec::new();
        let mut i: usize = 0;
        while i < body.blocks.len()
            invariant
                i <= body.blocks.len(),
                b0 == body.deep_view(),
                new_blocks.len() == i,
                forall|j: int|
                    0 <= j < i ==> (#[trigger] new_blocks@[j]).deep_view() == folded_block(
                        b0.blocks[j],
                        copy_types.deep_view(),
                    ),
            decreases body.blocks.len() - i,
        {
            assert(b0.blocks[i as int] == body.blocks@[i as int].deep_view());
            let b = fold_block(&body.blocks[i], copy_types);
            new_blocks.push(b);
            i = i + 1;
        }
        assert(new_blocks.deep_view() =~= blocks_folded(b0.blocks, copy_types.deep_view()));
        body.blocks = new_blocks;
    }

    /// A phi reduced to the values that can come in.
    fn reduce_phi(stmt: &MirStmt, live_preds: &Vec<bool>, Ghost(bv): Ghost<Seq<BlockV>>) -> (r:
        MirStmt)
        requires
            live_preds.len() == bv.len(),
            forall|p: int|
                0 <= p < bv.len() ==> #[trigger] live_preds@[p] == flows_in(bv, p as usize),
        ensures
            r.deep_view() == reduced_phi(bv, stmt.deep_view()),
    {
        match stmt {
            MirStmt::Assign { dest, value: MirRvalue::Phi { values } } => {
                let ghost vv = values.deep_view();
                let mut live: Vec<(usize, MirOperand)> = Vec::new();
                let mut i: usize = 0;
                assert(live.deep_view() =~= flowing_values(bv, vv.take(0)));
                while i < values.len()
                    invariant
                        i <= values.len(),
                        vv == values.deep_view(),
                        live_preds.len() == bv.len(),
                        forall|p: int|
                            0 <= p < bv.len() ==> #[trigger] live_preds@[p] == flows_in(
                                bv,
                                p as usize,
                            ),
                        live.deep_view() == flowing_values(bv, vv.take(i as int)),
                    decreases values.len() - i,
                {
                    proof {
                        assert(vv.take(i + 1).drop_last() =~= vv.take(i as int));
                        assert(vv.take(i + 1).last() == values@[i as int].deep_view());
                    }
                    let ghost l0 = live.deep_view();
                    let pred = values[i].0;
                    if pred < live_preds.len() {
                        assert(live_preds@[pred as int] == flows_in(bv, pred));
                        if live_preds[pred] {
                            live.push((pred, values[i].1.clone()));
                            assert(live.deep_view() =~= l0.push(vv[i as int]));
                        }
                    }
                    i = i + 1;
                }
                assert(vv.take(i as int) =~= vv);
                let ghost lv = live.deep_view();
                if live.len() == 0 {
                    return stmt.clone();
                }
                assert(lv[0] == live@[0].deep_view());
                let mut all_same = true;
                let mut k: usize = 0;
                while k < live.len()
                    invariant
                        k <= live.len(),
                        live.len() > 0,
                        lv == live.deep_view(),
                        all_same ==> forall|j: int|
                            0 <= j < k ==> operand_eq((#[trigger] lv[j]).1, lv[0].1),
                        !all_same ==> exists|j: int|
                            0 <= j < lv.len() && !operand_eq((#[trigger] lv[j]).1, lv[0].1),
                    decreases live.len() - k,
                {
                    assert(lv[k as int] == live@[k as int].deep_view());
                    if !same_operand(&live[k].1, &live[0].1) {
                        all_same = false;
                    }
                    k = k + 1;
                }
                if live.len() == 1 || all_same {
                    MirStmt::Assign {
                        dest: dest.clone(),
                        value: MirRvalue::Use(live[0].1.clone()),
                    }
                } else {
                    MirStmt::Assign { dest: dest.clone(), value: MirRvalue::Phi { values: live } }
                }
            },
            _ => stmt.clone(),
        }
    }

    fn simplify_phi(body: &mut MirBody)
        requires
            targets_ok(old(body).deep_view().blocks),
        ensures
            final(body).deep_view() == (BodyV {
                blocks: phis_reduced(old(body).deep_view().blocks),
                ..old(body).deep_view()
            }),
    {
        let ghost b0 = body.deep_view();
        let ghost bv = b0.blocks;
        let mut live_preds = compute_reachable(&body.blocks);
        let n = body.blocks.len();
        let mut p: usize = 0;
        while p < n
            invariant
                p <= n,
                n == body.blocks.len(),
                b0 == body.deep_view(),
                bv == b0.blocks,
                live_preds.len() == n,
                forall|q: int|
                    0 <= q < p ==> #[trigger] live_preds@[q] == flows_in(bv, q as usize),
                forall|q: int|
                    p <= q < n ==> #[trigger] live_preds@[q] == reachable_set(bv)[q],
            decreases n - p,
        {
            assert(bv[p as int] == body.blocks@[p as int].deep_view());
            assert(live_preds@[p as int] == reachable_set(bv)[p as int]);
            if let MirTerminator::Unreachable = &body.blocks[p].terminator {
                live_preds.set(p, false);
            }
            p = p + 1;
        }
        let mut new_blocks: Vec<MirBlock> = Vec::new();
        let mut i: usize = 0;
        while i < n
            invariant
                i <= n,
                n == body.blocks.len(),
                b0 == body.deep_view(),
                bv == b0.blocks,
                live_preds.len() == n,
                forall|q: int|
                    0 <= q < n ==> #[trigger] live_preds@[q] == flows_in(bv, q as usize),
                new_blocks.len() == i,
                forall|j: int|
                    0 <= j < i ==> (#[trigger] new_blocks@[j]).deep_view() == phis_reduced(bv)[j],
            decreases n - i,
        {
            let block = &body.blocks[i];
            assert(bv[i as int] == block.deep_view());
            let mut new_stmts: Vec<MirStmt> = Vec::new();
            let mut k: usize = 0;
            while k < block.stmts.len()
                invariant
                    k <= block.stmts.len(),
                    bv[i as int] == block.deep_view(),
                    live_preds.len() == bv.len(),
                    forall|q: int|
                        0 <= q < bv.len() ==> #[trigger] live_preds@[q] == flows_in(
                            bv,
                            q as usize,
                        ),
                    new_stmts.len() == k,
                    forall|j: int|
                        0 <= j < k ==> (#[trigger] new_stmts@[j]).deep_view() == reduced_phi(
                            bv,
                            bv[i as int].stmts[j],
                        ),
                decreases block.stmts.len() - k,
            {
                assert(bv[i as int].stmts[k as int] == block.stmts@[k as int].deep_view());
                let s = Self::reduce_phi(&block.stmts[k], &live_preds, Ghost(bv));
                new_stmts.push(s);
                k = k + 1;
            }
            let b = MirBlock {
                id: block.id,
                stmts: new_stmts,
                terminator: block.terminator.clone(),
            };
            assert(b.deep_view().stmts =~= phis_reduced(bv)[i as int].stmts);
            new_blocks.push(b);
            i = i + 1;
        }
        assert(new_blocks.deep_view() =~= phis_reduced(bv));
        body.blocks = new_blocks;
    }

    fn has_side_effect(rv: &MirRvalue) -> (r: bool)
        ensures
            r == side_effect(rv.deep_view()),
    {
        match rv {
            MirRvalue::Call { .. } | MirRvalue::MethodCall { .. } => true,
            _ => false,
        }
    }

    /// Whether a statement assigns a local that nothing reads, without effect.
    fn is_dead_store(stmt: &MirStmt, used: &KeySet<SsaLocal>) -> (r: bool)
        ensures
            r == dead_store(stmt.deep_view(), used.deep_view()),
    {
        match stmt {
            MirStmt::Assign { dest: MirPlace::Ssa(ssa), value } => !used.contains(ssa)
                && !Self::has_side_effect(value),
            _ => false,
        }
    }

    fn eliminate_dead_stores(body: &mut MirBody)
        ensures
            final(body).deep_view() == (BodyV {
                blocks: stores_removed(old(body).deep_view().blocks),
                ..old(body).deep_view()
            }),
    {
        let ghost b0 = body.deep_view();
        let ghost bv = b0.blocks;
        let used = used_in_blocks(&body.blocks);
        let mut new_blocks: Vec<MirBlock> = Vec::new();
        let mut i: usize = 0;
        while i < body.blocks.len()
            invariant
                i <= body.blocks.len(),
                b0 == body.deep_view(),
                bv == b0.blocks,
                used.deep_view() == blocks_locals(bv, bv.len() as int),
                new_blocks.len() == i,
                forall|j: int|
                    0 <= j < i ==> (#[trigger] new_blocks@[j]).deep_view() == stores_removed(bv)[j],
            decreases body.blocks.len() - i,
        {
            let block = &body.blocks[i];
            assert(bv[i as int] == block.deep_view());
            let ghost sv = block.stmts.deep_view();
            let mut kept: Vec<MirStmt> = Vec::new();
            let mut k: usize = 0;
            assert(kept.deep_view() =~= live_stmts(sv.take(0), used.deep_view()));
            while k < block.stmts.len()
                invariant
                    k <= block.stmts.len(),
                    sv == block.stmts.deep_view(),
                    kept.deep_view() == live_stmts(sv.take(k as int), used.deep_view()),
                decreases block.stmts.len() - k,
            {
                proof {
                    assert(sv.take(k + 1).drop_last() =~= sv.take(k as int));
                    assert(sv.take(k + 1).last() == block.stmts@[k as int].deep_view());
                }
                let ghost k0 = kept.deep_view();
                if !Self::is_dead_store(&block.stmts[k], &used) {
                    kept.push(block.stmts[k].clone());
                    assert(kept.deep_view() =~= k0.push(sv[k as int]));
                }
                k = k + 1;
            }
            assert(sv.take(k as int) =~= sv);
            let b = MirBlock { id: block.id, stmts: kept, terminator: block.terminator.clone() };
            assert(b.deep_view().stmts =~= stores_removed(bv)[i as int].stmts);
            new_blocks.push(b);
            i = i + 1;
        }
        assert(new_blocks.deep_view() =~= stores_removed(bv));
        body.blocks = new_blocks;
    }

    /// Where a block that only jumps leads.
    fn jump_target(blocks: &Vec<MirBlock>, b: usize) -> (r: Option<usize>)
        ensures
            r == only_jumps(blocks.deep_view(), b as int),
    {
        if b == 0 || b >= blocks.len() {
            return None;
        }
        assert(blocks.deep_view()[b as int] == blocks@[b as int].deep_view());
        if blocks[b].stmts.len() > 0 {
            return None;
        }
        match &blocks[b].terminator {
            MirTerminator::Goto(t) => if *t != b {
                Some(*t)
            } else {
                None
            },
            _ => None,
        }
    }

    /// The first block from `start` on that does more than jump.
    fn landing_block(blocks: &Vec<MirBlock>, start: usize) -> (r: Option<usize>)
        ensures
            r == landing(blocks.deep_view(), start, blocks.deep_view().len()),
    {
        let ghost bv = blocks.deep_view();
        let mut cur = start;
        let mut fuel: usize = blocks.len();
        loop
            invariant
                bv == blocks.deep_view(),
                landing(bv, start, bv.len()) == landing(bv, cur, fuel as nat),
            decreases fuel,
        {
            match Self::jump_target(blocks, cur) {
                None => {
                    return Some(cur);
                },
                Some(next) => {
                    if fuel == 0 {
                        return None;
                    }
                    cur = next;
                    fuel = fuel - 1;
                },
            }
        }
    }

    fn collapse_empty_blocks(body: &mut MirBody)
        requires
            targets_ok(old(body).deep_view().blocks),
        ensures
            final(body).deep_view() == (BodyV {
                blocks: empties_collapsed(old(body).deep_view().blocks),
                ..old(body).deep_view()
            }),
    {
        let ghost b0 = body.deep_view();
        let ghost bv = b0.blocks;
        let n = body.blocks.len();
        let mut keep: Vec<bool> = Vec::new();
        let mut land: Vec<usize> = Vec::new();
        let mut i: usize = 0;
        while i < n
            invariant
                i <= n,
                n == body.blocks.len(),
                b0 == body.deep_view(),
                bv == b0.blocks,
                targets_ok(bv),
                keep.len() == i,
                land.len() == i,
                forall|j: int| 0 <= j < i ==> #[trigger] keep@[j] == collapse_keeps(bv)[j],
                forall|j: int|
                    0 <= j < i ==> #[trigger] land@[j] == resolved(bv, j as usize) && land@[j] < n,
            decreases n - i,
        {
            let jump = Self::jump_target(&body.blocks, i);
            let end = Self::landing_block(&body.blocks, i);
            proof {
                lemma_resolved_range(bv, i);
            }
            keep.push(!(jump.is_some() && end.is_some()));
            land.push(
                match end {
                    Some(l) => l,
                    None => i,
                },
            );
            i = i + 1;
        }
        assert(keep@ =~= collapse_keeps(bv));
        let ids = ranks(&keep);
        let mut map: Vec<usize> = Vec::new();
        let mut t: usize = 0;
        while t < n
            invariant
                t <= n,
                n == bv.len(),
                keep@ == collapse_keeps(bv),
                land.len() == n,
                ids.len() == n,
                map.len() == t,
                forall|j: int| 0 <= j < n ==> #[trigger] ids@[j] == rank(keep@, j),
                forall|j: int|
                    0 <= j < n ==> #[trigger] land@[j] == resolved(bv, j as usize) && land@[j] < n,
                forall|j: int| 0 <= j < t ==> #[trigger] map@[j] == collapsed_target(bv)(j as usize),
            decreases n - t,
        {
            assert(land@[t as int] == resolved(bv, t));
            let l = land[t];
            assert(ids@[l as int] == rank(keep@, l as int));
            map.push(ids[l]);
            t = t + 1;
        }
        let ghost all = Seq::new(
            bv.len(),
            |i: int|
                BlockV { terminator: retarget(bv[i].terminator, collapsed_target(bv)), ..bv[i] },
        );
        let mut new_blocks: Vec<MirBlock> = Vec::new();
        let mut k: usize = 0;
        assert(new_blocks.deep_view() =~= compact(all, keep@, 0));
        while k < n
            invariant
                k <= n,
                n == body.blocks.len(),
                b0 == body.deep_view(),
                bv == b0.blocks,
                targets_ok(bv),
                keep.len() == n,
                map.len() == n,
                all == Seq::new(
                    bv.len(),
                    |i: int|
                        BlockV {
                            terminator: retarget(bv[i].terminator, collapsed_target(bv)),
                            ..bv[i]
                        },
                ),
                forall|j: int| 0 <= j < n ==> #[trigger] map@[j] == collapsed_target(bv)(j as usize),
                new_blocks.deep_view() == compact(all, keep@, k as int),
            decreases n - k,
        {
            if keep[k] {
                let block = &body.blocks[k];
                proof {
                    assert(bv[k as int] == block.deep_view());
                    let tv = bv[k as int].terminator;
                    assert(term_in_range(tv, bv.len() as int));
                    assert forall|x: int| 0 <= x < successors_of(tv).len() implies by_table(map@)(
                        #[trigger] successors_of(tv)[x],
                    ) == collapsed_target(bv)(successors_of(tv)[x]) by {
                        let t = successors_of(tv)[x];
                        assert(map@[t as int] == collapsed_target(bv)(t as int as usize));
                    }
                    lemma_retarget_agrees(tv, by_table(map@), collapsed_target(bv));
                }
                let terminator = retarget_by(&block.terminator, &map);
                let ghost nb0 = new_blocks.deep_view();
                let b = MirBlock {
                    id: block.id,
                    stmts: crate::mir::clone_stmts(&block.stmts),
                    terminator,
                };
                new_blocks.push(b);
                assert(new_blocks.deep_view() =~= nb0.push(all[k as int]));
            }
            k = k + 1;
        }
        body.blocks = new_blocks;
    }

    /// Removes the blocks that no path from the entry leads to, if there are any.
    pub fn remove_dead_blocks(body: &mut MirBody)
        requires
            targets_ok(old(body).deep_view().blocks),
        ensures
            final(body).deep_view() == (BodyV {
                blocks: unreachable_removed(old(body).deep_view().blocks),
                ..old(body).deep_view()
            }),
    {
        let ghost b0 = body.deep_view();
        let ghost bv = b0.blocks;
        let n = body.blocks.len();
        let keep = compute_reachable(&body.blocks);
        let mut all_reached = true;
        let mut i: usize = 0;
        while i < n
            invariant
                i <= n,
                n == keep.len(),
                all_reached ==> forall|j: int| 0 <= j < i ==> #[trigger] keep@[j],
                !all_reached ==> exists|j: int| 0 <= j < n && !(#[trigger] keep@[j]),
            decreases n - i,
        {
            if !keep[i] {
                all_reached = false;
            }
            i = i + 1;
        }
        if all_reached {
            return;
        }
        let ids = ranks(&keep);
        let ghost all = Seq::new(
            bv.len(),
            |i: int|
                BlockV {
                    terminator: armless_to_goto(retarget(bv[i].terminator, renumbering(keep@))),
                    ..bv[i]
                },
        );
        let mut new_blocks: Vec<MirBlock> = Vec::new();
        let mut k: usize = 0;
        assert(new_blocks.deep_view() =~= compact(all, keep@, 0));
        while k < n
            invariant
                k <= n,
                n == body.blocks.len(),
                b0 == body.deep_view(),
                bv == b0.blocks,
                targets_ok(bv),
                keep.len() == n,
                ids.len() == n,
                all == Seq::new(
                    bv.len(),
                    |i: int|
                        BlockV {
                            terminator: armless_to_goto(
                                retarget(bv[i].terminator, renumbering(keep@)),
                            ),
                            ..bv[i]
                        },
                ),
                forall|j: int| 0 <= j < n ==> #[trigger] ids@[j] == rank(keep@, j),
                new_blocks.deep_view() == compact(all, keep@, k as int),
            decreases n - k,
        {
            if keep[k] {
                let block = &body.blocks[k];
                proof {
                    assert(bv[k as int] == block.deep_view());
                    let tv = bv[k as int].terminator;
                    assert(term_in_range(tv, bv.len() as int));
                    assert forall|x: int| 0 <= x < successors_of(tv).len() implies by_table(ids@)(
                        #[trigger] successors_of(tv)[x],
                    ) == renumbering(keep@)(successors_of(tv)[x]) by {
                        let t = successors_of(tv)[x];
                        assert(ids@[t as int] == rank(keep@, t as int));
                    }
                    lemma_retarget_agrees(tv, by_table(ids@), renumbering(keep@));
                }
                let terminator = crate::control::Control::without_armless_switch(
                    retarget_by(&block.terminator, &ids),
                );
                let ghost nb0 = new_blocks.deep_view();
                let b = MirBlock {
                    id: block.id,
                    stmts: crate::mir::clone_stmts(&block.stmts),
                    terminator,
                };
                new_blocks.push(b);
                assert(new_blocks.deep_view() =~= nb0.push(all[k as int]));
            }
            k = k + 1;
        }
        body.blocks = new_blocks;
    }

    /// The number of statements of all blocks.
    fn count_stmts(blocks: &Vec<MirBlock>) -> (r: u128)
        ensures
            r == stmt_count(blocks.deep_view(), blocks.deep_view().len() as int),
    {
        let ghost bv = blocks.deep_view();
        let mut total: u128 = 0;
        let mut i: usize = 0;
        while i < blocks.len()
            invariant
                i <= blocks.len(),
                bv == blocks.deep_view(),
                total == stmt_count(bv, i as int),
                total <= i * 0xffff_ffff_ffff_ffff,
            decreases blocks.len() - i,
        {
            assert(bv[i as int] == blocks@[i as int].deep_view());
            total = total + blocks[i].stmts.len() as u128;
            i = i + 1;
        }
        total
    }

    fn optimize_function(f: &mut MirFn)
        requires
            targets_ok(old(f).deep_view().body.blocks),
        ensures
            final(f).deep_view() == optimized_fn(old(f).deep_view()),
    {
        let ghost f0 = f.deep_view();
        let copy_types = Self::copy_types(&f.body.locals);
        let ghost copied = copied_locals(f0.body.locals, f0.body.locals.len() as int);
        let mut left: usize = MAX_OPT_ITERATIONS;
        while left > 0
            invariant_except_break
                opt_rounds(f0.body.blocks, copied, MAX_OPT_ITERATIONS as nat) == opt_rounds(
                    f.deep_view().body.blocks,
                    copied,
                    left as nat,
                ),
            invariant
                copied == copy_types.deep_view(),
                targets_ok(f.deep_view().body.blocks),
                f.deep_view() == (FnV {
                    body: BodyV { blocks: f.deep_view().body.blocks, ..f0.body },
                    ..f0
                }),
            ensures
                f.deep_view() == (FnV {
                    body: BodyV { blocks: f.deep_view().body.blocks, ..f0.body },
                    ..f0
                }),
                f.deep_view().body.blocks == opt_rounds(
                    f0.body.blocks,
                    copied,
                    MAX_OPT_ITERATIONS as nat,
                ),
            decreases left,
        {
            let ghost bs = f.deep_view().body.blocks;
            let before_blocks = f.body.blocks.len();
            let before_stmts = Self::count_stmts(&f.body.blocks);
            proof {
                lemma_opt_round_ok(bs, copied);
            }
            Self::fold_blocks(&mut f.body, &copy_types);
            Self::simplify_phi(&mut f.body);
            Self::eliminate_dead_stores(&mut f.body);
            Self::collapse_empty_blocks(&mut f.body);
            Self::remove_dead_blocks(&mut f.body);
            assert(f.deep_view().body.blocks == opt_round(bs, copied));
            let after_blocks = f.body.blocks.len();
            let after_stmts = Self::count_stmts(&f.body.blocks);
            if after_blocks == before_blocks && after_stmts == before_stmts {
                break;
            }
            left = left - 1;
        }
    }

    /// Optimises every function.
    pub fn run(program: MirProgram) -> (r: MirProgram)
        requires
            forall|i: int|
                0 <= i < program.deep_view().fns.len() ==> targets_ok(
                    (#[trigger] program.deep_view().fns[i]).body.blocks,
                ),
        ensures
            r.deep_view() == optimized(program.deep_view()),
    {
        let ghost p0 = program.deep_view();
        let mut program = program;
        let mut i: usize = 0;
        while i < program.fns.len()
            invariant
                i <= program.fns.len(),
                program.fns.len() == p0.fns.len(),
                program.structs.deep_view() == p0.structs,
                program.enums.deep_view() == p0.enums,
                program.intrinsics_used.deep_view() == p0.intrinsics_used,
                forall|j: int|
                    0 <= j < p0.fns.len() ==> targets_ok((#[trigger] p0.fns[j]).body.blocks),
                forall|j: int|
                    0 <= j < i ==> (#[trigger] program.fns@[j]).deep_view() == optimized_fn(
                        p0.fns[j],
                    ),
                forall|j: int|
                    i <= j < program.fns.len() ==> (#[trigger] program.fns@[j]).deep_view()
                        == p0.fns[j],
            decreases program.fns.len() - i,
        {
            assert(program.fns@[i as int].deep_view() == p0.fns[i as int]);
            Self::optimize_function(&mut program.fns[i]);
            i = i + 1;
        }
        assert(program.fns.deep_view() =~= optimized(p0).fns);
        program
    }
}

} // verus!
