//! Laws of the optimiser: what an optimised body computes, the body computes.

use vstd::prelude::*;

use crate::cfg::{
    lemma_compact_index, lemma_entry_reachable, rank, reachable, reachable_set, renumbering,
    retarget, successors_of, targets_ok, term_in_range,
};
use crate::control::{armless_to_goto, lemma_kept_target};
use crate::control_laws::hops;
use crate::fold::known_at;
use crate::machine::{
    eval_of, honest, honest_from, seen, store_after, trace_truthful, yields, Machine, Seen, Store,
};
use crate::mir::{BlockV, ProgramV, StmtV, TermV};
use crate::run::{
    finishes, lemma_next_named, lemma_next_retargeted, lemma_outcome_unique, lemma_run_walked,
    next_block, run, same_runs, walked, Eval, Outcome,
};
use crate::simplify::{
    blocks_folded, collapse_keeps, collapsed_target, copied_locals, empties_collapsed,
    lemma_opt_round_ok, lemma_resolved_range, live_stmts, only_jumps, opt_round, opt_rounds,
    optimized, resolved, stores_removed, unreachable_removed, MAX_OPT_ITERATIONS,
};
use crate::simplify_laws::{alike, body_ok, folded_stmts, tidy};
use crate::simplify_laws::{
    lemma_block_kept, lemma_block_used, lemma_collapsed_block, lemma_collapsed_kept_ok,
    lemma_collapsed_len, lemma_collapsed_runs, lemma_folded_ok, lemma_folded_yields,
    lemma_live_block, lemma_live_ok, lemma_live_yields, lemma_no_phis_reduced,
    lemma_optimized_yields, lemma_resolved_hops, lemma_same_yield, lemma_stmt_used,
    lemma_term_kept, lemma_unreachable_kept_ok, lemma_unreachable_runs, lemma_value_alike,
    orderly,
};
use crate::uses::{blocks_locals, stmt_locals};

verus! {

/// What is true of all that is computed from a block on is true of the block and of all
/// that is computed from the next block on.
proof fn lemma_honest_step(
    blocks: Seq<BlockV>,
    m: Machine,
    start: Store,
    b: int,
    h: Seq<StmtV>,
)
    requires
        honest_from(blocks, m, start, b, h),
        0 <= b < blocks.len(),
    ensures
        trace_truthful(m, start, h + blocks[b].stmts),
        next_block(blocks[b].terminator, eval_of(m, start), h + blocks[b].stmts) matches Some(x)
            ==> honest_from(blocks, m, start, x as int, h + blocks[b].stmts),
{
    let eval = eval_of(m, start);
    let after = h + blocks[b].stmts;
    assert(trace_truthful(m, start, walked(blocks, eval, b, h, 1)));
    match next_block(blocks[b].terminator, eval, after) {
        Some(x) => {
            assert(walked(blocks, eval, x as int, after, 0) == after);
            assert forall|n: nat|
                trace_truthful(
                    m,
                    start,
                    #[trigger] walked(blocks, eval, x as int, after, n),
                ) by {
                assert(trace_truthful(m, start, walked(blocks, eval, b, h, n + 1)));
            }
        },
        None => {},
    }
}

/// A body of which the identities are true yields something where it runs to an end.
proof fn lemma_honest_yields(blocks: Seq<BlockV>, m: Machine, start: Store, n: nat) -> (r: Seen)
    requires
        honest(blocks, m, start),
        run(blocks, eval_of(m, start), 0, Seq::empty(), n) is Some,
    ensures
        yields(blocks, m, start, r),
{
    let eval = eval_of(m, start);
    let e = Seq::<StmtV>::empty();
    let o = run(blocks, eval, 0, e, n)->0;
    lemma_run_walked(blocks, eval, 0, e, n);
    assert(finishes(blocks, eval, 0, e, o));
    seen(m, start, o)
}

/// A body yields one thing only.
pub proof fn lemma_yield_unique(blocks: Seq<BlockV>, m: Machine, start: Store, r: Seen, s: Seen)
    requires
        yields(blocks, m, start, r),
        yields(blocks, m, start, s),
    ensures
        r == s,
{
    let eval = eval_of(m, start);
    let e = Seq::<StmtV>::empty();
    let o = choose|o: Outcome| #[trigger]
        finishes(blocks, eval, 0, e, o) && trace_truthful(m, start, o.trace) && seen(m, start, o)
            == r;
    let p = choose|o: Outcome| #[trigger]
        finishes(blocks, eval, 0, e, o) && trace_truthful(m, start, o.trace) && seen(m, start, o)
            == s;
    lemma_outcome_unique(blocks, eval, 0, e, o, p);
}

/// A body that yields something runs to an end.
proof fn lemma_yield_ends(blocks: Seq<BlockV>, m: Machine, start: Store, r: Seen) -> (n: nat)
    requires
        yields(blocks, m, start, r),
    ensures
        run(blocks, eval_of(m, start), 0, Seq::empty(), n) is Some,
{
    let eval = eval_of(m, start);
    let e = Seq::<StmtV>::empty();
    let o = choose|o: Outcome| #[trigger]
        finishes(blocks, eval, 0, e, o) && trace_truthful(m, start, o.trace) && seen(m, start, o)
            == r;
    choose|n: nat| #[trigger] run(blocks, eval, 0, e, n) == Some(o)
}

// Folding.

/// A body and the folded body run in step.
proof fn lemma_folded_step(
    blocks: Seq<BlockV>,
    copied: Set<usize>,
    m: Machine,
    start: Store,
    b: int,
    h: Seq<StmtV>,
    h2: Seq<StmtV>,
    n: nat,
)
    requires
        body_ok(blocks),
        honest_from(blocks, m, start, b, h),
        store_after(m, start, h) == store_after(m, start, h2),
        trace_truthful(m, start, h2),
    ensures
        trace_truthful(
            m,
            start,
            walked(blocks_folded(blocks, copied), eval_of(m, start), b, h2, n),
        ),
        run(blocks_folded(blocks, copied), eval_of(m, start), b, h2, n) is Some <==> run(
            blocks,
            eval_of(m, start),
            b,
            h,
            n,
        ) is Some,
    decreases n,
{
    let eval = eval_of(m, start);
    let r = blocks_folded(blocks, copied);
    if n > 0 && 0 <= b < blocks.len() {
        let stmts = blocks[b].stmts;
        let after = h + stmts;
        let fs = folded_stmts(stmts, copied);
        let after2 = h2 + fs;
        let t = blocks[b].terminator;
        let known = known_at(stmts, stmts.len() as int, copied);
        assert(r[b].stmts =~= fs);
        assert forall|j: int| 0 <= j < stmts.len() implies tidy(#[trigger] stmts[j]) by {
            assert(tidy(blocks[b].stmts[j]));
        }
        assert(orderly(blocks[b].stmts));
        lemma_honest_step(blocks, m, start, b, h);
        lemma_block_kept(m, start, h, h2, stmts, copied);
        lemma_term_kept(m, t, known, start, after, after2);
        if let Some(x) = next_block(t, eval, after) {
            lemma_folded_step(
                blocks,
                copied,
                m,
                start,
                x as int,
                after,
                after2,
                (n - 1) as nat,
            );
        }
    }
}

/// What the folded body yields, the body yields.
proof fn lemma_folded_back(blocks: Seq<BlockV>, copied: Set<usize>, m: Machine, start: Store, r: Seen)
    requires
        body_ok(blocks),
        honest(blocks, m, start),
    ensures
        honest(blocks_folded(blocks, copied), m, start),
        yields(blocks_folded(blocks, copied), m, start, r) ==> yields(blocks, m, start, r),
{
    let f = blocks_folded(blocks, copied);
    let eval = eval_of(m, start);
    let e = Seq::<StmtV>::empty();
    assert forall|n: nat| trace_truthful(m, start, #[trigger] walked(f, eval, 0, e, n)) by {
        lemma_folded_step(blocks, copied, m, start, 0, e, e, n);
    }
    if yields(f, m, start, r) {
        let n = lemma_yield_ends(f, m, start, r);
        lemma_folded_step(blocks, copied, m, start, 0, e, e, n);
        let s = lemma_honest_yields(blocks, m, start, n);
        lemma_folded_yields(blocks, copied, m, start, s);
        lemma_yield_unique(f, m, start, r, s);
    }
}

// Dead stores.

/// A body and the body without dead stores run in step.
proof fn lemma_live_step(
    blocks: Seq<BlockV>,
    m: Machine,
    start: Store,
    b: int,
    h: Seq<StmtV>,
    h2: Seq<StmtV>,
    n: nat,
)
    requires
        honest_from(blocks, m, start, b, h),
        alike(
            blocks_locals(blocks, blocks.len() as int),
            store_after(m, start, h),
            store_after(m, start, h2),
        ),
        trace_truthful(m, start, h2),
    ensures
        trace_truthful(
            m,
            start,
            walked(stores_removed(blocks), eval_of(m, start), b, h2, n),
        ),
        run(stores_removed(blocks), eval_of(m, start), b, h2, n) is Some <==> run(
            blocks,
            eval_of(m, start),
            b,
            h,
            n,
        ) is Some,
    decreases n,
{
    let eval = eval_of(m, start);
    let r = stores_removed(blocks);
    let used = blocks_locals(blocks, blocks.len() as int);
    if n > 0 && 0 <= b < blocks.len() {
        let stmts = blocks[b].stmts;
        let t = blocks[b].terminator;
        let after = h + stmts;
        let after2 = h2 + live_stmts(stmts, used);
        lemma_block_used(blocks, blocks.len() as int, b);
        assert forall|j: int| 0 <= j < stmts.len() implies stmt_locals(
            #[trigger] stmts[j],
        ).subset_of(used) by {
            lemma_stmt_used(stmts, stmts.len() as int, j);
        }
        lemma_honest_step(blocks, m, start, b, h);
        lemma_live_block(m, start, h, h2, stmts, used);
        let a = store_after(m, start, after);
        let c = store_after(m, start, after2);
        match t {
            TermV::If { cond, .. } => {
                lemma_value_alike(m, cond, used, a, c);
            },
            TermV::Switch { discr, .. } => {
                lemma_value_alike(m, discr, used, a, c);
            },
            _ => {},
        }
        assert(next_block(t, eval, after2) == next_block(t, eval, after));
        if let Some(x) = next_block(t, eval, after) {
            lemma_live_step(blocks, m, start, x as int, after, after2, (n - 1) as nat);
        }
    }
}

/// What the body without dead stores yields, the body yields.
proof fn lemma_live_back(blocks: Seq<BlockV>, m: Machine, start: Store, r: Seen)
    requires
        honest(blocks, m, start),
    ensures
        honest(stores_removed(blocks), m, start),
        yields(stores_removed(blocks), m, start, r) ==> yields(blocks, m, start, r),
{
    let f = stores_removed(blocks);
    let eval = eval_of(m, start);
    let e = Seq::<StmtV>::empty();
    assert forall|n: nat| trace_truthful(m, start, #[trigger] walked(f, eval, 0, e, n)) by {
        lemma_live_step(blocks, m, start, 0, e, e, n);
    }
    if yields(f, m, start, r) {
        let n = lemma_yield_ends(f, m, start, r);
        lemma_live_step(blocks, m, start, 0, e, e, n);
        let s = lemma_honest_yields(blocks, m, start, n);
        lemma_live_yields(blocks, m, start, s);
        lemma_yield_unique(f, m, start, r, s);
    }
}

// Blocks that only jump.

/// Hops do nothing.
proof fn lemma_hops_walked(
    blocks: Seq<BlockV>,
    eval: Eval,
    a: usize,
    b: usize,
    k: nat,
    trace: Seq<StmtV>,
    n: nat,
)
    requires
        hops(blocks, a, b, k),
    ensures
        walked(blocks, eval, a as int, trace, n + k) == walked(blocks, eval, b as int, trace, n),
    decreases k,
{
    if k > 0 {
        let x = blocks[a as int].terminator->Goto_0;
        assert(trace + blocks[a as int].stmts =~= trace);
        lemma_hops_walked(blocks, eval, x, b, (k - 1) as nat, trace, n);
    }
}

proof fn lemma_collapsed_walked(
    blocks: Seq<BlockV>,
    eval: Eval,
    b: int,
    trace: Seq<StmtV>,
    n: nat,
) -> (r: nat)
    requires
        targets_ok(blocks),
        0 <= b < blocks.len() <= usize::MAX,
        collapse_keeps(blocks)[b],
    ensures
        walked(blocks, eval, b, trace, r) == walked(
            empties_collapsed(blocks),
            eval,
            rank(collapse_keeps(blocks), b),
            trace,
            n,
        ),
    decreases n,
{
    if n == 0 {
        0
    } else {
        lemma_collapsed_block(blocks, b);
        let t = blocks[b].terminator;
        let after = trace + blocks[b].stmts;
        lemma_next_retargeted(t, collapsed_target(blocks), eval, after);
        lemma_next_named(t, eval, after);
        match next_block(t, eval, after) {
            None => n,
            Some(x) => {
                let n1 = (n - 1) as nat;
                assert(term_in_range(t, blocks.len() as int));
                let i = choose|i: int| 0 <= i < successors_of(t).len() && successors_of(t)[i] == x;
                assert(successors_of(t)[i] < blocks.len());
                lemma_resolved_range(blocks, x);
                let l = resolved(blocks, x);
                let k = lemma_resolved_hops(blocks, x);
                lemma_collapsed_block(blocks, l as int);
                lemma_collapsed_len(blocks);
                let r = lemma_collapsed_walked(blocks, eval, l as int, after, n1);
                lemma_hops_walked(blocks, eval, x, l, k, after, r);
                r + k + 1
            },
        }
    }
}

proof fn lemma_collapsed_honest(blocks: Seq<BlockV>, m: Machine, start: Store)
    requires
        targets_ok(blocks),
        blocks.len() <= usize::MAX,
        honest(blocks, m, start),
    ensures
        honest(empties_collapsed(blocks), m, start),
{
    let f = empties_collapsed(blocks);
    let eval = eval_of(m, start);
    let e = Seq::<StmtV>::empty();
    assert forall|n: nat| trace_truthful(m, start, #[trigger] walked(f, eval, 0, e, n)) by {
        if blocks.len() > 0 {
            assert(only_jumps(blocks, 0) is None);
            assert(rank(collapse_keeps(blocks), 0) == 0);
            let k = lemma_collapsed_walked(blocks, eval, 0, e, n);
            assert(trace_truthful(m, start, walked(blocks, eval, 0, e, k)));
        } else {
            lemma_collapsed_len(blocks);
        }
    }
}

// Unreachable blocks.

proof fn lemma_unreachable_walked(
    blocks: Seq<BlockV>,
    eval: Eval,
    b: int,
    trace: Seq<StmtV>,
    n: nat,
)
    requires
        targets_ok(blocks),
        0 <= b < blocks.len() <= usize::MAX,
        reachable(blocks, b),
        !(forall|i: int| 0 <= i < blocks.len() ==> #[trigger] reachable_set(blocks)[i]),
    ensures
        walked(unreachable_removed(blocks), eval, rank(reachable_set(blocks), b), trace, n)
            == walked(blocks, eval, b, trace, n),
    decreases n,
{
    let keep = reachable_set(blocks);
    let f = renumbering(keep);
    let all = Seq::new(
        blocks.len(),
        |i: int|
            BlockV {
                terminator: armless_to_goto(retarget(blocks[i].terminator, f)),
                ..blocks[i]
            },
    );
    lemma_compact_index(all, keep, blocks.len() as int, b);
    if n > 0 {
        let t = blocks[b].terminator;
        let after = trace + blocks[b].stmts;
        lemma_next_retargeted(t, f, eval, after);
        lemma_next_named(t, eval, after);
        if let Some(x) = next_block(t, eval, after) {
            let k = choose|k: int| 0 <= k < successors_of(t).len() && successors_of(t)[k] == x;
            lemma_kept_target(blocks, keep, b, k);
            lemma_unreachable_walked(blocks, eval, x as int, after, (n - 1) as nat);
        }
    }
}

proof fn lemma_unreachable_honest(blocks: Seq<BlockV>, m: Machine, start: Store)
    requires
        targets_ok(blocks),
        blocks.len() <= usize::MAX,
        honest(blocks, m, start),
    ensures
        honest(unreachable_removed(blocks), m, start),
{
    let f = unreachable_removed(blocks);
    let eval = eval_of(m, start);
    let e = Seq::<StmtV>::empty();
    if blocks.len() > 0 && f != blocks {
        lemma_entry_reachable(blocks);
        assert(rank(reachable_set(blocks), 0) == 0);
        assert forall|n: nat| trace_truthful(m, start, #[trigger] walked(f, eval, 0, e, n)) by {
            lemma_unreachable_walked(blocks, eval, 0, e, n);
            assert(trace_truthful(m, start, walked(blocks, eval, 0, e, n)));
        }
    }
}

// Rounds.

/// What a round of optimisation makes a body yield, the body yields.
pub proof fn lemma_round_back(
    blocks: Seq<BlockV>,
    copied: Set<usize>,
    m: Machine,
    start: Store,
    r: Seen,
)
    requires
        body_ok(blocks),
        honest(blocks, m, start),
    ensures
        body_ok(opt_round(blocks, copied)),
        honest(opt_round(blocks, copied), m, start),
        yields(opt_round(blocks, copied), m, start, r) ==> yields(blocks, m, start, r),
{
    let a = blocks_folded(blocks, copied);
    let c = stores_removed(a);
    let d = empties_collapsed(c);
    let f = unreachable_removed(d);
    let eval = eval_of(m, start);
    lemma_opt_round_ok(blocks, copied);
    lemma_folded_ok(blocks, copied);
    lemma_no_phis_reduced(a);
    lemma_live_ok(a);
    lemma_collapsed_kept_ok(c);
    lemma_unreachable_kept_ok(d);
    lemma_folded_back(blocks, copied, m, start, r);
    lemma_live_back(a, m, start, r);
    lemma_collapsed_honest(c, m, start);
    lemma_unreachable_honest(d, m, start);
    if yields(f, m, start, r) {
        lemma_unreachable_runs(d, eval);
        assert(same_runs(d, f, eval));
        lemma_same_yield(d, f, m, start, r);
        lemma_collapsed_runs(c, eval);
        assert(same_runs(c, d, eval));
        lemma_same_yield(c, d, m, start, r);
    }
}

/// What optimising makes a body yield, the body yields.
pub proof fn lemma_rounds_back(
    blocks: Seq<BlockV>,
    copied: Set<usize>,
    n: nat,
    m: Machine,
    start: Store,
    r: Seen,
)
    requires
        body_ok(blocks),
        honest(blocks, m, start),
        yields(opt_rounds(blocks, copied, n), m, start, r),
    ensures
        yields(blocks, m, start, r),
    decreases n,
{
    if n > 0 {
        let next = opt_round(blocks, copied);
        lemma_round_back(blocks, copied, m, start, r);
        if opt_rounds(blocks, copied, n) != next {
            lemma_rounds_back(next, copied, (n - 1) as nat, m, start, r);
        }
    }
}

/// An optimised function yields what the function yields and nothing else: the one runs
/// to an end where the other does, returns the same and leaves the same memory. The
/// algebraic identities have to be true of all that the function computes.
pub proof fn lemma_optimized_exact(p: ProgramV, i: int, m: Machine, start: Store, r: Seen)
    requires
        0 <= i < p.fns.len(),
        body_ok(p.fns[i].body.blocks),
        honest(p.fns[i].body.blocks, m, start),
    ensures
        yields(optimized(p).fns[i].body.blocks, m, start, r) <==> yields(
            p.fns[i].body.blocks,
            m,
            start,
            r,
        ),
{
    let f = p.fns[i];
    let copied = copied_locals(f.body.locals, f.body.locals.len() as int);
    if yields(f.body.blocks, m, start, r) {
        lemma_optimized_yields(p, i, m, start, r);
    }
    if yields(optimized(p).fns[i].body.blocks, m, start, r) {
        lemma_rounds_back(f.body.blocks, copied, MAX_OPT_ITERATIONS as nat, m, start, r);
    }
}

} // verus!
