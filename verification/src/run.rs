//! What it means to run a body: which statements are executed, and how it ends.

use vstd::prelude::*;

use crate::cfg::{retarget, successors_of};
use crate::fold::switch_target;
use crate::literal::LiteralV;
use crate::mir::{BlockV, OperandV, StmtV, TermV};
use crate::simplify::lemma_switch_target_named;

verus! {

/// How a run ended: the statements that were executed, in order, and the terminator
/// that passed control to no block.
pub struct Outcome {
    pub trace: Seq<StmtV>,
    pub end: TermV,
}

/// The value that an operand has once the given statements were executed.
pub type Eval = spec_fn(Seq<StmtV>, OperandV) -> LiteralV;

/// The block that a terminator passes control to after the given statements.
pub open spec fn next_block(t: TermV, eval: Eval, trace: Seq<StmtV>) -> Option<usize> {
    match t {
        TermV::Goto(x) => Some(x),
        TermV::If { cond, then_block, else_block } => Some(
            if eval(trace, cond) == LiteralV::Bool(true) {
                then_block
            } else {
                else_block
            },
        ),
        TermV::Switch { discr, discr_ty, targets, default } => Some(
            switch_target(targets, eval(trace, discr), default),
        ),
        _ => None,
    }
}

/// How running ends from block `b` on, if it does so within `fuel` blocks.
pub open spec fn run(blocks: Seq<BlockV>, eval: Eval, b: int, trace: Seq<StmtV>, fuel: nat) -> Option<
    Outcome,
>
    decreases fuel,
{
    if fuel == 0 || b < 0 || b >= blocks.len() {
        None
    } else {
        let after = trace + blocks[b].stmts;
        match next_block(blocks[b].terminator, eval, after) {
            None => Some(Outcome { trace: after, end: blocks[b].terminator }),
            Some(x) => run(blocks, eval, x as int, after, (fuel - 1) as nat),
        }
    }
}

/// The statements that were executed once running went on from block `b` through at
/// most `n` blocks.
pub open spec fn walked(blocks: Seq<BlockV>, eval: Eval, b: int, trace: Seq<StmtV>, n: nat) -> Seq<
    StmtV,
>
    decreases n,
{
    if n == 0 || b < 0 || b >= blocks.len() {
        trace
    } else {
        let after = trace + blocks[b].stmts;
        match next_block(blocks[b].terminator, eval, after) {
            None => after,
            Some(x) => walked(blocks, eval, x as int, after, (n - 1) as nat),
        }
    }
}

/// Whether running from block `b` on ends with the given outcome.
pub open spec fn finishes(
    blocks: Seq<BlockV>,
    eval: Eval,
    b: int,
    trace: Seq<StmtV>,
    o: Outcome,
) -> bool {
    exists|n: nat| #[trigger] run(blocks, eval, b, trace, n) == Some(o)
}

/// Whether two bodies do the same from their entry blocks on: a run of one ends if and
/// only if the run of the other does, and then with the same outcome.
pub open spec fn same_runs(a: Seq<BlockV>, b: Seq<BlockV>, eval: Eval) -> bool {
    forall|o: Outcome| #[trigger]
        finishes(a, eval, 0, Seq::empty(), o) <==> finishes(b, eval, 0, Seq::empty(), o)
}

/// A run that ends, ends the same way with more fuel.
pub proof fn lemma_run_more(
    blocks: Seq<BlockV>,
    eval: Eval,
    b: int,
    trace: Seq<StmtV>,
    n: nat,
    m: nat,
)
    requires
        n <= m,
        run(blocks, eval, b, trace, n) is Some,
    ensures
        run(blocks, eval, b, trace, m) == run(blocks, eval, b, trace, n),
    decreases n,
{
    let after = trace + blocks[b].stmts;
    if let Some(x) = next_block(blocks[b].terminator, eval, after) {
        lemma_run_more(blocks, eval, x as int, after, (n - 1) as nat, (m - 1) as nat);
    }
}

/// A run that ended executed what was executed on the way.
pub proof fn lemma_run_walked(
    blocks: Seq<BlockV>,
    eval: Eval,
    b: int,
    trace: Seq<StmtV>,
    n: nat,
)
    requires
        run(blocks, eval, b, trace, n) is Some,
    ensures
        run(blocks, eval, b, trace, n)->0.trace == walked(blocks, eval, b, trace, n),
    decreases n,
{
    let after = trace + blocks[b].stmts;
    if let Some(x) = next_block(blocks[b].terminator, eval, after) {
        lemma_run_walked(blocks, eval, x as int, after, (n - 1) as nat);
    }
}

/// A run ends in one way only.
pub proof fn lemma_outcome_unique(
    blocks: Seq<BlockV>,
    eval: Eval,
    b: int,
    trace: Seq<StmtV>,
    o: Outcome,
    p: Outcome,
)
    requires
        finishes(blocks, eval, b, trace, o),
        finishes(blocks, eval, b, trace, p),
    ensures
        o == p,
{
    let n = choose|n: nat| #[trigger] run(blocks, eval, b, trace, n) == Some(o);
    let m = choose|m: nat| #[trigger] run(blocks, eval, b, trace, m) == Some(p);
    if n <= m {
        lemma_run_more(blocks, eval, b, trace, n, m);
    } else {
        lemma_run_more(blocks, eval, b, trace, m, n);
    }
}

/// Control passes to a successor.
pub proof fn lemma_next_named(t: TermV, eval: Eval, trace: Seq<StmtV>)
    ensures
        next_block(t, eval, trace) matches Some(x) ==> successors_of(t).contains(x),
{
    let s = successors_of(t);
    match t {
        TermV::Goto(x) => {
            assert(s[0] == x);
        },
        TermV::If { cond, then_block, else_block } => {
            assert(s[0] == then_block && s[1] == else_block);
        },
        TermV::Switch { discr, discr_ty, targets, default } => {
            let v = eval(trace, discr);
            lemma_switch_target_named(targets, v, default);
            let x = switch_target(targets, v, default);
            assert(s[targets.len() as int] == default);
            if x != default {
                let i = choose|i: int| 0 <= i < targets.len() && (#[trigger] targets[i]).1 == x;
                assert(s[i] == x);
            }
        },
        _ => {},
    }
}

/// Renumbering the arms of a switch renumbers where it goes.
proof fn lemma_switch_mapped(
    targets: Seq<(LiteralV, usize)>,
    default: usize,
    v: LiteralV,
    f: spec_fn(usize) -> usize,
)
    ensures
        switch_target(
            Seq::new(targets.len(), |i: int| (targets[i].0, f(targets[i].1))),
            v,
            f(default),
        ) == f(switch_target(targets, v, default)),
    decreases targets.len(),
{
    let mapped = Seq::new(targets.len(), |i: int| (targets[i].0, f(targets[i].1)));
    if targets.len() > 0 {
        let rest = targets.drop_first();
        lemma_switch_mapped(rest, default, v, f);
        assert(mapped.drop_first() =~= Seq::new(rest.len(), |i: int| (rest[i].0, f(rest[i].1))));
    }
}

/// Renumbering the blocks that a terminator names renumbers where it goes.
pub proof fn lemma_next_retargeted(
    t: TermV,
    f: spec_fn(usize) -> usize,
    eval: Eval,
    trace: Seq<StmtV>,
)
    ensures
        next_block(retarget(t, f), eval, trace) == match next_block(t, eval, trace) {
            Some(x) => Some(f(x)),
            None => None,
        },
        next_block(t, eval, trace) is None ==> retarget(t, f) == t,
{
    if let TermV::Switch { discr, discr_ty, targets, default } = t {
        lemma_switch_mapped(targets, default, eval(trace, discr), f);
    }
}

/// A switch whose arms all name one block goes there.
pub proof fn lemma_switch_trivial(targets: Seq<(LiteralV, usize)>, default: usize, v: LiteralV)
    requires
        forall|i: int| 0 <= i < targets.len() ==> (#[trigger] targets[i]).1 == default,
    ensures
        switch_target(targets, v, default) == default,
{
    lemma_switch_target_named(targets, v, default);
}

} // verus!
