//! Clean-up of control flow: trivial switches, chains of jumps, straight-line
//! block pairs, duplicate blocks and dead blocks.

use vstd::prelude::*;

use crate::cfg::{compute_reachable, ranks, retarget_by, successors};
use crate::cfg::{
    by_table, compact, lemma_compact_len, lemma_compact_source, lemma_rank_bounds,
    lemma_rank_monotone, lemma_reachable_step, edge, rank, reachable_set, renumbering, retarget,
    successors_of, targets_ok, term_in_range,
};
use crate::mir::{BlockV, BodyV, FnV, OperandV, ProgramV, RvalueV, StmtV, TermV};
use crate::mir::{
    MirBlock, MirBody, MirFn, MirOperand, MirProgram, MirRvalue, MirStmt, MirTerminator,
};
use crate::mir_eq::{same_stmts, same_terminator};
use crate::mir_eq::{stmts_eq, term_eq};

verus! {

/// The control-flow simplifier.
pub struct Control;

/// The number of rounds after which simplification of a function stops.
pub const MAX_ITERATIONS: usize = 64;

/// A switch whose arms all lead to its default block is a jump there.
pub open spec fn switch_simplified(t: TermV) -> TermV {
    match t {
        TermV::Switch { targets, default, .. } => if forall|i: int|
            0 <= i < targets.len() ==> (#[trigger] targets[i]).1 == default {
            TermV::Goto(default)
        } else {
            t
        },
        _ => t,
    }
}

/// The blocks with every trivial switch replaced.
pub open spec fn switches_simplified(blocks: Seq<BlockV>) -> Seq<BlockV> {
    Seq::new(
        blocks.len(),
        |i: int| BlockV { terminator: switch_simplified(blocks[i].terminator), ..blocks[i] },
    )
}

/// Where a jump to `cur` ends up when jumps through blocks without statements
/// are followed, until a block is met again. No walk takes more than `fuel`
/// steps where `fuel` is the number of blocks not yet met.
pub open spec fn chase(blocks: Seq<BlockV>, visited: Set<int>, cur: usize, fuel: nat) -> usize
    decreases fuel,
{
    if fuel == 0 || cur >= blocks.len() || visited.contains(cur as int) {
        cur
    } else {
        match blocks[cur as int].terminator {
            TermV::Goto(next) => if blocks[cur as int].stmts.len() == 0 {
                chase(blocks, visited.insert(cur as int), next, (fuel - 1) as nat)
            } else {
                cur
            },
            _ => cur,
        }
    }
}

/// Block `i` with its jump, if it ends in one, redirected past empty blocks.
pub open spec fn chain_one(blocks: Seq<BlockV>, i: int) -> Seq<BlockV> {
    match blocks[i].terminator {
        TermV::Goto(t) => blocks.update(
            i,
            BlockV {
                terminator: TermV::Goto(chase(blocks, set![i], t, blocks.len())),
                ..blocks[i]
            },
        ),
        _ => blocks,
    }
}

/// The blocks after the jumps of the first `n` were redirected, one by one.
pub open spec fn chained(blocks: Seq<BlockV>, n: int) -> Seq<BlockV>
    decreases n,
{
    if n <= 0 {
        blocks
    } else {
        chain_one(chained(blocks, n - 1), n - 1)
    }
}

/// How often `x` occurs in `s`.
pub open spec fn occurrences(s: Seq<usize>, x: usize) -> nat
    decreases s.len(),
{
    if s.len() == 0 {
        0
    } else {
        occurrences(s.drop_last(), x) + if s.last() == x {
            1nat
        } else {
            0
        }
    }
}

/// The number of edges into block `id` from the first `n` blocks.
pub open spec fn in_degree(blocks: Seq<BlockV>, id: usize, n: int) -> nat
    decreases n,
{
    if n <= 0 {
        0
    } else {
        in_degree(blocks, id, n - 1) + occurrences(successors_of(blocks[n - 1].terminator), id)
    }
}

/// Whether `p` jumps to `s` and nothing else leads to `s`, the entry aside.
pub open spec fn falls_through(blocks: Seq<BlockV>, p: int, s: int) -> bool {
    &&& 0 < s < blocks.len()
    &&& 0 <= p < blocks.len()
    &&& in_degree(blocks, s as usize, blocks.len() as int) == 1
    &&& blocks[p].terminator == TermV::Goto(s as usize)
}

/// Block `p` extended by the statements and the terminator of block `s`; block
/// `s` keeps nothing.
pub open spec fn absorb(blocks: Seq<BlockV>, p: int, s: int) -> Seq<BlockV> {
    let dead = BlockV { stmts: Seq::empty(), terminator: TermV::Unreachable, ..blocks[s] };
    if p == s {
        blocks.update(s, BlockV { terminator: TermV::Unreachable, ..blocks[s] })
    } else {
        blocks.update(
            p,
            BlockV {
                stmts: blocks[p].stmts + blocks[s].stmts,
                terminator: blocks[s].terminator,
                ..blocks[p]
            },
        ).update(s, dead)
    }
}

/// The blocks, and the set of blocks that took part in a merge, after the first
/// `n` blocks were considered. Which blocks may merge is read off the input; a
/// block takes part in one merge at most.
pub open spec fn merged(blocks: Seq<BlockV>, n: int) -> (Seq<BlockV>, Set<int>)
    decreases n,
{
    if n <= 0 {
        (blocks, Set::empty())
    } else {
        let s = n - 1;
        let (b, touched) = merged(blocks, s);
        if exists|p: int| falls_through(blocks, p, s) {
            let p = choose|p: int| falls_through(blocks, p, s);
            if touched.contains(p) || touched.contains(s) {
                (b, touched)
            } else {
                (absorb(b, p, s), touched.insert(p).insert(s))
            }
        } else {
            (b, touched)
        }
    }
}

/// Whether a statement is a phi.
pub open spec fn is_phi(s: StmtV) -> bool {
    s matches StmtV::Assign { value: RvalueV::Phi { .. }, .. }
}

/// Whether a block holds a phi.
pub open spec fn has_phi(b: BlockV) -> bool {
    exists|i: int| 0 <= i < b.stmts.len() && is_phi(#[trigger] b.stmts[i])
}

/// Whether two blocks without phis do the same.
pub open spec fn twins(blocks: Seq<BlockV>, i: int, j: int) -> bool {
    &&& !has_phi(blocks[i])
    &&& !has_phi(blocks[j])
    &&& stmts_eq(blocks[i].stmts, blocks[j].stmts)
    &&& term_eq(blocks[i].terminator, blocks[j].terminator)
}

/// The first block from `i` on, before `j`, that does the same as block `j` and
/// has no earlier twin itself.
pub open spec fn first_twin(blocks: Seq<BlockV>, j: int, i: int) -> Option<int>
    decreases j, j - i,
{
    if i < 1 || i >= j {
        None
    } else if first_twin(blocks, i, 1) is None && twins(blocks, i, j) {
        Some(i)
    } else {
        first_twin(blocks, j, i + 1)
    }
}

/// The block that stands for block `t`: its first twin, or itself.
pub open spec fn canonical(blocks: Seq<BlockV>) -> spec_fn(usize) -> usize {
    |t: usize|
        match first_twin(blocks, t as int, 1) {
            Some(i) => i as usize,
            None => t,
        }
}

/// The blocks with every target replaced by the block that stands for it.
pub open spec fn tails_merged(blocks: Seq<BlockV>) -> Seq<BlockV> {
    Seq::new(
        blocks.len(),
        |i: int|
            BlockV { terminator: retarget(blocks[i].terminator, canonical(blocks)), ..blocks[i] },
    )
}

/// The incoming values whose block stays, with the blocks renumbered.
pub open spec fn live_values(values: Seq<(usize, OperandV)>, keep: Seq<bool>) -> Seq<
    (usize, OperandV),
>
    decreases values.len(),
{
    if values.len() == 0 {
        Seq::empty()
    } else {
        let rest = live_values(values.drop_last(), keep);
        let (pred, op) = values.last();
        if keep[pred as int] {
            rest.push((rank(keep, pred as int) as usize, op))
        } else {
            rest
        }
    }
}

/// A phi without the values of blocks that go: nothing where none is left, a
/// plain use where one is.
pub open spec fn prune_stmt(s: StmtV, keep: Seq<bool>) -> Option<StmtV> {
    match s {
        StmtV::Assign { dest, value: RvalueV::Phi { values } } => {
            let live = live_values(values, keep);
            if live.len() == 0 {
                None
            } else if live.len() == 1 {
                Some(StmtV::Assign { dest, value: RvalueV::Use(live[0].1) })
            } else {
                Some(StmtV::Assign { dest, value: RvalueV::Phi { values: live } })
            }
        },
        _ => Some(s),
    }
}

/// The statements with every phi pruned.
pub open spec fn prune_stmts(stmts: Seq<StmtV>, keep: Seq<bool>) -> Seq<StmtV>
    decreases stmts.len(),
{
    if stmts.len() == 0 {
        Seq::empty()
    } else {
        let rest = prune_stmts(stmts.drop_last(), keep);
        match prune_stmt(stmts.last(), keep) {
            Some(s) => rest.push(s),
            None => rest,
        }
    }
}

/// A switch without arms is a jump to its default block.
pub open spec fn armless_to_goto(t: TermV) -> TermV {
    match t {
        TermV::Switch { targets, default, .. } => if targets.len() == 0 {
            TermV::Goto(default)
        } else {
            t
        },
        _ => t,
    }
}

/// A block that stays, renumbered.
pub open spec fn kept_block(b: BlockV, keep: Seq<bool>) -> BlockV {
    BlockV {
        id: b.id,
        stmts: prune_stmts(b.stmts, keep),
        terminator: armless_to_goto(retarget(b.terminator, renumbering(keep))),
    }
}

/// The reachable blocks, renumbered.
pub open spec fn dead_removed(blocks: Seq<BlockV>) -> Seq<BlockV> {
    let keep = reachable_set(blocks);
    compact(
        Seq::new(blocks.len(), |i: int| kept_block(blocks[i], keep)),
        keep,
        blocks.len() as int,
    )
}

/// One round of simplification.
pub open spec fn simplify_round(blocks: Seq<BlockV>) -> Seq<BlockV> {
    let a = switches_simplified(blocks);
    let b = chained(a, a.len() as int);
    let c = merged(b, b.len() as int).0;
    dead_removed(tails_merged(c))
}

/// At most `n` rounds, up to the first that leaves the number of blocks as it is.
pub open spec fn simplify_rounds(blocks: Seq<BlockV>, n: nat) -> Seq<BlockV>
    decreases n,
{
    if n == 0 {
        blocks
    } else {
        let next = simplify_round(blocks);
        if next.len() == blocks.len() {
            next
        } else {
            simplify_rounds(next, (n - 1) as nat)
        }
    }
}

/// The function with its blocks simplified.
pub open spec fn simplified_fn(f: FnV) -> FnV {
    FnV {
        body: BodyV {
            blocks: simplify_rounds(f.body.blocks, MAX_ITERATIONS as nat),
            ..f.body
        },
        ..f
    }
}

/// The program with every function simplified.
pub open spec fn simplified(p: ProgramV) -> ProgramV {
    ProgramV { fns: Seq::new(p.fns.len(), |i: int| simplified_fn(p.fns[i])), ..p }
}

/// Whether every block that a phi of the statement names is below `n`.
pub open spec fn phi_in_range(s: StmtV, n: int) -> bool {
    s matches StmtV::Assign { value: RvalueV::Phi { values }, .. } ==> forall|k: int|
        0 <= k < values.len() ==> (#[trigger] values[k]).0 < n
}

/// Whether every block that a phi names exists.
pub open spec fn phis_ok(blocks: Seq<BlockV>) -> bool {
    forall|i: int, j: int|
        0 <= i < blocks.len() && 0 <= j < blocks[i].stmts.len() ==> phi_in_range(
            #[trigger] blocks[i].stmts[j],
            blocks.len() as int,
        )
}

/// Whether every block that the blocks name exists.
pub open spec fn cfg_ok(blocks: Seq<BlockV>) -> bool {
    targets_ok(blocks) && phis_ok(blocks)
}

/// Two different blocks that each have an edge into `id` give it two.
pub proof fn lemma_in_degree_two(blocks: Seq<BlockV>, id: usize, n: int, p: int, q: int)
    requires
        0 <= p < n,
        0 <= q < n,
    ensures
        in_degree(blocks, id, n) >= occurrences(successors_of(blocks[p].terminator), id),
        p != q ==> in_degree(blocks, id, n) >= occurrences(
            successors_of(blocks[p].terminator),
            id,
        ) + occurrences(successors_of(blocks[q].terminator), id),
    decreases n,
{
    if p < n - 1 && q < n - 1 {
        lemma_in_degree_two(blocks, id, n - 1, p, q);
    } else if p < n - 1 {
        lemma_in_degree_two(blocks, id, n - 1, p, p);
    } else if q < n - 1 {
        lemma_in_degree_two(blocks, id, n - 1, q, q);
    }
}

/// A jump names its target once.
pub proof fn lemma_goto_occurs(x: usize)
    ensures
        occurrences(seq![x], x) == 1,
{
    reveal_with_fuel(occurrences, 2);
}

/// At most one block falls through to a given one.
pub proof fn lemma_falls_through_unique(blocks: Seq<BlockV>, p: int, q: int, s: int)
    requires
        falls_through(blocks, p, s),
        falls_through(blocks, q, s),
    ensures
        p == q,
{
    lemma_goto_occurs(s as usize);
    lemma_in_degree_two(blocks, s as usize, blocks.len() as int, p, q);
}

/// Renumberings that agree on the blocks that a terminator names have the same
/// effect on it.
pub proof fn lemma_retarget_agrees(
    t: TermV,
    f: spec_fn(usize) -> usize,
    g: spec_fn(usize) -> usize,
)
    requires
        forall|k: int|
            0 <= k < successors_of(t).len() ==> f(#[trigger] successors_of(t)[k]) == g(
                successors_of(t)[k],
            ),
    ensures
        retarget(t, f) == retarget(t, g),
{
    let s = successors_of(t);
    match t {
        TermV::Goto(x) => {
            assert(s[0] == x);
        },
        TermV::If { then_block, else_block, .. } => {
            assert(s[0] == then_block && s[1] == else_block);
        },
        TermV::Switch { targets, default, .. } => {
            assert(s[targets.len() as int] == default);
            assert forall|i: int| 0 <= i < targets.len() implies f(targets[i].1) == g(
                (#[trigger] targets[i]).1,
            ) by {
                assert(s[i] == targets[i].1);
            }
            assert(retarget(t, f)->targets =~= retarget(t, g)->targets);
        },
        _ => {},
    }
}

/// Replacing trivial switches names no new block.
pub proof fn lemma_switches_ok(blocks: Seq<BlockV>)
    requires
        cfg_ok(blocks),
    ensures
        cfg_ok(switches_simplified(blocks)),
{
    let r = switches_simplified(blocks);
    assert forall|a: int| 0 <= a < r.len() implies term_in_range(
        (#[trigger] r[a]).terminator,
        r.len() as int,
    ) by {
        let t = blocks[a].terminator;
        assert(term_in_range(t, blocks.len() as int));
        if let TermV::Switch { targets, default, .. } = t {
            assert(successors_of(t)[targets.len() as int] == default);
        }
    }
    assert forall|i: int, j: int| 0 <= i < r.len() && 0 <= j < r[i].stmts.len() implies phi_in_range(
        #[trigger] r[i].stmts[j],
        r.len() as int,
    ) by {
        assert(phi_in_range(blocks[i].stmts[j], blocks.len() as int));
    }
}

/// Following jumps stays within the blocks.
proof fn lemma_chase_range(blocks: Seq<BlockV>, visited: Set<int>, cur: usize, fuel: nat)
    requires
        targets_ok(blocks),
        cur < blocks.len(),
    ensures
        chase(blocks, visited, cur, fuel) < blocks.len(),
    decreases fuel,
{
    if fuel > 0 && !visited.contains(cur as int) {
        match blocks[cur as int].terminator {
            TermV::Goto(next) => {
                assert(term_in_range(blocks[cur as int].terminator, blocks.len() as int));
                assert(successors_of(blocks[cur as int].terminator)[0] == next);
                if blocks[cur as int].stmts.len() == 0 {
                    lemma_chase_range(
                        blocks,
                        visited.insert(cur as int),
                        next,
                        (fuel - 1) as nat,
                    );
                }
            },
            _ => {},
        }
    }
}

/// Redirecting jumps keeps the blocks and their statements, and names no block
/// that does not exist.
pub proof fn lemma_chained_ok(blocks: Seq<BlockV>, n: int)
    requires
        cfg_ok(blocks),
        0 <= n <= blocks.len(),
    ensures
        cfg_ok(chained(blocks, n)),
        chained(blocks, n).len() == blocks.len(),
    decreases n,
{
    if n > 0 {
        lemma_chained_ok(blocks, n - 1);
        let b = chained(blocks, n - 1);
        let i = n - 1;
        match b[i].terminator {
            TermV::Goto(t) => {
                assert(term_in_range(b[i].terminator, b.len() as int));
                assert(successors_of(b[i].terminator)[0] == t);
                lemma_chase_range(b, set![i], t, b.len());
                let r = chain_one(b, i);
                assert forall|x: int, y: int|
                    0 <= x < r.len() && 0 <= y < r[x].stmts.len() implies phi_in_range(
                    #[trigger] r[x].stmts[y],
                    r.len() as int,
                ) by {
                    assert(phi_in_range(b[x].stmts[y], b.len() as int));
                }
            },
            _ => {},
        }
    }
}

/// Merging keeps the number of blocks and names no block that does not exist.
pub proof fn lemma_merged_ok(blocks: Seq<BlockV>, n: int)
    requires
        cfg_ok(blocks),
        0 <= n <= blocks.len(),
    ensures
        cfg_ok(merged(blocks, n).0),
        merged(blocks, n).0.len() == blocks.len(),
    decreases n,
{
    if n > 0 {
        lemma_merged_ok(blocks, n - 1);
        let s = n - 1;
        let b = merged(blocks, s).0;
        let touched = merged(blocks, s).1;
        if exists|p: int| falls_through(blocks, p, s) {
            let p = choose|p: int| falls_through(blocks, p, s);
            let r = absorb(b, p, s);
            assert(term_in_range(b[s].terminator, b.len() as int));
            assert forall|x: int, y: int|
                0 <= x < r.len() && 0 <= y < r[x].stmts.len() implies phi_in_range(
                #[trigger] r[x].stmts[y],
                r.len() as int,
            ) by {
                if x == p && p != s {
                    if y < b[p].stmts.len() {
                        assert(phi_in_range(b[p].stmts[y], b.len() as int));
                    } else {
                        assert(phi_in_range(b[s].stmts[y - b[p].stmts.len()], b.len() as int));
                    }
                } else {
                    assert(phi_in_range(b[x].stmts[y], b.len() as int));
                }
            }
            assert forall|a: int| 0 <= a < r.len() implies term_in_range(
                (#[trigger] r[a]).terminator,
                r.len() as int,
            ) by {
                assert(term_in_range(b[a].terminator, b.len() as int));
            }
        }
    }
}

/// The first twin of a block stands before it.
pub proof fn lemma_first_twin_before(blocks: Seq<BlockV>, j: int, i: int)
    ensures
        first_twin(blocks, j, i) matches Some(t) ==> 1 <= t < j && i <= t && first_twin(
            blocks,
            t,
            1,
        ) is None && twins(blocks, t, j),
    decreases j - i,
{
    if 1 <= i < j {
        if !(first_twin(blocks, i, 1) is None && twins(blocks, i, j)) {
            lemma_first_twin_before(blocks, j, i + 1);
        }
    }
}

/// Renumbering a terminator by a map into the first `n` blocks.
pub proof fn lemma_retarget_range(t: TermV, f: spec_fn(usize) -> usize, n: int)
    requires
        forall|k: int|
            0 <= k < successors_of(t).len() ==> f(#[trigger] successors_of(t)[k]) < n,
    ensures
        term_in_range(retarget(t, f), n),
        successors_of(retarget(t, f)) == successors_of(t).map_values(f),
{
    let s = successors_of(t);
    let r = retarget(t, f);
    match t {
        TermV::Goto(x) => {
            assert(successors_of(r) =~= s.map_values(f));
        },
        TermV::If { then_block, else_block, .. } => {
            assert(successors_of(r) =~= s.map_values(f));
        },
        TermV::Switch { targets, default, .. } => {
            assert(successors_of(r) =~= s.map_values(f));
        },
        _ => {
            assert(successors_of(r) =~= s.map_values(f));
        },
    }
    assert forall|k: int| 0 <= k < successors_of(r).len() implies (#[trigger] successors_of(r)[k])
        < n by {
        assert(f(s[k]) < n);
    }
}

/// Merging equal tails names no new block.
pub proof fn lemma_tails_ok(blocks: Seq<BlockV>)
    requires
        cfg_ok(blocks),
    ensures
        cfg_ok(tails_merged(blocks)),
{
    let r = tails_merged(blocks);
    let n = blocks.len() as int;
    assert forall|a: int| 0 <= a < r.len() implies term_in_range((#[trigger] r[a]).terminator, n) by {
        let t = blocks[a].terminator;
        assert(term_in_range(t, n));
        assert forall|k: int| 0 <= k < successors_of(t).len() implies canonical(blocks)(
            #[trigger] successors_of(t)[k],
        ) < n by {
            lemma_first_twin_before(blocks, successors_of(t)[k] as int, 1);
        }
        lemma_retarget_range(t, canonical(blocks), n);
    }
    assert forall|i: int, j: int| 0 <= i < r.len() && 0 <= j < r[i].stmts.len() implies phi_in_range(
        #[trigger] r[i].stmts[j],
        n,
    ) by {
        assert(phi_in_range(blocks[i].stmts[j], n));
    }
}

/// Every value of a pruned phi comes from a block that stays.
proof fn lemma_live_values_range(values: Seq<(usize, OperandV)>, keep: Seq<bool>)
    requires
        forall|k: int| 0 <= k < values.len() ==> (#[trigger] values[k]).0 < keep.len(),
    ensures
        forall|k: int|
            0 <= k < live_values(values, keep).len() ==> (#[trigger] live_values(values, keep)[k]).0
                < rank(keep, keep.len() as int),
    decreases values.len(),
{
    if values.len() > 0 {
        lemma_live_values_range(values.drop_last(), keep);
        let pred = values.last().0;
        assert(values[values.len() - 1].0 < keep.len());
        lemma_rank_bounds(keep, pred as int);
        lemma_rank_monotone(keep, pred as int, keep.len() as int);
        let rest = live_values(values.drop_last(), keep);
        let all = live_values(values, keep);
        assert forall|k: int| 0 <= k < all.len() implies (#[trigger] all[k]).0 < rank(
            keep,
            keep.len() as int,
        ) by {
            if k < rest.len() {
                assert(all[k] == rest[k]);
            }
        }
    }
}

/// The phis of pruned statements name blocks that stay.
proof fn lemma_prune_range(stmts: Seq<StmtV>, keep: Seq<bool>)
    requires
        forall|j: int|
            0 <= j < stmts.len() ==> phi_in_range(#[trigger] stmts[j], keep.len() as int),
    ensures
        forall|j: int|
            0 <= j < prune_stmts(stmts, keep).len() ==> phi_in_range(
                #[trigger] prune_stmts(stmts, keep)[j],
                rank(keep, keep.len() as int),
            ),
    decreases stmts.len(),
{
    if stmts.len() > 0 {
        lemma_prune_range(stmts.drop_last(), keep);
        assert(phi_in_range(stmts[stmts.len() - 1], keep.len() as int));
        if let StmtV::Assign { value: RvalueV::Phi { values }, .. } = stmts.last() {
            lemma_live_values_range(values, keep);
        }
        let rest = prune_stmts(stmts.drop_last(), keep);
        let all = prune_stmts(stmts, keep);
        assert forall|j: int| 0 <= j < all.len() implies phi_in_range(
            #[trigger] all[j],
            rank(keep, keep.len() as int),
        ) by {
            if j < rest.len() {
                assert(all[j] == rest[j]);
            }
        }
    }
}

/// A kept target gets a number below the number of blocks that stay.
pub proof fn lemma_kept_target(blocks: Seq<BlockV>, keep: Seq<bool>, i: int, k: int)
    requires
        targets_ok(blocks),
        keep == reachable_set(blocks),
        0 <= i < blocks.len(),
        keep[i],
        0 <= k < successors_of(blocks[i].terminator).len(),
    ensures
        ({
            let t = successors_of(blocks[i].terminator)[k];
            &&& t < blocks.len()
            &&& keep[t as int]
            &&& 0 <= rank(keep, t as int) < rank(keep, keep.len() as int)
            &&& renumbering(keep)(t) == rank(keep, t as int)
        }),
{
    let t = successors_of(blocks[i].terminator)[k];
    assert(term_in_range(blocks[i].terminator, blocks.len() as int));
    assert(edge(blocks, i, t as int)) by {
        assert(successors_of(blocks[i].terminator)[k] == t as int as usize);
    }
    lemma_reachable_step(blocks, i, t as int);
    lemma_rank_bounds(keep, t as int);
    lemma_rank_monotone(keep, t as int, keep.len() as int);
}

/// Removing dead blocks leaves only names of blocks that exist.
pub proof fn lemma_dead_ok(blocks: Seq<BlockV>)
    requires
        cfg_ok(blocks),
    ensures
        cfg_ok(dead_removed(blocks)),
{
    let keep = reachable_set(blocks);
    let n = blocks.len() as int;
    let all = Seq::new(blocks.len(), |i: int| kept_block(blocks[i], keep));
    let r = dead_removed(blocks);
    lemma_compact_len(all, keep, n);
    assert forall|a: int| 0 <= a < r.len() implies term_in_range(
        (#[trigger] r[a]).terminator,
        r.len() as int,
    ) by {
        let i = lemma_compact_source(all, keep, n, a);
        let t = blocks[i].terminator;
        assert forall|k: int| 0 <= k < successors_of(t).len() implies renumbering(keep)(
            #[trigger] successors_of(t)[k],
        ) < r.len() by {
            lemma_kept_target(blocks, keep, i, k);
        }
        lemma_retarget_range(t, renumbering(keep), r.len() as int);
        let u = retarget(t, renumbering(keep));
        if let TermV::Switch { targets, default, .. } = u {
            assert(successors_of(u)[targets.len() as int] == default);
        }
    }
    assert forall|a: int, j: int| 0 <= a < r.len() && 0 <= j < r[a].stmts.len() implies phi_in_range(
        #[trigger] r[a].stmts[j],
        r.len() as int,
    ) by {
        let i = lemma_compact_source(all, keep, n, a);
        assert forall|y: int| 0 <= y < blocks[i].stmts.len() implies phi_in_range(
            #[trigger] blocks[i].stmts[y],
            keep.len() as int,
        ) by {
            assert(phi_in_range(blocks[i].stmts[y], n));
        }
        lemma_prune_range(blocks[i].stmts, keep);
        assert(r[a].stmts == prune_stmts(blocks[i].stmts, keep));
    }
}

/// A round of simplification leaves only names of blocks that exist.
pub proof fn lemma_round_ok(blocks: Seq<BlockV>)
    requires
        cfg_ok(blocks),
    ensures
        ({
            let a = switches_simplified(blocks);
            let b = chained(a, a.len() as int);
            let c = merged(b, b.len() as int).0;
            &&& cfg_ok(a)
            &&& cfg_ok(b)
            &&& cfg_ok(c)
            &&& cfg_ok(tails_merged(c))
        }),
        cfg_ok(simplify_round(blocks)),
{
    lemma_switches_ok(blocks);
    let a = switches_simplified(blocks);
    lemma_chained_ok(a, a.len() as int);
    let b = chained(a, a.len() as int);
    lemma_merged_ok(b, b.len() as int);
    let c = merged(b, b.len() as int).0;
    lemma_tails_ok(c);
    lemma_dead_ok(tails_merged(c));
}

impl Control {
    /// The block that a switch leads to whatever its operand is, if there is one.
    fn trivial_switch(t: &MirTerminator) -> (r: Option<usize>)
        ensures
            match r {
                Some(d) => switch_simplified(t.deep_view()) == TermV::Goto(d),
                None => switch_simplified(t.deep_view()) == t.deep_view(),
            },
    {
        match t {
            MirTerminator::Switch { targets, default, .. } => {
                let mut k: usize = 0;
                let ghost tv = targets.deep_view();
                while k < targets.len()
                    invariant
                        k <= targets.len(),
                        tv == targets.deep_view(),
                        t.deep_view() matches TermV::Switch { targets: ts, default: d, .. } && ts
                            == tv && d == *default,
                        forall|j: int| 0 <= j < k ==> (#[trigger] tv[j]).1 == *default,
                    decreases targets.len() - k,
                {
                    assert(tv[k as int] == targets@[k as int].deep_view());
                    if targets[k].1 != *default {
                        return None;
                    }
                    k = k + 1;
                }
                Some(*default)
            },
            _ => None,
        }
    }

    fn simplify_switch(body: &mut MirBody)
        ensures
            final(body).deep_view() == (BodyV {
                blocks: switches_simplified(old(body).deep_view().blocks),
                ..old(body).deep_view()
            }),
    {
        let ghost b0 = body.deep_view();
        let mut i: usize = 0;
        while i < body.blocks.len()
            invariant
                i <= body.blocks.len(),
                body.blocks.len() == b0.blocks.len(),
                body.locals.deep_view() == b0.locals,
                forall|j: int|
                    0 <= j < i ==> (#[trigger] body.blocks@[j]).deep_view() == switches_simplified(
                        b0.blocks,
                    )[j],
                forall|j: int|
                    i <= j < body.blocks.len() ==> (#[trigger] body.blocks@[j]).deep_view()
                        == b0.blocks[j],
            decreases body.blocks.len() - i,
        {
            assert(body.blocks@[i as int].deep_view() == b0.blocks[i as int]);
            if let Some(d) = Self::trivial_switch(&body.blocks[i].terminator) {
                body.blocks[i].terminator = MirTerminator::Goto(d);
            }
            i = i + 1;
        }
        assert(body.blocks.deep_view() =~= switches_simplified(b0.blocks));
    }

    /// Where a jump of block `i` to `start` ends up.
    fn chase_from(blocks: &Vec<MirBlock>, i: usize, start: usize) -> (r: usize)
        requires
            i < blocks.len(),
        ensures
            r == chase(blocks.deep_view(), set![i as int], start, blocks.deep_view().len()),
    {
        let ghost bv = blocks.deep_view();
        let n = blocks.len();
        let mut visited = crate::cfg::all_false(n);
        visited.set(i, true);
        let mut current = start;
        let mut fuel: usize = n;
        let ghost mut seen: Set<int> = set![i as int];
        while fuel > 0
            invariant_except_break
                chase(bv, seen, current, fuel as nat) == chase(
                    bv,
                    set![i as int],
                    start,
                    bv.len(),
                ),
            invariant
                bv == blocks.deep_view(),
                n == blocks.len(),
                visited.len() == n,
                forall|k: int| 0 <= k < n ==> visited@[k] == seen.contains(k),
            ensures
                current == chase(bv, set![i as int], start, bv.len()),
            decreases fuel,
        {
            if current >= n || visited[current] {
                break;
            }
            assert(bv[current as int] == blocks@[current as int].deep_view());
            if blocks[current].stmts.len() > 0 {
                break;
            }
            match &blocks[current].terminator {
                MirTerminator::Goto(next) => {
                    visited.set(current, true);
                    proof {
                        seen = seen.insert(current as int);
                    }
                    current = *next;
                    fuel = fuel - 1;
                },
                _ => {
                    break;
                },
            }
        }
        current
    }

    fn chain_gotos(body: &mut MirBody)
        ensures
            final(body).deep_view() == (BodyV {
                blocks: chained(
                    old(body).deep_view().blocks,
                    old(body).deep_view().blocks.len() as int,
                ),
                ..old(body).deep_view()
            }),
    {
        let ghost b0 = body.deep_view();
        let mut i: usize = 0;
        while i < body.blocks.len()
            invariant
                i <= body.blocks.len(),
                body.blocks.len() == b0.blocks.len(),
                body.locals.deep_view() == b0.locals,
                body.blocks.deep_view() == chained(b0.blocks, i as int),
            decreases body.blocks.len() - i,
        {
            let ghost before = body.blocks.deep_view();
            assert(before[i as int] == body.blocks@[i as int].deep_view());
            let start: Option<usize> = match &body.blocks[i].terminator {
                MirTerminator::Goto(t) => Some(*t),
                _ => None,
            };
            if let Some(t) = start {
                let end = Self::chase_from(&body.blocks, i, t);
                body.blocks[i].terminator = MirTerminator::Goto(end);
                assert(body.blocks.deep_view() =~= chain_one(before, i as int));
            } else {
                assert(body.blocks.deep_view() =~= chain_one(before, i as int));
            }
            i = i + 1;
        }
    }

    /// For each block, the block that falls through to it, if there is one.
    fn sole_preds(blocks: &Vec<MirBlock>) -> (r: Vec<Option<usize>>)
        ensures
            r.len() == blocks.len(),
            forall|t: int|
                0 <= t < blocks.len() ==> match #[trigger] r@[t] {
                    Some(p) => falls_through(blocks.deep_view(), p as int, t),
                    None => forall|p: int| !falls_through(blocks.deep_view(), p, t),
                },
    {
        let ghost bv = blocks.deep_view();
        let n = blocks.len();
        let mut count: Vec<u8> = Vec::new();
        let mut pred: Vec<usize> = Vec::new();
        let mut i: usize = 0;
        while i < n
            invariant
                i <= n,
                count.len() == i,
                pred.len() == i,
                forall|t: int| 0 <= t < i ==> count@[t] == 0,
            decreases n - i,
        {
            count.push(0);
            pred.push(0);
            i = i + 1;
        }
        let mut a: usize = 0;
        while a < n
            invariant
                a <= n,
                n == blocks.len(),
                bv == blocks.deep_view(),
                count.len() == n,
                pred.len() == n,
                forall|t: int|
                    0 <= t < n ==> {
                        let d = in_degree(bv, t as usize, a as int);
                        &&& #[trigger] count@[t] == if d < 2 { d as int } else { 2int }
                        &&& count@[t] >= 1 ==> pred@[t] < a && occurrences(
                            successors_of(bv[pred@[t] as int].terminator),
                            t as usize,
                        ) >= 1
                    },
            decreases n - a,
        {
            let succs = successors(&blocks[a]);
            assert(succs@ == successors_of(bv[a as int].terminator));
            let mut k: usize = 0;
            while k < succs.len()
                invariant
                    k <= succs.len(),
                    a < n,
                    n == blocks.len(),
                    bv == blocks.deep_view(),
                    succs@ == successors_of(bv[a as int].terminator),
                    count.len() == n,
                    pred.len() == n,
                    forall|t: int|
                        0 <= t < n ==> {
                            let o = occurrences(succs@.take(k as int), t as usize);
                            let d = in_degree(bv, t as usize, a as int) + o;
                            &&& #[trigger] count@[t] == if d < 2 { d as int } else { 2int }
                            &&& count@[t] >= 1 ==> (pred@[t] == a && o >= 1) || (pred@[t] < a
                                && occurrences(
                                successors_of(bv[pred@[t] as int].terminator),
                                t as usize,
                            ) >= 1)
                        },
                decreases succs.len() - k,
            {
                let x = succs[k];
                proof {
                    assert(succs@.take(k + 1).drop_last() =~= succs@.take(k as int));
                    assert(succs@.take(k + 1).last() == x);
                    assert forall|t: usize| occurrences(succs@.take(k + 1), t) == occurrences(
                        succs@.take(k as int),
                        t,
                    ) + if x == t {
                        1nat
                    } else {
                        0
                    } by {}
                }
                let ghost count0 = count@;
                let ghost pred0 = pred@;
                if x < n {
                    if count[x] < 2 {
                        let c = count[x];
                        count.set(x, c + 1);
                    }
                    pred.set(x, a);
                }
                proof {
                    assert forall|t: int| 0 <= t < n implies {
                        let o = occurrences(succs@.take(k + 1), t as usize);
                        let d = in_degree(bv, t as usize, a as int) + o;
                        &&& #[trigger] count@[t] == if d < 2 { d as int } else { 2int }
                        &&& count@[t] >= 1 ==> (pred@[t] == a && o >= 1) || (pred@[t] < a
                            && occurrences(
                            successors_of(bv[pred@[t] as int].terminator),
                            t as usize,
                        ) >= 1)
                    } by {
                        assert(count0[t] == count0[t]);
                    }
                }
                k = k + 1;
            }
            assert(succs@.take(k as int) =~= succs@);
            a = a + 1;
        }
        let mut r: Vec<Option<usize>> = Vec::new();
        let mut t: usize = 0;
        while t < n
            invariant
                t <= n,
                n == blocks.len(),
                bv == blocks.deep_view(),
                count.len() == n,
                pred.len() == n,
                r.len() == t,
                forall|t: int|
                    0 <= t < n ==> {
                        let d = in_degree(bv, t as usize, n as int);
                        &&& #[trigger] count@[t] == if d < 2 { d as int } else { 2int }
                        &&& count@[t] >= 1 ==> pred@[t] < n && occurrences(
                            successors_of(bv[pred@[t] as int].terminator),
                            t as usize,
                        ) >= 1
                    },
                forall|j: int|
                    0 <= j < t ==> match #[trigger] r@[j] {
                        Some(p) => falls_through(bv, p as int, j),
                        None => forall|p: int| !falls_through(bv, p, j),
                    },
            decreases n - t,
        {
            let mut found: Option<usize> = None;
            assert(count@[t as int] == count@[t as int]);
            if t != 0 && count[t] == 1 {
                let p = pred[t];
                assert(bv[p as int] == blocks@[p as int].deep_view());
                if let MirTerminator::Goto(x) = &blocks[p].terminator {
                    if *x == t {
                        found = Some(p);
                    }
                }
                proof {
                    if found is None {
                        assert forall|q: int| !falls_through(bv, q, t as int) by {
                            if falls_through(bv, q, t as int) {
                                lemma_goto_occurs(t);
                                lemma_in_degree_two(bv, t, n as int, p as int, q);
                            }
                        }
                    }
                }
            }
            r.push(found);
            t = t + 1;
        }
        r
    }

    fn merge_blocks(body: &mut MirBody)
        ensures
            final(body).deep_view() == (BodyV {
                blocks: merged(
                    old(body).deep_view().blocks,
                    old(body).deep_view().blocks.len() as int,
                ).0,
                ..old(body).deep_view()
            }),
    {
        let ghost b0 = body.deep_view();
        let n = body.blocks.len();
        let preds = Self::sole_preds(&body.blocks);
        let mut touched = crate::cfg::all_false(n);
        let mut i: usize = 0;
        while i < n
            invariant
                i <= n,
                n == body.blocks.len(),
                n == b0.blocks.len(),
                preds.len() == n,
                touched.len() == n,
                body.locals.deep_view() == b0.locals,
                body.blocks.deep_view() == merged(b0.blocks, i as int).0,
                forall|t: int|
                    0 <= t < n ==> #[trigger] touched@[t] == merged(b0.blocks, i as int).1.contains(
                        t,
                    ),
                forall|t: int|
                    0 <= t < n ==> match #[trigger] preds@[t] {
                        Some(p) => falls_through(b0.blocks, p as int, t),
                        None => forall|p: int| !falls_through(b0.blocks, p, t),
                    },
            decreases n - i,
        {
            let ghost before = body.blocks.deep_view();
            match preds[i] {
                Some(p) => {
                    proof {
                        let q = choose|q: int| falls_through(b0.blocks, q, i as int);
                        lemma_falls_through_unique(b0.blocks, p as int, q, i as int);
                    }
                    if !touched[p] && !touched[i] {
                        touched.set(p, true);
                        touched.set(i, true);
                        assert(before[i as int] == body.blocks@[i as int].deep_view());
                        assert(before[p as int] == body.blocks@[p as int].deep_view());
                        if p == i {
                            body.blocks[i].terminator = MirTerminator::Unreachable;
                        } else {
                            let mut moved: Vec<MirStmt> = Vec::new();
                            std::mem::swap(&mut moved, &mut body.blocks[i].stmts);
                            let mut term = MirTerminator::Unreachable;
                            std::mem::swap(&mut term, &mut body.blocks[i].terminator);
                            let ghost ms = moved.deep_view();
                            let ghost ps = body.blocks@[p as int].stmts.deep_view();
                            body.blocks[p].stmts.append(&mut moved);
                            body.blocks[p].terminator = term;
                            assert(body.blocks@[p as int].stmts.deep_view() =~= ps + ms);
                            assert(body.blocks@[i as int].stmts.deep_view() =~= Seq::empty());
                        }
                        assert(body.blocks.deep_view() =~= absorb(before, p as int, i as int));
                    }
                },
                None => {},
            }
            i = i + 1;
        }
    }

    fn stmt_is_phi(stmt: &MirStmt) -> (r: bool)
        ensures
            r == is_phi(stmt.deep_view()),
    {
        match stmt {
            MirStmt::Assign { value: MirRvalue::Phi { .. }, .. } => true,
            _ => false,
        }
    }

    fn contains_phi(block: &MirBlock) -> (r: bool)
        ensures
            r == has_phi(block.deep_view()),
    {
        let ghost sv = block.deep_view().stmts;
        let mut i: usize = 0;
        while i < block.stmts.len()
            invariant
                i <= block.stmts.len(),
                sv == block.stmts.deep_view(),
                forall|j: int| 0 <= j < i ==> !is_phi(#[trigger] sv[j]),
            decreases block.stmts.len() - i,
        {
            assert(sv[i as int] == block.stmts@[i as int].deep_view());
            if Self::stmt_is_phi(&block.stmts[i]) {
                assert(is_phi(block.deep_view().stmts[i as int]));
                return true;
            }
            i = i + 1;
        }
        false
    }

    /// Whether two blocks without phis do the same.
    fn same_block(a: &MirBlock, b: &MirBlock) -> (r: bool)
        ensures
            r == (!has_phi(a.deep_view()) && !has_phi(b.deep_view()) && stmts_eq(
                a.deep_view().stmts,
                b.deep_view().stmts,
            ) && term_eq(a.deep_view().terminator, b.deep_view().terminator)),
    {
        !Self::contains_phi(a) && !Self::contains_phi(b) && same_stmts(&a.stmts, &b.stmts)
            && same_terminator(&a.terminator, &b.terminator)
    }

    /// For each block, the block that stands for it.
    fn canonical_blocks(blocks: &Vec<MirBlock>) -> (r: Vec<usize>)
        ensures
            r.len() == blocks.len(),
            forall|j: int|
                0 <= j < blocks.len() ==> #[trigger] r@[j] == canonical(blocks.deep_view())(
                    j as usize,
                ),
            forall|j: int| 0 <= j < blocks.len() ==> (#[trigger] r@[j]) <= j,
    {
        let ghost bv = blocks.deep_view();
        let n = blocks.len();
        let mut map: Vec<usize> = Vec::new();
        let mut j: usize = 0;
        while j < n
            invariant
                j <= n,
                n == blocks.len(),
                bv == blocks.deep_view(),
                map.len() == j,
                forall|t: int|
                    0 <= t < j ==> #[trigger] map@[t] == canonical(bv)(t as usize),
                forall|t: int| 0 <= t < j ==> (#[trigger] map@[t]) <= t,
                forall|t: int|
                    0 <= t < j ==> (first_twin(bv, t, 1) is None <==> #[trigger] map@[t] == t),
            decreases n - j,
        {
            let mut i: usize = 1;
            let mut canon: usize = j;
            while i < j
                invariant_except_break
                    canon == j,
                    first_twin(bv, j as int, 1) == first_twin(bv, j as int, i as int),
                invariant
                    1 <= i,
                    j < n,
                    n == blocks.len(),
                    bv == blocks.deep_view(),
                    map.len() == j,
                    forall|t: int|
                        0 <= t < j ==> (first_twin(bv, t, 1) is None <==> #[trigger] map@[t] == t),
                ensures
                    canon <= j,
                    match first_twin(bv, j as int, 1) {
                        Some(t) => canon == t && canon < j,
                        None => canon == j,
                    },
                decreases j - i,
            {
                assert(bv[i as int] == blocks@[i as int].deep_view());
                assert(bv[j as int] == blocks@[j as int].deep_view());
                if map[i] == i && Self::same_block(&blocks[i], &blocks[j]) {
                    canon = i;
                    break;
                }
                i = i + 1;
            }
            map.push(canon);
            j = j + 1;
        }
        map
    }

    fn tail_merge(body: &mut MirBody)
        requires
            targets_ok(old(body).deep_view().blocks),
        ensures
            final(body).deep_view() == (BodyV {
                blocks: tails_merged(old(body).deep_view().blocks),
                ..old(body).deep_view()
            }),
    {
        let ghost b0 = body.deep_view();
        let map = Self::canonical_blocks(&body.blocks);
        let mut i: usize = 0;
        while i < body.blocks.len()
            invariant
                i <= body.blocks.len(),
                body.blocks.len() == b0.blocks.len(),
                map.len() == b0.blocks.len(),
                targets_ok(b0.blocks),
                body.locals.deep_view() == b0.locals,
                forall|j: int|
                    0 <= j < map.len() ==> #[trigger] map@[j] == canonical(b0.blocks)(j as usize),
                forall|j: int|
                    0 <= j < i ==> (#[trigger] body.blocks@[j]).deep_view() == tails_merged(
                        b0.blocks,
                    )[j],
                forall|j: int|
                    i <= j < body.blocks.len() ==> (#[trigger] body.blocks@[j]).deep_view()
                        == b0.blocks[j],
            decreases body.blocks.len() - i,
        {
            assert(body.blocks@[i as int].deep_view() == b0.blocks[i as int]);
            let ghost tv = b0.blocks[i as int].terminator;
            let t = retarget_by(&body.blocks[i].terminator, &map);
            proof {
                lemma_retarget_agrees(tv, by_table(map@), canonical(b0.blocks));
            }
            body.blocks[i].terminator = t;
            i = i + 1;
        }
        assert(body.blocks.deep_view() =~= tails_merged(b0.blocks));
    }

    /// The incoming values whose block stays, with the blocks renumbered.
    fn live_phi_values(
        values: &Vec<(usize, MirOperand)>,
        keep: &Vec<bool>,
        ids: &Vec<usize>,
    ) -> (r: Vec<(usize, MirOperand)>)
        requires
            ids.len() == keep.len(),
            forall|i: int| 0 <= i < keep.len() ==> #[trigger] ids@[i] == rank(keep@, i),
            forall|k: int|
                0 <= k < values.deep_view().len() ==> (#[trigger] values.deep_view()[k]).0
                    < keep.len(),
        ensures
            r.deep_view() == live_values(values.deep_view(), keep@),
    {
        let ghost vv = values.deep_view();
        let mut r: Vec<(usize, MirOperand)> = Vec::new();
        let mut i: usize = 0;
        assert(r.deep_view() =~= live_values(vv.take(0), keep@));
        while i < values.len()
            invariant
                i <= values.len(),
                vv == values.deep_view(),
                ids.len() == keep.len(),
                forall|i: int| 0 <= i < keep.len() ==> #[trigger] ids@[i] == rank(keep@, i),
                forall|k: int| 0 <= k < vv.len() ==> (#[trigger] vv[k]).0 < keep.len(),
                r.deep_view() == live_values(vv.take(i as int), keep@),
            decreases values.len() - i,
        {
            proof {
                assert(vv.take(i + 1).drop_last() =~= vv.take(i as int));
                assert(vv[i as int] == values@[i as int].deep_view());
            }
            let ghost r0 = r.deep_view();
            let pred = values[i].0;
            if keep[pred] {
                let op = values[i].1.clone();
                r.push((ids[pred], op));
                assert(r.deep_view() =~= r0.push((ids@[pred as int], vv[i as int].1)));
            }
            i = i + 1;
        }
        assert(vv.take(i as int) =~= vv);
        r
    }

    /// A statement without the phi values of blocks that go.
    fn prune(stmt: &MirStmt, keep: &Vec<bool>, ids: &Vec<usize>) -> (r: Option<MirStmt>)
        requires
            ids.len() == keep.len(),
            forall|i: int| 0 <= i < keep.len() ==> #[trigger] ids@[i] == rank(keep@, i),
            phi_in_range(stmt.deep_view(), keep.len() as int),
        ensures
            r.deep_view() == prune_stmt(stmt.deep_view(), keep@),
    {
        match stmt {
            MirStmt::Assign { dest, value: MirRvalue::Phi { values } } => {
                let live = Self::live_phi_values(values, keep, ids);
                assert(live.deep_view().len() == live.len());
                if live.len() == 0 {
                    None
                } else if live.len() == 1 {
                    assert(live.deep_view()[0] == live@[0].deep_view());
                    Some(
                        MirStmt::Assign {
                            dest: dest.clone(),
                            value: MirRvalue::Use(live[0].1.clone()),
                        },
                    )
                } else {
                    Some(
                        MirStmt::Assign {
                            dest: dest.clone(),
                            value: MirRvalue::Phi { values: live },
                        },
                    )
                }
            },
            _ => Some(stmt.clone()),
        }
    }

    /// The statements without the phi values of blocks that go.
    fn prune_all(stmts: &Vec<MirStmt>, keep: &Vec<bool>, ids: &Vec<usize>) -> (r: Vec<MirStmt>)
        requires
            ids.len() == keep.len(),
            forall|i: int| 0 <= i < keep.len() ==> #[trigger] ids@[i] == rank(keep@, i),
            forall|j: int|
                0 <= j < stmts.deep_view().len() ==> phi_in_range(
                    #[trigger] stmts.deep_view()[j],
                    keep.len() as int,
                ),
        ensures
            r.deep_view() == prune_stmts(stmts.deep_view(), keep@),
    {
        let ghost sv = stmts.deep_view();
        let mut r: Vec<MirStmt> = Vec::new();
        let mut i: usize = 0;
        assert(r.deep_view() =~= prune_stmts(sv.take(0), keep@));
        while i < stmts.len()
            invariant
                i <= stmts.len(),
                sv == stmts.deep_view(),
                ids.len() == keep.len(),
                forall|i: int| 0 <= i < keep.len() ==> #[trigger] ids@[i] == rank(keep@, i),
                forall|j: int|
                    0 <= j < sv.len() ==> phi_in_range(#[trigger] sv[j], keep.len() as int),
                r.deep_view() == prune_stmts(sv.take(i as int), keep@),
            decreases stmts.len() - i,
        {
            proof {
                assert(sv.take(i + 1).drop_last() =~= sv.take(i as int));
                assert(sv[i as int] == stmts@[i as int].deep_view());
            }
            let ghost r0 = r.deep_view();
            match Self::prune(&stmts[i], keep, ids) {
                Some(s) => {
                    let ghost sview = s.deep_view();
                    r.push(s);
                    assert(r.deep_view() =~= r0.push(sview));
                },
                None => {},
            }
            i = i + 1;
        }
        assert(sv.take(i as int) =~= sv);
        r
    }

    /// A switch without arms as a jump.
    pub(crate) fn without_armless_switch(t: MirTerminator) -> (r: MirTerminator)
        ensures
            r.deep_view() == armless_to_goto(t.deep_view()),
    {
        match t {
            MirTerminator::Switch { discr, discr_ty, targets, default } => {
                assert(targets.deep_view().len() == targets.len());
                if targets.len() == 0 {
                    MirTerminator::Goto(default)
                } else {
                    MirTerminator::Switch { discr, discr_ty, targets, default }
                }
            },
            _ => t,
        }
    }

    /// Removes the blocks that no path from the entry leads to.
    pub fn remove_dead_blocks(body: &mut MirBody)
        requires
            cfg_ok(old(body).deep_view().blocks),
        ensures
            final(body).deep_view() == (BodyV {
                blocks: dead_removed(old(body).deep_view().blocks),
                ..old(body).deep_view()
            }),
    {
        let ghost b0 = body.deep_view();
        let ghost bv = b0.blocks;
        let keep = compute_reachable(&body.blocks);
        let ids = ranks(&keep);
        let n = body.blocks.len();
        let ghost all = Seq::new(bv.len(), |i: int| kept_block(bv[i], keep@));
        let mut new_blocks: Vec<MirBlock> = Vec::new();
        let mut i: usize = 0;
        assert(new_blocks.deep_view() =~= compact(all, keep@, 0));
        while i < n
            invariant
                i <= n,
                n == body.blocks.len(),
                n == keep.len(),
                b0 == body.deep_view(),
                bv == b0.blocks,
                keep@ == reachable_set(bv),
                cfg_ok(bv),
                ids.len() == keep.len(),
                all == Seq::new(bv.len(), |i: int| kept_block(bv[i], keep@)),
                forall|i: int| 0 <= i < keep.len() ==> #[trigger] ids@[i] == rank(keep@, i),
                new_blocks.deep_view() == compact(all, keep@, i as int),
            decreases n - i,
        {
            if keep[i] {
                let block = &body.blocks[i];
                proof {
                    assert(bv[i as int] == block.deep_view());
                    let tv = bv[i as int].terminator;
                    assert forall|k: int| 0 <= k < successors_of(tv).len() implies by_table(ids@)(
                        #[trigger] successors_of(tv)[k],
                    ) == renumbering(keep@)(successors_of(tv)[k]) by {
                        assert(term_in_range(tv, bv.len() as int));
                        let t = successors_of(tv)[k];
                        assert(ids@[t as int] == rank(keep@, t as int));
                    }
                    lemma_retarget_agrees(tv, by_table(ids@), renumbering(keep@));
                    assert forall|j: int| 0 <= j < block.stmts.deep_view().len() implies phi_in_range(
                        #[trigger] block.stmts.deep_view()[j],
                        keep.len() as int,
                    ) by {
                        assert(phi_in_range(bv[i as int].stmts[j], bv.len() as int));
                    }
                }
                let stmts = Self::prune_all(&block.stmts, &keep, &ids);
                let term = Self::without_armless_switch(retarget_by(&block.terminator, &ids));
                let ghost nb0 = new_blocks.deep_view();
                new_blocks.push(MirBlock { id: block.id, stmts, terminator: term });
                assert(new_blocks.deep_view() =~= nb0.push(kept_block(bv[i as int], keep@)));
            }
            i = i + 1;
        }
        body.blocks = new_blocks;
    }

    fn simplify_function(f: &mut MirFn)
        requires
            cfg_ok(old(f).deep_view().body.blocks),
        ensures
            final(f).deep_view() == simplified_fn(old(f).deep_view()),
    {
        let ghost f0 = f.deep_view();
        let mut left: usize = MAX_ITERATIONS;
        while left > 0
            invariant_except_break
                simplify_rounds(f0.body.blocks, MAX_ITERATIONS as nat) == simplify_rounds(
                    f.deep_view().body.blocks,
                    left as nat,
                ),
            invariant
                cfg_ok(f.deep_view().body.blocks),
                f.deep_view() == (FnV {
                    body: BodyV { blocks: f.deep_view().body.blocks, ..f0.body },
                    ..f0
                }),
            ensures
                f.deep_view() == (FnV {
                    body: BodyV { blocks: f.deep_view().body.blocks, ..f0.body },
                    ..f0
                }),
                f.deep_view().body.blocks == simplify_rounds(
                    f0.body.blocks,
                    MAX_ITERATIONS as nat,
                ),
            decreases left,
        {
            let ghost bs = f.deep_view().body.blocks;
            let before = f.body.blocks.len();
            proof {
                lemma_round_ok(bs);
            }
            Self::simplify_switch(&mut f.body);
            Self::chain_gotos(&mut f.body);
            Self::merge_blocks(&mut f.body);
            Self::tail_merge(&mut f.body);
            Self::remove_dead_blocks(&mut f.body);
            assert(f.deep_view().body.blocks == simplify_round(bs));
            if f.body.blocks.len() == before {
                break;
            }
            left = left - 1;
        }
    }

    /// Simplifies the control flow of every function.
    pub fn simplify(program: &mut MirProgram)
        requires
            forall|i: int|
                0 <= i < old(program).deep_view().fns.len() ==> cfg_ok(
                    (#[trigger] old(program).deep_view().fns[i]).body.blocks,
                ),
        ensures
            final(program).deep_view() == simplified(old(program).deep_view()),
    {
        let ghost p0 = program.deep_view();
        let mut i: usize = 0;
        while i < program.fns.len()
            invariant
                i <= program.fns.len(),
                program.fns.len() == p0.fns.len(),
                program.structs.deep_view() == p0.structs,
                program.enums.deep_view() == p0.enums,
                program.intrinsics_used.deep_view() == p0.intrinsics_used,
                forall|j: int| 0 <= j < p0.fns.len() ==> cfg_ok((#[trigger] p0.fns[j]).body.blocks),
                forall|j: int|
                    0 <= j < i ==> (#[trigger] program.fns@[j]).deep_view() == simplified_fn(
                        p0.fns[j],
                    ),
                forall|j: int|
                    i <= j < program.fns.len() ==> (#[trigger] program.fns@[j]).deep_view()
                        == p0.fns[j],
            decreases program.fns.len() - i,
        {
            assert(program.fns@[i as int].deep_view() == p0.fns[i as int]);
            Self::simplify_function(&mut program.fns[i]);
            i = i + 1;
        }
        assert(program.fns.deep_view() =~= simplified(p0).fns);
    }
}

} // verus!
