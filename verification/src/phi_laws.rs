//! Laws of blocks that are taken out or stand for each other: what becomes of the values
//! that come in from other blocks, and which block stands for a block.

use vstd::prelude::*;

use crate::cfg::rank;
use crate::control::{
    canonical, first_twin, is_phi, lemma_first_twin_before, live_values, prune_stmt, prune_stmts,
    twins,
};
use crate::mir::{BlockV, OperandV, RvalueV, StmtV};

verus! {

/// A block that stays is numbered by how many of the blocks before it stay.
pub proof fn lemma_rank_counts(keep: Seq<bool>, i: int)
    requires
        0 <= i <= keep.len(),
    ensures
        rank(keep, i) == keep.take(i).filter(|k: bool| k).len(),
    decreases i,
{
    reveal(Seq::filter);
    let f = |k: bool| k;
    if i > 0 {
        lemma_rank_counts(keep, i - 1);
        assert(keep.take(i).drop_last() =~= keep.take(i - 1));
        assert(keep.take(i).last() == keep[i - 1]);
    }
}

/// The incoming values that stay are those of blocks that stay, in order, each under the
/// new number of its block.
pub proof fn lemma_live_exact(values: Seq<(usize, OperandV)>, keep: Seq<bool>)
    ensures
        live_values(values, keep) == values.filter(
            |v: (usize, OperandV)| keep[v.0 as int],
        ).map_values(|v: (usize, OperandV)| (rank(keep, v.0 as int) as usize, v.1)),
    decreases values.len(),
{
    reveal(Seq::filter);
    let f = |v: (usize, OperandV)| keep[v.0 as int];
    let g = |v: (usize, OperandV)| (rank(keep, v.0 as int) as usize, v.1);
    if values.len() > 0 {
        let front = values.drop_last();
        lemma_live_exact(front, keep);
        let kept = front.filter(f);
        if f(values.last()) {
            assert(values.filter(f) =~= kept.push(values.last()));
            assert(kept.push(values.last()).map_values(g) =~= kept.map_values(g).push(
                g(values.last()),
            ));
        } else {
            assert(values.filter(f) =~= kept);
        }
    }
    assert(live_values(values, keep) =~= values.filter(f).map_values(g));
}

/// Whether an assignment takes the value of `op` where control came from block `from`.
pub open spec fn comes_in(s: StmtV, from: usize, op: OperandV) -> bool {
    s matches StmtV::Assign { value, .. } && {
        ||| value == RvalueV::Use(op)
        ||| value matches RvalueV::Phi { values } && values.contains((from, op))
    }
}

/// Pruning a phi keeps what comes in from a block that stays, in the same place; the phi
/// goes only where nothing is left to come in. Other statements stay as they are.
pub proof fn lemma_phi_kept(s: StmtV, keep: Seq<bool>, from: usize, op: OperandV)
    ensures
        !is_phi(s) ==> prune_stmt(s, keep) == Some(s),
        prune_stmt(s, keep) matches Some(StmtV::Assign { dest, .. }) ==> s->dest == dest,
        is_phi(s) && comes_in(s, from, op) && keep[from as int] ==> (prune_stmt(s, keep) matches
            Some(t) && comes_in(t, rank(keep, from as int) as usize, op)),
        is_phi(s) && prune_stmt(s, keep) is None ==> forall|p: usize, o: OperandV|
            keep[p as int] ==> !#[trigger] comes_in(s, p, o),
{
    if let StmtV::Assign { dest, value: RvalueV::Phi { values } } = s {
        let f = |v: (usize, OperandV)| keep[v.0 as int];
        let g = |v: (usize, OperandV)| (rank(keep, v.0 as int) as usize, v.1);
        let live = live_values(values, keep);
        lemma_live_exact(values, keep);
        assert forall|p: usize, o: OperandV| keep[p as int] && #[trigger] comes_in(
            s,
            p,
            o,
        ) implies live.contains((rank(keep, p as int) as usize, o)) by {
            assert(values.contains((p, o)));
            let at = choose|at: int| 0 <= at < values.len() && values[at] == (p, o);
            values.lemma_filter_contains(f, at);
            let kept = values.filter(f);
            let k = choose|k: int| 0 <= k < kept.len() && kept[k] == (p, o);
            assert(live[k] == g(kept[k]));
        }
        if comes_in(s, from, op) && keep[from as int] {
            let x = (rank(keep, from as int) as usize, op);
            assert(live.contains(x));
            if live.len() == 1 {
                assert(live[0] == x);
            }
        }
    }
}

/// Without a phi, every statement of a block stays.
pub proof fn lemma_stmts_kept(stmts: Seq<StmtV>, keep: Seq<bool>)
    requires
        forall|i: int| 0 <= i < stmts.len() ==> !is_phi(#[trigger] stmts[i]),
    ensures
        prune_stmts(stmts, keep) == stmts,
    decreases stmts.len(),
{
    if stmts.len() > 0 {
        assert(!is_phi(stmts[stmts.len() - 1]));
        assert forall|i: int| 0 <= i < stmts.drop_last().len() implies !is_phi(
            #[trigger] stmts.drop_last()[i],
        ) by {
            assert(stmts.drop_last()[i] == stmts[i]);
        }
        lemma_stmts_kept(stmts.drop_last(), keep);
        assert(stmts.drop_last().push(stmts.last()) =~= stmts);
    }
}

proof fn lemma_twin_found(blocks: Seq<BlockV>, j: int, i: int, t: int)
    requires
        1 <= i <= t < j,
        twins(blocks, t, j),
        first_twin(blocks, t, 1) is None,
    ensures
        first_twin(blocks, j, i) matches Some(s) && s <= t,
    decreases t - i,
{
    if i < t && !(first_twin(blocks, i, 1) is None && twins(blocks, i, j)) {
        lemma_twin_found(blocks, j, i + 1, t);
    }
}

/// A block stands for itself, or for a later block that does the same and then for
/// itself; where a block before it that stands for itself does the same, a block does
/// not stand for itself.
pub proof fn lemma_canonical_exact(blocks: Seq<BlockV>, j: usize, t: usize)
    ensures
        canonical(blocks)(j) <= j,
        canonical(blocks)(j) != j ==> canonical(blocks)(j) >= 1 && twins(
            blocks,
            canonical(blocks)(j) as int,
            j as int,
        ) && canonical(blocks)(canonical(blocks)(j)) == canonical(blocks)(j),
        1 <= t < j && canonical(blocks)(t) == t && twins(blocks, t as int, j as int)
            ==> canonical(blocks)(j) <= t,
{
    lemma_first_twin_before(blocks, j as int, 1);
    lemma_first_twin_before(blocks, t as int, 1);
    if 1 <= t < j && canonical(blocks)(t) == t && twins(blocks, t as int, j as int) {
        lemma_twin_found(blocks, j as int, 1, t as int);
    }
}

} // verus!
