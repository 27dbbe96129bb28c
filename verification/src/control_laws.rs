//! Laws of the control-flow simplifier: what runs of a body keep, and what shape the
//! result has.

use vstd::prelude::*;

use crate::cfg::{
    edge, lemma_compact_index, lemma_compact_len, lemma_compact_source, lemma_entry_reachable,
    lemma_rank_bounds, lemma_reachable_step, rank, reachable, reachable_set, renumbering, retarget,
    successors_of, targets_ok, term_in_range,
};
use crate::control::{
    absorb, armless_to_goto, canonical, cfg_ok, chain_one, chained, chase, dead_removed,
    falls_through, first_twin, has_phi, is_phi, kept_block, merged, occurrences, prune_stmts,
    simplified, simplify_round, simplify_rounds, switches_simplified, tails_merged, twins,
};
use crate::control::{
    lemma_chained_ok, lemma_first_twin_before, lemma_goto_occurs, lemma_in_degree_two,
    lemma_merged_ok, lemma_round_ok, lemma_switches_ok, lemma_kept_target, lemma_retarget_range,
};
use crate::mir::{BlockV, ProgramV, StmtV, TermV};
use crate::mir_eq::{stmt_eq, term_eq};
use crate::run::{
    finishes, lemma_next_named, lemma_next_retargeted, lemma_switch_trivial, next_block, run,
    same_runs, Eval, Outcome,
};

verus! {

/// Whether no block holds a phi.
pub open spec fn no_phis(blocks: Seq<BlockV>) -> bool {
    forall|i: int| 0 <= i < blocks.len() ==> !has_phi(#[trigger] blocks[i])
}

/// Whether a statement occurs in a body.
pub open spec fn has_stmt(blocks: Seq<BlockV>, s: StmtV) -> bool {
    exists|i: int, j: int|
        0 <= i < blocks.len() && 0 <= j < blocks[i].stmts.len() && #[trigger] blocks[i].stmts[j]
            == s
}

/// A terminator without the blocks that it names.
pub open spec fn head_of(t: TermV) -> TermV {
    retarget(t, |x: usize| 0usize)
}

/// Whether equality tells apart what differs: statements, and terminators up to the
/// blocks that they name, are equal only where they are the same. The two zeros of a
/// floating-point type are equal and differ.
pub open spec fn exact(blocks: Seq<BlockV>) -> bool {
    &&& forall|s: StmtV, t: StmtV| #[trigger]
        has_stmt(blocks, s) && #[trigger] has_stmt(blocks, t) && stmt_eq(s, t) ==> s == t
    &&& forall|i: int, j: int|
        0 <= i < blocks.len() && 0 <= j < blocks.len() && term_eq(
            head_of((#[trigger] blocks[i]).terminator),
            head_of((#[trigger] blocks[j]).terminator),
        ) ==> head_of(blocks[i].terminator) == head_of(blocks[j].terminator)
}

/// Whether a terminator is a jump or unreachable.
pub open spec fn plain_end(t: TermV) -> bool {
    t is Goto || t is Unreachable
}

/// Bodies made of the statements and terminators of an exact body are exact.
proof fn lemma_exact_from(a: Seq<BlockV>, b: Seq<BlockV>)
    requires
        exact(a),
        forall|s: StmtV| #[trigger] has_stmt(b, s) ==> has_stmt(a, s),
        forall|i: int|
            0 <= i < b.len() ==> plain_end((#[trigger] b[i]).terminator) || exists|j: int|
                0 <= j < a.len() && head_of((#[trigger] a[j]).terminator) == head_of(
                    b[i].terminator,
                ),
    ensures
        exact(b),
{
    assert forall|i: int, j: int|
        0 <= i < b.len() && 0 <= j < b.len() && term_eq(
            head_of((#[trigger] b[i]).terminator),
            head_of((#[trigger] b[j]).terminator),
        ) implies head_of(b[i].terminator) == head_of(b[j].terminator) by {
        if !plain_end(b[i].terminator) && !plain_end(b[j].terminator) {
            let x = choose|x: int|
                0 <= x < a.len() && head_of((#[trigger] a[x]).terminator) == head_of(
                    b[i].terminator,
                );
            let y = choose|y: int|
                0 <= y < a.len() && head_of((#[trigger] a[y]).terminator) == head_of(
                    b[j].terminator,
                );
            assert(head_of(a[x].terminator) == head_of(a[y].terminator));
        }
    }
}

/// Twins of an exact body are the same.
proof fn lemma_twins_same(blocks: Seq<BlockV>, i: int, j: int)
    requires
        exact(blocks),
        0 <= i < blocks.len(),
        0 <= j < blocks.len(),
        twins(blocks, i, j),
    ensures
        blocks[i].stmts == blocks[j].stmts,
        blocks[i].terminator == blocks[j].terminator,
{
    let a = blocks[i].stmts;
    let b = blocks[j].stmts;
    assert forall|k: int| 0 <= k < a.len() implies a[k] == b[k] by {
        assert(stmt_eq(a[k], b[k]));
        assert(has_stmt(blocks, blocks[i].stmts[k]));
        assert(has_stmt(blocks, blocks[j].stmts[k]));
    }
    assert(a =~= b);
    let t = blocks[i].terminator;
    let u = blocks[j].terminator;
    assert(term_eq(head_of(t), head_of(u))) by {
        if let TermV::Switch { discr, discr_ty, targets, default } = t {
            if let TermV::Switch { discr: d2, discr_ty: y2, targets: t2, default: e2 } = u {
                let ht = head_of(t)->targets;
                let hu = head_of(u)->targets;
                assert forall|k: int| 0 <= k < ht.len() implies crate::literal::literal_eq(
                    (#[trigger] ht[k]).0,
                    hu[k].0,
                ) && ht[k].1 == hu[k].1 by {
                    assert(crate::literal::literal_eq(targets[k].0, t2[k].0));
                }
            }
        }
    }
    assert(head_of(t) == head_of(u));
    if let TermV::Switch { discr, discr_ty, targets, default } = t {
        if let TermV::Switch { discr: d2, discr_ty: y2, targets: t2, default: e2 } = u {
            let ht = head_of(t)->targets;
            let hu = head_of(u)->targets;
            assert forall|k: int| 0 <= k < targets.len() implies targets[k] == t2[k] by {
                assert(targets[k].1 == t2[k].1);
                assert(ht[k].0 == hu[k].0);
            }
            assert(targets =~= t2);
        }
    }
}

// Trivial switches.

/// Replacing trivial switches changes no run.
proof fn lemma_switch_runs(blocks: Seq<BlockV>, eval: Eval, b: int, trace: Seq<StmtV>, n: nat)
    ensures
        run(switches_simplified(blocks), eval, b, trace, n) == run(blocks, eval, b, trace, n),
    decreases n,
{
    if n > 0 && 0 <= b < blocks.len() {
        let after = trace + blocks[b].stmts;
        let t = blocks[b].terminator;
        if let TermV::Switch { discr, discr_ty, targets, default } = t {
            if forall|i: int| 0 <= i < targets.len() ==> (#[trigger] targets[i]).1 == default {
                lemma_switch_trivial(targets, default, eval(after, discr));
            }
        }
        if let Some(x) = next_block(t, eval, after) {
            lemma_switch_runs(blocks, eval, x as int, after, (n - 1) as nat);
        }
    }
}

proof fn lemma_switches_keep(blocks: Seq<BlockV>)
    requires
        no_phis(blocks),
    ensures
        no_phis(switches_simplified(blocks)),
        exact(blocks) ==> exact(switches_simplified(blocks)),
{
    let r = switches_simplified(blocks);
    assert forall|i: int| 0 <= i < r.len() implies !has_phi(#[trigger] r[i]) by {
        assert(!has_phi(blocks[i]));
        assert(r[i].stmts == blocks[i].stmts);
    }
    assert forall|s: StmtV| #[trigger] has_stmt(r, s) implies has_stmt(blocks, s) by {
        let (i, j) = choose|i: int, j: int|
            0 <= i < r.len() && 0 <= j < r[i].stmts.len() && #[trigger] r[i].stmts[j] == s;
        assert(blocks[i].stmts[j] == s);
    }
    assert forall|i: int| 0 <= i < r.len() implies plain_end((#[trigger] r[i]).terminator)
        || exists|j: int|
        0 <= j < blocks.len() && head_of((#[trigger] blocks[j]).terminator) == head_of(
            r[i].terminator,
        ) by {
        if r[i].terminator == blocks[i].terminator {
            assert(head_of(blocks[i].terminator) == head_of(r[i].terminator));
        }
    }
    if exact(blocks) {
        lemma_exact_from(blocks, r);
    }
}

// Chains of jumps.

/// Whether `k` jumps through blocks without statements lead from `a` to `b`.
pub open spec fn hops(blocks: Seq<BlockV>, a: usize, b: usize, k: nat) -> bool
    decreases k,
{
    if k == 0 {
        a == b
    } else {
        &&& a < blocks.len()
        &&& blocks[a as int].stmts.len() == 0
        &&& blocks[a as int].terminator matches TermV::Goto(x) && hops(
            blocks,
            x,
            b,
            (k - 1) as nat,
        )
    }
}

pub(crate) proof fn lemma_chase_hops(blocks: Seq<BlockV>, visited: Set<int>, cur: usize, fuel: nat) -> (k: nat)
    ensures
        hops(blocks, cur, chase(blocks, visited, cur, fuel), k),
    decreases fuel,
{
    if fuel == 0 || cur >= blocks.len() || visited.contains(cur as int) {
        0
    } else {
        match blocks[cur as int].terminator {
            TermV::Goto(next) => if blocks[cur as int].stmts.len() == 0 {
                let k = lemma_chase_hops(
                    blocks,
                    visited.insert(cur as int),
                    next,
                    (fuel - 1) as nat,
                );
                k + 1
            } else {
                0
            },
            _ => 0,
        }
    }
}

/// Hops take fuel and do nothing else.
pub proof fn lemma_hops_run(
    blocks: Seq<BlockV>,
    eval: Eval,
    a: usize,
    b: usize,
    k: nat,
    trace: Seq<StmtV>,
    n: nat,
)
    requires
        hops(blocks, a, b, k),
    ensures
        run(blocks, eval, a as int, trace, n + k) == run(blocks, eval, b as int, trace, n),
        n < k ==> run(blocks, eval, a as int, trace, n) is None,
    decreases k,
{
    if k > 0 {
        let x = blocks[a as int].terminator->Goto_0;
        assert(trace + blocks[a as int].stmts =~= trace);
        lemma_hops_run(blocks, eval, x, b, (k - 1) as nat, trace, n);
        if n > 0 {
            lemma_hops_run(blocks, eval, x, b, (k - 1) as nat, trace, (n - 1) as nat);
        }
    }
}

proof fn lemma_chain_forward(
    blocks: Seq<BlockV>,
    i: int,
    eval: Eval,
    b: int,
    trace: Seq<StmtV>,
    n: nat,
) -> (m: nat)
    requires
        0 <= i < blocks.len(),
        run(blocks, eval, b, trace, n) is Some,
    ensures
        run(chain_one(blocks, i), eval, b, trace, m) == run(blocks, eval, b, trace, n),
    decreases n,
{
    let r = chain_one(blocks, i);
    let after = trace + blocks[b].stmts;
    match next_block(blocks[b].terminator, eval, after) {
        None => n,
        Some(x) => {
            let n1 = (n - 1) as nat;
            if b == i && blocks[i].terminator is Goto {
                let c = chase(blocks, set![i], x, blocks.len());
                let k = lemma_chase_hops(blocks, set![i], x, blocks.len());
                if n1 < k {
                    lemma_hops_run(blocks, eval, x, c, k, after, n1);
                    assert(false);
                    0
                } else {
                    lemma_hops_run(blocks, eval, x, c, k, after, (n1 - k) as nat);
                    let m = lemma_chain_forward(
                        blocks,
                        i,
                        eval,
                        c as int,
                        after,
                        (n1 - k) as nat,
                    );
                    m + 1
                }
            } else {
                let m = lemma_chain_forward(blocks, i, eval, x as int, after, n1);
                m + 1
            }
        },
    }
}

proof fn lemma_chain_backward(
    blocks: Seq<BlockV>,
    i: int,
    eval: Eval,
    b: int,
    trace: Seq<StmtV>,
    n: nat,
) -> (m: nat)
    requires
        0 <= i < blocks.len(),
        run(chain_one(blocks, i), eval, b, trace, n) is Some,
    ensures
        run(blocks, eval, b, trace, m) == run(chain_one(blocks, i), eval, b, trace, n),
    decreases n,
{
    let r = chain_one(blocks, i);
    let after = trace + r[b].stmts;
    match next_block(r[b].terminator, eval, after) {
        None => n,
        Some(x) => {
            let n1 = (n - 1) as nat;
            let m = lemma_chain_backward(blocks, i, eval, x as int, after, n1);
            if b == i && blocks[i].terminator is Goto {
                let t = blocks[i].terminator->Goto_0;
                let k = lemma_chase_hops(blocks, set![i], t, blocks.len());
                lemma_hops_run(blocks, eval, t, x, k, after, m);
                m + k + 1
            } else {
                m + 1
            }
        },
    }
}

/// Redirecting jumps changes no run.
proof fn lemma_chained_runs(
    blocks: Seq<BlockV>,
    n: int,
    eval: Eval,
    b: int,
    trace: Seq<StmtV>,
    o: Outcome,
)
    requires
        0 <= n <= blocks.len(),
        cfg_ok(blocks),
    ensures
        finishes(chained(blocks, n), eval, b, trace, o) <==> finishes(blocks, eval, b, trace, o),
    decreases n,
{
    if n > 0 {
        lemma_chained_runs(blocks, n - 1, eval, b, trace, o);
        let c = chained(blocks, n - 1);
        lemma_chained_ok(blocks, n - 1);
        let i = n - 1;
        if finishes(c, eval, b, trace, o) {
            let k = choose|k: nat| #[trigger] run(c, eval, b, trace, k) == Some(o);
            let m = lemma_chain_forward(c, i, eval, b, trace, k);
            assert(run(chain_one(c, i), eval, b, trace, m) == Some(o));
        }
        if finishes(chain_one(c, i), eval, b, trace, o) {
            let k = choose|k: nat| #[trigger]
                run(chain_one(c, i), eval, b, trace, k) == Some(o);
            let m = lemma_chain_backward(c, i, eval, b, trace, k);
            assert(run(c, eval, b, trace, m) == Some(o));
        }
    }
}

proof fn lemma_chained_keep(blocks: Seq<BlockV>, n: int)
    requires
        0 <= n <= blocks.len(),
        cfg_ok(blocks),
        no_phis(blocks),
    ensures
        no_phis(chained(blocks, n)),
        exact(blocks) ==> exact(chained(blocks, n)),
    decreases n,
{
    if n > 0 {
        lemma_chained_keep(blocks, n - 1);
        lemma_chained_ok(blocks, n - 1);
        let c = chained(blocks, n - 1);
        let r = chain_one(c, n - 1);
        assert forall|i: int| 0 <= i < r.len() implies !has_phi(#[trigger] r[i]) by {
            assert(!has_phi(c[i]));
            assert(r[i].stmts == c[i].stmts);
        }
        assert forall|s: StmtV| #[trigger] has_stmt(r, s) implies has_stmt(c, s) by {
            let (i, j) = choose|i: int, j: int|
                0 <= i < r.len() && 0 <= j < r[i].stmts.len() && #[trigger] r[i].stmts[j] == s;
            assert(c[i].stmts[j] == s);
        }
        assert forall|i: int| 0 <= i < r.len() implies plain_end((#[trigger] r[i]).terminator)
            || exists|j: int|
            0 <= j < c.len() && head_of((#[trigger] c[j]).terminator) == head_of(
                r[i].terminator,
            ) by {
            if r[i].terminator == c[i].terminator {
                assert(head_of(c[i].terminator) == head_of(r[i].terminator));
            }
        }
        if exact(blocks) {
            lemma_exact_from(c, r);
        }
    }
}

// Merging straight-line pairs.

/// Whether only block `p` passes control to block `s`, by a jump.
pub open spec fn sole_pred(blocks: Seq<BlockV>, p: int, s: int) -> bool {
    &&& 0 <= p < blocks.len()
    &&& 0 <= s < blocks.len() <= usize::MAX
    &&& blocks[p].terminator == TermV::Goto(s as usize)
    &&& forall|x: int|
        0 <= x < blocks.len() && x != p ==> !successors_of(
            (#[trigger] blocks[x]).terminator,
        ).contains(s as usize)
}

proof fn lemma_absorb_forward(
    blocks: Seq<BlockV>,
    p: int,
    s: int,
    eval: Eval,
    b: int,
    trace: Seq<StmtV>,
    n: nat,
) -> (m: nat)
    requires
        sole_pred(blocks, p, s),
        b != s,
        run(blocks, eval, b, trace, n) is Some,
    ensures
        run(absorb(blocks, p, s), eval, b, trace, m) == run(blocks, eval, b, trace, n),
    decreases n,
{
    let r = absorb(blocks, p, s);
    let after = trace + blocks[b].stmts;
    let t = blocks[b].terminator;
    lemma_next_named(t, eval, after);
    match next_block(t, eval, after) {
        None => n,
        Some(x) => {
            let n1 = (n - 1) as nat;
            if b == p {
                assert(run(blocks, eval, s, after, n1) is Some);
                let after2 = after + blocks[s].stmts;
                assert(trace + r[p].stmts =~= after2);
                let u = blocks[s].terminator;
                lemma_next_named(u, eval, after2);
                match next_block(u, eval, after2) {
                    None => {
                        assert(run(r, eval, b, trace, 1) == Some(
                            Outcome { trace: after2, end: u },
                        ));
                        1
                    },
                    Some(y) => {
                        assert(y != s);
                        let m = lemma_absorb_forward(
                            blocks,
                            p,
                            s,
                            eval,
                            y as int,
                            after2,
                            (n1 - 1) as nat,
                        );
                        m + 1
                    },
                }
            } else {
                assert(x != s);
                let m = lemma_absorb_forward(blocks, p, s, eval, x as int, after, n1);
                m + 1
            }
        },
    }
}

proof fn lemma_absorb_backward(
    blocks: Seq<BlockV>,
    p: int,
    s: int,
    eval: Eval,
    b: int,
    trace: Seq<StmtV>,
    n: nat,
) -> (m: nat)
    requires
        sole_pred(blocks, p, s),
        b != s,
        run(absorb(blocks, p, s), eval, b, trace, n) is Some,
    ensures
        run(blocks, eval, b, trace, m) == run(absorb(blocks, p, s), eval, b, trace, n),
    decreases n,
{
    let r = absorb(blocks, p, s);
    let n1 = (n - 1) as nat;
    if b == p {
        let after = trace + blocks[p].stmts;
        let after2 = after + blocks[s].stmts;
        assert(trace + r[p].stmts =~= after2);
        let u = blocks[s].terminator;
        lemma_next_named(u, eval, after2);
        match next_block(u, eval, after2) {
            None => {
                assert(run(blocks, eval, s, after, 1) == Some(Outcome { trace: after2, end: u }));
                assert(run(blocks, eval, p, trace, 2) == run(blocks, eval, s, after, 1));
                2
            },
            Some(y) => {
                assert(y != s);
                let m = lemma_absorb_backward(blocks, p, s, eval, y as int, after2, n1);
                assert(run(blocks, eval, s, after, m + 1) == run(
                    blocks,
                    eval,
                    y as int,
                    after2,
                    m,
                ));
                assert(run(blocks, eval, p, trace, m + 2) == run(blocks, eval, s, after, m + 1));
                m + 2
            },
        }
    } else {
        let after = trace + blocks[b].stmts;
        lemma_next_named(blocks[b].terminator, eval, after);
        match next_block(blocks[b].terminator, eval, after) {
            None => n,
            Some(x) => {
                assert(x != s);
                let m = lemma_absorb_backward(blocks, p, s, eval, x as int, after, n1);
                m + 1
            },
        }
    }
}

proof fn lemma_occurs(s: Seq<usize>, x: usize)
    requires
        s.contains(x),
    ensures
        occurrences(s, x) >= 1,
    decreases s.len(),
{
    let i = choose|i: int| 0 <= i < s.len() && s[i] == x;
    if i < s.len() - 1 {
        assert(s.drop_last()[i] == x);
        lemma_occurs(s.drop_last(), x);
    }
}

/// Where each block of a merged body comes from: a block that took part in no merge is
/// as it was; the end of one that did is unreachable, or that of a block that took part.
pub open spec fn merge_origin(blocks: Seq<BlockV>, b: Seq<BlockV>, touched: Set<int>) -> bool {
    &&& b.len() == blocks.len()
    &&& forall|x: int| 0 <= x < b.len() && !touched.contains(x) ==> #[trigger] b[x] == blocks[x]
    &&& forall|x: int|
        0 <= x < b.len() && touched.contains(x) ==> (#[trigger] b[x]).terminator is Unreachable
            || exists|y: int|
            0 <= y < blocks.len() && touched.contains(y) && b[x].terminator == (
            #[trigger] blocks[y]).terminator
}

pub(crate) proof fn lemma_merge_sole(blocks: Seq<BlockV>, b: Seq<BlockV>, touched: Set<int>, p: int, s: int)
    requires
        merge_origin(blocks, b, touched),
        falls_through(blocks, p, s),
        !touched.contains(p),
        !touched.contains(s),
        blocks.len() <= usize::MAX,
    ensures
        sole_pred(b, p, s),
{
    assert(b[p] == blocks[p]);
    assert forall|x: int| 0 <= x < b.len() && x != p implies !successors_of(
        (#[trigger] b[x]).terminator,
    ).contains(s as usize) by {
        if successors_of(b[x].terminator).contains(s as usize) {
            lemma_goto_occurs(s as usize);
            if touched.contains(x) {
                let y = choose|y: int|
                    0 <= y < blocks.len() && touched.contains(y) && b[x].terminator == (
                    #[trigger] blocks[y]).terminator;
                lemma_occurs(successors_of(blocks[y].terminator), s as usize);
                lemma_in_degree_two(blocks, s as usize, blocks.len() as int, p, y);
            } else {
                lemma_occurs(successors_of(blocks[x].terminator), s as usize);
                lemma_in_degree_two(blocks, s as usize, blocks.len() as int, p, x);
            }
        }
    }
}

pub(crate) proof fn lemma_merge_origin(blocks: Seq<BlockV>, n: int)
    requires
        0 <= n <= blocks.len() <= usize::MAX,
    ensures
        merge_origin(blocks, merged(blocks, n).0, merged(blocks, n).1),
    decreases n,
{
    if n > 0 {
        let s = n - 1;
        lemma_merge_origin(blocks, s);
        let b = merged(blocks, s).0;
        let touched = merged(blocks, s).1;
        if exists|p: int| falls_through(blocks, p, s) {
            let p = choose|p: int| falls_through(blocks, p, s);
            if !(touched.contains(p) || touched.contains(s)) {
                let r = absorb(b, p, s);
                let t2 = touched.insert(p).insert(s);
                assert forall|x: int| 0 <= x < r.len() && t2.contains(x) implies (
                #[trigger] r[x]).terminator is Unreachable || exists|y: int|
                    0 <= y < blocks.len() && t2.contains(y) && r[x].terminator == (
                    #[trigger] blocks[y]).terminator by {
                    if x == s {
                    } else if x == p {
                        assert(r[p].terminator == blocks[s].terminator);
                    } else {
                        assert(r[x] == b[x]);
                        if !(b[x].terminator is Unreachable) {
                            let y = choose|y: int|
                                0 <= y < blocks.len() && touched.contains(y) && b[x].terminator
                                    == (#[trigger] blocks[y]).terminator;
                            assert(t2.contains(y));
                        }
                    }
                }
            }
        }
    }
}

/// Merging changes no run from the entry block.
proof fn lemma_merged_runs(blocks: Seq<BlockV>, n: int, eval: Eval, trace: Seq<StmtV>, o: Outcome)
    requires
        0 <= n <= blocks.len() <= usize::MAX,
    ensures
        finishes(merged(blocks, n).0, eval, 0, trace, o) <==> finishes(blocks, eval, 0, trace, o),
    decreases n,
{
    if n > 0 {
        let s = n - 1;
        lemma_merged_runs(blocks, s, eval, trace, o);
        let b = merged(blocks, s).0;
        let touched = merged(blocks, s).1;
        lemma_merge_origin(blocks, s);
        if exists|p: int| falls_through(blocks, p, s) {
            let p = choose|p: int| falls_through(blocks, p, s);
            if !(touched.contains(p) || touched.contains(s)) {
                lemma_merge_sole(blocks, b, touched, p, s);
                let r = absorb(b, p, s);
                if finishes(b, eval, 0, trace, o) {
                    let k = choose|k: nat| #[trigger] run(b, eval, 0, trace, k) == Some(o);
                    let m = lemma_absorb_forward(b, p, s, eval, 0, trace, k);
                    assert(run(r, eval, 0, trace, m) == Some(o));
                }
                if finishes(r, eval, 0, trace, o) {
                    let k = choose|k: nat| #[trigger] run(r, eval, 0, trace, k) == Some(o);
                    let m = lemma_absorb_backward(b, p, s, eval, 0, trace, k);
                    assert(run(b, eval, 0, trace, m) == Some(o));
                }
            }
        }
    }
}

proof fn lemma_merged_keep(blocks: Seq<BlockV>, n: int)
    requires
        0 <= n <= blocks.len(),
        cfg_ok(blocks),
        no_phis(blocks),
    ensures
        no_phis(merged(blocks, n).0),
        exact(blocks) ==> exact(merged(blocks, n).0),
    decreases n,
{
    if n > 0 {
        let s = n - 1;
        lemma_merged_keep(blocks, s);
        lemma_merged_ok(blocks, s);
        let b = merged(blocks, s).0;
        let touched = merged(blocks, s).1;
        if exists|p: int| falls_through(blocks, p, s) {
            let p = choose|p: int| falls_through(blocks, p, s);
            if !(touched.contains(p) || touched.contains(s)) {
                let r = absorb(b, p, s);
                assert forall|x: int, j: int|
                    0 <= x < r.len() && 0 <= j < r[x].stmts.len() implies exists|y: int, k: int|
                    0 <= y < b.len() && 0 <= k < b[y].stmts.len() && #[trigger] b[y].stmts[k]
                        == #[trigger] r[x].stmts[j] by {
                    if x == p && p != s {
                        if j < b[p].stmts.len() {
                            assert(b[p].stmts[j] == r[x].stmts[j]);
                        } else {
                            assert(b[s].stmts[j - b[p].stmts.len()] == r[x].stmts[j]);
                        }
                    } else {
                        assert(b[x].stmts[j] == r[x].stmts[j]);
                    }
                }
                assert forall|i: int| 0 <= i < r.len() implies !has_phi(#[trigger] r[i]) by {
                    if has_phi(r[i]) {
                        let j = choose|j: int|
                            0 <= j < r[i].stmts.len() && is_phi(#[trigger] r[i].stmts[j]);
                        let (y, k) = choose|y: int, k: int|
                            0 <= y < b.len() && 0 <= k < b[y].stmts.len()
                                && #[trigger] b[y].stmts[k] == r[i].stmts[j];
                        assert(is_phi(b[y].stmts[k]));
                        assert(has_phi(b[y]));
                    }
                }
                assert forall|q: StmtV| #[trigger] has_stmt(r, q) implies has_stmt(b, q) by {
                    let (i, j) = choose|i: int, j: int|
                        0 <= i < r.len() && 0 <= j < r[i].stmts.len() && #[trigger] r[i].stmts[j]
                            == q;
                    let (y, k) = choose|y: int, k: int|
                        0 <= y < b.len() && 0 <= k < b[y].stmts.len() && #[trigger] b[y].stmts[k]
                            == r[i].stmts[j];
                    assert(b[y].stmts[k] == q);
                }
                assert forall|i: int| 0 <= i < r.len() implies plain_end(
                    (#[trigger] r[i]).terminator,
                ) || exists|j: int|
                    0 <= j < b.len() && head_of((#[trigger] b[j]).terminator) == head_of(
                        r[i].terminator,
                    ) by {
                    if i == s {
                    } else if i == p {
                        assert(head_of(b[s].terminator) == head_of(r[i].terminator));
                    } else {
                        assert(head_of(b[i].terminator) == head_of(r[i].terminator));
                    }
                }
                if exact(blocks) {
                    lemma_exact_from(b, r);
                }
            }
        }
    }
}

// Equal tails.

proof fn lemma_canonical_same(blocks: Seq<BlockV>, b: usize)
    requires
        exact(blocks),
        b < blocks.len(),
    ensures
        canonical(blocks)(b) < blocks.len(),
        blocks[canonical(blocks)(b) as int].stmts == blocks[b as int].stmts,
        blocks[canonical(blocks)(b) as int].terminator == blocks[b as int].terminator,
{
    lemma_first_twin_before(blocks, b as int, 1);
    if let Some(i) = first_twin(blocks, b as int, 1) {
        lemma_twins_same(blocks, i, b as int);
    }
}

/// Running from a block, and from the block that stands for it in the body with equal
/// tails merged, is the same.
proof fn lemma_tails_runs(blocks: Seq<BlockV>, eval: Eval, b: usize, trace: Seq<StmtV>, n: nat)
    requires
        exact(blocks),
        targets_ok(blocks),
        b < blocks.len(),
    ensures
        run(tails_merged(blocks), eval, canonical(blocks)(b) as int, trace, n) == run(
            blocks,
            eval,
            b as int,
            trace,
            n,
        ),
    decreases n,
{
    lemma_canonical_same(blocks, b);
    if n > 0 {
        let f = canonical(blocks);
        let t = blocks[b as int].terminator;
        let after = trace + blocks[b as int].stmts;
        lemma_next_retargeted(t, f, eval, after);
        lemma_next_named(t, eval, after);
        if let Some(x) = next_block(t, eval, after) {
            assert(term_in_range(t, blocks.len() as int));
            let k = choose|k: int| 0 <= k < successors_of(t).len() && successors_of(t)[k] == x;
            assert(successors_of(t)[k] < blocks.len());
            lemma_tails_runs(blocks, eval, x, after, (n - 1) as nat);
        }
    }
}

proof fn lemma_head_retargeted(t: TermV, f: spec_fn(usize) -> usize)
    ensures
        head_of(retarget(t, f)) == head_of(t),
{
    if let TermV::Switch { discr, discr_ty, targets, default } = t {
        assert(head_of(retarget(t, f))->targets =~= head_of(t)->targets);
    }
}

proof fn lemma_tails_keep(blocks: Seq<BlockV>)
    requires
        no_phis(blocks),
    ensures
        no_phis(tails_merged(blocks)),
        exact(blocks) ==> exact(tails_merged(blocks)),
{
    let r = tails_merged(blocks);
    assert forall|i: int| 0 <= i < r.len() implies !has_phi(#[trigger] r[i]) by {
        assert(!has_phi(blocks[i]));
        assert(r[i].stmts == blocks[i].stmts);
    }
    assert forall|s: StmtV| #[trigger] has_stmt(r, s) implies has_stmt(blocks, s) by {
        let (i, j) = choose|i: int, j: int|
            0 <= i < r.len() && 0 <= j < r[i].stmts.len() && #[trigger] r[i].stmts[j] == s;
        assert(blocks[i].stmts[j] == s);
    }
    assert forall|i: int| 0 <= i < r.len() implies plain_end((#[trigger] r[i]).terminator)
        || exists|j: int|
        0 <= j < blocks.len() && head_of((#[trigger] blocks[j]).terminator) == head_of(
            r[i].terminator,
        ) by {
        lemma_head_retargeted(blocks[i].terminator, canonical(blocks));
        assert(head_of(blocks[i].terminator) == head_of(r[i].terminator));
    }
    if exact(blocks) {
        lemma_exact_from(blocks, r);
    }
}

// Dead blocks.

pub(crate) proof fn lemma_prune_plain(stmts: Seq<StmtV>, keep: Seq<bool>)
    requires
        forall|i: int| 0 <= i < stmts.len() ==> !is_phi(#[trigger] stmts[i]),
    ensures
        prune_stmts(stmts, keep) == stmts,
    decreases stmts.len(),
{
    if stmts.len() > 0 {
        let front = stmts.drop_last();
        assert forall|i: int| 0 <= i < front.len() implies !is_phi(#[trigger] front[i]) by {
            assert(front[i] == stmts[i]);
        }
        lemma_prune_plain(front, keep);
        assert(!is_phi(stmts[stmts.len() - 1]));
        assert(front.push(stmts.last()) =~= stmts);
    } else {
        assert(prune_stmts(stmts, keep) =~= stmts);
    }
}

/// A block that stays, in its new place.
proof fn lemma_dead_block(blocks: Seq<BlockV>, b: int)
    requires
        no_phis(blocks),
        0 <= b < blocks.len(),
        reachable(blocks, b),
    ensures
        ({
            let keep = reachable_set(blocks);
            let r = dead_removed(blocks);
            &&& 0 <= rank(keep, b) < r.len()
            &&& r[rank(keep, b)].stmts == blocks[b].stmts
            &&& r[rank(keep, b)].terminator == armless_to_goto(
                retarget(blocks[b].terminator, renumbering(keep)),
            )
        }),
{
    let keep = reachable_set(blocks);
    let all = Seq::new(blocks.len(), |i: int| kept_block(blocks[i], keep));
    lemma_compact_index(all, keep, blocks.len() as int, b);
    assert(!has_phi(blocks[b]));
    lemma_prune_plain(blocks[b].stmts, keep);
}

/// Running from a reachable block is the same once dead blocks are gone.
proof fn lemma_dead_runs(blocks: Seq<BlockV>, eval: Eval, b: int, trace: Seq<StmtV>, n: nat)
    requires
        no_phis(blocks),
        targets_ok(blocks),
        0 <= b < blocks.len() <= usize::MAX,
        reachable(blocks, b),
    ensures
        run(dead_removed(blocks), eval, rank(reachable_set(blocks), b), trace, n) == run(
            blocks,
            eval,
            b,
            trace,
            n,
        ),
    decreases n,
{
    let keep = reachable_set(blocks);
    let r = dead_removed(blocks);
    lemma_dead_block(blocks, b);
    if n > 0 {
        let t = blocks[b].terminator;
        let after = trace + blocks[b].stmts;
        let f = renumbering(keep);
        lemma_next_retargeted(t, f, eval, after);
        lemma_next_named(t, eval, after);
        if let Some(x) = next_block(t, eval, after) {
            let k = choose|k: int| 0 <= k < successors_of(t).len() && successors_of(t)[k] == x;
            lemma_kept_target(blocks, keep, b, k);
            lemma_dead_runs(blocks, eval, x as int, after, (n - 1) as nat);
        }
    }
}

proof fn lemma_dead_keep(blocks: Seq<BlockV>)
    requires
        no_phis(blocks),
    ensures
        no_phis(dead_removed(blocks)),
        exact(blocks) ==> exact(dead_removed(blocks)),
{
    let keep = reachable_set(blocks);
    let all = Seq::new(blocks.len(), |i: int| kept_block(blocks[i], keep));
    let r = dead_removed(blocks);
    let n = blocks.len() as int;
    lemma_compact_len(all, keep, n);
    assert forall|a: int| 0 <= a < r.len() implies exists|i: int|
        0 <= i < blocks.len() && #[trigger] r[a] == kept_block(#[trigger] blocks[i], keep)
            && r[a].stmts == blocks[i].stmts by {
        let i = lemma_compact_source(all, keep, n, a);
        assert(!has_phi(blocks[i]));
        lemma_prune_plain(blocks[i].stmts, keep);
        assert(r[a] == kept_block(blocks[i], keep));
    }
    assert forall|a: int| 0 <= a < r.len() implies !has_phi(#[trigger] r[a]) by {
        let i = choose|i: int|
            0 <= i < blocks.len() && r[a] == kept_block(#[trigger] blocks[i], keep) && r[a].stmts
                == blocks[i].stmts;
        assert(!has_phi(blocks[i]));
    }
    assert forall|s: StmtV| #[trigger] has_stmt(r, s) implies has_stmt(blocks, s) by {
        let (a, j) = choose|a: int, j: int|
            0 <= a < r.len() && 0 <= j < r[a].stmts.len() && #[trigger] r[a].stmts[j] == s;
        let i = choose|i: int|
            0 <= i < blocks.len() && r[a] == kept_block(#[trigger] blocks[i], keep) && r[a].stmts
                == blocks[i].stmts;
        assert(blocks[i].stmts[j] == s);
    }
    assert forall|a: int| 0 <= a < r.len() implies plain_end((#[trigger] r[a]).terminator)
        || exists|j: int|
        0 <= j < blocks.len() && head_of((#[trigger] blocks[j]).terminator) == head_of(
            r[a].terminator,
        ) by {
        let i = choose|i: int|
            0 <= i < blocks.len() && r[a] == kept_block(#[trigger] blocks[i], keep) && r[a].stmts
                == blocks[i].stmts;
        lemma_head_retargeted(blocks[i].terminator, renumbering(keep));
        if !plain_end(r[a].terminator) {
            assert(head_of(blocks[i].terminator) == head_of(r[a].terminator));
        }
    }
    if exact(blocks) {
        lemma_exact_from(blocks, r);
    }
}

// Rounds.

/// One round of simplification makes no phi.
pub proof fn lemma_round_plain(blocks: Seq<BlockV>)
    requires
        cfg_ok(blocks),
        no_phis(blocks),
    ensures
        no_phis(simplify_round(blocks)),
{
    let a = switches_simplified(blocks);
    let b = chained(a, a.len() as int);
    let c = merged(b, b.len() as int).0;
    let d = tails_merged(c);
    lemma_switches_keep(blocks);
    lemma_switches_ok(blocks);
    lemma_chained_keep(a, a.len() as int);
    lemma_chained_ok(a, a.len() as int);
    lemma_merged_keep(b, b.len() as int);
    lemma_merged_ok(b, b.len() as int);
    lemma_tails_keep(c);
    lemma_dead_keep(d);
}

/// One round of simplification changes no run.
pub proof fn lemma_round_runs(blocks: Seq<BlockV>, eval: Eval)
    requires
        cfg_ok(blocks),
        no_phis(blocks),
        exact(blocks),
        blocks.len() <= usize::MAX,
    ensures
        same_runs(simplify_round(blocks), blocks, eval),
        no_phis(simplify_round(blocks)),
        exact(simplify_round(blocks)),
{
    let a = switches_simplified(blocks);
    let b = chained(a, a.len() as int);
    let c = merged(b, b.len() as int).0;
    let d = tails_merged(c);
    let r = dead_removed(d);
    lemma_round_ok(blocks);
    lemma_switches_keep(blocks);
    lemma_chained_keep(a, a.len() as int);
    lemma_chained_ok(a, a.len() as int);
    lemma_merged_keep(b, b.len() as int);
    lemma_merged_ok(b, b.len() as int);
    lemma_tails_keep(c);
    lemma_dead_keep(d);
    let e = Seq::<StmtV>::empty();
    assert forall|o: Outcome| #[trigger]
        finishes(r, eval, 0, e, o) <==> finishes(blocks, eval, 0, e, o) by {
        lemma_chained_runs(a, a.len() as int, eval, 0, e, o);
        lemma_merged_runs(b, b.len() as int, eval, e, o);
        assert forall|n: nat| run(a, eval, 0, e, n) == #[trigger] run(blocks, eval, 0, e, n) by {
            lemma_switch_runs(blocks, eval, 0, e, n);
        }
        assert(finishes(a, eval, 0, e, o) <==> finishes(blocks, eval, 0, e, o)) by {
            if finishes(a, eval, 0, e, o) {
                let n = choose|n: nat| #[trigger] run(a, eval, 0, e, n) == Some(o);
                assert(run(blocks, eval, 0, e, n) == Some(o));
            }
            if finishes(blocks, eval, 0, e, o) {
                let n = choose|n: nat| #[trigger] run(blocks, eval, 0, e, n) == Some(o);
                assert(run(a, eval, 0, e, n) == Some(o));
            }
        }
        if blocks.len() > 0 {
            assert(canonical(c)(0) == 0);
            lemma_entry_reachable(d);
            assert(rank(reachable_set(d), 0) == 0);
            assert forall|n: nat| run(r, eval, 0, e, n) == #[trigger] run(c, eval, 0, e, n) by {
                lemma_tails_runs(c, eval, 0, e, n);
                lemma_dead_runs(d, eval, 0, e, n);
            }
            assert(finishes(r, eval, 0, e, o) <==> finishes(c, eval, 0, e, o)) by {
                if finishes(r, eval, 0, e, o) {
                    let n = choose|n: nat| #[trigger] run(r, eval, 0, e, n) == Some(o);
                    assert(run(c, eval, 0, e, n) == Some(o));
                }
                if finishes(c, eval, 0, e, o) {
                    let n = choose|n: nat| #[trigger] run(c, eval, 0, e, n) == Some(o);
                    assert(run(r, eval, 0, e, n) == Some(o));
                }
            }
        } else {
            assert(r.len() == 0);
        }
    }
}

/// Simplifying changes no run: a run of the simplified body ends if and only if the run
/// of the body does, having executed the same statements in the same order and with the
/// same terminator.
pub proof fn lemma_rounds_runs(blocks: Seq<BlockV>, n: nat, eval: Eval)
    requires
        cfg_ok(blocks),
        no_phis(blocks),
        exact(blocks),
        blocks.len() <= usize::MAX,
    ensures
        same_runs(simplify_rounds(blocks, n), blocks, eval),
    decreases n,
{
    if n > 0 {
        let next = simplify_round(blocks);
        lemma_round_runs(blocks, eval);
        lemma_round_ok(blocks);
        lemma_round_shrinks(blocks);
        if next.len() != blocks.len() {
            lemma_rounds_runs(next, (n - 1) as nat, eval);
            assert forall|o: Outcome| #[trigger]
                finishes(simplify_rounds(blocks, n), eval, 0, Seq::empty(), o) <==> finishes(
                blocks,
                eval,
                0,
                Seq::empty(),
                o,
            ) by {
                assert(finishes(next, eval, 0, Seq::empty(), o) <==> finishes(
                    blocks,
                    eval,
                    0,
                    Seq::empty(),
                    o,
                ));
            }
        }
    }
}

/// A round never adds blocks.
pub proof fn lemma_round_shrinks(blocks: Seq<BlockV>)
    requires
        cfg_ok(blocks),
    ensures
        simplify_round(blocks).len() <= blocks.len(),
{
    let a = switches_simplified(blocks);
    let b = chained(a, a.len() as int);
    let c = merged(b, b.len() as int).0;
    let d = tails_merged(c);
    lemma_round_ok(blocks);
    lemma_switches_ok(blocks);
    lemma_chained_ok(a, a.len() as int);
    lemma_merged_ok(b, b.len() as int);
    let keep = reachable_set(d);
    let all = Seq::new(d.len(), |i: int| kept_block(d[i], keep));
    lemma_compact_len(all, keep, d.len() as int);
    lemma_rank_bounds(keep, d.len() as int);
}

/// Simplifying a program changes no run of any of its functions.
pub proof fn lemma_simplify_runs(p: ProgramV, i: int, eval: Eval)
    requires
        0 <= i < p.fns.len(),
        cfg_ok(p.fns[i].body.blocks),
        no_phis(p.fns[i].body.blocks),
        exact(p.fns[i].body.blocks),
        p.fns[i].body.blocks.len() <= usize::MAX,
    ensures
        same_runs(simplified(p).fns[i].body.blocks, p.fns[i].body.blocks, eval),
        simplified(p).fns[i].name == p.fns[i].name,
        simplified(p).fns[i].params == p.fns[i].params,
        simplified(p).fns[i].return_type == p.fns[i].return_type,
        simplified(p).fns[i].body.locals == p.fns[i].body.locals,
{
    lemma_rounds_runs(p.fns[i].body.blocks, crate::control::MAX_ITERATIONS as nat, eval);
}

/// Simplifying never adds blocks.
pub proof fn lemma_rounds_shrink(blocks: Seq<BlockV>, n: nat)
    requires
        cfg_ok(blocks),
    ensures
        simplify_rounds(blocks, n).len() <= blocks.len(),
        cfg_ok(simplify_rounds(blocks, n)),
    decreases n,
{
    if n > 0 {
        lemma_round_shrinks(blocks);
        lemma_round_ok(blocks);
        let next = simplify_round(blocks);
        if next.len() != blocks.len() {
            lemma_rounds_shrink(next, (n - 1) as nat);
        }
    }
}

/// Once dead blocks are removed, every block is reachable.
pub proof fn lemma_dead_removed_reachable(blocks: Seq<BlockV>, j: int)
    requires
        targets_ok(blocks),
        blocks.len() <= usize::MAX,
        0 <= j < dead_removed(blocks).len(),
    ensures
        reachable(dead_removed(blocks), j),
{
    let keep = reachable_set(blocks);
    let all = Seq::new(blocks.len(), |i: int| kept_block(blocks[i], keep));
    let i = lemma_compact_source(all, keep, blocks.len() as int, j);
    let p = choose|p: Seq<int>| crate::cfg::is_path(blocks, p) && #[trigger] p.last() == i;
    lemma_path_kept(blocks, p);
}

proof fn lemma_path_kept(blocks: Seq<BlockV>, p: Seq<int>)
    requires
        targets_ok(blocks),
        blocks.len() <= usize::MAX,
        crate::cfg::is_path(blocks, p),
    ensures
        reachable(blocks, p.last()),
        0 <= p.last() < blocks.len(),
        reachable(dead_removed(blocks), rank(reachable_set(blocks), p.last())),
    decreases p.len(),
{
    let keep = reachable_set(blocks);
    let r = dead_removed(blocks);
    let all = Seq::new(blocks.len(), |i: int| kept_block(blocks[i], keep));
    let n = blocks.len() as int;
    if p.len() == 1 {
        lemma_entry_reachable(blocks);
        lemma_compact_index(all, keep, n, 0);
        lemma_entry_reachable(r);
        assert(p.last() == 0);
    } else {
        let q = p.drop_last();
        assert(crate::cfg::is_path(blocks, q)) by {
            assert forall|i: int| 0 < i < q.len() implies edge(
                blocks,
                q[i - 1],
                #[trigger] q[i],
            ) by {
                assert(edge(blocks, p[i - 1], p[i]));
            }
        }
        lemma_path_kept(blocks, q);
        let a = q.last();
        let b = p.last();
        assert(edge(blocks, p[p.len() - 2], p[p.len() - 1]));
        assert(edge(blocks, a, b));
        lemma_reachable_step(blocks, a, b);
        let t = blocks[a].terminator;
        let k = choose|k: int|
            0 <= k < successors_of(t).len() && successors_of(t)[k] == b as usize;
        lemma_kept_target(blocks, keep, a, k);
        lemma_compact_index(all, keep, n, a);
        lemma_compact_index(all, keep, n, b);
        let f = renumbering(keep);
        let u = retarget(t, f);
        assert forall|x: int| 0 <= x < successors_of(t).len() implies f(
            #[trigger] successors_of(t)[x],
        ) < r.len() by {
            lemma_kept_target(blocks, keep, a, x);
            lemma_compact_len(all, keep, n);
        }
        lemma_retarget_range(t, f, r.len() as int);
        let ra = rank(keep, a);
        let rb = rank(keep, b);
        assert(successors_of(u)[k] == rb as usize);
        assert(successors_of(r[ra].terminator).contains(rb as usize)) by {
            if let TermV::Switch { discr, discr_ty, targets, default } = u {
                if targets.len() == 0 {
                    assert(successors_of(armless_to_goto(u))[0] == default);
                    assert(successors_of(u)[0] == default);
                } else {
                    assert(successors_of(r[ra].terminator)[k] == rb as usize);
                }
            } else {
                assert(successors_of(r[ra].terminator)[k] == rb as usize);
            }
        }
        assert(edge(r, ra, rb));
        lemma_reachable_step(r, ra, rb);
    }
}

// What one pass leaves behind.

/// Whether a block only jumps on.
pub open spec fn only_jumps(b: BlockV) -> bool {
    b.stmts.len() == 0 && b.terminator is Goto
}

/// Whether a block lies on a circle of blocks that only jump on.
pub open spec fn on_circle(blocks: Seq<BlockV>, b: usize) -> bool {
    exists|k: nat| k > 0 && #[trigger] hops(blocks, b, b, k)
}

proof fn lemma_hops_append(blocks: Seq<BlockV>, a: usize, b: usize, c: usize, k: nat)
    requires
        hops(blocks, a, b, k),
        hops(blocks, b, c, 1),
    ensures
        hops(blocks, a, c, k + 1),
    decreases k,
{
    if k > 0 {
        lemma_hops_append(blocks, blocks[a as int].terminator->Goto_0, b, c, (k - 1) as nat);
    }
}

pub(crate) proof fn lemma_chase_ends(
    blocks: Seq<BlockV>,
    i: int,
    visited: Set<int>,
    cur: usize,
    fuel: nat,
)
    requires
        blocks.len() <= usize::MAX,
        visited.subset_of(vstd::set_lib::set_int_range(0, blocks.len() as int)),
        fuel + visited.len() >= blocks.len(),
        forall|v: int| #[trigger]
            visited.contains(v) && v != i ==> exists|k: nat|
                k > 0 && #[trigger] hops(blocks, v as usize, cur, k),
    ensures
        ({
            let c = chase(blocks, visited, cur, fuel);
            c < blocks.len() && only_jumps(blocks[c as int]) ==> c == i || on_circle(blocks, c)
        }),
    decreases fuel,
{
    let all = vstd::set_lib::set_int_range(0, blocks.len() as int);
    vstd::set_lib::lemma_int_range(0, blocks.len() as int);
    vstd::set_lib::lemma_len_subset(visited, all);
    if cur < blocks.len() && !visited.contains(cur as int) && only_jumps(blocks[cur as int]) {
        let seen = visited.insert(cur as int);
        assert(seen.subset_of(all));
        vstd::set_lib::lemma_len_subset(seen, all);
        let next = blocks[cur as int].terminator->Goto_0;
        assert(hops(blocks, next, next, 0));
        assert(hops(blocks, cur, next, 1));
        assert forall|v: int| #[trigger] seen.contains(v) && v != i implies exists|k: nat|
            k > 0 && #[trigger] hops(blocks, v as usize, next, k) by {
            if v != cur as int {
                assert(visited.contains(v));
                let k = choose|k: nat| k > 0 && #[trigger] hops(blocks, v as usize, cur, k);
                lemma_hops_append(blocks, v as usize, cur, next, k);
                assert(hops(blocks, v as usize, next, k + 1));
            } else {
                assert(hops(blocks, v as usize, next, 1));
            }
        }
        lemma_chase_ends(blocks, i, seen, next, (fuel - 1) as nat);
    }
}

/// A chain of jumps is followed to its end at once: after one redirection a jump leads
/// to a block that does something, back to the block that it leaves, or into a circle
/// of blocks that only jump on, which has no end.
pub proof fn lemma_chain_followed(blocks: Seq<BlockV>, i: int)
    requires
        0 <= i < blocks.len() <= usize::MAX,
    ensures
        chain_one(blocks, i)[i].terminator matches TermV::Goto(c) ==> (c < blocks.len()
            && only_jumps(blocks[c as int]) ==> c == i || on_circle(blocks, c)),
{
    if let TermV::Goto(t) = blocks[i].terminator {
        let all = vstd::set_lib::set_int_range(0, blocks.len() as int);
        assert(set![i].subset_of(all));
        lemma_chase_ends(blocks, i, set![i], t, blocks.len());
    }
}

/// The entry block and blocks with phis stand for themselves alone: none is merged into
/// another block, and no block is merged into one of them.
pub proof fn lemma_kept_apart(blocks: Seq<BlockV>, t: usize)
    requires
        t < blocks.len(),
    ensures
        t == 0 || has_phi(blocks[t as int]) ==> canonical(blocks)(t) == t,
        canonical(blocks)(t) != t ==> canonical(blocks)(t) != 0 && !has_phi(
            blocks[canonical(blocks)(t) as int],
        ),
{
    lemma_first_twin_found(blocks, t as int, 1);
}

pub(crate) proof fn lemma_first_twin_found(blocks: Seq<BlockV>, j: int, i: int)
    ensures
        first_twin(blocks, j, i) matches Some(t) ==> 1 <= t < j && twins(blocks, t, j),
    decreases j - i,
{
    if 1 <= i < j {
        lemma_first_twin_found(blocks, j, i + 1);
    }
}

} // verus!
