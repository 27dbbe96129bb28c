//! Laws of the control-flow simplifier: a simplified body is left as it is.

use vstd::prelude::*;

use crate::cfg::{
    compact, edge, is_path, lemma_compact_len, lemma_rank_bounds, rank, reachable, reachable_set,
    renumbering, retarget, successors_of, targets_ok, term_in_range,
};
use crate::control::{
    absorb, armless_to_goto, canonical, cfg_ok, chain_one, chained, chase, dead_removed,
    falls_through, first_twin, has_phi, kept_block, merged, simplified, simplified_fn,
    simplify_round, simplify_rounds, switch_simplified, switches_simplified, tails_merged, twins,
    MAX_ITERATIONS,
};
use crate::control::{
    lemma_chained_ok, lemma_first_twin_before, lemma_merged_ok, lemma_retarget_range,
    lemma_round_ok, lemma_switches_ok, lemma_tails_ok,
};
use crate::control_laws::{hops, no_phis, on_circle, only_jumps};
use crate::control_laws::{
    lemma_chase_ends, lemma_chase_hops, lemma_first_twin_found, lemma_merge_origin,
    lemma_merge_sole, lemma_prune_plain, lemma_round_plain, lemma_round_shrinks,
};
use crate::mir::{BlockV, ProgramV, TermV};
use crate::simplify::unreachable_removed;

verus! {

// Walks through blocks that only jump on.

/// Whether jumps through blocks without statements lead from `a` to `b`.
spec fn leads(blocks: Seq<BlockV>, a: usize, b: usize) -> bool {
    exists|k: nat| #[trigger] hops(blocks, a, b, k)
}

/// Whether a block does nothing but jump to itself.
spec fn sink(blocks: Seq<BlockV>, z: usize) -> bool {
    &&& z < blocks.len()
    &&& blocks[z as int].stmts.len() == 0
    &&& blocks[z as int].terminator == TermV::Goto(z)
}

/// There is one way to take a number of jumps.
proof fn lemma_hops_split(blocks: Seq<BlockV>, a: usize, b: usize, c: usize, j: nat, k: nat)
    requires
        hops(blocks, a, b, j),
        hops(blocks, a, c, k),
        j <= k,
    ensures
        hops(blocks, b, c, (k - j) as nat),
    decreases j,
{
    if j > 0 {
        let x = blocks[a as int].terminator->Goto_0;
        lemma_hops_split(blocks, x, b, c, (j - 1) as nat, (k - 1) as nat);
    }
}

proof fn lemma_hops_join(blocks: Seq<BlockV>, a: usize, b: usize, c: usize, j: nat, k: nat)
    requires
        hops(blocks, a, b, j),
        hops(blocks, b, c, k),
    ensures
        hops(blocks, a, c, j + k),
    decreases j,
{
    if j > 0 {
        let x = blocks[a as int].terminator->Goto_0;
        lemma_hops_join(blocks, x, b, c, (j - 1) as nat, k);
    }
}

/// The least number of jumps from one block to another.
proof fn lemma_hops_least(blocks: Seq<BlockV>, a: usize, b: usize, k: nat) -> (p: nat)
    requires
        hops(blocks, a, b, k),
    ensures
        p <= k,
        hops(blocks, a, b, p),
        forall|q: nat| q < p ==> !#[trigger] hops(blocks, a, b, q),
    decreases k,
{
    if exists|q: nat| q < k && #[trigger] hops(blocks, a, b, q) {
        let q = choose|q: nat| q < k && #[trigger] hops(blocks, a, b, q);
        lemma_hops_least(blocks, a, b, q)
    } else {
        k
    }
}

proof fn lemma_sink_stays(blocks: Seq<BlockV>, z: usize, y: usize, k: nat)
    requires
        sink(blocks, z),
        hops(blocks, z, y, k),
    ensures
        y == z,
    decreases k,
{
    if k > 0 {
        lemma_sink_stays(blocks, z, y, (k - 1) as nat);
    }
}

/// A circle that leads to a sink is the sink.
proof fn lemma_sink_circle(blocks: Seq<BlockV>, x: usize, z: usize, k: nat, m: nat)
    requires
        sink(blocks, z),
        hops(blocks, x, z, k),
        hops(blocks, x, x, m),
        m > 0,
    ensures
        x == z,
    decreases k,
{
    if k <= m {
        lemma_hops_split(blocks, x, z, x, k, m);
        lemma_sink_stays(blocks, z, x, (m - k) as nat);
    } else {
        lemma_hops_split(blocks, x, x, z, m, k);
        lemma_sink_circle(blocks, x, z, (k - m) as nat, m);
    }
}

/// A jump that leads to a sink is redirected there.
proof fn lemma_chase_to_sink(blocks: Seq<BlockV>, x: usize, z: usize)
    requires
        x < blocks.len() <= usize::MAX,
        only_jumps(blocks[x as int]),
        x != z,
        sink(blocks, z),
        leads(blocks, x, z),
    ensures
        chase(blocks, set![x as int], blocks[x as int].terminator->Goto_0, blocks.len()) == z,
{
    let t = blocks[x as int].terminator->Goto_0;
    let k = choose|k: nat| #[trigger] hops(blocks, x, z, k);
    let y = chase(blocks, set![x as int], t, blocks.len());
    let j = lemma_chase_hops(blocks, set![x as int], t, blocks.len());
    assert(set![x as int].subset_of(vstd::set_lib::set_int_range(0, blocks.len() as int)));
    lemma_chase_ends(blocks, x as int, set![x as int], t, blocks.len());
    assert(hops(blocks, t, z, (k - 1) as nat));
    assert(hops(blocks, x, y, j + 1));
    if j <= k - 1 {
        lemma_hops_split(blocks, t, y, z, j, (k - 1) as nat);
        if y != z {
            if y == x {
                lemma_sink_circle(blocks, x, z, k, j + 1);
            } else {
                let m = choose|m: nat| m > 0 && #[trigger] hops(blocks, y, y, m);
                lemma_sink_circle(blocks, y, z, (k - 1 - j) as nat, m);
            }
        }
    } else {
        lemma_hops_split(blocks, t, z, y, (k - 1) as nat, j);
        lemma_sink_stays(blocks, z, y, (j - (k - 1)) as nat);
    }
}

/// A walk that meets a block met before ends there.
proof fn lemma_chase_visited(
    blocks: Seq<BlockV>,
    visited: Set<int>,
    cur: usize,
    j: usize,
    p: nat,
    fuel: nat,
)
    requires
        blocks.len() <= usize::MAX,
        visited.subset_of(vstd::set_lib::set_int_range(0, blocks.len() as int)),
        fuel + visited.len() >= blocks.len(),
        visited.contains(j as int),
        hops(blocks, cur, j, p),
        forall|q: nat, y: usize|
            q < p && #[trigger] hops(blocks, cur, y, q) ==> !visited.contains(y as int),
    ensures
        chase(blocks, visited, cur, fuel) == j,
    decreases p,
{
    let all = vstd::set_lib::set_int_range(0, blocks.len() as int);
    vstd::set_lib::lemma_int_range(0, blocks.len() as int);
    vstd::set_lib::lemma_len_subset(visited, all);
    if p > 0 {
        assert(hops(blocks, cur, cur, 0));
        let next = blocks[cur as int].terminator->Goto_0;
        let seen = visited.insert(cur as int);
        assert(seen.subset_of(all));
        vstd::set_lib::lemma_len_subset(seen, all);
        assert forall|q: nat, y: usize|
            q < p - 1 && #[trigger] hops(blocks, next, y, q) implies !seen.contains(y as int) by {
            assert(hops(blocks, cur, y, q + 1));
            if y == cur {
                lemma_hops_split(blocks, cur, cur, j, q + 1, p);
                assert(hops(blocks, cur, j, (p - (q + 1)) as nat));
            }
        }
        lemma_chase_visited(blocks, seen, next, j, (p - 1) as nat, (fuel - 1) as nat);
    }
}

/// A jump on a circle is redirected to its own block.
proof fn lemma_chase_circle(blocks: Seq<BlockV>, j: usize)
    requires
        blocks.len() <= usize::MAX,
        on_circle(blocks, j),
    ensures
        j < blocks.len(),
        only_jumps(blocks[j as int]),
        chase(blocks, set![j as int], blocks[j as int].terminator->Goto_0, blocks.len()) == j,
{
    let k = choose|k: nat| k > 0 && #[trigger] hops(blocks, j, j, k);
    let next = blocks[j as int].terminator->Goto_0;
    assert(hops(blocks, next, j, (k - 1) as nat));
    let p = lemma_hops_least(blocks, next, j, (k - 1) as nat);
    assert(set![j as int].subset_of(vstd::set_lib::set_int_range(0, blocks.len() as int)));
    lemma_chase_visited(blocks, set![j as int], next, j, p, blocks.len());
}

// One redirection.

proof fn lemma_sink_kept(blocks: Seq<BlockV>, j: int, z: usize)
    requires
        0 <= j < blocks.len() <= usize::MAX,
        sink(blocks, z),
    ensures
        sink(chain_one(blocks, j), z),
{
}

proof fn lemma_leads_kept(blocks: Seq<BlockV>, j: int, x: usize, z: usize, k: nat)
    requires
        0 <= j < blocks.len() <= usize::MAX,
        sink(blocks, z),
        hops(blocks, x, z, k),
    ensures
        leads(chain_one(blocks, j), x, z),
    decreases k,
{
    let r = chain_one(blocks, j);
    if x == z {
        assert(hops(r, x, z, 0));
    } else if x == j {
        lemma_chase_to_sink(blocks, x, z);
        assert(r[j].terminator == TermV::Goto(z));
        assert(hops(r, z, z, 0));
        assert(hops(r, x, z, 1));
    } else {
        let next = blocks[x as int].terminator->Goto_0;
        lemma_leads_kept(blocks, j, next, z, (k - 1) as nat);
        let m = choose|m: nat| #[trigger] hops(r, next, z, m);
        assert(r[x as int] == blocks[x as int]);
        assert(hops(r, x, z, m + 1));
    }
}

/// Jumps of the redirected body are walks of the body.
proof fn lemma_hops_back(blocks: Seq<BlockV>, j: int, x: usize, y: usize, k: nat) -> (m: nat)
    requires
        0 <= j < blocks.len() <= usize::MAX,
        hops(chain_one(blocks, j), x, y, k),
    ensures
        m >= k,
        hops(blocks, x, y, m),
    decreases k,
{
    let r = chain_one(blocks, j);
    if k == 0 {
        0
    } else {
        let next = r[x as int].terminator->Goto_0;
        let m = lemma_hops_back(blocks, j, next, y, (k - 1) as nat);
        if x == j {
            let t = blocks[j].terminator->Goto_0;
            let w = lemma_chase_hops(blocks, set![j], t, blocks.len());
            lemma_hops_join(blocks, t, next, y, w, m);
            w + m + 1
        } else {
            m + 1
        }
    }
}

/// A walk that does not leave the redirected block is kept.
proof fn lemma_hops_avoid(blocks: Seq<BlockV>, j: int, x: usize, y: usize, k: nat)
    requires
        0 <= j < blocks.len() <= usize::MAX,
        hops(blocks, x, y, k),
        forall|q: nat| q < k ==> !#[trigger] hops(blocks, x, j as usize, q),
    ensures
        hops(chain_one(blocks, j), x, y, k),
    decreases k,
{
    if k > 0 {
        assert(!hops(blocks, x, j as usize, 0));
        let next = blocks[x as int].terminator->Goto_0;
        assert forall|q: nat| q < k - 1 implies !#[trigger] hops(blocks, next, j as usize, q) by {
            assert(!hops(blocks, x, j as usize, q + 1));
        }
        lemma_hops_avoid(blocks, j, next, y, (k - 1) as nat);
    }
}

/// Redirecting one jump keeps a circle, or makes a sink of a block on it.
proof fn lemma_circle_step(blocks: Seq<BlockV>, j: int, c: usize)
    requires
        0 <= j < blocks.len() <= usize::MAX,
        on_circle(blocks, c),
    ensures
        on_circle(chain_one(blocks, j), c) || (sink(chain_one(blocks, j), j as usize) && leads(
            chain_one(blocks, j),
            c,
            j as usize,
        )),
{
    let r = chain_one(blocks, j);
    let k = choose|k: nat| k > 0 && #[trigger] hops(blocks, c, c, k);
    if leads(blocks, c, j as usize) {
        let q0 = choose|q: nat| #[trigger] hops(blocks, c, j as usize, q);
        let q = lemma_hops_least(blocks, c, j as usize, q0);
        if q >= k {
            lemma_hops_split(blocks, c, c, j as usize, k, q);
            assert(hops(blocks, c, j as usize, (q - k) as nat));
        }
        lemma_hops_split(blocks, c, j as usize, c, q, k);
        lemma_hops_join(blocks, j as usize, c, j as usize, (k - q) as nat, q);
        assert(hops(blocks, j as usize, j as usize, k));
        lemma_chase_circle(blocks, j as usize);
        assert(sink(r, j as usize));
        lemma_hops_avoid(blocks, j, c, j as usize, q);
    } else {
        lemma_hops_avoid(blocks, j, c, c, k);
    }
}

// All redirections.

/// What redirecting the first `m` jumps leaves alone.
proof fn lemma_chained_parts(blocks: Seq<BlockV>, m: int)
    requires
        0 <= m <= blocks.len(),
    ensures
        chained(blocks, m).len() == blocks.len(),
        forall|x: int|
            0 <= x < blocks.len() ==> (#[trigger] chained(blocks, m)[x]).stmts == blocks[x].stmts
                && chained(blocks, m)[x].id == blocks[x].id && (blocks[x].terminator is Goto
                <==> chained(blocks, m)[x].terminator is Goto) && (!(blocks[x].terminator is Goto)
                ==> chained(blocks, m)[x] == blocks[x]),
        forall|x: int| m <= x < blocks.len() ==> #[trigger] chained(blocks, m)[x] == blocks[x],
    decreases m,
{
    if m > 0 {
        lemma_chained_parts(blocks, m - 1);
    }
}

/// What the redirections from `m` on keep.
proof fn lemma_chained_later(blocks: Seq<BlockV>, m: int, n: int)
    requires
        0 <= m <= n <= blocks.len() <= usize::MAX,
    ensures
        forall|x: int|
            0 <= x < m ==> #[trigger] chained(blocks, n)[x] == chained(blocks, m)[x],
        forall|z: usize| #[trigger]
            sink(chained(blocks, m), z) ==> sink(chained(blocks, n), z),
    decreases n - m,
{
    if m < n {
        lemma_chained_later(blocks, m, n - 1);
        lemma_chained_parts(blocks, n - 1);
    }
}

/// Whether every block before `m` that lies on a circle jumps to itself.
spec fn settled(blocks: Seq<BlockV>, m: int) -> bool {
    forall|x: usize|
        x < m && #[trigger] on_circle(blocks, x) ==> blocks[x as int].terminator == TermV::Goto(x)
}

proof fn lemma_settled(blocks: Seq<BlockV>, m: int)
    requires
        0 <= m <= blocks.len() <= usize::MAX,
    ensures
        settled(chained(blocks, m), m),
    decreases m,
{
    if m > 0 {
        lemma_settled(blocks, m - 1);
        lemma_chained_parts(blocks, m - 1);
        let s = chained(blocks, m - 1);
        let r = chain_one(s, m - 1);
        assert forall|x: usize| x < m && #[trigger] on_circle(r, x) implies r[x as int].terminator
            == TermV::Goto(x) by {
            let k = choose|k: nat| k > 0 && #[trigger] hops(r, x, x, k);
            let q = lemma_hops_back(s, m - 1, x, x, k);
            assert(on_circle(s, x));
            if x == m - 1 {
                lemma_chase_circle(s, x);
            }
        }
    }
}

/// Whether a block lies on a circle, or leads to a sink that is neither the block nor
/// the entry.
spec fn circles(blocks: Seq<BlockV>, c: usize) -> bool {
    on_circle(blocks, c) || exists|z: usize|
        0 < z && z != c && #[trigger] sink(blocks, z) && leads(blocks, c, z)
}

/// What becomes of a circle while jumps from block `i` on, up to block `c`, are
/// redirected.
proof fn lemma_circle_fate(blocks: Seq<BlockV>, i: int, c: usize, m: int)
    requires
        0 <= i < m <= c < blocks.len() <= usize::MAX,
        on_circle(chained(blocks, i), c),
        !sink(chained(blocks, i + 1), i as usize),
    ensures
        circles(chained(blocks, m), c),
    decreases m,
{
    lemma_chained_parts(blocks, m - 1);
    let s = chained(blocks, m - 1);
    if m == i + 1 {
        lemma_circle_step(s, i, c);
    } else {
        lemma_circle_fate(blocks, i, c, m - 1);
        if on_circle(s, c) {
            lemma_circle_step(s, m - 1, c);
        } else {
            let z = choose|z: usize|
                0 < z && z != c && #[trigger] sink(s, z) && leads(s, c, z);
            let k = choose|k: nat| #[trigger] hops(s, c, z, k);
            lemma_sink_kept(s, m - 1, z);
            lemma_leads_kept(s, m - 1, c, z, k);
        }
    }
}

/// Whether no block has an earlier twin.
spec fn no_twins(blocks: Seq<BlockV>) -> bool {
    forall|j: int| 0 <= j < blocks.len() ==> (#[trigger] first_twin(blocks, j, 1)) is None
}

proof fn lemma_twin_met(blocks: Seq<BlockV>, i: int, j: int, from: int)
    requires
        1 <= from <= i < j < blocks.len(),
        no_twins(blocks),
        twins(blocks, i, j),
    ensures
        first_twin(blocks, j, from) is Some,
    decreases i - from,
{
    assert(first_twin(blocks, i, 1) is None);
    if from < i {
        lemma_twin_met(blocks, i, j, from + 1);
    }
}

/// A block that does nothing but jump to a sink is the sink, where no block has a twin.
proof fn lemma_no_shared_sink(blocks: Seq<BlockV>, c: usize, z: usize)
    requires
        no_twins(blocks),
        0 < c < blocks.len(),
        0 < z,
        sink(blocks, z),
        blocks[c as int].stmts.len() == 0,
        blocks[c as int].terminator == TermV::Goto(z),
    ensures
        c == z,
{
    if c < z {
        assert(twins(blocks, c as int, z as int));
        lemma_twin_met(blocks, c as int, z as int, 1);
    } else if z < c {
        assert(twins(blocks, z as int, c as int));
        lemma_twin_met(blocks, z as int, c as int, 1);
    }
}

/// Where a redirected jump enters a circle, the circle is one block.
proof fn lemma_circle_is_sink(blocks: Seq<BlockV>, i: int, c: usize)
    requires
        0 <= i < blocks.len() <= usize::MAX,
        c < blocks.len(),
        c != i,
        no_twins(chained(blocks, blocks.len() as int)),
        on_circle(chained(blocks, i), c),
        chained(blocks, i + 1)[i].terminator == TermV::Goto(c),
    ensures
        sink(chained(blocks, blocks.len() as int), c),
{
    let n = blocks.len() as int;
    let b = chained(blocks, n);
    lemma_chained_parts(blocks, i);
    let k0 = choose|k: nat| k > 0 && #[trigger] hops(chained(blocks, i), c, c, k);
    assert(only_jumps(chained(blocks, i)[c as int]));
    lemma_chained_parts(blocks, n);
    if c < i {
        lemma_settled(blocks, i);
        assert(sink(chained(blocks, i), c));
        lemma_chained_later(blocks, i, n);
    } else {
        lemma_circle_fate(blocks, i, c, c as int);
        lemma_chained_parts(blocks, c as int);
        let s = chained(blocks, c as int);
        let r = chained(blocks, c as int + 1);
        assert(r == chain_one(s, c as int));
        lemma_chained_later(blocks, c as int + 1, n);
        if on_circle(s, c) {
            lemma_chase_circle(s, c);
            assert(sink(r, c));
        } else {
            let z = choose|z: usize|
                0 < z && z != c && #[trigger] sink(s, z) && leads(s, c, z);
            lemma_chase_to_sink(s, c, z);
            lemma_sink_kept(s, c as int, z);
            assert(b[c as int] == r[c as int]);
            assert(r[c as int].terminator == TermV::Goto(z));
            lemma_no_shared_sink(b, c, z);
        }
    }
}

/// Redirecting jumps a second time changes nothing, where no block has a twin.
proof fn lemma_chained_again(blocks: Seq<BlockV>, k: int)
    requires
        0 <= k <= blocks.len() <= usize::MAX,
        no_twins(chained(blocks, blocks.len() as int)),
    ensures
        ({
            let b = chained(blocks, blocks.len() as int);
            chained(b, k) == b
        }),
    decreases k,
{
    let n = blocks.len() as int;
    let b = chained(blocks, n);
    if k > 0 {
        lemma_chained_again(blocks, k - 1);
        let i = k - 1;
        lemma_chained_parts(blocks, n);
        if let TermV::Goto(c) = b[i].terminator {
            lemma_chained_parts(blocks, i);
            lemma_chained_later(blocks, i + 1, n);
            let s = chained(blocks, i);
            let t = s[i].terminator->Goto_0;
            assert(b[i] == chained(blocks, i + 1)[i]);
            assert(c == chase(s, set![i], t, s.len()));
            assert(set![i].subset_of(vstd::set_lib::set_int_range(0, n)));
            lemma_chase_ends(s, i, set![i], t, s.len());
            if c < n && c != i && only_jumps(b[c as int]) {
                assert(only_jumps(s[c as int]));
                lemma_circle_is_sink(blocks, i, c);
                let seen = set![i].insert(c as int);
                assert(chase(b, seen, c, (b.len() - 1) as nat) == c);
            }
            assert(chase(b, set![i], c, b.len()) == c);
            assert(chain_one(b, i) =~= b);
        }
    }
}

// A round that removes no block.

/// A block other than the entry that is reachable has an edge into it.
proof fn lemma_edge_into(blocks: Seq<BlockV>, j: int) -> (x: int)
    requires
        reachable(blocks, j),
        j != 0,
    ensures
        edge(blocks, x, j),
{
    let p = choose|p: Seq<int>| is_path(blocks, p) && #[trigger] p.last() == j;
    assert(p.len() > 1);
    assert(edge(blocks, p[p.len() - 2], p[p.len() - 1]));
    p[p.len() - 2]
}

proof fn lemma_rank_full(keep: Seq<bool>, n: int, i: int)
    requires
        0 <= i < n <= keep.len(),
        rank(keep, n) == n,
    ensures
        keep[i],
    decreases n,
{
    lemma_rank_bounds(keep, n - 1);
    if i < n - 1 {
        lemma_rank_full(keep, n - 1, i);
    }
}

proof fn lemma_rank_all(keep: Seq<bool>, n: int)
    requires
        0 <= n <= keep.len(),
        forall|i: int| 0 <= i < keep.len() ==> #[trigger] keep[i],
    ensures
        rank(keep, n) == n,
    decreases n,
{
    if n > 0 {
        lemma_rank_all(keep, n - 1);
    }
}

proof fn lemma_compact_all<A>(s: Seq<A>, keep: Seq<bool>, n: int)
    requires
        0 <= n <= keep.len(),
        n <= s.len(),
        forall|i: int| 0 <= i < keep.len() ==> #[trigger] keep[i],
    ensures
        compact(s, keep, n) == s.subrange(0, n),
    decreases n,
{
    if n > 0 {
        lemma_compact_all(s, keep, n - 1);
        assert(s.subrange(0, n - 1).push(s[n - 1]) =~= s.subrange(0, n));
    } else {
        assert(compact(s, keep, n) =~= s.subrange(0, n));
    }
}

/// A terminator whose blocks stay where they are is unchanged.
proof fn lemma_retarget_same(t: TermV, f: spec_fn(usize) -> usize)
    requires
        forall|k: int|
            0 <= k < successors_of(t).len() ==> f(#[trigger] successors_of(t)[k])
                == successors_of(t)[k],
    ensures
        retarget(t, f) == t,
{
    match t {
        TermV::Goto(x) => {
            assert(successors_of(t)[0] == x);
        },
        TermV::If { then_block, else_block, .. } => {
            assert(successors_of(t)[0] == then_block);
            assert(successors_of(t)[1] == else_block);
        },
        TermV::Switch { targets, default, .. } => {
            assert(successors_of(t)[targets.len() as int] == default);
            assert forall|i: int| 0 <= i < targets.len() implies (
                targets[i].0,
                f(targets[i].1),
            ) == #[trigger] targets[i] by {
                assert(successors_of(t)[i] == targets[i].1);
            }
            assert(retarget(t, f)->targets =~= targets);
        },
        _ => {},
    }
}

/// Whether every switch has an arm.
pub open spec fn switches_armed(blocks: Seq<BlockV>) -> bool {
    forall|i: int|
        0 <= i < blocks.len() ==> ((#[trigger] blocks[i]).terminator matches TermV::Switch {
            targets,
            ..
        } ==> targets.len() > 0)
}

/// Removing dead blocks leaves a body alone in which every block is reachable.
proof fn lemma_dead_none(blocks: Seq<BlockV>)
    requires
        targets_ok(blocks),
        no_phis(blocks),
        switches_armed(blocks),
        blocks.len() <= usize::MAX,
        forall|i: int| 0 <= i < blocks.len() ==> #[trigger] reachable_set(blocks)[i],
    ensures
        dead_removed(blocks) == blocks,
{
    let keep = reachable_set(blocks);
    let n = blocks.len() as int;
    let all = Seq::new(blocks.len(), |i: int| kept_block(blocks[i], keep));
    lemma_compact_all(all, keep, n);
    assert forall|i: int| 0 <= i < n implies #[trigger] all[i] == blocks[i] by {
        assert(!has_phi(blocks[i]));
        lemma_prune_plain(blocks[i].stmts, keep);
        let t = blocks[i].terminator;
        assert(term_in_range(t, n));
        assert forall|k: int| 0 <= k < successors_of(t).len() implies renumbering(keep)(
            #[trigger] successors_of(t)[k],
        ) == successors_of(t)[k] by {
            lemma_rank_all(keep, successors_of(t)[k] as int);
        }
        lemma_retarget_same(t, renumbering(keep));
        assert(armless_to_goto(t) == t);
    }
    assert(all.subrange(0, n) =~= blocks);
}

proof fn lemma_first_twin_alone(blocks: Seq<BlockV>, j: int, i: int)
    ensures
        first_twin(blocks, j, i) matches Some(t) ==> first_twin(blocks, t, 1) is None,
    decreases j - i,
{
    if 1 <= i < j {
        lemma_first_twin_alone(blocks, j, i + 1);
    }
}

/// Where merging equal tails leaves every block reachable, there was nothing to merge.
proof fn lemma_tails_none(blocks: Seq<BlockV>)
    requires
        targets_ok(blocks),
        blocks.len() <= usize::MAX,
        forall|j: int| 0 <= j < blocks.len() ==> #[trigger] reachable(tails_merged(blocks), j),
    ensures
        no_twins(blocks),
        tails_merged(blocks) == blocks,
{
    let d = tails_merged(blocks);
    let f = canonical(blocks);
    let n = blocks.len() as int;
    assert forall|j: int| 0 <= j < n implies (#[trigger] first_twin(blocks, j, 1)) is None by {
        if let Some(i) = first_twin(blocks, j, 1) {
            lemma_first_twin_found(blocks, j, 1);
            assert(reachable(d, j));
            let x = lemma_edge_into(d, j);
            let t = blocks[x].terminator;
            assert(term_in_range(t, n));
            assert forall|k: int| 0 <= k < successors_of(t).len() implies f(
                #[trigger] successors_of(t)[k],
            ) < n by {
                lemma_first_twin_before(blocks, successors_of(t)[k] as int, 1);
            }
            lemma_retarget_range(t, f, n);
            let k = choose|k: int|
                0 <= k < successors_of(d[x].terminator).len() && successors_of(d[x].terminator)[k]
                    == j as usize;
            let y = successors_of(t)[k];
            assert(f(y) == j as usize);
            lemma_first_twin_alone(blocks, y as int, 1);
            lemma_first_twin_before(blocks, y as int, 1);
        }
    }
    assert forall|i: int| 0 <= i < n implies #[trigger] d[i] == blocks[i] by {
        let t = blocks[i].terminator;
        assert(term_in_range(t, n));
        assert forall|k: int| 0 <= k < successors_of(t).len() implies f(
            #[trigger] successors_of(t)[k],
        ) == successors_of(t)[k] by {
            assert(first_twin(blocks, successors_of(t)[k] as int, 1) is None);
        }
        lemma_retarget_same(t, f);
    }
    assert(d =~= blocks);
}

/// Whether no block passes control to block `s`.
spec fn stranded(blocks: Seq<BlockV>, s: int) -> bool {
    &&& 0 < s < blocks.len()
    &&& forall|x: int|
        0 <= x < blocks.len() ==> !successors_of((#[trigger] blocks[x]).terminator).contains(
            s as usize,
        )
}

/// Merging a pair strands a block.
proof fn lemma_merged_strands(blocks: Seq<BlockV>, n: int)
    requires
        0 <= n <= blocks.len() <= usize::MAX,
    ensures
        merged(blocks, n).0 == blocks || exists|s: int| #[trigger]
            stranded(merged(blocks, n).0, s),
    decreases n,
{
    if n > 0 {
        let s = n - 1;
        lemma_merged_strands(blocks, s);
        lemma_merge_origin(blocks, s);
        let b = merged(blocks, s).0;
        let touched = merged(blocks, s).1;
        if exists|p: int| falls_through(blocks, p, s) {
            let p = choose|p: int| falls_through(blocks, p, s);
            if !(touched.contains(p) || touched.contains(s)) {
                lemma_merge_sole(blocks, b, touched, p, s);
                let r = absorb(b, p, s);
                assert(stranded(r, s)) by {
                    assert forall|x: int| 0 <= x < r.len() implies !successors_of(
                        (#[trigger] r[x]).terminator,
                    ).contains(s as usize) by {
                        if x == s {
                        } else if x == p {
                            assert(!successors_of(b[s].terminator).contains(s as usize));
                        } else {
                            assert(!successors_of(b[x].terminator).contains(s as usize));
                        }
                    }
                }
            }
        }
    }
}

/// Where merging pairs leaves every block reachable, there was nothing to merge.
proof fn lemma_merged_none(blocks: Seq<BlockV>)
    requires
        blocks.len() <= usize::MAX,
        forall|j: int|
            0 <= j < blocks.len() ==> #[trigger] reachable(
                merged(blocks, blocks.len() as int).0,
                j,
            ),
        merged(blocks, blocks.len() as int).0.len() == blocks.len(),
    ensures
        merged(blocks, blocks.len() as int).0 == blocks,
{
    let c = merged(blocks, blocks.len() as int).0;
    lemma_merged_strands(blocks, blocks.len() as int);
    if c != blocks {
        let s = choose|s: int| #[trigger] stranded(c, s);
        assert(reachable(c, s));
        let x = lemma_edge_into(c, s);
    }
}

/// Simplifying trivial switches twice is simplifying them once, also after jumps were
/// redirected.
proof fn lemma_switches_again(blocks: Seq<BlockV>)
    ensures
        ({
            let a = switches_simplified(blocks);
            let b = chained(a, a.len() as int);
            switches_simplified(b) == b && switches_armed(b)
        }),
{
    let a = switches_simplified(blocks);
    let b = chained(a, a.len() as int);
    lemma_chained_parts(a, a.len() as int);
    assert forall|i: int| 0 <= i < b.len() implies switch_simplified(
        (#[trigger] b[i]).terminator,
    ) == b[i].terminator by {
        if !(b[i].terminator is Goto) {
            assert(b[i] == a[i]);
        }
    }
    assert(switches_simplified(b) =~= b);
    assert forall|i: int| 0 <= i < b.len() implies ((#[trigger] b[i]).terminator matches TermV::Switch {
        targets,
        ..
    } ==> targets.len() > 0) by {
        if b[i].terminator is Switch {
            assert(switch_simplified(b[i].terminator) == b[i].terminator);
        }
    }
}

/// A round that removes no block reaches a body that a further round leaves alone.
pub proof fn lemma_round_settles(blocks: Seq<BlockV>)
    requires
        cfg_ok(blocks),
        no_phis(blocks),
        blocks.len() <= usize::MAX,
        simplify_round(blocks).len() == blocks.len(),
    ensures
        simplify_round(simplify_round(blocks)) == simplify_round(blocks),
{
    let a = switches_simplified(blocks);
    let n = a.len() as int;
    let b = chained(a, n);
    let c = merged(b, n).0;
    let d = tails_merged(c);
    let r = dead_removed(d);
    lemma_switches_ok(blocks);
    lemma_chained_ok(a, n);
    lemma_chained_parts(a, n);
    lemma_merged_ok(b, n);
    lemma_tails_ok(c);
    let keep = reachable_set(d);
    let all = Seq::new(d.len(), |i: int| kept_block(d[i], keep));
    lemma_compact_len(all, keep, n);
    assert forall|j: int| 0 <= j < n implies #[trigger] reachable(d, j) by {
        lemma_rank_full(keep, n, j);
        assert(keep[j]);
    }
    lemma_tails_none(c);
    lemma_merged_none(b);
    assert(no_phis(b)) by {
        assert forall|i: int| 0 <= i < b.len() implies !has_phi(#[trigger] b[i]) by {
            assert(!has_phi(blocks[i]));
            assert(b[i].stmts == blocks[i].stmts);
        }
    }
    lemma_switches_again(blocks);
    assert forall|i: int| 0 <= i < b.len() implies #[trigger] reachable_set(b)[i] by {
        assert(reachable(d, i));
    }
    lemma_dead_none(b);
    lemma_chained_again(a, n);
}

/// Rounds that could remove every block of a body reach one that a further round
/// leaves alone.
proof fn lemma_rounds_settle(blocks: Seq<BlockV>, n: nat)
    requires
        cfg_ok(blocks),
        no_phis(blocks),
        blocks.len() <= n,
        blocks.len() <= usize::MAX,
    ensures
        simplify_round(simplify_rounds(blocks, n)) == simplify_rounds(blocks, n),
    decreases n,
{
    let next = simplify_round(blocks);
    lemma_round_shrinks(blocks);
    lemma_round_ok(blocks);
    lemma_round_plain(blocks);
    if next.len() == blocks.len() {
        lemma_round_settles(blocks);
    } else {
        lemma_rounds_settle(next, (n - 1) as nat);
    }
}

/// Simplifying a body twice gives what simplifying it once gives, where it has no more
/// blocks than there are rounds.
pub proof fn lemma_rounds_again(blocks: Seq<BlockV>)
    requires
        cfg_ok(blocks),
        no_phis(blocks),
        blocks.len() <= MAX_ITERATIONS,
    ensures
        ({
            let once = simplify_rounds(blocks, MAX_ITERATIONS as nat);
            simplify_rounds(once, MAX_ITERATIONS as nat) == once
        }),
{
    lemma_rounds_settle(blocks, MAX_ITERATIONS as nat);
}

/// Simplifying a program twice gives what simplifying it once gives, where no function
/// has more blocks than there are rounds.
pub proof fn lemma_simplify_again(p: ProgramV)
    requires
        forall|i: int|
            0 <= i < p.fns.len() ==> {
                &&& cfg_ok((#[trigger] p.fns[i]).body.blocks)
                &&& no_phis(p.fns[i].body.blocks)
                &&& p.fns[i].body.blocks.len() <= MAX_ITERATIONS
            },
    ensures
        simplified(simplified(p)) == simplified(p),
{
    let once = simplified(p);
    let twice = simplified(once);
    assert forall|i: int| 0 <= i < p.fns.len() implies #[trigger] twice.fns[i] == once.fns[i] by {
        lemma_rounds_again(p.fns[i].body.blocks);
        assert(once.fns[i] == simplified_fn(p.fns[i]));
        assert(twice.fns[i] == simplified_fn(once.fns[i]));
    }
    assert(twice.fns =~= once.fns);
}

/// The two removals of dead blocks, that of the control-flow simplifier and that of the
/// optimiser, agree on a body without phis and without a switch that has no arm.
pub proof fn lemma_removals_agree(blocks: Seq<BlockV>)
    requires
        targets_ok(blocks),
        no_phis(blocks),
        switches_armed(blocks),
        blocks.len() <= usize::MAX,
    ensures
        dead_removed(blocks) == unreachable_removed(blocks),
{
    let keep = reachable_set(blocks);
    if forall|i: int| 0 <= i < blocks.len() ==> #[trigger] keep[i] {
        lemma_dead_none(blocks);
    } else {
        let x = Seq::new(blocks.len(), |i: int| kept_block(blocks[i], keep));
        let y = Seq::new(
            blocks.len(),
            |i: int|
                BlockV {
                    terminator: armless_to_goto(
                        retarget(blocks[i].terminator, renumbering(keep)),
                    ),
                    ..blocks[i]
                },
        );
        assert forall|i: int| 0 <= i < blocks.len() implies #[trigger] x[i] == y[i] by {
            assert(!has_phi(blocks[i]));
            lemma_prune_plain(blocks[i].stmts, keep);
        }
        assert(x =~= y);
    }
}

} // verus!
