//! The control-flow graph of a body: successors, reachability, renumbering.

use vstd::prelude::*;

use crate::literal::Literal;
use crate::mir::{BlockV, TermV};
use crate::mir::{MirBlock, MirTerminator};

verus! {

/// The blocks that a terminator can pass control to, in the order it names them.
pub open spec fn successors_of(t: TermV) -> Seq<usize> {
    match t {
        TermV::Goto(x) => seq![x],
        TermV::If { then_block, else_block, .. } => seq![then_block, else_block],
        TermV::Switch { targets, default, .. } => Seq::new(
            targets.len(),
            |i: int| targets[i].1,
        ).push(default),
        _ => Seq::empty(),
    }
}

/// Whether control can pass directly from block `a` to block `b`.
pub open spec fn edge(blocks: Seq<BlockV>, a: int, b: int) -> bool {
    &&& 0 <= a < blocks.len()
    &&& 0 <= b < blocks.len()
    &&& successors_of(blocks[a].terminator).contains(b as usize)
}

/// Whether every block that a terminator names is below `n`.
pub open spec fn term_in_range(t: TermV, n: int) -> bool {
    forall|k: int|
        0 <= k < successors_of(t).len() ==> (#[trigger] successors_of(t)[k]) < n
}

/// Whether every block that the terminators name exists.
pub open spec fn targets_ok(blocks: Seq<BlockV>) -> bool {
    forall|a: int|
        0 <= a < blocks.len() ==> term_in_range((#[trigger] blocks[a]).terminator, blocks.len() as int)
}

/// Whether `p` is a path through the graph that starts at the entry block.
pub open spec fn is_path(blocks: Seq<BlockV>, p: Seq<int>) -> bool {
    &&& p.len() > 0
    &&& p[0] == 0
    &&& blocks.len() > 0
    &&& forall|i: int| 0 < i < p.len() ==> edge(blocks, p[i - 1], #[trigger] p[i])
}

/// Whether some path from the entry block leads to block `b`.
pub open spec fn reachable(blocks: Seq<BlockV>, b: int) -> bool {
    exists|p: Seq<int>| is_path(blocks, p) && #[trigger] p.last() == b
}

/// Whether `p` is a walk of at least one step from block `a` to block `b`.
pub open spec fn is_walk(blocks: Seq<BlockV>, p: Seq<int>, a: int, b: int) -> bool {
    &&& p.len() > 1
    &&& p[0] == a
    &&& p.last() == b
    &&& forall|i: int| 0 < i < p.len() ==> edge(blocks, p[i - 1], #[trigger] p[i])
}

/// Whether control can come to block `b` after it left block `a`.
pub open spec fn follows(blocks: Seq<BlockV>, a: int, b: int) -> bool {
    exists|p: Seq<int>| is_walk(blocks, p, a, b)
}

/// For each block, whether it is reachable.
pub open spec fn reachable_set(blocks: Seq<BlockV>) -> Seq<bool> {
    Seq::new(blocks.len(), |i: int| reachable(blocks, i))
}

/// The number of `true` entries before position `i`.
pub open spec fn rank(keep: Seq<bool>, i: int) -> int
    decreases i,
{
    if i <= 0 {
        0
    } else {
        rank(keep, i - 1) + if keep[i - 1] {
            1int
        } else {
            0
        }
    }
}

/// The entries of `s` before position `n` whose flag in `keep` is set, in order.
pub open spec fn compact<A>(s: Seq<A>, keep: Seq<bool>, n: int) -> Seq<A>
    decreases n,
{
    if n <= 0 {
        Seq::empty()
    } else if keep[n - 1] {
        compact(s, keep, n - 1).push(s[n - 1])
    } else {
        compact(s, keep, n - 1)
    }
}

/// The terminator with every block that it names replaced by its image under `f`.
pub open spec fn retarget(t: TermV, f: spec_fn(usize) -> usize) -> TermV {
    match t {
        TermV::Goto(x) => TermV::Goto(f(x)),
        TermV::If { cond, then_block, else_block } => TermV::If {
            cond,
            then_block: f(then_block),
            else_block: f(else_block),
        },
        TermV::Switch { discr, discr_ty, targets, default } => TermV::Switch {
            discr,
            discr_ty,
            targets: Seq::new(targets.len(), |i: int| (targets[i].0, f(targets[i].1))),
            default: f(default),
        },
        _ => t,
    }
}

/// The block number that a table gives.
pub open spec fn by_table(map: Seq<usize>) -> spec_fn(usize) -> usize {
    |t: usize| map[t as int]
}

/// The new number of each block when only the blocks of `keep` stay.
pub open spec fn renumbering(keep: Seq<bool>) -> spec_fn(usize) -> usize {
    |t: usize| rank(keep, t as int) as usize
}

pub proof fn lemma_rank_bounds(keep: Seq<bool>, i: int)
    requires
        0 <= i,
    ensures
        0 <= rank(keep, i) <= i,
    decreases i,
{
    if i > 0 {
        lemma_rank_bounds(keep, i - 1);
    }
}

pub proof fn lemma_rank_monotone(keep: Seq<bool>, i: int, j: int)
    requires
        0 <= i <= j,
    ensures
        rank(keep, i) <= rank(keep, j),
        i < j && keep[i] ==> rank(keep, i) < rank(keep, j),
    decreases j - i,
{
    if i < j {
        lemma_rank_monotone(keep, i, j - 1);
    }
}

pub proof fn lemma_compact_len<A>(s: Seq<A>, keep: Seq<bool>, n: int)
    requires
        0 <= n,
    ensures
        compact(s, keep, n).len() == rank(keep, n),
    decreases n,
{
    if n > 0 {
        lemma_compact_len(s, keep, n - 1);
    }
}

/// A kept entry stands at the position that `rank` gives.
pub proof fn lemma_compact_index<A>(s: Seq<A>, keep: Seq<bool>, n: int, i: int)
    requires
        0 <= i < n,
        keep[i],
    ensures
        0 <= rank(keep, i) < compact(s, keep, n).len(),
        compact(s, keep, n)[rank(keep, i)] == s[i],
    decreases n,
{
    lemma_compact_len(s, keep, n - 1);
    lemma_rank_bounds(keep, i);
    if i < n - 1 {
        lemma_compact_index(s, keep, n - 1, i);
        lemma_rank_monotone(keep, i, n - 1);
    }
}

/// Every entry that stays is a kept entry of the input.
pub proof fn lemma_compact_source<A>(s: Seq<A>, keep: Seq<bool>, n: int, j: int) -> (i: int)
    requires
        0 <= n,
        0 <= j < compact(s, keep, n).len(),
    ensures
        0 <= i < n,
        keep[i],
        rank(keep, i) == j,
        compact(s, keep, n)[j] == s[i],
    decreases n,
{
    lemma_compact_len(s, keep, n);
    if n <= 0 {
        assert(false);
        0
    } else {
        lemma_compact_len(s, keep, n - 1);
        if keep[n - 1] && j == compact(s, keep, n - 1).len() {
            n - 1
        } else {
            lemma_compact_source(s, keep, n - 1, j)
        }
    }
}

/// The number of `false` entries.
pub open spec fn unset(s: Seq<bool>) -> nat
    decreases s.len(),
{
    if s.len() == 0 {
        0
    } else {
        unset(s.drop_last()) + if s.last() {
            0nat
        } else {
            1
        }
    }
}

pub proof fn lemma_unset_update(s: Seq<bool>, i: int)
    requires
        0 <= i < s.len(),
        !s[i],
    ensures
        unset(s.update(i, true)) == unset(s) - 1,
    decreases s.len(),
{
    let u = s.update(i, true);
    if i == s.len() - 1 {
        assert(u.drop_last() =~= s.drop_last());
    } else {
        assert(u.drop_last() =~= s.drop_last().update(i, true));
        assert(u.last() == s.last());
        lemma_unset_update(s.drop_last(), i);
    }
}

/// Whether a set of blocks is closed under succession.
pub open spec fn closed_under_edges(blocks: Seq<BlockV>, set: Seq<bool>) -> bool {
    forall|a: int, b: int| #[trigger] edge(blocks, a, b) && set[a] ==> set[b]
}

/// A closed set that holds the entry block holds every reachable block.
pub proof fn lemma_path_in_closed(blocks: Seq<BlockV>, set: Seq<bool>, p: Seq<int>)
    requires
        is_path(blocks, p),
        closed_under_edges(blocks, set),
        set[0],
    ensures
        set[p.last()],
    decreases p.len(),
{
    if p.len() > 1 {
        let q = p.drop_last();
        assert(is_path(blocks, q)) by {
            assert forall|i: int| 0 < i < q.len() implies edge(blocks, q[i - 1], #[trigger] q[i]) by {
                assert(edge(blocks, p[i - 1], p[i]));
            }
        }
        lemma_path_in_closed(blocks, set, q);
        assert(edge(blocks, p[p.len() - 2], p[p.len() - 1]));
    }
}

/// A successor of a reachable block is reachable.
pub proof fn lemma_reachable_step(blocks: Seq<BlockV>, a: int, b: int)
    requires
        reachable(blocks, a),
        edge(blocks, a, b),
    ensures
        reachable(blocks, b),
{
    let p = choose|p: Seq<int>| is_path(blocks, p) && #[trigger] p.last() == a;
    let q = p.push(b);
    assert(is_path(blocks, q)) by {
        assert forall|i: int| 0 < i < q.len() implies edge(blocks, q[i - 1], #[trigger] q[i]) by {
            if i < p.len() {
                assert(edge(blocks, p[i - 1], p[i]));
            }
        }
    }
    assert(q.last() == b);
}

/// The entry block is reachable.
pub proof fn lemma_entry_reachable(blocks: Seq<BlockV>)
    requires
        blocks.len() > 0,
    ensures
        reachable(blocks, 0),
{
    let p = seq![0int];
    assert(is_path(blocks, p));
    assert(p.last() == 0);
}

/// The blocks that a block can pass control to, in the order it names them.
pub fn successors(block: &MirBlock) -> (r: Vec<usize>)
    ensures
        r@ == successors_of(block.deep_view().terminator),
{
    match &block.terminator {
        MirTerminator::Goto(t) => {
            let v = vec![*t];
            assert(v@ =~= seq![*t]);
            v
        },
        MirTerminator::If { then_block, else_block, .. } => {
            let v = vec![*then_block, *else_block];
            assert(v@ =~= seq![*then_block, *else_block]);
            v
        },
        MirTerminator::Switch { targets, default, .. } => {
            let mut v: Vec<usize> = Vec::new();
            let mut i: usize = 0;
            while i < targets.len()
                invariant
                    i <= targets.len(),
                    v.len() == i,
                    forall|j: int| 0 <= j < i ==> v@[j] == targets.deep_view()[j].1,
                decreases targets.len() - i,
            {
                v.push(targets[i].1);
                i = i + 1;
            }
            v.push(*default);
            assert(v@ =~= successors_of(block.deep_view().terminator));
            v
        },
        _ => Vec::new(),
    }
}

/// A vector of `n` copies of `false`.
pub fn all_false(n: usize) -> (r: Vec<bool>)
    ensures
        r@ == Seq::new(n as nat, |i: int| false),
{
    let mut r: Vec<bool> = Vec::new();
    let mut i: usize = 0;
    while i < n
        invariant
            i <= n,
            r.len() == i,
            forall|j: int| 0 <= j < i ==> !r@[j],
        decreases n - i,
    {
        r.push(false);
        i = i + 1;
    }
    assert(r@ =~= Seq::new(n as nat, |i: int| false));
    r
}

/// For each block, whether it is reachable from the entry block.
pub fn compute_reachable(blocks: &Vec<MirBlock>) -> (r: Vec<bool>)
    requires
        targets_ok(blocks.deep_view()),
    ensures
        r@ == reachable_set(blocks.deep_view()),
{
    let ghost bv = blocks.deep_view();
    let n = blocks.len();
    if n == 0 {
        let r: Vec<bool> = Vec::new();
        assert(r@ =~= reachable_set(bv));
        return r;
    }
    let mut mark = all_false(n);
    mark.set(0, true);
    let mut stack: Vec<usize> = vec![0];
    proof {
        lemma_entry_reachable(bv);
        assert(stack@.contains(0usize)) by {
            assert(stack@[0] == 0);
        }
    }
    while stack.len() > 0
        invariant
            bv == blocks.deep_view(),
            n == blocks.len(),
            targets_ok(bv),
            mark.len() == n,
            n > 0,
            mark@[0],
            forall|i: int| 0 <= i < n && #[trigger] mark@[i] ==> reachable(bv, i),
            forall|j: int| 0 <= j < stack.len() ==> (#[trigger] stack@[j]) < n && mark@[stack@[j] as int],
            forall|a: int, b: int| #[trigger]
                edge(bv, a, b) && mark@[a] && !stack@.contains(a as usize) ==> mark@[b],
        decreases unset(mark@), stack.len(),
    {
        let ghost stack0 = stack@;
        let ghost mark0 = mark@;
        let id = stack.pop().unwrap();
        assert(stack0.last() == id && stack0.drop_last() =~= stack@);
        assert(mark@[stack0[stack0.len() - 1] as int]);
        proof {
            assert forall|a: int, b: int| #[trigger]
                edge(bv, a, b) && mark@[a] && a != id && !stack@.contains(
                    a as usize,
                ) implies mark@[b] by {
                assert forall|j: int| 0 <= j < stack0.len() implies stack0[j] != a as usize by {
                    if j < stack@.len() {
                        assert(stack@[j] == stack0[j]);
                    }
                }
                assert(!stack0.contains(a as usize));
            }
        }
        let succs = successors(&blocks[id]);
        assert(succs@ == successors_of(bv[id as int].terminator));
        let mut k: usize = 0;
        while k < succs.len()
            invariant
                bv == blocks.deep_view(),
                n == blocks.len(),
                n == bv.len(),
                targets_ok(bv),
                mark.len() == n,
                mark@[0],
                id < n,
                mark@[id as int],
                k <= succs.len(),
                succs@ == successors_of(bv[id as int].terminator),
                forall|i: int| 0 <= i < n && #[trigger] mark@[i] ==> reachable(bv, i),
                forall|j: int|
                    0 <= j < stack.len() ==> (#[trigger] stack@[j]) < n && mark@[stack@[j] as int],
                forall|a: int, b: int| #[trigger]
                    edge(bv, a, b) && mark@[a] && a != id && !stack@.contains(a as usize)
                        ==> mark@[b],
                forall|j: int| 0 <= j < k ==> mark@[(#[trigger] succs@[j]) as int],
                unset(mark@) < unset(mark0) || (mark@ == mark0 && stack@ == stack0.drop_last()),
            decreases succs.len() - k,
        {
            let t = succs[k];
            assert(term_in_range(bv[id as int].terminator, bv.len() as int));
            if !mark[t] {
                let ghost old_mark = mark@;
                let ghost old_stack = stack@;
                proof {
                    assert(edge(bv, id as int, t as int)) by {
                        assert(succs@[k as int] == t);
                    }
                    lemma_reachable_step(bv, id as int, t as int);
                    lemma_unset_update(mark@, t as int);
                }
                mark.set(t, true);
                stack.push(t);
                proof {
                    assert forall|a: int, b: int| #[trigger]
                        edge(bv, a, b) && mark@[a] && a != id && !stack@.contains(
                            a as usize,
                        ) implies mark@[b] by {
                        assert(stack@[stack@.len() - 1] == t);
                        assert(a != t);
                        assert forall|j: int| 0 <= j < old_stack.len() implies old_stack[j]
                            != a as usize by {
                            assert(stack@[j] == old_stack[j]);
                        }
                        assert(!old_stack.contains(a as usize));
                    }
                }
            }
            k = k + 1;
        }
        proof {
            assert forall|a: int, b: int| #[trigger]
                edge(bv, a, b) && mark@[a] && !stack@.contains(a as usize) implies mark@[b] by {
                if a == id {
                    let i = choose|i: int|
                        0 <= i < succs@.len() && succs@[i] == b as usize;
                    assert(mark@[succs@[i] as int]);
                }
            }
        }
    }
    proof {
        assert(closed_under_edges(bv, mark@));
        assert forall|i: int| 0 <= i < n implies mark@[i] == reachable(bv, i) by {
            if reachable(bv, i) {
                let p = choose|p: Seq<int>| is_path(bv, p) && #[trigger] p.last() == i;
                lemma_path_in_closed(bv, mark@, p);
            }
        }
        assert(mark@ =~= reachable_set(bv));
    }
    mark
}

/// What a block passes control to, after it left `a`, follows `a` too.
proof fn lemma_follows_step(blocks: Seq<BlockV>, a: int, b: int, c: int)
    requires
        b == a || follows(blocks, a, b),
        edge(blocks, b, c),
    ensures
        follows(blocks, a, c),
{
    if follows(blocks, a, b) {
        let p = choose|p: Seq<int>| is_walk(blocks, p, a, b);
        let q = p.push(c);
        assert forall|i: int| 0 < i < q.len() implies edge(blocks, q[i - 1], #[trigger] q[i]) by {
            if i < p.len() {
                assert(edge(blocks, p[i - 1], p[i]));
            }
        }
        assert(is_walk(blocks, q, a, c));
    } else {
        let q = seq![a, c];
        assert(edge(blocks, q[0], q[1]));
        assert(is_walk(blocks, q, a, c));
    }
}

/// A closed set that holds the successors of a block holds all that follows the block.
proof fn lemma_walk_in_closed(blocks: Seq<BlockV>, set: Seq<bool>, p: Seq<int>, a: int, b: int)
    requires
        is_walk(blocks, p, a, b),
        closed_under_edges(blocks, set),
        forall|c: int| #[trigger] edge(blocks, a, c) ==> set[c],
    ensures
        set[b],
    decreases p.len(),
{
    assert(edge(blocks, p[p.len() - 2], p[p.len() - 1]));
    if p.len() > 2 {
        let q = p.drop_last();
        assert forall|i: int| 0 < i < q.len() implies edge(blocks, q[i - 1], #[trigger] q[i]) by {
            assert(edge(blocks, p[i - 1], p[i]));
        }
        lemma_walk_in_closed(blocks, set, q, a, q.last());
    }
}

/// Marks the blocks that a block passes control to; tells whether one was new.
fn mark_successors(blocks: &Vec<MirBlock>, from: usize, mark: &mut Vec<bool>) -> (r: bool)
    requires
        from < blocks.len(),
        old(mark).len() == blocks.len(),
    ensures
        final(mark).len() == blocks.len(),
        forall|i: int|
            0 <= i < blocks.len() ==> (#[trigger] final(mark)@[i] <==> old(mark)@[i] || edge(
                blocks.deep_view(),
                from as int,
                i,
            )),
        if r {
            unset(final(mark)@) < unset(old(mark)@)
        } else {
            final(mark)@ == old(mark)@
        },
{
    let ghost bv = blocks.deep_view();
    let n = blocks.len();
    let ghost mark0 = mark@;
    let succs = successors(&blocks[from]);
    assert(succs@ == successors_of(bv[from as int].terminator));
    let mut changed = false;
    let mut k: usize = 0;
    while k < succs.len()
        invariant
            k <= succs.len(),
            mark.len() == n,
            n == blocks.len(),
            n == bv.len(),
            from < n,
            mark0.len() == n,
            succs@ == successors_of(bv[from as int].terminator),
            forall|i: int| 0 <= i < n && mark0[i] ==> #[trigger] mark@[i],
            forall|i: int| 0 <= i < n && #[trigger] mark@[i] ==> mark0[i] || edge(bv, from as int, i),
            forall|j: int| 0 <= j < k && #[trigger] succs@[j] < n ==> mark@[succs@[j] as int],
            if changed {
                unset(mark@) < unset(mark0)
            } else {
                mark@ == mark0
            },
        decreases succs.len() - k,
    {
        let t = succs[k];
        if t < n && !mark[t] {
            proof {
                assert(succs@[k as int] == t);
                assert(edge(bv, from as int, t as int));
                lemma_unset_update(mark@, t as int);
            }
            mark.set(t, true);
            changed = true;
        }
        k = k + 1;
    }
    proof {
        assert forall|i: int| 0 <= i < n && edge(bv, from as int, i) implies #[trigger] mark@[i] by {
            let j = choose|j: int| 0 <= j < succs@.len() && succs@[j] == i as usize;
            assert(mark@[succs@[j] as int]);
        }
    }
    changed
}

/// For each block, whether control can come to it after it left block `from`.
pub fn blocks_after(blocks: &Vec<MirBlock>, from: usize) -> (r: Vec<bool>)
    requires
        from < blocks.len(),
    ensures
        r.len() == blocks.len(),
        forall|i: int|
            0 <= i < blocks.len() ==> #[trigger] r@[i] == follows(
                blocks.deep_view(),
                from as int,
                i,
            ),
{
    let ghost bv = blocks.deep_view();
    let n = blocks.len();
    let mut mark = all_false(n);
    mark_successors(blocks, from, &mut mark);
    proof {
        assert forall|i: int| 0 <= i < n && #[trigger] mark@[i] implies follows(
            bv,
            from as int,
            i,
        ) by {
            lemma_follows_step(bv, from as int, from as int, i);
        }
    }
    let mut changed = true;
    while changed
        invariant
            bv == blocks.deep_view(),
            n == blocks.len(),
            from < n,
            mark.len() == n,
            forall|i: int| 0 <= i < n && #[trigger] mark@[i] ==> follows(bv, from as int, i),
            forall|c: int| #[trigger] edge(bv, from as int, c) ==> mark@[c],
            !changed ==> closed_under_edges(bv, mark@),
        decreases unset(mark@) + (if changed { 1int } else { 0int }),
    {
        changed = false;
        let ghost mark0 = mark@;
        let mut b: usize = 0;
        while b < n
            invariant
                b <= n,
                bv == blocks.deep_view(),
                n == blocks.len(),
                from < n,
                mark.len() == n,
                forall|i: int| 0 <= i < n && #[trigger] mark@[i] ==> follows(bv, from as int, i),
                forall|c: int| #[trigger] edge(bv, from as int, c) ==> mark@[c],
                if changed {
                    unset(mark@) < unset(mark0)
                } else {
                    &&& mark@ == mark0
                    &&& forall|a: int, c: int|
                        a < b && #[trigger] edge(bv, a, c) && mark@[a] ==> mark@[c]
                },
            decreases n - b,
        {
            if mark[b] {
                let ghost mark1 = mark@;
                let new = mark_successors(blocks, b, &mut mark);
                proof {
                    assert forall|i: int| 0 <= i < n && #[trigger] mark@[i] implies follows(
                        bv,
                        from as int,
                        i,
                    ) by {
                        if !mark1[i] {
                            assert(mark1[b as int]);
                            lemma_follows_step(bv, from as int, b as int, i);
                        }
                    }
                }
                if new {
                    changed = true;
                }
            }
            b = b + 1;
        }
    }
    proof {
        assert forall|i: int| 0 <= i < n implies #[trigger] mark@[i] == follows(
            bv,
            from as int,
            i,
        ) by {
            if follows(bv, from as int, i) {
                let p = choose|p: Seq<int>| is_walk(bv, p, from as int, i);
                lemma_walk_in_closed(bv, mark@, p, from as int, i);
            }
        }
    }
    mark
}

/// For each position, the number of `true` entries before it.
pub fn ranks(keep: &Vec<bool>) -> (r: Vec<usize>)
    ensures
        r.len() == keep.len(),
        forall|i: int| 0 <= i < keep.len() ==> #[trigger] r@[i] == rank(keep@, i),
{
    let mut r: Vec<usize> = Vec::new();
    let mut count: usize = 0;
    let mut i: usize = 0;
    while i < keep.len()
        invariant
            i <= keep.len(),
            r.len() == i,
            count == rank(keep@, i as int),
            count <= i,
            forall|j: int| 0 <= j < i ==> #[trigger] r@[j] == rank(keep@, j),
        decreases keep.len() - i,
    {
        r.push(count);
        if keep[i] {
            count = count + 1;
        }
        i = i + 1;
    }
    r
}

/// The terminator with every block that it names replaced by its entry in `map`.
pub fn retarget_by(t: &MirTerminator, map: &Vec<usize>) -> (r: MirTerminator)
    requires
        term_in_range(t.deep_view(), map.len() as int),
    ensures
        r.deep_view() == retarget(t.deep_view(), by_table(map@)),
{
    let ghost succs = successors_of(t.deep_view());
    match t {
        MirTerminator::Goto(x) => {
            assert(succs[0] == x);
            MirTerminator::Goto(map[*x])
        },
        MirTerminator::If { cond, then_block, else_block } => {
            assert(succs[0] == then_block && succs[1] == else_block);
            MirTerminator::If {
                cond: cond.clone(),
                then_block: map[*then_block],
                else_block: map[*else_block],
            }
        },
        MirTerminator::Switch { discr, discr_ty, targets, default } => {
            assert(succs[targets.deep_view().len() as int] == default);
            let mut v: Vec<(Literal, usize)> = Vec::new();
            let mut i: usize = 0;
            while i < targets.len()
                invariant
                    i <= targets.len(),
                    v.len() == i,
                    succs == successors_of(t.deep_view()),
                    t.deep_view() == (TermV::Switch {
                        discr: discr.deep_view(),
                        discr_ty: discr_ty.deep_view(),
                        targets: targets.deep_view(),
                        default: *default,
                    }),
                    forall|k: int| 0 <= k < succs.len() ==> (#[trigger] succs[k]) < map.len(),
                    forall|j: int|
                        0 <= j < i ==> (#[trigger] v@[j]).deep_view() == (
                            targets.deep_view()[j].0,
                            map@[targets.deep_view()[j].1 as int],
                        ),
                decreases targets.len() - i,
            {
                assert(succs[i as int] == targets.deep_view()[i as int].1);
                v.push((targets[i].0.clone(), map[targets[i].1]));
                i = i + 1;
            }
            let r = MirTerminator::Switch {
                discr: discr.clone(),
                discr_ty: discr_ty.clone(),
                targets: v,
                default: map[*default],
            };
            assert(v.deep_view() =~= retarget(t.deep_view(), by_table(map@))->targets);
            r
        },
        _ => t.clone(),
    }
}

} // verus!
