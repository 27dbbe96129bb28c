//! Backward liveness of variables, to the precision of single statements.

use vstd::prelude::*;

use crate::cfg::successors;
use crate::cfg::{edge, successors_of};
use crate::idset::IdSet;
use crate::idset::base_ids;
use crate::mir::{BlockV, OperandV, PlaceV, RvalueV, SsaLocal, StmtV, TermV};
use crate::mir::{MirBlock, MirPlace, MirStmt, MirTerminator};
use crate::table::KeySet;
use crate::uses::{blocks_locals, operand_locals, operands_locals, place_locals};
use crate::uses::{collect_used_vars, collect_used_vars_in_terminator};
use crate::uses::{rvalue_locals, rvalue_operands, stmt_locals, stmts_locals, term_locals};

verus! {

/// The variables that a statement reads.
pub open spec fn uses_of(s: StmtV) -> Set<usize> {
    base_ids(stmt_locals(s))
}

/// The variables that a terminator reads.
pub open spec fn term_uses_of(t: TermV) -> Set<usize> {
    base_ids(term_locals(t))
}

/// The variable that a statement gives a new value as a whole, if there is one.
pub open spec fn defines(s: StmtV) -> Option<usize> {
    match s {
        StmtV::Assign { dest: PlaceV::Ssa(d), .. } => Some(d.base_id),
        _ => None,
    }
}

/// The variables live before a statement, of those live after it.
pub open spec fn live_before(s: StmtV, after: Set<usize>) -> Set<usize> {
    (match defines(s) {
        Some(d) => after.remove(d),
        None => after,
    }).union(uses_of(s))
}

/// The variables live before statement `j`, of those live after the last one.
pub open spec fn live_from(stmts: Seq<StmtV>, j: int, end: Set<usize>) -> Set<usize>
    decreases stmts.len() - j,
{
    if j >= stmts.len() {
        end
    } else {
        live_before(stmts[j], live_from(stmts, j + 1, end))
    }
}

/// The variables live after the statements of a block, of those live when it is
/// left.
pub open spec fn live_at_end(b: BlockV, out: Set<usize>) -> Set<usize> {
    out.union(term_uses_of(b.terminator))
}

/// The variables live when a block is entered, of those live when it is left.
pub open spec fn live_in(b: BlockV, out: Set<usize>) -> Set<usize> {
    live_from(b.stmts, 0, live_at_end(b, out))
}

/// The variables that are read on some way on from the end of block `b`, through
/// at most `k` blocks, before they get a new value.
pub open spec fn live_within(blocks: Seq<BlockV>, b: int, k: nat) -> Set<usize>
    decreases k,
{
    if k == 0 {
        Set::empty()
    } else {
        Set::new(
            |x: usize|
                exists|s: int| #[trigger]
                    edge(blocks, b, s) && live_in(
                        blocks[s],
                        live_within(blocks, s, (k - 1) as nat),
                    ).contains(x),
        )
    }
}

/// The variables that are read on some way on from the end of block `b` before
/// they get a new value.
pub open spec fn live_out(blocks: Seq<BlockV>, b: int) -> Set<usize> {
    Set::new(|x: usize| exists|k: nat| #[trigger] live_within(blocks, b, k).contains(x))
}

/// The variables live after statement `j` of block `b`.
pub open spec fn live_after(blocks: Seq<BlockV>, b: int, j: int) -> Set<usize> {
    live_from(blocks[b].stmts, j + 1, live_at_end(blocks[b], live_out(blocks, b)))
}

/// Whether `x` is live before the statements depends, of what is live after
/// them, on `x` alone.
proof fn lemma_live_from_pointwise(
    stmts: Seq<StmtV>,
    j: int,
    e1: Set<usize>,
    e2: Set<usize>,
    x: usize,
)
    requires
        e1.contains(x) ==> e2.contains(x),
        live_from(stmts, j, e1).contains(x),
    ensures
        live_from(stmts, j, e2).contains(x),
    decreases stmts.len() - j,
{
    if j < stmts.len() {
        if live_from(stmts, j + 1, e1).contains(x) {
            lemma_live_from_pointwise(stmts, j + 1, e1, e2, x);
        }
    }
}

/// What is live when a block is entered only grows with what is live when it is
/// left.
proof fn lemma_live_in_monotone(b: BlockV, o1: Set<usize>, o2: Set<usize>, x: usize)
    requires
        o1.contains(x) ==> o2.contains(x),
        live_in(b, o1).contains(x),
    ensures
        live_in(b, o2).contains(x),
{
    lemma_live_from_pointwise(b.stmts, 0, live_at_end(b, o1), live_at_end(b, o2), x);
}

/// The live sets at the ends of blocks satisfy the liveness equation: what is
/// live when `b` is left is what is live when a successor is entered.
pub proof fn lemma_live_out_equation(blocks: Seq<BlockV>, b: int, x: usize)
    ensures
        live_out(blocks, b).contains(x) <==> exists|s: int| #[trigger]
            edge(blocks, b, s) && live_in(blocks[s], live_out(blocks, s)).contains(x),
{
    if live_out(blocks, b).contains(x) {
        let k = choose|k: nat| #[trigger] live_within(blocks, b, k).contains(x);
        let s = choose|s: int| #[trigger]
            edge(blocks, b, s) && live_in(
                blocks[s],
                live_within(blocks, s, (k - 1) as nat),
            ).contains(x);
        lemma_live_in_monotone(
            blocks[s],
            live_within(blocks, s, (k - 1) as nat),
            live_out(blocks, s),
            x,
        );
    }
    if exists|s: int| #[trigger]
        edge(blocks, b, s) && live_in(blocks[s], live_out(blocks, s)).contains(x) {
        let s = choose|s: int| #[trigger]
            edge(blocks, b, s) && live_in(blocks[s], live_out(blocks, s)).contains(x);
        let k: nat = if live_out(blocks, s).contains(x) {
            choose|k: nat| #[trigger] live_within(blocks, s, k).contains(x)
        } else {
            0
        };
        lemma_live_in_monotone(blocks[s], live_out(blocks, s), live_within(blocks, s, k), x);
        assert(live_within(blocks, b, k + 1).contains(x));
    }
}

/// The live sets are the least solution of the liveness equation: they are inside
/// every family of sets that is closed under it.
pub proof fn lemma_live_out_least(
    blocks: Seq<BlockV>,
    sets: Seq<Set<usize>>,
    b: int,
    k: nat,
    x: usize,
)
    requires
        sets.len() == blocks.len(),
        forall|p: int, s: int, y: usize| #[trigger]
            edge(blocks, p, s) && #[trigger] live_in(blocks[s], sets[s]).contains(y)
                ==> sets[p].contains(y),
        0 <= b < blocks.len(),
        live_within(blocks, b, k).contains(x),
    ensures
        sets[b].contains(x),
    decreases k,
{
    let s = choose|s: int| #[trigger]
        edge(blocks, b, s) && live_in(
            blocks[s],
            live_within(blocks, s, (k - 1) as nat),
        ).contains(x);
    if live_within(blocks, s, (k - 1) as nat).contains(x) {
        lemma_live_out_least(blocks, sets, s, (k - 1) as nat, x);
    }
    lemma_live_in_monotone(blocks[s], live_within(blocks, s, (k - 1) as nat), sets[s], x);
}

proof fn lemma_place_locals_finite(p: PlaceV)
    ensures
        place_locals(p).finite(),
    decreases p,
{
    match p {
        PlaceV::Ssa(_) => {},
        PlaceV::Field { base, .. } => lemma_place_locals_finite(*base),
        PlaceV::Index { base, index } => {
            lemma_place_locals_finite(*base);
            lemma_operand_locals_finite(*index);
        },
        PlaceV::Deref(base) => lemma_place_locals_finite(*base),
        PlaceV::EnumPayload { base, .. } => lemma_place_locals_finite(*base),
    }
}

proof fn lemma_operand_locals_finite(o: OperandV)
    ensures
        operand_locals(o).finite(),
    decreases o,
{
    match o {
        OperandV::Copy(p) | OperandV::Move(p) => lemma_place_locals_finite(p),
        _ => {},
    }
}

proof fn lemma_operands_locals_finite(ops: Seq<OperandV>)
    ensures
        operands_locals(ops).finite(),
    decreases ops.len(),
{
    if ops.len() > 0 {
        lemma_operands_locals_finite(ops.drop_last());
        lemma_operand_locals_finite(ops.last());
    }
}

proof fn lemma_rvalue_locals_finite(rv: RvalueV)
    ensures
        rvalue_locals(rv).finite(),
{
    match rv {
        RvalueV::Ref { place, .. } => lemma_place_locals_finite(place),
        _ => lemma_operands_locals_finite(rvalue_operands(rv)),
    }
}

proof fn lemma_stmt_locals_finite(s: StmtV)
    ensures
        stmt_locals(s).finite(),
{
    match s {
        StmtV::Assign { dest, value } => {
            lemma_rvalue_locals_finite(value);
            lemma_place_locals_finite(dest);
        },
        StmtV::ExprStmt(value) => lemma_rvalue_locals_finite(value),
        StmtV::Drop { place } => lemma_place_locals_finite(place),
        StmtV::SetMetadata { place, .. } => lemma_place_locals_finite(place),
        StmtV::EffectCheck { .. } => {},
    }
}

proof fn lemma_stmts_locals(stmts: Seq<StmtV>, n: int)
    requires
        0 <= n <= stmts.len(),
    ensures
        stmts_locals(stmts, n).finite(),
        forall|j: int| 0 <= j < n ==> (#[trigger] stmt_locals(stmts[j])).subset_of(
            stmts_locals(stmts, n),
        ),
    decreases n,
{
    if n > 0 {
        lemma_stmts_locals(stmts, n - 1);
        lemma_stmt_locals_finite(stmts[n - 1]);
        assert forall|j: int| 0 <= j < n implies (#[trigger] stmt_locals(stmts[j])).subset_of(
            stmts_locals(stmts, n),
        ) by {
            if j < n - 1 {
                assert(stmt_locals(stmts[j]).subset_of(stmts_locals(stmts, n - 1)));
            }
        }
    }
}

/// Every variable that is read in some block is among those of all blocks.
proof fn lemma_blocks_locals(blocks: Seq<BlockV>, n: int)
    requires
        0 <= n <= blocks.len(),
    ensures
        blocks_locals(blocks, n).finite(),
        forall|b: int, j: int|
            0 <= b < n && 0 <= j < blocks[b].stmts.len() ==> (#[trigger] stmt_locals(
                blocks[b].stmts[j],
            )).subset_of(blocks_locals(blocks, n)),
        forall|b: int|
            0 <= b < n ==> (#[trigger] term_locals(blocks[b].terminator)).subset_of(
                blocks_locals(blocks, n),
            ),
    decreases n,
{
    if n > 0 {
        lemma_blocks_locals(blocks, n - 1);
        let last = blocks[n - 1];
        lemma_stmts_locals(last.stmts, last.stmts.len() as int);
        match last.terminator {
            TermV::If { cond, .. } => lemma_operand_locals_finite(cond),
            TermV::Switch { discr, .. } => lemma_operand_locals_finite(discr),
            TermV::Return(Some(o)) => lemma_operand_locals_finite(o),
            _ => {},
        }
        assert forall|b: int, j: int|
            0 <= b < n && 0 <= j < blocks[b].stmts.len() implies (#[trigger] stmt_locals(
            blocks[b].stmts[j],
        )).subset_of(blocks_locals(blocks, n)) by {
            if b < n - 1 {
                assert(stmt_locals(blocks[b].stmts[j]).subset_of(blocks_locals(blocks, n - 1)));
            }
        }
        assert forall|b: int| 0 <= b < n implies (#[trigger] term_locals(
            blocks[b].terminator,
        )).subset_of(blocks_locals(blocks, n)) by {
            if b < n - 1 {
                assert(term_locals(blocks[b].terminator).subset_of(blocks_locals(blocks, n - 1)));
            }
        }
    }
}

/// The variables that are read anywhere.
pub open spec fn all_uses(blocks: Seq<BlockV>) -> Set<usize> {
    base_ids(blocks_locals(blocks, blocks.len() as int))
}

proof fn lemma_base_ids_subset(a: Set<SsaLocal>, b: Set<SsaLocal>, x: usize)
    requires
        a.subset_of(b),
        base_ids(a).contains(x),
    ensures
        base_ids(b).contains(x),
{
    let f = |l: SsaLocal| l.base_id;
    let l = choose|l: SsaLocal| a.contains(l) && f(l) == x;
    assert(b.contains(l) && f(l) == x);
}

proof fn lemma_all_uses_finite(blocks: Seq<BlockV>)
    ensures
        all_uses(blocks).finite(),
{
    lemma_blocks_locals(blocks, blocks.len() as int);
    blocks_locals(blocks, blocks.len() as int).lemma_map_finite(|l: SsaLocal| l.base_id);
}

proof fn lemma_live_from_uses(blocks: Seq<BlockV>, b: int, j: int, end: Set<usize>, x: usize)
    requires
        0 <= b < blocks.len(),
        0 <= j <= blocks[b].stmts.len(),
        end.contains(x) ==> all_uses(blocks).contains(x),
        live_from(blocks[b].stmts, j, end).contains(x),
    ensures
        all_uses(blocks).contains(x),
    decreases blocks[b].stmts.len() - j,
{
    let stmts = blocks[b].stmts;
    if j < stmts.len() {
        if live_from(stmts, j + 1, end).contains(x) {
            lemma_live_from_uses(blocks, b, j + 1, end, x);
        } else {
            lemma_blocks_locals(blocks, blocks.len() as int);
            assert(stmt_locals(blocks[b].stmts[j]).subset_of(
                blocks_locals(blocks, blocks.len() as int),
            ));
            lemma_base_ids_subset(
                stmt_locals(stmts[j]),
                blocks_locals(blocks, blocks.len() as int),
                x,
            );
        }
    }
}

/// Only variables that are read somewhere are ever live.
proof fn lemma_live_in_uses(blocks: Seq<BlockV>, b: int, out: Set<usize>, x: usize)
    requires
        0 <= b < blocks.len(),
        out.contains(x) ==> all_uses(blocks).contains(x),
        live_in(blocks[b], out).contains(x),
    ensures
        all_uses(blocks).contains(x),
{
    let end = live_at_end(blocks[b], out);
    if end.contains(x) && !out.contains(x) {
        lemma_blocks_locals(blocks, blocks.len() as int);
        assert(term_locals(blocks[b].terminator).subset_of(
            blocks_locals(blocks, blocks.len() as int),
        ));
        lemma_base_ids_subset(
            term_locals(blocks[b].terminator),
            blocks_locals(blocks, blocks.len() as int),
            x,
        );
    }
    lemma_live_from_uses(blocks, b, 0, end, x);
}

/// The variables that a statement reads.
pub fn stmt_uses(stmt: &MirStmt) -> (r: IdSet)
    ensures
        r@ == uses_of(stmt.deep_view()),
{
    let mut used: KeySet<SsaLocal> = KeySet::new();
    collect_used_vars(stmt, &mut used);
    assert(used.deep_view() =~= stmt_locals(stmt.deep_view()));
    IdSet::from_locals(&used)
}

/// The variables that a terminator reads.
pub fn term_uses(term: &MirTerminator) -> (r: IdSet)
    ensures
        r@ == term_uses_of(term.deep_view()),
{
    let mut used: KeySet<SsaLocal> = KeySet::new();
    collect_used_vars_in_terminator(term, &mut used);
    assert(used.deep_view() =~= term_locals(term.deep_view()));
    IdSet::from_locals(&used)
}

/// The variable that a statement gives a new value as a whole.
pub fn stmt_def(stmt: &MirStmt) -> (r: Option<usize>)
    ensures
        r == defines(stmt.deep_view()),
{
    match stmt {
        MirStmt::Assign { dest: MirPlace::Ssa(s), .. } => Some(s.base_id),
        _ => None,
    }
}

/// For each block, the blocks that can pass control to it.
pub fn compute_preds(blocks: &Vec<MirBlock>) -> (r: Vec<Vec<usize>>)
    ensures
        r.len() == blocks.len(),
        forall|s: int, p: int|
            0 <= s < blocks.len() && 0 <= p < blocks.len() ==> (#[trigger] r@[s]@.contains(
                p as usize,
            ) <==> edge(blocks.deep_view(), p, s)),
        forall|s: int, i: int|
            0 <= s < r.len() && 0 <= i < r@[s].len() ==> (#[trigger] r@[s]@[i]) < blocks.len(),
{
    let ghost bv = blocks.deep_view();
    let n = blocks.len();
    let mut preds: Vec<Vec<usize>> = Vec::new();
    let mut i: usize = 0;
    while i < n
        invariant
            i <= n,
            preds.len() == i,
            forall|s: int| 0 <= s < i ==> (#[trigger] preds@[s])@ == Seq::<usize>::empty(),
        decreases n - i,
    {
        preds.push(Vec::new());
        i = i + 1;
    }
    let mut src: usize = 0;
    while src < n
        invariant
            src <= n,
            n == blocks.len(),
            bv == blocks.deep_view(),
            preds.len() == n,
            forall|s: int, p: int|
                0 <= s < n && 0 <= p < n ==> (#[trigger] preds@[s]@.contains(p as usize) <==> p < src
                    && edge(bv, p, s)),
            forall|s: int, i: int|
                0 <= s < n && 0 <= i < preds@[s].len() ==> (#[trigger] preds@[s]@[i]) < n,
        decreases n - src,
    {
        let succs = successors(&blocks[src]);
        assert(succs@ == successors_of(bv[src as int].terminator));
        let mut k: usize = 0;
        while k < succs.len()
            invariant
                k <= succs.len(),
                src < n,
                n == blocks.len(),
                n == bv.len(),
                succs@ == successors_of(bv[src as int].terminator),
                preds.len() == n,
                forall|s: int, p: int|
                    0 <= s < n && 0 <= p < n ==> (#[trigger] preds@[s]@.contains(p as usize) <==> (p
                        < src && edge(bv, p, s)) || (p == src && succs@.take(k as int).contains(
                        s as usize,
                    ))),
                forall|s: int, i: int|
                    0 <= s < n && 0 <= i < preds@[s].len() ==> (#[trigger] preds@[s]@[i]) < n,
            decreases succs.len() - k,
        {
            let t = succs[k];
            let ghost preds0 = preds@;
            let ghost before = succs@.take(k as int);
            let ghost after = succs@.take(k + 1);
            assert(after =~= before.push(t));
            if t < n {
                preds[t].push(src);
            }
            proof {
                assert forall|s: int, p: int| 0 <= s < n && 0 <= p < n implies (
                #[trigger] preds@[s]@.contains(p as usize) <==> (p < src && edge(bv, p, s)) || (p
                    == src && after.contains(s as usize))) by {
                    let x = p as usize;
                    assert(preds0[s]@.contains(x) <==> (p < src && edge(bv, p, s)) || (p == src
                        && before.contains(s as usize)));
                    assert(after.contains(s as usize) <==> before.contains(s as usize) || s == t) by {
                        if before.contains(s as usize) {
                            let i = choose|i: int|
                                0 <= i < before.len() && before[i] == s as usize;
                            assert(after[i] == s as usize);
                        }
                        if s == t {
                            assert(after[k as int] == s as usize);
                        }
                    }
                    if s == t {
                        assert(preds@[s]@ == preds0[s]@.push(src));
                        assert(preds@[s]@.contains(x) <==> preds0[s]@.contains(x) || x == src) by {
                            if preds0[s]@.contains(x) {
                                let i = choose|i: int|
                                    0 <= i < preds0[s]@.len() && preds0[s]@[i] == x;
                                assert(preds@[s]@[i] == x);
                            }
                            if x == src {
                                assert(preds@[s]@[preds0[s]@.len() as int] == x);
                            }
                        }
                    }
                }
            }
            k = k + 1;
        }
        assert(succs@.take(k as int) =~= succs@);
        src = src + 1;
    }
    preds
}

/// The total size of the sets.
pub open spec fn total_size(sets: Seq<Set<usize>>) -> nat
    decreases sets.len(),
{
    if sets.len() == 0 {
        0
    } else {
        total_size(sets.drop_last()) + sets.last().len()
    }
}

proof fn lemma_total_size_bound(sets: Seq<Set<usize>>, universe: Set<usize>)
    requires
        universe.finite(),
        forall|i: int| 0 <= i < sets.len() ==> (#[trigger] sets[i]).subset_of(universe),
    ensures
        total_size(sets) <= sets.len() * universe.len(),
    decreases sets.len(),
{
    if sets.len() > 0 {
        assert forall|i: int| 0 <= i < sets.drop_last().len() implies (
        #[trigger] sets.drop_last()[i]).subset_of(universe) by {
            assert(sets[i].subset_of(universe));
        }
        lemma_total_size_bound(sets.drop_last(), universe);
        assert(sets[sets.len() - 1].subset_of(universe));
        vstd::set_lib::lemma_len_subset(sets.last(), universe);
        assert((sets.len() - 1) * universe.len() + universe.len() == sets.len() * universe.len())
            by (nonlinear_arith);
    }
}

pub proof fn lemma_total_size_update(sets: Seq<Set<usize>>, i: int, s: Set<usize>)
    requires
        0 <= i < sets.len(),
        s.finite(),
        sets[i].subset_of(s),
        sets[i] != s,
    ensures
        total_size(sets.update(i, s)) > total_size(sets),
    decreases sets.len(),
{
    let u = sets.update(i, s);
    if i == sets.len() - 1 {
        assert(u.drop_last() =~= sets.drop_last());
        vstd::set_lib::lemma_len_subset(sets[i], s);
        if sets[i].len() == s.len() {
            vstd::set_lib::lemma_subset_equality(sets[i], s);
        }
    } else {
        assert(u.drop_last() =~= sets.drop_last().update(i, s));
        assert(u.last() == sets.last());
        lemma_total_size_update(sets.drop_last(), i, s);
    }
}

/// The sets of a vector.
pub open spec fn set_views(v: Seq<IdSet>) -> Seq<Set<usize>> {
    Seq::new(v.len(), |i: int| v[i]@)
}

/// What is live after each statement of a block, and when it is entered, of what
/// is live when it is left.
fn scan_block(block: &MirBlock, out: &IdSet) -> (r: (Vec<IdSet>, IdSet))
    ensures
        r.0.len() == block.stmts.len(),
        forall|j: int|
            0 <= j < r.0.len() ==> (#[trigger] r.0@[j])@ == live_from(
                block.deep_view().stmts,
                j + 1,
                live_at_end(block.deep_view(), out@),
            ),
        r.1@ == live_in(block.deep_view(), out@),
{
    let ghost sv = block.deep_view().stmts;
    let ghost end = live_at_end(block.deep_view(), out@);
    let mut live = out.copy();
    let tu = term_uses(&block.terminator);
    let _ = live.union_with(&tu);
    let n = block.stmts.len();
    let mut after: Vec<IdSet> = Vec::new();
    let mut i: usize = 0;
    while i < n
        invariant
            i <= n,
            after.len() == i,
        decreases n - i,
    {
        after.push(IdSet::new());
        i = i + 1;
    }
    let mut j: usize = n;
    while j > 0
        invariant
            j <= n,
            n == block.stmts.len(),
            sv == block.stmts.deep_view(),
            after.len() == n,
            live@ == live_from(sv, j as int, end),
            forall|k: int| j <= k < n ==> (#[trigger] after@[k])@ == live_from(sv, k + 1, end),
        decreases j,
    {
        j = j - 1;
        assert(sv[j as int] == block.stmts@[j as int].deep_view());
        let ghost l0 = live@;
        after.set(j, live.copy());
        if let Some(d) = stmt_def(&block.stmts[j]) {
            live.remove(d);
        }
        let uses = stmt_uses(&block.stmts[j]);
        let _ = live.union_with(&uses);
        assert(live@ =~= live_before(sv[j as int], l0));
    }
    (after, live)
}

/// Liveness after each statement and at the end of each block.
pub fn compute_liveness(blocks: &Vec<MirBlock>) -> (r: (Vec<Vec<IdSet>>, Vec<IdSet>))
    ensures
        r.0.len() == blocks.len(),
        r.1.len() == blocks.len(),
        forall|b: int|
            0 <= b < blocks.len() ==> (#[trigger] r.1@[b])@ == live_out(blocks.deep_view(), b),
        forall|b: int|
            0 <= b < blocks.len() ==> (#[trigger] r.0@[b]).len() == blocks.deep_view()[b].stmts.len(),
        forall|b: int, j: int|
            0 <= b < blocks.len() && 0 <= j < r.0@[b].len() ==> (#[trigger] r.0@[b]@[j])@
                == live_after(blocks.deep_view(), b, j),
{
    let ghost bv = blocks.deep_view();
    let ghost universe = all_uses(bv);
    let n = blocks.len();
    let preds = compute_preds(blocks);
    let mut out: Vec<IdSet> = Vec::new();
    let mut work: Vec<usize> = Vec::new();
    let mut queued: Vec<bool> = Vec::new();
    let mut i: usize = 0;
    while i < n
        invariant
            i <= n,
            out.len() == i,
            work.len() == i,
            queued.len() == i,
            forall|b: int| 0 <= b < i ==> (#[trigger] out@[b])@ == Set::<usize>::empty(),
            forall|b: int| 0 <= b < i ==> #[trigger] queued@[b],
            forall|b: int| 0 <= b < i ==> #[trigger] work@[b] == b,
        decreases n - i,
    {
        out.push(IdSet::new());
        work.push(i);
        queued.push(true);
        i = i + 1;
    }
    proof {
        lemma_all_uses_finite(bv);
        assert forall|b: int| 0 <= b < n && #[trigger] queued@[b] implies work@.contains(b as usize) by {
            assert(work@[b] == b);
        }
    }
    while work.len() > 0
        invariant
            n == blocks.len(),
            n == bv.len(),
            bv == blocks.deep_view(),
            universe == all_uses(bv),
            universe.finite(),
            out.len() == n,
            queued.len() == n,
            preds.len() == n,
            forall|s: int, p: int|
                0 <= s < n && 0 <= p < n ==> (#[trigger] preds@[s]@.contains(p as usize) <==> edge(
                    bv,
                    p,
                    s,
                )),
            forall|s: int, i: int|
                0 <= s < n && 0 <= i < preds@[s].len() ==> (#[trigger] preds@[s]@[i]) < n,
            forall|k: int| 0 <= k < work.len() ==> (#[trigger] work@[k]) < n,
            forall|b: int| 0 <= b < n && #[trigger] queued@[b] ==> work@.contains(b as usize),
            forall|b: int, x: usize|
                0 <= b < n && #[trigger] out@[b]@.contains(x) ==> live_out(bv, b).contains(x)
                    && universe.contains(x),
            forall|p: int, s: int, x: usize| #[trigger]
                edge(bv, p, s) && !queued@[s] && #[trigger] live_in(bv[s], out@[s]@).contains(x)
                    ==> out@[p]@.contains(x),
        decreases n * universe.len() - total_size(set_views(out@)), work.len(),
    {
        let ghost work0 = work@;
        let ghost out0 = set_views(out@);
        let b = work.pop().unwrap();
        assert(work0.drop_last() =~= work@ && work0.last() == b);
        assert(work0[work0.len() - 1] < n);
        queued.set(b, false);
        assert(bv[b as int] == blocks@[b as int].deep_view());
        proof {
            assert forall|c: int| 0 <= c < n && #[trigger] queued@[c] implies work@.contains(
                c as usize,
            ) by {
                assert(work0.contains(c as usize));
                let k = choose|k: int| 0 <= k < work0.len() && work0[k] == c as usize;
                assert(work@[k] == c as usize);
            }
            assert(out0 =~= set_views(out@));
        }
        let (after, live) = scan_block(&blocks[b], &out[b]);
        let ghost lin = live@;
        let ghost ob = out@[b as int]@;
        proof {
            assert forall|x: usize| lin.contains(x) implies universe.contains(x) by {
                if ob.contains(x) {
                    assert(out@[b as int]@.contains(x));
                }
                lemma_live_in_uses(bv, b as int, ob, x);
            }
        }
        let mut k: usize = 0;
        while k < preds[b].len()
            invariant
                k <= preds@[b as int].len(),
                b < n,
                n == blocks.len(),
                n == bv.len(),
                bv == blocks.deep_view(),
                universe == all_uses(bv),
                universe.finite(),
                out.len() == n,
                queued.len() == n,
                preds.len() == n,
                live@ == lin,
                lin == live_in(bv[b as int], ob),
                forall|s: int, p: int|
                    0 <= s < n && 0 <= p < n ==> (#[trigger] preds@[s]@.contains(p as usize)
                        <==> edge(bv, p, s)),
                forall|s: int, i: int|
                    0 <= s < n && 0 <= i < preds@[s].len() ==> (#[trigger] preds@[s]@[i]) < n,
                forall|k: int| 0 <= k < work.len() ==> (#[trigger] work@[k]) < n,
                forall|c: int| 0 <= c < n && #[trigger] queued@[c] ==> work@.contains(c as usize),
                forall|x: usize| lin.contains(x) ==> universe.contains(x),
                forall|c: int, x: usize|
                    0 <= c < n && #[trigger] out@[c]@.contains(x) ==> live_out(bv, c).contains(x)
                        && universe.contains(x),
                forall|x: usize| ob.contains(x) ==> live_out(bv, b as int).contains(x),
                forall|x: usize| ob.contains(x) ==> out@[b as int]@.contains(x),
                !queued@[b as int] ==> out@[b as int]@ == ob,
                forall|j: int|
                    0 <= j < k ==> lin.subset_of(
                        out@[(#[trigger] preds@[b as int]@[j]) as int]@,
                    ),
                forall|p: int, s: int, x: usize| #[trigger]
                    edge(bv, p, s) && s != b && !queued@[s] && #[trigger] live_in(
                        bv[s],
                        out@[s]@,
                    ).contains(x) ==> out@[p]@.contains(x),
                total_size(set_views(out@)) > total_size(out0) || (set_views(out@) == out0 && work@
                    == work0.drop_last()),
            decreases preds@[b as int].len() - k,
        {
            let p = preds[b][k];
            assert(preds@[b as int]@[k as int] < n);
            proof {
                assert(preds@[b as int]@.contains(p)) by {
                    assert(preds@[b as int]@[k as int] == p);
                }
                assert(preds@[b as int]@.contains((p as int) as usize));
                assert(edge(bv, p as int, b as int));
            }
            let ghost out1 = set_views(out@);
            let ghost outv = out@;
            let ghost queued1 = queued@;
            let ghost work1 = work@;
            let changed = out[p].union_with(&live);
            proof {
                out@[p as int].lemma_finite();
                assert(set_views(out@) =~= out1.update(p as int, out@[p as int]@));
                assert(out@[p as int]@ == outv[p as int]@.union(lin));
                if changed {
                    lemma_total_size_update(out1, p as int, out@[p as int]@);
                } else {
                    assert(set_views(out@) =~= out1);
                }
                assert forall|c: int, x: usize|
                    0 <= c < n && #[trigger] out@[c]@.contains(x) implies live_out(bv, c).contains(x)
                    && universe.contains(x) by {
                    if c == p && !outv[c]@.contains(x) {
                        assert(lin.contains(x));
                        lemma_live_in_monotone(
                            bv[b as int],
                            ob,
                            live_out(bv, b as int),
                            x,
                        );
                        lemma_live_out_equation(bv, p as int, x);
                    } else {
                        assert(outv[c]@.contains(x));
                    }
                }
            }
            if changed && !queued[p] {
                queued.set(p, true);
                work.push(p);
                proof {
                    assert forall|c: int| 0 <= c < n && #[trigger] queued@[c] implies work@.contains(
                        c as usize,
                    ) by {
                        if c == p {
                            assert(work@[work1.len() as int] == p);
                        } else {
                            assert(queued1[c]);
                            let m = choose|m: int| 0 <= m < work1.len() && work1[m] == c as usize;
                            assert(work@[m] == c as usize);
                        }
                    }
                }
            }
            proof {
                assert forall|q: int, s: int, x: usize| #[trigger]
                    edge(bv, q, s) && s != b && !queued@[s] && #[trigger] live_in(
                        bv[s],
                        out@[s]@,
                    ).contains(x) implies out@[q]@.contains(x) by {
                    assert(out@[s]@ == outv[s]@);
                    assert(!queued1[s]);
                    assert(live_in(bv[s], outv[s]@).contains(x));
                    assert(outv[q]@.contains(x));
                }
                assert forall|j: int| 0 <= j < k + 1 implies lin.subset_of(
                    out@[(#[trigger] preds@[b as int]@[j]) as int]@,
                ) by {
                    if j < k {
                        assert(lin.subset_of(outv[preds@[b as int]@[j] as int]@));
                    }
                }
            }
            k = k + 1;
        }
        proof {
            assert forall|p: int, s: int, x: usize| #[trigger]
                edge(bv, p, s) && !queued@[s] && #[trigger] live_in(
                    bv[s],
                    out@[s]@,
                ).contains(x) implies out@[p]@.contains(x) by {
                if s == b {
                    assert(preds@[s]@.contains(p as usize));
                    let j = choose|j: int|
                        0 <= j < preds@[b as int]@.len() && preds@[b as int]@[j] == p as usize;
                    assert(lin.contains(x));
                    assert(lin.subset_of(out@[preds@[b as int]@[j] as int]@));
                }
            }
            assert forall|i: int| 0 <= i < n implies (#[trigger] set_views(out@)[i]).subset_of(
                universe,
            ) by {
                assert(set_views(out@)[i] == out@[i]@);
            }
            lemma_total_size_bound(set_views(out@), universe);
        }
    }
    proof {
        let sets = set_views(out@);
        assert forall|p: int, s: int, y: usize| #[trigger]
            edge(bv, p, s) && #[trigger] live_in(bv[s], sets[s]).contains(
                y,
            ) implies sets[p].contains(y) by {
            if queued@[s] {
                assert(work@.contains(s as usize));
            }
            assert(sets[s] == out@[s]@);
            assert(live_in(bv[s], out@[s]@).contains(y));
            assert(out@[p]@.contains(y));
        }
        assert forall|b: int| 0 <= b < n implies (#[trigger] out@[b])@ == live_out(bv, b) by {
            assert forall|x: usize| live_out(bv, b).contains(x) implies out@[b]@.contains(x) by {
                let k = choose|k: nat| #[trigger] live_within(bv, b, k).contains(x);
                lemma_live_out_least(bv, sets, b, k, x);
            }
            assert(out@[b]@ =~= live_out(bv, b));
        }
    }
    let mut after_all: Vec<Vec<IdSet>> = Vec::new();
    let mut b: usize = 0;
    while b < n
        invariant
            b <= n,
            n == blocks.len(),
            bv == blocks.deep_view(),
            out.len() == n,
            after_all.len() == b,
            forall|c: int| 0 <= c < n ==> (#[trigger] out@[c])@ == live_out(bv, c),
            forall|c: int|
                0 <= c < b ==> (#[trigger] after_all@[c]).len() == bv[c].stmts.len(),
            forall|c: int, j: int|
                0 <= c < b && 0 <= j < after_all@[c].len() ==> (#[trigger] after_all@[c]@[j])@
                    == live_after(bv, c, j),
        decreases n - b,
    {
        assert(bv[b as int] == blocks@[b as int].deep_view());
        assert(out@[b as int]@ == live_out(bv, b as int));
        let (after, _live) = scan_block(&blocks[b], &out[b]);
        let ghost old_all = after_all@;
        let ghost av = after@;
        after_all.push(after);
        proof {
            assert forall|c: int, j: int|
                0 <= c < b + 1 && 0 <= j < after_all@[c].len() implies (
            #[trigger] after_all@[c]@[j])@ == live_after(bv, c, j) by {
                if c < b {
                    assert(after_all@[c] == old_all[c]);
                    assert(old_all[c]@[j]@ == live_after(bv, c, j));
                } else {
                    assert(av[j]@ == live_after(bv, b as int, j));
                }
            }
        }
        b = b + 1;
    }
    (after_all, out)
}

} // verus!
