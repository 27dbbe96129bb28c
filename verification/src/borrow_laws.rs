//! Laws of the borrow checker: which places overlap, which loans stand in the way of an
//! access, and what a body that passes never does.

use vstd::prelude::*;

use crate::borrow::{
    blocks_loans, borrow_error, conflict, created_before, exclusive_error, fn_error, fns_error,
    holders_at, loan_of, loans_held, moves_error, overlap, read_error, reads_error, rvalue_error, rvalue_reads,
    steps_meet, steps_of, stmt_error, stmts_conflict, stmts_loans, term_error, LoanKind, LoanV,
    ProjV,
};
use crate::cfg::follows;
use crate::init::root_of;
use crate::liveness::{live_at_end, live_out};
use crate::mir::{BlockV, BodyV, FnV, LocalV, PlaceV, RvalueV, StmtV};

verus! {

proof fn lemma_meet_symmetric(a: Seq<ProjV>, b: Seq<ProjV>)
    ensures
        steps_meet(a, b) == steps_meet(b, a),
    decreases a.len(),
{
    if a.len() > 0 && b.len() > 0 {
        lemma_meet_symmetric(a.drop_first(), b.drop_first());
    }
}

/// Overlapping is mutual.
pub proof fn lemma_overlap_symmetric(a: PlaceV, b: PlaceV)
    ensures
        overlap(a, b) == overlap(b, a),
{
    lemma_meet_symmetric(steps_of(a), steps_of(b));
}

/// A way down meets every way that goes on from it.
proof fn lemma_meet_prefix(a: Seq<ProjV>, more: Seq<ProjV>)
    ensures
        steps_meet(a, a + more),
    decreases a.len(),
{
    if a.len() > 0 {
        assert((a + more).drop_first() =~= a.drop_first() + more);
        lemma_meet_prefix(a.drop_first(), more);
    }
}

/// A place overlaps itself.
pub proof fn lemma_overlap_reflexive(a: PlaceV)
    ensures
        overlap(a, a),
{
    lemma_meet_prefix(steps_of(a), Seq::empty());
    assert(steps_of(a) + Seq::<ProjV>::empty() =~= steps_of(a));
}

/// Whether two ways down part at step `i`: all steps before it name the same fields, and
/// it names two different ones.
pub open spec fn part_ways(a: Seq<ProjV>, b: Seq<ProjV>, i: int) -> bool {
    &&& 0 <= i < a.len() && i < b.len()
    &&& forall|j: int| 0 <= j < i ==> (#[trigger] a[j]) is Field && a[j] == b[j]
    &&& a[i] is Field && b[i] is Field && a[i] != b[i]
}

proof fn lemma_meet_or_part(a: Seq<ProjV>, b: Seq<ProjV>)
    ensures
        steps_meet(a, b) <==> forall|i: int| !#[trigger] part_ways(a, b, i),
    decreases a.len(),
{
    if a.len() > 0 && b.len() > 0 {
        let x = a.drop_first();
        let y = b.drop_first();
        lemma_meet_or_part(x, y);
        if a[0] is Field && b[0] is Field && a[0] != b[0] {
            assert(part_ways(a, b, 0));
        } else if a[0] is Field && a[0] == b[0] {
            assert forall|i: int| #[trigger] part_ways(a, b, i) implies part_ways(x, y, i - 1) by {
                assert forall|j: int| 0 <= j < i - 1 implies (#[trigger] x[j]) is Field && x[j]
                    == y[j] by {
                    assert(a[j + 1] is Field && a[j + 1] == b[j + 1]);
                }
            }
            assert forall|i: int| #[trigger] part_ways(x, y, i) implies part_ways(a, b, i + 1) by {
                assert forall|j: int| 0 <= j < i + 1 implies (#[trigger] a[j]) is Field && a[j]
                    == b[j] by {
                    if j > 0 {
                        assert(x[j - 1] is Field && x[j - 1] == y[j - 1]);
                    }
                }
            }
            if !steps_meet(a, b) {
                let i = choose|i: int| #[trigger] part_ways(x, y, i);
                assert(part_ways(a, b, i + 1));
            }
        } else {
            assert forall|i: int| !#[trigger] part_ways(a, b, i) by {
                if part_ways(a, b, i) && i > 0 {
                    assert(a[0] is Field && a[0] == b[0]);
                }
            }
        }
    }
}

/// Which places overlap: those of one variable, whatever its version, whose ways down do
/// not part at two different fields. Where one way ends, or the first step that is not
/// the same field in both is not two fields, the places count as overlapping.
pub proof fn lemma_overlap_exact(a: PlaceV, b: PlaceV)
    ensures
        overlap(a, b) <==> root_of(a) == root_of(b) && forall|i: int|
            !#[trigger] part_ways(steps_of(a), steps_of(b), i),
{
    lemma_meet_or_part(steps_of(a), steps_of(b));
}

/// Whether `part` is reached from `whole` by going on down.
pub open spec fn part_of(part: PlaceV, whole: PlaceV) -> bool
    decreases part,
{
    part == whole || match part {
        PlaceV::Ssa(_) => false,
        PlaceV::Field { base, .. } => part_of(*base, whole),
        PlaceV::Index { base, .. } => part_of(*base, whole),
        PlaceV::Deref(base) => part_of(*base, whole),
        PlaceV::EnumPayload { base, .. } => part_of(*base, whole),
    }
}

proof fn lemma_part_steps(part: PlaceV, whole: PlaceV) -> (more: Seq<ProjV>)
    requires
        part_of(part, whole),
    ensures
        root_of(part) == root_of(whole),
        steps_of(part) == steps_of(whole) + more,
    decreases part,
{
    if part == whole {
        assert(steps_of(whole) + Seq::<ProjV>::empty() =~= steps_of(part));
        Seq::empty()
    } else {
        let base = match part {
            PlaceV::Ssa(_) => part,
            PlaceV::Field { base, .. } => *base,
            PlaceV::Index { base, .. } => *base,
            PlaceV::Deref(base) => *base,
            PlaceV::EnumPayload { base, .. } => *base,
        };
        let more = lemma_part_steps(base, whole);
        let last = steps_of(part).last();
        assert(steps_of(part) =~= steps_of(whole) + more.push(last));
        more.push(last)
    }
}

/// A place overlaps its parts.
pub proof fn lemma_part_overlaps(part: PlaceV, whole: PlaceV)
    requires
        part_of(part, whole),
    ensures
        overlap(part, whole),
        overlap(whole, part),
{
    let more = lemma_part_steps(part, whole);
    lemma_meet_prefix(steps_of(whole), more);
    lemma_overlap_symmetric(part, whole);
}

/// Whether a place is reached by naming fields only.
pub open spec fn fields_only(p: PlaceV) -> bool
    decreases p,
{
    match p {
        PlaceV::Ssa(_) => true,
        PlaceV::Field { base, .. } => fields_only(*base),
        _ => false,
    }
}

proof fn lemma_fields_steps(p: PlaceV)
    requires
        fields_only(p),
    ensures
        forall|i: int| 0 <= i < steps_of(p).len() ==> #[trigger] steps_of(p)[i] is Field,
    decreases p,
{
    match p {
        PlaceV::Field { base, .. } => {
            lemma_fields_steps(*base);
            let front = steps_of(*base);
            assert forall|i: int| 0 <= i < steps_of(p).len() implies #[trigger] steps_of(
                p,
            )[i] is Field by {
                if i < front.len() {
                    assert(front[i] is Field);
                }
            }
        },
        _ => {},
    }
}

proof fn lemma_parting(common: Seq<ProjV>, f: Seq<char>, g: Seq<char>)
    requires
        forall|i: int| 0 <= i < common.len() ==> #[trigger] common[i] is Field,
        f != g,
    ensures
        !steps_meet(common.push(ProjV::Field(f)), common.push(ProjV::Field(g))),
    decreases common.len(),
{
    if common.len() > 0 {
        let rest = common.drop_first();
        assert(common.push(ProjV::Field(f)).drop_first() =~= rest.push(ProjV::Field(f)));
        assert(common.push(ProjV::Field(g)).drop_first() =~= rest.push(ProjV::Field(g)));
        assert forall|i: int| 0 <= i < rest.len() implies #[trigger] rest[i] is Field by {
            assert(rest[i] == common[i + 1]);
        }
        assert(common[0] is Field);
        lemma_parting(rest, f, g);
    }
}

/// Two fields of one place do not overlap, where the place itself is reached by naming
/// fields. Behind a reference or an index all parts count as one.
pub proof fn lemma_fields_disjoint(base: PlaceV, f: Seq<char>, g: Seq<char>)
    requires
        fields_only(base),
        f != g,
    ensures
        !overlap(
            PlaceV::Field { base: Box::new(base), field: f },
            PlaceV::Field { base: Box::new(base), field: g },
        ),
{
    lemma_fields_steps(base);
    lemma_parting(steps_of(base), f, g);
}

/// A place may be read where no mutable loan overlaps it.
pub proof fn lemma_read_free(p: PlaceV, loans: Seq<LoanV>, locals: Seq<LocalV>)
    ensures
        read_error(p, loans, locals) is None <==> forall|i: int|
            0 <= i < loans.len() && (#[trigger] loans[i]).kind == LoanKind::Mut ==> !overlap(
                p,
                loans[i].place,
            ),
    decreases loans.len(),
{
    if loans.len() > 0 {
        let rest = loans.drop_first();
        lemma_read_free(p, rest, locals);
        assert forall|i: int| 0 < i < loans.len() implies #[trigger] loans[i] == rest[i - 1] by {}
        if read_error(p, loans, locals) is None {
            assert forall|i: int|
                0 <= i < loans.len() && (#[trigger] loans[i]).kind == LoanKind::Mut implies !overlap(
                p,
                loans[i].place,
            ) by {
                if i > 0 {
                    assert(rest[i - 1] == loans[i]);
                }
            }
        } else if !(loans[0].kind == LoanKind::Mut && overlap(p, loans[0].place)) {
            let i = choose|i: int|
                0 <= i < rest.len() && (#[trigger] rest[i]).kind == LoanKind::Mut && overlap(
                    p,
                    rest[i].place,
                );
            assert(loans[i + 1] == rest[i]);
        }
    }
}

/// A place may be written, moved out of or dropped where no loan overlaps it.
pub proof fn lemma_exclusive_free(
    p: PlaceV,
    loans: Seq<LoanV>,
    locals: Seq<LocalV>,
    action: Seq<char>,
)
    ensures
        exclusive_error(p, loans, locals, action) is None <==> forall|i: int|
            0 <= i < loans.len() ==> !overlap(p, (#[trigger] loans[i]).place),
    decreases loans.len(),
{
    if loans.len() > 0 {
        let rest = loans.drop_first();
        lemma_exclusive_free(p, rest, locals, action);
        if exclusive_error(p, loans, locals, action) is None {
            assert forall|i: int| 0 <= i < loans.len() implies !overlap(
                p,
                (#[trigger] loans[i]).place,
            ) by {
                if i > 0 {
                    assert(rest[i - 1] == loans[i]);
                }
            }
        } else if !overlap(p, loans[0].place) {
            let i = choose|i: int| 0 <= i < rest.len() && overlap(p, (#[trigger] rest[i]).place);
            assert(loans[i + 1] == rest[i]);
        }
    }
}

/// A place may be borrowed where no loan overlaps it that excludes the new borrow: any
/// loan excludes a mutable one, a mutable loan excludes any.
pub proof fn lemma_borrow_free(
    p: PlaceV,
    mutable: bool,
    loans: Seq<LoanV>,
    locals: Seq<LocalV>,
)
    ensures
        borrow_error(p, mutable, loans, locals) is None <==> forall|i: int|
            0 <= i < loans.len() && (mutable || (#[trigger] loans[i]).kind == LoanKind::Mut)
                ==> !overlap(p, loans[i].place),
    decreases loans.len(),
{
    if loans.len() > 0 {
        let rest = loans.drop_first();
        lemma_borrow_free(p, mutable, rest, locals);
        if borrow_error(p, mutable, loans, locals) is None {
            assert forall|i: int|
                0 <= i < loans.len() && (mutable || (#[trigger] loans[i]).kind
                    == LoanKind::Mut) implies !overlap(p, loans[i].place) by {
                if i > 0 {
                    assert(rest[i - 1] == loans[i]);
                }
            }
        } else if !(overlap(p, loans[0].place) && (mutable || loans[0].kind == LoanKind::Mut)) {
            let i = choose|i: int|
                0 <= i < rest.len() && (mutable || (#[trigger] rest[i]).kind == LoanKind::Mut)
                    && overlap(p, rest[i].place);
            assert(loans[i + 1] == rest[i]);
        }
    }
}

/// Shared loans stand in the way of no read and of no further shared borrow.
pub proof fn lemma_shared_loans(p: PlaceV, loans: Seq<LoanV>, locals: Seq<LocalV>)
    requires
        forall|i: int| 0 <= i < loans.len() ==> (#[trigger] loans[i]).kind == LoanKind::Shared,
    ensures
        read_error(p, loans, locals) is None,
        borrow_error(p, false, loans, locals) is None,
{
    lemma_read_free(p, loans, locals);
    lemma_borrow_free(p, false, loans, locals);
}

/// The loans that count are those that were created and whose variable may still be
/// read.
pub proof fn lemma_held(
    blocks: Seq<BlockV>,
    loans: Seq<LoanV>,
    vars: Set<usize>,
    b: int,
    j: int,
    l: LoanV,
)
    ensures
        loans_held(blocks, loans, vars, b, j).contains(l) <==> loans.contains(l) && vars.contains(
            l.borrow_var,
        ) && created_before(blocks, l, b, j),
    decreases loans.len(),
{
    if loans.len() > 0 {
        let front = loans.drop_last();
        lemma_held(blocks, front, vars, b, j, l);
        let held = loans_held(blocks, loans, vars, b, j);
        let before = loans_held(blocks, front, vars, b, j);
        if before.contains(l) {
            let i = choose|i: int| 0 <= i < before.len() && before[i] == l;
            assert(held[i] == l);
        }
        if front.contains(l) {
            let i = choose|i: int| 0 <= i < front.len() && front[i] == l;
            assert(loans[i] == l);
        }
        if held.contains(l) && !before.contains(l) {
            let i = choose|i: int| 0 <= i < held.len() && held[i] == l;
            assert(i == held.len() - 1);
            assert(loans[loans.len() - 1] == l);
        }
        if loans.contains(l) && !front.contains(l) {
            let i = choose|i: int| 0 <= i < loans.len() && loans[i] == l;
            if i < front.len() {
                assert(front[i] == l);
            }
            assert(loans.last() == l);
            if vars.contains(l.borrow_var) && created_before(blocks, l, b, j) {
                assert(held[held.len() - 1] == l);
            }
        }
    }
}

proof fn lemma_loan_in_stmts(stmts: Seq<StmtV>, b: int, n: int, j: int)
    requires
        0 <= j < n <= stmts.len(),
        loan_of(stmts[j], b, j) is Some,
    ensures
        stmts_loans(stmts, b, n).contains(loan_of(stmts[j], b, j)->0),
    decreases n,
{
    let l = loan_of(stmts[j], b, j)->0;
    let all = stmts_loans(stmts, b, n);
    if j == n - 1 {
        assert(all[all.len() - 1] == l);
    } else {
        lemma_loan_in_stmts(stmts, b, n - 1, j);
        let before = stmts_loans(stmts, b, n - 1);
        let i = choose|i: int| 0 <= i < before.len() && before[i] == l;
        assert(all[i] == l);
    }
}

/// Every borrow of a body is counted.
pub(crate) proof fn lemma_loan_in_blocks(blocks: Seq<BlockV>, n: int, b: int, j: int)
    requires
        0 <= b < n <= blocks.len(),
        0 <= j < blocks[b].stmts.len(),
        loan_of(blocks[b].stmts[j], b, j) is Some,
    ensures
        blocks_loans(blocks, n).contains(loan_of(blocks[b].stmts[j], b, j)->0),
    decreases n,
{
    let l = loan_of(blocks[b].stmts[j], b, j)->0;
    let all = blocks_loans(blocks, n);
    let before = blocks_loans(blocks, n - 1);
    if b == n - 1 {
        let mine = stmts_loans(blocks[b].stmts, b, blocks[b].stmts.len() as int);
        lemma_loan_in_stmts(blocks[b].stmts, b, blocks[b].stmts.len() as int, j);
        let i = choose|i: int| 0 <= i < mine.len() && mine[i] == l;
        assert(all[before.len() + i] == l);
    } else {
        lemma_loan_in_blocks(blocks, n - 1, b, j);
        let i = choose|i: int| 0 <= i < before.len() && before[i] == l;
        assert(all[i] == l);
    }
}

proof fn lemma_no_stmt_conflict(body: BodyV, b: int, n: int, j: int)
    requires
        0 <= j < n,
        stmts_conflict(body, b, n) is None,
    ensures
        stmt_error(
            body.blocks[b].stmts[j],
            loans_held(
                body.blocks,
                blocks_loans(body.blocks, body.blocks.len() as int),
                holders_at(body.blocks, b, j),
                b,
                j,
            ),
            body.locals,
        ) is None,
    decreases n,
{
    if j < n - 1 {
        lemma_no_stmt_conflict(body, b, n - 1, j);
    }
}

proof fn lemma_no_block_conflict(body: BodyV, n: int, b: int)
    requires
        0 <= b < n,
        conflict(body, n) is None,
    ensures
        stmts_conflict(body, b, body.blocks[b].stmts.len() as int) is None,
        term_error(
            body.blocks[b].terminator,
            loans_held(
                body.blocks,
                blocks_loans(body.blocks, body.blocks.len() as int),
                live_at_end(body.blocks[b], live_out(body.blocks, b)),
                b,
                body.blocks[b].stmts.len() as int,
            ),
            body.locals,
        ) is None,
    decreases n,
{
    if b < n - 1 {
        lemma_no_block_conflict(body, n - 1, b);
    }
}

proof fn lemma_reads_free(ps: Seq<PlaceV>, loans: Seq<LoanV>, locals: Seq<LocalV>, i: int)
    requires
        reads_error(ps, loans, locals) is None,
        0 <= i < ps.len(),
    ensures
        read_error(ps[i], loans, locals) is None,
    decreases ps.len(),
{
    if i > 0 {
        lemma_reads_free(ps.drop_first(), loans, locals, i - 1);
    }
}

proof fn lemma_moves_free(ps: Seq<PlaceV>, loans: Seq<LoanV>, locals: Seq<LocalV>, i: int)
    requires
        moves_error(ps, loans, locals) is None,
        0 <= i < ps.len(),
    ensures
        exclusive_error(ps[i], loans, locals, "move"@) is None,
    decreases ps.len(),
{
    if i > 0 {
        lemma_moves_free(ps.drop_first(), loans, locals, i - 1);
    }
}

/// Whether a right-hand side leaves a loan in peace: it copies nothing that is mutably
/// borrowed and moves nothing that is borrowed.
pub open spec fn value_respects(rv: RvalueV, l: LoanV) -> bool {
    &&& forall|i: int|
        0 <= i < rvalue_reads(rv).0.len() && l.kind == LoanKind::Mut ==> !overlap(
            #[trigger] rvalue_reads(rv).0[i],
            l.place,
        )
    &&& forall|i: int|
        0 <= i < rvalue_reads(rv).1.len() ==> !overlap(#[trigger] rvalue_reads(rv).1[i], l.place)
}

/// Whether a statement leaves a loan in peace: it writes and drops nothing that is
/// borrowed, reads nothing that is mutably borrowed, and borrows nothing that the loan
/// excludes.
pub open spec fn respects(s: StmtV, l: LoanV) -> bool {
    match s {
        StmtV::Assign { dest, value } => {
            &&& value_respects(value, l)
            &&& !overlap(dest, l.place)
            &&& value matches RvalueV::Ref { mutable, place } ==> (mutable || l.kind
                == LoanKind::Mut) ==> !overlap(place, l.place)
        },
        StmtV::ExprStmt(value) => value_respects(value, l),
        StmtV::Drop { place } => !overlap(place, l.place),
        _ => true,
    }
}

proof fn lemma_value_respects(rv: RvalueV, loans: Seq<LoanV>, locals: Seq<LocalV>, k: int)
    requires
        rvalue_error(rv, loans, locals) is None,
        0 <= k < loans.len(),
    ensures
        value_respects(rv, loans[k]),
{
    let (copies, moves) = rvalue_reads(rv);
    let l = loans[k];
    assert forall|i: int| 0 <= i < copies.len() && l.kind == LoanKind::Mut implies !overlap(
        #[trigger] copies[i],
        l.place,
    ) by {
        lemma_reads_free(copies, loans, locals, i);
        lemma_read_free(copies[i], loans, locals);
        assert(loans[k].kind == LoanKind::Mut);
    }
    assert forall|i: int| 0 <= i < moves.len() implies !overlap(#[trigger] moves[i], l.place) by {
        lemma_moves_free(moves, loans, locals, i);
        lemma_exclusive_free(moves[i], loans, locals, "move"@);
        assert(!overlap(moves[i], loans[k].place));
    }
}

/// A body that passes the check respects its borrows: no statement touches what is
/// borrowed, in a way that the borrow excludes, after the borrow was made and while the
/// variable that holds it may still be read.
pub proof fn lemma_borrows_respected(body: BodyV, b1: int, j1: int, b2: int, j2: int)
    requires
        conflict(body, body.blocks.len() as int) is None,
        0 <= b1 < body.blocks.len(),
        0 <= j1 < body.blocks[b1].stmts.len(),
        0 <= b2 < body.blocks.len(),
        0 <= j2 < body.blocks[b2].stmts.len(),
        loan_of(body.blocks[b1].stmts[j1], b1, j1) is Some,
        holders_at(body.blocks, b2, j2).contains(
            loan_of(body.blocks[b1].stmts[j1], b1, j1)->0.borrow_var,
        ),
        b1 == b2 && j1 < j2 || follows(body.blocks, b1, b2),
    ensures
        respects(body.blocks[b2].stmts[j2], loan_of(body.blocks[b1].stmts[j1], b1, j1)->0),
{
    let n = body.blocks.len() as int;
    let l = loan_of(body.blocks[b1].stmts[j1], b1, j1)->0;
    let s = body.blocks[b2].stmts[j2];
    let all = blocks_loans(body.blocks, n);
    let vars = holders_at(body.blocks, b2, j2);
    let loans = loans_held(body.blocks, all, vars, b2, j2);
    lemma_loan_in_blocks(body.blocks, n, b1, j1);
    lemma_held(body.blocks, all, vars, b2, j2, l);
    let k = choose|k: int| 0 <= k < loans.len() && loans[k] == l;
    lemma_no_block_conflict(body, n, b2);
    lemma_no_stmt_conflict(body, b2, body.blocks[b2].stmts.len() as int, j2);
    match s {
        StmtV::Assign { dest, value } => {
            lemma_value_respects(value, loans, body.locals, k);
            lemma_exclusive_free(dest, loans, body.locals, "write"@);
            assert(!overlap(dest, loans[k].place));
            if let RvalueV::Ref { mutable, place } = value {
                lemma_borrow_free(place, mutable, loans, body.locals);
                assert(mutable || loans[k].kind == LoanKind::Mut ==> !overlap(
                    place,
                    loans[k].place,
                ));
            }
        },
        StmtV::ExprStmt(value) => {
            lemma_value_respects(value, loans, body.locals, k);
        },
        StmtV::Drop { place } => {
            lemma_exclusive_free(place, loans, body.locals, "drop"@);
            assert(!overlap(place, loans[k].place));
        },
        _ => {},
    }
}

/// A program passes the check exactly where each of its functions does.
pub proof fn lemma_fns_pass(fns: Seq<FnV>, n: int)
    requires
        0 <= n <= fns.len(),
    ensures
        fns_error(fns, n) is None <==> forall|i: int|
            0 <= i < n ==> fn_error(#[trigger] fns[i]) is None,
    decreases n,
{
    if n > 0 {
        lemma_fns_pass(fns, n - 1);
    }
}

} // verus!
