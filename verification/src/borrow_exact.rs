//! Laws of the borrow checker: which bodies pass, in terms of the ways that control can
//! take through them.

use vstd::prelude::*;

use crate::borrow::{
    blocks_loans, conflict, exclusive_error, holders_at, loan_of, loans_held, moves_error,
    operand_error, overlap, read_error, reads_error, rvalue_error, rvalue_reads, stmt_error,
    stmts_conflict, stmts_loans, term_error, LoanKind, LoanV,
};
use crate::borrow_laws::{
    lemma_borrow_free, lemma_exclusive_free, lemma_held, lemma_loan_in_blocks, lemma_read_free,
};
use crate::cfg::{edge, follows};
use crate::liveness::{
    lemma_live_out_equation, live_at_end, live_from, live_in, live_out, live_within,
};
use crate::mir::{BlockV, BodyV, LocalV, OperandV, PlaceV, RvalueV, StmtV, TermV};
use crate::reading::{
    bottom, ends_on_var, evaluates, lemma_reads_exact, lemma_root_bottom, lemma_term_uses_exact,
    lemma_uses_exact, reads_var,
};

verus! {

// Which variables are read later.

/// Whether a statement gives a variable a new value as a whole.
pub open spec fn gives(s: StmtV, x: usize) -> bool {
    s matches StmtV::Assign { dest: PlaceV::Ssa(d), .. } && d.base_id == x
}

/// Whether place `k` of a block, its end after its statements, reads a variable.
pub open spec fn reads_there(b: BlockV, k: int, x: usize) -> bool {
    if k < b.stmts.len() {
        reads_var(b.stmts[k], x)
    } else {
        ends_on_var(b.terminator, x)
    }
}

/// Whether no statement of a block from `lo` up to `hi` gives the variable a new value.
pub open spec fn keeps(b: BlockV, lo: int, hi: int, x: usize) -> bool {
    forall|m: int| lo <= m < hi ==> !gives(#[trigger] b.stmts[m], x)
}

/// Whether the blocks of `p` are a way on from place `j` of the first to place `k` of the
/// last, where the variable is read, and no statement on the way gives it a new value.
pub open spec fn way_to_read(blocks: Seq<BlockV>, p: Seq<int>, j: int, k: int, x: usize) -> bool {
    let n = p.len() - 1;
    &&& n >= 0
    &&& forall|i: int| 0 <= i < n ==> edge(blocks, #[trigger] p[i], p[i + 1])
    &&& 0 <= k <= blocks[p[n]].stmts.len()
    &&& n == 0 ==> j <= k
    &&& reads_there(blocks[p[n]], k, x)
    &&& forall|i: int|
        0 <= i <= n ==> keeps(
            blocks[#[trigger] p[i]],
            if i == 0 {
                j
            } else {
                0
            },
            if i == n {
                k
            } else {
                blocks[p[i]].stmts.len() as int
            },
            x,
        )
}

/// Whether control, at place `j` of block `b`, may come to read a variable before it gets
/// a new value.
pub open spec fn read_on(blocks: Seq<BlockV>, b: int, j: int, x: usize) -> bool {
    exists|p: Seq<int>, k: int| p.len() > 0 && p[0] == b && #[trigger] way_to_read(
        blocks,
        p,
        j,
        k,
        x,
    )
}

proof fn lemma_live_local(b: BlockV, j: int, end: Set<usize>, x: usize)
    requires
        0 <= j <= b.stmts.len(),
    ensures
        live_from(b.stmts, j, end).contains(x) <==> (exists|k: int|
            j <= k < b.stmts.len() && #[trigger] reads_there(b, k, x) && keeps(b, j, k, x)) || (
        end.contains(x) && keeps(b, j, b.stmts.len() as int, x)),
    decreases b.stmts.len() - j,
{
    if j < b.stmts.len() {
        let s = b.stmts[j];
        lemma_live_local(b, j + 1, end, x);
        lemma_uses_exact(s, x);
        if reads_var(s, x) {
            assert(reads_there(b, j, x) && keeps(b, j, j, x));
        }
        if live_from(b.stmts, j + 1, end).contains(x) && !gives(s, x) {
            if exists|k: int|
                j + 1 <= k < b.stmts.len() && #[trigger] reads_there(b, k, x) && keeps(
                    b,
                    j + 1,
                    k,
                    x,
                ) {
                let k = choose|k: int|
                    j + 1 <= k < b.stmts.len() && #[trigger] reads_there(b, k, x) && keeps(
                        b,
                        j + 1,
                        k,
                        x,
                    );
                assert(keeps(b, j, k, x));
            } else {
                assert(keeps(b, j, b.stmts.len() as int, x));
            }
        }
        if exists|k: int|
            j <= k < b.stmts.len() && #[trigger] reads_there(b, k, x) && keeps(b, j, k, x) {
            let k = choose|k: int|
                j <= k < b.stmts.len() && #[trigger] reads_there(b, k, x) && keeps(b, j, k, x);
            if k > j {
                assert(!gives(b.stmts[j], x));
                assert(keeps(b, j + 1, k, x));
            }
        }
        if end.contains(x) && keeps(b, j, b.stmts.len() as int, x) {
            assert(!gives(b.stmts[j], x));
            assert(keeps(b, j + 1, b.stmts.len() as int, x));
        }
    }
}

proof fn lemma_way_longer(blocks: Seq<BlockV>, b: int, j: int, p: Seq<int>, k: int, x: usize)
    requires
        0 <= j <= blocks[b].stmts.len(),
        p.len() > 0,
        edge(blocks, b, p[0]),
        way_to_read(blocks, p, 0, k, x),
        keeps(blocks[b], j, blocks[b].stmts.len() as int, x),
    ensures
        way_to_read(blocks, seq![b] + p, j, k, x),
{
    let q = seq![b] + p;
    let n = q.len() - 1;
    assert(q[n] == p[n - 1]);
    assert forall|i: int| 0 <= i < n implies edge(blocks, #[trigger] q[i], q[i + 1]) by {
        if i > 0 {
            assert(edge(blocks, p[i - 1], p[i - 1 + 1]));
        }
    }
    assert forall|i: int| 0 <= i <= n implies keeps(
        blocks[#[trigger] q[i]],
        if i == 0 {
            j
        } else {
            0
        },
        if i == n {
            k
        } else {
            blocks[q[i]].stmts.len() as int
        },
        x,
    ) by {
        if i > 0 {
            assert(q[i] == p[i - 1]);
        }
    }
}

proof fn lemma_live_way(blocks: Seq<BlockV>, b: int, j: int, n: nat, x: usize)
    requires
        0 <= j <= blocks[b].stmts.len(),
        live_from(
            blocks[b].stmts,
            j,
            live_at_end(blocks[b], live_within(blocks, b, n)),
        ).contains(x),
    ensures
        read_on(blocks, b, j, x),
    decreases n,
{
    let end = live_at_end(blocks[b], live_within(blocks, b, n));
    let blk = blocks[b];
    lemma_live_local(blk, j, end, x);
    lemma_term_uses_exact(blk.terminator, x);
    let here = seq![b];
    if exists|k: int|
        j <= k < blk.stmts.len() && #[trigger] reads_there(blk, k, x) && keeps(blk, j, k, x) {
        let k = choose|k: int|
            j <= k < blk.stmts.len() && #[trigger] reads_there(blk, k, x) && keeps(blk, j, k, x);
        assert(way_to_read(blocks, here, j, k, x));
    } else if ends_on_var(blk.terminator, x) {
        assert(reads_there(blk, blk.stmts.len() as int, x));
        assert(way_to_read(blocks, here, j, blk.stmts.len() as int, x));
    } else {
        let s = choose|s: int| #[trigger]
            edge(blocks, b, s) && live_in(
                blocks[s],
                live_within(blocks, s, (n - 1) as nat),
            ).contains(x);
        lemma_live_way(blocks, s, 0, (n - 1) as nat, x);
        let (p, k) = choose|p: Seq<int>, k: int|
            p.len() > 0 && p[0] == s && #[trigger] way_to_read(blocks, p, 0, k, x);
        lemma_way_longer(blocks, b, j, p, k, x);
        assert((seq![b] + p)[0] == b);
    }
}

proof fn lemma_way_live(blocks: Seq<BlockV>, p: Seq<int>, j: int, k: int, x: usize)
    requires
        p.len() > 0,
        0 <= j <= blocks[p[0]].stmts.len(),
        way_to_read(blocks, p, j, k, x),
    ensures
        live_from(
            blocks[p[0]].stmts,
            j,
            live_at_end(blocks[p[0]], live_out(blocks, p[0])),
        ).contains(x),
    decreases p.len(),
{
    let b = p[0];
    let blk = blocks[b];
    let end = live_at_end(blk, live_out(blocks, b));
    lemma_live_local(blk, j, end, x);
    lemma_term_uses_exact(blk.terminator, x);
    let n = p.len() - 1;
    assert(p[n] == p[n]);
    if n == 0 {
        assert(keeps(blocks[p[0]], j, k, x));
        assert(reads_there(blk, k, x));
    } else {
        let q = p.drop_first();
        assert(edge(blocks, p[0], p[0int + 1]));
        assert(q[0] == p[1]);
        assert(q[n - 1] == p[n]);
        assert forall|i: int| 0 <= i < n - 1 implies edge(blocks, #[trigger] q[i], q[i + 1]) by {
            assert(edge(blocks, p[i + 1], p[i + 1 + 1]));
        }
        assert forall|i: int| 0 <= i <= n - 1 implies keeps(
            blocks[#[trigger] q[i]],
            0,
            if i == n - 1 {
                k
            } else {
                blocks[q[i]].stmts.len() as int
            },
            x,
        ) by {
            assert(q[i] == p[i + 1]);
        }
        lemma_way_live(blocks, q, 0, k, x);
        lemma_live_out_equation(blocks, b, x);
        assert(live_in(blocks[q[0]], live_out(blocks, q[0])).contains(x));
        assert(keeps(blocks[p[0]], j, blk.stmts.len() as int, x));
    }
}

/// A variable is live at a place exactly where control may come to read it before it gets
/// a new value.
pub proof fn lemma_live_exact(blocks: Seq<BlockV>, b: int, j: int, x: usize)
    requires
        0 <= b < blocks.len(),
        0 <= j <= blocks[b].stmts.len(),
    ensures
        live_from(
            blocks[b].stmts,
            j,
            live_at_end(blocks[b], live_out(blocks, b)),
        ).contains(x) <==> read_on(blocks, b, j, x),
{
    let blk = blocks[b];
    if live_from(blk.stmts, j, live_at_end(blk, live_out(blocks, b))).contains(x) {
        lemma_live_local(blk, j, live_at_end(blk, live_out(blocks, b)), x);
        if live_out(blocks, b).contains(x) {
            let n = choose|n: nat| #[trigger] live_within(blocks, b, n).contains(x);
            lemma_live_local(blk, j, live_at_end(blk, live_within(blocks, b, n)), x);
            lemma_live_way(blocks, b, j, n, x);
        } else {
            lemma_live_local(blk, j, live_at_end(blk, live_within(blocks, b, 0)), x);
            lemma_live_way(blocks, b, j, 0, x);
        }
    }
    if read_on(blocks, b, j, x) {
        let (p, k) = choose|p: Seq<int>, k: int|
            p.len() > 0 && p[0] == b && #[trigger] way_to_read(blocks, p, j, k, x);
        lemma_way_live(blocks, p, j, k, x);
    }
}

// Which statements clash with a borrow.

/// Whether evaluating a right-hand side takes away from a borrow: it copies out of what is
/// mutably borrowed, or moves out of what is borrowed.
pub open spec fn value_takes(rv: RvalueV, place: PlaceV, mutable: bool) -> bool {
    exists|x: PlaceV| #[trigger]
        overlap(x, place) && ((mutable && evaluates(rv, OperandV::Copy(x))) || evaluates(
            rv,
            OperandV::Move(x),
        ))
}

/// Whether a statement does what a borrow of `place` excludes: it copies, moves, writes,
/// drops or borrows what overlaps the place; copying and borrowing for reading only where
/// the borrow is mutable.
pub open spec fn touches(s: StmtV, place: PlaceV, mutable: bool) -> bool {
    match s {
        StmtV::Assign { dest, value } => {
            ||| value_takes(value, place, mutable)
            ||| overlap(dest, place)
            ||| (value matches RvalueV::Ref { mutable: m, place: x } && (m || mutable) && overlap(
                x,
                place,
            ))
        },
        StmtV::ExprStmt(value) => value_takes(value, place, mutable),
        StmtV::Drop { place: x } => overlap(x, place),
        _ => false,
    }
}

/// Whether operand `o` of a terminator does what a borrow of `place` excludes.
pub open spec fn takes_whole(o: OperandV, place: PlaceV, mutable: bool) -> bool {
    match o {
        OperandV::Copy(x) => mutable && overlap(x, place),
        OperandV::Move(x) => overlap(x, place),
        _ => false,
    }
}

/// Whether a terminator does what a borrow of `place` excludes.
pub open spec fn term_touches(t: TermV, place: PlaceV, mutable: bool) -> bool {
    match t {
        TermV::If { cond, .. } => takes_whole(cond, place, mutable),
        TermV::Switch { discr, .. } => takes_whole(discr, place, mutable),
        TermV::Return(v) => v is Some && takes_whole(v->0, place, mutable),
        _ => false,
    }
}

proof fn lemma_reads_all(ps: Seq<PlaceV>, loans: Seq<LoanV>, locals: Seq<LocalV>)
    ensures
        reads_error(ps, loans, locals) is None <==> forall|x: PlaceV| #[trigger]
            ps.contains(x) ==> read_error(x, loans, locals) is None,
    decreases ps.len(),
{
    if ps.len() > 0 {
        let rest = ps.drop_first();
        lemma_reads_all(rest, loans, locals);
        assert(ps.contains(ps[0]));
        assert forall|x: PlaceV|
            #![trigger ps.contains(x)]
            #![trigger rest.contains(x)]
            ps.contains(x) <==> x == ps[0] || rest.contains(x) by {
            if rest.contains(x) {
                let i = choose|i: int| 0 <= i < rest.len() && rest[i] == x;
                assert(ps[i + 1] == x);
            }
            if ps.contains(x) && x != ps[0] {
                let i = choose|i: int| 0 <= i < ps.len() && ps[i] == x;
                assert(rest[i - 1] == x);
            }
        }
    }
}

proof fn lemma_moves_all(ps: Seq<PlaceV>, loans: Seq<LoanV>, locals: Seq<LocalV>)
    ensures
        moves_error(ps, loans, locals) is None <==> forall|x: PlaceV| #[trigger]
            ps.contains(x) ==> exclusive_error(x, loans, locals, "move"@) is None,
    decreases ps.len(),
{
    if ps.len() > 0 {
        let rest = ps.drop_first();
        lemma_moves_all(rest, loans, locals);
        assert(ps.contains(ps[0]));
        assert forall|x: PlaceV|
            #![trigger ps.contains(x)]
            #![trigger rest.contains(x)]
            ps.contains(x) <==> x == ps[0] || rest.contains(x) by {
            if rest.contains(x) {
                let i = choose|i: int| 0 <= i < rest.len() && rest[i] == x;
                assert(ps[i + 1] == x);
            }
            if ps.contains(x) && x != ps[0] {
                let i = choose|i: int| 0 <= i < ps.len() && ps[i] == x;
                assert(rest[i - 1] == x);
            }
        }
    }
}

/// Evaluating a right-hand side is complained about exactly where it takes away from a
/// borrow that is in force.
pub proof fn lemma_value_exact(rv: RvalueV, loans: Seq<LoanV>, locals: Seq<LocalV>)
    ensures
        rvalue_error(rv, loans, locals) is None <==> forall|k: int|
            0 <= k < loans.len() ==> !value_takes(
                rv,
                (#[trigger] loans[k]).place,
                loans[k].kind == LoanKind::Mut,
            ),
{
    let (copies, moves) = rvalue_reads(rv);
    lemma_reads_all(copies, loans, locals);
    lemma_moves_all(moves, loans, locals);
    assert forall|x: PlaceV| #[trigger] copies.contains(x) <==> evaluates(
        rv,
        OperandV::Copy(x),
    ) by {
        lemma_reads_exact(rv, x);
    }
    assert forall|x: PlaceV| #[trigger] moves.contains(x) <==> evaluates(
        rv,
        OperandV::Move(x),
    ) by {
        lemma_reads_exact(rv, x);
    }
    if rvalue_error(rv, loans, locals) is None {
        assert forall|k: int| 0 <= k < loans.len() implies !value_takes(
            rv,
            (#[trigger] loans[k]).place,
            loans[k].kind == LoanKind::Mut,
        ) by {
            assert forall|x: PlaceV| #[trigger] overlap(x, loans[k].place) implies !((loans[k].kind
                == LoanKind::Mut && evaluates(rv, OperandV::Copy(x))) || evaluates(
                rv,
                OperandV::Move(x),
            )) by {
                lemma_read_free(x, loans, locals);
                lemma_exclusive_free(x, loans, locals, "move"@);
                lemma_reads_exact(rv, x);
                assert(loans[k].kind == LoanKind::Mut ==> read_error(x, loans, locals) is Some);
                assert(exclusive_error(x, loans, locals, "move"@) is Some);
            }
        }
    } else {
        if reads_error(copies, loans, locals) is Some {
            let x = choose|x: PlaceV| #[trigger]
                copies.contains(x) && read_error(x, loans, locals) is Some;
            lemma_read_free(x, loans, locals);
            let k = choose|k: int|
                0 <= k < loans.len() && (#[trigger] loans[k]).kind == LoanKind::Mut && overlap(
                    x,
                    loans[k].place,
                );
            assert(value_takes(rv, loans[k].place, loans[k].kind == LoanKind::Mut));
        } else {
            let x = choose|x: PlaceV| #[trigger]
                moves.contains(x) && exclusive_error(x, loans, locals, "move"@) is Some;
            lemma_exclusive_free(x, loans, locals, "move"@);
            let k = choose|k: int|
                0 <= k < loans.len() && overlap(x, (#[trigger] loans[k]).place);
            assert(value_takes(rv, loans[k].place, loans[k].kind == LoanKind::Mut));
        }
    }
}

/// A statement is complained about exactly where it does what a borrow that is in force
/// excludes.
pub proof fn lemma_stmt_exact(s: StmtV, loans: Seq<LoanV>, locals: Seq<LocalV>)
    ensures
        stmt_error(s, loans, locals) is None <==> forall|k: int|
            0 <= k < loans.len() ==> !touches(
                s,
                (#[trigger] loans[k]).place,
                loans[k].kind == LoanKind::Mut,
            ),
{
    match s {
        StmtV::Assign { dest, value } => {
            lemma_value_exact(value, loans, locals);
            lemma_exclusive_free(dest, loans, locals, "write"@);
            if let RvalueV::Ref { mutable, place } = value {
                lemma_borrow_free(place, mutable, loans, locals);
            }
            if stmt_error(s, loans, locals) is Some {
                if rvalue_error(value, loans, locals) is Some {
                    let k = choose|k: int|
                        0 <= k < loans.len() && value_takes(
                            value,
                            (#[trigger] loans[k]).place,
                            loans[k].kind == LoanKind::Mut,
                        );
                    assert(touches(s, loans[k].place, loans[k].kind == LoanKind::Mut));
                } else if exclusive_error(dest, loans, locals, "write"@) is Some {
                    let k = choose|k: int|
                        0 <= k < loans.len() && overlap(dest, (#[trigger] loans[k]).place);
                    assert(touches(s, loans[k].place, loans[k].kind == LoanKind::Mut));
                } else {
                    let mutable = value->Ref_mutable;
                    let place = value->Ref_place;
                    let k = choose|k: int|
                        0 <= k < loans.len() && (mutable || (#[trigger] loans[k]).kind
                            == LoanKind::Mut) && overlap(place, loans[k].place);
                    assert(touches(s, loans[k].place, loans[k].kind == LoanKind::Mut));
                }
            }
        },
        StmtV::ExprStmt(value) => {
            lemma_value_exact(value, loans, locals);
        },
        StmtV::Drop { place } => {
            lemma_exclusive_free(place, loans, locals, "drop"@);
        },
        _ => {},
    }
}

proof fn lemma_operand_exact(o: OperandV, loans: Seq<LoanV>, locals: Seq<LocalV>)
    ensures
        operand_error(o, loans, locals) is None <==> forall|k: int|
            0 <= k < loans.len() ==> !takes_whole(
                o,
                (#[trigger] loans[k]).place,
                loans[k].kind == LoanKind::Mut,
            ),
{
    match o {
        OperandV::Copy(x) => lemma_read_free(x, loans, locals),
        OperandV::Move(x) => lemma_exclusive_free(x, loans, locals, "move"@),
        _ => {},
    }
}

/// A terminator is complained about exactly where it was never set or does what a borrow
/// that is in force excludes.
pub proof fn lemma_term_exact(t: TermV, loans: Seq<LoanV>, locals: Seq<LocalV>)
    ensures
        term_error(t, loans, locals) is None <==> t !is Placeholder && forall|k: int|
            0 <= k < loans.len() ==> !term_touches(
                t,
                (#[trigger] loans[k]).place,
                loans[k].kind == LoanKind::Mut,
            ),
{
    match t {
        TermV::If { cond, .. } => lemma_operand_exact(cond, loans, locals),
        TermV::Switch { discr, .. } => lemma_operand_exact(discr, loans, locals),
        TermV::Return(v) => {
            if v is Some {
                lemma_operand_exact(v->0, loans, locals);
            }
        },
        _ => {},
    }
}

// Which borrows are in force.

/// Whether a statement borrows `place` and puts the reference into variable `x`.
pub open spec fn borrows(s: StmtV, x: usize, place: PlaceV, mutable: bool) -> bool {
    s matches StmtV::Assign { dest, value } && value == (RvalueV::Ref { mutable, place }) && bottom(
        dest,
    ).base_id == x
}

/// Whether place `j1` of block `b1` comes before place `j2` of block `b2` on some way that
/// control can take.
pub open spec fn comes_before(blocks: Seq<BlockV>, b1: int, j1: int, b2: int, j2: int) -> bool {
    b1 == b2 && j1 < j2 || follows(blocks, b1, b2)
}

/// Whether what variable `x` refers to is still needed at place `j` of block `b`: the
/// statement there, or what comes after it, may read the variable, and the statement does
/// not make it a new reference.
pub open spec fn needed(blocks: Seq<BlockV>, b: int, j: int, x: usize) -> bool {
    if j < blocks[b].stmts.len() {
        let s = blocks[b].stmts[j];
        &&& reads_var(s, x) || read_on(blocks, b, j + 1, x)
        &&& !exists|place: PlaceV, mutable: bool| #[trigger] borrows(s, x, place, mutable)
    } else {
        read_on(blocks, b, j, x)
    }
}

/// Whether what stands at place `j2` of block `b2` does what the borrow at place `j1` of
/// block `b1` excludes, while that borrow is in force.
pub open spec fn clash(blocks: Seq<BlockV>, b1: int, j1: int, b2: int, j2: int) -> bool {
    &&& 0 <= b1 < blocks.len() && 0 <= j1 < blocks[b1].stmts.len()
    &&& 0 <= b2 < blocks.len() && 0 <= j2 <= blocks[b2].stmts.len()
    &&& comes_before(blocks, b1, j1, b2, j2)
    &&& exists|x: usize, place: PlaceV, mutable: bool|
        {
            &&& #[trigger] borrows(blocks[b1].stmts[j1], x, place, mutable)
            &&& needed(blocks, b2, j2, x)
            &&& if j2 < blocks[b2].stmts.len() {
                touches(blocks[b2].stmts[j2], place, mutable)
            } else {
                term_touches(blocks[b2].terminator, place, mutable)
            }
        }
}

proof fn lemma_stmts_loan_from(stmts: Seq<StmtV>, b: int, n: int, l: LoanV)
    requires
        0 <= n <= stmts.len(),
        stmts_loans(stmts, b, n).contains(l),
    ensures
        l.block == b,
        0 <= l.index < n,
        loan_of(stmts[l.index], b, l.index) == Some(l),
    decreases n,
{
    let all = stmts_loans(stmts, b, n);
    if n > 0 {
        let before = stmts_loans(stmts, b, n - 1);
        if before.contains(l) {
            lemma_stmts_loan_from(stmts, b, n - 1, l);
        } else {
            let i = choose|i: int| 0 <= i < all.len() && all[i] == l;
            if i < before.len() {
                assert(before[i] == l);
            }
        }
    }
}

proof fn lemma_loan_from(blocks: Seq<BlockV>, n: int, l: LoanV)
    requires
        0 <= n <= blocks.len(),
        blocks_loans(blocks, n).contains(l),
    ensures
        0 <= l.block < n,
        0 <= l.index < blocks[l.block].stmts.len(),
        loan_of(blocks[l.block].stmts[l.index], l.block, l.index) == Some(l),
    decreases n,
{
    if n > 0 {
        let all = blocks_loans(blocks, n);
        let before = blocks_loans(blocks, n - 1);
        let stmts = blocks[n - 1].stmts;
        let mine = stmts_loans(stmts, n - 1, stmts.len() as int);
        if before.contains(l) {
            lemma_loan_from(blocks, n - 1, l);
        } else {
            let i = choose|i: int| 0 <= i < all.len() && all[i] == l;
            if i < before.len() {
                assert(before[i] == l);
            } else {
                assert(mine[i - before.len()] == l);
            }
            lemma_stmts_loan_from(stmts, n - 1, stmts.len() as int, l);
        }
    }
}

proof fn lemma_needed(blocks: Seq<BlockV>, b: int, j: int, x: usize)
    requires
        0 <= b < blocks.len(),
        0 <= j <= blocks[b].stmts.len(),
    ensures
        j < blocks[b].stmts.len() ==> (holders_at(blocks, b, j).contains(x) <==> needed(
            blocks,
            b,
            j,
            x,
        )),
        j == blocks[b].stmts.len() ==> (live_at_end(blocks[b], live_out(blocks, b)).contains(x)
            <==> needed(blocks, b, j, x)),
{
    if j < blocks[b].stmts.len() {
        let s = blocks[b].stmts[j];
        lemma_live_exact(blocks, b, j + 1, x);
        lemma_uses_exact(s, x);
        match s {
            StmtV::Assign { dest, value: RvalueV::Ref { mutable, place } } => {
                lemma_root_bottom(dest);
                assert(borrows(s, bottom(dest).base_id, place, mutable));
            },
            _ => {},
        }
    } else {
        lemma_live_exact(blocks, b, j, x);
    }
}

proof fn lemma_in_force(blocks: Seq<BlockV>, b: int, j: int, vars: Set<usize>)
    requires
        0 <= b < blocks.len(),
        0 <= j <= blocks[b].stmts.len(),
        forall|x: usize| #[trigger] vars.contains(x) <==> needed(blocks, b, j, x),
    ensures
        ({
            let loans = loans_held(
                blocks,
                blocks_loans(blocks, blocks.len() as int),
                vars,
                b,
                j,
            );
            (exists|k: int|
                0 <= k < loans.len() && (if j < blocks[b].stmts.len() {
                    touches(
                        blocks[b].stmts[j],
                        (#[trigger] loans[k]).place,
                        loans[k].kind == LoanKind::Mut,
                    )
                } else {
                    term_touches(
                        blocks[b].terminator,
                        loans[k].place,
                        loans[k].kind == LoanKind::Mut,
                    )
                })) <==> exists|b1: int, j1: int| #[trigger] clash(blocks, b1, j1, b, j)
        }),
{
    let all = blocks_loans(blocks, blocks.len() as int);
    let loans = loans_held(blocks, all, vars, b, j);
    if exists|b1: int, j1: int| #[trigger] clash(blocks, b1, j1, b, j) {
        let (b1, j1) = choose|b1: int, j1: int| #[trigger] clash(blocks, b1, j1, b, j);
        let s1 = blocks[b1].stmts[j1];
        let (x, place, mutable) = choose|x: usize, place: PlaceV, mutable: bool|
            {
                &&& #[trigger] borrows(s1, x, place, mutable)
                &&& needed(blocks, b, j, x)
                &&& if j < blocks[b].stmts.len() {
                    touches(blocks[b].stmts[j], place, mutable)
                } else {
                    term_touches(blocks[b].terminator, place, mutable)
                }
            };
        lemma_root_bottom(s1->Assign_dest);
        let l = loan_of(s1, b1, j1)->0;
        lemma_loan_in_blocks(blocks, blocks.len() as int, b1, j1);
        lemma_held(blocks, all, vars, b, j, l);
        assert(vars.contains(x));
        let k = choose|k: int| 0 <= k < loans.len() && loans[k] == l;
        assert(loans[k].place == place);
    }
    if exists|k: int|
        0 <= k < loans.len() && (if j < blocks[b].stmts.len() {
            touches(
                blocks[b].stmts[j],
                (#[trigger] loans[k]).place,
                loans[k].kind == LoanKind::Mut,
            )
        } else {
            term_touches(blocks[b].terminator, loans[k].place, loans[k].kind == LoanKind::Mut)
        }) {
        let k = choose|k: int|
            0 <= k < loans.len() && (if j < blocks[b].stmts.len() {
                touches(
                    blocks[b].stmts[j],
                    (#[trigger] loans[k]).place,
                    loans[k].kind == LoanKind::Mut,
                )
            } else {
                term_touches(blocks[b].terminator, loans[k].place, loans[k].kind == LoanKind::Mut)
            });
        let l = loans[k];
        assert(loans.contains(l));
        lemma_held(blocks, all, vars, b, j, l);
        lemma_loan_from(blocks, blocks.len() as int, l);
        let s1 = blocks[l.block].stmts[l.index];
        lemma_root_bottom(s1->Assign_dest);
        assert(borrows(s1, l.borrow_var, l.place, l.kind == LoanKind::Mut));
        assert(clash(blocks, l.block, l.index, b, j));
    }
}

proof fn lemma_stmts_clear(body: BodyV, b: int, n: int)
    requires
        0 <= b < body.blocks.len(),
        0 <= n <= body.blocks[b].stmts.len(),
    ensures
        stmts_conflict(body, b, n) is None <==> forall|b1: int, j1: int, j: int|
            0 <= j < n ==> !#[trigger] clash(body.blocks, b1, j1, b, j),
    decreases n,
{
    if n > 0 {
        let blocks = body.blocks;
        let j = n - 1;
        lemma_stmts_clear(body, b, j);
        let vars = holders_at(blocks, b, j);
        let loans = loans_held(blocks, blocks_loans(blocks, blocks.len() as int), vars, b, j);
        assert forall|x: usize| #[trigger] vars.contains(x) <==> needed(blocks, b, j, x) by {
            lemma_needed(blocks, b, j, x);
        }
        lemma_in_force(blocks, b, j, vars);
        lemma_stmt_exact(blocks[b].stmts[j], loans, body.locals);
    }
}

/// A body has no conflict exactly where every terminator was set and nothing in it does
/// what a borrow excludes while that borrow is in force: after the borrow was made, and
/// while the variable that holds the reference may still be read.
pub proof fn lemma_conflict_exact(body: BodyV, n: int)
    requires
        0 <= n <= body.blocks.len(),
    ensures
        conflict(body, n) is None <==> (forall|b: int|
            0 <= b < n ==> (#[trigger] body.blocks[b]).terminator !is Placeholder) && (forall|
            b1: int,
            j1: int,
            b2: int,
            j2: int,
        |
            0 <= b2 < n ==> !#[trigger] clash(body.blocks, b1, j1, b2, j2)),
    decreases n,
{
    if n > 0 {
        let blocks = body.blocks;
        let b = n - 1;
        let j = blocks[b].stmts.len() as int;
        lemma_conflict_exact(body, b);
        lemma_stmts_clear(body, b, j);
        let vars = live_at_end(blocks[b], live_out(blocks, b));
        let loans = loans_held(blocks, blocks_loans(blocks, blocks.len() as int), vars, b, j);
        assert forall|x: usize| #[trigger] vars.contains(x) <==> needed(blocks, b, j, x) by {
            lemma_needed(blocks, b, j, x);
        }
        lemma_in_force(blocks, b, j, vars);
        lemma_term_exact(blocks[b].terminator, loans, body.locals);
    }
}

/// In a body that passes the check, no statement evaluates an operand that overlaps what
/// is mutably borrowed, while the borrow is in force.
pub proof fn lemma_operands_apart(
    body: BodyV,
    b1: int,
    j1: int,
    b2: int,
    j2: int,
    x: usize,
    place: PlaceV,
    operand: OperandV,
    read: PlaceV,
)
    requires
        conflict(body, body.blocks.len() as int) is None,
        0 <= b1 < body.blocks.len(),
        0 <= j1 < body.blocks[b1].stmts.len(),
        0 <= b2 < body.blocks.len(),
        0 <= j2 < body.blocks[b2].stmts.len(),
        borrows(body.blocks[b1].stmts[j1], x, place, true),
        comes_before(body.blocks, b1, j1, b2, j2),
        needed(body.blocks, b2, j2, x),
        operand == OperandV::Copy(read) || operand == OperandV::Move(read),
        match body.blocks[b2].stmts[j2] {
            StmtV::Assign { value, .. } => evaluates(value, operand),
            StmtV::ExprStmt(value) => evaluates(value, operand),
            _ => false,
        },
    ensures
        !overlap(read, place),
{
    lemma_conflict_exact(body, body.blocks.len() as int);
    assert(!clash(body.blocks, b1, j1, b2, j2));
    if overlap(read, place) {
        let s = body.blocks[b2].stmts[j2];
        let value = match s {
            StmtV::Assign { value, .. } => value,
            StmtV::ExprStmt(value) => value,
            _ => arbitrary(),
        };
        assert(value_takes(value, place, true));
        assert(touches(s, place, true));
        assert(borrows(body.blocks[b1].stmts[j1], x, place, true));
        assert(clash(body.blocks, b1, j1, b2, j2));
    }
}

} // verus!
