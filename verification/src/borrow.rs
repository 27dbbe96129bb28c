//! The borrow checker: initialisation, and conflicts between accesses and loans
//! that are still in use.

use vstd::prelude::*;

use crate::cfg::blocks_after;
use crate::cfg::follows;
use crate::idset::IdSet;
use crate::init::{get_var_name, init_check, place_base_id};
use crate::init::{init_error, root_of, var_name};
use crate::liveness::{compute_liveness, stmt_uses, term_uses};
use crate::liveness::{live_after, live_at_end, live_out, uses_of};
use crate::mir::{BlockV, BodyV, FnV, LocalV, OperandV, PlaceV, RvalueV, StmtV, TermV};
use crate::mir::{
    MirBlock, MirBody, MirFn, MirLocal, MirOperand, MirPlace, MirProgram, MirRvalue, MirStmt,
    MirTerminator,
};
use crate::text::{cat, cat3};
use crate::uses::rvalue_operands;

verus! {

/// The borrow checker.
pub struct BorrowChecker;

/// How a loan borrows.
#[derive(Clone, Copy, Debug, PartialEq, Eq, Structural)]
pub enum LoanKind {
    Shared,
    Mut,
}

/// A borrow: the variable that holds the reference, what it borrows, how, and the block
/// and statement that create it.
pub struct Loan {
    borrow_var: usize,
    place: MirPlace,
    kind: LoanKind,
    block: usize,
    index: usize,
}

/// Model of a `Loan`.
pub struct LoanV {
    pub borrow_var: usize,
    pub place: PlaceV,
    pub kind: LoanKind,
    pub block: int,
    pub index: int,
}

impl DeepView for Loan {
    type V = LoanV;

    closed spec fn deep_view(&self) -> LoanV {
        LoanV {
            borrow_var: self.borrow_var,
            place: self.place.deep_view(),
            kind: self.kind,
            block: self.block as int,
            index: self.index as int,
        }
    }
}

/// One step from a place to a part of it.
pub enum ProjV {
    Field(Seq<char>),
    Deref,
    Opaque,
}

/// The steps from the root variable to the place.
pub open spec fn steps_of(p: PlaceV) -> Seq<ProjV>
    decreases p,
{
    match p {
        PlaceV::Ssa(_) => Seq::empty(),
        PlaceV::Field { base, field } => steps_of(*base).push(ProjV::Field(field)),
        PlaceV::Index { base, .. } => steps_of(*base).push(ProjV::Opaque),
        PlaceV::Deref(base) => steps_of(*base).push(ProjV::Deref),
        PlaceV::EnumPayload { base, .. } => steps_of(*base).push(ProjV::Opaque),
    }
}

/// Whether two ways down from one root may lead to a common part: they do unless
/// they part at two different fields.
pub open spec fn steps_meet(a: Seq<ProjV>, b: Seq<ProjV>) -> bool
    decreases a.len(),
{
    if a.len() == 0 || b.len() == 0 {
        true
    } else {
        match (a[0], b[0]) {
            (ProjV::Field(x), ProjV::Field(y)) => x == y && steps_meet(
                a.drop_first(),
                b.drop_first(),
            ),
            _ => true,
        }
    }
}

/// Whether two places may overlap.
pub open spec fn overlap(a: PlaceV, b: PlaceV) -> bool {
    root_of(a) == root_of(b) && steps_meet(steps_of(a), steps_of(b))
}

/// How a place reads in a message.
pub open spec fn place_text(p: PlaceV, locals: Seq<LocalV>) -> Seq<char>
    decreases p,
{
    match p {
        PlaceV::Ssa(s) => var_name(locals, s.base_id),
        PlaceV::Field { base, field } => place_text(*base, locals) + "."@ + field,
        PlaceV::Index { base, .. } => place_text(*base, locals) + "[..]"@,
        PlaceV::Deref(base) => "*"@ + place_text(*base, locals),
        PlaceV::EnumPayload { base, .. } => place_text(*base, locals) + ".payload"@,
    }
}

/// How a loan kind reads in a message.
pub open spec fn kind_text(k: LoanKind) -> Seq<char> {
    match k {
        LoanKind::Shared => "shared(immutably)"@,
        LoanKind::Mut => "mutably"@,
    }
}

/// The complaint about reading a place, if there is one: the first mutable loan
/// that overlaps it.
pub open spec fn read_error(p: PlaceV, loans: Seq<LoanV>, locals: Seq<LocalV>) -> Option<Seq<char>>
    decreases loans.len(),
{
    if loans.len() == 0 {
        None
    } else if loans[0].kind == LoanKind::Mut && overlap(p, loans[0].place) {
        Some(
            "cannot read `"@ + place_text(p, locals) + "` because it is mutably borrowed as `"@
                + var_name(locals, loans[0].borrow_var) + "`"@,
        )
    } else {
        read_error(p, loans.drop_first(), locals)
    }
}

/// The complaint about an access that excludes every loan, if there is one: the
/// first loan that overlaps the place.
pub open spec fn exclusive_error(
    p: PlaceV,
    loans: Seq<LoanV>,
    locals: Seq<LocalV>,
    action: Seq<char>,
) -> Option<Seq<char>>
    decreases loans.len(),
{
    if loans.len() == 0 {
        None
    } else if overlap(p, loans[0].place) {
        Some(
            "cannot "@ + action + " `"@ + place_text(p, locals) + "` because it is "@ + kind_text(
                loans[0].kind,
            ) + " borrowed as `"@ + var_name(locals, loans[0].borrow_var) + "`"@,
        )
    } else {
        exclusive_error(p, loans.drop_first(), locals, action)
    }
}

/// The complaint about borrowing a place, if there is one: the first loan that
/// overlaps it, mutable loans only where the new borrow is shared.
pub open spec fn borrow_error(
    p: PlaceV,
    mutable: bool,
    loans: Seq<LoanV>,
    locals: Seq<LocalV>,
) -> Option<Seq<char>>
    decreases loans.len(),
{
    if loans.len() == 0 {
        None
    } else if overlap(p, loans[0].place) && mutable {
        Some(
            "cannot mutably borrow `"@ + place_text(p, locals) + "` because it is already "@
                + kind_text(loans[0].kind) + " borrowed as `"@ + var_name(
                locals,
                loans[0].borrow_var,
            ) + "`"@,
        )
    } else if overlap(p, loans[0].place) && loans[0].kind == LoanKind::Mut {
        Some(
            "cannot shared-borrow `"@ + place_text(p, locals)
                + "` because it is mutably borrowed as `"@ + var_name(locals, loans[0].borrow_var)
                + "`"@,
        )
    } else {
        borrow_error(p, mutable, loans.drop_first(), locals)
    }
}

/// The places that evaluating an operand copies and moves out of, index operands
/// inside a place before the place itself.
pub open spec fn operand_places(o: OperandV) -> (Seq<PlaceV>, Seq<PlaceV>)
    decreases o,
{
    match o {
        OperandV::Copy(p) => {
            let (c, m) = index_places(p);
            (c.push(p), m)
        },
        OperandV::Move(p) => {
            let (c, m) = index_places(p);
            (c, m.push(p))
        },
        _ => (Seq::empty(), Seq::empty()),
    }
}

/// The places that the index operands inside a place copy and move out of.
pub open spec fn index_places(p: PlaceV) -> (Seq<PlaceV>, Seq<PlaceV>)
    decreases p,
{
    match p {
        PlaceV::Ssa(_) => (Seq::empty(), Seq::empty()),
        PlaceV::Field { base, .. } => index_places(*base),
        PlaceV::Index { base, index } => {
            let (c1, m1) = index_places(*base);
            let (c2, m2) = operand_places(*index);
            (c1 + c2, m1 + m2)
        },
        PlaceV::Deref(base) => index_places(*base),
        PlaceV::EnumPayload { base, .. } => index_places(*base),
    }
}

/// The places that the operands copy and move out of.
pub open spec fn operands_places(ops: Seq<OperandV>) -> (Seq<PlaceV>, Seq<PlaceV>)
    decreases ops.len(),
{
    if ops.len() == 0 {
        (Seq::empty(), Seq::empty())
    } else {
        let (c1, m1) = operands_places(ops.drop_last());
        let (c2, m2) = operand_places(ops.last());
        (c1 + c2, m1 + m2)
    }
}

/// The places that evaluating a right-hand side copies and moves out of.
pub open spec fn rvalue_reads(rv: RvalueV) -> (Seq<PlaceV>, Seq<PlaceV>) {
    match rv {
        RvalueV::Ref { place, .. } => index_places(place),
        _ => operands_places(rvalue_operands(rv)),
    }
}

/// The first complaint about reading one of the places.
pub open spec fn reads_error(ps: Seq<PlaceV>, loans: Seq<LoanV>, locals: Seq<LocalV>) -> Option<
    Seq<char>,
>
    decreases ps.len(),
{
    if ps.len() == 0 {
        None
    } else {
        match read_error(ps[0], loans, locals) {
            Some(e) => Some(e),
            None => reads_error(ps.drop_first(), loans, locals),
        }
    }
}

/// The first complaint about moving out of one of the places.
pub open spec fn moves_error(ps: Seq<PlaceV>, loans: Seq<LoanV>, locals: Seq<LocalV>) -> Option<
    Seq<char>,
>
    decreases ps.len(),
{
    if ps.len() == 0 {
        None
    } else {
        match exclusive_error(ps[0], loans, locals, "move"@) {
            Some(e) => Some(e),
            None => moves_error(ps.drop_first(), loans, locals),
        }
    }
}

/// The first of two complaints.
pub open spec fn or_else(a: Option<Seq<char>>, b: Option<Seq<char>>) -> Option<Seq<char>> {
    match a {
        Some(e) => Some(e),
        None => b,
    }
}

/// The complaint about evaluating a right-hand side.
pub open spec fn rvalue_error(rv: RvalueV, loans: Seq<LoanV>, locals: Seq<LocalV>) -> Option<
    Seq<char>,
> {
    let (copies, moves) = rvalue_reads(rv);
    or_else(reads_error(copies, loans, locals), moves_error(moves, loans, locals))
}

/// The complaint about a statement, given the loans in use.
pub open spec fn stmt_error(s: StmtV, loans: Seq<LoanV>, locals: Seq<LocalV>) -> Option<Seq<char>> {
    match s {
        StmtV::Assign { dest, value } => or_else(
            rvalue_error(value, loans, locals),
            or_else(
                match value {
                    RvalueV::Ref { mutable, place } => borrow_error(place, mutable, loans, locals),
                    _ => None,
                },
                exclusive_error(dest, loans, locals, "write"@),
            ),
        ),
        StmtV::ExprStmt(value) => rvalue_error(value, loans, locals),
        StmtV::Drop { place } => exclusive_error(place, loans, locals, "drop"@),
        _ => None,
    }
}

/// The complaint about an operand of a terminator.
pub open spec fn operand_error(o: OperandV, loans: Seq<LoanV>, locals: Seq<LocalV>) -> Option<
    Seq<char>,
> {
    match o {
        OperandV::Copy(p) => read_error(p, loans, locals),
        OperandV::Move(p) => exclusive_error(p, loans, locals, "move"@),
        _ => None,
    }
}

/// The complaint about a terminator that was never set.
pub open spec fn placeholder_message() -> Seq<char> {
    "internal error: block terminator is still Placeholder at borrow-check time (mir_builder.rs 某条路径构建完没有给这个块设置真正的终止器)"@
}

/// The complaint about a terminator, given the loans in use.
pub open spec fn term_error(t: TermV, loans: Seq<LoanV>, locals: Seq<LocalV>) -> Option<Seq<char>> {
    match t {
        TermV::Goto(_) | TermV::Unreachable => None,
        TermV::If { cond, .. } => operand_error(cond, loans, locals),
        TermV::Return(Some(o)) => operand_error(o, loans, locals),
        TermV::Return(None) => None,
        TermV::Switch { discr, .. } => operand_error(discr, loans, locals),
        TermV::Placeholder => Some(placeholder_message()),
    }
}

/// The loan that statement `j` of block `b` creates, if it creates one.
pub open spec fn loan_of(s: StmtV, b: int, j: int) -> Option<LoanV> {
    match s {
        StmtV::Assign { dest, value: RvalueV::Ref { mutable, place } } => Some(
            LoanV {
                borrow_var: root_of(dest),
                place,
                kind: if mutable {
                    LoanKind::Mut
                } else {
                    LoanKind::Shared
                },
                block: b,
                index: j,
            },
        ),
        _ => None,
    }
}

/// The loans of the first `n` statements of block `b`, in order.
pub open spec fn stmts_loans(stmts: Seq<StmtV>, b: int, n: int) -> Seq<LoanV>
    decreases n,
{
    if n <= 0 {
        Seq::empty()
    } else {
        match loan_of(stmts[n - 1], b, n - 1) {
            Some(l) => stmts_loans(stmts, b, n - 1).push(l),
            None => stmts_loans(stmts, b, n - 1),
        }
    }
}

/// The loans of the first `n` blocks, in order.
pub open spec fn blocks_loans(blocks: Seq<BlockV>, n: int) -> Seq<LoanV>
    decreases n,
{
    if n <= 0 {
        Seq::empty()
    } else {
        blocks_loans(blocks, n - 1) + stmts_loans(
            blocks[n - 1].stmts,
            n - 1,
            blocks[n - 1].stmts.len() as int,
        )
    }
}

/// Whether control can come to place `j` of block `b` after the loan was created; the
/// terminator comes after the statements.
pub open spec fn created_before(blocks: Seq<BlockV>, l: LoanV, b: int, j: int) -> bool {
    l.block == b && l.index < j || follows(blocks, l.block, b)
}

/// The loans that count at place `j` of block `b`, in order: those whose variable is in
/// `vars`, once they were created.
pub open spec fn loans_held(
    blocks: Seq<BlockV>,
    loans: Seq<LoanV>,
    vars: Set<usize>,
    b: int,
    j: int,
) -> Seq<LoanV>
    decreases loans.len(),
{
    if loans.len() == 0 {
        Seq::empty()
    } else {
        let front = loans_held(blocks, loans.drop_last(), vars, b, j);
        if vars.contains(loans.last().borrow_var) && created_before(blocks, loans.last(), b, j) {
            front.push(loans.last())
        } else {
            front
        }
    }
}

/// The variables whose loans count at statement `j` of block `b`: those still
/// read later or by the statement itself, but not the variable that the
/// statement gives a new borrow.
pub open spec fn holders_at(blocks: Seq<BlockV>, b: int, j: int) -> Set<usize> {
    let s = blocks[b].stmts[j];
    let vars = live_after(blocks, b, j).union(uses_of(s));
    match s {
        StmtV::Assign { dest, value: RvalueV::Ref { .. } } => vars.remove(root_of(dest)),
        _ => vars,
    }
}

/// The first complaint about the first `n` statements of block `b`.
pub open spec fn stmts_conflict(body: BodyV, b: int, n: int) -> Option<Seq<char>>
    decreases n,
{
    if n <= 0 {
        None
    } else {
        let loans = blocks_loans(body.blocks, body.blocks.len() as int);
        or_else(
            stmts_conflict(body, b, n - 1),
            stmt_error(
                body.blocks[b].stmts[n - 1],
                loans_held(body.blocks, loans, holders_at(body.blocks, b, n - 1), b, n - 1),
                body.locals,
            ),
        )
    }
}

/// The first complaint about the first `n` blocks.
pub open spec fn conflict(body: BodyV, n: int) -> Option<Seq<char>>
    decreases n,
{
    if n <= 0 {
        None
    } else {
        let b = n - 1;
        let loans = blocks_loans(body.blocks, body.blocks.len() as int);
        or_else(
            conflict(body, n - 1),
            or_else(
                stmts_conflict(body, b, body.blocks[b].stmts.len() as int),
                term_error(
                    body.blocks[b].terminator,
                    loans_held(
                        body.blocks,
                        loans,
                        live_at_end(body.blocks[b], live_out(body.blocks, b)),
                        b,
                        body.blocks[b].stmts.len() as int,
                    ),
                    body.locals,
                ),
            ),
        )
    }
}

/// The complaint about a function: initialisation first, then conflicts.
pub open spec fn fn_error(f: FnV) -> Option<Seq<char>> {
    if f.body.blocks.len() == 0 {
        None
    } else {
        or_else(init_error(f.body), conflict(f.body, f.body.blocks.len() as int))
    }
}

/// The complaint about the first `n` functions.
pub open spec fn fns_error(fns: Seq<FnV>, n: int) -> Option<Seq<char>>
    decreases n,
{
    if n <= 0 {
        None
    } else {
        or_else(fns_error(fns, n - 1), fn_error(fns[n - 1]))
    }
}

/// The complaint that a result carries.
pub open spec fn complaint(r: Result<(), String>) -> Option<Seq<char>> {
    match r {
        Ok(_) => None,
        Err(e) => Some(e@),
    }
}

impl BorrowChecker {
    /// Whether two places may overlap.
    pub fn places_overlap(a: &MirPlace, b: &MirPlace) -> (r: bool)
        ensures
            r == overlap(a.deep_view(), b.deep_view()),
    {
        if place_base_id(a) != place_base_id(b) {
            return false;
        }
        let pa = flatten(a);
        let pb = flatten(b);
        let ghost sa = steps_of(a.deep_view());
        let ghost sb = steps_of(b.deep_view());
        let mut i: usize = 0;
        assert(sa.skip(0) =~= sa && sb.skip(0) =~= sb);
        while i < pa.len() && i < pb.len()
            invariant
                i <= pa.len(),
                i <= pb.len(),
                sa == pa.deep_view(),
                sb == pb.deep_view(),
                root_of(a.deep_view()) == root_of(b.deep_view()),
                sa == steps_of(a.deep_view()),
                sb == steps_of(b.deep_view()),
                steps_meet(sa, sb) == steps_meet(sa.skip(i as int), sb.skip(i as int)),
            decreases pa.len() - i,
        {
            proof {
                assert(sa.skip(i as int)[0] == pa@[i as int].deep_view());
                assert(sb.skip(i as int)[0] == pb@[i as int].deep_view());
                assert(sa.skip(i as int).drop_first() =~= sa.skip(i + 1));
                assert(sb.skip(i as int).drop_first() =~= sb.skip(i + 1));
            }
            match (&pa[i], &pb[i]) {
                (Proj::Field(x), Proj::Field(y)) => {
                    if *x != *y {
                        return false;
                    }
                },
                _ => {
                    return true;
                },
            }
            i = i + 1;
        }
        true
    }
}

/// One step from a place to a part of it.
pub enum Proj {
    Field(String),
    Deref,
    Opaque,
}

impl DeepView for Proj {
    type V = ProjV;

    open spec fn deep_view(&self) -> ProjV {
        match *self {
            Proj::Field(s) => ProjV::Field(s@),
            Proj::Deref => ProjV::Deref,
            Proj::Opaque => ProjV::Opaque,
        }
    }
}

/// The steps from the root variable to the place.
fn flatten(place: &MirPlace) -> (r: Vec<Proj>)
    ensures
        r.deep_view() == steps_of(place.deep_view()),
    decreases place,
{
    match place {
        MirPlace::Ssa(_) => {
            let r: Vec<Proj> = Vec::new();
            assert(r.deep_view() =~= Seq::empty());
            r
        },
        MirPlace::Field { base, field } => {
            let mut ps = flatten(base);
            let ghost p0 = ps.deep_view();
            ps.push(Proj::Field(field.clone()));
            assert(ps.deep_view() =~= p0.push(ProjV::Field(field@)));
            ps
        },
        MirPlace::Index { base, .. } => {
            let mut ps = flatten(base);
            let ghost p0 = ps.deep_view();
            ps.push(Proj::Opaque);
            assert(ps.deep_view() =~= p0.push(ProjV::Opaque));
            ps
        },
        MirPlace::Deref(base) => {
            let mut ps = flatten(base);
            let ghost p0 = ps.deep_view();
            ps.push(Proj::Deref);
            assert(ps.deep_view() =~= p0.push(ProjV::Deref));
            ps
        },
        MirPlace::EnumPayload { base, .. } => {
            let mut ps = flatten(base);
            let ghost p0 = ps.deep_view();
            ps.push(Proj::Opaque);
            assert(ps.deep_view() =~= p0.push(ProjV::Opaque));
            ps
        },
    }
}


/// How a place reads in a message.
fn describe_place(place: &MirPlace, locals: &Vec<MirLocal>) -> (r: String)
    ensures
        r@ == place_text(place.deep_view(), locals.deep_view()),
    decreases place,
{
    match place {
        MirPlace::Ssa(s) => get_var_name(locals, s.base_id),
        MirPlace::Field { base, field } => cat3(
            describe_place(base, locals).as_str(),
            ".",
            field.as_str(),
        ),
        MirPlace::Index { base, .. } => cat(describe_place(base, locals).as_str(), "[..]"),
        MirPlace::Deref(base) => cat("*", describe_place(base, locals).as_str()),
        MirPlace::EnumPayload { base, .. } => cat(
            describe_place(base, locals).as_str(),
            ".payload",
        ),
    }
}

/// How a loan kind reads in a message.
fn describe_kind(kind: LoanKind) -> (r: String)
    ensures
        r@ == kind_text(kind),
{
    match kind {
        LoanKind::Shared => "shared(immutably)".to_owned(),
        LoanKind::Mut => "mutably".to_owned(),
    }
}

fn clone_loan(l: &Loan) -> (r: Loan)
    ensures
        r.deep_view() == l.deep_view(),
{
    Loan {
        borrow_var: l.borrow_var,
        place: l.place.clone(),
        kind: l.kind,
        block: l.block,
        index: l.index,
    }
}

/// Adds the places that an operand copies and moves out of.
fn operand_place(op: &MirOperand, copies: &mut Vec<MirPlace>, moves: &mut Vec<MirPlace>)
    ensures
        final(copies).deep_view() == old(copies).deep_view() + operand_places(op.deep_view()).0,
        final(moves).deep_view() == old(moves).deep_view() + operand_places(op.deep_view()).1,
    decreases op,
{
    let ghost c0 = copies.deep_view();
    let ghost m0 = moves.deep_view();
    match op {
        MirOperand::Copy(p) => {
            collect_nested_index_operands(p, copies, moves);
            let ghost c1 = copies.deep_view();
            copies.push(p.clone());
            assert(copies.deep_view() =~= c1.push(p.deep_view()));
            assert(copies.deep_view() =~= c0 + operand_places(op.deep_view()).0);
        },
        MirOperand::Move(p) => {
            collect_nested_index_operands(p, copies, moves);
            let ghost m1 = moves.deep_view();
            moves.push(p.clone());
            assert(moves.deep_view() =~= m1.push(p.deep_view()));
            assert(moves.deep_view() =~= m0 + operand_places(op.deep_view()).1);
        },
        _ => {
            assert(copies.deep_view() =~= c0 + operand_places(op.deep_view()).0);
            assert(moves.deep_view() =~= m0 + operand_places(op.deep_view()).1);
        },
    }
}

/// Adds the places that the index operands inside a place copy and move out of.
fn collect_nested_index_operands(
    place: &MirPlace,
    copies: &mut Vec<MirPlace>,
    moves: &mut Vec<MirPlace>,
)
    ensures
        final(copies).deep_view() == old(copies).deep_view() + index_places(place.deep_view()).0,
        final(moves).deep_view() == old(moves).deep_view() + index_places(place.deep_view()).1,
    decreases place,
{
    let ghost c0 = copies.deep_view();
    let ghost m0 = moves.deep_view();
    match place {
        MirPlace::Ssa(_) => {},
        MirPlace::Field { base, .. } => collect_nested_index_operands(base, copies, moves),
        MirPlace::Index { base, index } => {
            collect_nested_index_operands(base, copies, moves);
            operand_place(index, copies, moves);
        },
        MirPlace::Deref(base) => collect_nested_index_operands(base, copies, moves),
        MirPlace::EnumPayload { base, .. } => collect_nested_index_operands(base, copies, moves),
    }
    assert(copies.deep_view() =~= c0 + index_places(place.deep_view()).0);
    assert(moves.deep_view() =~= m0 + index_places(place.deep_view()).1);
}

/// Adds the places of operand `k` of a list to those of the operands before it.
fn add_operand(
    op: &MirOperand,
    copies: &mut Vec<MirPlace>,
    moves: &mut Vec<MirPlace>,
    Ghost(ops): Ghost<Seq<OperandV>>,
    Ghost(k): Ghost<int>,
)
    requires
        0 <= k < ops.len(),
        op.deep_view() == ops[k],
        old(copies).deep_view() == operands_places(ops.take(k)).0,
        old(moves).deep_view() == operands_places(ops.take(k)).1,
    ensures
        final(copies).deep_view() == operands_places(ops.take(k + 1)).0,
        final(moves).deep_view() == operands_places(ops.take(k + 1)).1,
{
    proof {
        assert(ops.take(k + 1).drop_last() =~= ops.take(k));
        assert(ops.take(k + 1).last() == ops[k]);
    }
    operand_place(op, copies, moves);
}

fn add_operands(ops: &Vec<MirOperand>, copies: &mut Vec<MirPlace>, moves: &mut Vec<MirPlace>)
    requires
        old(copies).deep_view() == Seq::<PlaceV>::empty(),
        old(moves).deep_view() == Seq::<PlaceV>::empty(),
    ensures
        final(copies).deep_view() == operands_places(ops.deep_view()).0,
        final(moves).deep_view() == operands_places(ops.deep_view()).1,
{
    let ghost ov = ops.deep_view();
    let mut i: usize = 0;
    while i < ops.len()
        invariant
            i <= ops.len(),
            ov == ops.deep_view(),
            copies.deep_view() == operands_places(ov.take(i as int)).0,
            moves.deep_view() == operands_places(ov.take(i as int)).1,
        decreases ops.len() - i,
    {
        assert(ov[i as int] == ops@[i as int].deep_view());
        add_operand(&ops[i], copies, moves, Ghost(ov), Ghost(i as int));
        i = i + 1;
    }
    assert(ov.take(i as int) =~= ov);
}

/// The places that a right-hand side copies and moves out of.
fn rvalue_places(rv: &MirRvalue) -> (r: (Vec<MirPlace>, Vec<MirPlace>))
    ensures
        r.0.deep_view() == rvalue_reads(rv.deep_view()).0,
        r.1.deep_view() == rvalue_reads(rv.deep_view()).1,
{
    let mut copies: Vec<MirPlace> = Vec::new();
    let mut moves: Vec<MirPlace> = Vec::new();
    let ghost ov = rvalue_operands(rv.deep_view());
    proof {
        assert(copies.deep_view() =~= Seq::<PlaceV>::empty());
        assert(moves.deep_view() =~= Seq::<PlaceV>::empty());
        assert(ov.take(0) =~= Seq::empty());
    }
    match rv {
        MirRvalue::Use(op) | MirRvalue::UnaryOp(_, op) | MirRvalue::Cast(op, _) => {
            add_operand(op, &mut copies, &mut moves, Ghost(ov), Ghost(0));
            assert(ov.take(1) =~= ov);
        },
        MirRvalue::Discriminant { value, .. } => {
            add_operand(value, &mut copies, &mut moves, Ghost(ov), Ghost(0));
            assert(ov.take(1) =~= ov);
        },
        MirRvalue::BinaryOp(_, l, r) => {
            add_operand(l, &mut copies, &mut moves, Ghost(ov), Ghost(0));
            add_operand(r, &mut copies, &mut moves, Ghost(ov), Ghost(1));
            assert(ov.take(2) =~= ov);
        },
        MirRvalue::Call { args, .. } => add_operands(args, &mut copies, &mut moves),
        MirRvalue::MethodCall { receiver, args, .. } => {
            add_operand(receiver, &mut copies, &mut moves, Ghost(ov), Ghost(0));
            let mut i: usize = 0;
            while i < args.len()
                invariant
                    i <= args.len(),
                    ov.len() == args.len() + 1,
                    forall|j: int| 0 <= j < args.len() ==> #[trigger] args@[j].deep_view() == ov[j + 1],
                    copies.deep_view() == operands_places(ov.take(i + 1)).0,
                    moves.deep_view() == operands_places(ov.take(i + 1)).1,
                decreases args.len() - i,
            {
                assert(args@[i as int].deep_view() == ov[i + 1]);
                add_operand(&args[i], &mut copies, &mut moves, Ghost(ov), Ghost(i + 1));
                i = i + 1;
            }
            assert(ov.take(i + 1) =~= ov);
        },
        MirRvalue::StructInit { fields, .. } => {
            let mut i: usize = 0;
            while i < fields.len()
                invariant
                    i <= fields.len(),
                    ov.len() == fields.len(),
                    forall|j: int| 0 <= j < fields.len() ==> #[trigger] ov[j] == fields@[j].1.deep_view(),
                    copies.deep_view() == operands_places(ov.take(i as int)).0,
                    moves.deep_view() == operands_places(ov.take(i as int)).1,
                decreases fields.len() - i,
            {
                assert(ov[i as int] == fields@[i as int].1.deep_view());
                add_operand(&fields[i].1, &mut copies, &mut moves, Ghost(ov), Ghost(i as int));
                i = i + 1;
            }
            assert(ov.take(i as int) =~= ov);
        },
        MirRvalue::EnumVariantConstruction { args, .. } => add_operands(
            args,
            &mut copies,
            &mut moves,
        ),
        MirRvalue::Ref { place, .. } => {
            collect_nested_index_operands(place, &mut copies, &mut moves);
            assert(copies.deep_view() =~= index_places(place.deep_view()).0);
            assert(moves.deep_view() =~= index_places(place.deep_view()).1);
        },
        MirRvalue::ArrayLiteral(elems) => add_operands(elems, &mut copies, &mut moves),
        MirRvalue::Phi { values } => {
            let mut i: usize = 0;
            while i < values.len()
                invariant
                    i <= values.len(),
                    ov.len() == values.len(),
                    forall|j: int| 0 <= j < values.len() ==> #[trigger] ov[j] == values@[j].1.deep_view(),
                    copies.deep_view() == operands_places(ov.take(i as int)).0,
                    moves.deep_view() == operands_places(ov.take(i as int)).1,
                decreases values.len() - i,
            {
                assert(ov[i as int] == values@[i as int].1.deep_view());
                add_operand(&values[i].1, &mut copies, &mut moves, Ghost(ov), Ghost(i as int));
                i = i + 1;
            }
            assert(ov.take(i as int) =~= ov);
        },
    }
    (copies, moves)
}

impl BorrowChecker {
    fn check_read(place: &MirPlace, active: &Vec<Loan>, locals: &Vec<MirLocal>) -> (r: Result<
        (),
        String,
    >)
        ensures
            complaint(r) == read_error(
                place.deep_view(),
                active.deep_view(),
                locals.deep_view(),
            ),
    {
        let ghost av = active.deep_view();
        let mut i: usize = 0;
        assert(av.skip(0) =~= av);
        while i < active.len()
            invariant
                i <= active.len(),
                av == active.deep_view(),
                read_error(place.deep_view(), av, locals.deep_view()) == read_error(
                    place.deep_view(),
                    av.skip(i as int),
                    locals.deep_view(),
                ),
            decreases active.len() - i,
        {
            assert(av.skip(i as int)[0] == active@[i as int].deep_view());
            let loan = &active[i];
            if loan.kind == LoanKind::Mut && Self::places_overlap(place, &loan.place) {
                let mut m = cat3(
                    "cannot read `",
                    describe_place(place, locals).as_str(),
                    "` because it is mutably borrowed as `",
                );
                m.append(get_var_name(locals, loan.borrow_var).as_str());
                m.append("`");
                return Err(m);
            }
            assert(av.skip(i as int).drop_first() =~= av.skip(i + 1));
            i = i + 1;
        }
        Ok(())
    }

    fn check_exclusive(
        place: &MirPlace,
        active: &Vec<Loan>,
        locals: &Vec<MirLocal>,
        action: &str,
    ) -> (r: Result<(), String>)
        ensures
            complaint(r) == exclusive_error(
                place.deep_view(),
                active.deep_view(),
                locals.deep_view(),
                action@,
            ),
    {
        let ghost av = active.deep_view();
        let mut i: usize = 0;
        assert(av.skip(0) =~= av);
        while i < active.len()
            invariant
                i <= active.len(),
                av == active.deep_view(),
                exclusive_error(place.deep_view(), av, locals.deep_view(), action@)
                    == exclusive_error(
                    place.deep_view(),
                    av.skip(i as int),
                    locals.deep_view(),
                    action@,
                ),
            decreases active.len() - i,
        {
            assert(av.skip(i as int)[0] == active@[i as int].deep_view());
            let loan = &active[i];
            if Self::places_overlap(place, &loan.place) {
                let mut m = cat3("cannot ", action, " `");
                m.append(describe_place(place, locals).as_str());
                m.append("` because it is ");
                m.append(describe_kind(loan.kind).as_str());
                m.append(" borrowed as `");
                m.append(get_var_name(locals, loan.borrow_var).as_str());
                m.append("`");
                return Err(m);
            }
            assert(av.skip(i as int).drop_first() =~= av.skip(i + 1));
            i = i + 1;
        }
        Ok(())
    }

    fn check_write(place: &MirPlace, active: &Vec<Loan>, locals: &Vec<MirLocal>) -> (r: Result<
        (),
        String,
    >)
        ensures
            complaint(r) == exclusive_error(
                place.deep_view(),
                active.deep_view(),
                locals.deep_view(),
                "write"@,
            ),
    {
        Self::check_exclusive(place, active, locals, "write")
    }

    fn check_move(place: &MirPlace, active: &Vec<Loan>, locals: &Vec<MirLocal>) -> (r: Result<
        (),
        String,
    >)
        ensures
            complaint(r) == exclusive_error(
                place.deep_view(),
                active.deep_view(),
                locals.deep_view(),
                "move"@,
            ),
    {
        Self::check_exclusive(place, active, locals, "move")
    }

    fn check_borrow_creation(
        place: &MirPlace,
        mutable: bool,
        active: &Vec<Loan>,
        locals: &Vec<MirLocal>,
    ) -> (r: Result<(), String>)
        ensures
            complaint(r) == borrow_error(
                place.deep_view(),
                mutable,
                active.deep_view(),
                locals.deep_view(),
            ),
    {
        let ghost av = active.deep_view();
        let mut i: usize = 0;
        assert(av.skip(0) =~= av);
        while i < active.len()
            invariant
                i <= active.len(),
                av == active.deep_view(),
                borrow_error(place.deep_view(), mutable, av, locals.deep_view()) == borrow_error(
                    place.deep_view(),
                    mutable,
                    av.skip(i as int),
                    locals.deep_view(),
                ),
            decreases active.len() - i,
        {
            assert(av.skip(i as int)[0] == active@[i as int].deep_view());
            let loan = &active[i];
            if Self::places_overlap(place, &loan.place) {
                if mutable {
                    let mut m = cat3(
                        "cannot mutably borrow `",
                        describe_place(place, locals).as_str(),
                        "` because it is already ",
                    );
                    m.append(describe_kind(loan.kind).as_str());
                    m.append(" borrowed as `");
                    m.append(get_var_name(locals, loan.borrow_var).as_str());
                    m.append("`");
                    return Err(m);
                } else if loan.kind == LoanKind::Mut {
                    let mut m = cat3(
                        "cannot shared-borrow `",
                        describe_place(place, locals).as_str(),
                        "` because it is mutably borrowed as `",
                    );
                    m.append(get_var_name(locals, loan.borrow_var).as_str());
                    m.append("`");
                    return Err(m);
                }
            }
            assert(av.skip(i as int).drop_first() =~= av.skip(i + 1));
            i = i + 1;
        }
        Ok(())
    }

    /// Checks what a right-hand side copies and moves out of.
    fn check_rvalue(value: &MirRvalue, active: &Vec<Loan>, locals: &Vec<MirLocal>) -> (r: Result<
        (),
        String,
    >)
        ensures
            complaint(r) == rvalue_error(
                value.deep_view(),
                active.deep_view(),
                locals.deep_view(),
            ),
    {
        let (copies, moves) = rvalue_places(value);
        let ghost cv = copies.deep_view();
        let ghost mv = moves.deep_view();
        let ghost av = active.deep_view();
        let ghost lv = locals.deep_view();
        let mut i: usize = 0;
        assert(cv.skip(0) =~= cv);
        while i < copies.len()
            invariant
                i <= copies.len(),
                cv == copies.deep_view(),
                av == active.deep_view(),
                lv == locals.deep_view(),
                rvalue_reads(value.deep_view()) == (cv, mv),
                reads_error(cv, av, lv) == reads_error(cv.skip(i as int), av, lv),
            decreases copies.len() - i,
        {
            assert(cv.skip(i as int)[0] == copies@[i as int].deep_view());
            if let Err(e) = Self::check_read(&copies[i], active, locals) {
                return Err(e);
            }
            assert(cv.skip(i as int).drop_first() =~= cv.skip(i + 1));
            i = i + 1;
        }
        let mut k: usize = 0;
        assert(mv.skip(0) =~= mv);
        while k < moves.len()
            invariant
                k <= moves.len(),
                mv == moves.deep_view(),
                av == active.deep_view(),
                lv == locals.deep_view(),
                rvalue_reads(value.deep_view()) == (cv, mv),
                reads_error(cv, av, lv) is None,
                moves_error(mv, av, lv) == moves_error(mv.skip(k as int), av, lv),
            decreases moves.len() - k,
        {
            assert(mv.skip(k as int)[0] == moves@[k as int].deep_view());
            if let Err(e) = Self::check_move(&moves[k], active, locals) {
                return Err(e);
            }
            assert(mv.skip(k as int).drop_first() =~= mv.skip(k + 1));
            k = k + 1;
        }
        Ok(())
    }

    fn check_stmt(stmt: &MirStmt, active: &Vec<Loan>, locals: &Vec<MirLocal>) -> (r: Result<
        (),
        String,
    >)
        ensures
            complaint(r) == stmt_error(stmt.deep_view(), active.deep_view(), locals.deep_view()),
    {
        match stmt {
            MirStmt::Assign { dest, value } => {
                if let Err(e) = Self::check_rvalue(value, active, locals) {
                    return Err(e);
                }
                if let MirRvalue::Ref { mutable, place } = value {
                    if let Err(e) = Self::check_borrow_creation(place, *mutable, active, locals) {
                        return Err(e);
                    }
                }
                Self::check_write(dest, active, locals)
            },
            MirStmt::ExprStmt(value) => Self::check_rvalue(value, active, locals),
            MirStmt::Drop { place } => Self::check_exclusive(place, active, locals, "drop"),
            _ => Ok(()),
        }
    }

    fn check_operand_use(op: &MirOperand, active: &Vec<Loan>, locals: &Vec<MirLocal>) -> (r: Result<
        (),
        String,
    >)
        ensures
            complaint(r) == operand_error(op.deep_view(), active.deep_view(), locals.deep_view()),
    {
        match op {
            MirOperand::Copy(p) => Self::check_read(p, active, locals),
            MirOperand::Move(p) => Self::check_move(p, active, locals),
            _ => Ok(()),
        }
    }

    fn check_terminator(term: &MirTerminator, active: &Vec<Loan>, locals: &Vec<MirLocal>) -> (r:
        Result<(), String>)
        ensures
            complaint(r) == term_error(term.deep_view(), active.deep_view(), locals.deep_view()),
    {
        match term {
            MirTerminator::Goto(_) | MirTerminator::Unreachable => Ok(()),
            MirTerminator::If { cond, .. } => Self::check_operand_use(cond, active, locals),
            MirTerminator::Return(op) => match op {
                Some(op) => Self::check_operand_use(op, active, locals),
                None => Ok(()),
            },
            MirTerminator::Switch { discr, .. } => Self::check_operand_use(discr, active, locals),
            MirTerminator::Placeholder => Err(
                "internal error: block terminator is still Placeholder at borrow-check time (mir_builder.rs 某条路径构建完没有给这个块设置真正的终止器)".to_owned(),
            ),
        }
    }

    fn collect_loans(blocks: &Vec<MirBlock>) -> (r: Vec<Loan>)
        ensures
            r.deep_view() == blocks_loans(blocks.deep_view(), blocks.deep_view().len() as int),
    {
        let ghost bv = blocks.deep_view();
        let mut loans: Vec<Loan> = Vec::new();
        let mut i: usize = 0;
        assert(loans.deep_view() =~= blocks_loans(bv, 0));
        while i < blocks.len()
            invariant
                i <= blocks.len(),
                bv == blocks.deep_view(),
                loans.deep_view() == blocks_loans(bv, i as int),
            decreases blocks.len() - i,
        {
            let block = &blocks[i];
            assert(bv[i as int] == block.deep_view());
            let ghost sv = block.stmts.deep_view();
            let ghost l0 = loans.deep_view();
            let mut j: usize = 0;
            assert(l0 =~= l0 + stmts_loans(sv, i as int, 0));
            while j < block.stmts.len()
                invariant
                    j <= block.stmts.len(),
                    sv == block.stmts.deep_view(),
                    loans.deep_view() == l0 + stmts_loans(sv, i as int, j as int),
                decreases block.stmts.len() - j,
            {
                assert(sv[j as int] == block.stmts@[j as int].deep_view());
                let ghost l1 = loans.deep_view();
                if let MirStmt::Assign { dest, value: MirRvalue::Ref { mutable, place } } =
                    &block.stmts[j] {
                    let l = Loan {
                        borrow_var: place_base_id(dest),
                        place: place.clone(),
                        kind: if *mutable {
                            LoanKind::Mut
                        } else {
                            LoanKind::Shared
                        },
                        block: i,
                        index: j,
                    };
                    let ghost lv = l.deep_view();
                    loans.push(l);
                    assert(loans.deep_view() =~= l1.push(lv));
                }
                assert(loans.deep_view() =~= l0 + stmts_loans(sv, i as int, j + 1));
                j = j + 1;
            }
            i = i + 1;
        }
        loans
    }

    /// The loans that count at place `j` of block `b`; `after` tells for each block which
    /// blocks follow it.
    fn held(
        loans: &Vec<Loan>,
        vars: &IdSet,
        after: &Vec<Vec<bool>>,
        b: usize,
        j: usize,
        Ghost(bv): Ghost<Seq<BlockV>>,
    ) -> (r: Vec<Loan>)
        requires
            follow_table(bv, after@),
            b < bv.len(),
            forall|i: int|
                0 <= i < loans.len() ==> 0 <= (#[trigger] loans.deep_view()[i]).block < bv.len(),
        ensures
            r.deep_view() == loans_held(bv, loans.deep_view(), vars@, b as int, j as int),
    {
        let ghost all = loans.deep_view();
        let mut r: Vec<Loan> = Vec::new();
        let mut i: usize = 0;
        assert(r.deep_view() =~= loans_held(bv, all.take(0), vars@, b as int, j as int));
        while i < loans.len()
            invariant
                i <= loans.len(),
                all == loans.deep_view(),
                follow_table(bv, after@),
                b < bv.len(),
                forall|i: int| 0 <= i < loans.len() ==> 0 <= (#[trigger] all[i]).block < bv.len(),
                r.deep_view() == loans_held(bv, all.take(i as int), vars@, b as int, j as int),
            decreases loans.len() - i,
        {
            proof {
                assert(all.take(i + 1).drop_last() =~= all.take(i as int));
                assert(all.take(i + 1).last() == loans@[i as int].deep_view());
                assert(0 <= all[i as int].block < bv.len());
            }
            let l = &loans[i];
            assert(after@[l.block as int].len() == bv.len());
            assert(after@[l.block as int]@[b as int] == follows(bv, l.block as int, b as int));
            if vars.contains(l.borrow_var) && (l.block == b && l.index < j || after[l.block][b]) {
                let ghost r0 = r.deep_view();
                r.push(clone_loan(l));
                assert(r.deep_view() =~= r0.push(all[i as int]));
            }
            i = i + 1;
        }
        assert(all.take(i as int) =~= all);
        r
    }

    /// For each block, which blocks follow it.
    fn following(blocks: &Vec<MirBlock>) -> (r: Vec<Vec<bool>>)
        ensures
            follow_table(blocks.deep_view(), r@),
    {
        let mut r: Vec<Vec<bool>> = Vec::new();
        let mut i: usize = 0;
        while i < blocks.len()
            invariant
                i <= blocks.len(),
                r.len() == i,
                forall|a: int| 0 <= a < i ==> (#[trigger] r@[a]).len() == blocks.len(),
                forall|a: int, b: int|
                    0 <= a < i && 0 <= b < blocks.len() ==> #[trigger] r@[a]@[b] == follows(
                        blocks.deep_view(),
                        a,
                        b,
                    ),
            decreases blocks.len() - i,
        {
            let v = blocks_after(blocks, i);
            r.push(v);
            i = i + 1;
        }
        r
    }

    fn borrow_check(body: &MirBody) -> (r: Result<(), String>)
        ensures
            complaint(r) == conflict(body.deep_view(), body.deep_view().blocks.len() as int),
    {
        let ghost bd = body.deep_view();
        let ghost bv = bd.blocks;
        let (live_after_all, live_out_all) = compute_liveness(&body.blocks);
        let loans = Self::collect_loans(&body.blocks);
        let after = Self::following(&body.blocks);
        proof {
            lemma_loan_blocks(bv, bv.len() as int);
        }
        let mut b: usize = 0;
        while b < body.blocks.len()
            invariant
                b <= body.blocks.len(),
                bd == body.deep_view(),
                bv == bd.blocks,
                loans.deep_view() == blocks_loans(bv, bv.len() as int),
                follow_table(bv, after@),
                forall|i: int|
                    0 <= i < loans.len() ==> 0 <= (#[trigger] loans.deep_view()[i]).block
                        < bv.len(),
                live_after_all.len() == bv.len(),
                live_out_all.len() == bv.len(),
                forall|c: int|
                    0 <= c < bv.len() ==> (#[trigger] live_out_all@[c])@ == live_out(bv, c),
                forall|c: int|
                    0 <= c < bv.len() ==> (#[trigger] live_after_all@[c]).len()
                        == bv[c].stmts.len(),
                forall|c: int, j: int|
                    0 <= c < bv.len() && 0 <= j < live_after_all@[c].len() ==> (
                    #[trigger] live_after_all@[c]@[j])@ == live_after(bv, c, j),
                conflict(bd, b as int) is None,
            decreases body.blocks.len() - b,
        {
            let block = &body.blocks[b];
            assert(bv[b as int] == block.deep_view());
            assert(live_after_all@[b as int].len() == bv[b as int].stmts.len());
            assert(live_out_all@[b as int]@ == live_out(bv, b as int));
            let mut j: usize = 0;
            while j < block.stmts.len()
                invariant
                    j <= block.stmts.len(),
                    b < bv.len(),
                    bd == body.deep_view(),
                    bv == bd.blocks,
                    bv[b as int] == block.deep_view(),
                    loans.deep_view() == blocks_loans(bv, bv.len() as int),
                    follow_table(bv, after@),
                    forall|i: int|
                        0 <= i < loans.len() ==> 0 <= (#[trigger] loans.deep_view()[i]).block
                            < bv.len(),
                    live_after_all.len() == bv.len(),
                    live_after_all@[b as int].len() == block.stmts.len(),
                    forall|c: int, j: int|
                        0 <= c < bv.len() && 0 <= j < live_after_all@[c].len() ==> (
                        #[trigger] live_after_all@[c]@[j])@ == live_after(bv, c, j),
                    conflict(bd, b as int) is None,
                    stmts_conflict(bd, b as int, j as int) is None,
                decreases block.stmts.len() - j,
            {
                let stmt = &block.stmts[j];
                assert(bv[b as int].stmts[j as int] == stmt.deep_view());
                assert(live_after_all@[b as int]@[j as int]@ == live_after(bv, b as int, j as int));
                let mut vars = live_after_all[b][j].copy();
                let uses = stmt_uses(stmt);
                let _ = vars.union_with(&uses);
                if let MirStmt::Assign { dest, value: MirRvalue::Ref { .. } } = stmt {
                    vars.remove(place_base_id(dest));
                }
                assert(vars@ =~= holders_at(bv, b as int, j as int));
                let active = Self::held(&loans, &vars, &after, b, j, Ghost(bv));
                if let Err(e) = Self::check_stmt(stmt, &active, &body.locals) {
                    proof {
                        lemma_stmts_conflict_first(bd, b as int, j + 1, block.stmts.len() as int);
                        lemma_conflict_first(bd, b + 1, bv.len() as int);
                    }
                    return Err(e);
                }
                j = j + 1;
            }
            let mut exit_live = live_out_all[b].copy();
            let uses = term_uses(&block.terminator);
            let _ = exit_live.union_with(&uses);
            let active = Self::held(
                &loans,
                &exit_live,
                &after,
                b,
                block.stmts.len(),
                Ghost(bv),
            );
            if let Err(e) = Self::check_terminator(&block.terminator, &active, &body.locals) {
                proof {
                    lemma_conflict_first(bd, b + 1, bv.len() as int);
                }
                return Err(e);
            }
            b = b + 1;
        }
        Ok(())
    }

    fn check_fn(f: &MirFn) -> (r: Result<(), String>)
        ensures
            complaint(r) == fn_error(f.deep_view()),
    {
        if f.body.blocks.len() == 0 {
            return Ok(());
        }
        if let Err(e) = init_check(&f.body) {
            return Err(e);
        }
        Self::borrow_check(&f.body)
    }

    /// Checks every function; the error is the first complaint.
    pub fn check(program: &MirProgram) -> (r: Result<(), String>)
        ensures
            complaint(r) == fns_error(
                program.deep_view().fns,
                program.deep_view().fns.len() as int,
            ),
    {
        let ghost fv = program.deep_view().fns;
        let mut i: usize = 0;
        while i < program.fns.len()
            invariant
                i <= program.fns.len(),
                fv == program.fns.deep_view(),
                fns_error(fv, i as int) is None,
            decreases program.fns.len() - i,
        {
            assert(fv[i as int] == program.fns@[i as int].deep_view());
            if let Err(e) = Self::check_fn(&program.fns[i]) {
                proof {
                    lemma_fns_error_first(fv, i + 1, fv.len() as int);
                }
                return Err(e);
            }
            i = i + 1;
        }
        Ok(())
    }
}

/// Whether a table tells for each block which blocks follow it.
spec fn follow_table(blocks: Seq<BlockV>, after: Seq<Vec<bool>>) -> bool {
    &&& after.len() == blocks.len()
    &&& forall|a: int| 0 <= a < blocks.len() ==> (#[trigger] after[a]).len() == blocks.len()
    &&& forall|a: int, b: int|
        0 <= a < blocks.len() && 0 <= b < blocks.len() ==> #[trigger] after[a]@[b] == follows(
            blocks,
            a,
            b,
        )
}

/// Loans are created in blocks of the body.
proof fn lemma_loan_blocks(blocks: Seq<BlockV>, n: int)
    requires
        0 <= n <= blocks.len(),
    ensures
        forall|i: int|
            0 <= i < blocks_loans(blocks, n).len() ==> 0 <= (#[trigger] blocks_loans(
                blocks,
                n,
            )[i]).block < n,
    decreases n,
{
    if n > 0 {
        lemma_loan_blocks(blocks, n - 1);
        lemma_loan_block(blocks[n - 1].stmts, n - 1, blocks[n - 1].stmts.len() as int);
        let front = blocks_loans(blocks, n - 1);
        let mine = stmts_loans(blocks[n - 1].stmts, n - 1, blocks[n - 1].stmts.len() as int);
        assert forall|i: int| 0 <= i < (front + mine).len() implies 0 <= (#[trigger] (front
            + mine)[i]).block < n by {
            if i < front.len() {
                assert((front + mine)[i] == front[i]);
            } else {
                assert((front + mine)[i] == mine[i - front.len()]);
            }
        }
    }
}

proof fn lemma_loan_block(stmts: Seq<StmtV>, b: int, n: int)
    ensures
        forall|i: int|
            0 <= i < stmts_loans(stmts, b, n).len() ==> (#[trigger] stmts_loans(
                stmts,
                b,
                n,
            )[i]).block == b,
    decreases n,
{
    if n > 0 {
        lemma_loan_block(stmts, b, n - 1);
    }
}

/// The first complaint stays the first.
proof fn lemma_stmts_conflict_first(body: BodyV, b: int, n: int, m: int)
    requires
        n <= m,
        stmts_conflict(body, b, n) is Some,
    ensures
        stmts_conflict(body, b, m) == stmts_conflict(body, b, n),
    decreases m - n,
{
    if n < m {
        lemma_stmts_conflict_first(body, b, n, m - 1);
    }
}

/// The first complaint stays the first.
proof fn lemma_conflict_first(body: BodyV, n: int, m: int)
    requires
        n <= m,
        conflict(body, n) is Some,
    ensures
        conflict(body, m) == conflict(body, n),
    decreases m - n,
{
    if n < m {
        lemma_conflict_first(body, n, m - 1);
    }
}

/// The first complaint stays the first.
proof fn lemma_fns_error_first(fns: Seq<FnV>, n: int, m: int)
    requires
        n <= m,
        fns_error(fns, n) is Some,
    ensures
        fns_error(fns, m) == fns_error(fns, n),
    decreases m - n,
{
    if n < m {
        lemma_fns_error_first(fns, n, m - 1);
    }
}

} // verus!
