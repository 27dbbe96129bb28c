//! Initialisation: no variable is read before it has a value, on any path.

use vstd::prelude::*;

use crate::ast::{copy_type, TypeV};
use crate::cfg::successors;
use crate::cfg::{is_path, lemma_unset_update, successors_of, unset};
use crate::idset::IdSet;
use crate::idset::is_least;
use crate::init_laws::{lemma_init_complete, lemma_init_sound};
use crate::liveness::{lemma_total_size_update, set_views, total_size};
use crate::liveness::{stmt_uses, term_uses};
use crate::liveness::{term_uses_of, uses_of};
use crate::mir::{BlockV, BodyV, LocalV, OperandV, PlaceV, StmtV};
use crate::mir::{MirBlock, MirBody, MirLocal, MirOperand, MirPlace, MirRvalue, MirStmt};
use crate::text::{cat, cat3, usize_to_string};
use crate::text::decimal;
use crate::uses::rvalue_operands;

verus! {

/// The first local with number `id`.
pub open spec fn find_local(locals: Seq<LocalV>, id: usize) -> Option<LocalV>
    decreases locals.len(),
{
    if locals.len() == 0 {
        None
    } else if locals[0].id == id {
        Some(locals[0])
    } else {
        find_local(locals.drop_first(), id)
    }
}

/// The type of variable `id`; unit where there is no such variable.
pub open spec fn var_type(locals: Seq<LocalV>, id: usize) -> TypeV {
    match find_local(locals, id) {
        Some(l) => l.ty,
        None => TypeV::Unit,
    }
}

/// The name of variable `id`, or a made-up one where it has none.
pub open spec fn var_name(locals: Seq<LocalV>, id: usize) -> Seq<char> {
    match find_local(locals, id) {
        Some(l) => match l.name {
            Some(n) => n,
            None => "_var_"@ + decimal(id as nat),
        },
        None => "_var_"@ + decimal(id as nat),
    }
}

/// The variables that the operands move as a whole.
pub open spec fn moved_by(ops: Seq<OperandV>) -> Set<usize> {
    Set::new(
        |x: usize|
            exists|i: int|
                0 <= i < ops.len() && (#[trigger] ops[i] matches OperandV::Move(PlaceV::Ssa(s))
                    && s.base_id == x),
    )
}

/// The variables that a statement moves as a whole.
pub open spec fn moves_of(s: StmtV) -> Set<usize> {
    match s {
        StmtV::Assign { value, .. } => moved_by(rvalue_operands(value)),
        StmtV::ExprStmt(value) => moved_by(rvalue_operands(value)),
        _ => Set::empty(),
    }
}

/// The variable at the root of a place.
pub open spec fn root_of(p: PlaceV) -> usize
    decreases p,
{
    match p {
        PlaceV::Ssa(s) => s.base_id,
        PlaceV::Field { base, .. } => root_of(*base),
        PlaceV::Index { base, .. } => root_of(*base),
        PlaceV::Deref(base) => root_of(*base),
        PlaceV::EnumPayload { base, .. } => root_of(*base),
    }
}

/// The variables without those that are moved out of.
pub open spec fn after_moves(state: Set<usize>, moves: Set<usize>, locals: Seq<LocalV>) -> Set<
    usize,
> {
    Set::new(|x: usize| state.contains(x) && !(moves.contains(x) && !copy_type(var_type(locals, x))))
}

/// The variables that have a value after a statement, of those before it.
pub open spec fn init_after(s: StmtV, state: Set<usize>, locals: Seq<LocalV>) -> Set<usize> {
    let rest = after_moves(state, moves_of(s), locals);
    match s {
        StmtV::Assign { dest: PlaceV::Ssa(d), .. } => rest.insert(d.base_id),
        StmtV::Drop { place } => rest.remove(root_of(place)),
        _ => rest,
    }
}

/// The least of the variables read that has no value.
pub open spec fn missing(uses: Set<usize>, state: Set<usize>) -> Option<usize> {
    if exists|u: usize| is_least(uses.difference(state), u) {
        Some(choose|u: usize| is_least(uses.difference(state), u))
    } else {
        None
    }
}

/// The complaint about a variable without a value.
pub open spec fn uninit_message(locals: Seq<LocalV>, u: usize) -> Seq<char> {
    "use of possibly-uninitialized variable `"@ + var_name(locals, u) + "`"@
}

/// The variables that have a value after the first `n` statements, or the
/// complaint about the first read of one that has none.
pub open spec fn init_stmts(
    stmts: Seq<StmtV>,
    n: int,
    state: Set<usize>,
    locals: Seq<LocalV>,
) -> Result<Set<usize>, Seq<char>>
    decreases n,
{
    if n <= 0 {
        Ok(state)
    } else {
        match init_stmts(stmts, n - 1, state, locals) {
            Ok(st) => match missing(uses_of(stmts[n - 1]), st) {
                Some(u) => Err(uninit_message(locals, u)),
                None => Ok(init_after(stmts[n - 1], st, locals)),
            },
            Err(e) => Err(e),
        }
    }
}

/// The same for a whole block.
pub open spec fn init_block(b: BlockV, state: Set<usize>, locals: Seq<LocalV>) -> Result<
    Set<usize>,
    Seq<char>,
> {
    match init_stmts(b.stmts, b.stmts.len() as int, state, locals) {
        Ok(st) => match missing(term_uses_of(b.terminator), st) {
            Some(u) => Err(uninit_message(locals, u)),
            None => Ok(st),
        },
        Err(e) => Err(e),
    }
}

/// What the analysis holds: for each block the variables that have a value on
/// entry, whether control was seen to enter it, and whether the round changed either.
#[verifier::ext_equal]
pub struct InitState {
    pub ins: Seq<Set<usize>>,
    pub seeded: Seq<bool>,
    pub changed: bool,
}

/// The state after control may pass to `succ` with the variables of `out`.
pub open spec fn flow_to(st: InitState, succ: usize, out: Set<usize>) -> InitState {
    if succ >= st.ins.len() {
        st
    } else {
        let i = succ as int;
        let new = if st.seeded[i] {
            st.ins[i].intersect(out)
        } else {
            out
        };
        InitState {
            ins: st.ins.update(i, new),
            seeded: st.seeded.update(i, true),
            changed: st.changed || !st.seeded[i] || new != st.ins[i],
        }
    }
}

/// The state after control may pass to the first `n` of the successors.
pub open spec fn flow_all(st: InitState, succs: Seq<usize>, n: int, out: Set<usize>) -> InitState
    decreases n,
{
    if n <= 0 {
        st
    } else {
        flow_to(flow_all(st, succs, n - 1, out), succs[n - 1], out)
    }
}

/// The state after the first `n` blocks of a round. A block that control was not yet
/// seen to enter has to wait.
pub open spec fn init_round(body: BodyV, st: InitState, n: int) -> Result<InitState, Seq<char>>
    decreases n,
{
    if n <= 0 {
        Ok(InitState { changed: false, ..st })
    } else {
        match init_round(body, st, n - 1) {
            Ok(s) => if !s.seeded[n - 1] {
                Ok(s)
            } else {
                let b = body.blocks[n - 1];
                match init_block(b, s.ins[n - 1], body.locals) {
                    Ok(out) => {
                        let succs = successors_of(b.terminator);
                        Ok(flow_all(s, succs, succs.len() as int, out))
                    },
                    Err(e) => Err(e),
                }
            },
            Err(e) => Err(e),
        }
    }
}

/// The parameters, which have a value from the start.
pub open spec fn params_of(locals: Seq<LocalV>) -> Set<usize> {
    Set::new(
        |x: usize|
            exists|i: int| 0 <= i < locals.len() && (#[trigger] locals[i]).is_param && locals[i].id
                == x,
    )
}

/// The state before the first round.
pub open spec fn init_start(body: BodyV) -> InitState {
    InitState {
        ins: Seq::new(
            body.blocks.len(),
            |i: int|
                if i == 0 {
                    params_of(body.locals)
                } else {
                    Set::empty()
                },
        ),
        seeded: Seq::new(body.blocks.len(), |i: int| i == 0),
        changed: false,
    }
}

/// The outcome of rounds from `st` up to the first that complains or changes
/// nothing, if at most `k` are needed.
pub open spec fn init_run(body: BodyV, st: InitState, k: nat) -> Option<Result<(), Seq<char>>>
    decreases k,
{
    if k == 0 {
        None
    } else {
        match init_round(body, st, body.blocks.len() as int) {
            Ok(next) => if next.changed {
                init_run(body, next, (k - 1) as nat)
            } else {
                Some(Ok(()))
            },
            Err(e) => Some(Err(e)),
        }
    }
}

/// The complaint of the initialisation check, if it has one.
pub open spec fn init_error(body: BodyV) -> Option<Seq<char>> {
    let k = choose|k: nat| init_run(body, init_start(body), k) is Some;
    match init_run(body, init_start(body), k) {
        Some(Err(e)) => Some(e),
        _ => None,
    }
}

/// The variables that have a value after the first `n` statements.
pub open spec fn held_in(stmts: Seq<StmtV>, n: int, state: Set<usize>, locals: Seq<LocalV>) -> Set<
    usize,
>
    decreases n,
{
    if n <= 0 {
        state
    } else {
        init_after(stmts[n - 1], held_in(stmts, n - 1, state, locals), locals)
    }
}

/// The variables that have a value where control, having followed the path, enters its
/// last block.
pub open spec fn held_at(body: BodyV, p: Seq<int>) -> Set<usize>
    decreases p.len(),
{
    if p.len() <= 1 {
        params_of(body.locals)
    } else {
        let b = body.blocks[p[p.len() - 2]];
        held_in(b.stmts, b.stmts.len() as int, held_at(body, p.drop_last()), body.locals)
    }
}

/// The variables that statement `j` of a block reads, or its terminator where `j` is the
/// number of statements.
pub open spec fn reads_at(b: BlockV, j: int) -> Set<usize> {
    if j < b.stmts.len() {
        uses_of(b.stmts[j])
    } else {
        term_uses_of(b.terminator)
    }
}

/// Whether control, having followed the path from the entry block, reads variable `u`
/// without a value at place `j` of the last block.
pub open spec fn unset_read(body: BodyV, p: Seq<int>, j: int, u: usize) -> bool {
    let b = body.blocks[p.last()];
    &&& is_path(body.blocks, p)
    &&& 0 <= j <= b.stmts.len()
    &&& reads_at(b, j).contains(u)
    &&& !held_in(b.stmts, j, held_at(body, p), body.locals).contains(u)
}

/// More rounds than needed do not change the outcome.
pub proof fn lemma_init_run_stable(body: BodyV, st: InitState, j: nat, k: nat)
    requires
        init_run(body, st, j) is Some,
        init_run(body, st, k) is Some,
    ensures
        init_run(body, st, j) == init_run(body, st, k),
    decreases j,
{
    match init_round(body, st, body.blocks.len() as int) {
        Ok(next) => if next.changed {
            lemma_init_run_stable(body, next, (j - 1) as nat, (k - 1) as nat);
        },
        Err(_) => {},
    }
}

/// The least of a set is unique.
proof fn lemma_missing(uses: Set<usize>, state: Set<usize>, u: usize)
    requires
        is_least(uses.difference(state), u),
    ensures
        missing(uses, state) == Some(u),
{
    let v = choose|v: usize| is_least(uses.difference(state), v);
    assert(u <= v && v <= u);
}

/// The first local with number `id`.
pub fn lookup_local(locals: &Vec<MirLocal>, id: usize) -> (r: Option<&MirLocal>)
    ensures
        match r {
            Some(l) => find_local(locals.deep_view(), id) == Some(l.deep_view()),
            None => find_local(locals.deep_view(), id) is None,
        },
{
    let ghost lv = locals.deep_view();
    let mut i: usize = 0;
    assert(lv.skip(0) =~= lv);
    while i < locals.len()
        invariant
            i <= locals.len(),
            lv == locals.deep_view(),
            find_local(lv, id) == find_local(lv.skip(i as int), id),
        decreases locals.len() - i,
    {
        assert(lv.skip(i as int)[0] == locals@[i as int].deep_view());
        if locals[i].id == id {
            return Some(&locals[i]);
        }
        assert(lv.skip(i as int).drop_first() =~= lv.skip(i + 1));
        i = i + 1;
    }
    None
}

/// Whether variable `id` is copied when it is read.
fn var_is_copy(locals: &Vec<MirLocal>, id: usize) -> (r: bool)
    ensures
        r == copy_type(var_type(locals.deep_view(), id)),
{
    match lookup_local(locals, id) {
        Some(l) => l.ty.is_copy(),
        None => true,
    }
}

/// The name of variable `base_id`.
pub fn get_var_name(locals: &Vec<MirLocal>, base_id: usize) -> (r: String)
    ensures
        r@ == var_name(locals.deep_view(), base_id),
{
    if let Some(l) = lookup_local(locals, base_id) {
        if let Some(n) = &l.name {
            return n.clone();
        }
    }
    cat("_var_", usize_to_string(base_id).as_str())
}

fn uninit_error(locals: &Vec<MirLocal>, u: usize) -> (r: String)
    ensures
        r@ == uninit_message(locals.deep_view(), u),
{
    cat3(
        "use of possibly-uninitialized variable `",
        get_var_name(locals, u).as_str(),
        "`",
    )
}

/// The variable at the root of a place.
pub fn place_base_id(place: &MirPlace) -> (r: usize)
    ensures
        r == root_of(place.deep_view()),
    decreases place,
{
    match place {
        MirPlace::Ssa(s) => s.base_id,
        MirPlace::Field { base, .. } => place_base_id(base),
        MirPlace::Index { base, .. } => place_base_id(base),
        MirPlace::Deref(base) => place_base_id(base),
        MirPlace::EnumPayload { base, .. } => place_base_id(base),
    }
}

/// Takes the variable that an operand moves as a whole out of the state.
fn apply_move(op: &MirOperand, state: &mut IdSet, locals: &Vec<MirLocal>, Ghost(ops): Ghost<
    Seq<OperandV>,
>, Ghost(k): Ghost<int>, Ghost(s0): Ghost<Set<usize>>)
    requires
        0 <= k < ops.len(),
        op.deep_view() == ops[k],
        old(state)@ == after_moves(s0, moved_by(ops.take(k)), locals.deep_view()),
    ensures
        final(state)@ == after_moves(s0, moved_by(ops.take(k + 1)), locals.deep_view()),
{
    let ghost before = ops.take(k);
    let ghost after = ops.take(k + 1);
    let ghost lv = locals.deep_view();
    proof {
        assert(after =~= before.push(ops[k]));
        assert forall|x: usize| moved_by(after).contains(x) == (moved_by(before).contains(x) || (
        ops[k] matches OperandV::Move(PlaceV::Ssa(s)) && s.base_id == x)) by {
            if moved_by(before).contains(x) {
                let i = choose|i: int|
                    0 <= i < before.len() && (#[trigger] before[i] matches OperandV::Move(
                        PlaceV::Ssa(s),
                    ) && s.base_id == x);
                assert(after[i] == before[i]);
            }
            if ops[k] matches OperandV::Move(PlaceV::Ssa(s)) && s.base_id == x {
                assert(after[k] == ops[k]);
            }
            if moved_by(after).contains(x) {
                let i = choose|i: int|
                    0 <= i < after.len() && (#[trigger] after[i] matches OperandV::Move(
                        PlaceV::Ssa(s),
                    ) && s.base_id == x);
                if i < before.len() {
                    assert(before[i] == after[i]);
                }
            }
        }
    }
    if let MirOperand::Move(MirPlace::Ssa(s)) = op {
        if !var_is_copy(locals, s.base_id) {
            state.remove(s.base_id);
        }
    }
    assert(state@ =~= after_moves(s0, moved_by(after), lv));
}

fn apply_moves(ops: &Vec<MirOperand>, state: &mut IdSet, locals: &Vec<MirLocal>)
    ensures
        final(state)@ == after_moves(
            old(state)@,
            moved_by(ops.deep_view()),
            locals.deep_view(),
        ),
{
    let ghost s0 = state@;
    let ghost ov = ops.deep_view();
    let mut i: usize = 0;
    assert(state@ =~= after_moves(s0, moved_by(ov.take(0)), locals.deep_view()));
    while i < ops.len()
        invariant
            i <= ops.len(),
            ov == ops.deep_view(),
            state@ == after_moves(s0, moved_by(ov.take(i as int)), locals.deep_view()),
        decreases ops.len() - i,
    {
        assert(ov[i as int] == ops@[i as int].deep_view());
        apply_move(&ops[i], state, locals, Ghost(ov), Ghost(i as int), Ghost(s0));
        i = i + 1;
    }
    assert(ov.take(i as int) =~= ov);
}

/// Takes the variables that a right-hand side moves as a whole out of the state.
fn apply_rvalue_moves(rv: &MirRvalue, state: &mut IdSet, locals: &Vec<MirLocal>)
    ensures
        final(state)@ == after_moves(
            old(state)@,
            moved_by(rvalue_operands(rv.deep_view())),
            locals.deep_view(),
        ),
{
    let ghost s0 = state@;
    let ghost ov = rvalue_operands(rv.deep_view());
    let ghost lv = locals.deep_view();
    assert(state@ =~= after_moves(s0, moved_by(ov.take(0)), lv));
    match rv {
        MirRvalue::Use(op) | MirRvalue::UnaryOp(_, op) | MirRvalue::Cast(op, _) => {
            apply_move(op, state, locals, Ghost(ov), Ghost(0), Ghost(s0));
            assert(ov.take(1) =~= ov);
        },
        MirRvalue::Discriminant { value, .. } => {
            apply_move(value, state, locals, Ghost(ov), Ghost(0), Ghost(s0));
            assert(ov.take(1) =~= ov);
        },
        MirRvalue::BinaryOp(_, l, r) => {
            apply_move(l, state, locals, Ghost(ov), Ghost(0), Ghost(s0));
            apply_move(r, state, locals, Ghost(ov), Ghost(1), Ghost(s0));
            assert(ov.take(2) =~= ov);
        },
        MirRvalue::Call { args, .. } => apply_moves(args, state, locals),
        MirRvalue::MethodCall { receiver, args, .. } => {
            apply_move(receiver, state, locals, Ghost(ov), Ghost(0), Ghost(s0));
            let mut i: usize = 0;
            while i < args.len()
                invariant
                    i <= args.len(),
                    lv == locals.deep_view(),
                    ov.len() == args.len() + 1,
                    forall|j: int| 0 <= j < args.len() ==> #[trigger] args@[j].deep_view() == ov[j + 1],
                    state@ == after_moves(s0, moved_by(ov.take(i + 1)), lv),
                decreases args.len() - i,
            {
                assert(args@[i as int].deep_view() == ov[i + 1]);
                apply_move(&args[i], state, locals, Ghost(ov), Ghost(i + 1), Ghost(s0));
                i = i + 1;
            }
            assert(ov.take(i + 1) =~= ov);
        },
        MirRvalue::StructInit { fields, .. } => {
            let mut i: usize = 0;
            while i < fields.len()
                invariant
                    i <= fields.len(),
                    lv == locals.deep_view(),
                    ov.len() == fields.len(),
                    forall|j: int| 0 <= j < fields.len() ==> #[trigger] ov[j] == fields@[j].1.deep_view(),
                    state@ == after_moves(s0, moved_by(ov.take(i as int)), lv),
                decreases fields.len() - i,
            {
                assert(ov[i as int] == fields@[i as int].1.deep_view());
                apply_move(&fields[i].1, state, locals, Ghost(ov), Ghost(i as int), Ghost(s0));
                i = i + 1;
            }
            assert(ov.take(i as int) =~= ov);
        },
        MirRvalue::EnumVariantConstruction { args, .. } => apply_moves(args, state, locals),
        MirRvalue::ArrayLiteral(elems) => apply_moves(elems, state, locals),
        MirRvalue::Phi { values } => {
            let mut i: usize = 0;
            while i < values.len()
                invariant
                    i <= values.len(),
                    lv == locals.deep_view(),
                    ov.len() == values.len(),
                    forall|j: int| 0 <= j < values.len() ==> #[trigger] ov[j] == values@[j].1.deep_view(),
                    state@ == after_moves(s0, moved_by(ov.take(i as int)), lv),
                decreases values.len() - i,
            {
                assert(ov[i as int] == values@[i as int].1.deep_view());
                apply_move(&values[i].1, state, locals, Ghost(ov), Ghost(i as int), Ghost(s0));
                i = i + 1;
            }
            assert(ov.take(i as int) =~= ov);
        },
        MirRvalue::Ref { .. } => {
            assert(ov.take(0) =~= ov);
        },
    }
}

/// Runs one statement: the complaint about a read without a value, or the state
/// after it.
fn exec_init_stmt(stmt: &MirStmt, state: &mut IdSet, locals: &Vec<MirLocal>) -> (r: Result<
    (),
    String,
>)
    ensures
        match missing(uses_of(stmt.deep_view()), old(state)@) {
            Some(u) => r matches Err(e) && e@ == uninit_message(locals.deep_view(), u),
            None => r is Ok && final(state)@ == init_after(
                stmt.deep_view(),
                old(state)@,
                locals.deep_view(),
            ),
        },
{
    let ghost s0 = state@;
    let uses = stmt_uses(stmt);
    if let Some(u) = uses.least_outside(state) {
        proof {
            lemma_missing(uses@, s0, u);
        }
        return Err(uninit_error(locals, u));
    }
    assert(missing(uses@, s0) is None) by {
        assert forall|u: usize| !is_least(uses@.difference(s0), u) by {
            assert(uses@.contains(u) ==> s0.contains(u));
        }
    }
    match stmt {
        MirStmt::Assign { dest, value } => {
            apply_rvalue_moves(value, state, locals);
            if let MirPlace::Ssa(s) = dest {
                state.insert(s.base_id);
            }
        },
        MirStmt::ExprStmt(value) => apply_rvalue_moves(value, state, locals),
        MirStmt::Drop { place } => {
            assert(s0 =~= after_moves(s0, Set::empty(), locals.deep_view()));
            state.remove(place_base_id(place));
        },
        _ => {
            assert(s0 =~= after_moves(s0, Set::empty(), locals.deep_view()));
        },
    }
    Ok(())
}

/// Runs one block from the state at its entry.
fn exec_init_block(block: &MirBlock, ins: &IdSet, locals: &Vec<MirLocal>) -> (r: Result<
    IdSet,
    String,
>)
    ensures
        match init_block(block.deep_view(), ins@, locals.deep_view()) {
            Ok(out) => r matches Ok(o) && o@ == out,
            Err(e) => r matches Err(m) && m@ == e,
        },
{
    let ghost sv = block.deep_view().stmts;
    let ghost lv = locals.deep_view();
    let ghost s0 = ins@;
    let mut state = ins.copy();
    let mut i: usize = 0;
    while i < block.stmts.len()
        invariant
            i <= block.stmts.len(),
            sv == block.stmts.deep_view(),
            sv == block.deep_view().stmts,
            lv == locals.deep_view(),
            s0 == ins@,
            init_stmts(sv, i as int, s0, lv) == Ok::<Set<usize>, Seq<char>>(state@),
        decreases block.stmts.len() - i,
    {
        assert(sv[i as int] == block.stmts@[i as int].deep_view());
        if let Err(e) = exec_init_stmt(&block.stmts[i], &mut state, locals) {
            proof {
                lemma_init_stmts_err(sv, i + 1, sv.len() as int, s0, lv);
            }
            return Err(e);
        }
        i = i + 1;
    }
    let uses = term_uses(&block.terminator);
    if let Some(u) = uses.least_outside(&state) {
        proof {
            lemma_missing(uses@, state@, u);
        }
        return Err(uninit_error(locals, u));
    }
    assert(missing(uses@, state@) is None) by {
        assert forall|u: usize| !is_least(uses@.difference(state@), u) by {
            assert(uses@.contains(u) ==> state@.contains(u));
        }
    }
    Ok(state)
}

/// A complaint about a prefix is the complaint about the whole.
proof fn lemma_init_stmts_err(
    stmts: Seq<StmtV>,
    n: int,
    m: int,
    state: Set<usize>,
    locals: Seq<LocalV>,
)
    requires
        n <= m,
        init_stmts(stmts, n, state, locals) is Err,
    ensures
        init_stmts(stmts, m, state, locals) == init_stmts(stmts, n, state, locals),
    decreases m - n,
{
    if n < m {
        lemma_init_stmts_err(stmts, n, m - 1, state, locals);
    }
}

proof fn lemma_init_round_err(body: BodyV, st: InitState, n: int, m: int)
    requires
        n <= m,
        init_round(body, st, n) is Err,
    ensures
        init_round(body, st, m) == init_round(body, st, n),
    decreases m - n,
{
    if n < m {
        lemma_init_round_err(body, st, n, m - 1);
    }
}


/// The state that the vectors hold.
pub open spec fn state_view(ins: Seq<IdSet>, seeded: Seq<bool>, changed: bool) -> InitState {
    InitState { ins: set_views(ins), seeded, changed }
}

/// Whether the analysis came closer to its end: a block was seen for the first
/// time, or no set grew, and one shrank where `changed` says so.
pub open spec fn progressed(before: InitState, after: InitState) -> bool {
    ||| unset(after.seeded) < unset(before.seeded)
    ||| unset(after.seeded) == unset(before.seeded) && total_size(after.ins) <= total_size(
        before.ins,
    ) && (after.changed ==> total_size(after.ins) < total_size(before.ins))
}

/// Lets control pass to `succ` with the variables of `out`.
fn merge_into_init(ins: &mut Vec<IdSet>, seeded: &mut Vec<bool>, changed: bool, succ: usize, out:
    &IdSet) -> (r: bool)
    requires
        old(ins).len() == old(seeded).len(),
    ensures
        final(ins).len() == old(ins).len(),
        final(seeded).len() == old(seeded).len(),
        state_view(final(ins)@, final(seeded)@, r) == flow_to(
            state_view(old(ins)@, old(seeded)@, changed),
            succ,
            out@,
        ),
        unset(final(seeded)@) <= unset(old(seeded)@),
        unset(final(seeded)@) == unset(old(seeded)@) ==> total_size(set_views(final(ins)@))
            <= total_size(set_views(old(ins)@)) && (r && !changed ==> total_size(
            set_views(final(ins)@),
        ) < total_size(set_views(old(ins)@))),
{
    let ghost ins0 = ins@;
    let ghost seeded0 = seeded@;
    let ghost st0 = state_view(ins0, seeded0, changed);
    if succ >= ins.len() {
        return changed;
    }
    let i = succ;
    let mut now = changed;
    if !seeded[i] {
        proof {
            lemma_unset_update(seeded0, i as int);
        }
        seeded.set(i, true);
        ins.set(i, out.copy());
        now = true;
    } else {
        if ins[i].intersect_with(out) {
            now = true;
        }
        assert(seeded@ =~= seeded0.update(i as int, true));
    }
    proof {
        let st = state_view(ins@, seeded@, now);
        let want = flow_to(st0, succ, out@);
        assert(st.ins =~= want.ins);
        assert(st.seeded =~= want.seeded);
        assert(st == want);
        if seeded0[i as int] {
            let old_sets = set_views(ins0);
            let new_sets = set_views(ins@);
            assert(new_sets =~= old_sets.update(i as int, ins@[i as int]@));
            if ins@[i as int]@ != ins0[i as int]@ {
                ins0[i as int].lemma_finite();
                assert(old_sets =~= new_sets.update(i as int, ins0[i as int]@));
                lemma_total_size_update(new_sets, i as int, ins0[i as int]@);
            } else {
                assert(new_sets =~= old_sets);
            }
        }
    }
    now
}

/// Whether no path from the entry block reads a variable without a value; where one
/// does, the complaint about a variable that is read so.
pub fn init_check(body: &MirBody) -> (r: Result<(), String>)
    requires
        body.blocks.len() > 0,
    ensures
        match init_error(body.deep_view()) {
            Some(e) => r matches Err(m) && m@ == e,
            None => r is Ok,
        },
        r is Ok <==> forall|p: Seq<int>, j: int, u: usize|
            !#[trigger] unset_read(body.deep_view(), p, j, u),
        r matches Err(m) ==> exists|p: Seq<int>, j: int, u: usize|
            #[trigger] unset_read(body.deep_view(), p, j, u) && m@ == uninit_message(
                body.deep_view().locals,
                u,
            ),
{
    let ghost bv = body.deep_view();
    let ghost start = init_start(bv);
    let n = body.blocks.len();
    let mut params = IdSet::new();
    let mut l: usize = 0;
    while l < body.locals.len()
        invariant
            l <= body.locals.len(),
            bv == body.deep_view(),
            forall|x: usize| #[trigger]
                params@.contains(x) <==> exists|i: int|
                    0 <= i < l && (#[trigger] bv.locals[i]).is_param && bv.locals[i].id == x,
        decreases body.locals.len() - l,
    {
        let ghost p0 = params@;
        assert(bv.locals[l as int] == body.locals@[l as int].deep_view());
        if body.locals[l].is_param {
            params.insert(body.locals[l].id);
        }
        proof {
            assert forall|x: usize| #[trigger] params@.contains(x) <==> exists|i: int|
                0 <= i < l + 1 && (#[trigger] bv.locals[i]).is_param && bv.locals[i].id == x by {
                if p0.contains(x) {
                    let i = choose|i: int|
                        0 <= i < l && (#[trigger] bv.locals[i]).is_param && bv.locals[i].id == x;
                    assert(bv.locals[i].is_param);
                }
                if params@.contains(x) && !p0.contains(x) {
                    assert(bv.locals[l as int].is_param && bv.locals[l as int].id == x);
                }
            }
        }
        l = l + 1;
    }
    assert(params@ =~= params_of(bv.locals));
    let mut ins: Vec<IdSet> = Vec::new();
    let mut seeded: Vec<bool> = Vec::new();
    ins.push(params);
    seeded.push(true);
    let mut i: usize = 1;
    while i < n
        invariant
            1 <= i <= n,
            ins.len() == i,
            seeded.len() == i,
            ins@[0]@ == params_of(bv.locals),
            seeded@[0],
            forall|j: int| 0 < j < i ==> (#[trigger] ins@[j])@ == Set::<usize>::empty(),
            forall|j: int| 0 < j < i ==> !(#[trigger] seeded@[j]),
        decreases n - i,
    {
        ins.push(IdSet::new());
        seeded.push(false);
        i = i + 1;
    }
    proof {
        assert(set_views(ins@) =~= start.ins);
        assert(seeded@ =~= start.seeded);
    }
    let ghost mut rounds: nat = 0;
    let mut changed = true;
    let ghost mut st = start;
    while changed
        invariant
            n == body.blocks.len(),
            bv == body.deep_view(),
            start == init_start(bv),
            ins.len() == n,
            seeded.len() == n,
            st.ins == set_views(ins@),
            st.seeded == seeded@,
            changed ==> forall|k: nat| init_run(bv, start, k + rounds) == #[trigger] init_run(bv, st, k),
            !changed ==> init_run(bv, start, rounds) == Some(Ok::<(), Seq<char>>(())),
        decreases (if changed { 1int } else { 0int }), unset(seeded@), total_size(set_views(ins@)),
    {
        changed = false;
        let ghost cur0 = InitState { changed: false, ..st };
        let mut b: usize = 0;
        while b < n
            invariant
                b <= n,
                n == body.blocks.len(),
                bv == body.deep_view(),
                ins.len() == n,
                seeded.len() == n,
                start == init_start(bv),
                forall|k: nat| init_run(bv, start, k + rounds) == #[trigger] init_run(bv, st, k),
                init_round(bv, st, b as int) == Ok::<InitState, Seq<char>>(
                    state_view(ins@, seeded@, changed),
                ),
                cur0 == (InitState { changed: false, ..st }),
                progressed(cur0, state_view(ins@, seeded@, changed)),
            decreases n - b,
        {
            assert(bv.blocks[b as int] == body.blocks@[b as int].deep_view());
            if !seeded[b] {
                b = b + 1;
                continue;
            }
            let block = &body.blocks[b];
            let out = match exec_init_block(block, &ins[b], &body.locals) {
                Ok(o) => o,
                Err(e) => {
                    proof {
                        lemma_init_round_err(bv, st, b + 1, n as int);
                        assert(init_run(bv, st, 1) == Some(
                            Err::<(), Seq<char>>(e@),
                        ));
                        assert(init_run(bv, start, 1 + rounds) == init_run(bv, st, 1));
                        let k = choose|k: nat| init_run(bv, start, k) is Some;
                        lemma_init_run_stable(bv, start, k, 1 + rounds);
                        lemma_init_complete(bv, e@);
                    }
                    return Err(e);
                },
            };
            let succs = successors(block);
            let ghost before = state_view(ins@, seeded@, changed);
            let mut k: usize = 0;
            while k < succs.len()
                invariant
                    k <= succs.len(),
                    ins.len() == n,
                    seeded.len() == n,
                    state_view(ins@, seeded@, changed) == flow_all(
                        before,
                        succs@,
                        k as int,
                        out@,
                    ),
                    progressed(cur0, state_view(ins@, seeded@, changed)),
                decreases succs.len() - k,
            {
                let s = succs[k];
                changed = merge_into_init(&mut ins, &mut seeded, changed, s, &out);
                k = k + 1;
            }
            b = b + 1;
        }
        proof {
            let next = state_view(ins@, seeded@, changed);
            if changed {
                assert forall|k: nat| init_run(bv, start, k + (rounds + 1)) == #[trigger] init_run(
                    bv,
                    next,
                    k,
                ) by {
                    assert(init_run(bv, start, (k + 1) + rounds) == init_run(bv, st, k + 1));
                    assert((k + 1) + rounds == k + (rounds + 1));
                }
            } else {
                assert(init_run(bv, start, 1 + rounds) == init_run(bv, st, 1));
            }
            rounds = rounds + 1;
            st = next;
        }
    }
    proof {
        let k = choose|k: nat| init_run(bv, start, k) is Some;
        lemma_init_run_stable(bv, start, k, rounds);
        assert forall|p: Seq<int>, j: int, u: usize| !#[trigger] unset_read(bv, p, j, u) by {
            if unset_read(bv, p, j, u) {
                lemma_init_sound(bv, p, j, u);
            }
        }
    }
    Ok(())
}

} // verus!
