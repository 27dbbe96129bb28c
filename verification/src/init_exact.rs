//! Laws of the initialisation check: which bodies pass, in terms of the statements that
//! control runs through.

use vstd::prelude::*;

use crate::ast::{copy_type, TypeV};
use crate::borrow_exact::gives;
use crate::cfg::is_path;
use crate::init::{
    find_local, held_at, held_in, init_after, init_error, moved_by, params_of, uninit_message,
    unset_read, var_type,
};
use crate::init_laws::{lemma_init_complete, lemma_init_sound};
use crate::mir::{BlockV, BodyV, LocalV, OperandV, PlaceV, RvalueV, StmtV};
use crate::reading::{
    bottom, ends_on_var, lemma_operands_exact, lemma_root_bottom, lemma_term_uses_exact,
    lemma_uses_exact, operand_of, reads_var,
};
use crate::uses::rvalue_operands;

verus! {

// Which values are copied.

/// Whether a value of type `whole` holds a value of type `part` in itself: as an item of a
/// tuple, as an element of an array, or under a privacy label.
pub open spec fn holds(whole: TypeV, part: TypeV) -> bool
    decreases whole,
{
    whole == part || match whole {
        TypeV::Tuple(ts) => exists|i: int| 0 <= i < ts.len() && holds(#[trigger] ts[i], part),
        TypeV::Array(e, _) => holds(*e, part),
        TypeV::Privacy(e, _) => holds(*e, part),
        _ => false,
    }
}

/// Whether values of a type own something, or may: texts, named and generic types, type
/// parameters, slices, tensors, and references that allow changes.
pub open spec fn owning(t: TypeV) -> bool {
    match t {
        TypeV::Str | TypeV::SelfType => true,
        TypeV::Struct(_) | TypeV::Enum(_) | TypeV::TypeParam(_) | TypeV::Generic(..) => true,
        TypeV::Slice(_) | TypeV::ConstIntArray(_) | TypeV::Tensor { .. } => true,
        TypeV::Ref { mutable, .. } => mutable,
        _ => false,
    }
}

/// A value is copied exactly where it holds nothing that owns something.
pub proof fn lemma_copy_exact(t: TypeV)
    ensures
        copy_type(t) <==> forall|part: TypeV| #[trigger] holds(t, part) ==> !owning(part),
    decreases t,
{
    match t {
        TypeV::Tuple(ts) => {
            assert forall|i: int| 0 <= i < ts.len() implies (copy_type(#[trigger] ts[i]) <==> forall|
                part: TypeV,
            | #[trigger] holds(ts[i], part) ==> !owning(part)) by {
                lemma_copy_exact(ts[i]);
            }
            if copy_type(t) {
                assert forall|part: TypeV| #[trigger] holds(t, part) implies !owning(part) by {
                    if part != t {
                        let i = choose|i: int| 0 <= i < ts.len() && holds(#[trigger] ts[i], part);
                        assert(copy_type(ts[i]));
                    }
                }
            } else {
                let i = choose|i: int| 0 <= i < ts.len() && !copy_type(#[trigger] ts[i]);
                let part = choose|part: TypeV| #[trigger] holds(ts[i], part) && owning(part);
                assert(holds(t, part));
            }
        },
        TypeV::Array(e, _) => {
            lemma_copy_exact(*e);
            lemma_copy_inner(t, *e);
        },
        TypeV::Privacy(e, _) => {
            lemma_copy_exact(*e);
            lemma_copy_inner(t, *e);
        },
        _ => {
            assert(holds(t, t));
        },
    }
}

proof fn lemma_copy_inner(t: TypeV, e: TypeV)
    requires
        match t {
            TypeV::Array(x, _) => *x == e,
            TypeV::Privacy(x, _) => *x == e,
            _ => false,
        },
        copy_type(e) <==> forall|part: TypeV| #[trigger] holds(e, part) ==> !owning(part),
    ensures
        copy_type(t) <==> forall|part: TypeV| #[trigger] holds(t, part) ==> !owning(part),
{
    if copy_type(t) {
        assert forall|part: TypeV| #[trigger] holds(t, part) implies !owning(part) by {
            assert(part == t || holds(e, part));
        }
    } else {
        let part = choose|part: TypeV| #[trigger] holds(e, part) && owning(part);
        assert(holds(t, part));
    }
}

// Which variables have a value.

/// Whether `t` is the type of variable `x`: that of the first local with its number, unit
/// where there is none.
pub open spec fn typed(locals: Seq<LocalV>, x: usize, t: TypeV) -> bool {
    ||| exists|i: int|
        {
            &&& 0 <= i < locals.len()
            &&& #[trigger] locals[i].id == x
            &&& locals[i].ty == t
            &&& forall|j: int| 0 <= j < i ==> #[trigger] locals[j].id != x
        }
    ||| t == TypeV::Unit && forall|i: int| 0 <= i < locals.len() ==> #[trigger] locals[i].id != x
}

/// The local found is the first one with the number.
pub proof fn lemma_local_exact(locals: Seq<LocalV>, x: usize)
    ensures
        find_local(locals, x) is None <==> forall|i: int|
            0 <= i < locals.len() ==> #[trigger] locals[i].id != x,
        find_local(locals, x) is Some ==> exists|i: int|
            {
                &&& 0 <= i < locals.len()
                &&& #[trigger] locals[i].id == x
                &&& locals[i] == find_local(locals, x)->0
                &&& forall|j: int| 0 <= j < i ==> #[trigger] locals[j].id != x
            },
        typed(locals, x, var_type(locals, x)),
    decreases locals.len(),
{
    if locals.len() > 0 {
        let rest = locals.drop_first();
        lemma_local_exact(rest, x);
        if locals[0].id != x {
            if find_local(rest, x) is Some {
                let i = choose|i: int|
                    {
                        &&& 0 <= i < rest.len()
                        &&& #[trigger] rest[i].id == x
                        &&& rest[i] == find_local(rest, x)->0
                        &&& forall|j: int| 0 <= j < i ==> #[trigger] rest[j].id != x
                    };
                assert(locals[i + 1].id == x);
                assert forall|j: int| 0 <= j < i + 1 implies #[trigger] locals[j].id != x by {
                    if j > 0 {
                        assert(rest[j - 1].id != x);
                    }
                }
            } else {
                assert forall|i: int| 0 <= i < locals.len() implies #[trigger] locals[i].id != x by {
                    if i > 0 {
                        assert(rest[i - 1].id != x);
                    }
                }
            }
        }
    }
}

/// Whether a right-hand side moves a variable as a whole.
pub open spec fn moves_whole(rv: RvalueV, x: usize) -> bool {
    exists|o: OperandV| #[trigger]
        operand_of(rv, o) && (o matches OperandV::Move(PlaceV::Ssa(l)) && l.base_id == x)
}

/// Whether a statement takes the value of a variable away: it moves it as a whole, and it
/// is not of a type that is copied; or it drops it, or a part of it.
pub open spec fn takes(s: StmtV, x: usize, locals: Seq<LocalV>) -> bool {
    match s {
        StmtV::Assign { value, .. } => moves_whole(value, x) && !copy_type(var_type(locals, x)),
        StmtV::ExprStmt(value) => moves_whole(value, x) && !copy_type(var_type(locals, x)),
        StmtV::Drop { place } => bottom(place).base_id == x,
        _ => false,
    }
}

/// Whether a variable is a parameter.
pub open spec fn is_param(locals: Seq<LocalV>, x: usize) -> bool {
    exists|i: int| 0 <= i < locals.len() && (#[trigger] locals[i]).is_param && locals[i].id == x
}

/// Whether variable `x` has a value after the statements: at the start, or since one of
/// them gave it one, and none has taken it away since.
pub open spec fn has_value(
    stmts: Seq<StmtV>,
    x: usize,
    at_start: bool,
    locals: Seq<LocalV>,
) -> bool {
    ||| at_start && forall|j: int| 0 <= j < stmts.len() ==> !takes(#[trigger] stmts[j], x, locals)
    ||| exists|i: int|
        {
            &&& 0 <= i < stmts.len()
            &&& gives(#[trigger] stmts[i], x)
            &&& forall|j: int| i < j < stmts.len() ==> !takes(#[trigger] stmts[j], x, locals)
        }
}

proof fn lemma_moved(rv: RvalueV, x: usize)
    ensures
        moved_by(rvalue_operands(rv)).contains(x) <==> moves_whole(rv, x),
{
    let ops = rvalue_operands(rv);
    if moved_by(ops).contains(x) {
        let i = choose|i: int|
            0 <= i < ops.len() && (#[trigger] ops[i] matches OperandV::Move(PlaceV::Ssa(s))
                && s.base_id == x);
        lemma_operands_exact(rv, ops[i]);
        assert(ops.contains(ops[i]));
        assert(operand_of(rv, ops[i]));
    }
    if moves_whole(rv, x) {
        let o = choose|o: OperandV| #[trigger]
            operand_of(rv, o) && (o matches OperandV::Move(PlaceV::Ssa(l)) && l.base_id == x);
        lemma_operands_exact(rv, o);
        let i = choose|i: int| 0 <= i < ops.len() && ops[i] == o;
        assert(ops[i] is Move);
    }
}

proof fn lemma_after_one(s: StmtV, state: Set<usize>, locals: Seq<LocalV>, x: usize)
    ensures
        init_after(s, state, locals).contains(x) <==> gives(s, x) || (state.contains(x) && !takes(
            s,
            x,
            locals,
        )),
{
    match s {
        StmtV::Assign { value, .. } => lemma_moved(value, x),
        StmtV::ExprStmt(value) => lemma_moved(value, x),
        StmtV::Drop { place } => lemma_root_bottom(place),
        _ => {},
    }
}

proof fn lemma_held_value(
    stmts: Seq<StmtV>,
    n: int,
    state: Set<usize>,
    locals: Seq<LocalV>,
    x: usize,
)
    requires
        0 <= n <= stmts.len(),
    ensures
        held_in(stmts, n, state, locals).contains(x) <==> has_value(
            stmts.take(n),
            x,
            state.contains(x),
            locals,
        ),
    decreases n,
{
    let now = stmts.take(n);
    if n > 0 {
        let before = stmts.take(n - 1);
        let s = stmts[n - 1];
        lemma_held_value(stmts, n - 1, state, locals, x);
        lemma_after_one(s, held_in(stmts, n - 1, state, locals), locals, x);
        assert(now[n - 1] == s);
        assert forall|j: int| 0 <= j < n - 1 implies #[trigger] now[j] == before[j] by {}
        if gives(s, x) {
            assert(has_value(now, x, state.contains(x), locals));
        } else {
            if has_value(before, x, state.contains(x), locals) && !takes(s, x, locals) {
                if exists|i: int|
                    {
                        &&& 0 <= i < before.len()
                        &&& gives(#[trigger] before[i], x)
                        &&& forall|j: int|
                            i < j < before.len() ==> !takes(#[trigger] before[j], x, locals)
                    } {
                    let i = choose|i: int|
                        {
                            &&& 0 <= i < before.len()
                            &&& gives(#[trigger] before[i], x)
                            &&& forall|j: int|
                                i < j < before.len() ==> !takes(#[trigger] before[j], x, locals)
                        };
                    assert(gives(now[i], x));
                    assert forall|j: int| i < j < now.len() implies !takes(
                        #[trigger] now[j],
                        x,
                        locals,
                    ) by {
                        if j < n - 1 {
                            assert(!takes(before[j], x, locals));
                        }
                    }
                } else {
                    assert forall|j: int| 0 <= j < now.len() implies !takes(
                        #[trigger] now[j],
                        x,
                        locals,
                    ) by {
                        if j < n - 1 {
                            assert(!takes(before[j], x, locals));
                        }
                    }
                }
            }
            if has_value(now, x, state.contains(x), locals) {
                if exists|i: int|
                    {
                        &&& 0 <= i < now.len()
                        &&& gives(#[trigger] now[i], x)
                        &&& forall|j: int| i < j < now.len() ==> !takes(#[trigger] now[j], x, locals)
                    } {
                    let i = choose|i: int|
                        {
                            &&& 0 <= i < now.len()
                            &&& gives(#[trigger] now[i], x)
                            &&& forall|j: int|
                                i < j < now.len() ==> !takes(#[trigger] now[j], x, locals)
                        };
                    assert(!takes(now[n - 1], x, locals));
                    assert(gives(before[i], x));
                    assert forall|j: int| i < j < before.len() implies !takes(
                        #[trigger] before[j],
                        x,
                        locals,
                    ) by {
                        assert(!takes(now[j], x, locals));
                    }
                } else {
                    assert(!takes(now[n - 1], x, locals));
                    assert forall|j: int| 0 <= j < before.len() implies !takes(
                        #[trigger] before[j],
                        x,
                        locals,
                    ) by {
                        assert(!takes(now[j], x, locals));
                    }
                }
            }
        }
    }
}

/// The statements that control runs through on the blocks of a path, before it enters the
/// last of them.
pub open spec fn run_before(blocks: Seq<BlockV>, p: Seq<int>) -> Seq<StmtV>
    decreases p.len(),
{
    if p.len() <= 1 {
        Seq::empty()
    } else {
        run_before(blocks, p.drop_last()) + blocks[p[p.len() - 2]].stmts
    }
}

/// Whether control, having followed the path from the entry block, reads variable `x` at
/// place `j` of the last block, and the statements run so far have left it without a
/// value.
pub open spec fn reads_unset(body: BodyV, p: Seq<int>, j: int, x: usize) -> bool {
    let b = body.blocks[p.last()];
    &&& is_path(body.blocks, p)
    &&& 0 <= j <= b.stmts.len()
    &&& if j < b.stmts.len() {
        reads_var(b.stmts[j], x)
    } else {
        ends_on_var(b.terminator, x)
    }
    &&& !has_value(
        run_before(body.blocks, p) + b.stmts.take(j),
        x,
        is_param(body.locals, x),
        body.locals,
    )
}

proof fn lemma_held_joined(
    a: Seq<StmtV>,
    b: Seq<StmtV>,
    n: int,
    state: Set<usize>,
    locals: Seq<LocalV>,
)
    requires
        0 <= n <= b.len(),
    ensures
        held_in(a + b, a.len() + n, state, locals) == held_in(
            b,
            n,
            held_in(a, a.len() as int, state, locals),
            locals,
        ),
    decreases n,
{
    if n > 0 {
        lemma_held_joined(a, b, n - 1, state, locals);
        assert((a + b)[a.len() + n - 1] == b[n - 1]);
    } else {
        lemma_held_prefix(a, b, a.len() as int, state, locals);
    }
}

proof fn lemma_held_prefix(
    a: Seq<StmtV>,
    b: Seq<StmtV>,
    n: int,
    state: Set<usize>,
    locals: Seq<LocalV>,
)
    requires
        0 <= n <= a.len(),
    ensures
        held_in(a + b, n, state, locals) == held_in(a, n, state, locals),
    decreases n,
{
    if n > 0 {
        lemma_held_prefix(a, b, n - 1, state, locals);
        assert((a + b)[n - 1] == a[n - 1]);
    }
}

proof fn lemma_held_run(body: BodyV, p: Seq<int>)
    requires
        p.len() > 0,
    ensures
        ({
            let run = run_before(body.blocks, p);
            held_at(body, p) == held_in(
                run,
                run.len() as int,
                params_of(body.locals),
                body.locals,
            )
        }),
    decreases p.len(),
{
    if p.len() > 1 {
        let q = p.drop_last();
        lemma_held_run(body, q);
        let b = body.blocks[p[p.len() - 2]];
        let run = run_before(body.blocks, q);
        lemma_held_joined(
            run,
            b.stmts,
            b.stmts.len() as int,
            params_of(body.locals),
            body.locals,
        );
        assert(run_before(body.blocks, p).len() == run.len() + b.stmts.len());
    }
}

/// A read without a value is one where the statements run so far have left the variable
/// without one.
pub proof fn lemma_unset_exact(body: BodyV, p: Seq<int>, j: int, x: usize)
    ensures
        unset_read(body, p, j, x) <==> reads_unset(body, p, j, x),
{
    if is_path(body.blocks, p) {
        let b = body.blocks[p.last()];
        if 0 <= j <= b.stmts.len() {
            if j < b.stmts.len() {
                lemma_uses_exact(b.stmts[j], x);
            } else {
                lemma_term_uses_exact(b.terminator, x);
            }
            let run = run_before(body.blocks, p);
            let all = run + b.stmts;
            let start = params_of(body.locals);
            lemma_held_run(body, p);
            lemma_held_joined(run, b.stmts, j, start, body.locals);
            lemma_held_value(all, run.len() + j, start, body.locals, x);
            assert(all.take(run.len() + j) =~= run + b.stmts.take(j));
        }
    }
}

/// A body passes the initialisation check exactly where, on every path from the entry
/// block, each variable has a value where it is read: it is a parameter, or a statement
/// gave it a value, and none has taken it away since. The complaint names a variable that
/// is read without a value.
pub proof fn lemma_init_exact(body: BodyV)
    requires
        0 < body.blocks.len() <= usize::MAX,
    ensures
        init_error(body) is None <==> forall|p: Seq<int>, j: int, x: usize|
            !#[trigger] reads_unset(body, p, j, x),
        init_error(body) is Some ==> exists|p: Seq<int>, j: int, x: usize|
            #[trigger] reads_unset(body, p, j, x) && init_error(body) == Some(
                uninit_message(body.locals, x),
            ),
{
    if init_error(body) is None {
        assert forall|p: Seq<int>, j: int, x: usize| !#[trigger] reads_unset(body, p, j, x) by {
            lemma_init_sound(body, p, j, x);
            lemma_unset_exact(body, p, j, x);
        }
    } else {
        let e = init_error(body)->0;
        lemma_init_complete(body, e);
        let (p, j, x) = choose|p: Seq<int>, j: int, x: usize|
            #[trigger] unset_read(body, p, j, x) && e == uninit_message(body.locals, x);
        lemma_unset_exact(body, p, j, x);
        assert(reads_unset(body, p, j, x));
    }
}

} // verus!
