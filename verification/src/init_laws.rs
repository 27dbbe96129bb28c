//! The laws of the initialisation check: a body passes exactly where no path reads a
//! variable without a value.

use vstd::prelude::*;

use crate::cfg::{edge, is_path, lemma_unset_update, successors_of, unset};
use crate::idset::is_least;
use crate::init::{
    after_moves, flow_all, flow_to, held_at, held_in, init_after, init_block, init_error,
    init_round, init_run, init_start, init_stmts, lemma_init_run_stable, missing, moves_of,
    params_of, progressed, reads_at, uninit_message, unset_read, InitState,
};
use crate::liveness::{lemma_total_size_update, term_uses_of, total_size, uses_of};
use crate::mir::{BodyV, LocalV, StmtV};

verus! {

// The check comes to an end.

/// Whether the sets are finite and there is one for each block.
spec fn sound(body: BodyV, st: InitState) -> bool {
    &&& st.ins.len() == body.blocks.len()
    &&& st.seeded.len() == body.blocks.len()
    &&& forall|i: int| 0 <= i < st.ins.len() ==> (#[trigger] st.ins[i]).finite()
}

proof fn lemma_params_finite(locals: Seq<LocalV>)
    ensures
        params_of(locals).finite(),
    decreases locals.len(),
{
    if locals.len() == 0 {
        assert(params_of(locals) =~= Set::empty());
    } else {
        let front = locals.drop_last();
        lemma_params_finite(front);
        let more = params_of(front).insert(locals.last().id);
        assert(params_of(locals).subset_of(more)) by {
            assert forall|x: usize| params_of(locals).contains(x) implies more.contains(x) by {
                let i = choose|i: int|
                    0 <= i < locals.len() && (#[trigger] locals[i]).is_param && locals[i].id == x;
                if i < front.len() {
                    assert(front[i].is_param && front[i].id == x);
                }
            }
        }
        vstd::set_lib::lemma_set_subset_finite(more, params_of(locals));
    }
}

proof fn lemma_after_finite(s: StmtV, state: Set<usize>, locals: Seq<LocalV>)
    requires
        state.finite(),
    ensures
        init_after(s, state, locals).finite(),
{
    let rest = after_moves(state, moves_of(s), locals);
    assert(rest.subset_of(state));
    vstd::set_lib::lemma_set_subset_finite(state, rest);
}

proof fn lemma_stmts_finite(stmts: Seq<StmtV>, n: int, state: Set<usize>, locals: Seq<LocalV>)
    requires
        state.finite(),
    ensures
        init_stmts(stmts, n, state, locals) matches Ok(s) ==> s.finite(),
    decreases n,
{
    if n > 0 {
        lemma_stmts_finite(stmts, n - 1, state, locals);
        if let Ok(st) = init_stmts(stmts, n - 1, state, locals) {
            lemma_after_finite(stmts[n - 1], st, locals);
        }
    }
}

proof fn lemma_flow_progress(body: BodyV, before: InitState, st: InitState, succ: usize, out: Set<
    usize,
>)
    requires
        sound(body, before),
        sound(body, st),
        out.finite(),
        progressed(before, st),
    ensures
        sound(body, flow_to(st, succ, out)),
        progressed(before, flow_to(st, succ, out)),
{
    let next = flow_to(st, succ, out);
    if succ < st.ins.len() {
        let i = succ as int;
        if st.seeded[i] {
            let new = st.ins[i].intersect(out);
            assert(st.seeded.update(i, true) =~= st.seeded);
            if new != st.ins[i] {
                assert(st.ins =~= next.ins.update(i, st.ins[i]));
                lemma_total_size_update(next.ins, i, st.ins[i]);
            } else {
                assert(next.ins =~= st.ins);
            }
        } else {
            lemma_unset_update(st.seeded, i);
        }
    }
}

proof fn lemma_flows_progress(
    body: BodyV,
    before: InitState,
    st: InitState,
    succs: Seq<usize>,
    n: int,
    out: Set<usize>,
)
    requires
        sound(body, before),
        sound(body, st),
        out.finite(),
        progressed(before, st),
        n <= succs.len(),
    ensures
        sound(body, flow_all(st, succs, n, out)),
        progressed(before, flow_all(st, succs, n, out)),
    decreases n,
{
    if n > 0 {
        lemma_flows_progress(body, before, st, succs, n - 1, out);
        lemma_flow_progress(body, before, flow_all(st, succs, n - 1, out), succs[n - 1], out);
    }
}

proof fn lemma_round_progress(body: BodyV, st: InitState, n: int)
    requires
        sound(body, st),
        n <= body.blocks.len(),
    ensures
        init_round(body, st, n) matches Ok(next) ==> sound(body, next) && progressed(
            InitState { changed: false, ..st },
            next,
        ),
    decreases n,
{
    if n > 0 {
        lemma_round_progress(body, st, n - 1);
        if let Ok(s) = init_round(body, st, n - 1) {
            let b = body.blocks[n - 1];
            if !s.seeded[n - 1] {
            } else if let Ok(out) = init_block(b, s.ins[n - 1], body.locals) {
                lemma_stmts_finite(b.stmts, b.stmts.len() as int, s.ins[n - 1], body.locals);
                let succs = successors_of(b.terminator);
                lemma_flows_progress(
                    body,
                    InitState { changed: false, ..st },
                    s,
                    succs,
                    succs.len() as int,
                    out,
                );
            }
        }
    }
}

/// Rounds come to an end.
proof fn lemma_run_ends(body: BodyV, st: InitState) -> (k: nat)
    requires
        sound(body, st),
    ensures
        init_run(body, st, k) is Some,
    decreases unset(st.seeded), total_size(st.ins),
{
    lemma_round_progress(body, st, body.blocks.len() as int);
    match init_round(body, st, body.blocks.len() as int) {
        Ok(next) => if next.changed {
            let k = lemma_run_ends(body, next);
            k + 1
        } else {
            1
        },
        Err(_) => 1,
    }
}

// At the end, nothing flows in that was not counted.

proof fn lemma_flow_unchanged(st: InitState, succs: Seq<usize>, n: int, out: Set<usize>)
    requires
        n <= succs.len(),
        st.ins.len() == st.seeded.len(),
        !flow_all(st, succs, n, out).changed,
    ensures
        !st.changed,
        flow_all(st, succs, n, out).ins == st.ins,
        flow_all(st, succs, n, out).seeded == st.seeded,
        forall|k: int|
            0 <= k < n && #[trigger] succs[k] < st.ins.len() ==> st.seeded[succs[k] as int]
                && st.ins[succs[k] as int].subset_of(out),
    decreases n,
{
    if n > 0 {
        let mid = flow_all(st, succs, n - 1, out);
        let x = succs[n - 1];
        lemma_flow_unchanged(st, succs, n - 1, out);
        let end = flow_to(mid, x, out);
        if x < mid.ins.len() {
            assert(end.ins =~= mid.ins);
            assert(end.seeded =~= mid.seeded);
            assert(mid.ins[x as int] == mid.ins[x as int].intersect(out));
            assert(mid.ins[x as int].subset_of(out));
        }
    }
}

proof fn lemma_round_unchanged(body: BodyV, st: InitState, n: int)
    requires
        0 <= n <= body.blocks.len(),
        st.ins.len() == body.blocks.len(),
        st.seeded.len() == body.blocks.len(),
        init_round(body, st, n) matches Ok(s) && !s.changed,
    ensures
        init_round(body, st, n)->Ok_0.ins == st.ins,
        init_round(body, st, n)->Ok_0.seeded == st.seeded,
        forall|b: int|
            0 <= b < n && st.seeded[b] ==> #[trigger] init_block(
                body.blocks[b],
                st.ins[b],
                body.locals,
            ) is Ok,
        forall|b: int, k: int|
            0 <= b < n && st.seeded[b] && 0 <= k < successors_of(body.blocks[b].terminator).len()
                && #[trigger] successors_of(body.blocks[b].terminator)[k] < st.ins.len()
                ==> st.seeded[successors_of(body.blocks[b].terminator)[k] as int]
                && st.ins[successors_of(body.blocks[b].terminator)[k] as int].subset_of(
                init_block(body.blocks[b], st.ins[b], body.locals)->Ok_0,
            ),
    decreases n,
{
    if n > 0 {
        let s = init_round(body, st, n - 1)->Ok_0;
        assert(init_round(body, st, n - 1) is Ok);
        lemma_round_len(body, st, n - 1);
        if s.seeded[n - 1] {
            let blk = body.blocks[n - 1];
            let out = init_block(blk, s.ins[n - 1], body.locals)->Ok_0;
            let succs = successors_of(blk.terminator);
            assert(init_round(body, st, n) == Ok::<InitState, Seq<char>>(
                flow_all(s, succs, succs.len() as int, out),
            ));
            lemma_flow_unchanged(s, succs, succs.len() as int, out);
        }
        lemma_round_unchanged(body, st, n - 1);
    }
}

proof fn lemma_flow_len(st: InitState, succs: Seq<usize>, n: int, out: Set<usize>)
    requires
        st.ins.len() == st.seeded.len(),
        n <= succs.len(),
    ensures
        flow_all(st, succs, n, out).ins.len() == st.ins.len(),
        flow_all(st, succs, n, out).seeded.len() == st.seeded.len(),
        st.ins.len() > 0 && st.seeded[0] ==> flow_all(st, succs, n, out).seeded[0] && flow_all(
            st,
            succs,
            n,
            out,
        ).ins[0].subset_of(st.ins[0]),
    decreases n,
{
    if n > 0 {
        lemma_flow_len(st, succs, n - 1, out);
    }
}

proof fn lemma_round_len(body: BodyV, st: InitState, n: int)
    requires
        n <= body.blocks.len(),
        st.ins.len() == body.blocks.len(),
        st.seeded.len() == body.blocks.len(),
    ensures
        init_round(body, st, n) matches Ok(s) ==> {
            &&& s.ins.len() == st.ins.len()
            &&& s.seeded.len() == st.seeded.len()
            &&& st.ins.len() > 0 && st.seeded[0] ==> s.seeded[0] && s.ins[0].subset_of(st.ins[0])
        },
    decreases n,
{
    if n > 0 {
        lemma_round_len(body, st, n - 1);
        if let Ok(s) = init_round(body, st, n - 1) {
            let b = body.blocks[n - 1];
            if !s.seeded[n - 1] {
            } else if let Ok(out) = init_block(b, s.ins[n - 1], body.locals) {
                let succs = successors_of(b.terminator);
                lemma_flow_len(s, succs, succs.len() as int, out);
            }
        }
    }
}

/// A run of rounds that ends well ends in a state that a further round keeps.
proof fn lemma_run_state(body: BodyV, st: InitState, k: nat) -> (fin: InitState)
    requires
        init_run(body, st, k) matches Some(Ok(_)),
        st.ins.len() == body.blocks.len(),
        st.seeded.len() == body.blocks.len(),
        body.blocks.len() > 0,
        st.seeded[0],
    ensures
        fin.ins.len() == body.blocks.len(),
        fin.seeded.len() == body.blocks.len(),
        fin.seeded[0],
        fin.ins[0].subset_of(st.ins[0]),
        init_round(body, fin, body.blocks.len() as int) matches Ok(s) && !s.changed,
    decreases k,
{
    lemma_round_len(body, st, body.blocks.len() as int);
    let next = init_round(body, st, body.blocks.len() as int)->Ok_0;
    if next.changed {
        lemma_run_state(body, next, (k - 1) as nat)
    } else {
        st
    }
}

// Having more values never hurts.

/// A set of numbers that is not empty has a least.
proof fn lemma_least(s: Set<usize>, x: usize) -> (u: usize)
    requires
        s.contains(x),
    ensures
        is_least(s, u),
    decreases x,
{
    if exists|y: usize| s.contains(y) && y < x {
        let y = choose|y: usize| s.contains(y) && y < x;
        lemma_least(s, y)
    } else {
        x
    }
}

/// Nothing is missing exactly where all that is read has a value.
proof fn lemma_nothing_missing(uses: Set<usize>, state: Set<usize>)
    ensures
        missing(uses, state) is None <==> uses.subset_of(state),
{
    if missing(uses, state) is None && !uses.subset_of(state) {
        let x = choose|x: usize| uses.contains(x) && !state.contains(x);
        let u = lemma_least(uses.difference(state), x);
        assert(is_least(uses.difference(state), u));
    }
}

/// What the check finds of statements holds of any state with more values.
proof fn lemma_stmts_more(
    stmts: Seq<StmtV>,
    n: int,
    state: Set<usize>,
    more: Set<usize>,
    locals: Seq<LocalV>,
)
    requires
        state.subset_of(more),
        0 <= n <= stmts.len(),
        init_stmts(stmts, n, state, locals) is Ok,
    ensures
        init_stmts(stmts, n, state, locals)->Ok_0.subset_of(held_in(stmts, n, more, locals)),
        forall|j: int|
            0 <= j < n ==> uses_of(#[trigger] stmts[j]).subset_of(held_in(stmts, j, more, locals)),
    decreases n,
{
    if n > 0 {
        lemma_stmts_more(stmts, n - 1, state, more, locals);
        let st = init_stmts(stmts, n - 1, state, locals)->Ok_0;
        lemma_nothing_missing(uses_of(stmts[n - 1]), st);
    }
}

/// Where control enters a block, at least the variables have a value that the check
/// counts.
proof fn lemma_path_held(body: BodyV, fin: InitState, p: Seq<int>)
    requires
        is_path(body.blocks, p),
        fin.ins.len() == body.blocks.len() <= usize::MAX,
        fin.seeded.len() == body.blocks.len(),
        fin.seeded[0],
        fin.ins[0].subset_of(params_of(body.locals)),
        init_round(body, fin, body.blocks.len() as int) matches Ok(s) && !s.changed,
    ensures
        0 <= p.last() < body.blocks.len(),
        fin.seeded[p.last()],
        fin.ins[p.last()].subset_of(held_at(body, p)),
    decreases p.len(),
{
    if p.len() > 1 {
        let q = p.drop_last();
        assert(is_path(body.blocks, q)) by {
            assert forall|i: int| 0 < i < q.len() implies edge(
                body.blocks,
                q[i - 1],
                #[trigger] q[i],
            ) by {
                assert(edge(body.blocks, p[i - 1], p[i]));
            }
        }
        lemma_path_held(body, fin, q);
        let a = q.last();
        let b = p.last();
        assert(edge(body.blocks, p[p.len() - 2], p[p.len() - 1]));
        let blk = body.blocks[a];
        let succs = successors_of(blk.terminator);
        let k = choose|k: int| 0 <= k < succs.len() && succs[k] == b as usize;
        lemma_round_unchanged(body, fin, body.blocks.len() as int);
        assert(init_block(body.blocks[a], fin.ins[a], body.locals) is Ok);
        assert(successors_of(body.blocks[a].terminator)[k] < fin.ins.len());
        lemma_stmts_more(
            blk.stmts,
            blk.stmts.len() as int,
            fin.ins[a],
            held_at(body, q),
            body.locals,
        );
    }
}

/// A body that passes the initialisation check reads no variable without a value, on any
/// path from the entry block.
pub proof fn lemma_init_sound(body: BodyV, p: Seq<int>, j: int, u: usize)
    requires
        init_error(body) is None,
        body.blocks.len() <= usize::MAX,
    ensures
        !unset_read(body, p, j, u),
{
    if unset_read(body, p, j, u) {
        let start = init_start(body);
        assert(sound(body, start)) by {
            lemma_params_finite(body.locals);
        }
        let k0 = lemma_run_ends(body, start);
        let k = choose|k: nat| init_run(body, start, k) is Some;
        assert(init_run(body, start, k0) is Some);
        lemma_init_run_stable(body, start, k, k0);
        let fin = lemma_run_state(body, start, k);
        lemma_path_held(body, fin, p);
        lemma_round_unchanged(body, fin, body.blocks.len() as int);
        let b = body.blocks[p.last()];
        assert(init_block(body.blocks[p.last()], fin.ins[p.last()], body.locals) is Ok);
        lemma_stmts_more(
            b.stmts,
            b.stmts.len() as int,
            fin.ins[p.last()],
            held_at(body, p),
            body.locals,
        );
        let st = init_stmts(b.stmts, b.stmts.len() as int, fin.ins[p.last()], body.locals)->Ok_0;
        lemma_nothing_missing(term_uses_of(b.terminator), st);
        if j < b.stmts.len() {
            assert(uses_of(b.stmts[j]).subset_of(
                held_in(b.stmts, j, held_at(body, p), body.locals),
            ));
        }
    }
}

// Every complaint has a path.

/// Whether a variable has a value after statements depends on whether that variable had
/// one before, and having had one does no harm.
proof fn lemma_held_pointwise(
    stmts: Seq<StmtV>,
    n: int,
    a: Set<usize>,
    b: Set<usize>,
    locals: Seq<LocalV>,
    x: usize,
)
    requires
        b.contains(x) ==> a.contains(x),
        held_in(stmts, n, b, locals).contains(x),
    ensures
        held_in(stmts, n, a, locals).contains(x),
    decreases n,
{
    if n > 0 {
        let s = stmts[n - 1];
        let hb = held_in(stmts, n - 1, b, locals);
        if hb.contains(x) {
            lemma_held_pointwise(stmts, n - 1, a, b, locals, x);
        }
    }
}

/// Whether a path leads to block `b` on which, there, variable `x` has no value where
/// `set` does not hold it.
spec fn witnessed(body: BodyV, b: int, set: Set<usize>) -> bool {
    &&& exists|p: Seq<int>| #[trigger] ends_at(body, p, b)
    &&& forall|x: usize|
        !(#[trigger] set.contains(x)) ==> exists|p: Seq<int>|
            #[trigger] ends_at(body, p, b) && !held_at(body, p).contains(x)
}

/// Whether a path from the entry block leads to block `b`.
spec fn ends_at(body: BodyV, p: Seq<int>, b: int) -> bool {
    is_path(body.blocks, p) && p.last() == b
}

/// Whether every block that control was seen to enter is witnessed.
spec fn all_witnessed(body: BodyV, st: InitState) -> bool {
    &&& st.ins.len() == body.blocks.len()
    &&& st.seeded.len() == body.blocks.len()
    &&& forall|b: int|
        0 <= b < body.blocks.len() && #[trigger] st.seeded[b] ==> witnessed(body, b, st.ins[b])
}

/// What the check does not count after statements, some path lacks there.
proof fn lemma_lacking(body: BodyV, b: int, set: Set<usize>, j: int, x: usize) -> (p: Seq<int>)
    requires
        0 <= b < body.blocks.len(),
        witnessed(body, b, set),
        !held_in(body.blocks[b].stmts, j, set, body.locals).contains(x),
    ensures
        ends_at(body, p, b),
        !held_in(body.blocks[b].stmts, j, held_at(body, p), body.locals).contains(x),
{
    let p = if set.contains(x) {
        choose|p: Seq<int>| #[trigger] ends_at(body, p, b)
    } else {
        choose|p: Seq<int>| #[trigger] ends_at(body, p, b) && !held_at(body, p).contains(x)
    };
    if held_in(body.blocks[b].stmts, j, held_at(body, p), body.locals).contains(x) {
        lemma_held_pointwise(
            body.blocks[b].stmts,
            j,
            set,
            held_at(body, p),
            body.locals,
            x,
        );
    }
    p
}

proof fn lemma_longer(body: BodyV, p: Seq<int>, b: int, k: int)
    requires
        ends_at(body, p, b),
        0 <= b < body.blocks.len() <= usize::MAX,
        0 <= k < successors_of(body.blocks[b].terminator).len(),
        successors_of(body.blocks[b].terminator)[k] < body.blocks.len(),
    ensures
        ends_at(body, p.push(successors_of(body.blocks[b].terminator)[k] as int), successors_of(
            body.blocks[b].terminator,
        )[k] as int),
        held_at(body, p.push(successors_of(body.blocks[b].terminator)[k] as int)) == held_in(
            body.blocks[b].stmts,
            body.blocks[b].stmts.len() as int,
            held_at(body, p),
            body.locals,
        ),
{
    let c = successors_of(body.blocks[b].terminator)[k] as int;
    let q = p.push(c);
    assert(q.drop_last() =~= p);
    assert(edge(body.blocks, b, c));
    assert forall|i: int| 0 < i < q.len() implies edge(body.blocks, q[i - 1], #[trigger] q[i]) by {
        if i < p.len() {
            assert(edge(body.blocks, p[i - 1], p[i]));
        }
    }
}

/// Where nothing is missing, what the check counts is what has a value.
proof fn lemma_stmts_held(stmts: Seq<StmtV>, n: int, state: Set<usize>, locals: Seq<LocalV>)
    ensures
        init_stmts(stmts, n, state, locals) matches Ok(s) ==> s == held_in(
            stmts,
            n,
            state,
            locals,
        ),
    decreases n,
{
    if n > 0 {
        lemma_stmts_held(stmts, n - 1, state, locals);
    }
}

proof fn lemma_flow_witnessed(body: BodyV, st: InitState, b: int, n: int, from: Set<usize>)
    requires
        all_witnessed(body, st),
        0 <= b < body.blocks.len() <= usize::MAX,
        witnessed(body, b, from),
        0 <= n <= successors_of(body.blocks[b].terminator).len(),
    ensures
        all_witnessed(
            body,
            flow_all(
                st,
                successors_of(body.blocks[b].terminator),
                n,
                held_in(
                    body.blocks[b].stmts,
                    body.blocks[b].stmts.len() as int,
                    from,
                    body.locals,
                ),
            ),
        ),
    decreases n,
{
    if n > 0 {
        lemma_flow_witnessed(body, st, b, n - 1, from);
        let blk = body.blocks[b];
        let succs = successors_of(blk.terminator);
        let len = blk.stmts.len() as int;
        let out = held_in(blk.stmts, len, from, body.locals);
        let mid = flow_all(st, succs, n - 1, out);
        let end = flow_to(mid, succs[n - 1], out);
        let c = succs[n - 1] as int;
        if c < body.blocks.len() {
            assert(witnessed(body, c, end.ins[c])) by {
                let p0 = choose|p: Seq<int>| #[trigger] ends_at(body, p, b);
                lemma_longer(body, p0, b, n - 1);
                assert(ends_at(body, p0.push(c), c));
                assert forall|x: usize| !(#[trigger] end.ins[c].contains(x)) implies exists|
                    p: Seq<int>,
                | #[trigger] ends_at(body, p, c) && !held_at(body, p).contains(x) by {
                    if !out.contains(x) {
                        let p = lemma_lacking(body, b, from, len, x);
                        lemma_longer(body, p, b, n - 1);
                        assert(ends_at(body, p.push(c), c));
                    } else {
                        assert(mid.seeded[c]);
                        assert(!mid.ins[c].contains(x));
                    }
                }
            }
            assert forall|i: int|
                0 <= i < body.blocks.len() && #[trigger] end.seeded[i] implies witnessed(
                body,
                i,
                end.ins[i],
            ) by {
                if i != c {
                    assert(mid.seeded[i]);
                }
            }
        }
    }
}

/// The complaint about a block from a witnessed state has a path.
proof fn lemma_complaint_path(body: BodyV, b: int, set: Set<usize>, n: int) -> (r: (
    Seq<int>,
    int,
    usize,
))
    requires
        0 <= b < body.blocks.len(),
        witnessed(body, b, set),
        0 <= n <= body.blocks[b].stmts.len(),
        init_stmts(body.blocks[b].stmts, n, set, body.locals) is Err || (n
            == body.blocks[b].stmts.len() && init_block(body.blocks[b], set, body.locals) is Err),
    ensures
        unset_read(body, r.0, r.1, r.2),
        ({
            let e = uninit_message(body.locals, r.2);
            if init_stmts(body.blocks[b].stmts, n, set, body.locals) is Err {
                init_stmts(body.blocks[b].stmts, n, set, body.locals) == Err::<
                    Set<usize>,
                    Seq<char>,
                >(e)
            } else {
                init_block(body.blocks[b], set, body.locals) == Err::<Set<usize>, Seq<char>>(e)
            }
        }),
    decreases n,
{
    let blk = body.blocks[b];
    let whole = init_stmts(blk.stmts, n, set, body.locals) is Ok;
    if !whole && init_stmts(blk.stmts, n - 1, set, body.locals) is Err {
        lemma_complaint_path(body, b, set, n - 1)
    } else {
        let j = if whole {
            n
        } else {
            n - 1
        };
        lemma_stmts_held(blk.stmts, j, set, body.locals);
        let st = held_in(blk.stmts, j, set, body.locals);
        let uses = reads_at(blk, j);
        let u = missing(uses, st)->Some_0;
        assert(is_least(uses.difference(st), u));
        let p = lemma_lacking(body, b, set, j, u);
        (p, j, u)
    }
}

proof fn lemma_round_witnessed(body: BodyV, st: InitState, n: int)
    requires
        all_witnessed(body, st),
        0 <= n <= body.blocks.len() <= usize::MAX,
    ensures
        match init_round(body, st, n) {
            Ok(next) => all_witnessed(body, next),
            Err(e) => exists|p: Seq<int>, j: int, u: usize|
                #[trigger] unset_read(body, p, j, u) && e == uninit_message(body.locals, u),
        },
    decreases n,
{
    if n > 0 {
        lemma_round_witnessed(body, st, n - 1);
        if let Ok(s) = init_round(body, st, n - 1) {
            let b = n - 1;
            let blk = body.blocks[b];
            if s.seeded[b] {
                match init_block(blk, s.ins[b], body.locals) {
                    Ok(out) => {
                        let succs = successors_of(blk.terminator);
                        lemma_stmts_held(blk.stmts, blk.stmts.len() as int, s.ins[b], body.locals);
                        lemma_flow_witnessed(body, s, b, succs.len() as int, s.ins[b]);
                    },
                    Err(e) => {
                        let (p, j, u) = lemma_complaint_path(
                            body,
                            b,
                            s.ins[b],
                            blk.stmts.len() as int,
                        );
                        assert(unset_read(body, p, j, u) && e == uninit_message(body.locals, u));
                    },
                }
            }
        }
    }
}

proof fn lemma_run_witnessed(body: BodyV, st: InitState, k: nat, e: Seq<char>)
    requires
        all_witnessed(body, st),
        body.blocks.len() <= usize::MAX,
        init_run(body, st, k) == Some(Err::<(), Seq<char>>(e)),
    ensures
        exists|p: Seq<int>, j: int, u: usize|
            #[trigger] unset_read(body, p, j, u) && e == uninit_message(body.locals, u),
    decreases k,
{
    lemma_round_witnessed(body, st, body.blocks.len() as int);
    if let Ok(next) = init_round(body, st, body.blocks.len() as int) {
        if next.changed {
            lemma_run_witnessed(body, next, (k - 1) as nat, e);
        }
    }
}

/// A complaint comes only where it is due: some path from the entry block reads the
/// variable that is complained about without a value.
pub proof fn lemma_init_complete(body: BodyV, e: Seq<char>)
    requires
        init_error(body) == Some(e),
        0 < body.blocks.len() <= usize::MAX,
    ensures
        exists|p: Seq<int>, j: int, u: usize|
            #[trigger] unset_read(body, p, j, u) && e == uninit_message(body.locals, u),
{
    let start = init_start(body);
    assert(all_witnessed(body, start)) by {
        let p = seq![0int];
        assert(ends_at(body, p, 0));
        assert(held_at(body, p) == params_of(body.locals));
        assert(witnessed(body, 0, start.ins[0]));
    }
    let k = choose|k: nat| init_run(body, start, k) is Some;
    lemma_run_witnessed(body, start, k, e);
}

} // verus!
