//! An abstract machine: registers for the SSA locals, a memory for everything else.
//! What it leaves open are the contents of memory and the answers to what only the
//! target can compute.

use vstd::prelude::*;

use crate::ast::BinaryOp;
use crate::calc::{fold_binary, fold_unary};
use crate::calc_exact::{held, lemma_held};
use crate::fold::{is_bool, is_int};
use crate::literal::{literal_eq, LiteralV};
use crate::mir::{BlockV, OperandV, PlaceV, RvalueV, SsaLocal, StmtV, TermV};
use crate::run::{finishes, run, walked, Eval, Outcome};
use crate::simplify::side_effect;

verus! {

/// Where a place lies, with the registers that it goes through read.
pub enum Spot {
    Value(LiteralV),
    Field { base: Box<Spot>, field: Seq<char> },
    Index { base: Box<Spot>, index: LiteralV },
    Deref(Box<Spot>),
    Payload { base: Box<Spot>, enum_name: Seq<char>, variant_name: Seq<char> },
}

/// The registers and the memory at a point of a run.
#[verifier::ext_equal]
pub struct Store {
    pub regs: Map<SsaLocal, LiteralV>,
    pub memory: int,
}

/// What the target supplies: what memory holds at a spot, what a symbol stands for,
/// what a reference is, the answers to operations that literals do not fold, and what
/// calls, writes and the remaining statements do to memory.
pub struct Machine {
    pub load: spec_fn(Spot, int) -> LiteralV,
    pub named: spec_fn(OperandV, int) -> LiteralV,
    pub refer: spec_fn(bool, PlaceV, Spot, int) -> LiteralV,
    pub answer: spec_fn(RvalueV, int) -> LiteralV,
    pub effect: spec_fn(RvalueV, int) -> int,
    pub write: spec_fn(PlaceV, Spot, LiteralV, int) -> int,
    pub note: spec_fn(StmtV, Spot, int) -> int,
}

/// Where a place lies.
pub open spec fn spot_of(m: Machine, p: PlaceV, st: Store) -> Spot
    decreases p,
{
    match p {
        PlaceV::Ssa(s) => Spot::Value(st.regs[s]),
        PlaceV::Field { base, field } => Spot::Field {
            base: Box::new(spot_of(m, *base, st)),
            field,
        },
        PlaceV::Index { base, index } => Spot::Index {
            base: Box::new(spot_of(m, *base, st)),
            index: value_of(m, *index, st),
        },
        PlaceV::Deref(base) => Spot::Deref(Box::new(spot_of(m, *base, st))),
        PlaceV::EnumPayload { base, enum_name, variant_name } => Spot::Payload {
            base: Box::new(spot_of(m, *base, st)),
            enum_name,
            variant_name,
        },
    }
}

/// The value of an operand.
pub open spec fn value_of(m: Machine, o: OperandV, st: Store) -> LiteralV
    decreases o,
{
    match o {
        OperandV::Copy(PlaceV::Ssa(s)) | OperandV::Move(PlaceV::Ssa(s)) => st.regs[s],
        OperandV::Copy(p) | OperandV::Move(p) => (m.load)(spot_of(m, p, st), st.memory),
        OperandV::Constant(c) => c,
        _ => (m.named)(o, st.memory),
    }
}

/// An operand replaced by its value.
pub open spec fn settled_operand(m: Machine, o: OperandV, st: Store) -> OperandV {
    OperandV::Constant(value_of(m, o, st))
}

/// Each operand replaced by its value.
pub open spec fn settled_operands(m: Machine, ops: Seq<OperandV>, st: Store) -> Seq<OperandV> {
    Seq::new(ops.len(), |i: int| settled_operand(m, ops[i], st))
}

/// A right-hand side with its operands replaced by their values.
pub open spec fn settled(m: Machine, rv: RvalueV, st: Store) -> RvalueV {
    match rv {
        RvalueV::Use(o) => RvalueV::Use(settled_operand(m, o, st)),
        RvalueV::BinaryOp(op, l, r) => RvalueV::BinaryOp(
            op,
            settled_operand(m, l, st),
            settled_operand(m, r, st),
        ),
        RvalueV::UnaryOp(op, o) => RvalueV::UnaryOp(op, settled_operand(m, o, st)),
        RvalueV::Cast(o, ty) => RvalueV::Cast(settled_operand(m, o, st), ty),
        RvalueV::Call { func, args, is_intrinsic, intrinsic_name, generic_args } => RvalueV::Call {
            func,
            args: settled_operands(m, args, st),
            is_intrinsic,
            intrinsic_name,
            generic_args,
        },
        RvalueV::MethodCall { receiver, method, args, generic_args } => RvalueV::MethodCall {
            receiver: settled_operand(m, receiver, st),
            method,
            args: settled_operands(m, args, st),
            generic_args,
        },
        RvalueV::StructInit { struct_name, generic_args, fields } => RvalueV::StructInit {
            struct_name,
            generic_args,
            fields: Seq::new(
                fields.len(),
                |i: int| (fields[i].0, settled_operand(m, fields[i].1, st)),
            ),
        },
        RvalueV::EnumVariantConstruction { enum_name, generic_args, variant_name, args } => {
            RvalueV::EnumVariantConstruction {
                enum_name,
                generic_args,
                variant_name,
                args: settled_operands(m, args, st),
            }
        },
        RvalueV::ArrayLiteral(es) => RvalueV::ArrayLiteral(settled_operands(m, es, st)),
        RvalueV::Discriminant { value, enum_name } => RvalueV::Discriminant {
            value: settled_operand(m, value, st),
            enum_name,
        },
        RvalueV::Ref { .. } | RvalueV::Phi { .. } => rv,
    }
}

/// The value of an operation that the machine carries out itself: sums, differences and
/// products of integers are those of arithmetic, where a literal can hold them.
pub open spec fn computed(op: BinaryOp, x: LiteralV, y: LiteralV) -> Option<LiteralV> {
    match (x, y) {
        (LiteralV::Int(j, l), LiteralV::Int(k, r)) if j == k && (op is Add || op is Sub
            || op is Mul) => {
            let v = if op is Add {
                l + r
            } else if op is Sub {
                l - r
            } else {
                l * r
            };
            if held(k, v) {
                Some(LiteralV::Int(k, v))
            } else {
                None
            }
        },
        _ => fold_binary(op, x, y),
    }
}

/// The machine's own value of an operation is the one that folding gives.
pub proof fn lemma_computed(op: BinaryOp, x: LiteralV, y: LiteralV)
    ensures
        computed(op, x, y) == fold_binary(op, x, y),
{
    if let (LiteralV::Int(_, l), LiteralV::Int(k, r)) = (x, y) {
        lemma_held(k, l + r);
        lemma_held(k, l - r);
        lemma_held(k, l * r);
    }
}

/// What a binary operator gives: the machine's own value, or the target's answer.
pub open spec fn combined(m: Machine, op: BinaryOp, x: LiteralV, y: LiteralV, memory: int) -> LiteralV {
    match computed(op, x, y) {
        Some(c) => c,
        None => (m.answer)(
            RvalueV::BinaryOp(op, OperandV::Constant(x), OperandV::Constant(y)),
            memory,
        ),
    }
}

/// The value of a right-hand side.
pub open spec fn given(m: Machine, rv: RvalueV, st: Store) -> LiteralV {
    match rv {
        RvalueV::Use(o) => value_of(m, o, st),
        RvalueV::BinaryOp(op, l, r) => combined(
            m,
            op,
            value_of(m, l, st),
            value_of(m, r, st),
            st.memory,
        ),
        RvalueV::UnaryOp(op, o) => match fold_unary(op, value_of(m, o, st)) {
            Some(c) => c,
            None => (m.answer)(settled(m, rv, st), st.memory),
        },
        RvalueV::Ref { mutable, place } => (m.refer)(
            mutable,
            place,
            spot_of(m, place, st),
            st.memory,
        ),
        _ => (m.answer)(settled(m, rv, st), st.memory),
    }
}

/// The memory after evaluating a right-hand side: only calls change it.
pub open spec fn memory_after(m: Machine, rv: RvalueV, st: Store) -> int {
    if side_effect(rv) {
        (m.effect)(settled(m, rv, st), st.memory)
    } else {
        st.memory
    }
}

/// The store after a statement.
pub open spec fn step(m: Machine, s: StmtV, st: Store) -> Store {
    match s {
        StmtV::Assign { dest, value } => match dest {
            PlaceV::Ssa(d) => Store {
                regs: st.regs.insert(d, given(m, value, st)),
                memory: memory_after(m, value, st),
            },
            _ => Store {
                memory: (m.write)(
                    dest,
                    spot_of(m, dest, st),
                    given(m, value, st),
                    memory_after(m, value, st),
                ),
                ..st
            },
        },
        StmtV::ExprStmt(value) => Store { memory: memory_after(m, value, st), ..st },
        StmtV::Drop { place } | StmtV::SetMetadata { place, .. } => Store {
            memory: (m.note)(s, spot_of(m, place, st), st.memory),
            ..st
        },
        StmtV::EffectCheck { .. } => Store {
            memory: (m.note)(s, Spot::Value(LiteralV::Unit), st.memory),
            ..st
        },
    }
}

/// The store after the given statements.
pub open spec fn store_after(m: Machine, start: Store, trace: Seq<StmtV>) -> Store
    decreases trace.len(),
{
    if trace.len() == 0 {
        start
    } else {
        step(m, trace.last(), store_after(m, start, trace.drop_last()))
    }
}

/// The values of operands on the machine, started on a given store.
pub open spec fn eval_of(m: Machine, start: Store) -> Eval {
    |trace: Seq<StmtV>, o: OperandV| value_of(m, o, store_after(m, start, trace))
}

/// Whether the algebraic identities tell the truth of an operation on `x` and `y`
/// that gives `v`.
pub open spec fn truthful(op: BinaryOp, x: LiteralV, y: LiteralV, v: LiteralV) -> bool {
    let l = OperandV::Constant(x);
    let r = OperandV::Constant(y);
    match op {
        BinaryOp::Mul => {
            &&& is_int(l, 0) ==> v == x
            &&& is_int(r, 0) ==> v == y
            &&& is_int(l, 1) && !is_int(r, 0) ==> v == y
            &&& is_int(r, 1) && !is_int(l, 0) ==> v == x
        },
        BinaryOp::Add => (is_int(l, 0) ==> v == y) && (is_int(r, 0) ==> v == x),
        BinaryOp::Sub => is_int(r, 0) ==> v == x,
        BinaryOp::And => {
            &&& is_bool(l, true) ==> v == y
            &&& is_bool(r, true) ==> v == x
            &&& is_bool(l, false) ==> v == x
            &&& is_bool(r, false) ==> v == y
        },
        BinaryOp::Or => {
            &&& is_bool(l, true) ==> v == x
            &&& is_bool(r, true) ==> v == y
            &&& is_bool(l, false) ==> v == y
            &&& is_bool(r, false) ==> v == x
        },
        BinaryOp::Eq => x == y ==> v == LiteralV::Bool(true),
        BinaryOp::Neq => x == y ==> v == LiteralV::Bool(false),
        _ => true,
    }
}

/// Whether the algebraic identities tell the truth of what a right-hand side computes.
pub open spec fn rvalue_truthful(m: Machine, rv: RvalueV, st: Store) -> bool {
    rv matches RvalueV::BinaryOp(op, l, r) ==> truthful(
        op,
        value_of(m, l, st),
        value_of(m, r, st),
        given(m, rv, st),
    )
}

/// Whether they tell the truth of what a statement computes.
pub open spec fn stmt_truthful(m: Machine, s: StmtV, st: Store) -> bool {
    match s {
        StmtV::Assign { value, .. } | StmtV::ExprStmt(value) => rvalue_truthful(m, value, st),
        _ => true,
    }
}

/// Whether they tell the truth of all that the given statements compute.
pub open spec fn trace_truthful(m: Machine, start: Store, trace: Seq<StmtV>) -> bool
    decreases trace.len(),
{
    trace.len() == 0 || (trace_truthful(m, start, trace.drop_last()) && stmt_truthful(
        m,
        trace.last(),
        store_after(m, start, trace.drop_last()),
    ))
}

/// What is seen of a run that ended: what it returned, if it did, and the memory.
pub struct Seen {
    pub returned: Option<Option<LiteralV>>,
    pub memory: int,
}

/// What is seen of an outcome.
pub open spec fn seen(m: Machine, start: Store, o: Outcome) -> Seen {
    let st = store_after(m, start, o.trace);
    Seen {
        returned: match o.end {
            TermV::Return(Some(v)) => Some(Some(value_of(m, v, st))),
            TermV::Return(None) => Some(None),
            _ => None,
        },
        memory: st.memory,
    }
}

/// Whether running a body on the machine ends and shows `r`, the algebraic identities
/// being true of all that is computed on the way.
pub open spec fn yields(blocks: Seq<BlockV>, m: Machine, start: Store, r: Seen) -> bool {
    exists|o: Outcome| #[trigger]
        finishes(blocks, eval_of(m, start), 0, Seq::empty(), o) && trace_truthful(
            m,
            start,
            o.trace,
        ) && seen(m, start, o) == r
}

/// Whether the algebraic identities are true of all that a body computes on the machine,
/// however far it is run.
pub open spec fn honest(blocks: Seq<BlockV>, m: Machine, start: Store) -> bool {
    honest_from(blocks, m, start, 0, Seq::empty())
}

/// Whether they are true of all that is computed from block `b` on, the given statements
/// having been executed before.
pub open spec fn honest_from(
    blocks: Seq<BlockV>,
    m: Machine,
    start: Store,
    b: int,
    trace: Seq<StmtV>,
) -> bool {
    forall|n: nat|
        trace_truthful(m, start, #[trigger] walked(blocks, eval_of(m, start), b, trace, n))
}

/// The identities tell the truth wherever an operation folds, but for comparing a value
/// that does not equal itself, such as a float that is not a number.
pub proof fn lemma_fold_truthful(op: BinaryOp, x: LiteralV, y: LiteralV)
    requires
        fold_binary(op, x, y) is Some,
        (op == BinaryOp::Eq || op == BinaryOp::Neq) ==> literal_eq(x, x),
    ensures
        truthful(op, x, y, fold_binary(op, x, y)->0),
{
    match (x, y) {
        (LiteralV::Int(j, a), LiteralV::Int(k, b)) => {
            assert(a == 0 || b == 0 ==> a * b == 0) by (nonlinear_arith);
            assert(a == 1 ==> a * b == b) by (nonlinear_arith);
            assert(b == 1 ==> a * b == a) by (nonlinear_arith);
        },
        _ => {},
    }
}

/// The store after one statement more.
pub proof fn lemma_store_push(m: Machine, start: Store, trace: Seq<StmtV>, s: StmtV)
    ensures
        store_after(m, start, trace.push(s)) == step(m, s, store_after(m, start, trace)),
        trace_truthful(m, start, trace.push(s)) == (trace_truthful(m, start, trace)
            && stmt_truthful(m, s, store_after(m, start, trace))),
{
    assert(trace.push(s).drop_last() =~= trace);
}

/// What is true of a trace is true of its beginning.
pub proof fn lemma_truthful_prefix(m: Machine, start: Store, a: Seq<StmtV>, b: Seq<StmtV>)
    requires
        trace_truthful(m, start, a + b),
    ensures
        trace_truthful(m, start, a),
    decreases b.len(),
{
    if b.len() == 0 {
        assert(a + b =~= a);
    } else {
        assert((a + b).drop_last() =~= a + b.drop_last());
        lemma_truthful_prefix(m, start, a, b.drop_last());
    }
}

/// A run adds to the trace.
pub proof fn lemma_run_extends(
    blocks: Seq<BlockV>,
    eval: Eval,
    b: int,
    trace: Seq<StmtV>,
    n: nat,
) -> (rest: Seq<StmtV>)
    requires
        run(blocks, eval, b, trace, n) is Some,
    ensures
        run(blocks, eval, b, trace, n)->0.trace == trace + rest,
    decreases n,
{
    let after = trace + blocks[b].stmts;
    match crate::run::next_block(blocks[b].terminator, eval, after) {
        None => blocks[b].stmts,
        Some(x) => {
            let rest = lemma_run_extends(blocks, eval, x as int, after, (n - 1) as nat);
            assert(after + rest =~= trace + (blocks[b].stmts + rest));
            blocks[b].stmts + rest
        },
    }
}

} // verus!
