//! Laws of making a program concrete: which types become instances, and which enum names
//! change.

use vstd::prelude::*;

use crate::ast::TypeV;
use crate::concrete::{
    concrete, concrete_all, enum_of, fn_concrete, operand_renamed, operands_renamed, place_renamed,
    rvalue_concrete, rvalue_renamed, stmt_concrete, stmt_renamed,
};
use crate::init::root_of;
use crate::init_exact::{lemma_local_exact, typed};
use crate::mangle::mangled;
use crate::mir::{
    EnumV, FnV, LocalV, OperandV, PlaceV, ProgramV, RvalueV, StmtV, StructV,
};
use crate::monomorphic::{
    enum_concrete, enum_names, enums_left, expanded, fns_left, monomorphized, plain_fns,
    struct_concrete, struct_names, structs_left,
};
use crate::reading::{bottom, lemma_root_bottom};

verus! {

// Types.

/// Whether type `r` is type `t` with the instances in the place of the generic types that
/// they stand for: a generic type becomes the struct, or else the enum, of its instance's
/// name, where there is one. The rest keeps its shape. Tensors are left as they are.
pub open spec fn settled_as(
    structs: Set<Seq<char>>,
    enums: Set<Seq<char>>,
    t: TypeV,
    r: TypeV,
) -> bool
    decreases t,
{
    match t {
        TypeV::Generic(n, ts) => {
            let name = mangled(n, ts);
            &&& structs.contains(name) ==> r == TypeV::Struct(name)
            &&& !structs.contains(name) && enums.contains(name) ==> r == TypeV::Enum(name)
            &&& !structs.contains(name) && !enums.contains(name) ==> {
                &&& r matches TypeV::Generic(m, rs)
                &&& m == n
                &&& rs.len() == ts.len()
                &&& forall|i: int|
                    0 <= i < ts.len() ==> settled_as(structs, enums, #[trigger] ts[i], rs[i])
            }
        },
        TypeV::Tuple(ts) => {
            &&& r matches TypeV::Tuple(rs)
            &&& rs.len() == ts.len()
            &&& forall|i: int|
                0 <= i < ts.len() ==> settled_as(structs, enums, #[trigger] ts[i], rs[i])
        },
        TypeV::Array(e, n) => {
            &&& r matches TypeV::Array(f, m)
            &&& m == n
            &&& settled_as(structs, enums, *e, *f)
        },
        TypeV::Ref { mutable, inner } => {
            &&& r matches TypeV::Ref { mutable: m, inner: f }
            &&& m == mutable
            &&& settled_as(structs, enums, *inner, *f)
        },
        TypeV::Slice(e) => {
            &&& r matches TypeV::Slice(f)
            &&& settled_as(structs, enums, *e, *f)
        },
        TypeV::Privacy(e, tag) => {
            &&& r matches TypeV::Privacy(f, g)
            &&& g == tag
            &&& settled_as(structs, enums, *e, *f)
        },
        _ => r == t,
    }
}

/// Making a type concrete puts the instances in the place of the generic types that they
/// stand for.
pub proof fn lemma_concrete_exact(t: TypeV, structs: Set<Seq<char>>, enums: Set<Seq<char>>)
    ensures
        settled_as(structs, enums, t, concrete(t, structs, enums)),
    decreases t,
{
    match t {
        TypeV::Generic(n, ts) => {
            let rs = concrete_all(ts, structs, enums);
            assert forall|i: int| 0 <= i < ts.len() implies settled_as(
                structs,
                enums,
                #[trigger] ts[i],
                rs[i],
            ) by {
                lemma_concrete_exact(ts[i], structs, enums);
            }
            let name = mangled(n, ts);
            if !structs.contains(name) && !enums.contains(name) {
                assert(concrete(t, structs, enums) == TypeV::Generic(n, rs));
            }
        },
        TypeV::Tuple(ts) => {
            let rs = concrete_all(ts, structs, enums);
            assert forall|i: int| 0 <= i < ts.len() implies settled_as(
                structs,
                enums,
                #[trigger] ts[i],
                rs[i],
            ) by {
                lemma_concrete_exact(ts[i], structs, enums);
            }
            assert(concrete(t, structs, enums) == TypeV::Tuple(rs));
        },
        TypeV::Array(e, _) => lemma_concrete_exact(*e, structs, enums),
        TypeV::Ref { inner, .. } => lemma_concrete_exact(*inner, structs, enums),
        TypeV::Slice(e) => lemma_concrete_exact(*e, structs, enums),
        TypeV::Privacy(e, _) => lemma_concrete_exact(*e, structs, enums),
        _ => {},
    }
}

/// Whether each type of `rs` is that of `ts` with the instances put in.
pub open spec fn all_settled_as(
    structs: Set<Seq<char>>,
    enums: Set<Seq<char>>,
    ts: Seq<TypeV>,
    rs: Seq<TypeV>,
) -> bool {
    &&& rs.len() == ts.len()
    &&& forall|i: int| 0 <= i < ts.len() ==> settled_as(structs, enums, ts[i], #[trigger] rs[i])
}

proof fn lemma_all_settled(ts: Seq<TypeV>, structs: Set<Seq<char>>, enums: Set<Seq<char>>)
    ensures
        all_settled_as(structs, enums, ts, concrete_all(ts, structs, enums)),
{
    assert forall|i: int| 0 <= i < ts.len() implies settled_as(
        structs,
        enums,
        ts[i],
        #[trigger] concrete_all(ts, structs, enums)[i],
    ) by {
        lemma_concrete_exact(ts[i], structs, enums);
    }
}

/// A right-hand side made concrete: casts and calls have the instances in their types;
/// what builds a struct or an enum that has an instance builds that instance, without type
/// arguments; everything else stays.
pub proof fn lemma_value_concrete(rv: RvalueV, structs: Set<Seq<char>>, enums: Set<Seq<char>>)
    ensures
        match rv {
            RvalueV::Cast(o, t) => {
                &&& rvalue_concrete(rv, structs, enums) matches RvalueV::Cast(p, u)
                &&& p == o
                &&& settled_as(structs, enums, t, u)
            },
            RvalueV::Call { func, args, is_intrinsic, intrinsic_name, generic_args } => {
                &&& rvalue_concrete(rv, structs, enums) matches RvalueV::Call {
                    func: f,
                    args: a,
                    is_intrinsic: i,
                    intrinsic_name: n,
                    generic_args: g,
                }
                &&& f == func && a == args && i == is_intrinsic && n == intrinsic_name
                &&& all_settled_as(structs, enums, generic_args, g)
            },
            RvalueV::MethodCall { receiver, method, args, generic_args } => {
                &&& rvalue_concrete(rv, structs, enums) matches RvalueV::MethodCall {
                    receiver: r,
                    method: m,
                    args: a,
                    generic_args: g,
                }
                &&& r == receiver && m == method && a == args
                &&& all_settled_as(structs, enums, generic_args, g)
            },
            RvalueV::StructInit { struct_name, generic_args, fields } => {
                let name = mangled(struct_name, generic_args);
                let made = generic_args.len() > 0 && structs.contains(name);
                &&& made ==> rvalue_concrete(rv, structs, enums) == (RvalueV::StructInit {
                    struct_name: name,
                    generic_args: Seq::empty(),
                    fields,
                })
                &&& !made ==> rvalue_concrete(rv, structs, enums) == rv
            },
            RvalueV::EnumVariantConstruction { enum_name, generic_args, variant_name, args } => {
                let name = mangled(enum_name, generic_args);
                let made = generic_args.len() > 0 && enums.contains(name);
                &&& made ==> rvalue_concrete(rv, structs, enums)
                    == (RvalueV::EnumVariantConstruction {
                    enum_name: name,
                    generic_args: Seq::empty(),
                    variant_name,
                    args,
                })
                &&& !made ==> rvalue_concrete(rv, structs, enums) == rv
            },
            _ => rvalue_concrete(rv, structs, enums) == rv,
        },
{
    match rv {
        RvalueV::Cast(_, t) => lemma_concrete_exact(t, structs, enums),
        RvalueV::Call { generic_args, .. } => lemma_all_settled(generic_args, structs, enums),
        RvalueV::MethodCall { generic_args, .. } => lemma_all_settled(
            generic_args,
            structs,
            enums,
        ),
        _ => {},
    }
}

// Enum names.

/// Whether `m` is the enum name to stand in the place of `n` for variable `x`: that of the
/// variable's type, where it is an enum, and `n` where it is not.
pub open spec fn named_for(locals: Seq<LocalV>, x: usize, n: Seq<char>, m: Seq<char>) -> bool {
    ||| typed(locals, x, TypeV::Enum(m))
    ||| m == n && forall|k: Seq<char>| !#[trigger] typed(locals, x, TypeV::Enum(k))
}

/// Whether place `r` is place `p` with its enum names as the variables' types say, and
/// otherwise the same.
pub open spec fn place_named(locals: Seq<LocalV>, p: PlaceV, r: PlaceV) -> bool
    decreases p,
{
    match p {
        PlaceV::Ssa(_) => r == p,
        PlaceV::Field { base, field } => {
            &&& r matches PlaceV::Field { base: b, field: f }
            &&& f == field
            &&& place_named(locals, *base, *b)
        },
        PlaceV::Index { base, index } => {
            &&& r matches PlaceV::Index { base: b, index: i }
            &&& place_named(locals, *base, *b)
            &&& operand_named(locals, *index, *i)
        },
        PlaceV::Deref(base) => {
            &&& r matches PlaceV::Deref(b)
            &&& place_named(locals, *base, *b)
        },
        PlaceV::EnumPayload { base, enum_name, variant_name } => {
            &&& r matches PlaceV::EnumPayload { base: b, enum_name: n, variant_name: v }
            &&& b == base && v == variant_name
            &&& named_for(locals, bottom(*base).base_id, enum_name, n)
        },
    }
}

/// Whether operand `r` is operand `o` with its enum names as the variables' types say.
pub open spec fn operand_named(locals: Seq<LocalV>, o: OperandV, r: OperandV) -> bool
    decreases o,
{
    match o {
        OperandV::Copy(p) => {
            &&& r matches OperandV::Copy(q)
            &&& place_named(locals, p, q)
        },
        OperandV::Move(p) => {
            &&& r matches OperandV::Move(q)
            &&& place_named(locals, p, q)
        },
        _ => r == o,
    }
}

/// Whether each operand of `rs` is that of `os` with its enum names as the variables'
/// types say.
pub open spec fn operands_named(
    locals: Seq<LocalV>,
    os: Seq<OperandV>,
    rs: Seq<OperandV>,
) -> bool {
    &&& rs.len() == os.len()
    &&& forall|i: int| 0 <= i < os.len() ==> operand_named(locals, os[i], #[trigger] rs[i])
}

/// Whether right-hand side `r` is `rv` with its enum names as the variables' types say.
pub open spec fn value_named(locals: Seq<LocalV>, rv: RvalueV, r: RvalueV) -> bool {
    match rv {
        RvalueV::Use(o) => r matches RvalueV::Use(p) && operand_named(locals, o, p),
        RvalueV::BinaryOp(op, x, y) => r matches RvalueV::BinaryOp(q, u, v) && q == op
            && operand_named(locals, x, u) && operand_named(locals, y, v),
        RvalueV::UnaryOp(op, x) => r matches RvalueV::UnaryOp(q, u) && q == op && operand_named(
            locals,
            x,
            u,
        ),
        RvalueV::Cast(x, t) => r matches RvalueV::Cast(u, s) && s == t && operand_named(
            locals,
            x,
            u,
        ),
        RvalueV::Call { func, args, is_intrinsic, intrinsic_name, generic_args } => {
            &&& r matches RvalueV::Call {
                func: f,
                args: a,
                is_intrinsic: i,
                intrinsic_name: n,
                generic_args: g,
            }
            &&& f == func && i == is_intrinsic && n == intrinsic_name && g == generic_args
            &&& operands_named(locals, args, a)
        },
        RvalueV::MethodCall { receiver, method, args, generic_args } => {
            &&& r matches RvalueV::MethodCall { receiver: v, method: m, args: a, generic_args: g }
            &&& m == method && g == generic_args
            &&& operand_named(locals, receiver, v)
            &&& operands_named(locals, args, a)
        },
        RvalueV::StructInit { struct_name, generic_args, fields } => {
            &&& r matches RvalueV::StructInit { struct_name: n, generic_args: g, fields: f }
            &&& n == struct_name && g == generic_args && f.len() == fields.len()
            &&& forall|i: int|
                0 <= i < fields.len() ==> (#[trigger] f[i]).0 == fields[i].0 && operand_named(
                    locals,
                    fields[i].1,
                    f[i].1,
                )
        },
        RvalueV::EnumVariantConstruction { enum_name, generic_args, variant_name, args } => {
            &&& r matches RvalueV::EnumVariantConstruction {
                enum_name: n,
                generic_args: g,
                variant_name: v,
                args: a,
            }
            &&& n == enum_name && g == generic_args && v == variant_name
            &&& operands_named(locals, args, a)
        },
        RvalueV::ArrayLiteral(es) => r matches RvalueV::ArrayLiteral(fs) && operands_named(
            locals,
            es,
            fs,
        ),
        RvalueV::Ref { mutable, place } => r matches RvalueV::Ref { mutable: m, place: q } && m
            == mutable && place_named(locals, place, q),
        RvalueV::Discriminant { value, enum_name } => {
            &&& r matches RvalueV::Discriminant { value: v, enum_name: n }
            &&& v == value
            &&& match value {
                OperandV::Copy(p) => named_for(locals, bottom(p).base_id, enum_name, n),
                OperandV::Move(p) => named_for(locals, bottom(p).base_id, enum_name, n),
                _ => n == enum_name,
            }
        },
        RvalueV::Phi { values } => {
            &&& r matches RvalueV::Phi { values: vs }
            &&& vs.len() == values.len()
            &&& forall|i: int|
                0 <= i < values.len() ==> (#[trigger] vs[i]).0 == values[i].0 && operand_named(
                    locals,
                    values[i].1,
                    vs[i].1,
                )
        },
    }
}

/// Whether statement `r` is `s` with its enum names as the variables' types say.
pub open spec fn stmt_named(locals: Seq<LocalV>, s: StmtV, r: StmtV) -> bool {
    match s {
        StmtV::Assign { dest, value } => r matches StmtV::Assign { dest: d, value: v }
            && place_named(locals, dest, d) && value_named(locals, value, v),
        StmtV::ExprStmt(value) => r matches StmtV::ExprStmt(v) && value_named(locals, value, v),
        StmtV::Drop { place } => r matches StmtV::Drop { place: q } && place_named(
            locals,
            place,
            q,
        ),
        StmtV::SetMetadata { place, key, data } => r matches StmtV::SetMetadata {
            place: q,
            key: k,
            data: d,
        } && k == key && d == data && place_named(locals, place, q),
        StmtV::EffectCheck { .. } => r == s,
    }
}

proof fn lemma_typed_once(locals: Seq<LocalV>, x: usize, t: TypeV, u: TypeV)
    requires
        typed(locals, x, t),
        typed(locals, x, u),
    ensures
        t == u,
{
    if exists|i: int| 0 <= i < locals.len() && #[trigger] locals[i].id == x {
        let i = choose|i: int|
            {
                &&& 0 <= i < locals.len()
                &&& #[trigger] locals[i].id == x
                &&& locals[i].ty == t
                &&& forall|j: int| 0 <= j < i ==> #[trigger] locals[j].id != x
            };
        let k = choose|i: int|
            {
                &&& 0 <= i < locals.len()
                &&& #[trigger] locals[i].id == x
                &&& locals[i].ty == u
                &&& forall|j: int| 0 <= j < i ==> #[trigger] locals[j].id != x
            };
        assert(locals[i].id == x && locals[k].id == x);
    }
}

proof fn lemma_enum_of(locals: Seq<LocalV>, x: usize, n: Seq<char>)
    ensures
        named_for(locals, x, n, enum_of(x, locals, n)),
{
    lemma_local_exact(locals, x);
    let t = crate::init::var_type(locals, x);
    assert forall|k: Seq<char>| #[trigger] typed(locals, x, TypeV::Enum(k)) implies t
        == TypeV::Enum(k) by {
        lemma_typed_once(locals, x, t, TypeV::Enum(k));
    }
}

/// A place gets the enum names that the variables' types say.
pub proof fn lemma_place_named(locals: Seq<LocalV>, p: PlaceV)
    ensures
        place_named(locals, p, place_renamed(p, locals)),
    decreases p,
{
    match p {
        PlaceV::Ssa(_) => {},
        PlaceV::Field { base, .. } => lemma_place_named(locals, *base),
        PlaceV::Index { base, index } => {
            lemma_place_named(locals, *base);
            lemma_operand_named(locals, *index);
        },
        PlaceV::Deref(base) => lemma_place_named(locals, *base),
        PlaceV::EnumPayload { base, enum_name, .. } => {
            lemma_root_bottom(*base);
            lemma_enum_of(locals, root_of(*base), enum_name);
        },
    }
}

/// An operand gets the enum names that the variables' types say.
pub proof fn lemma_operand_named(locals: Seq<LocalV>, o: OperandV)
    ensures
        operand_named(locals, o, operand_renamed(o, locals)),
    decreases o,
{
    match o {
        OperandV::Copy(p) => lemma_place_named(locals, p),
        OperandV::Move(p) => lemma_place_named(locals, p),
        _ => {},
    }
}

proof fn lemma_operands_named(locals: Seq<LocalV>, os: Seq<OperandV>)
    ensures
        operands_named(locals, os, operands_renamed(os, locals)),
{
    let rs = operands_renamed(os, locals);
    assert forall|i: int| 0 <= i < os.len() implies operand_named(
        locals,
        os[i],
        #[trigger] rs[i],
    ) by {
        lemma_operand_named(locals, os[i]);
    }
}

/// A right-hand side gets the enum names that the variables' types say.
pub proof fn lemma_value_named(locals: Seq<LocalV>, rv: RvalueV)
    ensures
        value_named(locals, rv, rvalue_renamed(rv, locals)),
{
    match rv {
        RvalueV::Use(o) | RvalueV::UnaryOp(_, o) | RvalueV::Cast(o, _) => {
            lemma_operand_named(locals, o)
        },
        RvalueV::BinaryOp(_, x, y) => {
            lemma_operand_named(locals, x);
            lemma_operand_named(locals, y);
        },
        RvalueV::Call { args, .. } => lemma_operands_named(locals, args),
        RvalueV::EnumVariantConstruction { args, .. } => lemma_operands_named(locals, args),
        RvalueV::MethodCall { receiver, args, .. } => {
            lemma_operand_named(locals, receiver);
            lemma_operands_named(locals, args);
        },
        RvalueV::StructInit { fields, .. } => {
            assert forall|i: int| 0 <= i < fields.len() implies operand_named(
                locals,
                #[trigger] fields[i].1,
                operand_renamed(fields[i].1, locals),
            ) by {
                lemma_operand_named(locals, fields[i].1);
            }
        },
        RvalueV::ArrayLiteral(es) => lemma_operands_named(locals, es),
        RvalueV::Ref { place, .. } => lemma_place_named(locals, place),
        RvalueV::Discriminant { value, enum_name } => match value {
            OperandV::Copy(p) | OperandV::Move(p) => {
                lemma_root_bottom(p);
                lemma_enum_of(locals, root_of(p), enum_name);
            },
            _ => {},
        },
        RvalueV::Phi { values } => {
            assert forall|i: int| 0 <= i < values.len() implies operand_named(
                locals,
                #[trigger] values[i].1,
                operand_renamed(values[i].1, locals),
            ) by {
                lemma_operand_named(locals, values[i].1);
            }
        },
    }
}

/// A statement gets the enum names that the variables' types say.
pub proof fn lemma_stmt_named(locals: Seq<LocalV>, s: StmtV)
    ensures
        stmt_named(locals, s, stmt_renamed(s, locals)),
{
    match s {
        StmtV::Assign { dest, value } => {
            lemma_place_named(locals, dest);
            lemma_value_named(locals, value);
        },
        StmtV::ExprStmt(value) => lemma_value_named(locals, value),
        StmtV::Drop { place } => lemma_place_named(locals, place),
        StmtV::SetMetadata { place, .. } => lemma_place_named(locals, place),
        StmtV::EffectCheck { .. } => {},
    }
}

// Functions.

/// A function made concrete has the instances in the types of its parameters, in its
/// return type and in the types of its locals, and its statements are those of the
/// function, made concrete and with the enum names that the locals' new types say. Nothing
/// else changes.
pub proof fn lemma_fn_concrete_exact(f: FnV, structs: Set<Seq<char>>, enums: Set<Seq<char>>)
    ensures
        ({
            let g = fn_concrete(f, structs, enums);
            &&& g.name == f.name && g.generic_params == f.generic_params
            &&& g.params.len() == f.params.len()
            &&& forall|i: int|
                0 <= i < f.params.len() ==> (#[trigger] g.params[i]).0 == f.params[i].0
                    && settled_as(structs, enums, f.params[i].1, g.params[i].1)
            &&& g.return_type is Some <==> f.return_type is Some
            &&& f.return_type is Some ==> settled_as(
                structs,
                enums,
                f.return_type->0,
                g.return_type->0,
            )
            &&& g.body.locals.len() == f.body.locals.len()
            &&& forall|i: int|
                0 <= i < f.body.locals.len() ==> {
                    let x = f.body.locals[i];
                    let y = #[trigger] g.body.locals[i];
                    &&& y.id == x.id && y.name == x.name && y.mutable == x.mutable
                    &&& y.persist == x.persist && y.is_param == x.is_param
                    &&& settled_as(structs, enums, x.ty, y.ty)
                }
            &&& g.body.blocks.len() == f.body.blocks.len()
            &&& forall|b: int|
                0 <= b < f.body.blocks.len() ==> {
                    let x = f.body.blocks[b];
                    let y = #[trigger] g.body.blocks[b];
                    &&& y.id == x.id && y.terminator == x.terminator
                    &&& y.stmts.len() == x.stmts.len()
                    &&& forall|j: int|
                        0 <= j < x.stmts.len() ==> stmt_named(
                            g.body.locals,
                            stmt_concrete(x.stmts[j], structs, enums),
                            #[trigger] y.stmts[j],
                        )
                }
        }),
{
    let g = fn_concrete(f, structs, enums);
    assert forall|i: int| 0 <= i < f.params.len() implies settled_as(
        structs,
        enums,
        f.params[i].1,
        (#[trigger] g.params[i]).1,
    ) by {
        lemma_concrete_exact(f.params[i].1, structs, enums);
    }
    if f.return_type is Some {
        lemma_concrete_exact(f.return_type->0, structs, enums);
    }
    assert forall|i: int| 0 <= i < f.body.locals.len() implies settled_as(
        structs,
        enums,
        f.body.locals[i].ty,
        (#[trigger] g.body.locals[i]).ty,
    ) by {
        lemma_concrete_exact(f.body.locals[i].ty, structs, enums);
    }
    assert forall|b: int, j: int|
        0 <= b < f.body.blocks.len() && 0 <= j < f.body.blocks[b].stmts.len() implies stmt_named(
        g.body.locals,
        stmt_concrete(f.body.blocks[b].stmts[j], structs, enums),
        #[trigger] g.body.blocks[b].stmts[j],
    ) by {
        lemma_stmt_named(g.body.locals, stmt_concrete(f.body.blocks[b].stmts[j], structs, enums));
    }
}

/// Making a statement concrete makes the right-hand side that it evaluates concrete, and
/// changes nothing else.
pub proof fn lemma_stmt_concrete_exact(s: StmtV, structs: Set<Seq<char>>, enums: Set<Seq<char>>)
    ensures
        match s {
            StmtV::Assign { dest, value } => stmt_concrete(s, structs, enums) == (StmtV::Assign {
                dest,
                value: rvalue_concrete(value, structs, enums),
            }),
            StmtV::ExprStmt(value) => stmt_concrete(s, structs, enums) == StmtV::ExprStmt(
                rvalue_concrete(value, structs, enums),
            ),
            _ => stmt_concrete(s, structs, enums) == s,
        },
{
}

/// A struct made concrete has the instances in the types of its fields; an enum in those of
/// its variants. Nothing else changes.
pub proof fn lemma_items_concrete(
    s: StructV,
    e: EnumV,
    structs: Set<Seq<char>>,
    enums: Set<Seq<char>>,
)
    ensures
        ({
            let r = struct_concrete(s, structs, enums);
            &&& r.name == s.name && r.generic_params == s.generic_params
            &&& r.fields.len() == s.fields.len()
            &&& forall|i: int|
                0 <= i < s.fields.len() ==> (#[trigger] r.fields[i]).0 == s.fields[i].0
                    && settled_as(structs, enums, s.fields[i].1, r.fields[i].1)
        }),
        ({
            let r = enum_concrete(e, structs, enums);
            &&& r.name == e.name && r.generic_params == e.generic_params
            &&& r.variants.len() == e.variants.len()
            &&& forall|i: int|
                0 <= i < e.variants.len() ==> {
                    let x = e.variants[i];
                    let y = #[trigger] r.variants[i];
                    &&& y.0 == x.0
                    &&& y.1 is Some <==> x.1 is Some
                    &&& x.1 is Some ==> settled_as(structs, enums, x.1->0, y.1->0)
                }
        }),
{
    let r = struct_concrete(s, structs, enums);
    assert forall|i: int| 0 <= i < s.fields.len() implies settled_as(
        structs,
        enums,
        s.fields[i].1,
        (#[trigger] r.fields[i]).1,
    ) by {
        lemma_concrete_exact(s.fields[i].1, structs, enums);
    }
    let q = enum_concrete(e, structs, enums);
    assert forall|i: int| 0 <= i < e.variants.len() && e.variants[i].1 is Some implies settled_as(
        structs,
        enums,
        e.variants[i].1->0,
        (#[trigger] q.variants[i]).1->0,
    ) by {
        lemma_concrete_exact(e.variants[i].1->0, structs, enums);
    }
}

/// Whether a function is one of a program that was not generic, made concrete.
pub open spec fn was_plain(
    p: ProgramV,
    f: FnV,
    structs: Set<Seq<char>>,
    enums: Set<Seq<char>>,
) -> bool {
    exists|j: int|
        {
            &&& 0 <= j < p.fns.len()
            &&& (#[trigger] p.fns[j]).generic_params.len() == 0
            &&& f == fn_concrete(p.fns[j], structs, enums)
        }
}

/// The functions of a program without generics are, one for one, the instances that were
/// made and the functions that were not generic, made concrete; their types name the
/// structs and enums that are left.
pub proof fn lemma_program_parts(p: ProgramV)
    ensures
        ({
            let r = monomorphized(p);
            let sn = struct_names(structs_left(p)).to_set();
            let en = enum_names(enums_left(p)).to_set();
            let made = expanded(p.fns).fns;
            &&& r.fns.len() == made.len() + plain_fns(p.fns, p.fns.len() as int).len()
            &&& forall|i: int|
                0 <= i < made.len() ==> #[trigger] r.fns[i] == fn_concrete(made[i], sn, en)
            &&& forall|i: int|
                made.len() <= i < r.fns.len() ==> was_plain(p, #[trigger] r.fns[i], sn, en)
            &&& r.intrinsics_used == p.intrinsics_used
        }),
{
    let r = monomorphized(p);
    let sn = struct_names(structs_left(p)).to_set();
    let en = enum_names(enums_left(p)).to_set();
    let made = expanded(p.fns).fns;
    let plain = plain_fns(p.fns, p.fns.len() as int);
    assert forall|i: int| 0 <= i < made.len() implies #[trigger] r.fns[i] == fn_concrete(
        made[i],
        sn,
        en,
    ) by {
        assert(fns_left(p)[i] == made[i]);
    }
    assert forall|i: int| made.len() <= i < r.fns.len() implies was_plain(
        p,
        #[trigger] r.fns[i],
        sn,
        en,
    ) by {
        let k = i - made.len();
        assert(fns_left(p)[i] == plain[k]);
        let j = lemma_plain_from(p.fns, p.fns.len() as int, k);
        assert(p.fns[j].generic_params.len() == 0);
        assert(r.fns[i] == fn_concrete(p.fns[j], sn, en));
    }
}

proof fn lemma_plain_from(fns: Seq<FnV>, n: int, k: int) -> (j: int)
    requires
        0 <= n <= fns.len(),
        0 <= k < plain_fns(fns, n).len(),
    ensures
        0 <= j < n,
        fns[j].generic_params.len() == 0,
        plain_fns(fns, n)[k] == fns[j],
    decreases n,
{
    let before = plain_fns(fns, n - 1);
    if k < before.len() {
        lemma_plain_from(fns, n - 1, k)
    } else {
        n - 1
    }
}

} // verus!
