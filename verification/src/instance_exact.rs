//! Laws of instances: what the instance of a generic item for given type arguments is made
//! of, and which generic uses a body has.

use vstd::prelude::*;

use crate::ast::TypeV;
use crate::mangle::{substituted, substituted_all};
use crate::mir::{BlockV, BodyV, EnumV, FnV, GenericParamV, RvalueV, StmtV, StructV};
use crate::mono_laws::{ground, mentions_only};
use crate::monomorphic::{
    binding, bound, call_of, calls_in, enum_instance, enum_use_of, enums_in, expand, expanded,
    expands, fn_instance, fn_names, follow, follow_all, position, work_of, Work, in_blocks,
    in_stmts, rvalue_substituted, stmt_substituted, struct_instance, struct_use_of, structs_in,
    value_of, InstanceV,
};

verus! {

// What a type becomes.

/// Whether type parameter `n`, of those of a generic item, stands for `t`: the argument in
/// the place of its name, or, where it is none of those that get an argument, itself. The
/// last of two parameters of one name counts.
pub open spec fn stands_for(
    params: Seq<GenericParamV>,
    args: Seq<TypeV>,
    n: Seq<char>,
    t: TypeV,
) -> bool {
    ||| exists|i: int|
        {
            &&& 0 <= i < params.len() && i < args.len()
            &&& #[trigger] params[i].name == n
            &&& forall|j: int|
                i < j < params.len() && j < args.len() ==> #[trigger] params[j].name != n
            &&& t == args[i]
        }
    ||| (forall|i: int|
        0 <= i < params.len() && i < args.len() ==> #[trigger] params[i].name != n) && t
        == TypeV::TypeParam(n)
}

/// Whether type `r` is type `t` of a generic item, made for the given type arguments: of
/// the same shape, and with the argument in the place of each type parameter. Tensors are
/// left as they are.
pub open spec fn made_for(
    params: Seq<GenericParamV>,
    args: Seq<TypeV>,
    t: TypeV,
    r: TypeV,
) -> bool
    decreases t,
{
    match t {
        TypeV::TypeParam(n) => stands_for(params, args, n, r),
        TypeV::Generic(n, ts) => {
            &&& r matches TypeV::Generic(m, rs)
            &&& m == n
            &&& rs.len() == ts.len()
            &&& forall|i: int|
                0 <= i < ts.len() ==> made_for(params, args, #[trigger] ts[i], rs[i])
        },
        TypeV::Tuple(ts) => {
            &&& r matches TypeV::Tuple(rs)
            &&& rs.len() == ts.len()
            &&& forall|i: int|
                0 <= i < ts.len() ==> made_for(params, args, #[trigger] ts[i], rs[i])
        },
        TypeV::Array(e, n) => {
            &&& r matches TypeV::Array(f, m)
            &&& m == n
            &&& made_for(params, args, *e, *f)
        },
        TypeV::Ref { mutable, inner } => {
            &&& r matches TypeV::Ref { mutable: m, inner: f }
            &&& m == mutable
            &&& made_for(params, args, *inner, *f)
        },
        TypeV::Slice(e) => {
            &&& r matches TypeV::Slice(f)
            &&& made_for(params, args, *e, *f)
        },
        TypeV::Privacy(e, tag) => {
            &&& r matches TypeV::Privacy(f, g)
            &&& g == tag
            &&& made_for(params, args, *e, *f)
        },
        _ => r == t,
    }
}

proof fn lemma_bound(params: Seq<GenericParamV>, args: Seq<TypeV>, n: int, name: Seq<char>)
    requires
        0 <= n <= params.len(),
        n <= args.len(),
    ensures
        bound(params, args, n).contains_key(name) <==> exists|i: int|
            0 <= i < n && #[trigger] params[i].name == name,
        bound(params, args, n).contains_key(name) ==> exists|i: int|
            {
                &&& 0 <= i < n
                &&& #[trigger] params[i].name == name
                &&& forall|j: int| i < j < n ==> #[trigger] params[j].name != name
                &&& bound(params, args, n)[name] == args[i]
            },
    decreases n,
{
    if n > 0 {
        lemma_bound(params, args, n - 1, name);
        if params[n - 1].name == name {
        } else if bound(params, args, n).contains_key(name) {
            let i = choose|i: int|
                {
                    &&& 0 <= i < n - 1
                    &&& #[trigger] params[i].name == name
                    &&& forall|j: int| i < j < n - 1 ==> #[trigger] params[j].name != name
                    &&& bound(params, args, n - 1)[name] == args[i]
                };
            assert(params[i].name == name);
            assert forall|j: int| i < j < n implies #[trigger] params[j].name != name by {}
        }
    }
}

/// Each type parameter is bound to the argument in its place.
pub proof fn lemma_binding_exact(params: Seq<GenericParamV>, args: Seq<TypeV>, name: Seq<char>)
    ensures
        stands_for(params, args, name, substituted(TypeV::TypeParam(name), binding(params, args))),
        binding(params, args).contains_key(name) <==> exists|i: int|
            0 <= i < params.len() && i < args.len() && #[trigger] params[i].name == name,
{
    let n = if params.len() < args.len() {
        params.len() as int
    } else {
        args.len() as int
    };
    lemma_bound(params, args, n, name);
    if binding(params, args).contains_key(name) {
        let i = choose|i: int|
            {
                &&& 0 <= i < n
                &&& #[trigger] params[i].name == name
                &&& forall|j: int| i < j < n ==> #[trigger] params[j].name != name
                &&& bound(params, args, n)[name] == args[i]
            };
        assert(params[i].name == name);
        assert forall|j: int| i < j < params.len() && j < args.len() implies #[trigger] params[j].name
            != name by {}
    }
}

/// Replacing the type parameters in a type makes the type for the given arguments.
pub proof fn lemma_type_made(params: Seq<GenericParamV>, args: Seq<TypeV>, t: TypeV)
    ensures
        made_for(params, args, t, substituted(t, binding(params, args))),
    decreases t,
{
    let subst = binding(params, args);
    match t {
        TypeV::TypeParam(n) => lemma_binding_exact(params, args, n),
        TypeV::Generic(_, ts) | TypeV::Tuple(ts) => {
            assert forall|i: int| 0 <= i < ts.len() implies made_for(
                params,
                args,
                #[trigger] ts[i],
                substituted(ts[i], subst),
            ) by {
                lemma_type_made(params, args, ts[i]);
            }
        },
        TypeV::Array(e, _) => lemma_type_made(params, args, *e),
        TypeV::Ref { inner, .. } => lemma_type_made(params, args, *inner),
        TypeV::Slice(e) => lemma_type_made(params, args, *e),
        TypeV::Privacy(e, _) => lemma_type_made(params, args, *e),
        _ => {},
    }
}

// What an instance is made of.

/// The types that a right-hand side mentions: that of a cast, and the type arguments of a
/// use.
pub open spec fn value_types(rv: RvalueV) -> Seq<TypeV> {
    match rv {
        RvalueV::Cast(_, t) => seq![t],
        RvalueV::Call { generic_args, .. } => generic_args,
        RvalueV::MethodCall { generic_args, .. } => generic_args,
        RvalueV::StructInit { generic_args, .. } => generic_args,
        RvalueV::EnumVariantConstruction { generic_args, .. } => generic_args,
        _ => Seq::empty(),
    }
}

/// Whether two right-hand sides differ in nothing but the types that they mention.
pub open spec fn same_but_types(a: RvalueV, b: RvalueV) -> bool {
    match a {
        RvalueV::Cast(o, _) => b matches RvalueV::Cast(p, _) && p == o,
        RvalueV::Call { func, args, is_intrinsic, intrinsic_name, generic_args: _ } => {
            b matches RvalueV::Call {
                func: f,
                args: x,
                is_intrinsic: i,
                intrinsic_name: n,
                generic_args: _,
            } && f == func && x == args && i == is_intrinsic && n == intrinsic_name
        },
        RvalueV::MethodCall { receiver, method, args, generic_args: _ } => {
            b matches RvalueV::MethodCall { receiver: r, method: m, args: x, generic_args: _ } && r
                == receiver && m == method && x == args
        },
        RvalueV::StructInit { struct_name, generic_args: _, fields } => {
            b matches RvalueV::StructInit { struct_name: n, generic_args: _, fields: f } && n
                == struct_name && f == fields
        },
        RvalueV::EnumVariantConstruction { enum_name, generic_args: _, variant_name, args } => {
            b matches RvalueV::EnumVariantConstruction {
                enum_name: n,
                generic_args: _,
                variant_name: v,
                args: x,
            } && n == enum_name && v == variant_name && x == args
        },
        _ => b == a,
    }
}

/// The types that a statement mentions.
pub open spec fn stmt_types(s: StmtV) -> Seq<TypeV> {
    match s {
        StmtV::Assign { value, .. } => value_types(value),
        StmtV::ExprStmt(value) => value_types(value),
        _ => Seq::empty(),
    }
}

/// Whether two statements differ in nothing but the types that they mention.
pub open spec fn stmt_same_but_types(a: StmtV, b: StmtV) -> bool {
    match a {
        StmtV::Assign { dest, value } => b matches StmtV::Assign { dest: d, value: v } && d == dest
            && same_but_types(value, v),
        StmtV::ExprStmt(value) => b matches StmtV::ExprStmt(v) && same_but_types(value, v),
        _ => b == a,
    }
}

/// Whether the types of `rs` are those of `ts`, made for the given type arguments.
pub open spec fn all_made_for(
    params: Seq<GenericParamV>,
    args: Seq<TypeV>,
    ts: Seq<TypeV>,
    rs: Seq<TypeV>,
) -> bool {
    &&& rs.len() == ts.len()
    &&& forall|i: int| 0 <= i < ts.len() ==> made_for(params, args, ts[i], #[trigger] rs[i])
}

/// Whether statement `r` is statement `s` of a generic function, made for the given type
/// arguments.
pub open spec fn stmt_made_for(
    params: Seq<GenericParamV>,
    args: Seq<TypeV>,
    s: StmtV,
    r: StmtV,
) -> bool {
    stmt_same_but_types(s, r) && all_made_for(params, args, stmt_types(s), stmt_types(r))
}

proof fn lemma_all_made(params: Seq<GenericParamV>, args: Seq<TypeV>, ts: Seq<TypeV>)
    ensures
        all_made_for(params, args, ts, substituted_all(ts, binding(params, args))),
{
    let rs = substituted_all(ts, binding(params, args));
    assert forall|i: int| 0 <= i < ts.len() implies made_for(
        params,
        args,
        ts[i],
        #[trigger] rs[i],
    ) by {
        lemma_type_made(params, args, ts[i]);
    }
}

proof fn lemma_value_made(params: Seq<GenericParamV>, args: Seq<TypeV>, rv: RvalueV)
    ensures
        ({
            let r = rvalue_substituted(rv, binding(params, args));
            same_but_types(rv, r) && all_made_for(params, args, value_types(rv), value_types(r))
        }),
{
    let ts = value_types(rv);
    lemma_all_made(params, args, ts);
    if let RvalueV::Cast(_, t) = rv {
        lemma_type_made(params, args, t);
    }
}

proof fn lemma_stmt_made(params: Seq<GenericParamV>, args: Seq<TypeV>, s: StmtV)
    ensures
        stmt_made_for(params, args, s, stmt_substituted(s, binding(params, args))),
{
    match s {
        StmtV::Assign { value, .. } => lemma_value_made(params, args, value),
        StmtV::ExprStmt(value) => lemma_value_made(params, args, value),
        _ => {},
    }
}

/// The instance of a function is the function with the argument in the place of each type
/// parameter: in the types of its parameters, in its return type, in the types of its
/// locals, and in the casts and generic uses of its body. It has no type parameters, and
/// nothing else of the function changes.
pub proof fn lemma_instance_exact(f: FnV, args: Seq<TypeV>)
    ensures
        ({
            let g = fn_instance(f, args);
            let ps = f.generic_params;
            &&& g.generic_params.len() == 0
            &&& g.params.len() == f.params.len()
            &&& forall|i: int|
                0 <= i < f.params.len() ==> (#[trigger] g.params[i]).0 == f.params[i].0 && made_for(
                    ps,
                    args,
                    f.params[i].1,
                    g.params[i].1,
                )
            &&& g.return_type is Some <==> f.return_type is Some
            &&& f.return_type is Some ==> made_for(ps, args, f.return_type->0, g.return_type->0)
            &&& g.body.locals.len() == f.body.locals.len()
            &&& forall|i: int|
                0 <= i < f.body.locals.len() ==> {
                    let x = f.body.locals[i];
                    let y = #[trigger] g.body.locals[i];
                    &&& y.id == x.id && y.name == x.name && y.mutable == x.mutable
                    &&& y.persist == x.persist && y.is_param == x.is_param
                    &&& made_for(ps, args, x.ty, y.ty)
                }
            &&& g.body.blocks.len() == f.body.blocks.len()
            &&& forall|b: int|
                0 <= b < f.body.blocks.len() ==> {
                    let x = f.body.blocks[b];
                    let y = #[trigger] g.body.blocks[b];
                    &&& y.id == x.id && y.terminator == x.terminator
                    &&& y.stmts.len() == x.stmts.len()
                    &&& forall|j: int|
                        0 <= j < x.stmts.len() ==> stmt_made_for(
                            ps,
                            args,
                            x.stmts[j],
                            #[trigger] y.stmts[j],
                        )
                }
        }),
{
    let g = fn_instance(f, args);
    let ps = f.generic_params;
    assert forall|i: int| 0 <= i < f.params.len() implies (#[trigger] g.params[i]).0
        == f.params[i].0 && made_for(ps, args, f.params[i].1, g.params[i].1) by {
        lemma_type_made(ps, args, f.params[i].1);
    }
    if f.return_type is Some {
        lemma_type_made(ps, args, f.return_type->0);
    }
    assert forall|i: int| 0 <= i < f.body.locals.len() implies made_for(
        ps,
        args,
        f.body.locals[i].ty,
        (#[trigger] g.body.locals[i]).ty,
    ) by {
        lemma_type_made(ps, args, f.body.locals[i].ty);
    }
    assert forall|b: int, j: int|
        0 <= b < f.body.blocks.len() && 0 <= j < f.body.blocks[b].stmts.len() implies stmt_made_for(
        ps,
        args,
        f.body.blocks[b].stmts[j],
        #[trigger] g.body.blocks[b].stmts[j],
    ) by {
        lemma_stmt_made(ps, args, f.body.blocks[b].stmts[j]);
    }
}

/// The instance of a struct has the struct's fields, with the argument in the place of
/// each type parameter, and no type parameters.
pub proof fn lemma_struct_instance_exact(s: StructV, args: Seq<TypeV>)
    ensures
        ({
            let r = struct_instance(s, args);
            &&& r.generic_params.len() == 0
            &&& r.fields.len() == s.fields.len()
            &&& forall|i: int|
                0 <= i < s.fields.len() ==> (#[trigger] r.fields[i]).0 == s.fields[i].0 && made_for(
                    s.generic_params,
                    args,
                    s.fields[i].1,
                    r.fields[i].1,
                )
        }),
{
    let r = struct_instance(s, args);
    assert forall|i: int| 0 <= i < s.fields.len() implies (#[trigger] r.fields[i]).0
        == s.fields[i].0 && made_for(s.generic_params, args, s.fields[i].1, r.fields[i].1) by {
        lemma_type_made(s.generic_params, args, s.fields[i].1);
    }
}

/// The instance of an enum has the enum's variants, with the argument in the place of each
/// type parameter, and no type parameters.
pub proof fn lemma_enum_instance_exact(e: EnumV, args: Seq<TypeV>)
    ensures
        ({
            let r = enum_instance(e, args);
            &&& r.generic_params.len() == 0
            &&& r.variants.len() == e.variants.len()
            &&& forall|i: int|
                0 <= i < e.variants.len() ==> {
                    let x = e.variants[i];
                    let y = #[trigger] r.variants[i];
                    &&& y.0 == x.0
                    &&& y.1 is Some <==> x.1 is Some
                    &&& x.1 is Some ==> made_for(e.generic_params, args, x.1->0, y.1->0)
                }
        }),
{
    let r = enum_instance(e, args);
    assert forall|i: int| 0 <= i < e.variants.len() implies {
        let x = e.variants[i];
        let y = #[trigger] r.variants[i];
        &&& y.0 == x.0
        &&& y.1 is Some <==> x.1 is Some
        &&& x.1 is Some ==> made_for(e.generic_params, args, x.1->0, y.1->0)
    } by {
        if e.variants[i].1 is Some {
            lemma_type_made(e.generic_params, args, e.variants[i].1->0);
        }
    }
}

// What is left of type parameters.

/// Whether a function mentions a type: as that of a parameter, as its return type, as that
/// of a local, or in a cast or a generic use of its body.
pub open spec fn fn_mentions(f: FnV, t: TypeV) -> bool {
    ||| exists|i: int| 0 <= i < f.params.len() && (#[trigger] f.params[i]).1 == t
    ||| f.return_type == Some(t)
    ||| exists|i: int| 0 <= i < f.body.locals.len() && (#[trigger] f.body.locals[i]).ty == t
    ||| exists|b: int, j: int|
        0 <= b < f.body.blocks.len() && 0 <= j < f.body.blocks[b].stmts.len() && stmt_types(
            #[trigger] f.body.blocks[b].stmts[j],
        ).contains(t)
}

/// The names of type parameters.
pub open spec fn param_names(params: Seq<GenericParamV>) -> Set<Seq<char>> {
    Set::new(|n: Seq<char>| exists|i: int| 0 <= i < params.len() && #[trigger] params[i].name == n)
}

proof fn lemma_made_ground(params: Seq<GenericParamV>, args: Seq<TypeV>, t: TypeV, r: TypeV)
    requires
        made_for(params, args, t, r),
        mentions_only(t, param_names(params)),
        params.len() <= args.len(),
        forall|i: int| 0 <= i < args.len() ==> ground(#[trigger] args[i]),
    ensures
        ground(r),
    decreases t,
{
    match t {
        TypeV::TypeParam(n) => {
            let k = choose|k: int| 0 <= k < params.len() && #[trigger] params[k].name == n;
            assert(params[k].name == n);
        },
        TypeV::Generic(_, ts) => {
            let rs = r->Generic_1;
            assert forall|i: int| 0 <= i < rs.len() implies ground(#[trigger] rs[i]) by {
                assert(made_for(params, args, ts[i], rs[i]));
                assert(mentions_only(ts[i], param_names(params)));
                lemma_made_ground(params, args, ts[i], rs[i]);
            }
        },
        TypeV::Tuple(ts) => {
            let rs = r->Tuple_0;
            assert forall|i: int| 0 <= i < rs.len() implies ground(#[trigger] rs[i]) by {
                assert(made_for(params, args, ts[i], rs[i]));
                assert(mentions_only(ts[i], param_names(params)));
                lemma_made_ground(params, args, ts[i], rs[i]);
            }
        },
        TypeV::Array(e, _) => lemma_made_ground(params, args, *e, *r->Array_0),
        TypeV::Ref { inner, .. } => lemma_made_ground(params, args, *inner, *r->Ref_inner),
        TypeV::Slice(e) => lemma_made_ground(params, args, *e, *r->Slice_0),
        TypeV::Privacy(e, _) => lemma_made_ground(params, args, *e, *r->Privacy_0),
        _ => {},
    }
}

/// In an instance for type arguments without type parameters, of a function whose types
/// mention only its own type parameters, and none inside a tensor, no type mentions a type
/// parameter.
pub proof fn lemma_instance_ground(f: FnV, args: Seq<TypeV>, t: TypeV)
    requires
        forall|u: TypeV| #[trigger]
            fn_mentions(f, u) ==> mentions_only(u, param_names(f.generic_params)),
        f.generic_params.len() <= args.len(),
        forall|i: int| 0 <= i < args.len() ==> ground(#[trigger] args[i]),
        fn_mentions(fn_instance(f, args), t),
    ensures
        ground(t),
{
    let g = fn_instance(f, args);
    let ps = f.generic_params;
    lemma_instance_exact(f, args);
    if exists|i: int| 0 <= i < g.params.len() && (#[trigger] g.params[i]).1 == t {
        let i = choose|i: int| 0 <= i < g.params.len() && (#[trigger] g.params[i]).1 == t;
        assert(fn_mentions(f, f.params[i].1));
        lemma_made_ground(ps, args, f.params[i].1, t);
    } else if g.return_type == Some(t) {
        assert(fn_mentions(f, f.return_type->0));
        lemma_made_ground(ps, args, f.return_type->0, t);
    } else if exists|i: int| 0 <= i < g.body.locals.len() && (#[trigger] g.body.locals[i]).ty == t {
        let i = choose|i: int|
            0 <= i < g.body.locals.len() && (#[trigger] g.body.locals[i]).ty == t;
        assert(fn_mentions(f, f.body.locals[i].ty));
        lemma_made_ground(ps, args, f.body.locals[i].ty, t);
    } else {
        let (b, j) = choose|b: int, j: int|
            0 <= b < g.body.blocks.len() && 0 <= j < g.body.blocks[b].stmts.len() && stmt_types(
                #[trigger] g.body.blocks[b].stmts[j],
            ).contains(t);
        let s = f.body.blocks[b].stmts[j];
        let r = g.body.blocks[b].stmts[j];
        assert(stmt_made_for(ps, args, s, r));
        let k = choose|k: int| 0 <= k < stmt_types(r).len() && stmt_types(r)[k] == t;
        let u = stmt_types(s)[k];
        assert(made_for(ps, args, u, stmt_types(r)[k]));
        assert(stmt_types(f.body.blocks[b].stmts[j]).contains(u));
        assert(fn_mentions(f, u));
        lemma_made_ground(ps, args, u, t);
    }
}

/// The fields of the instance of a struct, for type arguments without type parameters,
/// mention none, where those of the struct mention only its own and none inside a tensor.
pub proof fn lemma_struct_instance_ground(s: StructV, args: Seq<TypeV>, i: int)
    requires
        0 <= i < s.fields.len(),
        mentions_only(s.fields[i].1, param_names(s.generic_params)),
        s.generic_params.len() <= args.len(),
        forall|k: int| 0 <= k < args.len() ==> ground(#[trigger] args[k]),
    ensures
        ground(struct_instance(s, args).fields[i].1),
{
    lemma_struct_instance_exact(s, args);
    let r = struct_instance(s, args).fields[i];
    lemma_made_ground(s.generic_params, args, s.fields[i].1, r.1);
}

/// The variants of the instance of an enum, for type arguments without type parameters,
/// mention none, where those of the enum mention only its own and none inside a tensor.
pub proof fn lemma_enum_instance_ground(e: EnumV, args: Seq<TypeV>, i: int)
    requires
        0 <= i < e.variants.len(),
        e.variants[i].1 is Some,
        mentions_only(e.variants[i].1->0, param_names(e.generic_params)),
        e.generic_params.len() <= args.len(),
        forall|k: int| 0 <= k < args.len() ==> ground(#[trigger] args[k]),
    ensures
        enum_instance(e, args).variants[i].1 is Some,
        ground(enum_instance(e, args).variants[i].1->0),
{
    lemma_enum_instance_exact(e, args);
    let r = enum_instance(e, args).variants[i];
    lemma_made_ground(e.generic_params, args, e.variants[i].1->0, r.1->0);
}

// Which generic uses a body has.

/// Whether a right-hand side calls `name`, as a function or as a method, with the given
/// type arguments.
pub open spec fn calls(rv: RvalueV, name: Seq<char>, args: Seq<TypeV>) -> bool {
    match rv {
        RvalueV::Call { func, generic_args, .. } => func == name && generic_args == args,
        RvalueV::MethodCall { method, generic_args, .. } => method == name && generic_args == args,
        _ => false,
    }
}

/// Whether a right-hand side builds the struct `name` with the given type arguments.
pub open spec fn builds(rv: RvalueV, name: Seq<char>, args: Seq<TypeV>) -> bool {
    rv matches RvalueV::StructInit { struct_name, generic_args, .. } && struct_name == name
        && generic_args == args
}

/// Whether a right-hand side builds the enum `name` with the given type arguments.
pub open spec fn picks(rv: RvalueV, name: Seq<char>, args: Seq<TypeV>) -> bool {
    rv matches RvalueV::EnumVariantConstruction { enum_name, generic_args, .. } && enum_name == name
        && generic_args == args
}

/// Whether a statement evaluates a right-hand side.
pub open spec fn computes(s: StmtV, rv: RvalueV) -> bool {
    match s {
        StmtV::Assign { value, .. } => value == rv,
        StmtV::ExprStmt(value) => value == rv,
        _ => false,
    }
}

/// Whether a right-hand side stands somewhere in a body.
pub open spec fn occurs(b: BodyV, rv: RvalueV) -> bool {
    exists|i: int, j: int|
        0 <= i < b.blocks.len() && 0 <= j < b.blocks[i].stmts.len() && computes(
            #[trigger] b.blocks[i].stmts[j],
            rv,
        )
}

proof fn lemma_in_stmts(
    stmts: Seq<StmtV>,
    n: int,
    f: spec_fn(StmtV) -> Option<InstanceV>,
    site: InstanceV,
)
    requires
        0 <= n <= stmts.len(),
    ensures
        in_stmts(stmts, n, f).contains(site) <==> exists|j: int|
            0 <= j < n && f(#[trigger] stmts[j]) == Some(site),
    decreases n,
{
    if n > 0 {
        lemma_in_stmts(stmts, n - 1, f, site);
        let before = in_stmts(stmts, n - 1, f);
        let all = in_stmts(stmts, n, f);
        if before.contains(site) {
            let k = choose|k: int| 0 <= k < before.len() && before[k] == site;
            assert(all[k] == site);
        }
        if f(stmts[n - 1]) == Some(site) {
            assert(all[all.len() - 1] == site);
        }
        if all.contains(site) && !before.contains(site) {
            let k = choose|k: int| 0 <= k < all.len() && all[k] == site;
            if k < before.len() {
                assert(before[k] == site);
            }
            assert(f(stmts[n - 1]) == Some(site));
        }
    }
}

proof fn lemma_in_blocks(
    blocks: Seq<BlockV>,
    n: int,
    f: spec_fn(StmtV) -> Option<InstanceV>,
    site: InstanceV,
)
    requires
        0 <= n <= blocks.len(),
    ensures
        in_blocks(blocks, n, f).contains(site) <==> exists|i: int, j: int|
            0 <= i < n && 0 <= j < blocks[i].stmts.len() && f(#[trigger] blocks[i].stmts[j])
                == Some(site),
    decreases n,
{
    if n > 0 {
        lemma_in_blocks(blocks, n - 1, f, site);
        let stmts = blocks[n - 1].stmts;
        lemma_in_stmts(stmts, stmts.len() as int, f, site);
        let before = in_blocks(blocks, n - 1, f);
        let mine = in_stmts(stmts, stmts.len() as int, f);
        let all = in_blocks(blocks, n, f);
        if before.contains(site) {
            let k = choose|k: int| 0 <= k < before.len() && before[k] == site;
            assert(all[k] == site);
        }
        if mine.contains(site) {
            let k = choose|k: int| 0 <= k < mine.len() && mine[k] == site;
            assert(all[before.len() + k] == site);
            let j = choose|j: int| 0 <= j < stmts.len() && f(#[trigger] stmts[j]) == Some(site);
            assert(f(blocks[n - 1].stmts[j]) == Some(site));
        }
        if all.contains(site) && !before.contains(site) {
            let k = choose|k: int| 0 <= k < all.len() && all[k] == site;
            if k < before.len() {
                assert(before[k] == site);
            } else {
                assert(mine[k - before.len()] == site);
            }
        }
        if exists|i: int, j: int|
            0 <= i < n && 0 <= j < blocks[i].stmts.len() && f(#[trigger] blocks[i].stmts[j])
                == Some(site) {
            let (i, j) = choose|i: int, j: int|
                0 <= i < n && 0 <= j < blocks[i].stmts.len() && f(#[trigger] blocks[i].stmts[j])
                    == Some(site);
            if i == n - 1 {
                assert(f(stmts[j]) == Some(site));
            }
        }
    }
}

/// The generic calls of a body are the calls in it, of functions and of methods, that have
/// type arguments.
pub proof fn lemma_calls_exact(b: BodyV, name: Seq<char>, args: Seq<TypeV>)
    ensures
        calls_in(b).contains((name, args)) <==> args.len() > 0 && exists|rv: RvalueV| #[trigger]
            occurs(b, rv) && calls(rv, name, args),
{
    let f = |s: StmtV| call_of(s);
    lemma_in_blocks(b.blocks, b.blocks.len() as int, f, (name, args));
    if calls_in(b).contains((name, args)) {
        let (i, j) = choose|i: int, j: int|
            0 <= i < b.blocks.len() && 0 <= j < b.blocks[i].stmts.len() && f(
                #[trigger] b.blocks[i].stmts[j],
            ) == Some((name, args));
        let s = b.blocks[i].stmts[j];
        let rv = value_of(s)->0;
        assert(computes(s, rv) && calls(rv, name, args));
        assert(occurs(b, rv));
    }
    if args.len() > 0 && exists|rv: RvalueV| #[trigger] occurs(b, rv) && calls(rv, name, args) {
        let rv = choose|rv: RvalueV| #[trigger] occurs(b, rv) && calls(rv, name, args);
        let (i, j) = choose|i: int, j: int|
            0 <= i < b.blocks.len() && 0 <= j < b.blocks[i].stmts.len() && computes(
                #[trigger] b.blocks[i].stmts[j],
                rv,
            );
        assert(f(b.blocks[i].stmts[j]) == Some((name, args)));
    }
}

/// The generic structs that a body builds are those that stand in it with type arguments.
pub proof fn lemma_structs_exact(b: BodyV, name: Seq<char>, args: Seq<TypeV>)
    ensures
        structs_in(b).contains((name, args)) <==> args.len() > 0 && exists|rv: RvalueV| #[trigger]
            occurs(b, rv) && builds(rv, name, args),
{
    let f = |s: StmtV| struct_use_of(s);
    lemma_in_blocks(b.blocks, b.blocks.len() as int, f, (name, args));
    if structs_in(b).contains((name, args)) {
        let (i, j) = choose|i: int, j: int|
            0 <= i < b.blocks.len() && 0 <= j < b.blocks[i].stmts.len() && f(
                #[trigger] b.blocks[i].stmts[j],
            ) == Some((name, args));
        let s = b.blocks[i].stmts[j];
        let rv = value_of(s)->0;
        assert(computes(s, rv) && builds(rv, name, args));
        assert(occurs(b, rv));
    }
    if args.len() > 0 && exists|rv: RvalueV| #[trigger] occurs(b, rv) && builds(rv, name, args) {
        let rv = choose|rv: RvalueV| #[trigger] occurs(b, rv) && builds(rv, name, args);
        let (i, j) = choose|i: int, j: int|
            0 <= i < b.blocks.len() && 0 <= j < b.blocks[i].stmts.len() && computes(
                #[trigger] b.blocks[i].stmts[j],
                rv,
            );
        assert(f(b.blocks[i].stmts[j]) == Some((name, args)));
    }
}

/// The generic enums that a body builds are those that stand in it with type arguments.
pub proof fn lemma_enums_exact(b: BodyV, name: Seq<char>, args: Seq<TypeV>)
    ensures
        enums_in(b).contains((name, args)) <==> args.len() > 0 && exists|rv: RvalueV| #[trigger]
            occurs(b, rv) && picks(rv, name, args),
{
    let f = |s: StmtV| enum_use_of(s);
    lemma_in_blocks(b.blocks, b.blocks.len() as int, f, (name, args));
    if enums_in(b).contains((name, args)) {
        let (i, j) = choose|i: int, j: int|
            0 <= i < b.blocks.len() && 0 <= j < b.blocks[i].stmts.len() && f(
                #[trigger] b.blocks[i].stmts[j],
            ) == Some((name, args));
        let s = b.blocks[i].stmts[j];
        let rv = value_of(s)->0;
        assert(computes(s, rv) && picks(rv, name, args));
        assert(occurs(b, rv));
    }
    if args.len() > 0 && exists|rv: RvalueV| #[trigger] occurs(b, rv) && picks(rv, name, args) {
        let rv = choose|rv: RvalueV| #[trigger] occurs(b, rv) && picks(rv, name, args);
        let (i, j) = choose|i: int, j: int|
            0 <= i < b.blocks.len() && 0 <= j < b.blocks[i].stmts.len() && computes(
                #[trigger] b.blocks[i].stmts[j],
                rv,
            );
        assert(f(b.blocks[i].stmts[j]) == Some((name, args)));
    }
}

// What is made.

/// A name is looked up at its first place.
pub proof fn lemma_position_first(names: Seq<Seq<char>>, name: Seq<char>, from: int)
    requires
        0 <= from <= names.len(),
    ensures
        match position(names, name, from) {
            Some(i) => {
                &&& from <= i < names.len() && names[i] == name
                &&& forall|k: int| from <= k < i ==> #[trigger] names[k] != name
            },
            None => forall|k: int| from <= k < names.len() ==> #[trigger] names[k] != name,
        },
    decreases names.len() - from,
{
    if from < names.len() && names[from] != name {
        lemma_position_first(names, name, from + 1);
    }
}

/// Whether a function is an instance of a generic function of the program: of the first
/// of its name.
pub open spec fn stems_from(templates: Seq<FnV>, f: FnV, i: int, args: Seq<TypeV>) -> bool {
    &&& 0 <= i < templates.len()
    &&& templates[i].generic_params.len() > 0
    &&& forall|k: int| 0 <= k < i ==> (#[trigger] templates[k]).name != templates[i].name
    &&& f == fn_instance(templates[i], args)
}

/// Whether a function is an instance of a generic function of the program.
pub open spec fn stems(templates: Seq<FnV>, f: FnV) -> bool {
    exists|i: int, args: Seq<TypeV>| #[trigger] stems_from(templates, f, i, args)
}

/// Whether each function made is an instance of a generic function of the program.
pub open spec fn all_stem(templates: Seq<FnV>, w: Work) -> bool {
    forall|j: int|
        0 <= j < w.fns.len() ==> stems(templates, #[trigger] w.fns[j])
}

proof fn lemma_follow_stems(templates: Seq<FnV>, w: Work, site: InstanceV)
    requires
        all_stem(templates, w),
    ensures
        all_stem(templates, follow(templates, w, site)),
{
    let r = follow(templates, w, site);
    let names = fn_names(templates);
    lemma_position_first(names, site.0, 0);
    if let Some(i) = position(names, site.0, 0) {
        assert forall|k: int| 0 <= k < i implies (#[trigger] templates[k]).name
            != templates[i].name by {
            assert(names[k] != site.0);
        }
        assert forall|j: int| 0 <= j < r.fns.len() implies stems(
            templates,
            #[trigger] r.fns[j],
        ) by {
            if j < w.fns.len() {
                assert(r.fns[j] == w.fns[j]);
            } else {
                assert(stems_from(templates, r.fns[j], i, site.1));
            }
        }
    }
}

proof fn lemma_follow_all_stems(templates: Seq<FnV>, w: Work, sites: Seq<InstanceV>, n: int)
    requires
        all_stem(templates, w),
    ensures
        all_stem(templates, follow_all(templates, w, sites, n)),
    decreases n,
{
    if n > 0 {
        lemma_follow_all_stems(templates, w, sites, n - 1);
        lemma_follow_stems(templates, follow_all(templates, w, sites, n - 1), sites[n - 1]);
    }
}

proof fn lemma_expand_stems(templates: Seq<FnV>, w: Work, k: nat)
    requires
        all_stem(templates, w),
        expand(templates, w, k) is Some,
    ensures
        all_stem(templates, expand(templates, w, k)->0),
    decreases k,
{
    if w.calls.len() > 0 && k > 0 {
        let start = Work { calls: Seq::empty(), ..w };
        assert(all_stem(templates, start));
        lemma_follow_all_stems(templates, start, w.calls, w.calls.len() as int);
        lemma_expand_stems(
            templates,
            follow_all(templates, start, w.calls, w.calls.len() as int),
            (k - 1) as nat,
        );
    }
}

proof fn lemma_nothing_made(fns: Seq<FnV>, n: int)
    ensures
        work_of(fns, n).fns.len() == 0,
    decreases n,
{
    if n > 0 {
        lemma_nothing_made(fns, n - 1);
    }
}

/// Following the generic calls of a program makes nothing but instances of its generic
/// functions.
pub proof fn lemma_made_stem(fns: Seq<FnV>, j: int)
    requires
        expands(fns),
        0 <= j < expanded(fns).fns.len(),
    ensures
        stems(fns, expanded(fns).fns[j]),
{
    let w = work_of(fns, fns.len() as int);
    lemma_nothing_made(fns, fns.len() as int);
    let k = choose|k: nat| expand(fns, w, k) is Some;
    lemma_expand_stems(fns, w, k);
}

} // verus!
