//! Monomorphisation: every use of a generic function, struct or enum gets an
//! instance of its own, named after its type arguments.

use vstd::prelude::*;

use crate::ast::{clone_types, Type};
use crate::ast::TypeV;
use crate::concrete::{concrete, fn_concrete, named_concrete};
use crate::concrete::{concrete_fn, concrete_named, replace_generic_with_concrete};
use crate::mangle::{mangled, substituted, substituted_all};
use crate::mangle::{mangled_name, replace_type, replace_types};
use crate::mir::{
    BlockV, BodyV, EnumV, FnV, GenericParamV, LocalV, ProgramV, RvalueV, StmtV, StructV,
};
use crate::mir::{
    clone_generic_params, MirBlock, MirBody, MirEnum, MirFn, MirGenericParam, MirLocal, MirProgram,
    MirRvalue, MirStmt, MirStruct,
};
use crate::table::{KeySet, Table};

verus! {

/// The monomorphiser.
pub struct Monomorphic;

/// A generic name with the type arguments of one use.
pub type Instance = (String, Vec<Type>);

/// Model of an `Instance`.
pub type InstanceV = (Seq<char>, Seq<TypeV>);

/// A right-hand side with its type parameters replaced.
pub open spec fn rvalue_substituted(rv: RvalueV, subst: Map<Seq<char>, TypeV>) -> RvalueV {
    match rv {
        RvalueV::Cast(o, ty) => RvalueV::Cast(o, substituted(ty, subst)),
        RvalueV::StructInit { struct_name, generic_args, fields } => RvalueV::StructInit {
            struct_name,
            generic_args: substituted_all(generic_args, subst),
            fields,
        },
        RvalueV::EnumVariantConstruction { enum_name, generic_args, variant_name, args } => {
            RvalueV::EnumVariantConstruction {
                enum_name,
                generic_args: substituted_all(generic_args, subst),
                variant_name,
                args,
            }
        },
        RvalueV::Call { func, args, is_intrinsic, intrinsic_name, generic_args } => RvalueV::Call {
            func,
            args,
            is_intrinsic,
            intrinsic_name,
            generic_args: substituted_all(generic_args, subst),
        },
        RvalueV::MethodCall { receiver, method, args, generic_args } => RvalueV::MethodCall {
            receiver,
            method,
            args,
            generic_args: substituted_all(generic_args, subst),
        },
        _ => rv,
    }
}

/// A statement with its type parameters replaced.
pub open spec fn stmt_substituted(s: StmtV, subst: Map<Seq<char>, TypeV>) -> StmtV {
    match s {
        StmtV::Assign { dest, value } => StmtV::Assign {
            dest,
            value: rvalue_substituted(value, subst),
        },
        StmtV::ExprStmt(value) => StmtV::ExprStmt(rvalue_substituted(value, subst)),
        _ => s,
    }
}

/// A block with its type parameters replaced.
pub open spec fn block_substituted(b: BlockV, subst: Map<Seq<char>, TypeV>) -> BlockV {
    BlockV {
        stmts: Seq::new(b.stmts.len(), |i: int| stmt_substituted(b.stmts[i], subst)),
        ..b
    }
}

/// A body with its type parameters replaced.
pub open spec fn body_substituted(b: BodyV, subst: Map<Seq<char>, TypeV>) -> BodyV {
    BodyV {
        locals: Seq::new(
            b.locals.len(),
            |i: int| LocalV { ty: substituted(b.locals[i].ty, subst), ..b.locals[i] },
        ),
        blocks: Seq::new(b.blocks.len(), |i: int| block_substituted(b.blocks[i], subst)),
    }
}

/// The types that the first `n` type parameters stand for; the last of two
/// parameters of one name counts.
pub open spec fn bound(params: Seq<GenericParamV>, args: Seq<TypeV>, n: int) -> Map<
    Seq<char>,
    TypeV,
>
    decreases n,
{
    if n <= 0 {
        Map::empty()
    } else {
        bound(params, args, n - 1).insert(params[n - 1].name, args[n - 1])
    }
}

/// The types that the type parameters stand for, as far as there are arguments.
pub open spec fn binding(params: Seq<GenericParamV>, args: Seq<TypeV>) -> Map<Seq<char>, TypeV> {
    bound(
        params,
        args,
        if params.len() < args.len() {
            params.len() as int
        } else {
            args.len() as int
        },
    )
}

/// Named types with their type parameters replaced.
pub open spec fn named_substituted(
    fs: Seq<(Seq<char>, TypeV)>,
    subst: Map<Seq<char>, TypeV>,
) -> Seq<(Seq<char>, TypeV)> {
    Seq::new(fs.len(), |i: int| (fs[i].0, substituted(fs[i].1, subst)))
}

/// The instance of a function for the given type arguments.
pub open spec fn fn_instance(f: FnV, args: Seq<TypeV>) -> FnV {
    let subst = binding(f.generic_params, args);
    FnV {
        name: mangled(f.name, args),
        generic_params: Seq::empty(),
        params: named_substituted(f.params, subst),
        return_type: match f.return_type {
            Some(t) => Some(substituted(t, subst)),
            None => None,
        },
        body: body_substituted(f.body, subst),
    }
}

/// The instance of a struct for the given type arguments.
pub open spec fn struct_instance(s: StructV, args: Seq<TypeV>) -> StructV {
    StructV {
        name: mangled(s.name, args),
        generic_params: Seq::empty(),
        fields: named_substituted(s.fields, binding(s.generic_params, args)),
    }
}

/// The instance of an enum for the given type arguments.
pub open spec fn enum_instance(e: EnumV, args: Seq<TypeV>) -> EnumV {
    let subst = binding(e.generic_params, args);
    EnumV {
        name: mangled(e.name, args),
        generic_params: Seq::empty(),
        variants: Seq::new(
            e.variants.len(),
            |i: int|
                (
                    e.variants[i].0,
                    match e.variants[i].1 {
                        Some(t) => Some(substituted(t, subst)),
                        None => None,
                    },
                ),
        ),
    }
}

/// The generic call that a statement makes, if it makes one.
pub open spec fn call_of(s: StmtV) -> Option<InstanceV> {
    match value_of(s) {
        Some(RvalueV::Call { func, generic_args, .. }) => if generic_args.len() > 0 {
            Some((func, generic_args))
        } else {
            None
        },
        Some(RvalueV::MethodCall { method, generic_args, .. }) => if generic_args.len() > 0 {
            Some((method, generic_args))
        } else {
            None
        },
        _ => None,
    }
}

/// The right-hand side that a statement evaluates, if it evaluates one.
pub open spec fn value_of(s: StmtV) -> Option<RvalueV> {
    match s {
        StmtV::Assign { value, .. } => Some(value),
        StmtV::ExprStmt(value) => Some(value),
        _ => None,
    }
}

/// The generic struct that a statement builds, if it builds one.
pub open spec fn struct_use_of(s: StmtV) -> Option<InstanceV> {
    match value_of(s) {
        Some(RvalueV::StructInit { struct_name, generic_args, .. }) => if generic_args.len() > 0 {
            Some((struct_name, generic_args))
        } else {
            None
        },
        _ => None,
    }
}

/// The generic enum that a statement builds, if it builds one.
pub open spec fn enum_use_of(s: StmtV) -> Option<InstanceV> {
    match value_of(s) {
        Some(RvalueV::EnumVariantConstruction { enum_name, generic_args, .. }) => if generic_args.len()
            > 0 {
            Some((enum_name, generic_args))
        } else {
            None
        },
        _ => None,
    }
}

/// What `f` finds in the first `n` statements, in order.
pub open spec fn in_stmts(stmts: Seq<StmtV>, n: int, f: spec_fn(StmtV) -> Option<InstanceV>) -> Seq<
    InstanceV,
>
    decreases n,
{
    if n <= 0 {
        Seq::empty()
    } else {
        match f(stmts[n - 1]) {
            Some(x) => in_stmts(stmts, n - 1, f).push(x),
            None => in_stmts(stmts, n - 1, f),
        }
    }
}

/// What `f` finds in the first `n` blocks, in order.
pub open spec fn in_blocks(
    blocks: Seq<BlockV>,
    n: int,
    f: spec_fn(StmtV) -> Option<InstanceV>,
) -> Seq<InstanceV>
    decreases n,
{
    if n <= 0 {
        Seq::empty()
    } else {
        in_blocks(blocks, n - 1, f) + in_stmts(
            blocks[n - 1].stmts,
            blocks[n - 1].stmts.len() as int,
            f,
        )
    }
}

/// The generic calls of a body, in order.
pub open spec fn calls_in(b: BodyV) -> Seq<InstanceV> {
    in_blocks(b.blocks, b.blocks.len() as int, |s: StmtV| call_of(s))
}

/// The generic structs that a body builds, in order.
pub open spec fn structs_in(b: BodyV) -> Seq<InstanceV> {
    in_blocks(b.blocks, b.blocks.len() as int, |s: StmtV| struct_use_of(s))
}

/// The generic enums that a body builds, in order.
pub open spec fn enums_in(b: BodyV) -> Seq<InstanceV> {
    in_blocks(b.blocks, b.blocks.len() as int, |s: StmtV| enum_use_of(s))
}

/// The statement's generic call.
fn call_in_stmt(stmt: &MirStmt) -> (r: Option<Instance>)
    ensures
        r.deep_view() == call_of(stmt.deep_view()),
{
    let value = match stmt {
        MirStmt::Assign { value, .. } => value,
        MirStmt::ExprStmt(value) => value,
        _ => {
            return None;
        },
    };
    match value {
        MirRvalue::Call { func, generic_args, .. } => {
            assert(generic_args.deep_view().len() == generic_args.len());
            if generic_args.len() > 0 {
                Some((func.clone(), clone_types(generic_args)))
            } else {
                None
            }
        },
        MirRvalue::MethodCall { method, generic_args, .. } => {
            assert(generic_args.deep_view().len() == generic_args.len());
            if generic_args.len() > 0 {
                Some((method.clone(), clone_types(generic_args)))
            } else {
                None
            }
        },
        _ => None,
    }
}

/// The generic struct that the statement builds.
fn struct_in_stmt(stmt: &MirStmt) -> (r: Option<Instance>)
    ensures
        r.deep_view() == struct_use_of(stmt.deep_view()),
{
    let value = match stmt {
        MirStmt::Assign { value, .. } => value,
        MirStmt::ExprStmt(value) => value,
        _ => {
            return None;
        },
    };
    match value {
        MirRvalue::StructInit { struct_name, generic_args, .. } => {
            assert(generic_args.deep_view().len() == generic_args.len());
            if generic_args.len() > 0 {
                Some((struct_name.clone(), clone_types(generic_args)))
            } else {
                None
            }
        },
        _ => None,
    }
}

/// The generic enum that the statement builds.
fn enum_in_stmt(stmt: &MirStmt) -> (r: Option<Instance>)
    ensures
        r.deep_view() == enum_use_of(stmt.deep_view()),
{
    let value = match stmt {
        MirStmt::Assign { value, .. } => value,
        MirStmt::ExprStmt(value) => value,
        _ => {
            return None;
        },
    };
    match value {
        MirRvalue::EnumVariantConstruction { enum_name, generic_args, .. } => {
            assert(generic_args.deep_view().len() == generic_args.len());
            if generic_args.len() > 0 {
                Some((enum_name.clone(), clone_types(generic_args)))
            } else {
                None
            }
        },
        _ => None,
    }
}

/// Adds the generic calls of a body.
fn collect_calls(body: &MirBody, out: &mut Vec<Instance>)
    ensures
        final(out).deep_view() == old(out).deep_view() + calls_in(body.deep_view()),
{
    let ghost o0 = out.deep_view();
    let ghost bv = body.deep_view().blocks;
    let ghost f = |s: StmtV| call_of(s);
    let mut i: usize = 0;
    assert(o0 =~= o0 + in_blocks(bv, 0, f));
    while i < body.blocks.len()
        invariant
            i <= body.blocks.len(),
            bv == body.blocks.deep_view(),
            f == (|s: StmtV| call_of(s)),
            out.deep_view() == o0 + in_blocks(bv, i as int, f),
        decreases body.blocks.len() - i,
    {
        let block = &body.blocks[i];
        assert(bv[i as int] == block.deep_view());
        let ghost sv = block.stmts.deep_view();
        let ghost o1 = out.deep_view();
        let mut j: usize = 0;
        assert(o1 =~= o1 + in_stmts(sv, 0, f));
        while j < block.stmts.len()
            invariant
                j <= block.stmts.len(),
                sv == block.stmts.deep_view(),
                f == (|s: StmtV| call_of(s)),
                out.deep_view() == o1 + in_stmts(sv, j as int, f),
            decreases block.stmts.len() - j,
        {
            assert(sv[j as int] == block.stmts@[j as int].deep_view());
            let ghost o2 = out.deep_view();
            if let Some(c) = call_in_stmt(&block.stmts[j]) {
                let ghost cv = c.deep_view();
                out.push(c);
                assert(out.deep_view() =~= o2.push(cv));
            }
            assert(out.deep_view() =~= o1 + in_stmts(sv, j + 1, f));
            j = j + 1;
        }
        assert(out.deep_view() =~= o0 + in_blocks(bv, i + 1, f));
        i = i + 1;
    }
}

/// Adds the generic structs and enums that a body builds.
fn collect_generic_instances(
    body: &MirBody,
    struct_out: &mut Vec<Instance>,
    enum_out: &mut Vec<Instance>,
)
    ensures
        final(struct_out).deep_view() == old(struct_out).deep_view() + structs_in(
            body.deep_view(),
        ),
        final(enum_out).deep_view() == old(enum_out).deep_view() + enums_in(body.deep_view()),
{
    let ghost s0 = struct_out.deep_view();
    let ghost e0 = enum_out.deep_view();
    let ghost bv = body.deep_view().blocks;
    let ghost f = |s: StmtV| struct_use_of(s);
    let ghost g = |s: StmtV| enum_use_of(s);
    let mut i: usize = 0;
    assert(s0 =~= s0 + in_blocks(bv, 0, f));
    assert(e0 =~= e0 + in_blocks(bv, 0, g));
    while i < body.blocks.len()
        invariant
            i <= body.blocks.len(),
            bv == body.blocks.deep_view(),
            f == (|s: StmtV| struct_use_of(s)),
            g == (|s: StmtV| enum_use_of(s)),
            struct_out.deep_view() == s0 + in_blocks(bv, i as int, f),
            enum_out.deep_view() == e0 + in_blocks(bv, i as int, g),
        decreases body.blocks.len() - i,
    {
        let block = &body.blocks[i];
        assert(bv[i as int] == block.deep_view());
        let ghost sv = block.stmts.deep_view();
        let ghost s1 = struct_out.deep_view();
        let ghost e1 = enum_out.deep_view();
        let mut j: usize = 0;
        assert(s1 =~= s1 + in_stmts(sv, 0, f));
        assert(e1 =~= e1 + in_stmts(sv, 0, g));
        while j < block.stmts.len()
            invariant
                j <= block.stmts.len(),
                sv == block.stmts.deep_view(),
                f == (|s: StmtV| struct_use_of(s)),
                g == (|s: StmtV| enum_use_of(s)),
                struct_out.deep_view() == s1 + in_stmts(sv, j as int, f),
                enum_out.deep_view() == e1 + in_stmts(sv, j as int, g),
            decreases block.stmts.len() - j,
        {
            assert(sv[j as int] == block.stmts@[j as int].deep_view());
            let ghost s2 = struct_out.deep_view();
            let ghost e2 = enum_out.deep_view();
            if let Some(c) = struct_in_stmt(&block.stmts[j]) {
                let ghost cv = c.deep_view();
                struct_out.push(c);
                assert(struct_out.deep_view() =~= s2.push(cv));
            }
            if let Some(c) = enum_in_stmt(&block.stmts[j]) {
                let ghost cv = c.deep_view();
                enum_out.push(c);
                assert(enum_out.deep_view() =~= e2.push(cv));
            }
            assert(struct_out.deep_view() =~= s1 + in_stmts(sv, j + 1, f));
            assert(enum_out.deep_view() =~= e1 + in_stmts(sv, j + 1, g));
            j = j + 1;
        }
        assert(struct_out.deep_view() =~= s0 + in_blocks(bv, i + 1, f));
        assert(enum_out.deep_view() =~= e0 + in_blocks(bv, i + 1, g));
        i = i + 1;
    }
}

/// A right-hand side with its type parameters replaced.
fn replace_rvalue(rv: &MirRvalue, subst: &Table<String, Type>) -> (r: MirRvalue)
    ensures
        r.deep_view() == rvalue_substituted(rv.deep_view(), subst.deep_view()),
{
    match rv {
        MirRvalue::Cast(op, ty) => MirRvalue::Cast(op.clone(), replace_type(ty, subst)),
        MirRvalue::StructInit { struct_name, generic_args, fields } => MirRvalue::StructInit {
            struct_name: struct_name.clone(),
            generic_args: replace_types(generic_args, subst),
            fields: crate::mir::clone_fields(fields),
        },
        MirRvalue::EnumVariantConstruction { enum_name, generic_args, variant_name, args } => {
            MirRvalue::EnumVariantConstruction {
                enum_name: enum_name.clone(),
                generic_args: replace_types(generic_args, subst),
                variant_name: variant_name.clone(),
                args: crate::mir::clone_operands(args),
            }
        },
        MirRvalue::Call { func, args, is_intrinsic, intrinsic_name, generic_args } => {
            MirRvalue::Call {
                func: func.clone(),
                args: crate::mir::clone_operands(args),
                is_intrinsic: *is_intrinsic,
                intrinsic_name: *intrinsic_name,
                generic_args: replace_types(generic_args, subst),
            }
        },
        MirRvalue::MethodCall { receiver, method, args, generic_args } => MirRvalue::MethodCall {
            receiver: receiver.clone(),
            method: method.clone(),
            args: crate::mir::clone_operands(args),
            generic_args: replace_types(generic_args, subst),
        },
        _ => rv.clone(),
    }
}

/// A statement with its type parameters replaced.
fn replace_stmt(stmt: &MirStmt, subst: &Table<String, Type>) -> (r: MirStmt)
    ensures
        r.deep_view() == stmt_substituted(stmt.deep_view(), subst.deep_view()),
{
    match stmt {
        MirStmt::Assign { dest, value } => MirStmt::Assign {
            dest: dest.clone(),
            value: replace_rvalue(value, subst),
        },
        MirStmt::ExprStmt(value) => MirStmt::ExprStmt(replace_rvalue(value, subst)),
        _ => stmt.clone(),
    }
}

/// A body with its type parameters replaced.
fn replace_body(body: &MirBody, subst: &Table<String, Type>) -> (r: MirBody)
    ensures
        r.deep_view() == body_substituted(body.deep_view(), subst.deep_view()),
{
    let ghost bv = body.deep_view();
    let ghost sub = subst.deep_view();
    let mut new_locals: Vec<MirLocal> = Vec::new();
    let mut i: usize = 0;
    while i < body.locals.len()
        invariant
            i <= body.locals.len(),
            bv == body.deep_view(),
            sub == subst.deep_view(),
            new_locals.len() == i,
            forall|j: int|
                0 <= j < i ==> (#[trigger] new_locals@[j]).deep_view() == (LocalV {
                    ty: substituted(bv.locals[j].ty, sub),
                    ..bv.locals[j]
                }),
        decreases body.locals.len() - i,
    {
        assert(bv.locals[i as int] == body.locals@[i as int].deep_view());
        let mut l = body.locals[i].clone();
        l.ty = replace_type(&body.locals[i].ty, subst);
        new_locals.push(l);
        i = i + 1;
    }
    let mut new_blocks: Vec<MirBlock> = Vec::new();
    let mut k: usize = 0;
    while k < body.blocks.len()
        invariant
            k <= body.blocks.len(),
            bv == body.deep_view(),
            sub == subst.deep_view(),
            new_blocks.len() == k,
            forall|j: int|
                0 <= j < k ==> (#[trigger] new_blocks@[j]).deep_view() == block_substituted(
                    bv.blocks[j],
                    sub,
                ),
        decreases body.blocks.len() - k,
    {
        let block = &body.blocks[k];
        assert(bv.blocks[k as int] == block.deep_view());
        let mut new_stmts: Vec<MirStmt> = Vec::new();
        let mut j: usize = 0;
        while j < block.stmts.len()
            invariant
                j <= block.stmts.len(),
                sub == subst.deep_view(),
                new_stmts.len() == j,
                forall|x: int|
                    0 <= x < j ==> (#[trigger] new_stmts@[x]).deep_view() == stmt_substituted(
                        block.deep_view().stmts[x],
                        sub,
                    ),
            decreases block.stmts.len() - j,
        {
            assert(block.deep_view().stmts[j as int] == block.stmts@[j as int].deep_view());
            new_stmts.push(replace_stmt(&block.stmts[j], subst));
            j = j + 1;
        }
        let b = MirBlock { id: block.id, stmts: new_stmts, terminator: block.terminator.clone() };
        assert(b.deep_view().stmts =~= block_substituted(bv.blocks[k as int], sub).stmts);
        new_blocks.push(b);
        k = k + 1;
    }
    let r = MirBody { locals: new_locals, blocks: new_blocks };
    assert(r.deep_view().locals =~= body_substituted(bv, sub).locals);
    assert(r.deep_view().blocks =~= body_substituted(bv, sub).blocks);
    r
}

/// The types that the type parameters stand for.
fn bind(params: &Vec<MirGenericParam>, args: &Vec<Type>) -> (r: Table<String, Type>)
    ensures
        r.deep_view() == binding(params.deep_view(), args.deep_view()),
{
    let ghost pv = params.deep_view();
    let ghost av = args.deep_view();
    let mut subst: Table<String, Type> = Table::new();
    let mut i: usize = 0;
    while i < params.len() && i < args.len()
        invariant
            i <= params.len(),
            i <= args.len(),
            pv == params.deep_view(),
            av == args.deep_view(),
            subst.deep_view() == bound(pv, av, i as int),
        decreases params.len() - i,
    {
        assert(pv[i as int] == params@[i as int].deep_view());
        assert(av[i as int] == args@[i as int].deep_view());
        subst.insert(params[i].name.clone(), args[i].clone());
        i = i + 1;
    }
    subst
}

/// Named types with their type parameters replaced.
fn replace_named(fs: &Vec<(String, Type)>, subst: &Table<String, Type>) -> (r: Vec<(String, Type)>)
    ensures
        r.deep_view() == named_substituted(fs.deep_view(), subst.deep_view()),
{
    let mut r: Vec<(String, Type)> = Vec::new();
    let mut i: usize = 0;
    while i < fs.len()
        invariant
            i <= fs.len(),
            r.len() == i,
            forall|j: int|
                0 <= j < i ==> (#[trigger] r@[j]).deep_view() == (
                    fs@[j].0.deep_view(),
                    substituted(fs@[j].1.deep_view(), subst.deep_view()),
                ),
        decreases fs.len() - i,
    {
        r.push((fs[i].0.clone(), replace_type(&fs[i].1, subst)));
        i = i + 1;
    }
    assert(r.deep_view() =~= named_substituted(fs.deep_view(), subst.deep_view()));
    r
}

/// The instance of a function for the given type arguments.
fn instantiate_fn(f: &MirFn, args: &Vec<Type>) -> (r: MirFn)
    ensures
        r.deep_view() == fn_instance(f.deep_view(), args.deep_view()),
{
    let subst = bind(&f.generic_params, args);
    let r = MirFn {
        name: mangled_name(f.name.as_str(), args),
        generic_params: Vec::new(),
        params: replace_named(&f.params, &subst),
        return_type: match &f.return_type {
            Some(t) => Some(replace_type(t, &subst)),
            None => None,
        },
        body: replace_body(&f.body, &subst),
    };
    assert(r.deep_view().generic_params =~= Seq::empty());
    r
}

/// The instance of a struct for the given type arguments.
fn instantiate_struct(s: &MirStruct, args: &Vec<Type>) -> (r: MirStruct)
    ensures
        r.deep_view() == struct_instance(s.deep_view(), args.deep_view()),
{
    let subst = bind(&s.generic_params, args);
    let r = MirStruct {
        name: mangled_name(s.name.as_str(), args),
        generic_params: Vec::new(),
        fields: replace_named(&s.fields, &subst),
    };
    assert(r.deep_view().generic_params =~= Seq::empty());
    r
}

/// The instance of an enum for the given type arguments.
fn instantiate_enum(e: &MirEnum, args: &Vec<Type>) -> (r: MirEnum)
    ensures
        r.deep_view() == enum_instance(e.deep_view(), args.deep_view()),
{
    let subst = bind(&e.generic_params, args);
    let ghost want = enum_instance(e.deep_view(), args.deep_view());
    let mut variants: Vec<(String, Option<Type>)> = Vec::new();
    let mut i: usize = 0;
    while i < e.variants.len()
        invariant
            i <= e.variants.len(),
            subst.deep_view() == binding(e.deep_view().generic_params, args.deep_view()),
            want == enum_instance(e.deep_view(), args.deep_view()),
            variants.len() == i,
            forall|j: int|
                0 <= j < i ==> (#[trigger] variants@[j]).deep_view() == want.variants[j],
        decreases e.variants.len() - i,
    {
        assert(e.deep_view().variants[i as int] == e.variants@[i as int].deep_view());
        let payload = match &e.variants[i].1 {
            Some(t) => Some(replace_type(t, &subst)),
            None => None,
        };
        variants.push((e.variants[i].0.clone(), payload));
        i = i + 1;
    }
    let r = MirEnum {
        name: mangled_name(e.name.as_str(), args),
        generic_params: Vec::new(),
        variants,
    };
    assert(r.deep_view().generic_params =~= Seq::empty());
    assert(r.deep_view().variants =~= want.variants);
    r
}


/// The first position from `from` on at which `name` stands.
pub open spec fn position(names: Seq<Seq<char>>, name: Seq<char>, from: int) -> Option<int>
    decreases names.len() - from,
{
    if from < 0 || from >= names.len() {
        None
    } else if names[from] == name {
        Some(from)
    } else {
        position(names, name, from + 1)
    }
}

/// The names of functions.
pub open spec fn fn_names(fns: Seq<FnV>) -> Seq<Seq<char>> {
    fns.map_values(|f: FnV| f.name)
}

/// The names of structs.
pub open spec fn struct_names(structs: Seq<StructV>) -> Seq<Seq<char>> {
    structs.map_values(|s: StructV| s.name)
}

/// The names of enums.
pub open spec fn enum_names(enums: Seq<EnumV>) -> Seq<Seq<char>> {
    enums.map_values(|e: EnumV| e.name)
}

/// What the expansion of generic calls has made so far: function instances, their
/// names, the generic structs and enums met, and the calls still to follow.
#[verifier::ext_equal]
pub struct Work {
    pub fns: Seq<FnV>,
    pub made: Set<Seq<char>>,
    pub structs: Seq<InstanceV>,
    pub enums: Seq<InstanceV>,
    pub calls: Seq<InstanceV>,
}

/// Follows one call: the called function, where it is generic and the instance is
/// not there yet, gets an instance, whose own uses are noted.
pub open spec fn follow(templates: Seq<FnV>, w: Work, site: InstanceV) -> Work {
    match position(fn_names(templates), site.0, 0) {
        None => w,
        Some(i) => {
            let inst = fn_instance(templates[i], site.1);
            if templates[i].generic_params.len() == 0 || w.made.contains(inst.name) {
                w
            } else {
                Work {
                    fns: w.fns.push(inst),
                    made: w.made.insert(inst.name),
                    structs: w.structs + structs_in(inst.body),
                    enums: w.enums + enums_in(inst.body),
                    calls: w.calls + calls_in(inst.body),
                }
            }
        },
    }
}

/// Follows the first `n` calls.
pub open spec fn follow_all(templates: Seq<FnV>, w: Work, sites: Seq<InstanceV>, n: int) -> Work
    decreases n,
{
    if n <= 0 {
        w
    } else {
        follow(templates, follow_all(templates, w, sites, n - 1), sites[n - 1])
    }
}

/// Follows calls round by round until none is left, if at most `k` rounds do.
pub open spec fn expand(templates: Seq<FnV>, w: Work, k: nat) -> Option<Work>
    decreases k,
{
    if w.calls.len() == 0 {
        Some(w)
    } else if k == 0 {
        None
    } else {
        expand(
            templates,
            follow_all(
                templates,
                Work { calls: Seq::empty(), ..w },
                w.calls,
                w.calls.len() as int,
            ),
            (k - 1) as nat,
        )
    }
}

/// The uses that the first `n` functions make themselves.
pub open spec fn work_of(fns: Seq<FnV>, n: int) -> Work
    decreases n,
{
    if n <= 0 {
        Work {
            fns: Seq::empty(),
            made: Set::empty(),
            structs: Seq::empty(),
            enums: Seq::empty(),
            calls: Seq::empty(),
        }
    } else {
        let w = work_of(fns, n - 1);
        let b = fns[n - 1].body;
        Work {
            structs: w.structs + structs_in(b),
            enums: w.enums + enums_in(b),
            calls: w.calls + calls_in(b),
            ..w
        }
    }
}

/// Whether following the generic calls comes to an end. It does not where a
/// generic function calls itself at ever larger types.
pub open spec fn expands(fns: Seq<FnV>) -> bool {
    exists|k: nat| expand(fns, work_of(fns, fns.len() as int), k) is Some
}

/// What following all generic calls makes.
pub open spec fn expanded(fns: Seq<FnV>) -> Work {
    let k = choose|k: nat| expand(fns, work_of(fns, fns.len() as int), k) is Some;
    expand(fns, work_of(fns, fns.len() as int), k)->0
}

/// The struct instances for the first `n` uses, and their names.
pub open spec fn structs_made(templates: Seq<StructV>, uses: Seq<InstanceV>, n: int) -> (
    Seq<StructV>,
    Set<Seq<char>>,
)
    decreases n,
{
    if n <= 0 {
        (Seq::empty(), Set::empty())
    } else {
        let (made, names) = structs_made(templates, uses, n - 1);
        match position(struct_names(templates), uses[n - 1].0, 0) {
            None => (made, names),
            Some(i) => {
                let inst = struct_instance(templates[i], uses[n - 1].1);
                if templates[i].generic_params.len() == 0 || names.contains(inst.name) {
                    (made, names)
                } else {
                    (made.push(inst), names.insert(inst.name))
                }
            },
        }
    }
}

/// The enum instances for the first `n` uses, and their names.
pub open spec fn enums_made(templates: Seq<EnumV>, uses: Seq<InstanceV>, n: int) -> (
    Seq<EnumV>,
    Set<Seq<char>>,
)
    decreases n,
{
    if n <= 0 {
        (Seq::empty(), Set::empty())
    } else {
        let (made, names) = enums_made(templates, uses, n - 1);
        match position(enum_names(templates), uses[n - 1].0, 0) {
            None => (made, names),
            Some(i) => {
                let inst = enum_instance(templates[i], uses[n - 1].1);
                if templates[i].generic_params.len() == 0 || names.contains(inst.name) {
                    (made, names)
                } else {
                    (made.push(inst), names.insert(inst.name))
                }
            },
        }
    }
}

/// The functions of the first `n` that are not generic.
pub open spec fn plain_fns(fns: Seq<FnV>, n: int) -> Seq<FnV>
    decreases n,
{
    if n <= 0 {
        Seq::empty()
    } else if fns[n - 1].generic_params.len() == 0 {
        plain_fns(fns, n - 1).push(fns[n - 1])
    } else {
        plain_fns(fns, n - 1)
    }
}

/// The structs of the first `n` that are not generic.
pub open spec fn plain_structs(structs: Seq<StructV>, n: int) -> Seq<StructV>
    decreases n,
{
    if n <= 0 {
        Seq::empty()
    } else if structs[n - 1].generic_params.len() == 0 {
        plain_structs(structs, n - 1).push(structs[n - 1])
    } else {
        plain_structs(structs, n - 1)
    }
}

/// The enums of the first `n` that are not generic.
pub open spec fn plain_enums(enums: Seq<EnumV>, n: int) -> Seq<EnumV>
    decreases n,
{
    if n <= 0 {
        Seq::empty()
    } else if enums[n - 1].generic_params.len() == 0 {
        plain_enums(enums, n - 1).push(enums[n - 1])
    } else {
        plain_enums(enums, n - 1)
    }
}

/// The function instances, then the functions that were not generic.
pub open spec fn fns_left(p: ProgramV) -> Seq<FnV> {
    expanded(p.fns).fns + plain_fns(p.fns, p.fns.len() as int)
}

/// The struct instances, then the structs that were not generic.
pub open spec fn structs_left(p: ProgramV) -> Seq<StructV> {
    let uses = expanded(p.fns).structs;
    structs_made(p.structs, uses, uses.len() as int).0 + plain_structs(
        p.structs,
        p.structs.len() as int,
    )
}

/// The enum instances, then the enums that were not generic.
pub open spec fn enums_left(p: ProgramV) -> Seq<EnumV> {
    let uses = expanded(p.fns).enums;
    enums_made(p.enums, uses, uses.len() as int).0 + plain_enums(p.enums, p.enums.len() as int)
}

/// A struct with its types made concrete.
pub open spec fn struct_concrete(
    s: StructV,
    structs: Set<Seq<char>>,
    enums: Set<Seq<char>>,
) -> StructV {
    StructV { fields: named_concrete(s.fields, structs, enums), ..s }
}

/// An enum with its types made concrete.
pub open spec fn enum_concrete(
    e: EnumV,
    structs: Set<Seq<char>>,
    enums: Set<Seq<char>>,
) -> EnumV {
    EnumV {
        variants: Seq::new(
            e.variants.len(),
            |i: int|
                (
                    e.variants[i].0,
                    match e.variants[i].1 {
                        Some(t) => Some(concrete(t, structs, enums)),
                        None => None,
                    },
                ),
        ),
        ..e
    }
}

/// The program without generics: the instances and what was not generic, every
/// type concrete.
pub open spec fn monomorphized(p: ProgramV) -> ProgramV {
    let sn = struct_names(structs_left(p)).to_set();
    let en = enum_names(enums_left(p)).to_set();
    ProgramV {
        structs: structs_left(p).map_values(|s: StructV| struct_concrete(s, sn, en)),
        enums: enums_left(p).map_values(|e: EnumV| enum_concrete(e, sn, en)),
        fns: fns_left(p).map_values(|f: FnV| fn_concrete(f, sn, en)),
        intrinsics_used: p.intrinsics_used,
    }
}

/// More rounds than needed make nothing more.
pub proof fn lemma_expand_stable(templates: Seq<FnV>, w: Work, j: nat, k: nat)
    requires
        expand(templates, w, j) is Some,
        expand(templates, w, k) is Some,
    ensures
        expand(templates, w, j) == expand(templates, w, k),
    decreases j,
{
    if w.calls.len() > 0 {
        let next = follow_all(
            templates,
            Work { calls: Seq::empty(), ..w },
            w.calls,
            w.calls.len() as int,
        );
        lemma_expand_stable(templates, next, (j - 1) as nat, (k - 1) as nat);
    }
}

/// The first function of the given name.
fn find_fn(fns: &Vec<MirFn>, name: &String) -> (r: Option<usize>)
    ensures
        match r {
            Some(i) => i < fns.len() && position(fn_names(fns.deep_view()), name@, 0) == Some(
                i as int,
            ),
            None => position(fn_names(fns.deep_view()), name@, 0) is None,
        },
{
    let ghost names = fn_names(fns.deep_view());
    let mut i: usize = 0;
    while i < fns.len()
        invariant
            i <= fns.len(),
            names == fn_names(fns.deep_view()),
            position(names, name@, 0) == position(names, name@, i as int),
        decreases fns.len() - i,
    {
        assert(names[i as int] == fns@[i as int].name@);
        if fns[i].name == *name {
            return Some(i);
        }
        i = i + 1;
    }
    None
}

/// The first struct of the given name.
fn find_struct(structs: &Vec<MirStruct>, name: &String) -> (r: Option<usize>)
    ensures
        match r {
            Some(i) => i < structs.len() && position(
                struct_names(structs.deep_view()),
                name@,
                0,
            ) == Some(i as int),
            None => position(struct_names(structs.deep_view()), name@, 0) is None,
        },
{
    let ghost names = struct_names(structs.deep_view());
    let mut i: usize = 0;
    while i < structs.len()
        invariant
            i <= structs.len(),
            names == struct_names(structs.deep_view()),
            position(names, name@, 0) == position(names, name@, i as int),
        decreases structs.len() - i,
    {
        assert(names[i as int] == structs@[i as int].name@);
        if structs[i].name == *name {
            return Some(i);
        }
        i = i + 1;
    }
    None
}

/// The first enum of the given name.
fn find_enum(enums: &Vec<MirEnum>, name: &String) -> (r: Option<usize>)
    ensures
        match r {
            Some(i) => i < enums.len() && position(enum_names(enums.deep_view()), name@, 0) == Some(
                i as int,
            ),
            None => position(enum_names(enums.deep_view()), name@, 0) is None,
        },
{
    let ghost names = enum_names(enums.deep_view());
    let mut i: usize = 0;
    while i < enums.len()
        invariant
            i <= enums.len(),
            names == enum_names(enums.deep_view()),
            position(names, name@, 0) == position(names, name@, i as int),
        decreases enums.len() - i,
    {
        assert(names[i as int] == enums@[i as int].name@);
        if enums[i].name == *name {
            return Some(i);
        }
        i = i + 1;
    }
    None
}

/// The expansion of generic calls under way.
struct Expansion {
    fns: Vec<MirFn>,
    made: KeySet<String>,
    structs: Vec<Instance>,
    enums: Vec<Instance>,
    calls: Vec<Instance>,
}

impl DeepView for Expansion {
    type V = Work;

    closed spec fn deep_view(&self) -> Work {
        Work {
            fns: self.fns.deep_view(),
            made: self.made.deep_view(),
            structs: self.structs.deep_view(),
            enums: self.enums.deep_view(),
            calls: self.calls.deep_view(),
        }
    }
}

/// Follows one call.
fn follow_call(templates: &Vec<MirFn>, e: &mut Expansion, site: &Instance)
    ensures
        final(e).deep_view() == follow(templates.deep_view(), old(e).deep_view(), site.deep_view()),
{
    let ghost w0 = e.deep_view();
    if let Some(i) = find_fn(templates, &site.0) {
        let base = &templates[i];
        assert(templates.deep_view()[i as int] == base.deep_view());
        assert(base.generic_params.deep_view().len() == base.generic_params.len());
        if base.generic_params.len() == 0 {
            return;
        }
        let inst = instantiate_fn(base, &site.1);
        if !e.made.contains(&inst.name) {
            collect_calls(&inst.body, &mut e.calls);
            collect_generic_instances(&inst.body, &mut e.structs, &mut e.enums);
            e.made.insert(inst.name.clone());
            let ghost iv = inst.deep_view();
            e.fns.push(inst);
            assert(e.fns.deep_view() =~= w0.fns.push(iv));
        }
    }
}

/// Follows every generic call.
fn expand_calls(fns: &Vec<MirFn>) -> (r: Expansion)
    requires
        expands(fns.deep_view()),
    ensures
        r.deep_view() == expanded(fns.deep_view()),
{
    let ghost fv = fns.deep_view();
    let ghost w0 = work_of(fv, fv.len() as int);
    let mut e = Expansion {
        fns: Vec::new(),
        made: KeySet::new(),
        structs: Vec::new(),
        enums: Vec::new(),
        calls: Vec::new(),
    };
    let mut i: usize = 0;
    proof {
        let w = e.deep_view();
        assert(w.fns =~= Seq::empty() && w.structs =~= Seq::empty() && w.enums =~= Seq::empty()
            && w.calls =~= Seq::empty());
    }
    while i < fns.len()
        invariant
            i <= fns.len(),
            fv == fns.deep_view(),
            e.deep_view() == work_of(fv, i as int),
        decreases fns.len() - i,
    {
        assert(fv[i as int] == fns@[i as int].deep_view());
        collect_calls(&fns[i].body, &mut e.calls);
        collect_generic_instances(&fns[i].body, &mut e.structs, &mut e.enums);
        i = i + 1;
    }
    let ghost k0 = choose|k: nat| expand(fv, w0, k) is Some;
    let ghost mut left: nat = k0;
    while e.calls.len() > 0
        invariant
            fv == fns.deep_view(),
            expand(fv, w0, k0) is Some,
            expand(fv, e.deep_view(), left) == expand(fv, w0, k0),
        decreases left,
    {
        let ghost before = e.deep_view();
        assert(before.calls.len() == e.calls.len());
        let mut sites: Vec<Instance> = Vec::new();
        std::mem::swap(&mut sites, &mut e.calls);
        let ghost sv = sites.deep_view();
        let ghost start = Work { calls: Seq::empty(), ..before };
        assert(e.deep_view().calls =~= Seq::empty());
        assert(e.deep_view() == start);
        let mut k: usize = 0;
        while k < sites.len()
            invariant
                k <= sites.len(),
                fv == fns.deep_view(),
                sv == sites.deep_view(),
                e.deep_view() == follow_all(fv, start, sv, k as int),
            decreases sites.len() - k,
        {
            assert(sv[k as int] == sites@[k as int].deep_view());
            follow_call(fns, &mut e, &sites[k]);
            k = k + 1;
        }
        proof {
            left = (left - 1) as nat;
        }
    }
    proof {
        assert(e.deep_view().calls.len() == 0);
    }
    e
}

/// The struct instances that are used.
fn make_structs(templates: &Vec<MirStruct>, uses: &Vec<Instance>) -> (r: Vec<MirStruct>)
    ensures
        r.deep_view() == structs_made(
            templates.deep_view(),
            uses.deep_view(),
            uses.deep_view().len() as int,
        ).0,
{
    let ghost tv = templates.deep_view();
    let ghost uv = uses.deep_view();
    let mut made: Vec<MirStruct> = Vec::new();
    let mut names: KeySet<String> = KeySet::new();
    let mut i: usize = 0;
    assert(made.deep_view() =~= Seq::empty());
    while i < uses.len()
        invariant
            i <= uses.len(),
            tv == templates.deep_view(),
            uv == uses.deep_view(),
            made.deep_view() == structs_made(tv, uv, i as int).0,
            names.deep_view() == structs_made(tv, uv, i as int).1,
        decreases uses.len() - i,
    {
        assert(uv[i as int] == uses@[i as int].deep_view());
        if let Some(k) = find_struct(templates, &uses[i].0) {
            let base = &templates[k];
            assert(tv[k as int] == base.deep_view());
            assert(base.generic_params.deep_view().len() == base.generic_params.len());
            if base.generic_params.len() > 0 {
                let inst = instantiate_struct(base, &uses[i].1);
                if !names.contains(&inst.name) {
                    names.insert(inst.name.clone());
                    let ghost m0 = made.deep_view();
                    let ghost iv = inst.deep_view();
                    made.push(inst);
                    assert(made.deep_view() =~= m0.push(iv));
                }
            }
        }
        i = i + 1;
    }
    made
}

/// The enum instances that are used.
fn make_enums(templates: &Vec<MirEnum>, uses: &Vec<Instance>) -> (r: Vec<MirEnum>)
    ensures
        r.deep_view() == enums_made(
            templates.deep_view(),
            uses.deep_view(),
            uses.deep_view().len() as int,
        ).0,
{
    let ghost tv = templates.deep_view();
    let ghost uv = uses.deep_view();
    let mut made: Vec<MirEnum> = Vec::new();
    let mut names: KeySet<String> = KeySet::new();
    let mut i: usize = 0;
    assert(made.deep_view() =~= Seq::empty());
    while i < uses.len()
        invariant
            i <= uses.len(),
            tv == templates.deep_view(),
            uv == uses.deep_view(),
            made.deep_view() == enums_made(tv, uv, i as int).0,
            names.deep_view() == enums_made(tv, uv, i as int).1,
        decreases uses.len() - i,
    {
        assert(uv[i as int] == uses@[i as int].deep_view());
        if let Some(k) = find_enum(templates, &uses[i].0) {
            let base = &templates[k];
            assert(tv[k as int] == base.deep_view());
            assert(base.generic_params.deep_view().len() == base.generic_params.len());
            if base.generic_params.len() > 0 {
                let inst = instantiate_enum(base, &uses[i].1);
                if !names.contains(&inst.name) {
                    names.insert(inst.name.clone());
                    let ghost m0 = made.deep_view();
                    let ghost iv = inst.deep_view();
                    made.push(inst);
                    assert(made.deep_view() =~= m0.push(iv));
                }
            }
        }
        i = i + 1;
    }
    made
}

/// An enum with its types made concrete.
fn concrete_enum(e: &MirEnum, sn: &KeySet<String>, en: &KeySet<String>) -> (r: MirEnum)
    ensures
        r.deep_view() == enum_concrete(e.deep_view(), sn.deep_view(), en.deep_view()),
{
    let ghost want = enum_concrete(e.deep_view(), sn.deep_view(), en.deep_view());
    let mut variants: Vec<(String, Option<Type>)> = Vec::new();
    let mut i: usize = 0;
    while i < e.variants.len()
        invariant
            i <= e.variants.len(),
            want == enum_concrete(e.deep_view(), sn.deep_view(), en.deep_view()),
            variants.len() == i,
            forall|j: int|
                0 <= j < i ==> (#[trigger] variants@[j]).deep_view() == want.variants[j],
        decreases e.variants.len() - i,
    {
        assert(e.deep_view().variants[i as int] == e.variants@[i as int].deep_view());
        let payload = match &e.variants[i].1 {
            Some(t) => Some(replace_generic_with_concrete(t, sn, en)),
            None => None,
        };
        variants.push((e.variants[i].0.clone(), payload));
        i = i + 1;
    }
    let r = MirEnum {
        name: e.name.clone(),
        generic_params: clone_generic_params(&e.generic_params),
        variants,
    };
    assert(r.deep_view().variants =~= want.variants);
    r
}

/// A struct with its types made concrete.
fn concrete_struct(s: &MirStruct, sn: &KeySet<String>, en: &KeySet<String>) -> (r: MirStruct)
    ensures
        r.deep_view() == struct_concrete(s.deep_view(), sn.deep_view(), en.deep_view()),
{
    MirStruct {
        name: s.name.clone(),
        generic_params: clone_generic_params(&s.generic_params),
        fields: concrete_named(&s.fields, sn, en),
    }
}


proof fn lemma_push_name(names: Seq<Seq<char>>, name: Seq<char>)
    ensures
        names.push(name).to_set() == names.to_set().insert(name),
{
    let a = names.push(name).to_set();
    let b = names.to_set().insert(name);
    assert forall|x: Seq<char>| a.contains(x) == b.contains(x) by {
        if names.contains(x) {
            let i = choose|i: int| 0 <= i < names.len() && names[i] == x;
            assert(names.push(name)[i] == x);
        }
        if x == name {
            assert(names.push(name)[names.len() as int] == x);
        }
    }
    assert(a =~= b);
}

/// The names of the struct instances and of the structs that are not generic.
fn names_of_structs(made: &Vec<MirStruct>, templates: &Vec<MirStruct>) -> (r: KeySet<String>)
    ensures
        r.deep_view() == struct_names(
            made.deep_view() + plain_structs(
                templates.deep_view(),
                templates.deep_view().len() as int,
            ),
        ).to_set(),
{
    let ghost mv = made.deep_view();
    let ghost tv = templates.deep_view();
    let mut names: KeySet<String> = KeySet::new();
    let mut i: usize = 0;
    assert(struct_names(mv.take(0)).to_set() =~= Set::empty());
    while i < made.len()
        invariant
            i <= made.len(),
            mv == made.deep_view(),
            names.deep_view() == struct_names(mv.take(i as int)).to_set(),
        decreases made.len() - i,
    {
        proof {
            assert(struct_names(mv.take(i + 1)) =~= struct_names(mv.take(i as int)).push(
                made@[i as int].name@,
            ));
            lemma_push_name(struct_names(mv.take(i as int)), made@[i as int].name@);
        }
        names.insert(made[i].name.clone());
        i = i + 1;
    }
    let mut k: usize = 0;
    assert(mv.take(i as int) =~= mv + plain_structs(tv, 0));
    while k < templates.len()
        invariant
            k <= templates.len(),
            tv == templates.deep_view(),
            names.deep_view() == struct_names(mv + plain_structs(tv, k as int)).to_set(),
        decreases templates.len() - k,
    {
        assert(tv[k as int] == templates@[k as int].deep_view());
        assert(tv[k as int].generic_params.len() == templates@[k as int].generic_params.len());
        if templates[k].generic_params.len() == 0 {
            proof {
                let before = mv + plain_structs(tv, k as int);
                assert(struct_names(mv + plain_structs(tv, k + 1)) =~= struct_names(before).push(
                    tv[k as int].name,
                ));
                lemma_push_name(struct_names(before), tv[k as int].name);
            }
            names.insert(templates[k].name.clone());
        }
        k = k + 1;
    }
    names
}

/// The names of the enum instances and of the enums that are not generic.
fn names_of_enums(made: &Vec<MirEnum>, templates: &Vec<MirEnum>) -> (r: KeySet<String>)
    ensures
        r.deep_view() == enum_names(
            made.deep_view() + plain_enums(
                templates.deep_view(),
                templates.deep_view().len() as int,
            ),
        ).to_set(),
{
    let ghost mv = made.deep_view();
    let ghost tv = templates.deep_view();
    let mut names: KeySet<String> = KeySet::new();
    let mut i: usize = 0;
    assert(enum_names(mv.take(0)).to_set() =~= Set::empty());
    while i < made.len()
        invariant
            i <= made.len(),
            mv == made.deep_view(),
            names.deep_view() == enum_names(mv.take(i as int)).to_set(),
        decreases made.len() - i,
    {
        proof {
            assert(enum_names(mv.take(i + 1)) =~= enum_names(mv.take(i as int)).push(
                made@[i as int].name@,
            ));
            lemma_push_name(enum_names(mv.take(i as int)), made@[i as int].name@);
        }
        names.insert(made[i].name.clone());
        i = i + 1;
    }
    let mut k: usize = 0;
    assert(mv.take(i as int) =~= mv + plain_enums(tv, 0));
    while k < templates.len()
        invariant
            k <= templates.len(),
            tv == templates.deep_view(),
            names.deep_view() == enum_names(mv + plain_enums(tv, k as int)).to_set(),
        decreases templates.len() - k,
    {
        assert(tv[k as int] == templates@[k as int].deep_view());
        assert(tv[k as int].generic_params.len() == templates@[k as int].generic_params.len());
        if templates[k].generic_params.len() == 0 {
            proof {
                let before = mv + plain_enums(tv, k as int);
                assert(enum_names(mv + plain_enums(tv, k + 1)) =~= enum_names(before).push(
                    tv[k as int].name,
                ));
                lemma_push_name(enum_names(before), tv[k as int].name);
            }
            names.insert(templates[k].name.clone());
        }
        k = k + 1;
    }
    names
}

/// The struct instances, then the structs that are not generic, types concrete.
fn finish_structs(
    made: &Vec<MirStruct>,
    templates: &Vec<MirStruct>,
    sn: &KeySet<String>,
    en: &KeySet<String>,
) -> (r: Vec<MirStruct>)
    ensures
        r.deep_view() == (made.deep_view() + plain_structs(
            templates.deep_view(),
            templates.deep_view().len() as int,
        )).map_values(|s: StructV| struct_concrete(s, sn.deep_view(), en.deep_view())),
{
    let ghost mv = made.deep_view();
    let ghost tv = templates.deep_view();
    let ghost f = |s: StructV| struct_concrete(s, sn.deep_view(), en.deep_view());
    let mut r: Vec<MirStruct> = Vec::new();
    let mut i: usize = 0;
    assert(r.deep_view() =~= mv.take(0).map_values(f));
    while i < made.len()
        invariant
            i <= made.len(),
            mv == made.deep_view(),
            f == (|s: StructV| struct_concrete(s, sn.deep_view(), en.deep_view())),
            r.deep_view() == mv.take(i as int).map_values(f),
        decreases made.len() - i,
    {
        let ghost r0 = r.deep_view();
        r.push(concrete_struct(&made[i], sn, en));
        assert(r.deep_view() =~= r0.push(f(mv[i as int])));
        assert(r.deep_view() =~= mv.take(i + 1).map_values(f));
        i = i + 1;
    }
    let mut k: usize = 0;
    assert(mv.take(i as int) =~= mv + plain_structs(tv, 0));
    while k < templates.len()
        invariant
            k <= templates.len(),
            tv == templates.deep_view(),
            f == (|s: StructV| struct_concrete(s, sn.deep_view(), en.deep_view())),
            r.deep_view() == (mv + plain_structs(tv, k as int)).map_values(f),
        decreases templates.len() - k,
    {
        assert(tv[k as int] == templates@[k as int].deep_view());
        assert(tv[k as int].generic_params.len() == templates@[k as int].generic_params.len());
        if templates[k].generic_params.len() == 0 {
            let ghost r0 = r.deep_view();
            r.push(concrete_struct(&templates[k], sn, en));
            assert(r.deep_view() =~= r0.push(f(tv[k as int])));
            assert(r.deep_view() =~= (mv + plain_structs(tv, k + 1)).map_values(f));
        }
        k = k + 1;
    }
    r
}

/// The enum instances, then the enums that are not generic, types concrete.
fn finish_enums(
    made: &Vec<MirEnum>,
    templates: &Vec<MirEnum>,
    sn: &KeySet<String>,
    en: &KeySet<String>,
) -> (r: Vec<MirEnum>)
    ensures
        r.deep_view() == (made.deep_view() + plain_enums(
            templates.deep_view(),
            templates.deep_view().len() as int,
        )).map_values(|e: EnumV| enum_concrete(e, sn.deep_view(), en.deep_view())),
{
    let ghost mv = made.deep_view();
    let ghost tv = templates.deep_view();
    let ghost f = |e: EnumV| enum_concrete(e, sn.deep_view(), en.deep_view());
    let mut r: Vec<MirEnum> = Vec::new();
    let mut i: usize = 0;
    assert(r.deep_view() =~= mv.take(0).map_values(f));
    while i < made.len()
        invariant
            i <= made.len(),
            mv == made.deep_view(),
            f == (|e: EnumV| enum_concrete(e, sn.deep_view(), en.deep_view())),
            r.deep_view() == mv.take(i as int).map_values(f),
        decreases made.len() - i,
    {
        let ghost r0 = r.deep_view();
        r.push(concrete_enum(&made[i], sn, en));
        assert(r.deep_view() =~= r0.push(f(mv[i as int])));
        assert(r.deep_view() =~= mv.take(i + 1).map_values(f));
        i = i + 1;
    }
    let mut k: usize = 0;
    assert(mv.take(i as int) =~= mv + plain_enums(tv, 0));
    while k < templates.len()
        invariant
            k <= templates.len(),
            tv == templates.deep_view(),
            f == (|e: EnumV| enum_concrete(e, sn.deep_view(), en.deep_view())),
            r.deep_view() == (mv + plain_enums(tv, k as int)).map_values(f),
        decreases templates.len() - k,
    {
        assert(tv[k as int] == templates@[k as int].deep_view());
        assert(tv[k as int].generic_params.len() == templates@[k as int].generic_params.len());
        if templates[k].generic_params.len() == 0 {
            let ghost r0 = r.deep_view();
            r.push(concrete_enum(&templates[k], sn, en));
            assert(r.deep_view() =~= r0.push(f(tv[k as int])));
            assert(r.deep_view() =~= (mv + plain_enums(tv, k + 1)).map_values(f));
        }
        k = k + 1;
    }
    r
}

/// The function instances, then the functions that are not generic, types
/// concrete.
fn finish_fns(
    made: &Vec<MirFn>,
    templates: &Vec<MirFn>,
    sn: &KeySet<String>,
    en: &KeySet<String>,
) -> (r: Vec<MirFn>)
    ensures
        r.deep_view() == (made.deep_view() + plain_fns(
            templates.deep_view(),
            templates.deep_view().len() as int,
        )).map_values(|f: FnV| fn_concrete(f, sn.deep_view(), en.deep_view())),
{
    let ghost mv = made.deep_view();
    let ghost tv = templates.deep_view();
    let ghost f = |x: FnV| fn_concrete(x, sn.deep_view(), en.deep_view());
    let mut r: Vec<MirFn> = Vec::new();
    let mut i: usize = 0;
    assert(r.deep_view() =~= mv.take(0).map_values(f));
    while i < made.len()
        invariant
            i <= made.len(),
            mv == made.deep_view(),
            f == (|x: FnV| fn_concrete(x, sn.deep_view(), en.deep_view())),
            r.deep_view() == mv.take(i as int).map_values(f),
        decreases made.len() - i,
    {
        let ghost r0 = r.deep_view();
        r.push(concrete_fn(&made[i], sn, en));
        assert(r.deep_view() =~= r0.push(f(mv[i as int])));
        assert(r.deep_view() =~= mv.take(i + 1).map_values(f));
        i = i + 1;
    }
    let mut k: usize = 0;
    assert(mv.take(i as int) =~= mv + plain_fns(tv, 0));
    while k < templates.len()
        invariant
            k <= templates.len(),
            tv == templates.deep_view(),
            f == (|x: FnV| fn_concrete(x, sn.deep_view(), en.deep_view())),
            r.deep_view() == (mv + plain_fns(tv, k as int)).map_values(f),
        decreases templates.len() - k,
    {
        assert(tv[k as int] == templates@[k as int].deep_view());
        assert(tv[k as int].generic_params.len() == templates@[k as int].generic_params.len());
        if templates[k].generic_params.len() == 0 {
            let ghost r0 = r.deep_view();
            r.push(concrete_fn(&templates[k], sn, en));
            assert(r.deep_view() =~= r0.push(f(tv[k as int])));
            assert(r.deep_view() =~= (mv + plain_fns(tv, k + 1)).map_values(f));
        }
        k = k + 1;
    }
    r
}

impl Monomorphic {
    /// The program without generics.
    pub fn run(program: MirProgram) -> (r: MirProgram)
        requires
            expands(program.deep_view().fns),
        ensures
            r.deep_view() == monomorphized(program.deep_view()),
    {
        let ghost pv = program.deep_view();
        let work = expand_calls(&program.fns);
        let made_structs = make_structs(&program.structs, &work.structs);
        let made_enums = make_enums(&program.enums, &work.enums);
        let sn = names_of_structs(&made_structs, &program.structs);
        let en = names_of_enums(&made_enums, &program.enums);
        let fns = finish_fns(&work.fns, &program.fns, &sn, &en);
        let structs = finish_structs(&made_structs, &program.structs, &sn, &en);
        let enums = finish_enums(&made_enums, &program.enums, &sn, &en);
        MirProgram { structs, enums, fns, intrinsics_used: program.intrinsics_used }
    }
}

} // verus!
