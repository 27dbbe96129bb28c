//! Generic types as the instances that were made for them, and enum names as
//! the types of the variables say.

use vstd::prelude::*;

use crate::ast::Type;
use crate::ast::TypeV;
use crate::ast::group_type_view;
use crate::init::{find_local, root_of};
use crate::init::{lookup_local, place_base_id};
use crate::mangle::mangled;
use crate::mangle::mangled_name;
use crate::mir::{BlockV, BodyV, FnV, LocalV, OperandV, PlaceV, RvalueV, StmtV};
use crate::mir::{MirBlock, MirBody, MirFn, MirLocal, MirOperand, MirPlace, MirRvalue, MirStmt};
use crate::table::KeySet;

verus! {

/// A type with every generic type that an instance stands for replaced by it;
/// the arguments of an instance are not looked at again.
pub open spec fn concrete(t: TypeV, structs: Set<Seq<char>>, enums: Set<Seq<char>>) -> TypeV
    decreases t,
{
    match t {
        TypeV::Generic(n, args) => {
            let name = mangled(n, args);
            if structs.contains(name) {
                TypeV::Struct(name)
            } else if enums.contains(name) {
                TypeV::Enum(name)
            } else {
                TypeV::Generic(n, concrete_all(args, structs, enums))
            }
        },
        TypeV::Tuple(es) => TypeV::Tuple(concrete_all(es, structs, enums)),
        TypeV::Array(e, n) => TypeV::Array(Box::new(concrete(*e, structs, enums)), n),
        TypeV::Ref { mutable, inner } => TypeV::Ref {
            mutable,
            inner: Box::new(concrete(*inner, structs, enums)),
        },
        TypeV::Privacy(e, tag) => TypeV::Privacy(Box::new(concrete(*e, structs, enums)), tag),
        TypeV::Slice(e) => TypeV::Slice(Box::new(concrete(*e, structs, enums))),
        _ => t,
    }
}

/// Each type made concrete.
pub open spec fn concrete_all(
    ts: Seq<TypeV>,
    structs: Set<Seq<char>>,
    enums: Set<Seq<char>>,
) -> Seq<TypeV>
    decreases ts,
{
    Seq::new(
        ts.len(),
        |i: int|
            if 0 <= i < ts.len() {
                concrete(ts[i], structs, enums)
            } else {
                TypeV::Unit
            },
    )
}

/// A right-hand side with its types made concrete; building an instance names
/// the instance and drops the type arguments.
pub open spec fn rvalue_concrete(
    rv: RvalueV,
    structs: Set<Seq<char>>,
    enums: Set<Seq<char>>,
) -> RvalueV {
    match rv {
        RvalueV::Cast(o, ty) => RvalueV::Cast(o, concrete(ty, structs, enums)),
        RvalueV::Call { func, args, is_intrinsic, intrinsic_name, generic_args } => RvalueV::Call {
            func,
            args,
            is_intrinsic,
            intrinsic_name,
            generic_args: concrete_all(generic_args, structs, enums),
        },
        RvalueV::MethodCall { receiver, method, args, generic_args } => RvalueV::MethodCall {
            receiver,
            method,
            args,
            generic_args: concrete_all(generic_args, structs, enums),
        },
        RvalueV::StructInit { struct_name, generic_args, fields } => if generic_args.len() > 0
            && structs.contains(mangled(struct_name, generic_args)) {
            RvalueV::StructInit {
                struct_name: mangled(struct_name, generic_args),
                generic_args: Seq::empty(),
                fields,
            }
        } else {
            rv
        },
        RvalueV::EnumVariantConstruction { enum_name, generic_args, variant_name, args } => {
            if generic_args.len() > 0 && enums.contains(mangled(enum_name, generic_args)) {
                RvalueV::EnumVariantConstruction {
                    enum_name: mangled(enum_name, generic_args),
                    generic_args: Seq::empty(),
                    variant_name,
                    args,
                }
            } else {
                rv
            }
        },
        _ => rv,
    }
}

/// A statement with its types made concrete.
pub open spec fn stmt_concrete(
    s: StmtV,
    structs: Set<Seq<char>>,
    enums: Set<Seq<char>>,
) -> StmtV {
    match s {
        StmtV::Assign { dest, value } => StmtV::Assign {
            dest,
            value: rvalue_concrete(value, structs, enums),
        },
        StmtV::ExprStmt(value) => StmtV::ExprStmt(rvalue_concrete(value, structs, enums)),
        _ => s,
    }
}

/// Named types made concrete.
pub open spec fn named_concrete(
    fs: Seq<(Seq<char>, TypeV)>,
    structs: Set<Seq<char>>,
    enums: Set<Seq<char>>,
) -> Seq<(Seq<char>, TypeV)> {
    Seq::new(fs.len(), |i: int| (fs[i].0, concrete(fs[i].1, structs, enums)))
}

/// The name of the enum that a variable is of, where its type is one.
pub open spec fn enum_of(id: usize, locals: Seq<LocalV>, name: Seq<char>) -> Seq<char> {
    match find_local(locals, id) {
        Some(l) => match l.ty {
            TypeV::Enum(n) => n,
            _ => name,
        },
        None => name,
    }
}

/// A place with the enum names that it mentions as the variables' types say.
pub open spec fn place_renamed(p: PlaceV, locals: Seq<LocalV>) -> PlaceV
    decreases p,
{
    match p {
        PlaceV::Ssa(_) => p,
        PlaceV::Field { base, field } => PlaceV::Field {
            base: Box::new(place_renamed(*base, locals)),
            field,
        },
        PlaceV::Index { base, index } => PlaceV::Index {
            base: Box::new(place_renamed(*base, locals)),
            index: Box::new(operand_renamed(*index, locals)),
        },
        PlaceV::Deref(base) => PlaceV::Deref(Box::new(place_renamed(*base, locals))),
        PlaceV::EnumPayload { base, enum_name, variant_name } => PlaceV::EnumPayload {
            base,
            enum_name: enum_of(root_of(*base), locals, enum_name),
            variant_name,
        },
    }
}

/// An operand with the enum names that it mentions as the variables' types say.
pub open spec fn operand_renamed(o: OperandV, locals: Seq<LocalV>) -> OperandV
    decreases o,
{
    match o {
        OperandV::Copy(p) => OperandV::Copy(place_renamed(p, locals)),
        OperandV::Move(p) => OperandV::Move(place_renamed(p, locals)),
        _ => o,
    }
}

/// Each operand renamed.
pub open spec fn operands_renamed(ops: Seq<OperandV>, locals: Seq<LocalV>) -> Seq<OperandV> {
    Seq::new(ops.len(), |i: int| operand_renamed(ops[i], locals))
}

/// A right-hand side with the enum names that it mentions as the variables'
/// types say.
pub open spec fn rvalue_renamed(rv: RvalueV, locals: Seq<LocalV>) -> RvalueV {
    match rv {
        RvalueV::Use(o) => RvalueV::Use(operand_renamed(o, locals)),
        RvalueV::BinaryOp(op, l, r) => RvalueV::BinaryOp(
            op,
            operand_renamed(l, locals),
            operand_renamed(r, locals),
        ),
        RvalueV::UnaryOp(op, o) => RvalueV::UnaryOp(op, operand_renamed(o, locals)),
        RvalueV::Cast(o, t) => RvalueV::Cast(operand_renamed(o, locals), t),
        RvalueV::Call { func, args, is_intrinsic, intrinsic_name, generic_args } => RvalueV::Call {
            func,
            args: operands_renamed(args, locals),
            is_intrinsic,
            intrinsic_name,
            generic_args,
        },
        RvalueV::MethodCall { receiver, method, args, generic_args } => RvalueV::MethodCall {
            receiver: operand_renamed(receiver, locals),
            method,
            args: operands_renamed(args, locals),
            generic_args,
        },
        RvalueV::StructInit { struct_name, generic_args, fields } => RvalueV::StructInit {
            struct_name,
            generic_args,
            fields: Seq::new(
                fields.len(),
                |i: int| (fields[i].0, operand_renamed(fields[i].1, locals)),
            ),
        },
        RvalueV::EnumVariantConstruction { enum_name, generic_args, variant_name, args } => {
            RvalueV::EnumVariantConstruction {
                enum_name,
                generic_args,
                variant_name,
                args: operands_renamed(args, locals),
            }
        },
        RvalueV::ArrayLiteral(es) => RvalueV::ArrayLiteral(operands_renamed(es, locals)),
        RvalueV::Ref { mutable, place } => RvalueV::Ref {
            mutable,
            place: place_renamed(place, locals),
        },
        RvalueV::Discriminant { value, enum_name } => RvalueV::Discriminant {
            value,
            enum_name: match value {
                OperandV::Copy(p) => enum_of(root_of(p), locals, enum_name),
                OperandV::Move(p) => enum_of(root_of(p), locals, enum_name),
                _ => enum_name,
            },
        },
        RvalueV::Phi { values } => RvalueV::Phi {
            values: Seq::new(
                values.len(),
                |i: int| (values[i].0, operand_renamed(values[i].1, locals)),
            ),
        },
    }
}

/// A statement with the enum names that it mentions as the variables' types say.
pub open spec fn stmt_renamed(s: StmtV, locals: Seq<LocalV>) -> StmtV {
    match s {
        StmtV::Assign { dest, value } => StmtV::Assign {
            dest: place_renamed(dest, locals),
            value: rvalue_renamed(value, locals),
        },
        StmtV::ExprStmt(value) => StmtV::ExprStmt(rvalue_renamed(value, locals)),
        StmtV::Drop { place } => StmtV::Drop { place: place_renamed(place, locals) },
        StmtV::SetMetadata { place, key, data } => StmtV::SetMetadata {
            place: place_renamed(place, locals),
            key,
            data,
        },
        _ => s,
    }
}

/// The locals with their types made concrete.
pub open spec fn locals_concrete(
    locals: Seq<LocalV>,
    structs: Set<Seq<char>>,
    enums: Set<Seq<char>>,
) -> Seq<LocalV> {
    Seq::new(
        locals.len(),
        |i: int| LocalV { ty: concrete(locals[i].ty, structs, enums), ..locals[i] },
    )
}

/// A function with its types made concrete and its enum names brought in line
/// with the types of its variables.
pub open spec fn fn_concrete(f: FnV, structs: Set<Seq<char>>, enums: Set<Seq<char>>) -> FnV {
    let locals = locals_concrete(f.body.locals, structs, enums);
    FnV {
        params: named_concrete(f.params, structs, enums),
        return_type: match f.return_type {
            Some(t) => Some(concrete(t, structs, enums)),
            None => None,
        },
        body: BodyV {
            locals,
            blocks: Seq::new(
                f.body.blocks.len(),
                |i: int|
                    BlockV {
                        stmts: Seq::new(
                            f.body.blocks[i].stmts.len(),
                            |j: int|
                                stmt_renamed(
                                    stmt_concrete(f.body.blocks[i].stmts[j], structs, enums),
                                    locals,
                                ),
                        ),
                        ..f.body.blocks[i]
                    },
            ),
        },
        ..f
    }
}

/// A type with every generic type that an instance stands for replaced by it.
pub fn replace_generic_with_concrete(
    ty: &Type,
    struct_instances: &KeySet<String>,
    enum_instances: &KeySet<String>,
) -> (r: Type)
    ensures
        r.deep_view() == concrete(
            ty.deep_view(),
            struct_instances.deep_view(),
            enum_instances.deep_view(),
        ),
    decreases ty,
{
    broadcast use group_type_view;

    match ty {
        Type::Generic(name, args) => {
            let candidate = mangled_name(name.as_str(), args);
            if struct_instances.contains(&candidate) {
                Type::Struct(candidate)
            } else if enum_instances.contains(&candidate) {
                Type::Enum(candidate)
            } else {
                Type::Generic(
                    name.clone(),
                    concrete_types(args, struct_instances, enum_instances),
                )
            }
        },
        Type::Tuple(elems) => Type::Tuple(
            concrete_types(elems, struct_instances, enum_instances),
        ),
        Type::Array(e, n) => Type::Array(
            Box::new(replace_generic_with_concrete(e, struct_instances, enum_instances)),
            *n,
        ),
        Type::Ref { mutable, inner } => Type::Ref {
            mutable: *mutable,
            inner: Box::new(
                replace_generic_with_concrete(inner, struct_instances, enum_instances),
            ),
        },
        Type::Privacy(inner, tag) => Type::Privacy(
            Box::new(replace_generic_with_concrete(inner, struct_instances, enum_instances)),
            tag.clone(),
        ),
        Type::Slice(inner) => Type::Slice(
            Box::new(replace_generic_with_concrete(inner, struct_instances, enum_instances)),
        ),
        _ => ty.clone(),
    }
}

/// Each type made concrete.
fn concrete_types(
    tys: &Vec<Type>,
    struct_instances: &KeySet<String>,
    enum_instances: &KeySet<String>,
) -> (r: Vec<Type>)
    ensures
        r.deep_view() == concrete_all(
            tys.deep_view(),
            struct_instances.deep_view(),
            enum_instances.deep_view(),
        ),
    decreases tys,
{
    let mut r: Vec<Type> = Vec::new();
    let mut i: usize = 0;
    while i < tys.len()
        invariant
            i <= tys.len(),
            r.len() == i,
            forall|j: int|
                0 <= j < i ==> (#[trigger] r@[j]).deep_view() == concrete(
                    tys@[j].deep_view(),
                    struct_instances.deep_view(),
                    enum_instances.deep_view(),
                ),
        decreases tys.len() - i,
    {
        r.push(replace_generic_with_concrete(&tys[i], struct_instances, enum_instances));
        i = i + 1;
    }
    assert(r.deep_view() =~= concrete_all(
        tys.deep_view(),
        struct_instances.deep_view(),
        enum_instances.deep_view(),
    ));
    r
}

/// Named types made concrete.
pub fn concrete_named(
    fs: &Vec<(String, Type)>,
    struct_instances: &KeySet<String>,
    enum_instances: &KeySet<String>,
) -> (r: Vec<(String, Type)>)
    ensures
        r.deep_view() == named_concrete(
            fs.deep_view(),
            struct_instances.deep_view(),
            enum_instances.deep_view(),
        ),
{
    let mut r: Vec<(String, Type)> = Vec::new();
    let mut i: usize = 0;
    while i < fs.len()
        invariant
            i <= fs.len(),
            r.len() == i,
            forall|j: int|
                0 <= j < i ==> (#[trigger] r@[j]).deep_view() == (
                    fs@[j].0.deep_view(),
                    concrete(
                        fs@[j].1.deep_view(),
                        struct_instances.deep_view(),
                        enum_instances.deep_view(),
                    ),
                ),
        decreases fs.len() - i,
    {
        r.push(
            (
                fs[i].0.clone(),
                replace_generic_with_concrete(&fs[i].1, struct_instances, enum_instances),
            ),
        );
        i = i + 1;
    }
    assert(r.deep_view() =~= named_concrete(
        fs.deep_view(),
        struct_instances.deep_view(),
        enum_instances.deep_view(),
    ));
    r
}

/// A right-hand side with its types made concrete.
fn replace_type_in_rvalue(
    rv: &MirRvalue,
    struct_instances: &KeySet<String>,
    enum_instances: &KeySet<String>,
) -> (r: MirRvalue)
    ensures
        r.deep_view() == rvalue_concrete(
            rv.deep_view(),
            struct_instances.deep_view(),
            enum_instances.deep_view(),
        ),
{
    match rv {
        MirRvalue::Cast(op, ty) => MirRvalue::Cast(
            op.clone(),
            replace_generic_with_concrete(ty, struct_instances, enum_instances),
        ),
        MirRvalue::Call { func, args, is_intrinsic, intrinsic_name, generic_args } => {
            MirRvalue::Call {
                func: func.clone(),
                args: crate::mir::clone_operands(args),
                is_intrinsic: *is_intrinsic,
                intrinsic_name: *intrinsic_name,
                generic_args: concrete_types(generic_args, struct_instances, enum_instances),
            }
        },
        MirRvalue::MethodCall { receiver, method, args, generic_args } => MirRvalue::MethodCall {
            receiver: receiver.clone(),
            method: method.clone(),
            args: crate::mir::clone_operands(args),
            generic_args: concrete_types(generic_args, struct_instances, enum_instances),
        },
        MirRvalue::StructInit { struct_name, generic_args, fields } => {
            assert(generic_args.deep_view().len() == generic_args.len());
            if generic_args.len() > 0 {
                let name = mangled_name(struct_name.as_str(), generic_args);
                if struct_instances.contains(&name) {
                    let none: Vec<Type> = Vec::new();
                    assert(none.deep_view() =~= Seq::empty());
                    return MirRvalue::StructInit {
                        struct_name: name,
                        generic_args: none,
                        fields: crate::mir::clone_fields(fields),
                    };
                }
            }
            rv.clone()
        },
        MirRvalue::EnumVariantConstruction { enum_name, generic_args, variant_name, args } => {
            assert(generic_args.deep_view().len() == generic_args.len());
            if generic_args.len() > 0 {
                let name = mangled_name(enum_name.as_str(), generic_args);
                if enum_instances.contains(&name) {
                    let none: Vec<Type> = Vec::new();
                    assert(none.deep_view() =~= Seq::empty());
                    return MirRvalue::EnumVariantConstruction {
                        enum_name: name,
                        generic_args: none,
                        variant_name: variant_name.clone(),
                        args: crate::mir::clone_operands(args),
                    };
                }
            }
            rv.clone()
        },
        _ => rv.clone(),
    }
}

/// A statement with its types made concrete.
fn concrete_stmt(
    stmt: &MirStmt,
    struct_instances: &KeySet<String>,
    enum_instances: &KeySet<String>,
) -> (r: MirStmt)
    ensures
        r.deep_view() == stmt_concrete(
            stmt.deep_view(),
            struct_instances.deep_view(),
            enum_instances.deep_view(),
        ),
{
    match stmt {
        MirStmt::Assign { dest, value } => MirStmt::Assign {
            dest: dest.clone(),
            value: replace_type_in_rvalue(value, struct_instances, enum_instances),
        },
        MirStmt::ExprStmt(value) => MirStmt::ExprStmt(
            replace_type_in_rvalue(value, struct_instances, enum_instances),
        ),
        _ => stmt.clone(),
    }
}

/// The name of the enum that a variable is of, where its type is one.
fn enum_name_of(id: usize, locals: &Vec<MirLocal>, name: &String) -> (r: String)
    ensures
        r@ == enum_of(id, locals.deep_view(), name@),
{
    if let Some(l) = lookup_local(locals, id) {
        if let Type::Enum(n) = &l.ty {
            return n.clone();
        }
    }
    name.clone()
}

/// A place with the enum names that it mentions as the variables' types say.
fn update_enum_names_in_place(place: &MirPlace, locals: &Vec<MirLocal>) -> (r: MirPlace)
    ensures
        r.deep_view() == place_renamed(place.deep_view(), locals.deep_view()),
    decreases place,
{
    match place {
        MirPlace::Ssa(s) => MirPlace::Ssa(*s),
        MirPlace::Field { base, field } => MirPlace::Field {
            base: Box::new(update_enum_names_in_place(base, locals)),
            field: field.clone(),
        },
        MirPlace::Index { base, index } => MirPlace::Index {
            base: Box::new(update_enum_names_in_place(base, locals)),
            index: Box::new(update_enum_names_in_operand(index, locals)),
        },
        MirPlace::Deref(base) => MirPlace::Deref(
            Box::new(update_enum_names_in_place(base, locals)),
        ),
        MirPlace::EnumPayload { base, enum_name, variant_name } => MirPlace::EnumPayload {
            base: Box::new((**base).clone()),
            enum_name: enum_name_of(place_base_id(base), locals, enum_name),
            variant_name: variant_name.clone(),
        },
    }
}

/// An operand with the enum names that it mentions as the variables' types say.
fn update_enum_names_in_operand(op: &MirOperand, locals: &Vec<MirLocal>) -> (r: MirOperand)
    ensures
        r.deep_view() == operand_renamed(op.deep_view(), locals.deep_view()),
    decreases op,
{
    match op {
        MirOperand::Copy(place) => MirOperand::Copy(update_enum_names_in_place(place, locals)),
        MirOperand::Move(place) => MirOperand::Move(update_enum_names_in_place(place, locals)),
        _ => op.clone(),
    }
}

fn update_enum_names_in_operands(ops: &Vec<MirOperand>, locals: &Vec<MirLocal>) -> (r: Vec<
    MirOperand,
>)
    ensures
        r.deep_view() == operands_renamed(ops.deep_view(), locals.deep_view()),
{
    let mut r: Vec<MirOperand> = Vec::new();
    let mut i: usize = 0;
    while i < ops.len()
        invariant
            i <= ops.len(),
            r.len() == i,
            forall|j: int|
                0 <= j < i ==> (#[trigger] r@[j]).deep_view() == operand_renamed(
                    ops@[j].deep_view(),
                    locals.deep_view(),
                ),
        decreases ops.len() - i,
    {
        r.push(update_enum_names_in_operand(&ops[i], locals));
        i = i + 1;
    }
    assert(r.deep_view() =~= operands_renamed(ops.deep_view(), locals.deep_view()));
    r
}

/// A right-hand side with the enum names that it mentions as the variables'
/// types say.
fn update_enum_names_in_rvalue(rv: &MirRvalue, locals: &Vec<MirLocal>) -> (r: MirRvalue)
    ensures
        r.deep_view() == rvalue_renamed(rv.deep_view(), locals.deep_view()),
{
    let ghost want = rvalue_renamed(rv.deep_view(), locals.deep_view());
    match rv {
        MirRvalue::Use(op) => MirRvalue::Use(update_enum_names_in_operand(op, locals)),
        MirRvalue::BinaryOp(op, l, r) => MirRvalue::BinaryOp(
            *op,
            update_enum_names_in_operand(l, locals),
            update_enum_names_in_operand(r, locals),
        ),
        MirRvalue::UnaryOp(op, o) => MirRvalue::UnaryOp(
            *op,
            update_enum_names_in_operand(o, locals),
        ),
        MirRvalue::Cast(o, t) => MirRvalue::Cast(
            update_enum_names_in_operand(o, locals),
            t.clone(),
        ),
        MirRvalue::Call { func, args, is_intrinsic, intrinsic_name, generic_args } => {
            MirRvalue::Call {
                func: func.clone(),
                args: update_enum_names_in_operands(args, locals),
                is_intrinsic: *is_intrinsic,
                intrinsic_name: *intrinsic_name,
                generic_args: crate::ast::clone_types(generic_args),
            }
        },
        MirRvalue::MethodCall { receiver, method, args, generic_args } => MirRvalue::MethodCall {
            receiver: update_enum_names_in_operand(receiver, locals),
            method: method.clone(),
            args: update_enum_names_in_operands(args, locals),
            generic_args: crate::ast::clone_types(generic_args),
        },
        MirRvalue::StructInit { struct_name, generic_args, fields } => {
            let mut fs: Vec<(String, MirOperand)> = Vec::new();
            let mut i: usize = 0;
            while i < fields.len()
                invariant
                    i <= fields.len(),
                    fs.len() == i,
                    forall|j: int|
                        0 <= j < i ==> (#[trigger] fs@[j]).deep_view() == (
                            fields@[j].0.deep_view(),
                            operand_renamed(fields@[j].1.deep_view(), locals.deep_view()),
                        ),
                decreases fields.len() - i,
            {
                fs.push((fields[i].0.clone(), update_enum_names_in_operand(&fields[i].1, locals)));
                i = i + 1;
            }
            assert(fs.deep_view() =~= want->StructInit_fields);
            MirRvalue::StructInit {
                struct_name: struct_name.clone(),
                generic_args: crate::ast::clone_types(generic_args),
                fields: fs,
            }
        },
        MirRvalue::EnumVariantConstruction { enum_name, generic_args, variant_name, args } => {
            MirRvalue::EnumVariantConstruction {
                enum_name: enum_name.clone(),
                generic_args: crate::ast::clone_types(generic_args),
                variant_name: variant_name.clone(),
                args: update_enum_names_in_operands(args, locals),
            }
        },
        MirRvalue::ArrayLiteral(elems) => MirRvalue::ArrayLiteral(
            update_enum_names_in_operands(elems, locals),
        ),
        MirRvalue::Ref { mutable, place } => MirRvalue::Ref {
            mutable: *mutable,
            place: update_enum_names_in_place(place, locals),
        },
        MirRvalue::Discriminant { value, enum_name } => {
            let name = match value {
                MirOperand::Copy(p) => enum_name_of(place_base_id(p), locals, enum_name),
                MirOperand::Move(p) => enum_name_of(place_base_id(p), locals, enum_name),
                _ => enum_name.clone(),
            };
            MirRvalue::Discriminant { value: value.clone(), enum_name: name }
        },
        MirRvalue::Phi { values } => {
            let mut vs: Vec<(usize, MirOperand)> = Vec::new();
            let mut i: usize = 0;
            while i < values.len()
                invariant
                    i <= values.len(),
                    vs.len() == i,
                    forall|j: int|
                        0 <= j < i ==> (#[trigger] vs@[j]).deep_view() == (
                            values@[j].0,
                            operand_renamed(values@[j].1.deep_view(), locals.deep_view()),
                        ),
                decreases values.len() - i,
            {
                vs.push((values[i].0, update_enum_names_in_operand(&values[i].1, locals)));
                i = i + 1;
            }
            assert(vs.deep_view() =~= want->Phi_values);
            MirRvalue::Phi { values: vs }
        },
    }
}

/// A statement with the enum names that it mentions as the variables' types say.
fn update_enum_names_in_stmt(stmt: &MirStmt, locals: &Vec<MirLocal>) -> (r: MirStmt)
    ensures
        r.deep_view() == stmt_renamed(stmt.deep_view(), locals.deep_view()),
{
    match stmt {
        MirStmt::Assign { dest, value } => MirStmt::Assign {
            dest: update_enum_names_in_place(dest, locals),
            value: update_enum_names_in_rvalue(value, locals),
        },
        MirStmt::ExprStmt(value) => MirStmt::ExprStmt(update_enum_names_in_rvalue(value, locals)),
        MirStmt::Drop { place } => MirStmt::Drop {
            place: update_enum_names_in_place(place, locals),
        },
        MirStmt::SetMetadata { place, key, data } => MirStmt::SetMetadata {
            place: update_enum_names_in_place(place, locals),
            key: key.clone(),
            data: data.clone(),
        },
        _ => stmt.clone(),
    }
}

/// A function with its types made concrete and its enum names brought in line.
pub fn concrete_fn(
    f: &MirFn,
    struct_instances: &KeySet<String>,
    enum_instances: &KeySet<String>,
) -> (r: MirFn)
    ensures
        r.deep_view() == fn_concrete(
            f.deep_view(),
            struct_instances.deep_view(),
            enum_instances.deep_view(),
        ),
{
    let ghost fv = f.deep_view();
    let ghost ss = struct_instances.deep_view();
    let ghost es = enum_instances.deep_view();
    let ghost want = fn_concrete(fv, ss, es);
    let mut locals: Vec<MirLocal> = Vec::new();
    let mut i: usize = 0;
    while i < f.body.locals.len()
        invariant
            i <= f.body.locals.len(),
            fv == f.deep_view(),
            ss == struct_instances.deep_view(),
            es == enum_instances.deep_view(),
            locals.len() == i,
            forall|j: int|
                0 <= j < i ==> (#[trigger] locals@[j]).deep_view() == locals_concrete(
                    fv.body.locals,
                    ss,
                    es,
                )[j],
        decreases f.body.locals.len() - i,
    {
        assert(fv.body.locals[i as int] == f.body.locals@[i as int].deep_view());
        let mut l = f.body.locals[i].clone();
        l.ty = replace_generic_with_concrete(
            &f.body.locals[i].ty,
            struct_instances,
            enum_instances,
        );
        locals.push(l);
        i = i + 1;
    }
    assert(locals.deep_view() =~= want.body.locals);
    let mut blocks: Vec<MirBlock> = Vec::new();
    let mut k: usize = 0;
    while k < f.body.blocks.len()
        invariant
            k <= f.body.blocks.len(),
            fv == f.deep_view(),
            ss == struct_instances.deep_view(),
            es == enum_instances.deep_view(),
            want == fn_concrete(fv, ss, es),
            locals.deep_view() == want.body.locals,
            blocks.len() == k,
            forall|j: int|
                0 <= j < k ==> (#[trigger] blocks@[j]).deep_view() == want.body.blocks[j],
        decreases f.body.blocks.len() - k,
    {
        let block = &f.body.blocks[k];
        assert(fv.body.blocks[k as int] == block.deep_view());
        let mut stmts: Vec<MirStmt> = Vec::new();
        let mut j: usize = 0;
        while j < block.stmts.len()
            invariant
                j <= block.stmts.len(),
                ss == struct_instances.deep_view(),
                es == enum_instances.deep_view(),
                locals.deep_view() == want.body.locals,
                stmts.len() == j,
                forall|x: int|
                    0 <= x < j ==> (#[trigger] stmts@[x]).deep_view() == stmt_renamed(
                        stmt_concrete(block.deep_view().stmts[x], ss, es),
                        want.body.locals,
                    ),
            decreases block.stmts.len() - j,
        {
            assert(block.deep_view().stmts[j as int] == block.stmts@[j as int].deep_view());
            let s = concrete_stmt(&block.stmts[j], struct_instances, enum_instances);
            stmts.push(update_enum_names_in_stmt(&s, &locals));
            j = j + 1;
        }
        let b = MirBlock { id: block.id, stmts, terminator: block.terminator.clone() };
        assert(b.deep_view().stmts =~= want.body.blocks[k as int].stmts);
        blocks.push(b);
        k = k + 1;
    }
    let r = MirFn {
        name: f.name.clone(),
        generic_params: crate::mir::clone_generic_params(&f.generic_params),
        params: concrete_named(&f.params, struct_instances, enum_instances),
        return_type: match &f.return_type {
            Some(t) => Some(
                replace_generic_with_concrete(t, struct_instances, enum_instances),
            ),
            None => None,
        },
        body: MirBody { locals, blocks },
    };
    assert(r.deep_view().body.blocks =~= want.body.blocks);
    r
}

} // verus!
