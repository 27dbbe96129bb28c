//! Names of generic instances, and substitution of type parameters.

use vstd::prelude::*;

use crate::ast::{ShapeDim, Type};
use crate::ast::{DimV, TypeV};
use crate::ast::group_type_view;
use crate::table::Table;
use crate::text::{cat, cat3, i64_to_string, join_strings, usize_to_string};
use crate::text::{decimal, decimal_int, join};

verus! {

/// How a shape dimension reads in an instance name.
pub open spec fn dim_text(d: DimV) -> Seq<char> {
    match d {
        DimV::Const(c) => decimal(c as nat),
        DimV::Sym(s) => s,
        DimV::Dyn => "Dyn"@,
    }
}

/// How a type reads in an instance name; privacy labels leave no trace.
pub open spec fn type_text(t: TypeV) -> Seq<char>
    decreases t,
{
    match t {
        TypeV::I8 => "i8"@,
        TypeV::I16 => "i16"@,
        TypeV::I32 => "i32"@,
        TypeV::I64 => "i64"@,
        TypeV::I128 => "i128"@,
        TypeV::U8 => "u8"@,
        TypeV::U16 => "u16"@,
        TypeV::U32 => "u32"@,
        TypeV::U64 => "u64"@,
        TypeV::U128 => "u128"@,
        TypeV::F16 => "f16"@,
        TypeV::F32 => "f32"@,
        TypeV::F64 => "f64"@,
        TypeV::Bool => "bool"@,
        TypeV::Char => "char"@,
        TypeV::Str => "str"@,
        TypeV::Unit => "unit"@,
        TypeV::Never => "never"@,
        TypeV::SymInt => "symint"@,
        TypeV::Struct(n) => n,
        TypeV::Enum(n) => n,
        TypeV::TypeParam(n) => n,
        TypeV::SelfType => "Self"@,
        TypeV::Generic(n, args) => n + "_"@ + join(type_texts(args), "_"@),
        TypeV::Tuple(es) => "tuple_"@ + join(type_texts(es), "_"@),
        TypeV::Array(e, n) => "arr_"@ + type_text(*e) + "_"@ + decimal(n as nat),
        TypeV::Ref { mutable, inner } => "ref_"@ + (if mutable {
            "mut"@
        } else {
            "immut"@
        }) + "_"@ + type_text(*inner),
        TypeV::Slice(e) => "slice_"@ + type_text(*e),
        TypeV::Privacy(e, _) => type_text(*e),
        TypeV::Tensor { dtype, shape } => "tensor_"@ + type_text(*dtype) + "_"@ + join(
            shape.map_values(|d: DimV| dim_text(d)),
            "_"@,
        ),
        TypeV::ConstIntArray(vs) => "constarr_"@ + join(
            vs.map_values(|v: i64| decimal_int(v as int)),
            "_"@,
        ),
    }
}

/// How each type of a list reads in an instance name.
pub open spec fn type_texts(ts: Seq<TypeV>) -> Seq<Seq<char>>
    decreases ts,
{
    Seq::new(
        ts.len(),
        |i: int|
            if 0 <= i < ts.len() {
                type_text(ts[i])
            } else {
                Seq::empty()
            },
    )
}

/// The name of the instance of `base` for the given type arguments.
pub open spec fn mangled(base: Seq<char>, args: Seq<TypeV>) -> Seq<char> {
    base + "_"@ + join(type_texts(args), "_"@)
}

/// How a type reads in an instance name.
pub fn type_to_string(ty: &Type) -> (r: String)
    ensures
        r@ == type_text(ty.deep_view()),
    decreases ty,
{
    broadcast use group_type_view;

    match ty {
        Type::I8 => "i8".to_owned(),
        Type::I16 => "i16".to_owned(),
        Type::I32 => "i32".to_owned(),
        Type::I64 => "i64".to_owned(),
        Type::I128 => "i128".to_owned(),
        Type::U8 => "u8".to_owned(),
        Type::U16 => "u16".to_owned(),
        Type::U32 => "u32".to_owned(),
        Type::U64 => "u64".to_owned(),
        Type::U128 => "u128".to_owned(),
        Type::F16 => "f16".to_owned(),
        Type::F32 => "f32".to_owned(),
        Type::F64 => "f64".to_owned(),
        Type::Bool => "bool".to_owned(),
        Type::Char => "char".to_owned(),
        Type::Str => "str".to_owned(),
        Type::Unit => "unit".to_owned(),
        Type::Never => "never".to_owned(),
        Type::SymInt => "symint".to_owned(),
        Type::Struct(name) => name.clone(),
        Type::Enum(name) => name.clone(),
        Type::TypeParam(name) => name.clone(),
        Type::SelfType => "Self".to_owned(),
        Type::Generic(name, args) => {
            let list = types_to_string(args);
            cat3(name.as_str(), "_", list.as_str())
        },
        Type::Tuple(elems) => {
            let list = types_to_string(elems);
            cat("tuple_", list.as_str())
        },
        Type::Array(elem_ty, len) => {
            let mut s = cat3("arr_", type_to_string(elem_ty).as_str(), "_");
            s.append(usize_to_string(*len).as_str());
            s
        },
        Type::Ref { mutable, inner } => {
            let m = if *mutable {
                "mut"
            } else {
                "immut"
            };
            let mut s = cat3("ref_", m, "_");
            s.append(type_to_string(inner).as_str());
            s
        },
        Type::Slice(inner) => cat("slice_", type_to_string(inner).as_str()),
        Type::Privacy(inner, _) => type_to_string(inner),
        Type::Tensor { dtype, shape } => {
            let mut parts: Vec<String> = Vec::new();
            let mut i: usize = 0;
            while i < shape.len()
                invariant
                    i <= shape.len(),
                    parts.len() == i,
                    forall|j: int|
                        0 <= j < i ==> (#[trigger] parts@[j])@ == dim_text(shape@[j].deep_view()),
                decreases shape.len() - i,
            {
                let d = match &shape[i] {
                    ShapeDim::Const(c) => usize_to_string(*c),
                    ShapeDim::Sym(s) => s.clone(),
                    ShapeDim::Dyn => "Dyn".to_owned(),
                };
                parts.push(d);
                i = i + 1;
            }
            assert(parts.deep_view() =~= shape.deep_view().map_values(|d: DimV| dim_text(d)));
            let mut s = cat3("tensor_", type_to_string(dtype).as_str(), "_");
            s.append(join_strings(&parts, "_").as_str());
            s
        },
        Type::ConstIntArray(vals) => {
            let mut parts: Vec<String> = Vec::new();
            let mut i: usize = 0;
            while i < vals.len()
                invariant
                    i <= vals.len(),
                    parts.len() == i,
                    forall|j: int|
                        0 <= j < i ==> (#[trigger] parts@[j])@ == decimal_int(vals@[j] as int),
                decreases vals.len() - i,
            {
                parts.push(i64_to_string(vals[i]));
                i = i + 1;
            }
            assert(parts.deep_view() =~= vals@.map_values(|v: i64| decimal_int(v as int)));
            cat("constarr_", join_strings(&parts, "_").as_str())
        },
    }
}

/// How a list of types reads in an instance name.
fn types_to_string(tys: &Vec<Type>) -> (r: String)
    ensures
        r@ == join(type_texts(tys.deep_view()), "_"@),
    decreases tys,
{
    let mut parts: Vec<String> = Vec::new();
    let mut i: usize = 0;
    while i < tys.len()
        invariant
            i <= tys.len(),
            parts.len() == i,
            forall|j: int| 0 <= j < i ==> (#[trigger] parts@[j])@ == type_text(tys@[j].deep_view()),
        decreases tys.len() - i,
    {
        parts.push(type_to_string(&tys[i]));
        i = i + 1;
    }
    assert(parts.deep_view() =~= type_texts(tys.deep_view()));
    join_strings(&parts, "_")
}

/// The name of the instance of `base` for the given type arguments.
pub fn mangled_name(base: &str, args: &Vec<Type>) -> (r: String)
    ensures
        r@ == mangled(base@, args.deep_view()),
{
    cat3(base, "_", types_to_string(args).as_str())
}

/// A type with its type parameters replaced.
pub open spec fn substituted(t: TypeV, subst: Map<Seq<char>, TypeV>) -> TypeV
    decreases t,
{
    match t {
        TypeV::TypeParam(n) => if subst.contains_key(n) {
            subst[n]
        } else {
            t
        },
        TypeV::Generic(n, args) => TypeV::Generic(
            n,
            Seq::new(
                args.len(),
                |i: int|
                    if 0 <= i < args.len() {
                        substituted(args[i], subst)
                    } else {
                        TypeV::Unit
                    },
            ),
        ),
        TypeV::Tuple(es) => TypeV::Tuple(
            Seq::new(
                es.len(),
                |i: int|
                    if 0 <= i < es.len() {
                        substituted(es[i], subst)
                    } else {
                        TypeV::Unit
                    },
            ),
        ),
        TypeV::Array(e, n) => TypeV::Array(Box::new(substituted(*e, subst)), n),
        TypeV::Ref { mutable, inner } => TypeV::Ref {
            mutable,
            inner: Box::new(substituted(*inner, subst)),
        },
        TypeV::Privacy(e, tag) => TypeV::Privacy(Box::new(substituted(*e, subst)), tag),
        TypeV::Slice(e) => TypeV::Slice(Box::new(substituted(*e, subst))),
        _ => t,
    }
}

/// Each type with its type parameters replaced.
pub open spec fn substituted_all(ts: Seq<TypeV>, subst: Map<Seq<char>, TypeV>) -> Seq<TypeV> {
    ts.map_values(|t: TypeV| substituted(t, subst))
}

proof fn lemma_substituted_lists(n: Seq<char>, ts: Seq<TypeV>, subst: Map<Seq<char>, TypeV>)
    ensures
        substituted(TypeV::Generic(n, ts), subst) == TypeV::Generic(n, substituted_all(ts, subst)),
        substituted(TypeV::Tuple(ts), subst) == TypeV::Tuple(substituted_all(ts, subst)),
{
    let g = substituted(TypeV::Generic(n, ts), subst);
    assert(g->Generic_1 =~= substituted_all(ts, subst));
    let u = substituted(TypeV::Tuple(ts), subst);
    assert(u->Tuple_0 =~= substituted_all(ts, subst));
}

/// A type with its type parameters replaced.
pub fn replace_type(ty: &Type, subst: &Table<String, Type>) -> (r: Type)
    ensures
        r.deep_view() == substituted(ty.deep_view(), subst.deep_view()),
    decreases ty,
{
    broadcast use group_type_view;

    match ty {
        Type::TypeParam(name) => match subst.get(name) {
            Some(t) => t.clone(),
            None => ty.clone(),
        },
        Type::Generic(name, args) => {
            proof {
                lemma_substituted_lists(name@, args.deep_view(), subst.deep_view());
            }
            Type::Generic(name.clone(), replace_types(args, subst))
        },
        Type::Tuple(elems) => {
            proof {
                lemma_substituted_lists(Seq::empty(), elems.deep_view(), subst.deep_view());
            }
            Type::Tuple(replace_types(elems, subst))
        },
        Type::Array(elem_ty, len) => Type::Array(Box::new(replace_type(elem_ty, subst)), *len),
        Type::Ref { mutable, inner } => Type::Ref {
            mutable: *mutable,
            inner: Box::new(replace_type(inner, subst)),
        },
        Type::Privacy(inner, tag) => Type::Privacy(
            Box::new(replace_type(inner, subst)),
            tag.clone(),
        ),
        Type::Slice(inner) => Type::Slice(Box::new(replace_type(inner, subst))),
        _ => ty.clone(),
    }
}

/// Each type with its type parameters replaced.
pub fn replace_types(tys: &Vec<Type>, subst: &Table<String, Type>) -> (r: Vec<Type>)
    ensures
        r.deep_view() == substituted_all(tys.deep_view(), subst.deep_view()),
    decreases tys,
{
    let mut r: Vec<Type> = Vec::new();
    let mut i: usize = 0;
    while i < tys.len()
        invariant
            i <= tys.len(),
            r.len() == i,
            forall|j: int|
                0 <= j < i ==> (#[trigger] r@[j]).deep_view() == substituted(
                    tys@[j].deep_view(),
                    subst.deep_view(),
                ),
        decreases tys.len() - i,
    {
        r.push(replace_type(&tys[i], subst));
        i = i + 1;
    }
    assert(r.deep_view() =~= substituted_all(tys.deep_view(), subst.deep_view()));
    r
}

} // verus!
