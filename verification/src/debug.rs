//! Debug text of types, as error messages show it.

use vstd::prelude::*;

use crate::ast::{PrivacyTag, ShapeDim, Type};
use crate::ast::{DimV, TagV, TypeV};
use crate::ast::group_type_view;
use crate::text::{cat3, i64_to_string, join_strings, usize_to_string};
use crate::text::{decimal, decimal_int, join};

verus! {

/// The debug text of a string: quoted and escaped.
pub uninterp spec fn quoted(s: Seq<char>) -> Seq<char>;

/// The `Debug` text of a `str`, as `format` writes it with `{:?}`: between double
/// quotes, with control characters, quotes and backslashes escaped. It depends on
/// the string alone.
#[verifier::external_body]
pub(crate) fn quote(s: &str) -> (r: String)
    ensures
        r@ == quoted(s@),
{
    format!("{:?}", s)
}

/// The debug text of a shape dimension.
pub open spec fn dim_debug(d: DimV) -> Seq<char> {
    match d {
        DimV::Const(c) => "Const("@ + decimal(c as nat) + ")"@,
        DimV::Sym(s) => "Sym("@ + quoted(s) + ")"@,
        DimV::Dyn => "Dyn"@,
    }
}

/// The debug text of a privacy tag.
pub open spec fn tag_debug(t: TagV) -> Seq<char> {
    match t {
        TagV::Public => "Public"@,
        TagV::Private => "Private"@,
        TagV::Differential { eps, delta } => "Differential { eps: "@ + quoted(eps) + ", delta: "@ + (
        match delta {
            Some(d) => "Some("@ + quoted(d) + ")"@,
            None => "None"@,
        }) + " }"@,
    }
}

/// The debug text of a type.
pub open spec fn type_debug(t: TypeV) -> Seq<char>
    decreases t,
{
    match t {
        TypeV::I8 => "I8"@,
        TypeV::I16 => "I16"@,
        TypeV::I32 => "I32"@,
        TypeV::I64 => "I64"@,
        TypeV::I128 => "I128"@,
        TypeV::U8 => "U8"@,
        TypeV::U16 => "U16"@,
        TypeV::U32 => "U32"@,
        TypeV::U64 => "U64"@,
        TypeV::U128 => "U128"@,
        TypeV::F16 => "F16"@,
        TypeV::F32 => "F32"@,
        TypeV::F64 => "F64"@,
        TypeV::Bool => "Bool"@,
        TypeV::Char => "Char"@,
        TypeV::Str => "Str"@,
        TypeV::Unit => "Unit"@,
        TypeV::Never => "Never"@,
        TypeV::SymInt => "SymInt"@,
        TypeV::Struct(n) => "Struct("@ + quoted(n) + ")"@,
        TypeV::Enum(n) => "Enum("@ + quoted(n) + ")"@,
        TypeV::TypeParam(n) => "TypeParam("@ + quoted(n) + ")"@,
        TypeV::SelfType => "SelfType"@,
        TypeV::Generic(n, args) => "Generic("@ + quoted(n) + ", ["@ + join(types_debug(args), ", "@)
            + "])"@,
        TypeV::Tuple(es) => "Tuple(["@ + join(types_debug(es), ", "@) + "])"@,
        TypeV::Array(e, n) => "Array("@ + type_debug(*e) + ", "@ + decimal(n as nat) + ")"@,
        TypeV::Ref { mutable, inner } => "Ref { mutable: "@ + (if mutable {
            "true"@
        } else {
            "false"@
        }) + ", inner: "@ + type_debug(*inner) + " }"@,
        TypeV::Slice(e) => "Slice("@ + type_debug(*e) + ")"@,
        TypeV::Privacy(e, tag) => "Privacy("@ + type_debug(*e) + ", "@ + tag_debug(tag) + ")"@,
        TypeV::Tensor { dtype, shape } => "Tensor { dtype: "@ + type_debug(*dtype) + ", shape: ["@
            + join(shape.map_values(|d: DimV| dim_debug(d)), ", "@) + "] }"@,
        TypeV::ConstIntArray(vs) => "ConstIntArray(["@ + join(
            vs.map_values(|v: i64| decimal_int(v as int)),
            ", "@,
        ) + "])"@,
    }
}

/// The debug text of each type.
pub open spec fn types_debug(ts: Seq<TypeV>) -> Seq<Seq<char>>
    decreases ts,
{
    Seq::new(
        ts.len(),
        |i: int|
            if 0 <= i < ts.len() {
                type_debug(ts[i])
            } else {
                Seq::empty()
            },
    )
}

/// The debug text of a privacy tag.
pub fn show_tag(t: &PrivacyTag) -> (r: String)
    ensures
        r@ == tag_debug(t.deep_view()),
{
    match t {
        PrivacyTag::Public => "Public".to_owned(),
        PrivacyTag::Private => "Private".to_owned(),
        PrivacyTag::Differential { eps, delta } => {
            let mut s = cat3("Differential { eps: ", quote(eps.as_str()).as_str(), ", delta: ");
            match delta {
                Some(d) => {
                    let inner = cat3("Some(", quote(d.as_str()).as_str(), ")");
                    s.append(inner.as_str());
                },
                None => s.append("None"),
            }
            s.append(" }");
            s
        },
    }
}

/// The debug text of a type.
pub fn show_type(t: &Type) -> (r: String)
    ensures
        r@ == type_debug(t.deep_view()),
    decreases t,
{
    broadcast use group_type_view;

    match t {
        Type::I8 => "I8".to_owned(),
        Type::I16 => "I16".to_owned(),
        Type::I32 => "I32".to_owned(),
        Type::I64 => "I64".to_owned(),
        Type::I128 => "I128".to_owned(),
        Type::U8 => "U8".to_owned(),
        Type::U16 => "U16".to_owned(),
        Type::U32 => "U32".to_owned(),
        Type::U64 => "U64".to_owned(),
        Type::U128 => "U128".to_owned(),
        Type::F16 => "F16".to_owned(),
        Type::F32 => "F32".to_owned(),
        Type::F64 => "F64".to_owned(),
        Type::Bool => "Bool".to_owned(),
        Type::Char => "Char".to_owned(),
        Type::Str => "Str".to_owned(),
        Type::Unit => "Unit".to_owned(),
        Type::Never => "Never".to_owned(),
        Type::SymInt => "SymInt".to_owned(),
        Type::Struct(n) => cat3("Struct(", quote(n.as_str()).as_str(), ")"),
        Type::Enum(n) => cat3("Enum(", quote(n.as_str()).as_str(), ")"),
        Type::TypeParam(n) => cat3("TypeParam(", quote(n.as_str()).as_str(), ")"),
        Type::SelfType => "SelfType".to_owned(),
        Type::Generic(n, args) => {
            let mut s = cat3("Generic(", quote(n.as_str()).as_str(), ", [");
            s.append(show_types(args).as_str());
            s.append("])");
            s
        },
        Type::Tuple(es) => cat3("Tuple([", show_types(es).as_str(), "])"),
        Type::Array(e, n) => {
            let mut s = cat3("Array(", show_type(e).as_str(), ", ");
            s.append(usize_to_string(*n).as_str());
            s.append(")");
            s
        },
        Type::Ref { mutable, inner } => {
            let m = if *mutable {
                "true"
            } else {
                "false"
            };
            let mut s = cat3("Ref { mutable: ", m, ", inner: ");
            s.append(show_type(inner).as_str());
            s.append(" }");
            s
        },
        Type::Slice(e) => cat3("Slice(", show_type(e).as_str(), ")"),
        Type::Privacy(e, tag) => {
            let mut s = cat3("Privacy(", show_type(e).as_str(), ", ");
            s.append(show_tag(tag).as_str());
            s.append(")");
            s
        },
        Type::Tensor { dtype, shape } => {
            let mut parts: Vec<String> = Vec::new();
            let mut i: usize = 0;
            while i < shape.len()
                invariant
                    i <= shape.len(),
                    parts.len() == i,
                    forall|j: int|
                        0 <= j < i ==> (#[trigger] parts@[j])@ == dim_debug(shape@[j].deep_view()),
                decreases shape.len() - i,
            {
                let d = match &shape[i] {
                    ShapeDim::Const(c) => cat3("Const(", usize_to_string(*c).as_str(), ")"),
                    ShapeDim::Sym(s) => cat3("Sym(", quote(s.as_str()).as_str(), ")"),
                    ShapeDim::Dyn => "Dyn".to_owned(),
                };
                parts.push(d);
                i = i + 1;
            }
            assert(parts.deep_view() =~= shape.deep_view().map_values(|d: DimV| dim_debug(d)));
            let mut s = cat3("Tensor { dtype: ", show_type(dtype).as_str(), ", shape: [");
            s.append(join_strings(&parts, ", ").as_str());
            s.append("] }");
            s
        },
        Type::ConstIntArray(vs) => {
            let mut parts: Vec<String> = Vec::new();
            let mut i: usize = 0;
            while i < vs.len()
                invariant
                    i <= vs.len(),
                    parts.len() == i,
                    forall|j: int|
                        0 <= j < i ==> (#[trigger] parts@[j])@ == decimal_int(vs@[j] as int),
                decreases vs.len() - i,
            {
                parts.push(i64_to_string(vs[i]));
                i = i + 1;
            }
            assert(parts.deep_view() =~= vs@.map_values(|v: i64| decimal_int(v as int)));
            cat3("ConstIntArray([", join_strings(&parts, ", ").as_str(), "])")
        },
    }
}

/// The debug texts of types, separated by commas.
fn show_types(ts: &Vec<Type>) -> (r: String)
    ensures
        r@ == join(types_debug(ts.deep_view()), ", "@),
    decreases ts,
{
    let mut parts: Vec<String> = Vec::new();
    let mut i: usize = 0;
    while i < ts.len()
        invariant
            i <= ts.len(),
            parts.len() == i,
            forall|j: int| 0 <= j < i ==> (#[trigger] parts@[j])@ == type_debug(ts@[j].deep_view()),
        decreases ts.len() - i,
    {
        parts.push(show_type(&ts[i]));
        i = i + 1;
    }
    assert(parts.deep_view() =~= types_debug(ts.deep_view()));
    join_strings(&parts, ", ")
}

} // verus!
