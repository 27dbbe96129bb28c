//! Compiler intrinsics: the built-in functions and constants, and what is known
//! of each.

use vstd::prelude::*;

use vstd::std_specs::cmp::PartialEqSpecImpl;

use crate::ast::{clone_types, same_type, same_types, Type};
use crate::ast::TypeV;
use crate::literal::Literal;
use crate::literal::LiteralV;
use crate::text::{cat3, str_eq};

verus! {

/// A built-in function.
#[derive(Clone, Copy, Debug, PartialEq, Eq, Structural, Hash, PartialOrd, Ord)]
pub enum IntrinsicFn {
    Print,
    Panic,
    FromUtf8Unchecked,
    TensorCond,
    TensorWhileLoop,
    Linear,
    Conv2d,
    MaxPool2d,
    Flatten,
    Reshape,
    Relu,
    Dropout,
    LayerNorm,
    Sum,
    Embedding,
}

/// A built-in constant.
#[derive(Clone, Copy, Debug, PartialEq, Eq, Structural, Hash, PartialOrd, Ord)]
pub enum IntrinsicConst {
    I8Max,
    I16Max,
    I32Max,
    I64Max,
    I128Max,
    U8Max,
    U16Max,
    U32Max,
    U64Max,
    U128Max,
    F32Infinity,
    F32Nan,
    F64Infinity,
    F64Nan,
}

/// A parameter of a built-in function.
#[derive(Debug)]
pub enum IntrinsicParam {
    Value(Type),
    Ref(bool, Type),
    Fn(Vec<Type>, Box<Type>),
    VarArgs,
}

/// The signature of a built-in function.
#[derive(Debug)]
pub struct IntrinsicSignature {
    pub params: Vec<IntrinsicParam>,
    pub return_type: Type,
}

/// How a built-in function is treated.
#[derive(Clone, Copy, Debug, PartialEq, Eq, Structural)]
pub enum IntrinsicKind {
    Function,
    Special,
}

/// What is known of a built-in function; without a signature, its calls are
/// checked by rules of their own.
#[derive(Debug)]
pub struct Intrinsic {
    pub kind: IntrinsicKind,
    pub allowed_in_model: bool,
    pub is_pure: bool,
    pub requires_unsafe: bool,
    pub signature: Option<IntrinsicSignature>,
    pub link_name: &'static str,
    pub doc: &'static str,
}

/// What is known of a built-in constant.
#[derive(Debug)]
pub struct Constant {
    pub name: &'static str,
    pub ty: Type,
    pub value: Option<Literal>,
    pub doc: &'static str,
}

/// Model of an `IntrinsicParam`.
pub enum IntrinsicParamV {
    Value(TypeV),
    Ref(bool, TypeV),
    Fn(Seq<TypeV>, TypeV),
    VarArgs,
}

/// Model of an `IntrinsicSignature`.
pub struct SignatureV {
    pub params: Seq<IntrinsicParamV>,
    pub return_type: TypeV,
}

/// Model of an `Intrinsic`.
pub struct IntrinsicV {
    pub kind: IntrinsicKind,
    pub allowed_in_model: bool,
    pub is_pure: bool,
    pub requires_unsafe: bool,
    pub signature: Option<SignatureV>,
    pub link_name: Seq<char>,
    pub doc: Seq<char>,
}

/// Model of a `Constant`.
pub struct ConstantV {
    pub name: Seq<char>,
    pub ty: TypeV,
    pub value: Option<LiteralV>,
    pub doc: Seq<char>,
}

impl DeepView for IntrinsicFn {
    type V = IntrinsicFn;

    open spec fn deep_view(&self) -> IntrinsicFn {
        *self
    }
}

impl DeepView for IntrinsicParam {
    type V = IntrinsicParamV;

    open spec fn deep_view(&self) -> IntrinsicParamV {
        match *self {
            IntrinsicParam::Value(t) => IntrinsicParamV::Value(t.deep_view()),
            IntrinsicParam::Ref(m, t) => IntrinsicParamV::Ref(m, t.deep_view()),
            IntrinsicParam::Fn(ps, r) => IntrinsicParamV::Fn(ps.deep_view(), r.deep_view()),
            IntrinsicParam::VarArgs => IntrinsicParamV::VarArgs,
        }
    }
}

impl DeepView for IntrinsicSignature {
    type V = SignatureV;

    open spec fn deep_view(&self) -> SignatureV {
        SignatureV { params: self.params.deep_view(), return_type: self.return_type.deep_view() }
    }
}

impl DeepView for Intrinsic {
    type V = IntrinsicV;

    open spec fn deep_view(&self) -> IntrinsicV {
        IntrinsicV {
            kind: self.kind,
            allowed_in_model: self.allowed_in_model,
            is_pure: self.is_pure,
            requires_unsafe: self.requires_unsafe,
            signature: self.signature.deep_view(),
            link_name: self.link_name@,
            doc: self.doc@,
        }
    }
}

impl DeepView for Constant {
    type V = ConstantV;

    open spec fn deep_view(&self) -> ConstantV {
        ConstantV {
            name: self.name@,
            ty: self.ty.deep_view(),
            value: self.value.deep_view(),
            doc: self.doc@,
        }
    }
}

impl Clone for IntrinsicParam {
    fn clone(&self) -> (r: Self)
        ensures
            r.deep_view() == self.deep_view(),
    {
        match self {
            IntrinsicParam::Value(t) => IntrinsicParam::Value(t.clone()),
            IntrinsicParam::Ref(m, t) => IntrinsicParam::Ref(*m, t.clone()),
            IntrinsicParam::Fn(ps, t) => {
                let u: Type = (**t).clone();
                IntrinsicParam::Fn(clone_types(ps), Box::new(u))
            },
            IntrinsicParam::VarArgs => IntrinsicParam::VarArgs,
        }
    }
}

impl PartialEq for IntrinsicParam {
    fn eq(&self, other: &Self) -> (r: bool) {
        match (self, other) {
            (IntrinsicParam::Value(a), IntrinsicParam::Value(b)) => same_type(a, b),
            (IntrinsicParam::Ref(m, a), IntrinsicParam::Ref(n, b)) => *m == *n && same_type(a, b),
            (IntrinsicParam::Fn(ps, a), IntrinsicParam::Fn(qs, b)) => same_types(ps, qs)
                && same_type(a, b),
            (IntrinsicParam::VarArgs, IntrinsicParam::VarArgs) => true,
            _ => false,
        }
    }
}

impl PartialEqSpecImpl for IntrinsicParam {
    open spec fn obeys_eq_spec() -> bool {
        true
    }

    open spec fn eq_spec(&self, other: &Self) -> bool {
        self.deep_view() == other.deep_view()
    }
}

impl Clone for IntrinsicSignature {
    fn clone(&self) -> (r: Self)
        ensures
            r.deep_view() == self.deep_view(),
    {
        let mut params: Vec<IntrinsicParam> = Vec::new();
        let mut i: usize = 0;
        while i < self.params.len()
            invariant
                i <= self.params.len(),
                params.len() == i,
                forall|j: int|
                    0 <= j < i ==> (#[trigger] params@[j]).deep_view()
                        == self.params@[j].deep_view(),
            decreases self.params.len() - i,
        {
            params.push(self.params[i].clone());
            i = i + 1;
        }
        assert(params.deep_view() =~= self.params.deep_view());
        IntrinsicSignature { params, return_type: self.return_type.clone() }
    }
}

impl Clone for Intrinsic {
    fn clone(&self) -> (r: Self)
        ensures
            r.deep_view() == self.deep_view(),
    {
        Intrinsic {
            kind: self.kind,
            allowed_in_model: self.allowed_in_model,
            is_pure: self.is_pure,
            requires_unsafe: self.requires_unsafe,
            signature: match &self.signature {
                Some(s) => Some(s.clone()),
                None => None,
            },
            link_name: self.link_name,
            doc: self.doc,
        }
    }
}

impl Clone for Constant {
    fn clone(&self) -> (r: Self)
        ensures
            r.deep_view() == self.deep_view(),
    {
        Constant {
            name: self.name,
            ty: self.ty.clone(),
            value: match &self.value {
                Some(v) => Some(v.clone()),
                None => None,
            },
            doc: self.doc,
        }
    }
}

/// The name of a built-in function in source.
pub open spec fn fn_name(f: IntrinsicFn) -> Seq<char> {
    match f {
        IntrinsicFn::Print => "print"@,
        IntrinsicFn::Panic => "panic"@,
        IntrinsicFn::FromUtf8Unchecked => "from_utf8_unchecked"@,
        IntrinsicFn::TensorCond => "tensor.cond"@,
        IntrinsicFn::TensorWhileLoop => "tensor.while_loop"@,
        IntrinsicFn::Linear => "linear"@,
        IntrinsicFn::Conv2d => "conv2d"@,
        IntrinsicFn::MaxPool2d => "max_pool2d"@,
        IntrinsicFn::Flatten => "flatten"@,
        IntrinsicFn::Reshape => "reshape"@,
        IntrinsicFn::Relu => "relu"@,
        IntrinsicFn::Dropout => "dropout"@,
        IntrinsicFn::LayerNorm => "layer_norm"@,
        IntrinsicFn::Sum => "sum"@,
        IntrinsicFn::Embedding => "embedding"@,
    }
}

/// The name of a built-in constant in source.
pub open spec fn const_name(c: IntrinsicConst) -> Seq<char> {
    match c {
        IntrinsicConst::I8Max => "i8::MAX"@,
        IntrinsicConst::I16Max => "i16::MAX"@,
        IntrinsicConst::I32Max => "i32::MAX"@,
        IntrinsicConst::I64Max => "i64::MAX"@,
        IntrinsicConst::I128Max => "i128::MAX"@,
        IntrinsicConst::U8Max => "u8::MAX"@,
        IntrinsicConst::U16Max => "u16::MAX"@,
        IntrinsicConst::U32Max => "u32::MAX"@,
        IntrinsicConst::U64Max => "u64::MAX"@,
        IntrinsicConst::U128Max => "u128::MAX"@,
        IntrinsicConst::F32Infinity => "f32::INFINITY"@,
        IntrinsicConst::F32Nan => "f32::NAN"@,
        IntrinsicConst::F64Infinity => "f64::INFINITY"@,
        IntrinsicConst::F64Nan => "f64::NAN"@,
    }
}

/// The position of a built-in function in the table.
pub open spec fn fn_index(f: IntrinsicFn) -> int {
    match f {
        IntrinsicFn::Print => 0,
        IntrinsicFn::Panic => 1,
        IntrinsicFn::FromUtf8Unchecked => 2,
        IntrinsicFn::TensorCond => 3,
        IntrinsicFn::TensorWhileLoop => 4,
        IntrinsicFn::Linear => 5,
        IntrinsicFn::Conv2d => 6,
        IntrinsicFn::MaxPool2d => 7,
        IntrinsicFn::Flatten => 8,
        IntrinsicFn::Reshape => 9,
        IntrinsicFn::Relu => 10,
        IntrinsicFn::Dropout => 11,
        IntrinsicFn::LayerNorm => 12,
        IntrinsicFn::Sum => 13,
        IntrinsicFn::Embedding => 14,
    }
}

/// The position of a built-in constant in the table.
pub open spec fn const_index(c: IntrinsicConst) -> int {
    match c {
        IntrinsicConst::I8Max => 0,
        IntrinsicConst::I16Max => 1,
        IntrinsicConst::I32Max => 2,
        IntrinsicConst::I64Max => 3,
        IntrinsicConst::I128Max => 4,
        IntrinsicConst::U8Max => 5,
        IntrinsicConst::U16Max => 6,
        IntrinsicConst::U32Max => 7,
        IntrinsicConst::U64Max => 8,
        IntrinsicConst::U128Max => 9,
        IntrinsicConst::F32Infinity => 10,
        IntrinsicConst::F32Nan => 11,
        IntrinsicConst::F64Infinity => 12,
        IntrinsicConst::F64Nan => 13,
    }
}

/// The entry of a tensor function: pure, allowed in models, checked by rules of
/// its own.
pub open spec fn tensor_entry(kind: IntrinsicKind, link_name: Seq<char>, doc: Seq<char>) -> IntrinsicV {
    IntrinsicV {
        kind,
        allowed_in_model: true,
        is_pure: true,
        requires_unsafe: false,
        signature: None,
        link_name,
        doc,
    }
}

/// What is known of each built-in function.
pub open spec fn fn_entry(f: IntrinsicFn) -> IntrinsicV {
    match f {
        IntrinsicFn::Print => IntrinsicV {
            kind: IntrinsicKind::Function,
            allowed_in_model: false,
            is_pure: false,
            requires_unsafe: false,
            signature: Some(
                SignatureV {
                    params: seq![IntrinsicParamV::Value(TypeV::Str)],
                    return_type: TypeV::Unit,
                },
            ),
            link_name: "xiyi::io::print"@,
            doc: "Prints a value to standard output"@,
        },
        IntrinsicFn::Panic => IntrinsicV {
            kind: IntrinsicKind::Function,
            allowed_in_model: false,
            is_pure: false,
            requires_unsafe: false,
            signature: Some(
                SignatureV {
                    params: seq![IntrinsicParamV::Value(TypeV::Str)],
                    return_type: TypeV::Never,
                },
            ),
            link_name: "core::panic"@,
            doc: "Panics with a given message"@,
        },
        IntrinsicFn::FromUtf8Unchecked => IntrinsicV {
            kind: IntrinsicKind::Function,
            allowed_in_model: true,
            is_pure: true,
            requires_unsafe: true,
            signature: Some(
                SignatureV {
                    params: seq![IntrinsicParamV::Ref(false, TypeV::Slice(Box::new(TypeV::U8)))],
                    return_type: TypeV::Ref { mutable: false, inner: Box::new(TypeV::Str) },
                },
            ),
            link_name: "core::str::from_utf8_unchecked"@,
            doc: "Converts &[u8] to &str without validation (unsafe)"@,
        },
        IntrinsicFn::TensorCond => tensor_entry(
            IntrinsicKind::Special,
            "xiyi_tensor::cond"@,
            "Dynamic conditional in graph domain"@,
        ),
        IntrinsicFn::TensorWhileLoop => tensor_entry(
            IntrinsicKind::Special,
            "xiyi_tensor::while_loop"@,
            "Dynamic while loop in graph domain"@,
        ),
        IntrinsicFn::Embedding => tensor_entry(
            IntrinsicKind::Function,
            "xiyi_math::embedding"@,
            "Embedding lookup"@,
        ),
        IntrinsicFn::Linear => tensor_entry(
            IntrinsicKind::Function,
            "xiyi_math::linear"@,
            "Linear transformation"@,
        ),
        IntrinsicFn::Conv2d => tensor_entry(
            IntrinsicKind::Function,
            "xiyi_math::conv2d"@,
            "2D convolution"@,
        ),
        IntrinsicFn::MaxPool2d => tensor_entry(
            IntrinsicKind::Function,
            "xiyi_math::max_pool2d"@,
            "2D max pooling"@,
        ),
        IntrinsicFn::Flatten => tensor_entry(
            IntrinsicKind::Function,
            "xiyi_math::flatten"@,
            "Flatten tensor"@,
        ),
        IntrinsicFn::Reshape => tensor_entry(
            IntrinsicKind::Function,
            "xiyi_math::reshape"@,
            "Reshape tensor"@,
        ),
        IntrinsicFn::Relu => tensor_entry(
            IntrinsicKind::Function,
            "xiyi_math::relu"@,
            "ReLU activation"@,
        ),
        IntrinsicFn::Dropout => tensor_entry(
            IntrinsicKind::Function,
            "xiyi_math::dropout"@,
            "Dropout"@,
        ),
        IntrinsicFn::LayerNorm => tensor_entry(
            IntrinsicKind::Function,
            "xiyi_math::layer_norm"@,
            "Layer normalization"@,
        ),
        IntrinsicFn::Sum => tensor_entry(
            IntrinsicKind::Function,
            "xiyi_math::sum"@,
            "Sum reduction"@,
        ),
    }
}

/// What is known of each built-in constant; none has a value that the compiler
/// folds.
pub open spec fn const_entry(c: IntrinsicConst) -> ConstantV {
    match c {
        IntrinsicConst::I8Max => ConstantV {
            name: "i8::MAX"@,
            ty: TypeV::I8,
            value: None,
            doc: "Maximum value of i8"@,
        },
        IntrinsicConst::I16Max => ConstantV {
            name: "i16::MAX"@,
            ty: TypeV::I16,
            value: None,
            doc: "Maximum value of i16"@,
        },
        IntrinsicConst::I32Max => ConstantV {
            name: "i32::MAX"@,
            ty: TypeV::I32,
            value: None,
            doc: "Maximum value of i32"@,
        },
        IntrinsicConst::I64Max => ConstantV {
            name: "i64::MAX"@,
            ty: TypeV::I64,
            value: None,
            doc: "Maximum value of i64"@,
        },
        IntrinsicConst::I128Max => ConstantV {
            name: "i128::MAX"@,
            ty: TypeV::I128,
            value: None,
            doc: "Maximum value of i128"@,
        },
        IntrinsicConst::U8Max => ConstantV {
            name: "u8::MAX"@,
            ty: TypeV::U8,
            value: None,
            doc: "Maximum value of u8"@,
        },
        IntrinsicConst::U16Max => ConstantV {
            name: "u16::MAX"@,
            ty: TypeV::U16,
            value: None,
            doc: "Maximum value of u16"@,
        },
        IntrinsicConst::U32Max => ConstantV {
            name: "u32::MAX"@,
            ty: TypeV::U32,
            value: None,
            doc: "Maximum value of u32"@,
        },
        IntrinsicConst::U64Max => ConstantV {
            name: "u64::MAX"@,
            ty: TypeV::U64,
            value: None,
            doc: "Maximum value of u64"@,
        },
        IntrinsicConst::U128Max => ConstantV {
            name: "u128::MAX"@,
            ty: TypeV::U128,
            value: None,
            doc: "Maximum value of u128"@,
        },
        IntrinsicConst::F32Infinity => ConstantV {
            name: "f32::INFINITY"@,
            ty: TypeV::F32,
            value: None,
            doc: "Infinity for f32"@,
        },
        IntrinsicConst::F32Nan => ConstantV {
            name: "f32::NAN"@,
            ty: TypeV::F32,
            value: None,
            doc: "NaN for f32"@,
        },
        IntrinsicConst::F64Infinity => ConstantV {
            name: "f64::INFINITY"@,
            ty: TypeV::F64,
            value: None,
            doc: "Infinity for f64"@,
        },
        IntrinsicConst::F64Nan => ConstantV {
            name: "f64::NAN"@,
            ty: TypeV::F64,
            value: None,
            doc: "NaN for f64"@,
        },
    }
}

impl IntrinsicFn {
    /// Every built-in function, in table order.
    pub fn all() -> (r: Vec<IntrinsicFn>)
        ensures
            r.len() == 15,
            forall|f: IntrinsicFn| #[trigger] r@[fn_index(f)] == f,
    {
        vec![
            IntrinsicFn::Print,
            IntrinsicFn::Panic,
            IntrinsicFn::FromUtf8Unchecked,
            IntrinsicFn::TensorCond,
            IntrinsicFn::TensorWhileLoop,
            IntrinsicFn::Linear,
            IntrinsicFn::Conv2d,
            IntrinsicFn::MaxPool2d,
            IntrinsicFn::Flatten,
            IntrinsicFn::Reshape,
            IntrinsicFn::Relu,
            IntrinsicFn::Dropout,
            IntrinsicFn::LayerNorm,
            IntrinsicFn::Sum,
            IntrinsicFn::Embedding,
        ]
    }

    /// The built-in function of the given name, if there is one.
    pub fn from_str(s: &str) -> (r: Option<Self>)
        ensures
            match r {
                Some(f) => s@ == fn_name(f),
                None => forall|f: IntrinsicFn| s@ != #[trigger] fn_name(f),
            },
    {
        if str_eq(s, "print") {
            Some(IntrinsicFn::Print)
        } else if str_eq(s, "panic") {
            Some(IntrinsicFn::Panic)
        } else if str_eq(s, "from_utf8_unchecked") {
            Some(IntrinsicFn::FromUtf8Unchecked)
        } else if str_eq(s, "tensor.cond") {
            Some(IntrinsicFn::TensorCond)
        } else if str_eq(s, "tensor.while_loop") {
            Some(IntrinsicFn::TensorWhileLoop)
        } else if str_eq(s, "linear") {
            Some(IntrinsicFn::Linear)
        } else if str_eq(s, "conv2d") {
            Some(IntrinsicFn::Conv2d)
        } else if str_eq(s, "max_pool2d") {
            Some(IntrinsicFn::MaxPool2d)
        } else if str_eq(s, "flatten") {
            Some(IntrinsicFn::Flatten)
        } else if str_eq(s, "reshape") {
            Some(IntrinsicFn::Reshape)
        } else if str_eq(s, "relu") {
            Some(IntrinsicFn::Relu)
        } else if str_eq(s, "dropout") {
            Some(IntrinsicFn::Dropout)
        } else if str_eq(s, "layer_norm") {
            Some(IntrinsicFn::LayerNorm)
        } else if str_eq(s, "sum") {
            Some(IntrinsicFn::Sum)
        } else if str_eq(s, "embedding") {
            Some(IntrinsicFn::Embedding)
        } else {
            None
        }
    }

    /// The position in the table.
    pub fn index(self) -> (r: usize)
        ensures
            r == fn_index(self),
            r < 15,
    {
        match self {
            IntrinsicFn::Print => 0,
            IntrinsicFn::Panic => 1,
            IntrinsicFn::FromUtf8Unchecked => 2,
            IntrinsicFn::TensorCond => 3,
            IntrinsicFn::TensorWhileLoop => 4,
            IntrinsicFn::Linear => 5,
            IntrinsicFn::Conv2d => 6,
            IntrinsicFn::MaxPool2d => 7,
            IntrinsicFn::Flatten => 8,
            IntrinsicFn::Reshape => 9,
            IntrinsicFn::Relu => 10,
            IntrinsicFn::Dropout => 11,
            IntrinsicFn::LayerNorm => 12,
            IntrinsicFn::Sum => 13,
            IntrinsicFn::Embedding => 14,
        }
    }
}

impl IntrinsicConst {
    /// Every built-in constant, in table order.
    pub fn all() -> (r: Vec<IntrinsicConst>)
        ensures
            r.len() == 14,
            forall|c: IntrinsicConst| #[trigger] r@[const_index(c)] == c,
    {
        vec![
            IntrinsicConst::I8Max,
            IntrinsicConst::I16Max,
            IntrinsicConst::I32Max,
            IntrinsicConst::I64Max,
            IntrinsicConst::I128Max,
            IntrinsicConst::U8Max,
            IntrinsicConst::U16Max,
            IntrinsicConst::U32Max,
            IntrinsicConst::U64Max,
            IntrinsicConst::U128Max,
            IntrinsicConst::F32Infinity,
            IntrinsicConst::F32Nan,
            IntrinsicConst::F64Infinity,
            IntrinsicConst::F64Nan,
        ]
    }

    /// The built-in constant of the given name, if there is one.
    pub fn from_str(s: &str) -> (r: Option<Self>)
        ensures
            match r {
                Some(c) => s@ == const_name(c),
                None => forall|c: IntrinsicConst| s@ != #[trigger] const_name(c),
            },
    {
        if str_eq(s, "i8::MAX") {
            Some(IntrinsicConst::I8Max)
        } else if str_eq(s, "i16::MAX") {
            Some(IntrinsicConst::I16Max)
        } else if str_eq(s, "i32::MAX") {
            Some(IntrinsicConst::I32Max)
        } else if str_eq(s, "i64::MAX") {
            Some(IntrinsicConst::I64Max)
        } else if str_eq(s, "i128::MAX") {
            Some(IntrinsicConst::I128Max)
        } else if str_eq(s, "u8::MAX") {
            Some(IntrinsicConst::U8Max)
        } else if str_eq(s, "u16::MAX") {
            Some(IntrinsicConst::U16Max)
        } else if str_eq(s, "u32::MAX") {
            Some(IntrinsicConst::U32Max)
        } else if str_eq(s, "u64::MAX") {
            Some(IntrinsicConst::U64Max)
        } else if str_eq(s, "u128::MAX") {
            Some(IntrinsicConst::U128Max)
        } else if str_eq(s, "f32::INFINITY") {
            Some(IntrinsicConst::F32Infinity)
        } else if str_eq(s, "f32::NAN") {
            Some(IntrinsicConst::F32Nan)
        } else if str_eq(s, "f64::INFINITY") {
            Some(IntrinsicConst::F64Infinity)
        } else if str_eq(s, "f64::NAN") {
            Some(IntrinsicConst::F64Nan)
        } else {
            None
        }
    }

    /// The position in the table.
    pub fn index(self) -> (r: usize)
        ensures
            r == const_index(self),
            r < 14,
    {
        match self {
            IntrinsicConst::I8Max => 0,
            IntrinsicConst::I16Max => 1,
            IntrinsicConst::I32Max => 2,
            IntrinsicConst::I64Max => 3,
            IntrinsicConst::I128Max => 4,
            IntrinsicConst::U8Max => 5,
            IntrinsicConst::U16Max => 6,
            IntrinsicConst::U32Max => 7,
            IntrinsicConst::U64Max => 8,
            IntrinsicConst::U128Max => 9,
            IntrinsicConst::F32Infinity => 10,
            IntrinsicConst::F32Nan => 11,
            IntrinsicConst::F64Infinity => 12,
            IntrinsicConst::F64Nan => 13,
        }
    }
}

impl Intrinsic {
    /// Whether a call never returns.
    pub fn diverges(&self) -> (r: bool)
        ensures
            r == (self.deep_view().signature matches Some(s) && s.return_type == TypeV::Never),
    {
        match &self.signature {
            Some(sig) => match &sig.return_type {
                Type::Never => true,
                _ => false,
            },
            None => false,
        }
    }
}

impl Constant {
    /// Whether the compiler knows the value.
    pub fn has_known_value(&self) -> (r: bool)
        ensures
            r == (self.deep_view().value is Some),
    {
        self.value.is_some()
    }
}

/// The signature with the given single parameter.
fn signature(param: IntrinsicParam, return_type: Type) -> (r: Option<IntrinsicSignature>)
    ensures
        r.deep_view() == Some(
            SignatureV {
                params: seq![param.deep_view()],
                return_type: return_type.deep_view(),
            },
        ),
{
    let ghost pv = param.deep_view();
    let params: Vec<IntrinsicParam> = vec![param];
    assert(params.deep_view() =~= seq![pv]);
    Some(IntrinsicSignature { params, return_type })
}

/// The entry of a tensor function.
fn tensor_intrinsic(kind: IntrinsicKind, link_name: &'static str, doc: &'static str) -> (r: Option<
    Intrinsic,
>)
    ensures
        r.deep_view() == Some(tensor_entry(kind, link_name@, doc@)),
{
    Some(
        Intrinsic {
            kind,
            allowed_in_model: true,
            is_pure: true,
            requires_unsafe: false,
            signature: None,
            link_name,
            doc,
        },
    )
}

/// The table of built-in functions, in table order; every one has an entry.
fn build_fn_table() -> (r: Vec<Option<Intrinsic>>)
    ensures
        r.len() == 15,
        forall|f: IntrinsicFn|
            (#[trigger] r@[fn_index(f)]).deep_view() == Some(fn_entry(f)),
{
    let mut table: Vec<Option<Intrinsic>> = Vec::new();
    table.push(
        Some(
            Intrinsic {
                kind: IntrinsicKind::Function,
                allowed_in_model: false,
                is_pure: false,
                requires_unsafe: false,
                signature: signature(IntrinsicParam::Value(Type::Str), Type::Unit),
                link_name: "xiyi::io::print",
                doc: "Prints a value to standard output",
            },
        ),
    );
    table.push(
        Some(
            Intrinsic {
                kind: IntrinsicKind::Function,
                allowed_in_model: false,
                is_pure: false,
                requires_unsafe: false,
                signature: signature(IntrinsicParam::Value(Type::Str), Type::Never),
                link_name: "core::panic",
                doc: "Panics with a given message",
            },
        ),
    );
    table.push(
        Some(
            Intrinsic {
                kind: IntrinsicKind::Function,
                allowed_in_model: true,
                is_pure: true,
                requires_unsafe: true,
                signature: signature(
                    IntrinsicParam::Ref(false, Type::Slice(Box::new(Type::U8))),
                    Type::Ref { mutable: false, inner: Box::new(Type::Str) },
                ),
                link_name: "core::str::from_utf8_unchecked",
                doc: "Converts &[u8] to &str without validation (unsafe)",
            },
        ),
    );
    table.push(
        tensor_intrinsic(
            IntrinsicKind::Special,
            "xiyi_tensor::cond",
            "Dynamic conditional in graph domain",
        ),
    );
    table.push(
        tensor_intrinsic(
            IntrinsicKind::Special,
            "xiyi_tensor::while_loop",
            "Dynamic while loop in graph domain",
        ),
    );
    table.push(tensor_intrinsic(IntrinsicKind::Function, "xiyi_math::linear", "Linear transformation"));
    table.push(tensor_intrinsic(IntrinsicKind::Function, "xiyi_math::conv2d", "2D convolution"));
    table.push(tensor_intrinsic(IntrinsicKind::Function, "xiyi_math::max_pool2d", "2D max pooling"));
    table.push(tensor_intrinsic(IntrinsicKind::Function, "xiyi_math::flatten", "Flatten tensor"));
    table.push(tensor_intrinsic(IntrinsicKind::Function, "xiyi_math::reshape", "Reshape tensor"));
    table.push(tensor_intrinsic(IntrinsicKind::Function, "xiyi_math::relu", "ReLU activation"));
    table.push(tensor_intrinsic(IntrinsicKind::Function, "xiyi_math::dropout", "Dropout"));
    table.push(tensor_intrinsic(IntrinsicKind::Function, "xiyi_math::layer_norm", "Layer normalization"));
    table.push(tensor_intrinsic(IntrinsicKind::Function, "xiyi_math::sum", "Sum reduction"));
    table.push(tensor_intrinsic(IntrinsicKind::Function, "xiyi_math::embedding", "Embedding lookup"));
    assert forall|f: IntrinsicFn| (#[trigger] table@[fn_index(f)]).deep_view() == Some(
        fn_entry(f),
    ) by {
        reveal_with_fuel(crate::ast::type_view, 3);
    }
    table
}

/// The entry of a constant.
fn constant(name: &'static str, ty: Type, doc: &'static str) -> (r: Option<Constant>)
    ensures
        r.deep_view() == Some(
            ConstantV { name: name@, ty: ty.deep_view(), value: None, doc: doc@ },
        ),
{
    Some(Constant { name, ty, value: None, doc })
}

/// The table of built-in constants, in table order; every one has an entry.
fn build_const_table() -> (r: Vec<Option<Constant>>)
    ensures
        r.len() == 14,
        forall|c: IntrinsicConst|
            (#[trigger] r@[const_index(c)]).deep_view() == Some(const_entry(c)),
{
    let mut table: Vec<Option<Constant>> = Vec::new();
    table.push(constant("i8::MAX", Type::I8, "Maximum value of i8"));
    table.push(constant("i16::MAX", Type::I16, "Maximum value of i16"));
    table.push(constant("i32::MAX", Type::I32, "Maximum value of i32"));
    table.push(constant("i64::MAX", Type::I64, "Maximum value of i64"));
    table.push(constant("i128::MAX", Type::I128, "Maximum value of i128"));
    table.push(constant("u8::MAX", Type::U8, "Maximum value of u8"));
    table.push(constant("u16::MAX", Type::U16, "Maximum value of u16"));
    table.push(constant("u32::MAX", Type::U32, "Maximum value of u32"));
    table.push(constant("u64::MAX", Type::U64, "Maximum value of u64"));
    table.push(constant("u128::MAX", Type::U128, "Maximum value of u128"));
    table.push(constant("f32::INFINITY", Type::F32, "Infinity for f32"));
    table.push(constant("f32::NAN", Type::F32, "NaN for f32"));
    table.push(constant("f64::INFINITY", Type::F64, "Infinity for f64"));
    table.push(constant("f64::NAN", Type::F64, "NaN for f64"));
    table
}

/// What is known of a built-in function.
pub fn get_intrinsic(name: IntrinsicFn) -> (r: Option<Intrinsic>)
    ensures
        r.deep_view() == Some(fn_entry(name)),
{
    let mut table = build_fn_table();
    let i = name.index();
    assert(table@[fn_index(name)].deep_view() == Some(fn_entry(name)));
    table.swap_remove(i)
}

/// What is known of a built-in constant.
pub fn get_constant(name: IntrinsicConst) -> (r: Option<Constant>)
    ensures
        r.deep_view() == Some(const_entry(name)),
{
    let mut table = build_const_table();
    let i = name.index();
    assert(table@[const_index(name)].deep_view() == Some(const_entry(name)));
    table.swap_remove(i)
}

/// Whether a name is that of a built-in function or constant.
pub fn is_intrinsic(s: &str) -> (r: bool)
    ensures
        r == ((exists|f: IntrinsicFn| s@ == #[trigger] fn_name(f)) || (exists|c: IntrinsicConst|
            s@ == #[trigger] const_name(c))),
{
    IntrinsicFn::from_str(s).is_some() || IntrinsicConst::from_str(s).is_some()
}

/// The name of the constant that a call without qualifier, receiver and
/// arguments refers to, if it refers to one.
pub fn try_resolve_constant_ref(
    qualifier: &Option<String>,
    func: &str,
    is_method: bool,
    arg_count: usize,
) -> (r: Option<&'static str>)
    ensures
        match r {
            Some(n) => n@ == func@,
            None => true,
        },
        r is Some <==> (*qualifier is None && !is_method && arg_count == 0 && exists|
            c: IntrinsicConst,
        | func@ == #[trigger] const_name(c)),
{
    if qualifier.is_some() || is_method || arg_count != 0 {
        return None;
    }
    match IntrinsicConst::from_str(func) {
        Some(name) => match get_constant(name) {
            Some(c) => Some(c.name),
            None => None,
        },
        None => None,
    }
}

/// The complaint about a call of a built-in function: a side effect in a model's
/// forward method, or an unsafe function outside an `unsafe` block.
pub open spec fn call_complaint(f: IntrinsicFn, in_forward: bool, unsafe_depth: usize) -> Option<
    Seq<char>,
> {
    let entry = fn_entry(f);
    if in_forward && !entry.allowed_in_model {
        Some(
            "error[MD001]: side-effect `"@ + fn_name(f)
                + "` is not allowed in model block (forward method)"@,
        )
    } else if entry.requires_unsafe && unsafe_depth == 0 {
        Some(
            "call to unsafe intrinsic `"@ + fn_name(f)
                + "` requires an `unsafe` block or `verify unsafe`"@,
        )
    } else {
        None
    }
}

/// Whether a call names the built-in function `f`: it has neither qualifier nor
/// receiver.
pub open spec fn calls_intrinsic(
    qualifier: Option<String>,
    func: Seq<char>,
    is_method: bool,
    f: IntrinsicFn,
) -> bool {
    qualifier is None && !is_method && func == fn_name(f)
}

/// Which built-in function a call names, if it names one and may be made here.
pub fn resolve_intrinsic_call(
    qualifier: &Option<String>,
    func: &str,
    is_method: bool,
    in_forward: bool,
    unsafe_depth: usize,
    expr_diverges: bool,
) -> (r: Result<(bool, Option<IntrinsicFn>), String>)
    requires
        forall|f: IntrinsicFn| #[trigger]
            calls_intrinsic(*qualifier, func@, is_method, f) && call_complaint(
                f,
                in_forward,
                unsafe_depth,
            ) is None ==> expr_diverges == (fn_entry(f).signature matches Some(s) && s.return_type
                == TypeV::Never),
    ensures
        match r {
            Ok((found, f)) => match f {
                Some(f) => found && calls_intrinsic(*qualifier, func@, is_method, f)
                    && call_complaint(f, in_forward, unsafe_depth) is None,
                None => !found && forall|f: IntrinsicFn|
                    !(#[trigger] calls_intrinsic(*qualifier, func@, is_method, f)),
            },
            Err(e) => exists|f: IntrinsicFn| #[trigger]
                calls_intrinsic(*qualifier, func@, is_method, f) && call_complaint(
                    f,
                    in_forward,
                    unsafe_depth,
                ) == Some(e@),
        },
{
    if qualifier.is_some() || is_method {
        return Ok((false, None));
    }
    let name = match IntrinsicFn::from_str(func) {
        Some(n) => n,
        None => {
            return Ok((false, None));
        },
    };
    let intrinsic = match get_intrinsic(name) {
        Some(i) => i,
        None => {
            return Ok((false, None));
        },
    };
    assert(calls_intrinsic(*qualifier, func@, is_method, name));
    if in_forward && !intrinsic.allowed_in_model {
        return Err(
            cat3(
                "error[MD001]: side-effect `",
                func,
                "` is not allowed in model block (forward method)",
            ),
        );
    }
    if intrinsic.requires_unsafe && unsafe_depth == 0 {
        return Err(
            cat3(
                "call to unsafe intrinsic `",
                func,
                "` requires an `unsafe` block or `verify unsafe`",
            ),
        );
    }
    Ok((true, Some(name)))
}

/// Whether a built-in function is checked by the rules for dynamic control flow.
pub fn is_dynamic_intrinsic(name: IntrinsicFn) -> (r: bool)
    ensures
        r == (name == IntrinsicFn::TensorCond || name == IntrinsicFn::TensorWhileLoop),
{
    match name {
        IntrinsicFn::TensorCond | IntrinsicFn::TensorWhileLoop => true,
        _ => false,
    }
}

} // verus!
