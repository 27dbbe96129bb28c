//! Laws of the built-in functions and constants: no two have one name, and a call
//! of a tensor function keeps the receiver's privacy label.

use vstd::prelude::*;

use crate::ast::{DimV, TagV, TypeV};
use crate::const_eval::int_arg;
use crate::expr::CallArgV;
use crate::intrinsic::{const_name, fn_name, IntrinsicConst, IntrinsicFn};
use crate::intrinsic_check::{call_checked, stripped, CheckedV};

verus! {

/// The length and the first two characters of a name, which tell the built-in names apart.
spec fn mark(s: Seq<char>) -> (nat, char, char) {
    (s.len(), s[0], s[1])
}

/// What marks the name of a built-in function.
spec fn fn_mark(f: IntrinsicFn) -> (nat, char, char) {
    match f {
        IntrinsicFn::Print => (5, 'p', 'r'),
        IntrinsicFn::Panic => (5, 'p', 'a'),
        IntrinsicFn::FromUtf8Unchecked => (19, 'f', 'r'),
        IntrinsicFn::TensorCond => (11, 't', 'e'),
        IntrinsicFn::TensorWhileLoop => (17, 't', 'e'),
        IntrinsicFn::Linear => (6, 'l', 'i'),
        IntrinsicFn::Conv2d => (6, 'c', 'o'),
        IntrinsicFn::MaxPool2d => (10, 'm', 'a'),
        IntrinsicFn::Flatten => (7, 'f', 'l'),
        IntrinsicFn::Reshape => (7, 'r', 'e'),
        IntrinsicFn::Relu => (4, 'r', 'e'),
        IntrinsicFn::Dropout => (7, 'd', 'r'),
        IntrinsicFn::LayerNorm => (10, 'l', 'a'),
        IntrinsicFn::Sum => (3, 's', 'u'),
        IntrinsicFn::Embedding => (9, 'e', 'm'),
    }
}

/// What marks the name of a built-in constant.
spec fn const_mark(c: IntrinsicConst) -> (nat, char, char) {
    match c {
        IntrinsicConst::I8Max => (7, 'i', '8'),
        IntrinsicConst::I16Max => (8, 'i', '1'),
        IntrinsicConst::I32Max => (8, 'i', '3'),
        IntrinsicConst::I64Max => (8, 'i', '6'),
        IntrinsicConst::I128Max => (9, 'i', '1'),
        IntrinsicConst::U8Max => (7, 'u', '8'),
        IntrinsicConst::U16Max => (8, 'u', '1'),
        IntrinsicConst::U32Max => (8, 'u', '3'),
        IntrinsicConst::U64Max => (8, 'u', '6'),
        IntrinsicConst::U128Max => (9, 'u', '1'),
        IntrinsicConst::F32Infinity => (13, 'f', '3'),
        IntrinsicConst::F32Nan => (8, 'f', '3'),
        IntrinsicConst::F64Infinity => (13, 'f', '6'),
        IntrinsicConst::F64Nan => (8, 'f', '6'),
    }
}

proof fn lemma_fn_mark(f: IntrinsicFn)
    ensures
        mark(fn_name(f)) == fn_mark(f),
{
    match f {
        IntrinsicFn::Print => {
            reveal_strlit("print");
        },
        IntrinsicFn::Panic => {
            reveal_strlit("panic");
        },
        IntrinsicFn::FromUtf8Unchecked => {
            reveal_strlit("from_utf8_unchecked");
        },
        IntrinsicFn::TensorCond => {
            reveal_strlit("tensor.cond");
        },
        IntrinsicFn::TensorWhileLoop => {
            reveal_strlit("tensor.while_loop");
        },
        IntrinsicFn::Linear => {
            reveal_strlit("linear");
        },
        IntrinsicFn::Conv2d => {
            reveal_strlit("conv2d");
        },
        IntrinsicFn::MaxPool2d => {
            reveal_strlit("max_pool2d");
        },
        IntrinsicFn::Flatten => {
            reveal_strlit("flatten");
        },
        IntrinsicFn::Reshape => {
            reveal_strlit("reshape");
        },
        IntrinsicFn::Relu => {
            reveal_strlit("relu");
        },
        IntrinsicFn::Dropout => {
            reveal_strlit("dropout");
        },
        IntrinsicFn::LayerNorm => {
            reveal_strlit("layer_norm");
        },
        IntrinsicFn::Sum => {
            reveal_strlit("sum");
        },
        IntrinsicFn::Embedding => {
            reveal_strlit("embedding");
        },
    }
}

proof fn lemma_const_mark(c: IntrinsicConst)
    ensures
        mark(const_name(c)) == const_mark(c),
{
    match c {
        IntrinsicConst::I8Max => {
            reveal_strlit("i8::MAX");
        },
        IntrinsicConst::I16Max => {
            reveal_strlit("i16::MAX");
        },
        IntrinsicConst::I32Max => {
            reveal_strlit("i32::MAX");
        },
        IntrinsicConst::I64Max => {
            reveal_strlit("i64::MAX");
        },
        IntrinsicConst::I128Max => {
            reveal_strlit("i128::MAX");
        },
        IntrinsicConst::U8Max => {
            reveal_strlit("u8::MAX");
        },
        IntrinsicConst::U16Max => {
            reveal_strlit("u16::MAX");
        },
        IntrinsicConst::U32Max => {
            reveal_strlit("u32::MAX");
        },
        IntrinsicConst::U64Max => {
            reveal_strlit("u64::MAX");
        },
        IntrinsicConst::U128Max => {
            reveal_strlit("u128::MAX");
        },
        IntrinsicConst::F32Infinity => {
            reveal_strlit("f32::INFINITY");
        },
        IntrinsicConst::F32Nan => {
            reveal_strlit("f32::NAN");
        },
        IntrinsicConst::F64Infinity => {
            reveal_strlit("f64::INFINITY");
        },
        IntrinsicConst::F64Nan => {
            reveal_strlit("f64::NAN");
        },
    }
}

/// Different built-in functions have different names, so a name finds the function it
/// belongs to.
pub proof fn lemma_fn_names_distinct(f: IntrinsicFn, g: IntrinsicFn)
    requires
        fn_name(f) == fn_name(g),
    ensures
        f == g,
{
    lemma_fn_mark(f);
    lemma_fn_mark(g);
}

/// Different built-in constants have different names.
pub proof fn lemma_const_names_distinct(c: IntrinsicConst, d: IntrinsicConst)
    requires
        const_name(c) == const_name(d),
    ensures
        c == d,
{
    lemma_const_mark(c);
    lemma_const_mark(d);
}

/// No name is that of a built-in function and of a built-in constant.
pub proof fn lemma_names_apart(f: IntrinsicFn, c: IntrinsicConst)
    ensures
        fn_name(f) != const_name(c),
{
    lemma_fn_mark(f);
    lemma_const_mark(c);
}

/// Whether a built-in function works on a tensor and takes no closures.
pub open spec fn on_tensor(f: IntrinsicFn) -> bool {
    match f {
        IntrinsicFn::Print
        | IntrinsicFn::Panic
        | IntrinsicFn::FromUtf8Unchecked
        | IntrinsicFn::TensorCond
        | IntrinsicFn::TensorWhileLoop => false,
        _ => true,
    }
}

/// A call of a tensor function that is accepted has a tensor as its receiver, and the
/// type of the call takes on the receiver's privacy label: no such call drops it.
pub proof fn lemma_label_carried(
    f: IntrinsicFn,
    args: Seq<CallArgV>,
    types: Seq<TypeV>,
    r: CheckedV,
)
    requires
        on_tensor(f),
        call_checked(f, args, types) == Ok::<CheckedV, Seq<char>>(r),
    ensures
        r is Receiver,
        stripped(types[0]) is Tensor,
{
}

/// A privacy label on the receiver makes no difference to whether a call is accepted,
/// nor to what is found of its type.
pub proof fn lemma_label_unread(
    f: IntrinsicFn,
    args: Seq<CallArgV>,
    types: Seq<TypeV>,
    tag: TagV,
    r: CheckedV,
)
    requires
        !(f is TensorCond || f is TensorWhileLoop),
        0 < args.len() == types.len(),
    ensures
        call_checked(f, args, types) == Ok::<CheckedV, Seq<char>>(r) <==> call_checked(
            f,
            args,
            types.update(0, TypeV::Privacy(Box::new(types[0]), tag)),
        ) == Ok::<CheckedV, Seq<char>>(r),
{
    let labelled = types.update(0, TypeV::Privacy(Box::new(types[0]), tag));
    assert(stripped(labelled[0]) == stripped(types[0]));
    if types.len() > 1 {
        assert(labelled[1] == types[1]);
    }
}

/// What an accepted call makes of the receiver's shape: `embedding` adds a dimension,
/// the layers that follow keep the number of dimensions, and `relu`, `dropout` and
/// `layer_norm` keep the type.
pub proof fn lemma_shape_kept(
    f: IntrinsicFn,
    args: Seq<CallArgV>,
    types: Seq<TypeV>,
    dtype: TypeV,
    shape: Seq<DimV>,
    ty: TypeV,
)
    requires
        on_tensor(f),
        stripped(types[0]) == (TypeV::Tensor { dtype: Box::new(dtype), shape }),
        call_checked(f, args, types) == Ok::<CheckedV, Seq<char>>(CheckedV::Receiver(ty)),
    ensures
        f is Relu || f is Dropout || f is LayerNorm ==> ty == stripped(types[0]),
        f is Linear || f is Conv2d || f is MaxPool2d ==> (ty matches TypeV::Tensor {
            dtype: d,
            shape: s,
        } && *d == dtype && s.len() == shape.len()),
        f is Embedding ==> (ty matches TypeV::Tensor { dtype: d, shape: s } && (int_arg(
            args,
            "embedding_dim"@,
        ) matches Ok(n) && n > 0 && s == shape.push(DimV::Const(n as usize)))),
        f is Sum ==> ty is F32,
{
}

} // verus!
