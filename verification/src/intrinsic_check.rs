//! Type rules of the built-in functions.

use vstd::prelude::*;

use crate::ast::{ShapeDim, Type};
use crate::ast::{DimV, TypeV};
use crate::ast::group_type_view;
use crate::calc::lemma_trunc_bounds;
use crate::calc::trunc_div;
use crate::const_eval::{extract_int_arg, get_arg_by_pos_or_name, low_u128};
use crate::const_eval::{arg_fits, in_i64, int_arg, low_bits, placed_arg, told};
use crate::debug::show_type;
use crate::debug::type_debug;
use crate::expr::{CallArg, Expr};
use crate::expr::{CallArgV, ExprV};
use crate::intrinsic::IntrinsicFn;
use crate::text::{cat, cat3, i64_to_string, usize_to_string};
use crate::text::{decimal, decimal_int};

verus! {

/// A call of a built-in function: its arguments, and the type of each.
pub struct CallCtx<'a> {
    pub args: &'a [CallArg],
    pub arg_types: &'a [Type],
}

/// The type of a checked call.
#[derive(Debug)]
pub enum CheckedResult {
    /// The type of the call.
    Plain(Type),
    /// The type of the call but for the privacy label of the receiver, which the
    /// caller adds.
    Receiver(Type),
}

/// Model of a `CheckedResult`.
pub enum CheckedV {
    Plain(TypeV),
    Receiver(TypeV),
}

impl DeepView for CheckedResult {
    type V = CheckedV;

    open spec fn deep_view(&self) -> CheckedV {
        match *self {
            CheckedResult::Plain(t) => CheckedV::Plain(t.deep_view()),
            CheckedResult::Receiver(t) => CheckedV::Receiver(t.deep_view()),
        }
    }
}

/// A type without its privacy labels, behind references too.
pub open spec fn stripped(t: TypeV) -> TypeV
    decreases t,
{
    match t {
        TypeV::Privacy(inner, _) => stripped(*inner),
        TypeV::Ref { mutable, inner } => TypeV::Ref { mutable, inner: Box::new(stripped(*inner)) },
        _ => t,
    }
}

/// The complaint that an argument has the type `t`.
pub open spec fn got(what: Seq<char>, t: TypeV) -> Result<CheckedV, Seq<char>> {
    Err(what + type_debug(t))
}

/// The complaint that a parameter has the value `v`.
pub open spec fn got_value(what: Seq<char>, v: int) -> Result<CheckedV, Seq<char>> {
    Err(what + decimal_int(v))
}

/// The type of a call of `panic`.
pub open spec fn panic_checked(args: Seq<CallArgV>, types: Seq<TypeV>) -> Result<
    CheckedV,
    Seq<char>,
> {
    if args.len() != 1 {
        Err("`panic` expects exactly 1 argument (a message)"@)
    } else if stripped(types[0]) != TypeV::Str {
        got("`panic` expects a string argument, got "@, types[0])
    } else {
        Ok(CheckedV::Plain(TypeV::Never))
    }
}

/// The type `&[u8]`.
pub open spec fn bytes_type() -> TypeV {
    TypeV::Ref { mutable: false, inner: Box::new(TypeV::Slice(Box::new(TypeV::U8))) }
}

/// The type of a call of `from_utf8_unchecked`.
pub open spec fn from_utf8_checked(args: Seq<CallArgV>, types: Seq<TypeV>) -> Result<
    CheckedV,
    Seq<char>,
> {
    if args.len() != 1 {
        Err("`from_utf8_unchecked` expects exactly 1 argument"@)
    } else if stripped(types[0]) != bytes_type() {
        got("`from_utf8_unchecked` expects &[u8], got "@, types[0])
    } else {
        Ok(CheckedV::Plain(TypeV::Ref { mutable: false, inner: Box::new(TypeV::Str) }))
    }
}

/// The type of a call of `embedding`: the receiver's shape with one more
/// dimension.
pub open spec fn embedding_checked(args: Seq<CallArgV>, types: Seq<TypeV>) -> Result<
    CheckedV,
    Seq<char>,
> {
    if args.len() < 2 {
        Err("embedding requires at least two arguments"@)
    } else {
        match int_arg(args, "num_embeddings"@) {
            Err(e) => Err(e),
            Ok(_) => match int_arg(args, "embedding_dim"@) {
                Err(e) => Err(e),
                Ok(d) => if d <= 0 {
                    got_value("embedding `embedding_dim` must be positive, got "@, d)
                } else {
                    match stripped(types[0]) {
                        TypeV::Tensor { dtype, shape } => Ok(
                            CheckedV::Receiver(
                                TypeV::Tensor {
                                    dtype: Box::new(TypeV::F32),
                                    shape: shape.push(DimV::Const(d as usize)),
                                },
                            ),
                        ),
                        _ => got("embedding expects a tensor, got "@, types[0]),
                    }
                },
            },
        }
    }
}

/// The type of a call of `linear`: the last dimension goes from `in` to `out`.
pub open spec fn linear_checked(args: Seq<CallArgV>, types: Seq<TypeV>) -> Result<
    CheckedV,
    Seq<char>,
> {
    if args.len() < 2 {
        Err("linear requires at least two arguments"@)
    } else {
        match int_arg(args, "in"@) {
            Err(e) => Err(e),
            Ok(i) => match int_arg(args, "out"@) {
                Err(e) => Err(e),
                Ok(o) => if i <= 0 {
                    got_value("linear `in` must be positive, got "@, i)
                } else if o <= 0 {
                    got_value("linear `out` must be positive, got "@, o)
                } else {
                    match stripped(types[0]) {
                        TypeV::Tensor { dtype, shape } => if shape.len() == 0 {
                            Err("tensor must have at least one dimension for linear"@)
                        } else {
                            match shape.last() {
                                DimV::Const(c) if c != i as usize => Err(
                                    "shape mismatch in linear: input last dim "@ + decimal(
                                        c as nat,
                                    ) + " does not match 'in' value "@ + decimal_int(i),
                                ),
                                _ => Ok(
                                    CheckedV::Receiver(
                                        TypeV::Tensor {
                                            dtype,
                                            shape: shape.update(
                                                shape.len() - 1,
                                                DimV::Const(o as usize),
                                            ),
                                        },
                                    ),
                                ),
                            }
                        },
                        _ => got("linear expects a tensor, got "@, types[0]),
                    }
                },
            },
        }
    }
}

/// The constant given for an optional parameter, or its default.
pub open spec fn int_arg_or(args: Seq<CallArgV>, name: Seq<char>, default: int) -> int {
    match int_arg(args, name) {
        Ok(v) => v,
        Err(_) => default,
    }
}

/// The size of a dimension as a 64-bit signed integer.
pub open spec fn dim_size(c: usize) -> int {
    low_bits(c as int)
}

/// How many windows of `kernel` elements, `stride` apart, fit into `size` elements
/// with `padding` more on each side.
pub open spec fn windows(size: int, kernel: int, stride: int, padding: int) -> int {
    trunc_div(size + 2 * padding - kernel, stride) + 1
}

/// Whether the steps of that computation are 64-bit signed integers.
pub open spec fn windows_fit(size: int, kernel: int, stride: int, padding: int) -> bool {
    &&& in_i64(2 * padding)
    &&& in_i64(size + 2 * padding)
    &&& in_i64(size + 2 * padding - kernel)
    &&& in_i64(windows(size, kernel, stride, padding))
}

/// The dimension that is left of `d` after sliding a window over it; nothing where
/// no window fits.
pub open spec fn slid(d: DimV, kernel: int, stride: int, padding: int) -> Option<DimV> {
    match d {
        DimV::Const(c) => {
            let n = windows(dim_size(c), kernel, stride, padding);
            if n <= 0 {
                None
            } else {
                Some(DimV::Const(n as usize))
            }
        },
        _ => Some(DimV::Dyn),
    }
}

/// Whether the size of that dimension can be computed.
pub open spec fn slid_fits(d: DimV, kernel: int, stride: int, padding: int) -> bool {
    d matches DimV::Const(c) ==> windows_fit(dim_size(c), kernel, stride, padding)
}

/// The type of a call of `conv2d`: `out` channels, and the windows of the kernel
/// over height and width.
pub open spec fn conv2d_checked(args: Seq<CallArgV>, types: Seq<TypeV>) -> Result<
    CheckedV,
    Seq<char>,
> {
    if args.len() < 2 {
        Err("conv2d requires at least 2 arguments"@)
    } else {
        match stripped(types[0]) {
            TypeV::Tensor { dtype, shape } => if shape.len() != 3 && shape.len() != 4 {
                Err("conv2d expects 3D [C, H, W] or 4D [B, C, H, W] tensor"@)
            } else {
                match int_arg(args, "in"@) {
                    Err(e) => Err(e),
                    Ok(_) => match int_arg(args, "out"@) {
                        Err(e) => Err(e),
                        Ok(o) => match int_arg(args, "kernel"@) {
                            Err(e) => Err(e),
                            Ok(k) => conv2d_shaped(
                                *dtype,
                                shape,
                                o,
                                k,
                                int_arg_or(args, "stride"@, 1),
                                int_arg_or(args, "padding"@, 0),
                            ),
                        },
                    },
                }
            },
            _ => got("conv2d expects a tensor, got "@, types[0]),
        }
    }
}

/// The type of a call of `conv2d` with the given parameters.
pub open spec fn conv2d_shaped(
    dtype: TypeV,
    shape: Seq<DimV>,
    out: int,
    kernel: int,
    stride: int,
    padding: int,
) -> Result<CheckedV, Seq<char>> {
    let c = shape.len() - 3;
    if out <= 0 {
        got_value("conv2d `out` must be positive, got "@, out)
    } else if kernel <= 0 {
        got_value("conv2d `kernel` must be positive, got "@, kernel)
    } else if stride <= 0 {
        got_value("conv2d `stride` must be positive, got "@, stride)
    } else if padding < 0 {
        got_value("conv2d `padding` must be non-negative, got "@, padding)
    } else {
        match slid(shape[c + 1], kernel, stride, padding) {
            None => Err("conv2d output height non-positive"@),
            Some(h) => match slid(shape[c + 2], kernel, stride, padding) {
                None => Err("conv2d output width non-positive"@),
                Some(w) => Ok(
                    CheckedV::Receiver(
                        TypeV::Tensor {
                            dtype: Box::new(dtype),
                            shape: shape.update(c, DimV::Const(out as usize)).update(
                                c + 1,
                                h,
                            ).update(c + 2, w),
                        },
                    ),
                ),
            },
        }
    }
}

/// The type of a call of `max_pool2d`: the windows of the kernel over height and
/// width.
pub open spec fn max_pool2d_checked(args: Seq<CallArgV>, types: Seq<TypeV>) -> Result<
    CheckedV,
    Seq<char>,
> {
    if args.len() == 0 {
        Err("max_pool2d requires at least 1 argument"@)
    } else {
        match int_arg(args, "kernel"@) {
            Err(e) => Err(e),
            Ok(k) => {
                let s = int_arg_or(args, "stride"@, k);
                if k <= 0 {
                    got_value("max_pool2d `kernel` must be positive, got "@, k)
                } else if s <= 0 {
                    got_value("max_pool2d `stride` must be positive, got "@, s)
                } else {
                    match stripped(types[0]) {
                        TypeV::Tensor { dtype, shape } => {
                            let h = shape.len() - 2;
                            if shape.len() != 3 && shape.len() != 4 {
                                Err("max_pool2d expects 3D or 4D tensor"@)
                            } else {
                                match slid(shape[h], k, s, 0) {
                                    None => Err("max_pool2d output height non-positive"@),
                                    Some(ho) => match slid(shape[h + 1], k, s, 0) {
                                        None => Err("max_pool2d output width non-positive"@),
                                        Some(wo) => Ok(
                                            CheckedV::Receiver(
                                                TypeV::Tensor {
                                                    dtype,
                                                    shape: shape.update(h, ho).update(h + 1, wo),
                                                },
                                            ),
                                        ),
                                    },
                                }
                            }
                        },
                        _ => got("max_pool2d expects a tensor, got "@, types[0]),
                    }
                }
            },
        }
    }
}

/// Whether every dimension is a constant.
pub open spec fn all_const(shape: Seq<DimV>) -> bool {
    forall|i: int| 0 <= i < shape.len() ==> (#[trigger] shape[i]) is Const
}

/// The number of elements of a constant shape.
pub open spec fn elements(shape: Seq<DimV>) -> nat
    decreases shape.len(),
{
    if shape.len() == 0 {
        1
    } else {
        match shape.last() {
            DimV::Const(c) => elements(shape.drop_last()) * (c as nat),
            _ => 0,
        }
    }
}

/// Whether the number of elements of each constant front part of a shape is a
/// `usize`.
pub open spec fn elements_fit(shape: Seq<DimV>) -> bool {
    forall|n: int|
        0 <= n <= shape.len() && all_const(#[trigger] shape.take(n)) ==> elements(shape.take(n))
            <= usize::MAX
}

/// The type of a call of `flatten`: one dimension where all are constants.
pub open spec fn flatten_checked(args: Seq<CallArgV>, types: Seq<TypeV>) -> Result<
    CheckedV,
    Seq<char>,
> {
    if args.len() == 0 {
        Err("flatten requires at least 1 argument"@)
    } else {
        match stripped(types[0]) {
            TypeV::Tensor { dtype, shape } => Ok(
                CheckedV::Receiver(
                    TypeV::Tensor {
                        dtype,
                        shape: if all_const(shape) {
                            seq![DimV::Const(elements(shape) as usize)]
                        } else {
                            shape
                        },
                    },
                ),
            ),
            _ => got("flatten expects a tensor, got "@, types[0]),
        }
    }
}

/// The first negative value.
pub open spec fn first_negative(vs: Seq<i64>) -> Option<i64>
    decreases vs.len(),
{
    if vs.len() == 0 {
        None
    } else if vs[0] < 0 {
        Some(vs[0])
    } else {
        first_negative(vs.drop_first())
    }
}

/// The constant dimensions with the given sizes.
pub open spec fn const_dims(vs: Seq<i64>) -> Seq<DimV> {
    Seq::new(vs.len(), |i: int| DimV::Const(vs[i] as usize))
}

/// The type of a call of `reshape`: the given shape.
pub open spec fn reshape_checked(args: Seq<CallArgV>, types: Seq<TypeV>) -> Result<
    CheckedV,
    Seq<char>,
> {
    if args.len() < 2 {
        Err("reshape requires target shape"@)
    } else {
        match types[1] {
            TypeV::ConstIntArray(vs) => match first_negative(vs) {
                Some(v) => got_value(
                    "reshape target dimension must be non-negative, got "@,
                    v as int,
                ),
                None => match stripped(types[0]) {
                    TypeV::Tensor { dtype, shape } => Ok(
                        CheckedV::Receiver(TypeV::Tensor { dtype, shape: const_dims(vs) }),
                    ),
                    _ => Err("reshape expects a tensor"@),
                },
            },
            _ => Err("reshape expects a constant integer array for shape"@),
        }
    }
}

/// The type of a call of `relu`, `dropout` or `layer_norm`: that of the receiver.
pub open spec fn passthrough_checked(args: Seq<CallArgV>, types: Seq<TypeV>) -> Result<
    CheckedV,
    Seq<char>,
> {
    if args.len() == 0 {
        Err("passthrough intrinsic requires at least 1 argument"@)
    } else if stripped(types[0]) is Tensor {
        Ok(CheckedV::Receiver(stripped(types[0])))
    } else {
        got("expects a tensor, got "@, types[0])
    }
}

/// The type of a call of `sum`.
pub open spec fn sum_checked(args: Seq<CallArgV>, types: Seq<TypeV>) -> Result<
    CheckedV,
    Seq<char>,
> {
    if args.len() == 0 {
        Err("sum requires at least 1 argument"@)
    } else if stripped(types[0]) is Tensor {
        Ok(CheckedV::Receiver(TypeV::F32))
    } else {
        got("sum expects a tensor, got "@, types[0])
    }
}

/// The type of a call of a built-in function.
pub open spec fn call_checked(f: IntrinsicFn, args: Seq<CallArgV>, types: Seq<TypeV>) -> Result<
    CheckedV,
    Seq<char>,
> {
    match f {
        IntrinsicFn::Print => Ok(CheckedV::Plain(TypeV::Unit)),
        IntrinsicFn::Panic => panic_checked(args, types),
        IntrinsicFn::FromUtf8Unchecked => from_utf8_checked(args, types),
        IntrinsicFn::TensorCond | IntrinsicFn::TensorWhileLoop => arbitrary(),
        IntrinsicFn::Embedding => embedding_checked(args, types),
        IntrinsicFn::Linear => linear_checked(args, types),
        IntrinsicFn::Conv2d => conv2d_checked(args, types),
        IntrinsicFn::MaxPool2d => max_pool2d_checked(args, types),
        IntrinsicFn::Flatten => flatten_checked(args, types),
        IntrinsicFn::Reshape => reshape_checked(args, types),
        IntrinsicFn::Relu | IntrinsicFn::Dropout | IntrinsicFn::LayerNorm => passthrough_checked(
            args,
            types,
        ),
        IntrinsicFn::Sum => sum_checked(args, types),
    }
}

/// Whether two parameters, read in turn, can be evaluated.
pub open spec fn two_fit(args: Seq<CallArgV>, first: Seq<char>, second: Seq<char>) -> bool {
    arg_fits(args, first) && (int_arg(args, first) is Ok ==> arg_fits(args, second))
}

/// Whether the arithmetic of a call of `conv2d` stays within 64 bits.
pub open spec fn conv2d_fits(args: Seq<CallArgV>, types: Seq<TypeV>) -> bool {
    stripped(types[0]) matches TypeV::Tensor { dtype, shape } ==> (shape.len() == 3 || shape.len()
        == 4) ==> {
        &&& two_fit(args, "in"@, "out"@)
        &&& int_arg(args, "in"@) is Ok && int_arg(args, "out"@) is Ok ==> {
            &&& arg_fits(args, "kernel"@)
            &&& int_arg(args, "kernel"@) matches Ok(k) ==> {
                let s = int_arg_or(args, "stride"@, 1);
                let p = int_arg_or(args, "padding"@, 0);
                &&& arg_fits(args, "stride"@)
                &&& arg_fits(args, "padding"@)
                &&& int_arg(args, "out"@)->Ok_0 > 0 && k > 0 && s > 0 && p >= 0 ==> {
                    &&& slid_fits(shape[shape.len() - 2], k, s, p)
                    &&& slid(shape[shape.len() - 2], k, s, p) is Some ==> slid_fits(
                        shape[shape.len() - 1],
                        k,
                        s,
                        p,
                    )
                }
            }
        }
    }
}

/// Whether the arithmetic of a call of `max_pool2d` stays within 64 bits.
pub open spec fn max_pool2d_fits(args: Seq<CallArgV>, types: Seq<TypeV>) -> bool {
    &&& arg_fits(args, "kernel"@)
    &&& int_arg(args, "kernel"@) matches Ok(k) ==> k > 0 ==> {
        let s = int_arg_or(args, "stride"@, k);
        &&& arg_fits(args, "stride"@)
        &&& s > 0 ==> (stripped(types[0]) matches TypeV::Tensor { dtype, shape } ==> (shape.len()
            == 3 || shape.len() == 4) ==> {
            &&& slid_fits(shape[shape.len() - 2], k, s, 0)
            &&& slid(shape[shape.len() - 2], k, s, 0) is Some ==> slid_fits(
                shape[shape.len() - 1],
                k,
                s,
                0,
            )
        })
    }
}

/// Whether a call can be checked: it is not one of dynamic control flow, the types
/// that its rule reads are there, and its arithmetic does not overflow.
pub open spec fn call_ready(f: IntrinsicFn, args: Seq<CallArgV>, types: Seq<TypeV>) -> bool {
    match f {
        IntrinsicFn::Print => true,
        IntrinsicFn::Panic | IntrinsicFn::FromUtf8Unchecked => args.len() == 1 ==> types.len() >= 1,
        IntrinsicFn::TensorCond | IntrinsicFn::TensorWhileLoop => false,
        IntrinsicFn::Embedding => args.len() >= 2 ==> types.len() >= 1 && two_fit(
            args,
            "num_embeddings"@,
            "embedding_dim"@,
        ),
        IntrinsicFn::Linear => args.len() >= 2 ==> types.len() >= 1 && two_fit(
            args,
            "in"@,
            "out"@,
        ),
        IntrinsicFn::Conv2d => args.len() >= 2 ==> types.len() >= 1 && conv2d_fits(args, types),
        IntrinsicFn::MaxPool2d => args.len() >= 1 ==> types.len() >= 1 && max_pool2d_fits(
            args,
            types,
        ),
        IntrinsicFn::Flatten => args.len() >= 1 ==> types.len() >= 1 && (stripped(
            types[0],
        ) matches TypeV::Tensor { dtype, shape } ==> elements_fit(shape)),
        IntrinsicFn::Reshape => args.len() >= 2 ==> types.len() >= 2,
        IntrinsicFn::Relu | IntrinsicFn::Dropout | IntrinsicFn::LayerNorm | IntrinsicFn::Sum =>
        args.len() >= 1 ==> types.len() >= 1,
    }
}

/// A type without its privacy labels.
pub fn strip_privacy_type(ty: &Type) -> (r: Type)
    ensures
        r.deep_view() == stripped(ty.deep_view()),
    decreases ty,
{
    broadcast use group_type_view;

    match ty {
        Type::Privacy(inner, _) => strip_privacy_type(inner),
        Type::Ref { mutable, inner } => Type::Ref {
            mutable: *mutable,
            inner: Box::new(strip_privacy_type(inner)),
        },
        _ => ty.clone(),
    }
}

/// The complaint that an argument has the given type.
fn got_type(what: &str, t: &Type) -> (r: Result<CheckedResult, String>)
    ensures
        told(r) == got(what@, t.deep_view()),
{
    Err(cat(what, show_type(t).as_str()))
}

/// The complaint that a parameter has the given value.
fn got_number(what: &str, v: i64) -> (r: Result<CheckedResult, String>)
    ensures
        told(r) == got_value(what@, v as int),
{
    Err(cat(what, i64_to_string(v).as_str()))
}

/// The given complaint.
fn complain(what: &str) -> (r: Result<CheckedResult, String>)
    ensures
        told(r) == Err::<CheckedV, Seq<char>>(what@),
{
    Err(what.to_owned())
}

fn check_panic(ctx: &CallCtx) -> (r: Result<CheckedResult, String>)
    requires
        call_ready(IntrinsicFn::Panic, ctx.args.deep_view(), ctx.arg_types.deep_view()),
    ensures
        told(r) == panic_checked(ctx.args.deep_view(), ctx.arg_types.deep_view()),
{
    if ctx.args.len() != 1 {
        return complain("`panic` expects exactly 1 argument (a message)");
    }
    let is_str = match strip_privacy_type(&ctx.arg_types[0]) {
        Type::Str => true,
        _ => false,
    };
    if !is_str {
        return got_type("`panic` expects a string argument, got ", &ctx.arg_types[0]);
    }
    Ok(CheckedResult::Plain(Type::Never))
}

fn check_from_utf8_unchecked(ctx: &CallCtx) -> (r: Result<CheckedResult, String>)
    requires
        call_ready(IntrinsicFn::FromUtf8Unchecked, ctx.args.deep_view(), ctx.arg_types.deep_view()),
    ensures
        told(r) == from_utf8_checked(ctx.args.deep_view(), ctx.arg_types.deep_view()),
{
    if ctx.args.len() != 1 {
        return complain("`from_utf8_unchecked` expects exactly 1 argument");
    }
    proof {
        reveal_with_fuel(crate::ast::type_view, 3);
    }
    let expected = Type::Ref { mutable: false, inner: Box::new(Type::Slice(Box::new(Type::U8))) };
    if strip_privacy_type(&ctx.arg_types[0]) != expected {
        return got_type("`from_utf8_unchecked` expects &[u8], got ", &ctx.arg_types[0]);
    }
    Ok(CheckedResult::Plain(Type::Ref { mutable: false, inner: Box::new(Type::Str) }))
}

fn check_embedding(ctx: &CallCtx) -> (r: Result<CheckedResult, String>)
    requires
        call_ready(IntrinsicFn::Embedding, ctx.args.deep_view(), ctx.arg_types.deep_view()),
    ensures
        told(r) == embedding_checked(ctx.args.deep_view(), ctx.arg_types.deep_view()),
{
    if ctx.args.len() < 2 {
        return complain("embedding requires at least two arguments");
    }
    match extract_int_arg(ctx.args, "num_embeddings") {
        Ok(_) => {},
        Err(e) => {
            return Err(e);
        },
    }
    let dim: i64 = match extract_int_arg(ctx.args, "embedding_dim") {
        Ok(v) => v,
        Err(e) => {
            return Err(e);
        },
    };
    if dim <= 0 {
        return got_number("embedding `embedding_dim` must be positive, got ", dim);
    }
    match strip_privacy_type(&ctx.arg_types[0]) {
        Type::Tensor { dtype: _, shape } => {
            let ghost sv = shape.deep_view();
            let mut new_shape = shape;
            new_shape.push(ShapeDim::Const(dim as usize));
            assert(new_shape.deep_view() =~= sv.push(DimV::Const(dim as usize)));
            proof {
                reveal_with_fuel(crate::ast::type_view, 2);
            }
            Ok(
                CheckedResult::Receiver(
                    Type::Tensor { dtype: Box::new(Type::F32), shape: new_shape },
                ),
            )
        },
        _ => got_type("embedding expects a tensor, got ", &ctx.arg_types[0]),
    }
}

fn check_linear(ctx: &CallCtx) -> (r: Result<CheckedResult, String>)
    requires
        call_ready(IntrinsicFn::Linear, ctx.args.deep_view(), ctx.arg_types.deep_view()),
    ensures
        told(r) == linear_checked(ctx.args.deep_view(), ctx.arg_types.deep_view()),
{
    if ctx.args.len() < 2 {
        return complain("linear requires at least two arguments");
    }
    let in_val: i64 = match extract_int_arg(ctx.args, "in") {
        Ok(v) => v,
        Err(e) => {
            return Err(e);
        },
    };
    let out_val: i64 = match extract_int_arg(ctx.args, "out") {
        Ok(v) => v,
        Err(e) => {
            return Err(e);
        },
    };
    if in_val <= 0 {
        return got_number("linear `in` must be positive, got ", in_val);
    }
    if out_val <= 0 {
        return got_number("linear `out` must be positive, got ", out_val);
    }
    match strip_privacy_type(&ctx.arg_types[0]) {
        Type::Tensor { dtype, shape } => {
            let n = shape.len();
            if n == 0 {
                return complain("tensor must have at least one dimension for linear");
            }
            let ghost sv = shape.deep_view();
            if let ShapeDim::Const(c) = &shape[n - 1] {
                if *c != in_val as usize {
                    let mut s = cat3(
                        "shape mismatch in linear: input last dim ",
                        usize_to_string(*c).as_str(),
                        " does not match 'in' value ",
                    );
                    s.append(i64_to_string(in_val).as_str());
                    return Err(s);
                }
            }
            let mut new_shape = shape;
            new_shape[n - 1] = ShapeDim::Const(out_val as usize);
            assert(new_shape.deep_view() =~= sv.update(n - 1, DimV::Const(out_val as usize)));
            Ok(CheckedResult::Receiver(Type::Tensor { dtype, shape: new_shape }))
        },
        _ => got_type("linear expects a tensor, got ", &ctx.arg_types[0]),
    }
}

/// The constant given for an optional parameter, or its default.
fn extract_int_arg_or(args: &[CallArg], name: &str, default: i64) -> (r: i64)
    requires
        arg_fits(args.deep_view(), name@),
    ensures
        r == int_arg_or(args.deep_view(), name@, default as int),
{
    match extract_int_arg(args, name) {
        Ok(v) => v,
        Err(_) => default,
    }
}

/// The dimension that is left of `d` after sliding a window over it.
fn slide(d: &ShapeDim, kernel: i64, stride: i64, padding: i64) -> (r: Option<ShapeDim>)
    requires
        stride > 0,
        slid_fits(d.deep_view(), kernel as int, stride as int, padding as int),
    ensures
        r.deep_view() == slid(d.deep_view(), kernel as int, stride as int, padding as int),
{
    match d {
        ShapeDim::Const(c) => {
            let size: i64 = low_u128(*c as u128);
            let span: i64 = size + 2 * padding - kernel;
            proof {
                lemma_trunc_bounds(span as int, stride as int);
            }
            match span.checked_div(stride) {
                Some(q) => {
                    assert(q == trunc_div(span as int, stride as int));
                    let n: i64 = q + 1;
                    if n <= 0 {
                        None
                    } else {
                        Some(ShapeDim::Const(n as usize))
                    }
                },
                None => {
                    assert(false);
                    None
                },
            }
        },
        _ => Some(ShapeDim::Dyn),
    }
}

fn check_conv2d(ctx: &CallCtx) -> (r: Result<CheckedResult, String>)
    requires
        call_ready(IntrinsicFn::Conv2d, ctx.args.deep_view(), ctx.arg_types.deep_view()),
    ensures
        told(r) == conv2d_checked(ctx.args.deep_view(), ctx.arg_types.deep_view()),
{
    if ctx.args.len() < 2 {
        return complain("conv2d requires at least 2 arguments");
    }
    let (dtype, shape) = match strip_privacy_type(&ctx.arg_types[0]) {
        Type::Tensor { dtype, shape } => (dtype, shape),
        _ => {
            return got_type("conv2d expects a tensor, got ", &ctx.arg_types[0]);
        },
    };
    if shape.len() != 3 && shape.len() != 4 {
        return complain("conv2d expects 3D [C, H, W] or 4D [B, C, H, W] tensor");
    }
    let c_idx: usize = shape.len() - 3;
    match extract_int_arg(ctx.args, "in") {
        Ok(_) => {},
        Err(e) => {
            return Err(e);
        },
    }
    let out_channels: i64 = match extract_int_arg(ctx.args, "out") {
        Ok(v) => v,
        Err(e) => {
            return Err(e);
        },
    };
    let kernel: i64 = match extract_int_arg(ctx.args, "kernel") {
        Ok(v) => v,
        Err(e) => {
            return Err(e);
        },
    };
    let stride: i64 = extract_int_arg_or(ctx.args, "stride", 1);
    let padding: i64 = extract_int_arg_or(ctx.args, "padding", 0);
    if out_channels <= 0 {
        return got_number("conv2d `out` must be positive, got ", out_channels);
    }
    if kernel <= 0 {
        return got_number("conv2d `kernel` must be positive, got ", kernel);
    }
    if stride <= 0 {
        return got_number("conv2d `stride` must be positive, got ", stride);
    }
    if padding < 0 {
        return got_number("conv2d `padding` must be non-negative, got ", padding);
    }
    let ghost sv = shape.deep_view();
    assert(sv[c_idx + 1] == shape@[c_idx + 1].deep_view());
    assert(sv[c_idx + 2] == shape@[c_idx + 2].deep_view());
    let h_out = match slide(&shape[c_idx + 1], kernel, stride, padding) {
        Some(d) => d,
        None => {
            return complain("conv2d output height non-positive");
        },
    };
    let w_out = match slide(&shape[c_idx + 2], kernel, stride, padding) {
        Some(d) => d,
        None => {
            return complain("conv2d output width non-positive");
        },
    };
    let ghost hv = h_out.deep_view();
    let ghost wv = w_out.deep_view();
    let mut new_shape = shape;
    new_shape[c_idx] = ShapeDim::Const(out_channels as usize);
    new_shape[c_idx + 1] = h_out;
    new_shape[c_idx + 2] = w_out;
    assert(new_shape.deep_view() =~= sv.update(
        c_idx as int,
        DimV::Const(out_channels as usize),
    ).update(c_idx + 1, hv).update(c_idx + 2, wv));
    Ok(CheckedResult::Receiver(Type::Tensor { dtype, shape: new_shape }))
}

fn check_max_pool2d(ctx: &CallCtx) -> (r: Result<CheckedResult, String>)
    requires
        call_ready(IntrinsicFn::MaxPool2d, ctx.args.deep_view(), ctx.arg_types.deep_view()),
    ensures
        told(r) == max_pool2d_checked(ctx.args.deep_view(), ctx.arg_types.deep_view()),
{
    if ctx.args.len() == 0 {
        return complain("max_pool2d requires at least 1 argument");
    }
    let kernel: i64 = match extract_int_arg(ctx.args, "kernel") {
        Ok(v) => v,
        Err(e) => {
            return Err(e);
        },
    };
    if kernel <= 0 {
        return got_number("max_pool2d `kernel` must be positive, got ", kernel);
    }
    let stride: i64 = extract_int_arg_or(ctx.args, "stride", kernel);
    if stride <= 0 {
        return got_number("max_pool2d `stride` must be positive, got ", stride);
    }
    match strip_privacy_type(&ctx.arg_types[0]) {
        Type::Tensor { dtype, shape } => {
            if shape.len() != 3 && shape.len() != 4 {
                return complain("max_pool2d expects 3D or 4D tensor");
            }
            let h_idx: usize = shape.len() - 2;
            let ghost sv = shape.deep_view();
            assert(sv[h_idx as int] == shape@[h_idx as int].deep_view());
            assert(sv[h_idx + 1] == shape@[h_idx + 1].deep_view());
            let h_out = match slide(&shape[h_idx], kernel, stride, 0) {
                Some(d) => d,
                None => {
                    return complain("max_pool2d output height non-positive");
                },
            };
            let w_out = match slide(&shape[h_idx + 1], kernel, stride, 0) {
                Some(d) => d,
                None => {
                    return complain("max_pool2d output width non-positive");
                },
            };
            let ghost hv = h_out.deep_view();
            let ghost wv = w_out.deep_view();
            let mut new_shape = shape;
            new_shape[h_idx] = h_out;
            new_shape[h_idx + 1] = w_out;
            assert(new_shape.deep_view() =~= sv.update(h_idx as int, hv).update(h_idx + 1, wv));
            Ok(CheckedResult::Receiver(Type::Tensor { dtype, shape: new_shape }))
        },
        _ => got_type("max_pool2d expects a tensor, got ", &ctx.arg_types[0]),
    }
}

/// The number of elements of a shape, if every dimension is a constant.
fn element_count(shape: &Vec<ShapeDim>) -> (r: Option<usize>)
    requires
        elements_fit(shape.deep_view()),
    ensures
        match r {
            Some(n) => all_const(shape.deep_view()) && n == elements(shape.deep_view()),
            None => !all_const(shape.deep_view()),
        },
{
    let ghost sv = shape.deep_view();
    let mut total: usize = 1;
    let mut i: usize = 0;
    while i < shape.len()
        invariant
            i <= shape.len(),
            sv == shape.deep_view(),
            elements_fit(sv),
            all_const(sv.take(i as int)),
            total == elements(sv.take(i as int)),
        decreases shape.len() - i,
    {
        assert(sv[i as int] == shape@[i as int].deep_view());
        match &shape[i] {
            ShapeDim::Const(c) => {
                let ghost next = sv.take(i as int + 1);
                assert(next.drop_last() =~= sv.take(i as int));
                assert(next.last() == DimV::Const(*c));
                assert(all_const(next)) by {
                    assert forall|j: int| 0 <= j < next.len() implies (#[trigger] next[j]) is Const by {
                        if j < i {
                            assert(next[j] == sv.take(i as int)[j]);
                        }
                    }
                }
                assert(elements(next) == total * (*c));
                total = total * *c;
            },
            _ => {
                assert(!(sv[i as int] is Const));
                return None;
            },
        }
        i = i + 1;
    }
    assert(sv.take(i as int) =~= sv);
    Some(total)
}

fn check_flatten(ctx: &CallCtx) -> (r: Result<CheckedResult, String>)
    requires
        call_ready(IntrinsicFn::Flatten, ctx.args.deep_view(), ctx.arg_types.deep_view()),
    ensures
        told(r) == flatten_checked(ctx.args.deep_view(), ctx.arg_types.deep_view()),
{
    if ctx.args.len() == 0 {
        return complain("flatten requires at least 1 argument");
    }
    match strip_privacy_type(&ctx.arg_types[0]) {
        Type::Tensor { dtype, shape } => {
            match element_count(&shape) {
                Some(total) => {
                    let new_shape: Vec<ShapeDim> = vec![ShapeDim::Const(total)];
                    assert(new_shape.deep_view() =~= seq![DimV::Const(total)]);
                    Ok(CheckedResult::Receiver(Type::Tensor { dtype, shape: new_shape }))
                },
                None => Ok(CheckedResult::Receiver(Type::Tensor { dtype, shape })),
            }
        },
        _ => got_type("flatten expects a tensor, got ", &ctx.arg_types[0]),
    }
}

fn check_reshape(ctx: &CallCtx) -> (r: Result<CheckedResult, String>)
    requires
        call_ready(IntrinsicFn::Reshape, ctx.args.deep_view(), ctx.arg_types.deep_view()),
    ensures
        told(r) == reshape_checked(ctx.args.deep_view(), ctx.arg_types.deep_view()),
{
    if ctx.args.len() < 2 {
        return complain("reshape requires target shape");
    }
    let vals = match &ctx.arg_types[1] {
        Type::ConstIntArray(vals) => vals,
        _ => {
            return complain("reshape expects a constant integer array for shape");
        },
    };
    let ghost all = vals@;
    assert(all.skip(0) =~= all);
    let mut new_shape: Vec<ShapeDim> = Vec::new();
    let mut i: usize = 0;
    while i < vals.len()
        invariant
            i <= vals.len(),
            all == vals@,
            ctx.args.len() >= 2,
            ctx.arg_types.len() >= 2,
            ctx.arg_types.deep_view()[1] == TypeV::ConstIntArray(all),
            first_negative(all) == first_negative(all.skip(i as int)),
            new_shape.len() == i,
            forall|j: int|
                0 <= j < i ==> (#[trigger] new_shape@[j]).deep_view() == DimV::Const(
                    all[j] as usize,
                ),
        decreases vals.len() - i,
    {
        assert(all.skip(i as int).drop_first() =~= all.skip(i as int + 1));
        let v: i64 = vals[i];
        if v < 0 {
            return got_number("reshape target dimension must be non-negative, got ", v);
        }
        new_shape.push(ShapeDim::Const(v as usize));
        i = i + 1;
    }
    assert(new_shape.deep_view() =~= const_dims(all));
    match strip_privacy_type(&ctx.arg_types[0]) {
        Type::Tensor { dtype, shape: _ } => Ok(
            CheckedResult::Receiver(Type::Tensor { dtype, shape: new_shape }),
        ),
        _ => complain("reshape expects a tensor"),
    }
}

fn check_passthrough(ctx: &CallCtx) -> (r: Result<CheckedResult, String>)
    requires
        ctx.args.len() >= 1 ==> ctx.arg_types.len() >= 1,
    ensures
        told(r) == passthrough_checked(ctx.args.deep_view(), ctx.arg_types.deep_view()),
{
    if ctx.args.len() == 0 {
        return complain("passthrough intrinsic requires at least 1 argument");
    }
    let plain = strip_privacy_type(&ctx.arg_types[0]);
    match &plain {
        Type::Tensor { .. } => Ok(CheckedResult::Receiver(plain)),
        _ => got_type("expects a tensor, got ", &ctx.arg_types[0]),
    }
}

fn check_sum(ctx: &CallCtx) -> (r: Result<CheckedResult, String>)
    requires
        ctx.args.len() >= 1 ==> ctx.arg_types.len() >= 1,
    ensures
        told(r) == sum_checked(ctx.args.deep_view(), ctx.arg_types.deep_view()),
{
    if ctx.args.len() == 0 {
        return complain("sum requires at least 1 argument");
    }
    match strip_privacy_type(&ctx.arg_types[0]) {
        Type::Tensor { .. } => Ok(CheckedResult::Receiver(Type::F32)),
        _ => got_type("sum expects a tensor, got ", &ctx.arg_types[0]),
    }
}

/// Checks a call of a built-in function and gives its type.
pub fn check_intrinsic_call(name: IntrinsicFn, ctx: &CallCtx) -> (r: Result<CheckedResult, String>)
    requires
        call_ready(name, ctx.args.deep_view(), ctx.arg_types.deep_view()),
    ensures
        told(r) == call_checked(name, ctx.args.deep_view(), ctx.arg_types.deep_view()),
{
    match name {
        IntrinsicFn::Print => Ok(CheckedResult::Plain(Type::Unit)),
        IntrinsicFn::Panic => check_panic(ctx),
        IntrinsicFn::FromUtf8Unchecked => check_from_utf8_unchecked(ctx),
        IntrinsicFn::TensorCond | IntrinsicFn::TensorWhileLoop => {
            assert(false);
            complain("")
        },
        IntrinsicFn::Embedding => check_embedding(ctx),
        IntrinsicFn::Linear => check_linear(ctx),
        IntrinsicFn::Conv2d => check_conv2d(ctx),
        IntrinsicFn::MaxPool2d => check_max_pool2d(ctx),
        IntrinsicFn::Flatten => check_flatten(ctx),
        IntrinsicFn::Reshape => check_reshape(ctx),
        IntrinsicFn::Relu | IntrinsicFn::Dropout | IntrinsicFn::LayerNorm => check_passthrough(
            ctx,
        ),
        IntrinsicFn::Sum => check_sum(ctx),
    }
}

/// The arguments of a call of `tensor.cond`.
pub struct TensorCondArgs<'a> {
    pub input: &'a Expr,
    pub condition: &'a Expr,
    pub then_expr: &'a Expr,
    pub else_expr: &'a Expr,
}

/// The arguments of a call of `tensor.while_loop`.
pub struct TensorWhileLoopArgs<'a> {
    pub init: &'a Expr,
    pub cond: &'a Expr,
    pub body: &'a Expr,
}

/// Model of a `TensorCondArgs`.
pub struct CondArgsV {
    pub input: ExprV,
    pub condition: ExprV,
    pub then_expr: ExprV,
    pub else_expr: ExprV,
}

/// Model of a `TensorWhileLoopArgs`.
pub struct WhileLoopArgsV {
    pub init: ExprV,
    pub cond: ExprV,
    pub body: ExprV,
}

impl<'a> DeepView for TensorCondArgs<'a> {
    type V = CondArgsV;

    open spec fn deep_view(&self) -> CondArgsV {
        CondArgsV {
            input: self.input.deep_view(),
            condition: self.condition.deep_view(),
            then_expr: self.then_expr.deep_view(),
            else_expr: self.else_expr.deep_view(),
        }
    }
}

impl<'a> DeepView for TensorWhileLoopArgs<'a> {
    type V = WhileLoopArgsV;

    open spec fn deep_view(&self) -> WhileLoopArgsV {
        WhileLoopArgsV {
            init: self.init.deep_view(),
            cond: self.cond.deep_view(),
            body: self.body.deep_view(),
        }
    }
}

/// The arguments of a call of `tensor.cond`, by position or name; the complaint is
/// about the first that is missing.
pub open spec fn cond_args(args: Seq<CallArgV>) -> Result<CondArgsV, Seq<char>> {
    match placed_arg(args, 0, "input"@) {
        Err(e) => Err(e),
        Ok(input) => match placed_arg(args, 1, "condition"@) {
            Err(e) => Err(e),
            Ok(condition) => match placed_arg(args, 2, "then"@) {
                Err(e) => Err(e),
                Ok(then_expr) => match placed_arg(args, 3, "else"@) {
                    Err(e) => Err(e),
                    Ok(else_expr) => Ok(CondArgsV { input, condition, then_expr, else_expr }),
                },
            },
        },
    }
}

/// The arguments of a call of `tensor.while_loop`, by position or name; the
/// complaint is about the first that is missing.
pub open spec fn while_loop_args(args: Seq<CallArgV>) -> Result<WhileLoopArgsV, Seq<char>> {
    match placed_arg(args, 0, "init"@) {
        Err(e) => Err(e),
        Ok(init) => match placed_arg(args, 1, "cond"@) {
            Err(e) => Err(e),
            Ok(cond) => match placed_arg(args, 2, "body"@) {
                Err(e) => Err(e),
                Ok(body) => Ok(WhileLoopArgsV { init, cond, body }),
            },
        },
    }
}

/// The arguments of a call of `tensor.cond`.
pub fn extract_tensor_cond_args<'a>(args: &'a [CallArg]) -> (r: Result<TensorCondArgs<'a>, String>)
    ensures
        told(r) == cond_args(args.deep_view()),
{
    let input = match get_arg_by_pos_or_name(args, 0, "input") {
        Ok(e) => e,
        Err(e) => {
            return Err(e);
        },
    };
    let condition = match get_arg_by_pos_or_name(args, 1, "condition") {
        Ok(e) => e,
        Err(e) => {
            return Err(e);
        },
    };
    let then_expr = match get_arg_by_pos_or_name(args, 2, "then") {
        Ok(e) => e,
        Err(e) => {
            return Err(e);
        },
    };
    let else_expr = match get_arg_by_pos_or_name(args, 3, "else") {
        Ok(e) => e,
        Err(e) => {
            return Err(e);
        },
    };
    Ok(TensorCondArgs { input, condition, then_expr, else_expr })
}

/// The arguments of a call of `tensor.while_loop`.
pub fn extract_tensor_while_loop_args<'a>(args: &'a [CallArg]) -> (r: Result<
    TensorWhileLoopArgs<'a>,
    String,
>)
    ensures
        told(r) == while_loop_args(args.deep_view()),
{
    let init = match get_arg_by_pos_or_name(args, 0, "init") {
        Ok(e) => e,
        Err(e) => {
            return Err(e);
        },
    };
    let cond = match get_arg_by_pos_or_name(args, 1, "cond") {
        Ok(e) => e,
        Err(e) => {
            return Err(e);
        },
    };
    let body = match get_arg_by_pos_or_name(args, 2, "body") {
        Ok(e) => e,
        Err(e) => {
            return Err(e);
        },
    };
    Ok(TensorWhileLoopArgs { init, cond, body })
}

} // verus!
