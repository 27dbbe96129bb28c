//! Laws of built-in calls: constant arguments, how arguments are found, and what shapes the
//! layers of a model give.

use vstd::prelude::*;

use crate::ast::{DimV, TypeV};
use crate::calc::trunc_div;
use crate::const_eval::{const_int, int_arg, low_bits, named_arg, placed_arg};
use crate::expr::{CallArgV, ExprKindV, ExprV};
use crate::intrinsic::{
    call_complaint, calls_intrinsic, const_entry, const_index, const_name, fn_entry, fn_index,
    fn_name, IntrinsicConst, IntrinsicFn, IntrinsicParamV,
};
use crate::intrinsic_check::{
    all_const, call_checked, cond_args, elements, first_negative, int_arg_or, slid, stripped,
    while_loop_args, windows, CheckedV,
};
use crate::intrinsic_laws::lemma_fn_names_distinct;
use crate::literal::LiteralV;
use crate::mangle::type_text;

verus! {

// Constant expressions.

/// Whether `v` is the 64-bit signed integer with the low bits of `x`: they differ by a
/// multiple of two to the power of 64.
pub open spec fn wraps_to(x: int, v: int) -> bool {
    &&& -0x8000_0000_0000_0000 <= v <= 0x7fff_ffff_ffff_ffff
    &&& (x - v) % 0x1_0000_0000_0000_0000 == 0
}

/// Whether `q` is the quotient of `l` by `r`, rounded toward zero: what is left of `l` is
/// smaller than `r` and not on the other side of zero.
pub open spec fn divides_to(l: int, r: int, q: int) -> bool {
    &&& r != 0
    &&& -(if r < 0 {
        -r
    } else {
        r
    }) < l - q * r < (if r < 0 {
        -r
    } else {
        r
    })
    &&& l >= 0 ==> l - q * r >= 0
    &&& l <= 0 ==> l - q * r <= 0
}

/// Whether a constant expression has the value `v`, by the rules of arithmetic.
pub open spec fn worth(e: ExprV, v: int) -> bool
    decreases e,
{
    match e.kind {
        ExprKindV::Literal(LiteralV::Int(_, x)) => wraps_to(x, v),
        ExprKindV::Unary { op, expr } => op is Neg && worth(*expr, -v),
        ExprKindV::BinaryOp { op, left, right } => exists|l: int, r: int|
            {
                &&& #[trigger] equals(l, l) && #[trigger] equals(r, r)
                &&& worth(*left, l)
                &&& worth(*right, r)
                &&& {
                    ||| op is Add && v == l + r
                    ||| op is Sub && v + r == l
                    ||| op is Mul && v == l * r
                    ||| op is Div && divides_to(l, r, v)
                }
            },
        _ => false,
    }
}

/// Whether two numbers are equal.
pub open spec fn equals(x: int, y: int) -> bool {
    x == y
}

proof fn lemma_wraps(x: int, v: int)
    ensures
        low_bits(x) == v <==> wraps_to(x, v),
{
    let m = 0x1_0000_0000_0000_0000int;
    let d = x - v;
    if wraps_to(x, v) {
        assert(d % m == 0);
        let k = d / m;
        assert(d == k * m) by {
            vstd::arithmetic::div_mod::lemma_fundamental_div_mod(d, m);
        }
        if v >= 0 {
            vstd::arithmetic::div_mod::lemma_fundamental_div_mod_converse(x, m, k, v);
        } else {
            assert(x == (k - 1) * m + (v + m)) by (nonlinear_arith)
                requires
                    x - v == k * m,
            ;
            vstd::arithmetic::div_mod::lemma_fundamental_div_mod_converse(x, m, k - 1, v + m);
        }
    }
    if low_bits(x) == v {
        vstd::arithmetic::div_mod::lemma_fundamental_div_mod(x, m);
        let k = x / m;
        if v == x % m {
            assert(d == k * m + 0) by (nonlinear_arith)
                requires
                    x == m * k + v,
                    d == x - v,
            ;
            vstd::arithmetic::div_mod::lemma_fundamental_div_mod_converse(d, m, k, 0);
        } else {
            assert(d == (k + 1) * m + 0) by (nonlinear_arith)
                requires
                    x == m * k + (v + m),
                    d == x - v,
            ;
            vstd::arithmetic::div_mod::lemma_fundamental_div_mod_converse(d, m, k + 1, 0);
        }
    }
}

proof fn lemma_quotient_once(l: int, r: int, q: int)
    requires
        r != 0,
    ensures
        divides_to(l, r, q) <==> q == trunc_div(l, r),
{
    let a = if l < 0 {
        -l
    } else {
        l
    };
    let b = if r < 0 {
        -r
    } else {
        r
    };
    let k = a / b;
    vstd::arithmetic::div_mod::lemma_fundamental_div_mod(a, b);
    assert(0 <= a % b < b);
    let t = trunc_div(l, r);
    assert(t == (if (l < 0) == (r < 0) {
        k
    } else {
        -k
    }) || k == 0);
    if l == 0 {
        assert(k == 0) by {
            vstd::arithmetic::div_mod::lemma_basic_div(0, b);
        }
    }
    assert(t * r == (if l < 0 {
        -(k * b)
    } else {
        k * b
    })) by (nonlinear_arith)
        requires
            b == (if r < 0 {
                -r
            } else {
                r
            }),
            k >= 0,
            l == 0 ==> k == 0,
            t == (if (l < 0) == (r < 0) {
                k
            } else {
                -k
            }) || (k == 0 && t == 0),
    ;
    assert(b * k == k * b) by (nonlinear_arith);
    assert(divides_to(l, r, t));
    if divides_to(l, r, q) {
        let d = q - t;
        assert(d * r == q * r - t * r) by (nonlinear_arith)
            requires
                d == q - t,
        ;
        assert(-b < d * r < b);
        assert(d == 0) by (nonlinear_arith)
            requires
                -b < d * r < b,
                b == (if r < 0 {
                    -r
                } else {
                    r
                }),
        ;
    }
}

/// A constant expression is evaluated by the rules of arithmetic, and has no value where
/// they give it none.
pub proof fn lemma_const_exact(e: ExprV, v: int)
    ensures
        const_int(e) == Some(v) <==> worth(e, v),
    decreases e,
{
    match e.kind {
        ExprKindV::Literal(LiteralV::Int(_, x)) => lemma_wraps(x, v),
        ExprKindV::Unary { op, expr } => {
            lemma_const_exact(*expr, -v);
            if const_int(*expr) is Some {
                assert(-(-(const_int(*expr)->0)) == const_int(*expr)->0);
            }
        },
        ExprKindV::BinaryOp { op, left, right } => {
            if const_int(e) == Some(v) {
                let l = const_int(*left)->0;
                let r = const_int(*right)->0;
                lemma_const_exact(*left, l);
                lemma_const_exact(*right, r);
                if op is Div {
                    lemma_quotient_once(l, r, v);
                }
                assert(equals(l, l) && equals(r, r));
            }
            if worth(e, v) {
                let (l, r) = choose|l: int, r: int|
                    {
                        &&& #[trigger] equals(l, l) && #[trigger] equals(r, r)
                        &&& worth(*left, l)
                        &&& worth(*right, r)
                        &&& {
                            ||| op is Add && v == l + r
                            ||| op is Sub && v + r == l
                            ||| op is Mul && v == l * r
                            ||| op is Div && divides_to(l, r, v)
                        }
                    };
                lemma_const_exact(*left, l);
                lemma_const_exact(*right, r);
                if op is Div {
                    lemma_quotient_once(l, r, v);
                }
            }
        },
        _ => {},
    }
}

// Arguments.

/// Whether an argument has the given name.
pub open spec fn bears(a: CallArgV, name: Seq<char>) -> bool {
    a matches CallArgV::Named(n, _) && n == name
}

/// Whether `e` is given for the parameter `name`: by the first argument of that name.
pub open spec fn given_by_name(args: Seq<CallArgV>, name: Seq<char>, e: ExprV) -> bool {
    exists|i: int|
        {
            &&& 0 <= i < args.len()
            &&& #[trigger] args[i] == CallArgV::Named(name, e)
            &&& forall|j: int| 0 <= j < i ==> !bears(#[trigger] args[j], name)
        }
}

/// An argument is found by its name exactly where it is the first of that name.
pub proof fn lemma_named_exact(args: Seq<CallArgV>, name: Seq<char>, e: ExprV)
    ensures
        named_arg(args, name) == Some(e) <==> given_by_name(args, name, e),
        named_arg(args, name) is None <==> forall|i: int|
            0 <= i < args.len() ==> !bears(#[trigger] args[i], name),
    decreases args.len(),
{
    if args.len() > 0 {
        let rest = args.drop_first();
        lemma_named_exact(rest, name, e);
        assert forall|i: int| 0 < i < args.len() implies #[trigger] args[i] == rest[i - 1] by {}
        if bears(args[0], name) {
            if given_by_name(args, name, e) {
                let i = choose|i: int|
                    {
                        &&& 0 <= i < args.len()
                        &&& #[trigger] args[i] == CallArgV::Named(name, e)
                        &&& forall|j: int| 0 <= j < i ==> !bears(#[trigger] args[j], name)
                    };
                assert(i == 0);
            }
        } else {
            if given_by_name(rest, name, e) {
                let i = choose|i: int|
                    {
                        &&& 0 <= i < rest.len()
                        &&& #[trigger] rest[i] == CallArgV::Named(name, e)
                        &&& forall|j: int| 0 <= j < i ==> !bears(#[trigger] rest[j], name)
                    };
                assert(args[i + 1] == CallArgV::Named(name, e));
            }
            if given_by_name(args, name, e) {
                let i = choose|i: int|
                    {
                        &&& 0 <= i < args.len()
                        &&& #[trigger] args[i] == CallArgV::Named(name, e)
                        &&& forall|j: int| 0 <= j < i ==> !bears(#[trigger] args[j], name)
                    };
                assert(rest[i - 1] == CallArgV::Named(name, e));
                assert forall|j: int| 0 <= j < i - 1 implies !bears(#[trigger] rest[j], name) by {
                    assert(!bears(args[j + 1], name));
                }
            }
            if forall|i: int| 0 <= i < args.len() ==> !bears(#[trigger] args[i], name) {
                assert forall|i: int| 0 <= i < rest.len() implies !bears(
                    #[trigger] rest[i],
                    name,
                ) by {
                    assert(!bears(args[i + 1], name));
                }
            }
        }
    }
}

/// An argument is found at its place, where what stands there has no name or its own, and
/// by its name otherwise.
pub proof fn lemma_placed_exact(args: Seq<CallArgV>, pos: int, name: Seq<char>, e: ExprV)
    requires
        0 <= pos,
    ensures
        placed_arg(args, pos, name) == Ok::<ExprV, Seq<char>>(e) <==> {
            ||| pos < args.len() && args[pos] == CallArgV::Positional(e)
            ||| pos < args.len() && args[pos] == CallArgV::Named(name, e)
            ||| {
                &&& pos < args.len() ==> (args[pos] matches CallArgV::Named(n, _) && n != name)
                &&& given_by_name(args, name, e)
            }
        },
{
    lemma_named_exact(args, name, e);
}

/// The arguments of a conditional on tensors are its input, condition, and what it gives
/// in either case, each at its place or by its name.
pub proof fn lemma_cond_args(args: Seq<CallArgV>)
    ensures
        cond_args(args) is Ok ==> ({
            let r = cond_args(args)->Ok_0;
            &&& placed_arg(args, 0, "input"@) == Ok::<ExprV, Seq<char>>(r.input)
            &&& placed_arg(args, 1, "condition"@) == Ok::<ExprV, Seq<char>>(r.condition)
            &&& placed_arg(args, 2, "then"@) == Ok::<ExprV, Seq<char>>(r.then_expr)
            &&& placed_arg(args, 3, "else"@) == Ok::<ExprV, Seq<char>>(r.else_expr)
        }),
        while_loop_args(args) is Ok ==> ({
            let r = while_loop_args(args)->Ok_0;
            &&& placed_arg(args, 0, "init"@) == Ok::<ExprV, Seq<char>>(r.init)
            &&& placed_arg(args, 1, "cond"@) == Ok::<ExprV, Seq<char>>(r.cond)
            &&& placed_arg(args, 2, "body"@) == Ok::<ExprV, Seq<char>>(r.body)
        }),
{
}

/// Whether the parameter `name` has the constant value `v`.
pub open spec fn param_is(args: Seq<CallArgV>, name: Seq<char>, v: int) -> bool {
    exists|e: ExprV| #[trigger] given_by_name(args, name, e) && worth(e, v)
}

/// The constant given for a parameter is the value of the expression that is given for it.
pub proof fn lemma_int_arg_exact(args: Seq<CallArgV>, name: Seq<char>, v: int)
    ensures
        int_arg(args, name) == Ok::<int, Seq<char>>(v) <==> param_is(args, name, v),
{
    if int_arg(args, name) == Ok::<int, Seq<char>>(v) {
        let e = named_arg(args, name)->0;
        lemma_named_exact(args, name, e);
        lemma_const_exact(e, v);
        assert(given_by_name(args, name, e));
    }
    if param_is(args, name, v) {
        let e = choose|e: ExprV| #[trigger] given_by_name(args, name, e) && worth(e, v);
        lemma_named_exact(args, name, e);
        lemma_const_exact(e, v);
    }
}

// Shapes.

/// The number of windows is the greatest for which the last one still lies within the
/// elements and their padding.
pub proof fn lemma_windows_exact(size: int, kernel: int, stride: int, padding: int)
    requires
        stride > 0,
        size + 2 * padding >= kernel,
    ensures
        ({
            let n = windows(size, kernel, stride, padding);
            &&& n >= 1
            &&& (n - 1) * stride + kernel <= size + 2 * padding
            &&& n * stride + kernel > size + 2 * padding
        }),
{
    let a = size + 2 * padding - kernel;
    let n = windows(size, kernel, stride, padding);
    vstd::arithmetic::div_mod::lemma_fundamental_div_mod(a, stride);
    assert(0 <= a % stride < stride);
    assert(a / stride >= 0) by {
        vstd::arithmetic::div_mod::lemma_div_pos_is_pos(a, stride);
    }
    assert((n - 1) * stride == stride * (a / stride)) by (nonlinear_arith)
        requires
            n - 1 == a / stride,
    ;
    assert(n * stride == (n - 1) * stride + stride) by (nonlinear_arith);
}

/// Whether dimension `r` is what sliding a window over dimension `d` leaves: of a known
/// size the number of windows, of an unknown one an unknown one.
pub open spec fn slides_to(d: DimV, kernel: int, stride: int, padding: int, r: DimV) -> bool {
    match d {
        DimV::Const(c) => {
            &&& r matches DimV::Const(n)
            &&& n > 0
            &&& (n - 1) * stride + kernel <= c + 2 * padding < n * stride + kernel
        },
        _ => r == DimV::Dyn,
    }
}

proof fn lemma_slides(d: DimV, kernel: int, stride: int, padding: int, r: DimV)
    requires
        stride > 0,
        padding >= 0,
        slid(d, kernel, stride, padding) == Some(r),
        d matches DimV::Const(c) ==> {
            &&& c <= i64::MAX
            &&& c + 2 * padding >= kernel
            &&& windows(c as int, kernel, stride, padding) <= usize::MAX
        },
    ensures
        slides_to(d, kernel, stride, padding, r),
{
    if let DimV::Const(c) = d {
        lemma_windows_exact(c as int, kernel, stride, padding);
        let n = windows(c as int, kernel, stride, padding);
        assert(low_bits(c as int) == c);
        assert(r == DimV::Const(n as usize));
    }
}

/// Whether a window of the given size fits into a dimension, and the number of windows is
/// small enough.
pub open spec fn room_for(d: DimV, kernel: int, stride: int, padding: int) -> bool {
    d matches DimV::Const(c) ==> {
        &&& c <= i64::MAX
        &&& c + 2 * padding >= kernel
        &&& windows(c as int, kernel, stride, padding) <= usize::MAX
    }
}

/// What an accepted convolution gives: the element type and the batch stay, there are as
/// many channels as `out` says, and height and width become the number of places of the
/// kernel.
pub proof fn lemma_conv2d_shape(
    args: Seq<CallArgV>,
    types: Seq<TypeV>,
    dtype: TypeV,
    shape: Seq<DimV>,
    out: int,
    kernel: int,
    r: CheckedV,
)
    requires
        call_checked(IntrinsicFn::Conv2d, args, types) == Ok::<CheckedV, Seq<char>>(r),
        stripped(types[0]) == (TypeV::Tensor { dtype: Box::new(dtype), shape }),
        param_is(args, "out"@, out),
        param_is(args, "kernel"@, kernel),
        out <= usize::MAX,
        room_for(
            shape[shape.len() - 2],
            kernel,
            int_arg_or(args, "stride"@, 1),
            int_arg_or(args, "padding"@, 0),
        ),
        room_for(
            shape[shape.len() - 1],
            kernel,
            int_arg_or(args, "stride"@, 1),
            int_arg_or(args, "padding"@, 0),
        ),
    ensures
        ({
            let n = shape.len();
            let stride = int_arg_or(args, "stride"@, 1);
            let padding = int_arg_or(args, "padding"@, 0);
            &&& out > 0 && kernel > 0 && stride > 0 && padding >= 0
            &&& n == 3 || n == 4
            &&& r matches CheckedV::Receiver(t)
            &&& t matches TypeV::Tensor { dtype: d, shape: s }
            &&& *d == dtype
            &&& s.len() == n
            &&& n == 4 ==> s[0] == shape[0]
            &&& s[n - 3] matches DimV::Const(c) && c == out
            &&& slides_to(shape[n - 2], kernel, stride, padding, s[n - 2])
            &&& slides_to(shape[n - 1], kernel, stride, padding, s[n - 1])
        }),
{
    lemma_int_arg_exact(args, "out"@, out);
    lemma_int_arg_exact(args, "kernel"@, kernel);
    let stride = int_arg_or(args, "stride"@, 1);
    let padding = int_arg_or(args, "padding"@, 0);
    let n = shape.len();
    let h = slid(shape[n - 2], kernel, stride, padding);
    let w = slid(shape[n - 1], kernel, stride, padding);
    assert(h is Some && w is Some);
    lemma_slides(shape[n - 2], kernel, stride, padding, h->0);
    lemma_slides(shape[n - 1], kernel, stride, padding, w->0);
}

/// What an accepted pooling gives: all stays but height and width, which become the number
/// of places of the kernel; it moves by its own size where no stride is given.
pub proof fn lemma_max_pool2d_shape(
    args: Seq<CallArgV>,
    types: Seq<TypeV>,
    dtype: TypeV,
    shape: Seq<DimV>,
    kernel: int,
    r: CheckedV,
)
    requires
        call_checked(IntrinsicFn::MaxPool2d, args, types) == Ok::<CheckedV, Seq<char>>(r),
        stripped(types[0]) == (TypeV::Tensor { dtype: Box::new(dtype), shape }),
        param_is(args, "kernel"@, kernel),
        room_for(shape[shape.len() - 2], kernel, int_arg_or(args, "stride"@, kernel), 0),
        room_for(shape[shape.len() - 1], kernel, int_arg_or(args, "stride"@, kernel), 0),
    ensures
        ({
            let n = shape.len();
            let stride = int_arg_or(args, "stride"@, kernel);
            &&& kernel > 0 && stride > 0
            &&& n == 3 || n == 4
            &&& r matches CheckedV::Receiver(t)
            &&& t matches TypeV::Tensor { dtype: d, shape: s }
            &&& *d == dtype
            &&& s.len() == n
            &&& forall|i: int| 0 <= i < n - 2 ==> s[i] == shape[i]
            &&& slides_to(shape[n - 2], kernel, stride, 0, s[n - 2])
            &&& slides_to(shape[n - 1], kernel, stride, 0, s[n - 1])
        }),
{
    lemma_int_arg_exact(args, "kernel"@, kernel);
    let stride = int_arg_or(args, "stride"@, kernel);
    let n = shape.len();
    let h = slid(shape[n - 2], kernel, stride, 0);
    let w = slid(shape[n - 1], kernel, stride, 0);
    assert(h is Some && w is Some);
    lemma_slides(shape[n - 2], kernel, stride, 0, h->0);
    lemma_slides(shape[n - 1], kernel, stride, 0, w->0);
}

/// What an accepted linear layer gives: the last dimension, which is `in` where it is
/// known, becomes `out`; all else stays.
pub proof fn lemma_linear_shape(
    args: Seq<CallArgV>,
    types: Seq<TypeV>,
    dtype: TypeV,
    shape: Seq<DimV>,
    inputs: int,
    outputs: int,
)
    requires
        args.len() >= 2,
        stripped(types[0]) == (TypeV::Tensor { dtype: Box::new(dtype), shape }),
        param_is(args, "in"@, inputs),
        param_is(args, "out"@, outputs),
        inputs <= usize::MAX,
        outputs <= usize::MAX,
    ensures
        call_checked(IntrinsicFn::Linear, args, types) is Ok <==> inputs > 0 && outputs > 0
            && shape.len() > 0 && (shape.last() matches DimV::Const(c) ==> c == inputs),
        call_checked(IntrinsicFn::Linear, args, types) is Ok ==> ({
            &&& call_checked(IntrinsicFn::Linear, args, types)->Ok_0 matches CheckedV::Receiver(t)
            &&& t matches TypeV::Tensor { dtype: d, shape: s }
            &&& *d == dtype
            &&& s.len() == shape.len()
            &&& forall|i: int| 0 <= i < s.len() - 1 ==> s[i] == shape[i]
            &&& s.last() matches DimV::Const(c) && c == outputs
        }),
{
    lemma_int_arg_exact(args, "in"@, inputs);
    lemma_int_arg_exact(args, "out"@, outputs);
}

/// What an accepted embedding gives: elements of 32-bit floats, and one dimension more, of
/// the size of the embedding.
pub proof fn lemma_embedding_shape(
    args: Seq<CallArgV>,
    types: Seq<TypeV>,
    dtype: TypeV,
    shape: Seq<DimV>,
    count: int,
    size: int,
)
    requires
        args.len() >= 2,
        stripped(types[0]) == (TypeV::Tensor { dtype: Box::new(dtype), shape }),
        param_is(args, "num_embeddings"@, count),
        param_is(args, "embedding_dim"@, size),
        size <= usize::MAX,
    ensures
        call_checked(IntrinsicFn::Embedding, args, types) is Ok <==> size > 0,
        call_checked(IntrinsicFn::Embedding, args, types) is Ok ==> ({
            &&& call_checked(
                IntrinsicFn::Embedding,
                args,
                types,
            )->Ok_0 matches CheckedV::Receiver(t)
            &&& t matches TypeV::Tensor { dtype: d, shape: s }
            &&& *d == TypeV::F32
            &&& s.len() == shape.len() + 1
            &&& forall|i: int| 0 <= i < shape.len() ==> s[i] == shape[i]
            &&& s.last() matches DimV::Const(c) && c == size
        }),
{
    lemma_int_arg_exact(args, "num_embeddings"@, count);
    lemma_int_arg_exact(args, "embedding_dim"@, size);
}

/// The number of elements of a shape is the product of its dimensions: of one dimension
/// its size, and of two shapes side by side the product of theirs.
pub proof fn lemma_elements_exact(a: Seq<DimV>, b: Seq<DimV>, c: usize)
    requires
        all_const(a),
        all_const(b),
    ensures
        elements(Seq::empty()) == 1,
        elements(seq![DimV::Const(c)]) == c,
        elements(a + b) == elements(a) * elements(b),
    decreases b.len(),
{
    let one = seq![DimV::Const(c)];
    assert(one.drop_last() =~= Seq::empty());
    assert(elements(one.drop_last()) == 1);
    assert(elements(one) == 1 * (c as nat));
    if b.len() > 0 {
        let front = b.drop_last();
        assert forall|i: int| 0 <= i < front.len() implies (#[trigger] front[i]) is Const by {
            assert(b[i] is Const);
        }
        lemma_elements_exact(a, front, c);
        assert((a + b).drop_last() =~= a + front);
        assert(b[b.len() - 1] is Const);
        let d = b.last()->Const_0 as nat;
        let x = elements(a);
        let y = elements(front);
        assert((x * y) * d == x * (y * d)) by (nonlinear_arith);
        assert((a + b).last() == b.last());
        assert(elements(b) == y * d);
        assert(elements(a + b) == (x * y) * d);
    } else {
        assert(a + b =~= a);
        let x = elements(a);
        assert(elements(b) == 1);
        assert(x * 1 == x) by (nonlinear_arith);
    }
}

/// What flattening gives: where all dimensions are known, one that has all the elements;
/// else the type as it is.
pub proof fn lemma_flatten_shape(
    args: Seq<CallArgV>,
    types: Seq<TypeV>,
    dtype: TypeV,
    shape: Seq<DimV>,
)
    requires
        args.len() > 0,
        stripped(types[0]) == (TypeV::Tensor { dtype: Box::new(dtype), shape }),
        all_const(shape) ==> elements(shape) <= usize::MAX,
    ensures
        ({
            &&& call_checked(
                IntrinsicFn::Flatten,
                args,
                types,
            ) matches Ok(CheckedV::Receiver(TypeV::Tensor { dtype: d, shape: s }))
            &&& *d == dtype
            &&& all_const(shape) ==> s.len() == 1 && (s[0] matches DimV::Const(c) && c == elements(
                shape,
            ))
            &&& !all_const(shape) ==> s == shape
        }),
{
}

/// Reshaping gives the dimensions that are asked for, and is refused where one of them is
/// negative.
pub proof fn lemma_reshape_shape(
    args: Seq<CallArgV>,
    types: Seq<TypeV>,
    dtype: TypeV,
    shape: Seq<DimV>,
    wanted: Seq<i64>,
)
    requires
        args.len() >= 2,
        types[1] == TypeV::ConstIntArray(wanted),
        stripped(types[0]) == (TypeV::Tensor { dtype: Box::new(dtype), shape }),
        forall|i: int| 0 <= i < wanted.len() ==> #[trigger] wanted[i] <= usize::MAX,
    ensures
        call_checked(IntrinsicFn::Reshape, args, types) is Ok <==> forall|i: int|
            0 <= i < wanted.len() ==> #[trigger] wanted[i] >= 0,
        call_checked(IntrinsicFn::Reshape, args, types) is Ok ==> ({
            &&& call_checked(
                IntrinsicFn::Reshape,
                args,
                types,
            ) matches Ok(CheckedV::Receiver(TypeV::Tensor { dtype: d, shape: s }))
            &&& *d == dtype
            &&& s.len() == wanted.len()
            &&& forall|i: int|
                0 <= i < s.len() ==> (#[trigger] s[i] matches DimV::Const(c) && c == wanted[i])
        }),
{
    lemma_first_negative(wanted);
}

proof fn lemma_first_negative(vs: Seq<i64>)
    ensures
        first_negative(vs) is None <==> forall|i: int|
            0 <= i < vs.len() ==> #[trigger] vs[i] >= 0,
    decreases vs.len(),
{
    if vs.len() > 0 {
        let rest = vs.drop_first();
        lemma_first_negative(rest);
        if vs[0] >= 0 {
            if first_negative(rest) is None {
                assert forall|i: int| 0 <= i < vs.len() implies #[trigger] vs[i] >= 0 by {
                    if i > 0 {
                        assert(rest[i - 1] >= 0);
                    }
                }
            } else {
                let i = choose|i: int| 0 <= i < rest.len() && #[trigger] rest[i] < 0;
                assert(vs[i + 1] < 0);
            }
        }
    }
}

// The tables of what is built in.

/// Whether a built-in function does something besides giving a value.
pub open spec fn acts(f: IntrinsicFn) -> bool {
    f is Print || f is Panic
}

/// A call of a built-in function is complained about exactly where it acts and stands in
/// the forward method of a model, or where it takes bytes for text unseen outside an
/// unsafe block. What acts is not pure, and everything else is.
pub proof fn lemma_call_allowed(f: IntrinsicFn, in_forward: bool, unsafe_depth: usize)
    ensures
        call_complaint(f, in_forward, unsafe_depth) is Some <==> (in_forward && acts(f)) || (
        f is FromUtf8Unchecked && unsafe_depth == 0),
        fn_entry(f).is_pure <==> !acts(f),
        fn_entry(f).allowed_in_model <==> !acts(f),
{
}

/// Whether a parameter of a built-in function takes arguments of a type.
pub open spec fn takes(p: IntrinsicParamV, t: TypeV) -> bool {
    ||| p == IntrinsicParamV::Value(t)
    ||| t matches TypeV::Ref { mutable, inner } && p == IntrinsicParamV::Ref(mutable, *inner)
    ||| p is VarArgs
}

/// A call of a built-in function with a signature gives what the signature says. Printing
/// takes anything; every other one takes what the signature says, labels aside, and
/// nothing else.
pub proof fn lemma_call_signature(f: IntrinsicFn, args: Seq<CallArgV>, types: Seq<TypeV>)
    requires
        fn_entry(f).signature is Some,
        args.len() == types.len(),
    ensures
        ({
            let sig = fn_entry(f).signature->0;
            let r = call_checked(f, args, types);
            &&& r is Ok ==> r->Ok_0 == CheckedV::Plain(sig.return_type)
            &&& f is Print ==> r is Ok
            &&& f !is Print ==> (r is Ok <==> args.len() == sig.params.len() && forall|i: int|
                0 <= i < args.len() ==> takes(sig.params[i], stripped(#[trigger] types[i])))
        }),
{
    if args.len() == 1 {
        assert(types[0] == types[0]);
    }
}

/// The layers that look at nothing but the receiver take every tensor, and nothing else.
pub proof fn lemma_receiver_alone(f: IntrinsicFn, args: Seq<CallArgV>, types: Seq<TypeV>)
    requires
        f is Relu || f is Dropout || f is LayerNorm || f is Sum,
    ensures
        call_checked(f, args, types) is Ok <==> args.len() > 0 && stripped(types[0]) is Tensor,
{
}

/// A built-in constant is of the type that its name starts with.
pub proof fn lemma_const_type(c: IntrinsicConst)
    ensures
        const_entry(c).name == const_name(c),
        const_entry(c).name.take(type_text(const_entry(c).ty).len() as int) == type_text(
            const_entry(c).ty,
        ),
        const_entry(c).name[type_text(const_entry(c).ty).len() as int] == ':',
{
    reveal_strlit("i8::MAX");
    reveal_strlit("i16::MAX");
    reveal_strlit("i32::MAX");
    reveal_strlit("i64::MAX");
    reveal_strlit("i128::MAX");
    reveal_strlit("u8::MAX");
    reveal_strlit("u16::MAX");
    reveal_strlit("u32::MAX");
    reveal_strlit("u64::MAX");
    reveal_strlit("u128::MAX");
    reveal_strlit("f32::INFINITY");
    reveal_strlit("f32::NAN");
    reveal_strlit("f64::INFINITY");
    reveal_strlit("f64::NAN");
    reveal_strlit("i8");
    reveal_strlit("i16");
    reveal_strlit("i32");
    reveal_strlit("i64");
    reveal_strlit("i128");
    reveal_strlit("u8");
    reveal_strlit("u16");
    reveal_strlit("u32");
    reveal_strlit("u64");
    reveal_strlit("u128");
    reveal_strlit("f32");
    reveal_strlit("f64");
    let t = type_text(const_entry(c).ty);
    assert(const_entry(c).name.take(t.len() as int) =~= t);
}

/// Every built-in function and constant has a place of its own in its table, and no place
/// is left out.
pub proof fn lemma_table_places(f: IntrinsicFn, g: IntrinsicFn, c: IntrinsicConst, d: IntrinsicConst)
    ensures
        fn_index(f) == fn_index(g) ==> f == g,
        0 <= fn_index(f) < 15,
        const_index(c) == const_index(d) ==> c == d,
        0 <= const_index(c) < 14,
{
}

/// A call names a built-in function where it has neither qualifier nor receiver and the
/// function's name, and then no other.
pub proof fn lemma_call_named(qualifier: Option<String>, is_method: bool, f: IntrinsicFn, g: IntrinsicFn)
    ensures
        calls_intrinsic(qualifier, fn_name(g), is_method, f) <==> qualifier is None && !is_method
            && f == g,
{
    if fn_name(f) == fn_name(g) {
        lemma_fn_names_distinct(f, g);
    }
}

} // verus!
