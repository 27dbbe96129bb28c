use xiyi_compiler::ast::{BinaryOp, PrivacyTag, ShapeDim, Type, UnaryOp};
use xiyi_compiler::const_eval::{
    eval_const_int_expr, extract_int_arg, get_arg_by_pos_or_name, low_u128,
};
use xiyi_compiler::expr::{CallArg, Expr, ExprKind};
use xiyi_compiler::intrinsic::{
    get_constant, get_intrinsic, is_dynamic_intrinsic, is_intrinsic, resolve_intrinsic_call,
    try_resolve_constant_ref, IntrinsicConst, IntrinsicFn,
};
use xiyi_compiler::intrinsic_check::{
    check_intrinsic_call, extract_tensor_cond_args, extract_tensor_while_loop_args,
    strip_privacy_type, CallCtx, CheckedResult,
};
use xiyi_compiler::literal::Literal;

fn expr(kind: ExprKind) -> Expr {
    Expr { id: 0, kind }
}

fn lit(v: i64) -> Expr {
    expr(ExprKind::Literal(Literal::Int64(v)))
}

fn binary(op: BinaryOp, l: Expr, r: Expr) -> Expr {
    expr(ExprKind::BinaryOp { op, left: Box::new(l), right: Box::new(r) })
}

fn named(name: &str, v: i64) -> CallArg {
    CallArg::Named(name.to_string(), lit(v))
}

fn first() -> CallArg {
    CallArg::Positional(expr(ExprKind::Ident("x".to_string())))
}

fn tensor(dims: Vec<ShapeDim>) -> Type {
    Type::Tensor { dtype: Box::new(Type::F16), shape: dims }
}

fn dims(ds: Vec<usize>) -> Type {
    tensor(ds.into_iter().map(ShapeDim::Const).collect())
}

fn call(name: IntrinsicFn, args: Vec<CallArg>, types: Vec<Type>) -> Result<String, String> {
    let ctx = CallCtx { args: &args, arg_types: &types };
    match check_intrinsic_call(name, &ctx) {
        Ok(CheckedResult::Plain(t)) => Ok(format!("plain {:?}", t)),
        Ok(CheckedResult::Receiver(t)) => Ok(format!("receiver {:?}", t)),
        Err(e) => Err(e),
    }
}

fn receiver(t: Type) -> Result<String, String> {
    Ok(format!("receiver {:?}", t))
}

fn err(s: &str) -> Result<String, String> {
    Err(s.to_string())
}

#[test]
fn names_find_their_functions() {
    let all = IntrinsicFn::all();
    assert_eq!(all.len(), 15);
    for (i, f) in all.iter().enumerate() {
        assert_eq!((*f).index(), i);
    }
    assert!(matches!(IntrinsicFn::from_str("print"), Some(IntrinsicFn::Print)));
    assert!(matches!(IntrinsicFn::from_str("tensor.cond"), Some(IntrinsicFn::TensorCond)));
    assert!(matches!(IntrinsicFn::from_str("layer_norm"), Some(IntrinsicFn::LayerNorm)));
    assert!(IntrinsicFn::from_str("Print").is_none());
    assert!(IntrinsicFn::from_str("").is_none());
}

#[test]
fn names_find_their_constants() {
    let all = IntrinsicConst::all();
    assert_eq!(all.len(), 14);
    for (i, c) in all.iter().enumerate() {
        assert_eq!((*c).index(), i);
        let entry = get_constant(*c).unwrap();
        assert_eq!(IntrinsicConst::from_str(entry.name).unwrap().index(), i);
        assert!(IntrinsicFn::from_str(entry.name).is_none());
    }
    assert!(is_intrinsic("f64::NAN"));
    assert!(is_intrinsic("sum"));
    assert!(!is_intrinsic("f64::nan"));
}

#[test]
fn the_function_table() {
    for f in IntrinsicFn::all() {
        assert!(get_intrinsic(f).is_some());
    }
    let panic = get_intrinsic(IntrinsicFn::Panic).unwrap();
    assert!(panic.diverges());
    let print = get_intrinsic(IntrinsicFn::Print).unwrap();
    assert!(!print.diverges());
    assert!(!print.allowed_in_model);
    assert!(get_intrinsic(IntrinsicFn::FromUtf8Unchecked).unwrap().requires_unsafe);
    assert!(get_intrinsic(IntrinsicFn::Relu).unwrap().allowed_in_model);
}

#[test]
fn the_constant_table() {
    let c = get_constant(IntrinsicConst::I32Max).unwrap();
    assert_eq!(c.name, "i32::MAX");
    assert_eq!(format!("{:?}", c.ty), "I32");
    assert!(!c.has_known_value());
    assert_eq!(format!("{:?}", get_constant(IntrinsicConst::F64Nan).unwrap().ty), "F64");
}

#[test]
fn references_to_constants() {
    assert_eq!(try_resolve_constant_ref(&None, "u8::MAX", false, 0), Some("u8::MAX"));
    assert_eq!(try_resolve_constant_ref(&None, "u8::MIN", false, 0), None);
    assert_eq!(try_resolve_constant_ref(&None, "u8::MAX", true, 0), None);
    assert_eq!(try_resolve_constant_ref(&None, "u8::MAX", false, 1), None);
    assert_eq!(
        try_resolve_constant_ref(&Some("q".to_string()), "u8::MAX", false, 0),
        None
    );
}

#[test]
fn calls_of_built_in_functions() {
    let r = resolve_intrinsic_call(&None, "relu", false, true, 0, false);
    assert!(matches!(r, Ok((true, Some(IntrinsicFn::Relu)))));
    let r = resolve_intrinsic_call(&None, "nothing", false, true, 0, false);
    assert!(matches!(r, Ok((false, None))));
    let r = resolve_intrinsic_call(&None, "relu", true, true, 0, false);
    assert!(matches!(r, Ok((false, None))));
    let r = resolve_intrinsic_call(&Some("m".to_string()), "print", false, true, 0, false);
    assert!(matches!(r, Ok((false, None))));
}

#[test]
fn calls_that_are_not_allowed() {
    assert_eq!(
        resolve_intrinsic_call(&None, "print", false, true, 0, false).unwrap_err(),
        "error[MD001]: side-effect `print` is not allowed in model block (forward method)"
    );
    assert_eq!(
        resolve_intrinsic_call(&None, "from_utf8_unchecked", false, false, 0, false).unwrap_err(),
        "call to unsafe intrinsic `from_utf8_unchecked` requires an `unsafe` block or `verify unsafe`"
    );
    let r = resolve_intrinsic_call(&None, "from_utf8_unchecked", false, false, 1, false);
    assert!(matches!(r, Ok((true, Some(IntrinsicFn::FromUtf8Unchecked)))));
}

#[test]
fn dynamic_functions() {
    assert!(is_dynamic_intrinsic(IntrinsicFn::TensorCond));
    assert!(is_dynamic_intrinsic(IntrinsicFn::TensorWhileLoop));
    assert!(!is_dynamic_intrinsic(IntrinsicFn::Sum));
}

#[test]
fn labels_are_stripped_through_references() {
    let t = Type::Ref {
        mutable: true,
        inner: Box::new(Type::Privacy(
            Box::new(Type::Privacy(Box::new(Type::I8), PrivacyTag::Public)),
            PrivacyTag::Private,
        )),
    };
    assert_eq!(format!("{:?}", strip_privacy_type(&t)), "Ref { mutable: true, inner: I8 }");
}

#[test]
fn print_and_panic() {
    assert_eq!(call(IntrinsicFn::Print, vec![], vec![]), Ok("plain Unit".to_string()));
    assert_eq!(
        call(IntrinsicFn::Panic, vec![first()], vec![Type::Str]),
        Ok("plain Never".to_string())
    );
    assert_eq!(
        call(IntrinsicFn::Panic, vec![first()], vec![Type::I32]),
        err("`panic` expects a string argument, got I32")
    );
    assert_eq!(
        call(IntrinsicFn::Panic, vec![], vec![]),
        err("`panic` expects exactly 1 argument (a message)")
    );
}

#[test]
fn bytes_to_text() {
    let bytes = || Type::Ref { mutable: false, inner: Box::new(Type::Slice(Box::new(Type::U8))) };
    assert_eq!(
        call(IntrinsicFn::FromUtf8Unchecked, vec![first()], vec![bytes()]),
        Ok("plain Ref { mutable: false, inner: Str }".to_string())
    );
    assert_eq!(
        call(IntrinsicFn::FromUtf8Unchecked, vec![first()], vec![Type::Str]),
        err("`from_utf8_unchecked` expects &[u8], got Str")
    );
    assert_eq!(
        call(IntrinsicFn::FromUtf8Unchecked, vec![], vec![]),
        err("`from_utf8_unchecked` expects exactly 1 argument")
    );
}

#[test]
fn embeddings() {
    let args = |d: i64| vec![first(), named("num_embeddings", 10), named("embedding_dim", d)];
    let types = || vec![dims(vec![2, 3]), Type::I64, Type::I64];
    assert_eq!(
        call(IntrinsicFn::Embedding, args(8), types()),
        receiver(Type::Tensor {
            dtype: Box::new(Type::F32),
            shape: vec![ShapeDim::Const(2), ShapeDim::Const(3), ShapeDim::Const(8)],
        })
    );
    assert_eq!(
        call(IntrinsicFn::Embedding, args(0), types()),
        err("embedding `embedding_dim` must be positive, got 0")
    );
    assert_eq!(
        call(IntrinsicFn::Embedding, args(8), vec![Type::I32, Type::I64, Type::I64]),
        err("embedding expects a tensor, got I32")
    );
    assert_eq!(
        call(IntrinsicFn::Embedding, vec![first()], vec![dims(vec![2])]),
        err("embedding requires at least two arguments")
    );
    assert_eq!(
        call(
            IntrinsicFn::Embedding,
            vec![first(), named("embedding_dim", 1)],
            vec![dims(vec![2]), Type::I64]
        ),
        err("parameter 'num_embeddings' not found")
    );
}

#[test]
fn linear_layers() {
    let args = |i: i64, o: i64| vec![first(), named("in", i), named("out", o)];
    let with = |t: Type| vec![t, Type::I64, Type::I64];
    assert_eq!(
        call(IntrinsicFn::Linear, args(4, 7), with(dims(vec![2, 4]))),
        receiver(dims(vec![2, 7]))
    );
    assert_eq!(
        call(IntrinsicFn::Linear, args(4, 7), with(tensor(vec![ShapeDim::Dyn]))),
        receiver(dims(vec![7]))
    );
    assert_eq!(
        call(IntrinsicFn::Linear, args(5, 7), with(dims(vec![2, 4]))),
        err("shape mismatch in linear: input last dim 4 does not match 'in' value 5")
    );
    assert_eq!(
        call(IntrinsicFn::Linear, args(0, 7), with(dims(vec![2, 4]))),
        err("linear `in` must be positive, got 0")
    );
    assert_eq!(
        call(IntrinsicFn::Linear, args(4, -1), with(dims(vec![2, 4]))),
        err("linear `out` must be positive, got -1")
    );
    assert_eq!(
        call(IntrinsicFn::Linear, args(4, 7), with(dims(vec![]))),
        err("tensor must have at least one dimension for linear")
    );
    assert_eq!(
        call(IntrinsicFn::Linear, args(4, 7), with(Type::Bool)),
        err("linear expects a tensor, got Bool")
    );
    assert_eq!(
        call(IntrinsicFn::Linear, vec![first()], vec![dims(vec![4])]),
        err("linear requires at least two arguments")
    );
}

#[test]
fn convolutions() {
    let args = |out: i64, k: i64, more: Vec<(&str, i64)>| {
        let mut v = vec![first(), named("in", 3), named("out", out), named("kernel", k)];
        for (n, x) in more {
            v.push(named(n, x));
        }
        v
    };
    let with = |t: Type| vec![t];
    assert_eq!(
        call(IntrinsicFn::Conv2d, args(8, 3, vec![]), with(dims(vec![3, 32, 30]))),
        receiver(dims(vec![8, 30, 28]))
    );
    assert_eq!(
        call(
            IntrinsicFn::Conv2d,
            args(8, 3, vec![("stride", 2), ("padding", 1)]),
            with(dims(vec![5, 3, 32, 31]))
        ),
        receiver(dims(vec![5, 8, 16, 16]))
    );
    assert_eq!(
        call(
            IntrinsicFn::Conv2d,
            args(8, 3, vec![]),
            with(tensor(vec![ShapeDim::Const(3), ShapeDim::Dyn, ShapeDim::Sym("W".to_string())]))
        ),
        receiver(tensor(vec![ShapeDim::Const(8), ShapeDim::Dyn, ShapeDim::Dyn]))
    );
    assert_eq!(
        call(IntrinsicFn::Conv2d, args(8, 40, vec![]), with(dims(vec![3, 32, 50]))),
        err("conv2d output height non-positive")
    );
    assert_eq!(
        call(IntrinsicFn::Conv2d, args(8, 40, vec![]), with(dims(vec![3, 50, 32]))),
        err("conv2d output width non-positive")
    );
    assert_eq!(
        call(IntrinsicFn::Conv2d, args(0, 3, vec![]), with(dims(vec![3, 9, 9]))),
        err("conv2d `out` must be positive, got 0")
    );
    assert_eq!(
        call(IntrinsicFn::Conv2d, args(8, -3, vec![]), with(dims(vec![3, 9, 9]))),
        err("conv2d `kernel` must be positive, got -3")
    );
    assert_eq!(
        call(IntrinsicFn::Conv2d, args(8, 3, vec![("stride", 0)]), with(dims(vec![3, 9, 9]))),
        err("conv2d `stride` must be positive, got 0")
    );
    assert_eq!(
        call(IntrinsicFn::Conv2d, args(8, 3, vec![("padding", -1)]), with(dims(vec![3, 9, 9]))),
        err("conv2d `padding` must be non-negative, got -1")
    );
    assert_eq!(
        call(IntrinsicFn::Conv2d, args(8, 3, vec![]), with(dims(vec![9, 9]))),
        err("conv2d expects 3D [C, H, W] or 4D [B, C, H, W] tensor")
    );
    assert_eq!(
        call(IntrinsicFn::Conv2d, args(8, 3, vec![]), with(Type::I8)),
        err("conv2d expects a tensor, got I8")
    );
    assert_eq!(
        call(IntrinsicFn::Conv2d, vec![first()], with(dims(vec![3, 9, 9]))),
        err("conv2d requires at least 2 arguments")
    );
}

#[test]
fn pooling() {
    let with = |t: Type| vec![t];
    assert_eq!(
        call(
            IntrinsicFn::MaxPool2d,
            vec![first(), named("kernel", 2)],
            with(dims(vec![3, 8, 7]))
        ),
        receiver(dims(vec![3, 4, 3]))
    );
    assert_eq!(
        call(
            IntrinsicFn::MaxPool2d,
            vec![first(), named("kernel", 2), named("stride", 1)],
            with(dims(vec![1, 3, 8, 7]))
        ),
        receiver(dims(vec![1, 3, 7, 6]))
    );
    assert_eq!(
        call(
            IntrinsicFn::MaxPool2d,
            vec![first(), named("kernel", 9)],
            with(dims(vec![3, 0, 7]))
        ),
        err("max_pool2d output height non-positive")
    );
    assert_eq!(
        call(
            IntrinsicFn::MaxPool2d,
            vec![first(), named("kernel", 2), named("stride", -2)],
            with(dims(vec![3, 8, 7]))
        ),
        err("max_pool2d `stride` must be positive, got -2")
    );
    assert_eq!(
        call(
            IntrinsicFn::MaxPool2d,
            vec![first(), named("kernel", 0)],
            with(dims(vec![3, 8, 7]))
        ),
        err("max_pool2d `kernel` must be positive, got 0")
    );
    assert_eq!(
        call(IntrinsicFn::MaxPool2d, vec![first(), named("kernel", 2)], with(dims(vec![8, 7]))),
        err("max_pool2d expects 3D or 4D tensor")
    );
    assert_eq!(
        call(IntrinsicFn::MaxPool2d, vec![first()], with(dims(vec![3, 8, 7]))),
        err("parameter 'kernel' not found")
    );
    assert_eq!(
        call(IntrinsicFn::MaxPool2d, vec![], vec![]),
        err("max_pool2d requires at least 1 argument")
    );
    assert_eq!(
        call(IntrinsicFn::MaxPool2d, vec![first(), named("kernel", 2)], with(Type::Str)),
        err("max_pool2d expects a tensor, got Str")
    );
}

#[test]
fn flattening() {
    assert_eq!(
        call(IntrinsicFn::Flatten, vec![first()], vec![dims(vec![2, 3, 4])]),
        receiver(dims(vec![24]))
    );
    let open = || tensor(vec![ShapeDim::Const(2), ShapeDim::Dyn]);
    assert_eq!(call(IntrinsicFn::Flatten, vec![first()], vec![open()]), receiver(open()));
    assert_eq!(
        call(IntrinsicFn::Flatten, vec![first()], vec![Type::Unit]),
        err("flatten expects a tensor, got Unit")
    );
    assert_eq!(
        call(IntrinsicFn::Flatten, vec![], vec![]),
        err("flatten requires at least 1 argument")
    );
}

#[test]
fn reshaping() {
    let args = || vec![first(), first()];
    assert_eq!(
        call(
            IntrinsicFn::Reshape,
            args(),
            vec![dims(vec![6]), Type::ConstIntArray(vec![2, 3])]
        ),
        receiver(dims(vec![2, 3]))
    );
    assert_eq!(
        call(
            IntrinsicFn::Reshape,
            args(),
            vec![dims(vec![6]), Type::ConstIntArray(vec![2, -3])]
        ),
        err("reshape target dimension must be non-negative, got -3")
    );
    assert_eq!(
        call(IntrinsicFn::Reshape, args(), vec![dims(vec![6]), Type::I32]),
        err("reshape expects a constant integer array for shape")
    );
    assert_eq!(
        call(IntrinsicFn::Reshape, args(), vec![Type::I32, Type::ConstIntArray(vec![])]),
        err("reshape expects a tensor")
    );
    assert_eq!(
        call(IntrinsicFn::Reshape, vec![first()], vec![dims(vec![6])]),
        err("reshape requires target shape")
    );
}

#[test]
fn layers_that_keep_the_shape_and_sums() {
    let labelled = Type::Privacy(Box::new(dims(vec![2, 3])), PrivacyTag::Private);
    assert_eq!(
        call(IntrinsicFn::Relu, vec![first()], vec![labelled]),
        receiver(dims(vec![2, 3]))
    );
    assert_eq!(
        call(IntrinsicFn::Dropout, vec![first()], vec![Type::F32]),
        err("expects a tensor, got F32")
    );
    assert_eq!(
        call(IntrinsicFn::LayerNorm, vec![], vec![]),
        err("passthrough intrinsic requires at least 1 argument")
    );
    assert_eq!(
        call(IntrinsicFn::Sum, vec![first()], vec![dims(vec![2])]),
        receiver(Type::F32)
    );
    let labelled = Type::Privacy(Box::new(dims(vec![2])), PrivacyTag::Private);
    assert_eq!(call(IntrinsicFn::Sum, vec![first()], vec![labelled]), receiver(Type::F32));
    assert_eq!(
        call(IntrinsicFn::Sum, vec![first()], vec![Type::Char]),
        err("sum expects a tensor, got Char")
    );
    assert_eq!(call(IntrinsicFn::Sum, vec![], vec![]), err("sum requires at least 1 argument"));
}

#[test]
fn constant_integer_expressions() {
    let e = binary(
        BinaryOp::Sub,
        binary(BinaryOp::Mul, lit(6), lit(7)),
        expr(ExprKind::Unary { op: UnaryOp::Neg, expr: Box::new(lit(2)) }),
    );
    assert_eq!(eval_const_int_expr(&e), Some(44));
    assert_eq!(eval_const_int_expr(&binary(BinaryOp::Div, lit(-7), lit(2))), Some(-3));
    assert_eq!(eval_const_int_expr(&binary(BinaryOp::Div, lit(7), lit(0))), None);
    assert_eq!(eval_const_int_expr(&binary(BinaryOp::Mod, lit(7), lit(2))), None);
    assert_eq!(eval_const_int_expr(&expr(ExprKind::Ident("n".to_string()))), None);
    assert_eq!(
        eval_const_int_expr(&expr(ExprKind::Literal(Literal::UInt64(u64::MAX)))),
        Some(-1)
    );
    assert_eq!(
        eval_const_int_expr(&expr(ExprKind::Literal(Literal::Int128(1i128 << 64)))),
        Some(0)
    );
    assert_eq!(low_u128((1u128 << 63) + 5), i64::MIN + 5);
}

#[test]
fn named_integer_arguments() {
    let args = vec![first(), named("a", 3), named("a", 4)];
    assert_eq!(extract_int_arg(&args, "a"), Ok(3));
    assert_eq!(
        extract_int_arg(&args, "b"),
        Err("parameter 'b' not found".to_string())
    );
    let args = vec![CallArg::Named("a".to_string(), expr(ExprKind::Ident("n".to_string())))];
    assert_eq!(
        extract_int_arg(&args, "a"),
        Err("parameter 'a' is not a constant integer expression".to_string())
    );
}

#[test]
fn arguments_by_position_or_name() {
    let args = vec![named("b", 2), CallArg::Positional(lit(5)), named("a", 1)];
    let show = |r: Result<&Expr, String>| r.map(eval_const_int_expr);
    assert_eq!(show(get_arg_by_pos_or_name(&args, 0, "b")), Ok(Some(2)));
    assert_eq!(show(get_arg_by_pos_or_name(&args, 0, "a")), Ok(Some(1)));
    assert_eq!(show(get_arg_by_pos_or_name(&args, 1, "a")), Ok(Some(5)));
    assert_eq!(
        show(get_arg_by_pos_or_name(&args, 7, "c")),
        Err("argument 'c' not found (tried position 8 and name 'c')".to_string())
    );
}

#[test]
fn arguments_of_tensor_control_flow() {
    let args = vec![named("else", 4), named("input", 1), named("then", 3), named("condition", 2)];
    let r = extract_tensor_cond_args(&args).ok().unwrap();
    assert_eq!(eval_const_int_expr(r.input), Some(1));
    assert_eq!(eval_const_int_expr(r.condition), Some(2));
    assert_eq!(eval_const_int_expr(r.then_expr), Some(3));
    assert_eq!(eval_const_int_expr(r.else_expr), Some(4));
    let few = vec![named("init", 1), CallArg::Positional(lit(2))];
    assert_eq!(
        extract_tensor_while_loop_args(&few).err().unwrap(),
        "argument 'body' not found (tried position 3 and name 'body')"
    );
    let full = vec![CallArg::Positional(lit(1)), CallArg::Positional(lit(2)), named("body", 3)];
    let r = extract_tensor_while_loop_args(&full).ok().unwrap();
    assert_eq!(eval_const_int_expr(r.init), Some(1));
    assert_eq!(eval_const_int_expr(r.cond), Some(2));
    assert_eq!(eval_const_int_expr(r.body), Some(3));
}

#[test]
fn entries_can_be_copied_and_names_ordered() {
    let print = get_intrinsic(IntrinsicFn::Print).unwrap();
    assert_eq!(format!("{:?}", print.clone()), format!("{:?}", print));
    let nan = get_constant(IntrinsicConst::F64Nan).unwrap();
    assert_eq!(format!("{:?}", nan.clone()), format!("{:?}", nan));
    assert!(IntrinsicFn::Print < IntrinsicFn::Panic);
    assert!(IntrinsicConst::I8Max < IntrinsicConst::F64Nan);
}
