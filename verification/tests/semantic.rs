use xiyi_compiler::ast::{BinaryOp, PrivacyTag, ShapeDim, Type, UnaryOp};
use xiyi_compiler::expr::{
    Attribute, AttributeArg, Block, CallArg, Expr, ExprKind, FnDef, ImplementDef, Param, Stmt,
};
use xiyi_compiler::item::{ConstDef, EnumDef, FieldDef, Item, ModelDef, StructDef, VariantDef};
use xiyi_compiler::literal::Literal;
use xiyi_compiler::semantic::given::Checked;
use xiyi_compiler::semantic::lookup::MethodTarget;
use xiyi_compiler::semantic::rational::{Rational, RationalError};
use xiyi_compiler::semantic::TypeChecker;
use xiyi_compiler::table::Table;

fn expr(kind: ExprKind) -> Expr {
    Expr { id: 0, kind }
}

fn ident(s: &str) -> Expr {
    expr(ExprKind::Ident(s.to_string()))
}

fn lit(v: i32) -> Expr {
    expr(ExprKind::Literal(Literal::Int32(v)))
}

fn struct_type(s: &str) -> Type {
    Type::Struct(s.to_string())
}

fn private(t: Type) -> Type {
    Type::Privacy(Box::new(t), PrivacyTag::Private)
}

fn dp(eps: &str, delta: Option<&str>) -> PrivacyTag {
    PrivacyTag::Differential { eps: eps.to_string(), delta: delta.map(|d| d.to_string()) }
}

fn reference(mutable: bool, t: Type) -> Type {
    Type::Ref { mutable, inner: Box::new(t) }
}

fn func(name: &str, params: Vec<(&str, Type)>, ret: Option<Type>) -> FnDef {
    FnDef {
        attributes: vec![],
        name: name.to_string(),
        generic_params: vec![],
        params: params
            .into_iter()
            .map(|(n, ty)| Param { name: n.to_string(), ty })
            .collect(),
        return_type: ret,
        body: Block { stmts: vec![] },
    }
}

/// An expression with an id, which is noted when it is checked.
fn numbered(id: usize, name: &str) -> Expr {
    Expr { id, kind: ExprKind::Ident(name.to_string()) }
}

fn arg(name: &str) -> CallArg {
    CallArg::Positional(ident(name))
}

/// A check of expressions: names stand for types or for variables, `hint` has the type
/// that is expected of it, and `bad` is in error.
fn check_expr(mut c: TypeChecker, e: &Expr, expected: Option<&Type>) -> Checked<Type> {
    let r = match &e.kind {
        ExprKind::Literal(_) => Ok(Type::I32),
        ExprKind::Ident(n) => match n.as_str() {
            "bad" => Err("bad".to_string()),
            "never" => Ok(Type::Never),
            "text" => Ok(Type::Str),
            "ref" => Ok(reference(false, Type::Str)),
            "S" => Ok(struct_type("S")),
            "box" => Ok(Type::Generic("Box".to_string(), vec![Type::U8])),
            "returned" => Ok(c.current_return_type.clone().unwrap_or(Type::Unit)),
            "hint" => Ok(expected.cloned().unwrap_or(Type::Unit)),
            _ => match c.scopes.iter().rev().find_map(|s| s.get(n)) {
                Some(t) => Ok(t.clone()),
                None => Err(format!("undefined `{}`", n)),
            },
        },
        _ => Ok(Type::Unit),
    };
    if let Ok(t) = &r {
        c.expr_types.insert(e.id, t.clone());
    }
    (c, r)
}

fn check_stmt(c: TypeChecker, s: &Stmt) -> Checked<Type> {
    match s {
        Stmt::ExprStmt(e) => check_expr(c, e, None),
        _ => (c, Ok(Type::Never)),
    }
}

fn no_demands(_: &TypeChecker, _: &FnDef) -> Result<(), String> {
    Ok(())
}

fn unify(
    _: &TypeChecker,
    actual: &Type,
    declared: &Type,
    mut bindings: Table<String, Type>,
) -> (Table<String, Type>, bool) {
    match (actual, declared) {
        (_, Type::TypeParam(n)) => {
            bindings.insert(n.clone(), actual.clone());
            (bindings, true)
        }
        (Type::Generic(m, x), Type::Generic(n, y)) if m == n && x.len() == 1 && y.len() == 1 => {
            unify(&TypeChecker::new(), &x[0], &y[0], bindings)
        }
        _ => {
            let same = format!("{:?}", actual) == format!("{:?}", declared);
            (bindings, same)
        }
    }
}

fn substitute(_: &TypeChecker, ty: &Type, bindings: &Table<String, Type>) -> Type {
    match ty {
        Type::TypeParam(n) => bindings.get(n).cloned().unwrap_or(ty.clone()),
        _ => ty.clone(),
    }
}

fn call(c: &mut TypeChecker, func: &str, args: Vec<CallArg>) -> Result<String, String> {
    shown(c.check_method_call(func, &args, check_expr, unify, substitute))
}

fn static_call(
    c: &mut TypeChecker,
    func: &str,
    args: Vec<CallArg>,
    expected: Option<&Type>,
) -> Result<String, String> {
    shown(c.check_qualified_static_call("S", func, &args, expected, check_expr, unify, substitute))
}

fn check_func(c: &mut TypeChecker, f: &FnDef) -> Result<(), String> {
    c.check_func(f, check_stmt, check_expr, no_demands)
}

fn with_body(mut f: FnDef, stmts: Vec<Stmt>) -> FnDef {
    f.body = Block { stmts };
    f
}

fn tail(name: &str) -> Vec<Stmt> {
    vec![Stmt::ExprStmt(ident(name))]
}

fn shown(r: Result<Type, String>) -> Result<String, String> {
    r.map(|t| format!("{:?}", t))
}

fn ok(s: &str) -> Result<String, String> {
    Ok(s.to_string())
}

fn err(s: &str) -> Result<String, String> {
    Err(s.to_string())
}

// Types.

#[test]
fn equal_types() {
    let c = TypeChecker::new();
    assert!(c.types_equal(&Type::I32, &Type::I32));
    assert!(!c.types_equal(&Type::I32, &Type::U32));
    assert!(c.types_equal(&struct_type("S"), &struct_type("S")));
    assert!(!c.types_equal(&struct_type("S"), &Type::Enum("S".to_string())));
    let g = |a: Type| Type::Generic("G".to_string(), vec![a]);
    assert!(c.types_equal(&g(Type::Bool), &g(private(Type::Bool))));
    assert!(!c.types_equal(&g(Type::Bool), &g(Type::Char)));
    assert!(!c.types_equal(&g(Type::Bool), &Type::Generic("G".to_string(), vec![])));
    assert!(!c.types_equal(&reference(true, Type::I8), &reference(false, Type::I8)));
    assert!(c.types_equal(&Type::Never, &Type::Never));
    assert!(c.types_equal(&Type::SelfType, &Type::SelfType));
    assert!(!c.types_equal(&Type::SelfType, &Type::I32));
    assert!(c.types_equal(&Type::SymInt, &Type::SymInt));
    let pair = |a: Type, b: Type| Type::Tuple(vec![a, b]);
    assert!(c.types_equal(&Type::Tuple(vec![]), &Type::Tuple(vec![])));
    assert!(c.types_equal(&pair(Type::I8, Type::Str), &pair(private(Type::I8), Type::Str)));
    assert!(!c.types_equal(&pair(Type::I8, Type::Str), &pair(Type::I8, Type::Bool)));
    assert!(!c.types_equal(&pair(Type::I8, Type::I8), &Type::Tuple(vec![Type::I8])));
    let array = |a: Type, n: usize| Type::Array(Box::new(a), n);
    assert!(c.types_equal(&array(Type::I8, 3), &array(Type::I8, 3)));
    assert!(!c.types_equal(&array(Type::I8, 3), &array(Type::I8, 4)));
    assert!(!c.types_equal(&array(Type::I8, 3), &array(Type::U8, 3)));
}

#[test]
fn labels_do_not_count_for_equality() {
    let c = TypeChecker::new();
    assert!(c.types_equal(&private(Type::F32), &Type::F32));
    assert!(c.types_equal(&Type::F32, &private(private(Type::F32))));
    assert!(c.types_equal(
        &private(Type::F32),
        &Type::Privacy(Box::new(Type::F32), PrivacyTag::Public)
    ));
}

#[test]
fn tensors_are_equal_dimension_by_dimension() {
    let c = TypeChecker::new();
    let t = |d: ShapeDim| Type::Tensor { dtype: Box::new(Type::F32), shape: vec![d] };
    assert!(c.types_equal(&t(ShapeDim::Const(3)), &t(ShapeDim::Const(3))));
    assert!(!c.types_equal(&t(ShapeDim::Const(3)), &t(ShapeDim::Const(4))));
    assert!(c.types_equal(&t(ShapeDim::Dyn), &t(ShapeDim::Dyn)));
    assert!(!c.types_equal(&t(ShapeDim::Dyn), &t(ShapeDim::Const(3))));
    assert!(c.types_equal(
        &t(ShapeDim::Sym("N".to_string())),
        &t(ShapeDim::Sym("N".to_string()))
    ));
    assert!(!c.types_equal(
        &t(ShapeDim::Sym("N".to_string())),
        &t(ShapeDim::Sym("M".to_string()))
    ));
    assert!(c.types_equal(&Type::ConstIntArray(vec![1, 2]), &Type::ConstIntArray(vec![1, 2])));
    assert!(!c.types_equal(&Type::ConstIntArray(vec![1]), &Type::ConstIntArray(vec![2])));
}

#[test]
fn never_fits_everywhere() {
    let c = TypeChecker::new();
    assert!(c.types_equal_allowing_never(&Type::Never, &Type::I32));
    assert!(c.types_equal_allowing_never(&private(Type::Never), &Type::I32));
    assert!(!c.types_equal_allowing_never(&Type::I32, &Type::Never));
}

#[test]
fn never_and_type_parameters_equal_themselves_alone() {
    let c = TypeChecker::new();
    let param = |s: &str| Type::TypeParam(s.to_string());
    assert!(c.types_equal(&Type::Never, &Type::Never));
    assert!(!c.types_equal(&Type::Never, &Type::I32));
    assert!(!c.types_equal(&Type::I32, &Type::Never));
    assert!(c.types_equal(&param("T"), &private(param("T"))));
    assert!(!c.types_equal(&param("T"), &param("U")));
    assert!(!c.types_equal(&param("T"), &Type::I32));
}

#[test]
fn kinds_of_types() {
    let c = TypeChecker::new();
    assert!(c.is_numeric_type(&Type::U128) && c.is_numeric_type(&Type::F16));
    assert!(!c.is_numeric_type(&Type::Bool));
    assert!(c.is_signed_numeric_type(&Type::F64) && !c.is_signed_numeric_type(&Type::U8));
    assert!(c.is_integer_type(&Type::U8) && !c.is_integer_type(&Type::F32));
    assert_eq!(
        format!("{:?}", c.strip_ref(&reference(true, reference(false, Type::I8)))),
        "I8"
    );
}

#[test]
fn what_can_be_assigned() {
    let c = TypeChecker::new();
    assert!(c.is_assignable(&ident("x")));
    assert!(c.is_assignable(&expr(ExprKind::FieldAccess {
        struct_expr: Box::new(ident("x")),
        field_name: "f".to_string(),
    })));
    assert!(c.is_assignable(&expr(ExprKind::Index {
        expr: Box::new(ident("x")),
        index: Box::new(lit(0)),
    })));
    assert!(!c.is_assignable(&lit(1)));
}

// Privacy labels.

#[test]
fn equal_labels() {
    let c = TypeChecker::new();
    assert_eq!(c.privacy_tags_equal(&PrivacyTag::Public, &PrivacyTag::Public), Ok(true));
    assert_eq!(c.privacy_tags_equal(&PrivacyTag::Public, &PrivacyTag::Private), Ok(false));
    assert_eq!(c.privacy_tags_equal(&dp("1/2", None), &dp("0.50", None)), Ok(true));
    assert_eq!(c.privacy_tags_equal(&dp("1/2", Some("0")), &dp("0.5", None)), Ok(false));
    assert_eq!(
        c.privacy_tags_equal(&dp("1/2", Some("1e-5")), &dp("0.5", Some("0"))),
        Err("invalid differential delta `1e-5`/`0`: InvalidFormat".to_string())
    );
    assert_eq!(
        c.privacy_tags_equal(&dp("1/0", None), &dp("0.5", None)),
        Err("invalid differential eps `1/0`/`0.5`: ZeroDenominator".to_string())
    );
}

#[test]
fn joining_labels() {
    let c = TypeChecker::new();
    let join = |a: &PrivacyTag, b: &PrivacyTag| {
        c.join_privacy_tags(a, b).map(|t| format!("{:?}", t))
    };
    assert_eq!(join(&PrivacyTag::Public, &PrivacyTag::Private), ok("Private"));
    assert_eq!(join(&PrivacyTag::Private, &dp("1", None)), ok("Private"));
    assert_eq!(join(&dp("1", None), &PrivacyTag::Public), Ok(format!("{:?}", dp("1", None))));
    assert_eq!(
        join(&dp("1/2", Some("1/100")), &dp("1/3", Some("1/50"))),
        Ok(format!("{:?}", dp("1/3", Some("1/50"))))
    );
    assert_eq!(
        join(&dp("1/2", None), &dp("1/2", Some("0.1"))),
        Ok(format!("{:?}", dp("1/2", Some("0.1"))))
    );
    assert_eq!(
        join(&dp("x", None), &dp("1", None)),
        err("invalid differential eps `x`/`1`: InvalidFormat")
    );
}

#[test]
fn joins_do_not_depend_on_the_order() {
    let c = TypeChecker::new();
    let tags = vec![
        PrivacyTag::Public,
        PrivacyTag::Private,
        dp("1/2", None),
        dp("0.5", Some("1/100")),
        dp("1/3", Some("0.01")),
        dp("2", Some("1/50")),
    ];
    for a in &tags {
        for b in &tags {
            let x = c.join_privacy_tags(a, b).unwrap();
            let y = c.join_privacy_tags(b, a).unwrap();
            assert_eq!(c.privacy_tags_equal(&x, &y), Ok(true));
        }
    }
}

#[test]
fn numbers_after_one_that_cannot_be_read_are_not_read() {
    let long = "0.0000000000000000000000000000000000000000000001";
    assert!(!TypeChecker::rational_in_range(long));
    assert_eq!(TypeChecker::rational_le("x", long), Err(RationalError::InvalidFormat));
    assert_eq!(TypeChecker::rational_eq("1/0", long), Err(RationalError::ZeroDenominator));
    assert_eq!(TypeChecker::rational_min("", long), Err(RationalError::Empty));
    let c = TypeChecker::new();
    assert!(c.privacy_tags_equal(&dp("x", Some(long)), &dp(long, Some(long))).is_err());
    assert!(c.join_privacy_tags(&dp("1", Some(long)), &dp("x", Some(long))).is_err());
    assert!(TypeChecker::pair_in_range("x", long) && !TypeChecker::pair_in_range("1", long));
    assert!(TypeChecker::tags_in_range(&dp("x", None), &dp(long, None)));
    assert!(!TypeChecker::tags_in_range(&dp("1", Some("1")), &dp("2", Some(long))));
    let labelled = |t: Type, g: PrivacyTag| Type::Privacy(Box::new(t), g);
    let wide = || dp(long, None);
    assert!(c.labels_in_range(&labelled(Type::I8, wide()), &labelled(Type::I16, wide())));
    assert!(!c.labels_in_range(&labelled(Type::I8, wide()), &labelled(Type::I8, wide())));
}

#[test]
fn labels_of_types() {
    let c = TypeChecker::new();
    let t = reference(false, private(Type::I8));
    assert_eq!(format!("{:?}", c.extract_privacy_tag(&t)), "Some(Private)");
    assert!(c.extract_privacy_tag(&Type::I8).is_none());
    assert_eq!(format!("{:?}", c.strip_privacy(&t)), format!("{:?}", reference(false, Type::I8)));
    assert_eq!(
        format!("{:?}", c.apply_privacy_tag(Type::I8, Some(PrivacyTag::Private))),
        format!("{:?}", private(Type::I8))
    );
    assert_eq!(format!("{:?}", c.apply_privacy_tag(Type::I8, None)), "I8");
    let join = |a: &Type, b: &Type| c.join_privacy_labels(a, b).map(|t| format!("{:?}", t));
    assert_eq!(join(&Type::I8, &Type::I8), ok("None"));
    assert_eq!(join(&Type::I8, &private(Type::I8)), ok("Some(Private)"));
    assert_eq!(join(&t, &Type::I8), ok("Some(Private)"));
}

#[test]
fn types_equal_up_to_labels() {
    let c = TypeChecker::new();
    let public = |t: Type| Type::Privacy(Box::new(t), PrivacyTag::Public);
    assert_eq!(c.types_equal_with_privacy(&private(Type::I8), &private(Type::I8)), Ok(true));
    assert_eq!(c.types_equal_with_privacy(&private(Type::I8), &public(Type::I8)), Ok(false));
    assert_eq!(c.types_equal_with_privacy(&private(Type::I8), &Type::I8), Ok(true));
    assert_eq!(c.types_equal_with_privacy(&Type::I8, &private(Type::I16)), Ok(false));
}

// Rational numbers.

fn rational(s: &str) -> Result<(i128, u128), RationalError> {
    TypeChecker::parse_rational(s).map(|r: Rational| (r.num, r.den))
}

#[test]
fn reading_rationals() {
    assert_eq!(rational(" 3/4 "), Ok((3, 4)));
    assert_eq!(rational("-6 / 8"), Ok((-6, 8)));
    assert_eq!(rational("42"), Ok((42, 1)));
    assert_eq!(rational("+42"), Ok((42, 1)));
    assert_eq!(rational("1.250"), Ok((125, 100)));
    assert_eq!(rational("-0.5"), Ok((-5, 10)));
    assert_eq!(rational("-.5"), Ok((-5, 10)));
    assert_eq!(rational(".5"), Ok((5, 10)));
    assert_eq!(rational("7."), Ok((7, 1)));
    assert_eq!(rational("2.00"), Ok((2, 1)));
    assert_eq!(rational(".0"), Ok((0, 1)));
    assert_eq!(rational("-.0"), Ok((0, 1)));
}

#[test]
fn what_is_no_rational() {
    assert_eq!(rational("  "), Err(RationalError::Empty));
    assert_eq!(rational("1/2/3"), Err(RationalError::InvalidFormat));
    assert_eq!(rational("x/2"), Err(RationalError::InvalidNumerator));
    assert_eq!(rational("1/-2"), Err(RationalError::InvalidDenominator));
    assert_eq!(rational("1/0"), Err(RationalError::ZeroDenominator));
    assert_eq!(rational("1.2.3"), Err(RationalError::InvalidDecimal));
    assert_eq!(rational("x.5"), Err(RationalError::InvalidDecimal));
    assert_eq!(rational("1.-5"), Err(RationalError::InvalidDecimal));
    assert_eq!(rational("1.+5"), Err(RationalError::InvalidDecimal));
    assert_eq!(rational("1.-0"), Err(RationalError::InvalidDecimal));
    assert_eq!(rational("."), Err(RationalError::InvalidDecimal));
    assert_eq!(rational("-."), Err(RationalError::InvalidDecimal));
    assert_eq!(rational("+.5"), Err(RationalError::InvalidDecimal));
    assert_eq!(rational("abc"), Err(RationalError::InvalidFormat));
}

#[test]
fn comparing_rationals() {
    assert_eq!(TypeChecker::rational_le("1/3", "0.34"), Ok(true));
    assert_eq!(TypeChecker::rational_le("0.34", "1/3"), Ok(false));
    assert_eq!(TypeChecker::rational_le("-1/2", "-1/3"), Ok(true));
    assert_eq!(TypeChecker::rational_le("-1", "1"), Ok(true));
    assert_eq!(TypeChecker::rational_eq("2/4", "0.5"), Ok(true));
    assert_eq!(TypeChecker::rational_eq("0/5", "0"), Ok(true));
    assert_eq!(TypeChecker::rational_eq("1", "x"), Err(RationalError::InvalidFormat));
    assert_eq!(TypeChecker::rational_min("1/2", "1/3"), Ok("1/3".to_string()));
    assert_eq!(TypeChecker::rational_min("0.5", "1/2"), Ok("0.5".to_string()));
    assert_eq!(
        TypeChecker::rational_le(
            "170141183460469231731687303715884105727/1",
            "1/340282366920938463463374607431768211455"
        ),
        Err(RationalError::Overflow)
    );
    assert!(TypeChecker::rational_in_range("0.5"));
    assert!(!TypeChecker::rational_in_range("0.1234567890123456789012345678901234567891"));
}

// Attributes.

#[test]
fn attributes_and_their_arguments() {
    let attrs = vec![
        Attribute { name: "a".to_string(), args: vec![AttributeArg::Ident("x".to_string())] },
        Attribute {
            name: "b".to_string(),
            args: vec![
                AttributeArg::Ident("k".to_string()),
                AttributeArg::KeyValue(
                    "k".to_string(),
                    Box::new(AttributeArg::Rational("3/4".to_string())),
                ),
            ],
        },
    ];
    assert!(TypeChecker::find_attr(&attrs, "c").is_none());
    let b = TypeChecker::find_attr(&attrs, "b").unwrap();
    assert!(TypeChecker::find_key_value_arg(b, "x").is_none());
    let v = TypeChecker::find_key_value_arg(b, "k").unwrap();
    assert_eq!(TypeChecker::rational_arg_to_f64(v), Ok(0.75f64.to_bits()));
    assert_eq!(
        TypeChecker::rational_arg_to_f64(&AttributeArg::Ident("x".to_string())),
        Err("expected rational argument".to_string())
    );
    assert_eq!(
        TypeChecker::rational_arg_to_f64(&AttributeArg::Rational("1/0".to_string())),
        Err("invalid rational literal `1/0`: ZeroDenominator".to_string())
    );
    assert_eq!(
        TypeChecker::rational_arg_to_f64(&AttributeArg::Rational("-1/3".to_string())),
        Ok((-1.0f64 / 3.0).to_bits())
    );
}

// Helpers.

#[test]
fn files_of_modules() {
    let c = TypeChecker::new();
    assert_eq!(c.import_path("io", "/lib"), "/lib/xiyi-core/src/io.xiyi");
    assert_eq!(c.resolve_import("io", "/lib", true), ok("/lib/xiyi-core/src/io.xiyi"));
    assert_eq!(c.resolve_import("io", "/lib", false), err("module not found: io"));
}

#[test]
fn values_known_at_compile_time() {
    let mut c = TypeChecker::new();
    c.consts.insert("N".to_string(), Type::I32);
    assert!(c.is_compile_time_constant(&lit(1)));
    assert!(c.is_compile_time_constant(&ident("N")));
    assert!(!c.is_compile_time_constant(&ident("n")));
    let sum = |l: Expr, r: Expr| {
        expr(ExprKind::BinaryOp { op: BinaryOp::Add, left: Box::new(l), right: Box::new(r) })
    };
    assert!(c.is_compile_time_constant(&sum(lit(1), ident("N"))));
    assert!(!c.is_compile_time_constant(&sum(lit(1), ident("n"))));
    let unary = |op: UnaryOp| expr(ExprKind::Unary { op, expr: Box::new(lit(1)) });
    assert!(c.is_compile_time_constant(&unary(UnaryOp::Neg)));
    assert!(!c.is_compile_time_constant(&unary(UnaryOp::Not)));
    assert!(c.is_compile_time_constant(&expr(ExprKind::LackSlice(vec![ident("n")]))));
    assert_eq!(c.shape_dim_to_i64(&ShapeDim::Const(5)), Ok(5));
    assert_eq!(
        c.shape_dim_to_i64(&ShapeDim::Dyn),
        Err("expected constant dimension".to_string())
    );
}

#[test]
fn expressions_of_arguments() {
    let mut c = TypeChecker::new();
    let p = CallArg::Positional(lit(1));
    let n = CallArg::Named("k".to_string(), ident("text"));
    assert_eq!(shown(c.check_call_arg(&p, check_expr)), ok("I32"));
    assert_eq!(shown(c.check_call_arg(&n, check_expr)), ok("Str"));
    assert_eq!(shown(c.check_call_arg(&arg("hint"), check_expr)), ok("Unit"));
}

// Methods.

fn with_methods() -> TypeChecker {
    let mut c = TypeChecker::new();
    let imp = ImplementDef {
        target_type: struct_type("S"),
        functions: vec![
            func("get", vec![("self", Type::SelfType), ("i", Type::I32)], Some(Type::Bool)),
            func("make", vec![("i", Type::I32)], None),
        ],
    };
    assert_eq!(c.register_impl(&imp), Ok(()));
    c
}

#[test]
fn registering_methods() {
    let mut c = with_methods();
    let again = ImplementDef {
        target_type: struct_type("S"),
        functions: vec![func("new", vec![], None), func("get", vec![], None)],
    };
    assert_eq!(
        c.register_impl(&again),
        Err(
            "error[IMP001]: conflicting implementations of method `get` for type `S`".to_string()
        )
    );
    assert!(matches!(c.find_method(&struct_type("S"), "new"), MethodTarget::Method(_)));
    let other = ImplementDef {
        target_type: struct_type("R"),
        functions: vec![func("get", vec![], None)],
    };
    assert_eq!(c.register_impl(&other), Ok(()));
    let plain = ImplementDef { target_type: Type::I32, functions: vec![func("get", vec![], None)] };
    assert_eq!(c.register_impl(&plain), Ok(()));
    assert!(matches!(c.find_method(&Type::I32, "get"), MethodTarget::Unknown));
    assert_eq!(TypeChecker::type_key_for_impl_target(&Type::I32), None);
    assert_eq!(
        TypeChecker::type_key_for_impl_target(&Type::Generic("G".to_string(), vec![])),
        Some("G".to_string())
    );
}

#[test]
fn a_method_keeps_its_definition() {
    let c = with_methods();
    match c.find_method(&private(struct_type("S")), "get") {
        MethodTarget::Method(m) => {
            assert_eq!(m.fn_def.name, "get");
            assert_eq!(m.fn_def.params.len(), 2);
            assert_eq!(format!("{:?}", m.target_type), "Struct(\"S\")");
        }
        _ => panic!("no method"),
    }
}

#[test]
fn methods_of_primitive_types() {
    let c = TypeChecker::new();
    let b = |t: &Type, m: &str| {
        c.builtin_primitive_method_return_type(t, m).map(|t| format!("{:?}", t))
    };
    assert_eq!(b(&Type::Str, "len"), Some("U64".to_string()));
    assert_eq!(b(&Type::Str, "is_empty"), Some("Bool".to_string()));
    assert_eq!(
        b(&Type::Str, "as_bytes"),
        Some("Ref { mutable: false, inner: Slice(U8) }".to_string())
    );
    assert_eq!(b(&Type::I16, "abs"), Some("I16".to_string()));
    assert_eq!(b(&Type::U16, "abs"), None);
    assert_eq!(b(&Type::Str, "abs"), None);
}

#[test]
fn method_calls() {
    let mut c = with_methods();
    assert_eq!(call(&mut c, "get", vec![]), err("method call requires a receiver"));
    assert_eq!(call(&mut c, "get", vec![arg("S"), CallArg::Positional(lit(1))]), ok("Bool"));
    assert_eq!(call(&mut c, "make", vec![arg("S"), CallArg::Positional(lit(1))]), ok("Unit"));
    assert_eq!(
        call(&mut c, "get", vec![arg("S")]),
        err("method `get` expects 1 argument(s), got 0")
    );
    assert_eq!(
        call(&mut c, "get", vec![arg("S"), arg("text")]),
        err("type mismatch in call to `get`: parameter `i` expected I32, got Str")
    );
    assert_eq!(call(&mut c, "get", vec![arg("bad")]), err("bad"));
    assert_eq!(call(&mut c, "get", vec![arg("S"), arg("bad")]), err("bad"));
    assert_eq!(call(&mut c, "nothing", vec![arg("S"), arg("text")]), ok("I32"));
    assert_eq!(call(&mut c, "nothing", vec![arg("S"), arg("bad")]), err("bad"));
    assert_eq!(call(&mut c, "len", vec![arg("ref")]), ok("U64"));
    assert_eq!(call(&mut c, "len", vec![arg("ref"), arg("bad")]), err("bad"));
}

#[test]
fn arguments_are_checked_up_to_the_first_complaint() {
    let mut c = with_methods();
    let args = vec![
        CallArg::Positional(numbered(1, "S")),
        CallArg::Positional(numbered(2, "text")),
    ];
    assert!(call(&mut c, "get", args).is_err());
    assert!(c.expr_types.contains_key(&1) && c.expr_types.contains_key(&2));
    let mut c = with_methods();
    let args = vec![
        CallArg::Positional(numbered(1, "S")),
        CallArg::Positional(numbered(2, "text")),
        CallArg::Positional(numbered(3, "text")),
    ];
    assert_eq!(
        call(&mut c, "get", args),
        err("method `get` expects 1 argument(s), got 2")
    );
    assert!(c.expr_types.contains_key(&1) && !c.expr_types.contains_key(&2));
    let mut c = with_methods();
    let args = vec![
        CallArg::Positional(numbered(1, "S")),
        arg("bad"),
        CallArg::Positional(numbered(3, "text")),
    ];
    assert_eq!(call(&mut c, "nothing", args), err("bad"));
    assert!(!c.expr_types.contains_key(&3));
}

#[test]
fn receivers_and_arguments_bind_type_parameters() {
    let mut c = TypeChecker::new();
    let t = || Type::TypeParam("T".to_string());
    let imp = ImplementDef {
        target_type: Type::Generic("Box".to_string(), vec![t()]),
        functions: vec![
            func("take", vec![("self", Type::SelfType)], Some(t())),
            func(
                "put",
                vec![("self", Type::SelfType), ("x", Type::TypeParam("U".to_string()))],
                Some(Type::TypeParam("U".to_string())),
            ),
        ],
    };
    assert_eq!(c.register_impl(&imp), Ok(()));
    assert_eq!(call(&mut c, "take", vec![arg("box")]), ok("U8"));
    assert_eq!(call(&mut c, "put", vec![arg("box"), arg("text")]), ok("Str"));
}

#[test]
fn names_in_messages_are_quoted_as_debug_does() {
    let mut c = TypeChecker::new();
    let odd = || struct_type("a\"b\\\n\u{7f}\u{e9}");
    let imp = ImplementDef {
        target_type: odd(),
        functions: vec![func("get", vec![("self", Type::SelfType)], None)],
    };
    assert_eq!(c.register_impl(&imp), Ok(()));
    c.scopes[0].insert("x".to_string(), odd());
    let refuse = |_: &TypeChecker, _: &Type, _: &Type, b: Table<String, Type>| (b, false);
    let r = c.check_method_call("get", &[arg("x")], check_expr, refuse, substitute);
    assert_eq!(
        shown(r),
        Err(format!(
            "receiver type {:?} does not match implement target {:?} for method `get`",
            odd(),
            odd()
        ))
    );
}

#[test]
fn static_calls() {
    let mut c = with_methods();
    let one = || CallArg::Positional(lit(1));
    assert_eq!(static_call(&mut c, "make", vec![one()], None), ok("Unit"));
    assert_eq!(static_call(&mut c, "get", vec![one()], None), ok("Bool"));
    assert_eq!(static_call(&mut c, "none", vec![], None), err("undefined function `S::none`"));
    let r = c.check_qualified_static_call("T", "get", &[], None, check_expr, unify, substitute);
    assert_eq!(shown(r), err("undefined function `T::get`"));
    assert_eq!(
        static_call(&mut c, "make", vec![], None),
        err("`S::make` expects 1 argument(s), got 0")
    );
    assert_eq!(
        static_call(&mut c, "make", vec![arg("text")], None),
        err("type mismatch in call to `S::make`: parameter `i` expected I32, got Str")
    );
    assert_eq!(static_call(&mut c, "make", vec![arg("bad")], None), err("bad"));
}

#[test]
fn what_is_expected_binds_type_parameters() {
    let mut c = TypeChecker::new();
    let imp = ImplementDef {
        target_type: struct_type("S"),
        functions: vec![func("new", vec![], Some(Type::TypeParam("T".to_string())))],
    };
    assert_eq!(c.register_impl(&imp), Ok(()));
    assert_eq!(static_call(&mut c, "new", vec![], None), ok("TypeParam(\"T\")"));
    assert_eq!(static_call(&mut c, "new", vec![], Some(&Type::U8)), ok("U8"));
}

// Functions and closures.

#[test]
fn parameters_are_in_scope_in_the_body() {
    let mut c = TypeChecker::new();
    c.current_self_type = Some(struct_type("S"));
    let f = |name: &str, ret: Type| {
        with_body(
            func("f", vec![("self", Type::SelfType), ("x", Type::I8)], Some(ret)),
            tail(name),
        )
    };
    assert_eq!(check_func(&mut c, &f("x", Type::I8)), Ok(()));
    assert_eq!(check_func(&mut c, &f("self", struct_type("S"))), Ok(()));
    assert_eq!(c.fn_stack.len(), 0);
    assert_eq!(c.scopes.len(), 1);
    c.current_self_type = None;
    assert_eq!(
        check_func(&mut c, &f("self", Type::I8)),
        Err("expected return type I8, got SelfType".to_string())
    );
}

#[test]
fn a_function_in_progress_is_refused() {
    let mut c = TypeChecker::new();
    c.fn_stack.push("f".to_string());
    assert_eq!(
        check_func(&mut c, &func("f", vec![], None)),
        Err("error[MD002]: recursion not allowed in model block; graph must be topologically sortable".to_string())
    );
    assert_eq!(c.fn_stack.len(), 1);
    assert_eq!(check_func(&mut c, &func("g", vec![], None)), Ok(()));
}

#[test]
fn bodies_against_declared_types() {
    let check = |ret: Option<Type>, body: Type| {
        let mut c = TypeChecker::new();
        c.scopes[0].insert("b".to_string(), body);
        check_func(&mut c, &with_body(func("f", vec![], ret), tail("b")))
    };
    assert_eq!(check(Some(Type::I32), Type::I32), Ok(()));
    assert_eq!(check(None, Type::I32), Ok(()));
    assert_eq!(check(Some(Type::I32), Type::Never), Ok(()));
    assert_eq!(
        check(Some(Type::I32), Type::Str),
        Err("expected return type I32, got Str".to_string())
    );
    assert_eq!(
        check(Some(private(Type::I32)), Type::Privacy(Box::new(Type::I32), PrivacyTag::Public)),
        Err("privacy label mismatch: expected Privacy(I32, Private), got Privacy(I32, Public)"
            .to_string())
    );
}

#[test]
fn the_declared_type_is_expected_of_the_body() {
    let mut c = TypeChecker::new();
    let f = with_body(func("f", vec![], Some(Type::U16)), tail("hint"));
    assert_eq!(check_func(&mut c, &f), Ok(()));
    let f = with_body(func("f", vec![], Some(Type::U16)), tail("returned"));
    assert_eq!(check_func(&mut c, &f), Ok(()));
    assert!(c.current_return_type.is_none());
}

#[test]
fn complaints_about_bodies() {
    let mut c = TypeChecker::new();
    c.current_return_type = Some(Type::Char);
    let f = with_body(func("f", vec![], Some(Type::I32)), tail("bad"));
    assert_eq!(check_func(&mut c, &f), Err("bad".to_string()));
    assert_eq!(c.fn_stack, vec!["f".to_string()]);
    assert_eq!(format!("{:?}", c.current_return_type), "Some(Char)");
    let g = with_body(func("g", vec![], Some(Type::I32)), vec![Stmt::ExprStmt(lit(1))]);
    let r = c.check_func(&g, check_stmt, check_expr, |_: &TypeChecker, f: &FnDef| {
        Err(format!("demands on {}", f.name))
    });
    assert_eq!(r, Err("demands on g".to_string()));
    assert_eq!(c.fn_stack.len(), 2);
}

#[test]
fn closures() {
    let mut c = TypeChecker::new();
    c.scopes[0].insert("y".to_string(), Type::Bool);
    let closure = |body: &str| {
        expr(ExprKind::Closure { param: "x".to_string(), body: Box::new(ident(body)) })
    };
    let mut check = |body: &str, want: Option<&Type>| {
        let r = shown(c.check_closure(&closure(body), &Type::F32, want, check_expr));
        assert_eq!(c.scopes.len(), 1);
        assert!(c.scopes[0].contains_key(&"y".to_string()));
        r
    };
    assert_eq!(check("x", None), ok("F32"));
    assert_eq!(check("y", None), err("undefined `y`"));
    assert_eq!(check("x", Some(&Type::F32)), ok("F32"));
    assert_eq!(check("never", Some(&Type::F32)), ok("Never"));
    assert_eq!(
        check("x", Some(&Type::I8)),
        err("Closure return type F32 does not match expected I8")
    );
    assert_eq!(check("bad", None), err("bad"));
    assert_eq!(
        shown(c.check_closure(&lit(1), &Type::F32, None, check_expr)),
        err("Expected a closure")
    );
}

// Blocks and programs.

#[test]
fn types_of_blocks() {
    let check = |stmts: Vec<Stmt>, expected: Option<&Type>| {
        let mut c = TypeChecker::new();
        let b = Block { stmts };
        shown(c.check_block_with_expected(&b, expected, check_stmt, check_expr))
    };
    let e = |name: &str| Stmt::ExprStmt(ident(name));
    assert_eq!(check(vec![], Some(&Type::I8)), ok("Unit"));
    assert_eq!(check(vec![e("text"), e("S")], None), ok("Struct(\"S\")"));
    assert_eq!(check(vec![e("text"), e("bad"), e("other")], None), err("bad"));
    assert_eq!(check(vec![e("text"), e("hint")], Some(&Type::I8)), ok("I8"));
    assert_eq!(check(vec![e("hint"), Stmt::Return(None)], Some(&Type::I8)), ok("Never"));
    let mut c = TypeChecker::new();
    let b = Block { stmts: vec![e("hint")] };
    assert_eq!(shown(c.check_block(&b, check_stmt, check_expr)), ok("Unit"));
}

#[test]
fn statements_are_checked_in_order_up_to_the_first_error() {
    let mut c = TypeChecker::new();
    let b = Block {
        stmts: vec![
            Stmt::ExprStmt(numbered(1, "text")),
            Stmt::ExprStmt(numbered(2, "bad")),
            Stmt::ExprStmt(numbered(3, "text")),
        ],
    };
    assert_eq!(shown(c.check_block(&b, check_stmt, check_expr)), err("bad"));
    assert!(c.expr_types.contains_key(&1) && !c.expr_types.contains_key(&3));
}

fn take_model(mut c: TypeChecker, m: &ModelDef) -> Checked<()> {
    c.model_return_types.insert(m.name.clone(), Type::Bool);
    (c, Ok(()))
}

fn refuse_model(c: TypeChecker, m: &ModelDef) -> Checked<()> {
    (c, Err(format!("model {}", m.name)))
}

fn model() -> Item {
    Item::ModelDef(ModelDef {
        attributes: vec![],
        name: "M".to_string(),
        generic_params: vec![],
        fields: vec![],
        functions: vec![],
    })
}

#[test]
fn collecting_items() {
    let mut c = TypeChecker::new();
    let items = vec![
        Item::FnDef(func("f", vec![("x", Type::I8)], Some(Type::Bool))),
        Item::StructDef(StructDef {
            name: "S".to_string(),
            generic_params: vec![],
            fields: vec![FieldDef { name: "a".to_string(), ty: Type::I8 }],
        }),
        Item::EnumDef(EnumDef {
            name: "E".to_string(),
            generic_params: vec![],
            variants: vec![VariantDef { name: "A".to_string(), payload: None }],
        }),
        Item::ConstDef(ConstDef { name: "N".to_string(), ty: Type::I64, value: lit(3) }),
        Item::Implement(ImplementDef {
            target_type: struct_type("S"),
            functions: vec![func("get", vec![], None)],
        }),
        Item::Use("io".to_string()),
    ];
    for item in &items {
        assert_eq!(c.collect_item(item, refuse_model), Ok(()));
    }
    assert_eq!(
        format!("{:?}", c.functions.get(&"f".to_string()).unwrap().return_type),
        "Some(Bool)"
    );
    assert_eq!(c.structs.get(&"S".to_string()).unwrap().fields[0].name, "a");
    assert_eq!(c.enums.get(&"E".to_string()).unwrap().variants[0].name, "A");
    assert_eq!(format!("{:?}", c.consts.get(&"N".to_string())), "Some(I64)");
    assert!(matches!(c.find_method(&struct_type("S"), "get"), MethodTarget::Method(_)));
    assert_eq!(
        c.collect_item(&items[4], refuse_model),
        Err("error[IMP001]: conflicting implementations of method `get` for type `S`".to_string())
    );
    assert_eq!(c.collect_item(&model(), refuse_model), Err("model M".to_string()));
    assert_eq!(c.collect_item(&model(), take_model), Ok(()));
    assert!(c.model_return_types.contains_key(&"M".to_string()));
}

fn check_item(c: &mut TypeChecker, item: &Item) -> Result<(), String> {
    c.check_item(item, check_stmt, check_expr, no_demands, refuse_model)
}

#[test]
fn constants_have_their_declared_type() {
    let mut c = TypeChecker::new();
    let n = |ty: Type, value: Expr| Item::ConstDef(ConstDef { name: "N".to_string(), ty, value });
    assert_eq!(check_item(&mut c, &n(Type::I32, lit(3))), Ok(()));
    assert_eq!(
        check_item(&mut c, &n(Type::I64, lit(3))),
        Err("const type mismatch: expected I64, got I32".to_string())
    );
    assert_eq!(check_item(&mut c, &n(Type::I64, ident("bad"))), Err("bad".to_string()));
}

#[test]
fn blocks_of_methods_set_the_type_of_self() {
    let mut c = TypeChecker::new();
    let method = |name: &str, body: &str| {
        with_body(
            func(name, vec![("self", Type::SelfType)], Some(struct_type("S"))),
            tail(body),
        )
    };
    let imp = |functions: Vec<FnDef>| {
        Item::Implement(ImplementDef { target_type: struct_type("S"), functions })
    };
    assert_eq!(check_item(&mut c, &imp(vec![method("a", "self"), method("b", "self")])), Ok(()));
    assert!(c.current_self_type.is_none());
    assert_eq!(
        check_item(&mut c, &imp(vec![method("a", "bad"), method("b", "other")])),
        Err("bad".to_string())
    );
    assert_eq!(format!("{:?}", c.current_self_type), "Some(Struct(\"S\"))");
}

#[test]
fn other_items_have_nothing_to_check() {
    let mut c = TypeChecker::new();
    assert_eq!(check_item(&mut c, &Item::Use("io".to_string())), Ok(()));
    assert_eq!(check_item(&mut c, &model()), Err("model M".to_string()));
    assert_eq!(
        check_item(&mut c, &Item::FnDef(with_body(func("f", vec![], None), tail("bad")))),
        Err("bad".to_string())
    );
}

#[test]
fn all_items_are_collected_before_any_is_checked() {
    let check_known = |c: TypeChecker, e: &Expr, _: Option<&Type>| {
        let r = match &e.kind {
            ExprKind::Ident(n) if c.functions.contains_key(n) => Ok(Type::Bool),
            _ => Err("not known".to_string()),
        };
        (c, r)
    };
    let build = |items: &Vec<Item>, _: &Table<usize, Type>| Ok(items.len());
    let mut c = TypeChecker::new();
    let items = vec![
        Item::FnDef(with_body(func("f", vec![], None), tail("g"))),
        model(),
        Item::FnDef(with_body(func("g", vec![], None), tail("f"))),
    ];
    let r = c.check_program(
        &items,
        check_stmt,
        check_known,
        no_demands,
        take_model,
        take_model,
        build,
    );
    assert_eq!(r, Ok(3));
    let mut c = TypeChecker::new();
    let r = c.check_program(
        &items,
        check_stmt,
        check_known,
        no_demands,
        refuse_model,
        take_model,
        build,
    );
    assert_eq!(r, Err("model M".to_string()));
    assert!(c.functions.contains_key(&"f".to_string()));
    assert!(!c.functions.contains_key(&"g".to_string()));
    let mut c = TypeChecker::new();
    let r = c.check_program(
        &items,
        check_stmt,
        check_known,
        no_demands,
        take_model,
        refuse_model,
        build,
    );
    assert_eq!(r, Err("model M".to_string()));
    assert!(c.functions.contains_key(&"g".to_string()));
    let mut c = TypeChecker::new();
    let r: Result<usize, String> = c.check_program(
        &vec![],
        check_stmt,
        check_expr,
        no_demands,
        take_model,
        take_model,
        |_: &Vec<Item>, _: &Table<usize, Type>| Err("not built".to_string()),
    );
    assert_eq!(r, Err("not built".to_string()));
}
