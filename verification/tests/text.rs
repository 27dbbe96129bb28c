use xiyi_compiler::ast::{PrivacyTag, ShapeDim, Type};
use xiyi_compiler::debug::{show_tag, show_type};
use xiyi_compiler::float_text::parse_float_bits;
use xiyi_compiler::idset::IdSet;
use xiyi_compiler::number::{find_char, parse_digits, parse_i128, parse_unsigned, trim};
use xiyi_compiler::table::{KeySet, Table};
use xiyi_compiler::text::{i64_to_string, join_strings, u128_to_string, usize_to_string};

#[test]
fn numbers_as_text() {
    assert_eq!(usize_to_string(0), "0");
    assert_eq!(usize_to_string(1050), "1050");
    assert_eq!(u128_to_string(u128::MAX), u128::MAX.to_string());
    assert_eq!(i64_to_string(i64::MIN), i64::MIN.to_string());
    assert_eq!(i64_to_string(7), "7");
    assert_eq!(
        join_strings(&vec!["a".to_string(), "b".to_string(), "c".to_string()], "_"),
        "a_b_c"
    );
    assert_eq!(join_strings(&vec![], "_"), "");
}

#[test]
fn text_as_numbers() {
    assert_eq!(parse_i128("-170141183460469231731687303715884105728"), Some(i128::MIN));
    assert_eq!(parse_i128("170141183460469231731687303715884105728"), None);
    assert_eq!(parse_i128("+5"), Some(5));
    assert_eq!(parse_i128("-"), None);
    assert_eq!(parse_i128(""), None);
    assert_eq!(parse_i128("1 "), None);
    assert_eq!(parse_unsigned("+7", 10), Some(7));
    assert_eq!(parse_unsigned("11", 10), None);
    assert_eq!(parse_unsigned("-1", 10), None);
    assert_eq!(parse_digits("+7", 10), None);
    assert_eq!(trim("  a b\t\n"), "a b");
    assert_eq!(trim("\u{3000}x\u{a0}"), "x");
    assert_eq!(find_char("a/b/c", '/'), 1);
    assert_eq!(find_char("abc", '/'), 3);
}

#[test]
fn decimal_text_as_floats() {
    for s in [
        "0", "-0", "1", "0.1", "3.14159", "1e308", "1e309", "-1e-400", "4.9e-324", "2.5e-324",
        "2.4703282292062327e-324", "2.4703282292062328e-324", "9007199254740993", "1e22", "1e23",
        "123456789012345678901234567890", "0.000001", ".5", "5.", "+1.5E+3", "inf", "-infinity",
        "nan", "NaN", "1.7976931348623157e308", "1.7976931348623159e308", "2.2250738585072011e-308",
    ] {
        let want: f64 = s.parse().unwrap();
        let got = parse_float_bits(s).unwrap();
        if want.is_nan() {
            assert!(f64::from_bits(got).is_nan(), "{}", s);
        } else {
            assert_eq!(got, want.to_bits(), "{}", s);
        }
    }
    for s in ["", "-", ".", "e5", "1e", "1.2.3", "0x1", " 1", "1_0", "+-1", "infin"] {
        assert!(s.parse::<f64>().is_err(), "{}", s);
        assert_eq!(parse_float_bits(s), None, "{}", s);
    }
}

#[test]
fn types_as_debug_text() {
    let types = vec![
        Type::I128,
        Type::Struct("a\"b\n\u{1f600}\u{7}".to_string()),
        Type::Enum("E".to_string()),
        Type::Generic("G".to_string(), vec![Type::I8, Type::Tuple(vec![])]),
        Type::Tuple(vec![Type::Bool, Type::Never]),
        Type::Array(Box::new(Type::U8), 16),
        Type::Ref { mutable: true, inner: Box::new(Type::SelfType) },
        Type::Slice(Box::new(Type::Str)),
        Type::Privacy(
            Box::new(Type::F64),
            PrivacyTag::Differential { eps: "1/2".to_string(), delta: Some("0".to_string()) },
        ),
        Type::Tensor {
            dtype: Box::new(Type::F16),
            shape: vec![ShapeDim::Const(3), ShapeDim::Sym("N".to_string()), ShapeDim::Dyn],
        },
        Type::ConstIntArray(vec![-1, 2]),
        Type::TypeParam("T".to_string()),
        Type::SymInt,
    ];
    for t in &types {
        assert_eq!(show_type(t), format!("{:?}", t));
    }
    let tag = PrivacyTag::Differential { eps: "1".to_string(), delta: None };
    assert_eq!(show_tag(&tag), format!("{:?}", tag));
    assert_eq!(show_tag(&PrivacyTag::Public), "Public");
}

#[test]
fn tables_keep_the_last_value() {
    let mut t: Table<String, i32> = Table::new();
    t.insert("a".to_string(), 1);
    t.insert("b".to_string(), 2);
    t.insert("a".to_string(), 3);
    assert_eq!(t.get(&"a".to_string()), Some(&3));
    assert_eq!(t.get(&"c".to_string()), None);
    assert_eq!(t.replace(&"b".to_string(), 5), Some(2));
    assert_eq!(t.replace(&"c".to_string(), 5), None);
    assert!(t.contains_key(&"b".to_string()));
    let mut s: KeySet<usize> = KeySet::new();
    s.insert(4);
    s.insert(4);
    assert!(s.contains(&4) && !s.contains(&5));
    assert_eq!(s.items().len(), 1);
}

#[test]
fn sets_of_numbers() {
    let mut a = IdSet::new();
    a.insert(3);
    a.insert(9);
    let mut b = IdSet::new();
    b.insert(9);
    assert_eq!(a.least_outside(&b), Some(3));
    assert_eq!(b.least_outside(&a), None);
    assert!(a.intersect_with(&b));
    assert!(!a.intersect_with(&b));
    assert!(a.same(&b));
    a.remove(9);
    assert!(!a.same(&b));
}
