use xiyi_compiler::ast::{BinaryOp, UnaryOp};
use xiyi_compiler::calc::Calc;
use xiyi_compiler::literal::Literal;

fn bin(op: BinaryOp, l: Literal, r: Literal) -> Option<Literal> {
    Calc::eval_binary_op(op, l, r)
}

fn f32_lit(v: f32) -> Literal {
    Literal::Float32(v.to_bits())
}

fn f64_lit(v: f64) -> Literal {
    Literal::Float64(v.to_bits())
}

#[test]
fn int_arithmetic_folds() {
    let r = bin(BinaryOp::Add, Literal::Int32(2), Literal::Int32(3));
    assert!(matches!(r, Some(Literal::Int32(5))));
    let r = bin(BinaryOp::Mod, Literal::UInt64(10), Literal::UInt64(4));
    assert!(matches!(r, Some(Literal::UInt64(2))));
}

#[test]
fn int_overflow_and_div_zero_do_not_fold() {
    assert!(bin(BinaryOp::Add, Literal::Int8(127), Literal::Int8(1)).is_none());
    assert!(bin(BinaryOp::Sub, Literal::UInt8(0), Literal::UInt8(1)).is_none());
    assert!(bin(BinaryOp::Div, Literal::Int32(7), Literal::Int32(0)).is_none());
    assert!(bin(BinaryOp::Mod, Literal::Int32(7), Literal::Int32(0)).is_none());
    assert!(bin(BinaryOp::Div, Literal::Int32(i32::MIN), Literal::Int32(-1)).is_none());
    assert!(bin(BinaryOp::Mod, Literal::Int32(i32::MIN), Literal::Int32(-1)).is_none());
}

#[test]
fn int_comparison_folds() {
    let r = bin(BinaryOp::Lt, Literal::UInt128(1), Literal::UInt128(2));
    assert!(matches!(r, Some(Literal::Bool(true))));
    let r = bin(BinaryOp::Ge, Literal::Isize(-1), Literal::Isize(0));
    assert!(matches!(r, Some(Literal::Bool(false))));
    let r = bin(BinaryOp::Lt, Literal::Int8(-1), Literal::Int8(1));
    assert!(matches!(r, Some(Literal::Bool(true))));
    let r = bin(BinaryOp::Gt, Literal::UInt64(u64::MAX), Literal::UInt64(0));
    assert!(matches!(r, Some(Literal::Bool(true))));
}

#[test]
fn float_ieee_semantics_preserved() {
    let r = bin(BinaryOp::Div, f64_lit(1.0), f64_lit(0.0));
    assert!(matches!(r, Some(Literal::Float64(v)) if f64::from_bits(v).is_infinite()));
    let r = bin(BinaryOp::Eq, f32_lit(f32::NAN), f32_lit(f32::NAN));
    assert!(matches!(r, Some(Literal::Bool(false))));
    let r = bin(BinaryOp::Neq, f32_lit(f32::NAN), f32_lit(f32::NAN));
    assert!(matches!(r, Some(Literal::Bool(true))));
    assert!(bin(BinaryOp::Mod, f64_lit(5.0), f64_lit(2.0)).is_none());
}

#[test]
fn bool_ops() {
    let r = bin(BinaryOp::And, Literal::Bool(true), Literal::Bool(false));
    assert!(matches!(r, Some(Literal::Bool(false))));
    let r = bin(BinaryOp::Neq, Literal::Bool(true), Literal::Bool(false));
    assert!(matches!(r, Some(Literal::Bool(true))));
    assert!(bin(BinaryOp::Lt, Literal::Bool(false), Literal::Bool(true)).is_none());
}

#[test]
fn type_mismatch_does_not_fold() {
    assert!(bin(BinaryOp::Add, Literal::Int32(1), Literal::Int64(1)).is_none());
}

#[test]
fn unary_ops() {
    let r = Calc::eval_unary_op(UnaryOp::Neg, Literal::Int32(5));
    assert!(matches!(r, Some(Literal::Int32(-5))));
    assert!(Calc::eval_unary_op(UnaryOp::Neg, Literal::Int8(i8::MIN)).is_none());
    assert!(Calc::eval_unary_op(UnaryOp::Neg, Literal::UInt8(1)).is_none());
    let r = Calc::eval_unary_op(UnaryOp::Not, Literal::Bool(true));
    assert!(matches!(r, Some(Literal::Bool(false))));
}

fn check64(a: f64, b: f64) {
    let cases = [
        (BinaryOp::Add, a + b),
        (BinaryOp::Sub, a - b),
        (BinaryOp::Mul, a * b),
        (BinaryOp::Div, a / b),
    ];
    for (op, want) in cases {
        match bin(op, f64_lit(a), f64_lit(b)) {
            Some(Literal::Float64(v)) => {
                if want.is_nan() {
                    assert!(f64::from_bits(v).is_nan());
                } else {
                    assert_eq!(v, want.to_bits(), "{:?} {} {}", op, a, b);
                }
            }
            _ => panic!("no float"),
        }
    }
    let tests = [
        (BinaryOp::Eq, a == b),
        (BinaryOp::Neq, a != b),
        (BinaryOp::Lt, a < b),
        (BinaryOp::Gt, a > b),
        (BinaryOp::Le, a <= b),
        (BinaryOp::Ge, a >= b),
    ];
    for (op, want) in tests {
        match bin(op, f64_lit(a), f64_lit(b)) {
            Some(Literal::Bool(v)) => assert_eq!(v, want, "{:?} {} {}", op, a, b),
            _ => panic!("no bool"),
        }
    }
}

fn check32(a: f32, b: f32) {
    let cases = [
        (BinaryOp::Add, a + b),
        (BinaryOp::Sub, a - b),
        (BinaryOp::Mul, a * b),
        (BinaryOp::Div, a / b),
    ];
    for (op, want) in cases {
        match bin(op, f32_lit(a), f32_lit(b)) {
            Some(Literal::Float32(v)) => {
                if want.is_nan() {
                    assert!(f32::from_bits(v).is_nan());
                } else {
                    assert_eq!(v, want.to_bits(), "{:?} {} {}", op, a, b);
                }
            }
            _ => panic!("no float"),
        }
        match bin(op, Literal::Float16(a.to_bits()), Literal::Float16(b.to_bits())) {
            Some(Literal::Float16(v)) => {
                if !want.is_nan() {
                    assert_eq!(v, want.to_bits());
                }
            }
            _ => panic!("no float"),
        }
    }
}

#[test]
fn double_arithmetic_matches_the_machine() {
    let values = [
        0.0,
        -0.0,
        1.0,
        -1.0,
        0.1,
        0.3,
        3.0,
        1e300,
        -1e300,
        1e-300,
        f64::MAX,
        f64::MIN_POSITIVE,
        f64::from_bits(1),
        f64::from_bits(0x000f_ffff_ffff_ffff),
        f64::INFINITY,
        f64::NEG_INFINITY,
        f64::NAN,
        9007199254740993.0,
    ];
    for a in values {
        for b in values {
            check64(a, b);
        }
    }
}

#[test]
fn single_arithmetic_matches_the_machine() {
    let values = [
        0.0,
        -0.0,
        1.0,
        0.1,
        -0.3,
        16777217.0,
        1e38,
        1e-38,
        f32::MAX,
        f32::from_bits(1),
        f32::from_bits(0x007f_ffff),
        f32::INFINITY,
        f32::NEG_INFINITY,
        f32::NAN,
    ];
    for a in values {
        for b in values {
            check32(a, b);
        }
    }
}

#[test]
fn spread_of_patterns_matches_the_machine() {
    let mut x: u64 = 0x9e37_79b9_7f4a_7c15;
    for _ in 0..60 {
        x = x.wrapping_mul(6364136223846793005).wrapping_add(1442695040888963407);
        let a = f64::from_bits(x);
        x = x.wrapping_mul(6364136223846793005).wrapping_add(1442695040888963407);
        let near = f64::from_bits((a.to_bits() & 0xfff0_0000_0000_0000) ^ (x >> 12));
        check64(a, f64::from_bits(x));
        check64(a, near);
        check32(f32::from_bits((x >> 32) as u32), f32::from_bits(x as u32));
    }
}

#[test]
fn mixed_float_types_do_not_fold() {
    assert!(bin(BinaryOp::Add, f32_lit(1.0), f64_lit(1.0)).is_none());
    assert!(bin(BinaryOp::And, f64_lit(1.0), f64_lit(1.0)).is_none());
}

#[test]
fn negating_a_float_flips_its_sign() {
    let r = Calc::eval_unary_op(UnaryOp::Neg, f64_lit(2.5));
    assert!(matches!(r, Some(Literal::Float64(v)) if v == (-2.5f64).to_bits()));
    let r = Calc::eval_unary_op(UnaryOp::Neg, Literal::Float16((-0.5f32).to_bits()));
    assert!(matches!(r, Some(Literal::Float16(v)) if v == 0.5f32.to_bits()));
}

#[test]
fn signed_division_truncates() {
    let r = bin(BinaryOp::Div, Literal::Int32(-7), Literal::Int32(2));
    assert!(matches!(r, Some(Literal::Int32(-3))));
    let r = bin(BinaryOp::Mod, Literal::Int32(-7), Literal::Int32(2));
    assert!(matches!(r, Some(Literal::Int32(-1))));
    let r = bin(BinaryOp::Mod, Literal::Int64(7), Literal::Int64(-2));
    assert!(matches!(r, Some(Literal::Int64(1))));
}
