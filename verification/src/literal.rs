//! Literal values and their model.

use vstd::prelude::*;

use vstd::std_specs::cmp::PartialEqSpecImpl;

verus! {

/// A literal value.
///
/// Floating-point literals hold the bit pattern of their value; a 16-bit
/// float literal is held in 32-bit precision.
#[derive(Debug)]
pub enum Literal {
    Int8(i8),
    Int16(i16),
    Int32(i32),
    Int64(i64),
    Int128(i128),
    Isize(isize),
    UInt8(u8),
    UInt16(u16),
    UInt32(u32),
    UInt64(u64),
    UInt128(u128),
    Usize(usize),
    Float16(u32),
    Float32(u32),
    Float64(u64),
    Bool(bool),
    Char(char),
    String(String),
    ByteString(Vec<u8>),
    Unit,
}

/// The type of an integer literal.
pub enum IntKind {
    I8,
    I16,
    I32,
    I64,
    I128,
    Isize,
    U8,
    U16,
    U32,
    U64,
    U128,
    Usize,
}

/// The type of a floating-point literal.
#[derive(Clone, Copy, Debug, PartialEq, Eq, Structural)]
pub enum FloatKind {
    F16,
    F32,
    F64,
}

/// Model of a `Literal`: integers as mathematical integers tagged with their
/// type, floats as their bit pattern tagged with their type.
pub enum LiteralV {
    Int(IntKind, int),
    Float(FloatKind, int),
    Bool(bool),
    Char(char),
    Str(Seq<char>),
    Bytes(Seq<u8>),
    Unit,
}

/// The least value of an integer type.
pub open spec fn int_min(k: IntKind) -> int {
    match k {
        IntKind::I8 => i8::MIN as int,
        IntKind::I16 => i16::MIN as int,
        IntKind::I32 => i32::MIN as int,
        IntKind::I64 => i64::MIN as int,
        IntKind::I128 => i128::MIN as int,
        IntKind::Isize => isize::MIN as int,
        IntKind::U8 => u8::MIN as int,
        IntKind::U16 => u16::MIN as int,
        IntKind::U32 => u32::MIN as int,
        IntKind::U64 => u64::MIN as int,
        IntKind::U128 => u128::MIN as int,
        IntKind::Usize => usize::MIN as int,
    }
}

/// The greatest value of an integer type.
pub open spec fn int_max(k: IntKind) -> int {
    match k {
        IntKind::I8 => i8::MAX as int,
        IntKind::I16 => i16::MAX as int,
        IntKind::I32 => i32::MAX as int,
        IntKind::I64 => i64::MAX as int,
        IntKind::I128 => i128::MAX as int,
        IntKind::Isize => isize::MAX as int,
        IntKind::U8 => u8::MAX as int,
        IntKind::U16 => u16::MAX as int,
        IntKind::U32 => u32::MAX as int,
        IntKind::U64 => u64::MAX as int,
        IntKind::U128 => u128::MAX as int,
        IntKind::Usize => usize::MAX as int,
    }
}

/// Whether a value belongs to an integer type.
pub open spec fn int_fits(k: IntKind, v: int) -> bool {
    int_min(k) <= v <= int_max(k)
}

impl DeepView for Literal {
    type V = LiteralV;

    open spec fn deep_view(&self) -> LiteralV {
        match *self {
            Literal::Int8(v) => LiteralV::Int(IntKind::I8, v as int),
            Literal::Int16(v) => LiteralV::Int(IntKind::I16, v as int),
            Literal::Int32(v) => LiteralV::Int(IntKind::I32, v as int),
            Literal::Int64(v) => LiteralV::Int(IntKind::I64, v as int),
            Literal::Int128(v) => LiteralV::Int(IntKind::I128, v as int),
            Literal::Isize(v) => LiteralV::Int(IntKind::Isize, v as int),
            Literal::UInt8(v) => LiteralV::Int(IntKind::U8, v as int),
            Literal::UInt16(v) => LiteralV::Int(IntKind::U16, v as int),
            Literal::UInt32(v) => LiteralV::Int(IntKind::U32, v as int),
            Literal::UInt64(v) => LiteralV::Int(IntKind::U64, v as int),
            Literal::UInt128(v) => LiteralV::Int(IntKind::U128, v as int),
            Literal::Usize(v) => LiteralV::Int(IntKind::Usize, v as int),
            Literal::Float16(b) => LiteralV::Float(FloatKind::F16, b as int),
            Literal::Float32(b) => LiteralV::Float(FloatKind::F32, b as int),
            Literal::Float64(b) => LiteralV::Float(FloatKind::F64, b as int),
            Literal::Bool(b) => LiteralV::Bool(b),
            Literal::Char(c) => LiteralV::Char(c),
            Literal::String(s) => LiteralV::Str(s@),
            Literal::ByteString(b) => LiteralV::Bytes(b@),
            Literal::Unit => LiteralV::Unit,
        }
    }
}

/// The bit pattern of positive infinity.
pub open spec fn float_inf(k: FloatKind) -> int {
    match k {
        FloatKind::F64 => 0x7ff0_0000_0000_0000,
        _ => 0x7f80_0000,
    }
}

/// The value of the sign bit: patterns from here on are negative.
pub open spec fn float_sign(k: FloatKind) -> int {
    match k {
        FloatKind::F64 => 0x8000_0000_0000_0000,
        _ => 0x8000_0000,
    }
}

/// The bit pattern without its sign.
pub open spec fn float_magnitude(k: FloatKind, bits: int) -> int {
    if bits >= float_sign(k) {
        bits - float_sign(k)
    } else {
        bits
    }
}

/// Whether a bit pattern is not a number.
pub open spec fn float_nan(k: FloatKind, bits: int) -> bool {
    float_magnitude(k, bits) > float_inf(k)
}

/// A key that orders the bit patterns of numbers as their values are ordered;
/// both zeros have the key 0.
pub open spec fn float_key(k: FloatKind, bits: int) -> int {
    if bits >= float_sign(k) {
        -float_magnitude(k, bits)
    } else {
        bits
    }
}

/// IEEE equality: not-a-number equals nothing, the two zeros are equal.
pub open spec fn float_eq(k: FloatKind, a: int, b: int) -> bool {
    !float_nan(k, a) && !float_nan(k, b) && float_key(k, a) == float_key(k, b)
}

/// IEEE order: false where either side is not a number.
pub open spec fn float_lt(k: FloatKind, a: int, b: int) -> bool {
    !float_nan(k, a) && !float_nan(k, b) && float_key(k, a) < float_key(k, b)
}

/// Equality of literals: the same type and value, floats compared as IEEE
/// numbers.
pub open spec fn literal_eq(a: LiteralV, b: LiteralV) -> bool {
    match (a, b) {
        (LiteralV::Float(j, x), LiteralV::Float(k, y)) => j == k && float_eq(k, x, y),
        _ => a == b,
    }
}

/// Whether a 32-bit pattern is not a number.
pub fn is_nan32(b: u32) -> (r: bool)
    ensures
        r == float_nan(FloatKind::F32, b as int),
        r == float_nan(FloatKind::F16, b as int),
{
    if b >= 0x8000_0000 {
        b - 0x8000_0000 > 0x7f80_0000
    } else {
        b > 0x7f80_0000
    }
}

/// Whether a 64-bit pattern is not a number.
pub fn is_nan64(b: u64) -> (r: bool)
    ensures
        r == float_nan(FloatKind::F64, b as int),
{
    if b >= 0x8000_0000_0000_0000 {
        b - 0x8000_0000_0000_0000 > 0x7ff0_0000_0000_0000
    } else {
        b > 0x7ff0_0000_0000_0000
    }
}

/// The order key of a 32-bit pattern.
pub fn key32(b: u32) -> (r: i64)
    ensures
        r == float_key(FloatKind::F32, b as int),
        r == float_key(FloatKind::F16, b as int),
{
    if b >= 0x8000_0000 {
        -((b - 0x8000_0000) as i64)
    } else {
        b as i64
    }
}

/// The order key of a 64-bit pattern.
pub fn key64(b: u64) -> (r: i128)
    ensures
        r == float_key(FloatKind::F64, b as int),
{
    if b >= 0x8000_0000_0000_0000 {
        -((b - 0x8000_0000_0000_0000) as i128)
    } else {
        b as i128
    }
}

impl Clone for Literal {
    fn clone(&self) -> (r: Self)
        ensures
            r.deep_view() == self.deep_view(),
    {
        match self {
            Literal::Int8(v) => Literal::Int8(*v),
            Literal::Int16(v) => Literal::Int16(*v),
            Literal::Int32(v) => Literal::Int32(*v),
            Literal::Int64(v) => Literal::Int64(*v),
            Literal::Int128(v) => Literal::Int128(*v),
            Literal::Isize(v) => Literal::Isize(*v),
            Literal::UInt8(v) => Literal::UInt8(*v),
            Literal::UInt16(v) => Literal::UInt16(*v),
            Literal::UInt32(v) => Literal::UInt32(*v),
            Literal::UInt64(v) => Literal::UInt64(*v),
            Literal::UInt128(v) => Literal::UInt128(*v),
            Literal::Usize(v) => Literal::Usize(*v),
            Literal::Float16(b) => Literal::Float16(*b),
            Literal::Float32(b) => Literal::Float32(*b),
            Literal::Float64(b) => Literal::Float64(*b),
            Literal::Bool(b) => Literal::Bool(*b),
            Literal::Char(c) => Literal::Char(*c),
            Literal::String(s) => Literal::String(s.clone()),
            Literal::ByteString(b) => {
                let c = b.clone();
                assert(c@ =~= b@);
                Literal::ByteString(c)
            },
            Literal::Unit => Literal::Unit,
        }
    }
}

/// Whether two byte strings are the same.
fn same_bytes(a: &Vec<u8>, b: &Vec<u8>) -> (r: bool)
    ensures
        r == (a@ == b@),
{
    if a.len() != b.len() {
        return false;
    }
    let mut i: usize = 0;
    while i < a.len()
        invariant
            i <= a.len(),
            a.len() == b.len(),
            forall|j: int| 0 <= j < i ==> a@[j] == b@[j],
        decreases a.len() - i,
    {
        if a[i] != b[i] {
            return false;
        }
        i = i + 1;
    }
    assert(a@ =~= b@);
    true
}

impl PartialEq for Literal {
    fn eq(&self, other: &Self) -> (r: bool) {
        match (self, other) {
            (Literal::Int8(a), Literal::Int8(b)) => *a == *b,
            (Literal::Int16(a), Literal::Int16(b)) => *a == *b,
            (Literal::Int32(a), Literal::Int32(b)) => *a == *b,
            (Literal::Int64(a), Literal::Int64(b)) => *a == *b,
            (Literal::Int128(a), Literal::Int128(b)) => *a == *b,
            (Literal::Isize(a), Literal::Isize(b)) => *a == *b,
            (Literal::UInt8(a), Literal::UInt8(b)) => *a == *b,
            (Literal::UInt16(a), Literal::UInt16(b)) => *a == *b,
            (Literal::UInt32(a), Literal::UInt32(b)) => *a == *b,
            (Literal::UInt64(a), Literal::UInt64(b)) => *a == *b,
            (Literal::UInt128(a), Literal::UInt128(b)) => *a == *b,
            (Literal::Usize(a), Literal::Usize(b)) => *a == *b,
            (Literal::Float16(a), Literal::Float16(b)) => !is_nan32(*a) && !is_nan32(*b) && key32(*a)
                == key32(*b),
            (Literal::Float32(a), Literal::Float32(b)) => !is_nan32(*a) && !is_nan32(*b) && key32(*a)
                == key32(*b),
            (Literal::Float64(a), Literal::Float64(b)) => !is_nan64(*a) && !is_nan64(*b) && key64(*a)
                == key64(*b),
            (Literal::Bool(a), Literal::Bool(b)) => *a == *b,
            (Literal::Char(a), Literal::Char(b)) => *a == *b,
            (Literal::String(a), Literal::String(b)) => *a == *b,
            (Literal::ByteString(a), Literal::ByteString(b)) => same_bytes(a, b),
            (Literal::Unit, Literal::Unit) => true,
            _ => false,
        }
    }
}

impl PartialEqSpecImpl for Literal {
    open spec fn obeys_eq_spec() -> bool {
        true
    }

    open spec fn eq_spec(&self, other: &Self) -> bool {
        literal_eq(self.deep_view(), other.deep_view())
    }
}

} // verus!
