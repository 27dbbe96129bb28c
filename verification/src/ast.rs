//! Literals, operators and types of the language.

use vstd::prelude::*;

use vstd::std_specs::cmp::PartialEqSpecImpl;

verus! {

/// A binary operator.
#[derive(Clone, Copy, Debug, PartialEq, Eq, Structural)]
pub enum BinaryOp {
    Add,
    Sub,
    Mul,
    Div,
    Mod,
    Eq,
    Neq,
    Lt,
    Gt,
    Le,
    Ge,
    And,
    Or,
}

/// A unary operator.
#[derive(Clone, Copy, Debug, PartialEq, Eq, Structural)]
pub enum UnaryOp {
    Neg,
    Not,
}

/// A privacy label as written in the source.
#[derive(Debug)]
pub enum PrivacyTag {
    Public,
    Private,
    Differential { eps: String, delta: Option<String> },
}

/// One dimension of a tensor shape.
#[derive(Debug)]
pub enum ShapeDim {
    Const(usize),
    Sym(String),
    Dyn,
}

/// A type of the language.
#[derive(Debug)]
pub enum Type {
    I8,
    I16,
    I32,
    I64,
    I128,
    U8,
    U16,
    U32,
    U64,
    U128,
    F16,
    F32,
    F64,
    Bool,
    Char,
    Str,
    Unit,
    Never,
    SymInt,
    Struct(String),
    Enum(String),
    TypeParam(String),
    SelfType,
    Generic(String, Vec<Type>),
    Tuple(Vec<Type>),
    Array(Box<Type>, usize),
    Ref { mutable: bool, inner: Box<Type> },
    Slice(Box<Type>),
    Privacy(Box<Type>, PrivacyTag),
    Tensor { dtype: Box<Type>, shape: Vec<ShapeDim> },
    ConstIntArray(Vec<i64>),
}

/// Model of a `PrivacyTag`.
pub enum TagV {
    Public,
    Private,
    Differential { eps: Seq<char>, delta: Option<Seq<char>> },
}

/// Model of a `ShapeDim`.
pub enum DimV {
    Const(usize),
    Sym(Seq<char>),
    Dyn,
}

/// Model of a `Type`.
#[verifier::ext_equal]
pub enum TypeV {
    I8,
    I16,
    I32,
    I64,
    I128,
    U8,
    U16,
    U32,
    U64,
    U128,
    F16,
    F32,
    F64,
    Bool,
    Char,
    Str,
    Unit,
    Never,
    SymInt,
    Struct(Seq<char>),
    Enum(Seq<char>),
    TypeParam(Seq<char>),
    SelfType,
    Generic(Seq<char>, Seq<TypeV>),
    Tuple(Seq<TypeV>),
    Array(Box<TypeV>, usize),
    Ref { mutable: bool, inner: Box<TypeV> },
    Slice(Box<TypeV>),
    Privacy(Box<TypeV>, TagV),
    Tensor { dtype: Box<TypeV>, shape: Seq<DimV> },
    ConstIntArray(Seq<i64>),
}

impl DeepView for PrivacyTag {
    type V = TagV;

    open spec fn deep_view(&self) -> TagV {
        match *self {
            PrivacyTag::Public => TagV::Public,
            PrivacyTag::Private => TagV::Private,
            PrivacyTag::Differential { eps, delta } => TagV::Differential {
                eps: eps.deep_view(),
                delta: delta.deep_view(),
            },
        }
    }
}

impl DeepView for ShapeDim {
    type V = DimV;

    open spec fn deep_view(&self) -> DimV {
        match *self {
            ShapeDim::Const(c) => DimV::Const(c),
            ShapeDim::Sym(s) => DimV::Sym(s.deep_view()),
            ShapeDim::Dyn => DimV::Dyn,
        }
    }
}

/// The model of a type.
pub open spec fn type_view(t: Type) -> TypeV
    decreases t,
{
    match t {
        Type::I8 => TypeV::I8,
        Type::I16 => TypeV::I16,
        Type::I32 => TypeV::I32,
        Type::I64 => TypeV::I64,
        Type::I128 => TypeV::I128,
        Type::U8 => TypeV::U8,
        Type::U16 => TypeV::U16,
        Type::U32 => TypeV::U32,
        Type::U64 => TypeV::U64,
        Type::U128 => TypeV::U128,
        Type::F16 => TypeV::F16,
        Type::F32 => TypeV::F32,
        Type::F64 => TypeV::F64,
        Type::Bool => TypeV::Bool,
        Type::Char => TypeV::Char,
        Type::Str => TypeV::Str,
        Type::Unit => TypeV::Unit,
        Type::Never => TypeV::Never,
        Type::SymInt => TypeV::SymInt,
        Type::Struct(n) => TypeV::Struct(n@),
        Type::Enum(n) => TypeV::Enum(n@),
        Type::TypeParam(n) => TypeV::TypeParam(n@),
        Type::SelfType => TypeV::SelfType,
        Type::Generic(n, args) => TypeV::Generic(
            n@,
            Seq::new(
                args@.len(),
                |i: int|
                    if 0 <= i < args@.len() {
                        type_view(args@[i])
                    } else {
                        TypeV::Unit
                    },
            ),
        ),
        Type::Tuple(es) => TypeV::Tuple(
            Seq::new(
                es@.len(),
                |i: int|
                    if 0 <= i < es@.len() {
                        type_view(es@[i])
                    } else {
                        TypeV::Unit
                    },
            ),
        ),
        Type::Array(e, n) => TypeV::Array(Box::new(type_view(*e)), n),
        Type::Ref { mutable, inner } => TypeV::Ref {
            mutable,
            inner: Box::new(type_view(*inner)),
        },
        Type::Slice(e) => TypeV::Slice(Box::new(type_view(*e))),
        Type::Privacy(e, tag) => TypeV::Privacy(Box::new(type_view(*e)), tag.deep_view()),
        Type::Tensor { dtype, shape } => TypeV::Tensor {
            dtype: Box::new(type_view(*dtype)),
            shape: shape.deep_view(),
        },
        Type::ConstIntArray(vs) => TypeV::ConstIntArray(vs@),
    }
}

impl DeepView for Type {
    type V = TypeV;

    open spec fn deep_view(&self) -> TypeV {
        type_view(*self)
    }
}


/// The model of `Generic` and `Tuple` types holds the models of their arguments.
pub broadcast proof fn lemma_type_view_args(n: String, args: Vec<Type>)
    ensures
        #[trigger] type_view(Type::Generic(n, args)) == TypeV::Generic(n@, args.deep_view()),
{
    assert(type_view(Type::Generic(n, args))->Generic_1 =~= args.deep_view());
}

/// The model of a `Tuple` type holds the models of its elements.
pub broadcast proof fn lemma_type_view_tuple(es: Vec<Type>)
    ensures
        #[trigger] type_view(Type::Tuple(es)) == TypeV::Tuple(es.deep_view()),
{
    assert(type_view(Type::Tuple(es))->Tuple_0 =~= es.deep_view());
}

pub broadcast group group_type_view {
    lemma_type_view_args,
    lemma_type_view_tuple,
}

impl Clone for PrivacyTag {
    fn clone(&self) -> (r: Self)
        ensures
            r.deep_view() == self.deep_view(),
    {
        match self {
            PrivacyTag::Public => PrivacyTag::Public,
            PrivacyTag::Private => PrivacyTag::Private,
            PrivacyTag::Differential { eps, delta } => PrivacyTag::Differential {
                eps: eps.clone(),
                delta: match delta {
                    Some(d) => Some(d.clone()),
                    None => None,
                },
            },
        }
    }
}

impl Clone for ShapeDim {
    fn clone(&self) -> (r: Self)
        ensures
            r.deep_view() == self.deep_view(),
    {
        match self {
            ShapeDim::Const(c) => ShapeDim::Const(*c),
            ShapeDim::Sym(s) => ShapeDim::Sym(s.clone()),
            ShapeDim::Dyn => ShapeDim::Dyn,
        }
    }
}

impl Clone for Type {
    fn clone(&self) -> (r: Self)
        ensures
            r.deep_view() == self.deep_view(),
        decreases self,
    {
        broadcast use group_type_view;

        match self {
            Type::I8 => Type::I8,
            Type::I16 => Type::I16,
            Type::I32 => Type::I32,
            Type::I64 => Type::I64,
            Type::I128 => Type::I128,
            Type::U8 => Type::U8,
            Type::U16 => Type::U16,
            Type::U32 => Type::U32,
            Type::U64 => Type::U64,
            Type::U128 => Type::U128,
            Type::F16 => Type::F16,
            Type::F32 => Type::F32,
            Type::F64 => Type::F64,
            Type::Bool => Type::Bool,
            Type::Char => Type::Char,
            Type::Str => Type::Str,
            Type::Unit => Type::Unit,
            Type::Never => Type::Never,
            Type::SymInt => Type::SymInt,
            Type::Struct(n) => Type::Struct(n.clone()),
            Type::Enum(n) => Type::Enum(n.clone()),
            Type::TypeParam(n) => Type::TypeParam(n.clone()),
            Type::SelfType => Type::SelfType,
            Type::Generic(n, args) => Type::Generic(n.clone(), clone_types(args)),
            Type::Tuple(es) => Type::Tuple(clone_types(es)),
            Type::Array(e, n) => Type::Array(Box::new((**e).clone()), *n),
            Type::Ref { mutable, inner } => Type::Ref {
                mutable: *mutable,
                inner: Box::new((**inner).clone()),
            },
            Type::Slice(e) => Type::Slice(Box::new((**e).clone())),
            Type::Privacy(e, tag) => Type::Privacy(Box::new((**e).clone()), tag.clone()),
            Type::Tensor { dtype, shape } => {
                let s = shape.clone();
                assert(s.deep_view() =~= shape.deep_view());
                Type::Tensor { dtype: Box::new((**dtype).clone()), shape: s }
            },
            Type::ConstIntArray(vs) => {
                let v = vs.clone();
                assert(v@ =~= vs@);
                Type::ConstIntArray(v)
            },
        }
    }
}

/// A copy of each type, in order.
pub fn clone_types(v: &Vec<Type>) -> (r: Vec<Type>)
    ensures
        r.deep_view() == v.deep_view(),
    decreases v,
{
    let mut r: Vec<Type> = Vec::new();
    let mut i: usize = 0;
    while i < v.len()
        invariant
            i <= v.len(),
            r.len() == i,
            forall|j: int| 0 <= j < i ==> (#[trigger] r@[j]).deep_view() == v@[j].deep_view(),
        decreases v.len() - i,
    {
        r.push(v[i].clone());
        i = i + 1;
    }
    assert(r.deep_view() =~= v.deep_view());
    r
}


impl PartialEq for PrivacyTag {
    fn eq(&self, other: &Self) -> (r: bool) {
        match (self, other) {
            (PrivacyTag::Public, PrivacyTag::Public) => true,
            (PrivacyTag::Private, PrivacyTag::Private) => true,
            (
                PrivacyTag::Differential { eps: e1, delta: d1 },
                PrivacyTag::Differential { eps: e2, delta: d2 },
            ) => *e1 == *e2 && match (d1, d2) {
                (Some(a), Some(b)) => *a == *b,
                (None, None) => true,
                _ => false,
            },
            _ => false,
        }
    }
}

impl PartialEqSpecImpl for PrivacyTag {
    open spec fn obeys_eq_spec() -> bool {
        true
    }

    open spec fn eq_spec(&self, other: &Self) -> bool {
        self.deep_view() == other.deep_view()
    }
}

impl PartialEq for ShapeDim {
    fn eq(&self, other: &Self) -> (r: bool) {
        match (self, other) {
            (ShapeDim::Const(a), ShapeDim::Const(b)) => *a == *b,
            (ShapeDim::Sym(a), ShapeDim::Sym(b)) => *a == *b,
            (ShapeDim::Dyn, ShapeDim::Dyn) => true,
            _ => false,
        }
    }
}

impl PartialEqSpecImpl for ShapeDim {
    open spec fn obeys_eq_spec() -> bool {
        true
    }

    open spec fn eq_spec(&self, other: &Self) -> bool {
        self.deep_view() == other.deep_view()
    }
}

/// Whether two shapes have the same dimensions.
pub fn same_dims(a: &Vec<ShapeDim>, b: &Vec<ShapeDim>) -> (r: bool)
    ensures
        r == (a.deep_view() == b.deep_view()),
{
    if a.len() != b.len() {
        assert(a.deep_view().len() != b.deep_view().len());
        return false;
    }
    let mut i: usize = 0;
    while i < a.len()
        invariant
            i <= a.len(),
            a.len() == b.len(),
            forall|j: int| 0 <= j < i ==> (#[trigger] a@[j]).deep_view() == b@[j].deep_view(),
        decreases a.len() - i,
    {
        if a[i] != b[i] {
            assert(a.deep_view()[i as int] != b.deep_view()[i as int]);
            return false;
        }
        i = i + 1;
    }
    assert(a.deep_view() =~= b.deep_view());
    true
}

/// Whether two vectors hold the same integers.
pub fn same_ints(a: &Vec<i64>, b: &Vec<i64>) -> (r: bool)
    ensures
        r == (a@ == b@),
{
    if a.len() != b.len() {
        return false;
    }
    let mut i: usize = 0;
    while i < a.len()
        invariant
            i <= a.len(),
            a.len() == b.len(),
            forall|j: int| 0 <= j < i ==> a@[j] == b@[j],
        decreases a.len() - i,
    {
        if a[i] != b[i] {
            return false;
        }
        i = i + 1;
    }
    assert(a@ =~= b@);
    true
}

/// Whether two types are structurally the same.
pub fn same_type(a: &Type, b: &Type) -> (r: bool)
    ensures
        r == (a.deep_view() == b.deep_view()),
    decreases a,
{
    broadcast use group_type_view;

    match (a, b) {
        (Type::I8, Type::I8) => true,
        (Type::I16, Type::I16) => true,
        (Type::I32, Type::I32) => true,
        (Type::I64, Type::I64) => true,
        (Type::I128, Type::I128) => true,
        (Type::U8, Type::U8) => true,
        (Type::U16, Type::U16) => true,
        (Type::U32, Type::U32) => true,
        (Type::U64, Type::U64) => true,
        (Type::U128, Type::U128) => true,
        (Type::F16, Type::F16) => true,
        (Type::F32, Type::F32) => true,
        (Type::F64, Type::F64) => true,
        (Type::Bool, Type::Bool) => true,
        (Type::Char, Type::Char) => true,
        (Type::Str, Type::Str) => true,
        (Type::Unit, Type::Unit) => true,
        (Type::Never, Type::Never) => true,
        (Type::SymInt, Type::SymInt) => true,
        (Type::SelfType, Type::SelfType) => true,
        (Type::Struct(x), Type::Struct(y)) => *x == *y,
        (Type::Enum(x), Type::Enum(y)) => *x == *y,
        (Type::TypeParam(x), Type::TypeParam(y)) => *x == *y,
        (Type::Generic(x, xs), Type::Generic(y, ys)) => *x == *y && same_types(xs, ys),
        (Type::Tuple(xs), Type::Tuple(ys)) => same_types(xs, ys),
        (Type::Array(x, m), Type::Array(y, n)) => *m == *n && same_type(x, y),
        (
            Type::Ref { mutable: m, inner: x },
            Type::Ref { mutable: n, inner: y },
        ) => *m == *n && same_type(x, y),
        (Type::Slice(x), Type::Slice(y)) => same_type(x, y),
        (Type::Privacy(x, s), Type::Privacy(y, t)) => *s == *t && same_type(x, y),
        (
            Type::Tensor { dtype: x, shape: s },
            Type::Tensor { dtype: y, shape: t },
        ) => same_type(x, y) && same_dims(s, t),
        (Type::ConstIntArray(x), Type::ConstIntArray(y)) => same_ints(x, y),
        _ => false,
    }
}

/// Whether two type lists agree in length and elementwise.
pub fn same_types(a: &Vec<Type>, b: &Vec<Type>) -> (r: bool)
    ensures
        r == (a.deep_view() == b.deep_view()),
    decreases a,
{
    if a.len() != b.len() {
        assert(a.deep_view().len() != b.deep_view().len());
        return false;
    }
    let mut i: usize = 0;
    while i < a.len()
        invariant
            i <= a.len(),
            a.len() == b.len(),
            forall|j: int| 0 <= j < i ==> (#[trigger] a@[j]).deep_view() == b@[j].deep_view(),
        decreases a.len() - i,
    {
        if !same_type(&a[i], &b[i]) {
            assert(a.deep_view()[i as int] != b.deep_view()[i as int]);
            return false;
        }
        i = i + 1;
    }
    assert(a.deep_view() =~= b.deep_view());
    true
}

impl PartialEq for Type {
    fn eq(&self, other: &Self) -> (r: bool) {
        same_type(self, other)
    }
}

impl PartialEqSpecImpl for Type {
    open spec fn obeys_eq_spec() -> bool {
        true
    }

    open spec fn eq_spec(&self, other: &Self) -> bool {
        self.deep_view() == other.deep_view()
    }
}

/// Whether values of a type are copied, rather than moved, when they are read.
///
/// Scalars and shared references are; tuples, arrays and privacy-labelled
/// types are where all their parts are.
pub open spec fn copy_type(t: TypeV) -> bool
    decreases t,
{
    match t {
        TypeV::Ref { mutable, .. } => !mutable,
        TypeV::Tuple(es) => forall|i: int| 0 <= i < es.len() ==> copy_type(#[trigger] es[i]),
        TypeV::Array(e, _) => copy_type(*e),
        TypeV::Privacy(e, _) => copy_type(*e),
        TypeV::Str
        | TypeV::Struct(_)
        | TypeV::Enum(_)
        | TypeV::TypeParam(_)
        | TypeV::SelfType
        | TypeV::Generic(..)
        | TypeV::Slice(_)
        | TypeV::Tensor { .. }
        | TypeV::ConstIntArray(_) => false,
        _ => true,
    }
}

/// A tuple with a part that is not copied is not copied.
proof fn lemma_tuple_not_copy(es: Seq<TypeV>, i: int)
    requires
        0 <= i < es.len(),
        !copy_type(es[i]),
    ensures
        !copy_type(TypeV::Tuple(es)),
{
    let t = TypeV::Tuple(es);
    assert(t->Tuple_0 == es);
    assert(copy_type(t) == forall|i: int| 0 <= i < es.len() ==> copy_type(#[trigger] es[i]));
}

impl Type {
    /// Whether values of this type are copied, rather than moved, when read.
    pub fn is_copy(&self) -> (r: bool)
        ensures
            r == copy_type(self.deep_view()),
        decreases self,
    {
        broadcast use group_type_view;

        match self {
            Type::Ref { mutable, .. } => !*mutable,
            Type::Tuple(es) => {
                let ghost v = es.deep_view();
                let mut i: usize = 0;
                while i < es.len()
                    invariant
                        i <= es.len(),
                        *self == Type::Tuple(*es),
                        self.deep_view() == TypeV::Tuple(v),
                        v == es.deep_view(),
                        forall|j: int| 0 <= j < i ==> copy_type(#[trigger] v[j]),
                    decreases es.len() - i,
                {
                    assert(v[i as int] == es@[i as int].deep_view());
                    if !es[i].is_copy() {
                        proof {
                            lemma_tuple_not_copy(v, i as int);
                        }
                        return false;
                    }
                    i = i + 1;
                }
                true
            },
            Type::Array(e, _) => e.is_copy(),
            Type::Privacy(e, _) => e.is_copy(),
            Type::Str
            | Type::Struct(_)
            | Type::Enum(_)
            | Type::TypeParam(_)
            | Type::SelfType
            | Type::Generic(..)
            | Type::Slice(_)
            | Type::Tensor { .. }
            | Type::ConstIntArray(_) => false,
            _ => true,
        }
    }
}

} // verus!
