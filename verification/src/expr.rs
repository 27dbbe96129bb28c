//! Expressions, statements and items of the surface language.

use vstd::prelude::*;

use crate::ast::{BinaryOp, Type, UnaryOp};
use crate::ast::TypeV;
use crate::literal::Literal;
use crate::literal::LiteralV;

verus! {

/// An expression; `id` tells it from every other expression of the program.
#[derive(Debug)]
pub struct Expr {
    pub id: usize,
    pub kind: ExprKind,
}

/// What an expression is.
#[allow(inconsistent_fields)]
#[derive(Debug)]
pub enum ExprKind {
    Literal(Literal),
    Ident(String),
    Sym(String),
    BinaryOp { op: BinaryOp, left: Box<Expr>, right: Box<Expr> },
    Unary { op: UnaryOp, expr: Box<Expr> },
    LackSlice(Vec<Expr>),
    FieldAccess { struct_expr: Box<Expr>, field_name: String },
    Index { expr: Box<Expr>, index: Box<Expr> },
    Closure { param: String, body: Box<Expr> },
    Call { qualifier: Option<String>, func: String, args: Vec<CallArg>, is_method: bool },
}

/// An argument of a call.
#[derive(Debug)]
pub enum CallArg {
    Positional(Expr),
    Named(String, Expr),
}

/// A statement.
#[derive(Debug)]
pub enum Stmt {
    Let { name: String, mutable: bool, ty: Option<Type>, value: Expr },
    Assign { target: Expr, value: Expr },
    Return(Option<Expr>),
    ExprStmt(Expr),
}

/// A sequence of statements.
#[derive(Debug)]
pub struct Block {
    pub stmts: Vec<Stmt>,
}

/// A parameter of a function.
#[derive(Debug)]
pub struct Param {
    pub name: String,
    pub ty: Type,
}

/// A type parameter.
#[derive(Debug)]
pub enum GenericParam {
    Type { name: String, bounds: Vec<String> },
}

/// An argument of an attribute.
#[derive(Debug)]
pub enum AttributeArg {
    Ident(String),
    Rational(String),
    KeyValue(String, Box<AttributeArg>),
}

/// An attribute.
#[derive(Debug)]
pub struct Attribute {
    pub name: String,
    pub args: Vec<AttributeArg>,
}

/// A function declaration without a body.
#[derive(Debug)]
pub struct FnSig {
    pub name: String,
    pub params: Vec<Param>,
    pub return_type: Option<Type>,
    pub generic_params: Vec<GenericParam>,
}

/// A function definition.
#[derive(Debug)]
pub struct FnDef {
    pub attributes: Vec<Attribute>,
    pub name: String,
    pub generic_params: Vec<GenericParam>,
    pub params: Vec<Param>,
    pub return_type: Option<Type>,
    pub body: Block,
}

/// A block of methods for a type.
#[derive(Debug)]
pub struct ImplementDef {
    pub target_type: Type,
    pub functions: Vec<FnDef>,
}

/// A bound on a type parameter in a `where` clause.
#[derive(Debug)]
pub struct WhereClause {
    pub type_param: String,
    pub bounds: Vec<String>,
}

/// A field of a model.
#[derive(Debug)]
pub struct ModelField {
    pub name: String,
    pub ty: Type,
}

/// A pattern of a match arm.
#[derive(Debug)]
pub enum Pattern {
    Wildcard,
    EnumVariant { enum_name: String, variant_name: String },
    EnumVariantWithBinding { enum_name: String, variant_name: String, binding: String },
}

/// Model of an `Expr`.
pub struct ExprV {
    pub id: usize,
    pub kind: ExprKindV,
}

/// Model of an `ExprKind`.
#[allow(inconsistent_fields)]
pub enum ExprKindV {
    Literal(LiteralV),
    Ident(Seq<char>),
    Sym(Seq<char>),
    BinaryOp { op: BinaryOp, left: Box<ExprV>, right: Box<ExprV> },
    Unary { op: UnaryOp, expr: Box<ExprV> },
    LackSlice(Seq<ExprV>),
    FieldAccess { struct_expr: Box<ExprV>, field_name: Seq<char> },
    Index { expr: Box<ExprV>, index: Box<ExprV> },
    Closure { param: Seq<char>, body: Box<ExprV> },
    Call { qualifier: Option<Seq<char>>, func: Seq<char>, args: Seq<CallArgV>, is_method: bool },
}

/// Model of a `CallArg`.
pub enum CallArgV {
    Positional(ExprV),
    Named(Seq<char>, ExprV),
}

/// Model of a `Param`.
pub struct ParamV {
    pub name: Seq<char>,
    pub ty: TypeV,
}

/// Model of a `GenericParam`.
pub struct TypeParamV {
    pub name: Seq<char>,
    pub bounds: Seq<Seq<char>>,
}

/// Model of an `AttributeArg`.
pub enum AttrArgV {
    Ident(Seq<char>),
    Rational(Seq<char>),
    KeyValue(Seq<char>, Box<AttrArgV>),
}

/// Model of an `Attribute`.
pub struct AttrV {
    pub name: Seq<char>,
    pub args: Seq<AttrArgV>,
}

/// Model of an `FnSig`.
pub struct FnSigV {
    pub name: Seq<char>,
    pub params: Seq<ParamV>,
    pub return_type: Option<TypeV>,
    pub generic_params: Seq<TypeParamV>,
}

/// Model of a `Stmt`.
pub enum SourceStmtV {
    Let { name: Seq<char>, mutable: bool, ty: Option<TypeV>, value: ExprV },
    Assign { target: ExprV, value: ExprV },
    Return(Option<ExprV>),
    ExprStmt(ExprV),
}

/// Model of an `FnDef`.
pub struct FnDefV {
    pub attributes: Seq<AttrV>,
    pub name: Seq<char>,
    pub generic_params: Seq<TypeParamV>,
    pub params: Seq<ParamV>,
    pub return_type: Option<TypeV>,
    pub body: Seq<SourceStmtV>,
}

/// Model of a `WhereClause`.
pub struct WhereClauseV {
    pub type_param: Seq<char>,
    pub bounds: Seq<Seq<char>>,
}

/// Model of a `Pattern`.
pub enum PatternV {
    Wildcard,
    EnumVariant { enum_name: Seq<char>, variant_name: Seq<char> },
    EnumVariantWithBinding { enum_name: Seq<char>, variant_name: Seq<char>, binding: Seq<char> },
}

/// The model of an expression.
pub open spec fn expr_view(e: Expr) -> ExprV
    decreases e,
{
    ExprV { id: e.id, kind: expr_kind_view(e.kind) }
}

/// The model of what an expression is.
pub open spec fn expr_kind_view(k: ExprKind) -> ExprKindV
    decreases k,
{
    match k {
        ExprKind::Literal(l) => ExprKindV::Literal(l.deep_view()),
        ExprKind::Ident(s) => ExprKindV::Ident(s@),
        ExprKind::Sym(s) => ExprKindV::Sym(s@),
        ExprKind::BinaryOp { op, left, right } => ExprKindV::BinaryOp {
            op,
            left: Box::new(expr_view(*left)),
            right: Box::new(expr_view(*right)),
        },
        ExprKind::Unary { op, expr } => ExprKindV::Unary { op, expr: Box::new(expr_view(*expr)) },
        ExprKind::LackSlice(es) => ExprKindV::LackSlice(
            Seq::new(
                es@.len(),
                |i: int|
                    if 0 <= i < es@.len() {
                        expr_view(es@[i])
                    } else {
                        arbitrary()
                    },
            ),
        ),
        ExprKind::FieldAccess { struct_expr, field_name } => ExprKindV::FieldAccess {
            struct_expr: Box::new(expr_view(*struct_expr)),
            field_name: field_name@,
        },
        ExprKind::Index { expr, index } => ExprKindV::Index {
            expr: Box::new(expr_view(*expr)),
            index: Box::new(expr_view(*index)),
        },
        ExprKind::Closure { param, body } => ExprKindV::Closure {
            param: param@,
            body: Box::new(expr_view(*body)),
        },
        ExprKind::Call { qualifier, func, args, is_method } => ExprKindV::Call {
            qualifier: qualifier.deep_view(),
            func: func@,
            args: Seq::new(
                args@.len(),
                |i: int|
                    if 0 <= i < args@.len() {
                        call_arg_view(args@[i])
                    } else {
                        arbitrary()
                    },
            ),
            is_method,
        },
    }
}

/// The model of an argument.
pub open spec fn call_arg_view(a: CallArg) -> CallArgV
    decreases a,
{
    match a {
        CallArg::Positional(e) => CallArgV::Positional(expr_view(e)),
        CallArg::Named(n, e) => CallArgV::Named(n@, expr_view(e)),
    }
}

impl DeepView for Expr {
    type V = ExprV;

    open spec fn deep_view(&self) -> ExprV {
        expr_view(*self)
    }
}

impl DeepView for CallArg {
    type V = CallArgV;

    open spec fn deep_view(&self) -> CallArgV {
        call_arg_view(*self)
    }
}

impl DeepView for Param {
    type V = ParamV;

    open spec fn deep_view(&self) -> ParamV {
        ParamV { name: self.name@, ty: self.ty.deep_view() }
    }
}

impl DeepView for GenericParam {
    type V = TypeParamV;

    open spec fn deep_view(&self) -> TypeParamV {
        match *self {
            GenericParam::Type { name, bounds } => TypeParamV {
                name: name@,
                bounds: bounds.deep_view(),
            },
        }
    }
}

/// The model of an attribute argument.
pub open spec fn attr_arg_view(a: AttributeArg) -> AttrArgV
    decreases a,
{
    match a {
        AttributeArg::Ident(s) => AttrArgV::Ident(s@),
        AttributeArg::Rational(s) => AttrArgV::Rational(s@),
        AttributeArg::KeyValue(k, v) => AttrArgV::KeyValue(k@, Box::new(attr_arg_view(*v))),
    }
}

impl DeepView for AttributeArg {
    type V = AttrArgV;

    open spec fn deep_view(&self) -> AttrArgV {
        attr_arg_view(*self)
    }
}

impl DeepView for Attribute {
    type V = AttrV;

    open spec fn deep_view(&self) -> AttrV {
        AttrV { name: self.name@, args: self.args.deep_view() }
    }
}

impl DeepView for FnSig {
    type V = FnSigV;

    open spec fn deep_view(&self) -> FnSigV {
        FnSigV {
            name: self.name@,
            params: self.params.deep_view(),
            return_type: self.return_type.deep_view(),
            generic_params: self.generic_params.deep_view(),
        }
    }
}

impl DeepView for Stmt {
    type V = SourceStmtV;

    open spec fn deep_view(&self) -> SourceStmtV {
        match *self {
            Stmt::Let { name, mutable, ty, value } => SourceStmtV::Let {
                name: name@,
                mutable,
                ty: ty.deep_view(),
                value: value.deep_view(),
            },
            Stmt::Assign { target, value } => SourceStmtV::Assign {
                target: target.deep_view(),
                value: value.deep_view(),
            },
            Stmt::Return(e) => SourceStmtV::Return(e.deep_view()),
            Stmt::ExprStmt(e) => SourceStmtV::ExprStmt(e.deep_view()),
        }
    }
}

impl DeepView for Block {
    type V = Seq<SourceStmtV>;

    open spec fn deep_view(&self) -> Seq<SourceStmtV> {
        self.stmts.deep_view()
    }
}

impl DeepView for FnDef {
    type V = FnDefV;

    open spec fn deep_view(&self) -> FnDefV {
        FnDefV {
            attributes: self.attributes.deep_view(),
            name: self.name@,
            generic_params: self.generic_params.deep_view(),
            params: self.params.deep_view(),
            return_type: self.return_type.deep_view(),
            body: self.body.deep_view(),
        }
    }
}

impl DeepView for WhereClause {
    type V = WhereClauseV;

    open spec fn deep_view(&self) -> WhereClauseV {
        WhereClauseV { type_param: self.type_param@, bounds: self.bounds.deep_view() }
    }
}

impl DeepView for Pattern {
    type V = PatternV;

    open spec fn deep_view(&self) -> PatternV {
        match *self {
            Pattern::Wildcard => PatternV::Wildcard,
            Pattern::EnumVariant { enum_name, variant_name } => PatternV::EnumVariant {
                enum_name: enum_name@,
                variant_name: variant_name@,
            },
            Pattern::EnumVariantWithBinding { enum_name, variant_name, binding } => {
                PatternV::EnumVariantWithBinding {
                    enum_name: enum_name@,
                    variant_name: variant_name@,
                    binding: binding@,
                }
            },
        }
    }
}

impl Clone for Param {
    fn clone(&self) -> (r: Self)
        ensures
            r.deep_view() == self.deep_view(),
    {
        Param { name: self.name.clone(), ty: self.ty.clone() }
    }
}


fn clone_exprs(v: &Vec<Expr>) -> (r: Vec<Expr>)
    ensures
        r.len() == v.len(),
        forall|i: int| 0 <= i < v.len() ==> expr_view(#[trigger] r@[i]) == expr_view(v@[i]),
    decreases v,
{
    let mut r: Vec<Expr> = Vec::new();
    let mut i: usize = 0;
    while i < v.len()
        invariant
            i <= v.len(),
            r.len() == i,
            forall|j: int| 0 <= j < i ==> expr_view(#[trigger] r@[j]) == expr_view(v@[j]),
        decreases v.len() - i,
    {
        r.push(v[i].clone());
        i = i + 1;
    }
    r
}

fn clone_call_args(v: &Vec<CallArg>) -> (r: Vec<CallArg>)
    ensures
        r.len() == v.len(),
        forall|i: int|
            0 <= i < v.len() ==> call_arg_view(#[trigger] r@[i]) == call_arg_view(v@[i]),
    decreases v,
{
    let mut r: Vec<CallArg> = Vec::new();
    let mut i: usize = 0;
    while i < v.len()
        invariant
            i <= v.len(),
            r.len() == i,
            forall|j: int|
                0 <= j < i ==> call_arg_view(#[trigger] r@[j]) == call_arg_view(v@[j]),
        decreases v.len() - i,
    {
        r.push(v[i].clone());
        i = i + 1;
    }
    r
}

impl Clone for Expr {
    fn clone(&self) -> (r: Self)
        ensures
            r.deep_view() == self.deep_view(),
        decreases self,
    {
        Expr { id: self.id, kind: self.kind.clone() }
    }
}

impl Clone for ExprKind {
    fn clone(&self) -> (r: Self)
        ensures
            expr_kind_view(r) == expr_kind_view(*self),
        decreases self,
    {
        match self {
            ExprKind::Literal(l) => ExprKind::Literal(l.clone()),
            ExprKind::Ident(s) => ExprKind::Ident(s.clone()),
            ExprKind::Sym(s) => ExprKind::Sym(s.clone()),
            ExprKind::BinaryOp { op, left, right } => ExprKind::BinaryOp {
                op: *op,
                left: Box::new((**left).clone()),
                right: Box::new((**right).clone()),
            },
            ExprKind::Unary { op, expr } => ExprKind::Unary {
                op: *op,
                expr: Box::new((**expr).clone()),
            },
            ExprKind::LackSlice(es) => {
                let c = clone_exprs(es);
                let r = ExprKind::LackSlice(c);
                assert(expr_kind_view(r)->LackSlice_0 =~= expr_kind_view(*self)->LackSlice_0);
                r
            },
            ExprKind::FieldAccess { struct_expr, field_name } => ExprKind::FieldAccess {
                struct_expr: Box::new((**struct_expr).clone()),
                field_name: field_name.clone(),
            },
            ExprKind::Index { expr, index } => ExprKind::Index {
                expr: Box::new((**expr).clone()),
                index: Box::new((**index).clone()),
            },
            ExprKind::Closure { param, body } => ExprKind::Closure {
                param: param.clone(),
                body: Box::new((**body).clone()),
            },
            ExprKind::Call { qualifier, func, args, is_method } => {
                let c = clone_call_args(args);
                let r = ExprKind::Call {
                    qualifier: match qualifier {
                        Some(q) => Some(q.clone()),
                        None => None,
                    },
                    func: func.clone(),
                    args: c,
                    is_method: *is_method,
                };
                assert(expr_kind_view(r)->args =~= expr_kind_view(*self)->args);
                r
            },
        }
    }
}

impl Clone for CallArg {
    fn clone(&self) -> (r: Self)
        ensures
            r.deep_view() == self.deep_view(),
        decreases self,
    {
        match self {
            CallArg::Positional(e) => CallArg::Positional(e.clone()),
            CallArg::Named(n, e) => CallArg::Named(n.clone(), e.clone()),
        }
    }
}

impl Clone for Stmt {
    fn clone(&self) -> (r: Self)
        ensures
            r.deep_view() == self.deep_view(),
    {
        match self {
            Stmt::Let { name, mutable, ty, value } => Stmt::Let {
                name: name.clone(),
                mutable: *mutable,
                ty: match ty {
                    Some(t) => Some(t.clone()),
                    None => None,
                },
                value: value.clone(),
            },
            Stmt::Assign { target, value } => Stmt::Assign {
                target: target.clone(),
                value: value.clone(),
            },
            Stmt::Return(e) => Stmt::Return(
                match e {
                    Some(x) => Some(x.clone()),
                    None => None,
                },
            ),
            Stmt::ExprStmt(e) => Stmt::ExprStmt(e.clone()),
        }
    }
}

impl Clone for Block {
    fn clone(&self) -> (r: Self)
        ensures
            r.deep_view() == self.deep_view(),
    {
        let stmts = self.stmts.clone();
        assert(stmts.deep_view() =~= self.stmts.deep_view());
        Block { stmts }
    }
}

impl Clone for AttributeArg {
    fn clone(&self) -> (r: Self)
        ensures
            r.deep_view() == self.deep_view(),
        decreases self,
    {
        match self {
            AttributeArg::Ident(s) => AttributeArg::Ident(s.clone()),
            AttributeArg::Rational(s) => AttributeArg::Rational(s.clone()),
            AttributeArg::KeyValue(k, v) => AttributeArg::KeyValue(
                k.clone(),
                Box::new((**v).clone()),
            ),
        }
    }
}

impl Clone for Attribute {
    fn clone(&self) -> (r: Self)
        ensures
            r.deep_view() == self.deep_view(),
    {
        let args = self.args.clone();
        assert(args.deep_view() =~= self.args.deep_view());
        Attribute { name: self.name.clone(), args }
    }
}

impl Clone for FnDef {
    fn clone(&self) -> (r: Self)
        ensures
            r.deep_view() == self.deep_view(),
    {
        let attributes = self.attributes.clone();
        assert(attributes.deep_view() =~= self.attributes.deep_view());
        let params = self.params.clone();
        assert(params.deep_view() =~= self.params.deep_view());
        let generic_params = self.generic_params.clone();
        assert(generic_params.deep_view() =~= self.generic_params.deep_view());
        FnDef {
            attributes,
            name: self.name.clone(),
            generic_params,
            params,
            return_type: match &self.return_type {
                Some(t) => Some(t.clone()),
                None => None,
            },
            body: self.body.clone(),
        }
    }
}

} // verus!
