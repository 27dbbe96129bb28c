//! Imports, arguments, constant expressions and constant dimensions.

use vstd::prelude::*;

use crate::ast::{ShapeDim, Type, UnaryOp};
use crate::ast::DimV;
use crate::const_eval::low_u128;
use crate::const_eval::low_bits;
use crate::expr::{CallArg, Expr, ExprKind};
use crate::expr::{ExprKindV, ExprV};
use crate::semantic::given::{checks_exprs, Checked};
use crate::semantic::TypeChecker;
use crate::text::{cat, cat3};

verus! {

/// The file of a module of the standard library.
pub open spec fn module_file(module: Seq<char>, stdlib_path: Seq<char>) -> Seq<char> {
    stdlib_path + "/xiyi-core/src/"@ + module + ".xiyi"@
}

/// What importing a module gives, by whether its file is there.
pub open spec fn import_result(
    module: Seq<char>,
    stdlib_path: Seq<char>,
    exists_file: bool,
) -> Result<Seq<char>, Seq<char>> {
    if exists_file {
        Ok(module_file(module, stdlib_path))
    } else {
        Err("module not found: "@ + module)
    }
}

/// Whether the value of an expression is known at compile time; `consts` are the
/// names of the constants.
pub open spec fn compile_time(e: ExprV, consts: Set<Seq<char>>) -> bool
    decreases e,
{
    match e.kind {
        ExprKindV::Literal(_) => true,
        ExprKindV::Sym(_) => true,
        ExprKindV::Ident(name) => consts.contains(name),
        ExprKindV::BinaryOp { op, left, right } => compile_time(*left, consts) && compile_time(
            *right,
            consts,
        ),
        ExprKindV::Unary { op: UnaryOp::Neg, expr } => compile_time(*expr, consts),
        ExprKindV::LackSlice(_) => true,
        _ => false,
    }
}

/// The size of a constant dimension.
pub open spec fn constant_dim(d: DimV) -> Result<int, Seq<char>> {
    match d {
        DimV::Const(c) => Ok(low_bits(c as int)),
        _ => Err("expected constant dimension"@),
    }
}

/// The expression of an argument.
pub open spec fn arg_of(a: &CallArg) -> &Expr {
    match a {
        CallArg::Positional(e) => e,
        CallArg::Named(_, e) => e,
    }
}

impl TypeChecker {
    /// The file of a module of the standard library.
    pub fn import_path(&self, module: &str, stdlib_path: &str) -> (r: String)
        ensures
            r@ == module_file(module@, stdlib_path@),
    {
        let mut s = cat3(stdlib_path, "/xiyi-core/src/", module);
        s.append(".xiyi");
        s
    }

    /// The file of an imported module; `found` tells whether there is such a file.
    pub fn resolve_import(&self, module: &str, stdlib_path: &str, found: bool) -> (r: Result<
        String,
        String,
    >)
        ensures
            crate::const_eval::told(r) == import_result(module@, stdlib_path@, found),
    {
        if found {
            Ok(self.import_path(module, stdlib_path))
        } else {
            Err(cat("module not found: ", module))
        }
    }

    /// Makes the supplied check of an argument's expression.
    pub fn check_call_arg<X: Copy + Fn(TypeChecker, &Expr, Option<&Type>) -> Checked<Type>>(
        &mut self,
        arg: &CallArg,
        check_expr: X,
    ) -> (r: Result<Type, String>)
        requires
            checks_exprs(check_expr),
        ensures
            call_ensures(check_expr, (*old(self), arg_of(arg), None), (*final(self), r)),
    {
        match arg {
            CallArg::Positional(e) => self.ask_expr(check_expr, e, None),
            CallArg::Named(_, e) => self.ask_expr(check_expr, e, None),
        }
    }

    /// Whether the value of an expression is known at compile time.
    pub fn is_compile_time_constant(&self, expr: &Expr) -> (r: bool)
        ensures
            r == compile_time(expr.deep_view(), self.consts.deep_view().dom()),
        decreases expr,
    {
        match &expr.kind {
            ExprKind::Literal(_) => true,
            ExprKind::Sym(_) => true,
            ExprKind::Ident(name) => self.consts.contains_key(name),
            ExprKind::BinaryOp { op: _, left, right } => self.is_compile_time_constant(left)
                && self.is_compile_time_constant(right),
            ExprKind::Unary { op: UnaryOp::Neg, expr: inner } => self.is_compile_time_constant(
                inner,
            ),
            ExprKind::LackSlice(_) => true,
            _ => false,
        }
    }

    /// The size of a constant dimension.
    pub fn shape_dim_to_i64(&self, dim: &ShapeDim) -> (r: Result<i64, String>)
        ensures
            match r {
                Ok(v) => constant_dim(dim.deep_view()) == Ok::<int, Seq<char>>(v as int),
                Err(e) => constant_dim(dim.deep_view()) == Err::<int, Seq<char>>(e@),
            },
    {
        match dim {
            ShapeDim::Const(c) => Ok(low_u128(*c as u128)),
            _ => Err("expected constant dimension".to_owned()),
        }
    }
}

} // verus!
