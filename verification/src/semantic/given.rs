//! Checks that are supplied to the type checker. A supplied check is handed the checker
//! and hands it back, with what it found.

use vstd::prelude::*;

use crate::ast::Type;
use crate::ast::TypeV;
use crate::expr::{Expr, FnDef, Stmt};
use crate::intrinsic_check::stripped;
use crate::semantic::privacy::labels_fit;
use crate::semantic::TypeChecker;

verus! {

/// What a supplied check hands back: the checker, and what the check found.
pub type Checked<T> = (TypeChecker, Result<T, String>);

/// Whether a check of expressions can be made of every expression.
pub open spec fn checks_exprs<X: Fn(TypeChecker, &Expr, Option<&Type>) -> Checked<Type>>(
    x: X,
) -> bool {
    forall|c: TypeChecker, e: &Expr, expected: Option<&Type>| #[trigger]
        call_requires(x, (c, e, expected))
}

/// Whether a check of statements can be made of every statement.
pub open spec fn checks_stmts<S: Fn(TypeChecker, &Stmt) -> Checked<Type>>(s: S) -> bool {
    forall|c: TypeChecker, stmt: &Stmt| #[trigger] call_requires(s, (c, stmt))
}

/// Whether a type that was found can be held against one that is wanted: the numbers of
/// their labels can be read, where these are compared.
pub open spec fn comparable(found: TypeV, want: TypeV) -> bool {
    !(stripped(found) is Never) ==> labels_fit(found, want)
}

/// Whether every type that a check of expressions may give can be held against the one
/// that is wanted, if one is.
pub open spec fn exprs_fit<X: Fn(TypeChecker, &Expr, Option<&Type>) -> Checked<Type>>(
    x: X,
    want: Option<TypeV>,
) -> bool {
    want matches Some(w) ==> forall|
        c: TypeChecker,
        e: &Expr,
        expected: Option<&Type>,
        after: TypeChecker,
        t: Type,
    | #[trigger]
        call_ensures(x, (c, e, expected), (after, Ok(t))) ==> comparable(t.deep_view(), w)
}

/// Whether every type that a check of statements may give can be held against the one
/// that is wanted, if one is.
pub open spec fn stmts_fit<S: Fn(TypeChecker, &Stmt) -> Checked<Type>>(
    s: S,
    want: Option<TypeV>,
) -> bool {
    want matches Some(w) ==> forall|c: TypeChecker, stmt: &Stmt, after: TypeChecker, t: Type|
     #[trigger]
        call_ensures(s, (c, stmt), (after, Ok(t))) ==> comparable(t.deep_view(), w)
}

/// Whether the supplied check of the demands on forward methods can be made of every
/// function.
pub open spec fn checks_forward<W: Fn(&TypeChecker, &FnDef) -> Result<(), String>>(
    w: W,
) -> bool {
    forall|c: &TypeChecker, f: &FnDef| #[trigger] call_requires(w, (c, f))
}

impl TypeChecker {
    /// Makes the supplied check of an expression, with the type that is expected of it.
    pub fn ask_expr<
        X: Fn(TypeChecker, &Expr, Option<&Type>) -> Checked<Type>,
    >(&mut self, x: X, e: &Expr, expected: Option<&Type>) -> (r: Result<Type, String>)
        requires
            call_requires(x, (*old(self), e, expected)),
        ensures
            call_ensures(x, (*old(self), e, expected), (*final(self), r)),
    {
        let mut c = TypeChecker::new();
        std::mem::swap(self, &mut c);
        let (after, r) = x(c, e, expected);
        *self = after;
        r
    }

    /// Makes the supplied check of a statement.
    pub fn ask_stmt<S: Fn(TypeChecker, &Stmt) -> Checked<Type>>(
        &mut self,
        s: S,
        stmt: &Stmt,
    ) -> (r: Result<Type, String>)
        requires
            call_requires(s, (*old(self), stmt)),
        ensures
            call_ensures(s, (*old(self), stmt), (*final(self), r)),
    {
        let mut c = TypeChecker::new();
        std::mem::swap(self, &mut c);
        let (after, r) = s(c, stmt);
        *self = after;
        r
    }
}

} // verus!
