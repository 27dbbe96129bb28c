//! Functions and closures: the context in which a body is checked, and what its
//! type must be.

use vstd::prelude::*;

use crate::ast::Type;
use crate::ast::TypeV;
use crate::const_eval::told;
use crate::debug::show_type;
use crate::debug::type_debug;
use crate::expr::{Expr, ExprKind, FnDef, Param, Stmt};
use crate::expr::ParamV;
use crate::intrinsic_check::stripped;
use crate::semantic::block::{block_checked, lemma_block_comparable};
use crate::semantic::given::{
    checks_exprs, checks_forward, checks_stmts, comparable, exprs_fit, stmts_fit, Checked,
};
use crate::semantic::TypeChecker;
use crate::semantic::check_type::types_same;
use crate::semantic::privacy::labelled_same;
use crate::table::Table;
use crate::text::{cat3, str_eq};

verus! {

/// The variables that parameters bind; `self` has the given type.
pub open spec fn param_scope(params: Seq<ParamV>, self_type: TypeV) -> Map<Seq<char>, TypeV>
    decreases params.len(),
{
    if params.len() == 0 {
        Map::empty()
    } else {
        let p = params.last();
        param_scope(params.drop_last(), self_type).insert(
            p.name,
            if p.name == "self"@ {
                self_type
            } else {
                p.ty
            },
        )
    }
}

/// The type of `self` where it is not known.
pub open spec fn self_type_or(t: Option<TypeV>) -> TypeV {
    match t {
        Some(t) => t,
        None => TypeV::SelfType,
    }
}

/// Whether a function of the given name is being checked.
pub open spec fn in_progress(stack: Seq<String>, name: Seq<char>) -> bool {
    exists|i: int| 0 <= i < stack.len() && (#[trigger] stack[i])@ == name
}

/// The complaint about a function that calls itself.
pub open spec fn recursion_message() -> Seq<char> {
    "error[MD002]: recursion not allowed in model block; graph must be topologically sortable"@
}

/// The complaint about the type of a function's body, if there is one. A body that
/// never completes has every type.
pub open spec fn body_complaint(body: TypeV, declared: Option<TypeV>) -> Option<Seq<char>> {
    match declared {
        None => None,
        Some(expected) => if stripped(body) is Never {
            None
        } else if !types_same(body, expected) {
            Some(
                "expected return type "@ + type_debug(expected) + ", got "@ + type_debug(body),
            )
        } else {
            match labelled_same(body, expected) {
                Err(e) => Some(e),
                Ok(true) => None,
                Ok(false) => Some(
                    "privacy label mismatch: expected "@ + type_debug(expected) + ", got "@
                        + type_debug(body),
                ),
            }
        },
    }
}

/// Whether `inner` is `outer` after a function was entered: its name is on the stack,
/// its parameters are in a new scope, and its declared return type is the one that
/// `return` is held against.
pub open spec fn func_entered(outer: TypeChecker, inner: TypeChecker, f: &FnDef) -> bool {
    &&& inner == (TypeChecker {
        fn_stack: inner.fn_stack,
        scopes: inner.scopes,
        current_return_type: inner.current_return_type,
        ..outer
    })
    &&& inner.fn_stack.deep_view() == outer.fn_stack.deep_view().push(f.name@)
    &&& inner.scopes.deep_view() == outer.scopes.deep_view().push(
        param_scope(f.params.deep_view(), self_type_or(outer.current_self_type.deep_view())),
    )
    &&& inner.current_return_type.deep_view() == f.return_type.deep_view()
}

/// Whether `after` is `before` without the innermost function and its scope.
pub open spec fn func_left(before: TypeChecker, after: TypeChecker) -> bool {
    &&& after == (TypeChecker { fn_stack: after.fn_stack, scopes: after.scopes, ..before })
    &&& after.fn_stack@ == dropped(before.fn_stack@)
    &&& after.scopes@ == dropped(before.scopes@)
}

/// A sequence without its last element, if it has one.
pub open spec fn dropped<T>(s: Seq<T>) -> Seq<T> {
    if s.len() == 0 {
        s
    } else {
        s.drop_last()
    }
}

/// Whether what follows the check of a function's body, which gave `b`, may take the
/// checker from `before` to `after` and give `r`: a body of the wrong type is refused,
/// and the demands on forward methods are looked at last. A function that is refused is
/// not left.
pub open spec fn body_accepted<W: Fn(&TypeChecker, &FnDef) -> Result<(), String>>(
    w: W,
    f: &FnDef,
    b: Result<Type, String>,
    before: TypeChecker,
    after: TypeChecker,
    r: Result<(), String>,
) -> bool {
    match b {
        Err(e) => r == Err::<(), String>(e) && after == before,
        Ok(t) => match body_complaint(t.deep_view(), f.return_type.deep_view()) {
            Some(c) => (r matches Err(e) && e@ == c) && after == before,
            None => call_ensures(w, (&before, f), r) && match r {
                Err(_) => after == before,
                Ok(_) => func_left(before, after),
            },
        },
    }
}

/// Whether checking a function may take the checker from `before` to `after` and give
/// `r`. A function that is being checked already is refused.
pub open spec fn func_checked<
    S: Fn(TypeChecker, &Stmt) -> Checked<Type>,
    X: Fn(TypeChecker, &Expr, Option<&Type>) -> Checked<Type>,
    W: Fn(&TypeChecker, &FnDef) -> Result<(), String>,
>(
    s: S,
    x: X,
    w: W,
    f: &FnDef,
    before: TypeChecker,
    after: TypeChecker,
    r: Result<(), String>,
) -> bool {
    if in_progress(before.fn_stack@, f.name@) {
        (r matches Err(e) && e@ == recursion_message()) && after == before
    } else {
        exists|
            inner: TypeChecker,
            expected: Option<&Type>,
            done: TypeChecker,
            b: Result<Type, String>,
        |
            {
                &&& func_entered(before, inner, f)
                &&& wanted(expected) == f.return_type.deep_view()
                &&& #[trigger] block_checked(s, x, &f.body, expected, inner, done, b)
                &&& body_accepted(
                    w,
                    f,
                    b,
                    TypeChecker { current_return_type: before.current_return_type, ..done },
                    after,
                    r,
                )
            }
    }
}

/// The type of a closure call, from what checking its body gave and the return type
/// that is expected of it.
pub open spec fn closure_result(
    body: Result<TypeV, Seq<char>>,
    expected: Option<TypeV>,
) -> Result<TypeV, Seq<char>> {
    match (body, expected) {
        (Err(e), _) => Err(e),
        (Ok(t), None) => Ok(t),
        (Ok(t), Some(want)) => if stripped(t) is Never {
            Ok(t)
        } else {
            match labelled_same(t, want) {
                Err(e) => Err(e),
                Ok(true) => Ok(t),
                Ok(false) => Err(
                    "Closure return type "@ + type_debug(t) + " does not match expected "@
                        + type_debug(want),
                ),
            }
        },
    }
}

/// Whether checking a closure may take the checker from `before` to `after` and give
/// `r`.
pub open spec fn closure_checked<
    X: Fn(TypeChecker, &Expr, Option<&Type>) -> Checked<Type>,
>(
    x: X,
    closure: &Expr,
    param_ty: TypeV,
    expected: Option<&Type>,
    before: TypeChecker,
    after: TypeChecker,
    r: Result<Type, String>,
) -> bool {
    match closure.kind {
        ExprKind::Closure { param, body } => exists|
            c: TypeChecker,
            done: TypeChecker,
            b: Result<Type, String>,
        |
            {
                &&& isolated(before, c, param@, param_ty)
                &&& #[trigger] call_ensures(x, (c, &*body, None), (done, b))
                &&& after == (TypeChecker { scopes: before.scopes, ..done })
                &&& told(r) == closure_result(told(b), wanted(expected))
            },
        _ => r matches Err(e) && e@ == "Expected a closure"@ && after == before,
    }
}

/// The model of a type that is expected, if one is.
pub open spec fn wanted(expected: Option<&Type>) -> Option<TypeV> {
    match expected {
        Some(t) => Some(t.deep_view()),
        None => None,
    }
}

/// Whether `inner` is `outer` but for its scopes, and knows one variable alone.
pub open spec fn isolated(
    outer: TypeChecker,
    inner: TypeChecker,
    name: Seq<char>,
    ty: TypeV,
) -> bool {
    &&& inner == (TypeChecker { scopes: inner.scopes, ..outer })
    &&& inner.scopes.deep_view() == seq![Map::<Seq<char>, TypeV>::empty().insert(name, ty)]
}

/// However the check of a function ends, the declared return type that `return` is held
/// against is as before.
pub proof fn lemma_return_type_kept<
    S: Fn(TypeChecker, &Stmt) -> Checked<Type>,
    X: Fn(TypeChecker, &Expr, Option<&Type>) -> Checked<Type>,
    W: Fn(&TypeChecker, &FnDef) -> Result<(), String>,
>(
    s: S,
    x: X,
    w: W,
    f: &FnDef,
    before: TypeChecker,
    after: TypeChecker,
    r: Result<(), String>,
)
    requires
        func_checked(s, x, w, f, before, after, r),
    ensures
        after.current_return_type == before.current_return_type,
{
}

/// However the check of a closure ends, the scopes are as before.
pub proof fn lemma_scopes_kept<X: Fn(TypeChecker, &Expr, Option<&Type>) -> Checked<Type>>(
    x: X,
    closure: &Expr,
    param_ty: TypeV,
    expected: Option<&Type>,
    before: TypeChecker,
    after: TypeChecker,
    r: Result<Type, String>,
)
    requires
        closure_checked(x, closure, param_ty, expected, before, after, r),
    ensures
        after.scopes == before.scopes,
{
}

/// A body or a closure that never completes has every type.
pub proof fn lemma_never_accepted(body: TypeV, declared: TypeV)
    requires
        stripped(body) is Never,
    ensures
        body_complaint(body, Some(declared)) is None,
        closure_result(Ok(body), Some(declared)) == Ok::<TypeV, Seq<char>>(body),
{
}

/// Whether a name is on the stack.
fn on_stack(stack: &Vec<String>, name: &str) -> (r: bool)
    ensures
        r == in_progress(stack@, name@),
{
    let mut i: usize = 0;
    while i < stack.len()
        invariant
            i <= stack.len(),
            forall|j: int| 0 <= j < i ==> (#[trigger] stack@[j])@ != name@,
        decreases stack.len() - i,
    {
        if str_eq(stack[i].as_str(), name) {
            return true;
        }
        i = i + 1;
    }
    false
}

/// The variables that parameters bind.
fn bind_params(params: &Vec<Param>, self_type: &Option<Type>) -> (r: Table<String, Type>)
    ensures
        r.deep_view() == param_scope(params.deep_view(), self_type_or(self_type.deep_view())),
{
    let ghost all = params.deep_view();
    let ghost st = self_type_or(self_type.deep_view());
    let mut scope: Table<String, Type> = Table::new();
    let mut i: usize = 0;
    assert(all.take(0) =~= Seq::empty());
    while i < params.len()
        invariant
            i <= params.len(),
            all == params.deep_view(),
            st == self_type_or(self_type.deep_view()),
            scope.deep_view() == param_scope(all.take(i as int), st),
        decreases params.len() - i,
    {
        assert(all.take(i as int + 1).drop_last() =~= all.take(i as int));
        assert(all.take(i as int + 1).last() == params@[i as int].deep_view());
        let ty = if str_eq(params[i].name.as_str(), "self") {
            match self_type {
                Some(t) => t.clone(),
                None => Type::SelfType,
            }
        } else {
            params[i].ty.clone()
        };
        scope.insert(params[i].name.clone(), ty);
        i = i + 1;
    }
    assert(all.take(i as int) =~= all);
    scope
}

impl TypeChecker {
    /// Enters a function: its name goes on the stack and its parameters into a new
    /// scope.
    fn begin_func(&mut self, fn_def: &FnDef)
        ensures
            *final(self) == (TypeChecker {
                fn_stack: final(self).fn_stack,
                scopes: final(self).scopes,
                ..*old(self)
            }),
            final(self).fn_stack.deep_view() == old(self).fn_stack.deep_view().push(fn_def.name@),
            final(self).scopes.deep_view() == old(self).scopes.deep_view().push(
                param_scope(
                    fn_def.params.deep_view(),
                    self_type_or(old(self).current_self_type.deep_view()),
                ),
            ),
    {
        let ghost stack = self.fn_stack.deep_view();
        let ghost scopes = self.scopes.deep_view();
        self.fn_stack.push(fn_def.name.clone());
        assert(self.fn_stack.deep_view() =~= stack.push(fn_def.name@));
        let scope = bind_params(&fn_def.params, &self.current_self_type);
        let ghost sv = scope.deep_view();
        self.scopes.push(scope);
        assert(self.scopes.deep_view() =~= scopes.push(sv));
    }

    /// Whether the type of a function's body is what was declared.
    fn check_body_type(&self, body: &Type, declared: &Option<Type>) -> (r: Result<(), String>)
        requires
            declared.deep_view() matches Some(want) ==> comparable(body.deep_view(), want),
        ensures
            match r {
                Ok(_) => body_complaint(body.deep_view(), declared.deep_view()) is None,
                Err(e) => body_complaint(body.deep_view(), declared.deep_view()) == Some(e@),
            },
    {
        let expected = match declared {
            Some(t) => t,
            None => {
                return Ok(());
            },
        };
        match self.strip_privacy(body) {
            Type::Never => {
                return Ok(());
            },
            _ => {},
        }
        if !self.types_equal(body, expected) {
            let mut s = cat3("expected return type ", show_type(expected).as_str(), ", got ");
            s.append(show_type(body).as_str());
            return Err(s);
        }
        match self.types_equal_with_privacy(body, expected) {
            Err(e) => Err(e),
            Ok(same) => if same {
                Ok(())
            } else {
                let mut s = cat3(
                    "privacy label mismatch: expected ",
                    show_type(expected).as_str(),
                    ", got ",
                );
                s.append(show_type(body).as_str());
                Err(s)
            },
        }
    }

    /// Checks a function: its body, with its parameters in scope, then the type of the
    /// body, then the demands on forward methods.
    pub fn check_func<
        S: Copy + Fn(TypeChecker, &Stmt) -> Checked<Type>,
        X: Copy + Fn(TypeChecker, &Expr, Option<&Type>) -> Checked<Type>,
        W: Copy + Fn(&TypeChecker, &FnDef) -> Result<(), String>,
    >(
        &mut self,
        fn_def: &FnDef,
        check_stmt: S,
        check_expr: X,
        check_forward: W,
    ) -> (r: Result<(), String>)
        requires
            checks_stmts(check_stmt),
            checks_exprs(check_expr),
            checks_forward(check_forward),
            exprs_fit(check_expr, fn_def.return_type.deep_view()),
            stmts_fit(check_stmt, fn_def.return_type.deep_view()),
        ensures
            func_checked(
                check_stmt,
                check_expr,
                check_forward,
                fn_def,
                *old(self),
                *final(self),
                r,
            ),
    {
        if on_stack(&self.fn_stack, fn_def.name.as_str()) {
            return Err(
                "error[MD002]: recursion not allowed in model block; graph must be topologically sortable".to_owned(),
            );
        }
        self.begin_func(fn_def);
        let mut before = fn_def.return_type.clone();
        std::mem::swap(&mut before, &mut self.current_return_type);
        let ghost inner = *self;
        assert(func_entered(*old(self), inner, fn_def));
        let expected = fn_def.return_type.as_ref();
        let body = self.check_block_with_expected(&fn_def.body, expected, check_stmt, check_expr);
        let ghost done = *self;
        assert(block_checked(check_stmt, check_expr, &fn_def.body, expected, inner, done, body));
        self.current_return_type = before;
        let ghost mid = *self;
        assert(mid == (TypeChecker {
            current_return_type: old(self).current_return_type,
            ..done
        }));
        let ty = match body {
            Ok(t) => t,
            Err(e) => {
                return Err(e);
            },
        };
        proof {
            if let Some(want) = fn_def.return_type.deep_view() {
                lemma_block_comparable(
                    check_stmt,
                    check_expr,
                    &fn_def.body,
                    expected,
                    inner,
                    done,
                    ty,
                    want,
                );
            }
        }
        match self.check_body_type(&ty, &fn_def.return_type) {
            Ok(_) => {},
            Err(e) => {
                return Err(e);
            },
        }
        let forward = check_forward(&*self, fn_def);
        if forward.is_ok() {
            self.scopes.pop();
            self.fn_stack.pop();
            assert(func_left(mid, *self));
        }
        forward
    }

    /// The type of a closure's result. The body sees the closure's parameter and no
    /// other variable.
    pub fn check_closure<
        X: Copy + Fn(TypeChecker, &Expr, Option<&Type>) -> Checked<Type>,
    >(
        &mut self,
        closure_expr: &Expr,
        param_ty: &Type,
        expected_ret: Option<&Type>,
        check_expr: X,
    ) -> (r: Result<Type, String>)
        requires
            checks_exprs(check_expr),
            exprs_fit(check_expr, wanted(expected_ret)),
        ensures
            closure_checked(
                check_expr,
                closure_expr,
                param_ty.deep_view(),
                expected_ret,
                *old(self),
                *final(self),
                r,
            ),
    {
        let (param, body) = match &closure_expr.kind {
            ExprKind::Closure { param, body } => (param, &**body),
            _ => {
                return Err("Expected a closure".to_owned());
            },
        };
        let mut scope: Table<String, Type> = Table::new();
        scope.insert(param.clone(), param_ty.clone());
        let ghost sv = scope.deep_view();
        let mut around: Vec<Table<String, Type>> = Vec::new();
        around.push(scope);
        assert(around.deep_view() =~= seq![sv]);
        std::mem::swap(&mut around, &mut self.scopes);
        let result = self.ask_expr(check_expr, body, None);
        self.scopes = around;
        let ty = match result {
            Ok(t) => t,
            Err(e) => {
                return Err(e);
            },
        };
        let want = match expected_ret {
            Some(t) => t,
            None => {
                return Ok(ty);
            },
        };
        match self.strip_privacy(&ty) {
            Type::Never => {
                return Ok(ty);
            },
            _ => {},
        }
        match self.types_equal_with_privacy(&ty, want) {
            Err(e) => Err(e),
            Ok(same) => if same {
                Ok(ty)
            } else {
                let mut s = cat3(
                    "Closure return type ",
                    show_type(&ty).as_str(),
                    " does not match expected ",
                );
                s.append(show_type(want).as_str());
                Err(s)
            },
        }
    }
}

} // verus!
