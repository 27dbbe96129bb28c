//! Items of a program: what is known of each before bodies are checked.

use vstd::prelude::*;

use crate::ast::Type;
use crate::ast::TypeV;
use crate::debug::show_type;
use crate::debug::type_debug;
use crate::expr::{Expr, FnDef, ImplementDef, Stmt};
use crate::item::{ConstDef, Item, ModelDef};
use crate::semantic::TypeChecker;
use crate::semantic::check_type::types_same;
use crate::semantic::func::func_checked;
use crate::semantic::given::{
    checks_exprs, checks_forward, checks_stmts, exprs_fit, stmts_fit, Checked,
};
use crate::semantic::lookup::{conflict_message, impl_key, methods_added, methods_known};
use crate::table::Table;
use crate::text::cat3;

verus! {

/// Whether an item changes what the checker knows as collecting it does; models are
/// collected by rules of their own.
pub open spec fn collected(before: TypeChecker, after: TypeChecker, item: Item) -> bool {
    match item {
        Item::FnDef(f) => {
            &&& after == (TypeChecker { functions: after.functions, ..before })
            &&& after.functions.deep_view() == before.functions.deep_view().insert(
                f.name@,
                f.deep_view(),
            )
        },
        Item::StructDef(s) => {
            &&& after == (TypeChecker { structs: after.structs, ..before })
            &&& after.structs.deep_view() == before.structs.deep_view().insert(
                s.name@,
                s.deep_view(),
            )
        },
        Item::EnumDef(e) => {
            &&& after == (TypeChecker { enums: after.enums, ..before })
            &&& after.enums.deep_view() == before.enums.deep_view().insert(
                e.name@,
                e.deep_view(),
            )
        },
        Item::ConstDef(c) => {
            &&& after == (TypeChecker { consts: after.consts, ..before })
            &&& after.consts.deep_view() == before.consts.deep_view().insert(
                c.name@,
                c.ty.deep_view(),
            )
        },
        Item::Implement(imp) => {
            &&& after == (TypeChecker { methods: after.methods, ..before })
            &&& after.methods.deep_view() == match impl_key(imp.target_type.deep_view()) {
                None => before.methods.deep_view(),
                Some(key) => before.methods.deep_view().insert(
                    key,
                    methods_added(
                        methods_known(before.methods.deep_view(), key),
                        imp.functions@,
                        imp.target_type.deep_view(),
                    ).0,
                ),
            }
        },
        _ => after == before,
    }
}

/// The complaint about an item while collecting it, if there is one.
pub open spec fn collect_complaint(before: TypeChecker, item: Item) -> Option<Seq<char>> {
    match item {
        Item::Implement(imp) => match impl_key(imp.target_type.deep_view()) {
            None => None,
            Some(key) => match methods_added(
                methods_known(before.methods.deep_view(), key),
                imp.functions@,
                imp.target_type.deep_view(),
            ).1 {
                None => None,
                Some(n) => Some(conflict_message(n, key)),
            },
        },
        _ => None,
    }
}

/// The complaint about the value of a constant, if there is one.
pub open spec fn const_complaint(declared: TypeV, value: TypeV) -> Option<Seq<char>> {
    if types_same(value, declared) {
        None
    } else {
        Some(
            "const type mismatch: expected "@ + type_debug(declared) + ", got "@ + type_debug(
                value,
            ),
        )
    }
}

/// Whether collecting an item may take the checker from `before` to `after` and give the
/// error `e`. Models are collected by a check of their own, which is supplied.
pub open spec fn item_collected<M: Fn(TypeChecker, &ModelDef) -> Checked<()>>(
    m: M,
    item: &Item,
    before: TypeChecker,
    after: TypeChecker,
    e: Option<String>,
) -> bool {
    match item {
        Item::ModelDef(d) => exists|r: Result<(), String>|
            #[trigger] call_ensures(m, (before, d), (after, r)) && e == failure_of(r),
        _ => {
            &&& collected(before, after, *item)
            &&& match e {
                None => collect_complaint(before, *item) is None,
                Some(e) => collect_complaint(before, *item) == Some(e@),
            }
        },
    }
}

/// The error that a check gave, if it gave one.
pub open spec fn failure_of(r: Result<(), String>) -> Option<String> {
    match r {
        Ok(_) => None,
        Err(e) => Some(e),
    }
}

/// Whether collecting the first `n` items in order may take the checker from `before` to
/// `after` and give the error `e`: the first ends it.
pub open spec fn items_collected<M: Fn(TypeChecker, &ModelDef) -> Checked<()>>(
    m: M,
    items: Seq<Item>,
    n: int,
    before: TypeChecker,
    after: TypeChecker,
    e: Option<String>,
) -> bool
    decreases n,
{
    if n <= 0 {
        after == before && e is None
    } else {
        exists|c: TypeChecker, f: Option<String>|
            {
                &&& items_collected(m, items, n - 1, before, c, f)
                &&& #[trigger] next_collected(m, items, n, c, f, after, e)
            }
    }
}

/// Whether item `n`, after the error `f` or none, may take the checker from `before` to
/// `after` and give the error `e`.
pub open spec fn next_collected<M: Fn(TypeChecker, &ModelDef) -> Checked<()>>(
    m: M,
    items: Seq<Item>,
    n: int,
    before: TypeChecker,
    f: Option<String>,
    after: TypeChecker,
    e: Option<String>,
) -> bool {
    match f {
        Some(_) => after == before && e == f,
        None => item_collected(m, &items[n - 1], before, after, e),
    }
}

/// Whether checking the first `n` functions of a block in order may take the checker
/// from `before` to `after` and give the error `e`: the first ends it.
pub open spec fn fns_checked<
    S: Fn(TypeChecker, &Stmt) -> Checked<Type>,
    X: Fn(TypeChecker, &Expr, Option<&Type>) -> Checked<Type>,
    W: Fn(&TypeChecker, &FnDef) -> Result<(), String>,
>(
    s: S,
    x: X,
    w: W,
    fns: Seq<FnDef>,
    n: int,
    before: TypeChecker,
    after: TypeChecker,
    e: Option<String>,
) -> bool
    decreases n,
{
    if n <= 0 {
        after == before && e is None
    } else {
        exists|c: TypeChecker, f: Option<String>|
            {
                &&& fns_checked(s, x, w, fns, n - 1, before, c, f)
                &&& #[trigger] next_fn_checked(s, x, w, fns, n, c, f, after, e)
            }
    }
}

/// Whether function `n` of a block, after the error `f` or none, may take the checker
/// from `before` to `after` and give the error `e`.
pub open spec fn next_fn_checked<
    S: Fn(TypeChecker, &Stmt) -> Checked<Type>,
    X: Fn(TypeChecker, &Expr, Option<&Type>) -> Checked<Type>,
    W: Fn(&TypeChecker, &FnDef) -> Result<(), String>,
>(
    s: S,
    x: X,
    w: W,
    fns: Seq<FnDef>,
    n: int,
    before: TypeChecker,
    f: Option<String>,
    after: TypeChecker,
    e: Option<String>,
) -> bool {
    match f {
        Some(_) => after == before && e == f,
        None => exists|r: Result<(), String>|
            #[trigger] func_checked(s, x, w, &fns[n - 1], before, after, r) && e == failure_of(r),
    }
}

/// Whether `inner` is `outer` but for the type of `self`, which is the given one.
pub open spec fn impl_entered(outer: TypeChecker, inner: TypeChecker, target: TypeV) -> bool {
    &&& inner == (TypeChecker { current_self_type: inner.current_self_type, ..outer })
    &&& inner.current_self_type.deep_view() == Some(target)
}

/// Whether checking a constant may take the checker from `before` to `after` and give
/// the error `e`.
pub open spec fn const_checked<X: Fn(TypeChecker, &Expr, Option<&Type>) -> Checked<Type>>(
    x: X,
    c: &ConstDef,
    before: TypeChecker,
    after: TypeChecker,
    e: Option<String>,
) -> bool {
    exists|t: Result<Type, String>|
        {
            &&& #[trigger] call_ensures(x, (before, &c.value, None), (after, t))
            &&& match t {
                Err(f) => e == Some(f),
                Ok(ty) => match const_complaint(c.ty.deep_view(), ty.deep_view()) {
                    None => e is None,
                    Some(text) => e matches Some(f) && f@ == text,
                },
            }
        }
}

/// Whether checking a block of methods may take the checker from `before` to `after` and
/// give the error `e`. In the methods, `self` has the type that the block is for; after
/// them it has none.
pub open spec fn impl_checked<
    S: Fn(TypeChecker, &Stmt) -> Checked<Type>,
    X: Fn(TypeChecker, &Expr, Option<&Type>) -> Checked<Type>,
    W: Fn(&TypeChecker, &FnDef) -> Result<(), String>,
>(
    s: S,
    x: X,
    w: W,
    imp: &ImplementDef,
    before: TypeChecker,
    after: TypeChecker,
    e: Option<String>,
) -> bool {
    exists|inner: TypeChecker, done: TypeChecker|
        {
            &&& impl_entered(before, inner, imp.target_type.deep_view())
            &&& #[trigger] fns_checked(
                s,
                x,
                w,
                imp.functions@,
                imp.functions@.len() as int,
                inner,
                done,
                e,
            )
            &&& after == (if e is None {
                TypeChecker { current_self_type: None, ..done }
            } else {
                done
            })
        }
}

/// Whether checking an item may take the checker from `before` to `after` and give the
/// error `e`.
pub open spec fn item_checked<
    S: Fn(TypeChecker, &Stmt) -> Checked<Type>,
    X: Fn(TypeChecker, &Expr, Option<&Type>) -> Checked<Type>,
    W: Fn(&TypeChecker, &FnDef) -> Result<(), String>,
    M: Fn(TypeChecker, &ModelDef) -> Checked<()>,
>(
    s: S,
    x: X,
    w: W,
    m: M,
    item: &Item,
    before: TypeChecker,
    after: TypeChecker,
    e: Option<String>,
) -> bool {
    match item {
        Item::FnDef(f) => exists|r: Result<(), String>|
            #[trigger] func_checked(s, x, w, f, before, after, r) && e == failure_of(r),
        Item::ConstDef(c) => const_checked(x, c, before, after, e),
        Item::ModelDef(d) => exists|r: Result<(), String>|
            #[trigger] call_ensures(m, (before, d), (after, r)) && e == failure_of(r),
        Item::Implement(imp) => impl_checked(s, x, w, imp, before, after, e),
        _ => after == before && e is None,
    }
}

/// Whether checking the first `n` items in order may take the checker from `before` to
/// `after` and give the error `e`: the first ends it.
pub open spec fn items_checked<
    S: Fn(TypeChecker, &Stmt) -> Checked<Type>,
    X: Fn(TypeChecker, &Expr, Option<&Type>) -> Checked<Type>,
    W: Fn(&TypeChecker, &FnDef) -> Result<(), String>,
    M: Fn(TypeChecker, &ModelDef) -> Checked<()>,
>(
    s: S,
    x: X,
    w: W,
    m: M,
    items: Seq<Item>,
    n: int,
    before: TypeChecker,
    after: TypeChecker,
    e: Option<String>,
) -> bool
    decreases n,
{
    if n <= 0 {
        after == before && e is None
    } else {
        exists|c: TypeChecker, f: Option<String>|
            {
                &&& items_checked(s, x, w, m, items, n - 1, before, c, f)
                &&& #[trigger] next_checked(s, x, w, m, items, n, c, f, after, e)
            }
    }
}

/// Whether item `n`, after the error `f` or none, may take the checker from `before` to
/// `after` and give the error `e`.
pub open spec fn next_checked<
    S: Fn(TypeChecker, &Stmt) -> Checked<Type>,
    X: Fn(TypeChecker, &Expr, Option<&Type>) -> Checked<Type>,
    W: Fn(&TypeChecker, &FnDef) -> Result<(), String>,
    M: Fn(TypeChecker, &ModelDef) -> Checked<()>,
>(
    s: S,
    x: X,
    w: W,
    m: M,
    items: Seq<Item>,
    n: int,
    before: TypeChecker,
    f: Option<String>,
    after: TypeChecker,
    e: Option<String>,
) -> bool {
    match f {
        Some(_) => after == before && e == f,
        None => item_checked(s, x, w, m, &items[n - 1], before, after, e),
    }
}

/// Whether the types that bodies may have can be held against the declared return types
/// of an item.
pub open spec fn item_fits<
    S: Fn(TypeChecker, &Stmt) -> Checked<Type>,
    X: Fn(TypeChecker, &Expr, Option<&Type>) -> Checked<Type>,
>(s: S, x: X, item: Item) -> bool {
    match item {
        Item::FnDef(f) => fn_fits(s, x, f),
        Item::Implement(imp) => forall|i: int|
            0 <= i < imp.functions@.len() ==> fn_fits(s, x, #[trigger] imp.functions@[i]),
        _ => true,
    }
}

/// Whether the types that bodies may have can be held against the declared return type
/// of a function.
pub open spec fn fn_fits<
    S: Fn(TypeChecker, &Stmt) -> Checked<Type>,
    X: Fn(TypeChecker, &Expr, Option<&Type>) -> Checked<Type>,
>(s: S, x: X, f: FnDef) -> bool {
    exprs_fit(x, f.return_type.deep_view()) && stmts_fit(s, f.return_type.deep_view())
}

/// Whether a supplied check of models can be made of every model.
pub open spec fn checks_models<M: Fn(TypeChecker, &ModelDef) -> Checked<()>>(m: M) -> bool {
    forall|c: TypeChecker, d: &ModelDef| #[trigger] call_requires(m, (c, d))
}

/// Whether a program can always be built from its items and the types of expressions.
pub open spec fn builds<H, B: Fn(&Vec<Item>, &Table<usize, Type>) -> Result<H, String>>(
    b: B,
) -> bool {
    forall|items: &Vec<Item>, types: &Table<usize, Type>| #[trigger]
        call_requires(b, (items, types))
}

impl TypeChecker {
    /// Makes a supplied check of a model.
    fn ask_model<M: Copy + Fn(TypeChecker, &ModelDef) -> Checked<()>>(
        &mut self,
        m: M,
        d: &ModelDef,
    ) -> (r: Result<(), String>)
        requires
            checks_models(m),
        ensures
            call_ensures(m, (*old(self), d), (*final(self), r)),
    {
        let mut c = TypeChecker::new();
        std::mem::swap(self, &mut c);
        let (after, r) = m(c, d);
        *self = after;
        r
    }

    /// Notes what an item declares.
    pub fn collect_item<M: Copy + Fn(TypeChecker, &ModelDef) -> Checked<()>>(
        &mut self,
        item: &Item,
        collect_model: M,
    ) -> (r: Result<(), String>)
        requires
            checks_models(collect_model),
        ensures
            item_collected(collect_model, item, *old(self), *final(self), failure_of(r)),
    {
        match item {
            Item::FnDef(f) => {
                self.functions.insert(f.name.clone(), f.clone());
            },
            Item::StructDef(s) => {
                self.structs.insert(s.name.clone(), s.clone());
            },
            Item::EnumDef(e) => {
                self.enums.insert(e.name.clone(), e.clone());
            },
            Item::ConstDef(c) => {
                self.consts.insert(c.name.clone(), c.ty.clone());
            },
            Item::ModelDef(d) => {
                return self.ask_model(collect_model, d);
            },
            Item::Implement(imp) => {
                return self.register_impl(imp);
            },
            _ => {},
        }
        Ok(())
    }

    /// Checks the value of a constant against its declared type.
    fn check_const<X: Copy + Fn(TypeChecker, &Expr, Option<&Type>) -> Checked<Type>>(
        &mut self,
        c: &ConstDef,
        check_expr: X,
    ) -> (r: Result<(), String>)
        requires
            checks_exprs(check_expr),
        ensures
            const_checked(check_expr, c, *old(self), *final(self), failure_of(r)),
    {
        let value = match self.ask_expr(check_expr, &c.value, None) {
            Ok(t) => t,
            Err(e) => {
                return Err(e);
            },
        };
        if self.types_equal(&value, &c.ty) {
            Ok(())
        } else {
            let mut s = cat3(
                "const type mismatch: expected ",
                show_type(&c.ty).as_str(),
                ", got ",
            );
            s.append(show_type(&value).as_str());
            Err(s)
        }
    }

    /// Checks the methods of a block.
    fn check_impl<
        S: Copy + Fn(TypeChecker, &Stmt) -> Checked<Type>,
        X: Copy + Fn(TypeChecker, &Expr, Option<&Type>) -> Checked<Type>,
        W: Copy + Fn(&TypeChecker, &FnDef) -> Result<(), String>,
    >(
        &mut self,
        imp: &ImplementDef,
        check_stmt: S,
        check_expr: X,
        check_forward: W,
    ) -> (r: Result<(), String>)
        requires
            checks_stmts(check_stmt),
            checks_exprs(check_expr),
            checks_forward(check_forward),
            item_fits(check_stmt, check_expr, Item::Implement(*imp)),
        ensures
            impl_checked(
                check_stmt,
                check_expr,
                check_forward,
                imp,
                *old(self),
                *final(self),
                failure_of(r),
            ),
    {
        self.current_self_type = Some(imp.target_type.clone());
        let ghost inner = *self;
        assert(impl_entered(*old(self), inner, imp.target_type.deep_view()));
        let ghost fns = imp.functions@;
        let ghost n = fns.len() as int;
        let mut i: usize = 0;
        while i < imp.functions.len()
            invariant
                i <= imp.functions.len(),
                fns == imp.functions@,
                n == fns.len(),
                checks_stmts(check_stmt),
                checks_exprs(check_expr),
                checks_forward(check_forward),
                item_fits(check_stmt, check_expr, Item::Implement(*imp)),
                impl_entered(*old(self), inner, imp.target_type.deep_view()),
                fns_checked(
                    check_stmt,
                    check_expr,
                    check_forward,
                    fns,
                    i as int,
                    inner,
                    *self,
                    None,
                ),
            decreases imp.functions.len() - i,
        {
            let ghost c = *self;
            assert(fn_fits(check_stmt, check_expr, fns[i as int]));
            let r = self.check_func(&imp.functions[i], check_stmt, check_expr, check_forward);
            let ghost e = failure_of(r);
            proof {
                assert(func_checked(
                    check_stmt,
                    check_expr,
                    check_forward,
                    &fns[(i + 1) - 1],
                    c,
                    *self,
                    r,
                ));
                assert(next_fn_checked(
                    check_stmt,
                    check_expr,
                    check_forward,
                    fns,
                    i + 1,
                    c,
                    None,
                    *self,
                    e,
                ));
                assert(fns_checked(
                    check_stmt,
                    check_expr,
                    check_forward,
                    fns,
                    i + 1,
                    inner,
                    *self,
                    e,
                ));
            }
            if r.is_err() {
                proof {
                    lemma_fns_stopped(
                        check_stmt,
                        check_expr,
                        check_forward,
                        fns,
                        i + 1,
                        n,
                        inner,
                        *self,
                        e,
                    );
                }
                return r;
            }
            i = i + 1;
        }
        let ghost done = *self;
        self.current_self_type = None;
        assert(fns_checked(check_stmt, check_expr, check_forward, fns, n, inner, done, None));
        Ok(())
    }

    /// Checks an item.
    pub fn check_item<
        S: Copy + Fn(TypeChecker, &Stmt) -> Checked<Type>,
        X: Copy + Fn(TypeChecker, &Expr, Option<&Type>) -> Checked<Type>,
        W: Copy + Fn(&TypeChecker, &FnDef) -> Result<(), String>,
        M: Copy + Fn(TypeChecker, &ModelDef) -> Checked<()>,
    >(
        &mut self,
        item: &Item,
        check_stmt: S,
        check_expr: X,
        check_forward: W,
        check_model: M,
    ) -> (r: Result<(), String>)
        requires
            checks_stmts(check_stmt),
            checks_exprs(check_expr),
            checks_forward(check_forward),
            checks_models(check_model),
            item_fits(check_stmt, check_expr, *item),
        ensures
            item_checked(
                check_stmt,
                check_expr,
                check_forward,
                check_model,
                item,
                *old(self),
                *final(self),
                failure_of(r),
            ),
    {
        match item {
            Item::FnDef(f) => self.check_func(f, check_stmt, check_expr, check_forward),
            Item::ConstDef(c) => self.check_const(c, check_expr),
            Item::ModelDef(d) => self.ask_model(check_model, d),
            Item::Implement(imp) => self.check_impl(imp, check_stmt, check_expr, check_forward),
            _ => Ok(()),
        }
    }

    /// Checks a program, and builds what follows from it: all items are collected before
    /// any is checked.
    pub fn check_program<
        S: Copy + Fn(TypeChecker, &Stmt) -> Checked<Type>,
        X: Copy + Fn(TypeChecker, &Expr, Option<&Type>) -> Checked<Type>,
        W: Copy + Fn(&TypeChecker, &FnDef) -> Result<(), String>,
        C: Copy + Fn(TypeChecker, &ModelDef) -> Checked<()>,
        M: Copy + Fn(TypeChecker, &ModelDef) -> Checked<()>,
        H,
        B: Copy + Fn(&Vec<Item>, &Table<usize, Type>) -> Result<H, String>,
    >(
        &mut self,
        items: &Vec<Item>,
        check_stmt: S,
        check_expr: X,
        check_forward: W,
        collect_model: C,
        check_model: M,
        build: B,
    ) -> (r: Result<H, String>)
        requires
            checks_stmts(check_stmt),
            checks_exprs(check_expr),
            checks_forward(check_forward),
            checks_models(collect_model),
            checks_models(check_model),
            builds(build),
            forall|i: int| 0 <= i < items.len() ==> item_fits(
                check_stmt,
                check_expr,
                #[trigger] items@[i],
            ),
        ensures
            program_checked(
                check_stmt,
                check_expr,
                check_forward,
                collect_model,
                check_model,
                build,
                items,
                *old(self),
                *final(self),
                r,
            ),
    {
        let ghost n = items.len() as int;
        let mut i: usize = 0;
        while i < items.len()
            invariant
                i <= items.len(),
                n == items.len(),
                checks_models(collect_model),
                items_collected(collect_model, items@, i as int, *old(self), *self, None),
            decreases items.len() - i,
        {
            let ghost c = *self;
            let r = self.collect_item(&items[i], collect_model);
            let ghost e = failure_of(r);
            proof {
                assert(next_collected(collect_model, items@, i + 1, c, None, *self, e));
                assert(items_collected(collect_model, items@, i + 1, *old(self), *self, e));
            }
            if let Err(text) = r {
                proof {
                    lemma_collecting_stopped(
                        collect_model,
                        items@,
                        i + 1,
                        n,
                        *old(self),
                        *self,
                        e,
                    );
                }
                return Err(text);
            }
            i = i + 1;
        }
        let ghost mid = *self;
        i = 0;
        while i < items.len()
            invariant
                i <= items.len(),
                n == items.len(),
                checks_stmts(check_stmt),
                checks_exprs(check_expr),
                checks_forward(check_forward),
                checks_models(check_model),
                forall|i: int| 0 <= i < items.len() ==> item_fits(
                check_stmt,
                check_expr,
                #[trigger] items@[i],
            ),
                items_collected(collect_model, items@, n, *old(self), mid, None),
                items_checked(
                    check_stmt,
                    check_expr,
                    check_forward,
                    check_model,
                    items@,
                    i as int,
                    mid,
                    *self,
                    None,
                ),
            decreases items.len() - i,
        {
            let ghost c = *self;
            let r = self.check_item(
                &items[i],
                check_stmt,
                check_expr,
                check_forward,
                check_model,
            );
            let ghost e = failure_of(r);
            proof {
                assert(next_checked(
                    check_stmt,
                    check_expr,
                    check_forward,
                    check_model,
                    items@,
                    i + 1,
                    c,
                    None,
                    *self,
                    e,
                ));
                assert(items_checked(
                    check_stmt,
                    check_expr,
                    check_forward,
                    check_model,
                    items@,
                    i + 1,
                    mid,
                    *self,
                    e,
                ));
            }
            if let Err(text) = r {
                proof {
                    lemma_checking_stopped(
                        check_stmt,
                        check_expr,
                        check_forward,
                        check_model,
                        items@,
                        i + 1,
                        n,
                        mid,
                        *self,
                        e,
                    );
                }
                return Err(text);
            }
            i = i + 1;
        }
        build(items, &self.expr_types)
    }
}

/// Whether checking a program may take the checker from `before` to `after` and give
/// `r`: all items are collected, then all are checked, then the result is built from the
/// types of the expressions. The first error ends it.
pub open spec fn program_checked<
    S: Fn(TypeChecker, &Stmt) -> Checked<Type>,
    X: Fn(TypeChecker, &Expr, Option<&Type>) -> Checked<Type>,
    W: Fn(&TypeChecker, &FnDef) -> Result<(), String>,
    C: Fn(TypeChecker, &ModelDef) -> Checked<()>,
    M: Fn(TypeChecker, &ModelDef) -> Checked<()>,
    H,
    B: Fn(&Vec<Item>, &Table<usize, Type>) -> Result<H, String>,
>(
    s: S,
    x: X,
    w: W,
    collect: C,
    m: M,
    build: B,
    items: &Vec<Item>,
    before: TypeChecker,
    after: TypeChecker,
    r: Result<H, String>,
) -> bool {
    let n = items@.len() as int;
    exists|mid: TypeChecker, e: Option<String>|
        {
            &&& #[trigger] items_collected(collect, items@, n, before, mid, e)
            &&& match e {
                Some(text) => after == mid && r == Err::<H, String>(text),
                None => exists|f: Option<String>|
                    {
                        &&& #[trigger] items_checked(s, x, w, m, items@, n, mid, after, f)
                        &&& match f {
                            Some(text) => r == Err::<H, String>(text),
                            None => call_ensures(build, (items, &after.expr_types), r),
                        }
                    },
            }
        }
}

/// When the first body is checked, every declaration of the program is known: once items
/// without models are collected, each function, struct, enum and constant is found under
/// its name.
pub proof fn lemma_declarations_known<M: Fn(TypeChecker, &ModelDef) -> Checked<()>>(
    m: M,
    items: Seq<Item>,
    n: int,
    before: TypeChecker,
    after: TypeChecker,
    i: int,
)
    requires
        0 <= i < n <= items.len(),
        forall|j: int| 0 <= j < items.len() ==> !((#[trigger] items[j]) is ModelDef),
        items_collected(m, items, n, before, after, None),
    ensures
        declared_in(after, items[i]),
    decreases n,
{
    let (c, f) = choose|c: TypeChecker, f: Option<String>|
        {
            &&& items_collected(m, items, n - 1, before, c, f)
            &&& #[trigger] next_collected(m, items, n, c, f, after, None)
        };
    assert(!(items[n - 1] is ModelDef));
    assert(item_collected(m, &items[n - 1], c, after, None));
    if i < n - 1 {
        lemma_declarations_known(m, items, n - 1, before, c, i);
    }
}

/// Whether what an item declares is found under its name.
pub open spec fn declared_in(c: TypeChecker, item: Item) -> bool {
    match item {
        Item::FnDef(f) => c.functions.deep_view().contains_key(f.name@),
        Item::StructDef(s) => c.structs.deep_view().contains_key(s.name@),
        Item::EnumDef(e) => c.enums.deep_view().contains_key(e.name@),
        Item::ConstDef(d) => c.consts.deep_view().contains_key(d.name@),
        _ => true,
    }
}

proof fn lemma_collecting_stopped<M: Fn(TypeChecker, &ModelDef) -> Checked<()>>(
    m: M,
    items: Seq<Item>,
    k: int,
    n: int,
    before: TypeChecker,
    after: TypeChecker,
    e: Option<String>,
)
    requires
        items_collected(m, items, k, before, after, e),
        e is Some,
        0 <= k <= n,
    ensures
        items_collected(m, items, n, before, after, e),
    decreases n - k,
{
    if k < n {
        assert(next_collected(m, items, k + 1, after, e, after, e));
        assert(items_collected(m, items, k + 1, before, after, e));
        lemma_collecting_stopped(m, items, k + 1, n, before, after, e);
    }
}

proof fn lemma_fns_stopped<
    S: Fn(TypeChecker, &Stmt) -> Checked<Type>,
    X: Fn(TypeChecker, &Expr, Option<&Type>) -> Checked<Type>,
    W: Fn(&TypeChecker, &FnDef) -> Result<(), String>,
>(
    s: S,
    x: X,
    w: W,
    fns: Seq<FnDef>,
    k: int,
    n: int,
    before: TypeChecker,
    after: TypeChecker,
    e: Option<String>,
)
    requires
        fns_checked(s, x, w, fns, k, before, after, e),
        e is Some,
        0 <= k <= n,
    ensures
        fns_checked(s, x, w, fns, n, before, after, e),
    decreases n - k,
{
    if k < n {
        assert(next_fn_checked(s, x, w, fns, k + 1, after, e, after, e));
        assert(fns_checked(s, x, w, fns, k + 1, before, after, e));
        lemma_fns_stopped(s, x, w, fns, k + 1, n, before, after, e);
    }
}

proof fn lemma_checking_stopped<
    S: Fn(TypeChecker, &Stmt) -> Checked<Type>,
    X: Fn(TypeChecker, &Expr, Option<&Type>) -> Checked<Type>,
    W: Fn(&TypeChecker, &FnDef) -> Result<(), String>,
    M: Fn(TypeChecker, &ModelDef) -> Checked<()>,
>(
    s: S,
    x: X,
    w: W,
    m: M,
    items: Seq<Item>,
    k: int,
    n: int,
    before: TypeChecker,
    after: TypeChecker,
    e: Option<String>,
)
    requires
        items_checked(s, x, w, m, items, k, before, after, e),
        e is Some,
        0 <= k <= n,
    ensures
        items_checked(s, x, w, m, items, n, before, after, e),
    decreases n - k,
{
    if k < n {
        assert(next_checked(s, x, w, m, items, k + 1, after, e, after, e));
        assert(items_checked(s, x, w, m, items, k + 1, before, after, e));
        lemma_checking_stopped(s, x, w, m, items, k + 1, n, before, after, e);
    }
}

} // verus!
