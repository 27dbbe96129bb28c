//! Methods: registering them, finding them and checking calls of them.

use vstd::prelude::*;

use crate::ast::Type;
use crate::ast::TypeV;
use crate::const_eval::told;
use crate::debug::show_type;
use crate::debug::type_debug;
use crate::expr::{CallArg, Expr, FnDef, ImplementDef, Param};
use crate::expr::ParamV;
use crate::intrinsic_check::{bytes_type, stripped};
use crate::semantic::given::{checks_exprs, Checked};
use crate::semantic::helpers::arg_of;
use crate::semantic::{MethodInfo, TypeChecker};
use crate::semantic::MethodInfoV;
use crate::semantic::check_type::{is_float, is_signed_integer, referent};
use crate::table::Table;
use crate::text::{cat, cat3, str_eq, usize_to_string};
use crate::text::decimal;

verus! {

/// The name under which the methods of a type are kept, if it can have any.
pub open spec fn impl_key(t: TypeV) -> Option<Seq<char>> {
    match t {
        TypeV::Struct(n) => Some(n),
        TypeV::Enum(n) => Some(n),
        TypeV::Generic(n, _) => Some(n),
        _ => None,
    }
}

/// What is kept of a method of a block for `target`.
pub open spec fn method_of(f: FnDef, target: TypeV) -> MethodInfoV {
    MethodInfoV { fn_def: f.deep_view(), target_type: target }
}

/// The methods of a type after those of a block are added in order, up to the first
/// whose name is taken, and that name.
pub open spec fn methods_added(
    known: Map<Seq<char>, MethodInfoV>,
    fns: Seq<FnDef>,
    target: TypeV,
) -> (Map<Seq<char>, MethodInfoV>, Option<Seq<char>>)
    decreases fns.len(),
{
    if fns.len() == 0 {
        (known, None)
    } else if known.contains_key(fns[0].name@) {
        (known, Some(fns[0].name@))
    } else {
        methods_added(
            known.insert(fns[0].name@, method_of(fns[0], target)),
            fns.drop_first(),
            target,
        )
    }
}

/// The methods that are known of a type.
pub open spec fn methods_known(
    methods: Map<Seq<char>, Map<Seq<char>, MethodInfoV>>,
    key: Seq<char>,
) -> Map<Seq<char>, MethodInfoV> {
    if methods.contains_key(key) {
        methods[key]
    } else {
        Map::empty()
    }
}

/// The complaint that a method has two implementations.
pub open spec fn conflict_message(name: Seq<char>, key: Seq<char>) -> Seq<char> {
    "error[IMP001]: conflicting implementations of method `"@ + name + "` for type `"@ + key
        + "`"@
}

/// The return type of a method that a primitive type has by itself.
pub open spec fn builtin_method(receiver: TypeV, method: Seq<char>) -> Option<TypeV> {
    if receiver is Str && method == "len"@ {
        Some(TypeV::U64)
    } else if receiver is Str && method == "is_empty"@ {
        Some(TypeV::Bool)
    } else if receiver is Str && method == "as_bytes"@ {
        Some(bytes_type())
    } else if method == "abs"@ && (is_signed_integer(receiver) || is_float(receiver)) {
        Some(receiver)
    } else {
        None
    }
}

/// What a method call calls.
#[derive(Debug)]
pub enum MethodTarget {
    /// A method that the receiver's type has by itself, with its return type.
    Builtin(Type),
    /// A registered method.
    Method(MethodInfo),
    /// Nothing that is known.
    Unknown,
}

/// Model of a `MethodTarget`.
pub enum MethodTargetV {
    Builtin(TypeV),
    Method(MethodInfoV),
    Unknown,
}

impl DeepView for MethodTarget {
    type V = MethodTargetV;

    open spec fn deep_view(&self) -> MethodTargetV {
        match *self {
            MethodTarget::Builtin(t) => MethodTargetV::Builtin(t.deep_view()),
            MethodTarget::Method(m) => MethodTargetV::Method(m.deep_view()),
            MethodTarget::Unknown => MethodTargetV::Unknown,
        }
    }
}

/// What a call of `func` on a receiver of the given type calls.
pub open spec fn target_of(
    methods: Map<Seq<char>, Map<Seq<char>, MethodInfoV>>,
    receiver: TypeV,
    func: Seq<char>,
) -> MethodTargetV {
    let plain = stripped(receiver);
    match builtin_method(referent(plain), func) {
        Some(t) => MethodTargetV::Builtin(t),
        None => match impl_key(plain) {
            Some(key) => if methods_known(methods, key).contains_key(func) {
                MethodTargetV::Method(methods_known(methods, key)[func])
            } else {
                MethodTargetV::Unknown
            },
            None => MethodTargetV::Unknown,
        },
    }
}

/// The parameters that take arguments: all but `self`.
pub open spec fn value_params(params: Seq<ParamV>) -> Seq<ParamV>
    decreases params.len(),
{
    if params.len() == 0 {
        Seq::empty()
    } else {
        let front = value_params(params.drop_last());
        if params.last().name != "self"@ {
            front.push(params.last())
        } else {
            front
        }
    }
}

/// The complaint that an argument does not fit its parameter.
pub open spec fn mismatch_message(callee: Seq<char>, p: ParamV, got: TypeV) -> Seq<char> {
    "type mismatch in call to `"@ + callee + "`: parameter `"@ + p.name + "` expected "@
        + type_debug(p.ty) + ", got "@ + type_debug(got)
}

/// The complaint that a receiver is not of the type that a method's block is for.
pub open spec fn receiver_message(receiver: TypeV, target: TypeV, func: Seq<char>) -> Seq<char> {
    "receiver type "@ + type_debug(receiver) + " does not match implement target "@ + type_debug(
        target,
    ) + " for method `"@ + func + "`"@
}

/// The complaint about the number of arguments.
pub open spec fn count_message(what: Seq<char>, params: nat, args: nat) -> Seq<char> {
    what + "` expects "@ + decimal(params) + " argument(s), got "@ + decimal(args)
}

/// Whether checking `n` arguments from `start` on, in order, may take the checker from
/// `before` to `after` and give the complaint `q`: the first error ends it.
pub open spec fn args_checked<X: Fn(TypeChecker, &Expr, Option<&Type>) -> Checked<Type>>(
    x: X,
    args: Seq<CallArg>,
    start: int,
    n: int,
    before: TypeChecker,
    after: TypeChecker,
    q: Option<Seq<char>>,
) -> bool
    decreases n,
{
    if n <= 0 {
        after == before && q is None
    } else {
        exists|c: TypeChecker, e: Option<Seq<char>>|
            {
                &&& args_checked(x, args, start, n - 1, before, c, e)
                &&& #[trigger] arg_next(x, args, start, n, c, e, after, q)
            }
    }
}

/// Whether argument `n` from `start` on, after a complaint `e` or none, may take the
/// checker from `before` to `after` and give the complaint `q`.
pub open spec fn arg_next<X: Fn(TypeChecker, &Expr, Option<&Type>) -> Checked<Type>>(
    x: X,
    args: Seq<CallArg>,
    start: int,
    n: int,
    before: TypeChecker,
    e: Option<Seq<char>>,
    after: TypeChecker,
    q: Option<Seq<char>>,
) -> bool {
    match e {
        Some(_) => after == before && q == e,
        None => arg_checked(x, &args[start + n - 1], before, after, q),
    }
}

/// Whether checking an argument may take the checker from `before` to `after` and give
/// the complaint `q`.
pub open spec fn arg_checked<X: Fn(TypeChecker, &Expr, Option<&Type>) -> Checked<Type>>(
    x: X,
    arg: &CallArg,
    before: TypeChecker,
    after: TypeChecker,
    q: Option<Seq<char>>,
) -> bool {
    exists|t: Result<Type, String>|
        {
            &&& #[trigger] call_ensures(x, (before, arg_of(arg), None), (after, t))
            &&& q == failure(t)
        }
}

/// The error that a check gave, if it gave one.
pub open spec fn failure(t: Result<Type, String>) -> Option<Seq<char>> {
    match t {
        Ok(_) => None,
        Err(e) => Some(e@),
    }
}

/// Whether checking an argument and holding it against a parameter may take the checker
/// from `before` to `after` and the bindings from `b` to `b2`, and give the complaint
/// `q`.
pub open spec fn arg_held<
    X: Fn(TypeChecker, &Expr, Option<&Type>) -> Checked<Type>,
    U: Fn(&TypeChecker, &Type, &Type, Table<String, Type>) -> (Table<String, Type>, bool),
>(
    x: X,
    u: U,
    callee: Seq<char>,
    param: Param,
    arg: &CallArg,
    before: TypeChecker,
    b: Table<String, Type>,
    after: TypeChecker,
    b2: Table<String, Type>,
    q: Option<Seq<char>>,
) -> bool {
    exists|t: Result<Type, String>|
        {
            &&& #[trigger] call_ensures(x, (before, arg_of(arg), None), (after, t))
            &&& match t {
                Err(e) => b2 == b && q == Some(e@),
                Ok(ty) => exists|ok: bool|
                    {
                        &&& #[trigger] call_ensures(u, (&after, &ty, &param.ty, b), (b2, ok))
                        &&& q == (if ok {
                            None
                        } else {
                            Some(mismatch_message(callee, param.deep_view(), ty.deep_view()))
                        })
                    },
            }
        }
}

/// Whether checking `n` arguments from `start` on, in order, and holding each against
/// its parameter may take the checker from `before` to `after` and the bindings from `b`
/// to `b2`, and give the complaint `q`: the first ends it.
pub open spec fn args_held<
    X: Fn(TypeChecker, &Expr, Option<&Type>) -> Checked<Type>,
    U: Fn(&TypeChecker, &Type, &Type, Table<String, Type>) -> (Table<String, Type>, bool),
>(
    x: X,
    u: U,
    callee: Seq<char>,
    params: Seq<Param>,
    args: Seq<CallArg>,
    start: int,
    n: int,
    before: TypeChecker,
    b: Table<String, Type>,
    after: TypeChecker,
    b2: Table<String, Type>,
    q: Option<Seq<char>>,
) -> bool
    decreases n,
{
    if n <= 0 {
        after == before && b2 == b && q is None
    } else {
        exists|c: TypeChecker, d: Table<String, Type>, e: Option<Seq<char>>|
            {
                &&& args_held(x, u, callee, params, args, start, n - 1, before, b, c, d, e)
                &&& #[trigger] held_next(
                    x,
                    u,
                    callee,
                    params,
                    args,
                    start,
                    n,
                    c,
                    d,
                    e,
                    after,
                    b2,
                    q,
                )
            }
    }
}

/// Whether argument `n` from `start` on and its parameter, after a complaint `e` or none,
/// may take the checker from `before` to `after` and the bindings from `b` to `b2`, and
/// give the complaint `q`.
pub open spec fn held_next<
    X: Fn(TypeChecker, &Expr, Option<&Type>) -> Checked<Type>,
    U: Fn(&TypeChecker, &Type, &Type, Table<String, Type>) -> (Table<String, Type>, bool),
>(
    x: X,
    u: U,
    callee: Seq<char>,
    params: Seq<Param>,
    args: Seq<CallArg>,
    start: int,
    n: int,
    before: TypeChecker,
    b: Table<String, Type>,
    e: Option<Seq<char>>,
    after: TypeChecker,
    b2: Table<String, Type>,
    q: Option<Seq<char>>,
) -> bool {
    match e {
        Some(_) => after == before && b2 == b && q == e,
        None => arg_held(
            x,
            u,
            callee,
            params[n - 1],
            &args[start + n - 1],
            before,
            b,
            after,
            b2,
            q,
        ),
    }
}

/// Whether a call of a method whose parameters were bound as in `b` may have the type
/// that `r` gives: the declared return type with the type parameters replaced, or the
/// unit type where none is declared.
pub open spec fn result_typed<R: Fn(&TypeChecker, &Type, &Table<String, Type>) -> Type>(
    s: R,
    info: MethodInfoV,
    c: TypeChecker,
    b: Table<String, Type>,
    r: Result<Type, String>,
) -> bool {
    match info.fn_def.return_type {
        None => told(r) == Ok::<TypeV, Seq<char>>(TypeV::Unit),
        Some(declared) => r matches Ok(t) && exists|ret: Type|
            {
                &&& ret.deep_view() == declared
                &&& #[trigger] call_ensures(s, (&c, &ret, &b), t)
            },
    }
}

/// Whether the arguments from `start` on of a call of a method, with the parameters
/// bound as in `b`, may take the checker from `before` to `after` and give `r`. `what`
/// is how a complaint about their number begins.
pub open spec fn params_filled<
    X: Fn(TypeChecker, &Expr, Option<&Type>) -> Checked<Type>,
    U: Fn(&TypeChecker, &Type, &Type, Table<String, Type>) -> (Table<String, Type>, bool),
    R: Fn(&TypeChecker, &Type, &Table<String, Type>) -> Type,
>(
    x: X,
    u: U,
    s: R,
    info: MethodInfoV,
    callee: Seq<char>,
    what: Seq<char>,
    args: Seq<CallArg>,
    start: int,
    before: TypeChecker,
    b: Table<String, Type>,
    after: TypeChecker,
    r: Result<Type, String>,
) -> bool {
    let want = value_params(info.fn_def.params);
    if want.len() != args.len() - start {
        &&& r matches Err(e) && e@ == count_message(what, want.len(), (args.len() - start) as nat)
        &&& after == before
    } else {
        exists|params: Vec<Param>, b2: Table<String, Type>, q: Option<Seq<char>>|
            {
                &&& params.deep_view() == want
                &&& #[trigger] args_held(
                    x,
                    u,
                    callee,
                    params@,
                    args,
                    start,
                    want.len() as int,
                    before,
                    b,
                    after,
                    b2,
                    q,
                )
                &&& match q {
                    Some(c) => r matches Err(e) && e@ == c,
                    None => result_typed(s, info, after, b2, r),
                }
            }
    }
}

/// Whether a call of a registered method on a receiver of the given type may take the
/// checker from `before` to `after` and give `r`: the receiver is unified with the type
/// that the method's block is for, then each argument with its parameter.
pub open spec fn registered_call<
    X: Fn(TypeChecker, &Expr, Option<&Type>) -> Checked<Type>,
    U: Fn(&TypeChecker, &Type, &Type, Table<String, Type>) -> (Table<String, Type>, bool),
    R: Fn(&TypeChecker, &Type, &Table<String, Type>) -> Type,
>(
    x: X,
    u: U,
    s: R,
    info: MethodInfoV,
    func: Seq<char>,
    receiver: TypeV,
    args: Seq<CallArg>,
    before: TypeChecker,
    after: TypeChecker,
    r: Result<Type, String>,
) -> bool {
    exists|
        plain: Type,
        target: Type,
        none: Table<String, Type>,
        b: Table<String, Type>,
        ok: bool,
    |
        {
            &&& plain.deep_view() == stripped(receiver)
            &&& target.deep_view() == info.target_type
            &&& none.deep_view() == Map::<Seq<char>, TypeV>::empty()
            &&& #[trigger] call_ensures(u, (&before, &plain, &target, none), (b, ok))
            &&& if ok {
                params_filled(
                    x,
                    u,
                    s,
                    info,
                    func,
                    "method `"@ + func,
                    args,
                    1,
                    before,
                    b,
                    after,
                    r,
                )
            } else {
                &&& r matches Err(e) && e@ == receiver_message(receiver, info.target_type, func)
                &&& after == before
            }
        }
}

/// Whether a method call may take the checker from `before` to `after` and give `r`. The
/// first argument is the receiver; its type decides what is called. Where that is not
/// known, the arguments are checked all the same and the type is `i32`.
pub open spec fn method_call<
    X: Fn(TypeChecker, &Expr, Option<&Type>) -> Checked<Type>,
    U: Fn(&TypeChecker, &Type, &Type, Table<String, Type>) -> (Table<String, Type>, bool),
    R: Fn(&TypeChecker, &Type, &Table<String, Type>) -> Type,
>(
    x: X,
    u: U,
    s: R,
    func: Seq<char>,
    args: Seq<CallArg>,
    before: TypeChecker,
    after: TypeChecker,
    r: Result<Type, String>,
) -> bool {
    if args.len() == 0 {
        &&& r matches Err(e) && e@ == "method call requires a receiver"@
        &&& after == before
    } else {
        exists|c: TypeChecker, t: Result<Type, String>|
            {
                &&& #[trigger] call_ensures(x, (before, arg_of(&args[0]), None), (c, t))
                &&& match t {
                    Err(e) => r == Err::<Type, String>(e) && after == c,
                    Ok(ty) => match target_of(c.methods.deep_view(), ty.deep_view(), func) {
                        MethodTargetV::Method(info) => registered_call(
                            x,
                            u,
                            s,
                            info,
                            func,
                            ty.deep_view(),
                            args,
                            c,
                            after,
                            r,
                        ),
                        MethodTargetV::Builtin(ret) => plain_call(x, args, ret, c, after, r),
                        MethodTargetV::Unknown => plain_call(x, args, TypeV::I32, c, after, r),
                    },
                }
            }
    }
}

/// Whether checking the arguments after the receiver may take the checker from `before`
/// to `after` and give `r`, which is `ret` where none is in error.
pub open spec fn plain_call<X: Fn(TypeChecker, &Expr, Option<&Type>) -> Checked<Type>>(
    x: X,
    args: Seq<CallArg>,
    ret: TypeV,
    before: TypeChecker,
    after: TypeChecker,
    r: Result<Type, String>,
) -> bool {
    exists|q: Option<Seq<char>>|
        {
            &&& #[trigger] args_checked(x, args, 1, args.len() - 1, before, after, q)
            &&& told(r) == match q {
                Some(e) => Err(e),
                None => Ok(ret),
            }
        }
}

/// Whether a call `owner::func(..)` may take the checker from `before` to `after` and
/// give `r`. The type that is expected of the call binds what it can of the declared
/// return type first.
pub open spec fn static_call<
    X: Fn(TypeChecker, &Expr, Option<&Type>) -> Checked<Type>,
    U: Fn(&TypeChecker, &Type, &Type, Table<String, Type>) -> (Table<String, Type>, bool),
    R: Fn(&TypeChecker, &Type, &Table<String, Type>) -> Type,
>(
    x: X,
    u: U,
    s: R,
    owner: Seq<char>,
    func: Seq<char>,
    args: Seq<CallArg>,
    expected: Option<&Type>,
    before: TypeChecker,
    after: TypeChecker,
    r: Result<Type, String>,
) -> bool {
    let path = owner + "::"@ + func;
    let known = methods_known(before.methods.deep_view(), owner);
    if !known.contains_key(func) {
        &&& r matches Err(e) && e@ == "undefined function `"@ + path + "`"@
        &&& after == before
    } else {
        exists|b: Table<String, Type>|
            {
                &&& #[trigger] expectation_bound(u, known[func], expected, before, b)
                &&& params_filled(
                    x,
                    u,
                    s,
                    known[func],
                    path,
                    "`"@ + path,
                    args,
                    0,
                    before,
                    b,
                    after,
                    r,
                )
            }
    }
}

/// Whether `b` may be what the type that is expected of a call binds.
pub open spec fn expectation_bound<
    U: Fn(&TypeChecker, &Type, &Type, Table<String, Type>) -> (Table<String, Type>, bool),
>(
    u: U,
    info: MethodInfoV,
    expected: Option<&Type>,
    c: TypeChecker,
    b: Table<String, Type>,
) -> bool {
    match (expected, info.fn_def.return_type) {
        (Some(want), Some(declared)) => exists|none: Table<String, Type>, ret: Type, ok: bool|
            {
                &&& none.deep_view() == Map::<Seq<char>, TypeV>::empty()
                &&& ret.deep_view() == declared
                &&& #[trigger] call_ensures(u, (&c, want, &ret, none), (b, ok))
            },
        _ => b.deep_view() == Map::<Seq<char>, TypeV>::empty(),
    }
}

/// Registering a block keeps every method that was known.
pub proof fn lemma_methods_kept(
    known: Map<Seq<char>, MethodInfoV>,
    fns: Seq<FnDef>,
    target: TypeV,
    name: Seq<char>,
)
    requires
        known.contains_key(name),
    ensures
        methods_added(known, fns, target).0.contains_key(name),
        methods_added(known, fns, target).0[name] == known[name],
    decreases fns.len(),
{
    if fns.len() > 0 && !known.contains_key(fns[0].name@) {
        lemma_methods_kept(
            known.insert(fns[0].name@, method_of(fns[0], target)),
            fns.drop_first(),
            target,
            name,
        );
    }
}

/// Registering a block without a conflict makes each of its methods known, as it
/// is written in the block.
pub proof fn lemma_methods_registered(
    known: Map<Seq<char>, MethodInfoV>,
    fns: Seq<FnDef>,
    target: TypeV,
    i: int,
)
    requires
        methods_added(known, fns, target).1 is None,
        0 <= i < fns.len(),
    ensures
        methods_added(known, fns, target).0.contains_key(fns[i].name@),
        methods_added(known, fns, target).0[fns[i].name@] == method_of(fns[i], target),
        !known.contains_key(fns[i].name@),
    decreases fns.len(),
{
    let next = known.insert(fns[0].name@, method_of(fns[0], target));
    if i == 0 {
        lemma_methods_kept(next, fns.drop_first(), target, fns[0].name@);
    } else {
        lemma_methods_registered(next, fns.drop_first(), target, i - 1);
        assert(fns.drop_first()[i - 1] == fns[i]);
    }
}

/// Registering a block reports a conflict where it defines a name that is known,
/// or one name twice.
pub proof fn lemma_conflict_found(
    known: Map<Seq<char>, MethodInfoV>,
    fns: Seq<FnDef>,
    target: TypeV,
    i: int,
)
    requires
        0 <= i < fns.len(),
        known.contains_key(fns[i].name@) || exists|j: int|
            0 <= j < i && (#[trigger] fns[j]).name@ == fns[i].name@,
    ensures
        methods_added(known, fns, target).1 is Some,
{
    if methods_added(known, fns, target).1 is None {
        lemma_methods_registered(known, fns, target, i);
        let j = choose|j: int| 0 <= j < i && (#[trigger] fns[j]).name@ == fns[i].name@;
        lemma_no_repeats(known, fns, target, j, i);
    }
}

proof fn lemma_no_repeats(
    known: Map<Seq<char>, MethodInfoV>,
    fns: Seq<FnDef>,
    target: TypeV,
    j: int,
    i: int,
)
    requires
        methods_added(known, fns, target).1 is None,
        0 <= j < i < fns.len(),
    ensures
        fns[j].name@ != fns[i].name@,
    decreases fns.len(),
{
    let next = known.insert(fns[0].name@, method_of(fns[0], target));
    let rest = fns.drop_first();
    assert(rest[i - 1] == fns[i]);
    if j == 0 {
        lemma_methods_registered(next, rest, target, i - 1);
    } else {
        assert(rest[j - 1] == fns[j]);
        lemma_no_repeats(next, rest, target, j - 1, i - 1);
    }
}

/// What is kept of a method.
fn method_info(f: &FnDef, target: &Type) -> (r: MethodInfo)
    ensures
        r.deep_view() == method_of(*f, target.deep_view()),
{
    MethodInfo { fn_def: f.clone(), target_type: target.clone() }
}

/// The parameters that take arguments.
fn take_value_params(params: &Vec<Param>) -> (r: Vec<Param>)
    ensures
        r.deep_view() == value_params(params.deep_view()),
{
    let ghost all = params.deep_view();
    let mut r: Vec<Param> = Vec::new();
    let mut i: usize = 0;
    assert(r.deep_view() =~= value_params(all.take(0)));
    while i < params.len()
        invariant
            i <= params.len(),
            all == params.deep_view(),
            r.deep_view() == value_params(all.take(i as int)),
        decreases params.len() - i,
    {
        let ghost before = r.deep_view();
        assert(all.take(i as int + 1).drop_last() =~= all.take(i as int));
        assert(all.take(i as int + 1).last() == params@[i as int].deep_view());
        if !str_eq(params[i].name.as_str(), "self") {
            r.push(params[i].clone());
            assert(r.deep_view() =~= before.push(params@[i as int].deep_view()));
        }
        i = i + 1;
    }
    assert(all.take(i as int) =~= all);
    r
}

/// The complaint that an argument does not fit its parameter.
fn tell_mismatch(callee: &str, p: &Param, got: &Type) -> (r: String)
    ensures
        r@ == mismatch_message(callee@, p.deep_view(), got.deep_view()),
{
    let mut s = cat3("type mismatch in call to `", callee, "`: parameter `");
    s.append(p.name.as_str());
    s.append("` expected ");
    s.append(show_type(&p.ty).as_str());
    s.append(", got ");
    s.append(show_type(got).as_str());
    s
}

/// The complaint about the number of arguments.
fn tell_count(what: &str, params: usize, args: usize) -> (r: String)
    ensures
        r@ == count_message(what@, params as nat, args as nat),
{
    let mut s = cat3(what, "` expects ", usize_to_string(params).as_str());
    s.append(" argument(s), got ");
    s.append(usize_to_string(args).as_str());
    s
}

impl TypeChecker {
    /// The name under which the methods of a type are kept.
    pub fn type_key_for_impl_target(ty: &Type) -> (r: Option<String>)
        ensures
            r.deep_view() == impl_key(ty.deep_view()),
    {
        match ty {
            Type::Struct(name) => Some(name.clone()),
            Type::Enum(name) => Some(name.clone()),
            Type::Generic(name, _) => Some(name.clone()),
            _ => None,
        }
    }

    /// Registers the methods of a block.
    pub fn register_impl(&mut self, imp: &ImplementDef) -> (r: Result<(), String>)
        ensures
            *final(self) == (TypeChecker { methods: final(self).methods, ..*old(self) }),
            match impl_key(imp.target_type.deep_view()) {
                None => r is Ok && final(self).methods.deep_view() == old(self).methods.deep_view(),
                Some(key) => {
                    let (added, conflict) = methods_added(
                        methods_known(old(self).methods.deep_view(), key),
                        imp.functions@,
                        imp.target_type.deep_view(),
                    );
                    &&& final(self).methods.deep_view() == old(self).methods.deep_view().insert(
                        key,
                        added,
                    )
                    &&& match r {
                        Ok(_) => conflict is None,
                        Err(e) => conflict matches Some(n) && e@ == conflict_message(n, key),
                    }
                },
            },
    {
        let key = match Self::type_key_for_impl_target(&imp.target_type) {
            Some(k) => k,
            None => {
                return Ok(());
            },
        };
        let ghost target = imp.target_type.deep_view();
        let ghost before = self.methods.deep_view();
        let mut entry = match self.methods.replace(&key, Table::new()) {
            Some(t) => t,
            None => Table::new(),
        };
        let ghost fns = imp.functions@;
        let ghost start = entry.deep_view();
        assert(start =~= methods_known(before, key@));
        let mut clash: Option<String> = None;
        let mut i: usize = 0;
        assert(fns.skip(0) =~= fns);
        while i < imp.functions.len() && clash.is_none()
            invariant
                i <= imp.functions.len(),
                fns == imp.functions@,
                target == imp.target_type.deep_view(),
                match clash {
                    None => methods_added(start, fns, target) == methods_added(
                        entry.deep_view(),
                        fns.skip(i as int),
                        target,
                    ),
                    Some(n) => methods_added(start, fns, target) == (
                        entry.deep_view(),
                        Some(n@),
                    ),
                },
            decreases imp.functions.len() - i,
        {
            assert(fns.skip(i as int)[0] == fns[i as int]);
            assert(fns.skip(i as int).drop_first() =~= fns.skip(i as int + 1));
            let f = &imp.functions[i];
            if entry.contains_key(&f.name) {
                clash = Some(f.name.clone());
            } else {
                entry.insert(f.name.clone(), method_info(f, &imp.target_type));
            }
            i = i + 1;
        }
        let ghost added = entry.deep_view();
        self.methods.insert(key.clone(), entry);
        assert(self.methods.deep_view() =~= before.insert(key@, added));
        match clash {
            Some(n) => {
                let mut s = cat3(
                    "error[IMP001]: conflicting implementations of method `",
                    n.as_str(),
                    "` for type `",
                );
                s.append(key.as_str());
                s.append("`");
                Err(s)
            },
            None => Ok(()),
        }
    }

    /// The return type of a method that a primitive type has by itself.
    pub fn builtin_primitive_method_return_type(&self, receiver: &Type, method: &str) -> (r: Option<
        Type,
    >)
        ensures
            r.deep_view() == builtin_method(receiver.deep_view(), method@),
    {
        let is_str = match receiver {
            Type::Str => true,
            _ => false,
        };
        if is_str && str_eq(method, "len") {
            Some(Type::U64)
        } else if is_str && str_eq(method, "is_empty") {
            Some(Type::Bool)
        } else if is_str && str_eq(method, "as_bytes") {
            proof {
                reveal_with_fuel(crate::ast::type_view, 3);
            }
            Some(Type::Ref { mutable: false, inner: Box::new(Type::Slice(Box::new(Type::U8))) })
        } else if str_eq(method, "abs") && self.is_signed_numeric_type(receiver) {
            Some(receiver.clone())
        } else {
            None
        }
    }

    /// The method of a type, if one of that name is registered.
    fn lookup_method(&self, key: &str, func: &str) -> (r: Option<MethodInfo>)
        ensures
            r.deep_view() == (if methods_known(self.methods.deep_view(), key@).contains_key(func@) {
                Some(methods_known(self.methods.deep_view(), key@)[func@])
            } else {
                None
            }),
    {
        match self.methods.get(&key.to_owned()) {
            Some(table) => match table.get(&func.to_owned()) {
                Some(m) => Some(m.clone()),
                None => None,
            },
            None => None,
        }
    }

    /// What a call of `func` on a receiver of the given type calls.
    pub fn find_method(&self, receiver: &Type, func: &str) -> (r: MethodTarget)
        ensures
            r.deep_view() == target_of(self.methods.deep_view(), receiver.deep_view(), func@),
    {
        let plain = self.strip_privacy(receiver);
        let base = self.strip_ref(&plain);
        match self.builtin_primitive_method_return_type(&base, func) {
            Some(t) => MethodTarget::Builtin(t),
            None => match Self::type_key_for_impl_target(&plain) {
                Some(key) => match self.lookup_method(key.as_str(), func) {
                    Some(m) => MethodTarget::Method(m),
                    None => MethodTarget::Unknown,
                },
                None => MethodTarget::Unknown,
            },
        }
    }

    /// Checks the arguments after the receiver; `ret` is the type of the call where none
    /// is in error.
    fn check_plain_call<X: Copy + Fn(TypeChecker, &Expr, Option<&Type>) -> Checked<Type>>(
        &mut self,
        args: &[CallArg],
        ret: Type,
        check_expr: X,
    ) -> (r: Result<Type, String>)
        requires
            args.len() > 0,
            checks_exprs(check_expr),
        ensures
            plain_call(check_expr, args@, ret.deep_view(), *old(self), *final(self), r),
    {
        let mut i: usize = 1;
        while i < args.len()
            invariant
                1 <= i <= args.len(),
                checks_exprs(check_expr),
                args_checked(check_expr, args@, 1, i - 1, *old(self), *self, None),
            decreases args.len() - i,
        {
            let ghost c = *self;
            let t = self.check_call_arg(&args[i], check_expr);
            let ghost q: Option<Seq<char>> = failure(t);
            proof {
                assert(arg_next(check_expr, args@, 1, i as int, c, None, *self, q));
                assert(args_checked(check_expr, args@, 1, i as int, *old(self), *self, q));
            }
            if let Err(e) = t {
                proof {
                    lemma_args_stopped(
                        check_expr,
                        args@,
                        1,
                        i as int,
                        args.len() - 1,
                        *old(self),
                        *self,
                        q,
                    );
                }
                return Err(e);
            }
            i = i + 1;
        }
        Ok(ret)
    }

    /// Checks the arguments from `start` on and holds each against its parameter, with
    /// the parameters bound as in `bindings`.
    fn fill_params<
        X: Copy + Fn(TypeChecker, &Expr, Option<&Type>) -> Checked<Type>,
        U: Copy + Fn(&TypeChecker, &Type, &Type, Table<String, Type>) -> (
            Table<String, Type>,
            bool,
        ),
        R: Copy + Fn(&TypeChecker, &Type, &Table<String, Type>) -> Type,
    >(
        &mut self,
        info: &MethodInfo,
        callee: &str,
        what: &str,
        args: &[CallArg],
        start: usize,
        bindings: Table<String, Type>,
        check_expr: X,
        unify_type: U,
        substitute_type: R,
    ) -> (r: Result<Type, String>)
        requires
            start <= args.len(),
            checks_exprs(check_expr),
            unifies(unify_type),
            substitutes(substitute_type),
        ensures
            params_filled(
                check_expr,
                unify_type,
                substitute_type,
                info.deep_view(),
                callee@,
                what@,
                args@,
                start as int,
                *old(self),
                bindings,
                *final(self),
                r,
            ),
    {
        let params = take_value_params(&info.fn_def.params);
        let ghost want = value_params(info.deep_view().fn_def.params);
        assert(params.deep_view() == want);
        assert(params.deep_view().len() == params.len());
        if params.len() != args.len() - start {
            return Err(tell_count(what, params.len(), args.len() - start));
        }
        let ghost b0 = bindings;
        let mut b: Table<String, Type> = bindings;
        let mut i: usize = 0;
        while i < params.len()
            invariant
                i <= params.len(),
                start + params.len() == args.len(),
                checks_exprs(check_expr),
                unifies(unify_type),
                args_held(
                    check_expr,
                    unify_type,
                    callee@,
                    params@,
                    args@,
                    start as int,
                    i as int,
                    *old(self),
                    b0,
                    *self,
                    b,
                    None,
                ),
                b0 == bindings,
                want == params.deep_view(),
                want.len() == params.len(),
                want == value_params(info.deep_view().fn_def.params),
            decreases params.len() - i,
        {
            let ghost c = *self;
            let ghost d = b;
            let t = self.check_call_arg(&args[start + i], check_expr);
            let ty = match t {
                Ok(ty) => ty,
                Err(e) => {
                    proof {
                        let q = Some(e@);
                        assert(held_next(
                            check_expr,
                            unify_type,
                            callee@,
                            params@,
                            args@,
                            start as int,
                            i + 1,
                            c,
                            d,
                            None,
                            *self,
                            d,
                            q,
                        ));
                        assert(args_held(
                            check_expr,
                            unify_type,
                            callee@,
                            params@,
                            args@,
                            start as int,
                            i + 1,
                            *old(self),
                            b0,
                            *self,
                            d,
                            q,
                        ));
                        lemma_held_stopped(
                            check_expr,
                            unify_type,
                            callee@,
                            params@,
                            args@,
                            start as int,
                            i + 1,
                            want.len() as int,
                            *old(self),
                            b0,
                            *self,
                            d,
                            q,
                        );
                    }
                    return Err(e);
                },
            };
            let (next, ok) = unify_type(&*self, &ty, &params[i].ty, b);
            b = next;
            proof {
                let q = if ok {
                    None
                } else {
                    Some(
                        mismatch_message(callee@, params@[i as int].deep_view(), ty.deep_view()),
                    )
                };
                assert(held_next(
                    check_expr,
                    unify_type,
                    callee@,
                    params@,
                    args@,
                    start as int,
                    i + 1,
                    c,
                    d,
                    None,
                    *self,
                    b,
                    q,
                ));
                assert(args_held(
                    check_expr,
                    unify_type,
                    callee@,
                    params@,
                    args@,
                    start as int,
                    i + 1,
                    *old(self),
                    b0,
                    *self,
                    b,
                    q,
                ));
                if !ok {
                    lemma_held_stopped(
                        check_expr,
                        unify_type,
                        callee@,
                        params@,
                        args@,
                        start as int,
                        i + 1,
                        want.len() as int,
                        *old(self),
                        b0,
                        *self,
                        b,
                        q,
                    );
                }
            }
            if !ok {
                return Err(tell_mismatch(callee, &params[i], &ty));
            }
            i = i + 1;
        }
        match &info.fn_def.return_type {
            None => Ok(Type::Unit),
            Some(ret) => Ok(substitute_type(&*self, ret, &b)),
        }
    }

    /// The type of a method call. The first argument is the receiver; its type decides
    /// what is called.
    pub fn check_method_call<
        X: Copy + Fn(TypeChecker, &Expr, Option<&Type>) -> Checked<Type>,
        U: Copy + Fn(&TypeChecker, &Type, &Type, Table<String, Type>) -> (
            Table<String, Type>,
            bool,
        ),
        R: Copy + Fn(&TypeChecker, &Type, &Table<String, Type>) -> Type,
    >(
        &mut self,
        func: &str,
        args: &[CallArg],
        check_expr: X,
        unify_type: U,
        substitute_type: R,
    ) -> (r: Result<Type, String>)
        requires
            checks_exprs(check_expr),
            unifies(unify_type),
            substitutes(substitute_type),
        ensures
            method_call(
                check_expr,
                unify_type,
                substitute_type,
                func@,
                args@,
                *old(self),
                *final(self),
                r,
            ),
    {
        if args.len() == 0 {
            return Err("method call requires a receiver".to_owned());
        }
        let receiver = match self.check_call_arg(&args[0], check_expr) {
            Ok(t) => t,
            Err(e) => {
                return Err(e);
            },
        };
        let ghost c = *self;
        let info = match self.find_method(&receiver, func) {
            MethodTarget::Builtin(t) => {
                return self.check_plain_call(args, t, check_expr);
            },
            MethodTarget::Unknown => {
                return self.check_plain_call(args, Type::I32, check_expr);
            },
            MethodTarget::Method(info) => info,
        };
        let plain = self.strip_privacy(&receiver);
        let none: Table<String, Type> = Table::new();
        let (b, ok) = unify_type(&*self, &plain, &info.target_type, none);
        if !ok {
            let mut s = cat3(
                "receiver type ",
                show_type(&receiver).as_str(),
                " does not match implement target ",
            );
            s.append(show_type(&info.target_type).as_str());
            s.append(" for method `");
            s.append(func);
            s.append("`");
            return Err(s);
        }
        let what = cat("method `", func);
        self.fill_params(
            &info,
            func,
            what.as_str(),
            args,
            1,
            b,
            check_expr,
            unify_type,
            substitute_type,
        )
    }

    /// The type of a call `owner::func(..)`.
    pub fn check_qualified_static_call<
        X: Copy + Fn(TypeChecker, &Expr, Option<&Type>) -> Checked<Type>,
        U: Copy + Fn(&TypeChecker, &Type, &Type, Table<String, Type>) -> (
            Table<String, Type>,
            bool,
        ),
        R: Copy + Fn(&TypeChecker, &Type, &Table<String, Type>) -> Type,
    >(
        &mut self,
        owner: &str,
        func: &str,
        args: &[CallArg],
        expected: Option<&Type>,
        check_expr: X,
        unify_type: U,
        substitute_type: R,
    ) -> (r: Result<Type, String>)
        requires
            checks_exprs(check_expr),
            unifies(unify_type),
            substitutes(substitute_type),
        ensures
            static_call(
                check_expr,
                unify_type,
                substitute_type,
                owner@,
                func@,
                args@,
                expected,
                *old(self),
                *final(self),
                r,
            ),
    {
        let path = cat3(owner, "::", func);
        let info = match self.lookup_method(owner, func) {
            Some(m) => m,
            None => {
                return Err(cat3("undefined function `", path.as_str(), "`"));
            },
        };
        let none: Table<String, Type> = Table::new();
        let ghost start = none;
        let b = match (expected, &info.fn_def.return_type) {
            (Some(want), Some(ret)) => {
                let (b, ok) = unify_type(&*self, want, ret, none);
                assert(call_ensures(unify_type, (&*self, want, ret, start), (b, ok)));
                b
            },
            _ => none,
        };
        assert(expectation_bound(unify_type, info.deep_view(), expected, *self, b));
        let what = cat("`", path.as_str());
        self.fill_params(
            &info,
            path.as_str(),
            what.as_str(),
            args,
            0,
            b,
            check_expr,
            unify_type,
            substitute_type,
        )
    }
}

/// Whether types can always be unified or refused.
pub open spec fn unifies<
    U: Fn(&TypeChecker, &Type, &Type, Table<String, Type>) -> (Table<String, Type>, bool),
>(u: U) -> bool {
    forall|c: &TypeChecker, a: &Type, b: &Type, t: Table<String, Type>| #[trigger]
        call_requires(u, (c, a, b, t))
}

/// Whether type parameters can always be replaced.
pub open spec fn substitutes<R: Fn(&TypeChecker, &Type, &Table<String, Type>) -> Type>(
    s: R,
) -> bool {
    forall|c: &TypeChecker, a: &Type, t: &Table<String, Type>| #[trigger]
        call_requires(s, (c, a, t))
}

proof fn lemma_args_stopped<X: Fn(TypeChecker, &Expr, Option<&Type>) -> Checked<Type>>(
    x: X,
    args: Seq<CallArg>,
    start: int,
    k: int,
    n: int,
    before: TypeChecker,
    after: TypeChecker,
    q: Option<Seq<char>>,
)
    requires
        args_checked(x, args, start, k, before, after, q),
        q is Some,
        0 <= k <= n,
    ensures
        args_checked(x, args, start, n, before, after, q),
    decreases n - k,
{
    if k < n {
        assert(arg_next(x, args, start, k + 1, after, q, after, q));
        assert(args_checked(x, args, start, k + 1, before, after, q));
        lemma_args_stopped(x, args, start, k + 1, n, before, after, q);
    }
}

proof fn lemma_held_stopped<
    X: Fn(TypeChecker, &Expr, Option<&Type>) -> Checked<Type>,
    U: Fn(&TypeChecker, &Type, &Type, Table<String, Type>) -> (Table<String, Type>, bool),
>(
    x: X,
    u: U,
    callee: Seq<char>,
    params: Seq<Param>,
    args: Seq<CallArg>,
    start: int,
    k: int,
    n: int,
    before: TypeChecker,
    b: Table<String, Type>,
    after: TypeChecker,
    b2: Table<String, Type>,
    q: Option<Seq<char>>,
)
    requires
        args_held(x, u, callee, params, args, start, k, before, b, after, b2, q),
        q is Some,
        0 <= k <= n,
    ensures
        args_held(x, u, callee, params, args, start, n, before, b, after, b2, q),
    decreases n - k,
{
    if k < n {
        assert(held_next(
            x,
            u,
            callee,
            params,
            args,
            start,
            k + 1,
            after,
            b2,
            q,
            after,
            b2,
            q,
        ));
        assert(args_held(x, u, callee, params, args, start, k + 1, before, b, after, b2, q));
        lemma_held_stopped(x, u, callee, params, args, start, k + 1, n, before, b, after, b2, q);
    }
}

} // verus!
