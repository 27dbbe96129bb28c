//! Laws of the checker: which calls, bodies, constants and programs it accepts.

use vstd::prelude::*;

use crate::ast::{TagV, Type, TypeV};
use crate::expr::{
    AttrArgV, AttrV, CallArg, Expr, ExprKindV, ExprV, FnDef, Param, ParamV, Stmt,
};
use crate::intrinsic_check::stripped;
use crate::item::{Item, ModelDef};
use crate::mangle::type_text;
use crate::mangle_laws::scalar;
use crate::semantic::attr::{attr_named, value_of_key};
use crate::semantic::check_type::{
    is_float, is_signed_integer, is_unsigned_integer, referent, satisfies,
};
use crate::semantic::func::{body_complaint, closure_result, func_checked, param_scope};
use crate::semantic::given::Checked;
use crate::semantic::helpers::{arg_of, compile_time};
use crate::semantic::lookup::{
    arg_checked, arg_held, arg_next, args_checked, args_held, builtin_method, expectation_bound,
    held_next, impl_key, method_call, params_filled, plain_call, receiver_message, registered_call,
    result_typed, static_call, target_of, value_params, MethodTargetV,
};
use crate::semantic::privacy::{labelled_same, tags_same};
use crate::semantic::program::{
    collected, const_complaint, failure_of, fns_checked, item_checked, item_collected,
    items_checked, items_collected, next_checked, next_collected, next_fn_checked, program_checked,
};
use crate::semantic::type_laws::{bare, lemma_same_exact};
use crate::semantic::{MethodInfoV, TypeChecker};
use crate::table::Table;

verus! {

// Types.

/// Which built-in types are numbers shows in their names: those of signed integers start
/// with `i`, those of unsigned ones with `u` and a digit, those of floats with `f`.
pub proof fn lemma_number_kinds(t: TypeV)
    ensures
        is_signed_integer(t) <==> scalar(t) && type_text(t)[0] == 'i',
        is_unsigned_integer(t) <==> scalar(t) && type_text(t)[0] == 'u' && type_text(t)[1] != 'n',
        is_float(t) <==> scalar(t) && type_text(t)[0] == 'f',
{
    reveal_strlit("i8");
    reveal_strlit("i16");
    reveal_strlit("i32");
    reveal_strlit("i64");
    reveal_strlit("i128");
    reveal_strlit("u8");
    reveal_strlit("u16");
    reveal_strlit("u32");
    reveal_strlit("u64");
    reveal_strlit("u128");
    reveal_strlit("f16");
    reveal_strlit("f32");
    reveal_strlit("f64");
    reveal_strlit("bool");
    reveal_strlit("char");
    reveal_strlit("str");
    reveal_strlit("unit");
    reveal_strlit("never");
    reveal_strlit("symint");
}

/// A value can stand where a type is wanted exactly where it never comes to be, or is of
/// that type once all privacy labels are taken off.
pub proof fn lemma_satisfies_exact(actual: TypeV, expected: TypeV)
    ensures
        satisfies(actual, expected) <==> bare(actual) is Never || bare(actual) == bare(expected),
{
    lemma_same_exact(actual, expected);
    lemma_never_bare(actual);
}

proof fn lemma_never_bare(t: TypeV)
    ensures
        bare(t) is Never <==> stripped(t) is Never,
    decreases t,
{
    if let TypeV::Privacy(e, _) = t {
        lemma_never_bare(*e);
    }
}

/// The type behind references is no reference, and each reference on the way is one.
pub proof fn lemma_referent_exact(t: TypeV, mutable: bool)
    ensures
        !(referent(t) is Ref),
        referent(TypeV::Ref { mutable, inner: Box::new(t) }) == referent(t),
        !(t is Ref) ==> referent(t) == t,
    decreases t,
{
    if let TypeV::Ref { mutable: m, inner } = t {
        lemma_referent_exact(*inner, m);
    }
}

/// Two labelled types match exactly where they are the same without labels and the outer
/// labels, where both have one, are equal.
pub proof fn lemma_labelled_exact(a: TypeV, b: TypeV)
    ensures
        labelled_same(a, b) == Ok::<bool, Seq<char>>(true) <==> bare(a) == bare(b) && (
        a matches TypeV::Privacy(_, s) ==> (b matches TypeV::Privacy(_, t) ==> tags_same(s, t)
            == Ok::<bool, Seq<char>>(true))),
{
    lemma_same_exact(a, b);
    if let TypeV::Privacy(x, _) = a {
        if let TypeV::Privacy(y, _) = b {
            lemma_same_exact(*x, *y);
        }
    }
}

/// The body of a function is accepted exactly where no return type is declared, or it
/// never comes to an end, or its type is the declared one, labels included.
pub proof fn lemma_body_exact(body: TypeV, declared: Option<TypeV>)
    ensures
        body_complaint(body, declared) is None <==> {
            ||| declared is None
            ||| bare(body) is Never
            ||| labelled_same(body, declared->0) == Ok::<bool, Seq<char>>(true)
        },
{
    lemma_never_bare(body);
    if declared is Some {
        lemma_same_exact(body, declared->0);
        lemma_labelled_exact(body, declared->0);
    }
}

/// What a closure gives is the type of its body; it is accepted where no type is expected,
/// where it never comes to an end, and where its type is the expected one, labels
/// included.
pub proof fn lemma_closure_exact(
    body: Result<TypeV, Seq<char>>,
    expected: Option<TypeV>,
    t: TypeV,
)
    ensures
        closure_result(body, expected) == Ok::<TypeV, Seq<char>>(t) <==> body == Ok::<
            TypeV,
            Seq<char>,
        >(t) && {
            ||| expected is None
            ||| bare(t) is Never
            ||| labelled_same(t, expected->0) == Ok::<bool, Seq<char>>(true)
        },
{
    lemma_never_bare(t);
}

/// A constant is accepted exactly where its value is of the declared type, labels aside.
pub proof fn lemma_const_accepted(declared: TypeV, value: TypeV)
    ensures
        const_complaint(declared, value) is None <==> bare(value) == bare(declared),
{
    lemma_same_exact(value, declared);
}

// What is known at compile time.

/// Whether expression `l` is one that the value of `e` rests on: `e` itself, where it is
/// neither an operation on two expressions nor a negation, or one that a part rests on.
pub open spec fn rests_on(e: ExprV, l: ExprV) -> bool
    decreases e,
{
    match e.kind {
        ExprKindV::BinaryOp { left, right, .. } => rests_on(*left, l) || rests_on(*right, l),
        ExprKindV::Unary { op, expr } => if op is Neg {
            rests_on(*expr, l)
        } else {
            e == l
        },
        _ => e == l,
    }
}

/// Whether an expression without parts is known at compile time: a literal, a symbol, a
/// slice that is lacking, or the name of a constant.
pub open spec fn known_leaf(l: ExprV, consts: Set<Seq<char>>) -> bool {
    match l.kind {
        ExprKindV::Literal(_) | ExprKindV::Sym(_) | ExprKindV::LackSlice(_) => true,
        ExprKindV::Ident(name) => consts.contains(name),
        _ => false,
    }
}

/// The value of an expression is known at compile time exactly where all that it rests on
/// is.
pub proof fn lemma_compile_time_exact(e: ExprV, consts: Set<Seq<char>>)
    ensures
        compile_time(e, consts) <==> forall|l: ExprV| #[trigger]
            rests_on(e, l) ==> known_leaf(l, consts),
    decreases e,
{
    match e.kind {
        ExprKindV::BinaryOp { left, right, .. } => {
            lemma_compile_time_exact(*left, consts);
            lemma_compile_time_exact(*right, consts);
            if compile_time(e, consts) {
                assert forall|l: ExprV| #[trigger] rests_on(e, l) implies known_leaf(
                    l,
                    consts,
                ) by {
                    assert(rests_on(*left, l) || rests_on(*right, l));
                }
            } else if !compile_time(*left, consts) {
                let l = choose|l: ExprV| #[trigger] rests_on(*left, l) && !known_leaf(l, consts);
                assert(rests_on(e, l));
            } else {
                let l = choose|l: ExprV| #[trigger] rests_on(*right, l) && !known_leaf(l, consts);
                assert(rests_on(e, l));
            }
        },
        ExprKindV::Unary { op, expr } => {
            if op is Neg {
                lemma_compile_time_exact(*expr, consts);
                if compile_time(e, consts) {
                    assert forall|l: ExprV| #[trigger] rests_on(e, l) implies known_leaf(
                        l,
                        consts,
                    ) by {
                        assert(rests_on(*expr, l));
                    }
                } else {
                    let l = choose|l: ExprV| #[trigger]
                        rests_on(*expr, l) && !known_leaf(l, consts);
                    assert(rests_on(e, l));
                }
            } else {
                assert(rests_on(e, e));
            }
        },
        _ => {
            assert(rests_on(e, e));
        },
    }
}

// Attributes.

/// The attribute found is the first of the name.
pub proof fn lemma_attr_first(attrs: Seq<AttrV>, name: Seq<char>, i: int)
    requires
        0 <= i <= attrs.len(),
        forall|k: int| 0 <= k < i ==> (#[trigger] attrs[k]).name != name,
        i < attrs.len() ==> attrs[i].name == name,
    ensures
        attr_named(attrs, name) == (if i < attrs.len() {
            Some(attrs[i])
        } else {
            None
        }),
    decreases attrs.len(),
{
    if attrs.len() > 0 && i > 0 {
        let rest = attrs.drop_first();
        assert(attrs[0].name != name);
        assert forall|k: int| 0 <= k < i - 1 implies (#[trigger] rest[k]).name != name by {
            assert(attrs[k + 1].name != name);
        }
        lemma_attr_first(rest, name, i - 1);
    }
}

/// Whether an argument of an attribute gives a value to a key.
pub open spec fn keyed(a: AttrArgV, key: Seq<char>) -> bool {
    a matches AttrArgV::KeyValue(k, _) && k == key
}

/// The value found for a key is that of the first argument that gives it one.
pub proof fn lemma_key_first(args: Seq<AttrArgV>, key: Seq<char>, i: int)
    requires
        0 <= i <= args.len(),
        forall|k: int| 0 <= k < i ==> !keyed(#[trigger] args[k], key),
        i < args.len() ==> keyed(args[i], key),
    ensures
        value_of_key(args, key) == (if i < args.len() {
            Some(*args[i]->KeyValue_1)
        } else {
            None
        }),
    decreases args.len(),
{
    if args.len() > 0 && i > 0 {
        let rest = args.drop_first();
        assert(!keyed(args[0], key));
        assert forall|k: int| 0 <= k < i - 1 implies !keyed(#[trigger] rest[k], key) by {
            assert(!keyed(args[k + 1], key));
        }
        lemma_key_first(rest, key, i - 1);
    }
}

// Parameters.

/// The parameters that arguments are given for are all but `self`, in their order.
pub proof fn lemma_value_params(params: Seq<ParamV>)
    ensures
        value_params(params) == params.filter(|p: ParamV| p.name != "self"@),
    decreases params.len(),
{
    reveal(Seq::filter);
    if params.len() > 0 {
        lemma_value_params(params.drop_last());
    }
}

/// In the scope of a function each parameter has its type, and `self` that of the method's
/// target; of two of one name the last counts. Nothing else is in it.
pub proof fn lemma_param_scope(params: Seq<ParamV>, self_type: TypeV, name: Seq<char>, i: int)
    requires
        -1 <= i < params.len(),
        i >= 0 ==> params[i].name == name,
        forall|k: int| i < k < params.len() ==> (#[trigger] params[k]).name != name,
    ensures
        param_scope(params, self_type).contains_key(name) <==> i >= 0,
        i >= 0 ==> param_scope(params, self_type)[name] == (if name == "self"@ {
            self_type
        } else {
            params[i].ty
        }),
    decreases params.len(),
{
    if params.len() > 0 && i < params.len() - 1 {
        let front = params.drop_last();
        assert(params[params.len() - 1].name != name);
        assert forall|k: int| i < k < front.len() implies (#[trigger] front[k]).name != name by {
            assert(params[k].name != name);
        }
        lemma_param_scope(front, self_type, name, i);
    }
}

// Methods.

/// Which methods are built in: length, emptiness and bytes of a text, and the magnitude of
/// a number that can be negative.
pub proof fn lemma_builtin_exact(receiver: TypeV, method: Seq<char>, t: TypeV)
    ensures
        builtin_method(receiver, method) == Some(t) <==> {
            ||| receiver == TypeV::Str && method == "len"@ && t == TypeV::U64
            ||| receiver == TypeV::Str && method == "is_empty"@ && t == TypeV::Bool
            ||| receiver == TypeV::Str && method == "as_bytes"@ && t == (TypeV::Ref {
                mutable: false,
                inner: Box::new(TypeV::Slice(Box::new(TypeV::U8))),
            })
            ||| (is_signed_integer(receiver) || is_float(receiver)) && method == "abs"@ && t
                == receiver
        },
{
    reveal_strlit("len");
    reveal_strlit("is_empty");
    reveal_strlit("as_bytes");
    reveal_strlit("abs");
    assert("len"@.len() == 3 && "abs"@.len() == 3 && "len"@[0] != "abs"@[0]);
    assert("is_empty"@.len() == 8 && "as_bytes"@.len() == 8 && "is_empty"@[0] != "as_bytes"@[0]);
}

/// A privacy label on the receiver does not change which method is called.
pub proof fn lemma_target_unlabelled(
    methods: Map<Seq<char>, Map<Seq<char>, MethodInfoV>>,
    receiver: TypeV,
    tag: TagV,
    func: Seq<char>,
)
    ensures
        target_of(methods, TypeV::Privacy(Box::new(receiver), tag), func) == target_of(
            methods,
            receiver,
            func,
        ),
{
}

/// The method called on a named type, struct, enum or generic, is the one that was
/// registered for the type's name under the method's name.
pub proof fn lemma_target_registered(
    methods: Map<Seq<char>, Map<Seq<char>, MethodInfoV>>,
    receiver: TypeV,
    owner: Seq<char>,
    func: Seq<char>,
)
    requires
        receiver == TypeV::Struct(owner) || receiver == TypeV::Enum(owner)
            || (receiver matches TypeV::Generic(n, _) && n == owner),
    ensures
        methods.contains_key(owner) && methods[owner].contains_key(func) ==> target_of(
            methods,
            receiver,
            func,
        ) == MethodTargetV::Method(methods[owner][func]),
        !(methods.contains_key(owner) && methods[owner].contains_key(func)) ==> target_of(
            methods,
            receiver,
            func,
        ) == MethodTargetV::Unknown,
{
}

/// The expression of an argument is what stands in it, with or without a name.
pub proof fn lemma_arg_exact(e: Expr, name: String)
    ensures
        *arg_of(&CallArg::Positional(e)) == e,
        *arg_of(&CallArg::Named(name, e)) == e,
{
}

/// Whether the arguments from place `start` on are checked in turn, each after the other,
/// the checker going through the given states.
pub open spec fn checks_in_turn<X: Fn(TypeChecker, &Expr, Option<&Type>) -> Checked<Type>>(
    x: X,
    args: Seq<CallArg>,
    start: int,
    states: Seq<TypeChecker>,
) -> bool {
    &&& states.len() > 0
    &&& forall|i: int|
        0 <= i < states.len() - 1 ==> checks_one(
            x,
            &args[start + i],
            #[trigger] states[i],
            states[i + 1],
        )
}

/// Whether checking an argument, with no type expected, may take the checker from one state
/// to the other and find a type.
pub open spec fn checks_one<X: Fn(TypeChecker, &Expr, Option<&Type>) -> Checked<Type>>(
    x: X,
    arg: &CallArg,
    before: TypeChecker,
    after: TypeChecker,
) -> bool {
    exists|t: Type| #[trigger]
        call_ensures(
            x,
            (
                before,
                arg_of(arg),
                None,
            ),
            (after, Ok::<Type, String>(t)),
        )
}

/// Arguments are accepted exactly where each of them is, one after the other.
pub proof fn lemma_args_in_turn<X: Fn(TypeChecker, &Expr, Option<&Type>) -> Checked<Type>>(
    x: X,
    args: Seq<CallArg>,
    start: int,
    n: int,
    before: TypeChecker,
    after: TypeChecker,
)
    requires
        0 <= n,
    ensures
        args_checked(x, args, start, n, before, after, None) <==> exists|
            states: Seq<TypeChecker>,
        | #[trigger]
            checks_in_turn(x, args, start, states) && states.len() == n + 1 && states[0] == before
                && states[n] == after,
    decreases n,
{
    if n == 0 {
        if args_checked(x, args, start, n, before, after, None) {
            assert(checks_in_turn(x, args, start, seq![before]));
        }
    } else {
        if args_checked(x, args, start, n, before, after, None) {
            let (c, e) = choose|c: TypeChecker, e: Option<Seq<char>>|
                {
                    &&& args_checked(x, args, start, n - 1, before, c, e)
                    &&& #[trigger] arg_next(x, args, start, n, c, e, after, None)
                };
            lemma_args_in_turn(x, args, start, n - 1, before, c);
            let states = choose|states: Seq<TypeChecker>| #[trigger]
                checks_in_turn(x, args, start, states) && states.len() == n && states[0] == before
                    && states[n - 1] == c;
            let all = states.push(after);
            let t = choose|t: Result<Type, String>|
                {
                    &&& #[trigger] call_ensures(
                        x,
                        (c, arg_of(&args[start + n - 1]), None),
                        (after, t),
                    )
                    &&& t is Ok
                };
            assert(checks_one(x, &args[start + n - 1], c, after)) by {
                assert(t == Ok::<Type, String>(t->Ok_0));
            }
            assert forall|i: int| 0 <= i < all.len() - 1 implies checks_one(
                x,
                &args[start + i],
                #[trigger] all[i],
                all[i + 1],
            ) by {
                if i < n - 1 {
                    assert(states[i] == all[i] && states[i + 1] == all[i + 1]);
                }
            }
            assert(checks_in_turn(x, args, start, all));
        }
        if exists|states: Seq<TypeChecker>| #[trigger]
            checks_in_turn(x, args, start, states) && states.len() == n + 1 && states[0] == before
                && states[n] == after {
            let all = choose|states: Seq<TypeChecker>| #[trigger]
                checks_in_turn(x, args, start, states) && states.len() == n + 1 && states[0]
                    == before && states[n] == after;
            let front = all.drop_last();
            let c = all[n - 1];
            assert forall|i: int| 0 <= i < front.len() - 1 implies checks_one(
                x,
                &args[start + i],
                #[trigger] front[i],
                front[i + 1],
            ) by {
                assert(front[i] == all[i] && front[i + 1] == all[i + 1]);
            }
            assert(checks_in_turn(x, args, start, front));
            lemma_args_in_turn(x, args, start, n - 1, before, c);
            assert(checks_one(x, &args[start + (n - 1)], all[n - 1], all[n - 1 + 1]));
            let t = choose|t: Type| #[trigger]
                call_ensures(
                    x,
                    (c, arg_of(&args[start + n - 1]), None),
                    (after, Ok::<Type, String>(t)),
                );
            assert(call_ensures(
                x,
                (c, arg_of(&args[start + n - 1]), None),
                (after, Ok::<Type, String>(t)),
            ));
            assert(arg_checked(x, &args[start + n - 1], c, after, None));
            assert(arg_next(x, args, start, n, c, None, after, None));
        }
    }
}

/// Whether one argument is accepted for a parameter: checking it, with no type expected,
/// finds a type, and that is matched with the parameter's, which may bind more type
/// parameters.
pub open spec fn fills_one<
    X: Fn(TypeChecker, &Expr, Option<&Type>) -> Checked<Type>,
    U: Fn(&TypeChecker, &Type, &Type, Table<String, Type>) -> (Table<String, Type>, bool),
>(
    x: X,
    u: U,
    param: Param,
    arg: &CallArg,
    before: (TypeChecker, Table<String, Type>),
    after: (TypeChecker, Table<String, Type>),
) -> bool {
    exists|t: Type|
        {
            &&& #[trigger] call_ensures(
                x,
                (
                    before.0,
                    arg_of(arg),
                    None,
                ),
                (after.0, Ok::<Type, String>(t)),
            )
            &&& call_ensures(u, (&after.0, &t, &param.ty, before.1), (after.1, true))
        }
}

/// Whether the arguments from place `start` on are accepted for the parameters in turn, the
/// checker and the bound type parameters going through the given states.
pub open spec fn fills_in_turn<
    X: Fn(TypeChecker, &Expr, Option<&Type>) -> Checked<Type>,
    U: Fn(&TypeChecker, &Type, &Type, Table<String, Type>) -> (Table<String, Type>, bool),
>(
    x: X,
    u: U,
    params: Seq<Param>,
    args: Seq<CallArg>,
    start: int,
    states: Seq<(TypeChecker, Table<String, Type>)>,
) -> bool {
    &&& states.len() > 0
    &&& forall|i: int|
        0 <= i < states.len() - 1 ==> fills_one(
            x,
            u,
            params[i],
            &args[start + i],
            #[trigger] states[i],
            states[i + 1],
        )
}

/// Arguments are accepted for parameters exactly where each is for the one in its place,
/// one after the other.
pub proof fn lemma_fills_in_turn<
    X: Fn(TypeChecker, &Expr, Option<&Type>) -> Checked<Type>,
    U: Fn(&TypeChecker, &Type, &Type, Table<String, Type>) -> (Table<String, Type>, bool),
>(
    x: X,
    u: U,
    callee: Seq<char>,
    params: Seq<Param>,
    args: Seq<CallArg>,
    start: int,
    n: int,
    before: (TypeChecker, Table<String, Type>),
    after: (TypeChecker, Table<String, Type>),
)
    requires
        0 <= n,
    ensures
        args_held(
            x,
            u,
            callee,
            params,
            args,
            start,
            n,
            before.0,
            before.1,
            after.0,
            after.1,
            None,
        ) <==> exists|states: Seq<(TypeChecker, Table<String, Type>)>| #[trigger]
            fills_in_turn(x, u, params, args, start, states) && states.len() == n + 1 && states[0]
                == before && states[n] == after,
    decreases n,
{
    if n == 0 {
        if args_held(
            x,
            u,
            callee,
            params,
            args,
            start,
            n,
            before.0,
            before.1,
            after.0,
            after.1,
            None,
        ) {
            assert(fills_in_turn(x, u, params, args, start, seq![before]));
        }
    } else {
        let param = params[n - 1];
        let arg = &args[start + n - 1];
        if args_held(
            x,
            u,
            callee,
            params,
            args,
            start,
            n,
            before.0,
            before.1,
            after.0,
            after.1,
            None,
        ) {
            let (c, d, e) = choose|
                c: TypeChecker,
                d: Table<String, Type>,
                e: Option<Seq<char>>,
            |
                {
                    &&& args_held(
                        x,
                        u,
                        callee,
                        params,
                        args,
                        start,
                        n - 1,
                        before.0,
                        before.1,
                        c,
                        d,
                        e,
                    )
                    &&& #[trigger] held_next(
                        x,
                        u,
                        callee,
                        params,
                        args,
                        start,
                        n,
                        c,
                        d,
                        e,
                        after.0,
                        after.1,
                        None,
                    )
                };
            assert(e is None);
            lemma_fills_in_turn(x, u, callee, params, args, start, n - 1, before, (c, d));
            let states = choose|states: Seq<(TypeChecker, Table<String, Type>)>| #[trigger]
                fills_in_turn(x, u, params, args, start, states) && states.len() == n && states[0]
                    == before && states[n - 1] == (c, d);
            let all = states.push(after);
            assert(arg_held(x, u, callee, param, arg, c, d, after.0, after.1, None));
            let t = choose|t: Result<Type, String>|
                {
                    &&& #[trigger] call_ensures(x, (c, arg_of(arg), None), (after.0, t))
                    &&& match t {
                        Err(_) => false,
                        Ok(ty) => call_ensures(u, (&after.0, &ty, &param.ty, d), (after.1, true)),
                    }
                };
            assert(t == Ok::<Type, String>(t->Ok_0));
            assert(fills_one(x, u, param, arg, (c, d), after));
            assert forall|i: int| 0 <= i < all.len() - 1 implies fills_one(
                x,
                u,
                params[i],
                &args[start + i],
                #[trigger] all[i],
                all[i + 1],
            ) by {
                if i < n - 1 {
                    assert(states[i] == all[i] && states[i + 1] == all[i + 1]);
                }
            }
            assert(fills_in_turn(x, u, params, args, start, all));
        }
        if exists|states: Seq<(TypeChecker, Table<String, Type>)>| #[trigger]
            fills_in_turn(x, u, params, args, start, states) && states.len() == n + 1 && states[0]
                == before && states[n] == after {
            let all = choose|states: Seq<(TypeChecker, Table<String, Type>)>| #[trigger]
                fills_in_turn(x, u, params, args, start, states) && states.len() == n + 1
                    && states[0] == before && states[n] == after;
            let front = all.drop_last();
            let (c, d) = all[n - 1];
            assert forall|i: int| 0 <= i < front.len() - 1 implies fills_one(
                x,
                u,
                params[i],
                &args[start + i],
                #[trigger] front[i],
                front[i + 1],
            ) by {
                assert(front[i] == all[i] && front[i + 1] == all[i + 1]);
            }
            assert(fills_in_turn(x, u, params, args, start, front));
            lemma_fills_in_turn(x, u, callee, params, args, start, n - 1, before, (c, d));
            assert(fills_one(x, u, params[n - 1], &args[start + (n - 1)], all[n - 1], all[n - 1
                + 1]));
            let t = choose|t: Type|
                {
                    &&& #[trigger] call_ensures(
                        x,
                        (c, arg_of(arg), None),
                        (after.0, Ok::<Type, String>(t)),
                    )
                    &&& call_ensures(u, (&after.0, &t, &param.ty, d), (after.1, true))
                };
            assert(call_ensures(x, (c, arg_of(arg), None), (after.0, Ok::<Type, String>(t))));
            assert(call_ensures(u, (&after.0, &t, &param.ty, d), (after.1, true)));
            assert(arg_held(x, u, callee, param, arg, c, d, after.0, after.1, None));
            assert(held_next(
                x,
                u,
                callee,
                params,
                args,
                start,
                n,
                c,
                d,
                None,
                after.0,
                after.1,
                None,
            ));
        }
    }
}

/// A call that gives a type has as many arguments as the function has parameters besides
/// `self`, and each was accepted for the parameter in its place; the type is the declared
/// one with the type parameters bound so far put in, or unit.
pub proof fn lemma_filled_ok<
    X: Fn(TypeChecker, &Expr, Option<&Type>) -> Checked<Type>,
    U: Fn(&TypeChecker, &Type, &Type, Table<String, Type>) -> (Table<String, Type>, bool),
    R: Fn(&TypeChecker, &Type, &Table<String, Type>) -> Type,
>(
    x: X,
    u: U,
    s: R,
    info: MethodInfoV,
    callee: Seq<char>,
    what: Seq<char>,
    args: Seq<CallArg>,
    start: int,
    before: TypeChecker,
    b: Table<String, Type>,
    after: TypeChecker,
    r: Result<Type, String>,
)
    requires
        params_filled(x, u, s, info, callee, what, args, start, before, b, after, r),
        r is Ok,
    ensures
        info.fn_def.params.filter(|p: ParamV| p.name != "self"@).len() == args.len() - start,
        exists|params: Vec<Param>, states: Seq<(TypeChecker, Table<String, Type>)>|
            {
                let n = states.len() - 1;
                &&& params.deep_view() == info.fn_def.params.filter(
                    |p: ParamV| p.name != "self"@,
                )
                &&& #[trigger] fills_in_turn(x, u, params@, args, start, states)
                &&& n == args.len() - start
                &&& states[0] == (before, b)
                &&& states[n].0 == after
                &&& match info.fn_def.return_type {
                    None => r->Ok_0.deep_view() == TypeV::Unit,
                    Some(declared) => exists|ret: Type|
                        ret.deep_view() == declared && #[trigger] call_ensures(
                            s,
                            (&after, &ret, &states[n].1),
                            r->Ok_0,
                        ),
                }
            },
{
    let want = value_params(info.fn_def.params);
    lemma_value_params(info.fn_def.params);
    let n = want.len() as int;
    let (params, b2, q) = choose|
        params: Vec<Param>,
        b2: Table<String, Type>,
        q: Option<Seq<char>>,
    |
        {
            &&& params.deep_view() == want
            &&& #[trigger] args_held(
                x,
                u,
                callee,
                params@,
                args,
                start,
                n,
                before,
                b,
                after,
                b2,
                q,
            )
            &&& match q {
                Some(c) => r matches Err(e) && e@ == c,
                None => result_typed(s, info, after, b2, r),
            }
        };
    assert(q is None);
    lemma_fills_in_turn(x, u, callee, params@, args, start, n, (before, b), (after, b2));
    let states = choose|states: Seq<(TypeChecker, Table<String, Type>)>| #[trigger]
        fills_in_turn(x, u, params@, args, start, states) && states.len() == n + 1 && states[0] == (
        before,
        b,
    ) && states[n] == (after, b2);
    assert(result_typed(s, info, after, b2, r));
    assert(fills_in_turn(x, u, params@, args, start, states));
}

/// A method call that gives a type had its receiver checked first. Where the method is one
/// that was registered, the receiver, without its labels, was matched with the type that
/// the method is for, and the other arguments were accepted for the method's parameters.
pub proof fn lemma_method_ok<
    X: Fn(TypeChecker, &Expr, Option<&Type>) -> Checked<Type>,
    U: Fn(&TypeChecker, &Type, &Type, Table<String, Type>) -> (Table<String, Type>, bool),
    R: Fn(&TypeChecker, &Type, &Table<String, Type>) -> Type,
>(
    x: X,
    u: U,
    s: R,
    func: Seq<char>,
    args: Seq<CallArg>,
    before: TypeChecker,
    after: TypeChecker,
    r: Result<Type, String>,
)
    requires
        method_call(x, u, s, func, args, before, after, r),
        r is Ok,
    ensures
        args.len() > 0,
        exists|c: TypeChecker, ty: Type|
            {
                &&& #[trigger] call_ensures(
                    x,
                    (before, arg_of(&args[0]), None),
                    (c, Ok::<Type, String>(ty)),
                )
                &&& match target_of(c.methods.deep_view(), ty.deep_view(), func) {
                    MethodTargetV::Method(info) => accepts(x, u, s, info, func, ty, args, c, after, r),
                    MethodTargetV::Builtin(ret) => r->Ok_0.deep_view() == ret && args_checked(
                        x,
                        args,
                        1,
                        args.len() - 1,
                        c,
                        after,
                        None,
                    ),
                    MethodTargetV::Unknown => r->Ok_0.deep_view() == TypeV::I32 && args_checked(
                        x,
                        args,
                        1,
                        args.len() - 1,
                        c,
                        after,
                        None,
                    ),
                }
            },
{
    let (c, t) = choose|c: TypeChecker, t: Result<Type, String>|
        {
            &&& #[trigger] call_ensures(x, (before, arg_of(&args[0]), None), (c, t))
            &&& match t {
                Err(e) => r == Err::<Type, String>(e) && after == c,
                Ok(ty) => match target_of(c.methods.deep_view(), ty.deep_view(), func) {
                    MethodTargetV::Method(info) => registered_call(
                        x,
                        u,
                        s,
                        info,
                        func,
                        ty.deep_view(),
                        args,
                        c,
                        after,
                        r,
                    ),
                    MethodTargetV::Builtin(ret) => plain_call(x, args, ret, c, after, r),
                    MethodTargetV::Unknown => plain_call(x, args, TypeV::I32, c, after, r),
                },
            }
        };
    let ty = t->Ok_0;
    assert(t == Ok::<Type, String>(ty));
    match target_of(c.methods.deep_view(), ty.deep_view(), func) {
        MethodTargetV::Method(info) => lemma_registered_ok(x, u, s, info, func, ty, args, c, after, r),
        _ => {},
    }
    assert(call_ensures(x, (before, arg_of(&args[0]), None), (c, Ok::<Type, String>(ty))));
}

/// Whether a call of a registered method on a receiver of the given type is accepted: the
/// type without labels is matched with the one that the method is for, and each further
/// argument is accepted for the parameter in its place, `self` aside.
pub open spec fn accepts<
    X: Fn(TypeChecker, &Expr, Option<&Type>) -> Checked<Type>,
    U: Fn(&TypeChecker, &Type, &Type, Table<String, Type>) -> (Table<String, Type>, bool),
    R: Fn(&TypeChecker, &Type, &Table<String, Type>) -> Type,
>(
    x: X,
    u: U,
    s: R,
    info: MethodInfoV,
    func: Seq<char>,
    receiver: Type,
    args: Seq<CallArg>,
    before: TypeChecker,
    after: TypeChecker,
    r: Result<Type, String>,
) -> bool {
    &&& info.fn_def.params.filter(|p: ParamV| p.name != "self"@).len() == args.len() - 1
    &&& exists|
        plain: Type,
        target: Type,
        none: Table<String, Type>,
        b: Table<String, Type>,
    |
        {
            &&& #[trigger] call_ensures(u, (&before, &plain, &target, none), (b, true))
            &&& plain.deep_view() == stripped(receiver.deep_view())
            &&& target.deep_view() == info.target_type
            &&& none.deep_view() == Map::<Seq<char>, TypeV>::empty()
            &&& exists|params: Vec<Param>, states: Seq<(TypeChecker, Table<String, Type>)>|
                {
                    &&& params.deep_view() == info.fn_def.params.filter(
                        |p: ParamV| p.name != "self"@,
                    )
                    &&& #[trigger] fills_in_turn(x, u, params@, args, 1, states)
                    &&& states.len() == args.len()
                    &&& states[0] == (before, b)
                    &&& states.last().0 == after
                }
        }
}

proof fn lemma_registered_ok<
    X: Fn(TypeChecker, &Expr, Option<&Type>) -> Checked<Type>,
    U: Fn(&TypeChecker, &Type, &Type, Table<String, Type>) -> (Table<String, Type>, bool),
    R: Fn(&TypeChecker, &Type, &Table<String, Type>) -> Type,
>(
    x: X,
    u: U,
    s: R,
    info: MethodInfoV,
    func: Seq<char>,
    receiver: Type,
    args: Seq<CallArg>,
    before: TypeChecker,
    after: TypeChecker,
    r: Result<Type, String>,
)
    requires
        registered_call(x, u, s, info, func, receiver.deep_view(), args, before, after, r),
        r is Ok,
    ensures
        accepts(x, u, s, info, func, receiver, args, before, after, r),
{
    let (plain, target, none, b, ok) = choose|
        plain: Type,
        target: Type,
        none: Table<String, Type>,
        b: Table<String, Type>,
        ok: bool,
    |
        {
            &&& plain.deep_view() == stripped(receiver.deep_view())
            &&& target.deep_view() == info.target_type
            &&& none.deep_view() == Map::<Seq<char>, TypeV>::empty()
            &&& #[trigger] call_ensures(u, (&before, &plain, &target, none), (b, ok))
            &&& if ok {
                params_filled(
                    x,
                    u,
                    s,
                    info,
                    func,
                    "method `"@ + func,
                    args,
                    1,
                    before,
                    b,
                    after,
                    r,
                )
            } else {
                &&& r matches Err(e) && e@ == receiver_message(
                    receiver.deep_view(),
                    info.target_type,
                    func,
                )
                &&& after == before
            }
        };
    assert(ok);
    lemma_filled_ok(x, u, s, info, func, "method `"@ + func, args, 1, before, b, after, r);
    let (params, states) = choose|
        params: Vec<Param>,
        states: Seq<(TypeChecker, Table<String, Type>)>,
    |
        {
            let n = states.len() - 1;
            &&& params.deep_view() == info.fn_def.params.filter(|p: ParamV| p.name != "self"@)
            &&& #[trigger] fills_in_turn(x, u, params@, args, 1, states)
            &&& n == args.len() - 1
            &&& states[0] == (before, b)
            &&& states[n].0 == after
        };
    assert(fills_in_turn(x, u, params@, args, 1, states));
    assert(call_ensures(u, (&before, &plain, &target, none), (b, true)));
}

/// A call of a function of a type that gives a type names one that was registered for the
/// type, and every argument was accepted for the parameter in its place.
pub proof fn lemma_static_ok<
    X: Fn(TypeChecker, &Expr, Option<&Type>) -> Checked<Type>,
    U: Fn(&TypeChecker, &Type, &Type, Table<String, Type>) -> (Table<String, Type>, bool),
    R: Fn(&TypeChecker, &Type, &Table<String, Type>) -> Type,
>(
    x: X,
    u: U,
    s: R,
    owner: Seq<char>,
    func: Seq<char>,
    args: Seq<CallArg>,
    expected: Option<&Type>,
    before: TypeChecker,
    after: TypeChecker,
    r: Result<Type, String>,
)
    requires
        static_call(x, u, s, owner, func, args, expected, before, after, r),
        r is Ok,
    ensures
        ({
            let methods = before.methods.deep_view();
            &&& methods.contains_key(owner) && methods[owner].contains_key(func)
            &&& methods[owner][func].fn_def.params.filter(|p: ParamV| p.name != "self"@).len()
                == args.len()
            &&& exists|params: Vec<Param>, states: Seq<(TypeChecker, Table<String, Type>)>|
                {
                    &&& params.deep_view() == methods[owner][func].fn_def.params.filter(
                        |p: ParamV| p.name != "self"@,
                    )
                    &&& #[trigger] fills_in_turn(x, u, params@, args, 0, states)
                    &&& states.len() == args.len() + 1
                    &&& states[0].0 == before
                    &&& states.last().0 == after
                }
        }),
{
    let path = owner + "::"@ + func;
    let info = before.methods.deep_view()[owner][func];
    let b = choose|b: Table<String, Type>|
        {
            &&& #[trigger] expectation_bound(u, info, expected, before, b)
            &&& params_filled(x, u, s, info, path, "`"@ + path, args, 0, before, b, after, r)
        };
    lemma_filled_ok(x, u, s, info, path, "`"@ + path, args, 0, before, b, after, r);
    let (params, states) = choose|
        params: Vec<Param>,
        states: Seq<(TypeChecker, Table<String, Type>)>,
    |
        {
            let n = states.len() - 1;
            &&& params.deep_view() == info.fn_def.params.filter(|p: ParamV| p.name != "self"@)
            &&& #[trigger] fills_in_turn(x, u, params@, args, 0, states)
            &&& n == args.len() - 0
            &&& states[0] == (before, b)
            &&& states[n].0 == after
        };
    assert(fills_in_turn(x, u, params@, args, 0, states));
}

/// Methods are kept for structs, enums and generic types, under their names.
pub proof fn lemma_impl_key_exact(t: TypeV, name: Seq<char>)
    ensures
        impl_key(t) == Some(name) <==> t == TypeV::Struct(name) || t == TypeV::Enum(name) || (
        t matches TypeV::Generic(n, _) && n == name),
{
}

// Items.

/// What collecting an item makes known: a function, struct or enum under its name as it
/// was defined, a constant under its name with its type. All else that is known stays.
pub proof fn lemma_collected_exact(
    before: TypeChecker,
    after: TypeChecker,
    item: Item,
    name: Seq<char>,
)
    requires
        collected(before, after, item),
    ensures
        ({
            let old = before.functions.deep_view();
            let new = after.functions.deep_view();
            match item {
                Item::FnDef(f) => {
                    &&& new.contains_key(f.name@) && new[f.name@] == f.deep_view()
                    &&& name != f.name@ ==> (new.contains_key(name) <==> old.contains_key(name))
                    &&& name != f.name@ && old.contains_key(name) ==> new[name] == old[name]
                },
                _ => new == old,
            }
        }),
        ({
            let old = before.structs.deep_view();
            let new = after.structs.deep_view();
            match item {
                Item::StructDef(d) => {
                    &&& new.contains_key(d.name@) && new[d.name@] == d.deep_view()
                    &&& name != d.name@ ==> (new.contains_key(name) <==> old.contains_key(name))
                    &&& name != d.name@ && old.contains_key(name) ==> new[name] == old[name]
                },
                _ => new == old,
            }
        }),
        ({
            let old = before.enums.deep_view();
            let new = after.enums.deep_view();
            match item {
                Item::EnumDef(d) => {
                    &&& new.contains_key(d.name@) && new[d.name@] == d.deep_view()
                    &&& name != d.name@ ==> (new.contains_key(name) <==> old.contains_key(name))
                    &&& name != d.name@ && old.contains_key(name) ==> new[name] == old[name]
                },
                _ => new == old,
            }
        }),
        ({
            let old = before.consts.deep_view();
            let new = after.consts.deep_view();
            match item {
                Item::ConstDef(d) => {
                    &&& new.contains_key(d.name@) && new[d.name@] == d.ty.deep_view()
                    &&& name != d.name@ ==> (new.contains_key(name) <==> old.contains_key(name))
                    &&& name != d.name@ && old.contains_key(name) ==> new[name] == old[name]
                },
                _ => new == old,
            }
        }),
{
}

/// Items that are collected without a complaint are collected one after the other, all of
/// them.
pub proof fn lemma_collected_in_turn<M: Fn(TypeChecker, &ModelDef) -> Checked<()>>(
    m: M,
    items: Seq<Item>,
    n: int,
    before: TypeChecker,
    after: TypeChecker,
) -> (states: Seq<TypeChecker>)
    requires
        0 <= n,
        items_collected(m, items, n, before, after, None),
    ensures
        states.len() == n + 1,
        states[0] == before,
        states[n] == after,
        forall|i: int|
            0 <= i < n ==> item_collected(m, &items[i], #[trigger] states[i], states[i + 1], None),
    decreases n,
{
    if n == 0 {
        seq![before]
    } else {
        let (c, f) = choose|c: TypeChecker, f: Option<String>|
            {
                &&& items_collected(m, items, n - 1, before, c, f)
                &&& #[trigger] next_collected(m, items, n, c, f, after, None)
            };
        let front = lemma_collected_in_turn(m, items, n - 1, before, c);
        let states = front.push(after);
        assert forall|i: int| 0 <= i < n implies item_collected(
            m,
            &items[i],
            #[trigger] states[i],
            states[i + 1],
            None,
        ) by {
            if i < n - 1 {
                assert(front[i] == states[i] && front[i + 1] == states[i + 1]);
            }
        }
        states
    }
}

proof fn lemma_one_fn<
    S: Fn(TypeChecker, &Stmt) -> Checked<Type>,
    X: Fn(TypeChecker, &Expr, Option<&Type>) -> Checked<Type>,
    W: Fn(&TypeChecker, &FnDef) -> Result<(), String>,
>(
    s: S,
    x: X,
    w: W,
    fns: Seq<FnDef>,
    n: int,
    before: TypeChecker,
    f: Option<String>,
    after: TypeChecker,
)
    requires
        next_fn_checked(s, x, w, fns, n, before, f, after, None),
    ensures
        f is None,
        func_checked(s, x, w, &fns[n - 1], before, after, Ok::<(), String>(())),
{
    let e: Option<String> = None;
    let r = choose|r: Result<(), String>|
        #[trigger] func_checked(s, x, w, &fns[n - 1], before, after, r) && e == failure_of(r);
    assert(r is Ok);
    assert(r->Ok_0 == ());
}

/// Functions that are checked without a complaint are checked one after the other, all of
/// them.
pub proof fn lemma_fns_in_turn<
    S: Fn(TypeChecker, &Stmt) -> Checked<Type>,
    X: Fn(TypeChecker, &Expr, Option<&Type>) -> Checked<Type>,
    W: Fn(&TypeChecker, &FnDef) -> Result<(), String>,
>(
    s: S,
    x: X,
    w: W,
    fns: Seq<FnDef>,
    n: int,
    before: TypeChecker,
    after: TypeChecker,
) -> (states: Seq<TypeChecker>)
    requires
        0 <= n,
        fns_checked(s, x, w, fns, n, before, after, None),
    ensures
        states.len() == n + 1,
        states[0] == before,
        states[n] == after,
        forall|i: int|
            0 <= i < n ==> func_checked(
                s,
                x,
                w,
                &fns[i],
                #[trigger] states[i],
                states[i + 1],
                Ok::<(), String>(()),
            ),
    decreases n,
{
    if n == 0 {
        seq![before]
    } else {
        let (c, f) = choose|c: TypeChecker, f: Option<String>|
            {
                &&& fns_checked(s, x, w, fns, n - 1, before, c, f)
                &&& #[trigger] next_fn_checked(s, x, w, fns, n, c, f, after, None)
            };
        let front = lemma_fns_in_turn(s, x, w, fns, n - 1, before, c);
        let states = front.push(after);
        lemma_one_fn(s, x, w, fns, n, c, f, after);
        assert forall|i: int| 0 <= i < n implies func_checked(
            s,
            x,
            w,
            &fns[i],
            #[trigger] states[i],
            states[i + 1],
            Ok::<(), String>(()),
        ) by {
            if i < n - 1 {
                assert(front[i] == states[i] && front[i + 1] == states[i + 1]);
            }
        }
        states
    }
}

/// Items that are checked without a complaint are checked one after the other, all of them.
pub proof fn lemma_items_in_turn<
    S: Fn(TypeChecker, &Stmt) -> Checked<Type>,
    X: Fn(TypeChecker, &Expr, Option<&Type>) -> Checked<Type>,
    W: Fn(&TypeChecker, &FnDef) -> Result<(), String>,
    M: Fn(TypeChecker, &ModelDef) -> Checked<()>,
>(
    s: S,
    x: X,
    w: W,
    m: M,
    items: Seq<Item>,
    n: int,
    before: TypeChecker,
    after: TypeChecker,
) -> (states: Seq<TypeChecker>)
    requires
        0 <= n,
        items_checked(s, x, w, m, items, n, before, after, None),
    ensures
        states.len() == n + 1,
        states[0] == before,
        states[n] == after,
        forall|i: int|
            0 <= i < n ==> item_checked(
                s,
                x,
                w,
                m,
                &items[i],
                #[trigger] states[i],
                states[i + 1],
                None,
            ),
    decreases n,
{
    if n == 0 {
        seq![before]
    } else {
        let (c, f) = choose|c: TypeChecker, f: Option<String>|
            {
                &&& items_checked(s, x, w, m, items, n - 1, before, c, f)
                &&& #[trigger] next_checked(s, x, w, m, items, n, c, f, after, None)
            };
        let front = lemma_items_in_turn(s, x, w, m, items, n - 1, before, c);
        let states = front.push(after);
        assert forall|i: int| 0 <= i < n implies item_checked(
            s,
            x,
            w,
            m,
            &items[i],
            #[trigger] states[i],
            states[i + 1],
            None,
        ) by {
            if i < n - 1 {
                assert(front[i] == states[i] && front[i + 1] == states[i + 1]);
            }
        }
        states
    }
}

/// A program that is accepted had all its items collected before the first was checked,
/// then all of them checked, and then built with the types that were found.
pub proof fn lemma_program_ok<
    S: Fn(TypeChecker, &Stmt) -> Checked<Type>,
    X: Fn(TypeChecker, &Expr, Option<&Type>) -> Checked<Type>,
    W: Fn(&TypeChecker, &FnDef) -> Result<(), String>,
    C: Fn(TypeChecker, &ModelDef) -> Checked<()>,
    M: Fn(TypeChecker, &ModelDef) -> Checked<()>,
    H,
    B: Fn(&Vec<Item>, &Table<usize, Type>) -> Result<H, String>,
>(
    s: S,
    x: X,
    w: W,
    collect: C,
    m: M,
    build: B,
    items: &Vec<Item>,
    before: TypeChecker,
    after: TypeChecker,
    h: H,
) -> (mid: TypeChecker)
    requires
        program_checked(
            s,
            x,
            w,
            collect,
            m,
            build,
            items,
            before,
            after,
            Ok::<H, String>(h),
        ),
    ensures
        items_collected(collect, items@, items@.len() as int, before, mid, None),
        items_checked(s, x, w, m, items@, items@.len() as int, mid, after, None),
        call_ensures(build, (items, &after.expr_types), Ok::<H, String>(h)),
{
    let n = items@.len() as int;
    let r = Ok::<H, String>(h);
    let (mid, e) = choose|mid: TypeChecker, e: Option<String>|
        {
            &&& #[trigger] items_collected(collect, items@, n, before, mid, e)
            &&& match e {
                Some(text) => after == mid && r == Err::<H, String>(text),
                None => exists|f: Option<String>|
                    {
                        &&& #[trigger] items_checked(s, x, w, m, items@, n, mid, after, f)
                        &&& match f {
                            Some(text) => r == Err::<H, String>(text),
                            None => call_ensures(build, (items, &after.expr_types), r),
                        }
                    },
            }
        };
    assert(e is None);
    mid
}

} // verus!
