//! Laws of how headers are read: type parameters, `where` clauses, parameters, functions,
//! models and patterns.

use vstd::prelude::*;

use crate::ast::TypeV;
use crate::expr::{FnSigV, ParamV, PatternV, TypeParamV, WhereClauseV};
use crate::syntactic::parse_func::{
    after_comma, declaration_at, header_at, optional_generics_at, param_at, params_at, start_at,
    tail_at,
};
use crate::syntactic::parse_generic::{
    bound_args_at, bounds_at, generic_at, generic_list_at, generics_at, param_names,
    where_at, where_bounds_at,
};
use crate::syntactic::parse_model::{field_at, member_at, model_at, ModelMemberV};
use crate::syntactic::parse_pattern::pattern_at;
use crate::syntactic::parse_type::type_at;
use crate::syntactic::type_laws::{lemma_type_exact, lemma_type_moves, spells, word};
use crate::syntactic::{accept, head, Token, Tokens};

verus! {

// Type parameters.

/// Whether the tokens from `p` up to `q` spell type parameters in angle brackets.
pub open spec fn spells_generics(ts: Tokens, p: int, q: int, gs: Seq<TypeParamV>) -> bool
    decreases ts.len() - p, 0int,
{
    &&& head(ts, p) == Some(Token::Lt)
    &&& spells_list(ts, p + 1, q - 1, gs)
    &&& head(ts, q - 1) == Some(Token::Gt)
}

/// Whether the tokens from `p` up to `q` spell one type parameter: a name, and its bounds
/// after a colon where it has any.
pub open spec fn spells_generic(ts: Tokens, p: int, q: int, g: TypeParamV) -> bool
    decreases ts.len() - p, 1int,
{
    &&& word(ts, p, g.name)
    &&& {
        ||| g.bounds.len() == 0 && q == p + 1 && head(ts, q) != Some(Token::Colon)
        ||| head(ts, p + 1) == Some(Token::Colon) && spells_bounds(ts, p + 2, q, g.bounds)
    }
}

/// Whether the tokens from `p` up to `q` spell type parameters with commas between them.
pub open spec fn spells_list(ts: Tokens, p: int, q: int, gs: Seq<TypeParamV>) -> bool
    decreases ts.len() - p, 2int,
{
    if gs.len() == 0 {
        p == q && (head(ts, p) is None || head(ts, p) == Some(Token::Gt))
    } else {
        exists|m: int|
            {
                &&& 0 <= p < m
                &&& spells_generic(ts, p, m, gs[0])
                &&& gs.len() == 1 && m == q && #[trigger] head(ts, m) != Some(Token::Comma) || head(
                    ts,
                    m,
                ) == Some(Token::Comma) && spells_list(ts, m + 1, q, gs.drop_first())
            }
    }
}

/// Whether the tokens from `p` up to `q` spell the type arguments of a bound, or nothing.
pub open spec fn spells_bound_args(ts: Tokens, p: int, q: int) -> bool
    decreases ts.len() - p, 1int,
{
    ||| p == q && head(ts, p) != Some(Token::Lt)
    ||| exists|gs: Seq<TypeParamV>| #[trigger] gs.len() >= 0 && spells_generics(ts, p, q, gs)
}

/// Whether the tokens from `p` up to `q` spell bounds with `+` between them.
pub open spec fn spells_bounds(ts: Tokens, p: int, q: int, bs: Seq<Seq<char>>) -> bool
    decreases ts.len() - p, 2int,
{
    &&& bs.len() > 0
    &&& word(ts, p, bs[0])
    &&& exists|m: int|
        {
            &&& p < m
            &&& spells_bound_args(ts, p + 1, m)
            &&& bs.len() == 1 && m == q && #[trigger] head(ts, m) != Some(Token::Plus) || head(
                ts,
                m,
            ) == Some(Token::Plus) && spells_bounds(ts, m + 1, q, bs.drop_first())
        }
}

/// Type parameters are read exactly where they are spelled.
pub proof fn lemma_generics_exact(ts: Tokens, p: int, q: int, gs: Seq<TypeParamV>)
    ensures
        generics_at(ts, p) == accept(gs, q) <==> spells_generics(ts, p, q, gs),
        generics_at(ts, p).value is Ok ==> p < generics_at(ts, p).pos,
    decreases ts.len() - p, 0int,
{
    if head(ts, p) == Some(Token::Lt) {
        let list = generic_list_at(ts, p + 1);
        if list.value is Ok {
            lemma_list_exact(ts, p + 1, list.pos, list.value->Ok_0);
        }
        lemma_list_exact(ts, p + 1, q - 1, gs);
    }
}

proof fn lemma_generic_exact(ts: Tokens, p: int, q: int, g: TypeParamV)
    ensures
        generic_at(ts, p) == accept(g, q) <==> spells_generic(ts, p, q, g),
        generic_at(ts, p).value is Ok ==> p < generic_at(ts, p).pos,
    decreases ts.len() - p, 1int,
{
    if head(ts, p) == Some(Token::Ident) && head(ts, p + 1) == Some(Token::Colon) {
        let bounds = bounds_at(ts, p + 2);
        lemma_bounds_exact(ts, p + 2, bounds.pos, g.bounds);
        lemma_bounds_exact(ts, p + 2, q, g.bounds);
    } else if head(ts, p) == Some(Token::Ident) {
        if g.bounds.len() == 0 {
            assert(g.bounds =~= Seq::empty());
        }
    }
}

proof fn lemma_list_exact(ts: Tokens, p: int, q: int, gs: Seq<TypeParamV>)
    ensures
        generic_list_at(ts, p) == accept(gs, q) <==> spells_list(ts, p, q, gs),
        generic_list_at(ts, p).value is Ok ==> p <= generic_list_at(ts, p).pos,
    decreases ts.len() - p, 2int,
{
    if head(ts, p) is None || head(ts, p) == Some(Token::Gt) {
        if gs.len() == 0 {
            assert(gs =~= Seq::empty());
        }
    } else {
        let first = generic_at(ts, p);
        if first.value is Ok {
            lemma_generic_exact(ts, p, first.pos, first.value->Ok_0);
            if head(ts, first.pos) == Some(Token::Comma) {
                let rest = generic_list_at(ts, first.pos + 1);
                if rest.value is Ok {
                    lemma_list_exact(ts, first.pos + 1, rest.pos, rest.value->Ok_0);
                }
            }
        }
        if generic_list_at(ts, p) == accept(gs, q) {
            let m = first.pos;
            assert(gs[0] == first.value->Ok_0);
            if head(ts, m) == Some(Token::Comma) {
                assert(gs.drop_first() =~= generic_list_at(ts, m + 1).value->Ok_0);
            }
            assert(spells_generic(ts, p, m, gs[0]));
        }
        if spells_list(ts, p, q, gs) && gs.len() > 0 {
            let m = choose|m: int|
                {
                    &&& 0 <= p < m
                    &&& spells_generic(ts, p, m, gs[0])
                    &&& gs.len() == 1 && m == q && #[trigger] head(ts, m) != Some(Token::Comma)
                        || head(ts, m) == Some(Token::Comma) && spells_list(
                        ts,
                        m + 1,
                        q,
                        gs.drop_first(),
                    )
                };
            lemma_generic_exact(ts, p, m, gs[0]);
            if head(ts, m) == Some(Token::Comma) {
                lemma_list_exact(ts, m + 1, q, gs.drop_first());
                assert(seq![gs[0]] + gs.drop_first() =~= gs);
            } else {
                assert(seq![gs[0]] =~= gs);
            }
        }
    }
}

proof fn lemma_bound_args_exact(ts: Tokens, p: int, q: int)
    ensures
        bound_args_at(ts, p) == accept((), q) <==> spells_bound_args(ts, p, q),
        bound_args_at(ts, p).value is Ok ==> p <= bound_args_at(ts, p).pos,
    decreases ts.len() - p, 1int,
{
    if head(ts, p) == Some(Token::Lt) {
        let args = generics_at(ts, p);
        if args.value is Ok {
            let gs = args.value->Ok_0;
            lemma_generics_exact(ts, p, args.pos, gs);
            assert(gs.len() >= 0 && spells_generics(ts, p, args.pos, gs));
        }
        if spells_bound_args(ts, p, q) {
            let gs = choose|gs: Seq<TypeParamV>| #[trigger]
                gs.len() >= 0 && spells_generics(ts, p, q, gs);
            lemma_generics_exact(ts, p, q, gs);
        }
    } else {
        assert forall|gs: Seq<TypeParamV>| #[trigger] gs.len() >= 0 implies !spells_generics(
            ts,
            p,
            q,
            gs,
        ) by {}
    }
}

proof fn lemma_bounds_exact(ts: Tokens, p: int, q: int, bs: Seq<Seq<char>>)
    ensures
        bounds_at(ts, p) == accept(bs, q) <==> spells_bounds(ts, p, q, bs),
        bounds_at(ts, p).value is Ok ==> p < bounds_at(ts, p).pos,
    decreases ts.len() - p, 2int,
{
    if head(ts, p) == Some(Token::Ident) {
        let args = bound_args_at(ts, p + 1);
        lemma_bound_args_exact(ts, p + 1, args.pos);
        if args.value is Ok && head(ts, args.pos) == Some(Token::Plus) {
            let rest = bounds_at(ts, args.pos + 1);
            if rest.value is Ok {
                lemma_bounds_exact(ts, args.pos + 1, rest.pos, rest.value->Ok_0);
            }
        }
        if bounds_at(ts, p) == accept(bs, q) {
            let m = args.pos;
            assert(args == accept((), m));
            assert(bs[0] == ts[p].1);
            if head(ts, m) == Some(Token::Plus) {
                assert(bs.drop_first() =~= bounds_at(ts, m + 1).value->Ok_0);
            }
            assert(spells_bound_args(ts, p + 1, m));
        }
        if spells_bounds(ts, p, q, bs) {
            let m = choose|m: int|
                {
                    &&& p < m
                    &&& spells_bound_args(ts, p + 1, m)
                    &&& bs.len() == 1 && m == q && #[trigger] head(ts, m) != Some(Token::Plus)
                        || head(ts, m) == Some(Token::Plus) && spells_bounds(
                        ts,
                        m + 1,
                        q,
                        bs.drop_first(),
                    )
                };
            lemma_bound_args_exact(ts, p + 1, m);
            if head(ts, m) == Some(Token::Plus) {
                lemma_bounds_exact(ts, m + 1, q, bs.drop_first());
                assert(seq![bs[0]] + bs.drop_first() =~= bs);
            } else {
                assert(seq![bs[0]] =~= bs);
            }
        }
    }
}

// `where` clauses.

/// Whether the tokens from `p` up to `q` spell the bounds of a `where` clause: names with
/// `+` between them, and a comma behind them where there is one. After `+` a name may be
/// missing.
pub open spec fn spells_where_bounds(ts: Tokens, p: int, q: int, bs: Seq<Seq<char>>) -> bool
    decreases bs.len(),
{
    if bs.len() == 0 {
        p == q && head(ts, p) != Some(Token::Ident)
    } else {
        &&& word(ts, p, bs[0])
        &&& match head(ts, p + 1) {
            Some(Token::Plus) => spells_where_bounds(ts, p + 2, q, bs.drop_first()),
            Some(Token::Comma) => bs.len() == 1 && q == p + 2,
            _ => bs.len() == 1 && q == p + 1,
        }
    }
}

/// Whether the tokens from `p` up to `q` spell `where` clauses: for each a name, a colon
/// and bounds; no name follows them.
pub open spec fn spells_where(ts: Tokens, p: int, q: int, cs: Seq<WhereClauseV>) -> bool
    decreases cs.len(),
{
    if cs.len() == 0 {
        p == q && head(ts, p) != Some(Token::Ident)
    } else {
        &&& word(ts, p, cs[0].type_param)
        &&& head(ts, p + 1) == Some(Token::Colon)
        &&& exists|m: int|
            {
                &&& #[trigger] spells_where_bounds(ts, p + 2, m, cs[0].bounds)
                &&& spells_where(ts, m, q, cs.drop_first())
            }
    }
}

proof fn lemma_where_bounds_exact(ts: Tokens, p: int, q: int, bs: Seq<Seq<char>>)
    ensures
        where_bounds_at(ts, p) == (bs, q) <==> spells_where_bounds(ts, p, q, bs),
        p <= ts.len() ==> p <= where_bounds_at(ts, p).1 <= ts.len(),
    decreases ts.len() - p,
{
    if head(ts, p) == Some(Token::Ident) {
        if head(ts, p + 1) == Some(Token::Plus) {
            let rest = where_bounds_at(ts, p + 2);
            lemma_where_bounds_exact(ts, p + 2, rest.1, rest.0);
            if where_bounds_at(ts, p) == (bs, q) {
                assert(bs.drop_first() =~= rest.0);
            }
            if spells_where_bounds(ts, p, q, bs) {
                lemma_where_bounds_exact(ts, p + 2, q, bs.drop_first());
                assert(seq![bs[0]] + bs.drop_first() =~= bs);
            }
        } else if bs.len() == 1 {
            assert(seq![bs[0]] =~= bs);
        }
    } else if bs.len() == 0 {
        assert(bs =~= Seq::empty());
    }
}

/// `where` clauses are read exactly where they are spelled.
pub proof fn lemma_where_exact(ts: Tokens, p: int, q: int, cs: Seq<WhereClauseV>)
    ensures
        where_at(ts, p) == accept(cs, q) <==> spells_where(ts, p, q, cs),
    decreases ts.len() - p,
{
    if head(ts, p) == Some(Token::Ident) && head(ts, p + 1) == Some(Token::Colon) {
        let (bounds, m) = where_bounds_at(ts, p + 2);
        lemma_where_bounds_exact(ts, p + 2, m, bounds);
        let rest = where_at(ts, m);
        if rest.value is Ok {
            lemma_where_exact(ts, m, rest.pos, rest.value->Ok_0);
        }
        if where_at(ts, p) == accept(cs, q) {
            assert(cs.drop_first() =~= rest.value->Ok_0);
            assert(cs[0] == (WhereClauseV { type_param: ts[p].1, bounds }));
            assert(spells_where_bounds(ts, p + 2, m, cs[0].bounds));
        }
        if spells_where(ts, p, q, cs) {
            let k = choose|k: int|
                {
                    &&& #[trigger] spells_where_bounds(ts, p + 2, k, cs[0].bounds)
                    &&& spells_where(ts, k, q, cs.drop_first())
                };
            lemma_where_bounds_exact(ts, p + 2, k, cs[0].bounds);
            lemma_where_exact(ts, k, q, cs.drop_first());
            assert(seq![cs[0]] + cs.drop_first() =~= cs);
        }
    } else if cs.len() == 0 {
        assert(cs =~= Seq::empty());
    }
}

// Parameters.

/// Whether the tokens from `p` up to `q` spell a parameter `self`: by value, or behind a
/// reference.
pub open spec fn spells_self(ts: Tokens, p: int, q: int, a: ParamV) -> bool {
    &&& a.name == "self"@
    &&& head(ts, q - 1) == Some(Token::SelfLower)
    &&& match a.ty {
        TypeV::SelfType => q == p + 1,
        TypeV::Ref { mutable, inner } => {
            &&& *inner == TypeV::SelfType
            &&& head(ts, p) == Some(Token::Amp)
            &&& if mutable {
                head(ts, p + 1) == Some(Token::Mut) && q == p + 3
            } else {
                q == p + 2
            }
        },
        _ => false,
    }
}

/// Whether the tokens from `p` up to `q` spell a parameter with a name and a type.
pub open spec fn spells_param(
    ts: Tokens,
    scopes: Seq<Seq<Seq<char>>>,
    p: int,
    q: int,
    a: ParamV,
) -> bool {
    &&& word(ts, p, a.name)
    &&& head(ts, p + 1) == Some(Token::Colon)
    &&& spells(ts, scopes, p + 2, q, a.ty)
}

/// Whether the tokens from `p` up to `q` spell parameters. A comma stands behind each that
/// another follows; behind a `self` it may be missing.
pub open spec fn spells_params(
    ts: Tokens,
    scopes: Seq<Seq<Seq<char>>>,
    p: int,
    q: int,
    ps: Seq<ParamV>,
) -> bool
    decreases ps.len(),
{
    if ps.len() == 0 {
        p == q && (head(ts, p) is None || head(ts, p) == Some(Token::RParen))
    } else {
        ||| exists|m: int| #[trigger]
            spells_self(ts, p, m, ps[0]) && spells_params(
                ts,
                scopes,
                if head(ts, m) == Some(Token::Comma) {
                    m + 1
                } else {
                    m
                },
                q,
                ps.drop_first(),
            )
        ||| exists|m: int| #[trigger]
            spells_param(ts, scopes, p, m, ps[0]) && (if head(ts, m) == Some(Token::Comma) {
                spells_params(ts, scopes, m + 1, q, ps.drop_first())
            } else {
                ps.len() == 1 && q == m
            })
    }
}

proof fn lemma_param_exact(ts: Tokens, scopes: Seq<Seq<Seq<char>>>, p: int, q: int, a: ParamV)
    ensures
        param_at(ts, scopes, p) == accept(a, q) <==> spells_param(ts, scopes, p, q, a),
        param_at(ts, scopes, p).value is Ok ==> p < param_at(ts, scopes, p).pos,
{
    if head(ts, p) == Some(Token::Ident) && head(ts, p + 1) == Some(Token::Colon) {
        lemma_type_exact(ts, scopes, p + 2, q, a.ty);
        if type_at(ts, scopes, p + 2).value is Ok {
            lemma_type_moves(ts, scopes, p + 2);
        }
    }
}

proof fn lemma_params_none(
    ts: Tokens,
    scopes: Seq<Seq<Seq<char>>>,
    p: int,
    q: int,
    ps: Seq<ParamV>,
)
    requires
        head(ts, p) is None || head(ts, p) == Some(Token::RParen),
    ensures
        params_at(ts, scopes, p) == accept(ps, q) <==> spells_params(ts, scopes, p, q, ps),
{
    if ps.len() == 0 {
        assert(ps =~= Seq::empty());
    } else {
        assert forall|m: int| !#[trigger] spells_self(ts, p, m, ps[0]) by {}
        assert forall|m: int| !#[trigger] spells_param(ts, scopes, p, m, ps[0]) by {}
    }
}

/// The place behind the `self` that starts at `p`.
spec fn self_end(ts: Tokens, p: int) -> int {
    if head(ts, p) != Some(Token::Amp) {
        p + 1
    } else if head(ts, p + 1) == Some(Token::Mut) {
        p + 3
    } else {
        p + 2
    }
}

proof fn lemma_self_end(ts: Tokens, p: int, k: int, a: ParamV)
    requires
        spells_self(ts, p, k, a),
    ensures
        k == self_end(ts, p),
        head(ts, p) == Some(Token::Amp) || head(ts, p) == Some(Token::SelfLower),
        a.ty == (if head(ts, p) == Some(Token::Amp) {
            TypeV::Ref {
                mutable: head(ts, p + 1) == Some(Token::Mut),
                inner: Box::new(TypeV::SelfType),
            }
        } else {
            TypeV::SelfType
        }),
{
}

proof fn lemma_params_self(
    ts: Tokens,
    scopes: Seq<Seq<Seq<char>>>,
    p: int,
    q: int,
    ps: Seq<ParamV>,
)
    requires
        head(ts, p) == Some(Token::Amp) || head(ts, p) == Some(Token::SelfLower),
        ({
            let n = after_comma(ts, self_end(ts, p));
            let rest = params_at(ts, scopes, n);
            &&& rest.value is Ok ==> spells_params(ts, scopes, n, rest.pos, rest.value->Ok_0)
            &&& spells_params(ts, scopes, n, q, ps.drop_first()) ==> rest == accept(
                ps.drop_first(),
                q,
            )
        }),
    ensures
        params_at(ts, scopes, p) == accept(ps, q) <==> spells_params(ts, scopes, p, q, ps),
{
    let m = self_end(ts, p);
    let n = after_comma(ts, m);
    let rest = params_at(ts, scopes, n);
    if params_at(ts, scopes, p) == accept(ps, q) {
        assert(ps.drop_first() =~= rest.value->Ok_0);
        assert(spells_self(ts, p, m, ps[0]));
    }
    if spells_params(ts, scopes, p, q, ps) {
        assert(ps.len() > 0);
        assert forall|k: int| !#[trigger] spells_param(ts, scopes, p, k, ps[0]) by {}
        let k = choose|k: int| #[trigger]
            spells_self(ts, p, k, ps[0]) && spells_params(
                ts,
                scopes,
                if head(ts, k) == Some(Token::Comma) {
                    k + 1
                } else {
                    k
                },
                q,
                ps.drop_first(),
            );
        lemma_self_end(ts, p, k, ps[0]);
        assert(seq![ps[0]] + ps.drop_first() =~= ps);
    }
}

proof fn lemma_params_named(
    ts: Tokens,
    scopes: Seq<Seq<Seq<char>>>,
    p: int,
    q: int,
    ps: Seq<ParamV>,
)
    requires
        head(ts, p) is Some,
        head(ts, p) != Some(Token::RParen),
        head(ts, p) != Some(Token::Amp),
        head(ts, p) != Some(Token::SelfLower),
        ({
            let m = param_at(ts, scopes, p).pos;
            let rest = params_at(ts, scopes, m + 1);
            param_at(ts, scopes, p).value is Ok && head(ts, m) == Some(Token::Comma) ==> {
                &&& rest.value is Ok ==> spells_params(
                    ts,
                    scopes,
                    m + 1,
                    rest.pos,
                    rest.value->Ok_0,
                )
                &&& spells_params(ts, scopes, m + 1, q, ps.drop_first()) ==> rest == accept(
                    ps.drop_first(),
                    q,
                )
            }
        }),
    ensures
        params_at(ts, scopes, p) == accept(ps, q) <==> spells_params(ts, scopes, p, q, ps),
{
    let first = param_at(ts, scopes, p);
    let m = first.pos;
    if first.value is Ok {
        lemma_param_exact(ts, scopes, p, m, first.value->Ok_0);
    }
    if params_at(ts, scopes, p) == accept(ps, q) {
        assert(ps[0] == first.value->Ok_0);
        if head(ts, m) == Some(Token::Comma) {
            assert(ps.drop_first() =~= params_at(ts, scopes, m + 1).value->Ok_0);
        }
        assert(spells_param(ts, scopes, p, m, ps[0]));
    }
    if spells_params(ts, scopes, p, q, ps) {
        assert(ps.len() > 0);
        assert forall|k: int| !#[trigger] spells_self(ts, p, k, ps[0]) by {
            if spells_self(ts, p, k, ps[0]) {
                lemma_self_end(ts, p, k, ps[0]);
            }
        }
        let k = choose|k: int| #[trigger]
            spells_param(ts, scopes, p, k, ps[0]) && (if head(ts, k) == Some(Token::Comma) {
                spells_params(ts, scopes, k + 1, q, ps.drop_first())
            } else {
                ps.len() == 1 && q == k
            });
        lemma_param_exact(ts, scopes, p, k, ps[0]);
        if head(ts, k) == Some(Token::Comma) {
            assert(seq![ps[0]] + ps.drop_first() =~= ps);
        } else {
            assert(seq![ps[0]] =~= ps);
        }
    }
}

/// Parameters are read exactly where they are spelled.
pub proof fn lemma_params_exact(
    ts: Tokens,
    scopes: Seq<Seq<Seq<char>>>,
    p: int,
    q: int,
    ps: Seq<ParamV>,
)
    ensures
        params_at(ts, scopes, p) == accept(ps, q) <==> spells_params(ts, scopes, p, q, ps),
    decreases ts.len() - p,
{
    if head(ts, p) is None || head(ts, p) == Some(Token::RParen) {
        lemma_params_none(ts, scopes, p, q, ps);
    } else if head(ts, p) == Some(Token::Amp) || head(ts, p) == Some(Token::SelfLower) {
        let m = self_end(ts, p);
        let n = after_comma(ts, m);
        if head(ts, m - 1) == Some(Token::SelfLower) {
            let rest = params_at(ts, scopes, n);
            if rest.value is Ok {
                lemma_params_exact(ts, scopes, n, rest.pos, rest.value->Ok_0);
            }
            lemma_params_exact(ts, scopes, n, q, ps.drop_first());
            lemma_params_self(ts, scopes, p, q, ps);
        } else {
            assert(params_at(ts, scopes, p).value is Err);
            if ps.len() > 0 {
                assert forall|k: int| !#[trigger] spells_self(ts, p, k, ps[0]) by {
                    if spells_self(ts, p, k, ps[0]) {
                        lemma_self_end(ts, p, k, ps[0]);
                    }
                }
                assert forall|k: int| !#[trigger] spells_param(ts, scopes, p, k, ps[0]) by {}
            }
        }
    } else {
        let first = param_at(ts, scopes, p);
        if first.value is Ok {
            lemma_param_exact(ts, scopes, p, first.pos, first.value->Ok_0);
            if head(ts, first.pos) == Some(Token::Comma) {
                let rest = params_at(ts, scopes, first.pos + 1);
                if rest.value is Ok {
                    lemma_params_exact(ts, scopes, first.pos + 1, rest.pos, rest.value->Ok_0);
                }
                lemma_params_exact(ts, scopes, first.pos + 1, q, ps.drop_first());
            }
        }
        lemma_params_named(ts, scopes, p, q, ps);
    }
}

// Functions.

/// Whether the tokens from `p` up to `q` spell type parameters in angle brackets, or
/// nothing.
pub open spec fn spells_optional_generics(
    ts: Tokens,
    p: int,
    q: int,
    gs: Seq<TypeParamV>,
) -> bool {
    ||| spells_generics(ts, p, q, gs)
    ||| p == q && gs.len() == 0 && head(ts, p) != Some(Token::Lt)
}

/// Whether the tokens from `p` up to `q` spell a function header: a visibility or none,
/// `fn`, the name, type parameters or none, parameters in parentheses, and a return type
/// after an arrow or none. The types see the type parameters.
pub open spec fn spells_header(
    ts: Tokens,
    scopes: Seq<Seq<Seq<char>>>,
    p: int,
    q: int,
    f: FnSigV,
) -> bool {
    let inner = scopes.push(
        Seq::new(f.generic_params.len(), |i: int| f.generic_params[i].name),
    );
    exists|n: int, a: int, b: int|
        {
            &&& n == p + 1 && (head(ts, p) == Some(Token::Pub) || head(ts, p) == Some(Token::Priv))
                || n == p && head(ts, p) == Some(Token::Fn)
            &&& head(ts, n) == Some(Token::Fn)
            &&& word(ts, n + 1, f.name)
            &&& #[trigger] spells_optional_generics(ts, n + 2, a, f.generic_params)
            &&& head(ts, a) == Some(Token::LParen)
            &&& #[trigger] spells_params(ts, inner, a + 1, b, f.params)
            &&& head(ts, b) == Some(Token::RParen)
            &&& match f.return_type {
                Some(t) => head(ts, b + 1) == Some(Token::Arrow) && spells(ts, inner, b + 2, q, t),
                None => head(ts, b + 1) != Some(Token::Arrow) && q == b + 1,
            }
        }
}

proof fn lemma_optional_generics(ts: Tokens, p: int, q: int, gs: Seq<TypeParamV>)
    ensures
        optional_generics_at(ts, p) == accept(gs, q) <==> spells_optional_generics(ts, p, q, gs),
{
    lemma_generics_exact(ts, p, q, gs);
    if gs.len() == 0 {
        assert(gs =~= Seq::empty());
    }
}

/// A function header is read exactly where it is spelled.
pub proof fn lemma_header_exact(
    ts: Tokens,
    scopes: Seq<Seq<Seq<char>>>,
    p: int,
    q: int,
    f: FnSigV,
)
    ensures
        header_at(ts, scopes, p) == accept(f, q) <==> spells_header(ts, scopes, p, q, f),
{
    let inner = scopes.push(
        Seq::new(f.generic_params.len(), |i: int| f.generic_params[i].name),
    );
    assert(inner.last() =~= param_names(f.generic_params));
    if header_at(ts, scopes, p) == accept(f, q) {
        let start = start_at(ts, p);
        let a = start.pos;
        let n = crate::syntactic::parse_func::after_visibility(ts, p);
        lemma_optional_generics(ts, n + 2, a, f.generic_params);
        let params = params_at(ts, inner, a + 1);
        let b = params.pos;
        assert(tail_at(ts, inner, a).value is Ok);
        lemma_params_exact(ts, inner, a + 1, b, f.params);
        if f.return_type is Some {
            lemma_type_exact(ts, inner, b + 2, q, f.return_type->0);
        }
        assert(spells_optional_generics(ts, n + 2, a, f.generic_params));
        assert(spells_params(ts, inner, a + 1, b, f.params));
    }
    if spells_header(ts, scopes, p, q, f) {
        let (n, a, b) = choose|n: int, a: int, b: int|
            {
                &&& n == p + 1 && (head(ts, p) == Some(Token::Pub) || head(ts, p) == Some(
                    Token::Priv,
                )) || n == p && head(ts, p) == Some(Token::Fn)
                &&& head(ts, n) == Some(Token::Fn)
                &&& word(ts, n + 1, f.name)
                &&& #[trigger] spells_optional_generics(ts, n + 2, a, f.generic_params)
                &&& head(ts, a) == Some(Token::LParen)
                &&& #[trigger] spells_params(ts, inner, a + 1, b, f.params)
                &&& head(ts, b) == Some(Token::RParen)
                &&& match f.return_type {
                    Some(t) => head(ts, b + 1) == Some(Token::Arrow) && spells(
                        ts,
                        inner,
                        b + 2,
                        q,
                        t,
                    ),
                    None => head(ts, b + 1) != Some(Token::Arrow) && q == b + 1,
                }
            };
        lemma_optional_generics(ts, n + 2, a, f.generic_params);
        lemma_params_exact(ts, inner, a + 1, b, f.params);
        if f.return_type is Some {
            lemma_type_exact(ts, inner, b + 2, q, f.return_type->0);
        }
        assert(start_at(ts, p) == accept((f.name, f.generic_params), a));
    }
}

/// A function declaration is a header with a semicolon behind it.
pub proof fn lemma_declaration_exact(
    ts: Tokens,
    scopes: Seq<Seq<Seq<char>>>,
    p: int,
    q: int,
    f: FnSigV,
)
    ensures
        declaration_at(ts, scopes, p) == accept(f, q) <==> spells_header(ts, scopes, p, q - 1, f)
            && head(ts, q - 1) == Some(Token::Semicolon),
{
    let header = header_at(ts, scopes, p);
    if header.value is Ok {
        lemma_header_exact(ts, scopes, p, header.pos, f);
    }
    lemma_header_exact(ts, scopes, p, q - 1, f);
}

// Models and patterns.

/// The start of a model is read exactly where it is spelled: `model`, the name, type
/// parameters or none, and the opening brace.
pub proof fn lemma_model_exact(
    ts: Tokens,
    p: int,
    q: int,
    name: Seq<char>,
    gs: Seq<TypeParamV>,
)
    ensures
        model_at(ts, p) == accept((name, gs), q) <==> head(ts, p) == Some(Token::Model) && word(
            ts,
            p + 1,
            name,
        ) && spells_optional_generics(ts, p + 2, q - 1, gs) && head(ts, q - 1) == Some(
            Token::LBrace,
        ),
{
    let generics = optional_generics_at(ts, p + 2);
    if generics.value is Ok {
        lemma_optional_generics(ts, p + 2, generics.pos, generics.value->Ok_0);
    }
    lemma_optional_generics(ts, p + 2, q - 1, gs);
}

/// Whether the tokens from `p` up to `q` spell a field of a model: `var` or `let`, the name,
/// a colon, the type, and a semicolon, or `=` where a default value follows.
pub open spec fn spells_field(
    ts: Tokens,
    scopes: Seq<Seq<Seq<char>>>,
    p: int,
    q: int,
    name: Seq<char>,
    t: TypeV,
    default: bool,
) -> bool {
    &&& head(ts, p) == Some(Token::Var) || head(ts, p) == Some(Token::Let)
    &&& word(ts, p + 1, name)
    &&& head(ts, p + 2) == Some(Token::Colon)
    &&& spells(ts, scopes, p + 3, q - 1, t)
    &&& head(ts, q - 1) == Some(
        if default {
            Token::Eq
        } else {
            Token::Semicolon
        },
    )
}

/// What comes next in the body of a model is read exactly where it is spelled: a field,
/// the word `fn` of a function, which is left to be read, or the closing brace.
pub proof fn lemma_member_exact(
    ts: Tokens,
    scopes: Seq<Seq<Seq<char>>>,
    p: int,
    q: int,
    m: ModelMemberV,
)
    ensures
        member_at(ts, scopes, p) == accept(m, q) <==> match m {
            ModelMemberV::End => head(ts, p) == Some(Token::RBrace) && q == p + 1,
            ModelMemberV::Function => head(ts, p) == Some(Token::Fn) && q == p,
            ModelMemberV::Field(name, t, default) => spells_field(
                ts,
                scopes,
                p,
                q,
                name,
                t,
                default,
            ),
        },
{
    let field = field_at(ts, scopes, p + 1);
    let ty = type_at(ts, scopes, p + 3);
    if let ModelMemberV::Field(name, t, default) = m {
        if ty.value is Ok {
            lemma_type_exact(ts, scopes, p + 3, ty.pos, ty.value->Ok_0);
        }
        lemma_type_exact(ts, scopes, p + 3, q - 1, t);
    }
}

/// Whether the tokens from `p` up to `q` spell a pattern: `_`, or an enum, `::` and a
/// variant, with a binding in parentheses or without.
pub open spec fn spells_pattern(ts: Tokens, p: int, q: int, x: PatternV) -> bool {
    match x {
        PatternV::Wildcard => word(ts, p, "_"@) && q == p + 1,
        PatternV::EnumVariant { enum_name, variant_name } => {
            &&& word(ts, p, enum_name) && enum_name != "_"@
            &&& head(ts, p + 1) == Some(Token::PathSep)
            &&& word(ts, p + 2, variant_name)
            &&& head(ts, p + 3) != Some(Token::LParen)
            &&& q == p + 3
        },
        PatternV::EnumVariantWithBinding { enum_name, variant_name, binding } => {
            &&& word(ts, p, enum_name) && enum_name != "_"@
            &&& head(ts, p + 1) == Some(Token::PathSep)
            &&& word(ts, p + 2, variant_name)
            &&& head(ts, p + 3) == Some(Token::LParen)
            &&& word(ts, p + 4, binding)
            &&& head(ts, p + 5) == Some(Token::RParen)
            &&& q == p + 6
        },
    }
}

/// A pattern is read exactly where it is spelled.
pub proof fn lemma_pattern_exact(ts: Tokens, p: int, q: int, x: PatternV)
    ensures
        pattern_at(ts, p) == accept(x, q) <==> spells_pattern(ts, p, q, x),
{
}

} // verus!
