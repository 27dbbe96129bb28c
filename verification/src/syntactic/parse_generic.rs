//! Type parameters, their scopes, and `where` clauses.

use vstd::prelude::*;

use crate::expr::{GenericParam, WhereClause};
use crate::expr::{TypeParamV, WhereClauseV};
use crate::syntactic::{Parser, Token};
use crate::syntactic::{accept, head, ident_at, ran, refuse, token_at, Parsed, Tokens};
use crate::syntactic::parse_type::closed_at;

verus! {

/// Type parameters between angle brackets.
pub open spec fn generics_at(ts: Tokens, p: int) -> Parsed<Seq<TypeParamV>>
    decreases ts.len() - p, 0int,
{
    if head(ts, p) == Some(Token::Lt) {
        let list = generic_list_at(ts, p + 1);
        match list.value {
            Err(e) => refuse(e, list.pos),
            Ok(ps) => closed_at(ts, list.pos, ps, Token::Gt),
        }
    } else {
        refuse(token_at(ts, p, Token::Lt).value->Err_0, p)
    }
}

/// One type parameter: a name, and its bounds after a colon.
pub open spec fn generic_at(ts: Tokens, p: int) -> Parsed<TypeParamV>
    decreases ts.len() - p, 1int,
{
    if head(ts, p) == Some(Token::Ident) {
        if head(ts, p + 1) == Some(Token::Colon) {
            let bounds = bounds_at(ts, p + 2);
            match bounds.value {
                Err(e) => refuse(e, bounds.pos),
                Ok(bs) => accept(TypeParamV { name: ts[p].1, bounds: bs }, bounds.pos),
            }
        } else {
            accept(TypeParamV { name: ts[p].1, bounds: Seq::empty() }, p + 1)
        }
    } else {
        refuse(ident_at(ts, p).value->Err_0, p)
    }
}

/// Type parameters separated by commas, up to the closing bracket.
pub open spec fn generic_list_at(ts: Tokens, p: int) -> Parsed<Seq<TypeParamV>>
    decreases ts.len() - p, 2int,
{
    if head(ts, p) is None || head(ts, p) == Some(Token::Gt) {
        accept(Seq::empty(), p)
    } else {
        let first = generic_at(ts, p);
        match first.value {
            Err(e) => refuse(e, first.pos),
            Ok(g) => if head(ts, first.pos) == Some(Token::Comma) && p <= first.pos {
                let rest = generic_list_at(ts, first.pos + 1);
                match rest.value {
                    Err(e) => refuse(e, rest.pos),
                    Ok(gs) => accept(seq![g] + gs, rest.pos),
                }
            } else {
                accept(seq![g], first.pos)
            },
        }
    }
}

/// Where a bound's own type arguments end: they are read and not kept.
pub open spec fn bound_args_at(ts: Tokens, p: int) -> Parsed<()>
    decreases ts.len() - p, 1int,
{
    if head(ts, p) == Some(Token::Lt) {
        let args = generics_at(ts, p);
        match args.value {
            Err(e) => refuse(e, args.pos),
            Ok(_) => accept((), args.pos),
        }
    } else {
        accept((), p)
    }
}

/// Bounds separated by `+`.
pub open spec fn bounds_at(ts: Tokens, p: int) -> Parsed<Seq<Seq<char>>>
    decreases ts.len() - p, 2int,
{
    if head(ts, p) == Some(Token::Ident) {
        let args = bound_args_at(ts, p + 1);
        match args.value {
            Err(e) => refuse(e, args.pos),
            Ok(_) => if head(ts, args.pos) == Some(Token::Plus) && p <= args.pos {
                let rest = bounds_at(ts, args.pos + 1);
                match rest.value {
                    Err(e) => refuse(e, rest.pos),
                    Ok(bs) => accept(seq![ts[p].1] + bs, rest.pos),
                }
            } else {
                accept(seq![ts[p].1], args.pos)
            },
        }
    } else {
        refuse(ident_at(ts, p).value->Err_0, p)
    }
}

/// The bounds of a `where` clause: names separated by `+`, with a comma behind them
/// where another clause follows. A name that is missing ends them.
pub open spec fn where_bounds_at(ts: Tokens, p: int) -> (Seq<Seq<char>>, int)
    decreases ts.len() - p,
{
    if head(ts, p) == Some(Token::Ident) {
        if head(ts, p + 1) == Some(Token::Plus) {
            let (bs, q) = where_bounds_at(ts, p + 2);
            (seq![ts[p].1] + bs, q)
        } else if head(ts, p + 1) == Some(Token::Comma) {
            (seq![ts[p].1], p + 2)
        } else {
            (seq![ts[p].1], p + 1)
        }
    } else {
        (Seq::empty(), p)
    }
}

/// `where` clauses, as long as a name follows.
pub open spec fn where_at(ts: Tokens, p: int) -> Parsed<Seq<WhereClauseV>>
    decreases ts.len() - p,
{
    if head(ts, p) == Some(Token::Ident) {
        match token_at(ts, p + 1, Token::Colon).value {
            Err(e) => refuse(e, p + 1),
            Ok(_) => {
                let (bounds, q) = where_bounds_at(ts, p + 2);
                let clause = WhereClauseV { type_param: ts[p].1, bounds };
                if p < q <= ts.len() {
                    let rest = where_at(ts, q);
                    match rest.value {
                        Err(e) => refuse(e, rest.pos),
                        Ok(cs) => accept(seq![clause] + cs, rest.pos),
                    }
                } else {
                    accept(seq![clause], q)
                }
            },
        }
    } else {
        accept(Seq::empty(), p)
    }
}

/// The names of type parameters.
pub open spec fn param_names(ps: Seq<TypeParamV>) -> Seq<Seq<char>> {
    ps.map_values(|g: TypeParamV| g.name)
}

impl Parser {
    /// Brings type parameters into scope.
    pub fn push_generic_scope(&mut self, params: &Vec<GenericParam>)
        ensures
            *final(self) == (Parser { generic_scopes: final(self).generic_scopes, ..*old(self) }),
            final(self).scopes() == old(self).scopes().push(param_names(params.deep_view())),
            final(self).generic_scopes@.drop_last() == old(self).generic_scopes@,
    {
        let ghost all = params.deep_view();
        let mut names: Vec<String> = Vec::new();
        let mut i: usize = 0;
        while i < params.len()
            invariant
                i <= params.len(),
                all == params.deep_view(),
                names.len() == i,
                forall|j: int| 0 <= j < i ==> (#[trigger] names@[j])@ == all[j].name,
            decreases params.len() - i,
        {
            assert(all[i as int] == params@[i as int].deep_view());
            match &params[i] {
                GenericParam::Type { name, .. } => {
                    names.push(name.clone());
                },
            }
            i = i + 1;
        }
        assert(names.deep_view() =~= param_names(all));
        let ghost before = self.generic_scopes@;
        let ghost scopes = self.scopes();
        self.generic_scopes.push(names);
        assert(self.generic_scopes@.drop_last() =~= before);
        assert(self.scopes() =~= scopes.push(param_names(all)));
    }

    /// Takes the innermost type parameters out of scope.
    pub fn pop_generic_scope(&mut self)
        ensures
            *final(self) == (Parser { generic_scopes: final(self).generic_scopes, ..*old(self) }),
            final(self).generic_scopes@ == (if old(self).generic_scopes.len() == 0 {
                old(self).generic_scopes@
            } else {
                old(self).generic_scopes@.drop_last()
            }),
    {
        self.generic_scopes.pop();
    }

    /// Reads type parameters between angle brackets.
    pub fn parse_generic_params(&mut self) -> (r: Result<Vec<GenericParam>, String>)
        requires
            old(self).wf(),
        ensures
            ran(*old(self), *final(self), r, generics_at(old(self).toks(), old(self).pos as int)),
        decreases old(self).tokens.len() - old(self).pos, 0int,
    {
        match self.expect(Token::Lt) {
            Ok(_) => {},
            Err(e) => {
                return Err(e);
            },
        }
        let list = match self.parse_generic_list() {
            Ok(l) => l,
            Err(e) => {
                return Err(e);
            },
        };
        match self.expect(Token::Gt) {
            Ok(_) => Ok(list),
            Err(e) => Err(e),
        }
    }

    /// Reads type parameters separated by commas.
    fn parse_generic_list(&mut self) -> (r: Result<Vec<GenericParam>, String>)
        requires
            old(self).wf(),
        ensures
            ran(
                *old(self),
                *final(self),
                r,
                generic_list_at(old(self).toks(), old(self).pos as int),
            ),
        decreases old(self).tokens.len() - old(self).pos, 2int,
    {
        let ghost ts = self.toks();
        let ghost before = *self;
        let ghost want = generic_list_at(ts, self.pos as int);
        let mut params: Vec<GenericParam> = Vec::new();
        let ghost mut done: Seq<TypeParamV> = Seq::empty();
        assert(params.deep_view() =~= done);
        loop
            invariant
                self.wf(),
                ts == self.toks(),
                before == *old(self),
                want == generic_list_at(ts, before.pos as int),
                before.pos <= self.pos,
                *self == (Parser { pos: self.pos, ..before }),
                done == params.deep_view(),
                ({
                    let rest = generic_list_at(ts, self.pos as int);
                    want == match rest.value {
                        Err(e) => refuse(e, rest.pos),
                        Ok(gs) => accept(done + gs, rest.pos),
                    }
                }),
            decreases ts.len() - self.pos,
        {
            match self.peek() {
                None | Some(Token::Gt) => {
                    assert(done + Seq::<TypeParamV>::empty() =~= done);
                    return Ok(params);
                },
                _ => {},
            }
            let param = match self.parse_generic_param() {
                Ok(g) => g,
                Err(e) => {
                    return Err(e);
                },
            };
            let ghost d = param.deep_view();
            let ghost old_done = done;
            params.push(param);
            proof {
                done = done.push(d);
            }
            assert(params.deep_view() =~= done);
            if self.peek() == Some(Token::Comma) {
                self.next();
                proof {
                    let rest = generic_list_at(ts, self.pos as int);
                    if rest.value is Ok {
                        assert(old_done + (seq![d] + rest.value->Ok_0) =~= done + rest.value->Ok_0);
                    }
                }
            } else {
                assert(old_done + seq![d] =~= done);
                return Ok(params);
            }
        }
    }

    /// Reads one type parameter.
    fn parse_generic_param(&mut self) -> (r: Result<GenericParam, String>)
        requires
            old(self).wf(),
        ensures
            ran(*old(self), *final(self), r, generic_at(old(self).toks(), old(self).pos as int)),
        decreases old(self).tokens.len() - old(self).pos, 1int,
    {
        let name = match self.parse_ident() {
            Ok(n) => n,
            Err(e) => {
                return Err(e);
            },
        };
        if self.peek() == Some(Token::Colon) {
            self.next();
            match self.parse_bounds() {
                Ok(bounds) => Ok(GenericParam::Type { name, bounds }),
                Err(e) => Err(e),
            }
        } else {
            let bounds: Vec<String> = Vec::new();
            assert(bounds.deep_view() =~= Seq::empty());
            Ok(GenericParam::Type { name, bounds })
        }
    }

    /// Reads the type arguments of a bound, if there are any.
    fn parse_bound_args(&mut self) -> (r: Result<(), String>)
        requires
            old(self).wf(),
        ensures
            ran(*old(self), *final(self), r, bound_args_at(old(self).toks(), old(self).pos as int)),
        decreases old(self).tokens.len() - old(self).pos, 1int,
    {
        if self.peek() == Some(Token::Lt) {
            match self.parse_generic_params() {
                Ok(_) => Ok(()),
                Err(e) => Err(e),
            }
        } else {
            Ok(())
        }
    }

    /// Reads bounds separated by `+`.
    fn parse_bounds(&mut self) -> (r: Result<Vec<String>, String>)
        requires
            old(self).wf(),
        ensures
            ran(*old(self), *final(self), r, bounds_at(old(self).toks(), old(self).pos as int)),
        decreases old(self).tokens.len() - old(self).pos, 2int,
    {
        let ghost ts = self.toks();
        let ghost before = *self;
        let ghost want = bounds_at(ts, self.pos as int);
        let mut bounds: Vec<String> = Vec::new();
        let ghost mut done: Seq<Seq<char>> = Seq::empty();
        assert(bounds.deep_view() =~= done);
        loop
            invariant
                self.wf(),
                ts == self.toks(),
                before == *old(self),
                want == bounds_at(ts, before.pos as int),
                before.pos <= self.pos,
                *self == (Parser { pos: self.pos, ..before }),
                done == bounds.deep_view(),
                ({
                    let rest = bounds_at(ts, self.pos as int);
                    want == match rest.value {
                        Err(e) => refuse(e, rest.pos),
                        Ok(bs) => accept(done + bs, rest.pos),
                    }
                }),
            decreases ts.len() - self.pos,
        {
            let bound = match self.parse_ident() {
                Ok(b) => b,
                Err(e) => {
                    return Err(e);
                },
            };
            let ghost d = bound@;
            let ghost old_done = done;
            bounds.push(bound);
            proof {
                done = done.push(d);
            }
            assert(bounds.deep_view() =~= done);
            match self.parse_bound_args() {
                Ok(_) => {},
                Err(e) => {
                    return Err(e);
                },
            }
            if self.peek() == Some(Token::Plus) {
                self.next();
                proof {
                    let rest = bounds_at(ts, self.pos as int);
                    if rest.value is Ok {
                        assert(old_done + (seq![d] + rest.value->Ok_0) =~= done + rest.value->Ok_0);
                    }
                }
            } else {
                assert(old_done + seq![d] =~= done);
                return Ok(bounds);
            }
        }
    }

    /// Reads the bounds of a `where` clause.
    fn parse_where_bounds(&mut self) -> (r: Vec<String>)
        requires
            old(self).wf(),
        ensures
            *final(self) == (Parser { pos: final(self).pos, ..*old(self) }),
            old(self).pos <= final(self).pos <= old(self).tokens.len(),
            (r.deep_view(), final(self).pos as int) == where_bounds_at(
                old(self).toks(),
                old(self).pos as int,
            ),
    {
        let ghost ts = self.toks();
        let ghost before = *self;
        let ghost want = where_bounds_at(ts, self.pos as int);
        let mut bounds: Vec<String> = Vec::new();
        let ghost mut done: Seq<Seq<char>> = Seq::empty();
        assert(bounds.deep_view() =~= done);
        assert(done + where_bounds_at(ts, self.pos as int).0 =~= want.0);
        loop
            invariant
                self.wf(),
                ts == self.toks(),
                before == *old(self),
                want == where_bounds_at(ts, before.pos as int),
                before.pos <= self.pos,
                *self == (Parser { pos: self.pos, ..before }),
                done == bounds.deep_view(),
                want.0 == done + where_bounds_at(ts, self.pos as int).0,
                want.1 == where_bounds_at(ts, self.pos as int).1,
            decreases ts.len() - self.pos,
        {
            if self.peek() != Some(Token::Ident) {
                assert(done + Seq::<Seq<char>>::empty() =~= done);
                return bounds;
            }
            let bound = self.text();
            let ghost d = bound@;
            let ghost old_done = done;
            self.next();
            bounds.push(bound);
            proof {
                done = done.push(d);
            }
            assert(bounds.deep_view() =~= done);
            match self.peek() {
                Some(Token::Plus) => {
                    self.next();
                    proof {
                        let rest = where_bounds_at(ts, self.pos as int).0;
                        assert(old_done + (seq![d] + rest) =~= done + rest);
                    }
                },
                Some(Token::Comma) => {
                    self.next();
                    assert(old_done + seq![d] =~= done);
                    return bounds;
                },
                _ => {
                    assert(old_done + seq![d] =~= done);
                    return bounds;
                },
            }
        }
    }

    /// Reads `where` clauses.
    pub fn parse_where_clause(&mut self) -> (r: Result<Vec<WhereClause>, String>)
        requires
            old(self).wf(),
        ensures
            ran(*old(self), *final(self), r, where_at(old(self).toks(), old(self).pos as int)),
    {
        let ghost ts = self.toks();
        let ghost before = *self;
        let ghost want = where_at(ts, self.pos as int);
        let mut clauses: Vec<WhereClause> = Vec::new();
        let ghost mut done: Seq<WhereClauseV> = Seq::empty();
        assert(clauses.deep_view() =~= done);
        loop
            invariant
                self.wf(),
                ts == self.toks(),
                before == *old(self),
                want == where_at(ts, before.pos as int),
                before.pos <= self.pos,
                *self == (Parser { pos: self.pos, ..before }),
                done == clauses.deep_view(),
                ({
                    let rest = where_at(ts, self.pos as int);
                    want == match rest.value {
                        Err(e) => refuse(e, rest.pos),
                        Ok(cs) => accept(done + cs, rest.pos),
                    }
                }),
            decreases ts.len() - self.pos,
        {
            if self.peek() != Some(Token::Ident) {
                assert(done + Seq::<WhereClauseV>::empty() =~= done);
                return Ok(clauses);
            }
            let name = self.text();
            self.next();
            match self.expect(Token::Colon) {
                Ok(_) => {},
                Err(e) => {
                    return Err(e);
                },
            }
            let bounds = self.parse_where_bounds();
            let clause = WhereClause { type_param: name, bounds };
            let ghost d = clause.deep_view();
            let ghost old_done = done;
            clauses.push(clause);
            proof {
                done = done.push(d);
                let rest = where_at(ts, self.pos as int);
                if rest.value is Ok {
                    assert(old_done + (seq![d] + rest.value->Ok_0) =~= done + rest.value->Ok_0);
                }
            }
            assert(clauses.deep_view() =~= done);
        }
    }
}

} // verus!
