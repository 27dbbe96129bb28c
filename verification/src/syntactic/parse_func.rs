//! Function declarations and definitions.

use vstd::prelude::*;

use crate::ast::Type;
use crate::ast::TypeV;
use crate::const_eval::told;
use crate::expr::{Attribute, Block, FnDef, FnSig, GenericParam, Param};
use crate::expr::{FnSigV, ParamV, TypeParamV};
use crate::syntactic::{Parser, Token};
use crate::syntactic::{accept, head, ident_at, ran, reads, refuse, token_at, Parsed, Read, Tokens};
use crate::syntactic::parse_generic::{generics_at, param_names};
use crate::syntactic::parse_type::{closed_at, type_at};

verus! {

/// What a function declaration and a function definition have in common.
pub struct FnHeader {
    pub name: String,
    pub generic_params: Vec<GenericParam>,
    pub params: Vec<Param>,
    pub return_type: Option<Type>,
}

impl DeepView for FnHeader {
    type V = FnSigV;

    open spec fn deep_view(&self) -> FnSigV {
        FnSigV {
            name: self.name@,
            params: self.params.deep_view(),
            return_type: self.return_type.deep_view(),
            generic_params: self.generic_params.deep_view(),
        }
    }
}

/// The parameter `self` with the given type.
pub open spec fn self_param(ty: TypeV) -> ParamV {
    ParamV { name: "self"@, ty }
}

/// The place after an optional comma.
pub open spec fn after_comma(ts: Tokens, p: int) -> int {
    if head(ts, p) == Some(Token::Comma) {
        p + 1
    } else {
        p
    }
}

/// The parameters of a function, up to the closing parenthesis. `self`, `&self` and
/// `&mut self` stand for themselves; every other parameter has a name and a type.
pub open spec fn params_at(ts: Tokens, scopes: Seq<Seq<Seq<char>>>, p: int) -> Parsed<Seq<ParamV>>
    decreases ts.len() - p,
{
    if head(ts, p) is None || head(ts, p) == Some(Token::RParen) {
        accept(Seq::empty(), p)
    } else if head(ts, p) == Some(Token::Amp) {
        let mutable = head(ts, p + 1) == Some(Token::Mut);
        let q = if mutable {
            p + 2
        } else {
            p + 1
        };
        if head(ts, q) == Some(Token::SelfLower) {
            let rest = params_at(ts, scopes, after_comma(ts, q + 1));
            let first = self_param(TypeV::Ref { mutable, inner: Box::new(TypeV::SelfType) });
            match rest.value {
                Err(e) => refuse(e, rest.pos),
                Ok(ps) => accept(seq![first] + ps, rest.pos),
            }
        } else {
            refuse("Expected 'self' after '&'"@, q)
        }
    } else if head(ts, p) == Some(Token::SelfLower) {
        let rest = params_at(ts, scopes, after_comma(ts, p + 1));
        match rest.value {
            Err(e) => refuse(e, rest.pos),
            Ok(ps) => accept(seq![self_param(TypeV::SelfType)] + ps, rest.pos),
        }
    } else {
        let first = param_at(ts, scopes, p);
        match first.value {
            Err(e) => refuse(e, first.pos),
            Ok(param) => if head(ts, first.pos) == Some(Token::Comma) && p <= first.pos {
                let rest = params_at(ts, scopes, first.pos + 1);
                match rest.value {
                    Err(e) => refuse(e, rest.pos),
                    Ok(ps) => accept(seq![param] + ps, rest.pos),
                }
            } else {
                accept(seq![param], first.pos)
            },
        }
    }
}

/// A parameter with a name and a type.
pub open spec fn param_at(ts: Tokens, scopes: Seq<Seq<Seq<char>>>, p: int) -> Parsed<ParamV> {
    let name = ident_at(ts, p);
    match name.value {
        Err(e) => refuse(e, name.pos),
        Ok(n) => match token_at(ts, p + 1, Token::Colon).value {
            Err(e) => refuse(e, p + 1),
            Ok(_) => {
                let ty = type_at(ts, scopes, p + 2);
                match ty.value {
                    Err(e) => refuse(e, ty.pos),
                    Ok(t) => accept(ParamV { name: n, ty: t }, ty.pos),
                }
            },
        },
    }
}

/// The parameters of a function in parentheses, and its return type after an arrow.
pub open spec fn tail_at(ts: Tokens, scopes: Seq<Seq<Seq<char>>>, p: int) -> Parsed<
    (Seq<ParamV>, Option<TypeV>),
> {
    match token_at(ts, p, Token::LParen).value {
        Err(e) => refuse(e, p),
        Ok(_) => {
            let params = params_at(ts, scopes, p + 1);
            match params.value {
                Err(e) => refuse(e, params.pos),
                Ok(ps) => match token_at(ts, params.pos, Token::RParen).value {
                    Err(e) => refuse(e, params.pos),
                    Ok(_) => if head(ts, params.pos + 1) == Some(Token::Arrow) {
                        let ret = type_at(ts, scopes, params.pos + 2);
                        match ret.value {
                            Err(e) => refuse(e, ret.pos),
                            Ok(t) => accept((ps, Some(t)), ret.pos),
                        }
                    } else {
                        accept((ps, None), params.pos + 1)
                    },
                },
            }
        },
    }
}

/// The place of `fn`, after an optional visibility.
pub open spec fn after_visibility(ts: Tokens, p: int) -> int {
    if head(ts, p) == Some(Token::Pub) || head(ts, p) == Some(Token::Priv) {
        p + 1
    } else {
        p
    }
}

/// Type parameters, if there are any.
pub open spec fn optional_generics_at(ts: Tokens, p: int) -> Parsed<Seq<TypeParamV>> {
    if head(ts, p) == Some(Token::Lt) {
        generics_at(ts, p)
    } else {
        accept(Seq::empty(), p)
    }
}

/// The start of a function: visibility, `fn`, name and type parameters.
pub open spec fn start_at(ts: Tokens, p: int) -> Parsed<(Seq<char>, Seq<TypeParamV>)> {
    let q = after_visibility(ts, p);
    match token_at(ts, q, Token::Fn).value {
        Err(e) => refuse(e, q),
        Ok(_) => {
            let name = ident_at(ts, q + 1);
            match name.value {
                Err(e) => refuse(e, name.pos),
                Ok(n) => {
                    let generics = optional_generics_at(ts, q + 2);
                    match generics.value {
                        Err(e) => refuse(e, generics.pos),
                        Ok(gs) => accept((n, gs), generics.pos),
                    }
                },
            }
        },
    }
}

/// A function header: its start, its parameters and its return type. The types see
/// the type parameters.
pub open spec fn header_at(ts: Tokens, scopes: Seq<Seq<Seq<char>>>, p: int) -> Parsed<FnSigV> {
    let start = start_at(ts, p);
    match start.value {
        Err(e) => refuse(e, start.pos),
        Ok(s) => {
            let tail = tail_at(ts, scopes.push(param_names(s.1)), start.pos);
            match tail.value {
                Err(e) => refuse(e, tail.pos),
                Ok(t) => accept(
                    FnSigV {
                        name: s.0,
                        params: t.0,
                        return_type: t.1,
                        generic_params: s.1,
                    },
                    tail.pos,
                ),
            }
        },
    }
}

/// A function declaration: a header and a semicolon.
pub open spec fn declaration_at(ts: Tokens, scopes: Seq<Seq<Seq<char>>>, p: int) -> Parsed<FnSigV> {
    let header = header_at(ts, scopes, p);
    match header.value {
        Err(e) => refuse(e, header.pos),
        Ok(h) => closed_at(ts, header.pos, h, Token::Semicolon),
    }
}

/// Whether a parser is at `after` from `before` once a header was read, with the type
/// parameters of the header in scope.
pub open spec fn header_read(before: Parser, after: Parser, h: FnSigV) -> bool {
    &&& after == (Parser { pos: after.pos, generic_scopes: after.generic_scopes, ..before })
    &&& after.pos == header_at(before.toks(), before.scopes(), before.pos as int).pos
    &&& after.scopes() == before.scopes().push(param_names(h.generic_params))
    &&& after.generic_scopes@.drop_last() == before.generic_scopes@
}

/// Whether `after` is `before` without the innermost scope.
pub open spec fn scope_closed(before: Parser, after: Parser) -> bool {
    &&& after == (Parser { generic_scopes: after.generic_scopes, ..before })
    &&& after.generic_scopes@ == (if before.generic_scopes.len() == 0 {
        before.generic_scopes@
    } else {
        before.generic_scopes@.drop_last()
    })
}

/// Whether a function definition has the given attributes, header and body.
pub open spec fn defines(d: FnDef, attributes: Vec<Attribute>, h: FnSigV, body: Block) -> bool {
    &&& d.attributes == attributes
    &&& d.name@ == h.name
    &&& d.generic_params.deep_view() == h.generic_params
    &&& d.params.deep_view() == h.params
    &&& d.return_type.deep_view() == h.return_type
    &&& d.body == body
}

/// Whether reading a function definition may take the parser from `before` to `after`
/// and give `r`: the header, then the body with the type parameters in scope.
pub open spec fn func_read<B: Fn(Parser) -> Read<Block>>(
    b: B,
    attributes: Vec<Attribute>,
    before: Parser,
    after: Parser,
    r: Result<FnDef, String>,
) -> bool {
    let want = header_at(before.toks(), before.scopes(), before.pos as int);
    match want.value {
        Err(text) => {
            &&& r matches Err(e) && e@ == text
            &&& after == (Parser { pos: after.pos, generic_scopes: after.generic_scopes, ..before })
            &&& after.pos == want.pos
            &&& after.generic_scopes@ == before.generic_scopes@
        },
        Ok(h) => exists|start: Parser, done: Parser, body: Result<Block, String>|
            {
                &&& header_read(before, start, h)
                &&& #[trigger] call_ensures(b, (start,), (done, body))
                &&& scope_closed(done, after)
                &&& match body {
                    Err(e) => r == Err::<FnDef, String>(e),
                    Ok(block) => r matches Ok(d) && defines(d, attributes, h, block),
                }
            },
    }
}

impl Parser {
    /// Moves past a comma, if there is one.
    fn skip_comma(&mut self)
        requires
            old(self).wf(),
        ensures
            *final(self) == (Parser { pos: final(self).pos, ..*old(self) }),
            final(self).pos == after_comma(old(self).toks(), old(self).pos as int),
            final(self).wf(),
            final(self).pos >= old(self).pos,
    {
        if self.peek() == Some(Token::Comma) {
            self.next();
        }
    }

    /// Reads a parameter with a name and a type.
    fn parse_param(&mut self) -> (r: Result<Param, String>)
        requires
            old(self).wf(),
        ensures
            ran(
                *old(self),
                *final(self),
                r,
                param_at(old(self).toks(), old(self).scopes(), old(self).pos as int),
            ),
    {
        let name = match self.parse_ident() {
            Ok(n) => n,
            Err(e) => {
                return Err(e);
            },
        };
        match self.expect(Token::Colon) {
            Ok(_) => {},
            Err(e) => {
                return Err(e);
            },
        }
        match self.parse_type() {
            Ok(ty) => Ok(Param { name, ty }),
            Err(e) => Err(e),
        }
    }

    /// Reads the parameters of a function.
    pub fn parse_params(&mut self) -> (r: Result<Vec<Param>, String>)
        requires
            old(self).wf(),
        ensures
            ran(
                *old(self),
                *final(self),
                r,
                params_at(old(self).toks(), old(self).scopes(), old(self).pos as int),
            ),
    {
        let ghost ts = self.toks();
        let ghost sc = self.scopes();
        let ghost before = *self;
        let ghost want = params_at(ts, sc, self.pos as int);
        let mut params: Vec<Param> = Vec::new();
        let ghost mut done: Seq<ParamV> = Seq::empty();
        assert(params.deep_view() =~= done);
        loop
            invariant
                self.wf(),
                ts == self.toks(),
                sc == self.scopes(),
                before == *old(self),
                want == params_at(ts, sc, before.pos as int),
                before.pos <= self.pos,
                *self == (Parser { pos: self.pos, ..before }),
                done == params.deep_view(),
                ({
                    let rest = params_at(ts, sc, self.pos as int);
                    want == match rest.value {
                        Err(e) => refuse(e, rest.pos),
                        Ok(ps) => accept(done + ps, rest.pos),
                    }
                }),
            decreases ts.len() - self.pos,
        {
            proof {
                reveal_with_fuel(crate::ast::type_view, 2);
            }
            let param;
            let is_self;
            match self.peek() {
                None | Some(Token::RParen) => {
                    assert(done + Seq::<ParamV>::empty() =~= done);
                    return Ok(params);
                },
                Some(Token::Amp) => {
                    self.next();
                    let mutable = self.peek() == Some(Token::Mut);
                    if mutable {
                        self.next();
                    }
                    if self.peek() != Some(Token::SelfLower) {
                        return Err("Expected 'self' after '&'".to_owned());
                    }
                    self.next();
                    param = Param {
                        name: "self".to_owned(),
                        ty: Type::Ref { mutable, inner: Box::new(Type::SelfType) },
                    };
                    is_self = true;
                },
                Some(Token::SelfLower) => {
                    self.next();
                    param = Param { name: "self".to_owned(), ty: Type::SelfType };
                    is_self = true;
                },
                _ => {
                    param = match self.parse_param() {
                        Ok(p) => p,
                        Err(e) => {
                            return Err(e);
                        },
                    };
                    is_self = false;
                },
            }
            let ghost d = param.deep_view();
            let ghost old_done = done;
            params.push(param);
            proof {
                done = done.push(d);
            }
            assert(params.deep_view() =~= done);
            if !is_self && self.peek() != Some(Token::Comma) {
                assert(old_done + seq![d] =~= done);
                return Ok(params);
            }
            self.skip_comma();
            proof {
                let rest = params_at(ts, sc, self.pos as int);
                if rest.value is Ok {
                    assert(old_done + (seq![d] + rest.value->Ok_0) =~= done + rest.value->Ok_0);
                }
            }
        }
    }

    /// Reads the parameters in parentheses and the return type.
    fn parse_func_signature_tail(&mut self) -> (r: Result<(Vec<Param>, Option<Type>), String>)
        requires
            old(self).wf(),
        ensures
            ran(
                *old(self),
                *final(self),
                r,
                tail_at(old(self).toks(), old(self).scopes(), old(self).pos as int),
            ),
    {
        match self.expect(Token::LParen) {
            Ok(_) => {},
            Err(e) => {
                return Err(e);
            },
        }
        let params = match self.parse_params() {
            Ok(p) => p,
            Err(e) => {
                return Err(e);
            },
        };
        match self.expect(Token::RParen) {
            Ok(_) => {},
            Err(e) => {
                return Err(e);
            },
        }
        if self.peek() == Some(Token::Arrow) {
            self.next();
            match self.parse_type() {
                Ok(t) => Ok((params, Some(t))),
                Err(e) => Err(e),
            }
        } else {
            Ok((params, None))
        }
    }

    /// Reads the start of a function.
    fn parse_func_start(&mut self) -> (r: Result<(String, Vec<GenericParam>), String>)
        requires
            old(self).wf(),
        ensures
            ran(*old(self), *final(self), r, start_at(old(self).toks(), old(self).pos as int)),
            r is Ok ==> old(self).pos < final(self).pos,
    {
        match self.peek() {
            Some(Token::Pub) | Some(Token::Priv) => {
                self.next();
            },
            _ => {},
        }
        match self.expect(Token::Fn) {
            Ok(_) => {},
            Err(e) => {
                return Err(e);
            },
        }
        let name = match self.parse_ident() {
            Ok(n) => n,
            Err(e) => {
                return Err(e);
            },
        };
        let generic_params = if self.peek() == Some(Token::Lt) {
            match self.parse_generic_params() {
                Ok(g) => g,
                Err(e) => {
                    return Err(e);
                },
            }
        } else {
            let none: Vec<GenericParam> = Vec::new();
            assert(none.deep_view() =~= Seq::empty());
            none
        };
        Ok((name, generic_params))
    }

    /// Reads a function header. Where it can be read, its type parameters are left in
    /// scope, for the body that may follow; where not, the scopes are as before.
    pub fn parse_func_header(&mut self) -> (r: Result<FnHeader, String>)
        requires
            old(self).wf(),
        ensures
            ({
                let want = header_at(old(self).toks(), old(self).scopes(), old(self).pos as int);
                &&& told(r) == want.value
                &&& final(self).pos == want.pos
                &&& old(self).pos <= final(self).pos <= old(self).tokens.len()
                &&& *final(self) == (Parser {
                    pos: final(self).pos,
                    generic_scopes: final(self).generic_scopes,
                    ..*old(self)
                })
                &&& match r {
                    Ok(h) => {
                        &&& old(self).pos < final(self).pos
                        &&& final(self).scopes() == old(self).scopes().push(
                            param_names(h.generic_params.deep_view()),
                        )
                        &&& final(self).generic_scopes.len() > 0
                        &&& final(self).generic_scopes@.drop_last() == old(self).generic_scopes@
                    },
                    Err(_) => final(self).generic_scopes@ == old(self).generic_scopes@,
                }
            }),
    {
        let (name, generic_params) = match self.parse_func_start() {
            Ok(s) => s,
            Err(e) => {
                return Err(e);
            },
        };
        let ghost gs = generic_params.deep_view();
        self.push_generic_scope(&generic_params);
        let ghost pushed = *self;
        assert(pushed.toks() == old(self).toks());
        assert(pushed.scopes() == old(self).scopes().push(param_names(gs)));
        assert(pushed.generic_scopes@.drop_last() == old(self).generic_scopes@);
        match self.parse_func_signature_tail() {
            Ok(tail) => {
                assert(self.generic_scopes == pushed.generic_scopes);
                let (params, return_type) = tail;
                Ok(FnHeader { name, generic_params, params, return_type })
            },
            Err(e) => {
                self.pop_generic_scope();
                assert(self.generic_scopes@ == old(self).generic_scopes@);
                Err(e)
            },
        }
    }

    /// Reads a function declaration. The scopes are as before, whether it can be read
    /// or not.
    pub fn parse_func_sig(&mut self) -> (r: Result<FnSig, String>)
        requires
            old(self).wf(),
        ensures
            ({
                let want = declaration_at(
                    old(self).toks(),
                    old(self).scopes(),
                    old(self).pos as int,
                );
                &&& told(r) == want.value
                &&& final(self).pos == want.pos
                &&& old(self).pos <= final(self).pos <= old(self).tokens.len()
                &&& *final(self) == (Parser {
                    pos: final(self).pos,
                    generic_scopes: final(self).generic_scopes,
                    ..*old(self)
                })
                &&& final(self).generic_scopes@ == old(self).generic_scopes@
            }),
    {
        let header = match self.parse_func_header() {
            Ok(h) => h,
            Err(e) => {
                return Err(e);
            },
        };
        self.pop_generic_scope();
        match self.expect(Token::Semicolon) {
            Ok(_) => Ok(
                FnSig {
                    name: header.name,
                    params: header.params,
                    return_type: header.return_type,
                    generic_params: header.generic_params,
                },
            ),
            Err(e) => Err(e),
        }
    }

    /// Reads a function definition. The type parameters are in scope while the body is
    /// read, and go out of scope whether it can be read or not.
    pub fn parse_func_def<B: Copy + Fn(Parser) -> Read<Block>>(
        &mut self,
        attributes: Vec<Attribute>,
        parse_block: B,
    ) -> (r: Result<FnDef, String>)
        requires
            old(self).wf(),
            reads(parse_block),
        ensures
            func_read(parse_block, attributes, *old(self), *final(self), r),
            final(self).wf(),
            final(self).tokens == old(self).tokens,
            old(self).pos <= final(self).pos,
            r is Ok ==> old(self).pos < final(self).pos,
    {
        let header = match self.parse_func_header() {
            Ok(h) => h,
            Err(e) => {
                return Err(e);
            },
        };
        let ghost start = *self;
        let body = self.ask(parse_block);
        let ghost done = *self;
        self.pop_generic_scope();
        assert(call_ensures(parse_block, (start,), (done, body)));
        match body {
            Ok(b) => Ok(
                FnDef {
                    attributes,
                    name: header.name,
                    generic_params: header.generic_params,
                    params: header.params,
                    return_type: header.return_type,
                    body: b,
                },
            ),
            Err(e) => Err(e),
        }
    }
}

} // verus!
