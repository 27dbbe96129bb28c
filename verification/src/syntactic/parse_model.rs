//! Model definitions.

use vstd::prelude::*;

use crate::ast::TypeV;
use crate::const_eval::told;
use crate::expr::{Attribute, Block, Expr, FnDef, GenericParam, ModelField};
use crate::expr::TypeParamV;
use crate::item::ModelDef;
use crate::syntactic::{Parser, Token};
use crate::syntactic::{accept, head, ident_at, ran, reads, refuse, token_at, Parsed, Read, Tokens};
use crate::syntactic::parse_func::{func_read, optional_generics_at};
use crate::syntactic::parse_type::{closed_at, type_at};

verus! {

/// What comes next in the body of a model.
#[derive(Debug)]
pub enum ModelMember {
    /// The end of the body.
    End,
    /// A field; the flag tells that a default value follows.
    Field(ModelField, bool),
    /// A function.
    Function,
}

/// Model of a `ModelMember`.
pub enum ModelMemberV {
    End,
    Field(Seq<char>, TypeV, bool),
    Function,
}

impl DeepView for ModelMember {
    type V = ModelMemberV;

    open spec fn deep_view(&self) -> ModelMemberV {
        match *self {
            ModelMember::End => ModelMemberV::End,
            ModelMember::Field(f, d) => ModelMemberV::Field(f.name@, f.ty.deep_view(), d),
            ModelMember::Function => ModelMemberV::Function,
        }
    }
}

/// The start of a model: `model`, its name, its type parameters and the opening brace.
pub open spec fn model_at(ts: Tokens, p: int) -> Parsed<(Seq<char>, Seq<TypeParamV>)> {
    match token_at(ts, p, Token::Model).value {
        Err(e) => refuse(e, p),
        Ok(_) => {
            let name = ident_at(ts, p + 1);
            match name.value {
                Err(e) => refuse(e, name.pos),
                Ok(n) => {
                    let generics = optional_generics_at(ts, p + 2);
                    match generics.value {
                        Err(e) => refuse(e, generics.pos),
                        Ok(gs) => closed_at(ts, generics.pos, (n, gs), Token::LBrace),
                    }
                },
            }
        },
    }
}

/// A field of a model from its name on: up to the semicolon, or to the default value
/// after `=`.
pub open spec fn field_at(ts: Tokens, scopes: Seq<Seq<Seq<char>>>, p: int) -> Parsed<ModelMemberV> {
    let name = ident_at(ts, p);
    match name.value {
        Err(e) => refuse(e, name.pos),
        Ok(n) => match token_at(ts, p + 1, Token::Colon).value {
            Err(e) => refuse(e, p + 1),
            Ok(_) => {
                let ty = type_at(ts, scopes, p + 2);
                match ty.value {
                    Err(e) => refuse(e, ty.pos),
                    Ok(t) => if head(ts, ty.pos) == Some(Token::Eq) {
                        accept(ModelMemberV::Field(n, t, true), ty.pos + 1)
                    } else {
                        closed_at(
                            ts,
                            ty.pos,
                            ModelMemberV::Field(n, t, false),
                            Token::Semicolon,
                        )
                    },
                }
            },
        },
    }
}

/// What comes next in the body of a model: a field after `var` or `let`, a function,
/// or the closing brace.
pub open spec fn member_at(ts: Tokens, scopes: Seq<Seq<Seq<char>>>, p: int) -> Parsed<ModelMemberV> {
    match head(ts, p) {
        None => refuse(token_at(ts, p, Token::RBrace).value->Err_0, p),
        Some(Token::RBrace) => accept(ModelMemberV::End, p + 1),
        Some(Token::Var) => field_at(ts, scopes, p + 1),
        Some(Token::Let) => field_at(ts, scopes, p + 1),
        Some(Token::Fn) => accept(ModelMemberV::Function, p),
        Some(_) => refuse(
            "Expected field (var/let) or function (fn) definition in model block"@,
            p,
        ),
    }
}

/// The end of a field whose default value was read: the semicolon.
pub open spec fn default_ended(before: Parser, after: Parser, r: Result<(), Seq<char>>) -> bool {
    let want = token_at(before.toks(), before.pos as int, Token::Semicolon);
    &&& r == want.value
    &&& after == (Parser { pos: after.pos, ..before })
    &&& after.pos == want.pos
}

/// What was read of the body of a model: its fields and functions, and how it ended if
/// it has.
pub struct ModelBody {
    pub fields: Seq<ModelField>,
    pub functions: Seq<FnDef>,
    pub end: Option<Result<(), Seq<char>>>,
}

/// Whether reading a default value and the semicolon after it may take the parser from
/// `before` to `after` and give `r`.
pub open spec fn default_read<E: Fn(Parser) -> Read<Expr>>(
    e: E,
    before: Parser,
    after: Parser,
    r: Result<(), Seq<char>>,
) -> bool {
    exists|mid: Parser, v: Result<Expr, String>|
        {
            &&& #[trigger] call_ensures(e, (before,), (mid, v))
            &&& match v {
                Err(text) => after == mid && r == Err::<(), Seq<char>>(text@),
                Ok(_) => default_ended(mid, after, r),
            }
        }
}

/// Whether reading the attributes and the definition of a function may take the parser
/// from `before` to `after` and give `r`.
pub open spec fn method_read<
    A: Fn(Parser) -> Read<Vec<Attribute>>,
    B: Fn(Parser) -> Read<Block>,
>(a: A, b: B, before: Parser, after: Parser, r: Result<FnDef, String>) -> bool {
    exists|mid: Parser, attributes: Result<Vec<Attribute>, String>|
        {
            &&& #[trigger] call_ensures(a, (before,), (mid, attributes))
            &&& match attributes {
                Err(text) => after == mid && r == Err::<FnDef, String>(text),
                Ok(list) => func_read(b, list, mid, after, r),
            }
        }
}

/// Whether reading one member of a model may take the parser from `before` to `after`
/// and what was read from `old_body` to `new_body`.
pub open spec fn member_read<
    A: Fn(Parser) -> Read<Vec<Attribute>>,
    E: Fn(Parser) -> Read<Expr>,
    B: Fn(Parser) -> Read<Block>,
>(
    a: A,
    e: E,
    b: B,
    before: Parser,
    old_body: ModelBody,
    after: Parser,
    new_body: ModelBody,
) -> bool {
    let want = member_at(before.toks(), before.scopes(), before.pos as int);
    exists|mid: Parser|
        {
            &&& #[trigger] moved(before, mid, want.pos)
            &&& match want.value {
                Err(text) => {
                    &&& after == mid
                    &&& new_body == (ModelBody { end: Some(Err(text)), ..old_body })
                },
                Ok(ModelMemberV::End) => {
                    &&& after == mid
                    &&& new_body == (ModelBody { end: Some(Ok(())), ..old_body })
                },
                Ok(ModelMemberV::Field(name, ty, default)) => exists|
                    f: ModelField,
                    r: Result<(), Seq<char>>,
                |
                    {
                        &&& f.name@ == name && f.ty.deep_view() == ty
                        &&& if default {
                            default_read(e, mid, after, r)
                        } else {
                            after == mid && r is Ok
                        }
                        &&& new_body == (#[trigger] field_added(old_body, f, r))
                    },
                Ok(ModelMemberV::Function) => exists|r: Result<FnDef, String>|
                    {
                        &&& method_read(a, b, mid, after, r)
                        &&& new_body == (#[trigger] function_added(old_body, r))
                    },
            }
        }
}

/// Whether `after` is `before` at another place.
pub open spec fn moved(before: Parser, after: Parser, pos: int) -> bool {
    after == (Parser { pos: after.pos, ..before }) && after.pos == pos
}

/// A body with one more field, or with the error in reading it.
pub open spec fn field_added(body: ModelBody, f: ModelField, r: Result<(), Seq<char>>) -> ModelBody {
    match r {
        Ok(_) => ModelBody { fields: body.fields.push(f), ..body },
        Err(e) => ModelBody { end: Some(Err(e)), ..body },
    }
}

/// A body with one more function, or with the error in reading it.
pub open spec fn function_added(body: ModelBody, r: Result<FnDef, String>) -> ModelBody {
    match r {
        Ok(d) => ModelBody { functions: body.functions.push(d), ..body },
        Err(e) => ModelBody { end: Some(Err(e@)), ..body },
    }
}

/// A body of which nothing was read.
pub open spec fn unread() -> ModelBody {
    ModelBody { fields: Seq::empty(), functions: Seq::empty(), end: None }
}

/// Whether reading `n` members of a model may take the parser from `before` to `after`
/// and give `body`.
pub open spec fn members_read<
    A: Fn(Parser) -> Read<Vec<Attribute>>,
    E: Fn(Parser) -> Read<Expr>,
    B: Fn(Parser) -> Read<Block>,
>(a: A, e: E, b: B, n: int, before: Parser, after: Parser, body: ModelBody) -> bool
    decreases n,
{
    if n <= 0 {
        after == before && body == unread()
    } else {
        exists|mid: Parser, front: ModelBody|
            {
                &&& members_read(a, e, b, n - 1, before, mid, front)
                &&& front.end is None
                &&& #[trigger] member_read(a, e, b, mid, front, after, body)
            }
    }
}

/// Whether reading a model may take the parser from `before` to `after` and give `r`: its
/// start, then its members up to the closing brace or the first error.
pub open spec fn model_read<
    A: Fn(Parser) -> Read<Vec<Attribute>>,
    E: Fn(Parser) -> Read<Expr>,
    B: Fn(Parser) -> Read<Block>,
>(
    a: A,
    e: E,
    b: B,
    attributes: Vec<Attribute>,
    before: Parser,
    after: Parser,
    r: Result<ModelDef, String>,
) -> bool {
    let start = model_at(before.toks(), before.pos as int);
    match start.value {
        Err(text) => (r matches Err(e) && e@ == text) && moved(before, after, start.pos),
        Ok((name, generics)) => exists|mid: Parser, n: int, body: ModelBody|
            {
                &&& moved(before, mid, start.pos)
                &&& #[trigger] members_read(a, e, b, n, mid, after, body)
                &&& match body.end {
                    None => false,
                    Some(Err(text)) => r matches Err(e) && e@ == text,
                    Some(Ok(_)) => {
                        &&& r matches Ok(d)
                        &&& d.attributes == attributes
                        &&& d.name@ == name
                        &&& d.generic_params.deep_view() == generics
                        &&& d.fields@ == body.fields
                        &&& d.functions@ == body.functions
                    },
                }
            },
    }
}

impl Parser {
    /// Reads the start of a model.
    fn parse_model_start(&mut self) -> (r: Result<(String, Vec<GenericParam>), String>)
        requires
            old(self).wf(),
        ensures
            ran(*old(self), *final(self), r, model_at(old(self).toks(), old(self).pos as int)),
    {
        match self.expect(Token::Model) {
            Ok(_) => {},
            Err(e) => {
                return Err(e);
            },
        }
        let name = match self.parse_ident() {
            Ok(n) => n,
            Err(e) => {
                return Err(e);
            },
        };
        let generic_params = if self.peek() == Some(Token::Lt) {
            match self.parse_generic_params() {
                Ok(g) => g,
                Err(e) => {
                    return Err(e);
                },
            }
        } else {
            let none: Vec<GenericParam> = Vec::new();
            assert(none.deep_view() =~= Seq::empty());
            none
        };
        match self.expect(Token::LBrace) {
            Ok(_) => Ok((name, generic_params)),
            Err(e) => Err(e),
        }
    }

    /// Reads what comes next in the body of a model, up to a default value or a
    /// function.
    fn parse_model_member(&mut self) -> (r: Result<ModelMember, String>)
        requires
            old(self).wf(),
        ensures
            ran(
                *old(self),
                *final(self),
                r,
                member_at(old(self).toks(), old(self).scopes(), old(self).pos as int),
            ),
            r matches Ok(ModelMember::Field(_, _)) ==> old(self).pos < final(self).pos,
    {
        match self.peek() {
            None => match self.expect(Token::RBrace) {
                Ok(_) => Ok(ModelMember::End),
                Err(e) => Err(e),
            },
            Some(Token::RBrace) => {
                self.next();
                Ok(ModelMember::End)
            },
            Some(Token::Var) | Some(Token::Let) => {
                self.next();
                let name = match self.parse_ident() {
                    Ok(n) => n,
                    Err(e) => {
                        return Err(e);
                    },
                };
                match self.expect(Token::Colon) {
                    Ok(_) => {},
                    Err(e) => {
                        return Err(e);
                    },
                }
                let ty = match self.parse_type() {
                    Ok(t) => t,
                    Err(e) => {
                        return Err(e);
                    },
                };
                if self.peek() == Some(Token::Eq) {
                    self.next();
                    return Ok(ModelMember::Field(ModelField { name, ty }, true));
                }
                match self.expect(Token::Semicolon) {
                    Ok(_) => Ok(ModelMember::Field(ModelField { name, ty }, false)),
                    Err(e) => Err(e),
                }
            },
            Some(Token::Fn) => Ok(ModelMember::Function),
            _ => Err(
                "Expected field (var/let) or function (fn) definition in model block".to_owned(),
            ),
        }
    }

    /// Reads a model. Its members are fields, whose default values are read and dropped,
    /// and functions.
    pub fn parse_model<
        A: Copy + Fn(Parser) -> Read<Vec<Attribute>>,
        E: Copy + Fn(Parser) -> Read<Expr>,
        B: Copy + Fn(Parser) -> Read<Block>,
    >(
        &mut self,
        attributes: Vec<Attribute>,
        parse_attributes: A,
        parse_expr: E,
        parse_block: B,
    ) -> (r: Result<ModelDef, String>)
        requires
            old(self).wf(),
            reads(parse_attributes),
            reads(parse_expr),
            reads(parse_block),
        ensures
            model_read(
                parse_attributes,
                parse_expr,
                parse_block,
                attributes,
                *old(self),
                *final(self),
                r,
            ),
    {
        let (name, generic_params) = match self.parse_model_start() {
            Ok(s) => s,
            Err(e) => {
                return Err(e);
            },
        };
        let ghost start = *self;
        let ghost mut n: int = 0;
        let ghost mut body: ModelBody = unread();
        let mut fields: Vec<ModelField> = Vec::new();
        let mut functions: Vec<FnDef> = Vec::new();
        loop
            invariant
                self.wf(),
                n >= 0,
                moved(*old(self), start, model_at(old(self).toks(), old(self).pos as int).pos),
                model_at(old(self).toks(), old(self).pos as int).value == Ok::<
                    (Seq<char>, Seq<TypeParamV>),
                    Seq<char>,
                >((name@, generic_params.deep_view())),
                reads(parse_attributes),
                reads(parse_expr),
                reads(parse_block),
                members_read(parse_attributes, parse_expr, parse_block, n, start, *self, body),
                body == (ModelBody { fields: fields@, functions: functions@, end: None }),
            decreases self.tokens.len() - self.pos,
        {
            let ghost before = *self;
            let ghost front = body;
            let member = self.parse_model_member();
            let ghost mid = *self;
            proof {
                n = n + 1;
                assert(moved(
                    before,
                    mid,
                    member_at(before.toks(), before.scopes(), before.pos as int).pos,
                ));
            }
            match member {
                Err(e) => {
                    proof {
                        body = ModelBody { end: Some(Err(e@)), ..front };
                        assert(member_read(
                            parse_attributes,
                            parse_expr,
                            parse_block,
                            before,
                            front,
                            *self,
                            body,
                        ));
                        assert(members_read(
                            parse_attributes,
                            parse_expr,
                            parse_block,
                            n,
                            start,
                            *self,
                            body,
                        ));
                    }
                    return Err(e);
                },
                Ok(ModelMember::End) => {
                    proof {
                        body = ModelBody { end: Some(Ok(())), ..front };
                        assert(member_read(
                            parse_attributes,
                            parse_expr,
                            parse_block,
                            before,
                            front,
                            *self,
                            body,
                        ));
                        assert(members_read(
                            parse_attributes,
                            parse_expr,
                            parse_block,
                            n,
                            start,
                            *self,
                            body,
                        ));
                    }
                    return Ok(
                        ModelDef { attributes, name, generic_params, fields, functions },
                    );
                },
                Ok(ModelMember::Field(field, default)) => {
                    let r = if default {
                        self.parse_default(parse_expr)
                    } else {
                        Ok(())
                    };
                    proof {
                        body = field_added(front, field, told(r));
                        assert(member_read(
                            parse_attributes,
                            parse_expr,
                            parse_block,
                            before,
                            front,
                            *self,
                            body,
                        ));
                        assert(members_read(
                            parse_attributes,
                            parse_expr,
                            parse_block,
                            n,
                            start,
                            *self,
                            body,
                        ));
                    }
                    match r {
                        Ok(_) => {
                            fields.push(field);
                        },
                        Err(e) => {
                            return Err(e);
                        },
                    }
                },
                Ok(ModelMember::Function) => {
                    let r = self.parse_method(parse_attributes, parse_block);
                    proof {
                        body = function_added(front, r);
                        assert(member_read(
                            parse_attributes,
                            parse_expr,
                            parse_block,
                            before,
                            front,
                            *self,
                            body,
                        ));
                        assert(members_read(
                            parse_attributes,
                            parse_expr,
                            parse_block,
                            n,
                            start,
                            *self,
                            body,
                        ));
                    }
                    match r {
                        Ok(d) => {
                            functions.push(d);
                        },
                        Err(e) => {
                            return Err(e);
                        },
                    }
                },
            }
        }
    }

    /// Reads a default value and the semicolon after it.
    fn parse_default<E: Copy + Fn(Parser) -> Read<Expr>>(&mut self, parse_expr: E) -> (r: Result<
        (),
        String,
    >)
        requires
            old(self).wf(),
            reads(parse_expr),
        ensures
            default_read(parse_expr, *old(self), *final(self), told(r)),
            final(self).wf(),
            final(self).tokens == old(self).tokens,
            old(self).pos <= final(self).pos,
    {
        match self.ask(parse_expr) {
            Ok(_) => self.expect(Token::Semicolon),
            Err(e) => Err(e),
        }
    }

    /// Reads the attributes and the definition of a function.
    fn parse_method<
        A: Copy + Fn(Parser) -> Read<Vec<Attribute>>,
        B: Copy + Fn(Parser) -> Read<Block>,
    >(&mut self, parse_attributes: A, parse_block: B) -> (r: Result<FnDef, String>)
        requires
            old(self).wf(),
            reads(parse_attributes),
            reads(parse_block),
        ensures
            method_read(parse_attributes, parse_block, *old(self), *final(self), r),
            final(self).wf(),
            final(self).tokens == old(self).tokens,
            old(self).pos <= final(self).pos,
            r is Ok ==> old(self).pos < final(self).pos,
    {
        match self.ask(parse_attributes) {
            Ok(attributes) => self.parse_func_def(attributes, parse_block),
            Err(e) => Err(e),
        }
    }
}

} // verus!
