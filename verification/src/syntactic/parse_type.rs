//! Types: references, generic types, tensors and privacy labels.

use vstd::prelude::*;

use crate::ast::{PrivacyTag, ShapeDim, Type};
use crate::ast::{DimV, TagV, TypeV};
use crate::ast::group_type_view;
use crate::number::parse_unsigned;
use crate::number::unsigned_text;
use crate::syntactic::{Parser, Token};
use crate::syntactic::{
    accept, after_any, head, ident_at, ran, refuse, token_at, Parsed, Tokens,
};
use crate::text::{cat, cat3, str_eq};

verus! {

/// A rational number: an integer, two integers with `/` between them, or a decimal.
pub open spec fn rational_at(ts: Tokens, p: int) -> Parsed<Seq<char>> {
    if head(ts, p) == Some(Token::Integer) {
        if head(ts, p + 1) == Some(Token::Slash) {
            if head(ts, p + 2) == Some(Token::Integer) {
                accept(ts[p].1 + "/"@ + ts[p + 2].1, p + 3)
            } else {
                refuse("Expected integer after '/'"@, after_any(ts, p + 2))
            }
        } else {
            accept(ts[p].1, p + 1)
        }
    } else if head(ts, p) == Some(Token::Float) {
        accept(ts[p].1, p + 1)
    } else {
        refuse("Expected rational literal"@, p)
    }
}

/// The word `key`, then a colon, then a rational number.
pub open spec fn entry_at(ts: Tokens, p: int, key: Seq<char>) -> Parsed<Seq<char>> {
    if head(ts, p) != Some(Token::Ident) {
        refuse("Expected '"@ + key + "'"@, after_any(ts, p))
    } else if ts[p].1 != key {
        refuse("Expected '"@ + key + "', got '"@ + ts[p].1 + "'"@, p + 1)
    } else {
        match token_at(ts, p + 1, Token::Colon).value {
            Err(e) => refuse(e, p + 1),
            Ok(_) => rational_at(ts, p + 2),
        }
    }
}

/// The numbers of a differential label, up to the closing parenthesis.
pub open spec fn budget_at(ts: Tokens, p: int) -> Parsed<TagV> {
    let eps = entry_at(ts, p, "eps"@);
    match eps.value {
        Err(e) => refuse(e, eps.pos),
        Ok(e1) => if head(ts, eps.pos) == Some(Token::Comma) {
            let delta = entry_at(ts, eps.pos + 1, "delta"@);
            match delta.value {
                Err(e) => refuse(e, delta.pos),
                Ok(d) => closed_at(
                    ts,
                    delta.pos,
                    TagV::Differential { eps: e1, delta: Some(d) },
                    Token::RParen,
                ),
            }
        } else {
            closed_at(ts, eps.pos, TagV::Differential { eps: e1, delta: None }, Token::RParen)
        },
    }
}

/// A value whose text ends with the given token at `p`.
pub open spec fn closed_at<T>(ts: Tokens, p: int, value: T, t: Token) -> Parsed<T> {
    let end = token_at(ts, p, t);
    match end.value {
        Err(e) => refuse(e, end.pos),
        Ok(_) => accept(value, end.pos),
    }
}

/// The inside of a privacy label.
pub open spec fn tag_at(ts: Tokens, p: int) -> Parsed<TagV> {
    if head(ts, p) != Some(Token::Ident) {
        refuse("Expected privacy tag"@, p)
    } else if ts[p].1 == "public"@ {
        accept(TagV::Public, p + 1)
    } else if ts[p].1 == "private"@ {
        accept(TagV::Private, p + 1)
    } else if ts[p].1 == "dp"@ {
        match token_at(ts, p + 1, Token::LParen).value {
            Err(e) => refuse(e, p + 1),
            Ok(_) => budget_at(ts, p + 2),
        }
    } else {
        refuse("Expected privacy tag"@, p)
    }
}

/// A privacy label between angle brackets.
pub open spec fn privacy_at(ts: Tokens, p: int) -> Parsed<TagV> {
    match token_at(ts, p, Token::Lt).value {
        Err(e) => refuse(e, p),
        Ok(_) => {
            let tag = tag_at(ts, p + 1);
            match tag.value {
                Err(e) => refuse(e, tag.pos),
                Ok(t) => closed_at(ts, tag.pos, t, Token::Gt),
            }
        },
    }
}

/// One dimension of a shape.
pub open spec fn dim_at(ts: Tokens, p: int) -> Parsed<DimV> {
    if head(ts, p) == Some(Token::Ident) {
        if ts[p].1 == "Dyn"@ {
            accept(DimV::Dyn, p + 1)
        } else if ts[p].1 == "Sym"@ {
            match token_at(ts, p + 1, Token::Lt).value {
                Err(e) => refuse(e, p + 1),
                Ok(_) => {
                    let name = ident_at(ts, p + 2);
                    match name.value {
                        Err(e) => refuse(e, name.pos),
                        Ok(n) => closed_at(ts, name.pos, DimV::Sym(n), Token::Gt),
                    }
                },
            }
        } else {
            accept(DimV::Sym(ts[p].1), p + 1)
        }
    } else if head(ts, p) == Some(Token::Integer) {
        match unsigned_text(ts[p].1) {
            Some(n) if n <= usize::MAX => accept(DimV::Const(n as usize), p + 1),
            _ => refuse("Invalid shape dimension literal: "@ + ts[p].1, p + 1),
        }
    } else {
        refuse("Expected dimension in shape"@, after_any(ts, p))
    }
}

/// The dimensions of a shape, separated by commas, up to the closing bracket.
pub open spec fn dims_at(ts: Tokens, p: int) -> Parsed<Seq<DimV>>
    decreases ts.len() - p,
{
    if head(ts, p) is None || head(ts, p) == Some(Token::RBracket) {
        accept(Seq::empty(), p)
    } else {
        let dim = dim_at(ts, p);
        match dim.value {
            Err(e) => refuse(e, dim.pos),
            Ok(d) => if head(ts, dim.pos) == Some(Token::Comma) && p <= dim.pos {
                let rest = dims_at(ts, dim.pos + 1);
                match rest.value {
                    Err(e) => refuse(e, rest.pos),
                    Ok(ds) => accept(seq![d] + ds, rest.pos),
                }
            } else if head(ts, dim.pos) == Some(Token::RBracket) {
                accept(seq![d], dim.pos)
            } else {
                refuse("Expected comma or closing bracket in shape"@, dim.pos)
            },
        }
    }
}

/// A shape between square brackets.
pub open spec fn shape_at(ts: Tokens, p: int) -> Parsed<Seq<DimV>> {
    match token_at(ts, p, Token::LBracket).value {
        Err(e) => refuse(e, p),
        Ok(_) => {
            let dims = dims_at(ts, p + 1);
            match dims.value {
                Err(e) => refuse(e, dims.pos),
                Ok(ds) => closed_at(ts, dims.pos, ds, Token::RBracket),
            }
        },
    }
}

/// Whether a name is a type parameter in scope.
pub open spec fn is_active(scopes: Seq<Seq<Seq<char>>>, name: Seq<char>) -> bool {
    exists|i: int| 0 <= i < scopes.len() && (#[trigger] scopes[i]).contains(name)
}

/// The type that a plain name stands for.
pub open spec fn named_type(scopes: Seq<Seq<Seq<char>>>, name: Seq<char>) -> TypeV {
    if name == "usize"@ {
        TypeV::U64
    } else if name == "isize"@ {
        TypeV::I64
    } else if is_active(scopes, name) {
        TypeV::TypeParam(name)
    } else {
        TypeV::Struct(name)
    }
}

/// The type that a keyword stands for.
pub open spec fn keyword_type(t: Token) -> Option<TypeV> {
    match t {
        Token::I8 => Some(TypeV::I8),
        Token::I16 => Some(TypeV::I16),
        Token::I32 => Some(TypeV::I32),
        Token::I64 => Some(TypeV::I64),
        Token::I128 => Some(TypeV::I128),
        Token::U8 => Some(TypeV::U8),
        Token::U16 => Some(TypeV::U16),
        Token::U32 => Some(TypeV::U32),
        Token::U64 => Some(TypeV::U64),
        Token::U128 => Some(TypeV::U128),
        Token::F16 => Some(TypeV::F16),
        Token::F32 => Some(TypeV::F32),
        Token::F64 => Some(TypeV::F64),
        Token::Bool => Some(TypeV::Bool),
        Token::Char => Some(TypeV::Char),
        Token::Str => Some(TypeV::Str),
        Token::Never => Some(TypeV::Never),
        Token::SelfType => Some(TypeV::SelfType),
        _ => None,
    }
}

/// A type without reference and privacy label.
pub open spec fn base_type_at(ts: Tokens, scopes: Seq<Seq<Seq<char>>>, p: int) -> Parsed<TypeV>
    decreases ts.len() - p, 1int,
{
    match head(ts, p) {
        None => refuse("Expected type"@, p),
        Some(Token::Ident) => if ts[p].1 == "Tensor"@ {
            tensor_at(ts, scopes, p)
        } else if head(ts, p + 1) == Some(Token::Lt) {
            let args = type_args_at(ts, scopes, p + 2);
            match args.value {
                Err(e) => refuse(e, args.pos),
                Ok(a) => closed_at(ts, args.pos, TypeV::Generic(ts[p].1, a), Token::Gt),
            }
        } else {
            accept(named_type(scopes, ts[p].1), p + 1)
        },
        Some(Token::LParen) => if head(ts, p + 1) == Some(Token::RParen) {
            accept(TypeV::Unit, p + 2)
        } else {
            refuse("Tuple types not supported yet"@, p + 1)
        },
        Some(t) => match keyword_type(t) {
            Some(ty) => accept(ty, p + 1),
            None => refuse("Expected type"@, p),
        },
    }
}

/// A tensor type, from the word `Tensor` on.
pub open spec fn tensor_at(ts: Tokens, scopes: Seq<Seq<Seq<char>>>, p: int) -> Parsed<TypeV>
    decreases ts.len() - p, 0int,
{
    match token_at(ts, p + 1, Token::Lt).value {
        Err(e) => refuse(e, p + 1),
        Ok(_) => {
            let dtype = base_type_at(ts, scopes, p + 2);
            match dtype.value {
                Err(e) => refuse(e, dtype.pos),
                Ok(d) => match token_at(ts, dtype.pos, Token::Comma).value {
                    Err(e) => refuse(e, dtype.pos),
                    Ok(_) => {
                        let shape = shape_at(ts, dtype.pos + 1);
                        match shape.value {
                            Err(e) => refuse(e, shape.pos),
                            Ok(s) => closed_at(
                                ts,
                                shape.pos,
                                TypeV::Tensor { dtype: Box::new(d), shape: s },
                                Token::Gt,
                            ),
                        }
                    },
                },
            }
        },
    }
}

/// The arguments of a generic type, up to the closing bracket.
pub open spec fn type_args_at(ts: Tokens, scopes: Seq<Seq<Seq<char>>>, p: int) -> Parsed<Seq<TypeV>>
    decreases ts.len() - p, 2int,
{
    if head(ts, p) is None || head(ts, p) == Some(Token::Gt) {
        accept(Seq::empty(), p)
    } else {
        let arg = base_type_at(ts, scopes, p);
        match arg.value {
            Err(e) => refuse(e, arg.pos),
            Ok(t) => if head(ts, arg.pos) == Some(Token::Comma) && p <= arg.pos {
                let rest = type_args_at(ts, scopes, arg.pos + 1);
                match rest.value {
                    Err(e) => refuse(e, rest.pos),
                    Ok(r) => accept(seq![t] + r, rest.pos),
                }
            } else if head(ts, arg.pos) == Some(Token::Gt) {
                accept(seq![t], arg.pos)
            } else {
                refuse("Expected ',' or '>' in generic type"@, arg.pos)
            },
        }
    }
}

/// A type: a reference, or a base type with an optional privacy label.
pub open spec fn type_at(ts: Tokens, scopes: Seq<Seq<Seq<char>>>, p: int) -> Parsed<TypeV>
    decreases ts.len() - p,
{
    if head(ts, p) == Some(Token::Amp) {
        let mutable = head(ts, p + 1) == Some(Token::Mut);
        let q = if mutable {
            p + 2
        } else {
            p + 1
        };
        if head(ts, q) == Some(Token::LBracket) {
            let elem = type_at(ts, scopes, q + 1);
            match elem.value {
                Err(e) => refuse(e, elem.pos),
                Ok(t) => closed_at(
                    ts,
                    elem.pos,
                    TypeV::Ref { mutable, inner: Box::new(TypeV::Slice(Box::new(t))) },
                    Token::RBracket,
                ),
            }
        } else {
            let inner = type_at(ts, scopes, q);
            match inner.value {
                Err(e) => refuse(e, inner.pos),
                Ok(t) => accept(TypeV::Ref { mutable, inner: Box::new(t) }, inner.pos),
            }
        }
    } else {
        let base = base_type_at(ts, scopes, p);
        match base.value {
            Err(e) => refuse(e, base.pos),
            Ok(t) => {
                let tag = privacy_at(ts, base.pos);
                match tag.value {
                    Ok(g) => accept(TypeV::Privacy(Box::new(t), g), tag.pos),
                    Err(_) => accept(t, base.pos),
                }
            },
        }
    }
}

impl Parser {
    /// Reads a rational number.
    pub fn parse_rational_literal(&mut self) -> (r: Result<String, String>)
        requires
            old(self).wf(),
        ensures
            ran(*old(self), *final(self), r, rational_at(old(self).toks(), old(self).pos as int)),
    {
        match self.peek() {
            Some(Token::Integer) => {
                let int_part = self.text();
                self.next();
                if self.peek() == Some(Token::Slash) {
                    self.next();
                    if self.peek() == Some(Token::Integer) {
                        let den = self.text();
                        self.next();
                        Ok(cat3(int_part.as_str(), "/", den.as_str()))
                    } else {
                        self.next();
                        Err("Expected integer after '/'".to_owned())
                    }
                } else {
                    Ok(int_part)
                }
            },
            Some(Token::Float) => {
                let v = self.text();
                self.next();
                Ok(v)
            },
            _ => Err("Expected rational literal".to_owned()),
        }
    }

    /// Reads the word `key`, a colon and a rational number.
    fn parse_entry(&mut self, key: &str) -> (r: Result<String, String>)
        requires
            old(self).wf(),
        ensures
            ran(
                *old(self),
                *final(self),
                r,
                entry_at(old(self).toks(), old(self).pos as int, key@),
            ),
    {
        if self.peek() == Some(Token::Ident) {
            let got = self.text();
            self.next();
            if !str_eq(got.as_str(), key) {
                let mut s = cat3("Expected '", key, "', got '");
                s.append(got.as_str());
                s.append("'");
                return Err(s);
            }
        } else {
            self.next();
            return Err(cat3("Expected '", key, "'"));
        }
        match self.expect(Token::Colon) {
            Ok(_) => self.parse_rational_literal(),
            Err(e) => Err(e),
        }
    }

    /// Reads the inside of a privacy label.
    fn parse_tag(&mut self) -> (r: Result<PrivacyTag, String>)
        requires
            old(self).wf(),
        ensures
            ran(*old(self), *final(self), r, tag_at(old(self).toks(), old(self).pos as int)),
    {
        if self.peek() != Some(Token::Ident) {
            return Err("Expected privacy tag".to_owned());
        }
        let name = self.text();
        if str_eq(name.as_str(), "public") {
            self.next();
            Ok(PrivacyTag::Public)
        } else if str_eq(name.as_str(), "private") {
            self.next();
            Ok(PrivacyTag::Private)
        } else if str_eq(name.as_str(), "dp") {
            self.next();
            match self.expect(Token::LParen) {
                Ok(_) => {},
                Err(e) => {
                    return Err(e);
                },
            }
            let eps = match self.parse_entry("eps") {
                Ok(v) => v,
                Err(e) => {
                    return Err(e);
                },
            };
            let delta = if self.peek() == Some(Token::Comma) {
                self.next();
                match self.parse_entry("delta") {
                    Ok(v) => Some(v),
                    Err(e) => {
                        return Err(e);
                    },
                }
            } else {
                None
            };
            match self.expect(Token::RParen) {
                Ok(_) => Ok(PrivacyTag::Differential { eps, delta }),
                Err(e) => Err(e),
            }
        } else {
            Err("Expected privacy tag".to_owned())
        }
    }

    /// Reads a privacy label between angle brackets.
    pub fn parse_privacy_tag(&mut self) -> (r: Result<PrivacyTag, String>)
        requires
            old(self).wf(),
        ensures
            ran(*old(self), *final(self), r, privacy_at(old(self).toks(), old(self).pos as int)),
    {
        match self.expect(Token::Lt) {
            Ok(_) => {},
            Err(e) => {
                return Err(e);
            },
        }
        let tag = match self.parse_tag() {
            Ok(t) => t,
            Err(e) => {
                return Err(e);
            },
        };
        match self.expect(Token::Gt) {
            Ok(_) => Ok(tag),
            Err(e) => Err(e),
        }
    }

    /// Reads a privacy label if there is one; else the parser stays where it is.
    pub fn try_privacy_tag(&mut self) -> (r: Option<PrivacyTag>)
        requires
            old(self).wf(),
        ensures
            *final(self) == (Parser { pos: final(self).pos, ..*old(self) }),
            old(self).pos <= final(self).pos <= old(self).tokens.len(),
            ({
                let tag = privacy_at(old(self).toks(), old(self).pos as int);
                match r {
                    Some(t) => tag.value == Ok::<TagV, Seq<char>>(t.deep_view()) && final(self).pos
                        == tag.pos,
                    None => tag.value is Err && final(self).pos == old(self).pos,
                }
            }),
    {
        let start = self.pos;
        match self.parse_privacy_tag() {
            Ok(t) => Some(t),
            Err(_) => {
                self.pos = start;
                None
            },
        }
    }

    /// Reads one dimension of a shape.
    fn parse_dim(&mut self) -> (r: Result<ShapeDim, String>)
        requires
            old(self).wf(),
        ensures
            ran(*old(self), *final(self), r, dim_at(old(self).toks(), old(self).pos as int)),
    {
        match self.peek() {
            Some(Token::Ident) => {
                let value = self.text();
                self.next();
                if str_eq(value.as_str(), "Dyn") {
                    Ok(ShapeDim::Dyn)
                } else if str_eq(value.as_str(), "Sym") {
                    match self.expect(Token::Lt) {
                        Ok(_) => {},
                        Err(e) => {
                            return Err(e);
                        },
                    }
                    let name = match self.parse_ident() {
                        Ok(n) => n,
                        Err(e) => {
                            return Err(e);
                        },
                    };
                    match self.expect(Token::Gt) {
                        Ok(_) => Ok(ShapeDim::Sym(name)),
                        Err(e) => Err(e),
                    }
                } else {
                    Ok(ShapeDim::Sym(value))
                }
            },
            Some(Token::Integer) => {
                let value = self.text();
                self.next();
                match parse_unsigned(value.as_str(), usize::MAX as u128) {
                    Some(n) => Ok(ShapeDim::Const(n as usize)),
                    None => Err(cat("Invalid shape dimension literal: ", value.as_str())),
                }
            },
            _ => {
                self.next();
                Err("Expected dimension in shape".to_owned())
            },
        }
    }

    /// Reads the dimensions of a shape.
    fn parse_dims(&mut self) -> (r: Result<Vec<ShapeDim>, String>)
        requires
            old(self).wf(),
        ensures
            ran(*old(self), *final(self), r, dims_at(old(self).toks(), old(self).pos as int)),
    {
        let ghost ts = self.toks();
        let ghost want = dims_at(ts, self.pos as int);
        let ghost before = *self;
        let mut dims: Vec<ShapeDim> = Vec::new();
        let ghost mut done: Seq<DimV> = Seq::empty();
        assert(dims.deep_view() =~= done);
        loop
            invariant
                self.wf(),
                ts == self.toks(),
                before == *old(self),
                want == dims_at(ts, before.pos as int),
                before.pos <= self.pos,
                *self == (Parser { pos: self.pos, ..before }),
                done == dims.deep_view(),
                ({
                    let rest = dims_at(ts, self.pos as int);
                    want == match rest.value {
                        Err(e) => refuse(e, rest.pos),
                        Ok(ds) => accept(done + ds, rest.pos),
                    }
                }),
            decreases ts.len() - self.pos,
        {
            match self.peek() {
                None | Some(Token::RBracket) => {
                    assert(done + Seq::<DimV>::empty() =~= done);
                    return Ok(dims);
                },
                _ => {},
            }
            let ghost p = self.pos as int;
            let dim = match self.parse_dim() {
                Ok(d) => d,
                Err(e) => {
                    return Err(e);
                },
            };
            let ghost d = dim.deep_view();
            let ghost old_done = done;
            dims.push(dim);
            proof {
                done = done.push(d);
            }
            assert(dims.deep_view() =~= done);
            match self.peek() {
                Some(Token::Comma) => {
                    self.next();
                    proof {
                        let rest = dims_at(ts, self.pos as int);
                        if rest.value is Ok {
                            assert(old_done + (seq![d] + rest.value->Ok_0) =~= done
                                + rest.value->Ok_0);
                        }
                    }
                },
                Some(Token::RBracket) => {
                    assert(old_done + seq![d] =~= done);
                    return Ok(dims);
                },
                _ => {
                    return Err("Expected comma or closing bracket in shape".to_owned());
                },
            }
        }
    }

    /// Reads a shape between square brackets.
    pub fn parse_shape(&mut self) -> (r: Result<Vec<ShapeDim>, String>)
        requires
            old(self).wf(),
        ensures
            ran(*old(self), *final(self), r, shape_at(old(self).toks(), old(self).pos as int)),
    {
        match self.expect(Token::LBracket) {
            Ok(_) => {},
            Err(e) => {
                return Err(e);
            },
        }
        let dims = match self.parse_dims() {
            Ok(d) => d,
            Err(e) => {
                return Err(e);
            },
        };
        match self.expect(Token::RBracket) {
            Ok(_) => Ok(dims),
            Err(e) => Err(e),
        }
    }

    /// Whether a name is a type parameter in scope.
    pub fn is_active_generic(&self, name: &str) -> (r: bool)
        ensures
            r == is_active(self.scopes(), name@),
    {
        let ghost all = self.scopes();
        let mut i: usize = 0;
        while i < self.generic_scopes.len()
            invariant
                i <= self.generic_scopes.len(),
                all == self.scopes(),
                forall|k: int| 0 <= k < i ==> !(#[trigger] all[k]).contains(name@),
            decreases self.generic_scopes.len() - i,
        {
            let scope = &self.generic_scopes[i];
            let ghost sv = scope.deep_view();
            assert(all[i as int] == sv);
            let mut j: usize = 0;
            while j < scope.len()
                invariant
                    j <= scope.len(),
                    sv == scope.deep_view(),
                    all == self.scopes(),
                    i < all.len(),
                    all[i as int] == sv,
                    forall|k: int| 0 <= k < j ==> #[trigger] sv[k] != name@,
                decreases scope.len() - j,
            {
                assert(sv[j as int] == scope@[j as int]@);
                if str_eq(scope[j].as_str(), name) {
                    assert(sv.contains(name@));
                    return true;
                }
                j = j + 1;
            }
            assert(!sv.contains(name@));
            i = i + 1;
        }
        false
    }

    /// Reads a type without reference and privacy label.
    pub fn parse_base_type(&mut self) -> (r: Result<Type, String>)
        requires
            old(self).wf(),
        ensures
            ran(
                *old(self),
                *final(self),
                r,
                base_type_at(old(self).toks(), old(self).scopes(), old(self).pos as int),
            ),
        decreases old(self).tokens.len() - old(self).pos, 0int,
    {
        broadcast use group_type_view;

        match self.peek() {
            Some(Token::I8) => { self.next(); Ok(Type::I8) },
            Some(Token::I16) => { self.next(); Ok(Type::I16) },
            Some(Token::I32) => { self.next(); Ok(Type::I32) },
            Some(Token::I64) => { self.next(); Ok(Type::I64) },
            Some(Token::I128) => { self.next(); Ok(Type::I128) },
            Some(Token::U8) => { self.next(); Ok(Type::U8) },
            Some(Token::U16) => { self.next(); Ok(Type::U16) },
            Some(Token::U32) => { self.next(); Ok(Type::U32) },
            Some(Token::U64) => { self.next(); Ok(Type::U64) },
            Some(Token::U128) => { self.next(); Ok(Type::U128) },
            Some(Token::F16) => { self.next(); Ok(Type::F16) },
            Some(Token::F32) => { self.next(); Ok(Type::F32) },
            Some(Token::F64) => { self.next(); Ok(Type::F64) },
            Some(Token::Bool) => { self.next(); Ok(Type::Bool) },
            Some(Token::Char) => { self.next(); Ok(Type::Char) },
            Some(Token::Str) => { self.next(); Ok(Type::Str) },
            Some(Token::Never) => { self.next(); Ok(Type::Never) },
            Some(Token::SelfType) => { self.next(); Ok(Type::SelfType) },
            Some(Token::LParen) => {
                self.next();
                if self.peek() == Some(Token::RParen) {
                    self.next();
                    Ok(Type::Unit)
                } else {
                    Err("Tuple types not supported yet".to_owned())
                }
            },
            Some(Token::Ident) => {
                let name = self.text();
                self.next();
                if str_eq(name.as_str(), "Tensor") {
                    return self.parse_tensor();
                }
                if self.peek() == Some(Token::Lt) {
                    self.next();
                    let args = match self.parse_type_args() {
                        Ok(a) => a,
                        Err(e) => {
                            return Err(e);
                        },
                    };
                    match self.expect(Token::Gt) {
                        Ok(_) => Ok(Type::Generic(name, args)),
                        Err(e) => Err(e),
                    }
                } else if str_eq(name.as_str(), "usize") {
                    Ok(Type::U64)
                } else if str_eq(name.as_str(), "isize") {
                    Ok(Type::I64)
                } else if self.is_active_generic(name.as_str()) {
                    Ok(Type::TypeParam(name))
                } else {
                    Ok(Type::Struct(name))
                }
            },
            _ => Err("Expected type".to_owned()),
        }
    }

    /// Reads a tensor type, from behind the word `Tensor` on.
    fn parse_tensor(&mut self) -> (r: Result<Type, String>)
        requires
            old(self).wf(),
            old(self).pos > 0,
        ensures
            ran(
                *old(self),
                *final(self),
                r,
                tensor_at(old(self).toks(), old(self).scopes(), old(self).pos - 1),
            ),
        decreases old(self).tokens.len() - old(self).pos, 1int,
    {
        match self.expect(Token::Lt) {
            Ok(_) => {},
            Err(e) => {
                return Err(e);
            },
        }
        let dtype = match self.parse_base_type() {
            Ok(t) => t,
            Err(e) => {
                return Err(e);
            },
        };
        match self.expect(Token::Comma) {
            Ok(_) => {},
            Err(e) => {
                return Err(e);
            },
        }
        let shape = match self.parse_shape() {
            Ok(s) => s,
            Err(e) => {
                return Err(e);
            },
        };
        match self.expect(Token::Gt) {
            Ok(_) => Ok(Type::Tensor { dtype: Box::new(dtype), shape }),
            Err(e) => Err(e),
        }
    }

    /// Reads the arguments of a generic type.
    fn parse_type_args(&mut self) -> (r: Result<Vec<Type>, String>)
        requires
            old(self).wf(),
        ensures
            ran(
                *old(self),
                *final(self),
                r,
                type_args_at(old(self).toks(), old(self).scopes(), old(self).pos as int),
            ),
        decreases old(self).tokens.len() - old(self).pos, 1int,
    {
        let ghost ts = self.toks();
        let ghost sc = self.scopes();
        let ghost want = type_args_at(ts, sc, self.pos as int);
        let ghost before = *self;
        let mut args: Vec<Type> = Vec::new();
        let ghost mut done: Seq<TypeV> = Seq::empty();
        assert(args.deep_view() =~= done);
        loop
            invariant
                self.wf(),
                ts == self.toks(),
                sc == self.scopes(),
                before == *old(self),
                want == type_args_at(ts, sc, before.pos as int),
                before.pos <= self.pos,
                *self == (Parser { pos: self.pos, ..before }),
                done == args.deep_view(),
                ({
                    let rest = type_args_at(ts, sc, self.pos as int);
                    want == match rest.value {
                        Err(e) => refuse(e, rest.pos),
                        Ok(ds) => accept(done + ds, rest.pos),
                    }
                }),
            decreases ts.len() - self.pos,
        {
            match self.peek() {
                None | Some(Token::Gt) => {
                    assert(done + Seq::<TypeV>::empty() =~= done);
                    return Ok(args);
                },
                _ => {},
            }
            let ty = match self.parse_base_type() {
                Ok(t) => t,
                Err(e) => {
                    return Err(e);
                },
            };
            let ghost d = ty.deep_view();
            let ghost old_done = done;
            args.push(ty);
            proof {
                done = done.push(d);
            }
            assert(args.deep_view() =~= done);
            match self.peek() {
                Some(Token::Comma) => {
                    self.next();
                    proof {
                        let rest = type_args_at(ts, sc, self.pos as int);
                        if rest.value is Ok {
                            assert(old_done + (seq![d] + rest.value->Ok_0) =~= done
                                + rest.value->Ok_0);
                        }
                    }
                },
                Some(Token::Gt) => {
                    assert(old_done + seq![d] =~= done);
                    return Ok(args);
                },
                _ => {
                    return Err("Expected ',' or '>' in generic type".to_owned());
                },
            }
        }
    }

    /// Reads a type.
    pub fn parse_type(&mut self) -> (r: Result<Type, String>)
        requires
            old(self).wf(),
        ensures
            ran(
                *old(self),
                *final(self),
                r,
                type_at(old(self).toks(), old(self).scopes(), old(self).pos as int),
            ),
        decreases old(self).tokens.len() - old(self).pos,
    {
        broadcast use group_type_view;

        if self.peek() == Some(Token::Amp) {
            self.next();
            let mutable = self.peek() == Some(Token::Mut);
            if mutable {
                self.next();
            }
            if self.peek() == Some(Token::LBracket) {
                self.next();
                let elem = match self.parse_type() {
                    Ok(t) => t,
                    Err(e) => {
                        return Err(e);
                    },
                };
                return match self.expect(Token::RBracket) {
                    Ok(_) => {
                        proof {
                            reveal_with_fuel(crate::ast::type_view, 3);
                        }
                        Ok(Type::Ref { mutable, inner: Box::new(Type::Slice(Box::new(elem))) })
                    },
                    Err(e) => Err(e),
                };
            }
            return match self.parse_type() {
                Ok(t) => Ok(Type::Ref { mutable, inner: Box::new(t) }),
                Err(e) => Err(e),
            };
        }
        let base = match self.parse_base_type() {
            Ok(t) => t,
            Err(e) => {
                return Err(e);
            },
        };
        match self.try_privacy_tag() {
            Some(tag) => Ok(Type::Privacy(Box::new(base), tag)),
            None => Ok(base),
        }
    }
}

} // verus!
