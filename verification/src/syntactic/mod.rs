//! The parser: tokens, and moving over them.

pub mod header_laws;
pub mod literal;
pub mod literal_laws;
pub mod model_laws;
pub mod parse_func;
pub mod parse_generic;
pub mod parse_model;
pub mod parse_pattern;
pub mod parse_type;
pub mod type_laws;

use vstd::prelude::*;
use vstd::std_specs::cmp::PartialEqSpecImpl;

use crate::const_eval::told;
use crate::text::{cat, str_eq};

verus! {

/// The kind of a token. A kind that no rule of the parser names is known by its name.
#[derive(Clone, Copy, Debug, Eq)]
pub enum Token {
    Ident,
    Integer,
    Float,
    String,
    Bytes,
    True,
    False,
    I8,
    I16,
    I32,
    I64,
    I128,
    U8,
    U16,
    U32,
    U64,
    U128,
    F16,
    F32,
    F64,
    Bool,
    Char,
    Str,
    Never,
    SelfType,
    SelfLower,
    Fn,
    Pub,
    Priv,
    Model,
    Var,
    Let,
    Mut,
    LParen,
    RParen,
    LBracket,
    RBracket,
    LBrace,
    RBrace,
    Lt,
    Gt,
    Comma,
    Colon,
    PathSep,
    Semicolon,
    Plus,
    Slash,
    Amp,
    Arrow,
    Eq,
    Other(&'static str),
}

impl DeepView for Token {
    type V = Token;

    open spec fn deep_view(&self) -> Token {
        *self
    }
}

/// Whether two kinds of token are the same.
pub open spec fn same_kind(a: Token, b: Token) -> bool {
    match (a, b) {
        (Token::Other(x), Token::Other(y)) => x@ == y@,
        _ => a == b,
    }
}

/// The place of a kind of token among the kinds.
pub open spec fn kind_index(t: Token) -> u8 {
    match t {
        Token::Ident => 0,
        Token::Integer => 1,
        Token::Float => 2,
        Token::String => 3,
        Token::Bytes => 4,
        Token::True => 5,
        Token::False => 6,
        Token::I8 => 7,
        Token::I16 => 8,
        Token::I32 => 9,
        Token::I64 => 10,
        Token::I128 => 11,
        Token::U8 => 12,
        Token::U16 => 13,
        Token::U32 => 14,
        Token::U64 => 15,
        Token::U128 => 16,
        Token::F16 => 17,
        Token::F32 => 18,
        Token::F64 => 19,
        Token::Bool => 20,
        Token::Char => 21,
        Token::Str => 22,
        Token::Never => 23,
        Token::SelfType => 24,
        Token::SelfLower => 25,
        Token::Fn => 26,
        Token::Pub => 27,
        Token::Priv => 28,
        Token::Model => 29,
        Token::Var => 30,
        Token::Let => 31,
        Token::Mut => 32,
        Token::LParen => 33,
        Token::RParen => 34,
        Token::LBracket => 35,
        Token::RBracket => 36,
        Token::LBrace => 37,
        Token::RBrace => 38,
        Token::Lt => 39,
        Token::Gt => 40,
        Token::Comma => 41,
        Token::Colon => 42,
        Token::PathSep => 43,
        Token::Semicolon => 44,
        Token::Plus => 45,
        Token::Slash => 46,
        Token::Amp => 47,
        Token::Arrow => 48,
        Token::Eq => 49,
        Token::Other(_) => 50,
    }
}

/// The place of a kind of token among the kinds.
fn find_kind(t: Token) -> (r: u8)
    ensures
        r == kind_index(t),
{
    match t {
        Token::Ident => 0,
        Token::Integer => 1,
        Token::Float => 2,
        Token::String => 3,
        Token::Bytes => 4,
        Token::True => 5,
        Token::False => 6,
        Token::I8 => 7,
        Token::I16 => 8,
        Token::I32 => 9,
        Token::I64 => 10,
        Token::I128 => 11,
        Token::U8 => 12,
        Token::U16 => 13,
        Token::U32 => 14,
        Token::U64 => 15,
        Token::U128 => 16,
        Token::F16 => 17,
        Token::F32 => 18,
        Token::F64 => 19,
        Token::Bool => 20,
        Token::Char => 21,
        Token::Str => 22,
        Token::Never => 23,
        Token::SelfType => 24,
        Token::SelfLower => 25,
        Token::Fn => 26,
        Token::Pub => 27,
        Token::Priv => 28,
        Token::Model => 29,
        Token::Var => 30,
        Token::Let => 31,
        Token::Mut => 32,
        Token::LParen => 33,
        Token::RParen => 34,
        Token::LBracket => 35,
        Token::RBracket => 36,
        Token::LBrace => 37,
        Token::RBrace => 38,
        Token::Lt => 39,
        Token::Gt => 40,
        Token::Comma => 41,
        Token::Colon => 42,
        Token::PathSep => 43,
        Token::Semicolon => 44,
        Token::Plus => 45,
        Token::Slash => 46,
        Token::Amp => 47,
        Token::Arrow => 48,
        Token::Eq => 49,
        Token::Other(_) => 50,
    }
}

impl PartialEq for Token {
    fn eq(&self, other: &Self) -> (r: bool) {
        match (self, other) {
            (Token::Other(a), Token::Other(b)) => str_eq(a, b),
            _ => find_kind(*self) == find_kind(*other),
        }
    }
}

impl PartialEqSpecImpl for Token {
    open spec fn obeys_eq_spec() -> bool {
        true
    }

    open spec fn eq_spec(&self, other: &Self) -> bool {
        same_kind(*self, *other)
    }
}

/// The name of a kind of token.
pub open spec fn token_name(t: Token) -> Seq<char> {
    match t {
        Token::Ident => "Ident"@,
        Token::Integer => "Integer"@,
        Token::Float => "Float"@,
        Token::String => "String"@,
        Token::Bytes => "Bytes"@,
        Token::True => "True"@,
        Token::False => "False"@,
        Token::I8 => "I8"@,
        Token::I16 => "I16"@,
        Token::I32 => "I32"@,
        Token::I64 => "I64"@,
        Token::I128 => "I128"@,
        Token::U8 => "U8"@,
        Token::U16 => "U16"@,
        Token::U32 => "U32"@,
        Token::U64 => "U64"@,
        Token::U128 => "U128"@,
        Token::F16 => "F16"@,
        Token::F32 => "F32"@,
        Token::F64 => "F64"@,
        Token::Bool => "Bool"@,
        Token::Char => "Char"@,
        Token::Str => "Str"@,
        Token::Never => "Never"@,
        Token::SelfType => "SelfType"@,
        Token::SelfLower => "SelfLower"@,
        Token::Fn => "Fn"@,
        Token::Pub => "Pub"@,
        Token::Priv => "Priv"@,
        Token::Model => "Model"@,
        Token::Var => "Var"@,
        Token::Let => "Let"@,
        Token::Mut => "Mut"@,
        Token::LParen => "LParen"@,
        Token::RParen => "RParen"@,
        Token::LBracket => "LBracket"@,
        Token::RBracket => "RBracket"@,
        Token::LBrace => "LBrace"@,
        Token::RBrace => "RBrace"@,
        Token::Lt => "Lt"@,
        Token::Gt => "Gt"@,
        Token::Comma => "Comma"@,
        Token::Colon => "Colon"@,
        Token::PathSep => "PathSep"@,
        Token::Semicolon => "Semicolon"@,
        Token::Plus => "Plus"@,
        Token::Slash => "Slash"@,
        Token::Amp => "Amp"@,
        Token::Arrow => "Arrow"@,
        Token::Eq => "Eq"@,
        Token::Other(name) => name@,
    }
}

/// The name of a kind of token.
pub fn show_token(t: Token) -> (r: &'static str)
    ensures
        r@ == token_name(t),
{
    match t {
        Token::Ident => "Ident",
        Token::Integer => "Integer",
        Token::Float => "Float",
        Token::String => "String",
        Token::Bytes => "Bytes",
        Token::True => "True",
        Token::False => "False",
        Token::I8 => "I8",
        Token::I16 => "I16",
        Token::I32 => "I32",
        Token::I64 => "I64",
        Token::I128 => "I128",
        Token::U8 => "U8",
        Token::U16 => "U16",
        Token::U32 => "U32",
        Token::U64 => "U64",
        Token::U128 => "U128",
        Token::F16 => "F16",
        Token::F32 => "F32",
        Token::F64 => "F64",
        Token::Bool => "Bool",
        Token::Char => "Char",
        Token::Str => "Str",
        Token::Never => "Never",
        Token::SelfType => "SelfType",
        Token::SelfLower => "SelfLower",
        Token::Fn => "Fn",
        Token::Pub => "Pub",
        Token::Priv => "Priv",
        Token::Model => "Model",
        Token::Var => "Var",
        Token::Let => "Let",
        Token::Mut => "Mut",
        Token::LParen => "LParen",
        Token::RParen => "RParen",
        Token::LBracket => "LBracket",
        Token::RBracket => "RBracket",
        Token::LBrace => "LBrace",
        Token::RBrace => "RBrace",
        Token::Lt => "Lt",
        Token::Gt => "Gt",
        Token::Comma => "Comma",
        Token::Colon => "Colon",
        Token::PathSep => "PathSep",
        Token::Semicolon => "Semicolon",
        Token::Plus => "Plus",
        Token::Slash => "Slash",
        Token::Amp => "Amp",
        Token::Arrow => "Arrow",
        Token::Eq => "Eq",
        Token::Other(name) => name,
    }
}

/// A parser: the tokens with their text, the place it is at, the type parameters in
/// scope, and the next id for an expression.
pub struct Parser {
    pub tokens: Vec<(Token, String)>,
    pub pos: usize,
    pub generic_scopes: Vec<Vec<String>>,
    pub next_id: usize,
}

/// The tokens of a parser, with their text.
pub type Tokens = Seq<(Token, Seq<char>)>;

/// What parsing from a place gives: a value or a complaint, and the place after it.
#[verifier::ext_equal]
pub struct Parsed<T> {
    pub value: Result<T, Seq<char>>,
    pub pos: int,
}

/// A value, and the place after it.
pub open spec fn accept<T>(value: T, pos: int) -> Parsed<T> {
    Parsed { value: Ok(value), pos }
}

/// A complaint, and the place where the parser is left.
pub open spec fn refuse<T>(message: Seq<char>, pos: int) -> Parsed<T> {
    Parsed { value: Err(message), pos }
}

/// The kind of the token at a place.
pub open spec fn head(ts: Tokens, p: int) -> Option<Token> {
    if 0 <= p < ts.len() {
        Some(ts[p].0)
    } else {
        None
    }
}

/// The place after the token at `p`, if there is one.
pub open spec fn after_any(ts: Tokens, p: int) -> int {
    if p < ts.len() {
        p + 1
    } else {
        p
    }
}

/// A token of the given kind.
pub open spec fn token_at(ts: Tokens, p: int, t: Token) -> Parsed<()> {
    if head(ts, p) matches Some(k) && same_kind(k, t) {
        accept((), p + 1)
    } else {
        refuse("Expected "@ + token_name(t), p)
    }
}

/// An identifier.
pub open spec fn ident_at(ts: Tokens, p: int) -> Parsed<Seq<char>> {
    if head(ts, p) == Some(Token::Ident) {
        accept(ts[p].1, p + 1)
    } else {
        refuse("Expected identifier"@, p)
    }
}

impl Parser {
    /// The tokens with their text.
    pub open spec fn toks(self) -> Tokens {
        self.tokens.deep_view()
    }

    /// Whether the parser is at a token or at the end.
    pub open spec fn wf(self) -> bool {
        self.pos <= self.tokens.len()
    }

    /// The names of the type parameters in scope, innermost scope last.
    pub open spec fn scopes(self) -> Seq<Seq<Seq<char>>> {
        self.generic_scopes.deep_view()
    }
}

/// Whether parsing went as `want` says: its result, the place it left the parser at,
/// and nothing else changed.
pub open spec fn ran<T: DeepView>(
    before: Parser,
    after: Parser,
    r: Result<T, String>,
    want: Parsed<T::V>,
) -> bool {
    &&& told(r) == want.value
    &&& after.pos == want.pos
    &&& after == (Parser { pos: after.pos, ..before })
    &&& before.pos <= after.pos <= before.tokens.len()
}

impl Parser {
    /// A parser at the first of the given tokens.
    pub fn new(tokens: Vec<(Token, String)>) -> (r: Self)
        ensures
            r == (Parser { tokens, pos: 0, generic_scopes: r.generic_scopes, next_id: 0 }),
            r.generic_scopes@.len() == 0,
            r.wf(),
    {
        Parser { tokens, pos: 0, generic_scopes: Vec::new(), next_id: 0 }
    }

    /// The kind of the token at the current place.
    pub fn peek(&self) -> (r: Option<Token>)
        requires
            self.wf(),
        ensures
            r == head(self.toks(), self.pos as int),
    {
        self.peek_nth(0)
    }

    /// The kind of the token `n` places on.
    pub fn peek_nth(&self, n: usize) -> (r: Option<Token>)
        requires
            self.wf(),
        ensures
            r == head(self.toks(), self.pos + n),
    {
        if n < self.tokens.len() - self.pos {
            assert(self.toks()[self.pos + n].0 == self.tokens@[self.pos + n].0);
            Some(self.tokens[self.pos + n].0)
        } else {
            None
        }
    }

    /// The text of the token at the current place.
    pub fn text(&self) -> (r: String)
        requires
            self.pos < self.tokens.len(),
        ensures
            r@ == self.toks()[self.pos as int].1,
    {
        self.tokens[self.pos].1.clone()
    }

    /// Moves past the token at the current place, if there is one.
    pub fn next(&mut self)
        requires
            old(self).wf(),
        ensures
            *final(self) == (Parser { pos: final(self).pos, ..*old(self) }),
            final(self).pos == after_any(old(self).toks(), old(self).pos as int),
            final(self).wf(),
            final(self).pos >= old(self).pos,
    {
        if self.pos < self.tokens.len() {
            self.pos = self.pos + 1;
        }
    }

    /// Moves past a token of the given kind.
    pub fn expect(&mut self, t: Token) -> (r: Result<(), String>)
        requires
            old(self).wf(),
        ensures
            ran(*old(self), *final(self), r, token_at(old(self).toks(), old(self).pos as int, t)),
    {
        match self.peek() {
            Some(k) => {
                if k == t {
                    self.next();
                    return Ok(());
                }
            },
            None => {},
        }
        Err(cat("Expected ", show_token(t)))
    }

    /// Reads an identifier.
    pub fn parse_ident(&mut self) -> (r: Result<String, String>)
        requires
            old(self).wf(),
        ensures
            ran(*old(self), *final(self), r, ident_at(old(self).toks(), old(self).pos as int)),
    {
        match self.peek() {
            Some(Token::Ident) => {
                let s = self.text();
                self.next();
                Ok(s)
            },
            _ => Err("Expected identifier".to_owned()),
        }
    }
}

/// What a supplied reader hands back: the parser, and what it read.
pub type Read<T> = (Parser, Result<T, String>);

/// Whether a supplied reader can be called at every place, and never goes back nor
/// changes the tokens.
pub open spec fn reads<T, F: Fn(Parser) -> Read<T>>(f: F) -> bool {
    &&& forall|p: Parser| p.wf() ==> #[trigger] call_requires(f, (p,))
    &&& forall|p: Parser, q: Parser, r: Result<T, String>|
        p.wf() && #[trigger] call_ensures(f, (p,), (q, r)) ==> q.wf() && q.tokens == p.tokens
            && p.pos <= q.pos
}

impl Parser {
    /// Reads with a supplied reader.
    fn ask<T, F: Fn(Parser) -> Read<T>>(&mut self, f: F) -> (r: Result<T, String>)
        requires
            old(self).wf(),
            reads(f),
        ensures
            call_ensures(f, (*old(self),), (*final(self), r)),
            final(self).wf(),
            final(self).tokens == old(self).tokens,
            old(self).pos <= final(self).pos,
    {
        let mut p = Parser::new(Vec::new());
        std::mem::swap(self, &mut p);
        let (after, r) = f(p);
        *self = after;
        r
    }
}

} // verus!
