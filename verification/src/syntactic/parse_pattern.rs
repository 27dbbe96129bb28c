//! Patterns of match arms.

use vstd::prelude::*;

use crate::expr::Pattern;
use crate::expr::PatternV;
use crate::syntactic::{Parser, Token};
use crate::syntactic::{accept, head, ident_at, ran, refuse, Parsed, Tokens};
use crate::syntactic::parse_type::closed_at;
use crate::text::str_eq;

verus! {

/// What follows the enum of a pattern and `::`: a variant, and a binding in
/// parentheses.
pub open spec fn variant_at(ts: Tokens, p: int, enum_name: Seq<char>) -> Parsed<PatternV> {
    let variant = ident_at(ts, p);
    match variant.value {
        Err(e) => refuse(e, variant.pos),
        Ok(v) => if head(ts, p + 1) == Some(Token::LParen) {
            let binding = ident_at(ts, p + 2);
            match binding.value {
                Err(e) => refuse(e, binding.pos),
                Ok(b) => closed_at(
                    ts,
                    p + 3,
                    PatternV::EnumVariantWithBinding { enum_name, variant_name: v, binding: b },
                    Token::RParen,
                ),
            }
        } else {
            accept(PatternV::EnumVariant { enum_name, variant_name: v }, p + 1)
        },
    }
}

/// A pattern: `_`, or a variant of an enum with an optional binding.
pub open spec fn pattern_at(ts: Tokens, p: int) -> Parsed<PatternV> {
    let name = ident_at(ts, p);
    match name.value {
        Err(e) => refuse(e, name.pos),
        Ok(n) => if n == "_"@ {
            accept(PatternV::Wildcard, p + 1)
        } else if head(ts, p + 1) == Some(Token::PathSep) {
            variant_at(ts, p + 2, n)
        } else if head(ts, p + 1) == Some(Token::Colon) {
            refuse("Unexpected ':' in pattern, expected '::'"@, p + 1)
        } else {
            refuse("expected '::' after enum name in pattern"@, p + 1)
        },
    }
}

impl Parser {
    /// Reads a pattern.
    pub fn parse_pattern(&mut self) -> (r: Result<Pattern, String>)
        requires
            old(self).wf(),
        ensures
            ran(*old(self), *final(self), r, pattern_at(old(self).toks(), old(self).pos as int)),
    {
        let name = match self.parse_ident() {
            Ok(n) => n,
            Err(e) => {
                return Err(e);
            },
        };
        if str_eq(name.as_str(), "_") {
            return Ok(Pattern::Wildcard);
        }
        match self.peek() {
            Some(Token::PathSep) => {
                self.next();
                let variant_name = match self.parse_ident() {
                    Ok(n) => n,
                    Err(e) => {
                        return Err(e);
                    },
                };
                if self.peek() == Some(Token::LParen) {
                    self.next();
                    let binding = match self.parse_ident() {
                        Ok(n) => n,
                        Err(e) => {
                            return Err(e);
                        },
                    };
                    return match self.expect(Token::RParen) {
                        Ok(_) => Ok(
                            Pattern::EnumVariantWithBinding {
                                enum_name: name,
                                variant_name,
                                binding,
                            },
                        ),
                        Err(e) => Err(e),
                    };
                }
                Ok(Pattern::EnumVariant { enum_name: name, variant_name })
            },
            Some(Token::Colon) => Err("Unexpected ':' in pattern, expected '::'".to_owned()),
            _ => Err("expected '::' after enum name in pattern".to_owned()),
        }
    }
}

} // verus!
