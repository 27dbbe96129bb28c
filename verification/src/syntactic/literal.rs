//! Literals.

use vstd::prelude::*;

use crate::const_eval::told;
use crate::debug::quote;
use crate::debug::quoted;
use crate::expr::{Expr, ExprKind};
use crate::expr::{ExprKindV, ExprV};
use crate::float_text::parse_float_bits;
use crate::float_text::float_bits;
use crate::literal::Literal;
use crate::literal::{FloatKind, IntKind, LiteralV};
use crate::number::parse_i128;
use crate::number::{ranged, signed_text};
use crate::syntactic::{show_token, Parser, Token};
use crate::syntactic::{accept, after_any, head, token_name, Parsed, Tokens};
use crate::text::{cat, cat3};

verus! {

/// The text between the quotes of a string token; a text that is not in quotes as it
/// is.
pub open spec fn unquoted(s: Seq<char>) -> Seq<char> {
    if s.len() >= 2 && s[0] == '"' && s.last() == '"' {
        s.subrange(1, s.len() - 1)
    } else {
        s
    }
}

/// The value of a hexadecimal digit.
pub open spec fn hex_value(c: char) -> Option<int> {
    if '0' <= c <= '9' {
        Some(c as int - '0' as int)
    } else if 'a' <= c <= 'f' {
        Some(c as int - 'a' as int + 10)
    } else if 'A' <= c <= 'F' {
        Some(c as int - 'A' as int + 10)
    } else {
        None
    }
}

/// The character of a hexadecimal digit, in upper case.
pub open spec fn hex_char(d: int) -> char {
    if d < 10 {
        (d + 48) as char
    } else {
        (d + 55) as char
    }
}

/// The hexadecimal digits of `n` in upper case, most significant first.
pub open spec fn hexadecimal(n: nat) -> Seq<char>
    decreases n,
{
    if n < 16 {
        seq![hex_char(n as int)]
    } else {
        hexadecimal(n / 16).push(hex_char((n % 16) as int))
    }
}

/// The byte that the escape `\c` stands for.
pub open spec fn simple_escape(c: char) -> Option<u8> {
    if c == 'n' {
        Some(10)
    } else if c == 'r' {
        Some(13)
    } else if c == 't' {
        Some(9)
    } else if c == '\\' {
        Some(92)
    } else if c == '"' {
        Some(34)
    } else if c == '0' {
        Some(0)
    } else {
        None
    }
}

/// The byte that the escape `\xHL` stands for, where both are hexadecimal digits.
pub open spec fn hex_escape(h: char, l: char) -> Result<u8, Seq<char>> {
    match (hex_value(h), hex_value(l)) {
        (Some(x), Some(y)) => if x * 16 + y > 0x7f {
            Err(
                "error[BS001]: byte string contains non-ASCII byte 0x"@ + hexadecimal(
                    (x * 16 + y) as nat,
                ),
            )
        } else {
            Ok((x * 16 + y) as u8)
        },
        _ => Err("invalid \\x escape in byte string: \\x"@ + seq![h, l]),
    }
}

/// The first byte of a byte string, and how many characters it takes.
pub open spec fn first_byte(s: Seq<char>) -> Result<(u8, int), Seq<char>> {
    if s[0] == '\\' {
        if s.len() < 2 {
            Err("incomplete escape sequence in byte string"@)
        } else if s[1] == 'x' {
            if s.len() < 4 {
                Err("incomplete \\x escape in byte string"@)
            } else {
                match hex_escape(s[2], s[3]) {
                    Ok(b) => Ok((b, 4)),
                    Err(e) => Err(e),
                }
            }
        } else {
            match simple_escape(s[1]) {
                Some(b) => Ok((b, 2)),
                None => Err("unknown escape sequence in byte string: \\"@ + seq![s[1]]),
            }
        }
    } else if s[0] as int > 0x7f {
        Err(
            "error[BS001]: byte string contains non-ASCII byte 0x"@ + hexadecimal(s[0] as nat),
        )
    } else {
        Ok((s[0] as u8, 1))
    }
}

/// The bytes of a byte string.
pub open spec fn byte_string(s: Seq<char>) -> Result<Seq<u8>, Seq<char>>
    decreases s.len(),
{
    if s.len() == 0 {
        Ok(Seq::empty())
    } else {
        match first_byte(s) {
            Err(e) => Err(e),
            Ok((b, n)) => match byte_string(s.skip(n)) {
                Err(e) => Err(e),
                Ok(bs) => Ok(seq![b] + bs),
            },
        }
    }
}

/// An ASCII character is its own byte.
proof fn lemma_ascii_char(c: char)
    requires
        c as int <= 0x7f,
    ensures
        c as u8 == c as int,
{
}

/// The first byte of a byte string is an ASCII byte.
proof fn lemma_first_byte_ascii(s: Seq<char>)
    requires
        s.len() > 0,
        first_byte(s) is Ok,
    ensures
        first_byte(s)->Ok_0.0 <= 0x7f,
        1 <= first_byte(s)->Ok_0.1 <= s.len(),
{
    if s[0] == '\\' && s[1] == 'x' {
        assert(hex_value(s[2]) is Some && hex_value(s[3]) is Some);
        let (x, y) = (hex_value(s[2])->Some_0, hex_value(s[3])->Some_0);
        assert(0 <= x < 16 && 0 <= y < 16);
        assert(0 <= x * 16 + y <= 0x7f);
        assert(((x * 16 + y) as u8) == x * 16 + y);
    } else if s[0] != '\\' {
        lemma_ascii_char(s[0]);
    }
}

/// A byte string holds ASCII bytes only.
pub proof fn lemma_byte_string_ascii(s: Seq<char>, bytes: Seq<u8>)
    requires
        byte_string(s) == Ok::<Seq<u8>, Seq<char>>(bytes),
    ensures
        forall|i: int| 0 <= i < bytes.len() ==> (#[trigger] bytes[i]) <= 0x7f,
    decreases s.len(),
{
    if s.len() > 0 {
        lemma_first_byte_ascii(s);
        let (b, n) = first_byte(s)->Ok_0;
        let rest = byte_string(s.skip(n))->Ok_0;
        lemma_byte_string_ascii(s.skip(n), rest);
        assert(bytes == seq![b] + rest);
        assert forall|i: int| 0 <= i < bytes.len() implies (#[trigger] bytes[i]) <= 0x7f by {
            if i > 0 {
                assert(bytes[i] == rest[i - 1]);
            }
        }
    }
}

/// A text of ASCII characters without a backslash stands for its own bytes.
pub proof fn lemma_plain_byte_string(s: Seq<char>)
    requires
        forall|i: int|
            0 <= i < s.len() ==> (#[trigger] s[i]) as int <= 0x7f && s[i] != '\\',
    ensures
        byte_string(s) == Ok::<Seq<u8>, Seq<char>>(s.map_values(|c: char| c as u8)),
    decreases s.len(),
{
    if s.len() > 0 {
        let t = s.skip(1);
        assert forall|i: int| 0 <= i < t.len() implies (#[trigger] t[i]) as int <= 0x7f && t[i]
            != '\\' by {
            assert(t[i] == s[i + 1]);
        }
        lemma_plain_byte_string(t);
        assert(first_byte(s) == Ok::<(u8, int), Seq<char>>((s[0] as u8, 1)));
        assert(seq![s[0] as u8] + t.map_values(|c: char| c as u8) =~= s.map_values(
            |c: char| c as u8,
        ));
    } else {
        assert(Seq::<u8>::empty() =~= s.map_values(|c: char| c as u8));
    }
}

/// The integer literal with the given text.
pub open spec fn integer_literal(s: Seq<char>) -> Result<LiteralV, Seq<char>> {
    match ranged(signed_text(s), i64::MIN as int, i64::MAX as int) {
        None => Err("Integer literal too large for any integer type: "@ + s),
        Some(n) => if i32::MIN <= n <= i32::MAX {
            Ok(LiteralV::Int(IntKind::I32, n))
        } else {
            Err(
                "Integer literal "@ + s
                    + " out of range for Int32 (-2147483648..=2147483647)"@,
            )
        },
    }
}

/// The float literal with the given text.
pub open spec fn float_literal(s: Seq<char>) -> Result<LiteralV, Seq<char>> {
    match float_bits(s) {
        Some(b) => Ok(LiteralV::Float(FloatKind::F64, b)),
        None => Err("Invalid float literal: "@ + s),
    }
}

/// The debug text of a token, if there is one at `p`.
pub open spec fn token_debug(ts: Tokens, p: int) -> Seq<char> {
    if p < ts.len() {
        "Some(("@ + token_name(ts[p].0) + ", "@ + quoted(ts[p].1) + "))"@
    } else {
        "None"@
    }
}

/// The byte string literal whose string token is at `p`.
pub open spec fn bytes_literal(ts: Tokens, p: int) -> Result<LiteralV, Seq<char>> {
    if head(ts, p) == Some(Token::String) {
        match byte_string(unquoted(ts[p].1)) {
            Ok(bs) => Ok(LiteralV::Bytes(bs)),
            Err(e) => Err(e),
        }
    } else {
        Err(
            "Expected string literal immediately after 'bytes', got "@ + token_debug(ts, p),
        )
    }
}

/// The literal at `p`; nothing where no literal starts there.
pub open spec fn literal_at(ts: Tokens, p: int) -> Option<Parsed<LiteralV>> {
    match head(ts, p) {
        Some(Token::Integer) => Some(Parsed { value: integer_literal(ts[p].1), pos: p + 1 }),
        Some(Token::Float) => Some(Parsed { value: float_literal(ts[p].1), pos: p + 1 }),
        Some(Token::String) => Some(accept(LiteralV::Str(unquoted(ts[p].1)), p + 1)),
        Some(Token::Bytes) => Some(
            Parsed { value: bytes_literal(ts, p + 1), pos: after_any(ts, p + 1) },
        ),
        Some(Token::True) => Some(accept(LiteralV::Bool(true), p + 1)),
        Some(Token::False) => Some(accept(LiteralV::Bool(false), p + 1)),
        _ => None,
    }
}

/// The expression of a literal.
pub open spec fn literal_expr(id: usize, l: LiteralV) -> ExprV {
    ExprV { id, kind: ExprKindV::Literal(l) }
}

/// The value of a hexadecimal digit.
fn hex_digit(c: char) -> (r: Option<u8>)
    ensures
        match r {
            Some(v) => hex_value(c) == Some(v as int) && v < 16,
            None => hex_value(c) is None,
        },
{
    if '0' <= c && c <= '9' {
        Some((c as u32 - '0' as u32) as u8)
    } else if 'a' <= c && c <= 'f' {
        Some((c as u32 - 'a' as u32) as u8 + 10)
    } else if 'A' <= c && c <= 'F' {
        Some((c as u32 - 'A' as u32) as u8 + 10)
    } else {
        None
    }
}

/// The hexadecimal digits of `n`.
fn to_hexadecimal(n: u32) -> (r: String)
    ensures
        r@ == hexadecimal(n as nat),
    decreases n,
{
    let d = (n % 16) as u8;
    let c = if d < 10 {
        (d + 48) as char
    } else {
        (d + 55) as char
    };
    if n < 16 {
        let mut s = String::new();
        s.push(c);
        assert(s@ =~= seq![hex_char(n as int)]);
        s
    } else {
        let mut s = to_hexadecimal(n / 16);
        s.push(c);
        s
    }
}

/// The byte that `\c` stands for.
fn unescape(c: char) -> (r: Option<u8>)
    ensures
        r == simple_escape(c),
{
    if c == 'n' {
        Some(10)
    } else if c == 'r' {
        Some(13)
    } else if c == 't' {
        Some(9)
    } else if c == '\\' {
        Some(92)
    } else if c == '"' {
        Some(34)
    } else if c == '0' {
        Some(0)
    } else {
        None
    }
}

/// The byte that `\xHL` stands for.
fn unescape_hex(h: char, l: char) -> (r: Result<u8, String>)
    ensures
        match r {
            Ok(b) => hex_escape(h, l) == Ok::<u8, Seq<char>>(b),
            Err(e) => hex_escape(h, l) == Err::<u8, Seq<char>>(e@),
        },
{
    match (hex_digit(h), hex_digit(l)) {
        (Some(x), Some(y)) => {
            let v: u8 = x * 16 + y;
            if v > 0x7f {
                Err(
                    cat(
                        "error[BS001]: byte string contains non-ASCII byte 0x",
                        to_hexadecimal(v as u32).as_str(),
                    ),
                )
            } else {
                Ok(v)
            }
        },
        _ => {
            let mut s = "invalid \\x escape in byte string: \\x".to_owned();
            s.push(h);
            s.push(l);
            assert(s@ =~= "invalid \\x escape in byte string: \\x"@ + seq![h, l]);
            Err(s)
        },
    }
}

impl Parser {
    /// The text between the quotes of a string token.
    pub fn strip_quotes(s: String) -> (r: String)
        ensures
            r@ == unquoted(s@),
    {
        let n = s.as_str().unicode_len();
        if n >= 2 && s.as_str().get_char(0) == '"' && s.as_str().get_char(n - 1) == '"' {
            s.as_str().substring_char(1, n - 1).to_owned()
        } else {
            s
        }
    }

    /// The bytes of a byte string.
    pub fn decode_byte_string(s: &str) -> (r: Result<Vec<u8>, String>)
        ensures
            match r {
                Ok(bs) => byte_string(s@) == Ok::<Seq<u8>, Seq<char>>(bs@),
                Err(e) => byte_string(s@) == Err::<Seq<u8>, Seq<char>>(e@),
            },
    {
        let n = s.unicode_len();
        let mut bytes: Vec<u8> = Vec::new();
        let mut i: usize = 0;
        assert(s@.skip(0) =~= s@);
        proof {
            if byte_string(s@) is Ok {
                assert(bytes@ + byte_string(s@)->Ok_0 =~= byte_string(s@)->Ok_0);
            }
        }
        while i < n
            invariant
                i <= n,
                n == s@.len(),
                byte_string(s@) == match byte_string(s@.skip(i as int)) {
                    Ok(rest) => Ok::<Seq<u8>, Seq<char>>(bytes@ + rest),
                    Err(e) => Err(e),
                },
            decreases n - i,
        {
            let ghost rest = s@.skip(i as int);
            let ghost before = bytes@;
            assert(rest[0] == s@[i as int]);
            let c = s.get_char(i);
            let b: u8;
            let used: usize;
            if c == '\\' {
                if i + 1 >= n {
                    return Err("incomplete escape sequence in byte string".to_owned());
                }
                assert(rest[1] == s@[i + 1]);
                let k = s.get_char(i + 1);
                if k == 'x' {
                    if n - i < 4 {
                        return Err("incomplete \\x escape in byte string".to_owned());
                    }
                    assert(rest[2] == s@[i + 2] && rest[3] == s@[i + 3]);
                    match unescape_hex(s.get_char(i + 2), s.get_char(i + 3)) {
                        Ok(v) => {
                            b = v;
                            used = 4;
                        },
                        Err(e) => {
                            return Err(e);
                        },
                    }
                } else {
                    match unescape(k) {
                        Some(v) => {
                            b = v;
                            used = 2;
                        },
                        None => {
                            let mut m = "unknown escape sequence in byte string: \\".to_owned();
                            m.push(k);
                            assert(m@ =~= "unknown escape sequence in byte string: \\"@
                                + seq![k]);
                            return Err(m);
                        },
                    }
                }
            } else {
                if c as u32 > 0x7f {
                    return Err(
                        cat(
                            "error[BS001]: byte string contains non-ASCII byte 0x",
                            to_hexadecimal(c as u32).as_str(),
                        ),
                    );
                }
                b = c as u8;
                used = 1;
            }
            assert(first_byte(rest) == Ok::<(u8, int), Seq<char>>((b, used as int)));
            assert(rest.skip(used as int) =~= s@.skip(i + used));
            bytes.push(b);
            proof {
                let tail = byte_string(s@.skip(i + used));
                if tail is Ok {
                    assert(before + (seq![b] + tail->Ok_0) =~= bytes@ + tail->Ok_0);
                }
            }
            i = i + used;
        }
        assert(bytes@ + Seq::<u8>::empty() =~= bytes@);
        Ok(bytes)
    }

    /// The id of the next expression.
    pub fn next_expr_id(&mut self) -> (r: usize)
        requires
            old(self).next_id < usize::MAX,
        ensures
            r == old(self).next_id,
            *final(self) == (Parser { next_id: final(self).next_id, ..*old(self) }),
            final(self).next_id == old(self).next_id + 1,
    {
        let id = self.next_id;
        self.next_id = self.next_id + 1;
        id
    }

    /// Reads an integer token as a literal.
    fn integer_value(text: &str) -> (r: Result<Literal, String>)
        ensures
            told(r) == integer_literal(text@),
    {
        match parse_i128(text) {
            Some(v) => {
                if v < i64::MIN as i128 || v > i64::MAX as i128 {
                    Err(cat("Integer literal too large for any integer type: ", text))
                } else if v < i32::MIN as i128 || v > i32::MAX as i128 {
                    Err(
                        cat3(
                            "Integer literal ",
                            text,
                            " out of range for Int32 (-2147483648..=2147483647)",
                        ),
                    )
                } else {
                    Ok(Literal::Int32(v as i32))
                }
            },
            None => Err(cat("Integer literal too large for any integer type: ", text)),
        }
    }

    /// Reads a float token as a literal.
    fn float_value(text: &str) -> (r: Result<Literal, String>)
        ensures
            told(r) == float_literal(text@),
    {
        match parse_float_bits(text) {
            Some(b) => Ok(Literal::Float64(b)),
            None => Err(cat("Invalid float literal: ", text)),
        }
    }

    /// Reads the string token of a byte string.
    fn parse_bytes(&mut self) -> (r: Result<Literal, String>)
        requires
            old(self).wf(),
        ensures
            told(r) == bytes_literal(old(self).toks(), old(self).pos as int),
            *final(self) == (Parser { pos: final(self).pos, ..*old(self) }),
            final(self).pos == after_any(old(self).toks(), old(self).pos as int),
            final(self).wf(),
    {
        match self.peek() {
            Some(Token::String) => {
                let inner = Self::strip_quotes(self.text());
                self.next();
                match Self::decode_byte_string(inner.as_str()) {
                    Ok(b) => Ok(Literal::ByteString(b)),
                    Err(e) => Err(e),
                }
            },
            Some(t) => {
                let text = self.text();
                let mut d = cat3("Some((", show_token(t), ", ");
                d.append(quote(text.as_str()).as_str());
                d.append("))");
                self.next();
                Err(
                    cat(
                        "Expected string literal immediately after 'bytes', got ",
                        d.as_str(),
                    ),
                )
            },
            None => Err(
                cat("Expected string literal immediately after 'bytes', got ", "None"),
            ),
        }
    }

    /// Reads a literal. Where none starts here, the parser stays where it is.
    pub fn parse_literal(&mut self) -> (r: Option<Result<Expr, String>>)
        requires
            old(self).wf(),
            old(self).next_id < usize::MAX,
        ensures
            match literal_at(old(self).toks(), old(self).pos as int) {
                None => r is None && *final(self) == *old(self),
                Some(want) => {
                    &&& final(self).pos == want.pos
                    &&& final(self).wf()
                    &&& *final(self) == (Parser {
                        pos: final(self).pos,
                        next_id: final(self).next_id,
                        ..*old(self)
                    })
                    &&& match want.value {
                        Ok(l) => {
                            &&& r matches Some(Ok(e)) && e.deep_view() == literal_expr(
                                old(self).next_id,
                                l,
                            )
                            &&& final(self).next_id == old(self).next_id + 1
                        },
                        Err(m) => {
                            &&& r matches Some(Err(e)) && e@ == m
                            &&& final(self).next_id == old(self).next_id
                        },
                    }
                },
            },
    {
        let value = match self.peek() {
            Some(Token::Integer) => {
                let text = self.text();
                self.next();
                Self::integer_value(text.as_str())
            },
            Some(Token::Float) => {
                let text = self.text();
                self.next();
                Self::float_value(text.as_str())
            },
            Some(Token::String) => {
                let text = self.text();
                self.next();
                Ok(Literal::String(Self::strip_quotes(text)))
            },
            Some(Token::Bytes) => {
                self.next();
                self.parse_bytes()
            },
            Some(Token::True) => {
                self.next();
                Ok(Literal::Bool(true))
            },
            Some(Token::False) => {
                self.next();
                Ok(Literal::Bool(false))
            },
            _ => {
                return None;
            },
        };
        match value {
            Ok(l) => Some(Ok(Expr { id: self.next_expr_id(), kind: ExprKind::Literal(l) })),
            Err(e) => Some(Err(e)),
        }
    }

    /// Reads `()`. Where it does not stand here, the parser stays where it is.
    pub fn try_parse_unit_literal(&mut self) -> (r: Option<Expr>)
        requires
            old(self).wf(),
            old(self).next_id < usize::MAX,
        ensures
            ({
                let ts = old(self).toks();
                let p = old(self).pos as int;
                if head(ts, p) == Some(Token::LParen) && head(ts, p + 1) == Some(Token::RParen) {
                    &&& r matches Some(e) && e.deep_view() == literal_expr(
                        old(self).next_id,
                        LiteralV::Unit,
                    )
                    &&& *final(self) == (Parser {
                        pos: final(self).pos,
                        next_id: final(self).next_id,
                        ..*old(self)
                    })
                    &&& final(self).pos == p + 2
                    &&& final(self).next_id == old(self).next_id + 1
                } else {
                    r is None && *final(self) == *old(self)
                }
            }),
    {
        if self.peek() == Some(Token::LParen) && self.peek_nth(1) == Some(Token::RParen) {
            self.next();
            self.next();
            return Some(
                Expr { id: self.next_expr_id(), kind: ExprKind::Literal(Literal::Unit) },
            );
        }
        None
    }
}

} // verus!
