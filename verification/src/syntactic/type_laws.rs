//! Laws of how types are read: which tokens spell which type.

use vstd::prelude::*;

use crate::ast::{DimV, TagV, TypeV};
use crate::debug::type_debug;
use crate::mangle::type_text;
use crate::mangle_laws::scalar;
use crate::number::unsigned_text;
use crate::syntactic::parse_type::{
    base_type_at, dim_at, dims_at, entry_at, is_active, keyword_type, privacy_at, rational_at,
    shape_at, tensor_at, type_args_at, type_at,
};
use crate::syntactic::{accept, head, token_name, Token, Tokens};

verus! {

// Keywords.

/// The keyword that names a built-in type.
pub open spec fn keyword(t: TypeV) -> Option<Token> {
    match t {
        TypeV::I8 => Some(Token::I8),
        TypeV::I16 => Some(Token::I16),
        TypeV::I32 => Some(Token::I32),
        TypeV::I64 => Some(Token::I64),
        TypeV::I128 => Some(Token::I128),
        TypeV::U8 => Some(Token::U8),
        TypeV::U16 => Some(Token::U16),
        TypeV::U32 => Some(Token::U32),
        TypeV::U64 => Some(Token::U64),
        TypeV::U128 => Some(Token::U128),
        TypeV::F16 => Some(Token::F16),
        TypeV::F32 => Some(Token::F32),
        TypeV::F64 => Some(Token::F64),
        TypeV::Bool => Some(Token::Bool),
        TypeV::Char => Some(Token::Char),
        TypeV::Str => Some(Token::Str),
        TypeV::Never => Some(Token::Never),
        TypeV::SelfType => Some(Token::SelfType),
        _ => None,
    }
}

/// A keyword is read as the type that it names, and no other token is read as a keyword
/// of a type.
pub proof fn lemma_keyword_exact(k: Token, t: TypeV)
    ensures
        keyword_type(k) == Some(t) <==> keyword(t) == Some(k),
{
}

/// Different keywords are read as different types.
pub proof fn lemma_keywords_differ(k: Token, l: Token)
    requires
        keyword_type(k) is Some,
        keyword_type(k) == keyword_type(l),
    ensures
        k == l,
{
}

/// A keyword is read as the type of the keyword's own name.
pub proof fn lemma_keyword_name(k: Token)
    requires
        keyword_type(k) is Some,
    ensures
        type_debug(keyword_type(k)->0) == token_name(k),
{
}

/// A letter in lower case.
pub open spec fn small(c: char) -> char {
    if 'A' <= c <= 'Z' {
        (c as int + 32) as char
    } else {
        c
    }
}

/// Reading a keyword gives the type that is written in an instance name as the keyword's
/// name in lower case; `Self` is written as it is.
pub proof fn lemma_keyword_text(k: Token)
    requires
        keyword_type(k) is Some,
        k != Token::SelfType,
    ensures
        type_text(keyword_type(k)->0) == token_name(k).map_values(|c: char| small(c)),
{
    reveal_strlit("I8");
    reveal_strlit("I16");
    reveal_strlit("I32");
    reveal_strlit("I64");
    reveal_strlit("I128");
    reveal_strlit("U8");
    reveal_strlit("U16");
    reveal_strlit("U32");
    reveal_strlit("U64");
    reveal_strlit("U128");
    reveal_strlit("F16");
    reveal_strlit("F32");
    reveal_strlit("F64");
    reveal_strlit("Bool");
    reveal_strlit("Char");
    reveal_strlit("Str");
    reveal_strlit("Never");
    reveal_strlit("i8");
    reveal_strlit("i16");
    reveal_strlit("i32");
    reveal_strlit("i64");
    reveal_strlit("i128");
    reveal_strlit("u8");
    reveal_strlit("u16");
    reveal_strlit("u32");
    reveal_strlit("u64");
    reveal_strlit("u128");
    reveal_strlit("f16");
    reveal_strlit("f32");
    reveal_strlit("f64");
    reveal_strlit("bool");
    reveal_strlit("char");
    reveal_strlit("str");
    reveal_strlit("never");
    let name = token_name(k).map_values(|c: char| small(c));
    assert(type_text(keyword_type(k)->0) =~= name);
}

/// A built-in type without parts, but for unit and symbolic integers, has a keyword, and
/// reading the keyword gives the type back.
pub proof fn lemma_scalar_keyword(t: TypeV)
    requires
        scalar(t),
        t != TypeV::Unit,
        t != TypeV::SymInt,
    ensures
        keyword(t) is Some,
        keyword_type(keyword(t)->0) == Some(t),
        token_name(keyword(t)->0) == type_debug(t),
{
}

// What tokens spell.

/// Whether the token at `p` is an identifier with the given text.
pub open spec fn word(ts: Tokens, p: int, s: Seq<char>) -> bool {
    0 <= p < ts.len() && ts[p] == (Token::Ident, s)
}

/// Whether a name is that of a type parameter of one of the scopes.
pub open spec fn in_scope(scopes: Seq<Seq<Seq<char>>>, name: Seq<char>) -> bool {
    exists|i: int, j: int|
        0 <= i < scopes.len() && 0 <= j < scopes[i].len() && #[trigger] scopes[i][j] == name
}

/// A type parameter counts as active exactly where one of the scopes has it.
pub proof fn lemma_active_exact(scopes: Seq<Seq<Seq<char>>>, name: Seq<char>)
    ensures
        is_active(scopes, name) <==> in_scope(scopes, name),
{
    if is_active(scopes, name) {
        let i = choose|i: int| 0 <= i < scopes.len() && (#[trigger] scopes[i]).contains(name);
        let j = choose|j: int| 0 <= j < scopes[i].len() && scopes[i][j] == name;
        assert(scopes[i][j] == name);
    }
    if in_scope(scopes, name) {
        let (i, j) = choose|i: int, j: int|
            0 <= i < scopes.len() && 0 <= j < scopes[i].len() && #[trigger] scopes[i][j] == name;
        assert(scopes[i].contains(name));
    }
}

/// Whether the tokens from `p` up to `q` spell a rational number.
pub open spec fn spells_rational(ts: Tokens, p: int, q: int, s: Seq<char>) -> bool {
    ||| {
        &&& q == p + 1
        &&& head(ts, p) == Some(Token::Integer)
        &&& head(ts, q) != Some(Token::Slash)
        &&& s == ts[p].1
    }
    ||| {
        &&& q == p + 1
        &&& head(ts, p) == Some(Token::Float)
        &&& s == ts[p].1
    }
    ||| {
        &&& q == p + 3
        &&& head(ts, p) == Some(Token::Integer)
        &&& head(ts, p + 1) == Some(Token::Slash)
        &&& head(ts, p + 2) == Some(Token::Integer)
        &&& s == ts[p].1 + "/"@ + ts[p + 2].1
    }
}

/// Whether the tokens from `p` up to `q` spell a privacy label, with its angle brackets.
pub open spec fn spells_label(ts: Tokens, p: int, q: int, tag: TagV) -> bool {
    &&& head(ts, p) == Some(Token::Lt)
    &&& head(ts, q - 1) == Some(Token::Gt)
    &&& match tag {
        TagV::Public => word(ts, p + 1, "public"@) && q == p + 3,
        TagV::Private => word(ts, p + 1, "private"@) && q == p + 3,
        TagV::Differential { eps, delta } => {
            &&& word(ts, p + 1, "dp"@)
            &&& head(ts, p + 2) == Some(Token::LParen)
            &&& word(ts, p + 3, "eps"@)
            &&& head(ts, p + 4) == Some(Token::Colon)
            &&& head(ts, q - 2) == Some(Token::RParen)
            &&& match delta {
                None => spells_rational(ts, p + 5, q - 2, eps),
                Some(d) => exists|m: int|
                    {
                        &&& #[trigger] spells_rational(ts, p + 5, m, eps)
                        &&& head(ts, m) == Some(Token::Comma)
                        &&& word(ts, m + 1, "delta"@)
                        &&& head(ts, m + 2) == Some(Token::Colon)
                        &&& spells_rational(ts, m + 3, q - 2, d)
                    },
            }
        },
    }
}

/// Whether the tokens from `p` up to `q` spell one dimension of a shape.
pub open spec fn spells_dim(ts: Tokens, p: int, q: int, d: DimV) -> bool {
    match d {
        DimV::Dyn => word(ts, p, "Dyn"@) && q == p + 1,
        DimV::Sym(n) => {
            ||| word(ts, p, n) && n != "Dyn"@ && n != "Sym"@ && q == p + 1
            ||| {
                &&& word(ts, p, "Sym"@)
                &&& head(ts, p + 1) == Some(Token::Lt)
                &&& word(ts, p + 2, n)
                &&& head(ts, p + 3) == Some(Token::Gt)
                &&& q == p + 4
            }
        },
        DimV::Const(c) => {
            &&& head(ts, p) == Some(Token::Integer)
            &&& unsigned_text(ts[p].1) == Some(c as nat)
            &&& q == p + 1
        },
    }
}

/// Whether the tokens from `p` up to the closing bracket at `q` spell the dimensions of a
/// shape, with commas between them.
pub open spec fn spells_dims(ts: Tokens, p: int, q: int, ds: Seq<DimV>) -> bool
    decreases ds.len(),
{
    if ds.len() == 0 {
        p == q && head(ts, p) == Some(Token::RBracket)
    } else {
        exists|m: int|
            {
                &&& #[trigger] spells_dim(ts, p, m, ds[0])
                &&& ds.len() == 1 && m == q && head(ts, m) == Some(Token::RBracket) || head(ts, m)
                    == Some(Token::Comma) && spells_dims(ts, m + 1, q, ds.drop_first())
            }
    }
}

/// Whether the tokens from `p` up to `q` spell a type that is no reference and has no
/// privacy label.
pub open spec fn spells_base(
    ts: Tokens,
    scopes: Seq<Seq<Seq<char>>>,
    p: int,
    q: int,
    t: TypeV,
) -> bool
    decreases t, 0int,
{
    ||| q == p + 1 && keyword(t) is Some && head(ts, p) == keyword(t)
    ||| {
        &&& q == p + 1
        &&& head(ts, q) != Some(Token::Lt)
        &&& {
            ||| word(ts, p, "usize"@) && t == TypeV::U64
            ||| word(ts, p, "isize"@) && t == TypeV::I64
            ||| (t matches TypeV::TypeParam(n) && word(ts, p, n) && !set![
                "usize"@,
                "isize"@,
                "Tensor"@,
            ].contains(n) && in_scope(scopes, n))
            ||| (t matches TypeV::Struct(n) && word(ts, p, n) && !set![
                "usize"@,
                "isize"@,
                "Tensor"@,
            ].contains(n) && !in_scope(scopes, n))
        }
    }
    ||| match t {
        TypeV::Unit => {
            &&& head(ts, p) == Some(Token::LParen)
            &&& head(ts, p + 1) == Some(Token::RParen)
            &&& q == p + 2
        },
        TypeV::Generic(n, args) => {
            &&& word(ts, p, n)
            &&& n != "Tensor"@
            &&& head(ts, p + 1) == Some(Token::Lt)
            &&& spells_args(ts, scopes, p + 2, q - 1, args)
            &&& head(ts, q - 1) == Some(Token::Gt)
        },
        TypeV::Tensor { dtype, shape } => exists|m: int|
            {
                &&& word(ts, p, "Tensor"@)
                &&& head(ts, p + 1) == Some(Token::Lt)
                &&& spells_base(ts, scopes, p + 2, m, *dtype)
                &&& #[trigger] head(ts, m) == Some(Token::Comma)
                &&& head(ts, m + 1) == Some(Token::LBracket)
                &&& spells_dims(ts, m + 2, q - 2, shape)
                &&& head(ts, q - 1) == Some(Token::Gt)
            },
        _ => false,
    }
}

/// Whether the tokens from `p` up to the closing bracket at `q` spell the arguments of a
/// generic type, with commas between them.
pub open spec fn spells_args(
    ts: Tokens,
    scopes: Seq<Seq<Seq<char>>>,
    p: int,
    q: int,
    args: Seq<TypeV>,
) -> bool
    decreases args, 1int,
{
    if args.len() == 0 {
        p == q && head(ts, p) == Some(Token::Gt)
    } else {
        exists|m: int|
            {
                &&& spells_base(ts, scopes, p, m, args[0])
                &&& args.len() == 1 && m == q && #[trigger] head(ts, m) == Some(Token::Gt) || head(ts, m)
                    == Some(Token::Comma) && spells_args(ts, scopes, m + 1, q, args.drop_first())
            }
    }
}

/// Whether the tokens from `p` up to `q` spell a type.
pub open spec fn spells(ts: Tokens, scopes: Seq<Seq<Seq<char>>>, p: int, q: int, t: TypeV) -> bool
    decreases t,
{
    match t {
        TypeV::Ref { mutable, inner } => {
            let r = if mutable {
                p + 2
            } else {
                p + 1
            };
            &&& head(ts, p) == Some(Token::Amp)
            &&& mutable <==> head(ts, p + 1) == Some(Token::Mut)
            &&& match *inner {
                TypeV::Slice(e) => {
                    &&& head(ts, r) == Some(Token::LBracket)
                    &&& spells(ts, scopes, r + 1, q - 1, *e)
                    &&& head(ts, q - 1) == Some(Token::RBracket)
                },
                _ => spells(ts, scopes, r, q, *inner),
            }
        },
        TypeV::Privacy(e, tag) => exists|m: int| #[trigger]
            spells_base(ts, scopes, p, m, *e) && spells_label(ts, m, q, tag),
        _ => spells_base(ts, scopes, p, q, t) && forall|r: int, tag: TagV|
            !#[trigger] spells_label(ts, q, r, tag),
    }
}

// Reading gives what is spelled.

proof fn lemma_rational(ts: Tokens, p: int, q: int, s: Seq<char>)
    ensures
        rational_at(ts, p) == accept(s, q) <==> spells_rational(ts, p, q, s),
{
}

proof fn lemma_keys()
    ensures
        "eps"@ != "delta"@,
        "public"@ != "private"@,
        "public"@ != "dp"@,
        "private"@ != "dp"@,
        "Dyn"@ != "Sym"@,
        "usize"@ != "isize"@,
        "usize"@ != "Tensor"@,
        "isize"@ != "Tensor"@,
{
    reveal_strlit("eps");
    reveal_strlit("delta");
    reveal_strlit("public");
    reveal_strlit("private");
    reveal_strlit("dp");
    reveal_strlit("Dyn");
    reveal_strlit("Sym");
    reveal_strlit("usize");
    reveal_strlit("isize");
    reveal_strlit("Tensor");
    assert("eps"@.len() != "delta"@.len());
    assert("public"@.len() != "private"@.len());
    assert("public"@.len() != "dp"@.len());
    assert("private"@.len() != "dp"@.len());
    assert("Dyn"@[0] != "Sym"@[0]);
    assert("usize"@[0] != "isize"@[0]);
    assert("usize"@.len() != "Tensor"@.len());
    assert("isize"@.len() != "Tensor"@.len());
}

/// A privacy label is read where one is spelled, and as the one that is spelled.
pub proof fn lemma_label_exact(ts: Tokens, p: int, q: int, tag: TagV)
    ensures
        privacy_at(ts, p) == accept(tag, q) <==> spells_label(ts, p, q, tag),
{
    lemma_keys();
    if privacy_at(ts, p) == accept(tag, q) {
        if let TagV::Differential { eps, delta } = tag {
            let e = entry_at(ts, p + 3, "eps"@);
            lemma_rational(ts, p + 5, e.pos, eps);
            if delta is Some {
                let d = entry_at(ts, e.pos + 1, "delta"@);
                lemma_rational(ts, e.pos + 3, d.pos, delta->0);
                assert(spells_rational(ts, p + 5, e.pos, eps));
            }
        }
    }
    if spells_label(ts, p, q, tag) {
        if let TagV::Differential { eps, delta } = tag {
            match delta {
                None => {
                    lemma_rational(ts, p + 5, q - 2, eps);
                },
                Some(d) => {
                    let m = choose|m: int|
                        {
                            &&& #[trigger] spells_rational(ts, p + 5, m, eps)
                            &&& head(ts, m) == Some(Token::Comma)
                            &&& word(ts, m + 1, "delta"@)
                            &&& head(ts, m + 2) == Some(Token::Colon)
                            &&& spells_rational(ts, m + 3, q - 2, d)
                        };
                    lemma_rational(ts, p + 5, m, eps);
                    lemma_rational(ts, m + 3, q - 2, d);
                },
            }
        }
    }
}

proof fn lemma_dim(ts: Tokens, p: int, q: int, d: DimV)
    ensures
        dim_at(ts, p) == accept(d, q) <==> spells_dim(ts, p, q, d),
{
    lemma_keys();
}

proof fn lemma_dims_read(ts: Tokens, p: int, q: int, ds: Seq<DimV>)
    requires
        spells_dims(ts, p, q, ds),
    ensures
        dims_at(ts, p) == accept(ds, q),
    decreases ds.len(),
{
    if ds.len() == 0 {
        assert(ds =~= Seq::empty());
    } else {
        let m = choose|m: int|
            {
                &&& #[trigger] spells_dim(ts, p, m, ds[0])
                &&& ds.len() == 1 && m == q && head(ts, m) == Some(Token::RBracket) || head(ts, m)
                    == Some(Token::Comma) && spells_dims(ts, m + 1, q, ds.drop_first())
            };
        lemma_dim(ts, p, m, ds[0]);
        if head(ts, m) == Some(Token::Comma) {
            lemma_dims_read(ts, m + 1, q, ds.drop_first());
            assert(seq![ds[0]] + ds.drop_first() =~= ds);
        } else {
            assert(seq![ds[0]] =~= ds);
        }
    }
}

proof fn lemma_dims_spelled(ts: Tokens, p: int, q: int, ds: Seq<DimV>)
    requires
        dims_at(ts, p) == accept(ds, q),
        head(ts, q) == Some(Token::RBracket),
    ensures
        spells_dims(ts, p, q, ds),
    decreases ts.len() - p,
{
    if head(ts, p) is None || head(ts, p) == Some(Token::RBracket) {
    } else {
        let dim = dim_at(ts, p);
        let d = dim.value->Ok_0;
        lemma_dim(ts, p, dim.pos, d);
        assert(spells_dim(ts, p, dim.pos, ds[0]));
        if head(ts, dim.pos) == Some(Token::Comma) && p <= dim.pos {
            let rest = dims_at(ts, dim.pos + 1);
            lemma_dims_spelled(ts, dim.pos + 1, q, rest.value->Ok_0);
            assert(ds.drop_first() =~= rest.value->Ok_0);
        }
    }
}

proof fn lemma_base_read(ts: Tokens, scopes: Seq<Seq<Seq<char>>>, p: int, q: int, t: TypeV)
    requires
        spells_base(ts, scopes, p, q, t),
    ensures
        base_type_at(ts, scopes, p) == accept(t, q),
    decreases t, 0int,
{
    lemma_keys();
    if 0 <= p < ts.len() {
        lemma_active_exact(scopes, ts[p].1);
    }
    if q == p + 1 && keyword(t) is Some && head(ts, p) == keyword(t) {
        lemma_keyword_exact(ts[p].0, t);
    } else {
        match t {
            TypeV::Generic(n, args) => {
                lemma_args_read(ts, scopes, p + 2, q - 1, args);
            },
            TypeV::Tensor { dtype, shape } => {
                let m = choose|m: int|
                    {
                        &&& word(ts, p, "Tensor"@)
                        &&& head(ts, p + 1) == Some(Token::Lt)
                        &&& spells_base(ts, scopes, p + 2, m, *dtype)
                        &&& #[trigger] head(ts, m) == Some(Token::Comma)
                        &&& head(ts, m + 1) == Some(Token::LBracket)
                        &&& spells_dims(ts, m + 2, q - 2, shape)
                        &&& head(ts, q - 1) == Some(Token::Gt)
                    };
                lemma_base_read(ts, scopes, p + 2, m, *dtype);
                lemma_dims_read(ts, m + 2, q - 2, shape);
                lemma_dims_end(ts, m + 2, q - 2, shape);
                assert(tensor_at(ts, scopes, p) == accept(t, q));
            },
            _ => {},
        }
    }
}

proof fn lemma_dims_end(ts: Tokens, p: int, q: int, ds: Seq<DimV>)
    requires
        spells_dims(ts, p, q, ds),
    ensures
        head(ts, q) == Some(Token::RBracket),
    decreases ds.len(),
{
    if ds.len() > 0 {
        let m = choose|m: int|
            {
                &&& #[trigger] spells_dim(ts, p, m, ds[0])
                &&& ds.len() == 1 && m == q && head(ts, m) == Some(Token::RBracket) || head(ts, m)
                    == Some(Token::Comma) && spells_dims(ts, m + 1, q, ds.drop_first())
            };
        if head(ts, m) == Some(Token::Comma) {
            lemma_dims_end(ts, m + 1, q, ds.drop_first());
        }
    }
}

proof fn lemma_base_moves(ts: Tokens, scopes: Seq<Seq<Seq<char>>>, p: int)
    requires
        base_type_at(ts, scopes, p).value is Ok,
    ensures
        p < base_type_at(ts, scopes, p).pos <= ts.len(),
    decreases ts.len() - p, 0int,
{
    if head(ts, p) == Some(Token::Ident) {
        if ts[p].1 == "Tensor"@ {
            let d = base_type_at(ts, scopes, p + 2);
            assert(head(ts, p + 1) == Some(Token::Lt));
            lemma_base_moves(ts, scopes, p + 2);
            lemma_dims_move(ts, d.pos + 2);
        } else if head(ts, p + 1) == Some(Token::Lt) {
            lemma_args_move(ts, scopes, p + 2);
        }
    }
}

proof fn lemma_dims_move(ts: Tokens, p: int)
    requires
        dims_at(ts, p).value is Ok,
    ensures
        p <= dims_at(ts, p).pos,
    decreases ts.len() - p,
{
    if head(ts, p) is None || head(ts, p) == Some(Token::RBracket) {
    } else {
        let dim = dim_at(ts, p);
        if head(ts, dim.pos) == Some(Token::Comma) && p <= dim.pos {
            lemma_dims_move(ts, dim.pos + 1);
        }
    }
}

proof fn lemma_args_move(ts: Tokens, scopes: Seq<Seq<Seq<char>>>, p: int)
    requires
        type_args_at(ts, scopes, p).value is Ok,
    ensures
        p <= type_args_at(ts, scopes, p).pos,
    decreases ts.len() - p, 1int,
{
    if head(ts, p) is None || head(ts, p) == Some(Token::Gt) {
    } else {
        let arg = base_type_at(ts, scopes, p);
        lemma_base_moves(ts, scopes, p);
        if head(ts, arg.pos) == Some(Token::Comma) && p <= arg.pos {
            lemma_args_move(ts, scopes, arg.pos + 1);
        }
    }
}

proof fn lemma_spelled_forward(ts: Tokens, scopes: Seq<Seq<Seq<char>>>, p: int, q: int, t: TypeV)
    requires
        spells_base(ts, scopes, p, q, t),
    ensures
        p < q <= ts.len(),
{
    lemma_base_read(ts, scopes, p, q, t);
    lemma_base_moves(ts, scopes, p);
}

proof fn lemma_args_read(ts: Tokens, scopes: Seq<Seq<Seq<char>>>, p: int, q: int, args: Seq<TypeV>)
    requires
        spells_args(ts, scopes, p, q, args),
    ensures
        type_args_at(ts, scopes, p) == accept(args, q),
    decreases args, 1int,
{
    if args.len() == 0 {
        assert(args =~= Seq::empty());
    } else {
        let m = choose|m: int|
            {
                &&& spells_base(ts, scopes, p, m, args[0])
                &&& args.len() == 1 && m == q && #[trigger] head(ts, m) == Some(Token::Gt) || head(ts, m)
                    == Some(Token::Comma) && spells_args(ts, scopes, m + 1, q, args.drop_first())
            };
        lemma_base_read(ts, scopes, p, m, args[0]);
        lemma_base_moves(ts, scopes, p);
        if head(ts, m) == Some(Token::Comma) {
            lemma_args_read(ts, scopes, m + 1, q, args.drop_first());
            assert(seq![args[0]] + args.drop_first() =~= args);
        } else {
            assert(seq![args[0]] =~= args);
        }
    }
}

proof fn lemma_base_spelled(ts: Tokens, scopes: Seq<Seq<Seq<char>>>, p: int, q: int, t: TypeV)
    requires
        base_type_at(ts, scopes, p) == accept(t, q),
    ensures
        spells_base(ts, scopes, p, q, t),
    decreases ts.len() - p, 0int,
{
    lemma_keys();
    if 0 <= p < ts.len() {
        lemma_active_exact(scopes, ts[p].1);
    }
    if head(ts, p) == Some(Token::Ident) {
        if ts[p].1 == "Tensor"@ {
            let dtype = base_type_at(ts, scopes, p + 2);
            let shape = shape_at(ts, dtype.pos + 1);
            let dims = dims_at(ts, dtype.pos + 2);
            lemma_base_spelled(ts, scopes, p + 2, dtype.pos, dtype.value->Ok_0);
            lemma_dims_spelled(ts, dtype.pos + 2, dims.pos, dims.value->Ok_0);
            assert(spells_base(ts, scopes, p + 2, dtype.pos, dtype.value->Ok_0));
        } else if head(ts, p + 1) == Some(Token::Lt) {
            let args = type_args_at(ts, scopes, p + 2);
            lemma_args_spelled(ts, scopes, p + 2, args.pos, args.value->Ok_0);
        }
    } else if head(ts, p) == Some(Token::LParen) {
    } else {
        lemma_keyword_exact(ts[p].0, t);
    }
}

proof fn lemma_args_spelled(
    ts: Tokens,
    scopes: Seq<Seq<Seq<char>>>,
    p: int,
    q: int,
    args: Seq<TypeV>,
)
    requires
        type_args_at(ts, scopes, p) == accept(args, q),
        head(ts, q) == Some(Token::Gt),
    ensures
        spells_args(ts, scopes, p, q, args),
    decreases ts.len() - p, 1int,
{
    if head(ts, p) is None || head(ts, p) == Some(Token::Gt) {
    } else {
        let arg = base_type_at(ts, scopes, p);
        lemma_base_spelled(ts, scopes, p, arg.pos, arg.value->Ok_0);
        assert(spells_base(ts, scopes, p, arg.pos, args[0]));
        if head(ts, arg.pos) == Some(Token::Comma) && p <= arg.pos {
            let rest = type_args_at(ts, scopes, arg.pos + 1);
            lemma_args_spelled(ts, scopes, arg.pos + 1, q, rest.value->Ok_0);
            assert(args.drop_first() =~= rest.value->Ok_0);
        }
    }
}

/// A type that is no reference and has no label is read exactly where it is spelled.
pub proof fn lemma_base_exact(ts: Tokens, scopes: Seq<Seq<Seq<char>>>, p: int, q: int, t: TypeV)
    ensures
        base_type_at(ts, scopes, p) == accept(t, q) <==> spells_base(ts, scopes, p, q, t),
{
    if base_type_at(ts, scopes, p) == accept(t, q) {
        lemma_base_spelled(ts, scopes, p, q, t);
    }
    if spells_base(ts, scopes, p, q, t) {
        lemma_base_read(ts, scopes, p, q, t);
    }
}

proof fn lemma_base_kind(ts: Tokens, scopes: Seq<Seq<Seq<char>>>, p: int, q: int, t: TypeV)
    requires
        spells_base(ts, scopes, p, q, t),
    ensures
        !(t is Ref),
        !(t is Privacy),
        !(t is Slice),
        head(ts, p) != Some(Token::Amp),
        head(ts, p) != Some(Token::Mut),
        head(ts, p) != Some(Token::LBracket),
{
    if keyword(t) is Some && head(ts, p) == keyword(t) {
        lemma_keyword_exact(ts[p].0, t);
    }
}

proof fn lemma_type_read(ts: Tokens, scopes: Seq<Seq<Seq<char>>>, p: int, q: int, t: TypeV)
    requires
        spells(ts, scopes, p, q, t),
    ensures
        type_at(ts, scopes, p) == accept(t, q),
        head(ts, p) != Some(Token::LBracket),
    decreases t,
{
    match t {
        TypeV::Ref { mutable, inner } => {
            let r = if mutable {
                p + 2
            } else {
                p + 1
            };
            match *inner {
                TypeV::Slice(e) => lemma_type_read(ts, scopes, r + 1, q - 1, *e),
                _ => lemma_type_read(ts, scopes, r, q, *inner),
            }
        },
        TypeV::Privacy(e, tag) => {
            let m = choose|m: int| #[trigger]
                spells_base(ts, scopes, p, m, *e) && spells_label(ts, m, q, tag);
            lemma_base_exact(ts, scopes, p, m, *e);
            lemma_base_kind(ts, scopes, p, m, *e);
            lemma_label_exact(ts, m, q, tag);
        },
        _ => {
            lemma_base_exact(ts, scopes, p, q, t);
            lemma_base_kind(ts, scopes, p, q, t);
            let label = privacy_at(ts, q);
            if label.value is Ok {
                lemma_label_exact(ts, q, label.pos, label.value->Ok_0);
            }
        },
    }
}

proof fn lemma_type_spelled(ts: Tokens, scopes: Seq<Seq<Seq<char>>>, p: int, q: int, t: TypeV)
    requires
        type_at(ts, scopes, p) == accept(t, q),
    ensures
        spells(ts, scopes, p, q, t),
    decreases ts.len() - p,
{
    if head(ts, p) == Some(Token::Amp) {
        let mutable = head(ts, p + 1) == Some(Token::Mut);
        let r = if mutable {
            p + 2
        } else {
            p + 1
        };
        if head(ts, r) == Some(Token::LBracket) {
            let elem = type_at(ts, scopes, r + 1);
            lemma_type_spelled(ts, scopes, r + 1, elem.pos, elem.value->Ok_0);
        } else {
            let inner = type_at(ts, scopes, r);
            lemma_type_spelled(ts, scopes, r, inner.pos, inner.value->Ok_0);
            lemma_spelled_whole(ts, scopes, r, inner.pos, inner.value->Ok_0);
        }
    } else {
        let base = base_type_at(ts, scopes, p);
        let b = base.value->Ok_0;
        lemma_base_exact(ts, scopes, p, base.pos, b);
        lemma_base_kind(ts, scopes, p, base.pos, b);
        let label = privacy_at(ts, base.pos);
        if label.value is Ok {
            lemma_label_exact(ts, base.pos, label.pos, label.value->Ok_0);
            assert(spells_base(ts, scopes, p, base.pos, b));
        } else {
            assert forall|r: int, tag: TagV| !#[trigger] spells_label(ts, q, r, tag) by {
                lemma_label_exact(ts, q, r, tag);
            }
        }
    }
}

proof fn lemma_spelled_whole(ts: Tokens, scopes: Seq<Seq<Seq<char>>>, p: int, q: int, t: TypeV)
    requires
        spells(ts, scopes, p, q, t),
    ensures
        !(t is Slice),
{
    if t is Slice {
        lemma_base_kind(ts, scopes, p, q, t);
    }
}

pub(crate) proof fn lemma_type_moves(ts: Tokens, scopes: Seq<Seq<Seq<char>>>, p: int)
    requires
        type_at(ts, scopes, p).value is Ok,
    ensures
        p < type_at(ts, scopes, p).pos,
    decreases ts.len() - p,
{
    if head(ts, p) == Some(Token::Amp) {
        let mutable = head(ts, p + 1) == Some(Token::Mut);
        let r = if mutable {
            p + 2
        } else {
            p + 1
        };
        if head(ts, r) == Some(Token::LBracket) {
            lemma_type_moves(ts, scopes, r + 1);
        } else {
            lemma_type_moves(ts, scopes, r);
        }
    } else {
        let base = base_type_at(ts, scopes, p);
        lemma_base_moves(ts, scopes, p);
        let label = privacy_at(ts, base.pos);
        if label.value is Ok {
            let tag = label.value->Ok_0;
            lemma_label_exact(ts, base.pos, label.pos, tag);
            lemma_label_moves(ts, base.pos, label.pos, tag);
        }
    }
}

proof fn lemma_label_moves(ts: Tokens, p: int, q: int, tag: TagV)
    requires
        spells_label(ts, p, q, tag),
    ensures
        p < q,
{
    if let TagV::Differential { eps, delta } = tag {
        if delta is Some {
            let m = choose|m: int|
                {
                    &&& #[trigger] spells_rational(ts, p + 5, m, eps)
                    &&& head(ts, m) == Some(Token::Comma)
                    &&& word(ts, m + 1, "delta"@)
                    &&& head(ts, m + 2) == Some(Token::Colon)
                    &&& spells_rational(ts, m + 3, q - 2, delta->0)
                };
            assert(p + 5 < m);
        }
    }
}

/// A type is read exactly where it is spelled, and as the one that is spelled: a
/// reference, with or without the right to change, to a type or to a slice; or a type with
/// or without a privacy label.
pub proof fn lemma_type_exact(ts: Tokens, scopes: Seq<Seq<Seq<char>>>, p: int, q: int, t: TypeV)
    ensures
        type_at(ts, scopes, p) == accept(t, q) <==> spells(ts, scopes, p, q, t),
{
    if type_at(ts, scopes, p) == accept(t, q) {
        lemma_type_spelled(ts, scopes, p, q, t);
    }
    if spells(ts, scopes, p, q, t) {
        lemma_type_read(ts, scopes, p, q, t);
    }
}

} // verus!
