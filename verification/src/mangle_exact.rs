//! Laws of how types read in instance names: labels leave no trace, and different types
//! read differently.

use vstd::prelude::*;

use crate::ast::TypeV;
use crate::mangle::{mangled, type_text, type_texts};
use crate::mangle_laws::{lemma_scalar_mark, lemma_scalar_texts, scalar, unbroken};
use crate::number::is_digit;
use crate::semantic::type_laws::{all_bare, bare};
use crate::syntactic::literal_laws::lemma_number_back;
use crate::text::{decimal, join};

verus! {

/// Privacy labels, at every depth, leave no trace in how a type reads: types that are the
/// same but for labels read alike.
pub proof fn lemma_labels_no_trace(t: TypeV)
    ensures
        type_text(t) == type_text(bare(t)),
    decreases t,
{
    match t {
        TypeV::Privacy(e, _) => lemma_labels_no_trace(*e),
        TypeV::Generic(_, ts) | TypeV::Tuple(ts) => {
            let bs = all_bare(ts);
            assert forall|i: int| 0 <= i < ts.len() implies type_text(#[trigger] ts[i])
                == type_text(bs[i]) by {
                lemma_labels_no_trace(ts[i]);
            }
            assert(type_texts(ts) =~= type_texts(bs));
        },
        TypeV::Array(e, _) => lemma_labels_no_trace(*e),
        TypeV::Ref { inner, .. } => lemma_labels_no_trace(*inner),
        TypeV::Slice(e) => lemma_labels_no_trace(*e),
        TypeV::Tensor { dtype, .. } => lemma_labels_no_trace(*dtype),
        _ => {},
    }
}

/// Whether a type is built from scalars by references, slices and arrays.
pub open spec fn simple(t: TypeV) -> bool
    decreases t,
{
    scalar(t) || match t {
        TypeV::Ref { inner, .. } => simple(*inner),
        TypeV::Slice(e) => simple(*e),
        TypeV::Array(e, _) => simple(*e),
        _ => false,
    }
}

proof fn lemma_underscore(t: TypeV)
    requires
        simple(t),
        !scalar(t),
    ensures
        ({
            let s = type_text(t);
            match t {
                TypeV::Ref { mutable, inner } => {
                    &&& s.len() > 8 && s[0] == 'r' && s[3] == '_'
                    &&& mutable ==> s[4] == 'm' && s.skip(8) == type_text(*inner)
                    &&& !mutable ==> s[4] == 'i' && s.skip(10) == type_text(*inner)
                },
                TypeV::Slice(e) => {
                    &&& s.len() > 6 && s[0] == 's' && s[5] == '_'
                    &&& s.skip(6) == type_text(*e)
                },
                TypeV::Array(e, n) => {
                    &&& s.len() > 4 && s[0] == 'a' && s[3] == '_'
                    &&& s.skip(4) == type_text(*e) + seq!['_'] + decimal(n as nat)
                },
                _ => false,
            }
        }),
        !unbroken(type_text(t)),
    decreases t,
{
    reveal_strlit("ref_");
    reveal_strlit("mut");
    reveal_strlit("immut");
    reveal_strlit("slice_");
    reveal_strlit("arr_");
    reveal_strlit("_");
    let s = type_text(t);
    match t {
        TypeV::Ref { mutable, inner } => {
            lemma_text_not_empty(*inner);
            let i = type_text(*inner);
            if mutable {
                assert(s.skip(8) =~= i);
            } else {
                assert(s.skip(10) =~= i);
            }
            assert(s[3] == '_');
        },
        TypeV::Slice(e) => {
            lemma_text_not_empty(*e);
            assert(s.skip(6) =~= type_text(*e));
            assert(s[5] == '_');
        },
        TypeV::Array(e, n) => {
            lemma_text_not_empty(*e);
            assert("_"@ =~= seq!['_']);
            assert(s.skip(4) =~= type_text(*e) + seq!['_'] + decimal(n as nat));
            assert(s[3] == '_');
        },
        _ => {},
    }
}

proof fn lemma_text_not_empty(t: TypeV)
    requires
        simple(t),
    ensures
        type_text(t).len() > 0,
    decreases t,
{
    reveal_strlit("ref_");
    reveal_strlit("slice_");
    reveal_strlit("arr_");
    if scalar(t) {
        lemma_scalar_mark(t);
    }
}

proof fn lemma_split_last(a: Seq<char>, b: Seq<char>, x: Seq<char>, y: Seq<char>)
    requires
        unbroken(x),
        unbroken(y),
        a + seq!['_'] + x == b + seq!['_'] + y,
    ensures
        a == b,
        x == y,
{
    let s = a + seq!['_'] + x;
    let r = b + seq!['_'] + y;
    assert(s == r);
    assert(s.len() == a.len() + 1 + x.len());
    assert(r.len() == b.len() + 1 + y.len());
    assert(s[a.len() as int] == '_');
    assert(r[b.len() as int] == '_');
    if a.len() < b.len() {
        assert(x[b.len() - a.len() - 1] == s[b.len() as int]);
    }
    if b.len() < a.len() {
        assert(y[a.len() - b.len() - 1] == r[a.len() as int]);
    }
    assert(a.len() == b.len());
    assert(a =~= s.take(a.len() as int));
    assert(b =~= r.take(a.len() as int));
    assert(x =~= s.skip(a.len() as int + 1));
    assert(y =~= r.skip(a.len() as int + 1));
}

proof fn lemma_decimal_unbroken(n: nat)
    ensures
        unbroken(decimal(n)),
{
    lemma_number_back(n, 0);
    let s = decimal(n);
    assert forall|i: int| 0 <= i < s.len() implies #[trigger] s[i] != '_' by {
        assert(is_digit(s[i]));
    }
}

/// Types built from scalars by references, slices and arrays read differently where they
/// differ.
pub proof fn lemma_simple_texts(s: TypeV, t: TypeV)
    requires
        simple(s),
        simple(t),
        type_text(s) == type_text(t),
    ensures
        s == t,
    decreases s,
{
    if scalar(s) {
        lemma_scalar_mark(s);
    } else {
        lemma_underscore(s);
    }
    if scalar(t) {
        lemma_scalar_mark(t);
    } else {
        lemma_underscore(t);
    }
    if scalar(s) && scalar(t) {
        lemma_scalar_texts(s, t);
    } else {
        match (s, t) {
            (TypeV::Ref { inner: x, .. }, TypeV::Ref { inner: y, .. }) => lemma_simple_texts(
                *x,
                *y,
            ),
            (TypeV::Slice(x), TypeV::Slice(y)) => lemma_simple_texts(*x, *y),
            (TypeV::Array(x, m), TypeV::Array(y, n)) => {
                lemma_decimal_unbroken(m as nat);
                lemma_decimal_unbroken(n as nat);
                lemma_split_last(type_text(*x), type_text(*y), decimal(m as nat), decimal(n as nat));
                lemma_number_back(m as nat, 0);
                lemma_number_back(n as nat, 0);
                lemma_simple_texts(*x, *y);
            },
            _ => {},
        }
    }
}

/// The name of an instance starts with the name of what it is an instance of.
pub proof fn lemma_mangled_starts(base: Seq<char>, args: Seq<TypeV>)
    ensures
        mangled(base, args).len() > base.len(),
        mangled(base, args).take(base.len() as int) == base,
        mangled(base, args)[base.len() as int] == '_',
{
    reveal_strlit("_");
    assert(mangled(base, args).take(base.len() as int) =~= base);
}

/// The name of an instance goes on with the type arguments, in their order: one more adds
/// its text behind an underscore.
pub proof fn lemma_mangled_grows(base: Seq<char>, args: Seq<TypeV>, t: TypeV)
    ensures
        mangled(base, seq![t]) == base + "_"@ + type_text(t),
        args.len() > 0 ==> mangled(base, args.push(t)) == mangled(base, args) + "_"@ + type_text(t),
{
    let one = type_texts(seq![t]);
    assert(one =~= seq![type_text(t)]);
    assert(join(one, "_"@) =~= type_text(t));
    if args.len() > 0 {
        let all = type_texts(args.push(t));
        assert(all.drop_last() =~= type_texts(args));
        assert(all.last() == type_text(t));
        let j = join(type_texts(args), "_"@);
        assert(join(all, "_"@) =~= j + "_"@ + type_text(t));
        assert(mangled(base, args.push(t)) =~= mangled(base, args) + "_"@ + type_text(t));
    }
}

/// A generic type reads like the name of its instance, and a tuple like an instance of
/// `tuple`.
pub proof fn lemma_generic_text(name: Seq<char>, args: Seq<TypeV>)
    ensures
        type_text(TypeV::Generic(name, args)) == mangled(name, args),
        type_text(TypeV::Tuple(args)) == mangled("tuple"@, args),
{
    reveal_strlit("tuple");
    reveal_strlit("tuple_");
    reveal_strlit("_");
    assert("tuple_"@ =~= "tuple"@ + "_"@);
}

} // verus!
