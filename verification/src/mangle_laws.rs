//! Laws of the names of instances: different instances of one template have different
//! names.

use vstd::prelude::*;

use crate::ast::TypeV;
use crate::mangle::{mangled, type_text, type_texts};
use crate::text::join;

verus! {

/// Whether a text holds no underscore, which separates the parts of an instance name.
pub open spec fn unbroken(s: Seq<char>) -> bool {
    forall|i: int| 0 <= i < s.len() ==> #[trigger] s[i] != '_'
}

/// Whether a type is built in and has no parts.
pub open spec fn scalar(t: TypeV) -> bool {
    match t {
        TypeV::I8
        | TypeV::I16
        | TypeV::I32
        | TypeV::I64
        | TypeV::I128
        | TypeV::U8
        | TypeV::U16
        | TypeV::U32
        | TypeV::U64
        | TypeV::U128
        | TypeV::F16
        | TypeV::F32
        | TypeV::F64
        | TypeV::Bool
        | TypeV::Char
        | TypeV::Str
        | TypeV::Unit
        | TypeV::Never
        | TypeV::SymInt => true,
        _ => false,
    }
}

/// What tells the text of a scalar from that of another: its length, its first
/// character and its second.
pub open spec fn scalar_mark(t: TypeV) -> (nat, char, char) {
    match t {
        TypeV::I8 => (2, 'i', '8'),
        TypeV::I16 => (3, 'i', '1'),
        TypeV::I32 => (3, 'i', '3'),
        TypeV::I64 => (3, 'i', '6'),
        TypeV::I128 => (4, 'i', '1'),
        TypeV::U8 => (2, 'u', '8'),
        TypeV::U16 => (3, 'u', '1'),
        TypeV::U32 => (3, 'u', '3'),
        TypeV::U64 => (3, 'u', '6'),
        TypeV::U128 => (4, 'u', '1'),
        TypeV::F16 => (3, 'f', '1'),
        TypeV::F32 => (3, 'f', '3'),
        TypeV::F64 => (3, 'f', '6'),
        TypeV::Bool => (4, 'b', 'o'),
        TypeV::Char => (4, 'c', 'h'),
        TypeV::Str => (3, 's', 't'),
        TypeV::Unit => (4, 'u', 'n'),
        TypeV::Never => (5, 'n', 'e'),
        _ => (6, 's', 'y'),
    }
}

pub(crate) proof fn lemma_scalar_mark(t: TypeV)
    requires
        scalar(t),
    ensures
        ({
            let s = type_text(t);
            (s.len(), s[0], s[1]) == scalar_mark(t)
        }),
        unbroken(type_text(t)),
{
    match t {
        TypeV::I8 => {
            reveal_strlit("i8");
        },
        TypeV::I16 => {
            reveal_strlit("i16");
        },
        TypeV::I32 => {
            reveal_strlit("i32");
        },
        TypeV::I64 => {
            reveal_strlit("i64");
        },
        TypeV::I128 => {
            reveal_strlit("i128");
        },
        TypeV::U8 => {
            reveal_strlit("u8");
        },
        TypeV::U16 => {
            reveal_strlit("u16");
        },
        TypeV::U32 => {
            reveal_strlit("u32");
        },
        TypeV::U64 => {
            reveal_strlit("u64");
        },
        TypeV::U128 => {
            reveal_strlit("u128");
        },
        TypeV::F16 => {
            reveal_strlit("f16");
        },
        TypeV::F32 => {
            reveal_strlit("f32");
        },
        TypeV::F64 => {
            reveal_strlit("f64");
        },
        TypeV::Bool => {
            reveal_strlit("bool");
        },
        TypeV::Char => {
            reveal_strlit("char");
        },
        TypeV::Str => {
            reveal_strlit("str");
        },
        TypeV::Unit => {
            reveal_strlit("unit");
        },
        TypeV::Never => {
            reveal_strlit("never");
        },
        _ => {
            reveal_strlit("symint");
        },
    }
}

proof fn lemma_join_parts(a: Seq<Seq<char>>, b: Seq<Seq<char>>)
    requires
        a.len() == b.len(),
        forall|i: int| 0 <= i < a.len() ==> unbroken(#[trigger] a[i]),
        forall|i: int| 0 <= i < b.len() ==> unbroken(#[trigger] b[i]),
        join(a, "_"@) == join(b, "_"@),
    ensures
        a == b,
    decreases a.len(),
{
    if a.len() == 1 {
        assert(a =~= b);
    } else if a.len() > 1 {
        reveal_strlit("_");
        let x = join(a, "_"@);
        let p = join(a.drop_last(), "_"@);
        let q = join(b.drop_last(), "_"@);
        let s = a.last();
        let t = b.last();
        assert(x =~= p + "_"@ + s);
        assert(x =~= q + "_"@ + t);
        assert(x[p.len() as int] == '_');
        assert(x[q.len() as int] == '_');
        if p.len() < q.len() {
            assert(s[q.len() - p.len() - 1] == x[q.len() as int]);
        }
        if q.len() < p.len() {
            assert(t[p.len() - q.len() - 1] == x[p.len() as int]);
        }
        assert(p =~= x.take(p.len() as int));
        assert(q =~= x.take(p.len() as int));
        assert(s =~= x.skip(p.len() as int + 1));
        assert(t =~= x.skip(p.len() as int + 1));
        lemma_join_parts(a.drop_last(), b.drop_last());
        assert(a =~= a.drop_last().push(s));
        assert(b =~= b.drop_last().push(t));
    } else {
        assert(a =~= b);
    }
}

/// An instance name tells the type arguments apart where their texts hold no underscore:
/// two instances of one template with one name have arguments that read alike.
pub proof fn lemma_instance_names(base: Seq<char>, a: Seq<TypeV>, b: Seq<TypeV>)
    requires
        a.len() == b.len(),
        forall|i: int| 0 <= i < a.len() ==> unbroken(type_text(#[trigger] a[i])),
        forall|i: int| 0 <= i < b.len() ==> unbroken(type_text(#[trigger] b[i])),
        mangled(base, a) == mangled(base, b),
    ensures
        forall|i: int|
            0 <= i < a.len() ==> type_text(#[trigger] a[i]) == type_text(#[trigger] b[i]),
{
    let x = type_texts(a);
    let y = type_texts(b);
    let n = (base + "_"@).len() as int;
    assert(join(x, "_"@) =~= mangled(base, a).skip(n));
    assert(join(y, "_"@) =~= mangled(base, b).skip(n));
    assert forall|i: int| 0 <= i < x.len() implies unbroken(#[trigger] x[i]) by {
        assert(unbroken(type_text(a[i])));
    }
    assert forall|i: int| 0 <= i < y.len() implies unbroken(#[trigger] y[i]) by {
        assert(unbroken(type_text(b[i])));
    }
    lemma_join_parts(x, y);
    assert forall|i: int| 0 <= i < a.len() implies type_text(#[trigger] a[i]) == type_text(
        #[trigger] b[i],
    ) by {
        assert(x[i] == y[i]);
    }
}

/// Different built-in types without parts read differently.
pub proof fn lemma_scalar_texts(s: TypeV, t: TypeV)
    requires
        scalar(s),
        scalar(t),
        type_text(s) == type_text(t),
    ensures
        s == t,
{
    lemma_scalar_mark(s);
    lemma_scalar_mark(t);
}

/// Different instances of one template for built-in types have different names.
pub proof fn lemma_scalar_instances(base: Seq<char>, a: Seq<TypeV>, b: Seq<TypeV>)
    requires
        a.len() == b.len(),
        forall|i: int| 0 <= i < a.len() ==> scalar(#[trigger] a[i]),
        forall|i: int| 0 <= i < b.len() ==> scalar(#[trigger] b[i]),
        mangled(base, a) == mangled(base, b),
    ensures
        a == b,
{
    assert forall|i: int| 0 <= i < a.len() implies unbroken(type_text(#[trigger] a[i])) by {
        lemma_scalar_mark(a[i]);
    }
    assert forall|i: int| 0 <= i < b.len() implies unbroken(type_text(#[trigger] b[i])) by {
        lemma_scalar_mark(b[i]);
    }
    lemma_instance_names(base, a, b);
    assert forall|i: int| 0 <= i < a.len() implies #[trigger] a[i] == b[i] by {
        lemma_scalar_texts(a[i], b[i]);
    }
    assert(a =~= b);
}

} // verus!
