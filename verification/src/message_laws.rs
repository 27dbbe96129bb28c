//! Laws of the texts that the checks give back: which names they hold, and how they are
//! put together.

use vstd::prelude::*;

use crate::ast::{BinaryOp, DimV};
use crate::borrow::{
    borrow_error, exclusive_error, overlap, place_text, read_error, LoanKind, LoanV,
};
use crate::calc::fold_binary;
use crate::expr::AttrArgV;
use crate::float::float_of_int;
use crate::float_laws::float;
use crate::init::{find_local, var_name};
use crate::literal::FloatKind;
use crate::mir::{LocalV, PlaceV};
use crate::number::unsigned_text;
use crate::semantic::attr::rational_arg_bits;
use crate::semantic::helpers::{constant_dim, import_result};
use crate::semantic::rational::{error_name, RationalError};
use crate::semantic::rational_laws::{lemma_fraction_text, lemma_integer_text};
use crate::syntactic::literal_laws::lemma_number_back;
use crate::text::{decimal, decimal_int, join};

verus! {

// Names.

/// A variable goes by the name that it was declared with; one without a name goes by its
/// number, which can be read back.
pub proof fn lemma_name_exact(locals: Seq<LocalV>, id: usize)
    ensures
        match find_local(locals, id) {
            Some(LocalV { name: Some(n), .. }) => var_name(locals, id) == n,
            _ => {
                let s = var_name(locals, id);
                &&& s.len() > 5
                &&& s.take(5) == "_var_"@
                &&& unsigned_text(s.skip(5)) == Some(id as nat)
            },
        },
{
    reveal_strlit("_var_");
    lemma_number_back(id as nat, 0);
    let d = decimal(id as nat);
    assert(("_var_"@ + d).take(5) =~= "_var_"@);
    assert(("_var_"@ + d).skip(5) =~= d);
}

// Complaints about borrows.

/// Whether a complaint says what is not allowed, of which place, and ends by naming who
/// holds the borrow.
pub open spec fn blames(
    message: Seq<char>,
    action: Seq<char>,
    place: Seq<char>,
    holder: Seq<char>,
) -> bool {
    exists|between: Seq<char>|
        message == "cannot "@ + action + " `"@ + place + #[trigger] as_it_is(between) + holder
            + "`"@
}

/// A text as it is.
pub open spec fn as_it_is(s: Seq<char>) -> Seq<char> {
    s
}

/// Whether loan `i` is the first that overlaps a place, among the mutable ones only where
/// `mutable_only` says so.
pub open spec fn first_in_the_way(
    p: PlaceV,
    loans: Seq<LoanV>,
    mutable_only: bool,
    i: int,
) -> bool {
    &&& 0 <= i < loans.len()
    &&& overlap(p, loans[i].place)
    &&& mutable_only ==> loans[i].kind == LoanKind::Mut
    &&& forall|j: int|
        0 <= j < i ==> !(overlap(p, (#[trigger] loans[j]).place) && (mutable_only ==> loans[j].kind
            == LoanKind::Mut))
}

proof fn lemma_next_in_the_way(p: PlaceV, loans: Seq<LoanV>, mutable_only: bool, i: int)
    requires
        loans.len() > 0,
        first_in_the_way(p, loans, mutable_only, i),
        !first_in_the_way(p, loans, mutable_only, 0),
    ensures
        first_in_the_way(p, loans.drop_first(), mutable_only, i - 1),
        loans.drop_first()[i - 1] == loans[i],
{
    let rest = loans.drop_first();
    assert(i > 0);
    assert forall|j: int| 0 <= j < i - 1 implies !(overlap(p, (#[trigger] rest[j]).place) && (
    mutable_only ==> rest[j].kind == LoanKind::Mut)) by {
        assert(rest[j] == loans[j + 1]);
    }
}

/// The complaint about a read blames the first mutable loan in the way.
pub proof fn lemma_read_blames(p: PlaceV, loans: Seq<LoanV>, locals: Seq<LocalV>, i: int)
    requires
        first_in_the_way(p, loans, true, i),
    ensures
        read_error(p, loans, locals) is Some,
        blames(
            read_error(p, loans, locals)->0,
            "read"@,
            place_text(p, locals),
            var_name(locals, loans[i].borrow_var),
        ),
    decreases loans.len(),
{
    if first_in_the_way(p, loans, true, 0) {
        assert(i == 0);
        let mid = "` because it is mutably borrowed as `"@;
        reveal_strlit("cannot read `");
        reveal_strlit("cannot ");
        reveal_strlit("read");
        reveal_strlit(" `");
        assert("cannot read `"@ =~= "cannot "@ + "read"@ + " `"@);
        assert(read_error(p, loans, locals)->0 == "cannot "@ + "read"@ + " `"@ + place_text(
            p,
            locals,
        ) + as_it_is(mid) + var_name(locals, loans[0].borrow_var) + "`"@);
    } else {
        lemma_next_in_the_way(p, loans, true, i);
        lemma_read_blames(p, loans.drop_first(), locals, i - 1);
    }
}

/// The complaint about an access that no loan allows blames the first loan in the way.
pub proof fn lemma_access_blames(
    p: PlaceV,
    loans: Seq<LoanV>,
    locals: Seq<LocalV>,
    action: Seq<char>,
    i: int,
)
    requires
        first_in_the_way(p, loans, false, i),
    ensures
        exclusive_error(p, loans, locals, action) is Some,
        blames(
            exclusive_error(p, loans, locals, action)->0,
            action,
            place_text(p, locals),
            var_name(locals, loans[i].borrow_var),
        ),
    decreases loans.len(),
{
    if first_in_the_way(p, loans, false, 0) {
        assert(i == 0);
        let kind = crate::borrow::kind_text(loans[0].kind);
        let mid = "` because it is "@ + kind + " borrowed as `"@;
        assert(exclusive_error(p, loans, locals, action)->0 =~= "cannot "@ + action + " `"@
            + place_text(p, locals) + as_it_is(mid) + var_name(locals, loans[0].borrow_var)
            + "`"@);
    } else {
        lemma_next_in_the_way(p, loans, false, i);
        lemma_access_blames(p, loans.drop_first(), locals, action, i - 1);
    }
}

/// The complaint about a borrow blames the first loan in the way: any loan where the
/// new borrow allows changes, a mutable one where it does not.
pub proof fn lemma_borrow_blames(
    p: PlaceV,
    mutable: bool,
    loans: Seq<LoanV>,
    locals: Seq<LocalV>,
    i: int,
)
    requires
        first_in_the_way(p, loans, !mutable, i),
    ensures
        borrow_error(p, mutable, loans, locals) is Some,
        blames(
            borrow_error(p, mutable, loans, locals)->0,
            if mutable {
                "mutably borrow"@
            } else {
                "shared-borrow"@
            },
            place_text(p, locals),
            var_name(locals, loans[i].borrow_var),
        ),
    decreases loans.len(),
{
    if first_in_the_way(p, loans, !mutable, 0) {
        assert(i == 0);
        let holder = var_name(locals, loans[0].borrow_var);
        let place = place_text(p, locals);
        let e = borrow_error(p, mutable, loans, locals)->0;
        reveal_strlit("cannot ");
        reveal_strlit(" `");
        if mutable {
            let kind = crate::borrow::kind_text(loans[0].kind);
            let mid = "` because it is already "@ + kind + " borrowed as `"@;
            reveal_strlit("cannot mutably borrow `");
            reveal_strlit("mutably borrow");
            assert("cannot mutably borrow `"@ =~= "cannot "@ + "mutably borrow"@ + " `"@);
            assert(e =~= "cannot "@ + "mutably borrow"@ + " `"@ + place + as_it_is(mid) + holder
                + "`"@);
        } else {
            let mid = "` because it is mutably borrowed as `"@;
            reveal_strlit("cannot shared-borrow `");
            reveal_strlit("shared-borrow");
            assert("cannot shared-borrow `"@ =~= "cannot "@ + "shared-borrow"@ + " `"@);
            assert(e == "cannot "@ + "shared-borrow"@ + " `"@ + place + as_it_is(mid) + holder
                + "`"@);
        }
    } else {
        lemma_next_in_the_way(p, loans, !mutable, i);
        lemma_borrow_blames(p, mutable, loans.drop_first(), locals, i - 1);
    }
}

// Texts in a row.

/// Texts are joined from first to last, with the separator between two of them and
/// nowhere else.
pub proof fn lemma_join_first(a: Seq<char>, parts: Seq<Seq<char>>, sep: Seq<char>)
    ensures
        join(Seq::empty(), sep) == Seq::<char>::empty(),
        join(seq![a], sep) == a,
        parts.len() > 0 ==> join(seq![a] + parts, sep) == a + sep + join(parts, sep),
    decreases parts.len(),
{
    if parts.len() > 0 {
        let all = seq![a] + parts;
        assert(all.drop_last() =~= seq![a] + parts.drop_last());
        assert(all.last() == parts.last());
        if parts.len() == 1 {
            assert(all.drop_last() =~= seq![a]);
        } else {
            lemma_join_first(a, parts.drop_last(), sep);
            assert(join(all, sep) =~= a + sep + join(parts, sep));
        }
    }
}

// Modules and sizes.

/// A module is found or not by whether its file is there. Its file lies under the path of
/// the library and is named after the module, and the complaint ends with the module.
pub proof fn lemma_import_exact(module: Seq<char>, path: Seq<char>, there: bool)
    ensures
        import_result(module, path, there) is Ok <==> there,
        match import_result(module, path, there) {
            Ok(file) => {
                &&& file.len() > path.len() + module.len() + 5
                &&& file.take(path.len() as int) == path
                &&& file[path.len() as int] == '/'
                &&& file[file.len() - 5 - module.len() - 1] == '/'
                &&& file.skip(file.len() - 5 - module.len()) == module + ".xiyi"@
            },
            Err(e) => e.len() >= module.len() && e.skip(e.len() - module.len()) == module,
        },
{
    reveal_strlit("/xiyi-core/src/");
    reveal_strlit(".xiyi");
    let file = path + "/xiyi-core/src/"@ + module + ".xiyi"@;
    assert(file.take(path.len() as int) =~= path);
    assert(file.skip(file.len() - 5 - module.len()) =~= module + ".xiyi"@);
    let e = "module not found: "@ + module;
    assert(e.skip(e.len() - module.len()) =~= module);
}

/// Only constant dimensions have a size, and it is the constant where 64 bits with a sign
/// can hold it.
pub proof fn lemma_constant_dim_exact(d: DimV)
    ensures
        constant_dim(d) is Ok <==> d is Const,
        d matches DimV::Const(c) ==> c <= i64::MAX ==> constant_dim(d) == Ok::<int, Seq<char>>(
            c as int,
        ),
{
}

// Rational arguments.

/// Different faults of a rational number have different names.
pub proof fn lemma_fault_names(a: RationalError, b: RationalError)
    ensures
        error_name(a) == error_name(b) <==> a == b,
{
    reveal_strlit("Empty");
    reveal_strlit("InvalidFormat");
    reveal_strlit("InvalidNumerator");
    reveal_strlit("InvalidDenominator");
    reveal_strlit("ZeroDenominator");
    reveal_strlit("InvalidDecimal");
    reveal_strlit("Overflow");
    let (x, y) = (error_name(a), error_name(b));
    assert(x == y ==> x.len() == y.len() && x[0] == y[0] && x[7] == y[7]);
}

/// A fraction in an argument is the float that dividing its integers as floats gives; an
/// argument of another form is refused.
pub proof fn lemma_rational_argument(n: int, d: nat, arg: AttrArgV)
    requires
        i128::MIN <= n <= i128::MAX,
        0 < d <= u128::MAX,
    ensures
        ({
            let k = FloatKind::F64;
            let whole = rational_arg_bits(AttrArgV::Rational(decimal_int(n)));
            let part = rational_arg_bits(
                AttrArgV::Rational(decimal_int(n) + seq!['/'] + decimal(d)),
            );
            let (x, y) = (float_of_int(k, n), float_of_int(k, d as int));
            &&& part is Ok
            &&& fold_binary(BinaryOp::Div, float(k, x), float(k, y)) == Some(float(k, part->Ok_0))
            &&& whole is Ok
            &&& fold_binary(BinaryOp::Div, float(k, x), float(k, float_of_int(k, 1))) == Some(
                float(k, whole->Ok_0),
            )
        }),
        arg !is Rational ==> rational_arg_bits(arg) is Err,
{
    lemma_fraction_text(n, d);
    lemma_integer_text(n);
}

} // verus!
