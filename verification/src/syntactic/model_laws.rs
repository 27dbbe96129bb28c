//! Laws of how definitions are read: functions with their bodies, and models with their
//! members.

use vstd::prelude::*;

use crate::expr::{Attribute, Block, Expr, FnDef, FnSigV, ModelField};
use crate::item::ModelDef;
use crate::syntactic::header_laws::{
    lemma_header_exact, lemma_member_exact, lemma_model_exact, spells_field, spells_header,
    spells_optional_generics,
};
use crate::syntactic::parse_func::{func_read, header_at, header_read, scope_closed};
use crate::syntactic::parse_model::{
    field_added, function_added, member_at, member_read, members_read, method_read, model_at,
    model_read, moved, unread, ModelBody, ModelMemberV,
};
use crate::syntactic::type_laws::word;
use crate::syntactic::{head, Parser, Read, Token};

verus! {

/// What a function definition says of the function besides its attributes and its body.
pub open spec fn sig_of(d: FnDef) -> FnSigV {
    FnSigV {
        name: d.name@,
        params: d.params.deep_view(),
        return_type: d.return_type.deep_view(),
        generic_params: d.generic_params.deep_view(),
    }
}

/// A function definition that was read has the header that the tokens spell and the body
/// that was read behind it, with the function's type parameters in scope while that was
/// read, and not any more afterwards.
pub proof fn lemma_func_ok<B: Fn(Parser) -> Read<Block>>(
    b: B,
    attributes: Vec<Attribute>,
    before: Parser,
    after: Parser,
    d: FnDef,
)
    requires
        func_read(b, attributes, before, after, Ok::<FnDef, String>(d)),
    ensures
        d.attributes == attributes,
        exists|start: Parser, done: Parser|
            {
                &&& #[trigger] call_ensures(b, (start,), (done, Ok::<Block, String>(d.body)))
                &&& start.tokens == before.tokens
                &&& spells_header(
                    before.toks(),
                    before.scopes(),
                    before.pos as int,
                    start.pos as int,
                    sig_of(d),
                )
                &&& start.scopes() == before.scopes().push(
                    Seq::new(
                        d.generic_params.deep_view().len(),
                        |i: int| d.generic_params.deep_view()[i].name,
                    ),
                )
                &&& after.pos == done.pos
                &&& after.tokens == done.tokens
                &&& after.generic_scopes@ == (if done.generic_scopes.len() == 0 {
                    done.generic_scopes@
                } else {
                    done.generic_scopes@.drop_last()
                })
            },
{
    let ts = before.toks();
    let want = header_at(ts, before.scopes(), before.pos as int);
    let h = want.value->Ok_0;
    let (start, done, body) = choose|start: Parser, done: Parser, body: Result<Block, String>|
        {
            &&& header_read(before, start, h)
            &&& #[trigger] call_ensures(b, (start,), (done, body))
            &&& scope_closed(done, after)
            &&& match body {
                Err(e) => Ok::<FnDef, String>(d) == Err::<FnDef, String>(e),
                Ok(block) => crate::syntactic::parse_func::defines(d, attributes, h, block),
            }
        };
    assert(body == Ok::<Block, String>(d.body));
    assert(h == sig_of(d));
    lemma_header_exact(ts, before.scopes(), before.pos as int, want.pos, h);
    assert(start.scopes().last() =~= Seq::new(
        d.generic_params.deep_view().len(),
        |i: int| d.generic_params.deep_view()[i].name,
    ));
    assert(call_ensures(b, (start,), (done, Ok::<Block, String>(d.body))));
}

/// What reading one member of a model does: a field that the tokens spell is added to the
/// fields, a function to the functions, each behind those that were read before; the
/// closing brace ends the model and adds nothing.
pub proof fn lemma_member_read_exact<
    A: Fn(Parser) -> Read<Vec<Attribute>>,
    E: Fn(Parser) -> Read<Expr>,
    B: Fn(Parser) -> Read<Block>,
>(
    a: A,
    e: E,
    b: B,
    before: Parser,
    old_body: ModelBody,
    after: Parser,
    new_body: ModelBody,
)
    requires
        old_body.end is None,
        member_read(a, e, b, before, old_body, after, new_body),
    ensures
        new_body.end is None ==> {
            ||| {
                &&& new_body.functions == old_body.functions
                &&& new_body.fields.len() == old_body.fields.len() + 1
                &&& new_body.fields.drop_last() == old_body.fields
                &&& exists|q: int, default: bool| #[trigger]
                    spells_field(
                        before.toks(),
                        before.scopes(),
                        before.pos as int,
                        q,
                        new_body.fields.last().name@,
                        new_body.fields.last().ty.deep_view(),
                        default,
                    ) && (!default ==> after.pos == q)
            }
            ||| {
                &&& head(before.toks(), before.pos as int) == Some(Token::Fn)
                &&& new_body.fields == old_body.fields
                &&& new_body.functions.len() == old_body.functions.len() + 1
                &&& new_body.functions.drop_last() == old_body.functions
                &&& method_read(a, b, before, after, Ok::<FnDef, String>(new_body.functions.last()))
            }
        },
        new_body.end == Some(Ok::<(), Seq<char>>(())) ==> {
            &&& head(before.toks(), before.pos as int) == Some(Token::RBrace)
            &&& after.pos == before.pos + 1
            &&& new_body.fields == old_body.fields
            &&& new_body.functions == old_body.functions
        },
{
    let ts = before.toks();
    let p = before.pos as int;
    let want = member_at(ts, before.scopes(), p);
    let mid = choose|mid: Parser|
        {
            &&& #[trigger] moved(before, mid, want.pos)
            &&& match want.value {
                Err(text) => {
                    &&& after == mid
                    &&& new_body == (ModelBody { end: Some(Err(text)), ..old_body })
                },
                Ok(ModelMemberV::End) => {
                    &&& after == mid
                    &&& new_body == (ModelBody { end: Some(Ok(())), ..old_body })
                },
                Ok(ModelMemberV::Field(name, ty, default)) => exists|
                    f: ModelField,
                    r: Result<(), Seq<char>>,
                |
                    {
                        &&& f.name@ == name && f.ty.deep_view() == ty
                        &&& if default {
                            crate::syntactic::parse_model::default_read(e, mid, after, r)
                        } else {
                            after == mid && r is Ok
                        }
                        &&& new_body == (#[trigger] field_added(old_body, f, r))
                    },
                Ok(ModelMemberV::Function) => exists|r: Result<FnDef, String>|
                    {
                        &&& method_read(a, b, mid, after, r)
                        &&& new_body == (#[trigger] function_added(old_body, r))
                    },
            }
        };
    if want.value is Ok {
        let m = want.value->Ok_0;
        lemma_member_exact(ts, before.scopes(), p, want.pos, m);
        match m {
            ModelMemberV::Field(name, ty, default) => {
                let (f, r) = choose|f: ModelField, r: Result<(), Seq<char>>|
                    {
                        &&& f.name@ == name && f.ty.deep_view() == ty
                        &&& if default {
                            crate::syntactic::parse_model::default_read(e, mid, after, r)
                        } else {
                            after == mid && r is Ok
                        }
                        &&& new_body == (#[trigger] field_added(old_body, f, r))
                    };
                if new_body.end is None {
                    assert(new_body.fields.drop_last() =~= old_body.fields);
                    assert(new_body.fields.last() == f);
                    assert(spells_field(ts, before.scopes(), p, want.pos, name, ty, default));
                }
            },
            ModelMemberV::Function => {
                let r = choose|r: Result<FnDef, String>|
                    {
                        &&& method_read(a, b, mid, after, r)
                        &&& new_body == (#[trigger] function_added(old_body, r))
                    };
                assert(mid == before);
                if new_body.end is None {
                    let d = r->Ok_0;
                    assert(r == Ok::<FnDef, String>(d));
                    assert(new_body.functions.drop_last() =~= old_body.functions);
                    assert(new_body.functions.last() == d);
                }
            },
            ModelMemberV::End => {},
        }
    }
}

/// The members of a model are read one after the other, the first behind the opening
/// brace.
pub proof fn lemma_members_in_turn<
    A: Fn(Parser) -> Read<Vec<Attribute>>,
    E: Fn(Parser) -> Read<Expr>,
    B: Fn(Parser) -> Read<Block>,
>(a: A, e: E, b: B, n: int, before: Parser, after: Parser, body: ModelBody) -> (r: (
    Seq<Parser>,
    Seq<ModelBody>,
))
    requires
        0 <= n,
        members_read(a, e, b, n, before, after, body),
    ensures
        r.0.len() == n + 1 && r.1.len() == n + 1,
        r.0[0] == before && r.0[n] == after,
        r.1[0].fields.len() == 0 && r.1[0].functions.len() == 0 && r.1[0].end is None,
        r.1[n] == body,
        forall|i: int|
            0 <= i < n ==> (#[trigger] r.1[i]).end is None && member_read(
                a,
                e,
                b,
                r.0[i],
                r.1[i],
                r.0[i + 1],
                r.1[i + 1],
            ),
    decreases n,
{
    if n == 0 {
        (seq![before], seq![unread()])
    } else {
        let (mid, front) = choose|mid: Parser, front: ModelBody|
            {
                &&& members_read(a, e, b, n - 1, before, mid, front)
                &&& front.end is None
                &&& #[trigger] member_read(a, e, b, mid, front, after, body)
            };
        let (ps, bs) = lemma_members_in_turn(a, e, b, n - 1, before, mid, front);
        let qs = ps.push(after);
        let cs = bs.push(body);
        assert forall|i: int| 0 <= i < n implies (#[trigger] cs[i]).end is None && member_read(
            a,
            e,
            b,
            qs[i],
            cs[i],
            qs[i + 1],
            cs[i + 1],
        ) by {
            if i < n - 1 {
                assert(bs[i] == cs[i] && ps[i] == qs[i]);
                assert(bs[i + 1] == cs[i + 1] && ps[i + 1] == qs[i + 1]);
            }
        }
        (qs, cs)
    }
}

/// A model that was read has the name and the type parameters that the tokens spell before
/// its opening brace, and the fields and functions that were read behind it, up to its
/// closing brace.
pub proof fn lemma_model_ok<
    A: Fn(Parser) -> Read<Vec<Attribute>>,
    E: Fn(Parser) -> Read<Expr>,
    B: Fn(Parser) -> Read<Block>,
>(
    a: A,
    e: E,
    b: B,
    attributes: Vec<Attribute>,
    before: Parser,
    after: Parser,
    d: ModelDef,
)
    requires
        model_read(a, e, b, attributes, before, after, Ok::<ModelDef, String>(d)),
    ensures
        d.attributes == attributes,
        exists|mid: Parser, n: int, body: ModelBody|
            {
                let p = before.pos as int;
                let q = mid.pos as int;
                &&& #[trigger] members_read(a, e, b, n, mid, after, body)
                &&& mid.tokens == before.tokens && mid.generic_scopes == before.generic_scopes
                &&& head(before.toks(), p) == Some(Token::Model)
                &&& word(before.toks(), p + 1, d.name@)
                &&& spells_optional_generics(
                    before.toks(),
                    p + 2,
                    q - 1,
                    d.generic_params.deep_view(),
                )
                &&& head(before.toks(), q - 1) == Some(Token::LBrace)
                &&& body.end == Some(Ok::<(), Seq<char>>(()))
                &&& d.fields@ == body.fields
                &&& d.functions@ == body.functions
            },
{
    let ts = before.toks();
    let start = model_at(ts, before.pos as int);
    let (name, generics) = start.value->Ok_0;
    let (mid, n, body) = choose|mid: Parser, n: int, body: ModelBody|
        {
            &&& moved(before, mid, start.pos)
            &&& #[trigger] members_read(a, e, b, n, mid, after, body)
            &&& match body.end {
                None => false,
                Some(Err(text)) => false,
                Some(Ok(_)) => {
                    &&& d.attributes == attributes
                    &&& d.name@ == name
                    &&& d.generic_params.deep_view() == generics
                    &&& d.fields@ == body.fields
                    &&& d.functions@ == body.functions
                },
            }
        };
    lemma_model_exact(ts, before.pos as int, start.pos, name, generics);
    assert(body.end->0 is Ok);
    assert(body.end->0->Ok_0 == ());
    assert(members_read(a, e, b, n, mid, after, body));
}

} // verus!
