//! Privacy labels: comparing, joining, taking off and putting on.

use vstd::prelude::*;

use crate::ast::{PrivacyTag, Type};
use crate::ast::{TagV, TypeV};
use crate::const_eval::told;
use crate::intrinsic_check::strip_privacy_type;
use crate::intrinsic_check::stripped;
use crate::semantic::check_type::types_same;
use crate::semantic::rational::{show_error, RationalError};
use crate::semantic::rational::{
    error_name, lemma_text_itself, lemma_text_min, lemma_texts_turned, order_of, pair_fits,
    rational_text, text_eq, text_le, text_min, texts_compared, Order,
};
use crate::semantic::TypeChecker;
use crate::text::cat3;

verus! {

/// The complaint that a number in one of two labels cannot be read or compared.
pub open spec fn label_complaint(
    what: Seq<char>,
    a: Seq<char>,
    b: Seq<char>,
    e: RationalError,
) -> Seq<char> {
    "invalid differential "@ + what + " `"@ + a + "`/`"@ + b + "`: "@ + error_name(e)
}

/// Whether two labels are equal; their numbers are compared by value.
pub open spec fn tags_same(a: TagV, b: TagV) -> Result<bool, Seq<char>> {
    match (a, b) {
        (TagV::Public, TagV::Public) => Ok(true),
        (TagV::Private, TagV::Private) => Ok(true),
        (
            TagV::Differential { eps: e1, delta: d1 },
            TagV::Differential { eps: e2, delta: d2 },
        ) => match text_eq(e1, e2) {
            Err(e) => Err(label_complaint("eps"@, e1, e2, e)),
            Ok(eps_eq) => match (d1, d2) {
                (Some(x), Some(y)) => match text_eq(x, y) {
                    Err(e) => Err(label_complaint("delta"@, x, y, e)),
                    Ok(delta_eq) => Ok(eps_eq && delta_eq),
                },
                (None, None) => Ok(eps_eq),
                _ => Ok(false),
            },
        },
        _ => Ok(false),
    }
}

/// Whether two types are the same, labels included where both have one.
pub open spec fn labelled_same(a: TypeV, b: TypeV) -> Result<bool, Seq<char>> {
    match (a, b) {
        (TypeV::Privacy(x, s), TypeV::Privacy(y, t)) => if types_same(*x, *y) {
            tags_same(s, t)
        } else {
            Ok(false)
        },
        _ => Ok(types_same(a, b)),
    }
}

/// The delta of a joined label: the larger, or the one that is there.
pub open spec fn joined_delta(a: Option<Seq<char>>, b: Option<Seq<char>>) -> Result<
    Option<Seq<char>>,
    Seq<char>,
> {
    match (a, b) {
        (Some(x), Some(y)) => match text_le(x, y) {
            Err(e) => Err(label_complaint("delta"@, x, y, e)),
            Ok(le) => Ok(
                Some(
                    if le {
                        y
                    } else {
                        x
                    },
                ),
            ),
        },
        (Some(x), None) => Ok(Some(x)),
        (None, _) => Ok(b),
    }
}

/// The label of what is computed from two labelled values: `Public` leaves the
/// other as it is, `Private` wins, and of two differential ones the smaller
/// epsilon and the larger delta count.
pub open spec fn tags_joined(a: TagV, b: TagV) -> Result<TagV, Seq<char>> {
    match (a, b) {
        (TagV::Public, _) => Ok(b),
        (_, TagV::Public) => Ok(a),
        (TagV::Private, _) => Ok(TagV::Private),
        (_, TagV::Private) => Ok(TagV::Private),
        (
            TagV::Differential { eps: e1, delta: d1 },
            TagV::Differential { eps: e2, delta: d2 },
        ) => match text_min(e1, e2) {
            Err(e) => Err(label_complaint("eps"@, e1, e2, e)),
            Ok(eps) => match joined_delta(d1, d2) {
                Err(e) => Err(e),
                Ok(delta) => Ok(TagV::Differential { eps, delta }),
            },
        },
    }
}

/// The outer label of a type, behind references too.
pub open spec fn tag_of(t: TypeV) -> Option<TagV>
    decreases t,
{
    match t {
        TypeV::Privacy(_, tag) => Some(tag),
        TypeV::Ref { mutable, inner } => tag_of(*inner),
        _ => None,
    }
}

/// A type with a label, if there is one.
pub open spec fn labelled(t: TypeV, tag: Option<TagV>) -> TypeV {
    match tag {
        Some(g) => TypeV::Privacy(Box::new(t), g),
        None => t,
    }
}

/// The label of what is computed from values of two types.
pub open spec fn labels_joined(a: TypeV, b: TypeV) -> Result<Option<TagV>, Seq<char>> {
    match (tag_of(a), tag_of(b)) {
        (Some(x), Some(y)) => match tags_joined(x, y) {
            Ok(t) => Ok(Some(t)),
            Err(e) => Err(e),
        },
        (Some(x), None) => Ok(Some(x)),
        (None, y) => Ok(y),
    }
}

/// Whether the numbers that comparing or joining two labels reads can be read. The deltas
/// are read only where the epsilons can be compared.
pub open spec fn tags_fit(a: TagV, b: TagV) -> bool {
    a matches TagV::Differential { eps: e1, delta: d1 } ==> (b matches TagV::Differential {
        eps: e2,
        delta: d2,
    } ==> {
        &&& pair_fits(e1, e2)
        &&& texts_compared(e1, e2) is Ok ==> (d1 matches Some(x) ==> (d2 matches Some(y)
            ==> pair_fits(x, y)))
    })
}

/// Whether the numbers that comparing the labels of two types reads can be read.
pub open spec fn labels_fit(a: TypeV, b: TypeV) -> bool {
    a matches TypeV::Privacy(x, s) ==> (b matches TypeV::Privacy(y, t) ==> (types_same(*x, *y)
        ==> tags_fit(s, t)))
}

/// Joining with `Public` changes nothing.
pub proof fn lemma_join_public(t: TagV)
    ensures
        tags_joined(TagV::Public, t) == Ok::<TagV, Seq<char>>(t),
        tags_joined(t, TagV::Public) == Ok::<TagV, Seq<char>>(t),
{
}

/// Joining with `Private` gives `Private`.
pub proof fn lemma_join_private(t: TagV)
    ensures
        tags_joined(TagV::Private, t) == Ok::<TagV, Seq<char>>(TagV::Private),
        tags_joined(t, TagV::Private) == Ok::<TagV, Seq<char>>(TagV::Private),
{
}

/// A label once private never becomes public again: a join is `Public` only where
/// both labels are.
pub proof fn lemma_join_keeps_protection(a: TagV, b: TagV)
    ensures
        tags_joined(a, b) == Ok::<TagV, Seq<char>>(TagV::Public) <==> a is Public && b is Public,
        a is Private || b is Private ==> tags_joined(a, b) == Ok::<TagV, Seq<char>>(TagV::Private),
{
}

/// Of two differential labels, the joined epsilon is one of the two and at most
/// each of them.
pub proof fn lemma_join_epsilon(
    e1: Seq<char>,
    d1: Option<Seq<char>>,
    e2: Seq<char>,
    d2: Option<Seq<char>>,
)
    requires
        tags_joined(
            TagV::Differential { eps: e1, delta: d1 },
            TagV::Differential { eps: e2, delta: d2 },
        ) is Ok,
    ensures
        tags_joined(
            TagV::Differential { eps: e1, delta: d1 },
            TagV::Differential { eps: e2, delta: d2 },
        )->Ok_0 matches TagV::Differential { eps, delta } && (eps == e1 || eps == e2)
            && order_of(
            rational_text(eps)->Ok_0,
            rational_text(e1)->Ok_0,
        ) != Order::Greater && order_of(
            rational_text(eps)->Ok_0,
            rational_text(e2)->Ok_0,
        ) != Order::Greater,
{
    lemma_text_min(e1, e2);
}

/// Of two differential labels, the joined delta is one of the two and at least each of
/// them; where one label has none, it is that of the other.
pub proof fn lemma_join_delta(
    e1: Seq<char>,
    d1: Option<Seq<char>>,
    e2: Seq<char>,
    d2: Option<Seq<char>>,
)
    requires
        tags_joined(
            TagV::Differential { eps: e1, delta: d1 },
            TagV::Differential { eps: e2, delta: d2 },
        ) is Ok,
    ensures
        tags_joined(
            TagV::Differential { eps: e1, delta: d1 },
            TagV::Differential { eps: e2, delta: d2 },
        )->Ok_0 matches TagV::Differential { eps, delta } && match (d1, d2) {
            (Some(x), Some(y)) => delta matches Some(d) && (d == x || d == y) && order_of(
                rational_text(x)->Ok_0,
                rational_text(d)->Ok_0,
            ) != Order::Greater && order_of(rational_text(y)->Ok_0, rational_text(d)->Ok_0)
                != Order::Greater,
            (Some(x), None) => delta == d1,
            (None, _) => delta == d2,
        },
{
}

/// A join does not depend on the order of the two labels: it succeeds in both orders or
/// in neither, and the two results are equal wherever they can be compared. They can be
/// where the numbers of the result can be compared with themselves.
pub proof fn lemma_join_order(a: TagV, b: TagV)
    ensures
        tags_joined(a, b) is Ok <==> tags_joined(b, a) is Ok,
        tags_joined(a, b) is Ok ==> {
            let x = tags_joined(a, b)->Ok_0;
            let y = tags_joined(b, a)->Ok_0;
            &&& tags_same(x, y) matches Ok(same) ==> same
            &&& tags_same(x, x) is Ok ==> tags_same(x, y) == Ok::<bool, Seq<char>>(true)
        },
{
    if let TagV::Differential { eps: e1, delta: d1 } = a {
        if let TagV::Differential { eps: e2, delta: d2 } = b {
            lemma_texts_turned(e1, e2);
            lemma_text_itself(e1);
            lemma_text_itself(e2);
            if let Some(x) = d1 {
                lemma_text_itself(x);
                if let Some(y) = d2 {
                    lemma_texts_turned(x, y);
                }
            }
            if let Some(y) = d2 {
                lemma_text_itself(y);
            }
        }
    }
}

/// A type without its labels has none left to take off.
pub proof fn lemma_stripped_once(t: TypeV)
    ensures
        stripped(stripped(t)) == stripped(t),
        tag_of(stripped(t)) is None,
    decreases t,
{
    match t {
        TypeV::Privacy(inner, _) => lemma_stripped_once(*inner),
        TypeV::Ref { mutable, inner } => lemma_stripped_once(*inner),
        _ => {},
    }
}

/// Taking the labels off takes off the one that was put on.
pub proof fn lemma_label_round_trip(t: TypeV, tag: Option<TagV>)
    ensures
        stripped(labelled(t, tag)) == stripped(t),
        tag is Some ==> tag_of(labelled(t, tag)) == tag,
{
}

/// The complaint that a number in one of two labels cannot be read or compared.
fn complain_of(what: &str, a: &str, b: &str, e: RationalError) -> (r: String)
    ensures
        r@ == label_complaint(what@, a@, b@, e),
{
    let mut s = cat3("invalid differential ", what, " `");
    s.append(a);
    s.append("`/`");
    s.append(b);
    s.append("`: ");
    s.append(show_error(e));
    s
}

impl TypeChecker {
    /// Whether two types are the same, labels included where both have one.
    pub fn types_equal_with_privacy(&self, a: &Type, b: &Type) -> (r: Result<bool, String>)
        requires
            labels_fit(a.deep_view(), b.deep_view()),
        ensures
            told(r) == labelled_same(a.deep_view(), b.deep_view()),
    {
        match (a, b) {
            (Type::Privacy(x, s), Type::Privacy(y, t)) => {
                if self.types_equal(x, y) {
                    self.privacy_tags_equal(s, t)
                } else {
                    Ok(false)
                }
            },
            _ => Ok(self.types_equal(a, b)),
        }
    }

    /// Whether two labels can be compared or joined.
    pub fn tags_in_range(a: &PrivacyTag, b: &PrivacyTag) -> (r: bool)
        ensures
            r == tags_fit(a.deep_view(), b.deep_view()),
    {
        match (a, b) {
            (
                PrivacyTag::Differential { eps: e1, delta: d1 },
                PrivacyTag::Differential { eps: e2, delta: d2 },
            ) => {
                if !Self::pair_in_range(e1.as_str(), e2.as_str()) {
                    return false;
                }
                match (d1, d2) {
                    (Some(x), Some(y)) => Self::rational_le(e1.as_str(), e2.as_str()).is_err()
                        || Self::pair_in_range(x.as_str(), y.as_str()),
                    _ => true,
                }
            },
            _ => true,
        }
    }

    /// Whether the labels of two types can be compared.
    pub fn labels_in_range(&self, a: &Type, b: &Type) -> (r: bool)
        ensures
            r == labels_fit(a.deep_view(), b.deep_view()),
    {
        match (a, b) {
            (Type::Privacy(x, s), Type::Privacy(y, t)) => !self.types_equal(x, y)
                || Self::tags_in_range(s, t),
            _ => true,
        }
    }

    /// Whether two labels are equal.
    pub fn privacy_tags_equal(&self, a: &PrivacyTag, b: &PrivacyTag) -> (r: Result<bool, String>)
        requires
            tags_fit(a.deep_view(), b.deep_view()),
        ensures
            told(r) == tags_same(a.deep_view(), b.deep_view()),
    {
        match (a, b) {
            (PrivacyTag::Public, PrivacyTag::Public) => Ok(true),
            (PrivacyTag::Private, PrivacyTag::Private) => Ok(true),
            (
                PrivacyTag::Differential { eps: e1, delta: d1 },
                PrivacyTag::Differential { eps: e2, delta: d2 },
            ) => {
                let eps_eq = match Self::rational_eq(e1.as_str(), e2.as_str()) {
                    Ok(b) => b,
                    Err(e) => {
                        return Err(complain_of("eps", e1.as_str(), e2.as_str(), e));
                    },
                };
                match (d1, d2) {
                    (Some(x), Some(y)) => match Self::rational_eq(x.as_str(), y.as_str()) {
                        Ok(b) => Ok(eps_eq && b),
                        Err(e) => Err(complain_of("delta", x.as_str(), y.as_str(), e)),
                    },
                    (None, None) => Ok(eps_eq),
                    _ => Ok(false),
                }
            },
            _ => Ok(false),
        }
    }

    /// The label of what is computed from two labelled values.
    pub fn join_privacy_tags(&self, a: &PrivacyTag, b: &PrivacyTag) -> (r: Result<
        PrivacyTag,
        String,
    >)
        requires
            tags_fit(a.deep_view(), b.deep_view()),
        ensures
            told(r) == tags_joined(a.deep_view(), b.deep_view()),
    {
        match (a, b) {
            (PrivacyTag::Public, _) => Ok(b.clone()),
            (_, PrivacyTag::Public) => Ok(a.clone()),
            (PrivacyTag::Private, _) => Ok(PrivacyTag::Private),
            (_, PrivacyTag::Private) => Ok(PrivacyTag::Private),
            (
                PrivacyTag::Differential { eps: e1, delta: d1 },
                PrivacyTag::Differential { eps: e2, delta: d2 },
            ) => {
                let eps = match Self::rational_min(e1.as_str(), e2.as_str()) {
                    Ok(s) => s,
                    Err(e) => {
                        return Err(complain_of("eps", e1.as_str(), e2.as_str(), e));
                    },
                };
                let delta = match (d1, d2) {
                    (Some(x), Some(y)) => match Self::rational_le(x.as_str(), y.as_str()) {
                        Ok(le) => if le {
                            Some(y.clone())
                        } else {
                            Some(x.clone())
                        },
                        Err(e) => {
                            return Err(complain_of("delta", x.as_str(), y.as_str(), e));
                        },
                    },
                    (Some(x), None) => Some(x.clone()),
                    (None, Some(y)) => Some(y.clone()),
                    (None, None) => None,
                };
                Ok(PrivacyTag::Differential { eps, delta })
            },
        }
    }

    /// The outer label of a type, behind references too.
    pub fn extract_privacy_tag(&self, ty: &Type) -> (r: Option<PrivacyTag>)
        ensures
            r.deep_view() == tag_of(ty.deep_view()),
        decreases ty,
    {
        match ty {
            Type::Privacy(_, tag) => Some(tag.clone()),
            Type::Ref { inner, .. } => self.extract_privacy_tag(inner),
            _ => None,
        }
    }

    /// A type with a label, if there is one.
    pub fn apply_privacy_tag(&self, ty: Type, tag: Option<PrivacyTag>) -> (r: Type)
        ensures
            r.deep_view() == labelled(ty.deep_view(), tag.deep_view()),
    {
        match tag {
            Some(t) => Type::Privacy(Box::new(ty), t),
            None => ty,
        }
    }

    /// The label of what is computed from values of two types.
    pub fn join_privacy_labels(&self, a: &Type, b: &Type) -> (r: Result<Option<PrivacyTag>, String>)
        requires
            tag_of(a.deep_view()) matches Some(x) ==> (tag_of(b.deep_view()) matches Some(y)
                ==> tags_fit(x, y)),
        ensures
            told(r) == labels_joined(a.deep_view(), b.deep_view()),
    {
        match (self.extract_privacy_tag(a), self.extract_privacy_tag(b)) {
            (Some(x), Some(y)) => match self.join_privacy_tags(&x, &y) {
                Ok(t) => Ok(Some(t)),
                Err(e) => Err(e),
            },
            (Some(x), None) => Ok(Some(x)),
            (None, y) => Ok(y),
        }
    }

    /// A type without its privacy labels.
    pub fn strip_privacy(&self, ty: &Type) -> (r: Type)
        ensures
            r.deep_view() == stripped(ty.deep_view()),
    {
        strip_privacy_type(ty)
    }
}

} // verus!
