//! Attributes and their arguments.

use vstd::prelude::*;

use crate::expr::{Attribute, AttributeArg};
use crate::expr::{AttrArgV, AttrV};
use crate::float::{divide_floats, float_from};
use crate::float::{float_of_int, float_quotient};
use crate::literal::FloatKind;
use crate::semantic::rational::{magnitude, show_error, Rational};
use crate::semantic::rational::{error_name, rational_fits, rational_text};
use crate::semantic::TypeChecker;
use crate::text::{cat3, str_eq};

verus! {

/// The first attribute of the given name.
pub open spec fn attr_named(attrs: Seq<AttrV>, name: Seq<char>) -> Option<AttrV>
    decreases attrs.len(),
{
    if attrs.len() == 0 {
        None
    } else if attrs[0].name == name {
        Some(attrs[0])
    } else {
        attr_named(attrs.drop_first(), name)
    }
}

/// The value of the first argument of the form `key = value` with the given key.
pub open spec fn value_of_key(args: Seq<AttrArgV>, key: Seq<char>) -> Option<AttrArgV>
    decreases args.len(),
{
    if args.len() == 0 {
        None
    } else {
        match args[0] {
            AttrArgV::KeyValue(k, v) if k == key => Some(*v),
            _ => value_of_key(args.drop_first(), key),
        }
    }
}

/// The 64-bit float nearest to the quotient of the floats nearest to the numerator
/// and the denominator, as its bit pattern.
pub open spec fn quotient_bits(v: Rational) -> int {
    float_quotient(
        FloatKind::F64,
        float_of_int(FloatKind::F64, v.num as int),
        float_of_int(FloatKind::F64, v.den as int),
    )
}

/// The rational number that an argument holds, as the bit pattern of a float.
pub open spec fn rational_arg_bits(arg: AttrArgV) -> Result<int, Seq<char>> {
    match arg {
        AttrArgV::Rational(r) => match rational_text(r) {
            Ok(v) => Ok(quotient_bits(v)),
            Err(e) => Err("invalid rational literal `"@ + r + "`: "@ + error_name(e)),
        },
        _ => Err("expected rational argument"@),
    }
}

impl TypeChecker {
    /// The first attribute of the given name.
    pub fn find_attr<'a>(attrs: &'a [Attribute], name: &str) -> (r: Option<&'a Attribute>)
        ensures
            r.deep_view() == attr_named(attrs.deep_view(), name@),
    {
        let ghost all = attrs.deep_view();
        assert(all.skip(0) =~= all);
        let mut i: usize = 0;
        while i < attrs.len()
            invariant
                i <= attrs.len(),
                all == attrs.deep_view(),
                attr_named(all, name@) == attr_named(all.skip(i as int), name@),
            decreases attrs.len() - i,
        {
            assert(all.skip(i as int).drop_first() =~= all.skip(i as int + 1));
            assert(all[i as int] == attrs@[i as int].deep_view());
            if str_eq(attrs[i].name.as_str(), name) {
                return Some(&attrs[i]);
            }
            i = i + 1;
        }
        None
    }

    /// The value of the first argument of the form `key = value` with the given key.
    pub fn find_key_value_arg<'a>(attr: &'a Attribute, key: &str) -> (r: Option<&'a AttributeArg>)
        ensures
            r.deep_view() == value_of_key(attr.deep_view().args, key@),
    {
        let ghost all = attr.args.deep_view();
        assert(all.skip(0) =~= all);
        let mut i: usize = 0;
        while i < attr.args.len()
            invariant
                i <= attr.args.len(),
                all == attr.args.deep_view(),
                value_of_key(all, key@) == value_of_key(all.skip(i as int), key@),
            decreases attr.args.len() - i,
        {
            assert(all.skip(i as int).drop_first() =~= all.skip(i as int + 1));
            assert(all[i as int] == attr.args@[i as int].deep_view());
            if let AttributeArg::KeyValue(k, val) = &attr.args[i] {
                if str_eq(k.as_str(), key) {
                    return Some(val);
                }
            }
            i = i + 1;
        }
        None
    }

    /// The rational number that an argument holds, as the bit pattern of a 64-bit
    /// float.
    pub fn rational_arg_to_f64(arg: &AttributeArg) -> (r: Result<u64, String>)
        requires
            arg.deep_view() matches AttrArgV::Rational(s) ==> rational_fits(s),
        ensures
            match r {
                Ok(v) => rational_arg_bits(arg.deep_view()) == Ok::<int, Seq<char>>(v as int),
                Err(e) => rational_arg_bits(arg.deep_view()) == Err::<int, Seq<char>>(e@),
            },
    {
        match arg {
            AttributeArg::Rational(r) => match Self::parse_rational(r.as_str()) {
                Ok(v) => {
                    let num = float_from(FloatKind::F64, v.num < 0, magnitude(v.num));
                    let den = float_from(FloatKind::F64, false, v.den);
                    Ok(divide_floats(FloatKind::F64, num, den))
                },
                Err(e) => {
                    let mut s = cat3("invalid rational literal `", r.as_str(), "`: ");
                    s.append(show_error(e));
                    Err(s)
                },
            },
            _ => Err("expected rational argument".to_owned()),
        }
    }
}

} // verus!
