//! Decimal amounts.
//!
//! An [`Amount`] is a decimal number held as an integer mantissa and a count of
//! fractional digits. The arithmetic itself is done by `rust_decimal`; this
//! module states what the rest of the library relies on: results are named
//! where only the crate can say what they are, and spelled out where a few
//! lines say it all (rounding, equality).

use crate::error::SplittingError;
use rust_decimal::Decimal;
use std::str::FromStr;
use vstd::arithmetic::div_mod::*;
use vstd::arithmetic::power::*;
use vstd::prelude::*;
use vstd::std_specs::cmp::PartialEqSpecImpl;

verus! {

/// A decimal number in the mathematical sense: `mantissa / 10^scale`.
pub struct Dec {
    pub mantissa: int,
    pub scale: nat,
}

/// The largest magnitude a mantissa can have: `2^96 - 1`.
pub open spec fn max_mantissa() -> int {
    0xFFFF_FFFF_FFFF_FFFF_FFFF_FFFF
}

/// The largest number of fractional digits.
pub open spec fn max_scale() -> nat {
    28
}

/// The decimal with the given mantissa and scale.
pub open spec fn dec(mantissa: i128, scale: u32) -> Dec {
    Dec { mantissa: mantissa as int, scale: scale as nat }
}

impl Dec {
    /// Whether the number fits the 96-bit mantissa and 28 fractional digits
    /// of the decimal representation.
    pub open spec fn in_range(self) -> bool {
        &&& -max_mantissa() <= self.mantissa <= max_mantissa()
        &&& self.scale <= max_scale()
    }

    /// Zero, without fractional digits.
    pub open spec fn zero() -> Dec {
        Dec { mantissa: 0, scale: 0 }
    }

    /// One, without fractional digits.
    pub open spec fn one() -> Dec {
        Dec { mantissa: 1, scale: 0 }
    }

    /// Whether two decimals denote the same number, whatever their scales.
    pub open spec fn same_value(self, other: Dec) -> bool {
        self.mantissa * pow(10, other.scale) == other.mantissa * pow(10, self.scale)
    }

    /// The magnitude of the mantissa.
    pub open spec fn magnitude(self) -> int {
        if self.mantissa < 0 {
            -self.mantissa
        } else {
            self.mantissa
        }
    }

    /// The number rounded to at most `dp` fractional digits, ties going to
    /// the even neighbour. A number that already has no more than `dp`
    /// fractional digits is left as it is.
    pub open spec fn rounded(self, dp: nat) -> Dec {
        if self.scale <= dp {
            self
        } else {
            let unit = pow(10, (self.scale - dp) as nat);
            let whole = self.magnitude() / unit;
            let rest = self.magnitude() % unit;
            let nearest = if 2 * rest > unit || (2 * rest == unit && whole % 2 == 1) {
                whole + 1
            } else {
                whole
            };
            Dec { mantissa: if self.mantissa < 0 { -nearest } else { nearest }, scale: dp }
        }
    }
}

/// What `rust_decimal` gives for `a + b`; `None` where it reports an overflow.
pub uninterp spec fn decimal_sum(a: Dec, b: Dec) -> Option<Dec>;

/// What `rust_decimal` gives for `a - b`; `None` where it reports an overflow.
pub uninterp spec fn decimal_difference(a: Dec, b: Dec) -> Option<Dec>;

/// What `rust_decimal` gives for `a * b`; `None` where it reports an overflow.
pub uninterp spec fn decimal_product(a: Dec, b: Dec) -> Option<Dec>;

/// What `rust_decimal` gives for `a / b`; `None` where it reports an overflow
/// or a division by zero.
pub uninterp spec fn decimal_quotient(a: Dec, b: Dec) -> Option<Dec>;

/// The decimal that `rust_decimal` reads from a piece of text; `None` where it
/// rejects the text.
pub uninterp spec fn decimal_parsed(text: Seq<char>) -> Option<Dec>;

/// The text that `rust_decimal` writes for a decimal.
pub uninterp spec fn decimal_text(a: Dec) -> Seq<char>;

/// `Decimal::checked_add` on two decimals given by their parts: `None` where
/// the crate reports an overflow, else the parts of the sum. The sum is the
/// named one; like every decimal of the crate it has a mantissa of at most 96
/// bits and at most 28 fractional digits.
#[verifier::external_body]
fn checked_add_parts(am: i128, asc: u32, bm: i128, bsc: u32) -> (r: Option<(i128, u32)>)
    requires
        dec(am, asc).in_range(),
        dec(bm, bsc).in_range(),
    ensures
        r is Some <==> decimal_sum(dec(am, asc), dec(bm, bsc)) is Some,
        r matches Some(p) ==> decimal_sum(dec(am, asc), dec(bm, bsc)) == Some(dec(p.0, p.1))
            && dec(p.0, p.1).in_range(),
{
    let a = Decimal::from_i128_with_scale(am, asc);
    let b = Decimal::from_i128_with_scale(bm, bsc);
    match a.checked_add(b) {
        Some(d) => Some((d.mantissa(), d.scale())),
        None => None,
    }
}

/// `Decimal::checked_sub` on two decimals given by their parts: `None` where
/// the crate reports an overflow, else the parts of the difference, which is
/// the named one and within the range of the crate's decimals.
#[verifier::external_body]
fn checked_sub_parts(am: i128, asc: u32, bm: i128, bsc: u32) -> (r: Option<(i128, u32)>)
    requires
        dec(am, asc).in_range(),
        dec(bm, bsc).in_range(),
    ensures
        r is Some <==> decimal_difference(dec(am, asc), dec(bm, bsc)) is Some,
        r matches Some(p) ==> decimal_difference(dec(am, asc), dec(bm, bsc)) == Some(
            dec(p.0, p.1),
        ) && dec(p.0, p.1).in_range(),
{
    let a = Decimal::from_i128_with_scale(am, asc);
    let b = Decimal::from_i128_with_scale(bm, bsc);
    match a.checked_sub(b) {
        Some(d) => Some((d.mantissa(), d.scale())),
        None => None,
    }
}

/// `Decimal::checked_mul` on two decimals given by their parts: `None` where
/// the crate reports an overflow, else the parts of the product, which is the
/// named one and within the range of the crate's decimals.
#[verifier::external_body]
fn checked_mul_parts(am: i128, asc: u32, bm: i128, bsc: u32) -> (r: Option<(i128, u32)>)
    requires
        dec(am, asc).in_range(),
        dec(bm, bsc).in_range(),
    ensures
        r is Some <==> decimal_product(dec(am, asc), dec(bm, bsc)) is Some,
        r matches Some(p) ==> decimal_product(dec(am, asc), dec(bm, bsc)) == Some(dec(p.0, p.1))
            && dec(p.0, p.1).in_range(),
{
    let a = Decimal::from_i128_with_scale(am, asc);
    let b = Decimal::from_i128_with_scale(bm, bsc);
    match a.checked_mul(b) {
        Some(d) => Some((d.mantissa(), d.scale())),
        None => None,
    }
}

/// `Decimal::checked_div` on two decimals given by their parts: `None` where
/// the crate reports a division by zero or an overflow, else the parts of the
/// quotient, which is the named one and within the range of the crate's
/// decimals.
#[verifier::external_body]
fn checked_div_parts(am: i128, asc: u32, bm: i128, bsc: u32) -> (r: Option<(i128, u32)>)
    requires
        dec(am, asc).in_range(),
        dec(bm, bsc).in_range(),
    ensures
        r is Some <==> decimal_quotient(dec(am, asc), dec(bm, bsc)) is Some,
        r matches Some(p) ==> decimal_quotient(dec(am, asc), dec(bm, bsc)) == Some(dec(p.0, p.1))
            && dec(p.0, p.1).in_range(),
{
    let a = Decimal::from_i128_with_scale(am, asc);
    let b = Decimal::from_i128_with_scale(bm, bsc);
    match a.checked_div(b) {
        Some(d) => Some((d.mantissa(), d.scale())),
        None => None,
    }
}

/// `Decimal::round_dp` on a decimal given by its parts. A decimal with no
/// more than `dp` fractional digits comes back as it is. Any other comes back
/// with `dp` fractional digits: its magnitude is cut off there and goes up by
/// one in the last digit if what was cut off is more than half a unit of that
/// digit, or exactly half with an odd digit before it; the sign stays.
#[verifier::external_body]
fn round_parts(m: i128, s: u32, dp: u32) -> (r: (i128, u32))
    requires
        dec(m, s).in_range(),
    ensures
        dec(r.0, r.1) == dec(m, s).rounded(dp as nat),
{
    let d = Decimal::from_i128_with_scale(m, s).round_dp(dp);
    (d.mantissa(), d.scale())
}

/// `Decimal`'s `==` on two decimals given by their parts: whether they
/// denote the same number, whatever their scales, so that `2.5` equals `2.50`.
#[verifier::external_body]
fn equal_parts(am: i128, asc: u32, bm: i128, bsc: u32) -> (r: bool)
    requires
        dec(am, asc).in_range(),
        dec(bm, bsc).in_range(),
    ensures
        r == dec(am, asc).same_value(dec(bm, bsc)),
{
    Decimal::from_i128_with_scale(am, asc) == Decimal::from_i128_with_scale(bm, bsc)
}

/// `Decimal`'s `to_string` on a decimal given by its parts: what the crate
/// writes for it, which is the named text.
#[verifier::external_body]
fn text_of_parts(m: i128, s: u32) -> (r: String)
    requires
        dec(m, s).in_range(),
    ensures
        r@ == decimal_text(dec(m, s)),
{
    Decimal::from_i128_with_scale(m, s).to_string()
}

/// `rust_decimal::Error`, the error of the crate: handed from the parser to
/// the message, and never looked into.
#[verifier::external_type_specification]
#[verifier::external_body]
pub struct ExDecimalError(rust_decimal::Error);

/// `Decimal::from_str`: the parts of the decimal that the crate reads from
/// the text, which is the named one and within the range of the crate's
/// decimals, or the crate's error where it rejects the text.
#[verifier::external_body]
fn parse_parts(text: &str) -> (r: Result<(i128, u32), rust_decimal::Error>)
    ensures
        r is Ok <==> decimal_parsed(text@) is Some,
        r matches Ok(p) ==> decimal_parsed(text@) == Some(dec(p.0, p.1)) && dec(p.0, p.1).in_range(),
{
    match Decimal::from_str(text) {
        Ok(d) => Ok((d.mantissa(), d.scale())),
        Err(e) => Err(e),
    }
}

/// `rust_decimal::Error`'s `to_string`: what the crate writes for its error.
/// Nothing is claimed of the text.
#[verifier::external_body]
fn error_text(e: &rust_decimal::Error) -> String {
    e.to_string()
}

/// Rounding keeps a decimal within the representable range.
pub proof fn lemma_rounded_in_range(d: Dec, dp: nat)
    requires
        d.in_range(),
    ensures
        d.rounded(dp).in_range(),
{
    if d.scale > dp {
        let k = (d.scale - dp) as nat;
        let unit = pow(10, k);
        assert(unit >= 10) by {
            lemma_pow_positive(10, (k - 1) as nat);
            reveal(pow);
        }
        let whole = d.magnitude() / unit;
        assert(whole <= d.magnitude() / 10) by {
            lemma_div_is_ordered_by_denominator(d.magnitude(), 10, unit);
        }
        assert(0 <= whole) by {
            lemma_div_pos_is_pos(d.magnitude(), unit);
        }
    }
}

/// A decimal amount: a mantissa of at most 96 bits and at most 28 fractional
/// digits.
#[derive(Clone, Copy, Debug)]
pub struct Amount {
    mantissa: i128,
    scale: u32,
}

impl View for Amount {
    type V = Dec;

    closed spec fn view(&self) -> Dec {
        dec(self.mantissa, self.scale)
    }
}

impl DeepView for Amount {
    type V = Dec;

    open spec fn deep_view(&self) -> Dec {
        self@
    }
}

impl PartialEq for Amount {
    fn eq(&self, other: &Amount) -> (r: bool) {
        proof {
            use_type_invariant(self);
            use_type_invariant(other);
        }
        equal_parts(self.mantissa, self.scale, other.mantissa, other.scale)
    }
}

impl PartialEqSpecImpl for Amount {
    open spec fn obeys_eq_spec() -> bool {
        true
    }

    open spec fn eq_spec(&self, other: &Amount) -> bool {
        self@.same_value(other@)
    }
}

impl Eq for Amount {

}

impl Amount {
    #[verifier::type_invariant]
    closed spec fn well_formed(self) -> bool {
        self@.in_range()
    }

    /// The amount `mantissa / 10^scale`, if it can be represented.
    pub fn new(mantissa: i128, scale: u32) -> (r: Option<Amount>)
        ensures
            r is Some <==> dec(mantissa, scale).in_range(),
            r matches Some(a) ==> a@ == dec(mantissa, scale),
    {
        if scale <= 28 && -0xFFFF_FFFF_FFFF_FFFF_FFFF_FFFF <= mantissa && mantissa
            <= 0xFFFF_FFFF_FFFF_FFFF_FFFF_FFFF {
            Some(Amount { mantissa, scale })
        } else {
            None
        }
    }

    /// Zero.
    pub fn zero() -> (r: Amount)
        ensures
            r@ == Dec::zero(),
    {
        Amount { mantissa: 0, scale: 0 }
    }

    /// One.
    pub fn one() -> (r: Amount)
        ensures
            r@ == Dec::one(),
    {
        Amount { mantissa: 1, scale: 0 }
    }

    /// The mantissa: the amount without its decimal point.
    pub fn mantissa(&self) -> (r: i128)
        ensures
            r == self@.mantissa,
            self@.in_range(),
    {
        proof {
            use_type_invariant(self);
        }
        self.mantissa
    }

    /// The number of fractional digits.
    pub fn scale(&self) -> (r: u32)
        ensures
            r == self@.scale,
            self@.in_range(),
    {
        proof {
            use_type_invariant(self);
        }
        self.scale
    }

    /// Whether the amount is above zero.
    pub fn is_positive(&self) -> (r: bool)
        ensures
            r == (self@.mantissa > 0),
    {
        self.mantissa > 0
    }

    /// Whether the amount is below zero.
    pub fn is_negative(&self) -> (r: bool)
        ensures
            r == (self@.mantissa < 0),
    {
        self.mantissa < 0
    }

    /// The sum of two amounts, or `None` if it cannot be represented.
    pub fn checked_add(self, other: Amount) -> (r: Option<Amount>)
        ensures
            r is Some <==> decimal_sum(self@, other@) is Some,
            r matches Some(a) ==> decimal_sum(self@, other@) == Some(a@),
    {
        proof {
            use_type_invariant(&self);
            use_type_invariant(&other);
        }
        match checked_add_parts(self.mantissa, self.scale, other.mantissa, other.scale) {
            Some(p) => Some(Amount { mantissa: p.0, scale: p.1 }),
            None => None,
        }
    }

    /// The difference of two amounts, or `None` if it cannot be represented.
    pub fn checked_sub(self, other: Amount) -> (r: Option<Amount>)
        ensures
            r is Some <==> decimal_difference(self@, other@) is Some,
            r matches Some(a) ==> decimal_difference(self@, other@) == Some(a@),
    {
        proof {
            use_type_invariant(&self);
            use_type_invariant(&other);
        }
        match checked_sub_parts(self.mantissa, self.scale, other.mantissa, other.scale) {
            Some(p) => Some(Amount { mantissa: p.0, scale: p.1 }),
            None => None,
        }
    }

    /// The product of two amounts, or `None` if it cannot be represented.
    pub fn checked_mul(self, other: Amount) -> (r: Option<Amount>)
        ensures
            r is Some <==> decimal_product(self@, other@) is Some,
            r matches Some(a) ==> decimal_product(self@, other@) == Some(a@),
    {
        proof {
            use_type_invariant(&self);
            use_type_invariant(&other);
        }
        match checked_mul_parts(self.mantissa, self.scale, other.mantissa, other.scale) {
            Some(p) => Some(Amount { mantissa: p.0, scale: p.1 }),
            None => None,
        }
    }

    /// The quotient of two amounts, or `None` if the divisor is zero or the
    /// quotient cannot be represented.
    pub fn checked_div(self, other: Amount) -> (r: Option<Amount>)
        ensures
            r is Some <==> decimal_quotient(self@, other@) is Some,
            r matches Some(a) ==> decimal_quotient(self@, other@) == Some(a@),
    {
        proof {
            use_type_invariant(&self);
            use_type_invariant(&other);
        }
        match checked_div_parts(self.mantissa, self.scale, other.mantissa, other.scale) {
            Some(p) => Some(Amount { mantissa: p.0, scale: p.1 }),
            None => None,
        }
    }

    /// The amount rounded to `dp` fractional digits, ties going to the even
    /// neighbour.
    pub fn round_dp(self, dp: u32) -> (r: Amount)
        ensures
            r@ == self@.rounded(dp as nat),
    {
        proof {
            use_type_invariant(&self);
            lemma_rounded_in_range(self@, dp as nat);
        }
        let p = round_parts(self.mantissa, self.scale, dp);
        Amount { mantissa: p.0, scale: p.1 }
    }

    /// The amount written in a piece of text, such as `12.50`.
    pub fn parse(text: &str) -> (r: Result<Amount, SplittingError>)
        ensures
            match decimal_parsed(text@) {
                Some(d) => r matches Ok(a) && a@ == d,
                None => r matches Err(SplittingError::DecimalParsingError(_)),
            },
    {
        match parse_parts(text) {
            Ok(p) => Ok(Amount { mantissa: p.0, scale: p.1 }),
            Err(e) => Err(SplittingError::DecimalParsingError(error_text(&e))),
        }
    }

    /// The amount as text.
    pub fn to_text(&self) -> (r: String)
        ensures
            r@ == decimal_text(self@),
    {
        proof {
            use_type_invariant(self);
        }
        text_of_parts(self.mantissa, self.scale)
    }
}

} // verus!
