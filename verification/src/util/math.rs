//! Ratios of constrained decimals and cent rounding.

use vstd::prelude::*;
use crate::util::decimal::{
    decimal_checked_div, decimal_checked_sub, decimal_display, decimal_display_precision,
    same_value, value_lt, ConstrainedDecimal, Dec, DecConstraint, GreaterEqualZero, GreaterEqualZeroDecimal,
    Pos, PosDecimal,
};

verus! {

/// `numerator / denominator`, kept as a fraction.
#[derive(Debug)]
pub struct ConstrainedDecimalRatio<C: DecConstraint> {
    pub numerator: ConstrainedDecimal<C>,
    pub denominator: PosDecimal,
}

pub type PosDecimalRatio = ConstrainedDecimalRatio<Pos>;

pub type GezDecimalRatio = ConstrainedDecimalRatio<GreaterEqualZero>;

impl<C: DecConstraint> Clone for ConstrainedDecimalRatio<C> {
    fn clone(&self) -> (r: Self)
        ensures
            r.numerator@ == self.numerator@,
            r.denominator@ == self.denominator@,
    {
        ConstrainedDecimalRatio { numerator: self.numerator, denominator: self.denominator }
    }
}

impl<C: DecConstraint> Copy for ConstrainedDecimalRatio<C> {
}

impl<C: DecConstraint> PartialEq for ConstrainedDecimalRatio<C> {
    fn eq(&self, other: &Self) -> (r: bool) {
        self.numerator == other.numerator && self.denominator == other.denominator
    }
}

impl<C: DecConstraint> vstd::std_specs::cmp::PartialEqSpecImpl for ConstrainedDecimalRatio<C> {
    open spec fn obeys_eq_spec() -> bool {
        true
    }

    open spec fn eq_spec(&self, other: &Self) -> bool {
        same_value(self.numerator@, other.numerator@) && same_value(
            self.denominator@,
            other.denominator@,
        )
    }
}

impl<C: DecConstraint> Eq for ConstrainedDecimalRatio<C> {
}

impl<C: DecConstraint> ConstrainedDecimalRatio<C> {
    /// The quotient, or `None` where it overflows.
    pub fn to_decimal(&self) -> (r: Option<Dec>)
        ensures
            r == decimal_checked_div(self.numerator@, self.denominator@),
    {
        self.numerator.get().checked_div(&self.denominator.get())
    }

    /// `numerator/denominator`, each as displayed.
    pub fn to_string(&self) -> (r: String)
        ensures
            r@ == decimal_display(self.numerator@) + seq!['/'] + decimal_display(self.denominator@),
    {
        let mut s = self.numerator.get().to_string();
        proof {
            reveal_strlit("/");
        }
        s.append("/");
        let d = self.denominator.get().to_string();
        s.append(d.as_str());
        s
    }

    /// `numerator/denominator`, each with `precision` digits after the point.
    pub fn to_string_with_precision(&self, precision: usize) -> (r: String)
        ensures
            r@ == decimal_display_precision(self.numerator@, precision as nat) + seq!['/']
                + decimal_display_precision(self.denominator@, precision as nat),
    {
        let mut s = self.numerator.get().to_string_with_precision(precision);
        proof {
            reveal_strlit("/");
        }
        s.append("/");
        let d = self.denominator.get().to_string_with_precision(precision);
        s.append(d.as_str());
        s
    }
}

impl ConstrainedDecimalRatio<Pos> {
    /// The quotient, or `None` where it overflows or rounds to zero.
    pub fn to_posdecimal(&self) -> (r: Option<PosDecimal>)
        ensures
            r is Some <==> (decimal_checked_div(self.numerator@, self.denominator@) is Some
                && decimal_checked_div(self.numerator@, self.denominator@)->0.mant() != 0),
            r is Some ==> decimal_checked_div(self.numerator@, self.denominator@) == Some(
                r->0@,
            ),
    {
        self.numerator.checked_div(self.denominator)
    }
}

impl ConstrainedDecimalRatio<GreaterEqualZero> {
    /// The quotient, or `None` where it overflows.
    pub fn to_gezdecimal(&self) -> (r: Option<GreaterEqualZeroDecimal>)
        ensures
            r is Some <==> decimal_checked_div(self.numerator@, self.denominator@) is Some,
            r is Some ==> decimal_checked_div(self.numerator@, self.denominator@) == Some(
                r->0@,
            ),
    {
        self.numerator.checked_div(self.denominator)
    }
}

/// Rounds half away from zero to whole cents.
pub fn round_to_cent(d: Dec) -> (r: Dec)
    ensures
        r == d.rounded(2),
{
    d.round_dp(2)
}

/// `round_to_cent` for a constrained number whose rounded value still meets
/// the constraint.
pub fn c_round_to_cent<C: DecConstraint>(d: ConstrainedDecimal<C>) -> (r: ConstrainedDecimal<C>)
    requires
        C::holds(d@.rounded(2)),
    ensures
        r@ == d@.rounded(2),
{
    let x = round_to_cent(d.get());
    match ConstrainedDecimal::<C>::try_from(x) {
        Ok(c) => c,
        Err(_) => d,
    }
}

/// The tolerance below which a number counts as a whole cent: 0.0000000001.
pub open spec fn effective_cent_tolerance() -> Dec {
    Dec::spec_new(1, 10)
}

/// The number rounded to a whole cent where it is within the tolerance of
/// one, and unchanged otherwise.
pub open spec fn effective_cent(d: Dec) -> Dec {
    let rounded = d.rounded(2);
    match decimal_checked_sub(rounded, d) {
        Some(diff) => if value_lt(diff.abs_spec(), effective_cent_tolerance()) {
            rounded
        } else {
            d
        },
        None => d,
    }
}

/// The tolerance below which a number counts as a whole cent.
pub fn round_to_effective_cent_tolerance() -> (r: Dec)
    ensures
        r == effective_cent_tolerance(),
{
    Dec::new(1, 10)
}

/// Rounds to a whole cent only where the number is essentially one already
/// (such as 1.009999999999999999999), leaving real fractions of a cent alone.
pub fn maybe_round_to_effective_cent(d: Dec) -> (r: Dec)
    ensures
        r == effective_cent(d),
{
    let rounded = round_to_cent(d);
    let tolerance = round_to_effective_cent_tolerance();
    match rounded.checked_sub(&d) {
        Some(diff) => {
            if diff.abs().lt(&tolerance) {
                rounded
            } else {
                d
            }
        },
        None => d,
    }
}

/// `maybe_round_to_effective_cent` for a constrained number whose result
/// still meets the constraint.
pub fn c_maybe_round_to_effective_cent<C: DecConstraint>(d: ConstrainedDecimal<C>) -> (r:
    ConstrainedDecimal<C>)
    requires
        C::holds(effective_cent(d@)),
    ensures
        r@ == effective_cent(d@),
{
    let x = maybe_round_to_effective_cent(d.get());
    match ConstrainedDecimal::<C>::try_from(x) {
        Ok(c) => c,
        Err(_) => d,
    }
}

} // verus!
