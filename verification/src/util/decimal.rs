//! A fixed-point decimal number held as a plain mantissa and scale, with the
//! arithmetic itself done by `rust_decimal`.

use vstd::prelude::*;
use std::marker::PhantomData;

verus! {

/// 10 to the power of `n`.
pub open spec fn pow10(n: nat) -> int
    decreases n,
{
    if n == 0 {
        1
    } else {
        10 * pow10((n - 1) as nat)
    }
}

/// The largest mantissa magnitude a decimal can hold (2^96 - 1).
pub const MAX_DEC_MANTISSA: i128 = 79228162514264337593543950335i128;

/// The largest number of digits after the decimal point.
pub const MAX_DEC_SCALE: u32 = 28;

/// Whether an integer fits in a decimal's mantissa.
pub open spec fn fits_mantissa(x: int) -> bool {
    -(MAX_DEC_MANTISSA as int) <= x <= MAX_DEC_MANTISSA as int
}

/// A decimal number `mantissa / 10^scale`.
///
/// Two values with the same number but different scales (`1` and `1.0`)
/// compare equal, but keep their scale when displayed.
#[derive(Clone, Copy, Debug)]
pub struct Dec {
    m: i128,
    s: u32,
}

impl Dec {
    #[verifier::type_invariant]
    spec fn well_formed(self) -> bool {
        &&& fits_mantissa(self.m as int)
        &&& self.s <= MAX_DEC_SCALE
    }

    /// The mantissa.
    pub closed spec fn mant(self) -> int {
        self.m as int
    }

    /// The scale: the number of digits after the decimal point.
    pub closed spec fn scl(self) -> nat {
        self.s as nat
    }

    /// `num / 10^scale` as a value (for numbers that fit).
    pub closed spec fn spec_new(num: int, scale: nat) -> Dec {
        Dec { m: num as i128, s: scale as u32 }
    }

    /// The magnitude as a value.
    pub closed spec fn abs_spec(self) -> Dec {
        if self.m < 0 {
            Dec { m: (-self.m) as i128, s: self.s }
        } else {
            self
        }
    }

    /// The number rounded half away from zero to `dp` digits, as a value.
    pub closed spec fn rounded(self, dp: nat) -> Dec {
        if self.scl() <= dp {
            self
        } else {
            Dec { m: rounded_mantissa(self, dp) as i128, s: dp as u32 }
        }
    }

    pub open spec fn spec_is_zero(self) -> bool {
        self.mant() == 0
    }

    pub open spec fn spec_is_pos(self) -> bool {
        self.mant() > 0
    }

    pub open spec fn spec_is_neg(self) -> bool {
        self.mant() < 0
    }

    /// Builds `num / 10^scale`.
    pub fn new(num: i64, scale: u32) -> (r: Dec)
        requires
            scale <= MAX_DEC_SCALE,
        ensures
            r.mant() == num,
            r.scl() == scale,
            r == Dec::spec_new(num as int, scale as nat),
    {
        Dec { m: num as i128, s: scale }
    }

    /// Builds `mantissa / 10^scale`, or `None` where the parts do not fit.
    pub fn from_parts(mantissa: i128, scale: u32) -> (r: Option<Dec>)
        ensures
            r is Some <==> (fits_mantissa(mantissa as int) && scale <= MAX_DEC_SCALE),
            r matches Some(d) ==> d.mant() == mantissa && d.scl() == scale,
    {
        if -MAX_DEC_MANTISSA <= mantissa && mantissa <= MAX_DEC_MANTISSA && scale <= MAX_DEC_SCALE {
            Some(Dec { m: mantissa, s: scale })
        } else {
            None
        }
    }

    /// The integer `n` as a decimal.
    pub fn from_u64(n: u64) -> (r: Dec)
        ensures
            r.mant() == n,
            r.scl() == 0,
            r == Dec::spec_new(n as int, 0),
    {
        Dec { m: n as i128, s: 0 }
    }

    pub fn zero() -> (r: Dec)
        ensures
            r.mant() == 0,
            r.scl() == 0,
            r == Dec::spec_new(0, 0),
    {
        Dec { m: 0, s: 0 }
    }

    pub fn one() -> (r: Dec)
        ensures
            r.mant() == 1,
            r.scl() == 0,
            r == Dec::spec_new(1, 0),
    {
        Dec { m: 1, s: 0 }
    }

    pub fn mantissa(&self) -> (r: i128)
        ensures
            r == self.mant(),
    {
        self.m
    }

    pub fn scale(&self) -> (r: u32)
        ensures
            r == self.scl(),
    {
        self.s
    }

    pub fn is_zero(&self) -> (r: bool)
        ensures
            r == self.spec_is_zero(),
    {
        self.m == 0
    }

    /// Strictly greater than zero.
    pub fn is_positive(&self) -> (r: bool)
        ensures
            r == self.spec_is_pos(),
    {
        self.m > 0
    }

    /// Strictly less than zero.
    pub fn is_negative(&self) -> (r: bool)
        ensures
            r == self.spec_is_neg(),
    {
        self.m < 0
    }

    /// The same number with the opposite sign.
    pub fn neg(&self) -> (r: Dec)
        ensures
            r.mant() == -self.mant(),
            r.scl() == self.scl(),
            r == Dec::spec_new(-self.mant(), self.scl()),
    {
        proof {
            use_type_invariant(self);
        }
        Dec { m: -self.m, s: self.s }
    }

    /// The magnitude.
    pub fn abs(&self) -> (r: Dec)
        ensures
            r.mant() == (if self.mant() < 0 { -self.mant() } else { self.mant() }),
            r.scl() == self.scl(),
            r == self.abs_spec(),
    {
        proof {
            use_type_invariant(self);
        }
        if self.m < 0 {
            Dec { m: -self.m, s: self.s }
        } else {
            *self
        }
    }
}


/// Whether `a` and `b` denote the same number.
pub open spec fn same_value(a: Dec, b: Dec) -> bool {
    a.mant() * pow10(b.scl()) == b.mant() * pow10(a.scl())
}

/// Whether `a` denotes a smaller number than `b`.
pub open spec fn value_lt(a: Dec, b: Dec) -> bool {
    a.mant() * pow10(b.scl()) < b.mant() * pow10(a.scl())
}

/// Whether `r` denotes `a + b`, written without division.
pub open spec fn is_sum(r: Dec, a: Dec, b: Dec) -> bool {
    r.mant() * pow10(a.scl()) * pow10(b.scl()) == (a.mant() * pow10(b.scl()) + b.mant() * pow10(
        a.scl(),
    )) * pow10(r.scl())
}

/// Whether `r` denotes `a - b`, written without division.
pub open spec fn is_difference(r: Dec, a: Dec, b: Dec) -> bool {
    r.mant() * pow10(a.scl()) * pow10(b.scl()) == (a.mant() * pow10(b.scl()) - b.mant() * pow10(
        a.scl(),
    )) * pow10(r.scl())
}

/// Whether `q` denotes `a / b` exactly (with `b` not zero), written without
/// division.
pub open spec fn is_quotient(q: Dec, a: Dec, b: Dec) -> bool {
    &&& b.mant() != 0
    &&& q.mant() * b.mant() * pow10(a.scl()) == a.mant() * pow10(q.scl()) * pow10(b.scl())
}

/// Whether `r` denotes `a * b`, written without division.
pub open spec fn is_product(r: Dec, a: Dec, b: Dec) -> bool {
    r.mant() * pow10(a.scl() + b.scl()) == a.mant() * b.mant() * pow10(r.scl())
}

/// The mantissa of `d` written at the larger scale `s`.
pub open spec fn aligned(d: Dec, s: nat) -> int {
    d.mant() * pow10((s - d.scl()) as nat)
}

pub open spec fn max_nat(a: nat, b: nat) -> nat {
    if a >= b {
        a
    } else {
        b
    }
}

/// The sum of `a` and `b` is exact at the larger of their scales.
pub open spec fn sum_fits(a: Dec, b: Dec) -> bool {
    fits_mantissa(
        aligned(a, max_nat(a.scl(), b.scl())) + aligned(b, max_nat(a.scl(), b.scl())),
    )
}

/// The difference of `a` and `b` is exact at the larger of their scales.
pub open spec fn difference_fits(a: Dec, b: Dec) -> bool {
    fits_mantissa(
        aligned(a, max_nat(a.scl(), b.scl())) - aligned(b, max_nat(a.scl(), b.scl())),
    )
}

/// The product of `a` and `b` is exact at the sum of their scales.
pub open spec fn product_fits(a: Dec, b: Dec) -> bool {
    &&& a.scl() + b.scl() <= MAX_DEC_SCALE
    &&& fits_mantissa(a.mant() * b.mant())
}

/// The result of `rust_decimal`'s `checked_add` on the two numbers.
pub uninterp spec fn decimal_checked_add(a: Dec, b: Dec) -> Option<Dec>;

/// The result of `rust_decimal`'s `checked_sub` on the two numbers.
pub uninterp spec fn decimal_checked_sub(a: Dec, b: Dec) -> Option<Dec>;

/// The result of `rust_decimal`'s `checked_mul` on the two numbers.
pub uninterp spec fn decimal_checked_mul(a: Dec, b: Dec) -> Option<Dec>;

/// The result of `rust_decimal`'s `checked_div` on the two numbers.
pub uninterp spec fn decimal_checked_div(a: Dec, b: Dec) -> Option<Dec>;

/// `rust_decimal::Decimal::checked_add`. Claims: the result is a function of the
/// two numbers; it has the sign that a sum of two non-negative (or two
/// non-positive) numbers has; and where the exact sum fits at the larger scale,
/// it is that exact sum. When it rounds is left unsaid.
#[verifier::external_body]
fn decimal_add_call(a: &Dec, b: &Dec) -> (r: Option<Dec>)
    ensures
        r == decimal_checked_add(*a, *b),
        r is Some && a.mant() >= 0 && b.mant() >= 0 ==> r->0.mant() >= 0,
        r is Some && a.mant() <= 0 && b.mant() <= 0 ==> r->0.mant() <= 0,
        sum_fits(*a, *b) ==> r is Some && is_sum(r->0, *a, *b),
{
    let x = rust_decimal::Decimal::from_i128_with_scale(a.m, a.s);
    let y = rust_decimal::Decimal::from_i128_with_scale(b.m, b.s);
    x.checked_add(y).map(|z| Dec { m: z.mantissa(), s: z.scale() })
}

/// `rust_decimal::Decimal::checked_sub`. Claims: the result is a function of the
/// two numbers; a non-negative minus a non-positive number is non-negative (and
/// the reverse); and where the exact difference fits at the larger scale, it is
/// that exact difference.
#[verifier::external_body]
fn decimal_sub_call(a: &Dec, b: &Dec) -> (r: Option<Dec>)
    ensures
        r == decimal_checked_sub(*a, *b),
        r is Some && a.mant() >= 0 && b.mant() <= 0 ==> r->0.mant() >= 0,
        r is Some && a.mant() <= 0 && b.mant() >= 0 ==> r->0.mant() <= 0,
        difference_fits(*a, *b) ==> r is Some && is_difference(r->0, *a, *b),
{
    let x = rust_decimal::Decimal::from_i128_with_scale(a.m, a.s);
    let y = rust_decimal::Decimal::from_i128_with_scale(b.m, b.s);
    x.checked_sub(y).map(|z| Dec { m: z.mantissa(), s: z.scale() })
}

/// `rust_decimal::Decimal::checked_mul`. Claims: the result is a function of the
/// two numbers; it has the sign of the product (or is zero); and where the exact
/// product fits at the sum of the scales, it is that exact product.
#[verifier::external_body]
fn decimal_mul_call(a: &Dec, b: &Dec) -> (r: Option<Dec>)
    ensures
        r == decimal_checked_mul(*a, *b),
        r is Some && a.mant() >= 0 && b.mant() >= 0 ==> r->0.mant() >= 0,
        r is Some && a.mant() <= 0 && b.mant() <= 0 ==> r->0.mant() >= 0,
        r is Some && a.mant() <= 0 && b.mant() >= 0 ==> r->0.mant() <= 0,
        r is Some && a.mant() >= 0 && b.mant() <= 0 ==> r->0.mant() <= 0,
        product_fits(*a, *b) ==> r is Some && is_product(r->0, *a, *b),
{
    let x = rust_decimal::Decimal::from_i128_with_scale(a.m, a.s);
    let y = rust_decimal::Decimal::from_i128_with_scale(b.m, b.s);
    x.checked_mul(y).map(|z| Dec { m: z.mantissa(), s: z.scale() })
}

/// `rust_decimal::Decimal::checked_div`. Claims: the result is a function of the
/// two numbers; it is `None` for a zero divisor; it has the sign of the
/// quotient (or is zero); and where the exact quotient is a decimal (a
/// mantissa of at most 96 bits at a scale of at most 28) the result is that
/// quotient: the division scales the quotient up while a remainder is left
/// and rounds only where the next digit no longer fits. The rounding of
/// other quotients is left unsaid.
#[verifier::external_body]
fn decimal_div_call(a: &Dec, b: &Dec) -> (r: Option<Dec>)
    ensures
        r == decimal_checked_div(*a, *b),
        b.mant() == 0 ==> r is None,
        forall|q: Dec|
            #[trigger] is_quotient(q, *a, *b) && scale_ok(q) && fits_mantissa(q.mant()) ==> r is Some
                && same_value(r->0, q),
        r is Some && a.mant() >= 0 && b.mant() > 0 ==> r->0.mant() >= 0,
        r is Some && a.mant() <= 0 && b.mant() < 0 ==> r->0.mant() >= 0,
        r is Some && a.mant() <= 0 && b.mant() > 0 ==> r->0.mant() <= 0,
        r is Some && a.mant() >= 0 && b.mant() < 0 ==> r->0.mant() <= 0,
{
    let x = rust_decimal::Decimal::from_i128_with_scale(a.m, a.s);
    let y = rust_decimal::Decimal::from_i128_with_scale(b.m, b.s);
    x.checked_div(y).map(|z| Dec { m: z.mantissa(), s: z.scale() })
}


/// The mantissa of `d` rounded half away from zero to `dp` digits after the
/// decimal point, when `d` has more digits than that.
pub open spec fn rounded_mantissa(d: Dec, dp: nat) -> int {
    let q = pow10((d.scl() - dp) as nat);
    let half = 5 * pow10((d.scl() - dp - 1) as nat);
    if d.mant() >= 0 {
        (d.mant() + half) / q
    } else {
        -((-d.mant() + half) / q)
    }
}

/// `rust_decimal::Decimal::round_dp_with_strategy` with `MidpointAwayFromZero`:
/// a number with at most `dp` digits after the point is returned unchanged;
/// otherwise the result has scale `dp` and the mantissa rounded half away from
/// zero.
#[verifier::external_body]
fn decimal_round_dp_call(d: &Dec, dp: u32) -> (r: Dec)
    requires
        dp <= MAX_DEC_SCALE,
    ensures
        r == d.rounded(dp as nat),
        d.scl() <= dp ==> r == *d,
        d.scl() > dp ==> r.scl() == dp && r.mant() == rounded_mantissa(*d, dp as nat),
{
    let x = rust_decimal::Decimal::from_i128_with_scale(d.m, d.s);
    let z = x.round_dp_with_strategy(dp, rust_decimal::RoundingStrategy::MidpointAwayFromZero);
    Dec { m: z.mantissa(), s: z.scale() }
}

/// `rust_decimal::Decimal`'s `<`: compares the numbers denoted.
#[verifier::external_body]
fn decimal_lt_call(a: &Dec, b: &Dec) -> (r: bool)
    ensures
        r == value_lt(*a, *b),
{
    let x = rust_decimal::Decimal::from_i128_with_scale(a.m, a.s);
    let y = rust_decimal::Decimal::from_i128_with_scale(b.m, b.s);
    x < y
}

/// `rust_decimal::Decimal`'s `==`: compares the numbers denoted.
#[verifier::external_body]
fn decimal_eq_call(a: &Dec, b: &Dec) -> (r: bool)
    ensures
        r == same_value(*a, *b),
{
    let x = rust_decimal::Decimal::from_i128_with_scale(a.m, a.s);
    let y = rust_decimal::Decimal::from_i128_with_scale(b.m, b.s);
    x == y
}

/// What `rust_decimal` displays for a number (`to_string`).
pub uninterp spec fn decimal_display(d: Dec) -> Seq<char>;

/// What `rust_decimal` displays for a number with a given precision
/// (`format!("{:.p$}")`).
pub uninterp spec fn decimal_display_precision(d: Dec, precision: nat) -> Seq<char>;

/// `rust_decimal::Decimal`'s `Display`, through `to_string`.
#[verifier::external_body]
fn decimal_to_string_call(d: &Dec) -> (r: String)
    ensures
        r@ == decimal_display(*d),
{
    rust_decimal::Decimal::from_i128_with_scale(d.m, d.s).to_string()
}

/// `rust_decimal::Decimal`'s `Display` with a precision (`{:.p$}`).
#[verifier::external_body]
fn decimal_to_string_precision_call(d: &Dec, precision: usize) -> (r: String)
    ensures
        r@ == decimal_display_precision(*d, precision as nat),
{
    format!("{:.1$}", rust_decimal::Decimal::from_i128_with_scale(d.m, d.s), precision)
}

/// What `rust_decimal::Decimal::from_str` parses a text as, if it parses.
pub uninterp spec fn decimal_parse(s: Seq<char>) -> Option<Dec>;

/// The message of `rust_decimal`'s error when a text does not parse.
pub uninterp spec fn decimal_parse_error(s: Seq<char>) -> Seq<char>;

/// `rust_decimal::Decimal::from_str`, with its error displayed as text.
#[verifier::external_body]
fn decimal_from_str_call(s: &str) -> (r: Result<Dec, String>)
    ensures
        r is Ok <==> decimal_parse(s@) is Some,
        r is Ok ==> decimal_parse(s@) == Some(r->Ok_0),
        r is Err ==> r->Err_0@ == decimal_parse_error(s@),
{
    match <rust_decimal::Decimal as std::str::FromStr>::from_str(s) {
        Ok(z) => Ok(Dec { m: z.mantissa(), s: z.scale() }),
        Err(e) => Err(e.to_string()),
    }
}

/// What `rust_decimal::Decimal::from_str_exact` parses a text as, if it parses.
pub uninterp spec fn decimal_parse_exact(s: Seq<char>) -> Option<Dec>;

/// The message of `rust_decimal::Decimal::from_str_exact`'s error when a text
/// does not parse exactly.
pub uninterp spec fn decimal_parse_exact_error(s: Seq<char>) -> Seq<char>;

/// `rust_decimal::Decimal::from_str_exact`, with its error displayed as text.
#[verifier::external_body]
fn decimal_from_str_exact_call(s: &str) -> (r: Result<Dec, String>)
    ensures
        r is Ok <==> decimal_parse_exact(s@) is Some,
        r is Ok ==> decimal_parse_exact(s@) == Some(r->Ok_0),
        r is Err ==> r->Err_0@ == decimal_parse_exact_error(s@),
{
    match rust_decimal::Decimal::from_str_exact(s) {
        Ok(z) => Ok(Dec { m: z.mantissa(), s: z.scale() }),
        Err(e) => Err(e.to_string()),
    }
}

impl Dec {
    /// `self + other`, or `None` on overflow.
    pub fn checked_add(&self, other: &Dec) -> (r: Option<Dec>)
        ensures
            r == decimal_checked_add(*self, *other),
            r is Some && self.mant() >= 0 && other.mant() >= 0 ==> r->0.mant() >= 0,
            r is Some && self.mant() <= 0 && other.mant() <= 0 ==> r->0.mant() <= 0,
            sum_fits(*self, *other) ==> r is Some && is_sum(r->0, *self, *other),
            r is Some ==> scale_ok(r->0),
    {
        let r = decimal_add_call(self, other);
        match &r {
            Some(x) => {
                proof {
                    use_type_invariant(x);
                }
            },
            None => {},
        }
        r
    }

    /// `self - other`, or `None` on overflow.
    pub fn checked_sub(&self, other: &Dec) -> (r: Option<Dec>)
        ensures
            r == decimal_checked_sub(*self, *other),
            r is Some && self.mant() >= 0 && other.mant() <= 0 ==> r->0.mant() >= 0,
            r is Some && self.mant() <= 0 && other.mant() >= 0 ==> r->0.mant() <= 0,
            difference_fits(*self, *other) ==> r is Some && is_difference(r->0, *self, *other),
            r is Some ==> scale_ok(r->0),
    {
        let r = decimal_sub_call(self, other);
        match &r {
            Some(x) => {
                proof {
                    use_type_invariant(x);
                }
            },
            None => {},
        }
        r
    }

    /// `self * other`, or `None` on overflow.
    pub fn checked_mul(&self, other: &Dec) -> (r: Option<Dec>)
        ensures
            r == decimal_checked_mul(*self, *other),
            r is Some && self.mant() >= 0 && other.mant() >= 0 ==> r->0.mant() >= 0,
            r is Some && self.mant() <= 0 && other.mant() <= 0 ==> r->0.mant() >= 0,
            r is Some && self.mant() <= 0 && other.mant() >= 0 ==> r->0.mant() <= 0,
            r is Some && self.mant() >= 0 && other.mant() <= 0 ==> r->0.mant() <= 0,
            product_fits(*self, *other) ==> r is Some && is_product(r->0, *self, *other),
    {
        decimal_mul_call(self, other)
    }

    /// `self / other`, or `None` on a zero divisor or overflow.
    pub fn checked_div(&self, other: &Dec) -> (r: Option<Dec>)
        ensures
            r == decimal_checked_div(*self, *other),
            other.mant() == 0 ==> r is None,
            r is Some && self.mant() >= 0 && other.mant() > 0 ==> r->0.mant() >= 0,
            r is Some && self.mant() <= 0 && other.mant() < 0 ==> r->0.mant() >= 0,
            r is Some && self.mant() <= 0 && other.mant() > 0 ==> r->0.mant() <= 0,
            r is Some && self.mant() >= 0 && other.mant() < 0 ==> r->0.mant() <= 0,
            forall|q: Dec|
                #[trigger] is_quotient(q, *self, *other) && scale_ok(q) && fits_mantissa(q.mant())
                    ==> r is Some && same_value(r->0, q),
    {
        decimal_div_call(self, other)
    }

    /// Rounds half away from zero to `dp` digits after the point.
    pub fn round_dp(&self, dp: u32) -> (r: Dec)
        requires
            dp <= MAX_DEC_SCALE,
        ensures
            r == self.rounded(dp as nat),
            self.scl() <= dp ==> r == *self,
            self.scl() > dp ==> r.scl() == dp && r.mant() == rounded_mantissa(*self, dp as nat),
    {
        decimal_round_dp_call(self, dp)
    }

    /// Whether `self` denotes a smaller number than `other`.
    pub fn lt(&self, other: &Dec) -> (r: bool)
        ensures
            r == value_lt(*self, *other),
    {
        decimal_lt_call(self, other)
    }

    /// Whether `self` denotes the same number as `other`.
    pub fn value_eq(&self, other: &Dec) -> (r: bool)
        ensures
            r == same_value(*self, *other),
    {
        decimal_eq_call(self, other)
    }

    /// Whether the fractional part is zero.
    pub fn is_integer(&self) -> (r: bool)
        ensures
            r == (self.mant() % pow10(self.scl()) == 0),
    {
        proof {
            use_type_invariant(self);
        }
        let mut p: i128 = 1;
        let mut k: u32 = 0;
        while k < self.s
            invariant
                k <= self.s <= MAX_DEC_SCALE,
                p as int == pow10(k as nat),
            decreases self.s - k,
        {
            proof {
                lemma_pow10_le(k as nat + 1, MAX_DEC_SCALE as nat);
                lemma_pow10_28_fits();
                lemma_pow10_pos(k as nat);
                assert(pow10((k + 1) as nat) == 10 * pow10(k as nat));
            }
            p = p * 10;
            k = k + 1;
        }
        proof {
            lemma_pow10_pos(self.s as nat);
        }
        let a: i128 = if self.m < 0 {
            -self.m
        } else {
            self.m
        };
        let r = a % p == 0;
        proof {
            lemma_mod_zero_neg(self.m as int, p as int);
        }
        r
    }

    /// The displayed form, keeping the scale (`1.50` stays `1.50`).
    pub fn to_string(&self) -> (r: String)
        ensures
            r@ == decimal_display(*self),
    {
        decimal_to_string_call(self)
    }

    /// The displayed form with `precision` digits after the point.
    pub fn to_string_with_precision(&self, precision: usize) -> (r: String)
        ensures
            r@ == decimal_display_precision(*self, precision as nat),
    {
        decimal_to_string_precision_call(self, precision)
    }

    /// Parses a decimal number (`rust_decimal`'s `from_str`).
    pub fn parse(s: &str) -> (r: Result<Dec, String>)
        ensures
            r is Ok <==> decimal_parse(s@) is Some,
            r is Ok ==> decimal_parse(s@) == Some(r->Ok_0),
            r is Err ==> r->Err_0@ == decimal_parse_error(s@),
    {
        decimal_from_str_call(s)
    }

    /// Parses a decimal number, refusing one that would lose precision.
    pub fn parse_exact(s: &str) -> (r: Result<Dec, String>)
        ensures
            r is Ok <==> decimal_parse_exact(s@) is Some,
            r is Ok ==> decimal_parse_exact(s@) == Some(r->Ok_0),
            r is Err ==> r->Err_0@ == decimal_parse_exact_error(s@),
    {
        decimal_from_str_exact_call(s)
    }
}

impl PartialEq for Dec {
    fn eq(&self, other: &Dec) -> (r: bool) {
        self.value_eq(other)
    }
}

impl vstd::std_specs::cmp::PartialEqSpecImpl for Dec {
    open spec fn obeys_eq_spec() -> bool {
        true
    }

    open spec fn eq_spec(&self, other: &Dec) -> bool {
        same_value(*self, *other)
    }
}

impl Eq for Dec {
}


/// Strictly greater than zero (`rust_decimal`'s deprecated `is_sign_positive`
/// without the zero case).
pub fn is_positive(d: &Dec) -> (r: bool)
    ensures
        r == d.spec_is_pos(),
{
    d.is_positive()
}

/// Strictly less than zero.
pub fn is_negative(d: &Dec) -> (r: bool)
    ensures
        r == d.spec_is_neg(),
{
    d.is_negative()
}

/// A number with two digits after the point, as dollars are shown.
pub fn dollar_precision_str(d: &Dec) -> (r: String)
    ensures
        r@ == decimal_display_precision(*d, 2),
{
    d.to_string_with_precision(2)
}

/// The index of the first smallest number in `ds`.
pub open spec fn is_min_index(ds: Seq<Dec>, k: int) -> bool {
    &&& 0 <= k < ds.len()
    &&& forall|j: int| 0 <= j < ds.len() ==> !value_lt(#[trigger] ds[j], ds[k])
    &&& forall|j: int| 0 <= j < k ==> value_lt(ds[k], #[trigger] ds[j])
}

/// The smallest number in `ds` (the first of equals).
pub fn min(ds: &[Dec]) -> (r: Dec)
    requires
        ds@.len() > 0,
    ensures
        exists|k: int| is_min_index(ds@, k) && r == ds@[k],
{
    let mut m = ds[0];
    let ghost mut k: int = 0;
    let mut i: usize = 1;
    while i < ds.len()
        invariant
            1 <= i <= ds@.len(),
            0 <= k < i,
            m == ds@[k],
            forall|j: int| 0 <= j < i ==> !value_lt(#[trigger] ds@[j], ds@[k]),
            forall|j: int| 0 <= j < k ==> value_lt(ds@[k], #[trigger] ds@[j]),
        decreases ds@.len() - i,
    {
        if ds[i].lt(&m) {
            proof {
                lemma_value_lt_transitive_all(ds@, k, i as int);
            }
            m = ds[i];
            proof {
                k = i as int;
            }
        }
        i += 1;
    }
    assert(is_min_index(ds@, k));
    m
}

/// `a < b` and `b <= c` (not `c < b`) give `a < c`.
proof fn lemma_value_lt_le(a: Dec, b: Dec, c: Dec)
    requires
        value_lt(a, b),
        !value_lt(c, b),
    ensures
        value_lt(a, c),
{
    lemma_pow10_pos(a.scl());
    lemma_pow10_pos(b.scl());
    lemma_pow10_pos(c.scl());
    let pa = pow10(a.scl());
    let pb = pow10(b.scl());
    let pc = pow10(c.scl());
    assert(a.mant() * pc < c.mant() * pa) by (nonlinear_arith)
        requires
            a.mant() * pb < b.mant() * pa,
            c.mant() * pb >= b.mant() * pc,
            pa > 0,
            pb > 0,
            pc > 0,
    ;
}

/// Every non-empty list of numbers has a smallest one (the first of equals).
pub proof fn lemma_min_index_exists(ds: Seq<Dec>)
    requires
        ds.len() > 0,
    ensures
        exists|k: int| is_min_index(ds, k),
    decreases ds.len(),
{
    if ds.len() == 1 {
        assert(is_min_index(ds, 0));
    } else {
        let prev = ds.drop_last();
        lemma_min_index_exists(prev);
        let k = choose|k: int| is_min_index(prev, k);
        let n = ds.len() - 1;
        let x = ds[n];
        assert forall|j: int| 0 <= j < n implies ds[j] == #[trigger] prev[j] by {}
        if value_lt(x, ds[k]) {
            assert forall|j: int| 0 <= j < n implies value_lt(x, #[trigger] ds[j]) by {
                assert(!value_lt(prev[j], prev[k]));
                lemma_value_lt_le(x, ds[k], ds[j]);
            }
            assert forall|j: int| 0 <= j < ds.len() implies !value_lt(#[trigger] ds[j], x) by {
                if j < n && value_lt(ds[j], x) {
                    // then ds[j] < ds[k], against k being the smallest
                    lemma_value_lt_le(ds[j], x, ds[k]);
                    assert(!value_lt(prev[j], prev[k]));
                }
            }
            assert(is_min_index(ds, n));
        } else {
            assert forall|j: int| 0 <= j < ds.len() implies !value_lt(#[trigger] ds[j], ds[k]) by {
                if j < n {
                    assert(!value_lt(prev[j], prev[k]));
                }
            }
            assert forall|j: int| 0 <= j < k implies value_lt(ds[k], #[trigger] ds[j]) by {
                assert(value_lt(prev[k], prev[j]));
            }
            assert(is_min_index(ds, k));
        }
    }
}

/// `!(b < a)` and `a < c` ... helpers for `min`: a new strict minimum at `i`
/// is below every earlier element.
proof fn lemma_value_lt_transitive_all(ds: Seq<Dec>, k: int, i: int)
    requires
        0 <= k < i < ds.len(),
        value_lt(ds[i], ds[k]),
        forall|j: int| 0 <= j < i ==> !value_lt(#[trigger] ds[j], ds[k]),
    ensures
        forall|j: int| 0 <= j < i ==> value_lt(ds[i], #[trigger] ds[j]),
{
    assert forall|j: int| 0 <= j < i implies value_lt(ds[i], #[trigger] ds[j]) by {
        lemma_value_lt_le(ds[i], ds[k], ds[j]);
    }
}

/// Powers of ten grow with the exponent.
proof fn lemma_pow10_le(a: nat, b: nat)
    requires
        a <= b,
    ensures
        pow10(a) <= pow10(b),
    decreases b,
{
    if a < b {
        lemma_pow10_le(a, (b - 1) as nat);
        lemma_pow10_pos((b - 1) as nat);
    }
}

/// Ten to the largest scale, written out.
proof fn lemma_pow10_28_fits()
    ensures
        pow10(MAX_DEC_SCALE as nat) == 10000000000000000000000000000int,
{
    reveal_with_fuel(pow10, 29);
}

/// A number and its negation are multiples of a positive number together.
proof fn lemma_mod_zero_neg(m: int, p: int)
    requires
        p > 0,
    ensures
        ((if m < 0 { -m } else { m }) % p == 0) == (m % p == 0),
{
    if m < 0 {
        lemma_neg_multiple(m, p);
        lemma_neg_multiple(-m, p);
    }
}

/// If `m` is a multiple of `p`, so is `-m`.
proof fn lemma_neg_multiple(m: int, p: int)
    requires
        p > 0,
    ensures
        m % p == 0 ==> (-m) % p == 0,
{
    if m % p == 0 {
        let q = m / p;
        vstd::arithmetic::div_mod::lemma_fundamental_div_mod(m, p);
        assert(-m == (-q) * p) by (nonlinear_arith)
            requires
                m == p * q,
        ;
        vstd::arithmetic::div_mod::lemma_mod_multiples_basic(-q, p);
    }
}

/// A number as a whole count of the smallest unit a decimal can hold
/// (`10^-28`); for scales up to 28, two numbers denote the same value exactly
/// when their counts agree.
pub open spec fn units(d: Dec) -> int {
    d.mant() * pow10((MAX_DEC_SCALE - d.scl()) as nat)
}

/// Whether a number's scale is one a decimal can hold.
pub open spec fn scale_ok(d: Dec) -> bool {
    d.scl() <= MAX_DEC_SCALE
}

/// Powers of ten multiply by adding exponents.
pub proof fn lemma_pow10_add(a: nat, b: nat)
    ensures
        pow10(a) * pow10(b) == pow10(a + b),
    decreases a,
{
    if a > 0 {
        lemma_pow10_add((a - 1) as nat, b);
        assert(pow10(a) * pow10(b) == 10 * (pow10((a - 1) as nat) * pow10(b))) by (nonlinear_arith)
            requires
                pow10(a) == 10 * pow10((a - 1) as nat),
        ;
        assert(pow10(a + b) == 10 * pow10((a + b - 1) as nat));
    }
}

/// `10^s * 10^(28 - s) == 10^28`.
proof fn lemma_pow10_complement(s: nat)
    requires
        s <= MAX_DEC_SCALE,
    ensures
        pow10(s) * pow10((MAX_DEC_SCALE - s) as nat) == pow10(MAX_DEC_SCALE as nat),
        pow10(MAX_DEC_SCALE as nat) > 0,
{
    lemma_pow10_add(s, (MAX_DEC_SCALE - s) as nat);
    lemma_pow10_pos(MAX_DEC_SCALE as nat);
}

proof fn lemma_scaled_sum(
    rm: int,
    am: int,
    bm: int,
    pa: int,
    pb: int,
    pr: int,
    qa: int,
    qb: int,
    qr: int,
    t: int,
    sign: int,
)
    requires
        t > 0,
        pa * qa == t,
        pb * qb == t,
        pr * qr == t,
        rm * pa * pb == (am * pb + sign * bm * pa) * pr,
    ensures
        rm * qr == am * qa + sign * bm * qb,
{
    let z = qa * qb * qr;
    assert(rm * pa * pb * z == (am * pb + sign * bm * pa) * pr * z);
    assert(rm * pa * pb * (qa * qb * qr) == rm * qr * ((pa * qa) * (pb * qb))) by (nonlinear_arith);
    let x = am * pb;
    let y = sign * bm * pa;
    assert((x + y) * pr * z == x * pr * z + y * pr * z) by (nonlinear_arith);
    assert(am * pb * pr * (qa * qb * qr) == am * qa * ((pb * qb) * (pr * qr))) by (nonlinear_arith);
    assert(sign * bm * pa * pr * (qa * qb * qr) == sign * bm * qb * ((pa * qa) * (pr * qr)))
        by (nonlinear_arith);
    assert(rm * qr * (t * t) == am * qa * (t * t) + sign * bm * qb * (t * t));
    assert(am * qa * (t * t) + sign * bm * qb * (t * t) == (am * qa + sign * bm * qb) * (t * t))
        by (nonlinear_arith);
    assert(t * t > 0) by (nonlinear_arith)
        requires
            t > 0,
    ;
    vstd::arithmetic::mul::lemma_mul_equality_converse(
        t * t,
        rm * qr,
        am * qa + sign * bm * qb,
    );
}

/// An exact sum adds the unit counts.
pub proof fn lemma_units_of_sum(r: Dec, a: Dec, b: Dec)
    requires
        scale_ok(r) && scale_ok(a) && scale_ok(b),
        is_sum(r, a, b),
    ensures
        units(r) == units(a) + units(b),
{
    lemma_pow10_complement(a.scl());
    lemma_pow10_complement(b.scl());
    lemma_pow10_complement(r.scl());
    lemma_scaled_sum(
        r.mant(),
        a.mant(),
        b.mant(),
        pow10(a.scl()),
        pow10(b.scl()),
        pow10(r.scl()),
        pow10((MAX_DEC_SCALE - a.scl()) as nat),
        pow10((MAX_DEC_SCALE - b.scl()) as nat),
        pow10((MAX_DEC_SCALE - r.scl()) as nat),
        pow10(MAX_DEC_SCALE as nat),
        1,
    );
}

/// An exact difference subtracts the unit counts.
pub proof fn lemma_units_of_difference(r: Dec, a: Dec, b: Dec)
    requires
        scale_ok(r) && scale_ok(a) && scale_ok(b),
        is_difference(r, a, b),
    ensures
        units(r) == units(a) - units(b),
{
    lemma_pow10_complement(a.scl());
    lemma_pow10_complement(b.scl());
    lemma_pow10_complement(r.scl());
    assert(a.mant() * pow10(b.scl()) - b.mant() * pow10(a.scl()) == a.mant() * pow10(b.scl()) + (
    -1) * b.mant() * pow10(a.scl())) by (nonlinear_arith);
    lemma_scaled_sum(
        r.mant(),
        a.mant(),
        b.mant(),
        pow10(a.scl()),
        pow10(b.scl()),
        pow10(r.scl()),
        pow10((MAX_DEC_SCALE - a.scl()) as nat),
        pow10((MAX_DEC_SCALE - b.scl()) as nat),
        pow10((MAX_DEC_SCALE - r.scl()) as nat),
        pow10(MAX_DEC_SCALE as nat),
        -1,
    );
    assert(a.mant() * pow10((MAX_DEC_SCALE - a.scl()) as nat) + (-1) * b.mant() * pow10(
        (MAX_DEC_SCALE - b.scl()) as nat,
    ) == units(a) - units(b)) by (nonlinear_arith);
}

/// Numbers of the same value have the same unit count.
pub proof fn lemma_units_of_same_value(a: Dec, b: Dec)
    requires
        scale_ok(a) && scale_ok(b),
        same_value(a, b),
    ensures
        units(a) == units(b),
{
    lemma_pow10_complement(a.scl());
    lemma_pow10_complement(b.scl());
    let pa = pow10(a.scl());
    let pb = pow10(b.scl());
    let qa = pow10((MAX_DEC_SCALE - a.scl()) as nat);
    let qb = pow10((MAX_DEC_SCALE - b.scl()) as nat);
    let t = pow10(MAX_DEC_SCALE as nat);
    assert(a.mant() * qa * t == b.mant() * qb * t) by (nonlinear_arith)
        requires
            pa * qa == t,
            pb * qb == t,
            a.mant() * pb == b.mant() * pa,
    ;
    vstd::arithmetic::mul::lemma_mul_equality_converse(t, a.mant() * qa, b.mant() * qb);
}

pub proof fn lemma_pow10_pos(n: nat)
    ensures
        pow10(n) > 0,
    decreases n,
{
    if n > 0 {
        lemma_pow10_pos((n - 1) as nat);
    }
}

/// The parts of a number built from parts that fit.
pub proof fn lemma_spec_new(num: int, scale: nat)
    requires
        fits_mantissa(num),
        scale <= MAX_DEC_SCALE,
    ensures
        Dec::spec_new(num, scale).mant() == num,
        Dec::spec_new(num, scale).scl() == scale,
{
}

/// A condition on the sign of a decimal number.
pub trait DecConstraint {
    spec fn holds(d: Dec) -> bool;

    fn is_ok(d: &Dec) -> (r: bool)
        ensures
            r == Self::holds(*d),
    ;

    /// The name of the constraint, as messages show it.
    spec fn constraint_name_spec() -> Seq<char>;

    fn constraint_name() -> (r: &'static str)
        ensures
            r@ == Self::constraint_name_spec(),
    ;
}

/// Strictly negative.
#[derive(PartialEq, Eq, Clone, Copy, Debug)]
pub struct Neg(());

/// Negative or zero.
#[derive(PartialEq, Eq, Clone, Copy, Debug)]
pub struct LessEqualZero(());

/// Positive or zero.
#[derive(PartialEq, Eq, Clone, Copy, Debug)]
pub struct GreaterEqualZero(());

/// Strictly positive.
#[derive(PartialEq, Eq, Clone, Copy, Debug)]
pub struct Pos(());

impl DecConstraint for Neg {
    open spec fn holds(d: Dec) -> bool {
        d.mant() < 0
    }

    fn is_ok(d: &Dec) -> (r: bool) {
        is_negative(d)
    }

    open spec fn constraint_name_spec() -> Seq<char> {
        "acb::util::decimal::constraint::Neg"@
    }

    fn constraint_name() -> (r: &'static str) {
        "acb::util::decimal::constraint::Neg"
    }
}

impl DecConstraint for LessEqualZero {
    open spec fn holds(d: Dec) -> bool {
        d.mant() <= 0
    }

    fn is_ok(d: &Dec) -> (r: bool) {
        d.is_negative() || d.is_zero()
    }

    open spec fn constraint_name_spec() -> Seq<char> {
        "acb::util::decimal::constraint::LessEqualZero"@
    }

    fn constraint_name() -> (r: &'static str) {
        "acb::util::decimal::constraint::LessEqualZero"
    }
}

impl DecConstraint for GreaterEqualZero {
    open spec fn holds(d: Dec) -> bool {
        d.mant() >= 0
    }

    fn is_ok(d: &Dec) -> (r: bool) {
        d.is_positive() || d.is_zero()
    }

    open spec fn constraint_name_spec() -> Seq<char> {
        "acb::util::decimal::constraint::GreaterEqualZero"@
    }

    fn constraint_name() -> (r: &'static str) {
        "acb::util::decimal::constraint::GreaterEqualZero"
    }
}

impl DecConstraint for Pos {
    open spec fn holds(d: Dec) -> bool {
        d.mant() > 0
    }

    fn is_ok(d: &Dec) -> (r: bool) {
        is_positive(d)
    }

    open spec fn constraint_name_spec() -> Seq<char> {
        "acb::util::decimal::constraint::Pos"@
    }

    fn constraint_name() -> (r: &'static str) {
        "acb::util::decimal::constraint::Pos"
    }
}

/// A decimal number that always meets the constraint `C`.
#[derive(Debug)]
pub struct ConstrainedDecimal<C: DecConstraint> {
    d: Dec,
    c: PhantomData<C>,
}

pub type NegDecimal = ConstrainedDecimal<Neg>;

pub type LessEqualZeroDecimal = ConstrainedDecimal<LessEqualZero>;

pub type GreaterEqualZeroDecimal = ConstrainedDecimal<GreaterEqualZero>;

pub type PosDecimal = ConstrainedDecimal<Pos>;

impl<C: DecConstraint> ConstrainedDecimal<C> {
    #[verifier::type_invariant]
    spec fn meets_constraint(self) -> bool {
        C::holds(self.d)
    }

    /// The number held.
    pub closed spec fn view(self) -> Dec {
        self.d
    }

    /// The constrained number, or a message naming the value and the
    /// constraint where `d` does not meet it.
    pub fn try_from(d: Dec) -> (r: Result<Self, String>)
        ensures
            r is Ok <==> C::holds(d),
            r is Ok ==> r->Ok_0@ == d,
            r is Err ==> r->Err_0@ == decimal_display(d) + " does not match constraints of "@
                + C::constraint_name_spec(),
    {
        if C::is_ok(&d) {
            Ok(ConstrainedDecimal { d, c: PhantomData })
        } else {
            let mut msg = d.to_string();
            msg.append(" does not match constraints of ");
            msg.append(C::constraint_name());
            Err(msg)
        }
    }

    /// The number held (what `*` gives in the original interface).
    pub fn get(&self) -> (r: Dec)
        ensures
            r == self@,
            C::holds(r),
    {
        proof {
            use_type_invariant(self);
        }
        self.d
    }
}

impl<C: DecConstraint> Clone for ConstrainedDecimal<C> {
    fn clone(&self) -> (r: Self)
        ensures
            r@ == self@,
    {
        proof {
            use_type_invariant(self);
        }
        ConstrainedDecimal { d: self.d, c: PhantomData }
    }
}

impl<C: DecConstraint> Copy for ConstrainedDecimal<C> {
}

impl<C: DecConstraint> PartialEq for ConstrainedDecimal<C> {
    fn eq(&self, other: &Self) -> (r: bool) {
        self.d.value_eq(&other.d)
    }
}

impl<C: DecConstraint> vstd::std_specs::cmp::PartialEqSpecImpl for ConstrainedDecimal<C> {
    open spec fn obeys_eq_spec() -> bool {
        true
    }

    open spec fn eq_spec(&self, other: &Self) -> bool {
        same_value(self@, other@)
    }
}

impl<C: DecConstraint> Eq for ConstrainedDecimal<C> {
}

impl ConstrainedDecimal<GreaterEqualZero> {
    pub fn zero() -> (r: Self)
        ensures
            r@.mant() == 0,
            r@.scl() == 0,
            r@ == Dec::spec_new(0, 0),
    {
        ConstrainedDecimal { d: Dec::zero(), c: PhantomData }
    }

    /// `self + rhs`, or `None` on overflow.
    pub fn checked_add(self, rhs: Self) -> (r: Option<Self>)
        ensures
            r is Some <==> decimal_checked_add(self@, rhs@) is Some,
            r is Some ==> decimal_checked_add(self@, rhs@) == Some(r->0@),
    {
        proof {
            use_type_invariant(&self);
            use_type_invariant(&rhs);
        }
        match self.d.checked_add(&rhs.d) {
            Some(x) => Some(ConstrainedDecimal { d: x, c: PhantomData }),
            None => None,
        }
    }

    /// `self * rhs`, or `None` on overflow.
    pub fn checked_mul(self, rhs: Self) -> (r: Option<Self>)
        ensures
            r is Some <==> decimal_checked_mul(self@, rhs@) is Some,
            r is Some ==> decimal_checked_mul(self@, rhs@) == Some(r->0@),
    {
        proof {
            use_type_invariant(&self);
            use_type_invariant(&rhs);
        }
        match self.d.checked_mul(&rhs.d) {
            Some(x) => Some(ConstrainedDecimal { d: x, c: PhantomData }),
            None => None,
        }
    }

    /// `self / rhs`, or `None` on overflow.
    pub fn checked_div(self, rhs: ConstrainedDecimal<Pos>) -> (r: Option<Self>)
        ensures
            r is Some <==> decimal_checked_div(self@, rhs@) is Some,
            r is Some ==> decimal_checked_div(self@, rhs@) == Some(r->0@),
    {
        proof {
            use_type_invariant(&self);
            use_type_invariant(&rhs);
        }
        match self.d.checked_div(&rhs.d) {
            Some(x) => Some(ConstrainedDecimal { d: x, c: PhantomData }),
            None => None,
        }
    }

    /// A positive number is also non-negative.
    pub fn from_pos(value: ConstrainedDecimal<Pos>) -> (r: Self)
        ensures
            r@ == value@,
    {
        proof {
            use_type_invariant(&value);
        }
        ConstrainedDecimal { d: value.d, c: PhantomData }
    }
}

impl ConstrainedDecimal<LessEqualZero> {
    pub fn zero() -> (r: Self)
        ensures
            r@.mant() == 0,
            r@.scl() == 0,
            r@ == Dec::spec_new(0, 0),
    {
        ConstrainedDecimal { d: Dec::zero(), c: PhantomData }
    }

    /// A negative number is also non-positive.
    pub fn from_neg(value: ConstrainedDecimal<Neg>) -> (r: Self)
        ensures
            r@ == value@,
    {
        proof {
            use_type_invariant(&value);
        }
        ConstrainedDecimal { d: value.d, c: PhantomData }
    }
}

impl ConstrainedDecimal<Pos> {
    pub fn one() -> (r: Self)
        ensures
            r@.mant() == 1,
            r@.scl() == 0,
            r@ == Dec::spec_new(1, 0),
    {
        ConstrainedDecimal { d: Dec::one(), c: PhantomData }
    }

    /// `self * rhs`, or `None` on overflow or where the product rounds to zero.
    pub fn checked_mul(self, rhs: Self) -> (r: Option<Self>)
        ensures
            r is Some <==> (decimal_checked_mul(self@, rhs@) is Some
                && decimal_checked_mul(self@, rhs@)->0.mant() != 0),
            r is Some ==> decimal_checked_mul(self@, rhs@) == Some(r->0@),
    {
        proof {
            use_type_invariant(&self);
            use_type_invariant(&rhs);
        }
        match self.d.checked_mul(&rhs.d) {
            Some(x) => {
                if x.is_zero() {
                    None
                } else {
                    Some(ConstrainedDecimal { d: x, c: PhantomData })
                }
            },
            None => None,
        }
    }

    /// `self / rhs`, or `None` on overflow or where the quotient rounds to zero.
    pub fn checked_div(self, rhs: Self) -> (r: Option<Self>)
        ensures
            r is Some <==> (decimal_checked_div(self@, rhs@) is Some
                && decimal_checked_div(self@, rhs@)->0.mant() != 0),
            r is Some ==> decimal_checked_div(self@, rhs@) == Some(r->0@),
    {
        proof {
            use_type_invariant(&self);
            use_type_invariant(&rhs);
        }
        match self.d.checked_div(&rhs.d) {
            Some(x) => {
                if x.is_zero() {
                    None
                } else {
                    Some(ConstrainedDecimal { d: x, c: PhantomData })
                }
            },
            None => None,
        }
    }
}

impl ConstrainedDecimal<Neg> {
    pub fn neg_1() -> (r: Self)
        ensures
            r@.mant() == -1,
            r@.scl() == 0,
            r@ == Dec::spec_new(-1, 0),
    {
        ConstrainedDecimal { d: Dec::new(-1, 0), c: PhantomData }
    }

    /// `self * rhs` for a positive `rhs`, or `None` on overflow or where the
    /// product rounds to zero.
    pub fn checked_mul_pos(&self, rhs: ConstrainedDecimal<Pos>) -> (r: Option<Self>)
        ensures
            r is Some <==> (decimal_checked_mul(self@, rhs@) is Some
                && decimal_checked_mul(self@, rhs@)->0.mant() != 0),
            r is Some ==> decimal_checked_mul(self@, rhs@) == Some(r->0@),
    {
        proof {
            use_type_invariant(self);
            use_type_invariant(&rhs);
        }
        match self.d.checked_mul(&rhs.d) {
            Some(x) => {
                if x.is_zero() {
                    None
                } else {
                    Some(ConstrainedDecimal { d: x, c: PhantomData })
                }
            },
            None => None,
        }
    }

    /// `self * rhs` for a negative `rhs`: positive, or `None` on overflow or
    /// where the product rounds to zero.
    pub fn checked_mul_neg(&self, rhs: Self) -> (r: Option<ConstrainedDecimal<Pos>>)
        ensures
            r is Some <==> (decimal_checked_mul(self@, rhs@) is Some
                && decimal_checked_mul(self@, rhs@)->0.mant() != 0),
            r is Some ==> decimal_checked_mul(self@, rhs@) == Some(r->0@),
    {
        proof {
            use_type_invariant(self);
            use_type_invariant(&rhs);
        }
        match self.d.checked_mul(&rhs.d) {
            Some(x) => {
                if x.is_zero() {
                    None
                } else {
                    Some(ConstrainedDecimal { d: x, c: PhantomData })
                }
            },
            None => None,
        }
    }

    /// `self / rhs` for a negative `rhs`: positive, or `None` on overflow or
    /// where the quotient rounds to zero.
    pub fn checked_div_neg(&self, rhs: Self) -> (r: Option<ConstrainedDecimal<Pos>>)
        ensures
            r is Some <==> (decimal_checked_div(self@, rhs@) is Some
                && decimal_checked_div(self@, rhs@)->0.mant() != 0),
            r is Some ==> decimal_checked_div(self@, rhs@) == Some(r->0@),
    {
        proof {
            use_type_invariant(self);
            use_type_invariant(&rhs);
        }
        match self.d.checked_div(&rhs.d) {
            Some(x) => {
                if x.is_zero() {
                    None
                } else {
                    Some(ConstrainedDecimal { d: x, c: PhantomData })
                }
            },
            None => None,
        }
    }
}

/// The smallest of the constrained numbers in `ds` (the first of equals).
pub fn constrained_min<C: DecConstraint>(ds: &[ConstrainedDecimal<C>]) -> (r: ConstrainedDecimal<C>)
    requires
        ds@.len() > 0,
    ensures
        exists|k: int| is_min_index(ds@.map_values(|c: ConstrainedDecimal<C>| c@), k) && r@ == ds@[k]@,
{
    let ghost vals = ds@.map_values(|c: ConstrainedDecimal<C>| c@);
    let mut m = ds[0];
    let ghost mut k: int = 0;
    let mut i: usize = 1;
    while i < ds.len()
        invariant
            vals == ds@.map_values(|c: ConstrainedDecimal<C>| c@),
            1 <= i <= ds@.len(),
            0 <= k < i,
            m@ == vals[k],
            forall|j: int| 0 <= j < i ==> !value_lt(#[trigger] vals[j], vals[k]),
            forall|j: int| 0 <= j < k ==> value_lt(vals[k], #[trigger] vals[j]),
        decreases ds@.len() - i,
    {
        let cand = ds[i];
        if cand.get().lt(&m.get()) {
            proof {
                lemma_value_lt_transitive_all(vals, k, i as int);
            }
            m = cand;
            proof {
                k = i as int;
            }
        }
        i += 1;
    }
    assert(is_min_index(vals, k));
    m
}

} // verus!
