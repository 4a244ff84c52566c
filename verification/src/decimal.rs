//! Exact decimal numbers as the ledger reports them, held as a signed
//! mantissa and a scale; parsing, display, rounding and addition are
//! `rust_decimal`'s.
use vstd::prelude::*;
use crate::numfmt::{nat_digits, zero_pad};

verus! {

/// `10^n`.
pub open spec fn pow10(n: nat) -> int
    decreases n,
{
    if n == 0 {
        1
    } else {
        10 * pow10((n - 1) as nat)
    }
}

/// The largest mantissa magnitude that `rust_decimal` represents (`2^96 - 1`).
pub open spec fn max_mantissa() -> int {
    0xFFFF_FFFF_FFFF_FFFF_FFFF_FFFFint
}

/// A decimal number `mantissa / 10^scale`.
#[derive(Debug, Clone, Copy)]
pub struct Decimal {
    pub mantissa: i128,
    pub scale: u32,
}

impl Decimal {
    /// Within `rust_decimal`'s range: a 96-bit mantissa and a scale of at most 28.
    pub open spec fn wf(self) -> bool {
        &&& self.scale <= 28
        &&& -max_mantissa() <= self.mantissa <= max_mantissa()
    }

    /// Zero, with scale zero.
    pub fn zero() -> (z: Decimal)
        ensures
            z.mantissa == 0,
            z.scale == 0,
            z.wf(),
    {
        Decimal { mantissa: 0, scale: 0 }
    }
}

/// `a < b` as numbers.
pub open spec fn dec_lt(a: Decimal, b: Decimal) -> bool {
    a.mantissa * pow10(b.scale as nat) < b.mantissa * pow10(a.scale as nat)
}

/// `a == b` as numbers (`1.0` equals `1.00`).
pub open spec fn dec_eq(a: Decimal, b: Decimal) -> bool {
    a.mantissa * pow10(b.scale as nat) == b.mantissa * pow10(a.scale as nat)
}

/// What `str::parse::<rust_decimal::Decimal>` makes of a text, as
/// `(mantissa, scale)`, or `None` where it refuses it.
pub uninterp spec fn decimal_from_str(s: Seq<char>) -> Option<(int, int)>;

/// `rust_decimal::Decimal::from_str`. The result is tied to the name
/// [`decimal_from_str`]; the grammar it accepts (signs, underscores,
/// rounding of long fractions) is not restated. Every value it returns is
/// built by `Decimal::from_parts`, so it is within range.
#[verifier::external_body]
pub(crate) fn parse_decimal(s: &str) -> (r: Option<Decimal>)
    ensures
        match r {
            Some(d) => decimal_from_str(s@) == Some((d.mantissa as int, d.scale as int)) && d.wf(),
            None => decimal_from_str(s@) is None,
        },
{
    match s.parse::<rust_decimal::Decimal>() {
        Ok(d) => Some(Decimal { mantissa: d.mantissa(), scale: d.scale() }),
        Err(_) => None,
    }
}

/// `|m|`.
pub open spec fn magnitude(m: int) -> nat {
    if m < 0 { (-m) as nat } else { m as nat }
}

/// What `Display` for `rust_decimal::Decimal` writes for
/// `mantissa / 10^scale`, with `p` places where a precision `p` is given and
/// `scale` places otherwise: the digits of the magnitude, padded with zeros
/// to at least `scale` digits, split into a whole part (`0` when empty) and
/// the first `p` fraction digits (zeros past the end; no point when `p` is
/// zero), a minus sign first for a negative number. A precision below the
/// scale cuts the fraction, without rounding.
pub open spec fn decimal_display(mantissa: int, scale: int, precision: Option<int>) -> Seq<char> {
    let ds = if mantissa == 0 { Seq::<char>::empty() } else { nat_digits(magnitude(mantissa)) };
    let d = zero_pad(ds, scale);
    let whole = d.len() - scale;
    let p = match precision {
        Some(p) => p,
        None => scale,
    };
    let frac = (d.skip(whole) + Seq::new(p as nat, |i: int| '0')).take(p);
    (if mantissa < 0 { "-"@ } else { Seq::empty() }) + (if whole == 0 { "0"@ } else { d.take(whole) }) + if p > 0 {
        "."@ + frac
    } else {
        Seq::empty()
    }
}

/// Formats a decimal with `rust_decimal`'s `Display` (`{}`, or `{:.p}` when
/// a precision is given): the text of [`decimal_display`]. `Display` builds
/// the text without its sign in a buffer of 32 characters and panics past
/// it; with no precision, or one of at most two places, the at most 29
/// digits of the number, the point and the places always fit.
#[verifier::external_body]
pub(crate) fn decimal_to_string(d: Decimal, precision: Option<usize>) -> (s: String)
    requires
        d.wf(),
        precision matches Some(p) ==> p <= 2,
    ensures
        s@ == decimal_display(d.mantissa as int, d.scale as int, match precision {
            Some(p) => Some(p as int),
            None => None,
        }),
{
    let x = rust_decimal::Decimal::from_i128_with_scale(d.mantissa, d.scale);
    match precision {
        Some(p) => format!("{:.*}", p, x),
        None => format!("{}", x),
    }
}

/// `m / 10^k` rounded half to even (`m` not negative).
pub open spec fn round_half_even(m: int, k: nat) -> int {
    let q = m / pow10(k);
    let r = m % pow10(k);
    if k == 0 {
        m
    } else if r > 5 * pow10((k - 1) as nat) || (r == 5 * pow10((k - 1) as nat) && q % 2 == 1) {
        q + 1
    } else {
        q
    }
}

/// What `rust_decimal::Decimal::round_dp` gives, as `(mantissa, scale)`:
/// the number itself where it has at most `dp` places, else its magnitude
/// rounded half to even at `dp` places, with its sign (zero has none).
pub open spec fn decimal_round_dp(mantissa: int, scale: int, dp: int) -> (int, int) {
    if scale <= dp {
        (mantissa, scale)
    } else {
        let mag = round_half_even(magnitude(mantissa) as int, (scale - dp) as nat);
        (if mantissa < 0 { -mag } else { mag }, dp)
    }
}

/// `Decimal::round_dp` (banker's rounding to `dp` places): the result of
/// [`decimal_round_dp`]. It comes from `from_parts` (or is the input), so it
/// is within range for `dp <= 28`.
#[verifier::external_body]
pub(crate) fn round_dp(d: Decimal, dp: u32) -> (r: Decimal)
    requires
        d.wf(),
        dp <= 28,
    ensures
        (r.mantissa as int, r.scale as int) == decimal_round_dp(d.mantissa as int, d.scale as int, dp as int),
        r.wf(),
{
    let x = rust_decimal::Decimal::from_i128_with_scale(d.mantissa, d.scale).round_dp(dp);
    Decimal { mantissa: x.mantissa(), scale: x.scale() }
}

/// `r` is `d` written without trailing zeros in its fraction: the same
/// number, with no zero last digit after the point (zero has scale zero).
pub open spec fn normalized_of(r: Decimal, d: Decimal) -> bool {
    &&& r.wf()
    &&& dec_eq(r, d)
    &&& (r.scale == 0 || r.mantissa % 10 != 0)
    &&& (r.mantissa == 0 ==> r.scale == 0)
}

/// `Decimal::normalize`: the same number with trailing zeros of the
/// fraction removed (and no negative zero).
#[verifier::external_body]
pub(crate) fn normalize(d: Decimal) -> (r: Decimal)
    requires
        d.wf(),
    ensures
        normalized_of(r, d),
{
    let x = rust_decimal::Decimal::from_i128_with_scale(d.mantissa, d.scale).normalize();
    Decimal { mantissa: x.mantissa(), scale: x.scale() }
}

/// What `Decimal::checked_add` gives, as `(mantissa, scale)`, or `None`
/// where the sum overflows (where `+` panics).
pub uninterp spec fn decimal_checked_add(m1: int, s1: int, m2: int, s2: int) -> Option<(int, int)>;

/// The sum of two decimals, as `Decimal::checked_add` gives it.
pub open spec fn dec_add(a: Decimal, b: Decimal) -> Option<Decimal> {
    match decimal_checked_add(a.mantissa as int, a.scale as int, b.mantissa as int, b.scale as int) {
        Some((m, s)) => Some(Decimal { mantissa: m as i128, scale: s as u32 }),
        None => None,
    }
}

/// `Decimal::checked_add`. The result is tied to the name
/// [`decimal_checked_add`] (rounding on overflow of the mantissa is not
/// restated); what it returns comes from `from_parts`, so it is within range.
#[verifier::external_body]
pub(crate) fn checked_add(a: Decimal, b: Decimal) -> (r: Option<Decimal>)
    requires
        a.wf(),
        b.wf(),
    ensures
        r == dec_add(a, b),
        r matches Some(x) ==> x.wf() && decimal_checked_add(a.mantissa as int, a.scale as int, b.mantissa as int, b.scale as int)
            == Some((x.mantissa as int, x.scale as int)),
{
    match rust_decimal::Decimal::from_i128_with_scale(a.mantissa, a.scale).checked_add(rust_decimal::Decimal::from_i128_with_scale(b.mantissa, b.scale)) {
        Some(x) => Some(Decimal { mantissa: x.mantissa(), scale: x.scale() }),
        None => None,
    }
}

/// `<` on `rust_decimal::Decimal`, which orders by numeric value.
#[verifier::external_body]
pub(crate) fn less_than(a: Decimal, b: Decimal) -> (r: bool)
    requires
        a.wf(),
        b.wf(),
    ensures
        r == dec_lt(a, b),
{
    rust_decimal::Decimal::from_i128_with_scale(a.mantissa, a.scale) < rust_decimal::Decimal::from_i128_with_scale(b.mantissa, b.scale)
}

/// `==` on `rust_decimal::Decimal`, which compares numeric values.
#[verifier::external_body]
pub(crate) fn equals(a: Decimal, b: Decimal) -> (r: bool)
    requires
        a.wf(),
        b.wf(),
    ensures
        r == dec_eq(a, b),
{
    rust_decimal::Decimal::from_i128_with_scale(a.mantissa, a.scale) == rust_decimal::Decimal::from_i128_with_scale(b.mantissa, b.scale)
}

} // verus!
