//! Decimal amounts with two fractional digits.

use std::str::FromStr;
use bigdecimal::{BigDecimal, ToPrimitive};
use vstd::prelude::*;
use crate::text::{
    optional_chars, replace_commas, trim, trim_end_matches, trimmed, with_points, without_suffix,
};

verus! {

/// A decimal number with exactly two fractional digits, held as its count
/// of hundredths: 3.50 is 350 hundredths.
#[derive(Debug, Clone, Copy, PartialEq, Eq, Hash, Structural)]
pub struct Decimal {
    pub hundredths: i64,
}

/// Ten to the power `n`.
pub open spec fn pow10(n: nat) -> int
    decreases n,
{
    if n == 0 {
        1
    } else {
        10 * pow10((n - 1) as nat)
    }
}

/// The size of a number, whatever its sign.
pub open spec fn magnitude(a: int) -> int {
    if a >= 0 {
        a
    } else {
        -a
    }
}

/// The hundredths of the number `digits` divided by ten to the power
/// `scale`, with what lies beyond the second fractional digit cut off.
pub open spec fn hundredths_of(digits: int, scale: int) -> int {
    if scale <= 2 {
        digits * pow10((2 - scale) as nat)
    } else if digits >= 0 {
        digits / pow10((scale - 2) as nat)
    } else {
        -((-digits) / pow10((scale - 2) as nat))
    }
}

/// What `BigDecimal::from_str` reads from a text: the digits of the number
/// as one integer, and its scale, the number being the digits divided by
/// ten to the power of the scale. `None` where the text is no decimal
/// number, or where its digits are beyond 128 bits.
pub uninterp spec fn parsed_decimal(text: Seq<char>) -> Option<(int, int)>;

/// Reads a decimal number from a text.
///
/// Trusted: `BigDecimal::from_str` of the bigdecimal crate, whose result is
/// handed back as its unscaled digits and its scale
/// (`into_bigint_and_scale`), the digits as an `i128` (`BigInt::to_i128`).
/// The contract gives what comes back a name and claims no more of it.
#[verifier::external_body]
pub(crate) fn parse_decimal(text: &str) -> (r: Option<(i128, i64)>)
    ensures
        match r {
            Some(parts) => parsed_decimal(text@) == Some((parts.0 as int, parts.1 as int)),
            None => parsed_decimal(text@) is None,
        },
{
    let (digits, scale) = BigDecimal::from_str(text).ok()?.into_bigint_and_scale();
    Some((digits.to_i128()?, scale))
}

/// Every power of ten is at least one.
pub proof fn lemma_pow10_positive(n: nat)
    ensures
        pow10(n) >= 1,
    decreases n,
{
    if n > 0 {
        lemma_pow10_positive((n - 1) as nat);
    }
}

/// Powers of ten multiply by adding their exponents.
pub proof fn lemma_pow10_adds(a: nat, b: nat)
    ensures
        pow10(a + b) == pow10(a) * pow10(b),
    decreases b,
{
    if b > 0 {
        lemma_pow10_adds(a, (b - 1) as nat);
        assert(10 * (pow10(a) * pow10((b - 1) as nat)) == pow10(a) * (10 * pow10((b - 1) as nat)))
            by (nonlinear_arith);
    }
}

/// Zero stays zero at every scale.
proof fn lemma_zero_digits(scale: int)
    ensures
        hundredths_of(0, scale) == 0,
{
    if scale > 2 {
        lemma_pow10_positive((scale - 2) as nat);
        vstd::arithmetic::div_mod::lemma_basic_div(0, pow10((scale - 2) as nat));
    }
}

/// A product has the size of its factors' product and the sign of the
/// first factor where the second is positive.
proof fn lemma_signed_product(a: int, p: int)
    requires
        p >= 1,
    ensures
        a >= 0 ==> a * p == magnitude(a) * p,
        a < 0 ==> a * p == -(magnitude(a) * p),
{
    assert(a < 0 ==> a * p == -((-a) * p)) by (nonlinear_arith);
}

/// The amount that stands in for a price that could not be read: 999.99.
pub const UNKNOWN_PRICE_HUNDREDTHS: i64 = 99_999;

impl Decimal {
    /// Makes the decimal that counts `hundredths` hundredths.
    pub fn from_hundredths(hundredths: i64) -> (d: Decimal)
        ensures
            d.hundredths == hundredths,
    {
        Decimal { hundredths }
    }

    /// What a number of `digits` at `scale` fractional digits comes to as
    /// a decimal: `None` where its hundredths are beyond the range held.
    pub open spec fn spec_from_parts(digits: int, scale: int) -> Option<Decimal> {
        let h = hundredths_of(digits, scale);
        if i64::MIN <= h <= i64::MAX {
            Some(Decimal { hundredths: h as i64 })
        } else {
            None
        }
    }

    /// What a text comes to as a decimal: the number it is read as, cut to
    /// two fractional digits.
    pub open spec fn spec_parse(text: Seq<char>) -> Option<Decimal> {
        match parsed_decimal(text) {
            Some(parts) => Decimal::spec_from_parts(parts.0, parts.1),
            None => None,
        }
    }

    /// Makes the decimal for the number `digits` divided by ten to the
    /// power `scale`. Digits beyond the second fractional one are cut off.
    /// `None` where the hundredths are beyond the range held.
    pub fn from_parts(digits: i128, scale: i64) -> (r: Option<Decimal>)
        ensures
            r == Decimal::spec_from_parts(digits as int, scale as int),
    {
        if digits == 0 {
            proof {
                lemma_zero_digits(scale as int);
            }
            return Some(Decimal { hundredths: 0 });
        }
        let negative = digits < 0;
        let mut m: u128 = if digits == i128::MIN {
            170141183460469231731687303715884105728
        } else if negative {
            (-digits) as u128
        } else {
            digits as u128
        };
        let limit: u128 = 9223372036854775808;
        let ghost size = magnitude(digits as int);
        if scale <= 2 {
            let mut k: i128 = 2 - scale as i128;
            let ghost total = k as nat;
            let ghost mut done: nat = 0;
            while k > 0
                invariant
                    0 <= k,
                    k + done == total,
                    total == 2 - scale,
                    size == magnitude(digits as int),
                    size >= 1,
                    m == size * pow10(done),
                    limit == 9223372036854775808,
                decreases k,
            {
                if m > limit {
                    proof {
                        lemma_pow10_adds(done, k as nat);
                        lemma_pow10_positive(k as nat);
                        lemma_pow10_positive(done);
                        lemma_pow10_positive(total);
                        assert(size * pow10(total) >= m) by (nonlinear_arith)
                            requires
                                m == size * pow10(done),
                                pow10(total) == pow10(done) * pow10(k as nat),
                                pow10(k as nat) >= 1,
                                pow10(done) >= 1,
                                size >= 1,
                        ;
                        lemma_signed_product(digits as int, pow10(total));
                    }
                    return None;
                }
                proof {
                    assert(m * 10 == size * pow10(done + 1)) by (nonlinear_arith)
                        requires
                            m == size * pow10(done),
                            pow10(done + 1) == 10 * pow10(done),
                    ;
                    done = done + 1;
                }
                m = m * 10;
                k -= 1;
            }
            proof {
                lemma_pow10_positive(total);
                lemma_signed_product(digits as int, pow10(total));
            }
        } else {
            let mut k: i64 = scale - 2;
            let ghost total = k as nat;
            let ghost mut done: nat = 0;
            while k > 0 && m > 0
                invariant
                    0 <= k,
                    k + done == total,
                    total == scale - 2,
                    size == magnitude(digits as int),
                    size >= 1,
                    m == size / pow10(done),
                decreases k,
            {
                proof {
                    lemma_pow10_positive(done);
                    vstd::arithmetic::div_mod::lemma_div_denominator(size, pow10(done), 10);
                    done = done + 1;
                }
                m = m / 10;
                k -= 1;
            }
            proof {
                if k > 0 {
                    lemma_pow10_positive(done);
                    lemma_pow10_positive(k as nat);
                    lemma_pow10_adds(done, k as nat);
                    vstd::arithmetic::div_mod::lemma_small_div_converse(size, pow10(done));
                    assert(pow10(done) <= pow10(total)) by (nonlinear_arith)
                        requires
                            pow10(total) == pow10(done) * pow10(k as nat),
                            pow10(k as nat) >= 1,
                            pow10(done) >= 1,
                    ;
                    vstd::arithmetic::div_mod::lemma_basic_div(size, pow10(total));
                }
            }
        }
        if negative {
            if m < limit {
                Some(Decimal { hundredths: -(m as i64) })
            } else if m == limit {
                Some(Decimal { hundredths: i64::MIN })
            } else {
                None
            }
        } else if m < limit {
            Some(Decimal { hundredths: m as i64 })
        } else {
            None
        }
    }

    /// Returns `price` where there is one, and 999.99 in place of a
    /// missing one.
    pub fn or_unknown(price: Option<Decimal>) -> (d: Decimal)
        ensures
            d == (match price {
                Some(p) => p,
                None => Decimal { hundredths: UNKNOWN_PRICE_HUNDREDTHS },
            }),
    {
        match price {
            Some(p) => p,
            None => Decimal { hundredths: UNKNOWN_PRICE_HUNDREDTHS },
        }
    }

    /// Reads a decimal number from a text and cuts it to two fractional
    /// digits. `None` where the text is no number or the number is beyond
    /// the range held.
    pub fn parse(text: &str) -> (r: Option<Decimal>)
        ensures
            r == Decimal::spec_parse(text@),
    {
        match parse_decimal(text) {
            Some(parts) => Decimal::from_parts(parts.0, parts.1),
            None => None,
        }
    }
}

/// The ending that marks an amount of euros.
pub open spec fn euro_suffix() -> Seq<char> {
    " \u{20ac}"@
}

/// The ending that marks an amount of grams.
pub open spec fn gram_suffix() -> Seq<char> {
    "g"@
}

/// The price that a price text stands for: the text is taken without its
/// euro ending and with points for commas. A missing or unreadable text
/// stands for the unknown price, 999.99.
pub open spec fn price_of_text(text: Option<Seq<char>>) -> Decimal {
    match text {
        Some(t) => match Decimal::spec_parse(with_points(without_suffix(t, euro_suffix()))) {
            Some(d) => d,
            None => Decimal { hundredths: UNKNOWN_PRICE_HUNDREDTHS },
        },
        None => Decimal { hundredths: UNKNOWN_PRICE_HUNDREDTHS },
    }
}

/// The amount that a text in grams stands for: the text is taken without
/// its gram ending, with points for commas and without white space around
/// it.
pub open spec fn grams_of_text(text: Seq<char>) -> Option<Decimal> {
    Decimal::spec_parse(trimmed(with_points(without_suffix(text, gram_suffix()))))
}

/// Reads a price as the menu page prints it, such as `3,50 €`. A
/// missing or unreadable price comes out as 999.99.
pub fn price_to_bigdecimal(s: Option<&str>) -> (d: Decimal)
    ensures
        d == price_of_text(optional_chars(s)),
{
    match s {
        Some(p) => {
            let plain = replace_commas(trim_end_matches(p, " \u{20ac}"));
            Decimal::or_unknown(Decimal::parse(plain.as_str()))
        },
        None => Decimal { hundredths: UNKNOWN_PRICE_HUNDREDTHS },
    }
}

/// Reads an amount of grams as the menu page prints it, such as `12,5g`.
pub fn grams_to_bigdecimal(s: &str) -> (d: Option<Decimal>)
    ensures
        d == grams_of_text(s@),
{
    let plain = replace_commas(trim_end_matches(s, "g"));
    Decimal::parse(trim(plain.as_str()))
}

/// The three prices of a dish.
#[derive(Debug, Clone, Copy, PartialEq, Eq, Hash, Structural)]
pub struct DishPrices {
    pub students: Decimal,
    pub employees: Decimal,
    pub guests: Decimal,
}

impl DishPrices {
    /// Puts three prices together.
    pub fn new(students: Decimal, employees: Decimal, guests: Decimal) -> (p: DishPrices)
        ensures
            p == (DishPrices { students, employees, guests }),
    {
        DishPrices { students, employees, guests }
    }
}

/// What is known of the nutritional value of a dish; each entry may be
/// missing.
#[derive(Debug, Clone, Copy, PartialEq, Eq, Hash)]
pub struct NutritionValues {
    pub kjoule: Option<i32>,
    pub protein: Option<Decimal>,
    pub carbs: Option<Decimal>,
    pub fat: Option<Decimal>,
}

impl NutritionValues {
    /// Nutrition values of which nothing is known.
    pub open spec fn spec_unknown() -> NutritionValues {
        NutritionValues { kjoule: None, protein: None, carbs: None, fat: None }
    }

    /// Makes nutrition values of which nothing is known.
    pub fn unknown() -> (n: NutritionValues)
        ensures
            n == NutritionValues::spec_unknown(),
    {
        NutritionValues { kjoule: None, protein: None, carbs: None, fat: None }
    }
}

impl Default for NutritionValues {
    fn default() -> (n: NutritionValues)
        ensures
            n == NutritionValues::spec_unknown(),
    {
        NutritionValues::unknown()
    }
}

} // verus!
