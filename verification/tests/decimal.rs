use mensa_upb::decimal::{
    grams_to_bigdecimal, price_to_bigdecimal, Decimal, DishPrices, NutritionValues,
    UNKNOWN_PRICE_HUNDREDTHS,
};

fn hundredths(h: i64) -> Option<Decimal> {
    Some(Decimal::from_hundredths(h))
}

#[test]
fn parts_come_to_hundredths() {
    assert_eq!(Decimal::from_parts(350, 2), hundredths(350));
    assert_eq!(Decimal::from_parts(35, 1), hundredths(350));
    assert_eq!(Decimal::from_parts(3, 0), hundredths(300));
    assert_eq!(Decimal::from_parts(3, -2), hundredths(30_000));
    assert_eq!(Decimal::from_parts(3509, 3), hundredths(350));
    assert_eq!(Decimal::from_parts(-3509, 3), hundredths(-350));
    assert_eq!(Decimal::from_parts(-35, 1), hundredths(-350));
    assert_eq!(Decimal::from_parts(999, 5), hundredths(0));
    assert_eq!(Decimal::from_parts(-999, 5), hundredths(0));
    assert_eq!(Decimal::from_parts(0, i64::MIN), hundredths(0));
    assert_eq!(Decimal::from_parts(0, i64::MAX), hundredths(0));
    assert_eq!(Decimal::from_parts(1, i64::MAX), hundredths(0));
    assert_eq!(Decimal::from_parts(i128::MAX, i64::MAX), hundredths(0));
    assert_eq!(Decimal::from_parts(i128::MIN, i64::MAX), hundredths(0));
}

#[test]
fn parts_beyond_the_range_are_refused() {
    assert_eq!(Decimal::from_parts(1, i64::MIN), None);
    assert_eq!(Decimal::from_parts(-1, -17), None);
    assert_eq!(Decimal::from_parts(9, -16), hundredths(9_000_000_000_000_000_000));
    assert_eq!(Decimal::from_parts(i64::MAX as i128, 2), hundredths(i64::MAX));
    assert_eq!(Decimal::from_parts(i64::MAX as i128 + 1, 2), None);
    assert_eq!(Decimal::from_parts(i64::MIN as i128, 2), hundredths(i64::MIN));
    assert_eq!(Decimal::from_parts(i64::MIN as i128 - 1, 2), None);
    assert_eq!(Decimal::from_parts(i64::MIN as i128 * 10, 3), hundredths(i64::MIN));
    assert_eq!(Decimal::from_parts(i64::MIN as i128 * 10 - 10, 3), None);
    assert_eq!(Decimal::from_parts(i128::MAX, 2), None);
    assert_eq!(Decimal::from_parts(i128::MIN, 2), None);
    assert_eq!(Decimal::from_parts(i128::MAX, 22), hundredths(1_701_411_834_604_692_317));
    assert_eq!(Decimal::from_parts(i128::MIN, 22), hundredths(-1_701_411_834_604_692_317));
    assert_eq!(Decimal::from_parts(i128::MAX, 21), None);
}

#[test]
fn decimal_texts_are_read() {
    assert_eq!(Decimal::parse("3.50"), hundredths(350));
    assert_eq!(Decimal::parse("3.5"), hundredths(350));
    assert_eq!(Decimal::parse("3"), hundredths(300));
    assert_eq!(Decimal::parse("-0.25"), hundredths(-25));
    assert_eq!(Decimal::parse("12.349"), hundredths(1234));
    assert_eq!(Decimal::parse("1e2"), hundredths(10_000));
    assert_eq!(Decimal::parse("0"), hundredths(0));
    assert_eq!(Decimal::parse(""), None);
    assert_eq!(Decimal::parse("3,50"), None);
    assert_eq!(Decimal::parse("abc"), None);
    assert_eq!(Decimal::parse(" 3.50"), None);
    assert_eq!(Decimal::parse("1e30"), None);
    assert_eq!(Decimal::parse("1e-999999999999"), hundredths(0));
}

#[test]
fn prices_are_read_as_the_page_prints_them() {
    assert_eq!(price_to_bigdecimal(Some("3,50 \u{20ac}")), Decimal::from_hundredths(350));
    assert_eq!(price_to_bigdecimal(Some("3,50 \u{20ac} \u{20ac}")), Decimal::from_hundredths(350));
    assert_eq!(price_to_bigdecimal(Some("12,00")), Decimal::from_hundredths(1200));
    assert_eq!(price_to_bigdecimal(Some("0.80 \u{20ac}")), Decimal::from_hundredths(80));
    assert_eq!(price_to_bigdecimal(Some("7 \u{20ac}")), Decimal::from_hundredths(700));
}

#[test]
fn unreadable_prices_come_out_as_the_unknown_price() {
    let unknown = Decimal::from_hundredths(99_999);
    assert_eq!(UNKNOWN_PRICE_HUNDREDTHS, 99_999);
    assert_eq!(price_to_bigdecimal(None), unknown);
    assert_eq!(price_to_bigdecimal(Some("")), unknown);
    assert_eq!(price_to_bigdecimal(Some("gratis")), unknown);
    assert_eq!(price_to_bigdecimal(Some("3,50\u{20ac}")), unknown);
    assert_eq!(price_to_bigdecimal(Some("3,50 \u{20ac} ")), unknown);
    assert_eq!(price_to_bigdecimal(Some("3,5,0 \u{20ac}")), unknown);
    assert_eq!(Decimal::or_unknown(None), unknown);
    assert_eq!(Decimal::or_unknown(hundredths(1)), Decimal::from_hundredths(1));
}

#[test]
fn grams_are_read_as_the_page_prints_them() {
    assert_eq!(grams_to_bigdecimal("12,5g"), hundredths(1250));
    assert_eq!(grams_to_bigdecimal(" 12,5 g"), hundredths(1250));
    assert_eq!(grams_to_bigdecimal("0,3 ggg"), hundredths(30));
    assert_eq!(grams_to_bigdecimal("7"), hundredths(700));
    assert_eq!(grams_to_bigdecimal("g"), None);
    assert_eq!(grams_to_bigdecimal(""), None);
    assert_eq!(grams_to_bigdecimal("12,5 mg"), None);
}

#[test]
fn plain_values_are_held_as_given() {
    let p = DishPrices::new(
        Decimal::from_hundredths(1),
        Decimal::from_hundredths(2),
        Decimal::from_hundredths(3),
    );
    assert_eq!(p.students.hundredths, 1);
    assert_eq!(p.employees.hundredths, 2);
    assert_eq!(p.guests.hundredths, 3);
    let n = NutritionValues::default();
    assert_eq!(n, NutritionValues::unknown());
    assert_eq!(n, NutritionValues { kjoule: None, protein: None, carbs: None, fat: None });
}
