use moneta::codec::{i64_to_string, parse_i64, MoneyError};
use moneta::currency::{Gbp, Mga, Myr, Sgd, Usd};
use moneta::dense::DenseMoney;
use moneta::discrete::{pow10_exponent, DiscreteMoney};

#[test]
fn dense() {
    let a = Myr::new(20, 1); // RM 20
    let b = Myr::new(40, 1); // RM 40

    assert_eq!(a.checked_add(b).unwrap(), Myr::new(60, 1)); // RM 60
}

#[test]
fn discrete() {
    let a = DiscreteMoney::<Usd>::new(50).to_dense(); // $0.50

    assert_eq!(a, Usd::new(1, 2));
}

#[test]
fn round_retains_value() {
    let amount = Gbp::new(1243, 1000); // £1.243
    let (approx, rest) = amount.round();

    assert_eq!(approx, DiscreteMoney::<Gbp>::new(124)); // £1.24
    assert_eq!(rest, Gbp::new(3, 1000)); // 0.003p
}

#[test]
fn construction_reduces_to_lowest_terms() {
    let m = Usd::new(2, 4);
    assert_eq!(m.numer(), 1);
    assert_eq!(m.denom(), 2);
    assert_eq!(m, Usd::new(1, 2));

    let m = Usd::new(6, -4);
    assert_eq!(m.numer(), -3);
    assert_eq!(m.denom(), 2);

    let m = Usd::new(0, -7);
    assert_eq!(m.numer(), 0);
    assert_eq!(m.denom(), 1);
}

#[test]
fn try_new_rejects_zero_denominator() {
    assert!(DenseMoney::<Usd>::try_new(1, 0).is_none());
    assert!(DenseMoney::<Usd>::try_new(3, 4).is_some());
}

#[test]
fn checked_add_overflows_to_none() {
    let a = Myr::new(i64::MAX, 1);
    let b = Myr::new(1, 1);
    assert!(a.checked_add(b).is_none());

    let c = Myr::new(20, 1);
    let d = Myr::new(40, 1);
    assert_eq!(c.checked_add(d).unwrap(), Myr::new(60, 1));
}

#[test]
fn checked_sub_overflows_to_none() {
    let a = Myr::new(i64::MAX, 1);
    let b = Myr::new(-1, 1);
    assert!(a.checked_sub(b).is_none());

    let c = Myr::new(60, 1);
    let d = Myr::new(40, 1);
    assert_eq!(c.checked_sub(d).unwrap(), Myr::new(20, 1));
}

#[test]
fn ordering_is_by_rational_value() {
    assert!(Usd::new(1, 2) < Usd::new(2, 3));
    assert!(Usd::new(-1, 2) < Usd::new(1, 3));
    assert!(Usd::new(2, 4) <= Usd::new(1, 2));
    assert!(Usd::new(3, 2) > Usd::new(4, 3));
}

#[test]
fn round_exact_succeeds_only_without_remainder() {
    // 5/4 of a scale-100 currency is exactly 125 minor units
    let exact = Usd::new(5, 4);
    assert_eq!(exact.round_exact().unwrap(), DiscreteMoney::<Usd>::new(125));

    // 1243/1000 of a scale-100 currency leaves 3/1000 over
    let inexact = Gbp::new(1243, 1000);
    let err = inexact.round_exact().unwrap_err();
    assert_eq!(err, Gbp::new(3, 1000));
}

#[test]
fn round_ties_away_from_zero() {
    // 1/200 scaled by 100 is 0.5 minor units: rounds to 1, not 0
    let (d, r) = Usd::new(1, 200).round();
    assert_eq!(d, DiscreteMoney::<Usd>::new(1));
    assert_eq!(r, Usd::new(-1, 200));
}

#[test]
fn round_decomposition_reconstructs_amount() {
    let amount = Usd::new(7, 3);
    let (d, r) = amount.round();
    let back = d.to_dense().checked_add(r).unwrap();
    assert_eq!(back, amount);

    let amount = Mga::new(13, 7);
    let (d, r) = amount.round();
    assert_eq!(d, DiscreteMoney::<Mga>::new(9));
    assert_eq!(r, Mga::new(2, 35));
    let back = d.to_dense().checked_add(r).unwrap();
    assert_eq!(back, amount);
}

#[test]
fn integer_strings_round_trip() {
    assert_eq!(i64_to_string(0), "0");
    assert_eq!(i64_to_string(-123), "-123");
    assert_eq!(i64_to_string(i64::MAX), "9223372036854775807");
    assert_eq!(i64_to_string(i64::MIN), "-9223372036854775808");

    assert_eq!(parse_i64("0"), Some(0));
    assert_eq!(parse_i64("-123"), Some(-123));
    assert_eq!(parse_i64("9223372036854775807"), Some(i64::MAX));
    assert_eq!(parse_i64("-9223372036854775808"), Some(i64::MIN));
    assert_eq!(parse_i64("9223372036854775808"), None);
    assert_eq!(parse_i64("-9223372036854775809"), None);
    assert_eq!(parse_i64(""), None);
    assert_eq!(parse_i64("-"), None);
    assert_eq!(parse_i64("12a"), None);
    assert_eq!(parse_i64("--1"), None);
    assert_eq!(parse_i64("007"), Some(7));
}

#[test]
fn wire_round_trips_per_currency() {
    let g = Gbp::new(-7, 3);
    assert_eq!(DenseMoney::<Gbp>::from_wire(&g.to_wire()).unwrap(), g);
    let m = Mga::new(9, 5);
    assert_eq!(DenseMoney::<Mga>::from_wire(&m.to_wire()).unwrap(), m);
    let y = Myr::new(20, 1);
    assert_eq!(DenseMoney::<Myr>::from_wire(&y.to_wire()).unwrap(), y);
    let s = Sgd::new(1243, 1000);
    assert_eq!(DenseMoney::<Sgd>::from_wire(&s.to_wire()).unwrap(), s);
    let u = Usd::new(1, 2);
    assert_eq!(DenseMoney::<Usd>::from_wire(&u.to_wire()).unwrap(), u);
}

#[test]
fn document_round_trips_per_currency() {
    let g = Gbp::new(-7, 3);
    let (n, d, c) = g.to_document_fields();
    assert_eq!(DenseMoney::<Gbp>::from_document_fields(&n, &d, &c).unwrap(), g);
    let m = Mga::new(9, 5);
    let (n, d, c) = m.to_document_fields();
    assert_eq!(DenseMoney::<Mga>::from_document_fields(&n, &d, &c).unwrap(), m);
    let y = Myr::new(20, 1);
    let (n, d, c) = y.to_document_fields();
    assert_eq!(DenseMoney::<Myr>::from_document_fields(&n, &d, &c).unwrap(), y);
    let s = Sgd::new(1243, 1000);
    let (n, d, c) = s.to_document_fields();
    assert_eq!(DenseMoney::<Sgd>::from_document_fields(&n, &d, &c).unwrap(), s);
    let u = Usd::new(1, 2);
    let (n, d, c) = u.to_document_fields();
    assert_eq!(DenseMoney::<Usd>::from_document_fields(&n, &d, &c).unwrap(), u);
}

#[test]
fn wire_encoding_shape() {
    let m = Usd::new(-3, 4);
    let parts = m.to_wire();
    assert_eq!(parts.len(), 3);
    assert_eq!(parts[0], "-3");
    assert_eq!(parts[1], "4");
    assert_eq!(parts[2], "USD");
}

#[test]
fn currency_mismatch_names_both_symbols() {
    let parts = vec!["1".to_string(), "2".to_string(), "EUR".to_string()];
    match DenseMoney::<Usd>::from_wire(&parts) {
        Err(MoneyError::CurrencyMismatch(expected, found)) => {
            assert_eq!(expected, "USD");
            assert_eq!(found, "EUR");
        },
        other => panic!("expected a currency mismatch, got {:?}", other),
    }

    match DenseMoney::<Usd>::from_document_fields("1", "2", "EUR") {
        Err(MoneyError::CurrencyMismatch(expected, found)) => {
            assert_eq!(expected, "USD");
            assert_eq!(found, "EUR");
        },
        other => panic!("expected a currency mismatch, got {:?}", other),
    }
}

#[test]
fn wire_decode_errors() {
    let short = vec!["1".to_string(), "2".to_string()];
    assert!(matches!(
        DenseMoney::<Usd>::from_wire(&short),
        Err(MoneyError::MissingField)
    ));

    let bad = vec!["one".to_string(), "2".to_string(), "USD".to_string()];
    assert!(matches!(
        DenseMoney::<Usd>::from_wire(&bad),
        Err(MoneyError::MalformedNumber)
    ));

    let zero = vec!["1".to_string(), "0".to_string(), "USD".to_string()];
    assert!(matches!(
        DenseMoney::<Usd>::from_wire(&zero),
        Err(MoneyError::ZeroDenominator)
    ));
}

#[test]
fn document_decode_errors() {
    assert!(matches!(
        DenseMoney::<Usd>::from_document_fields("x", "2", "USD"),
        Err(MoneyError::MalformedNumber)
    ));
    assert!(matches!(
        DenseMoney::<Usd>::from_document_fields("1", "0", "USD"),
        Err(MoneyError::ZeroDenominator)
    ));
    // the minus-2^63 corner: negating the denominator cannot be represented
    assert!(matches!(
        DenseMoney::<Usd>::from_document_fields("1", "-9223372036854775808", "USD"),
        Err(MoneyError::Unrepresentable)
    ));
}

#[test]
fn pow10_exponent_is_exact() {
    assert_eq!(pow10_exponent(1), Some(0));
    assert_eq!(pow10_exponent(10), Some(1));
    assert_eq!(pow10_exponent(100), Some(2));
    assert_eq!(pow10_exponent(1000), Some(3));
    assert_eq!(pow10_exponent(1000000000), Some(9));
    assert_eq!(pow10_exponent(0), None);
    assert_eq!(pow10_exponent(5), None);
    assert_eq!(pow10_exponent(50), None);
    assert_eq!(pow10_exponent(4), None);
}

#[test]
fn decimal_bridges_use_exact_exponent() {
    let d = DiscreteMoney::<Usd>::new(50).to_fixed_point_decimal_a().unwrap();
    assert_eq!(d, rust_decimal::Decimal::new(50, 2));

    let b = DiscreteMoney::<Usd>::new(50).to_fixed_point_decimal_b().unwrap();
    let expected = bigdecimal::BigDecimal::new(bigdecimal::num_bigint::BigInt::from(50u32), 2);
    assert_eq!(b, expected);
}

#[test]
fn decimal_bridges_reject_non_power_of_ten_scale() {
    assert!(matches!(
        DiscreteMoney::<Mga>::new(5).to_fixed_point_decimal_a(),
        Err(MoneyError::UnsupportedScale)
    ));
    assert!(matches!(
        DiscreteMoney::<Mga>::new(5).to_fixed_point_decimal_b(),
        Err(MoneyError::UnsupportedScale)
    ));
}
