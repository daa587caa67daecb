use bonk_forwarder::amount::{to_base_units, AmountError};

#[test]
fn converts_one_million_at_scale_five() {
    assert_eq!(to_base_units("1000000.0", 5), Ok(100000000000));
    assert_eq!(to_base_units("1000000", 5), Ok(100000000000));
}

#[test]
fn converts_fractions_exactly() {
    assert_eq!(to_base_units("0.25", 5), Ok(25000));
    assert_eq!(to_base_units("12.34567", 5), Ok(1234567));
    assert_eq!(to_base_units("0", 5), Ok(0));
    assert_eq!(to_base_units("7", 0), Ok(7));
}

#[test]
fn rounds_half_away_from_zero() {
    assert_eq!(to_base_units("0.000005", 5), Ok(1));
    assert_eq!(to_base_units("0.0000049999", 5), Ok(0));
    assert_eq!(to_base_units("1.234565", 5), Ok(123457));
    assert_eq!(to_base_units("0.999995", 5), Ok(100000));
    assert_eq!(to_base_units("2.5", 0), Ok(3));
    assert_eq!(to_base_units("2.4", 0), Ok(2));
}

#[test]
fn rejects_negative_quantities() {
    assert_eq!(to_base_units("-1", 5), Err(AmountError::Negative));
    assert_eq!(to_base_units("-0.5", 5), Err(AmountError::Negative));
}

#[test]
fn rejects_non_finite_and_malformed_quantities() {
    for q in ["NaN", "inf", "-inf", "", ".5", "1.", "1e5", "1.2.3", "+1", " 1"] {
        let r = to_base_units(q, 5);
        assert!(r == Err(AmountError::Malformed) || r == Err(AmountError::Negative), "{}", q);
    }
    assert_eq!(to_base_units("NaN", 5), Err(AmountError::Malformed));
    assert_eq!(to_base_units("inf", 5), Err(AmountError::Malformed));
}

#[test]
fn largest_amount_fits_and_one_more_does_not() {
    assert_eq!(to_base_units("184467440737095.51615", 5), Ok(u64::MAX));
    assert_eq!(to_base_units("184467440737095.51616", 5), Err(AmountError::TooLarge));
    assert_eq!(to_base_units("18446744073709551615", 0), Ok(u64::MAX));
    assert_eq!(to_base_units("18446744073709551616", 0), Err(AmountError::TooLarge));
    assert_eq!(to_base_units("184467440737095.516155", 5), Err(AmountError::TooLarge));
    assert_eq!(to_base_units("99999999999999999999999999", 5), Err(AmountError::TooLarge));
}
