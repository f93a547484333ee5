use market_analyzer::decimal::{rescale_checked, DecimalValue};
use market_analyzer::error::CoreError;
use market_analyzer::interval::Interval;
use market_analyzer::symbol::Symbol;

#[test]
fn accepts_valid_symbol() {
    assert!(Symbol::new("BTCUSDT").is_ok());
}

#[test]
fn rejects_lowercase() {
    assert!(Symbol::new("btcusdt").is_err());
}

#[test]
fn rejects_path_traversal() {
    assert!(Symbol::new("../../etc").is_err());
    assert!(Symbol::new("BTC/USDT").is_err());
}

#[test]
fn rejects_empty_and_too_long() {
    assert!(Symbol::new("").is_err());
    assert!(Symbol::new(&"A".repeat(33)).is_err());
}

#[test]
fn symbol_of_exactly_32_characters_is_accepted() {
    assert!(Symbol::new(&"A".repeat(32)).is_ok());
    assert!(Symbol::new("1000SHIBUSDT").is_ok());
}

#[test]
fn invalid_symbol_message_names_the_input() {
    match Symbol::new("btc") {
        Err(e) => assert_eq!(
            e.message(),
            "invalid symbol 'btc': must be 1-32 uppercase ASCII alphanumeric characters"
        ),
        Ok(_) => panic!("lowercase must be refused"),
    }
}

#[test]
fn interval_roundtrips_through_str() {
    for i in Interval::all() {
        assert_eq!(Interval::from_str(i.as_str()).unwrap(), i);
    }
}

#[test]
fn interval_rejects_unknown() {
    assert!(Interval::from_str("2m").is_err());
}

#[test]
fn interval_texts_and_durations() {
    assert_eq!(Interval::FourHours.as_str(), "4h");
    assert_eq!(Interval::FourHours.duration(), 14_400);
    assert_eq!(Interval::OneDay.duration(), 86_400);
    match Interval::from_str("1w") {
        Err(CoreError::InvalidInterval(s)) => assert_eq!(s, "1w"),
        _ => panic!("1w is not a supported interval"),
    }
}

#[test]
fn rescales_up_without_change_of_value() {
    let v = DecimalValue::from_str("1.5").unwrap();
    let r = rescale_checked(v, 8).unwrap();
    assert_eq!(r.to_string(), "1.50000000");
}

#[test]
fn rejects_precision_loss() {
    let v = DecimalValue::from_str("1.123456789").unwrap();
    assert!(rescale_checked(v, 8).is_err());
}

#[test]
fn decimal_parse_reads_mantissa_and_scale() {
    let v = DecimalValue::from_str("-12.340").unwrap();
    assert_eq!(v.mantissa, -12340);
    assert_eq!(v.scale, 3);
    assert!(DecimalValue::from_str("abc").is_err());
}

#[test]
fn precision_loss_error_names_both_scales() {
    let v = DecimalValue::from_str("1.123456789").unwrap();
    match rescale_checked(v, 8) {
        Err(e) => assert_eq!(
            e.message(),
            "decimal value '1.123456789' has scale 9 which exceeds target scale 8"
        ),
        Ok(_) => panic!("nine fractional digits do not fit eight"),
    }
}

#[test]
fn rescales_past_28_only_as_far_as_the_mantissa_allows() {
    let one = DecimalValue::from_str("1").unwrap();
    let r = rescale_checked(one, 40).unwrap();
    assert_eq!(r.scale, 28);
    assert_eq!(r.mantissa, 10_000_000_000_000_000_000_000_000_000);
}
