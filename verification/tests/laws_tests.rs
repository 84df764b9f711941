use perfdata::{Dec, MonitoringStatus, Num, NumError, Perfdata, PerfdataParseError, ThresholdRange};

#[test]
fn test_roundtrip_every_field() {
    // A record using every field survives format-then-parse unchanged.
    let record = Perfdata::percentage("usage", Dec::new(false, 755, 1).unwrap())
        .with_warn(ThresholdRange::from_str("@10:20").unwrap())
        .with_crit(ThresholdRange::from_str("~:90").unwrap())
        .with_min(Dec::from_int(0))
        .with_max(Dec::from_int(100));
    let text = record.render();
    assert_eq!(Perfdata::parse(text.as_str()).unwrap(), record);
}

#[test]
fn test_roundtrip_infinite_endpoints() {
    // Ranges with infinite endpoints keep them through the text form.
    let record = Perfdata::unit("x", Dec::from_int(3))
        .with_warn(ThresholdRange::below(Dec::from_int(10)))
        .with_crit(ThresholdRange::outside(Num::NegInf, Num::PosInf));
    let text = record.render();
    assert_eq!(Perfdata::parse(text.as_str()).unwrap(), record);
}

#[test]
fn test_outside_inside_complement_values() {
    let a = Num::Fin(Dec::from_int(10));
    let b = Num::Fin(Dec::from_int(20));
    let outside = ThresholdRange::outside(a, b);
    let inside = ThresholdRange::inside(a, b);
    for v in [-5i64, 10, 15, 20, 25] {
        let d = Dec::from_int(v);
        assert_eq!(outside.is_alert(d), !inside.is_alert(d));
    }
}

#[test]
fn test_outside_swapped_endpoints_equal() {
    let a = Num::Fin(Dec::from_int(20));
    let b = Num::Fin(Dec::from_int(10));
    assert_eq!(
        ThresholdRange::outside(a, b),
        ThresholdRange::outside(b, a)
    );
}

#[test]
fn test_plain_token_parses_and_formats() {
    let got = Perfdata::parse("label=42").unwrap();
    assert_eq!(got, Perfdata::unit("label", Dec::from_int(42)));
    assert_eq!(got.value(), Some(Dec::from_int(42)));
    assert_eq!(got.render(), "'label'=42;");
}

#[test]
fn test_full_token_fields() {
    let got = Perfdata::parse("label2=10;20;30;0;100;").unwrap();
    let expected = Perfdata::unit("label2", Dec::from_int(10))
        .with_warn(ThresholdRange::above_pos(Dec::from_int(20)))
        .with_crit(ThresholdRange::above_pos(Dec::from_int(30)))
        .with_min(Dec::from_int(0))
        .with_max(Dec::from_int(100));
    assert_eq!(got, expected);
}

#[test]
fn test_undetermined_keeps_thresholds() {
    let got = Perfdata::parse("test=U;10;20;0;100").unwrap();
    assert_eq!(got.value(), None);
    assert!(!got.is_warn());
    assert!(!got.is_crit());
    assert_eq!(got.status(), MonitoringStatus::OK);
    let expected = Perfdata::undetermined("test")
        .with_warn(ThresholdRange::above_pos(Dec::from_int(10)))
        .with_crit(ThresholdRange::above_pos(Dec::from_int(20)))
        .with_min(Dec::from_int(0))
        .with_max(Dec::from_int(100));
    assert_eq!(got, expected);
}

#[test]
fn test_quoted_label_roundtrip() {
    let record = Perfdata::unit("with space", Dec::from_int(42));
    let text = record.render();
    assert_eq!(text, "'with space'=42;");
    assert_eq!(Perfdata::parse(text.as_str()).unwrap(), record);

    assert!(matches!(
        Perfdata::parse("label 123"),
        Err(PerfdataParseError::MissingEqualsSign)
    ));
    assert_eq!(
        Perfdata::parse("label=1x"),
        Err(PerfdataParseError::UnknownUnit(String::from("x")))
    );
    assert!(matches!(
        Perfdata::parse("''=1"),
        Err(PerfdataParseError::MissingLabel)
    ));
}

#[test]
fn test_threshold_from_str_alerts() {
    assert!(ThresholdRange::from_str("@10:20")
        .unwrap()
        .is_alert(Dec::from_int(15)));
    assert!(!ThresholdRange::from_str("10:20")
        .unwrap()
        .is_alert(Dec::from_int(15)));
    assert!(ThresholdRange::from_str("~:10")
        .unwrap()
        .is_alert(Dec::from_int(11)));
}

#[test]
fn test_list_three_ordered_records() {
    let results = Perfdata::parse_from_list("a=1 b=2 'c d'=3");
    assert_eq!(results.len(), 3);
    assert_eq!(results[0].as_ref().unwrap().label(), "a");
    assert_eq!(results[1].as_ref().unwrap().label(), "b");
    assert_eq!(results[2].as_ref().unwrap().label(), "c d");
}

#[test]
fn test_list_keeps_bad_tokens_isolated() {
    let results = Perfdata::parse_from_list("a=1 b=nan c=3");
    assert_eq!(results.len(), 3);
    assert!(results[0].is_ok());
    assert!(matches!(
        results[1],
        Err(PerfdataParseError::ParseValueError(_))
    ));
    assert!(results[2].is_ok());
}

#[test]
fn test_list_trailing_remainder() {
    // Trailing text without an equals sign is the final token and
    // reports the missing sign; it does not vanish.
    let alone = Perfdata::parse_from_list("label 123");
    assert_eq!(alone.len(), 1);
    assert_eq!(alone[0], Err(PerfdataParseError::MissingEqualsSign));

    let behind = Perfdata::parse_from_list("a=1 junk");
    assert_eq!(behind.len(), 2);
    assert!(behind[0].is_ok());
    assert_eq!(behind[1], Err(PerfdataParseError::MissingEqualsSign));

    // Empty and all-space inputs stay empty.
    assert_eq!(Perfdata::parse_from_list("").len(), 0);
    assert_eq!(Perfdata::parse_from_list("   ").len(), 0);
}

#[test]
fn test_threshold_empty_errors() {
    assert_eq!(
        ThresholdRange::from_str(""),
        Err(PerfdataParseError::ThresholdEmpty)
    );
    assert_eq!(
        ThresholdRange::from_str("@"),
        Err(PerfdataParseError::ThresholdEmpty)
    );
}

#[test]
fn test_numeric_error_kinds() {
    assert_eq!(
        Perfdata::parse("a=1.2.3"),
        Err(PerfdataParseError::ParseValueError(NumError::Invalid))
    );
    assert_eq!(
        Perfdata::parse("a=-"),
        Err(PerfdataParseError::ParseValueError(NumError::Invalid))
    );
    // A value segment that starts with its unit has an empty number.
    assert_eq!(
        Perfdata::parse("a=x"),
        Err(PerfdataParseError::ParseValueError(NumError::Empty))
    );
    // Mantissa past the largest machine integer is out of range.
    assert_eq!(
        Perfdata::parse("a=18446744073709551616"),
        Err(PerfdataParseError::ParseValueError(NumError::OutOfRange))
    );
    // The largest machine integer itself still parses.
    assert_eq!(
        Perfdata::parse("a=18446744073709551615")
            .unwrap()
            .value(),
        Some(Dec::new(false, u64::MAX, 0).unwrap())
    );
    // Nineteen significant fraction digits are out of range; eighteen fit.
    assert_eq!(
        Perfdata::parse("a=0.0000000000000000001"),
        Err(PerfdataParseError::ParseValueError(NumError::OutOfRange))
    );
    assert_eq!(
        Perfdata::parse("a=0.000000000000000001")
            .unwrap()
            .value(),
        Some(Dec::new(false, 1, 18).unwrap())
    );
}

#[test]
fn test_decimal_canonicalization() {
    // Trailing fraction zeros are dropped, a zero loses sign and scale.
    assert_eq!(Dec::new(false, 1000, 3), Some(Dec::from_int(1)));
    assert_eq!(Dec::new(true, 0, 5), Some(Dec::from_int(0)));
    assert_eq!(Dec::new(false, 1, 19), None);
    assert_eq!(Dec::new(true, 25, 1), Dec::new(true, 250, 2));
    assert_eq!(Dec::new(false, 1234, 3).unwrap().render(), "1.234");
    assert_eq!(Dec::new(true, 5, 1).unwrap().render(), "-0.5");
    assert_eq!(Dec::from_int(-50).render(), "-50");
    // Parsing agrees: "2.50" and "2.5" are the same value.
    assert_eq!(
        Perfdata::parse("a=2.50").unwrap(),
        Perfdata::parse("a=2.5").unwrap()
    );
    assert_eq!(
        Perfdata::parse("a=-0").unwrap().value(),
        Some(Dec::from_int(0))
    );
}

#[test]
fn test_decimal_ordering() {
    let half = Dec::new(false, 5, 1).unwrap();
    let quarter = Dec::new(false, 25, 2).unwrap();
    let neg_half = Dec::new(true, 5, 1).unwrap();
    assert!(quarter.lt(&half));
    assert!(!half.lt(&quarter));
    assert!(neg_half.lt(&quarter));
    assert!(neg_half.le(&neg_half));
    assert!(Dec::from_int(2).le(&Dec::new(false, 25, 1).unwrap()));
    assert!(!Dec::new(false, 25, 1).unwrap().le(&Dec::from_int(2)));
}

#[test]
fn test_exit_codes_and_names() {
    assert_eq!(MonitoringStatus::OK.exit_code(), 0);
    assert_eq!(MonitoringStatus::Warning.exit_code(), 1);
    assert_eq!(MonitoringStatus::Critical.exit_code(), 2);
    assert_eq!(MonitoringStatus::Unknown.exit_code(), 3);
    assert_eq!(MonitoringStatus::OK.text(), "OK");
    assert_eq!(MonitoringStatus::Warning.text(), "Warning");
    assert_eq!(MonitoringStatus::Critical.text(), "Critical");
    assert_eq!(MonitoringStatus::Unknown.text(), "Unknown");
    assert!(MonitoringStatus::OK < MonitoringStatus::Warning);
    assert!(MonitoringStatus::Warning < MonitoringStatus::Critical);
    assert!(MonitoringStatus::Critical < MonitoringStatus::Unknown);
}

#[test]
fn test_range_render_compact_forms() {
    assert_eq!(
        ThresholdRange::outside(Num::NegInf, Num::PosInf).render(),
        "~:"
    );
    assert_eq!(
        ThresholdRange::outside(Num::Fin(Dec::from_int(0)), Num::PosInf).render(),
        "0:"
    );
    assert_eq!(ThresholdRange::above_pos(Dec::from_int(10)).render(), "10");
    assert_eq!(ThresholdRange::above(Dec::from_int(10)).render(), "~:10");
    assert_eq!(ThresholdRange::below(Dec::from_int(10)).render(), "10:");
    assert_eq!(
        ThresholdRange::inside(Num::Fin(Dec::from_int(10)), Num::Fin(Dec::from_int(20))).render(),
        "@10:20"
    );
    // Each compact form parses back to the range it came from.
    for text in ["~:", "0:", "10", "~:10", "10:", "@10:20"] {
        let range = ThresholdRange::from_str(text).unwrap();
        assert_eq!(range.render(), text);
    }
}
