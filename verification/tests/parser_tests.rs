use perfdata::{Dec, Num, Perfdata, PerfdataParseError, ThresholdRange};

#[test]
fn test_parse_list() {
    let list = " label=10;20;30;0;40;  'foo'=0s; 'with space'=42 'with two spaces'=2     'with  ma ny   spaces'=6   ";

    let parsed = Perfdata::parse_from_list(list);

    assert_eq!(
        parsed,
        vec![
            Ok(Perfdata::unit("label", Dec::from_int(10))
                .with_warn(ThresholdRange::above_pos(Dec::from_int(20)))
                .with_crit(ThresholdRange::above_pos(Dec::from_int(30)))
                .with_min(Dec::from_int(0))
                .with_max(Dec::from_int(40))),
            Ok(Perfdata::seconds("foo", Dec::from_int(0))),
            Ok(Perfdata::unit("with space", Dec::from_int(42))),
            Ok(Perfdata::unit("with two spaces", Dec::from_int(2))),
            Ok(Perfdata::unit("with  ma ny   spaces", Dec::from_int(6)))
        ]
    )
}

#[test]
fn test_parse_simple() {
    let perfdata = "label=42";
    let perfdata_long = "label2=10;20;30;0;100;";

    let expected_long = Perfdata::unit("label2", Dec::from_int(10))
        .with_warn(ThresholdRange::above_pos(Dec::from_int(20)))
        .with_crit(ThresholdRange::above_pos(Dec::from_int(30)))
        .with_min(Dec::from_int(0))
        .with_max(Dec::from_int(100));
    let expected = Perfdata::unit("label", Dec::from_int(42));

    let got_long = Perfdata::parse(perfdata_long).unwrap();
    let got = Perfdata::parse(perfdata).unwrap();

    assert_eq!(expected, got);
    assert_eq!(expected_long, got_long);
}

#[test]
fn test_parse_errors() {
    let no_equals = "label 123";
    let empty_value = "label=";
    let empty_value_thresholds = "label=;20;30;0;100;";
    let space_unit = "label=1 s";
    let unknown_unit = "label=1x";

    let got_no_equals = Perfdata::parse(no_equals);
    let got_empty_value = Perfdata::parse(empty_value);
    let got_empty_value_thresholds = Perfdata::parse(empty_value_thresholds);
    let got_space_unit = Perfdata::parse(space_unit);
    let got_unknown_unit = Perfdata::parse(unknown_unit);

    assert!(matches!(
        got_no_equals,
        Err(PerfdataParseError::MissingEqualsSign)
    ));
    assert!(matches!(
        got_empty_value,
        Err(PerfdataParseError::MissingValue)
    ));
    assert!(matches!(
        got_empty_value_thresholds,
        Err(PerfdataParseError::MissingValue)
    ));
    assert!(matches!(
        got_space_unit,
        Err(PerfdataParseError::UnknownUnit(_))
    ));
    assert!(matches!(
        got_unknown_unit,
        Err(PerfdataParseError::UnknownUnit(_))
    ))
}

#[test]
fn test_parse_omitted() {
    let no_warn = "no_w=10;;30;0;100;";
    let exp_no_warn = Perfdata::unit("no_w", Dec::from_int(10))
        .with_crit(ThresholdRange::above_pos(Dec::from_int(30)))
        .with_min(Dec::from_int(0))
        .with_max(Dec::from_int(100));

    let no_crit = "no_c=10;20;;0;100";
    let exp_no_crit = Perfdata::unit("no_c", Dec::from_int(10))
        .with_warn(ThresholdRange::above_pos(Dec::from_int(20)))
        .with_min(Dec::from_int(0))
        .with_max(Dec::from_int(100));

    let no_min = "no_m=10;20;30;;100";
    let exp_no_min = Perfdata::unit("no_m", Dec::from_int(10))
        .with_warn(ThresholdRange::above_pos(Dec::from_int(20)))
        .with_crit(ThresholdRange::above_pos(Dec::from_int(30)))
        .with_max(Dec::from_int(100));

    let just_min = "just_m=10;;;0;";
    let exp_just_min = Perfdata::unit("just_m", Dec::from_int(10)).with_min(Dec::from_int(0));

    let got_no_warn = Perfdata::parse(no_warn).unwrap();
    let got_no_crit = Perfdata::parse(no_crit).unwrap();
    let got_no_min = Perfdata::parse(no_min).unwrap();
    let got_just_min = Perfdata::parse(just_min).unwrap();

    assert_eq!(exp_no_warn, got_no_warn);
    assert_eq!(exp_no_crit, got_no_crit);
    assert_eq!(exp_no_min, got_no_min);
    assert_eq!(exp_just_min, got_just_min);
}

#[test]
fn test_parse_undetermined_thresholds() {
    let perfdata = "test=U;10;20;0;100";
    let expected = Perfdata::undetermined("test")
        .with_warn(ThresholdRange::above_pos(Dec::from_int(10)))
        .with_crit(ThresholdRange::above_pos(Dec::from_int(20)))
        .with_min(Dec::from_int(0))
        .with_max(Dec::from_int(100));

    let parsed = Perfdata::parse(perfdata).unwrap();

    assert_eq!(expected, parsed)
}

#[test]
fn test_parse_units_with_thresholds() {
    let seconds = "seconds=10s;20;30;0;40";
    let expected_seconds = Perfdata::seconds("seconds", Dec::from_int(10))
        .with_warn(ThresholdRange::above_pos(Dec::from_int(20)))
        .with_crit(ThresholdRange::above_pos(Dec::from_int(30)))
        .with_min(Dec::from_int(0))
        .with_max(Dec::from_int(40));

    let parsed_seconds = Perfdata::parse(seconds).unwrap();

    assert_eq!(expected_seconds, parsed_seconds);
}

#[test]
fn test_units() {
    let label = "test";
    let value = Dec::from_int(0);

    assert_eq!(
        Perfdata::parse("test=0").unwrap(),
        Perfdata::unit(label, value)
    );
    assert_eq!(
        Perfdata::parse("test=0%").unwrap(),
        Perfdata::percentage(label, value)
    );
    assert_eq!(
        Perfdata::parse("test=0s").unwrap(),
        Perfdata::seconds(label, value)
    );
    assert_eq!(
        Perfdata::parse("test=0b").unwrap(),
        Perfdata::bytes(label, value)
    );
    assert_eq!(
        Perfdata::parse("test=0c").unwrap(),
        Perfdata::counter(label, value)
    );
    assert_eq!(
        Perfdata::parse("test=U").unwrap(),
        Perfdata::undetermined(label)
    );
}

#[test]
fn test_example_ranges() {
    // 10 	< 0 or > 10, (outside the range of {0 .. 10})
    let unit = "10";
    let exp_unit = ThresholdRange::above_pos(Dec::from_int(10));
    // 10: 	< 10, (outside {10 .. ∞})
    let omit_end = "10:";
    let exp_omit_end = ThresholdRange::outside(Num::Fin(Dec::from_int(10)), Num::PosInf);
    // ~:10 	> 10, (outside the range of {-∞ .. 10})
    let neg_inf = "~:10";
    let exp_neg_inf = ThresholdRange::above(Dec::from_int(10));
    // 10:20 	< 10 or > 20, (outside the range of {10 .. 20})
    let outside = "10:20";
    let exp_outside = ThresholdRange::outside(Num::Fin(Dec::from_int(10)), Num::Fin(Dec::from_int(20)));
    // @10:20 	≥ 10 and ≤ 20, (inside the range of {10 .. 20})
    let inside = "@10:20";
    let exp_inside = ThresholdRange::inside(Num::Fin(Dec::from_int(10)), Num::Fin(Dec::from_int(20)));

    let number_err = "Nota:range";
    let space_err = "12 34";
    let emtpy_err = "";

    let got_unit = ThresholdRange::from_str(unit).unwrap();
    let got_omit_end = ThresholdRange::from_str(omit_end).unwrap();
    let got_neg_inf = ThresholdRange::from_str(neg_inf).unwrap();
    let got_outside = ThresholdRange::from_str(outside).unwrap();
    let got_inside = ThresholdRange::from_str(inside).unwrap();

    let got_err_number = ThresholdRange::from_str(number_err);
    let got_err_space = ThresholdRange::from_str(space_err);
    let got_err_empty = ThresholdRange::from_str(emtpy_err);

    assert_eq!(exp_unit, got_unit);
    assert_eq!(exp_omit_end, got_omit_end);
    assert_eq!(exp_neg_inf, got_neg_inf);
    assert_eq!(exp_outside, got_outside);
    assert_eq!(exp_inside, got_inside);

    assert!(matches!(
        got_err_number,
        Err(PerfdataParseError::ParseValueError(_))
    ));
    assert!(matches!(
        got_err_space,
        Err(PerfdataParseError::ParseValueError(_))
    ));
    assert!(matches!(
        got_err_empty,
        Err(PerfdataParseError::ThresholdEmpty)
    ));
}

#[test]
fn test_label_quoting() {
    let quoted = "'label'=10";
    let exp_quoted = "label";

    let quoted_with_space = "'la bel'=10";
    let exp_quoted_with_space = "la bel";

    let extra_start = "'label=1";
    let extra_end = "label'=1";
    let extra_middle = "'la'bel'=1";

    let empty = "=1";
    let empty_quoted = "''=1";

    let parsed_quoted = Perfdata::parse(quoted).unwrap();
    let parsed_quoted_with_space = Perfdata::parse(quoted_with_space).unwrap();
    let parsed_extra_start = Perfdata::parse(extra_start);
    let parsed_extra_end = Perfdata::parse(extra_end);
    let parsed_extra_middle = Perfdata::parse(extra_middle);
    let parsed_empty = Perfdata::parse(empty);
    let parsed_empty_quoted = Perfdata::parse(empty_quoted);

    assert_eq!(parsed_quoted.label(), exp_quoted);
    assert_eq!(parsed_quoted_with_space.label(), exp_quoted_with_space);
    assert_eq!(
        parsed_extra_start,
        Err(PerfdataParseError::LabelContainsSingleQuote)
    );
    assert_eq!(
        parsed_extra_end,
        Err(PerfdataParseError::LabelContainsSingleQuote)
    );
    assert_eq!(
        parsed_extra_middle,
        Err(PerfdataParseError::LabelContainsSingleQuote)
    );
    assert_eq!(parsed_empty, Err(PerfdataParseError::MissingLabel));
    assert_eq!(parsed_empty_quoted, Err(PerfdataParseError::MissingLabel));
}

#[test]
fn test_format_and_parse_back() {
    let simple = Perfdata::unit("simple", Dec::from_int(10));
    let full = Perfdata::bytes("full", Dec::from_int(10))
        .with_warn(ThresholdRange::above_pos(Dec::from_int(20)))
        .with_crit(ThresholdRange::above_pos(Dec::from_int(30)))
        .with_min(Dec::from_int(0))
        .with_max(Dec::from_int(100));

    let fmt_simple = simple.render();
    let parsed_simple = Perfdata::parse(fmt_simple.as_str()).unwrap();

    let fmt_full = full.render();
    let parsed_full = Perfdata::parse(fmt_full.as_str()).unwrap();

    assert_eq!(simple, parsed_simple);
    assert_eq!(full, parsed_full);
}

#[test]
fn test_unit_variants_carry_values() {
    let d = Dec::new(false, 25, 1).unwrap();
    let pd = Perfdata::parse("x=2.5s").unwrap();
    assert_eq!(pd.value(), Some(d));
    assert_eq!(Perfdata::parse("x=U").unwrap().value(), None);
}
