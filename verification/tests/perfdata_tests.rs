use perfdata::{Dec, Perfdata, ThresholdRange};

#[test]
fn data_test_creation() {
    let label = "test";
    let records = [
        Perfdata::unit(label, Dec::from_int(0)),
        Perfdata::percentage(label, Dec::from_int(0)),
        Perfdata::seconds(label, Dec::from_int(0)),
        Perfdata::bytes(label, Dec::from_int(0)),
        Perfdata::counter(label, Dec::from_int(0)),
        Perfdata::undetermined(label),
    ];
    for perfdata in records.iter() {
        let label_got = perfdata.label();

        if let Some(value) = perfdata.value() {
            assert_eq!(value, Dec::zero())
        }
        assert_eq!(label, label_got)
    }
}

#[test]
fn data_test_format() {
    assert_eq!(Perfdata::unit("unit", Dec::from_int(0)).render(), "'unit'=0;");
    assert_eq!(
        Perfdata::percentage("percentage", Dec::from_int(50)).render(),
        "'percentage'=50%;"
    );
    assert_eq!(
        Perfdata::seconds("seconds", Dec::new(false, 1234, 3).unwrap()).render(),
        "'seconds'=1.234s;"
    );
    assert_eq!(
        Perfdata::bytes("bytes", Dec::new(false, 1, 4).unwrap()).render(),
        "'bytes'=0.0001b;"
    );
    assert_eq!(
        Perfdata::counter("counter", Dec::from_int(12345)).render(),
        "'counter'=12345c;"
    );
    assert_eq!(
        Perfdata::undetermined("undetermined").render(),
        "'undetermined'=U;"
    );
}

#[test]
fn data_test_format_partial_thresholds() {
    let just_warn = Perfdata::unit("label", Dec::from_int(10))
        .with_warn(ThresholdRange::above_pos(Dec::from_int(20)));
    let just_crit = Perfdata::unit("label", Dec::from_int(10))
        .with_crit(ThresholdRange::above_pos(Dec::from_int(30)));
    let just_min = Perfdata::unit("label", Dec::from_int(10)).with_min(Dec::from_int(0));
    let just_max = Perfdata::unit("label", Dec::from_int(10)).with_max(Dec::from_int(100));

    let f_warn = just_warn.render();
    let f_crit = just_crit.render();
    let f_min = just_min.render();
    let f_max = just_max.render();

    assert_eq!(f_warn, "'label'=10;20;;;;");
    assert_eq!(f_crit, "'label'=10;;30;;;");
    assert_eq!(f_min, "'label'=10;;;0;;");
    assert_eq!(f_max, "'label'=10;;;;100;");
}

#[test]
fn data_test_format_thresholds() {
    let warn = ThresholdRange::above_pos(Dec::from_int(20));
    let crit = ThresholdRange::above_pos(Dec::from_int(30));
    let min = Dec::from_int(-50);
    let max = Dec::from_int(50);

    let unit = Perfdata::unit("unit", Dec::from_int(0))
        .with_warn(warn)
        .with_crit(crit)
        .with_min(min)
        .with_max(max);
    assert_eq!(unit.render(), "'unit'=0;20;30;-50;50;");

    let percentage = Perfdata::percentage("percentage", Dec::from_int(50))
        .with_warn(warn)
        .with_crit(crit)
        .with_min(min)
        .with_max(max);
    assert_eq!(percentage.render(), "'percentage'=50%;20;30;-50;50;");

    let seconds = Perfdata::seconds("seconds", Dec::new(false, 1234, 3).unwrap())
        .with_warn(warn)
        .with_crit(crit)
        .with_min(min)
        .with_max(max);
    assert_eq!(seconds.render(), "'seconds'=1.234s;20;30;-50;50;");

    let bytes = Perfdata::bytes("bytes", Dec::new(false, 1, 4).unwrap())
        .with_warn(warn)
        .with_crit(crit)
        .with_min(min)
        .with_max(max);
    assert_eq!(bytes.render(), "'bytes'=0.0001b;20;30;-50;50;");

    let counter = Perfdata::counter("counter", Dec::from_int(12345))
        .with_warn(warn)
        .with_crit(crit)
        .with_min(min)
        .with_max(max);
    assert_eq!(counter.render(), "'counter'=12345c;20;30;-50;50;");

    let undetermined = Perfdata::undetermined("undetermined")
        .with_warn(warn)
        .with_crit(crit)
        .with_min(min)
        .with_max(max);
    assert_eq!(undetermined.render(), "'undetermined'=U;20;30;-50;50;");
}

#[test]
fn data_test_warn_crit() {
    let warn = Perfdata::unit("warn", Dec::from_int(10))
        .with_warn(ThresholdRange::above_pos(Dec::from_int(5)))
        .with_crit(ThresholdRange::above_pos(Dec::from_int(15)));

    let crit = Perfdata::unit("warn", Dec::from_int(20))
        .with_warn(ThresholdRange::above_pos(Dec::from_int(5)))
        .with_crit(ThresholdRange::above_pos(Dec::from_int(15)));

    let no_thresholds = Perfdata::unit("no_thresholds", Dec::from_int(30));
    let undetermined = Perfdata::undetermined("undetermined")
        .with_warn(ThresholdRange::above_pos(Dec::from_int(20)))
        .with_crit(ThresholdRange::above_pos(Dec::from_int(20)));

    assert!(warn.is_warn());
    assert!(!warn.is_crit());

    assert!(crit.is_warn());
    assert!(crit.is_crit());

    assert!(!no_thresholds.is_warn());
    assert!(!no_thresholds.is_crit());

    assert!(!undetermined.is_warn());
    assert!(!undetermined.is_crit());
}

#[test]
fn perfdata_test_creation() {
    let label = "test";
    let records = [
        Perfdata::unit(label, Dec::from_int(0)),
        Perfdata::percentage(label, Dec::from_int(0)),
        Perfdata::seconds(label, Dec::from_int(0)),
        Perfdata::bytes(label, Dec::from_int(0)),
        Perfdata::counter(label, Dec::from_int(0)),
        Perfdata::undetermined(label),
    ];
    for perfdata in records.iter() {
        let label_got = perfdata.label();

        if let Some(value) = perfdata.value() {
            assert_eq!(value, Dec::zero())
        }
        assert_eq!(label, label_got)
    }
}

#[test]
fn perfdata_test_format() {
    assert_eq!(Perfdata::unit("unit", Dec::from_int(0)).render(), "'unit'=0;");
    assert_eq!(
        Perfdata::percentage("percentage", Dec::from_int(50)).render(),
        "'percentage'=50%;"
    );
    assert_eq!(
        Perfdata::seconds("seconds", Dec::new(false, 1234, 3).unwrap()).render(),
        "'seconds'=1.234s;"
    );
    assert_eq!(
        Perfdata::bytes("bytes", Dec::new(false, 1, 4).unwrap()).render(),
        "'bytes'=0.0001b;"
    );
    assert_eq!(
        Perfdata::counter("counter", Dec::from_int(12345)).render(),
        "'counter'=12345c;"
    );
    assert_eq!(
        Perfdata::undetermined("undetermined").render(),
        "'undetermined'=U;"
    );
}

#[test]
fn perfdata_test_format_partial_thresholds() {
    let just_warn = Perfdata::unit("label", Dec::from_int(10))
        .with_warn(ThresholdRange::above_pos(Dec::from_int(20)));
    let just_crit = Perfdata::unit("label", Dec::from_int(10))
        .with_crit(ThresholdRange::above_pos(Dec::from_int(30)));
    let just_min = Perfdata::unit("label", Dec::from_int(10)).with_min(Dec::from_int(0));
    let just_max = Perfdata::unit("label", Dec::from_int(10)).with_max(Dec::from_int(100));

    let f_warn = just_warn.render();
    let f_crit = just_crit.render();
    let f_min = just_min.render();
    let f_max = just_max.render();

    assert_eq!(f_warn, "'label'=10;20;;;;");
    assert_eq!(f_crit, "'label'=10;;30;;;");
    assert_eq!(f_min, "'label'=10;;;0;;");
    assert_eq!(f_max, "'label'=10;;;;100;");
}

#[test]
fn perfdata_test_format_thresholds() {
    let warn = ThresholdRange::above_pos(Dec::from_int(20));
    let crit = ThresholdRange::above_pos(Dec::from_int(30));
    let min = Dec::from_int(-50);
    let max = Dec::from_int(50);

    let unit = Perfdata::unit("unit", Dec::from_int(0))
        .with_warn(warn)
        .with_crit(crit)
        .with_min(min)
        .with_max(max);
    assert_eq!(unit.render(), "'unit'=0;20;30;-50;50;");

    let percentage = Perfdata::percentage("percentage", Dec::from_int(50))
        .with_warn(warn)
        .with_crit(crit)
        .with_min(min)
        .with_max(max);
    assert_eq!(percentage.render(), "'percentage'=50%;20;30;-50;50;");

    let seconds = Perfdata::seconds("seconds", Dec::new(false, 1234, 3).unwrap())
        .with_warn(warn)
        .with_crit(crit)
        .with_min(min)
        .with_max(max);
    assert_eq!(seconds.render(), "'seconds'=1.234s;20;30;-50;50;");

    let bytes = Perfdata::bytes("bytes", Dec::new(false, 1, 4).unwrap())
        .with_warn(warn)
        .with_crit(crit)
        .with_min(min)
        .with_max(max);
    assert_eq!(bytes.render(), "'bytes'=0.0001b;20;30;-50;50;");

    let counter = Perfdata::counter("counter", Dec::from_int(12345))
        .with_warn(warn)
        .with_crit(crit)
        .with_min(min)
        .with_max(max);
    assert_eq!(counter.render(), "'counter'=12345c;20;30;-50;50;");

    let undetermined = Perfdata::undetermined("undetermined")
        .with_warn(warn)
        .with_crit(crit)
        .with_min(min)
        .with_max(max);
    assert_eq!(undetermined.render(), "'undetermined'=U;20;30;-50;50;");
}

#[test]
fn perfdata_test_warn_crit() {
    let warn = Perfdata::unit("warn", Dec::from_int(10))
        .with_warn(ThresholdRange::above_pos(Dec::from_int(5)))
        .with_crit(ThresholdRange::above_pos(Dec::from_int(15)));

    let crit = Perfdata::unit("warn", Dec::from_int(20))
        .with_warn(ThresholdRange::above_pos(Dec::from_int(5)))
        .with_crit(ThresholdRange::above_pos(Dec::from_int(15)));

    let no_thresholds = Perfdata::unit("no_thresholds", Dec::from_int(30));
    let undetermined = Perfdata::undetermined("undetermined")
        .with_warn(ThresholdRange::above_pos(Dec::from_int(20)))
        .with_crit(ThresholdRange::above_pos(Dec::from_int(20)));

    assert!(warn.is_warn());
    assert!(!warn.is_crit());

    assert!(crit.is_warn());
    assert!(crit.is_crit());

    assert!(!no_thresholds.is_warn());
    assert!(!no_thresholds.is_crit());

    assert!(!undetermined.is_warn());
    assert!(!undetermined.is_crit());
}

#[test]
fn test_status_prefers_critical() {
    let both = Perfdata::unit("x", Dec::from_int(50))
        .with_warn(ThresholdRange::above_pos(Dec::from_int(10)))
        .with_crit(ThresholdRange::above_pos(Dec::from_int(20)));
    assert_eq!(both.status(), perfdata::MonitoringStatus::Critical);

    let warn_only = Perfdata::unit("x", Dec::from_int(15))
        .with_warn(ThresholdRange::above_pos(Dec::from_int(10)))
        .with_crit(ThresholdRange::above_pos(Dec::from_int(20)));
    assert_eq!(warn_only.status(), perfdata::MonitoringStatus::Warning);

    let ok = Perfdata::unit("x", Dec::from_int(5))
        .with_warn(ThresholdRange::above_pos(Dec::from_int(10)))
        .with_crit(ThresholdRange::above_pos(Dec::from_int(20)));
    assert_eq!(ok.status(), perfdata::MonitoringStatus::OK);
}
