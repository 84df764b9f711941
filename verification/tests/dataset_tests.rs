use perfdata::{Dec, Num, Perfdata, PerfdataSet, ThresholdRange};

#[test]
fn display_pdset() {
    // Arrange
    let thc = ThresholdRange::above_pos(Dec::from_int(23));
    let thw = ThresholdRange::inside(Num::Fin(Dec::from_int(0)), Num::Fin(Dec::from_int(100)));
    let pd = Perfdata::bytes("bytes", Dec::from_int(42))
        .with_warn(thw)
        .with_crit(thc)
        .with_min(Dec::from_int(-100))
        .with_max(Dec::from_int(100));

    let pdo = Perfdata::unit("unit", Dec::from_int(50));
    let pdu = Perfdata::undetermined("undetermined");

    let mut pds = PerfdataSet::new();
    pds.add(pd);
    pds.add(pdo);
    pds.add(pdu);

    let empty_pds = PerfdataSet::new();

    // Act
    let result = pds.render();
    let expected = "'bytes'=42b;@100;23;-100;100; 'unit'=50; 'undetermined'=U;";

    let empty_result = empty_pds.render();

    // Assert
    assert_eq!(&empty_result, "");
    assert_eq!(&result, expected);
}

#[test]
fn test_degraded() {
    let val = Dec::from_int(10);
    let pds = vec![
        Perfdata::unit("critical", val).with_crit(ThresholdRange::above_pos(Dec::from_int(0))),
        Perfdata::unit("warn", val).with_warn(ThresholdRange::above_pos(Dec::from_int(0))),
        Perfdata::unit("ok", val),
    ];

    let pds_crit = PerfdataSet::from_vec(pds[..].to_vec());
    let pds_warn = PerfdataSet::from_vec(pds[1..].to_vec());
    let pds_ok = PerfdataSet::from_vec(pds[2..].to_vec());

    assert_eq!(pds_crit.data().len(), 3);
    assert_eq!(pds_warn.data().len(), 2);
    assert_eq!(pds_ok.data().len(), 1);

    assert_eq!(pds_crit.critical().len(), 1);
    assert_eq!(pds_warn.warning().len(), 1);
    assert_eq!(pds_ok.critical().len(), 0);
    assert_eq!(pds_ok.warning().len(), 0);

    assert!(pds_crit.is_degraded());
    assert!(pds_warn.is_degraded());
    assert!(!pds_ok.is_degraded());
}

#[test]
fn test_set_status_and_emptiness() {
    let mut set = PerfdataSet::new();
    assert!(set.is_empty());
    assert_eq!(set.status(), perfdata::MonitoringStatus::OK);

    set.add(Perfdata::unit("a", Dec::from_int(5)).with_warn(ThresholdRange::above_pos(Dec::from_int(10))));
    assert!(!set.is_empty());
    assert_eq!(set.status(), perfdata::MonitoringStatus::OK);
    assert!(!set.has_warning());

    set.add(Perfdata::unit("b", Dec::from_int(15)).with_warn(ThresholdRange::above_pos(Dec::from_int(10))));
    assert_eq!(set.status(), perfdata::MonitoringStatus::Warning);
    assert!(set.has_warning());
    assert!(!set.has_critical());

    set.add(Perfdata::unit("c", Dec::from_int(25)).with_crit(ThresholdRange::above_pos(Dec::from_int(20))));
    assert_eq!(set.status(), perfdata::MonitoringStatus::Critical);
    assert!(set.has_critical());
}

#[test]
fn test_duplicate_labels_kept() {
    let mut set = PerfdataSet::new();
    set.add(Perfdata::unit("same", Dec::from_int(1)));
    set.add(Perfdata::unit("same", Dec::from_int(2)));
    assert_eq!(set.data().len(), 2);
    assert_eq!(set.render(), "'same'=1; 'same'=2;");
}
