use std::collections::BTreeMap;

use core_probe::thermal_monitor::ccd_for_core;

#[test]
fn ccd_for_core_splits_12core() {
    // 5900X: physical IDs 0-5, 8-13
    let core_map: BTreeMap<u32, Vec<u32>> = [
        (0, vec![0, 1]),
        (1, vec![2, 3]),
        (2, vec![4, 5]),
        (3, vec![6, 7]),
        (4, vec![8, 9]),
        (5, vec![10, 11]),
        (8, vec![12, 13]),
        (9, vec![14, 15]),
        (10, vec![16, 17]),
        (11, vec![18, 19]),
        (12, vec![20, 21]),
        (13, vec![22, 23]),
    ]
    .into();

    // First half (0-5) → CCD0
    for &core in &[0, 1, 2, 3, 4, 5] {
        assert_eq!(ccd_for_core(core, &core_map), Some(0));
    }
    // Second half (8-13) → CCD1
    for &core in &[8, 9, 10, 11, 12, 13] {
        assert_eq!(ccd_for_core(core, &core_map), Some(1));
    }
}

#[test]
fn ccd_for_core_single_ccd() {
    // 5600X: 6 cores, no gap
    let core_map: BTreeMap<u32, Vec<u32>> = [
        (0, vec![0, 1]),
        (1, vec![2, 3]),
        (2, vec![4, 5]),
        (3, vec![6, 7]),
        (4, vec![8, 9]),
        (5, vec![10, 11]),
    ]
    .into();

    // All cores in first half → CCD0
    for &core in &[0, 1, 2, 3, 4, 5] {
        assert_eq!(ccd_for_core(core, &core_map), Some(0));
    }
}

#[test]
fn ccd_for_core_unknown_core() {
    let core_map: BTreeMap<u32, Vec<u32>> = [(0, vec![0, 1]), (1, vec![2, 3])].into();
    assert_eq!(ccd_for_core(99, &core_map), None);
}

use core_probe::thermal_monitor::{SensorFile, ThermalMonitor};

#[test]
fn ccd_for_unknown_core_with_gap_is_none() {
    let core_map: BTreeMap<u32, Vec<u32>> = [(0, vec![0]), (8, vec![1])].into();
    assert_eq!(ccd_for_core(0, &core_map), Some(0));
    assert_eq!(ccd_for_core(8, &core_map), Some(1));
    assert_eq!(ccd_for_core(4, &core_map), None);
}

fn sensor(index: u32, label: Option<&str>, has_input: bool) -> SensorFile {
    SensorFile { index, label: label.map(|l| l.to_string()), has_input }
}

#[test]
fn sensors_found_by_label_then_by_usual_numbers() {
    let sensors = vec![
        sensor(1, Some("Tctl\n"), true),
        sensor(3, Some("Tccd1\n"), true),
        sensor(4, None, true),
    ];
    let monitor = ThermalMonitor::from_sensors("/sys/class/hwmon/hwmon2".to_string(), &sensors);
    assert!(monitor.is_available());
    assert_eq!(monitor.base(), Some("/sys/class/hwmon/hwmon2"));
    assert_eq!(monitor.sensor_indices(), (Some(1), Some(3), Some(4)));
}

#[test]
fn labels_without_input_are_ignored() {
    let sensors = vec![sensor(2, Some("Tctl"), false), sensor(5, Some("Tccd2"), true)];
    let monitor = ThermalMonitor::from_sensors("/hw".to_string(), &sensors);
    assert_eq!(monitor.sensor_indices(), (None, None, Some(5)));
}

#[test]
fn unavailable_monitor_has_nothing_to_read() {
    let monitor = ThermalMonitor::unavailable();
    assert!(!monitor.is_available());
    assert_eq!(monitor.base(), None);
    assert_eq!(monitor.sensor_indices(), (None, None, None));
}
