use core_probe::cpu_load_poller::owning_core;
use core_probe::thermal_monitor::is_k10temp_name;
use std::collections::BTreeMap;

#[test]
fn logical_cpu_is_counted_for_its_physical_core() {
    let core_map = BTreeMap::from([(0, vec![0, 1]), (1, vec![2, 3])]);
    assert_eq!(owning_core(0, &core_map), Some(0));
    assert_eq!(owning_core(1, &core_map), Some(0));
    assert_eq!(owning_core(3, &core_map), Some(1));
    assert_eq!(owning_core(7, &core_map), None);
}

#[test]
fn shared_logical_cpu_goes_to_the_lowest_core() {
    let core_map = BTreeMap::from([(8, vec![4, 5]), (2, vec![5, 6])]);
    assert_eq!(owning_core(5, &core_map), Some(2));
    assert_eq!(owning_core(4, &core_map), Some(8));
    assert_eq!(owning_core(0, &BTreeMap::new()), None);
}

#[test]
fn hwmon_name_must_be_k10temp() {
    assert!(is_k10temp_name("k10temp\n"));
    assert!(is_k10temp_name("  k10temp "));
    assert!(!is_k10temp_name("nvme"));
    assert!(!is_k10temp_name("k10temp2"));
}
