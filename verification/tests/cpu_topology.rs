use std::collections::BTreeMap;
use core_probe::cpu_topology::detect_cpu_topology_from_parsed_sources;


const AMD_CPUINFO: &str = "processor : 0
vendor_id : AuthenticAMD
model name : AMD Ryzen 9 5900X 12-Core Processor
flags : fpu sse sse2 lm avx avx2";

const INTEL_CPUINFO: &str = "processor : 0
vendor_id : GenuineIntel
model name : Intel(R) Core(TM)
flags : fpu sse sse2 lm";

const AMD_NON_64BIT_CPUINFO: &str = "processor : 0
vendor_id : AuthenticAMD
model name : AMD Sample CPU
flags : fpu sse sse2 avx";

#[test]
fn given_amd_cpu_when_detecting_topology_then_returns_physical_cores() {
    let core_ids = vec![(0, 0), (1, 1), (2, 0), (3, 1)];

    let topology =
        detect_cpu_topology_from_parsed_sources(AMD_CPUINFO, &core_ids, Some((None, None)))
            .expect("AMD topology should parse successfully");

    let expected_map = BTreeMap::from([(0, vec![0, 2]), (1, vec![1, 3])]);

    assert_eq!(topology.vendor, "AuthenticAMD");
    assert_eq!(topology.model_name, "AMD Ryzen 9 5900X 12-Core Processor");
    assert_eq!(topology.logical_cpu_count, 4);
    assert_eq!(topology.physical_core_count, 2);
    assert_eq!(topology.core_map, expected_map);
    assert_eq!(topology.bios_index(0), Some(0));
    assert_eq!(topology.bios_index(1), Some(1));
}

#[test]
fn given_non_amd_cpu_when_validating_then_returns_error() {
    let core_ids = vec![(0, 0), (1, 1)];

    let result = detect_cpu_topology_from_parsed_sources(INTEL_CPUINFO, &core_ids, None);

    let error_text = result
        .expect_err("non-AMD CPU must be rejected")
        .message();
    assert!(error_text.contains("AuthenticAMD"));
}

#[test]
fn given_non_64bit_when_validating_then_returns_error() {
    let core_ids = vec![(0, 0), (1, 1)];

    let result =
        detect_cpu_topology_from_parsed_sources(AMD_NON_64BIT_CPUINFO, &core_ids, None);

    let error_text = result
        .expect_err("CPU without lm flag must be rejected")
        .message();
    assert!(error_text.contains("64-bit"));
}

#[test]
fn given_amd_5900x_when_mapping_cores_then_handles_non_contiguous_ids() {
    let core_ids = vec![
        (0, 0),
        (1, 1),
        (2, 2),
        (3, 3),
        (4, 4),
        (5, 5),
        (6, 8),
        (7, 9),
        (8, 10),
        (9, 11),
        (10, 12),
        (11, 13),
        (12, 0),
        (13, 1),
        (14, 2),
        (15, 3),
        (16, 4),
        (17, 5),
        (18, 8),
        (19, 9),
        (20, 10),
        (21, 11),
        (22, 12),
        (23, 13),
    ];

    let topology = detect_cpu_topology_from_parsed_sources(AMD_CPUINFO, &core_ids, None)
        .expect("non-contiguous core IDs should be supported");

    let expected_map = BTreeMap::from([
        (0, vec![0, 12]),
        (1, vec![1, 13]),
        (2, vec![2, 14]),
        (3, vec![3, 15]),
        (4, vec![4, 16]),
        (5, vec![5, 17]),
        (8, vec![6, 18]),
        (9, vec![7, 19]),
        (10, vec![8, 20]),
        (11, vec![9, 21]),
        (12, vec![10, 22]),
        (13, vec![11, 23]),
    ]);

    assert_eq!(topology.core_map, expected_map);
    assert_eq!(topology.physical_core_count, 12);
    assert_eq!(topology.logical_cpu_count, 24);
}

#[test]
fn given_smt_enabled_when_enumerating_then_returns_first_thread_per_core() {
    let core_ids = vec![(6, 0), (0, 0), (7, 1), (1, 1)];

    let topology = detect_cpu_topology_from_parsed_sources(AMD_CPUINFO, &core_ids, None)
        .expect("SMT core mapping should parse successfully");

    let expected_map = BTreeMap::from([(0, vec![0, 6]), (1, vec![1, 7])]);
    assert_eq!(topology.core_map, expected_map);
}

#[test]
fn given_contiguous_core_ids_when_computing_bios_map_then_identity_mapping() {
    let core_ids = vec![(0, 0), (1, 1), (2, 2), (3, 3)];

    let topology = detect_cpu_topology_from_parsed_sources(AMD_CPUINFO, &core_ids, None)
        .expect("contiguous core IDs should produce identity BIOS mapping");

    assert_eq!(topology.bios_index(0), Some(0));
    assert_eq!(topology.bios_index(1), Some(1));
    assert_eq!(topology.bios_index(2), Some(2));
    assert_eq!(topology.bios_index(3), Some(3));
}

#[test]
fn given_non_contiguous_5900x_ids_when_computing_bios_map_then_sequential_indices() {
    let core_ids = vec![
        (0, 0),
        (1, 1),
        (2, 2),
        (3, 3),
        (4, 4),
        (5, 5),
        (6, 8),
        (7, 9),
        (8, 10),
        (9, 11),
        (10, 12),
        (11, 13),
    ];

    let topology = detect_cpu_topology_from_parsed_sources(AMD_CPUINFO, &core_ids, None)
        .expect("non-contiguous 5900X IDs should produce sequential BIOS indices");

    assert_eq!(topology.bios_index(0), Some(0));
    assert_eq!(topology.bios_index(5), Some(5));
    assert_eq!(topology.bios_index(8), Some(6));
    assert_eq!(topology.bios_index(13), Some(11));
}

#[test]
fn given_bios_index_when_reverse_mapping_then_returns_physical_id() {
    let core_ids = vec![
        (0, 0),
        (1, 1),
        (2, 2),
        (3, 3),
        (4, 4),
        (5, 5),
        (6, 8),
        (7, 9),
        (8, 10),
        (9, 11),
        (10, 12),
        (11, 13),
    ];

    let topology = detect_cpu_topology_from_parsed_sources(AMD_CPUINFO, &core_ids, None)
        .expect("reverse mapping should be computed from BIOS map");

    assert_eq!(topology.physical_id(6), Some(8));
    assert_eq!(topology.physical_id(7), Some(9));
}

#[test]
fn given_single_core_when_computing_bios_map_then_maps_to_zero() {
    let core_ids = vec![(0, 8)];

    let topology = detect_cpu_topology_from_parsed_sources(AMD_CPUINFO, &core_ids, None)
        .expect("single core should map to BIOS index zero");

    assert_eq!(topology.bios_index(8), Some(0));
    assert_eq!(topology.physical_id(0), Some(8));
}
