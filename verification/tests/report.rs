use core_probe::report::{visible_len, StabilityReport};
use core_probe::coordinator::{CoreStatus, CoreTestResult, CycleResults};
use core_probe::cpu_topology::CpuTopology;
use core_probe::error_parser::{MprimeError, MprimeErrorType};
use core_probe::mce_monitor::{MceError, MceErrorType};
use core_probe::uefi_reader::{PboLimits, UefiSettings};
use std::collections::BTreeMap;

/// The escape sequence that starts yellow text.
const COLOR_YELLOW: &str = "\x1b[33m";

fn build_test_topology() -> CpuTopology {
    CpuTopology {
        vendor: "AuthenticAMD".to_string(),
        model_name: "AMD Ryzen 9 5900X".to_string(),
        physical_core_count: 2,
        logical_cpu_count: 2,
        core_map: BTreeMap::from([(0, vec![0]), (1, vec![1])]),
        bios_map: BTreeMap::from([(0, 0), (1, 1)]),
        physical_map: BTreeMap::from([(0, 0), (1, 1)]),
        cpu_brand: None,
        cpu_frequency_mhz: None,
    }
}

fn build_test_cycle_results_stable() -> CycleResults {
    CycleResults {
        results: vec![CoreTestResult {
            core_id: 0,
            bios_index: 0,
            logical_cpu_ids: vec![0],
            status: CoreStatus::Passed,
            mprime_errors: Vec::new(),
            mce_errors: Vec::new(),
            duration_tested: 360,
            iterations_completed: 3,
        }],
        total_duration: 360,
        iterations_completed: 3,
        interrupted: false,
    }
}

#[test]
fn given_all_cores_passed_when_reporting_then_shows_stable_summary() {
    // GIVEN: All cores passed
    let topology = build_test_topology();
    let results = CycleResults {
        results: vec![
            CoreTestResult {
                core_id: 0,
                bios_index: 0,
                logical_cpu_ids: vec![0],
                status: CoreStatus::Passed,
                mprime_errors: Vec::new(),
                mce_errors: Vec::new(),
                duration_tested: 360,
                iterations_completed: 3,
            },
            CoreTestResult {
                core_id: 1,
                bios_index: 1,
                logical_cpu_ids: vec![1],
                status: CoreStatus::Passed,
                mprime_errors: Vec::new(),
                mce_errors: Vec::new(),
                duration_tested: 360,
                iterations_completed: 3,
            },
        ],
        total_duration: 720,
        iterations_completed: 3,
        interrupted: false,
    };

    // WHEN: Generating report
    let report = StabilityReport::new(&results, &topology, None);
    let output = report.generate().expect("report generation should succeed");

    // THEN: Shows stable summary
    assert!(output.contains("STABLE"));
    assert!(output.contains("RESULT: STABLE"));
    assert!(output.contains("AMD Ryzen 9 5900X"));
    assert!(output.contains("Duration:"));
    assert!(output.contains("Iterations:"));
}

#[test]
fn given_one_core_failed_when_reporting_then_highlights_unstable_core() {
    // GIVEN: One core failed with error
    let topology = build_test_topology();
    let results = CycleResults {
        results: vec![
            CoreTestResult {
                core_id: 0,
                bios_index: 0,
                logical_cpu_ids: vec![0],
                status: CoreStatus::Passed,
                mprime_errors: Vec::new(),
                mce_errors: Vec::new(),
                duration_tested: 360,
                iterations_completed: 3,
            },
            CoreTestResult {
                core_id: 1,
                bios_index: 1,
                logical_cpu_ids: vec![1],
                status: CoreStatus::Failed,
                mprime_errors: vec![MprimeError {
                    error_type: MprimeErrorType::RoundoffError,
                    message: "ROUND OFF > 0.40".to_string(),
                    fft_size: Some(1344),
                    timestamp: None,
                }],
                mce_errors: Vec::new(),
                duration_tested: 120,
                iterations_completed: 2,
            },
        ],
        total_duration: 480,
        iterations_completed: 3,
        interrupted: false,
    };

    // WHEN: Generating report
    let report = StabilityReport::new(&results, &topology, None);
    let output = report.generate().expect("report generation should succeed");

    // THEN: Highlights unstable core
    assert!(output.contains("UNSTABLE"));
    assert!(output.contains("RESULT: UNSTABLE cores=1"));
    assert!(output.contains("mprime: ROUNDOFF"));
    assert!(output.contains("1344K FFT"));
}

#[test]
fn given_mce_errors_when_reporting_then_includes_hardware_error_details() {
    // GIVEN: Core with MCE errors
    let topology = build_test_topology();
    let results = CycleResults {
        results: vec![CoreTestResult {
            core_id: 0,
            bios_index: 0,
            logical_cpu_ids: vec![0],
            status: CoreStatus::Failed,
            mprime_errors: Vec::new(),
            mce_errors: vec![MceError {
                cpu_id: 0,
                bank: Some(5),
                error_type: MceErrorType::MachineCheck,
                message: "Machine Check Exception".to_string(),
                timestamp: "1234567890".to_string(),
                apic_id: None,
            }],
            duration_tested: 120,
            iterations_completed: 1,
        }],
        total_duration: 120,
        iterations_completed: 1,
        interrupted: false,
    };

    // WHEN: Generating report
    let report = StabilityReport::new(&results, &topology, None);
    let output = report.generate().expect("report generation should succeed");

    // THEN: Includes MCE details
    assert!(output.contains("MCE: Machine Check"));
    assert!(output.contains("Bank 5"));
    assert!(output.contains("1 corrected, 0 uncorrected"));
}

#[test]
fn given_partial_results_when_reporting_then_shows_interrupted_status() {
    // GIVEN: Test interrupted mid-cycle
    let topology = build_test_topology();
    let results = CycleResults {
        results: vec![
            CoreTestResult {
                core_id: 0,
                bios_index: 0,
                logical_cpu_ids: vec![0],
                status: CoreStatus::Passed,
                mprime_errors: Vec::new(),
                mce_errors: Vec::new(),
                duration_tested: 360,
                iterations_completed: 1,
            },
            CoreTestResult {
                core_id: 1,
                bios_index: 1,
                logical_cpu_ids: vec![1],
                status: CoreStatus::Interrupted,
                mprime_errors: Vec::new(),
                mce_errors: Vec::new(),
                duration_tested: 60,
                iterations_completed: 1,
            },
        ],
        total_duration: 420,
        iterations_completed: 0,
        interrupted: true,
    };

    // WHEN: Generating report
    let report = StabilityReport::new(&results, &topology, None);
    let output = report.generate().expect("report generation should succeed");

    // THEN: Shows interrupted status
    assert!(output.contains("INTERRUPTED"));
}

#[test]
fn given_multiple_iterations_when_reporting_then_shows_per_iteration_results() {
    // GIVEN: Multiple iterations completed
    let topology = build_test_topology();
    let results = CycleResults {
        results: vec![CoreTestResult {
            core_id: 0,
            bios_index: 0,
            logical_cpu_ids: vec![0],
            status: CoreStatus::Passed,
            mprime_errors: Vec::new(),
            mce_errors: Vec::new(),
            duration_tested: 1080,
            iterations_completed: 3,
        }],
        total_duration: 1080,
        iterations_completed: 3,
        interrupted: false,
    };

    // WHEN: Generating report
    let report = StabilityReport::new(&results, &topology, None);
    let output = report.generate().expect("report generation should succeed");

    // THEN: Shows iteration count
    assert!(output.contains("Iterations: 3"));
    assert!(output.contains("18m 0s"));
}

#[test]
fn given_uefi_available_with_pbo_when_formatting_then_shows_pbo_status() {
    // GIVEN: Available UEFI settings with PBO status
    let settings = UefiSettings {
        available: true,
        pbo_status: Some("Enabled".to_string()),
        ..Default::default()
    };
    let results = build_test_cycle_results_stable();
    let topology = build_test_topology();

    // WHEN: Generating report
    let report = StabilityReport::new(&results, &topology, Some(&settings));
    let output = report.generate().expect("report generation should succeed");

    // THEN: Shows PBO status in header
    assert!(output.contains("PBO Status: Enabled"));
}

#[test]
fn given_uefi_with_limits_when_formatting_then_shows_present_limits_only() {
    // GIVEN: Available UEFI settings with partial PBO limits
    let settings = UefiSettings {
        available: true,
        pbo_limits: Some(PboLimits {
            ppt_limit: Some("142W".to_string()),
            tdc_limit: None,
            edc_limit: Some("180A".to_string()),
        }),
        ..Default::default()
    };
    let results = build_test_cycle_results_stable();
    let topology = build_test_topology();

    // WHEN: Generating report
    let report = StabilityReport::new(&results, &topology, Some(&settings));
    let output = report.generate().expect("report generation should succeed");

    // THEN: Shows only populated limit fields
    assert!(output.contains("Limits: PPT: 142W | EDC: 180A"));
    assert!(!output.contains("TDC:"));
}

#[test]
fn given_uefi_with_agesa_when_formatting_then_shows_agesa_version() {
    // GIVEN: Available UEFI settings with AGESA version
    let settings = UefiSettings {
        available: true,
        agesa_version: Some("ComboAM4v2PI 1.2.0.C".to_string()),
        ..Default::default()
    };
    let results = build_test_cycle_results_stable();
    let topology = build_test_topology();

    // WHEN: Generating report
    let report = StabilityReport::new(&results, &topology, Some(&settings));
    let output = report.generate().expect("report generation should succeed");

    // THEN: Shows AGESA version in UEFI section
    assert!(output.contains("AGESA Version: ComboAM4v2PI 1.2.0.C"));
}

#[test]
fn given_uefi_with_curve_optimizer_offsets_when_formatting_then_shows_co_on_per_core_line() {
    // GIVEN: Available UEFI settings with multiple CO offsets
    let settings = UefiSettings {
        available: true,
        curve_optimizer_offsets: Some(BTreeMap::from([(0, -30), (1, -25), (2, -20), (3, -15)])),
        ..Default::default()
    };
    let results = build_test_cycle_results_stable();
    let topology = build_test_topology();

    // WHEN: Generating report
    let report = StabilityReport::new(&results, &topology, Some(&settings));
    let output = report.generate().expect("report generation should succeed");

    // THEN: CO appears on per-core line, no bulk table
    assert!(!output.contains("Curve Optimizer Offsets:"));
    assert!(output.contains("CO offset: -30 (aggressive)"));
    assert!(!output.contains("Core  1:  -25"));
}

#[test]
fn given_uefi_unavailable_when_formatting_then_shows_unavailable_notice() {
    // GIVEN: Unavailable UEFI settings
    let settings = UefiSettings::unavailable("permission denied".to_string());
    let results = build_test_cycle_results_stable();
    let topology = build_test_topology();

    // WHEN: Generating report
    let report = StabilityReport::new(&results, &topology, Some(&settings));
    let output = report.generate().expect("report generation should succeed");

    // THEN: Shows unavailable notice in header
    assert!(output.contains("PBO: ⚠ unavailable (run as root)"));
}

#[test]
fn given_no_uefi_settings_when_formatting_then_omits_uefi_section() {
    // GIVEN: No UEFI settings were provided
    let results = build_test_cycle_results_stable();
    let topology = build_test_topology();

    // WHEN: Generating report
    let report = StabilityReport::new(&results, &topology, None);
    let output = report.generate().expect("report generation should succeed");

    // THEN: Omits UEFI section entirely
    assert!(!output.contains("UEFI/BIOS Settings"));
    assert!(!output.contains("UEFI Settings: Unavailable"));
    assert!(!output.contains("PBO:"));
}

#[test]
fn given_uefi_settings_when_generating_then_places_section_before_per_core_results() {
    // GIVEN: UEFI settings are available
    let settings = UefiSettings {
        available: true,
        pbo_status: Some("Enabled".to_string()),
        ..Default::default()
    };
    let results = build_test_cycle_results_stable();
    let topology = build_test_topology();

    // WHEN: Generating report
    let report = StabilityReport::new(&results, &topology, Some(&settings));
    let output = report.generate().expect("report generation should succeed");

    // THEN: PBO status appears in header before per-core results
    let uefi_index = output
        .find("PBO Status:")
        .expect("PBO Status present in header");
    let core_index = output.find("Core  0:").expect("core results present");
    assert!(uefi_index < core_index);
}

#[test]
fn given_failed_core_with_aggressive_co_offset_when_formatting_then_shows_warning_annotation() {
    // GIVEN: A failed core with an aggressive CO offset
    let settings = UefiSettings {
        available: true,
        curve_optimizer_offsets: Some(BTreeMap::from([(1, -25)])),
        ..Default::default()
    };
    let topology = build_test_topology();
    let results = CycleResults {
        results: vec![CoreTestResult {
            core_id: 1,
            bios_index: 1,
            logical_cpu_ids: vec![1],
            status: CoreStatus::Failed,
            mprime_errors: Vec::new(),
            mce_errors: Vec::new(),
            duration_tested: 120,
            iterations_completed: 1,
        }],
        total_duration: 120,
        iterations_completed: 1,
        interrupted: false,
    };

    // WHEN: Generating report
    let report = StabilityReport::new(&results, &topology, Some(&settings));
    let output = report.generate().expect("report generation should succeed");

    // THEN: The warning annotation is shown on the main status line
    assert!(output.contains("CO offset: -25 (aggressive)"));
}

#[test]
fn given_passed_core_with_co_offset_when_formatting_then_shows_info_annotation() {
    // GIVEN: A passed core with a moderate CO offset
    let settings = UefiSettings {
        available: true,
        curve_optimizer_offsets: Some(BTreeMap::from([(0, -15)])),
        ..Default::default()
    };
    let topology = build_test_topology();
    let results = build_test_cycle_results_stable();

    // WHEN: Generating report
    let report = StabilityReport::new(&results, &topology, Some(&settings));
    let output = report.generate().expect("report generation should succeed");

    // THEN: The CO annotation is shown without yellow warning color codes
    assert!(output.contains("CO offset: -15 (moderate)"));
    assert!(!output.contains(COLOR_YELLOW));
}

#[test]
fn given_no_uefi_data_when_formatting_then_no_co_annotation() {
    // GIVEN: No UEFI data
    let topology = build_test_topology();
    let results = build_test_cycle_results_stable();

    // WHEN: Generating report
    let report = StabilityReport::new(&results, &topology, None);
    let output = report.generate().expect("report generation should succeed");

    // THEN: No CO annotation is rendered
    assert!(!output.contains("CO offset"));
}

#[test]
fn given_stock_co_offset_when_formatting_then_shows_stock_label() {
    // GIVEN: A core with stock CO offset
    let settings = UefiSettings {
        available: true,
        curve_optimizer_offsets: Some(BTreeMap::from([(0, 0)])),
        ..Default::default()
    };
    let topology = build_test_topology();
    let results = build_test_cycle_results_stable();

    // WHEN: Generating report
    let report = StabilityReport::new(&results, &topology, Some(&settings));
    let output = report.generate().expect("report generation should succeed");

    // THEN: The stock label is shown
    assert!(output.contains("CO offset: 0 (stock)"));
}

#[test]
fn given_core_not_in_co_map_when_formatting_then_no_annotation() {
    // GIVEN: CO data exists for a different core only
    let settings = UefiSettings {
        available: true,
        curve_optimizer_offsets: Some(BTreeMap::from([(5, -20)])),
        ..Default::default()
    };
    let topology = build_test_topology();
    let results = build_test_cycle_results_stable();

    // WHEN: Generating report
    let report = StabilityReport::new(&results, &topology, Some(&settings));
    let output = report.generate().expect("report generation should succeed");

    // THEN: No CO annotation is shown for unmatched core IDs
    assert!(!output.contains("CO offset"));
}

#[test]
fn given_core_with_co_annotation_when_formatting_then_keeps_box_width() {
    // GIVEN: A core with a CO annotation line
    let settings = UefiSettings {
        available: true,
        curve_optimizer_offsets: Some(BTreeMap::from([(0, -15)])),
        ..Default::default()
    };
    let topology = build_test_topology();
    let results = build_test_cycle_results_stable();

    // WHEN: Generating report
    let report = StabilityReport::new(&results, &topology, Some(&settings));
    let output = report.generate().expect("report generation should succeed");
    let co_line = output
        .lines()
        .find(|line| line.contains("CO offset: -15 (moderate)"))
        .expect("CO annotation line should be present");

    // THEN: The box width remains aligned
    assert_eq!(visible_len(co_line), 66);
}

#[test]
fn given_empty_results_when_reporting_then_shows_no_data_message() {
    // GIVEN: Empty results
    let topology = build_test_topology();
    let results = CycleResults {
        results: Vec::new(),
        total_duration: 0,
        iterations_completed: 0,
        interrupted: false,
    };

    // WHEN: Generating report
    let report = StabilityReport::new(&results, &topology, None);
    let output = report.generate().expect("report generation should succeed");

    // THEN: Shows no data message
    assert!(output.contains("No test data available"));
    assert!(output.contains("RESULT: STABLE")); // No failures = stable
}

#[test]
fn given_single_iteration_when_dedup_then_returns_same_entries() {
    // GIVEN: 2 cores, 1 iteration each
    let topology = build_test_topology();
    let results = CycleResults {
        results: vec![
            CoreTestResult {
                core_id: 0,
                bios_index: 0,
                logical_cpu_ids: vec![0],
                status: CoreStatus::Passed,
                mprime_errors: Vec::new(),
                mce_errors: Vec::new(),
                duration_tested: 360,
                iterations_completed: 1,
            },
            CoreTestResult {
                core_id: 1,
                bios_index: 1,
                logical_cpu_ids: vec![1],
                status: CoreStatus::Passed,
                mprime_errors: Vec::new(),
                mce_errors: Vec::new(),
                duration_tested: 360,
                iterations_completed: 1,
            },
        ],
        total_duration: 720,
        iterations_completed: 1,
        interrupted: false,
    };
    // WHEN: Deduplicating
    let report = StabilityReport::new(&results, &topology, None);
    let deduped = report.deduplicate_results();
    // THEN: 2 entries, one per core
    assert_eq!(deduped.len(), 2);
    assert_eq!(deduped[0].core_id, 0);
    assert_eq!(deduped[1].core_id, 1);
}

#[test]
fn given_multi_iteration_passed_when_dedup_then_single_entry_per_core() {
    // GIVEN: Core 0 appears 3 times (all Passed, 3 iterations)
    let topology = build_test_topology();
    let results = CycleResults {
        results: vec![
            CoreTestResult {
                core_id: 0,
                bios_index: 0,
                logical_cpu_ids: vec![0],
                status: CoreStatus::Passed,
                mprime_errors: Vec::new(),
                mce_errors: Vec::new(),
                duration_tested: 360,
                iterations_completed: 3,
            },
            CoreTestResult {
                core_id: 0,
                bios_index: 0,
                logical_cpu_ids: vec![0],
                status: CoreStatus::Passed,
                mprime_errors: Vec::new(),
                mce_errors: Vec::new(),
                duration_tested: 360,
                iterations_completed: 3,
            },
            CoreTestResult {
                core_id: 0,
                bios_index: 0,
                logical_cpu_ids: vec![0],
                status: CoreStatus::Passed,
                mprime_errors: Vec::new(),
                mce_errors: Vec::new(),
                duration_tested: 360,
                iterations_completed: 3,
            },
        ],
        total_duration: 1080,
        iterations_completed: 3,
        interrupted: false,
    };
    // WHEN: Deduplicating
    let report = StabilityReport::new(&results, &topology, None);
    let deduped = report.deduplicate_results();
    // THEN: 1 entry with worst_status=Passed
    assert_eq!(deduped.len(), 1);
    assert_eq!(deduped[0].core_id, 0);
    assert_eq!(deduped[0].worst_status, CoreStatus::Passed);
    assert_eq!(deduped[0].total_iterations, 3);
}

#[test]
fn given_mixed_status_when_dedup_then_worst_wins() {
    // GIVEN: Core 1 appears 3x (Passed, Failed, Passed)
    let topology = build_test_topology();
    let error = MprimeError {
        error_type: MprimeErrorType::RoundoffError,
        message: "err".to_string(),
        fft_size: None,
        timestamp: None,
    };
    let results = CycleResults {
        results: vec![
            CoreTestResult {
                core_id: 1,
                bios_index: 1,
                logical_cpu_ids: vec![1],
                status: CoreStatus::Passed,
                mprime_errors: Vec::new(),
                mce_errors: Vec::new(),
                duration_tested: 360,
                iterations_completed: 1,
            },
            CoreTestResult {
                core_id: 1,
                bios_index: 1,
                logical_cpu_ids: vec![1],
                status: CoreStatus::Failed,
                mprime_errors: vec![error.clone()],
                mce_errors: Vec::new(),
                duration_tested: 120,
                iterations_completed: 2,
            },
            CoreTestResult {
                core_id: 1,
                bios_index: 1,
                logical_cpu_ids: vec![1],
                status: CoreStatus::Passed,
                mprime_errors: Vec::new(),
                mce_errors: Vec::new(),
                duration_tested: 360,
                iterations_completed: 3,
            },
        ],
        total_duration: 840,
        iterations_completed: 3,
        interrupted: false,
    };
    // WHEN: Deduplicating
    let report = StabilityReport::new(&results, &topology, None);
    let deduped = report.deduplicate_results();
    // THEN: 1 entry, worst_status=Failed, error collected
    assert_eq!(deduped.len(), 1);
    assert_eq!(deduped[0].worst_status, CoreStatus::Failed);
    assert_eq!(deduped[0].all_mprime_errors.len(), 1);
}

#[test]
fn given_all_skipped_when_dedup_then_omitted() {
    // GIVEN: Core 2 appears 2x (both Skipped)
    let topology = build_test_topology();
    let results = CycleResults {
        results: vec![
            CoreTestResult {
                core_id: 2,
                bios_index: 2,
                logical_cpu_ids: vec![2],
                status: CoreStatus::Skipped,
                mprime_errors: Vec::new(),
                mce_errors: Vec::new(),
                duration_tested: 0,
                iterations_completed: 0,
            },
            CoreTestResult {
                core_id: 2,
                bios_index: 2,
                logical_cpu_ids: vec![2],
                status: CoreStatus::Skipped,
                mprime_errors: Vec::new(),
                mce_errors: Vec::new(),
                duration_tested: 0,
                iterations_completed: 0,
            },
        ],
        total_duration: 0,
        iterations_completed: 2,
        interrupted: false,
    };
    // WHEN: Deduplicating
    let report = StabilityReport::new(&results, &topology, None);
    let deduped = report.deduplicate_results();
    // THEN: Empty — skipped core is omitted
    assert!(deduped.is_empty());
}

#[test]
fn given_errors_across_iterations_when_dedup_then_all_collected() {
    // GIVEN: Core 0: iteration 1 has 1 mprime error, iteration 2 has 1 MCE error
    let topology = build_test_topology();
    let mprime_err = MprimeError {
        error_type: MprimeErrorType::RoundoffError,
        message: "ROUND OFF".to_string(),
        fft_size: Some(1344),
        timestamp: None,
    };
    let mce_err = MceError {
        cpu_id: 0,
        bank: Some(5),
        error_type: MceErrorType::MachineCheck,
        message: "MCE".to_string(),
        timestamp: "123".to_string(),
        apic_id: None,
    };
    let results = CycleResults {
        results: vec![
            CoreTestResult {
                core_id: 0,
                bios_index: 0,
                logical_cpu_ids: vec![0],
                status: CoreStatus::Failed,
                mprime_errors: vec![mprime_err.clone()],
                mce_errors: Vec::new(),
                duration_tested: 120,
                iterations_completed: 1,
            },
            CoreTestResult {
                core_id: 0,
                bios_index: 0,
                logical_cpu_ids: vec![0],
                status: CoreStatus::Failed,
                mprime_errors: Vec::new(),
                mce_errors: vec![mce_err.clone()],
                duration_tested: 120,
                iterations_completed: 2,
            },
        ],
        total_duration: 240,
        iterations_completed: 2,
        interrupted: false,
    };
    // WHEN: Deduplicating
    let report = StabilityReport::new(&results, &topology, None);
    let deduped = report.deduplicate_results();
    // THEN: Both errors collected
    assert_eq!(deduped.len(), 1);
    assert_eq!(deduped[0].all_mprime_errors.len(), 1);
    assert_eq!(deduped[0].all_mce_errors.len(), 1);
}

#[test]
fn given_interrupted_and_passed_when_dedup_then_interrupted_wins() {
    // GIVEN: Core 0 appears 2x (Passed, Interrupted)
    let topology = build_test_topology();
    let results = CycleResults {
        results: vec![
            CoreTestResult {
                core_id: 0,
                bios_index: 0,
                logical_cpu_ids: vec![0],
                status: CoreStatus::Passed,
                mprime_errors: Vec::new(),
                mce_errors: Vec::new(),
                duration_tested: 360,
                iterations_completed: 1,
            },
            CoreTestResult {
                core_id: 0,
                bios_index: 0,
                logical_cpu_ids: vec![0],
                status: CoreStatus::Interrupted,
                mprime_errors: Vec::new(),
                mce_errors: Vec::new(),
                duration_tested: 60,
                iterations_completed: 1,
            },
        ],
        total_duration: 420,
        iterations_completed: 1,
        interrupted: true,
    };
    // WHEN: Deduplicating
    let report = StabilityReport::new(&results, &topology, None);
    let deduped = report.deduplicate_results();
    // THEN: worst_status=Interrupted
    assert_eq!(deduped.len(), 1);
    assert_eq!(deduped[0].worst_status, CoreStatus::Interrupted);
}

#[test]
fn given_multi_iteration_results_when_generating_then_each_core_appears_once() {
    // GIVEN: 2 cores × 2 iterations (4 total entries)
    let topology = build_test_topology();
    let results = CycleResults {
        results: vec![
            CoreTestResult {
                core_id: 0,
                bios_index: 0,
                logical_cpu_ids: vec![0],
                status: CoreStatus::Passed,
                mprime_errors: Vec::new(),
                mce_errors: Vec::new(),
                duration_tested: 360,
                iterations_completed: 2,
            },
            CoreTestResult {
                core_id: 1,
                bios_index: 1,
                logical_cpu_ids: vec![1],
                status: CoreStatus::Passed,
                mprime_errors: Vec::new(),
                mce_errors: Vec::new(),
                duration_tested: 360,
                iterations_completed: 2,
            },
            CoreTestResult {
                core_id: 0,
                bios_index: 0,
                logical_cpu_ids: vec![0],
                status: CoreStatus::Passed,
                mprime_errors: Vec::new(),
                mce_errors: Vec::new(),
                duration_tested: 360,
                iterations_completed: 2,
            },
            CoreTestResult {
                core_id: 1,
                bios_index: 1,
                logical_cpu_ids: vec![1],
                status: CoreStatus::Passed,
                mprime_errors: Vec::new(),
                mce_errors: Vec::new(),
                duration_tested: 360,
                iterations_completed: 2,
            },
        ],
        total_duration: 1440,
        iterations_completed: 2,
        interrupted: false,
    };

    // WHEN: Generating report
    let report = StabilityReport::new(&results, &topology, None);
    let output = report.generate().expect("report generation should succeed");

    // THEN: Each core appears exactly once
    let core0_count = output.matches("Core  0:").count();
    let core1_count = output.matches("Core  1:").count();
    assert_eq!(core0_count, 1, "Core 0 should appear exactly once");
    assert_eq!(core1_count, 1, "Core 1 should appear exactly once");
}

#[test]
fn given_failed_core_across_iterations_when_generating_then_result_line_no_duplicates() {
    // GIVEN: Core 1 fails in 2 iterations
    let topology = build_test_topology();
    let results = CycleResults {
        results: vec![
            CoreTestResult {
                core_id: 1,
                bios_index: 1,
                logical_cpu_ids: vec![1],
                status: CoreStatus::Failed,
                mprime_errors: Vec::new(),
                mce_errors: Vec::new(),
                duration_tested: 120,
                iterations_completed: 1,
            },
            CoreTestResult {
                core_id: 1,
                bios_index: 1,
                logical_cpu_ids: vec![1],
                status: CoreStatus::Failed,
                mprime_errors: Vec::new(),
                mce_errors: Vec::new(),
                duration_tested: 120,
                iterations_completed: 2,
            },
        ],
        total_duration: 240,
        iterations_completed: 2,
        interrupted: false,
    };

    // WHEN: Generating report
    let report = StabilityReport::new(&results, &topology, None);
    let output = report.generate().expect("report generation should succeed");

    // THEN: RESULT line has no duplicate core IDs
    assert!(
        output.contains("RESULT: UNSTABLE cores=1\n"),
        "should have 'cores=1' not 'cores=1,1'"
    );
    assert!(
        !output.contains("cores=1,1"),
        "duplicate core IDs must not appear"
    );
}

#[test]
fn given_skipped_core_when_generating_then_omitted_from_report() {
    // GIVEN: One passed core, one skipped core
    let topology = build_test_topology();
    let results = CycleResults {
        results: vec![
            CoreTestResult {
                core_id: 0,
                bios_index: 0,
                logical_cpu_ids: vec![0],
                status: CoreStatus::Passed,
                mprime_errors: Vec::new(),
                mce_errors: Vec::new(),
                duration_tested: 360,
                iterations_completed: 1,
            },
            CoreTestResult {
                core_id: 2,
                bios_index: 2,
                logical_cpu_ids: vec![2],
                status: CoreStatus::Skipped,
                mprime_errors: Vec::new(),
                mce_errors: Vec::new(),
                duration_tested: 0,
                iterations_completed: 0,
            },
        ],
        total_duration: 360,
        iterations_completed: 1,
        interrupted: false,
    };

    // WHEN: Generating report
    let report = StabilityReport::new(&results, &topology, None);
    let output = report.generate().expect("report generation should succeed");

    // THEN: Skipped core does not appear in report
    assert!(output.contains("Core  0:"), "passed core should be present");
    assert!(
        !output.contains("Core  2:"),
        "skipped core should be omitted"
    );
}

#[test]
fn given_uefi_available_when_generating_then_header_contains_pbo_and_limits() {
    // GIVEN: Full UEFI data
    let settings = UefiSettings {
        available: true,
        pbo_status: Some("Enabled".to_string()),
        pbo_limits: Some(PboLimits {
            ppt_limit: Some("142W".to_string()),
            tdc_limit: Some("95A".to_string()),
            edc_limit: Some("180A".to_string()),
        }),
        agesa_version: Some("1.2.0.7".to_string()),
        ..Default::default()
    };
    let results = build_test_cycle_results_stable();
    let topology = build_test_topology();

    // WHEN: Generating report
    let report = StabilityReport::new(&results, &topology, Some(&settings));
    let output = report.generate().expect("report generation should succeed");

    // THEN: PBO, Limits, AGESA in header before core lines
    let pbo_idx = output
        .find("PBO Status: Enabled")
        .expect("PBO Status in output");
    let core_idx = output.find("Core  0:").expect("Core 0 in output");
    assert!(
        pbo_idx < core_idx,
        "PBO should appear before core lines (in header)"
    );
    assert!(
        output.contains("PPT: 142W | TDC: 95A | EDC: 180A"),
        "limits present"
    );
    assert!(output.contains("AGESA Version: 1.2.0.7"), "AGESA present");
    assert!(
        !output.contains("UEFI/BIOS Settings"),
        "no old UEFI section title"
    );
    assert!(
        !output.contains("Curve Optimizer Offsets:"),
        "no bulk CO table"
    );
}

#[test]
fn given_uefi_unavailable_when_generating_then_header_shows_unavailable() {
    // GIVEN: Unavailable UEFI settings
    let settings = UefiSettings::unavailable("permission denied".to_string());
    let results = build_test_cycle_results_stable();
    let topology = build_test_topology();

    // WHEN: Generating report
    let report = StabilityReport::new(&results, &topology, Some(&settings));
    let output = report.generate().expect("report generation should succeed");

    // THEN: Header shows unavailable notice (new format)
    assert!(
        output.contains("PBO: ⚠ unavailable (run as root)"),
        "new unavailable notice"
    );
    assert!(
        !output.contains("⚠ UEFI Settings: Unavailable"),
        "old format gone"
    );
    assert!(
        !output.contains("Run as root for UEFI/BIOS settings"),
        "old hint gone"
    );
}

#[test]
fn given_multi_iteration_errors_when_generating_then_all_errors_shown() {
    // GIVEN: Core 0 iteration 1 has mprime error, iteration 2 has MCE error
    let topology = build_test_topology();
    let results = CycleResults {
        results: vec![
            CoreTestResult {
                core_id: 0,
                bios_index: 0,
                logical_cpu_ids: vec![0],
                status: CoreStatus::Failed,
                mprime_errors: vec![MprimeError {
                    error_type: MprimeErrorType::RoundoffError,
                    message: "ROUND OFF".to_string(),
                    fft_size: Some(1344),
                    timestamp: None,
                }],
                mce_errors: Vec::new(),
                duration_tested: 120,
                iterations_completed: 1,
            },
            CoreTestResult {
                core_id: 0,
                bios_index: 0,
                logical_cpu_ids: vec![0],
                status: CoreStatus::Failed,
                mprime_errors: Vec::new(),
                mce_errors: vec![MceError {
                    cpu_id: 0,
                    bank: Some(5),
                    error_type: MceErrorType::MachineCheck,
                    message: "MCE".to_string(),
                    timestamp: "123".to_string(),
                    apic_id: None,
                }],
                duration_tested: 120,
                iterations_completed: 2,
            },
        ],
        total_duration: 240,
        iterations_completed: 2,
        interrupted: false,
    };

    // WHEN: Generating report
    let report = StabilityReport::new(&results, &topology, None);
    let output = report.generate().expect("report generation should succeed");

    // THEN: Both errors shown under Core 0 (appears once)
    let core0_count = output.matches("Core  0:").count();
    assert_eq!(core0_count, 1, "Core 0 appears once");
    assert!(output.contains("mprime: ROUNDOFF"), "mprime error present");
    assert!(output.contains("MCE: Machine Check"), "MCE error present");
}

#[test]
fn report_numbers_cores_by_bios_index() {
    // Physical core 8 is BIOS core 6 on a part with a gap between chiplets.
    let topology = build_test_topology();
    let results = CycleResults {
        results: vec![CoreTestResult {
            core_id: 8,
            bios_index: 6,
            logical_cpu_ids: vec![8],
            status: CoreStatus::Failed,
            mprime_errors: Vec::new(),
            mce_errors: Vec::new(),
            duration_tested: 60,
            iterations_completed: 1,
        }],
        total_duration: 60,
        iterations_completed: 1,
        interrupted: false,
    };
    let report = StabilityReport::new(&results, &topology, None);
    assert_eq!(report.generate_result_line(), "RESULT: UNSTABLE cores=6\n");
    let text = report.generate_with_colors(false);
    assert!(text.contains("Core  6"), "{text}");
    assert!(!text.contains("Core  8"), "{text}");
}
