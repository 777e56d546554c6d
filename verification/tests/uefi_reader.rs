use std::collections::BTreeMap;
use core_probe::uefi_reader::{
    detect_escalation_method, extract_core_id, merge_aod_co_into_settings, parse_hii_questions,
    EscalationMethod, UefiSettings,
};
use core_probe::hii_question::HiiQuestion;

fn build_question(name: &str, answer: &str, help: &str) -> HiiQuestion {
    HiiQuestion {
        name: name.to_string(),
        answer: answer.to_string(),
        help: help.to_string(),
    }
}

fn build_test_questions() -> Vec<HiiQuestion> {
    vec![
        build_question(
            "Precision Boost Overdrive",
            "Enabled",
            "PBO control setting",
        ),
        build_question("PPT Limit", "142", "Platform Power Throttle limit in watts"),
        build_question("TDC Limit", "95", "Thermal Design Current limit in amps"),
        build_question(
            "EDC Limit",
            "140",
            "Electrical Design Current limit in amps",
        ),
        build_question(
            "Core 0 Curve Optimizer Offset",
            "-15",
            "Per core curve optimizer offset",
        ),
        build_question(
            "Core 1 Curve Optimizer Offset",
            "-10",
            "Per core curve optimizer offset",
        ),
        build_question(
            "Core 5 Curve Optimizer Offset",
            "-20",
            "Per core curve optimizer offset",
        ),
        build_question("AGESA Version", "1.2.0.7", "AGESA firmware version string"),
        build_question("CBS Debug Options", "Auto", "AMD CBS debug configuration"),
        build_question(
            "Boot Option #1",
            "UEFI OS",
            "First boot device in boot order",
        ),
    ]
}

#[test]
fn given_unavailable_reason_when_creating_then_stores_reason() {
    let settings = UefiSettings::unavailable("test reason".to_string());

    assert_eq!(settings.available, false);
    assert_eq!(settings.unavailable_reason, Some("test reason".to_string()));
}

#[test]
fn given_default_settings_when_checking_then_not_available() {
    let settings = UefiSettings::default();

    assert_eq!(settings.available, false);
}

#[test]
fn given_pbo_status_set_when_checking_then_returns_value() {
    let settings = UefiSettings {
        available: true,
        pbo_status: Some("Enabled".to_string()),
        ..Default::default()
    };

    assert_eq!(settings.pbo_status, Some("Enabled".to_string()));
}

#[test]
fn given_root_user_when_detecting_escalation_then_returns_already_root() {
    assert_eq!(
        detect_escalation_method(true, false),
        EscalationMethod::AlreadyRoot
    );
    assert_eq!(
        detect_escalation_method(true, true),
        EscalationMethod::AlreadyRoot
    );
}

#[test]
fn given_non_root_with_pkexec_when_detecting_then_returns_pkexec() {
    assert_eq!(
        detect_escalation_method(false, true),
        EscalationMethod::Pkexec
    );
}

#[test]
fn given_non_root_no_pkexec_when_detecting_then_returns_unavailable() {
    let result = detect_escalation_method(false, false);
    assert!(matches!(result, EscalationMethod::Unavailable { .. }));
    if let EscalationMethod::Unavailable { reason } = result {
        assert!(!reason.is_empty());
    }
}

#[test]
fn given_unavailable_method_when_attempting_uefi_read_then_returns_unavailable_settings() {
    let method = EscalationMethod::Unavailable {
        reason: "test".to_string(),
    };
    let settings = match method {
        EscalationMethod::Unavailable { reason } => UefiSettings::unavailable(reason),
        _ => panic!("unexpected"),
    };
    assert!(!settings.available);
    assert!(settings.unavailable_reason.is_some());
}
#[test]
fn given_hii_questions_with_pbo_enabled_when_parsing_then_extracts_pbo_status() {
    let questions = build_test_questions();

    let settings = parse_hii_questions(&questions);

    assert!(settings.available);
    assert_eq!(settings.pbo_status, Some("Enabled".to_string()));
}

#[test]
fn given_hii_questions_with_co_offsets_when_parsing_then_populates_btreemap() {
    let questions = build_test_questions();

    let settings = parse_hii_questions(&questions);

    let co = settings
        .curve_optimizer_offsets
        .expect("CO offsets should be populated");
    assert_eq!(co.len(), 3);
    assert_eq!(co[&0], -15);
    assert_eq!(co[&1], -10);
    assert_eq!(co[&5], -20);
}

#[test]
fn given_hii_questions_with_agesa_when_parsing_then_extracts_version() {
    let questions = build_test_questions();

    let settings = parse_hii_questions(&questions);

    assert_eq!(settings.agesa_version, Some("1.2.0.7".to_string()));
}

#[test]
fn given_hii_questions_with_no_amd_settings_when_parsing_then_returns_empty_raw() {
    let questions = vec![
        build_question("Boot Option #1", "UEFI OS", "First boot device"),
        build_question("Secure Boot", "Enabled", "Enable secure boot"),
        build_question("CSM Support", "Disabled", "Compatibility support module"),
    ];

    let settings = parse_hii_questions(&questions);

    assert!(!settings.available);
    assert!(settings.raw_settings.is_empty());
    assert!(settings.pbo_status.is_none());
    assert!(settings.curve_optimizer_offsets.is_none());
    assert!(settings.agesa_version.is_none());
}

#[test]
fn given_extract_db_fails_when_reading_then_returns_unavailable() {
    let err: Result<UefiSettings, String> =
        Err("Failed to extract HII database: permission denied".to_string());

    let settings =
        err.unwrap_or_else(|e| UefiSettings::unavailable(format!("UEFI reading failed: {e}")));

    assert!(!settings.available);
    assert!(settings
        .unavailable_reason
        .as_deref()
        .unwrap_or("")
        .contains("UEFI reading failed"));
    assert!(settings
        .unavailable_reason
        .as_deref()
        .unwrap_or("")
        .contains("permission denied"));
}

#[test]
fn given_mixed_case_keywords_when_searching_then_matches_case_insensitive() {
    let questions = vec![
        build_question(
            "PRECISION BOOST OVERDRIVE",
            "Disabled",
            "PBO control SETTING",
        ),
        build_question("cOrE 3 cUrVe OpTiMiZeR", "-5", "per CORE offset adjustment"),
        build_question("Agesa VERSION", "1.0.0.4", "agesa firmware"),
        build_question("PPT LIMIT", "200", "power limit"),
    ];

    let settings = parse_hii_questions(&questions);

    assert!(settings.available);
    assert_eq!(settings.pbo_status, Some("Disabled".to_string()));
    assert_eq!(settings.agesa_version, Some("1.0.0.4".to_string()));

    let co = settings
        .curve_optimizer_offsets
        .expect("CO offsets should be populated");
    assert_eq!(co[&3], -5);

    let limits = settings.pbo_limits.expect("limits should exist");
    assert_eq!(limits.ppt_limit, Some("200".to_string()));
}

#[test]
fn given_hii_questions_with_pbo_limits_when_parsing_then_extracts_all_three() {
    let questions = build_test_questions();

    let settings = parse_hii_questions(&questions);

    let limits = settings.pbo_limits.expect("PBO limits should be populated");
    assert_eq!(limits.ppt_limit, Some("142".to_string()));
    assert_eq!(limits.tdc_limit, Some("95".to_string()));
    assert_eq!(limits.edc_limit, Some("140".to_string()));
}

#[test]
fn given_hii_questions_with_cbs_when_parsing_then_includes_in_raw() {
    let questions = vec![build_question(
        "CBS Debug Options",
        "Auto",
        "AMD CBS debug configuration",
    )];

    let settings = parse_hii_questions(&questions);

    assert!(settings.available);
    assert!(settings
        .raw_settings
        .iter()
        .any(|(name, _)| name == "CBS Debug Options"));
}

#[test]
fn given_core_name_with_digits_when_extracting_id_then_parses_correctly() {
    assert_eq!(extract_core_id("Core 0 Curve Optimizer"), Some(0));
    assert_eq!(extract_core_id("Core 12 CO Offset"), Some(12));
    assert_eq!(extract_core_id("Per Core 5 Setting"), Some(5));
    assert_eq!(extract_core_id("No digits here core"), None);
    assert_eq!(extract_core_id("PPT Limit 200"), None);
}

// ── Integration / pipeline tests ──

use core_probe::coordinator::{CoreStatus, CoreTestResult, CycleResults};
use core_probe::cpu_topology::CpuTopology;
use core_probe::report::StabilityReport;

fn build_test_topology() -> CpuTopology {
    CpuTopology {
        vendor: "AuthenticAMD".to_string(),
        model_name: "AMD Ryzen 9 5900X".to_string(),
        physical_core_count: 2,
        logical_cpu_count: 2,
        core_map: BTreeMap::from([(0, vec![0]), (1, vec![1])]),
        bios_map: BTreeMap::from([(0, 0), (1, 1)]),
        physical_map: BTreeMap::from([(0, 0), (1, 1)]),
        cpu_brand: None,
        cpu_frequency_mhz: None,
    }
}

#[test]
fn given_non_root_no_pkexec_when_reading_then_report_shows_unavailable_notice() {
    // GIVEN: Non-root, no pkexec → unavailable UefiSettings
    let uefi = UefiSettings::unavailable(
        "Root access required for UEFI settings. Run with sudo or install polkit (pkexec)."
            .to_string(),
    );
    let topology = build_test_topology();
    let results = CycleResults {
        results: vec![CoreTestResult {
            core_id: 0,
            bios_index: 0,
            logical_cpu_ids: vec![0],
            status: CoreStatus::Passed,
            mprime_errors: Vec::new(),
            mce_errors: Vec::new(),
            duration_tested: 360,
            iterations_completed: 1,
        }],
        total_duration: 360,
        iterations_completed: 1,
        interrupted: false,
    };

    // WHEN: Generate full report
    let report = StabilityReport::new(&results, &topology, Some(&uefi));
    let output = report.generate().expect("report generation should succeed");

    // THEN: Unavailable notice present, full report structure intact
    assert!(
        output.contains("PBO: ⚠ unavailable (run as root)"),
        "should contain new unavailable notice in header"
    );
    assert!(output.contains("RESULT:"), "should contain RESULT line");
    assert!(
        output.contains("CPU Stability Report"),
        "should contain report header"
    );
    assert!(output.contains('╚'), "should contain footer box-drawing");
    assert!(
        !output.contains("UEFI/BIOS Settings"),
        "should NOT contain the available UEFI section title"
    );
}

#[test]
fn given_full_uefi_data_when_generating_report_then_shows_header_uefi_and_co_annotations() {
    // GIVEN: Full UEFI data with PBO, CO for 2 cores, AGESA
    let uefi = UefiSettings {
        available: true,
        unavailable_reason: None,
        pbo_status: Some("Enabled".to_string()),
        pbo_limits: None,
        curve_optimizer_offsets: Some(BTreeMap::from([(0, -25), (1, -10)])),
        agesa_version: Some("1.2.0.7".to_string()),
        raw_settings: vec![("PBO".to_string(), "Enabled".to_string())],
    };
    let topology = build_test_topology();
    // One failed core (0) and one passed core (1)
    let results = CycleResults {
        results: vec![
            CoreTestResult {
                core_id: 0,
                bios_index: 0,
                logical_cpu_ids: vec![0],
                status: CoreStatus::Failed,
                mprime_errors: Vec::new(),
                mce_errors: Vec::new(),
                duration_tested: 120,
                iterations_completed: 1,
            },
            CoreTestResult {
                core_id: 1,
                bios_index: 1,
                logical_cpu_ids: vec![1],
                status: CoreStatus::Passed,
                mprime_errors: Vec::new(),
                mce_errors: Vec::new(),
                duration_tested: 360,
                iterations_completed: 1,
            },
        ],
        total_duration: 480,
        iterations_completed: 1,
        interrupted: false,
    };

    // WHEN: Generate full report
    let report = StabilityReport::new(&results, &topology, Some(&uefi));
    let output = report.generate().expect("report generation should succeed");

    // THEN: UEFI section present with PBO + AGESA
    assert!(
        output.contains("PBO Status: Enabled"),
        "should show PBO status"
    );
    assert!(
        output.contains("AGESA Version: 1.2.0.7"),
        "should show AGESA version"
    );

    // CO annotation on failed core 0 (aggressive, -25)
    assert!(
        output.contains("CO offset: -25 (aggressive)"),
        "failed core 0 should have CO annotation"
    );
    // CO annotation on passed core 1 (moderate, -10)
    assert!(
        output.contains("CO offset: -10 (moderate)"),
        "passed core 1 should have CO annotation"
    );
}

#[test]
fn given_partial_uefi_data_when_generating_report_then_shows_pbo_without_co_section() {
    // GIVEN: Partial UEFI — only pbo_status, no CO offsets
    let uefi = UefiSettings {
        available: true,
        unavailable_reason: None,
        pbo_status: Some("Auto".to_string()),
        pbo_limits: None,
        curve_optimizer_offsets: None,
        agesa_version: None,
        raw_settings: vec![("PBO".to_string(), "Auto".to_string())],
    };
    let topology = build_test_topology();
    let results = CycleResults {
        results: vec![CoreTestResult {
            core_id: 0,
            bios_index: 0,
            logical_cpu_ids: vec![0],
            status: CoreStatus::Passed,
            mprime_errors: Vec::new(),
            mce_errors: Vec::new(),
            duration_tested: 360,
            iterations_completed: 1,
        }],
        total_duration: 360,
        iterations_completed: 1,
        interrupted: false,
    };

    // WHEN: Generate full report
    let report = StabilityReport::new(&results, &topology, Some(&uefi));
    let output = report.generate().expect("report generation should succeed");

    // THEN: PBO shown but no CO section, no panic
    assert!(
        output.contains("PBO Status: Auto"),
        "should show PBO status"
    );
    assert!(
        !output.contains("Curve Optimizer Offsets:"),
        "should NOT show CO section header"
    );
    assert!(
        !output.contains("CO offset:"),
        "should NOT show per-core CO annotation"
    );
}

#[test]
fn given_agesa_in_question_name_with_colon_when_parsing_then_extracts_version() {
    let questions = vec![build_question(
        "AGESA Version : ComboAm4v2PI 1.2.0.7",
        "",
        "",
    )];

    let settings = parse_hii_questions(&questions);

    assert_eq!(
        settings.agesa_version,
        Some("ComboAm4v2PI 1.2.0.7".to_string())
    );
}

#[test]
fn given_agesa_in_answer_when_parsing_then_uses_answer() {
    let questions = vec![build_question("AGESA", "1.2.0.7", "")];

    let settings = parse_hii_questions(&questions);

    assert_eq!(settings.agesa_version, Some("1.2.0.7".to_string()));
}

#[test]
fn given_agesa_in_help_text_when_parsing_then_extracts_from_help() {
    let questions = vec![build_question(
        "AgesaVersion",
        "",
        "Version : ComboAm4v2PI 1.2.0.7",
    )];

    let settings = parse_hii_questions(&questions);

    assert_eq!(
        settings.agesa_version,
        Some("ComboAm4v2PI 1.2.0.7".to_string())
    );
}

#[test]
fn given_agesa_name_without_separator_when_parsing_then_uses_full_name() {
    let questions = vec![build_question("AGESA ComboAm4v2PI", "", "")];

    let settings = parse_hii_questions(&questions);

    assert_eq!(settings.agesa_version, None);
}

#[test]
fn given_agesa_auto_before_colon_name_when_parsing_then_uses_colon_version() {
    let questions = vec![
        build_question("AGESA Version", "Auto", ""),
        build_question("AGESA Version : ComboAm4v2PI 1207", "", ""),
    ];

    let settings = parse_hii_questions(&questions);

    assert_eq!(
        settings.agesa_version,
        Some("ComboAm4v2PI 1207".to_string())
    );
}

#[test]
fn given_pbo_limits_mode_only_when_parsing_then_populates_limits_with_mode() {
    let questions = vec![build_question("PBO Limits", "Auto", "")];

    let settings = parse_hii_questions(&questions);

    let limits = settings.pbo_limits.expect("pbo_limits should be present");
    assert_eq!(limits.ppt_limit, Some("Auto".to_string()));
    assert_eq!(limits.tdc_limit, None);
    assert_eq!(limits.edc_limit, None);
}

#[test]
fn given_curve_optimizer_present_but_no_per_core_values_when_parsing_then_returns_empty_map() {
    let questions = vec![build_question("Curve Optimizer", "Disabled", "")];

    let settings = parse_hii_questions(&questions);

    let offsets = settings
        .curve_optimizer_offsets
        .expect("curve_optimizer_offsets should be present");
    assert!(offsets.is_empty());
}

// ── AOD CO merge tests ──

#[test]
fn given_aod_co_with_values_when_merging_then_replaces_empty_settings() {
    let mut settings = UefiSettings {
        curve_optimizer_offsets: None,
        ..Default::default()
    };
    let aod_co = Some(BTreeMap::from([(0u32, -15i32), (2u32, -30i32)]));

    merge_aod_co_into_settings(&mut settings, aod_co);

    assert_eq!(
        settings.curve_optimizer_offsets,
        Some(BTreeMap::from([(0, -15), (2, -30)]))
    );
}

#[test]
fn given_aod_co_with_values_when_merging_then_replaces_ifr_values() {
    let mut settings = UefiSettings {
        curve_optimizer_offsets: Some(BTreeMap::new()),
        ..Default::default()
    };
    let aod_co = Some(BTreeMap::from([(0u32, -15i32)]));

    merge_aod_co_into_settings(&mut settings, aod_co);

    assert_eq!(
        settings.curve_optimizer_offsets,
        Some(BTreeMap::from([(0, -15)]))
    );
}

#[test]
fn given_aod_co_none_when_merging_then_preserves_existing() {
    let mut settings = UefiSettings {
        curve_optimizer_offsets: Some(BTreeMap::from([(0u32, -10i32)])),
        ..Default::default()
    };

    merge_aod_co_into_settings(&mut settings, None);

    assert_eq!(
        settings.curve_optimizer_offsets,
        Some(BTreeMap::from([(0, -10)]))
    );
}

#[test]
fn given_aod_co_empty_map_when_merging_then_sets_empty() {
    let mut settings = UefiSettings {
        curve_optimizer_offsets: Some(BTreeMap::from([(0u32, -15i32)])),
        ..Default::default()
    };
    let aod_co = Some(BTreeMap::new());

    merge_aod_co_into_settings(&mut settings, aod_co);

    assert_eq!(settings.curve_optimizer_offsets, Some(BTreeMap::new()));
}

