use std::collections::BTreeMap;

use core_probe::coordinator::{CoreStatus, CoreTestResult};
use core_probe::error_parser::{MprimeError, MprimeErrorType};
use core_probe::gui::{
    append_log, build_completion_notification, process_event, update, ConfigField, CoreProbeApp,
    CoreResultInfo, Message, PerCoreProgress, TestConfig, TestProgress,
};
use core_probe::gui_events::{LogLevel, TestEvent};
use core_probe::gui_theme::{theme_from_sources, ThemeMode};
use core_probe::mprime_config::StressTestMode;

/// The desktop preference used by these tests: what the theme detection
/// gives when neither gsettings nor GTK_THEME answers.
const SYSTEM: ThemeMode = ThemeMode::Dark;

fn make_app() -> CoreProbeApp {
    CoreProbeApp {
        topology: None,
        uefi_settings: None,
        core_statuses: BTreeMap::new(),
        core_progress: BTreeMap::new(),
        core_results: BTreeMap::new(),
        log_entries: Vec::new(),
        theme_mode: ThemeMode::Dark,
        config: TestConfig::default(),
        test_running: false,
        progress: TestProgress::default(),
        error_banner: None,
        receiving: false,
        extracted_binaries: None,
    }
}

#[test]
fn system_preference_without_sources_is_dark() {
    assert_eq!(theme_from_sources(None, None), SYSTEM);
}

/// BDD: Given app with error banner, when DismissError, then error_banner cleared
#[test]
fn given_error_banner_when_dismiss_then_cleared() {
    let mut app = make_app();
    app.error_banner = Some(String::from("test error"));
    let _ = update(&mut app, Message::DismissError, SYSTEM, 0);
    assert!(app.error_banner.is_none());
}

/// BDD: Given config, when ConfigChanged(Duration), then config.duration updated
#[test]
fn given_config_when_duration_changed_then_config_updated() {
    let mut app = make_app();
    let _ = update(&mut app, Message::ConfigChanged(ConfigField::Duration(String::from("10m"))), SYSTEM, 0);
    assert_eq!(app.config.duration, "10m");
}

/// BDD: Given config, when ConfigChanged(Iterations), then config.iterations updated
#[test]
fn given_config_when_iterations_changed_then_config_updated() {
    let mut app = make_app();
    let _ = update(&mut app, Message::ConfigChanged(ConfigField::Iterations(5)), SYSTEM, 0);
    assert_eq!(app.config.iterations, 5);
}

/// BDD: Given dark theme, when ThemeToggle twice, then toggles Dark→Light→Dark
#[test]
fn given_dark_theme_when_toggled_then_switches_between_light_and_dark() {
    let mut app = make_app();
    app.theme_mode = ThemeMode::Dark;
    let _ = update(&mut app, Message::ThemeToggle, SYSTEM, 0);
    assert!(matches!(app.theme_mode, ThemeMode::Light));
    let _ = update(&mut app, Message::ThemeToggle, SYSTEM, 0);
    assert!(matches!(app.theme_mode, ThemeMode::Dark));
}

/// BDD: Given system theme mode, when ThemeToggle, then switches to explicit opposite of effective theme
#[test]
fn given_system_theme_when_toggled_then_switches_to_explicit_opposite_mode() {
    let mut app = make_app();
    app.theme_mode = ThemeMode::System;

    let was_dark = app.is_dark(SYSTEM);
    let _ = update(&mut app, Message::ThemeToggle, SYSTEM, 0);

    if was_dark {
        assert!(matches!(app.theme_mode, ThemeMode::Light));
    } else {
        assert!(matches!(app.theme_mode, ThemeMode::Dark));
    }
}

/// BDD: Given LogMessage event, when processed, then log entry appended with correct message
#[test]
fn given_log_message_event_when_processed_then_appended() {
    let mut app = make_app();
    process_event(&mut app, TestEvent::LogMessage {
            level: LogLevel::Default,
            message: String::from("hello"),
        }, 0);
    assert_eq!(app.log_entries.len(), 1);
    assert_eq!(app.log_entries[0].message, "hello");
}

/// BDD: Given 1001 log entries, when one more appended, then capped at 1000
#[test]
fn given_1001_log_entries_when_appended_then_capped_at_1000() {
    let mut app = make_app();
    for i in 0..1001 {
        append_log(&mut app.log_entries, LogLevel::Default, format!("msg {i}"), 0);
    }
    assert_eq!(app.log_entries.len(), 1000);
}

/// BDD: Given CoreTestCompleted event with Passed, when processed, then core status updated
#[test]
fn given_core_test_completed_passed_when_processed_then_status_updated() {
    let mut app = make_app();
    app.core_statuses.insert(0, CoreStatus::Testing);

    let result = CoreTestResult {
        core_id: 0,
        bios_index: 0,
        logical_cpu_ids: vec![0, 1],
        status: CoreStatus::Passed,
        mprime_errors: Vec::new(),
        mce_errors: Vec::new(),
        duration_tested: 360,
        iterations_completed: 3,
    };
    process_event(&mut app, TestEvent::CoreTestCompleted { result }, 0);
    assert_eq!(*app.core_statuses.get(&0).unwrap(), CoreStatus::Passed);
}

/// BDD: Given TestStarted event, when processed, then progress.total_cores set
#[test]
fn given_test_started_event_when_processed_then_total_cores_set() {
    let mut app = make_app();
    process_event(&mut app, TestEvent::TestStarted { total_cores: 12 }, 0);
    assert_eq!(app.progress.total_cores, 12);
    assert_eq!(app.progress.cores_completed, 0);
    assert!(app.progress.current_core.is_none());
}

/// BDD: Given CoreTestStarting event, when processed, then core status set to Testing
#[test]
fn given_core_test_starting_when_processed_then_core_status_testing() {
    let mut app = make_app();
    app.core_statuses.insert(5, CoreStatus::Idle);
    process_event(&mut app, TestEvent::CoreTestStarting {
            physical_core_id: 5,
            bios_index: 5,
            iteration: 1,
        }, 0);
    assert_eq!(*app.core_statuses.get(&5).unwrap(), CoreStatus::Testing);
    assert_eq!(app.progress.current_core, Some(5));
}

/// BDD: Given TestError event, when processed, then error_banner set and test stopped
#[test]
fn given_test_error_event_when_processed_then_banner_set_and_test_stopped() {
    let mut app = make_app();
    app.test_running = true;
    process_event(&mut app, TestEvent::TestError {
            message: String::from("coordinator failed"),
        }, 0);
    assert_eq!(app.error_banner.as_deref(), Some("coordinator failed"));
    assert!(!app.test_running);
    assert_eq!(app.log_entries.len(), 1);
}

/// BDD: Given config, when ConfigChanged(Mode), then config.mode updated
#[test]
fn given_config_when_mode_changed_then_config_updated() {
    let mut app = make_app();
    let _ = update(&mut app, Message::ConfigChanged(ConfigField::Mode(StressTestMode::AVX)), SYSTEM, 0);
    assert_eq!(app.config.mode, StressTestMode::AVX);
}

/// BDD: Given config, when ConfigChanged(Cores), then config.cores updated
#[test]
fn given_config_when_cores_changed_then_config_updated() {
    let mut app = make_app();
    let _ = update(&mut app, Message::ConfigChanged(ConfigField::Cores(String::from("0,1,2"))), SYSTEM, 0);
    assert_eq!(app.config.cores, "0,1,2");
}

/// BDD: Given CoreTestProgress event, when processed, then per-core progress stored
#[test]
fn given_core_test_progress_when_processed_then_per_core_progress_stored() {
    let mut app = make_app();
    app.core_statuses.insert(3, CoreStatus::Testing);
    process_event(&mut app, TestEvent::CoreTestProgress {
            physical_core_id: 3,
            bios_index: 3,
            elapsed_secs: 120,
            duration_secs: 360,
        }, 0);
    let progress = app.core_progress.get(&3).expect("progress should exist");
    assert_eq!(progress.elapsed_secs, 120);
    assert_eq!(progress.duration_secs, 360);
}

/// BDD: Given core with progress, when CoreTestCompleted, then per-core progress removed
#[test]
fn given_core_test_completed_when_processed_then_per_core_progress_removed() {
    let mut app = make_app();
    app.core_progress.insert(
        3,
        PerCoreProgress {
            elapsed_secs: 300,
            duration_secs: 360,
        },
    );
    app.core_statuses.insert(3, CoreStatus::Testing);

    let result = CoreTestResult {
        core_id: 3,
        bios_index: 3,
        logical_cpu_ids: vec![3, 15],
        status: CoreStatus::Passed,
        mprime_errors: Vec::new(),
        mce_errors: Vec::new(),
        duration_tested: 360,
        iterations_completed: 3,
    };
    process_event(&mut app, TestEvent::CoreTestCompleted { result }, 0);
    assert!(app.core_progress.get(&3).is_none());
}

/// BDD: Given pre-existing progress, when TestStarted, then per-core progress cleared
#[test]
fn given_test_started_when_processed_then_per_core_progress_cleared() {
    let mut app = make_app();
    app.core_progress.insert(
        0,
        PerCoreProgress {
            elapsed_secs: 100,
            duration_secs: 360,
        },
    );
    process_event(&mut app, TestEvent::TestStarted { total_cores: 12 }, 0);
    assert!(app.core_progress.is_empty());
}

/// BDD: Given CoreTestCompleted with errors, when processed, then result info stored
#[test]
fn given_core_test_completed_with_errors_when_processed_then_result_info_stored() {

    let mut app = make_app();
    app.core_statuses.insert(5, CoreStatus::Testing);

    let result = CoreTestResult {
        core_id: 5,
        bios_index: 5,
        logical_cpu_ids: vec![5, 17],
        status: CoreStatus::Failed,
        mprime_errors: vec![MprimeError {
            error_type: MprimeErrorType::RoundoffError,
            message: String::from("ROUNDOFF > 0.40"),
            fft_size: Some(448),
            timestamp: None,
        }],
        mce_errors: Vec::new(),
        duration_tested: 120,
        iterations_completed: 1,
    };
    process_event(&mut app, TestEvent::CoreTestCompleted { result }, 0);

    let info = app.core_results.get(&5).expect("result info should exist");
    assert_eq!(info.mprime_errors.len(), 1);
    assert_eq!(info.mprime_errors[0].fft_size, Some(448));
    assert_eq!(info.iterations_completed, 1);
}

/// BDD: Given pre-existing results, when TestStarted, then core results cleared
#[test]
fn given_test_started_when_processed_then_core_results_cleared() {

    let mut app = make_app();
    app.core_results.insert(
        0,
        CoreResultInfo {
            mprime_errors: vec![MprimeError {
                error_type: MprimeErrorType::HardwareFailure,
                message: String::from("Hardware failure"),
                fft_size: None,
                timestamp: None,
            }],
            mce_errors: Vec::new(),
            duration_tested: 60,
            iterations_completed: 1,
        },
    );
    process_event(&mut app, TestEvent::TestStarted { total_cores: 12 }, 0);
    assert!(app.core_results.is_empty());
}

/// BDD: Given all passed results, when building notification, then stable message is returned
#[test]
fn given_test_completed_all_passed_when_building_notification_then_message_contains_stable() {

    let results = vec![
        CoreTestResult {
            core_id: 0,
            bios_index: 0,
            logical_cpu_ids: vec![0, 1],
            status: CoreStatus::Passed,
            mprime_errors: Vec::new(),
            mce_errors: Vec::new(),
            duration_tested: 360,
            iterations_completed: 3,
        },
        CoreTestResult {
            core_id: 1,
            bios_index: 1,
            logical_cpu_ids: vec![2, 3],
            status: CoreStatus::Passed,
            mprime_errors: Vec::new(),
            mce_errors: Vec::new(),
            duration_tested: 360,
            iterations_completed: 3,
        },
    ];
    let (summary, body, urgency) = build_completion_notification(&results);
    assert!(
        summary.contains("stable"),
        "Expected 'stable' in summary: {summary}"
    );
    assert_eq!(urgency, "normal");
    assert!(body.contains("2/2"), "Expected '2/2' in body: {body}");
}

/// BDD: Given mixed results, when building notification, then unstable message is returned
#[test]
fn given_test_completed_with_failures_when_building_notification_then_message_contains_unstable(
) {

    let results = vec![
        CoreTestResult {
            core_id: 0,
            bios_index: 0,
            logical_cpu_ids: vec![0, 1],
            status: CoreStatus::Passed,
            mprime_errors: Vec::new(),
            mce_errors: Vec::new(),
            duration_tested: 360,
            iterations_completed: 3,
        },
        CoreTestResult {
            core_id: 8,
            bios_index: 6,
            logical_cpu_ids: vec![8, 9],
            status: CoreStatus::Failed,
            mprime_errors: Vec::new(),
            mce_errors: Vec::new(),
            duration_tested: 120,
            iterations_completed: 1,
        },
    ];
    let (summary, body, urgency) = build_completion_notification(&results);
    assert!(
        summary.contains("unstable"),
        "Expected 'unstable' in summary: {summary}"
    );
    assert_eq!(urgency, "critical");
    assert!(
        body.contains("6"),
        "Expected failed bios_index '6' in body: {body}"
    );
}
