use std::collections::BTreeMap;

use core_probe::coordinator::{CoreStatus, CoreTestResult, CycleResults};
use core_probe::cpu_topology::CpuTopology;
use core_probe::embedded::ExtractedBinaries;
use core_probe::gui::{
    append_log, binaries_extracted, boot, channel_closed, clock_label, parse_core_filter,
    parse_duration, process_event, update, CoreProbeApp, GuiAction, Message, TestConfig,
    TestProgress, LOG_CAPACITY,
};
use core_probe::gui_events::{LogLevel, TestEvent};
use core_probe::gui_theme::ThemeMode;
use core_probe::mprime_config::StressTestMode;

fn topology_5900x() -> CpuTopology {
    let ids = [0u32, 1, 2, 3, 4, 5, 8, 9, 10, 11, 12, 13];
    let mut core_map = BTreeMap::new();
    let mut bios_map = BTreeMap::new();
    let mut physical_map = BTreeMap::new();
    for (bios, id) in ids.iter().enumerate() {
        core_map.insert(*id, vec![bios as u32, bios as u32 + 12]);
        bios_map.insert(*id, bios as u32);
        physical_map.insert(bios as u32, *id);
    }
    CpuTopology {
        vendor: "AuthenticAMD".to_string(),
        model_name: "AMD Ryzen 9 5900X 12-Core Processor".to_string(),
        physical_core_count: 12,
        logical_cpu_count: 24,
        core_map,
        bios_map,
        physical_map,
        cpu_brand: None,
        cpu_frequency_mhz: None,
    }
}

fn app_with(topology: Option<CpuTopology>) -> CoreProbeApp {
    let core_statuses = match &topology {
        Some(t) => t.core_map.keys().map(|&id| (id, CoreStatus::Passed)).collect(),
        None => BTreeMap::new(),
    };
    CoreProbeApp {
        topology,
        uefi_settings: None,
        core_statuses,
        core_progress: BTreeMap::new(),
        core_results: BTreeMap::new(),
        log_entries: Vec::new(),
        theme_mode: ThemeMode::System,
        config: TestConfig::default(),
        test_running: false,
        progress: TestProgress::default(),
        error_banner: None,
        receiving: false,
        extracted_binaries: None,
    }
}

#[test]
fn duration_settings_are_read_as_documented() {
    assert_eq!(parse_duration(""), 360);
    assert_eq!(parse_duration("  10 "), 600);
    assert_eq!(parse_duration("+5"), 300);
    assert_eq!(parse_duration("1h30m"), 5400);
    assert_eq!(parse_duration("90s"), 90);
    assert_eq!(parse_duration("2M30S"), 150);
    assert_eq!(parse_duration("1h1h"), 360);
    assert_eq!(parse_duration("m"), 360);
    assert_eq!(parse_duration("2m30"), 360);
    assert_eq!(parse_duration("5x"), 360);
    assert_eq!(parse_duration("18446744073709551615"), u64::MAX);
    assert_eq!(parse_duration("99999999999999999999s"), 360);
}

#[test]
fn core_filter_all_or_empty_selects_every_core() {
    let t = topology_5900x();
    assert_eq!(parse_core_filter("", &t), Ok(None));
    assert_eq!(parse_core_filter(" ALL ", &t), Ok(None));
    assert_eq!(parse_core_filter(" , ,", &t), Ok(None));
}

#[test]
fn core_filter_is_sorted_deduplicated_and_mapped_to_physical_ids() {
    let t = topology_5900x();
    assert_eq!(parse_core_filter("7, 0,7 ,6", &t), Ok(Some(vec![0, 8, 9])));
}

#[test]
fn core_filter_errors_name_the_bad_input() {
    let t = topology_5900x();
    assert_eq!(
        parse_core_filter("1,x,2", &t),
        Err("Invalid BIOS core index 'x' in core filter".to_string())
    );
    assert_eq!(
        parse_core_filter("3,14,12", &t),
        Err("Invalid BIOS core indices: 12,14. Valid range: 0-11".to_string())
    );
}

#[test]
fn clock_labels_are_utc_time_of_day() {
    assert_eq!(clock_label(0), "00:00:00");
    assert_eq!(clock_label(3661), "01:01:01");
    assert_eq!(clock_label(86_400 + 86_399), "23:59:59");
}

#[test]
fn log_keeps_the_newest_lines_in_order() {
    let mut log = Vec::new();
    for i in 0..(LOG_CAPACITY + 5) {
        append_log(&mut log, LogLevel::Default, format!("msg {i}"), 0);
    }
    assert_eq!(log.len(), LOG_CAPACITY);
    assert_eq!(log[0].message, "msg 5");
    assert_eq!(log[LOG_CAPACITY - 1].message, format!("msg {}", LOG_CAPACITY + 4));
}

#[test]
fn start_without_topology_shows_banner() {
    let mut app = app_with(None);
    let action = update(&mut app, Message::StartTest, ThemeMode::Dark, 0);
    assert!(matches!(action, GuiAction::Nothing));
    assert_eq!(app.error_banner.as_deref(), Some("CPU topology unavailable"));
    assert!(!app.test_running);
}

#[test]
fn start_asks_for_binaries_then_launches() {
    let mut app = app_with(Some(topology_5900x()));
    app.config.cores = "0,6".to_string();
    app.config.duration = "90s".to_string();
    let action = update(&mut app, Message::StartTest, ThemeMode::Dark, 0);
    assert!(matches!(action, GuiAction::ExtractBinaries));
    assert!(!app.test_running);

    let binaries = ExtractedBinaries::in_dir("/tmp/core-probe-test".to_string());
    let action = binaries_extracted(&mut app, Ok(binaries));
    match action {
        GuiAction::Launch(launch) => {
            assert_eq!(launch.duration_secs, 90);
            assert_eq!(launch.iterations, 3);
            assert_eq!(launch.mode, StressTestMode::SSE);
            assert_eq!(launch.core_filter, Some(vec![0, 8]));
        }
        _ => panic!("expected a launch"),
    }
    assert!(app.test_running);
    assert!(app.receiving);
    assert_eq!(app.progress.total_cores, 2);
    assert!(app.core_statuses.values().all(|s| *s == CoreStatus::Idle));
    assert_eq!(app.core_statuses.len(), 12);

    let again = update(&mut app, Message::StartTest, ThemeMode::Dark, 0);
    assert!(matches!(again, GuiAction::Nothing));
}

#[test]
fn failed_extraction_shows_reason() {
    let mut app = app_with(Some(topology_5900x()));
    let action = binaries_extracted(&mut app, Err("disk full".to_string()));
    assert!(matches!(action, GuiAction::Nothing));
    assert_eq!(
        app.error_banner.as_deref(),
        Some("Failed to extract embedded binaries: disk full")
    );
}

#[test]
fn bad_core_filter_blocks_the_start() {
    let mut app = app_with(Some(topology_5900x()));
    app.config.cores = "99".to_string();
    let action = binaries_extracted(&mut app, Ok(ExtractedBinaries::in_dir("/t".to_string())));
    assert!(matches!(action, GuiAction::Nothing));
    assert_eq!(
        app.error_banner.as_deref(),
        Some("Invalid BIOS core indices: 99. Valid range: 0-11")
    );
    assert!(!app.test_running);
}

#[test]
fn stop_tick_and_channel_close_change_only_the_run_flags() {
    let mut app = app_with(None);
    app.test_running = true;
    app.receiving = true;
    assert!(matches!(update(&mut app, Message::Tick, ThemeMode::Dark, 0), GuiAction::DrainEvents));
    assert!(app.test_running);
    assert!(matches!(
        update(&mut app, Message::StopTest, ThemeMode::Dark, 0),
        GuiAction::RequestShutdown
    ));
    assert!(!app.test_running);
    assert!(app.receiving);
    channel_closed(&mut app);
    assert!(!app.receiving);
}

#[test]
fn system_theme_toggles_to_the_opposite_of_the_desktop() {
    let mut app = app_with(None);
    let _ = update(&mut app, Message::ThemeToggle, ThemeMode::Light, 0);
    assert_eq!(app.theme_mode, ThemeMode::Dark);
    app.theme_mode = ThemeMode::System;
    let _ = update(&mut app, Message::ThemeToggle, ThemeMode::Dark, 0);
    assert_eq!(app.theme_mode, ThemeMode::Light);
}

#[test]
fn completed_run_notifies_and_stops() {
    let mut app = app_with(None);
    app.test_running = true;
    app.receiving = true;
    let failed = CoreTestResult {
        core_id: 4,
        bios_index: 3,
        logical_cpu_ids: vec![3],
        status: CoreStatus::Failed,
        mprime_errors: Vec::new(),
        mce_errors: Vec::new(),
        duration_tested: 10,
        iterations_completed: 1,
    };
    let results = CycleResults {
        results: vec![failed],
        total_duration: 10,
        iterations_completed: 1,
        interrupted: false,
    };
    let note = process_event(&mut app, TestEvent::TestCompleted { results }, 0)
        .expect("a finished run notifies");
    assert_eq!(note.summary, "core-probe: 1 core(s) unstable");
    assert_eq!(note.body, "Failed cores: 3");
    assert_eq!(note.urgency, "critical");
    assert!(!app.test_running);
    assert!(!app.receiving);
    assert_eq!(app.progress.total_cores, 1);
    assert_eq!(app.progress.cores_completed, 1);
}

#[test]
fn log_lines_carry_message_and_clock() {
    let mut app = app_with(None);
    let _ = process_event(
        &mut app,
        TestEvent::CoreTestStarting { physical_core_id: 8, bios_index: 6, iteration: 2 },
        3_600 * 13 + 5,
    );
    let _ = process_event(&mut app, TestEvent::IterationCompleted { iteration: 2, total: 3 }, 0);
    assert_eq!(app.log_entries[0].message, "Core 6 starting (iteration 2)");
    assert_eq!(app.log_entries[0].timestamp, "13:00:05");
    assert_eq!(app.log_entries[1].message, "Completed iteration 2/3");
}

#[test]
fn progress_does_not_override_a_finished_status() {
    let mut app = app_with(None);
    app.core_statuses.insert(4, CoreStatus::Failed);
    let _ = process_event(
        &mut app,
        TestEvent::CoreTestProgress { physical_core_id: 4, bios_index: 4, elapsed_secs: 1, duration_secs: 2 },
        0,
    );
    assert_eq!(app.core_statuses[&4], CoreStatus::Failed);
    let _ = process_event(
        &mut app,
        TestEvent::CoreTestProgress { physical_core_id: 5, bios_index: 5, elapsed_secs: 1, duration_secs: 2 },
        0,
    );
    assert_eq!(app.core_statuses[&5], CoreStatus::Testing);
}

#[test]
fn boot_marks_every_core_idle_and_reports_extraction_failure() {
    let app = boot(Some(topology_5900x()), None, Err("disk full".to_string()));
    assert_eq!(app.core_statuses.len(), 12);
    assert!(app.core_statuses.values().all(|s| *s == CoreStatus::Idle));
    assert!(app.core_statuses.contains_key(&13));
    assert_eq!(app.error_banner.as_deref(), Some("Failed to extract embedded binaries: disk full"));
    assert!(app.extracted_binaries.is_none());
    assert_eq!(app.theme_mode, ThemeMode::Dark);
    assert_eq!(app.config.duration, "6m");
    assert!(!app.test_running);

    let app = boot(None, None, Ok(ExtractedBinaries::in_dir("/tmp/core-probe-x".to_string())));
    assert!(app.core_statuses.is_empty());
    assert!(app.error_banner.is_none());
    assert!(app.extracted_binaries.is_some());
}

#[test]
fn completed_core_is_logged_by_bios_index_and_stored_by_physical_id() {
    let mut app = app_with(None);
    let result = CoreTestResult {
        core_id: 8,
        bios_index: 6,
        logical_cpu_ids: vec![8, 20],
        status: CoreStatus::Failed,
        mprime_errors: Vec::new(),
        mce_errors: Vec::new(),
        duration_tested: 30,
        iterations_completed: 1,
    };
    let _ = process_event(&mut app, TestEvent::CoreTestCompleted { result }, 0);
    assert_eq!(app.core_statuses.get(&8), Some(&CoreStatus::Failed));
    assert!(app.core_results.contains_key(&8));
    assert_eq!(app.log_entries.last().map(|e| e.message.as_str()), Some("Core 6 unstable"));
}
