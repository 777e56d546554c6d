use std::collections::BTreeMap;

use core_probe::coordinator::order_cores_alternate;

#[test]
fn given_12_core_cpu_when_ordering_then_alternates_between_ccds() {
    // AMD Ryzen 9 5900X layout: cores 0-5 (CCD0), 8-13 (CCD1)
    let core_map: BTreeMap<u32, Vec<u32>> = [
        (0, vec![0, 12]),
        (1, vec![1, 13]),
        (2, vec![2, 14]),
        (3, vec![3, 15]),
        (4, vec![4, 16]),
        (5, vec![5, 17]),
        (8, vec![6, 18]),
        (9, vec![7, 19]),
        (10, vec![8, 20]),
        (11, vec![9, 21]),
        (12, vec![10, 22]),
        (13, vec![11, 23]),
    ]
    .into_iter()
    .collect();

    let ordered = order_cores_alternate(&core_map);

    assert_eq!(ordered, vec![0, 8, 1, 9, 2, 10, 3, 11, 4, 12, 5, 13]);
}

#[test]
fn given_single_core_when_ordering_then_returns_single_core() {
    let core_map: BTreeMap<u32, Vec<u32>> = [(0, vec![0])].into_iter().collect();

    let ordered = order_cores_alternate(&core_map);

    assert_eq!(ordered, vec![0]);
}

#[test]
fn given_two_cores_when_ordering_then_alternates() {
    let core_map: BTreeMap<u32, Vec<u32>> = [(0, vec![0]), (1, vec![1])].into_iter().collect();

    let ordered = order_cores_alternate(&core_map);

    assert_eq!(ordered, vec![0, 1]);
}

#[test]
fn given_odd_core_count_when_ordering_then_includes_all_cores() {
    let core_map: BTreeMap<u32, Vec<u32>> = [
        (0, vec![0]),
        (1, vec![1]),
        (2, vec![2]),
        (3, vec![3]),
        (4, vec![4]),
    ]
    .into_iter()
    .collect();

    let ordered = order_cores_alternate(&core_map);

    // half=2, first=[0,1], second=[2,3,4]
    // i=0: 0, 2
    // i=1: 1, 3
    // remainder: 4
    assert_eq!(ordered, vec![0, 2, 1, 3, 4]);
}

#[test]
fn given_8_core_cpu_when_ordering_then_alternates_between_halves() {
    let core_map: BTreeMap<u32, Vec<u32>> = [
        (0, vec![0]),
        (1, vec![1]),
        (2, vec![2]),
        (3, vec![3]),
        (4, vec![4]),
        (5, vec![5]),
        (6, vec![6]),
        (7, vec![7]),
    ]
    .into_iter()
    .collect();

    let ordered = order_cores_alternate(&core_map);

    assert_eq!(ordered, vec![0, 4, 1, 5, 2, 6, 3, 7]);
}

#[test]
fn given_non_contiguous_core_ids_when_ordering_then_preserves_all_ids() {
    let core_map: BTreeMap<u32, Vec<u32>> =
        [(0, vec![0]), (2, vec![1]), (5, vec![2]), (9, vec![3])]
            .into_iter()
            .collect();

    let ordered = order_cores_alternate(&core_map);

    // half=2, first=[0,2], second=[5,9]
    assert_eq!(ordered, vec![0, 5, 2, 9]);
}


use std::collections::HashMap;

use core_probe::coordinator::{
    format_intermediate_result, logical_cpu_ids_for_core, CoreAction, CoreEvent, CoreStatus,
    CoreTest, CoreTestResult, CycleAction, CycleEvent, CycleResults, CycleRun,
};
use core_probe::cpu_topology::CpuTopology;
use core_probe::error_parser::{ErrorParser, MprimeError, MprimeErrorType};
use core_probe::mce_monitor::{MceError, MceErrorType};

/// Stands in for mprime, its results files, the MCE monitor and the
/// shutdown flag while the cycle's state machines run.
#[derive(Default)]
struct FakeMachine {
    start_order: Vec<u32>,
    running: bool,
    results: HashMap<(u32, u32), String>,
    mce_by_core: HashMap<u32, Vec<MceError>>,
    shutdown_checks: usize,
    shutdown_after: Option<usize>,
    sleeps: Vec<u64>,
}

impl FakeMachine {
    fn write_results(&mut self, iteration: u32, core_id: u32, content: &str) {
        self.results.insert((iteration, core_id), content.to_string());
    }

    fn push_error(&mut self, core_id: u32, error: MceError) {
        self.mce_by_core.entry(core_id).or_default().push(error);
    }

    fn shutdown_requested(&mut self) -> bool {
        let n = self.shutdown_checks;
        self.shutdown_checks += 1;
        match self.shutdown_after {
            Some(limit) => n >= limit,
            None => false,
        }
    }
}

fn fixture_topology(core_map: &[(u32, Vec<u32>)]) -> CpuTopology {
    CpuTopology {
        vendor: "AuthenticAMD".to_string(),
        model_name: "AMD Test CPU".to_string(),
        physical_core_count: core_map.len(),
        logical_cpu_count: core_map.iter().map(|(_, v)| v.len()).sum(),
        core_map: core_map.iter().cloned().collect(),
        bios_map: core_map.iter().enumerate().map(|(i, (p, _))| (*p, i as u32)).collect(),
        physical_map: core_map.iter().enumerate().map(|(i, (p, _))| (i as u32, *p)).collect(),
        cpu_brand: None,
        cpu_frequency_mhz: None,
    }
}

/// Runs a whole cycle, carrying out each action on the fake machine.
fn run_cycle(
    topology: &CpuTopology,
    duration: u64,
    iterations: u32,
    filter: Option<Vec<u32>>,
    bail: bool,
    machine: &mut FakeMachine,
) -> CycleResults {
    let mut cycle = CycleRun::new(topology, iterations, filter, bail);
    loop {
        match cycle.action() {
            CycleAction::CheckShutdown => {
                let s = machine.shutdown_requested();
                cycle.step(CycleEvent::Answer(s));
            }
            CycleAction::TestCore { core_id, bios_index, iteration } => {
                let cpus = logical_cpu_ids_for_core(topology, core_id);
                let mut test = CoreTest::new(core_id, bios_index, iteration, cpus, duration);
                let mut parser = ErrorParser::new();
                loop {
                    match test.action() {
                        CoreAction::StartRunner => {
                            machine.start_order.push(core_id);
                            machine.running = true;
                            test.step(CoreEvent::Done);
                        }
                        CoreAction::Sleep(secs) => {
                            machine.sleeps.push(secs);
                            test.step(CoreEvent::Done);
                        }
                        CoreAction::PinThreads { .. } => test.step(CoreEvent::Done),
                        CoreAction::CheckShutdown => {
                            let s = machine.shutdown_requested();
                            test.step(CoreEvent::Answer(s));
                        }
                        CoreAction::CollectErrors => {
                            let parsed = match machine.results.remove(&(iteration, core_id)) {
                                Some(text) => parser.parse_read(&text, text.len() as u64),
                                None => Vec::new(),
                            };
                            let latest_mce =
                                machine.mce_by_core.get(&core_id).cloned().unwrap_or_default();
                            test.step(CoreEvent::Collected { parsed, latest_mce });
                        }
                        CoreAction::CheckRunning => {
                            let r = machine.running;
                            test.step(CoreEvent::Answer(r));
                        }
                        CoreAction::StopRunner => {
                            machine.running = false;
                            test.step(CoreEvent::Done);
                        }
                        CoreAction::Finish => break,
                    }
                }
                cycle.step(CycleEvent::CoreResult(test.into_result()));
            }
            CycleAction::IterationCompleted { .. } => cycle.step(CycleEvent::Done),
            CycleAction::Finish => break,
        }
    }
    cycle.into_results(0)
}

fn mce(cpu_id: u32, bank: u32, message: &str) -> MceError {
    MceError {
        cpu_id,
        bank: Some(bank),
        error_type: MceErrorType::MachineCheck,
        message: message.to_string(),
        timestamp: "0".to_string(),
        apic_id: None,
    }
}

#[test]
fn given_core_list_when_starting_cycle_then_tests_each_core_in_alternate_order() {
    let topology = fixture_topology(&[(0, vec![0]), (1, vec![1]), (2, vec![2])]);
    let mut machine = FakeMachine::default();

    let results = run_cycle(&topology, 1, 1, None, false, &mut machine);

    assert_eq!(machine.start_order, vec![0, 1, 2]);
    assert_eq!(results.results.len(), 3);
    assert!(results.results.iter().all(|result| result.status == CoreStatus::Passed));
}

#[test]
fn given_duration_per_core_when_testing_then_runs_for_specified_time() {
    let topology = fixture_topology(&[(0, vec![0])]);
    let mut machine = FakeMachine::default();

    let results = run_cycle(&topology, 3, 1, None, false, &mut machine);

    assert_eq!(results.results[0].duration_tested, 3);
}

#[test]
fn given_error_detected_when_testing_core_then_marks_core_as_failed() {
    let topology = fixture_topology(&[(0, vec![0])]);
    let mut machine = FakeMachine::default();
    machine.write_results(1, 0, "FATAL ERROR: test failure\n");

    let results = run_cycle(&topology, 6, 1, None, false, &mut machine);

    assert_eq!(results.results[0].status, CoreStatus::Failed);
    assert_eq!(results.results[0].mprime_errors.len(), 1);
}

#[test]
fn given_shutdown_signal_when_mid_cycle_then_stops_gracefully() {
    let topology = fixture_topology(&[(0, vec![0]), (1, vec![1])]);
    let mut machine = FakeMachine { shutdown_after: Some(2), ..FakeMachine::default() };

    let results = run_cycle(&topology, 6, 1, None, false, &mut machine);

    assert!(results.interrupted);
    assert_eq!(results.iterations_completed, 0);
    assert_eq!(results.results.len(), 1);
    assert_eq!(results.results[0].status, CoreStatus::Interrupted);
}

#[test]
fn given_all_cores_tested_when_complete_then_returns_full_results() {
    let topology = fixture_topology(&[(0, vec![0]), (1, vec![1]), (2, vec![2])]);
    let mut machine = FakeMachine::default();
    machine.push_error(1, mce(1, 5, "mce test"));

    let results = run_cycle(&topology, 1, 1, None, false, &mut machine);

    assert_eq!(results.results.len(), 3);
    assert_eq!(results.iterations_completed, 1);
    assert!(!results.interrupted);
    assert_eq!(results.results[1].status, CoreStatus::Failed);
    assert_eq!(results.results[1].mce_errors.len(), 1);
}

#[test]
fn given_iteration_count_when_configured_then_repeats_full_cycle() {
    let topology = fixture_topology(&[(0, vec![0]), (1, vec![1])]);
    let mut machine = FakeMachine::default();

    let results = run_cycle(&topology, 1, 3, None, false, &mut machine);

    assert_eq!(results.results.len(), 6);
    assert_eq!(results.iterations_completed, 3);
    assert_eq!(machine.start_order, vec![0, 1, 0, 1, 0, 1]);
}

#[test]
fn given_core_failure_during_test_when_monitoring_then_captures_error_details() {
    let topology = fixture_topology(&[(0, vec![0])]);
    let mut machine = FakeMachine::default();
    machine.write_results(1, 0, "Hardware failure detected running 1344K FFT\n");
    machine.push_error(0, mce(0, 3, "MCE bank 3"));

    let results = run_cycle(&topology, 6, 1, None, false, &mut machine);

    let result = &results.results[0];
    assert_eq!(result.status, CoreStatus::Failed);
    assert_eq!(result.mprime_errors.len(), 1);
    assert_eq!(result.mce_errors.len(), 1);
    assert_eq!(result.mprime_errors[0].fft_size, Some(1344));
}

#[test]
fn given_core_filter_when_subset_specified_then_only_tests_those_cores() {
    let topology = fixture_topology(&[(0, vec![0]), (1, vec![1]), (2, vec![2])]);
    let mut machine = FakeMachine::default();

    let results = run_cycle(&topology, 1, 1, Some(vec![0, 2]), false, &mut machine);

    assert_eq!(machine.start_order, vec![0, 2]);
    assert_eq!(results.results.len(), 3);
    assert_eq!(results.results[1].status, CoreStatus::Skipped);
    assert_eq!(results.results[0].status, CoreStatus::Passed);
    assert_eq!(results.results[2].status, CoreStatus::Passed);
}

#[test]
fn given_shutdown_signal_when_running_then_polls_at_one_second_intervals() {
    let topology = fixture_topology(&[(0, vec![0])]);
    let mut machine = FakeMachine { shutdown_after: Some(2), ..FakeMachine::default() };

    let _ = run_cycle(&topology, 6, 1, None, false, &mut machine);

    assert_eq!(machine.sleeps[0], 3, "first sleep should be initial pin delay");
    assert!(
        machine.sleeps[1..].iter().all(|d| *d == 1),
        "poll sleeps after initial pin delay should all be 1 second"
    );
}

#[test]
fn given_bail_enabled_when_first_core_fails_then_stops_immediately() {
    let topology = fixture_topology(&[(0, vec![0]), (1, vec![1])]);
    let mut machine = FakeMachine::default();
    machine.write_results(1, 0, "FATAL ERROR: test failure\n");

    let results = run_cycle(&topology, 6, 1, None, true, &mut machine);

    assert!(results.interrupted);
    assert_eq!(results.results.len(), 1);
    assert_eq!(results.results[0].status, CoreStatus::Failed);
    assert_eq!(machine.start_order, vec![0]);
}

#[test]
fn given_bail_disabled_when_core_fails_then_continues_testing() {
    let topology = fixture_topology(&[(0, vec![0]), (1, vec![1])]);
    let mut machine = FakeMachine::default();
    machine.write_results(1, 0, "FATAL ERROR: test failure\n");

    let results = run_cycle(&topology, 6, 1, None, false, &mut machine);

    assert!(!results.interrupted);
    assert_eq!(results.results.len(), 2);
    assert_eq!(results.results[0].status, CoreStatus::Failed);
    assert_eq!(results.results[1].status, CoreStatus::Passed);
    assert_eq!(machine.start_order, vec![0, 1]);
}

#[test]
fn given_bail_enabled_when_all_pass_then_completes_normally() {
    let topology = fixture_topology(&[(0, vec![0]), (1, vec![1])]);
    let mut machine = FakeMachine::default();

    let results = run_cycle(&topology, 1, 1, None, true, &mut machine);

    assert!(!results.interrupted);
    assert_eq!(results.results.len(), 2);
    assert!(results.results.iter().all(|r| r.status == CoreStatus::Passed));
    assert_eq!(machine.start_order, vec![0, 1]);
}

#[test]
fn given_bail_enabled_when_failure_in_second_iteration_then_stops() {
    let topology = fixture_topology(&[(0, vec![0])]);
    let mut machine = FakeMachine::default();
    machine.write_results(2, 0, "FATAL ERROR: second iteration failure\n");

    let results = run_cycle(&topology, 6, 3, None, true, &mut machine);

    assert!(results.interrupted);
    assert_eq!(results.results.len(), 2);
    assert_eq!(results.results[0].status, CoreStatus::Passed);
    assert_eq!(results.results[1].status, CoreStatus::Failed);
    assert_eq!(results.iterations_completed, 1);
}

#[test]
fn mprime_dying_early_records_an_unknown_error() {
    let topology = fixture_topology(&[(0, vec![0])]);
    let mut machine = FakeMachine::default();
    let mut test = CoreTest::new(0, 0, 1, logical_cpu_ids_for_core(&topology, 0), 10);
    let mut steps = 0;
    loop {
        steps += 1;
        assert!(steps < 100);
        match test.action() {
            CoreAction::StartRunner => test.step(CoreEvent::Done),
            CoreAction::Sleep(_) | CoreAction::PinThreads { .. } | CoreAction::StopRunner => {
                test.step(CoreEvent::Done)
            }
            CoreAction::CheckShutdown => test.step(CoreEvent::Answer(false)),
            CoreAction::CollectErrors => test.step(CoreEvent::Collected {
                parsed: Vec::new(),
                latest_mce: Vec::new(),
            }),
            CoreAction::CheckRunning => test.step(CoreEvent::Answer(false)),
            CoreAction::Finish => break,
        }
    }
    machine.running = false;
    let result = test.into_result();
    assert_eq!(result.status, CoreStatus::Failed);
    assert_eq!(result.mprime_errors.len(), 1);
    assert_eq!(result.mprime_errors[0].error_type, MprimeErrorType::Unknown);
    assert_eq!(
        result.mprime_errors[0].message,
        "mprime process exited unexpectedly before test duration elapsed"
    );
}

#[test]
fn given_passed_core_when_formatting_intermediate_then_shows_stable_symbol() {
    let result = CoreTestResult {
        core_id: 3,
        bios_index: 3,
        logical_cpu_ids: vec![3, 15],
        status: CoreStatus::Passed,
        mprime_errors: Vec::new(),
        mce_errors: Vec::new(),
        duration_tested: 360,
        iterations_completed: 1,
    };
    let line = format_intermediate_result(&result).expect("passed cores are shown");
    assert!(line.contains('\u{2713}'));
    assert!(line.contains("STABLE"));
    assert!(line.contains("Core  3"));
}

#[test]
fn given_failed_core_with_roundoff_when_formatting_intermediate_then_shows_error_type() {
    let result = CoreTestResult {
        core_id: 5,
        bios_index: 5,
        logical_cpu_ids: vec![5, 17],
        status: CoreStatus::Failed,
        mprime_errors: vec![MprimeError {
            error_type: MprimeErrorType::RoundoffError,
            message: "ROUND OFF > 0.40".to_string(),
            fft_size: Some(1344),
            timestamp: None,
        }],
        mce_errors: Vec::new(),
        duration_tested: 120,
        iterations_completed: 1,
    };
    let line = format_intermediate_result(&result).expect("failed cores are shown");
    assert!(line.contains('\u{2717}'));
    assert!(line.contains("UNSTABLE"));
    assert!(line.contains("mprime: ROUNDOFF at 1344K FFT"));
}

#[test]
fn given_skipped_core_when_formatting_intermediate_then_returns_none() {
    let result = CoreTestResult {
        core_id: 1,
        bios_index: 1,
        logical_cpu_ids: vec![1],
        status: CoreStatus::Skipped,
        mprime_errors: Vec::new(),
        mce_errors: Vec::new(),
        duration_tested: 0,
        iterations_completed: 1,
    };
    assert!(format_intermediate_result(&result).is_none());
}

#[test]
fn given_interrupted_core_when_formatting_intermediate_then_shows_interrupted() {
    let result = CoreTestResult {
        core_id: 11,
        bios_index: 11,
        logical_cpu_ids: vec![9, 21],
        status: CoreStatus::Interrupted,
        mprime_errors: Vec::new(),
        mce_errors: Vec::new(),
        duration_tested: 60,
        iterations_completed: 1,
    };
    let line = format_intermediate_result(&result).expect("interrupted cores are shown");
    assert!(line.contains('\u{2298}'));
    assert!(line.contains("INTERRUPTED"));
    assert!(line.contains("Core 11"));
}

#[test]
fn intermediate_line_numbers_the_core_by_bios_index() {
    let result = CoreTestResult {
        core_id: 8,
        bios_index: 6,
        logical_cpu_ids: vec![8],
        status: CoreStatus::Passed,
        mprime_errors: Vec::new(),
        mce_errors: Vec::new(),
        duration_tested: 60,
        iterations_completed: 1,
    };
    let line = format_intermediate_result(&result).expect("passed cores are shown");
    assert_eq!(line, "  \u{2713} Core  6: STABLE");
}
