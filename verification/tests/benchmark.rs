use core_probe::benchmark::{
    check_benchmark_target, iteration_dir, select_winner, summarize_preset, BenchAction, BenchEvent,
    BenchmarkReport, BenchmarkResult, BenchmarkRun, PresetSummary,
};
use core_probe::cpu_topology::CpuTopology;
use core_probe::error_parser::MprimeErrorType;
use core_probe::mprime_config::FftPreset;
use std::collections::BTreeMap;

fn result(preset: FftPreset, iteration: u32, time: Option<u64>) -> BenchmarkResult {
    BenchmarkResult {
        preset,
        iteration,
        time_to_error: time,
        error_type: time.map(|_| MprimeErrorType::RoundoffError),
        fft_size: None,
        timed_out: time.is_none(),
    }
}

#[test]
fn given_summary_with_errors_when_calculating_then_computes_timing_stats() {
    let summary = summarize_preset(
        FftPreset::Huge,
        vec![
            BenchmarkResult {
                preset: FftPreset::Huge,
                iteration: 1,
                time_to_error: Some(60),
                error_type: Some(MprimeErrorType::RoundoffError),
                fft_size: Some(1344),
                timed_out: false,
            },
            BenchmarkResult {
                preset: FftPreset::Huge,
                iteration: 2,
                time_to_error: None,
                error_type: None,
                fft_size: None,
                timed_out: true,
            },
            BenchmarkResult {
                preset: FftPreset::Huge,
                iteration: 3,
                time_to_error: Some(120),
                error_type: Some(MprimeErrorType::FatalError),
                fft_size: None,
                timed_out: false,
            },
        ],
    );

    assert_eq!(summary.fastest, Some(60));
    assert_eq!(summary.average, Some(90));
    assert_eq!(summary.slowest, Some(120));
    let error_rate = summary.error_count as f64 / summary.results.len() as f64;
    assert!((error_rate - (2.0 / 3.0)).abs() < f64::EPSILON);
}

#[test]
fn given_no_error_summaries_when_rendering_report_then_shows_warning() {
    let report = BenchmarkReport {
        summaries: vec![PresetSummary {
            preset: FftPreset::Small,
            results: vec![BenchmarkResult {
                preset: FftPreset::Small,
                iteration: 1,
                time_to_error: None,
                error_type: None,
                fft_size: None,
                timed_out: true,
            }],
            fastest: None,
            average: None,
            slowest: None,
            error_count: 0,
        }],
        target_core: 2,
        winner: None,
        total_duration: 180,
    };

    let rendered = report.render();
    assert!(rendered.contains("FFT Preset Benchmark Results — Core 2"));
    assert!(rendered.contains("No errors detected"));
    assert!(rendered.contains("Core 2 may be stable"));
}

#[test]
fn summary_without_errors_has_no_timings() {
    let summary = summarize_preset(
        FftPreset::Small,
        vec![result(FftPreset::Small, 1, None), result(FftPreset::Small, 2, None)],
    );
    assert_eq!(summary.fastest, None);
    assert_eq!(summary.average, None);
    assert_eq!(summary.slowest, None);
    assert_eq!(summary.error_count, 0);
    assert_eq!(summary.results.len(), 2);
}

#[test]
fn summary_average_rounds_down() {
    let summary = summarize_preset(
        FftPreset::Large,
        vec![
            result(FftPreset::Large, 1, Some(10)),
            result(FftPreset::Large, 2, Some(5)),
            result(FftPreset::Large, 3, Some(6)),
        ],
    );
    assert_eq!(summary.fastest, Some(5));
    assert_eq!(summary.average, Some(7));
    assert_eq!(summary.slowest, Some(10));
    assert_eq!(summary.error_count, 3);
}

fn summary(preset: FftPreset, times: &[Option<u64>]) -> PresetSummary {
    let results = times.iter().enumerate().map(|(i, t)| result(preset, i as u32 + 1, *t)).collect();
    summarize_preset(preset, results)
}

#[test]
fn winner_is_smallest_average_and_first_on_ties() {
    let summaries = vec![
        summary(FftPreset::Smallest, &[None, None, None]),
        summary(FftPreset::Small, &[Some(40)]),
        summary(FftPreset::Large, &[Some(20), Some(30)]),
        summary(FftPreset::Huge, &[Some(25)]),
    ];
    assert_eq!(select_winner(&summaries), Some(FftPreset::Large));

    let tied = vec![summary(FftPreset::Heavy, &[Some(30)]), summary(FftPreset::Moderate, &[Some(30)])];
    assert_eq!(select_winner(&tied), Some(FftPreset::Heavy));

    let none = vec![summary(FftPreset::Heavy, &[None])];
    assert_eq!(select_winner(&none), None);
    assert_eq!(select_winner(&[]), None);
}

#[test]
fn rendered_report_ranks_by_average_and_frames_every_line() {
    let summaries = vec![
        summary(FftPreset::Smallest, &[None, None, None]),
        summary(FftPreset::Huge, &[Some(60), None, Some(120)]),
        summary(FftPreset::Small, &[Some(30)]),
    ];
    let winner = select_winner(&summaries);
    assert_eq!(winner, Some(FftPreset::Small));
    let report = BenchmarkReport { summaries, target_core: 2, winner, total_duration: 3725 };
    let rendered = report.render();
    let lines: Vec<&str> = rendered.lines().collect();

    let top = format!("╔{}╗", "═".repeat(100));
    assert_eq!(lines[0], top);
    assert_eq!(lines[lines.len() - 1], format!("╚{}╝", "═".repeat(100)));
    assert!(!rendered.ends_with('\n'));
    for line in &lines {
        assert_eq!(line.chars().count(), 102, "line {line:?}");
    }
    let title = "FFT Preset Benchmark Results — Core 2";
    let left = (100 - title.chars().count()) / 2;
    assert!(lines[1].starts_with(&format!("║{}{}", " ".repeat(left), title)));

    let first = lines.iter().position(|l| l.contains("    1 | Small")).expect("rank 1 row");
    let second = lines.iter().position(|l| l.contains("    2 | Huge")).expect("rank 2 row");
    assert!(first < second);
    assert!(lines[second].starts_with(
        "║    2 | Huge       | 8960K-32768K |  2/3         |   1m 0s |  1m 30s |   2m 0s"
    ));
    assert!(lines[first].starts_with(
        "║    1 | Small      |   36K-  248K |  1/1         |     30s |     30s |     30s"
    ));
    assert!(rendered.contains("║ No errors detected:"));
    assert!(rendered.contains("║  - Smallest   (4K-21K)"));
    assert!(rendered.contains("║ Winner: Small (fastest average time-to-first-error)"));
    assert!(rendered.contains("║ Total benchmark duration: 1h 2m"));
    assert!(!rendered.contains("WARNING"));
}

#[test]
fn iteration_directory_names_preset_and_run() {
    assert_eq!(iteration_dir(FftPreset::HeavyShort, 3), "benchmark/preset-heavyshort/iter-3");
    assert_eq!(iteration_dir(FftPreset::Huge, 1), "benchmark/preset-huge/iter-1");
}

fn topology(core_map: BTreeMap<u32, Vec<u32>>) -> CpuTopology {
    CpuTopology {
        vendor: "AuthenticAMD".to_string(),
        model_name: "Test".to_string(),
        physical_core_count: core_map.len(),
        logical_cpu_count: core_map.values().map(Vec::len).sum(),
        core_map,
        bios_map: BTreeMap::new(),
        physical_map: BTreeMap::new(),
        cpu_brand: None,
        cpu_frequency_mhz: None,
    }
}

#[test]
fn target_core_must_be_in_topology() {
    let mut map = BTreeMap::new();
    map.insert(0, vec![0, 8]);
    map.insert(4, vec![2]);
    map.insert(1, vec![1]);
    let err = check_benchmark_target(&topology(map.clone())).unwrap_err();
    assert_eq!(err, "benchmark target core 2 is not present in topology; available cores: 0,1,4");

    map.insert(2, vec![5, 13]);
    assert_eq!(check_benchmark_target(&topology(map.clone())), Ok(Some(5)));
    map.insert(2, vec![]);
    assert_eq!(check_benchmark_target(&topology(map)), Ok(None));
}

/// Drives a benchmark to its end; `answer` gives the event for each action.
fn drive(run: &mut BenchmarkRun, mut answer: impl FnMut(BenchAction) -> BenchEvent) -> Vec<BenchAction> {
    let mut actions = Vec::new();
    for _ in 0..100_000 {
        let action = run.action();
        actions.push(action);
        if matches!(action, BenchAction::Finish | BenchAction::Abort) {
            return actions;
        }
        let event = answer(action);
        run.step(event);
    }
    panic!("benchmark did not finish");
}

#[test]
fn full_benchmark_times_out_quiet_presets_and_picks_the_failing_one() {
    let mut run = BenchmarkRun::new(Some(4));
    let mut preset = FftPreset::Smallest;
    let actions = drive(&mut run, |action| match action {
        BenchAction::StartRunner { preset: p, .. } => {
            preset = p;
            BenchEvent::Done
        }
        BenchAction::CheckShutdown => BenchEvent::Answer(false),
        BenchAction::CheckRunning => BenchEvent::Answer(true),
        BenchAction::ReadResults => {
            if preset == FftPreset::Moderate {
                BenchEvent::FoundError(MprimeErrorType::IllegalSumout, Some(1344))
            } else {
                BenchEvent::NoError
            }
        }
        _ => BenchEvent::Done,
    });
    assert_eq!(actions.last(), Some(&BenchAction::Finish));
    assert!(actions.contains(&BenchAction::PinThreads(4)));
    assert!(actions.contains(&BenchAction::Sleep(3)));
    let starts: Vec<(FftPreset, u32)> = actions
        .iter()
        .filter_map(|a| match a {
            BenchAction::StartRunner { preset, iteration } => Some((*preset, *iteration)),
            _ => None,
        })
        .collect();
    assert_eq!(starts.len(), 21);
    assert_eq!(starts[0], (FftPreset::Smallest, 1));
    assert_eq!(starts[2], (FftPreset::Smallest, 3));
    assert_eq!(starts[3], (FftPreset::Small, 1));
    assert_eq!(starts[20], (FftPreset::HeavyShort, 3));

    let report = run.into_report(4000);
    assert_eq!(report.summaries.len(), 7);
    assert_eq!(report.winner, Some(FftPreset::Moderate));
    assert_eq!(report.target_core, 2);
    assert_eq!(report.total_duration, 4000);
    let moderate = &report.summaries[4];
    assert_eq!(moderate.preset, FftPreset::Moderate);
    assert_eq!(moderate.average, Some(5));
    assert_eq!(moderate.results[0].fft_size, Some(1344));
    assert_eq!(moderate.results[0].error_type, Some(MprimeErrorType::IllegalSumout));
    let small = &report.summaries[1];
    assert_eq!(small.results.len(), 3);
    assert!(small.results.iter().all(|r| r.timed_out && r.time_to_error.is_none()));
    assert_eq!(small.average, None);
}

#[test]
fn shutdown_during_a_run_keeps_it_and_finishes() {
    let mut run = BenchmarkRun::new(Some(2));
    let mut asked = 0;
    let actions = drive(&mut run, |action| match action {
        BenchAction::CheckShutdown => {
            asked += 1;
            BenchEvent::Answer(asked >= 3)
        }
        BenchAction::CheckRunning => BenchEvent::Answer(true),
        BenchAction::ReadResults => BenchEvent::NoError,
        _ => BenchEvent::Done,
    });
    assert!(actions.contains(&BenchAction::StopRunner { must_succeed: true }));
    let report = run.into_report(10);
    assert_eq!(report.summaries.len(), 1);
    assert_eq!(report.summaries[0].preset, FftPreset::Smallest);
    assert_eq!(report.summaries[0].results.len(), 1);
    assert_eq!(report.summaries[0].results[0].time_to_error, None);
    assert!(!report.summaries[0].results[0].timed_out);
    assert_eq!(report.winner, None);
}

#[test]
fn shutdown_before_the_first_run_finishes_with_an_empty_summary() {
    let mut run = BenchmarkRun::new(Some(2));
    let actions = drive(&mut run, |action| match action {
        BenchAction::CheckShutdown => BenchEvent::Answer(true),
        _ => BenchEvent::Done,
    });
    assert_eq!(
        actions,
        vec![BenchAction::CheckShutdown, BenchAction::StopRunner { must_succeed: false }, BenchAction::Finish]
    );
    let report = run.into_report(0);
    assert_eq!(report.summaries.len(), 1);
    assert!(report.summaries[0].results.is_empty());
}

#[test]
fn failed_start_skips_the_preset() {
    let mut run = BenchmarkRun::new(Some(2));
    let actions = drive(&mut run, |action| match action {
        BenchAction::CheckShutdown => BenchEvent::Answer(false),
        BenchAction::StartRunner { preset: FftPreset::Smallest, .. } => BenchEvent::Failed,
        BenchAction::CheckRunning => BenchEvent::Answer(false),
        BenchAction::ReadResults => BenchEvent::NoError,
        _ => BenchEvent::Done,
    });
    assert_eq!(actions.last(), Some(&BenchAction::Finish));
    let report = run.into_report(0);
    assert_eq!(report.summaries.len(), 7);
    assert!(report.summaries[0].results.is_empty());
    // mprime exits at once in every other run: an unknown error at 3 s.
    let small = &report.summaries[1];
    assert_eq!(small.results.len(), 3);
    assert_eq!(small.results[0].time_to_error, Some(3));
    assert_eq!(small.results[0].error_type, Some(MprimeErrorType::Unknown));
    assert_eq!(report.winner, Some(FftPreset::Small));
}

#[test]
fn missing_logical_cpu_aborts_after_start() {
    let mut run = BenchmarkRun::new(None);
    let actions = drive(&mut run, |action| match action {
        BenchAction::CheckShutdown => BenchEvent::Answer(false),
        _ => BenchEvent::Done,
    });
    assert_eq!(
        actions,
        vec![
            BenchAction::CheckShutdown,
            BenchAction::StartRunner { preset: FftPreset::Smallest, iteration: 1 },
            BenchAction::Abort
        ]
    );
}
