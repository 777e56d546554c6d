//! The headless front end: how its options are read, what it prints for
//! each report of the running test, the final text report and the exit
//! status (0 all stable, 1 failures or interruption, 2 error).
use crate::coordinator;
use crate::coordinator::{CoreStatus, CoreTestResult, CycleResults};
use crate::cpu_topology::CpuTopology;
use crate::gui;
use crate::gui_events::TestEvent;
use crate::mprime_config::StressTestMode;
use crate::text;
use vstd::prelude::*;

verus! {

// ---------------------------------------------------------------------------
// The final report
// ---------------------------------------------------------------------------

/// `1h 2m 5s`, `6m 12s` or `59s`.
pub open spec fn hms_spec(total: u64) -> Seq<char> {
    let hours = total / 3600;
    let minutes = (total % 3600) / 60;
    let seconds = total % 60;
    if hours > 0 {
        text::decimal(hours as nat) + "h "@ + text::decimal(minutes as nat) + "m "@ + text::decimal(
            seconds as nat,
        ) + "s"@
    } else if minutes > 0 {
        text::decimal(minutes as nat) + "m "@ + text::decimal(seconds as nat) + "s"@
    } else {
        text::decimal(seconds as nat) + "s"@
    }
}

/// Formats a number of seconds compactly.
pub fn format_duration(total: u64) -> (s: String)
    ensures
        s@ == hms_spec(total),
{
    let hours = total / 3600;
    let minutes = (total % 3600) / 60;
    let seconds = total % 60;
    let mut v: Vec<char> = Vec::new();
    if hours > 0 {
        text::push_u64(&mut v, hours);
        text::push_str(&mut v, "h ");
        text::push_u64(&mut v, minutes);
        text::push_str(&mut v, "m ");
        text::push_u64(&mut v, seconds);
        text::push_str(&mut v, "s");
    } else if minutes > 0 {
        text::push_u64(&mut v, minutes);
        text::push_str(&mut v, "m ");
        text::push_u64(&mut v, seconds);
        text::push_str(&mut v, "s");
    } else {
        text::push_u64(&mut v, seconds);
        text::push_str(&mut v, "s");
    }
    assert(v@ =~= hms_spec(total));
    text::string_from_chars(&v)
}

/// The results with the given status, in order.
pub open spec fn with_status(rs: Seq<CoreTestResult>, st: CoreStatus) -> Seq<CoreTestResult>
    decreases rs.len(),
{
    if rs.len() == 0 {
        seq![]
    } else {
        let rest = with_status(rs.drop_last(), st);
        if rs.last().status == st {
            rest.push(rs.last())
        } else {
            rest
        }
    }
}

/// The results picked for a status are exactly the run's results with that
/// status.
pub proof fn lemma_with_status_exact(rs: Seq<CoreTestResult>, st: CoreStatus)
    ensures
        forall|j: int|
            0 <= j < with_status(rs, st).len() ==> (#[trigger] with_status(rs, st)[j]).status == st && rs.contains(
                with_status(rs, st)[j],
            ),
        forall|k: int| 0 <= k < rs.len() && (#[trigger] rs[k]).status == st ==> with_status(rs, st).contains(rs[k]),
    decreases rs.len(),
{
    if rs.len() > 0 {
        let p = rs.drop_last();
        let n = rs.len() - 1;
        lemma_with_status_exact(p, st);
        let wp = with_status(p, st);
        let w = with_status(rs, st);
        assert forall|j: int| 0 <= j < w.len() implies (#[trigger] w[j]).status == st && rs.contains(w[j]) by {
            if j < wp.len() {
                assert(w[j] == wp[j]);
                let i = choose|i: int| 0 <= i < p.len() && p[i] == wp[j];
                assert(rs[i] == p[i]);
            } else {
                assert(w[j] == rs[n]);
            }
        }
        assert forall|k: int| 0 <= k < rs.len() && (#[trigger] rs[k]).status == st implies w.contains(rs[k]) by {
            if k < n {
                assert(p[k] == rs[k]);
                let i = choose|i: int| 0 <= i < wp.len() && wp[i] == p[k];
                assert(w[i] == wp[i]);
            } else {
                assert(rs[k] == rs.last());
                assert(w[w.len() - 1] == rs[k]);
            }
        }
    }
}

/// The summary names every core by its BIOS index: each UNSTABLE entry
/// begins `core N: ` and each STABLE entry is `N`, with N the BIOS index of
/// the result it stands for, whatever its errors were.
pub proof fn lemma_entries_use_bios_index(rs: Seq<CoreTestResult>)
    ensures
        forall|k: int|
            0 <= k < rs.len() ==> ("core "@ + text::decimal((#[trigger] rs[k]).bios_index as nat) + ": "@).is_prefix_of(
                failed_entries(rs)[k],
            ),
        forall|k: int|
            0 <= k < rs.len() ==> passed_entries(rs)[k] == text::decimal((#[trigger] rs[k]).bios_index as nat),
        failed_entries(rs).len() == rs.len(),
        passed_entries(rs).len() == rs.len(),
{
    assert forall|k: int|
        0 <= k < rs.len() implies ("core "@ + text::decimal((#[trigger] rs[k]).bios_index as nat) + ": "@).is_prefix_of(
        failed_entries(rs)[k],
    ) by {
        let r = rs[k];
        let pre = "core "@ + text::decimal(r.bios_index as nat) + ": "@;
        let summary = coordinator::error_summary_spec(r);
        let rest = if summary.len() == 0 {
            "UNSTABLE"@
        } else {
            summary
        };
        assert(failed_entries(rs)[k] == pre + rest);
        assert(pre =~= (pre + rest).subrange(0, pre.len() as int));
    }
}

/// `core N: summary`, or `core N: UNSTABLE` when no error was recorded;
/// N is the core's BIOS index.
pub open spec fn failed_entry(r: CoreTestResult) -> Seq<char> {
    let summary = coordinator::error_summary_spec(r);
    "core "@ + text::decimal(r.bios_index as nat) + ": "@ + if summary.len() == 0 {
        "UNSTABLE"@
    } else {
        summary
    }
}

pub open spec fn failed_entries(rs: Seq<CoreTestResult>) -> Seq<Seq<char>> {
    rs.map_values(|r: CoreTestResult| failed_entry(r))
}

pub open spec fn passed_entries(rs: Seq<CoreTestResult>) -> Seq<Seq<char>> {
    rs.map_values(|r: CoreTestResult| text::decimal(r.bios_index as nat))
}

pub open spec fn yes_no(b: bool) -> Seq<char> {
    if b {
        "yes"@
    } else {
        "no"@
    }
}

/// The lines of the final report.
pub open spec fn report_lines(results: CycleResults, total_iterations: u32) -> Seq<Seq<char>> {
    let rs = results.results@;
    let failed = with_status(rs, CoreStatus::Failed);
    let passed = with_status(rs, CoreStatus::Passed);
    let head = seq!["core-probe results"@, text::repeat_char('-', 40)];
    let banner = if results.interrupted {
        seq!["INTERRUPTED: test stopped early, results are partial"@]
    } else {
        seq![]
    };
    let lists = if failed.len() == 0 && passed.len() == 0 {
        seq!["NO CORES TESTED"@]
    } else {
        (if failed.len() > 0 {
            seq![
                "UNSTABLE ("@ + text::decimal(failed.len()) + "): "@ + text::join_sep(
                    failed_entries(failed),
                    ", "@,
                ),
            ]
        } else {
            seq![]
        }) + (if passed.len() > 0 {
            seq![
                "STABLE ("@ + text::decimal(passed.len()) + "): "@ + text::join_sep(
                    passed_entries(passed),
                    ", "@,
                ),
            ]
        } else {
            seq![]
        })
    };
    let footer = "Duration: "@ + hms_spec(results.total_duration) + " | Iterations: "@ + text::decimal(
        results.iterations_completed as nat,
    ) + "/"@ + text::decimal(total_iterations as nat) + " | Interrupted: "@ + yes_no(results.interrupted);
    head + banner + lists + seq![footer]
}

/// Lines, each ended by a newline.
pub open spec fn lines_text(ls: Seq<Seq<char>>) -> Seq<char>
    decreases ls.len(),
{
    if ls.len() == 0 {
        seq![]
    } else {
        lines_text(ls.drop_last()) + ls.last() + seq!['\n']
    }
}

fn results_with_status(rs: &[CoreTestResult], st: CoreStatus) -> (idx: Vec<usize>)
    ensures
        idx@.len() == with_status(rs@, st).len(),
        forall|k: int| 0 <= k < idx@.len() ==> #[trigger] idx@[k] < rs@.len() && rs@[idx@[k] as int]
            == with_status(rs@, st)[k],
{
    let mut idx: Vec<usize> = Vec::new();
    let mut i: usize = 0;
    while i < rs.len()
        invariant
            i <= rs.len(),
            idx@.len() == with_status(rs@.take(i as int), st).len(),
            forall|k: int| 0 <= k < idx@.len() ==> #[trigger] idx@[k] < i && rs@[idx@[k] as int]
                == with_status(rs@.take(i as int), st)[k],
        decreases rs.len() - i,
    {
        assert(rs@.take(i + 1).drop_last() =~= rs@.take(i as int));
        assert(rs@.take(i + 1).last() == rs@[i as int]);
        if rs[i].status == st {
            idx.push(i);
        }
        i += 1;
    }
    assert(rs@.take(rs.len() as int) =~= rs@);
    idx
}

fn push_line(out: &mut Vec<char>, line: &[char], ghost_lines: Ghost<Seq<Seq<char>>>)
    requires
        old(out)@ == lines_text(ghost_lines@),
    ensures
        final(out)@ == lines_text(ghost_lines@.push(line@)),
{
    text::push_chars(out, line);
    out.push('\n');
    assert(ghost_lines@.push(line@).drop_last() =~= ghost_lines@);
    assert(final(out)@ =~= lines_text(ghost_lines@.push(line@)));
}

/// The final text report of a run of `total_iterations` iterations.
pub fn build_report(results: &CycleResults, total_iterations: u32) -> (s: String)
    ensures
        s@ == lines_text(report_lines(*results, total_iterations)),
{
    let rs = results.results.as_slice();
    let failed = results_with_status(rs, CoreStatus::Failed);
    let passed = results_with_status(rs, CoreStatus::Passed);
    let ghost fs = with_status(rs@, CoreStatus::Failed);
    let ghost ps = with_status(rs@, CoreStatus::Passed);
    let ghost mut lines: Seq<Seq<char>> = seq![];
    let mut out: Vec<char> = Vec::new();
    let l1 = text::lit("core-probe results");
    push_line(&mut out, &l1, Ghost(lines));
    proof {
        lines = lines.push(l1@);
    }
    let mut l2: Vec<char> = Vec::new();
    text::push_repeat(&mut l2, '-', 40);
    assert(l2@ =~= text::repeat_char('-', 40));
    push_line(&mut out, &l2, Ghost(lines));
    proof {
        lines = lines.push(l2@);
    }
    if results.interrupted {
        let l = text::lit("INTERRUPTED: test stopped early, results are partial");
        push_line(&mut out, &l, Ghost(lines));
        proof {
            lines = lines.push(l@);
        }
    }
    if failed.len() == 0 && passed.len() == 0 {
        let l = text::lit("NO CORES TESTED");
        push_line(&mut out, &l, Ghost(lines));
        proof {
            lines = lines.push(l@);
        }
    } else {
        if failed.len() > 0 {
            let mut parts: Vec<Vec<char>> = Vec::new();
            let mut k: usize = 0;
            while k < failed.len()
                invariant
                    k <= failed.len(),
                    failed@.len() == fs.len(),
                    fs == with_status(rs@, CoreStatus::Failed),
                    forall|j: int| 0 <= j < failed@.len() ==> #[trigger] failed@[j] < rs@.len() && rs@[failed@[j] as int]
                        == fs[j],
                    text::pieces(parts@) == failed_entries(fs.take(k as int)),
                decreases failed.len() - k,
            {
                let r = &rs[failed[k]];
                let summary = coordinator::format_error_summary(r);
                let mut e = text::lit("core ");
                text::push_u64(&mut e, r.bios_index as u64);
                text::push_str(&mut e, ": ");
                if summary.as_str().is_empty() {
                    text::push_str(&mut e, "UNSTABLE");
                } else {
                    let sc = text::chars_of(summary.as_str());
                    text::push_chars(&mut e, &sc);
                }
                assert(e@ =~= failed_entry(fs[k as int]));
                proof {
                    text::lemma_pieces_push(parts@, e);
                }
                parts.push(e);
                k += 1;
                assert(failed_entries(fs.take(k as int)) =~= failed_entries(fs.take(k - 1)).push(
                    failed_entry(fs[k - 1]),
                ));
            }
            assert(fs.take(failed.len() as int) =~= fs);
            let joined = text::join_pieces(&parts, ", ");
            let mut l = text::lit("UNSTABLE (");
            text::push_u64(&mut l, failed.len() as u64);
            text::push_str(&mut l, "): ");
            text::push_chars(&mut l, &joined);
            push_line(&mut out, &l, Ghost(lines));
            proof {
                lines = lines.push(l@);
            }
        }
        if passed.len() > 0 {
            let mut parts: Vec<Vec<char>> = Vec::new();
            let mut k: usize = 0;
            while k < passed.len()
                invariant
                    k <= passed.len(),
                    passed@.len() == ps.len(),
                    forall|j: int| 0 <= j < passed@.len() ==> #[trigger] passed@[j] < rs@.len() && rs@[passed@[j] as int]
                        == ps[j],
                    text::pieces(parts@) == passed_entries(ps.take(k as int)),
                decreases passed.len() - k,
            {
                let d = text::u64_decimal(rs[passed[k]].bios_index as u64);
                proof {
                    text::lemma_pieces_push(parts@, d);
                }
                parts.push(d);
                k += 1;
                assert(passed_entries(ps.take(k as int)) =~= passed_entries(ps.take(k - 1)).push(
                    text::decimal(ps[k - 1].bios_index as nat),
                ));
            }
            assert(ps.take(passed.len() as int) =~= ps);
            let joined = text::join_pieces(&parts, ", ");
            let mut l = text::lit("STABLE (");
            text::push_u64(&mut l, passed.len() as u64);
            text::push_str(&mut l, "): ");
            text::push_chars(&mut l, &joined);
            push_line(&mut out, &l, Ghost(lines));
            proof {
                lines = lines.push(l@);
            }
        }
    }
    let mut f = text::lit("Duration: ");
    let d = format_duration(results.total_duration);
    let dc = text::chars_of(d.as_str());
    text::push_chars(&mut f, &dc);
    text::push_str(&mut f, " | Iterations: ");
    text::push_u64(&mut f, results.iterations_completed as u64);
    text::push_str(&mut f, "/");
    text::push_u64(&mut f, total_iterations as u64);
    text::push_str(&mut f, " | Interrupted: ");
    if results.interrupted {
        text::push_str(&mut f, "yes");
    } else {
        text::push_str(&mut f, "no");
    }
    push_line(&mut out, &f, Ghost(lines));
    proof {
        lines = lines.push(f@);
        assert(lines =~= report_lines(*results, total_iterations));
    }
    text::string_from_chars(&out)
}

/// 0 when every tested core passed and the run was not interrupted, else 1.
pub open spec fn exit_code_spec(results: CycleResults) -> i32 {
    if results.interrupted || exists|k: int|
        0 <= k < results.results@.len() && (#[trigger] results.results@[k]).status == CoreStatus::Failed {
        1
    } else {
        0
    }
}

pub fn exit_code_for(results: &CycleResults) -> (code: i32)
    ensures
        code == exit_code_spec(*results),
{
    if results.interrupted {
        return 1;
    }
    let mut i: usize = 0;
    while i < results.results.len()
        invariant
            i <= results.results.len(),
            forall|k: int| 0 <= k < i ==> (#[trigger] results.results@[k]).status != CoreStatus::Failed,
        decreases results.results.len() - i,
    {
        if results.results[i].status == CoreStatus::Failed {
            return 1;
        }
        i += 1;
    }
    0
}

// ---------------------------------------------------------------------------
// Options
// ---------------------------------------------------------------------------

/// The stress mode named on the command line: `sse`, `avx`, `avx2` or
/// `avx512`, in any case.
pub open spec fn stress_mode_spec(name: Seq<char>) -> Option<StressTestMode> {
    let l = text::ascii_lower_seq(name);
    if l == "sse"@ {
        Some(StressTestMode::SSE)
    } else if l == "avx"@ {
        Some(StressTestMode::AVX)
    } else if l == "avx2"@ {
        Some(StressTestMode::AVX2)
    } else if l == "avx512"@ {
        Some(StressTestMode::AVX512)
    } else {
        None
    }
}

pub open spec fn bad_mode_message(name: Seq<char>) -> Seq<char> {
    "unknown stress mode '"@ + name + "' (expected sse, avx, avx2 or avx512)"@
}

/// Reads a stress mode name.
pub fn parse_stress_mode(name: &str) -> (r: Result<StressTestMode, String>)
    ensures
        match r {
            Ok(m) => stress_mode_spec(name@) == Some(m),
            Err(e) => stress_mode_spec(name@) is None && e@ == bad_mode_message(name@),
        },
{
    let c = text::chars_of(name);
    let l = text::to_ascii_lowercase(&c);
    let sse = text::lit("sse");
    let avx = text::lit("avx");
    let avx2 = text::lit("avx2");
    let avx512 = text::lit("avx512");
    if text::chars_eq(&l, &sse) {
        Ok(StressTestMode::SSE)
    } else if text::chars_eq(&l, &avx) {
        Ok(StressTestMode::AVX)
    } else if text::chars_eq(&l, &avx2) {
        Ok(StressTestMode::AVX2)
    } else if text::chars_eq(&l, &avx512) {
        Ok(StressTestMode::AVX512)
    } else {
        let mut m = text::lit("unknown stress mode '");
        text::push_chars(&mut m, &c);
        text::push_str(&mut m, "' (expected sse, avx, avx2 or avx512)");
        Err(text::string_from_chars(&m))
    }
}

/// What a headless run does.
pub struct RunPlan {
    pub duration_secs: u64,
    pub iterations: u32,
    pub mode: StressTestMode,
    /// The physical cores to test; all when `None`.
    pub core_filter: Option<Vec<u32>>,
}

pub open spec fn opt_seq(s: Option<&str>) -> Option<Seq<char>> {
    match s {
        Some(x) => Some(x@),
        None => None,
    }
}

/// The plan that the options give, or the message that rejects them:
/// duration `6m` and 3 iterations of SSE over all cores unless given; no
/// zero iterations; a known mode; a valid core filter (checked in that
/// order).
pub open spec fn plan_spec(
    duration: Option<Seq<char>>,
    iterations: Option<u32>,
    mode: Option<Seq<char>>,
    cores: Option<Seq<char>>,
    topology: CpuTopology,
) -> Result<(u64, u32, StressTestMode, Option<Seq<u32>>), Seq<char>> {
    let d = gui::duration_setting_spec(
        match duration {
            Some(x) => x,
            None => "6m"@,
        },
    );
    let it = match iterations {
        Some(n) => n,
        None => 3,
    };
    if it == 0 {
        Err("iterations must be at least 1"@)
    } else {
        let m = match mode {
            Some(name) => match stress_mode_spec(name) {
                Some(md) => Ok(md),
                None => Err(bad_mode_message(name)),
            },
            None => Ok(StressTestMode::SSE),
        };
        match m {
            Err(e) => Err(e),
            Ok(md) => match cores {
                None => Ok((d, it, md, None)),
                Some(c) => match gui::core_filter_spec(
                    c,
                    topology.core_map@.len() as u32,
                    topology.physical_map@,
                ) {
                    Ok(f) => Ok((d, it, md, f)),
                    Err(e) => Err(e),
                },
            },
        }
    }
}

/// Reads the command-line options against the topology.
pub fn resolve_options(
    duration: Option<&str>,
    iterations: Option<u32>,
    mode: Option<&str>,
    cores: Option<&str>,
    topology: &CpuTopology,
) -> (r: Result<RunPlan, String>)
    ensures
        match r {
            Ok(p) => plan_spec(opt_seq(duration), iterations, opt_seq(mode), opt_seq(cores), *topology)
                == Ok::<(u64, u32, StressTestMode, Option<Seq<u32>>), Seq<char>>(
                (p.duration_secs, p.iterations, p.mode, gui::opt_view(p.core_filter)),
            ),
            Err(e) => plan_spec(opt_seq(duration), iterations, opt_seq(mode), opt_seq(cores), *topology)
                == Err::<(u64, u32, StressTestMode, Option<Seq<u32>>), Seq<char>>(e@),
        },
{
    let duration_secs = match duration {
        Some(d) => gui::parse_duration(d),
        None => gui::parse_duration("6m"),
    };
    let iterations = match iterations {
        Some(n) => n,
        None => 3,
    };
    if iterations == 0 {
        return Err("iterations must be at least 1".to_owned());
    }
    let mode = match mode {
        Some(name) => match parse_stress_mode(name) {
            Ok(m) => m,
            Err(e) => {
                return Err(e);
            },
        },
        None => StressTestMode::SSE,
    };
    let core_filter = match cores {
        Some(c) => match gui::parse_core_filter(c, topology) {
            Ok(f) => f,
            Err(e) => {
                return Err(e);
            },
        },
        None => None,
    };
    Ok(RunPlan { duration_secs, iterations, mode, core_filter })
}

/// The line printed when the run starts.
pub open spec fn start_line_spec(total_cores: usize, iterations: u32, duration_secs: u64) -> Seq<char> {
    "core-probe: testing "@ + text::decimal(total_cores as nat) + " core(s), "@ + text::decimal(
        iterations as nat,
    ) + " iteration(s), "@ + hms_spec(duration_secs) + " per core"@
}

pub fn start_line(total_cores: usize, iterations: u32, duration_secs: u64) -> (s: String)
    ensures
        s@ == start_line_spec(total_cores, iterations, duration_secs),
{
    let mut v = text::lit("core-probe: testing ");
    text::push_u64(&mut v, total_cores as u64);
    text::push_str(&mut v, " core(s), ");
    text::push_u64(&mut v, iterations as u64);
    text::push_str(&mut v, " iteration(s), ");
    let d = format_duration(duration_secs);
    let dc = text::chars_of(d.as_str());
    text::push_chars(&mut v, &dc);
    text::push_str(&mut v, " per core");
    text::string_from_chars(&v)
}

// ---------------------------------------------------------------------------
// Following the run
// ---------------------------------------------------------------------------

/// What the headless front end knows while the run goes on.
pub struct CliMonitor {
    /// The last thing printed was a progress line without its newline.
    pub progress_shown: bool,
    pub had_error: bool,
    pub results: Option<CycleResults>,
}

/// What to print for one report.
pub struct CliOutput {
    pub stdout: String,
    pub stderr: String,
    /// No more reports are to be read.
    pub stop: bool,
}

/// A newline first when a progress line is pending.
pub open spec fn after_progress(shown: bool, line: Seq<char>) -> Seq<char> {
    (if shown {
        seq!['\n']
    } else {
        seq![]
    }) + line + seq!['\n']
}

/// How the monitor `o` becomes `n` on a report (`None`: the channel
/// closed), and what it prints.
pub open spec fn monitor_spec(o: CliMonitor, n: CliMonitor, e: Option<TestEvent>, out: CliOutput) -> bool {
    match e {
        Some(TestEvent::CoreTestProgress { bios_index, elapsed_secs, duration_secs, .. }) => {
            &&& out.stdout@ == "\r  core "@ + text::decimal(bios_index as nat) + ": "@ + text::decimal(
                elapsed_secs as nat,
            ) + "s/"@ + text::decimal(duration_secs as nat) + "s"@
            &&& out.stderr@.len() == 0
            &&& !out.stop
            &&& n.progress_shown
            &&& n.had_error == o.had_error
            &&& n.results == o.results
        },
        Some(TestEvent::LogMessage { message, .. }) => {
            &&& out.stdout@ == after_progress(o.progress_shown, message@)
            &&& out.stderr@.len() == 0
            &&& !out.stop
            &&& !n.progress_shown
            &&& n.had_error == o.had_error
            &&& n.results == o.results
        },
        Some(TestEvent::IterationCompleted { iteration, total }) => {
            &&& out.stdout@ == after_progress(
                o.progress_shown,
                "Iteration "@ + text::decimal(iteration as nat) + "/"@ + text::decimal(total as nat)
                    + " complete"@,
            )
            &&& out.stderr@.len() == 0
            &&& !out.stop
            &&& !n.progress_shown
            &&& n.had_error == o.had_error
            &&& n.results == o.results
        },
        Some(TestEvent::TestError { message }) => {
            &&& out.stdout@.len() == 0
            &&& out.stderr@ == "Error: "@ + message@ + seq!['\n']
            &&& !out.stop
            &&& n.progress_shown == o.progress_shown
            &&& n.had_error
            &&& n.results == o.results
        },
        Some(TestEvent::TestCompleted { results }) => {
            &&& out.stdout@.len() == 0
            &&& out.stderr@.len() == 0
            &&& out.stop
            &&& n.progress_shown == o.progress_shown
            &&& n.had_error == o.had_error
            &&& n.results == Some(results)
        },
        Some(_) => {
            &&& out.stdout@.len() == 0
            &&& out.stderr@.len() == 0
            &&& !out.stop
            &&& n.progress_shown == o.progress_shown
            &&& n.had_error == o.had_error
            &&& n.results == o.results
        },
        None => {
            &&& out.stdout@.len() == 0
            &&& out.stderr@ == if o.results is None {
                "test run ended unexpectedly\n"@
            } else {
                seq![]
            }
            &&& out.stop
            &&& n.progress_shown == o.progress_shown
            &&& n.had_error == (o.had_error || o.results is None)
            &&& n.results == o.results
        },
    }
}

fn line_after_progress(shown: bool, line: &[char]) -> (s: String)
    ensures
        s@ == after_progress(shown, line@),
{
    let mut v: Vec<char> = Vec::new();
    if shown {
        v.push('\n');
    }
    text::push_chars(&mut v, line);
    v.push('\n');
    assert(v@ =~= after_progress(shown, line@));
    text::string_from_chars(&v)
}

impl CliMonitor {
    pub fn new() -> (m: CliMonitor)
        ensures
            !m.progress_shown,
            !m.had_error,
            m.results is None,
    {
        CliMonitor { progress_shown: false, had_error: false, results: None }
    }

    /// Takes one report (`None` once the channel has closed).
    pub fn handle(&mut self, event: Option<TestEvent>) -> (out: CliOutput)
        ensures
            monitor_spec(*old(self), *final(self), event, out),
    {
        match event {
            Some(TestEvent::CoreTestProgress { bios_index, elapsed_secs, duration_secs, .. }) => {
                let mut v = text::lit("\r  core ");
                text::push_u64(&mut v, bios_index as u64);
                text::push_str(&mut v, ": ");
                text::push_u64(&mut v, elapsed_secs);
                text::push_str(&mut v, "s/");
                text::push_u64(&mut v, duration_secs);
                text::push_str(&mut v, "s");
                assert(v@ =~= "\r  core "@ + text::decimal(bios_index as nat) + ": "@ + text::decimal(
                    elapsed_secs as nat,
                ) + "s/"@ + text::decimal(duration_secs as nat) + "s"@);
                self.progress_shown = true;
                CliOutput { stdout: text::string_from_chars(&v), stderr: String::new(), stop: false }
            },
            Some(TestEvent::LogMessage { message, .. }) => {
                let m = text::chars_of(message.as_str());
                let line = line_after_progress(self.progress_shown, &m);
                self.progress_shown = false;
                CliOutput { stdout: line, stderr: String::new(), stop: false }
            },
            Some(TestEvent::IterationCompleted { iteration, total }) => {
                let mut v = text::lit("Iteration ");
                text::push_u64(&mut v, iteration as u64);
                text::push_str(&mut v, "/");
                text::push_u64(&mut v, total as u64);
                text::push_str(&mut v, " complete");
                assert(v@ =~= "Iteration "@ + text::decimal(iteration as nat) + "/"@ + text::decimal(
                    total as nat,
                ) + " complete"@);
                let line = line_after_progress(self.progress_shown, &v);
                self.progress_shown = false;
                CliOutput { stdout: line, stderr: String::new(), stop: false }
            },
            Some(TestEvent::TestError { message }) => {
                let mut v = text::lit("Error: ");
                let m = text::chars_of(message.as_str());
                text::push_chars(&mut v, &m);
                v.push('\n');
                assert(v@ =~= "Error: "@ + message@ + seq!['\n']);
                self.had_error = true;
                CliOutput { stdout: String::new(), stderr: text::string_from_chars(&v), stop: false }
            },
            Some(TestEvent::TestCompleted { results }) => {
                self.results = Some(results);
                CliOutput { stdout: String::new(), stderr: String::new(), stop: true }
            },
            Some(_) => CliOutput { stdout: String::new(), stderr: String::new(), stop: false },
            None => {
                if self.results.is_none() {
                    self.had_error = true;
                    CliOutput {
                        stdout: String::new(),
                        stderr: "test run ended unexpectedly\n".to_owned(),
                        stop: true,
                    }
                } else {
                    CliOutput { stdout: String::new(), stderr: String::new(), stop: true }
                }
            },
        }
    }

    /// The report to print and the exit status, once the reports are over:
    /// the report of the results when they came and no error was reported,
    /// else no report and status 2.
    pub fn finish(self, total_iterations: u32) -> (r: (Option<String>, i32))
        ensures
            match self.results {
                Some(res) => if !self.had_error {
                    r.0 matches Some(s) && s@ == lines_text(report_lines(res, total_iterations)) && r.1
                        == exit_code_spec(res)
                } else {
                    r.0 is None && r.1 == 2
                },
                None => r.0 is None && r.1 == 2,
            },
    {
        match &self.results {
            Some(res) => if !self.had_error {
                (Some(build_report(res, total_iterations)), exit_code_for(res))
            } else {
                (None, 2)
            },
            None => (None, 2),
        }
    }
}

} // verus!
