//! The state of the graphical front end, and how it changes: with each
//! report of a running test, and with each action of the user. Drawing it
//! and moving the reports between threads is left to the caller, who
//! carries out the `GuiAction` that each step returns.
use crate::coordinator::{CoreStatus, CoreTestResult, CycleResults};
use crate::cpu_topology;
use crate::cpu_topology::CpuTopology;
use crate::embedded::ExtractedBinaries;
use crate::error_parser::MprimeError;
use crate::gui_events::{LogLevel, TestEvent};
use crate::gui_theme::ThemeMode;
use crate::mce_monitor::MceError;
use crate::mprime_config::StressTestMode;
use crate::text;
use crate::uefi_reader::UefiSettings;
use std::collections::BTreeMap;
use vstd::prelude::*;

verus! {

// ---------------------------------------------------------------------------
// The state
// ---------------------------------------------------------------------------

/// One line of the log panel.
#[derive(Debug, Clone)]
pub struct LogEntry {
    /// `HH:MM:SS` of the moment the line was added.
    pub timestamp: String,
    pub level: LogLevel,
    pub message: String,
}

/// The settings of the next run, as the user typed them.
#[derive(Debug, Clone)]
pub struct TestConfig {
    /// Time per core, such as `6m`, `90s` or `1h30m`.
    pub duration: String,
    pub iterations: u32,
    pub mode: StressTestMode,
    /// BIOS core indices, comma-separated, or `all`.
    pub cores: String,
}

impl Default for TestConfig {
    fn default() -> (c: TestConfig)
        ensures
            c.duration@ == "6m"@,
            c.iterations == 3,
            c.mode == StressTestMode::SSE,
            c.cores@ == "all"@,
    {
        TestConfig {
            duration: "6m".to_owned(),
            iterations: 3,
            mode: StressTestMode::default(),
            cores: "all".to_owned(),
        }
    }
}

/// How far the run has come.
#[derive(Debug, Clone, Copy, PartialEq, Eq, Structural)]
pub struct TestProgress {
    pub current_core: Option<u32>,
    pub cores_completed: usize,
    pub total_cores: usize,
}

impl Default for TestProgress {
    fn default() -> (p: TestProgress)
        ensures
            p == (TestProgress { current_core: None, cores_completed: 0, total_cores: 0 }),
    {
        TestProgress { current_core: None, cores_completed: 0, total_cores: 0 }
    }
}

/// How far the core under test has come.
#[derive(Debug, Clone, Copy, PartialEq, Eq, Structural)]
pub struct PerCoreProgress {
    pub elapsed_secs: u64,
    pub duration_secs: u64,
}

impl Default for PerCoreProgress {
    fn default() -> (p: PerCoreProgress)
        ensures
            p == (PerCoreProgress { elapsed_secs: 0, duration_secs: 0 }),
    {
        PerCoreProgress { elapsed_secs: 0, duration_secs: 0 }
    }
}

/// What the last test of a core found.
#[derive(Debug, Clone)]
pub struct CoreResultInfo {
    pub mprime_errors: Vec<MprimeError>,
    pub mce_errors: Vec<MceError>,
    /// Seconds under test.
    pub duration_tested: u64,
    pub iterations_completed: u32,
}

/// A setting the user changed.
pub enum ConfigField {
    Duration(String),
    Iterations(u32),
    Mode(StressTestMode),
    Cores(String),
}

/// What the user or the timer asks of the front end.
pub enum Message {
    StartTest,
    StopTest,
    ThemeToggle,
    ConfigChanged(ConfigField),
    EventReceived(TestEvent),
    /// The periodic timer: collect the reports of the running test.
    Tick,
    DismissError,
}

/// The whole state of the front end.
pub struct CoreProbeApp {
    pub topology: Option<CpuTopology>,
    pub uefi_settings: Option<UefiSettings>,
    pub core_statuses: BTreeMap<u32, CoreStatus>,
    pub core_progress: BTreeMap<u32, PerCoreProgress>,
    pub core_results: BTreeMap<u32, CoreResultInfo>,
    pub log_entries: Vec<LogEntry>,
    pub theme_mode: ThemeMode,
    pub config: TestConfig,
    pub test_running: bool,
    pub progress: TestProgress,
    pub error_banner: Option<String>,
    /// Reports of a run are awaited (the caller keeps their channel open).
    pub receiving: bool,
    pub extracted_binaries: Option<ExtractedBinaries>,
}

/// A desktop notification to show.
pub struct Notification {
    pub summary: String,
    pub body: String,
    /// `normal` or `critical`.
    pub urgency: String,
}

/// The most lines the log keeps; older ones are dropped.
pub const LOG_CAPACITY: usize = 1000;

// ---------------------------------------------------------------------------
// The log
// ---------------------------------------------------------------------------

/// `HH:MM:SS` (UTC) of a moment given in seconds since the Unix epoch.
pub open spec fn clock_spec(epoch_secs: u64) -> Seq<char> {
    let s = epoch_secs % 86400;
    text::pad_zero(text::decimal((s / 3600) as nat), 2) + ":"@ + text::pad_zero(
        text::decimal(((s % 3600) / 60) as nat),
        2,
    ) + ":"@ + text::pad_zero(text::decimal((s % 60) as nat), 2)
}

pub fn clock_label(epoch_secs: u64) -> (s: String)
    ensures
        s@ == clock_spec(epoch_secs),
{
    let secs = epoch_secs % 86400;
    let hour = secs / 3600;
    let minute = (secs % 3600) / 60;
    let second = secs % 60;
    let mut v: Vec<char> = Vec::new();
    let h = text::u64_decimal(hour);
    text::push_padded(&mut v, &h, '0', 2);
    text::push_str(&mut v, ":");
    let m = text::u64_decimal(minute);
    text::push_padded(&mut v, &m, '0', 2);
    text::push_str(&mut v, ":");
    let sec = text::u64_decimal(second);
    text::push_padded(&mut v, &sec, '0', 2);
    assert(v@ =~= clock_spec(epoch_secs));
    text::string_from_chars(&v)
}

/// The log after a line was added at its end: when it then holds more
/// than `LOG_CAPACITY` lines, the oldest are dropped.
pub open spec fn log_appended(
    old_log: Seq<LogEntry>,
    new_log: Seq<LogEntry>,
    level: LogLevel,
    message: Seq<char>,
    timestamp: Seq<char>,
) -> bool {
    let full = old_log.len() + 1;
    let dropped: int = if full > LOG_CAPACITY { full - LOG_CAPACITY } else { 0 };
    &&& new_log.len() == full - dropped
    &&& forall|i: int| 0 <= i < new_log.len() - 1 ==> #[trigger] new_log[i] == old_log[i + dropped]
    &&& new_log.last().level == level
    &&& new_log.last().message@ == message
    &&& new_log.last().timestamp@ == timestamp
}

/// Adds a line to the log, stamped with `now_secs` (seconds since the
/// Unix epoch), dropping the oldest lines beyond `LOG_CAPACITY`.
pub fn append_log(log: &mut Vec<LogEntry>, level: LogLevel, message: String, now_secs: u64)
    ensures
        log_appended(old(log)@, final(log)@, level, message@, clock_spec(now_secs)),
{
    let ghost msg = message@;
    let timestamp = clock_label(now_secs);
    log.push(LogEntry { timestamp, level, message });
    let ghost full = log@;
    if log.len() > LOG_CAPACITY {
        let overflow = log.len() - LOG_CAPACITY;
        let kept = log.split_off(overflow);
        *log = kept;
        assert(log@ =~= full.subrange(overflow as int, full.len() as int));
    }
}

// ---------------------------------------------------------------------------
// Reports of the running test
// ---------------------------------------------------------------------------

pub open spec fn starting_message(bios_index: u32, iteration: u32) -> Seq<char> {
    "Core "@ + text::decimal(bios_index as nat) + " starting (iteration "@ + text::decimal(
        iteration as nat,
    ) + ")"@
}

/// The level and the words of the log line for a finished core.
pub open spec fn completed_log(status: CoreStatus) -> (LogLevel, Seq<char>) {
    match status {
        CoreStatus::Passed => (LogLevel::Stable, " stable"@),
        CoreStatus::Failed => (LogLevel::Error, " unstable"@),
        CoreStatus::Interrupted => (LogLevel::Mce, " interrupted"@),
        CoreStatus::Skipped => (LogLevel::Default, " skipped"@),
        _ => (LogLevel::Default, " updated"@),
    }
}

pub open spec fn completed_message(core: u32, status: CoreStatus) -> Seq<char> {
    "Core "@ + text::decimal(core as nat) + completed_log(status).1
}

pub open spec fn iteration_message(iteration: u32, total: u32) -> Seq<char> {
    "Completed iteration "@ + text::decimal(iteration as nat) + "/"@ + text::decimal(total as nat)
}

/// The BIOS indices of the cores whose result failed, in the order of the
/// results.
pub open spec fn failed_cores(results: Seq<CoreTestResult>) -> Seq<u32>
    decreases results.len(),
{
    if results.len() == 0 {
        seq![]
    } else {
        let rest = failed_cores(results.drop_last());
        if results.last().status == CoreStatus::Failed {
            rest.push(results.last().bios_index)
        } else {
            rest
        }
    }
}

pub open spec fn decimals(ids: Seq<u32>) -> Seq<Seq<char>> {
    ids.map_values(|i: u32| text::decimal(i as nat))
}

/// Summary, body and urgency of the notification at the end of a run.
pub open spec fn completion_spec(results: Seq<CoreTestResult>) -> (Seq<char>, Seq<char>, Seq<char>) {
    let failed = failed_cores(results);
    let total = text::decimal(results.len());
    if failed.len() == 0 {
        ("core-probe: All cores stable"@, total + "/"@ + total + " cores passed"@, "normal"@)
    } else {
        (
            "core-probe: "@ + text::decimal(failed.len()) + " core(s) unstable"@,
            "Failed cores: "@ + text::join_sep(decimals(failed), ", "@),
            "critical"@,
        )
    }
}

fn failed_core_ids(results: &[CoreTestResult]) -> (ids: Vec<u32>)
    ensures
        ids@ == failed_cores(results@),
{
    let mut ids: Vec<u32> = Vec::new();
    let mut i: usize = 0;
    while i < results.len()
        invariant
            i <= results.len(),
            ids@ == failed_cores(results@.take(i as int)),
        decreases results.len() - i,
    {
        assert(results@.take(i + 1).drop_last() =~= results@.take(i as int));
        if results[i].status == CoreStatus::Failed {
            ids.push(results[i].bios_index);
        }
        i += 1;
    }
    assert(results@.take(results.len() as int) =~= results@);
    ids
}

/// The notification at the end of a run: all stable, or how many and
/// which cores failed.
pub fn build_completion_notification(results: &[CoreTestResult]) -> (r: (String, String, &'static str))
    ensures
        r.0@ == completion_spec(results@).0,
        r.1@ == completion_spec(results@).1,
        r.2@ == completion_spec(results@).2,
{
    let failed = failed_core_ids(results);
    let total = results.len();
    if failed.len() == 0 {
        let summary = "core-probe: All cores stable".to_owned();
        let mut body: Vec<char> = Vec::new();
        text::push_u64(&mut body, total as u64);
        text::push_str(&mut body, "/");
        text::push_u64(&mut body, total as u64);
        text::push_str(&mut body, " cores passed");
        assert(body@ =~= completion_spec(results@).1);
        (summary, text::string_from_chars(&body), "normal")
    } else {
        let mut summary: Vec<char> = text::lit("core-probe: ");
        text::push_u64(&mut summary, failed.len() as u64);
        text::push_str(&mut summary, " core(s) unstable");
        assert(summary@ =~= completion_spec(results@).0);
        let mut parts: Vec<Vec<char>> = Vec::new();
        let mut i: usize = 0;
        while i < failed.len()
            invariant
                i <= failed.len(),
                text::pieces(parts@) == decimals(failed@.take(i as int)),
            decreases failed.len() - i,
        {
            let d = text::u64_decimal(failed[i] as u64);
            proof {
                text::lemma_pieces_push(parts@, d);
            }
            parts.push(d);
            i += 1;
            assert(decimals(failed@.take(i as int)) =~= decimals(failed@.take(i - 1)).push(
                text::decimal(failed@[i - 1] as nat),
            ));
        }
        assert(failed@.take(failed.len() as int) =~= failed@);
        let joined = text::join_pieces(&parts, ", ");
        let mut body: Vec<char> = text::lit("Failed cores: ");
        text::push_chars(&mut body, &joined);
        (text::string_from_chars(&summary), text::string_from_chars(&body), "critical")
    }
}

// ---------------------------------------------------------------------------
// Applying a report
// ---------------------------------------------------------------------------

/// What no report changes: the machine, the user's settings and the
/// unpacked binaries.
pub open spec fn settings_kept(o: CoreProbeApp, n: CoreProbeApp) -> bool {
    &&& n.topology == o.topology
    &&& n.uefi_settings == o.uefi_settings
    &&& n.theme_mode == o.theme_mode
    &&& n.config == o.config
    &&& n.extracted_binaries == o.extracted_binaries
}

/// The run's own fields other than the tables are kept.
pub open spec fn run_kept(o: CoreProbeApp, n: CoreProbeApp) -> bool {
    &&& n.test_running == o.test_running
    &&& n.error_banner == o.error_banner
    &&& n.receiving == o.receiving
}

pub open spec fn tables_kept(o: CoreProbeApp, n: CoreProbeApp) -> bool {
    &&& n.core_statuses@ == o.core_statuses@
    &&& n.core_progress@ == o.core_progress@
    &&& n.core_results@ == o.core_results@
}

/// The information kept about a finished core.
pub open spec fn result_info_of(r: CoreTestResult, info: CoreResultInfo) -> bool {
    &&& info.mprime_errors@ == r.mprime_errors@
    &&& info.mce_errors@ == r.mce_errors@
    &&& info.duration_tested == r.duration_tested
    &&& info.iterations_completed == r.iterations_completed
}

/// How one report changes the state `o` into `n` at moment `now`, and the
/// notification it asks for.
pub open spec fn event_spec(
    o: CoreProbeApp,
    n: CoreProbeApp,
    e: TestEvent,
    now: u64,
    note: Option<Notification>,
) -> bool {
    &&& settings_kept(o, n)
    &&& match e {
        TestEvent::TestStarted { total_cores } => {
            &&& n.progress == (TestProgress { current_core: None, cores_completed: 0, total_cores })
            &&& n.core_statuses@ == o.core_statuses@
            &&& n.core_progress@ == Map::<u32, PerCoreProgress>::empty()
            &&& n.core_results@ == Map::<u32, CoreResultInfo>::empty()
            &&& n.log_entries@ == o.log_entries@
            &&& run_kept(o, n)
            &&& note is None
        },
        TestEvent::CoreTestStarting { physical_core_id, bios_index, iteration } => {
            &&& n.progress == (TestProgress { current_core: Some(physical_core_id), ..o.progress })
            &&& n.core_statuses@ == o.core_statuses@.insert(physical_core_id, CoreStatus::Testing)
            &&& n.core_progress@ == o.core_progress@
            &&& n.core_results@ == o.core_results@
            &&& log_appended(
                o.log_entries@,
                n.log_entries@,
                LogLevel::Default,
                starting_message(bios_index, iteration),
                clock_spec(now),
            )
            &&& run_kept(o, n)
            &&& note is None
        },
        TestEvent::CoreTestProgress { physical_core_id, bios_index, elapsed_secs, duration_secs } => {
            &&& n.progress == (TestProgress { current_core: Some(physical_core_id), ..o.progress })
            &&& n.core_statuses@ == if !o.core_statuses@.contains_key(physical_core_id)
                || o.core_statuses@[physical_core_id] == CoreStatus::Idle {
                o.core_statuses@.insert(physical_core_id, CoreStatus::Testing)
            } else {
                o.core_statuses@
            }
            &&& n.core_progress@ == o.core_progress@.insert(
                physical_core_id,
                PerCoreProgress { elapsed_secs, duration_secs },
            )
            &&& n.core_results@ == o.core_results@
            &&& n.log_entries@ == o.log_entries@
            &&& run_kept(o, n)
            &&& note is None
        },
        TestEvent::CoreTestCompleted { result } => {
            &&& n.progress == (TestProgress {
                cores_completed: if o.progress.cores_completed < usize::MAX {
                    (o.progress.cores_completed + 1) as usize
                } else {
                    usize::MAX
                },
                ..o.progress
            })
            &&& n.core_statuses@ == o.core_statuses@.insert(result.core_id, result.status)
            &&& n.core_progress@ == o.core_progress@.remove(result.core_id)
            &&& n.core_results@.dom() == o.core_results@.dom().insert(result.core_id)
            &&& forall|k: u32| k != result.core_id && #[trigger] o.core_results@.contains_key(k)
                ==> n.core_results@[k] == o.core_results@[k]
            &&& result_info_of(result, n.core_results@[result.core_id])
            &&& log_appended(
                o.log_entries@,
                n.log_entries@,
                completed_log(result.status).0,
                completed_message(result.bios_index, result.status),
                clock_spec(now),
            )
            &&& run_kept(o, n)
            &&& note is None
        },
        TestEvent::IterationCompleted { iteration, total } => {
            &&& n.progress == o.progress
            &&& tables_kept(o, n)
            &&& log_appended(
                o.log_entries@,
                n.log_entries@,
                LogLevel::Default,
                iteration_message(iteration, total),
                clock_spec(now),
            )
            &&& run_kept(o, n)
            &&& note is None
        },
        TestEvent::TestCompleted { results } => {
            &&& n.progress == (TestProgress {
                current_core: None,
                cores_completed: results.results@.len() as usize,
                total_cores: results.results@.len() as usize,
            })
            &&& tables_kept(o, n)
            &&& n.log_entries@ == o.log_entries@
            &&& !n.test_running
            &&& !n.receiving
            &&& n.error_banner == o.error_banner
            &&& note matches Some(t) && t.summary@ == completion_spec(results.results@).0
                && t.body@ == completion_spec(results.results@).1 && t.urgency@ == completion_spec(
                results.results@,
            ).2
        },
        TestEvent::LogMessage { level, message } => {
            &&& n.progress == o.progress
            &&& tables_kept(o, n)
            &&& log_appended(o.log_entries@, n.log_entries@, level, message@, clock_spec(now))
            &&& run_kept(o, n)
            &&& note is None
        },
        TestEvent::TestError { message } => {
            &&& n.progress == o.progress
            &&& tables_kept(o, n)
            &&& log_appended(o.log_entries@, n.log_entries@, LogLevel::Error, message@, clock_spec(now))
            &&& !n.test_running
            &&& !n.receiving
            &&& n.error_banner matches Some(b) && b@ == message@
            &&& note matches Some(t) && t.summary@ == "core-probe: Test Error"@ && t.body@ == message@
                && t.urgency@ == "critical"@
        },
    }
}

fn core_message(core: u32, tail: &str) -> (s: String)
    ensures
        s@ == "Core "@ + text::decimal(core as nat) + tail@,
{
    let mut v = text::lit("Core ");
    text::push_u64(&mut v, core as u64);
    text::push_str(&mut v, tail);
    text::string_from_chars(&v)
}

fn on_core_completed(state: &mut CoreProbeApp, result: CoreTestResult, now_secs: u64)
    ensures
        event_spec(*old(state), *final(state), TestEvent::CoreTestCompleted { result }, now_secs, None),
{
    broadcast use vstd::std_specs::btree::group_btree_axioms;
    let ghost r = result;
    let core = result.core_id;
    let bios = result.bios_index;
    let status = result.status;
    state.core_statuses.insert(core, status);
    state.progress.cores_completed = state.progress.cores_completed.saturating_add(1);
    state.core_progress.remove(&core);
    let info = CoreResultInfo {
        mprime_errors: result.mprime_errors,
        mce_errors: result.mce_errors,
        duration_tested: result.duration_tested,
        iterations_completed: result.iterations_completed,
    };
    state.core_results.insert(core, info);
    let (level, message) = match status {
        CoreStatus::Passed => (LogLevel::Stable, core_message(bios, " stable")),
        CoreStatus::Failed => (LogLevel::Error, core_message(bios, " unstable")),
        CoreStatus::Interrupted => (LogLevel::Mce, core_message(bios, " interrupted")),
        CoreStatus::Skipped => (LogLevel::Default, core_message(bios, " skipped")),
        _ => (LogLevel::Default, core_message(bios, " updated")),
    };
    append_log(&mut state.log_entries, level, message, now_secs);
}

/// Applies one report of the running test; `now_secs` (seconds since the
/// Unix epoch) stamps the log lines it adds. Returns the desktop
/// notification to show, at the end of a run or on an error.
pub fn process_event(state: &mut CoreProbeApp, event: TestEvent, now_secs: u64) -> (note: Option<Notification>)
    ensures
        event_spec(*old(state), *final(state), event, now_secs, note),
{
    broadcast use vstd::std_specs::btree::group_btree_axioms;
    match event {
        TestEvent::TestStarted { total_cores } => {
            state.progress.total_cores = total_cores;
            state.progress.cores_completed = 0;
            state.progress.current_core = None;
            state.core_progress.clear();
            state.core_results.clear();
            None
        },
        TestEvent::CoreTestStarting { physical_core_id, bios_index, iteration } => {
            state.progress.current_core = Some(physical_core_id);
            state.core_statuses.insert(physical_core_id, CoreStatus::Testing);
            let mut v = text::lit("Core ");
            text::push_u64(&mut v, bios_index as u64);
            text::push_str(&mut v, " starting (iteration ");
            text::push_u64(&mut v, iteration as u64);
            text::push_str(&mut v, ")");
            assert(v@ =~= starting_message(bios_index, iteration));
            append_log(&mut state.log_entries, LogLevel::Default, text::string_from_chars(&v), now_secs);
            None
        },
        TestEvent::CoreTestProgress { physical_core_id, bios_index, elapsed_secs, duration_secs } => {
            state.progress.current_core = Some(physical_core_id);
            let idle = match state.core_statuses.get(&physical_core_id) {
                Some(s) => *s == CoreStatus::Idle,
                None => true,
            };
            if idle {
                state.core_statuses.insert(physical_core_id, CoreStatus::Testing);
            }
            state.core_progress.insert(physical_core_id, PerCoreProgress { elapsed_secs, duration_secs });
            None
        },
        TestEvent::CoreTestCompleted { result } => {
            on_core_completed(state, result, now_secs);
            None
        },
        TestEvent::IterationCompleted { iteration, total } => {
            let mut v = text::lit("Completed iteration ");
            text::push_u64(&mut v, iteration as u64);
            text::push_str(&mut v, "/");
            text::push_u64(&mut v, total as u64);
            assert(v@ =~= iteration_message(iteration, total));
            append_log(&mut state.log_entries, LogLevel::Default, text::string_from_chars(&v), now_secs);
            None
        },
        TestEvent::TestCompleted { results } => {
            state.test_running = false;
            state.receiving = false;
            state.progress.current_core = None;
            state.progress.total_cores = results.results.len();
            state.progress.cores_completed = results.results.len();
            let (summary, body, urgency) = build_completion_notification(results.results.as_slice());
            Some(Notification { summary, body, urgency: urgency.to_owned() })
        },
        TestEvent::LogMessage { level, message } => {
            append_log(&mut state.log_entries, level, message, now_secs);
            None
        },
        TestEvent::TestError { message } => {
            let banner = message.clone();
            let body = message.clone();
            state.error_banner = Some(banner);
            state.test_running = false;
            state.receiving = false;
            append_log(&mut state.log_entries, LogLevel::Error, message, now_secs);
            Some(Notification {
                summary: "core-probe: Test Error".to_owned(),
                body,
                urgency: "critical".to_owned(),
            })
        },
    }
}

// ---------------------------------------------------------------------------
// Reading the settings
// ---------------------------------------------------------------------------

/// The duration used when the text does not give one.
pub const DEFAULT_DURATION_SECS: u64 = 360;

pub open spec fn sat(v: int) -> u64 {
    if v > u64::MAX { u64::MAX } else { v as u64 }
}

pub open spec fn is_unit(c: char) -> bool {
    c == 'h' || c == 'H' || c == 'm' || c == 'M' || c == 's' || c == 'S'
}

/// `v` units of `c` in seconds.
pub open spec fn unit_seconds(v: int, c: char) -> int {
    if c == 'h' || c == 'H' {
        v * 3600
    } else if c == 'm' || c == 'M' {
        v * 60
    } else {
        v
    }
}

/// The unit letter was used before.
pub open spec fn unit_seen(c: char, sh: bool, sm: bool, ss: bool) -> bool {
    if c == 'h' || c == 'H' {
        sh
    } else if c == 'm' || c == 'M' {
        sm
    } else {
        ss
    }
}

/// Reads `s` from position `i` as numbers each followed by a unit (`h`,
/// `m` or `s`, either case, each unit at most once), having read `total`
/// seconds so far and the pending digits `digits`. The total, or `None`
/// when the text does not have that form or a number does not fit in a
/// `u64`.
pub open spec fn scan_units(
    s: Seq<char>,
    i: int,
    total: int,
    digits: Seq<char>,
    sh: bool,
    sm: bool,
    ss: bool,
) -> Option<int>
    decreases s.len() - i,
{
    if i < 0 || i >= s.len() {
        if digits.len() == 0 && (sh || sm || ss) {
            Some(total)
        } else {
            None
        }
    } else {
        let c = s[i];
        if text::is_digit(c) {
            scan_units(s, i + 1, total, digits.push(c), sh, sm, ss)
        } else if is_unit(c) && !unit_seen(c, sh, sm, ss) && digits.len() > 0 {
            match text::parse_u64_spec(digits) {
                Some(v) => scan_units(
                    s,
                    i + 1,
                    total + unit_seconds(v as int, c),
                    seq![],
                    sh || c == 'h' || c == 'H',
                    sm || c == 'm' || c == 'M',
                    ss || c == 's' || c == 'S',
                ),
                None => None,
            }
        } else {
            None
        }
    }
}

/// The duration per core, in seconds, that a setting such as `6m`, `90s`,
/// `1h30m` or a plain number of minutes gives. Sums that do not fit
/// saturate; anything else (empty, malformed) gives the default of six
/// minutes.
pub open spec fn duration_setting_spec(input: Seq<char>) -> u64 {
    let t = text::trim(input);
    if t.len() == 0 {
        DEFAULT_DURATION_SECS
    } else {
        match text::parse_u64_spec(t) {
            Some(minutes) => sat(minutes * 60),
            None => match scan_units(t, 0, 0, seq![], false, false, false) {
                Some(total) => sat(total),
                None => DEFAULT_DURATION_SECS,
            },
        }
    }
}

fn saturating_times(v: u64, k: u64) -> (r: u64)
    ensures
        r == sat(v * k),
{
    match v.checked_mul(k) {
        Some(p) => p,
        None => u64::MAX,
    }
}

/// Reads the duration setting, in seconds.
pub fn parse_duration(input: &str) -> (secs: u64)
    ensures
        secs == duration_setting_spec(input@),
{
    let t = text::trim_str(input);
    if t.len() == 0 {
        return DEFAULT_DURATION_SECS;
    }
    if let Some(minutes) = text::parse_u64(&t) {
        return saturating_times(minutes, 60);
    }
    let ghost whole = scan_units(t@, 0, 0, seq![], false, false, false);
    let mut total: u64 = 0;
    let ghost mut exact: int = 0;
    let mut digits: Vec<char> = Vec::new();
    let mut sh = false;
    let mut sm = false;
    let mut ss = false;
    let mut i: usize = 0;
    while i < t.len()
        invariant
            i <= t.len(),
            t@ == text::trim(input@),
            t@.len() > 0,
            text::parse_u64_spec(t@) is None,
            whole == scan_units(t@, 0, 0, seq![], false, false, false),
            scan_units(t@, i as int, exact, digits@, sh, sm, ss) == whole,
            exact >= 0,
            total == sat(exact),
        decreases t.len() - i,
    {
        let c = t[i];
        if text::char_is_digit(c) {
            digits.push(c);
        } else if c == 'h' || c == 'H' || c == 'm' || c == 'M' || c == 's' || c == 'S' {
            let seen = if c == 'h' || c == 'H' {
                sh
            } else if c == 'm' || c == 'M' {
                sm
            } else {
                ss
            };
            if seen || digits.len() == 0 {
                return DEFAULT_DURATION_SECS;
            }
            let v = match text::parse_u64(&digits) {
                Some(v) => v,
                None => {
                    return DEFAULT_DURATION_SECS;
                },
            };
            let k: u64 = if c == 'h' || c == 'H' {
                3600
            } else if c == 'm' || c == 'M' {
                60
            } else {
                1
            };
            let add = saturating_times(v, k);
            proof {
                assert(unit_seconds(v as int, c) == v * k);
                exact = exact + unit_seconds(v as int, c);
            }
            total = total.saturating_add(add);
            digits = Vec::new();
            if c == 'h' || c == 'H' {
                sh = true;
            } else if c == 'm' || c == 'M' {
                sm = true;
            } else {
                ss = true;
            }
        } else {
            return DEFAULT_DURATION_SECS;
        }
        i += 1;
    }
    if digits.len() > 0 || !(sh || sm || ss) {
        return DEFAULT_DURATION_SECS;
    }
    total
}

/// The comma-separated tokens, trimmed, empty ones skipped, read as BIOS
/// core indices: the indices in order, or the first token that is not one.
pub open spec fn parse_tokens(parts: Seq<Seq<char>>) -> Result<Seq<u32>, Seq<char>>
    decreases parts.len(),
{
    if parts.len() == 0 {
        Ok(seq![])
    } else {
        match parse_tokens(parts.drop_last()) {
            Err(t) => Err(t),
            Ok(v) => {
                let t = text::trim(parts.last());
                if t.len() == 0 {
                    Ok(v)
                } else {
                    match text::parse_u32_spec(t) {
                        Some(x) => Ok(v.push(x)),
                        None => Err(t),
                    }
                }
            },
        }
    }
}

proof fn lemma_parse_tokens_err(parts: Seq<Seq<char>>, i: int)
    requires
        0 <= i <= parts.len(),
        parse_tokens(parts.take(i)) is Err,
    ensures
        parse_tokens(parts) == parse_tokens(parts.take(i)),
    decreases parts.len() - i,
{
    if i < parts.len() {
        assert(parts.take(i + 1).drop_last() =~= parts.take(i));
        lemma_parse_tokens_err(parts, i + 1);
    } else {
        assert(parts.take(i) =~= parts);
    }
}

/// The elements of `s` that are at least `m`, in order.
pub open spec fn at_least(s: Seq<u32>, m: u32) -> Seq<u32>
    decreases s.len(),
{
    if s.len() == 0 {
        seq![]
    } else {
        let r = at_least(s.drop_last(), m);
        if s.last() >= m {
            r.push(s.last())
        } else {
            r
        }
    }
}

/// The physical core of a BIOS index, or the index itself when the
/// topology does not know it.
pub open spec fn physical_or_self(physical: Map<u32, u32>, i: u32) -> u32 {
    match cpu_topology::map_get(physical, i) {
        Some(p) => p,
        None => i,
    }
}

/// The cores a filter setting selects, as physical core ids in increasing
/// order of BIOS index (`None`: all cores), or the message that rejects
/// it. `core_count` is the topology's number of physical cores (as `u32`)
/// and `physical` its BIOS-index-to-core map.
pub open spec fn core_filter_spec(input: Seq<char>, core_count: u32, physical: Map<u32, u32>) -> Result<
    Option<Seq<u32>>,
    Seq<char>,
> {
    let t = text::trim(input);
    if t.len() == 0 || text::eq_ignore_ascii_case(t, "all"@) {
        Ok(None)
    } else {
        match parse_tokens(text::split_on(t, ',')) {
            Err(tok) => Err("Invalid BIOS core index '"@ + tok + "' in core filter"@),
            Ok(v) => if v.len() == 0 {
                Ok(None)
            } else {
                let sorted = cpu_topology::sorted_seq_of(v.to_set());
                let invalid = at_least(sorted, core_count);
                if invalid.len() > 0 {
                    Err(
                        "Invalid BIOS core indices: "@ + text::join_sep(decimals(invalid), ","@)
                            + ". Valid range: 0-"@ + text::decimal(
                            (if core_count > 0 { core_count - 1 } else { 0 }) as nat,
                        ),
                    )
                } else {
                    Ok(Some(sorted.map_values(|i: u32| physical_or_self(physical, i))))
                }
            },
        }
    }
}

fn decimal_pieces(ids: &Vec<u32>) -> (parts: Vec<Vec<char>>)
    ensures
        text::pieces(parts@) == decimals(ids@),
{
    let mut parts: Vec<Vec<char>> = Vec::new();
    let mut i: usize = 0;
    while i < ids.len()
        invariant
            i <= ids.len(),
            text::pieces(parts@) == decimals(ids@.take(i as int)),
        decreases ids.len() - i,
    {
        let d = text::u64_decimal(ids[i] as u64);
        proof {
            text::lemma_pieces_push(parts@, d);
        }
        parts.push(d);
        i += 1;
        assert(decimals(ids@.take(i as int)) =~= decimals(ids@.take(i - 1)).push(
            text::decimal(ids@[i - 1] as nat),
        ));
    }
    assert(ids@.take(ids.len() as int) =~= ids@);
    parts
}

fn read_core_indices(t: &Vec<char>) -> (r: Result<Vec<u32>, Vec<char>>)
    ensures
        match r {
            Ok(v) => parse_tokens(text::split_on(t@, ',')) == Ok::<Seq<u32>, Seq<char>>(v@),
            Err(tok) => parse_tokens(text::split_on(t@, ',')) == Err::<Seq<u32>, Seq<char>>(tok@),
        },
{
    let parts = text::split_chars(t, ',');
    let ghost ps = text::pieces(parts@);
    let mut idx: Vec<u32> = Vec::new();
    let mut i: usize = 0;
    assert(ps.take(0) =~= Seq::<Seq<char>>::empty());
    while i < parts.len()
        invariant
            i <= parts.len(),
            ps == text::pieces(parts@),
            ps == text::split_on(t@, ','),
            parse_tokens(ps.take(i as int)) == Ok::<Seq<u32>, Seq<char>>(idx@),
        decreases parts.len() - i,
    {
        assert(ps.take(i + 1).drop_last() =~= ps.take(i as int));
        assert(ps.take(i + 1).last() == parts@[i as int]@);
        let tok = text::trim_chars(&parts[i]);
        if tok.len() > 0 {
            match text::parse_u32(&tok) {
                Some(x) => idx.push(x),
                None => {
                    proof {
                        lemma_parse_tokens_err(ps, i + 1);
                    }
                    return Err(tok);
                },
            }
        }
        i += 1;
    }
    assert(ps.take(parts.len() as int) =~= ps);
    Ok(idx)
}

/// Reads the core filter setting against the topology: `None` for all
/// cores, else the selected physical cores.
pub fn parse_core_filter(input: &str, topology: &CpuTopology) -> (r: Result<Option<Vec<u32>>, String>)
    ensures
        match r {
            Ok(None) => core_filter_spec(input@, topology.core_map@.len() as u32, topology.physical_map@)
                == Ok::<Option<Seq<u32>>, Seq<char>>(None),
            Ok(Some(v)) => core_filter_spec(input@, topology.core_map@.len() as u32, topology.physical_map@)
                == Ok::<Option<Seq<u32>>, Seq<char>>(Some(v@)),
            Err(e) => core_filter_spec(input@, topology.core_map@.len() as u32, topology.physical_map@)
                == Err::<Option<Seq<u32>>, Seq<char>>(e@),
        },
{
    broadcast use vstd::std_specs::btree::group_btree_axioms;
    let t = text::trim_str(input);
    let all = text::lit("all");
    if t.len() == 0 || text::chars_eq_ignore_ascii_case(&t, &all) {
        return Ok(None);
    }
    let idx = match read_core_indices(&t) {
        Ok(v) => v,
        Err(tok) => {
            let mut m = text::lit("Invalid BIOS core index '");
            text::push_chars(&mut m, &tok);
            text::push_str(&mut m, "' in core filter");
            return Err(text::string_from_chars(&m));
        },
    };
    if idx.len() == 0 {
        return Ok(None);
    }
    let sorted = cpu_topology::sorted_unique(&idx);
    proof {
        cpu_topology::lemma_sorted_seq_of(sorted@);
    }
    let max = topology.core_map.len() as u32;
    let mut invalid: Vec<u32> = Vec::new();
    let mut i: usize = 0;
    while i < sorted.len()
        invariant
            i <= sorted.len(),
            invalid@ == at_least(sorted@.take(i as int), max),
        decreases sorted.len() - i,
    {
        assert(sorted@.take(i + 1).drop_last() =~= sorted@.take(i as int));
        if sorted[i] >= max {
            invalid.push(sorted[i]);
        }
        i += 1;
    }
    assert(sorted@.take(sorted.len() as int) =~= sorted@);
    if invalid.len() > 0 {
        let parts = decimal_pieces(&invalid);
        let joined = text::join_pieces(&parts, ",");
        let mut m = text::lit("Invalid BIOS core indices: ");
        text::push_chars(&mut m, &joined);
        text::push_str(&mut m, ". Valid range: 0-");
        text::push_u64(&mut m, max.saturating_sub(1) as u64);
        return Err(text::string_from_chars(&m));
    }
    let mut ids: Vec<u32> = Vec::new();
    let mut j: usize = 0;
    while j < sorted.len()
        invariant
            j <= sorted.len(),
            ids@ == sorted@.take(j as int).map_values(|i: u32| physical_or_self(topology.physical_map@, i)),
        decreases sorted.len() - j,
    {
        let p = match topology.physical_id(sorted[j]) {
            Some(p) => p,
            None => sorted[j],
        };
        ids.push(p);
        j += 1;
        assert(ids@ =~= sorted@.take(j as int).map_values(|i: u32| physical_or_self(topology.physical_map@, i)));
    }
    assert(sorted@.take(sorted.len() as int) =~= sorted@);
    Ok(Some(ids))
}

// ---------------------------------------------------------------------------
// Actions of the user
// ---------------------------------------------------------------------------

/// A run to start in the background.
pub struct TestLaunch {
    pub duration_secs: u64,
    pub iterations: u32,
    pub mode: StressTestMode,
    /// The physical cores to test; all when `None`.
    pub core_filter: Option<Vec<u32>>,
}

/// What the caller carries out after a step.
pub enum GuiAction {
    Nothing,
    /// Unpack the bundled binaries and report the outcome to
    /// `binaries_extracted`.
    ExtractBinaries,
    /// Clear the shutdown request, open the report channel and run the
    /// cycle in the background.
    Launch(TestLaunch),
    /// Ask the running cycle to stop.
    RequestShutdown,
    /// Apply each pending report with `process_event`; if the channel has
    /// closed, then call `channel_closed`.
    DrainEvents,
    Notify(Notification),
}

pub open spec fn opt_view(f: Option<Vec<u32>>) -> Option<Seq<u32>> {
    match f {
        Some(v) => Some(v@),
        None => None,
    }
}

/// Nothing changes.
pub open spec fn same_state(o: CoreProbeApp, n: CoreProbeApp) -> bool {
    &&& settings_kept(o, n)
    &&& run_kept(o, n)
    &&& tables_kept(o, n)
    &&& n.progress == o.progress
    &&& n.log_entries@ == o.log_entries@
}

/// Only the banner changes, to `banner`.
pub open spec fn only_banner(o: CoreProbeApp, n: CoreProbeApp, banner: Option<Seq<char>>) -> bool {
    &&& settings_kept(o, n)
    &&& tables_kept(o, n)
    &&& n.progress == o.progress
    &&& n.log_entries@ == o.log_entries@
    &&& n.test_running == o.test_running
    &&& n.receiving == o.receiving
    &&& match banner {
        Some(b) => n.error_banner matches Some(x) && x@ == b,
        None => n.error_banner is None,
    }
}

/// The effective theme is dark.
pub open spec fn dark_spec(mode: ThemeMode, system_theme: ThemeMode) -> bool {
    match mode {
        ThemeMode::Dark => true,
        ThemeMode::Light => false,
        ThemeMode::System => system_theme == ThemeMode::Dark,
    }
}

impl CoreProbeApp {
    /// The effective theme is dark; `system_theme` is the desktop's
    /// preference, which decides in `System` mode.
    pub fn is_dark(&self, system_theme: ThemeMode) -> (b: bool)
        ensures
            b == dark_spec(self.theme_mode, system_theme),
    {
        match self.theme_mode {
            ThemeMode::Dark => true,
            ThemeMode::Light => false,
            ThemeMode::System => system_theme == ThemeMode::Dark,
        }
    }
}

/// Starting a run from state `o`: refused while one runs; without a
/// topology the banner says so; without unpacked binaries these are asked
/// for first; a bad core filter shows its message; otherwise every core
/// goes back to Idle, the per-core tables are cleared, and the run starts
/// with the parsed duration and filter.
pub open spec fn start_spec(o: CoreProbeApp, n: CoreProbeApp, a: GuiAction) -> bool {
    if o.test_running {
        same_state(o, n) && a is Nothing
    } else {
        match o.topology {
            None => only_banner(o, n, Some("CPU topology unavailable"@)) && a is Nothing,
            Some(t) => if o.extracted_binaries is None {
                same_state(o, n) && a is ExtractBinaries
            } else {
                match core_filter_spec(o.config.cores@, t.core_map@.len() as u32, t.physical_map@) {
                    Err(msg) => only_banner(o, n, Some(msg)) && a is Nothing,
                    Ok(filter) => {
                        &&& settings_kept(o, n)
                        &&& n.core_statuses@ == o.core_statuses@.map_values(|s: CoreStatus| CoreStatus::Idle)
                        &&& n.core_progress@ == Map::<u32, PerCoreProgress>::empty()
                        &&& n.core_results@ == Map::<u32, CoreResultInfo>::empty()
                        &&& n.progress == (TestProgress {
                            current_core: None,
                            cores_completed: 0,
                            total_cores: match filter {
                                Some(f) => f.len() as usize,
                                None => t.core_map@.len() as usize,
                            },
                        })
                        &&& n.log_entries@ == o.log_entries@
                        &&& n.test_running
                        &&& n.receiving
                        &&& n.error_banner is None
                        &&& a matches GuiAction::Launch(l) && l.duration_secs == duration_setting_spec(
                            o.config.duration@,
                        ) && l.iterations == o.config.iterations && l.mode == o.config.mode && opt_view(
                            l.core_filter,
                        ) == filter
                    },
                }
            },
        }
    }
}

/// How a message changes the state `o` into `n`, and what it asks of the
/// caller.
pub open spec fn update_spec(
    o: CoreProbeApp,
    n: CoreProbeApp,
    m: Message,
    system_theme: ThemeMode,
    now: u64,
    a: GuiAction,
) -> bool {
    match m {
        Message::StartTest => start_spec(o, n, a),
        Message::StopTest => {
            &&& settings_kept(o, n)
            &&& tables_kept(o, n)
            &&& n.progress == o.progress
            &&& n.log_entries@ == o.log_entries@
            &&& n.error_banner == o.error_banner
            &&& n.receiving == o.receiving
            &&& !n.test_running
            &&& a is RequestShutdown
        },
        Message::ThemeToggle => {
            &&& n.theme_mode == (if dark_spec(o.theme_mode, system_theme) {
                ThemeMode::Light
            } else {
                ThemeMode::Dark
            })
            &&& n.topology == o.topology
            &&& n.uefi_settings == o.uefi_settings
            &&& n.config == o.config
            &&& n.extracted_binaries == o.extracted_binaries
            &&& run_kept(o, n)
            &&& tables_kept(o, n)
            &&& n.progress == o.progress
            &&& n.log_entries@ == o.log_entries@
            &&& a is Nothing
        },
        Message::ConfigChanged(field) => {
            &&& n.config == match field {
                ConfigField::Duration(d) => TestConfig { duration: d, ..o.config },
                ConfigField::Iterations(i) => TestConfig { iterations: i, ..o.config },
                ConfigField::Mode(md) => TestConfig { mode: md, ..o.config },
                ConfigField::Cores(c) => TestConfig { cores: c, ..o.config },
            }
            &&& n.topology == o.topology
            &&& n.uefi_settings == o.uefi_settings
            &&& n.theme_mode == o.theme_mode
            &&& n.extracted_binaries == o.extracted_binaries
            &&& run_kept(o, n)
            &&& tables_kept(o, n)
            &&& n.progress == o.progress
            &&& n.log_entries@ == o.log_entries@
            &&& a is Nothing
        },
        Message::EventReceived(e) => match a {
            GuiAction::Notify(t) => event_spec(o, n, e, now, Some(t)),
            GuiAction::Nothing => event_spec(o, n, e, now, None),
            _ => false,
        },
        Message::Tick => same_state(o, n) && a is DrainEvents,
        Message::DismissError => only_banner(o, n, None) && a is Nothing,
    }
}

fn all_idle(statuses: &BTreeMap<u32, CoreStatus>) -> (r: BTreeMap<u32, CoreStatus>)
    ensures
        r@ == statuses@.map_values(|s: CoreStatus| CoreStatus::Idle),
{
    broadcast use vstd::std_specs::btree::group_btree_axioms;
    let keys = cpu_topology::sorted_keys(statuses);
    let mut r: BTreeMap<u32, CoreStatus> = BTreeMap::new();
    let mut i: usize = 0;
    while i < keys.len()
        invariant
            i <= keys.len(),
            r@.dom() == keys@.take(i as int).to_set(),
            forall|k: u32| #[trigger] r@.contains_key(k) ==> r@[k] == CoreStatus::Idle,
        decreases keys.len() - i,
    {
        r.insert(keys[i], CoreStatus::Idle);
        i += 1;
        assert(keys@.take(i as int) =~= keys@.take(i - 1).push(keys@[i - 1]));
        proof {
            keys@.take(i - 1).lemma_push_to_set_commute(keys@[i - 1]);
        }
        assert(r@.dom() =~= keys@.take(i as int).to_set());
    }
    assert(keys@.take(keys.len() as int) =~= keys@);
    assert(r@ =~= statuses@.map_values(|s: CoreStatus| CoreStatus::Idle));
    r
}

fn start_run(state: &mut CoreProbeApp) -> (a: GuiAction)
    requires
        !old(state).test_running,
        old(state).topology is Some,
        old(state).extracted_binaries is Some,
    ensures
        start_spec(*old(state), *final(state), a),
{
    broadcast use vstd::std_specs::btree::group_btree_axioms;
    let (filter, core_count) = match &state.topology {
        Some(t) => (parse_core_filter(state.config.cores.as_str(), t), t.core_map.len()),
        None => {
            return GuiAction::Nothing;
        },
    };
    let core_filter = match filter {
        Ok(f) => f,
        Err(e) => {
            state.error_banner = Some(e);
            return GuiAction::Nothing;
        },
    };
    let duration_secs = parse_duration(state.config.duration.as_str());
    let idle = all_idle(&state.core_statuses);
    state.core_statuses = idle;
    state.core_progress.clear();
    state.core_results.clear();
    let total_cores = match &core_filter {
        Some(f) => f.len(),
        None => core_count,
    };
    state.progress = TestProgress { current_core: None, cores_completed: 0, total_cores };
    state.receiving = true;
    state.test_running = true;
    state.error_banner = None;
    GuiAction::Launch(
        TestLaunch {
            duration_secs,
            iterations: state.config.iterations,
            mode: state.config.mode,
            core_filter,
        },
    )
}

fn start_test(state: &mut CoreProbeApp) -> (a: GuiAction)
    ensures
        start_spec(*old(state), *final(state), a),
{
    if state.test_running {
        return GuiAction::Nothing;
    }
    if state.topology.is_none() {
        state.error_banner = Some("CPU topology unavailable".to_owned());
        return GuiAction::Nothing;
    }
    if state.extracted_binaries.is_none() {
        return GuiAction::ExtractBinaries;
    }
    start_run(state)
}

/// Applies a message of the user or the timer. `system_theme` is the
/// desktop's preference (it decides the toggle in `System` mode) and
/// `now_secs` stamps the log lines that a report adds.
pub fn update(state: &mut CoreProbeApp, message: Message, system_theme: ThemeMode, now_secs: u64) -> (a: GuiAction)
    ensures
        update_spec(*old(state), *final(state), message, system_theme, now_secs, a),
{
    match message {
        Message::StartTest => start_test(state),
        Message::StopTest => {
            state.test_running = false;
            GuiAction::RequestShutdown
        },
        Message::ThemeToggle => {
            state.theme_mode = if state.is_dark(system_theme) {
                ThemeMode::Light
            } else {
                ThemeMode::Dark
            };
            GuiAction::Nothing
        },
        Message::ConfigChanged(field) => {
            match field {
                ConfigField::Duration(d) => state.config.duration = d,
                ConfigField::Iterations(n) => state.config.iterations = n,
                ConfigField::Mode(m) => state.config.mode = m,
                ConfigField::Cores(c) => state.config.cores = c,
            }
            GuiAction::Nothing
        },
        Message::EventReceived(event) => match process_event(state, event, now_secs) {
            Some(note) => GuiAction::Notify(note),
            None => GuiAction::Nothing,
        },
        Message::Tick => GuiAction::DrainEvents,
        Message::DismissError => {
            state.error_banner = None;
            GuiAction::Nothing
        },
    }
}

/// The outcome of unpacking the binaries that a start asked for: on
/// failure the banner says why; on success they are kept and the start
/// proceeds as `start_spec` says for the state that holds them.
pub fn binaries_extracted(state: &mut CoreProbeApp, outcome: Result<ExtractedBinaries, String>) -> (a: GuiAction)
    ensures
        match outcome {
            Err(e) => only_banner(
                *old(state),
                *final(state),
                Some("Failed to extract embedded binaries: "@ + e@),
            ) && a is Nothing,
            Ok(b) => start_spec(CoreProbeApp { extracted_binaries: Some(b), ..*old(state) }, *final(state), a),
        },
{
    match outcome {
        Err(e) => {
            let mut m = text::lit("Failed to extract embedded binaries: ");
            let ec = text::chars_of(e.as_str());
            text::push_chars(&mut m, &ec);
            state.error_banner = Some(text::string_from_chars(&m));
            GuiAction::Nothing
        },
        Ok(b) => {
            state.extracted_binaries = Some(b);
            start_test(state)
        },
    }
}

/// The theme button flips the theme that is shown, and two presses show
/// the theme of before (now chosen explicitly, no longer following the
/// desktop).
pub proof fn lemma_theme_toggle_flips(o: CoreProbeApp, n: CoreProbeApp, n2: CoreProbeApp, system_theme: ThemeMode, now: u64, a: GuiAction, a2: GuiAction)
    requires
        update_spec(o, n, Message::ThemeToggle, system_theme, now, a),
        update_spec(n, n2, Message::ThemeToggle, system_theme, now, a2),
    ensures
        dark_spec(n.theme_mode, system_theme) == !dark_spec(o.theme_mode, system_theme),
        dark_spec(n2.theme_mode, system_theme) == dark_spec(o.theme_mode, system_theme),
        n2.theme_mode != ThemeMode::System,
{
}

/// The state the window opens with: every core of the detected topology
/// idle, nothing run yet, the default settings and the dark theme; when
/// unpacking the binaries failed, a banner says why.
pub fn boot(
    topology: Option<CpuTopology>,
    uefi_settings: Option<UefiSettings>,
    extraction: Result<ExtractedBinaries, String>,
) -> (app: CoreProbeApp)
    ensures
        app.topology == topology,
        app.uefi_settings == uefi_settings,
        match topology {
            Some(t) => app.core_statuses@.dom() == t.core_map@.dom(),
            None => app.core_statuses@.dom().is_empty(),
        },
        forall|k: u32| #[trigger] app.core_statuses@.contains_key(k) ==> app.core_statuses@[k] == CoreStatus::Idle,
        app.core_progress@.dom().is_empty(),
        app.core_results@.dom().is_empty(),
        app.log_entries@.len() == 0,
        app.theme_mode == ThemeMode::Dark,
        app.config.duration@ == "6m"@,
        app.config.iterations == 3,
        app.config.mode == StressTestMode::SSE,
        app.config.cores@ == "all"@,
        !app.test_running,
        !app.receiving,
        app.progress == (TestProgress { current_core: None, cores_completed: 0, total_cores: 0 }),
        match extraction {
            Ok(b) => app.extracted_binaries == Some(b) && app.error_banner is None,
            Err(e) => app.extracted_binaries is None && (app.error_banner matches Some(m) && m@
                == "Failed to extract embedded binaries: "@ + e@),
        },
{
    broadcast use vstd::std_specs::btree::group_btree_axioms;
    let mut core_statuses: BTreeMap<u32, CoreStatus> = BTreeMap::new();
    match &topology {
        Some(t) => {
            let keys = cpu_topology::sorted_keys(&t.core_map);
            let mut i: usize = 0;
            while i < keys.len()
                invariant
                    i <= keys.len(),
                    core_statuses@.dom() == keys@.take(i as int).to_set(),
                    forall|k: u32| #[trigger] core_statuses@.contains_key(k) ==> core_statuses@[k] == CoreStatus::Idle,
                decreases keys.len() - i,
            {
                proof {
                    assert(keys@.take(i + 1) =~= keys@.take(i as int).push(keys@[i as int]));
                    keys@.take(i as int).lemma_push_to_set_commute(keys@[i as int]);
                }
                core_statuses.insert(keys[i], CoreStatus::Idle);
                i += 1;
            }
            assert(keys@.take(keys.len() as int) =~= keys@);
        },
        None => {},
    }
    let (extracted_binaries, error_banner) = match extraction {
        Ok(b) => (Some(b), None),
        Err(e) => {
            let mut m = text::lit("Failed to extract embedded binaries: ");
            text::push_str(&mut m, e.as_str());
            (None, Some(text::string_from_chars(&m)))
        },
    };
    CoreProbeApp {
        topology,
        uefi_settings,
        core_statuses,
        core_progress: BTreeMap::new(),
        core_results: BTreeMap::new(),
        log_entries: Vec::new(),
        theme_mode: ThemeMode::Dark,
        config: TestConfig::default(),
        test_running: false,
        progress: TestProgress::default(),
        error_banner,
        receiving: false,
        extracted_binaries,
    }
}

/// The report channel closed: no more reports come, and the run is over.
pub fn channel_closed(state: &mut CoreProbeApp)
    ensures
        settings_kept(*old(state), *final(state)),
        tables_kept(*old(state), *final(state)),
        final(state).progress == old(state).progress,
        final(state).log_entries@ == old(state).log_entries@,
        final(state).error_banner == old(state).error_banner,
        !final(state).receiving,
        !final(state).test_running,
{
    state.receiving = false;
    state.test_running = false;
}

} // verus!
