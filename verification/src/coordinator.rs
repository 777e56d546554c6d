//! The per-core test cycle: in which order the cores are tested, which are
//! skipped, and how one core's test and the whole cycle proceed. The
//! decisions are state machines; the caller performs their actions
//! (starting mprime, sleeping, reading results) and reports back.
use crate::cpu_topology;
use crate::cpu_topology::CpuTopology;
use crate::error_parser::{error_view, MprimeError, MprimeErrorType};
use crate::gui_events::LogLevel;
use crate::mce_monitor::{copy_error, MceError, MceErrorType};
use crate::text;
use std::collections::BTreeMap;
use std::collections::BTreeSet;
use vstd::prelude::*;

verus! {

/// Where a core stands in the cycle.
#[derive(Debug, Clone, Copy, PartialEq, Eq, Structural)]
pub enum CoreStatus {
    Idle,
    Testing,
    Passed,
    Failed,
    Skipped,
    Interrupted,
}

/// The outcome of testing one physical core in one iteration.
#[derive(Debug, Clone)]
pub struct CoreTestResult {
    /// The physical core id.
    pub core_id: u32,
    /// The core's number in the BIOS (its Curve Optimizer index).
    pub bios_index: u32,
    pub logical_cpu_ids: Vec<u32>,
    pub status: CoreStatus,
    pub mprime_errors: Vec<MprimeError>,
    pub mce_errors: Vec<MceError>,
    /// Seconds the core was under test.
    pub duration_tested: u64,
    pub iterations_completed: u32,
}

/// The outcome of a whole cycle.
#[derive(Debug, Clone)]
pub struct CycleResults {
    pub results: Vec<CoreTestResult>,
    /// Seconds the cycle took.
    pub total_duration: u64,
    pub iterations_completed: u32,
    pub interrupted: bool,
}

// ---------------------------------------------------------------------------
// Order and selection
// ---------------------------------------------------------------------------

/// The BIOS index of a physical core, or its own id when the topology
/// has none for it.
pub open spec fn bios_or_self(bios_map: Map<u32, u32>, core_id: u32) -> u32 {
    match cpu_topology::map_get(bios_map, core_id) {
        Some(b) => b,
        None => core_id,
    }
}

/// The "alternate" order of sorted core ids: the first and second halves
/// interleaved (`a0 b0 a1 b1 ...`), the odd one out last. On multi-CCD
/// parts this bounces between chiplets to spread the heat.
pub open spec fn alternate(s: Seq<u32>) -> Seq<u32> {
    let half = s.len() / 2;
    Seq::new(
        s.len(),
        |k: int|
            if k < 2 * half {
                if k % 2 == 0 {
                    s[k / 2]
                } else {
                    s[half + k / 2]
                }
            } else {
                s[k]
            },
    )
}

/// Orders the physical cores of a core map in the alternate order.
pub fn order_cores_alternate(core_map: &BTreeMap<u32, Vec<u32>>) -> (ordered: Vec<u32>)
    ensures
        ordered@ == alternate(cpu_topology::sorted_seq_of(core_map@.dom())),
{
    let sorted = cpu_topology::sorted_keys(core_map);
    let count = sorted.len();
    if count <= 1 {
        assert(sorted@ =~= alternate(sorted@));
        return sorted;
    }
    let half = count / 2;
    let mut ordered: Vec<u32> = Vec::new();
    let mut i: usize = 0;
    while i < half
        invariant
            half == count / 2,
            count == sorted.len(),
            i <= half,
            ordered@.len() == 2 * i,
            forall|k: int| 0 <= k < 2 * i ==> #[trigger] ordered@[k] == alternate(sorted@)[k],
        decreases half - i,
    {
        ordered.push(sorted[i]);
        ordered.push(sorted[half + i]);
        proof {
            assert(ordered@[2 * i as int] == alternate(sorted@)[2 * i as int]);
            assert(ordered@[2 * i + 1] == alternate(sorted@)[2 * i + 1]);
        }
        i += 1;
    }
    if count - half > half {
        ordered.push(sorted[half + half]);
    }
    assert(ordered@ =~= alternate(sorted@));
    ordered
}

/// The alternate order is a permutation: every core exactly once.
pub proof fn lemma_alternate_permutes(s: Seq<u32>)
    requires
        s.no_duplicates(),
    ensures
        alternate(s).len() == s.len(),
        alternate(s).to_set() == s.to_set(),
        alternate(s).no_duplicates(),
{
    let a = alternate(s);
    let half = s.len() / 2;
    // position in `s` of the element at position k of `a`
    let src = |k: int|
        if k < 2 * half {
            if k % 2 == 0 {
                k / 2
            } else {
                half + k / 2
            }
        } else {
            k
        };
    assert forall|k: int| 0 <= k < a.len() implies 0 <= #[trigger] src(k) < s.len() && a[k] == s[src(k)] by {}
    assert forall|k1: int, k2: int| 0 <= k1 < a.len() && 0 <= k2 < a.len() && k1 != k2 implies #[trigger] src(k1) != #[trigger] src(k2) by {}
    assert(a.no_duplicates()) by {
        assert forall|k1: int, k2: int| 0 <= k1 < a.len() && 0 <= k2 < a.len() && k1 != k2 implies a[k1] != a[k2] by {
            assert(src(k1) != src(k2));
        }
    }
    assert(a.to_set() =~= s.to_set()) by {
        assert forall|x: u32| a.to_set().contains(x) implies s.to_set().contains(x) by {
            let k = choose|k: int| 0 <= k < a.len() && a[k] == x;
            assert(s[src(k)] == x);
        }
        assert forall|x: u32| s.to_set().contains(x) implies a.to_set().contains(x) by {
            let j = choose|j: int| 0 <= j < s.len() && s[j] == x;
            let k = if j < half {
                2 * j
            } else if j < 2 * half {
                2 * (j - half) + 1
            } else {
                j
            };
            assert(src(k) == j);
            assert(a[k] == x);
        }
    }
}

/// The cores of a topology in test order: every physical core exactly once.
pub proof fn lemma_test_order_covers_cores(t: CpuTopology)
    ensures
        alternate(cpu_topology::sorted_seq_of(t.core_map@.dom())).to_set() == t.core_map@.dom(),
        alternate(cpu_topology::sorted_seq_of(t.core_map@.dom())).len() == t.core_map@.dom().len(),
        alternate(cpu_topology::sorted_seq_of(t.core_map@.dom())).no_duplicates(),
{
    broadcast use vstd::std_specs::btree::group_btree_axioms;
    let d = t.core_map@.dom();
    assert(d.finite());
    lemma_finite_sorted_exists(d);
    let s = cpu_topology::sorted_seq_of(d);
    lemma_increasing_no_dups(s);
    lemma_alternate_permutes(s);
    s.unique_seq_to_set();
}

proof fn lemma_increasing_no_dups(s: Seq<u32>)
    requires
        cpu_topology::strictly_increasing(s),
    ensures
        s.no_duplicates(),
{
    assert forall|i: int, j: int| 0 <= i < s.len() && 0 <= j < s.len() && i != j implies s[i] != s[j] by {
        if i < j {
            assert(s[i] < s[j]);
        } else {
            assert(s[j] < s[i]);
        }
    }
}

/// Every finite set of ids has a sorted sequence.
pub(crate) proof fn lemma_finite_sorted_exists(d: Set<u32>)
    requires
        d.finite(),
    ensures
        cpu_topology::strictly_increasing(cpu_topology::sorted_seq_of(d)),
        cpu_topology::sorted_seq_of(d).to_set() == d,
    decreases d.len(),
{
    if d.len() == 0 {
        let q = Seq::<u32>::empty();
        assert(q.to_set() =~= d);
        assert(cpu_topology::strictly_increasing(q) && q.to_set() == d);
    } else {
        let leq = |a: u32, b: u32| a <= b;
        let m = d.find_unique_maximal(leq);
        assert(vstd::relations::total_ordering(leq)) by {
            assert(vstd::relations::reflexive(leq));
            assert(vstd::relations::antisymmetric(leq));
            assert(vstd::relations::transitive(leq));
            assert(vstd::relations::strongly_connected(leq));
        }
        d.find_unique_maximal_ensures(leq);
        assert(vstd::relations::is_maximal(leq, m, d));
        let rest = d.remove(m);
        lemma_finite_sorted_exists(rest);
        let r = cpu_topology::sorted_seq_of(rest);
        let q = r.push(m);
        assert(cpu_topology::strictly_increasing(q)) by {
            assert forall|i: int, j: int| 0 <= i < j < q.len() implies q[i] < q[j] by {
                if j < r.len() {
                    assert(q[i] == r[i] && q[j] == r[j]);
                } else {
                    assert(rest.contains(q[i]));
                    assert(d.contains(q[i]));
                    if leq(m, q[i]) {
                        assert(leq(q[i], m));
                    }
                    assert(q[i] <= m);
                    assert(q[i] != m);
                }
            }
        }
        assert(q.to_set() =~= d) by {
            r.lemma_push_to_set_commute(m);
        }
        assert(cpu_topology::strictly_increasing(q) && q.to_set() == d);
    }
}

pub open spec fn selected_spec(core_id: u32, filter: Option<Set<u32>>) -> bool {
    match filter {
        Some(allowed) => allowed.contains(core_id),
        None => true,
    }
}

/// Without a filter every core is tested; with one, the cores it lists.
pub fn is_core_selected(core_id: u32, filter: Option<&BTreeSet<u32>>) -> (b: bool)
    ensures
        b == selected_spec(core_id, match filter {
            Some(s) => Some(s@),
            None => None,
        }),
{
    broadcast use vstd::std_specs::btree::group_btree_axioms;
    match filter {
        Some(allowed) => allowed.contains(&core_id),
        None => true,
    }
}

/// The logical CPUs of a physical core (none for an unknown core).
pub fn logical_cpu_ids_for_core(topology: &CpuTopology, core_id: u32) -> (ids: Vec<u32>)
    ensures
        ids@ == (if topology.core_map@.contains_key(core_id) {
            topology.core_map@[core_id]@
        } else {
            Seq::empty()
        }),
{
    broadcast use vstd::std_specs::btree::group_btree_axioms;
    match topology.core_map.get(&core_id) {
        Some(v) => v.clone(),
        None => Vec::new(),
    }
}

// ---------------------------------------------------------------------------
// One-line summaries
// ---------------------------------------------------------------------------

/// The report label of an mprime error kind.
pub open spec fn mprime_label(t: MprimeErrorType) -> Seq<char> {
    match t {
        MprimeErrorType::RoundoffError => "ROUNDOFF"@,
        MprimeErrorType::HardwareFailure => "Hardware failure"@,
        MprimeErrorType::FatalError => "FATAL ERROR"@,
        MprimeErrorType::PossibleHardwareFailure => "Possible hardware failure"@,
        MprimeErrorType::IllegalSumout => "ILLEGAL SUMOUT"@,
        MprimeErrorType::SumMismatch => "SUM mismatch"@,
        MprimeErrorType::TortureTestFailed => "TORTURE TEST FAILED"@,
        MprimeErrorType::TortureTestSummaryError => "Torture test summary error"@,
        MprimeErrorType::Unknown => "Unknown error"@,
    }
}

pub fn mprime_label_str(t: MprimeErrorType) -> (s: &'static str)
    ensures
        s@ == mprime_label(t),
{
    match t {
        MprimeErrorType::RoundoffError => "ROUNDOFF",
        MprimeErrorType::HardwareFailure => "Hardware failure",
        MprimeErrorType::FatalError => "FATAL ERROR",
        MprimeErrorType::PossibleHardwareFailure => "Possible hardware failure",
        MprimeErrorType::IllegalSumout => "ILLEGAL SUMOUT",
        MprimeErrorType::SumMismatch => "SUM mismatch",
        MprimeErrorType::TortureTestFailed => "TORTURE TEST FAILED",
        MprimeErrorType::TortureTestSummaryError => "Torture test summary error",
        MprimeErrorType::Unknown => "Unknown error",
    }
}

/// The report label of an MCE kind.
pub open spec fn mce_label(t: MceErrorType) -> Seq<char> {
    match t {
        MceErrorType::MachineCheck => "Machine Check"@,
        MceErrorType::HardwareError => "Hardware Error"@,
        MceErrorType::EdacCorrectable => "EDAC correctable"@,
        MceErrorType::EdacUncorrectable => "EDAC uncorrectable"@,
        MceErrorType::Unknown => "Unknown"@,
    }
}

pub fn mce_label_str(t: MceErrorType) -> (s: &'static str)
    ensures
        s@ == mce_label(t),
{
    match t {
        MceErrorType::MachineCheck => "Machine Check",
        MceErrorType::HardwareError => "Hardware Error",
        MceErrorType::EdacCorrectable => "EDAC correctable",
        MceErrorType::EdacUncorrectable => "EDAC uncorrectable",
        MceErrorType::Unknown => "Unknown",
    }
}

/// " at NK FFT" when the FFT size is known.
pub open spec fn fft_info(fft: Option<u32>) -> Seq<char> {
    match fft {
        Some(n) => " at "@ + text::decimal(n as nat) + "K FFT"@,
        None => seq![],
    }
}

/// ", Bank N" when the bank is known.
pub open spec fn bank_info(bank: Option<u32>) -> Seq<char> {
    match bank {
        Some(n) => ", Bank "@ + text::decimal(n as nat),
        None => seq![],
    }
}

pub fn push_fft_info(v: &mut Vec<char>, fft: Option<u32>)
    ensures
        final(v)@ == old(v)@ + fft_info(fft),
{
    match fft {
        Some(n) => {
            text::push_str(v, " at ");
            text::push_u64(v, n as u64);
            text::push_str(v, "K FFT");
        },
        None => {
            assert(old(v)@ + fft_info(fft) =~= old(v)@);
        },
    }
}

pub fn push_bank_info(v: &mut Vec<char>, bank: Option<u32>)
    ensures
        final(v)@ == old(v)@ + bank_info(bank),
{
    match bank {
        Some(n) => {
            text::push_str(v, ", Bank ");
            text::push_u64(v, n as u64);
        },
        None => {
            assert(old(v)@ + bank_info(bank) =~= old(v)@);
        },
    }
}

/// The compact summary of a failed core: its first mprime error, else its
/// first MCE, else nothing.
pub open spec fn error_summary_spec(r: CoreTestResult) -> Seq<char> {
    if r.mprime_errors@.len() > 0 {
        let e = r.mprime_errors@[0];
        "mprime: "@ + mprime_label(e.error_type) + fft_info(e.fft_size)
    } else if r.mce_errors@.len() > 0 {
        let e = r.mce_errors@[0];
        "MCE: "@ + mce_label(e.error_type) + bank_info(e.bank)
    } else {
        seq![]
    }
}

pub fn format_error_summary(result: &CoreTestResult) -> (s: String)
    ensures
        s@ == error_summary_spec(*result),
{
    if result.mprime_errors.len() > 0 {
        let e = &result.mprime_errors[0];
        let mut v = text::lit("mprime: ");
        text::push_str(&mut v, mprime_label_str(e.error_type));
        push_fft_info(&mut v, e.fft_size);
        text::string_from_chars(&v)
    } else if result.mce_errors.len() > 0 {
        let e = &result.mce_errors[0];
        let mut v = text::lit("MCE: ");
        text::push_str(&mut v, mce_label_str(e.error_type));
        push_bank_info(&mut v, e.bank);
        text::string_from_chars(&v)
    } else {
        String::new()
    }
}

/// The core number right-aligned in two columns (`{:2}`).
pub open spec fn core_col(core_id: u32) -> Seq<char> {
    text::pad_left(text::decimal(core_id as nat), 2)
}

pub fn push_core_col(v: &mut Vec<char>, core_id: u32)
    ensures
        final(v)@ == old(v)@ + core_col(core_id),
{
    let d = text::u64_decimal(core_id as u64);
    text::push_padded(v, &d, ' ', 2);
}

/// The line shown when a core's test ends, numbered by BIOS index; none
/// for cores that were not tested.
pub open spec fn intermediate_spec(r: CoreTestResult) -> Option<Seq<char>> {
    match r.status {
        CoreStatus::Idle | CoreStatus::Testing | CoreStatus::Skipped => None,
        CoreStatus::Passed => Some("  \u{2713} Core "@ + core_col(r.bios_index) + ": STABLE"@),
        CoreStatus::Interrupted => Some("  \u{2298} Core "@ + core_col(r.bios_index) + ": INTERRUPTED"@),
        CoreStatus::Failed => if error_summary_spec(r).len() == 0 {
            Some("  \u{2717} Core "@ + core_col(r.bios_index) + ": UNSTABLE"@)
        } else {
            Some("  \u{2717} Core "@ + core_col(r.bios_index) + ": UNSTABLE \u{2014} "@ + error_summary_spec(r))
        },
    }
}

pub fn format_intermediate_result(result: &CoreTestResult) -> (r: Option<String>)
    ensures
        match r {
            Some(s) => intermediate_spec(*result) == Some(s@),
            None => intermediate_spec(*result) is None,
        },
{
    match result.status {
        CoreStatus::Idle | CoreStatus::Testing | CoreStatus::Skipped => None,
        CoreStatus::Passed => {
            let mut v = text::lit("  \u{2713} Core ");
            push_core_col(&mut v, result.bios_index);
            text::push_str(&mut v, ": STABLE");
            Some(text::string_from_chars(&v))
        },
        CoreStatus::Interrupted => {
            let mut v = text::lit("  \u{2298} Core ");
            push_core_col(&mut v, result.bios_index);
            text::push_str(&mut v, ": INTERRUPTED");
            Some(text::string_from_chars(&v))
        },
        CoreStatus::Failed => {
            let detail = format_error_summary(result);
            let mut v = text::lit("  \u{2717} Core ");
            push_core_col(&mut v, result.bios_index);
            if detail.as_str().unicode_len() == 0 {
                text::push_str(&mut v, ": UNSTABLE");
            } else {
                text::push_str(&mut v, ": UNSTABLE \u{2014} ");
                text::push_str(&mut v, detail.as_str());
            }
            Some(text::string_from_chars(&v))
        },
    }
}

/// The highlight of a core's closing line: stable, MCE, error, or plain.
pub open spec fn intermediate_level_spec(r: CoreTestResult) -> LogLevel {
    match r.status {
        CoreStatus::Passed => LogLevel::Stable,
        CoreStatus::Failed => if r.mce_errors@.len() > 0 {
            LogLevel::Mce
        } else {
            LogLevel::Error
        },
        _ => LogLevel::Default,
    }
}

/// The log line (with its highlight) that a finished core produces.
pub fn intermediate_log(result: &CoreTestResult) -> (r: Option<(LogLevel, String)>)
    ensures
        match r {
            Some((level, s)) => intermediate_spec(*result) == Some(s@) && level == intermediate_level_spec(*result),
            None => intermediate_spec(*result) is None,
        },
{
    match format_intermediate_result(result) {
        Some(message) => {
            let level = match result.status {
                CoreStatus::Passed => LogLevel::Stable,
                CoreStatus::Failed => {
                    if result.mce_errors.len() > 0 {
                        LogLevel::Mce
                    } else {
                        LogLevel::Error
                    }
                },
                _ => LogLevel::Default,
            };
            Some((level, message))
        },
        None => None,
    }
}


// ---------------------------------------------------------------------------
// Testing one core
// ---------------------------------------------------------------------------

/// Seconds between mprime's start and the first pinning of its threads.
pub const INITIAL_PIN_DELAY: u64 = 3;
/// Seconds between two reads of the error sources.
pub const ERROR_POLL_INTERVAL: u64 = 5;
/// Seconds between two re-pinnings of mprime's threads.
pub const THREAD_PIN_INTERVAL: u64 = 5;
/// Seconds between two checks of the shutdown flag.
pub const SHUTDOWN_POLL_INTERVAL: u64 = 1;

/// Where a core's test stands; each phase asks one thing of the caller.
#[derive(Debug, Clone, Copy, PartialEq, Eq, Structural)]
pub enum CorePhase {
    /// Start mprime on the core.
    Start,
    /// Give mprime time to spawn its workers.
    InitialSleep,
    /// Pin all of mprime's threads to the core's first logical CPU.
    InitialPin,
    /// Has a shutdown been requested?
    AskShutdown,
    /// Periodic read of the error sources.
    PollCollect,
    /// Periodic re-pinning (its failure is ignored).
    PeriodicPin,
    /// Is mprime still running?
    AskRunning,
    /// Wait one second.
    Tick,
    /// mprime died: read the error sources once more.
    DeadCollect,
    /// The time is up: stop mprime.
    FinalStop,
    /// Read the error sources one last time.
    FinalCollect,
    /// Stop mprime, then finish with the given status.
    StopThen(CoreStatus),
    /// Done, with the given status.
    Finished(CoreStatus),
}

/// What the caller is asked to do.
#[derive(Debug, Clone, Copy, PartialEq, Eq, Structural)]
pub enum CoreAction {
    /// Start mprime on the core (a failure ends the cycle with an error).
    StartRunner,
    /// Sleep this many seconds.
    Sleep(u64),
    /// Pin mprime's threads to a logical CPU; a failure of a required
    /// pinning ends the cycle with an error, other failures are ignored.
    PinThreads { logical_cpu: u32, required: bool },
    /// Report whether a shutdown was requested.
    CheckShutdown,
    /// Parse new lines of results.txt and read the MCEs of the core.
    CollectErrors,
    /// Report whether mprime still runs (a failure ends the cycle).
    CheckRunning,
    /// Stop mprime (a failure ends the cycle with an error).
    StopRunner,
    /// The test is over: take the result.
    Finish,
}

/// What the caller reports back.
pub enum CoreEvent {
    /// The action was done.
    Done,
    /// The answer to `CheckShutdown` or `CheckRunning`.
    Answer(bool),
    /// The errors read by `CollectErrors`: the new mprime errors, and all
    /// MCEs of the core seen so far.
    Collected { parsed: Vec<MprimeError>, latest_mce: Vec<MceError> },
}

/// The test of one physical core in one iteration.
pub struct CoreTest {
    pub core_id: u32,
    /// The core's BIOS index.
    pub bios_index: u32,
    pub iteration: u32,
    pub logical_cpu_ids: Vec<u32>,
    /// Seconds each core is to be tested.
    pub duration: u64,
    /// Seconds since mprime was started.
    pub elapsed: u64,
    pub next_error_poll: u64,
    pub next_pin_poll: u64,
    /// How many of the core's MCEs were already taken.
    pub seen_mce_count: usize,
    pub mprime_errors: Vec<MprimeError>,
    pub mce_errors: Vec<MceError>,
    pub phase: CorePhase,
}

/// The abstract state of a core's test.
pub struct CoreTestView {
    pub core_id: u32,
    pub bios_index: u32,
    pub iteration: u32,
    pub logical: Seq<u32>,
    pub duration: u64,
    pub elapsed: u64,
    pub next_error_poll: u64,
    pub next_pin_poll: u64,
    pub seen: nat,
    pub mprime: Seq<MprimeError>,
    pub mce: Seq<MceError>,
    pub phase: CorePhase,
}

impl CoreTest {
    pub open spec fn view(&self) -> CoreTestView {
        CoreTestView {
            core_id: self.core_id,
            bios_index: self.bios_index,
            iteration: self.iteration,
            logical: self.logical_cpu_ids@,
            duration: self.duration,
            elapsed: self.elapsed,
            next_error_poll: self.next_error_poll,
            next_pin_poll: self.next_pin_poll,
            seen: self.seen_mce_count as nat,
            mprime: self.mprime_errors@,
            mce: self.mce_errors@,
            phase: self.phase,
        }
    }
}

/// The counters stay in range: the clock never passes the duration (or the
/// initial delay), the next polls are at most one interval ahead, and a
/// finished test is Passed exactly when no error was seen.
pub open spec fn core_wf(s: CoreTestView) -> bool {
    &&& s.duration <= u64::MAX - 16
    &&& s.elapsed <= (if s.duration < INITIAL_PIN_DELAY { INITIAL_PIN_DELAY } else { s.duration })
    &&& s.next_error_poll <= s.elapsed + ERROR_POLL_INTERVAL
    &&& s.next_pin_poll <= s.elapsed + THREAD_PIN_INTERVAL
    &&& (s.phase is AskShutdown || s.phase is PollCollect || s.phase is PeriodicPin || s.phase is AskRunning
        || s.phase is Tick ==> s.elapsed < s.duration)
    &&& (s.phase is PollCollect ==> s.elapsed >= s.next_error_poll)
    &&& (s.phase is PeriodicPin ==> s.elapsed >= s.next_pin_poll)
    &&& (s.phase matches CorePhase::Finished(st) ==> finished_status_ok(st, s))
    &&& (s.phase matches CorePhase::StopThen(st) ==> finished_status_ok(st, s))
}

/// A test ends Passed without errors, Failed with some, or Interrupted.
pub open spec fn finished_status_ok(st: CoreStatus, s: CoreTestView) -> bool {
    ||| st == CoreStatus::Passed && s.mprime.len() == 0 && s.mce.len() == 0
    ||| st == CoreStatus::Failed && (s.mprime.len() > 0 || s.mce.len() > 0)
    ||| st == CoreStatus::Interrupted
}

/// The first logical CPU of the core, if it has any.
pub open spec fn first_cpu(s: CoreTestView) -> Option<u32> {
    if s.logical.len() > 0 {
        Some(s.logical[0])
    } else {
        None
    }
}

/// The action a phase asks for.
pub open spec fn action_spec(s: CoreTestView) -> CoreAction {
    match s.phase {
        CorePhase::Start => CoreAction::StartRunner,
        CorePhase::InitialSleep => CoreAction::Sleep(INITIAL_PIN_DELAY),
        CorePhase::InitialPin => CoreAction::PinThreads { logical_cpu: s.logical[0], required: true },
        CorePhase::AskShutdown => CoreAction::CheckShutdown,
        CorePhase::PollCollect => CoreAction::CollectErrors,
        CorePhase::PeriodicPin => CoreAction::PinThreads { logical_cpu: s.logical[0], required: false },
        CorePhase::AskRunning => CoreAction::CheckRunning,
        CorePhase::Tick => CoreAction::Sleep(SHUTDOWN_POLL_INTERVAL),
        CorePhase::DeadCollect => CoreAction::CollectErrors,
        CorePhase::FinalStop => CoreAction::StopRunner,
        CorePhase::FinalCollect => CoreAction::CollectErrors,
        CorePhase::StopThen(_) => CoreAction::StopRunner,
        CorePhase::Finished(_) => CoreAction::Finish,
    }
}

/// Pins need a logical CPU: the pinning phases only occur when there is one.
pub open spec fn pin_phase_ok(s: CoreTestView) -> bool {
    (s.phase is InitialSleep || s.phase is InitialPin || s.phase is PeriodicPin) ==> s.logical.len() > 0
}

/// Top of the polling loop: stop when the time is up, else ask about a
/// shutdown.
pub open spec fn loop_top(s: CoreTestView) -> CoreTestView {
    if s.elapsed >= s.duration {
        CoreTestView { phase: CorePhase::FinalStop, ..s }
    } else {
        CoreTestView { phase: CorePhase::AskShutdown, ..s }
    }
}

/// After the error poll: re-pin when due (the pin time moves on even
/// without a CPU to pin to), then ask whether mprime runs.
pub open spec fn pin_check(s: CoreTestView) -> CoreTestView {
    if s.elapsed >= s.next_pin_poll {
        if s.logical.len() > 0 {
            CoreTestView { phase: CorePhase::PeriodicPin, ..s }
        } else {
            CoreTestView {
                next_pin_poll: (s.next_pin_poll + THREAD_PIN_INTERVAL) as u64,
                phase: CorePhase::AskRunning,
                ..s
            }
        }
    } else {
        CoreTestView { phase: CorePhase::AskRunning, ..s }
    }
}

/// Adds what a read of the error sources found: all new mprime errors, and
/// the MCEs of the core past those already taken.
pub open spec fn merge_spec(s: CoreTestView, parsed: Seq<MprimeError>, latest: Seq<MceError>) -> CoreTestView {
    if latest.len() > s.seen {
        CoreTestView {
            mprime: s.mprime + parsed,
            mce: s.mce + latest.subrange(s.seen as int, latest.len() as int),
            seen: latest.len(),
            ..s
        }
    } else {
        CoreTestView { mprime: s.mprime + parsed, ..s }
    }
}

/// The error recorded when mprime died without reporting anything.
pub open spec fn died_error(e: MprimeError) -> bool {
    &&& e.error_type == MprimeErrorType::Unknown
    &&& e.message@ == "mprime process exited unexpectedly before test duration elapsed"@
    &&& e.fft_size is None
    &&& e.timestamp is None
}

pub open spec fn has_errors(s: CoreTestView) -> bool {
    s.mprime.len() > 0 || s.mce.len() > 0
}

/// One transition of a core's test on an event. An event of the wrong
/// kind for the phase changes nothing.
pub open spec fn core_step(s: CoreTestView, e: CoreEvent) -> CoreTestView {
    match (s.phase, e) {
        (CorePhase::Start, CoreEvent::Done) => if s.logical.len() > 0 {
            CoreTestView { phase: CorePhase::InitialSleep, ..s }
        } else {
            loop_top(s)
        },
        (CorePhase::InitialSleep, CoreEvent::Done) => CoreTestView { phase: CorePhase::InitialPin, ..s },
        (CorePhase::InitialPin, CoreEvent::Done) => loop_top(s),
        (CorePhase::AskShutdown, CoreEvent::Answer(true)) => CoreTestView {
            phase: CorePhase::StopThen(CoreStatus::Interrupted),
            ..s
        },
        (CorePhase::AskShutdown, CoreEvent::Answer(false)) => if s.elapsed >= s.next_error_poll {
            CoreTestView { phase: CorePhase::PollCollect, ..s }
        } else {
            pin_check(s)
        },
        (CorePhase::PollCollect, CoreEvent::Collected { parsed, latest_mce }) => {
            let m = merge_spec(s, parsed@, latest_mce@);
            if has_errors(m) {
                CoreTestView { phase: CorePhase::StopThen(CoreStatus::Failed), ..m }
            } else {
                pin_check(CoreTestView { next_error_poll: (m.next_error_poll + ERROR_POLL_INTERVAL) as u64, ..m })
            }
        },
        (CorePhase::PeriodicPin, CoreEvent::Done) => CoreTestView {
            next_pin_poll: (s.next_pin_poll + THREAD_PIN_INTERVAL) as u64,
            phase: CorePhase::AskRunning,
            ..s
        },
        (CorePhase::AskRunning, CoreEvent::Answer(true)) => CoreTestView { phase: CorePhase::Tick, ..s },
        (CorePhase::AskRunning, CoreEvent::Answer(false)) => CoreTestView { phase: CorePhase::DeadCollect, ..s },
        (CorePhase::Tick, CoreEvent::Done) => loop_top(
            CoreTestView { elapsed: (s.elapsed + SHUTDOWN_POLL_INTERVAL) as u64, ..s },
        ),
        (CorePhase::DeadCollect, CoreEvent::Collected { parsed, latest_mce }) => {
            let m = merge_spec(s, parsed@, latest_mce@);
            CoreTestView { phase: CorePhase::Finished(CoreStatus::Failed), ..m }
        },
        (CorePhase::FinalStop, CoreEvent::Done) => CoreTestView { phase: CorePhase::FinalCollect, ..s },
        (CorePhase::FinalCollect, CoreEvent::Collected { parsed, latest_mce }) => {
            let m = merge_spec(s, parsed@, latest_mce@);
            CoreTestView {
                phase: CorePhase::Finished(
                    if has_errors(m) {
                        CoreStatus::Failed
                    } else {
                        CoreStatus::Passed
                    },
                ),
                ..m
            }
        },
        (CorePhase::StopThen(st), CoreEvent::Done) => CoreTestView { phase: CorePhase::Finished(st), ..s },
        _ => s,
    }
}

/// mprime died and the last read found no error: the test records the
/// "exited unexpectedly" error in place of the (empty) mprime errors.
pub open spec fn died_case(s: CoreTestView, e: CoreEvent) -> bool {
    s.phase is DeadCollect && e is Collected && !has_errors(core_step(s, e))
}

impl CoreTest {
    /// A test of physical core `core_id`, BIOS index `bios_index`
    /// (iteration `iteration`, counted from 1) for `duration` seconds on its
    /// logical CPUs.
    pub fn new(core_id: u32, bios_index: u32, iteration: u32, logical_cpu_ids: Vec<u32>, duration: u64) -> (t: CoreTest)
        requires
            duration <= u64::MAX - 16,
        ensures
            t@.phase == CorePhase::Start,
            t@.core_id == core_id,
            t@.bios_index == bios_index,
            t@.iteration == iteration,
            t@.logical == logical_cpu_ids@,
            t@.duration == duration,
            t@.elapsed == INITIAL_PIN_DELAY,
            t@.next_error_poll == ERROR_POLL_INTERVAL,
            t@.next_pin_poll == INITIAL_PIN_DELAY + THREAD_PIN_INTERVAL,
            t@.seen == 0,
            t@.mprime.len() == 0,
            t@.mce.len() == 0,
            core_wf(t@),
            pin_phase_ok(t@),
    {
        CoreTest {
            core_id,
            bios_index,
            iteration,
            logical_cpu_ids,
            duration,
            elapsed: INITIAL_PIN_DELAY,
            next_error_poll: ERROR_POLL_INTERVAL,
            next_pin_poll: INITIAL_PIN_DELAY + THREAD_PIN_INTERVAL,
            seen_mce_count: 0,
            mprime_errors: Vec::new(),
            mce_errors: Vec::new(),
            phase: CorePhase::Start,
        }
    }

    /// What the caller is to do now.
    pub fn action(&self) -> (a: CoreAction)
        requires
            pin_phase_ok(self@),
        ensures
            a == action_spec(self@),
    {
        match self.phase {
            CorePhase::Start => CoreAction::StartRunner,
            CorePhase::InitialSleep => CoreAction::Sleep(INITIAL_PIN_DELAY),
            CorePhase::InitialPin => CoreAction::PinThreads { logical_cpu: self.logical_cpu_ids[0], required: true },
            CorePhase::AskShutdown => CoreAction::CheckShutdown,
            CorePhase::PollCollect => CoreAction::CollectErrors,
            CorePhase::PeriodicPin => CoreAction::PinThreads { logical_cpu: self.logical_cpu_ids[0], required: false },
            CorePhase::AskRunning => CoreAction::CheckRunning,
            CorePhase::Tick => CoreAction::Sleep(SHUTDOWN_POLL_INTERVAL),
            CorePhase::DeadCollect => CoreAction::CollectErrors,
            CorePhase::FinalStop => CoreAction::StopRunner,
            CorePhase::FinalCollect => CoreAction::CollectErrors,
            CorePhase::StopThen(_) => CoreAction::StopRunner,
            CorePhase::Finished(_) => CoreAction::Finish,
        }
    }

    fn go_loop_top(&mut self)
        ensures
            final(self)@ == loop_top(old(self)@),
    {
        if self.elapsed >= self.duration {
            self.phase = CorePhase::FinalStop;
        } else {
            self.phase = CorePhase::AskShutdown;
        }
    }

    fn go_pin_check(&mut self)
        requires
            old(self).next_pin_poll <= u64::MAX - THREAD_PIN_INTERVAL,
        ensures
            final(self)@ == pin_check(old(self)@),
    {
        if self.elapsed >= self.next_pin_poll {
            if self.logical_cpu_ids.len() > 0 {
                self.phase = CorePhase::PeriodicPin;
            } else {
                self.next_pin_poll = self.next_pin_poll + THREAD_PIN_INTERVAL;
                self.phase = CorePhase::AskRunning;
            }
        } else {
            self.phase = CorePhase::AskRunning;
        }
    }

    /// Takes in what a read of the error sources found.
    fn merge(&mut self, mut parsed: Vec<MprimeError>, latest_mce: Vec<MceError>)
        ensures
            final(self)@ == merge_spec(old(self)@, parsed@, latest_mce@),
    {
        self.mprime_errors.append(&mut parsed);
        if latest_mce.len() > self.seen_mce_count {
            let start = self.seen_mce_count;
            let mut added: Vec<MceError> = Vec::new();
            let mut k = start;
            while k < latest_mce.len()
                invariant
                    start <= k <= latest_mce@.len(),
                    added@ == latest_mce@.subrange(start as int, k as int),
                decreases latest_mce@.len() - k,
            {
                added.push(copy_error(&latest_mce[k]));
                assert(latest_mce@.subrange(start as int, k + 1) =~= latest_mce@.subrange(start as int, k as int).push(
                    latest_mce@[k as int],
                ));
                k += 1;
            }
            self.mce_errors.append(&mut added);
            self.seen_mce_count = latest_mce.len();
        }
    }

    /// Moves the test on by one event.
    pub fn step(&mut self, event: CoreEvent)
        requires
            core_wf(old(self)@),
            pin_phase_ok(old(self)@),
        ensures
            final(self)@ == (CoreTestView { mprime: final(self)@.mprime, ..core_step(old(self)@, event) }),
            died_case(old(self)@, event) ==> final(self)@.mprime.len() == 1 && died_error(final(self)@.mprime[0]),
            !died_case(old(self)@, event) ==> final(self)@.mprime == core_step(old(self)@, event).mprime,
            core_wf(final(self)@),
            pin_phase_ok(final(self)@),
    {
        match (self.phase, event) {
            (CorePhase::Start, CoreEvent::Done) => {
                if self.logical_cpu_ids.len() > 0 {
                    self.phase = CorePhase::InitialSleep;
                } else {
                    self.go_loop_top();
                }
            },
            (CorePhase::InitialSleep, CoreEvent::Done) => {
                self.phase = CorePhase::InitialPin;
            },
            (CorePhase::InitialPin, CoreEvent::Done) => {
                self.go_loop_top();
            },
            (CorePhase::AskShutdown, CoreEvent::Answer(requested)) => {
                if requested {
                    self.phase = CorePhase::StopThen(CoreStatus::Interrupted);
                } else if self.elapsed >= self.next_error_poll {
                    self.phase = CorePhase::PollCollect;
                } else {
                    self.go_pin_check();
                }
            },
            (CorePhase::PollCollect, CoreEvent::Collected { parsed, latest_mce }) => {
                self.merge(parsed, latest_mce);
                if self.mprime_errors.len() > 0 || self.mce_errors.len() > 0 {
                    self.phase = CorePhase::StopThen(CoreStatus::Failed);
                } else {
                    self.next_error_poll = self.next_error_poll + ERROR_POLL_INTERVAL;
                    self.go_pin_check();
                }
            },
            (CorePhase::PeriodicPin, CoreEvent::Done) => {
                self.next_pin_poll = self.next_pin_poll + THREAD_PIN_INTERVAL;
                self.phase = CorePhase::AskRunning;
            },
            (CorePhase::AskRunning, CoreEvent::Answer(running)) => {
                if running {
                    self.phase = CorePhase::Tick;
                } else {
                    self.phase = CorePhase::DeadCollect;
                }
            },
            (CorePhase::Tick, CoreEvent::Done) => {
                self.elapsed = self.elapsed + SHUTDOWN_POLL_INTERVAL;
                self.go_loop_top();
            },
            (CorePhase::DeadCollect, CoreEvent::Collected { parsed, latest_mce }) => {
                self.merge(parsed, latest_mce);
                if self.mprime_errors.len() == 0 && self.mce_errors.len() == 0 {
                    self.mprime_errors.push(
                        MprimeError {
                            error_type: MprimeErrorType::Unknown,
                            message: "mprime process exited unexpectedly before test duration elapsed".to_owned(),
                            fft_size: None,
                            timestamp: None,
                        },
                    );
                }
                self.phase = CorePhase::Finished(CoreStatus::Failed);
            },
            (CorePhase::FinalStop, CoreEvent::Done) => {
                self.phase = CorePhase::FinalCollect;
            },
            (CorePhase::FinalCollect, CoreEvent::Collected { parsed, latest_mce }) => {
                self.merge(parsed, latest_mce);
                if self.mprime_errors.len() == 0 && self.mce_errors.len() == 0 {
                    self.phase = CorePhase::Finished(CoreStatus::Passed);
                } else {
                    self.phase = CorePhase::Finished(CoreStatus::Failed);
                }
            },
            (CorePhase::StopThen(st), CoreEvent::Done) => {
                self.phase = CorePhase::Finished(st);
            },
            _ => {},
        }
    }

    /// The result of a finished test.
    pub fn into_result(self) -> (r: CoreTestResult)
        requires
            self@.phase is Finished,
        ensures
            r.core_id == self@.core_id,
            r.bios_index == self@.bios_index,
            r.logical_cpu_ids@ == self@.logical,
            self@.phase == CorePhase::Finished(r.status),
            r.mprime_errors@ == self@.mprime,
            r.mce_errors@ == self@.mce,
            r.duration_tested == self@.elapsed,
            r.iterations_completed == self@.iteration,
    {
        let status = match self.phase {
            CorePhase::Finished(st) => st,
            _ => CoreStatus::Idle,
        };
        CoreTestResult {
            core_id: self.core_id,
            bios_index: self.bios_index,
            logical_cpu_ids: self.logical_cpu_ids,
            status,
            mprime_errors: self.mprime_errors,
            mce_errors: self.mce_errors,
            duration_tested: self.elapsed,
            iterations_completed: self.iteration,
        }
    }
}


/// A finished test is Passed exactly without errors: Passed means no mprime
/// error and no MCE was seen, Failed means some error was.
pub proof fn lemma_finished_status(t: CoreTestView)
    requires
        core_wf(t),
        t.phase is Finished,
    ensures
        t.phase == CorePhase::Finished(CoreStatus::Passed) ==> t.mprime.len() == 0 && t.mce.len() == 0,
        t.phase == CorePhase::Finished(CoreStatus::Failed) ==> t.mprime.len() > 0 || t.mce.len() > 0,
        t.phase == CorePhase::Finished(CoreStatus::Passed) || t.phase == CorePhase::Finished(CoreStatus::Failed)
            || t.phase == CorePhase::Finished(CoreStatus::Interrupted),
{
}

/// The time under test never passes the requested duration, except that
/// the initial delay always counts.
pub proof fn lemma_duration_bound(t: CoreTestView)
    requires
        core_wf(t),
    ensures
        t.elapsed <= t.duration || t.elapsed <= INITIAL_PIN_DELAY,
{
}

/// A test only becomes Interrupted when the caller answered that a
/// shutdown was requested.
pub proof fn lemma_interrupted_only_on_shutdown(s: CoreTestView, e: CoreEvent)
    requires
        s.phase != CorePhase::StopThen(CoreStatus::Interrupted),
        s.phase != CorePhase::Finished(CoreStatus::Interrupted),
        core_step(s, e).phase == CorePhase::StopThen(CoreStatus::Interrupted) || core_step(s, e).phase
            == CorePhase::Finished(CoreStatus::Interrupted),
    ensures
        s.phase == CorePhase::AskShutdown,
        e == CoreEvent::Answer(true),
{
}

/// The state after a sequence of events.
pub open spec fn core_run(s: CoreTestView, es: Seq<CoreEvent>) -> CoreTestView
    decreases es.len(),
{
    if es.len() == 0 {
        s
    } else {
        core_step(core_run(s, es.drop_last()), es.last())
    }
}

pub open spec fn interrupted_phase(p: CorePhase) -> bool {
    p == CorePhase::StopThen(CoreStatus::Interrupted) || p == CorePhase::Finished(CoreStatus::Interrupted)
}

/// mprime is started once: no event leads back into the start phase, and
/// only `Done` (the start succeeded) leaves it.
pub proof fn lemma_start_once(s: CoreTestView, e: CoreEvent)
    ensures
        core_step(s, e).phase == CorePhase::Start ==> s.phase == CorePhase::Start && core_step(s, e) == s,
        s.phase == CorePhase::Start && core_step(s, e).phase != CorePhase::Start ==> e == CoreEvent::Done,
{
}

/// Over a whole test, the core ends up Interrupted exactly when, at some
/// shutdown check, the caller answered that a shutdown was requested.
pub proof fn lemma_interrupted_iff_shutdown_seen(s0: CoreTestView, es: Seq<CoreEvent>)
    requires
        !interrupted_phase(s0.phase),
    ensures
        interrupted_phase(core_run(s0, es).phase) <==> exists|k: int|
            0 <= k < es.len() && (#[trigger] core_run(s0, es.take(k))).phase == CorePhase::AskShutdown && es[k]
                == CoreEvent::Answer(true),
    decreases es.len(),
{
    if es.len() > 0 {
        let p = es.drop_last();
        let n = p.len() as int;
        lemma_interrupted_iff_shutdown_seen(s0, p);
        let prev = core_run(s0, p);
        assert(es.take(n) =~= p);
        assert forall|k: int| 0 <= k < n implies #[trigger] core_run(s0, es.take(k)) == core_run(s0, p.take(k)) && es[k] == p[k] by {
            assert(es.take(k) =~= p.take(k));
        }
        if interrupted_phase(core_run(s0, es).phase) {
            if interrupted_phase(prev.phase) {
                let k = choose|k: int| 0 <= k < p.len() && (#[trigger] core_run(s0, p.take(k))).phase == CorePhase::AskShutdown && p[k] == CoreEvent::Answer(true);
                assert(core_run(s0, es.take(k)) == core_run(s0, p.take(k)));
            } else {
                lemma_interrupted_only_on_shutdown(prev, es.last());
                assert(core_run(s0, es.take(n)) == prev);
                assert(es[n] == es.last());
            }
        } else {
            assert forall|k: int| 0 <= k < es.len() && (#[trigger] core_run(s0, es.take(k))).phase == CorePhase::AskShutdown implies es[k] != CoreEvent::Answer(true) by {
                if k < n {
                    if es[k] == CoreEvent::Answer(true) {
                        assert(core_run(s0, p.take(k)).phase == CorePhase::AskShutdown && p[k] == CoreEvent::Answer(true));
                        assert(interrupted_phase(prev.phase));
                    }
                } else {
                    assert(core_run(s0, es.take(k)) == prev);
                }
            }
        }
    }
}

// ---------------------------------------------------------------------------
// The whole cycle
// ---------------------------------------------------------------------------

/// Where the cycle stands.
#[derive(Debug, Clone, Copy, PartialEq, Eq, Structural)]
pub enum CyclePhase {
    /// Before the next core: has a shutdown been requested?
    AskShutdown,
    /// The current core is under test (a `CoreTest`).
    Testing,
    /// An iteration over all cores ended.
    IterationDone,
    /// The cycle is over.
    Done,
}

/// What the cycle asks of the caller.
#[derive(Debug, Clone, Copy, PartialEq, Eq, Structural)]
pub enum CycleAction {
    CheckShutdown,
    /// Run the test of this core in this iteration (counted from 1).
    TestCore { core_id: u32, bios_index: u32, iteration: u32 },
    /// Iteration `iteration` of `total` ended.
    IterationCompleted { iteration: u32, total: u32 },
    /// The cycle is over: take the results.
    Finish,
}

/// What the caller reports back to the cycle.
pub enum CycleEvent {
    Done,
    Answer(bool),
    CoreResult(CoreTestResult),
}

/// A test cycle over all cores, `iteration_count` times.
pub struct CycleRun {
    /// Cores in test order.
    pub cores: Vec<u32>,
    /// The logical CPUs of each core, in the same order.
    pub logical: Vec<Vec<u32>>,
    /// The BIOS index of each core, in the same order.
    pub bios: Vec<u32>,
    /// Cores to test; all when `None`.
    pub filter: Option<BTreeSet<u32>>,
    pub iteration_count: u32,
    /// Stop at the first failed core.
    pub bail: bool,
    /// Current iteration, from 0.
    pub iteration: u32,
    /// Position of the current core.
    pub index: usize,
    pub results: Vec<CoreTestResult>,
    pub interrupted: bool,
    pub completed_iterations: u32,
    pub phase: CyclePhase,
}

pub open spec fn filter_view(f: Option<BTreeSet<u32>>) -> Option<Set<u32>> {
    match f {
        Some(s) => Some(s@),
        None => None,
    }
}

/// The cycle's counters stay in range and every result is that of a core
/// of the list, Skipped exactly when the filter leaves it out.
pub open spec fn cycle_wf(c: CycleRun) -> bool {
    &&& c.logical@.len() == c.cores@.len()
    &&& c.bios@.len() == c.cores@.len()
    &&& c.iteration <= c.iteration_count
    &&& c.completed_iterations <= c.iteration
    &&& c.index <= c.cores@.len()
    &&& (c.phase is AskShutdown || c.phase is Testing ==> c.index < c.cores@.len() && c.iteration < c.iteration_count)
    &&& (c.phase is IterationDone ==> c.index == c.cores@.len() && c.iteration < c.iteration_count)
    &&& (c.phase is Testing ==> selected_spec(c.cores@[c.index as int], filter_view(c.filter)))
    &&& forall|k: int| 0 <= k < c.results@.len() ==> result_ok(c, #[trigger] c.results@[k])
}

/// A result of the cycle: for a listed core, and Skipped exactly when the
/// filter leaves the core out.
pub open spec fn result_ok(c: CycleRun, r: CoreTestResult) -> bool {
    result_fits(c.cores@, c.bios@, filter_view(c.filter), r)
}

/// A result for the core at some position of the list, with that core's
/// BIOS index, and Skipped exactly when the filter leaves the core out.
#[verifier::opaque]
pub open spec fn result_fits(cores: Seq<u32>, bios: Seq<u32>, filter: Option<Set<u32>>, r: CoreTestResult) -> bool {
    &&& exists|k: int| 0 <= k < cores.len() && cores[k] == r.core_id && #[trigger] bios[k] == r.bios_index
    &&& (r.status == CoreStatus::Skipped <==> !selected_spec(r.core_id, filter))
}

impl CycleRun {
    /// A cycle over the topology's cores in alternate order, restricted to
    /// the filter's cores when there is one.
    pub fn new(topology: &CpuTopology, iteration_count: u32, core_filter: Option<Vec<u32>>, bail: bool) -> (c: CycleRun)
        ensures
            c.cores@ == alternate(cpu_topology::sorted_seq_of(topology.core_map@.dom())),
            c.bios@.len() == c.cores@.len(),
            forall|k: int| 0 <= k < c.cores@.len() ==> #[trigger] c.bios@[k] == bios_or_self(topology.bios_map@, c.cores@[k]),
            c.iteration_count == iteration_count,
            c.bail == bail,
            c.iteration == 0,
            c.index == 0,
            c.results@.len() == 0,
            !c.interrupted,
            c.completed_iterations == 0,
            filter_view(c.filter) == match core_filter {
                Some(v) => Some(v@.to_set()),
                None => None,
            },
            c.phase == (if iteration_count == 0 || c.cores@.len() == 0 {
                if iteration_count == 0 {
                    CyclePhase::Done
                } else {
                    CyclePhase::IterationDone
                }
            } else {
                CyclePhase::AskShutdown
            }),
            cycle_wf(c),
    {
        broadcast use vstd::std_specs::btree::group_btree_axioms;
        let cores = order_cores_alternate(&topology.core_map);
        let mut logical: Vec<Vec<u32>> = Vec::new();
        let mut bios: Vec<u32> = Vec::new();
        let mut i: usize = 0;
        while i < cores.len()
            invariant
                i <= cores.len(),
                logical@.len() == i,
                bios@.len() == i,
                forall|k: int| 0 <= k < i ==> #[trigger] bios@[k] == bios_or_self(topology.bios_map@, cores@[k]),
            decreases cores.len() - i,
        {
            logical.push(logical_cpu_ids_for_core(topology, cores[i]));
            let b = match topology.bios_index(cores[i]) {
                Some(b) => b,
                None => cores[i],
            };
            bios.push(b);
            i += 1;
        }
        let filter = match core_filter {
            Some(ids) => {
                let mut set: BTreeSet<u32> = BTreeSet::new();
                let mut k: usize = 0;
                assert(set@ =~= ids@.take(0).to_set());
                while k < ids.len()
                    invariant
                        k <= ids.len(),
                        set@ == ids@.take(k as int).to_set(),
                    decreases ids.len() - k,
                {
                    set.insert(ids[k]);
                    proof {
                        assert(ids@.take(k + 1) =~= ids@.take(k as int).push(ids@[k as int]));
                        ids@.take(k as int).lemma_push_to_set_commute(ids@[k as int]);
                    }
                    k += 1;
                }
                assert(ids@.take(ids.len() as int) =~= ids@);
                Some(set)
            },
            None => None,
        };
        let phase = if iteration_count == 0 {
            CyclePhase::Done
        } else if cores.len() == 0 {
            CyclePhase::IterationDone
        } else {
            CyclePhase::AskShutdown
        };
        CycleRun {
            cores,
            logical,
            bios,
            filter,
            iteration_count,
            bail,
            iteration: 0,
            index: 0,
            results: Vec::new(),
            interrupted: false,
            completed_iterations: 0,
            phase,
        }
    }

    /// What the caller is to do now.
    pub fn action(&self) -> (a: CycleAction)
        requires
            cycle_wf(*self),
        ensures
            a == cycle_action_spec(*self),
    {
        match self.phase {
            CyclePhase::AskShutdown => CycleAction::CheckShutdown,
            CyclePhase::Testing => CycleAction::TestCore {
                core_id: self.cores[self.index],
                bios_index: self.bios[self.index],
                iteration: self.iteration + 1,
            },
            CyclePhase::IterationDone => CycleAction::IterationCompleted {
                iteration: self.iteration + 1,
                total: self.iteration_count,
            },
            CyclePhase::Done => CycleAction::Finish,
        }
    }

    /// Moves to the next core, or ends the iteration.
    fn advance(&mut self)
        requires
            cycle_wf(*old(self)),
            old(self).index < old(self).cores@.len(),
            old(self).iteration < old(self).iteration_count,
        ensures
            *final(self) == (CycleRun { index: (old(self).index + 1) as usize, phase: next_core_phase(*old(self)), ..*old(self) }),
            cycle_wf(*final(self)),
    {
        let n = self.cores.len();
        self.index = self.index + 1;
        if self.index == n {
            self.phase = CyclePhase::IterationDone;
        } else {
            self.phase = CyclePhase::AskShutdown;
        }
    }

    /// Moves the cycle on by one event; a core's result is that of the
    /// core the cycle asked to test.
    pub fn step(&mut self, event: CycleEvent)
        requires
            cycle_wf(*old(self)),
            old(self).phase is Testing ==> (event matches CycleEvent::CoreResult(r) ==> r.core_id == old(self).cores@[old(self).index as int]
                && r.bios_index == old(self).bios@[old(self).index as int] && r.status != CoreStatus::Skipped),
        ensures
            cycle_step_ok(*old(self), event, *final(self)),
            cycle_wf(*final(self)),
    {
        broadcast use vstd::std_specs::btree::group_btree_axioms;
        match (self.phase, event) {
            (CyclePhase::AskShutdown, CycleEvent::Answer(requested)) => {
                if requested {
                    self.interrupted = true;
                    self.phase = CyclePhase::Done;
                } else {
                    let core_id = self.cores[self.index];
                    let selected = match &self.filter {
                        Some(f) => f.contains(&core_id),
                        None => true,
                    };
                    if selected {
                        self.phase = CyclePhase::Testing;
                    } else {
                        let r = CoreTestResult {
                            core_id,
                            bios_index: self.bios[self.index],
                            logical_cpu_ids: self.logical[self.index].clone(),
                            status: CoreStatus::Skipped,
                            mprime_errors: Vec::new(),
                            mce_errors: Vec::new(),
                            duration_tested: 0,
                            iterations_completed: self.iteration + 1,
                        };
                        let ghost before = self.results@;
                        self.results.push(r);
                        proof {
                            assert(self.cores@[self.index as int] == core_id);
                            assert(self.bios@[self.index as int] == r.bios_index);
                            reveal(result_fits);
                            assert(self.results@.take(before.len() as int) =~= before);
                        }
                        self.advance();
                    }
                }
            },
            (CyclePhase::Testing, CycleEvent::CoreResult(r)) => {
                let status = r.status;
                proof {
                    assert(self.cores@[self.index as int] == r.core_id);
                    assert(self.bios@[self.index as int] == r.bios_index);
                    reveal(result_fits);
                }
                self.results.push(r);
                if status == CoreStatus::Interrupted {
                    self.interrupted = true;
                    self.phase = CyclePhase::Done;
                } else if self.bail && status == CoreStatus::Failed {
                    self.interrupted = true;
                    self.phase = CyclePhase::Done;
                } else {
                    self.advance();
                }
            },
            (CyclePhase::IterationDone, CycleEvent::Done) => {
                self.completed_iterations = self.completed_iterations + 1;
                self.iteration = self.iteration + 1;
                self.index = 0;
                if self.iteration == self.iteration_count || self.cores.len() == 0 {
                    if self.iteration == self.iteration_count {
                        self.phase = CyclePhase::Done;
                    } else {
                        self.phase = CyclePhase::IterationDone;
                    }
                } else {
                    self.phase = CyclePhase::AskShutdown;
                }
            },
            _ => {},
        }
    }

    /// The results of a finished cycle that took `total_duration` seconds.
    pub fn into_results(self, total_duration: u64) -> (r: CycleResults)
        ensures
            r.results@ == self.results@,
            r.total_duration == total_duration,
            r.iterations_completed == self.completed_iterations,
            r.interrupted == self.interrupted,
    {
        CycleResults {
            results: self.results,
            total_duration,
            iterations_completed: self.completed_iterations,
            interrupted: self.interrupted,
        }
    }
}

pub open spec fn cycle_action_spec(c: CycleRun) -> CycleAction {
    match c.phase {
        CyclePhase::AskShutdown => CycleAction::CheckShutdown,
        CyclePhase::Testing => CycleAction::TestCore {
            core_id: c.cores@[c.index as int],
            bios_index: c.bios@[c.index as int],
            iteration: (c.iteration + 1) as u32,
        },
        CyclePhase::IterationDone => CycleAction::IterationCompleted { iteration: (c.iteration + 1) as u32, total: c.iteration_count },
        CyclePhase::Done => CycleAction::Finish,
    }
}

/// The phase after a core: the next core's shutdown check, or the end of
/// the iteration.
pub open spec fn next_core_phase(c: CycleRun) -> CyclePhase {
    if c.index + 1 == c.cores@.len() {
        CyclePhase::IterationDone
    } else {
        CyclePhase::AskShutdown
    }
}

/// One transition of the cycle. Before each core the shutdown flag is
/// checked (a request ends the cycle as interrupted); a core outside the
/// filter gets a Skipped result without a test; an Interrupted core ends
/// the cycle, and so does a Failed one when bailing out; after the last
/// core the iteration ends, and after the last iteration the cycle.
pub open spec fn cycle_step_ok(c: CycleRun, e: CycleEvent, d: CycleRun) -> bool {
    match (c.phase, e) {
        (CyclePhase::AskShutdown, CycleEvent::Answer(true)) => d == (CycleRun { interrupted: true, phase: CyclePhase::Done, ..c }),
        (CyclePhase::AskShutdown, CycleEvent::Answer(false)) => {
            let core = c.cores@[c.index as int];
            if selected_spec(core, filter_view(c.filter)) {
                d == (CycleRun { phase: CyclePhase::Testing, ..c })
            } else {
                &&& d.results@.len() == c.results@.len() + 1
                &&& d.results@.take(c.results@.len() as int) == c.results@
                &&& d.results@.last().core_id == core
                &&& d.results@.last().bios_index == c.bios@[c.index as int]
                &&& d.results@.last().logical_cpu_ids@ == c.logical@[c.index as int]@
                &&& d.results@.last().status == CoreStatus::Skipped
                &&& d.results@.last().mprime_errors@.len() == 0
                &&& d.results@.last().mce_errors@.len() == 0
                &&& d.results@.last().duration_tested == 0
                &&& d.results@.last().iterations_completed == c.iteration + 1
                &&& d == (CycleRun { results: d.results, index: (c.index + 1) as usize, phase: next_core_phase(c), ..c })
            }
        },
        (CyclePhase::Testing, CycleEvent::CoreResult(r)) => {
            let stop = r.status == CoreStatus::Interrupted || (c.bail && r.status == CoreStatus::Failed);
            &&& d.results@ == c.results@.push(r)
            &&& if stop {
                d == (CycleRun { results: d.results, interrupted: true, phase: CyclePhase::Done, ..c })
            } else {
                d == (CycleRun { results: d.results, index: (c.index + 1) as usize, phase: next_core_phase(c), ..c })
            }
        },
        (CyclePhase::IterationDone, CycleEvent::Done) => {
            let it = (c.iteration + 1) as u32;
            d == (CycleRun {
                completed_iterations: (c.completed_iterations + 1) as u32,
                iteration: it,
                index: 0,
                phase: if it == c.iteration_count {
                    CyclePhase::Done
                } else if c.cores@.len() == 0 {
                    CyclePhase::IterationDone
                } else {
                    CyclePhase::AskShutdown
                },
                ..c
            })
        },
        _ => d == c,
    }
}

/// With `--bail`, a failed core ends the cycle: nothing more is tested,
/// the cycle finishes as interrupted, and the failed result is kept last.
pub proof fn lemma_bail_stops_at_first_failure(c: CycleRun, r: CoreTestResult, d: CycleRun)
    requires
        c.phase is Testing,
        c.bail,
        r.status == CoreStatus::Failed,
        cycle_step_ok(c, CycleEvent::CoreResult(r), d),
    ensures
        cycle_action_spec(d) == CycleAction::Finish,
        d.interrupted,
        d.results@ == c.results@.push(r),
{
}

/// A shutdown request seen before a core ends the cycle as interrupted
/// without testing that core or adding any result.
pub proof fn lemma_shutdown_ends_cycle(c: CycleRun, d: CycleRun)
    requires
        c.phase is AskShutdown,
        cycle_step_ok(c, CycleEvent::Answer(true), d),
    ensures
        cycle_action_spec(d) == CycleAction::Finish,
        d.interrupted,
        d.results@ == c.results@,
{
}

/// The order the cycle keeps: the `k`-th result is for the core at
/// position `k mod n` of the test order (n cores), and before the end the
/// results count the positions passed in the finished iterations and the
/// current one; an uninterrupted cycle has finished its iterations when
/// done.
pub open spec fn order_inv(c: CycleRun) -> bool {
    let n = c.cores@.len();
    &&& forall|k: int| 0 <= k < c.results@.len() ==> n > 0 && (#[trigger] c.results@[k]).core_id == c.cores@[k % (n as int)]
    &&& !c.interrupted ==> c.results@.len() == c.iteration * n + c.index
    &&& !c.interrupted ==> c.completed_iterations == c.iteration
    &&& (c.phase is Done && !c.interrupted) ==> c.iteration == c.iteration_count && c.index == 0
    &&& c.interrupted ==> c.phase is Done
}

proof fn lemma_position(it: int, n: int, idx: int)
    requires
        0 <= it,
        0 <= idx < n,
    ensures
        (it * n + idx) % n == idx,
        it * n + idx + 1 == (if idx + 1 == n { (it + 1) * n } else { it * n + (idx + 1) }),
{
    vstd::arithmetic::div_mod::lemma_fundamental_div_mod_converse(it * n + idx, n, it, idx);
    assert((it + 1) * n == it * n + n) by (nonlinear_arith);
}

/// Every step keeps the cycle's order: results follow the alternate order
/// of the cores, iteration after iteration.
pub proof fn lemma_cycle_keeps_order(c: CycleRun, e: CycleEvent, d: CycleRun)
    requires
        cycle_wf(c),
        order_inv(c),
        cycle_step_ok(c, e, d),
        c.phase is Testing ==> (e matches CycleEvent::CoreResult(r) ==> r.core_id == c.cores@[c.index as int]),
    ensures
        order_inv(d),
{
    let n = c.cores@.len() as int;
    assert(c.cores@.len() == c.cores.len());
    match (c.phase, e) {
        (CyclePhase::AskShutdown, CycleEvent::Answer(false)) => {
            if !selected_spec(c.cores@[c.index as int], filter_view(c.filter)) {
                lemma_position(c.iteration as int, n, c.index as int);
                assert forall|k: int| 0 <= k < d.results@.len() implies n > 0 && (#[trigger] d.results@[k]).core_id == d.cores@[k % n] by {
                    if k < c.results@.len() {
                        assert(d.results@[k] == d.results@.take(c.results@.len() as int)[k]);
                    }
                }
                assert(order_inv(d));
            } else {
                assert(order_inv(d));
            }
        },
        (CyclePhase::Testing, CycleEvent::CoreResult(r)) => {
            lemma_position(c.iteration as int, n, c.index as int);
            assert forall|k: int| 0 <= k < d.results@.len() implies n > 0 && (#[trigger] d.results@[k]).core_id == d.cores@[k % n] by {
                if k < c.results@.len() {
                    assert(d.results@[k] == c.results@[k]);
                }
            }
            assert(!c.interrupted);
            assert(c.results@.len() == c.iteration * n + c.index);
            assert(d.results@.len() == c.results@.len() + 1);
            if !d.interrupted {
                assert(d.index == c.index + 1);
                assert(d.iteration == c.iteration);
                assert(d.results@.len() == d.iteration * n + d.index);
            }
            assert(order_inv(d));
        },
        (CyclePhase::IterationDone, CycleEvent::Done) => {
            assert((c.iteration + 1) * n == c.iteration * n + n) by (nonlinear_arith);
            assert(order_inv(d));
        },
        (CyclePhase::AskShutdown, CycleEvent::Answer(true)) => {
            assert(order_inv(d));
        },
        _ => {
            assert(d == c);
        },
    }
}

/// A fresh cycle is in order.
pub proof fn lemma_new_cycle_in_order(c: CycleRun)
    requires
        c.results@.len() == 0,
        c.iteration == 0,
        c.index == 0,
        c.completed_iterations == 0,
        !c.interrupted,
        c.phase is Done ==> c.iteration_count == 0,
    ensures
        order_inv(c),
{
}

/// A cycle that ran to its end without interruption has tested (or, for
/// cores outside the filter, skipped) every core in the alternate order
/// once per iteration: `iteration_count * n` results, the `k`-th for core
/// `k mod n` of the order, Skipped exactly when the filter leaves it out.
pub proof fn lemma_finished_cycle_covers_iterations(c: CycleRun)
    requires
        cycle_wf(c),
        order_inv(c),
        c.phase is Done,
        !c.interrupted,
    ensures
        c.results@.len() == c.iteration_count * c.cores@.len(),
        c.completed_iterations == c.iteration_count,
        forall|k: int| 0 <= k < c.results@.len() ==> (#[trigger] c.results@[k]).core_id == c.cores@[k % (c.cores@.len() as int)]
            && (c.results@[k].status == CoreStatus::Skipped <==> !selected_spec(c.results@[k].core_id, filter_view(c.filter))),
{
    reveal(result_fits);
    assert forall|k: int| 0 <= k < c.results@.len() implies (#[trigger] c.results@[k]).core_id == c.cores@[k % (c.cores@.len() as int)]
        && (c.results@[k].status == CoreStatus::Skipped <==> !selected_spec(c.results@[k].core_id, filter_view(c.filter))) by {
        assert(result_ok(c, c.results@[k]));
    }
}

} // verus!
