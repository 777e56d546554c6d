//! FFT preset benchmark: each preset is run a few times on one core, the
//! time to the first error is taken, and the preset that fails fastest on
//! average wins.
use crate::cpu_topology::{self, CpuTopology};
use crate::error_parser::MprimeErrorType;
use crate::mprime_config::{all_presets_spec, fft_range_spec, preset_name_spec, FftPreset};
use std::collections::BTreeMap;
use crate::report;
use crate::text::{self, decimal, pad_left, pad_right, repeat_char};
use vstd::prelude::*;

verus! {

// ---------------------------------------------------------------------------
// Results and summaries
// ---------------------------------------------------------------------------

/// One run of one preset. Times are in whole seconds.
#[derive(Debug, Clone, Copy, PartialEq, Eq)]
pub struct BenchmarkResult {
    pub preset: FftPreset,
    /// 1-based iteration number within the preset.
    pub iteration: u32,
    /// Seconds from the start of the run to the first error, if one came.
    pub time_to_error: Option<u64>,
    pub error_type: Option<MprimeErrorType>,
    /// FFT size in K that the first error named, if any.
    pub fft_size: Option<u32>,
    /// The run reached the time limit without an error.
    pub timed_out: bool,
}

/// The runs of one preset with their timing statistics. The error rate
/// is `error_count / results.len()`.
#[derive(Debug, Clone)]
pub struct PresetSummary {
    pub preset: FftPreset,
    pub results: Vec<BenchmarkResult>,
    pub fastest: Option<u64>,
    pub average: Option<u64>,
    pub slowest: Option<u64>,
    /// Number of runs that ended in an error.
    pub error_count: usize,
}

/// The times to error of the runs that failed, in run order.
pub open spec fn error_times(rs: Seq<BenchmarkResult>) -> Seq<u64>
    decreases rs.len(),
{
    if rs.len() == 0 {
        seq![]
    } else {
        let t = error_times(rs.drop_last());
        match rs.last().time_to_error {
            Some(x) => t.push(x),
            None => t,
        }
    }
}

pub open spec fn seq_sum(s: Seq<u64>) -> nat
    decreases s.len(),
{
    if s.len() == 0 {
        0
    } else {
        seq_sum(s.drop_last()) + s.last() as nat
    }
}

pub open spec fn seq_min(s: Seq<u64>) -> u64
    decreases s.len(),
{
    if s.len() <= 1 {
        s[0]
    } else {
        let m = seq_min(s.drop_last());
        if s.last() < m {
            s.last()
        } else {
            m
        }
    }
}

pub open spec fn seq_max(s: Seq<u64>) -> u64
    decreases s.len(),
{
    if s.len() <= 1 {
        s[0]
    } else {
        let m = seq_max(s.drop_last());
        if s.last() > m {
            s.last()
        } else {
            m
        }
    }
}

/// Fastest, average (rounded down) and slowest time to error, each absent
/// when no run failed.
pub open spec fn timing_stats(rs: Seq<BenchmarkResult>) -> (Option<u64>, Option<u64>, Option<u64>) {
    let t = error_times(rs);
    if t.len() == 0 {
        (None, None, None)
    } else {
        (Some(seq_min(t)), Some((seq_sum(t) / t.len()) as u64), Some(seq_max(t)))
    }
}

proof fn lemma_error_times_prefix(rs: Seq<BenchmarkResult>, i: int)
    requires
        0 <= i < rs.len(),
    ensures
        error_times(rs.take(i + 1)) == (match rs[i].time_to_error {
            Some(x) => error_times(rs.take(i)).push(x),
            None => error_times(rs.take(i)),
        }),
{
    assert(rs.take(i + 1).drop_last() =~= rs.take(i));
}

proof fn lemma_error_times_len(rs: Seq<BenchmarkResult>)
    ensures
        error_times(rs).len() <= rs.len(),
    decreases rs.len(),
{
    if rs.len() > 0 {
        lemma_error_times_len(rs.drop_last());
    }
}

proof fn lemma_sum_prefix_le(rs: Seq<BenchmarkResult>, i: int, j: int)
    requires
        0 <= i <= j <= rs.len(),
    ensures
        seq_sum(error_times(rs.take(i))) <= seq_sum(error_times(rs.take(j))),
    decreases j - i,
{
    if i < j {
        lemma_sum_prefix_le(rs, i, j - 1);
        lemma_error_times_prefix(rs, j - 1);
        let t = error_times(rs.take(j - 1));
        if let Some(x) = rs[j - 1].time_to_error {
            assert(t.push(x).drop_last() =~= t);
        }
    }
}

proof fn lemma_min_le_max(s: Seq<u64>)
    requires
        s.len() > 0,
    ensures
        seq_min(s) <= seq_max(s),
        seq_min(s) * s.len() <= seq_sum(s),
        seq_sum(s) <= seq_max(s) * s.len(),
        forall|k: int| 0 <= k < s.len() ==> seq_min(s) <= #[trigger] s[k] <= seq_max(s),
    decreases s.len(),
{
    if s.len() > 1 {
        let p = s.drop_last();
        lemma_min_le_max(p);
        let n = p.len();
        assert(seq_min(s) * s.len() == seq_min(s) * n + seq_min(s)) by (nonlinear_arith)
            requires
                s.len() == n + 1,
        ;
        assert(seq_min(s) * n <= seq_min(p) * n) by (nonlinear_arith)
            requires
                seq_min(s) <= seq_min(p),
        ;
        assert(seq_max(s) * s.len() == seq_max(s) * n + seq_max(s)) by (nonlinear_arith)
            requires
                s.len() == n + 1,
        ;
        assert(seq_max(p) * n <= seq_max(s) * n) by (nonlinear_arith)
            requires
                seq_max(p) <= seq_max(s),
        ;
        assert forall|k: int| 0 <= k < s.len() implies seq_min(s) <= #[trigger] s[k] <= seq_max(s) by {
            if k < n {
                assert(s[k] == p[k]);
            }
        }
    } else {
        assert(seq_sum(s.drop_last()) == 0);
        assert(seq_sum(s) == s[0]);
    }
}

/// Timing statistics keep their order: fastest ≤ average ≤ slowest, and
/// every run's time to error lies between fastest and slowest.
pub proof fn lemma_timing_order(rs: Seq<BenchmarkResult>)
    ensures
        timing_stats(rs).0 is Some <==> error_times(rs).len() > 0,
        timing_stats(rs).0 is Some ==> {
            let (f, a, s) = timing_stats(rs);
            &&& f.unwrap() <= a.unwrap() <= s.unwrap()
            &&& forall|k: int|
                0 <= k < rs.len() && (#[trigger] rs[k]).time_to_error is Some ==> f.unwrap()
                    <= rs[k].time_to_error.unwrap() <= s.unwrap()
        },
{
    let t = error_times(rs);
    if t.len() > 0 {
        lemma_min_le_max(t);
        let n = t.len();
        let sum = seq_sum(t);
        assert(seq_min(t) <= sum / n) by (nonlinear_arith)
            requires
                seq_min(t) * n <= sum,
                n > 0,
        ;
        assert(sum / n <= seq_max(t)) by (nonlinear_arith)
            requires
                sum <= seq_max(t) * n,
                n > 0,
        ;
        assert forall|k: int|
            0 <= k < rs.len() && (#[trigger] rs[k]).time_to_error is Some implies seq_min(t)
                <= rs[k].time_to_error.unwrap() <= seq_max(t) by {
            lemma_time_in_error_times(rs, k);
        }
    }
}

proof fn lemma_time_in_error_times(rs: Seq<BenchmarkResult>, k: int)
    requires
        0 <= k < rs.len(),
        rs[k].time_to_error is Some,
    ensures
        exists|m: int| 0 <= m < error_times(rs).len() && error_times(rs)[m] == rs[k].time_to_error.unwrap(),
    decreases rs.len(),
{
    let p = rs.drop_last();
    if k == rs.len() - 1 {
        let t = error_times(rs);
        assert(t[t.len() - 1] == rs[k].time_to_error.unwrap());
    } else {
        assert(p[k] == rs[k]);
        lemma_time_in_error_times(p, k);
        let m = choose|m: int| 0 <= m < error_times(p).len() && error_times(p)[m] == p[k].time_to_error.unwrap();
        assert(error_times(rs)[m] == error_times(p)[m]);
    }
}

/// The smallest and the largest element of a sequence are elements of it.
proof fn lemma_min_max_attained(s: Seq<u64>)
    requires
        s.len() > 0,
    ensures
        s.contains(seq_min(s)),
        s.contains(seq_max(s)),
    decreases s.len(),
{
    if s.len() > 1 {
        let p = s.drop_last();
        lemma_min_max_attained(p);
        let i = choose|i: int| 0 <= i < p.len() && p[i] == seq_min(p);
        let j = choose|j: int| 0 <= j < p.len() && p[j] == seq_max(p);
        assert(s[i] == p[i] && s[j] == p[j]);
        assert(s[s.len() - 1] == s.last());
    } else {
        assert(s[0] == seq_min(s) && s[0] == seq_max(s));
    }
}

/// Each time in the list of error times is the time to error of some run.
proof fn lemma_error_time_from_run(rs: Seq<BenchmarkResult>, m: int)
    requires
        0 <= m < error_times(rs).len(),
    ensures
        exists|k: int| 0 <= k < rs.len() && (#[trigger] rs[k]).time_to_error == Some(error_times(rs)[m]),
    decreases rs.len(),
{
    let p = rs.drop_last();
    let t = error_times(p);
    if m < t.len() {
        assert(error_times(rs)[m] == t[m]);
        lemma_error_time_from_run(p, m);
        let k = choose|k: int| 0 <= k < p.len() && (#[trigger] p[k]).time_to_error == Some(t[m]);
        assert(rs[k] == p[k]);
    } else {
        assert(rs[rs.len() - 1] == rs.last());
    }
}

pub open spec fn failed_run(r: BenchmarkResult) -> bool {
    r.time_to_error is Some
}

/// The error times are the times to error of the runs that failed, in run
/// order, one per failed run; so the error count is the number of failed runs.
pub proof fn lemma_error_times_are_failed_runs(rs: Seq<BenchmarkResult>)
    ensures
        error_times(rs) == rs.filter(|r: BenchmarkResult| failed_run(r)).map_values(
            |r: BenchmarkResult| r.time_to_error.unwrap(),
        ),
    decreases rs.len(),
{
    let f = |r: BenchmarkResult| failed_run(r);
    let g = |r: BenchmarkResult| r.time_to_error.unwrap();
    if rs.len() == 0 {
        assert(rs.filter(f) =~= Seq::<BenchmarkResult>::empty());
        assert(error_times(rs) =~= rs.filter(f).map_values(g));
    } else {
        let p = rs.drop_last();
        lemma_error_times_are_failed_runs(p);
        assert(rs =~= p.push(rs.last()));
        p.lemma_filter_push(rs.last(), f);
        assert(error_times(rs) =~= rs.filter(f).map_values(g));
    }
}

/// The average time to error is the mean of the failed runs' times, rounded
/// down: `average * n <= sum < (average + 1) * n` over the `n` runs that
/// failed. Fastest and slowest are times that some run took to fail. All
/// three are absent exactly when no run failed.
pub proof fn lemma_average_is_mean(rs: Seq<BenchmarkResult>)
    ensures
        error_times(rs).len() == 0 ==> timing_stats(rs) == (None::<u64>, None::<u64>, None::<u64>),
        error_times(rs).len() > 0 ==> {
            let n = error_times(rs).len();
            let (f, a, s) = timing_stats(rs);
            &&& a is Some
            &&& a.unwrap() * n <= seq_sum(error_times(rs)) < (a.unwrap() + 1) * n
            &&& exists|k: int| 0 <= k < rs.len() && (#[trigger] rs[k]).time_to_error == f
            &&& exists|k: int| 0 <= k < rs.len() && (#[trigger] rs[k]).time_to_error == s
        },
{
    let t = error_times(rs);
    if t.len() > 0 {
        let n = t.len();
        let sum = seq_sum(t);
        lemma_min_le_max(t);
        assert(sum / n <= seq_max(t)) by (nonlinear_arith)
            requires
                sum <= seq_max(t) * n,
                n > 0,
        ;
        let q = sum / n;
        assert(q * n <= sum < (q + 1) * n) by (nonlinear_arith)
            requires
                q == sum / n,
                n > 0,
        ;
        assert((q as u64) == q);
        lemma_min_max_attained(t);
        let i = choose|i: int| 0 <= i < t.len() && t[i] == seq_min(t);
        let j = choose|j: int| 0 <= j < t.len() && t[j] == seq_max(t);
        lemma_error_time_from_run(rs, i);
        lemma_error_time_from_run(rs, j);
    }
}

/// Summarises the runs of a preset: timing statistics over the runs that
/// failed, and how many did.
pub fn summarize_preset(preset: FftPreset, results: Vec<BenchmarkResult>) -> (s: PresetSummary)
    requires
        seq_sum(error_times(results@)) <= u64::MAX,
    ensures
        s.preset == preset,
        s.results@ == results@,
        (s.fastest, s.average, s.slowest) == timing_stats(results@),
        s.error_count == error_times(results@).len(),
{
    let ghost rs = results@;
    let mut count: usize = 0;
    let mut sum: u64 = 0;
    let mut fastest: u64 = 0;
    let mut slowest: u64 = 0;
    let mut i: usize = 0;
    while i < results.len()
        invariant
            rs == results@,
            i <= results.len(),
            seq_sum(error_times(rs)) <= u64::MAX,
            count == error_times(rs.take(i as int)).len(),
            sum == seq_sum(error_times(rs.take(i as int))),
            count > 0 ==> fastest == seq_min(error_times(rs.take(i as int))),
            count > 0 ==> slowest == seq_max(error_times(rs.take(i as int))),
        decreases results.len() - i,
    {
        proof {
            lemma_error_times_prefix(rs, i as int);
            lemma_sum_prefix_le(rs, i + 1, rs.len() as int);
            assert(rs.take(rs.len() as int) =~= rs);
            lemma_error_times_len(rs.take(i as int));
        }
        match results[i].time_to_error {
            Some(t) => {
                let ghost before = error_times(rs.take(i as int));
                let ghost after = before.push(t);
                assert(after.drop_last() =~= before);
                if count == 0 || t < fastest {
                    fastest = t;
                }
                if count == 0 || t > slowest {
                    slowest = t;
                }
                sum = sum + t;
                count = count + 1;
            },
            None => {},
        }
        i = i + 1;
    }
    proof {
        assert(rs.take(rs.len() as int) =~= rs);
    }
    if count == 0 {
        PresetSummary { preset, results, fastest: None, average: None, slowest: None, error_count: 0 }
    } else {
        let average = sum / (count as u64);
        PresetSummary {
            preset,
            results,
            fastest: Some(fastest),
            average: Some(average),
            slowest: Some(slowest),
            error_count: count,
        }
    }
}

// ---------------------------------------------------------------------------
// The winner
// ---------------------------------------------------------------------------

/// The preset with the smallest average time to error and that average;
/// of equal averages the earliest summary wins.
pub open spec fn best_average(s: Seq<PresetSummary>) -> Option<(FftPreset, u64)>
    decreases s.len(),
{
    if s.len() == 0 {
        None
    } else {
        let rest = best_average(s.drop_last());
        match s.last().average {
            None => rest,
            Some(a) => match rest {
                None => Some((s.last().preset, a)),
                Some(best) => if a < best.1 {
                    Some((s.last().preset, a))
                } else {
                    rest
                },
            },
        }
    }
}

pub open spec fn winner_spec(s: Seq<PresetSummary>) -> Option<FftPreset> {
    match best_average(s) {
        Some(b) => Some(b.0),
        None => None,
    }
}

/// The winning preset: the one whose runs failed fastest on average.
pub fn select_winner(summaries: &[PresetSummary]) -> (w: Option<FftPreset>)
    ensures
        w == winner_spec(summaries@),
{
    let ghost s = summaries@;
    let mut best: Option<(FftPreset, u64)> = None;
    let mut i: usize = 0;
    while i < summaries.len()
        invariant
            s == summaries@,
            i <= summaries.len(),
            best == best_average(s.take(i as int)),
        decreases summaries.len() - i,
    {
        proof {
            assert(s.take(i + 1).drop_last() =~= s.take(i as int));
        }
        match summaries[i].average {
            Some(a) => {
                match best {
                    None => {
                        best = Some((summaries[i].preset, a));
                    },
                    Some(b) => {
                        if a < b.1 {
                            best = Some((summaries[i].preset, a));
                        }
                    },
                }
            },
            None => {},
        }
        i = i + 1;
    }
    proof {
        assert(s.take(s.len() as int) =~= s);
    }
    match best {
        Some(b) => Some(b.0),
        None => None,
    }
}

/// Summary `i` has average `a`, no summary has a smaller one, and every
/// earlier summary with an average has a larger one.
pub open spec fn best_at(s: Seq<PresetSummary>, i: int, a: u64) -> bool {
    &&& 0 <= i < s.len()
    &&& s[i].average == Some(a)
    &&& forall|j: int| 0 <= j < s.len() && (#[trigger] s[j]).average is Some ==> a <= s[j].average.unwrap()
    &&& forall|j: int| 0 <= j < i && (#[trigger] s[j]).average is Some ==> a < s[j].average.unwrap()
}

/// The winner is the first preset whose average time to error is the
/// smallest of all; there is no winner exactly when no preset had an
/// error.
pub proof fn lemma_winner_is_fastest(s: Seq<PresetSummary>)
    ensures
        winner_spec(s) is None <==> (forall|j: int| 0 <= j < s.len() ==> (#[trigger] s[j]).average is None),
        winner_spec(s) is Some ==> exists|i: int|
            best_at(s, i, (#[trigger] s[i]).average.unwrap()) && s[i].preset == winner_spec(s).unwrap(),
{
    lemma_best_average(s);
    if best_average(s) is Some {
        let b = best_average(s).unwrap();
        let i = choose|i: int| best_at(s, i, b.1) && s[i].preset == b.0;
        assert(best_at(s, i, s[i].average.unwrap()) && s[i].preset == winner_spec(s).unwrap());
    }
}

proof fn lemma_best_average(s: Seq<PresetSummary>)
    ensures
        best_average(s) is None <==> (forall|j: int| 0 <= j < s.len() ==> (#[trigger] s[j]).average is None),
        best_average(s) is Some ==> exists|i: int|
            best_at(s, i, best_average(s).unwrap().1) && (#[trigger] s[i]).preset == best_average(s).unwrap().0,
    decreases s.len(),
{
    if s.len() > 0 {
        let p = s.drop_last();
        let n = p.len() as int;
        lemma_best_average(p);
        assert forall|j: int| 0 <= j < n implies #[trigger] s[j] == p[j] by {}
        let keep_rest = match s.last().average {
            None => true,
            Some(a) => best_average(p) is Some && !(a < best_average(p).unwrap().1),
        };
        if keep_rest {
            if best_average(p) is Some {
                let b = best_average(p).unwrap();
                let i = choose|i: int| best_at(p, i, b.1) && p[i].preset == b.0;
                assert(s[i] == p[i]);
                assert(best_at(s, i, b.1));
            } else {
                assert forall|j: int| 0 <= j < s.len() implies (#[trigger] s[j]).average is None by {
                    if j < n {
                        assert(s[j] == p[j]);
                    }
                }
            }
        } else {
            let a = s.last().average.unwrap();
            assert forall|j: int| 0 <= j < s.len() && (#[trigger] s[j]).average is Some implies a
                <= s[j].average.unwrap() by {
                if j < n {
                    assert(s[j] == p[j]);
                    if best_average(p) is Some {
                        let b = best_average(p).unwrap();
                        let i = choose|i: int| best_at(p, i, b.1) && p[i].preset == b.0;
                        assert(best_at(p, i, b.1));
                    }
                }
            }
            assert forall|j: int| 0 <= j < n && (#[trigger] s[j]).average is Some implies a
                < s[j].average.unwrap() by {
                assert(s[j] == p[j]);
                if best_average(p) is Some {
                    let b = best_average(p).unwrap();
                    let i = choose|i: int| best_at(p, i, b.1) && p[i].preset == b.0;
                    assert(best_at(p, i, b.1));
                } else {
                    assert(p[j].average is None);
                }
            }
            assert(best_at(s, n, a));
        }
    }
}

// ---------------------------------------------------------------------------
// The report
// ---------------------------------------------------------------------------

/// Everything the benchmark found. Durations are in whole seconds.
#[derive(Debug, Clone)]
pub struct BenchmarkReport {
    pub summaries: Vec<PresetSummary>,
    pub target_core: u32,
    pub winner: Option<FftPreset>,
    pub total_duration: u64,
}

/// A line of the frame: `text` left-aligned in a 100-column box.
pub open spec fn framed(t: Seq<char>) -> Seq<char> {
    "║"@ + t + repeat_char(' ', if t.len() < 100 { (100 - t.len()) as nat } else { 0 }) + "║\n"@
}

/// A line of the frame with `text` centred (extra space on the right).
pub open spec fn centered(t: Seq<char>) -> Seq<char> {
    let left: nat = if t.len() < 100 { ((100 - t.len()) / 2) as nat } else { 0 };
    let right: nat = if t.len() + left < 100 { (100 - (t.len() + left)) as nat } else { 0 };
    "║"@ + repeat_char(' ', left) + t + repeat_char(' ', right) + "║\n"@
}

/// A horizontal rule of the frame between two corner characters.
pub open spec fn rule(l: char, r: char) -> Seq<char> {
    seq![l] + repeat_char('═', 100) + seq![r]
}

pub open spec fn time_or_dash(t: Option<u64>) -> Seq<char> {
    match t {
        Some(x) => report::duration_spec(x),
        None => "-"@,
    }
}

/// The table row of a preset at the given rank.
pub open spec fn row_text(rank: nat, s: PresetSummary) -> Seq<char> {
    let (lo, hi) = fft_range_spec(s.preset);
    " "@ + pad_left(decimal(rank), 4) + " | "@ + pad_right(preset_name_spec(s.preset), 10) + " | "@
        + pad_left(decimal(lo as nat), 4) + "K-"@ + pad_left(decimal(hi as nat), 5) + "K | "@
        + pad_left(decimal(error_times(s.results@).len()), 2) + "/"@
        + pad_right(decimal(s.results@.len()), 9) + " | "@ + pad_left(time_or_dash(s.fastest), 7)
        + " | "@ + pad_left(time_or_dash(s.average), 7) + " | "@ + pad_left(time_or_dash(s.slowest), 7)
}

/// The line listing a preset without errors.
pub open spec fn quiet_text(s: PresetSummary) -> Seq<char> {
    let (lo, hi) = fft_range_spec(s.preset);
    "  - "@ + pad_right(preset_name_spec(s.preset), 10) + " ("@ + decimal(lo as nat) + "K-"@ + decimal(
        hi as nat,
    ) + "K)"@
}

/// The key by which the table is ranked.
pub open spec fn avg_key(s: Seq<PresetSummary>, j: usize) -> u64 {
    match s[j as int].average {
        Some(a) => a,
        None => 0,
    }
}

/// The first position from `p` on whose key exceeds `k`: where a new
/// entry with key `k` goes so that equal keys keep their order.
pub open spec fn insert_at(s: Seq<PresetSummary>, sorted: Seq<usize>, k: u64, p: int) -> int
    decreases sorted.len() - p,
{
    if p < 0 || p >= sorted.len() {
        sorted.len() as int
    } else if avg_key(s, sorted[p]) > k {
        p
    } else {
        insert_at(s, sorted, k, p + 1)
    }
}

/// The indices of the first `n` summaries that have an average, stably
/// sorted by average.
pub open spec fn ranking(s: Seq<PresetSummary>, n: nat) -> Seq<usize>
    decreases n,
{
    if n == 0 {
        seq![]
    } else {
        let r = ranking(s, (n - 1) as nat);
        match s[n - 1].average {
            None => r,
            Some(k) => r.insert(insert_at(s, r, k, 0), (n - 1) as usize),
        }
    }
}

pub open spec fn rows_text(s: Seq<PresetSummary>, ranked: Seq<usize>) -> Seq<char>
    decreases ranked.len(),
{
    if ranked.len() == 0 {
        seq![]
    } else {
        rows_text(s, ranked.drop_last()) + framed(row_text(ranked.len(), s[ranked.last() as int]))
    }
}

pub open spec fn quiet_lines(s: Seq<PresetSummary>) -> Seq<char>
    decreases s.len(),
{
    if s.len() == 0 {
        seq![]
    } else {
        quiet_lines(s.drop_last()) + if s.last().average is None {
            framed(quiet_text(s.last()))
        } else {
            seq![]
        }
    }
}

pub open spec fn quiet_section(s: Seq<PresetSummary>) -> Seq<char> {
    if exists|j: int| 0 <= j < s.len() && (#[trigger] s[j]).average is None {
        framed(""@) + framed(" No errors detected:"@) + quiet_lines(s)
    } else {
        seq![]
    }
}

pub open spec fn header_text() -> Seq<char> {
    " Rank | Preset     | Range       | Errors Found | Fastest | Average | Slowest"@
}

pub open spec fn header_rule_text() -> Seq<char> {
    "──────┼────────────┼─────────────┼──────────────┼─────────┼─────────┼────────"@
}

pub open spec fn verdict_text(w: Option<FftPreset>) -> Seq<char> {
    match w {
        Some(p) => " Winner: "@ + preset_name_spec(p) + " (fastest average time-to-first-error)"@,
        None => " WARNING: No errors detected for any preset. Core 2 may be stable."@,
    }
}

/// The whole framed report.
pub open spec fn report_text(s: Seq<PresetSummary>, core: u32, w: Option<FftPreset>, total: u64) -> Seq<char> {
    rule('╔', '╗') + "\n"@ + centered("FFT Preset Benchmark Results — Core "@ + decimal(core as nat))
        + rule('╠', '╣') + "\n"@ + framed(header_text()) + framed(header_rule_text()) + rows_text(
        s,
        ranking(s, s.len()),
    ) + quiet_section(s) + rule('╠', '╣') + "\n"@ + framed(verdict_text(w)) + framed(
        " Total benchmark duration: "@ + report::duration_spec(total),
    ) + rule('╚', '╝')
}

fn push_framed(v: &mut Vec<char>, t: &[char])
    ensures
        final(v)@ == old(v)@ + framed(t@),
{
    let ghost start = v@;
    text::push_str(v, "║");
    text::push_chars(v, t);
    let pad: usize = if t.len() < 100 { 100 - t.len() } else { 0 };
    text::push_repeat(v, ' ', pad);
    text::push_str(v, "║\n");
    assert(v@ =~= start + framed(t@));
}

fn push_centered(v: &mut Vec<char>, t: &[char])
    ensures
        final(v)@ == old(v)@ + centered(t@),
{
    let ghost start = v@;
    let left: usize = if t.len() < 100 { (100 - t.len()) / 2 } else { 0 };
    let right: usize = if t.len() < 100 && t.len() + left < 100 { 100 - (t.len() + left) } else { 0 };
    text::push_str(v, "║");
    text::push_repeat(v, ' ', left);
    text::push_chars(v, t);
    text::push_repeat(v, ' ', right);
    text::push_str(v, "║\n");
    assert(v@ =~= start + centered(t@));
}

fn push_rule(v: &mut Vec<char>, l: char, r: char)
    ensures
        final(v)@ == old(v)@ + rule(l, r),
{
    let ghost start = v@;
    v.push(l);
    text::push_repeat(v, '═', 100);
    v.push(r);
    assert(v@ =~= start + rule(l, r));
}

fn push_time_or_dash(v: &mut Vec<char>, t: Option<u64>)
    ensures
        final(v)@ == old(v)@ + pad_left(time_or_dash(t), 7),
{
    let cell = match t {
        Some(x) => {
            let d = report::format_duration(x);
            text::chars_of(d.as_str())
        },
        None => text::lit("-"),
    };
    text::push_padded(v, &cell, ' ', 7);
}

fn push_decimal_left(v: &mut Vec<char>, n: u64, width: usize)
    ensures
        final(v)@ == old(v)@ + pad_left(decimal(n as nat), width as nat),
{
    let d = text::u64_decimal(n);
    text::push_padded(v, &d, ' ', width);
}

fn push_row(v: &mut Vec<char>, rank: usize, s: &PresetSummary)
    ensures
        final(v)@ == old(v)@ + framed(row_text(rank as nat, *s)),
{
    let (lo, hi) = s.preset.fft_range_kb();
    let mut errors: usize = 0;
    let mut i: usize = 0;
    while i < s.results.len()
        invariant
            i <= s.results.len(),
            errors == error_times(s.results@.take(i as int)).len(),
        decreases s.results.len() - i,
    {
        proof {
            lemma_error_times_prefix(s.results@, i as int);
            lemma_error_times_len(s.results@.take(i as int));
        }
        if s.results[i].time_to_error.is_some() {
            errors = errors + 1;
        }
        i = i + 1;
    }
    assert(s.results@.take(s.results@.len() as int) =~= s.results@);
    let mut line: Vec<char> = Vec::new();
    text::push_str(&mut line, " ");
    push_decimal_left(&mut line, rank as u64, 4);
    text::push_str(&mut line, " | ");
    let name = text::lit(s.preset.name());
    text::push_padded_right(&mut line, &name, 10);
    text::push_str(&mut line, " | ");
    push_decimal_left(&mut line, lo as u64, 4);
    text::push_str(&mut line, "K-");
    push_decimal_left(&mut line, hi as u64, 5);
    text::push_str(&mut line, "K | ");
    push_decimal_left(&mut line, errors as u64, 2);
    text::push_str(&mut line, "/");
    let total = text::u64_decimal(s.results.len() as u64);
    text::push_padded_right(&mut line, &total, 9);
    text::push_str(&mut line, " | ");
    push_time_or_dash(&mut line, s.fastest);
    text::push_str(&mut line, " | ");
    push_time_or_dash(&mut line, s.average);
    text::push_str(&mut line, " | ");
    push_time_or_dash(&mut line, s.slowest);
    assert(line@ =~= row_text(rank as nat, *s));
    push_framed(v, &line);
}

fn push_quiet(v: &mut Vec<char>, s: &PresetSummary)
    ensures
        final(v)@ == old(v)@ + framed(quiet_text(*s)),
{
    let (lo, hi) = s.preset.fft_range_kb();
    let mut line: Vec<char> = Vec::new();
    text::push_str(&mut line, "  - ");
    let name = text::lit(s.preset.name());
    text::push_padded_right(&mut line, &name, 10);
    text::push_str(&mut line, " (");
    text::push_u64(&mut line, lo as u64);
    text::push_str(&mut line, "K-");
    text::push_u64(&mut line, hi as u64);
    text::push_str(&mut line, "K)");
    assert(line@ =~= quiet_text(*s));
    push_framed(v, &line);
}

proof fn lemma_insert_at_bounds(s: Seq<PresetSummary>, sorted: Seq<usize>, k: u64, p: int)
    requires
        0 <= p <= sorted.len(),
    ensures
        p <= insert_at(s, sorted, k, p) <= sorted.len(),
        forall|q: int| p <= q < insert_at(s, sorted, k, p) ==> avg_key(s, #[trigger] sorted[q]) <= k,
        insert_at(s, sorted, k, p) < sorted.len() ==> avg_key(s, sorted[insert_at(s, sorted, k, p)]) > k,
    decreases sorted.len() - p,
{
    if p < sorted.len() && avg_key(s, sorted[p]) <= k {
        lemma_insert_at_bounds(s, sorted, k, p + 1);
    }
}

/// The indices of the summaries that have an average, stably sorted by it.
fn rank_summaries(s: &Vec<PresetSummary>) -> (r: Vec<usize>)
    ensures
        r@ == ranking(s@, s@.len()),
        forall|q: int| 0 <= q < r@.len() ==> (#[trigger] r@[q]) < s@.len(),
{
    let mut r: Vec<usize> = Vec::new();
    let mut j: usize = 0;
    while j < s.len()
        invariant
            j <= s.len(),
            r@ == ranking(s@, j as nat),
            r@.len() <= j,
            forall|q: int| 0 <= q < r@.len() ==> (#[trigger] r@[q]) < j,
        decreases s.len() - j,
    {
        match s[j].average {
            Some(k) => {
                let mut p: usize = 0;
                while p < r.len() && avg_key_exec(s, r[p]) <= k
                    invariant
                        j < s.len(),
                        p <= r.len(),
                        forall|q: int| 0 <= q < r@.len() ==> (#[trigger] r@[q]) < j,
                        insert_at(s@, r@, k, 0) == insert_at(s@, r@, k, p as int),
                    decreases r.len() - p,
                {
                    p = p + 1;
                }
                let ghost before = r@;
                r.insert(p, j);
                assert forall|q: int| 0 <= q < r@.len() implies (#[trigger] r@[q]) < j + 1 by {
                    if q < p {
                        assert(r@[q] == before[q]);
                    } else if q > p {
                        assert(r@[q] == before[q - 1]);
                    }
                }
            },
            None => {},
        }
        j = j + 1;
    }
    r
}

fn avg_key_exec(s: &Vec<PresetSummary>, j: usize) -> (k: u64)
    requires
        j < s@.len(),
    ensures
        k == avg_key(s@, j),
{
    match s[j].average {
        Some(a) => a,
        None => 0,
    }
}

/// The ranked rows are in order of average time to error.
pub proof fn lemma_ranking_sorted(s: Seq<PresetSummary>, n: nat)
    requires
        n <= s.len() <= usize::MAX,
    ensures
        forall|a: int, b: int|
            0 <= a < b < ranking(s, n).len() ==> avg_key(s, #[trigger] ranking(s, n)[a]) <= avg_key(
                s,
                #[trigger] ranking(s, n)[b],
            ),
        forall|q: int| 0 <= q < ranking(s, n).len() ==> (#[trigger] ranking(s, n)[q]) < n && s[ranking(s, n)[q] as int].average is Some,
    decreases n,
{
    if n > 0 {
        let r = ranking(s, (n - 1) as nat);
        lemma_ranking_sorted(s, (n - 1) as nat);
        if let Some(k) = s[n - 1].average {
            lemma_insert_at_bounds(s, r, k, 0);
            let p = insert_at(s, r, k, 0);
            let r2 = r.insert(p, (n - 1) as usize);
            assert(ranking(s, n) == r2);
            assert(avg_key(s, (n - 1) as usize) == k);
            assert forall|a: int, b: int| 0 <= a < b < r2.len() implies avg_key(s, #[trigger] r2[a])
                <= avg_key(s, #[trigger] r2[b]) by {
                if b < p {
                    assert(r2[a] == r[a] && r2[b] == r[b]);
                } else if b == p {
                    assert(r2[a] == r[a]);
                } else if a < p {
                    assert(r2[a] == r[a] && r2[b] == r[b - 1]);
                    if p < r.len() {
                        assert(avg_key(s, r[p]) > k);
                        if b - 1 > p {
                            assert(avg_key(s, r[p]) <= avg_key(s, r[b - 1]));
                        }
                    }
                } else if a == p {
                    assert(r2[b] == r[b - 1]);
                    assert(avg_key(s, r[p]) > k);
                    if b - 1 > p {
                        assert(avg_key(s, r[p]) <= avg_key(s, r[b - 1]));
                    }
                } else {
                    assert(r2[a] == r[a - 1] && r2[b] == r[b - 1]);
                }
            }
            assert forall|q: int| 0 <= q < r2.len() implies (#[trigger] r2[q]) < n && s[r2[q] as int].average is Some by {
                if q < p {
                    assert(r2[q] == r[q]);
                } else if q > p {
                    assert(r2[q] == r[q - 1]);
                }
            }
        }
    }
}

fn push_rows(v: &mut Vec<char>, s: &Vec<PresetSummary>)
    ensures
        final(v)@ == old(v)@ + rows_text(s@, ranking(s@, s@.len())),
{
    let ranked = rank_summaries(s);
    let ghost start = v@;
    let mut i: usize = 0;
    while i < ranked.len()
        invariant
            i <= ranked.len(),
            ranked@ == ranking(s@, s@.len()),
            forall|q: int| 0 <= q < ranked@.len() ==> (#[trigger] ranked@[q]) < s@.len(),
            v@ == start + rows_text(s@, ranked@.take(i as int)),
        decreases ranked.len() - i,
    {
        assert(ranked@.take(i + 1).drop_last() =~= ranked@.take(i as int));
        assert(ranked@[i as int] < s@.len());
        push_row(v, i + 1, &s[ranked[i]]);
        i = i + 1;
    }
    assert(ranked@.take(ranked@.len() as int) =~= ranked@);
}

fn push_quiet_section(v: &mut Vec<char>, s: &Vec<PresetSummary>)
    ensures
        final(v)@ == old(v)@ + quiet_section(s@),
{
    let ghost start = v@;
    let mut any = false;
    let mut i: usize = 0;
    while i < s.len()
        invariant
            i <= s.len(),
            any <==> exists|j: int| 0 <= j < i && (#[trigger] s@[j]).average is None,
        decreases s.len() - i,
    {
        if s[i].average.is_none() {
            any = true;
        }
        i = i + 1;
    }
    if any {
        let empty: Vec<char> = Vec::new();
        push_framed(v, &empty);
        let title = text::lit(" No errors detected:");
        push_framed(v, &title);
        let mut k: usize = 0;
        let ghost mid = v@;
        while k < s.len()
            invariant
                k <= s.len(),
                v@ == mid + quiet_lines(s@.take(k as int)),
            decreases s.len() - k,
        {
            assert(s@.take(k + 1).drop_last() =~= s@.take(k as int));
            if s[k].average.is_none() {
                push_quiet(v, &s[k]);
            }
            k = k + 1;
            assert(v@ =~= mid + quiet_lines(s@.take(k as int)));
        }
        assert(s@.take(s@.len() as int) =~= s@);
        assert(empty@ =~= ""@) by {
            reveal_strlit("");
        }
        assert(v@ =~= start + quiet_section(s@));
    }
}

impl BenchmarkReport {
    /// The framed, ranked table of the benchmark.
    pub fn render(&self) -> (out: String)
        ensures
            out@ == report_text(self.summaries@, self.target_core, self.winner, self.total_duration),
    {
        let mut v: Vec<char> = Vec::new();
        push_rule(&mut v, '╔', '╗');
        text::push_str(&mut v, "\n");
        let mut title = text::lit("FFT Preset Benchmark Results — Core ");
        text::push_u64(&mut title, self.target_core as u64);
        push_centered(&mut v, &title);
        push_rule(&mut v, '╠', '╣');
        text::push_str(&mut v, "\n");
        let header = text::lit(" Rank | Preset     | Range       | Errors Found | Fastest | Average | Slowest");
        push_framed(&mut v, &header);
        let header_rule = text::lit("──────┼────────────┼─────────────┼──────────────┼─────────┼─────────┼────────");
        push_framed(&mut v, &header_rule);
        push_rows(&mut v, &self.summaries);
        push_quiet_section(&mut v, &self.summaries);
        push_rule(&mut v, '╠', '╣');
        text::push_str(&mut v, "\n");
        let verdict = match self.winner {
            Some(p) => {
                let mut l = text::lit(" Winner: ");
                text::push_str(&mut l, p.name());
                text::push_str(&mut l, " (fastest average time-to-first-error)");
                l
            },
            None => text::lit(" WARNING: No errors detected for any preset. Core 2 may be stable."),
        };
        push_framed(&mut v, &verdict);
        let mut total = text::lit(" Total benchmark duration: ");
        let d = report::format_duration(self.total_duration);
        text::push_str(&mut total, d.as_str());
        push_framed(&mut v, &total);
        push_rule(&mut v, '╚', '╝');
        assert(v@ =~= report_text(self.summaries@, self.target_core, self.winner, self.total_duration));
        text::string_from_chars(&v)
    }
}

// ---------------------------------------------------------------------------
// The run
// ---------------------------------------------------------------------------

/// The physical core the benchmark runs on.
pub const TARGET_CORE: u32 = 2;
/// Runs per preset.
pub const ITERATIONS_PER_PRESET: u32 = 3;
/// Seconds between checks for a shutdown and for mprime's liveness.
pub const SHUTDOWN_POLL_INTERVAL: u64 = 1;
/// Seconds between reads of results.txt.
pub const ERROR_POLL_INTERVAL: u64 = 5;
/// Seconds to wait after starting mprime before pinning its threads.
pub const INITIAL_PIN_DELAY: u64 = 3;
/// Seconds after which a run without an error counts as timed out.
pub const BENCHMARK_TIMEOUT: u64 = 180;
/// Number of FFT presets.
pub const PRESET_COUNT: usize = 7;

pub open spec fn key_list(ids: Seq<u32>) -> Seq<Seq<char>> {
    ids.map_values(|i: u32| decimal(i as nat))
}

/// The message when the topology lacks the target core.
pub open spec fn missing_target_message(cores: Set<u32>) -> Seq<char> {
    "benchmark target core 2 is not present in topology; available cores: "@ + text::join_sep(
        key_list(cpu_topology::sorted_seq_of(cores)),
        ","@,
    )
}

/// Checks that the topology has the target core, and gives its first
/// logical CPU (where it lists any).
pub fn check_benchmark_target(topology: &CpuTopology) -> (r: Result<Option<u32>, String>)
    ensures
        match r {
            Ok(cpu) => topology.core_map@.contains_key(TARGET_CORE) && cpu == (if topology.core_map@[TARGET_CORE]@.len() > 0 {
                Some(topology.core_map@[TARGET_CORE]@[0])
            } else {
                None
            }),
            Err(m) => !topology.core_map@.contains_key(TARGET_CORE) && m@ == missing_target_message(
                topology.core_map@.dom(),
            ),
        },
{
    broadcast use vstd::std_specs::btree::group_btree_axioms;
    match topology.core_map.get(&TARGET_CORE) {
        Some(cpus) => {
            if cpus.len() > 0 {
                Ok(Some(cpus[0]))
            } else {
                Ok(None)
            }
        },
        None => {
            let keys = cpu_topology::sorted_keys(&topology.core_map);
            let mut parts: Vec<Vec<char>> = Vec::new();
            let mut i: usize = 0;
            while i < keys.len()
                invariant
                    i <= keys.len(),
                    text::pieces(parts@) == key_list(keys@.take(i as int)),
                decreases keys.len() - i,
            {
                let d = text::u64_decimal(keys[i] as u64);
                proof {
                    text::lemma_pieces_push(parts@, d);
                }
                parts.push(d);
                i += 1;
                assert(key_list(keys@.take(i as int)) =~= key_list(keys@.take(i - 1)).push(
                    decimal(keys@[i - 1] as nat),
                ));
            }
            assert(keys@.take(keys.len() as int) =~= keys@);
            let joined = text::join_pieces(&parts, ",");
            let mut m = text::lit("benchmark target core 2 is not present in topology; available cores: ");
            text::push_chars(&mut m, &joined);
            Err(text::string_from_chars(&m))
        },
    }
}

/// The working directory of a run, relative to the extraction directory.
pub open spec fn iteration_dir_spec(preset: FftPreset, iteration: u32) -> Seq<char> {
    "benchmark/preset-"@ + text::ascii_lower_seq(preset_name_spec(preset)) + "/iter-"@ + decimal(iteration as nat)
}

/// The working directory of a run: `benchmark/preset-<name>/iter-<n>`.
pub fn iteration_dir(preset: FftPreset, iteration: u32) -> (d: String)
    ensures
        d@ == iteration_dir_spec(preset, iteration),
{
    let name = text::lit(preset.name());
    let lower = text::to_ascii_lowercase(&name);
    let mut v = text::lit("benchmark/preset-");
    text::push_chars(&mut v, &lower);
    text::push_str(&mut v, "/iter-");
    text::push_u64(&mut v, iteration as u64);
    text::string_from_chars(&v)
}

/// The summary of a preset as plain values.
pub struct SummaryView {
    pub preset: FftPreset,
    pub results: Seq<BenchmarkResult>,
    pub fastest: Option<u64>,
    pub average: Option<u64>,
    pub slowest: Option<u64>,
    pub error_count: nat,
}

pub open spec fn summary_view(p: PresetSummary) -> SummaryView {
    SummaryView {
        preset: p.preset,
        results: p.results@,
        fastest: p.fastest,
        average: p.average,
        slowest: p.slowest,
        error_count: p.error_count as nat,
    }
}

/// What `summarize_preset` makes of a preset's runs.
pub open spec fn summary_spec(preset: FftPreset, rs: Seq<BenchmarkResult>) -> SummaryView {
    let (f, a, s) = timing_stats(rs);
    SummaryView { preset, results: rs, fastest: f, average: a, slowest: s, error_count: error_times(rs).len() }
}

pub open spec fn summary_views(s: Seq<PresetSummary>) -> Seq<SummaryView> {
    s.map_values(|p: PresetSummary| summary_view(p))
}

/// Why mprime is being stopped, and so what comes after.
#[derive(Debug, Clone, Copy, PartialEq, Eq, Structural)]
pub enum StopReason {
    /// A shutdown was requested before a run: finish.
    BeforeRun,
    /// mprime could not be started: go on with the next preset.
    SkipPreset,
    /// A shutdown was requested during a run: keep the run and finish.
    DuringRun,
    /// The run found an error.
    AfterError,
    /// The run timed out.
    AfterTimeout,
}

/// Where the benchmark stands.
#[derive(Debug, Clone, Copy, PartialEq, Eq, Structural)]
pub enum BenchPhase {
    /// Ask whether a shutdown was requested before the next run.
    AskBeforeRun,
    /// Start mprime for the run.
    Start,
    /// Wait for mprime's threads to appear.
    InitialSleep,
    /// Pin mprime's threads to the target's logical CPU.
    InitialPin,
    /// Top of the polling loop: ask about a shutdown.
    AskShutdown,
    /// Read results.txt for an error.
    Poll,
    /// Ask whether mprime still runs.
    AskRunning,
    /// Sleep one poll interval.
    Tick,
    /// mprime exited: read results.txt once more.
    ExitRead,
    /// Stop mprime, then go on as the reason says.
    StopThen(StopReason),
    /// The target core has no logical CPU: give up.
    Aborted,
    /// All done.
    Finished,
}

/// What the caller is asked to do.
#[derive(Debug, Clone, Copy, PartialEq, Eq, Structural)]
pub enum BenchAction {
    /// Report whether a shutdown was requested.
    CheckShutdown,
    /// Create the run's working directory (a failure ends the benchmark
    /// with an error) and start mprime there with the preset.
    StartRunner { preset: FftPreset, iteration: u32 },
    /// Sleep this many seconds.
    Sleep(u64),
    /// Pin mprime's threads to this logical CPU (a failure is ignored).
    PinThreads(u32),
    /// Parse the new lines of the run's results.txt and report the first
    /// error, if any (a failure to parse ends the benchmark).
    ReadResults,
    /// Report whether mprime still runs (a failure ends the benchmark).
    CheckRunning,
    /// Stop mprime; when `must_succeed`, a failure ends the benchmark.
    StopRunner { must_succeed: bool },
    /// The target core has no logical CPU: end with an error.
    Abort,
    /// Take the report.
    Finish,
}

/// What the caller reports back.
#[derive(Debug, Clone, Copy, PartialEq, Eq, Structural)]
pub enum BenchEvent {
    /// The action was done.
    Done,
    /// mprime could not be started.
    Failed,
    /// The answer to `CheckShutdown` or `CheckRunning`.
    Answer(bool),
    /// `ReadResults` found an error first: its kind and FFT size.
    FoundError(MprimeErrorType, Option<u32>),
    /// `ReadResults` found no error.
    NoError,
}

/// The benchmark in progress.
pub struct BenchmarkRun {
    summaries: Vec<PresetSummary>,
    preset_index: usize,
    iteration: u32,
    results: Vec<BenchmarkResult>,
    current: BenchmarkResult,
    elapsed: u64,
    next_poll: u64,
    logical_cpu: Option<u32>,
    phase: BenchPhase,
}

/// The benchmark's state as plain values.
pub struct RunView {
    pub summaries: Seq<SummaryView>,
    pub preset_index: nat,
    pub iteration: u32,
    pub results: Seq<BenchmarkResult>,
    pub current: BenchmarkResult,
    pub elapsed: u64,
    pub next_poll: u64,
    pub logical_cpu: Option<u32>,
    pub phase: BenchPhase,
}

impl BenchmarkRun {
    pub closed spec fn view(&self) -> RunView {
        RunView {
            summaries: summary_views(self.summaries@),
            preset_index: self.preset_index as nat,
            iteration: self.iteration,
            results: self.results@,
            current: self.current,
            elapsed: self.elapsed,
            next_poll: self.next_poll,
            logical_cpu: self.logical_cpu,
            phase: self.phase,
        }
    }
}

pub open spec fn preset_at(i: nat) -> FftPreset {
    all_presets_spec()[i as int]
}

pub open spec fn fresh_result(preset: FftPreset, iteration: u32) -> BenchmarkResult {
    BenchmarkResult { preset, iteration, time_to_error: None, error_type: None, fft_size: None, timed_out: false }
}

/// A run's time lies within the limit, and a timed-out run has no error.
pub open spec fn result_ok(r: BenchmarkResult) -> bool {
    &&& (r.time_to_error matches Some(t) ==> t <= BENCHMARK_TIMEOUT)
    &&& (r.timed_out ==> r.time_to_error is None)
}

/// The summary of the `k`-th preset: its own runs, at most three, numbered
/// from 1.
pub open spec fn summary_ok(s: SummaryView, k: nat) -> bool {
    &&& s == summary_spec(preset_at(k), s.results)
    &&& s.results.len() <= ITERATIONS_PER_PRESET
    &&& forall|j: int| 0 <= j < s.results.len() ==> result_ok(#[trigger] s.results[j]) && s.results[j].preset == preset_at(k)
        && s.results[j].iteration == j + 1
}

/// The phases inside a run's polling loop.
pub open spec fn in_loop(p: BenchPhase) -> bool {
    p is AskShutdown || p is Poll || p is AskRunning || p is Tick || p is ExitRead
}

/// The part of the invariant that holds between the steps of a
/// transition: presets are summarised in their canonical order, each with
/// at most three numbered runs within the time limit; the clock stays
/// within the limit.
pub open spec fn run_core(v: RunView) -> bool {
    &&& v.preset_index <= PRESET_COUNT
    &&& v.summaries.len() == v.preset_index
    &&& forall|k: int| 0 <= k < v.summaries.len() ==> summary_ok(#[trigger] v.summaries[k], k as nat)
    &&& !(v.phase is Finished) ==> v.preset_index < PRESET_COUNT
    &&& !(v.phase is Finished) ==> 1 <= v.iteration <= ITERATIONS_PER_PRESET && v.results.len() + 1 == v.iteration
    &&& !(v.phase is Finished) ==> v.current.preset == preset_at(v.preset_index) && v.current.iteration == v.iteration
    &&& forall|j: int| 0 <= j < v.results.len() ==> result_ok(#[trigger] v.results[j]) && v.results[j].preset
        == preset_at(v.preset_index) && v.results[j].iteration == j + 1
    &&& result_ok(v.current)
    &&& v.elapsed <= BENCHMARK_TIMEOUT
    &&& v.next_poll <= v.elapsed + ERROR_POLL_INTERVAL
}

/// The invariant of the benchmark: the core invariant; inside the polling
/// loop the clock is below the limit, and until the run ends it has no
/// result yet.
pub open spec fn run_wf(v: RunView) -> bool {
    &&& run_core(v)
    &&& in_loop(v.phase) ==> v.elapsed < BENCHMARK_TIMEOUT
    &&& (in_loop(v.phase) || v.phase is AskBeforeRun || v.phase is Start || v.phase is InitialSleep
        || v.phase is InitialPin) ==> v.current.time_to_error is None && !v.current.timed_out
    &&& (v.phase is Poll ==> v.elapsed >= v.next_poll)
    &&& (v.phase is InitialSleep || v.phase is InitialPin ==> v.logical_cpu is Some)
}

/// The state at the start: the first run of the first preset, before the
/// shutdown check.
pub open spec fn initial_run(logical_cpu: Option<u32>) -> RunView {
    RunView {
        summaries: seq![],
        preset_index: 0,
        iteration: 1,
        results: seq![],
        current: fresh_result(preset_at(0), 1),
        elapsed: 0,
        next_poll: 0,
        logical_cpu,
        phase: BenchPhase::AskBeforeRun,
    }
}

/// Before a run: finish when all presets are done, else ask about a
/// shutdown.
pub open spec fn begin_iteration(v: RunView) -> RunView {
    if v.preset_index >= PRESET_COUNT {
        RunView { phase: BenchPhase::Finished, ..v }
    } else {
        RunView {
            current: fresh_result(preset_at(v.preset_index), v.iteration),
            phase: BenchPhase::AskBeforeRun,
            ..v
        }
    }
}

/// Summarises the current preset's runs and moves to the next preset.
pub open spec fn close_preset(v: RunView) -> RunView {
    RunView {
        summaries: v.summaries.push(summary_spec(preset_at(v.preset_index), v.results)),
        preset_index: v.preset_index + 1,
        iteration: 1,
        results: seq![],
        ..v
    }
}

/// After a run: keep it, then go to the next run or the next preset.
pub open spec fn end_iteration(v: RunView) -> RunView {
    let w = RunView { results: v.results.push(v.current), ..v };
    if w.iteration >= ITERATIONS_PER_PRESET {
        begin_iteration(close_preset(w))
    } else {
        begin_iteration(RunView { iteration: (w.iteration + 1) as u32, ..w })
    }
}

/// Top of the polling loop: at the time limit a run without error times
/// out, else ask about a shutdown.
pub open spec fn loop_top(v: RunView) -> RunView {
    if v.elapsed >= BENCHMARK_TIMEOUT {
        if v.current.time_to_error is None {
            RunView {
                current: BenchmarkResult { timed_out: true, ..v.current },
                phase: BenchPhase::StopThen(StopReason::AfterTimeout),
                ..v
            }
        } else {
            end_iteration(v)
        }
    } else {
        RunView { phase: BenchPhase::AskShutdown, ..v }
    }
}

/// The current run with the first error found at the current time.
pub open spec fn with_error(v: RunView, t: MprimeErrorType, fft: Option<u32>) -> BenchmarkResult {
    BenchmarkResult { time_to_error: Some(v.elapsed), error_type: Some(t), fft_size: fft, ..v.current }
}

/// One transition of the benchmark on an event. An event of the wrong kind
/// for the phase changes nothing.
pub open spec fn run_step(v: RunView, e: BenchEvent) -> RunView {
    match (v.phase, e) {
        (BenchPhase::AskBeforeRun, BenchEvent::Answer(true)) => RunView {
            phase: BenchPhase::StopThen(StopReason::BeforeRun),
            ..v
        },
        (BenchPhase::AskBeforeRun, BenchEvent::Answer(false)) => RunView { phase: BenchPhase::Start, ..v },
        (BenchPhase::Start, BenchEvent::Done) => if v.logical_cpu is Some {
            RunView { phase: BenchPhase::InitialSleep, ..v }
        } else {
            RunView { phase: BenchPhase::Aborted, ..v }
        },
        (BenchPhase::Start, BenchEvent::Failed) => RunView {
            phase: BenchPhase::StopThen(StopReason::SkipPreset),
            ..v
        },
        (BenchPhase::InitialSleep, BenchEvent::Done) => RunView { phase: BenchPhase::InitialPin, ..v },
        (BenchPhase::InitialPin, BenchEvent::Done) => loop_top(
            RunView { elapsed: INITIAL_PIN_DELAY, next_poll: ERROR_POLL_INTERVAL, ..v },
        ),
        (BenchPhase::AskShutdown, BenchEvent::Answer(true)) => RunView {
            phase: BenchPhase::StopThen(StopReason::DuringRun),
            ..v
        },
        (BenchPhase::AskShutdown, BenchEvent::Answer(false)) => if v.elapsed >= v.next_poll {
            RunView { phase: BenchPhase::Poll, ..v }
        } else {
            RunView { phase: BenchPhase::AskRunning, ..v }
        },
        (BenchPhase::Poll, BenchEvent::FoundError(t, fft)) => RunView {
            current: with_error(v, t, fft),
            phase: BenchPhase::StopThen(StopReason::AfterError),
            ..v
        },
        (BenchPhase::Poll, BenchEvent::NoError) => RunView {
            next_poll: (v.next_poll + ERROR_POLL_INTERVAL) as u64,
            phase: BenchPhase::AskRunning,
            ..v
        },
        (BenchPhase::AskRunning, BenchEvent::Answer(true)) => RunView { phase: BenchPhase::Tick, ..v },
        (BenchPhase::AskRunning, BenchEvent::Answer(false)) => RunView { phase: BenchPhase::ExitRead, ..v },
        (BenchPhase::Tick, BenchEvent::Done) => loop_top(
            RunView { elapsed: (v.elapsed + SHUTDOWN_POLL_INTERVAL) as u64, ..v },
        ),
        (BenchPhase::ExitRead, BenchEvent::FoundError(t, fft)) => end_iteration(
            RunView { current: with_error(v, t, fft), ..v },
        ),
        (BenchPhase::ExitRead, BenchEvent::NoError) => end_iteration(
            RunView { current: with_error(v, MprimeErrorType::Unknown, None), ..v },
        ),
        (BenchPhase::StopThen(StopReason::BeforeRun), BenchEvent::Done) => RunView {
            phase: BenchPhase::Finished,
            ..close_preset(v)
        },
        (BenchPhase::StopThen(StopReason::SkipPreset), BenchEvent::Done) => begin_iteration(close_preset(v)),
        (BenchPhase::StopThen(StopReason::DuringRun), BenchEvent::Done) => RunView {
            phase: BenchPhase::Finished,
            ..close_preset(RunView { results: v.results.push(v.current), ..v })
        },
        (BenchPhase::StopThen(StopReason::AfterError), BenchEvent::Done) => end_iteration(v),
        (BenchPhase::StopThen(StopReason::AfterTimeout), BenchEvent::Done) => end_iteration(v),
        _ => v,
    }
}

/// The action a phase asks for.
pub open spec fn run_action(v: RunView) -> BenchAction {
    match v.phase {
        BenchPhase::AskBeforeRun => BenchAction::CheckShutdown,
        BenchPhase::Start => BenchAction::StartRunner { preset: preset_at(v.preset_index), iteration: v.iteration },
        BenchPhase::InitialSleep => BenchAction::Sleep(INITIAL_PIN_DELAY),
        BenchPhase::InitialPin => BenchAction::PinThreads(v.logical_cpu.unwrap()),
        BenchPhase::AskShutdown => BenchAction::CheckShutdown,
        BenchPhase::Poll => BenchAction::ReadResults,
        BenchPhase::AskRunning => BenchAction::CheckRunning,
        BenchPhase::Tick => BenchAction::Sleep(SHUTDOWN_POLL_INTERVAL),
        BenchPhase::ExitRead => BenchAction::ReadResults,
        BenchPhase::StopThen(r) => BenchAction::StopRunner {
            must_succeed: !(r == StopReason::BeforeRun || r == StopReason::SkipPreset),
        },
        BenchPhase::Aborted => BenchAction::Abort,
        BenchPhase::Finished => BenchAction::Finish,
    }
}

proof fn lemma_sum_bound(rs: Seq<BenchmarkResult>)
    requires
        forall|j: int| 0 <= j < rs.len() ==> result_ok(#[trigger] rs[j]),
    ensures
        seq_sum(error_times(rs)) <= BENCHMARK_TIMEOUT * rs.len(),
    decreases rs.len(),
{
    if rs.len() > 0 {
        let p = rs.drop_last();
        assert forall|j: int| 0 <= j < p.len() implies result_ok(#[trigger] p[j]) by {
            assert(p[j] == rs[j]);
        }
        lemma_sum_bound(p);
        let t = error_times(p);
        assert(result_ok(rs[rs.len() - 1]));
        if let Some(x) = rs.last().time_to_error {
            assert(t.push(x).drop_last() =~= t);
        }
    }
}

proof fn lemma_close_preset_wf(v: RunView)
    requires
        v.preset_index < PRESET_COUNT,
        v.summaries.len() == v.preset_index,
        forall|k: int| 0 <= k < v.summaries.len() ==> summary_ok(#[trigger] v.summaries[k], k as nat),
        v.results.len() <= ITERATIONS_PER_PRESET,
        forall|j: int| 0 <= j < v.results.len() ==> result_ok(#[trigger] v.results[j]) && v.results[j].preset
            == preset_at(v.preset_index) && v.results[j].iteration == j + 1,
    ensures
        ({
            let w = close_preset(v);
            &&& w.summaries.len() == w.preset_index
            &&& forall|k: int| 0 <= k < w.summaries.len() ==> summary_ok(#[trigger] w.summaries[k], k as nat)
        }),
{
    let w = close_preset(v);
    assert forall|k: int| 0 <= k < w.summaries.len() implies summary_ok(#[trigger] w.summaries[k], k as nat) by {
        if k < v.summaries.len() {
            assert(w.summaries[k] == v.summaries[k]);
        } else {
            assert(w.summaries[k] == summary_spec(preset_at(v.preset_index), v.results));
        }
    }
}

proof fn lemma_push_current_ok(v: RunView, c: BenchmarkResult)
    requires
        run_core(v),
        !(v.phase is Finished),
        result_ok(c),
        c.preset == v.current.preset,
        c.iteration == v.current.iteration,
    ensures
        ({
            let rp = v.results.push(c);
            forall|j: int| 0 <= j < rp.len() ==> result_ok(#[trigger] rp[j]) && rp[j].preset == preset_at(
                v.preset_index,
            ) && rp[j].iteration == j + 1
        }),
        run_core(end_iteration(RunView { current: c, ..v })),
        run_core(RunView { phase: BenchPhase::Finished, ..close_preset(RunView { results: v.results.push(c), ..v }) }),
{
    let rp = v.results.push(c);
    assert forall|j: int| 0 <= j < rp.len() implies result_ok(#[trigger] rp[j]) && rp[j].preset == preset_at(
        v.preset_index,
    ) && rp[j].iteration == j + 1 by {
        if j < v.results.len() {
            assert(rp[j] == v.results[j]);
        }
    }
    lemma_close_preset_wf(RunView { results: rp, ..v });
}

/// Every step keeps the benchmark's invariant.
pub proof fn lemma_step_keeps_wf(v: RunView, e: BenchEvent)
    requires
        run_wf(v),
    ensures
        run_wf(run_step(v, e)),
{
    if !(v.phase is Finished) {
        match (v.phase, e) {
            (BenchPhase::InitialPin, BenchEvent::Done) => {
                let u = RunView { elapsed: INITIAL_PIN_DELAY, next_poll: ERROR_POLL_INTERVAL, ..v };
                lemma_push_current_ok(u, u.current);
            },
            (BenchPhase::Tick, BenchEvent::Done) => {
                let u = RunView { elapsed: (v.elapsed + SHUTDOWN_POLL_INTERVAL) as u64, ..v };
                lemma_push_current_ok(u, u.current);
            },
            (BenchPhase::ExitRead, BenchEvent::FoundError(t, fft)) => {
                lemma_push_current_ok(v, with_error(v, t, fft));
            },
            (BenchPhase::ExitRead, BenchEvent::NoError) => {
                lemma_push_current_ok(v, with_error(v, MprimeErrorType::Unknown, None));
            },
            (BenchPhase::StopThen(StopReason::BeforeRun), BenchEvent::Done) => {
                lemma_close_preset_wf(v);
            },
            (BenchPhase::StopThen(StopReason::SkipPreset), BenchEvent::Done) => {
                lemma_close_preset_wf(v);
            },
            (BenchPhase::StopThen(_), BenchEvent::Done) => {
                lemma_push_current_ok(v, v.current);
            },
            _ => {},
        }
    }
}

impl BenchmarkRun {
    /// The benchmark at its start; `logical_cpu` is the target core's
    /// first logical CPU, if the topology lists one.
    pub fn new(logical_cpu: Option<u32>) -> (r: BenchmarkRun)
        ensures
            r@ == initial_run(logical_cpu),
            run_wf(r@),
    {
        let r = BenchmarkRun {
            summaries: Vec::new(),
            preset_index: 0,
            iteration: 1,
            results: Vec::new(),
            current: BenchmarkResult {
                preset: FftPreset::Smallest,
                iteration: 1,
                time_to_error: None,
                error_type: None,
                fft_size: None,
                timed_out: false,
            },
            elapsed: 0,
            next_poll: 0,
            logical_cpu,
            phase: BenchPhase::AskBeforeRun,
        };
        assert(r@.summaries =~= Seq::<SummaryView>::empty());
        assert(r@ == initial_run(logical_cpu));
        r
    }

    /// What the caller is to do now.
    pub fn action(&self) -> (a: BenchAction)
        requires
            run_wf(self@),
        ensures
            a == run_action(self@),
    {
        match self.phase {
            BenchPhase::AskBeforeRun => BenchAction::CheckShutdown,
            BenchPhase::Start => BenchAction::StartRunner {
                preset: preset_at_exec(self.preset_index),
                iteration: self.iteration,
            },
            BenchPhase::InitialSleep => BenchAction::Sleep(INITIAL_PIN_DELAY),
            BenchPhase::InitialPin => BenchAction::PinThreads(self.logical_cpu.unwrap()),
            BenchPhase::AskShutdown => BenchAction::CheckShutdown,
            BenchPhase::Poll => BenchAction::ReadResults,
            BenchPhase::AskRunning => BenchAction::CheckRunning,
            BenchPhase::Tick => BenchAction::Sleep(SHUTDOWN_POLL_INTERVAL),
            BenchPhase::ExitRead => BenchAction::ReadResults,
            BenchPhase::StopThen(r) => BenchAction::StopRunner {
                must_succeed: !(r == StopReason::BeforeRun || r == StopReason::SkipPreset),
            },
            BenchPhase::Aborted => BenchAction::Abort,
            BenchPhase::Finished => BenchAction::Finish,
        }
    }

    fn go_begin_iteration(&mut self)
        requires
            old(self).preset_index <= PRESET_COUNT,
        ensures
            final(self)@ == begin_iteration(old(self)@),
    {
        if self.preset_index >= PRESET_COUNT {
            self.phase = BenchPhase::Finished;
        } else {
            self.current = BenchmarkResult {
                preset: preset_at_exec(self.preset_index),
                iteration: self.iteration,
                time_to_error: None,
                error_type: None,
                fft_size: None,
                timed_out: false,
            };
            self.phase = BenchPhase::AskBeforeRun;
        }
    }

    fn go_close_preset(&mut self)
        requires
            old(self).preset_index < PRESET_COUNT,
            old(self).results@.len() <= ITERATIONS_PER_PRESET,
            forall|j: int| 0 <= j < old(self).results@.len() ==> result_ok(#[trigger] old(self).results@[j]),
        ensures
            final(self)@ == close_preset(old(self)@),
    {
        let ghost before = self@;
        proof {
            lemma_sum_bound(self.results@);
        }
        let mut rs: Vec<BenchmarkResult> = Vec::new();
        std::mem::swap(&mut rs, &mut self.results);
        let preset = preset_at_exec(self.preset_index);
        let summary = summarize_preset(preset, rs);
        let ghost old_summaries = self.summaries@;
        self.summaries.push(summary);
        self.preset_index = self.preset_index + 1;
        self.iteration = 1;
        assert(summary_views(self.summaries@) =~= summary_views(old_summaries).push(summary_view(summary)));
        assert(self.results@ =~= Seq::<BenchmarkResult>::empty());
        assert(self@ == close_preset(before));
    }

    fn go_end_iteration(&mut self)
        requires
            run_core(old(self)@),
            !(old(self)@.phase is Finished),
            result_ok(old(self).current),
        ensures
            final(self)@ == end_iteration(old(self)@),
    {
        let ghost before = self@;
        self.results.push(self.current);
        let ghost w = RunView { results: before.results.push(before.current), ..before };
        assert(self@ == w);
        assert forall|j: int| 0 <= j < self.results@.len() implies result_ok(#[trigger] self.results@[j]) by {
            if j < before.results.len() {
                assert(self.results@[j] == before.results[j]);
            }
        }
        if self.iteration >= ITERATIONS_PER_PRESET {
            self.go_close_preset();
            self.go_begin_iteration();
        } else {
            self.iteration = self.iteration + 1;
            self.go_begin_iteration();
        }
    }

    fn go_loop_top(&mut self)
        requires
            run_core(old(self)@),
            !(old(self)@.phase is Finished),
        ensures
            final(self)@ == loop_top(old(self)@),
    {
        if self.elapsed >= BENCHMARK_TIMEOUT {
            if self.current.time_to_error.is_none() {
                self.current.timed_out = true;
                self.phase = BenchPhase::StopThen(StopReason::AfterTimeout);
            } else {
                self.go_end_iteration();
            }
        } else {
            self.phase = BenchPhase::AskShutdown;
        }
    }

    fn record_error(&mut self, t: MprimeErrorType, fft: Option<u32>)
        ensures
            final(self)@ == (RunView { current: with_error(old(self)@, t, fft), ..old(self)@ }),
    {
        self.current.time_to_error = Some(self.elapsed);
        self.current.error_type = Some(t);
        self.current.fft_size = fft;
    }

    /// Moves the benchmark on by one event.
    pub fn step(&mut self, event: BenchEvent)
        requires
            run_wf(old(self)@),
        ensures
            final(self)@ == run_step(old(self)@, event),
            run_wf(final(self)@),
    {
        proof {
            lemma_step_keeps_wf(self@, event);
        }
        let ghost v = self@;
        match (self.phase, event) {
            (BenchPhase::AskBeforeRun, BenchEvent::Answer(requested)) => {
                if requested {
                    self.phase = BenchPhase::StopThen(StopReason::BeforeRun);
                } else {
                    self.phase = BenchPhase::Start;
                }
            },
            (BenchPhase::Start, BenchEvent::Done) => {
                if self.logical_cpu.is_some() {
                    self.phase = BenchPhase::InitialSleep;
                } else {
                    self.phase = BenchPhase::Aborted;
                }
            },
            (BenchPhase::Start, BenchEvent::Failed) => {
                self.phase = BenchPhase::StopThen(StopReason::SkipPreset);
            },
            (BenchPhase::InitialSleep, BenchEvent::Done) => {
                self.phase = BenchPhase::InitialPin;
            },
            (BenchPhase::InitialPin, BenchEvent::Done) => {
                self.elapsed = INITIAL_PIN_DELAY;
                self.next_poll = ERROR_POLL_INTERVAL;
                self.go_loop_top();
            },
            (BenchPhase::AskShutdown, BenchEvent::Answer(requested)) => {
                if requested {
                    self.phase = BenchPhase::StopThen(StopReason::DuringRun);
                } else if self.elapsed >= self.next_poll {
                    self.phase = BenchPhase::Poll;
                } else {
                    self.phase = BenchPhase::AskRunning;
                }
            },
            (BenchPhase::Poll, BenchEvent::FoundError(t, fft)) => {
                self.record_error(t, fft);
                self.phase = BenchPhase::StopThen(StopReason::AfterError);
            },
            (BenchPhase::Poll, BenchEvent::NoError) => {
                self.next_poll = self.next_poll + ERROR_POLL_INTERVAL;
                self.phase = BenchPhase::AskRunning;
            },
            (BenchPhase::AskRunning, BenchEvent::Answer(running)) => {
                if running {
                    self.phase = BenchPhase::Tick;
                } else {
                    self.phase = BenchPhase::ExitRead;
                }
            },
            (BenchPhase::Tick, BenchEvent::Done) => {
                self.elapsed = self.elapsed + SHUTDOWN_POLL_INTERVAL;
                self.go_loop_top();
            },
            (BenchPhase::ExitRead, BenchEvent::FoundError(t, fft)) => {
                self.record_error(t, fft);
                self.go_end_iteration();
            },
            (BenchPhase::ExitRead, BenchEvent::NoError) => {
                self.record_error(MprimeErrorType::Unknown, None);
                self.go_end_iteration();
            },
            (BenchPhase::StopThen(StopReason::BeforeRun), BenchEvent::Done) => {
                self.go_close_preset();
                self.phase = BenchPhase::Finished;
            },
            (BenchPhase::StopThen(StopReason::SkipPreset), BenchEvent::Done) => {
                self.go_close_preset();
                self.go_begin_iteration();
            },
            (BenchPhase::StopThen(StopReason::DuringRun), BenchEvent::Done) => {
                self.results.push(self.current);
                proof {
                    assert forall|j: int| 0 <= j < self.results@.len() implies result_ok(
                        #[trigger] self.results@[j],
                    ) by {
                        if j < v.results.len() {
                            assert(self.results@[j] == v.results[j]);
                        }
                    }
                }
                self.go_close_preset();
                self.phase = BenchPhase::Finished;
            },
            (BenchPhase::StopThen(StopReason::AfterError), BenchEvent::Done) => {
                self.go_end_iteration();
            },
            (BenchPhase::StopThen(StopReason::AfterTimeout), BenchEvent::Done) => {
                self.go_end_iteration();
            },
            _ => {},
        }
    }

    /// The report of a finished benchmark, with its total duration.
    pub fn into_report(self, total_duration: u64) -> (r: BenchmarkReport)
        ensures
            summary_views(r.summaries@) == self@.summaries,
            r.target_core == TARGET_CORE,
            r.winner == winner_spec(r.summaries@),
            r.total_duration == total_duration,
    {
        let winner = select_winner(self.summaries.as_slice());
        BenchmarkReport { summaries: self.summaries, target_core: TARGET_CORE, winner, total_duration }
    }
}

fn preset_at_exec(i: usize) -> (p: FftPreset)
    requires
        i < PRESET_COUNT,
    ensures
        p == preset_at(i as nat),
{
    match i {
        0 => FftPreset::Smallest,
        1 => FftPreset::Small,
        2 => FftPreset::Large,
        3 => FftPreset::Huge,
        4 => FftPreset::Moderate,
        5 => FftPreset::Heavy,
        _ => FftPreset::HeavyShort,
    }
}

/// The summaries of a benchmark come in the presets' canonical order, one
/// per preset, each with at most three runs numbered from 1 whose times
/// lie within the limit; a finished benchmark has summarised every preset
/// unless it was cut short.
pub proof fn lemma_summaries_in_order(v: RunView)
    requires
        run_wf(v),
    ensures
        v.summaries.len() <= PRESET_COUNT,
        forall|k: int| 0 <= k < v.summaries.len() ==> (#[trigger] v.summaries[k]).preset == all_presets_spec()[k]
            && v.summaries[k].results.len() <= ITERATIONS_PER_PRESET,
        forall|k: int, j: int|
            0 <= k < v.summaries.len() && 0 <= j < v.summaries[k].results.len() ==> (#[trigger] v.summaries[k].results[j]).iteration
                == j + 1 && result_ok(v.summaries[k].results[j]),
{
    assert forall|k: int, j: int|
        0 <= k < v.summaries.len() && 0 <= j < v.summaries[k].results.len() implies (#[trigger] v.summaries[k].results[j]).iteration
        == j + 1 && result_ok(v.summaries[k].results[j]) by {
        assert(summary_ok(v.summaries[k], k as nat));
    }
}

} // verus!
