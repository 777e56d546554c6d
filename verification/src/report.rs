//! The stability report: one line per tested core (worst status over the
//! iterations, with its errors and Curve Optimizer offset), a summary, and
//! a machine-readable RESULT line, framed with box-drawing characters.
use crate::coordinator;
use crate::coordinator::{CoreStatus, CoreTestResult, CycleResults};
use crate::cpu_topology;
use crate::cpu_topology::CpuTopology;
use crate::error_parser::{MprimeError, MprimeErrorType};
use crate::mce_monitor::{copy_error, MceError, MceErrorType};
use crate::text;
use crate::uefi_reader::UefiSettings;
use std::io::IsTerminal;
use vstd::prelude::*;

verus! {

// ---------------------------------------------------------------------------
// Text helpers
// ---------------------------------------------------------------------------

/// Position just past the end of the ANSI control sequence whose parameters
/// start at `j`: past the first character in `@`..=`~`, or the end.
pub open spec fn csi_end(s: Seq<char>, j: int) -> int
    decreases s.len() - j,
{
    if j < 0 || j >= s.len() {
        s.len() as int
    } else if '@' <= s[j] && s[j] <= '~' {
        j + 1
    } else {
        csi_end(s, j + 1)
    }
}

/// Visible characters from position `i`: ANSI escape sequences
/// (`ESC [ ... final`) and lone escapes take no room.
pub open spec fn visible_from(s: Seq<char>, i: int) -> nat
    decreases s.len() - i,
{
    if i < 0 || i >= s.len() {
        0
    } else if s[i] == '\u{1b}' {
        if i + 1 < s.len() && s[i + 1] == '[' {
            let e = csi_end(s, i + 2);
            if i < e <= s.len() {
                visible_from(s, e)
            } else {
                0
            }
        } else {
            visible_from(s, i + 1)
        }
    } else {
        1 + visible_from(s, i + 1)
    }
}

pub open spec fn visible_len_spec(s: Seq<char>) -> nat {
    visible_from(s, 0)
}

proof fn lemma_csi_end_bounds(s: Seq<char>, j: int)
    requires
        0 <= j,
    ensures
        j <= csi_end(s, j) <= s.len() || (j > s.len() && csi_end(s, j) == s.len()),
    decreases s.len() - j,
{
    if j < s.len() && !('@' <= s[j] && s[j] <= '~') {
        lemma_csi_end_bounds(s, j + 1);
    }
}

proof fn lemma_visible_bound(s: Seq<char>, i: int)
    requires
        0 <= i,
    ensures
        visible_from(s, i) <= s.len(),
    decreases s.len() - i,
{
    if i < s.len() {
        if s[i] == '\u{1b}' {
            if i + 1 < s.len() && s[i + 1] == '[' {
                lemma_csi_end_bounds(s, i + 2);
                let e = csi_end(s, i + 2);
                if i < e <= s.len() {
                    lemma_visible_bound(s, e);
                }
            } else {
                lemma_visible_bound(s, i + 1);
            }
        } else {
            lemma_visible_bound(s, i + 1);
            lemma_visible_tail(s, i + 1);
        }
    }
}

proof fn lemma_visible_tail(s: Seq<char>, i: int)
    requires
        0 <= i,
    ensures
        visible_from(s, i) + i <= s.len() || i >= s.len(),
    decreases s.len() - i,
{
    if i < s.len() {
        if s[i] == '\u{1b}' {
            if i + 1 < s.len() && s[i + 1] == '[' {
                lemma_csi_end_bounds(s, i + 2);
                let e = csi_end(s, i + 2);
                if i < e <= s.len() {
                    lemma_visible_tail(s, e);
                }
            } else {
                lemma_visible_tail(s, i + 1);
            }
        } else {
            lemma_visible_tail(s, i + 1);
        }
    }
}

/// The number of characters a terminal shows for the text.
pub fn visible_len(text: &str) -> (n: usize)
    ensures
        n == visible_len_spec(text@),
{
    let s = text::chars_of(text);
    let mut i: usize = 0;
    let mut len: usize = 0;
    proof {
        lemma_visible_tail(s@, 0);
    }
    while i < s.len()
        invariant
            i <= s.len(),
            len + visible_from(s@, i as int) == visible_from(s@, 0),
            visible_from(s@, 0) <= s@.len(),
        decreases s.len() - i,
    {
        if s[i] == '\u{1b}' {
            if i + 1 < s.len() && s[i + 1] == '[' {
                let mut j = i + 2;
                while j < s.len() && !('@' <= s[j] && s[j] <= '~')
                    invariant
                        i + 2 <= j <= s.len(),
                        csi_end(s@, i + 2) == csi_end(s@, j as int),
                    decreases s.len() - j,
                {
                    j += 1;
                }
                if j < s.len() {
                    j += 1;
                }
                i = j;
            } else {
                i += 1;
            }
        } else {
            proof {
                lemma_visible_tail(s@, i + 1);
                lemma_visible_tail(s@, 0);
            }
            len += 1;
            i += 1;
        }
    }
    len
}

/// `BOX_VERTICAL`, the content padded with spaces to 62 visible columns,
/// `BOX_VERTICAL`.
pub open spec fn box_line_spec(content: Seq<char>) -> Seq<char> {
    let vis = visible_len_spec(content);
    let pad = if vis < 62 { (62 - vis) as nat } else { 0nat };
    "\u{2551}"@ + content + text::repeat_char(' ', pad) + "\u{2551}"@
}

pub fn format_box_line(content: &str) -> (s: String)
    ensures
        s@ == box_line_spec(content@),
{
    let vis = visible_len(content);
    let pad: usize = if vis < 62 { 62 - vis } else { 0 };
    let mut v = text::lit("\u{2551}");
    text::push_str(&mut v, content);
    text::push_repeat(&mut v, ' ', pad);
    text::push_str(&mut v, "\u{2551}");
    text::string_from_chars(&v)
}

/// The label of a Curve Optimizer offset, and whether it deserves a
/// warning (an aggressive or positive offset on a failed core).
pub open spec fn co_label_spec(offset: i32, is_failed: bool) -> (Seq<char>, bool) {
    if offset <= -21 {
        ("aggressive"@, is_failed)
    } else if offset <= -10 {
        ("moderate"@, false)
    } else if offset <= -1 {
        ("conservative"@, false)
    } else if offset == 0 {
        ("stock"@, false)
    } else {
        ("positive"@, is_failed)
    }
}

pub fn co_offset_label(offset: i32, is_failed: bool) -> (r: (&'static str, bool))
    ensures
        (r.0@, r.1) == co_label_spec(offset, is_failed),
{
    if offset <= -21 {
        ("aggressive", is_failed)
    } else if offset <= -10 {
        ("moderate", false)
    } else if offset <= -1 {
        ("conservative", false)
    } else if offset == 0 {
        ("stock", false)
    } else {
        ("positive", is_failed)
    }
}

/// "Hh Mm" from an hour on, "Mm Ss" from a minute on, else "Ss".
pub open spec fn duration_spec(total_secs: u64) -> Seq<char> {
    let hours = total_secs / 3600;
    let minutes = (total_secs % 3600) / 60;
    let seconds = total_secs % 60;
    if hours > 0 {
        text::decimal(hours as nat) + "h "@ + text::decimal(minutes as nat) + "m"@
    } else if minutes > 0 {
        text::decimal(minutes as nat) + "m "@ + text::decimal(seconds as nat) + "s"@
    } else {
        text::decimal(seconds as nat) + "s"@
    }
}

pub fn format_duration(total_secs: u64) -> (s: String)
    ensures
        s@ == duration_spec(total_secs),
{
    let hours = total_secs / 3600;
    let minutes = (total_secs % 3600) / 60;
    let seconds = total_secs % 60;
    let mut v: Vec<char> = Vec::new();
    if hours > 0 {
        text::push_u64(&mut v, hours);
        text::push_str(&mut v, "h ");
        text::push_u64(&mut v, minutes);
        text::push_str(&mut v, "m");
    } else if minutes > 0 {
        text::push_u64(&mut v, minutes);
        text::push_str(&mut v, "m ");
        text::push_u64(&mut v, seconds);
        text::push_str(&mut v, "s");
    } else {
        text::push_u64(&mut v, seconds);
        text::push_str(&mut v, "s");
    }
    assert(v@ =~= duration_spec(total_secs));
    text::string_from_chars(&v)
}

// ---------------------------------------------------------------------------
// One entry per core
// ---------------------------------------------------------------------------

/// A core's results over all iterations.
pub struct AggregatedCoreResult {
    /// The core's number as the report shows it: its BIOS index.
    pub core_id: u32,
    pub logical_cpu_ids: Vec<u32>,
    pub worst_status: CoreStatus,
    pub all_mprime_errors: Vec<MprimeError>,
    pub all_mce_errors: Vec<MceError>,
    pub total_iterations: u32,
}

/// The worse of two statuses: Failed over Interrupted over the rest
/// (which count as Passed).
pub open spec fn worse(a: CoreStatus, b: CoreStatus) -> CoreStatus {
    if b == CoreStatus::Failed || a == CoreStatus::Failed {
        CoreStatus::Failed
    } else if b == CoreStatus::Interrupted || a == CoreStatus::Interrupted {
        CoreStatus::Interrupted
    } else {
        CoreStatus::Passed
    }
}

/// The results of the core with a BIOS index (the report numbers cores
/// by their BIOS index).
pub open spec fn results_of_core(rs: Seq<CoreTestResult>, core_id: u32) -> Seq<CoreTestResult> {
    rs.filter(core_is(core_id))
}

pub open spec fn core_is(core_id: u32) -> spec_fn(CoreTestResult) -> bool {
    |r: CoreTestResult| r.bios_index == core_id
}

pub open spec fn worst_of(es: Seq<CoreTestResult>) -> CoreStatus
    decreases es.len(),
{
    if es.len() == 0 {
        CoreStatus::Passed
    } else {
        worse(worst_of(es.drop_last()), es.last().status)
    }
}

pub open spec fn mprime_of(es: Seq<CoreTestResult>) -> Seq<MprimeError>
    decreases es.len(),
{
    if es.len() == 0 {
        seq![]
    } else {
        mprime_of(es.drop_last()) + es.last().mprime_errors@
    }
}

pub open spec fn mce_of(es: Seq<CoreTestResult>) -> Seq<MceError>
    decreases es.len(),
{
    if es.len() == 0 {
        seq![]
    } else {
        mce_of(es.drop_last()) + es.last().mce_errors@
    }
}

pub open spec fn max_iterations(es: Seq<CoreTestResult>) -> u32
    decreases es.len(),
{
    if es.len() == 0 {
        0
    } else {
        let m = max_iterations(es.drop_last());
        if es.last().iterations_completed > m {
            es.last().iterations_completed
        } else {
            m
        }
    }
}

pub open spec fn all_skipped(es: Seq<CoreTestResult>) -> bool {
    forall|k: int| 0 <= k < es.len() ==> (#[trigger] es[k]).status == CoreStatus::Skipped
}

/// The entry of a core with results: the first result's CPUs, the worst
/// status, every error in order, the highest iteration count.
pub open spec fn aggregate_ok(es: Seq<CoreTestResult>, a: AggregatedCoreResult) -> bool {
    &&& es.len() > 0
    &&& a.core_id == es[0].bios_index
    &&& a.logical_cpu_ids@ == es[0].logical_cpu_ids@
    &&& a.worst_status == worst_of(es)
    &&& a.all_mprime_errors@ == mprime_of(es)
    &&& a.all_mce_errors@ == mce_of(es)
    &&& a.total_iterations == max_iterations(es)
}

/// The BIOS indices of the cores that have results, in increasing order.
pub open spec fn core_ids_of(rs: Seq<CoreTestResult>) -> Seq<u32> {
    cpu_topology::sorted_seq_of(rs.map_values(|r: CoreTestResult| r.bios_index).to_set())
}

/// The cores to report: those with a result that was not skipped, in
/// increasing order of BIOS index.
pub open spec fn reported_ids(rs: Seq<CoreTestResult>) -> Seq<u32> {
    core_ids_of(rs).filter(not_all_skipped(rs))
}

pub open spec fn not_all_skipped(rs: Seq<CoreTestResult>) -> spec_fn(u32) -> bool {
    |id: u32| !all_skipped(results_of_core(rs, id))
}

/// The deduplicated entries: one per reported core, in order.
pub open spec fn dedup_ok(rs: Seq<CoreTestResult>, d: Seq<AggregatedCoreResult>) -> bool {
    &&& d.len() == reported_ids(rs).len()
    &&& forall|k: int| 0 <= k < d.len() ==> aggregate_ok(results_of_core(rs, reported_ids(rs)[k]), #[trigger] d[k])
}

/// A copy of an mprime error.
pub fn copy_mprime_error(e: &MprimeError) -> (c: MprimeError)
    ensures
        c == *e,
{
    MprimeError {
        error_type: e.error_type,
        message: e.message.clone(),
        fft_size: e.fft_size,
        timestamp: match &e.timestamp {
            Some(t) => Some(t.clone()),
            None => None,
        },
    }
}

proof fn lemma_filter_step(rs: Seq<CoreTestResult>, i: int, id: u32)
    requires
        0 <= i < rs.len(),
    ensures
        results_of_core(rs.take(i + 1), id) == (if rs[i].bios_index == id {
            results_of_core(rs.take(i), id).push(rs[i])
        } else {
            results_of_core(rs.take(i), id)
        }),
{
    assert(rs.take(i + 1) =~= rs.take(i).push(rs[i]));
    rs.take(i).lemma_filter_push(rs[i], core_is(id));
}

/// Gathers the results of one core.
fn aggregate(results: &Vec<CoreTestResult>, core_id: u32) -> (r: Option<AggregatedCoreResult>)
    ensures
        match r {
            Some(a) => !all_skipped(results_of_core(results@, core_id)) && aggregate_ok(results_of_core(results@, core_id), a),
            None => all_skipped(results_of_core(results@, core_id)),
        },
{
    let ghost rs = results@;
    let mut first: Option<usize> = None;
    let mut any_unskipped = false;
    let mut worst = CoreStatus::Passed;
    let mut mprime: Vec<MprimeError> = Vec::new();
    let mut mce: Vec<MceError> = Vec::new();
    let mut iterations: u32 = 0;
    let mut i: usize = 0;
    proof {
        assert(results_of_core(rs.take(0), core_id) =~= Seq::<CoreTestResult>::empty());
    }
    while i < results.len()
        invariant
            i <= results.len(),
            rs == results@,
            ({
                let es = results_of_core(rs.take(i as int), core_id);
                &&& (match first {
                    Some(f) => es.len() > 0 && f < i && rs[f as int] == es[0],
                    None => es.len() == 0,
                })
                &&& any_unskipped == !all_skipped(es)
                &&& worst == worst_of(es)
                &&& mprime@ == mprime_of(es)
                &&& mce@ == mce_of(es)
                &&& iterations == max_iterations(es)
            }),
        decreases results.len() - i,
    {
        let r = &results[i];
        let ghost es0 = results_of_core(rs.take(i as int), core_id);
        proof {
            lemma_filter_step(rs, i as int, core_id);
        }
        if r.bios_index == core_id {
            let ghost es1 = es0.push(*r);
            proof {
                assert(es1.drop_last() =~= es0);
                if first is Some {
                    assert(es1[0] == es0[0]);
                }
                if any_unskipped {
                    let k = choose|k: int| 0 <= k < es0.len() && (#[trigger] es0[k]).status != CoreStatus::Skipped;
                    assert(es1[k] == es0[k]);
                }
                if !any_unskipped && r.status == CoreStatus::Skipped {
                    assert forall|k: int| 0 <= k < es1.len() implies (#[trigger] es1[k]).status == CoreStatus::Skipped by {
                        if k < es0.len() {
                            assert(es1[k] == es0[k]);
                        }
                    }
                }
                if r.status != CoreStatus::Skipped {
                    assert(es1[es0.len() as int] == *r);
                }
            }
            if first.is_none() {
                first = Some(i);
            }
            any_unskipped = any_unskipped || r.status != CoreStatus::Skipped;
            worst = if r.status == CoreStatus::Failed || worst == CoreStatus::Failed {
                CoreStatus::Failed
            } else if r.status == CoreStatus::Interrupted || worst == CoreStatus::Interrupted {
                CoreStatus::Interrupted
            } else {
                CoreStatus::Passed
            };
            let mut k: usize = 0;
            let ghost m0 = mprime@;
            while k < r.mprime_errors.len()
                invariant
                    k <= r.mprime_errors@.len(),
                    mprime@ == m0 + r.mprime_errors@.take(k as int),
                decreases r.mprime_errors@.len() - k,
            {
                mprime.push(copy_mprime_error(&r.mprime_errors[k]));
                assert(r.mprime_errors@.take(k + 1) =~= r.mprime_errors@.take(k as int).push(r.mprime_errors@[k as int]));
                k += 1;
            }
            assert(r.mprime_errors@.take(k as int) =~= r.mprime_errors@);
            let mut k: usize = 0;
            let ghost c0 = mce@;
            while k < r.mce_errors.len()
                invariant
                    k <= r.mce_errors@.len(),
                    mce@ == c0 + r.mce_errors@.take(k as int),
                decreases r.mce_errors@.len() - k,
            {
                mce.push(copy_error(&r.mce_errors[k]));
                assert(r.mce_errors@.take(k + 1) =~= r.mce_errors@.take(k as int).push(r.mce_errors@[k as int]));
                k += 1;
            }
            assert(r.mce_errors@.take(k as int) =~= r.mce_errors@);
            if r.iterations_completed > iterations {
                iterations = r.iterations_completed;
            }
        }
        i += 1;
    }
    assert(rs.take(results.len() as int) =~= rs);
    if !any_unskipped {
        return None;
    }
    let f = match first {
        Some(f) => f,
        None => return None,
    };
    Some(AggregatedCoreResult {
        core_id,
        logical_cpu_ids: results[f].logical_cpu_ids.clone(),
        worst_status: worst,
        all_mprime_errors: mprime,
        all_mce_errors: mce,
        total_iterations: iterations,
    })
}

/// The distinct BIOS indices of the results, in increasing order.
fn result_core_ids(results: &Vec<CoreTestResult>) -> (ids: Vec<u32>)
    ensures
        ids@ == core_ids_of(results@),
{
    let mut raw: Vec<u32> = Vec::new();
    let mut i: usize = 0;
    while i < results.len()
        invariant
            i <= results.len(),
            raw@ == results@.take(i as int).map_values(|r: CoreTestResult| r.bios_index),
        decreases results.len() - i,
    {
        raw.push(results[i].bios_index);
        assert(raw@ =~= results@.take(i + 1).map_values(|r: CoreTestResult| r.bios_index));
        i += 1;
    }
    assert(results@.take(results.len() as int) =~= results@);
    let ids = cpu_topology::sorted_unique(&raw);
    proof {
        cpu_topology::lemma_sorted_seq_of(ids@);
    }
    ids
}

// ---------------------------------------------------------------------------
// The report
// ---------------------------------------------------------------------------

/// The report of a cycle on a CPU, with the firmware settings when known.
pub struct StabilityReport<'a> {
    pub results: &'a CycleResults,
    pub topology: &'a CpuTopology,
    pub uefi_settings: Option<&'a UefiSettings>,
    pub quiet: bool,
}

/// What a report generation can fail with (it never does).
#[derive(Debug, Clone, PartialEq, Eq)]
pub struct ReportError;

impl<'a> StabilityReport<'a> {
    /// A full (not quiet) report.
    pub fn new(results: &'a CycleResults, topology: &'a CpuTopology, uefi_settings: Option<&'a UefiSettings>) -> (r: Self)
        ensures
            r.results == results,
            r.topology == topology,
            r.uefi_settings == uefi_settings,
            !r.quiet,
    {
        StabilityReport { results, topology, uefi_settings, quiet: false }
    }

    /// The same report, quiet (RESULT line only) or not.
    pub fn with_quiet(self, quiet: bool) -> (r: Self)
        ensures
            r.results == self.results,
            r.topology == self.topology,
            r.uefi_settings == self.uefi_settings,
            r.quiet == quiet,
    {
        StabilityReport { quiet, ..self }
    }

    /// One entry per core that has a result that was not skipped, in
    /// increasing order of BIOS index.
    pub fn deduplicate_results(&self) -> (d: Vec<AggregatedCoreResult>)
        ensures
            dedup_ok(self.results.results@, d@),
    {
        let results = &self.results.results;
        let ghost rs = results@;
        let ids = result_core_ids(results);
        let mut out: Vec<AggregatedCoreResult> = Vec::new();
        let mut k: usize = 0;
        proof {
            assert(ids@.take(0).filter(not_all_skipped(rs)) =~= Seq::<u32>::empty());
        }
        while k < ids.len()
            invariant
                k <= ids.len(),
                rs == self.results.results@,
                rs == results@,
                ids@ == core_ids_of(rs),
                out@.len() == ids@.take(k as int).filter(not_all_skipped(rs)).len(),
                forall|j: int| 0 <= j < out@.len() ==> aggregate_ok(
                    results_of_core(rs, ids@.take(k as int).filter(not_all_skipped(rs))[j]),
                    #[trigger] out@[j],
                ),
            decreases ids.len() - k,
        {
            let ghost before = ids@.take(k as int).filter(not_all_skipped(rs));
            proof {
                assert(ids@.take(k + 1) =~= ids@.take(k as int).push(ids@[k as int]));
                ids@.take(k as int).lemma_filter_push(ids@[k as int], not_all_skipped(rs));
            }
            match aggregate(results, ids[k]) {
                Some(a) => {
                    out.push(a);
                    proof {
                        let after = ids@.take(k + 1).filter(not_all_skipped(rs));
                        assert(not_all_skipped(rs)(ids@[k as int]));
                        assert(after == before.push(ids@[k as int]));
                        assert forall|j: int| 0 <= j < out@.len() implies aggregate_ok(results_of_core(rs, after[j]), #[trigger] out@[j]) by {
                            if j < before.len() {
                                assert(after[j] == before[j]);
                            }
                        }
                    }
                },
                None => {
                    assert(!not_all_skipped(rs)(ids@[k as int]));
                },
            }
            k += 1;
        }
        assert(ids@.take(ids.len() as int) =~= ids@);
        out
    }
}


// ---------------------------------------------------------------------------
// Report text
// ---------------------------------------------------------------------------

pub open spec fn hbar() -> Seq<char> {
    text::repeat_char('\u{2550}', 62)
}

pub open spec fn color(use_colors: bool, code: Seq<char>) -> Seq<char> {
    if use_colors {
        code
    } else {
        seq![]
    }
}

pub open spec fn yellow() -> Seq<char> {
    "\u{1b}[33m"@
}

pub open spec fn reset() -> Seq<char> {
    "\u{1b}[0m"@
}

/// A line padded with spaces to 65 visible columns, closed by the frame.
pub open spec fn padded_line(line: Seq<char>) -> Seq<char> {
    let vis = visible_len_spec(line);
    let pad = if vis < 65 { (65 - vis) as nat } else { 0nat };
    line + text::repeat_char(' ', pad) + "\u{2551}\n"@
}

fn push_padded_line(out: &mut Vec<char>, line: &Vec<char>)
    ensures
        final(out)@ == old(out)@ + padded_line(line@),
{
    let s = text::string_from_chars(line);
    let vis = visible_len(s.as_str());
    let pad: usize = if vis < 65 { 65 - vis } else { 0 };
    text::push_chars(out, line);
    text::push_repeat(out, ' ', pad);
    text::push_str(out, "\u{2551}\n");
    assert(final(out)@ =~= old(out)@ + padded_line(line@));
}

/// UTF-8 length of the title line of the header.
pub open spec fn title_bytes(model: Seq<char>) -> int {
    23 + vstd::utf8::encode_utf8(model).len() as int
}

/// The limits present, as "PPT: v", "TDC: v", "EDC: v".
pub open spec fn limit_parts(l: crate::uefi_reader::PboLimits) -> Seq<Seq<char>> {
    let a: Seq<Seq<char>> = match l.ppt_limit {
        Some(v) => seq!["PPT: "@ + v@],
        None => seq![],
    };
    let b: Seq<Seq<char>> = match l.tdc_limit {
        Some(v) => seq!["TDC: "@ + v@],
        None => seq![],
    };
    let c: Seq<Seq<char>> = match l.edc_limit {
        Some(v) => seq!["EDC: "@ + v@],
        None => seq![],
    };
    a + b + c
}

/// Pieces joined with " | ".
pub open spec fn join_bar(parts: Seq<Seq<char>>) -> Seq<char> {
    text::join_sep(parts, " | "@)
}

/// The firmware lines of the header.
pub open spec fn uefi_lines(settings: Option<&UefiSettings>, use_colors: bool) -> Seq<char> {
    match settings {
        None => seq![],
        Some(st) => if !st.available {
            box_line_spec(" "@ + color(use_colors, yellow()) + "PBO: \u{26a0} unavailable (run as root)"@ + color(
                use_colors,
                reset(),
            )) + "\n"@
        } else {
            let pbo = match st.pbo_status {
                Some(p) => box_line_spec(" PBO Status: "@ + p@) + "\n"@,
                None => seq![],
            };
            let limits = match st.pbo_limits {
                Some(l) => if limit_parts(l).len() > 0 {
                    box_line_spec(" Limits: "@ + join_bar(limit_parts(l))) + "\n"@
                } else {
                    seq![]
                },
                None => seq![],
            };
            let agesa = match st.agesa_version {
                Some(a) => box_line_spec(" AGESA Version: "@ + a@) + "\n"@,
                None => seq![],
            };
            pbo + limits + agesa
        },
    }
}

/// The header: top frame, the centred title, the firmware lines, a divider.
pub open spec fn header_spec(model: Seq<char>, settings: Option<&UefiSettings>, use_colors: bool) -> Seq<char> {
    let tlen = title_bytes(model);
    let padding = ((62 - tlen) / 2) as nat;
    "\u{2554}"@ + hbar() + "\u{2557}\n"@ + "\u{2551}"@ + text::repeat_char(' ', padding) + "CPU Stability Report - "@
        + model + text::repeat_char(' ', (62 - padding - tlen) as nat) + "\u{2551}\n"@ + uefi_lines(
        settings,
        use_colors,
    ) + "\u{2560}"@ + hbar() + "\u{2563}"@
}

pub open spec fn status_symbol(st: CoreStatus) -> Seq<char> {
    match st {
        CoreStatus::Passed => "\u{2713}"@,
        CoreStatus::Failed => "\u{2717}"@,
        CoreStatus::Interrupted => "\u{2298}"@,
        CoreStatus::Idle => "\u{25c7}"@,
        CoreStatus::Testing => "\u{25c8}"@,
        CoreStatus::Skipped => "\u{25cb}"@,
    }
}

pub open spec fn status_text(st: CoreStatus) -> Seq<char> {
    match st {
        CoreStatus::Passed => "STABLE"@,
        CoreStatus::Failed => "UNSTABLE"@,
        CoreStatus::Interrupted => "INTERRUPTED"@,
        CoreStatus::Idle => "IDLE"@,
        CoreStatus::Testing => "TESTING"@,
        CoreStatus::Skipped => "SKIPPED"@,
    }
}

/// The colour of a status (only Passed, Failed and Interrupted have one).
pub open spec fn status_color(st: CoreStatus) -> Seq<char> {
    match st {
        CoreStatus::Passed => "\u{1b}[32m"@,
        CoreStatus::Failed => "\u{1b}[31m"@,
        CoreStatus::Interrupted => "\u{1b}[33m"@,
        _ => seq![],
    }
}

/// The Curve Optimizer note of a core's line, when the firmware settings
/// give an offset for the core.
pub open spec fn co_part(settings: Option<&UefiSettings>, core_id: u32, failed: bool, use_colors: bool) -> Seq<char> {
    match settings {
        Some(st) => if st.available {
            match st.curve_optimizer_offsets {
                Some(m) => if m@.contains_key(core_id) {
                    let offset = m@[core_id];
                    let (label, warn) = co_label_spec(offset, failed);
                    if warn && use_colors {
                        "  "@ + yellow() + "\u{26a0} CO offset: "@ + text::decimal_signed(offset as int) + " ("@ + label
                            + ")"@ + reset()
                    } else {
                        "  CO offset: "@ + text::decimal_signed(offset as int) + " ("@ + label + ")"@
                    }
                } else {
                    seq![]
                },
                None => seq![],
            }
        } else {
            seq![]
        },
        None => seq![],
    }
}

/// The detail lines of the mprime errors.
pub open spec fn mprime_lines(es: Seq<MprimeError>) -> Seq<char>
    decreases es.len(),
{
    if es.len() == 0 {
        seq![]
    } else {
        let e = es.last();
        mprime_lines(es.drop_last()) + padded_line(
            "\u{2551}   \u{2514}\u{2500} mprime: "@ + coordinator::mprime_label(e.error_type) + coordinator::fft_info(e.fft_size),
        )
    }
}

/// The detail lines of the MCEs.
pub open spec fn mce_lines(es: Seq<MceError>) -> Seq<char>
    decreases es.len(),
{
    if es.len() == 0 {
        seq![]
    } else {
        let e = es.last();
        mce_lines(es.drop_last()) + padded_line(
            "\u{2551}   \u{2514}\u{2500} MCE: "@ + coordinator::mce_label(e.error_type) + coordinator::bank_info(e.bank),
        )
    }
}

/// The block of one reported core: its status line, then one line per
/// error.
pub open spec fn core_block(core_id: u32, worst: CoreStatus, mprime: Seq<MprimeError>, mce: Seq<MceError>, settings: Option<&UefiSettings>, use_colors: bool) -> Seq<char> {
    let c = color(use_colors, status_color(worst));
    let r = if use_colors && status_color(worst).len() > 0 {
        reset()
    } else {
        seq![]
    };
    padded_line(
        "\u{2551} Core "@ + coordinator::core_col(core_id) + ": "@ + c + status_symbol(worst) + " "@ + status_text(worst) + r
            + co_part(settings, core_id, worst == CoreStatus::Failed, use_colors),
    ) + mprime_lines(mprime) + mce_lines(mce)
}

/// Corrected and uncorrected MCEs: EDAC-correctable, machine checks and
/// hardware errors count as corrected, EDAC-uncorrectable as uncorrected.
pub open spec fn mce_counts(es: Seq<MceError>) -> (int, int)
    decreases es.len(),
{
    if es.len() == 0 {
        (0, 0)
    } else {
        let (c, u) = mce_counts(es.drop_last());
        match es.last().error_type {
            MceErrorType::EdacUncorrectable => (c, u + 1),
            MceErrorType::Unknown => (c, u),
            _ => (c + 1, u),
        }
    }
}

/// A count that saturates at the largest `usize`.
pub open spec fn sat(n: int) -> usize {
    if n > usize::MAX {
        usize::MAX
    } else {
        n as usize
    }
}


/// The block shown when no core was reported.
pub open spec fn no_data_spec() -> Seq<char> {
    "\u{2551} No test data available                                      \u{2551}\n"@
}

/// The lines of the reported cores, each followed by an empty line.
pub open spec fn blocks_spec(rs: Seq<CoreTestResult>, ids: Seq<u32>, settings: Option<&UefiSettings>, use_colors: bool) -> Seq<char>
    decreases ids.len(),
{
    if ids.len() == 0 {
        seq![]
    } else {
        let id = ids.last();
        let es = results_of_core(rs, id);
        blocks_spec(rs, ids.drop_last(), settings, use_colors) + core_block(id, worst_of(es), mprime_of(es), mce_of(es), settings, use_colors)
            + "\n"@
    }
}

/// The MCE counts of the reported cores.
pub open spec fn total_counts(rs: Seq<CoreTestResult>, ids: Seq<u32>) -> (int, int)
    decreases ids.len(),
{
    if ids.len() == 0 {
        (0, 0)
    } else {
        let (c, u) = total_counts(rs, ids.drop_last());
        let (c2, u2) = mce_counts(mce_of(results_of_core(rs, ids.last())));
        (c + c2, u + u2)
    }
}

/// The summary: duration and iterations, then the MCE counts.
pub open spec fn summary_spec(r: CycleResults, rs: Seq<CoreTestResult>, ids: Seq<u32>) -> Seq<char> {
    let (c, u) = total_counts(rs, ids);
    padded_line("\u{2551} Duration: "@ + duration_spec(r.total_duration) + " | Iterations: "@ + text::decimal(
        r.iterations_completed as nat,
    )) + {
        let line = "\u{2551} MCE Errors: "@ + text::decimal(sat(c) as nat) + " corrected, "@ + text::decimal(sat(u) as nat)
            + " uncorrected"@;
        let vis = visible_len_spec(line);
        line + text::repeat_char(' ', if vis < 65 { (65 - vis) as nat } else { 0nat }) + "\u{2551}"@
    }
}

/// The failed cores among the reported ones.
pub open spec fn failed_ids(rs: Seq<CoreTestResult>) -> Seq<u32> {
    reported_ids(rs).filter(failed_core(rs))
}

pub open spec fn failed_core(rs: Seq<CoreTestResult>) -> spec_fn(u32) -> bool {
    |id: u32| worst_of(results_of_core(rs, id)) == CoreStatus::Failed
}

/// The worst status of a core's results: Failed when any of them failed,
/// whatever came before or after it; else Interrupted when any was
/// interrupted; else Passed.
pub proof fn lemma_worst_status(es: Seq<CoreTestResult>)
    ensures
        (worst_of(es) == CoreStatus::Failed) <==> exists|k: int|
            0 <= k < es.len() && (#[trigger] es[k]).status == CoreStatus::Failed,
        (worst_of(es) == CoreStatus::Interrupted) <==> ((forall|k: int|
            0 <= k < es.len() ==> (#[trigger] es[k]).status != CoreStatus::Failed) && exists|k: int|
            0 <= k < es.len() && (#[trigger] es[k]).status == CoreStatus::Interrupted),
        worst_of(es) == CoreStatus::Failed || worst_of(es) == CoreStatus::Interrupted || worst_of(es)
            == CoreStatus::Passed,
    decreases es.len(),
{
    if es.len() > 0 {
        let p = es.drop_last();
        let n = es.len() - 1;
        lemma_worst_status(p);
        assert forall|k: int| 0 <= k < p.len() implies p[k] == es[k] by {}
        if exists|k: int| 0 <= k < p.len() && (#[trigger] p[k]).status == CoreStatus::Failed {
            let k = choose|k: int| 0 <= k < p.len() && (#[trigger] p[k]).status == CoreStatus::Failed;
            assert(es[k].status == CoreStatus::Failed);
        }
        if exists|k: int| 0 <= k < es.len() && (#[trigger] es[k]).status == CoreStatus::Failed {
            let k = choose|k: int| 0 <= k < es.len() && (#[trigger] es[k]).status == CoreStatus::Failed;
            if k < n {
                assert(p[k].status == CoreStatus::Failed);
            }
        }
        if exists|k: int| 0 <= k < p.len() && (#[trigger] p[k]).status == CoreStatus::Interrupted {
            let k = choose|k: int| 0 <= k < p.len() && (#[trigger] p[k]).status == CoreStatus::Interrupted;
            assert(es[k].status == CoreStatus::Interrupted);
        }
        if exists|k: int| 0 <= k < es.len() && (#[trigger] es[k]).status == CoreStatus::Interrupted {
            let k = choose|k: int| 0 <= k < es.len() && (#[trigger] es[k]).status == CoreStatus::Interrupted;
            if k < n {
                assert(p[k].status == CoreStatus::Interrupted);
            }
        }
        if forall|k: int| 0 <= k < es.len() ==> (#[trigger] es[k]).status != CoreStatus::Failed {
            assert forall|k: int| 0 <= k < p.len() implies (#[trigger] p[k]).status != CoreStatus::Failed by {
                assert(es[k].status != CoreStatus::Failed);
            }
        }
        assert(es[n] == es.last());
    }
}

/// A core has a failed result among its own exactly when the run holds a
/// failed result with its BIOS index.
proof fn lemma_core_failed_result(rs: Seq<CoreTestResult>, id: u32)
    ensures
        (exists|j: int| 0 <= j < results_of_core(rs, id).len() && (#[trigger] results_of_core(rs, id)[j]).status
            == CoreStatus::Failed) <==> exists|k: int|
            0 <= k < rs.len() && (#[trigger] rs[k]).bios_index == id && rs[k].status == CoreStatus::Failed,
{
    let es = results_of_core(rs, id);
    let f = core_is(id);
    if exists|j: int| 0 <= j < es.len() && (#[trigger] es[j]).status == CoreStatus::Failed {
        let j = choose|j: int| 0 <= j < es.len() && (#[trigger] es[j]).status == CoreStatus::Failed;
        rs.lemma_filter_pred(f, j);
        assert(es.contains(es[j]));
        rs.lemma_filter_contains_rev(f, es[j]);
        let k = choose|k: int| 0 <= k < rs.len() && rs[k] == es[j];
        assert(rs[k].bios_index == id && rs[k].status == CoreStatus::Failed);
    }
    if exists|k: int| 0 <= k < rs.len() && (#[trigger] rs[k]).bios_index == id && rs[k].status == CoreStatus::Failed {
        let k = choose|k: int| 0 <= k < rs.len() && (#[trigger] rs[k]).bios_index == id && rs[k].status
            == CoreStatus::Failed;
        rs.lemma_filter_contains(f, k);
        let j = choose|j: int| 0 <= j < es.len() && es[j] == rs[k];
        assert(es[j].status == CoreStatus::Failed);
    }
}

/// The RESULT line lists a core as unstable exactly when one of its results
/// failed, whatever its other results (interrupted, passed, skipped) were.
pub proof fn lemma_failed_ids_exact(rs: Seq<CoreTestResult>, id: u32)
    ensures
        failed_ids(rs).contains(id) <==> exists|k: int|
            0 <= k < rs.len() && (#[trigger] rs[k]).bios_index == id && rs[k].status == CoreStatus::Failed,
{
    let es = results_of_core(rs, id);
    lemma_worst_status(es);
    lemma_core_failed_result(rs, id);
    let ids = core_ids_of(rs);
    let rep = reported_ids(rs);
    if failed_ids(rs).contains(id) {
        let j = choose|j: int| 0 <= j < failed_ids(rs).len() && failed_ids(rs)[j] == id;
        rep.lemma_filter_pred(failed_core(rs), j);
    }
    if exists|k: int| 0 <= k < rs.len() && (#[trigger] rs[k]).bios_index == id && rs[k].status == CoreStatus::Failed {
        let k = choose|k: int| 0 <= k < rs.len() && (#[trigger] rs[k]).bios_index == id && rs[k].status
            == CoreStatus::Failed;
        let j = choose|j: int| 0 <= j < es.len() && (#[trigger] es[j]).status == CoreStatus::Failed;
        assert(!all_skipped(es)) by {
            assert(es[j].status != CoreStatus::Skipped);
        }
        let bios = rs.map_values(|r: CoreTestResult| r.bios_index);
        assert(bios[k] == id);
        assert(bios.to_set().contains(id));
        vstd::seq_lib::seq_to_set_is_finite(bios);
        coordinator::lemma_finite_sorted_exists(bios.to_set());
        assert(ids.to_set().contains(id));
        let i = choose|i: int| 0 <= i < ids.len() && ids[i] == id;
        assert(not_all_skipped(rs)(ids[i]));
        ids.lemma_filter_contains(not_all_skipped(rs), i);
        let m = choose|m: int| 0 <= m < rep.len() && rep[m] == id;
        assert(failed_core(rs)(rep[m]));
        rep.lemma_filter_contains(failed_core(rs), m);
    }
}

/// An aggregated entry is Failed exactly when one of its core's results
/// failed.
pub proof fn lemma_entry_failed_exact(rs: Seq<CoreTestResult>, d: Seq<AggregatedCoreResult>, k: int)
    requires
        dedup_ok(rs, d),
        0 <= k < d.len(),
    ensures
        (d[k].worst_status == CoreStatus::Failed) <==> exists|j: int|
            0 <= j < rs.len() && (#[trigger] rs[j]).bios_index == d[k].core_id && rs[j].status == CoreStatus::Failed,
{
    lemma_entry_core(rs, d, k);
    let id = d[k].core_id;
    assert(aggregate_ok(results_of_core(rs, id), d[k]));
    lemma_worst_status(results_of_core(rs, id));
    lemma_core_failed_result(rs, id);
}

/// BIOS indices joined with commas.
pub open spec fn join_ids(ids: Seq<u32>) -> Seq<char> {
    text::join_sep(ids.map_values(|id: u32| text::decimal(id as nat)), ","@)
}

/// The machine-readable verdict.
pub open spec fn result_line_spec(rs: Seq<CoreTestResult>) -> Seq<char> {
    if failed_ids(rs).len() == 0 {
        "RESULT: STABLE\n"@
    } else {
        "RESULT: UNSTABLE cores="@ + join_ids(failed_ids(rs)) + "\n"@
    }
}

/// The whole report.
pub open spec fn report_spec(r: CycleResults, model: Seq<char>, settings: Option<&UefiSettings>, quiet: bool, use_colors: bool) -> Seq<char> {
    let rs = r.results@;
    let ids = reported_ids(rs);
    if quiet {
        result_line_spec(rs)
    } else {
        header_spec(model, settings, use_colors) + "\n"@ + (if ids.len() == 0 {
            no_data_spec()
        } else {
            blocks_spec(rs, ids, settings, use_colors)
        }) + (if ids.len() > 0 {
            "\u{2560}"@ + hbar() + "\u{2563}\n"@
        } else {
            seq![]
        }) + summary_spec(r, rs, ids) + "\n"@ + "\u{255a}"@ + hbar() + "\u{255d}\n"@ + result_line_spec(rs)
    }
}

/// `std::io::Stdout`, the handle of the process's standard output.
#[verifier::external_type_specification]
#[verifier::external_body]
pub struct ExStdout(std::io::Stdout);

/// `std::io::stdout`: the standard output handle.
#[verifier::external_body]
fn stdout_handle() -> std::io::Stdout {
    std::io::stdout()
}

/// `IsTerminal::is_terminal` on a handle: whether it is a terminal; nothing
/// is claimed of the answer, which depends on the environment.
#[verifier::external_body]
fn handle_is_terminal(h: &std::io::Stdout) -> bool {
    h.is_terminal()
}

fn push_limit(parts: &mut Vec<Vec<char>>, label: &str, value: &Option<String>)
    ensures
        text::pieces(final(parts)@) == text::pieces(old(parts)@) + match value {
            Some(v) => seq![label@ + v@],
            None => Seq::<Seq<char>>::empty(),
        },
{
    match value {
        Some(v) => {
            let mut c = text::lit(label);
            text::push_str(&mut c, v.as_str());
            let ghost before = parts@;
            parts.push(c);
            proof {
                text::lemma_pieces_push(before, parts@.last());
                assert(parts@ =~= before.push(parts@.last()));
            }
        },
        None => {
            assert(text::pieces(old(parts)@) + Seq::<Seq<char>>::empty() =~= text::pieces(old(parts)@));
        },
    }
}

/// The firmware lines of the header.
fn format_uefi_lines(settings: Option<&UefiSettings>, use_colors: bool) -> (out: Vec<char>)
    ensures
        out@ == uefi_lines(settings, use_colors),
{
    let mut out: Vec<char> = Vec::new();
    let ghost head = out@;
    match settings {
        None => {},
        Some(st) => {
            if !st.available {
                let mut c = text::lit(" ");
                if use_colors {
                    text::push_str(&mut c, "\u{1b}[33m");
                }
                text::push_str(&mut c, "PBO: \u{26a0} unavailable (run as root)");
                if use_colors {
                    text::push_str(&mut c, "\u{1b}[0m");
                }
                assert(c@ =~= " "@ + color(use_colors, yellow()) + "PBO: \u{26a0} unavailable (run as root)"@ + color(use_colors, reset()));
                let line = format_box_line(text::string_from_chars(&c).as_str());
                text::push_str(&mut out, line.as_str());
                text::push_str(&mut out, "\n");
            } else {
                let ghost p0 = out@;
                match &st.pbo_status {
                    Some(p) => {
                        let mut c = text::lit(" PBO Status: ");
                        text::push_str(&mut c, p.as_str());
                        let line = format_box_line(text::string_from_chars(&c).as_str());
                        text::push_str(&mut out, line.as_str());
                        text::push_str(&mut out, "\n");
                    },
                    None => {},
                }
                let ghost p1 = out@;
                match &st.pbo_limits {
                    Some(l) => {
                        let mut parts: Vec<Vec<char>> = Vec::new();
                        proof {
                            assert(text::pieces(parts@) =~= Seq::<Seq<char>>::empty());
                        }
                        push_limit(&mut parts, "PPT: ", &l.ppt_limit);
                        push_limit(&mut parts, "TDC: ", &l.tdc_limit);
                        push_limit(&mut parts, "EDC: ", &l.edc_limit);
                        assert(text::pieces(parts@) =~= limit_parts(*l));
                        if parts.len() > 0 {
                            let joined = text::join_pieces(&parts, " | ");
                            let mut c = text::lit(" Limits: ");
                            text::push_chars(&mut c, &joined);
                            let line = format_box_line(text::string_from_chars(&c).as_str());
                            text::push_str(&mut out, line.as_str());
                            text::push_str(&mut out, "\n");
                        }
                    },
                    None => {},
                }
                let ghost p2 = out@;
                match &st.agesa_version {
                    Some(a) => {
                        let mut c = text::lit(" AGESA Version: ");
                        text::push_str(&mut c, a.as_str());
                        let line = format_box_line(text::string_from_chars(&c).as_str());
                        text::push_str(&mut out, line.as_str());
                        text::push_str(&mut out, "\n");
                    },
                    None => {},
                }
                assert(out@ =~= head + uefi_lines(settings, use_colors));
            }
        },
    }
    assert(out@ =~= head + uefi_lines(settings, use_colors));
    out
}

impl<'a> StabilityReport<'a> {
    fn format_header(&self, use_colors: bool) -> (s: Vec<char>)
        requires
            title_bytes(self.topology.model_name@) <= 62,
        ensures
            s@ == header_spec(self.topology.model_name@, self.uefi_settings, use_colors),
    {
        let model = &self.topology.model_name;
        let tlen: usize = 23 + model.as_str().len();
        let padding: usize = (62 - tlen) / 2;
        let mut out = text::lit("\u{2554}");
        text::push_repeat(&mut out, '\u{2550}', 62);
        text::push_str(&mut out, "\u{2557}\n");
        text::push_str(&mut out, "\u{2551}");
        text::push_repeat(&mut out, ' ', padding);
        text::push_str(&mut out, "CPU Stability Report - ");
        text::push_str(&mut out, model.as_str());
        text::push_repeat(&mut out, ' ', 62 - padding - tlen);
        text::push_str(&mut out, "\u{2551}\n");
        let ghost head = out@;
        let lines = format_uefi_lines(self.uefi_settings, use_colors);
        text::push_chars(&mut out, &lines);
        text::push_str(&mut out, "\u{2560}");
        text::push_repeat(&mut out, '\u{2550}', 62);
        text::push_str(&mut out, "\u{2563}");
        assert(out@ =~= header_spec(self.topology.model_name@, self.uefi_settings, use_colors));
        out
    }
}


fn status_symbol_str(st: CoreStatus) -> (s: &'static str)
    ensures
        s@ == status_symbol(st),
{
    match st {
        CoreStatus::Passed => "\u{2713}",
        CoreStatus::Failed => "\u{2717}",
        CoreStatus::Interrupted => "\u{2298}",
        CoreStatus::Idle => "\u{25c7}",
        CoreStatus::Testing => "\u{25c8}",
        CoreStatus::Skipped => "\u{25cb}",
    }
}

fn status_text_str(st: CoreStatus) -> (s: &'static str)
    ensures
        s@ == status_text(st),
{
    match st {
        CoreStatus::Passed => "STABLE",
        CoreStatus::Failed => "UNSTABLE",
        CoreStatus::Interrupted => "INTERRUPTED",
        CoreStatus::Idle => "IDLE",
        CoreStatus::Testing => "TESTING",
        CoreStatus::Skipped => "SKIPPED",
    }
}

fn status_color_str(st: CoreStatus) -> (s: &'static str)
    ensures
        s@ == status_color(st),
{
    proof {
        reveal_strlit("");
    }
    match st {
        CoreStatus::Passed => "\u{1b}[32m",
        CoreStatus::Failed => "\u{1b}[31m",
        CoreStatus::Interrupted => "\u{1b}[33m",
        _ => "",
    }
}

fn push_co_part(out: &mut Vec<char>, settings: Option<&UefiSettings>, core_id: u32, failed: bool, use_colors: bool)
    ensures
        final(out)@ == old(out)@ + co_part(settings, core_id, failed, use_colors),
{
    broadcast use vstd::std_specs::btree::group_btree_axioms;
    match settings {
        Some(st) => {
            if st.available {
                match &st.curve_optimizer_offsets {
                    Some(m) => {
                        match m.get(&core_id) {
                            Some(off) => {
                                let offset = *off;
                                let (label, warn) = co_offset_label(offset, failed);
                                if warn && use_colors {
                                    text::push_str(out, "  ");
                                    text::push_str(out, "\u{1b}[33m");
                                    text::push_str(out, "\u{26a0} CO offset: ");
                                    text::push_i64(out, offset as i64);
                                    text::push_str(out, " (");
                                    text::push_str(out, label);
                                    text::push_str(out, ")");
                                    text::push_str(out, "\u{1b}[0m");
                                } else {
                                    text::push_str(out, "  CO offset: ");
                                    text::push_i64(out, offset as i64);
                                    text::push_str(out, " (");
                                    text::push_str(out, label);
                                    text::push_str(out, ")");
                                }
                                assert(final(out)@ =~= old(out)@ + co_part(settings, core_id, failed, use_colors));
                                return;
                            },
                            None => {},
                        }
                    },
                    None => {},
                }
            }
        },
        None => {},
    }
    assert(old(out)@ + co_part(settings, core_id, failed, use_colors) =~= old(out)@);
}

fn push_mprime_lines(out: &mut Vec<char>, es: &Vec<MprimeError>)
    ensures
        final(out)@ == old(out)@ + mprime_lines(es@),
{
    let mut i: usize = 0;
    assert(mprime_lines(es@.take(0)) =~= Seq::<char>::empty());
    while i < es.len()
        invariant
            i <= es.len(),
            out@ == old(out)@ + mprime_lines(es@.take(i as int)),
        decreases es.len() - i,
    {
        let e = &es[i];
        let mut line = text::lit("\u{2551}   \u{2514}\u{2500} mprime: ");
        text::push_str(&mut line, coordinator::mprime_label_str(e.error_type));
        coordinator::push_fft_info(&mut line, e.fft_size);
        push_padded_line(out, &line);
        proof {
            assert(es@.take(i + 1).drop_last() =~= es@.take(i as int));
            assert(es@.take(i + 1).last() == *e);
        }
        i += 1;
    }
    assert(es@.take(es.len() as int) =~= es@);
}

fn push_mce_lines(out: &mut Vec<char>, es: &Vec<MceError>)
    ensures
        final(out)@ == old(out)@ + mce_lines(es@),
{
    let mut i: usize = 0;
    assert(mce_lines(es@.take(0)) =~= Seq::<char>::empty());
    while i < es.len()
        invariant
            i <= es.len(),
            out@ == old(out)@ + mce_lines(es@.take(i as int)),
        decreases es.len() - i,
    {
        let e = &es[i];
        let mut line = text::lit("\u{2551}   \u{2514}\u{2500} MCE: ");
        text::push_str(&mut line, coordinator::mce_label_str(e.error_type));
        coordinator::push_bank_info(&mut line, e.bank);
        push_padded_line(out, &line);
        proof {
            assert(es@.take(i + 1).drop_last() =~= es@.take(i as int));
            assert(es@.take(i + 1).last() == *e);
        }
        i += 1;
    }
    assert(es@.take(es.len() as int) =~= es@);
}

fn count_mce(es: &Vec<MceError>, corrected: &mut usize, uncorrected: &mut usize)
    ensures
        *final(corrected) == sat(*old(corrected) + mce_counts(es@).0),
        *final(uncorrected) == sat(*old(uncorrected) + mce_counts(es@).1),
{
    let mut i: usize = 0;
    while i < es.len()
        invariant
            i <= es.len(),
            *corrected == sat(*old(corrected) + mce_counts(es@.take(i as int)).0),
            *uncorrected == sat(*old(uncorrected) + mce_counts(es@.take(i as int)).1),
        decreases es.len() - i,
    {
        proof {
            assert(es@.take(i + 1).drop_last() =~= es@.take(i as int));
            assert(es@.take(i + 1).last() == es@[i as int]);
            lemma_counts_nonneg(es@.take(i as int));
        }
        match es[i].error_type {
            MceErrorType::EdacUncorrectable => {
                *uncorrected = uncorrected.saturating_add(1);
            },
            MceErrorType::Unknown => {},
            _ => {
                *corrected = corrected.saturating_add(1);
            },
        }
        i += 1;
    }
    assert(es@.take(es.len() as int) =~= es@);
}

proof fn lemma_counts_nonneg(es: Seq<MceError>)
    ensures
        mce_counts(es).0 >= 0,
        mce_counts(es).1 >= 0,
    decreases es.len(),
{
    if es.len() > 0 {
        lemma_counts_nonneg(es.drop_last());
    }
}

proof fn lemma_total_nonneg(rs: Seq<CoreTestResult>, ids: Seq<u32>)
    ensures
        total_counts(rs, ids).0 >= 0,
        total_counts(rs, ids).1 >= 0,
    decreases ids.len(),
{
    if ids.len() > 0 {
        lemma_total_nonneg(rs, ids.drop_last());
        lemma_counts_nonneg(mce_of(results_of_core(rs, ids.last())));
    }
}

impl<'a> StabilityReport<'a> {
    /// The lines of one reported core.
    fn format_aggregated_core(&self, result: &AggregatedCoreResult, use_colors: bool) -> (s: Vec<char>)
        ensures
            s@ == core_block(result.core_id, result.worst_status, result.all_mprime_errors@, result.all_mce_errors@, self.uefi_settings, use_colors),
    {
        let worst = result.worst_status;
        let code = status_color_str(worst);
        let mut line = text::lit("\u{2551} Core ");
        coordinator::push_core_col(&mut line, result.core_id);
        text::push_str(&mut line, ": ");
        if use_colors {
            text::push_str(&mut line, code);
        }
        text::push_str(&mut line, status_symbol_str(worst));
        text::push_str(&mut line, " ");
        text::push_str(&mut line, status_text_str(worst));
        if use_colors && code.unicode_len() > 0 {
            text::push_str(&mut line, "\u{1b}[0m");
        }
        push_co_part(&mut line, self.uefi_settings, result.core_id, worst == CoreStatus::Failed, use_colors);
        proof {
            let c = color(use_colors, status_color(worst));
            let r = if use_colors && status_color(worst).len() > 0 {
                reset()
            } else {
                seq![]
            };
            assert(line@ =~= "\u{2551} Core "@ + coordinator::core_col(result.core_id) + ": "@ + c + status_symbol(worst) + " "@
                + status_text(worst) + r + co_part(self.uefi_settings, result.core_id, worst == CoreStatus::Failed, use_colors));
        }
        let mut out: Vec<char> = Vec::new();
        push_padded_line(&mut out, &line);
        push_mprime_lines(&mut out, &result.all_mprime_errors);
        push_mce_lines(&mut out, &result.all_mce_errors);
        assert(out@ =~= core_block(result.core_id, result.worst_status, result.all_mprime_errors@, result.all_mce_errors@, self.uefi_settings, use_colors));
        out
    }
}


proof fn lemma_sat_add(x: int, y: int)
    requires
        x >= 0,
        y >= 0,
    ensures
        sat(sat(x) + y) == sat(x + y),
{
}

/// The entry of the `k`-th reported core belongs to that core.
proof fn lemma_entry_core(rs: Seq<CoreTestResult>, d: Seq<AggregatedCoreResult>, k: int)
    requires
        dedup_ok(rs, d),
        0 <= k < d.len(),
    ensures
        d[k].core_id == reported_ids(rs)[k],
{
    let id = reported_ids(rs)[k];
    let es = results_of_core(rs, id);
    assert(aggregate_ok(es, d[k]));
    rs.filter_lemma(core_is(id));
    assert(core_is(id)(es[0]));
}

impl<'a> StabilityReport<'a> {
    /// Corrected and uncorrected MCEs over the entries (saturating).
    fn count_mce_errors_deduped(deduped: &Vec<AggregatedCoreResult>, Ghost(rs): Ghost<Seq<CoreTestResult>>) -> (r: (usize, usize))
        requires
            dedup_ok(rs, deduped@),
        ensures
            r.0 == sat(total_counts(rs, reported_ids(rs)).0),
            r.1 == sat(total_counts(rs, reported_ids(rs)).1),
    {
        let ghost ids = reported_ids(rs);
        let mut corrected: usize = 0;
        let mut uncorrected: usize = 0;
        let mut k: usize = 0;
        while k < deduped.len()
            invariant
                k <= deduped@.len(),
                ids == reported_ids(rs),
                dedup_ok(rs, deduped@),
                corrected == sat(total_counts(rs, ids.take(k as int)).0),
                uncorrected == sat(total_counts(rs, ids.take(k as int)).1),
            decreases deduped@.len() - k,
        {
            proof {
                assert(ids.take(k + 1).drop_last() =~= ids.take(k as int));
                assert(ids.take(k + 1).last() == ids[k as int]);
                assert(aggregate_ok(results_of_core(rs, ids[k as int]), deduped@[k as int]));
                lemma_total_nonneg(rs, ids.take(k as int));
                lemma_counts_nonneg(deduped@[k as int].all_mce_errors@);
                lemma_sat_add(total_counts(rs, ids.take(k as int)).0, mce_counts(deduped@[k as int].all_mce_errors@).0);
                lemma_sat_add(total_counts(rs, ids.take(k as int)).1, mce_counts(deduped@[k as int].all_mce_errors@).1);
            }
            count_mce(&deduped[k].all_mce_errors, &mut corrected, &mut uncorrected);
            k += 1;
        }
        assert(ids.take(deduped@.len() as int) =~= ids);
        (corrected, uncorrected)
    }

    /// The summary lines.
    fn format_summary(&self, deduped: &Vec<AggregatedCoreResult>, _use_colors: bool) -> (s: Vec<char>)
        requires
            dedup_ok(self.results.results@, deduped@),
        ensures
            s@ == summary_spec(*self.results, self.results.results@, reported_ids(self.results.results@)),
    {
        let mut line = text::lit("\u{2551} Duration: ");
        let d = format_duration(self.results.total_duration);
        text::push_str(&mut line, d.as_str());
        text::push_str(&mut line, " | Iterations: ");
        text::push_u64(&mut line, self.results.iterations_completed as u64);
        let mut out: Vec<char> = Vec::new();
        push_padded_line(&mut out, &line);
        let (c, u) = Self::count_mce_errors_deduped(deduped, Ghost(self.results.results@));
        let mut mce = text::lit("\u{2551} MCE Errors: ");
        text::push_u64(&mut mce, c as u64);
        text::push_str(&mut mce, " corrected, ");
        text::push_u64(&mut mce, u as u64);
        text::push_str(&mut mce, " uncorrected");
        let s = text::string_from_chars(&mce);
        let vis = visible_len(s.as_str());
        let pad: usize = if vis < 65 { 65 - vis } else { 0 };
        text::push_chars(&mut out, &mce);
        text::push_repeat(&mut out, ' ', pad);
        text::push_str(&mut out, "\u{2551}");
        assert(out@ =~= summary_spec(*self.results, self.results.results@, reported_ids(self.results.results@)));
        out
    }

    /// The verdict line for scripts: the failed cores, or STABLE.
    pub fn generate_result_line(&self) -> (s: String)
        ensures
            s@ == result_line_spec(self.results.results@),
    {
        let ghost rs = self.results.results@;
        let deduped = self.deduplicate_results();
        let ghost ids = reported_ids(rs);
        let mut failed: Vec<Vec<char>> = Vec::new();
        let mut k: usize = 0;
        proof {
            assert(ids.take(0).filter(failed_core(rs)) =~= Seq::<u32>::empty());
        }
        while k < deduped.len()
            invariant
                k <= deduped@.len(),
                rs == self.results.results@,
                ids == reported_ids(rs),
                dedup_ok(rs, deduped@),
                text::pieces(failed@) == ids.take(k as int).filter(failed_core(rs)).map_values(|id: u32| text::decimal(id as nat)),
            decreases deduped@.len() - k,
        {
            let ghost before = ids.take(k as int).filter(failed_core(rs));
            proof {
                assert(ids.take(k + 1) =~= ids.take(k as int).push(ids[k as int]));
                ids.take(k as int).lemma_filter_push(ids[k as int], failed_core(rs));
                lemma_entry_core(rs, deduped@, k as int);
                assert(aggregate_ok(results_of_core(rs, ids[k as int]), deduped@[k as int]));
            }
            if deduped[k].worst_status == CoreStatus::Failed {
                let ghost fb = failed@;
                failed.push(text::u64_decimal(deduped[k].core_id as u64));
                proof {
                    text::lemma_pieces_push(fb, failed@.last());
                    assert(failed@ =~= fb.push(failed@.last()));
                    assert(ids.take(k + 1).filter(failed_core(rs)) == before.push(ids[k as int]));
                    assert(text::pieces(failed@) =~= ids.take(k + 1).filter(failed_core(rs)).map_values(
                        |id: u32| text::decimal(id as nat),
                    ));
                }
            }
            k += 1;
        }
        assert(ids.take(deduped@.len() as int) =~= ids);
        if failed.len() == 0 {
            proof {
                assert(failed_ids(rs).len() == 0);
            }
            "RESULT: STABLE\n".to_owned()
        } else {
            let joined = text::join_pieces(&failed, ",");
            let mut v = text::lit("RESULT: UNSTABLE cores=");
            text::push_chars(&mut v, &joined);
            text::push_str(&mut v, "\n");
            text::string_from_chars(&v)
        }
    }

    /// The per-core section: the blocks of the reported cores, or the
    /// no-data line.
    fn format_blocks(&self, deduped: &Vec<AggregatedCoreResult>, use_colors: bool) -> (s: Vec<char>)
        requires
            dedup_ok(self.results.results@, deduped@),
        ensures
            s@ == (if reported_ids(self.results.results@).len() == 0 {
                no_data_spec()
            } else {
                blocks_spec(self.results.results@, reported_ids(self.results.results@), self.uefi_settings, use_colors)
            }),
    {
        let ghost rs = self.results.results@;
        let ghost ids = reported_ids(rs);
        let mut out: Vec<char> = Vec::new();
        if deduped.len() == 0 {
            text::push_str(&mut out, "\u{2551} No test data available                                      \u{2551}\n");
            assert(out@ =~= no_data_spec());
            return out;
        }
        let mut k: usize = 0;
        proof {
            assert(blocks_spec(rs, ids.take(0), self.uefi_settings, use_colors) =~= Seq::<char>::empty());
        }
        while k < deduped.len()
            invariant
                k <= deduped@.len(),
                rs == self.results.results@,
                ids == reported_ids(rs),
                dedup_ok(rs, deduped@),
                out@ == blocks_spec(rs, ids.take(k as int), self.uefi_settings, use_colors),
            decreases deduped@.len() - k,
        {
            proof {
                assert(ids.take(k + 1).drop_last() =~= ids.take(k as int));
                assert(ids.take(k + 1).last() == ids[k as int]);
                lemma_entry_core(rs, deduped@, k as int);
                assert(aggregate_ok(results_of_core(rs, ids[k as int]), deduped@[k as int]));
            }
            let block = self.format_aggregated_core(&deduped[k], use_colors);
            text::push_chars(&mut out, &block);
            text::push_str(&mut out, "\n");
            k += 1;
        }
        assert(ids.take(deduped@.len() as int) =~= ids);
        out
    }

    /// The report, with ANSI colours or without.
    #[verifier::rlimit(30)]
    pub fn generate_with_colors(&self, use_colors: bool) -> (s: String)
        requires
            self.quiet || title_bytes(self.topology.model_name@) <= 62,
        ensures
            s@ == report_spec(*self.results, self.topology.model_name@, self.uefi_settings, self.quiet, use_colors),
    {
        if self.quiet {
            return self.generate_result_line();
        }
        let deduped = self.deduplicate_results();
        let header = self.format_header(use_colors);
        let blocks = self.format_blocks(&deduped, use_colors);
        let summary = self.format_summary(&deduped, use_colors);
        let result_line = self.generate_result_line();
        let mut out: Vec<char> = Vec::new();
        text::push_chars(&mut out, &header);
        text::push_str(&mut out, "\n");
        text::push_chars(&mut out, &blocks);
        if deduped.len() > 0 {
            text::push_str(&mut out, "\u{2560}");
            text::push_repeat(&mut out, '\u{2550}', 62);
            text::push_str(&mut out, "\u{2563}\n");
        }
        let ghost mid = out@;
        text::push_chars(&mut out, &summary);
        text::push_str(&mut out, "\n");
        text::push_str(&mut out, "\u{255a}");
        text::push_repeat(&mut out, '\u{2550}', 62);
        text::push_str(&mut out, "\u{255d}\n");
        text::push_str(&mut out, result_line.as_str());
        assert(out@ =~= report_spec(*self.results, self.topology.model_name@, self.uefi_settings, self.quiet, use_colors));
        text::string_from_chars(&out)
    }

    /// The report, coloured when standard output is a terminal.
    pub fn generate(&self) -> (r: Result<String, ReportError>)
        requires
            self.quiet || title_bytes(self.topology.model_name@) <= 62,
        ensures
            r matches Ok(s) && (s@ == report_spec(*self.results, self.topology.model_name@, self.uefi_settings, self.quiet, true)
                || s@ == report_spec(*self.results, self.topology.model_name@, self.uefi_settings, self.quiet, false)),
    {
        let out = stdout_handle();
        let use_colors = handle_is_terminal(&out);
        Ok(self.generate_with_colors(use_colors))
    }
}

} // verus!
