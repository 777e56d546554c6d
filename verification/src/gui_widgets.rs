//! What the panels of the graphical front end show: the cores grouped by
//! chiplet, the labels of the firmware section, the texts of the core
//! tiles, the configuration panel, the log feed and the status bar.
use crate::coordinator::CoreStatus;
use crate::cpu_topology::{self, map_get, CpuTopology};
use crate::gui::{LogEntry, TestProgress};
use crate::gui_events::LogLevel;
use crate::text::{self, decimal};
use crate::uefi_reader::{PboLimits, UefiSettings};
use std::collections::BTreeMap;
use vstd::prelude::*;

verus! {

// ---------------------------------------------------------------------------
// Cores by chiplet
// ---------------------------------------------------------------------------

/// Increasing core ids split where consecutive ids differ by more than
/// one: on multi-CCD parts the physical ids of the second chiplet start
/// after a gap.
pub open spec fn ccd_groups(s: Seq<u32>) -> Seq<Seq<u32>>
    decreases s.len(),
{
    if s.len() == 0 {
        seq![]
    } else if s.len() == 1 {
        seq![seq![s[0]]]
    } else {
        let g = ccd_groups(s.drop_last());
        let x = s.last();
        let prev = s[s.len() - 2];
        if x - prev > 1 {
            g.push(seq![x])
        } else {
            g.update(g.len() - 1, g.last().push(x))
        }
    }
}

proof fn lemma_ccd_groups_nonempty(s: Seq<u32>)
    requires
        s.len() > 0,
    ensures
        ccd_groups(s).len() > 0,
    decreases s.len(),
{
    if s.len() > 1 {
        lemma_ccd_groups_nonempty(s.drop_last());
    }
}

/// The label of the group at position `i`.
pub open spec fn ccd_label(i: int) -> Seq<char> {
    "CCD"@ + text::decimal(i as nat)
}

/// The cores of the map, in increasing order, grouped by chiplet and
/// labelled `CCD0`, `CCD1`, ...
pub fn group_cores_by_ccd(core_map: &BTreeMap<u32, Vec<u32>>) -> (groups: Vec<(String, Vec<u32>)>)
    ensures
        groups@.len() == ccd_groups(cpu_topology::sorted_seq_of(core_map@.dom())).len(),
        forall|i: int|
            0 <= i < groups@.len() ==> (#[trigger] groups@[i]).0@ == ccd_label(i) && groups@[i].1@
                == ccd_groups(cpu_topology::sorted_seq_of(core_map@.dom()))[i],
{
    let ids = cpu_topology::sorted_keys(core_map);
    let ghost s = ids@;
    let mut groups: Vec<(String, Vec<u32>)> = Vec::new();
    if ids.len() == 0 {
        assert(ccd_groups(s).len() == 0);
        return groups;
    }
    let mut current: Vec<u32> = Vec::new();
    current.push(ids[0]);
    let mut i: usize = 1;
    assert(s.take(1) =~= seq![s[0]]);
    while i < ids.len()
        invariant
            1 <= i <= ids.len(),
            s == ids@,
            s == cpu_topology::sorted_seq_of(core_map@.dom()),
            cpu_topology::strictly_increasing(s),
            ccd_groups(s.take(i as int)).len() == groups@.len() + 1,
            forall|j: int|
                0 <= j < groups@.len() ==> (#[trigger] groups@[j]).0@ == ccd_label(j) && groups@[j].1@
                    == ccd_groups(s.take(i as int))[j],
            current@ == ccd_groups(s.take(i as int)).last(),
        decreases ids.len() - i,
    {
        let prev = ids[i - 1];
        let curr = ids[i];
        let ghost t = s.take(i + 1);
        proof {
            assert(t.drop_last() =~= s.take(i as int));
            assert(t.last() == curr);
            assert(t[t.len() - 2] == prev);
            assert(prev < curr);
        }
        if curr - prev > 1 {
            let mut label = text::lit("CCD");
            text::push_u64(&mut label, groups.len() as u64);
            let finished = current;
            groups.push((text::string_from_chars(&label), finished));
            current = Vec::new();
            current.push(curr);
            proof {
                assert(current@ =~= seq![curr]);
            }
        } else {
            current.push(curr);
        }
        i += 1;
    }
    assert(s.take(ids.len() as int) =~= s);
    proof {
        lemma_ccd_groups_nonempty(s);
    }
    let mut label = text::lit("CCD");
    text::push_u64(&mut label, groups.len() as u64);
    groups.push((text::string_from_chars(&label), current));
    groups
}

// ---------------------------------------------------------------------------
// Firmware labels
// ---------------------------------------------------------------------------

/// `AGESA: <version>`, or `AGESA: N/A`.
pub open spec fn agesa_label_spec(version: Option<Seq<char>>) -> Seq<char> {
    match version {
        Some(v) => "AGESA: "@ + v,
        None => "AGESA: N/A"@,
    }
}

pub fn agesa_label(version: Option<&str>) -> (s: String)
    ensures
        s@ == agesa_label_spec(
            match version {
                Some(v) => Some(v@),
                None => None,
            },
        ),
{
    match version {
        Some(v) => {
            let mut c = text::lit("AGESA: ");
            text::push_str(&mut c, v);
            text::string_from_chars(&c)
        },
        None => "AGESA: N/A".to_owned(),
    }
}

/// The badge for a PBO setting: read upper-cased, `DISABLED` wins, then
/// `AUTO`, then any of `ENABLED`, `ADVANCED`, `MOTHERBOARD`, `MANUAL`,
/// `ECO`; otherwise, and without a setting, unknown.
pub open spec fn pbo_badge_spec(status: Option<Seq<char>>) -> Seq<char> {
    match status {
        None => "PBO: UNKNOWN"@,
        Some(raw) => {
            let u = text::ascii_upper_seq(raw);
            if text::contains(u, "DISABLED"@) {
                "PBO: DISABLED"@
            } else if text::contains(u, "AUTO"@) {
                "PBO: AUTO"@
            } else if text::contains(u, "ENABLED"@) || text::contains(u, "ADVANCED"@) || text::contains(
                u,
                "MOTHERBOARD"@,
            ) || text::contains(u, "MANUAL"@) || text::contains(u, "ECO"@) {
                "PBO: ENABLED"@
            } else {
                "PBO: UNKNOWN"@
            }
        },
    }
}

pub fn classify_pbo_badge(status: Option<&str>) -> (badge: &'static str)
    ensures
        badge@ == pbo_badge_spec(
            match status {
                Some(s) => Some(s@),
                None => None,
            },
        ),
{
    let raw = match status {
        Some(r) => r,
        None => {
            return "PBO: UNKNOWN";
        },
    };
    let c = text::chars_of(raw);
    let upper = text::to_ascii_uppercase(&c);
    if text::contains_str(&upper, "DISABLED") {
        "PBO: DISABLED"
    } else if text::contains_str(&upper, "AUTO") {
        "PBO: AUTO"
    } else if text::contains_str(&upper, "ENABLED") || text::contains_str(&upper, "ADVANCED")
        || text::contains_str(&upper, "MOTHERBOARD") || text::contains_str(&upper, "MANUAL")
        || text::contains_str(&upper, "ECO") {
        "PBO: ENABLED"
    } else {
        "PBO: UNKNOWN"
    }
}

/// The explanation shown over a PBO badge.
pub open spec fn pbo_hint_spec(badge: Seq<char>) -> Seq<char> {
    if badge == "PBO: ENABLED"@ {
        "PBO is actively enabled \u{2014} cores boost beyond stock limits.\nStability test results are most meaningful in this mode."@
    } else if badge == "PBO: DISABLED"@ {
        "PBO is disabled \u{2014} cores run at stock frequencies.\nStability issues are unlikely; test results may be less informative."@
    } else if badge == "PBO: AUTO"@ {
        "PBO is set to BIOS default \u{2014} the motherboard decides\nwhether to enable boosting. Actual behavior varies by vendor."@
    } else {
        "PBO status could not be determined from UEFI settings."@
    }
}

pub fn pbo_tooltip_hint(badge_label: &str) -> (hint: &'static str)
    ensures
        hint@ == pbo_hint_spec(badge_label@),
{
    let b = text::chars_of(badge_label);
    let enabled = text::lit("PBO: ENABLED");
    let disabled = text::lit("PBO: DISABLED");
    let auto = text::lit("PBO: AUTO");
    if text::chars_eq(&b, &enabled) {
        "PBO is actively enabled \u{2014} cores boost beyond stock limits.\nStability test results are most meaningful in this mode."
    } else if text::chars_eq(&b, &disabled) {
        "PBO is disabled \u{2014} cores run at stock frequencies.\nStability issues are unlikely; test results may be less informative."
    } else if text::chars_eq(&b, &auto) {
        "PBO is set to BIOS default \u{2014} the motherboard decides\nwhether to enable boosting. Actual behavior varies by vendor."
    } else {
        "PBO status could not be determined from UEFI settings."
    }
}

/// The PBO limits that are known, as `PPT:x / TDC:y / EDC:z`, or
/// `Limits: N/A` when none is.
pub open spec fn limit_parts(ppt: Option<Seq<char>>, tdc: Option<Seq<char>>, edc: Option<Seq<char>>) -> Seq<
    Seq<char>,
> {
    (match ppt {
        Some(p) => seq!["PPT:"@ + p],
        None => seq![],
    }) + (match tdc {
        Some(t) => seq!["TDC:"@ + t],
        None => seq![],
    }) + (match edc {
        Some(e) => seq!["EDC:"@ + e],
        None => seq![],
    })
}

pub open spec fn limits_label_spec(l: PboLimits) -> Seq<char> {
    let parts = limit_parts(
        crate::uefi_reader::opt_text(l.ppt_limit),
        crate::uefi_reader::opt_text(l.tdc_limit),
        crate::uefi_reader::opt_text(l.edc_limit),
    );
    if parts.len() == 0 {
        "Limits: N/A"@
    } else {
        text::join_sep(parts, " / "@)
    }
}

fn push_part(parts: &mut Vec<Vec<char>>, tag: &str, value: &Option<String>)
    ensures
        text::pieces(final(parts)@) == text::pieces(old(parts)@) + match crate::uefi_reader::opt_text(*value) {
            Some(v) => seq![tag@ + v],
            None => seq![],
        },
{
    match value {
        Some(v) => {
            let mut p = text::lit(tag);
            text::push_str(&mut p, v.as_str());
            proof {
                text::lemma_pieces_push(parts@, p);
            }
            parts.push(p);
        },
        None => {
            assert(text::pieces(parts@) =~= text::pieces(parts@) + Seq::<Seq<char>>::empty());
        },
    }
}

pub fn limits_label(limits: &PboLimits) -> (s: String)
    ensures
        s@ == limits_label_spec(*limits),
{
    let mut parts: Vec<Vec<char>> = Vec::new();
    assert(text::pieces(parts@) =~= Seq::<Seq<char>>::empty());
    push_part(&mut parts, "PPT:", &limits.ppt_limit);
    push_part(&mut parts, "TDC:", &limits.tdc_limit);
    push_part(&mut parts, "EDC:", &limits.edc_limit);
    assert(text::pieces(parts@) =~= limit_parts(
        crate::uefi_reader::opt_text(limits.ppt_limit),
        crate::uefi_reader::opt_text(limits.tdc_limit),
        crate::uefi_reader::opt_text(limits.edc_limit),
    ));
    if parts.len() == 0 {
        "Limits: N/A".to_owned()
    } else {
        let j = text::join_pieces(&parts, " / ");
        text::string_from_chars(&j)
    }
}

// ---------------------------------------------------------------------------
// Header
// ---------------------------------------------------------------------------

/// `<physical>C/<logical>T`, the core and thread count.
pub open spec fn core_thread_spec(physical: usize, logical: usize) -> Seq<char> {
    decimal(physical as nat) + "C/"@ + decimal(logical as nat) + "T"@
}

/// The core/thread badge of the header.
pub fn core_thread_badge(topology: &CpuTopology) -> (s: String)
    ensures
        s@ == core_thread_spec(topology.physical_core_count, topology.logical_cpu_count),
{
    let mut v: Vec<char> = Vec::new();
    text::push_u64(&mut v, topology.physical_core_count as u64);
    text::push_str(&mut v, "C/");
    text::push_u64(&mut v, topology.logical_cpu_count as u64);
    text::push_str(&mut v, "T");
    text::string_from_chars(&v)
}

// ---------------------------------------------------------------------------
// Core tiles
// ---------------------------------------------------------------------------

/// The icon and word of a core's status.
pub open spec fn status_badge_spec(status: CoreStatus) -> (Seq<char>, Seq<char>) {
    match status {
        CoreStatus::Passed => ("\u{2713}"@, "STABLE"@),
        CoreStatus::Failed => ("\u{2717}"@, "UNSTABLE"@),
        CoreStatus::Testing => ("\u{25b6}"@, "TESTING"@),
        CoreStatus::Skipped => ("\u{2298}"@, "SKIPPED"@),
        CoreStatus::Idle => ("\u{25cb}"@, "IDLE"@),
        CoreStatus::Interrupted => ("\u{26a0}"@, "INTERRUPTED"@),
    }
}

pub fn status_badge(status: CoreStatus) -> (r: (&'static str, &'static str))
    ensures
        (r.0@, r.1@) == status_badge_spec(status),
{
    match status {
        CoreStatus::Passed => ("\u{2713}", "STABLE"),
        CoreStatus::Failed => ("\u{2717}", "UNSTABLE"),
        CoreStatus::Testing => ("\u{25b6}", "TESTING"),
        CoreStatus::Skipped => ("\u{2298}", "SKIPPED"),
        CoreStatus::Idle => ("\u{25cb}", "IDLE"),
        CoreStatus::Interrupted => ("\u{26a0}", "INTERRUPTED"),
    }
}

/// Ids in decimal, joined by commas.
pub open spec fn ids_text(ids: Seq<u32>) -> Seq<char> {
    text::join_sep(ids.map_values(|i: u32| decimal(i as nat)), ","@)
}

fn join_ids(ids: &[u32]) -> (r: Vec<char>)
    ensures
        r@ == ids_text(ids@),
{
    let mut parts: Vec<Vec<char>> = Vec::new();
    let mut i: usize = 0;
    while i < ids.len()
        invariant
            i <= ids.len(),
            text::pieces(parts@) == ids@.take(i as int).map_values(|x: u32| decimal(x as nat)),
        decreases ids.len() - i,
    {
        let d = text::u64_decimal(ids[i] as u64);
        proof {
            text::lemma_pieces_push(parts@, d);
        }
        parts.push(d);
        i += 1;
        assert(ids@.take(i as int).map_values(|x: u32| decimal(x as nat)) =~= ids@.take(i - 1).map_values(
            |x: u32| decimal(x as nat),
        ).push(decimal(ids@[i - 1] as nat)));
    }
    assert(ids@.take(ids.len() as int) =~= ids@);
    text::join_pieces(&parts, ",")
}

/// The texts of a core's tile.
pub struct TileText {
    /// `Core <bios index>`.
    pub title: String,
    /// `phys <physical id>`.
    pub physical: String,
    pub icon: &'static str,
    pub label: &'static str,
    /// `CO: <offset>`, when the offset is known.
    pub co: Option<String>,
    /// `CPUs: <logical ids>`, when the core has any.
    pub cpus: Option<String>,
}

/// The texts of the tile of physical core `core_id` with BIOS index
/// `bios_index`.
pub fn core_tile_text(core_id: u32, bios_index: u32, status: CoreStatus, co_offset: Option<i32>, logical_cpus: &[u32]) -> (t: TileText)
    ensures
        t.title@ == "Core "@ + decimal(bios_index as nat),
        t.physical@ == "phys "@ + decimal(core_id as nat),
        (t.icon@, t.label@) == status_badge_spec(status),
        match co_offset {
            Some(o) => t.co matches Some(c) && c@ == "CO: "@ + text::decimal_signed(o as int),
            None => t.co is None,
        },
        if logical_cpus@.len() > 0 {
            t.cpus matches Some(c) && c@ == "CPUs: "@ + ids_text(logical_cpus@)
        } else {
            t.cpus is None
        },
{
    let mut title = text::lit("Core ");
    text::push_u64(&mut title, bios_index as u64);
    let mut physical = text::lit("phys ");
    text::push_u64(&mut physical, core_id as u64);
    let (icon, label) = status_badge(status);
    let co = match co_offset {
        Some(o) => {
            let mut c = text::lit("CO: ");
            text::push_i64(&mut c, o as i64);
            Some(text::string_from_chars(&c))
        },
        None => None,
    };
    let cpus = if logical_cpus.len() > 0 {
        let mut c = text::lit("CPUs: ");
        let ids = join_ids(logical_cpus);
        text::push_chars(&mut c, &ids);
        Some(text::string_from_chars(&c))
    } else {
        None
    };
    TileText {
        title: text::string_from_chars(&title),
        physical: text::string_from_chars(&physical),
        icon,
        label,
        co,
        cpus,
    }
}

/// What the grid shows for one core.
#[derive(Debug, Clone, Copy, PartialEq, Eq)]
pub struct TileState {
    /// Its status (Idle when none is recorded).
    pub status: CoreStatus,
    /// It is the core under test: its tile shows the run's progress.
    pub shows_progress: bool,
    /// Its Curve Optimizer offset, looked up by BIOS index.
    pub co_offset: Option<i32>,
    /// A core selection leaves it out.
    pub greyed_out: bool,
    /// Its BIOS index (its physical id when the topology has none).
    pub bios_index: u32,
}

pub open spec fn status_or_idle(statuses: Map<u32, CoreStatus>, core_id: u32) -> CoreStatus {
    if statuses.contains_key(core_id) {
        statuses[core_id]
    } else {
        CoreStatus::Idle
    }
}

/// The offset of a BIOS index in the firmware's Curve Optimizer table.
pub open spec fn co_offset_spec(uefi: Option<UefiSettings>, bios: Option<u32>) -> Option<i32> {
    match (uefi, bios) {
        (Some(u), Some(b)) => match u.curve_optimizer_offsets {
            Some(m) => if m@.contains_key(b) {
                Some(m@[b])
            } else {
                None
            },
            None => None,
        },
        _ => None,
    }
}

/// What the grid shows for physical core `core_id`.
pub fn tile_state(
    topology: &CpuTopology,
    statuses: &BTreeMap<u32, CoreStatus>,
    progress: &TestProgress,
    uefi: &Option<UefiSettings>,
    selected_cores: &Option<Vec<u32>>,
    core_id: u32,
) -> (t: TileState)
    ensures
        t.status == status_or_idle(statuses@, core_id),
        t.shows_progress == (t.status == CoreStatus::Testing && progress.current_core == Some(core_id)),
        t.co_offset == co_offset_spec(*uefi, map_get(topology.bios_map@, core_id)),
        t.greyed_out == (match selected_cores {
            Some(v) => !v@.contains(core_id),
            None => false,
        }),
        t.bios_index == (match map_get(topology.bios_map@, core_id) {
            Some(b) => b,
            None => core_id,
        }),
{
    broadcast use vstd::std_specs::btree::group_btree_axioms;
    let status = match statuses.get(&core_id) {
        Some(s) => *s,
        None => CoreStatus::Idle,
    };
    let shows_progress = status == CoreStatus::Testing && match progress.current_core {
        Some(c) => c == core_id,
        None => false,
    };
    let bios = topology.bios_index(core_id);
    let co_offset = match (uefi, bios) {
        (Some(u), Some(b)) => match &u.curve_optimizer_offsets {
            Some(m) => match m.get(&b) {
                Some(o) => Some(*o),
                None => None,
            },
            None => None,
        },
        _ => None,
    };
    let greyed_out = match selected_cores {
        Some(v) => {
            let mut found = false;
            let mut i: usize = 0;
            while i < v.len()
                invariant
                    i <= v.len(),
                    found <==> exists|j: int| 0 <= j < i && v@[j] == core_id,
                decreases v.len() - i,
            {
                if v[i] == core_id {
                    found = true;
                }
                i += 1;
            }
            !found
        },
        None => false,
    };
    let bios_index = match bios {
        Some(b) => b,
        None => core_id,
    };
    TileState { status, shows_progress, co_offset, greyed_out, bios_index }
}

// ---------------------------------------------------------------------------
// Configuration panel
// ---------------------------------------------------------------------------

/// The iteration count typed into the panel: the number when the text is
/// one, else the count kept.
pub fn iterations_from_input(input: &str, current: u32) -> (n: u32)
    ensures
        n == (match text::parse_u32_spec(input@) {
            Some(v) => v,
            None => current,
        }),
{
    let c = text::chars_of(input);
    match text::parse_u32(&c) {
        Some(v) => v,
        None => current,
    }
}

/// The start/stop button's caption.
pub fn action_button_label(test_running: bool) -> (s: &'static str)
    ensures
        s@ == (if test_running {
            "\u{25a0} Stop Test"@
        } else {
            "\u{25b6} Start Test"@
        }),
{
    if test_running {
        "\u{25a0} Stop Test"
    } else {
        "\u{25b6} Start Test"
    }
}

// ---------------------------------------------------------------------------
// Log feed
// ---------------------------------------------------------------------------

pub open spec fn level_tag_spec(level: LogLevel) -> Seq<char> {
    match level {
        LogLevel::Stable => "STABLE"@,
        LogLevel::Error => "ERROR"@,
        LogLevel::Mce => "MCE"@,
        LogLevel::Default => "INFO"@,
    }
}

/// The tag shown before a log line.
pub fn level_tag(level: LogLevel) -> (s: &'static str)
    ensures
        s@ == level_tag_spec(level),
{
    match level {
        LogLevel::Stable => "STABLE",
        LogLevel::Error => "ERROR",
        LogLevel::Mce => "MCE",
        LogLevel::Default => "INFO",
    }
}

/// `[<timestamp>]`, the time column of a log line.
pub fn log_time_text(entry: &LogEntry) -> (s: String)
    ensures
        s@ == "["@ + entry.timestamp@ + "]"@,
{
    let mut v = text::lit("[");
    text::push_str(&mut v, entry.timestamp.as_str());
    text::push_str(&mut v, "]");
    text::string_from_chars(&v)
}

// ---------------------------------------------------------------------------
// Status bar
// ---------------------------------------------------------------------------

/// The status line: the core under test with the count done, the start of
/// a run, a finished run, or readiness.
pub open spec fn status_text_spec(p: TestProgress, running: bool) -> Seq<char> {
    let counts = decimal(p.cores_completed as nat) + "/"@ + decimal(p.total_cores as nat);
    if running {
        match p.current_core {
            Some(core) => "Testing Core "@ + decimal(core as nat) + " \u{2014} "@ + counts + " done"@,
            None => "Starting test..."@,
        }
    } else if p.total_cores > 0 && p.cores_completed >= p.total_cores {
        "Complete \u{2014} "@ + counts + " cores tested"@
    } else {
        "Ready to test"@
    }
}

/// `<done>/<total>` once the run knows its size, else nothing.
pub open spec fn progress_info_spec(p: TestProgress) -> Seq<char> {
    if p.total_cores > 0 {
        decimal(p.cores_completed as nat) + "/"@ + decimal(p.total_cores as nat)
    } else {
        seq![]
    }
}

/// The status bar's two texts: the status line and the progress count.
pub fn status_bar_text(progress: &TestProgress, test_running: bool) -> (r: (String, String))
    ensures
        r.0@ == status_text_spec(*progress, test_running),
        r.1@ == progress_info_spec(*progress),
{
    let mut counts: Vec<char> = Vec::new();
    text::push_u64(&mut counts, progress.cores_completed as u64);
    text::push_str(&mut counts, "/");
    text::push_u64(&mut counts, progress.total_cores as u64);
    let status = if test_running {
        match progress.current_core {
            Some(core) => {
                let mut v = text::lit("Testing Core ");
                text::push_u64(&mut v, core as u64);
                text::push_str(&mut v, " \u{2014} ");
                text::push_chars(&mut v, &counts);
                text::push_str(&mut v, " done");
                text::string_from_chars(&v)
            },
            None => "Starting test...".to_owned(),
        }
    } else if progress.total_cores > 0 && progress.cores_completed >= progress.total_cores {
        let mut v = text::lit("Complete \u{2014} ");
        text::push_chars(&mut v, &counts);
        text::push_str(&mut v, " cores tested");
        text::string_from_chars(&v)
    } else {
        "Ready to test".to_owned()
    };
    let info = if progress.total_cores > 0 {
        text::string_from_chars(&counts)
    } else {
        String::new()
    };
    (status, info)
}

// ---------------------------------------------------------------------------
// Result dialog
// ---------------------------------------------------------------------------

pub open spec fn result_title_spec(interrupted: bool, has_unstable: bool) -> Seq<char> {
    if interrupted {
        if has_unstable {
            "TEST INTERRUPTED - UNSTABLE CORES FOUND"@
        } else {
            "TEST INTERRUPTED"@
        }
    } else if has_unstable {
        "TEST COMPLETE - UNSTABLE CORES FOUND"@
    } else {
        "TEST COMPLETE"@
    }
}

/// The title of the result dialog: whether the run was interrupted and
/// whether unstable cores were found.
pub fn result_card_title(interrupted: bool, has_unstable: bool) -> (s: &'static str)
    ensures
        s@ == result_title_spec(interrupted, has_unstable),
{
    if interrupted {
        if has_unstable {
            "TEST INTERRUPTED - UNSTABLE CORES FOUND"
        } else {
            "TEST INTERRUPTED"
        }
    } else if has_unstable {
        "TEST COMPLETE - UNSTABLE CORES FOUND"
    } else {
        "TEST COMPLETE"
    }
}

} // verus!
