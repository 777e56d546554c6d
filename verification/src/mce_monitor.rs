//! Machine-check and EDAC errors from the kernel log: recognising them, and
//! attributing them to physical cores through the APIC ids of
//! /proc/cpuinfo and the CPU topology.
use crate::cpu_topology;
use crate::cpu_topology::CpuTopology;
use crate::pattern;
use crate::text;
use std::collections::BTreeMap;
use vstd::prelude::*;

verus! {

/// A hardware error reported by the kernel.
#[derive(Debug, Clone, PartialEq, Eq)]
pub struct MceError {
    pub cpu_id: u32,
    pub bank: Option<u32>,
    pub error_type: MceErrorType,
    pub message: String,
    pub timestamp: String,
    pub apic_id: Option<u32>,
}

/// The kinds of hardware error the kernel log shows.
#[derive(Debug, Clone, Copy, PartialEq, Eq, Structural)]
pub enum MceErrorType {
    MachineCheck,
    HardwareError,
    EdacCorrectable,
    EdacUncorrectable,
    Unknown,
}

pub open spec fn mce_view(e: MceError) -> (u32, Option<u32>, MceErrorType, Seq<char>, Seq<char>, Option<u32>) {
    (e.cpu_id, e.bank, e.error_type, e.message@, e.timestamp@, e.apic_id)
}

pub open spec fn machine_check_re() -> Seq<char> {
    r"(?i)mce:\s*\[hardware error\]:\s*cpu\s*(\d+):\s*machine check(?: exception)?:\s*\d+\s*bank\s*(\d+):\s*(.+)"@
}

pub open spec fn hardware_error_re() -> Seq<char> {
    r"(?i)mce:\s*\[hardware error\].*"@
}

pub open spec fn edac_ce_re() -> Seq<char> {
    r"(?i)edac.*ce.*"@
}

pub open spec fn edac_ue_re() -> Seq<char> {
    r"(?i)edac.*ue.*"@
}

pub open spec fn cpu_re() -> Seq<char> {
    r"(?i)cpu\s*(\d+)"@
}

pub open spec fn apic_re() -> Seq<char> {
    r"(?i)apic(?:id)?[^0-9]*(\d+)"@
}

/// A captured group read as a `u32`.
pub open spec fn group_u32(g: Option<Seq<char>>) -> Option<u32> {
    match g {
        Some(d) => text::parse_u32_spec(d),
        None => None,
    }
}

/// The timestamp of a journal line: the trimmed text before " kernel:",
/// else the time given by the caller.
pub open spec fn timestamp_spec(line: Seq<char>, fallback: Seq<char>) -> Seq<char> {
    match text::split_once_str(line, " kernel:"@) {
        Some((prefix, _)) => text::trim(prefix),
        None => fallback,
    }
}

/// The APIC id a line mentions.
pub open spec fn apic_id_spec(line: Seq<char>) -> Option<u32> {
    group_u32(pattern::regex_group(apic_re(), line, 1))
}

/// The error a journal line reports: a machine check (CPU and bank read
/// from it; a line whose CPU or bank group is missing or whose CPU does not
/// read as a number reports nothing), else an EDAC uncorrectable error, an
/// EDAC correctable error, or a generic hardware error (CPU from a "cpu N"
/// mention, else 0); `now` is the timestamp of lines without one.
pub open spec fn mce_line_spec(line: Seq<char>, now: Seq<char>) -> Option<(u32, Option<u32>, MceErrorType, Seq<char>, Seq<char>, Option<u32>)> {
    let ts = timestamp_spec(line, now);
    let apic = apic_id_spec(line);
    if pattern::regex_found(machine_check_re(), line) {
        match (group_u32(pattern::regex_group(machine_check_re(), line, 1)), pattern::regex_group(
            machine_check_re(),
            line,
            2,
        )) {
            (Some(cpu), Some(bank)) => Some((cpu, text::parse_u32_spec(bank), MceErrorType::MachineCheck, line, ts, apic)),
            _ => None,
        }
    } else if pattern::regex_found(edac_ue_re(), line) {
        Some((0, None, MceErrorType::EdacUncorrectable, line, ts, apic))
    } else if pattern::regex_found(edac_ce_re(), line) {
        Some((0, None, MceErrorType::EdacCorrectable, line, ts, apic))
    } else if pattern::regex_found(hardware_error_re(), line) {
        let cpu = match group_u32(pattern::regex_group(cpu_re(), line, 1)) {
            Some(c) => c,
            None => 0,
        };
        Some((cpu, None, MceErrorType::HardwareError, line, ts, apic))
    } else {
        None
    }
}

fn group_number(g: Option<String>) -> (r: Option<u32>)
    ensures
        r == group_u32(pattern::opt_chars(g)),
{
    match g {
        Some(d) => {
            let c = text::chars_of(d.as_str());
            text::parse_u32(&c)
        },
        None => None,
    }
}

fn extract_timestamp(line: &[char], now: &str) -> (r: String)
    ensures
        r@ == timestamp_spec(line@, now@),
{
    let pat = text::lit(" kernel:");
    match text::find_chars(line, &pat) {
        Some(i) => {
            let prefix = text::slice_chars(line, 0, i);
            let t = text::trim_chars(&prefix);
            assert(prefix@ == line@.take(i as int));
            text::string_from_chars(&t)
        },
        None => now.to_owned(),
    }
}

fn extract_apic_id(line: &[char]) -> (r: Option<u32>)
    ensures
        r == apic_id_spec(line@),
{
    group_number(pattern::capture_group(r"(?i)apic(?:id)?[^0-9]*(\d+)", line, 1))
}

fn make(cpu_id: u32, bank: Option<u32>, kind: MceErrorType, line: &[char], now: &str) -> (e: MceError)
    ensures
        mce_view(e) == (cpu_id, bank, kind, line@, timestamp_spec(line@, now@), apic_id_spec(line@)),
{
    MceError {
        cpu_id,
        bank,
        error_type: kind,
        message: text::string_from_chars(line),
        timestamp: extract_timestamp(line, now),
        apic_id: extract_apic_id(line),
    }
}

/// Recognises a machine-check or EDAC line of the kernel journal; `now` is
/// the timestamp given to lines that carry none.
pub fn parse_mce_or_edac_line(line: &str, now: &str) -> (r: Option<MceError>)
    ensures
        match r {
            Some(e) => mce_line_spec(line@, now@) == Some(mce_view(e)),
            None => mce_line_spec(line@, now@) is None,
        },
{
    let l = text::chars_of(line);
    let pat_mc = r"(?i)mce:\s*\[hardware error\]:\s*cpu\s*(\d+):\s*machine check(?: exception)?:\s*\d+\s*bank\s*(\d+):\s*(.+)";
    if pattern::is_match(pat_mc, &l) {
        let cpu_id = match group_number(pattern::capture_group(pat_mc, &l, 1)) {
            Some(c) => c,
            None => return None,
        };
        let bank_text = match pattern::capture_group(pat_mc, &l, 2) {
            Some(b) => b,
            None => return None,
        };
        let bank = group_number(Some(bank_text));
        return Some(make(cpu_id, bank, MceErrorType::MachineCheck, &l, now));
    }
    if pattern::is_match(r"(?i)edac.*ue.*", &l) {
        return Some(make(0, None, MceErrorType::EdacUncorrectable, &l, now));
    }
    if pattern::is_match(r"(?i)edac.*ce.*", &l) {
        return Some(make(0, None, MceErrorType::EdacCorrectable, &l, now));
    }
    if pattern::is_match(r"(?i)mce:\s*\[hardware error\].*", &l) {
        let cpu_id = match group_number(pattern::capture_group(r"(?i)cpu\s*(\d+)", &l, 1)) {
            Some(c) => c,
            None => 0,
        };
        return Some(make(cpu_id, None, MceErrorType::HardwareError, &l, now));
    }
    None
}

// ---------------------------------------------------------------------------
// Attribution to physical cores
// ---------------------------------------------------------------------------

/// Some core lists the logical CPU `l`.
pub open spec fn listed(m: Map<u32, Vec<u32>>, l: u32) -> bool {
    exists|p: u32| #[trigger] m.contains_key(p) && m[p]@.contains(l)
}

/// The logical-to-physical map of a core map: each listed logical CPU maps
/// to the largest physical core that lists it.
pub open spec fn logical_to_physical_of(m: Map<u32, Vec<u32>>, r: Map<u32, u32>) -> bool {
    &&& forall|l: u32| #[trigger] r.contains_key(l) <==> listed(m, l)
    &&& forall|l: u32| #[trigger] r.contains_key(l) ==> m.contains_key(r[l]) && m[r[l]]@.contains(l)
    &&& forall|l: u32, q: u32| r.contains_key(l) && #[trigger] m.contains_key(q) && m[q]@.contains(l) ==> q <= #[trigger] r[l]
}

/// Maps each logical CPU of the topology to its physical core.
pub fn build_logical_to_physical_map(topology: &CpuTopology) -> (r: BTreeMap<u32, u32>)
    ensures
        logical_to_physical_of(topology.core_map@, r@),
{
    broadcast use vstd::std_specs::btree::group_btree_axioms;
    let ghost m = topology.core_map@;
    let keys = cpu_topology::sorted_keys(&topology.core_map);
    let mut r: BTreeMap<u32, u32> = BTreeMap::new();
    let mut i: usize = 0;
    while i < keys.len()
        invariant
            i <= keys.len(),
            m == topology.core_map@,
            cpu_topology::strictly_increasing(keys@),
            keys@.to_set() == m.dom(),
            forall|l: u32| #[trigger] r@.contains_key(l) <==> exists|k: int| 0 <= k < i && (#[trigger] m[keys@[k]])@.contains(l),
            forall|l: u32| #[trigger] r@.contains_key(l) ==> exists|k: int| 0 <= k < i && keys@[k] == r@[l] && m[keys@[k]]@.contains(l),
            forall|l: u32, k: int| 0 <= k < i && r@.contains_key(l) && (#[trigger] m[keys@[k]])@.contains(l) ==> keys@[k] <= #[trigger] r@[l],
        decreases keys.len() - i,
    {
        let p = keys[i];
        assert(keys@.to_set().contains(p));
        let list = match topology.core_map.get(&p) {
            Some(v) => v,
            None => {
                assert(false);
                return r;
            },
        };
        assert(*list == m[p]);
        let ghost r_i = r@;
        let mut j: usize = 0;
        while j < list.len()
            invariant
                j <= list.len(),
                i < keys.len(),
                p == keys@[i as int],
                *list == m[p],
                m == topology.core_map@,
                cpu_topology::strictly_increasing(keys@),
                forall|l: u32| #[trigger] r@.contains_key(l) <==> (r_i.contains_key(l) || list@.take(j as int).contains(l)),
                forall|l: u32| #[trigger] r@.contains_key(l) ==> (if list@.take(j as int).contains(l) {
                    r@[l] == p
                } else {
                    r@[l] == r_i[l]
                }),
            decreases list.len() - j,
        {
            let l = list[j];
            r.insert(l, p);
            proof {
                let t0 = list@.take(j as int);
                let t1 = list@.take(j + 1);
                assert(t1 =~= t0.push(l));
                assert forall|x: u32| t1.contains(x) <==> (t0.contains(x) || x == l) by {
                    if t1.contains(x) {
                        let k = choose|k: int| 0 <= k < t1.len() && t1[k] == x;
                        if k < t0.len() {
                            assert(t0[k] == x);
                        }
                    }
                    if t0.contains(x) {
                        let k = choose|k: int| 0 <= k < t0.len() && t0[k] == x;
                        assert(t1[k] == x);
                    }
                    if x == l {
                        assert(t1[j as int] == x);
                    }
                }
            }
            j += 1;
        }
        proof {
            assert(list@.take(list.len() as int) =~= list@);
            assert forall|l: u32| #[trigger] r@.contains_key(l) implies exists|k: int| 0 <= k < i + 1 && keys@[k] == r@[l]
                && m[keys@[k]]@.contains(l) by {
                if list@.contains(l) {
                    assert(keys@[i as int] == r@[l]);
                } else {
                    assert(r_i.contains_key(l));
                }
            }
            assert forall|l: u32| #[trigger] r@.contains_key(l) <==> exists|k: int| 0 <= k < i + 1 && (#[trigger] m[keys@[k]])@.contains(l) by {
                if r@.contains_key(l) && !list@.contains(l) {
                    assert(r_i.contains_key(l));
                }
                if exists|k: int| 0 <= k < i + 1 && (#[trigger] m[keys@[k]])@.contains(l) {
                    let k = choose|k: int| 0 <= k < i + 1 && (#[trigger] m[keys@[k]])@.contains(l);
                    if k < i {
                        assert(r_i.contains_key(l));
                    }
                }
            }
            assert forall|l: u32, k: int| 0 <= k < i + 1 && r@.contains_key(l) && (#[trigger] m[keys@[k]])@.contains(l) implies keys@[k] <= #[trigger] r@[l] by {
                if list@.contains(l) {
                    if k < i {
                        assert(keys@[k] < keys@[i as int]);
                    }
                } else {
                    if k == i {
                        assert(m[keys@[k]] == *list);
                    }
                    assert(r_i.contains_key(l));
                }
            }
        }
        i += 1;
    }
    proof {
        assert forall|l: u32| #[trigger] r@.contains_key(l) <==> listed(m, l) by {
            if r@.contains_key(l) {
                let k = choose|k: int| 0 <= k < keys.len() && (#[trigger] m[keys@[k]])@.contains(l);
                assert(keys@.to_set().contains(keys@[k]));
                assert(m.contains_key(keys@[k]));
            }
            if listed(m, l) {
                let p = choose|p: u32| #[trigger] m.contains_key(p) && m[p]@.contains(l);
                assert(keys@.to_set().contains(p));
                let k = choose|k: int| 0 <= k < keys.len() && keys@[k] == p;
                assert(m[keys@[k]]@.contains(l));
            }
        }
        assert forall|l: u32| #[trigger] r@.contains_key(l) implies m.contains_key(r@[l]) && m[r@[l]]@.contains(l) by {
            let k = choose|k: int| 0 <= k < keys.len() && keys@[k] == r@[l] && m[keys@[k]]@.contains(l);
            assert(keys@.to_set().contains(keys@[k]));
        }
        assert forall|l: u32, q: u32| r@.contains_key(l) && #[trigger] m.contains_key(q) && m[q]@.contains(l) implies q <= #[trigger] r@[l] by {
            assert(keys@.to_set().contains(q));
            let k = choose|k: int| 0 <= k < keys.len() && keys@[k] == q;
            assert(m[keys@[k]]@.contains(l));
        }
    }
    r
}

pub open spec fn map_get(m: Map<u32, u32>, k: u32) -> Option<u32> {
    if m.contains_key(k) {
        Some(m[k])
    } else {
        None
    }
}

/// The physical core of an APIC id, through its logical CPU.
pub open spec fn resolve_spec(apic_id: u32, a2l: Map<u32, u32>, l2p: Map<u32, u32>) -> Option<u32> {
    match map_get(a2l, apic_id) {
        Some(l) => map_get(l2p, l),
        None => None,
    }
}

fn get_u32(m: &BTreeMap<u32, u32>, k: u32) -> (r: Option<u32>)
    ensures
        r == map_get(m@, k),
{
    broadcast use vstd::std_specs::btree::group_btree_axioms;
    match m.get(&k) {
        Some(v) => Some(*v),
        None => None,
    }
}

/// The physical core of an APIC id.
pub fn resolve_apic_to_physical_core(
    apic_id: u32,
    apic_to_logical_cpu: &BTreeMap<u32, u32>,
    logical_to_physical_core: &BTreeMap<u32, u32>,
) -> (r: Option<u32>)
    ensures
        r == resolve_spec(apic_id, apic_to_logical_cpu@, logical_to_physical_core@),
{
    match get_u32(apic_to_logical_cpu, apic_id) {
        Some(l) => get_u32(logical_to_physical_core, l),
        None => None,
    }
}

/// The physical core an error belongs to: through its APIC id when that
/// resolves, else through its logical CPU.
pub open spec fn error_core(e: MceError, a2l: Map<u32, u32>, l2p: Map<u32, u32>) -> Option<u32> {
    let by_apic = match e.apic_id {
        Some(a) => resolve_spec(a, a2l, l2p),
        None => None,
    };
    match by_apic {
        Some(p) => Some(p),
        None => map_get(l2p, e.cpu_id),
    }
}

/// The errors that belong to a physical core, in order.
pub open spec fn errors_for_core_spec(errors: Seq<MceError>, core_id: u32, a2l: Map<u32, u32>, l2p: Map<u32, u32>) -> Seq<MceError> {
    errors.filter(belongs_to(core_id, a2l, l2p))
}

pub open spec fn belongs_to(core_id: u32, a2l: Map<u32, u32>, l2p: Map<u32, u32>) -> spec_fn(MceError) -> bool {
    |e: MceError| error_core(e, a2l, l2p) == Some(core_id)
}

/// Which errors a core gets: an error whose APIC id resolves, through the
/// APIC map and then the logical-to-physical map, goes to that physical core;
/// an error with no APIC id, or one that does not resolve, goes to the
/// physical core of its logical CPU, and to no core when that CPU is unknown.
/// Nothing else is in the result.
pub proof fn lemma_errors_for_core_attribution(
    errors: Seq<MceError>,
    core_id: u32,
    a2l: Map<u32, u32>,
    l2p: Map<u32, u32>,
)
    ensures
        forall|e: MceError| #[trigger]
            errors_for_core_spec(errors, core_id, a2l, l2p).contains(e) ==> errors.contains(e),
        forall|k: int|
            0 <= k < errors.len() ==> (errors_for_core_spec(errors, core_id, a2l, l2p).contains(
                #[trigger] errors[k],
            ) <==> if errors[k].apic_id is Some && a2l.contains_key(errors[k].apic_id->0)
                && l2p.contains_key(a2l[errors[k].apic_id->0]) {
                l2p[a2l[errors[k].apic_id->0]] == core_id
            } else {
                l2p.contains_key(errors[k].cpu_id) && l2p[errors[k].cpu_id] == core_id
            }),
{
    let f = belongs_to(core_id, a2l, l2p);
    let out = errors.filter(f);
    assert forall|e: MceError| #[trigger] out.contains(e) implies errors.contains(e) by {
        errors.lemma_filter_contains_rev(f, e);
    }
    assert forall|k: int| 0 <= k < errors.len() implies (out.contains(#[trigger] errors[k]) <==> f(
        errors[k],
    )) by {
        if f(errors[k]) {
            errors.lemma_filter_contains(f, k);
        }
        if out.contains(errors[k]) {
            let j = choose|j: int| 0 <= j < out.len() && out[j] == errors[k];
            errors.lemma_filter_pred(f, j);
        }
    }
}

/// A copy of an error.
pub fn copy_error(e: &MceError) -> (c: MceError)
    ensures
        c == *e,
{
    MceError {
        cpu_id: e.cpu_id,
        bank: e.bank,
        error_type: e.error_type,
        message: e.message.clone(),
        timestamp: e.timestamp.clone(),
        apic_id: e.apic_id,
    }
}

/// The errors that belong to a physical core.
pub fn errors_for_core(
    errors: &[MceError],
    core_id: u32,
    apic_to_logical_cpu: &BTreeMap<u32, u32>,
    logical_to_physical_core: &BTreeMap<u32, u32>,
) -> (r: Vec<MceError>)
    ensures
        r@ == errors_for_core_spec(errors@, core_id, apic_to_logical_cpu@, logical_to_physical_core@),
{
    let ghost f = belongs_to(core_id, apic_to_logical_cpu@, logical_to_physical_core@);
    let mut r: Vec<MceError> = Vec::new();
    let mut i: usize = 0;
    assert(errors@.take(0).filter(f) =~= Seq::<MceError>::empty());
    while i < errors.len()
        invariant
            i <= errors.len(),
            f == belongs_to(core_id, apic_to_logical_cpu@, logical_to_physical_core@),
            r@ == errors@.take(i as int).filter(f),
        decreases errors.len() - i,
    {
        let e = &errors[i];
        let by_apic = match e.apic_id {
            Some(a) => resolve_apic_to_physical_core(a, apic_to_logical_cpu, logical_to_physical_core),
            None => None,
        };
        let physical = match by_apic {
            Some(p) => Some(p),
            None => get_u32(logical_to_physical_core, e.cpu_id),
        };
        proof {
            assert(errors@.take(i + 1) =~= errors@.take(i as int).push(*e));
            errors@.take(i as int).lemma_filter_push(*e, f);
        }
        if physical == Some(core_id) {
            r.push(copy_error(e));
        }
        i += 1;
    }
    assert(errors@.take(errors.len() as int) =~= errors@);
    r
}

// ---------------------------------------------------------------------------
// APIC ids of /proc/cpuinfo
// ---------------------------------------------------------------------------

/// One line of /proc/cpuinfo applied to the (current processor, APIC map)
/// state: `processor` sets the current logical CPU (none when it does not
/// read as a number), `apicid` maps the APIC id to the current CPU.
pub open spec fn apic_step(st: (Option<u32>, Map<u32, u32>), line: Seq<char>) -> (Option<u32>, Map<u32, u32>) {
    match cpu_topology::key_value(line) {
        Some((k, v)) => if k == "processor"@ {
            (text::parse_u32_spec(v), st.1)
        } else if k == "apicid"@ {
            match (st.0, text::parse_u32_spec(v)) {
                (Some(cpu), Some(apic)) => (st.0, st.1.insert(apic, cpu)),
                _ => st,
            }
        } else {
            st
        },
        None => st,
    }
}

pub open spec fn apic_fold(ls: Seq<Seq<char>>) -> (Option<u32>, Map<u32, u32>)
    decreases ls.len(),
{
    if ls.len() == 0 {
        (None, Map::empty())
    } else {
        apic_step(apic_fold(ls.drop_last()), ls.last())
    }
}

/// /proc/cpuinfo named no APIC id of a known processor.
#[derive(Debug, Clone, PartialEq, Eq)]
pub struct ApicMapError;

impl ApicMapError {
    /// The error's text.
    pub fn message(&self) -> (m: String)
        ensures
            m@ == "failed to build APIC ID mapping from /proc/cpuinfo"@,
    {
        "failed to build APIC ID mapping from /proc/cpuinfo".to_owned()
    }
}

/// Maps APIC ids to logical CPUs from /proc/cpuinfo; an empty map is an
/// error.
pub fn parse_apic_to_logical_cpu_map(cpuinfo: &str) -> (r: Result<BTreeMap<u32, u32>, ApicMapError>)
    ensures
        match r {
            Ok(m) => m@ == apic_fold(text::lines(cpuinfo@)).1 && m@.len() > 0,
            Err(_) => apic_fold(text::lines(cpuinfo@)).1.len() == 0,
        },
{
    broadcast use vstd::std_specs::btree::group_btree_axioms;
    let chars = text::chars_of(cpuinfo);
    let ls = text::lines_of(&chars);
    let ghost lv = text::pieces(ls@);
    let processor_key = text::lit("processor");
    let apic_key = text::lit("apicid");
    let mut map: BTreeMap<u32, u32> = BTreeMap::new();
    let mut current: Option<u32> = None;
    let mut i: usize = 0;
    proof {
        assert(lv.take(0) =~= Seq::<Seq<char>>::empty());
        assert(map@ =~= Map::<u32, u32>::empty());
    }
    while i < ls.len()
        invariant
            i <= ls.len(),
            lv == text::pieces(ls@),
            processor_key@ == "processor"@,
            apic_key@ == "apicid"@,
            apic_fold(lv.take(i as int)) == (current, map@),
        decreases ls.len() - i,
    {
        proof {
            reveal_strlit("processor");
            reveal_strlit("apicid");
            assert(lv[i as int] == ls@[i as int]@);
            assert(lv.take(i + 1).drop_last() =~= lv.take(i as int));
        }
        match text::split_once_char(&ls[i], ':') {
            Some((k, v)) => {
                let key = text::trim_chars(&k);
                let value = text::trim_chars(&v);
                if text::chars_eq(&key, &processor_key) {
                    current = text::parse_u32(&value);
                } else if text::chars_eq(&key, &apic_key) {
                    match (current, text::parse_u32(&value)) {
                        (Some(cpu), Some(apic)) => {
                            map.insert(apic, cpu);
                        },
                        _ => {},
                    }
                }
            },
            None => {},
        }
        i += 1;
    }
    assert(lv.take(ls.len() as int) =~= lv);
    if map.len() == 0 {
        return Err(ApicMapError);
    }
    Ok(map)
}

// ---------------------------------------------------------------------------
// journalctl failures
// ---------------------------------------------------------------------------

/// The journal cannot be read at all (missing or forbidden), as opposed to
/// a passing failure.
pub open spec fn journal_unavailable_spec(error_text: Seq<char>) -> bool {
    let e = text::ascii_lower_seq(error_text);
    text::contains(e, "permission denied"@) || text::contains(e, "operation not permitted"@) || text::contains(
        e,
        "not found"@,
    ) || text::contains(e, "no such file"@) || text::contains(e, "failed to execute journalctl"@)
}

pub fn is_journalctl_unavailable_or_permission_denied(error_text: &str) -> (b: bool)
    ensures
        b == journal_unavailable_spec(error_text@),
{
    let c = text::chars_of(error_text);
    let e = text::to_ascii_lowercase(&c);
    text::contains_str(&e, "permission denied") || text::contains_str(&e, "operation not permitted")
        || text::contains_str(&e, "not found") || text::contains_str(&e, "no such file") || text::contains_str(
        &e,
        "failed to execute journalctl",
    )
}

/// `YYYY-MM-DD HH:MM:SS`, each field zero-padded: the form of the
/// timestamps this monitor records and of journalctl's `--since`.
pub open spec fn timestamp_text_spec(year: u32, month: u8, day: u8, hour: u8, minute: u8, second: u8) -> Seq<char> {
    text::pad_zero(text::decimal(year as nat), 4) + "-"@ + text::pad_zero(text::decimal(month as nat), 2) + "-"@
        + text::pad_zero(text::decimal(day as nat), 2) + " "@ + text::pad_zero(text::decimal(hour as nat), 2)
        + ":"@ + text::pad_zero(text::decimal(minute as nat), 2) + ":"@ + text::pad_zero(
        text::decimal(second as nat),
        2,
    )
}

fn push_padded_number(v: &mut Vec<char>, n: u64, width: usize)
    ensures
        final(v)@ == old(v)@ + text::pad_zero(text::decimal(n as nat), width as nat),
{
    let d = text::u64_decimal(n);
    text::push_padded(v, &d, '0', width);
}

pub fn timestamp_text(year: u32, month: u8, day: u8, hour: u8, minute: u8, second: u8) -> (s: String)
    ensures
        s@ == timestamp_text_spec(year, month, day, hour, minute, second),
{
    let mut v: Vec<char> = Vec::new();
    push_padded_number(&mut v, year as u64, 4);
    text::push_str(&mut v, "-");
    push_padded_number(&mut v, month as u64, 2);
    text::push_str(&mut v, "-");
    push_padded_number(&mut v, day as u64, 2);
    text::push_str(&mut v, " ");
    push_padded_number(&mut v, hour as u64, 2);
    text::push_str(&mut v, ":");
    push_padded_number(&mut v, minute as u64, 2);
    text::push_str(&mut v, ":");
    push_padded_number(&mut v, second as u64, 2);
    assert(v@ =~= timestamp_text_spec(year, month, day, hour, minute, second));
    text::string_from_chars(&v)
}

} // verus!
