//! Which chiplet a core sits on, and which files of the AMD `k10temp`
//! hwmon device hold the package and chiplet temperatures.
use crate::cpu_topology;
use crate::text;
use std::collections::BTreeMap;
use vstd::prelude::*;

verus! {

// ---------------------------------------------------------------------------
// Chiplet of a core
// ---------------------------------------------------------------------------

/// The chiplet (0 or 1) of a physical core. The ids are multi-CCD when
/// they leave a gap (the span from the least to the greatest is longer
/// than their number); then the lower half of the sorted ids is on CCD0
/// and the upper half on CCD1. Without a gap every core is on CCD0.
/// Unknown cores have none.
pub open spec fn ccd_spec(id: u32, dom: Set<u32>) -> Option<u32> {
    let s = cpu_topology::sorted_seq_of(dom);
    let has_gap = s.len() > 1 && s.last() - s[0] + 1 > s.len();
    if !dom.contains(id) {
        None
    } else if !has_gap {
        Some(0)
    } else if s.take((s.len() / 2) as int).contains(id) {
        Some(0)
    } else {
        Some(1)
    }
}

pub fn ccd_for_core(physical_core_id: u32, core_map: &BTreeMap<u32, Vec<u32>>) -> (ccd: Option<u32>)
    ensures
        ccd == ccd_spec(physical_core_id, core_map@.dom()),
{
    let sorted = cpu_topology::sorted_keys(core_map);
    let ghost s = sorted@;
    let n = sorted.len();
    let has_gap = n > 1 && (sorted[n - 1] as u64) - (sorted[0] as u64) + 1 > n as u64;
    let mut pos: Option<usize> = None;
    let mut i: usize = 0;
    while i < n
        invariant
            i <= n,
            n == s.len(),
            s == sorted@,
            pos is None ==> forall|j: int| 0 <= j < i ==> s[j] != physical_core_id,
            pos matches Some(p) ==> p < n && s[p as int] == physical_core_id,
        decreases n - i,
    {
        if pos.is_none() && sorted[i] == physical_core_id {
            pos = Some(i);
        }
        i += 1;
    }
    proof {
        assert(s.to_set().contains(physical_core_id) <==> s.contains(physical_core_id));
    }
    match pos {
        None => {
            assert(!s.contains(physical_core_id));
            None
        },
        Some(p) => {
            assert(s.contains(physical_core_id));
            if !has_gap {
                Some(0)
            } else if p < n / 2 {
                assert(s.take((n / 2) as int)[p as int] == physical_core_id);
                Some(0)
            } else {
                assert(!s.take((n / 2) as int).contains(physical_core_id)) by {
                    if s.take((n / 2) as int).contains(physical_core_id) {
                        let j = choose|j: int|
                            0 <= j < (n / 2) as int && #[trigger] s.take((n / 2) as int)[j] == physical_core_id;
                        assert(s[j] == s[p as int]);
                        assert(j < p);
                    }
                }
                Some(1)
            }
        },
    }
}

// ---------------------------------------------------------------------------
// The k10temp sensors
// ---------------------------------------------------------------------------

/// One `tempN` sensor of the hwmon device as found on disk: its number,
/// the contents of `tempN_label` (if readable) and whether `tempN_input`
/// exists.
pub struct SensorFile {
    pub index: u32,
    pub label: Option<String>,
    pub has_input: bool,
}

/// The number of the last sensor, in the order scanned, whose trimmed
/// label is `name` and that has an input file.
pub open spec fn labelled(sensors: Seq<SensorFile>, name: Seq<char>) -> Option<u32>
    decreases sensors.len(),
{
    if sensors.len() == 0 {
        None
    } else {
        let s = sensors.last();
        if s.has_input && (s.label matches Some(l) && text::trim(l@) == name) {
            Some(s.index)
        } else {
            labelled(sensors.drop_last(), name)
        }
    }
}

/// Some sensor numbered `k` has an input file.
pub open spec fn has_input(sensors: Seq<SensorFile>, k: u32) -> bool {
    exists|j: int| 0 <= j < sensors.len() && (#[trigger] sensors[j]).index == k && sensors[j].has_input
}

/// The sensor for `name`, else the usual number `fallback` when that
/// sensor has an input.
pub open spec fn pick(sensors: Seq<SensorFile>, name: Seq<char>, fallback: u32) -> Option<u32> {
    match labelled(sensors, name) {
        Some(i) => Some(i),
        None => if has_input(sensors, fallback) {
            Some(fallback)
        } else {
            None
        },
    }
}

/// Whether the contents of an hwmon device's `name` file name the AMD
/// `k10temp` driver.
pub fn is_k10temp_name(contents: &str) -> (b: bool)
    ensures
        b == (text::trim(contents@) == "k10temp"@),
{
    let t = text::trim_str(contents);
    let want = text::lit("k10temp");
    let r = text::chars_eq(&t, &want);
    r
}

/// Where the temperatures of the `k10temp` device are read, if there is
/// one.
#[derive(Debug, Clone)]
pub struct ThermalMonitor {
    k10temp_base: Option<String>,
    tctl_idx: Option<u32>,
    tccd1_idx: Option<u32>,
    tccd2_idx: Option<u32>,
}

impl ThermalMonitor {
    pub closed spec fn base_spec(&self) -> Option<Seq<char>> {
        match self.k10temp_base {
            Some(b) => Some(b@),
            None => None,
        }
    }

    /// The numbers of the `Tctl`, `Tccd1` and `Tccd2` sensors.
    pub closed spec fn indices_spec(&self) -> (Option<u32>, Option<u32>, Option<u32>) {
        (self.tctl_idx, self.tccd1_idx, self.tccd2_idx)
    }

    /// No `k10temp` device: nothing can be read.
    pub fn unavailable() -> (m: ThermalMonitor)
        ensures
            m.base_spec() is None,
            m.indices_spec() == (None::<u32>, None::<u32>, None::<u32>),
    {
        ThermalMonitor { k10temp_base: None, tctl_idx: None, tccd1_idx: None, tccd2_idx: None }
    }

    /// The device found at `base`, with the sensors scanned there: each of
    /// `Tctl`, `Tccd1`, `Tccd2` by its label, else by the usual numbers 1,
    /// 3 and 4 when those have inputs.
    pub fn from_sensors(base: String, sensors: &[SensorFile]) -> (m: ThermalMonitor)
        ensures
            m.base_spec() == Some(base@),
            m.indices_spec() == (
                pick(sensors@, "Tctl"@, 1),
                pick(sensors@, "Tccd1"@, 3),
                pick(sensors@, "Tccd2"@, 4),
            ),
    {
        let tctl_idx = pick_sensor(sensors, "Tctl", 1);
        let tccd1_idx = pick_sensor(sensors, "Tccd1", 3);
        let tccd2_idx = pick_sensor(sensors, "Tccd2", 4);
        ThermalMonitor { k10temp_base: Some(base), tctl_idx, tccd1_idx, tccd2_idx }
    }

    pub fn is_available(&self) -> (b: bool)
        ensures
            b == self.base_spec() is Some,
    {
        self.k10temp_base.is_some()
    }

    /// The directory of the device.
    pub fn base(&self) -> (b: Option<&str>)
        ensures
            match b {
                Some(s) => self.base_spec() == Some(s@),
                None => self.base_spec() is None,
            },
    {
        match &self.k10temp_base {
            Some(b) => Some(b.as_str()),
            None => None,
        }
    }

    /// The sensor numbers of `Tctl`, `Tccd1` and `Tccd2`.
    pub fn sensor_indices(&self) -> (r: (Option<u32>, Option<u32>, Option<u32>))
        ensures
            r == self.indices_spec(),
    {
        (self.tctl_idx, self.tccd1_idx, self.tccd2_idx)
    }
}

fn pick_sensor(sensors: &[SensorFile], name: &str, fallback: u32) -> (r: Option<u32>)
    ensures
        r == pick(sensors@, name@, fallback),
{
    let want = text::chars_of(name);
    let mut found: Option<u32> = None;
    let mut any_fallback = false;
    let mut i: usize = 0;
    while i < sensors.len()
        invariant
            i <= sensors.len(),
            want@ == name@,
            found == labelled(sensors@.take(i as int), name@),
            any_fallback == has_input(sensors@.take(i as int), fallback),
        decreases sensors.len() - i,
    {
        let s = &sensors[i];
        let ghost t = sensors@.take(i + 1);
        proof {
            assert(t.drop_last() =~= sensors@.take(i as int));
            assert(t.last() == sensors@[i as int]);
        }
        if s.has_input {
            if let Some(l) = &s.label {
                let lc = text::chars_of(l.as_str());
                let lt = text::trim_chars(&lc);
                if text::chars_eq(&lt, &want) {
                    found = Some(s.index);
                }
            }
        }
        if s.has_input && s.index == fallback {
            any_fallback = true;
        }
        proof {
            if any_fallback {
                if !has_input(sensors@.take(i as int), fallback) {
                    assert(t[i as int].index == fallback && t[i as int].has_input);
                }
            } else {
                assert forall|j: int| 0 <= j < t.len() implies !((#[trigger] t[j]).index == fallback
                    && t[j].has_input) by {
                    if j < i {
                        assert(t[j] == sensors@.take(i as int)[j]);
                    }
                }
            }
        }
        i += 1;
    }
    assert(sensors@.take(sensors.len() as int) =~= sensors@);
    match found {
        Some(f) => Some(f),
        None => if any_fallback {
            Some(fallback)
        } else {
            None
        },
    }
}

} // verus!
