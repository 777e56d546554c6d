//! CPU topology: physical cores, their logical CPUs and BIOS numbering.
use crate::text;
use std::collections::BTreeMap;
use vstd::prelude::*;
use vstd::std_specs::iter::IteratorSpec;

verus! {

/// Strictly increasing.
pub open spec fn strictly_increasing(s: Seq<u32>) -> bool {
    forall|i: int, j: int| 0 <= i < j < s.len() ==> s[i] < s[j]
}

/// The elements of a finite set of ids, in increasing order.
pub open spec fn sorted_seq_of(s: Set<u32>) -> Seq<u32> {
    choose|q: Seq<u32>| strictly_increasing(q) && q.to_set() == s
}

/// Two increasing sequences with the same elements are equal.
pub proof fn lemma_sorted_unique(a: Seq<u32>, b: Seq<u32>)
    requires
        strictly_increasing(a),
        strictly_increasing(b),
        a.to_set() == b.to_set(),
    ensures
        a == b,
    decreases a.len(),
{
    if a.len() == 0 {
        if b.len() > 0 {
            assert(b.to_set().contains(b[0]));
        }
        assert(b.len() == 0);
        assert(a =~= b);
    } else {
        if b.len() == 0 {
            assert(a.to_set().contains(a[0]));
            assert(false);
        }
        assert(a.to_set().contains(a[0]));
        assert(b.to_set().contains(b[0]));
        let ja = choose|j: int| 0 <= j < b.len() && b[j] == a[0];
        let jb = choose|j: int| 0 <= j < a.len() && a[j] == b[0];
        if ja > 0 {
            assert(b[0] < b[ja]);
        }
        if jb > 0 {
            assert(a[0] < a[jb]);
        }
        assert(a[0] == b[0]);
        let a1 = a.drop_first();
        let b1 = b.drop_first();
        assert(a1.to_set() =~= b1.to_set()) by {
            assert forall|x: u32| a1.to_set().contains(x) implies b1.to_set().contains(x) by {
                let k = choose|k: int| 0 <= k < a1.len() && a1[k] == x;
                assert(a[k + 1] == x && a[0] < x);
                assert(b.to_set().contains(x));
                let m = choose|m: int| 0 <= m < b.len() && b[m] == x;
                assert(m != 0);
                assert(b1[m - 1] == x);
            }
            assert forall|x: u32| b1.to_set().contains(x) implies a1.to_set().contains(x) by {
                let k = choose|k: int| 0 <= k < b1.len() && b1[k] == x;
                assert(b[k + 1] == x && b[0] < x);
                assert(a.to_set().contains(x));
                let m = choose|m: int| 0 <= m < a.len() && a[m] == x;
                assert(m != 0);
                assert(a1[m - 1] == x);
            }
        }
        lemma_sorted_unique(a1, b1);
        assert(a =~= b) by {
            assert forall|i: int| 0 <= i < a.len() implies a[i] == b[i] by {
                if i > 0 {
                    assert(a[i] == a1[i - 1] && b[i] == b1[i - 1]);
                }
            }
        }
    }
}

/// A sorted sequence of a set is the one `sorted_seq_of` names.
pub proof fn lemma_sorted_seq_of(q: Seq<u32>)
    requires
        strictly_increasing(q),
    ensures
        sorted_seq_of(q.to_set()) == q,
{
    let c = sorted_seq_of(q.to_set());
    assert(strictly_increasing(c) && c.to_set() == q.to_set());
    lemma_sorted_unique(c, q);
}

/// Inserts `x` into a strictly increasing vector unless it is there already.
pub fn insert_sorted(v: &mut Vec<u32>, x: u32)
    requires
        strictly_increasing(old(v)@),
    ensures
        strictly_increasing(final(v)@),
        final(v)@.to_set() == old(v)@.to_set().insert(x),
{
    let mut p: usize = 0;
    while p < v.len() && v[p] < x
        invariant
            p <= v.len(),
            forall|k: int| 0 <= k < p ==> v@[k] < x,
        decreases v.len() - p,
    {
        p += 1;
    }
    if p < v.len() && v[p] == x {
        assert(v@.to_set().insert(x) =~= v@.to_set()) by {
            assert(v@.contains(x));
        }
        return;
    }
    let ghost before = v@;
    v.insert(p, x);
    proof {
        assert forall|i: int, j: int| 0 <= i < j < v@.len() implies v@[i] < v@[j] by {
            if j < p {
                assert(v@[i] == before[i] && v@[j] == before[j]);
            } else if j == p {
                assert(v@[i] == before[i]);
            } else if i == p {
                assert(v@[j] == before[j - 1]);
                assert(before[p as int] >= x);
                if j - 1 > p {
                    assert(before[p as int] < before[j - 1]);
                }
            } else if i < p {
                assert(v@[i] == before[i] && v@[j] == before[j - 1]);
            } else {
                assert(v@[i] == before[i - 1] && v@[j] == before[j - 1]);
            }
        }
        assert(v@.to_set() =~= before.to_set().insert(x)) by {
            assert forall|y: u32| v@.to_set().contains(y) <==> before.to_set().insert(x).contains(y) by {
                if v@.contains(y) {
                    let k = choose|k: int| 0 <= k < v@.len() && v@[k] == y;
                    if k < p {
                        assert(before[k] == y);
                    } else if k > p {
                        assert(before[k - 1] == y);
                    }
                }
                if before.contains(y) {
                    let k = choose|k: int| 0 <= k < before.len() && before[k] == y;
                    if k < p {
                        assert(v@[k] == y);
                    } else {
                        assert(v@[k + 1] == y);
                    }
                }
                if y == x {
                    assert(v@[p as int] == x);
                }
            }
        }
    }
}

/// The distinct values of a sequence, in increasing order.
pub fn sorted_unique(s: &[u32]) -> (r: Vec<u32>)
    ensures
        strictly_increasing(r@),
        r@.to_set() == s@.to_set(),
{
    let mut r: Vec<u32> = Vec::new();
    let mut i: usize = 0;
    assert(r@.to_set() =~= s@.take(0).to_set());
    while i < s.len()
        invariant
            i <= s.len(),
            strictly_increasing(r@),
            r@.to_set() == s@.take(i as int).to_set(),
        decreases s.len() - i,
    {
        insert_sorted(&mut r, s[i]);
        assert(s@.take(i + 1).to_set() =~= s@.take(i as int).to_set().insert(s@[i as int])) by {
            assert(s@.take(i + 1) =~= s@.take(i as int).push(s@[i as int]));
            s@.take(i as int).lemma_push_to_set_commute(s@[i as int]);
        }
        i += 1;
    }
    assert(s@.take(s.len() as int) =~= s@);
    r
}

/// The keys of a map, in increasing order.
pub fn sorted_keys<V>(m: &BTreeMap<u32, V>) -> (r: Vec<u32>)
    ensures
        strictly_increasing(r@),
        r@.to_set() == m@.dom(),
        r@ == sorted_seq_of(m@.dom()),
{
    broadcast use vstd::std_specs::btree::group_btree_axioms;
    let mut ks: Vec<u32> = Vec::new();
    let keys = m.keys();
    assert(keys.remaining().unref().to_set() == m@.dom());
    for k in it: keys
        invariant
            ks@ == it.seq().take(it.index()).map_values(|x: &u32| *x),
            it.seq() == keys.remaining(),
    {
        ks.push(*k);
        proof {
            assert(ks@ =~= it.seq().take(it.index() + 1).map_values(|x: &u32| *x));
        }
    }
    assert(ks@ =~= keys.remaining().unref());
    let r = sorted_unique(&ks);
    proof {
        lemma_sorted_seq_of(r@);
    }
    r
}


// ---------------------------------------------------------------------------
// The topology
// ---------------------------------------------------------------------------

/// The CPU: vendor and model, physical cores with their logical CPUs, and
/// the BIOS numbering of the physical cores (0, 1, ... in increasing order
/// of the physical core id) with its inverse.
#[derive(Debug, Clone, PartialEq, Eq)]
pub struct CpuTopology {
    pub vendor: String,
    pub model_name: String,
    pub physical_core_count: usize,
    pub logical_cpu_count: usize,
    pub core_map: BTreeMap<u32, Vec<u32>>,
    pub bios_map: BTreeMap<u32, u32>,
    pub physical_map: BTreeMap<u32, u32>,
    pub cpu_brand: Option<String>,
    pub cpu_frequency_mhz: Option<u64>,
}

pub open spec fn map_get(m: Map<u32, u32>, k: u32) -> Option<u32> {
    if m.contains_key(k) {
        Some(m[k])
    } else {
        None
    }
}

/// The BIOS numbering of the physical cores `dom`: order-preserving onto
/// `0..dom.len()`, and `phys` its inverse.
pub open spec fn numbering(dom: Set<u32>, bios: Map<u32, u32>, phys: Map<u32, u32>) -> bool {
    &&& bios.dom() == dom
    &&& forall|p: u32| #[trigger] dom.contains(p) ==> bios[p] < dom.len()
    &&& forall|p: u32, q: u32| dom.contains(p) && dom.contains(q) && p < q ==> #[trigger] bios[p] < #[trigger] bios[q]
    &&& forall|b: u32| #[trigger] phys.contains_key(b) <==> b < dom.len()
    &&& forall|b: u32| b < dom.len() ==> dom.contains(#[trigger] phys[b]) && bios[phys[b]] == b
}

/// A topology whose maps agree: the numbering covers exactly the physical
/// cores, and each core lists its logical CPUs in increasing order.
pub open spec fn topology_wf(t: CpuTopology) -> bool {
    &&& numbering(t.core_map@.dom(), t.bios_map@, t.physical_map@)
    &&& t.physical_core_count == t.core_map@.dom().len()
    &&& forall|p: u32| #[trigger] t.core_map@.contains_key(p) ==> strictly_increasing(t.core_map@[p]@)
}

impl CpuTopology {
    /// The BIOS index of a physical core.
    pub fn bios_index(&self, physical_core_id: u32) -> (r: Option<u32>)
        ensures
            r == map_get(self.bios_map@, physical_core_id),
    {
        broadcast use vstd::std_specs::btree::group_btree_axioms;
        match self.bios_map.get(&physical_core_id) {
            Some(v) => Some(*v),
            None => None,
        }
    }

    /// The physical core with a BIOS index.
    pub fn physical_id(&self, bios_index: u32) -> (r: Option<u32>)
        ensures
            r == map_get(self.physical_map@, bios_index),
    {
        broadcast use vstd::std_specs::btree::group_btree_axioms;
        match self.physical_map.get(&bios_index) {
            Some(v) => Some(*v),
            None => None,
        }
    }
}

/// In a well-formed topology, the physical core of a core's BIOS index is
/// that core again, and the BIOS index of the core with a valid BIOS index
/// is that index again.
pub proof fn lemma_bios_round_trip(t: CpuTopology, p: u32, b: u32)
    requires
        topology_wf(t),
    ensures
        t.core_map@.contains_key(p) ==> (map_get(t.bios_map@, p) matches Some(i) && map_get(t.physical_map@, i) == Some(p)),
        (b as int) < t.physical_core_count ==> (map_get(t.physical_map@, b) matches Some(q) && map_get(t.bios_map@, q) == Some(b)),
{
    let dom = t.core_map@.dom();
    if dom.contains(p) {
        let i = t.bios_map@[p];
        assert(i < dom.len());
        let q = t.physical_map@[i];
        assert(dom.contains(q) && t.bios_map@[q] == i);
        if q < p {
            assert(t.bios_map@[q] < t.bios_map@[p]);
        } else if p < q {
            assert(t.bios_map@[p] < t.bios_map@[q]);
        }
    }
}

// ---------------------------------------------------------------------------
// /proc/cpuinfo
// ---------------------------------------------------------------------------

/// What the topology needs of /proc/cpuinfo.
#[derive(Debug)]
pub struct CpuInfoSummary {
    pub vendor: String,
    pub model_name: String,
    pub has_long_mode: bool,
}

/// A `key: value` line, both trimmed.
pub open spec fn key_value(line: Seq<char>) -> Option<(Seq<char>, Seq<char>)> {
    match text::split_once(line, ':') {
        Some((k, v)) => Some((text::trim(k), text::trim(v))),
        None => None,
    }
}

/// The value of the first line with the given key.
pub open spec fn first_value_of(ls: Seq<Seq<char>>, key: Seq<char>) -> Option<Seq<char>>
    decreases ls.len(),
{
    if ls.len() == 0 {
        None
    } else {
        match first_value_of(ls.drop_last(), key) {
            Some(v) => Some(v),
            None => match key_value(ls.last()) {
                Some((k, v)) => if k == key {
                    Some(v)
                } else {
                    None
                },
                None => None,
            },
        }
    }
}

/// Some `flags` line lists the `lm` flag (64-bit long mode).
pub open spec fn lists_long_mode(ls: Seq<Seq<char>>) -> bool {
    exists|i: int| 0 <= i < ls.len() && #[trigger] flags_lm(ls[i])
}

/// A `flags` line that lists `lm`.
pub open spec fn flags_lm(line: Seq<char>) -> bool {
    match key_value(line) {
        Some((k, v)) => k == "flags"@ && text::words(v).contains("lm"@),
        None => false,
    }
}

/// Why /proc/cpuinfo or the topology was refused.
#[derive(Debug, Clone, PartialEq, Eq)]
pub enum TopologyError {
    MissingVendor,
    MissingModelName,
    UnsupportedVendor { vendor: String },
    NoLongMode,
    NoLogicalCpus,
}

impl TopologyError {
    pub open spec fn message_spec(&self) -> Seq<char> {
        match self {
            TopologyError::MissingVendor => "missing vendor_id in /proc/cpuinfo"@,
            TopologyError::MissingModelName => "missing model name in /proc/cpuinfo"@,
            TopologyError::UnsupportedVendor { vendor } => "unsupported CPU vendor '"@ + vendor@
                + "'; only AuthenticAMD is supported"@,
            TopologyError::NoLongMode => "unsupported CPU architecture: 64-bit long mode (lm) flag is required"@,
            TopologyError::NoLogicalCpus => "logical CPU list is empty"@,
        }
    }

    /// The error's text.
    pub fn message(&self) -> (m: String)
        ensures
            m@ == self.message_spec(),
    {
        match self {
            TopologyError::MissingVendor => "missing vendor_id in /proc/cpuinfo".to_owned(),
            TopologyError::MissingModelName => "missing model name in /proc/cpuinfo".to_owned(),
            TopologyError::UnsupportedVendor { vendor } => {
                let mut v = text::lit("unsupported CPU vendor '");
                text::push_str(&mut v, vendor.as_str());
                text::push_str(&mut v, "'; only AuthenticAMD is supported");
                text::string_from_chars(&v)
            },
            TopologyError::NoLongMode => "unsupported CPU architecture: 64-bit long mode (lm) flag is required".to_owned(),
            TopologyError::NoLogicalCpus => "logical CPU list is empty".to_owned(),
        }
    }
}

/// The summary of /proc/cpuinfo: first `vendor_id`, first `model name`,
/// and whether a `flags` line lists `lm`.
pub open spec fn cpuinfo_spec(content: Seq<char>) -> Result<(Seq<char>, Seq<char>, bool), TopologyError> {
    let ls = text::lines(content);
    match (first_value_of(ls, "vendor_id"@), first_value_of(ls, "model name"@)) {
        (Some(vendor), Some(model)) => Ok((vendor, model, lists_long_mode(ls))),
        (None, _) => Err(TopologyError::MissingVendor),
        (Some(_), None) => Err(TopologyError::MissingModelName),
    }
}

proof fn lemma_first_value_push(ls: Seq<Seq<char>>, l: Seq<char>, key: Seq<char>)
    ensures
        first_value_of(ls.push(l), key) == (match first_value_of(ls, key) {
            Some(v) => Some(v),
            None => match key_value(l) {
                Some((k, v)) => if k == key {
                    Some(v)
                } else {
                    None
                },
                None => None,
            },
        }),
{
    assert(ls.push(l).drop_last() =~= ls);
}

fn contains_word(ws: &Vec<Vec<char>>, w: &str) -> (b: bool)
    ensures
        b == text::pieces(ws@).contains(w@),
{
    let target = text::lit(w);
    let mut i: usize = 0;
    while i < ws.len()
        invariant
            i <= ws.len(),
            target@ == w@,
            forall|k: int| 0 <= k < i ==> ws@[k]@ != w@,
        decreases ws.len() - i,
    {
        if text::chars_eq(&ws[i], &target) {
            assert(text::pieces(ws@)[i as int] == w@);
            return true;
        }
        i += 1;
    }
    assert forall|k: int| 0 <= k < text::pieces(ws@).len() implies text::pieces(ws@)[k] != w@ by {
        assert(text::pieces(ws@)[k] == ws@[k]@);
    }
    false
}

/// Reads vendor, model name and the long-mode flag from /proc/cpuinfo.
pub fn parse_cpuinfo(content: &str) -> (r: Result<CpuInfoSummary, TopologyError>)
    ensures
        match (r, cpuinfo_spec(content@)) {
            (Ok(s), Ok((vendor, model, lm))) => s.vendor@ == vendor && s.model_name@ == model && s.has_long_mode == lm,
            (Err(e), Err(f)) => e == f,
            _ => false,
        },
{
    let chars = text::chars_of(content);
    let ls = text::lines_of(&chars);
    let ghost lv = text::pieces(ls@);
    let vendor_key = text::lit("vendor_id");
    let model_key = text::lit("model name");
    let flags_key = text::lit("flags");
    let mut vendor: Option<Vec<char>> = None;
    let mut model: Option<Vec<char>> = None;
    let mut has_long_mode = false;
    let mut i: usize = 0;
    proof {
        assert(lv.take(0) =~= Seq::<Seq<char>>::empty());
    }
    while i < ls.len()
        invariant
            i <= ls.len(),
            lv == text::pieces(ls@),
            vendor_key@ == "vendor_id"@,
            model_key@ == "model name"@,
            flags_key@ == "flags"@,
            (match vendor {
                Some(v) => Some(v@),
                None => None,
            }) == first_value_of(lv.take(i as int), "vendor_id"@),
            (match model {
                Some(v) => Some(v@),
                None => None,
            }) == first_value_of(lv.take(i as int), "model name"@),
            has_long_mode == lists_long_mode(lv.take(i as int)),
        decreases ls.len() - i,
    {
        let ghost pre = lv.take(i as int);
        proof {
            reveal_strlit("vendor_id");
            reveal_strlit("model name");
            reveal_strlit("flags");
            assert("vendor_id"@.len() == 9 && "model name"@.len() == 10 && "flags"@.len() == 5);
            assert(lv[i as int] == ls@[i as int]@);
            assert(lv.take(i + 1) =~= pre.push(ls@[i as int]@));
            lemma_first_value_push(pre, ls@[i as int]@, "vendor_id"@);
            lemma_first_value_push(pre, ls@[i as int]@, "model name"@);
        }
        let mut long_mode_here = false;
        match text::split_once_char(&ls[i], ':') {
            Some((k, v)) => {
                let key = text::trim_chars(&k);
                let value = text::trim_chars(&v);
                if text::chars_eq(&key, &vendor_key) {
                    if vendor.is_none() {
                        vendor = Some(value.clone());
                    }
                } else if text::chars_eq(&key, &model_key) {
                    if model.is_none() {
                        model = Some(value.clone());
                    }
                } else if text::chars_eq(&key, &flags_key) {
                    let ws = text::split_whitespace(&value);
                    long_mode_here = contains_word(&ws, "lm");
                }
            },
            None => {},
        }
        proof {
            let post = lv.take(i + 1);
            assert(long_mode_here == flags_lm(lv[i as int]));
            if has_long_mode {
                let w = choose|w: int| 0 <= w < pre.len() && #[trigger] flags_lm(pre[w]);
                assert(post[w] == pre[w]);
            }
            if long_mode_here {
                assert(post[i as int] == lv[i as int]);
            }
            if lists_long_mode(post) {
                let w = choose|w: int| 0 <= w < post.len() && #[trigger] flags_lm(post[w]);
                if w < i {
                    assert(pre[w] == post[w]);
                } else {
                    assert(post[w] == lv[i as int]);
                }
            }
        }
        has_long_mode = has_long_mode || long_mode_here;
        i += 1;
    }
    assert(lv.take(ls.len() as int) =~= lv);
    let vendor = match vendor {
        Some(v) => v,
        None => return Err(TopologyError::MissingVendor),
    };
    let model = match model {
        Some(m) => m,
        None => return Err(TopologyError::MissingModelName),
    };
    Ok(CpuInfoSummary {
        vendor: text::string_from_chars(&vendor),
        model_name: text::string_from_chars(&model),
        has_long_mode,
    })
}


// ---------------------------------------------------------------------------
// Building the topology
// ---------------------------------------------------------------------------

/// The physical core ids named in the (logical, physical) pairs.
pub open spec fn phys_ids(ids: Seq<(u32, u32)>) -> Set<u32> {
    Set::new(|p: u32| exists|k: int| 0 <= k < ids.len() && (#[trigger] ids[k]).1 == p)
}

/// The logical CPUs paired with physical core `p`.
pub open spec fn logicals_of(ids: Seq<(u32, u32)>, p: u32) -> Set<u32> {
    Set::new(|l: u32| exists|k: int| 0 <= k < ids.len() && #[trigger] ids[k] == (l, p))
}

/// The core map of the pairs: each physical core with its logical CPUs,
/// in increasing order and without repeats.
pub open spec fn core_map_of(ids: Seq<(u32, u32)>, m: Map<u32, Vec<u32>>) -> bool {
    &&& m.dom() == phys_ids(ids)
    &&& forall|p: u32| #[trigger] m.contains_key(p) ==> strictly_increasing(m[p]@) && m[p]@.to_set() == logicals_of(ids, p)
}

/// The model name: the cpuinfo one, or when it is empty the brand, else
/// "unknown model".
pub open spec fn model_choice(model: Seq<char>, brand: Option<String>) -> Seq<char> {
    if model.len() == 0 {
        match brand {
            Some(b) => b@,
            None => "unknown model"@,
        }
    } else {
        model
    }
}

proof fn lemma_pairs_push(ids: Seq<(u32, u32)>, l: u32, p: u32)
    ensures
        phys_ids(ids.push((l, p))) == phys_ids(ids).insert(p),
        forall|q: u32| #[trigger] logicals_of(ids.push((l, p)), q) == if q == p {
            logicals_of(ids, q).insert(l)
        } else {
            logicals_of(ids, q)
        },
{
    let ids2 = ids.push((l, p));
    assert(phys_ids(ids2) =~= phys_ids(ids).insert(p)) by {
        assert(ids2[ids.len() as int] == (l, p));
        assert forall|x: u32| phys_ids(ids).contains(x) implies phys_ids(ids2).contains(x) by {
            let k = choose|k: int| 0 <= k < ids.len() && (#[trigger] ids[k]).1 == x;
            assert(ids2[k] == ids[k]);
        }
        assert forall|x: u32| phys_ids(ids2).contains(x) implies phys_ids(ids).insert(p).contains(x) by {
            let k = choose|k: int| 0 <= k < ids2.len() && (#[trigger] ids2[k]).1 == x;
            if k < ids.len() {
                assert(ids[k] == ids2[k]);
            }
        }
    }
    assert forall|q: u32| #[trigger] logicals_of(ids2, q) == if q == p {
        logicals_of(ids, q).insert(l)
    } else {
        logicals_of(ids, q)
    } by {
        let target = if q == p {
            logicals_of(ids, q).insert(l)
        } else {
            logicals_of(ids, q)
        };
        assert(ids2[ids.len() as int] == (l, p));
        assert forall|x: u32| logicals_of(ids2, q).contains(x) implies target.contains(x) by {
            let k = choose|k: int| 0 <= k < ids2.len() && #[trigger] ids2[k] == (x, q);
            if k < ids.len() {
                assert(ids[k] == ids2[k]);
            }
        }
        assert forall|x: u32| target.contains(x) implies logicals_of(ids2, q).contains(x) by {
            if logicals_of(ids, q).contains(x) {
                let k = choose|k: int| 0 <= k < ids.len() && #[trigger] ids[k] == (x, q);
                assert(ids2[k] == ids[k]);
            }
        }
        assert(logicals_of(ids2, q) =~= target);
    }
}

proof fn lemma_increasing_bound(s: Seq<u32>, i: int)
    requires
        strictly_increasing(s),
        0 <= i < s.len(),
    ensures
        s[i] >= i,
    decreases i,
{
    if i > 0 {
        lemma_increasing_bound(s, i - 1);
    }
}

proof fn lemma_increasing_unique(s: Seq<u32>)
    requires
        strictly_increasing(s),
    ensures
        s.no_duplicates(),
        s.to_set().len() == s.len(),
        s.len() <= 0x1_0000_0000,
{
    assert(s.no_duplicates()) by {
        assert forall|i: int, j: int| 0 <= i < s.len() && 0 <= j < s.len() && i != j implies s[i] != s[j] by {
            if i < j {
                assert(s[i] < s[j]);
            } else {
                assert(s[j] < s[i]);
            }
        }
    }
    s.unique_seq_to_set();
    if s.len() > 0 {
        lemma_increasing_bound(s, s.len() - 1);
    }
}

/// Builds the map from physical core to its logical CPUs, and the sorted
/// physical core ids.
fn build_core_map(core_ids: &[(u32, u32)]) -> (r: (BTreeMap<u32, Vec<u32>>, Vec<u32>))
    ensures
        core_map_of(core_ids@, r.0@),
        strictly_increasing(r.1@),
        r.1@.to_set() == phys_ids(core_ids@),
{
    broadcast use vstd::std_specs::btree::group_btree_axioms;
    let mut core_map: BTreeMap<u32, Vec<u32>> = BTreeMap::new();
    let mut phys: Vec<u32> = Vec::new();
    let mut i: usize = 0;
    proof {
        assert(phys_ids(core_ids@.take(0)) =~= Set::<u32>::empty());
        assert(core_map@.dom() =~= Set::<u32>::empty());
        assert(phys@.to_set() =~= Set::<u32>::empty());
    }
    while i < core_ids.len()
        invariant
            i <= core_ids.len(),
            core_map_of(core_ids@.take(i as int), core_map@),
            strictly_increasing(phys@),
            phys@.to_set() == phys_ids(core_ids@.take(i as int)),
        decreases core_ids.len() - i,
    {
        let (l, p) = core_ids[i];
        let ghost pre = core_ids@.take(i as int);
        let ghost before = core_map@;
        proof {
            assert(core_ids@.take(i + 1) =~= pre.push((l, p)));
            lemma_pairs_push(pre, l, p);
        }
        let mut list: Vec<u32> = match core_map.remove(&p) {
            Some(v) => v,
            None => {
                proof {
                    assert(!before.contains_key(p));
                    assert(logicals_of(pre, p) =~= Set::<u32>::empty()) by {
                        assert forall|x: u32| !logicals_of(pre, p).contains(x) by {
                            if logicals_of(pre, p).contains(x) {
                                let k = choose|k: int| 0 <= k < pre.len() && #[trigger] pre[k] == (x, p);
                                assert(phys_ids(pre).contains(p));
                            }
                        }
                    }
                    assert(Seq::<u32>::empty().to_set() =~= Set::<u32>::empty());
                }
                Vec::new()
            },
        };
        let ghost list_before = list@;
        proof {
            if before.contains_key(p) {
                assert(list_before == before[p]@);
            }
            assert(list_before.to_set() == logicals_of(pre, p));
        }
        insert_sorted(&mut list, l);
        core_map.insert(p, list);
        insert_sorted(&mut phys, p);
        proof {
            let post = core_ids@.take(i + 1);
            assert(core_map@.dom() =~= phys_ids(post));
            assert forall|q: u32| #[trigger] core_map@.contains_key(q) implies strictly_increasing(core_map@[q]@)
                && core_map@[q]@.to_set() == logicals_of(post, q) by {
                if q != p {
                    assert(core_map@[q] == before[q]);
                }
            }
        }
        i += 1;
    }
    assert(core_ids@.take(core_ids.len() as int) =~= core_ids@);
    (core_map, phys)
}

/// Numbers the physical cores 0, 1, ... in increasing order.
fn build_numbering(phys: &Vec<u32>) -> (r: (BTreeMap<u32, u32>, BTreeMap<u32, u32>))
    requires
        strictly_increasing(phys@),
    ensures
        numbering(phys@.to_set(), r.0@, r.1@),
{
    broadcast use vstd::std_specs::btree::group_btree_axioms;
    proof {
        lemma_increasing_unique(phys@);
    }
    let mut bios: BTreeMap<u32, u32> = BTreeMap::new();
    let mut physical: BTreeMap<u32, u32> = BTreeMap::new();
    let mut i: usize = 0;
    while i < phys.len()
        invariant
            i <= phys.len(),
            phys.len() <= 0x1_0000_0000,
            strictly_increasing(phys@),
            bios@.dom() == phys@.take(i as int).to_set(),
            forall|k: int| 0 <= k < i ==> #[trigger] bios@[phys@[k]] == k,
            forall|b: u32| #[trigger] physical@.contains_key(b) <==> b < i,
            forall|b: u32| b < i ==> #[trigger] physical@[b] == phys@[b as int],
        decreases phys.len() - i,
    {
        let idx: u32 = i as u32;
        bios.insert(phys[i], idx);
        physical.insert(idx, phys[i]);
        proof {
            assert(phys@.take(i + 1) =~= phys@.take(i as int).push(phys@[i as int]));
            phys@.take(i as int).lemma_push_to_set_commute(phys@[i as int]);
            assert forall|k: int| 0 <= k < i + 1 implies #[trigger] bios@[phys@[k]] == k by {
                if k < i {
                    assert(phys@[k] < phys@[i as int]);
                }
            }
        }
        i += 1;
    }
    proof {
        assert(phys@.take(phys.len() as int) =~= phys@);
        let dom = phys@.to_set();
        assert forall|p: u32| #[trigger] dom.contains(p) implies bios@[p] < dom.len() by {
            let k = choose|k: int| 0 <= k < phys@.len() && phys@[k] == p;
            assert(bios@[phys@[k]] == k);
        }
        assert forall|p: u32, q: u32| dom.contains(p) && dom.contains(q) && p < q implies #[trigger] bios@[p] < #[trigger] bios@[q] by {
            let a = choose|a: int| 0 <= a < phys@.len() && phys@[a] == p;
            let b = choose|b: int| 0 <= b < phys@.len() && phys@[b] == q;
            assert(bios@[phys@[a]] == a);
            assert(bios@[phys@[b]] == b);
            if b <= a {
                if b < a {
                    assert(phys@[b] < phys@[a]);
                }
            }
        }
        assert forall|b: u32| b < dom.len() implies dom.contains(#[trigger] physical@[b]) && bios@[physical@[b]] == b by {
            assert(physical@[b] == phys@[b as int]);
            assert(bios@[phys@[b as int]] == b);
        }
    }
    (bios, physical)
}

/// The topology of an AMD 64-bit CPU from /proc/cpuinfo, the (logical
/// CPU, physical core) pairs of sysfs, and the brand and frequency that
/// sysinfo reports (`None`: not asked). Refused: a cpuinfo without vendor
/// or model name, a vendor other than AuthenticAMD, a CPU without long
/// mode, an empty CPU list; in that order.
pub fn detect_cpu_topology_from_parsed_sources(
    cpuinfo_content: &str,
    core_ids: &[(u32, u32)],
    sysinfo_override: Option<(Option<String>, Option<u64>)>,
) -> (r: Result<CpuTopology, TopologyError>)
    ensures
        match cpuinfo_spec(cpuinfo_content@) {
            Err(f) => r == Err::<CpuTopology, TopologyError>(f),
            Ok((vendor, model, lm)) => if vendor != "AuthenticAMD"@ {
                r matches Err(TopologyError::UnsupportedVendor { vendor: v }) && v@ == vendor
            } else if !lm {
                r == Err::<CpuTopology, TopologyError>(TopologyError::NoLongMode)
            } else if core_ids.len() == 0 {
                r == Err::<CpuTopology, TopologyError>(TopologyError::NoLogicalCpus)
            } else {
                r matches Ok(t) && {
                    let (brand, freq) = match sysinfo_override {
                        Some(o) => o,
                        None => (None, None),
                    };
                    &&& t.vendor@ == vendor
                    &&& t.model_name@ == model_choice(model, brand)
                    &&& t.logical_cpu_count == core_ids.len()
                    &&& core_map_of(core_ids@, t.core_map@)
                    &&& topology_wf(t)
                    &&& t.cpu_brand == brand
                    &&& t.cpu_frequency_mhz == freq
                }
            },
        },
{
    broadcast use vstd::std_specs::btree::group_btree_axioms;
    let cpu_info = match parse_cpuinfo(cpuinfo_content) {
        Ok(c) => c,
        Err(e) => return Err(e),
    };
    let amd = text::lit("AuthenticAMD");
    let vendor_chars = text::chars_of(cpu_info.vendor.as_str());
    if !text::chars_eq(&vendor_chars, &amd) {
        return Err(TopologyError::UnsupportedVendor { vendor: cpu_info.vendor });
    }
    if !cpu_info.has_long_mode {
        return Err(TopologyError::NoLongMode);
    }
    if core_ids.len() == 0 {
        return Err(TopologyError::NoLogicalCpus);
    }
    let (core_map, phys) = build_core_map(core_ids);
    let (bios_map, physical_map) = build_numbering(&phys);
    let (cpu_brand, cpu_frequency_mhz) = match sysinfo_override {
        Some(o) => o,
        None => (None, None),
    };
    let model_name = if cpu_info.model_name.as_str().unicode_len() == 0 {
        match &cpu_brand {
            Some(b) => b.clone(),
            None => "unknown model".to_owned(),
        }
    } else {
        cpu_info.model_name
    };
    proof {
        lemma_increasing_unique(phys@);
    }
    let physical_core_count = core_map.len();
    let t = CpuTopology {
        vendor: cpu_info.vendor,
        model_name,
        physical_core_count,
        logical_cpu_count: core_ids.len(),
        core_map,
        bios_map,
        physical_map,
        cpu_brand,
        cpu_frequency_mhz,
    };
    Ok(t)
}


// ---------------------------------------------------------------------------
// sysfs names and CPU lists
// ---------------------------------------------------------------------------

/// The logical CPU number of a sysfs directory name `cpuN`.
pub open spec fn cpu_directory_spec(name: Seq<char>) -> Option<u32> {
    if name.len() > 3 && name.take(3) == "cpu"@ {
        text::parse_u32_spec(name.skip(3))
    } else {
        None
    }
}

pub fn parse_cpu_directory_name(name: &str) -> (r: Option<u32>)
    ensures
        r == cpu_directory_spec(name@),
{
    proof {
        reveal_strlit("cpu");
    }
    let c = text::chars_of(name);
    if c.len() <= 3 || c[0] != 'c' || c[1] != 'p' || c[2] != 'u' {
        proof {
            if c@.len() > 3 {
                assert(c@.take(3) != "cpu"@) by {
                    if c@[0] != 'c' {
                        assert(c@.take(3)[0] != "cpu"@[0]);
                    } else if c@[1] != 'p' {
                        assert(c@.take(3)[1] != "cpu"@[1]);
                    } else {
                        assert(c@.take(3)[2] != "cpu"@[2]);
                    }
                }
            }
        }
        return None;
    }
    assert(c@.take(3) =~= "cpu"@);
    let suffix = text::slice_chars(&c, 3, c.len());
    assert(suffix@ =~= c@.skip(3));
    text::parse_u32(&suffix)
}

/// Why a CPU list was refused; the texts are the offending parts.
#[derive(Debug, Clone, PartialEq, Eq)]
pub enum CpuListError {
    Empty,
    InvalidRangeStart(String),
    InvalidRangeEnd(String),
    ReversedRange(String),
    InvalidId(String),
    NoEntries,
}

/// An error as a kind number and its text.
pub open spec fn cpu_list_error_view(e: CpuListError) -> (int, Seq<char>) {
    match e {
        CpuListError::Empty => (0, seq![]),
        CpuListError::InvalidRangeStart(t) => (1, t@),
        CpuListError::InvalidRangeEnd(t) => (2, t@),
        CpuListError::ReversedRange(t) => (3, t@),
        CpuListError::InvalidId(t) => (4, t@),
        CpuListError::NoEntries => (5, seq![]),
    }
}

impl CpuListError {
    pub open spec fn message_spec(&self) -> Seq<char> {
        match *self {
            CpuListError::Empty => "CPU list is empty"@,
            CpuListError::InvalidRangeStart(t) => "invalid CPU range start '"@ + t@ + "'"@,
            CpuListError::InvalidRangeEnd(t) => "invalid CPU range end '"@ + t@ + "'"@,
            CpuListError::ReversedRange(t) => "invalid CPU range '"@ + t@ + "': start is greater than end"@,
            CpuListError::InvalidId(t) => "invalid CPU identifier '"@ + t@ + "'"@,
            CpuListError::NoEntries => "CPU list did not contain any entries"@,
        }
    }

    /// The error's text.
    pub fn message(&self) -> (m: String)
        ensures
            m@ == self.message_spec(),
    {
        let (head, part, tail) = match self {
            CpuListError::Empty => return "CPU list is empty".to_owned(),
            CpuListError::InvalidRangeStart(t) => ("invalid CPU range start '", t, "'"),
            CpuListError::InvalidRangeEnd(t) => ("invalid CPU range end '", t, "'"),
            CpuListError::ReversedRange(t) => ("invalid CPU range '", t, "': start is greater than end"),
            CpuListError::InvalidId(t) => ("invalid CPU identifier '", t, "'"),
            CpuListError::NoEntries => return "CPU list did not contain any entries".to_owned(),
        };
        let mut v = text::lit(head);
        text::push_str(&mut v, part.as_str());
        text::push_str(&mut v, tail);
        text::string_from_chars(&v)
    }
}

/// The CPUs `start..=end`.
pub open spec fn cpu_range(start: u32, end: u32) -> Set<u32> {
    Set::new(|x: u32| start <= x <= end)
}

/// The CPUs `start..x`.
pub open spec fn cpu_range_below(start: u32, x: u32) -> Set<u32> {
    Set::new(|y: u32| start <= y < x)
}

/// An error in the first `k` pieces is the error of the whole list.
proof fn lemma_pieces_err(ps: Seq<Seq<char>>, k: int)
    requires
        0 <= k <= ps.len(),
        pieces_cpus(ps.take(k)) is Err,
    ensures
        pieces_cpus(ps) == pieces_cpus(ps.take(k)),
    decreases ps.len() - k,
{
    if k < ps.len() {
        assert(ps.take(k + 1).drop_last() =~= ps.take(k));
        lemma_pieces_err(ps, k + 1);
    } else {
        assert(ps.take(k) =~= ps);
    }
}

/// The CPUs of one token of a CPU list: `N` or `A-B` (inclusive).
pub open spec fn token_cpus(token: Seq<char>) -> Result<Set<u32>, (int, Seq<char>)> {
    match text::split_once(token, '-') {
        Some((a, b)) => match (text::parse_u32_spec(text::trim(a)), text::parse_u32_spec(text::trim(b))) {
            (None, _) => Err((1, text::trim(a))),
            (Some(_), None) => Err((2, text::trim(b))),
            (Some(start), Some(end)) => if start > end {
                Err((3, token))
            } else {
                Ok(cpu_range(start, end))
            },
        },
        None => match text::parse_u32_spec(token) {
            Some(v) => Ok(set![v]),
            None => Err((4, token)),
        },
    }
}

/// The CPUs of the comma-separated pieces, trimmed, skipping empty ones;
/// the first bad piece decides the error.
pub open spec fn pieces_cpus(ps: Seq<Seq<char>>) -> Result<Set<u32>, (int, Seq<char>)>
    decreases ps.len(),
{
    if ps.len() == 0 {
        Ok(Set::empty())
    } else {
        match pieces_cpus(ps.drop_last()) {
            Err(e) => Err(e),
            Ok(acc) => {
                let t = text::trim(ps.last());
                if t.len() == 0 {
                    Ok(acc)
                } else {
                    match token_cpus(t) {
                        Err(e) => Err(e),
                        Ok(more) => Ok(acc.union(more)),
                    }
                }
            },
        }
    }
}

/// A CPU list such as `0-3,8,10-11`: its CPUs in increasing order.
pub open spec fn cpu_list_spec(input: Seq<char>) -> Result<Set<u32>, (int, Seq<char>)> {
    if input.len() == 0 {
        Err((0, seq![]))
    } else {
        match pieces_cpus(text::split_on(input, ',')) {
            Err(e) => Err(e),
            Ok(cpus) => if cpus.len() == 0 {
                Err((5, seq![]))
            } else {
                Ok(cpus)
            },
        }
    }
}

/// Adds `start..=end` to a strictly increasing vector.
fn insert_range(v: &mut Vec<u32>, start: u32, end: u32)
    requires
        strictly_increasing(old(v)@),
        start <= end,
    ensures
        strictly_increasing(final(v)@),
        final(v)@.to_set() == old(v)@.to_set().union(cpu_range(start, end)),
{
    let ghost base = v@.to_set();
    let mut x: u32 = start;
    assert(base.union(cpu_range_below(start, start)) =~= base);
    loop
        invariant
            start <= x <= end,
            strictly_increasing(v@),
            base == old(v)@.to_set(),
            v@.to_set() == base.union(cpu_range_below(start, x)),
        decreases end - x,
    {
        insert_sorted(v, x);
        if x == end {
            assert(v@.to_set() =~= base.union(cpu_range(start, end)));
            return;
        }
        assert(v@.to_set() =~= base.union(cpu_range_below(start, (x + 1) as u32)));
        x += 1;
    }
}

fn opt_string(v: &Vec<char>) -> (s: String)
    ensures
        s@ == v@,
{
    text::string_from_chars(v)
}

/// Parses a sysfs CPU list such as `0-3,8,10-11` into its CPUs, in
/// increasing order without repeats.
pub fn parse_cpu_list(input: &str) -> (r: Result<Vec<u32>, CpuListError>)
    ensures
        match (r, cpu_list_spec(input@)) {
            (Ok(v), Ok(cpus)) => strictly_increasing(v@) && v@.to_set() == cpus,
            (Err(e), Err(f)) => cpu_list_error_view(e) == f,
            _ => false,
        },
{
    let chars = text::chars_of(input);
    if chars.len() == 0 {
        return Err(CpuListError::Empty);
    }
    let ps = text::split_chars(&chars, ',');
    let ghost pv = text::pieces(ps@);
    let mut cpus: Vec<u32> = Vec::new();
    let mut i: usize = 0;
    proof {
        assert(pv.take(0) =~= Seq::<Seq<char>>::empty());
        assert(cpus@.to_set() =~= Set::<u32>::empty());
    }
    while i < ps.len()
        invariant
            i <= ps.len(),
            pv == text::pieces(ps@),
            pv == text::split_on(input@, ','),
            input@.len() > 0,
            strictly_increasing(cpus@),
            pieces_cpus(pv.take(i as int)) == Ok::<Set<u32>, (int, Seq<char>)>(cpus@.to_set()),
        decreases ps.len() - i,
    {
        proof {
            assert(pv.take(i + 1).drop_last() =~= pv.take(i as int));
            assert(pv.take(i + 1).last() == ps@[i as int]@);
        }
        let token = text::trim_chars(&ps[i]);
        if token.len() > 0 {
            match text::split_once_char(&token, '-') {
                Some((a, b)) => {
                    let ta = text::trim_chars(&a);
                    let tb = text::trim_chars(&b);
                    let start = match text::parse_u32(&ta) {
                        Some(v) => v,
                        None => {
                            proof {
                                lemma_pieces_err(pv, i + 1);
                            }
                            return Err(CpuListError::InvalidRangeStart(opt_string(&ta)));
                        },
                    };
                    let end = match text::parse_u32(&tb) {
                        Some(v) => v,
                        None => {
                            proof {
                                lemma_pieces_err(pv, i + 1);
                            }
                            return Err(CpuListError::InvalidRangeEnd(opt_string(&tb)));
                        },
                    };
                    if start > end {
                        proof {
                            lemma_pieces_err(pv, i + 1);
                        }
                        return Err(CpuListError::ReversedRange(opt_string(&token)));
                    }
                    insert_range(&mut cpus, start, end);
                },
                None => {
                    match text::parse_u32(&token) {
                        Some(v) => {
                            let ghost before = cpus@.to_set();
                            insert_sorted(&mut cpus, v);
                            assert(before.union(set![v]) =~= before.insert(v));
                        },
                        None => {
                            proof {
                                lemma_pieces_err(pv, i + 1);
                            }
                            return Err(CpuListError::InvalidId(opt_string(&token)));
                        },
                    }
                },
            }
        }
        i += 1;
    }
    assert(pv.take(ps.len() as int) =~= pv);
    proof {
        lemma_increasing_unique(cpus@);
    }
    if cpus.len() == 0 {
        return Err(CpuListError::NoEntries);
    }
    Ok(cpus)
}

} // verus!
