//! Which physical core a logical CPU's load is counted for.
use crate::cpu_topology;
use std::collections::BTreeMap;
use vstd::prelude::*;

verus! {

/// The physical core that owns a logical CPU: the smallest physical id
/// whose logical CPUs include it.
pub open spec fn owner_spec(m: Map<u32, Vec<u32>>, logical_id: u32) -> Option<u32> {
    if exists|p: u32| m.contains_key(p) && (#[trigger] m[p])@.contains(logical_id) {
        Some(
            choose|p: u32|
                m.contains_key(p) && (#[trigger] m[p])@.contains(logical_id) && forall|q: u32|
                    m.contains_key(q) && (#[trigger] m[q])@.contains(logical_id) ==> p <= q,
        )
    } else {
        None
    }
}

/// The physical core whose logical CPUs include `logical_id`, searching
/// the cores in increasing order.
pub fn owning_core(logical_id: u32, core_map: &BTreeMap<u32, Vec<u32>>) -> (r: Option<u32>)
    ensures
        r == owner_spec(core_map@, logical_id),
{
    broadcast use vstd::std_specs::btree::group_btree_axioms;
    let keys = cpu_topology::sorted_keys(core_map);
    let ghost m = core_map@;
    let mut i: usize = 0;
    while i < keys.len()
        invariant
            i <= keys.len(),
            m == core_map@,
            cpu_topology::strictly_increasing(keys@),
            keys@.to_set() == m.dom(),
            forall|j: int| 0 <= j < i ==> !(#[trigger] m[keys@[j]])@.contains(logical_id),
        decreases keys.len() - i,
    {
        let p = keys[i];
        assert(keys@.to_set().contains(p));
        let cpus = core_map.get(&p).unwrap();
        let mut k: usize = 0;
        let mut found = false;
        while k < cpus.len()
            invariant
                k <= cpus.len(),
                found ==> cpus@.contains(logical_id),
                !found ==> forall|j: int| 0 <= j < k ==> cpus@[j] != logical_id,
            decreases cpus.len() - k,
        {
            if cpus[k] == logical_id {
                found = true;
            }
            k = k + 1;
        }
        if found {
            proof {
                assert forall|q: u32| m.contains_key(q) && (#[trigger] m[q])@.contains(logical_id) implies p <= q by {
                    assert(keys@.to_set().contains(q));
                    let j = choose|j: int| 0 <= j < keys@.len() && keys@[j] == q;
                    if j < i {
                        assert(!m[keys@[j]]@.contains(logical_id));
                    }
                }
                let w = choose|w: u32|
                    m.contains_key(w) && (#[trigger] m[w])@.contains(logical_id) && forall|q: u32|
                        m.contains_key(q) && (#[trigger] m[q])@.contains(logical_id) ==> w <= q;
                assert(w <= p && p <= w);
            }
            return Some(p);
        }
        i = i + 1;
    }
    proof {
        assert forall|p: u32| m.contains_key(p) implies !(#[trigger] m[p])@.contains(logical_id) by {
            assert(keys@.to_set().contains(p));
            let j = choose|j: int| 0 <= j < keys@.len() && keys@[j] == p;
            assert(!m[keys@[j]]@.contains(logical_id));
        }
    }
    None
}

} // verus!
