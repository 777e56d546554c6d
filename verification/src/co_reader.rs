//! Reading per-core Curve Optimizer offsets from AOD_SETUP bytes: the
//! AGESA layout table first, the heuristic scanner as fallback.
use crate::co_decoder::{decode_co_bytes, decode_spec};
use crate::co_heuristic::{scan_for_co_pattern, scan_spec, best_of, candidates_upto, candidate_at, first_valid_offset};
use crate::co_heuristic::HeuristicConfidence;
use crate::co_offsets::{lookup_co_layout, lookup_co_layout_spec, CoByteLayout};
use std::collections::BTreeMap;
use vstd::prelude::*;

verus! {

/// The offsets `try_decode_co` returns: decoded with the table layout when
/// the AGESA version has one, else with the heuristically found layout,
/// else none.
pub open spec fn try_decode_spec(data: Seq<u8>, agesa_version: Option<Seq<char>>, physical_core_count: int) -> Option<Map<u32, i32>> {
    let table = match agesa_version {
        Some(v) => lookup_co_layout_spec(v),
        None => None,
    };
    match table {
        Some(layout) => Some(decode_spec(data, layout, physical_core_count).1),
        None => match scan_spec(data, physical_core_count) {
            Some((layout, _)) => Some(decode_spec(data, layout, physical_core_count).1),
            None => None,
        },
    }
}

proof fn lemma_first_valid_bounded(data: Seq<u8>, n: int, expected: int, lo: int, hi: int)
    ensures
        match first_valid_offset(data, n, expected, lo, hi) {
            Some(o) => lo <= o <= hi,
            None => true,
        },
    decreases hi - lo + 1,
{
    if lo <= hi {
        lemma_first_valid_bounded(data, n, expected, lo + 1, hi);
    }
}

proof fn lemma_candidates_bounded(data: Seq<u8>, n: int, k: int)
    requires
        0 <= k <= data.len(),
        data.len() + 0x100 <= usize::MAX,
    ensures
        forall|i: int| 0 <= i < candidates_upto(data, n, k).len() ==>
            (#[trigger] candidates_upto(data, n, k)[i]).0.magnitudes_offset <= data.len() + 0x84,
    decreases k,
{
    if k > 0 {
        lemma_candidates_bounded(data, n, k - 1);
        let signs = k - 1 + 4;
        let expected = signs + 0x40;
        if 2 * n <= usize::MAX {
            let max_bound = if data.len() >= 2 * n {
                data.len() - 2 * n
            } else {
                0
            };
            let max_start = if signs + 0x80 < max_bound {
                signs + 0x80
            } else {
                max_bound
            };
            lemma_first_valid_bounded(data, n, expected, signs + 4, max_start);
        }
        let prev = candidates_upto(data, n, k - 1);
        match candidate_at(data, n, k - 1) {
            Some(c) => {
                assert(c.0.magnitudes_offset <= data.len() + 0x84);
                assert(candidates_upto(data, n, k) == prev.push(c));
                assert forall|i: int| 0 <= i < candidates_upto(data, n, k).len() implies
                    (#[trigger] candidates_upto(data, n, k)[i]).0.magnitudes_offset <= data.len() + 0x84 by {
                    if i < prev.len() {
                        assert(candidates_upto(data, n, k)[i] == prev[i]);
                    }
                }
            },
            None => {
                assert(candidates_upto(data, n, k) == prev);
            },
        }
    }
}

proof fn lemma_best_is_member(cands: Seq<(CoByteLayout, HeuristicConfidence)>, middle: int)
    ensures
        match best_of(cands, middle) {
            Some(c) => cands.contains(c),
            None => true,
        },
    decreases cands.len(),
{
    if cands.len() > 0 {
        lemma_best_is_member(cands.drop_last(), middle);
        match best_of(cands.drop_last(), middle) {
            Some(p) => {
                let j = choose|j: int| 0 <= j < cands.drop_last().len() && cands.drop_last()[j] == p;
                assert(cands[j] == p);
            },
            None => {},
        }
        assert(cands[cands.len() - 1] == cands.last());
    }
}

/// Decodes CO offsets from raw AOD_SETUP bytes using the layout table, then
/// the heuristic scanner.
pub fn try_decode_co(aod_data: &[u8], agesa_version: Option<&str>, physical_core_count: usize) -> (r: Option<BTreeMap<u32, i32>>)
    requires
        aod_data.len() + 0x100 <= usize::MAX,
        physical_core_count <= u32::MAX,
    ensures
        match r {
            Some(m) => try_decode_spec(aod_data@, match agesa_version {
                Some(v) => Some(v@),
                None => None,
            }, physical_core_count as int) == Some(m@),
            None => try_decode_spec(aod_data@, match agesa_version {
                Some(v) => Some(v@),
                None => None,
            }, physical_core_count as int) is None,
        },
{
    if let Some(version) = agesa_version {
        if let Some(layout) = lookup_co_layout(version) {
            let decoded = decode_co_bytes(aod_data, &layout, physical_core_count);
            return Some(decoded.per_core_offsets);
        }
    }
    match scan_for_co_pattern(aod_data, physical_core_count) {
        Some((layout, confidence)) => {
            proof {
                if !(aod_data.len() < 100 || physical_core_count < 4) {
                    let cands = candidates_upto(aod_data@, physical_core_count as int, aod_data@.len() as int);
                    lemma_candidates_bounded(aod_data@, physical_core_count as int, aod_data@.len() as int);
                    lemma_best_is_member(cands, (aod_data@.len() / 2) as int);
                    let j = choose|j: int| 0 <= j < cands.len() && cands[j] == (layout, confidence);
                    assert(cands[j].0.magnitudes_offset <= aod_data.len() + 0x84);
                }
            }
            let decoded = decode_co_bytes(aod_data, &layout, physical_core_count);
            Some(decoded.per_core_offsets)
        },
        None => None,
    }
}

} // verus!
