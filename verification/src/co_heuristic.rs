//! Heuristic search for a Curve Optimizer byte pattern in AOD_SETUP data
//! whose AGESA version has no known layout.
use crate::co_decoder::le_u16;
use crate::co_offsets::CoByteLayout;
use vstd::prelude::*;

verus! {

/// How well a found pattern matches the standard layout.
#[derive(Debug, Clone, Copy, PartialEq, Eq, Structural)]
pub enum HeuristicConfidence {
    High,
    Medium,
    Low,
}

#[derive(Debug, Clone)]
struct Candidate {
    layout: CoByteLayout,
    confidence: HeuristicConfidence,
}

/// The three bytes after the mode byte exist and are zero.
pub open spec fn mode_gap_valid(data: Seq<u8>, mode_offset: int) -> bool {
    mode_offset + 4 <= data.len() && forall|j: int|
        mode_offset + 1 <= j < mode_offset + 4 ==> data[j] == 0
}

/// One sign byte per core, each 0 or 1, inside the data.
pub open spec fn signs_valid(data: Seq<u8>, signs_offset: int, core_count: int) -> bool {
    signs_offset + core_count <= data.len() && forall|j: int|
        signs_offset <= j < signs_offset + core_count ==> (data[j] == 0 || data[j] == 1)
}

/// The magnitude of core `i` in a region at `offset`.
pub open spec fn mag_at(data: Seq<u8>, offset: int, i: int) -> int {
    le_u16(data, offset + 2 * i)
}

/// Number of non-zero magnitudes among the first `n` at `offset`.
pub open spec fn nonzero_count(data: Seq<u8>, offset: int, n: nat) -> nat
    decreases n,
{
    if n == 0 {
        0
    } else {
        nonzero_count(data, offset, (n - 1) as nat) + if mag_at(data, offset, n - 1) != 0 {
            1nat
        } else {
            0nat
        }
    }
}

/// One little-endian u16 per core inside the data, each at most 30, and at
/// least half of them non-zero.
pub open spec fn magnitudes_valid(data: Seq<u8>, offset: int, core_count: int) -> bool {
    &&& offset + 2 * core_count <= data.len()
    &&& forall|i: int| 0 <= i < core_count ==> #[trigger] mag_at(data, offset, i) <= 30
    &&& nonzero_count(data, offset, core_count as nat) >= core_count / 2
}

/// The first offset in `[lo, hi]` other than `expected` whose magnitudes
/// region is valid.
pub open spec fn first_valid_offset(
    data: Seq<u8>,
    core_count: int,
    expected: int,
    lo: int,
    hi: int,
) -> Option<int>
    decreases hi - lo + 1,
{
    if lo > hi {
        None
    } else if lo != expected && magnitudes_valid(data, lo, core_count) {
        Some(lo)
    } else {
        first_valid_offset(data, core_count, expected, lo + 1, hi)
    }
}

/// Where a magnitudes region shifted from the standard gap is searched:
/// from 4 bytes after the signs to 0x80 bytes after them, as far as a
/// whole region still fits.
pub open spec fn shifted_offset(data: Seq<u8>, signs_offset: int, core_count: int, expected: int) -> Option<int> {
    if 2 * core_count > usize::MAX {
        None
    } else {
        let max_bound = if data.len() >= 2 * core_count {
            data.len() - 2 * core_count
        } else {
            0
        };
        let max_start = if signs_offset + 0x80 < max_bound {
            signs_offset + 0x80
        } else {
            max_bound
        };
        first_valid_offset(data, core_count, expected, signs_offset + 4, max_start)
    }
}

/// The candidate found at `mode_offset`, if the byte there starts a
/// plausible pattern.
pub open spec fn candidate_at(data: Seq<u8>, core_count: int, mode_offset: int) -> Option<(CoByteLayout, HeuristicConfidence)> {
    let mode = data[mode_offset];
    let signs_offset = mode_offset + 4;
    let expected = signs_offset + 0x40;
    if (mode != 1 && mode != 2) || !mode_gap_valid(data, mode_offset) || !signs_valid(data, signs_offset, core_count) {
        None
    } else if magnitudes_valid(data, expected, core_count) {
        Some((layout_of(mode_offset, expected, core_count), HeuristicConfidence::High))
    } else {
        match shifted_offset(data, signs_offset, core_count, expected) {
            Some(off) => Some((layout_of(mode_offset, off, core_count), HeuristicConfidence::Medium)),
            None => Some((layout_of(mode_offset, expected, core_count), HeuristicConfidence::Low)),
        }
    }
}

pub open spec fn layout_of(mode_offset: int, magnitudes_offset: int, core_count: int) -> CoByteLayout {
    CoByteLayout {
        mode_offset: mode_offset as usize,
        signs_offset: (mode_offset + 4) as usize,
        magnitudes_offset: magnitudes_offset as usize,
        max_cores: core_count as usize,
    }
}

/// All candidates at offsets below `k`, in offset order.
pub open spec fn candidates_upto(data: Seq<u8>, core_count: int, k: int) -> Seq<(CoByteLayout, HeuristicConfidence)>
    decreases k,
{
    if k <= 0 {
        seq![]
    } else {
        let prev = candidates_upto(data, core_count, k - 1);
        match candidate_at(data, core_count, k - 1) {
            Some(c) => prev.push(c),
            None => prev,
        }
    }
}

pub open spec fn rank_of(c: HeuristicConfidence) -> int {
    match c {
        HeuristicConfidence::High => 3,
        HeuristicConfidence::Medium => 2,
        HeuristicConfidence::Low => 1,
    }
}

/// Closeness of a mode offset to the middle of the data (larger is closer).
pub open spec fn distance_spec(mode_offset: int, middle: int) -> int {
    usize::MAX - (if mode_offset >= middle {
        mode_offset - middle
    } else {
        middle - mode_offset
    })
}

/// `a` ranks at least as high as `b`: higher confidence first, then
/// closeness of the mode byte to the middle of the data.
pub open spec fn ranks_at_least(a: (CoByteLayout, HeuristicConfidence), b: (CoByteLayout, HeuristicConfidence), middle: int) -> bool {
    rank_of(a.1) > rank_of(b.1) || (rank_of(a.1) == rank_of(b.1) && distance_spec(
        a.0.mode_offset as int,
        middle,
    ) >= distance_spec(b.0.mode_offset as int, middle))
}

/// The highest-ranked candidate of `cands`; of equally ranked ones the
/// last (`Iterator::max_by_key`).
pub open spec fn best_of(cands: Seq<(CoByteLayout, HeuristicConfidence)>, middle: int) -> Option<(CoByteLayout, HeuristicConfidence)>
    decreases cands.len(),
{
    if cands.len() == 0 {
        None
    } else {
        let last = cands.last();
        match best_of(cands.drop_last(), middle) {
            None => Some(last),
            Some(p) => if ranks_at_least(last, p, middle) {
                Some(last)
            } else {
                Some(p)
            },
        }
    }
}

/// What `scan_for_co_pattern` returns.
pub open spec fn scan_spec(data: Seq<u8>, core_count: int) -> Option<(CoByteLayout, HeuristicConfidence)> {
    if data.len() < 100 || core_count < 4 {
        None
    } else {
        best_of(candidates_upto(data, core_count, data.len() as int), (data.len() / 2) as int)
    }
}

fn read_le_u16(data: &[u8], off: usize) -> (v: u16)
    requires
        off + 2 <= data.len(),
    ensures
        v == le_u16(data@, off as int),
{
    let lo = data[off] as u16;
    let hi = data[off + 1] as u16;
    hi * 256 + lo
}

fn mode_gap_is_valid(data: &[u8], mode_offset: usize) -> (r: bool)
    ensures
        r == mode_gap_valid(data@, mode_offset as int),
{
    let len = data.len();
    if mode_offset > len || len - mode_offset < 4 {
        return false;
    }
    let gap_end = mode_offset + 4;
    let mut j = mode_offset + 1;
    while j < gap_end
        invariant
            mode_offset + 1 <= j <= gap_end <= data.len(),
            gap_end == mode_offset + 4,
            forall|k: int| mode_offset + 1 <= k < j ==> data@[k] == 0,
        decreases gap_end - j,
    {
        if data[j] != 0 {
            return false;
        }
        j += 1;
    }
    true
}

fn signs_region_is_valid(data: &[u8], signs_offset: usize, core_count: usize) -> (r: bool)
    ensures
        r == signs_valid(data@, signs_offset as int, core_count as int),
{
    let len = data.len();
    if signs_offset > len || len - signs_offset < core_count {
        return false;
    }
    let signs_end = signs_offset + core_count;
    let mut j = signs_offset;
    while j < signs_end
        invariant
            signs_offset <= j <= signs_end <= data.len(),
            signs_end == signs_offset + core_count,
            forall|k: int| signs_offset <= k < j ==> (data@[k] == 0 || data@[k] == 1),
        decreases signs_end - j,
    {
        if data[j] != 0 && data[j] != 1 {
            return false;
        }
        j += 1;
    }
    true
}

fn magnitudes_region_is_valid(data: &[u8], magnitudes_offset: usize, core_count: usize) -> (r: bool)
    ensures
        r == magnitudes_valid(data@, magnitudes_offset as int, core_count as int),
{
    let len = data.len();
    if magnitudes_offset > len || core_count > (len - magnitudes_offset) / 2 {
        return false;
    }
    let mut non_zero_count: usize = 0;
    let mut index: usize = 0;
    while index < core_count
        invariant
            index <= core_count,
            magnitudes_offset + 2 * core_count <= data.len(),
            forall|i: int| 0 <= i < index ==> #[trigger] mag_at(data@, magnitudes_offset as int, i) <= 30,
            non_zero_count == nonzero_count(data@, magnitudes_offset as int, index as nat),
            non_zero_count <= index,
        decreases core_count - index,
    {
        let start = magnitudes_offset + index * 2;
        let value = read_le_u16(data, start);
        if value != 0 {
            non_zero_count += 1;
        }
        if value > 30 {
            assert(mag_at(data@, magnitudes_offset as int, index as int) > 30);
            return false;
        }
        index += 1;
    }
    non_zero_count >= core_count / 2
}

fn find_shifted_magnitudes_offset(
    data: &[u8],
    signs_offset: usize,
    core_count: usize,
    expected_magnitudes_offset: usize,
) -> (r: Option<usize>)
    requires
        signs_offset + 0x100 <= usize::MAX,
    ensures
        match r {
            Some(o) => shifted_offset(data@, signs_offset as int, core_count as int, expected_magnitudes_offset as int) == Some(o as int),
            None => shifted_offset(data@, signs_offset as int, core_count as int, expected_magnitudes_offset as int) is None,
        },
{
    if core_count > usize::MAX / 2 {
        return None;
    }
    let span_bytes = core_count * 2;
    let scan_start = signs_offset + 4;
    let scan_limit = signs_offset + 0x80;
    let max_bound = if data.len() >= span_bytes {
        data.len() - span_bytes
    } else {
        0
    };
    let max_start = if scan_limit < max_bound {
        scan_limit
    } else {
        max_bound
    };
    if scan_start > max_start {
        return None;
    }
    assert(shifted_offset(data@, signs_offset as int, core_count as int, expected_magnitudes_offset as int)
        == first_valid_offset(data@, core_count as int, expected_magnitudes_offset as int, scan_start as int, max_start as int));
    let mut offset = scan_start;
    while offset <= max_start
        invariant
            scan_start <= offset <= max_start + 1,
            max_start <= scan_limit,
            scan_limit == signs_offset + 0x80,
            signs_offset + 0x100 <= usize::MAX,
            shifted_offset(data@, signs_offset as int, core_count as int, expected_magnitudes_offset as int)
                == first_valid_offset(data@, core_count as int, expected_magnitudes_offset as int, scan_start as int, max_start as int),
            first_valid_offset(data@, core_count as int, expected_magnitudes_offset as int, scan_start as int, max_start as int)
                == first_valid_offset(data@, core_count as int, expected_magnitudes_offset as int, offset as int, max_start as int),
        decreases max_start + 1 - offset,
    {
        if offset != expected_magnitudes_offset && magnitudes_region_is_valid(data, offset, core_count) {
            return Some(offset);
        }
        offset += 1;
    }
    None
}

fn confidence_rank(confidence: &HeuristicConfidence) -> (r: u8)
    ensures
        r as int == rank_of(*confidence),
{
    match confidence {
        HeuristicConfidence::High => 3,
        HeuristicConfidence::Medium => 2,
        HeuristicConfidence::Low => 1,
    }
}

fn distance_score(mode_offset: usize, middle: usize) -> (r: usize)
    ensures
        r as int == distance_spec(mode_offset as int, middle as int),
{
    let diff = if mode_offset >= middle {
        mode_offset - middle
    } else {
        middle - mode_offset
    };
    usize::MAX - diff
}

spec fn cand_view(c: Candidate) -> (CoByteLayout, HeuristicConfidence) {
    (c.layout, c.confidence)
}

fn pick_best_candidate(candidates: &Vec<Candidate>, data_len: usize) -> (r: Option<(CoByteLayout, HeuristicConfidence)>)
    ensures
        r == best_of(candidates@.map_values(|c: Candidate| cand_view(c)), (data_len / 2) as int),
{
    let middle = data_len / 2;
    let ghost cs = candidates@.map_values(|c: Candidate| cand_view(c));
    let mut best: Option<usize> = None;
    let mut i: usize = 0;
    while i < candidates.len()
        invariant
            i <= candidates.len(),
            middle == data_len / 2,
            cs == candidates@.map_values(|c: Candidate| cand_view(c)),
            match best {
                None => best_of(cs.take(i as int), middle as int) is None,
                Some(b) => b < i && best_of(cs.take(i as int), middle as int) == Some(cs[b as int]),
            },
        decreases candidates.len() - i,
    {
        proof {
            assert(cs.take(i + 1).drop_last() =~= cs.take(i as int));
            assert(cs.take(i + 1).last() == cs[i as int]);
        }
        match best {
            None => {
                best = Some(i);
            },
            Some(b) => {
                assert(cs[i as int] == cand_view(candidates@[i as int]));
                assert(cs[b as int] == cand_view(candidates@[b as int]));
                let rank_new = confidence_rank(&candidates[i].confidence);
                let rank_best = confidence_rank(&candidates[b].confidence);
                let score_new = distance_score(candidates[i].layout.mode_offset, middle);
                let score_best = distance_score(candidates[b].layout.mode_offset, middle);
                if rank_new > rank_best || (rank_new == rank_best && score_new >= score_best) {
                    best = Some(i);
                }
            },
        }
        i += 1;
    }
    assert(cs.len() == candidates@.len());
    assert(cs.take(candidates.len() as int) =~= cs);
    match best {
        None => None,
        Some(b) => {
            assert(cs[b as int] == cand_view(candidates@[b as int]));
            let layout = CoByteLayout {
                mode_offset: candidates[b].layout.mode_offset,
                signs_offset: candidates[b].layout.signs_offset,
                magnitudes_offset: candidates[b].layout.magnitudes_offset,
                max_cores: candidates[b].layout.max_cores,
            };
            Some((layout, candidates[b].confidence))
        },
    }
}

/// Scans AOD_SETUP bytes for a Curve Optimizer pattern: a mode byte (1 or
/// 2) followed by three zero bytes, one 0/1 sign byte per core, and a region
/// of plausible magnitudes 0x40 bytes after the signs (High), elsewhere
/// within 0x80 bytes (Medium), or nowhere (Low). The best candidate by
/// confidence, then by closeness to the middle of the data, is returned.
pub fn scan_for_co_pattern(data: &[u8], physical_core_count: usize) -> (r: Option<(CoByteLayout, HeuristicConfidence)>)
    requires
        data.len() + 0x100 <= usize::MAX,
    ensures
        r == scan_spec(data@, physical_core_count as int),
{
    if data.len() < 100 || physical_core_count < 4 {
        return None;
    }
    let mut candidates: Vec<Candidate> = Vec::new();
    let mut mode_offset: usize = 0;
    while mode_offset < data.len()
        invariant
            mode_offset <= data.len(),
            data.len() + 0x100 <= usize::MAX,
            candidates@.map_values(|c: Candidate| cand_view(c)) == candidates_upto(
                data@,
                physical_core_count as int,
                mode_offset as int,
            ),
        decreases data.len() - mode_offset,
    {
        let ghost before = candidates@;
        let mode = data[mode_offset];
        let signs_offset = mode_offset + 4;
        let expected_magnitudes_offset = signs_offset + 0x40;
        if mode == 0x01 || mode == 0x02 {
            if mode_gap_is_valid(data, mode_offset) {
                if signs_region_is_valid(data, signs_offset, physical_core_count) {
                    if magnitudes_region_is_valid(data, expected_magnitudes_offset, physical_core_count) {
                        candidates.push(Candidate {
                            layout: CoByteLayout {
                                mode_offset,
                                signs_offset,
                                magnitudes_offset: expected_magnitudes_offset,
                                max_cores: physical_core_count,
                            },
                            confidence: HeuristicConfidence::High,
                        });
                    } else {
                        match find_shifted_magnitudes_offset(
                            data,
                            signs_offset,
                            physical_core_count,
                            expected_magnitudes_offset,
                        ) {
                            Some(magnitudes_offset) => {
                                candidates.push(Candidate {
                                    layout: CoByteLayout {
                                        mode_offset,
                                        signs_offset,
                                        magnitudes_offset,
                                        max_cores: physical_core_count,
                                    },
                                    confidence: HeuristicConfidence::Medium,
                                });
                            },
                            None => {
                                candidates.push(Candidate {
                                    layout: CoByteLayout {
                                        mode_offset,
                                        signs_offset,
                                        magnitudes_offset: expected_magnitudes_offset,
                                        max_cores: physical_core_count,
                                    },
                                    confidence: HeuristicConfidence::Low,
                                });
                            },
                        }
                    }
                }
            }
        }
        proof {
            let cs = candidates_upto(data@, physical_core_count as int, mode_offset as int);
            if candidates@.len() > before.len() {
                assert(candidates@ =~= before.push(candidates@.last()));
                assert(candidates@.map_values(|c: Candidate| cand_view(c)) =~= before.map_values(
                    |c: Candidate| cand_view(c),
                ).push(cand_view(candidates@.last())));
            } else {
                assert(candidates@ =~= before);
            }
        }
        mode_offset += 1;
    }
    pick_best_candidate(&candidates, data.len())
}

/// A found pattern is plausible: a mode byte of 1 or 2 followed by three
/// zero bytes, one sign byte (0 or 1) per core right after, and, unless
/// the confidence is Low, magnitudes of at most 30 with at least half of
/// them non-zero.
pub open spec fn plausible(data: Seq<u8>, core_count: int, c: (CoByteLayout, HeuristicConfidence)) -> bool {
    let m = c.0.mode_offset as int;
    &&& 0 <= m < data.len()
    &&& (data[m] == 1 || data[m] == 2)
    &&& mode_gap_valid(data, m)
    &&& c.0.signs_offset == m + 4
    &&& signs_valid(data, m + 4, core_count)
    &&& c.0.max_cores == core_count
    &&& (c.1 != HeuristicConfidence::Low ==> magnitudes_valid(data, c.0.magnitudes_offset as int, core_count))
    &&& (c.1 == HeuristicConfidence::High ==> c.0.magnitudes_offset == m + 4 + 0x40)
}

proof fn lemma_first_valid_offset(data: Seq<u8>, core_count: int, expected: int, lo: int, hi: int)
    ensures
        first_valid_offset(data, core_count, expected, lo, hi) matches Some(o) ==> lo <= o <= hi
            && magnitudes_valid(data, o, core_count),
    decreases hi - lo + 1,
{
    if lo <= hi && !(lo != expected && magnitudes_valid(data, lo, core_count)) {
        lemma_first_valid_offset(data, core_count, expected, lo + 1, hi);
    }
}

proof fn lemma_candidate_plausible(data: Seq<u8>, core_count: int, m: int)
    requires
        0 <= m < data.len(),
        data.len() + 0x100 <= usize::MAX,
        0 <= core_count <= usize::MAX,
    ensures
        candidate_at(data, core_count, m) matches Some(c) ==> plausible(data, core_count, c),
{
    let signs_offset = m + 4;
    let expected = signs_offset + 0x40;
    if let Some(c) = candidate_at(data, core_count, m) {
        if !magnitudes_valid(data, expected, core_count) {
            if 2 * core_count <= usize::MAX {
                let max_bound = if data.len() >= 2 * core_count {
                    data.len() - 2 * core_count
                } else {
                    0
                };
                let max_start = if signs_offset + 0x80 < max_bound {
                    signs_offset + 0x80
                } else {
                    max_bound
                };
                lemma_first_valid_offset(data, core_count, expected, signs_offset + 4, max_start);
            }
        }
    }
}

proof fn lemma_candidates_plausible(data: Seq<u8>, core_count: int, k: int)
    requires
        k <= data.len(),
        data.len() + 0x100 <= usize::MAX,
        0 <= core_count <= usize::MAX,
    ensures
        forall|i: int| 0 <= i < candidates_upto(data, core_count, k).len() ==> plausible(
            data,
            core_count,
            #[trigger] candidates_upto(data, core_count, k)[i],
        ),
    decreases k,
{
    if k > 0 {
        lemma_candidates_plausible(data, core_count, k - 1);
        lemma_candidate_plausible(data, core_count, k - 1);
        let prev = candidates_upto(data, core_count, k - 1);
        let cur = candidates_upto(data, core_count, k);
        assert forall|i: int| 0 <= i < cur.len() implies plausible(data, core_count, #[trigger] cur[i]) by {
            if i < prev.len() {
                assert(cur[i] == prev[i]);
            }
        }
    }
}

proof fn lemma_best_of_member(cands: Seq<(CoByteLayout, HeuristicConfidence)>, middle: int)
    ensures
        best_of(cands, middle) matches Some(c) ==> exists|i: int| 0 <= i < cands.len() && #[trigger] cands[i] == c,
        best_of(cands, middle) matches Some(c) ==> forall|i: int| 0 <= i < cands.len() ==> rank_of(#[trigger] cands[i].1) <= rank_of(c.1),
        best_of(cands, middle) is None <==> cands.len() == 0,
    decreases cands.len(),
{
    if cands.len() > 0 {
        let p = cands.drop_last();
        lemma_best_of_member(p, middle);
        if let Some(c) = best_of(cands, middle) {
            assert forall|i: int| 0 <= i < cands.len() implies rank_of(#[trigger] cands[i].1) <= rank_of(c.1) by {
                if i < p.len() {
                    assert(cands[i] == p[i]);
                }
            }
            if c != cands.last() {
                let i = choose|i: int| 0 <= i < p.len() && #[trigger] p[i] == c;
                assert(cands[i] == p[i]);
            } else {
                assert(cands[cands.len() - 1] == c);
            }
        }
    }
}

/// The heuristic only reports plausible patterns: a mode byte of 1 or 2
/// followed by three zero bytes, valid sign bytes for every core, for High
/// and Medium confidence a valid magnitudes region (for High at the
/// standard gap); no offset gives a candidate of higher confidence; and
/// it finds nothing exactly when no offset gives a candidate.
pub proof fn lemma_scan_finds_plausible_pattern(data: Seq<u8>, core_count: int)
    requires
        data.len() + 0x100 <= usize::MAX,
        0 <= core_count <= usize::MAX,
    ensures
        scan_spec(data, core_count) matches Some(c) ==> plausible(data, core_count, c),
        scan_spec(data, core_count) matches Some(c) ==> forall|m: int|
            0 <= m < data.len() && (#[trigger] candidate_at(data, core_count, m)) is Some ==> rank_of(
                candidate_at(data, core_count, m).unwrap().1,
            ) <= rank_of(c.1),
        data.len() >= 100 && core_count >= 4 ==> (scan_spec(data, core_count) is None <==> forall|m: int|
            0 <= m < data.len() ==> (#[trigger] candidate_at(data, core_count, m)) is None),
{
    if data.len() >= 100 && core_count >= 4 {
        let cands = candidates_upto(data, core_count, data.len() as int);
        lemma_candidates_plausible(data, core_count, data.len() as int);
        lemma_best_of_member(cands, (data.len() / 2) as int);
        lemma_candidates_members(data, core_count, data.len() as int);
        if let Some(c) = scan_spec(data, core_count) {
            let i = choose|i: int| 0 <= i < cands.len() && #[trigger] cands[i] == c;
            assert(plausible(data, core_count, cands[i]));
        }
    }
}

proof fn lemma_candidates_members(data: Seq<u8>, core_count: int, k: int)
    ensures
        forall|m: int| 0 <= m < k && (#[trigger] candidate_at(data, core_count, m)) is Some ==> exists|i: int|
            0 <= i < candidates_upto(data, core_count, k).len() && candidates_upto(data, core_count, k)[i]
                == candidate_at(data, core_count, m).unwrap(),
        candidates_upto(data, core_count, k).len() == 0 ==> forall|m: int| 0 <= m < k ==> (#[trigger] candidate_at(data, core_count, m)) is None,
        candidates_upto(data, core_count, k).len() > 0 ==> exists|m: int| 0 <= m < k && (#[trigger] candidate_at(data, core_count, m)) is Some,
    decreases k,
{
    if k > 0 {
        lemma_candidates_members(data, core_count, k - 1);
        let prev = candidates_upto(data, core_count, k - 1);
        let cur = candidates_upto(data, core_count, k);
        assert forall|m: int| 0 <= m < k && (#[trigger] candidate_at(data, core_count, m)) is Some implies exists|i: int|
            0 <= i < cur.len() && cur[i] == candidate_at(data, core_count, m).unwrap() by {
            if m < k - 1 {
                let i = choose|i: int| 0 <= i < prev.len() && prev[i] == candidate_at(data, core_count, m).unwrap();
                assert(cur[i] == prev[i]);
            } else {
                assert(cur[cur.len() - 1] == candidate_at(data, core_count, m).unwrap());
            }
        }
        if cur.len() > 0 && prev.len() == 0 {
            assert(candidate_at(data, core_count, k - 1) is Some);
        }
    }
}

} // verus!
