//! Decoding of Curve Optimizer offsets from raw AOD_SETUP bytes.
use crate::co_offsets::CoByteLayout;
use std::collections::BTreeMap;
use vstd::prelude::*;

verus! {

/// The Curve Optimizer mode stored in the mode byte.
#[derive(Debug, Clone, PartialEq, Eq, Structural)]
pub enum CurveOptimizerMode {
    Disabled,
    AllCore,
    PerCore,
    Unknown(u8),
}

/// Mode and per-core offsets read from the AOD_SETUP bytes.
#[derive(Debug, Clone)]
pub struct DecodedCurveOptimizer {
    pub mode: CurveOptimizerMode,
    pub per_core_offsets: BTreeMap<u32, i32>,
}

/// The little-endian u16 at `off`.
pub open spec fn le_u16(data: Seq<u8>, off: int) -> int {
    data[off] as int + 256 * (data[off + 1] as int)
}

/// The offset a sign byte and a magnitude denote: sign 1 is negative, any
/// other sign byte is read as positive.
pub open spec fn signed_offset(sign: u8, magnitude: int) -> int {
    if sign == 1 {
        -magnitude
    } else {
        magnitude
    }
}

/// The per-core value of core `i` in a per-core layout.
pub open spec fn per_core_value(data: Seq<u8>, layout: CoByteLayout, i: int) -> int {
    signed_offset(data[layout.signs_offset + i], le_u16(data, layout.magnitudes_offset + 2 * i))
}

/// The bytes of core `i` lie inside the data.
pub open spec fn core_fits(len: int, layout: CoByteLayout, i: int) -> bool {
    layout.signs_offset + i < len && layout.magnitudes_offset + 2 * i + 2 <= len
}

/// How many cores a per-core decode reads: cores are read in order up to
/// `min(physical_core_count, max_cores)` and reading stops at the first
/// core whose bytes lie past the end of the data.
pub open spec fn per_core_count(len: int, layout: CoByteLayout, physical_core_count: int) -> int {
    let limit = if physical_core_count < layout.max_cores {
        physical_core_count
    } else {
        layout.max_cores as int
    };
    let sign_room = if layout.signs_offset < len {
        len - layout.signs_offset
    } else {
        0
    };
    let magnitude_room = if layout.magnitudes_offset <= len {
        (len - layout.magnitudes_offset) / 2
    } else {
        0
    };
    min3(limit, sign_room, magnitude_room)
}

pub open spec fn min3(a: int, b: int, c: int) -> int {
    if a <= b && a <= c {
        a
    } else if b <= c {
        b
    } else {
        c
    }
}

/// What `decode_co_bytes` returns, as a mode and a map from core index to
/// offset.
pub open spec fn decode_spec(data: Seq<u8>, layout: CoByteLayout, physical_core_count: int) -> (
    CurveOptimizerMode,
    Map<u32, i32>,
) {
    if data.len() <= layout.mode_offset {
        (CurveOptimizerMode::Unknown(0), Map::empty())
    } else {
        let mode = data[layout.mode_offset as int];
        if mode == 0 {
            (CurveOptimizerMode::Disabled, Map::empty())
        } else if mode == 1 {
            if layout.signs_offset >= data.len() || layout.magnitudes_offset + 2 > data.len() {
                (CurveOptimizerMode::AllCore, Map::empty())
            } else {
                let value = signed_offset(
                    data[layout.signs_offset as int],
                    le_u16(data, layout.magnitudes_offset as int),
                );
                (
                    CurveOptimizerMode::AllCore,
                    Map::new(|k: u32| k < physical_core_count, |k: u32| value as i32),
                )
            }
        } else if mode == 2 {
            let count = per_core_count(data.len() as int, layout, physical_core_count);
            (
                CurveOptimizerMode::PerCore,
                Map::new(|k: u32| k < count, |k: u32| per_core_value(data, layout, k as int) as i32),
            )
        } else {
            (CurveOptimizerMode::Unknown(mode), Map::empty())
        }
    }
}

fn read_le_u16(data: &[u8], off: usize) -> (v: u16)
    requires
        off + 2 <= data.len(),
    ensures
        v == le_u16(data@, off as int),
{
    let lo = data[off] as u16;
    let hi = data[off + 1] as u16;
    hi * 256 + lo
}

fn signed_offset_exec(sign: u8, magnitude: u16) -> (v: i32)
    ensures
        v == signed_offset(sign, magnitude as int),
{
    if sign == 1 {
        -(magnitude as i32)
    } else {
        magnitude as i32
    }
}

proof fn lemma_per_core_count(len: int, layout: CoByteLayout, n: int, i: int)
    requires
        0 <= i,
        len >= 0,
        n >= 0,
    ensures
        i < per_core_count(len, layout, n) <==> (i < n && i < layout.max_cores && core_fits(
            len,
            layout,
            i,
        )),
{
}

/// Decodes the Curve Optimizer mode and per-core offsets from AOD_SETUP
/// bytes using a known layout. Truncated data yields the cores that fit.
pub fn decode_co_bytes(data: &[u8], layout: &CoByteLayout, physical_core_count: usize) -> (r:
    DecodedCurveOptimizer)
    requires
        data.len() + 2 <= usize::MAX,
        layout.magnitudes_offset + 2 <= usize::MAX,
        physical_core_count <= u32::MAX,
    ensures
        (r.mode, r.per_core_offsets@) == decode_spec(data@, *layout, physical_core_count as int),
{
    if data.len() <= layout.mode_offset {
        let m: BTreeMap<u32, i32> = BTreeMap::new();
        assert(m@ =~= Map::empty());
        return DecodedCurveOptimizer { mode: CurveOptimizerMode::Unknown(0), per_core_offsets: m };
    }
    let mode_byte = data[layout.mode_offset];
    if mode_byte == 0 {
        let m: BTreeMap<u32, i32> = BTreeMap::new();
        DecodedCurveOptimizer { mode: CurveOptimizerMode::Disabled, per_core_offsets: m }
    } else if mode_byte == 1 {
        if layout.signs_offset >= data.len() || layout.magnitudes_offset + 2 > data.len() {
            let m: BTreeMap<u32, i32> = BTreeMap::new();
            return DecodedCurveOptimizer { mode: CurveOptimizerMode::AllCore, per_core_offsets: m };
        }
        let sign = data[layout.signs_offset];
        let magnitude = read_le_u16(data, layout.magnitudes_offset);
        let value = signed_offset_exec(sign, magnitude);
        let mut m: BTreeMap<u32, i32> = BTreeMap::new();
        let mut core: usize = 0;
        while core < physical_core_count
            invariant
                core <= physical_core_count <= u32::MAX,
                m@ == Map::new(|k: u32| k < core, |k: u32| value),
            decreases physical_core_count - core,
        {
            m.insert(core as u32, value);
            core += 1;
            assert(m@ =~= Map::new(|k: u32| k < core, |k: u32| value));
        }
        proof {
            let spec_map = decode_spec(data@, *layout, physical_core_count as int).1;
            assert(m@ =~= spec_map);
        }
        DecodedCurveOptimizer { mode: CurveOptimizerMode::AllCore, per_core_offsets: m }
    } else if mode_byte == 2 {
        let mut m: BTreeMap<u32, i32> = BTreeMap::new();
        let core_limit = if physical_core_count < layout.max_cores {
            physical_core_count
        } else {
            layout.max_cores
        };
        let ghost count = per_core_count(data.len() as int, *layout, physical_core_count as int);
        let mut i: usize = 0;
        while i < core_limit
            invariant
                data.len() + 2 <= usize::MAX,
                data.len() > layout.mode_offset,
                data@[layout.mode_offset as int] == 2,
                layout.magnitudes_offset + 2 <= usize::MAX,
                core_limit <= physical_core_count <= u32::MAX,
                core_limit as int == (if physical_core_count < layout.max_cores {
                    physical_core_count as int
                } else {
                    layout.max_cores as int
                }),
                i <= core_limit,
                forall|j: int| 0 <= j < i ==> core_fits(data.len() as int, *layout, j),
                i > 0 ==> layout.signs_offset + i <= data.len() && layout.magnitudes_offset + 2 * i
                    <= data.len(),
                count == per_core_count(data.len() as int, *layout, physical_core_count as int),
                m@ == Map::new(
                    |k: u32| k < i,
                    |k: u32| per_core_value(data@, *layout, k as int) as i32,
                ),
            decreases core_limit - i,
        {
            let sign_offset = layout.signs_offset + i;
            let magnitude_offset = layout.magnitudes_offset + i * 2;
            if sign_offset >= data.len() || magnitude_offset + 2 > data.len() {
                proof {
                    assert forall|k: int| 0 <= k < i implies core_fits(data.len() as int, *layout, k) by {}
                    lemma_per_core_count(data.len() as int, *layout, physical_core_count as int, i as int);
                    assert(count == i) by {
                        if count > i {
                            lemma_per_core_count(data.len() as int, *layout, physical_core_count as int, i as int);
                        }
                        if count < i {
                            lemma_per_core_count(data.len() as int, *layout, physical_core_count as int, count);
                            assert(core_fits(data.len() as int, *layout, count));
                        }
                    }
                    assert(m@ =~= Map::new(
                        |k: u32| k < count,
                        |k: u32| per_core_value(data@, *layout, k as int) as i32,
                    ));
                    assert(m@ =~= decode_spec(data@, *layout, physical_core_count as int).1);
                }
                return DecodedCurveOptimizer { mode: CurveOptimizerMode::PerCore, per_core_offsets: m };
            }
            let sign = data[sign_offset];
            let magnitude = read_le_u16(data, magnitude_offset);
            let value = signed_offset_exec(sign, magnitude);
            m.insert(i as u32, value);
            i += 1;
            assert(m@ =~= Map::new(
                |k: u32| k < i,
                |k: u32| per_core_value(data@, *layout, k as int) as i32,
            ));
        }
        proof {
            assert(count == core_limit) by {
                lemma_per_core_count(data.len() as int, *layout, physical_core_count as int, core_limit as int);
                if count < core_limit {
                    lemma_per_core_count(data.len() as int, *layout, physical_core_count as int, count);
                    assert(core_fits(data.len() as int, *layout, count));
                }
                if count > core_limit {
                    lemma_per_core_count(data.len() as int, *layout, physical_core_count as int, core_limit as int);
                }
            }
            assert(m@ =~= Map::new(
                |k: u32| k < count,
                |k: u32| per_core_value(data@, *layout, k as int) as i32,
            ));
            assert(m@ =~= decode_spec(data@, *layout, physical_core_count as int).1);
        }
        DecodedCurveOptimizer { mode: CurveOptimizerMode::PerCore, per_core_offsets: m }
    } else {
        let m: BTreeMap<u32, i32> = BTreeMap::new();
        DecodedCurveOptimizer { mode: CurveOptimizerMode::Unknown(mode_byte), per_core_offsets: m }
    }
}

} // verus!
