//! Known byte layouts of Curve Optimizer data inside the AOD_SETUP UEFI
//! variable, keyed by AGESA version.
use crate::text;
use vstd::prelude::*;

verus! {

/// Where the Curve Optimizer settings sit inside the AOD_SETUP variable.
#[derive(Debug, Clone, PartialEq, Eq, Structural)]
pub struct CoByteLayout {
    /// Offset of the CO mode byte (0 = Disabled, 1 = AllCore, 2 = PerCore).
    pub mode_offset: usize,
    /// Offset of the first sign byte (one byte per core, 1 = negative).
    pub signs_offset: usize,
    /// Offset of the first magnitude (one little-endian u16 per core).
    pub magnitudes_offset: usize,
    /// Largest number of cores the layout describes.
    pub max_cores: usize,
}

/// The layout confirmed for AGESA 1.2.0.7.
pub open spec fn agesa_1207_layout() -> CoByteLayout {
    CoByteLayout { mode_offset: 0x174, signs_offset: 0x178, magnitudes_offset: 0x1B8, max_cores: 16 }
}

/// The table lookup: a version whose trimmed text contains a known version
/// substring selects that version's layout.
pub open spec fn lookup_co_layout_spec(agesa_version: Seq<char>) -> Option<CoByteLayout> {
    if text::contains(text::trim(agesa_version), "1.2.0.7"@) {
        Some(agesa_1207_layout())
    } else {
        None
    }
}

/// Looks up the CO byte layout for an AGESA version string.
pub fn lookup_co_layout(agesa_version: &str) -> (r: Option<CoByteLayout>)
    ensures
        r == lookup_co_layout_spec(agesa_version@),
{
    let trimmed = text::trim_str(agesa_version);
    if text::contains_str(&trimmed, "1.2.0.7") {
        Some(CoByteLayout { mode_offset: 0x174, signs_offset: 0x178, magnitudes_offset: 0x1B8, max_cores: 16 })
    } else {
        None
    }
}

/// GUIDs under which the AOD_SETUP variable is known to be stored, in the
/// order they are tried.
pub fn known_aod_guids() -> (r: Vec<&'static str>)
    ensures
        r@.len() == 1,
        r@[0]@ == "5ed15dc0-edef-4161-9151-6014c4cc630c"@,
{
    let mut r: Vec<&'static str> = Vec::new();
    r.push("5ed15dc0-edef-4161-9151-6014c4cc630c");
    r
}

} // verus!
