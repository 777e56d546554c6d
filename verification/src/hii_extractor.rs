//! The pieces of HII database extraction that compute: decoding the HiiDB
//! EFI variable, and cleaning the DMI strings that identify the machine.
use crate::text;
use vstd::prelude::*;

verus! {

/// An HiiDB EFI variable shorter than its 12-byte header.
#[derive(Debug, Clone, PartialEq, Eq)]
pub struct EfivarError {
    pub len: usize,
}

impl EfivarError {
    pub open spec fn message_spec(&self) -> Seq<char> {
        "EFI variable too short: "@ + text::decimal(self.len as nat) + " bytes (expected at least 12)"@
    }

    /// The error's text.
    pub fn message(&self) -> (m: String)
        ensures
            m@ == self.message_spec(),
    {
        let mut v = text::lit("EFI variable too short: ");
        text::push_u64(&mut v, self.len as u64);
        text::push_str(&mut v, " bytes (expected at least 12)");
        text::string_from_chars(v.as_slice())
    }
}

/// The little-endian `u32` at `off`.
pub open spec fn le_u32_at(b: Seq<u8>, off: int) -> u32 {
    (b[off] as int + b[off + 1] as int * 0x100 + b[off + 2] as int * 0x10000 + b[off + 3] as int * 0x1000000) as u32
}

fn read_le_u32(b: &[u8], off: usize) -> (v: u32)
    requires
        off + 4 <= b.len(),
    ensures
        v == le_u32_at(b@, off as int),
{
    let v: u32 = b[off] as u32 + (b[off + 1] as u32) * 0x100 + (b[off + 2] as u32) * 0x10000 + (b[off + 3] as u32)
        * 0x1000000;
    v
}

/// The HiiDB variable: attribute flags (bytes 0..4), then the database's
/// length (4..8) and physical address (8..12), all little-endian.
pub fn parse_efivar_bytes(bytes: &[u8]) -> (r: Result<(u32, u32), EfivarError>)
    ensures
        match r {
            Ok((length, address)) => bytes.len() >= 12 && length == le_u32_at(bytes@, 4) && address == le_u32_at(bytes@, 8),
            Err(e) => bytes.len() < 12 && e.len == bytes.len(),
        },
{
    if bytes.len() < 12 {
        return Err(EfivarError { len: bytes.len() });
    }
    let length = read_le_u32(bytes, 4);
    let address = read_le_u32(bytes, 8);
    Ok((length, address))
}

/// The machine as the DMI tables name it.
#[derive(Debug, Clone, PartialEq, Eq, Default)]
pub struct BiosInfo {
    pub bios_vendor: String,
    pub bios_version: String,
    pub product_name: String,
}

/// The value of a DMI file: its trimmed contents, or `Unknown` when it could
/// not be read or holds only white space.
pub open spec fn dmi_value_spec(contents: Option<Seq<char>>) -> Seq<char> {
    match contents {
        Some(c) => if text::trim(c).len() == 0 {
            "Unknown"@
        } else {
            text::trim(c)
        },
        None => "Unknown"@,
    }
}

pub open spec fn opt_chars(o: Option<String>) -> Option<Seq<char>> {
    match o {
        Some(s) => Some(s@),
        None => None,
    }
}

fn dmi_value(contents: &Option<String>) -> (s: String)
    ensures
        s@ == dmi_value_spec(opt_chars(*contents)),
{
    match contents {
        Some(c) => {
            let t = text::trim_str(c.as_str());
            if t.len() == 0 {
                "Unknown".to_owned()
            } else {
                text::string_from_chars(&t)
            }
        },
        None => "Unknown".to_owned(),
    }
}

/// The machine's identity from the contents of the DMI files `bios_vendor`,
/// `bios_version` and `product_name` (`None` where a file could not be read).
pub fn read_bios_info(bios_vendor: Option<String>, bios_version: Option<String>, product_name: Option<String>) -> (i: BiosInfo)
    ensures
        i.bios_vendor@ == dmi_value_spec(opt_chars(bios_vendor)),
        i.bios_version@ == dmi_value_spec(opt_chars(bios_version)),
        i.product_name@ == dmi_value_spec(opt_chars(product_name)),
        i.bios_vendor@.len() > 0,
        i.bios_version@.len() > 0,
        i.product_name@.len() > 0,
{
    proof {
        reveal_strlit("Unknown");
    }
    BiosInfo {
        bios_vendor: dmi_value(&bios_vendor),
        bios_version: dmi_value(&bios_version),
        product_name: dmi_value(&product_name),
    }
}

} // verus!
