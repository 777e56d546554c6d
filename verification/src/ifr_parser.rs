//! Parser for the firmware HII database: package lists, string packages and
//! IFR form opcodes, walked from the root form through REF links into
//! sub-forms to collect the setup questions.
use crate::hii_question::{question_view, HiiQuestion};
use crate::text;
use std::collections::BTreeMap;
use vstd::prelude::*;

verus! {

/// Package type of form packages.
pub const HII_PACKAGE_FORMS: u8 = 0x02;

/// Package type of string packages.
pub const HII_PACKAGE_STRINGS: u8 = 0x04;

pub const EFI_IFR_FORM_OP: u8 = 0x01;

pub const EFI_IFR_SUBTITLE_OP: u8 = 0x02;

pub const EFI_IFR_TEXT_OP: u8 = 0x03;

pub const EFI_IFR_ONE_OF_OP: u8 = 0x05;

pub const EFI_IFR_ONE_OF_OPTION_OP: u8 = 0x09;

pub const EFI_IFR_CHECKBOX_OP: u8 = 0x06;

pub const EFI_IFR_NUMERIC_OP: u8 = 0x07;

pub const EFI_IFR_STRING_OP: u8 = 0x1C;

pub const EFI_IFR_ORDERED_LIST_OP: u8 = 0x23;

pub const EFI_IFR_FORM_SET_OP: u8 = 0x0E;

pub const EFI_IFR_REF_OP: u8 = 0x0F;

pub const EFI_IFR_END_OP: u8 = 0x29;

// ---------------------------------------------------------------------------
// Little-endian reads
// ---------------------------------------------------------------------------

pub open spec fn le16(data: Seq<u8>, off: int) -> int {
    data[off] as int + 256 * (data[off + 1] as int)
}

pub open spec fn le24(data: Seq<u8>, off: int) -> int {
    data[off] as int + 256 * (data[off + 1] as int) + 65536 * (data[off + 2] as int)
}

pub open spec fn le32(data: Seq<u8>, off: int) -> int {
    le24(data, off) + 16777216 * (data[off + 3] as int)
}

/// The u16 at `offset`, if two bytes are there.
pub open spec fn read_u16_spec(data: Seq<u8>, offset: int) -> Option<u16> {
    if offset + 2 <= data.len() {
        Some(le16(data, offset) as u16)
    } else {
        None
    }
}

/// Reads a little-endian u16 at `offset`.
fn read_u16(data: &[u8], offset: usize) -> (r: Option<u16>)
    ensures
        r == read_u16_spec(data@, offset as int),
{
    if offset > data.len() || data.len() - offset < 2 {
        return None;
    }
    let lo = data[offset] as u16;
    let hi = data[offset + 1] as u16;
    Some(hi * 256 + lo)
}

fn read_u32(data: &[u8], offset: usize) -> (r: u32)
    requires
        offset + 4 <= data.len(),
    ensures
        r == le32(data@, offset as int),
{
    let b0 = data[offset] as u32;
    let b1 = data[offset + 1] as u32;
    let b2 = data[offset + 2] as u32;
    let b3 = data[offset + 3] as u32;
    b3 * 16777216 + b2 * 65536 + b1 * 256 + b0
}

// ---------------------------------------------------------------------------
// HII package walking
// ---------------------------------------------------------------------------

/// The packages (type, payload) found from `pos` up to `end`: each has a
/// 4-byte header holding a 24-bit length (header included) and a type byte;
/// walking stops at a length below 4 or a package running past `end`.
pub open spec fn packages(db: Seq<u8>, pos: int, end: int) -> Seq<(u8, Seq<u8>)>
    decreases end - pos,
{
    if pos < 0 || pos + 4 > end || end > db.len() {
        seq![]
    } else {
        let len = le24(db, pos);
        let ty = db[pos + 3];
        if len < 4 || pos + len > end {
            seq![]
        } else {
            seq![(ty, db.subrange(pos + 4, pos + len))] + packages(db, pos + len, end)
        }
    }
}

/// The payloads of the packages of type `ty`, in order.
pub open spec fn payloads_of_type(pkgs: Seq<(u8, Seq<u8>)>, ty: u8) -> Seq<Seq<u8>>
    decreases pkgs.len(),
{
    if pkgs.len() == 0 {
        seq![]
    } else {
        let rest = payloads_of_type(pkgs.drop_last(), ty);
        if pkgs.last().0 == ty {
            rest.push(pkgs.last().1)
        } else {
            rest
        }
    }
}

/// A group of form and string packages that belong together.
pub struct HiiPackageGroup {
    pub form_packages: Vec<Vec<u8>>,
    pub string_packages: Vec<Vec<u8>>,
}

pub open spec fn byte_pieces(v: Seq<Vec<u8>>) -> Seq<Seq<u8>> {
    v.map_values(|x: Vec<u8>| x@)
}

pub open spec fn group_view(g: HiiPackageGroup) -> (Seq<Seq<u8>>, Seq<Seq<u8>>) {
    (byte_pieces(g.form_packages@), byte_pieces(g.string_packages@))
}

/// The form and string payloads of the packages from `pos` to `end`.
pub open spec fn group_of(db: Seq<u8>, pos: int, end: int) -> (Seq<Seq<u8>>, Seq<Seq<u8>>) {
    let pkgs = packages(db, pos, end);
    (payloads_of_type(pkgs, HII_PACKAGE_FORMS), payloads_of_type(pkgs, HII_PACKAGE_STRINGS))
}

/// The package lists from `offset` on: each list has a 20-byte header
/// whose bytes 16..20 hold the list length (header included); walking
/// stops at a length below 20 or a list running past the end.
pub open spec fn package_lists(db: Seq<u8>, offset: int) -> Seq<(Seq<Seq<u8>>, Seq<Seq<u8>>)>
    decreases db.len() - offset,
{
    if offset < 0 || offset + 20 > db.len() {
        seq![]
    } else {
        let list_len = le32(db, offset + 16);
        if list_len < 20 || offset + list_len > db.len() {
            seq![]
        } else {
            seq![group_of(db, offset + 20, offset + list_len)] + package_lists(db, offset + list_len)
        }
    }
}

proof fn lemma_payloads_push(pkgs: Seq<(u8, Seq<u8>)>, p: (u8, Seq<u8>), ty: u8)
    ensures
        payloads_of_type(pkgs.push(p), ty) == if p.0 == ty {
            payloads_of_type(pkgs, ty).push(p.1)
        } else {
            payloads_of_type(pkgs, ty)
        },
{
    assert(pkgs.push(p).drop_last() =~= pkgs);
}

proof fn lemma_payloads_append(a: Seq<(u8, Seq<u8>)>, b: Seq<(u8, Seq<u8>)>, ty: u8)
    ensures
        payloads_of_type(a + b, ty) == payloads_of_type(a, ty) + payloads_of_type(b, ty),
    decreases b.len(),
{
    if b.len() == 0 {
        assert(a + b =~= a);
        assert(payloads_of_type(a, ty) + payloads_of_type(b, ty) =~= payloads_of_type(a, ty));
    } else {
        lemma_payloads_append(a, b.drop_last(), ty);
        assert((a + b).drop_last() =~= a + b.drop_last());
        assert((a + b).last() == b.last());
        if b.last().0 == ty {
            assert(payloads_of_type(a, ty) + payloads_of_type(b.drop_last(), ty).push(b.last().1)
                =~= (payloads_of_type(a, ty) + payloads_of_type(b.drop_last(), ty)).push(b.last().1));
        }
    }
}

proof fn lemma_byte_pieces_push(v: Seq<Vec<u8>>, x: Vec<u8>)
    ensures
        byte_pieces(v.push(x)) == byte_pieces(v).push(x@),
{
    assert(byte_pieces(v.push(x)) =~= byte_pieces(v).push(x@));
}

/// Reads the packages from `start` to `end` into form and string payloads.
fn collect_packages(db: &[u8], start: usize, end: usize) -> (r: (Vec<Vec<u8>>, Vec<Vec<u8>>))
    requires
        start <= end <= db.len(),
        db.len() + 0x0100_0000 <= usize::MAX,
    ensures
        (byte_pieces(r.0@), byte_pieces(r.1@)) == group_of(db@, start as int, end as int),
{
    let mut forms: Vec<Vec<u8>> = Vec::new();
    let mut strings: Vec<Vec<u8>> = Vec::new();
    let mut pkg_offset = start;
    let ghost all = packages(db@, start as int, end as int);
    proof {
        assert(byte_pieces(forms@) =~= Seq::<Seq<u8>>::empty());
        assert(byte_pieces(strings@) =~= Seq::<Seq<u8>>::empty());
        assert(all =~= Seq::<(u8, Seq<u8>)>::empty() + packages(db@, start as int, end as int));
        assert(payloads_of_type(Seq::<(u8, Seq<u8>)>::empty(), HII_PACKAGE_FORMS) =~= Seq::<Seq<u8>>::empty());
    }
    let ghost mut seen: Seq<(u8, Seq<u8>)> = Seq::empty();
    while pkg_offset <= end && end - pkg_offset >= 4
        invariant
            start <= pkg_offset,
            end <= db.len(),
            db.len() + 0x0100_0000 <= usize::MAX,
            all == packages(db@, start as int, end as int),
            all == seen + packages(db@, pkg_offset as int, end as int),
            byte_pieces(forms@) == payloads_of_type(seen, HII_PACKAGE_FORMS),
            byte_pieces(strings@) == payloads_of_type(seen, HII_PACKAGE_STRINGS),
        ensures
            byte_pieces(forms@) == payloads_of_type(seen, HII_PACKAGE_FORMS),
            byte_pieces(strings@) == payloads_of_type(seen, HII_PACKAGE_STRINGS),
            all == seen,
        decreases db.len() - pkg_offset,
    {
        let pkg_len = (db[pkg_offset] as usize) + 256 * (db[pkg_offset + 1] as usize) + 65536 * (
        db[pkg_offset + 2] as usize);
        let pkg_type = db[pkg_offset + 3];
        if pkg_len < 4 || pkg_len > end - pkg_offset {
            proof {
                assert(packages(db@, pkg_offset as int, end as int) =~= Seq::<(u8, Seq<u8>)>::empty());
                assert(seen + packages(db@, pkg_offset as int, end as int) =~= seen);
            }
            break;
        }
        let payload = text_bytes(db, pkg_offset + 4, pkg_offset + pkg_len);
        let ghost p = (pkg_type, payload@);
        proof {
            assert(packages(db@, pkg_offset as int, end as int) == seq![p] + packages(
                db@,
                pkg_offset + pkg_len,
                end as int,
            ));
            assert(seen + (seq![p] + packages(db@, pkg_offset + pkg_len, end as int)) =~= seen.push(p)
                + packages(db@, pkg_offset + pkg_len, end as int));
            lemma_payloads_push(seen, p, HII_PACKAGE_FORMS);
            lemma_payloads_push(seen, p, HII_PACKAGE_STRINGS);
        }
        if pkg_type == HII_PACKAGE_FORMS {
            proof {
                lemma_byte_pieces_push(forms@, payload);
            }
            forms.push(payload);
        } else if pkg_type == HII_PACKAGE_STRINGS {
            proof {
                lemma_byte_pieces_push(strings@, payload);
            }
            strings.push(payload);
        }
        proof {
            seen = seen.push(p);
        }
        pkg_offset += pkg_len;
    }
    (forms, strings)
}

/// A copy of `db[from..to]`.
fn text_bytes(db: &[u8], from: usize, to: usize) -> (r: Vec<u8>)
    requires
        from <= to <= db.len(),
    ensures
        r@ == db@.subrange(from as int, to as int),
{
    let mut r: Vec<u8> = Vec::new();
    let mut i = from;
    while i < to
        invariant
            from <= i <= to <= db.len(),
            r@ == db@.subrange(from as int, i as int),
        decreases to - i,
    {
        r.push(db[i]);
        i += 1;
        assert(r@ =~= db@.subrange(from as int, i as int));
    }
    r
}

pub open spec fn groups_view(v: Seq<HiiPackageGroup>) -> Seq<(Seq<Seq<u8>>, Seq<Seq<u8>>)> {
    v.map_values(|g: HiiPackageGroup| group_view(g))
}

/// Splits an HII database made of package lists into per-list groups of
/// form and string payloads; the flag says whether any list was found.
fn split_hii_package_groups(hii_db: &[u8]) -> (r: (Vec<HiiPackageGroup>, bool))
    requires
        hii_db.len() + 0x0100_0000 <= usize::MAX,
    ensures
        groups_view(r.0@) == package_lists(hii_db@, 0),
        r.1 == (r.0@.len() > 0),
{
    let mut groups: Vec<HiiPackageGroup> = Vec::new();
    let mut offset: usize = 0;
    let ghost mut seen: Seq<(Seq<Seq<u8>>, Seq<Seq<u8>>)> = Seq::empty();
    proof {
        assert(groups_view(groups@) =~= seen);
        assert(package_lists(hii_db@, 0) =~= seen + package_lists(hii_db@, 0));
    }
    while offset <= hii_db.len() && hii_db.len() - offset >= 20
        invariant
            hii_db.len() + 0x0100_0000 <= usize::MAX,
            groups_view(groups@) == seen,
            package_lists(hii_db@, 0) == seen + package_lists(hii_db@, offset as int),
        ensures
            groups_view(groups@) == seen,
            package_lists(hii_db@, 0) == seen,
        decreases hii_db.len() - offset,
    {
        let list_len_u32 = read_u32(hii_db, offset + 16);
        let list_len = list_len_u32 as usize;
        if list_len < 20 || list_len > hii_db.len() - offset {
            proof {
                assert(package_lists(hii_db@, offset as int) =~= Seq::<(Seq<Seq<u8>>, Seq<Seq<u8>>)>::empty());
                assert(seen + package_lists(hii_db@, offset as int) =~= seen);
            }
            break;
        }
        let (form_packages, string_packages) = collect_packages(hii_db, offset + 20, offset + list_len);
        let group = HiiPackageGroup { form_packages, string_packages };
        let ghost g = group_view(group);
        groups.push(group);
        proof {
            assert(groups_view(groups@) =~= seen.push(g));
            assert(package_lists(hii_db@, offset as int) == seq![g] + package_lists(hii_db@, offset + list_len));
            assert(seen + (seq![g] + package_lists(hii_db@, offset + list_len)) =~= seen.push(g)
                + package_lists(hii_db@, offset + list_len));
            seen = seen.push(g);
        }
        offset += list_len;
    }
    let has_groups = groups.len() > 0;
    (groups, has_groups)
}

/// Splits an HII database that is a flat stream of packages into form and
/// string payloads.
fn split_flat_hii_packages(hii_db: &[u8]) -> (r: (Vec<Vec<u8>>, Vec<Vec<u8>>))
    requires
        hii_db.len() + 0x0100_0000 <= usize::MAX,
    ensures
        (byte_pieces(r.0@), byte_pieces(r.1@)) == group_of(hii_db@, 0, hii_db.len() as int),
{
    collect_packages(hii_db, 0, hii_db.len())
}

// ---------------------------------------------------------------------------
// String packages
// ---------------------------------------------------------------------------

/// What `String::from_utf8_lossy` makes of the bytes.
pub uninterp spec fn utf8_lossy(bytes: Seq<u8>) -> Seq<char>;

/// What `String::from_utf16_lossy` makes of the UTF-16 code units.
pub uninterp spec fn utf16_lossy(units: Seq<u16>) -> Seq<char>;

/// Decodes bytes as UTF-8 with `String::from_utf8_lossy`; the result is
/// named `utf8_lossy` of the bytes.
#[verifier::external_body]
fn decode_utf8_lossy(bytes: &[u8]) -> (s: String)
    ensures
        s@ == utf8_lossy(bytes@),
{
    String::from_utf8_lossy(bytes).to_string()
}

/// Decodes UTF-16 code units with `String::from_utf16_lossy`; the result is
/// named `utf16_lossy` of the units.
#[verifier::external_body]
fn decode_utf16_lossy(units: &[u16]) -> (s: String)
    ensures
        s@ == utf16_lossy(units@),
{
    String::from_utf16_lossy(units)
}

/// Index of the first zero byte at or after `p`, or the length.
pub open spec fn nul_from(data: Seq<u8>, p: int) -> int
    decreases data.len() - p,
{
    if p < 0 || p >= data.len() || data[p] == 0 {
        if p < 0 { 0 } else { p }
    } else {
        nul_from(data, p + 1)
    }
}

/// The UTF-16 units of a null-terminated string starting at `p`, and the
/// position after it (after the terminator when one was read).
pub open spec fn ucs2_run(data: Seq<u8>, p: int) -> (Seq<u16>, int)
    decreases data.len() - p,
{
    if p < 0 || p + 1 >= data.len() {
        (seq![], p)
    } else {
        let ch = le16(data, p) as u16;
        if ch == 0 {
            (seq![], p + 2)
        } else {
            let (rest, e) = ucs2_run(data, p + 2);
            (seq![ch] + rest, e)
        }
    }
}

/// The (string id, text) records of a string package from block position
/// `pos` on, with the next string id `id`: SCSU and UCS-2 strings take the
/// next id, SKIP blocks advance the id (wrapping at 2^16), END or an
/// unknown block stops.
pub open spec fn string_entries_from(data: Seq<u8>, pos: int, id: u16) -> Seq<(u16, Seq<char>)>
    decreases data.len() - pos,
{
    if pos < 0 || pos >= data.len() {
        seq![]
    } else {
        let block_type = data[pos];
        let p = pos + 1;
        if block_type == 0x10 {
            let end = nul_from(data, p);
            let next = if end < data.len() { end + 1 } else { end };
            if pos < next <= data.len() {
                seq![(id, utf8_lossy(data.subrange(p, end)))] + string_entries_from(data, next, add_id(id, 1))
            } else {
                seq![]
            }
        } else if block_type == 0x14 {
            let (units, next) = ucs2_run(data, p);
            if pos < next <= data.len() {
                seq![(id, utf16_lossy(units))] + string_entries_from(data, next, add_id(id, 1))
            } else {
                seq![]
            }
        } else if block_type == 0x21 {
            if p + 2 <= data.len() {
                string_entries_from(data, p + 2, add_id(id, le16(data, p)))
            } else {
                seq![]
            }
        } else if block_type == 0x22 {
            if p < data.len() {
                string_entries_from(data, p + 1, add_id(id, data[p] as int))
            } else {
                seq![]
            }
        } else {
            seq![]
        }
    }
}

/// String ids advance modulo 2^16.
pub open spec fn add_id(id: u16, n: int) -> u16 {
    ((id as int + n) % 65536) as u16
}

/// The records of a string package: the header size (first u32, counted
/// from the package start, whose 4-byte header is not in `data`) gives
/// where the blocks begin; ids start at 1.
pub open spec fn string_entries(data: Seq<u8>) -> Seq<(u16, Seq<char>)> {
    if data.len() < 4 {
        seq![]
    } else {
        let hdr_size = le32(data, 0);
        if hdr_size < 4 || hdr_size > data.len() {
            seq![]
        } else {
            string_entries_from(data, hdr_size - 4, 1)
        }
    }
}

/// The map built by inserting the records in order into `m`.
pub open spec fn insert_all(m: Map<u16, Seq<char>>, entries: Seq<(u16, Seq<char>)>) -> Map<u16, Seq<char>>
    decreases entries.len(),
{
    if entries.len() == 0 {
        m
    } else {
        insert_all(m, entries.drop_last()).insert(entries.last().0, entries.last().1)
    }
}

pub open spec fn table_view(t: Map<u16, String>) -> Map<u16, Seq<char>> {
    t.map_values(|s: String| s@)
}

fn wrapping_add_id(id: u16, n: u16) -> (r: u16)
    ensures
        r == add_id(id, n as int),
{
    let sum: u32 = id as u32 + n as u32;
    if sum >= 65536 {
        (sum - 65536) as u16
    } else {
        sum as u16
    }
}

fn scsu_end(data: &[u8], p: usize) -> (e: usize)
    requires
        p <= data.len(),
    ensures
        e == nul_from(data@, p as int),
        p <= e <= data.len(),
{
    let mut e = p;
    while e < data.len() && data[e] != 0
        invariant
            p <= e <= data.len(),
            nul_from(data@, p as int) == nul_from(data@, e as int),
        decreases data.len() - e,
    {
        e += 1;
    }
    e
}

fn ucs2_units(data: &[u8], p: usize) -> (r: (Vec<u16>, usize))
    requires
        p <= data.len(),
    ensures
        (r.0@, r.1 as int) == ucs2_run(data@, p as int),
        p <= r.1 <= data.len(),
    decreases data.len() - p,
{
    if p >= data.len() || data.len() - p < 2 {
        return (Vec::new(), p);
    }
    let ch = (data[p + 1] as u16) * 256 + (data[p] as u16);
    if ch == 0 {
        return (Vec::new(), p + 2);
    }
    let (rest, e) = ucs2_units(data, p + 2);
    let mut units: Vec<u16> = Vec::new();
    units.push(ch);
    let mut i: usize = 0;
    while i < rest.len()
        invariant
            i <= rest.len(),
            units@ == seq![ch] + rest@.take(i as int),
        decreases rest.len() - i,
    {
        units.push(rest[i]);
        i += 1;
        assert(units@ =~= seq![ch] + rest@.take(i as int));
    }
    assert(rest@.take(rest.len() as int) =~= rest@);
    (units, e)
}

/// The records of one string package, in order.
fn string_package_entries(data: &[u8]) -> (r: Vec<(u16, String)>)
    ensures
        r@.map_values(|e: (u16, String)| (e.0, e.1@)) == string_entries(data@),
{
    let mut out: Vec<(u16, String)> = Vec::new();
    if data.len() < 4 {
        assert(out@.map_values(|e: (u16, String)| (e.0, e.1@)) =~= string_entries(data@));
        return out;
    }
    let hdr_size = read_u32(data, 0) as usize;
    if hdr_size < 4 || hdr_size > data.len() {
        assert(out@.map_values(|e: (u16, String)| (e.0, e.1@)) =~= string_entries(data@));
        return out;
    }
    let mut pos = hdr_size - 4;
    let mut string_id: u16 = 1;
    let ghost mut seen: Seq<(u16, Seq<char>)> = Seq::empty();
    proof {
        assert(out@.map_values(|e: (u16, String)| (e.0, e.1@)) =~= seen);
        assert(string_entries(data@) =~= seen + string_entries_from(data@, pos as int, string_id));
    }
    while pos < data.len()
        invariant
            pos <= data.len(),
            out@.map_values(|e: (u16, String)| (e.0, e.1@)) == seen,
            string_entries(data@) == seen + string_entries_from(data@, pos as int, string_id),
        ensures
            string_entries(data@) == seen,
            out@.map_values(|e: (u16, String)| (e.0, e.1@)) == seen,
        decreases data.len() - pos,
    {
        let block_type = data[pos];
        let p = pos + 1;
        if block_type == 0x10 {
            let end = scsu_end(data, p);
            let s = decode_utf8_lossy(slice_bytes(data, p, end));
            let next = if end < data.len() { end + 1 } else { end };
            let ghost e = (string_id, s@);
            proof {
                assert(string_entries_from(data@, pos as int, string_id) == seq![e] + string_entries_from(data@, next as int, add_id(string_id, 1)));
                assert(seen + (seq![e] + string_entries_from(data@, next as int, add_id(string_id, 1))) =~= seen.push(e) + string_entries_from(data@, next as int, add_id(string_id, 1)));
            }
            out.push((string_id, s));
            proof {
                assert(out@.map_values(|e: (u16, String)| (e.0, e.1@)) =~= seen.push(e));
                seen = seen.push(e);
            }
            string_id = wrapping_add_id(string_id, 1);
            pos = next;
        } else if block_type == 0x14 {
            let (units, next) = ucs2_units(data, p);
            let s = decode_utf16_lossy(&units);
            let ghost e = (string_id, s@);
            proof {
                assert(string_entries_from(data@, pos as int, string_id) == seq![e] + string_entries_from(data@, next as int, add_id(string_id, 1)));
                assert(seen + (seq![e] + string_entries_from(data@, next as int, add_id(string_id, 1))) =~= seen.push(e) + string_entries_from(data@, next as int, add_id(string_id, 1)));
            }
            out.push((string_id, s));
            proof {
                assert(out@.map_values(|e: (u16, String)| (e.0, e.1@)) =~= seen.push(e));
                seen = seen.push(e);
            }
            string_id = wrapping_add_id(string_id, 1);
            pos = next;
        } else if block_type == 0x21 {
            if p < data.len() && data.len() - p >= 2 {
                let count = (data[p + 1] as u16) * 256 + (data[p] as u16);
                string_id = wrapping_add_id(string_id, count);
                pos = p + 2;
            } else {
                proof {
                    assert(seen + string_entries_from(data@, pos as int, string_id) =~= seen);
                }
                break;
            }
        } else if block_type == 0x22 {
            if p < data.len() {
                string_id = wrapping_add_id(string_id, data[p] as u16);
                pos = p + 1;
            } else {
                proof {
                    assert(seen + string_entries_from(data@, pos as int, string_id) =~= seen);
                }
                break;
            }
        } else {
            proof {
                assert(seen + string_entries_from(data@, pos as int, string_id) =~= seen);
            }
            break;
        }
    }
    out
}

fn slice_bytes(data: &[u8], from: usize, to: usize) -> (r: &[u8])
    requires
        from <= to <= data.len(),
    ensures
        r@ == data@.subrange(from as int, to as int),
{
    vstd::slice::slice_subrange(data, from, to)
}

/// Parses a string package into a map from string id to text.
pub fn parse_string_package(data: &[u8]) -> (r: BTreeMap<u16, String>)
    ensures
        table_view(r@) == insert_all(Map::empty(), string_entries(data@)),
{
    let entries = string_package_entries(data);
    let mut table: BTreeMap<u16, String> = BTreeMap::new();
    assert(table_view(table@) =~= Map::<u16, Seq<char>>::empty());
    insert_entries(&mut table, &entries);
    table
}

/// Inserts the records in order.
fn insert_entries(table: &mut BTreeMap<u16, String>, entries: &Vec<(u16, String)>)
    ensures
        table_view(final(table)@) == insert_all(table_view(old(table)@), entries@.map_values(|e: (u16, String)| (e.0, e.1@))),
{
    let ghost start = table_view(table@);
    let ghost ev = entries@.map_values(|e: (u16, String)| (e.0, e.1@));
    let mut i: usize = 0;
    assert(ev.take(0) =~= Seq::<(u16, Seq<char>)>::empty());
    while i < entries.len()
        invariant
            i <= entries.len(),
            ev == entries@.map_values(|e: (u16, String)| (e.0, e.1@)),
            table_view(table@) == insert_all(start, ev.take(i as int)),
        decreases entries.len() - i,
    {
        let id = entries[i].0;
        let s = entries[i].1.clone();
        table.insert(id, s);
        proof {
            assert(ev.take(i + 1).drop_last() =~= ev.take(i as int));
            assert(ev.take(i + 1).last() == ev[i as int]);
            assert(table_view(table@) =~= insert_all(start, ev.take(i as int)).insert(id, s@));
        }
        i += 1;
    }
    assert(ev.take(entries.len() as int) =~= ev);
}

/// The merged table of several string packages: later packages override
/// earlier ones.
pub open spec fn string_table_of(packages: Seq<Seq<u8>>) -> Map<u16, Seq<char>>
    decreases packages.len(),
{
    if packages.len() == 0 {
        Map::empty()
    } else {
        insert_all(string_table_of(packages.drop_last()), string_entries(packages.last()))
    }
}

/// Builds the merged string table of all string packages of a group.
fn build_string_table(string_packages: &Vec<Vec<u8>>) -> (r: BTreeMap<u16, String>)
    ensures
        table_view(r@) == string_table_of(byte_pieces(string_packages@)),
{
    let mut table: BTreeMap<u16, String> = BTreeMap::new();
    let ghost pk = byte_pieces(string_packages@);
    let mut i: usize = 0;
    proof {
        assert(pk.take(0) =~= Seq::<Seq<u8>>::empty());
        assert(table_view(table@) =~= Map::<u16, Seq<char>>::empty());
    }
    while i < string_packages.len()
        invariant
            i <= string_packages.len(),
            pk == byte_pieces(string_packages@),
            table_view(table@) == string_table_of(pk.take(i as int)),
        decreases string_packages.len() - i,
    {
        let entries = string_package_entries(&string_packages[i]);
        insert_entries(&mut table, &entries);
        proof {
            assert(pk.take(i + 1).drop_last() =~= pk.take(i as int));
            assert(pk.take(i + 1).last() == string_packages@[i as int]@);
        }
        i += 1;
    }
    assert(pk.take(string_packages.len() as int) =~= pk);
    table
}

/// The text of a string id: empty for id 0, the table entry when present,
/// else a `<string N>` placeholder.
pub open spec fn resolve_string_spec(table: Map<u16, Seq<char>>, id: u16) -> Seq<char> {
    if id == 0 {
        seq![]
    } else if table.contains_key(id) {
        table[id]
    } else {
        "<string "@ + text::decimal(id as nat) + ">"@
    }
}

/// Resolves a string id from the table.
fn resolve_string(table: &BTreeMap<u16, String>, id: u16) -> (s: String)
    ensures
        s@ == resolve_string_spec(table_view(table@), id),
{
    if id == 0 {
        return String::new();
    }
    match table.get(&id) {
        Some(v) => v.clone(),
        None => {
            let mut out = text::lit("<string ");
            text::push_u64(&mut out, id as u64);
            text::push_str(&mut out, ">");
            text::string_from_chars(&out)
        },
    }
}

// ---------------------------------------------------------------------------
// IFR opcodes and the form index
// ---------------------------------------------------------------------------

/// One IFR opcode: its code, whether it opens a scope, and the bytes after
/// its 2-byte header.
#[derive(Debug)]
pub struct IfrOp {
    pub opcode: u8,
    pub has_scope: bool,
    pub data: Vec<u8>,
}

pub open spec fn op_view(op: IfrOp) -> (u8, bool, Seq<u8>) {
    (op.opcode, op.has_scope, op.data@)
}

pub open spec fn ops_view(ops: Seq<IfrOp>) -> Seq<(u8, bool, Seq<u8>)> {
    ops.map_values(|op: IfrOp| op_view(op))
}

/// Length field of the opcode header at `offset` (low 7 bits).
pub open spec fn op_length(fd: Seq<u8>, offset: int) -> int {
    (fd[offset + 1] % 128) as int
}

/// How far the walk moves past the opcode at `offset`: its length, or 2
/// when the length is below 2 (except for END opcodes).
pub open spec fn op_advance(fd: Seq<u8>, offset: int) -> int {
    if op_length(fd, offset) < 2 && fd[offset] != EFI_IFR_END_OP {
        2
    } else {
        op_length(fd, offset)
    }
}

/// The opcodes of a form package from `offset` on; the walk stops at a
/// truncated opcode and at an END opcode of length 0, which would not
/// advance.
pub open spec fn raw_ops(fd: Seq<u8>, offset: int) -> Seq<(u8, bool, Seq<u8>)>
    decreases fd.len() - offset,
{
    if offset < 0 || offset + 2 > fd.len() {
        seq![]
    } else {
        let length = op_length(fd, offset);
        let advance = op_advance(fd, offset);
        if advance <= 0 || offset + advance > fd.len() {
            seq![]
        } else {
            let data = if length > 2 {
                fd.subrange(offset + 2, offset + length)
            } else {
                seq![]
            };
            seq![(fd[offset], fd[offset + 1] >= 128, data)] + raw_ops(fd, offset + advance)
        }
    }
}

/// A form package whose first opcode is truncated is rejected.
pub open spec fn first_op_truncated(fd: Seq<u8>) -> bool {
    fd.len() >= 2 && op_advance(fd, 0) > fd.len()
}

/// Position of `fid` among the keys from `i` on, or -1.
pub open spec fn key_pos_from(keys: Seq<u16>, fid: u16, i: int) -> int
    decreases keys.len() - i,
{
    if i < 0 || i >= keys.len() {
        -1
    } else if keys[i] == fid {
        i
    } else {
        key_pos_from(keys, fid, i + 1)
    }
}

pub open spec fn key_pos(keys: Seq<u16>, fid: u16) -> int {
    key_pos_from(keys, fid, 0)
}

/// The form index: form ids in order of first appearance, each with the
/// opcodes attributed to it.
pub struct FormIndexView {
    pub keys: Seq<u16>,
    pub lists: Seq<Seq<(u8, bool, Seq<u8>)>>,
    pub current: Option<u16>,
    pub root: Option<u16>,
}

pub open spec fn ensure_key(ix: FormIndexView, fid: u16) -> FormIndexView {
    if key_pos(ix.keys, fid) >= 0 {
        ix
    } else {
        FormIndexView { keys: ix.keys.push(fid), lists: ix.lists.push(seq![]), ..ix }
    }
}

/// Processes one opcode: FORM opens (and indexes) a form, FORM_SET is
/// skipped, anything else is attributed to the current form.
pub open spec fn index_step(ix: FormIndexView, op: (u8, bool, Seq<u8>)) -> FormIndexView {
    if op.0 == EFI_IFR_FORM_OP {
        match read_u16_spec(op.2, 0) {
            Some(fid) => {
                let ix1 = ensure_key(ix, fid);
                FormIndexView {
                    current: Some(fid),
                    root: if ix.root is None {
                        Some(fid)
                    } else {
                        ix.root
                    },
                    ..ix1
                }
            },
            None => ix,
        }
    } else if op.0 == EFI_IFR_FORM_SET_OP {
        ix
    } else {
        match ix.current {
            Some(fid) => {
                let ix1 = ensure_key(ix, fid);
                let p = key_pos(ix1.keys, fid);
                FormIndexView { lists: ix1.lists.update(p, ix1.lists[p].push(op)), ..ix1 }
            },
            None => ix,
        }
    }
}

pub open spec fn index_fold(ops: Seq<(u8, bool, Seq<u8>)>) -> FormIndexView
    decreases ops.len(),
{
    if ops.len() == 0 {
        FormIndexView { keys: seq![], lists: seq![], current: None, root: None }
    } else {
        index_step(index_fold(ops.drop_last()), ops.last())
    }
}

/// The form index of a form package.
pub open spec fn form_index_of(fd: Seq<u8>) -> FormIndexView {
    index_fold(raw_ops(fd, 0))
}

/// An exec form index: keys and per-form opcode lists side by side.
pub struct FormIndex {
    pub keys: Vec<u16>,
    pub lists: Vec<Vec<IfrOp>>,
}

pub open spec fn lists_view(lists: Seq<Vec<IfrOp>>) -> Seq<Seq<(u8, bool, Seq<u8>)>> {
    lists.map_values(|l: Vec<IfrOp>| ops_view(l@))
}

fn find_key(keys: &Vec<u16>, fid: u16) -> (r: Option<usize>)
    ensures
        match r {
            Some(p) => key_pos(keys@, fid) == p as int && p < keys.len(),
            None => key_pos(keys@, fid) == -1,
        },
{
    let mut i: usize = 0;
    while i < keys.len()
        invariant
            i <= keys.len(),
            key_pos(keys@, fid) == key_pos_from(keys@, fid, i as int),
        decreases keys.len() - i,
    {
        if keys[i] == fid {
            return Some(i);
        }
        i += 1;
    }
    None
}

proof fn lemma_key_pos_range(keys: Seq<u16>, fid: u16, i: int)
    requires
        0 <= i,
    ensures
        key_pos_from(keys, fid, i) == -1 || (i <= key_pos_from(keys, fid, i) < keys.len() && keys[key_pos_from(keys, fid, i)] == fid),
    decreases keys.len() - i,
{
    if i < keys.len() && keys[i] != fid {
        lemma_key_pos_range(keys, fid, i + 1);
    }
}

proof fn lemma_key_pos_push(keys: Seq<u16>, fid: u16, x: u16, i: int)
    requires
        0 <= i,
        key_pos_from(keys, fid, i) >= 0,
    ensures
        key_pos_from(keys.push(x), fid, i) == key_pos_from(keys, fid, i),
    decreases keys.len() - i,
{
    if i < keys.len() && keys[i] != fid {
        lemma_key_pos_push(keys, fid, x, i + 1);
    }
}

proof fn lemma_key_pos_push_new(keys: Seq<u16>, fid: u16, i: int)
    requires
        0 <= i <= keys.len(),
        key_pos_from(keys, fid, i) == -1,
    ensures
        key_pos_from(keys.push(fid), fid, i) == keys.len(),
    decreases keys.len() - i,
{
    if i < keys.len() {
        lemma_key_pos_push_new(keys, fid, i + 1);
    }
}

/// Makes sure `fid` has an entry; returns its position.
fn ensure_form(ix: &mut FormIndex, fid: u16) -> (p: usize)
    requires
        old(ix).keys@.len() == old(ix).lists@.len(),
    ensures
        final(ix).keys@.len() == final(ix).lists@.len(),
        ({
            let before = FormIndexView { keys: old(ix).keys@, lists: lists_view(old(ix).lists@), current: None, root: None };
            let after = ensure_key(before, fid);
            &&& final(ix).keys@ == after.keys
            &&& lists_view(final(ix).lists@) == after.lists
            &&& p == key_pos(after.keys, fid)
            &&& p < final(ix).keys@.len()
        }),
{
    match find_key(&ix.keys, fid) {
        Some(p) => p,
        None => {
            let ghost old_lists = ix.lists@;
            ix.keys.push(fid);
            ix.lists.push(Vec::new());
            proof {
                lemma_key_pos_push_new(old(ix).keys@, fid, 0);
                assert(ops_view(ix.lists@.last()@) =~= Seq::<(u8, bool, Seq<u8>)>::empty());
                assert(lists_view(ix.lists@) =~= lists_view(old_lists).push(seq![]));
            }
            ix.keys.len() - 1
        },
    }
}

/// Walks the opcodes of a form package and indexes them by form; the first
/// FORM opcode names the root form. A truncated first opcode is an error.
fn build_form_index(form_data: &[u8]) -> (r: Result<(FormIndex, Option<u16>), ()>)
    ensures
        match r {
            Ok((ix, root)) => !first_op_truncated(form_data@) && ix.keys@ == form_index_of(form_data@).keys
                && lists_view(ix.lists@) == form_index_of(form_data@).lists
                && root == form_index_of(form_data@).root
                && ix.keys@.len() == ix.lists@.len(),
            Err(_) => first_op_truncated(form_data@),
        },
{
    let mut ix = FormIndex { keys: Vec::new(), lists: Vec::new() };
    let mut current: Option<u16> = None;
    let mut root: Option<u16> = None;
    let mut offset: usize = 0;
    let ghost mut seen: Seq<(u8, bool, Seq<u8>)> = Seq::empty();
    proof {
        assert(raw_ops(form_data@, 0) =~= seen + raw_ops(form_data@, 0));
        assert(lists_view(ix.lists@) =~= Seq::<Seq<(u8, bool, Seq<u8>)>>::empty());
    }
    while offset <= form_data.len() && form_data.len() - offset >= 2
        invariant
            offset <= form_data.len(),
            raw_ops(form_data@, 0) == seen + raw_ops(form_data@, offset as int),
            offset > 0 ==> !first_op_truncated(form_data@),
            ix.keys@.len() == ix.lists@.len(),
            index_fold(seen) == (FormIndexView { keys: ix.keys@, lists: lists_view(ix.lists@), current, root }),
        ensures
            raw_ops(form_data@, 0) == seen,
            !first_op_truncated(form_data@),
            ix.keys@.len() == ix.lists@.len(),
            index_fold(seen) == (FormIndexView { keys: ix.keys@, lists: lists_view(ix.lists@), current, root }),
        decreases form_data.len() - offset,
    {
        let opcode = form_data[offset];
        let len_byte = form_data[offset + 1];
        let length = (len_byte & 0x7F) as usize;
        let has_scope = (len_byte & 0x80) != 0;
        proof {
            assert((len_byte & 0x7F) == len_byte % 128) by (bit_vector);
            assert(((len_byte & 0x80) != 0) == (len_byte >= 128)) by (bit_vector);
        }
        let advance: usize = if length < 2 && opcode != EFI_IFR_END_OP {
            2
        } else {
            length
        };
        if advance == 0 {
            proof {
                assert(raw_ops(form_data@, offset as int) =~= Seq::<(u8, bool, Seq<u8>)>::empty());
                assert(seen + raw_ops(form_data@, offset as int) =~= seen);
            }
            break;
        }
        if advance > form_data.len() - offset {
            proof {
                assert(raw_ops(form_data@, offset as int) =~= Seq::<(u8, bool, Seq<u8>)>::empty());
                assert(seen + raw_ops(form_data@, offset as int) =~= seen);
            }
            if offset == 0 {
                return Err(());
            }
            break;
        }
        let data = if length > 2 {
            text_bytes(form_data, offset + 2, offset + length)
        } else {
            Vec::new()
        };
        let op = IfrOp { opcode, has_scope, data };
        let ghost ov = op_view(op);
        proof {
            assert(ov.2 =~= (if length > 2 { form_data@.subrange(offset + 2, offset + length) } else { seq![] }));
            assert(raw_ops(form_data@, offset as int) == seq![ov] + raw_ops(form_data@, offset + advance));
            assert(seen + (seq![ov] + raw_ops(form_data@, offset + advance)) =~= seen.push(ov) + raw_ops(form_data@, offset + advance));
            assert(seen.push(ov).drop_last() =~= seen);
        }
        let ghost before = FormIndexView { keys: ix.keys@, lists: lists_view(ix.lists@), current, root };
        if opcode == EFI_IFR_FORM_OP {
            match read_u16(&op.data, 0) {
                Some(form_id) => {
                    current = Some(form_id);
                    if root.is_none() {
                        root = Some(form_id);
                    }
                    let _p = ensure_form(&mut ix, form_id);
                },
                None => {},
            }
        } else if opcode == EFI_IFR_FORM_SET_OP {
        } else {
            match current {
                Some(fid) => {
                    let p = ensure_form(&mut ix, fid);
                    let ghost mid = lists_view(ix.lists@);
                    ix.lists[p].push(op);
                    proof {
                        assert(ops_view(ix.lists@[p as int]@) =~= mid[p as int].push(ov));
                        assert(lists_view(ix.lists@) =~= mid.update(p as int, mid[p as int].push(ov)));
                    }
                },
                None => {},
            }
        }
        proof {
            assert(index_fold(seen.push(ov)) == index_step(before, ov));
            seen = seen.push(ov);
        }
        offset += advance;
    }
    Ok((ix, root))
}

// ---------------------------------------------------------------------------
// Walking forms
// ---------------------------------------------------------------------------

pub open spec fn u16_or_zero(o: Option<u16>) -> u16 {
    match o {
        Some(v) => v,
        None => 0,
    }
}

/// The question of a question opcode (OneOf, Numeric, CheckBox, String,
/// OrderedList): prompt and help resolved from the first two string ids.
pub open spec fn question_of(data: Seq<u8>, st: Map<u16, Seq<char>>) -> Option<(Seq<char>, Seq<char>, Seq<char>)> {
    match (read_u16_spec(data, 0), read_u16_spec(data, 2)) {
        (Some(prompt), Some(help)) => Some((resolve_string_spec(st, prompt), seq![], resolve_string_spec(st, help))),
        _ => None,
    }
}

/// The entry of a SUBTITLE or TEXT opcode with a non-zero prompt; a TEXT
/// opcode with an empty help falls back to its second text.
pub open spec fn display_entry(opcode: u8, data: Seq<u8>, st: Map<u16, Seq<char>>) -> Option<(Seq<char>, Seq<char>, Seq<char>)> {
    let prompt = u16_or_zero(read_u16_spec(data, 0));
    if prompt == 0 {
        None
    } else {
        let help0 = resolve_string_spec(st, u16_or_zero(read_u16_spec(data, 2)));
        let help = if help0.len() == 0 && opcode == EFI_IFR_TEXT_OP {
            resolve_string_spec(st, u16_or_zero(read_u16_spec(data, 4)))
        } else {
            help0
        };
        Some((resolve_string_spec(st, prompt), seq![], help))
    }
}

/// Scans the scope of a OneOf for its options: the first non-empty option
/// text, and the last option flagged as default (flag bits 0x30).
pub open spec fn oneof_scan(
    ops: Seq<(u8, bool, Seq<u8>)>,
    st: Map<u16, Seq<char>>,
    idx: int,
    depth: int,
    first: Option<Seq<char>>,
    preferred: Option<Seq<char>>,
) -> Option<Seq<char>>
    decreases ops.len() - idx,
{
    if idx < 0 || idx >= ops.len() || depth <= 0 {
        match preferred {
            Some(p) => Some(p),
            None => first,
        }
    } else {
        let op = ops[idx];
        if op.0 == EFI_IFR_END_OP {
            oneof_scan(ops, st, idx + 1, depth - 1, first, preferred)
        } else {
            let at_option = depth == 1 && op.0 == EFI_IFR_ONE_OF_OPTION_OP;
            let option_text = resolve_string_spec(st, u16_or_zero(read_u16_spec(op.2, 0)));
            let flags: u8 = if op.2.len() > 2 { op.2[2] } else { 0 };
            let first2 = if at_option && first is None && option_text.len() > 0 {
                Some(option_text)
            } else {
                first
            };
            let preferred2 = if at_option && (flags & 0x30) != 0 {
                Some(option_text)
            } else {
                preferred
            };
            let depth2 = if op.1 {
                depth + 1
            } else {
                depth
            };
            oneof_scan(ops, st, idx + 1, depth2, first2, preferred2)
        }
    }
}

/// The answer of the OneOf at `start`, read from its options.
pub open spec fn oneof_answer(ops: Seq<(u8, bool, Seq<u8>)>, st: Map<u16, Seq<char>>, start: int) -> Option<Seq<char>> {
    if start < 0 || start >= ops.len() || !ops[start].1 {
        None
    } else {
        oneof_scan(ops, st, start + 1, 1, None, None)
    }
}

/// The entries that a non-REF opcode at position `i` contributes.
pub open spec fn op_entries(ops: Seq<(u8, bool, Seq<u8>)>, i: int, st: Map<u16, Seq<char>>) -> Seq<(Seq<char>, Seq<char>, Seq<char>)> {
    let op = ops[i];
    if op.0 == EFI_IFR_ONE_OF_OP {
        match question_of(op.2, st) {
            Some(q) => {
                let answer = match oneof_answer(ops, st, i) {
                    Some(a) => a,
                    None => q.1,
                };
                seq![(q.0, answer, q.2)]
            },
            None => seq![],
        }
    } else if op.0 == EFI_IFR_NUMERIC_OP || op.0 == EFI_IFR_CHECKBOX_OP || op.0 == EFI_IFR_STRING_OP || op.0
        == EFI_IFR_ORDERED_LIST_OP {
        match question_of(op.2, st) {
            Some(q) => seq![q],
            None => seq![],
        }
    } else if op.0 == EFI_IFR_SUBTITLE_OP || op.0 == EFI_IFR_TEXT_OP {
        match display_entry(op.0, op.2, st) {
            Some(q) => seq![q],
            None => seq![],
        }
    } else {
        seq![]
    }
}

/// Target form ids of a REF opcode: the form id at byte 11, then every
/// other u16 (at every byte offset) that names an indexed form, without
/// repeats.
pub open spec fn ref_scan(data: Seq<u8>, keys: Seq<u16>, start: int, out: Seq<u16>) -> Seq<u16>
    decreases data.len() - start,
{
    if start < 0 || start + 2 > data.len() {
        out
    } else {
        let fid = le16(data, start) as u16;
        let out2 = if key_pos(keys, fid) >= 0 && !out.contains(fid) {
            out.push(fid)
        } else {
            out
        };
        ref_scan(data, keys, start + 1, out2)
    }
}

pub open spec fn ref_targets(data: Seq<u8>, keys: Seq<u16>) -> Seq<u16> {
    let initial = match read_u16_spec(data, 11) {
        Some(fid) => if key_pos(keys, fid) >= 0 {
            seq![fid]
        } else {
            seq![]
        },
        None => seq![],
    };
    ref_scan(data, keys, 0, initial)
}

/// Walks form `p` unless already visited (`fuel` bounds the nesting).
pub open spec fn walk_form_spec(
    keys: Seq<u16>,
    lists: Seq<Seq<(u8, bool, Seq<u8>)>>,
    st: Map<u16, Seq<char>>,
    p: int,
    vis: Seq<bool>,
    fuel: nat,
) -> (Seq<(Seq<char>, Seq<char>, Seq<char>)>, Seq<bool>)
    decreases fuel, 0nat, 0nat,
{
    if !(0 <= p < vis.len()) || p >= lists.len() || vis[p] || fuel == 0 {
        (seq![], vis)
    } else {
        walk_ops_spec(keys, lists, st, p, 0, vis.update(p, true), (fuel - 1) as nat)
    }
}

/// Walks the opcodes of form `p` from position `i`.
pub open spec fn walk_ops_spec(
    keys: Seq<u16>,
    lists: Seq<Seq<(u8, bool, Seq<u8>)>>,
    st: Map<u16, Seq<char>>,
    p: int,
    i: int,
    vis: Seq<bool>,
    fuel: nat,
) -> (Seq<(Seq<char>, Seq<char>, Seq<char>)>, Seq<bool>)
    decreases fuel, 2nat, (if 0 <= p < lists.len() && 0 <= i <= lists[p].len() {
        lists[p].len() - i
    } else {
        0
    }),
{
    if !(0 <= p < lists.len()) || i < 0 || i >= lists[p].len() {
        (seq![], vis)
    } else {
        let op = lists[p][i];
        let first = if op.0 == EFI_IFR_REF_OP {
            walk_targets_spec(keys, lists, st, ref_targets(op.2, keys), 0, vis, fuel)
        } else {
            (op_entries(lists[p], i, st), vis)
        };
        let rest = walk_ops_spec(keys, lists, st, p, i + 1, first.1, fuel);
        (first.0 + rest.0, rest.1)
    }
}

/// Walks the target forms `ts` from position `j`.
pub open spec fn walk_targets_spec(
    keys: Seq<u16>,
    lists: Seq<Seq<(u8, bool, Seq<u8>)>>,
    st: Map<u16, Seq<char>>,
    ts: Seq<u16>,
    j: int,
    vis: Seq<bool>,
    fuel: nat,
) -> (Seq<(Seq<char>, Seq<char>, Seq<char>)>, Seq<bool>)
    decreases fuel, 1nat, (if 0 <= j <= ts.len() {
        ts.len() - j
    } else {
        0
    }),
{
    if j < 0 || j >= ts.len() {
        (seq![], vis)
    } else {
        let first = walk_form_spec(keys, lists, st, key_pos(keys, ts[j]), vis, fuel);
        let rest = walk_targets_spec(keys, lists, st, ts, j + 1, first.1, fuel);
        (first.0 + rest.0, rest.1)
    }
}

pub open spec fn questions_view(v: Seq<HiiQuestion>) -> Seq<(Seq<char>, Seq<char>, Seq<char>)> {
    v.map_values(|q: HiiQuestion| question_view(q))
}

/// Number of unvisited forms.
pub open spec fn unvisited(vis: Seq<bool>) -> nat
    decreases vis.len(),
{
    if vis.len() == 0 {
        0
    } else {
        unvisited(vis.drop_last()) + if vis.last() {
            0nat
        } else {
            1nat
        }
    }
}

proof fn lemma_unvisited_mark(vis: Seq<bool>, p: int)
    requires
        0 <= p < vis.len(),
        !vis[p],
    ensures
        unvisited(vis.update(p, true)) + 1 == unvisited(vis),
    decreases vis.len(),
{
    if p < vis.len() - 1 {
        lemma_unvisited_mark(vis.drop_last(), p);
        assert(vis.update(p, true).drop_last() =~= vis.drop_last().update(p, true));
    } else {
        assert(vis.update(p, true).drop_last() =~= vis.drop_last());
    }
}

proof fn lemma_unvisited_mono(a: Seq<bool>, b: Seq<bool>)
    requires
        a.len() == b.len(),
        forall|k: int| 0 <= k < a.len() && a[k] ==> b[k],
    ensures
        unvisited(b) <= unvisited(a),
    decreases a.len(),
{
    if a.len() > 0 {
        lemma_unvisited_mono(a.drop_last(), b.drop_last());
    }
}

proof fn lemma_unvisited_pos(vis: Seq<bool>, p: int)
    requires
        0 <= p < vis.len(),
        !vis[p],
    ensures
        unvisited(vis) >= 1,
{
    lemma_unvisited_mark(vis, p);
}

fn u16_or_zero_exec(o: Option<u16>) -> (v: u16)
    ensures
        v == u16_or_zero(o),
{
    match o {
        Some(v) => v,
        None => 0,
    }
}

/// Reads the question of a question opcode.
fn extract_question(op: &IfrOp, string_table: &BTreeMap<u16, String>) -> (r: Option<HiiQuestion>)
    ensures
        match r {
            Some(q) => question_of(op.data@, table_view(string_table@)) == Some(question_view(q)),
            None => question_of(op.data@, table_view(string_table@)) is None,
        },
{
    let prompt_id = match read_u16(&op.data, 0) {
        Some(v) => v,
        None => return None,
    };
    let help_id = match read_u16(&op.data, 2) {
        Some(v) => v,
        None => return None,
    };
    let name = resolve_string(string_table, prompt_id);
    let help = resolve_string(string_table, help_id);
    let answer = String::new();
    Some(HiiQuestion { name, answer, help })
}

fn seq_contains_u16(v: &Vec<u16>, x: u16) -> (b: bool)
    ensures
        b == v@.contains(x),
{
    let mut i: usize = 0;
    while i < v.len()
        invariant
            i <= v.len(),
            forall|k: int| 0 <= k < i ==> v@[k] != x,
        decreases v.len() - i,
    {
        if v[i] == x {
            return true;
        }
        i += 1;
    }
    false
}

/// Reads the target form ids of a REF opcode.
fn extract_ref_form_ids(op: &IfrOp, keys: &Vec<u16>) -> (out: Vec<u16>)
    ensures
        out@ == ref_targets(op.data@, keys@),
{
    let mut out: Vec<u16> = Vec::new();
    match read_u16(&op.data, 11) {
        Some(fid) => {
            if find_key(keys, fid).is_some() {
                out.push(fid);
            }
        },
        None => {},
    }
    proof {
        let initial = match read_u16_spec(op.data@, 11) {
            Some(fid) => if key_pos(keys@, fid) >= 0 {
                seq![fid]
            } else {
                seq![]
            },
            None => seq![],
        };
        assert(out@ =~= initial);
    }
    let limit = if op.data.len() > 0 {
        op.data.len() - 1
    } else {
        0
    };
    let mut start: usize = 0;
    while start < limit
        invariant
            start <= limit,
            limit == (if op.data@.len() > 0 { op.data@.len() - 1 } else { 0 }),
            ref_targets(op.data@, keys@) == ref_scan(op.data@, keys@, start as int, out@),
        decreases limit - start,
    {
        match read_u16(&op.data, start) {
            Some(fid) => {
                if find_key(keys, fid).is_some() && !seq_contains_u16(&out, fid) {
                    out.push(fid);
                }
            },
            None => {},
        }
        start += 1;
    }
    out
}

/// Reads the answer of the OneOf at `start_index` from its options.
fn extract_oneof_answer(start_index: usize, ops: &Vec<IfrOp>, string_table: &BTreeMap<u16, String>) -> (r: Option<String>)
    ensures
        match r {
            Some(s) => oneof_answer(ops_view(ops@), table_view(string_table@), start_index as int) == Some(s@),
            None => oneof_answer(ops_view(ops@), table_view(string_table@), start_index as int) is None,
        },
{
    let ghost ov = ops_view(ops@);
    let ghost st = table_view(string_table@);
    if start_index >= ops.len() || !ops[start_index].has_scope {
        return None;
    }
    let mut depth: u64 = 1;
    let mut idx = start_index + 1;
    let mut first_option: Option<String> = None;
    let mut preferred_option: Option<String> = None;
    while idx < ops.len() && depth > 0
        invariant
            start_index < idx <= ops.len(),
            depth <= idx - start_index,
            ov == ops_view(ops@),
            st == table_view(string_table@),
            oneof_answer(ov, st, start_index as int) == oneof_scan(ov, st, idx as int, depth as int, match first_option {
                Some(s) => Some(s@),
                None => None,
            }, match preferred_option {
                Some(s) => Some(s@),
                None => None,
            }),
        decreases ops.len() - idx,
    {
        let op = &ops[idx];
        assert(ov[idx as int] == op_view(*op));
        if op.opcode == EFI_IFR_END_OP {
            depth = depth - 1;
            idx += 1;
            continue;
        }
        if depth == 1 && op.opcode == EFI_IFR_ONE_OF_OPTION_OP {
            let option_string_id = u16_or_zero_exec(read_u16(&op.data, 0));
            let option_flags: u8 = if op.data.len() > 2 {
                op.data[2]
            } else {
                0
            };
            let option_text = resolve_string(string_table, option_string_id);
            if first_option.is_none() && option_text.as_str().unicode_len() > 0 {
                first_option = Some(option_text.clone());
            }
            if (option_flags & 0x10) != 0 || (option_flags & 0x20) != 0 || (option_flags & 0x30) != 0 {
                proof {
                    assert(((option_flags & 0x10) != 0 || (option_flags & 0x20) != 0 || (option_flags & 0x30) != 0) == ((option_flags & 0x30) != 0)) by (bit_vector);
                }
                preferred_option = Some(option_text);
            }
        }
        if op.has_scope {
            depth += 1;
        }
        idx += 1;
    }
    match preferred_option {
        Some(p) => Some(p),
        None => first_option,
    }
}

proof fn lemma_questions_append(a: Seq<HiiQuestion>, b: Seq<HiiQuestion>)
    ensures
        questions_view(a + b) == questions_view(a) + questions_view(b),
{
    assert(questions_view(a + b) =~= questions_view(a) + questions_view(b));
}

/// The entries of a non-REF opcode.
fn op_entries_exec(ops: &Vec<IfrOp>, i: usize, string_table: &BTreeMap<u16, String>) -> (r: Vec<HiiQuestion>)
    requires
        i < ops@.len(),
    ensures
        questions_view(r@) == op_entries(ops_view(ops@), i as int, table_view(string_table@)),
{
    let op = &ops[i];
    let ghost ov = ops_view(ops@);
    assert(ov[i as int] == op_view(*op));
    let mut out: Vec<HiiQuestion> = Vec::new();
    if op.opcode == EFI_IFR_ONE_OF_OP {
        match extract_question(op, string_table) {
            Some(q) => {
                let answer = match extract_oneof_answer(i, ops, string_table) {
                    Some(a) => a,
                    None => q.answer,
                };
                out.push(HiiQuestion { name: q.name, answer, help: q.help });
            },
            None => {},
        }
    } else if op.opcode == EFI_IFR_NUMERIC_OP || op.opcode == EFI_IFR_CHECKBOX_OP || op.opcode == EFI_IFR_STRING_OP
        || op.opcode == EFI_IFR_ORDERED_LIST_OP {
        match extract_question(op, string_table) {
            Some(q) => out.push(q),
            None => {},
        }
    } else if op.opcode == EFI_IFR_SUBTITLE_OP || op.opcode == EFI_IFR_TEXT_OP {
        let prompt_string_id = u16_or_zero_exec(read_u16(&op.data, 0));
        if prompt_string_id != 0 {
            let help_string_id = u16_or_zero_exec(read_u16(&op.data, 2));
            let name = resolve_string(string_table, prompt_string_id);
            let mut help = resolve_string(string_table, help_string_id);
            if help.as_str().unicode_len() == 0 && op.opcode == EFI_IFR_TEXT_OP {
                let text_two_id = u16_or_zero_exec(read_u16(&op.data, 4));
                help = resolve_string(string_table, text_two_id);
            }
            out.push(HiiQuestion { name, answer: String::new(), help });
        }
    }
    assert(questions_view(out@) =~= op_entries(ov, i as int, table_view(string_table@)));
    out
}

/// Walks form `p` (unless already visited) and the forms its REF opcodes
/// lead to, collecting questions.
fn walk_form(
    p: usize,
    ix: &FormIndex,
    string_table: &BTreeMap<u16, String>,
    visited: &mut Vec<bool>,
    Ghost(fuel): Ghost<nat>,
) -> (questions: Vec<HiiQuestion>)
    requires
        ix.keys@.len() == ix.lists@.len(),
        old(visited)@.len() == ix.keys@.len(),
        p < ix.keys@.len(),
        fuel >= unvisited(old(visited)@),
    ensures
        final(visited)@.len() == old(visited)@.len(),
        forall|k: int| 0 <= k < old(visited)@.len() && old(visited)@[k] ==> final(visited)@[k],
        (questions_view(questions@), final(visited)@) == walk_form_spec(
            ix.keys@,
            lists_view(ix.lists@),
            table_view(string_table@),
            p as int,
            old(visited)@,
            fuel,
        ),
    decreases fuel,
{
    let ghost keys = ix.keys@;
    let ghost lists = lists_view(ix.lists@);
    let ghost st = table_view(string_table@);
    let ghost vis0 = visited@;
    if visited[p] {
        return Vec::new();
    }
    proof {
        lemma_unvisited_pos(visited@, p as int);
        lemma_unvisited_mark(visited@, p as int);
    }
    visited.set(p, true);
    let ghost f1: nat = (fuel - 1) as nat;
    let ghost vis1 = visited@;
    let ops = &ix.lists[p];
    assert(lists[p as int] == ops_view(ops@));
    let mut questions: Vec<HiiQuestion> = Vec::new();
    let mut i: usize = 0;
    proof {
        assert(questions_view(questions@) + walk_ops_spec(keys, lists, st, p as int, 0, vis1, f1).0 =~= walk_ops_spec(keys, lists, st, p as int, 0, vis1, f1).0);
    }
    while i < ops.len()
        invariant
            ix.keys@.len() == ix.lists@.len(),
            keys == ix.keys@,
            lists == lists_view(ix.lists@),
            st == table_view(string_table@),
            0 <= p < keys.len(),
            lists[p as int] == ops_view(ops@),
            *ops == ix.lists@[p as int],
            i <= ops.len(),
            visited@.len() == vis0.len(),
            forall|k: int| 0 <= k < vis0.len() && vis0[k] ==> visited@[k],
            vis0.len() == keys.len(),
            f1 + 1 == fuel,
            f1 >= unvisited(visited@),
            walk_ops_spec(keys, lists, st, p as int, 0, vis1, f1) == (
                questions_view(questions@) + walk_ops_spec(keys, lists, st, p as int, i as int, visited@, f1).0,
                walk_ops_spec(keys, lists, st, p as int, i as int, visited@, f1).1,
            ),
        decreases ops.len() - i,
    {
        let ghost vis_i = visited@;
        let ghost q_i = questions@;
        let op = &ops[i];
        assert(ops_view(ops@)[i as int] == op_view(*op));
        if op.opcode == EFI_IFR_REF_OP {
            let targets = extract_ref_form_ids(op, &ix.keys);
            let ghost ts = targets@;
            let mut sub: Vec<HiiQuestion> = Vec::new();
            let mut j: usize = 0;
            proof {
                assert(questions_view(sub@) + walk_targets_spec(keys, lists, st, ts, 0, vis_i, f1).0 =~= walk_targets_spec(keys, lists, st, ts, 0, vis_i, f1).0);
            }
            while j < targets.len()
                invariant
                    ix.keys@.len() == ix.lists@.len(),
                    keys == ix.keys@,
                    lists == lists_view(ix.lists@),
                    st == table_view(string_table@),
                    ts == targets@,
                    j <= targets.len(),
                    visited@.len() == vis0.len(),
                    forall|k: int| 0 <= k < vis0.len() && vis0[k] ==> visited@[k],
                    vis0.len() == keys.len(),
                    f1 >= unvisited(visited@),
                    f1 + 1 == fuel,
                    walk_targets_spec(keys, lists, st, ts, 0, vis_i, f1) == (
                        questions_view(sub@) + walk_targets_spec(keys, lists, st, ts, j as int, visited@, f1).0,
                        walk_targets_spec(keys, lists, st, ts, j as int, visited@, f1).1,
                    ),
                decreases targets.len() - j,
            {
                let ghost vis_j = visited@;
                let ghost sub_j = sub@;
                let t = targets[j];
                match find_key(&ix.keys, t) {
                    Some(tp) => {
                        let mut found = walk_form(tp, ix, string_table, visited, Ghost(f1));
                        proof {
                            lemma_questions_append(sub@, found@);
                            lemma_unvisited_mono(vis_j, visited@);
                        }
                        sub.append(&mut found);
                    },
                    None => {
                        assert(walk_form_spec(keys, lists, st, key_pos(keys, t), vis_j, f1) == (Seq::<(Seq<char>, Seq<char>, Seq<char>)>::empty(), vis_j));
                    },
                }
                proof {
                    let first = walk_form_spec(keys, lists, st, key_pos(keys, ts[j as int]), vis_j, f1);
                    let rest = walk_targets_spec(keys, lists, st, ts, j + 1, first.1, f1);
                    assert(walk_targets_spec(keys, lists, st, ts, j as int, vis_j, f1) == (first.0 + rest.0, rest.1));
                    assert(questions_view(sub_j) + (first.0 + rest.0) =~= (questions_view(sub_j) + first.0) + rest.0);
                }
                j += 1;
            }
            proof {
                lemma_questions_append(questions@, sub@);
                let first = walk_targets_spec(keys, lists, st, ts, 0, vis_i, f1);
                let rest = walk_ops_spec(keys, lists, st, p as int, i + 1, first.1, f1);
                assert(questions_view(sub@) =~= first.0);
                assert(walk_ops_spec(keys, lists, st, p as int, i as int, vis_i, f1) == (first.0 + rest.0, rest.1));
                assert(questions_view(q_i) + (first.0 + rest.0) =~= (questions_view(q_i) + first.0) + rest.0);
            }
            questions.append(&mut sub);
        } else {
            let mut entries = op_entries_exec(ops, i, string_table);
            proof {
                lemma_questions_append(questions@, entries@);
                let first = (op_entries(lists[p as int], i as int, st), vis_i);
                let rest = walk_ops_spec(keys, lists, st, p as int, i + 1, first.1, f1);
                assert(walk_ops_spec(keys, lists, st, p as int, i as int, vis_i, f1) == (first.0 + rest.0, rest.1));
                assert(questions_view(q_i) + (first.0 + rest.0) =~= (questions_view(q_i) + first.0) + rest.0);
            }
            questions.append(&mut entries);
        }
        i += 1;
    }
    proof {
        assert(walk_ops_spec(keys, lists, st, p as int, i as int, visited@, f1) == (Seq::<(Seq<char>, Seq<char>, Seq<char>)>::empty(), visited@));
        assert(questions_view(questions@) + Seq::<(Seq<char>, Seq<char>, Seq<char>)>::empty() =~= questions_view(questions@));
        assert(vis1 == vis0.update(p as int, true));
    }
    questions
}


/// Walks every form from position `k` on that is not yet visited, in index
/// order, after the root walk.
pub open spec fn walk_from_spec(
    keys: Seq<u16>,
    lists: Seq<Seq<(u8, bool, Seq<u8>)>>,
    st: Map<u16, Seq<char>>,
    k: int,
    vis: Seq<bool>,
    fuel: nat,
) -> (Seq<(Seq<char>, Seq<char>, Seq<char>)>, Seq<bool>)
    decreases keys.len() - k,
{
    if k < 0 || k >= keys.len() {
        (seq![], vis)
    } else {
        let first = walk_form_spec(keys, lists, st, k, vis, fuel);
        let rest = walk_from_spec(keys, lists, st, k + 1, first.1, fuel);
        (first.0 + rest.0, rest.1)
    }
}

/// The questions of one form package: nothing for a package whose first
/// opcode is truncated or that has no form; else the walk from the root
/// form, then the forms the root walk did not reach.
pub open spec fn form_package_questions(fd: Seq<u8>, st: Map<u16, Seq<char>>) -> Seq<(Seq<char>, Seq<char>, Seq<char>)> {
    if first_op_truncated(fd) {
        seq![]
    } else {
        let ix = form_index_of(fd);
        match ix.root {
            None => seq![],
            Some(r) => {
                let n = ix.keys.len();
                let vis0 = Seq::new(n, |i: int| false);
                let a = walk_form_spec(ix.keys, ix.lists, st, key_pos(ix.keys, r), vis0, n);
                let b = walk_from_spec(ix.keys, ix.lists, st, 0, a.1, n);
                a.0 + b.0
            },
        }
    }
}

/// The questions of the form packages of one group, in order.
pub open spec fn forms_questions(forms: Seq<Seq<u8>>, st: Map<u16, Seq<char>>) -> Seq<(Seq<char>, Seq<char>, Seq<char>)>
    decreases forms.len(),
{
    if forms.len() == 0 {
        seq![]
    } else {
        forms_questions(forms.drop_last(), st) + form_package_questions(forms.last(), st)
    }
}

/// The questions of all groups; each group resolves strings through its own
/// string packages.
pub open spec fn groups_questions(groups: Seq<(Seq<Seq<u8>>, Seq<Seq<u8>>)>) -> Seq<(Seq<char>, Seq<char>, Seq<char>)>
    decreases groups.len(),
{
    if groups.len() == 0 {
        seq![]
    } else {
        groups_questions(groups.drop_last()) + forms_questions(groups.last().0, string_table_of(groups.last().1))
    }
}

/// The package groups the parse works on: the package lists when there are
/// any, else the whole database as one flat stream of packages.
pub open spec fn chosen_groups(db: Seq<u8>) -> Seq<(Seq<Seq<u8>>, Seq<Seq<u8>>)> {
    if package_lists(db, 0).len() > 0 {
        package_lists(db, 0)
    } else {
        seq![group_of(db, 0, db.len() as int)]
    }
}

/// The questions of an HII database.
pub open spec fn ifr_questions(db: Seq<u8>) -> Seq<(Seq<char>, Seq<char>, Seq<char>)> {
    groups_questions(chosen_groups(db))
}

proof fn lemma_unvisited_bound(vis: Seq<bool>)
    ensures
        unvisited(vis) <= vis.len(),
    decreases vis.len(),
{
    if vis.len() > 0 {
        lemma_unvisited_bound(vis.drop_last());
    }
}

/// Walks the forms the root walk did not reach, in index order.
fn walk_orphans(
    ix: &FormIndex,
    string_table: &BTreeMap<u16, String>,
    visited: &mut Vec<bool>,
    Ghost(fuel): Ghost<nat>,
) -> (questions: Vec<HiiQuestion>)
    requires
        ix.keys@.len() == ix.lists@.len(),
        old(visited)@.len() == ix.keys@.len(),
        fuel >= ix.keys@.len(),
    ensures
        questions_view(questions@) == walk_from_spec(
            ix.keys@,
            lists_view(ix.lists@),
            table_view(string_table@),
            0,
            old(visited)@,
            fuel,
        ).0,
{
    let ghost keys = ix.keys@;
    let ghost lists = lists_view(ix.lists@);
    let ghost st = table_view(string_table@);
    let ghost vis0 = visited@;
    let mut questions: Vec<HiiQuestion> = Vec::new();
    let mut k: usize = 0;
    proof {
        assert(questions_view(questions@) + walk_from_spec(keys, lists, st, 0, vis0, fuel).0 =~= walk_from_spec(keys, lists, st, 0, vis0, fuel).0);
    }
    while k < ix.keys.len()
        invariant
            ix.keys@.len() == ix.lists@.len(),
            keys == ix.keys@,
            lists == lists_view(ix.lists@),
            st == table_view(string_table@),
            k <= keys.len(),
            visited@.len() == keys.len(),
            fuel >= keys.len(),
            walk_from_spec(keys, lists, st, 0, vis0, fuel).0 == questions_view(questions@) + walk_from_spec(
                keys,
                lists,
                st,
                k as int,
                visited@,
                fuel,
            ).0,
        decreases keys.len() - k,
    {
        let ghost vis_k = visited@;
        let ghost q_k = questions@;
        proof {
            lemma_unvisited_bound(visited@);
        }
        let mut found = walk_form(k, ix, string_table, visited, Ghost(fuel));
        proof {
            lemma_questions_append(questions@, found@);
            let first = walk_form_spec(keys, lists, st, k as int, vis_k, fuel);
            let rest = walk_from_spec(keys, lists, st, k + 1, first.1, fuel);
            assert(walk_from_spec(keys, lists, st, k as int, vis_k, fuel) == (first.0 + rest.0, rest.1));
            assert(questions_view(q_k) + (first.0 + rest.0) =~= (questions_view(q_k) + first.0) + rest.0);
        }
        questions.append(&mut found);
        k += 1;
    }
    proof {
        assert(questions_view(questions@) + Seq::<(Seq<char>, Seq<char>, Seq<char>)>::empty() =~= questions_view(questions@));
    }
    questions
}

/// The questions of one form package.
fn form_package_questions_exec(form_data: &Vec<u8>, string_table: &BTreeMap<u16, String>) -> (questions: Vec<HiiQuestion>)
    ensures
        questions_view(questions@) == form_package_questions(form_data@, table_view(string_table@)),
{
    let (ix, root) = match build_form_index(form_data.as_slice()) {
        Ok(r) => r,
        Err(_) => {
            proof {
                assert(questions_view(Seq::<HiiQuestion>::empty()) =~= Seq::<(Seq<char>, Seq<char>, Seq<char>)>::empty());
            }
            return Vec::new();
        },
    };
    let root_id = match root {
        Some(r) => r,
        None => {
            proof {
                assert(questions_view(Seq::<HiiQuestion>::empty()) =~= Seq::<(Seq<char>, Seq<char>, Seq<char>)>::empty());
            }
            return Vec::new();
        },
    };
    let n = ix.keys.len();
    let mut visited: Vec<bool> = Vec::new();
    let mut c: usize = 0;
    while c < n
        invariant
            c <= n,
            visited@.len() == c,
            forall|t: int| 0 <= t < c ==> !visited@[t],
        decreases n - c,
    {
        visited.push(false);
        c += 1;
    }
    let ghost vis0 = visited@;
    proof {
        assert(vis0 =~= Seq::new(n as nat, |i: int| false));
        lemma_unvisited_bound(vis0);
    }
    let mut questions = match find_key(&ix.keys, root_id) {
        Some(p) => walk_form(p, &ix, string_table, &mut visited, Ghost(n as nat)),
        None => {
            proof {
                assert(walk_form_spec(ix.keys@, lists_view(ix.lists@), table_view(string_table@), -1, vis0, n as nat) == (Seq::<(Seq<char>, Seq<char>, Seq<char>)>::empty(), vis0));
                assert(questions_view(Seq::<HiiQuestion>::empty()) =~= Seq::<(Seq<char>, Seq<char>, Seq<char>)>::empty());
            }
            Vec::new()
        },
    };
    let mut rest = walk_orphans(&ix, string_table, &mut visited, Ghost(n as nat));
    proof {
        lemma_questions_append(questions@, rest@);
    }
    questions.append(&mut rest);
    questions
}

/// An HII database too short to hold a package header.
#[derive(Debug, Clone, PartialEq, Eq)]
pub struct IfrParseError {
    pub db_len: usize,
}

impl IfrParseError {
    pub open spec fn message_spec(&self) -> Seq<char> {
        "HII database too short ("@ + text::decimal(self.db_len as nat) + " bytes): need at least 4 bytes for a package header"@
    }

    /// The error's text.
    pub fn message(&self) -> (m: String)
        ensures
            m@ == self.message_spec(),
    {
        let mut v = text::lit("HII database too short (");
        text::push_u64(&mut v, self.db_len as u64);
        text::push_str(&mut v, " bytes): need at least 4 bytes for a package header");
        text::string_from_chars(v.as_slice())
    }
}

proof fn lemma_forms_questions_push(forms: Seq<Seq<u8>>, x: Seq<u8>, st: Map<u16, Seq<char>>)
    ensures
        forms_questions(forms.push(x), st) == forms_questions(forms, st) + form_package_questions(x, st),
{
    assert(forms.push(x).drop_last() =~= forms);
}

/// The questions of the form packages of one group.
fn group_questions_exec(group: &HiiPackageGroup) -> (questions: Vec<HiiQuestion>)
    ensures
        questions_view(questions@) == forms_questions(group_view(*group).0, string_table_of(group_view(*group).1)),
{
    let string_table = build_string_table(&group.string_packages);
    let ghost st = table_view(string_table@);
    let ghost forms = group_view(*group).0;
    let mut questions: Vec<HiiQuestion> = Vec::new();
    let mut i: usize = 0;
    proof {
        assert(forms.take(0) =~= Seq::<Seq<u8>>::empty());
        assert(questions_view(questions@) =~= Seq::<(Seq<char>, Seq<char>, Seq<char>)>::empty());
    }
    while i < group.form_packages.len()
        invariant
            i <= group.form_packages@.len(),
            forms == group_view(*group).0,
            st == table_view(string_table@),
            questions_view(questions@) == forms_questions(forms.take(i as int), st),
        decreases group.form_packages@.len() - i,
    {
        let mut found = form_package_questions_exec(&group.form_packages[i], &string_table);
        proof {
            lemma_questions_append(questions@, found@);
            assert(forms.take(i + 1) =~= forms.take(i as int).push(group.form_packages@[i as int]@));
            lemma_forms_questions_push(forms.take(i as int), group.form_packages@[i as int]@, st);
        }
        questions.append(&mut found);
        i += 1;
    }
    assert(forms.take(i as int) =~= forms);
    questions
}

/// Parses an HII database into the questions of its forms: the root form
/// of each form package is walked first, following REF opcodes into the
/// forms they name (each form at most once), then the forms the walk did
/// not reach. A database under 4 bytes is refused.
pub fn parse_ifr_to_questions(hii_db: &[u8]) -> (r: Result<Vec<HiiQuestion>, IfrParseError>)
    requires
        hii_db.len() + 0x0100_0000 <= usize::MAX,
    ensures
        match r {
            Ok(qs) => hii_db.len() >= 4 && questions_view(qs@) == ifr_questions(hii_db@),
            Err(e) => hii_db.len() < 4 && e.db_len == hii_db.len(),
        },
{
    if hii_db.len() < 4 {
        return Err(IfrParseError { db_len: hii_db.len() });
    }
    let (groups, used_lists) = split_hii_package_groups(hii_db);
    let package_groups = if used_lists {
        groups
    } else {
        let (form_packages, string_packages) = split_flat_hii_packages(hii_db);
        let mut v: Vec<HiiPackageGroup> = Vec::new();
        v.push(HiiPackageGroup { form_packages, string_packages });
        v
    };
    let ghost gs = chosen_groups(hii_db@);
    proof {
        assert(groups_view(package_groups@) =~= gs);
    }
    let mut all: Vec<HiiQuestion> = Vec::new();
    let mut j: usize = 0;
    proof {
        assert(gs.take(0) =~= Seq::<(Seq<Seq<u8>>, Seq<Seq<u8>>)>::empty());
        assert(questions_view(all@) =~= Seq::<(Seq<char>, Seq<char>, Seq<char>)>::empty());
    }
    while j < package_groups.len()
        invariant
            j <= package_groups@.len(),
            gs == chosen_groups(hii_db@),
            groups_view(package_groups@) == gs,
            questions_view(all@) == groups_questions(gs.take(j as int)),
        decreases package_groups@.len() - j,
    {
        let group = &package_groups[j];
        proof {
            assert(gs[j as int] == group_view(*group));
        }
        let mut found = group_questions_exec(group);
        proof {
            lemma_questions_append(all@, found@);
            assert(gs.take(j + 1) =~= gs.take(j as int).push(gs[j as int]));
            assert(gs.take(j + 1).drop_last() =~= gs.take(j as int));
        }
        all.append(&mut found);
        j += 1;
    }
    assert(gs.take(j as int) =~= gs);
    Ok(all)
}

} // verus!



