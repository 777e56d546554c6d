//! The QR code that hands the list of failed cores to a phone: its text,
//! and its modules as `fast_qr` lays them out.
use crate::text;
use vstd::prelude::*;
use vstd::relations::{sorted_by, total_ordering};

verus! {

// ---------------------------------------------------------------------------
// The text
// ---------------------------------------------------------------------------

pub open spec fn u32_leq() -> spec_fn(u32, u32) -> bool {
    |a: u32, b: u32| a <= b
}

proof fn lemma_u32_leq_total()
    ensures
        total_ordering(u32_leq()),
{
}

/// The decimal representations of the numbers.
pub open spec fn decimals(ids: Seq<u32>) -> Seq<Seq<char>> {
    ids.map_values(|i: u32| text::decimal(i as nat))
}

/// `Failed BIOS cores: ` and the indices in increasing order (repeats
/// kept), separated by `, `; `(none)` when there are none.
pub open spec fn qr_content_spec(failed: Seq<u32>) -> Seq<char> {
    if failed.len() == 0 {
        "Failed BIOS cores: (none)"@
    } else {
        "Failed BIOS cores: "@ + text::join_sep(decimals(failed.sort_by(u32_leq())), ", "@)
    }
}

/// The values of `s` in increasing order, repeats kept.
fn sorted_copy(s: &[u32]) -> (r: Vec<u32>)
    ensures
        r@ == s@.sort_by(u32_leq()),
{
    broadcast use vstd::seq_lib::group_to_multiset_ensures, vstd::multiset::group_multiset_axioms;

    let mut r: Vec<u32> = Vec::new();
    let mut i: usize = 0;
    while i < s.len()
        invariant
            i <= s.len(),
            sorted_by(r@, u32_leq()),
            r@.to_multiset() == s@.take(i as int).to_multiset(),
        decreases s.len() - i,
    {
        let x = s[i];
        let mut p: usize = 0;
        while p < r.len() && r[p] <= x
            invariant
                p <= r.len(),
                forall|k: int| 0 <= k < p ==> r@[k] <= x,
            decreases r.len() - p,
        {
            p += 1;
        }
        let ghost before = r@;
        r.insert(p, x);
        proof {
            assert forall|a: int, b: int| 0 <= a < b < r@.len() implies #[trigger] (u32_leq())(
                r@[a],
                r@[b],
            ) by {
                if b < p {
                    assert(before[a] <= before[b]) by {
                        assert((u32_leq())(before[a], before[b]));
                    }
                } else if b == p {
                    assert(r@[a] == before[a]);
                } else if a < p {
                    assert(r@[b] == before[b - 1]);
                    if p < before.len() {
                        assert(x < before[p as int]);
                        if b - 1 > p {
                            assert((u32_leq())(before[p as int], before[b - 1]));
                        }
                    }
                    assert(before[a] <= x);
                } else if a == p {
                    assert(r@[b] == before[b - 1]);
                    assert(x < before[p as int]);
                    if b - 1 > p {
                        assert((u32_leq())(before[p as int], before[b - 1]));
                    }
                } else {
                    assert((u32_leq())(before[a - 1], before[b - 1]));
                }
            }
            assert(r@.remove(p as int) =~= before);
            assert(r@[p as int] == x);
            r@.to_multiset_ensures();
            assert(r@.remove(p as int).to_multiset() =~= r@.to_multiset().remove(r@[p as int]));
            assert(r@.to_multiset().remove(x) == before.to_multiset());
            assert(r@.contains(x));
            assert(r@.to_multiset().count(x) > 0);
            assert(s@.take(i + 1) =~= s@.take(i as int).push(x));
            s@.take(i as int).to_multiset_ensures();
            assert(s@.take(i as int).push(x).to_multiset() =~= s@.take(i as int).to_multiset().insert(x));
            assert(r@.to_multiset() =~= before.to_multiset().insert(x));
        }
        i += 1;
    }
    proof {
        assert(s@.take(s.len() as int) =~= s@);
        lemma_u32_leq_total();
        s@.lemma_sort_by_ensures(u32_leq());
        vstd::seq_lib::lemma_sorted_unique(r@, s@.sort_by(u32_leq()), u32_leq());
    }
    r
}

/// The text of the QR code for the failed BIOS core indices.
pub fn build_qr_content(failed_bios_indices: &[u32]) -> (s: String)
    ensures
        s@ == qr_content_spec(failed_bios_indices@),
{
    if failed_bios_indices.len() == 0 {
        return "Failed BIOS cores: (none)".to_owned();
    }
    let sorted = sorted_copy(failed_bios_indices);
    let mut parts: Vec<Vec<char>> = Vec::new();
    let mut i: usize = 0;
    while i < sorted.len()
        invariant
            i <= sorted.len(),
            text::pieces(parts@) == decimals(sorted@.take(i as int)),
        decreases sorted.len() - i,
    {
        let d = text::u64_decimal(sorted[i] as u64);
        proof {
            text::lemma_pieces_push(parts@, d);
        }
        parts.push(d);
        i += 1;
        assert(decimals(sorted@.take(i as int)) =~= decimals(sorted@.take(i - 1)).push(
            text::decimal(sorted@[i - 1] as nat),
        ));
    }
    assert(sorted@.take(sorted.len() as int) =~= sorted@);
    let joined = text::join_pieces(&parts, ", ");
    let mut v = text::lit("Failed BIOS cores: ");
    text::push_chars(&mut v, &joined);
    text::string_from_chars(&v)
}

// ---------------------------------------------------------------------------
// The modules
// ---------------------------------------------------------------------------

/// The modules (dark is `true`) of the QR code that `fast_qr` builds for a
/// text with its default settings, row by row; `None` when the text is too
/// long to encode.
pub uninterp spec fn qr_modules(content: Seq<char>) -> Option<Seq<Seq<bool>>>;

pub open spec fn rows_view(m: Seq<Vec<bool>>) -> Seq<Seq<bool>> {
    m.map_values(|r: Vec<bool>| r@)
}

/// Builds the QR code of the text's UTF-8 bytes with
/// `fast_qr::qr::QRBuilder::new(..).build()` and reads its modules with
/// `QRCode`'s row indexing and `Module::value`. Claimed: the rows are
/// `qr_modules` of the text, `None` exactly when the build fails, and
/// every row has as many modules as there are rows (the code is
/// `size` by `size`).
#[verifier::external_body]
fn build_qr_modules(content: &str) -> (r: Option<Vec<Vec<bool>>>)
    ensures
        match r {
            Some(m) => qr_modules(content@) == Some(rows_view(m@)) && forall|i: int|
                0 <= i < m@.len() ==> (#[trigger] m@[i])@.len() == m@.len(),
            None => qr_modules(content@) is None,
        },
{
    let code = match fast_qr::qr::QRBuilder::new(content.as_bytes().to_vec()).build() {
        Ok(code) => code,
        Err(_) => return None,
    };
    let size = code.size;
    Some((0..size).map(|row| (0..size).map(|col| code[row][col].value()).collect()).collect())
}

/// A square grid of QR modules.
#[derive(Debug)]
pub struct QrMatrix {
    /// Rows of modules; `true` is dark.
    pub modules: Vec<Vec<bool>>,
    /// The number of rows, and of modules in each row.
    pub size: usize,
}

/// The text could not be encoded.
#[derive(Debug)]
pub struct QrError {}

impl QrError {
    pub fn message(&self) -> (s: String)
        ensures
            s@ == "failed to build QR code"@,
    {
        "failed to build QR code".to_owned()
    }
}

/// The QR code of the text.
pub fn generate_qr_matrix(content: &str) -> (r: Result<QrMatrix, QrError>)
    ensures
        match r {
            Ok(m) => {
                &&& qr_modules(content@) == Some(rows_view(m.modules@))
                &&& m.size == m.modules@.len()
                &&& forall|i: int| 0 <= i < m.modules@.len() ==> (#[trigger] m.modules@[i])@.len() == m.size
            },
            Err(_) => qr_modules(content@) is None,
        },
{
    match build_qr_modules(content) {
        Some(modules) => {
            let size = modules.len();
            Ok(QrMatrix { modules, size })
        },
        None => Err(QrError {}),
    }
}

} // verus!
