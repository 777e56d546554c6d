//! Character-level text handling shared by the parsers and report builders.
//!
//! Every string is handled as its sequence of `char`s (the view of `str`
//! and `String`). The spec functions here state, in a few lines each, what
//! the corresponding operations of `str` compute; the executable functions
//! are proved against them.
use vstd::prelude::*;
use vstd::string::*;

verus! {

// ---------------------------------------------------------------------------
// Character classes
// ---------------------------------------------------------------------------

/// ASCII decimal digit.
pub open spec fn is_digit(c: char) -> bool {
    '0' <= c && c <= '9'
}

/// Unicode `White_Space`, the class that `str::trim` and
/// `str::split_whitespace` use.
pub open spec fn is_white(c: char) -> bool {
    ||| c == ' '
    ||| ('\t' <= c && c <= '\r')
    ||| c == '\u{85}'
    ||| c == '\u{a0}'
    ||| c == '\u{1680}'
    ||| ('\u{2000}' <= c && c <= '\u{200a}')
    ||| c == '\u{2028}'
    ||| c == '\u{2029}'
    ||| c == '\u{202f}'
    ||| c == '\u{205f}'
    ||| c == '\u{3000}'
}

pub fn char_is_digit(c: char) -> (b: bool)
    ensures
        b == is_digit(c),
{
    '0' <= c && c <= '9'
}

pub fn char_is_white(c: char) -> (b: bool)
    ensures
        b == is_white(c),
{
    c == ' ' || ('\t' <= c && c <= '\r') || c == '\u{85}' || c == '\u{a0}' || c == '\u{1680}'
        || ('\u{2000}' <= c && c <= '\u{200a}') || c == '\u{2028}' || c == '\u{2029}' || c
        == '\u{202f}' || c == '\u{205f}' || c == '\u{3000}'
}

/// ASCII lower-casing of one character (`char::to_ascii_lowercase`).
pub open spec fn ascii_lower(c: char) -> char {
    if 'A' <= c && c <= 'Z' {
        ((c as u32) + 32) as char
    } else {
        c
    }
}

pub fn char_ascii_lower(c: char) -> (r: char)
    ensures
        r == ascii_lower(c),
{
    if 'A' <= c && c <= 'Z' {
        let code: u32 = (c as u32) + 32;
        proof {
            assert(0x61 <= code <= 0x7a);
        }
        char_from_ascii_code(code)
    } else {
        c
    }
}

/// The character of an ASCII code.
fn char_from_ascii_code(code: u32) -> (c: char)
    requires
        code < 128,
    ensures
        c == code as char,
        c as u32 == code,
{
    let b: u8 = code as u8;
    let c = b as char;
    c
}

/// Each character of `s` lower-cased the ASCII way (`str::to_ascii_lowercase`).
pub open spec fn ascii_lower_seq(s: Seq<char>) -> Seq<char> {
    s.map_values(|c: char| ascii_lower(c))
}

pub fn to_ascii_lowercase(s: &[char]) -> (r: Vec<char>)
    ensures
        r@ == ascii_lower_seq(s@),
{
    let mut r: Vec<char> = Vec::new();
    let mut i: usize = 0;
    while i < s.len()
        invariant
            i <= s.len(),
            r@ == ascii_lower_seq(s@.take(i as int)),
        decreases s.len() - i,
    {
        r.push(char_ascii_lower(s[i]));
        i += 1;
        assert(ascii_lower_seq(s@.take(i as int)) =~= ascii_lower_seq(s@.take(i - 1 as int)).push(
            ascii_lower(s@[i - 1 as int]),
        ));
    }
    assert(s@.take(s.len() as int) =~= s@);
    r
}

/// ASCII upper-casing of one character (`char::to_ascii_uppercase`).
pub open spec fn ascii_upper(c: char) -> char {
    if 'a' <= c && c <= 'z' {
        ((c as u32) - 32) as char
    } else {
        c
    }
}

pub fn char_ascii_upper(c: char) -> (r: char)
    ensures
        r == ascii_upper(c),
{
    if 'a' <= c && c <= 'z' {
        let code: u32 = (c as u32) - 32;
        proof {
            assert(0x41 <= code <= 0x5a);
        }
        char_from_ascii_code(code)
    } else {
        c
    }
}

/// Each character of `s` upper-cased the ASCII way (`str::to_ascii_uppercase`).
pub open spec fn ascii_upper_seq(s: Seq<char>) -> Seq<char> {
    s.map_values(|c: char| ascii_upper(c))
}

pub fn to_ascii_uppercase(s: &[char]) -> (r: Vec<char>)
    ensures
        r@ == ascii_upper_seq(s@),
{
    let mut r: Vec<char> = Vec::new();
    let mut i: usize = 0;
    while i < s.len()
        invariant
            i <= s.len(),
            r@ == ascii_upper_seq(s@.take(i as int)),
        decreases s.len() - i,
    {
        r.push(char_ascii_upper(s[i]));
        i += 1;
        assert(ascii_upper_seq(s@.take(i as int)) =~= ascii_upper_seq(s@.take(i - 1 as int)).push(
            ascii_upper(s@[i - 1 as int]),
        ));
    }
    assert(s@.take(s.len() as int) =~= s@);
    r
}

/// `str::eq_ignore_ascii_case`.
pub open spec fn eq_ignore_ascii_case(a: Seq<char>, b: Seq<char>) -> bool {
    ascii_lower_seq(a) == ascii_lower_seq(b)
}

pub fn chars_eq_ignore_ascii_case(a: &[char], b: &[char]) -> (r: bool)
    ensures
        r == eq_ignore_ascii_case(a@, b@),
{
    let la = to_ascii_lowercase(a);
    let lb = to_ascii_lowercase(b);
    chars_eq(&la, &lb)
}

pub fn chars_eq(a: &[char], b: &[char]) -> (r: bool)
    ensures
        r == (a@ == b@),
{
    if a.len() != b.len() {
        return false;
    }
    let mut i: usize = 0;
    while i < a.len()
        invariant
            a.len() == b.len(),
            i <= a.len(),
            forall|j: int| 0 <= j < i ==> a@[j] == b@[j],
        decreases a.len() - i,
    {
        if a[i] != b[i] {
            return false;
        }
        i += 1;
    }
    assert(a@ =~= b@);
    true
}

// ---------------------------------------------------------------------------
// Conversions between strings and character vectors
// ---------------------------------------------------------------------------

/// The characters of a string slice.
pub fn chars_of(s: &str) -> (v: Vec<char>)
    ensures
        v@ == s@,
{
    let n = s.unicode_len();
    let mut v: Vec<char> = Vec::new();
    let mut i: usize = 0;
    while i < n
        invariant
            n == s@.len(),
            i <= n,
            v@ == s@.take(i as int),
        decreases n - i,
    {
        v.push(s.get_char(i));
        i += 1;
        assert(v@ =~= s@.take(i as int));
    }
    assert(s@.take(n as int) =~= s@);
    v
}

/// A `String` holding the given characters, built by
/// `<String as FromIterator<&char>>::from_iter`.
#[verifier::external_body]
pub(crate) fn string_from_chars(v: &[char]) -> (s: String)
    ensures
        s@ == v@,
{
    v.iter().collect()
}

/// The characters of a string literal, as a vector.
pub fn lit(s: &str) -> (v: Vec<char>)
    ensures
        v@ == s@,
{
    chars_of(s)
}

/// Appends the characters of `s` to `v`.
pub fn push_str(v: &mut Vec<char>, s: &str)
    ensures
        final(v)@ == old(v)@ + s@,
{
    let c = chars_of(s);
    push_chars(v, &c);
}

/// Appends `w` to `v`.
pub fn push_chars(v: &mut Vec<char>, w: &[char])
    ensures
        final(v)@ == old(v)@ + w@,
{
    let ghost start = v@;
    let mut i: usize = 0;
    while i < w.len()
        invariant
            i <= w.len(),
            v@ == start + w@.take(i as int),
        decreases w.len() - i,
    {
        v.push(w[i]);
        i += 1;
        assert(v@ =~= start + w@.take(i as int));
    }
    assert(w@.take(w.len() as int) =~= w@);
}

/// `n` copies of `c`.
pub open spec fn repeat_char(c: char, n: nat) -> Seq<char> {
    Seq::new(n, |i: int| c)
}

/// Appends `n` copies of `c` to `v`.
pub fn push_repeat(v: &mut Vec<char>, c: char, n: usize)
    ensures
        final(v)@ == old(v)@ + repeat_char(c, n as nat),
{
    let ghost start = v@;
    let mut i: usize = 0;
    while i < n
        invariant
            i <= n,
            v@ == start + repeat_char(c, i as nat),
        decreases n - i,
    {
        v.push(c);
        i += 1;
        assert(v@ =~= start + repeat_char(c, i as nat));
    }
}

// ---------------------------------------------------------------------------
// Searching
// ---------------------------------------------------------------------------

/// `needle` occurs in `hay` starting at `i`.
pub open spec fn occurs_at(hay: Seq<char>, needle: Seq<char>, i: int) -> bool {
    0 <= i && i + needle.len() <= hay.len() && hay.subrange(i, i + needle.len()) == needle
}

/// `str::contains` with a string pattern.
pub open spec fn contains(hay: Seq<char>, needle: Seq<char>) -> bool {
    exists|i: int| occurs_at(hay, needle, i)
}

/// Text contains itself.
pub proof fn lemma_contains_self(x: Seq<char>)
    ensures
        contains(x, x),
{
    assert(occurs_at(x, x, 0)) by {
        assert(x.subrange(0, x.len() as int) =~= x);
    }
}

/// What a text contains, its extension by more text contains too.
pub broadcast proof fn lemma_contains_append_left(a: Seq<char>, b: Seq<char>, x: Seq<char>)
    requires
        contains(a, x),
    ensures
        #[trigger] contains(a + b, x),
{
    let i = choose|i: int| occurs_at(a, x, i);
    assert((a + b).subrange(i, i + x.len()) =~= a.subrange(i, i + x.len()));
    assert(occurs_at(a + b, x, i));
}

/// What a text contains, the text with more in front contains too.
pub broadcast proof fn lemma_contains_append_right(a: Seq<char>, b: Seq<char>, x: Seq<char>)
    requires
        contains(b, x),
    ensures
        #[trigger] contains(a + b, x),
{
    let i = choose|i: int| occurs_at(b, x, i);
    assert((a + b).subrange(a.len() + i, a.len() + i + x.len()) =~= b.subrange(i, i + x.len()));
    assert(occurs_at(a + b, x, a.len() + i));
}

pub fn occurs_at_exec(hay: &[char], needle: &[char], i: usize) -> (r: bool)
    ensures
        r == occurs_at(hay@, needle@, i as int),
{
    if i > hay.len() || needle.len() > hay.len() - i {
        return false;
    }
    let mut j: usize = 0;
    while j < needle.len()
        invariant
            i + needle.len() <= hay.len(),
            j <= needle.len(),
            forall|k: int| 0 <= k < j ==> hay@[i + k] == needle@[k],
        decreases needle.len() - j,
    {
        if hay[i + j] != needle[j] {
            assert(hay@.subrange(i as int, i + needle.len())[j as int] != needle@[j as int]);
            return false;
        }
        j += 1;
    }
    assert(hay@.subrange(i as int, i + needle.len()) =~= needle@);
    true
}

pub fn contains_chars(hay: &[char], needle: &[char]) -> (r: bool)
    ensures
        r == contains(hay@, needle@),
{
    if needle.len() > hay.len() {
        return false;
    }
    let limit = hay.len() - needle.len();
    let mut i: usize = 0;
    while i < limit
        invariant
            needle.len() <= hay.len(),
            limit == hay.len() - needle.len(),
            i <= limit,
            forall|k: int| 0 <= k < i ==> !occurs_at(hay@, needle@, k),
        decreases limit - i,
    {
        if occurs_at_exec(hay, needle, i) {
            return true;
        }
        i += 1;
    }
    if occurs_at_exec(hay, needle, limit) {
        return true;
    }
    proof {
        true_if_none_found(hay@, needle@, limit + 1);
    }
    false
}

proof fn true_if_none_found(hay: Seq<char>, needle: Seq<char>, i: int)
    requires
        needle.len() <= hay.len(),
        i == hay.len() - needle.len() + 1,
        forall|k: int| 0 <= k < i ==> !occurs_at(hay, needle, k),
    ensures
        !contains(hay, needle),
{
}

/// `hay` contains the string `needle`.
pub fn contains_str(hay: &[char], needle: &str) -> (r: bool)
    ensures
        r == contains(hay@, needle@),
{
    let n = chars_of(needle);
    contains_chars(hay, &n)
}

/// Position of the first occurrence of `needle` in `hay` at or after `i`.
pub open spec fn occurrence_from(hay: Seq<char>, needle: Seq<char>, i: int) -> Option<int>
    decreases hay.len() + 1 - i,
{
    if i < 0 || i > hay.len() {
        None
    } else if occurs_at(hay, needle, i) {
        Some(i)
    } else {
        occurrence_from(hay, needle, i + 1)
    }
}

/// `str::find` with a string pattern.
pub open spec fn first_occurrence(hay: Seq<char>, needle: Seq<char>) -> Option<int> {
    occurrence_from(hay, needle, 0)
}

pub fn find_chars(hay: &[char], needle: &[char]) -> (r: Option<usize>)
    ensures
        match r {
            Some(i) => first_occurrence(hay@, needle@) == Some(i as int) && i + needle.len() <= hay.len(),
            None => first_occurrence(hay@, needle@) is None,
        },
{
    let mut i: usize = 0;
    loop
        invariant
            i <= hay.len(),
            first_occurrence(hay@, needle@) == occurrence_from(hay@, needle@, i as int),
        decreases hay.len() - i,
    {
        if occurs_at_exec(hay, needle, i) {
            return Some(i);
        }
        if i == hay.len() {
            assert(occurrence_from(hay@, needle@, i + 1) is None);
            return None;
        }
        i += 1;
    }
}

/// `str::split_once` with a string pattern.
pub open spec fn split_once_str(s: Seq<char>, pat: Seq<char>) -> Option<(Seq<char>, Seq<char>)> {
    match first_occurrence(s, pat) {
        Some(i) => Some((s.take(i), s.skip(i + pat.len()))),
        None => None,
    }
}

/// Index of the first occurrence of `c` in `s`, if any.
#[verifier::opaque]
pub open spec fn first_index_of(s: Seq<char>, c: char) -> Option<int> {
    if exists|i: int| 0 <= i < s.len() && s[i] == c {
        Some(choose|i: int| 0 <= i < s.len() && s[i] == c && forall|j: int| 0 <= j < i ==> s[j] != c)
    } else {
        None
    }
}

pub proof fn lemma_first_index_of(s: Seq<char>, c: char, i: int)
    requires
        0 <= i < s.len(),
        s[i] == c,
        forall|j: int| 0 <= j < i ==> s[j] != c,
    ensures
        first_index_of(s, c) == Some(i),
{
    reveal(first_index_of);
    assert(exists|k: int| 0 <= k < s.len() && s[k] == c);
    let k = choose|k: int| 0 <= k < s.len() && s[k] == c && forall|j: int| 0 <= j < k ==> s[j] != c;
    assert(exists|k: int| 0 <= k < s.len() && s[k] == c && forall|j: int| 0 <= j < k ==> s[j] != c) by {
        assert(0 <= i < s.len() && s[i] == c && forall|j: int| 0 <= j < i ==> s[j] != c);
    }
    if k < i {
        assert(s[k] != c);
    }
    if i < k {
        assert(s[i] != c);
    }
}

pub fn find_char(s: &[char], c: char) -> (r: Option<usize>)
    ensures
        match r {
            Some(i) => first_index_of(s@, c) == Some(i as int) && i < s.len() && s@[i as int] == c
                && forall|j: int| 0 <= j < i ==> s@[j] != c,
            None => first_index_of(s@, c) is None && forall|j: int| 0 <= j < s.len() ==> s@[j] != c,
        },
{
    let mut i: usize = 0;
    while i < s.len()
        invariant
            i <= s.len(),
            forall|j: int| 0 <= j < i ==> s@[j] != c,
        decreases s.len() - i,
    {
        if s[i] == c {
            proof {
                lemma_first_index_of(s@, c, i as int);
            }
            return Some(i);
        }
        i += 1;
    }
    proof {
        lemma_first_index_bounds(s@, c);
    }
    None
}

/// `str::split_once` on a character: the text before and after the first
/// occurrence of `c`.
pub open spec fn split_once(s: Seq<char>, c: char) -> Option<(Seq<char>, Seq<char>)> {
    match first_index_of(s, c) {
        Some(i) => Some((s.take(i), s.skip(i + 1))),
        None => None,
    }
}

pub fn split_once_char(s: &[char], c: char) -> (r: Option<(Vec<char>, Vec<char>)>)
    ensures
        match r {
            Some((a, b)) => split_once(s@, c) == Some((a@, b@)),
            None => split_once(s@, c) is None,
        },
{
    match find_char(s, c) {
        Some(i) => {
            proof {
                lemma_first_index_bounds(s@, c);
            }
            let a = slice_chars(s, 0, i);
            let b = slice_chars(s, i + 1, s.len());
            assert(a@ =~= s@.take(i as int));
            assert(b@ =~= s@.skip(i + 1));
            Some((a, b))
        },
        None => None,
    }
}

/// A copy of `s[from..to]`.
pub fn slice_chars(s: &[char], from: usize, to: usize) -> (r: Vec<char>)
    requires
        from <= to <= s.len(),
    ensures
        r@ == s@.subrange(from as int, to as int),
{
    let mut r: Vec<char> = Vec::new();
    let mut i: usize = from;
    while i < to
        invariant
            from <= i <= to <= s.len(),
            r@ == s@.subrange(from as int, i as int),
        decreases to - i,
    {
        r.push(s[i]);
        i += 1;
        assert(r@ =~= s@.subrange(from as int, i as int));
    }
    r
}

// ---------------------------------------------------------------------------
// Trimming and splitting
// ---------------------------------------------------------------------------

/// Number of leading white-space characters.
pub open spec fn lead_white(s: Seq<char>) -> nat
    decreases s.len(),
{
    if s.len() > 0 && is_white(s[0]) {
        1 + lead_white(s.drop_first())
    } else {
        0
    }
}

/// Number of trailing white-space characters.
pub open spec fn trail_white(s: Seq<char>) -> nat
    decreases s.len(),
{
    if s.len() > 0 && is_white(s.last()) {
        1 + trail_white(s.drop_last())
    } else {
        0
    }
}

/// `str::trim_start`.
pub open spec fn trim_start(s: Seq<char>) -> Seq<char> {
    s.skip(lead_white(s) as int)
}

/// `str::trim_end`.
pub open spec fn trim_end(s: Seq<char>) -> Seq<char> {
    s.take(s.len() - trail_white(s))
}

/// `str::trim`.
pub open spec fn trim(s: Seq<char>) -> Seq<char> {
    trim_end(trim_start(s))
}

pub proof fn lemma_lead_white(s: Seq<char>)
    ensures
        lead_white(s) <= s.len(),
        forall|j: int| 0 <= j < lead_white(s) ==> is_white(#[trigger] s[j]),
        lead_white(s) < s.len() ==> !is_white(s[lead_white(s) as int]),
    decreases s.len(),
{
    if s.len() > 0 && is_white(s[0]) {
        lemma_lead_white(s.drop_first());
        assert forall|j: int| 0 <= j < lead_white(s) implies is_white(#[trigger] s[j]) by {
            if j > 0 {
                assert(s[j] == s.drop_first()[j - 1]);
            }
        }
    }
}

pub proof fn lemma_lead_white_unique(s: Seq<char>, k: int)
    requires
        0 <= k <= s.len(),
        forall|j: int| 0 <= j < k ==> is_white(#[trigger] s[j]),
        k < s.len() ==> !is_white(s[k]),
    ensures
        lead_white(s) == k,
    decreases s.len(),
{
    if k > 0 {
        assert(is_white(s[0]));
        assert forall|j: int| 0 <= j < k - 1 implies is_white(#[trigger] s.drop_first()[j]) by {
            assert(s.drop_first()[j] == s[j + 1]);
        }
        if k - 1 < s.drop_first().len() {
            assert(s.drop_first()[k - 1] == s[k]);
        }
        lemma_lead_white_unique(s.drop_first(), k - 1);
    } else if s.len() > 0 {
        assert(!is_white(s[0]));
    }
}

pub proof fn lemma_trail_white_unique(s: Seq<char>, k: int)
    requires
        0 <= k <= s.len(),
        forall|j: int| s.len() - k <= j < s.len() ==> is_white(#[trigger] s[j]),
        k < s.len() ==> !is_white(s[s.len() - k - 1]),
    ensures
        trail_white(s) == k,
    decreases s.len(),
{
    if k > 0 {
        assert(is_white(s.last()));
        assert forall|j: int| s.drop_last().len() - (k - 1) <= j < s.drop_last().len() implies is_white(
            #[trigger] s.drop_last()[j],
        ) by {
            assert(s.drop_last()[j] == s[j]);
        }
        if k - 1 < s.drop_last().len() {
            assert(s.drop_last()[s.drop_last().len() - (k - 1) - 1] == s[s.len() - k - 1]);
        }
        lemma_trail_white_unique(s.drop_last(), k - 1);
    } else if s.len() > 0 {
        assert(!is_white(s.last()));
    }
}

pub fn trim_chars(s: &[char]) -> (r: Vec<char>)
    ensures
        r@ == trim(s@),
{
    let mut a: usize = 0;
    while a < s.len() && char_is_white(s[a])
        invariant
            a <= s.len(),
            forall|j: int| 0 <= j < a ==> is_white(#[trigger] s@[j]),
        decreases s.len() - a,
    {
        a += 1;
    }
    proof {
        lemma_lead_white_unique(s@, a as int);
    }
    let ghost t = s@.skip(a as int);
    let mut b: usize = s.len();
    while b > a && char_is_white(s[b - 1])
        invariant
            a <= b <= s.len(),
            forall|j: int| b <= j < s.len() ==> is_white(#[trigger] s@[j]),
        decreases b,
    {
        b -= 1;
    }
    proof {
        assert forall|j: int| t.len() - (s.len() - b) <= j < t.len() implies is_white(#[trigger] t[j]) by {
            assert(t[j] == s@[j + a]);
        }
        if s.len() - b < t.len() {
            assert(t[t.len() - (s.len() - b) - 1] == s@[b - 1]);
        }
        lemma_trail_white_unique(t, (s.len() - b) as int);
    }
    let r = slice_chars(s, a, b);
    assert(r@ =~= trim(s@));
    r
}

/// Trims a string slice.
pub fn trim_str(s: &str) -> (r: Vec<char>)
    ensures
        r@ == trim(s@),
{
    let c = chars_of(s);
    trim_chars(&c)
}

/// `str::split` on a character: the pieces between occurrences of `c`
/// (always at least one piece).
#[verifier::opaque]
pub open spec fn split_on(s: Seq<char>, c: char) -> Seq<Seq<char>>
    decreases s.len(),
{
    match first_index_of(s, c) {
        Some(i) => {
            if 0 <= i < s.len() {
                seq![s.take(i)] + split_on(s.skip(i + 1), c)
            } else {
                seq![s]
            }
        },
        None => seq![s],
    }
}

pub proof fn lemma_first_index_bounds(s: Seq<char>, c: char)
    ensures
        match first_index_of(s, c) {
            Some(i) => 0 <= i < s.len() && s[i] == c && forall|j: int| 0 <= j < i ==> s[j] != c,
            None => forall|j: int| 0 <= j < s.len() ==> s[j] != c,
        },
{
    reveal(first_index_of);
    if exists|i: int| 0 <= i < s.len() && s[i] == c {
        let w = choose|i: int| 0 <= i < s.len() && s[i] == c;
        lemma_min_index(s, c, w);
    }
}

proof fn lemma_min_index(s: Seq<char>, c: char, w: int)
    requires
        0 <= w < s.len(),
        s[w] == c,
    ensures
        exists|i: int| 0 <= i < s.len() && s[i] == c && forall|j: int| 0 <= j < i ==> s[j] != c,
    decreases w,
{
    if exists|j: int| 0 <= j < w && s[j] == c {
        let j = choose|j: int| 0 <= j < w && s[j] == c;
        lemma_min_index(s, c, j);
    } else {
        assert(0 <= w < s.len() && s[w] == c && forall|j: int| 0 <= j < w ==> s[j] != c);
    }
}

/// The character views of a vector of character vectors.
pub open spec fn pieces(v: Seq<Vec<char>>) -> Seq<Seq<char>> {
    v.map_values(|x: Vec<char>| x@)
}

pub proof fn lemma_pieces_push(v: Seq<Vec<char>>, x: Vec<char>)
    ensures
        pieces(v.push(x)) == pieces(v).push(x@),
{
    assert(pieces(v.push(x)) =~= pieces(v).push(x@));
}

proof fn lemma_split_step(s: Seq<char>, c: char, i: int)
    requires
        first_index_of(s, c) == Some(i),
        0 <= i < s.len(),
    ensures
        split_on(s, c) == seq![s.take(i)] + split_on(s.skip(i + 1), c),
{
    reveal(split_on);
}

proof fn lemma_split_none(s: Seq<char>, c: char)
    requires
        first_index_of(s, c) is None,
    ensures
        split_on(s, c) == seq![s],
{
    reveal(split_on);
}

pub fn split_chars(s: &[char], c: char) -> (r: Vec<Vec<char>>)
    ensures
        pieces(r@) == split_on(s@, c),
{
    let mut r: Vec<Vec<char>> = Vec::new();
    let mut pos: usize = 0;
    assert(pieces(r@) =~= Seq::<Seq<char>>::empty());
    assert(s@.skip(0) =~= s@);
    loop
        invariant
            pos <= s.len(),
            pieces(r@) + split_on(s@.skip(pos as int), c) == split_on(s@, c),
        decreases s.len() - pos,
    {
        let ghost old_pieces = pieces(r@);
        let rest = slice_chars(s, pos, s.len());
        assert(rest@ =~= s@.skip(pos as int));
        match find_char(&rest, c) {
            Some(i) => {
                proof {
                    lemma_first_index_bounds(rest@, c);
                    lemma_split_step(rest@, c, i as int);
                }
                let piece = slice_chars(&rest, 0, i);
                let ghost pv = piece@;
                r.push(piece);
                proof {
                    lemma_pieces_push(r@.drop_last(), r@.last());
                    assert(r@.drop_last() =~= r@.take(r@.len() - 1));
                    assert(pieces(r@) == old_pieces.push(pv)) by {
                        assert(r@ =~= r@.drop_last().push(r@.last()));
                    }
                    assert(rest@.skip(i + 1) =~= s@.skip(pos + i + 1));
                    assert(pv =~= rest@.take(i as int));
                    assert(old_pieces + (seq![pv] + split_on(s@.skip(pos + i + 1), c))
                        =~= old_pieces.push(pv) + split_on(s@.skip(pos + i + 1), c));
                }
                pos = pos + i + 1;
            },
            None => {
                proof {
                    lemma_split_none(rest@, c);
                }
                let ghost rv = rest@;
                r.push(rest);
                proof {
                    assert(r@ =~= r@.drop_last().push(r@.last()));
                    lemma_pieces_push(r@.drop_last(), r@.last());
                    assert(old_pieces + seq![rv] =~= old_pieces.push(rv));
                }
                return r;
            },
        }
    }
}

/// `str::split_whitespace`: the maximal runs of non-white characters.
pub open spec fn words(s: Seq<char>) -> Seq<Seq<char>>
    decreases s.len(),
{
    let t = trim_start(s);
    if t.len() == 0 || lead_white(s) > s.len() {
        seq![]
    } else {
        let k = match first_white(t) {
            Some(k) => k,
            None => t.len() as int,
        };
        if 0 < k <= t.len() {
            seq![t.take(k)] + words(t.skip(k))
        } else {
            seq![]
        }
    }
}

/// Index of the first white-space character.
pub open spec fn first_white(s: Seq<char>) -> Option<int> {
    if exists|i: int| 0 <= i < s.len() && is_white(s[i]) {
        Some(choose|i: int| 0 <= i < s.len() && is_white(s[i]) && forall|j: int| 0 <= j < i ==> !is_white(s[j]))
    } else {
        None
    }
}

proof fn lemma_first_white(s: Seq<char>, i: int)
    requires
        0 <= i <= s.len(),
        i < s.len() ==> is_white(s[i]),
        forall|j: int| 0 <= j < i ==> !is_white(#[trigger] s[j]),
    ensures
        i < s.len() ==> first_white(s) == Some(i),
        i == s.len() ==> first_white(s) is None,
{
    if i < s.len() {
        assert(exists|k: int| 0 <= k < s.len() && is_white(s[k]));
        let k = choose|k: int| 0 <= k < s.len() && is_white(s[k]) && forall|j: int| 0 <= j < k ==> !is_white(s[j]);
        assert(exists|k: int| 0 <= k < s.len() && is_white(s[k]) && forall|j: int| 0 <= j < k ==> !is_white(s[j])) by {
            assert(0 <= i < s.len() && is_white(s[i]) && forall|j: int| 0 <= j < i ==> !is_white(s[j]));
        }
        if k < i {
            assert(!is_white(s[k]));
        }
        if i < k {
            assert(is_white(s[i]));
        }
    } else {
        if exists|k: int| 0 <= k < s.len() && is_white(s[k]) {
            let k = choose|k: int| 0 <= k < s.len() && is_white(s[k]);
            assert(!is_white(s[k]));
        }
    }
}

proof fn lemma_words_step(s: Seq<char>, k: int)
    requires
        trim_start(s).len() > 0,
        lead_white(s) <= s.len(),
        0 < k <= trim_start(s).len(),
        match first_white(trim_start(s)) {
            Some(j) => j == k,
            None => k == trim_start(s).len(),
        },
    ensures
        words(s) == seq![trim_start(s).take(k)] + words(trim_start(s).skip(k)),
{
}

#[verifier::rlimit(30)]
pub fn split_whitespace(s: &[char]) -> (r: Vec<Vec<char>>)
    ensures
        pieces(r@) == words(s@),
{
    let mut r: Vec<Vec<char>> = Vec::new();
    let mut pos: usize = 0;
    assert(pieces(r@) =~= Seq::<Seq<char>>::empty());
    assert(s@.skip(0) =~= s@);
    loop
        invariant
            pos <= s.len(),
            pieces(r@) + words(s@.skip(pos as int)) == words(s@),
        decreases s.len() - pos,
    {
        let ghost old_pieces = pieces(r@);
        let ghost rest = s@.skip(pos as int);
        let mut a: usize = pos;
        while a < s.len() && char_is_white(s[a])
            invariant
                pos <= a <= s.len(),
                forall|j: int| pos <= j < a ==> is_white(#[trigger] s@[j]),
            decreases s.len() - a,
        {
            a += 1;
        }
        proof {
            assert forall|j: int| 0 <= j < a - pos implies is_white(#[trigger] rest[j]) by {
                assert(rest[j] == s@[pos + j]);
            }
            if a < s.len() {
                assert(rest[a - pos] == s@[a as int]);
            }
            lemma_lead_white_unique(rest, a - pos);
            assert(trim_start(rest) =~= s@.skip(a as int));
        }
        if a == s.len() {
            proof {
                assert(words(rest) =~= Seq::<Seq<char>>::empty());
                assert(old_pieces + words(rest) =~= old_pieces);
            }
            return r;
        }
        let mut b: usize = a;
        while b < s.len() && !char_is_white(s[b])
            invariant
                a <= b <= s.len(),
                forall|j: int| a <= j < b ==> !is_white(#[trigger] s@[j]),
            decreases s.len() - b,
        {
            b += 1;
        }
        let ghost t = s@.skip(a as int);
        proof {
            assert forall|j: int| 0 <= j < b - a implies !is_white(#[trigger] t[j]) by {
                assert(t[j] == s@[a + j]);
            }
            if b < s.len() {
                assert(t[b - a] == s@[b as int]);
            }
            lemma_first_white(t, b - a);
            assert(t.skip(b - a) =~= s@.skip(b as int));
            lemma_words_step(rest, b - a);
        }
        let w = slice_chars(s, a, b);
        let ghost wv = w@;
        r.push(w);
        proof {
            assert(r@ =~= r@.drop_last().push(r@.last()));
            lemma_pieces_push(r@.drop_last(), r@.last());
            assert(wv =~= t.take(b - a));
            assert(old_pieces + (seq![wv] + words(s@.skip(b as int))) =~= old_pieces.push(wv)
                + words(s@.skip(b as int)));
        }
        pos = b;
    }
}

/// `str::lines`: pieces separated by `\n`, with one `\r` before each `\n`
/// removed and no piece after a final `\n`.
#[verifier::opaque]
pub open spec fn lines(s: Seq<char>) -> Seq<Seq<char>>
    decreases s.len(),
{
    if s.len() == 0 {
        seq![]
    } else {
        match first_index_of(s, '\n') {
            Some(i) => {
                if 0 <= i < s.len() {
                    seq![strip_cr(s.take(i))] + lines(s.skip(i + 1))
                } else {
                    seq![s]
                }
            },
            None => seq![s],
        }
    }
}

/// Removes one trailing `\r`.
pub open spec fn strip_cr(s: Seq<char>) -> Seq<char> {
    if s.len() > 0 && s.last() == '\r' {
        s.drop_last()
    } else {
        s
    }
}

proof fn lemma_lines_step(s: Seq<char>, i: int)
    requires
        s.len() > 0,
        first_index_of(s, '\n') == Some(i),
        0 <= i < s.len(),
    ensures
        lines(s) == seq![strip_cr(s.take(i))] + lines(s.skip(i + 1)),
{
    reveal(lines);
}

proof fn lemma_lines_none(s: Seq<char>)
    requires
        s.len() > 0,
        first_index_of(s, '\n') is None,
    ensures
        lines(s) == seq![s],
{
    reveal(lines);
}

/// Text that ends at a line end splits into lines independently of what
/// follows.
pub proof fn lemma_lines_concat(a: Seq<char>, b: Seq<char>)
    requires
        a.len() == 0 || a.last() == '\n',
    ensures
        lines(a + b) == lines(a) + lines(b),
    decreases a.len(),
{
    if a.len() == 0 {
        assert(a + b =~= b);
        reveal(lines);
        assert(lines(a) =~= Seq::<Seq<char>>::empty());
        assert(lines(a) + lines(b) =~= lines(b));
    } else {
        lemma_first_index_bounds(a, '\n');
        let i = first_index_of(a, '\n').unwrap();
        let ab = a + b;
        assert(ab[i] == '\n');
        assert forall|j: int| 0 <= j < i implies ab[j] != '\n' by {
            assert(ab[j] == a[j]);
        }
        lemma_first_index_of(ab, '\n', i);
        lemma_lines_step(a, i);
        lemma_lines_step(ab, i);
        assert(ab.take(i) =~= a.take(i));
        let rest = a.skip(i + 1);
        assert(ab.skip(i + 1) =~= rest + b);
        if rest.len() > 0 {
            assert(rest.last() == a.last());
        }
        lemma_lines_concat(rest, b);
        assert(seq![strip_cr(a.take(i))] + (lines(rest) + lines(b)) =~= (seq![strip_cr(a.take(i))] + lines(rest))
            + lines(b));
    }
}

pub fn lines_of(s: &[char]) -> (r: Vec<Vec<char>>)
    ensures
        pieces(r@) == lines(s@),
{
    let mut r: Vec<Vec<char>> = Vec::new();
    let mut pos: usize = 0;
    assert(pieces(r@) =~= Seq::<Seq<char>>::empty());
    assert(s@.skip(0) =~= s@);
    loop
        invariant
            pos <= s.len(),
            pieces(r@) + lines(s@.skip(pos as int)) == lines(s@),
        decreases s.len() - pos,
    {
        let ghost old_pieces = pieces(r@);
        let rest = slice_chars(s, pos, s.len());
        assert(rest@ =~= s@.skip(pos as int));
        if rest.len() == 0 {
            proof {
                reveal(lines);
            }
            assert(old_pieces + lines(rest@) =~= old_pieces);
            return r;
        }
        match find_char(&rest, '\n') {
            Some(i) => {
                proof {
                    lemma_first_index_bounds(rest@, '\n');
                    lemma_lines_step(rest@, i as int);
                }
                let mut piece = slice_chars(&rest, 0, i);
                if piece.len() > 0 && piece[piece.len() - 1] == '\r' {
                    piece.pop();
                }
                let ghost pv = piece@;
                proof {
                    assert(pv =~= strip_cr(rest@.take(i as int)));
                }
                r.push(piece);
                proof {
                    assert(r@ =~= r@.drop_last().push(r@.last()));
                    lemma_pieces_push(r@.drop_last(), r@.last());
                    assert(rest@.skip(i + 1) =~= s@.skip(pos + i + 1));
                    assert(old_pieces + (seq![pv] + lines(s@.skip(pos + i + 1))) =~= old_pieces.push(pv)
                        + lines(s@.skip(pos + i + 1)));
                }
                pos = pos + i + 1;
            },
            None => {
                proof {
                    lemma_lines_none(rest@);
                }
                let ghost rv = rest@;
                r.push(rest);
                proof {
                    assert(r@ =~= r@.drop_last().push(r@.last()));
                    lemma_pieces_push(r@.drop_last(), r@.last());
                    assert(old_pieces + seq![rv] =~= old_pieces.push(rv));
                }
                return r;
            },
        }
    }
}

// ---------------------------------------------------------------------------
// Numbers
// ---------------------------------------------------------------------------

/// The value of the decimal digit `c`.
pub open spec fn digit_value(c: char) -> int {
    (c as int) - ('0' as int)
}

/// All characters are ASCII digits.
pub open spec fn all_digits(s: Seq<char>) -> bool {
    forall|i: int| 0 <= i < s.len() ==> is_digit(#[trigger] s[i])
}

/// The number that a sequence of decimal digits denotes.
pub open spec fn digits_value(s: Seq<char>) -> int
    decreases s.len(),
{
    if s.len() == 0 {
        0
    } else {
        digits_value(s.drop_last()) * 10 + digit_value(s.last())
    }
}

/// The unsigned magnitude that `str::parse` reads: an optional `+` and at
/// least one digit, below `bound`.
pub open spec fn parse_unsigned(s: Seq<char>, bound: int) -> Option<int> {
    let body = if s.len() > 0 && s[0] == '+' {
        s.drop_first()
    } else {
        s
    };
    if body.len() > 0 && all_digits(body) && digits_value(body) <= bound {
        Some(digits_value(body))
    } else {
        None
    }
}

/// `str::parse::<u32>`.
pub open spec fn parse_u32_spec(s: Seq<char>) -> Option<u32> {
    match parse_unsigned(s, u32::MAX as int) {
        Some(v) => Some(v as u32),
        None => None,
    }
}

/// `str::parse::<u64>`.
pub open spec fn parse_u64_spec(s: Seq<char>) -> Option<u64> {
    match parse_unsigned(s, u64::MAX as int) {
        Some(v) => Some(v as u64),
        None => None,
    }
}

/// `str::parse::<i32>`: an optional sign and at least one digit, in range.
pub open spec fn parse_i32_spec(s: Seq<char>) -> Option<i32> {
    if s.len() > 0 && s[0] == '-' {
        let body = s.drop_first();
        if body.len() > 0 && all_digits(body) && digits_value(body) <= 2147483648 {
            Some((-digits_value(body)) as i32)
        } else {
            None
        }
    } else {
        match parse_unsigned(s, i32::MAX as int) {
            Some(v) => Some(v as i32),
            None => None,
        }
    }
}

pub proof fn lemma_digits_value_nonneg(s: Seq<char>)
    requires
        all_digits(s),
    ensures
        digits_value(s) >= 0,
    decreases s.len(),
{
    if s.len() > 0 {
        assert(all_digits(s.drop_last())) by {
            assert forall|i: int| 0 <= i < s.drop_last().len() implies is_digit(#[trigger] s.drop_last()[i]) by {
                assert(s.drop_last()[i] == s[i]);
            }
        }
        lemma_digits_value_nonneg(s.drop_last());
        assert(is_digit(s[s.len() - 1]));
    }
}

pub proof fn lemma_digits_value_grows(s: Seq<char>, i: int, j: int)
    requires
        all_digits(s),
        0 <= i <= j <= s.len(),
    ensures
        digits_value(s.take(i)) <= digits_value(s.take(j)),
    decreases j - i,
{
    if i < j {
        lemma_digits_value_grows(s, i, j - 1);
        assert(s.take(j).drop_last() =~= s.take(j - 1));
        assert(all_digits(s.take(j - 1))) by {
            assert forall|k: int| 0 <= k < s.take(j - 1).len() implies is_digit(#[trigger] s.take(j - 1)[k]) by {
                assert(s.take(j - 1)[k] == s[k]);
            }
        }
        lemma_digits_value_nonneg(s.take(j - 1));
        assert(is_digit(s[j - 1]));
    }
}

/// Reads the digits `s[from..]` as an unsigned value at most `bound`.
fn parse_digits(s: &[char], from: usize, bound: u64) -> (r: Option<u64>)
    requires
        from <= s.len(),
        bound >= 9,
    ensures
        ({
            let body = s@.skip(from as int);
            match r {
                Some(v) => body.len() > 0 && all_digits(body) && digits_value(body) <= bound
                    && v == digits_value(body),
                None => !(body.len() > 0 && all_digits(body) && digits_value(body) <= bound),
            }
        }),
{
    let ghost body = s@.skip(from as int);
    if from == s.len() {
        return None;
    }
    let mut acc: u64 = 0;
    let mut i: usize = from;
    while i < s.len()
        invariant
            from <= i <= s.len(),
            body == s@.skip(from as int),
            all_digits(body.take(i - from)),
            acc == digits_value(body.take(i - from)),
            acc <= bound,
        decreases s.len() - i,
    {
        let c = s[i];
        if !char_is_digit(c) {
            assert(body[i - from] == c);
            return None;
        }
        let d: u64 = ((c as u32) - ('0' as u32)) as u64;
        proof {
            assert(body.take(i - from + 1).drop_last() =~= body.take(i - from));
            assert(body.take(i - from + 1).last() == c);
            assert(all_digits(body.take(i - from + 1))) by {
                assert forall|k: int| 0 <= k < body.take(i - from + 1).len() implies is_digit(
                    #[trigger] body.take(i - from + 1)[k],
                ) by {
                    if k < i - from {
                        assert(body.take(i - from + 1)[k] == body.take(i - from)[k]);
                    }
                }
            }
        }
        if d > bound || acc > (bound - d) / 10 {
            proof {
                assert(digits_value(body.take(i - from + 1)) == acc * 10 + d);
                assert(acc * 10 + d > bound) by (nonlinear_arith)
                    requires
                        d > bound || acc > (bound - d) / 10,
                        d <= 9,
                        acc >= 0,
                ;
                assert(all_digits(body) ==> digits_value(body.take(i - from + 1)) <= digits_value(body.take(body.len() as int))) by {
                    if all_digits(body) {
                        lemma_digits_value_grows(body, i - from + 1, body.len() as int);
                    }
                }
                assert(body.take(body.len() as int) =~= body);
            }
            return None;
        }
        proof {
            assert(acc * 10 + d <= bound) by (nonlinear_arith)
                requires
                    acc <= (bound - d) / 10,
                    d <= bound,
            ;
        }
        acc = acc * 10 + d;
        i += 1;
    }
    assert(body.take(body.len() as int) =~= body);
    Some(acc)
}

/// `str::parse::<u64>` on characters.
pub fn parse_u64(s: &[char]) -> (r: Option<u64>)
    ensures
        r == parse_u64_spec(s@),
{
    let from: usize = if s.len() > 0 && s[0] == '+' { 1 } else { 0 };
    assert(from == 1 ==> s@.skip(1) =~= s@.drop_first());
    assert(from == 0 ==> s@.skip(0) =~= s@);
    parse_digits(s, from, u64::MAX)
}

/// `str::parse::<u32>` on characters.
pub fn parse_u32(s: &[char]) -> (r: Option<u32>)
    ensures
        r == parse_u32_spec(s@),
{
    let from: usize = if s.len() > 0 && s[0] == '+' { 1 } else { 0 };
    assert(from == 1 ==> s@.skip(1) =~= s@.drop_first());
    assert(from == 0 ==> s@.skip(0) =~= s@);
    match parse_digits(s, from, 0xffff_ffffu64) {
        Some(v) => Some(v as u32),
        None => None,
    }
}

/// `str::parse::<i32>` on characters.
pub fn parse_i32(s: &[char]) -> (r: Option<i32>)
    ensures
        r == parse_i32_spec(s@),
{
    if s.len() > 0 && s[0] == '-' {
        assert(s@.skip(1) =~= s@.drop_first());
        match parse_digits(s, 1, 2147483648u64) {
            Some(v) => {
                let r: i64 = 0i64 - (v as i64);
                Some(r as i32)
            },
            None => None,
        }
    } else {
        let from: usize = if s.len() > 0 && s[0] == '+' { 1 } else { 0 };
        assert(from == 1 ==> s@.skip(1) =~= s@.drop_first());
        assert(from == 0 ==> s@.skip(0) =~= s@);
        match parse_digits(s, from, 2147483647u64) {
            Some(v) => Some(v as i32),
            None => None,
        }
    }
}

/// The character of a decimal digit.
pub open spec fn digit_char(d: int) -> char {
    if d == 0 {
        '0'
    } else if d == 1 {
        '1'
    } else if d == 2 {
        '2'
    } else if d == 3 {
        '3'
    } else if d == 4 {
        '4'
    } else if d == 5 {
        '5'
    } else if d == 6 {
        '6'
    } else if d == 7 {
        '7'
    } else if d == 8 {
        '8'
    } else {
        '9'
    }
}

fn digit_char_exec(d: u64) -> (c: char)
    requires
        d < 10,
    ensures
        c == digit_char(d as int),
{
    if d == 0 {
        '0'
    } else if d == 1 {
        '1'
    } else if d == 2 {
        '2'
    } else if d == 3 {
        '3'
    } else if d == 4 {
        '4'
    } else if d == 5 {
        '5'
    } else if d == 6 {
        '6'
    } else if d == 7 {
        '7'
    } else if d == 8 {
        '8'
    } else {
        '9'
    }
}

/// The decimal representation of `n`, as `Display` writes it.
pub open spec fn decimal(n: nat) -> Seq<char>
    decreases n,
{
    if n < 10 {
        seq![digit_char(n as int)]
    } else {
        decimal(n / 10).push(digit_char((n % 10) as int))
    }
}

/// The decimal representation of a signed value, as `Display` writes it.
pub open spec fn decimal_signed(v: int) -> Seq<char> {
    if v < 0 {
        seq!['-'] + decimal((-v) as nat)
    } else {
        decimal(v as nat)
    }
}

/// Decimal digits of `n`.
pub fn u64_decimal(n: u64) -> (r: Vec<char>)
    ensures
        r@ == decimal(n as nat),
    decreases n,
{
    if n < 10 {
        let mut r: Vec<char> = Vec::new();
        r.push(digit_char_exec(n));
        assert(r@ =~= seq![digit_char(n as int)]);
        r
    } else {
        let mut r = u64_decimal(n / 10);
        r.push(digit_char_exec(n % 10));
        r
    }
}

/// Decimal digits of a signed value.
pub fn i64_decimal(v: i64) -> (r: Vec<char>)
    ensures
        r@ == decimal_signed(v as int),
{
    if v < 0 {
        let mag: u64 = if v == i64::MIN {
            9223372036854775808u64
        } else {
            (0i64 - v) as u64
        };
        let mut r: Vec<char> = Vec::new();
        r.push('-');
        let d = u64_decimal(mag);
        push_chars(&mut r, &d);
        assert(r@ =~= seq!['-'] + decimal((-(v as int)) as nat));
        r
    } else {
        u64_decimal(v as u64)
    }
}

/// Appends the decimal digits of `n`.
pub fn push_u64(v: &mut Vec<char>, n: u64)
    ensures
        final(v)@ == old(v)@ + decimal(n as nat),
{
    let d = u64_decimal(n);
    push_chars(v, &d);
}

/// Appends the decimal representation of a signed value.
pub fn push_i64(v: &mut Vec<char>, n: i64)
    ensures
        final(v)@ == old(v)@ + decimal_signed(n as int),
{
    let d = i64_decimal(n);
    push_chars(v, &d);
}

/// `s` right-aligned in a field of `width` characters, padded with
/// spaces (`{:width$}` for numbers).
pub open spec fn pad_left(s: Seq<char>, width: nat) -> Seq<char> {
    if s.len() < width {
        repeat_char(' ', (width - s.len()) as nat) + s
    } else {
        s
    }
}

/// Pieces joined with a separator (`[T]::join`).
pub open spec fn join_sep(parts: Seq<Seq<char>>, sep: Seq<char>) -> Seq<char>
    decreases parts.len(),
{
    if parts.len() == 0 {
        seq![]
    } else if parts.len() == 1 {
        parts[0]
    } else {
        join_sep(parts.drop_last(), sep) + sep + parts.last()
    }
}

pub fn join_pieces(parts: &Vec<Vec<char>>, sep: &str) -> (r: Vec<char>)
    ensures
        r@ == join_sep(pieces(parts@), sep@),
{
    let mut r: Vec<char> = Vec::new();
    let mut i: usize = 0;
    while i < parts.len()
        invariant
            i <= parts.len(),
            r@ == join_sep(pieces(parts@).take(i as int), sep@),
        decreases parts.len() - i,
    {
        let ghost p = pieces(parts@);
        proof {
            assert(p.take(i + 1).drop_last() =~= p.take(i as int));
            assert(p.take(i + 1).last() == parts@[i as int]@);
            if i == 0 {
                assert(p.take(1) =~= seq![parts@[0]@]);
                assert(p.take(0).len() == 0);
            }
        }
        if i > 0 {
            push_str(&mut r, sep);
        }
        push_chars(&mut r, &parts[i]);
        i += 1;
    }
    assert(pieces(parts@).take(parts.len() as int) =~= pieces(parts@));
    r
}

/// `s` left-aligned in a field of `width` characters, padded with spaces
/// (`{:<width$}`).
pub open spec fn pad_right(s: Seq<char>, width: nat) -> Seq<char> {
    if s.len() < width {
        s + repeat_char(' ', (width - s.len()) as nat)
    } else {
        s
    }
}

/// Appends `s` left-aligned in a field of `width` characters.
pub fn push_padded_right(v: &mut Vec<char>, s: &[char], width: usize)
    ensures
        final(v)@ == old(v)@ + pad_right(s@, width as nat),
{
    let ghost start = v@;
    push_chars(v, s);
    if s.len() < width {
        push_repeat(v, ' ', width - s.len());
    }
    assert(v@ =~= start + pad_right(s@, width as nat));
}

/// `s` padded on the left with zeros to `width` characters (`{:0width$}`
/// for non-negative numbers).
pub open spec fn pad_zero(s: Seq<char>, width: nat) -> Seq<char> {
    if s.len() < width {
        repeat_char('0', (width - s.len()) as nat) + s
    } else {
        s
    }
}

pub fn push_padded(v: &mut Vec<char>, s: &[char], fill: char, width: usize)
    ensures
        final(v)@ == old(v)@ + (if s@.len() < width {
            repeat_char(fill, (width - s@.len()) as nat) + s@
        } else {
            s@
        }),
{
    let ghost start = v@;
    if s.len() < width {
        push_repeat(v, fill, width - s.len());
    }
    push_chars(v, s);
    assert(v@ =~= start + (if s@.len() < width {
        repeat_char(fill, (width - s@.len()) as nat) + s@
    } else {
        s@
    }));
}

// ---------------------------------------------------------------------------
// Unicode case mapping
// ---------------------------------------------------------------------------

/// What `str::to_lowercase` returns for a string with the given characters
/// (full Unicode case mapping).
pub uninterp spec fn unicode_lowercase(s: Seq<char>) -> Seq<char>;

/// Every character is ASCII.
pub open spec fn is_ascii_chars(s: Seq<char>) -> bool {
    forall|i: int| 0 <= i < s.len() ==> (#[trigger] s[i] as u32) < 128
}

/// Lower-cases text with `str::to_lowercase`; the result is named
/// `unicode_lowercase` of the input characters. Claimed besides: on ASCII
/// text the Unicode mapping is the ASCII one (only `A`..=`Z` change).
#[verifier::external_body]
pub(crate) fn to_lowercase(s: &[char]) -> (r: Vec<char>)
    ensures
        r@ == unicode_lowercase(s@),
        is_ascii_chars(s@) ==> r@ == ascii_lower_seq(s@),
{
    let text: String = s.iter().collect();
    text.to_lowercase().chars().collect()
}

} // verus!
