//! Regular-expression matching through the `regex` crate.
use vstd::prelude::*;

verus! {

/// The text of capture group `group` in the first match of `pattern` in
/// `haystack`, as the `regex` crate finds it (group 0 is the whole match);
/// `None` when there is no match, the group did not take part in it, or the
/// pattern does not compile.
pub uninterp spec fn regex_group(pattern: Seq<char>, haystack: Seq<char>, group: nat) -> Option<Seq<char>>;

pub open spec fn opt_chars(o: Option<String>) -> Option<Seq<char>> {
    match o {
        Some(s) => Some(s@),
        None => None,
    }
}

/// Compiles `pattern` with `regex::Regex::new`, runs `Regex::captures` on
/// the haystack and reads group `group` with `Captures::get`; the contract
/// only names the result, `regex_group` of the arguments.
#[verifier::external_body]
pub(crate) fn capture_group(pattern: &str, haystack: &[char], group: usize) -> (r: Option<String>)
    ensures
        opt_chars(r) == regex_group(pattern@, haystack@, group as nat),
{
    let hay: String = haystack.iter().collect();
    let re = regex::Regex::new(pattern).ok()?;
    let caps = re.captures(&hay)?;
    caps.get(group).map(|m| m.as_str().to_string())
}

/// `pattern` matches somewhere in `haystack`.
pub open spec fn regex_found(pattern: Seq<char>, haystack: Seq<char>) -> bool {
    regex_group(pattern, haystack, 0) is Some
}

pub fn is_match(pattern: &str, haystack: &[char]) -> (b: bool)
    ensures
        b == regex_found(pattern@, haystack@),
{
    capture_group(pattern, haystack, 0).is_some()
}

} // verus!
