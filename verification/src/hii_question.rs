//! A question (setting) found in the firmware's HII forms.
use vstd::prelude::*;

verus! {

/// A firmware setup question: its prompt, its current answer (when known)
/// and its help text.
#[derive(Debug, Clone, PartialEq, Eq, Default)]
pub struct HiiQuestion {
    pub name: String,
    pub answer: String,
    pub help: String,
}

/// The characters of a question's name, answer and help text.
pub open spec fn question_view(q: HiiQuestion) -> (Seq<char>, Seq<char>, Seq<char>) {
    (q.name@, q.answer@, q.help@)
}

} // verus!
