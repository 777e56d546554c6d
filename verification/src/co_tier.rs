//! Zen generation detection from the CPU model name and classification of
//! Curve Optimizer offsets into quality tiers.
use crate::text;
use vstd::prelude::*;

verus! {

/// AMD Zen generation of a Ryzen CPU.
#[derive(Debug, Clone, Copy, PartialEq, Eq, Structural)]
pub enum AmdGeneration {
    Zen3,
    Zen4,
    Zen5,
    Zen6,
    Unknown,
}

/// Quality tier of a Curve Optimizer offset for a generation.
#[derive(Debug, Clone, Copy, PartialEq, Eq, Structural)]
pub enum CoTier {
    Gold,
    Silver,
    Bronze,
    Neutral,
}

impl AmdGeneration {
    /// The generation's display name ("Zen 3", ..., "Unknown").
    pub fn label(&self) -> (s: String)
        ensures
            s@ == generation_label(*self),
    {
        match self {
            AmdGeneration::Zen3 => "Zen 3".to_owned(),
            AmdGeneration::Zen4 => "Zen 4".to_owned(),
            AmdGeneration::Zen5 => "Zen 5".to_owned(),
            AmdGeneration::Zen6 => "Zen 6".to_owned(),
            AmdGeneration::Unknown => "Unknown".to_owned(),
        }
    }
}

pub open spec fn generation_label(g: AmdGeneration) -> Seq<char> {
    match g {
        AmdGeneration::Zen3 => "Zen 3"@,
        AmdGeneration::Zen4 => "Zen 4"@,
        AmdGeneration::Zen5 => "Zen 5"@,
        AmdGeneration::Zen6 => "Zen 6"@,
        AmdGeneration::Unknown => "Unknown"@,
    }
}

/// A model-number token of a series: the leading digit followed by at
/// least three more digits (e.g. "5900X" for series 5).
pub open spec fn is_series_token(token: Seq<char>, leading_digit: char) -> bool {
    &&& token.len() >= 4
    &&& token[0] == leading_digit
    &&& text::is_digit(token[1])
    &&& text::is_digit(token[2])
    &&& text::is_digit(token[3])
}

/// Some white-space separated word of the model name is a series token.
pub open spec fn contains_series_spec(model_name: Seq<char>, leading_digit: char) -> bool {
    exists|i: int| 0 <= i < text::words(model_name).len() && #[trigger] is_series_token(text::words(model_name)[i], leading_digit)
}

/// The generation that a model name denotes.
pub open spec fn generation_of(model_name: Seq<char>) -> AmdGeneration {
    if !text::contains(model_name, "Ryzen"@) {
        AmdGeneration::Unknown
    } else if contains_series_spec(model_name, '5') {
        AmdGeneration::Zen3
    } else if text::contains(model_name, "8600G"@) || text::contains(model_name, "8700G"@)
        || contains_series_spec(model_name, '7') {
        AmdGeneration::Zen4
    } else if contains_series_spec(model_name, '9') {
        AmdGeneration::Zen5
    } else {
        AmdGeneration::Unknown
    }
}

/// Detects the Zen generation from a CPU model name such as
/// "AMD Ryzen 9 5900X 12-Core Processor".
pub fn detect_generation(model_name: &str) -> (g: AmdGeneration)
    ensures
        g == generation_of(model_name@),
{
    let chars = text::chars_of(model_name);
    if !text::contains_str(&chars, "Ryzen") {
        return AmdGeneration::Unknown;
    }
    if contains_series(&chars, '5') {
        return AmdGeneration::Zen3;
    }
    if contains_phoenix_apu(&chars) || contains_series(&chars, '7') {
        return AmdGeneration::Zen4;
    }
    if contains_series(&chars, '9') {
        return AmdGeneration::Zen5;
    }
    AmdGeneration::Unknown
}

/// Thresholds of a generation: (gold_max, silver_max, bronze_max).
pub open spec fn thresholds(generation: AmdGeneration) -> Option<(int, int, int)> {
    match generation {
        AmdGeneration::Zen3 => Some((-25, -15, -5)),
        AmdGeneration::Zen4 => Some((-28, -18, -8)),
        AmdGeneration::Zen5 => Some((-30, -20, -10)),
        AmdGeneration::Zen6 => Some((-32, -22, -12)),
        AmdGeneration::Unknown => None,
    }
}

pub open spec fn tier_by_thresholds(v: int, gold_max: int, silver_max: int, bronze_max: int) -> CoTier {
    if v <= gold_max {
        CoTier::Gold
    } else if v <= silver_max {
        CoTier::Silver
    } else if v <= bronze_max {
        CoTier::Bronze
    } else {
        CoTier::Neutral
    }
}

/// The tier of a CO value for a generation; an unknown generation is
/// always Neutral.
pub open spec fn classify_spec(v: int, generation: AmdGeneration) -> CoTier {
    match thresholds(generation) {
        Some((g, s, b)) => tier_by_thresholds(v, g, s, b),
        None => CoTier::Neutral,
    }
}

/// Classifies a CO offset into a tier for the generation.
pub fn classify_co(co_value: i32, generation: AmdGeneration) -> (t: CoTier)
    ensures
        t == classify_spec(co_value as int, generation),
{
    match generation {
        AmdGeneration::Zen3 => classify_by_thresholds(co_value, -25, -15, -5),
        AmdGeneration::Zen4 => classify_by_thresholds(co_value, -28, -18, -8),
        AmdGeneration::Zen5 => classify_by_thresholds(co_value, -30, -20, -10),
        AmdGeneration::Zen6 => classify_by_thresholds(co_value, -32, -22, -12),
        AmdGeneration::Unknown => CoTier::Neutral,
    }
}

fn classify_by_thresholds(co_value: i32, gold_max: i32, silver_max: i32, bronze_max: i32) -> (t: CoTier)
    ensures
        t == tier_by_thresholds(co_value as int, gold_max as int, silver_max as int, bronze_max as int),
{
    if co_value <= gold_max {
        return CoTier::Gold;
    }
    if co_value <= silver_max {
        return CoTier::Silver;
    }
    if co_value <= bronze_max {
        return CoTier::Bronze;
    }
    CoTier::Neutral
}

fn contains_phoenix_apu(model_name: &[char]) -> (b: bool)
    ensures
        b == (text::contains(model_name@, "8600G"@) || text::contains(model_name@, "8700G"@)),
{
    text::contains_str(model_name, "8600G") || text::contains_str(model_name, "8700G")
}

fn contains_series(model_name: &[char], leading_digit: char) -> (b: bool)
    ensures
        b == contains_series_spec(model_name@, leading_digit),
{
    let parts = text::split_whitespace(model_name);
    let ghost ws = text::words(model_name@);
    let mut i: usize = 0;
    while i < parts.len()
        invariant
            i <= parts.len(),
            text::pieces(parts@) == ws,
            ws == text::words(model_name@),
            forall|j: int| 0 <= j < i ==> !is_series_token(#[trigger] ws[j], leading_digit),
        decreases parts.len() - i,
    {
        assert(ws[i as int] == parts@[i as int]@);
        if matches_generation_token(&parts[i], leading_digit) {
            return true;
        }
        i += 1;
    }
    false
}

fn matches_generation_token(token: &[char], leading_digit: char) -> (b: bool)
    ensures
        b == is_series_token(token@, leading_digit),
{
    token.len() >= 4 && token[0] == leading_digit && text::char_is_digit(token[1]) && text::char_is_digit(token[2])
        && text::char_is_digit(token[3])
}

/// How good a tier is (Gold highest).
pub open spec fn tier_rank(t: CoTier) -> int {
    match t {
        CoTier::Gold => 3,
        CoTier::Silver => 2,
        CoTier::Bronze => 1,
        CoTier::Neutral => 0,
    }
}

/// For any generation, a more negative Curve Optimizer value never lands in
/// a worse tier than a less negative one.
pub proof fn lemma_classify_monotone(a: int, b: int, generation: AmdGeneration)
    requires
        a <= b,
    ensures
        tier_rank(classify_spec(a, generation)) >= tier_rank(classify_spec(b, generation)),
{
}

/// Zero and positive offsets are always Neutral.
pub proof fn lemma_non_negative_is_neutral(v: int, generation: AmdGeneration)
    requires
        v >= 0,
    ensures
        classify_spec(v, generation) == CoTier::Neutral,
{
}

/// The tier bands of each generation. Zen 3: Gold up to -25, Silver up to
/// -15, Bronze up to -5. Zen 4: Gold up to -28, Silver up to -18, Bronze up
/// to -8. Zen 5: Gold up to -30, Silver up to -20, Bronze up to -10. Zen 6:
/// Gold up to -32, Silver up to -22, Bronze up to -12. Above the Bronze bound,
/// and for an unknown generation, Neutral.
pub proof fn lemma_tier_bands(v: int)
    ensures
        v <= -25 ==> classify_spec(v, AmdGeneration::Zen3) == CoTier::Gold,
        -25 < v <= -15 ==> classify_spec(v, AmdGeneration::Zen3) == CoTier::Silver,
        -15 < v <= -5 ==> classify_spec(v, AmdGeneration::Zen3) == CoTier::Bronze,
        -5 < v ==> classify_spec(v, AmdGeneration::Zen3) == CoTier::Neutral,
        v <= -28 ==> classify_spec(v, AmdGeneration::Zen4) == CoTier::Gold,
        -28 < v <= -18 ==> classify_spec(v, AmdGeneration::Zen4) == CoTier::Silver,
        -18 < v <= -8 ==> classify_spec(v, AmdGeneration::Zen4) == CoTier::Bronze,
        -8 < v ==> classify_spec(v, AmdGeneration::Zen4) == CoTier::Neutral,
        v <= -30 ==> classify_spec(v, AmdGeneration::Zen5) == CoTier::Gold,
        -30 < v <= -20 ==> classify_spec(v, AmdGeneration::Zen5) == CoTier::Silver,
        -20 < v <= -10 ==> classify_spec(v, AmdGeneration::Zen5) == CoTier::Bronze,
        -10 < v ==> classify_spec(v, AmdGeneration::Zen5) == CoTier::Neutral,
        v <= -32 ==> classify_spec(v, AmdGeneration::Zen6) == CoTier::Gold,
        -32 < v <= -22 ==> classify_spec(v, AmdGeneration::Zen6) == CoTier::Silver,
        -22 < v <= -12 ==> classify_spec(v, AmdGeneration::Zen6) == CoTier::Bronze,
        -12 < v ==> classify_spec(v, AmdGeneration::Zen6) == CoTier::Neutral,
        classify_spec(v, AmdGeneration::Unknown) == CoTier::Neutral,
{
}

/// For every known generation each of the four tiers is taken by some
/// offset, and a stronger (more negative) offset never gets a lower tier.
pub proof fn lemma_every_tier_reachable(generation: AmdGeneration)
    requires
        generation != AmdGeneration::Unknown,
    ensures
        exists|v: int| classify_spec(v, generation) == CoTier::Gold,
        exists|v: int| classify_spec(v, generation) == CoTier::Silver,
        exists|v: int| classify_spec(v, generation) == CoTier::Bronze,
        exists|v: int| classify_spec(v, generation) == CoTier::Neutral,
{
    let (g, s, b) = thresholds(generation).unwrap();
    assert(g < s < b < 0);
    assert(classify_spec(g, generation) == CoTier::Gold);
    assert(classify_spec(s, generation) == CoTier::Silver);
    assert(classify_spec(b, generation) == CoTier::Bronze);
    assert(classify_spec(0, generation) == CoTier::Neutral);
}

} // verus!
