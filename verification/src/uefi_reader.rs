//! Interpretation of the firmware's setup questions: which of them are AMD
//! overclocking settings, and what they say of Precision Boost Overdrive,
//! its power limits, the Curve Optimizer and the AGESA version.
use crate::hii_question::HiiQuestion;
use crate::ifr_parser;
use crate::ifr_parser::{parse_ifr_to_questions, IfrParseError};
use crate::text;
use std::collections::BTreeMap;
use vstd::prelude::*;

verus! {

// ---------------------------------------------------------------------------
// Privilege escalation
// ---------------------------------------------------------------------------

/// How the firmware settings can be read: the process already runs as root,
/// it can re-run itself through pkexec, or neither.
#[derive(Debug, Clone, PartialEq, Eq)]
pub enum EscalationMethod {
    AlreadyRoot,
    Pkexec,
    Unavailable { reason: String },
}

/// The reason given when no way to root exists.
pub open spec fn no_root_reason() -> Seq<char> {
    "Root access required for UEFI settings. Run with sudo or install polkit (pkexec)."@
}

/// Root wins over pkexec; with neither the method is unavailable.
pub fn detect_escalation_method(is_root: bool, has_pkexec: bool) -> (m: EscalationMethod)
    ensures
        is_root ==> m is AlreadyRoot,
        !is_root && has_pkexec ==> m is Pkexec,
        !is_root && !has_pkexec ==> (m matches EscalationMethod::Unavailable { reason } && reason@
            == no_root_reason()),
{
    if is_root {
        return EscalationMethod::AlreadyRoot;
    }
    if has_pkexec {
        return EscalationMethod::Pkexec;
    }
    EscalationMethod::Unavailable {
        reason: "Root access required for UEFI settings. Run with sudo or install polkit (pkexec).".to_owned(),
    }
}

// ---------------------------------------------------------------------------
// Settings
// ---------------------------------------------------------------------------

/// The PBO power limits as the firmware shows them.
#[derive(Debug, Clone, PartialEq, Eq, Default)]
pub struct PboLimits {
    pub ppt_limit: Option<String>,
    pub tdc_limit: Option<String>,
    pub edc_limit: Option<String>,
}

/// What could be read of the AMD overclocking settings.
#[derive(Debug, Clone, PartialEq, Eq, Default)]
pub struct UefiSettings {
    pub available: bool,
    pub unavailable_reason: Option<String>,
    pub pbo_status: Option<String>,
    pub pbo_limits: Option<PboLimits>,
    pub curve_optimizer_offsets: Option<BTreeMap<u32, i32>>,
    pub agesa_version: Option<String>,
    pub raw_settings: Vec<(String, String)>,
}

pub open spec fn opt_text(o: Option<String>) -> Option<Seq<char>> {
    match o {
        Some(s) => Some(s@),
        None => None,
    }
}

pub open spec fn limits_view(l: PboLimits) -> (Option<Seq<char>>, Option<Seq<char>>, Option<Seq<char>>) {
    (opt_text(l.ppt_limit), opt_text(l.tdc_limit), opt_text(l.edc_limit))
}

pub open spec fn opt_limits(o: Option<PboLimits>) -> Option<(Option<Seq<char>>, Option<Seq<char>>, Option<Seq<char>>)> {
    match o {
        Some(l) => Some(limits_view(l)),
        None => None,
    }
}

pub open spec fn opt_offsets(o: Option<BTreeMap<u32, i32>>) -> Option<Map<u32, i32>> {
    match o {
        Some(m) => Some(m@),
        None => None,
    }
}

pub open spec fn raw_view(v: Seq<(String, String)>) -> Seq<(Seq<char>, Seq<char>)> {
    v.map_values(|p: (String, String)| (p.0@, p.1@))
}

impl UefiSettings {
    /// Settings that could not be read, with the reason.
    pub fn unavailable(reason: String) -> (s: UefiSettings)
        ensures
            !s.available,
            s.unavailable_reason == Some(reason),
            s.pbo_status is None,
            s.pbo_limits is None,
            s.curve_optimizer_offsets is None,
            s.agesa_version is None,
            s.raw_settings@.len() == 0,
    {
        UefiSettings {
            available: false,
            unavailable_reason: Some(reason),
            pbo_status: None,
            pbo_limits: None,
            curve_optimizer_offsets: None,
            agesa_version: None,
            raw_settings: Vec::new(),
        }
    }
}

// ---------------------------------------------------------------------------
// Keyword matching
// ---------------------------------------------------------------------------

/// The lower-cased text `"{name} {help}"` that the keyword tests search.
pub open spec fn combined_lower(name: Seq<char>, help: Seq<char>) -> Seq<char> {
    text::unicode_lowercase(name + seq![' '] + help)
}

pub open spec fn mentions(s: Seq<char>, word: &str) -> bool {
    text::contains(s, word@)
}

pub open spec fn pbo_words(s: Seq<char>) -> bool {
    mentions(s, "precision boost") || mentions(s, "pbo") || mentions(s, "core performance boost") || mentions(s, "cpb")
}

pub open spec fn matches_pbo_spec(name: Seq<char>, help: Seq<char>) -> bool {
    pbo_words(combined_lower(name, help))
}

pub open spec fn matches_co_spec(name: Seq<char>, help: Seq<char>) -> bool {
    let c = combined_lower(name, help);
    mentions(c, "curve optimizer") || mentions(c, "co offset") || mentions(c, "per core")
}

pub open spec fn matches_limits_spec(name: Seq<char>, help: Seq<char>) -> bool {
    let c = combined_lower(name, help);
    mentions(c, "pbo limits") || mentions(c, "ppt") || mentions(c, "tdc") || mentions(c, "edc") || mentions(c, "power limit")
}

pub open spec fn matches_agesa_spec(name: Seq<char>, help: Seq<char>) -> bool {
    mentions(combined_lower(name, help), "agesa")
}

pub open spec fn matches_cbs_spec(name: Seq<char>, help: Seq<char>) -> bool {
    let c = combined_lower(name, help);
    mentions(c, "cbs") || mentions(c, "amd overclocking")
}

pub open spec fn matches_any_amd_spec(name: Seq<char>, help: Seq<char>) -> bool {
    matches_pbo_spec(name, help) || matches_co_spec(name, help) || matches_limits_spec(name, help)
        || matches_agesa_spec(name, help) || matches_cbs_spec(name, help)
}

fn combined(name: &[char], help: &[char]) -> (r: Vec<char>)
    ensures
        r@ == combined_lower(name@, help@),
{
    let mut c: Vec<char> = Vec::new();
    text::push_chars(&mut c, name);
    c.push(' ');
    text::push_chars(&mut c, help);
    assert(c@ =~= name@ + seq![' '] + help@);
    text::to_lowercase(&c)
}

fn matches_pbo(name: &[char], help: &[char]) -> (b: bool)
    ensures
        b == matches_pbo_spec(name@, help@),
{
    let c = combined(name, help);
    text::contains_str(&c, "precision boost") || text::contains_str(&c, "pbo") || text::contains_str(
        &c,
        "core performance boost",
    ) || text::contains_str(&c, "cpb")
}

fn matches_co(name: &[char], help: &[char]) -> (b: bool)
    ensures
        b == matches_co_spec(name@, help@),
{
    let c = combined(name, help);
    text::contains_str(&c, "curve optimizer") || text::contains_str(&c, "co offset") || text::contains_str(
        &c,
        "per core",
    )
}

fn matches_limits(name: &[char], help: &[char]) -> (b: bool)
    ensures
        b == matches_limits_spec(name@, help@),
{
    let c = combined(name, help);
    text::contains_str(&c, "pbo limits") || text::contains_str(&c, "ppt") || text::contains_str(&c, "tdc")
        || text::contains_str(&c, "edc") || text::contains_str(&c, "power limit")
}

fn matches_agesa(name: &[char], help: &[char]) -> (b: bool)
    ensures
        b == matches_agesa_spec(name@, help@),
{
    let c = combined(name, help);
    text::contains_str(&c, "agesa")
}

fn matches_cbs(name: &[char], help: &[char]) -> (b: bool)
    ensures
        b == matches_cbs_spec(name@, help@),
{
    let c = combined(name, help);
    text::contains_str(&c, "cbs") || text::contains_str(&c, "amd overclocking")
}

fn matches_any_amd(name: &[char], help: &[char]) -> (b: bool)
    ensures
        b == matches_any_amd_spec(name@, help@),
{
    matches_pbo(name, help) || matches_co(name, help) || matches_limits(name, help) || matches_agesa(
        name,
        help,
    ) || matches_cbs(name, help)
}

// ---------------------------------------------------------------------------
// Values
// ---------------------------------------------------------------------------

/// The trimmed value, unless it is empty.
pub open spec fn non_empty_spec(value: Seq<char>) -> Option<Seq<char>> {
    if text::trim(value).len() == 0 {
        None
    } else {
        Some(text::trim(value))
    }
}

/// The trimmed value, unless it is empty or `auto` in any ASCII case.
pub open spec fn non_empty_non_auto_spec(value: Seq<char>) -> Option<Seq<char>> {
    let t = text::trim(value);
    if t.len() == 0 || text::eq_ignore_ascii_case(t, "auto"@) {
        None
    } else {
        Some(t)
    }
}

fn non_empty_value(value: &[char]) -> (r: Option<String>)
    ensures
        opt_text(r) == non_empty_spec(value@),
{
    let t = text::trim_chars(value);
    if t.len() == 0 {
        None
    } else {
        Some(text::string_from_chars(&t))
    }
}

fn non_empty_non_auto_value(value: &[char]) -> (r: Option<String>)
    ensures
        opt_text(r) == non_empty_non_auto_spec(value@),
{
    let t = text::trim_chars(value);
    let auto = text::lit("auto");
    if t.len() == 0 || text::chars_eq_ignore_ascii_case(&t, &auto) {
        None
    } else {
        Some(text::string_from_chars(&t))
    }
}

/// Position of the first `:` or `=`, if any.
pub open spec fn first_separator(s: Seq<char>, from: int) -> Option<int>
    decreases s.len() - from,
{
    if from < 0 || from >= s.len() {
        None
    } else if s[from] == ':' || s[from] == '=' {
        Some(from)
    } else {
        first_separator(s, from + 1)
    }
}

/// The trimmed text after the first `:` or `=`, unless it is empty.
pub open spec fn agesa_from_text_spec(s: Seq<char>) -> Option<Seq<char>> {
    match first_separator(s, 0) {
        Some(p) => non_empty_spec(s.subrange(p + 1, s.len() as int)),
        None => None,
    }
}

fn extract_agesa_from_text(s: &[char]) -> (r: Option<String>)
    ensures
        opt_text(r) == agesa_from_text_spec(s@),
{
    let mut i: usize = 0;
    while i < s.len()
        invariant
            i <= s.len(),
            first_separator(s@, 0) == first_separator(s@, i as int),
        decreases s.len() - i,
    {
        if s[i] == ':' || s[i] == '=' {
            let rhs = text::slice_chars(s, i + 1, s.len());
            return non_empty_value(&rhs);
        }
        i += 1;
    }
    None
}

/// Position of the first ASCII digit from `from` on, or the length.
pub open spec fn first_digit_from(s: Seq<char>, from: int) -> int
    decreases s.len() - from,
{
    if from < 0 || from >= s.len() {
        s.len() as int
    } else if text::is_digit(s[from]) {
        from
    } else {
        first_digit_from(s, from + 1)
    }
}

/// Length of the run of ASCII digits starting at `from`.
pub open spec fn digit_run(s: Seq<char>, from: int) -> int
    decreases s.len() - from,
{
    if from < 0 || from >= s.len() || !text::is_digit(s[from]) {
        0
    } else {
        1 + digit_run(s, from + 1)
    }
}

/// The core number of a per-core question: the first run of digits of a
/// name that mentions "core" (in any case), when it fits a `u32`.
pub open spec fn core_id_spec(name: Seq<char>) -> Option<u32> {
    if !mentions(text::unicode_lowercase(name), "core") {
        None
    } else {
        let p = first_digit_from(name, 0);
        if p >= name.len() {
            None
        } else {
            text::parse_u32_spec(name.subrange(p, p + digit_run(name, p)))
        }
    }
}

proof fn lemma_first_digit_bounds(s: Seq<char>, from: int)
    requires
        0 <= from <= s.len(),
    ensures
        from <= first_digit_from(s, from) <= s.len(),
        first_digit_from(s, from) < s.len() ==> text::is_digit(s[first_digit_from(s, from)]),
    decreases s.len() - from,
{
    if from < s.len() && !text::is_digit(s[from]) {
        lemma_first_digit_bounds(s, from + 1);
    }
}

proof fn lemma_digit_run_bounds(s: Seq<char>, from: int)
    requires
        0 <= from <= s.len(),
    ensures
        0 <= digit_run(s, from) <= s.len() - from,
    decreases s.len() - from,
{
    if from < s.len() && text::is_digit(s[from]) {
        lemma_digit_run_bounds(s, from + 1);
    }
}

/// The core number in a setting's name: the first run of digits, when the
/// name mentions "core" in any case.
pub fn extract_core_id(name: &str) -> (r: Option<u32>)
    ensures
        r == core_id_spec(name@),
{
    let c = text::chars_of(name);
    core_id_of_chars(&c)
}

fn core_id_of_chars(name: &[char]) -> (r: Option<u32>)
    ensures
        r == core_id_spec(name@),
{
    let lower = text::to_lowercase(name);
    if !text::contains_str(&lower, "core") {
        return None;
    }
    let mut p: usize = 0;
    while p < name.len() && !text::char_is_digit(name[p])
        invariant
            p <= name.len(),
            first_digit_from(name@, 0) == first_digit_from(name@, p as int),
        decreases name.len() - p,
    {
        p += 1;
    }
    if p >= name.len() {
        return None;
    }
    let mut e: usize = p;
    while e < name.len() && text::char_is_digit(name[e])
        invariant
            p <= e <= name.len(),
            digit_run(name@, p as int) == (e - p) + digit_run(name@, e as int),
        decreases name.len() - e,
    {
        e += 1;
    }
    let digits = text::slice_chars(name, p, e);
    text::parse_u32(&digits)
}

// ---------------------------------------------------------------------------
// Interpreting the questions
// ---------------------------------------------------------------------------

pub open spec fn q_name(q: HiiQuestion) -> Seq<char> {
    q.name@
}

pub open spec fn q_help(q: HiiQuestion) -> Seq<char> {
    q.help@
}

pub open spec fn q_answer(q: HiiQuestion) -> Seq<char> {
    q.answer@
}

/// The question is one of the AMD settings the report keeps.
pub open spec fn is_amd(q: HiiQuestion) -> bool {
    matches_any_amd_spec(q_name(q), q_help(q))
}

/// The first `Some` that `f` gives on the questions, in order.
pub open spec fn first_value(qs: Seq<HiiQuestion>, f: spec_fn(HiiQuestion) -> Option<Seq<char>>) -> Option<Seq<char>>
    decreases qs.len(),
{
    if qs.len() == 0 {
        None
    } else {
        match first_value(qs.drop_last(), f) {
            Some(v) => Some(v),
            None => f(qs.last()),
        }
    }
}

/// PBO status candidate: a PBO question named after PBO that is not a
/// per-core Curve Optimizer entry; its non-empty answer.
pub open spec fn pbo_candidate(q: HiiQuestion) -> Option<Seq<char>> {
    let name = q_name(q);
    let help = q_help(q);
    if is_amd(q) && matches_pbo_spec(name, help) && pbo_words(text::unicode_lowercase(name)) && !(
    matches_co_spec(name, help) && core_id_spec(name) is Some) {
        non_empty_spec(q_answer(q))
    } else {
        None
    }
}

/// Limit candidate: a limits question whose lower-cased name mentions `word`.
pub open spec fn limit_candidate(q: HiiQuestion, word: &str) -> Option<Seq<char>> {
    if is_amd(q) && matches_limits_spec(q_name(q), q_help(q)) && mentions(text::unicode_lowercase(q_name(q)), word) {
        non_empty_spec(q_answer(q))
    } else {
        None
    }
}

pub open spec fn ppt_candidate(q: HiiQuestion) -> Option<Seq<char>> {
    limit_candidate(q, "ppt")
}

pub open spec fn tdc_candidate(q: HiiQuestion) -> Option<Seq<char>> {
    limit_candidate(q, "tdc")
}

pub open spec fn edc_candidate(q: HiiQuestion) -> Option<Seq<char>> {
    limit_candidate(q, "edc")
}

pub open spec fn limits_mode_candidate(q: HiiQuestion) -> Option<Seq<char>> {
    limit_candidate(q, "pbo limits")
}

/// AGESA candidate: the answer unless empty or `auto`, else the version
/// after a separator in the name, else in the help text.
pub open spec fn agesa_candidate(q: HiiQuestion) -> Option<Seq<char>> {
    if is_amd(q) && matches_agesa_spec(q_name(q), q_help(q)) {
        match non_empty_non_auto_spec(q_answer(q)) {
            Some(v) => Some(v),
            None => match agesa_from_text_spec(q_name(q)) {
                Some(v) => Some(v),
                None => agesa_from_text_spec(q_help(q)),
            },
        }
    } else {
        None
    }
}

/// A Curve Optimizer question.
pub open spec fn is_co_question(q: HiiQuestion) -> bool {
    is_amd(q) && matches_co_spec(q_name(q), q_help(q))
}

/// Some question is a Curve Optimizer question.
pub open spec fn saw_co(qs: Seq<HiiQuestion>) -> bool {
    exists|i: int| 0 <= i < qs.len() && is_co_question(#[trigger] qs[i])
}

/// The per-core offsets: each Curve Optimizer question with a core number
/// and an integer answer sets that core; later questions win.
pub open spec fn co_offsets_of(qs: Seq<HiiQuestion>) -> Map<u32, i32>
    decreases qs.len(),
{
    if qs.len() == 0 {
        Map::empty()
    } else {
        let m = co_offsets_of(qs.drop_last());
        let q = qs.last();
        if is_co_question(q) {
            match (core_id_spec(q_name(q)), text::parse_i32_spec(text::trim(q_answer(q)))) {
                (Some(core), Some(offset)) => m.insert(core, offset),
                _ => m,
            }
        } else {
            m
        }
    }
}

/// The AMD questions kept as (name, answer), in order.
pub open spec fn raw_of(qs: Seq<HiiQuestion>) -> Seq<(Seq<char>, Seq<char>)>
    decreases qs.len(),
{
    if qs.len() == 0 {
        seq![]
    } else if is_amd(qs.last()) {
        raw_of(qs.drop_last()).push((q_name(qs.last()), q_answer(qs.last())))
    } else {
        raw_of(qs.drop_last())
    }
}

/// The power limits: the three limits when any is known, else the
/// "PBO Limits" mode as the PPT entry, else nothing.
pub open spec fn limits_of(qs: Seq<HiiQuestion>) -> Option<(Option<Seq<char>>, Option<Seq<char>>, Option<Seq<char>>)> {
    let ppt = first_value(qs, |q: HiiQuestion| ppt_candidate(q));
    let tdc = first_value(qs, |q: HiiQuestion| tdc_candidate(q));
    let edc = first_value(qs, |q: HiiQuestion| edc_candidate(q));
    if ppt is Some || tdc is Some || edc is Some {
        Some((ppt, tdc, edc))
    } else {
        match first_value(qs, |q: HiiQuestion| limits_mode_candidate(q)) {
            Some(mode) => Some((Some(mode), None, None)),
            None => None,
        }
    }
}

/// The settings that a list of questions describes.
pub open spec fn settings_of_questions(qs: Seq<HiiQuestion>, s: UefiSettings) -> bool {
    &&& s.available == (raw_of(qs).len() > 0)
    &&& s.unavailable_reason is None
    &&& opt_text(s.pbo_status) == first_value(qs, |q: HiiQuestion| pbo_candidate(q))
    &&& opt_limits(s.pbo_limits) == limits_of(qs)
    &&& opt_offsets(s.curve_optimizer_offsets) == (if saw_co(qs) {
        Some(co_offsets_of(qs))
    } else {
        None
    })
    &&& opt_text(s.agesa_version) == first_value(qs, |q: HiiQuestion| agesa_candidate(q))
    &&& raw_view(s.raw_settings@) == raw_of(qs)
}

proof fn lemma_first_value_push(qs: Seq<HiiQuestion>, q: HiiQuestion, f: spec_fn(HiiQuestion) -> Option<Seq<char>>)
    ensures
        first_value(qs.push(q), f) == (match first_value(qs, f) {
            Some(v) => Some(v),
            None => f(q),
        }),
{
    assert(qs.push(q).drop_last() =~= qs);
}

/// Sets `slot` to `value` when it is still empty.
fn fill(slot: &mut Option<String>, value: Option<String>)
    ensures
        opt_text(*final(slot)) == (match opt_text(*old(slot)) {
            Some(v) => Some(v),
            None => opt_text(value),
        }),
{
    if slot.is_none() {
        *slot = value;
    }
}

/// Interprets the firmware's questions as AMD overclocking settings.
pub fn parse_hii_questions(questions: &[HiiQuestion]) -> (s: UefiSettings)
    ensures
        settings_of_questions(questions@, s),
{
    let mut pbo_status: Option<String> = None;
    let mut ppt_limit: Option<String> = None;
    let mut tdc_limit: Option<String> = None;
    let mut edc_limit: Option<String> = None;
    let mut co_offsets: BTreeMap<u32, i32> = BTreeMap::new();
    let mut saw_co_setting = false;
    let mut agesa_version: Option<String> = None;
    let mut pbo_limits_mode: Option<String> = None;
    let mut raw_settings: Vec<(String, String)> = Vec::new();
    let ghost qs = questions@;
    let mut i: usize = 0;
    proof {
        assert(qs.take(0) =~= Seq::<HiiQuestion>::empty());
        assert(raw_view(raw_settings@) =~= Seq::<(Seq<char>, Seq<char>)>::empty());
        assert(co_offsets@ =~= Map::<u32, i32>::empty());
    }
    while i < questions.len()
        invariant
            i <= questions.len(),
            qs == questions@,
            opt_text(pbo_status) == first_value(qs.take(i as int), |q: HiiQuestion| pbo_candidate(q)),
            opt_text(ppt_limit) == first_value(qs.take(i as int), |q: HiiQuestion| ppt_candidate(q)),
            opt_text(tdc_limit) == first_value(qs.take(i as int), |q: HiiQuestion| tdc_candidate(q)),
            opt_text(edc_limit) == first_value(qs.take(i as int), |q: HiiQuestion| edc_candidate(q)),
            opt_text(pbo_limits_mode) == first_value(qs.take(i as int), |q: HiiQuestion| limits_mode_candidate(q)),
            opt_text(agesa_version) == first_value(qs.take(i as int), |q: HiiQuestion| agesa_candidate(q)),
            co_offsets@ == co_offsets_of(qs.take(i as int)),
            saw_co_setting == saw_co(qs.take(i as int)),
            !saw_co_setting ==> co_offsets@ == Map::<u32, i32>::empty(),
            raw_view(raw_settings@) == raw_of(qs.take(i as int)),
        decreases questions.len() - i,
    {
        let q = &questions[i];
        let ghost pre = qs.take(i as int);
        proof {
            assert(qs.take(i + 1) =~= pre.push(*q));
            assert(qs.take(i + 1).drop_last() =~= pre);
            lemma_first_value_push(pre, *q, |q: HiiQuestion| pbo_candidate(q));
            lemma_first_value_push(pre, *q, |q: HiiQuestion| ppt_candidate(q));
            lemma_first_value_push(pre, *q, |q: HiiQuestion| tdc_candidate(q));
            lemma_first_value_push(pre, *q, |q: HiiQuestion| edc_candidate(q));
            lemma_first_value_push(pre, *q, |q: HiiQuestion| limits_mode_candidate(q));
            lemma_first_value_push(pre, *q, |q: HiiQuestion| agesa_candidate(q));
        }
        let name = text::chars_of(q.name.as_str());
        let help = text::chars_of(q.help.as_str());
        let answer = text::chars_of(q.answer.as_str());
        if !matches_any_amd(&name, &help) {
            proof {
                assert(!is_co_question(*q));
                assert forall|k: int| 0 <= k < i + 1 && is_co_question(#[trigger] qs.take(i + 1)[k]) implies is_co_question(pre[k]) by {
                    if k < i {
                        assert(qs.take(i + 1)[k] == pre[k]);
                    }
                }
                assert forall|k: int| 0 <= k < i && is_co_question(#[trigger] pre[k]) implies is_co_question(qs.take(i + 1)[k]) by {
                    assert(qs.take(i + 1)[k] == pre[k]);
                }
            }
            i += 1;
            continue;
        }
        let ghost raw_before = raw_settings@;
        raw_settings.push((q.name.clone(), q.answer.clone()));
        proof {
            assert(raw_view(raw_settings@) =~= raw_view(raw_before).push((name@, answer@)));
        }
        // PBO status
        let pbo = matches_pbo(&name, &help);
        if pbo_status.is_none() && pbo {
            let name_lower = text::to_lowercase(&name);
            let is_pbo_main = text::contains_str(&name_lower, "precision boost") || text::contains_str(&name_lower, "pbo")
                || text::contains_str(&name_lower, "core performance boost") || text::contains_str(&name_lower, "cpb");
            let is_co = matches_co(&name, &help) && core_id_of_chars(&name).is_some();
            if is_pbo_main && !is_co {
                let v = non_empty_value(&answer);
                fill(&mut pbo_status, v);
            }
        }
        // Power limits
        if matches_limits(&name, &help) {
            let name_lower = text::to_lowercase(&name);
            if text::contains_str(&name_lower, "pbo limits") {
                fill(&mut pbo_limits_mode, non_empty_value(&answer));
            }
            if text::contains_str(&name_lower, "ppt") {
                fill(&mut ppt_limit, non_empty_value(&answer));
            }
            if text::contains_str(&name_lower, "tdc") {
                fill(&mut tdc_limit, non_empty_value(&answer));
            }
            if text::contains_str(&name_lower, "edc") {
                fill(&mut edc_limit, non_empty_value(&answer));
            }
        }
        // Curve Optimizer
        let ghost co_before = co_offsets@;
        if matches_co(&name, &help) {
            saw_co_setting = true;
            match core_id_of_chars(&name) {
                Some(core_id) => {
                    let trimmed = text::trim_chars(&answer);
                    match text::parse_i32(&trimmed) {
                        Some(offset) => {
                            co_offsets.insert(core_id, offset);
                        },
                        None => {},
                    }
                },
                None => {},
            }
            proof {
                assert(is_co_question(*q));
                assert(qs.take(i + 1)[i as int] == *q);
            }
        } else {
            proof {
                assert(!is_co_question(*q));
                assert forall|k: int| 0 <= k < i + 1 && is_co_question(#[trigger] qs.take(i + 1)[k]) implies is_co_question(pre[k]) by {
                    if k < i {
                        assert(qs.take(i + 1)[k] == pre[k]);
                    }
                }
            }
        }
        proof {
            assert forall|k: int| 0 <= k < i && is_co_question(#[trigger] pre[k]) implies is_co_question(qs.take(i + 1)[k]) by {
                assert(qs.take(i + 1)[k] == pre[k]);
            }
        }
        // AGESA version
        if agesa_version.is_none() && matches_agesa(&name, &help) {
            let v = match non_empty_non_auto_value(&answer) {
                Some(v) => Some(v),
                None => match extract_agesa_from_text(&name) {
                    Some(v) => Some(v),
                    None => extract_agesa_from_text(&help),
                },
            };
            fill(&mut agesa_version, v);
        }
        i += 1;
    }
    proof {
        assert(qs.take(i as int) =~= qs);
    }
    let has_limits = ppt_limit.is_some() || tdc_limit.is_some() || edc_limit.is_some();
    let pbo_limits = if has_limits {
        Some(PboLimits { ppt_limit, tdc_limit, edc_limit })
    } else {
        match pbo_limits_mode {
            Some(mode) => Some(PboLimits { ppt_limit: Some(mode), tdc_limit: None, edc_limit: None }),
            None => None,
        }
    };
    let co_map = if saw_co_setting || co_offsets.len() > 0 {
        Some(co_offsets)
    } else {
        None
    };
    let available = raw_settings.len() > 0;
    UefiSettings {
        available,
        unavailable_reason: None,
        pbo_status,
        pbo_limits,
        curve_optimizer_offsets: co_map,
        agesa_version,
        raw_settings,
    }
}


/// Per-core offsets read from the AOD setup variable replace those of the
/// questions; without them the settings stay as they are.
pub fn merge_aod_co_into_settings(settings: &mut UefiSettings, aod_co: Option<BTreeMap<u32, i32>>)
    ensures
        match aod_co {
            Some(m) => *final(settings) == (UefiSettings { curve_optimizer_offsets: Some(m), ..*old(settings) }),
            None => *final(settings) == *old(settings),
        },
{
    match aod_co {
        Some(map) => {
            settings.curve_optimizer_offsets = Some(map);
        },
        None => {},
    }
}

/// The settings described by an HII database: its questions, interpreted.
pub fn settings_from_hii_db(hii_db: &[u8]) -> (r: Result<UefiSettings, IfrParseError>)
    requires
        hii_db.len() + 0x0100_0000 <= usize::MAX,
    ensures
        match r {
            Ok(s) => hii_db.len() >= 4 && exists|qs: Seq<HiiQuestion>|
                ifr_parser::questions_view(qs) == ifr_parser::ifr_questions(hii_db@) && settings_of_questions(qs, s),
            Err(e) => hii_db.len() < 4 && e.db_len == hii_db.len(),
        },
{
    let questions = match parse_ifr_to_questions(hii_db) {
        Ok(q) => q,
        Err(e) => return Err(e),
    };
    let s = parse_hii_questions(questions.as_slice());
    assert(ifr_parser::questions_view(questions@) == ifr_parser::ifr_questions(hii_db@) && settings_of_questions(questions@, s));
    Ok(s)
}

} // verus!
