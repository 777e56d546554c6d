//! mprime's configuration (prime.txt): stress mode, FFT sizes and the
//! torture-test settings tuned for per-core instability detection.
use crate::text;
use vstd::prelude::*;

verus! {

/// Which instruction sets the stress test uses: SSE draws least power and
/// boosts highest, which makes instability easiest to catch.
#[derive(Debug, Clone, Copy, PartialEq, Eq, Structural)]
pub enum StressTestMode {
    SSE,
    AVX,
    AVX2,
    AVX512,
    Custom { sse: bool, sse2: bool, avx: bool, avx2: bool, fma3: bool, avx512f: bool },
}

impl StressTestMode {
    pub open spec fn label_spec(&self) -> Seq<char> {
        match *self {
            StressTestMode::SSE => "SSE"@,
            StressTestMode::AVX => "AVX"@,
            StressTestMode::AVX2 => "AVX2"@,
            StressTestMode::AVX512 => "AVX512"@,
            StressTestMode::Custom { .. } => "Custom"@,
        }
    }

    /// The mode's name as shown to the user.
    pub fn label(&self) -> (s: String)
        ensures
            s@ == self.label_spec(),
    {
        match self {
            StressTestMode::SSE => "SSE".to_owned(),
            StressTestMode::AVX => "AVX".to_owned(),
            StressTestMode::AVX2 => "AVX2".to_owned(),
            StressTestMode::AVX512 => "AVX512".to_owned(),
            StressTestMode::Custom { .. } => "Custom".to_owned(),
        }
    }
}

impl Default for StressTestMode {
    fn default() -> (m: StressTestMode)
        ensures
            m == StressTestMode::SSE,
    {
        StressTestMode::SSE
    }
}

/// FFT size presets: which part of the cache/memory hierarchy is stressed.
#[derive(Debug, Clone, Copy, PartialEq, Eq, Structural)]
pub enum FftPreset {
    Smallest,
    Small,
    Large,
    Huge,
    Moderate,
    Heavy,
    HeavyShort,
}

impl Default for FftPreset {
    fn default() -> (p: FftPreset)
        ensures
            p == FftPreset::Huge,
    {
        FftPreset::Huge
    }
}

/// The (min, max) FFT sizes of a preset, in K.
pub open spec fn fft_range_spec(p: FftPreset) -> (u32, u32) {
    match p {
        FftPreset::Smallest => (4, 21),
        FftPreset::Small => (36, 248),
        FftPreset::Large => (426, 8192),
        FftPreset::Huge => (8960, 32768),
        FftPreset::Moderate => (1344, 4096),
        FftPreset::Heavy => (4, 1344),
        FftPreset::HeavyShort => (4, 160),
    }
}

pub open spec fn preset_name_spec(p: FftPreset) -> Seq<char> {
    match p {
        FftPreset::Smallest => "Smallest"@,
        FftPreset::Small => "Small"@,
        FftPreset::Large => "Large"@,
        FftPreset::Huge => "Huge"@,
        FftPreset::Moderate => "Moderate"@,
        FftPreset::Heavy => "Heavy"@,
        FftPreset::HeavyShort => "HeavyShort"@,
    }
}

/// The presets in their canonical order.
pub open spec fn all_presets_spec() -> Seq<FftPreset> {
    seq![
        FftPreset::Smallest,
        FftPreset::Small,
        FftPreset::Large,
        FftPreset::Huge,
        FftPreset::Moderate,
        FftPreset::Heavy,
        FftPreset::HeavyShort,
    ]
}

impl FftPreset {
    /// The (min, max) FFT sizes in K.
    pub fn fft_range_kb(self) -> (r: (u32, u32))
        ensures
            r == fft_range_spec(self),
    {
        match self {
            FftPreset::Smallest => (4, 21),
            FftPreset::Small => (36, 248),
            FftPreset::Large => (426, 8192),
            FftPreset::Huge => (8960, 32768),
            FftPreset::Moderate => (1344, 4096),
            FftPreset::Heavy => (4, 1344),
            FftPreset::HeavyShort => (4, 160),
        }
    }

    /// The preset's name.
    pub fn name(&self) -> (s: &'static str)
        ensures
            s@ == preset_name_spec(*self),
    {
        match self {
            FftPreset::Smallest => "Smallest",
            FftPreset::Small => "Small",
            FftPreset::Large => "Large",
            FftPreset::Huge => "Huge",
            FftPreset::Moderate => "Moderate",
            FftPreset::Heavy => "Heavy",
            FftPreset::HeavyShort => "HeavyShort",
        }
    }

    /// All seven presets, in order.
    pub fn all_presets() -> (v: Vec<FftPreset>)
        ensures
            v@ == all_presets_spec(),
    {
        let v = vec![
            FftPreset::Smallest,
            FftPreset::Small,
            FftPreset::Large,
            FftPreset::Huge,
            FftPreset::Moderate,
            FftPreset::Heavy,
            FftPreset::HeavyShort,
        ];
        assert(v@ =~= all_presets_spec());
        v
    }

    pub open spec fn label_spec(&self) -> Seq<char> {
        let (min, max) = fft_range_spec(*self);
        preset_name_spec(*self) + " ("@ + text::decimal(min as nat) + "K-"@ + text::decimal(max as nat) + "K)"@
    }

    /// "Name (minK-maxK)".
    pub fn label(&self) -> (s: String)
        ensures
            s@ == self.label_spec(),
    {
        let (min, max) = self.fft_range_kb();
        let mut v = text::lit(self.name());
        text::push_str(&mut v, " (");
        text::push_u64(&mut v, min as u64);
        text::push_str(&mut v, "K-");
        text::push_u64(&mut v, max as u64);
        text::push_str(&mut v, "K)");
        text::string_from_chars(&v)
    }
}

/// Every preset's range is valid: at least 4K, and min below max.
pub proof fn lemma_preset_ranges_valid(p: FftPreset)
    ensures
        4 <= fft_range_spec(p).0 < fft_range_spec(p).1,
{
}

// ---------------------------------------------------------------------------
// GUIDs
// ---------------------------------------------------------------------------

/// `uuid::Uuid`, a 128-bit UUID.
#[verifier::external_type_specification]
#[verifier::external_body]
pub struct ExUuid(uuid::Uuid);

/// `Uuid::new_v4`: a random UUID; nothing is claimed of its value.
#[verifier::external_body]
fn new_v4_uuid() -> uuid::Uuid {
    uuid::Uuid::new_v4()
}

/// A lower-case hexadecimal digit.
pub open spec fn is_lower_hex(c: char) -> bool {
    ('0' <= c && c <= '9') || ('a' <= c && c <= 'f')
}

/// `Uuid::simple` rendered with `Display`: claimed to be the 32 lower-case
/// hexadecimal digits of the UUID (no hyphens), as the crate's formatter
/// writes them; which digits is not stated.
#[verifier::external_body]
fn uuid_simple_text(u: &uuid::Uuid) -> (s: String)
    ensures
        s@.len() == 32,
        forall|i: int| 0 <= i < 32 ==> is_lower_hex(#[trigger] s@[i]),
{
    u.simple().to_string()
}

// ---------------------------------------------------------------------------
// The configuration
// ---------------------------------------------------------------------------

/// mprime's settings for one core's torture test.
#[derive(Debug, Clone, PartialEq, Eq)]
pub struct MprimeConfig {
    mode: StressTestMode,
    fft_preset: FftPreset,
    torture_time: u32,
    memory: u32,
    threads: u32,
    error_check: bool,
    use_primenet: bool,
    computer_guid: String,
    disable_internal_affinity: bool,
}

/// The settings as plain values.
pub struct MprimeConfigView {
    pub mode: StressTestMode,
    pub fft_preset: FftPreset,
    pub torture_time: u32,
    pub memory: u32,
    pub threads: u32,
    pub error_check: bool,
    pub use_primenet: bool,
    pub computer_guid: Seq<char>,
    pub disable_internal_affinity: bool,
}

impl MprimeConfig {
    pub closed spec fn view(&self) -> MprimeConfigView {
        MprimeConfigView {
            mode: self.mode,
            fft_preset: self.fft_preset,
            torture_time: self.torture_time,
            memory: self.memory,
            threads: self.threads,
            error_check: self.error_check,
            use_primenet: self.use_primenet,
            computer_guid: self.computer_guid@,
            disable_internal_affinity: self.disable_internal_affinity,
        }
    }
}

/// A GUID as mprime wants it: 32 lower-case hexadecimal digits.
pub open spec fn guid_ok(g: Seq<char>) -> bool {
    g.len() == 32 && forall|i: int| 0 <= i < 32 ==> is_lower_hex(#[trigger] g[i])
}

/// The defaults: SSE, Huge FFTs, 3 minutes per size, in-place FFTs, one
/// thread, error checking on, Primenet off, mprime's own affinity kept.
pub open spec fn is_default_config(c: MprimeConfigView) -> bool {
    &&& c.mode == StressTestMode::SSE
    &&& c.fft_preset == FftPreset::Huge
    &&& c.torture_time == 3
    &&& c.memory == 0
    &&& c.threads == 1
    &&& c.error_check
    &&& !c.use_primenet
    &&& !c.disable_internal_affinity
    &&& guid_ok(c.computer_guid)
}

impl Default for MprimeConfig {
    fn default() -> (c: MprimeConfig)
        ensures
            is_default_config(c@),
    {
        let u = new_v4_uuid();
        MprimeConfig {
            mode: StressTestMode::SSE,
            fft_preset: FftPreset::Huge,
            torture_time: 3,
            memory: 0,
            threads: 1,
            error_check: true,
            use_primenet: false,
            disable_internal_affinity: false,
            computer_guid: uuid_simple_text(&u),
        }
    }
}

/// The CPU feature flags a mode enables: SSE, SSE2, AVX, AVX2, FMA3,
/// AVX512F.
pub open spec fn feature_flags(m: StressTestMode) -> (bool, bool, bool, bool, bool, bool) {
    match m {
        StressTestMode::SSE => (true, true, false, false, false, false),
        StressTestMode::AVX => (true, true, true, false, true, false),
        StressTestMode::AVX2 => (true, true, true, true, true, false),
        StressTestMode::AVX512 => (true, true, true, true, true, true),
        StressTestMode::Custom { sse, sse2, avx, avx2, fma3, avx512f } => (sse, sse2, avx, avx2, fma3, avx512f),
    }
}

pub open spec fn flag(b: bool) -> Seq<char> {
    if b {
        "1"@
    } else {
        "0"@
    }
}

/// One `Key=value` line.
pub open spec fn kv_line(key: Seq<char>, value: Seq<char>) -> Seq<char> {
    key + "="@ + value + "\n"@
}

/// The start of prime.txt: the fixed header, the affinity lines when
/// asked for, the FFT range, memory and time.
pub open spec fn config_head(c: MprimeConfigView) -> Seq<char> {
    let (min_fft, max_fft) = fft_range_spec(c.fft_preset);
    kv_line("V30OptionsConverted"@, "1"@) + kv_line("StressTester"@, "1"@) + kv_line("UsePrimenet"@, "0"@) + (if c.disable_internal_affinity {
        kv_line("EnableSetAffinity"@, "0"@) + kv_line("NumCores"@, "1"@)
    } else {
        seq![]
    }) + kv_line("MinTortureFFT"@, text::decimal(min_fft as nat)) + kv_line("MaxTortureFFT"@, text::decimal(max_fft as nat))
        + kv_line("TortureMem"@, text::decimal(c.memory as nat)) + kv_line("TortureTime"@, text::decimal(c.torture_time as nat))
}

/// The CPU feature flags of prime.txt.
pub open spec fn config_flags(c: MprimeConfigView) -> Seq<char> {
    flags_text(feature_flags(c.mode))
}

/// The lines of the SSE, SSE2, AVX, AVX2, FMA3 and AVX512F flags.
pub open spec fn flags_text(f: (bool, bool, bool, bool, bool, bool)) -> Seq<char> {
    kv_line("CpuSupportsSSE"@, flag(f.0)) + kv_line("CpuSupportsSSE2"@, flag(f.1)) + kv_line("CpuSupportsAVX"@, flag(f.2))
        + kv_line("CpuSupportsAVX2"@, flag(f.3)) + kv_line("CpuSupportsFMA3"@, flag(f.4)) + kv_line(
        "CpuSupportsAVX512F"@,
        flag(f.5),
    )
}

/// The end of prime.txt: error checking, the fixed worker settings, the
/// GUID, the thread count and the results file.
pub open spec fn config_tail(c: MprimeConfigView) -> Seq<char> {
    kv_line("ErrorCheck"@, flag(c.error_check)) + kv_line("TortureHyperthreading"@, "0"@) + kv_line("NumWorkers"@, "1"@)
        + kv_line("CoresPerTest"@, "1"@) + kv_line("TortureWeak"@, "0"@) + kv_line("WorkPreference"@, "0"@) + kv_line(
        "ComputerGUID"@,
        c.computer_guid,
    ) + kv_line("TortureThreads"@, text::decimal(c.threads as nat)) + kv_line("ResultsFile"@, "results.txt"@)
}

/// The text of prime.txt for a configuration.
pub open spec fn config_text(c: MprimeConfigView) -> Seq<char> {
    config_head(c) + config_flags(c) + config_tail(c)
}

fn feature_flags_of(m: StressTestMode) -> (r: (bool, bool, bool, bool, bool, bool))
    ensures
        r == feature_flags(m),
{
    match m {
        StressTestMode::SSE => (true, true, false, false, false, false),
        StressTestMode::AVX => (true, true, true, false, true, false),
        StressTestMode::AVX2 => (true, true, true, true, true, false),
        StressTestMode::AVX512 => (true, true, true, true, true, true),
        StressTestMode::Custom { sse, sse2, avx, avx2, fma3, avx512f } => (sse, sse2, avx, avx2, fma3, avx512f),
    }
}

#[verifier::spinoff_prover]
#[verifier::rlimit(40)]
fn push_flags_text(v: &mut Vec<char>, f: (bool, bool, bool, bool, bool, bool))
    ensures
        final(v)@ == old(v)@ + flags_text(f),
{
    let ghost l0 = kv_line("CpuSupportsSSE"@, flag(f.0));
    let ghost l1 = kv_line("CpuSupportsSSE2"@, flag(f.1));
    let ghost l2 = kv_line("CpuSupportsAVX"@, flag(f.2));
    let ghost l3 = kv_line("CpuSupportsAVX2"@, flag(f.3));
    let ghost l4 = kv_line("CpuSupportsFMA3"@, flag(f.4));
    let ghost l5 = kv_line("CpuSupportsAVX512F"@, flag(f.5));
    let ghost s0 = v@;
    push_flag(v, "CpuSupportsSSE", f.0);
    push_flag(v, "CpuSupportsSSE2", f.1);
    assert(v@ =~= s0 + (l0 + l1));
    push_flag(v, "CpuSupportsAVX", f.2);
    push_flag(v, "CpuSupportsAVX2", f.3);
    assert(v@ =~= s0 + (l0 + l1 + l2 + l3));
    push_flag(v, "CpuSupportsFMA3", f.4);
    push_flag(v, "CpuSupportsAVX512F", f.5);
    assert(v@ =~= s0 + (l0 + l1 + l2 + l3 + l4 + l5));
}

fn push_line(v: &mut Vec<char>, key: &str, value: &[char])
    ensures
        final(v)@ == old(v)@ + kv_line(key@, value@),
{
    text::push_str(v, key);
    text::push_str(v, "=");
    text::push_chars(v, value);
    text::push_str(v, "\n");
    assert(final(v)@ =~= old(v)@ + kv_line(key@, value@));
}

fn push_flag(v: &mut Vec<char>, key: &str, b: bool)
    ensures
        final(v)@ == old(v)@ + kv_line(key@, flag(b)),
{
    let f = if b {
        text::lit("1")
    } else {
        text::lit("0")
    };
    push_line(v, key, &f);
}

fn push_number(v: &mut Vec<char>, key: &str, n: u32)
    ensures
        final(v)@ == old(v)@ + kv_line(key@, text::decimal(n as nat)),
{
    let d = text::u64_decimal(n as u64);
    push_line(v, key, &d);
}

/// What `generate` can fail with (it never does).
#[derive(Debug, Clone, PartialEq, Eq)]
pub struct ConfigError;

impl MprimeConfig {
    /// A configuration with the default settings and a fresh GUID.
    pub fn builder() -> (c: MprimeConfig)
        ensures
            is_default_config(c@),
    {
        MprimeConfig::default()
    }

    /// Sets the stress mode.
    pub fn mode(self, mode: StressTestMode) -> (c: MprimeConfig)
        ensures
            c@ == (MprimeConfigView { mode, ..self@ }),
    {
        MprimeConfig { mode, ..self }
    }

    /// Sets the FFT preset.
    pub fn fft_preset(self, preset: FftPreset) -> (c: MprimeConfig)
        ensures
            c@ == (MprimeConfigView { fft_preset: preset, ..self@ }),
    {
        MprimeConfig { fft_preset: preset, ..self }
    }

    /// Sets the minutes per FFT size.
    pub fn torture_time(self, minutes: u32) -> (c: MprimeConfig)
        ensures
            c@ == (MprimeConfigView { torture_time: minutes, ..self@ }),
    {
        MprimeConfig { torture_time: minutes, ..self }
    }

    /// Sets the memory in MB (0: in-place FFTs).
    pub fn memory(self, mb: u32) -> (c: MprimeConfig)
        ensures
            c@ == (MprimeConfigView { memory: mb, ..self@ }),
    {
        MprimeConfig { memory: mb, ..self }
    }

    /// Sets the number of threads.
    pub fn threads(self, count: u32) -> (c: MprimeConfig)
        ensures
            c@ == (MprimeConfigView { threads: count, ..self@ }),
    {
        MprimeConfig { threads: count, ..self }
    }

    /// Turns error checking on or off.
    pub fn error_check(self, enable: bool) -> (c: MprimeConfig)
        ensures
            c@ == (MprimeConfigView { error_check: enable, ..self@ }),
    {
        MprimeConfig { error_check: enable, ..self }
    }

    /// Leaves CPU affinity to the operating system: mprime gets
    /// `EnableSetAffinity=0` and `NumCores=1`.
    pub fn disable_internal_affinity(self) -> (c: MprimeConfig)
        ensures
            c@ == (MprimeConfigView { disable_internal_affinity: true, ..self@ }),
    {
        MprimeConfig { disable_internal_affinity: true, ..self }
    }

    fn push_head(&self, v: &mut Vec<char>)
        ensures
            final(v)@ == old(v)@ + config_head(self@),
    {
        let (min_fft, max_fft) = self.fft_preset.fft_range_kb();
        let one = text::lit("1");
        let zero = text::lit("0");
        push_line(v, "V30OptionsConverted", &one);
        push_line(v, "StressTester", &one);
        push_line(v, "UsePrimenet", &zero);
        if self.disable_internal_affinity {
            push_line(v, "EnableSetAffinity", &zero);
            push_line(v, "NumCores", &one);
        }
        push_number(v, "MinTortureFFT", min_fft);
        push_number(v, "MaxTortureFFT", max_fft);
        push_number(v, "TortureMem", self.memory);
        push_number(v, "TortureTime", self.torture_time);
        assert(final(v)@ =~= old(v)@ + config_head(self@));
    }

    fn push_flags(&self, v: &mut Vec<char>)
        ensures
            final(v)@ == old(v)@ + config_flags(self@),
    {
        let f = feature_flags_of(self.mode);
        push_flags_text(v, f);
    }

    fn push_tail(&self, v: &mut Vec<char>)
        ensures
            final(v)@ == old(v)@ + config_tail(self@),
    {
        let one = text::lit("1");
        let zero = text::lit("0");
        push_flag(v, "ErrorCheck", self.error_check);
        push_line(v, "TortureHyperthreading", &zero);
        push_line(v, "NumWorkers", &one);
        push_line(v, "CoresPerTest", &one);
        push_line(v, "TortureWeak", &zero);
        push_line(v, "WorkPreference", &zero);
        let guid = text::chars_of(self.computer_guid.as_str());
        push_line(v, "ComputerGUID", &guid);
        push_number(v, "TortureThreads", self.threads);
        let results = text::lit("results.txt");
        push_line(v, "ResultsFile", &results);
        assert(final(v)@ =~= old(v)@ + config_tail(self@));
    }

    /// The text of prime.txt.
    pub fn generate(&self) -> (r: Result<String, ConfigError>)
        ensures
            r matches Ok(s) && s@ == config_text(self@),
    {
        let mut v: Vec<char> = Vec::new();
        self.push_head(&mut v);
        self.push_flags(&mut v);
        self.push_tail(&mut v);
        assert(v@ =~= config_text(self@));
        Ok(text::string_from_chars(&v))
    }
}

/// The generated text always holds the preset's FFT range, the mode's
/// feature flags, the error-check setting and the fixed torture-test lines,
/// and the affinity lines when mprime's own affinity is disabled.
pub proof fn lemma_config_lines(c: MprimeConfigView)
    ensures
        text::contains(config_text(c), kv_line("MinTortureFFT"@, text::decimal(fft_range_spec(c.fft_preset).0 as nat))),
        text::contains(config_text(c), kv_line("MaxTortureFFT"@, text::decimal(fft_range_spec(c.fft_preset).1 as nat))),
        text::contains(config_text(c), kv_line("CpuSupportsSSE"@, flag(feature_flags(c.mode).0))),
        text::contains(config_text(c), kv_line("CpuSupportsAVX"@, flag(feature_flags(c.mode).2))),
        text::contains(config_text(c), kv_line("CpuSupportsAVX2"@, flag(feature_flags(c.mode).3))),
        text::contains(config_text(c), kv_line("CpuSupportsAVX512F"@, flag(feature_flags(c.mode).5))),
        text::contains(config_text(c), kv_line("ErrorCheck"@, flag(c.error_check))),
        text::contains(config_text(c), kv_line("UsePrimenet"@, "0"@)),
        text::contains(config_text(c), kv_line("ComputerGUID"@, c.computer_guid)),
        text::contains(config_text(c), kv_line("TortureThreads"@, text::decimal(c.threads as nat))),
        text::contains(config_text(c), kv_line("ResultsFile"@, "results.txt"@)),
        c.disable_internal_affinity ==> text::contains(config_text(c), kv_line("EnableSetAffinity"@, "0"@)),
        c.disable_internal_affinity ==> text::contains(config_text(c), kv_line("NumCores"@, "1"@)),
{
    broadcast use text::lemma_contains_append_left, text::lemma_contains_append_right;
    let (min_fft, max_fft) = fft_range_spec(c.fft_preset);
    let (sse, sse2, avx, avx2, fma3, avx512f) = feature_flags(c.mode);
    text::lemma_contains_self(kv_line("MinTortureFFT"@, text::decimal(min_fft as nat)));
    text::lemma_contains_self(kv_line("MaxTortureFFT"@, text::decimal(max_fft as nat)));
    text::lemma_contains_self(kv_line("CpuSupportsSSE"@, flag(sse)));
    text::lemma_contains_self(kv_line("CpuSupportsAVX"@, flag(avx)));
    text::lemma_contains_self(kv_line("CpuSupportsAVX2"@, flag(avx2)));
    text::lemma_contains_self(kv_line("CpuSupportsAVX512F"@, flag(avx512f)));
    text::lemma_contains_self(kv_line("ErrorCheck"@, flag(c.error_check)));
    text::lemma_contains_self(kv_line("UsePrimenet"@, "0"@));
    text::lemma_contains_self(kv_line("ComputerGUID"@, c.computer_guid));
    text::lemma_contains_self(kv_line("TortureThreads"@, text::decimal(c.threads as nat)));
    text::lemma_contains_self(kv_line("ResultsFile"@, "results.txt"@));
    text::lemma_contains_self(kv_line("EnableSetAffinity"@, "0"@));
    text::lemma_contains_self(kv_line("NumCores"@, "1"@));
    if c.disable_internal_affinity {
        assert(text::contains(kv_line("EnableSetAffinity"@, "0"@) + kv_line("NumCores"@, "1"@), kv_line("EnableSetAffinity"@, "0"@)));
        assert(text::contains(kv_line("EnableSetAffinity"@, "0"@) + kv_line("NumCores"@, "1"@), kv_line("NumCores"@, "1"@)));
    }
}

} // verus!
