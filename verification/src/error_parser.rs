//! Recognition of mprime's error lines (results.txt and stdout), with
//! incremental reading of the results file.
use crate::pattern;
use crate::text;
use vstd::prelude::*;

verus! {

/// The kinds of error that mprime reports.
#[derive(Debug, Clone, Copy, PartialEq, Eq, Structural)]
pub enum MprimeErrorType {
    /// ROUND OFF > 0.40: numerical instability.
    RoundoffError,
    /// Hardware failure detected running an FFT size.
    HardwareFailure,
    /// FATAL ERROR.
    FatalError,
    /// Possible hardware failure.
    PossibleHardwareFailure,
    /// ILLEGAL SUMOUT: checksum verification failed.
    IllegalSumout,
    /// SUM(INPUTS) != SUM(OUTPUTS): data corruption.
    SumMismatch,
    /// TORTURE TEST FAILED on a worker.
    TortureTestFailed,
    /// A torture test summary that counts errors.
    TortureTestSummaryError,
    /// Any other failure.
    Unknown,
}

/// An error found in mprime's output.
#[derive(Debug, Clone, PartialEq, Eq)]
pub struct MprimeError {
    pub error_type: MprimeErrorType,
    /// The whole line.
    pub message: String,
    /// FFT size in K, where the line names one.
    pub fft_size: Option<u32>,
    /// The bracketed timestamp of the line, if any.
    pub timestamp: Option<String>,
}

pub open spec fn error_view(e: MprimeError) -> (MprimeErrorType, Seq<char>, Option<u32>, Option<Seq<char>>) {
    (e.error_type, e.message@, e.fft_size, pattern::opt_chars(e.timestamp))
}

pub open spec fn errors_view(v: Seq<MprimeError>) -> Seq<(MprimeErrorType, Seq<char>, Option<u32>, Option<Seq<char>>)> {
    v.map_values(|e: MprimeError| error_view(e))
}

/// The patterns, tried in this order.
pub open spec fn roundoff_re() -> Seq<char> {
    r"(?i)ROUND\s*OFF\s*>\s*0\.4|Rounding was .*, expected less than 0\.4"@
}

pub open spec fn hardware_re() -> Seq<char> {
    r"(?i)Hardware failure detected running (\d+)K FFT"@
}

pub open spec fn fatal_re() -> Seq<char> {
    r"(?i)FATAL ERROR"@
}

pub open spec fn possible_re() -> Seq<char> {
    r"(?i)Possible hardware failure"@
}

pub open spec fn sumout_re() -> Seq<char> {
    r"(?i)ILLEGAL SUMOUT"@
}

pub open spec fn mismatch_re() -> Seq<char> {
    r"(?i)SUM\(INPUTS\)\s*!=\s*SUM\(OUTPUTS\)"@
}

pub open spec fn torture_failed_re() -> Seq<char> {
    r"(?i)TORTURE TEST FAILED"@
}

pub open spec fn summary_re() -> Seq<char> {
    r"(?i)Torture Test completed \d+ tests? in \d+ minutes? - (\d+) errors?"@
}

pub open spec fn self_test_re() -> Seq<char> {
    r"(?i)Self-test (\d+)K passed"@
}

/// The bracketed timestamp of a line.
pub open spec fn timestamp_of(line: Seq<char>) -> Option<Seq<char>> {
    pattern::regex_group(r"\[([^\]]+)\]"@, line, 1)
}

/// A captured group read as a `u32`.
pub open spec fn group_u32(g: Option<Seq<char>>) -> Option<u32> {
    match g {
        Some(d) => text::parse_u32_spec(d),
        None => None,
    }
}

/// The kind (and FFT size) of the error a line reports: the first pattern
/// that matches decides; a torture summary counts only with a non-zero
/// error count.
pub open spec fn classify_line(line: Seq<char>) -> Option<(MprimeErrorType, Option<u32>)> {
    if pattern::regex_found(roundoff_re(), line) {
        Some((MprimeErrorType::RoundoffError, None))
    } else if pattern::regex_found(hardware_re(), line) {
        Some((MprimeErrorType::HardwareFailure, group_u32(pattern::regex_group(hardware_re(), line, 1))))
    } else if pattern::regex_found(fatal_re(), line) {
        Some((MprimeErrorType::FatalError, None))
    } else if pattern::regex_found(possible_re(), line) {
        Some((MprimeErrorType::PossibleHardwareFailure, None))
    } else if pattern::regex_found(sumout_re(), line) {
        Some((MprimeErrorType::IllegalSumout, None))
    } else if pattern::regex_found(mismatch_re(), line) {
        Some((MprimeErrorType::SumMismatch, None))
    } else if pattern::regex_found(torture_failed_re(), line) {
        Some((MprimeErrorType::TortureTestFailed, None))
    } else {
        match group_u32(pattern::regex_group(summary_re(), line, 1)) {
            Some(n) => if n != 0 {
                Some((MprimeErrorType::TortureTestSummaryError, None))
            } else {
                None
            },
            None => None,
        }
    }
}

/// The error a line reports, if any.
pub open spec fn line_error(line: Seq<char>) -> Option<(MprimeErrorType, Seq<char>, Option<u32>, Option<Seq<char>>)> {
    match classify_line(line) {
        Some((kind, fft)) => Some((kind, line, fft, timestamp_of(line))),
        None => None,
    }
}

/// The errors of the lines, in order.
pub open spec fn errors_of_lines(ls: Seq<Seq<char>>) -> Seq<(MprimeErrorType, Seq<char>, Option<u32>, Option<Seq<char>>)>
    decreases ls.len(),
{
    if ls.len() == 0 {
        seq![]
    } else {
        match line_error(ls.last()) {
            Some(e) => errors_of_lines(ls.drop_last()).push(e),
            None => errors_of_lines(ls.drop_last()),
        }
    }
}

/// The errors in a text, line by line.
pub open spec fn errors_of_text(t: Seq<char>) -> Seq<(MprimeErrorType, Seq<char>, Option<u32>, Option<Seq<char>>)> {
    errors_of_lines(text::lines(t))
}

proof fn lemma_errors_of_lines_concat(x: Seq<Seq<char>>, y: Seq<Seq<char>>)
    ensures
        errors_of_lines(x + y) == errors_of_lines(x) + errors_of_lines(y),
    decreases y.len(),
{
    if y.len() == 0 {
        assert(x + y =~= x);
        assert(errors_of_lines(x) + errors_of_lines(y) =~= errors_of_lines(x));
    } else {
        let y0 = y.drop_last();
        lemma_errors_of_lines_concat(x, y0);
        assert((x + y).drop_last() =~= x + y0);
        assert((x + y).last() == y.last());
        match line_error(y.last()) {
            Some(e) => {
                assert(errors_of_lines(x) + errors_of_lines(y0).push(e) =~= (errors_of_lines(x) + errors_of_lines(y0)).push(e));
            },
            None => {},
        }
    }
}

/// Reading the results file in pieces that end at line ends finds the
/// same errors, in the same order, as reading it whole: the errors of the
/// whole text are those of the first piece followed by those of the rest.
pub proof fn lemma_incremental_reads(first: Seq<char>, rest: Seq<char>)
    requires
        first.len() == 0 || first.last() == '\n',
    ensures
        errors_of_text(first + rest) == errors_of_text(first) + errors_of_text(rest),
{
    text::lemma_lines_concat(first, rest);
    lemma_errors_of_lines_concat(text::lines(first), text::lines(rest));
}

/// The FFT size of the last "Self-test NK passed" line.
pub open spec fn last_passed(ls: Seq<Seq<char>>) -> Option<u32>
    decreases ls.len(),
{
    if ls.len() == 0 {
        None
    } else {
        match group_u32(pattern::regex_group(self_test_re(), ls.last(), 1)) {
            Some(v) => Some(v),
            None => last_passed(ls.drop_last()),
        }
    }
}

/// Incremental parser of a results file: remembers how many bytes it read.
#[derive(Debug)]
pub struct ErrorParser {
    byte_offset: u64,
}

impl ErrorParser {
    pub closed spec fn offset(&self) -> u64 {
        self.byte_offset
    }

    /// A parser that starts at the beginning of the file.
    pub fn new() -> (p: ErrorParser)
        ensures
            p.offset() == 0,
    {
        ErrorParser { byte_offset: 0 }
    }

    /// Where the next read of the results file starts.
    pub fn byte_offset(&self) -> (o: u64)
        ensures
            o == self.offset(),
    {
        self.byte_offset
    }

    /// Takes the text read from the current offset (`bytes_read` bytes) and
    /// returns its errors; the offset moves past what was read.
    pub fn parse_read(&mut self, content: &str, bytes_read: u64) -> (errors: Vec<MprimeError>)
        requires
            old(self).offset() + bytes_read <= u64::MAX,
        ensures
            final(self).offset() == old(self).offset() + bytes_read,
            errors_view(errors@) == errors_of_text(content@),
    {
        self.byte_offset = self.byte_offset + bytes_read;
        Self::parse_lines(content)
    }

    /// The first error of a line (or of the lines of a text).
    pub fn parse_line(line: &str) -> (r: Option<MprimeError>)
        ensures
            match r {
                Some(e) => errors_of_text(line@).len() > 0 && error_view(e) == errors_of_text(line@)[0],
                None => errors_of_text(line@).len() == 0,
            },
    {
        let mut errors = Self::parse_lines(line);
        if errors.len() == 0 {
            None
        } else {
            Some(errors.remove(0))
        }
    }

    /// All errors of a text, line by line.
    pub fn parse_lines(content: &str) -> (errors: Vec<MprimeError>)
        ensures
            errors_view(errors@) == errors_of_text(content@),
    {
        let chars = text::chars_of(content);
        let ls = text::lines_of(&chars);
        let ghost lv = text::pieces(ls@);
        let mut errors: Vec<MprimeError> = Vec::new();
        let mut i: usize = 0;
        proof {
            assert(lv.take(0) =~= Seq::<Seq<char>>::empty());
            assert(errors_view(errors@) =~= errors_of_lines(lv.take(0)));
        }
        while i < ls.len()
            invariant
                i <= ls.len(),
                lv == text::pieces(ls@),
                errors_view(errors@) == errors_of_lines(lv.take(i as int)),
            decreases ls.len() - i,
        {
            let ghost before = errors@;
            proof {
                assert(lv.take(i + 1).drop_last() =~= lv.take(i as int));
                assert(lv.take(i + 1).last() == ls@[i as int]@);
            }
            match Self::classify(&ls[i]) {
                Some(e) => {
                    errors.push(e);
                    assert(errors_view(errors@) =~= errors_view(before).push(error_view(errors@.last())));
                },
                None => {},
            }
            i += 1;
        }
        assert(lv.take(ls.len() as int) =~= lv);
        errors
    }

    /// The bracketed timestamp of a line.
    fn extract_timestamp(line: &[char]) -> (r: Option<String>)
        ensures
            pattern::opt_chars(r) == timestamp_of(line@),
    {
        pattern::capture_group(r"\[([^\]]+)\]", line, 1)
    }

    fn make(kind: MprimeErrorType, line: &[char], fft_size: Option<u32>) -> (e: MprimeError)
        ensures
            error_view(e) == (kind, line@, fft_size, timestamp_of(line@)),
    {
        MprimeError {
            error_type: kind,
            message: text::string_from_chars(line),
            fft_size,
            timestamp: Self::extract_timestamp(line),
        }
    }

    fn group_number(g: Option<String>) -> (r: Option<u32>)
        ensures
            r == group_u32(pattern::opt_chars(g)),
    {
        match g {
            Some(d) => {
                let c = text::chars_of(d.as_str());
                text::parse_u32(&c)
            },
            None => None,
        }
    }

    /// The error one line reports, trying the patterns in order.
    fn classify(line: &[char]) -> (r: Option<MprimeError>)
        ensures
            match r {
                Some(e) => line_error(line@) == Some(error_view(e)),
                None => line_error(line@) is None,
            },
    {
        let pat_roundoff = r"(?i)ROUND\s*OFF\s*>\s*0\.4|Rounding was .*, expected less than 0\.4";
        let pat_hardware = r"(?i)Hardware failure detected running (\d+)K FFT";
        let pat_summary = r"(?i)Torture Test completed \d+ tests? in \d+ minutes? - (\d+) errors?";
        if pattern::is_match(pat_roundoff, line) {
            return Some(Self::make(MprimeErrorType::RoundoffError, line, None));
        }
        if pattern::is_match(pat_hardware, line) {
            let fft = Self::group_number(pattern::capture_group(pat_hardware, line, 1));
            return Some(Self::make(MprimeErrorType::HardwareFailure, line, fft));
        }
        if pattern::is_match(r"(?i)FATAL ERROR", line) {
            return Some(Self::make(MprimeErrorType::FatalError, line, None));
        }
        if pattern::is_match(r"(?i)Possible hardware failure", line) {
            return Some(Self::make(MprimeErrorType::PossibleHardwareFailure, line, None));
        }
        if pattern::is_match(r"(?i)ILLEGAL SUMOUT", line) {
            return Some(Self::make(MprimeErrorType::IllegalSumout, line, None));
        }
        if pattern::is_match(r"(?i)SUM\(INPUTS\)\s*!=\s*SUM\(OUTPUTS\)", line) {
            return Some(Self::make(MprimeErrorType::SumMismatch, line, None));
        }
        if pattern::is_match(r"(?i)TORTURE TEST FAILED", line) {
            return Some(Self::make(MprimeErrorType::TortureTestFailed, line, None));
        }
        match Self::group_number(pattern::capture_group(pat_summary, line, 1)) {
            Some(n) => {
                if n == 0 {
                    None
                } else {
                    Some(Self::make(MprimeErrorType::TortureTestSummaryError, line, None))
                }
            },
            None => None,
        }
    }

    /// The FFT size of the last "Self-test NK passed" line of a text.
    pub fn extract_last_passed_fft(content: &str) -> (r: Option<u32>)
        ensures
            r == last_passed(text::lines(content@)),
    {
        let chars = text::chars_of(content);
        let ls = text::lines_of(&chars);
        let ghost lv = text::pieces(ls@);
        let mut i: usize = ls.len();
        proof {
            assert(lv.take(ls.len() as int) =~= lv);
        }
        while i > 0
            invariant
                i <= ls.len(),
                lv == text::pieces(ls@),
                lv == text::lines(content@),
                last_passed(lv) == last_passed(lv.take(i as int)),
            decreases i,
        {
            proof {
                assert(lv.take(i as int).drop_last() =~= lv.take(i - 1));
                assert(lv.take(i as int).last() == ls@[i - 1]@);
            }
            let g = pattern::capture_group(r"(?i)Self-test (\d+)K passed", &ls[i - 1], 1);
            match Self::group_number(g) {
                Some(v) => {
                    return Some(v);
                },
                None => {},
            }
            i -= 1;
        }
        None
    }
}

impl Default for ErrorParser {
    fn default() -> (p: ErrorParser)
        ensures
            p.offset() == 0,
    {
        ErrorParser::new()
    }
}

} // verus!
