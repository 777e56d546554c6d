use core_probe::error_parser::{ErrorParser, MprimeErrorType};

#[test]
fn given_roundoff_error_line_when_parsing_then_detects_hardware_error() {
    // GIVEN: Line with roundoff error
    let line = "[2025-01-15 12:34:56] FATAL ERROR: Rounding was 0.5, expected less than 0.4";

    // WHEN: Parsing line
    let error = ErrorParser::parse_line(line);

    // THEN: Error detected with correct type
    assert!(error.is_some());
    let err = error.unwrap();
    assert_eq!(err.error_type, MprimeErrorType::RoundoffError);
    assert_eq!(err.message, line);
    assert_eq!(err.timestamp, Some("2025-01-15 12:34:56".to_string()));
}

#[test]
fn given_fatal_error_line_when_parsing_then_detects_fatal() {
    // GIVEN: Line with fatal error
    let line = "FATAL ERROR: Something went wrong";

    // WHEN: Parsing line
    let error = ErrorParser::parse_line(line);

    // THEN: Fatal error detected
    assert!(error.is_some());
    let err = error.unwrap();
    assert_eq!(err.error_type, MprimeErrorType::FatalError);
}

#[test]
fn given_hardware_failure_line_when_parsing_then_extracts_fft_size() {
    // GIVEN: Line with hardware failure and FFT size
    let line =
        "[Worker #1] Hardware failure detected running 1344K FFT size, consult stress.txt.";

    // WHEN: Parsing line
    let error = ErrorParser::parse_line(line);

    // THEN: FFT size extracted correctly
    assert!(error.is_some());
    let err = error.unwrap();
    assert_eq!(err.error_type, MprimeErrorType::HardwareFailure);
    assert_eq!(err.fft_size, Some(1344));
}

#[test]
fn given_self_test_passed_line_when_parsing_then_tracks_progress() {
    // GIVEN: Text with multiple self-test passed lines
    let text = r#"
[2025-01-15 12:00:00] Self-test 896K passed!
[2025-01-15 12:05:00] Self-test 1344K passed!
[2025-01-15 12:10:00] Self-test 1792K passed!
"#;

    // WHEN: Extracting last passed FFT
    let last_fft = ErrorParser::extract_last_passed_fft(text);

    // THEN: Returns last passed FFT size
    assert_eq!(last_fft, Some(1792));
}

#[test]
fn given_clean_results_when_parsing_then_returns_no_errors() {
    // GIVEN: Clean results.txt with no errors
    let text = r#"
[2025-01-15 12:00:00] Self-test 896K passed!
[2025-01-15 12:05:00] Test 1, 1000 Lucas-Lehmer iterations of M62914177 using FMA3 FFT length 3584K
[2025-01-15 12:10:00] Iteration 500 completed
"#;

    // WHEN: Parsing text
    let errors = ErrorParser::parse_lines(text);

    // THEN: No errors detected
    assert!(errors.is_empty());
}

#[test]
fn given_illegal_sumout_when_parsing_then_detects_error() {
    // GIVEN: Line with illegal sumout
    let line = "[Worker #1] ILLEGAL SUMOUT detected";

    // WHEN: Parsing line
    let error = ErrorParser::parse_line(line);

    // THEN: Illegal sumout detected
    assert!(error.is_some());
    let err = error.unwrap();
    assert_eq!(err.error_type, MprimeErrorType::IllegalSumout);
}

#[test]
fn given_incremental_read_when_new_lines_added_then_only_parses_new() {
    // GIVEN: The results file first holds one clean line
    let first = "Initial line - no errors\n";
    let mut parser = ErrorParser::new();

    // WHEN: First parse (initial content, read from offset 0)
    let errors1 = parser.parse_read(first, first.len() as u64);

    // THEN: No errors in initial content
    assert!(errors1.is_empty());
    let first_offset = parser.byte_offset();
    assert!(first_offset > 0);

    // GIVEN: A line with an error was appended; only it is read
    let appended = "[2025-01-15 12:00:00] Hardware failure detected running 1344K FFT size\n";

    // WHEN: Second parse (incremental - only new content)
    let errors2 = parser.parse_read(appended, appended.len() as u64);

    // THEN: Second parse detected new error
    assert_eq!(errors2.len(), 1);
    assert_eq!(errors2[0].error_type, MprimeErrorType::HardwareFailure);
    assert_eq!(errors2[0].fft_size, Some(1344));

    // AND: Byte offset advanced
    assert!(parser.byte_offset() > first_offset);

    // WHEN: Third parse (no new content)
    let errors3 = parser.parse_read("", 0);

    // THEN: No new errors found
    assert!(errors3.is_empty());
}

#[test]
fn given_sum_mismatch_when_parsing_then_detects_error() {
    // GIVEN: Line with sum mismatch error
    let line = "[Worker #1] ERROR: SUM(INPUTS) != SUM(OUTPUTS)";

    // WHEN: Parsing line
    let error = ErrorParser::parse_line(line);

    // THEN: Sum mismatch detected
    assert!(error.is_some());
    let err = error.unwrap();
    assert_eq!(err.error_type, MprimeErrorType::SumMismatch);
}

#[test]
fn given_possible_hardware_failure_when_parsing_then_detects_error() {
    // GIVEN: Line with possible hardware failure
    let line = "Possible hardware failure, consult the readme file.";

    // WHEN: Parsing line
    let error = ErrorParser::parse_line(line);

    // THEN: Possible hardware failure detected
    assert!(error.is_some());
    let err = error.unwrap();
    assert_eq!(err.error_type, MprimeErrorType::PossibleHardwareFailure);
}

#[test]
fn given_roundoff_simple_format_when_parsing_then_detects() {
    // GIVEN: Simple ROUND OFF format (no "expected less than")
    let line = "[Worker #1] ROUND OFF > 0.40";

    // WHEN: Parsing line
    let error = ErrorParser::parse_line(line);

    // THEN: Roundoff error detected
    assert!(error.is_some());
    let err = error.unwrap();
    assert_eq!(err.error_type, MprimeErrorType::RoundoffError);
}

#[test]
fn given_case_insensitive_errors_when_parsing_then_all_detected() {
    // GIVEN: Errors in various cases
    let lines = [
        "fatal error: test",
        "FATAL ERROR: test",
        "Fatal Error: test",
        "illegal sumout",
        "ILLEGAL SUMOUT",
    ];

    // WHEN: Parsing all lines
    let errors: Vec<_> = lines
        .iter()
        .filter_map(|line| ErrorParser::parse_line(line))
        .collect();

    // THEN: All detected regardless of case
    assert_eq!(errors.len(), 5);
}

#[test]
fn given_torture_test_failed_when_parsing_then_detects_error() {
    // Given: mprime TORTURE TEST FAILED line from real output
    let line = "TORTURE TEST FAILED on worker #1";

    // When: Parsing the line
    let result = ErrorParser::parse_line(line);

    // Then: Error detected with correct type
    assert!(result.is_some(), "should detect TORTURE TEST FAILED");
    let error = result.unwrap();
    assert_eq!(error.error_type, MprimeErrorType::TortureTestFailed);
    assert_eq!(error.message, line);
}

#[test]
fn given_torture_summary_with_errors_when_parsing_then_detects_error() {
    // Given: torture test summary line with errors from real output
    let line = "Torture Test completed 20 tests in 13 minutes - 1 errors, 0 warnings.";

    // When: Parsing the line
    let result = ErrorParser::parse_line(line);

    // Then: Error detected with correct type
    assert!(
        result.is_some(),
        "should detect torture summary with errors"
    );
    let error = result.unwrap();
    assert_eq!(error.error_type, MprimeErrorType::TortureTestSummaryError);
    assert_eq!(error.message, line);
}

#[test]
fn given_torture_summary_no_errors_when_parsing_then_returns_none() {
    // Given: torture test summary line with zero errors (successful run)
    let line = "Torture Test completed 20 tests in 13 minutes - 0 errors, 0 warnings.";

    // When: Parsing the line
    let result = ErrorParser::parse_line(line);

    // Then: No error detected (0 errors means the test passed)
    assert!(
        result.is_none(),
        "should NOT detect error when 0 errors in summary"
    );
}
