use cli_log_file_analyzer::cli::{
    compile_query, handle_line, run, step, Action, CliError, Event, IoFailure, LineRead, Output,
    RunReport,
};
use cli_log_file_analyzer::parser::{Column, Op, ParseError};
use cli_log_file_analyzer::token::TokenizeError;

/// The reads a line reader makes of `data`.
fn lines_of(data: &str) -> Vec<LineRead> {
    data.lines().map(|l| LineRead::Line(l.to_string())).collect()
}

/// What the run wrote to standard output and to standard error.
fn streams(report: &RunReport) -> (Vec<u8>, Vec<u8>) {
    let mut stdout_buf = Vec::new();
    let mut stderr_buf = Vec::new();
    for out in &report.output {
        match out {
            Output::Stdout(s) => {
                stdout_buf.extend_from_slice(s.as_bytes());
                stdout_buf.push(b'\n');
            }
            Output::Stderr(s) => {
                stderr_buf.extend_from_slice(s.as_bytes());
                stderr_buf.push(b'\n');
            }
        }
    }
    (stdout_buf, stderr_buf)
}

#[test]
fn matching_line_is_written_to_stdout() {
    let line = "2021-02-09T11:40:59Z ERROR [database] connection refused after 3 retries";
    let query = "level = \"ERROR\"";

    let report = run(query, &lines_of(line));
    let (stdout_buf, stderr_buf) = streams(&report);

    assert_eq!(report.result, Ok(()));

    let expected_stdout = format!("{}\n", line);
    let actual_stdout = String::from_utf8(stdout_buf).expect("stdout should be valid UTF-8");
    assert_eq!(actual_stdout, expected_stdout);

    assert!(stderr_buf.is_empty(), "Expected stderr to be empty");
}

#[test]
fn non_matching_line_is_not_written_to_stdout() {
    let line = "2021-02-09T11:40:59Z ERROR [database] connection refused after 3 retries";
    let query = "level = \"WARN\"";

    let report = run(query, &lines_of(line));
    let (stdout_buf, stderr_buf) = streams(&report);

    assert_eq!(report.result, Ok(()));
    assert!(
        stdout_buf.is_empty(),
        "Expected stdout to be empty for non-matching line"
    );
    assert!(stderr_buf.is_empty(), "Expected stderr to be empty");
}

#[test]
fn unterminated_string_query_returns_tokenize_error() {
    let query = "level = \"ERROR";
    let report = run(query, &lines_of(""));
    let (stdout_buf, stderr_buf) = streams(&report);

    assert_eq!(
        report.result,
        Err(CliError::Tokenize(TokenizeError::UnterminatedString))
    );
    assert!(
        stdout_buf.is_empty(),
        "Expected stdout to be empty on query error"
    );
    assert!(
        stderr_buf.is_empty(),
        "Expected stderr to be empty on query error"
    );
}

#[test]
fn unknown_column_query_returns_parse_error() {
    let query = "foo = \"bar\"";
    let report = run(query, &lines_of(""));
    let (stdout_buf, stderr_buf) = streams(&report);

    assert_eq!(
        report.result,
        Err(CliError::Parse(ParseError::UnknownColumn("foo".to_string())))
    );
    assert!(
        stdout_buf.is_empty(),
        "Expected stdout to be empty on query error"
    );
    assert!(
        stderr_buf.is_empty(),
        "Expected stderr to be empty on query error"
    );
}

#[test]
fn malformed_log_line_is_skipped_and_warned_to_stderr() {
    let data = "not a valid log line\n2021-02-09T11:40:59Z ERROR [database] connection refused after 3 retries";
    let query = "level = \"ERROR\"";

    let report = run(query, &lines_of(data));
    let (stdout_buf, stderr_buf) = streams(&report);

    assert_eq!(report.result, Ok(()));

    let expected_stdout =
        "2021-02-09T11:40:59Z ERROR [database] connection refused after 3 retries\n";
    let actual_stdout = String::from_utf8(stdout_buf).expect("stdout should be valid UTF-8");
    assert_eq!(actual_stdout, expected_stdout);

    let expected_stderr =
        "warning: line 1: malformed log line (MissingSourceBrackets), skipped\n";
    let actual_stderr = String::from_utf8(stderr_buf).expect("stderr should be valid UTF-8");
    assert_eq!(actual_stderr, expected_stderr);
}

#[test]
fn io_error_stops_loop_early_and_returns_error() {
    let failing_read = LineRead::Failed(IoFailure {
        kind: std::io::ErrorKind::ConnectionAborted,
        message: "simulated network drop".to_string(),
    });

    let query = "level = \"ERROR\"";
    let report = run(query, &vec![failing_read]);
    let (stdout_buf, stderr_buf) = streams(&report);

    let expected = std::io::Error::from(std::io::ErrorKind::ConnectionAborted);
    let expected_err = CliError::Io(IoFailure {
        kind: expected.kind(),
        message: expected.to_string(),
    });
    assert_eq!(report.result, Err(expected_err));
    assert!(
        stdout_buf.is_empty(),
        "Expected stdout to be empty on fatal IO error"
    );
    assert!(
        stderr_buf.is_empty(),
        "Expected stderr to be empty on fatal IO error"
    );
}

#[test]
fn cross_variant_comparison_returns_false() {
    let tokenize_err = CliError::Tokenize(TokenizeError::UnterminatedString);
    let parse_err = CliError::Parse(ParseError::ExpectedColumn);

    assert_ne!(tokenize_err, parse_err);
}

#[test]
fn tokenize_error_displays_correctly() {
    assert_eq!(
        CliError::Tokenize(TokenizeError::UnterminatedString).message(),
        "could not tokenize query: UnterminatedString"
    );
}

#[test]
fn parse_error_displays_correctly() {
    assert_eq!(
        CliError::Parse(ParseError::ExpectedColumn).message(),
        "could not parse query: ExpectedColumn"
    );
}

#[test]
fn io_error_displays_with_wrapped_message() {
    let inner = std::io::Error::from(std::io::ErrorKind::NotFound);
    let inner_msg = inner.to_string();
    let failure = IoFailure {
        kind: inner.kind(),
        message: inner.to_string(),
    };
    assert_eq!(
        CliError::Io(failure).message(),
        format!("I/O error while reading log file: {inner_msg}")
    );
}

#[test]
fn io_errors_of_different_kinds_differ() {
    let a = CliError::Io(IoFailure {
        kind: std::io::ErrorKind::NotFound,
        message: "same".to_string(),
    });
    let b = CliError::Io(IoFailure {
        kind: std::io::ErrorKind::PermissionDenied,
        message: "same".to_string(),
    });
    assert_ne!(a, b);
    let c = CliError::Io(IoFailure {
        kind: std::io::ErrorKind::NotFound,
        message: "other".to_string(),
    });
    assert_eq!(a, c);
}

#[test]
fn error_messages_match_debug_formatting() {
    assert_eq!(
        CliError::Tokenize(TokenizeError::Unexpected('#')).message(),
        format!("could not tokenize query: {:?}", TokenizeError::Unexpected('#'))
    );
    assert_eq!(
        CliError::Tokenize(TokenizeError::Unexpected('\n')).message(),
        "could not tokenize query: Unexpected('\\n')"
    );
    let unknown = ParseError::UnknownColumn("fo\"o".to_string());
    assert_eq!(
        CliError::Parse(unknown).message(),
        "could not parse query: UnknownColumn(\"fo\\\"o\")"
    );
    let invalid = ParseError::InvalidOperatorForColumn { column: Column::Level, op: Op::Gt };
    let expected = format!("could not parse query: {:?}", invalid);
    assert_eq!(CliError::Parse(invalid).message(), expected);
    assert_eq!(
        CliError::Parse(ParseError::ExpectedOperator).message(),
        "could not parse query: ExpectedOperator"
    );
}

#[test]
fn warnings_number_lines_from_one_and_name_the_first_failed_check() {
    let data = "2021-02-09T11:40:59Z ERROR [db] ok\n\
                only two\n\
                2021-02-09T11:40:59Z [db] no level\n\
                2021-02-09T11:40:59Z ERROR [ ] blank source\n\
                2021-02-09 ERROR [db] short timestamp\n\
                2021-02-09T11:40:59Z error [db] lower-case level\n\
                x y [db]";
    let report = run("source = \"db\"", &lines_of(data));
    let (stdout_buf, stderr_buf) = streams(&report);
    assert_eq!(report.result, Ok(()));
    assert_eq!(
        String::from_utf8(stdout_buf).unwrap(),
        "2021-02-09T11:40:59Z ERROR [db] ok\n"
    );
    assert_eq!(
        String::from_utf8(stderr_buf).unwrap(),
        "warning: line 2: malformed log line (MissingField), skipped\n\
         warning: line 3: malformed log line (MissingLevel), skipped\n\
         warning: line 4: malformed log line (EmptySource), skipped\n\
         warning: line 5: malformed log line (InvalidTimestamp), skipped\n\
         warning: line 6: malformed log line (UnknownLevel), skipped\n\
         warning: line 7: malformed log line (MissingSourceBrackets), skipped\n"
    );
}

#[test]
fn read_failure_after_lines_keeps_earlier_output() {
    let mut log = lines_of(
        "2021-02-09T11:40:59Z ERROR [db] first\nbroken\n2021-02-09T11:41:00Z INFO [db] second",
    );
    log.push(LineRead::Failed(IoFailure {
        kind: std::io::ErrorKind::Interrupted,
        message: "gone".to_string(),
    }));
    log.push(LineRead::Line("2021-02-09T11:42:00Z ERROR [db] never read".to_string()));
    let report = run("NOT level = \"WARN\"", &log);
    let (stdout_buf, stderr_buf) = streams(&report);
    assert_eq!(
        String::from_utf8(stdout_buf).unwrap(),
        "2021-02-09T11:40:59Z ERROR [db] first\n2021-02-09T11:41:00Z INFO [db] second\n"
    );
    assert_eq!(
        String::from_utf8(stderr_buf).unwrap(),
        "warning: line 2: malformed log line (MissingField), skipped\n"
    );
    assert_eq!(
        report.result,
        Err(CliError::Io(IoFailure {
            kind: std::io::ErrorKind::Interrupted,
            message: String::new(),
        }))
    );
}

#[test]
fn query_error_wins_over_read_failure() {
    let log = vec![LineRead::Failed(IoFailure {
        kind: std::io::ErrorKind::Other,
        message: "x".to_string(),
    })];
    let report = run("level >", &log);
    assert!(report.output.is_empty());
    assert_eq!(report.result, Err(CliError::Parse(ParseError::ExpectedOperand)));
}

#[test]
fn compile_query_reports_query_errors() {
    assert_eq!(
        compile_query("level = \"x"),
        Err(CliError::Tokenize(TokenizeError::UnterminatedString))
    );
    assert_eq!(
        compile_query("level ="),
        Err(CliError::Parse(ParseError::ExpectedOperand))
    );
    assert!(compile_query("NOT (level = \"x\")").is_ok());
}

#[test]
fn handle_line_decides_one_line() {
    let q = compile_query("source = \"db\"").unwrap();
    let line = "2021-02-09T11:40:59Z INFO [db] hello";
    assert_eq!(handle_line(&q, 3, line), Some(Output::Stdout(line.to_string())));
    assert_eq!(handle_line(&q, 3, "2021-02-09T11:40:59Z INFO [web] hello"), None);
    assert_eq!(
        handle_line(&q, 12, "garbage"),
        Some(Output::Stderr(
            "warning: line 12: malformed log line (MissingField), skipped".to_string()
        ))
    );
}

#[test]
fn step_asks_for_reads_and_writes_and_stops_on_failures() {
    let q = compile_query("level = \"ERROR\"").unwrap();
    let line = "2021-02-09T11:40:59Z ERROR [db] boom";
    let s = step(&q, 4, Event::Read(LineRead::Line(line.to_string())));
    assert_eq!(s.next_line, 5);
    assert!(matches!(s.action, Action::Write(Output::Stdout(ref t)) if t == line));
    let s = step(&q, 5, Event::Written);
    assert_eq!(s.next_line, 5);
    assert!(matches!(s.action, Action::ReadNext));
    let s = step(&q, 5, Event::Read(LineRead::Line("2021-02-09T11:40:59Z INFO [db] ok".to_string())));
    assert_eq!(s.next_line, 6);
    assert!(matches!(s.action, Action::ReadNext));
    let s = step(&q, 6, Event::Read(LineRead::Line("junk".to_string())));
    assert!(matches!(
        s.action,
        Action::Write(Output::Stderr(ref t)) if t == "warning: line 6: malformed log line (MissingField), skipped"
    ));
    let broken_pipe = IoFailure {
        kind: std::io::ErrorKind::BrokenPipe,
        message: "broken pipe".to_string(),
    };
    match step(&q, 7, Event::WriteFailed(broken_pipe)).action {
        Action::Finish(result) => assert_eq!(
            result,
            Err(CliError::Io(IoFailure {
                kind: std::io::ErrorKind::BrokenPipe,
                message: String::new(),
            }))
        ),
        other => panic!("expected the run to stop, got {other:?}"),
    }
    match step(&q, 7, Event::EndOfLog).action {
        Action::Finish(result) => assert_eq!(result, Ok(())),
        other => panic!("expected the run to stop, got {other:?}"),
    }
}
