use vstd::prelude::*;
use vstd::std_specs::cmp::PartialEqSpec;
use vstd::string::StringExecFns;

use crate::evaluator::{evaluate, satisfies};
use crate::parser::{parse, parse_error_eq, parse_spec, Column, Op, ParseError, ParseErrorView, Query, QueryView};
use crate::record::{parse_line, render, AnalyzerError, LineErrorKind, LogRecord};
use crate::text::{char_debug, char_debug_text, decimal, push_decimal, str_debug, str_debug_text};
use crate::token::{lex, tokenize, TokenizeError};

verus! {

#[verifier::external_type_specification]
#[verifier::external_body]
pub struct ExIoErrorKind(std::io::ErrorKind);

/// Calls `==` on `std::io::ErrorKind`, a field-less enum whose `PartialEq` is
/// derived: two kinds compare equal exactly when they are the same variant.
#[verifier::external_body]
fn same_io_kind(a: &std::io::ErrorKind, b: &std::io::ErrorKind) -> (r: bool)
    ensures
        r == (*a == *b),
{
    *a == *b
}

/// A failed read or write: the error's kind and its message.
#[derive(Debug)]
pub struct IoFailure {
    pub kind: std::io::ErrorKind,
    pub message: String,
}

impl IoFailure {
    /// A copy of this failure.
    pub fn duplicate(&self) -> (r: IoFailure)
        ensures
            r == *self,
    {
        IoFailure { kind: self.kind, message: self.message.clone() }
    }
}

/// Why a run stopped.
#[derive(Debug)]
pub enum CliError {
    Tokenize(TokenizeError),
    Parse(ParseError),
    Io(IoFailure),
}

impl PartialEq for CliError {
    /// `Io` errors compare by their kind alone: two failures of the same kind
    /// with different messages are equal.
    fn eq(&self, other: &Self) -> (r: bool) {
        match self {
            CliError::Tokenize(a) => match other {
                CliError::Tokenize(b) => *a == *b,
                _ => false,
            },
            CliError::Parse(a) => match other {
                CliError::Parse(b) => parse_error_eq(a, b),
                _ => false,
            },
            CliError::Io(a) => match other {
                CliError::Io(b) => same_io_kind(&a.kind, &b.kind),
                _ => false,
            },
        }
    }
}

impl vstd::std_specs::cmp::PartialEqSpecImpl for CliError {
    open spec fn obeys_eq_spec() -> bool {
        true
    }

    open spec fn eq_spec(&self, other: &CliError) -> bool {
        match self {
            CliError::Tokenize(a) => other matches CliError::Tokenize(b) && *a == b,
            CliError::Parse(a) => other matches CliError::Parse(b) && a@ == b@,
            CliError::Io(a) => other matches CliError::Io(b) && a.kind == b.kind,
        }
    }
}

/// Two I/O failures of the same kind make equal errors, whatever their
/// messages; errors of different variants are never equal.
pub proof fn law_io_errors_compare_by_kind(a: IoFailure, b: IoFailure, t: TokenizeError, p: ParseError)
    ensures
        CliError::Io(a).eq_spec(&CliError::Io(b)) == (a.kind == b.kind),
        !CliError::Tokenize(t).eq_spec(&CliError::Parse(p)),
        !CliError::Io(a).eq_spec(&CliError::Tokenize(t)),
        !CliError::Parse(p).eq_spec(&CliError::Io(b)),
{
}

/// How `{:?}` writes a tokenize error.
pub open spec fn tokenize_error_text(e: TokenizeError) -> Seq<char> {
    match e {
        TokenizeError::UnterminatedString => "UnterminatedString"@,
        TokenizeError::Unexpected(c) => "Unexpected("@ + char_debug_text(c) + ")"@,
    }
}

/// How `{:?}` writes a column.
pub open spec fn column_text(c: Column) -> Seq<char> {
    match c {
        Column::Timestamp => "Timestamp"@,
        Column::Level => "Level"@,
        Column::Source => "Source"@,
        Column::Message => "Message"@,
    }
}

/// How `{:?}` writes an operator.
pub open spec fn op_text(o: Op) -> Seq<char> {
    match o {
        Op::Eq => "Eq"@,
        Op::Ne => "Ne"@,
        Op::Gt => "Gt"@,
        Op::Gte => "Gte"@,
        Op::Lt => "Lt"@,
        Op::Lte => "Lte"@,
        Op::Contains => "Contains"@,
    }
}

/// How `{:?}` writes a parse error.
pub open spec fn parse_error_text(e: ParseErrorView) -> Seq<char> {
    match e {
        ParseErrorView::UnknownColumn(s) => "UnknownColumn("@ + str_debug_text(s) + ")"@,
        ParseErrorView::InvalidOperatorForColumn(c, o) => "InvalidOperatorForColumn { column: "@
            + column_text(c) + ", op: "@ + op_text(o) + " }"@,
        ParseErrorView::ExpectedColumn => "ExpectedColumn"@,
        ParseErrorView::ExpectedOperator => "ExpectedOperator"@,
        ParseErrorView::ExpectedOperand => "ExpectedOperand"@,
        ParseErrorView::TrailingGarbage => "TrailingGarbage"@,
        ParseErrorView::UnclosedParen => "UnclosedParen"@,
    }
}

/// The message that reports a run's error.
pub open spec fn cli_error_text(e: CliError) -> Seq<char> {
    match e {
        CliError::Tokenize(t) => "could not tokenize query: "@ + tokenize_error_text(t),
        CliError::Parse(p) => "could not parse query: "@ + parse_error_text(p@),
        CliError::Io(f) => "I/O error while reading log file: "@ + f.message@,
    }
}

fn column_name(c: Column) -> (r: &'static str)
    ensures
        r@ == column_text(c),
{
    match c {
        Column::Timestamp => "Timestamp",
        Column::Level => "Level",
        Column::Source => "Source",
        Column::Message => "Message",
    }
}

fn op_name(o: Op) -> (r: &'static str)
    ensures
        r@ == op_text(o),
{
    match o {
        Op::Eq => "Eq",
        Op::Ne => "Ne",
        Op::Gt => "Gt",
        Op::Gte => "Gte",
        Op::Lt => "Lt",
        Op::Lte => "Lte",
        Op::Contains => "Contains",
    }
}

/// Appends how `{:?}` writes `e` to `out`.
fn push_tokenize_error(out: &mut String, e: TokenizeError)
    ensures
        final(out)@ == old(out)@ + tokenize_error_text(e),
{
    match e {
        TokenizeError::UnterminatedString => out.append("UnterminatedString"),
        TokenizeError::Unexpected(c) => {
            out.append("Unexpected(");
            let text = char_debug(c);
            out.append(text.as_str());
            out.append(")");
        },
    }
    assert(out@ =~= old(out)@ + tokenize_error_text(e));
}

/// Appends how `{:?}` writes `e` to `out`.
fn push_parse_error(out: &mut String, e: &ParseError)
    ensures
        final(out)@ == old(out)@ + parse_error_text(e@),
{
    match e {
        ParseError::UnknownColumn(s) => {
            out.append("UnknownColumn(");
            let text = str_debug(s.as_str());
            out.append(text.as_str());
            out.append(")");
        },
        ParseError::InvalidOperatorForColumn { column, op } => {
            out.append("InvalidOperatorForColumn { column: ");
            out.append(column_name(*column));
            out.append(", op: ");
            out.append(op_name(*op));
            out.append(" }");
        },
        ParseError::ExpectedColumn => out.append("ExpectedColumn"),
        ParseError::ExpectedOperator => out.append("ExpectedOperator"),
        ParseError::ExpectedOperand => out.append("ExpectedOperand"),
        ParseError::TrailingGarbage => out.append("TrailingGarbage"),
        ParseError::UnclosedParen => out.append("UnclosedParen"),
    }
    assert(out@ =~= old(out)@ + parse_error_text(e@));
}

impl CliError {
    /// The message that reports this error, as the program prints it.
    pub fn message(&self) -> (r: String)
        ensures
            r@ == cli_error_text(*self),
    {
        let mut out = String::new();
        match self {
            CliError::Tokenize(t) => {
                out.append("could not tokenize query: ");
                push_tokenize_error(&mut out, *t);
            },
            CliError::Parse(p) => {
                out.append("could not parse query: ");
                push_parse_error(&mut out, p);
            },
            CliError::Io(f) => {
                out.append("I/O error while reading log file: ");
                out.append(f.message.as_str());
            },
        }
        assert(out@ =~= cli_error_text(*self));
        out
    }
}

/// What reading one line of the log gave.
#[derive(Debug)]
pub enum LineRead {
    Line(String),
    Failed(IoFailure),
}

/// One line to print, on standard output or on standard error.
#[derive(Debug, PartialEq)]
pub enum Output {
    Stdout(String),
    Stderr(String),
}

/// An output line with its text taken as a sequence of characters.
pub enum OutputView {
    Stdout(Seq<char>),
    Stderr(Seq<char>),
}

impl View for Output {
    type V = OutputView;

    open spec fn view(&self) -> OutputView {
        match self {
            Output::Stdout(s) => OutputView::Stdout(s@),
            Output::Stderr(s) => OutputView::Stderr(s@),
        }
    }
}

/// What a run printed, in order, and how it ended.
#[derive(Debug)]
pub struct RunReport {
    pub output: Vec<Output>,
    pub result: Result<(), CliError>,
}

pub open spec fn output_views(s: Seq<Output>) -> Seq<OutputView> {
    s.map_values(|o: Output| o@)
}

/// How `{:?}` writes the kind of a malformed line.
pub open spec fn kind_text(k: LineErrorKind) -> Seq<char> {
    match k {
        LineErrorKind::MissingField => "MissingField"@,
        LineErrorKind::MissingLevel => "MissingLevel"@,
        LineErrorKind::MissingSourceBrackets => "MissingSourceBrackets"@,
        LineErrorKind::EmptySource => "EmptySource"@,
        LineErrorKind::InvalidTimestamp => "InvalidTimestamp"@,
        LineErrorKind::UnknownLevel => "UnknownLevel"@,
    }
}

/// The warning printed for a malformed line.
pub open spec fn warning_text(line: nat, k: LineErrorKind) -> Seq<char> {
    "warning: line "@ + decimal(line) + ": malformed log line ("@ + kind_text(k) + "), skipped"@
}

/// What the run prints for line number `number`, whose text is `text`: the
/// line itself when it parses and satisfies `q`, nothing when it parses and
/// does not, and a warning when it does not parse.
pub open spec fn line_outputs(q: QueryView, number: nat, text: Seq<char>) -> Seq<OutputView> {
    match parse_line(text) {
        Ok(r) => if satisfies(q, r) {
            seq![OutputView::Stdout(render(r))]
        } else {
            seq![]
        },
        Err(k) => seq![OutputView::Stderr(warning_text(number, k))],
    }
}

/// What the run prints for the first `k` reads of the log; line numbers start at 1.
pub open spec fn outputs_upto(q: QueryView, log: Seq<LineRead>, k: int) -> Seq<OutputView>
    decreases k,
{
    if k <= 0 {
        seq![]
    } else {
        outputs_upto(q, log, k - 1) + match log[k - 1] {
            LineRead::Line(t) => line_outputs(q, k as nat, t@),
            LineRead::Failed(_) => seq![],
        }
    }
}

/// Index of the first failed read at or after `i`, or `log.len()` when every read succeeded.
pub open spec fn failure_from(log: Seq<LineRead>, i: int) -> int
    decreases log.len() - i,
{
    if i < 0 || i >= log.len() {
        log.len() as int
    } else if log[i] is Failed {
        i
    } else {
        failure_from(log, i + 1)
    }
}

/// Index of the first failed read, or `log.len()` when every read succeeded.
pub open spec fn first_failure(log: Seq<LineRead>) -> int {
    failure_from(log, 0)
}

proof fn lemma_failure_from_skip(log: Seq<LineRead>, i: int)
    requires
        0 <= i <= log.len(),
        forall|j: int| 0 <= j < i ==> log[j] is Line,
    ensures
        first_failure(log) == failure_from(log, i),
    decreases i,
{
    if i > 0 {
        lemma_failure_from_skip_step(log, 0, i);
    }
}

proof fn lemma_failure_from_skip_step(log: Seq<LineRead>, a: int, i: int)
    requires
        0 <= a <= i <= log.len(),
        forall|j: int| a <= j < i ==> log[j] is Line,
    ensures
        failure_from(log, a) == failure_from(log, i),
    decreases i - a,
{
    if a < i {
        lemma_failure_from_skip_step(log, a + 1, i);
    }
}

/// The warning for a malformed line.
fn warning(e: &AnalyzerError) -> (r: String)
    ensures
        r@ == warning_text(e.line as nat, e.kind),
{
    let mut out = String::new();
    out.append("warning: line ");
    push_decimal(&mut out, e.line);
    out.append(": malformed log line (");
    let name = match e.kind {
        LineErrorKind::MissingField => "MissingField",
        LineErrorKind::MissingLevel => "MissingLevel",
        LineErrorKind::MissingSourceBrackets => "MissingSourceBrackets",
        LineErrorKind::EmptySource => "EmptySource",
        LineErrorKind::InvalidTimestamp => "InvalidTimestamp",
        LineErrorKind::UnknownLevel => "UnknownLevel",
    };
    out.append(name);
    out.append("), skipped");
    assert(out@ =~= warning_text(e.line as nat, e.kind));
    out
}

/// Tokenizes and parses a query, as a run does before it looks at any line.
pub fn compile_query(query: &str) -> (r: Result<Query, CliError>)
    ensures
        match lex(query@) {
            Err(e) => r == Err::<Query, CliError>(CliError::Tokenize(e)),
            Ok(toks) => match parse_spec(toks) {
                Err(e) => r matches Err(CliError::Parse(pe)) && pe@ == e,
                Ok(q) => r matches Ok(rq) && rq@ == q,
            },
        },
        r matches Ok(q) ==> crate::parser::well_formed(q@),
{
    let tokens = match tokenize(query) {
        Ok(tokens) => tokens,
        Err(e) => return Err(CliError::Tokenize(e)),
    };
    match parse(tokens.as_slice()) {
        Ok(q) => Ok(q),
        Err(e) => Err(CliError::Parse(e)),
    }
}

/// The outputs that an optional output stands for: none or one.
pub open spec fn optional_outputs(o: Option<Output>) -> Seq<OutputView> {
    match o {
        Some(out) => seq![out@],
        None => seq![],
    }
}

/// What a run prints for the log line numbered `number`: the line itself
/// when it parses and satisfies `q`, nothing when it parses and does not,
/// and a warning naming `number` when it does not parse.
pub fn handle_line(q: &Query, number: usize, line: &str) -> (r: Option<Output>)
    requires
        crate::parser::well_formed(q@),
    ensures
        optional_outputs(r) == line_outputs(q@, number as nat, line@),
{
    match LogRecord::parse(line, number) {
        Ok(rec) => {
            if evaluate(q, &rec) {
                Some(Output::Stdout(rec.to_line()))
            } else {
                None
            }
        },
        Err(e) => Some(Output::Stderr(warning(&e))),
    }
}

/// What the program reports to a run after its last request.
#[derive(Debug)]
pub enum Event {
    /// The next read of the log gave a line, or failed.
    Read(LineRead),
    /// The log has no more lines.
    EndOfLog,
    /// The requested output line was written.
    Written,
    /// Writing the requested output line failed.
    WriteFailed(IoFailure),
}

/// What a run asks the program to do next.
#[derive(Debug)]
pub enum Action {
    /// Read the next line of the log.
    ReadNext,
    /// Write this line, to standard output or standard error.
    Write(Output),
    /// Stop, with this result.
    Finish(Result<(), CliError>),
}

/// The next line number and what to do next.
#[derive(Debug)]
pub struct Step {
    pub next_line: usize,
    pub action: Action,
}

/// One step of a run of the query `q`: `line` is the number of the line that
/// the next read gives (the first line is line 1). A line read is decided by
/// `handle_line`, and what it prints is asked for; a failed read, or a failed
/// write, ends the run at once with that failure; the end of the log ends it
/// with success; a finished write asks for the next line.
pub fn step(q: &Query, line: usize, event: Event) -> (r: Step)
    requires
        crate::parser::well_formed(q@),
        event matches Event::Read(LineRead::Line(_)) ==> line < usize::MAX,
    ensures
        match event {
            Event::Read(LineRead::Line(t)) => {
                &&& r.next_line == line + 1
                &&& line_outputs(q@, line as nat, t@).len() == 0 ==> r.action is ReadNext
                &&& line_outputs(q@, line as nat, t@).len() == 1 ==> (r.action matches Action::Write(out)
                    && seq![out@] == line_outputs(q@, line as nat, t@))
            },
            Event::Read(LineRead::Failed(f)) => r.next_line == line && r.action == Action::Finish(
                Err::<(), CliError>(CliError::Io(f)),
            ),
            Event::EndOfLog => r.next_line == line && r.action == Action::Finish(Ok::<(), CliError>(())),
            Event::Written => r.next_line == line && r.action is ReadNext,
            Event::WriteFailed(f) => r.next_line == line && r.action == Action::Finish(
                Err::<(), CliError>(CliError::Io(f)),
            ),
        },
{
    match event {
        Event::Read(LineRead::Line(t)) => {
            let action = match handle_line(q, line, t.as_str()) {
                Some(out) => Action::Write(out),
                None => Action::ReadNext,
            };
            Step { next_line: line + 1, action }
        },
        Event::Read(LineRead::Failed(f)) => Step {
            next_line: line,
            action: Action::Finish(Err(CliError::Io(f))),
        },
        Event::EndOfLog => Step { next_line: line, action: Action::Finish(Ok(())) },
        Event::Written => Step { next_line: line, action: Action::ReadNext },
        Event::WriteFailed(f) => Step {
            next_line: line,
            action: Action::Finish(Err(CliError::Io(f))),
        },
    }
}

/// Runs `query` over the lines of a log, in order.
///
/// A query that does not tokenize or parse stops the run before any line is
/// looked at. A line that does not parse is skipped with a warning naming its
/// number; a line that satisfies the query is printed in full. The first
/// failed read stops the run with that failure. Each line is decided by
/// `step`, with every write taken to succeed. (The log is held in memory, so
/// it has fewer than `usize::MAX` lines.)
pub fn run(query: &str, log: &Vec<LineRead>) -> (report: RunReport)
    requires
        log@.len() < usize::MAX,
    ensures
        match lex(query@) {
            Err(e) => report.result == Err::<(), CliError>(CliError::Tokenize(e))
                && report.output@.len() == 0,
            Ok(toks) => match parse_spec(toks) {
                Err(e) => (report.result matches Err(CliError::Parse(pe)) && pe@ == e)
                    && report.output@.len() == 0,
                Ok(q) => {
                    &&& output_views(report.output@) == outputs_upto(q, log@, first_failure(log@))
                    &&& first_failure(log@) < log@.len() ==> report.result == Err::<(), CliError>(
                        CliError::Io(log@[first_failure(log@)]->Failed_0),
                    )
                    &&& first_failure(log@) == log@.len() ==> report.result is Ok
                },
            },
        },
{
    let mut output: Vec<Output> = Vec::new();
    let q = match compile_query(query) {
        Ok(q) => q,
        Err(e) => return RunReport { output, result: Err(e) },
    };
    let ghost qv = q@;
    let mut i: usize = 0;
    while i < log.len()
        invariant
            qv == q@,
            crate::parser::well_formed(qv),
            log@.len() < usize::MAX,
            lex(query@) matches Ok(toks) && parse_spec(toks) == Ok::<QueryView, ParseErrorView>(qv),
            i <= log@.len(),
            forall|j: int| 0 <= j < i ==> log@[j] is Line,
            output_views(output@) == outputs_upto(qv, log@, i as int),
        decreases log.len() - i,
    {
        let ghost before = output_views(output@);
        let number = i + 1;
        let event = match &log[i] {
            LineRead::Line(text) => Event::Read(LineRead::Line(text.clone())),
            LineRead::Failed(f) => Event::Read(LineRead::Failed(f.duplicate())),
        };
        let s = step(&q, number, event);
        match s.action {
            Action::Write(out) => {
                output.push(out);
            },
            Action::ReadNext => {},
            Action::Finish(result) => {
                proof {
                    lemma_failure_from_skip(log@, i as int);
                    assert(log@[i as int] is Failed);
                    assert(failure_from(log@, i as int) == i as int);
                }
                return RunReport { output, result };
            },
        }
        proof {
            if let LineRead::Line(t) = log@[i as int] {
                assert(output_views(output@) =~= before + line_outputs(qv, number as nat, t@));
            }
        }
        i = i + 1;
    }
    proof {
        lemma_failure_from_skip(log@, i as int);
    }
    let end = step(&q, i + 1, Event::EndOfLog);
    let result = match end.action {
        Action::Finish(result) => result,
        _ => Ok(()),
    };
    RunReport { output, result }
}

} // verus!
