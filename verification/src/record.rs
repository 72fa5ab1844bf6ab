use vstd::prelude::*;
use vstd::string::StringExecFns;

use crate::text::{chars_of, is_whitespace, string_of, text_eq, unicode_whitespace};

verus! {

/// The severity of a log line.
#[derive(Debug, PartialEq, Eq, Structural, Clone, Copy)]
pub enum Level {
    Error,
    Warn,
    Info,
    Debug,
}

/// The exact spelling of a level in a log line.
pub open spec fn level_text(level: Level) -> Seq<char> {
    match level {
        Level::Error => seq!['E', 'R', 'R', 'O', 'R'],
        Level::Warn => seq!['W', 'A', 'R', 'N'],
        Level::Info => seq!['I', 'N', 'F', 'O'],
        Level::Debug => seq!['D', 'E', 'B', 'U', 'G'],
    }
}

/// The level that a word spells, if any.
pub open spec fn level_named(w: Seq<char>) -> Option<Level> {
    if w == level_text(Level::Error) {
        Some(Level::Error)
    } else if w == level_text(Level::Warn) {
        Some(Level::Warn)
    } else if w == level_text(Level::Info) {
        Some(Level::Info)
    } else if w == level_text(Level::Debug) {
        Some(Level::Debug)
    } else {
        None
    }
}

impl Level {
    /// The spelling of this level in a log line: `ERROR`, `WARN`, `INFO` or `DEBUG`.
    pub fn as_text(&self) -> (r: &'static str)
        ensures
            r@ == level_text(*self),
    {
        proof {
            reveal_strlit("ERROR");
            reveal_strlit("WARN");
            reveal_strlit("INFO");
            reveal_strlit("DEBUG");
        }
        match self {
            Level::Error => "ERROR",
            Level::Warn => "WARN",
            Level::Info => "INFO",
            Level::Debug => "DEBUG",
        }
    }

    /// The level spelled exactly `text`, if any.
    pub fn from_text(text: &str) -> (r: Option<Level>)
        ensures
            r == level_named(text@),
    {
        proof {
            reveal_strlit("ERROR");
            reveal_strlit("WARN");
            reveal_strlit("INFO");
            reveal_strlit("DEBUG");
            assert("ERROR"@ =~= level_text(Level::Error));
            assert("WARN"@ =~= level_text(Level::Warn));
            assert("INFO"@ =~= level_text(Level::Info));
            assert("DEBUG"@ =~= level_text(Level::Debug));
        }
        if text_eq(text, "ERROR") {
            Some(Level::Error)
        } else if text_eq(text, "WARN") {
            Some(Level::Warn)
        } else if text_eq(text, "INFO") {
            Some(Level::Info)
        } else if text_eq(text, "DEBUG") {
            Some(Level::Debug)
        } else {
            None
        }
    }
}

/// One log line, split into its fields. `source` is held without its brackets.
#[derive(Debug, PartialEq)]
pub struct LogRecord {
    pub timestamp: String,
    pub level: Level,
    pub source: String,
    pub message: String,
}

/// A log record with its strings taken as sequences of characters.
pub struct LogLine {
    pub timestamp: Seq<char>,
    pub level: Level,
    pub source: Seq<char>,
    pub message: Seq<char>,
}

impl View for LogRecord {
    type V = LogLine;

    open spec fn view(&self) -> LogLine {
        LogLine {
            timestamp: self.timestamp@,
            level: self.level,
            source: self.source@,
            message: self.message@,
        }
    }
}

/// The first structural check that a malformed log line fails.
#[derive(Debug, PartialEq, Eq, Structural, Clone, Copy)]
pub enum LineErrorKind {
    /// Fewer than three space-separated fields.
    MissingField,
    /// The second field holds a bracket: the level was left out.
    MissingLevel,
    /// The third field is not `[source]` followed by a space.
    MissingSourceBrackets,
    /// The source is empty or whitespace once its brackets are stripped.
    EmptySource,
    /// The timestamp is not `YYYY-MM-DDTHH:MM:SSZ`.
    InvalidTimestamp,
    /// The level is not one of `ERROR`, `WARN`, `INFO`, `DEBUG`.
    UnknownLevel,
}

/// A malformed log line: its number (the first line is line 1) and what is wrong with it.
#[derive(Debug, PartialEq, Eq, Structural, Clone, Copy)]
pub struct AnalyzerError {
    pub line: usize,
    pub kind: LineErrorKind,
}

/// Index of the first `c` at or after `i` in `s`, or `s.len()` when there is none.
pub open spec fn index_of(s: Seq<char>, c: char, i: int) -> int
    decreases s.len() - i,
{
    if i < 0 || i >= s.len() {
        s.len() as int
    } else if s[i] == c {
        i
    } else {
        index_of(s, c, i + 1)
    }
}

pub proof fn lemma_index_of(s: Seq<char>, c: char, i: int)
    requires
        0 <= i <= s.len(),
    ensures
        i <= index_of(s, c, i) <= s.len(),
        index_of(s, c, i) < s.len() ==> s[index_of(s, c, i)] == c,
        forall|k: int| i <= k < index_of(s, c, i) ==> s[k] != c,
    decreases s.len() - i,
{
    if i < s.len() && s[i] != c {
        lemma_index_of(s, c, i + 1);
    }
}

pub proof fn lemma_index_of_is(s: Seq<char>, c: char, a: int, b: int)
    requires
        0 <= a <= b <= s.len(),
        forall|k: int| a <= k < b ==> s[k] != c,
        b == s.len() || s[b] == c,
    ensures
        index_of(s, c, a) == b,
    decreases b - a,
{
    if a < b {
        lemma_index_of_is(s, c, a + 1, b);
    }
}

/// The character that position `i` of a timestamp must hold; digits are checked apart.
pub open spec fn timestamp_char_ok(i: int, c: char) -> bool {
    if i == 4 || i == 7 {
        c == '-'
    } else if i == 10 {
        c == 'T'
    } else if i == 13 || i == 16 {
        c == ':'
    } else if i == 19 {
        c == 'Z'
    } else {
        '0' <= c <= '9'
    }
}

/// `YYYY-MM-DDTHH:MM:SSZ`: twenty characters with a literal `Z` at the end.
pub open spec fn timestamp_shape(ts: Seq<char>) -> bool {
    ts.len() == 20 && forall|i: int| 0 <= i < 20 ==> timestamp_char_ok(i, #[trigger] ts[i])
}

/// Every character of `s[a..b]` is whitespace (so an empty range counts).
pub open spec fn blank(s: Seq<char>, a: int, b: int) -> bool {
    forall|k: int| a <= k < b ==> unicode_whitespace(#[trigger] s[k])
}

/// How a log line splits into its fields, checked in this order: three
/// space-separated fields; no bracket in the level; `[source] ` after the
/// level; a source that is not blank; a well-shaped timestamp; a known level.
/// The message is everything after `] `.
pub open spec fn parse_line(l: Seq<char>) -> Result<LogLine, LineErrorKind> {
    let sp1 = index_of(l, ' ', 0);
    let sp2 = index_of(l, ' ', sp1 + 1);
    let open = sp2 + 1;
    let close = index_of(l, ']', open + 1);
    if sp1 >= l.len() || sp2 >= l.len() {
        Err(LineErrorKind::MissingField)
    } else if index_of(l, '[', sp1 + 1) < sp2 || index_of(l, ']', sp1 + 1) < sp2 {
        Err(LineErrorKind::MissingLevel)
    } else if open >= l.len() || l[open] != '[' || close + 1 >= l.len() || l[close + 1] != ' ' {
        Err(LineErrorKind::MissingSourceBrackets)
    } else if blank(l, open + 1, close) {
        Err(LineErrorKind::EmptySource)
    } else if !timestamp_shape(l.subrange(0, sp1)) {
        Err(LineErrorKind::InvalidTimestamp)
    } else if level_named(l.subrange(sp1 + 1, sp2)) is None {
        Err(LineErrorKind::UnknownLevel)
    } else {
        Ok(
            LogLine {
                timestamp: l.subrange(0, sp1),
                level: level_named(l.subrange(sp1 + 1, sp2))->0,
                source: l.subrange(open + 1, close),
                message: l.subrange(close + 2, l.len() as int),
            },
        )
    }
}

/// A record written back as a log line: `timestamp LEVEL [source] message`.
pub open spec fn render(r: LogLine) -> Seq<char> {
    r.timestamp + seq![' '] + level_text(r.level) + seq![' ', '['] + r.source + seq![']', ' ']
        + r.message
}

/// Index of the first `c` in `v[from..]`, or `v.len()`.
fn find_char(v: &Vec<char>, c: char, from: usize) -> (r: usize)
    requires
        from <= v.len(),
    ensures
        r == index_of(v@, c, from as int),
{
    let mut i = from;
    while i < v.len() && v[i] != c
        invariant
            from <= i <= v.len(),
            forall|k: int| from <= k < i ==> v@[k] != c,
        decreases v.len() - i,
    {
        i = i + 1;
    }
    proof {
        lemma_index_of_is(v@, c, from as int, i as int);
    }
    i
}

/// Whether every character of `v[a..b]` is whitespace.
fn is_blank(v: &Vec<char>, a: usize, b: usize) -> (r: bool)
    requires
        a <= b <= v.len(),
    ensures
        r == blank(v@, a as int, b as int),
{
    let mut i = a;
    while i < b
        invariant
            a <= i <= b <= v.len(),
            blank(v@, a as int, i as int),
        decreases b - i,
    {
        if !is_whitespace(v[i]) {
            return false;
        }
        i = i + 1;
    }
    true
}

/// Whether `v[a..b]` has the shape of a timestamp.
fn is_timestamp(v: &Vec<char>, a: usize, b: usize) -> (r: bool)
    requires
        a <= b <= v.len(),
    ensures
        r == timestamp_shape(v@.subrange(a as int, b as int)),
{
    if b - a != 20 {
        return false;
    }
    let mut i: usize = 0;
    while i < 20
        invariant
            a <= b <= v.len(),
            b - a == 20,
            i <= 20,
            forall|k: int| 0 <= k < i ==> timestamp_char_ok(k, #[trigger] v@.subrange(a as int, b as int)[k]),
        decreases 20 - i,
    {
        let c = v[a + i];
        let ok = if i == 4 || i == 7 {
            c == '-'
        } else if i == 10 {
            c == 'T'
        } else if i == 13 || i == 16 {
            c == ':'
        } else if i == 19 {
            c == 'Z'
        } else {
            '0' <= c && c <= '9'
        };
        assert(v@.subrange(a as int, b as int)[i as int] == c);
        if !ok {
            return false;
        }
        i = i + 1;
    }
    true
}

impl LogRecord {
    /// Splits one log line into a record; `line_number` names the line in the error.
    pub fn parse(line: &str, line_number: usize) -> (r: Result<LogRecord, AnalyzerError>)
        ensures
            match r {
                Ok(rec) => parse_line(line@) == Ok::<LogLine, LineErrorKind>(rec@),
                Err(e) => e.line == line_number && parse_line(line@) == Err::<LogLine, LineErrorKind>(e.kind),
            },
    {
        let v = chars_of(line);
        let n = v.len();
        let ghost l = v@;
        let sp1 = find_char(&v, ' ', 0);
        let sp2 = if sp1 < n { find_char(&v, ' ', sp1 + 1) } else { n };
        proof {
            lemma_index_of(l, ' ', 0);
            if sp1 < n {
                lemma_index_of(l, ' ', sp1 + 1);
            }
        }
        if sp1 >= n || sp2 >= n {
            return Err(AnalyzerError { line: line_number, kind: LineErrorKind::MissingField });
        }
        let lb = find_char(&v, '[', sp1 + 1);
        let rb = find_char(&v, ']', sp1 + 1);
        if lb < sp2 || rb < sp2 {
            return Err(AnalyzerError { line: line_number, kind: LineErrorKind::MissingLevel });
        }
        let open = sp2 + 1;
        if open >= n || v[open] != '[' {
            return Err(AnalyzerError { line: line_number, kind: LineErrorKind::MissingSourceBrackets });
        }
        let close = find_char(&v, ']', open + 1);
        proof {
            lemma_index_of(l, ']', open + 1);
        }
        if close >= n || n - close < 2 || v[close + 1] != ' ' {
            return Err(AnalyzerError { line: line_number, kind: LineErrorKind::MissingSourceBrackets });
        }
        if is_blank(&v, open + 1, close) {
            return Err(AnalyzerError { line: line_number, kind: LineErrorKind::EmptySource });
        }
        if !is_timestamp(&v, 0, sp1) {
            return Err(AnalyzerError { line: line_number, kind: LineErrorKind::InvalidTimestamp });
        }
        let level_word = string_of(&v, sp1 + 1, sp2);
        let level = match Level::from_text(level_word.as_str()) {
            Some(level) => level,
            None => return Err(AnalyzerError { line: line_number, kind: LineErrorKind::UnknownLevel }),
        };
        Ok(LogRecord {
            timestamp: string_of(&v, 0, sp1),
            level,
            source: string_of(&v, open + 1, close),
            message: string_of(&v, close + 2, n),
        })
    }

    /// The record written back as a log line: `timestamp LEVEL [source] message`.
    pub fn to_line(&self) -> (r: String)
        ensures
            r@ == render(self@),
    {
        proof {
            reveal_strlit(" ");
            reveal_strlit(" [");
            reveal_strlit("] ");
        }
        let mut out = String::new();
        out.append(self.timestamp.as_str());
        out.append(" ");
        out.append(self.level.as_text());
        out.append(" [");
        out.append(self.source.as_str());
        out.append("] ");
        out.append(self.message.as_str());
        assert(out@ =~= render(self@));
        out
    }
}

} // verus!
