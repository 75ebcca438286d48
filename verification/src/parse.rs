//! The line grammar: a section header, or an entry made of a time stamp,
//! two numbers, a level letter and the rest of the line.

use vstd::prelude::*;
use vstd::string::{StrSliceExecFns, StringExecFns};
use crate::log::{LogEntryView, LogLevel, LogLine, LogLineView, MISSING_TAG};
use crate::text::{
    chars_of, decimal_text, decimal_value, find_separator, first_separator, fits, follows,
    is_digit, is_newline, lemma_follows, lemma_run_end_bounds, lemma_run_end_holds, mismatch,
    push_decimal, read_number, run_end, scan_run, scan_template, trim, trim_bounds, CharClass,
};
use crate::timestamp::{current_year, is_moment, is_year, Timestamp};

verus! {

/// What a section header starts with; the name of the section follows.
pub const HEADER_PREFIX: &'static str = "--------- beginning of ";

/// The shape of the time stamp that an entry starts with, the space behind
/// it included. A `0` stands for any digit.
pub const STAMP_TEMPLATE: &'static str = "00-00 00:00:00.000 ";

/// What was expected where a line stopped being a header or an entry.
#[derive(Debug, Clone, Copy, PartialEq, Eq, Structural, Hash)]
pub enum ParseErrorKind {
    /// The text that opens a section header, or the time stamp that opens an
    /// entry.
    LineStart,
    /// The rest of the text that opens a section header.
    HeaderPrefix,
    /// The name of the section.
    SectionName,
    /// A digit or a punctuation mark of the time stamp.
    Stamp,
    /// A time stamp that names a moment that exists.
    Moment,
    /// A number.
    Number,
    /// A number that fits in 32 bits.
    SmallerNumber,
    /// White space between two fields.
    Space,
    /// One of the level letters.
    Level,
    /// The end of the line.
    LineEnd,
}

/// Why a line is neither a header nor an entry, and at which character.
#[derive(Debug, Clone, Copy, PartialEq, Eq, Structural, Hash)]
pub struct ParseError {
    /// Index of the first character that does not fit, counted in characters
    /// from the start of the line.
    pub position: usize,
    pub kind: ParseErrorKind,
}

/// What was made up for while reading a line that is accepted all the same.
#[derive(Debug, Clone, Copy, PartialEq, Eq, Structural, Hash)]
pub enum ParseWarning {
    /// No `": "` parts the tag from the message.
    MissingSeparator,
}

/// A line that was read, and what there is to say about it.
#[derive(Debug, Clone, PartialEq, Eq)]
pub struct Parsed {
    pub line: LogLine,
    pub warning: Option<ParseWarning>,
}

/// What a `Parsed` holds, its texts as sequences of characters.
pub struct ParsedView {
    pub line: LogLineView,
    pub warning: Option<ParseWarning>,
}

impl View for Parsed {
    type V = ParsedView;

    open spec fn view(&self) -> ParsedView {
        ParsedView { line: self.line@, warning: self.warning }
    }
}

impl ParseErrorKind {
    /// What was expected, in words.
    pub open spec fn wanted(self) -> Seq<char> {
        match self {
            ParseErrorKind::LineStart => "a section header or a time stamp"@,
            ParseErrorKind::HeaderPrefix => "the start of a section header"@,
            ParseErrorKind::SectionName => "the name of a section"@,
            ParseErrorKind::Stamp => "a time stamp"@,
            ParseErrorKind::Moment => "a moment that exists"@,
            ParseErrorKind::Number => "a number"@,
            ParseErrorKind::SmallerNumber => "a number of 32 bits"@,
            ParseErrorKind::Space => "white space"@,
            ParseErrorKind::Level => "a level letter"@,
            ParseErrorKind::LineEnd => "the end of the line"@,
        }
    }

    /// What was expected, in words.
    pub fn describe(self) -> (r: &'static str)
        ensures
            r@ == self.wanted(),
    {
        match self {
            ParseErrorKind::LineStart => "a section header or a time stamp",
            ParseErrorKind::HeaderPrefix => "the start of a section header",
            ParseErrorKind::SectionName => "the name of a section",
            ParseErrorKind::Stamp => "a time stamp",
            ParseErrorKind::Moment => "a moment that exists",
            ParseErrorKind::Number => "a number",
            ParseErrorKind::SmallerNumber => "a number of 32 bits",
            ParseErrorKind::Space => "white space",
            ParseErrorKind::Level => "a level letter",
            ParseErrorKind::LineEnd => "the end of the line",
        }
    }
}

impl ParseError {
    /// The error in words: what was expected, and at which character.
    pub open spec fn text(self) -> Seq<char> {
        "failed to parse log line: expected "@ + self.kind.wanted() + " at character "@
            + decimal_text(self.position as nat)
    }

    /// The error in words.
    pub fn message(&self) -> (r: String)
        ensures
            r@ == self.text(),
    {
        let mut out = String::from_str("failed to parse log line: expected ");
        out.append(self.kind.describe());
        out.append(" at character ");
        push_decimal(&mut out, self.position as u64);
        assert(out@ =~= self.text());
        out
    }
}

impl ParseWarning {
    /// The warning in words.
    pub open spec fn text(self) -> Seq<char> {
        "missing ': ' to separate tag and message"@
    }

    /// The warning in words.
    pub fn message(&self) -> (r: String)
        ensures
            r@ == self.text(),
    {
        String::from_str("missing ': ' to separate tag and message")
    }
}

/// The length of the line terminator that stands at `at`: a carriage return
/// with a line feed, or a single end-of-line character.
pub open spec fn terminator_len(s: Seq<char>, at: int) -> int {
    if at < 0 || at >= s.len() {
        0
    } else if s[at] == '\r' && at + 1 < s.len() && s[at + 1] == '\n' {
        2
    } else if is_newline(s[at]) {
        1
    } else {
        0
    }
}

/// Whether nothing but one line terminator, at most, stands from `at` on.
pub open spec fn ends_at(s: Seq<char>, at: int) -> bool {
    at + terminator_len(s, at) == s.len()
}

/// The error of the given kind at the given character.
pub open spec fn error_at(position: int, kind: ParseErrorKind) -> ParseError {
    ParseError { position: position as usize, kind }
}

/// Where the name of the section ends in a line that starts with the header
/// prefix.
pub open spec fn section_name_end(s: Seq<char>) -> int {
    run_end(s, HEADER_PREFIX@.len() as int, CharClass::Word)
}

/// A line read as a section header: the prefix, then a name made of ASCII
/// letters, digits and underscores that does not start with a digit, then
/// the end of the line.
pub open spec fn parse_header(s: Seq<char>) -> Result<ParsedView, ParseError> {
    let start = HEADER_PREFIX@.len() as int;
    let end = section_name_end(s);
    if !follows(s, HEADER_PREFIX@) {
        Err(
            error_at(
                mismatch(s, HEADER_PREFIX@, 0),
                if mismatch(s, HEADER_PREFIX@, 0) == 0 {
                    ParseErrorKind::LineStart
                } else {
                    ParseErrorKind::HeaderPrefix
                },
            ),
        )
    } else if end == start || is_digit(s[start]) {
        Err(error_at(start, ParseErrorKind::SectionName))
    } else if !ends_at(s, end) {
        Err(error_at(end + terminator_len(s, end), ParseErrorKind::LineEnd))
    } else {
        Ok(ParsedView { line: LogLineView::Header(s.subrange(start, end)), warning: None })
    }
}

/// Where a number that starts at `at` ends: behind a single zero, or behind
/// the digits that follow a digit other than zero.
pub open spec fn number_end(s: Seq<char>, at: int) -> int {
    if 0 <= at < s.len() && s[at] == '0' {
        at + 1
    } else {
        run_end(s, at, CharClass::Digit)
    }
}

/// Where the fields of an entry stand in its line.
pub struct EntryLayout {
    pub pid: int,
    pub pid_end: int,
    pub tid: int,
    pub tid_end: int,
    pub level: int,
    pub rest: int,
    pub rest_end: int,
}

/// The fields are looked for from left to right, white space skipped before
/// each; the rest runs up to the first character that ends a line.
pub open spec fn entry_layout(s: Seq<char>) -> EntryLayout {
    let pid = run_end(s, STAMP_TEMPLATE@.len() as int, CharClass::Space);
    let pid_end = number_end(s, pid);
    let tid = run_end(s, pid_end, CharClass::Space);
    let tid_end = number_end(s, tid);
    let level = run_end(s, tid_end, CharClass::Space);
    let rest = run_end(s, level + 1, CharClass::Space);
    let rest_end = run_end(s, rest, CharClass::Inline);
    EntryLayout { pid, pid_end, tid, tid_end, level, rest, rest_end }
}

/// The moment that a time stamp names in a given year, if there is such a
/// moment. `s` starts with text of the shape of `STAMP_TEMPLATE`.
pub open spec fn stamp_moment(s: Seq<char>, year: i32) -> Option<Timestamp> {
    let month = decimal_value(s.subrange(0, 2));
    let day = decimal_value(s.subrange(3, 5));
    let hour = decimal_value(s.subrange(6, 8));
    let minute = decimal_value(s.subrange(9, 11));
    let second = decimal_value(s.subrange(12, 14));
    let millisecond = decimal_value(s.subrange(15, 18));
    if is_moment(
        year as int,
        month as int,
        day as int,
        hour as int,
        minute as int,
        second as int,
        millisecond as int,
    ) {
        Some(
            Timestamp {
                year,
                month: month as u8,
                day: day as u8,
                hour: hour as u8,
                minute: minute as u8,
                second: second as u8,
                millisecond: millisecond as u16,
            },
        )
    } else {
        None
    }
}

/// Tag, message and warning of an entry, from what follows its level: the
/// text is parted at the first `": "`, and both parts are trimmed. Without
/// a `": "` all of it is the message.
pub open spec fn split_rest(rest: Seq<char>) -> (Seq<char>, Seq<char>, Option<ParseWarning>) {
    match first_separator(rest, 0) {
        Some(at) => (trim(rest.take(at)), trim(rest.skip(at + 2)), None),
        None => (MISSING_TAG@, trim(rest), Some(ParseWarning::MissingSeparator)),
    }
}

/// A line read as an entry. The time stamp is followed by the process and
/// the thread number, the level letter and the rest of the line. White
/// space may stand before each of them and has to part each from the next.
pub open spec fn parse_entry(s: Seq<char>, year: i32) -> Result<ParsedView, ParseError> {
    let l = entry_layout(s);
    if !follows(s, STAMP_TEMPLATE@) {
        Err(
            error_at(
                mismatch(s, STAMP_TEMPLATE@, 0),
                if mismatch(s, STAMP_TEMPLATE@, 0) == 0 {
                    ParseErrorKind::LineStart
                } else {
                    ParseErrorKind::Stamp
                },
            ),
        )
    } else if stamp_moment(s, year) is None {
        Err(error_at(0, ParseErrorKind::Moment))
    } else if l.pid_end == l.pid {
        Err(error_at(l.pid, ParseErrorKind::Number))
    } else if decimal_value(s.subrange(l.pid, l.pid_end)) > u32::MAX {
        Err(error_at(l.pid, ParseErrorKind::SmallerNumber))
    } else if l.tid == l.pid_end {
        Err(error_at(l.pid_end, ParseErrorKind::Space))
    } else if l.tid_end == l.tid {
        Err(error_at(l.tid, ParseErrorKind::Number))
    } else if decimal_value(s.subrange(l.tid, l.tid_end)) > u32::MAX {
        Err(error_at(l.tid, ParseErrorKind::SmallerNumber))
    } else if l.level == l.tid_end {
        Err(error_at(l.tid_end, ParseErrorKind::Space))
    } else if l.level >= s.len() || LogLevel::of_letter(s[l.level]) is None {
        Err(error_at(l.level, ParseErrorKind::Level))
    } else if l.rest == l.level + 1 && l.rest < s.len() {
        Err(error_at(l.rest, ParseErrorKind::Space))
    } else if !ends_at(s, l.rest_end) {
        Err(error_at(l.rest_end + terminator_len(s, l.rest_end), ParseErrorKind::LineEnd))
    } else {
        let parts = split_rest(s.subrange(l.rest, l.rest_end));
        Ok(
            ParsedView {
                line: LogLineView::Entry(
                    LogEntryView {
                        datetime: stamp_moment(s, year).unwrap(),
                        pid: decimal_value(s.subrange(l.pid, l.pid_end)) as u32,
                        tid: decimal_value(s.subrange(l.tid, l.tid_end)) as u32,
                        level: LogLevel::of_letter(s[l.level]).unwrap(),
                        tag: parts.0,
                        message: parts.1,
                    },
                ),
                warning: parts.2,
            },
        )
    }
}

/// A line read: as a header, or else as an entry. Where it is neither, the
/// error is that of the reading that got further.
pub open spec fn parse_line(s: Seq<char>, year: i32) -> Result<ParsedView, ParseError> {
    match parse_header(s) {
        Ok(header) => Ok(header),
        Err(no_header) => match parse_entry(s, year) {
            Ok(entry) => Ok(entry),
            Err(no_entry) => Err(
                if no_header.position > no_entry.position {
                    no_header
                } else {
                    no_entry
                },
            ),
        },
    }
}

/// Whether what was read is what the grammar says of the line.
pub open spec fn agrees(
    r: Result<Parsed, ParseError>,
    expected: Result<ParsedView, ParseError>,
) -> bool {
    match r {
        Ok(parsed) => expected == Ok::<ParsedView, ParseError>(parsed@),
        Err(error) => expected == Err::<ParsedView, ParseError>(error),
    }
}

fn terminator_at(chars: &Vec<char>, at: usize) -> (r: usize)
    requires
        at <= chars.len(),
    ensures
        r == terminator_len(chars@, at as int),
        at + r <= chars.len(),
{
    if at >= chars.len() {
        0
    } else if chars[at] == '\r' && at + 1 < chars.len() && chars[at + 1] == '\n' {
        2
    } else if !CharClass::Inline.has(chars[at]) {
        1
    } else {
        0
    }
}

fn read_header(line: &str, chars: &Vec<char>) -> (r: Result<Parsed, ParseError>)
    requires
        chars@ == line@,
    ensures
        agrees(r, parse_header(line@)),
{
    let prefix = chars_of(HEADER_PREFIX);
    let at = scan_template(chars, &prefix);
    if at < prefix.len() {
        let kind = if at == 0 {
            ParseErrorKind::LineStart
        } else {
            ParseErrorKind::HeaderPrefix
        };
        return Err(ParseError { position: at, kind });
    }
    let start = prefix.len();
    let end = scan_run(chars, start, CharClass::Word);
    if end == start || CharClass::Digit.has(chars[start]) {
        return Err(ParseError { position: start, kind: ParseErrorKind::SectionName });
    }
    let terminator = terminator_at(chars, end);
    if end + terminator != chars.len() {
        return Err(ParseError { position: end + terminator, kind: ParseErrorKind::LineEnd });
    }
    let name = line.substring_char(start, end);
    Ok(Parsed { line: LogLine::header(name), warning: None })
}

fn scan_number(chars: &Vec<char>, at: usize) -> (end: usize)
    requires
        at <= chars.len(),
    ensures
        end == number_end(chars@, at as int),
        at <= end <= chars.len(),
        forall|i: int| at <= i < end ==> is_digit(#[trigger] chars@[i]),
{
    if at < chars.len() && chars[at] == '0' {
        at + 1
    } else {
        proof {
            lemma_run_end_holds(chars@, at as int, CharClass::Digit);
        }
        scan_run(chars, at, CharClass::Digit)
    }
}

/// Two or three digits denote a number below a thousand.
proof fn lemma_short_number(s: Seq<char>)
    requires
        s.len() <= 3,
        forall|i: int| 0 <= i < s.len() ==> is_digit(#[trigger] s[i]),
    ensures
        decimal_value(s) <= 999,
        s.len() <= 2 ==> decimal_value(s) <= 99,
{
    reveal_with_fuel(decimal_value, 4);
    if s.len() >= 1 {
        assert(is_digit(s[s.len() - 1]));
        let t = s.drop_last();
        if t.len() >= 1 {
            assert(t[t.len() - 1] == s[s.len() - 2]);
            assert(is_digit(s[s.len() - 2]));
            let u = t.drop_last();
            if u.len() >= 1 {
                assert(u[u.len() - 1] == s[s.len() - 3]);
                assert(is_digit(s[s.len() - 3]));
            }
        }
    }
}

/// Reads the number that the two or three digits `chars[from..to]` denote.
fn read_short(chars: &Vec<char>, from: usize, to: usize) -> (r: u16)
    requires
        from <= to <= chars.len(),
        to - from <= 3,
        forall|i: int| from <= i < to ==> is_digit(#[trigger] chars@[i]),
    ensures
        r == decimal_value(chars@.subrange(from as int, to as int)),
        r <= 999,
        to - from <= 2 ==> r <= 99,
{
    proof {
        lemma_short_number(chars@.subrange(from as int, to as int));
    }
    match read_number(chars, from, to) {
        Some(n) => n as u16,
        None => 0,
    }
}

fn read_moment(chars: &Vec<char>, year: i32) -> (r: Option<Timestamp>)
    requires
        follows(chars@, STAMP_TEMPLATE@),
    ensures
        r == stamp_moment(chars@, year),
{
    proof {
        reveal_strlit("00-00 00:00:00.000 ");
        lemma_follows(chars@, STAMP_TEMPLATE@, 0);
        assert forall|i: int|
            (0 <= i < 2 || 3 <= i < 5 || 6 <= i < 8 || 9 <= i < 11 || 12 <= i < 14 || 15 <= i
                < 18) implies is_digit(#[trigger] chars@[i]) by {
            assert(fits(STAMP_TEMPLATE@[i], chars@[i]));
        }
    }
    let month = read_short(chars, 0, 2);
    let day = read_short(chars, 3, 5);
    let hour = read_short(chars, 6, 8);
    let minute = read_short(chars, 9, 11);
    let second = read_short(chars, 12, 14);
    let millisecond = read_short(chars, 15, 18);
    Timestamp::new(
        year,
        month as u8,
        day as u8,
        hour as u8,
        minute as u8,
        second as u8,
        millisecond,
    )
}

/// Parts what follows the level, `chars[from..to]`, into tag and message.
fn read_rest(line: &str, chars: &Vec<char>, from: usize, to: usize) -> (r: (
    String,
    String,
    Option<ParseWarning>,
))
    requires
        chars@ == line@,
        from <= to <= chars.len(),
    ensures
        (r.0@, r.1@, r.2) == split_rest(chars@.subrange(from as int, to as int)),
{
    let ghost rest = chars@.subrange(from as int, to as int);
    match find_separator(chars, from, to) {
        Some(at) => {
            let tag = trim_bounds(chars, from, at);
            let message = trim_bounds(chars, at + 2, to);
            proof {
                assert(rest.take(at - from) == chars@.subrange(from as int, at as int));
                assert(rest.skip(at - from + 2) == chars@.subrange(at + 2, to as int));
            }
            (
                String::from_str(line.substring_char(tag.0, tag.1)),
                String::from_str(line.substring_char(message.0, message.1)),
                None,
            )
        },
        None => {
            let message = trim_bounds(chars, from, to);
            (
                String::from_str(MISSING_TAG),
                String::from_str(line.substring_char(message.0, message.1)),
                Some(ParseWarning::MissingSeparator),
            )
        },
    }
}

fn read_entry(line: &str, chars: &Vec<char>, year: i32) -> (r: Result<Parsed, ParseError>)
    requires
        chars@ == line@,
    ensures
        agrees(r, parse_entry(line@, year)),
{
    let ghost l = entry_layout(chars@);
    let template = chars_of(STAMP_TEMPLATE);
    let at = scan_template(chars, &template);
    if at < template.len() {
        let kind = if at == 0 {
            ParseErrorKind::LineStart
        } else {
            ParseErrorKind::Stamp
        };
        return Err(ParseError { position: at, kind });
    }
    let datetime = match read_moment(chars, year) {
        Some(moment) => moment,
        None => {
            return Err(ParseError { position: 0, kind: ParseErrorKind::Moment });
        },
    };
    let pid_at = scan_run(chars, template.len(), CharClass::Space);
    let pid_end = scan_number(chars, pid_at);
    if pid_end == pid_at {
        return Err(ParseError { position: pid_at, kind: ParseErrorKind::Number });
    }
    let pid = match read_number(chars, pid_at, pid_end) {
        Some(n) => n,
        None => {
            return Err(ParseError { position: pid_at, kind: ParseErrorKind::SmallerNumber });
        },
    };
    let tid_at = scan_run(chars, pid_end, CharClass::Space);
    if tid_at == pid_end {
        return Err(ParseError { position: pid_end, kind: ParseErrorKind::Space });
    }
    let tid_end = scan_number(chars, tid_at);
    if tid_end == tid_at {
        return Err(ParseError { position: tid_at, kind: ParseErrorKind::Number });
    }
    let tid = match read_number(chars, tid_at, tid_end) {
        Some(n) => n,
        None => {
            return Err(ParseError { position: tid_at, kind: ParseErrorKind::SmallerNumber });
        },
    };
    let level_at = scan_run(chars, tid_end, CharClass::Space);
    if level_at == tid_end {
        return Err(ParseError { position: tid_end, kind: ParseErrorKind::Space });
    }
    if level_at >= chars.len() {
        return Err(ParseError { position: level_at, kind: ParseErrorKind::Level });
    }
    let level = match LogLevel::from_letter(chars[level_at]) {
        Some(level) => level,
        None => {
            return Err(ParseError { position: level_at, kind: ParseErrorKind::Level });
        },
    };
    let rest_at = scan_run(chars, level_at + 1, CharClass::Space);
    if rest_at == level_at + 1 && rest_at < chars.len() {
        return Err(ParseError { position: rest_at, kind: ParseErrorKind::Space });
    }
    let rest_end = scan_run(chars, rest_at, CharClass::Inline);
    let terminator = terminator_at(chars, rest_end);
    if rest_end + terminator != chars.len() {
        return Err(
            ParseError { position: rest_end + terminator, kind: ParseErrorKind::LineEnd },
        );
    }
    let (tag, message, warning) = read_rest(line, chars, rest_at, rest_end);
    Ok(Parsed { line: LogLine::entry(datetime, pid, tid, level, tag, message), warning })
}

/// In a line that starts with a hyphen only the reading as a header gets
/// past the first character; in any other line it stops there.
proof fn lemma_first_character(s: Seq<char>, year: i32)
    requires
        s.len() <= usize::MAX,
    ensures
        s.len() > 0 && s[0] == '-' ==> parse_line(s, year) == parse_header(s),
        !(s.len() > 0 && s[0] == '-') ==> parse_line(s, year) == parse_entry(s, year),
{
    reveal_strlit("--------- beginning of ");
    reveal_strlit("00-00 00:00:00.000 ");
    let prefix = HEADER_PREFIX@;
    let template = STAMP_TEMPLATE@;
    assert(prefix.len() == 23 && prefix[0] == '-');
    assert(template.len() == 19 && template[0] == '0');
    lemma_follows(s, prefix, 0);
    lemma_follows(s, template, 0);
    if s.len() > 0 && s[0] == '-' {
        assert(fits(prefix[0], s[0]));
        assert(mismatch(s, prefix, 0) == mismatch(s, prefix, 1));
        lemma_follows(s, prefix, 1);
        assert(!fits(template[0], s[0]));
        assert(mismatch(s, template, 0) == 0);
        if follows(s, prefix) {
            lemma_run_end_bounds(s, prefix.len() as int, CharClass::Word);
        }
        assert(parse_entry(s, year) == Err::<ParsedView, ParseError>(
            error_at(0, ParseErrorKind::LineStart),
        ));
    } else {
        assert(mismatch(s, prefix, 0) == 0);
    }
}

/// Reads one line of logcat output, its time stamp taken to lie in `year`.
pub fn parse_log_line_in_year(line: &str, year: i32) -> (r: Result<Parsed, ParseError>)
    ensures
        agrees(r, parse_line(line@, year)),
{
    let chars = chars_of(line);
    proof {
        lemma_first_character(line@, year);
    }
    if chars.len() > 0 && chars[0] == '-' {
        read_header(line, &chars)
    } else {
        read_entry(line, &chars, year)
    }
}

/// Whether `r` is what reading `s` gives when its time stamp is taken to
/// lie in `year`, the warning left aside.
pub open spec fn reads_as(r: Result<LogLine, ParseError>, s: Seq<char>, year: i32) -> bool {
    match r {
        Ok(line) => parse_line(s, year) is Ok && parse_line(s, year).unwrap().line == line@,
        Err(error) => parse_line(s, year) == Err::<ParsedView, ParseError>(error),
    }
}

/// Whether the time stamp that `s` starts with names the 29th of February,
/// the one day that not every year has.
pub open spec fn names_leap_day(s: Seq<char>) -> bool {
    decimal_value(s.subrange(0, 2)) == 2 && decimal_value(s.subrange(3, 5)) == 29
}

/// A record, its moment moved to `year` if it is an entry.
pub open spec fn line_in_year(line: LogLineView, year: i32) -> LogLineView {
    match line {
        LogLineView::Header(_) => line,
        LogLineView::Entry(entry) => LogLineView::Entry(
            LogEntryView { datetime: Timestamp { year, ..entry.datetime }, ..entry },
        ),
    }
}

/// What was read, its moment moved to `year` if it is an entry.
pub open spec fn in_year(parsed: ParsedView, year: i32) -> ParsedView {
    ParsedView { line: line_in_year(parsed.line, year), ..parsed }
}

/// Whether `r` is what reading `s` gives when its time stamp is taken to
/// lie in `year`, but for the year of the moment.
pub open spec fn agrees_but_for_year(
    r: Result<Parsed, ParseError>,
    s: Seq<char>,
    year: i32,
) -> bool {
    match r {
        Ok(parsed) => parse_line(s, year) == Ok::<ParsedView, ParseError>(in_year(parsed@, year)),
        Err(error) => parse_line(s, year) == Err::<ParsedView, ParseError>(error),
    }
}

/// Whether `r` is what reading `s` gives when its time stamp is taken to
/// lie in `year`, but for the year of the moment, the warning left aside.
pub open spec fn reads_but_for_year(
    r: Result<LogLine, ParseError>,
    s: Seq<char>,
    year: i32,
) -> bool {
    match r {
        Ok(line) => parse_line(s, year) is Ok && parse_line(s, year).unwrap().line
            == line_in_year(line@, year),
        Err(error) => parse_line(s, year) == Err::<ParsedView, ParseError>(error),
    }
}

/// The year matters to the 29th of February only: any other line is read
/// in every year as it is read in one, but for the year of its moment, and
/// is refused in every year if it is refused in one, for the same reason.
pub proof fn lemma_year_matters_little(s: Seq<char>, year: i32, other: i32)
    requires
        is_year(year as int),
        is_year(other as int),
        !names_leap_day(s),
    ensures
        match parse_line(s, year) {
            Ok(parsed) => parse_line(s, other) == Ok::<ParsedView, ParseError>(
                in_year(parsed, other),
            ),
            Err(error) => parse_line(s, other) == Err::<ParsedView, ParseError>(error),
        },
{
    assert(stamp_moment(s, year) is Some <==> stamp_moment(s, other) is Some);
}

/// Reads one line of logcat output; what was made up for while reading it
/// is returned with it. A log line names no year: its time stamp is taken
/// to lie in the year that the clock shows when it is read. But for a line
/// of the 29th of February, that year changes nothing but the year of the
/// moment that is read.
pub fn parse_log_line_now(line: &str) -> (r: Result<Parsed, ParseError>)
    ensures
        exists|year: i32| is_year(year as int) && #[trigger] agrees(r, parse_line(line@, year)),
        !names_leap_day(line@) ==> forall|year: i32|
            is_year(year as int) ==> #[trigger] agrees_but_for_year(r, line@, year),
{
    let year = current_year();
    let r = parse_log_line_in_year(line, year);
    proof {
        assert(agrees(r, parse_line(line@, year)));
        if !names_leap_day(line@) {
            assert forall|other: i32| is_year(other as int) implies #[trigger] agrees_but_for_year(
                r,
                line@,
                other,
            ) by {
                lemma_year_matters_little(line@, year, other);
            }
        }
    }
    r
}

/// Reads one line of logcat output. A log line names no year: its time
/// stamp is taken to lie in the year that the clock shows when it is read.
/// But for a line of the 29th of February, that year changes nothing but
/// the year of the moment that is read.
pub fn parse_log_line(line: &str) -> (r: Result<LogLine, ParseError>)
    ensures
        exists|year: i32| is_year(year as int) && #[trigger] reads_as(r, line@, year),
        !names_leap_day(line@) ==> forall|year: i32|
            is_year(year as int) ==> #[trigger] reads_but_for_year(r, line@, year),
{
    let parsed = parse_log_line_now(line);
    let r = match parsed {
        Ok(parsed) => Ok(parsed.line),
        Err(error) => Err(error),
    };
    proof {
        let year = choose|year: i32|
            is_year(year as int) && #[trigger] agrees(parsed, parse_line(line@, year));
        assert(reads_as(r, line@, year));
        if !names_leap_day(line@) {
            assert forall|other: i32| is_year(other as int) implies #[trigger] reads_but_for_year(
                r,
                line@,
                other,
            ) by {
                assert(agrees_but_for_year(parsed, line@, other));
            }
        }
    }
    r
}

/// Reads lines of logcat output.
#[derive(Debug, Clone, Copy, PartialEq, Eq, Structural)]
pub struct LogcatParser;

impl LogcatParser {
    /// A parser. It keeps nothing from one line to the next.
    pub fn new() -> (r: Self) {
        LogcatParser
    }

    /// Reads one line, its time stamp taken to lie in the present year.
    pub fn parse_log_line(&self, line: &str) -> (r: Result<LogLine, ParseError>)
        ensures
            exists|year: i32| is_year(year as int) && #[trigger] reads_as(r, line@, year),
            !names_leap_day(line@) ==> forall|year: i32|
                is_year(year as int) ==> #[trigger] reads_but_for_year(r, line@, year),
    {
        parse_log_line(line)
    }

    /// Reads one line, its time stamp taken to lie in the present year; what
    /// was made up for while reading it is returned with it.
    pub fn parse_log_line_now(&self, line: &str) -> (r: Result<Parsed, ParseError>)
        ensures
            exists|year: i32| is_year(year as int) && #[trigger] agrees(r, parse_line(line@, year)),
            !names_leap_day(line@) ==> forall|year: i32|
                is_year(year as int) ==> #[trigger] agrees_but_for_year(r, line@, year),
    {
        parse_log_line_now(line)
    }
}

} // verus!
