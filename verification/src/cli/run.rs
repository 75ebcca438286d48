//! From options to a filter and an input, and from a line of input to what
//! is printed for it.

use vstd::prelude::*;
use vstd::string::StringExecFns;
use crate::cli::args::{Args, Filter};
use crate::filter::{
    all_let_through, any_lets_through, as_compiled, compiles, lemma_and_filter,
    lemma_moment_is_not_tested, lemma_or_filter, refused_pattern, AndFilter, AnyFilter,
    LevelFilter, MessageFilter, OrFilter, PatternError, PatternField, PidFilter, TagFilter,
    TidFilter,
};
use crate::format::formatter::{rendered, width_after, LogcatFormatter};
use crate::format::log_line::FormattedLogLine;
use crate::input::{decode_line, lossy_text};
use crate::log::{LogEntryView, LogLine, LogLineView};
use crate::parse::{
    in_year, lemma_year_matters_little, names_leap_day, parse_line, parse_log_line_in_year,
    ParseError, ParseWarning,
};
use crate::pattern::{compiled_language, regex_language};
use crate::timestamp::{current_year, is_year, Timestamp};

verus! {

/// Where the lines are read from.
#[derive(Debug, Clone, PartialEq, Eq)]
pub enum InputSource {
    /// The file of this path.
    File(String),
    /// The standard input.
    Stdin,
    /// The output of `adb logcat`.
    Process,
}

/// What an `InputSource` holds, its path as a sequence of characters.
pub enum InputSourceView {
    File(Seq<char>),
    Stdin,
    Process,
}

impl View for InputSource {
    type V = InputSourceView;

    open spec fn view(&self) -> InputSourceView {
        match self {
            InputSource::File(path) => InputSourceView::File(path@),
            InputSource::Stdin => InputSourceView::Stdin,
            InputSource::Process => InputSourceView::Process,
        }
    }
}

/// The input that was chosen, and whether the standard input was asked for
/// though nothing is piped into it.
#[derive(Debug, Clone, PartialEq, Eq)]
pub struct InputChoice {
    pub source: InputSource,
    pub stdin_not_piped: bool,
}

/// A file that is named comes first, then the request to run `adb logcat`,
/// then the standard input where something is piped into it or it was asked
/// for. With none of these `adb logcat` is run.
pub fn select_input(args: &Args, piped: bool) -> (r: InputChoice)
    ensures
        r.source@ == (match args.input.input_file {
            Some(path) => InputSourceView::File(path@),
            None => if args.input.exec_adb_logcat {
                InputSourceView::Process
            } else if piped || args.stdin {
                InputSourceView::Stdin
            } else {
                InputSourceView::Process
            },
        }),
        r.stdin_not_piped == (args.input.input_file is None && !args.input.exec_adb_logcat
            && !piped && args.stdin),
{
    match &args.input.input_file {
        Some(path) => InputChoice {
            source: InputSource::File(String::from_str(path.as_str())),
            stdin_not_piped: false,
        },
        None => if args.input.exec_adb_logcat {
            InputChoice { source: InputSource::Process, stdin_not_piped: false }
        } else if piped {
            InputChoice { source: InputSource::Stdin, stdin_not_piped: false }
        } else if args.stdin {
            InputChoice { source: InputSource::Stdin, stdin_not_piped: true }
        } else {
            InputChoice { source: InputSource::Process, stdin_not_piped: false }
        },
    }
}

/// The text of a field of an entry.
pub open spec fn field_text(entry: LogEntryView, field: PatternField) -> Seq<char> {
    match field {
        PatternField::Tag => entry.tag,
        PatternField::Message => entry.message,
    }
}

/// Whether the expression `given` for `field` is taken and finds a match
/// in `text`: for a tag one that is all of `text`, for a message one
/// anywhere in it.
pub open spec fn accepts(given: Seq<char>, field: PatternField, text: Seq<char>) -> bool {
    compiles(given, field) && compiled_language(as_compiled(given, field)).unwrap().contains(
        text,
    )
}

/// Whether one of the expressions `given` for `field` accepts `text`.
pub open spec fn one_accepts(given: Seq<String>, field: PatternField, text: Seq<char>) -> bool {
    exists|i: int| 0 <= i < given.len() && accepts((#[trigger] given[i])@, field, text)
}

/// Whether all of the expressions `given` for `field` are taken.
pub open spec fn all_compile(given: Seq<String>, field: PatternField) -> bool {
    forall|i: int| 0 <= i < given.len() ==> compiles((#[trigger] given[i])@, field)
}

/// Whether `pattern` is what is reported of the first among the expressions
/// `given` for `field` that is not taken.
pub open spec fn first_refused(
    given: Seq<String>,
    field: PatternField,
    pattern: Seq<char>,
) -> bool {
    exists|k: int|
        0 <= k < given.len() && !compiles((#[trigger] given[k])@, field) && refused_pattern(
            given[k]@,
            field,
        ) == pattern && all_compile(given.take(k), field)
}

/// The entries that the options ask for: those that pass every test that
/// is given. Of several expressions for the tag, or for the message, one
/// has to match.
pub open spec fn selects(config: &Filter, entry: LogEntryView) -> bool {
    &&& config.pid matches Some(pid) ==> entry.pid == pid
    &&& config.tid matches Some(tid) ==> entry.tid == tid
    &&& config.level matches Some(level) ==> entry.level.rank() >= level.rank()
    &&& config.tag matches Some(tags) ==> one_accepts(tags@, PatternField::Tag, entry.tag)
    &&& config.message matches Some(messages) ==> one_accepts(
        messages@,
        PatternField::Message,
        entry.message,
    )
}

/// Whether `filter` tests `field` against the expression `given`.
spec fn tests_pattern(filter: AnyFilter, given: Seq<char>, field: PatternField) -> bool {
    &&& compiles(given, field)
    &&& match filter {
        AnyFilter::Tag(f) => field == PatternField::Tag && compiled_language(
            as_compiled(given, field),
        ) == Some(f.language()),
        AnyFilter::Message(f) => field == PatternField::Message && compiled_language(
            as_compiled(given, field),
        ) == Some(regex_language(f.0)),
        _ => false,
    }
}

/// Compiles the expressions for one field, in their order.
fn compile_group(given: &Vec<String>, field: PatternField) -> (r: Result<
    Vec<AnyFilter>,
    PatternError,
>)
    ensures
        match r {
            Ok(filters) => filters@.len() == given@.len() && forall|i: int|
                0 <= i < given@.len() ==> tests_pattern(#[trigger] filters@[i], given@[i]@, field),
            Err(error) => first_refused(given@, field, error.pattern@) && error.field == field,
        },
{
    let mut filters: Vec<AnyFilter> = Vec::new();
    let mut i: usize = 0;
    while i < given.len()
        invariant
            i <= given.len(),
            filters@.len() == i,
            forall|k: int| 0 <= k < i ==> tests_pattern(#[trigger] filters@[k], given@[k]@, field),
        decreases given.len() - i,
    {
        let made = match field {
            PatternField::Tag => match TagFilter::new(given[i].as_str()) {
                Ok(filter) => Ok(AnyFilter::Tag(filter)),
                Err(error) => Err(error),
            },
            PatternField::Message => match MessageFilter::new(given[i].as_str()) {
                Ok(filter) => Ok(AnyFilter::Message(filter)),
                Err(error) => Err(error),
            },
        };
        match made {
            Ok(filter) => {
                filters.push(filter);
            },
            Err(error) => {
                proof {
                    assert forall|k: int| 0 <= k < given@.take(i as int).len() implies compiles(
                        (#[trigger] given@.take(i as int)[k])@,
                        field,
                    ) by {
                        assert(tests_pattern(filters@[k], given@[k]@, field));
                    }
                    assert(refused_pattern(given@[i as int]@, field) == error.pattern@);
                }
                return Err(error);
            },
        }
        i += 1;
    }
    Ok(filters)
}

/// Where every filter of a group tests its field against the expression at
/// its place, the group lets through what one of the expressions accepts.
proof fn lemma_group(
    filters: Seq<AnyFilter>,
    given: Seq<String>,
    field: PatternField,
    entry: LogEntryView,
)
    requires
        filters.len() == given.len(),
        forall|i: int|
            0 <= i < given.len() ==> tests_pattern(#[trigger] filters[i], given[i]@, field),
    ensures
        any_lets_through(filters, entry) == one_accepts(given, field, field_text(entry, field)),
{
    let text = field_text(entry, field);
    assert forall|i: int| 0 <= i < given.len() implies (#[trigger] filters[i]).lets_through(entry)
        == accepts(given[i]@, field, text) by {
        assert(tests_pattern(filters[i], given[i]@, field));
    }
    if any_lets_through(filters, entry) {
        let i = choose|i: int|
            0 <= i < filters.len() && (#[trigger] filters[i]).lets_through(entry);
        assert(accepts(given[i]@, field, text));
    }
    if one_accepts(given, field, text) {
        let i = choose|i: int|
            0 <= i < given.len() && accepts((#[trigger] given[i])@, field, text);
        assert(filters[i].lets_through(entry));
    }
}

/// Makes the filter that lets through what one of the expressions `given`
/// for `field` accepts.
fn one_of(given: &Vec<String>, field: PatternField) -> (r: Result<AnyFilter, PatternError>)
    ensures
        match r {
            Ok(filter) => {
                &&& filter is Or
                &&& all_compile(given@, field)
                &&& forall|entry: LogEntryView| #[trigger]
                    filter.lets_through(entry) == one_accepts(
                        given@,
                        field,
                        field_text(entry, field),
                    )
            },
            Err(error) => first_refused(given@, field, error.pattern@) && error.field == field,
        },
{
    let group = match compile_group(given, field) {
        Ok(group) => group,
        Err(error) => {
            return Err(error);
        },
    };
    proof {
        assert forall|i: int| 0 <= i < given@.len() implies compiles(
            (#[trigger] given@[i])@,
            field,
        ) by {
            assert(tests_pattern(group@[i], given@[i]@, field));
        }
        assert forall|entry: LogEntryView| #[trigger]
            AnyFilter::Or(OrFilter(group)).lets_through(entry) == one_accepts(
                given@,
                field,
                field_text(entry, field),
            ) by {
            lemma_or_filter(group, entry);
            lemma_group(group@, given@, field, entry);
        }
    }
    Ok(AnyFilter::Or(OrFilter(group)))
}

/// Puts one filter more behind `filters`: what all of them let through is
/// then what the others let through and the new one as well.
fn add_filter(filters: &mut Vec<AnyFilter>, filter: AnyFilter)
    ensures
        final(filters)@ == old(filters)@.push(filter),
        forall|entry: LogEntryView| #[trigger]
            all_let_through(final(filters)@, entry) == (all_let_through(old(filters)@, entry)
                && filter.lets_through(entry)),
{
    filters.push(filter);
    proof {
        let fewer = old(filters)@;
        let more = filters@;
        assert forall|entry: LogEntryView| #[trigger]
            all_let_through(more, entry) == (all_let_through(fewer, entry) && filter.lets_through(
                entry,
            )) by {
            if all_let_through(more, entry) {
                assert forall|i: int| 0 <= i < fewer.len() implies (#[trigger] fewer[i])
                    .lets_through(entry) by {
                    assert(more[i] == fewer[i]);
                }
                assert(more[fewer.len() as int] == filter);
            }
            if all_let_through(fewer, entry) && filter.lets_through(entry) {
                assert forall|i: int| 0 <= i < more.len() implies (#[trigger] more[i])
                    .lets_through(entry) by {
                    if i < fewer.len() {
                        assert(more[i] == fewer[i]);
                    }
                }
            }
        }
    }
}

/// The first `stage` of the five tests that `selects` is made of.
spec fn selects_so_far(config: &Filter, entry: LogEntryView, stage: nat) -> bool {
    &&& stage >= 1 && config.pid is Some ==> entry.pid == config.pid.unwrap()
    &&& stage >= 2 && config.tid is Some ==> entry.tid == config.tid.unwrap()
    &&& stage >= 3 && config.level is Some ==> entry.level.rank() >= config.level.unwrap().rank()
    &&& stage >= 4 && config.tag is Some ==> one_accepts(
        config.tag.unwrap()@,
        PatternField::Tag,
        entry.tag,
    )
    &&& stage >= 5 && config.message is Some ==> one_accepts(
        config.message.unwrap()@,
        PatternField::Message,
        entry.message,
    )
}

/// The number of fields that the options test.
pub open spec fn tests_given(config: &Filter) -> nat {
    let one = |given: bool| if given { 1nat } else { 0nat };
    one(config.pid is Some) + one(config.tid is Some) + one(config.level is Some) + one(
        config.tag is Some,
    ) + one(config.message is Some)
}

/// Whether what `create_filter` gives is what the options ask for: an
/// `AndFilter` of one filter for each field that is tested, which lets
/// through the entries that pass every test, or the first expression that
/// does not compile, those for the tag taken first.
pub open spec fn filter_for(config: &Filter, r: Result<AnyFilter, PatternError>) -> bool {
    match r {
        Ok(filter) => {
            &&& filter is And
            &&& filter->And_0.0@.len() == tests_given(config)
            &&& forall|entry: LogEntryView| #[trigger]
                filter.lets_through(entry) == selects(config, entry)
            &&& config.tag is Some ==> all_compile(config.tag.unwrap()@, PatternField::Tag)
            &&& config.message is Some ==> all_compile(
                config.message.unwrap()@,
                PatternField::Message,
            )
        },
        Err(error) => match error.field {
            PatternField::Tag => config.tag is Some && first_refused(
                config.tag.unwrap()@,
                PatternField::Tag,
                error.pattern@,
            ),
            PatternField::Message => {
                &&& config.tag is Some ==> all_compile(config.tag.unwrap()@, PatternField::Tag)
                &&& config.message is Some
                &&& first_refused(
                    config.message.unwrap()@,
                    PatternField::Message,
                    error.pattern@,
                )
            },
        },
    }
}

/// Makes the filter that the options ask for. It fails where one of the
/// expressions does not compile.
pub fn create_filter(config: &Filter) -> (r: Result<AnyFilter, PatternError>)
    ensures
        filter_for(config, r),
{
    let mut filters: Vec<AnyFilter> = Vec::new();
    assert forall|entry: LogEntryView|
        all_let_through(filters@, entry) == selects_so_far(config, entry, 0) by {}
    if let Some(pid) = config.pid {
        add_filter(&mut filters, AnyFilter::Pid(PidFilter(pid)));
    }
    assert forall|entry: LogEntryView|
        all_let_through(filters@, entry) == selects_so_far(config, entry, 1) by {}
    if let Some(tid) = config.tid {
        add_filter(&mut filters, AnyFilter::Tid(TidFilter(tid)));
    }
    assert forall|entry: LogEntryView|
        all_let_through(filters@, entry) == selects_so_far(config, entry, 2) by {}
    if let Some(level) = config.level {
        add_filter(&mut filters, AnyFilter::Level(LevelFilter(level)));
    }
    assert forall|entry: LogEntryView|
        all_let_through(filters@, entry) == selects_so_far(config, entry, 3) by {}
    if let Some(tags) = &config.tag {
        let one = match one_of(tags, PatternField::Tag) {
            Ok(one) => one,
            Err(error) => {
                return Err(error);
            },
        };
        add_filter(&mut filters, one);
    }
    assert forall|entry: LogEntryView|
        all_let_through(filters@, entry) == selects_so_far(config, entry, 4) by {}
    if let Some(messages) = &config.message {
        let one = match one_of(messages, PatternField::Message) {
            Ok(one) => one,
            Err(error) => {
                return Err(error);
            },
        };
        add_filter(&mut filters, one);
    }
    proof {
        assert forall|entry: LogEntryView| #[trigger]
            AnyFilter::And(AndFilter(filters)).lets_through(entry) == selects(config, entry) by {
            lemma_and_filter(filters, entry);
            assert(all_let_through(filters@, entry) == selects_so_far(config, entry, 5));
        }
        assert(AnyFilter::And(AndFilter(filters))->And_0.0 == filters);
    }
    Ok(AnyFilter::And(AndFilter(filters)))
}

/// What is to be done for one line of input.
#[derive(Debug, PartialEq, Eq)]
pub struct LineOutcome {
    /// What is reported on the standard error, if anything.
    pub diagnostic: Option<String>,
    /// What is printed on the standard output, if anything.
    pub output: Option<FormattedLogLine>,
}

/// The report of a line that is neither a header nor an entry: the error,
/// and the line itself on a line of its own.
pub open spec fn rejection_text(error: ParseError, line: Seq<char>) -> Seq<char> {
    "warning: "@ + error.text() + "; see next line\n"@ + line
}

/// The report of a line that was read with a warning.
pub open spec fn warning_text(warning: ParseWarning) -> Seq<char> {
    "warning: "@ + warning.text() + "; see next line"@
}

/// Whether a record is printed: every header is, and the entries that the
/// filter lets through.
pub open spec fn is_shown(filter: AnyFilter, line: LogLineView) -> bool {
    match line {
        LogLineView::Header(_) => true,
        LogLineView::Entry(entry) => filter.lets_through(entry),
    }
}

/// Whether `r` is what is to be done for the line `s`, read as of `year`,
/// and `width_then` the width of the tag column afterwards, where it was
/// `width` before. An empty line is passed over. A line that cannot be read
/// is reported and changes nothing. A line that is read is printed if it is
/// shown, and reported as well if there was a warning.
pub open spec fn is_outcome(
    r: LineOutcome,
    filter: AnyFilter,
    width: nat,
    width_then: nat,
    s: Seq<char>,
    year: i32,
) -> bool {
    if s.len() == 0 {
        r.diagnostic is None && r.output is None && width_then == width
    } else {
        match parse_line(s, year) {
            Err(error) => {
                &&& r.diagnostic is Some
                &&& r.diagnostic.unwrap()@ == rejection_text(error, s)
                &&& r.output is None
                &&& width_then == width
            },
            Ok(parsed) => {
                &&& match parsed.warning {
                    Some(warning) => r.diagnostic is Some && r.diagnostic.unwrap()@
                        == warning_text(warning),
                    None => r.diagnostic is None,
                }
                &&& if is_shown(filter, parsed.line) {
                    &&& r.output is Some
                    &&& r.output.unwrap()@ == rendered(parsed.line, width)
                    &&& width_then == width_after(parsed.line, width)
                } else {
                    r.output is None && width_then == width
                }
            },
        }
    }
}

/// Decides what is done for one line of input, its time stamp taken to lie
/// in `year`.
pub fn process_line_in_year(
    filter: &AnyFilter,
    formatter: &mut LogcatFormatter,
    line: &str,
    year: i32,
) -> (r: LineOutcome)
    ensures
        is_outcome(
            r,
            *filter,
            old(formatter).tag_width(),
            final(formatter).tag_width(),
            line@,
            year,
        ),
{
    if line.is_empty() {
        return LineOutcome { diagnostic: None, output: None };
    }
    let parsed = match parse_log_line_in_year(line, year) {
        Ok(parsed) => parsed,
        Err(error) => {
            let mut report = String::from_str("warning: ");
            report.append(error.message().as_str());
            report.append("; see next line\n");
            report.append(line);
            assert(report@ =~= rejection_text(error, line@));
            return LineOutcome { diagnostic: Some(report), output: None };
        },
    };
    let diagnostic = match parsed.warning {
        Some(warning) => {
            let mut report = String::from_str("warning: ");
            report.append(warning.message().as_str());
            report.append("; see next line");
            assert(report@ =~= warning_text(warning));
            Some(report)
        },
        None => None,
    };
    let shown = match &parsed.line {
        LogLine::Header(_) => true,
        LogLine::Entry(entry) => filter.include_entry(entry),
    };
    if shown {
        let output = formatter.format_log_line(&parsed.line);
        LineOutcome { diagnostic, output: Some(output) }
    } else {
        LineOutcome { diagnostic, output: None }
    }
}

/// The year matters to the 29th of February only: what is done for any
/// other line in one year is what is done for it in every year.
pub proof fn lemma_outcome_in_any_year(
    r: LineOutcome,
    filter: AnyFilter,
    width: nat,
    width_then: nat,
    s: Seq<char>,
    year: i32,
    other: i32,
)
    requires
        is_year(year as int),
        is_year(other as int),
        !names_leap_day(s),
        is_outcome(r, filter, width, width_then, s, year),
    ensures
        is_outcome(r, filter, width, width_then, s, other),
{
    lemma_year_matters_little(s, year, other);
    if s.len() > 0 {
        match parse_line(s, year) {
            Ok(parsed) => {
                match parsed.line {
                    LogLineView::Entry(entry) => {
                        lemma_moment_is_not_tested(
                            filter,
                            entry,
                            Timestamp { year: other, ..entry.datetime },
                        );
                        let moved = in_year(parsed, other).line;
                        assert(rendered(moved, width) == rendered(parsed.line, width));
                        assert(width_after(moved, width) == width_after(parsed.line, width));
                    },
                    LogLineView::Header(_) => {},
                }
            },
            Err(_) => {},
        }
    }
}

/// Decides what is done for one line of input, its time stamp taken to lie
/// in the present year. But for a line of the 29th of February, what is
/// done does not depend on that year.
pub fn process_line(filter: &AnyFilter, formatter: &mut LogcatFormatter, line: &str) -> (r:
    LineOutcome)
    ensures
        exists|year: i32|
            is_year(year as int) && #[trigger] is_outcome(
                r,
                *filter,
                old(formatter).tag_width(),
                final(formatter).tag_width(),
                line@,
                year,
            ),
        !names_leap_day(line@) ==> forall|year: i32|
            is_year(year as int) ==> #[trigger] is_outcome(
                r,
                *filter,
                old(formatter).tag_width(),
                final(formatter).tag_width(),
                line@,
                year,
            ),
{
    let year = current_year();
    let r = process_line_in_year(filter, formatter, line, year);
    proof {
        let width = old(formatter).tag_width();
        let width_then = formatter.tag_width();
        assert(is_outcome(r, *filter, width, width_then, line@, year));
        if !names_leap_day(line@) {
            assert forall|other: i32| is_year(other as int) implies #[trigger] is_outcome(
                r,
                *filter,
                width,
                width_then,
                line@,
                other,
            ) by {
                lemma_outcome_in_any_year(r, *filter, width, width_then, line@, year, other);
            }
        }
    }
    r
}

/// Decides what is done for one line of input as it was read, bytes that
/// may not be text throughout, its time stamp taken to lie in the present
/// year. But for a line of the 29th of February, what is done does not
/// depend on that year.
pub fn process_raw_line(filter: &AnyFilter, formatter: &mut LogcatFormatter, bytes: &[u8]) -> (r:
    LineOutcome)
    ensures
        exists|year: i32|
            is_year(year as int) && #[trigger] is_outcome(
                r,
                *filter,
                old(formatter).tag_width(),
                final(formatter).tag_width(),
                lossy_text(bytes@),
                year,
            ),
        !names_leap_day(lossy_text(bytes@)) ==> forall|year: i32|
            is_year(year as int) ==> #[trigger] is_outcome(
                r,
                *filter,
                old(formatter).tag_width(),
                final(formatter).tag_width(),
                lossy_text(bytes@),
                year,
            ),
{
    let line = decode_line(bytes);
    process_line(filter, formatter, line.as_str())
}

/// A line that cannot be read is reported, nothing is printed for it, and
/// the formatter is left as it was: the lines after it are handled as if it
/// had not been there.
pub proof fn lemma_rejected_line(
    r: LineOutcome,
    filter: AnyFilter,
    width: nat,
    width_then: nat,
    s: Seq<char>,
    year: i32,
)
    requires
        s.len() > 0,
        parse_line(s, year) is Err,
        is_outcome(r, filter, width, width_then, s, year),
    ensures
        r.diagnostic is Some,
        r.output is None,
        width_then == width,
{
}

} // verus!
