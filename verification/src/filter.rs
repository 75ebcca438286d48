//! Filters: which entries are shown. A filter is a test of one field, or is
//! made of other filters with and, or and not.

use vstd::prelude::*;
use vstd::string::StringExecFns;
use regex::Regex;
use crate::log::{LogEntry, LogEntryView, LogLevel};
use crate::timestamp::Timestamp;
use crate::pattern::{
    compile, compiled_language, error_text, is_match, refusal_text, regex_language,
};

verus! {

/// Something that says of each entry whether it is to be shown.
pub trait LogFilter {
    /// The entries that the filter lets through.
    spec fn passes(&self, entry: LogEntryView) -> bool;

    fn include_entry(&self, log_entry: &LogEntry) -> (r: bool)
        ensures
            r == self.passes(log_entry@),
    ;
}

/// Lets through what all of its filters let through.
#[derive(Debug)]
pub struct AndFilter(pub Vec<AnyFilter>);

/// Lets through what one of its filters lets through.
#[derive(Debug)]
pub struct OrFilter(pub Vec<AnyFilter>);

/// Lets through what its filter holds back.
#[derive(Debug)]
pub struct NotFilter(pub Box<AnyFilter>);

/// Lets through the entries of one process.
#[derive(Debug, Clone, Copy, PartialEq, Eq, Structural)]
pub struct PidFilter(pub u32);

/// Lets through the entries of one thread.
#[derive(Debug, Clone, Copy, PartialEq, Eq, Structural)]
pub struct TidFilter(pub u32);

/// Lets through the entries of a level or of a more severe one.
#[derive(Debug, Clone, Copy, PartialEq, Eq, Structural)]
pub struct LevelFilter(pub LogLevel);

/// Lets through the entries whose whole tag matches an expression.
#[derive(Debug)]
pub struct TagFilter(Regex);

/// Lets through the entries whose message matches an expression somewhere.
#[derive(Debug)]
pub struct MessageFilter(pub Regex);

/// Any of the filters.
#[derive(Debug)]
pub enum AnyFilter {
    And(AndFilter),
    Or(OrFilter),
    Not(NotFilter),
    Pid(PidFilter),
    Tid(TidFilter),
    Level(LevelFilter),
    Tag(TagFilter),
    Message(MessageFilter),
}

/// The field of an entry that a pattern is for.
#[derive(Debug, Clone, Copy, PartialEq, Eq, Structural, Hash)]
pub enum PatternField {
    Tag,
    Message,
}

/// A pattern that the compiler of regular expressions refused.
#[derive(Debug)]
pub struct PatternError {
    /// The field that the pattern was for.
    pub field: PatternField,
    /// The pattern as it was handed to the compiler.
    pub pattern: String,
    /// What the compiler said of it.
    pub cause: regex::Error,
}

/// `pattern` made to match a whole text only: in a group of its own, so
/// that all of it stands between the two marks, of which the first matches
/// at the start of a text and nowhere else, and the second at its end.
pub open spec fn anchored(pattern: Seq<char>) -> Seq<char> {
    "\\A(?:"@ + pattern + ")\\z"@
}

/// The pattern that is compiled for the expression `given`: for a tag it is
/// made to match the whole tag only, for a message it is taken as it is.
pub open spec fn as_compiled(given: Seq<char>, field: PatternField) -> Seq<char> {
    match field {
        PatternField::Tag => anchored(given),
        PatternField::Message => given,
    }
}

/// Whether the expression `given` for `field` is taken: it compiles, and
/// where it is for a tag it compiles once it is anchored as well. An
/// expression that is no pattern by itself is taken for no tag, whatever
/// it would be between the marks.
pub open spec fn compiles(given: Seq<char>, field: PatternField) -> bool {
    compiled_language(given) is Some && compiled_language(as_compiled(given, field)) is Some
}

/// The pattern that is reported where the expression `given` for `field`
/// is not taken: the expression, unless only its anchored form is refused.
pub open spec fn refused_pattern(given: Seq<char>, field: PatternField) -> Seq<char> {
    if compiled_language(given) is None {
        given
    } else {
        as_compiled(given, field)
    }
}

impl PatternError {
    /// The error in words: what the compiler said, for a tag after a few
    /// words of what failed.
    pub open spec fn text(&self) -> Seq<char> {
        match self.field {
            PatternField::Tag => "failed to compile regex: "@ + refusal_text(self.cause),
            PatternField::Message => refusal_text(self.cause),
        }
    }

    /// The error in words.
    pub fn message(&self) -> (r: String)
        ensures
            r@ == self.text(),
    {
        let said = error_text(&self.cause);
        match self.field {
            PatternField::Tag => String::from_str("failed to compile regex: ").concat(
                said.as_str(),
            ),
            PatternField::Message => said,
        }
    }
}

impl AnyFilter {
    /// The entries that the filter lets through.
    pub open spec fn lets_through(self, entry: LogEntryView) -> bool
        decreases self,
    {
        match self {
            AnyFilter::And(f) => forall|i: int|
                0 <= i < f.0@.len() ==> (#[trigger] f.0@[i]).lets_through(entry),
            AnyFilter::Or(f) => exists|i: int|
                0 <= i < f.0@.len() && (#[trigger] f.0@[i]).lets_through(entry),
            AnyFilter::Not(f) => !f.0.lets_through(entry),
            AnyFilter::Pid(f) => entry.pid == f.0,
            AnyFilter::Tid(f) => entry.tid == f.0,
            AnyFilter::Level(f) => entry.level.rank() >= f.0.rank(),
            AnyFilter::Tag(f) => f.language().contains(entry.tag),
            AnyFilter::Message(f) => regex_language(f.0).contains(entry.message),
        }
    }
}

impl TagFilter {
    /// The tags that the filter matches.
    pub closed spec fn language(self) -> Set<Seq<char>> {
        regex_language(self.0)
    }

    /// The filter for the tags that `regex` matches from their first to
    /// their last character. It is made where `regex` compiles, by itself
    /// and anchored.
    pub fn new(regex: &str) -> (r: Result<Self, PatternError>)
        ensures
            match r {
                Ok(filter) => compiles(regex@, PatternField::Tag) && compiled_language(
                    anchored(regex@),
                ) == Some(filter.language()),
                Err(error) => !compiles(regex@, PatternField::Tag) && error.pattern@
                    == refused_pattern(regex@, PatternField::Tag) && error.field
                    == PatternField::Tag,
            },
    {
        match compile(regex) {
            Ok(_) => {},
            Err(cause) => {
                return Err(
                    PatternError {
                        field: PatternField::Tag,
                        pattern: String::from_str(regex),
                        cause,
                    },
                );
            },
        }
        let pattern = String::from_str("\\A(?:").concat(regex).concat(")\\z");
        assert(pattern@ =~= anchored(regex@));
        match compile(pattern.as_str()) {
            Ok(re) => Ok(TagFilter(re)),
            Err(cause) => Err(PatternError { field: PatternField::Tag, pattern, cause }),
        }
    }
}

/// Whether all of `filters` let `entry` through.
pub open spec fn all_let_through(filters: Seq<AnyFilter>, entry: LogEntryView) -> bool {
    forall|i: int| 0 <= i < filters.len() ==> (#[trigger] filters[i]).lets_through(entry)
}

/// Whether one of `filters` lets `entry` through.
pub open spec fn any_lets_through(filters: Seq<AnyFilter>, entry: LogEntryView) -> bool {
    exists|i: int| 0 <= i < filters.len() && (#[trigger] filters[i]).lets_through(entry)
}

#[verifier::loop_isolation(false)]
fn all_include(filters: &Vec<AnyFilter>, log_entry: &LogEntry) -> (r: bool)
    ensures
        r == all_let_through(filters@, log_entry@),
    decreases filters,
{
    let mut i: usize = 0;
    while i < filters.len()
        invariant
            i <= filters.len(),
            forall|k: int| 0 <= k < i ==> (#[trigger] filters@[k]).lets_through(log_entry@),
        decreases filters.len() - i,
    {
        proof {
            assert(decreases_to!(filters => filters[i as int]));
        }
        if !filters[i].include_entry(log_entry) {
            assert(!filters@[i as int].lets_through(log_entry@));
            return false;
        }
        i += 1;
    }
    true
}

#[verifier::loop_isolation(false)]
fn any_includes(filters: &Vec<AnyFilter>, log_entry: &LogEntry) -> (r: bool)
    ensures
        r == any_lets_through(filters@, log_entry@),
    decreases filters,
{
    let mut i: usize = 0;
    while i < filters.len()
        invariant
            i <= filters.len(),
            forall|k: int| 0 <= k < i ==> !(#[trigger] filters@[k]).lets_through(log_entry@),
        decreases filters.len() - i,
    {
        proof {
            assert(decreases_to!(filters => filters[i as int]));
        }
        if filters[i].include_entry(log_entry) {
            assert(filters@[i as int].lets_through(log_entry@));
            return true;
        }
        i += 1;
    }
    false
}

impl AnyFilter {
    /// Whether the filter lets `log_entry` through.
    pub fn include_entry(&self, log_entry: &LogEntry) -> (r: bool)
        ensures
            r == self.lets_through(log_entry@),
        decreases self,
    {
        match self {
            AnyFilter::And(f) => all_include(&f.0, log_entry),
            AnyFilter::Or(f) => any_includes(&f.0, log_entry),
            AnyFilter::Not(f) => !f.0.include_entry(log_entry),
            AnyFilter::Pid(f) => log_entry.pid == f.0,
            AnyFilter::Tid(f) => log_entry.tid == f.0,
            AnyFilter::Level(f) => log_entry.level >= f.0,
            AnyFilter::Tag(f) => is_match(&f.0, log_entry.tag.as_str()),
            AnyFilter::Message(f) => is_match(&f.0, log_entry.message.as_str()),
        }
    }
}

impl MessageFilter {
    /// The filter for the messages in which `regex` finds a match.
    pub fn new(regex: &str) -> (r: Result<Self, PatternError>)
        ensures
            match r {
                Ok(filter) => compiles(regex@, PatternField::Message) && compiled_language(
                    regex@,
                ) == Some(regex_language(filter.0)),
                Err(error) => !compiles(regex@, PatternField::Message) && error.pattern@
                    == refused_pattern(regex@, PatternField::Message) && error.field
                    == PatternField::Message,
            },
    {
        match compile(regex) {
            Ok(re) => Ok(MessageFilter(re)),
            Err(cause) => Err(
                PatternError {
                    field: PatternField::Message,
                    pattern: String::from_str(regex),
                    cause,
                },
            ),
        }
    }
}

impl LogFilter for AnyFilter {
    open spec fn passes(&self, entry: LogEntryView) -> bool {
        self.lets_through(entry)
    }

    fn include_entry(&self, log_entry: &LogEntry) -> (r: bool) {
        AnyFilter::include_entry(self, log_entry)
    }
}

impl LogFilter for AndFilter {
    open spec fn passes(&self, entry: LogEntryView) -> bool {
        all_let_through(self.0@, entry)
    }

    fn include_entry(&self, log_entry: &LogEntry) -> (r: bool) {
        all_include(&self.0, log_entry)
    }
}

impl LogFilter for OrFilter {
    open spec fn passes(&self, entry: LogEntryView) -> bool {
        any_lets_through(self.0@, entry)
    }

    fn include_entry(&self, log_entry: &LogEntry) -> (r: bool) {
        any_includes(&self.0, log_entry)
    }
}

impl LogFilter for NotFilter {
    open spec fn passes(&self, entry: LogEntryView) -> bool {
        !self.0.lets_through(entry)
    }

    fn include_entry(&self, log_entry: &LogEntry) -> (r: bool) {
        !AnyFilter::include_entry(&self.0, log_entry)
    }
}

impl LogFilter for PidFilter {
    open spec fn passes(&self, entry: LogEntryView) -> bool {
        entry.pid == self.0
    }

    fn include_entry(&self, log_entry: &LogEntry) -> (r: bool) {
        log_entry.pid == self.0
    }
}

impl LogFilter for TidFilter {
    open spec fn passes(&self, entry: LogEntryView) -> bool {
        entry.tid == self.0
    }

    fn include_entry(&self, log_entry: &LogEntry) -> (r: bool) {
        log_entry.tid == self.0
    }
}

impl LogFilter for LevelFilter {
    open spec fn passes(&self, entry: LogEntryView) -> bool {
        entry.level.rank() >= self.0.rank()
    }

    fn include_entry(&self, log_entry: &LogEntry) -> (r: bool) {
        log_entry.level >= self.0
    }
}

impl LogFilter for TagFilter {
    open spec fn passes(&self, entry: LogEntryView) -> bool {
        self.language().contains(entry.tag)
    }

    fn include_entry(&self, log_entry: &LogEntry) -> (r: bool) {
        is_match(&self.0, log_entry.tag.as_str())
    }
}

impl LogFilter for MessageFilter {
    open spec fn passes(&self, entry: LogEntryView) -> bool {
        regex_language(self.0).contains(entry.message)
    }

    fn include_entry(&self, log_entry: &LogEntry) -> (r: bool) {
        is_match(&self.0, log_entry.message.as_str())
    }
}

/// An `AndFilter` lets through what all of its filters let through.
pub proof fn lemma_and_filter(filters: Vec<AnyFilter>, entry: LogEntryView)
    ensures
        AnyFilter::And(AndFilter(filters)).lets_through(entry) == all_let_through(
            filters@,
            entry,
        ),
{
    let filter = AnyFilter::And(AndFilter(filters));
    assert(filter->And_0.0 == filters);
}

/// An `OrFilter` lets through what one of its filters lets through.
pub proof fn lemma_or_filter(filters: Vec<AnyFilter>, entry: LogEntryView)
    ensures
        AnyFilter::Or(OrFilter(filters)).lets_through(entry) == any_lets_through(filters@, entry),
{
    let filter = AnyFilter::Or(OrFilter(filters));
    assert(filter->Or_0.0 == filters);
}

/// A filter for a level lets through the entries of that level and of the
/// more severe ones, and no others.
pub proof fn lemma_level_filter(threshold: LogLevel, entry: LogEntryView)
    ensures
        AnyFilter::Level(LevelFilter(threshold)).lets_through(entry) == (entry.level.rank()
            >= threshold.rank()),
        LevelFilter(threshold).passes(entry) == (entry.level.rank() >= threshold.rank()),
{
}

/// From `Warning` on, a filter lets through warnings, errors and fatal
/// errors, and holds back everything below.
pub proof fn lemma_from_warning_on(entry: LogEntryView)
    ensures
        AnyFilter::Level(LevelFilter(LogLevel::Warning)).lets_through(entry) <==> (entry.level
            == LogLevel::Warning || entry.level == LogLevel::Error || entry.level
            == LogLevel::Fatal),
{
}

/// With no filters in it, an `AndFilter` lets everything through and an
/// `OrFilter` nothing.
pub proof fn lemma_empty_filters(filters: Vec<AnyFilter>, entry: LogEntryView)
    requires
        filters@.len() == 0,
    ensures
        AnyFilter::And(AndFilter(filters)).lets_through(entry),
        !AnyFilter::Or(OrFilter(filters)).lets_through(entry),
{
    lemma_and_filter(filters, entry);
    lemma_or_filter(filters, entry);
}

/// No filter tests the moment of an entry: an entry passes as the entry of
/// any other moment does that is like it in everything else.
pub proof fn lemma_moment_is_not_tested(filter: AnyFilter, entry: LogEntryView, moment: Timestamp)
    ensures
        filter.lets_through(LogEntryView { datetime: moment, ..entry }) == filter.lets_through(
            entry,
        ),
    decreases filter,
{
    let moved = LogEntryView { datetime: moment, ..entry };
    match filter {
        AnyFilter::And(f) => {
            assert forall|i: int| 0 <= i < f.0@.len() implies (#[trigger] f.0@[i]).lets_through(
                moved,
            ) == f.0@[i].lets_through(entry) by {
                lemma_moment_is_not_tested(f.0@[i], entry, moment);
            }
        },
        AnyFilter::Or(f) => {
            assert forall|i: int| 0 <= i < f.0@.len() implies (#[trigger] f.0@[i]).lets_through(
                moved,
            ) == f.0@[i].lets_through(entry) by {
                lemma_moment_is_not_tested(f.0@[i], entry, moment);
            }
        },
        AnyFilter::Not(f) => {
            lemma_moment_is_not_tested(*f.0, entry, moment);
        },
        _ => {},
    }
}

} // verus!
