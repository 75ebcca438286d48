//! The record model: what one line of logcat output is once it has been read.

use std::cmp::Ordering;
use vstd::prelude::*;
use vstd::std_specs::cmp::PartialOrdSpec;
use vstd::string::StringExecFns;
use crate::text::chars_of;
use crate::timestamp::Timestamp;

verus! {

/// The tag of an entry whose line had no `": "` between tag and message.
pub const MISSING_TAG: &'static str = "MISSING_TAG";

/// Severity of a log entry, ordered from the least to the most severe.
#[derive(Debug, Clone, Copy, PartialEq, Eq, Structural, Ord, Hash)]
pub enum LogLevel {
    Silent,
    Verbose,
    Debug,
    Info,
    Warning,
    Error,
    Fatal,
}

impl PartialOrd for LogLevel {
    fn partial_cmp(&self, other: &Self) -> (r: Option<Ordering>) {
        let left = self.severity();
        let right = other.severity();
        if left < right {
            Some(Ordering::Less)
        } else if left == right {
            Some(Ordering::Equal)
        } else {
            Some(Ordering::Greater)
        }
    }
}

impl vstd::std_specs::cmp::PartialOrdSpecImpl for LogLevel {
    open spec fn obeys_partial_cmp_spec() -> bool {
        true
    }

    /// Levels compare as their ranks do.
    open spec fn partial_cmp_spec(&self, other: &Self) -> Option<Ordering> {
        if self.rank() < other.rank() {
            Some(Ordering::Less)
        } else if self.rank() == other.rank() {
            Some(Ordering::Equal)
        } else {
            Some(Ordering::Greater)
        }
    }
}

impl LogLevel {
    /// Position of the level in the severity order, `Silent` being 0.
    pub open spec fn rank(self) -> nat {
        match self {
            LogLevel::Silent => 0,
            LogLevel::Verbose => 1,
            LogLevel::Debug => 2,
            LogLevel::Info => 3,
            LogLevel::Warning => 4,
            LogLevel::Error => 5,
            LogLevel::Fatal => 6,
        }
    }

    /// The letter that stands for the level in a log line.
    pub open spec fn letter(self) -> char {
        match self {
            LogLevel::Silent => 'S',
            LogLevel::Verbose => 'V',
            LogLevel::Debug => 'D',
            LogLevel::Info => 'I',
            LogLevel::Warning => 'W',
            LogLevel::Error => 'E',
            LogLevel::Fatal => 'F',
        }
    }

    /// The level that a letter stands for, if any: the level whose letter it
    /// is.
    pub open spec fn of_letter(c: char) -> Option<LogLevel> {
        if exists|level: LogLevel| level.letter() == c {
            Some(choose|level: LogLevel| level.letter() == c)
        } else {
            None
        }
    }

    /// The rank of the level as a number.
    pub fn severity(self) -> (r: u8)
        ensures
            r == self.rank(),
    {
        match self {
            LogLevel::Silent => 0,
            LogLevel::Verbose => 1,
            LogLevel::Debug => 2,
            LogLevel::Info => 3,
            LogLevel::Warning => 4,
            LogLevel::Error => 5,
            LogLevel::Fatal => 6,
        }
    }

    /// Whether `self` is at least as severe as `threshold`.
    pub fn at_least(self, threshold: LogLevel) -> (r: bool)
        ensures
            r == (self.rank() >= threshold.rank()),
            r == (self.partial_cmp_spec(&threshold) != Some(Ordering::Less)),
    {
        self >= threshold
    }

    /// The letter that stands for the level in a log line.
    pub fn to_letter(self) -> (c: char)
        ensures
            c == self.letter(),
    {
        match self {
            LogLevel::Silent => 'S',
            LogLevel::Verbose => 'V',
            LogLevel::Debug => 'D',
            LogLevel::Info => 'I',
            LogLevel::Warning => 'W',
            LogLevel::Error => 'E',
            LogLevel::Fatal => 'F',
        }
    }

    /// The level as text: its letter.
    pub fn as_str(self) -> (r: &'static str)
        ensures
            r@ == seq![self.letter()],
    {
        proof {
            reveal_strlit("S");
            reveal_strlit("V");
            reveal_strlit("D");
            reveal_strlit("I");
            reveal_strlit("W");
            reveal_strlit("E");
            reveal_strlit("F");
        }
        let r = match self {
            LogLevel::Silent => "S",
            LogLevel::Verbose => "V",
            LogLevel::Debug => "D",
            LogLevel::Info => "I",
            LogLevel::Warning => "W",
            LogLevel::Error => "E",
            LogLevel::Fatal => "F",
        };
        assert(r@ =~= seq![self.letter()]);
        r
    }

    /// The level that `text` names: `text` is the letter of a level and
    /// nothing else.
    pub fn parse(text: &str) -> (r: Option<LogLevel>)
        ensures
            r == (if text@.len() == 1 {
                Self::of_letter(text@[0])
            } else {
                None
            }),
    {
        let chars = chars_of(text);
        if chars.len() == 1 {
            Self::from_letter(chars[0])
        } else {
            None
        }
    }

    /// The level that a letter stands for, if any.
    pub fn from_letter(c: char) -> (r: Option<LogLevel>)
        ensures
            r == Self::of_letter(c),
    {
        proof {
            Self::lemma_letters(c);
        }
        match c {
            'S' => Some(LogLevel::Silent),
            'V' => Some(LogLevel::Verbose),
            'D' => Some(LogLevel::Debug),
            'I' => Some(LogLevel::Info),
            'W' => Some(LogLevel::Warning),
            'E' => Some(LogLevel::Error),
            'F' => Some(LogLevel::Fatal),
            _ => None,
        }
    }
}

/// One structured log line.
#[derive(Debug, Clone, PartialEq, Eq)]
pub struct LogEntry {
    pub datetime: Timestamp,
    pub pid: u32,
    pub tid: u32,
    pub level: LogLevel,
    pub tag: String,
    pub message: String,
}

/// What a `LogEntry` holds, its texts as sequences of characters.
pub struct LogEntryView {
    pub datetime: Timestamp,
    pub pid: u32,
    pub tid: u32,
    pub level: LogLevel,
    pub tag: Seq<char>,
    pub message: Seq<char>,
}

impl View for LogEntry {
    type V = LogEntryView;

    open spec fn view(&self) -> LogEntryView {
        LogEntryView {
            datetime: self.datetime,
            pid: self.pid,
            tid: self.tid,
            level: self.level,
            tag: self.tag@,
            message: self.message@,
        }
    }
}

impl LogEntry {
    /// The entry with the given fields.
    pub fn new(
        datetime: Timestamp,
        pid: u32,
        tid: u32,
        level: LogLevel,
        tag: String,
        message: String,
    ) -> (r: Self)
        ensures
            r@ == (LogEntryView { datetime, pid, tid, level, tag: tag@, message: message@ }),
    {
        LogEntry { datetime, pid, tid, level, tag, message }
    }
}

/// A line of logcat output: the marker that opens a section, or an entry.
#[derive(Debug, Clone, PartialEq, Eq)]
pub enum LogLine {
    Header(String),
    Entry(LogEntry),
}

/// What a `LogLine` holds, its texts as sequences of characters.
pub enum LogLineView {
    Header(Seq<char>),
    Entry(LogEntryView),
}

impl View for LogLine {
    type V = LogLineView;

    open spec fn view(&self) -> LogLineView {
        match self {
            LogLine::Header(name) => LogLineView::Header(name@),
            LogLine::Entry(entry) => LogLineView::Entry(entry@),
        }
    }
}

impl LogLine {
    /// The header of the section `header`.
    pub fn header(header: &str) -> (r: Self)
        ensures
            r@ == LogLineView::Header(header@),
    {
        LogLine::Header(String::from_str(header))
    }

    /// The entry with the given fields, as a line.
    pub fn entry(
        datetime: Timestamp,
        pid: u32,
        tid: u32,
        level: LogLevel,
        tag: String,
        message: String,
    ) -> (r: Self)
        ensures
            r@ == LogLineView::Entry(
                LogEntryView { datetime, pid, tid, level, tag: tag@, message: message@ },
            ),
    {
        LogLine::Entry(LogEntry::new(datetime, pid, tid, level, tag, message))
    }
}

impl LogLevel {
    /// The levels stand in one order, from `Silent` up to `Fatal`: each is
    /// less than the next.
    pub proof fn lemma_order()
        ensures
            LogLevel::Silent.rank() < LogLevel::Verbose.rank() < LogLevel::Debug.rank()
                < LogLevel::Info.rank() < LogLevel::Warning.rank() < LogLevel::Error.rank()
                < LogLevel::Fatal.rank(),
            LogLevel::Silent.partial_cmp_spec(&LogLevel::Verbose) == Some(Ordering::Less),
            LogLevel::Verbose.partial_cmp_spec(&LogLevel::Debug) == Some(Ordering::Less),
            LogLevel::Debug.partial_cmp_spec(&LogLevel::Info) == Some(Ordering::Less),
            LogLevel::Info.partial_cmp_spec(&LogLevel::Warning) == Some(Ordering::Less),
            LogLevel::Warning.partial_cmp_spec(&LogLevel::Error) == Some(Ordering::Less),
            LogLevel::Error.partial_cmp_spec(&LogLevel::Fatal) == Some(Ordering::Less),
    {
    }

    /// Of two levels one is less than the other, or they are the same
    /// level; and what is less than a level that is less than a third is
    /// less than the third.
    pub proof fn lemma_order_is_total(a: LogLevel, b: LogLevel, c: LogLevel)
        ensures
            a.partial_cmp_spec(&b) == Some(Ordering::Equal) <==> a == b,
            a.partial_cmp_spec(&b) == Some(Ordering::Less) <==> b.partial_cmp_spec(&a) == Some(
                Ordering::Greater,
            ),
            a.partial_cmp_spec(&b) == Some(Ordering::Less) && b.partial_cmp_spec(&c) == Some(
                Ordering::Less,
            ) ==> a.partial_cmp_spec(&c) == Some(Ordering::Less),
    {
    }

    /// Each level has a letter of its own, and is the level of that letter;
    /// no other character is the letter of a level.
    pub proof fn lemma_letters(c: char)
        ensures
            forall|level: LogLevel| #[trigger] LogLevel::of_letter(level.letter()) == Some(level),
            LogLevel::of_letter(c) == (if c == 'S' {
                Some(LogLevel::Silent)
            } else if c == 'V' {
                Some(LogLevel::Verbose)
            } else if c == 'D' {
                Some(LogLevel::Debug)
            } else if c == 'I' {
                Some(LogLevel::Info)
            } else if c == 'W' {
                Some(LogLevel::Warning)
            } else if c == 'E' {
                Some(LogLevel::Error)
            } else if c == 'F' {
                Some(LogLevel::Fatal)
            } else {
                None
            }),
    {
        assert forall|level: LogLevel| #[trigger]
            LogLevel::of_letter(level.letter()) == Some(level) by {
            let found = choose|other: LogLevel| other.letter() == level.letter();
            assert(found.letter() == level.letter());
        }
        if c == 'S' {
            assert(LogLevel::Silent.letter() == c);
        } else if c == 'V' {
            assert(LogLevel::Verbose.letter() == c);
        } else if c == 'D' {
            assert(LogLevel::Debug.letter() == c);
        } else if c == 'I' {
            assert(LogLevel::Info.letter() == c);
        } else if c == 'W' {
            assert(LogLevel::Warning.letter() == c);
        } else if c == 'E' {
            assert(LogLevel::Error.letter() == c);
        } else if c == 'F' {
            assert(LogLevel::Fatal.letter() == c);
        }
    }
}

} // verus!
