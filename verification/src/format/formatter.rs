//! The formatter: lays an entry out in columns, keeps the tag column as wide
//! as the widest tag seen so far, and sets the lines of a stack trace apart.

use vstd::prelude::*;
use vstd::string::{StrSliceExecFns, StringExecFns};
use crate::format::colors::{self, color_of_level, level_color};
use crate::format::log_line::{colored, FormattedLogLine, StyledText, StyledTextView};
use crate::log::{LogEntry, LogEntryView, LogLevel, LogLine, LogLineView, MISSING_TAG};
use crate::parse::HEADER_PREFIX;
use crate::text::{
    centered, chars_of, decimal_text, pad_left, push_padded_decimal, push_repeated, repeated,
    same_text, scan_run, trim_start, CharClass, Fill,
};
use crate::timestamp::{stamp_text, Timestamp};

verus! {

/// The tag column never gets wider than this.
pub const MAX_TAG_LENGTH: usize = 1;

/// What the line of a stack frame starts with, before the room for the tag.
pub const STACKTRACE_ENTRY_START: &'static str = "                                         ";

/// What the line of a cause starts with, before the room for the tag.
pub const STACKTRACE_CAUSE_START: &'static str = "                                   ";

/// Whether `s` starts with `prefix`.
pub open spec fn starts_with(s: Seq<char>, prefix: Seq<char>) -> bool {
    prefix.len() <= s.len() && s.take(prefix.len() as int) == prefix
}

/// A message that is a frame of a stack trace: after white space, if any,
/// it starts with `at ` or with `... `.
pub open spec fn is_stacktrace_entry(message: Seq<char>) -> bool {
    starts_with(trim_start(message), "at "@) || starts_with(trim_start(message), "... "@)
}

/// A message that names the cause of an exception: after white space, if
/// any, it starts with `Caused by: `.
pub open spec fn is_stacktrace_cause(message: Seq<char>) -> bool {
    starts_with(trim_start(message), "Caused by: "@)
}

/// The one segment of a line of a stack trace: `start`, as many spaces as
/// the tag is long, and the message without the white space it starts with.
pub open spec fn stacktrace_text(start: Seq<char>, entry: LogEntryView) -> Seq<char> {
    start + repeated(' ', entry.tag.len()) + trim_start(entry.message)
}

/// How wide the tag column is once a tag of `tag_len` characters has been
/// shown in a column that was `width` wide: as wide as the tag, but no wider
/// than `MAX_TAG_LENGTH` and no narrower than before.
pub open spec fn next_width(width: nat, tag_len: nat) -> nat {
    let wanted = if tag_len < MAX_TAG_LENGTH {
        tag_len
    } else {
        MAX_TAG_LENGTH as nat
    };
    if wanted > width {
        wanted
    } else {
        width
    }
}

/// The badge of a level: its letter between two spaces, bold, on the
/// colour of the level.
pub open spec fn level_badge(level: LogLevel) -> StyledTextView {
    StyledTextView {
        text: seq![' ', level.letter(), ' '],
        foreground: Some(colors::LEVEL_FOREGROUND),
        background: Some(level_color(level)),
        bold: true,
        dimmed: false,
        italic: false,
    }
}

/// The tag in its column, `width` characters wide. The tag that stands for
/// a missing one is set apart in italics.
pub open spec fn tag_cell(tag: Seq<char>, width: nat) -> StyledTextView {
    if tag == MISSING_TAG@ {
        StyledTextView { italic: true, ..colored(centered(tag, width), colors::MISSING_TAG) }
    } else {
        colored(centered(tag, width), colors::TAG)
    }
}

/// The six segments of an ordinary entry, the tag column `width` wide.
pub open spec fn regular_entry(entry: LogEntryView, width: nat) -> Seq<StyledTextView> {
    seq![
        colored(stamp_text(entry.datetime), colors::DATETIME),
        colored(pad_left(decimal_text(entry.pid as nat), 5, ' '), colors::PID),
        colored(pad_left(decimal_text(entry.tid as nat), 5, ' '), colors::TID),
        level_badge(entry.level),
        tag_cell(entry.tag, width),
        colored(entry.message, level_color(entry.level)),
    ]
}

/// The line that an entry is shown as, when the tag column was `width` wide
/// before it. A frame of a stack trace is one dimmed segment in the colour
/// of the level, a cause is the same without the dimming, and any other
/// entry is laid out in six columns.
pub open spec fn rendered_entry(entry: LogEntryView, width: nat) -> Seq<StyledTextView> {
    if is_stacktrace_entry(entry.message) {
        seq![
            StyledTextView {
                dimmed: true,
                ..colored(
                    stacktrace_text(STACKTRACE_ENTRY_START@, entry),
                    level_color(entry.level),
                )
            },
        ]
    } else if is_stacktrace_cause(entry.message) {
        seq![colored(stacktrace_text(STACKTRACE_CAUSE_START@, entry), level_color(entry.level))]
    } else {
        regular_entry(entry, next_width(width, entry.tag.len()))
    }
}

/// The line that a record is shown as.
pub open spec fn rendered(line: LogLineView, width: nat) -> Seq<StyledTextView> {
    match line {
        LogLineView::Header(name) => seq![colored(HEADER_PREFIX@ + name, colors::HEADER)],
        LogLineView::Entry(entry) => rendered_entry(entry, width),
    }
}

/// How wide the tag column is after a record has been shown: only an
/// ordinary entry can widen it.
pub open spec fn width_after(line: LogLineView, width: nat) -> nat {
    match line {
        LogLineView::Header(_) => width,
        LogLineView::Entry(entry) => if is_stacktrace_entry(entry.message) || is_stacktrace_cause(
            entry.message,
        ) {
            width
        } else {
            next_width(width, entry.tag.len())
        },
    }
}

/// Whether `literal` stands in `chars` at `at`.
fn stands_at(chars: &Vec<char>, at: usize, literal: &str) -> (r: bool)
    requires
        at <= chars.len(),
    ensures
        r == starts_with(chars@.skip(at as int), literal@),
{
    let wanted = chars_of(literal);
    if wanted.len() > chars.len() - at {
        return false;
    }
    let ghost tail = chars@.skip(at as int);
    let mut i: usize = 0;
    while i < wanted.len()
        invariant
            i <= wanted.len(),
            at + wanted.len() <= chars.len(),
            wanted@ == literal@,
            tail == chars@.skip(at as int),
            tail.take(i as int) == wanted@.take(i as int),
        decreases wanted.len() - i,
    {
        if chars[at + i] != wanted[i] {
            proof {
                assert(tail.take(wanted.len() as int)[i as int] != wanted@[i as int]);
            }
            return false;
        }
        proof {
            assert(tail[i as int] == wanted@[i as int]);
            assert(tail.take(i + 1) =~= tail.take(i as int).push(tail[i as int]));
            assert(wanted@.take(i + 1) =~= wanted@.take(i as int).push(wanted@[i as int]));
        }
        i += 1;
    }
    assert(wanted@.take(wanted.len() as int) =~= wanted@);
    true
}

/// Lays records out as styled lines. It remembers how wide the tag column
/// has become.
#[derive(Debug)]
pub struct LogcatFormatter {
    tag_length: usize,
}

impl LogcatFormatter {
    #[verifier::type_invariant]
    spec fn capped(self) -> bool {
        self.tag_length <= MAX_TAG_LENGTH
    }

    /// The width of the tag column.
    pub closed spec fn tag_width(self) -> nat {
        self.tag_length as nat
    }

    /// A formatter that has shown no tag yet.
    pub fn new() -> (r: Self)
        ensures
            r.tag_width() == 0,
    {
        LogcatFormatter { tag_length: 0 }
    }

    /// The width of the tag column.
    pub fn tag_length(&self) -> (n: usize)
        ensures
            n == self.tag_width(),
            n <= MAX_TAG_LENGTH,
    {
        proof {
            use_type_invariant(self);
        }
        self.tag_length
    }

    /// Renders a record. Only an ordinary entry touches the tag column.
    pub fn format_log_line(&mut self, log_line: &LogLine) -> (r: FormattedLogLine)
        ensures
            r@ == rendered(log_line@, old(self).tag_width()),
            final(self).tag_width() == width_after(log_line@, old(self).tag_width()),
    {
        match log_line {
            LogLine::Header(header) => Self::format_log_header(header.as_str()),
            LogLine::Entry(entry) => self.format_log_entry(entry),
        }
    }

    /// Renders the header of the section `header`.
    pub fn format_log_header(header: &str) -> (r: FormattedLogLine)
        ensures
            r@ == seq![colored(HEADER_PREFIX@ + header@, colors::HEADER)],
    {
        let text = String::from_str(HEADER_PREFIX).concat(header);
        FormattedLogLine::single(StyledText::colored(text, colors::HEADER))
    }

    /// Renders an entry: as a line of a stack trace where its message is one,
    /// and else in six columns.
    pub fn format_log_entry(&mut self, entry: &LogEntry) -> (r: FormattedLogLine)
        ensures
            r@ == rendered_entry(entry@, old(self).tag_width()),
            final(self).tag_width() == width_after(
                LogLineView::Entry(entry@),
                old(self).tag_width(),
            ),
    {
        if Self::is_stacktrace_entry(entry) {
            Self::format_stacktrace_entry(entry)
        } else if Self::is_stacktrace_cause(entry) {
            Self::format_stacktrace_cause(entry)
        } else {
            self.format_regular_entry(entry)
        }
    }

    /// Whether the message of the entry is a frame of a stack trace.
    pub fn is_stacktrace_entry(entry: &LogEntry) -> (r: bool)
        ensures
            r == is_stacktrace_entry(entry@.message),
    {
        let chars = chars_of(entry.message.as_str());
        let at = scan_run(&chars, 0, CharClass::Space);
        stands_at(&chars, at, "at ") || stands_at(&chars, at, "... ")
    }

    /// Whether the message of the entry names the cause of an exception.
    pub fn is_stacktrace_cause(entry: &LogEntry) -> (r: bool)
        ensures
            r == is_stacktrace_cause(entry@.message),
    {
        let chars = chars_of(entry.message.as_str());
        let at = scan_run(&chars, 0, CharClass::Space);
        stands_at(&chars, at, "Caused by: ")
    }

    /// The text of a line of a stack trace.
    fn stacktrace_line(start: &str, entry: &LogEntry) -> (r: String)
        ensures
            r@ == stacktrace_text(start@, entry@),
    {
        proof {
            reveal_strlit(" ");
        }
        let message = entry.message.as_str();
        let chars = chars_of(message);
        let at = scan_run(&chars, 0, CharClass::Space);
        let mut text = String::from_str(start);
        push_repeated(&mut text, Fill::Space, entry.tag.as_str().unicode_len());
        text.append(message.substring_char(at, chars.len()));
        assert(chars@.subrange(at as int, chars.len() as int) == trim_start(entry@.message));
        text
    }

    /// Renders a frame of a stack trace: one dimmed segment in the colour of
    /// the level.
    pub fn format_stacktrace_entry(entry: &LogEntry) -> (r: FormattedLogLine)
        ensures
            r@ == seq![
                StyledTextView {
                    dimmed: true,
                    ..colored(
                        stacktrace_text(STACKTRACE_ENTRY_START@, entry@),
                        level_color(entry.level),
                    )
                },
            ],
    {
        let text = Self::stacktrace_line(STACKTRACE_ENTRY_START, entry);
        FormattedLogLine::single(StyledText::colored(text, color_of_level(entry.level)).dimmed())
    }

    /// Renders the cause of an exception: one segment in the colour of the
    /// level.
    pub fn format_stacktrace_cause(entry: &LogEntry) -> (r: FormattedLogLine)
        ensures
            r@ == seq![
                colored(stacktrace_text(STACKTRACE_CAUSE_START@, entry@), level_color(entry.level)),
            ],
    {
        let text = Self::stacktrace_line(STACKTRACE_CAUSE_START, entry);
        FormattedLogLine::single(StyledText::colored(text, color_of_level(entry.level)))
    }

    /// Renders an entry in six columns, the tag column widened for its tag
    /// where there is need and room.
    pub fn format_regular_entry(&mut self, entry: &LogEntry) -> (r: FormattedLogLine)
        ensures
            final(self).tag_width() == next_width(old(self).tag_width(), entry@.tag.len()),
            r@ == regular_entry(entry@, final(self).tag_width()),
    {
        let mut line = FormattedLogLine::single(Self::format_datetime(&entry.datetime));
        line.push(Self::format_pid(entry.pid));
        line.push(Self::format_tid(entry.tid));
        line.push(Self::format_log_level(entry.level));
        line.push(self.format_tag(entry.tag.as_str()));
        line.push(Self::format_message(entry.message.as_str(), entry.level));
        assert(line@ =~= regular_entry(entry@, self.tag_width()));
        line
    }

    /// The time stamp of an entry, without its year.
    pub fn format_datetime(datetime: &Timestamp) -> (r: StyledText)
        ensures
            r@ == colored(stamp_text(*datetime), colors::DATETIME),
    {
        let mut text = String::new();
        datetime.push_stamp(&mut text);
        assert(text@ =~= stamp_text(*datetime));
        StyledText::colored(text, colors::DATETIME)
    }

    /// The process number at the right of a column five wide.
    pub fn format_pid(pid: u32) -> (r: StyledText)
        ensures
            r@ == colored(pad_left(decimal_text(pid as nat), 5, ' '), colors::PID),
    {
        proof {
            reveal_strlit(" ");
        }
        let mut text = String::new();
        push_padded_decimal(&mut text, pid as u64, 5, Fill::Space);
        assert(text@ =~= pad_left(decimal_text(pid as nat), 5, ' '));
        StyledText::colored(text, colors::PID)
    }

    /// The thread number at the right of a column five wide.
    pub fn format_tid(tid: u32) -> (r: StyledText)
        ensures
            r@ == colored(pad_left(decimal_text(tid as nat), 5, ' '), colors::TID),
    {
        proof {
            reveal_strlit(" ");
        }
        let mut text = String::new();
        push_padded_decimal(&mut text, tid as u64, 5, Fill::Space);
        assert(text@ =~= pad_left(decimal_text(tid as nat), 5, ' '));
        StyledText::colored(text, colors::TID)
    }

    /// The badge of a level.
    pub fn format_log_level(level: LogLevel) -> (r: StyledText)
        ensures
            r@ == level_badge(level),
    {
        proof {
            reveal_strlit(" S ");
            reveal_strlit(" V ");
            reveal_strlit(" D ");
            reveal_strlit(" I ");
            reveal_strlit(" W ");
            reveal_strlit(" E ");
            reveal_strlit(" F ");
        }
        let badge = match level {
            LogLevel::Silent => " S ",
            LogLevel::Verbose => " V ",
            LogLevel::Debug => " D ",
            LogLevel::Info => " I ",
            LogLevel::Warning => " W ",
            LogLevel::Error => " E ",
            LogLevel::Fatal => " F ",
        };
        assert(badge@ =~= seq![' ', level.letter(), ' ']);
        StyledText::colored(String::from_str(badge), colors::LEVEL_FOREGROUND).on_color(
            color_of_level(level),
        ).bold()
    }

    /// Widens the tag column for `tag` where there is need and room, and
    /// sets the tag in the middle of it.
    pub fn format_tag(&mut self, tag: &str) -> (r: StyledText)
        ensures
            final(self).tag_width() == next_width(old(self).tag_width(), tag@.len()),
            r@ == tag_cell(tag@, final(self).tag_width()),
    {
        proof {
            use_type_invariant(&*self);
            reveal_strlit(" ");
        }
        let len = tag.unicode_len();
        let wanted = if len < MAX_TAG_LENGTH {
            len
        } else {
            MAX_TAG_LENGTH
        };
        if wanted > self.tag_length {
            self.tag_length = wanted;
        }
        let width = self.tag_length;
        let mut text = String::new();
        if len < width {
            let before = (width - len) / 2;
            push_repeated(&mut text, Fill::Space, before);
            text.append(tag);
            push_repeated(&mut text, Fill::Space, width - len - before);
        } else {
            text.append(tag);
        }
        assert(text@ =~= centered(tag@, width as nat));
        if same_text(tag, MISSING_TAG) {
            StyledText::colored(text, colors::MISSING_TAG).italic()
        } else {
            StyledText::colored(text, colors::TAG)
        }
    }

    /// The message in the colour of its level.
    pub fn format_message(message: &str, level: LogLevel) -> (r: StyledText)
        ensures
            r@ == colored(message@, level_color(level)),
    {
        StyledText::colored(String::from_str(message), color_of_level(level))
    }
}

/// The tag column never gets narrower, and never wider than
/// `MAX_TAG_LENGTH` unless it was so before.
pub proof fn lemma_width_only_grows(line: LogLineView, width: nat)
    ensures
        width_after(line, width) >= width,
        width <= MAX_TAG_LENGTH ==> width_after(line, width) <= MAX_TAG_LENGTH,
{
}

/// A frame of a stack trace, and a cause, is shown as one segment in the
/// colour of its level, the frame dimmed and the cause not; neither touches
/// the tag column.
pub proof fn lemma_stacktrace_lines(entry: LogEntryView, width: nat)
    requires
        is_stacktrace_entry(entry.message) || is_stacktrace_cause(entry.message),
    ensures
        rendered_entry(entry, width).len() == 1,
        rendered_entry(entry, width)[0].foreground == Some(level_color(entry.level)),
        rendered_entry(entry, width)[0].dimmed == is_stacktrace_entry(entry.message),
        width_after(LogLineView::Entry(entry), width) == width,
{
}

} // verus!
