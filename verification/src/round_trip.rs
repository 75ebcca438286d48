//! What is written the usual way is read back as it was.

use vstd::prelude::*;
use crate::log::{LogEntryView, LogLevel, LogLineView};
use crate::parse::{
    ends_at, entry_layout, number_end, parse_entry, parse_line, section_name_end, split_rest,
    stamp_moment, terminator_len, EntryLayout, ParseError, ParseWarning, ParsedView,
    HEADER_PREFIX, STAMP_TEMPLATE,
};
use crate::text::{
    decimal_text, first_separator, fits, follows, is_digit, is_newline, is_space,
    lemma_decimal_text, lemma_decimal_text_len, lemma_first_separator, lemma_follows,
    lemma_run_end_bounds, lemma_run_end_holds, lemma_run_end_is, lemma_trim_before_space,
    lemma_zero_padded, mismatch, pad_left, run_end, separator_at, trim, trim_start, CharClass,
};
use crate::timestamp::{stamp_text, Timestamp};

verus! {

/// A name that a section can have: ASCII letters, digits and underscores,
/// at least one, the first no digit.
pub open spec fn is_section_name(name: Seq<char>) -> bool {
    &&& name.len() > 0
    &&& !is_digit(name[0])
    &&& forall|i: int| 0 <= i < name.len() ==> CharClass::Word.contains(#[trigger] name[i])
}

/// The header of a section is read as the header of that section, whatever
/// the section is called.
pub proof fn lemma_header_is_read(name: Seq<char>, year: i32)
    requires
        is_section_name(name),
    ensures
        parse_line(HEADER_PREFIX@ + name, year) == Ok::<ParsedView, ParseError>(
            ParsedView { line: LogLineView::Header(name), warning: None },
        ),
{
    let prefix = HEADER_PREFIX@;
    let s = prefix + name;
    let start = prefix.len() as int;
    lemma_follows(s, prefix, 0);
    assert forall|i: int| 0 <= i < prefix.len() implies fits(prefix[i], #[trigger] s[i]) by {
        assert(s[i] == prefix[i]);
    }
    assert(follows(s, prefix));
    assert forall|i: int| start <= i < s.len() implies CharClass::Word.contains(
        #[trigger] s[i],
    ) by {
        assert(s[i] == name[i - start]);
    }
    lemma_run_end_is(s, start, s.len() as int, CharClass::Word);
    assert(section_name_end(s) == s.len());
    assert(s[start] == name[0]);
    assert(terminator_len(s, s.len() as int) == 0);
    assert(s.subrange(start, s.len() as int) == name);
}

/// The text of a moment that exists has the shape of a time stamp and
/// names that moment in its year, whatever follows it after a space.
pub proof fn lemma_stamp_is_read(t: Timestamp, rest: Seq<char>)
    requires
        t.is_valid(),
    ensures
        stamp_text(t).len() == 18,
        follows(stamp_text(t) + seq![' '] + rest, STAMP_TEMPLATE@),
        stamp_moment(stamp_text(t) + seq![' '] + rest, t.year) == Some(t),
{
    reveal_strlit("00-00 00:00:00.000 ");
    let month = pad_left(decimal_text(t.month as nat), 2, '0');
    let day = pad_left(decimal_text(t.day as nat), 2, '0');
    let hour = pad_left(decimal_text(t.hour as nat), 2, '0');
    let minute = pad_left(decimal_text(t.minute as nat), 2, '0');
    let second = pad_left(decimal_text(t.second as nat), 2, '0');
    let milli = pad_left(decimal_text(t.millisecond as nat), 3, '0');
    lemma_zero_padded(t.month as nat, 2);
    lemma_zero_padded(t.day as nat, 2);
    lemma_zero_padded(t.hour as nat, 2);
    lemma_zero_padded(t.minute as nat, 2);
    lemma_zero_padded(t.second as nat, 2);
    lemma_zero_padded(t.millisecond as nat, 3);
    let stamp = stamp_text(t);
    assert(stamp == month + seq!['-'] + day + seq![' '] + hour + seq![':'] + minute + seq![':']
        + second + seq!['.'] + milli);
    assert(stamp.len() == 18);
    let s = stamp + seq![' '] + rest;
    assert(s.subrange(0, 2) == month);
    assert(s.subrange(3, 5) == day);
    assert(s.subrange(6, 8) == hour);
    assert(s.subrange(9, 11) == minute);
    assert(s.subrange(12, 14) == second);
    assert(s.subrange(15, 18) == milli);
    let template = STAMP_TEMPLATE@;
    assert forall|i: int| 0 <= i < template.len() implies fits(template[i], #[trigger] s[i]) by {
        if i < 2 {
            assert(s[i] == month[i]);
        } else if i == 2 {
        } else if i < 5 {
            assert(s[i] == day[i - 3]);
        } else if i == 5 {
        } else if i < 8 {
            assert(s[i] == hour[i - 6]);
        } else if i == 8 {
        } else if i < 11 {
            assert(s[i] == minute[i - 9]);
        } else if i == 11 {
        } else if i < 14 {
            assert(s[i] == second[i - 12]);
        } else if i == 14 {
        } else if i < 18 {
            assert(s[i] == milli[i - 15]);
        } else {
        }
    }
    lemma_follows(s, template, 0);
}

/// The line that carries an entry: the time stamp, the process and the
/// thread number, each at the right of a column five wide, the letter of
/// the level, the tag, a colon and the message, with one space between
/// each and the next.
pub open spec fn entry_line(entry: LogEntryView) -> Seq<char> {
    stamp_text(entry.datetime) + seq![' '] + pad_left(decimal_text(entry.pid as nat), 5, ' ')
        + seq![' '] + pad_left(decimal_text(entry.tid as nat), 5, ' ') + seq![
        ' ',
        entry.level.letter(),
        ' ',
    ] + entry.tag + seq![':', ' '] + entry.message
}

/// Text in which no character ends a line.
pub open spec fn is_inline(text: Seq<char>) -> bool {
    forall|i: int| 0 <= i < text.len() ==> !is_newline(#[trigger] text[i])
}

/// Text in which no character ends a line, but for one line terminator
/// that it may have at its end.
pub open spec fn stays_on_line(text: Seq<char>) -> bool {
    ends_at(text, run_end(text, 0, CharClass::Inline))
}

/// Text in which no `": "` stands.
pub open spec fn has_no_separator(text: Seq<char>) -> bool {
    forall|i: int| !separator_at(text, i)
}

/// Where the fields stand in the line that carries `entry`.
pub open spec fn written_layout(entry: LogEntryView) -> EntryLayout {
    let pid_len = decimal_text(entry.pid as nat).len() as int;
    let tid_len = decimal_text(entry.tid as nat).len() as int;
    let pid_end = 19 + (if pid_len < 5 {
        5
    } else {
        pid_len
    });
    let tid_end = pid_end + 1 + (if tid_len < 5 {
        5
    } else {
        tid_len
    });
    EntryLayout {
        pid: pid_end - pid_len,
        pid_end,
        tid: tid_end - tid_len,
        tid_end,
        level: tid_end + 1,
        rest: tid_end + 3 + run_end(entry.tag, 0, CharClass::Space),
        rest_end: tid_end + 3 + entry.tag.len() + 2 + run_end(
            entry.message,
            0,
            CharClass::Inline,
        ),
    }
}

/// What stands where in the line that carries an entry.
proof fn lemma_line_chars(entry: LogEntryView)
    requires
        entry.datetime.is_valid(),
    ensures
        ({
            let s = entry_line(entry);
            let w = written_layout(entry);
            let pid = decimal_text(entry.pid as nat);
            let tid = decimal_text(entry.tid as nat);
            &&& s.len() == w.level + 4 + entry.tag.len() + entry.message.len()
            &&& 19 <= w.pid < w.pid_end < w.tid < w.tid_end < w.level
            &&& forall|i: int| 19 <= i < w.pid ==> #[trigger] s[i] == ' '
            &&& forall|i: int| w.pid <= i < w.pid_end ==> #[trigger] s[i] == pid[i - w.pid]
            &&& forall|i: int| w.pid_end <= i < w.tid ==> #[trigger] s[i] == ' '
            &&& forall|i: int| w.tid <= i < w.tid_end ==> #[trigger] s[i] == tid[i - w.tid]
            &&& s[w.tid_end] == ' '
            &&& s[w.level] == entry.level.letter()
            &&& s[w.level + 1] == ' '
            &&& forall|i: int|
                0 <= i < entry.tag.len() ==> #[trigger] s[w.level + 2 + i] == entry.tag[i]
            &&& s[w.level + 2 + entry.tag.len()] == ':'
            &&& s[w.level + 3 + entry.tag.len()] == ' '
            &&& forall|i: int|
                0 <= i < entry.message.len() ==> #[trigger] s[w.level + 4 + entry.tag.len() + i]
                    == entry.message[i]
        }),
{
    lemma_stamp_is_read(entry.datetime, Seq::empty());
    lemma_decimal_text_len(entry.pid as nat);
    lemma_decimal_text_len(entry.tid as nat);
    let s = entry_line(entry);
    let w = written_layout(entry);
    let stamp = stamp_text(entry.datetime);
    let pid = pad_left(decimal_text(entry.pid as nat), 5, ' ');
    let tid = pad_left(decimal_text(entry.tid as nat), 5, ' ');
    let s1 = stamp + seq![' '];
    let s2 = s1 + pid;
    let s3 = s2 + seq![' '];
    let s4 = s3 + tid;
    let s5 = s4 + seq![' ', entry.level.letter(), ' '];
    let s6 = s5 + entry.tag;
    let s7 = s6 + seq![':', ' '];
    assert(s == s7 + entry.message);
    assert(s1.len() == 19);
    assert(s2.len() == w.pid_end);
    assert(s4.len() == w.tid_end);
    assert(s5.len() == w.level + 2);
    assert forall|i: int| 19 <= i < w.pid_end implies #[trigger] s[i] == pid[i - 19] by {
        assert(s2[i] == pid[i - 19]);
    }
    assert forall|i: int| w.pid_end + 1 <= i < w.tid_end implies #[trigger] s[i] == tid[i
        - w.pid_end - 1] by {
        assert(s4[i] == tid[i - w.pid_end - 1]);
    }
    assert(s[w.pid_end] == s3[w.pid_end]);
    assert(s[w.tid_end] == s5[w.tid_end]);
    assert(s[w.level] == s5[w.level]);
    assert(s[w.level + 1] == s5[w.level + 1]);
    assert forall|i: int| 0 <= i < entry.tag.len() implies #[trigger] s[w.level + 2 + i]
        == entry.tag[i] by {
        assert(s6[w.level + 2 + i] == entry.tag[i]);
    }
    assert(s[w.level + 2 + entry.tag.len()] == s7[w.level + 2 + entry.tag.len()]);
    assert(s[w.level + 3 + entry.tag.len()] == s7[w.level + 3 + entry.tag.len()]);
}

/// The fields of a written entry are found where they were put.
proof fn lemma_layout_is_found(entry: LogEntryView)
    requires
        entry.datetime.is_valid(),
        is_inline(trim_start(entry.tag)),
    ensures
        entry_layout(entry_line(entry)) == written_layout(entry),
{
    reveal_strlit("00-00 00:00:00.000 ");
    lemma_line_chars(entry);
    lemma_decimal_text(entry.pid as nat);
    lemma_decimal_text(entry.tid as nat);
    let s = entry_line(entry);
    let w = written_layout(entry);
    let pid = decimal_text(entry.pid as nat);
    let tid = decimal_text(entry.tid as nat);
    let lead = run_end(entry.tag, 0, CharClass::Space);
    let kept = run_end(entry.message, 0, CharClass::Inline);
    lemma_run_end_bounds(entry.tag, 0, CharClass::Space);
    lemma_run_end_holds(entry.tag, 0, CharClass::Space);
    lemma_run_end_bounds(entry.message, 0, CharClass::Inline);
    lemma_run_end_holds(entry.message, 0, CharClass::Inline);

    assert(s[w.pid] == pid[0]);
    lemma_run_end_is(s, 19, w.pid, CharClass::Space);
    assert(number_end(s, w.pid) == w.pid_end) by {
        if s[w.pid] != '0' {
            assert forall|i: int| w.pid <= i < w.pid_end implies CharClass::Digit.contains(
                #[trigger] s[i],
            ) by {
                assert(is_digit(pid[i - w.pid]));
            }
            lemma_run_end_is(s, w.pid, w.pid_end, CharClass::Digit);
        }
    }
    assert(s[w.tid] == tid[0]);
    lemma_run_end_is(s, w.pid_end, w.tid, CharClass::Space);
    assert(number_end(s, w.tid) == w.tid_end) by {
        if s[w.tid] != '0' {
            assert forall|i: int| w.tid <= i < w.tid_end implies CharClass::Digit.contains(
                #[trigger] s[i],
            ) by {
                assert(is_digit(tid[i - w.tid]));
            }
            lemma_run_end_is(s, w.tid, w.tid_end, CharClass::Digit);
        }
    }
    lemma_run_end_is(s, w.tid_end, w.level, CharClass::Space);
    assert forall|i: int| w.level + 1 <= i < w.rest implies CharClass::Space.contains(
        #[trigger] s[i],
    ) by {
        if i > w.level + 1 {
            assert(s[w.level + 2 + (i - w.level - 2)] == entry.tag[i - w.level - 2]);
        }
    }
    assert(!CharClass::Space.contains(s[w.rest])) by {
        if lead < entry.tag.len() {
            assert(s[w.level + 2 + lead] == entry.tag[lead]);
        }
    }
    lemma_run_end_is(s, w.level + 1, w.rest, CharClass::Space);
    assert forall|i: int| w.rest <= i < w.rest_end implies CharClass::Inline.contains(
        #[trigger] s[i],
    ) by {
        let k = i - w.level - 2;
        if k < entry.tag.len() {
            assert(s[w.level + 2 + k] == entry.tag[k]);
            assert(trim_start(entry.tag)[k - lead] == entry.tag[k]);
        } else if k >= entry.tag.len() + 2 {
            let m = k - entry.tag.len() - 2;
            assert(s[w.level + 4 + entry.tag.len() + m] == entry.message[m]);
        }
    }
    assert(w.rest_end == s.len() || !CharClass::Inline.contains(s[w.rest_end])) by {
        if kept < entry.message.len() {
            assert(s[w.level + 4 + entry.tag.len() + kept] == entry.message[kept]);
        }
    }
    lemma_run_end_is(s, w.rest, w.rest_end, CharClass::Inline);
}

/// What follows the level of a written entry is parted into its tag and
/// its message.
proof fn lemma_rest_is_parted(tag: Seq<char>, message: Seq<char>)
    requires
        has_no_separator(tag),
    ensures
        split_rest(trim_start(tag) + seq![':', ' '] + message) == (
            trim(tag),
            trim(message),
            None::<ParseWarning>,
        ),
{
    let lead = run_end(tag, 0, CharClass::Space);
    lemma_run_end_bounds(tag, 0, CharClass::Space);
    lemma_run_end_holds(tag, 0, CharClass::Space);
    let kept = trim_start(tag);
    let rest = kept + seq![':', ' '] + message;
    let k = kept.len() as int;
    assert(separator_at(rest, k));
    lemma_first_separator(rest, 0);
    let at = first_separator(rest, 0).unwrap();
    if at < k {
        if at + 1 < k {
            assert(rest[at] == tag[lead + at]);
            assert(rest[at + 1] == tag[lead + at + 1]);
            assert(separator_at(tag, lead + at));
        }
    }
    assert(at == k);
    assert(rest.take(k) == kept);
    assert(rest.skip(k + 2) == message);
    assert(run_end(kept, 0, CharClass::Space) == 0) by {
        if kept.len() > 0 {
            assert(kept[0] == tag[lead]);
        }
    }
    assert(kept.skip(0) == kept);
}

/// The numbers of a written entry stand where the layout says.
proof fn lemma_numbers_are_found(entry: LogEntryView)
    requires
        entry.datetime.is_valid(),
    ensures
        ({
            let s = entry_line(entry);
            let w = written_layout(entry);
            &&& s.subrange(w.pid, w.pid_end) == decimal_text(entry.pid as nat)
            &&& s.subrange(w.tid, w.tid_end) == decimal_text(entry.tid as nat)
            &&& w.pid < w.pid_end < w.tid < w.tid_end < w.level < s.len()
            &&& s[w.level] == entry.level.letter()
            &&& w.level + 1 < w.rest <= w.rest_end <= s.len()
        }),
{
    lemma_line_chars(entry);
    lemma_run_end_bounds(entry.tag, 0, CharClass::Space);
    lemma_run_end_bounds(entry.message, 0, CharClass::Inline);
    let s = entry_line(entry);
    let w = written_layout(entry);
    assert(s.subrange(w.pid, w.pid_end) =~= decimal_text(entry.pid as nat));
    assert(s.subrange(w.tid, w.tid_end) =~= decimal_text(entry.tid as nat));
}

/// What follows the level of a written entry is its tag, from the first
/// character that is no white space, the colon with its space and the
/// message up to the end of its line; the line ends where the message
/// does.
proof fn lemma_rest_is_found(entry: LogEntryView)
    requires
        entry.datetime.is_valid(),
        stays_on_line(entry.message),
    ensures
        ({
            let s = entry_line(entry);
            let w = written_layout(entry);
            let kept = run_end(entry.message, 0, CharClass::Inline);
            &&& s.subrange(w.rest, w.rest_end) == trim_start(entry.tag) + seq![':', ' ']
                + entry.message.take(kept)
            &&& ends_at(s, w.rest_end)
        }),
{
    lemma_line_chars(entry);
    let s = entry_line(entry);
    let w = written_layout(entry);
    let lead = run_end(entry.tag, 0, CharClass::Space);
    let kept = run_end(entry.message, 0, CharClass::Inline);
    lemma_run_end_bounds(entry.tag, 0, CharClass::Space);
    lemma_run_end_bounds(entry.message, 0, CharClass::Inline);
    let left = s.subrange(w.rest, w.rest_end);
    let right = trim_start(entry.tag) + seq![':', ' '] + entry.message.take(kept);
    assert(left.len() == right.len());
    assert forall|i: int| 0 <= i < left.len() implies left[i] == right[i] by {
        let k = lead + i;
        if k < entry.tag.len() {
            assert(s[w.level + 2 + k] == entry.tag[k]);
        } else if k >= entry.tag.len() + 2 {
            let m = k - entry.tag.len() - 2;
            assert(s[w.level + 4 + entry.tag.len() + m] == entry.message[m]);
        }
    }
    assert(left =~= right);
    if kept < entry.message.len() {
        assert(s[w.level + 4 + entry.tag.len() + kept] == entry.message[kept]);
        if kept + 1 < entry.message.len() {
            assert(s[w.level + 4 + entry.tag.len() + (kept + 1)] == entry.message[kept + 1]);
        }
    }
    assert(terminator_len(s, w.rest_end) == terminator_len(entry.message, kept));
}

/// What follows a message on its line, a line terminator at most, is white
/// space: trimming the message leaves what trimming its line leaves.
proof fn lemma_terminator_is_trimmed(message: Seq<char>)
    requires
        stays_on_line(message),
    ensures
        trim(message.take(run_end(message, 0, CharClass::Inline))) == trim(message),
{
    let kept = run_end(message, 0, CharClass::Inline);
    lemma_run_end_bounds(message, 0, CharClass::Inline);
    lemma_run_end_holds(message, 0, CharClass::Inline);
    let tail = message.skip(kept);
    assert(message =~= message.take(kept) + tail);
    assert forall|i: int| 0 <= i < tail.len() implies is_space(#[trigger] tail[i]) by {
        assert(tail[i] == message[kept + i]);
    }
    lemma_trim_before_space(message.take(kept), tail);
}

/// The time stamp of a written entry is read as the moment of the entry.
proof fn lemma_moment_is_found(entry: LogEntryView)
    requires
        entry.datetime.is_valid(),
    ensures
        follows(entry_line(entry), STAMP_TEMPLATE@),
        stamp_moment(entry_line(entry), entry.datetime.year) == Some(entry.datetime),
        !follows(entry_line(entry), HEADER_PREFIX@),
        mismatch(entry_line(entry), HEADER_PREFIX@, 0) == 0,
{
    reveal_strlit("--------- beginning of ");
    reveal_strlit("00-00 00:00:00.000 ");
    let s = entry_line(entry);
    let after = pad_left(decimal_text(entry.pid as nat), 5, ' ') + seq![' '] + pad_left(
        decimal_text(entry.tid as nat),
        5,
        ' ',
    ) + seq![' ', entry.level.letter(), ' '] + entry.tag + seq![':', ' '] + entry.message;
    assert(s =~= stamp_text(entry.datetime) + seq![' '] + after);
    lemma_stamp_is_read(entry.datetime, after);
    lemma_follows(s, STAMP_TEMPLATE@, 0);
    assert(fits(STAMP_TEMPLATE@[0], s[0]));
    assert(mismatch(s, HEADER_PREFIX@, 0) == 0);
}

/// An entry that is written the usual way is read back as it was, with its
/// tag and its message trimmed. What it takes: the moment exists, no `": "`
/// stands in the tag, and nothing ends the line before its end, neither in
/// the tag, once the white space before it is left out, nor in the message,
/// which may end with a line terminator.
pub proof fn lemma_entry_is_read(entry: LogEntryView)
    requires
        entry.datetime.is_valid(),
        has_no_separator(entry.tag),
        is_inline(trim_start(entry.tag)),
        stays_on_line(entry.message),
    ensures
        parse_line(entry_line(entry), entry.datetime.year) == Ok::<ParsedView, ParseError>(
            ParsedView {
                line: LogLineView::Entry(
                    LogEntryView {
                        tag: trim(entry.tag),
                        message: trim(entry.message),
                        ..entry
                    },
                ),
                warning: None,
            },
        ),
{
    let s = entry_line(entry);
    let w = written_layout(entry);
    let year = entry.datetime.year;
    let kept = run_end(entry.message, 0, CharClass::Inline);
    lemma_moment_is_found(entry);
    lemma_layout_is_found(entry);
    lemma_numbers_are_found(entry);
    lemma_rest_is_found(entry);
    lemma_decimal_text(entry.pid as nat);
    lemma_decimal_text(entry.tid as nat);
    lemma_rest_is_parted(entry.tag, entry.message.take(kept));
    lemma_terminator_is_trimmed(entry.message);
    LogLevel::lemma_letters(entry.level.letter());
    assert(parse_entry(s, year) == Ok::<ParsedView, ParseError>(
        ParsedView {
            line: LogLineView::Entry(
                LogEntryView { tag: trim(entry.tag), message: trim(entry.message), ..entry },
            ),
            warning: None,
        },
    ));
}

} // verus!
