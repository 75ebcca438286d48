//! The shape of the lines that are read: what a header and an entry look
//! like, said without reading them from left to right.

use vstd::prelude::*;
use crate::log::LogLevel;
use crate::parse::{
    ends_at, entry_layout, number_end, parse_entry, parse_header, section_name_end,
    stamp_moment, EntryLayout, HEADER_PREFIX, STAMP_TEMPLATE,
};
use crate::round_trip::is_section_name;
use crate::text::{
    decimal_value, fits, follows, is_space, lemma_follows, lemma_run_end_bounds,
    lemma_run_end_holds, lemma_run_end_is, CharClass,
};

verus! {

/// Whether every character of `s[from..to]` is of `class`.
pub open spec fn all_of(s: Seq<char>, from: int, to: int, class: CharClass) -> bool {
    forall|i: int| from <= i < to ==> class.contains(#[trigger] s[i])
}

/// Whether `s[from..to]` is a number that fits in 32 bits: a single zero,
/// or digits of which the first is no zero.
pub open spec fn is_number(s: Seq<char>, from: int, to: int) -> bool {
    &&& 0 <= from < to <= s.len()
    &&& all_of(s, from, to, CharClass::Digit)
    &&& s[from] == '0' ==> to == from + 1
    &&& decimal_value(s.subrange(from, to)) <= u32::MAX
}

/// Whether `s` is an entry whose fields stand where `l` says, its time
/// stamp a moment of `year`. After the time stamp come the two numbers and
/// the letter of the level, with white space before each, of which there is
/// some between one field and the next; the rest follows after white space,
/// unless the line ends with the level, and stays on the line.
pub open spec fn is_entry(s: Seq<char>, year: i32, l: EntryLayout) -> bool {
    &&& follows(s, STAMP_TEMPLATE@)
    &&& stamp_moment(s, year) is Some
    &&& STAMP_TEMPLATE@.len() <= l.pid
    &&& all_of(s, STAMP_TEMPLATE@.len() as int, l.pid, CharClass::Space)
    &&& is_number(s, l.pid, l.pid_end)
    &&& l.pid_end < l.tid
    &&& all_of(s, l.pid_end, l.tid, CharClass::Space)
    &&& is_number(s, l.tid, l.tid_end)
    &&& l.tid_end < l.level < s.len()
    &&& all_of(s, l.tid_end, l.level, CharClass::Space)
    &&& LogLevel::of_letter(s[l.level]) is Some
    &&& l.level < l.rest <= l.rest_end <= s.len()
    &&& all_of(s, l.level + 1, l.rest, CharClass::Space)
    &&& l.rest < s.len() ==> l.level + 1 < l.rest && !is_space(s[l.rest])
    &&& all_of(s, l.rest, l.rest_end, CharClass::Inline)
    &&& ends_at(s, l.rest_end)
}

/// A line is read as an entry exactly if it has the shape of one, and its
/// fields are then found where they stand: there is one way at most to see
/// an entry in a line.
pub proof fn lemma_entries(s: Seq<char>, year: i32, l: EntryLayout)
    ensures
        parse_entry(s, year) is Ok ==> is_entry(s, year, entry_layout(s)),
        is_entry(s, year, l) ==> l == entry_layout(s) && parse_entry(s, year) is Ok,
{
    reveal_strlit("00-00 00:00:00.000 ");
    let start = STAMP_TEMPLATE@.len() as int;
    lemma_follows(s, STAMP_TEMPLATE@, 0);
    if parse_entry(s, year) is Ok {
        let f = entry_layout(s);
        lemma_run_end_bounds(s, start, CharClass::Space);
        lemma_run_end_holds(s, start, CharClass::Space);
        lemma_number_end(s, f.pid);
        lemma_run_end_bounds(s, f.pid_end, CharClass::Space);
        lemma_run_end_holds(s, f.pid_end, CharClass::Space);
        lemma_number_end(s, f.tid);
        lemma_run_end_bounds(s, f.tid_end, CharClass::Space);
        lemma_run_end_holds(s, f.tid_end, CharClass::Space);
        lemma_run_end_bounds(s, f.level + 1, CharClass::Space);
        lemma_run_end_holds(s, f.level + 1, CharClass::Space);
        lemma_run_end_bounds(s, f.rest, CharClass::Inline);
        lemma_run_end_holds(s, f.rest, CharClass::Inline);
        assert(is_entry(s, year, f));
    }
    if is_entry(s, year, l) {
        assert(CharClass::Digit.contains(s[l.pid]));
        lemma_run_end_is(s, start, l.pid, CharClass::Space);
        lemma_number_is(s, l.pid, l.pid_end);
        assert(CharClass::Digit.contains(s[l.tid]));
        lemma_run_end_is(s, l.pid_end, l.tid, CharClass::Space);
        lemma_number_is(s, l.tid, l.tid_end);
        LogLevel::lemma_letters(s[l.level]);
        lemma_run_end_is(s, l.tid_end, l.level, CharClass::Space);
        lemma_run_end_is(s, l.level + 1, l.rest, CharClass::Space);
        assert(l.rest_end == s.len() || !CharClass::Inline.contains(s[l.rest_end]));
        lemma_run_end_is(s, l.rest, l.rest_end, CharClass::Inline);
        assert(l == entry_layout(s));
    }
}

/// What `number_end` finds from a place in the line on is digits, and a
/// number if there are any.
proof fn lemma_number_end(s: Seq<char>, at: int)
    requires
        0 <= at <= s.len(),
    ensures
        at <= number_end(s, at) <= s.len(),
        all_of(s, at, number_end(s, at), CharClass::Digit),
        at < number_end(s, at) && s[at] == '0' ==> number_end(s, at) == at + 1,
{
    lemma_run_end_bounds(s, at, CharClass::Digit);
    lemma_run_end_holds(s, at, CharClass::Digit);
}

/// A number that white space follows ends where `number_end` says.
proof fn lemma_number_is(s: Seq<char>, from: int, to: int)
    requires
        0 <= from < to < s.len(),
        all_of(s, from, to, CharClass::Digit),
        s[from] == '0' ==> to == from + 1,
        is_space(s[to]),
    ensures
        number_end(s, from) == to,
{
    if s[from] != '0' {
        lemma_run_end_is(s, from, to, CharClass::Digit);
    }
}

/// A line is read as a header exactly if it is the header prefix, the name
/// of a section and the end of the line.
pub proof fn lemma_headers(s: Seq<char>)
    ensures
        parse_header(s) is Ok <==> {
            &&& follows(s, HEADER_PREFIX@)
            &&& is_section_name(
                s.subrange(HEADER_PREFIX@.len() as int, section_name_end(s)),
            )
            &&& ends_at(s, section_name_end(s))
        },
        follows(s, HEADER_PREFIX@) <==> HEADER_PREFIX@.len() <= s.len() && s.take(
            HEADER_PREFIX@.len() as int,
        ) == HEADER_PREFIX@,
{
    reveal_strlit("--------- beginning of ");
    let prefix = HEADER_PREFIX@;
    let start = prefix.len() as int;
    lemma_follows(s, prefix, 0);
    if follows(s, prefix) {
        assert(s.take(start) =~= prefix) by {
            assert forall|i: int| 0 <= i < start implies s[i] == prefix[i] by {
                assert(fits(prefix[i], s[i]));
            }
        }
        let end = section_name_end(s);
        lemma_run_end_bounds(s, start, CharClass::Word);
        lemma_run_end_holds(s, start, CharClass::Word);
        let name = s.subrange(start, end);
        if end > start {
            assert(name[0] == s[start]);
            assert forall|i: int| 0 <= i < name.len() implies CharClass::Word.contains(
                #[trigger] name[i],
            ) by {
                assert(name[i] == s[start + i]);
            }
        }
    }
    if prefix.len() <= s.len() && s.take(start) == prefix {
        assert forall|i: int| 0 <= i < start implies fits(
            prefix[i],
            #[trigger] s[i],
        ) by {
            assert(s.take(start)[i] == s[i]);
        }
    }
}

} // verus!
