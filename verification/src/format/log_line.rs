//! A rendered line: styled segments, shown with one space between them.

use vstd::prelude::*;
use vstd::string::StringExecFns;
use nonempty_collections::NEVec;
use crate::format::colors::Color;

verus! {

/// A piece of text and how it is to be shown.
#[derive(Debug, Clone, PartialEq, Eq)]
pub struct StyledText {
    pub text: String,
    pub foreground: Option<Color>,
    pub background: Option<Color>,
    pub bold: bool,
    pub dimmed: bool,
    pub italic: bool,
}

/// What a `StyledText` holds, its text as a sequence of characters.
pub struct StyledTextView {
    pub text: Seq<char>,
    pub foreground: Option<Color>,
    pub background: Option<Color>,
    pub bold: bool,
    pub dimmed: bool,
    pub italic: bool,
}

impl View for StyledText {
    type V = StyledTextView;

    open spec fn view(&self) -> StyledTextView {
        StyledTextView {
            text: self.text@,
            foreground: self.foreground,
            background: self.background,
            bold: self.bold,
            dimmed: self.dimmed,
            italic: self.italic,
        }
    }
}

/// Text of one colour and no other styling.
pub open spec fn colored(text: Seq<char>, color: Color) -> StyledTextView {
    StyledTextView {
        text,
        foreground: Some(color),
        background: None,
        bold: false,
        dimmed: false,
        italic: false,
    }
}

impl StyledText {
    /// `text` in the given colour.
    pub fn colored(text: String, color: Color) -> (r: Self)
        ensures
            r@ == colored(text@, color),
    {
        StyledText {
            text,
            foreground: Some(color),
            background: None,
            bold: false,
            dimmed: false,
            italic: false,
        }
    }

    /// The same text on a background of the given colour.
    pub fn on_color(self, color: Color) -> (r: Self)
        ensures
            r@ == (StyledTextView { background: Some(color), ..self@ }),
    {
        StyledText { background: Some(color), ..self }
    }

    /// The same text in bold.
    pub fn bold(self) -> (r: Self)
        ensures
            r@ == (StyledTextView { bold: true, ..self@ }),
    {
        StyledText { bold: true, ..self }
    }

    /// The same text dimmed.
    pub fn dimmed(self) -> (r: Self)
        ensures
            r@ == (StyledTextView { dimmed: true, ..self@ }),
    {
        StyledText { dimmed: true, ..self }
    }

    /// The same text in italics.
    pub fn italic(self) -> (r: Self)
        ensures
            r@ == (StyledTextView { italic: true, ..self@ }),
    {
        StyledText { italic: true, ..self }
    }
}

/// `nonempty_collections::NEVec`, a vector that is never empty. Nothing is
/// said of what is inside it.
#[verifier::external_type_specification]
#[verifier::external_body]
#[verifier::reject_recursive_types(T)]
pub struct ExNEVec<T>(NEVec<T>);

/// The segments that a non-empty vector holds, first to last.
pub uninterp spec fn segments_of(v: NEVec<StyledText>) -> Seq<StyledText>;

/// `NEVec::new`: the vector that holds `head` alone.
#[verifier::external_body]
fn nevec_new(head: StyledText) -> (v: NEVec<StyledText>)
    ensures
        segments_of(v) == seq![head],
{
    NEVec::new(head)
}

/// `NEVec::push`: puts `item` behind the segments already held.
#[verifier::external_body]
fn nevec_push(v: &mut NEVec<StyledText>, item: StyledText)
    ensures
        segments_of(*final(v)) == segments_of(*old(v)).push(item),
{
    v.push(item)
}

/// `NEVec::len`: the number of segments held, which is never zero.
#[verifier::external_body]
fn nevec_len(v: &NEVec<StyledText>) -> (n: usize)
    ensures
        n == segments_of(*v).len(),
        n >= 1,
{
    v.len().get()
}

/// `NEVec::get`: the segment at `index`, or `None` where `index` is not
/// below the number of segments.
#[verifier::external_body]
fn nevec_get(v: &NEVec<StyledText>, index: usize) -> (r: Option<&StyledText>)
    ensures
        r == (if index < segments_of(*v).len() {
            Some(&segments_of(*v)[index as int])
        } else {
            None
        }),
{
    v.get(index)
}

/// The texts of the segments, with one space between each and the next.
pub open spec fn joined(parts: Seq<StyledTextView>) -> Seq<char>
    decreases parts.len(),
{
    if parts.len() == 0 {
        Seq::empty()
    } else if parts.len() == 1 {
        parts[0].text
    } else {
        joined(parts.drop_last()) + seq![' '] + parts.last().text
    }
}

/// A line ready to be shown: one styled segment or more.
#[derive(Debug, PartialEq, Eq)]
pub struct FormattedLogLine {
    parts: NEVec<StyledText>,
}

impl View for FormattedLogLine {
    type V = Seq<StyledTextView>;

    closed spec fn view(&self) -> Seq<StyledTextView> {
        segments_of(self.parts).map_values(|part: StyledText| part@)
    }
}

impl FormattedLogLine {
    /// The line of the given segments.
    pub fn new(parts: NEVec<StyledText>) -> (r: Self)
        ensures
            r@ == segments_of(parts).map_values(|part: StyledText| part@),
    {
        FormattedLogLine { parts }
    }

    /// The line that is one segment.
    pub fn single(part: StyledText) -> (r: Self)
        ensures
            r@ == seq![part@],
    {
        let r = FormattedLogLine { parts: nevec_new(part) };
        assert(r@ =~= seq![part@]);
        r
    }

    /// The line with `part` as one more segment at its end.
    pub fn push(&mut self, part: StyledText)
        ensures
            final(self)@ == old(self)@.push(part@),
    {
        nevec_push(&mut self.parts, part);
        assert(self@ =~= old(self)@.push(part@));
    }

    /// The number of segments.
    pub fn len(&self) -> (n: usize)
        ensures
            n == self@.len(),
            n >= 1,
    {
        nevec_len(&self.parts)
    }

    /// The segment at `index`.
    pub fn part(&self, index: usize) -> (r: Option<&StyledText>)
        ensures
            index < self@.len() ==> r is Some && r.unwrap()@ == self@[index as int],
            index >= self@.len() ==> r is None,
    {
        nevec_get(&self.parts, index)
    }

    /// The text of the line without its styling.
    pub fn plain_text(&self) -> (r: String)
        ensures
            r@ == joined(self@),
    {
        proof {
            reveal_strlit(" ");
        }
        let n = self.len();
        let mut out = String::new();
        let mut i: usize = 0;
        assert(self@.take(0) =~= Seq::<StyledTextView>::empty());
        while i < n
            invariant
                i <= n,
                n == self@.len(),
                out@ == joined(self@.take(i as int)),
                " "@ == seq![' '],
            decreases n - i,
        {
            let part = match self.part(i) {
                Some(part) => part,
                None => {
                    return out;
                },
            };
            if i > 0 {
                out.append(" ");
            }
            out.append(part.text.as_str());
            proof {
                let now = self@.take(i + 1);
                assert(now.drop_last() =~= self@.take(i as int));
                assert(now.last() == self@[i as int]);
                if i == 0 {
                    assert(out@ =~= now[0].text);
                }
            }
            i += 1;
        }
        assert(self@.take(n as int) =~= self@);
        out
    }
}

} // verus!
