//! Characters and character sequences: the classes the line grammar is made
//! of, runs of a class, trimming, and decimal numbers.

use vstd::prelude::*;

verus! {

/// A class of characters.
#[derive(Debug, Clone, Copy, PartialEq, Eq, Structural)]
pub enum CharClass {
    /// White space, as Unicode defines it.
    Space,
    /// The ten ASCII digits.
    Digit,
    /// ASCII letters, ASCII digits and the underscore.
    Word,
    /// Everything that does not end a line.
    Inline,
}

/// The characters that Unicode counts as white space.
pub open spec fn is_space(c: char) -> bool {
    ||| c == ' '
    ||| '\u{9}' <= c <= '\u{d}'
    ||| c == '\u{85}'
    ||| c == '\u{a0}'
    ||| c == '\u{1680}'
    ||| '\u{2000}' <= c <= '\u{200a}'
    ||| c == '\u{2028}'
    ||| c == '\u{2029}'
    ||| c == '\u{202f}'
    ||| c == '\u{205f}'
    ||| c == '\u{3000}'
}

/// The ten ASCII digits.
pub open spec fn is_digit(c: char) -> bool {
    '0' <= c <= '9'
}

/// The ASCII letters, small and capital.
pub open spec fn is_letter(c: char) -> bool {
    'a' <= c <= 'z' || 'A' <= c <= 'Z'
}

/// The characters that end a line.
pub open spec fn is_newline(c: char) -> bool {
    ||| '\u{a}' <= c <= '\u{d}'
    ||| c == '\u{85}'
    ||| c == '\u{2028}'
    ||| c == '\u{2029}'
}

impl CharClass {
    /// Whether `c` is of the class.
    pub open spec fn contains(self, c: char) -> bool {
        match self {
            CharClass::Space => is_space(c),
            CharClass::Digit => is_digit(c),
            CharClass::Word => is_letter(c) || is_digit(c) || c == '_',
            CharClass::Inline => !is_newline(c),
        }
    }

    /// Whether `c` is of the class.
    pub fn has(self, c: char) -> (r: bool)
        ensures
            r == self.contains(c),
    {
        match self {
            CharClass::Space => {
                c == ' ' || ('\u{9}' <= c && c <= '\u{d}') || c == '\u{85}' || c == '\u{a0}'
                    || c == '\u{1680}' || ('\u{2000}' <= c && c <= '\u{200a}') || c == '\u{2028}'
                    || c == '\u{2029}' || c == '\u{202f}' || c == '\u{205f}' || c == '\u{3000}'
            },
            CharClass::Digit => '0' <= c && c <= '9',
            CharClass::Word => {
                ('a' <= c && c <= 'z') || ('A' <= c && c <= 'Z') || ('0' <= c && c <= '9') || c
                    == '_'
            },
            CharClass::Inline => {
                !(('\u{a}' <= c && c <= '\u{d}') || c == '\u{85}' || c == '\u{2028}' || c
                    == '\u{2029}')
            },
        }
    }
}

/// The characters of a string, one by one.
pub fn chars_of(s: &str) -> (v: Vec<char>)
    ensures
        v@ == s@,
{
    let mut v: Vec<char> = Vec::new();
    for c in it: s.chars()
        invariant
            v@ == it.seq().take(it.index() as int),
            it.seq() == s@,
    {
        v.push(c);
    }
    v
}

/// Whether two strings hold the same characters.
pub fn same_text(a: &str, b: &str) -> (r: bool)
    ensures
        r == (a@ == b@),
{
    let left = chars_of(a);
    let right = chars_of(b);
    if left.len() != right.len() {
        return false;
    }
    let mut i: usize = 0;
    while i < left.len()
        invariant
            i <= left.len(),
            left.len() == right.len(),
            left@ == a@,
            right@ == b@,
            forall|k: int| 0 <= k < i ==> left@[k] == right@[k],
        decreases left.len() - i,
    {
        if left[i] != right[i] {
            return false;
        }
        i += 1;
    }
    assert(left@ =~= right@);
    true
}

/// Where the run of `class` characters that starts at `from` ends: the first
/// index at or after `from` that holds no character of the class.
pub open spec fn run_end(s: Seq<char>, from: int, class: CharClass) -> int
    decreases s.len() - from,
{
    if 0 <= from < s.len() && class.contains(s[from]) {
        run_end(s, from + 1, class)
    } else {
        from
    }
}

/// Where the run of `class` characters that ends just before `to` starts.
pub open spec fn run_start(s: Seq<char>, to: int, class: CharClass) -> int
    decreases to,
{
    if 0 < to <= s.len() && class.contains(s[to - 1]) {
        run_start(s, to - 1, class)
    } else {
        to
    }
}

/// Scans the run of `class` characters that starts at `from`.
pub fn scan_run(chars: &Vec<char>, from: usize, class: CharClass) -> (end: usize)
    ensures
        end == run_end(chars@, from as int, class),
        from <= end,
        from <= chars.len() ==> end <= chars.len(),
{
    let mut i: usize = from;
    while i < chars.len() && class.has(chars[i])
        invariant
            from <= i,
            from <= chars.len() ==> i <= chars.len(),
            run_end(chars@, from as int, class) == run_end(chars@, i as int, class),
        decreases chars.len() - i,
    {
        i += 1;
    }
    i
}

/// A run ends at or after the place where it starts, and within the text.
pub proof fn lemma_run_end_bounds(s: Seq<char>, from: int, class: CharClass)
    requires
        0 <= from <= s.len(),
    ensures
        from <= run_end(s, from, class) <= s.len(),
    decreases s.len() - from,
{
    if from < s.len() && class.contains(s[from]) {
        lemma_run_end_bounds(s, from + 1, class);
    }
}

/// A run ends at `to` exactly when everything from `from` up to `to` is of
/// the class and what stands at `to`, if anything, is not.
pub proof fn lemma_run_end_is(s: Seq<char>, from: int, to: int, class: CharClass)
    requires
        0 <= from <= to <= s.len(),
        forall|i: int| from <= i < to ==> class.contains(#[trigger] s[i]),
        to == s.len() || !class.contains(s[to]),
    ensures
        run_end(s, from, class) == to,
    decreases to - from,
{
    if from < to {
        lemma_run_end_is(s, from + 1, to, class);
    }
}

/// The converse: everything inside a run is of the class, and the run stops
/// at the end of the text or at a character outside the class.
pub proof fn lemma_run_end_holds(s: Seq<char>, from: int, class: CharClass)
    requires
        0 <= from <= s.len(),
    ensures
        forall|i: int| from <= i < run_end(s, from, class) ==> class.contains(#[trigger] s[i]),
        run_end(s, from, class) == s.len() || !class.contains(s[run_end(s, from, class)]),
    decreases s.len() - from,
{
    if from < s.len() && class.contains(s[from]) {
        lemma_run_end_holds(s, from + 1, class);
    }
}

/// A run starts at or before the place where it ends, and within the text.
pub proof fn lemma_run_start_bounds(s: Seq<char>, to: int, class: CharClass)
    requires
        0 <= to <= s.len(),
    ensures
        0 <= run_start(s, to, class) <= to,
    decreases to,
{
    if 0 < to && class.contains(s[to - 1]) {
        lemma_run_start_bounds(s, to - 1, class);
    }
}

/// A run that ends at `to` starts at `from` exactly when everything from
/// `from` up to `to` is of the class and what stands before `from`, if
/// anything, is not.
pub proof fn lemma_run_start_is(s: Seq<char>, from: int, to: int, class: CharClass)
    requires
        0 <= from <= to <= s.len(),
        forall|i: int| from <= i < to ==> class.contains(#[trigger] s[i]),
        from == 0 || !class.contains(s[from - 1]),
    ensures
        run_start(s, to, class) == from,
    decreases to - from,
{
    if from < to {
        lemma_run_start_is(s, from, to - 1, class);
    }
}

/// Everything inside a run that ends at `to` is of the class, and the run
/// starts at the start of the text or behind a character outside the class.
pub proof fn lemma_run_start_holds(s: Seq<char>, to: int, class: CharClass)
    requires
        0 <= to <= s.len(),
    ensures
        forall|i: int| run_start(s, to, class) <= i < to ==> class.contains(#[trigger] s[i]),
        run_start(s, to, class) == 0 || !class.contains(s[run_start(s, to, class) - 1]),
    decreases to,
{
    if 0 < to && class.contains(s[to - 1]) {
        lemma_run_start_holds(s, to - 1, class);
    }
}

/// `s` without the white space it starts with.
pub open spec fn trim_start(s: Seq<char>) -> Seq<char> {
    s.skip(run_end(s, 0, CharClass::Space))
}

/// `s` without the white space it ends with.
pub open spec fn trim_end(s: Seq<char>) -> Seq<char> {
    s.take(run_start(s, s.len() as int, CharClass::Space))
}

/// `s` without the white space at either end.
pub open spec fn trim(s: Seq<char>) -> Seq<char> {
    trim_end(trim_start(s))
}

/// The bounds of `chars[from..to]` once the white space at either end is
/// left out.
pub fn trim_bounds(chars: &Vec<char>, from: usize, to: usize) -> (r: (usize, usize))
    requires
        from <= to <= chars.len(),
    ensures
        from <= r.0 <= r.1 <= to,
        chars@.subrange(r.0 as int, r.1 as int) == trim(chars@.subrange(from as int, to as int)),
{
    let ghost whole = chars@.subrange(from as int, to as int);
    let mut a: usize = from;
    while a < to && CharClass::Space.has(chars[a])
        invariant
            from <= a <= to <= chars.len(),
            whole == chars@.subrange(from as int, to as int),
            run_end(whole, 0, CharClass::Space) == run_end(whole, a - from, CharClass::Space),
        decreases to - a,
    {
        assert(whole[a - from] == chars@[a as int]);
        a += 1;
    }
    proof {
        if a < to {
            assert(whole[a - from] == chars@[a as int]);
        }
    }
    let ghost rest = chars@.subrange(a as int, to as int);
    assert(rest == trim_start(whole));
    let mut b: usize = to;
    while b > a && CharClass::Space.has(chars[b - 1])
        invariant
            a <= b <= to <= chars.len(),
            rest == chars@.subrange(a as int, to as int),
            run_start(rest, rest.len() as int, CharClass::Space) == run_start(
                rest,
                b - a,
                CharClass::Space,
            ),
        decreases b,
    {
        assert(rest[b - 1 - a] == chars@[b - 1]);
        b -= 1;
    }
    proof {
        if b > a {
            assert(rest[b - 1 - a] == chars@[b - 1]);
        }
        assert(chars@.subrange(a as int, b as int) == rest.take(b - a));
    }
    (a, b)
}

/// What is left of a text after trimming is a part of it that neither
/// starts nor ends with white space; what was left out is white space.
pub proof fn lemma_trim(s: Seq<char>)
    ensures
        ({
            let from = run_end(s, 0, CharClass::Space);
            let to = from + trim(s).len();
            &&& 0 <= from <= to <= s.len()
            &&& trim(s) == s.subrange(from, to)
            &&& forall|i: int| 0 <= i < from ==> is_space(#[trigger] s[i])
            &&& forall|i: int| to <= i < s.len() ==> is_space(#[trigger] s[i])
            &&& trim(s).len() > 0 ==> !is_space(trim(s).first()) && !is_space(trim(s).last())
        }),
{
    let from = run_end(s, 0, CharClass::Space);
    lemma_run_end_bounds(s, 0, CharClass::Space);
    lemma_run_end_holds(s, 0, CharClass::Space);
    let rest = trim_start(s);
    let kept = run_start(rest, rest.len() as int, CharClass::Space);
    lemma_run_start_bounds(rest, rest.len() as int, CharClass::Space);
    lemma_run_start_holds(rest, rest.len() as int, CharClass::Space);
    assert(trim(s) == s.subrange(from, from + kept));
    assert forall|i: int| from + kept <= i < s.len() implies is_space(#[trigger] s[i]) by {
        assert(rest[i - from] == s[i]);
        assert(CharClass::Space.contains(rest[i - from]));
    }
    if kept > 0 {
        assert(rest[kept - 1] == s[from + kept - 1]);
        assert(trim(s).last() == s[from + kept - 1]);
        assert(trim(s).first() == s[from]);
    }
}

/// The part of a text that has white space only before it and behind it,
/// and that neither starts nor ends with white space, is what is left of
/// the text after trimming.
pub proof fn lemma_trim_is(s: Seq<char>, from: int, to: int)
    requires
        0 <= from <= to <= s.len(),
        forall|i: int| 0 <= i < from ==> is_space(#[trigger] s[i]),
        forall|i: int| to <= i < s.len() ==> is_space(#[trigger] s[i]),
        from < to ==> !is_space(s[from]) && !is_space(s[to - 1]),
    ensures
        trim(s) == s.subrange(from, to),
{
    if from < to {
        lemma_run_end_is(s, 0, from, CharClass::Space);
        let rest = trim_start(s);
        assert(rest == s.skip(from));
        assert forall|i: int| to - from <= i < rest.len() implies CharClass::Space.contains(
            #[trigger] rest[i],
        ) by {
            assert(rest[i] == s[from + i]);
        }
        assert(rest[to - from - 1] == s[to - 1]);
        lemma_run_start_is(rest, to - from, rest.len() as int, CharClass::Space);
        assert(rest.take(to - from) == s.subrange(from, to));
    } else {
        assert(to == from);
        // white space from end to end
        lemma_run_end_is(s, 0, s.len() as int, CharClass::Space);
        let rest = trim_start(s);
        assert(rest.len() == 0);
        assert(trim(s).len() == 0);
        assert(s.subrange(from, to).len() == 0);
        assert(trim(s) =~= s.subrange(from, to));
    }
}

/// Trimming what is trimmed changes nothing.
pub proof fn lemma_trim_twice(s: Seq<char>)
    ensures
        trim(trim(s)) == trim(s),
{
    lemma_trim(s);
    let t = trim(s);
    if t.len() > 0 {
        assert(run_end(t, 0, CharClass::Space) == 0);
        assert(trim_start(t) == t);
        assert(run_start(t, t.len() as int, CharClass::Space) == t.len());
        assert(trim_end(t) == t);
    } else {
        assert(trim_start(t) == t);
        assert(trim_end(t) == t);
    }
}

/// White space behind a text does not change what is left of it after
/// trimming.
pub proof fn lemma_trim_before_space(text: Seq<char>, space: Seq<char>)
    requires
        forall|i: int| 0 <= i < space.len() ==> is_space(#[trigger] space[i]),
    ensures
        trim(text + space) == trim(text),
{
    lemma_trim(text);
    let from = run_end(text, 0, CharClass::Space);
    let to = from + trim(text).len();
    let all = text + space;
    assert forall|i: int| 0 <= i < from implies is_space(#[trigger] all[i]) by {
        assert(all[i] == text[i]);
    }
    assert forall|i: int| to <= i < all.len() implies is_space(#[trigger] all[i]) by {
        if i < text.len() {
            assert(all[i] == text[i]);
        } else {
            assert(all[i] == space[i - text.len()]);
        }
    }
    if from < to {
        assert(all[from] == text[from]);
        assert(all[to - 1] == text[to - 1]);
        assert(trim(text).first() == text[from]);
        assert(trim(text).last() == text[to - 1]);
    }
    lemma_trim_is(all, from, to);
    assert(all.subrange(from, to) =~= text.subrange(from, to));
}

/// Whether `": "` stands at index `at` of `s`.
pub open spec fn separator_at(s: Seq<char>, at: int) -> bool {
    0 <= at && at + 1 < s.len() && s[at] == ':' && s[at + 1] == ' '
}

/// The first index at or after `from` at which `": "` stands, if there is one.
pub open spec fn first_separator(s: Seq<char>, from: int) -> Option<int>
    decreases s.len() - from,
{
    if from < 0 || from + 1 >= s.len() {
        None
    } else if separator_at(s, from) {
        Some(from)
    } else {
        first_separator(s, from + 1)
    }
}

/// `first_separator` finds a separator, none stands before the one it finds,
/// and where it finds none there is none.
pub proof fn lemma_first_separator(s: Seq<char>, from: int)
    requires
        0 <= from,
    ensures
        match first_separator(s, from) {
            Some(at) => from <= at && separator_at(s, at) && forall|i: int|
                from <= i < at ==> !separator_at(s, i),
            None => forall|i: int| from <= i ==> !separator_at(s, i),
        },
    decreases s.len() - from,
{
    if from + 1 < s.len() && !separator_at(s, from) {
        lemma_first_separator(s, from + 1);
    }
}

/// Looks for the first `": "` within `chars[from..to]`.
pub fn find_separator(chars: &Vec<char>, from: usize, to: usize) -> (r: Option<usize>)
    requires
        from <= to <= chars.len(),
    ensures
        match r {
            Some(at) => from <= at && at + 2 <= to && first_separator(
                chars@.subrange(from as int, to as int),
                0,
            ) == Some(at - from),
            None => first_separator(chars@.subrange(from as int, to as int), 0) is None,
        },
{
    let ghost whole = chars@.subrange(from as int, to as int);
    let mut i: usize = from;
    while i < to && i + 1 < to
        invariant
            from <= i <= to <= chars.len(),
            whole == chars@.subrange(from as int, to as int),
            first_separator(whole, 0) == first_separator(whole, i - from),
        decreases to - i,
    {
        assert(whole[i - from] == chars@[i as int]);
        assert(whole[i - from + 1] == chars@[i + 1]);
        if chars[i] == ':' && chars[i + 1] == ' ' {
            return Some(i);
        }
        i += 1;
    }
    None
}

/// The number that an ASCII digit stands for; any other character counts
/// as zero.
pub open spec fn digit_value(c: char) -> nat {
    if is_digit(c) {
        (c as int - '0' as int) as nat
    } else {
        0
    }
}

/// The ASCII digit that stands for `d`, a number below ten.
pub open spec fn digit_char(d: nat) -> char {
    ('0' as int + d) as char
}

/// The number that a sequence of digits denotes in base ten.
pub open spec fn decimal_value(s: Seq<char>) -> nat
    decreases s.len(),
{
    if s.len() == 0 {
        0
    } else {
        decimal_value(s.drop_last()) * 10 + digit_value(s.last())
    }
}

/// A number in base ten, without leading zeros.
pub open spec fn decimal_text(n: nat) -> Seq<char>
    decreases n,
{
    if n < 10 {
        seq![digit_char(n)]
    } else {
        decimal_text(n / 10).push(digit_char(n % 10))
    }
}

/// Every digit more makes a number no smaller.
pub proof fn lemma_decimal_value_grows(s: Seq<char>, n: int)
    requires
        0 <= n <= s.len(),
    ensures
        decimal_value(s.take(n)) <= decimal_value(s),
    decreases s.len() - n,
{
    if n < s.len() {
        lemma_decimal_value_grows(s, n + 1);
        assert(s.take(n + 1).drop_last() == s.take(n));
    } else {
        assert(s.take(n) == s);
    }
}

/// A number has at least one digit; twenty digits do for 64 bits and ten
/// for 32.
pub proof fn lemma_decimal_text_len(n: nat)
    ensures
        decimal_text(n).len() >= 1,
        n < 10 ==> decimal_text(n).len() == 1,
        n < 100 ==> decimal_text(n).len() <= 2,
        n < 1000 ==> decimal_text(n).len() <= 3,
        n <= 0xffff_ffff ==> decimal_text(n).len() <= 10,
        n <= 0xffff_ffff_ffff_ffff ==> decimal_text(n).len() <= 20,
{
    reveal_with_fuel(decimal_text, 21);
}

/// A number written in base ten is made of digits, starts with a zero
/// only if it is zero, and denotes the number that was written.
pub proof fn lemma_decimal_text(n: nat)
    ensures
        forall|i: int| 0 <= i < decimal_text(n).len() ==> is_digit(#[trigger] decimal_text(n)[i]),
        n > 0 ==> decimal_text(n)[0] != '0',
        n == 0 ==> decimal_text(n) == seq!['0'],
        decimal_value(decimal_text(n)) == n,
    decreases n,
{
    if n < 10 {
        let t = decimal_text(n);
        assert(t.drop_last().len() == 0);
        assert(decimal_value(t) == decimal_value(t.drop_last()) * 10 + digit_value(t.last()));
    } else {
        lemma_decimal_text(n / 10);
        let shorter = decimal_text(n / 10);
        let t = decimal_text(n);
        assert(t.drop_last() == shorter);
        assert(t.last() == digit_char(n % 10));
        assert(t[0] == shorter[0]);
        assert forall|i: int| 0 <= i < t.len() implies is_digit(#[trigger] t[i]) by {
            if i < shorter.len() {
                assert(t[i] == shorter[i]);
            }
        }
    }
}

/// The number that the digits `chars[from..to]` denote, if it fits in 32
/// bits.
pub fn read_number(chars: &Vec<char>, from: usize, to: usize) -> (r: Option<u32>)
    requires
        from <= to <= chars.len(),
    ensures
        r == (if decimal_value(chars@.subrange(from as int, to as int)) <= u32::MAX {
            Some(decimal_value(chars@.subrange(from as int, to as int)) as u32)
        } else {
            None
        }),
{
    let ghost whole = chars@.subrange(from as int, to as int);
    let mut value: u64 = 0;
    let mut i: usize = from;
    assert(whole.take(0).len() == 0);
    while i < to
        invariant
            from <= i <= to <= chars.len(),
            whole == chars@.subrange(from as int, to as int),
            value == decimal_value(whole.take(i - from)),
            value <= u32::MAX,
        decreases to - i,
    {
        let c = chars[i];
        let d: u64 = if CharClass::Digit.has(c) {
            (c as u32 - '0' as u32) as u64
        } else {
            0
        };
        let next: u64 = value * 10 + d;
        proof {
            let longer = whole.take(i + 1 - from);
            assert(longer.drop_last() == whole.take(i - from));
            assert(longer.last() == c);
            assert(next == decimal_value(longer));
            if next > u32::MAX {
                lemma_decimal_value_grows(whole, i + 1 - from);
            }
        }
        if next > 0xffff_ffff {
            return None;
        }
        value = next;
        i += 1;
    }
    assert(whole.take(to - from) == whole);
    Some(value as u32)
}

/// The one-character string for a digit.
fn digit_str(d: u64) -> (r: &'static str)
    requires
        d < 10,
    ensures
        r@ == seq![digit_char(d as nat)],
{
    proof {
        reveal_strlit("0");
        reveal_strlit("1");
        reveal_strlit("2");
        reveal_strlit("3");
        reveal_strlit("4");
        reveal_strlit("5");
        reveal_strlit("6");
        reveal_strlit("7");
        reveal_strlit("8");
        reveal_strlit("9");
    }
    let r = if d == 0 {
        "0"
    } else if d == 1 {
        "1"
    } else if d == 2 {
        "2"
    } else if d == 3 {
        "3"
    } else if d == 4 {
        "4"
    } else if d == 5 {
        "5"
    } else if d == 6 {
        "6"
    } else if d == 7 {
        "7"
    } else if d == 8 {
        "8"
    } else {
        "9"
    };
    assert(r@ =~= seq![digit_char(d as nat)]);
    r
}

/// Appends `n` in base ten.
pub fn push_decimal(out: &mut String, n: u64)
    ensures
        final(out)@ == old(out)@ + decimal_text(n as nat),
    decreases n,
{
    if n >= 10 {
        push_decimal(out, n / 10);
    }
    out.append(digit_str(n % 10));
    proof {
        if n >= 10 {
            assert(final(out)@ =~= old(out)@ + decimal_text(n as nat));
        } else {
            assert(final(out)@ =~= old(out)@ + decimal_text(n as nat));
        }
    }
}

/// The number of digits of `n` in base ten.
pub fn decimal_width(n: u64) -> (w: usize)
    ensures
        w == decimal_text(n as nat).len(),
        1 <= w <= 20,
    decreases n,
{
    if n >= 10 {
        let w = decimal_width(n / 10);
        proof {
            lemma_decimal_text_len(n as nat);
        }
        w + 1
    } else {
        1
    }
}

/// `count` times the character `fill`.
pub open spec fn repeated(fill: char, count: nat) -> Seq<char> {
    Seq::new(count, |i: int| fill)
}

/// `s`, with `fill` put before it until it is `width` characters long.
pub open spec fn pad_left(s: Seq<char>, width: nat, fill: char) -> Seq<char> {
    if s.len() >= width {
        s
    } else {
        repeated(fill, (width - s.len()) as nat) + s
    }
}

/// `s` in the middle of a column `width` characters wide, filled up with
/// spaces; where they cannot be shared evenly, the odd one stands behind.
pub open spec fn centered(s: Seq<char>, width: nat) -> Seq<char> {
    if s.len() >= width {
        s
    } else {
        let before = ((width - s.len()) / 2) as nat;
        let behind = (width - s.len() - before) as nat;
        repeated(' ', before) + s + repeated(' ', behind)
    }
}

/// What a column is filled up with.
#[derive(Debug, Clone, Copy, PartialEq, Eq, Structural)]
pub enum Fill {
    Space,
    Zero,
}

impl Fill {
    /// The character that fills.
    pub open spec fn mark(self) -> char {
        match self {
            Fill::Space => ' ',
            Fill::Zero => '0',
        }
    }

    /// The character that fills, as a string.
    pub fn as_str(self) -> (r: &'static str)
        ensures
            r@ == seq![self.mark()],
    {
        proof {
            reveal_strlit(" ");
            reveal_strlit("0");
        }
        let r = match self {
            Fill::Space => " ",
            Fill::Zero => "0",
        };
        assert(r@ =~= seq![self.mark()]);
        r
    }
}

/// Appends `count` times the character of `fill`.
pub fn push_repeated(out: &mut String, fill: Fill, count: usize)
    ensures
        final(out)@ == old(out)@ + repeated(fill.mark(), count as nat),
{
    let mut i: usize = 0;
    assert(out@ =~= old(out)@ + repeated(fill.mark(), 0));
    while i < count
        invariant
            i <= count,
            out@ == old(out)@ + repeated(fill.mark(), i as nat),
        decreases count - i,
    {
        out.append(fill.as_str());
        i += 1;
        assert(out@ =~= old(out)@ + repeated(fill.mark(), i as nat));
    }
}

/// Appends `n` in base ten, with the character of `fill` before it until
/// it is `width` characters wide.
pub fn push_padded_decimal(out: &mut String, n: u64, width: usize, fill: Fill)
    ensures
        final(out)@ == old(out)@ + pad_left(decimal_text(n as nat), width as nat, fill.mark()),
{
    let digits = decimal_width(n);
    if digits < width {
        push_repeated(out, fill, width - digits);
    }
    push_decimal(out, n);
    assert(out@ =~= old(out)@ + pad_left(decimal_text(n as nat), width as nat, fill.mark()));
}

/// Zeros before a number do not change it.
pub proof fn lemma_leading_zeros(count: nat, digits: Seq<char>)
    ensures
        decimal_value(repeated('0', count) + digits) == decimal_value(digits),
    decreases digits.len(), count,
{
    let all = repeated('0', count) + digits;
    if digits.len() > 0 {
        lemma_leading_zeros(count, digits.drop_last());
        assert(all.drop_last() == repeated('0', count) + digits.drop_last());
        assert(all.last() == digits.last());
    } else if count > 0 {
        lemma_leading_zeros((count - 1) as nat, digits);
        assert(all.drop_last() == repeated('0', (count - 1) as nat) + digits);
        assert(all.last() == '0');
    } else {
        assert(all == digits);
    }
}

/// A number below `10^width`, padded with zeros to `width` characters, is
/// `width` digits that denote the number. Stated for the widths two and
/// three.
pub proof fn lemma_zero_padded(n: nat, width: nat)
    requires
        width == 2 && n < 100 || width == 3 && n < 1000,
    ensures
        pad_left(decimal_text(n), width, '0').len() == width,
        forall|i: int|
            0 <= i < width ==> is_digit(#[trigger] pad_left(decimal_text(n), width, '0')[i]),
        decimal_value(pad_left(decimal_text(n), width, '0')) == n,
{
    lemma_decimal_text_len(n);
    lemma_decimal_text(n);
    let digits = decimal_text(n);
    let padded = pad_left(digits, width, '0');
    if digits.len() < width {
        let zeros = (width - digits.len()) as nat;
        lemma_leading_zeros(zeros, digits);
        assert forall|i: int| 0 <= i < width implies is_digit(#[trigger] padded[i]) by {
            if i >= zeros {
                assert(padded[i] == digits[i - zeros]);
            }
        }
    }
}

/// Whether `c` may stand where a template has `mark`: any digit where the
/// mark is `'0'`, and the mark itself elsewhere.
pub open spec fn fits(mark: char, c: char) -> bool {
    if mark == '0' {
        is_digit(c)
    } else {
        c == mark
    }
}

/// The first index at or after `from` at which `s` departs from `template`
/// or ends; the length of `template` if `s` follows it to its end.
pub open spec fn mismatch(s: Seq<char>, template: Seq<char>, from: int) -> int
    decreases template.len() - from,
{
    if 0 <= from < template.len() && from < s.len() && fits(template[from], s[from]) {
        mismatch(s, template, from + 1)
    } else {
        from
    }
}

/// Whether `s` starts with text that follows `template`.
pub open spec fn follows(s: Seq<char>, template: Seq<char>) -> bool {
    mismatch(s, template, 0) == template.len()
}

/// `s` follows `template` exactly when each of its characters fits the mark
/// at its place.
pub proof fn lemma_follows(s: Seq<char>, template: Seq<char>, from: int)
    requires
        0 <= from <= template.len(),
    ensures
        from <= mismatch(s, template, from) <= template.len(),
        mismatch(s, template, from) <= s.len() || mismatch(s, template, from) == from,
        mismatch(s, template, from) == template.len() <==> (from == template.len()
            || template.len() <= s.len()) && forall|i: int|
            from <= i < template.len() ==> fits(template[i], #[trigger] s[i]),
    decreases template.len() - from,
{
    if from < template.len() && from < s.len() && fits(template[from], s[from]) {
        lemma_follows(s, template, from + 1);
    }
}

fn takes(mark: char, c: char) -> (r: bool)
    ensures
        r == fits(mark, c),
{
    if mark == '0' {
        CharClass::Digit.has(c)
    } else {
        c == mark
    }
}

/// Finds where `chars` departs from `template`.
pub fn scan_template(chars: &Vec<char>, template: &Vec<char>) -> (at: usize)
    ensures
        at == mismatch(chars@, template@, 0),
        at <= template.len(),
        at <= chars.len(),
{
    let mut i: usize = 0;
    while i < template.len() && i < chars.len() && takes(template[i], chars[i])
        invariant
            i <= template.len(),
            i <= chars.len(),
            mismatch(chars@, template@, 0) == mismatch(chars@, template@, i as int),
        decreases template.len() - i,
    {
        i += 1;
    }
    i
}

} // verus!
