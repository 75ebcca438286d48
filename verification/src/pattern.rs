//! Regular expressions, compiled and run by the `regex` crate.

use vstd::prelude::*;
use regex::Regex;

verus! {

/// `regex::Regex`, a compiled expression. Nothing is said of what is
/// inside it.
#[verifier::external_type_specification]
#[verifier::external_body]
pub struct ExRegex(Regex);

/// `regex::Error`, what the compiler says of a pattern that it refuses.
/// Nothing is said of what is inside it.
#[verifier::external_type_specification]
#[verifier::external_body]
pub struct ExRegexError(regex::Error);

/// What a compiled expression holds: the texts in which it finds a match.
pub uninterp spec fn regex_language(re: Regex) -> Set<Seq<char>>;

/// What compiling a pattern gives: `None` where the pattern is refused, else
/// the texts in which the compiled expression finds a match.
pub uninterp spec fn compiled_language(pattern: Seq<char>) -> Option<Set<Seq<char>>>;

/// `regex::Regex::new`: compiles `pattern`. Whether it is taken, and what the
/// expression then matches, depends on the pattern alone.
#[verifier::external_body]
pub(crate) fn compile(pattern: &str) -> (r: Result<Regex, regex::Error>)
    ensures
        match r {
            Ok(re) => compiled_language(pattern@) == Some(regex_language(re)),
            Err(_) => compiled_language(pattern@) is None,
        },
{
    Regex::new(pattern)
}

/// `regex::Regex::is_match`: whether the expression finds a match in `text`.
#[verifier::external_body]
pub(crate) fn is_match(re: &Regex, text: &str) -> (r: bool)
    ensures
        r == regex_language(*re).contains(text@),
{
    re.is_match(text)
}

/// What the compiler says of a pattern that it refuses, as text.
pub uninterp spec fn refusal_text(error: regex::Error) -> Seq<char>;

/// `regex::Error`'s `Display`, through `to_string`: the text of what the
/// compiler says of a pattern that it refuses. It depends on the error
/// alone.
#[verifier::external_body]
pub(crate) fn error_text(error: &regex::Error) -> (text: String)
    ensures
        text@ == refusal_text(*error),
{
    error.to_string()
}

} // verus!
