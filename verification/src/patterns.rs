//! Regular expressions of the `regex` crate.

use vstd::prelude::*;
use vstd::string::*;

verus! {

/// A compiled regular expression.
#[verifier::external_type_specification]
#[verifier::external_body]
pub struct ExRegex(regex::Regex);

/// Why a pattern does not compile.
#[verifier::external_type_specification]
#[verifier::external_body]
pub struct ExRegexError(regex::Error);

/// The pattern that a regular expression was compiled from.
pub uninterp spec fn pattern_of(re: regex::Regex) -> Seq<char>;

/// Whether `regex::Regex::new` accepts a pattern.
pub uninterp spec fn compiles(pattern: Seq<char>) -> bool;

/// Where the first match of a pattern in a text that `regex::Regex::find` gives starts, in bytes.
pub uninterp spec fn match_start(pattern: Seq<char>, haystack: Seq<char>) -> Option<usize>;

/// What the first group of a pattern covers in its first match in a text, where it takes part.
pub uninterp spec fn first_group(pattern: Seq<char>, haystack: Seq<char>) -> Option<Seq<char>>;

/// `regex::Regex::new`: whether a pattern compiles depends on the pattern alone, and the
/// result is compiled from it.
pub assume_specification[ regex::Regex::new ](re: &str) -> (r: Result<regex::Regex, regex::Error>)
    ensures
        r is Ok <==> compiles(re@),
        r is Ok ==> pattern_of(r->Ok_0) == re@,
;

/// `regex::Regex::find`, of which the start is taken: it depends on the pattern and the text
/// alone.
#[verifier::external_body]
pub(crate) fn find_start(re: &regex::Regex, haystack: &str) -> (r: Option<usize>)
    ensures
        r == match_start(pattern_of(*re), haystack@),
{
    re.find(haystack).map(|m| m.start())
}

/// `regex::Regex::captures`, of which the first group is taken: it depends on the pattern and
/// the text alone.
#[verifier::external_body]
pub(crate) fn capture(re: &regex::Regex, haystack: &str) -> (r: Option<String>)
    ensures
        match r {
            Some(s) => first_group(pattern_of(*re), haystack@) == Some(s@),
            None => first_group(pattern_of(*re), haystack@) is None,
        },
{
    re.captures(haystack).and_then(|c| c.get(1)).map(|m| m.as_str().to_string())
}

/// Whether a character means something in a pattern.
pub open spec fn is_meta(c: char) -> bool {
    c == '\\' || c == '.' || c == '+' || c == '*' || c == '?' || c == '(' || c == ')' || c == '|'
        || c == '[' || c == ']' || c == '{' || c == '}' || c == '^' || c == '$' || c == '#' || c
        == '&' || c == '-' || c == '~'
}

/// A text with a backslash before each character that means something in a pattern.
pub open spec fn escaped(s: Seq<char>) -> Seq<char>
    decreases s.len(),
{
    if s.len() == 0 {
        Seq::empty()
    } else if is_meta(s.last()) {
        escaped(s.drop_last()).push('\\').push(s.last())
    } else {
        escaped(s.drop_last()).push(s.last())
    }
}

/// `regex::escape`: a backslash is put before each character that means something in a
/// pattern, and nothing else is changed.
pub assume_specification[ regex::escape ](pattern: &str) -> (r: String)
    ensures
        r@ == escaped(pattern@),
;

} // verus!
