use vstd::prelude::*;
use regex::{escape, Regex};

verus! {

// A compiled regex and the error of compiling one are carried through as
// they are, with nothing known of what is inside.

#[verifier::external_type_specification]
#[verifier::external_body]
pub struct ExRegex(Regex);

#[verifier::external_type_specification]
#[verifier::external_body]
pub struct ExRegexError(regex::Error);

/// Whether `c` has a meaning of its own in a search pattern, so that it has
/// to be escaped to stand for itself.
pub open spec fn is_meta_character(c: char) -> bool {
    c == '\\' || c == '.' || c == '+' || c == '*' || c == '?' || c == '(' || c == ')' || c == '|'
        || c == '[' || c == ']' || c == '{' || c == '}' || c == '^' || c == '$' || c == '#' || c
        == '&' || c == '-' || c == '~'
}

/// `text` with a backslash put before each of its meta characters.
pub open spec fn escaped(text: Seq<char>) -> Seq<char>
    decreases text.len(),
{
    if text.len() == 0 {
        Seq::empty()
    } else if is_meta_character(text.last()) {
        escaped(text.drop_last()).push('\\').push(text.last())
    } else {
        escaped(text.drop_last()).push(text.last())
    }
}

/// Whether `Regex::new` accepts `pattern`.
pub uninterp spec fn pattern_compiles(pattern: Seq<char>) -> bool;

/// The pattern from which `regex` was compiled, where it was compiled with
/// the settings of `Regex::new`; none for a regex that was built with other
/// settings.
pub uninterp spec fn compiled_from(regex: Regex) -> Option<Seq<char>>;

/// The texts of the matches that the regex which `Regex::new` compiles from
/// `pattern` finds in `haystack`, as `Regex::find_iter` yields them:
/// successive, not overlapping, from left to right.
pub uninterp spec fn matches_of(pattern: Seq<char>, haystack: Seq<char>) -> Seq<Seq<char>>;

/// The texts as sequences of characters.
pub open spec fn texts(found: Seq<&str>) -> Seq<Seq<char>> {
    Seq::new(found.len(), |i: int| found[i]@)
}

/// `regex::escape` goes through the text once and puts a backslash before
/// each character that `regex_syntax::is_meta_character` accepts; the
/// eighteen characters are those of `is_meta_character` here.
pub assume_specification[ escape ](pattern: &str) -> (quoted: String)
    ensures
        quoted@ == escaped(pattern@),
;

/// `Regex::new` compiles the pattern with the default settings and limits,
/// so whether it succeeds depends on the pattern alone, and so does what the
/// regex it returns will match.
pub assume_specification[ Regex::new ](re: &str) -> (compiled: Result<Regex, regex::Error>)
    ensures
        compiled is Ok <==> pattern_compiles(re@),
        compiled matches Ok(regex) ==> compiled_from(regex) == Some(re@),
;

/// Collects what `Regex::find_iter` yields for the haystack, each match as
/// the text that `regex::Match::as_str` gives for it.
#[verifier::external_body]
pub(crate) fn all_matches<'h>(regex: &Regex, haystack: &'h str) -> (found: Vec<&'h str>)
    requires
        compiled_from(*regex) is Some,
    ensures
        texts(found@) == matches_of(compiled_from(*regex)->0, haystack@),
{
    regex.find_iter(haystack).map(|m| m.as_str()).collect()
}

} // verus!
