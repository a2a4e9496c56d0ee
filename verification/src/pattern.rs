//! Regular expressions, as the `regex` crate reads them.

use vstd::prelude::*;

verus! {

/// Why `regex` refuses `pattern`, in its own words; nothing where it
/// accepts it.
pub uninterp spec fn regex_error(pattern: Seq<char>) -> Option<Seq<char>>;

/// `text` with every match of `pattern`, which `regex` accepts, replaced by
/// `replacement`, in which `$` refers to what the groups of the match
/// captured.
pub uninterp spec fn regex_replaced(
    pattern: Seq<char>,
    text: Seq<char>,
    replacement: Seq<char>,
) -> Seq<char>;

/// Whether `pattern`, which `regex` accepts, matches somewhere in `text`.
pub uninterp spec fn regex_matches(pattern: Seq<char>, text: Seq<char>) -> bool;

/// Whether `regex` accepts `pattern`.
pub open spec fn is_pattern(pattern: Seq<char>) -> bool {
    regex_error(pattern) is None
}

/// `regex::Regex::new`, for the error alone: what it says where it refuses
/// the pattern, rendered as text.
#[verifier::external_body]
pub(crate) fn check(pattern: &str) -> (r: Option<String>)
    ensures
        match r {
            Some(e) => regex_error(pattern@) == Some(e@),
            None => regex_error(pattern@) is None,
        },
{
    regex::Regex::new(pattern).err().map(|e| e.to_string())
}

/// `regex::Regex::replace_all` on the expression that `regex::Regex::new`
/// makes of `pattern`: nothing where the pattern is refused, else the text
/// with all matches replaced.
#[verifier::external_body]
pub(crate) fn replace_all(pattern: &str, text: &str, replacement: &str) -> (r: Option<String>)
    ensures
        match r {
            Some(s) => is_pattern(pattern@) && s@ == regex_replaced(
                pattern@,
                text@,
                replacement@,
            ),
            None => !is_pattern(pattern@),
        },
{
    regex::Regex::new(pattern).ok().map(|re| re.replace_all(text, replacement).into_owned())
}

/// `regex::Regex::is_match` on the expression that `regex::Regex::new` makes
/// of `pattern`: nothing where the pattern is refused, else whether it
/// matches in `text`.
#[verifier::external_body]
pub(crate) fn is_match(pattern: &str, text: &str) -> (r: Option<bool>)
    ensures
        match r {
            Some(b) => is_pattern(pattern@) && b == regex_matches(pattern@, text@),
            None => !is_pattern(pattern@),
        },
{
    regex::Regex::new(pattern).ok().map(|re| re.is_match(text))
}

} // verus!
