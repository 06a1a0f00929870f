use vstd::prelude::*;

verus! {

// The corpus-supplied replace rules carry arbitrary regular expressions.
// Compiling and applying them is delegated to the regex crate; the results
// are functions of the pattern, the text and the replacement alone, so they
// are given names that the rest of the library's contracts use.

/// Whether a pattern is a valid regular expression (the outcome of
/// `regex::Regex::new` on it).
pub uninterp spec fn regex_ok(pattern: Seq<char>) -> bool;

/// The text after replacing the first match of `pattern` with `rep`
/// (`regex::Regex::replace`); the text itself when there is no match.
pub uninterp spec fn rx_replace_first_of(
    pattern: Seq<char>,
    text: Seq<char>,
    rep: Seq<char>,
) -> Seq<char>;

/// The text after replacing every match of `pattern` with `rep`
/// (`regex::Regex::replace_all`); the text itself when there is no match.
pub uninterp spec fn rx_replace_all_of(
    pattern: Seq<char>,
    text: Seq<char>,
    rep: Seq<char>,
) -> Seq<char>;

/// Relies on regex::Regex::new: compilation succeeds or fails on the pattern
/// text alone.
#[verifier::external_body]
pub(crate) fn rx_is_valid(pattern: &str) -> (r: bool)
    ensures
        r == regex_ok(pattern@),
{
    regex::Regex::new(pattern).is_ok()
}

/// Relies on regex::Regex::replace: it substitutes the replacement (with `$`
/// group references expanded) for the leftmost match, and returns the input
/// unchanged when nothing matches.
#[verifier::external_body]
pub(crate) fn rx_replace_first(pattern: &str, text: &str, rep: &str) -> (r: String)
    requires
        regex_ok(pattern@),
    ensures
        r@ == rx_replace_first_of(pattern@, text@, rep@),
{
    match regex::Regex::new(pattern) {
        Ok(re) => re.replace(text, rep).into_owned(),
        Err(_) => text.to_owned(),
    }
}

/// Relies on regex::Regex::replace_all: it substitutes the replacement (with
/// `$` group references expanded) for every non-overlapping match, left to
/// right, and returns the input unchanged when nothing matches.
#[verifier::external_body]
pub(crate) fn rx_replace_all(pattern: &str, text: &str, rep: &str) -> (r: String)
    requires
        regex_ok(pattern@),
    ensures
        r@ == rx_replace_all_of(pattern@, text@, rep@),
{
    match regex::Regex::new(pattern) {
        Ok(re) => re.replace_all(text, rep).into_owned(),
        Err(_) => text.to_owned(),
    }
}

} // verus!
