//! The two patterns of the normalizer, matched by the `regex` crate.

use vstd::prelude::*;
use regex::Regex;

verus! {

/// `regex::Regex`, a compiled expression.
#[verifier::external_type_specification]
#[verifier::external_body]
pub struct ExRegex(Regex);

/// The pattern that a compiled expression was made from.
pub uninterp spec fn pattern_of(expression: Regex) -> Seq<char>;

/// The text with every match of the pattern replaced, as `Regex::replace_all` does it:
/// the matches are taken from the left and do not overlap.
pub uninterp spec fn regex_replace_all(
    pattern: Seq<char>,
    text: Seq<char>,
    replacement: Seq<char>,
) -> Seq<char>;

/// The pattern of a run of spaces and tabs.
pub open spec fn blank_run_pattern() -> Seq<char> {
    "[ \\t]+"@
}

/// The pattern of a label at the end of a file's name that is no part of a song's name,
/// with the dash or underscore and the whitespace around it. Case does not count.
pub open spec fn label_pattern() -> Seq<char> {
    "(?i)\\s*[-_]?\\s*(lyrics?|slides?|slideshow|presentation|ppt|pptx|worship|song)\\s*$"@
}

/// Whether the character is a space or a tab.
pub open spec fn is_blank_char(c: char) -> bool {
    c == ' ' || c == '\t'
}

/// The first `n` characters of the text with each run of spaces and tabs collapsed: the
/// first character of a run gives one space, the others nothing; every other character
/// stays.
pub open spec fn blanks_collapsed_upto(s: Seq<char>, n: int) -> Seq<char>
    decreases n,
{
    if n <= 0 {
        Seq::empty()
    } else if !is_blank_char(s[n - 1]) {
        blanks_collapsed_upto(s, n - 1).push(s[n - 1])
    } else if n >= 2 && is_blank_char(s[n - 2]) {
        blanks_collapsed_upto(s, n - 1)
    } else {
        blanks_collapsed_upto(s, n - 1).push(' ')
    }
}

/// The text with each run of spaces and tabs collapsed into one space.
pub open spec fn blanks_collapsed(s: Seq<char>) -> Seq<char> {
    blanks_collapsed_upto(s, s.len() as int)
}

/// `Regex::new`, for the two patterns of this crate, both of which are well-formed.
#[verifier::external_body]
pub(crate) fn compile(pattern: &str) -> (expression: Regex)
    requires
        pattern@ == blank_run_pattern() || pattern@ == label_pattern(),
    ensures
        pattern_of(expression) == pattern@,
{
    Regex::new(pattern).unwrap()
}

/// `Regex::clone`: the copy is an expression of the same pattern.
pub assume_specification[ <Regex as Clone>::clone ](expression: &Regex) -> (copy: Regex)
    ensures
        pattern_of(copy) == pattern_of(*expression),
;

/// `Regex::replace_all`. The result depends on the pattern, the text and the replacement
/// alone. For the pattern of a run of blanks and a single space as replacement, each
/// greatest run of spaces and tabs in the text gives one space, since `+` takes as many
/// characters as it can and the replacement names no group.
#[verifier::external_body]
pub(crate) fn replace_all(expression: &Regex, text: &str, replacement: &str) -> (r: String)
    ensures
        r@ == regex_replace_all(pattern_of(*expression), text@, replacement@),
        pattern_of(*expression) == blank_run_pattern() && replacement@ == " "@ ==> r@
            == blanks_collapsed(text@),
{
    expression.replace_all(text, replacement).into_owned()
}

} // verus!
