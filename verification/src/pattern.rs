//! Regular expressions, as the `regex` crate reads them.

use regex::Regex;
use vstd::prelude::*;

verus! {

/// A compiled regular expression.
#[verifier::external_type_specification]
#[verifier::external_body]
pub struct ExRegex(regex::Regex);

/// Why a pattern did not compile.
#[verifier::external_type_specification]
#[verifier::external_body]
pub struct ExRegexError(regex::Error);

/// The texts in which a compiled expression finds a match.
pub uninterp spec fn language(re: Regex) -> Set<Seq<char>>;

/// What an error says about a pattern.
pub uninterp spec fn regex_fault(e: regex::Error) -> Seq<char>;

/// The texts in which a pattern finds a match, or what is wrong with it where it does
/// not compile.
pub uninterp spec fn pattern_language(pattern: Seq<char>) -> Result<Set<Seq<char>>, Seq<char>>;

/// `Regex::new`: compiles exactly the patterns that have a language, and the
/// compiled expression matches in that language; of any other pattern the error says
/// what is wrong.
#[verifier::external_body]
pub(crate) fn compile(pattern: &str) -> (r: Result<Regex, regex::Error>)
    ensures
        match r {
            Ok(re) => pattern_language(pattern@) == Ok::<Set<Seq<char>>, Seq<char>>(language(re)),
            Err(e) => pattern_language(pattern@) == Err::<Set<Seq<char>>, Seq<char>>(
                regex_fault(e),
            ),
        },
{
    Regex::new(pattern)
}

/// The `Display` form of a `regex::Error`: what it says about the pattern.
#[verifier::external_body]
pub(crate) fn fault_text(e: &regex::Error) -> (r: String)
    ensures
        r@ == regex_fault(*e),
{
    e.to_string()
}

/// `Regex::is_match`: whether the expression finds a match somewhere in `text`.
#[verifier::external_body]
pub(crate) fn regex_accepts(re: &Regex, text: &str) -> (r: bool)
    ensures
        r == language(*re).contains(text@),
{
    re.is_match(text)
}

} // verus!
