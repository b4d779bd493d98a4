//! The preprocessor: it makes an implicit multiplication explicit.
//!
//! Where a digit or a letter is directly followed by a letter or an opening
//! parenthesis, as in `4(10+4)` or `0.1x`, a multiplication is meant. The
//! preprocessor writes it out at the first such place of a text, and leaves
//! later ones as they are. It finds the place with a regular expression.

use vstd::prelude::*;
use vstd::string::*;

verus! {

/// The text that `regex::Regex::replacen` returns for a haystack, a limit
/// and a replacement, on the regular expression that `pattern` compiles to.
pub uninterp spec fn regex_replacen(
    pattern: Seq<char>,
    haystack: Seq<char>,
    limit: nat,
    replacement: Seq<char>,
) -> Seq<char>;

/// The regular expression of an implicit multiplication: a digit or a letter
/// in a first group, a letter or an opening parenthesis in a second.
pub open spec fn adjacency() -> Seq<char> {
    "([\\da-zA-Z])([a-zA-Z\\(])"@
}

/// The replacement that puts a multiplication sign between the two groups.
pub open spec fn product() -> Seq<char> {
    "$1 * $2"@
}

/// The text with its first implicit multiplication written out.
pub open spec fn explicit(text: Seq<char>) -> Seq<char> {
    regex_replacen(adjacency(), text, 1, product())
}

/// Calls `regex::Regex::new` on `pattern` and `Regex::replacen` on the
/// expression it gives.
///
/// The result is taken to be a function of the four arguments, and is given
/// the name [`regex_replacen`]; what it is for given arguments is not stated.
/// The pattern has to be the one of [`adjacency`], which `Regex::new`
/// compiles: of other patterns, which it may refuse, nothing is claimed.
#[verifier::external_body]
fn replacen(pattern: &str, haystack: &str, limit: usize, replacement: &str) -> (rewritten: String)
    requires
        pattern@ == adjacency(),
    ensures
        rewritten@ == regex_replacen(pattern@, haystack@, limit as nat, replacement@),
{
    regex::Regex::new(pattern).unwrap().replacen(haystack, limit, replacement).into_owned()
}

/// Writes out the first implicit multiplication of `equ`.
pub fn prepare_equ(equ: &str) -> (prepared: String)
    ensures
        prepared@ == explicit(equ@),
{
    replacen("([\\da-zA-Z])([a-zA-Z\\(])", equ, 1, "$1 * $2")
}

} // verus!
