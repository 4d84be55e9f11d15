//! Searching a text for a regular expression, through the `regex` crate.

use vstd::prelude::*;

verus! {

/// The regular expression `([^\\])"`: a character other than a backslash,
/// and a double quote directly behind it.
pub open spec fn unescaped_quote() -> Seq<char> {
    "([^\\\\])\""@
}

/// Whether some double quote of `text` stands directly behind a character
/// other than a backslash.
pub open spec fn has_unescaped_quote(text: Seq<char>) -> bool {
    exists|i: int| 1 <= i < text.len() && #[trigger] text[i] == '"' && text[i - 1] != '\\'
}

/// Whether the regular expression `pattern` matches anywhere in `text`, as
/// the `regex` crate decides it; `None` where the crate does not accept
/// `pattern` as a regular expression.
pub uninterp spec fn regex_match(pattern: Seq<char>, text: Seq<char>) -> Option<bool>;

/// Compiles `pattern` with `regex::Regex::new` and searches `text` with
/// `Regex::is_match`. The crate decides the outcome from the two texts
/// alone, which is all that the first clause claims. The second clause
/// states the outcome for the one expression that the parser uses, as the
/// crate documents its syntax: `[^\\]` is any character except a backslash,
/// `"` is itself, one follows the other, and a match may start anywhere.
#[verifier::external_body]
pub(crate) fn pattern_found(pattern: &str, text: &str) -> (found: Option<bool>)
    ensures
        found == regex_match(pattern@, text@),
        pattern@ == unescaped_quote() ==> found == Some(has_unescaped_quote(text@)),
{
    match regex::Regex::new(pattern) {
        Ok(expression) => Some(expression.is_match(text)),
        Err(_) => None,
    }
}

} // verus!
