//! Text in double quotes, escaped as Rust's `Debug` formatting escapes it.

use vstd::prelude::*;

verus! {

/// What `{:?}` makes of a string: the text in double quotes, with quotes,
/// backslashes and unprintable characters escaped.
pub uninterp spec fn debug_quoted(text: Seq<char>) -> Seq<char>;

/// What `{:?}` makes of a character: the character in single quotes,
/// escaped where it has to be.
pub uninterp spec fn debug_quoted_char(c: char) -> Seq<char>;

/// Formats `text` with `{:?}`, that is by the `Debug` impl of `str`.
#[verifier::external_body]
pub(crate) fn quote(text: &str) -> (quoted: String)
    ensures
        quoted@ == debug_quoted(text@),
{
    format!("{:?}", text)
}

/// Formats `c` with `{:?}`, that is by the `Debug` impl of `char`.
#[verifier::external_body]
pub(crate) fn quote_char(c: char) -> (quoted: String)
    ensures
        quoted@ == debug_quoted_char(c),
{
    format!("{:?}", c)
}

} // verus!
