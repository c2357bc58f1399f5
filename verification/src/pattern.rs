//! Regular expressions. Matching is done by the `regex` crate; what it finds
//! is known here by name only.
use vstd::prelude::*;

verus! {

/// A line that is a comment.
pub const COMMENT_LINE: &'static str = "^#.*";

/// A footer line: a key, a colon, one white space and a value.
pub const FOOTER_LINE: &'static str = "^([\\w-]+):\\s(.*)$";

/// A line that is an item of a list.
pub const LIST_LINE: &'static str = "^\\s*-\\s";

/// A block that starts with a word character.
pub const PARAGRAPH_START: &'static str = "^\\w";

/// A group of tags between two colons, after a space or a line feed.
pub const INLINE_TAGS: &'static str = "[ \\n]:(.*?):";

/// Whether the regular expression `pattern` matches somewhere in `text`.
/// False where `pattern` is no regular expression.
pub uninterp spec fn regex_is_match(pattern: Seq<char>, text: Seq<char>) -> bool;

/// The successive matches of the regular expression `pattern` in `text`, none
/// overlapping another: for each match its capture groups, the whole match
/// first; `None` for a group that took no part in the match. Empty where
/// `pattern` is no regular expression.
pub uninterp spec fn regex_captures(pattern: Seq<char>, text: Seq<char>) -> Seq<
    Seq<Option<Seq<char>>>,
>;

/// `text` with each of the successive matches of the regular expression
/// `pattern` replaced by `replacement`. `text` itself where `pattern` is no
/// regular expression.
pub uninterp spec fn regex_replace_all(
    pattern: Seq<char>,
    text: Seq<char>,
    replacement: Seq<char>,
) -> Seq<char>;

/// Compiles `pattern` with `regex::Regex::new` and asks `Regex::is_match`
/// whether it matches anywhere in `text`. A pattern that does not compile
/// matches nothing.
#[verifier::external_body]
pub(crate) fn is_match(pattern: &str, text: &str) -> (r: bool)
    ensures
        r == regex_is_match(pattern@, text@),
{
    match regex::Regex::new(pattern) {
        Ok(re) => re.is_match(text),
        Err(_) => false,
    }
}

/// Compiles `pattern` with `regex::Regex::new` and walks the matches that
/// `Regex::captures_iter` finds in `text`, copying the text of each capture
/// group. A pattern that does not compile has no matches.
#[verifier::external_body]
pub(crate) fn captures(pattern: &str, text: &str) -> (r: Vec<Vec<Option<String>>>)
    ensures
        r.deep_view() == regex_captures(pattern@, text@),
{
    match regex::Regex::new(pattern) {
        Ok(re) => re.captures_iter(text).map(
            |c| c.iter().map(|g| g.map(|m| m.as_str().to_owned())).collect(),
        ).collect(),
        Err(_) => Vec::new(),
    }
}

/// Compiles `pattern` with `regex::Regex::new` and lets `Regex::replace_all`
/// put `replacement` in place of every match in `text`. Where nothing
/// matches, and where the pattern does not compile, the text comes back as it
/// is.
#[verifier::external_body]
pub(crate) fn replace_all(pattern: &str, text: &str, replacement: &str) -> (r: String)
    ensures
        r@ == regex_replace_all(pattern@, text@, replacement@),
        regex_captures(pattern@, text@).len() == 0 ==> r@ == text@,
{
    match regex::Regex::new(pattern) {
        Ok(re) => re.replace_all(text, replacement).into_owned(),
        Err(_) => text.to_owned(),
    }
}

} // verus!
