//! Rewriting links to status pages so that their previews work.
//!
//! What a link looks like is said by a regular expression, and the regex
//! crate finds and replaces the links.

use vstd::prelude::*;

verus! {

/// A link to a status page: the host, the account, the number of the status
/// and, if there is one, the query.
pub const STATUS_LINK_PATTERN: &'static str =
    "://(x|twitter)\\.com/([^/]+)/status/(\\d+)(\\?[a-zA-Z0-9%\\-_&=]+)?";

/// What a link to a status page is replaced by: the same page on the host
/// that serves previews, without the query.
pub const STATUS_LINK_REPLACEMENT: &'static str = "://vxtwitter.com/$2/status/$3";

/// What the regex crate makes of `text` when every match of the regular
/// expression `pattern` in it, from left to right and without overlap, is
/// replaced by `replacement`, in which `$` and a number stand for what the
/// group of that number matched. `None` where nothing matches or `pattern`
/// is no regular expression.
pub uninterp spec fn regex_replaced(
    pattern: Seq<char>,
    text: Seq<char>,
    replacement: Seq<char>,
) -> Option<Seq<char>>;

/// `regex::Regex::new` and, on the expression it gives,
/// `regex::Regex::replace_all`. The contract only names the result: the text
/// with the replacements made where the crate returns an owned text, which it
/// does exactly where it found a match; `None` where it returns the text it
/// borrowed, or refuses the pattern. Nothing is claimed of what the result
/// holds.
#[verifier::external_body]
fn regex_replace_all(pattern: &str, text: &str, replacement: &str) -> (replaced: Option<String>)
    ensures
        match replaced {
            Some(owned) => regex_replaced(pattern@, text@, replacement@) == Some(owned@),
            None => regex_replaced(pattern@, text@, replacement@) is None,
        },
{
    match regex::Regex::new(pattern) {
        Ok(expression) => match expression.replace_all(text, replacement) {
            std::borrow::Cow::Owned(owned) => Some(owned),
            std::borrow::Cow::Borrowed(_) => None,
        },
        Err(_) => None,
    }
}

/// The content with every link to a status page rewritten; `None` where the
/// content holds no such link, and so there is nothing to say.
pub fn rewrite_links(content: &str) -> (rewritten: Option<String>)
    ensures
        match rewritten {
            Some(text) => regex_replaced(STATUS_LINK_PATTERN@, content@, STATUS_LINK_REPLACEMENT@)
                == Some(text@),
            None => regex_replaced(STATUS_LINK_PATTERN@, content@, STATUS_LINK_REPLACEMENT@)
                is None,
        },
{
    regex_replace_all(STATUS_LINK_PATTERN, content, STATUS_LINK_REPLACEMENT)
}

} // verus!
