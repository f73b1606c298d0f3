//! The regular expressions of the library, and their one use: replacing what they match.
use vstd::prelude::*;

use crate::text;

verus! {

/// A bracketed remark at the end of a title that names a release variant.
pub const RELEASE_REMARK: &'static str = r"(?i)\s*[\(\[\{](?:[^\)\]\}]*?\b)?(?:remaster|remastered|mix|remix|live|edit|version|session|deluxe|anniversary|edition|mono|stereo|re-recorded|digitally|reissue|restored)\b[^\)\]\}]*?[\)\]\}]\s*$";

/// A leading track number with its separator.
pub const LEADING_NUMBER: &'static str = r"^\d+\s*[-._]?\s*";

/// A bracketed passage.
pub const BRACKETED: &'static str = r"[\(\[\{].*?[\)\]\}]";

/// A featured artist and all that follows.
pub const FEATURED: &'static str = r"(?i)\b(feat|ft)\b.*";

/// A run of characters outside words, the underscore among them.
pub const NON_WORD: &'static str = r"[\W_]+";

/// The expressions above; each compiles.
pub open spec fn is_library_pattern(p: Seq<char>) -> bool {
    ||| p == RELEASE_REMARK@
    ||| p == LEADING_NUMBER@
    ||| p == BRACKETED@
    ||| p == FEATURED@
    ||| p == NON_WORD@
}

/// What `regex::Regex::replace` makes of `text`, for the expression `pattern` and the given
/// replacement.
pub uninterp spec fn first_match_replaced(
    pattern: Seq<char>,
    text: Seq<char>,
    replacement: Seq<char>,
) -> Seq<char>;

/// What `regex::Regex::replace_all` makes of `text`, for the expression `pattern` and the given
/// replacement.
pub uninterp spec fn all_matches_replaced(
    pattern: Seq<char>,
    text: Seq<char>,
    replacement: Seq<char>,
) -> Seq<char>;

/// A character that counts as part of a word, the underscore aside. In ASCII these are the letters
/// and the digits; any other character is one where `NON_WORD` does not match it.
pub open spec fn is_word_char(c: char) -> bool {
    if c <= '\u{7f}' {
        text::is_digit(c) || 'A' <= c <= 'Z' || 'a' <= c <= 'z'
    } else {
        all_matches_replaced(NON_WORD@, seq![c], Seq::empty()) == seq![c]
    }
}

/// The last character of `s`, white space aside, closes a bracket.
pub open spec fn ends_in_bracket(s: Seq<char>) -> bool {
    let t = text::trimmed_end(s);
    t.len() > 0 && (t.last() == ')' || t.last() == ']' || t.last() == '}')
}

/// `regex::Regex::replace`, on the expression that `regex::Regex::new` compiles from `pattern`:
/// the leftmost match gives way to the replacement, and text without a match comes back as it is.
/// Where it matches is left to the name `first_match_replaced`, but for three things.
/// `RELEASE_REMARK` ends in a closing bracket, white space (`\s`, Unicode's White_Space) and `$`,
/// which without the `m` flag holds at the end of the text only. So a text that does not end so
/// comes back as it is, and what an empty replacement leaves is the text's beginning. And no expression of the library tells
/// the case of an ASCII letter: those that hold letters have the `i` flag, and every class holds a
/// letter in both cases or in none, so the same characters go where the text is in lower case.
#[verifier::external_body]
pub(crate) fn replace_first(pattern: &str, text: &str, replacement: &str) -> (out: String)
    requires
        is_library_pattern(pattern@),
    ensures
        out@ == first_match_replaced(pattern@, text@, replacement@),
        pattern@ == RELEASE_REMARK@ && !ends_in_bracket(text@) ==> out@ == text@,
        pattern@ == RELEASE_REMARK@ && replacement@.len() == 0 ==> out@.is_prefix_of(text@),
        replacement@.len() == 0 ==> text::lowered(out@) == first_match_replaced(
            pattern@,
            text::lowered(text@),
            replacement@,
        ),
{
    regex::Regex::new(pattern).expect("valid regex").replace(text, replacement).into_owned()
}

/// `regex::Regex::replace_all`, on the expression that `regex::Regex::new` compiles from
/// `pattern`: every match gives way to the replacement. What matches is left to the name
/// `all_matches_replaced`, but for two things, stated of an empty replacement. `NON_WORD` matches
/// every run of characters that are underscores or outside Unicode's `\w`, so what it leaves holds
/// none of them. And, as with `replace_first`, the case of ASCII letters makes no difference to
/// what matches.
#[verifier::external_body]
pub(crate) fn replace_all(pattern: &str, text: &str, replacement: &str) -> (out: String)
    requires
        is_library_pattern(pattern@),
    ensures
        out@ == all_matches_replaced(pattern@, text@, replacement@),
        pattern@ == NON_WORD@ && replacement@.len() == 0 ==> forall|i: int|
            0 <= i < out@.len() ==> is_word_char(#[trigger] out@[i]),
        replacement@.len() == 0 ==> text::lowered(out@) == all_matches_replaced(
            pattern@,
            text::lowered(text@),
            replacement@,
        ),
{
    regex::Regex::new(pattern).expect("valid regex").replace_all(text, replacement).into_owned()
}

} // verus!
