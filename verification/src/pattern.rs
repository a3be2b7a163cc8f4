//! Leading-text recognition through the `regex` crate.

use vstd::prelude::*;

verus! {

/// The pattern whose leading match is the name after an `@`.
pub const IDENTIFIER_PATTERN: &'static str = "^([a-zA-Z_]+)";

/// The pattern whose leading match is a numeral.
pub const NUMBER_PATTERN: &'static str = "^([0-9]*(?:\\.[0-9]*)?)";

/// A character of the class `[a-zA-Z_]`.
pub open spec fn is_name_char(c: char) -> bool {
    ('a' <= c && c <= 'z') || ('A' <= c && c <= 'Z') || c == '_'
}

/// A character of the class `[0-9]`.
pub open spec fn is_digit(c: char) -> bool {
    '0' <= c && c <= '9'
}

/// The number of name characters at the start of `s`.
pub open spec fn name_run(s: Seq<char>) -> nat
    decreases s.len(),
{
    if s.len() > 0 && is_name_char(s[0]) {
        1 + name_run(s.drop_first())
    } else {
        0
    }
}

/// The number of digits at the start of `s`.
pub open spec fn digit_run(s: Seq<char>) -> nat
    decreases s.len(),
{
    if s.len() > 0 && is_digit(s[0]) {
        1 + digit_run(s.drop_first())
    } else {
        0
    }
}

/// What `IDENTIFIER_PATTERN` matches at the start of `s`: the longest
/// leading run of name characters, or nothing when there is none.
pub open spec fn leading_identifier(s: Seq<char>) -> Option<Seq<char>> {
    if name_run(s) == 0 {
        None
    } else {
        Some(s.take(name_run(s) as int))
    }
}

/// What `NUMBER_PATTERN` matches at the start of `s`: the leading digits,
/// then, if a dot follows them, the dot and the digits after it. It always
/// matches, possibly the empty text.
pub open spec fn leading_numeral(s: Seq<char>) -> Seq<char> {
    let d = digit_run(s);
    if d < s.len() && s[d as int] == '.' {
        s.take((d + 1 + digit_run(s.skip((d + 1) as int))) as int)
    } else {
        s.take(d as int)
    }
}

/// An optional string taken by its view.
pub open spec fn text_view(found: Option<String>) -> Option<Seq<char>> {
    match found {
        Some(s) => Some(s@),
        None => None,
    }
}

/// The text that the `regex` crate reports as the leftmost-first match of
/// `pattern` in `haystack` (group 0 of `Regex::captures`), or `None` where
/// `Regex::new` rejects the pattern or the pattern does not match.
pub uninterp spec fn regex_match_text(pattern: Seq<char>, haystack: Seq<char>) -> Option<Seq<char>>;

/// Compiles `pattern` with `regex::Regex::new`, runs `Regex::captures` on
/// `haystack` and returns the text of capture group 0 (`Captures::get(0)`
/// and `Match::as_str`). The contract names the result for every pattern,
/// and states it for the two patterns of this library, both anchored at
/// the start with `^` and matched leftmost-first, so greedily: the
/// identifier pattern matches the longest leading run of `[a-zA-Z_]` and
/// fails on none; the number pattern matches the leading digits and, when
/// a dot follows, the dot and the digits after it, and always matches.
#[verifier::external_body]
pub(crate) fn first_match_text(pattern: &str, haystack: &str) -> (r: Option<String>)
    ensures
        text_view(r) == regex_match_text(pattern@, haystack@),
        pattern@ == IDENTIFIER_PATTERN@ ==> text_view(r) == leading_identifier(haystack@),
        pattern@ == NUMBER_PATTERN@ ==> text_view(r) == Some(leading_numeral(haystack@)),
{
    let re = regex::Regex::new(pattern).ok()?;
    let caps = re.captures(haystack)?;
    let whole = caps.get(0)?;
    Some(whole.as_str().to_string())
}

} // verus!
