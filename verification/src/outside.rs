//! The functions of std and of other crates that the library relies on, each
//! with what is taken for granted of it.

use crate::hostpath;
use vstd::prelude::*;
use vstd::string::*;
use vstd::utf8::*;

verus! {

/// What `String::from_utf8_lossy` makes of these bytes.
pub uninterp spec fn utf8_lossy(bytes: Seq<u8>) -> Seq<char>;

/// `path_clean::clean`: from the parts of the path every `.` is taken out, and
/// every `..` together with the name in front of it, or alone where it follows
/// the root; the rest is put together again, and where nothing is left the result
/// is `.`.
///
/// The function looks at nothing but `/` and `.`, so each byte is handed to it,
/// and taken back, as the character of the same number: every byte string can
/// be written as a text that way.
#[verifier::external_body]
pub(crate) fn clean_bytes(path: &[u8]) -> (r: Vec<u8>)
    ensures
        r@ == hostpath::cleaned(path@),
{
    let text: String = path.iter().map(|b| char::from(*b)).collect();
    let cleaned = path_clean::clean(text);
    cleaned.to_string_lossy().chars().map(|c| c as u8).collect()
}

/// `std::str::from_utf8`: succeeds on valid UTF-8 and nothing else, and the text
/// it gives is the one that these bytes encode.
#[verifier::external_body]
pub(crate) fn utf8_text(bytes: &[u8]) -> (r: Option<&str>)
    ensures
        r is Some == valid_utf8(bytes@),
        r matches Some(s) ==> encode_utf8(s@) == bytes@,
{
    std::str::from_utf8(bytes).ok()
}

/// `String::from_utf8_lossy`: the result is a function of the bytes, and is the
/// text that they encode where they are valid UTF-8. How invalid sequences are
/// replaced is left to the name.
#[verifier::external_body]
pub(crate) fn lossy_text(bytes: &[u8]) -> (r: String)
    ensures
        r@ == utf8_lossy(bytes@),
        valid_utf8(bytes@) ==> r@ == decode_utf8(bytes@),
{
    String::from_utf8_lossy(bytes).into_owned()
}

/// A compiled glob pattern.
#[verifier::external_type_specification]
#[verifier::external_body]
pub struct ExPattern(glob::Pattern);

/// What is wrong with a glob pattern.
#[verifier::external_type_specification]
#[verifier::external_body]
pub struct ExPatternError(glob::PatternError);

/// What `glob::Pattern::new` makes of this text: a pattern, or what is wrong
/// with it.
pub uninterp spec fn glob_compile(text: Seq<char>) -> Result<glob::Pattern, glob::PatternError>;

/// How a `glob::PatternError` is displayed.
pub uninterp spec fn glob_error(e: glob::PatternError) -> Seq<char>;

/// Whether `glob::Pattern::matches_with` finds that the pattern matches this
/// text; the three flags are the options of the match.
pub uninterp spec fn glob_matches(
    pattern: glob::Pattern,
    text: Seq<char>,
    case_sensitive: bool,
    literal_separator: bool,
    literal_leading_dot: bool,
) -> bool;

/// How many separators a text holds.
pub open spec fn separators(s: Seq<char>) -> nat {
    s.filter(|c: char| c == '/').len()
}

/// Two stars stand side by side.
pub open spec fn has_double_star(s: Seq<char>) -> bool {
    exists|i: int| 0 <= i < s.len() - 1 && #[trigger] s[i] == '*' && s[i + 1] == '*'
}

/// The pattern was compiled from a text without `**` that holds fewer separators
/// than `text` does.
pub open spec fn out_of_reach(pattern: glob::Pattern, text: Seq<char>) -> bool {
    exists|t: Seq<char>| #[trigger]
        glob_compile(t) == Ok::<glob::Pattern, glob::PatternError>(pattern) && !has_double_star(t)
            && separators(t) < separators(text)
}

/// `glob::Pattern::new`: whether it succeeds, the pattern and the error are
/// functions of the text.
#[verifier::external_body]
pub(crate) fn compile_glob(text: &str) -> (r: Result<glob::Pattern, glob::PatternError>)
    ensures
        r == glob_compile(text@),
{
    glob::Pattern::new(text)
}

/// `to_string` on a `glob::PatternError`: the text is a function of the error.
#[verifier::external_body]
pub(crate) fn glob_error_text(e: &glob::PatternError) -> (r: String)
    ensures
        r@ == glob_error(*e),
{
    e.to_string()
}

/// `glob::Pattern::matches_with`: the answer is a function of the pattern, the text
/// and the options. Where separators (`/` on Unix) have to be matched literally,
/// nothing but a separator of the pattern or `**` matches one, so a pattern without
/// `**` matches no text that holds more of them.
#[verifier::external_body]
pub(crate) fn match_glob(
    pattern: &glob::Pattern,
    text: &str,
    case_sensitive: bool,
    literal_separator: bool,
    literal_leading_dot: bool,
) -> (r: bool)
    ensures
        r == glob_matches(
            *pattern,
            text@,
            case_sensitive,
            literal_separator,
            literal_leading_dot,
        ),
        r && literal_separator ==> !out_of_reach(*pattern, text@),
{
    let options = glob::MatchOptions {
        case_sensitive,
        require_literal_separator: literal_separator,
        require_literal_leading_dot: literal_leading_dot,
    };
    pattern.matches_with(text, options)
}

/// How `{:?}` writes a text.
pub uninterp spec fn debug_quoted(text: Seq<char>) -> Seq<char>;

/// `format!("{:?}", text)`: quotes around the text, with the characters escaped
/// that need it; which those are is left to the name.
#[verifier::external_body]
pub(crate) fn quote(text: &str) -> (r: String)
    ensures
        r@ == debug_quoted(text@),
{
    format!("{:?}", text)
}

} // verus!
