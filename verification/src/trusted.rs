//! The calls that this library makes into code that Verus has not read,
//! each behind a function whose contract is believed, not proved.

use std::fmt::Write;
use vstd::prelude::*;

verus! {

/// What `str::to_lowercase` gives for the text.
pub uninterp spec fn lowercase_of(text: Seq<char>) -> Seq<char>;

/// What formatting the path with this text with `{:?}` gives: the text in
/// double quotes, with the characters escaped that `Path` escapes.
pub uninterp spec fn debug_text_of(path: Seq<char>) -> Seq<char>;

/// Whether the regular expression `pattern` is one that the `regex` crate
/// accepts.
pub uninterp spec fn regex_is_valid(pattern: Seq<char>) -> bool;

/// Whether the regular expression `pattern` matches anywhere in `text`.
pub uninterp spec fn regex_matches(pattern: Seq<char>, text: Seq<char>) -> bool;

/// The first second that `chrono` has a date for: the start of the year
/// -262143.
pub const MIN_TIMESTAMP: i64 = -8_334_601_228_800;

/// The last second that `chrono` has a date for: the end of the year
/// 262142.
pub const MAX_TIMESTAMP: i64 = 8_210_266_876_799;

/// Whether `chrono::DateTime::from_timestamp` has a moment for that many
/// seconds after the start of 1970: it has where the day is one of the
/// years from -262143 to 262142.
pub open spec fn timestamp_in_range(seconds: int) -> bool {
    MIN_TIMESTAMP <= seconds <= MAX_TIMESTAMP
}

/// What `chrono::DateTime::format` writes, with the given format, for the
/// moment in UTC that many seconds after the start of 1970; `None` where
/// it reports an error instead.
pub uninterp spec fn utc_text_of(seconds: int, format: Seq<char>) -> Option<Seq<char>>;

/// Formats the path with this text with `{:?}`, through
/// `<std::path::Path as Debug>::fmt`: the result is the same for the same
/// text.
#[verifier::external_body]
pub(crate) fn debug_quoted(path: &str) -> (quoted: String)
    ensures
        quoted@ == debug_text_of(path@),
{
    format!("{:?}", std::path::Path::new(path))
}

/// Compiles `pattern` with `regex::Regex::new` and asks `Regex::is_match`
/// whether it matches anywhere in `text`. The result is `None` where the
/// pattern does not compile; both answers depend on the two texts alone.
#[verifier::external_body]
pub(crate) fn regex_is_match(pattern: &str, text: &str) -> (matched: Option<bool>)
    ensures
        matched is Some == regex_is_valid(pattern@),
        matched matches Some(m) ==> m == regex_matches(pattern@, text@),
{
    match regex::Regex::new(pattern) {
        Ok(re) => Some(re.is_match(text)),
        Err(_) => None,
    }
}

/// Turns seconds since the start of 1970 into a date and time in UTC with
/// `chrono::DateTime::from_timestamp` and writes it with `DateTime::format`
/// in the given format. The result is `None` where `from_timestamp` gives
/// none, which is where the day lies outside the years that `NaiveDate`
/// holds, and where the formatting reports an error; else it is what the
/// formatting wrote, which depends on the number and the format alone.
#[verifier::external_body]
pub(crate) fn format_utc_timestamp(seconds: i64, format: &str) -> (text: Option<String>)
    ensures
        !timestamp_in_range(seconds as int) ==> text is None,
        timestamp_in_range(seconds as int) ==> (text is Some) == (utc_text_of(
            seconds as int,
            format@,
        ) is Some),
        text matches Some(t) ==> utc_text_of(seconds as int, format@) == Some(t@),
{
    let moment = match chrono::DateTime::<chrono::Utc>::from_timestamp(seconds, 0) {
        Some(moment) => moment,
        None => return None,
    };
    let mut text = String::new();
    match write!(text, "{}", moment.format(format)) {
        Ok(()) => Some(text),
        Err(_) => None,
    }
}

/// Calls `str::to_lowercase`: the result is the same for the same text.
#[verifier::external_body]
pub(crate) fn lowercase(text: &str) -> (lower: String)
    ensures
        lower@ == lowercase_of(text@),
{
    text.to_lowercase()
}

} // verus!
