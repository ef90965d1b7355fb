//! Times of day as text. `chrono` does the formatting.

use std::fmt::Write;
use vstd::prelude::*;

verus! {

/// The UTC date and time that lie `secs` seconds after the Unix epoch,
/// written by `chrono` in the format `fmt`; nothing where `chrono` has no
/// such date or cannot write it in that format.
pub uninterp spec fn time_text_of(secs: i64, fmt: Seq<char>) -> Option<Seq<char>>;

/// Makes a `chrono::DateTime` of `secs` with `DateTime::from_timestamp` and
/// writes its `naive_utc()` through `format(fmt)`. Trusted: the result is
/// that text, or `None` where the timestamp is out of range or the format
/// cannot be written.
#[verifier::external_body]
fn time_text(secs: i64, fmt: &str) -> (r: Option<String>)
    ensures
        crate::models::opt_view(r) == time_text_of(secs, fmt@),
{
    let at = chrono::DateTime::from_timestamp(secs, 0)?;
    let mut out = String::new();
    write!(out, "{}", at.naive_utc().format(fmt)).ok()?;
    Some(out)
}

/// How the API writes a time: `2015-09-05 23:56:04`.
pub const TIME_FORMAT: &'static str = "%Y-%m-%d %H:%M:%S";

/// A time as the API writes it.
pub open spec fn api_time_of(secs: i64) -> Option<Seq<char>> {
    time_text_of(secs, TIME_FORMAT@)
}

/// Writes a time as the API shows it. `None` where the time lies outside
/// the calendar.
pub fn api_time(secs: i64) -> (r: Option<String>)
    ensures
        crate::models::opt_view(r) == api_time_of(secs),
{
    time_text(secs, TIME_FORMAT)
}

} // verus!
