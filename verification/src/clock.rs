//! The moment of a scan as the report shows it.

use vstd::prelude::*;
use crate::chars::text_of;

verus! {

/// The local date and time, written as year, month and day and as hours,
/// minutes and seconds, of the moment that lies `unix_seconds` seconds after
/// the start of 1970 in universal time, at a place whose clocks are
/// `utc_offset_seconds` seconds ahead of universal time. There is none where
/// the calendar does not reach the moment or the offset is a day or more.
pub uninterp spec fn local_time_text(unix_seconds: i64, utc_offset_seconds: i32) -> Option<
    Seq<char>,
>;

/// Formats a moment with chrono: `DateTime::from_timestamp` and
/// `FixedOffset::east_opt` make the moment and the offset from the two
/// numbers, each giving nothing for a number out of its range, and
/// `DateTime::format` writes the local time in the pattern
/// `%Y-%m-%d %H:%M:%S`. The text depends on the two numbers alone; the
/// contract gives it its name and claims nothing else.
#[verifier::external_body]
pub(crate) fn format_local_time(unix_seconds: i64, utc_offset_seconds: i32) -> (text: Option<String>)
    ensures
        text_of(text) == local_time_text(unix_seconds, utc_offset_seconds),
{
    let moment = chrono::DateTime::from_timestamp(unix_seconds, 0)?;
    let offset = chrono::FixedOffset::east_opt(utc_offset_seconds)?;
    Some(moment.with_timezone(&offset).format("%Y-%m-%d %H:%M:%S").to_string())
}

} // verus!
