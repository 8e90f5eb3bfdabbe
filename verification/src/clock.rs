//! The fixed `+08:00` clock that timestamps and archive names go by.
use crate::text::printable_text;
use vstd::prelude::*;

verus! {

/// How far the clock is ahead of UTC.
pub const SHANGHAI_OFFSET_SECONDS: i32 = 8 * 60 * 60;

/// The pattern of the time at the start of an entry. It has no timezone suffix.
pub const ENTRY_PATTERN: &'static str = "%Y-%m-%d %H:%M:%S";

/// The pattern of an archive's hour.
pub const ARCHIVE_PATTERN: &'static str = "%Y%m%d-%H";

/// The first second that has a date, in seconds from the Unix epoch.
pub const FIRST_SECOND: i64 = -8_334_601_228_800;

/// The last second that has a date, in seconds from the Unix epoch.
pub const LAST_SECOND: i64 = 8_210_266_876_799;

/// What `chrono` writes for a time, given in seconds from the Unix epoch, on a clock that is
/// `offset_seconds` ahead of UTC, in a `strftime` pattern.
pub uninterp spec fn clock_text(utc_seconds: i64, offset_seconds: i32, pattern: Seq<char>) -> Option<Seq<char>>;

/// The characters that dates and times are written with.
pub open spec fn clock_char(c: char) -> bool {
    '0' <= c <= '9' || c == '+' || c == '-' || c == ' ' || c == ':'
}

/// Whether there is a text for every pattern: the offset is less than a day, and the time has a
/// date.
pub open spec fn has_date(utc_seconds: i64, offset_seconds: i32) -> bool {
    &&& -86_400 < offset_seconds < 86_400
    &&& FIRST_SECOND <= utc_seconds <= LAST_SECOND
}

/// The characters of a text that may be missing.
pub open spec fn optional_text(text: Option<String>) -> Option<Seq<char>> {
    match text {
        Some(t) => Some(t@),
        None => None,
    }
}

/// Whether a text is written with the characters of dates and times.
pub open spec fn clock_written(text: Seq<char>) -> bool {
    forall|i: int| 0 <= i < text.len() ==> clock_char(#[trigger] text[i])
}

/// Writes a time on a clock with a fixed offset.
///
/// Trusted: `chrono::DateTime::from_timestamp`, `chrono::FixedOffset::east_opt`,
/// `DateTime::with_timezone` and `DateTime::format`. The text is claimed to depend on the
/// arguments alone, to be there exactly if the offset is less than a day and the time within
/// the range of `chrono`'s dates, and, for the two patterns, to hold only digits, signs, spaces
/// and colons. Which digits they are is not stated.
#[verifier::external_body]
fn format_clock(utc_seconds: i64, offset_seconds: i32, pattern: &str) -> (text: Option<String>)
    requires
        pattern@ == ENTRY_PATTERN@ || pattern@ == ARCHIVE_PATTERN@,
    ensures
        optional_text(text) == clock_text(utc_seconds, offset_seconds, pattern@),
        text is Some == has_date(utc_seconds, offset_seconds),
        text is Some ==> clock_written(text->0@),
{
    let zone = chrono::FixedOffset::east_opt(offset_seconds)?;
    let time = chrono::DateTime::<chrono::Utc>::from_timestamp(utc_seconds, 0)?;
    Some(time.with_timezone(&zone).format(pattern).to_string())
}

/// Dates and times are printable.
proof fn lemma_clock_text_printable(text: Seq<char>)
    requires
        clock_written(text),
    ensures
        printable_text(text),
{
    assert forall|i: int| 0 <= i < text.len() implies #[trigger] text[i] >= ' ' by {
        assert(clock_char(text[i]));
    }
}

/// The time at the start of an entry that is written at `unix_seconds`, on the `+08:00` clock. A
/// time beyond the range of dates has none.
pub fn entry_timestamp(unix_seconds: i64) -> (text: Option<String>)
    ensures
        optional_text(text) == clock_text(unix_seconds, SHANGHAI_OFFSET_SECONDS, ENTRY_PATTERN@),
        text is Some <==> FIRST_SECOND <= unix_seconds <= LAST_SECOND,
        text matches Some(t) ==> printable_text(t@),
{
    let text = format_clock(unix_seconds, SHANGHAI_OFFSET_SECONDS, ENTRY_PATTERN);
    proof {
        if text is Some {
            lemma_clock_text_printable(text->0@);
        }
    }
    text
}

/// An hour in the name of an archive, by the second (from the Unix epoch) that it starts at. An
/// hour beyond the range of dates has none.
pub fn archive_hour_text(utc_seconds: i64) -> (text: Option<String>)
    ensures
        optional_text(text) == clock_text(utc_seconds, SHANGHAI_OFFSET_SECONDS, ARCHIVE_PATTERN@),
        text is Some <==> FIRST_SECOND <= utc_seconds <= LAST_SECOND,
        text matches Some(t) ==> printable_text(t@),
{
    let text = format_clock(utc_seconds, SHANGHAI_OFFSET_SECONDS, ARCHIVE_PATTERN);
    proof {
        if text is Some {
            lemma_clock_text_printable(text->0@);
        }
    }
    text
}

/// The clock is eight hours ahead of UTC. Entries start with the date and the time of day, and
/// archives are named after the date and the hour.
pub proof fn law_clock_is_eight_hours_ahead()
    ensures
        SHANGHAI_OFFSET_SECONDS == 28800,
        ENTRY_PATTERN@ == "%Y-%m-%d %H:%M:%S"@,
        ARCHIVE_PATTERN@ == "%Y%m%d-%H"@,
{
}

} // verus!
