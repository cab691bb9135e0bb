//! Points in time as texts.
use chrono::TimeZone;
use vstd::prelude::*;
#[allow(unused_imports)]
use crate::text::byte_len;

verus! {

/// The most bytes that the text of a time takes up: a sign, six digits of the year, the other
/// numbers and what stands between them.
pub const MAX_STAMP_BYTES: usize = 26;

/// The first millisecond since 1970 that has a date.
pub const MIN_UNIX_MS: i64 = -8_334_601_228_800_000;

/// The last millisecond since 1970 that has a date.
pub const MAX_UNIX_MS: i64 = 8_210_266_876_799_999;

/// The number of seconds in a day.
pub const DAY: i32 = 86_400;

/// Whether a time has a date.
pub open spec fn has_date(unix_ms: int) -> bool {
    MIN_UNIX_MS <= unix_ms <= MAX_UNIX_MS
}

/// Whether local time may be that many seconds ahead of UTC.
pub open spec fn is_offset(seconds: int) -> bool {
    -DAY < seconds < DAY
}

/// A name for the text of a time, given in milliseconds since 1970, in the zone that is
/// `offset` seconds ahead of UTC.
pub uninterp spec fn time_text(unix_ms: i64, offset: i32, pattern: Seq<char>) -> Seq<char>;

/// `DateTime::format` of the crate `chrono`, for a time in a zone with a fixed offset. The
/// text is a function of the time, the offset and the pattern, and takes up 26 bytes at most; how
/// the pattern is filled in is left unsaid. The times are those for which `timestamp_millis_opt` gives a result, the
/// offsets those for which `FixedOffset::east_opt` does.
#[verifier::external_body]
fn format_time(unix_ms: i64, offset: i32, pattern: &str) -> (text: String)
    requires
        has_date(unix_ms as int),
        is_offset(offset as int),
        pattern@ == "%Y-%m-%d %H:%M:%S%.3f"@ || pattern@ == "%Y-%m-%d %H:%M:%S"@,
    ensures
        text@ == time_text(unix_ms, offset, pattern@),
        byte_len(text@) <= MAX_STAMP_BYTES,
{
    let zone = chrono::FixedOffset::east_opt(offset).unwrap();
    zone.timestamp_millis_opt(unix_ms).unwrap().format(pattern).to_string()
}

/// The date and time of day to the millisecond.
pub fn stamp(unix_ms: i64, offset: i32) -> (text: String)
    requires
        has_date(unix_ms as int),
        is_offset(offset as int),
    ensures
        text@ == time_text(unix_ms, offset, "%Y-%m-%d %H:%M:%S%.3f"@),
        byte_len(text@) <= MAX_STAMP_BYTES,
{
    format_time(unix_ms, offset, "%Y-%m-%d %H:%M:%S%.3f")
}

/// The date and time of day to the second.
pub fn short_stamp(unix_ms: i64, offset: i32) -> (text: String)
    requires
        has_date(unix_ms as int),
        is_offset(offset as int),
    ensures
        text@ == time_text(unix_ms, offset, "%Y-%m-%d %H:%M:%S"@),
        byte_len(text@) <= MAX_STAMP_BYTES,
{
    format_time(unix_ms, offset, "%Y-%m-%d %H:%M:%S")
}

} // verus!
