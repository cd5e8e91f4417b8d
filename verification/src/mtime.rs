//! The time of the last change of a file, as shown in a listing.
use crate::text::text_of;
use vstd::prelude::*;

verus! {

/// How a time is shown: day, month and year, then hour and minute.
pub const MTIME_FORMAT: &'static str = "%d/%m/%Y %Hh%M";

/// What `chrono` writes for the moment that lies `seconds` after the start
/// of 1970 in universal time, in the given format. None where it has no
/// such moment, or cannot write it in that format.
pub uninterp spec fn utc_text(seconds: int, format: Seq<char>) -> Option<Seq<char>>;

/// The first second of the dates that `chrono` holds: the start of the
/// year -262143.
pub const FIRST_SECOND: i64 = -8_334_601_228_800;

/// The last second of the dates that `chrono` holds: the end of the year
/// 262142.
pub const LAST_SECOND: i64 = 8_210_266_876_799;

/// A moment that lies within the dates that `chrono` holds.
pub open spec fn in_date_range(seconds: i64) -> bool {
    FIRST_SECOND <= seconds <= LAST_SECOND
}

/// `chrono::DateTime::from_timestamp`, then `format` and `write_to` on the
/// moment found: the moment in universal time written in the given format.
/// The text depends on the two arguments alone. There is a moment exactly
/// for the seconds from the start of the year -262143 to the end of the year
/// 262142, and each of them can be written in the format of a listing.
#[verifier::external_body]
pub(crate) fn format_utc(seconds: i64, format: &str) -> (text: Option<String>)
    ensures
        text_of(text) == utc_text(seconds as int, format@),
        format@ == MTIME_FORMAT@ ==> (text is Some <==> in_date_range(seconds)),
{
    match chrono::DateTime::from_timestamp(seconds, 0) {
        Some(moment) => {
            let mut text = String::new();
            match moment.format(format).write_to(&mut text) {
                Ok(()) => Some(text),
                Err(_) => None,
            }
        },
        None => None,
    }
}

/// The moment to show for a file: that of its last change, and `now` where
/// the file system tells none.
pub open spec fn shown_moment(modified: Option<i64>, now: i64) -> i64 {
    match modified {
        Some(seconds) => seconds,
        None => now,
    }
}

/// The time of the last change of a file as a listing shows it. Both
/// moments are counted in seconds from the start of 1970.
pub fn get_time(modified: Option<i64>, now: i64) -> (text: Option<String>)
    ensures
        text_of(text) == utc_text(shown_moment(modified, now) as int, MTIME_FORMAT@),
        text is Some <==> in_date_range(shown_moment(modified, now)),
{
    let moment = match modified {
        Some(seconds) => seconds,
        None => now,
    };
    format_utc(moment, MTIME_FORMAT)
}

/// The whole seconds between the start of 1970 and a moment, rounded down:
/// the moment lies `secs` seconds and `nanos` billionths of a second after
/// the start of 1970, or before it where `before_epoch`. More seconds than
/// an `i64` holds count as the most that it holds.
pub open spec fn floor_seconds(before_epoch: bool, secs: u64, nanos: u32) -> int {
    let whole: int = if secs <= i64::MAX {
        secs as int
    } else {
        i64::MAX as int
    };
    if !before_epoch {
        whole
    } else if nanos == 0 {
        -whole
    } else {
        -whole - 1
    }
}

/// The whole seconds between the start of 1970 and a moment, rounded down.
pub fn whole_seconds(before_epoch: bool, secs: u64, nanos: u32) -> (seconds: i64)
    ensures
        seconds == floor_seconds(before_epoch, secs, nanos),
{
    let whole: i64 = if secs <= 0x7fff_ffff_ffff_ffff {
        secs as i64
    } else {
        i64::MAX
    };
    if !before_epoch {
        whole
    } else if nanos == 0 {
        -whole
    } else {
        -whole - 1
    }
}

} // verus!
