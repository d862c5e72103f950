//! Archiving a program file: the file moves into `_/<time stamp>/` beside it, the
//! time stamp written with a configurable `strftime` format.
use vstd::prelude::*;
use chrono::TimeZone;
use std::fmt::Write;

use crate::chars::{chars_eq, from_chars, to_chars};
use crate::settings::{lookup, Extra};

verus! {

/// Name of the archive directory created beside the file.
pub const ARCHIVE_DIR_NAME: &'static str = "_";

/// Format of the time stamp when none is configured: day, month, two-digit year, a
/// dot, hours and minutes.
pub const DEFAULT_DATE_FORMAT: &'static str = "%d%m%y.%H%M";

/// A moment as local calendar time, with the offset of the local time zone from UTC.
#[derive(Clone, Copy, Debug, PartialEq, Eq, Structural)]
pub struct LocalTime {
    pub year: i32,
    pub month: u32,
    pub day: u32,
    pub hour: u32,
    pub minute: u32,
    pub second: u32,
    pub nanosecond: u32,
    /// Seconds east of UTC.
    pub offset_seconds: i32,
}

/// What `chrono` writes for a local time (a `DateTime<FixedOffset>` built from the
/// calendar fields and the offset) with a `strftime` format: `None` when the fields
/// or the offset do not make a valid time, or the format holds an invalid specifier.
pub uninterp spec fn formatted_time(
    year: int,
    month: nat,
    day: nat,
    hour: nat,
    minute: nat,
    second: nat,
    nanosecond: nat,
    offset_seconds: int,
    format: Seq<char>,
) -> Option<Seq<char>>;

/// [`formatted_time`] of a [`LocalTime`].
pub open spec fn time_text(t: LocalTime, format: Seq<char>) -> Option<Seq<char>> {
    formatted_time(
        t.year as int,
        t.month as nat,
        t.day as nat,
        t.hour as nat,
        t.minute as nat,
        t.second as nat,
        t.nanosecond as nat,
        t.offset_seconds as int,
        format,
    )
}

/// Builds the time with `chrono::FixedOffset::east_opt`, `NaiveDate::from_ymd_opt`,
/// `and_hms_nano_opt` and `TimeZone::from_local_datetime(..).single()`, and writes it
/// with `DateTime::format`. The result is [`formatted_time`] of the fields and the
/// format; `None` when a step gives none or the format fails to write.
#[verifier::external_body]
fn format_time(t: &LocalTime, format: &str) -> (r: Option<String>)
    ensures
        r matches Some(s) ==> formatted_time(
            t.year as int,
            t.month as nat,
            t.day as nat,
            t.hour as nat,
            t.minute as nat,
            t.second as nat,
            t.nanosecond as nat,
            t.offset_seconds as int,
            format@,
        ) == Some(s@),
        r is None ==> formatted_time(
            t.year as int,
            t.month as nat,
            t.day as nat,
            t.hour as nat,
            t.minute as nat,
            t.second as nat,
            t.nanosecond as nat,
            t.offset_seconds as int,
            format@,
        ) is None,
{
    let offset = chrono::FixedOffset::east_opt(t.offset_seconds)?;
    let date = chrono::NaiveDate::from_ymd_opt(t.year, t.month, t.day)?;
    let naive = date.and_hms_nano_opt(t.hour, t.minute, t.second, t.nanosecond)?;
    let moment = offset.from_local_datetime(&naive).single()?;
    let mut out = String::new();
    match write!(out, "{}", moment.format(format)) {
        Ok(()) => Some(out),
        Err(_) => None,
    }
}

/// The configured format of the time stamp: the `date_format` setting, or
/// [`DEFAULT_DATE_FORMAT`].
pub open spec fn date_format_of(extra: Seq<(Seq<char>, Seq<char>)>) -> Seq<char> {
    match lookup(extra, "date_format"@) {
        Some(f) => f,
        None => DEFAULT_DATE_FORMAT@,
    }
}

/// The configured format of the time stamp (see [`date_format_of`]).
pub fn date_format(extra: &Extra) -> (r: String)
    ensures
        r@ == date_format_of(extra@),
{
    match extra.get("date_format") {
        Some(f) => f.clone(),
        None => from_chars(&to_chars(DEFAULT_DATE_FORMAT)),
    }
}

/// Whether the time stamp is the file's modification time (the `timestamp_source`
/// setting is `modified`) rather than the present time.
pub fn uses_modified_time(extra: &Extra) -> (r: bool)
    ensures
        r == (lookup(extra@, "timestamp_source"@) == Some("modified"@)),
{
    match extra.get("timestamp_source") {
        Some(v) => chars_eq(&to_chars(v.as_str()), &to_chars("modified")),
        None => false,
    }
}

/// The name of the directory inside the archive directory that a file archived at
/// `time` goes to: the time written with the configured format (see
/// [`date_format_of`]); `None` when the format cannot be written.
pub fn archive_folder_name(time: &LocalTime, extra: &Extra) -> (r: Option<String>)
    ensures
        match r {
            Some(s) => time_text(*time, date_format_of(extra@)) == Some(s@),
            None => time_text(*time, date_format_of(extra@)) is None,
        },
{
    let format = date_format(extra);
    format_time(time, format.as_str())
}

} // verus!
