//! Points in time, as plain values. Reading and writing their texts is left
//! to the `time` crate.

use vstd::prelude::*;

use crate::text;

verus! {

/// A time stamp: what the clock of its own offset showed, and that offset.
#[derive(Debug, Clone, Copy, PartialEq, Eq, Structural)]
pub struct Stamp {
    /// Nanoseconds from 1970-01-01 00:00:00 to the local date and time.
    pub local: i128,
    /// Seconds east of UTC.
    pub offset: i32,
}

impl Stamp {
    /// Nanoseconds since the Unix epoch.
    pub open spec fn unix_nanos(self) -> int {
        self.local - self.offset * 1_000_000_000
    }
}

/// The whole part of `a / b`, rounded towards zero.
pub open spec fn truncated(a: int, b: int) -> int {
    if a >= 0 {
        a / b
    } else {
        -((-a) / b)
    }
}

impl Stamp {
    /// Microseconds since the Unix epoch, as the database stores a time;
    /// nothing where 64 bits do not hold them.
    pub fn unix_micros(&self) -> (r: Option<i64>)
        ensures
            match r {
                Some(us) => us == truncated(self.unix_nanos(), 1000),
                None => !(i64::MIN <= truncated(self.unix_nanos(), 1000) <= i64::MAX),
            },
    {
        let shift: i128 = self.offset as i128 * 1_000_000_000;
        let limit: i128 = 0x4000_0000_0000_0000_0000_0000;
        if self.local > limit || self.local < -limit {
            return None;
        }
        let nanos: i128 = self.local - shift;
        let micros: i128 = if nanos >= 0 {
            nanos / 1000
        } else {
            -((-nanos) / 1000)
        };
        if micros > i64::MAX as i128 || micros < i64::MIN as i128 {
            None
        } else {
            Some(micros as i64)
        }
    }
}

// ------------------------------------------------------------ Unix times

/// First and last second of the years the `time` crate covers, -9999 to 9999.
pub open spec fn in_calendar(unix_nanos: int) -> bool {
    -377_705_116_800 * 1_000_000_000 <= unix_nanos < 253_402_300_800 * 1_000_000_000
}

/// Calls `time::OffsetDateTime::from_unix_timestamp_nanos`: a time in UTC, for
/// the years -9999 to 9999 only.
#[verifier::external_body]
pub(crate) fn from_unix_nanos(nanos: i128) -> (r: Option<Stamp>)
    ensures
        r == (if in_calendar(nanos as int) {
            Some(Stamp { local: nanos, offset: 0 })
        } else {
            None
        }),
{
    let at = time::OffsetDateTime::from_unix_timestamp_nanos(nanos).ok()?;
    Some(Stamp { local: at.unix_timestamp_nanos(), offset: at.offset().whole_seconds() })
}

// -------------------------------------------------------------- RFC 3339

/// The time an RFC 3339 text names.
pub uninterp spec fn rfc3339_time(text: Seq<char>) -> Option<Stamp>;

/// The RFC 3339 text of a time.
pub uninterp spec fn rfc3339_text(at: Stamp) -> Option<Seq<char>>;

/// Calls `time::OffsetDateTime::parse` with `Rfc3339`. The outcome is fixed by
/// the text.
#[verifier::external_body]
pub(crate) fn parse_rfc3339(text: &str) -> (r: Option<Stamp>)
    ensures
        r == rfc3339_time(text@),
{
    let format = time::format_description::well_known::Rfc3339;
    let at = time::OffsetDateTime::parse(text, &format).ok()?;
    let local = at.replace_offset(time::UtcOffset::UTC).unix_timestamp_nanos();
    Some(Stamp { local, offset: at.offset().whole_seconds() })
}

/// Calls `time::OffsetDateTime::format` with `Rfc3339`. The text, or that
/// there is none, is fixed by the time.
#[verifier::external_body]
fn format_rfc3339(at: Stamp) -> (r: Option<String>)
    ensures
        text::opt(r) == rfc3339_text(at),
{
    let format = time::format_description::well_known::Rfc3339;
    let offset = time::UtcOffset::from_whole_seconds(at.offset).ok()?;
    let local = time::OffsetDateTime::from_unix_timestamp_nanos(at.local).ok()?;
    local.replace_offset(offset).format(&format).ok()
}

/// The RFC 3339 text of a time, empty where it has none.
pub open spec fn shown(at: Stamp) -> Seq<char> {
    match rfc3339_text(at) {
        Some(t) => t,
        None => Seq::empty(),
    }
}

/// The RFC 3339 text of a time, empty where it has none.
pub fn rfc3339(at: Stamp) -> (out: String)
    ensures
        out@ == shown(at),
{
    match format_rfc3339(at) {
        Some(t) => t,
        None => String::new(),
    }
}

// ------------------------------------------------------ described formats

/// The time that a text names under a format description.
pub uninterp spec fn described_time(text: Seq<char>, format: Seq<char>) -> Option<Stamp>;

/// Calls `time::OffsetDateTime::parse` with a description that
/// `time::format_description::parse_borrowed` reads. The outcome is fixed by the text
/// and the description.
#[verifier::external_body]
pub(crate) fn parse_described(text: &str, format: &str) -> (r: Option<Stamp>)
    ensures
        r == described_time(text@, format@),
{
    let format = time::format_description::parse_borrowed::<1>(format).ok()?;
    let at = time::OffsetDateTime::parse(text, &format).ok()?;
    let local = at.replace_offset(time::UtcOffset::UTC).unix_timestamp_nanos();
    Some(Stamp { local, offset: at.offset().whole_seconds() })
}

/// The calendar day that a text names, in seconds from 1970-01-01 00:00:00.
pub uninterp spec fn day_seconds(text: Seq<char>, format: Seq<char>) -> Option<i64>;

/// The date and time of day that a text names, in seconds from
/// 1970-01-01 00:00:00.
pub uninterp spec fn civil_seconds(text: Seq<char>, format: Seq<char>) -> Option<i64>;

/// The text of a date and time of day.
pub uninterp spec fn civil_text(seconds: i64, format: Seq<char>) -> Option<Seq<char>>;

/// Calls `time::Date::parse`. The outcome is fixed by both texts.
#[verifier::external_body]
pub(crate) fn parse_day(text: &str, format: &str) -> (r: Option<i64>)
    ensures
        r == day_seconds(text@, format@),
{
    let format = time::format_description::parse_borrowed::<1>(format).ok()?;
    let day = time::Date::parse(text, &format).ok()?;
    Some(day.midnight().assume_utc().unix_timestamp())
}

/// Calls `time::PrimitiveDateTime::parse`. The outcome is fixed by both texts.
#[verifier::external_body]
pub(crate) fn parse_civil(text: &str, format: &str) -> (r: Option<i64>)
    ensures
        r == civil_seconds(text@, format@),
{
    let format = time::format_description::parse_borrowed::<1>(format).ok()?;
    let at = time::PrimitiveDateTime::parse(text, &format).ok()?;
    Some(at.assume_utc().unix_timestamp())
}

/// Calls `time::OffsetDateTime::format` on a date and time of day. The text,
/// or that there is none, is fixed by both arguments.
#[verifier::external_body]
pub(crate) fn format_civil(seconds: i64, format: &str) -> (r: Option<String>)
    ensures
        text::opt(r) == civil_text(seconds, format@),
{
    let format = time::format_description::parse_borrowed::<1>(format).ok()?;
    let at = time::OffsetDateTime::from_unix_timestamp(seconds).ok()?;
    at.format(&format).ok()
}

} // verus!
