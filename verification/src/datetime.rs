//! Points in time as plain values.

use vstd::prelude::*;

verus! {

/// A point in time with the UTC offset it was written in: whole seconds since the Unix
/// epoch, the nanoseconds within that second, and the offset in seconds east of UTC.
#[derive(Debug, Clone, Copy, PartialEq, Eq, Structural)]
pub struct DateTime {
    pub unix_seconds: i64,
    pub nanosecond: u32,
    pub offset_seconds: i32,
}

/// Whether `a` lies strictly after `b`; the offsets, which only say how a time was
/// written, do not count.
pub open spec fn later_than(a: DateTime, b: DateTime) -> bool {
    a.unix_seconds > b.unix_seconds || (a.unix_seconds == b.unix_seconds && a.nanosecond
        > b.nanosecond)
}

impl DateTime {
    /// A time at a whole second, written in UTC.
    pub fn from_unix_seconds(unix_seconds: i64) -> (r: DateTime)
        ensures
            r.unix_seconds == unix_seconds,
            r.nanosecond == 0,
            r.offset_seconds == 0,
    {
        DateTime { unix_seconds, nanosecond: 0, offset_seconds: 0 }
    }

    /// Whether this time lies strictly after `other`.
    pub fn is_later_than(&self, other: &DateTime) -> (r: bool)
        ensures
            r == later_than(*self, *other),
    {
        self.unix_seconds > other.unix_seconds || (self.unix_seconds == other.unix_seconds
            && self.nanosecond > other.nanosecond)
    }
}

/// Whether `time` can hold a Unix timestamp: -9999-01-01 to 9999-12-31 23:59:59 UTC
/// (its range without the `large-dates` feature, which nothing here enables).
pub open spec fn representable_timestamp(t: int) -> bool {
    crate::share_state::v1::valid_timestamp(t)
}

#[verifier::external_type_specification]
#[verifier::external_body]
pub struct ExUtcDateTime(time::UtcDateTime);

/// Calls `time::UtcDateTime::from_unix_timestamp`, which succeeds exactly for the
/// timestamps in its range.
#[verifier::external_body]
pub(crate) fn utc_from_unix_timestamp(timestamp: i64) -> (r: Result<
    time::UtcDateTime,
    time::error::ComponentRange,
>)
    ensures
        r is Ok <==> representable_timestamp(timestamp as int),
{
    time::UtcDateTime::from_unix_timestamp(timestamp)
}

/// Whether `time` writes an RFC 3339 text for the instant `unix_seconds` +
/// `nanosecond` ns at the UTC offset of `offset_seconds` seconds: the nanoseconds lie
/// within a second, `time` holds the timestamp, the offset is a whole number of minutes
/// under a day either way, and the local time falls in the years `0..=9999`
/// (`-62167219200` is 0000-01-01T00:00:00, `253402300799` is 9999-12-31T23:59:59).
pub open spec fn rfc3339_formattable(unix_seconds: i64, nanosecond: u32, offset_seconds: i32) -> bool {
    &&& nanosecond < 1_000_000_000
    &&& representable_timestamp(unix_seconds as int)
    &&& -86400 < offset_seconds < 86400
    &&& offset_seconds % 60 == 0
    &&& -62167219200 <= unix_seconds + offset_seconds <= 253402300799
}

/// A name for the text that `time`'s `OffsetDateTime::format` with the `Rfc3339`
/// description writes for the instant `unix_seconds` + `nanosecond` ns, shown at the UTC
/// offset of `offset_seconds` seconds.
pub uninterp spec fn rfc3339_text(unix_seconds: i64, nanosecond: u32, offset_seconds: i32) -> Seq<char>;

/// Writes `dt` in RFC 3339 form, through the `time` crate: the value is rebuilt with
/// `UtcOffset::from_whole_seconds` (up to 25:59:59 either way),
/// `OffsetDateTime::from_unix_timestamp`, `replace_nanosecond` (below one second) and
/// `checked_to_offset` (local years within -9999..=9999), then formatted with
/// `OffsetDateTime::format(&Rfc3339)`, which refuses a local year outside `0..=9999`, an
/// offset of 24 hours or more and an offset with seconds. So it succeeds exactly when
/// [`rfc3339_formattable`] holds; its text is named by [`rfc3339_text`].
#[verifier::external_body]
pub(crate) fn format_rfc3339(dt: &DateTime) -> (r: Option<String>)
    ensures
        r is Some <==> rfc3339_formattable(dt.unix_seconds, dt.nanosecond, dt.offset_seconds),
        r matches Some(s) ==> s@ == rfc3339_text(dt.unix_seconds, dt.nanosecond, dt.offset_seconds),
{
    let offset = time::UtcOffset::from_whole_seconds(dt.offset_seconds).ok()?;
    let utc = time::OffsetDateTime::from_unix_timestamp(dt.unix_seconds).ok()?;
    let exact = utc.replace_nanosecond(dt.nanosecond).ok()?;
    exact.checked_to_offset(offset)?.format(&time::format_description::well_known::Rfc3339).ok()
}

} // verus!
