//! A point in time with a UTC offset, held both as plain numbers (which the
//! contracts speak of) and as a `time::OffsetDateTime` (which gives the
//! calendar fields).

use vstd::prelude::*;
use time::error::ComponentRange;
use time::OffsetDateTime;
use time::UtcOffset;

verus! {

#[verifier::external_type_specification]
#[verifier::external_body]
pub struct ExOffsetDateTime(OffsetDateTime);

#[verifier::external_type_specification]
#[verifier::external_body]
pub struct ExUtcOffset(UtcOffset);

#[verifier::external_type_specification]
#[verifier::external_body]
pub struct ExComponentRange(ComponentRange);

/// The earliest Unix timestamp that `time` represents: -9999-01-01 00:00:00 UTC.
pub const MIN_UNIX_TIMESTAMP: i64 = -377_705_116_800;

/// The latest Unix timestamp that `time` represents: 9999-12-31 23:59:59 UTC.
pub const MAX_UNIX_TIMESTAMP: i64 = 253_402_300_799;

/// The largest magnitude, in seconds, that `time` accepts for a UTC offset
/// (25 hours, 59 minutes and 59 seconds).
pub const MAX_TIME_OFFSET: i32 = 93_599;

pub open spec fn in_calendar_range(t: int) -> bool {
    MIN_UNIX_TIMESTAMP <= t <= MAX_UNIX_TIMESTAMP
}

/// Relies on `time::UtcOffset::from_whole_seconds`: `Ok` exactly for offsets
/// within 25:59:59 either way.
#[verifier::external_body]
fn utc_offset_from_seconds(seconds: i32) -> (r: Result<UtcOffset, ComponentRange>)
    ensures
        r.is_ok() <==> -MAX_TIME_OFFSET <= seconds <= MAX_TIME_OFFSET,
{
    UtcOffset::from_whole_seconds(seconds)
}

/// Relies on `time::OffsetDateTime::from_unix_timestamp`: `Ok` exactly for
/// timestamps from year -9999 to year 9999.
#[verifier::external_body]
fn utc_from_unix_timestamp(timestamp: i64) -> (r: Result<OffsetDateTime, ComponentRange>)
    ensures
        r.is_ok() <==> in_calendar_range(timestamp as int),
{
    OffsetDateTime::from_unix_timestamp(timestamp)
}

/// Relies on `time::OffsetDateTime::checked_to_offset`: `Some` exactly when
/// the wall-clock time in the new offset still falls within years -9999 to
/// 9999, that is when the timestamp shifted by the offset is in range. The
/// instant is `utc.unix_timestamp`, which `UtcTime::from_unix_timestamp`
/// built `utc.date_time` from.
#[verifier::external_body]
fn checked_to_offset(utc: &UtcTime, offset: &Offset) -> (r: Option<OffsetDateTime>)
    ensures
        r.is_some() <==> in_calendar_range(utc.unix_timestamp + offset.seconds),
{
    utc.date_time.checked_to_offset(offset.offset)
}

/// A UTC offset in whole seconds, within what `time` represents.
pub struct Offset {
    offset: UtcOffset,
    seconds: i32,
}

impl Offset {
    #[verifier::type_invariant]
    spec fn inv(&self) -> bool {
        -MAX_TIME_OFFSET <= self.seconds <= MAX_TIME_OFFSET
    }

    pub closed spec fn seconds_spec(&self) -> int {
        self.seconds as int
    }

    /// The offset of `seconds` east of UTC; `None` beyond 25:59:59 either way.
    pub fn from_whole_seconds(seconds: i32) -> (r: Option<Offset>)
        ensures
            r.is_some() <==> -MAX_TIME_OFFSET <= seconds <= MAX_TIME_OFFSET,
            r matches Some(o) ==> o.seconds_spec() == seconds,
    {
        match utc_offset_from_seconds(seconds) {
            Ok(offset) => Some(Offset { offset, seconds }),
            Err(_) => None,
        }
    }

    pub fn whole_seconds(&self) -> (r: i32)
        ensures
            r == self.seconds_spec(),
            -MAX_TIME_OFFSET <= r <= MAX_TIME_OFFSET,
    {
        proof {
            use_type_invariant(self);
        }
        self.seconds
    }
}

/// An instant in UTC.
pub struct UtcTime {
    date_time: OffsetDateTime,
    unix_timestamp: i64,
}

impl UtcTime {
    #[verifier::type_invariant]
    spec fn inv(&self) -> bool {
        in_calendar_range(self.unix_timestamp as int)
    }

    pub closed spec fn unix_timestamp_spec(&self) -> int {
        self.unix_timestamp as int
    }

    /// The instant `timestamp` seconds after the Unix epoch; `None` outside
    /// years -9999 to 9999.
    pub fn from_unix_timestamp(timestamp: i64) -> (r: Option<UtcTime>)
        ensures
            r.is_some() <==> in_calendar_range(timestamp as int),
            r matches Some(u) ==> u.unix_timestamp_spec() == timestamp,
    {
        match utc_from_unix_timestamp(timestamp) {
            Ok(date_time) => Some(UtcTime { date_time, unix_timestamp: timestamp }),
            Err(_) => None,
        }
    }

    /// This instant seen in `offset`; `None` where the local calendar time
    /// leaves years -9999 to 9999.
    pub fn to_offset(&self, offset: &Offset) -> (r: Option<LocalTime>)
        ensures
            r.is_some() <==> in_calendar_range(self.unix_timestamp_spec() + offset.seconds_spec()),
            r matches Some(l) ==> l.unix_timestamp_spec() == self.unix_timestamp_spec()
                && l.offset_seconds_spec() == offset.seconds_spec(),
    {
        proof {
            use_type_invariant(self);
            use_type_invariant(offset);
        }
        match checked_to_offset(self, offset) {
            Some(date_time) => Some(
                LocalTime {
                    date_time,
                    unix_timestamp: self.unix_timestamp,
                    offset_seconds: offset.seconds,
                },
            ),
            None => None,
        }
    }
}

/// An instant together with the UTC offset it is seen in.
pub struct LocalTime {
    date_time: OffsetDateTime,
    unix_timestamp: i64,
    offset_seconds: i32,
}

impl LocalTime {
    #[verifier::type_invariant]
    spec fn inv(&self) -> bool {
        &&& in_calendar_range(self.unix_timestamp as int)
        &&& in_calendar_range(self.unix_timestamp + self.offset_seconds)
        &&& -MAX_TIME_OFFSET <= self.offset_seconds <= MAX_TIME_OFFSET
    }

    /// Seconds since the Unix epoch, in UTC.
    pub closed spec fn unix_timestamp_spec(&self) -> int {
        self.unix_timestamp as int
    }

    /// The offset from UTC, in seconds east.
    pub closed spec fn offset_seconds_spec(&self) -> int {
        self.offset_seconds as int
    }

    /// The wall-clock reading in the offset, as seconds counted like a Unix
    /// timestamp.
    pub open spec fn local_seconds_spec(&self) -> int {
        self.unix_timestamp_spec() + self.offset_seconds_spec()
    }

    pub fn unix_timestamp(&self) -> (r: i64)
        ensures
            r == self.unix_timestamp_spec(),
            in_calendar_range(r as int),
            in_calendar_range(self.local_seconds_spec()),
    {
        proof {
            use_type_invariant(self);
        }
        self.unix_timestamp
    }

    pub fn offset_seconds(&self) -> (r: i32)
        ensures
            r == self.offset_seconds_spec(),
            -MAX_TIME_OFFSET <= r <= MAX_TIME_OFFSET,
    {
        proof {
            use_type_invariant(self);
        }
        self.offset_seconds
    }

    /// The wall-clock reading in the offset, as seconds counted like a Unix
    /// timestamp: the instant shifted by the offset.
    pub fn local_seconds(&self) -> (r: i64)
        ensures
            r == self.local_seconds_spec(),
            in_calendar_range(r as int),
    {
        proof {
            use_type_invariant(self);
        }
        self.unix_timestamp + self.offset_seconds as i64
    }

    /// The calendar date and time, for reading its fields.
    pub fn date_time(&self) -> OffsetDateTime {
        self.date_time
    }
}

} // verus!
