//! Client logic for the World Time API's plain-text format: one `key: value`
//! entry per line, of which `unixtime` and `raw_offset` are read.

use vstd::prelude::*;
use crate::http;
use crate::http::response_body;
use crate::http::response_bytes;
use crate::http::Response;
use crate::parse::parse_i32;
use crate::parse::parse_i32_spec;
use crate::parse::parse_u64;
use crate::parse::parse_u64_spec;
use crate::timestamp::in_calendar_range;
use crate::timestamp::LocalTime;
use crate::timestamp::Offset;
use crate::timestamp::UtcTime;

verus! {

/// The largest magnitude, in seconds, of an offset that the service may
/// report: one day.
pub const MAX_OFFSET_SECONDS: i32 = 86_400;

pub const NEWLINE: u8 = 10;

pub const CARRIAGE_RETURN: u8 = 13;

/// Whether `b` is valid UTF-8, as `core::str::from_utf8` decides it.
pub uninterp spec fn utf8_valid(b: Seq<u8>) -> bool;

/// Relies on `core::str::from_utf8`: `Ok` exactly for valid UTF-8, which
/// every ASCII sequence is.
#[verifier::external_body]
fn is_utf8(b: &[u8]) -> (r: bool)
    ensures
        r == utf8_valid(b@),
        (forall|i: int| 0 <= i < b@.len() ==> b@[i] < 128) ==> r,
{
    core::str::from_utf8(b).is_ok()
}

/// An error within a request to the World Time API.
#[derive(Clone, Copy, Debug, PartialEq, Eq, Structural)]
pub enum Error {
    /// The timestamp is not representable in the reported offset.
    InvalidInOffset,
    /// The response lacks the timestamp or the offset.
    Unknown,
    /// The offset or the timestamp is out of range.
    TimeComponentRange,
    /// The HTTP request failed.
    Http(http::Error),
    /// A value that the server returned is not an integer of its type.
    ParseInt,
    /// The response is not valid UTF-8.
    Utf8,
}

impl From<http::Error> for Error {
    fn from(error: http::Error) -> (r: Error)
        ensures
            r == Error::Http(error),
    {
        Error::Http(error)
    }
}

impl vstd::std_specs::convert::FromSpecImpl<http::Error> for Error {
    open spec fn obeys_from_spec() -> bool {
        true
    }

    open spec fn from_spec(error: http::Error) -> Error {
        Error::Http(error)
    }
}

/// `unixtime: `
pub open spec fn unixtime_key() -> Seq<u8> {
    seq![117u8, 110, 105, 120, 116, 105, 109, 101, 58, 32]
}

/// `raw_offset: `
pub open spec fn raw_offset_key() -> Seq<u8> {
    seq![114u8, 97, 119, 95, 111, 102, 102, 115, 101, 116, 58, 32]
}

pub open spec fn has_prefix(line: Seq<u8>, key: Seq<u8>) -> bool {
    key.len() <= line.len() && line.subrange(0, key.len() as int) == key
}

/// The fields read so far: the timestamp and the offset, each if seen.
pub type Fields = (Option<u64>, Option<i32>);

/// The fields after reading one line: a keyed line sets its field, replacing
/// what an earlier line set; other lines change nothing.
pub open spec fn apply_line(line: Seq<u8>, fields: Fields) -> Result<Fields, Error> {
    if has_prefix(line, unixtime_key()) {
        match parse_u64_spec(line.subrange(unixtime_key().len() as int, line.len() as int)) {
            Some(t) => Ok((Some(t), fields.1)),
            None => Err(Error::ParseInt),
        }
    } else if has_prefix(line, raw_offset_key()) {
        match parse_i32_spec(line.subrange(raw_offset_key().len() as int, line.len() as int)) {
            Some(o) => Ok((fields.0, Some(o))),
            None => Err(Error::ParseInt),
        }
    } else {
        Ok(fields)
    }
}

/// The line `b[start..end]`; one ended by a newline loses a trailing carriage
/// return, as `str::lines` has it.
pub open spec fn line_text(b: Seq<u8>, start: int, end: int) -> Seq<u8> {
    let l = b.subrange(start, end);
    if end < b.len() && l.len() > 0 && l.last() == CARRIAGE_RETURN {
        l.drop_last()
    } else {
        l
    }
}

/// Reads `b` from index `i` on, in a line that started at `start`, with
/// `fields` read before. The first malformed value ends the scan.
pub open spec fn scan(b: Seq<u8>, i: int, start: int, fields: Fields) -> Result<Fields, Error>
    decreases b.len() - i,
{
    if i >= b.len() {
        if start < b.len() {
            apply_line(line_text(b, start, b.len() as int), fields)
        } else {
            Ok(fields)
        }
    } else if b[i] == NEWLINE {
        match apply_line(line_text(b, start, i), fields) {
            Ok(f) => scan(b, i + 1, i + 1, f),
            Err(e) => Err(e),
        }
    } else {
        scan(b, i + 1, start, fields)
    }
}

/// The fields of a whole body, read line by line.
pub open spec fn fields_of(b: Seq<u8>) -> Result<Fields, Error> {
    scan(b, 0, 0, (None, None))
}

/// The timestamp field as the signed value it is taken for: values past
/// `i64::MAX` wrap around.
pub open spec fn as_signed(t: u64) -> int {
    if t <= i64::MAX {
        t as int
    } else {
        t - 0x1_0000_0000_0000_0000
    }
}

/// The instant (Unix timestamp) and offset that a body gives, or why it
/// gives none.
pub open spec fn current_time_of(b: Seq<u8>) -> Result<(int, int), Error> {
    if !utf8_valid(b) {
        Err(Error::Utf8)
    } else {
        match fields_of(b) {
            Err(e) => Err(e),
            Ok((Some(t), Some(o))) => if !(-MAX_OFFSET_SECONDS <= o <= MAX_OFFSET_SECONDS) {
                Err(Error::TimeComponentRange)
            } else if !in_calendar_range(as_signed(t)) {
                Err(Error::TimeComponentRange)
            } else if !in_calendar_range(as_signed(t) + o) {
                Err(Error::InvalidInOffset)
            } else {
                Ok((as_signed(t), o as int))
            },
            Ok(_) => Err(Error::Unknown),
        }
    }
}

/// Whether `b[lo..hi]` starts with `key`.
fn starts_with(b: &[u8], lo: usize, hi: usize, key: &Vec<u8>) -> (r: bool)
    requires
        lo <= hi <= b@.len(),
    ensures
        r == has_prefix(b@.subrange(lo as int, hi as int), key@),
{
    let ghost line = b@.subrange(lo as int, hi as int);
    if key.len() > hi - lo {
        return false;
    }
    let mut j: usize = 0;
    while j < key.len()
        invariant
            lo <= hi <= b@.len(),
            key@.len() <= hi - lo,
            line == b@.subrange(lo as int, hi as int),
            j <= key@.len(),
            forall|k: int| 0 <= k < j ==> line[k] == key@[k],
        decreases key@.len() - j,
    {
        if b[lo + j] != key[j] {
            assert(line.subrange(0, key@.len() as int)[j as int] != key@[j as int]);
            return false;
        }
        j = j + 1;
    }
    assert(line.subrange(0, key@.len() as int) =~= key@);
    true
}

/// Reads the line `b[lo..hi]` into `fields`.
fn read_line(b: &[u8], lo: usize, hi: usize, fields: Fields) -> (r: Result<Fields, Error>)
    requires
        lo <= hi <= b@.len(),
    ensures
        r == apply_line(b@.subrange(lo as int, hi as int), fields),
{
    let ghost line = b@.subrange(lo as int, hi as int);
    let unixtime: Vec<u8> = vec![117u8, 110, 105, 120, 116, 105, 109, 101, 58, 32];
    let raw_offset: Vec<u8> = vec![114u8, 97, 119, 95, 111, 102, 102, 115, 101, 116, 58, 32];
    assert(unixtime@ =~= unixtime_key());
    assert(raw_offset@ =~= raw_offset_key());
    if starts_with(b, lo, hi, &unixtime) {
        assert(line.subrange(10, line.len() as int) =~= b@.subrange(lo + 10, hi as int));
        match parse_u64(b, lo + 10, hi) {
            Some(t) => Ok((Some(t), fields.1)),
            None => Err(Error::ParseInt),
        }
    } else if starts_with(b, lo, hi, &raw_offset) {
        assert(line.subrange(12, line.len() as int) =~= b@.subrange(lo + 12, hi as int));
        match parse_i32(b, lo + 12, hi) {
            Some(o) => Ok((fields.0, Some(o))),
            None => Err(Error::ParseInt),
        }
    } else {
        Ok(fields)
    }
}

/// Reads the fields of a body line by line: a line that starts with
/// `unixtime: ` or `raw_offset: ` sets that field from the rest of the line,
/// the last such line winning; other lines are ignored.
pub fn read_fields(b: &[u8]) -> (r: Result<Fields, Error>)
    ensures
        r == fields_of(b@),
{
    let mut fields: Fields = (None, None);
    let mut start: usize = 0;
    let mut i: usize = 0;
    while i < b.len()
        invariant
            start <= i <= b@.len(),
            scan(b@, i as int, start as int, fields) == fields_of(b@),
        decreases b@.len() - i,
    {
        if b[i] == NEWLINE {
            let mut end: usize = i;
            if end > start && b[end - 1] == CARRIAGE_RETURN {
                end = end - 1;
            }
            assert(b@.subrange(start as int, end as int) =~= line_text(b@, start as int, i as int));
            match read_line(b, start, end, fields) {
                Ok(f) => {
                    fields = f;
                },
                Err(e) => {
                    return Err(e);
                },
            }
            start = i + 1;
        }
        i = i + 1;
    }
    if start < b.len() {
        assert(b@.subrange(start as int, b@.len() as int) =~= line_text(b@, start as int, b@.len() as int));
        read_line(b, start, b.len(), fields)
    } else {
        Ok(fields)
    }
}

/// The signed timestamp for the field's value; values past `i64::MAX` wrap.
fn to_signed(t: u64) -> (r: i64)
    ensures
        r == as_signed(t),
{
    if t <= 0x7fff_ffff_ffff_ffff {
        t as i64
    } else {
        let rest: i64 = (t - 0x8000_0000_0000_0000) as i64;
        rest + i64::MIN
    }
}

/// The local time that a response body gives: the body must be UTF-8 and
/// hold both fields, the offset must be within a day, and the instant must
/// be representable both in UTC and in the offset.
pub fn parse_current_time(body: &[u8]) -> (r: Result<LocalTime, Error>)
    ensures
        r.is_ok() <==> current_time_of(body@).is_ok(),
        r matches Err(e) ==> current_time_of(body@) == Err::<(int, int), Error>(e),
        r matches Ok(l) ==> current_time_of(body@) == Ok::<(int, int), Error>(
            (l.unix_timestamp_spec(), l.offset_seconds_spec()),
        ),
{
    if !is_utf8(body) {
        return Err(Error::Utf8);
    }
    match read_fields(body) {
        Err(e) => Err(e),
        Ok((Some(t), Some(o))) => {
            if o < -MAX_OFFSET_SECONDS || o > MAX_OFFSET_SECONDS {
                return Err(Error::TimeComponentRange);
            }
            let offset = match Offset::from_whole_seconds(o) {
                Some(offset) => offset,
                None => {
                    return Err(Error::TimeComponentRange);
                },
            };
            let utc = match UtcTime::from_unix_timestamp(to_signed(t)) {
                Some(utc) => utc,
                None => {
                    return Err(Error::TimeComponentRange);
                },
            };
            match utc.to_offset(&offset) {
                Some(local) => Ok(local),
                None => Err(Error::InvalidInOffset),
            }
        },
        Ok(_) => Err(Error::Unknown),
    }
}

/// The local time for the outcome of the request to the service: an HTTP
/// failure is passed on, a response is read as `parse_current_time` does.
pub fn current_time_from_response(response: Result<Response, http::Error>) -> (r: Result<
    LocalTime,
    Error,
>)
    ensures
        response matches Err(e) ==> r == Err::<LocalTime, Error>(Error::Http(e)),
        response matches Ok(v) ==> {
            &&& r.is_ok() <==> current_time_of(response_bytes(v)).is_ok()
            &&& r matches Err(e) ==> current_time_of(response_bytes(v)) == Err::<(int, int), Error>(e)
            &&& r matches Ok(l) ==> current_time_of(response_bytes(v)) == Ok::<(int, int), Error>(
                (l.unix_timestamp_spec(), l.offset_seconds_spec()),
            )
        },
{
    match response {
        Err(e) => Err(Error::from(e)),
        Ok(v) => parse_current_time(response_body(&v)),
    }
}

} // verus!
