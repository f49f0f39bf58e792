use timesync_https::http::Error as HttpError;
use timesync_https::http::response_from_body;
use timesync_https::worldtimeapi::current_time_from_response;
use timesync_https::worldtimeapi::parse_current_time;
use timesync_https::worldtimeapi::read_fields;
use timesync_https::worldtimeapi::Error;

#[test]
fn sao_paulo_body_gives_local_time() {
    let body = b"unixtime: 1700000000\nraw_offset: -10800\n";
    let t = parse_current_time(body).unwrap();
    assert_eq!(t.unix_timestamp(), 1_700_000_000);
    assert_eq!(t.offset_seconds(), -10_800);
    let dt = t.date_time();
    assert_eq!(dt.unix_timestamp(), 1_700_000_000);
    assert_eq!(dt.offset().whole_seconds(), -10_800);
    assert_eq!(dt.year(), 2023);
    assert_eq!(dt.day(), 14);
    assert_eq!(dt.hour(), 19);
    assert_eq!(dt.minute(), 13);
    assert_eq!(dt.second(), 20);
}

#[test]
fn fields_in_either_order_among_other_lines() {
    let body = b"abbreviation: -03\nraw_offset: 3600\ndst: false\nunixtime: 86400\nweek_number: 1";
    let t = parse_current_time(body).unwrap();
    assert_eq!(t.unix_timestamp(), 86_400);
    assert_eq!(t.offset_seconds(), 3_600);
    assert_eq!(t.date_time().day(), 2);
    assert_eq!(t.date_time().hour(), 1);
}

#[test]
fn crlf_line_endings_are_read() {
    let body = b"unixtime: 10\r\nraw_offset: -60\r\n";
    let t = parse_current_time(body).unwrap();
    assert_eq!(t.unix_timestamp(), 10);
    assert_eq!(t.offset_seconds(), -60);
}

#[test]
fn missing_offset_is_unknown() {
    assert_eq!(parse_current_time(b"unixtime: 1700000000\n").err(), Some(Error::Unknown));
}

#[test]
fn missing_timestamp_is_unknown() {
    assert_eq!(parse_current_time(b"raw_offset: 0\n").err(), Some(Error::Unknown));
    assert_eq!(parse_current_time(b"").err(), Some(Error::Unknown));
}

#[test]
fn non_numeric_timestamp_is_parse_error() {
    let body = b"unixtime: soon\nraw_offset: 0\n";
    assert_eq!(parse_current_time(body).err(), Some(Error::ParseInt));
    assert_eq!(parse_current_time(b"unixtime: \nraw_offset: 0\n").err(), Some(Error::ParseInt));
    assert_eq!(parse_current_time(b"unixtime: -5\nraw_offset: 0\n").err(), Some(Error::ParseInt));
}

#[test]
fn non_numeric_offset_is_parse_error() {
    assert_eq!(parse_current_time(b"raw_offset: -\nunixtime: 0\n").err(), Some(Error::ParseInt));
    assert_eq!(parse_current_time(b"raw_offset: 2147483648\nunixtime: 0\n").err(), Some(Error::ParseInt));
}

#[test]
fn timestamp_overflowing_u64_is_parse_error() {
    let body = b"unixtime: 18446744073709551616\nraw_offset: 0\n";
    assert_eq!(parse_current_time(body).err(), Some(Error::ParseInt));
}

#[test]
fn plus_sign_is_accepted() {
    let t = parse_current_time(b"unixtime: +100\nraw_offset: +7200\n").unwrap();
    assert_eq!(t.unix_timestamp(), 100);
    assert_eq!(t.offset_seconds(), 7_200);
}

#[test]
fn offset_beyond_a_day_is_range_error() {
    assert_eq!(
        parse_current_time(b"unixtime: 0\nraw_offset: 86401\n").err(),
        Some(Error::TimeComponentRange)
    );
    assert_eq!(
        parse_current_time(b"unixtime: 0\nraw_offset: -90000\n").err(),
        Some(Error::TimeComponentRange)
    );
    let t = parse_current_time(b"unixtime: 0\nraw_offset: -86400\n").unwrap();
    assert_eq!(t.offset_seconds(), -86_400);
}

#[test]
fn last_timestamp_line_wins() {
    let body = b"unixtime: 100\nraw_offset: 0\nunixtime: 200\n";
    let t = parse_current_time(body).unwrap();
    assert_eq!(t.unix_timestamp(), 200);
    assert_eq!(read_fields(body), Ok((Some(200), Some(0))));
}

#[test]
fn timestamp_past_calendar_is_range_error() {
    let body = b"unixtime: 253402300800\nraw_offset: 0\n";
    assert_eq!(parse_current_time(body).err(), Some(Error::TimeComponentRange));
}

#[test]
fn shift_past_calendar_is_invalid_in_offset() {
    let body = b"unixtime: 253402300799\nraw_offset: 3600\n";
    assert_eq!(parse_current_time(body).err(), Some(Error::InvalidInOffset));
    let t = parse_current_time(b"unixtime: 253402300799\nraw_offset: -3600\n").unwrap();
    assert_eq!(t.date_time().year(), 9999);
}

#[test]
fn timestamp_past_i64_wraps() {
    let t = parse_current_time(b"unixtime: 18446744073709551615\nraw_offset: 0\n").unwrap();
    assert_eq!(t.unix_timestamp(), -1);
    assert_eq!(t.date_time().year(), 1969);
}

#[test]
fn invalid_utf8_is_utf8_error() {
    let body: &[u8] = &[0xff, 0xfe, b'\n'];
    assert_eq!(parse_current_time(body).err(), Some(Error::Utf8));
}

#[test]
fn http_error_is_passed_on() {
    let r = current_time_from_response(Err(HttpError::Dns));
    assert_eq!(r.err(), Some(Error::Http(HttpError::Dns)));
    assert_eq!(Error::from(HttpError::Time), Error::Http(HttpError::Time));
}

#[test]
fn response_is_parsed() {
    let v = response_from_body(b"raw_offset: -10800\nunixtime: 1700000000\n").unwrap();
    let t = current_time_from_response(Ok(v)).unwrap();
    assert_eq!(t.unix_timestamp(), 1_700_000_000);
    assert_eq!(t.date_time().hour(), 19);
}
