use timesync_https::timestamp::Offset;
use timesync_https::timestamp::UtcTime;
use timesync_https::timestamp::MAX_UNIX_TIMESTAMP;
use timesync_https::timestamp::MIN_UNIX_TIMESTAMP;
use timesync_https::worldtimeapi::parse_current_time;

#[test]
fn offsets_within_time_range() {
    assert_eq!(Offset::from_whole_seconds(93_599).unwrap().whole_seconds(), 93_599);
    assert_eq!(Offset::from_whole_seconds(-93_599).unwrap().whole_seconds(), -93_599);
    assert!(Offset::from_whole_seconds(93_600).is_none());
    assert!(Offset::from_whole_seconds(-93_600).is_none());
}

#[test]
fn unix_timestamps_within_calendar() {
    assert!(UtcTime::from_unix_timestamp(MIN_UNIX_TIMESTAMP).is_some());
    assert!(UtcTime::from_unix_timestamp(MAX_UNIX_TIMESTAMP).is_some());
    assert!(UtcTime::from_unix_timestamp(MIN_UNIX_TIMESTAMP - 1).is_none());
    assert!(UtcTime::from_unix_timestamp(MAX_UNIX_TIMESTAMP + 1).is_none());
}

#[test]
fn instant_seen_in_offset() {
    let utc = UtcTime::from_unix_timestamp(0).unwrap();
    let offset = Offset::from_whole_seconds(-3_600).unwrap();
    let local = utc.to_offset(&offset).unwrap();
    assert_eq!(local.unix_timestamp(), 0);
    assert_eq!(local.offset_seconds(), -3_600);
    assert_eq!(local.local_seconds(), -3_600);
    assert_eq!(local.date_time().year(), 1969);
    assert_eq!(local.date_time().hour(), 23);
}

#[test]
fn shift_below_calendar_fails() {
    let utc = UtcTime::from_unix_timestamp(MIN_UNIX_TIMESTAMP).unwrap();
    let offset = Offset::from_whole_seconds(-1).unwrap();
    assert!(utc.to_offset(&offset).is_none());
    let zero = Offset::from_whole_seconds(0).unwrap();
    assert!(utc.to_offset(&zero).is_some());
}

#[test]
fn local_time_is_instant_shifted_by_offset() {
    let t = parse_current_time(b"unixtime: 1700000000\nraw_offset: -10800\n").unwrap();
    assert_eq!(t.local_seconds(), 1_700_000_000 - 10_800);
}
