use pathway_engine::error::Error;
use pathway_engine::time::{DateTimeNaive, DateTimeUtc, Duration, get_unit_multiplier};

#[test]
fn duration_unit_getters() {
    let d = Duration::new(-1500);
    assert_eq!(d.nanoseconds(), -1500);
    assert_eq!(d.microseconds(), -1);
    let d = Duration::new(90_000_000_000);
    assert_eq!(d.seconds(), 90);
    assert_eq!(d.minutes(), 1);
    assert_eq!(d.milliseconds(), 90_000);
    let d = Duration::new(2 * 604_800_000_000_000 + 1);
    assert_eq!(d.weeks(), 2);
    assert_eq!(d.days(), 14);
    let d = Duration::new(-3_600_000_000_001);
    assert_eq!(d.hours(), -1);
}

#[test]
fn duration_arithmetic() {
    let a = Duration::new(100);
    let b = Duration::new(40);
    assert_eq!(a.plus(b).nanoseconds(), 140);
    assert_eq!(a.minus(b).nanoseconds(), 60);
    assert_eq!(a.neg().nanoseconds(), -100);
    assert_eq!(a.times_i64(-3).nanoseconds(), -300);
}

#[test]
fn duration_floor_division_and_modulo() {
    // floor semantics: -1ns modulo 1000ns leaves 999ns
    let rem = Duration::new(-1).rem_duration(Duration::new(1000)).unwrap();
    assert_eq!(rem.nanoseconds(), 999);
    assert_eq!(Duration::new(-1).div_duration(Duration::new(1000)), Ok(-1));
    assert_eq!(Duration::new(7).div_duration(Duration::new(-2)), Ok(-4));
    let d = Duration::new(7).div_i64(-2).unwrap();
    assert_eq!(d.nanoseconds(), -4);
    // true division truncates toward zero instead
    let d = Duration::new(7).true_div_by_i64(-2).unwrap();
    assert_eq!(d.nanoseconds(), -3);
}

#[test]
fn duration_division_by_zero() {
    assert_eq!(
        Duration::new(5).div_duration(Duration::new(0)),
        Err(Error::DivisionByZero)
    );
    assert!(matches!(
        Duration::new(5).rem_duration(Duration::new(0)),
        Err(Error::DivisionByZero)
    ));
    assert!(matches!(
        Duration::new(5).div_i64(0),
        Err(Error::DivisionByZero)
    ));
    assert!(matches!(
        Duration::new(5).true_div_by_i64(0),
        Err(Error::DivisionByZero)
    ));
}

#[test]
fn duration_display() {
    assert_eq!(Duration::new(0).display_string(), "");
    assert_eq!(Duration::new(5).display_string(), "5ns");
    assert_eq!(
        Duration::new(86_400_000_000_000 + 90_000_000_000).display_string(),
        "1d 1m 30s"
    );
    assert_eq!(Duration::new(-90_000_000_000).display_string(), "-1m -30s");
    assert_eq!(
        Duration::new(3_600_000_000_000 + 1).display_string(),
        "1h 1ns"
    );
}

#[test]
fn datetime_round_and_truncate() {
    let hundred = Duration::new(100);
    assert_eq!(DateTimeNaive::new(150).round(hundred).timestamp(), 200);
    assert_eq!(DateTimeNaive::new(149).round(hundred).timestamp(), 100);
    assert_eq!(DateTimeNaive::new(-150).round(hundred).timestamp(), -100);
    assert_eq!(DateTimeNaive::new(-1).truncate(hundred).timestamp(), -100);
    assert_eq!(DateTimeNaive::new(199).truncate(hundred).timestamp(), 100);
    assert_eq!(DateTimeUtc::new(150).round(hundred).timestamp(), 200);
    assert_eq!(DateTimeUtc::new(-1).truncate(hundred).timestamp(), -100);
}

#[test]
fn datetime_shift_by_duration() {
    let t = DateTimeNaive::new(100);
    assert_eq!(t.plus_duration(Duration::new(50)).timestamp(), 150);
    assert_eq!(t.minus_duration(Duration::new(50)).timestamp(), 50);
    assert_eq!(t.minus(DateTimeNaive::new(30)).nanoseconds(), 70);
    let u = DateTimeUtc::new(100);
    assert_eq!(u.plus_duration(Duration::new(50)).timestamp(), 150);
    assert_eq!(u.minus(DateTimeUtc::new(130)).nanoseconds(), -30);
}

#[test]
fn strptime_datetime() {
    let dt = DateTimeNaive::strptime("2023-05-15 10:51:04", "%Y-%m-%d %H:%M:%S").unwrap();
    assert_eq!(dt.timestamp(), 1_684_147_864_000_000_000);
}

#[test]
fn strptime_date_only_reads_midnight() {
    let dt = DateTimeNaive::strptime("2023-05-15", "%Y-%m-%d").unwrap();
    assert_eq!(dt.timestamp(), 1_684_108_800_000_000_000);
}

#[test]
fn strptime_time_only_lands_on_1900() {
    let dt = DateTimeNaive::strptime("10:30:00", "%H:%M:%S").unwrap();
    assert_eq!(dt.timestamp(), (-2_208_988_800 + 37_800) * 1_000_000_000);
}

#[test]
fn strptime_rejects_bare_fractional_marker() {
    let e = DateTimeNaive::strptime("boom", "%f").unwrap_err();
    match e {
        Error::ParseError(msg) => assert_eq!(
            msg,
            "Cannot use format: %f. Using %f without the leading dot is not supported."
        ),
        other => panic!("unexpected error: {:?}", other),
    }
}

#[test]
fn strptime_reports_unparsable_string() {
    let e = DateTimeNaive::strptime("not a date", "%Y-%m-%d").unwrap_err();
    match e {
        Error::ParseError(msg) => assert_eq!(
            msg,
            "Cannot format date: not a date using format: %Y-%m-%d."
        ),
        other => panic!("unexpected error: {:?}", other),
    }
}

#[test]
fn strftime_renders_epoch() {
    let s = DateTimeNaive::new(0).strftime("%Y-%m-%dT%H:%M:%S").unwrap();
    assert_eq!(s, "1970-01-01T00:00:00");
    let s = DateTimeUtc::new(0).strftime("%Y-%m-%d %H:%M:%S %z").unwrap();
    assert_eq!(s, "1970-01-01 00:00:00 +0000");
}

#[test]
fn strptime_strftime_round_trip() {
    let fmt = "%Y-%m-%d %H:%M:%S";
    let s = "2023-05-15 10:51:04";
    let dt = DateTimeNaive::strptime(s, fmt).unwrap();
    assert_eq!(dt.strftime(fmt).unwrap(), s);

    let fmt = "%Y-%m-%dT%H:%M:%S.%f";
    let s = "2023-05-15T10:51:04.123456789";
    let dt = DateTimeNaive::strptime(s, fmt).unwrap();
    assert_eq!(dt.strftime(fmt).unwrap(), s);
}

#[test]
fn utc_strptime_applies_offset() {
    let dt = DateTimeUtc::strptime("2023-05-15 10:00:00 +0200", "%Y-%m-%d %H:%M:%S %z").unwrap();
    assert_eq!(dt.timestamp(), 1_684_137_600_000_000_000);
}

#[test]
fn timezone_conversion_round_trip() {
    // 01:00 UTC on 2023-03-26 reads 03:00 in Warsaw (already on summer time)
    let utc = DateTimeUtc::new(1_679_792_400_000_000_000);
    let local = utc.to_naive_in_timezone("Europe/Warsaw").unwrap();
    assert_eq!(local.timestamp(), 1_679_799_600_000_000_000);
}

#[test]
fn timezone_nonexistent_local_time_moves_forward() {
    // 02:30 on 2023-03-26 does not exist in Warsaw: the clock jumps 02:00->03:00.
    // The reading is retried rounded forward to 03:00 local, i.e. 01:00 UTC.
    let local = DateTimeNaive::strptime("2023-03-26 02:30:00", "%Y-%m-%d %H:%M:%S").unwrap();
    let utc = local.to_utc_from_timezone("Europe/Warsaw").unwrap();
    assert_eq!(utc.timestamp(), 1_679_792_400_000_000_000);
}

#[test]
fn timezone_ambiguous_local_time_takes_later_instant() {
    // 02:30 on 2023-10-29 occurs twice in Warsaw; the later reading is CET (+1),
    // so the instant is 01:30 UTC.
    let local = DateTimeNaive::strptime("2023-10-29 02:30:00", "%Y-%m-%d %H:%M:%S").unwrap();
    let utc = local.to_utc_from_timezone("Europe/Warsaw").unwrap();
    assert_eq!(utc.timestamp(), 1_698_543_000_000_000_000);
}

#[test]
fn timezone_unknown_zone_is_rejected() {
    let e = DateTimeNaive::new(0)
        .to_utc_from_timezone("Mars/Olympus")
        .unwrap_err();
    match e {
        Error::ParseError(msg) => assert_eq!(msg, "Cannot parse time zone: Mars/Olympus."),
        other => panic!("unexpected error: {:?}", other),
    }
    assert!(DateTimeUtc::new(0).to_naive_in_timezone("Mars/Olympus").is_err());
}

#[test]
fn calendar_accessors() {
    // 2023-05-15 10:51:04.123456789, a Monday
    let dt = DateTimeNaive::new(1_684_147_864_123_456_789);
    assert_eq!(dt.year(), 2023);
    assert_eq!(dt.month(), 5);
    assert_eq!(dt.day(), 15);
    assert_eq!(dt.hour(), 10);
    assert_eq!(dt.minute(), 51);
    assert_eq!(dt.second(), 4);
    assert_eq!(dt.millisecond(), 123);
    assert_eq!(dt.microsecond(), 123_456);
    assert_eq!(dt.nanosecond(), 123_456_789);
    assert_eq!(dt.weekday(), 0);
}

#[test]
fn calendar_accessors_before_epoch() {
    let dt = DateTimeUtc::new(-1);
    assert_eq!(dt.year(), 1969);
    assert_eq!(dt.month(), 12);
    assert_eq!(dt.day(), 31);
    assert_eq!(dt.hour(), 23);
    assert_eq!(dt.minute(), 59);
    assert_eq!(dt.second(), 59);
    assert_eq!(dt.nanosecond(), 999_999_999);
    // 1969-12-31 was a Wednesday
    assert_eq!(dt.weekday(), 2);
}

#[test]
fn unit_multipliers() {
    assert_eq!(get_unit_multiplier("s"), Ok(1_000_000_000));
    assert_eq!(get_unit_multiplier("ms"), Ok(1_000_000));
    assert_eq!(get_unit_multiplier("us"), Ok(1_000));
    assert_eq!(get_unit_multiplier("ns"), Ok(1));
    match get_unit_multiplier("h") {
        Err(Error::ValueError(msg)) => {
            assert_eq!(msg, "unit has to be one of s, ms, us, ns but is h.")
        }
        other => panic!("unexpected result: {:?}", other),
    }
}

#[test]
fn from_timestamp_scales_by_unit() {
    let dt = DateTimeNaive::from_timestamp(5, "s").unwrap();
    assert_eq!(dt.timestamp(), 5_000_000_000);
    let dt = DateTimeNaive::from_timestamp(-7, "ms").unwrap();
    assert_eq!(dt.timestamp(), -7_000_000);
    assert!(DateTimeNaive::from_timestamp(5, "fortnight").is_err());
}
