use ais_forwarder::dispatcher::{
    is_moving, Dispatch, Dispatcher, LastSent, DEFAULT_INTERVAL,
    DEFAULT_LOCATION_ANCHOR_INTERVAL, DEFAULT_LOCATION_INTERVAL, MOTION_THRESHOLD,
};
use ais_forwarder::message::{ParsedMessage, UtcTime, UNITS_PER_DEGREE, UNITS_PER_MINUTE};
use ais_forwarder::nmea::{
    format_gnrmc, format_lat_long, format_location, format_option, magnitude_of, push_date,
    push_lat_long, push_option, push_time,
};
use ais_forwarder::text::{push_bytes, push_decimal, push_padded};

/// Degrees, given in thousandths, as the library counts angles.
fn millidegrees(v: i64) -> i64 {
    v * 6_000
}

fn at(hour: u32, minute: u32, second: u32) -> UtcTime {
    UtcTime { year: 2025, month: 6, day: 1, hour, minute, second, nanosecond: 0 }
}

fn dynamic(mmsi: u32, own_vessel: bool) -> ParsedMessage {
    ParsedMessage::VesselDynamicData {
        mmsi,
        own_vessel,
        latitude: Some(millidegrees(53_170)),
        longitude: Some(millidegrees(5_420)),
    }
}

fn rmc(lat: i64, lon: i64) -> ParsedMessage {
    ParsedMessage::Rmc {
        timestamp: None,
        latitude: Some(lat),
        longitude: Some(lon),
        sog_knots: None,
        bearing: None,
    }
}

#[test]
fn decimal_numbers() {
    let mut out = Vec::new();
    push_decimal(&mut out, 0);
    out.push(b' ');
    push_decimal(&mut out, 7);
    out.push(b' ');
    push_decimal(&mut out, 10);
    out.push(b' ');
    push_decimal(&mut out, 244123456);
    out.push(b' ');
    push_decimal(&mut out, u64::MAX);
    assert_eq!(out, b"0 7 10 244123456 18446744073709551615".to_vec());
}

#[test]
fn padded_numbers() {
    let mut out = Vec::new();
    push_padded(&mut out, 5, 2);
    out.push(b' ');
    push_padded(&mut out, 0, 5);
    out.push(b' ');
    push_padded(&mut out, 123, 2);
    out.push(b' ');
    push_padded(&mut out, 20000, 5);
    out.push(b' ');
    push_padded(&mut out, 9, 0);
    out.push(b' ');
    push_padded(&mut out, 0, 0);
    out.push(b' ');
    push_padded(&mut out, 42, 1);
    assert_eq!(out, b"05 00000 123 20000 9 0 42".to_vec());
    push_bytes(&mut out, b"!");
    push_bytes(&mut out, b"");
    assert_eq!(out, b"05 00000 123 20000 9 0 42!".to_vec());
}

#[test]
fn units_of_an_angle() {
    assert_eq!(UNITS_PER_DEGREE, 6_000_000);
    assert_eq!(UNITS_PER_MINUTE, 100_000);
    assert_eq!(MOTION_THRESHOLD, 6_000);
    assert_eq!(magnitude_of(0), 0);
    assert_eq!(magnitude_of(-5), 5);
    assert_eq!(magnitude_of(i64::MAX), i64::MAX as u64);
    assert_eq!(magnitude_of(i64::MIN), 1u64 << 63);
}

#[test]
fn format_lat_long_absent_is_bare_comma() {
    assert_eq!(format_lat_long(None, true), b",".to_vec());
    assert_eq!(format_lat_long(None, false), b",".to_vec());
}

#[test]
fn format_lat_long_present() {
    assert_eq!(format_lat_long(Some(millidegrees(53_170)), true), b"5310.20000,N".to_vec());
    assert_eq!(format_lat_long(Some(millidegrees(53_180)), true), b"5310.80000,N".to_vec());
    assert_eq!(format_lat_long(Some(millidegrees(5_420)), false), b"525.20000,E".to_vec());
    assert_eq!(format_lat_long(Some(millidegrees(-33_500)), true), b"3330.00000,S".to_vec());
    assert_eq!(format_lat_long(Some(millidegrees(-122_250)), false), b"12215.00000,W".to_vec());
    assert_eq!(format_lat_long(Some(0), true), b"0.00000,N".to_vec());
    assert_eq!(format_lat_long(Some(0), false), b"0.00000,E".to_vec());
    assert_eq!(format_lat_long(Some(1), true), b"0.00001,N".to_vec());
    assert_eq!(format_lat_long(Some(-1), false), b"0.00001,W".to_vec());
    // 59.99999 minutes do not round up into the degrees
    assert_eq!(format_lat_long(Some(6_000_000 - 1), true), b"59.99999,N".to_vec());
    assert_eq!(format_lat_long(Some(6_000_000), true), b"100.00000,N".to_vec());
    assert_eq!(format_lat_long(Some(180 * 6_000_000), false), b"18000.00000,E".to_vec());
}

#[test]
fn format_lat_long_appends() {
    let mut out = b"x,".to_vec();
    push_lat_long(&mut out, Some(millidegrees(53_170)), true);
    out.push(b',');
    push_lat_long(&mut out, None, false);
    assert_eq!(out, b"x,5310.20000,N,,".to_vec());
}

#[test]
fn format_option_has_one_decimal() {
    assert_eq!(format_option(None), Vec::<u8>::new());
    assert_eq!(format_option(Some(0)), b"0.0".to_vec());
    assert_eq!(format_option(Some(7)), b"0.7".to_vec());
    assert_eq!(format_option(Some(123)), b"12.3".to_vec());
    assert_eq!(format_option(Some(3599)), b"359.9".to_vec());
    assert_eq!(format_option(Some(-15)), b"-1.5".to_vec());
    let mut out = b"a".to_vec();
    push_option(&mut out, Some(450));
    push_option(&mut out, None);
    assert_eq!(out, b"a45.0".to_vec());
}

#[test]
fn time_and_date_fields() {
    let mut out = Vec::new();
    push_time(&mut out, &at(1, 2, 3));
    out.push(b' ');
    push_time(&mut out, &at(23, 59, 59));
    out.push(b' ');
    push_date(&mut out, &at(0, 0, 0));
    out.push(b' ');
    push_date(
        &mut out,
        &UtcTime { year: 1999, month: 12, day: 31, hour: 0, minute: 0, second: 0, nanosecond: 0 },
    );
    out.push(b' ');
    push_date(
        &mut out,
        &UtcTime { year: 2100, month: 1, day: 9, hour: 0, minute: 0, second: 0, nanosecond: 0 },
    );
    assert_eq!(out, b"010203 235959 010625 311299 090100".to_vec());
}

#[test]
fn time_field_shows_a_leap_second() {
    let mut out = Vec::new();
    push_time(
        &mut out,
        &UtcTime {
            year: 2016,
            month: 12,
            day: 31,
            hour: 23,
            minute: 59,
            second: 59,
            nanosecond: 1_500_000_000,
        },
    );
    assert_eq!(out, b"235960".to_vec());
}

#[test]
fn time_and_date_fields_agree_with_chrono() {
    for (y, m, d, h, mi, s, n) in [
        (2025, 6, 1, 12, 34, 56, 0u32),
        (1970, 1, 1, 0, 0, 0, 1),
        (2000, 2, 29, 23, 59, 59, 999_999_999),
        (2016, 12, 31, 23, 59, 59, 1_000_000_000),
        (-44, 3, 15, 9, 8, 7, 0),
        (9999, 12, 31, 1, 1, 1, 0),
    ] {
        let stamp = chrono::NaiveDate::from_ymd_opt(y, m, d)
            .unwrap()
            .and_hms_nano_opt(h, mi, s, n)
            .unwrap()
            .and_utc();
        let t =
            UtcTime { year: y, month: m, day: d, hour: h, minute: mi, second: s, nanosecond: n };
        let mut time = Vec::new();
        push_time(&mut time, &t);
        assert_eq!(time, stamp.format("%H%M%S").to_string().into_bytes());
        let mut date = Vec::new();
        push_date(&mut date, &t);
        assert_eq!(date, stamp.format("%d%m%y").to_string().into_bytes());
    }
}

#[test]
fn gnrmc_sentence_of_a_gnss_position() {
    let sentence = format_gnrmc(
        244123456,
        &at(12, 34, 56),
        Some(millidegrees(53_170)),
        Some(millidegrees(5_420)),
        Some(123),
        Some(450),
    );
    assert_eq!(
        sentence,
        b"244123456$GNRMC,123456,A,5310.20000,N,525.20000,E,12.3,45.0,010625,,,A\r\n".to_vec()
    );
}

#[test]
fn gnrmc_sentence_without_position() {
    let sentence = format_gnrmc(1, &at(0, 0, 0), None, None, None, None);
    assert_eq!(sentence, b"1$GNRMC,000000,A,,,,,,,010625,,,A\r\n".to_vec());
}

#[test]
fn location_sentence_of_a_transponder_report() {
    let message = ParsedMessage::VesselDynamicData {
        mmsi: 111111,
        own_vessel: true,
        latitude: Some(millidegrees(-33_500)),
        longitude: Some(millidegrees(-122_250)),
    };
    // the report carries its own MMSI and the time at which it is worded
    assert_eq!(
        format_location(244123456, &message, &at(7, 8, 9)),
        Some(b"111111$GNRMC,070809,A,3330.00000,S,12215.00000,W,,,010625,,,A\r\n".to_vec())
    );
}

#[test]
fn location_sentence_of_a_gnss_position() {
    let stamped = ParsedMessage::Rmc {
        timestamp: Some(UtcTime {
            year: 2024,
            month: 2,
            day: 29,
            hour: 23,
            minute: 0,
            second: 1,
            nanosecond: 0,
        }),
        latitude: Some(millidegrees(53_180)),
        longitude: Some(millidegrees(5_420)),
        sog_knots: Some(0),
        bearing: None,
    };
    assert_eq!(
        format_location(244123456, &stamped, &at(7, 8, 9)),
        Some(b"244123456$GNRMC,230001,A,5310.80000,N,525.20000,E,0.0,,290224,,,A\r\n".to_vec())
    );
    // without a time of its own the position takes the time at which it is worded
    assert_eq!(
        format_location(244123456, &rmc(millidegrees(53_180), millidegrees(5_420)), &at(7, 8, 9)),
        Some(b"244123456$GNRMC,070809,A,5310.80000,N,525.20000,E,,,010625,,,A\r\n".to_vec())
    );
}

#[test]
fn location_sentence_of_other_sentences_is_none() {
    let other = [
        ParsedMessage::VesselStaticData { mmsi: 1, own_vessel: true },
        ParsedMessage::Incomplete,
        ParsedMessage::Unsupported,
    ];
    for message in other {
        assert_eq!(format_location(244123456, &message, &at(7, 8, 9)), None);
    }
}

#[test]
fn is_moving_needs_both_coordinates() {
    assert!(!is_moving(None, None, 0, 0));
    assert!(!is_moving(None, Some(1_000_000), 0, 0));
    assert!(!is_moving(Some(1_000_000), None, 0, 0));
}

#[test]
fn is_moving_beyond_a_thousandth_of_a_degree() {
    let lat = millidegrees(53_170);
    let lon = millidegrees(5_420);
    assert!(!is_moving(Some(lat), Some(lon), lat, lon));
    assert!(!is_moving(Some(lat + 6_000), Some(lon), lat, lon));
    assert!(is_moving(Some(lat + 6_001), Some(lon), lat, lon));
    assert!(is_moving(Some(lat - 6_001), Some(lon), lat, lon));
    assert!(!is_moving(Some(lat), Some(lon - 6_000), lat, lon));
    assert!(is_moving(Some(lat), Some(lon + 6_001), lat, lon));
    assert!(is_moving(Some(lat), Some(lon - 6_001), lat, lon));
    assert!(is_moving(Some(i64::MAX), Some(0), i64::MIN, 0));
    assert!(is_moving(Some(0), Some(i64::MIN), 0, i64::MAX));
}

#[test]
fn dispatcher_defaults() {
    assert_eq!(DEFAULT_INTERVAL, 60);
    assert_eq!(DEFAULT_LOCATION_INTERVAL, 600);
    assert_eq!(DEFAULT_LOCATION_ANCHOR_INTERVAL, 86_400);
}

#[test]
fn new_dispatcher_has_seen_nothing() {
    let d = Dispatcher::new(60, 600, 86_400, 1_000);
    assert_eq!(d.last_sent(111111), None);
    assert!(d.allows_ais_for_location());
    assert_eq!(d.next_location_instant(), 1_000);
    assert_eq!(d.next_location_anchor_instant(), 1_000 - 600 + 86_400);
    let early = Dispatcher::new(60, 600, 86_400, 0);
    assert_eq!(early.next_location_instant(), 0);
    assert_eq!(early.next_location_anchor_instant(), 85_800);
}

#[test]
fn first_sight_passes() {
    let mut d = Dispatcher::new(60, 600, 86_400, 0);
    assert!(d.check_last_sent(&dynamic(111111, false), 0));
    assert_eq!(
        d.last_sent(111111),
        Some(LastSent { vessel_dynamic_data: 0, vessel_static_data: -60 })
    );
    // the other kind of sentence of the same vessel passes at once too
    assert!(d.check_last_sent(&ParsedMessage::VesselStaticData { mmsi: 111111, own_vessel: false }, 1));
    assert_eq!(
        d.last_sent(111111),
        Some(LastSent { vessel_dynamic_data: 0, vessel_static_data: 1 })
    );
    assert!(d.check_last_sent(&ParsedMessage::VesselStaticData { mmsi: 222222, own_vessel: false }, 5));
    assert_eq!(
        d.last_sent(222222),
        Some(LastSent { vessel_dynamic_data: -55, vessel_static_data: 5 })
    );
}

#[test]
fn rate_limit_holds_back_until_the_interval_has_passed() {
    let mut d = Dispatcher::new(60, 600, 86_400, 0);
    assert!(d.check_last_sent(&dynamic(111111, false), 100));
    assert!(!d.check_last_sent(&dynamic(111111, false), 130));
    assert!(!d.check_last_sent(&dynamic(111111, false), 159));
    assert_eq!(d.last_sent(111111).unwrap().vessel_dynamic_data, 100);
    assert!(d.check_last_sent(&dynamic(111111, false), 160));
    assert_eq!(d.last_sent(111111).unwrap().vessel_dynamic_data, 160);
    // another vessel is not held back by this one
    assert!(d.check_last_sent(&dynamic(222222, false), 161));
    assert!(!d.check_last_sent(&dynamic(111111, false), 161));
}

#[test]
fn rate_limit_of_the_own_vessel_is_the_location_interval() {
    let mut d = Dispatcher::new(60, 600, 86_400, 0);
    assert!(d.check_last_sent(&dynamic(244123456, true), 0));
    assert!(!d.check_last_sent(&dynamic(244123456, true), 599));
    assert!(d.check_last_sent(&dynamic(244123456, true), 600));
    assert_eq!(
        d.last_sent(244123456),
        Some(LastSent { vessel_dynamic_data: 600, vessel_static_data: -600 })
    );
}

#[test]
fn rate_limit_passes_over_other_sentences() {
    let mut d = Dispatcher::new(60, 600, 86_400, 0);
    assert!(!d.check_last_sent(&rmc(1, 1), 1_000));
    assert!(!d.check_last_sent(&ParsedMessage::Unsupported, 1_000));
    assert!(!d.check_last_sent(&ParsedMessage::Incomplete, 1_000));
    assert_eq!(d.last_sent(0), None);
}

#[test]
fn ais_rate_limit_lets_one_of_two_close_reports_pass() {
    let mut d = Dispatcher::new(60, 600, 86_400, 0);
    let message = dynamic(111111, false);
    let first = d.handle_line(b"!AIVDM,1,1,,A,first,0*00", Some(message), 1_000);
    let second = d.handle_line(b"!AIVDM,1,1,,A,second,0*00", Some(message), 1_030);
    assert_eq!(
        first,
        Dispatch { broadcast: Some(b"!AIVDM,1,1,,A,first,0*00".to_vec()), location: None }
    );
    assert_eq!(second, Dispatch { broadcast: None, location: None });
    let third = d.handle_line(b"!AIVDM,1,1,,A,third,0*00", Some(message), 1_060);
    assert_eq!(third.broadcast, Some(b"!AIVDM,1,1,,A,third,0*00".to_vec()));
}

#[test]
fn own_vessel_motion_triggers_location() {
    let mut d = Dispatcher::new(60, 600, 86_400, 0);
    let first = rmc(millidegrees(53_170), millidegrees(5_420));
    let second = rmc(millidegrees(53_180), millidegrees(5_420));
    let a = d.handle_line(b"$GPRMC,a", Some(first), 0);
    assert_eq!(a, Dispatch { broadcast: None, location: Some(first) });
    let b = d.handle_line(b"$GPRMC,b", Some(second), 601);
    assert_eq!(b, Dispatch { broadcast: None, location: Some(second) });
    assert_eq!(d.next_location_instant(), 601 + 600);
    let now = at(12, 0, 0);
    let one = format_location(244123456, &first, &now).unwrap();
    let two = format_location(244123456, &second, &now).unwrap();
    assert_eq!(one, b"244123456$GNRMC,120000,A,5310.20000,N,525.20000,E,,,010625,,,A\r\n".to_vec());
    assert_eq!(two, b"244123456$GNRMC,120000,A,5310.80000,N,525.20000,E,,,010625,,,A\r\n".to_vec());
}

#[test]
fn motion_does_not_report_before_the_location_interval() {
    let mut d = Dispatcher::new(60, 600, 86_400, 0);
    let first = rmc(millidegrees(53_170), millidegrees(5_420));
    let second = rmc(millidegrees(53_180), millidegrees(5_420));
    assert_eq!(d.handle_line(b"a", Some(first), 0).location, Some(first));
    assert_eq!(d.handle_line(b"b", Some(second), 599).location, None);
    assert_eq!(d.handle_line(b"b", Some(second), 600).location, Some(second));
    // a position without coordinates does not count as motion
    let blind = ParsedMessage::Rmc {
        timestamp: None,
        latitude: None,
        longitude: None,
        sog_knots: None,
        bearing: None,
    };
    assert_eq!(d.handle_line(b"c", Some(blind), 1_300).location, None);
}

#[test]
fn anchor_heartbeat_reports_a_vessel_that_lies_still() {
    let mut d = Dispatcher::new(60, 600, 3_600, 0);
    let fix = rmc(millidegrees(53_170), millidegrees(5_420));
    let mut reported = Vec::new();
    let mut minute = 0;
    while minute <= 70 {
        let now = minute * 60;
        if d.handle_line(b"$GPRMC,fix", Some(fix), now).location.is_some() {
            reported.push(now);
        }
        minute += 1;
    }
    assert_eq!(reported, vec![0, 3_600]);
    assert_eq!(d.next_location_anchor_instant(), 7_200);
}

#[test]
fn anchor_report_comes_without_coordinates_too() {
    let mut d = Dispatcher::new(60, 600, 3_600, 600);
    let blind = ParsedMessage::Rmc {
        timestamp: None,
        latitude: None,
        longitude: None,
        sog_knots: None,
        bearing: None,
    };
    // the anchor interval counts from one location interval before the start
    assert_eq!(d.handle_line(b"a", Some(blind), 3_599).location, None);
    assert_eq!(d.handle_line(b"a", Some(blind), 3_600).location, Some(blind));
    assert_eq!(d.handle_line(b"a", Some(blind), 7_199).location, None);
    assert_eq!(d.handle_line(b"a", Some(blind), 7_200).location, Some(blind));
}

#[test]
fn gnss_position_latches_out_the_transponder() {
    let mut d = Dispatcher::new(60, 600, 86_400, 0);
    let own = dynamic(244123456, true);
    let first = d.handle_line(b"!AIVDO,1", Some(own), 0);
    assert_eq!(first.location, Some(own));
    assert!(d.allows_ais_for_location());
    let fix = rmc(millidegrees(54_000), millidegrees(6_000));
    let second = d.handle_line(b"$GPRMC,2", Some(fix), 700);
    assert_eq!(second.location, Some(fix));
    assert!(!d.allows_ais_for_location());
    let moved = ParsedMessage::VesselDynamicData {
        mmsi: 244123456,
        own_vessel: true,
        latitude: Some(millidegrees(55_000)),
        longitude: Some(millidegrees(7_000)),
    };
    let third = d.handle_line(b"!AIVDO,3", Some(moved), 100_000);
    assert_eq!(third.location, None);
    // it is still passed on to the AIS sinks
    assert_eq!(third.broadcast, Some(b"!AIVDO,3".to_vec()));
    assert!(!d.allows_ais_for_location());
}

#[test]
fn report_of_another_vessel_is_no_own_position() {
    let mut d = Dispatcher::new(60, 600, 86_400, 0);
    let other = dynamic(111111, false);
    assert_eq!(
        d.handle_line(b"!AIVDM,1", Some(other), 0),
        Dispatch { broadcast: Some(b"!AIVDM,1".to_vec()), location: None }
    );
    let name = ParsedMessage::VesselStaticData { mmsi: 244123456, own_vessel: true };
    assert_eq!(
        d.handle_line(b"!AIVDO,5", Some(name), 1_000_000),
        Dispatch { broadcast: Some(b"!AIVDO,5".to_vec()), location: None }
    );
}

#[test]
fn fragments_are_reassembled_in_arrival_order() {
    let mut d = Dispatcher::new(60, 600, 86_400, 0);
    let one = b"!AIVDM,2,1,3,B,55P5TL01VIaAL@7WKO@mBplU@<PDhh000000001S;AJ::4A80?4i@E53,0*3E";
    let two = b"!AIVDM,2,2,3,B,1@0000000000000,2*55";
    let first = d.handle_line(one, Some(ParsedMessage::Incomplete), 10);
    assert_eq!(first, Dispatch { broadcast: None, location: None });
    let name = ParsedMessage::VesselStaticData { mmsi: 111111, own_vessel: false };
    let second = d.handle_line(two, Some(name), 10);
    let mut expected = one.to_vec();
    expected.extend_from_slice(two);
    assert_eq!(second, Dispatch { broadcast: Some(expected), location: None });
    // the parts are forgotten once the sentence is dealt with
    let third = d.handle_line(b"!AIVDM,1,1,,A,x,0*00", Some(dynamic(111111, false)), 11);
    assert_eq!(third.broadcast, Some(b"!AIVDM,1,1,,A,x,0*00".to_vec()));
}

#[test]
fn fragments_are_dropped_when_a_line_is_rejected() {
    let mut d = Dispatcher::new(60, 600, 86_400, 0);
    d.handle_line(b"part one,", Some(ParsedMessage::Incomplete), 0);
    assert_eq!(d.handle_line(b"garbage", None, 0), Dispatch { broadcast: None, location: None });
    let out = d.handle_line(b"whole", Some(dynamic(111111, false)), 0);
    assert_eq!(out.broadcast, Some(b"whole".to_vec()));
}

#[test]
fn fragments_are_dropped_when_the_rate_limit_holds_back() {
    let mut d = Dispatcher::new(60, 600, 86_400, 0);
    assert!(d.handle_line(b"a", Some(dynamic(111111, false)), 0).broadcast.is_some());
    d.handle_line(b"part,", Some(ParsedMessage::Incomplete), 1);
    assert_eq!(d.handle_line(b"b", Some(dynamic(111111, false)), 2).broadcast, None);
    let out = d.handle_line(b"c", Some(dynamic(111111, false)), 60);
    assert_eq!(out.broadcast, Some(b"c".to_vec()));
}

#[test]
fn other_sentences_leave_the_fragments_alone() {
    let mut d = Dispatcher::new(60, 600, 86_400, 0);
    d.handle_line(b"part,", Some(ParsedMessage::Incomplete), 0);
    assert_eq!(
        d.handle_line(b"$GPGGA", Some(ParsedMessage::Unsupported), 0),
        Dispatch { broadcast: None, location: None }
    );
    let out = d.handle_line(b"rest", Some(dynamic(111111, false)), 0);
    assert_eq!(out.broadcast, Some(b"part,rest".to_vec()));
}

#[test]
fn gnss_position_is_never_sent_to_the_ais_sinks() {
    let mut d = Dispatcher::new(60, 600, 86_400, 0);
    d.handle_line(b"part,", Some(ParsedMessage::Incomplete), 0);
    let fix = rmc(millidegrees(53_170), millidegrees(5_420));
    let out = d.handle_line(b"$GPRMC", Some(fix), 0);
    assert_eq!(out, Dispatch { broadcast: None, location: Some(fix) });
    // and it clears the parts
    let next = d.handle_line(b"x", Some(dynamic(111111, false)), 0);
    assert_eq!(next.broadcast, Some(b"x".to_vec()));
}

#[test]
fn broadcasts_of_one_vessel_lie_an_interval_apart() {
    let mut d = Dispatcher::new(60, 600, 86_400, 0);
    let mut sent = Vec::new();
    let mut now = 0;
    while now < 1_000 {
        if d.handle_line(b"x", Some(dynamic(111111, false)), now).broadcast.is_some() {
            sent.push(now);
        }
        d.handle_line(b"y", Some(dynamic(222222, false)), now);
        now += 7;
    }
    assert_eq!(sent[0], 0);
    for pair in sent.windows(2) {
        assert!(pair[1] - pair[0] >= 60);
    }
    assert_eq!(sent.len(), 16);
}
