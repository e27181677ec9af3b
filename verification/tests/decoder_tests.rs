use nmea_framer::decoder::{
    classify, decode, layout, parse_fix_quality, parse_hemisphere, parse_latitude,
    parse_longitude, parse_speed, parse_talker, parse_time,
};
use nmea_framer::framer::{CandidateSentence, Framer};
use nmea_framer::record::{
    Coordinate, DecodeError, DecodedRecord, FixQuality, Hemisphere, SentenceKind, TalkerId,
    TimeOfDay,
};
use nmea_framer::validator::{validate, ValidSentence};

fn valid(line: &[u8]) -> ValidSentence {
    validate(CandidateSentence::from_bytes(line.to_vec())).expect("accepted")
}

fn decode_line(line: &[u8]) -> Result<DecodedRecord, DecodeError> {
    decode(&valid(line))
}

fn degrees(c: Coordinate) -> f64 {
    c.nanodegrees() as f64 / 1e9
}

const GP: Option<TalkerId> = Some(TalkerId { first: b'G', second: b'P' });

#[test]
fn position_fix_decodes_through_the_whole_pipeline() {
    let mut framer = Framer::new();
    let mut out = framer
        .feed_chunk(b"$GPGGA,123519,4807.038,N,01131.000,E,1,08,0.9,545.4,M,46.9,M,,*47\n");
    assert_eq!(out.len(), 1);
    let sentence = validate(out.remove(0)).expect("accepted");
    let record = decode(&sentence).expect("decoded");

    let lat = record.latitude.expect("latitude present");
    let lon = record.longitude.expect("longitude present");
    assert!((degrees(lat) - 48.1173).abs() < 1e-6);
    assert!((degrees(lon) - 11.5167).abs() < 1e-4);
    assert!(degrees(lat) > 0.0);
    assert!(degrees(lon) > 0.0);

    assert_eq!(
        record,
        DecodedRecord {
            talker: GP,
            kind: SentenceKind::Gga,
            time: Some(TimeOfDay { hours: 12, minutes: 35, seconds: 19, nanos: 0 }),
            latitude: Some(Coordinate {
                hemisphere: Hemisphere::North,
                degrees: 48,
                nano_minutes: 7_038_000_000,
            }),
            longitude: Some(Coordinate {
                hemisphere: Hemisphere::East,
                degrees: 11,
                nano_minutes: 31_000_000_000,
            }),
            fix_quality: Some(FixQuality::Gps),
            satellites: Some(8),
            speed_nano_knots: None,
        }
    );
}

#[test]
fn position_fix_exact_decimal_degrees() {
    let record =
        decode_line(b"$GPGGA,123519,4807.038,N,01131.000,E,1,08,0.9,545.4,M,46.9,M,,*47")
            .expect("decoded");
    assert_eq!(record.latitude.unwrap().nanodegrees(), 48_117_300_000);
    assert_eq!(record.longitude.unwrap().nanodegrees(), 11_516_666_666);
}

#[test]
fn southern_and_western_hemispheres_negate() {
    let north_east =
        decode_line(b"$GPGGA,123519,4807.038,N,01131.000,E,1,08,0.9,545.4,M,46.9,M,,*47")
            .expect("decoded");
    let south_west =
        decode_line(b"$GPGGA,123519,4807.038,S,01131.000,W,1,08,0.9,545.4,M,46.9,M,,*47")
            .expect("decoded");
    let lat = south_west.latitude.unwrap();
    let lon = south_west.longitude.unwrap();
    assert_eq!(lat.hemisphere, Hemisphere::South);
    assert_eq!(lon.hemisphere, Hemisphere::West);
    assert_eq!(lat.nanodegrees(), -north_east.latitude.unwrap().nanodegrees());
    assert_eq!(lon.nanodegrees(), -north_east.longitude.unwrap().nanodegrees());
    assert!((degrees(lat) + 48.1173).abs() < 1e-6);
    assert!((degrees(lon) + 11.5167).abs() < 1e-4);
    assert!(degrees(lat) < 0.0);
    assert!(degrees(lon) < 0.0);
}

#[test]
fn empty_coordinate_field_is_absent_not_zero() {
    let record = decode_line(b"$GPGGA,123519,,N,,E,0,00,,,M,,M,,*47").expect("decoded");
    assert_eq!(record.latitude, None);
    assert_eq!(record.longitude, None);
    assert_eq!(record.fix_quality, Some(FixQuality::Invalid));
    assert_eq!(record.satellites, Some(0));
    assert_eq!(parse_latitude(b"", b"N"), None);
    assert_eq!(parse_longitude(b"", b"E"), None);
}

#[test]
fn all_fields_empty_decode_to_absent() {
    let record = decode_line(b"$GPGGA,,,,,,,,,,,,,,").expect("decoded");
    assert_eq!(record.kind, SentenceKind::Gga);
    assert_eq!(record.talker, GP);
    assert!(record.blank());
}

#[test]
fn one_coordinate_absent_leaves_the_other() {
    let record =
        decode_line(b"$GPGGA,123519,4807.038,N,,,1,08,0.9,545.4,M,46.9,M,,").expect("decoded");
    assert!(record.latitude.is_some());
    assert_eq!(record.longitude, None);
}

#[test]
fn unknown_type_decodes_to_blank_record() {
    let record = decode_line(b"$GPZDA,201530.00,04,07,2002,00,00*60").expect("no error");
    assert_eq!(record.kind, SentenceKind::Unknown);
    assert_eq!(record.talker, GP);
    assert!(record.blank());
    assert_eq!(record.latitude, None);
    assert_eq!(record.longitude, None);

    let record = decode_line(b"$PGRMZ,93,f,3*21").expect("no error");
    assert_eq!(record.kind, SentenceKind::Unknown);
    assert_eq!(record.talker, Some(TalkerId { first: b'P', second: b'G' }));
    assert!(record.blank());
}

#[test]
fn unknown_type_with_coordinate_like_fields_stays_blank() {
    let record = decode_line(b"$GPXXX,123519,4807.038,N,01131.000,E").expect("no error");
    assert_eq!(record.kind, SentenceKind::Unknown);
    assert!(record.blank());
}

#[test]
fn short_first_field_is_unknown_without_talker() {
    let record = decode_line(b"$").expect("no error");
    assert_eq!(record.kind, SentenceKind::Unknown);
    assert_eq!(record.talker, None);
    assert!(record.blank());

    let record = decode_line(b"$G,1,2").expect("no error");
    assert_eq!(record.talker, None);
    assert_eq!(record.kind, SentenceKind::Unknown);

    let record = decode_line(b"$GP").expect("no error");
    assert_eq!(record.talker, GP);
    assert_eq!(record.kind, SentenceKind::Unknown);
}

#[test]
fn decoding_twice_gives_equal_records() {
    let sentence = valid(b"$GPGGA,123519,4807.038,N,01131.000,E,1,08,0.9,545.4,M,46.9,M,,*47");
    let first = decode(&sentence);
    let second = decode(&sentence);
    assert_eq!(first, second);
    assert!(first.is_ok());

    let truncated = valid(b"$GPGGA,123519");
    assert_eq!(decode(&truncated), decode(&truncated));
}

#[test]
fn truncated_known_type_is_an_error() {
    assert_eq!(
        decode_line(b"$GPGGA,123519,4807.038,N"),
        Err(DecodeError::Truncated { kind: SentenceKind::Gga, required: 15, found: 4 })
    );
    assert_eq!(
        decode_line(b"$GPGGA"),
        Err(DecodeError::Truncated { kind: SentenceKind::Gga, required: 15, found: 1 })
    );
    assert_eq!(
        decode_line(b"$GPRMC,081836,A,3751.65,S,14507.36,E,000.0,360.0,130998,011.3"),
        Err(DecodeError::Truncated { kind: SentenceKind::Rmc, required: 12, found: 11 })
    );
    assert_eq!(
        decode_line(b"$GPGLL,4916.45,N,12311.12,W,225444"),
        Err(DecodeError::Truncated { kind: SentenceKind::Gll, required: 7, found: 6 })
    );
    assert_eq!(
        decode_line(b"$GPVTG,054.7,T"),
        Err(DecodeError::Truncated { kind: SentenceKind::Vtg, required: 9, found: 3 })
    );
    assert_eq!(
        decode_line(b"$GPGSV,3,1"),
        Err(DecodeError::Truncated { kind: SentenceKind::Gsv, required: 4, found: 3 })
    );
}

#[test]
fn fields_behind_the_checksum_marker_do_not_count() {
    assert_eq!(
        decode_line(b"$GPGLL,4916.45,N,12311.12,W,225444*1D,A,B,C"),
        Err(DecodeError::Truncated { kind: SentenceKind::Gll, required: 7, found: 6 })
    );
}

#[test]
fn extra_fields_are_tolerated() {
    let record = decode_line(b"$GPGLL,4916.45,N,12311.12,W,225444,A,A*5C").expect("decoded");
    assert_eq!(record.kind, SentenceKind::Gll);
    assert!(record.latitude.is_some());
}

#[test]
fn wrong_checksum_still_decodes() {
    let good =
        decode_line(b"$GPGGA,123519,4807.038,N,01131.000,E,1,08,0.9,545.4,M,46.9,M,,*47");
    let bad =
        decode_line(b"$GPGGA,123519,4807.038,N,01131.000,E,1,08,0.9,545.4,M,46.9,M,,*00");
    let none = decode_line(b"$GPGGA,123519,4807.038,N,01131.000,E,1,08,0.9,545.4,M,46.9,M,,");
    assert!(good.is_ok());
    assert_eq!(good, bad);
    assert_eq!(good, none);
}

#[test]
fn recommended_minimum_decodes() {
    let record =
        decode_line(b"$GPRMC,081836,A,3751.65,S,14507.36,E,000.0,360.0,130998,011.3,E*62")
            .expect("decoded");
    assert_eq!(record.kind, SentenceKind::Rmc);
    assert_eq!(
        record.time,
        Some(TimeOfDay { hours: 8, minutes: 18, seconds: 36, nanos: 0 })
    );
    assert_eq!(record.latitude.unwrap().nanodegrees(), -37_860_833_333);
    assert_eq!(record.longitude.unwrap().nanodegrees(), 145_122_666_666);
    assert_eq!(record.speed_nano_knots, Some(0));
    assert_eq!(record.fix_quality, None);
    assert_eq!(record.satellites, None);
}

#[test]
fn geographic_position_decodes() {
    let record = decode_line(b"$GPGLL,4916.45,N,12311.12,W,225444,A").expect("decoded");
    assert_eq!(record.kind, SentenceKind::Gll);
    assert_eq!(record.latitude.unwrap().nanodegrees(), 49_274_166_666);
    assert_eq!(record.longitude.unwrap().nanodegrees(), -123_185_333_333);
    assert_eq!(
        record.time,
        Some(TimeOfDay { hours: 22, minutes: 54, seconds: 44, nanos: 0 })
    );
    assert_eq!(record.speed_nano_knots, None);
}

#[test]
fn ground_speed_decodes() {
    let record = decode_line(b"$GPVTG,054.7,T,034.4,M,005.5,N,010.2,K*48").expect("decoded");
    assert_eq!(record.kind, SentenceKind::Vtg);
    assert_eq!(record.speed_nano_knots, Some(5_500_000_000));
    assert_eq!(record.latitude, None);
    assert_eq!(record.longitude, None);
    assert_eq!(record.time, None);
}

#[test]
fn satellites_in_view_decodes() {
    let record = decode_line(
        b"$GPGSV,3,1,11,03,03,111,00,04,15,270,00,06,01,010,00,13,06,292,00*74",
    )
    .expect("decoded");
    assert_eq!(record.kind, SentenceKind::Gsv);
    assert_eq!(record.satellites, Some(11));
    assert_eq!(record.latitude, None);
}

#[test]
fn other_talkers_are_decoded_alike() {
    let record =
        decode_line(b"$GNGGA,123519,4807.038,N,01131.000,E,1,08,0.9,545.4,M,46.9,M,,")
            .expect("decoded");
    assert_eq!(record.talker, Some(TalkerId { first: b'G', second: b'N' }));
    assert_eq!(record.kind, SentenceKind::Gga);
}

#[test]
fn malformed_fields_are_absent() {
    let record =
        decode_line(b"$GPGGA,12x519,48o7.038,N,1131.000,E,9,eight,0.9,545.4,M,46.9,M,,")
            .expect("decoded");
    assert_eq!(record.time, None);
    assert_eq!(record.latitude, None);
    assert_eq!(record.longitude, None);
    assert_eq!(record.fix_quality, None);
    assert_eq!(record.satellites, None);
}

#[test]
fn classify_knows_five_types() {
    assert_eq!(classify(b"$GPGGA"), SentenceKind::Gga);
    assert_eq!(classify(b"$GPRMC"), SentenceKind::Rmc);
    assert_eq!(classify(b"$GPGLL"), SentenceKind::Gll);
    assert_eq!(classify(b"$GPVTG"), SentenceKind::Vtg);
    assert_eq!(classify(b"$GLGSV"), SentenceKind::Gsv);
    assert_eq!(classify(b"$GPGSA"), SentenceKind::Unknown);
    assert_eq!(classify(b"$GPGGAX"), SentenceKind::Unknown);
    assert_eq!(classify(b"$GPGG"), SentenceKind::Unknown);
    assert_eq!(classify(b"$GPgga"), SentenceKind::Unknown);
    assert_eq!(classify(b""), SentenceKind::Unknown);
}

#[test]
fn parse_talker_needs_two_letters() {
    assert_eq!(parse_talker(b"$GPGGA"), GP);
    assert_eq!(parse_talker(b"$GP"), GP);
    assert_eq!(parse_talker(b"$G"), None);
    assert_eq!(parse_talker(b""), None);
}

#[test]
fn layout_table_positions() {
    let gga = layout(SentenceKind::Gga);
    assert_eq!(gga.required, 15);
    assert_eq!(gga.time, Some(1));
    assert_eq!(gga.latitude, Some(2));
    assert_eq!(gga.longitude, Some(4));
    assert_eq!(gga.fix_quality, Some(6));
    assert_eq!(gga.satellites, Some(7));
    assert_eq!(gga.speed, None);
    let rmc = layout(SentenceKind::Rmc);
    assert_eq!((rmc.required, rmc.latitude, rmc.longitude, rmc.speed), (12, Some(3), Some(5), Some(7)));
    let gll = layout(SentenceKind::Gll);
    assert_eq!((gll.required, gll.latitude, gll.longitude, gll.time), (7, Some(1), Some(3), Some(5)));
    let vtg = layout(SentenceKind::Vtg);
    assert_eq!((vtg.required, vtg.speed), (9, Some(5)));
    let gsv = layout(SentenceKind::Gsv);
    assert_eq!((gsv.required, gsv.satellites), (4, Some(3)));
    let unknown = layout(SentenceKind::Unknown);
    assert_eq!(unknown.required, 1);
    assert_eq!(unknown.latitude, None);
    assert_eq!(unknown.longitude, None);
}

#[test]
fn hemisphere_letters() {
    assert_eq!(parse_hemisphere(b"N"), Some(Hemisphere::North));
    assert_eq!(parse_hemisphere(b"S"), Some(Hemisphere::South));
    assert_eq!(parse_hemisphere(b"E"), Some(Hemisphere::East));
    assert_eq!(parse_hemisphere(b"W"), Some(Hemisphere::West));
    assert_eq!(parse_hemisphere(b"n"), None);
    assert_eq!(parse_hemisphere(b""), None);
    assert_eq!(parse_hemisphere(b"NS"), None);
    assert!(!Hemisphere::North.negative());
    assert!(Hemisphere::South.negative());
    assert!(!Hemisphere::East.negative());
    assert!(Hemisphere::West.negative());
}

#[test]
fn latitude_takes_two_degree_digits_and_a_north_south_letter() {
    assert_eq!(
        parse_latitude(b"4807.038", b"N"),
        Some(Coordinate { hemisphere: Hemisphere::North, degrees: 48, nano_minutes: 7_038_000_000 })
    );
    assert_eq!(
        parse_latitude(b"0000", b"S"),
        Some(Coordinate { hemisphere: Hemisphere::South, degrees: 0, nano_minutes: 0 })
    );
    assert_eq!(parse_latitude(b"4807.038", b"E"), None);
    assert_eq!(parse_latitude(b"4807.038", b""), None);
    assert_eq!(parse_latitude(b"04807.038", b"N"), None);
    assert_eq!(parse_latitude(b"807.038", b"N"), None);
    assert_eq!(parse_latitude(b"48.07", b"N"), None);
}

#[test]
fn longitude_takes_three_degree_digits_and_an_east_west_letter() {
    assert_eq!(
        parse_longitude(b"01131.000", b"E"),
        Some(Coordinate { hemisphere: Hemisphere::East, degrees: 11, nano_minutes: 31_000_000_000 })
    );
    assert_eq!(
        parse_longitude(b"17959.9999999", b"W"),
        Some(Coordinate {
            hemisphere: Hemisphere::West,
            degrees: 179,
            nano_minutes: 59_999_999_900,
        })
    );
    assert_eq!(parse_longitude(b"01131.000", b"N"), None);
    assert_eq!(parse_longitude(b"1131.000", b"E"), None);
    assert_eq!(parse_longitude(b"001131.000", b"E"), None);
}

#[test]
fn nanodegrees_is_degrees_plus_minutes_over_sixty() {
    let c = Coordinate { hemisphere: Hemisphere::North, degrees: 10, nano_minutes: 30_000_000_000 };
    assert_eq!(c.nanodegrees(), 10_500_000_000);
    let c = Coordinate { hemisphere: Hemisphere::West, degrees: 0, nano_minutes: 59 };
    assert_eq!(c.nanodegrees(), 0);
    let c = Coordinate { hemisphere: Hemisphere::West, degrees: 0, nano_minutes: 60 };
    assert_eq!(c.nanodegrees(), -1);
    let c = Coordinate { hemisphere: Hemisphere::South, degrees: 90, nano_minutes: 0 };
    assert_eq!(c.nanodegrees(), -90_000_000_000);
    let c = Coordinate { hemisphere: Hemisphere::East, degrees: u16::MAX, nano_minutes: u64::MAX };
    assert_eq!(c.nanodegrees(), 65_535_000_000_000 + (u64::MAX / 60) as i64);
}

#[test]
fn time_of_day_is_range_checked() {
    assert_eq!(
        parse_time(b"123519"),
        Some(TimeOfDay { hours: 12, minutes: 35, seconds: 19, nanos: 0 })
    );
    assert_eq!(
        parse_time(b"235959.25"),
        Some(TimeOfDay { hours: 23, minutes: 59, seconds: 59, nanos: 250_000_000 })
    );
    assert_eq!(
        parse_time(b"000000.000"),
        Some(TimeOfDay { hours: 0, minutes: 0, seconds: 0, nanos: 0 })
    );
    assert_eq!(parse_time(b"240000"), None);
    assert_eq!(parse_time(b"126000"), None);
    assert_eq!(parse_time(b"123560"), None);
    assert_eq!(parse_time(b"12351"), None);
    assert_eq!(parse_time(b"1235190"), None);
    assert_eq!(parse_time(b""), None);
}

#[test]
fn fix_quality_digits() {
    assert_eq!(parse_fix_quality(b"0"), Some(FixQuality::Invalid));
    assert_eq!(parse_fix_quality(b"1"), Some(FixQuality::Gps));
    assert_eq!(parse_fix_quality(b"2"), Some(FixQuality::Dgps));
    assert_eq!(parse_fix_quality(b"3"), Some(FixQuality::Pps));
    assert_eq!(parse_fix_quality(b"4"), Some(FixQuality::Rtk));
    assert_eq!(parse_fix_quality(b"5"), Some(FixQuality::FloatRtk));
    assert_eq!(parse_fix_quality(b"6"), Some(FixQuality::Estimated));
    assert_eq!(parse_fix_quality(b"7"), Some(FixQuality::Manual));
    assert_eq!(parse_fix_quality(b"8"), Some(FixQuality::Simulation));
    assert_eq!(parse_fix_quality(b"9"), None);
    assert_eq!(parse_fix_quality(b""), None);
    assert_eq!(parse_fix_quality(b"01"), None);
}

#[test]
fn speed_is_in_billionths_of_a_knot() {
    assert_eq!(parse_speed(b"022.4"), Some(22_400_000_000));
    assert_eq!(parse_speed(b"0"), Some(0));
    assert_eq!(parse_speed(b"999999999.999999999"), Some(999_999_999_999_999_999));
    assert_eq!(parse_speed(b""), None);
    assert_eq!(parse_speed(b"fast"), None);
}
