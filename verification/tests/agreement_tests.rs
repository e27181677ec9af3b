use nmea::sentences::FixType;
use nmea::{parse_str, ParseResult};
use nmea_framer::decoder::decode;
use nmea_framer::framer::CandidateSentence;
use nmea_framer::record::{Coordinate, DecodedRecord, FixQuality};
use nmea_framer::validator::validate;

/// Appends the checksum that the `nmea` crate insists on.
fn with_checksum(body: &str) -> String {
    let sum = body.bytes().skip(1).fold(0u8, |acc, b| acc ^ b);
    format!("{}*{:02X}", body, sum)
}

fn ours(line: &str) -> DecodedRecord {
    let sentence =
        validate(CandidateSentence::from_bytes(line.as_bytes().to_vec())).expect("accepted");
    decode(&sentence).expect("decoded")
}

fn decimal_degrees(c: Option<Coordinate>) -> Option<f64> {
    c.map(|c| c.nanodegrees() as f64 / 1e9)
}

fn close(a: Option<f64>, b: Option<f64>) -> bool {
    match (a, b) {
        (Some(a), Some(b)) => (a - b).abs() < 1e-8,
        (None, None) => true,
        _ => false,
    }
}

fn quality(fix: FixType) -> FixQuality {
    match fix {
        FixType::Invalid => FixQuality::Invalid,
        FixType::Gps => FixQuality::Gps,
        FixType::DGps => FixQuality::Dgps,
        FixType::Pps => FixQuality::Pps,
        FixType::Rtk => FixQuality::Rtk,
        FixType::FloatRtk => FixQuality::FloatRtk,
        FixType::Estimated => FixQuality::Estimated,
        FixType::Manual => FixQuality::Manual,
        FixType::Simulation => FixQuality::Simulation,
    }
}

#[test]
fn position_fix_agrees_with_nmea_crate() {
    let bodies = [
        "$GPGGA,123519,4807.038,N,01131.000,E,1,08,0.9,545.4,M,46.9,M,,",
        "$GPGGA,092750.000,5321.6802,N,00630.3372,W,1,8,1.03,61.7,M,55.2,M,,",
        "$GPGGA,133605.0,5521.75946,S,03731.93769,E,2,12,0.6,131.2,M,14.0,M,,",
        "$GNGGA,001043.00,4404.14036,N,12118.85961,W,4,12,0.98,1113.0,M,-21.3,M,,",
        "$GPGGA,172814.0,3723.46587704,N,12202.26957864,W,5,6,1.2,18.893,M,-25.669,M,2.0,0031",
        "$GPGGA,123519,,,,,0,00,,,M,,M,,",
    ];
    for body in bodies {
        let line = with_checksum(body);
        let theirs = match parse_str(&line) {
            Ok(ParseResult::GGA(gga)) => gga,
            other => panic!("nmea did not read {}: {:?}", line, other),
        };
        let record = ours(&line);
        assert!(close(decimal_degrees(record.latitude), theirs.latitude), "{}", line);
        assert!(close(decimal_degrees(record.longitude), theirs.longitude), "{}", line);
        assert_eq!(record.fix_quality, theirs.fix_type.map(quality), "{}", line);
        assert_eq!(record.satellites, theirs.fix_satellites, "{}", line);
        assert_eq!(record.time.is_some(), theirs.fix_time.is_some(), "{}", line);
    }
}

#[test]
fn recommended_minimum_agrees_with_nmea_crate() {
    let bodies = [
        "$GPRMC,081836,A,3751.65,S,14507.36,E,000.0,360.0,130998,011.3,E",
        "$GPRMC,225446.33,A,4916.45,N,12311.12,W,000.5,054.7,191194,020.3,E,A",
        "$GNRMC,001031.00,A,4404.13993,N,12118.86023,W,0.146,,100117,,,A",
    ];
    for body in bodies {
        let line = with_checksum(body);
        let theirs = match parse_str(&line) {
            Ok(ParseResult::RMC(rmc)) => rmc,
            other => panic!("nmea did not read {}: {:?}", line, other),
        };
        let record = ours(&line);
        assert!(close(decimal_degrees(record.latitude), theirs.lat), "{}", line);
        assert!(close(decimal_degrees(record.longitude), theirs.lon), "{}", line);
        let speed = record.speed_nano_knots.map(|s| s as f64 / 1e9);
        match (speed, theirs.speed_over_ground) {
            (Some(a), Some(b)) => assert!((a - f64::from(b)).abs() < 1e-4, "{}", line),
            (None, None) => {}
            other => panic!("speeds differ on {}: {:?}", line, other),
        }
    }
}

#[test]
fn geographic_position_agrees_with_nmea_crate() {
    let bodies = [
        "$GPGLL,4916.45,N,12311.12,W,225444,A,A",
        "$GPGLL,5107.0013414,N,11402.3279144,W,205412.00,A,A",
        "$GNGLL,,,,,181604.00,V,N",
    ];
    for body in bodies {
        let line = with_checksum(body);
        let theirs = match parse_str(&line) {
            Ok(ParseResult::GLL(gll)) => gll,
            other => panic!("nmea did not read {}: {:?}", line, other),
        };
        let record = ours(&line);
        assert!(close(decimal_degrees(record.latitude), theirs.latitude), "{}", line);
        assert!(close(decimal_degrees(record.longitude), theirs.longitude), "{}", line);
        assert_eq!(record.time.is_some(), theirs.fix_time.is_some(), "{}", line);
    }
}

#[test]
fn ground_speed_agrees_with_nmea_crate() {
    let line = with_checksum("$GPVTG,054.7,T,034.4,M,005.5,N,010.2,K");
    let theirs = match parse_str(&line) {
        Ok(ParseResult::VTG(vtg)) => vtg,
        other => panic!("nmea did not read {}: {:?}", line, other),
    };
    let record = ours(&line);
    let speed = record.speed_nano_knots.expect("speed present") as f64 / 1e9;
    let expected = f64::from(theirs.speed_over_ground.expect("speed present"));
    assert!((speed - expected).abs() < 1e-4);
}

#[test]
fn satellites_in_view_agrees_with_nmea_crate() {
    let line =
        with_checksum("$GPGSV,3,1,11,03,03,111,00,04,15,270,00,06,01,010,00,13,06,292,00");
    let theirs = match parse_str(&line) {
        Ok(ParseResult::GSV(gsv)) => gsv,
        other => panic!("nmea did not read {}: {:?}", line, other),
    };
    let record = ours(&line);
    assert_eq!(record.satellites, Some(u32::from(theirs.sats_in_view)));
}
