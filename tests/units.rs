use metar::optional_data::OptionalData::{self, Data};
use metar::scan::ErrorKind;
use metar::units::altitudes::{nom_cloud_height, CloudHeight};
use metar::units::timestamp::{default_reference, nom_metar_timestamp, nom_metar_timestamp_with_zone, Timestamp};
use metar::units::track::{nom_track, Track};
use metar::units::velocity::{nom_velocity, VelocityUnit, WindVelocity};

fn chars(input: &str) -> Vec<char> {
    input.chars().collect()
}

fn rest(s: &[char], q: usize) -> String {
    s[q..].iter().collect()
}

fn make_test_timestamp() -> Timestamp {
    Timestamp::new(2025, 6, 28, 16, 0)
}

#[test]
fn test_north() {
    let t = chars("36040KT");
    let (track, q) = nom_track(&t, 0).unwrap();
    assert_eq!((rest(&t, q).as_str(), track), ("40KT", Track(Data(360))));
}

#[test]
fn test_calm() {
    let t = chars("00000KT");
    let (track, q) = nom_track(&t, 0).unwrap();
    assert_eq!((rest(&t, q).as_str(), track), ("00KT", Track(Data(0))));
}

#[test]
fn test_write() {
    let track = Track(Data(80));
    let output = track.to_string();
    assert_eq!(output, "080");
}

#[test]
fn track_every_heading_round_trips() {
    for t in 0u32..=360 {
        let text = format!("{:03}", t);
        let s = chars(&text);
        let (track, q) = nom_track(&s, 0).unwrap();
        assert_eq!(track, Track(Data(t)));
        assert_eq!(q, 3);
        assert_eq!(track.to_string(), text);
    }
}

#[test]
fn track_above_range_fails() {
    for t in [361u32, 400, 999] {
        let s = chars(&format!("{:03}", t));
        let e = nom_track(&s, 0).unwrap_err();
        assert_eq!(e.kind, ErrorKind::OutOfRange);
    }
}

#[test]
fn track_missing_and_malformed() {
    let s = chars("///05KT");
    assert_eq!(nom_track(&s, 0), Ok((Track(OptionalData::Undefined), 3)));
    let bad = chars("3A0");
    assert_eq!(nom_track(&bad, 0).unwrap_err().kind, ErrorKind::Mismatch);
}

fn setup_test(s: &str, v: WindVelocity) {
    let c = chars(s);
    let (velocity, q) = nom_velocity(&c, 0).unwrap();
    assert_eq!(rest(&c, q), "");
    assert_eq!(velocity.velocity, v.velocity);
    assert_eq!(velocity.unit, v.unit);
}

#[test]
fn test_knot() {
    setup_test("10KT", WindVelocity { velocity: Data(10), unit: VelocityUnit::Knots, gust: None });
}

#[test]
fn test_mps() {
    setup_test("10MPS", WindVelocity { velocity: Data(10), unit: VelocityUnit::MetersPerSecond, gust: None });
}

#[test]
fn test_invalid_input() {
    let result = nom_velocity(&chars("10XYZ"), 0);
    assert!(result.is_err());
}

#[test]
fn test_display_kt() {
    let v = WindVelocity { velocity: Data(10), unit: VelocityUnit::Knots, gust: None };
    assert_eq!(v.to_string(), "10KT");
}

#[test]
fn test_display_mps() {
    let v = WindVelocity { velocity: Data(10), unit: VelocityUnit::MetersPerSecond, gust: None };
    assert_eq!(v.to_string(), "10MPS");
}

#[test]
fn test_gust() {
    let wind = chars("13G19KT");
    let (v, q) = nom_velocity(&wind, 0).unwrap();
    assert_eq!(
        (rest(&wind, q).as_str(), v),
        ("", WindVelocity { velocity: Data(13), gust: Some(Data(19)), unit: VelocityUnit::Knots })
    );
}

#[test]
fn velocity_round_trips() {
    let cases = [
        WindVelocity { velocity: Data(7), gust: Some(Data(17)), unit: VelocityUnit::Knots },
        WindVelocity { velocity: OptionalData::Undefined, gust: None, unit: VelocityUnit::MetersPerSecond },
        WindVelocity { velocity: Data(99), gust: Some(OptionalData::Undefined), unit: VelocityUnit::Knots },
    ];
    for v in cases {
        let text = v.to_string();
        let s = chars(&text);
        assert_eq!(nom_velocity(&s, 0), Ok((v, s.len())));
    }
    assert_eq!(cases[0].to_string(), "07G17KT");
    assert_eq!(cases[1].to_string(), "//MPS");
}

#[test]
fn max_wind_speed_prefers_gust() {
    let gusty = WindVelocity { velocity: Data(13), gust: Some(Data(19)), unit: VelocityUnit::Knots };
    assert_eq!(gusty.get_max_wind_speed(), Some(19));
    let steady = WindVelocity { velocity: Data(13), gust: None, unit: VelocityUnit::Knots };
    assert_eq!(steady.get_max_wind_speed(), Some(13));
    let unknown = WindVelocity { velocity: Data(13), gust: Some(OptionalData::Undefined), unit: VelocityUnit::Knots };
    assert_eq!(unknown.get_max_wind_speed(), None);
}

#[test]
fn cloud_height_decodes_and_renders_with_unit() {
    let s = chars("020CB");
    assert_eq!(nom_cloud_height(&s, 0), Ok((Data(CloudHeight { height: 20 }), 3)));
    let m = chars("///");
    assert_eq!(nom_cloud_height(&m, 0), Ok((OptionalData::Undefined, 3)));
    assert_eq!(CloudHeight { height: 20 }.to_string(), "020FT");
    assert_eq!(CloudHeight { height: -5 }.to_string(), "-05FT");
}

#[test]
fn test_metar_timestamp() {
    let input = chars("281250Z");
    let day = make_test_timestamp();
    let expected = Timestamp::new(2025, 6, 28, 12, 50);
    assert_eq!(nom_metar_timestamp_with_zone(&input, 0, &day), Ok((expected, 7)));
}

#[test]
fn test_metar_day_before() {
    let input = chars("271250Z");
    let day = make_test_timestamp();
    let expected = Timestamp::new(2025, 6, 27, 12, 50);
    assert_eq!(nom_metar_timestamp_with_zone(&input, 0, &day), Ok((expected, 7)));
}

#[test]
fn test_metar_last_month() {
    let input = chars("291250Z");
    let day = make_test_timestamp();
    let expected = Timestamp::new(2025, 5, 29, 12, 50);
    assert_eq!(nom_metar_timestamp_with_zone(&input, 0, &day), Ok((expected, 7)));
}

#[test]
fn test_display() {
    let r = make_test_timestamp();
    let timestamp = nom_metar_timestamp_with_zone(&chars("281220Z"), 0, &r).unwrap().0;
    assert_eq!(timestamp.to_string(), "281220Z");
}

#[test]
fn timestamp_just_before_reference_stays_in_month() {
    let r = Timestamp::new(2025, 6, 28, 0, 0);
    let (t, _) = nom_metar_timestamp_with_zone(&chars("272350Z"), 0, &r).unwrap();
    assert_eq!(t, Timestamp::new(2025, 6, 27, 23, 50));
}

#[test]
fn timestamp_equal_to_reference_stays_in_month() {
    let r = Timestamp::new(2025, 6, 28, 12, 50);
    let (t, _) = nom_metar_timestamp_with_zone(&chars("281250Z"), 0, &r).unwrap();
    assert_eq!(t, Timestamp::new(2025, 6, 28, 12, 50));
}

#[test]
fn timestamp_after_january_reference_rolls_back_year() {
    let r = Timestamp::new(2025, 1, 1, 0, 30);
    let (t, _) = nom_metar_timestamp_with_zone(&chars("312350Z"), 0, &r).unwrap();
    assert_eq!(t, Timestamp::new(2024, 12, 31, 23, 50));
}

#[test]
fn timestamp_errors() {
    let r = make_test_timestamp();
    assert_eq!(nom_metar_timestamp_with_zone(&chars("281250"), 0, &r).unwrap_err().kind, ErrorKind::Mismatch);
    assert_eq!(nom_metar_timestamp_with_zone(&chars("2812A0Z"), 0, &r).unwrap_err().kind, ErrorKind::Mismatch);
    assert_eq!(nom_metar_timestamp_with_zone(&chars("282460Z"), 0, &r).unwrap_err().kind, ErrorKind::OutOfRange);
    assert_eq!(nom_metar_timestamp_with_zone(&chars("001200Z"), 0, &r).unwrap_err().kind, ErrorKind::OutOfRange);
}

#[test]
fn timestamp_round_trips_against_itself() {
    let t = Timestamp::new(2024, 2, 3, 4, 5);
    let text = t.to_string();
    assert_eq!(text, "030405Z");
    assert_eq!(nom_metar_timestamp_with_zone(&chars(&text), 0, &t), Ok((t, 7)));
}

#[test]
fn default_reference_is_a_valid_instant() {
    let r = default_reference().unwrap();
    assert!((1..=12).contains(&r.month));
    assert!((1..=31).contains(&r.day));
    assert!(r.hour <= 23 && r.minute <= 59);
    let (t, q) = nom_metar_timestamp(&chars("010000Z"), 0).unwrap();
    assert_eq!((t.day, t.hour, t.minute, q), (1, 0, 0, 7));
}

#[test]
fn velocity_takes_two_digits() {
    assert!(nom_velocity(&chars("105KT"), 0).is_err());
    assert!(nom_velocity(&chars("7KT"), 0).is_err());
    assert_eq!(nom_velocity(&chars("10G2"), 0).unwrap_err().kind, ErrorKind::Mismatch);
}

#[test]
fn timestamp_day_past_end_of_resolved_month_fails() {
    let july = Timestamp::new(2025, 7, 1, 0, 0);
    let e = nom_metar_timestamp_with_zone(&chars("311200Z"), 0, &july).unwrap_err();
    assert_eq!(e.kind, ErrorKind::OutOfRange);
    let leap = Timestamp::new(2024, 3, 1, 0, 0);
    assert_eq!(
        nom_metar_timestamp_with_zone(&chars("291200Z"), 0, &leap),
        Ok((Timestamp::new(2024, 2, 29, 12, 0), 7))
    );
    let common = Timestamp::new(2025, 3, 1, 0, 0);
    assert_eq!(nom_metar_timestamp_with_zone(&chars("291200Z"), 0, &common).unwrap_err().kind, ErrorKind::OutOfRange);
    let century = Timestamp::new(1900, 3, 1, 0, 0);
    assert!(nom_metar_timestamp_with_zone(&chars("291200Z"), 0, &century).is_err());
    let august = Timestamp::new(2025, 8, 1, 0, 0);
    assert_eq!(
        nom_metar_timestamp_with_zone(&chars("311200Z"), 0, &august),
        Ok((Timestamp::new(2025, 7, 31, 12, 0), 7))
    );
}

#[test]
fn cloud_height_field_renders_and_round_trips() {
    let missing: OptionalData<CloudHeight, 3> = OptionalData::Undefined;
    assert_eq!(missing.to_string(), "///");
    let present: OptionalData<CloudHeight, 3> = Data(CloudHeight { height: 45 });
    let text = present.to_string();
    assert_eq!(text, "045FT");
    let s = chars(&text);
    let (h, q) = nom_cloud_height(&s, 0).unwrap();
    assert_eq!((h, rest(&s, q).as_str()), (present, "FT"));
    assert_eq!(nom_cloud_height(&chars("///"), 0), Ok((missing, 3)));
}
