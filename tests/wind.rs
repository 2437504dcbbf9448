use metar::optional_data::OptionalData::Data;
use metar::units::track::Track;
use metar::units::velocity::{VelocityUnit, WindVelocity};
use metar::wind::{nom_wind, Wind, WindDirection};

fn setup_test(s: &str, w: Wind) {
    let c: Vec<char> = s.chars().collect();
    let result = nom_wind(&c, 0);
    assert_eq!(Ok((w, c.len())), result);
}

#[test]
fn test_parse() {
    let t = "21007G17KT 160V270";
    let expected = Wind {
        dir: WindDirection::Heading(Track(Data(210))),
        speed: WindVelocity { velocity: Data(7), gust: Some(Data(17)), unit: VelocityUnit::Knots },
        varying: Some((Track(Data(160)), Track(Data(270)))),
    };
    setup_test(t, expected);
}

#[test]
fn test_parse_variable_wind() {
    let t = "VRB03MPS";
    let expected = Wind {
        dir: WindDirection::Variable,
        speed: WindVelocity { velocity: Data(3), gust: None, unit: VelocityUnit::MetersPerSecond },
        varying: None,
    };
    setup_test(t, expected);
}

#[test]
fn test_parse_variable_wind_with_varying() {
    let t = "VRB03MPS 160V270";
    let expected = Wind {
        dir: WindDirection::Variable,
        speed: WindVelocity { velocity: Data(3), gust: None, unit: VelocityUnit::MetersPerSecond },
        varying: Some((Track(Data(160)), Track(Data(270)))),
    };
    setup_test(t, expected);
}

#[test]
fn test_parse_heading_wind() {
    let t = "27010KT";
    let expected = Wind {
        dir: WindDirection::Heading(Track(Data(270))),
        speed: WindVelocity { velocity: Data(10), gust: None, unit: VelocityUnit::Knots },
        varying: None,
    };
    setup_test(t, expected);
}

#[test]
fn test_wind_calm() {
    let t = "00000KT";
    let expected = Wind {
        dir: WindDirection::Heading(Track(Data(0))),
        speed: WindVelocity { velocity: Data(0), gust: None, unit: VelocityUnit::Knots },
        varying: None,
    };
    setup_test(t, expected);
}

#[test]
fn wind_without_variation_leaves_following_group() {
    let c: Vec<char> = "27010KT 9999".chars().collect();
    let (w, q) = nom_wind(&c, 0).unwrap();
    assert_eq!(w.varying, None);
    assert_eq!(q, 7);
}

#[test]
fn wind_out_of_range_heading_fails() {
    let c: Vec<char> = "37010KT".chars().collect();
    assert!(nom_wind(&c, 0).is_err());
}

#[test]
fn wind_renders_and_round_trips() {
    let w = Wind {
        dir: WindDirection::Heading(Track(Data(210))),
        speed: WindVelocity { velocity: Data(7), gust: Some(Data(17)), unit: VelocityUnit::Knots },
        varying: Some((Track(Data(160)), Track(Data(270)))),
    };
    assert_eq!(w.to_string(), "21007G17KT 160V270");
    let v = Wind {
        dir: WindDirection::Variable,
        speed: WindVelocity { velocity: Data(3), gust: None, unit: VelocityUnit::MetersPerSecond },
        varying: None,
    };
    assert_eq!(v.to_string(), "VRB03MPS");
    for x in [w, v] {
        let c: Vec<char> = x.to_string().chars().collect();
        assert_eq!(nom_wind(&c, 0), Ok((x, c.len())));
    }
}
