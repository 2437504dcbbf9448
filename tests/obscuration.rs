use metar::obscuration::{
    nom_obscuration, Cloud, CloudCoverage, DescribedObscuration, DistanceModifier, Obscuration, Rvr,
    StatuteMilesVisibility, Trend, Visibility,
};
use metar::optional_data::OptionalData;
use metar::units::altitudes::CloudHeight;

fn run(input: &str) -> Option<(String, Obscuration)> {
    let c: Vec<char> = input.chars().collect();
    nom_obscuration(&c, 0).ok().map(|(o, q)| (c[q..].iter().collect(), o))
}

fn described(visibility: Visibility, rvr: Vec<Rvr>, clouds: Vec<Cloud>) -> Obscuration {
    Obscuration::Described(DescribedObscuration { visibility, rvr, clouds })
}

fn miles(whole: Option<u32>, fraction: Option<(u32, u32)>, modifier: Option<DistanceModifier>) -> Visibility {
    Visibility::StatuteMiles(StatuteMilesVisibility { whole, fraction, modifier })
}

#[test]
fn cavok_has_no_detail() {
    assert_eq!(run("CAVOK 25/12"), Some((" 25/12".to_string(), Obscuration::Cavok)));
}

#[test]
fn meters_visibility() {
    let expected = described(Visibility::Meters(OptionalData::Data(9999)), vec![], vec![]);
    assert_eq!(run("9999 25/12"), Some((" 25/12".to_string(), expected)));
    let missing = described(Visibility::Meters(OptionalData::Undefined), vec![], vec![]);
    assert_eq!(run("////"), Some((String::new(), missing)));
}

#[test]
fn statute_mile_forms() {
    assert_eq!(run("1/2SM"), Some((String::new(), described(miles(None, Some((1, 2)), None), vec![], vec![]))));
    assert_eq!(
        run("M1/4SM"),
        Some((String::new(), described(miles(None, Some((1, 4)), Some(DistanceModifier::LessThan)), vec![], vec![])))
    );
    assert_eq!(
        run("P6SM"),
        Some((String::new(), described(miles(Some(6), None, Some(DistanceModifier::GreaterThan)), vec![], vec![])))
    );
    assert_eq!(run("1 1/2SM"), Some((String::new(), described(miles(Some(1), Some((1, 2)), None), vec![], vec![]))));
    assert_eq!(run("10SM"), Some((String::new(), described(miles(Some(10), None, None), vec![], vec![]))));
}

#[test]
fn runway_visual_ranges_repeat() {
    let expected = described(
        Visibility::Meters(OptionalData::Data(9999)),
        vec![
            Rvr {
                runway: "24L".to_string(),
                value: OptionalData::Data(1200),
                distance_modifier: Some(DistanceModifier::GreaterThan),
                comment: Some(Trend::Increasing),
            },
            Rvr {
                runway: "06".to_string(),
                value: OptionalData::Undefined,
                distance_modifier: None,
                comment: None,
            },
        ],
        vec![],
    );
    assert_eq!(run("9999R24L/P1200UR06/////"), Some((String::new(), expected)));
}

#[test]
fn cloud_layers() {
    let expected = described(
        Visibility::Meters(OptionalData::Data(9999)),
        vec![],
        vec![Cloud {
            coverage: OptionalData::Data(CloudCoverage::Broken),
            height: OptionalData::Data(CloudHeight { height: 30 }),
            cloud_type: Some(OptionalData::Data("CB".to_string())),
        }],
    );
    assert_eq!(run("9999BKN030CB 25/12"), Some((" 25/12".to_string(), expected)));

    let two = described(
        Visibility::Meters(OptionalData::Data(8000)),
        vec![],
        vec![
            Cloud {
                coverage: OptionalData::Data(CloudCoverage::Few),
                height: OptionalData::Data(CloudHeight { height: 20 }),
                cloud_type: Some(OptionalData::Undefined),
            },
            Cloud {
                coverage: OptionalData::Undefined,
                height: OptionalData::Undefined,
                cloud_type: None,
            },
        ],
    );
    assert_eq!(run("8000FEW020/////////"), Some((String::new(), two)));
}

#[test]
fn obscuration_mismatch() {
    assert_eq!(run("XYZ"), None);
}
