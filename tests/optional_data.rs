use metar::optional_data::OptionalData;
use metar::pressure::{nom_pressure, Pressure, PressureUnit};
use metar::scan::{DecodeError, ErrorKind};

fn chars(input: &str) -> Vec<char> {
    input.chars().collect()
}

#[test]
fn test_format() {
    let data = OptionalData::<_, 3>::new(42);
    assert_eq!(data.to_string(), "042");

    let undefined: OptionalData<u32, 3> = OptionalData::Undefined;
    assert_eq!(undefined.to_string(), "///");
}

#[test]
fn optional_to_option() {
    let data = OptionalData::<u32, 2>::new(7);
    assert_eq!(data.to_option(), Some(7));
    let undefined: OptionalData<u32, 2> = OptionalData::Undefined;
    assert_eq!(undefined.to_option(), None);
    let converted: Option<u32> = Option::from(OptionalData::<u32, 4>::Data(1013));
    assert_eq!(converted, Some(1013));
}

#[test]
fn optional_field_recognizes_exact_placeholder_run() {
    let s = chars("////Q");
    let r = OptionalData::<u32, 4>::optional_field(&s, 0);
    assert_eq!(r, Some((OptionalData::Undefined, 4)));
    let short = chars("///1");
    assert_eq!(OptionalData::<u32, 4>::optional_field(&short, 0), None);
}

#[test]
fn optional_wider_value_keeps_all_digits() {
    let data = OptionalData::<u32, 2>::new(123);
    assert_eq!(data.to_string(), "123");
}

#[test]
fn pressure_missing_value_round_trips_text() {
    let s = chars("Q////");
    let (p, q) = nom_pressure(&s, 0).unwrap();
    assert_eq!(p, Pressure { value: OptionalData::Undefined, unit: PressureUnit::Hectopascals });
    assert_eq!(q, 5);
    assert_eq!(p.value.to_string(), "////");
}

#[test]
fn pressure_inches_of_mercury() {
    let s = chars("A2992 NOSIG");
    let (p, q) = nom_pressure(&s, 0).unwrap();
    assert_eq!(p, Pressure { value: OptionalData::Data(2992), unit: PressureUnit::InchesOfMercury });
    assert_eq!(q, 5);
    assert_eq!(p.value.to_string(), "2992");
}

#[test]
fn pressure_three_placeholders_fail() {
    let s = chars("Q///");
    let r = nom_pressure(&s, 0);
    assert_eq!(r, Err(DecodeError { position: 1, kind: ErrorKind::Mismatch }));
}

#[test]
fn pressure_renders_and_round_trips() {
    let cases = [
        Pressure { value: OptionalData::Data(1013), unit: PressureUnit::Hectopascals },
        Pressure { value: OptionalData::Data(992), unit: PressureUnit::Hectopascals },
        Pressure { value: OptionalData::Undefined, unit: PressureUnit::InchesOfMercury },
    ];
    assert_eq!(cases[0].to_string(), "Q1013");
    assert_eq!(cases[1].to_string(), "Q0992");
    assert_eq!(cases[2].to_string(), "A////");
    for p in cases {
        let s = chars(&p.to_string());
        assert_eq!(nom_pressure(&s, 0), Ok((p, 5)));
    }
}
