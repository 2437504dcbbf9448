use metar::optional_data::OptionalData;
use metar::temprature::{nom_temprature, Temprature};

fn run(input: &str) -> Result<(String, Temprature), metar::scan::DecodeError> {
    let c: Vec<char> = input.chars().collect();
    nom_temprature(&c, 0).map(|(t, q)| (c[q..].iter().collect(), t))
}

#[test]
fn temprature_test_name() {
    let input = "34/12";
    let expected = Temprature { temp: OptionalData::Data(34), dew_point: OptionalData::Data(12) };
    let result = run(input);
    assert_eq!(Ok((String::new(), expected)), result);

    let input_with_negative = "M12/M34";
    let expected_with_negative = Temprature { temp: OptionalData::Data(-12), dew_point: OptionalData::Data(-34) };
    let result_with_negative = run(input_with_negative);
    assert_eq!(Ok((String::new(), expected_with_negative)), result_with_negative);
}

#[test]
fn temprature_missing_fields() {
    let expected = Temprature { temp: OptionalData::Undefined, dew_point: OptionalData::Undefined };
    assert_eq!(run("/////"), Ok((String::new(), expected)));
    let half = Temprature { temp: OptionalData::Data(5), dew_point: OptionalData::Undefined };
    assert_eq!(run("05/// Q1013"), Ok((" Q1013".to_string(), half)));
}

#[test]
fn temprature_marker_without_digits_fails() {
    assert!(run("M/12").is_err());
    assert!(run("12-10").is_err());
}

#[test]
fn temprature_renders_and_round_trips() {
    let cases = [
        Temprature { temp: OptionalData::Data(-12), dew_point: OptionalData::Data(-34) },
        Temprature { temp: OptionalData::Data(5), dew_point: OptionalData::Undefined },
        Temprature { temp: OptionalData::Data(0), dew_point: OptionalData::Data(-1) },
    ];
    assert_eq!(cases[0].to_string(), "M12/M34");
    assert_eq!(cases[1].to_string(), "05///");
    assert_eq!(cases[2].to_string(), "00/M01");
    for t in cases {
        assert_eq!(run(&t.to_string()), Ok((String::new(), t)));
    }
}
