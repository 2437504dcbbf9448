use metar::metar::{nom_parse_metar, parse_metar_with_reference, parse_metars, ReportError, ReportField};
use metar::scan::ErrorKind;
use metar::obscuration::Obscuration;
use metar::optional_data::OptionalData;
use metar::pressure::{Pressure, PressureUnit};
use metar::units::timestamp::Timestamp;

fn reference() -> Timestamp {
    Timestamp::new(2025, 6, 28, 16, 0)
}

#[test]
fn report_with_remarks() {
    let line = "EDDF 281250Z AUTO 21007KT CAVOK 25/12 Q1013 NOSIG RMK TEST TEXT";
    let (rest, m) = parse_metar_with_reference(line, &reference()).unwrap();
    assert_eq!(rest, "");
    assert_eq!(m.remarks, Some("TEST TEXT".to_string()));
    assert_eq!(m.raw, line);
    assert_eq!(m.icao, "EDDF");
    assert!(m.auto);
    assert!(m.nosig);
    assert_eq!(m.timestamp, Timestamp::new(2025, 6, 28, 12, 50));
    assert_eq!(m.obscuration, Obscuration::Cavok);
    assert_eq!(m.pressure, Pressure { value: OptionalData::Data(1013), unit: PressureUnit::Hectopascals });
}

#[test]
fn remarks_stop_at_line_break() {
    let line = "EDDF 281250Z 21007KT CAVOK 25/12 Q1013 RMK A\nNEXT";
    let (rest, m) = parse_metar_with_reference(line, &reference()).unwrap();
    assert_eq!(m.remarks, Some("A".to_string()));
    assert_eq!(rest, "\nNEXT");
    assert!(!m.auto);
    assert!(!m.nosig);
}

#[test]
fn unconsumed_suffix_is_returned() {
    let line = "KJFK 281251Z 27010KT 9999 M02/M05 A2992 EXTRA";
    let (rest, m) = parse_metar_with_reference(line, &reference()).unwrap();
    assert_eq!(rest, " EXTRA");
    assert_eq!(m.remarks, None);
}

fn failure(line: &str) -> ReportError {
    parse_metar_with_reference(line, &reference()).unwrap_err()
}

fn err(field: ReportField, position: usize, kind: ErrorKind) -> ReportError {
    ReportError { field, position, kind }
}

#[test]
fn report_failures() {
    assert_eq!(failure("EDDF 281250Z 21007KT CAVOK 25/12"), err(ReportField::Pressure, 32, ErrorKind::Mismatch));
    assert_eq!(
        failure("EDDF  281250Z 21007KT CAVOK 25/12 Q1013"),
        err(ReportField::Timestamp, 5, ErrorKind::Mismatch)
    );
    assert_eq!(failure("EDD"), err(ReportField::Station, 3, ErrorKind::Mismatch));
    assert_eq!(failure("EDDF_281250Z"), err(ReportField::Timestamp, 4, ErrorKind::Mismatch));
    assert_eq!(failure("EDDF 282460Z 21007KT"), err(ReportField::Timestamp, 5, ErrorKind::OutOfRange));
    assert_eq!(failure("EDDF 281250Z 37007KT CAVOK"), err(ReportField::Wind, 13, ErrorKind::OutOfRange));
    assert_eq!(failure("EDDF 281250Z 21007XX CAVOK"), err(ReportField::Wind, 13, ErrorKind::Mismatch));
    assert_eq!(failure("EDDF 281250Z 21007KT  CAVOK"), err(ReportField::Obscuration, 21, ErrorKind::Mismatch));
    assert_eq!(failure("EDDF 281250Z 21007KT CAVOK X5/12 Q1013"), err(ReportField::Temperature, 27, ErrorKind::Mismatch));
    assert_eq!(failure("EDDF 281250Z 21007KT CAVOK 25/12 X1013"), err(ReportField::Pressure, 33, ErrorKind::Mismatch));
    assert_eq!(failure("EDDF 281250Z 21007KT CAVOK25/12 Q1013"), err(ReportField::Temperature, 26, ErrorKind::Mismatch));
}

#[test]
fn report_against_current_time() {
    let (rest, m) = nom_parse_metar("EDDF 010000Z 21007KT CAVOK 25/12 Q1013").unwrap();
    assert_eq!(rest, "");
    assert_eq!((m.timestamp.day, m.timestamp.hour, m.timestamp.minute), (1, 0, 0));
}

#[test]
fn batch_skips_empty_lines() {
    let lines = vec![
        "EDDF 281250Z 21007KT CAVOK 25/12 Q1013".to_string(),
        String::new(),
        "EDDM 281250Z 21007KT CAVOK 25/12 Q1013 X".to_string(),
    ];
    let out = parse_metars(&lines, &reference()).unwrap();
    assert_eq!(out.len(), 2);
    assert_eq!(out[0].0, "");
    assert_eq!(out[1].0, " X");
    assert_eq!(out[1].1.icao, "EDDM");
}

#[test]
fn batch_fails_on_bad_line() {
    let lines = vec![
        "EDDF 281250Z 21007KT CAVOK 25/12 Q1013".to_string(),
        "garbage".to_string(),
        "EDDF 281250Z 37007KT CAVOK 25/12 Q1013".to_string(),
    ];
    let e = parse_metars(&lines, &reference()).unwrap_err();
    assert_eq!(e, parse_metar_with_reference("garbage", &reference()).unwrap_err());
    assert_eq!(e, err(ReportField::Timestamp, 4, ErrorKind::Mismatch));
}
