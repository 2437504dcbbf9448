//! Whole reports: the groups in their fixed order, the optional markers, and
//! free-text remarks.
use vstd::prelude::*;
use crate::obscuration::{nom_obscuration, spec_obscuration, Obscuration, ObscurationView};
use crate::pressure::{nom_pressure, spec_pressure, Pressure};
use crate::scan::{char_at, has_tag, lemma_concat3, substring, tag_at, ErrorKind};
use crate::temprature::{nom_temprature, spec_temprature, Temprature};
use crate::units::timestamp::{
    default_reference, nom_metar_timestamp_with_zone, spec_timestamp, time_out_of_range, Timestamp,
};
use crate::wind::{nom_wind, spec_wind, wind_out_of_range, Wind};

verus! {

#[derive(Debug, Clone)]
pub struct Metar {
    pub raw: String,
    pub icao: String,
    pub timestamp: Timestamp,
    pub auto: bool,
    pub wind: Wind,
    pub obscuration: Obscuration,
    pub temprature: Temprature,
    pub pressure: Pressure,
    pub nosig: bool,
    pub remarks: Option<String>,
}

pub struct MetarView {
    pub raw: Seq<char>,
    pub icao: Seq<char>,
    pub timestamp: Timestamp,
    pub auto: bool,
    pub wind: Wind,
    pub obscuration: ObscurationView,
    pub temprature: Temprature,
    pub pressure: Pressure,
    pub nosig: bool,
    pub remarks: Option<Seq<char>>,
}

impl View for Metar {
    type V = MetarView;

    open spec fn view(&self) -> MetarView {
        MetarView {
            raw: self.raw@,
            icao: self.icao@,
            timestamp: self.timestamp,
            auto: self.auto,
            wind: self.wind,
            obscuration: self.obscuration@,
            temprature: self.temprature,
            pressure: self.pressure,
            nosig: self.nosig,
            remarks: match self.remarks {
                Some(x) => Some(x@),
                None => None,
            },
        }
    }
}

pub open spec fn space_at(s: Seq<char>, p: int) -> bool {
    0 <= p < s.len() && s[p] == ' '
}

/// The first line break at or after `p`, or the end of the text.
pub open spec fn line_end(s: Seq<char>, p: int) -> int
    decreases s.len() - p,
{
    if 0 <= p < s.len() && s[p] != '\n' {
        line_end(s, p + 1)
    } else {
        p
    }
}

pub open spec fn auto_tag() -> Seq<char> {
    seq![' ', 'A', 'U', 'T', 'O']
}

pub open spec fn nosig_tag() -> Seq<char> {
    seq![' ', 'N', 'O', 'S', 'I', 'G']
}

pub open spec fn remarks_tag() -> Seq<char> {
    seq![' ', 'R', 'M', 'K', ' ']
}

/// The trailing markers after the pressure group at `p`: ` NOSIG`, then
/// ` RMK ` and the rest of the line.
pub open spec fn spec_trailer(s: Seq<char>, p: int) -> (bool, Option<Seq<char>>, int) {
    let (nosig, p1) = if tag_at(s, p, nosig_tag()) {
        (true, p + 6)
    } else {
        (false, p)
    };
    if tag_at(s, p1, remarks_tag()) {
        (nosig, Some(s.subrange(p1 + 5, line_end(s, p1 + 5))), line_end(s, p1 + 5))
    } else {
        (nosig, None, p1)
    }
}

/// The group of a report in which decoding failed.
#[derive(Debug, Clone, Copy, PartialEq, Eq)]
pub enum ReportField {
    Station,
    Timestamp,
    Wind,
    Obscuration,
    Temperature,
    Pressure,
}

/// A report that does not decode: the group that failed, the position (in
/// characters) where that group, or the space before it, should stand, and
/// the nature of the failure.
#[derive(Debug, Clone, Copy, PartialEq, Eq)]
pub struct ReportError {
    pub field: ReportField,
    pub position: usize,
    pub kind: ErrorKind,
}

pub open spec fn report_error(field: ReportField, position: int, kind: ErrorKind) -> ReportError {
    ReportError { field, position: position as usize, kind }
}

pub open spec fn kind_if(out_of_range: bool) -> ErrorKind {
    if out_of_range {
        ErrorKind::OutOfRange
    } else {
        ErrorKind::Mismatch
    }
}

/// A report decoded from the start of `s` against the reference `r`, and the
/// position where decoding stopped; or the first group that fails, where it
/// stands, and why.
pub open spec fn spec_metar(s: Seq<char>, r: Timestamp) -> Result<(MetarView, int), ReportError> {
    if s.len() < 4 {
        Err(report_error(ReportField::Station, s.len() as int, ErrorKind::Mismatch))
    } else if !space_at(s, 4) {
        Err(report_error(ReportField::Timestamp, 4, ErrorKind::Mismatch))
    } else {
        match spec_timestamp(s, 5, r) {
            None => Err(report_error(ReportField::Timestamp, 5, kind_if(time_out_of_range(s, 5, r)))),
            Some((timestamp, p1)) => {
                let (auto, p2) = if tag_at(s, p1, auto_tag()) {
                    (true, p1 + 5)
                } else {
                    (false, p1)
                };
                if !space_at(s, p2) {
                    Err(report_error(ReportField::Wind, p2, ErrorKind::Mismatch))
                } else {
                    match spec_wind(s, p2 + 1) {
                        None => Err(report_error(ReportField::Wind, p2 + 1, kind_if(wind_out_of_range(s, p2 + 1)))),
                        Some((wind, p3)) => if !space_at(s, p3) {
                            Err(report_error(ReportField::Obscuration, p3, ErrorKind::Mismatch))
                        } else {
                            match spec_obscuration(s, p3 + 1) {
                                None => Err(report_error(ReportField::Obscuration, p3 + 1, ErrorKind::Mismatch)),
                                Some((obscuration, p4)) => if !space_at(s, p4) {
                                    Err(report_error(ReportField::Temperature, p4, ErrorKind::Mismatch))
                                } else {
                                    match spec_temprature(s, p4 + 1) {
                                        None => Err(report_error(ReportField::Temperature, p4 + 1, ErrorKind::Mismatch)),
                                        Some((temprature, p5)) => if !space_at(s, p5) {
                                            Err(report_error(ReportField::Pressure, p5, ErrorKind::Mismatch))
                                        } else {
                                            match spec_pressure(s, p5 + 1) {
                                                None => Err(report_error(ReportField::Pressure, p5 + 1, ErrorKind::Mismatch)),
                                                Some((pressure, p6)) => {
                                                    let (nosig, remarks, q) = spec_trailer(s, p6);
                                                    Ok(
                                                        (
                                                            MetarView {
                                                                raw: s,
                                                                icao: s.subrange(0, 4),
                                                                timestamp,
                                                                auto,
                                                                wind,
                                                                obscuration,
                                                                temprature,
                                                                pressure,
                                                                nosig,
                                                                remarks,
                                                            },
                                                            q,
                                                        ),
                                                    )
                                                },
                                            }
                                        },
                                    }
                                },
                            }
                        },
                    }
                }
            },
        }
    }
}

/// `r` is what decoding the text `s` against `rf` gives: the report and the
/// text after the point where decoding stopped, or the error of the first
/// group that fails.
pub open spec fn decodes_to(s: Seq<char>, rf: Timestamp, r: Result<(Seq<char>, MetarView), ReportError>) -> bool {
    match spec_metar(s, rf) {
        Ok((m, q)) => r == Ok::<(Seq<char>, MetarView), ReportError>((s.subrange(q, s.len() as int), m)),
        Err(e) => r == Err::<(Seq<char>, MetarView), ReportError>(e),
    }
}

pub open spec fn result_view<'a>(r: Result<(&'a str, Metar), ReportError>) -> Result<(Seq<char>, MetarView), ReportError> {
    match r {
        Ok((rest, m)) => Ok((rest@, m@)),
        Err(e) => Err(e),
    }
}

/// The characters of `input`, in order.
pub fn chars_of(input: &str) -> (r: Vec<char>)
    ensures
        r@ == input@,
{
    let n = input.unicode_len();
    let mut out: Vec<char> = Vec::new();
    let mut i: usize = 0;
    while i < n
        invariant
            n == input@.len(),
            i <= n,
            out@ == input@.subrange(0, i as int),
        decreases n - i,
    {
        out.push(input.get_char(i));
        i = i + 1;
        proof {
            assert(out@ =~= input@.subrange(0, i as int));
        }
    }
    assert(out@ =~= input@);
    out
}

fn space(s: &[char], pos: usize) -> (r: bool)
    ensures
        r == space_at(s@, pos as int),
        r ==> pos < s@.len(),
{
    char_at(s, pos, ' ')
}

fn find_line_end(s: &[char], pos: usize) -> (r: usize)
    requires
        pos <= s@.len(),
    ensures
        r as int == line_end(s@, pos as int),
        pos <= r <= s@.len(),
{
    let mut i: usize = pos;
    while i < s.len() && s[i] != '\n'
        invariant
            pos <= i <= s@.len(),
            line_end(s@, pos as int) == line_end(s@, i as int),
        decreases s@.len() - i,
    {
        i = i + 1;
    }
    i
}

/// Decodes the markers that may follow the pressure group.
fn nom_trailer(s: &[char], pos: usize) -> (r: (bool, Option<String>, usize))
    requires
        pos <= s@.len(),
    ensures
        ({
            let (nosig, remarks, q) = spec_trailer(s@, pos as int);
            r.0 == nosig && r.2 == q && match r.1 {
                Some(x) => remarks == Some(x@),
                None => remarks is None,
            }
        }),
        r.2 <= s@.len(),
{
    proof {
        reveal_strlit(" NOSIG");
        reveal_strlit(" RMK ");
        assert(" NOSIG"@ =~= nosig_tag());
        assert(" RMK "@ =~= remarks_tag());
    }
    let len = s.len();
    let (nosig, p1) = if has_tag(s, pos, " NOSIG") {
        (true, pos + 6)
    } else {
        (false, pos)
    };
    if has_tag(s, p1, " RMK ") {
        let e = find_line_end(s, p1 + 5);
        (nosig, Some(substring(s, p1 + 5, e)), e)
    } else {
        (nosig, None, p1)
    }
}

proof fn lemma_line_end_no_break(s: Seq<char>, i: int)
    requires
        0 <= i <= s.len(),
        forall|k: int| i <= k < s.len() ==> s[k] != '\n',
    ensures
        line_end(s, i) == s.len(),
    decreases s.len() - i,
{
    if i < s.len() {
        lemma_line_end_no_break(s, i + 1);
    }
}

/// Remarks after the pressure group: where ` RMK ` and a text without line
/// breaks follow the position `head.len()` at which the pressure group ended,
/// the trailer has no ` NOSIG`, carries that text verbatim as the remarks, and
/// ends decoding at the end of the line.
pub proof fn lemma_remarks_trailer(head: Seq<char>, text: Seq<char>)
    requires
        forall|k: int| 0 <= k < text.len() ==> text[k] != '\n',
    ensures
        spec_trailer(head + remarks_tag() + text, head.len() as int) == (
            false,
            Some(text),
            (head + remarks_tag() + text).len() as int,
        ),
{
    let s = head + remarks_tag() + text;
    let p = head.len() as int;
    lemma_concat3(head, remarks_tag(), text);
    assert(s[p + 1] == 'R');
    assert(!tag_at(s, p, nosig_tag())) by {
        if tag_at(s, p, nosig_tag()) {
            assert(s.subrange(p, p + 6)[1] == s[p + 1]);
        }
    }
    assert(tag_at(s, p, remarks_tag()));
    assert forall|k: int| p + 5 <= k < s.len() implies s[k] != '\n' by {
        assert(s[k] == text[k - p - 5]);
    }
    lemma_line_end_no_break(s, p + 5);
}

/// Decodes one report from the start of `s` against `reference`, giving the
/// report and the position where decoding stopped.
pub fn decode_report(s: &[char], reference: &Timestamp) -> (r: Result<(Metar, usize), ReportError>)
    requires
        reference.wf(),
        reference.year > i32::MIN,
    ensures
        match spec_metar(s@, *reference) {
            Ok((m, q)) => r is Ok && r.unwrap().0@ == m && r.unwrap().1 == q && q <= s@.len(),
            Err(e) => r == Err::<(Metar, usize), ReportError>(e),
        },
{
    let len = s.len();
    if len < 4 {
        return Err(ReportError { field: ReportField::Station, position: len, kind: ErrorKind::Mismatch });
    }
    if !space(s, 4) {
        return Err(ReportError { field: ReportField::Timestamp, position: 4, kind: ErrorKind::Mismatch });
    }
    let (timestamp, p1) = match nom_metar_timestamp_with_zone(s, 5, reference) {
        Ok(x) => x,
        Err(e) => return Err(ReportError { field: ReportField::Timestamp, position: 5, kind: e.kind }),
    };
    proof {
        reveal_strlit(" AUTO");
        assert(" AUTO"@ =~= auto_tag());
    }
    let (auto, p2) = if has_tag(s, p1, " AUTO") {
        (true, p1 + 5)
    } else {
        (false, p1)
    };
    if !space(s, p2) {
        return Err(ReportError { field: ReportField::Wind, position: p2, kind: ErrorKind::Mismatch });
    }
    let (wind, p3) = match nom_wind(s, p2 + 1) {
        Ok(x) => x,
        Err(e) => return Err(ReportError { field: ReportField::Wind, position: p2 + 1, kind: e.kind }),
    };
    if !space(s, p3) {
        return Err(ReportError { field: ReportField::Obscuration, position: p3, kind: ErrorKind::Mismatch });
    }
    let (obscuration, p4) = match nom_obscuration(s, p3 + 1) {
        Ok(x) => x,
        Err(e) => return Err(ReportError { field: ReportField::Obscuration, position: p3 + 1, kind: e.kind }),
    };
    if !space(s, p4) {
        return Err(ReportError { field: ReportField::Temperature, position: p4, kind: ErrorKind::Mismatch });
    }
    let (temprature, p5) = match nom_temprature(s, p4 + 1) {
        Ok(x) => x,
        Err(e) => return Err(ReportError { field: ReportField::Temperature, position: p4 + 1, kind: e.kind }),
    };
    if !space(s, p5) {
        return Err(ReportError { field: ReportField::Pressure, position: p5, kind: ErrorKind::Mismatch });
    }
    let (pressure, p6) = match nom_pressure(s, p5 + 1) {
        Ok(x) => x,
        Err(e) => return Err(ReportError { field: ReportField::Pressure, position: p5 + 1, kind: e.kind }),
    };
    let (nosig, remarks, q) = nom_trailer(s, p6);
    let icao = substring(s, 0, 4);
    let raw = substring(s, 0, len);
    assert(s@.subrange(0, len as int) =~= s@);
    let m = Metar { raw, icao, timestamp, auto, wind, obscuration, temprature, pressure, nosig, remarks };
    Ok((m, q))
}

/// Decodes one report line against `reference`: the text left after the
/// report, and the report.
pub fn parse_metar_with_reference<'a>(input: &'a str, reference: &Timestamp) -> (r: Result<
    (&'a str, Metar),
    ReportError,
>)
    requires
        reference.wf(),
        reference.year > i32::MIN,
    ensures
        decodes_to(input@, *reference, result_view(r)),
{
    let s = chars_of(input);
    match decode_report(s.as_slice(), reference) {
        Ok((m, q)) => {
            let n = s.len();
            let rest = input.substring_char(q, n);
            Ok((rest, m))
        },
        Err(e) => Err(e),
    }
}

/// Decodes one report line against the default reference (the current time
/// plus one hour); where the clock cannot be read it fails with
/// `ClockUnavailable` at position 0.
pub fn nom_parse_metar(input: &str) -> (r: Result<(&str, Metar), ReportError>)
    ensures
        r == Err::<(&str, Metar), ReportError>(
            ReportError { field: ReportField::Timestamp, position: 0, kind: ErrorKind::ClockUnavailable },
        ) || exists|rf: Timestamp| rf.wf() && rf.year > i32::MIN && decodes_to(input@, rf, result_view(r)),
{
    match default_reference() {
        Some(reference) => {
            let r = parse_metar_with_reference(input, &reference);
            assert(reference.wf() && reference.year > i32::MIN && decodes_to(input@, reference, result_view(r)));
            r
        },
        None => Err(ReportError { field: ReportField::Timestamp, position: 0, kind: ErrorKind::ClockUnavailable }),
    }
}

/// The reports of a batch of lines, with the text left after each; empty lines
/// are passed over, and the batch fails with the error of the first line that
/// does not decode.
pub open spec fn spec_batch(ls: Seq<Seq<char>>, rf: Timestamp) -> Result<Seq<(Seq<char>, MetarView)>, ReportError>
    decreases ls.len(),
{
    if ls.len() == 0 {
        Ok(Seq::empty())
    } else {
        match spec_batch(ls.drop_last(), rf) {
            Ok(acc) => {
                let l = ls.last();
                if l.len() == 0 {
                    Ok(acc)
                } else {
                    match spec_metar(l, rf) {
                        Ok((m, q)) => Ok(acc.push((l.subrange(q, l.len() as int), m))),
                        Err(e) => Err(e),
                    }
                }
            },
            Err(e) => Err(e),
        }
    }
}

pub open spec fn lines_view(lines: Seq<String>) -> Seq<Seq<char>> {
    lines.map_values(|l: String| l@)
}

pub open spec fn pairs_view(v: Seq<(String, Metar)>) -> Seq<(Seq<char>, MetarView)> {
    v.map_values(|x: (String, Metar)| (x.0@, x.1@))
}

/// Once a prefix of the lines fails, the whole batch fails with that error.
proof fn lemma_batch_fails_on(ls: Seq<Seq<char>>, rf: Timestamp, i: int, e: ReportError)
    requires
        0 <= i <= ls.len(),
        spec_batch(ls.take(i), rf) == Err::<Seq<(Seq<char>, MetarView)>, ReportError>(e),
    ensures
        spec_batch(ls, rf) == Err::<Seq<(Seq<char>, MetarView)>, ReportError>(e),
    decreases ls.len() - i,
{
    if i < ls.len() {
        assert(ls.take(i + 1).drop_last() =~= ls.take(i));
        lemma_batch_fails_on(ls, rf, i + 1, e);
    } else {
        assert(ls.take(i) =~= ls);
    }
}

/// Decodes each non-empty line against `reference`, in order, stopping at the
/// first line that does not decode.
pub fn parse_metars(lines: &Vec<String>, reference: &Timestamp) -> (r: Result<Vec<(String, Metar)>, ReportError>)
    requires
        reference.wf(),
        reference.year > i32::MIN,
    ensures
        match spec_batch(lines_view(lines@), *reference) {
            Ok(v) => r is Ok && pairs_view(r.unwrap()@) == v,
            Err(e) => r == Err::<Vec<(String, Metar)>, ReportError>(e),
        },
{
    let ghost ls = lines_view(lines@);
    let mut out: Vec<(String, Metar)> = Vec::new();
    let mut i: usize = 0;
    assert(ls.take(0) =~= Seq::<Seq<char>>::empty());
    assert(pairs_view(out@) =~= Seq::<(Seq<char>, MetarView)>::empty());
    while i < lines.len()
        invariant
            i <= lines@.len(),
            ls == lines_view(lines@),
            spec_batch(ls.take(i as int), *reference) == Ok::<Seq<(Seq<char>, MetarView)>, ReportError>(
                pairs_view(out@),
            ),
            reference.wf(),
            reference.year > i32::MIN,
        decreases lines@.len() - i,
    {
        let line = lines[i].as_str();
        proof {
            assert(ls.take(i + 1).drop_last() =~= ls.take(i as int));
            assert(ls.take(i + 1).last() == lines@[i as int]@);
        }
        if line.unicode_len() != 0 {
            match parse_metar_with_reference(line, reference) {
                Ok((rest, m)) => {
                    let rest_owned = rest.to_owned();
                    proof {
                        assert(pairs_view(out@.push((rest_owned, m))) =~= pairs_view(out@).push((rest_owned@, m@)));
                    }
                    out.push((rest_owned, m));
                },
                Err(e) => {
                    proof {
                        lemma_batch_fails_on(ls, *reference, i + 1, e);
                    }
                    return Err(e);
                },
            }
        }
        i = i + 1;
    }
    assert(ls.take(i as int) =~= ls);
    Ok(out)
}

} // verus!
