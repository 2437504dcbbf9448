//! The obscuration group: `CAVOK`, or visibility, runway visual ranges and
//! cloud layers.
use vstd::prelude::*;
use crate::optional_data::{spec_optional, OptionalData};
use crate::scan::{
    agrees_view, alnum_end, alnum_run_end, char_at, fixed_at, has_tag, lift, mismatch, number_at, spec_fixed,
    spec_number, substring, tag_at, DecodeError,
};
use crate::units::altitudes::{nom_cloud_height, spec_cloud_height, CloudHeight};

verus! {

#[derive(Debug, PartialEq, Eq, Clone)]
pub enum Obscuration {
    Described(DescribedObscuration),
    Cavok,
}

#[derive(Debug, PartialEq, Eq, Clone)]
pub struct DescribedObscuration {
    pub visibility: Visibility,
    pub rvr: Vec<Rvr>,
    pub clouds: Vec<Cloud>,
}

/// A runway visual range entry.
#[derive(Debug, PartialEq, Eq, Clone)]
pub struct Rvr {
    pub runway: String,
    pub value: OptionalData<u32, 4>,
    pub distance_modifier: Option<DistanceModifier>,
    pub comment: Option<Trend>,
}

#[derive(Debug, PartialEq, Eq, Clone)]
pub enum Trend {
    Increasing,
    Decreasing,
    NoDistinctChange,
}

#[derive(Debug, PartialEq, Eq, Clone)]
pub struct Cloud {
    pub coverage: OptionalData<CloudCoverage, 3>,
    pub height: OptionalData<CloudHeight, 3>,
    pub cloud_type: Option<OptionalData<String, 3>>,
}

#[derive(Debug, PartialEq, Eq, Clone)]
pub enum CloudCoverage {
    Few,
    Scattered,
    Broken,
    Overcast,
}

#[derive(Debug, PartialEq, Eq, Clone)]
pub enum Visibility {
    Meters(OptionalData<u32, 4>),
    StatuteMiles(StatuteMilesVisibility),
}

#[derive(Debug, PartialEq, Eq, Clone)]
pub struct StatuteMilesVisibility {
    pub whole: Option<u32>,
    pub fraction: Option<(u32, u32)>,
    pub modifier: Option<DistanceModifier>,
}

#[derive(Debug, PartialEq, Eq, Clone)]
pub enum DistanceModifier {
    LessThan,
    GreaterThan,
}

pub struct RvrView {
    pub runway: Seq<char>,
    pub value: OptionalData<u32, 4>,
    pub distance_modifier: Option<DistanceModifier>,
    pub comment: Option<Trend>,
}

pub struct CloudView {
    pub coverage: OptionalData<CloudCoverage, 3>,
    pub height: OptionalData<CloudHeight, 3>,
    pub cloud_type: Option<OptionalData<Seq<char>, 3>>,
}

pub enum ObscurationView {
    Described { visibility: Visibility, rvr: Seq<RvrView>, clouds: Seq<CloudView> },
    Cavok,
}

impl View for Rvr {
    type V = RvrView;

    open spec fn view(&self) -> RvrView {
        RvrView {
            runway: self.runway@,
            value: self.value,
            distance_modifier: self.distance_modifier,
            comment: self.comment,
        }
    }
}

pub open spec fn cloud_type_view(t: Option<OptionalData<String, 3>>) -> Option<OptionalData<Seq<char>, 3>> {
    match t {
        Some(OptionalData::Data(x)) => Some(OptionalData::Data(x@)),
        Some(OptionalData::Undefined) => Some(OptionalData::Undefined),
        None => None,
    }
}

impl View for Cloud {
    type V = CloudView;

    open spec fn view(&self) -> CloudView {
        CloudView { coverage: self.coverage, height: self.height, cloud_type: cloud_type_view(self.cloud_type) }
    }
}

impl View for Obscuration {
    type V = ObscurationView;

    open spec fn view(&self) -> ObscurationView {
        match self {
            Obscuration::Cavok => ObscurationView::Cavok,
            Obscuration::Described(d) => ObscurationView::Described {
                visibility: d.visibility,
                rvr: d.rvr@.map_values(|r: Rvr| r@),
                clouds: d.clouds@.map_values(|c: Cloud| c@),
            },
        }
    }
}

/// `M` (less than) or `P` (greater than).
pub open spec fn spec_modifier(s: Seq<char>, p: int) -> Option<(DistanceModifier, int)> {
    if 0 <= p < s.len() && s[p] == 'M' {
        Some((DistanceModifier::LessThan, p + 1))
    } else if 0 <= p < s.len() && s[p] == 'P' {
        Some((DistanceModifier::GreaterThan, p + 1))
    } else {
        None
    }
}

pub open spec fn spec_opt_modifier(s: Seq<char>, p: int) -> (Option<DistanceModifier>, int) {
    match spec_modifier(s, p) {
        Some((m, q)) => (Some(m), q),
        None => (None, p),
    }
}

/// A number, `/`, a number.
pub open spec fn spec_fraction(s: Seq<char>, p: int) -> Option<((u32, u32), int)> {
    match spec_number(s, p) {
        Some((a, p1)) => if 0 <= p1 < s.len() && s[p1] == '/' {
            match spec_number(s, p1 + 1) {
                Some((b, q)) => Some(((a, b), q)),
                None => None,
            }
        } else {
            None
        },
        None => None,
    }
}

/// An optional modifier, a fraction and `SM`.
pub open spec fn spec_fraction_only(s: Seq<char>, p: int) -> Option<(StatuteMilesVisibility, int)> {
    let (m, p1) = spec_opt_modifier(s, p);
    match spec_fraction(s, p1) {
        Some((f, p2)) => if tag_at(s, p2, seq!['S', 'M']) {
            Some((StatuteMilesVisibility { whole: None, fraction: Some(f), modifier: m }, p2 + 2))
        } else {
            None
        },
        None => None,
    }
}

/// An optional space and fraction.
pub open spec fn spec_opt_fraction(s: Seq<char>, p: int) -> (Option<(u32, u32)>, int) {
    if 0 <= p < s.len() && s[p] == ' ' {
        match spec_fraction(s, p + 1) {
            Some((f, q)) => (Some(f), q),
            None => (None, p),
        }
    } else {
        (None, p)
    }
}

/// An optional modifier, a whole number, an optional space and fraction, and `SM`.
pub open spec fn spec_whole(s: Seq<char>, p: int) -> Option<(StatuteMilesVisibility, int)> {
    let (m, p1) = spec_opt_modifier(s, p);
    match spec_number(s, p1) {
        Some((w, p2)) => {
            let (f, p3) = spec_opt_fraction(s, p2);
            if tag_at(s, p3, seq!['S', 'M']) {
                Some((StatuteMilesVisibility { whole: Some(w), fraction: f, modifier: m }, p3 + 2))
            } else {
                None
            }
        },
        None => None,
    }
}

pub open spec fn spec_statute_miles(s: Seq<char>, p: int) -> Option<(StatuteMilesVisibility, int)> {
    match spec_fraction_only(s, p) {
        Some(x) => Some(x),
        None => spec_whole(s, p),
    }
}

/// Statute miles first, then `////` or four digits of meters.
pub open spec fn spec_visibility(s: Seq<char>, p: int) -> Option<(Visibility, int)> {
    match spec_statute_miles(s, p) {
        Some((v, q)) => Some((Visibility::StatuteMiles(v), q)),
        None => match spec_optional::<u32, 4>(s, p, spec_fixed(s, p, 4)) {
            Some((m, q)) => Some((Visibility::Meters(m), q)),
            None => None,
        },
    }
}

/// `D`, `U` or `N`, where one stands at `p`.
pub open spec fn spec_trend(s: Seq<char>, p: int) -> (Option<Trend>, int) {
    if 0 <= p < s.len() && s[p] == 'D' {
        (Some(Trend::Decreasing), p + 1)
    } else if 0 <= p < s.len() && s[p] == 'U' {
        (Some(Trend::Increasing), p + 1)
    } else if 0 <= p < s.len() && s[p] == 'N' {
        (Some(Trend::NoDistinctChange), p + 1)
    } else {
        (None, p)
    }
}

/// `R`, a runway name of letters and digits, `/`, an optional modifier,
/// `////` or four digits, and an optional trend.
pub open spec fn spec_rvr(s: Seq<char>, p: int) -> Option<(RvrView, int)> {
    let e = alnum_run_end(s, p + 1);
    if 0 <= p < s.len() && s[p] == 'R' && p + 1 < e && e < s.len() && s[e] == '/' {
        let (m, p2) = spec_opt_modifier(s, e + 1);
        match spec_optional::<u32, 4>(s, p2, spec_fixed(s, p2, 4)) {
            Some((v, p3)) => {
                let (t, p4) = spec_trend(s, p3);
                Some(
                    (
                        RvrView { runway: s.subrange(p + 1, e), value: v, distance_modifier: m, comment: t },
                        p4,
                    ),
                )
            },
            None => None,
        }
    } else {
        None
    }
}

/// As many entries as follow one another from `p`.
pub open spec fn spec_rvrs(s: Seq<char>, p: int) -> (Seq<RvrView>, int)
    decreases s.len() - p,
{
    match spec_rvr(s, p) {
        Some((r, q)) => if p < q <= s.len() {
            let (rest, e) = spec_rvrs(s, q);
            (seq![r] + rest, e)
        } else {
            (Seq::empty(), p)
        },
        None => (Seq::empty(), p),
    }
}

pub open spec fn spec_coverage_value(s: Seq<char>, p: int) -> Option<(CloudCoverage, int)> {
    if tag_at(s, p, seq!['F', 'E', 'W']) {
        Some((CloudCoverage::Few, p + 3))
    } else if tag_at(s, p, seq!['S', 'C', 'T']) {
        Some((CloudCoverage::Scattered, p + 3))
    } else if tag_at(s, p, seq!['B', 'K', 'N']) {
        Some((CloudCoverage::Broken, p + 3))
    } else if tag_at(s, p, seq!['O', 'V', 'C']) {
        Some((CloudCoverage::Overcast, p + 3))
    } else {
        None
    }
}

pub open spec fn spec_cloud_coverage(s: Seq<char>, p: int) -> Option<(OptionalData<CloudCoverage, 3>, int)> {
    spec_optional::<CloudCoverage, 3>(s, p, spec_coverage_value(s, p))
}

/// A run of one or more letters and digits.
pub open spec fn spec_alnum1(s: Seq<char>, p: int) -> Option<(Seq<char>, int)> {
    let e = alnum_run_end(s, p);
    if 0 <= p < e {
        Some((s.subrange(p, e), e))
    } else {
        None
    }
}

pub open spec fn spec_cloud_type(s: Seq<char>, p: int) -> Option<(OptionalData<Seq<char>, 3>, int)> {
    spec_optional::<Seq<char>, 3>(s, p, spec_alnum1(s, p))
}

/// Coverage, height, and a cloud type where one follows.
pub open spec fn spec_cloud(s: Seq<char>, p: int) -> Option<(CloudView, int)> {
    match spec_cloud_coverage(s, p) {
        Some((c, p1)) => match spec_cloud_height(s, p1) {
            Some((h, p2)) => match spec_cloud_type(s, p2) {
                Some((t, q)) => Some((CloudView { coverage: c, height: h, cloud_type: Some(t) }, q)),
                None => Some((CloudView { coverage: c, height: h, cloud_type: None }, p2)),
            },
            None => None,
        },
        None => None,
    }
}

pub open spec fn spec_clouds(s: Seq<char>, p: int) -> (Seq<CloudView>, int)
    decreases s.len() - p,
{
    match spec_cloud(s, p) {
        Some((c, q)) => if p < q <= s.len() {
            let (rest, e) = spec_clouds(s, q);
            (seq![c] + rest, e)
        } else {
            (Seq::empty(), p)
        },
        None => (Seq::empty(), p),
    }
}

pub open spec fn spec_obscuration(s: Seq<char>, p: int) -> Option<(ObscurationView, int)> {
    if tag_at(s, p, seq!['C', 'A', 'V', 'O', 'K']) {
        Some((ObscurationView::Cavok, p + 5))
    } else {
        match spec_visibility(s, p) {
            Some((v, p1)) => {
                let (rvr, p2) = spec_rvrs(s, p1);
                let (clouds, p3) = spec_clouds(s, p2);
                Some((ObscurationView::Described { visibility: v, rvr, clouds }, p3))
            },
            None => None,
        }
    }
}

fn nom_distance_modifier(s: &[char], pos: usize) -> (r: (Option<DistanceModifier>, usize))
    ensures
        (r.0, r.1 as int) == spec_opt_modifier(s@, pos as int),
{
    if char_at(s, pos, 'M') {
        (Some(DistanceModifier::LessThan), pos + 1)
    } else if char_at(s, pos, 'P') {
        (Some(DistanceModifier::GreaterThan), pos + 1)
    } else {
        (None, pos)
    }
}

fn nom_fraction(s: &[char], pos: usize) -> (r: Option<((u32, u32), usize)>)
    ensures
        lift(r) == spec_fraction(s@, pos as int),
{
    let (a, p1) = match number_at(s, pos) {
        Some(x) => x,
        None => return None,
    };
    if !char_at(s, p1, '/') {
        return None;
    }
    match number_at(s, p1 + 1) {
        Some((b, q)) => Some(((a, b), q)),
        None => None,
    }
}

fn sm_tag(s: &[char], pos: usize) -> (r: bool)
    ensures
        r == tag_at(s@, pos as int, seq!['S', 'M']),
        r ==> pos + 2 <= s@.len(),
{
    proof {
        reveal_strlit("SM");
        assert("SM"@ =~= seq!['S', 'M']);
    }
    has_tag(s, pos, "SM")
}

fn nom_statute_miles_visibility(s: &[char], pos: usize) -> (r: Option<(StatuteMilesVisibility, usize)>)
    ensures
        lift(r) == spec_statute_miles(s@, pos as int),
{
    let len = s.len();
    let (modifier, p1) = nom_distance_modifier(s, pos);
    if let Some((f, p2)) = nom_fraction(s, p1) {
        if sm_tag(s, p2) {
            return Some((StatuteMilesVisibility { whole: None, fraction: Some(f), modifier }, p2 + 2));
        }
    }
    let (w, p2) = match number_at(s, p1) {
        Some(x) => x,
        None => return None,
    };
    let (fraction, p3) = if char_at(s, p2, ' ') {
        match nom_fraction(s, p2 + 1) {
            Some((f, q)) => (Some(f), q),
            None => (None, p2),
        }
    } else {
        (None, p2)
    };
    if sm_tag(s, p3) {
        Some((StatuteMilesVisibility { whole: Some(w), fraction, modifier }, p3 + 2))
    } else {
        None
    }
}

fn nom_visibility(s: &[char], pos: usize) -> (r: Option<(Visibility, usize)>)
    ensures
        lift(r) == spec_visibility(s@, pos as int),
{
    if let Some((v, q)) = nom_statute_miles_visibility(s, pos) {
        return Some((Visibility::StatuteMiles(v), q));
    }
    if let Some((u, q)) = OptionalData::<u32, 4>::optional_field(s, pos) {
        return Some((Visibility::Meters(u), q));
    }
    match fixed_at(s, pos, 4) {
        Some((v, q)) => Some((Visibility::Meters(OptionalData::Data(v)), q)),
        None => None,
    }
}

fn nom_trend(s: &[char], pos: usize) -> (r: (Option<Trend>, usize))
    ensures
        (r.0, r.1 as int) == spec_trend(s@, pos as int),
{
    if char_at(s, pos, 'D') {
        (Some(Trend::Decreasing), pos + 1)
    } else if char_at(s, pos, 'U') {
        (Some(Trend::Increasing), pos + 1)
    } else if char_at(s, pos, 'N') {
        (Some(Trend::NoDistinctChange), pos + 1)
    } else {
        (None, pos)
    }
}

fn nom_rvr(s: &[char], pos: usize) -> (r: Option<(Rvr, usize)>)
    ensures
        match r {
            Some((v, q)) => spec_rvr(s@, pos as int) == Some((v@, q as int)),
            None => spec_rvr(s@, pos as int) is None,
        },
{
    if !char_at(s, pos, 'R') {
        return None;
    }
    let e = alnum_end(s, pos + 1);
    if !(pos + 1 < e && char_at(s, e, '/')) {
        return None;
    }
    let runway = substring(s, pos + 1, e);
    let (distance_modifier, p2) = nom_distance_modifier(s, e + 1);
    let (value, p3) = if let Some(u) = OptionalData::<u32, 4>::optional_field(s, p2) {
        u
    } else {
        match fixed_at(s, p2, 4) {
            Some((v, q)) => (OptionalData::Data(v), q),
            None => return None,
        }
    };
    let (comment, p4) = nom_trend(s, p3);
    Some((Rvr { runway, value, distance_modifier, comment }, p4))
}

fn nom_cloud_coverage(s: &[char], pos: usize) -> (r: Option<(OptionalData<CloudCoverage, 3>, usize)>)
    ensures
        lift(r) == spec_cloud_coverage(s@, pos as int),
{
    if let Some(u) = OptionalData::<CloudCoverage, 3>::optional_field(s, pos) {
        return Some(u);
    }
    proof {
        reveal_strlit("FEW");
        reveal_strlit("SCT");
        reveal_strlit("BKN");
        reveal_strlit("OVC");
        assert("FEW"@ =~= seq!['F', 'E', 'W']);
        assert("SCT"@ =~= seq!['S', 'C', 'T']);
        assert("BKN"@ =~= seq!['B', 'K', 'N']);
        assert("OVC"@ =~= seq!['O', 'V', 'C']);
    }
    let len = s.len();
    if has_tag(s, pos, "FEW") {
        assert(pos + 3 <= len);
        Some((OptionalData::Data(CloudCoverage::Few), pos + 3))
    } else if has_tag(s, pos, "SCT") {
        assert(pos + 3 <= len);
        Some((OptionalData::Data(CloudCoverage::Scattered), pos + 3))
    } else if has_tag(s, pos, "BKN") {
        assert(pos + 3 <= len);
        Some((OptionalData::Data(CloudCoverage::Broken), pos + 3))
    } else if has_tag(s, pos, "OVC") {
        assert(pos + 3 <= len);
        Some((OptionalData::Data(CloudCoverage::Overcast), pos + 3))
    } else {
        None
    }
}

fn nom_cloud_type(s: &[char], pos: usize) -> (r: Option<(OptionalData<String, 3>, usize)>)
    ensures
        match r {
            Some((t, q)) => spec_cloud_type(s@, pos as int) == Some((cloud_type_view(Some(t)).unwrap(), q as int)),
            None => spec_cloud_type(s@, pos as int) is None,
        },
{
    if let Some((_, q)) = OptionalData::<char, 3>::optional_field(s, pos) {
        return Some((OptionalData::Undefined, q));
    }
    if pos >= s.len() {
        return None;
    }
    let e = alnum_end(s, pos);
    if e == pos {
        return None;
    }
    Some((OptionalData::Data(substring(s, pos, e)), e))
}

fn nom_cloud(s: &[char], pos: usize) -> (r: Option<(Cloud, usize)>)
    ensures
        match r {
            Some((v, q)) => spec_cloud(s@, pos as int) == Some((v@, q as int)),
            None => spec_cloud(s@, pos as int) is None,
        },
{
    let (coverage, p1) = match nom_cloud_coverage(s, pos) {
        Some(x) => x,
        None => return None,
    };
    let (height, p2) = match nom_cloud_height(s, p1) {
        Ok(x) => x,
        Err(_) => return None,
    };
    match nom_cloud_type(s, p2) {
        Some((t, q)) => Some((Cloud { coverage, height, cloud_type: Some(t) }, q)),
        None => Some((Cloud { coverage, height, cloud_type: None }, p2)),
    }
}

fn nom_rvrs(s: &[char], pos: usize) -> (r: (Vec<Rvr>, usize))
    ensures
        (r.0@.map_values(|x: Rvr| x@), r.1 as int) == spec_rvrs(s@, pos as int),
{
    let mut out: Vec<Rvr> = Vec::new();
    let mut p: usize = pos;
    loop
        invariant
            spec_rvrs(s@, pos as int) == (out@.map_values(|x: Rvr| x@) + spec_rvrs(s@, p as int).0, spec_rvrs(
                s@,
                p as int,
            ).1),
        decreases s@.len() - p,
    {
        match nom_rvr(s, p) {
            Some((v, q)) => {
                if q > p && q <= s.len() {
                    proof {
                        let rest = spec_rvrs(s@, q as int);
                        assert(spec_rvrs(s@, p as int) == (seq![v@] + rest.0, rest.1));
                        assert(out@.push(v).map_values(|x: Rvr| x@) =~= out@.map_values(|x: Rvr| x@).push(v@));
                        assert(out@.map_values(|x: Rvr| x@) + (seq![v@] + rest.0) =~= out@.map_values(|x: Rvr| x@).push(v@)
                            + rest.0);
                    }
                    out.push(v);
                    p = q;
                } else {
                    proof {
                        assert(out@.map_values(|x: Rvr| x@) + Seq::<RvrView>::empty() =~= out@.map_values(|x: Rvr| x@));
                    }
                    return (out, p);
                }
            },
            None => {
                proof {
                    assert(out@.map_values(|x: Rvr| x@) + Seq::<RvrView>::empty() =~= out@.map_values(|x: Rvr| x@));
                }
                return (out, p);
            },
        }
    }
}

fn nom_clouds(s: &[char], pos: usize) -> (r: (Vec<Cloud>, usize))
    ensures
        (r.0@.map_values(|x: Cloud| x@), r.1 as int) == spec_clouds(s@, pos as int),
{
    let mut out: Vec<Cloud> = Vec::new();
    let mut p: usize = pos;
    loop
        invariant
            spec_clouds(s@, pos as int) == (out@.map_values(|x: Cloud| x@) + spec_clouds(s@, p as int).0, spec_clouds(
                s@,
                p as int,
            ).1),
        decreases s@.len() - p,
    {
        match nom_cloud(s, p) {
            Some((v, q)) => {
                if q > p && q <= s.len() {
                    proof {
                        let rest = spec_clouds(s@, q as int);
                        assert(spec_clouds(s@, p as int) == (seq![v@] + rest.0, rest.1));
                        assert(out@.push(v).map_values(|x: Cloud| x@) =~= out@.map_values(|x: Cloud| x@).push(v@));
                        assert(out@.map_values(|x: Cloud| x@) + (seq![v@] + rest.0) =~= out@.map_values(|x: Cloud| x@).push(
                            v@,
                        ) + rest.0);
                    }
                    out.push(v);
                    p = q;
                } else {
                    proof {
                        assert(out@.map_values(|x: Cloud| x@) + Seq::<CloudView>::empty() =~= out@.map_values(|x: Cloud| x@));
                    }
                    return (out, p);
                }
            },
            None => {
                proof {
                    assert(out@.map_values(|x: Cloud| x@) + Seq::<CloudView>::empty() =~= out@.map_values(|x: Cloud| x@));
                }
                return (out, p);
            },
        }
    }
}

fn nom_described_obscuration(s: &[char], pos: usize) -> (r: Option<(DescribedObscuration, usize)>)
    ensures
        match r {
            Some((d, q)) => spec_obscuration(s@, pos as int) == Some((Obscuration::Described(d)@, q as int))
                || tag_at(s@, pos as int, seq!['C', 'A', 'V', 'O', 'K']),
            None => spec_visibility(s@, pos as int) is None,
        },
        r is Some ==> (match spec_visibility(s@, pos as int) {
            Some((v, p1)) => {
                let (rvr, p2) = spec_rvrs(s@, p1);
                let (clouds, p3) = spec_clouds(s@, p2);
                Obscuration::Described(r.unwrap().0)@ == (ObscurationView::Described { visibility: v, rvr, clouds })
                    && r.unwrap().1 == p3
            },
            None => false,
        }),
{
    let (visibility, p1) = match nom_visibility(s, pos) {
        Some(x) => x,
        None => return None,
    };
    let (rvr, p2) = nom_rvrs(s, p1);
    let (clouds, p3) = nom_clouds(s, p2);
    Some((DescribedObscuration { visibility, rvr, clouds }, p3))
}

/// Decodes an obscuration group at `pos`: `CAVOK`, or the detailed form.
pub fn nom_obscuration(s: &[char], pos: usize) -> (r: Result<(Obscuration, usize), DecodeError>)
    ensures
        agrees_view(r, spec_obscuration(s@, pos as int), s@.len() as int),
        r is Err ==> r->Err_0.kind == crate::scan::ErrorKind::Mismatch,
{
    proof {
        reveal_strlit("CAVOK");
        assert("CAVOK"@ =~= seq!['C', 'A', 'V', 'O', 'K']);
    }
    if has_tag(s, pos, "CAVOK") {
        let len = s.len();
        assert(pos + 5 <= len);
        return Ok((Obscuration::Cavok, pos + 5));
    }
    match nom_described_obscuration(s, pos) {
        Some((d, q)) => Ok((Obscuration::Described(d), q)),
        None => Err(mismatch(s, pos)),
    }
}

} // verus!
