//! The wind group: direction, speed, and an optional range of variation.
use vstd::prelude::*;
use crate::scan::{agrees, char_at, has_tag, lemma_concat3, tag_at, DecodeError, ErrorKind};
use crate::units::track::{lemma_track_at, lemma_track_round_trip, nom_track, spec_track, track_out_of_range, Track};
use crate::units::velocity::{lemma_velocity_at, nom_velocity, spec_velocity, WindVelocity};

verus! {

#[derive(Debug, PartialEq, Eq, Clone)]
pub struct Wind {
    pub dir: WindDirection,
    pub speed: WindVelocity,
    pub varying: Option<(Track, Track)>,
}

#[derive(Debug, PartialEq, Eq, Clone)]
pub enum WindDirection {
    Heading(Track),
    Variable,
}

pub open spec fn direction_text(d: WindDirection) -> Seq<char> {
    match d {
        WindDirection::Variable => seq!['V', 'R', 'B'],
        WindDirection::Heading(t) => t.render(),
    }
}

pub open spec fn varying_text(v: Option<(Track, Track)>) -> Seq<char> {
    match v {
        Some((a, b)) => seq![' '] + a.render() + seq!['V'] + b.render(),
        None => Seq::empty(),
    }
}

impl Wind {
    /// Every heading in the group lies within 0 to 360 degrees.
    pub open spec fn wf(&self) -> bool {
        self.speed.wf() && (match self.dir {
            WindDirection::Heading(t) => t.wf(),
            WindDirection::Variable => true,
        }) && (match self.varying {
            Some((a, b)) => a.wf() && b.wf(),
            None => true,
        })
    }

    /// Direction, speed, and the range of variation after a space.
    pub open spec fn render(&self) -> Seq<char> {
        direction_text(self.dir) + self.speed.render() + varying_text(self.varying)
    }

    /// The group as written in a report, such as `21007G17KT 160V270`.
    pub fn to_string(&self) -> (r: String)
        ensures
            r@ == self.render(),
    {
        let mut out: Vec<char> = Vec::new();
        match &self.dir {
            WindDirection::Variable => {
                out.push('V');
                out.push('R');
                out.push('B');
            },
            WindDirection::Heading(t) => t.render_into(&mut out),
        }
        self.speed.render_into(&mut out);
        if let Some((a, b)) = &self.varying {
            out.push(' ');
            a.render_into(&mut out);
            out.push('V');
            b.render_into(&mut out);
        }
        assert(out@ =~= self.render());
        crate::optional_data::string_of(&out)
    }
}

/// `VRB`, or a heading.
pub open spec fn spec_wind_direction(s: Seq<char>, p: int) -> Option<(WindDirection, int)> {
    if tag_at(s, p, seq!['V', 'R', 'B']) {
        Some((WindDirection::Variable, p + 3))
    } else {
        match spec_track(s, p) {
            Some((t, q)) => Some((WindDirection::Heading(t), q)),
            None => None,
        }
    }
}

/// The group starts with three digits for a heading above 360.
pub open spec fn wind_out_of_range(s: Seq<char>, p: int) -> bool {
    !tag_at(s, p, seq!['V', 'R', 'B']) && track_out_of_range(s, p)
}

/// A space, a heading, `V` and a heading.
pub open spec fn spec_varying(s: Seq<char>, p: int) -> Option<((Track, Track), int)> {
    if 0 <= p < s.len() && s[p] == ' ' {
        match spec_track(s, p + 1) {
            Some((a, q1)) => if 0 <= q1 < s.len() && s[q1] == 'V' {
                match spec_track(s, q1 + 1) {
                    Some((b, q2)) => Some(((a, b), q2)),
                    None => None,
                }
            } else {
                None
            },
            None => None,
        }
    } else {
        None
    }
}

/// Direction and speed, then the range of variation where one follows.
pub open spec fn spec_wind(s: Seq<char>, p: int) -> Option<(Wind, int)> {
    match spec_wind_direction(s, p) {
        Some((dir, p1)) => match spec_velocity(s, p1) {
            Some((speed, p2)) => match spec_varying(s, p2) {
                Some((v, q)) => Some((Wind { dir, speed, varying: Some(v) }, q)),
                None => Some((Wind { dir, speed, varying: None }, p2)),
            },
            None => None,
        },
        None => None,
    }
}

pub fn nom_variable_wind(s: &[char], pos: usize) -> (r: bool)
    ensures
        r == tag_at(s@, pos as int, seq!['V', 'R', 'B']),
{
    proof {
        reveal_strlit("VRB");
        assert("VRB"@ =~= seq!['V', 'R', 'B']);
    }
    has_tag(s, pos, "VRB")
}

pub fn nom_heading(s: &[char], pos: usize) -> (r: Result<(WindDirection, usize), DecodeError>)
    ensures
        r is Err ==> r->Err_0.kind != ErrorKind::ClockUnavailable,
        r is Err ==> (r->Err_0.kind == ErrorKind::OutOfRange <==> track_out_of_range(s@, pos as int)),
        agrees(
            r,
            match spec_track(s@, pos as int) {
                Some((t, q)) => Some((WindDirection::Heading(t), q)),
                None => None,
            },
            s@.len() as int,
        ),
{
    match nom_track(s, pos) {
        Ok((t, q)) => Ok((WindDirection::Heading(t), q)),
        Err(e) => Err(e),
    }
}

pub fn nom_wind_direction(s: &[char], pos: usize) -> (r: Result<(WindDirection, usize), DecodeError>)
    ensures
        r is Err ==> r->Err_0.kind != ErrorKind::ClockUnavailable,
        r is Err ==> (r->Err_0.kind == ErrorKind::OutOfRange <==> wind_out_of_range(s@, pos as int)),
        agrees(r, spec_wind_direction(s@, pos as int), s@.len() as int),
{
    if nom_variable_wind(s, pos) {
        let len = s.len();
        assert(pos + 3 <= len);
        Ok((WindDirection::Variable, pos + 3))
    } else {
        nom_heading(s, pos)
    }
}

fn nom_varying(s: &[char], pos: usize) -> (r: Option<((Track, Track), usize)>)
    ensures
        crate::scan::lift(r) == spec_varying(s@, pos as int),
{
    if !char_at(s, pos, ' ') {
        return None;
    }
    let (a, q1) = match nom_track(s, pos + 1) {
        Ok(x) => x,
        Err(_) => return None,
    };
    if !char_at(s, q1, 'V') {
        return None;
    }
    match nom_track(s, q1 + 1) {
        Ok((b, q2)) => Some(((a, b), q2)),
        Err(_) => None,
    }
}

/// Decodes a wind group such as `21007G17KT 160V270` at `pos`.
pub fn nom_wind(s: &[char], pos: usize) -> (r: Result<(Wind, usize), DecodeError>)
    ensures
        agrees(r, spec_wind(s@, pos as int), s@.len() as int),
        r is Ok ==> r.unwrap().0.wf(),
        r is Err ==> r->Err_0.kind != ErrorKind::ClockUnavailable,
        r is Err ==> (r->Err_0.kind == ErrorKind::OutOfRange <==> wind_out_of_range(s@, pos as int)),
{
    let (dir, p1) = match nom_wind_direction(s, pos) {
        Ok(x) => x,
        Err(e) => return Err(e),
    };
    let (speed, p2) = match nom_velocity(s, p1) {
        Ok(x) => x,
        Err(e) => return Err(e),
    };
    match nom_varying(s, p2) {
        Some((v, q)) => Ok((Wind { dir, speed, varying: Some(v) }, q)),
        None => Ok((Wind { dir, speed, varying: None }, p2)),
    }
}

proof fn lemma_varying_at(a: Track, b: Track, s: Seq<char>, p: int)
    requires
        a.wf(),
        b.wf(),
        0 <= p,
        p + 8 <= s.len(),
        s.subrange(p, p + 8) == varying_text(Some((a, b))),
    ensures
        spec_varying(s, p) == Some(((a, b), p + 8)),
{
    lemma_track_round_trip(a);
    lemma_track_round_trip(b);
    let x = varying_text(Some((a, b)));
    assert(x.len() == 8);
    assert forall|i: int| 0 <= i < 8 implies #[trigger] s[p + i] == x[i] by {
        assert(s.subrange(p, p + 8)[i] == s[p + i]);
    }
    assert forall|i: int| 0 <= i < 3 implies #[trigger] s.subrange(p + 1, p + 4)[i] == a.render()[i] by {
        assert(s[p + (1 + i)] == x[1 + i]);
    }
    assert forall|i: int| 0 <= i < 3 implies #[trigger] s.subrange(p + 5, p + 8)[i] == b.render()[i] by {
        assert(s[p + (5 + i)] == x[5 + i]);
    }
    assert(s.subrange(p + 1, p + 4) =~= a.render());
    assert(s.subrange(p + 5, p + 8) =~= b.render());
    assert(s[p + 0] == x[0]);
    assert(s[p + 4] == x[4]);
    lemma_track_at(a, s, p + 1);
    lemma_track_at(b, s, p + 5);
}

/// A valid wind group renders to text that decodes back to it.
pub proof fn lemma_wind_round_trip(w: Wind)
    requires
        w.wf(),
    ensures
        spec_wind(w.render(), 0) == Some((w, w.render().len() as int)),
{
    let s = w.render();
    let d = direction_text(w.dir);
    let v = w.speed.render();
    let x = varying_text(w.varying);
    lemma_concat3(d, v, x);
    let kv = v.len() as int;
    match w.dir {
        WindDirection::Heading(t) => {
            lemma_track_round_trip(t);
            lemma_track_at(t, s, 0);
            assert(s.subrange(0, 3)[0] == s[0]);
        },
        WindDirection::Variable => {},
    }
    lemma_velocity_at(w.speed, s, 3);
    match w.varying {
        Some((a, b)) => {
            lemma_track_round_trip(a);
            lemma_track_round_trip(b);
            lemma_varying_at(a, b, s, 3 + kv);
        },
        None => {},
    }
}

} // verus!
