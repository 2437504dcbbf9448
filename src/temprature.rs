//! The temperature and dew point group, such as `M12/M34`.
use vstd::prelude::*;
use crate::optional_data::{
    decimal, lemma_decimal, lemma_number_reads_decimal, lemma_slashes_placeholder, push_decimal, push_slashes, slashes,
    spec_optional, string_of, OptionalData,
};
use crate::scan::{agrees, char_at, is_digit, lemma_concat3, lift, mismatch, number_at, spec_number, DecodeError};

verus! {

/// Temperature and dew point in whole degrees Celsius, each possibly missing.
#[derive(Debug, Clone, Copy, PartialEq, Eq)]
pub struct Temprature {
    pub temp: OptionalData<i32, 2>,
    pub dew_point: OptionalData<i32, 2>,
}

/// `//` when missing; else two or more digits, after the marker `M` below zero.
pub open spec fn degrees_text(o: OptionalData<i32, 2>) -> Seq<char> {
    match o {
        OptionalData::Undefined => slashes(2),
        OptionalData::Data(v) => if v < 0 {
            seq!['M'] + decimal((-v) as nat, 2)
        } else {
            decimal(v as nat, 2)
        },
    }
}

pub open spec fn degrees_wf(o: OptionalData<i32, 2>) -> bool {
    match o {
        OptionalData::Data(v) => v > i32::MIN,
        OptionalData::Undefined => true,
    }
}

impl Temprature {
    /// Each present value's magnitude fits in an `i32`.
    pub open spec fn wf(&self) -> bool {
        degrees_wf(self.temp) && degrees_wf(self.dew_point)
    }

    pub open spec fn render(&self) -> Seq<char> {
        degrees_text(self.temp) + seq!['/'] + degrees_text(self.dew_point)
    }

    /// The group as written in a report, such as `M12/M34`.
    pub fn to_string(&self) -> (r: String)
        ensures
            r@ == self.render(),
    {
        let mut out: Vec<char> = Vec::new();
        push_degrees(&mut out, self.temp);
        out.push('/');
        push_degrees(&mut out, self.dew_point);
        assert(out@ =~= self.render());
        string_of(&out)
    }
}

fn push_degrees(out: &mut Vec<char>, o: OptionalData<i32, 2>)
    ensures
        final(out)@ == old(out)@ + degrees_text(o),
{
    match o {
        OptionalData::Undefined => push_slashes(out, 2),
        OptionalData::Data(v) => {
            if v < 0 {
                out.push('M');
                let magnitude: i64 = -(v as i64);
                push_decimal(out, magnitude as u32, 2);
                assert(out@ =~= old(out)@ + degrees_text(o));
            } else {
                push_decimal(out, v as u32, 2);
            }
        },
    }
}

/// Digits whose value fits in an `i32`.
pub open spec fn spec_magnitude(s: Seq<char>, p: int) -> Option<(i32, int)> {
    match spec_number(s, p) {
        Some((v, q)) => if v <= i32::MAX {
            Some((v as i32, q))
        } else {
            None
        },
        None => None,
    }
}

/// Digits, negated when the marker `M` stands before them.
pub open spec fn spec_signed(s: Seq<char>, p: int) -> Option<(i32, int)> {
    if 0 <= p < s.len() && s[p] == 'M' {
        match spec_magnitude(s, p + 1) {
            Some((v, q)) => Some(((-v) as i32, q)),
            None => None,
        }
    } else {
        spec_magnitude(s, p)
    }
}

pub open spec fn spec_degrees(s: Seq<char>, p: int) -> Option<(OptionalData<i32, 2>, int)> {
    spec_optional::<i32, 2>(s, p, spec_signed(s, p))
}

/// Two optional signed values separated by `/`.
pub open spec fn spec_temprature(s: Seq<char>, p: int) -> Option<(Temprature, int)> {
    match spec_degrees(s, p) {
        Some((t, p1)) => if 0 <= p1 < s.len() && s[p1] == '/' {
            match spec_degrees(s, p1 + 1) {
                Some((d, q)) => Some((Temprature { temp: t, dew_point: d }, q)),
                None => None,
            }
        } else {
            None
        },
        None => None,
    }
}

fn magnitude_at(s: &[char], pos: usize) -> (r: Option<(i32, usize)>)
    ensures
        lift(r) == spec_magnitude(s@, pos as int),
{
    match number_at(s, pos) {
        Some((v, q)) => if v <= i32::MAX as u32 {
            Some((v as i32, q))
        } else {
            None
        },
        None => None,
    }
}

fn nom_maybe_negative_temp(s: &[char], pos: usize) -> (r: Option<(i32, usize)>)
    ensures
        lift(r) == spec_signed(s@, pos as int),
{
    if char_at(s, pos, 'M') {
        match magnitude_at(s, pos + 1) {
            Some((v, q)) => Some((-v, q)),
            None => None,
        }
    } else {
        magnitude_at(s, pos)
    }
}

fn degrees_at(s: &[char], pos: usize) -> (r: Option<(OptionalData<i32, 2>, usize)>)
    ensures
        lift(r) == spec_degrees(s@, pos as int),
{
    if let Some(u) = OptionalData::<i32, 2>::optional_field(s, pos) {
        return Some(u);
    }
    match nom_maybe_negative_temp(s, pos) {
        Some((v, q)) => Some((OptionalData::Data(v), q)),
        None => None,
    }
}

/// Decodes a temperature group at `pos`.
pub fn nom_temprature(s: &[char], pos: usize) -> (r: Result<(Temprature, usize), DecodeError>)
    ensures
        agrees(r, spec_temprature(s@, pos as int), s@.len() as int),
        r is Ok ==> r.unwrap().0.wf(),
        r is Err ==> r->Err_0.kind == crate::scan::ErrorKind::Mismatch,
{
    let (temp, p1) = match degrees_at(s, pos) {
        Some(x) => x,
        None => return Err(mismatch(s, pos)),
    };
    if !char_at(s, p1, '/') {
        return Err(mismatch(s, p1));
    }
    match degrees_at(s, p1 + 1) {
        Some((dew_point, q)) => Ok((Temprature { temp, dew_point }, q)),
        None => Err(mismatch(s, p1 + 1)),
    }
}

proof fn lemma_degrees_at(o: OptionalData<i32, 2>, s: Seq<char>, p: int)
    requires
        degrees_wf(o),
        0 <= p,
        p + degrees_text(o).len() <= s.len(),
        s.subrange(p, p + degrees_text(o).len()) == degrees_text(o),
        p + degrees_text(o).len() < s.len() ==> !is_digit(s[p + degrees_text(o).len()]),
    ensures
        spec_degrees(s, p) == Some((o, p + degrees_text(o).len())),
{
    let t = degrees_text(o);
    let k = t.len() as int;
    assert forall|i: int| 0 <= i < k implies #[trigger] s[p + i] == t[i] by {
        assert(s.subrange(p, p + k)[i] == s[p + i]);
    }
    match o {
        OptionalData::Undefined => {
            lemma_slashes_placeholder(s, p, 2);
        },
        OptionalData::Data(v) => {
            if v < 0 {
                let m = (-v) as u32;
                let d = decimal(m as nat, 2);
                assert(t == seq!['M'] + d);
                assert(s[p + 0] == 'M');
                assert forall|i: int| 0 <= i < d.len() implies #[trigger] s.subrange(p + 1, p + 1 + d.len())[i] == d[i] by {
                    assert(s[p + (1 + i)] == t[1 + i]);
                }
                assert(s.subrange(p + 1, p + 1 + d.len()) =~= d);
                lemma_number_reads_decimal(s, p + 1, m, 2);
            } else {
                let m = v as u32;
                let d = decimal(m as nat, 2);
                assert(s.subrange(p, p + d.len()) == d);
                lemma_number_reads_decimal(s, p, m, 2);
                lemma_decimal(m as nat, 2);
                assert(is_digit(d[0]));
                assert(s[p + 0] == d[0]);
            }
        },
    }
}

/// A valid temperature group renders to text that decodes back to it.
pub proof fn lemma_temprature_round_trip(x: Temprature)
    requires
        x.wf(),
    ensures
        spec_temprature(x.render(), 0) == Some((x, x.render().len() as int)),
{
    let s = x.render();
    let a = degrees_text(x.temp);
    let b = degrees_text(x.dew_point);
    lemma_concat3(a, seq!['/'], b);
    assert(s[a.len() as int] == '/');
    lemma_degrees_at(x.temp, s, 0);
    lemma_degrees_at(x.dew_point, s, a.len() + 1int);
}

} // verus!
