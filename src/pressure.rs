//! The pressure group: a unit letter and four digits.
use vstd::prelude::*;
use crate::optional_data::{
    decimal, lemma_decimal, lemma_fixed_reads_decimal, lemma_slashes_placeholder, render_number, slashes,
    spec_optional, string_of, OptionalData,
};
use crate::scan::{agrees, char_at, fixed_at, lemma_value_bound, mismatch, pow10, spec_fixed, DecodeError};

verus! {

#[derive(Debug, Clone, Copy, PartialEq, Eq)]
pub struct Pressure {
    pub value: OptionalData<u32, 4>,
    pub unit: PressureUnit,
}

#[derive(Debug, Clone, Copy, PartialEq, Eq)]
pub enum PressureUnit {
    Hectopascals,
    InchesOfMercury,
}

pub open spec fn unit_letter(u: PressureUnit) -> char {
    match u {
        PressureUnit::Hectopascals => 'Q',
        PressureUnit::InchesOfMercury => 'A',
    }
}

impl Pressure {
    /// A present value has at most four digits.
    pub open spec fn wf(&self) -> bool {
        match self.value {
            OptionalData::Data(v) => v <= 9999,
            OptionalData::Undefined => true,
        }
    }

    /// The unit letter, then `////` or four zero-padded digits.
    pub open spec fn render(&self) -> Seq<char> {
        seq![unit_letter(self.unit)] + render_number(self.value)
    }

    /// The group as written in a report, such as `Q1013`.
    pub fn to_string(&self) -> (r: String)
        ensures
            r@ == self.render(),
    {
        let mut out: Vec<char> = Vec::new();
        match self.unit {
            PressureUnit::Hectopascals => out.push('Q'),
            PressureUnit::InchesOfMercury => out.push('A'),
        }
        self.value.render_into(&mut out);
        assert(out@ =~= self.render());
        string_of(&out)
    }
}

/// `Q` for hectopascals, `A` for inches of mercury.
pub open spec fn spec_pressure_unit(s: Seq<char>, p: int) -> Option<(PressureUnit, int)> {
    if 0 <= p < s.len() && s[p] == 'Q' {
        Some((PressureUnit::Hectopascals, p + 1))
    } else if 0 <= p < s.len() && s[p] == 'A' {
        Some((PressureUnit::InchesOfMercury, p + 1))
    } else {
        None
    }
}

/// The unit letter, then `////` or four digits.
pub open spec fn spec_pressure(s: Seq<char>, p: int) -> Option<(Pressure, int)> {
    match spec_pressure_unit(s, p) {
        Some((unit, p1)) => match spec_optional::<u32, 4>(s, p1, spec_fixed(s, p1, 4)) {
            Some((value, q)) => Some((Pressure { value, unit }, q)),
            None => None,
        },
        None => None,
    }
}

fn nom_pressure_unit(s: &[char], pos: usize) -> (r: Option<PressureUnit>)
    ensures
        match spec_pressure_unit(s@, pos as int) {
            Some((u, q)) => r == Some(u) && q == pos + 1,
            None => r is None,
        },
{
    if char_at(s, pos, 'Q') {
        Some(PressureUnit::Hectopascals)
    } else if char_at(s, pos, 'A') {
        Some(PressureUnit::InchesOfMercury)
    } else {
        None
    }
}

/// Decodes a pressure group such as `Q1013` at `pos`.
pub fn nom_pressure(s: &[char], pos: usize) -> (r: Result<(Pressure, usize), DecodeError>)
    ensures
        agrees(r, spec_pressure(s@, pos as int), s@.len() as int),
        r is Ok ==> r.unwrap().0.wf(),
        r is Err ==> r->Err_0.kind == crate::scan::ErrorKind::Mismatch,
{
    let unit = match nom_pressure_unit(s, pos) {
        Some(u) => u,
        None => return Err(mismatch(s, pos)),
    };
    let len = s.len();
    assert(pos < len);
    let p1 = pos + 1;
    if let Some((value, q)) = OptionalData::<u32, 4>::optional_field(s, p1) {
        return Ok((Pressure { value, unit }, q));
    }
    match fixed_at(s, p1, 4) {
        Some((v, q)) => {
            proof {
                lemma_value_bound(s@.subrange(p1 as int, p1 + 4));
                assert(pow10(4) == 10000) by {
                    reveal_with_fuel(pow10, 5);
                }
            }
            Ok((Pressure { value: OptionalData::Data(v), unit }, q))
        },
        None => Err(mismatch(s, p1)),
    }
}

/// A valid pressure group renders to five characters that decode back to it.
pub proof fn lemma_pressure_round_trip(x: Pressure)
    requires
        x.wf(),
    ensures
        x.render().len() == 5,
        spec_pressure(x.render(), 0) == Some((x, 5int)),
{
    let s = x.render();
    assert(pow10(4) == 10000) by {
        reveal_with_fuel(pow10, 5);
    }
    match x.value {
        OptionalData::Undefined => {
            assert(s.subrange(1, 5) =~= slashes(4));
            lemma_slashes_placeholder(s, 1, 4);
        },
        OptionalData::Data(v) => {
            lemma_decimal(v as nat, 4);
            assert(s.subrange(1, 5) =~= decimal(v as nat, 4));
            lemma_fixed_reads_decimal(s, 1, v, 4);
        },
    }
}

} // verus!
