//! Cloud base heights, three digits in hundreds of feet.
use vstd::prelude::*;
use crate::optional_data::{
    decimal, lemma_decimal, lemma_fixed_reads_decimal, lemma_slashes_placeholder, push_decimal, push_slashes, slashes,
    spec_optional, string_of, OptionalData,
};
use crate::scan::{agrees, fixed_at, mismatch, pow10, spec_fixed, DecodeError};

verus! {

/// A cloud base, in hundreds of feet as written in the report.
#[derive(Debug, Clone, PartialEq, Eq)]
pub struct CloudHeight {
    pub height: i32,
}

impl CloudHeight {
    /// Three zero-padded digits (a sign and two digits below zero) and the
    /// implicit unit `FT`.
    pub open spec fn render(&self) -> Seq<char> {
        (if self.height >= 0 {
            decimal(self.height as nat, 3)
        } else {
            seq!['-'] + decimal((-self.height) as nat, 2)
        }) + seq!['F', 'T']
    }

    pub fn to_string(&self) -> (r: String)
        ensures
            r@ == self.render(),
    {
        let mut out: Vec<char> = Vec::new();
        if self.height >= 0 {
            push_decimal(&mut out, self.height as u32, 3);
        } else {
            out.push('-');
            let magnitude: i64 = -(self.height as i64);
            push_decimal(&mut out, magnitude as u32, 2);
        }
        out.push('F');
        out.push('T');
        assert(out@ =~= self.render());
        string_of(&out)
    }
}

pub open spec fn height_value(s: Seq<char>, p: int) -> Option<(CloudHeight, int)> {
    match spec_fixed(s, p, 3) {
        Some((v, q)) => Some((CloudHeight { height: v as i32 }, q)),
        None => None,
    }
}

/// `///`, or three digits.
pub open spec fn spec_cloud_height(s: Seq<char>, p: int) -> Option<(OptionalData<CloudHeight, 3>, int)> {
    spec_optional::<CloudHeight, 3>(s, p, height_value(s, p))
}

pub fn nom_cloud_height(s: &[char], pos: usize) -> (r: Result<(OptionalData<CloudHeight, 3>, usize), DecodeError>)
    ensures
        agrees(r, spec_cloud_height(s@, pos as int), s@.len() as int),
{
    if let Some(u) = OptionalData::<CloudHeight, 3>::optional_field(s, pos) {
        return Ok(u);
    }
    match fixed_at(s, pos, 3) {
        Some((v, q)) => {
            proof {
                crate::scan::lemma_value_bound(s@.subrange(pos as int, pos + 3));
                assert(crate::scan::pow10(3) == 1000) by {
                    reveal_with_fuel(crate::scan::pow10, 4);
                }
            }
            Ok((OptionalData::Data(CloudHeight { height: v as i32 }), q))
        },
        None => Err(mismatch(s, pos)),
    }
}

/// A cloud height field: `///` when missing, else the height and its unit.
pub open spec fn height_field_text(o: OptionalData<CloudHeight, 3>) -> Seq<char> {
    match o {
        OptionalData::Undefined => slashes(3),
        OptionalData::Data(h) => h.render(),
    }
}

impl OptionalData<CloudHeight, 3> {
    pub fn to_string(&self) -> (r: String)
        ensures
            r@ == height_field_text(*self),
    {
        match self {
            OptionalData::Undefined => {
                let mut out: Vec<char> = Vec::new();
                push_slashes(&mut out, 3);
                assert(out@ =~= slashes(3));
                string_of(&out)
            },
            OptionalData::Data(h) => h.to_string(),
        }
    }
}

/// A cloud height field of up to three digits renders to text whose first
/// three characters decode back to it; the unit `FT` after them is left
/// unread.
pub proof fn lemma_cloud_height_round_trip(o: OptionalData<CloudHeight, 3>)
    requires
        o matches OptionalData::Data(h) ==> 0 <= h.height <= 999,
    ensures
        spec_cloud_height(height_field_text(o), 0) == Some((o, 3int)),
        o is Data ==> height_field_text(o).subrange(3, 5) == seq!['F', 'T'],
{
    let s = height_field_text(o);
    match o {
        OptionalData::Undefined => {
            assert(s.subrange(0, 3) =~= slashes(3));
            lemma_slashes_placeholder(s, 0, 3);
        },
        OptionalData::Data(h) => {
            assert(pow10(3) == 1000) by {
                reveal_with_fuel(pow10, 4);
            }
            let d = decimal(h.height as nat, 3);
            lemma_decimal(h.height as nat, 3);
            assert(s == d + seq!['F', 'T']);
            assert(s.subrange(0, 3) =~= d);
            assert(s.subrange(3, 5) =~= seq!['F', 'T']);
            lemma_fixed_reads_decimal(s, 0, h.height as u32, 3);
        },
    }
}

} // verus!
