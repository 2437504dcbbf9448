//! Three-digit headings, 0 to 360 degrees.
use vstd::prelude::*;
use crate::optional_data::{
    decimal, lemma_decimal, lemma_fixed_reads_decimal, lemma_slashes_placeholder, render_number, slashes,
    spec_optional, OptionalData, OptionalNumber,
};
use crate::scan::{agrees, fixed_at, pow10, spec_fixed, DecodeError, ErrorKind};

verus! {

/// A heading in degrees, or missing.
#[derive(Debug, PartialEq, Eq, Clone)]
pub struct Track(pub OptionalNumber<3>);

/// The error of `str::parse` for integers, carried through as it is.
#[verifier::external_type_specification]
#[verifier::external_body]
pub struct ExParseIntError(std::num::ParseIntError);

/// Why a text is not a heading.
#[derive(Debug)]
pub enum TrackParseError {
    InvalidNumber(std::num::ParseIntError),
    OutOfRange(u16),
}

pub const MAX_TRACK: u32 = 360;

impl Track {
    /// A present heading never exceeds 360 degrees.
    pub open spec fn wf(&self) -> bool {
        match self.0 {
            OptionalData::Data(v) => v <= MAX_TRACK,
            OptionalData::Undefined => true,
        }
    }

    pub open spec fn render(&self) -> Seq<char> {
        render_number(self.0)
    }

    pub fn render_into(&self, out: &mut Vec<char>)
        ensures
            final(out)@ == old(out)@ + self.render(),
    {
        self.0.render_into(out)
    }

    /// The heading as three zero-padded digits, or `///`.
    pub fn to_string(&self) -> (r: String)
        ensures
            r@ == self.render(),
    {
        self.0.to_string()
    }
}

/// Three digits whose value is at most 360.
pub open spec fn track_value(s: Seq<char>, p: int) -> Option<(u32, int)> {
    match spec_fixed(s, p, 3) {
        Some((v, q)) => if v <= MAX_TRACK {
            Some((v, q))
        } else {
            None
        },
        None => None,
    }
}

pub open spec fn spec_track(s: Seq<char>, p: int) -> Option<(Track, int)> {
    match spec_optional::<u32, 3>(s, p, track_value(s, p)) {
        Some((o, q)) => Some((Track(o), q)),
        None => None,
    }
}

/// The text at `p` is three digits for a value above 360.
pub open spec fn track_out_of_range(s: Seq<char>, p: int) -> bool {
    match spec_fixed(s, p, 3) {
        Some((v, q)) => v > MAX_TRACK,
        None => false,
    }
}

/// Decodes a heading at `pos`: `///`, or three digits for 0 to 360.
pub fn nom_track(s: &[char], pos: usize) -> (r: Result<(Track, usize), DecodeError>)
    ensures
        agrees(r, spec_track(s@, pos as int), s@.len() as int),
        r is Ok ==> r.unwrap().0.wf(),
        r is Err ==> r->Err_0.kind != ErrorKind::ClockUnavailable,
        r is Err ==> (r->Err_0.kind == ErrorKind::OutOfRange <==> track_out_of_range(s@, pos as int)),
{
    if let Some((u, q)) = OptionalNumber::<3>::optional_field(s, pos) {
        return Ok((Track(u), q));
    }
    match fixed_at(s, pos, 3) {
        Some((v, q)) => {
            if v <= MAX_TRACK {
                Ok((Track(OptionalData::Data(v)), q))
            } else {
                Err(DecodeError { position: pos, kind: ErrorKind::OutOfRange })
            }
        },
        None => Err(DecodeError { position: if pos <= s.len() { pos } else { s.len() }, kind: ErrorKind::Mismatch }),
    }
}

/// Every heading from 0 to 360 written as three zero-padded digits decodes to
/// itself and renders back to the same digits; three digits above 360 do not
/// decode.
pub proof fn lemma_track_law(t: u32)
    requires
        t < 1000,
    ensures
        t <= MAX_TRACK ==> spec_track(decimal(t as nat, 3), 0) == Some((Track(OptionalData::Data(t)), 3int)),
        t <= MAX_TRACK ==> Track(OptionalData::Data(t)).render() == decimal(t as nat, 3),
        t > MAX_TRACK ==> spec_track(decimal(t as nat, 3), 0) is None,
{
    let d = decimal(t as nat, 3);
    assert(pow10(3) == 1000) by {
        reveal_with_fuel(pow10, 4);
    }
    lemma_decimal(t as nat, 3);
    assert(d.subrange(0, 3) =~= d);
    lemma_fixed_reads_decimal(d, 0, t, 3);
}

/// A valid heading's text, wherever it stands, decodes to that heading.
pub proof fn lemma_track_at(t: Track, s: Seq<char>, p: int)
    requires
        t.wf(),
        0 <= p,
        p + 3 <= s.len(),
        s.subrange(p, p + 3) == t.render(),
    ensures
        spec_track(s, p) == Some((t, p + 3)),
        s[p] != 'V',
{
    assert(s[p] == s.subrange(p, p + 3)[0]);
    match t.0 {
        OptionalData::Undefined => {
            assert(t.render() == slashes(3));
            lemma_slashes_placeholder(s, p, 3);
        },
        OptionalData::Data(v) => {
            assert(pow10(3) == 1000) by {
                reveal_with_fuel(pow10, 4);
            }
            assert(t.render() == decimal(v as nat, 3));
            lemma_decimal(v as nat, 3);
            lemma_fixed_reads_decimal(s, p, v, 3);
            assert(crate::scan::is_digit(decimal(v as nat, 3)[0]));
            assert(t == Track(OptionalData::Data(v)));
        },
    }
}

/// Every valid heading renders to three characters that decode back to it.
pub proof fn lemma_track_round_trip(t: Track)
    requires
        t.wf(),
    ensures
        t.render().len() == 3,
        spec_track(t.render(), 0) == Some((t, 3int)),
{
    match t.0 {
        OptionalData::Undefined => {
            assert(t.render() == slashes(3));
        },
        OptionalData::Data(v) => {
            assert(pow10(3) == 1000) by {
                reveal_with_fuel(pow10, 4);
            }
            lemma_decimal(v as nat, 3);
        },
    }
    assert(t.render().subrange(0, 3) =~= t.render());
    lemma_track_at(t, t.render(), 0);
}

} // verus!
