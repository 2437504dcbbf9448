//! Wind speed with an optional gust and a unit tag.
use vstd::prelude::*;
use crate::optional_data::{lemma_decimal, lemma_fixed_field, render_number, spec_optional, string_of, OptionalData, OptionalNumber};
use crate::scan::{
    agrees, char_at, fixed_at, has_tag, is_digit, lemma_value_bound, lift, mismatch, pow10, spec_fixed, tag_at, DecodeError,
};

verus! {

#[derive(Debug, PartialEq, Eq, Clone, Copy)]
pub struct WindVelocity {
    pub velocity: OptionalNumber<2>,
    pub gust: Option<OptionalNumber<2>>,
    pub unit: VelocityUnit,
}

#[derive(Debug, PartialEq, Eq, Clone, Copy)]
pub enum VelocityUnit {
    MetersPerSecond,
    Knots,
}

pub open spec fn unit_text(u: VelocityUnit) -> Seq<char> {
    match u {
        VelocityUnit::Knots => seq!['K', 'T'],
        VelocityUnit::MetersPerSecond => seq!['M', 'P', 'S'],
    }
}

/// A speed: `//`, or two digits.
pub open spec fn spec_speed(s: Seq<char>, p: int) -> Option<(OptionalNumber<2>, int)> {
    spec_optional::<u32, 2>(s, p, spec_fixed(s, p, 2))
}

/// A present speed has at most two digits.
pub open spec fn speed_wf(o: OptionalNumber<2>) -> bool {
    match o {
        OptionalData::Data(v) => v <= 99,
        OptionalData::Undefined => true,
    }
}

/// An optional gust: `G` and a speed, or nothing at all.
pub open spec fn spec_gust(s: Seq<char>, p: int) -> Option<(Option<OptionalNumber<2>>, int)> {
    if 0 <= p < s.len() && s[p] == 'G' {
        match spec_speed(s, p + 1) {
            Some((g, q)) => Some((Some(g), q)),
            None => None,
        }
    } else {
        Some((None, p))
    }
}

pub open spec fn spec_velocity_unit(s: Seq<char>, p: int) -> Option<(VelocityUnit, int)> {
    if tag_at(s, p, seq!['K', 'T']) {
        Some((VelocityUnit::Knots, p + 2))
    } else if tag_at(s, p, seq!['M', 'P', 'S']) {
        Some((VelocityUnit::MetersPerSecond, p + 3))
    } else {
        None
    }
}

/// Speed, optional gust, then `KT` or `MPS`.
pub open spec fn spec_velocity(s: Seq<char>, p: int) -> Option<(WindVelocity, int)> {
    match spec_speed(s, p) {
        Some((v, p1)) => match spec_gust(s, p1) {
            Some((g, p2)) => match spec_velocity_unit(s, p2) {
                Some((u, p3)) => Some((WindVelocity { velocity: v, gust: g, unit: u }, p3)),
                None => None,
            },
            None => None,
        },
        None => None,
    }
}

pub open spec fn gust_text(g: Option<OptionalNumber<2>>) -> Seq<char> {
    match g {
        Some(n) => seq!['G'] + render_number(n),
        None => Seq::empty(),
    }
}

impl WindVelocity {
    /// The speed and the gust have at most two digits each.
    pub open spec fn wf(&self) -> bool {
        speed_wf(self.velocity) && match self.gust {
            Some(g) => speed_wf(g),
            None => true,
        }
    }

    pub open spec fn render(&self) -> Seq<char> {
        render_number(self.velocity) + gust_text(self.gust) + unit_text(self.unit)
    }

    /// The strongest reported speed: the gust where one is given, else the
    /// mean speed; `None` where that field is missing.
    pub fn get_max_wind_speed(&self) -> (r: Option<u32>)
        ensures
            r == match self.gust {
                Some(g) => g.spec_to_option(),
                None => self.velocity.spec_to_option(),
            },
    {
        match self.gust {
            Some(g) => g.to_option(),
            None => self.velocity.to_option(),
        }
    }

    /// The group as written in a report, such as `13G19KT`.
    pub fn to_string(&self) -> (r: String)
        ensures
            r@ == self.render(),
    {
        let mut out: Vec<char> = Vec::new();
        self.render_into(&mut out);
        assert(out@ =~= self.render());
        string_of(&out)
    }

    pub fn render_into(&self, out: &mut Vec<char>)
        ensures
            final(out)@ == old(out)@ + self.render(),
    {
        self.velocity.render_into(out);
        if let Some(g) = self.gust {
            out.push('G');
            g.render_into(out);
        }
        match self.unit {
            VelocityUnit::Knots => {
                out.push('K');
                out.push('T');
            },
            VelocityUnit::MetersPerSecond => {
                out.push('M');
                out.push('P');
                out.push('S');
            },
        }
        assert(out@ =~= old(out)@ + self.render());
    }
}

fn speed_at(s: &[char], pos: usize) -> (r: Option<(OptionalNumber<2>, usize)>)
    ensures
        lift(r) == spec_speed(s@, pos as int),
        r matches Some((o, q)) ==> speed_wf(o),
{
    if let Some(u) = OptionalNumber::<2>::optional_field(s, pos) {
        return Some(u);
    }
    match fixed_at(s, pos, 2) {
        Some((v, q)) => {
            proof {
                lemma_value_bound(s@.subrange(pos as int, pos + 2));
                assert(pow10(2) == 100) by {
                    reveal_with_fuel(pow10, 3);
                }
            }
            Some((OptionalData::Data(v), q))
        },
        None => None,
    }
}

/// Decodes a speed group at `pos`, such as `07KT`, `13G19KT` or `03MPS`.
pub fn nom_velocity(s: &[char], pos: usize) -> (r: Result<(WindVelocity, usize), DecodeError>)
    ensures
        agrees(r, spec_velocity(s@, pos as int), s@.len() as int),
        r is Ok ==> r.unwrap().0.wf(),
        r is Err ==> r->Err_0.kind == crate::scan::ErrorKind::Mismatch,
{
    let len = s.len();
    let (velocity, p1) = match speed_at(s, pos) {
        Some(x) => x,
        None => return Err(mismatch(s, pos)),
    };
    let (gust, p2) = if char_at(s, p1, 'G') {
        match speed_at(s, p1 + 1) {
            Some((g, q)) => (Some(g), q),
            None => return Err(mismatch(s, p1 + 1)),
        }
    } else {
        (None, p1)
    };
    proof {
        reveal_strlit("KT");
        reveal_strlit("MPS");
        assert("KT"@ =~= seq!['K', 'T']);
        assert("MPS"@ =~= seq!['M', 'P', 'S']);
    }
    let (unit, p3) = if has_tag(s, p2, "KT") {
        assert(p2 + 2 <= len);
        (VelocityUnit::Knots, p2 + 2)
    } else if has_tag(s, p2, "MPS") {
        assert(p2 + 3 <= len);
        (VelocityUnit::MetersPerSecond, p2 + 3)
    } else {
        return Err(mismatch(s, p2));
    };
    Ok((WindVelocity { velocity, gust, unit }, p3))
}

/// A speed group's text, wherever it stands, decodes to that group: the text
/// ends in its unit tag, so what follows it does not matter.
pub proof fn lemma_velocity_at(w: WindVelocity, s: Seq<char>, p: int)
    requires
        w.wf(),
        0 <= p,
        p + w.render().len() <= s.len(),
        s.subrange(p, p + w.render().len()) == w.render(),
    ensures
        spec_velocity(s, p) == Some((w, p + w.render().len())),
        is_digit(s[p]) || s[p] == '/',
{
    let t = w.render();
    let n = t.len() as int;
    let a = render_number(w.velocity);
    let g = gust_text(w.gust);
    let u = unit_text(w.unit);
    assert(t == a + g + u);
    let ka = a.len() as int;
    let kg = g.len() as int;
    assert forall|i: int| 0 <= i < n implies #[trigger] s[p + i] == t[i] by {
        assert(s.subrange(p, p + n)[i] == s[p + i]);
    }
    match w.velocity {
        OptionalData::Undefined => {
            assert(a[0] == '/');
        },
        OptionalData::Data(v) => {
            lemma_decimal(v as nat, 2);
            assert(is_digit(a[0]));
        },
    }
    assert(s[p] == t[0]);
    assert(s.subrange(p, p + ka) =~= a);
    assert(!is_digit(s[p + ka])) by {
        if kg > 0 {
            assert(t[ka] == g[0]);
        } else {
            assert(t[ka] == u[0]);
        }
    }
    assert(pow10(2) == 100) by {
        reveal_with_fuel(pow10, 3);
    }
    lemma_fixed_field::<2>(s, p, w.velocity);
    match w.gust {
        Some(m) => {
            let r = render_number(m);
            match m {
                OptionalData::Data(v) => lemma_decimal(v as nat, 2),
                OptionalData::Undefined => {},
            }
            assert(r.len() == 2);
            assert(t[ka] == 'G');
            assert forall|i: int| 0 <= i < r.len() implies #[trigger] s.subrange(p + ka + 1, p + ka + 1 + r.len())[i]
                == r[i] by {
                assert(s[p + (ka + 1 + i)] == t[ka + 1 + i]);
                assert(t[ka + 1 + i] == g[1 + i]);
            }
            assert(s.subrange(p + ka + 1, p + ka + 1 + r.len()) =~= r);
            assert(t[ka + 1 + r.len()] == u[0]);
            lemma_fixed_field::<2>(s, p + ka + 1, m);
        },
        None => {
            assert(t[ka] == u[0]);
        },
    }
    assert forall|i: int| 0 <= i < u.len() implies #[trigger] s.subrange(p + ka + kg, p + ka + kg + u.len())[i] == u[i] by {
        assert(s[p + (ka + kg + i)] == t[ka + kg + i]);
    }
    assert(s.subrange(p + ka + kg, p + ka + kg + u.len()) =~= u);
}

/// A speed group renders to text that decodes back to it.
pub proof fn lemma_velocity_round_trip(w: WindVelocity)
    requires
        w.wf(),
    ensures
        spec_velocity(w.render(), 0) == Some((w, w.render().len() as int)),
{
    assert(w.render().subrange(0, w.render().len() as int) =~= w.render());
    lemma_velocity_at(w, w.render(), 0);
}

} // verus!
