//! Fixed-width fields that a report may mark as missing with a run of `/`.
use vstd::prelude::*;
use crate::scan::{all_digits, digit_value, is_digit, lemma_digit_run, lemma_value_bound, spec_number, lemma_value_push, lift, placeholder_at, placeholders, pow10, spec_fixed, value_of};

verus! {

/// A field of width `N`: either a value, or missing (written as `N` slashes).
#[derive(Debug, Clone, Copy, PartialEq, Eq)]
pub enum OptionalData<T, const N: usize> {
    Undefined,
    Data(T),
}

pub type OptionalNumber<const N: usize> = OptionalData<u32, N>;

/// The optional-field combinator: `N` placeholders give `Undefined`, and
/// otherwise the inner decoder's outcome `inner` (read at the same position)
/// decides.
pub open spec fn spec_optional<T, const N: usize>(
    s: Seq<char>,
    p: int,
    inner: Option<(T, int)>,
) -> Option<(OptionalData<T, N>, int)> {
    if placeholder_at(s, p, N as int) {
        Some((OptionalData::Undefined, p + N))
    } else {
        match inner {
            Some((v, q)) => Some((OptionalData::Data(v), q)),
            None => None,
        }
    }
}

pub open spec fn digit_char(d: int) -> char {
    if d == 0 {
        '0'
    } else if d == 1 {
        '1'
    } else if d == 2 {
        '2'
    } else if d == 3 {
        '3'
    } else if d == 4 {
        '4'
    } else if d == 5 {
        '5'
    } else if d == 6 {
        '6'
    } else if d == 7 {
        '7'
    } else if d == 8 {
        '8'
    } else {
        '9'
    }
}

/// The decimal digits of `v`, zero-padded on the left to at least `w` characters.
pub open spec fn decimal(v: nat, w: nat) -> Seq<char>
    decreases v + w,
{
    if v < 10 && w <= 1 {
        seq![digit_char(v as int)]
    } else {
        decimal(v / 10, if w > 0 { (w - 1) as nat } else { 0 }).push(digit_char((v % 10) as int))
    }
}

pub open spec fn slashes(n: nat) -> Seq<char> {
    Seq::new(n, |i: int| '/')
}

/// The text of an optional number: slashes when missing, else zero-padded digits.
pub open spec fn render_number<const N: usize>(o: OptionalNumber<N>) -> Seq<char> {
    match o {
        OptionalData::Undefined => slashes(N as nat),
        OptionalData::Data(v) => decimal(v as nat, N as nat),
    }
}

pub proof fn lemma_digit_char(d: int)
    requires
        0 <= d <= 9,
    ensures
        is_digit(digit_char(d)),
        digit_value(digit_char(d)) == d,
{
}

/// `decimal` writes digits only, at least `max(w, 1)` of them, exactly `w`
/// when the value fits in `w` digits, and they read back as `v`.
pub proof fn lemma_decimal(v: nat, w: nat)
    ensures
        all_digits(decimal(v, w)),
        value_of(decimal(v, w)) == v,
        decimal(v, w).len() >= w,
        decimal(v, w).len() >= 1,
        w >= 1 && v < pow10(w) ==> decimal(v, w).len() == w,
    decreases v + w,
{
    if v < 10 && w <= 1 {
        lemma_digit_char(v as int);
        assert(seq![digit_char(v as int)].drop_last() =~= Seq::<char>::empty());
        assert(value_of(Seq::<char>::empty()) == 0);
        assert(value_of(seq![digit_char(v as int)]) == v);
        if w == 1 {
            assert(pow10(1) == 10) by {
                reveal_with_fuel(pow10, 2);
            }
        }
    } else {
        let w1: nat = if w > 0 { (w - 1) as nat } else { 0 };
        lemma_decimal(v / 10, w1);
        lemma_digit_char((v % 10) as int);
        let d = decimal(v / 10, w1);
        lemma_value_push(d, digit_char((v % 10) as int));
        assert(value_of(decimal(v, w)) == (v / 10) * 10 + v % 10);
        assert forall|i: int| 0 <= i < d.len() + 1 implies is_digit(
            #[trigger] d.push(digit_char((v % 10) as int))[i],
        ) by {
            if i < d.len() {
                assert(d.push(digit_char((v % 10) as int))[i] == d[i]);
            }
        }
        if w >= 1 && v < pow10(w) {
            assert(pow10(w) == 10 * pow10(w1));
            assert(v / 10 < pow10(w1));
        }
    }
}

/// A run of `w >= 1` digits is exactly the zero-padded rendering of its value.
pub proof fn lemma_decimal_of_digits(d: Seq<char>)
    requires
        all_digits(d),
        d.len() >= 1,
    ensures
        decimal(value_of(d) as nat, d.len()) == d,
    decreases d.len(),
{
    let e = d.drop_last();
    let c = d.last();
    assert(is_digit(d[d.len() - 1]));
    assert(all_digits(e)) by {
        assert forall|i: int| 0 <= i < e.len() implies is_digit(#[trigger] e[i]) by {
            assert(e[i] == d[i]);
        }
    }
    lemma_value_bound(e);
    let ve = value_of(e);
    let v = value_of(d);
    assert(v == ve * 10 + digit_value(c));
    assert(v / 10 == ve && v % 10 == digit_value(c));
    assert(digit_char(digit_value(c)) == c);
    if d.len() == 1 {
        assert(e.len() == 0);
        assert(ve == 0);
        assert(d =~= seq![c]);
    } else {
        lemma_decimal_of_digits(e);
        assert(d =~= e.push(c));
    }
}

impl<T, const N: usize> OptionalData<T, N> {
    pub open spec fn spec_to_option(self) -> Option<T> {
        match self {
            OptionalData::Undefined => None,
            OptionalData::Data(v) => Some(v),
        }
    }

    pub fn new(data: T) -> (r: Self)
        ensures
            r == OptionalData::<T, N>::Data(data),
    {
        OptionalData::Data(data)
    }

    pub fn to_option(self) -> (r: Option<T>)
        ensures
            r == self.spec_to_option(),
    {
        match self {
            OptionalData::Undefined => None,
            OptionalData::Data(v) => Some(v),
        }
    }

    /// The missing-field branch of the optional-field decoder: `N` placeholders
    /// at `pos` give `Undefined` and the position after them; `None` hands the
    /// field to the value decoder.
    pub fn optional_field(s: &[char], pos: usize) -> (r: Option<(Self, usize)>)
        ensures
            placeholder_at(s@, pos as int, N as int) ==> lift(r) == Some((OptionalData::<T, N>::Undefined, pos + N)),
            !placeholder_at(s@, pos as int, N as int) ==> r is None,
    {
        if placeholders(s, pos, N) {
            let len = s.len();
            assert(pos + N <= len);
            Some((OptionalData::Undefined, pos + N))
        } else {
            None
        }
    }
}

impl<T, const N: usize> From<OptionalData<T, N>> for Option<T> {
    fn from(value: OptionalData<T, N>) -> (r: Option<T>) {
        match value {
            OptionalData::Undefined => None,
            OptionalData::Data(data) => Some(data),
        }
    }
}

impl<T, const N: usize> vstd::std_specs::convert::FromSpecImpl<OptionalData<T, N>> for Option<T> {
    open spec fn obeys_from_spec() -> bool {
        true
    }

    open spec fn from_spec(v: OptionalData<T, N>) -> Option<T> {
        match v {
            OptionalData::Undefined => None,
            OptionalData::Data(data) => Some(data),
        }
    }
}

fn digit_to_char(d: u32) -> (c: char)
    requires
        d <= 9,
    ensures
        c == digit_char(d as int),
{
    if d == 0 {
        '0'
    } else if d == 1 {
        '1'
    } else if d == 2 {
        '2'
    } else if d == 3 {
        '3'
    } else if d == 4 {
        '4'
    } else if d == 5 {
        '5'
    } else if d == 6 {
        '6'
    } else if d == 7 {
        '7'
    } else if d == 8 {
        '8'
    } else {
        '9'
    }
}

/// Appends `decimal(v, w)` to `out`.
pub fn push_decimal(out: &mut Vec<char>, v: u32, w: usize)
    ensures
        final(out)@ == old(out)@ + decimal(v as nat, w as nat),
    decreases v as int + w as int,
{
    if v < 10 && w <= 1 {
        out.push(digit_to_char(v));
    } else {
        let w1: usize = if w > 0 { w - 1 } else { 0 };
        push_decimal(out, v / 10, w1);
        out.push(digit_to_char(v % 10));
    }
    proof {
        let ghost d = decimal(v as nat, w as nat);
        assert(final(out)@ =~= old(out)@ + d);
    }
}

/// Appends `n` placeholder characters to `out`.
pub fn push_slashes(out: &mut Vec<char>, n: usize)
    ensures
        final(out)@ == old(out)@ + slashes(n as nat),
{
    let mut i: usize = 0;
    while i < n
        invariant
            i <= n,
            out@ == old(out)@ + slashes(i as nat),
        decreases n - i,
    {
        out.push('/');
        i = i + 1;
        proof {
            assert(out@ =~= old(out)@ + slashes(i as nat));
        }
    }
}

/// Relies on `String::from_iter`: the string holds the given characters in order.
#[verifier::external_body]
pub(crate) fn string_of(v: &Vec<char>) -> (r: String)
    ensures
        r@ == v@,
{
    String::from_iter(v.iter())
}

impl<const N: usize> OptionalData<u32, N> {
    /// Appends the field's text: `N` slashes, or the value zero-padded to `N` digits.
    pub fn render_into(&self, out: &mut Vec<char>)
        ensures
            final(out)@ == old(out)@ + render_number(*self),
    {
        match self {
            OptionalData::Undefined => push_slashes(out, N),
            OptionalData::Data(v) => push_decimal(out, *v, N),
        }
    }

    /// The field's text, as `render_number` states it.
    pub fn to_string(&self) -> (r: String)
        ensures
            r@ == render_number(*self),
    {
        let mut out: Vec<char> = Vec::new();
        self.render_into(&mut out);
        assert(out@ =~= render_number(*self));
        string_of(&out)
    }
}

/// Whatever the value decoder would make of the text, exactly `N` placeholders
/// decode as a missing field and consume those `N` characters, and a missing
/// field renders as `N` placeholders.
pub proof fn lemma_placeholder_precedence<T, const N: usize>(s: Seq<char>, p: int, inner: Option<(T, int)>)
    requires
        placeholder_at(s, p, N as int),
    ensures
        spec_optional::<T, N>(s, p, inner) == Some((OptionalData::<T, N>::Undefined, p + N)),
        render_number::<N>(OptionalData::Undefined) == s.subrange(p, p + N),
{
    assert(slashes(N as nat) =~= s.subrange(p, p + N));
}

/// Law of the optional-field codec with a fixed-width numeric value of width
/// `N`: exactly `N` placeholders decode as missing, `N` digits decode as the
/// value they write, and either result renders back to the text it came from.
pub proof fn lemma_optional_field_law<const N: usize>(s: Seq<char>, p: int)
    requires
        N >= 1,
        0 <= p,
        p + N <= s.len(),
    ensures
        placeholder_at(s, p, N as int) ==> spec_optional::<u32, N>(s, p, spec_fixed(s, p, N as int))
            == Some((OptionalData::<u32, N>::Undefined, p + N)),
        ({
            let r = spec_optional::<u32, N>(s, p, spec_fixed(s, p, N as int));
            r is Some ==> r.unwrap().1 == p + N && render_number::<N>(r.unwrap().0) == s.subrange(p, p + N)
        }),
        !placeholder_at(s, p, N as int) && spec_fixed(s, p, N as int) is Some ==> spec_optional::<u32, N>(
            s,
            p,
            spec_fixed(s, p, N as int),
        ) == Some((OptionalData::<u32, N>::Data(spec_fixed(s, p, N as int).unwrap().0), p + N)),
{
    let r = spec_optional::<u32, N>(s, p, spec_fixed(s, p, N as int));
    if placeholder_at(s, p, N as int) {
        assert(slashes(N as nat) =~= s.subrange(p, p + N));
    } else if spec_fixed(s, p, N as int) is Some {
        let d = s.subrange(p, p + N);
        lemma_decimal_of_digits(d);
        lemma_value_bound(d);

    }
}

/// A number rendered by `decimal` and followed by a non-digit (or the end of
/// the text) reads back greedily as that number.
pub proof fn lemma_number_reads_decimal(s: Seq<char>, p: int, v: u32, w: nat)
    requires
        0 <= p,
        p + decimal(v as nat, w).len() <= s.len(),
        s.subrange(p, p + decimal(v as nat, w).len()) == decimal(v as nat, w),
        p + decimal(v as nat, w).len() < s.len() ==> !is_digit(s[p + decimal(v as nat, w).len()]),
    ensures
        spec_number(s, p) == Some((v, p + decimal(v as nat, w).len())),
        !placeholder_at(s, p, w as int) || w == 0,
{
    let k = decimal(v as nat, w).len();
    lemma_decimal(v as nat, w);
    lemma_digit_run(s, p, p + k);
    assert(is_digit(s.subrange(p, p + k)[0]));
    assert(s[p] == s.subrange(p, p + k)[0]);
}

/// The zero-padded rendering of a value below `10^w` is `w` digits that read
/// back as that value and hold no placeholder.
pub proof fn lemma_fixed_reads_decimal(s: Seq<char>, p: int, v: u32, w: nat)
    requires
        1 <= w,
        v < pow10(w),
        0 <= p,
        p + w <= s.len(),
        s.subrange(p, p + w) == decimal(v as nat, w),
    ensures
        spec_fixed(s, p, w as int) == Some((v, p + w)),
        !placeholder_at(s, p, w as int),
{
    lemma_decimal(v as nat, w);
    assert(is_digit(s.subrange(p, p + w)[0]));
    assert(s[p] == s.subrange(p, p + w)[0]);
}

/// `N` slashes are a placeholder run.
pub proof fn lemma_slashes_placeholder(s: Seq<char>, p: int, n: nat)
    requires
        0 <= p,
        p + n <= s.len(),
        s.subrange(p, p + n) == slashes(n),
    ensures
        placeholder_at(s, p, n as int),
{
    assert forall|i: int| p <= i < p + n implies #[trigger] s[i] == '/' by {
        assert(s[i] == s.subrange(p, p + n)[i - p]);
    }
}

/// The text of a fixed-width optional number reads back as that number.
pub proof fn lemma_fixed_field<const N: usize>(s: Seq<char>, p: int, o: OptionalNumber<N>)
    requires
        N >= 1,
        0 <= p,
        p + N <= s.len(),
        o matches OptionalData::Data(v) ==> v < pow10(N as nat),
        s.subrange(p, p + N) == render_number(o),
    ensures
        render_number(o).len() == N,
        spec_optional::<u32, N>(s, p, spec_fixed(s, p, N as int)) == Some((o, p + N)),
{
    match o {
        OptionalData::Undefined => {
            lemma_slashes_placeholder(s, p, N as nat);
        },
        OptionalData::Data(v) => {
            lemma_decimal(v as nat, N as nat);
            lemma_fixed_reads_decimal(s, p, v, N as nat);
        },
    }
}

} // verus!
