//! Character-level building blocks shared by every field decoder: digit runs,
//! fixed-width numbers, literal tags, and the decode error type.
use vstd::prelude::*;

verus! {

/// Where and why a decode stopped.
#[derive(Debug, Clone, Copy, PartialEq, Eq)]
pub enum ErrorKind {
    /// The text at `position` does not have the shape the field asks for.
    Mismatch,
    /// A value was read but lies outside the field's domain.
    OutOfRange,
    /// No reference instant could be read from the system clock.
    ClockUnavailable,
}

/// A decode failure: the offset (in characters) into the input and its nature.
#[derive(Debug, Clone, Copy, PartialEq, Eq)]
pub struct DecodeError {
    pub position: usize,
    pub kind: ErrorKind,
}

pub open spec fn is_digit(c: char) -> bool {
    '0' <= c && c <= '9'
}

pub open spec fn digit_value(c: char) -> int {
    c as int - '0' as int
}

pub open spec fn is_alphanumeric(c: char) -> bool {
    is_digit(c) || ('a' <= c && c <= 'z') || ('A' <= c && c <= 'Z')
}

/// The number written by a run of decimal digits, most significant first.
pub open spec fn value_of(d: Seq<char>) -> int
    decreases d.len(),
{
    if d.len() == 0 {
        0
    } else {
        value_of(d.drop_last()) * 10 + digit_value(d.last())
    }
}

pub open spec fn all_digits(d: Seq<char>) -> bool {
    forall|i: int| 0 <= i < d.len() ==> is_digit(#[trigger] d[i])
}

pub open spec fn pow10(n: nat) -> int
    decreases n,
{
    if n == 0 {
        1
    } else {
        10 * pow10((n - 1) as nat)
    }
}

/// The end of the longest run of characters satisfying `is_digit` that starts at `p`.
pub open spec fn digit_run_end(s: Seq<char>, p: int) -> int
    decreases s.len() - p,
{
    if 0 <= p < s.len() && is_digit(s[p]) {
        digit_run_end(s, p + 1)
    } else {
        p
    }
}

/// The end of the longest run of ASCII letters and digits that starts at `p`.
pub open spec fn alnum_run_end(s: Seq<char>, p: int) -> int
    decreases s.len() - p,
{
    if 0 <= p < s.len() && is_alphanumeric(s[p]) {
        alnum_run_end(s, p + 1)
    } else {
        p
    }
}

/// An unsigned number of one or more digits, read greedily; it fails when the
/// digits do not fit in a `u32`.
pub open spec fn spec_number(s: Seq<char>, p: int) -> Option<(u32, int)> {
    let q = digit_run_end(s, p);
    if 0 <= p && p < q && value_of(s.subrange(p, q)) <= u32::MAX {
        Some((value_of(s.subrange(p, q)) as u32, q))
    } else {
        None
    }
}

/// Exactly `w` digits starting at `p`, whose value fits in a `u32`.
pub open spec fn spec_fixed(s: Seq<char>, p: int, w: int) -> Option<(u32, int)> {
    if 0 <= p && p + w <= s.len() && all_digits(s.subrange(p, p + w)) && value_of(s.subrange(p, p + w)) <= u32::MAX {
        Some((value_of(s.subrange(p, p + w)) as u32, p + w))
    } else {
        None
    }
}

/// `t` is written at position `p` of `s`.
pub open spec fn tag_at(s: Seq<char>, p: int, t: Seq<char>) -> bool {
    0 <= p && p + t.len() <= s.len() && s.subrange(p, p + t.len()) == t
}

/// `n` placeholder characters `/` stand at position `p`.
pub open spec fn placeholder_at(s: Seq<char>, p: int, n: int) -> bool {
    0 <= p && p + n <= s.len() && forall|i: int| p <= i < p + n ==> #[trigger] s[i] == '/'
}

/// An executable result agrees with a spec decoder's outcome.
pub open spec fn agrees<T>(r: Result<(T, usize), DecodeError>, m: Option<(T, int)>, len: int) -> bool {
    match r {
        Ok((v, q)) => m == Some((v, q as int)),
        Err(e) => m is None && e.position <= len,
    }
}

pub open spec fn lift<T>(r: Option<(T, usize)>) -> Option<(T, int)> {
    match r {
        Some((v, q)) => Some((v, q as int)),
        None => None,
    }
}

pub proof fn lemma_value_push(d: Seq<char>, c: char)
    ensures
        value_of(d.push(c)) == value_of(d) * 10 + digit_value(c),
{
    assert(d.push(c).drop_last() =~= d);
}

pub proof fn lemma_value_bound(d: Seq<char>)
    requires
        all_digits(d),
    ensures
        0 <= value_of(d) < pow10(d.len()),
    decreases d.len(),
{
    if d.len() > 0 {
        let e = d.drop_last();
        assert(all_digits(e)) by {
            assert forall|i: int| 0 <= i < e.len() implies is_digit(#[trigger] e[i]) by {
                assert(e[i] == d[i]);
            }
        }
        lemma_value_bound(e);
        let v = value_of(e);
        let pw = pow10(e.len());
        assert(is_digit(d[d.len() - 1]));
        let c = digit_value(d.last());
        assert(0 <= c <= 9);
        assert(0 <= v * 10 + c < pw * 10) by (nonlinear_arith)
            requires 0 <= v < pw, 0 <= c <= 9;
        assert(pow10(d.len()) == 10 * pw);
    }
}

/// Extending a run of digits never makes its value smaller.
pub proof fn lemma_value_prefix(d: Seq<char>, k: int)
    requires
        all_digits(d),
        0 <= k <= d.len(),
    ensures
        value_of(d.subrange(0, k)) <= value_of(d),
    decreases d.len(),
{
    if k < d.len() {
        let e = d.drop_last();
        assert(all_digits(e)) by {
            assert forall|i: int| 0 <= i < e.len() implies is_digit(#[trigger] e[i]) by {
                assert(e[i] == d[i]);
            }
        }
        lemma_value_prefix(e, k);
        assert(e.subrange(0, k) =~= d.subrange(0, k));
        lemma_value_bound(e);
        assert(is_digit(d[d.len() - 1]));
    } else {
        assert(d.subrange(0, k) =~= d);
    }
}

pub proof fn lemma_digit_run(s: Seq<char>, p: int, i: int)
    requires
        0 <= p <= i <= s.len(),
        all_digits(s.subrange(p, i)),
    ensures
        digit_run_end(s, p) == digit_run_end(s, i),
    decreases i - p,
{
    if p < i {
        assert(is_digit(s.subrange(p, i)[0]));
        assert(s.subrange(p + 1, i) =~= s.subrange(p, i).subrange(1, i - p));
        lemma_digit_run(s, p + 1, i);
    }
}

pub proof fn lemma_run_end_digits(s: Seq<char>, p: int)
    requires
        0 <= p <= s.len(),
    ensures
        p <= digit_run_end(s, p) <= s.len(),
        all_digits(s.subrange(p, digit_run_end(s, p))),
        digit_run_end(s, p) < s.len() ==> !is_digit(s[digit_run_end(s, p)]),
    decreases s.len() - p,
{
    if p < s.len() && is_digit(s[p]) {
        lemma_run_end_digits(s, p + 1);
        let q = digit_run_end(s, p);
        assert forall|i: int| 0 <= i < q - p implies is_digit(#[trigger] s.subrange(p, q)[i]) by {
            if i > 0 {
                assert(s.subrange(p, q)[i] == s.subrange(p + 1, q)[i - 1]);
            }
        }
    }
}

pub fn char_is_digit(c: char) -> (r: bool)
    ensures
        r == is_digit(c),
{
    '0' <= c && c <= '9'
}

pub fn char_is_alphanumeric(c: char) -> (r: bool)
    ensures
        r == is_alphanumeric(c),
{
    ('0' <= c && c <= '9') || ('a' <= c && c <= 'z') || ('A' <= c && c <= 'Z')
}

fn char_digit(c: char) -> (r: u32)
    requires
        is_digit(c),
    ensures
        r as int == digit_value(c),
        r <= 9,
{
    (c as u32) - ('0' as u32)
}

/// Reads a greedy run of digits at `pos` as a `u32`.
pub fn number_at(s: &[char], pos: usize) -> (r: Option<(u32, usize)>)
    ensures
        lift(r) == spec_number(s@, pos as int),
{
    if pos > s.len() {
        return None;
    }
    let mut i: usize = pos;
    let mut acc: u64 = 0;
    while i < s.len() && char_is_digit(s[i])
        invariant
            pos <= i <= s.len(),
            all_digits(s@.subrange(pos as int, i as int)),
            acc as int == value_of(s@.subrange(pos as int, i as int)),
            acc <= u32::MAX,
            digit_run_end(s@, pos as int) == digit_run_end(s@, i as int),
        decreases s.len() - i,
    {
        let d = char_digit(s[i]);
        let next: u64 = acc * 10 + d as u64;
        proof {
            assert(s@.subrange(pos as int, i + 1) =~= s@.subrange(pos as int, i as int).push(s@[i as int]));
            lemma_value_push(s@.subrange(pos as int, i as int), s@[i as int]);
        }
        if next > u32::MAX as u64 {
            proof {
                let q = digit_run_end(s@, pos as int);
                lemma_run_end_digits(s@, pos as int);
                assert(digit_run_end(s@, i as int) == digit_run_end(s@, i + 1));
                lemma_run_end_digits(s@, i + 1);
                let full = s@.subrange(pos as int, q);
                assert(full.subrange(0, i + 1 - pos) =~= s@.subrange(pos as int, i + 1));
                lemma_value_prefix(full, i + 1 - pos);
            }
            return None;
        }
        acc = next;
        i = i + 1;
        proof {
            assert forall|k: int| 0 <= k < i - pos implies is_digit(#[trigger] s@.subrange(pos as int, i as int)[k]) by {
                if k < i - 1 - pos {
                    assert(s@.subrange(pos as int, i as int)[k] == s@.subrange(pos as int, i - 1)[k]);
                }
            }
        }
    }
    if i == pos {
        None
    } else {
        Some((acc as u32, i))
    }
}

/// Reads exactly `w` digits at `pos`.
pub fn fixed_at(s: &[char], pos: usize, w: usize) -> (r: Option<(u32, usize)>)
    ensures
        lift(r) == spec_fixed(s@, pos as int, w as int),
{
    if pos > s.len() || w > s.len() - pos {
        return None;
    }
    let mut i: usize = pos;
    let mut acc: u64 = 0;
    while i < pos + w
        invariant
            pos <= i <= pos + w <= s.len(),
            all_digits(s@.subrange(pos as int, i as int)),
            acc as int == value_of(s@.subrange(pos as int, i as int)),
            acc <= u32::MAX,
        decreases pos + w - i,
    {
        if !char_is_digit(s[i]) {
            proof {
                let sub = s@.subrange(pos as int, pos + w);
                assert(sub[i - pos] == s@[i as int]);
            }
            return None;
        }
        let d = char_digit(s[i]);
        let next: u64 = acc * 10 + d as u64;
        proof {
            assert(s@.subrange(pos as int, i + 1) =~= s@.subrange(pos as int, i as int).push(s@[i as int]));
            lemma_value_push(s@.subrange(pos as int, i as int), s@[i as int]);
        }
        if next > u32::MAX as u64 {
            proof {
                let full = s@.subrange(pos as int, pos + w);
                if all_digits(full) {
                    assert(full.subrange(0, i + 1 - pos) =~= s@.subrange(pos as int, i + 1));
                    lemma_value_prefix(full, i + 1 - pos);
                }
            }
            return None;
        }
        acc = next;
        i = i + 1;
        proof {
            assert forall|k: int| 0 <= k < i - pos implies is_digit(#[trigger] s@.subrange(pos as int, i as int)[k]) by {
                if k < i - 1 - pos {
                    assert(s@.subrange(pos as int, i as int)[k] == s@.subrange(pos as int, i - 1)[k]);
                }
            }
        }
    }
    Some((acc as u32, i))
}

/// The end of the run of ASCII letters and digits at `pos`.
pub fn alnum_end(s: &[char], pos: usize) -> (r: usize)
    requires
        pos <= s.len(),
    ensures
        r as int == alnum_run_end(s@, pos as int),
        pos <= r <= s.len(),
{
    let mut i: usize = pos;
    while i < s.len() && char_is_alphanumeric(s[i])
        invariant
            pos <= i <= s.len(),
            alnum_run_end(s@, pos as int) == alnum_run_end(s@, i as int),
        decreases s.len() - i,
    {
        i = i + 1;
    }
    i
}

/// Whether the literal `t` is written at `pos`.
pub fn has_tag(s: &[char], pos: usize, t: &str) -> (r: bool)
    ensures
        r == tag_at(s@, pos as int, t@),
{
    let n = t.unicode_len();
    if pos > s.len() || n > s.len() - pos {
        return false;
    }
    let mut i: usize = 0;
    while i < n
        invariant
            n == t@.len(),
            pos + n <= s.len(),
            i <= n,
            forall|k: int| 0 <= k < i ==> s@[pos + k] == t@[k],
        decreases n - i,
    {
        if s[pos + i] != t.get_char(i) {
            proof {
                assert(s@.subrange(pos as int, pos + n)[i as int] == s@[pos + i]);
            }
            return false;
        }
        i = i + 1;
    }
    assert(s@.subrange(pos as int, pos + n) =~= t@);
    true
}

/// Whether `n` placeholder characters stand at `pos`.
pub fn placeholders(s: &[char], pos: usize, n: usize) -> (r: bool)
    ensures
        r == placeholder_at(s@, pos as int, n as int),
{
    if pos > s.len() || n > s.len() - pos {
        return false;
    }
    let mut i: usize = pos;
    while i < pos + n
        invariant
            pos <= i <= pos + n <= s.len(),
            forall|k: int| pos <= k < i ==> s@[k] == '/',
        decreases pos + n - i,
    {
        if s[i] != '/' {
            return false;
        }
        i = i + 1;
    }
    true
}

/// Whether the character `c` stands at `pos`.
pub fn char_at(s: &[char], pos: usize, c: char) -> (r: bool)
    ensures
        r == (pos < s.len() && s@[pos as int] == c),
{
    pos < s.len() && s[pos] == c
}

/// A shape mismatch at `pos`, clamped to the end of the input.
pub fn mismatch(s: &[char], pos: usize) -> (e: DecodeError)
    ensures
        e.position <= s@.len(),
        e.kind == ErrorKind::Mismatch,
{
    DecodeError { position: if pos <= s.len() { pos } else { s.len() }, kind: ErrorKind::Mismatch }
}

/// An executable result agrees, through its view, with a spec decoder's outcome.
pub open spec fn agrees_view<T: View>(r: Result<(T, usize), DecodeError>, m: Option<(T::V, int)>, len: int) -> bool {
    match r {
        Ok((v, q)) => m == Some((v@, q as int)),
        Err(e) => m is None && e.position <= len,
    }
}

/// The characters of `s` from `a` up to `b`, as a `String`.
pub fn substring(s: &[char], a: usize, b: usize) -> (r: String)
    requires
        a <= b <= s@.len(),
    ensures
        r@ == s@.subrange(a as int, b as int),
{
    let mut out: Vec<char> = Vec::new();
    let mut i: usize = a;
    while i < b
        invariant
            a <= i <= b <= s@.len(),
            out@ == s@.subrange(a as int, i as int),
        decreases b - i,
    {
        out.push(s[i]);
        i = i + 1;
        proof {
            assert(out@ =~= s@.subrange(a as int, i as int));
        }
    }
    crate::optional_data::string_of(&out)
}

/// The three parts of a concatenation are its subranges.
pub proof fn lemma_concat3<A>(a: Seq<A>, b: Seq<A>, c: Seq<A>)
    ensures
        (a + b + c).subrange(0, a.len() as int) == a,
        (a + b + c).subrange(a.len() as int, (a.len() + b.len()) as int) == b,
        (a + b + c).subrange((a.len() + b.len()) as int, (a + b + c).len() as int) == c,
{
    assert((a + b + c).subrange(0, a.len() as int) =~= a);
    assert((a + b + c).subrange(a.len() as int, (a.len() + b.len()) as int) =~= b);
    assert((a + b + c).subrange((a.len() + b.len()) as int, (a + b + c).len() as int) =~= c);
}

} // verus!
