//! Report times: day, hour and minute in UTC, placed in a month and year by a
//! reference instant.
use vstd::prelude::*;
use vstd::arithmetic::div_mod::lemma_mod_multiples_vanish;
use crate::optional_data::{decimal, lemma_decimal, lemma_fixed_reads_decimal, push_decimal, string_of};
use crate::scan::{agrees, char_at, fixed_at, lemma_value_bound, mismatch, pow10, spec_fixed, DecodeError, ErrorKind};

verus! {

/// A civil date and time of day in UTC, to the minute.
#[derive(Debug, Clone, Copy, PartialEq, Eq)]
pub struct Timestamp {
    pub year: i32,
    pub month: u8,
    pub day: u8,
    pub hour: u8,
    pub minute: u8,
}

pub open spec fn fields_in_range(day: u8, hour: u8, minute: u8) -> bool {
    1 <= day <= 31 && hour <= 23 && minute <= 59
}

impl Timestamp {
    pub open spec fn wf(&self) -> bool {
        1 <= self.month <= 12 && fields_in_range(self.day, self.hour, self.minute)
    }

    /// Day, hour and minute as two digits each, then the zone marker `Z`.
    pub open spec fn render(&self) -> Seq<char> {
        decimal(self.day as nat, 2) + decimal(self.hour as nat, 2) + decimal(self.minute as nat, 2) + seq!['Z']
    }

    pub fn new(year: i32, month: u8, day: u8, hour: u8, minute: u8) -> (r: Self)
        requires
            1 <= month <= 12,
            fields_in_range(day, hour, minute),
        ensures
            r == (Timestamp { year, month, day, hour, minute }),
            r.wf(),
    {
        Timestamp { year, month, day, hour, minute }
    }

    pub fn to_string(&self) -> (r: String)
        ensures
            r@ == self.render(),
    {
        let mut out: Vec<char> = Vec::new();
        push_decimal(&mut out, self.day as u32, 2);
        push_decimal(&mut out, self.hour as u32, 2);
        push_decimal(&mut out, self.minute as u32, 2);
        out.push('Z');
        assert(out@ =~= self.render());
        string_of(&out)
    }
}

/// `(day, hour, minute)` is not after the reference's, in lexicographic order.
pub open spec fn not_after(day: u8, hour: u8, minute: u8, r: Timestamp) -> bool {
    day < r.day || (day == r.day && (hour < r.hour || (hour == r.hour && minute <= r.minute)))
}

/// Places a day, hour and minute in the reference's month when they are not
/// after it, and otherwise in the month before (December of the year before,
/// for a January reference).
pub open spec fn resolve(r: Timestamp, day: u8, hour: u8, minute: u8) -> Timestamp {
    if not_after(day, hour, minute, r) {
        Timestamp { year: r.year, month: r.month, day, hour, minute }
    } else if r.month == 1 {
        Timestamp { year: (r.year - 1) as i32, month: 12, day, hour, minute }
    } else {
        Timestamp { year: r.year, month: (r.month - 1) as u8, day, hour, minute }
    }
}

pub open spec fn spec_two_digits(s: Seq<char>, p: int) -> Option<(u8, int)> {
    match spec_fixed(s, p, 2) {
        Some((v, q)) => Some((v as u8, q)),
        None => None,
    }
}

/// Six digits and `Z`, read as day, hour and minute.
pub open spec fn spec_day_hour_minute(s: Seq<char>, p: int) -> Option<((u8, u8, u8), int)> {
    match spec_two_digits(s, p) {
        Some((d, p1)) => match spec_two_digits(s, p1) {
            Some((h, p2)) => match spec_two_digits(s, p2) {
                Some((m, p3)) => if 0 <= p3 < s.len() && s[p3] == 'Z' {
                    Some(((d, h, m), p3 + 1))
                } else {
                    None
                },
                None => None,
            },
            None => None,
        },
        None => None,
    }
}

pub open spec fn is_leap_year(y: int) -> bool {
    y % 4 == 0 && (y % 100 != 0 || y % 400 == 0)
}

/// The number of days of month `m` (1 to 12) of year `y` in the Gregorian calendar.
pub open spec fn days_in_month(y: int, m: int) -> int {
    if m == 2 {
        if is_leap_year(y) {
            29
        } else {
            28
        }
    } else if m == 4 || m == 6 || m == 9 || m == 11 {
        30
    } else {
        31
    }
}

/// The day exists in the timestamp's month.
pub open spec fn on_calendar(t: Timestamp) -> bool {
    t.day <= days_in_month(t.year as int, t.month as int)
}

/// The digits and the marker are well formed but name no minute of the
/// resolved month: a field out of its range, or a day past the month's end.
pub open spec fn time_out_of_range(s: Seq<char>, p: int, r: Timestamp) -> bool {
    match spec_day_hour_minute(s, p) {
        Some(((d, h, m), q)) => !fields_in_range(d, h, m) || !on_calendar(resolve(r, d, h, m)),
        None => false,
    }
}

/// A time group at `p`, resolved against the reference `r`; fields outside a
/// calendar day's range, and days past the end of the resolved month, do not
/// decode.
pub open spec fn spec_timestamp(s: Seq<char>, p: int, r: Timestamp) -> Option<(Timestamp, int)> {
    match spec_day_hour_minute(s, p) {
        Some(((d, h, m), q)) => if fields_in_range(d, h, m) && on_calendar(resolve(r, d, h, m)) {
            Some((resolve(r, d, h, m), q))
        } else {
            None
        },
        None => None,
    }
}

fn parse_double_digit(s: &[char], pos: usize) -> (r: Option<(u8, usize)>)
    ensures
        crate::scan::lift(r) == spec_two_digits(s@, pos as int),
{
    match fixed_at(s, pos, 2) {
        Some((v, q)) => {
            proof {
                lemma_value_bound(s@.subrange(pos as int, pos + 2));
                assert(pow10(2) == 100) by {
                    reveal_with_fuel(pow10, 3);
                }
            }
            Some((v as u8, q))
        },
        None => None,
    }
}

/// The timestamp that `resolve` gives.
fn get_date_form_fields(reference: &Timestamp, day: u8, hour: u8, minute: u8) -> (r: Timestamp)
    requires
        reference.wf(),
        reference.year > i32::MIN,
    ensures
        r == resolve(*reference, day, hour, minute),
{
    let not_later = day < reference.day || (day == reference.day && (hour < reference.hour || (hour
        == reference.hour && minute <= reference.minute)));
    if not_later {
        Timestamp { year: reference.year, month: reference.month, day, hour, minute }
    } else if reference.month == 1 {
        Timestamp { year: reference.year - 1, month: 12, day, hour, minute }
    } else {
        Timestamp { year: reference.year, month: reference.month - 1, day, hour, minute }
    }
}

/// Decodes a time group such as `281250Z` at `pos` against `reference`.
pub fn nom_metar_timestamp_with_zone(s: &[char], pos: usize, reference: &Timestamp) -> (r: Result<
    (Timestamp, usize),
    DecodeError,
>)
    requires
        reference.wf(),
        reference.year > i32::MIN,
    ensures
        agrees(r, spec_timestamp(s@, pos as int, *reference), s@.len() as int),
        r is Ok ==> r.unwrap().0.wf(),
        r is Err ==> r->Err_0.kind != ErrorKind::ClockUnavailable,
        r is Err ==> (r->Err_0.kind == ErrorKind::OutOfRange <==> time_out_of_range(s@, pos as int, *reference)),
{
    let (day, p1) = match parse_double_digit(s, pos) {
        Some(x) => x,
        None => return Err(mismatch(s, pos)),
    };
    let (hour, p2) = match parse_double_digit(s, p1) {
        Some(x) => x,
        None => return Err(mismatch(s, p1)),
    };
    let (minute, p3) = match parse_double_digit(s, p2) {
        Some(x) => x,
        None => return Err(mismatch(s, p2)),
    };
    if !char_at(s, p3, 'Z') {
        return Err(mismatch(s, p3));
    }
    if !(1 <= day && day <= 31 && hour <= 23 && minute <= 59) {
        return Err(DecodeError { position: pos, kind: ErrorKind::OutOfRange });
    }
    let t = get_date_form_fields(reference, day, hour, minute);
    if t.day > month_length(t.year, t.month) {
        return Err(DecodeError { position: pos, kind: ErrorKind::OutOfRange });
    }
    Ok((t, p3 + 1))
}

fn month_length(year: i32, month: u8) -> (r: u8)
    ensures
        r as int == days_in_month(year as int, month as int),
{
    if month == 2 {
        let shifted: u64 = (year as i64 + 2_400_000_000i64) as u64;
        proof {
            lemma_mod_multiples_vanish(6_000_000, year as int, 400);
            lemma_mod_multiples_vanish(24_000_000, year as int, 100);
            lemma_mod_multiples_vanish(600_000_000, year as int, 4);
        }
        if shifted % 4 == 0 && (shifted % 100 != 0 || shifted % 400 == 0) {
            29
        } else {
            28
        }
    } else if month == 4 || month == 6 || month == 9 || month == 11 {
        30
    } else {
        31
    }
}

/// Relies on jiff's `Timestamp::try_from(SystemTime)`,
/// `SignedDuration::try_from_hours`, `Timestamp::checked_add` and
/// `Timestamp::to_zoned`: the system clock moved by `hours`, read in UTC
/// through jiff's field getters, whose documented ranges are those of
/// `Timestamp::wf` and a year in `-9999..=9999`. `None` where the clock or the
/// sum lies outside jiff's range.
#[verifier::external_body]
fn utc_clock_plus_hours(hours: i64) -> (r: Option<Timestamp>)
    ensures
        r is Some ==> r.unwrap().wf() && -9999 <= r.unwrap().year <= 9999,
{
    let now = jiff::Timestamp::try_from(std::time::SystemTime::now()).ok()?;
    let later = now.checked_add(jiff::SignedDuration::try_from_hours(hours)?).ok()?;
    let z = later.to_zoned(jiff::tz::TimeZone::UTC);
    Some(Timestamp {
        year: z.year() as i32,
        month: z.month() as u8,
        day: z.day() as u8,
        hour: z.hour() as u8,
        minute: z.minute() as u8,
    })
}

/// How far ahead of the clock the default reference lies, so that a report
/// stamped slightly ahead of the local clock still counts as belonging to the
/// current month.
pub const REFERENCE_LEAD_HOURS: i64 = 1;

/// The reference instant used when none is given: the current time in UTC
/// plus `REFERENCE_LEAD_HOURS`; `None` where the clock cannot be read.
pub fn default_reference() -> (r: Option<Timestamp>)
    ensures
        r is Some ==> r.unwrap().wf() && r.unwrap().year > i32::MIN,
{
    utc_clock_plus_hours(REFERENCE_LEAD_HOURS)
}

/// Decodes a time group at `pos` against the default reference; where the
/// clock cannot be read it fails with `ClockUnavailable`.
pub fn nom_metar_timestamp(s: &[char], pos: usize) -> (r: Result<(Timestamp, usize), DecodeError>)
    ensures
        (r is Err && r->Err_0.kind == ErrorKind::ClockUnavailable) || exists|rf: Timestamp|
            rf.wf() && rf.year > i32::MIN && agrees(r, spec_timestamp(s@, pos as int, rf), s@.len() as int),
        r is Ok ==> r.unwrap().0.wf(),
{
    match default_reference() {
        Some(reference) => nom_metar_timestamp_with_zone(s, pos, &reference),
        None => Err(DecodeError { position: if pos <= s.len() { pos } else { s.len() }, kind: ErrorKind::ClockUnavailable }),
    }
}

/// A time group that comes after the reference's day, hour and minute is placed
/// in the month before the reference's, a year earlier for a January
/// reference; one that does not come after stays in the reference's month.
pub proof fn lemma_rollover(r: Timestamp, day: u8, hour: u8, minute: u8)
    requires
        r.wf(),
        r.year > i32::MIN,
    ensures
        !not_after(day, hour, minute, r) && r.month == 1 ==> resolve(r, day, hour, minute).month == 12
            && resolve(r, day, hour, minute).year == r.year - 1,
        !not_after(day, hour, minute, r) && r.month > 1 ==> resolve(r, day, hour, minute).month == r.month - 1
            && resolve(r, day, hour, minute).year == r.year,
        not_after(day, hour, minute, r) ==> resolve(r, day, hour, minute).month == r.month
            && resolve(r, day, hour, minute).year == r.year,
        (resolve(r, day, hour, minute).day, resolve(r, day, hour, minute).hour, resolve(r, day, hour, minute).minute)
            == (day, hour, minute),
{
}

/// A timestamp renders to a time group that, against itself as reference,
/// decodes back to it; against any reference it keeps its day, hour and minute.
pub proof fn lemma_timestamp_round_trip(t: Timestamp, r: Timestamp)
    requires
        t.wf(),
        on_calendar(t),
        r.wf(),
        r.year > i32::MIN,
    ensures
        spec_timestamp(t.render(), 0, t) == Some((t, 7int)),
        on_calendar(resolve(r, t.day, t.hour, t.minute)) ==> spec_timestamp(t.render(), 0, r) == Some(
            (resolve(r, t.day, t.hour, t.minute), 7int),
        ),
{
    let s = t.render();
    let a = decimal(t.day as nat, 2);
    let b = decimal(t.hour as nat, 2);
    let c = decimal(t.minute as nat, 2);
    assert(pow10(2) == 100) by {
        reveal_with_fuel(pow10, 3);
    }
    lemma_decimal(t.day as nat, 2);
    lemma_decimal(t.hour as nat, 2);
    lemma_decimal(t.minute as nat, 2);
    assert(s.len() == 7);
    assert(s.subrange(0, 2) =~= a);
    assert(s.subrange(2, 4) =~= b);
    assert(s.subrange(4, 6) =~= c);
    assert(s[6] == 'Z');
    lemma_fixed_reads_decimal(s, 0, t.day as u32, 2);
    lemma_fixed_reads_decimal(s, 2, t.hour as u32, 2);
    lemma_fixed_reads_decimal(s, 4, t.minute as u32, 2);
    assert(resolve(t, t.day, t.hour, t.minute) == t);
}

} // verus!
