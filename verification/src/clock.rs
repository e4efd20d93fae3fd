//! The clock: the current UTC date and time, read from the system clock through
//! `chrono`, and the date stamps written from a date and time.

use chrono::{Datelike, Timelike};
use vstd::prelude::*;
use crate::text::{decimal, push_char, push_decimal};

verus! {

/// A calendar date and time of day, as the clock reads them.
pub struct ClockTime {
    pub year: i32,
    pub month: u32,
    pub day: u32,
    pub hour: u32,
    pub minute: u32,
    pub second: u32,
}

impl ClockTime {
    /// The ranges that `chrono` keeps its fields in.
    pub open spec fn valid(&self) -> bool {
        &&& -262143 <= self.year <= 262142
        &&& 1 <= self.month <= 12
        &&& 1 <= self.day <= 31
        &&& self.hour <= 23
        &&& self.minute <= 59
        &&& self.second <= 59
    }
}

#[verifier::external_type_specification]
#[verifier::external_body]
pub struct ExSystemTime(std::time::SystemTime);

/// `std::time::SystemTime::now()`: a reading of the system clock. Nothing is claimed
/// of it; it never panics.
#[verifier::external_body]
fn system_now() -> (t: std::time::SystemTime) {
    std::time::SystemTime::now()
}

/// `SystemTime::duration_since(UNIX_EPOCH)` on `t`: `Ok` with the whole seconds and
/// the nanoseconds past them (`Duration::as_secs`, `Duration::subsec_nanos`) when `t`
/// is not before 1970, otherwise `Err` with how far before 1970 it lies
/// (`SystemTimeError::duration`). The contract claims only that the nanoseconds are
/// below one billion, as `subsec_nanos` documents; which reading `t` holds is opaque
/// to the library, so the answer is not tied to it.
#[verifier::external_body]
fn since_epoch(t: &std::time::SystemTime) -> (r: Result<(u64, u32), (u64, u32)>)
    ensures
        match r {
            Ok((_, n)) => n < 1_000_000_000,
            Err((_, n)) => n < 1_000_000_000,
        },
{
    match t.duration_since(std::time::UNIX_EPOCH) {
        Ok(d) => Ok((d.as_secs(), d.subsec_nanos())),
        Err(e) => Err((e.duration().as_secs(), e.duration().subsec_nanos())),
    }
}

/// A clock reading as signed whole seconds since 1970 and the nanoseconds past them:
/// `after` seconds and nanoseconds after 1970 as they are, `before` seconds and
/// nanoseconds before 1970 as the second at or before that instant and the
/// nanoseconds from it; `None` when the seconds do not fit in an `i64`.
pub open spec fn unix_timestamp(r: Result<(u64, u32), (u64, u32)>) -> Option<(i64, u32)> {
    match r {
        Ok((s, n)) => if s <= i64::MAX {
            Some((s as i64, n))
        } else {
            None
        },
        Err((s, n)) => if n == 0 {
            if s <= 0x8000_0000_0000_0000 {
                Some(((-s) as i64, 0u32))
            } else {
                None
            }
        } else if s < 0x8000_0000_0000_0000 {
            Some(((-s - 1) as i64, (1_000_000_000 - n) as u32))
        } else {
            None
        },
    }
}

/// The signed timestamp is the clock reading: its seconds and nanoseconds add up to
/// the nanoseconds after 1970 (negative before it), with the nanoseconds below one
/// billion; a reading is refused only when its seconds do not fit in an `i64`.
pub proof fn lemma_unix_timestamp_value(r: Result<(u64, u32), (u64, u32)>)
    requires
        match r {
            Ok((_, n)) => n < 1_000_000_000,
            Err((_, n)) => n < 1_000_000_000,
        },
    ensures
        unix_timestamp(r) matches Some((secs, nanos)) ==> {
            &&& nanos < 1_000_000_000
            &&& secs * 1_000_000_000 + nanos == match r {
                Ok((s, n)) => s * 1_000_000_000 + n,
                Err((s, n)) => -(s * 1_000_000_000 + n),
            }
        },
        unix_timestamp(r) is None ==> match r {
            Ok((s, _)) => s > i64::MAX,
            Err((s, n)) => s * 1_000_000_000 + n > 0x8000_0000_0000_0000 * 1_000_000_000,
        },
{
}

/// The signed timestamp of a clock reading (see `unix_timestamp`).
fn unix_timestamp_of(r: Result<(u64, u32), (u64, u32)>) -> (t: Option<(i64, u32)>)
    requires
        match r {
            Ok((_, n)) => n < 1_000_000_000,
            Err((_, n)) => n < 1_000_000_000,
        },
    ensures
        t == unix_timestamp(r),
{
    match r {
        Ok((s, n)) => if s <= 0x7fff_ffff_ffff_ffff {
            Some((s as i64, n))
        } else {
            None
        },
        Err((s, n)) => if n == 0 {
            if s < 0x8000_0000_0000_0000 {
                Some((-(s as i64), 0))
            } else if s == 0x8000_0000_0000_0000 {
                Some((i64::MIN, 0))
            } else {
                None
            }
        } else if s < 0x8000_0000_0000_0000 {
            Some((-(s as i64) - 1, 1_000_000_000 - n))
        } else {
            None
        },
    }
}

/// What `chrono` makes of a timestamp: the UTC date and time `secs` seconds and
/// `nanos` nanoseconds after 1970, or `None` when it lies outside `chrono`'s range.
pub uninterp spec fn utc_date_time(secs: i64, nanos: u32) -> Option<ClockTime>;

/// `chrono::DateTime::<Utc>::from_timestamp(secs, nanos)`, read through its
/// `Datelike` and `Timelike` fields. The contract claims that the answer depends on
/// the two arguments alone, and that a date it gives lies in the ranges `chrono`
/// documents for those fields (its years lie between -262143 and 262142);
/// `from_timestamp` returns `None` rather than panic outside its range.
#[verifier::external_body]
fn utc_at(secs: i64, nanos: u32) -> (t: Option<ClockTime>)
    ensures
        t == utc_date_time(secs, nanos),
        t matches Some(c) ==> c.valid(),
{
    match chrono::DateTime::from_timestamp(secs, nanos) {
        Some(dt) => Some(
            ClockTime {
                year: dt.year(),
                month: dt.month(),
                day: dt.day(),
                hour: dt.hour(),
                minute: dt.minute(),
                second: dt.second(),
            },
        ),
        None => None,
    }
}

/// The current time in UTC, read from the system clock; `None` when the reading lies
/// outside the dates that `chrono` represents. Readings before 1970 are dates too.
pub fn utc_now() -> (t: Option<ClockTime>)
    ensures
        t matches Some(c) ==> c.valid(),
{
    let now = system_now();
    match unix_timestamp_of(since_epoch(&now)) {
        Some((secs, nanos)) => utc_at(secs, nanos),
        None => None,
    }
}

/// `s` with zeros in front up to `width` characters.
pub open spec fn zero_pad(s: Seq<char>, width: nat) -> Seq<char> {
    if s.len() >= width {
        s
    } else {
        Seq::new((width - s.len()) as nat, |i: int| '0') + s
    }
}

/// A two-digit field, as `%m`, `%d`, `%H`, `%M` and `%S` write it.
pub open spec fn two_digits(n: nat) -> Seq<char> {
    zero_pad(decimal(n), 2)
}

/// The year as `%Y` writes it: four digits with leading zeros from 0 to 9999,
/// otherwise a sign and at least four digits.
pub open spec fn year_text(y: int) -> Seq<char> {
    if 0 <= y <= 9999 {
        zero_pad(decimal(y as nat), 4)
    } else if y > 9999 {
        seq!['+'] + zero_pad(decimal(y as nat), 4)
    } else {
        seq!['-'] + zero_pad(decimal((-y) as nat), 4)
    }
}

/// `%Y%m%d`: the date.
pub open spec fn day_stamp(t: ClockTime) -> Seq<char> {
    year_text(t.year as int) + two_digits(t.month as nat) + two_digits(t.day as nat)
}

/// `%Y%m%d%H`: the date and hour.
pub open spec fn hour_stamp(t: ClockTime) -> Seq<char> {
    day_stamp(t) + two_digits(t.hour as nat)
}

/// `%Y%m%d_%H%M%S`: the date and time to the second.
pub open spec fn second_stamp(t: ClockTime) -> Seq<char> {
    day_stamp(t) + seq!['_'] + two_digits(t.hour as nat) + two_digits(t.minute as nat) + two_digits(
        t.second as nat,
    )
}

/// Appends `n` with zeros in front up to `width` characters.
fn push_padded(s: &mut String, n: u64, width: u64)
    ensures
        final(s)@ == old(s)@ + zero_pad(decimal(n as nat), width as nat),
{
    let digits = crate::text::decimal_string(n);
    let len = crate::text::chars_of(digits.as_str()).len() as u64;
    let ghost start = s@;
    if len < width {
        let mut k: u64 = 0;
        while k < width - len
            invariant
                k <= width - len,
                len < width,
                s@ == start + Seq::new(k as nat, |i: int| '0'),
            decreases width - len - k,
        {
            push_char(s, '0');
            k += 1;
            assert(s@ =~= start + Seq::new(k as nat, |i: int| '0'));
        }
    }
    s.append(digits.as_str());
    assert(s@ =~= start + zero_pad(decimal(n as nat), width as nat));
}

/// Appends the year as `%Y` writes it.
fn push_year(s: &mut String, y: i32)
    ensures
        final(s)@ == old(s)@ + year_text(y as int),
{
    let ghost start = s@;
    if 0 <= y && y <= 9999 {
        push_padded(s, y as u64, 4);
    } else if y > 9999 {
        push_char(s, '+');
        push_padded(s, y as u64, 4);
        assert(s@ =~= start + year_text(y as int));
    } else {
        push_char(s, '-');
        let m: i64 = -(y as i64);
        push_padded(s, m as u64, 4);
        assert(s@ =~= start + year_text(y as int));
    }
}

/// `%Y%m%d` of `t` (see `day_stamp`).
pub fn day_stamp_text(t: &ClockTime) -> (s: String)
    ensures
        s@ == day_stamp(*t),
{
    let mut s = String::new();
    push_year(&mut s, t.year);
    push_padded(&mut s, t.month as u64, 2);
    push_padded(&mut s, t.day as u64, 2);
    s
}

/// `%Y%m%d%H` of `t` (see `hour_stamp`).
pub fn hour_stamp_text(t: &ClockTime) -> (s: String)
    ensures
        s@ == hour_stamp(*t),
{
    let mut s = day_stamp_text(t);
    push_padded(&mut s, t.hour as u64, 2);
    s
}

/// `%Y%m%d_%H%M%S` of `t` (see `second_stamp`).
pub fn second_stamp_text(t: &ClockTime) -> (s: String)
    ensures
        s@ == second_stamp(*t),
{
    let mut s = day_stamp_text(t);
    push_char(&mut s, '_');
    push_padded(&mut s, t.hour as u64, 2);
    push_padded(&mut s, t.minute as u64, 2);
    push_padded(&mut s, t.second as u64, 2);
    s
}

} // verus!
