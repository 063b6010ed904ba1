//! Calendar dates and day-times, the client-side stand-in for the wire
//! format's timestamp fields. The UI renders only the date portion, as
//! `MM/DD/YYYY`; parsing always lands on midnight.

use vstd::prelude::*;
use vstd::string::StringSliceAdditionalSpecFns;

use crate::ApiError;
use crate::text::{ascii_bytes, ascii_string, ascii_view, is_digit_byte};

verus! {

#[derive(Clone, Copy, Debug, PartialEq, Eq, Structural)]
pub struct Date {
    pub year: u32,
    pub month: u8,
    pub day: u8,
}

/// A calendar date plus the seconds elapsed since its midnight.
#[derive(Clone, Copy, Debug, PartialEq, Eq, Structural)]
pub struct DateTime {
    pub date: Date,
    pub secs: u32,
}

pub open spec fn is_leap_year(y: int) -> bool {
    y % 4 == 0 && (y % 100 != 0 || y % 400 == 0)
}

pub open spec fn spec_days_in_month(y: int, m: int) -> int {
    if m == 2 {
        if is_leap_year(y) {
            29
        } else {
            28
        }
    } else if m == 4 || m == 6 || m == 9 || m == 11 {
        30
    } else {
        31
    }
}

/// The UI renders years as exactly four digits, so the model stops at
/// year 9999.
pub open spec fn date_wf(d: Date) -> bool {
    &&& d.year <= 9999
    &&& 1 <= d.month <= 12
    &&& 1 <= d.day <= spec_days_in_month(d.year as int, d.month as int)
}

pub open spec fn datetime_wf(dt: DateTime) -> bool {
    &&& date_wf(dt.date)
    &&& dt.secs < 86400
}

/// Midnight at the start of the epoch: what the UI shows for an absent
/// received date.
pub open spec fn spec_epoch() -> DateTime {
    DateTime { date: Date { year: 1970, month: 1, day: 1 }, secs: 0 }
}

pub fn epoch_datetime() -> (r: DateTime)
    ensures
        r == spec_epoch(),
{
    DateTime { date: Date { year: 1970, month: 1, day: 1 }, secs: 0 }
}

pub open spec fn two_digit_bytes(v: int) -> Seq<u8> {
    seq![(48 + v / 10) as u8, (48 + v % 10) as u8]
}

pub open spec fn four_digit_bytes(v: int) -> Seq<u8> {
    seq![
        (48 + v / 1000) as u8,
        (48 + (v / 100) % 10) as u8,
        (48 + (v / 10) % 10) as u8,
        (48 + v % 10) as u8,
    ]
}

/// The fixed-width `MM/DD/YYYY` rendering of a date.
pub open spec fn date_bytes(d: Date) -> Seq<u8> {
    two_digit_bytes(d.month as int) + seq![47u8] + two_digit_bytes(d.day as int) + seq![47u8]
        + four_digit_bytes(d.year as int)
}

pub fn days_in_month(y: u32, m: u8) -> (r: u8)
    ensures
        r as int == spec_days_in_month(y as int, m as int),
{
    if m == 2 {
        if (y % 4 == 0 && y % 100 != 0) || y % 400 == 0 {
            29
        } else {
            28
        }
    } else if m == 4 || m == 6 || m == 9 || m == 11 {
        30
    } else {
        31
    }
}

/// Renders a date as `MM/DD/YYYY`.
pub fn format_date(d: &Date) -> (s: String)
    requires
        date_wf(*d),
    ensures
        s@ == ascii_view(date_bytes(*d)),
{
    let mut out: Vec<u8> = Vec::new();
    out.push(48 + d.month / 10);
    out.push(48 + d.month % 10);
    out.push(47);
    out.push(48 + d.day / 10);
    out.push(48 + d.day % 10);
    out.push(47);
    out.push(48 + (d.year / 1000) as u8);
    out.push(48 + ((d.year / 100) % 10) as u8);
    out.push(48 + ((d.year / 10) % 10) as u8);
    out.push(48 + (d.year % 10) as u8);
    assert(out@ =~= date_bytes(*d));
    assert(ascii_bytes(out@));
    ascii_string(out)
}

/// A valid `MM/DD/YYYY` string: exact shape, and a real calendar date.
pub open spec fn is_date_lit(b: Seq<u8>) -> bool {
    &&& b.len() == 10
    &&& is_digit_byte(b[0]) && is_digit_byte(b[1])
    &&& b[2] == 47
    &&& is_digit_byte(b[3]) && is_digit_byte(b[4])
    &&& b[5] == 47
    &&& is_digit_byte(b[6]) && is_digit_byte(b[7]) && is_digit_byte(b[8]) && is_digit_byte(b[9])
    &&& {
        let m = lit_month(b);
        let dd = lit_day(b);
        let y = lit_year(b);
        1 <= m <= 12 && 1 <= dd <= spec_days_in_month(y, m)
    }
}

pub open spec fn lit_month(b: Seq<u8>) -> int {
    (b[0] - 48) * 10 + (b[1] - 48)
}

pub open spec fn lit_day(b: Seq<u8>) -> int {
    (b[3] - 48) * 10 + (b[4] - 48)
}

pub open spec fn lit_year(b: Seq<u8>) -> int {
    (b[6] - 48) * 1000 + (b[7] - 48) * 100 + (b[8] - 48) * 10 + (b[9] - 48)
}

pub open spec fn spec_parse_date(b: Seq<u8>) -> Option<Date> {
    if is_date_lit(b) {
        Some(
            Date {
                year: lit_year(b) as u32,
                month: lit_month(b) as u8,
                day: lit_day(b) as u8,
            },
        )
    } else {
        None
    }
}

/// Parses a `MM/DD/YYYY` string; anything else is a `Parse` error.
pub fn parse_date(s: &str) -> (r: Result<Date, ApiError>)
    ensures
        r is Ok <==> is_date_lit(s.spec_bytes()),
        r matches Ok(d) ==> Some(d) == spec_parse_date(s.spec_bytes()) && date_wf(d),
        r is Err ==> r == Err::<Date, ApiError>(ApiError::Parse),
{
    let b = s.as_bytes();
    if b.len() != 10 {
        return Err(ApiError::Parse);
    }
    let d0 = b[0];
    let d1 = b[1];
    let d3 = b[3];
    let d4 = b[4];
    let d6 = b[6];
    let d7 = b[7];
    let d8 = b[8];
    let d9 = b[9];
    if b[2] != 47 || b[5] != 47 {
        return Err(ApiError::Parse);
    }
    if d0 < 48 || d0 > 57 || d1 < 48 || d1 > 57 || d3 < 48 || d3 > 57 || d4 < 48 || d4 > 57
        || d6 < 48 || d6 > 57 || d7 < 48 || d7 > 57 || d8 < 48 || d8 > 57 || d9 < 48 || d9 > 57 {
        return Err(ApiError::Parse);
    }
    let m: u8 = (d0 - 48) * 10 + (d1 - 48);
    let dd: u8 = (d3 - 48) * 10 + (d4 - 48);
    let y: u32 = (d6 - 48) as u32 * 1000 + (d7 - 48) as u32 * 100 + (d8 - 48) as u32 * 10 + (d9
        - 48) as u32;
    if m < 1 || m > 12 {
        return Err(ApiError::Parse);
    }
    if dd < 1 || dd > days_in_month(y, m) {
        return Err(ApiError::Parse);
    }
    let d = Date { year: y, month: m, day: dd };
    assert(is_date_lit(s.spec_bytes()));
    Ok(d)
}

/// Rendering a well-formed date and parsing the result gives the date
/// back: the round-trip law for the received-date field.
pub proof fn lemma_date_round_trip(d: Date)
    requires
        date_wf(d),
    ensures
        is_date_lit(date_bytes(d)),
        spec_parse_date(date_bytes(d)) == Some(d),
{
    let b = date_bytes(d);
    let m = d.month as int;
    let dd = d.day as int;
    let y = d.year as int;
    assert(b[0] == 48 + m / 10 && b[1] == 48 + m % 10);
    assert(b[3] == 48 + dd / 10 && b[4] == 48 + dd % 10);
    assert(b[6] == 48 + y / 1000);
    assert(b[7] == 48 + (y / 100) % 10);
    assert(b[8] == 48 + (y / 10) % 10);
    assert(b[9] == 48 + y % 10);
    assert(lit_month(b) == (m / 10) * 10 + m % 10);
    assert(m == (m / 10) * 10 + m % 10);
    assert(dd == (dd / 10) * 10 + dd % 10);
    assert(lit_year(b) == (y / 1000) * 1000 + ((y / 100) % 10) * 100 + ((y / 10) % 10) * 10 + y
        % 10);
    assert(y == (y / 1000) * 1000 + ((y / 100) % 10) * 100 + ((y / 10) % 10) * 10 + y % 10);
}

/// Days in the years before year `y`, counting from year 0.
pub open spec fn days_before_year(y: int) -> int
    decreases y,
{
    if y <= 0 {
        0
    } else {
        days_before_year(y - 1) + if is_leap_year(y - 1) {
            366int
        } else {
            365int
        }
    }
}

/// Days in the months of year `y` before month `m`.
pub open spec fn days_before_month(y: int, m: int) -> int
    decreases m,
{
    if m <= 1 {
        0
    } else {
        days_before_month(y, m - 1) + spec_days_in_month(y, m - 1)
    }
}

/// The day number of a date, counting from year 0.
pub open spec fn day_number(d: Date) -> int {
    days_before_year(d.year as int) + days_before_month(d.year as int, d.month as int)
        + d.day - 1
}

/// Seconds between the epoch's midnight and the given day-time, the form
/// in which the remote service takes a received date.
pub open spec fn spec_timestamp(dt: DateTime) -> int {
    (day_number(dt.date) - days_before_year(1970)) * 86400 + dt.secs
}

pub proof fn lemma_days_before_year_bounds(y: int)
    requires
        y >= 0,
    ensures
        365 * y <= days_before_year(y) <= 366 * y,
    decreases y,
{
    if y > 0 {
        lemma_days_before_year_bounds(y - 1);
    }
}

fn days_before(y: u32) -> (r: i64)
    requires
        y <= 10000,
    ensures
        r as int == days_before_year(y as int),
        0 <= r <= 3700000,
{
    let mut acc: i64 = 0;
    let mut i: u32 = 0;
    while i < y
        invariant
            i <= y,
            y <= 10000,
            acc as int == days_before_year(i as int),
            0 <= acc <= 366 * i,
        decreases y - i,
    {
        if (i % 4 == 0 && i % 100 != 0) || i % 400 == 0 {
            acc += 366;
        } else {
            acc += 365;
        }
        i += 1;
    }
    proof {
        lemma_days_before_year_bounds(y as int);
    }
    acc
}

/// The timestamp the gateway sends when marking an order received.
pub fn date_timestamp(dt: &DateTime) -> (r: i64)
    requires
        datetime_wf(*dt),
    ensures
        r as int == spec_timestamp(*dt),
{
    let days_y = days_before(dt.date.year);
    let mut days_m: i64 = 0;
    let mut m: u8 = 1;
    while m < dt.date.month
        invariant
            1 <= m <= dt.date.month,
            datetime_wf(*dt),
            days_m as int == days_before_month(dt.date.year as int, m as int),
            0 <= days_m <= 31 * m,
        decreases dt.date.month - m,
    {
        days_m += days_in_month(dt.date.year, m) as i64;
        m += 1;
    }
    let epoch = days_before(1970);
    let days: i64 = days_y + days_m + (dt.date.day as i64) - 1 - epoch;
    days * 86400 + (dt.secs as i64)
}

} // verus!
