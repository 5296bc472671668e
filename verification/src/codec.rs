//! Timestamp codec: a record id is a count of 100-nanosecond ticks since
//! year 1 of the proleptic Gregorian calendar. Decoding divides by ten to
//! get milliseconds, subtracts the fixed offset between year 1 and the Unix
//! epoch, and converts the remaining millisecond count to civil UTC fields.

use vstd::prelude::*;
use crate::text::{
    dec_chars, pad2_chars, pad3_chars, u64_to_chars, u64_to_chars_pad2, u64_to_chars_pad3,
    chars_to_string,
};

verus! {

/// Milliseconds between 0001-01-01T00:00:00 and 1970-01-01T00:00:00.
pub const EPOCH_OFFSET_MILLIS: i64 = 62135596800000;

/// The smallest record id whose decoded millisecond count is non-negative:
/// ten times the epoch offset. Ids below this bound underflow the Unix
/// epoch and are a data error, not a recoverable condition.
pub const MIN_RECORD_ID: i64 = 621355968000000;

/// A UTC instant, kept both as milliseconds since the Unix epoch and as
/// civil calendar fields.
#[derive(Clone, Copy, PartialEq, Eq, Structural, Debug)]
pub struct UtcTimestamp {
    pub unix_millis: i64,
    pub year: u64,
    pub month: u8,
    pub day: u8,
    pub hour: u8,
    pub minute: u8,
    pub second: u8,
    pub millisecond: u16,
}

pub open spec fn is_leap_year(y: int) -> bool {
    (y % 4 == 0 && y % 100 != 0) || y % 400 == 0
}

pub open spec fn days_in_year(y: int) -> int {
    if is_leap_year(y) {
        366
    } else {
        365
    }
}

pub open spec fn days_in_month(y: int, m: int) -> int {
    if m == 2 {
        if is_leap_year(y) {
            29
        } else {
            28
        }
    } else if m == 4 || m == 6 || m == 9 || m == 11 {
        30
    } else {
        31
    }
}

/// Days between the Unix epoch and the start of year `y`.
pub open spec fn days_before_year(y: int) -> int
    decreases y,
{
    if y <= 1970 {
        0
    } else {
        days_before_year(y - 1) + days_in_year(y - 1)
    }
}

/// Days between the start of year `y` and the start of month `m` in it.
pub open spec fn days_before_month(y: int, m: int) -> int
    decreases m,
{
    if m <= 1 {
        0
    } else {
        days_before_month(y, m - 1) + days_in_month(y, m - 1)
    }
}

/// Day index of the civil date `(y, m, d)`, counted from the Unix epoch.
pub open spec fn civil_day_number(y: int, m: int, d: int) -> int {
    days_before_year(y) + days_before_month(y, m) + (d - 1)
}

/// The year holding day `days` (counted from the start of year `y`), and
/// the day index within that year.
pub open spec fn split_year(days: int, y: int) -> (int, int)
    decreases days,
{
    if days >= days_in_year(y) {
        split_year(days - days_in_year(y), y + 1)
    } else {
        (y, days)
    }
}

/// The month holding day `days` of year `y` (counted from the start of
/// month `m`), and the day index within that month.
pub open spec fn split_month(days: int, y: int, m: int) -> (int, int)
    decreases 12 - m,
{
    if m < 12 && days >= days_in_month(y, m) {
        split_month(days - days_in_month(y, m), y, m + 1)
    } else {
        (m, days)
    }
}

/// The civil UTC fields of a non-negative millisecond count since the
/// Unix epoch.
pub open spec fn civil_from_millis(ms: int) -> UtcTimestamp {
    let days = ms / 86400000;
    let rem = ms % 86400000;
    let yr = split_year(days, 1970);
    let r1 = rem % 3600000;
    let r2 = r1 % 60000;
    let mo = split_month(yr.1, yr.0, 1);
    UtcTimestamp {
        unix_millis: ms as i64,
        year: yr.0 as u64,
        month: mo.0 as u8,
        day: (mo.1 + 1) as u8,
        hour: (rem / 3600000) as u8,
        minute: (r1 / 60000) as u8,
        second: (r2 / 1000) as u8,
        millisecond: (r2 % 1000) as u16,
    }
}

impl UtcTimestamp {
    /// The civil fields are a valid calendar date and time of day, and
    /// re-encode to exactly `unix_millis`.
    pub open spec fn wf(self) -> bool {
        &&& self.unix_millis >= 0
        &&& 1970 <= self.year
        &&& 1 <= self.month <= 12
        &&& 1 <= self.day <= days_in_month(self.year as int, self.month as int)
        &&& self.hour < 24
        &&& self.minute < 60
        &&& self.second < 60
        &&& self.millisecond < 1000
        &&& self.unix_millis as int == civil_day_number(
            self.year as int,
            self.month as int,
            self.day as int,
        ) * 86400000 + self.hour as int * 3600000 + self.minute as int * 60000
            + self.second as int * 1000 + self.millisecond as int
    }
}

proof fn lemma_days_before_year_lower(y: int)
    requires
        y >= 1970,
    ensures
        days_before_year(y) >= (y - 1970) * 365,
    decreases y,
{
    if y > 1970 {
        lemma_days_before_year_lower(y - 1);
    }
}

proof fn lemma_months_sum(y: int)
    ensures
        days_before_month(y, 13) == days_in_year(y),
{
    assert(days_before_month(y, 1) == 0);
    assert(days_before_month(y, 2) == days_before_month(y, 1) + days_in_month(y, 1));
    assert(days_before_month(y, 3) == days_before_month(y, 2) + days_in_month(y, 2));
    assert(days_before_month(y, 4) == days_before_month(y, 3) + 31);
    assert(days_before_month(y, 5) == days_before_month(y, 4) + 30);
    assert(days_before_month(y, 6) == days_before_month(y, 5) + 31);
    assert(days_before_month(y, 7) == days_before_month(y, 6) + 30);
    assert(days_before_month(y, 8) == days_before_month(y, 7) + 31);
    assert(days_before_month(y, 9) == days_before_month(y, 8) + 31);
    assert(days_before_month(y, 10) == days_before_month(y, 9) + 30);
    assert(days_before_month(y, 11) == days_before_month(y, 10) + 31);
    assert(days_before_month(y, 12) == days_before_month(y, 11) + 30);
    assert(days_before_month(y, 13) == days_before_month(y, 12) + 31);
}

fn is_leap_year_exec(y: u64) -> (b: bool)
    ensures
        b == is_leap_year(y as int),
{
    (y % 4 == 0 && y % 100 != 0) || y % 400 == 0
}

fn days_in_year_exec(y: u64) -> (d: u64)
    ensures
        d == days_in_year(y as int),
{
    if is_leap_year_exec(y) {
        366
    } else {
        365
    }
}

fn days_in_month_exec(y: u64, m: u64) -> (d: u64)
    ensures
        d == days_in_month(y as int, m as int),
{
    if m == 2 {
        if is_leap_year_exec(y) {
            29
        } else {
            28
        }
    } else if m == 4 || m == 6 || m == 9 || m == 11 {
        30
    } else {
        31
    }
}

/// Decodes a record id into the UTC instant it encodes.
pub fn decode_record_id(id: i64) -> (ts: UtcTimestamp)
    requires
        id >= MIN_RECORD_ID,
    ensures
        ts == civil_from_millis(id as int / 10 - EPOCH_OFFSET_MILLIS),
        ts.wf(),
        ts.unix_millis as int == id as int / 10 - EPOCH_OFFSET_MILLIS,
{
    let ticks: u64 = id as u64;
    proof {
        vstd::arithmetic::div_mod::lemma_div_is_ordered(
            621355968000000,
            ticks as int,
            10,
        );
        vstd::arithmetic::div_mod::lemma_div_by_multiple(62135596800000, 10);
        assert(62135596800000int * 10 == 621355968000000int);
        assert(621355968000000int / 10 == 62135596800000int);
        vstd::arithmetic::div_mod::lemma_multiply_divide_lt(
            ticks as int,
            10,
            922337203685477581,
        );
        assert(10int * 922337203685477581 == 9223372036854775810int);
        assert(ticks as int / 10 <= 922337203685477580int);
    }
    let total: u64 = ticks / 10 - 62135596800000;
    let ghost ms: int = id as int / 10 - EPOCH_OFFSET_MILLIS;
    proof {
        assert(total as int == ms);
    }
    let days0: u64 = total / 86400000;
    let rem: u64 = total % 86400000;
    proof {
        vstd::arithmetic::div_mod::lemma_fundamental_div_mod(total as int, 86400000);
        assert(days0 as int <= total as int) by (nonlinear_arith)
            requires
                days0 as int == total as int / 86400000,
                total as int >= 0,
        ;
    }
    let hour: u64 = rem / 3600000;
    let r1: u64 = rem % 3600000;
    let minute: u64 = r1 / 60000;
    let r2: u64 = r1 % 60000;
    let second: u64 = r2 / 1000;
    let milli: u64 = r2 % 1000;
    proof {
        vstd::arithmetic::div_mod::lemma_fundamental_div_mod(rem as int, 3600000);
        vstd::arithmetic::div_mod::lemma_fundamental_div_mod(r1 as int, 60000);
        vstd::arithmetic::div_mod::lemma_fundamental_div_mod(r2 as int, 1000);
        assert(hour < 24 && minute < 60 && second < 60 && milli < 1000);
    }
    let mut days: u64 = days0;
    let mut year: u64 = 1970;
    while days >= days_in_year_exec(year)
        invariant
            1970 <= year,
            days <= days0,
            days0 <= 922337203685477580,
            days_before_year(year as int) + days == days0,
            split_year(days0 as int, 1970) == split_year(days as int, year as int),
        decreases days,
    {
        proof {
            lemma_days_before_year_lower(year as int + 1);
            assert(days_before_year(year as int + 1) == days_before_year(year as int)
                + days_in_year(year as int));
            assert((year as int + 1 - 1970) * 365 <= days0 as int);
            assert(year as int + 1 - 1970 <= days0 as int);
        }
        days = days - days_in_year_exec(year);
        year = year + 1;
    }
    proof {
        assert(split_year(days0 as int, 1970) == (year as int, days as int));
        lemma_months_sum(year as int);
    }
    let ghost yd: u64 = days;
    let mut m: u64 = 1;
    while days >= days_in_month_exec(year, m)
        invariant
            1 <= m <= 12,
            days <= yd,
            yd < days_in_year(year as int),
            days_before_month(year as int, m as int) + days == yd,
            days_before_month(year as int, 13) == days_in_year(year as int),
            split_month(yd as int, year as int, 1) == split_month(
                days as int,
                year as int,
                m as int,
            ),
        decreases 12 - m,
    {
        proof {
            if m == 12 {
                assert(days_before_month(year as int, 13) == days_before_month(year as int, 12)
                    + days_in_month(year as int, 12));
                assert(false);
            }
        }
        days = days - days_in_month_exec(year, m);
        m = m + 1;
    }
    proof {
        assert(split_month(yd as int, year as int, 1) == (m as int, days as int));
    }
    let ts = UtcTimestamp {
        unix_millis: total as i64,
        year,
        month: m as u8,
        day: (days + 1) as u8,
        hour: hour as u8,
        minute: minute as u8,
        second: second as u8,
        millisecond: milli as u16,
    };
    proof {
        assert(ts == civil_from_millis(ms));
        assert(ts.wf());
    }
    ts
}

/// The canonical text of a timestamp:
/// `year-month-dayThour:minute:second.millisecondZ`, with the year in full
/// and every other field zero-padded to its fixed width.
pub open spec fn timestamp_chars(ts: UtcTimestamp) -> Seq<char> {
    dec_chars(ts.year as int) + seq!['-'] + pad2_chars(ts.month as int) + seq!['-'] + pad2_chars(
        ts.day as int,
    ) + seq!['T'] + pad2_chars(ts.hour as int) + seq![':'] + pad2_chars(ts.minute as int)
        + seq![':'] + pad2_chars(ts.second as int) + seq!['.'] + pad3_chars(ts.millisecond as int)
        + seq!['Z']
}

/// The characters of the canonical text of `ts`.
pub fn timestamp_to_chars(ts: &UtcTimestamp) -> (v: Vec<char>)
    ensures
        v@ == timestamp_chars(*ts),
{
    let mut v = u64_to_chars(ts.year);
    v.push('-');
    let mut part = u64_to_chars_pad2(ts.month as u64);
    v.append(&mut part);
    v.push('-');
    let mut part = u64_to_chars_pad2(ts.day as u64);
    v.append(&mut part);
    v.push('T');
    let mut part = u64_to_chars_pad2(ts.hour as u64);
    v.append(&mut part);
    v.push(':');
    let mut part = u64_to_chars_pad2(ts.minute as u64);
    v.append(&mut part);
    v.push(':');
    let mut part = u64_to_chars_pad2(ts.second as u64);
    v.append(&mut part);
    v.push('.');
    let mut part = u64_to_chars_pad3(ts.millisecond as u64);
    v.append(&mut part);
    v.push('Z');
    proof {
        assert(v@ =~= timestamp_chars(*ts));
    }
    v
}

impl UtcTimestamp {
    /// The canonical text of this timestamp as a `String`.
    pub fn to_text(&self) -> (s: String)
        ensures
            s@ == timestamp_chars(*self),
    {
        let v = timestamp_to_chars(self);
        chars_to_string(&v)
    }
}

} // verus!
