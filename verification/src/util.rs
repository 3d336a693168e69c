//! Timestamps: the calendar fields come from the clock (through chrono), the
//! text is written here.
use vstd::prelude::*;
use crate::text::{decimal_exec, string_of, zero_padded, zero_padded_exec};
use chrono::{Datelike, Timelike};

verus! {

/// Calendar and clock fields of a local date and time, as chrono's
/// `Datelike` and `Timelike` accessors report them (`nanosecond` reaches
/// past 999,999,999 only during a leap second).
#[derive(Clone, Copy, Debug, PartialEq, Eq)]
pub struct DateFields {
    pub year: i32,
    pub month: u32,
    pub day: u32,
    pub hour: u32,
    pub minute: u32,
    pub second: u32,
    pub nanosecond: u32,
}

/// The ranges that chrono's accessors document.
pub open spec fn fields_in_range(f: DateFields) -> bool {
    &&& 1 <= f.month <= 12
    &&& 1 <= f.day <= 31
    &&& f.hour <= 23
    &&& f.minute <= 59
    &&& f.second <= 59
    &&& f.nanosecond < 2_000_000_000
}

/// The second as `%S` shows it: 60 during a leap second.
pub open spec fn shown_second(f: DateFields) -> nat {
    (f.second + f.nanosecond / 1_000_000_000) as nat
}

/// The current local date and time (`chrono::Local::now()`), split into the
/// fields of its `Datelike`/`Timelike` accessors. Only the accessors'
/// documented ranges are stated: the value depends on the clock and on the
/// machine's time zone.
#[verifier::external_body]
pub(crate) fn now_local_fields() -> (f: DateFields)
    ensures
        fields_in_range(f),
{
    let t = chrono::Local::now();
    DateFields { year: t.year(), month: t.month(), day: t.day(), hour: t.hour(),
        minute: t.minute(), second: t.second(), nanosecond: t.nanosecond() }
}

/// The current time as unix milliseconds (`Local::now().timestamp_millis()`).
/// Nothing is stated of it: it is the clock.
#[verifier::external_body]
pub(crate) fn now_millis() -> (ms: i64) {
    chrono::Local::now().timestamp_millis()
}

/// Whether `y` is a leap year of the proleptic Gregorian calendar (year 0
/// included, as ISO 8601 counts it).
pub open spec fn is_leap_year(y: int) -> bool {
    y % 4 == 0 && (y % 100 != 0 || y % 400 == 0)
}

/// The number of days of month `m` (1..=12) of year `y`.
pub open spec fn days_in_month(y: int, m: int) -> int {
    if m == 2 {
        if is_leap_year(y) { 29 } else { 28 }
    } else if m == 4 || m == 6 || m == 9 || m == 11 {
        30
    } else {
        31
    }
}

/// The days of year `y` that come before the first of month `m` (1..=12).
pub open spec fn days_before_month(y: int, m: int) -> int {
    let common: int = if m == 1 { 0 } else if m == 2 { 31 } else if m == 3 { 59 } else if m == 4 { 90 }
        else if m == 5 { 120 } else if m == 6 { 151 } else if m == 7 { 181 } else if m == 8 { 212 }
        else if m == 9 { 243 } else if m == 10 { 273 } else if m == 11 { 304 } else { 334 };
    if m > 2 && is_leap_year(y) { common + 1 } else { common }
}

/// The leap years among 1..=n, counted negatively for n < 0 (those among
/// n+1..=0).
pub open spec fn leap_years_through(n: int) -> int {
    n / 4 - n / 100 + n / 400
}

/// The number of the day `y-m-d` counted from 1970-01-01 (day 0).
pub open spec fn day_number(y: int, m: int, d: int) -> int {
    365 * (y - 1970) + leap_years_through(y - 1) - leap_years_through(1969) + days_before_month(y, m)
        + d - 1
}

/// `f` is the calendar date and clock time of the instant `secs` seconds
/// (with `nanos` nanoseconds) after 1970-01-01 00:00:00, in the proleptic
/// Gregorian calendar.
pub open spec fn civil_time(f: DateFields, secs: int, nanos: int) -> bool {
    &&& 1 <= f.month <= 12
    &&& 1 <= f.day <= days_in_month(f.year as int, f.month as int)
    &&& day_number(f.year as int, f.month as int, f.day as int) == secs / 86400
    &&& f.hour == (secs % 86400) / 3600
    &&& f.minute == (secs % 3600) / 60
    &&& f.second == secs % 60
    &&& f.nanosecond == nanos
}

/// `f` is the local date and time of the unix milliseconds `ms` under a
/// time zone whose offset from UTC is `off` seconds (less than a day either
/// way, as chrono's `FixedOffset` keeps it).
pub open spec fn local_time_at(f: DateFields, ms: int, off: int) -> bool {
    &&& -86400 < off < 86400
    &&& fields_in_range(f)
    &&& civil_time(f, ms / 1000 + off, (ms % 1000) * 1_000_000)
}

/// Unix milliseconds well inside chrono's range (about 253,000 years either
/// side of 1970, where chrono reaches about 262,000).
pub open spec fn millis_in_range(ms: int) -> bool {
    -8_000_000_000_000_000 <= ms <= 8_000_000_000_000_000
}

/// Unix milliseconds past the last instant chrono can represent, or before
/// its first.
pub open spec fn millis_out_of_range(ms: int) -> bool {
    ms >= 8_300_000_000_000_000 || ms <= -8_400_000_000_000_000
}

/// The local date and time of the unix milliseconds `ms`
/// (`DateTime::from_timestamp_millis`, then `with_timezone(&Local)`), or
/// `None` where chrono cannot represent the instant. chrono splits `ms` with
/// `div_euclid`/`rem_euclid` into seconds and milliseconds, and the local
/// time is that instant shifted by the machine's offset, a `FixedOffset` of
/// less than a day either way. Which offset that is depends on the machine's
/// time zone and is left open; so is the narrow band at the edge of chrono's
/// range, where the result may be either. chrono panics where the time zone
/// data gives no offset at all; that depends on the machine, not on `ms`.
#[verifier::external_body]
pub(crate) fn local_fields_at(ms: i64) -> (f: Option<DateFields>)
    ensures
        millis_in_range(ms as int) ==> f is Some,
        millis_out_of_range(ms as int) ==> f is None,
        f matches Some(d) ==> exists|off: int| #[trigger] local_time_at(d, ms as int, off),
{
    match chrono::DateTime::from_timestamp_millis(ms) {
        Some(utc) => {
            let t = utc.with_timezone(&chrono::Local);
            Some(DateFields { year: t.year(), month: t.month(), day: t.day(), hour: t.hour(),
                minute: t.minute(), second: t.second(), nanosecond: t.nanosecond() })
        },
        None => None,
    }
}

/// chrono's `%Y`: four zero-padded digits for years 0..=9999, otherwise a
/// sign followed by at least four digits.
pub open spec fn year_text(y: int) -> Seq<char> {
    if 0 <= y <= 9999 {
        zero_padded(y as nat, 4)
    } else if y < 0 {
        seq!['-'] + zero_padded((-y) as nat, 4)
    } else {
        seq!['+'] + zero_padded(y as nat, 4)
    }
}

/// Two zero-padded digits (`%m`, `%d`, `%H`, `%M`, `%S`).
pub open spec fn two_digits(v: nat) -> Seq<char> {
    zero_padded(v, 2)
}

/// `%Y%m%d-%H%M`, with `%S` appended when `with_seconds`.
pub open spec fn stamp_text(f: DateFields, with_seconds: bool) -> Seq<char> {
    let base = year_text(f.year as int) + two_digits(f.month as nat) + two_digits(f.day as nat)
        + seq!['-'] + two_digits(f.hour as nat) + two_digits(f.minute as nat);
    if with_seconds {
        base + two_digits(shown_second(f))
    } else {
        base
    }
}

/// `%Y-%m-%d %H:%M`.
pub open spec fn date_text(f: DateFields) -> Seq<char> {
    year_text(f.year as int) + seq!['-'] + two_digits(f.month as nat) + seq!['-'] + two_digits(
        f.day as nat,
    ) + seq![' '] + two_digits(f.hour as nat) + seq![':'] + two_digits(f.minute as nat)
}

fn append_all(v: &mut Vec<char>, w: Vec<char>)
    ensures
        final(v)@ == old(v)@ + w@,
{
    let mut w = w;
    v.append(&mut w);
}

fn year_chars(y: i32) -> (v: Vec<char>)
    ensures
        v@ == year_text(y as int),
{
    if 0 <= y && y <= 9999 {
        zero_padded_exec(y as u64, 4)
    } else if y < 0 {
        let mut v = Vec::new();
        v.push('-');
        let a: i64 = -(y as i64);
        append_all(&mut v, zero_padded_exec(a as u64, 4));
        v
    } else {
        let mut v = Vec::new();
        v.push('+');
        append_all(&mut v, zero_padded_exec(y as u64, 4));
        v
    }
}

/// The text `stamp_text(f, with_seconds)`.
pub fn format_stamp(f: DateFields, with_seconds: bool) -> (s: String)
    ensures
        s@ == stamp_text(f, with_seconds),
{
    let mut v = year_chars(f.year);
    append_all(&mut v, zero_padded_exec(f.month as u64, 2));
    append_all(&mut v, zero_padded_exec(f.day as u64, 2));
    v.push('-');
    append_all(&mut v, zero_padded_exec(f.hour as u64, 2));
    append_all(&mut v, zero_padded_exec(f.minute as u64, 2));
    if with_seconds {
        let shown: u64 = f.second as u64 + f.nanosecond as u64 / 1_000_000_000;
        append_all(&mut v, zero_padded_exec(shown, 2));
    }
    string_of(v.as_slice())
}

/// The text `date_text(f)`.
pub fn format_date(f: DateFields) -> (s: String)
    ensures
        s@ == date_text(f),
{
    let mut v = year_chars(f.year);
    v.push('-');
    append_all(&mut v, zero_padded_exec(f.month as u64, 2));
    v.push('-');
    append_all(&mut v, zero_padded_exec(f.day as u64, 2));
    v.push(' ');
    append_all(&mut v, zero_padded_exec(f.hour as u64, 2));
    v.push(':');
    append_all(&mut v, zero_padded_exec(f.minute as u64, 2));
    string_of(v.as_slice())
}

/// A title from the current local time: `YYYYMMDD-HHMM`.
pub fn timestamp_title() -> (s: String)
    ensures
        exists|f: DateFields| fields_in_range(f) && s@ == stamp_text(f, false),
{
    let f = now_local_fields();
    format_stamp(f, false)
}

/// A title from the current local time with seconds: `YYYYMMDD-HHMMSS`, used
/// to tell apart notes created within the same minute.
pub fn timestamp_title_with_seconds() -> (s: String)
    ensures
        exists|f: DateFields| fields_in_range(f) && s@ == stamp_text(f, true),
{
    let f = now_local_fields();
    format_stamp(f, true)
}

/// Decimal text of a signed integer (`format!("{}", v)`).
pub open spec fn signed_decimal(v: int) -> Seq<char> {
    if v < 0 {
        seq!['-'] + crate::text::decimal((-v) as nat)
    } else {
        crate::text::decimal(v as nat)
    }
}

/// `s` is `%Y-%m-%d %H:%M` of the local time of the unix milliseconds `ms`
/// under some offset of less than a day.
pub open spec fn shows_local_date(ms: int, s: Seq<char>) -> bool {
    exists|f: DateFields, off: int| #[trigger] local_time_at(f, ms, off) && s == date_text(f)
}

/// The decimal text of a signed 64-bit integer.
pub fn signed_decimal_text(v: i64) -> (s: String)
    ensures
        s@ == signed_decimal(v as int),
{
    if v >= 0 {
        string_of(decimal_exec(v as u64).as_slice())
    } else {
        let a: u64 = if v == i64::MIN {
            9223372036854775808u64
        } else {
            (-v) as u64
        };
        let mut w = Vec::new();
        w.push('-');
        append_all(&mut w, decimal_exec(a));
        string_of(w.as_slice())
    }
}

/// The date text of the fields `f` where there are fields, else the decimal
/// text of `ms`.
pub fn format_fields_or_millis(f: Option<DateFields>, ms: i64) -> (s: String)
    ensures
        s@ == match f {
            Some(d) => date_text(d),
            None => signed_decimal(ms as int),
        },
{
    match f {
        Some(d) => format_date(d),
        None => signed_decimal_text(ms),
    }
}

/// `%Y-%m-%d %H:%M` of the local time of the unix milliseconds `ms`; the
/// decimal text of `ms` where chrono cannot represent that instant.
pub fn format_local_millis(ms: i64) -> (s: String)
    ensures
        millis_in_range(ms as int) ==> shows_local_date(ms as int, s@),
        millis_out_of_range(ms as int) ==> s@ == signed_decimal(ms as int),
        shows_local_date(ms as int, s@) || s@ == signed_decimal(ms as int),
{
    let f = local_fields_at(ms);
    let s = format_fields_or_millis(f, ms);
    proof {
        if let Some(d) = f {
            let off = choose|off: int| #[trigger] local_time_at(d, ms as int, off);
            assert(local_time_at(d, ms as int, off));
        }
    }
    s
}

} // verus!
