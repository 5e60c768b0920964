//! Time arguments of the time-window commands: durations ("3d", "12h"),
//! dates ("07-13"), date-times ("07-13 14:30") and clock times ("14:30"),
//! with the labels shown for them.
use crate::human_size::{all_digits, is_digit, parse_uint, parse_uint_spec};
use crate::text::{
    chars_of, decimal, decimal_padded, is_whitespace, push_decimal, push_decimal_padded, push_str, split_chars,
    split_on, string_from, string_of, texts, trim, trim_chars, words, words_of,
};
use chrono::{Datelike, TimeZone};
use vstd::prelude::*;

verus! {

pub const MINUTE_MS: u64 = 60_000;
pub const HOUR_MS: u64 = 3_600_000;
pub const DAY_MS: u64 = 86_400_000;
pub const WEEK_MS: u64 = 604_800_000;

/// Milliseconds of a duration suffix letter, 0 for any other character.
pub open spec fn unit_ms(c: char) -> nat {
    if c == 'w' || c == 'W' {
        WEEK_MS as nat
    } else if c == 'd' || c == 'D' {
        DAY_MS as nat
    } else if c == 'h' || c == 'H' {
        HOUR_MS as nat
    } else if c == 'm' || c == 'M' {
        MINUTE_MS as nat
    } else {
        0
    }
}

/// The number part of a trimmed duration: without its unit letter.
pub open spec fn duration_number(t: Seq<char>) -> Seq<char> {
    if t.len() > 0 && unit_ms(t.last()) > 0 {
        t.drop_last()
    } else {
        t
    }
}

/// Milliseconds per unit of a trimmed duration; hours when no unit is given.
pub open spec fn duration_multiplier(t: Seq<char>) -> nat {
    if t.len() > 0 && unit_ms(t.last()) > 0 {
        unit_ms(t.last())
    } else {
        HOUR_MS as nat
    }
}

/// Milliseconds of a duration argument, or the error message.
pub open spec fn duration_spec(s: Seq<char>) -> Result<nat, Seq<char>> {
    let t = trim(s);
    let num = duration_number(t);
    match parse_uint_spec(num, u64::MAX as nat) {
        Some(n) => Ok(n * duration_multiplier(t)),
        None => Err("invalid number: "@ + num),
    }
}

/// The duration of `s`, if it is one, fits in 64 bits.
pub open spec fn duration_fits(s: Seq<char>) -> bool {
    duration_spec(s) matches Ok(v) ==> v <= u64::MAX
}

fn unit_ms_exec(c: char) -> (m: u64)
    ensures
        m == unit_ms(c),
{
    if c == 'w' || c == 'W' {
        WEEK_MS
    } else if c == 'd' || c == 'D' {
        DAY_MS
    } else if c == 'h' || c == 'H' {
        HOUR_MS
    } else if c == 'm' || c == 'M' {
        MINUTE_MS
    } else {
        0
    }
}

/// Parses a duration such as "30m", "12h", "3d", "2w" or "5" (hours) into
/// milliseconds.
pub fn parse_duration(s: &str) -> (r: Result<u64, String>)
    requires
        duration_fits(s@),
    ensures
        match r {
            Ok(v) => duration_spec(s@) == Ok::<nat, Seq<char>>(v as nat),
            Err(e) => duration_spec(s@) == Err::<nat, Seq<char>>(e@),
        },
{
    let cs = chars_of(s);
    let t = trim_chars(cs.as_slice());
    let n = t.len();
    let (num, mult): (&[char], u64) = if n > 0 && unit_ms_exec(t[n - 1]) > 0 {
        (vstd::slice::slice_subrange(t.as_slice(), 0, n - 1), unit_ms_exec(t[n - 1]))
    } else {
        (t.as_slice(), HOUR_MS)
    };
    proof {
        if n > 0 && unit_ms(t@[n - 1]) > 0 {
            assert(num@ =~= t@.drop_last());
        }
    }
    match parse_uint(num, u64::MAX) {
        Some(v) => {
            proof {
                assert(duration_spec(s@) == Ok::<nat, Seq<char>>((v * mult) as nat));
            }
            Ok(v * mult)
        },
        None => {
            let mut e = string_from("invalid number: ");
            let tail = string_of(num);
            push_str(&mut e, tail.as_str());
            proof {
                reveal_strlit("invalid number: ");
            }
            Err(e)
        },
    }
}

/// A numeric field of a date-time, or "invalid <what>: <text>".
pub open spec fn u32_field(p: Seq<char>, what: Seq<char>) -> Result<u32, Seq<char>> {
    match parse_uint_spec(p, u32::MAX as nat) {
        Some(v) => Ok(v as u32),
        None => Err("invalid "@ + what + ": "@ + p),
    }
}

/// Month and day of a "MM-DD" date text.
pub open spec fn month_day(date: Seq<char>) -> Result<(u32, u32), Seq<char>> {
    let dp = split_on(date, '-');
    match u32_field(dp[0], "month"@) {
        Err(e) => Err(e),
        Ok(m) => match u32_field(dp[1], "day"@) {
            Err(e) => Err(e),
            Ok(d) => Ok((m, d)),
        },
    }
}

/// Month, day, hour and minute of "MM-DD" or "MM-DD HH:MM", or the error.
pub open spec fn date_time_spec(s: Seq<char>) -> Result<(u32, u32, u32, u32), Seq<char>> {
    let parts = words(s);
    if parts.len() == 1 {
        if split_on(parts[0], '-').len() == 2 {
            match month_day(parts[0]) {
                Err(e) => Err(e),
                Ok((m, d)) => Ok((m, d, 0u32, 0u32)),
            }
        } else {
            Err("invalid date: "@ + s)
        }
    } else if parts.len() == 2 {
        if split_on(parts[0], '-').len() != 2 {
            Err("invalid date: "@ + parts[0])
        } else {
            match month_day(parts[0]) {
                Err(e) => Err(e),
                Ok((m, d)) => {
                    let tp = split_on(parts[1], ':');
                    if tp.len() != 2 {
                        Err("invalid time: "@ + parts[1])
                    } else {
                        match u32_field(tp[0], "hour"@) {
                            Err(e) => Err(e),
                            Ok(h) => match u32_field(tp[1], "minute"@) {
                                Err(e) => Err(e),
                                Ok(mi) => Ok((m, d, h, mi)),
                            },
                        }
                    }
                },
            }
        }
    } else {
        Err("invalid date-time: "@ + s)
    }
}

fn field(p: &Vec<char>, what: &str) -> (r: Result<u32, String>)
    ensures
        match r {
            Ok(v) => u32_field(p@, what@) == Ok::<u32, Seq<char>>(v),
            Err(e) => u32_field(p@, what@) == Err::<u32, Seq<char>>(e@),
        },
{
    match parse_uint(p.as_slice(), 0xffff_ffff) {
        Some(v) => Ok(v as u32),
        None => {
            let mut e = string_from("invalid ");
            push_str(&mut e, what);
            push_str(&mut e, ": ");
            let t = string_of(p.as_slice());
            push_str(&mut e, t.as_str());
            proof {
                reveal_strlit("invalid ");
                reveal_strlit(": ");
            }
            Err(e)
        },
    }
}

fn month_day_of(date: &Vec<char>) -> (r: Result<(u32, u32), String>)
    requires
        split_on(date@, '-').len() == 2,
    ensures
        match r {
            Ok(v) => month_day(date@) == Ok::<(u32, u32), Seq<char>>(v),
            Err(e) => month_day(date@) == Err::<(u32, u32), Seq<char>>(e@),
        },
{
    let dp = split_chars(date.as_slice(), '-');
    proof {
        assert(dp@[0]@ == texts(dp@)[0]);
        assert(dp@[1]@ == texts(dp@)[1]);
        reveal_strlit("month");
        reveal_strlit("day");
    }
    let m = match field(&dp[0], "month") {
        Ok(v) => v,
        Err(e) => return Err(e),
    };
    let d = match field(&dp[1], "day") {
        Ok(v) => v,
        Err(e) => return Err(e),
    };
    Ok((m, d))
}

fn prefixed(prefix: &str, rest: &[char]) -> (s: String)
    ensures
        s@ == prefix@ + rest@,
{
    let mut e = string_from(prefix);
    let t = string_of(rest);
    push_str(&mut e, t.as_str());
    e
}

/// Parses "MM-DD" or "MM-DD HH:MM" into (month, day, hour, minute).
pub fn parse_date_time(s: &str) -> (r: Result<(u32, u32, u32, u32), String>)
    ensures
        match r {
            Ok(v) => date_time_spec(s@) == Ok::<(u32, u32, u32, u32), Seq<char>>(v),
            Err(e) => date_time_spec(s@) == Err::<(u32, u32, u32, u32), Seq<char>>(e@),
        },
{
    let cs = chars_of(s);
    let parts = words_of(cs.as_slice());
    proof {
        reveal_strlit("invalid date: ");
        reveal_strlit("invalid time: ");
        reveal_strlit("invalid date-time: ");
        reveal_strlit("hour");
        reveal_strlit("minute");
        if parts@.len() >= 1 {
            assert(parts@[0]@ == texts(parts@)[0]);
        }
        if parts@.len() >= 2 {
            assert(parts@[1]@ == texts(parts@)[1]);
        }
    }
    if parts.len() == 1 {
        let dp = split_chars(parts[0].as_slice(), '-');
        if dp.len() == 2 {
            match month_day_of(&parts[0]) {
                Err(e) => Err(e),
                Ok((m, d)) => Ok((m, d, 0, 0)),
            }
        } else {
            Err(prefixed("invalid date: ", cs.as_slice()))
        }
    } else if parts.len() == 2 {
        let dp = split_chars(parts[0].as_slice(), '-');
        if dp.len() != 2 {
            return Err(prefixed("invalid date: ", parts[0].as_slice()));
        }
        let (m, d) = match month_day_of(&parts[0]) {
            Err(e) => return Err(e),
            Ok(v) => v,
        };
        let tp = split_chars(parts[1].as_slice(), ':');
        if tp.len() != 2 {
            return Err(prefixed("invalid time: ", parts[1].as_slice()));
        }
        proof {
            assert(tp@[0]@ == texts(tp@)[0]);
            assert(tp@[1]@ == texts(tp@)[1]);
        }
        let h = match field(&tp[0], "hour") {
            Ok(v) => v,
            Err(e) => return Err(e),
        };
        let mi = match field(&tp[1], "minute") {
            Ok(v) => v,
            Err(e) => return Err(e),
        };
        Ok((m, d, h, mi))
    } else {
        Err(prefixed("invalid date-time: ", cs.as_slice()))
    }
}

/// A clock time "HH:MM": two runs of ASCII digits (possibly empty) around
/// one ':'.
pub open spec fn time_only(s: Seq<char>) -> bool {
    let p = split_on(s, ':');
    p.len() == 2 && all_digits(p[0]) && all_digits(p[1])
}

fn all_digits_exec(s: &[char]) -> (b: bool)
    ensures
        b == all_digits(s@),
{
    let mut i: usize = 0;
    while i < s.len()
        invariant
            i <= s@.len(),
            forall|j: int| 0 <= j < i ==> is_digit(#[trigger] s@[j]),
        decreases s@.len() - i,
    {
        if !('0' <= s[i] && s[i] <= '9') {
            return false;
        }
        i = i + 1;
    }
    true
}

/// Whether `s` is a clock time such as "14:30".
pub fn is_time_only(s: &str) -> (b: bool)
    ensures
        b == time_only(s@),
{
    let cs = chars_of(s);
    let p = split_chars(cs.as_slice(), ':');
    if p.len() != 2 {
        return false;
    }
    proof {
        assert(p@[0]@ == texts(p@)[0]);
        assert(p@[1]@ == texts(p@)[1]);
    }
    all_digits_exec(p[0].as_slice()) && all_digits_exec(p[1].as_slice())
}

/// "<left> ~ <right>".
pub fn format_time_label(left: &str, right: &str) -> (s: String)
    ensures
        s@ == left@ + " ~ "@ + right@,
{
    let mut s = string_from(left);
    push_str(&mut s, " ~ ");
    push_str(&mut s, right);
    proof {
        assert(s@ =~= left@ + " ~ "@ + right@);
    }
    s
}

/// Label of a duration: whole weeks, days or hours when it is a multiple of
/// one, else minutes.
pub open spec fn duration_label(ms: nat) -> Seq<char> {
    if ms % (WEEK_MS as nat) == 0 {
        decimal(ms / (WEEK_MS as nat)) + "w"@
    } else if ms % (DAY_MS as nat) == 0 {
        decimal(ms / (DAY_MS as nat)) + "d"@
    } else if ms % (HOUR_MS as nat) == 0 {
        decimal(ms / (HOUR_MS as nat)) + "h"@
    } else {
        decimal(ms / (MINUTE_MS as nat)) + "m"@
    }
}

/// Formats a duration in milliseconds as "2w", "3d", "12h" or "30m".
pub fn format_duration_label(ms: u64) -> (s: String)
    ensures
        s@ == duration_label(ms as nat),
{
    let mut s = String::new();
    if ms % WEEK_MS == 0 {
        push_decimal(&mut s, ms / WEEK_MS);
        push_str(&mut s, "w");
    } else if ms % DAY_MS == 0 {
        push_decimal(&mut s, ms / DAY_MS);
        push_str(&mut s, "d");
    } else if ms % HOUR_MS == 0 {
        push_decimal(&mut s, ms / HOUR_MS);
        push_str(&mut s, "h");
    } else {
        push_decimal(&mut s, ms / MINUTE_MS);
        push_str(&mut s, "m");
    }
    proof {
        assert(s@ =~= duration_label(ms as nat));
    }
    s
}

/// Two-digit, zero-padded rendering.
pub open spec fn two(n: u32) -> Seq<char> {
    decimal_padded(n as nat, 2)
}

/// Label of an absolute time: "MM-DD", with " HH:MM" unless it is midnight.
pub open spec fn absolute_label(month: u32, day: u32, hour: u32, minute: u32) -> Seq<char> {
    if hour == 0 && minute == 0 {
        two(month) + "-"@ + two(day)
    } else {
        two(month) + "-"@ + two(day) + " "@ + two(hour) + ":"@ + two(minute)
    }
}

/// Formats an absolute time label such as "07-13" or "07-13 14:30".
pub fn format_absolute_label(month: u32, day: u32, hour: u32, minute: u32) -> (s: String)
    ensures
        s@ == absolute_label(month, day, hour, minute),
{
    let mut s = String::new();
    push_decimal_padded(&mut s, month as u64, 2);
    push_str(&mut s, "-");
    push_decimal_padded(&mut s, day as u64, 2);
    if !(hour == 0 && minute == 0) {
        push_str(&mut s, " ");
        push_decimal_padded(&mut s, hour as u64, 2);
        push_str(&mut s, ":");
        push_decimal_padded(&mut s, minute as u64, 2);
    }
    proof {
        assert(s@ =~= absolute_label(month, day, hour, minute));
    }
    s
}

/// What a time argument denotes, before the clock is read.
#[derive(Debug, Clone, Copy, PartialEq, Eq, Structural)]
pub enum TimeArgKind {
    /// A clock time today.
    ClockTime { hour: u32, minute: u32 },
    /// A span back from now.
    Ago { ms: u64 },
    /// A date and time in the current year (or the previous one).
    DateTime { month: u32, day: u32, hour: u32, minute: u32 },
}

/// Kind and label of a time argument, or the error shown for it.
pub open spec fn time_arg_spec(arg: Seq<char>) -> Result<(TimeArgKind, Seq<char>), Seq<char>> {
    if time_only(arg) {
        let p = split_on(arg, ':');
        match parse_uint_spec(p[0], u32::MAX as nat) {
            None => Err("invalid hour: "@ + arg),
            Some(h) => match parse_uint_spec(p[1], u32::MAX as nat) {
                None => Err("invalid minute: "@ + arg),
                Some(mi) => Ok(
                    (TimeArgKind::ClockTime { hour: h as u32, minute: mi as u32 }, two(h as u32) + ":"@ + two(mi as u32)),
                ),
            },
        }
    } else if duration_spec(arg) is Ok {
        let ms = duration_spec(arg)->Ok_0;
        Ok((TimeArgKind::Ago { ms: ms as u64 }, duration_label(ms)))
    } else {
        match date_time_spec(arg) {
            Err(e) => Err("invalid date-time: "@ + e),
            Ok((m, d, h, mi)) => Ok(
                (TimeArgKind::DateTime { month: m, day: d, hour: h, minute: mi }, absolute_label(m, d, h, mi)),
            ),
        }
    }
}

/// Classifies a time argument and builds its label.
pub fn plan_time_arg(arg: &str) -> (r: Result<(TimeArgKind, String), String>)
    requires
        duration_fits(arg@),
    ensures
        match r {
            Ok((k, l)) => time_arg_spec(arg@) == Ok::<(TimeArgKind, Seq<char>), Seq<char>>((k, l@)),
            Err(e) => time_arg_spec(arg@) == Err::<(TimeArgKind, Seq<char>), Seq<char>>(e@),
        },
{
    proof {
        reveal_strlit("invalid hour: ");
        reveal_strlit("invalid minute: ");
        reveal_strlit("invalid date-time: ");
        reveal_strlit(":");
    }
    if is_time_only(arg) {
        let cs = chars_of(arg);
        let p = split_chars(cs.as_slice(), ':');
        proof {
            assert(p@[0]@ == texts(p@)[0]);
            assert(p@[1]@ == texts(p@)[1]);
        }
        let h = match parse_uint(p[0].as_slice(), 0xffff_ffff) {
            Some(v) => v as u32,
            None => return Err(prefixed("invalid hour: ", cs.as_slice())),
        };
        let mi = match parse_uint(p[1].as_slice(), 0xffff_ffff) {
            Some(v) => v as u32,
            None => return Err(prefixed("invalid minute: ", cs.as_slice())),
        };
        let mut label = String::new();
        push_decimal_padded(&mut label, h as u64, 2);
        push_str(&mut label, ":");
        push_decimal_padded(&mut label, mi as u64, 2);
        proof {
            assert(label@ =~= two(h) + ":"@ + two(mi));
        }
        return Ok((TimeArgKind::ClockTime { hour: h, minute: mi }, label));
    }
    match parse_duration(arg) {
        Ok(ms) => {
            let label = format_duration_label(ms);
            return Ok((TimeArgKind::Ago { ms }, label));
        },
        Err(_) => {},
    }
    match parse_date_time(arg) {
        Err(e) => {
            let cs = chars_of(e.as_str());
            Err(prefixed("invalid date-time: ", cs.as_slice()))
        },
        Ok((m, d, h, mi)) => Ok((TimeArgKind::DateTime { month: m, day: d, hour: h, minute: mi }, format_absolute_label(m, d, h, mi))),
    }
}

/// A resolved time argument: the instant in milliseconds since the epoch,
/// its label, and the (month, day) it falls on when it names a date.
pub struct ParsedTimeArg {
    pub ms: u64,
    pub label: String,
    pub date: Option<(u32, u32)>,
}

#[verifier::external_type_specification]
#[verifier::external_body]
pub struct ExSystemTime(std::time::SystemTime);

#[verifier::external_type_specification]
#[verifier::external_body]
pub struct ExSystemTimeError(std::time::SystemTimeError);

/// Wraps `std::time::SystemTime::now`: the system clock's reading. Nothing
/// is stated of it.
#[verifier::external_body]
fn system_now() -> std::time::SystemTime {
    std::time::SystemTime::now()
}

/// Wraps `SystemTime::duration_since(UNIX_EPOCH)`: the time since the Unix
/// epoch, or an error when the reading lies before it. Nothing is stated
/// of the reading.
#[verifier::external_body]
fn since_epoch(t: &std::time::SystemTime) -> Result<std::time::Duration, std::time::SystemTimeError> {
    t.duration_since(std::time::UNIX_EPOCH)
}

/// Wraps `Duration::as_millis`: the whole milliseconds of a duration.
#[verifier::external_body]
fn duration_millis(d: &std::time::Duration) -> u128 {
    d.as_millis()
}

/// The system clock in whole milliseconds since the Unix epoch, or `None`
/// when it reads before the epoch.
pub(crate) fn epoch_millis() -> Option<u128> {
    let t = system_now();
    match since_epoch(&t) {
        Ok(d) => Some(duration_millis(&d)),
        Err(_) => None,
    }
}

/// The milliseconds of a clock reading as 64 bits (keeping the low 64
/// bits), 0 for a clock before the epoch.
pub open spec fn reading_millis(reading: Option<u128>) -> u64 {
    match reading {
        Some(ms) => ms as u64,
        None => 0,
    }
}

/// Turns a clock reading into milliseconds (see `reading_millis`).
pub fn millis_of_reading(reading: Option<u128>) -> (r: u64)
    ensures
        r == reading_millis(reading),
{
    match reading {
        Some(ms) => #[verifier::truncate] (ms as u64),
        None => 0,
    }
}

/// Milliseconds since the Unix epoch now, or 0 when the clock reads before
/// the epoch (the clock's reading turned by `millis_of_reading`; nothing is
/// known of the reading itself).
pub fn now_in_millis() -> u64 {
    let reading = epoch_millis();
    millis_of_reading(reading)
}

/// Days from 1970-01-01 to the given day of the proleptic Gregorian
/// calendar.
pub open spec fn civil_days(y: int, m: int, d: int) -> int {
    let y2 = if m <= 2 { y - 1 } else { y };
    let era = y2 / 400;
    let yoe = y2 - era * 400;
    let mp = if m > 2 { m - 3 } else { m + 9 };
    let doy = (153 * mp + 2) / 5 + d - 1;
    let doe = yoe * 365 + yoe / 4 - yoe / 100 + doy;
    era * 146097 + doe - 719468
}

/// The milliseconds since the epoch of a wall-clock date and time read as
/// if it were UTC.
pub open spec fn wall_ms(y: int, m: int, d: int, h: int, min: int) -> int {
    (civil_days(y, m, d) * 86400 + h * 3600 + min * 60) * 1000
}

/// Wraps `chrono::DateTime::from_timestamp_millis(ms)`, then
/// `with_timezone(&chrono::Local)`, read with `year()`, `month()` and
/// `day()`: the local date of an instant. Stated: the month and day are in
/// their documented ranges; the local date differs from the UTC one by less
/// than a day (chrono's offsets are strictly under 24 hours); every instant
/// from the epoch up to 8·10^15 ms (far within chrono's range, which ends in
/// year 262142) has a date. Which date, near midnight, depends on the
/// machine's time zone and is not stated; chrono panics when it cannot read
/// the time-zone data, which no argument can rule out.
#[verifier::external_body]
fn local_date_of(ms: i64) -> (r: Option<(i32, u32, u32)>)
    ensures
        0 <= ms < 8_000_000_000_000_000 ==> r is Some,
        r matches Some((y, m, d)) ==> 1 <= m <= 12 && 1 <= d <= 31 && wall_ms(y as int, m as int, d as int, 0, 0)
            <= ms + DAY_MS && ms < wall_ms(y as int, m as int, d as int, 0, 0) + 2 * DAY_MS,
{
    match chrono::DateTime::from_timestamp_millis(ms) {
        Some(dt) => {
            let local = dt.with_timezone(&chrono::Local);
            Some((local.year(), local.month(), local.day()))
        },
        None => None,
    }
}

/// The clock's milliseconds since the epoch as a signed number: 0 when the
/// clock reads before the epoch, the largest one when they do not fit.
pub(crate) fn now_signed() -> (r: i64)
    ensures
        0 <= r,
{
    let ms = now_in_millis();
    if ms > 9_223_372_036_854_775_807u64 {
        9_223_372_036_854_775_807i64
    } else {
        ms as i64
    }
}

/// The local year and the instant now (in milliseconds; the epoch when the
/// clock reads before it); year 1970 when the date is out of chrono's range.
fn local_now() -> (r: (i32, i64))
    ensures
        0 <= r.1,
{
    let ms = now_signed();
    match local_date_of(ms) {
        Some((y, _, _)) => (y, ms),
        None => (1970, ms),
    }
}

/// Today's local month and day (January 1 when the date is out of
/// chrono's range).
fn today_md() -> (r: (u32, u32))
    ensures
        1 <= r.0 <= 12,
        1 <= r.1 <= 31,
{
    let ms = now_signed();
    match local_date_of(ms) {
        Some((_, m, d)) => (m, d),
        None => (1, 1),
    }
}

/// The most days a month has in any year (29 for February).
pub open spec fn max_day(month: u32) -> u32 {
    if month == 2 {
        29
    } else if month == 4 || month == 6 || month == 9 || month == 11 {
        30
    } else {
        31
    }
}

/// A month, day, hour and minute that some year has.
pub open spec fn date_time_possible(month: u32, day: u32, hour: u32, minute: u32) -> bool {
    1 <= month <= 12 && 1 <= day <= max_day(month) && hour < 24 && minute < 60
}

/// Wraps `chrono::Local.with_ymd_and_hms(..).single()`: the instant, in
/// milliseconds, of a local date and time when it exists and is not
/// ambiguous. Stated: no instant for a month, day, hour or minute that no
/// year has (chrono returns `None` on invalid input data); an instant lies
/// within a day of the wall-clock time read as UTC (chrono's offsets are
/// strictly under 24 hours). The exact instant, and whether one exists
/// for a valid date and time (a daylight-saving gap has none), depend on the
/// machine's time zone and are not stated; chrono panics when it cannot
/// read the time-zone data, which no argument can rule out.
#[verifier::external_body]
fn local_millis(year: i32, month: u32, day: u32, hour: u32, minute: u32) -> (r: Option<i64>)
    ensures
        !date_time_possible(month, day, hour, minute) ==> r is None,
        r matches Some(t) ==> wall_ms(year as int, month as int, day as int, hour as int, minute as int) - DAY_MS < t
            < wall_ms(year as int, month as int, day as int, hour as int, minute as int) + DAY_MS,
{
    match chrono::Local.with_ymd_and_hms(year, month, day, hour, minute, 0).single() {
        Some(dt) => Some(dt.timestamp_millis()),
        None => None,
    }
}

/// The instant chosen for a date-time: this year's when it is not in the
/// future, else last year's, else 0.
pub open spec fn pick_instant(now_ms: i64, this_year: Option<i64>, last_year: Option<i64>) -> u64 {
    match this_year {
        Some(t) if (t as u64) <= (now_ms as u64) => t as u64,
        _ => match last_year {
            Some(t) => t as u64,
            None => 0,
        },
    }
}

/// Picks the instant of a date-time from this year's and last year's
/// candidates (as milliseconds since the epoch, compared unsigned).
pub fn pick_instant_exec(now_ms: i64, this_year: Option<i64>, last_year: Option<i64>) -> (r: u64)
    ensures
        r == pick_instant(now_ms, this_year, last_year),
{
    if let Some(t) = this_year {
        if (t as u64) <= (now_ms as u64) {
            return t as u64;
        }
    }
    match last_year {
        Some(t) => t as u64,
        None => 0,
    }
}

/// Instant of a local date-time in local year `year`, or in the year before
/// when that one is after `now_ms`; 0 when neither exists, as for a month,
/// day, hour or minute that no year has.
pub fn resolve_date_time(year: i32, now_ms: i64, month: u32, day: u32, hour: u32, minute: u32) -> (r: u64)
    ensures
        !date_time_possible(month, day, hour, minute) ==> r == 0,
        r == 0 || (near_wall(r, year as int, month, day, hour, minute) && r <= now_ms as u64) || near_wall(
            r,
            year - 1,
            month,
            day,
            hour,
            minute,
        ),
{
    let this_year = local_millis(year, month, day, hour, minute);
    let last_year = if year > i32::MIN {
        local_millis(year - 1, month, day, hour, minute)
    } else {
        None
    };
    let r = pick_instant_exec(now_ms, this_year, last_year);
    proof {
        match this_year {
            Some(t) if (t as u64) <= (now_ms as u64) => {
                assert(near_wall(r, year as int, month, day, hour, minute));
            },
            _ => match last_year {
                Some(t) => {
                    assert(near_wall(r, year - 1, month, day, hour, minute));
                },
                None => {},
            },
        }
    }
    r
}

/// Instant of a local date-time in the current year, or in the previous
/// year when the current year's is still to come; 0 when neither exists,
/// as for a month, day, hour or minute that no year has.
pub fn datetime_to_millis(month: u32, day: u32, hour: u32, minute: u32) -> (r: u64)
    ensures
        instant_of(r, month, day, hour, minute),
{
    let (year, now_ms) = local_now();
    resolve_date_time(year, now_ms, month, day, hour, minute)
}

/// `r` is an instant within a day of the wall-clock time of that month,
/// day, hour and minute in year `y`, read as UTC.
pub open spec fn near_wall(r: u64, y: int, month: u32, day: u32, hour: u32, minute: u32) -> bool {
    exists|t: i64|
        #![trigger t as u64]
        r == t as u64 && wall_ms(y, month as int, day as int, hour as int, minute as int) - DAY_MS < t < wall_ms(
            y,
            month as int,
            day as int,
            hour as int,
            minute as int,
        ) + DAY_MS
}

/// What holds of the instant found for a month, day, hour and minute,
/// whatever the clock and the time zone: 0 for a date-time no year has;
/// otherwise 0 (when it exists in neither year) or an instant within a
/// day of that wall-clock time in some year.
pub open spec fn instant_of(r: u64, month: u32, day: u32, hour: u32, minute: u32) -> bool {
    &&& !date_time_possible(month, day, hour, minute) ==> r == 0
    &&& r == 0 || exists|y: int| #[trigger] near_wall(r, y, month, day, hour, minute)
}

/// The resolved clock time `hour`:`minute` on the local date
/// (`month`, `day`) the clock gave.
pub fn resolve_clock_time(month: u32, day: u32, hour: u32, minute: u32, label: String) -> (p: ParsedTimeArg)
    ensures
        p.date == Some((month, day)),
        p.label@ == label@,
        instant_of(p.ms, month, day, hour, minute),
{
    ParsedTimeArg { ms: datetime_to_millis(month, day, hour, minute), label, date: Some((month, day)) }
}

/// `now - ago`, or 0 when `ago` reaches back past the epoch.
pub open spec fn elapsed_start(now: u64, ago: u64) -> u64 {
    if ago <= now {
        (now - ago) as u64
    } else {
        0
    }
}

/// The start of a span of `ago` milliseconds ending at `now`: `now - ago`,
/// or 0 when the span reaches back past the epoch.
pub fn ago_start(now: u64, ago: u64) -> (r: u64)
    ensures
        r == elapsed_start(now, ago),
{
    if ago <= now {
        now - ago
    } else {
        0
    }
}

/// Resolves a time argument against the clock: a clock time is taken
/// today, a span is taken back from now, a date-time in the current year
/// (or the previous one when still to come).
pub fn parse_single_time_arg(arg: &str) -> (r: Result<ParsedTimeArg, String>)
    requires
        duration_fits(arg@),
    ensures
        time_arg_spec(arg@) matches Err(e) ==> r matches Err(m) && m@ == e,
        time_arg_spec(arg@) matches Ok((k, l)) ==> r matches Ok(p) && p.label@ == l && match k {
            TimeArgKind::ClockTime { hour, minute } => exists|m: u32, d: u32|
                #![trigger instant_of(p.ms, m, d, hour, minute)]
                1 <= m <= 12 && 1 <= d <= 31 && p.date == Some((m, d)) && instant_of(p.ms, m, d, hour, minute),
            TimeArgKind::Ago { ms: a } => p.date is None && exists|now: u64| p.ms == #[trigger] elapsed_start(now, a),
            TimeArgKind::DateTime { month, day, hour, minute } => {
                &&& p.date == Some((month, day))
                &&& instant_of(p.ms, month, day, hour, minute)
            },
        },
{
    match plan_time_arg(arg) {
        Err(e) => Err(e),
        Ok((kind, label)) => match kind {
            TimeArgKind::ClockTime { hour, minute } => {
                let (m, d) = today_md();
                Ok(resolve_clock_time(m, d, hour, minute, label))
            },
            TimeArgKind::Ago { ms } => {
                let now = now_in_millis();
                let start = ago_start(now, ms);
                Ok(ParsedTimeArg { ms: start, label, date: None })
            },
            TimeArgKind::DateTime { month, day, hour, minute } => {
                Ok(ParsedTimeArg { ms: datetime_to_millis(month, day, hour, minute), label, date: Some((month, day)) })
            },
        },
    }
}

/// Whether `s`, read as a duration, stays within 64 bits (anything that is
/// not a duration does).
pub fn duration_in_range(s: &str) -> (b: bool)
    ensures
        b == duration_fits(s@),
{
    let cs = chars_of(s);
    let t = trim_chars(cs.as_slice());
    let n = t.len();
    let (num, mult): (&[char], u64) = if n > 0 && unit_ms_exec(t[n - 1]) > 0 {
        (vstd::slice::slice_subrange(t.as_slice(), 0, n - 1), unit_ms_exec(t[n - 1]))
    } else {
        (t.as_slice(), HOUR_MS)
    };
    proof {
        if n > 0 && unit_ms(t@[n - 1]) > 0 {
            assert(num@ =~= t@.drop_last());
        }
    }
    match parse_uint(num, u64::MAX) {
        Some(v) => {
            proof {
                assert(mult > 0);
                assert((v <= u64::MAX / mult) == (v * mult <= u64::MAX)) by (nonlinear_arith)
                    requires
                        mult > 0,
                {
                    vstd::arithmetic::div_mod::lemma_fundamental_div_mod(u64::MAX as int, mult as int);
                }
                assert(duration_spec(s@) == Ok::<nat, Seq<char>>((v * mult) as nat));
            }
            v <= u64::MAX / mult
        },
        None => true,
    }
}

} // verus!
