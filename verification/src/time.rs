use vstd::prelude::*;

use crate::error::Error;
use crate::format::{format_err_msg, format_ok, sanitize_format_string, sanitized_format};
use crate::num::{
    floor_div, floor_mod, trunc_div, trunc_rem, floor_div_i64, floor_mod_i64, trunc_div_i64,
    trunc_rem_i64, lemma_floor_div_mod,
};
use crate::strings::{dec_str, push_char, push_dec_i64, str_eq};
use std::fmt::Write;

verus! {

pub const NANOS_IN_SECOND: i64 = 1_000_000_000;
pub const NANOS_IN_MINUTE: i64 = 60_000_000_000;
pub const NANOS_IN_HOUR: i64 = 3_600_000_000_000;
pub const NANOS_IN_DAY: i64 = 86_400_000_000_000;
pub const NANOS_IN_WEEK: i64 = 604_800_000_000_000;

/// A span of time, stored as a signed count of nanoseconds.
#[derive(Clone, Copy, Debug, PartialEq, Eq, PartialOrd, Ord, Hash, Structural)]
pub struct Duration {
    duration: i64,
}

impl View for Duration {
    type V = int;

    closed spec fn view(&self) -> int {
        self.duration as int
    }
}

/// Rounding a timestamp to the nearest multiple of a positive span;
/// a tie rounds up.
pub open spec fn round_to_multiple(t: int, s: int) -> int
    recommends
        s > 0,
{
    let m = floor_mod(t, s);
    if m == 0 {
        t
    } else if s - m <= m {
        t + (s - m)
    } else {
        t - m
    }
}

/// Rounding a timestamp down to a multiple of a positive span.
pub open spec fn trunc_to_multiple(t: int, s: int) -> int
    recommends
        s > 0,
{
    t - floor_mod(t, s)
}

/// Rounding moves a timestamp by less than the span in either direction.
pub proof fn lemma_round_to_multiple_bounds(t: int, s: int)
    requires
        s > 0,
    ensures
        t - s < round_to_multiple(t, s) < t + s,
        t - s < trunc_to_multiple(t, s) <= t,
{
    lemma_floor_div_mod(t, s);
}

impl Duration {
    pub fn new(duration: i64) -> (r: Self)
        ensures
            r@ == duration as int,
    {
        Self { duration }
    }

    pub fn nanoseconds(&self) -> (r: i64)
        ensures
            r as int == self@,
    {
        self.duration
    }

    pub fn microseconds(&self) -> (r: i64)
        ensures
            r as int == trunc_div(self@, 1_000),
    {
        trunc_div_i64(self.duration, 1_000)
    }

    pub fn milliseconds(&self) -> (r: i64)
        ensures
            r as int == trunc_div(self@, 1_000_000),
    {
        trunc_div_i64(self.duration, 1_000_000)
    }

    pub fn seconds(&self) -> (r: i64)
        ensures
            r as int == trunc_div(self@, NANOS_IN_SECOND as int),
    {
        trunc_div_i64(self.duration, NANOS_IN_SECOND)
    }

    pub fn minutes(&self) -> (r: i64)
        ensures
            r as int == trunc_div(self@, NANOS_IN_MINUTE as int),
    {
        trunc_div_i64(self.duration, NANOS_IN_MINUTE)
    }

    pub fn hours(&self) -> (r: i64)
        ensures
            r as int == trunc_div(self@, NANOS_IN_HOUR as int),
    {
        trunc_div_i64(self.duration, NANOS_IN_HOUR)
    }

    pub fn days(&self) -> (r: i64)
        ensures
            r as int == trunc_div(self@, NANOS_IN_DAY as int),
    {
        trunc_div_i64(self.duration, NANOS_IN_DAY)
    }

    pub fn weeks(&self) -> (r: i64)
        ensures
            r as int == trunc_div(self@, NANOS_IN_WEEK as int),
    {
        trunc_div_i64(self.duration, NANOS_IN_WEEK)
    }

    /// The additive inverse of this span.
    pub fn neg(self) -> (r: Self)
        requires
            self@ != i64::MIN,
        ensures
            r@ == -self@,
    {
        Duration { duration: -self.duration }
    }

    /// The sum of two spans.
    pub fn plus(self, other: Self) -> (r: Self)
        requires
            i64::MIN <= self@ + other@ <= i64::MAX,
        ensures
            r@ == self@ + other@,
    {
        Duration { duration: self.duration + other.duration }
    }

    /// The difference of two spans.
    pub fn minus(self, other: Self) -> (r: Self)
        requires
            i64::MIN <= self@ - other@ <= i64::MAX,
        ensures
            r@ == self@ - other@,
    {
        Duration { duration: self.duration - other.duration }
    }

    /// This span scaled by an integer factor.
    pub fn times_i64(self, other: i64) -> (r: Self)
        requires
            i64::MIN <= self@ * other <= i64::MAX,
        ensures
            r@ == self@ * other,
    {
        Duration { duration: self.duration * other }
    }

    /// How many times `other` fits into this span, rounded toward negative
    /// infinity; dividing by the zero span is an error.
    pub fn div_duration(self, other: Self) -> (r: Result<i64, Error>)
        requires
            !(self@ == i64::MIN && other@ == -1),
        ensures
            match r {
                Ok(q) => other@ != 0 && q as int == floor_div(self@, other@),
                Err(e) => other@ == 0 && e == Error::DivisionByZero,
            },
    {
        if other.duration == 0 {
            Err(Error::DivisionByZero)
        } else {
            Ok(floor_div_i64(self.duration, other.duration))
        }
    }

    /// This span divided by an integer, rounded toward negative infinity;
    /// dividing by zero is an error.
    pub fn div_i64(self, other: i64) -> (r: Result<Self, Error>)
        requires
            !(self@ == i64::MIN && other == -1),
        ensures
            match r {
                Ok(d) => other != 0 && d@ == floor_div(self@, other as int),
                Err(e) => other == 0 && e == Error::DivisionByZero,
            },
    {
        if other == 0 {
            Err(Error::DivisionByZero)
        } else {
            Ok(Duration { duration: floor_div_i64(self.duration, other) })
        }
    }

    /// The remainder left when `other` is taken out of this span as often as
    /// it fits; the result has the sign of `other`. Dividing by the zero span
    /// is an error.
    pub fn rem_duration(self, other: Self) -> (r: Result<Self, Error>)
        requires
            !(self@ == i64::MIN && other@ == -1),
        ensures
            match r {
                Ok(d) => other@ != 0 && d@ == floor_mod(self@, other@),
                Err(e) => other@ == 0 && e == Error::DivisionByZero,
            },
    {
        if other.duration == 0 {
            Err(Error::DivisionByZero)
        } else {
            proof {
                lemma_floor_div_mod(self@, other@);
            }
            Ok(Duration { duration: floor_mod_i64(self.duration, other.duration) })
        }
    }

    /// This span divided by an integer, rounded toward zero; dividing by
    /// zero is an error.
    pub fn true_div_by_i64(self, other: i64) -> (r: Result<Self, Error>)
        requires
            !(self@ == i64::MIN && other == -1),
        ensures
            match r {
                Ok(d) => other != 0 && d@ == trunc_div(self@, other as int),
                Err(e) => other == 0 && e == Error::DivisionByZero,
            },
    {
        if other == 0 {
            Err(Error::DivisionByZero)
        } else {
            Ok(Duration { duration: trunc_div_i64(self.duration, other) })
        }
    }
}

/// A point on the calendar-clock timeline with no attached time zone,
/// stored as signed nanoseconds since the epoch.
#[derive(Clone, Copy, Debug, PartialEq, Eq, PartialOrd, Ord, Hash, Structural)]
pub struct DateTimeNaive {
    timestamp: i64,
}

impl View for DateTimeNaive {
    type V = int;

    closed spec fn view(&self) -> int {
        self.timestamp as int
    }
}

impl DateTimeNaive {
    pub fn new(timestamp: i64) -> (r: Self)
        ensures
            r@ == timestamp as int,
    {
        Self { timestamp }
    }

    pub fn timestamp(&self) -> (r: i64)
        ensures
            r as int == self@,
    {
        self.timestamp
    }

    /// This instant moved to the nearest multiple of `duration`; a tie
    /// rounds up.
    pub fn round(&self, duration: Duration) -> (r: DateTimeNaive)
        requires
            duration@ > 0,
            i64::MIN <= round_to_multiple(self@, duration@) <= i64::MAX,
        ensures
            r@ == round_to_multiple(self@, duration@),
    {
        DateTimeNaive { timestamp: round_timestamp(self.timestamp, duration.duration) }
    }

    /// This instant moved down to a multiple of `duration`.
    pub fn truncate(&self, duration: Duration) -> (r: DateTimeNaive)
        requires
            duration@ > 0,
            i64::MIN <= trunc_to_multiple(self@, duration@),
        ensures
            r@ == trunc_to_multiple(self@, duration@),
    {
        DateTimeNaive { timestamp: trunc_timestamp(self.timestamp, duration.duration) }
    }

    /// The span from `other` to this instant.
    pub fn minus(self, other: Self) -> (r: Duration)
        requires
            i64::MIN <= self@ - other@ <= i64::MAX,
        ensures
            r@ == self@ - other@,
    {
        Duration { duration: self.timestamp - other.timestamp }
    }

    /// This instant shifted forward by a span.
    pub fn plus_duration(self, other: Duration) -> (r: Self)
        requires
            i64::MIN <= self@ + other@ <= i64::MAX,
        ensures
            r@ == self@ + other@,
    {
        DateTimeNaive { timestamp: self.timestamp + other.duration }
    }

    /// This instant shifted backward by a span.
    pub fn minus_duration(self, other: Duration) -> (r: Self)
        requires
            i64::MIN <= self@ - other@ <= i64::MAX,
        ensures
            r@ == self@ - other@,
    {
        DateTimeNaive { timestamp: self.timestamp - other.duration }
    }
}

/// A point on the absolute timeline, stored as signed nanoseconds since the
/// epoch in UTC.
#[derive(Clone, Copy, Debug, PartialEq, Eq, PartialOrd, Ord, Hash, Structural)]
pub struct DateTimeUtc {
    timestamp: i64,
}

impl View for DateTimeUtc {
    type V = int;

    closed spec fn view(&self) -> int {
        self.timestamp as int
    }
}

impl DateTimeUtc {
    pub fn new(timestamp: i64) -> (r: Self)
        ensures
            r@ == timestamp as int,
    {
        Self { timestamp }
    }

    pub fn timestamp(&self) -> (r: i64)
        ensures
            r as int == self@,
    {
        self.timestamp
    }

    /// This instant moved to the nearest multiple of `duration`; a tie
    /// rounds up.
    pub fn round(&self, duration: Duration) -> (r: DateTimeUtc)
        requires
            duration@ > 0,
            i64::MIN <= round_to_multiple(self@, duration@) <= i64::MAX,
        ensures
            r@ == round_to_multiple(self@, duration@),
    {
        DateTimeUtc { timestamp: round_timestamp(self.timestamp, duration.duration) }
    }

    /// This instant moved down to a multiple of `duration`.
    pub fn truncate(&self, duration: Duration) -> (r: DateTimeUtc)
        requires
            duration@ > 0,
            i64::MIN <= trunc_to_multiple(self@, duration@),
        ensures
            r@ == trunc_to_multiple(self@, duration@),
    {
        DateTimeUtc { timestamp: trunc_timestamp(self.timestamp, duration.duration) }
    }

    /// The span from `other` to this instant.
    pub fn minus(self, other: Self) -> (r: Duration)
        requires
            i64::MIN <= self@ - other@ <= i64::MAX,
        ensures
            r@ == self@ - other@,
    {
        Duration { duration: self.timestamp - other.timestamp }
    }

    /// This instant shifted forward by a span.
    pub fn plus_duration(self, other: Duration) -> (r: Self)
        requires
            i64::MIN <= self@ + other@ <= i64::MAX,
        ensures
            r@ == self@ + other@,
    {
        DateTimeUtc { timestamp: self.timestamp + other.duration }
    }

    /// This instant shifted backward by a span.
    pub fn minus_duration(self, other: Duration) -> (r: Self)
        requires
            i64::MIN <= self@ - other@ <= i64::MAX,
        ensures
            r@ == self@ - other@,
    {
        DateTimeUtc { timestamp: self.timestamp - other.duration }
    }
}

/// Rounds `t` to the nearest multiple of the positive span `s`; a tie
/// rounds up.
fn round_timestamp(t: i64, s: i64) -> (r: i64)
    requires
        s > 0,
        i64::MIN <= round_to_multiple(t as int, s as int) <= i64::MAX,
    ensures
        r as int == round_to_multiple(t as int, s as int),
{
    proof {
        lemma_floor_div_mod(t as int, s as int);
    }
    let m = floor_mod_i64(t, s);
    if m == 0 {
        t
    } else if s - m <= m {
        t + (s - m)
    } else {
        t - m
    }
}

/// Rounds `t` down to a multiple of the positive span `s`.
fn trunc_timestamp(t: i64, s: i64) -> (r: i64)
    requires
        s > 0,
        i64::MIN <= trunc_to_multiple(t as int, s as int),
    ensures
        r as int == trunc_to_multiple(t as int, s as int),
{
    proof {
        lemma_floor_div_mod(t as int, s as int);
    }
    let m = floor_mod_i64(t, s);
    t - m
}


/// The outcome of mapping a clock reading through a time zone.
#[derive(Clone, Copy, Debug, PartialEq, Eq, Structural)]
pub enum ZoneLookup {
    /// The time-zone name is not in the database.
    NoSuchZone,
    /// Exactly one instant corresponds to the reading.
    Single(i64),
    /// Two instants correspond to the reading (a clock set back); the
    /// earlier one first.
    Ambiguous(i64, i64),
    /// No instant corresponds to the reading (a clock set forward).
    Nonexistent,
    /// The mapped instant does not fit in nanoseconds since the epoch.
    OutOfRange,
}

/// Nanoseconds since the epoch read from `s` as a calendar date and clock
/// time under a format, or nothing when the parse fails or the result does
/// not fit.
pub uninterp spec fn parsed_naive_datetime_nanos(s: Seq<char>, f: Seq<char>) -> Option<i64>;

/// Nanoseconds since the epoch of midnight of the calendar date read from
/// `s` under a format.
pub uninterp spec fn parsed_date_midnight_nanos(s: Seq<char>, f: Seq<char>) -> Option<i64>;

/// Nanoseconds since the epoch of the clock time read from `s` under a
/// format, placed on the first day of 1900.
pub uninterp spec fn parsed_time_base_nanos(s: Seq<char>, f: Seq<char>) -> Option<i64>;

/// Nanoseconds since the epoch read from `s` as a date, time and offset
/// under a format.
pub uninterp spec fn parsed_utc_nanos(s: Seq<char>, f: Seq<char>) -> Option<i64>;

/// The rendering of a timestamp under a format with no time zone attached,
/// or nothing when the format string is rejected.
pub uninterp spec fn formatted_naive(ts: int, f: Seq<char>) -> Option<Seq<char>>;

/// The rendering of a timestamp under a format on the UTC timeline, or
/// nothing when the format string is rejected.
pub uninterp spec fn formatted_utc(ts: int, f: Seq<char>) -> Option<Seq<char>>;

/// How a local clock reading maps to the UTC timeline under a named zone.
pub uninterp spec fn local_nanos_to_utc(ts: int, tz: Seq<char>) -> ZoneLookup;

/// How a UTC instant reads on the local clock of a named zone.
pub uninterp spec fn utc_nanos_to_local(ts: int, tz: Seq<char>) -> ZoneLookup;

/// Relies on chrono's `NaiveDateTime::parse_from_str`: the parse depends on
/// the two strings alone; the result is converted to nanoseconds since the
/// epoch when it fits.
#[verifier::external_body]
fn parse_naive_datetime(s: &str, f: &str) -> (r: Option<i64>)
    ensures
        r == parsed_naive_datetime_nanos(s@, f@),
{
    match chrono::NaiveDateTime::parse_from_str(s, f) {
        Ok(dt) => dt.and_utc().timestamp_nanos_opt(),
        Err(_) => None,
    }
}

/// Relies on chrono's `NaiveDate::parse_from_str`: the parse depends on the
/// two strings alone; midnight of the date is converted to nanoseconds
/// since the epoch when it fits.
#[verifier::external_body]
fn parse_naive_date_midnight(s: &str, f: &str) -> (r: Option<i64>)
    ensures
        r == parsed_date_midnight_nanos(s@, f@),
{
    match chrono::NaiveDate::parse_from_str(s, f) {
        Ok(date) => date.and_hms_opt(0, 0, 0)?.and_utc().timestamp_nanos_opt(),
        Err(_) => None,
    }
}

/// Relies on chrono's `NaiveTime::parse_from_str`: the parse depends on the
/// two strings alone; the time is placed on 1900-01-01 and converted to
/// nanoseconds since the epoch.
#[verifier::external_body]
fn parse_naive_time_base(s: &str, f: &str) -> (r: Option<i64>)
    ensures
        r == parsed_time_base_nanos(s@, f@),
{
    match chrono::NaiveTime::parse_from_str(s, f) {
        Ok(time) => chrono::NaiveDate::from_ymd_opt(1900, 1, 1)?.and_time(time)
            .and_utc().timestamp_nanos_opt(),
        Err(_) => None,
    }
}

/// Relies on chrono's `DateTime::parse_from_str`: the parse depends on the
/// two strings alone; the instant is converted to nanoseconds since the
/// epoch in UTC when it fits.
#[verifier::external_body]
fn parse_utc_datetime(s: &str, f: &str) -> (r: Option<i64>)
    ensures
        r == parsed_utc_nanos(s@, f@),
{
    match chrono::DateTime::parse_from_str(s, f) {
        Ok(dt) => dt.naive_utc().and_utc().timestamp_nanos_opt(),
        Err(_) => None,
    }
}

/// Relies on chrono's formatting of a `NaiveDateTime`: the rendering
/// depends on the timestamp and the format string alone, and an invalid
/// format string reports an error through `write!` instead of a panic.
#[verifier::external_body]
fn format_naive_timestamp(ts: i64, f: &str) -> (r: Option<String>)
    ensures
        r is Some <==> formatted_naive(ts as int, f@) is Some,
        r matches Some(s) ==> formatted_naive(ts as int, f@) == Some(s@),
{
    let dt = chrono::DateTime::from_timestamp_nanos(ts).naive_utc();
    let mut out = String::new();
    match write!(&mut out, "{}", dt.format(f)) {
        Ok(()) => Some(out),
        Err(_) => None,
    }
}

/// Relies on chrono's formatting of a `DateTime<Utc>`: the rendering
/// depends on the timestamp and the format string alone, and an invalid
/// format string reports an error through `write!` instead of a panic.
#[verifier::external_body]
fn format_utc_timestamp(ts: i64, f: &str) -> (r: Option<String>)
    ensures
        r is Some <==> formatted_utc(ts as int, f@) is Some,
        r matches Some(s) ==> formatted_utc(ts as int, f@) == Some(s@),
{
    let dt = chrono::DateTime::from_timestamp_nanos(ts);
    let mut out = String::new();
    match write!(&mut out, "{}", dt.format(f)) {
        Ok(()) => Some(out),
        Err(_) => None,
    }
}

/// Relies on chrono-tz's compiled-in zone database (`Tz::from_str` and
/// `TimeZone::from_local_datetime`): for a fixed crate version the mapping
/// of a local reading depends on the timestamp and the zone name alone.
#[verifier::external_body]
fn lookup_local_to_utc(ts: i64, tz: &str) -> (r: ZoneLookup)
    ensures
        r == local_nanos_to_utc(ts as int, tz@),
{
    let zone: chrono_tz::Tz = match tz.parse() {
        Ok(z) => z,
        Err(_) => return ZoneLookup::NoSuchZone,
    };
    let naive = chrono::DateTime::from_timestamp_nanos(ts).naive_utc();
    match chrono::TimeZone::from_local_datetime(&zone, &naive) {
        chrono::LocalResult::Single(dt) => match dt.timestamp_nanos_opt() {
            Some(t) => ZoneLookup::Single(t),
            None => ZoneLookup::OutOfRange,
        },
        chrono::LocalResult::Ambiguous(a, b) => match (a.timestamp_nanos_opt(), b.timestamp_nanos_opt()) {
            (Some(x), Some(y)) => ZoneLookup::Ambiguous(x, y), _ => ZoneLookup::OutOfRange,
        },
        chrono::LocalResult::None => ZoneLookup::Nonexistent,
    }
}

/// Relies on chrono-tz's compiled-in zone database (`Tz::from_str` and
/// `TimeZone::from_utc_datetime`): for a fixed crate version the local
/// reading of a UTC instant depends on the timestamp and the zone name
/// alone, and every instant has exactly one reading.
#[verifier::external_body]
fn lookup_utc_to_local(ts: i64, tz: &str) -> (r: ZoneLookup)
    ensures
        r == utc_nanos_to_local(ts as int, tz@),
        r is NoSuchZone || r is Single || r is OutOfRange,
{
    let zone: chrono_tz::Tz = match tz.parse() {
        Ok(z) => z,
        Err(_) => return ZoneLookup::NoSuchZone,
    };
    let naive = chrono::DateTime::from_timestamp_nanos(ts).naive_utc();
    let local = chrono::TimeZone::from_utc_datetime(&zone, &naive).naive_local();
    match local.and_utc().timestamp_nanos_opt() {
        Some(t) => ZoneLookup::Single(t),
        None => ZoneLookup::OutOfRange,
    }
}

/// The day number of a civil date in the proleptic Gregorian calendar,
/// counted from the epoch.
pub open spec fn days_from_civil(y: int, m: int, d: int) -> int {
    let yy = if m <= 2 { y - 1 } else { y };
    let era = floor_div(yy, 400);
    let yoe = yy - era * 400;
    let mp = (m + 9) % 12;
    let doy = (153 * mp + 2) / 5 + d - 1;
    let doe = yoe * 365 + yoe / 4 - yoe / 100 + doy;
    era * 146097 + doe - 719468
}

/// A plausible civil date: the month and day are in calendar range.
pub open spec fn valid_civil(y: int, m: int, d: int) -> bool {
    1 <= m <= 12 && 1 <= d <= 31
}

/// Relies on chrono's proleptic Gregorian calendar (`NaiveDate`): the civil
/// date of a day number satisfies the standard civil-from-days relation.
#[verifier::external_body]
fn civil_of_day_number(day: i64) -> (r: (i64, u8, u8))
    requires
        -106_752 <= day <= 106_752,
    ensures
        valid_civil(r.0 as int, r.1 as int, r.2 as int),
        days_from_civil(r.0 as int, r.1 as int, r.2 as int) == day as int,
{
    let date = chrono::NaiveDate::from_num_days_from_ce_opt((day + 719_163) as i32).unwrap();
    (chrono::Datelike::year(&date) as i64, chrono::Datelike::month(&date) as u8,
        chrono::Datelike::day(&date) as u8)
}

/// The nanosecond multiplier of a unit name, when the name is one of
/// `s`, `ms`, `us`, `ns`.
pub open spec fn unit_multiplier(u: Seq<char>) -> Option<int> {
    if u == seq!['s'] {
        Some(1_000_000_000int)
    } else if u == seq!['m', 's'] {
        Some(1_000_000int)
    } else if u == seq!['u', 's'] {
        Some(1_000int)
    } else if u == seq!['n', 's'] {
        Some(1int)
    } else {
        None
    }
}

/// The message reported for an unknown unit name.
pub open spec fn unit_err_msg(u: Seq<char>) -> Seq<char> {
    "unit has to be one of s, ms, us, ns but is "@ + u + "."@
}

/// The message reported for a string that parses under no supported shape.
pub open spec fn strptime_err_msg(s: Seq<char>, sanitized: Seq<char>) -> Seq<char> {
    "Cannot format date: "@ + s + " using format: "@ + sanitized + "."@
}

/// The message reported for a format string the renderer rejects.
pub open spec fn strftime_err_msg(f: Seq<char>) -> Seq<char> {
    "Cannot format date using format: "@ + f + "."@
}

/// The message reported for an unknown time-zone name.
pub open spec fn tz_err_msg(tz: Seq<char>) -> Seq<char> {
    "Cannot parse time zone: "@ + tz + "."@
}

/// Maps a unit name to its length in nanoseconds; an unknown name is an
/// error.
pub fn get_unit_multiplier(unit: &str) -> (r: Result<i64, Error>)
    ensures
        match r {
            Ok(m) => unit_multiplier(unit@) == Some(m as int),
            Err(e) => unit_multiplier(unit@) is None && (e matches Error::ValueError(m) && m@
                == unit_err_msg(unit@)),
        },
{
    proof {
        reveal_strlit("s");
        reveal_strlit("ms");
        reveal_strlit("us");
        reveal_strlit("ns");
        assert("s"@ =~= seq!['s']);
        assert("ms"@ =~= seq!['m', 's']);
        assert("us"@ =~= seq!['u', 's']);
        assert("ns"@ =~= seq!['n', 's']);
    }
    if str_eq(unit, "s") {
        Ok(1_000_000_000)
    } else if str_eq(unit, "ms") {
        Ok(1_000_000)
    } else if str_eq(unit, "us") {
        Ok(1_000)
    } else if str_eq(unit, "ns") {
        Ok(1)
    } else {
        let mut msg = String::new();
        msg.append("unit has to be one of s, ms, us, ns but is ");
        msg.append(unit);
        msg.append(".");
        proof {
            assert(msg@ =~= unit_err_msg(unit@));
        }
        Err(Error::ValueError(msg))
    }
}

fn strptime_error(date_string: &str, sanitized: &str) -> (e: Error)
    ensures
        e matches Error::ParseError(m) && m@ == strptime_err_msg(date_string@, sanitized@),
{
    let mut msg = String::new();
    msg.append("Cannot format date: ");
    msg.append(date_string);
    msg.append(" using format: ");
    msg.append(sanitized);
    msg.append(".");
    proof {
        assert(msg@ =~= strptime_err_msg(date_string@, sanitized@));
    }
    Error::ParseError(msg)
}

fn tz_error(timezone: &str) -> (e: Error)
    ensures
        e matches Error::ParseError(m) && m@ == tz_err_msg(timezone@),
{
    let mut msg = String::new();
    msg.append("Cannot parse time zone: ");
    msg.append(timezone);
    msg.append(".");
    proof {
        assert(msg@ =~= tz_err_msg(timezone@));
    }
    Error::ParseError(msg)
}

/// The timestamp `strptime` yields on a naive datetime string under an
/// already-sanitized format: a full datetime is preferred, then a bare date
/// read at midnight, then a bare time placed on 1900-01-01.
pub open spec fn naive_parse_spec(s: Seq<char>, f: Seq<char>) -> Option<i64> {
    if parsed_naive_datetime_nanos(s, f) is Some {
        parsed_naive_datetime_nanos(s, f)
    } else if parsed_date_midnight_nanos(s, f) is Some {
        parsed_date_midnight_nanos(s, f)
    } else {
        parsed_time_base_nanos(s, f)
    }
}

impl DateTimeNaive {
    /// Reads a naive datetime from `date_string` under `format`, after
    /// sanitizing the format string.
    pub fn strptime(date_string: &str, format: &str) -> (r: Result<Self, Error>)
        ensures
            match r {
                Ok(dt) => format_ok(format@) && (naive_parse_spec(
                    date_string@,
                    sanitized_format(format@),
                ) matches Some(t) && dt@ == t as int),
                Err(e) => (!format_ok(format@) && (e matches Error::ParseError(m) && m@
                    == format_err_msg(sanitized_format(format@)))) || (format_ok(format@)
                    && naive_parse_spec(date_string@, sanitized_format(format@)) is None && (
                e matches Error::ParseError(m) && m@ == strptime_err_msg(
                    date_string@,
                    sanitized_format(format@),
                ))),
            },
    {
        let f = match sanitize_format_string(format) {
            Ok(f) => f,
            Err(e) => {
                return Err(e);
            },
        };
        if let Some(t) = parse_naive_datetime(date_string, f.as_str()) {
            return Ok(Self { timestamp: t });
        }
        if let Some(t) = parse_naive_date_midnight(date_string, f.as_str()) {
            return Ok(Self { timestamp: t });
        }
        if let Some(t) = parse_naive_time_base(date_string, f.as_str()) {
            return Ok(Self { timestamp: t });
        }
        Err(strptime_error(date_string, f.as_str()))
    }

    /// Renders this instant under `format`; a format string chrono rejects
    /// is an error.
    pub fn strftime(&self, format: &str) -> (r: Result<String, Error>)
        ensures
            match r {
                Ok(s) => formatted_naive(self@, format@) == Some(s@),
                Err(e) => formatted_naive(self@, format@) is None && (
                e matches Error::ParseError(m) && m@ == strftime_err_msg(format@)),
            },
    {
        match format_naive_timestamp(self.timestamp, format) {
            Some(s) => Ok(s),
            None => {
                let mut msg = String::new();
                msg.append("Cannot format date using format: ");
                msg.append(format);
                msg.append(".");
                proof {
                    assert(msg@ =~= strftime_err_msg(format@));
                }
                Err(Error::ParseError(msg))
            },
        }
    }

    /// Interprets this instant as a wall-clock reading in the named zone and
    /// maps it to the UTC timeline. An ambiguous reading takes the later
    /// instant; a nonexistent reading is retried half an hour later, rounded
    /// to the hour.
    pub fn to_utc_from_timezone(&self, timezone: &str) -> (r: Result<DateTimeUtc, Error>)
        requires
            i64::MIN + 5_400_000_000_000 <= self@ <= i64::MAX - 5_400_000_000_000,
        ensures
            match r {
                Ok(u) => match local_nanos_to_utc(self@, timezone@) {
                    ZoneLookup::Single(t) => u@ == t as int,
                    ZoneLookup::Ambiguous(a, b) => u@ == b as int,
                    ZoneLookup::Nonexistent => local_nanos_to_utc(
                        round_to_multiple(self@ + 1_800_000_000_000, NANOS_IN_HOUR as int),
                        timezone@,
                    ) matches ZoneLookup::Single(t) && u@ == t as int,
                    _ => false,
                },
                Err(e) => match local_nanos_to_utc(self@, timezone@) {
                    ZoneLookup::NoSuchZone => e matches Error::ParseError(m) && m@ == tz_err_msg(
                        timezone@,
                    ),
                    ZoneLookup::OutOfRange => e == Error::DateTimeConversionError,
                    ZoneLookup::Nonexistent => !(local_nanos_to_utc(
                        round_to_multiple(self@ + 1_800_000_000_000, NANOS_IN_HOUR as int),
                        timezone@,
                    ) is Single) && e == Error::DateTimeConversionError,
                    _ => false,
                },
            },
    {
        match lookup_local_to_utc(self.timestamp, timezone) {
            ZoneLookup::Single(t) => Ok(DateTimeUtc { timestamp: t }),
            ZoneLookup::Ambiguous(_, t) => Ok(DateTimeUtc { timestamp: t }),
            ZoneLookup::NoSuchZone => Err(tz_error(timezone)),
            ZoneLookup::OutOfRange => Err(Error::DateTimeConversionError),
            ZoneLookup::Nonexistent => {
                let moved = self.timestamp + 1_800_000_000_000;
                proof {
                    lemma_round_to_multiple_bounds(moved as int, NANOS_IN_HOUR as int);
                }
                let probe = round_timestamp(moved, NANOS_IN_HOUR);
                match lookup_local_to_utc(probe, timezone) {
                    ZoneLookup::Single(t) => Ok(DateTimeUtc { timestamp: t }),
                    _ => Err(Error::DateTimeConversionError),
                }
            },
        }
    }

    /// Builds an instant from a count of time units; an unknown unit name is
    /// an error.
    pub fn from_timestamp(timestamp: i64, unit: &str) -> (r: Result<Self, Error>)
        requires
            unit_multiplier(unit@) matches Some(m) ==> i64::MIN <= m * timestamp <= i64::MAX,
        ensures
            match r {
                Ok(dt) => unit_multiplier(unit@) matches Some(m) && dt@ == m * timestamp,
                Err(e) => unit_multiplier(unit@) is None && (e matches Error::ValueError(m) && m@
                    == unit_err_msg(unit@)),
            },
    {
        let mult = match get_unit_multiplier(unit) {
            Ok(m) => m,
            Err(e) => {
                return Err(e);
            },
        };
        Ok(Self { timestamp: mult * timestamp })
    }
}

impl DateTimeUtc {
    /// Reads an instant with an explicit offset from `date_string` under
    /// `format`, after sanitizing the format string.
    pub fn strptime(date_string: &str, format: &str) -> (r: Result<Self, Error>)
        ensures
            match r {
                Ok(dt) => format_ok(format@) && (parsed_utc_nanos(
                    date_string@,
                    sanitized_format(format@),
                ) matches Some(t) && dt@ == t as int),
                Err(e) => (!format_ok(format@) && (e matches Error::ParseError(m) && m@
                    == format_err_msg(sanitized_format(format@)))) || (format_ok(format@)
                    && parsed_utc_nanos(date_string@, sanitized_format(format@)) is None && (
                e matches Error::ParseError(m) && m@ == strptime_err_msg(
                    date_string@,
                    sanitized_format(format@),
                ))),
            },
    {
        let f = match sanitize_format_string(format) {
            Ok(f) => f,
            Err(e) => {
                return Err(e);
            },
        };
        if let Some(t) = parse_utc_datetime(date_string, f.as_str()) {
            return Ok(Self { timestamp: t });
        }
        Err(strptime_error(date_string, f.as_str()))
    }

    /// Renders this instant under `format` on the UTC timeline; a format
    /// string chrono rejects is an error.
    pub fn strftime(&self, format: &str) -> (r: Result<String, Error>)
        ensures
            match r {
                Ok(s) => formatted_utc(self@, format@) == Some(s@),
                Err(e) => formatted_utc(self@, format@) is None && (
                e matches Error::ParseError(m) && m@ == strftime_err_msg(format@)),
            },
    {
        match format_utc_timestamp(self.timestamp, format) {
            Some(s) => Ok(s),
            None => {
                let mut msg = String::new();
                msg.append("Cannot format date using format: ");
                msg.append(format);
                msg.append(".");
                proof {
                    assert(msg@ =~= strftime_err_msg(format@));
                }
                Err(Error::ParseError(msg))
            },
        }
    }

    /// Reads this UTC instant on the wall clock of the named zone.
    pub fn to_naive_in_timezone(&self, timezone: &str) -> (r: Result<DateTimeNaive, Error>)
        ensures
            match r {
                Ok(n) => utc_nanos_to_local(self@, timezone@) matches ZoneLookup::Single(t) && n@
                    == t as int,
                Err(e) => match utc_nanos_to_local(self@, timezone@) {
                    ZoneLookup::NoSuchZone => e matches Error::ParseError(m) && m@ == tz_err_msg(
                        timezone@,
                    ),
                    ZoneLookup::OutOfRange => e == Error::DateTimeConversionError,
                    _ => false,
                },
            },
    {
        match lookup_utc_to_local(self.timestamp, timezone) {
            ZoneLookup::Single(t) => Ok(DateTimeNaive { timestamp: t }),
            ZoneLookup::NoSuchZone => Err(tz_error(timezone)),
            ZoneLookup::OutOfRange => Err(Error::DateTimeConversionError),
            _ => {
                proof {
                    assert(false);
                }
                Err(Error::DateTimeConversionError)
            },
        }
    }
}


/// The day number of any nanosecond timestamp lies within the range the
/// calendar conversion accepts.
proof fn lemma_day_number_bounds(ts: int)
    requires
        i64::MIN <= ts <= i64::MAX,
    ensures
        -106_752 <= floor_div(ts, NANOS_IN_DAY as int) <= 106_752,
{
    lemma_floor_div_mod(ts, NANOS_IN_DAY as int);
    let day = NANOS_IN_DAY as int;
    let q = floor_div(ts, day);
    let m = floor_mod(ts, day);
    if q < -106_752 {
        assert(q * day <= (-106_753) * day) by {
            vstd::arithmetic::mul::lemma_mul_inequality(q, -106_753, day);
        }
        assert(false);
    }
    if q > 106_752 {
        assert(106_753 * day <= q * day) by {
            vstd::arithmetic::mul::lemma_mul_inequality(106_753, q, day);
        }
        assert(false);
    }
}

impl DateTimeNaive {
    /// The civil date of this instant: year, month and day of month.
    pub fn civil_date(&self) -> (r: (i64, u8, u8))
        ensures
            valid_civil(r.0 as int, r.1 as int, r.2 as int),
            days_from_civil(r.0 as int, r.1 as int, r.2 as int) == floor_div(
                self@,
                NANOS_IN_DAY as int,
            ),
    {
        proof {
            lemma_day_number_bounds(self@);
        }
        let day = floor_div_i64(self.timestamp, NANOS_IN_DAY);
        civil_of_day_number(day)
    }

    /// The calendar year of this instant.
    pub fn year(&self) -> (y: i64)
        ensures
            exists|m: int, d: int|
                valid_civil(y as int, m, d) && #[trigger] days_from_civil(y as int, m, d)
                    == floor_div(self@, NANOS_IN_DAY as int),
    {
        let c = self.civil_date();
        proof {
            assert(days_from_civil(c.0 as int, c.1 as int, c.2 as int) == floor_div(
                self@,
                NANOS_IN_DAY as int,
            ));
        }
        c.0
    }

    /// The calendar month of this instant.
    pub fn month(&self) -> (mo: i64)
        ensures
            exists|y: int, d: int|
                valid_civil(y, mo as int, d) && #[trigger] days_from_civil(y, mo as int, d)
                    == floor_div(self@, NANOS_IN_DAY as int),
    {
        let c = self.civil_date();
        proof {
            assert(days_from_civil(c.0 as int, c.1 as int, c.2 as int) == floor_div(
                self@,
                NANOS_IN_DAY as int,
            ));
        }
        c.1 as i64
    }

    /// The day of month of this instant.
    pub fn day(&self) -> (d: i64)
        ensures
            exists|y: int, m: int|
                valid_civil(y, m, d as int) && #[trigger] days_from_civil(y, m, d as int)
                    == floor_div(self@, NANOS_IN_DAY as int),
    {
        let c = self.civil_date();
        proof {
            assert(days_from_civil(c.0 as int, c.1 as int, c.2 as int) == floor_div(
                self@,
                NANOS_IN_DAY as int,
            ));
        }
        c.2 as i64
    }

    /// The hour of day of this instant.
    pub fn hour(&self) -> (r: i64)
        ensures
            r as int == floor_mod(floor_div(self@, NANOS_IN_HOUR as int), 24),
    {
        let h = floor_div_i64(self.timestamp, NANOS_IN_HOUR);
        floor_mod_i64(h, 24)
    }

    /// The minute of hour of this instant.
    pub fn minute(&self) -> (r: i64)
        ensures
            r as int == floor_mod(floor_div(self@, NANOS_IN_MINUTE as int), 60),
    {
        let m = floor_div_i64(self.timestamp, NANOS_IN_MINUTE);
        floor_mod_i64(m, 60)
    }

    /// The second of minute of this instant.
    pub fn second(&self) -> (r: i64)
        ensures
            r as int == floor_mod(floor_div(self@, NANOS_IN_SECOND as int), 60),
    {
        let s = floor_div_i64(self.timestamp, NANOS_IN_SECOND);
        floor_mod_i64(s, 60)
    }

    /// The sub-second part of this instant, in milliseconds.
    pub fn millisecond(&self) -> (r: i64)
        ensures
            r as int == floor_div(floor_mod(self@, NANOS_IN_SECOND as int), 1_000_000),
    {
        let n = floor_mod_i64(self.timestamp, NANOS_IN_SECOND);
        floor_div_i64(n, 1_000_000)
    }

    /// The sub-second part of this instant, in microseconds.
    pub fn microsecond(&self) -> (r: i64)
        ensures
            r as int == floor_div(floor_mod(self@, NANOS_IN_SECOND as int), 1_000),
    {
        let n = floor_mod_i64(self.timestamp, NANOS_IN_SECOND);
        floor_div_i64(n, 1_000)
    }

    /// The sub-second part of this instant, in nanoseconds.
    pub fn nanosecond(&self) -> (r: i64)
        ensures
            r as int == floor_mod(self@, NANOS_IN_SECOND as int),
    {
        floor_mod_i64(self.timestamp, NANOS_IN_SECOND)
    }

    /// The day of week of this instant, counted from Monday as zero.
    pub fn weekday(&self) -> (r: i64)
        ensures
            r as int == floor_mod(floor_div(self@, NANOS_IN_DAY as int) + 3, 7),
    {
        proof {
            lemma_day_number_bounds(self@);
        }
        let day = floor_div_i64(self.timestamp, NANOS_IN_DAY);
        floor_mod_i64(day + 3, 7)
    }
}

impl DateTimeUtc {
    /// The civil date of this instant in UTC: year, month and day of month.
    pub fn civil_date(&self) -> (r: (i64, u8, u8))
        ensures
            valid_civil(r.0 as int, r.1 as int, r.2 as int),
            days_from_civil(r.0 as int, r.1 as int, r.2 as int) == floor_div(
                self@,
                NANOS_IN_DAY as int,
            ),
    {
        proof {
            lemma_day_number_bounds(self@);
        }
        let day = floor_div_i64(self.timestamp, NANOS_IN_DAY);
        civil_of_day_number(day)
    }

    /// The calendar year of this instant in UTC.
    pub fn year(&self) -> (y: i64)
        ensures
            exists|m: int, d: int|
                valid_civil(y as int, m, d) && #[trigger] days_from_civil(y as int, m, d)
                    == floor_div(self@, NANOS_IN_DAY as int),
    {
        let c = self.civil_date();
        proof {
            assert(days_from_civil(c.0 as int, c.1 as int, c.2 as int) == floor_div(
                self@,
                NANOS_IN_DAY as int,
            ));
        }
        c.0
    }

    /// The calendar month of this instant in UTC.
    pub fn month(&self) -> (mo: i64)
        ensures
            exists|y: int, d: int|
                valid_civil(y, mo as int, d) && #[trigger] days_from_civil(y, mo as int, d)
                    == floor_div(self@, NANOS_IN_DAY as int),
    {
        let c = self.civil_date();
        proof {
            assert(days_from_civil(c.0 as int, c.1 as int, c.2 as int) == floor_div(
                self@,
                NANOS_IN_DAY as int,
            ));
        }
        c.1 as i64
    }

    /// The day of month of this instant in UTC.
    pub fn day(&self) -> (d: i64)
        ensures
            exists|y: int, m: int|
                valid_civil(y, m, d as int) && #[trigger] days_from_civil(y, m, d as int)
                    == floor_div(self@, NANOS_IN_DAY as int),
    {
        let c = self.civil_date();
        proof {
            assert(days_from_civil(c.0 as int, c.1 as int, c.2 as int) == floor_div(
                self@,
                NANOS_IN_DAY as int,
            ));
        }
        c.2 as i64
    }

    /// The hour of day of this instant in UTC.
    pub fn hour(&self) -> (r: i64)
        ensures
            r as int == floor_mod(floor_div(self@, NANOS_IN_HOUR as int), 24),
    {
        let h = floor_div_i64(self.timestamp, NANOS_IN_HOUR);
        floor_mod_i64(h, 24)
    }

    /// The minute of hour of this instant in UTC.
    pub fn minute(&self) -> (r: i64)
        ensures
            r as int == floor_mod(floor_div(self@, NANOS_IN_MINUTE as int), 60),
    {
        let m = floor_div_i64(self.timestamp, NANOS_IN_MINUTE);
        floor_mod_i64(m, 60)
    }

    /// The second of minute of this instant in UTC.
    pub fn second(&self) -> (r: i64)
        ensures
            r as int == floor_mod(floor_div(self@, NANOS_IN_SECOND as int), 60),
    {
        let s = floor_div_i64(self.timestamp, NANOS_IN_SECOND);
        floor_mod_i64(s, 60)
    }

    /// The sub-second part of this instant, in milliseconds.
    pub fn millisecond(&self) -> (r: i64)
        ensures
            r as int == floor_div(floor_mod(self@, NANOS_IN_SECOND as int), 1_000_000),
    {
        let n = floor_mod_i64(self.timestamp, NANOS_IN_SECOND);
        floor_div_i64(n, 1_000_000)
    }

    /// The sub-second part of this instant, in microseconds.
    pub fn microsecond(&self) -> (r: i64)
        ensures
            r as int == floor_div(floor_mod(self@, NANOS_IN_SECOND as int), 1_000),
    {
        let n = floor_mod_i64(self.timestamp, NANOS_IN_SECOND);
        floor_div_i64(n, 1_000)
    }

    /// The sub-second part of this instant, in nanoseconds.
    pub fn nanosecond(&self) -> (r: i64)
        ensures
            r as int == floor_mod(self@, NANOS_IN_SECOND as int),
    {
        floor_mod_i64(self.timestamp, NANOS_IN_SECOND)
    }

    /// The day of week of this instant in UTC, counted from Monday as zero.
    pub fn weekday(&self) -> (r: i64)
        ensures
            r as int == floor_mod(floor_div(self@, NANOS_IN_DAY as int) + 3, 7),
    {
        proof {
            lemma_day_number_bounds(self@);
        }
        let day = floor_div_i64(self.timestamp, NANOS_IN_DAY);
        floor_mod_i64(day + 3, 7)
    }
}

/// One rendered component of a span: its count followed by a unit name, or
/// nothing when the count is zero.
pub open spec fn unit_piece(q: int, name: Seq<char>) -> Seq<Seq<char>> {
    if q != 0 {
        seq![dec_str(q) + name]
    } else {
        Seq::empty()
    }
}

/// The rendered components of a span: days, hours, minutes, seconds and
/// leftover nanoseconds, each shown only when non-zero.
pub open spec fn duration_parts(d: int) -> Seq<Seq<char>> {
    let qd = trunc_div(d, NANOS_IN_DAY as int);
    let r1 = trunc_rem(d, NANOS_IN_DAY as int);
    let qh = trunc_div(r1, NANOS_IN_HOUR as int);
    let r2 = trunc_rem(r1, NANOS_IN_HOUR as int);
    let qm = trunc_div(r2, NANOS_IN_MINUTE as int);
    let r3 = trunc_rem(r2, NANOS_IN_MINUTE as int);
    let qs = trunc_div(r3, NANOS_IN_SECOND as int);
    let r4 = trunc_rem(r3, NANOS_IN_SECOND as int);
    unit_piece(qd, seq!['d']) + unit_piece(qh, seq!['h']) + unit_piece(qm, seq!['m']) + unit_piece(
        qs,
        seq!['s'],
    ) + unit_piece(r4, seq!['n', 's'])
}

/// The given pieces joined with single spaces.
pub open spec fn join_space(parts: Seq<Seq<char>>) -> Seq<char>
    decreases parts.len(),
{
    if parts.len() == 0 {
        Seq::empty()
    } else if parts.len() == 1 {
        parts[0]
    } else {
        parts[0] + seq![' '] + join_space(parts.skip(1))
    }
}

/// The rendering of a span: its non-zero components joined with spaces; the
/// zero span renders as the empty string.
pub open spec fn duration_display(d: int) -> Seq<char> {
    join_space(duration_parts(d))
}

/// Joining after appending one piece appends the piece, with a space when
/// something was already there.
proof fn lemma_join_space_push(parts: Seq<Seq<char>>, x: Seq<char>)
    ensures
        join_space(parts.push(x)) == if parts.len() == 0 {
            x
        } else {
            join_space(parts) + seq![' '] + x
        },
    decreases parts.len(),
{
    if parts.len() == 0 {
        assert(parts.push(x)[0] == x);
    } else if parts.len() == 1 {
        assert(parts.push(x)[0] == parts[0]);
        assert(parts.push(x).skip(1) =~= seq![x]);
        assert(join_space(seq![x]) == x);
    } else {
        assert(parts.push(x)[0] == parts[0]);
        assert(parts.push(x).skip(1) =~= parts.skip(1).push(x));
        lemma_join_space_push(parts.skip(1), x);
    }
}

/// Appends one rendered component, preceded by a space when the output
/// already holds one.
fn push_piece(out: &mut String, any: bool, q: i64, name: &str)
    ensures
        final(out)@ == if any {
            old(out)@ + seq![' '] + dec_str(q as int) + name@
        } else {
            old(out)@ + dec_str(q as int) + name@
        },
{
    if any {
        push_char(out, ' ');
    }
    push_dec_i64(out, q);
    out.append(name);
    proof {
        if any {
            assert(final(out)@ =~= old(out)@ + seq![' '] + dec_str(q as int) + name@);
        } else {
            assert(final(out)@ =~= old(out)@ + dec_str(q as int) + name@);
        }
    }
}

impl Duration {
    /// Renders this span as its non-zero day, hour, minute, second and
    /// nanosecond components joined with spaces.
    #[verifier::rlimit(60)]
    pub fn display_string(&self) -> (r: String)
        ensures
            r@ == duration_display(self@),
    {
        proof {
            reveal_strlit("d");
            reveal_strlit("h");
            reveal_strlit("m");
            reveal_strlit("s");
            reveal_strlit("ns");
            assert("d"@ =~= seq!['d']);
            assert("h"@ =~= seq!['h']);
            assert("m"@ =~= seq!['m']);
            assert("s"@ =~= seq!['s']);
            assert("ns"@ =~= seq!['n', 's']);
        }
        let d = self.duration;
        let qd = trunc_div_i64(d, NANOS_IN_DAY);
        let r1 = trunc_rem_i64(d, NANOS_IN_DAY);
        let qh = trunc_div_i64(r1, NANOS_IN_HOUR);
        let r2 = trunc_rem_i64(r1, NANOS_IN_HOUR);
        let qm = trunc_div_i64(r2, NANOS_IN_MINUTE);
        let r3 = trunc_rem_i64(r2, NANOS_IN_MINUTE);
        let qs = trunc_div_i64(r3, NANOS_IN_SECOND);
        let r4 = trunc_rem_i64(r3, NANOS_IN_SECOND);
        let ghost pieces: Seq<Seq<char>> = duration_parts(self@);
        let mut out = String::new();
        let mut any = false;
        let ghost mut done: Seq<Seq<char>> = Seq::empty();
        proof {
            assert(out@ =~= join_space(done));
        }
        if qd != 0 {
            proof {
                lemma_join_space_push(done, dec_str(qd as int) + seq!['d']);
            }
            push_piece(&mut out, any, qd, "d");
            any = true;
            proof {
                done = done.push(dec_str(qd as int) + seq!['d']);
                assert(out@ =~= join_space(done));
            }
        }
        proof {
            assert(done =~= unit_piece(qd as int, seq!['d']));
        }
        if qh != 0 {
            proof {
                lemma_join_space_push(done, dec_str(qh as int) + seq!['h']);
            }
            push_piece(&mut out, any, qh, "h");
            any = true;
            proof {
                done = done.push(dec_str(qh as int) + seq!['h']);
                assert(out@ =~= join_space(done));
            }
        }
        proof {
            assert(done =~= unit_piece(qd as int, seq!['d']) + unit_piece(qh as int, seq!['h']));
        }
        if qm != 0 {
            proof {
                lemma_join_space_push(done, dec_str(qm as int) + seq!['m']);
            }
            push_piece(&mut out, any, qm, "m");
            any = true;
            proof {
                done = done.push(dec_str(qm as int) + seq!['m']);
                assert(out@ =~= join_space(done));
            }
        }
        proof {
            assert(done =~= unit_piece(qd as int, seq!['d']) + unit_piece(qh as int, seq!['h'])
                + unit_piece(qm as int, seq!['m']));
        }
        if qs != 0 {
            proof {
                lemma_join_space_push(done, dec_str(qs as int) + seq!['s']);
            }
            push_piece(&mut out, any, qs, "s");
            any = true;
            proof {
                done = done.push(dec_str(qs as int) + seq!['s']);
                assert(out@ =~= join_space(done));
            }
        }
        proof {
            assert(done =~= unit_piece(qd as int, seq!['d']) + unit_piece(qh as int, seq!['h'])
                + unit_piece(qm as int, seq!['m']) + unit_piece(qs as int, seq!['s']));
        }
        if r4 != 0 {
            proof {
                lemma_join_space_push(done, dec_str(r4 as int) + seq!['n', 's']);
            }
            push_piece(&mut out, any, r4, "ns");
            any = true;
            proof {
                done = done.push(dec_str(r4 as int) + seq!['n', 's']);
                assert(out@ =~= join_space(done));
            }
        }
        proof {
            assert(done =~= pieces);
            assert(out@ == join_space(done));
        }
        out
    }
}

} // verus!
