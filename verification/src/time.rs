//! Calendar arithmetic on UTC instants given as whole seconds since the Unix epoch.
//!
//! An instant is an `i64` count of seconds; the instants that a `chrono::DateTime<Utc>`
//! can hold are those between [`MIN_TIMESTAMP`] and [`MAX_TIMESTAMP`].
use vstd::prelude::*;

verus! {

/// Earliest instant representable as a UTC date-time (start of year -262143).
pub const MIN_TIMESTAMP: i64 = -8334601315200;

/// Latest whole second representable as a UTC date-time (end of year 262142).
pub const MAX_TIMESTAMP: i64 = 8210266876799;

pub const SECS_PER_HOUR: i64 = 3600;

pub const SECS_PER_DAY: i64 = 86400;

/// The instant can be held by a UTC date-time.
pub open spec fn representable(t: int) -> bool {
    MIN_TIMESTAMP <= t <= MAX_TIMESTAMP
}

/// Hour of the day (0..=23) of the instant, in UTC.
pub open spec fn hour_of(t: int) -> int {
    (t % 86400) / 3600
}

/// Day of the week of the instant, counted from Monday = 0 to Sunday = 6.
/// The epoch, 1970-01-01, was a Thursday.
pub open spec fn weekday_of(t: int) -> int {
    (t / 86400 + 3) % 7
}

/// Saturday or Sunday.
pub open spec fn is_weekend_at(t: int) -> bool {
    weekday_of(t) >= 5
}

/// From 18:00 to 07:59 UTC.
pub open spec fn is_night_at(t: int) -> bool {
    hour_of(t) >= 18 || hour_of(t) < 8
}

/// The hour number of the instant when seconds are divided by 3600 with the
/// quotient rounded toward zero (Rust's `/` on `i64`).
pub open spec fn hour_key(t: int) -> int {
    if t >= 0 {
        t / 3600
    } else {
        -((-t) / 3600)
    }
}

/// The instant rounded down to the start of its hour.
pub open spec fn hour_floor(t: int) -> int {
    t - t % 3600
}

/// The number of the day that holds the instant (day 0 = 1970-01-01).
pub open spec fn day_number(t: int) -> int {
    t / 86400
}

pub fn hour_of_day(t: i64) -> (h: u32)
    ensures
        h == hour_of(t as int),
        h < 24,
{
    let r = t.checked_rem_euclid(SECS_PER_DAY).unwrap();
    assert(0 <= r < 86400);
    (r / SECS_PER_HOUR) as u32
}

/// Day of the week, Monday = 0.
pub fn weekday(t: i64) -> (d: u32)
    ensures
        d == weekday_of(t as int),
        d < 7,
{
    let days = t.checked_div_euclid(SECS_PER_DAY).unwrap();
    assert(days < 0x7fff_ffff_ffff_fff0) by (nonlinear_arith)
        requires
            days == t as int / 86400,
    ;
    let w = (days + 3).checked_rem_euclid(7).unwrap();
    w as u32
}

pub fn is_weekend(t: i64) -> (b: bool)
    ensures
        b == is_weekend_at(t as int),
{
    weekday(t) >= 5
}

pub fn is_night(t: i64) -> (b: bool)
    ensures
        b == is_night_at(t as int),
{
    let h = hour_of_day(t);
    h >= 18 || h < 8
}

/// `t / 3600` with Rust's rounding toward zero.
pub fn hour_number(t: i64) -> (k: i64)
    ensures
        k == hour_key(t as int),
{
    t.checked_div(SECS_PER_HOUR).unwrap()
}

/// The start of the hour that holds `t`.
pub fn start_of_hour(t: i64) -> (s: i64)
    requires
        representable(t as int),
    ensures
        s == hour_floor(t as int),
        s <= t,
        t - s < 3600,
{
    let r = t.checked_rem_euclid(SECS_PER_HOUR).unwrap();
    t - r
}

/// Day number of the instant (1970-01-01 is day 0).
pub fn day_of(t: i64) -> (d: i64)
    ensures
        d == day_number(t as int),
{
    t.checked_div_euclid(SECS_PER_DAY).unwrap()
}

/// The UTC calendar as the analysis reads it: the epoch fell on a Thursday at
/// midnight; a day has 24 hours and each hour moves the clock on by one; each day
/// moves the weekday on by one, Monday following Sunday; the weekend is Saturday
/// and Sunday and nothing else, and the night is every hour outside 08:00-17:59.
pub proof fn lemma_calendar(t: int)
    ensures
        weekday_of(0) == 3,
        hour_of(0) == 0,
        0 <= hour_of(t) < 24,
        0 <= weekday_of(t) < 7,
        hour_of(t + 3600) == (hour_of(t) + 1) % 24,
        hour_of(t + 86400) == hour_of(t),
        weekday_of(t + 86400) == (weekday_of(t) + 1) % 7,
        hour_of(t) < 23 ==> weekday_of(t + 3600) == weekday_of(t),
        hour_of(t) == 23 ==> weekday_of(t + 3600) == (weekday_of(t) + 1) % 7,
        is_weekend_at(t) <==> (weekday_of(t) == 5 || weekday_of(t) == 6),
        is_night_at(t) <==> !(8 <= hour_of(t) < 18),
{
    let d = t / 86400;
    let r = t % 86400;
    assert(t == 86400 * d + r && 0 <= r < 86400);
    assert((t + 86400) / 86400 == d + 1 && (t + 86400) % 86400 == r) by {
        assert(t + 86400 == 86400 * (d + 1) + r);
    }
    if r + 3600 < 86400 {
        assert((t + 3600) / 86400 == d && (t + 3600) % 86400 == r + 3600) by {
            assert(t + 3600 == 86400 * d + (r + 3600));
        }
    } else {
        assert((t + 3600) / 86400 == d + 1 && (t + 3600) % 86400 == r + 3600 - 86400) by {
            assert(t + 3600 == 86400 * (d + 1) + (r + 3600 - 86400));
        }
    }
}

/// The text that chrono's `DateTime<Utc>::format` writes for the instant `secs`
/// (whole seconds since the epoch) with the format string `fmt`.
pub uninterp spec fn utc_text(secs: int, fmt: Seq<char>) -> Seq<char>;

/// The chrono format strings the reports use: a date, a date and minute, and the
/// short day label of the heatmap.
pub open spec fn report_format(fmt: Seq<char>) -> bool {
    ||| fmt == "%Y-%m-%d"@
    ||| fmt == "%Y-%m-%d %H:%M UTC"@
    ||| fmt == "%a %m/%d"@
}

/// Writes the UTC instant `secs` with a chrono format string:
/// `chrono::DateTime::from_timestamp(secs, 0)` and then `format(fmt).to_string()`.
/// Trusted, and only named: the text is `utc_text` of the instant and the format,
/// what chrono writes being a function of those two alone. The instant must be one
/// a UTC date-time holds (else `from_timestamp` gives `None`) and the format one of
/// the report formats, whose specifiers chrono knows (an unknown one makes
/// `to_string` panic).
#[verifier::external_body]
pub(crate) fn format_utc(secs: i64, fmt: &str) -> (r: String)
    requires
        representable(secs as int),
        report_format(fmt@),
    ensures
        r@ == utc_text(secs as int, fmt@),
{
    match chrono::DateTime::from_timestamp(secs, 0) {
        Some(d) => d.format(fmt).to_string(),
        None => String::new(),
    }
}

} // verus!
