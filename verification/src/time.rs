//! Instants, calendar texts, time zones and cron expressions.
//!
//! An instant is a plain pair of seconds and nanoseconds. What only `chrono`,
//! `chrono-tz` and `cron` can compute is behind the trusted items of this file.

use chrono::Timelike;
use std::str::FromStr;
use vstd::prelude::*;

verus! {

/// A point in time: whole seconds since the Unix epoch and nanoseconds on top.
#[derive(Clone, Copy, PartialEq, Eq, Structural, Debug)]
pub struct UtcInstant {
    pub secs: i64,
    pub nanos: u32,
}

/// A reading of the clock: the instant and its RFC 3339 text.
#[derive(Debug)]
pub struct Stamp {
    pub at: UtcInstant,
    pub text: String,
}

/// The last second of the range in which cron expressions are evaluated. It
/// lies beyond every year a cron expression can name.
pub const CRON_HORIZON: i64 = 8_200_000_000_000;

/// The earliest second of the calendar.
pub const CALENDAR_START: i64 = -8_334_601_228_800;

/// The last second of the calendar.
pub const CALENDAR_END: i64 = 8_210_266_876_799;

impl UtcInstant {
    /// Nanoseconds since the Unix epoch.
    pub open spec fn total(self) -> int {
        self.secs * 1_000_000_000 + self.nanos
    }

    /// Whole milliseconds since the Unix epoch.
    pub open spec fn millis(self) -> int {
        self.secs * 1000 + self.nanos / 1_000_000
    }

    /// Whether `self` is at or before `other`.
    pub open spec fn at_or_before(self, other: UtcInstant) -> bool {
        self.secs < other.secs || (self.secs == other.secs && self.nanos <= other.nanos)
    }

    /// Whether `self` is at or before `other`.
    pub fn not_after(&self, other: &UtcInstant) -> (r: bool)
        ensures
            r == self.at_or_before(*other),
    {
        self.secs < other.secs || (self.secs == other.secs && self.nanos <= other.nanos)
    }
}

// ── RFC 3339 ───────────────────────────────────────────────────────────────

/// What `chrono::DateTime::parse_from_rfc3339` makes of a text: the seconds and
/// nanoseconds of the instant, or the text of its error.
pub uninterp spec fn rfc3339_parsed(s: Seq<char>) -> Result<(i64, u32), Seq<char>>;

/// Calls `chrono::DateTime::parse_from_rfc3339`. RFC 3339 years have four
/// digits, which bounds the seconds; in a leap second the nanoseconds go past
/// one billion.
#[verifier::external_body]
pub(crate) fn parse_rfc3339(s: &str) -> (r: Result<(i64, u32), String>)
    ensures
        match r {
            Ok(t) => rfc3339_parsed(s@) == Ok::<(i64, u32), Seq<char>>(t)
                && -62_167_305_600 <= t.0 <= 253_402_387_199 && t.1 < 2_000_000_000,
            Err(e) => rfc3339_parsed(s@) == Err::<(i64, u32), Seq<char>>(e@),
        },
{
    chrono::DateTime::parse_from_rfc3339(s)
        .map(|d| (d.timestamp(), d.timestamp_subsec_nanos()))
        .map_err(|e| e.to_string())
}

/// The RFC 3339 text, in UTC, that `chrono` writes for an instant of its calendar.
pub uninterp spec fn rfc3339_text(secs: i64, nanos: u32) -> Option<Seq<char>>;

/// Whether an instant lies between the epoch and the year 10000, in no leap second.
pub open spec fn in_four_digit_years(secs: i64, nanos: u32) -> bool {
    0 <= secs <= 253_402_300_799 && nanos < 1_000_000_000
}

/// Whether a text parses as an RFC 3339 text of the instant.
pub open spec fn parses_to(s: Seq<char>, secs: i64, nanos: u32) -> bool {
    rfc3339_parsed(s) == Ok::<(i64, u32), Seq<char>>((secs, nanos))
}

/// Calls `chrono::DateTime::from_timestamp` and `to_rfc3339`. There is no text
/// for an instant outside the calendar. Within the four-digit years the text
/// parses back to the instant it was written for.
#[verifier::external_body]
pub(crate) fn format_rfc3339(secs: i64, nanos: u32) -> (r: Option<String>)
    ensures
        match r {
            Some(t) => rfc3339_text(secs, nanos) == Some(t@),
            None => rfc3339_text(secs, nanos) is None,
        },
        r is Some && in_four_digit_years(secs, nanos) ==> parses_to(r.unwrap()@, secs, nanos),
{
    chrono::DateTime::from_timestamp(secs, nanos).map(|d| d.to_rfc3339())
}

/// The instant that a text spells, if it is an RFC 3339 text.
pub open spec fn instant_of(s: Seq<char>) -> Option<UtcInstant> {
    match rfc3339_parsed(s) {
        Ok(t) => Some(UtcInstant { secs: t.0, nanos: t.1 }),
        Err(_) => None,
    }
}

/// The RFC 3339 text of an instant.
pub open spec fn text_of(t: UtcInstant) -> Option<Seq<char>> {
    rfc3339_text(t.secs, t.nanos)
}

/// Parses an RFC 3339 text.
pub fn parse_instant(s: &str) -> (r: Option<UtcInstant>)
    ensures
        r == instant_of(s@),
        r matches Some(t) ==> -62_167_305_600 <= t.secs <= 253_402_387_199 && t.nanos
            < 2_000_000_000,
{
    match parse_rfc3339(s) {
        Ok(t) => Some(UtcInstant { secs: t.0, nanos: t.1 }),
        Err(_) => None,
    }
}

/// Writes an instant as an RFC 3339 text.
pub fn format_instant(t: &UtcInstant) -> (r: Option<String>)
    ensures
        match r {
            Some(s) => text_of(*t) == Some(s@),
            None => text_of(*t) is None,
        },
{
    format_rfc3339(t.secs, t.nanos)
}

/// `n` brought into the range of an `i64` by adding or taking away multiples of
/// two to the power of 64.
pub open spec fn wrapped_i64(n: int) -> int {
    (n + 0x8000_0000_0000_0000) % 0x1_0000_0000_0000_0000 - 0x8000_0000_0000_0000
}

/// The instant of a number of milliseconds since the Unix epoch.
pub open spec fn instant_of_millis(ms: int) -> UtcInstant {
    UtcInstant { secs: (ms / 1000) as i64, nanos: ((ms % 1000) * 1_000_000) as u32 }
}

/// The instant of a number of milliseconds since the Unix epoch.
pub fn from_millis(ms: i64) -> (r: UtcInstant)
    ensures
        r == instant_of_millis(ms as int),
{
    let mut q: i64 = ms / 1000;
    let mut rest: i64 = ms % 1000;
    if rest < 0 {
        q = q - 1;
        rest = rest + 1000;
    }
    UtcInstant { secs: q, nanos: (rest as u32) * 1_000_000 }
}

// ── The clock ──────────────────────────────────────────────────────────────

impl Stamp {
    /// Whether the text of the reading is the text of its instant, and, within
    /// the four-digit years, parses back to it.
    pub open spec fn wf(self) -> bool {
        &&& text_of(self.at) == Some(self.text@)
        &&& in_four_digit_years(self.at.secs, self.at.nanos) ==> parses_to(
            self.text@,
            self.at.secs,
            self.at.nanos,
        )
    }
}

/// Whether the clock can show an instant: it lies in the calendar, has a text, is not
/// before the Unix epoch and in no leap second.
pub open spec fn is_reading(t: UtcInstant) -> bool {
    &&& 0 <= t.secs <= CALENDAR_END
    &&& t.nanos < 1_000_000_000
    &&& text_of(t) is Some
}

/// Calls `chrono::Utc::now`. The reading lies in the calendar, not before the
/// Unix epoch, and outside leap seconds; when it is taken decides the rest.
#[verifier::external_body]
pub(crate) fn read_clock() -> (r: Stamp)
    ensures
        r.wf(),
        is_reading(r.at),
{
    let d = chrono::Utc::now();
    let at = UtcInstant { secs: d.timestamp(), nanos: d.timestamp_subsec_nanos() };
    Stamp { at, text: d.to_rfc3339() }
}

// ── A clock that never goes back ───────────────────────────────────────────

/// `std::time::Instant`, a reading of a clock that never goes back.
#[verifier::external_type_specification]
#[verifier::external_body]
pub struct ExInstant(std::time::Instant);

/// Calls `std::time::Instant::now`.
#[verifier::external_body]
pub(crate) fn start_clock() -> (r: std::time::Instant) {
    std::time::Instant::now()
}

/// Calls `std::time::Instant::elapsed` and takes its nanoseconds.
#[verifier::external_body]
pub(crate) fn elapsed_nanos(origin: &std::time::Instant) -> (r: u64) {
    origin.elapsed().as_nanos() as u64
}

// ── Time zones ─────────────────────────────────────────────────────────────

/// Whether `chrono_tz` knows a time zone by this name.
pub uninterp spec fn tz_known(name: Seq<char>) -> bool;

/// Parses the name with `chrono_tz::Tz::from_str`. `UTC` is a known name.
#[verifier::external_body]
pub(crate) fn tz_exists(name: &str) -> (r: bool)
    ensures
        r == tz_known(name@),
        name@ == "UTC"@ ==> r,
{
    chrono_tz::Tz::from_str(name).is_ok()
}

/// The hour and minute that a clock in the time zone shows at an instant.
pub uninterp spec fn local_hm(tz: Seq<char>, secs: i64, nanos: u32) -> Option<(u32, u32)>;

/// Calls `with_timezone` of `chrono::DateTime` with a `chrono_tz` zone, and its
/// `hour` and `minute`. There is no reading outside the calendar.
#[verifier::external_body]
pub(crate) fn clock_in_zone(tz: &str, secs: i64, nanos: u32) -> (r: Option<(u32, u32)>)
    requires
        tz_known(tz@),
    ensures
        r == local_hm(tz@, secs, nanos),
        r matches Some(hm) ==> hm.0 < 24 && hm.1 < 60,
{
    let zone = chrono_tz::Tz::from_str(tz).ok()?;
    let d = chrono::DateTime::from_timestamp(secs, nanos)?.with_timezone(&zone);
    Some((d.hour(), d.minute()))
}

/// The date, as `YYYY-MM-DD`, of an instant in UTC.
pub uninterp spec fn date_text(secs: i64) -> Option<Seq<char>>;

/// Calls `format` of `chrono::DateTime` with `%Y-%m-%d`. There is no date
/// outside the calendar.
#[verifier::external_body]
pub(crate) fn format_date(secs: i64) -> (r: Option<String>)
    ensures
        match r {
            Some(s) => date_text(secs) == Some(s@),
            None => date_text(secs) is None,
        },
{
    chrono::DateTime::from_timestamp(secs, 0).map(|d| d.format("%Y-%m-%d").to_string())
}

// ── Cron expressions ───────────────────────────────────────────────────────

/// Whether `cron::Schedule` parses an expression, and the text of its error if not.
pub uninterp spec fn cron_parsed(expr: Seq<char>) -> Result<(), Seq<char>>;

/// Parses the expression with `cron::Schedule::from_str`.
#[verifier::external_body]
pub(crate) fn check_cron(expr: &str) -> (r: Result<(), String>)
    ensures
        match r {
            Ok(()) => cron_parsed(expr@) == Ok::<(), Seq<char>>(()),
            Err(e) => cron_parsed(expr@) == Err::<(), Seq<char>>(e@),
        },
{
    cron::Schedule::from_str(expr).map(|_| ()).map_err(|e| e.to_string())
}

/// The first time after an instant at which a cron expression fires, read in a
/// time zone.
pub uninterp spec fn cron_after(
    expr: Seq<char>,
    tz: Seq<char>,
    secs: i64,
    nanos: u32,
) -> Option<(i64, u32)>;

/// Calls `cron::Schedule::after` on an instant in a `chrono_tz` zone and takes
/// the first item. It adds a second to the instant, so the end of the calendar
/// is left out. The result lies in the calendar.
#[verifier::external_body]
pub(crate) fn next_fire(expr: &str, tz: &str, secs: i64, nanos: u32) -> (r: Option<(i64, u32)>)
    requires
        cron_parsed(expr@) is Ok,
        tz_known(tz@),
        secs <= CRON_HORIZON,
    ensures
        r == cron_after(expr@, tz@, secs, nanos),
        r matches Some(t) ==> CALENDAR_START <= t.0 <= CALENDAR_END,
{
    let schedule = cron::Schedule::from_str(expr).ok()?;
    let zone = chrono_tz::Tz::from_str(tz).ok()?;
    let base = chrono::DateTime::from_timestamp(secs, nanos)?.with_timezone(&zone);
    schedule.after(&base).next().map(|d| (d.timestamp(), d.timestamp_subsec_nanos()))
}

/// The first time after `base` at which `expr` fires in the zone `tz`. An
/// expression that does not parse never fires, and none fires past the horizon.
pub open spec fn fires_after(expr: Seq<char>, tz: Seq<char>, base: UtcInstant) -> Option<
    UtcInstant,
> {
    if cron_parsed(expr) is Err || base.secs > CRON_HORIZON {
        None
    } else {
        match cron_after(expr, tz, base.secs, base.nanos) {
            Some(t) => Some(UtcInstant { secs: t.0, nanos: t.1 }),
            None => None,
        }
    }
}

/// The first time after `base` at which `expr` fires in the zone `tz`.
pub(crate) fn fire_after(expr: &str, tz: &str, base: &UtcInstant) -> (r: Option<UtcInstant>)
    requires
        tz_known(tz@),
    ensures
        r == fires_after(expr@, tz@, *base),
        r matches Some(t) ==> CALENDAR_START <= t.secs <= CALENDAR_END,
{
    match check_cron(expr) {
        Ok(()) => {
            if base.secs > CRON_HORIZON {
                return None;
            }
            match next_fire(expr, tz, base.secs, base.nanos) {
                Some(t) => Some(UtcInstant { secs: t.0, nanos: t.1 }),
                None => None,
            }
        },
        Err(_) => None,
    }
}

} // verus!
