//! When a job runs next.

use crate::scheduling::cron_types::{opt_kind, KindView, ScheduleKind};
use crate::text::{copy_str, opt_str, opt_text};
use crate::time::{
    fire_after, fires_after, format_instant, from_millis, instant_of, instant_of_millis,
    is_reading, parse_instant, read_clock, text_of, tz_exists, tz_known, wrapped_i64, UtcInstant,
};
use vstd::prelude::*;

verus! {

/// The time zone that a name stands for: itself where it is known, else UTC.
pub open spec fn resolved_tz(name: Seq<char>) -> Seq<char> {
    if tz_known(name) {
        name
    } else {
        "UTC"@
    }
}

/// The name of a known time zone: the given one, or UTC where it is unknown.
pub fn resolve_tz(name: &str) -> (r: String)
    ensures
        r@ == resolved_tz(name@),
        tz_known(r@),
{
    if tz_exists(name) {
        copy_str(name)
    } else {
        let utc: bool = tz_exists("UTC");
        copy_str("UTC")
    }
}

/// The instant a run is counted from: the last run where its text is a time,
/// else the current time.
pub open spec fn base_of(last_run: Option<Seq<char>>, now: UtcInstant) -> UtcInstant {
    match last_run {
        Some(t) => match instant_of(t) {
            Some(i) => i,
            None => now,
        },
        None => now,
    }
}

/// The next run of a cron expression.
pub open spec fn cron_next(
    expr: Seq<char>,
    last_run: Option<Seq<char>>,
    tz: Seq<char>,
    now: UtcInstant,
) -> Option<Seq<char>> {
    match fires_after(expr, resolved_tz(tz), base_of(last_run, now)) {
        Some(t) => text_of(t),
        None => None,
    }
}

/// The next run of a fixed interval. The sum of milliseconds wraps like that of
/// a 64-bit number.
pub open spec fn every_next(
    interval_ms: u64,
    last_run: Option<Seq<char>>,
    now: UtcInstant,
) -> Option<Seq<char>> {
    text_of(
        instant_of_millis(wrapped_i64(base_of(last_run, now).millis() + interval_ms as int)),
    )
}

/// The next run of a job that runs once: its time, until it has run.
pub open spec fn at_next(at: Seq<char>, last_run: Option<Seq<char>>) -> Option<Seq<char>> {
    if last_run is Some {
        None
    } else {
        match instant_of(at) {
            Some(t) => text_of(t),
            None => None,
        }
    }
}

/// The next run of a job. Without a kind its schedule text is a cron expression.
pub open spec fn next_run(
    kind: Option<KindView>,
    schedule: Seq<char>,
    last_run: Option<Seq<char>>,
    tz: Seq<char>,
    now: UtcInstant,
) -> Option<Seq<char>> {
    match kind {
        Some(KindView::Every(ms)) => every_next(ms, last_run, now),
        Some(KindView::At(at)) => at_next(at, last_run),
        Some(KindView::Cron(expr)) => cron_next(expr, last_run, tz, now),
        None => cron_next(schedule, last_run, tz, now),
    }
}

fn base_instant(last_run: Option<&str>, now: &UtcInstant) -> (r: UtcInstant)
    ensures
        r == base_of(opt_str(last_run), *now),
{
    match last_run {
        Some(t) => match parse_instant(t) {
            Some(i) => i,
            None => *now,
        },
        None => *now,
    }
}

/// The next run of a cron expression, seen from `now`.
pub fn cron_next_at(expr: &str, last_run: Option<&str>, tz: &str, now: &UtcInstant) -> (r: Option<
    String,
>)
    ensures
        opt_text(r) == cron_next(expr@, opt_str(last_run), tz@, *now),
{
    let zone = resolve_tz(tz);
    let base = base_instant(last_run, now);
    match fire_after(expr, zone.as_str(), &base) {
        Some(t) => format_instant(&t),
        None => None,
    }
}

/// The next run of a fixed interval, seen from `now`.
pub fn every_next_at(interval_ms: u64, last_run: Option<&str>, now: &UtcInstant) -> (r: Option<
    String,
>)
    ensures
        opt_text(r) == every_next(interval_ms, opt_str(last_run), *now),
{
    let base = base_instant(last_run, now);
    let ms: i128 = (base.secs as i128) * 1000 + (base.nanos / 1_000_000) as i128;
    let half: i128 = 0x8000_0000_0000_0000;
    let full: i128 = 0x1_0000_0000_0000_0000;
    let mut m: i128 = (ms + interval_ms as i128 + half) % full;
    if m < 0 {
        m = m + full;
    }
    let wrapped: i64 = (m - half) as i64;
    assert(wrapped == wrapped_i64(base.millis() + interval_ms as int));
    format_instant(&from_millis(wrapped))
}

/// The next run of a job that runs once.
pub fn at_next_at(at: &str, last_run: Option<&str>) -> (r: Option<String>)
    ensures
        opt_text(r) == at_next(at@, opt_str(last_run)),
{
    if last_run.is_some() {
        return None;
    }
    match parse_instant(at) {
        Some(t) => format_instant(&t),
        None => None,
    }
}

/// The next run of a job, seen from `now`.
pub fn next_run_at(
    kind: Option<&ScheduleKind>,
    schedule: &str,
    last_run: Option<&str>,
    tz_name: &str,
    now: &UtcInstant,
) -> (r: Option<String>)
    ensures
        opt_text(r) == next_run(opt_kind(kind), schedule@, opt_str(last_run), tz_name@, *now),
{
    match kind {
        Some(k) => match k {
            ScheduleKind::Every { interval_ms } => every_next_at(*interval_ms, last_run, now),
            ScheduleKind::At { at } => at_next_at(at.as_str(), last_run),
            ScheduleKind::Cron { expr } => cron_next_at(expr.as_str(), last_run, tz_name, now),
        },
        None => cron_next_at(schedule, last_run, tz_name, now),
    }
}

/// The next run of a cron expression, from the current time.
pub fn compute_next_run(schedule: &str, last_run: Option<&str>, tz_name: &str) -> (r: Option<
    String,
>)
    ensures
        exists|now: UtcInstant|
            #[trigger] is_reading(now) && opt_text(r) == cron_next(
                schedule@,
                opt_str(last_run),
                tz_name@,
                now,
            ),
{
    compute_next_run_full(None, schedule, last_run, tz_name)
}

/// The next run of a job, from the current time.
pub fn compute_next_run_full(
    kind: Option<&ScheduleKind>,
    schedule: &str,
    last_run: Option<&str>,
    tz_name: &str,
) -> (r: Option<String>)
    ensures
        exists|now: UtcInstant|
            #[trigger] is_reading(now) && opt_text(r) == next_run(
                opt_kind(kind),
                schedule@,
                opt_str(last_run),
                tz_name@,
                now,
            ),
{
    let stamp = read_clock();
    next_run_at(kind, schedule, last_run, tz_name, &stamp.at)
}

/// A job that runs once has no next run after it has run.
pub proof fn law_one_shot_runs_once(
    at: Seq<char>,
    schedule: Seq<char>,
    last_run: Seq<char>,
    tz: Seq<char>,
    now: UtcInstant,
)
    ensures
        next_run(Some(KindView::At(at)), schedule, Some(last_run), tz, now) is None,
{
}

/// Where the last run is a time, the next run does not depend on the clock.
pub proof fn law_next_run_fixed_by_last_run(
    kind: Option<KindView>,
    schedule: Seq<char>,
    last_run: Seq<char>,
    tz: Seq<char>,
    now1: UtcInstant,
    now2: UtcInstant,
)
    requires
        instant_of(last_run) is Some,
    ensures
        next_run(kind, schedule, Some(last_run), tz, now1) == next_run(
            kind,
            schedule,
            Some(last_run),
            tz,
            now2,
        ),
{
}

} // verus!
