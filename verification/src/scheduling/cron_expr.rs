//! Cron expressions as users write them, with Sunday as day 0, and what is
//! valid in a job.

use crate::number::{decimal, decimal_of, parse_unsigned, parsed_unsigned};
use crate::scheduling::active_hours::{hours_range, parse_hours};
use crate::scheduling::cron_types::{opt_kind, KindView, ScheduleKind};
use crate::scheduling::prompt_scan::verdict_view;
use crate::scheduling::schedule::{
    at_next, at_next_at, cron_next, cron_next_at, every_next, every_next_at,
};
use crate::split::{
    join_slices, join_strings, joined, lemma_texts_push, slices, split_char, split_on, split_words,
    words_of,
};
use crate::text::{
    chars_of, copy_str, find_char, first_at, is_text, opt_str, opt_text, piece, string_of, texts,
};
use crate::time::{
    check_cron, cron_parsed, is_reading, parse_rfc3339, read_clock, rfc3339_parsed, tz_exists,
    tz_known, UtcInstant,
};
use vstd::prelude::*;

verus! {

// ── Weekdays ───────────────────────────────────────────────────────────────

/// The weekday number of the cron crate (1 is Sunday) for a Unix weekday number
/// (0 and 7 are Sunday).
pub open spec fn shifted_weekday(n: nat) -> nat {
    if n == 0 || n == 7 {
        1
    } else if n <= 6 {
        n + 1
    } else {
        n
    }
}

/// Shifts a weekday number from Unix (0 is Sunday) to the cron crate (1 is Sunday).
pub fn shift_weekday_num(n: u32) -> (r: u32)
    ensures
        r == shifted_weekday(n as nat),
{
    if n == 0 || n == 7 {
        1
    } else if n <= 6 {
        n + 1
    } else {
        n
    }
}

/// The number of a text that a `u32` holds.
pub open spec fn weekday_number(s: Seq<char>) -> Option<nat> {
    parsed_unsigned(s, u32::MAX as nat)
}

/// A weekday item with its numbers shifted: a number, a range of numbers, or
/// anything else, which stays.
pub open spec fn shifted_item(item: Seq<char>) -> Seq<char> {
    if item.contains('-') {
        let d = first_at(item, '-');
        match (weekday_number(item.take(d)), weekday_number(item.skip(d + 1))) {
            (Some(a), Some(b)) => decimal(shifted_weekday(a)) + "-"@ + decimal(shifted_weekday(b)),
            _ => item,
        }
    } else {
        match weekday_number(item) {
            Some(n) => decimal(shifted_weekday(n)),
            None => item,
        }
    }
}

/// A weekday item with its numbers shifted and its own step, behind a slash, left
/// as it is.
pub open spec fn shifted_entry(item: Seq<char>) -> Seq<char> {
    if item.contains('/') {
        let d = first_at(item, '/');
        shifted_item(item.take(d)) + item.skip(d)
    } else {
        shifted_item(item)
    }
}

/// The items of a row, shifted.
pub open spec fn shifted_entries(items: Seq<Seq<char>>) -> Seq<Seq<char>> {
    items.map_values(|s: Seq<char>| shifted_entry(s))
}

/// A comma-separated list of weekday items, shifted.
pub open spec fn shifted_segment(segment: Seq<char>) -> Seq<char> {
    joined(shifted_entries(split_on(segment, ',')), ","@)
}

/// A six-field cron expression with its weekday field shifted. Other texts, and
/// expressions for every weekday, stay.
pub open spec fn normalized(schedule: Seq<char>) -> Seq<char> {
    let words = words_of(schedule);
    if words.len() != 6 || words[5] == "*"@ {
        schedule
    } else {
        joined(words.update(5, shifted_segment(words[5])), " "@)
    }
}

fn shift_item_chars(item: &[char]) -> (r: String)
    ensures
        r@ == shifted_item(item@),
{
    let d: usize = find_char(item, '-');
    if d < item.len() {
        let start = piece(item, 0, d);
        assert(start@ =~= item@.take(d as int));
        let end = piece(item, d + 1, item.len());
        assert(end@ =~= item@.skip(d as int + 1));
        match (parse_unsigned(start, u32::MAX as u64), parse_unsigned(end, u32::MAX as u64)) {
            (Some(a), Some(b)) => {
                let mut r = decimal_of(shift_weekday_num(a as u32) as u64);
                r.append("-");
                let tail = decimal_of(shift_weekday_num(b as u32) as u64);
                r.append(tail.as_str());
                r
            },
            _ => string_of(item),
        }
    } else {
        match parse_unsigned(item, u32::MAX as u64) {
            Some(n) => decimal_of(shift_weekday_num(n as u32) as u64),
            None => string_of(item),
        }
    }
}

/// Shifts a weekday item: a number, a range, or a named day.
pub fn shift_weekday_item(item: &str) -> (r: String)
    ensures
        r@ == shifted_item(item@),
{
    let v = chars_of(item);
    shift_item_chars(&v)
}

fn shift_entry_chars(item: &[char]) -> (r: String)
    ensures
        r@ == shifted_entry(item@),
{
    let d: usize = find_char(item, '/');
    if d < item.len() {
        let days = piece(item, 0, d);
        assert(days@ =~= item@.take(d as int));
        let step = piece(item, d, item.len());
        assert(step@ =~= item@.skip(d as int));
        let mut r = shift_item_chars(days);
        let tail = string_of(step);
        r.append(tail.as_str());
        r
    } else {
        shift_item_chars(item)
    }
}

fn shift_segment_chars(segment: &[char]) -> (r: String)
    ensures
        r@ == shifted_segment(segment@),
{
    let items = split_char(segment, ',');
    let ghost is = slices(items@);
    let mut out: Vec<String> = Vec::new();
    let mut i: usize = 0;
    while i < items.len()
        invariant
            i <= items@.len(),
            is == slices(items@),
            texts(out@) == shifted_entries(is.take(i as int)),
        decreases items@.len() - i,
    {
        let s = shift_entry_chars(items[i]);
        proof {
            lemma_texts_push(out@, s);
            assert(is[i as int] == items@[i as int]@);
            assert(shifted_entries(is.take(i as int + 1)) =~= shifted_entries(is.take(i as int)).push(
                shifted_entry(is[i as int]),
            ));
        }
        out.push(s);
        i += 1;
    }
    assert(is.take(is.len() as int) =~= is);
    join_strings(&out, ",")
}

/// Shifts the weekday numbers of a comma-separated list.
pub fn shift_weekday_segment(segment: &str) -> (r: String)
    ensures
        r@ == shifted_segment(segment@),
{
    let v = chars_of(segment);
    shift_segment_chars(&v)
}

/// Turns a Unix cron expression, in which Sunday is 0, into one for the cron
/// crate, in which Sunday is 1. Only the sixth of six fields changes.
pub fn normalize_weekday_unix(schedule: &str) -> (r: String)
    ensures
        r@ == normalized(schedule@),
{
    let all = chars_of(schedule);
    let words = split_words(&all);
    let ghost ws = slices(words@);
    if words.len() != 6 || is_text(words[5], "*") {
        assert(ws.len() == words@.len());
        assert(words@.len() == 6 ==> ws[5] == words@[5]@);
        return copy_str(schedule);
    }
    assert(ws[5] == words@[5]@);
    let field = shift_segment_chars(words[5]);
    let field_chars = chars_of(field.as_str());
    let mut parts: Vec<&[char]> = Vec::new();
    let mut i: usize = 0;
    while i < 5
        invariant
            i <= 5,
            words@.len() == 6,
            parts@ == words@.take(i as int),
        decreases 5 - i,
    {
        parts.push(words[i]);
        assert(words@.take(i as int + 1) =~= words@.take(i as int).push(words@[i as int]));
        i += 1;
    }
    parts.push(field_chars.as_slice());
    assert(slices(parts@) =~= ws.update(5, field@));
    join_slices(&parts, " ")
}

/// A weekday from 0 to 7 becomes one from 1 to 7, and Sunday by either number
/// becomes day 1.
pub proof fn law_weekdays_in_range(n: nat)
    requires
        n <= 7,
    ensures
        1 <= shifted_weekday(n) <= 7,
        shifted_weekday(0) == 1,
        shifted_weekday(7) == 1,
{
}

/// Different Unix weekdays become different weekdays, but that both numbers of
/// Sunday become the same.
pub proof fn law_weekdays_stay_apart(a: nat, b: nat)
    requires
        a <= 6,
        b <= 6,
        shifted_weekday(a) == shifted_weekday(b),
    ensures
        a == b,
{
}

// ── Validation ─────────────────────────────────────────────────────────────

/// The verdict on a schedule.
pub open spec fn schedule_verdict(schedule: Seq<char>) -> Result<(), Seq<char>> {
    match cron_parsed(normalized(schedule)) {
        Ok(()) => Ok(()),
        Err(e) => Err("invalid cron expression '"@ + schedule + "': "@ + e),
    }
}

/// Checks a cron expression.
pub fn validate_schedule(schedule: &str) -> (r: Result<(), String>)
    ensures
        verdict_view(r) == schedule_verdict(schedule@),
{
    let expr = normalize_weekday_unix(schedule);
    match check_cron(expr.as_str()) {
        Ok(()) => Ok(()),
        Err(e) => {
            let mut m = copy_str("invalid cron expression '");
            m.append(schedule);
            m.append("': ");
            m.append(e.as_str());
            Err(m)
        },
    }
}

/// The verdict on the time of a job that runs once.
pub open spec fn at_verdict(at: Seq<char>, now: UtcInstant) -> Result<(), Seq<char>> {
    match rfc3339_parsed(at) {
        Ok(t) => if (UtcInstant { secs: t.0, nanos: t.1 }).at_or_before(now) {
            Err("one-shot timestamp '"@ + at + "' is in the past"@)
        } else {
            Ok(())
        },
        Err(e) => Err("invalid ISO 8601 timestamp '"@ + at + "': "@ + e),
    }
}

/// Checks that a text is a time after `now`.
pub fn validate_at(at: &str, now: &UtcInstant) -> (r: Result<(), String>)
    ensures
        verdict_view(r) == at_verdict(at@, *now),
{
    match parse_rfc3339(at) {
        Ok(t) => {
            let i = UtcInstant { secs: t.0, nanos: t.1 };
            if i.not_after(now) {
                let mut m = copy_str("one-shot timestamp '");
                m.append(at);
                m.append("' is in the past");
                Err(m)
            } else {
                Ok(())
            }
        },
        Err(e) => {
            let mut m = copy_str("invalid ISO 8601 timestamp '");
            m.append(at);
            m.append("': ");
            m.append(e.as_str());
            Err(m)
        },
    }
}

/// Checks that a text is a time that is still to come.
pub fn validate_at_timestamp(at: &str) -> (r: Result<(), String>)
    ensures
        exists|now: UtcInstant|
            #[trigger] is_reading(now) && verdict_view(r) == at_verdict(at@, now),
{
    let stamp = read_clock();
    validate_at(at, &stamp.at)
}

/// The verdict on a time zone.
pub open spec fn tz_verdict(tz: Seq<char>) -> Result<(), Seq<char>> {
    if tz_known(tz) {
        Ok(())
    } else {
        Err("invalid IANA timezone '"@ + tz + "'"@)
    }
}

/// Checks that a text names a time zone.
pub fn validate_tz(tz: &str) -> (r: Result<(), String>)
    ensures
        verdict_view(r) == tz_verdict(tz@),
{
    if tz_exists(tz) {
        Ok(())
    } else {
        let mut m = copy_str("invalid IANA timezone '");
        m.append(tz);
        m.append("'");
        Err(m)
    }
}

/// The verdict on active hours.
pub open spec fn active_hours_verdict(hours: Seq<char>) -> Result<(), Seq<char>> {
    match hours_range(hours) {
        Some(p) => if p.0 >= p.1 {
            Err(
                "active_hours start ("@ + decimal(p.0) + ") must be before end ("@ + decimal(p.1)
                    + ")"@,
            )
        } else {
            Ok(())
        },
        None => Err(
            "invalid active_hours format '"@ + hours + "', expected 'HH:MM-HH:MM'"@,
        ),
    }
}

/// Checks that a text is a range "HH:MM-HH:MM" that begins before it ends.
pub fn validate_active_hours(hours: &str) -> (r: Result<(), String>)
    ensures
        verdict_view(r) == active_hours_verdict(hours@),
{
    match parse_hours(hours) {
        Some(p) => if p.0 >= p.1 {
            let mut m = copy_str("active_hours start (");
            let a = decimal_of(p.0 as u64);
            m.append(a.as_str());
            m.append(") must be before end (");
            let b = decimal_of(p.1 as u64);
            m.append(b.as_str());
            m.append(")");
            Err(m)
        } else {
            Ok(())
        },
        None => {
            let mut m = copy_str("invalid active_hours format '");
            m.append(hours);
            m.append("', expected 'HH:MM-HH:MM'");
            Err(m)
        },
    }
}

// ── Next runs ──────────────────────────────────────────────────────────────

/// The next run of a job by its timer. A job without a schedule has none.
pub open spec fn timer_next(
    kind: Option<KindView>,
    schedule: Option<Seq<char>>,
    last_run: Option<Seq<char>>,
    tz: Seq<char>,
    now: UtcInstant,
) -> Option<Seq<char>> {
    match schedule {
        None => None,
        Some(s) => match kind {
            Some(KindView::Every(ms)) => every_next(ms, last_run, now),
            Some(KindView::At(at)) => at_next(at, last_run),
            Some(KindView::Cron(expr)) => cron_next(normalized(expr), last_run, tz, now),
            None => cron_next(normalized(s), last_run, tz, now),
        },
    }
}

/// The next run of a job by its timer, seen from `now`.
pub fn timer_next_at(
    kind: Option<&ScheduleKind>,
    schedule: Option<&str>,
    last_run: Option<&str>,
    tz_name: &str,
    now: &UtcInstant,
) -> (r: Option<String>)
    ensures
        opt_text(r) == timer_next(
            opt_kind(kind),
            opt_str(schedule),
            opt_str(last_run),
            tz_name@,
            *now,
        ),
{
    let s = match schedule {
        Some(s) => s,
        None => {
            return None;
        },
    };
    match kind {
        Some(k) => match k {
            ScheduleKind::Every { interval_ms } => every_next_at(*interval_ms, last_run, now),
            ScheduleKind::At { at } => at_next_at(at.as_str(), last_run),
            ScheduleKind::Cron { expr } => {
                let e = normalize_weekday_unix(expr.as_str());
                cron_next_at(e.as_str(), last_run, tz_name, now)
            },
        },
        None => {
            let e = normalize_weekday_unix(s);
            cron_next_at(e.as_str(), last_run, tz_name, now)
        },
    }
}

/// The next run of a cron expression, from the current time.
pub fn compute_next_run(schedule: &str, last_run: Option<&str>, tz_name: &str) -> (r: Option<
    String,
>)
    ensures
        exists|now: UtcInstant|
            #[trigger] is_reading(now) && opt_text(r) == timer_next(
                None,
                Some(schedule@),
                opt_str(last_run),
                tz_name@,
                now,
            ),
{
    compute_next_run_full(None, Some(schedule), last_run, tz_name)
}

/// The next run of a job by its timer, from the current time.
pub fn compute_next_run_full(
    kind: Option<&ScheduleKind>,
    schedule: Option<&str>,
    last_run: Option<&str>,
    tz_name: &str,
) -> (r: Option<String>)
    ensures
        exists|now: UtcInstant|
            #[trigger] is_reading(now) && opt_text(r) == timer_next(
                opt_kind(kind),
                opt_str(schedule),
                opt_str(last_run),
                tz_name@,
                now,
            ),
        schedule is None ==> r is None,
{
    let stamp = read_clock();
    timer_next_at(kind, schedule, last_run, tz_name, &stamp.at)
}

/// A job without a schedule is never due by its timer, whatever its kind.
pub proof fn law_no_schedule_no_timer(
    kind: Option<KindView>,
    last_run: Option<Seq<char>>,
    tz: Seq<char>,
    now: UtcInstant,
)
    ensures
        timer_next(kind, None, last_run, tz, now) is None,
{
}

/// A schedule that fails validation never fires.
pub proof fn law_invalid_schedule_never_fires(
    schedule: Seq<char>,
    last_run: Option<Seq<char>>,
    tz: Seq<char>,
    now: UtcInstant,
)
    requires
        schedule_verdict(schedule) is Err,
    ensures
        timer_next(None, Some(schedule), last_run, tz, now) is None,
{
}

} // verus!
