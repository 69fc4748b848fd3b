//! Intervals, delivery targets and active hours.

use crate::duration::{opt_secs, Duration};
use crate::number::{parse_unsigned, parsed_unsigned};
use crate::scheduling::schedule::{resolve_tz, resolved_tz};
use crate::text::{
    chars_of, copy_str, cut_once, is_text, opt_text, piece, same_str, split_once, string_of, trim,
    trimmed,
};
use crate::time::{clock_in_zone, is_reading, local_hm, read_clock, UtcInstant};
use vstd::prelude::*;

verus! {

/// The number of an interval text and the seconds that one unit of it counts.
/// Without a unit the number counts minutes.
pub open spec fn interval_parts(s: Seq<char>) -> (Seq<char>, nat) {
    if s.len() > 0 && s.last() == 's' {
        (s.drop_last(), 1)
    } else if s.len() > 0 && s.last() == 'm' {
        (s.drop_last(), 60)
    } else if s.len() > 0 && s.last() == 'h' {
        (s.drop_last(), 3600)
    } else {
        (s, 60)
    }
}

/// The seconds that an interval text such as "5m", "1h" or "30s" counts. "0"
/// is no interval, and neither is a count that 64 bits do not hold.
pub open spec fn interval_secs(s: Seq<char>) -> Option<nat> {
    let t = trimmed(s);
    let (num, unit) = interval_parts(t);
    match parsed_unsigned(num, u64::MAX as nat) {
        Some(n) if t != "0"@ && n * unit <= u64::MAX => Some(n * unit),
        _ => None,
    }
}

/// Parses an interval text such as "5m", "30m" or "1h".
pub fn parse_interval(s: &str) -> (r: Option<Duration>)
    ensures
        opt_secs(r) == interval_secs(s@),
{
    let all = chars_of(s);
    let t = trim(&all);
    if is_text(t, "0") {
        return None;
    }
    let n: usize = t.len();
    let mut end: usize = n;
    let mut unit: u64 = 60;
    if n > 0 {
        if t[n - 1] == 's' {
            end = n - 1;
            unit = 1;
        } else if t[n - 1] == 'm' {
            end = n - 1;
        } else if t[n - 1] == 'h' {
            end = n - 1;
            unit = 3600;
        }
    }
    let num = piece(t, 0, end);
    assert(num@ =~= interval_parts(t@).0);
    match parse_unsigned(num, u64::MAX) {
        Some(k) => match k.checked_mul(unit) {
            Some(secs) => Some(Duration::from_secs(secs)),
            None => None,
        },
        None => None,
    }
}

/// Whether a target names no channel of its own.
pub open spec fn no_channel(target: Seq<char>) -> bool {
    target == "last"@ || target == "none"@ || target == ""@
}

/// The channel of a target "channel:account" or "channel".
pub open spec fn target_channel(target: Seq<char>) -> Option<Seq<char>> {
    if no_channel(target) {
        None
    } else {
        match split_once(target, ':') {
            Some(p) => Some(p.0),
            None => Some(target),
        }
    }
}

/// The account of a target "channel:account".
pub open spec fn target_account(target: Seq<char>) -> Option<Seq<char>> {
    if no_channel(target) {
        None
    } else {
        match split_once(target, ':') {
            Some(p) => Some(p.1),
            None => None,
        }
    }
}

fn names_no_channel(target: &str) -> (r: bool)
    ensures
        r == no_channel(target@),
{
    same_str(target, "last") || same_str(target, "none") || same_str(target, "")
}

/// The channel part of a target. "last", "none" and the empty target have none.
pub fn parse_target_channel(target: &str) -> (r: Option<String>)
    ensures
        opt_text(r) == target_channel(target@),
{
    if names_no_channel(target) {
        return None;
    }
    let v = chars_of(target);
    match cut_once(&v, ':') {
        Some(p) => Some(string_of(p.0)),
        None => Some(copy_str(target)),
    }
}

/// The account part of a target. "last", "none" and the empty target have none.
pub fn parse_target_account(target: &str) -> (r: Option<String>)
    ensures
        opt_text(r) == target_account(target@),
{
    if names_no_channel(target) {
        return None;
    }
    let v = chars_of(target);
    match cut_once(&v, ':') {
        Some(p) => Some(string_of(p.1)),
        None => None,
    }
}

/// A target with an account has a channel, and the two with a colon between
/// them are the target.
pub proof fn law_target_parts(target: Seq<char>)
    ensures
        target_account(target) is Some ==> target_channel(target) is Some,
        target_account(target) is Some ==> target_channel(target)->Some_0 + seq![':']
            + target_account(target)->Some_0 == target,
{
    crate::text::lemma_first_at_props(target, ':');
    if target_account(target) is Some {
        let i = crate::text::first_at(target, ':');
        assert(target.take(i) + seq![':'] + target.skip(i + 1) =~= target);
    }
}

/// The minutes that a time "HH:MM" counts from midnight, up to "24:00".
pub open spec fn hhmm(s: Seq<char>) -> Option<nat> {
    match split_once(s, ':') {
        Some(p) => match (
            parsed_unsigned(trimmed(p.0), u32::MAX as nat),
            parsed_unsigned(trimmed(p.1), u32::MAX as nat),
        ) {
            (Some(h), Some(m)) => if h > 24 || m >= 60 || (h == 24 && m > 0) {
                None
            } else {
                Some(h * 60 + m)
            },
            _ => None,
        },
        None => None,
    }
}

/// The two ends of a range "HH:MM-HH:MM" in minutes from midnight.
pub open spec fn hours_range(s: Seq<char>) -> Option<(nat, nat)> {
    match split_once(s, '-') {
        Some(p) => match (hhmm(trimmed(p.0)), hhmm(trimmed(p.1))) {
            (Some(a), Some(b)) => Some((a, b)),
            _ => None,
        },
        None => None,
    }
}

fn parse_hhmm_chars(v: &[char]) -> (r: Option<u32>)
    ensures
        match r {
            Some(n) => hhmm(v@) == Some(n as nat),
            None => hhmm(v@) is None,
        },
        r matches Some(n) ==> n <= 1440,
{
    match cut_once(v, ':') {
        Some(p) => {
            let h = match parse_unsigned(trim(p.0), u32::MAX as u64) {
                Some(h) => h,
                None => {
                    return None;
                },
            };
            let m = match parse_unsigned(trim(p.1), u32::MAX as u64) {
                Some(m) => m,
                None => {
                    return None;
                },
            };
            if h > 24 || m >= 60 || (h == 24 && m > 0) {
                return None;
            }
            Some((h * 60 + m) as u32)
        },
        None => None,
    }
}

/// Parses a time "HH:MM" into minutes from midnight. Only times from "00:00" to
/// "24:00" are times.
pub fn parse_hhmm(s: &str) -> (r: Option<u32>)
    ensures
        match r {
            Some(n) => hhmm(s@) == Some(n as nat),
            None => hhmm(s@) is None,
        },
        r matches Some(n) ==> n <= 1440,
{
    let v = chars_of(s);
    parse_hhmm_chars(&v)
}

/// Parses a range "HH:MM-HH:MM" into minutes from midnight.
pub fn parse_hours(s: &str) -> (r: Option<(u32, u32)>)
    ensures
        match r {
            Some(p) => hours_range(s@) == Some((p.0 as nat, p.1 as nat)),
            None => hours_range(s@) is None,
        },
{
    let v = chars_of(s);
    match cut_once(&v, '-') {
        Some(p) => {
            let a = parse_hhmm_chars(trim(p.0));
            let b = parse_hhmm_chars(trim(p.1));
            match (a, b) {
                (Some(x), Some(y)) => Some((x, y)),
                _ => None,
            }
        },
        None => None,
    }
}

/// Whether an instant lies in active hours, read on a clock in the time zone.
/// No restriction, and one that is no range, means always.
pub open spec fn active_at(
    active_hours: Option<Seq<char>>,
    tz: Seq<char>,
    now: UtcInstant,
) -> bool {
    match active_hours {
        None => true,
        Some(h) => match hours_range(h) {
            None => true,
            Some(range) => match local_hm(resolved_tz(tz), now.secs, now.nanos) {
                Some(hm) => range.0 <= hm.0 * 60 + hm.1 < range.1,
                None => false,
            },
        },
    }
}

/// Whether `now` lies in active hours.
pub fn is_active_at(active_hours: &Option<String>, tz_name: &str, now: &UtcInstant) -> (r: bool)
    ensures
        r == active_at(opt_text(*active_hours), tz_name@, *now),
{
    let hours = match active_hours {
        Some(h) => h,
        None => {
            return true;
        },
    };
    let range = match parse_hours(hours.as_str()) {
        Some(p) => p,
        None => {
            return true;
        },
    };
    let zone = resolve_tz(tz_name);
    match clock_in_zone(zone.as_str(), now.secs, now.nanos) {
        Some(hm) => {
            let mins: u32 = hm.0 * 60 + hm.1;
            mins >= range.0 && mins < range.1
        },
        None => false,
    }
}

/// Whether the current time lies in active hours "HH:MM-HH:MM".
pub fn is_active_hours(active_hours: &Option<String>, tz_name: &str) -> (r: bool)
    ensures
        exists|now: UtcInstant|
            #[trigger] is_reading(now) && r == active_at(opt_text(*active_hours), tz_name@, now),
        *active_hours is None ==> r,
        (*active_hours matches Some(h) && hours_range(h@) is None) ==> r,
{
    let stamp = read_clock();
    is_active_at(active_hours, tz_name, &stamp.at)
}

} // verus!
