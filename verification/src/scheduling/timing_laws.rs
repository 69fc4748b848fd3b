//! What the texts of schedules mean: intervals, hours, weekdays, and what is refused.

use vstd::prelude::*;

use crate::number::{decimal, digits_value, lemma_decimal_digits, parsed_i64, parsed_unsigned};
use crate::scheduling::active_hours::{
    hhmm, hours_range, interval_secs, target_account, target_channel,
};
use crate::scheduling::cron_expr::{
    active_hours_verdict, at_verdict, normalized, schedule_verdict, shifted_entry, shifted_segment,
    tz_verdict,
};
use crate::scheduling::heartbeat_tasks::interval_str_secs;
use crate::scheduling::prompt_scan::scan_verdict;
use crate::scheduling::silence::silent_marker;
use crate::split::{joined, split_on, words_of};
use crate::text::{has_text, is_space, lowered, trimmed};
use crate::text_laws::{law_cutting_once, law_joining, law_splitting, law_trimming};
use crate::time::{cron_parsed, instant_of, rfc3339_parsed, tz_known, UtcInstant};

verus! {

// ── Numbers ────────────────────────────────────────────────────────────────

/// A digit behind a number makes it ten times as much and adds its worth.
pub proof fn law_digits(s: Seq<char>, c: char, n: nat, d: nat)
    requires
        '0' <= c <= '9',
        d < 10,
        n > 0,
    ensures
        digits_value(s.push(c)) == digits_value(s) * 10 + (c as int - '0' as int),
        digits_value(Seq::<char>::empty()) == 0,
        decimal(n * 10 + d) == decimal(n) + decimal(d),
        decimal(d) == seq![('0' as u32 + d) as char],
{
    assert(s.push(c).drop_last() =~= s);
    assert((n * 10 + d) / 10 == n);
    assert((n * 10 + d) % 10 == d);
    assert(decimal(n * 10 + d) =~= decimal(n) + decimal(d));
}

/// Whether a text is made of digits alone.
pub open spec fn is_number_text(s: Seq<char>) -> bool {
    s.len() > 0 && forall|i: int| 0 <= i < s.len() ==> '0' <= #[trigger] s[i] <= '9'
}

/// A text is read as a number exactly if it is digits, perhaps with a plus before them,
/// and worth no more than the limit; signed numbers may have a minus instead.
pub proof fn law_numbers_are_digits(s: Seq<char>, max: nat)
    ensures
        is_number_text(s) && digits_value(s) <= max ==> parsed_unsigned(s, max) == Some(
            digits_value(s),
        ) && parsed_unsigned(seq!['+'] + s, max) == Some(digits_value(s)),
        is_number_text(s) && digits_value(s) > max ==> parsed_unsigned(s, max) is None,
        parsed_unsigned(s, max) is Some ==> is_number_text(s) || (s[0] == '+' && is_number_text(
            s.skip(1),
        )),
        is_number_text(s) && digits_value(s) <= i64::MAX ==> parsed_i64(s) == Some(
            digits_value(s) as int,
        ) && parsed_i64(seq!['-'] + s) == Some(-(digits_value(s) as int)),
{
    assert((seq!['+'] + s).skip(1) =~= s);
    assert((seq!['-'] + s).skip(1) =~= s);
    if is_number_text(s) {
        assert('0' <= s[0] <= '9');
        assert(crate::number::all_digits(s));
    }
    if parsed_unsigned(s, max) is Some {
        let d = crate::number::without_plus(s);
        assert forall|i: int| 0 <= i < d.len() implies '0' <= #[trigger] d[i] <= '9' by {
            assert(crate::number::is_digit(d[i]));
            lemma_codes(d[i]);
        }
    }
}

proof fn lemma_codes(c: char)
    ensures
        ('0' <= c <= '9') == ('0' as u32 <= c as u32 <= '9' as u32),
        ('A' <= c <= 'Z') == ('A' as u32 <= c as u32 <= 'Z' as u32),
{
    assert(c as u32 as int == c as int);
}

proof fn lemma_decimal_chars(n: nat)
    ensures
        decimal(n).len() > 0,
        forall|i: int| 0 <= i < decimal(n).len() ==> '0' <= #[trigger] decimal(n)[i] <= '9',
        forall|c: char| #[trigger] decimal(n).contains(c) ==> '0' <= c <= '9',
        forall|max: nat| n <= max ==> #[trigger] parsed_unsigned(decimal(n), max) == Some(n),
        trimmed(decimal(n)) == decimal(n),
{
    lemma_decimal_digits(n);
    let t = decimal(n);
    assert forall|i: int| 0 <= i < t.len() implies '0' <= #[trigger] t[i] <= '9' by {
        assert(crate::number::is_digit(t[i]));
        lemma_codes(t[i]);
    }
    assert('0' <= t[0] <= '9');
    assert('0' <= t[t.len() - 1] <= '9');
    law_trimming(Seq::empty(), t, Seq::empty());
}

// ── Intervals ──────────────────────────────────────────────────────────────

/// An interval is a number of seconds, minutes or hours; a number alone is minutes.
pub proof fn law_intervals(n: nat)
    requires
        n * 3600 <= u64::MAX,
    ensures
        interval_secs(decimal(n).push('s')) == Some(n),
        interval_secs(decimal(n).push('m')) == Some(n * 60),
        interval_secs(decimal(n).push('h')) == Some(n * 3600),
        n > 0 ==> interval_secs(decimal(n)) == Some(n * 60),
        interval_secs("0"@) is None,
{
    let t = decimal(n);
    lemma_decimal_chars(n);
    lemma_unit(t, 's');
    lemma_unit(t, 'm');
    lemma_unit(t, 'h');
    reveal_strlit("0");
    assert('0' <= t[t.len() - 1] <= '9');
    assert(n * 1 == n);
    if n > 0 && t == "0"@ {
        assert("0"@ =~= decimal(0));
        lemma_decimal_chars(0);
        assert(parsed_unsigned(decimal(0), n) == Some(0nat));
    }
    law_trimming(Seq::empty(), "0"@, Seq::empty());
}

proof fn lemma_unit(t: Seq<char>, c: char)
    requires
        t.len() > 0,
        '0' <= t[0] <= '9',
        !is_space(c),
    ensures
        trimmed(t.push(c)) == t.push(c),
        t.push(c).drop_last() == t,
        t.push(c).last() == c,
        t.push(c).len() == t.len() + 1,
{
    assert(t.push(c)[0] == t[0]);
    law_trimming(Seq::empty(), t.push(c), Seq::empty());
    assert(t.push(c).drop_last() =~= t);
}

/// An interval of a task is a number of seconds, minutes, hours or days, and always says
/// which.
pub proof fn law_task_intervals(n: nat)
    requires
        n * 86400 <= u64::MAX,
    ensures
        interval_str_secs(decimal(n).push('s')) == Some(n),
        interval_str_secs(decimal(n).push('m')) == Some(n * 60),
        interval_str_secs(decimal(n).push('h')) == Some(n * 3600),
        interval_str_secs(decimal(n).push('d')) == Some(n * 86400),
        interval_str_secs(decimal(n)) is None,
{
    let t = decimal(n);
    lemma_decimal_chars(n);
    lemma_unit(t, 's');
    lemma_unit(t, 'm');
    lemma_unit(t, 'h');
    lemma_unit(t, 'd');
    assert('0' <= t[t.len() - 1] <= '9');
    assert(n * 1 == n);
}

// ── Hours ──────────────────────────────────────────────────────────────────

/// A time of day is hours and minutes with a colon between them, up to midnight at the
/// end of the day; spaces around them do not matter.
pub proof fn law_times_of_day(a: Seq<char>, b: Seq<char>, h: nat, m: nat)
    requires
        !a.contains(':'),
        parsed_unsigned(trimmed(a), u32::MAX as nat) == Some(h),
        parsed_unsigned(trimmed(b), u32::MAX as nat) == Some(m),
    ensures
        h <= 23 && m <= 59 ==> hhmm(a + seq![':'] + b) == Some(h * 60 + m),
        h == 24 && m == 0 ==> hhmm(a + seq![':'] + b) == Some(1440nat),
        h > 24 || m > 59 || (h == 24 && m > 0) ==> hhmm(a + seq![':'] + b) is None,
        hhmm(a) is None,
{
    law_cutting_once(a, ':', b);
    assert(a + seq![':'] + b =~= a.push(':') + b);
}

/// Active hours are two times of day with a dash between them, from the first to the
/// second.
pub proof fn law_ranges_of_hours(a: Seq<char>, b: Seq<char>)
    requires
        !a.contains('-'),
    ensures
        hhmm(trimmed(a)) is Some && hhmm(trimmed(b)) is Some ==> hours_range(a + seq!['-'] + b)
            == Some((hhmm(trimmed(a))->0, hhmm(trimmed(b))->0)),
        hhmm(trimmed(a)) is None || hhmm(trimmed(b)) is None ==> hours_range(a + seq!['-'] + b)
            is None,
        hours_range(a) is None,
{
    law_cutting_once(a, '-', b);
    assert(a + seq!['-'] + b =~= a.push('-') + b);
}

/// Active hours are accepted exactly if they are a range whose start lies before its end.
pub proof fn law_accepted_hours(s: Seq<char>)
    ensures
        hours_range(s) matches Some(p) ==> (active_hours_verdict(s) is Ok <==> p.0 < p.1),
        hours_range(s) is None ==> active_hours_verdict(s) == Err::<(), Seq<char>>(
            "invalid active_hours format '"@ + s + "', expected 'HH:MM-HH:MM'"@,
        ),
        hours_range(s) matches Some(p) ==> p.0 >= p.1 ==> active_hours_verdict(s) == Err::<
            (),
            Seq<char>,
        >(
            "active_hours start ("@ + decimal(p.0) + ") must be before end ("@ + decimal(p.1)
                + ")"@,
        ),
{
}

/// A target names a channel, and behind a colon an account on it; the words for the last
/// channel and for none name neither.
pub proof fn law_targets(a: Seq<char>, b: Seq<char>)
    requires
        !a.contains(':'),
    ensures
        target_channel("last"@) is None && target_account("last"@) is None,
        target_channel("none"@) is None && target_account("none"@) is None,
        target_channel(""@) is None && target_account(""@) is None,
        a != "last"@ && a != "none"@ && a.len() > 0 ==> target_channel(a) == Some(a)
            && target_account(a) is None,
        target_channel(a + seq![':'] + b) == Some(a),
        target_account(a + seq![':'] + b) == Some(b),
{
    reveal_strlit("last");
    reveal_strlit("none");
    reveal_strlit("");
    law_cutting_once(a, ':', b);
    let t = a.push(':') + b;
    assert(a + seq![':'] + b =~= t);
    assert(t[a.len() as int] == ':');
    assert(a.len() == 0 ==> a =~= ""@);
}

// ── Weekdays ───────────────────────────────────────────────────────────────

/// A weekday counted from Sunday as 0 (or 7) becomes one counted from Sunday as 1.
pub proof fn law_weekdays_count_from_one(n: nat)
    requires
        n <= 7,
    ensures
        shifted_entry(decimal(n)) == decimal((n % 7) + 1),
{
    lemma_decimal_chars(n);
    assert(!decimal(n).contains('/'));
    assert(!decimal(n).contains('-'));
    assert(parsed_unsigned(decimal(n), u32::MAX as nat) == Some(n));
}

/// Both ends of a range of weekdays are shifted.
pub proof fn law_ranges_of_weekdays(a: nat, b: nat)
    requires
        a <= 7,
        b <= 7,
    ensures
        shifted_entry(decimal(a) + seq!['-'] + decimal(b)) == decimal((a % 7) + 1) + seq!['-']
            + decimal((b % 7) + 1),
{
    lemma_decimal_chars(a);
    lemma_decimal_chars(b);
    let t = decimal(a) + seq!['-'] + decimal(b);
    assert(t =~= decimal(a).push('-') + decimal(b));
    reveal_strlit("-");
    assert(t[decimal(a).len() as int] == '-');
    assert(!t.contains('/')) by {
        if t.contains('/') {
            let k = choose|k: int| 0 <= k < t.len() && t[k] == '/';
            if k < decimal(a).len() {
                assert('0' <= decimal(a)[k] <= '9');
            } else if k > decimal(a).len() {
                assert('0' <= decimal(b)[k - decimal(a).len() - 1] <= '9');
            }
        }
    }
    assert(!decimal(a).contains('-'));
    crate::text::lemma_first_at(t, '-', decimal(a).len() as int);
    assert(t.take(decimal(a).len() as int) =~= decimal(a));
    assert(t.skip(decimal(a).len() as int + 1) =~= decimal(b));
    assert(parsed_unsigned(decimal(a), u32::MAX as nat) == Some(a));
    assert(parsed_unsigned(decimal(b), u32::MAX as nat) == Some(b));
    assert(seq!['-'] =~= "-"@);
}

/// A step behind weekdays stays as it is; so do a star and the names of days.
pub proof fn law_steps_and_names_stay(a: Seq<char>, step: Seq<char>)
    requires
        !a.contains('/'),
    ensures
        shifted_entry(a + seq!['/'] + step) == shifted_entry(a) + seq!['/'] + step,
        !a.contains('-') && parsed_unsigned(a, u32::MAX as nat) is None ==> shifted_entry(a) == a,
        a == "*"@ ==> shifted_entry(a) == a,
{
    let t = a + seq!['/'] + step;
    assert(t[a.len() as int] == '/');
    assert forall|j: int| 0 <= j < a.len() implies t[j] != '/' by {
        assert(t[j] == a[j]);
    }
    crate::text::lemma_first_at(t, '/', a.len() as int);
    assert(t.take(a.len() as int) =~= a);
    assert(t.skip(a.len() as int) =~= seq!['/'] + step);
    assert(shifted_entry(a) + (seq!['/'] + step) =~= shifted_entry(a) + seq!['/'] + step);
    reveal_strlit("*");
    if a == "*"@ {
        assert(!crate::number::is_digit(a[0]));
    }
}

/// The entries of a list of weekdays are shifted one by one, in their order.
pub proof fn law_lists_of_weekdays(a: Seq<char>, b: Seq<char>)
    requires
        !a.contains(','),
    ensures
        shifted_segment(a + seq![','] + b) == shifted_entry(a) + seq![','] + shifted_segment(b),
        shifted_segment(a) == shifted_entry(a),
{
    reveal_strlit(",");
    assert(seq![','] =~= ","@);
    law_splitting(a, ',', b);
    assert(a + seq![','] + b =~= a.push(',') + b);
    let rest = crate::scheduling::cron_expr::shifted_entries(split_on(b, ','));
    let first = seq![shifted_entry(a)];
    crate::text_laws::law_joining_undoes_splitting(b, ',');
    assert(crate::scheduling::cron_expr::shifted_entries(seq![a] + split_on(b, ',')) =~= first
        + rest);
    assert(crate::scheduling::cron_expr::shifted_entries(seq![a]) =~= first);
    law_joining(first, rest, ","@);
}

/// Of an expression of six words only the last is changed, and a star not even then; an
/// expression of any other shape stays as it is.
pub proof fn law_only_weekdays_change(s: Seq<char>)
    ensures
        words_of(s).len() != 6 ==> normalized(s) == s,
        words_of(s).len() == 6 && words_of(s)[5] == "*"@ ==> normalized(s) == s,
        words_of(s).len() == 6 && words_of(s)[5] != "*"@ ==> normalized(s) == joined(
            words_of(s).take(5),
            " "@,
        ) + " "@ + shifted_segment(words_of(s)[5]),
{
    let w = words_of(s);
    if w.len() == 6 && w[5] != "*"@ {
        let last = seq![shifted_segment(w[5])];
        assert(w.update(5, shifted_segment(w[5])) =~= w.take(5) + last);
        law_joining(w.take(5), last, " "@);
    }
}

// ── What is refused ────────────────────────────────────────────────────────

/// Instants are ordered by their seconds, then by what is beyond the second.
pub proof fn law_instants_are_ordered(a: UtcInstant, b: UtcInstant, c: UtcInstant)
    requires
        a.nanos < 1_000_000_000,
        b.nanos < 1_000_000_000,
    ensures
        a.at_or_before(b) <==> a.total() <= b.total(),
        a.at_or_before(b) || b.at_or_before(a),
        a.at_or_before(b) && b.at_or_before(c) ==> a.at_or_before(c),
{
}

/// An expression is accepted exactly if it can be read once its weekdays are shifted, and
/// a refusal quotes it as it was given.
pub proof fn law_accepted_schedules(s: Seq<char>)
    ensures
        schedule_verdict(s) is Ok <==> cron_parsed(normalized(s)) is Ok,
        schedule_verdict(s) is Err ==> schedule_verdict(s)->Err_0 == "invalid cron expression '"@
            + s + "': "@ + cron_parsed(normalized(s))->Err_0,
{
}

/// A time for one run is accepted exactly if it can be read and lies ahead.
pub proof fn law_accepted_times(at: Seq<char>, now: UtcInstant)
    ensures
        at_verdict(at, now) is Ok <==> (instant_of(at) is Some && (instant_of(at)->0.secs > now.secs
            || (instant_of(at)->0.secs == now.secs && instant_of(at)->0.nanos > now.nanos))),
        instant_of(at) is Some && at_verdict(at, now) is Err ==> at_verdict(at, now)->Err_0
            == "one-shot timestamp '"@ + at + "' is in the past"@,
        instant_of(at) is None ==> at_verdict(at, now)->Err_0 == "invalid ISO 8601 timestamp '"@
            + at + "': "@ + rfc3339_parsed(at)->Err_0,
{
}

/// A time zone is accepted exactly if it is known.
pub proof fn law_accepted_zones(tz: Seq<char>)
    ensures
        tz_verdict(tz) is Ok <==> tz_known(tz),
        !tz_known(tz) ==> tz_verdict(tz)->Err_0 == "invalid IANA timezone '"@ + tz + "'"@,
{
}

/// A prompt that tries to take the agent over, or to send data out, is refused for it;
/// every other prompt passes.
pub proof fn law_refused_prompts(lower: Seq<char>)
    ensures
        ({
            let hijack = has_text(lower, "ignore previous"@) || has_text(
                lower,
                "ignore all instructions"@,
            ) || has_text(lower, "you are now"@) || has_text(lower, "system prompt"@) || has_text(
                lower,
                "忽略之前"@,
            ) || has_text(lower, "忽略所有"@) || has_text(lower, "你现在是"@) || has_text(
                lower,
                "你的新角色"@,
            ) || has_text(lower, "disregard your"@) || has_text(
                lower,
                "override your instructions"@,
            ) || has_text(lower, "forget your instructions"@) || has_text(
                lower,
                "new instructions"@,
            );
            let leak = has_text(lower, "send to http"@) || has_text(lower, "post to http"@)
                || has_text(lower, "curl -x post"@) || has_text(lower, "wget --post"@) || has_text(
                lower,
                "发送到http"@,
            ) || has_text(lower, "上传到http"@);
            &&& scan_verdict(lower) is Ok <==> !hijack && !leak
            &&& hijack ==> exists|p: Seq<char>| #[trigger]
                has_text(lower, p) && scan_verdict(lower) == Err::<(), Seq<char>>(
                    "prompt injection detected (role hijack): '"@ + p + "'"@,
                )
            &&& !hijack && leak ==> exists|p: Seq<char>| #[trigger]
                has_text(lower, p) && scan_verdict(lower) == Err::<(), Seq<char>>(
                    "prompt injection detected (exfiltration): '"@ + p + "'"@,
                )
        }),
{
    let r = crate::scheduling::prompt_scan::role_hijack_patterns();
    let e = crate::scheduling::prompt_scan::exfiltration_patterns();
    lemma_first_held(lower, r);
    lemma_first_held(lower, e);
    assert(r[0] == "ignore previous"@ && r[1] == "ignore all instructions"@ && r[2]
        == "you are now"@ && r[3] == "system prompt"@ && r[4] == "忽略之前"@ && r[5]
        == "忽略所有"@);
    assert(r[6] == "你现在是"@ && r[7] == "你的新角色"@ && r[8] == "disregard your"@ && r[9]
        == "override your instructions"@ && r[10] == "forget your instructions"@ && r[11]
        == "new instructions"@);
    assert(e[0] == "send to http"@ && e[1] == "post to http"@ && e[2] == "curl -x post"@ && e[3]
        == "wget --post"@ && e[4] == "发送到http"@ && e[5] == "上传到http"@);
}

proof fn lemma_first_held(text: Seq<char>, patterns: Seq<Seq<char>>)
    ensures
        ({
            let f = crate::scheduling::prompt_scan::first_held(text, patterns);
            &&& f is Some ==> has_text(text, f->0) && patterns.contains(f->0)
            &&& f is None <==> forall|i: int|
                0 <= i < patterns.len() ==> !has_text(text, #[trigger] patterns[i])
        }),
    decreases patterns.len(),
{
    if patterns.len() > 0 && !has_text(text, patterns[0]) {
        let rest = patterns.skip(1);
        lemma_first_held(text, rest);
        let f = crate::scheduling::prompt_scan::first_held(text, rest);
        if f is Some {
            let k = choose|k: int| 0 <= k < rest.len() && rest[k] == f->0;
            assert(patterns[k + 1] == f->0);
        } else {
            assert forall|i: int| 0 <= i < patterns.len() implies !has_text(
                text,
                #[trigger] patterns[i],
            ) by {
                if i > 0 {
                    assert(rest[i - 1] == patterns[i]);
                }
            }
        }
        if f is Some {
            let k = choose|k: int| 0 <= k < rest.len() && rest[k] == f->0;
            assert(patterns[k + 1] == f->0);
        }
    }
}

/// Capitals and small letters of the Latin alphabet are the same once lowered; all other
/// characters stay.
pub proof fn law_small_letters(s: Seq<char>, i: int)
    requires
        0 <= i < s.len(),
    ensures
        lowered(s).len() == s.len(),
        'A' <= s[i] <= 'Z' ==> lowered(s)[i] as u32 == s[i] as u32 + 32,
        !('A' <= s[i] <= 'Z') ==> lowered(s)[i] == s[i],
        lowered(lowered(s)) == lowered(s),
{
    lemma_codes(s[i]);
    assert forall|k: int| 0 <= k < s.len() implies lowered(lowered(s))[k] == lowered(s)[k] by {
        lemma_codes(s[k]);
    }
    assert(lowered(lowered(s)) =~= lowered(s));
}

/// A scheduled turn stays silent by the word for its sort with `_ok` behind it.
pub proof fn law_words_of_silence(kind: Seq<char>)
    ensures
        silent_marker(kind) == kind + seq!['_', 'o', 'k'],
{
    reveal_strlit("_ok");
    assert(silent_marker(kind) =~= kind + seq!['_', 'o', 'k']);
}

} // verus!
