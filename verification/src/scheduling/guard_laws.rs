//! What the guard of the webhooks remembers, and for how long.

use vstd::prelude::*;

use crate::scheduling::webhook_guard::{
    counted, recent, slot_asked, slot_returned, within_rate, WebhookGuard,
};

verus! {

/// Requests count for a minute: of times in order exactly those that are longer ago are
/// forgotten, from the front.
pub proof fn law_requests_count_for_a_minute(times: Seq<u64>, now: u64)
    requires
        forall|i: int, j: int| 0 <= i <= j < times.len() ==> times[i] <= times[j],
    ensures
        ({
            let r = recent(times, now);
            &&& r.len() <= times.len()
            &&& r == times.skip(times.len() - r.len())
            &&& forall|i: int|
                0 <= i < times.len() ==> ((#[trigger] times[i] + 60 * 1_000_000_000 >= now) == (i
                    >= times.len() - r.len()))
        }),
    decreases times.len(),
{
    if times.len() > 0 && times[0] + 60 * 1_000_000_000 < now {
        let rest = times.skip(1);
        law_requests_count_for_a_minute(rest, now);
        let r = recent(times, now);
        assert(r == recent(rest, now));
        assert(rest.skip(rest.len() - r.len()) =~= times.skip(times.len() - r.len()));
        assert forall|i: int| 0 <= i < times.len() implies ((#[trigger] times[i] + 60
            * 1_000_000_000 >= now) == (i >= times.len() - r.len())) by {
            if i > 0 {
                assert(rest[i - 1] == times[i]);
            }
        }
    } else {
        assert(times.skip(0) =~= times);
        assert forall|i: int| 0 <= i < times.len() implies (#[trigger] times[i] + 60
            * 1_000_000_000 >= now) by {
            assert(times[0] <= times[i]);
        }
    }
}

/// A request is admitted exactly if fewer than one hundred and twenty from its address to
/// its route count; only an admitted request is counted, and no other address or route is
/// touched.
pub proof fn law_requests_are_counted(
    before: WebhookGuard,
    route: Seq<char>,
    ip: Seq<char>,
    now: u64,
    after: WebhookGuard,
    other: Seq<char>,
    elsewhere: Seq<char>,
)
    requires
        counted(before, route, ip, now, within_rate(before, route, ip, now), after),
    ensures
        recent(before.window(route, ip), now).len() < 120 ==> after.window(route, ip) == recent(
            before.window(route, ip),
            now,
        ) + seq![now],
        recent(before.window(route, ip), now).len() >= 120 ==> after.window(route, ip) == recent(
            before.window(route, ip),
            now,
        ),
        other != route || elsewhere != ip ==> after.window(other, elsewhere) == before.window(
            other,
            elsewhere,
        ),
{
    let r = recent(before.window(route, ip), now);
    assert(r.push(now) =~= r + seq![now]);
}

/// A route has eight slots: one is given exactly while fewer are taken, and each route has
/// its own.
pub proof fn law_routes_have_eight_slots(
    before: WebhookGuard,
    route: Seq<char>,
    given: bool,
    after: WebhookGuard,
    other: Seq<char>,
)
    requires
        slot_asked(before, route, given, after),
        other != route,
    ensures
        given <==> before.running(route) < 8,
        given ==> after.running(route) == before.running(route) + 1,
        !given ==> after.running(route) == before.running(route),
        after.running(other) == before.running(other),
{
}

/// A slot that is returned is free again; where none is taken, none is.
pub proof fn law_slots_are_returned(
    before: WebhookGuard,
    route: Seq<char>,
    after: WebhookGuard,
    other: Seq<char>,
)
    requires
        slot_returned(before, route, after),
        other != route,
    ensures
        before.running(route) > 0 ==> after.running(route) + 1 == before.running(route),
        before.running(route) == 0 ==> after.running(route) == 0,
        after.running(other) == before.running(other),
{
}

} // verus!
