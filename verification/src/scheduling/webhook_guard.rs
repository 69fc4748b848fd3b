//! What keeps webhook routes from being flooded: a rate limit, a cap on
//! requests in flight, and a memory of delivery ids.

use crate::text::{copy_str, same_str};
use crate::text_map::TextMap;
use crate::time::{elapsed_nanos, start_clock};
use vstd::prelude::*;

verus! {

/// Requests of one address to one route within a window.
pub const WEBHOOK_RATE_MAX: usize = 120;

/// Length of the rate window, in nanoseconds.
pub const WEBHOOK_RATE_WINDOW_NANOS: u64 = 60_000_000_000;

/// Requests of one route that may run at a time.
pub const WEBHOOK_CONCURRENCY_MAX: usize = 8;

/// How long a delivery id is remembered, in nanoseconds.
pub const WEBHOOK_DELIVERY_TTL_NANOS: u64 = 3_600_000_000_000;

/// The requests of an address to a route.
#[derive(Debug)]
pub struct RateEntry {
    pub route: String,
    pub ip: String,
    pub times: Vec<u64>,
}

/// Watches over webhook requests. Times are nanoseconds since the guard began.
#[derive(Debug)]
pub struct WebhookGuard {
    origin: std::time::Instant,
    rate: Vec<RateEntry>,
    inflight: TextMap<usize>,
    deliveries: TextMap<u64>,
}

/// A slot of a route, held while a request runs.
#[derive(Debug)]
pub struct InflightGuard {
    pub route: String,
}

/// The request times that the first entry of a route and address holds.
pub open spec fn window_of(rate: Seq<RateEntry>, route: Seq<char>, ip: Seq<char>) -> Seq<u64>
    decreases rate.len(),
{
    if rate.len() == 0 {
        Seq::empty()
    } else if rate[0].route@ == route && rate[0].ip@ == ip {
        rate[0].times@
    } else {
        window_of(rate.skip(1), route, ip)
    }
}

/// The times of a window that are not older than it, given that older times
/// stand in front.
pub open spec fn recent(times: Seq<u64>, now: u64) -> Seq<u64>
    decreases times.len(),
{
    if times.len() > 0 && times[0] + WEBHOOK_RATE_WINDOW_NANOS < now {
        recent(times.skip(1), now)
    } else {
        times
    }
}

/// Whether a delivery first seen at `t` is still remembered.
pub open spec fn remembered(t: u64, now: u64) -> bool {
    t >= now || now - t < WEBHOOK_DELIVERY_TTL_NANOS
}

/// Whether a delivery id is new at the time `now`: it was not seen, or no
/// longer is remembered.
pub open spec fn is_new_delivery(seen: Map<Seq<char>, u64>, id: Seq<char>, now: u64) -> bool {
    !(seen.dom().contains(id) && remembered(seen[id], now))
}

/// Whether a delivery was noted at a time: it is there with the time at which it
/// was first seen, and of the others those that are not too old.
pub open spec fn notes_delivery(
    before: Map<Seq<char>, u64>,
    after: Map<Seq<char>, u64>,
    id: Seq<char>,
    now: u64,
) -> bool {
    &&& after.dom().contains(id)
    &&& after[id] == (if is_new_delivery(before, id, now) {
        now
    } else {
        before[id]
    })
    &&& forall|k: Seq<char>|
        k != id ==> (#[trigger] after.dom().contains(k)) == (before.dom().contains(k)
            && remembered(before[k], now))
    &&& forall|k: Seq<char>|
        k != id && #[trigger] after.dom().contains(k) ==> after[k] == before[k]
}

proof fn lemma_window_update(rate: Seq<RateEntry>, i: int, e: RateEntry)
    requires
        0 <= i < rate.len(),
        e.route@ == rate[i].route@,
        e.ip@ == rate[i].ip@,
        forall|j: int|
            0 <= j < i ==> !((#[trigger] rate[j]).route@ == e.route@ && rate[j].ip@ == e.ip@),
    ensures
        window_of(rate.update(i, e), e.route@, e.ip@) == e.times@,
        forall|r: Seq<char>, p: Seq<char>|
            !(r == e.route@ && p == e.ip@) ==> #[trigger] window_of(rate.update(i, e), r, p)
                == window_of(rate, r, p),
    decreases rate.len(),
{
    let new = rate.update(i, e);
    if i == 0 {
        assert(new.skip(1) =~= rate.skip(1));
    } else {
        assert(new.skip(1) =~= rate.skip(1).update(i - 1, e));
        assert forall|j: int| 0 <= j < i - 1 implies !((#[trigger] rate.skip(1)[j]).route@
            == e.route@ && rate.skip(1)[j].ip@ == e.ip@) by {
            assert(rate.skip(1)[j] == rate[j + 1]);
        }
        lemma_window_update(rate.skip(1), i - 1, e);
        assert(new[0] == rate[0]);
        assert(!(rate[0].route@ == e.route@ && rate[0].ip@ == e.ip@));
        assert forall|r: Seq<char>, p: Seq<char>| !(r == e.route@ && p == e.ip@) implies
            #[trigger] window_of(new, r, p) == window_of(rate, r, p) by {
            assert(window_of(rate.skip(1).update(i - 1, e), r, p) == window_of(
                rate.skip(1),
                r,
                p,
            ));
        }
    }
}

proof fn lemma_window_push(rate: Seq<RateEntry>, e: RateEntry)
    requires
        forall|j: int|
            0 <= j < rate.len() ==> !((#[trigger] rate[j]).route@ == e.route@ && rate[j].ip@
                == e.ip@),
    ensures
        window_of(rate, e.route@, e.ip@) == Seq::<u64>::empty(),
        window_of(rate.push(e), e.route@, e.ip@) == e.times@,
        forall|r: Seq<char>, p: Seq<char>|
            !(r == e.route@ && p == e.ip@) ==> #[trigger] window_of(rate.push(e), r, p)
                == window_of(rate, r, p),
    decreases rate.len(),
{
    if rate.len() > 0 {
        assert(rate.push(e).skip(1) =~= rate.skip(1).push(e));
        assert forall|j: int| 0 <= j < rate.skip(1).len() implies !((
        #[trigger] rate.skip(1)[j]).route@ == e.route@ && rate.skip(1)[j].ip@ == e.ip@) by {
            assert(rate.skip(1)[j] == rate[j + 1]);
        }
        lemma_window_push(rate.skip(1), e);
        assert(rate.push(e)[0] == rate[0]);
        assert(!(rate[0].route@ == e.route@ && rate[0].ip@ == e.ip@));
        assert forall|r: Seq<char>, p: Seq<char>| !(r == e.route@ && p == e.ip@) implies
            #[trigger] window_of(rate.push(e), r, p) == window_of(rate, r, p) by {
            assert(window_of(rate.skip(1).push(e), r, p) == window_of(rate.skip(1), r, p));
        }
    } else {
        assert(rate.push(e).skip(1) =~= rate);
        assert(rate.push(e)[0] == e);
        assert forall|r: Seq<char>, p: Seq<char>| !(r == e.route@ && p == e.ip@) implies
            #[trigger] window_of(rate.push(e), r, p) == window_of(rate, r, p) by {
            assert(window_of(rate.push(e).skip(1), r, p) == window_of(rate, r, p));
        }
    }
}

proof fn lemma_window_is(rate: Seq<RateEntry>, i: int, route: Seq<char>, ip: Seq<char>)
    requires
        0 <= i < rate.len(),
        rate[i].route@ == route,
        rate[i].ip@ == ip,
        forall|j: int| 0 <= j < i ==> !((#[trigger] rate[j]).route@ == route && rate[j].ip@ == ip),
    ensures
        window_of(rate, route, ip) == rate[i].times@,
    decreases rate.len(),
{
    if i > 0 {
        assert(!(rate[0].route@ == route && rate[0].ip@ == ip));
        assert forall|j: int| 0 <= j < i - 1 implies !((#[trigger] rate.skip(1)[j]).route@ == route
            && rate.skip(1)[j].ip@ == ip) by {
            assert(rate.skip(1)[j] == rate[j + 1]);
        }
        lemma_window_is(rate.skip(1), i - 1, route, ip);
    }
}

/// Whether an address has made fewer requests to a route than the rate limit allows.
pub open spec fn within_rate(
    guard: WebhookGuard,
    route: Seq<char>,
    ip: Seq<char>,
    now: u64,
) -> bool {
    recent(guard.window(route, ip), now).len() < WEBHOOK_RATE_MAX
}

/// Whether the request times are those after a request of an address to a route at
/// the time `now`, which is counted if it was admitted.
pub open spec fn counted(
    before: WebhookGuard,
    route: Seq<char>,
    ip: Seq<char>,
    now: u64,
    admitted: bool,
    after: WebhookGuard,
) -> bool {
    &&& after.window(route, ip) == (if admitted {
        recent(before.window(route, ip), now).push(now)
    } else {
        recent(before.window(route, ip), now)
    })
    &&& forall|a: Seq<char>, b: Seq<char>|
        !(a == route && b == ip) ==> #[trigger] after.window(a, b) == before.window(a, b)
}

/// Whether the slots are those after one of a route was asked for, and given or not:
/// it is given while fewer than eight are taken.
pub open spec fn slot_asked(
    before: WebhookGuard,
    route: Seq<char>,
    given: bool,
    after: WebhookGuard,
) -> bool {
    &&& given == (before.running(route) < WEBHOOK_CONCURRENCY_MAX)
    &&& after.running(route) == before.running(route) + (if given {
        1int
    } else {
        0int
    })
    &&& forall|a: Seq<char>| a != route ==> #[trigger] after.running(a) == before.running(a)
}

/// Whether the slots are those after one of a route was given back.
pub open spec fn slot_returned(
    before: WebhookGuard,
    route: Seq<char>,
    after: WebhookGuard,
) -> bool {
    &&& after.running(route) == (if before.running(route) > 0 {
        before.running(route) - 1
    } else {
        0int
    })
    &&& forall|a: Seq<char>| a != route ==> #[trigger] after.running(a) == before.running(a)
}

fn drop_old(times: &Vec<u64>, now: u64) -> (r: Vec<u64>)
    ensures
        r@ == recent(times@, now),
{
    let mut i: usize = 0;
    assert(times@.skip(0) =~= times@);
    while i < times.len() && times[i] < now && now - times[i] > WEBHOOK_RATE_WINDOW_NANOS
        invariant
            i <= times@.len(),
            recent(times@.skip(i as int), now) == recent(times@, now),
        decreases times@.len() - i,
    {
        assert(times@.skip(i as int).skip(1) =~= times@.skip(i as int + 1));
        i += 1;
    }
    let mut r: Vec<u64> = Vec::new();
    let start: usize = i;
    while i < times.len()
        invariant
            start <= i <= times@.len(),
            r@ == times@.subrange(start as int, i as int),
        decreases times@.len() - i,
    {
        r.push(times[i]);
        assert(times@.subrange(start as int, i as int + 1) =~= times@.subrange(
            start as int,
            i as int,
        ).push(times@[i as int]));
        i += 1;
    }
    assert(times@.subrange(start as int, times@.len() as int) =~= times@.skip(start as int));
    r
}

impl WebhookGuard {
    /// Whether the guard's maps hold no key twice, and no route has more
    /// requests in flight than the cap.
    pub closed spec fn wf(self) -> bool {
        &&& self.inflight.wf()
        &&& self.deliveries.wf()
        &&& forall|k: Seq<char>| #[trigger]
            self.inflight@.dom().contains(k) ==> self.inflight@[k] <= WEBHOOK_CONCURRENCY_MAX
    }

    /// The request times of an address to a route.
    pub closed spec fn window(self, route: Seq<char>, ip: Seq<char>) -> Seq<u64> {
        window_of(self.rate@, route, ip)
    }

    /// The number of requests of a route that are in flight.
    pub closed spec fn running(self, route: Seq<char>) -> nat {
        if self.inflight@.dom().contains(route) {
            self.inflight@[route] as nat
        } else {
            0
        }
    }

    /// The delivery ids that were seen, with the times.
    pub closed spec fn seen(self) -> Map<Seq<char>, u64> {
        self.deliveries@
    }

    /// Whether two guards hold the same request times.
    pub open spec fn same_windows(self, other: WebhookGuard) -> bool {
        forall|r: Seq<char>, p: Seq<char>| #[trigger] self.window(r, p) == other.window(r, p)
    }

    /// Whether two guards hold the same slots.
    pub open spec fn same_running(self, other: WebhookGuard) -> bool {
        forall|r: Seq<char>| #[trigger] self.running(r) == other.running(r)
    }

    /// No route has more requests in flight than the cap.
    pub proof fn law_running_capped(self, route: Seq<char>)
        requires
            self.wf(),
        ensures
            self.running(route) <= WEBHOOK_CONCURRENCY_MAX,
    {
    }

    /// A guard that has seen nothing.
    pub fn new() -> (r: WebhookGuard)
        ensures
            r.wf(),
            forall|a: Seq<char>, b: Seq<char>| #[trigger] r.window(a, b).len() == 0,
            forall|a: Seq<char>| #[trigger] r.running(a) == 0,
            r.seen() == Map::<Seq<char>, u64>::empty(),
    {
        WebhookGuard {
            origin: start_clock(),
            rate: Vec::new(),
            inflight: TextMap::new(),
            deliveries: TextMap::new(),
        }
    }

    /// Nanoseconds since the guard began.
    pub fn now(&self) -> (r: u64) {
        elapsed_nanos(&self.origin)
    }

    fn rate_position(&self, route: &str, ip: &str) -> (i: usize)
        ensures
            i <= self.rate@.len(),
            forall|j: int|
                0 <= j < i ==> !((#[trigger] self.rate@[j]).route@ == route@ && self.rate@[j].ip@
                    == ip@),
            i < self.rate@.len() ==> self.rate@[i as int].route@ == route@
                && self.rate@[i as int].ip@ == ip@,
    {
        let mut i: usize = 0;
        while i < self.rate.len()
            invariant
                i <= self.rate@.len(),
                forall|j: int|
                    0 <= j < i ==> !((#[trigger] self.rate@[j]).route@ == route@
                        && self.rate@[j].ip@ == ip@),
            decreases self.rate@.len() - i,
        {
            if same_str(self.rate[i].route.as_str(), route) && same_str(
                self.rate[i].ip.as_str(),
                ip,
            ) {
                return i;
            }
            i += 1;
        }
        i
    }

    /// Admits a request at the time `now` if the address has made fewer than
    /// 120 requests to the route in the last 60 seconds, and counts it.
    pub fn check_rate_at(&mut self, route: &str, ip: &str, now: u64) -> (r: bool)
        requires
            old(self).wf(),
        ensures
            final(self).wf(),
            r == within_rate(*old(self), route@, ip@, now),
            counted(*old(self), route@, ip@, now, r, *final(self)),
            final(self).same_running(*old(self)),
            final(self).seen() == old(self).seen(),
    {
        let i: usize = self.rate_position(route, ip);
        let ghost before = self.rate@;
        if i < self.rate.len() {
            proof {
                lemma_window_is(before, i as int, route@, ip@);
            }
            let mut times = drop_old(&self.rate[i].times, now);
            let admitted: bool = times.len() < WEBHOOK_RATE_MAX;
            if admitted {
                times.push(now);
            }
            let entry = RateEntry { route: copy_str(route), ip: copy_str(ip), times };
            proof {
                lemma_window_update(before, i as int, entry);
            }
            self.rate.set(i, entry);
            admitted
        } else {
            let mut times: Vec<u64> = Vec::new();
            times.push(now);
            let entry = RateEntry { route: copy_str(route), ip: copy_str(ip), times };
            proof {
                lemma_window_push(before, entry);
                assert(entry.times@ =~= Seq::<u64>::empty().push(now));
            }
            self.rate.push(entry);
            true
        }
    }

    /// Admits a request now if the address stays within the rate limit.
    pub fn check_rate(&mut self, route: &str, ip: &str) -> (r: bool)
        requires
            old(self).wf(),
        ensures
            final(self).wf(),
            exists|now: u64|
                r == #[trigger] within_rate(*old(self), route@, ip@, now) && counted(
                    *old(self),
                    route@,
                    ip@,
                    now,
                    r,
                    *final(self),
                ),
            final(self).same_running(*old(self)),
            final(self).seen() == old(self).seen(),
    {
        let now: u64 = self.now();
        self.check_rate_at(route, ip, now)
    }

    /// Takes a slot of the route, unless eight are taken.
    pub fn acquire(&mut self, route: &str) -> (r: Option<InflightGuard>)
        requires
            old(self).wf(),
        ensures
            final(self).wf(),
            r matches Some(slot) ==> slot.route@ == route@,
            slot_asked(*old(self), route@, r.is_some(), *final(self)),
            final(self).same_windows(*old(self)),
            final(self).seen() == old(self).seen(),
    {
        let count: usize = match self.inflight.get(route) {
            Some(c) => *c,
            None => 0,
        };
        if count >= WEBHOOK_CONCURRENCY_MAX {
            return None;
        }
        self.inflight.insert(copy_str(route), count + 1);
        Some(InflightGuard { route: copy_str(route) })
    }

    /// Gives a slot back.
    pub fn release(&mut self, slot: InflightGuard)
        requires
            old(self).wf(),
        ensures
            final(self).wf(),
            slot_returned(*old(self), slot.route@, *final(self)),
            final(self).same_windows(*old(self)),
            final(self).seen() == old(self).seen(),
    {
        let count: usize = match self.inflight.get(slot.route.as_str()) {
            Some(c) => *c,
            None => {
                return;
            },
        };
        if count <= 1 {
            let taken = self.inflight.remove(slot.route.as_str());
        } else {
            self.inflight.insert(slot.route, count - 1);
        }
    }

    /// Takes note of a delivery id at the time `now`. It is new unless it was
    /// first seen less than an hour ago; older ids are forgotten.
    pub fn check_delivery_at(&mut self, delivery_id: &str, now: u64) -> (r: bool)
        requires
            old(self).wf(),
        ensures
            final(self).wf(),
            r == is_new_delivery(old(self).seen(), delivery_id@, now),
            notes_delivery(old(self).seen(), final(self).seen(), delivery_id@, now),
            final(self).same_windows(*old(self)),
            final(self).same_running(*old(self)),
    {
        let ghost before = self.deliveries@;
        let mut kept: TextMap<u64> = TextMap::new();
        let mut i: usize = 0;
        proof {
            self.deliveries.lemma_rows();
        }
        while i < self.deliveries.len()
            invariant
                i <= self.deliveries.rows().len(),
                self.deliveries.wf(),
                before == self.deliveries@,
                kept.wf(),
                forall|j: int|
                    0 <= j < self.deliveries.rows().len() ==> before.dom().contains(
                        (#[trigger] self.deliveries.rows()[j]).0@,
                    ) && before[self.deliveries.rows()[j].0@] == self.deliveries.rows()[j].1,
                forall|k: Seq<char>| #[trigger]
                    kept@.dom().contains(k) ==> before.dom().contains(k) && remembered(
                        before[k],
                        now,
                    ) && kept@[k] == before[k],
                forall|j: int|
                    0 <= j < i && remembered(self.deliveries.rows()[j].1, now)
                        ==> kept@.dom().contains((#[trigger] self.deliveries.rows()[j]).0@),
            decreases self.deliveries.rows().len() - i,
        {
            let t: u64 = *self.deliveries.value_at(i);
            if t >= now || now - t < WEBHOOK_DELIVERY_TTL_NANOS {
                let key = self.deliveries.key_at(i).clone();
                kept.insert(key, t);
            }
            i += 1;
        }
        assert forall|k: Seq<char>| before.dom().contains(k) && remembered(
            before[k],
            now,
        ) implies kept@.dom().contains(k) by {
            let j = choose|j: int|
                0 <= j < self.deliveries.rows().len() && (#[trigger] self.deliveries.rows()[j]).0@
                    == k;
            assert(remembered(self.deliveries.rows()[j].1, now));
        }
        self.deliveries = kept;
        if self.deliveries.contains(delivery_id) {
            return false;
        }
        self.deliveries.insert(copy_str(delivery_id), now);
        true
    }

    /// Takes note of a delivery id now, and says whether it is new.
    pub fn check_delivery(&mut self, delivery_id: &str) -> (r: bool)
        requires
            old(self).wf(),
        ensures
            final(self).wf(),
            exists|now: u64|
                r == #[trigger] is_new_delivery(old(self).seen(), delivery_id@, now)
                    && notes_delivery(old(self).seen(), final(self).seen(), delivery_id@, now),
            final(self).same_windows(*old(self)),
            final(self).same_running(*old(self)),
    {
        let now: u64 = self.now();
        self.check_delivery_at(delivery_id, now)
    }
}

impl Default for WebhookGuard {
    fn default() -> (r: WebhookGuard)
        ensures
            r.wf(),
            forall|a: Seq<char>, b: Seq<char>| #[trigger] r.window(a, b).len() == 0,
            forall|a: Seq<char>| #[trigger] r.running(a) == 0,
            r.seen() == Map::<Seq<char>, u64>::empty(),
    {
        WebhookGuard::new()
    }
}

/// A window that has stayed within the limit stays within it when the next
/// request is dealt with.
pub proof fn law_rate_window_capped(times: Seq<u64>, now: u64)
    requires
        times.len() <= WEBHOOK_RATE_MAX,
    ensures
        recent(times, now).len() <= WEBHOOK_RATE_MAX,
        recent(times, now).len() < WEBHOOK_RATE_MAX ==> recent(times, now).push(now).len()
            <= WEBHOOK_RATE_MAX,
    decreases times.len(),
{
    if times.len() > 0 && times[0] + WEBHOOK_RATE_WINDOW_NANOS < now {
        law_rate_window_capped(times.skip(1), now);
    }
}

/// An id that was noted is no longer new for the hour that follows.
pub proof fn law_noted_delivery_is_duplicate(
    seen: Map<Seq<char>, u64>,
    id: Seq<char>,
    first: u64,
    now: u64,
)
    requires
        seen.dom().contains(id),
        seen[id] == first,
        now < first + WEBHOOK_DELIVERY_TTL_NANOS,
    ensures
        !is_new_delivery(seen, id, now),
{
}

/// Giving back a slot that was taken leaves the counts as they were.
pub proof fn law_release_undoes_acquire(
    before: WebhookGuard,
    held: WebhookGuard,
    after: WebhookGuard,
    route: Seq<char>,
)
    requires
        slot_asked(before, route, true, held),
        slot_returned(held, route, after),
    ensures
        after.same_running(before),
{
    assert forall|a: Seq<char>| #[trigger] after.running(a) == before.running(a) by {
        if a != route {
            assert(held.running(a) == before.running(a));
        }
    }
}

// ── Whole histories ────────────────────────────────────────────────────────

/// What a guard was asked, and what it answered.
pub enum GuardEvent {
    /// A request of an address to a route at a time.
    Rate { route: Seq<char>, ip: Seq<char>, now: u64, admitted: bool },
    /// A slot of a route was asked for.
    Ask { route: Seq<char>, given: bool },
    /// A slot of a route was given back.
    Return { route: Seq<char> },
    /// A delivery id was shown.
    Delivery { id: Seq<char>, now: u64, is_new: bool },
}

/// Whether an event takes one guard to another, as the guard's functions state it.
pub open spec fn guard_step(before: WebhookGuard, e: GuardEvent, after: WebhookGuard) -> bool {
    match e {
        GuardEvent::Rate { route, ip, now, admitted } => {
            &&& admitted == within_rate(before, route, ip, now)
            &&& counted(before, route, ip, now, admitted, after)
            &&& after.same_running(before)
            &&& after.seen() == before.seen()
        },
        GuardEvent::Ask { route, given } => {
            &&& slot_asked(before, route, given, after)
            &&& after.same_windows(before)
            &&& after.seen() == before.seen()
        },
        GuardEvent::Return { route } => {
            &&& slot_returned(before, route, after)
            &&& after.same_windows(before)
            &&& after.seen() == before.seen()
        },
        GuardEvent::Delivery { id, now, is_new } => {
            &&& is_new == is_new_delivery(before.seen(), id, now)
            &&& notes_delivery(before.seen(), after.seen(), id, now)
            &&& after.same_windows(before)
            &&& after.same_running(before)
        },
    }
}

/// Whether `states` are the guards before, between and after the events, from one
/// that has seen nothing.
pub open spec fn is_history(states: Seq<WebhookGuard>, events: Seq<GuardEvent>) -> bool {
    &&& states.len() == events.len() + 1
    &&& forall|a: Seq<char>, b: Seq<char>| #[trigger] states[0].window(a, b).len() == 0
    &&& forall|a: Seq<char>| #[trigger] states[0].running(a) == 0
    &&& forall|k: int|
        0 <= k < events.len() ==> guard_step(states[k], #[trigger] events[k], states[k + 1])
}

/// The slots of a route that were given and not given back.
pub open spec fn held_slots(events: Seq<GuardEvent>, route: Seq<char>) -> int
    decreases events.len(),
{
    if events.len() == 0 {
        0
    } else {
        let before = held_slots(events.drop_last(), route);
        match events.last() {
            GuardEvent::Ask { route: r, given } => if r == route && given {
                before + 1
            } else {
                before
            },
            GuardEvent::Return { route: r } => if r == route {
                before - 1
            } else {
                before
            },
            _ => before,
        }
    }
}

/// Whether only slots that are held are given back.
pub open spec fn returns_what_is_held(events: Seq<GuardEvent>) -> bool {
    forall|k: int|
        0 <= k < events.len() ==> (#[trigger] events[k] matches GuardEvent::Return { route }
            ==> held_slots(events.take(k), route) > 0)
}

proof fn lemma_history_prefix(states: Seq<WebhookGuard>, events: Seq<GuardEvent>)
    requires
        is_history(states, events),
        events.len() > 0,
    ensures
        is_history(states.drop_last(), events.drop_last()),
        guard_step(states[events.len() - 1], events.last(), states[events.len() as int]),
{
    let es = events.drop_last();
    let ss = states.drop_last();
    assert(ss[0] == states[0]);
    assert forall|k: int| 0 <= k < es.len() implies guard_step(
        ss[k],
        #[trigger] es[k],
        ss[k + 1],
    ) by {
        assert(events[k] == es[k]);
    }
    assert(events[events.len() - 1] == events.last());
}

proof fn lemma_returns_prefix(events: Seq<GuardEvent>)
    requires
        returns_what_is_held(events),
        events.len() > 0,
    ensures
        returns_what_is_held(events.drop_last()),
        events.last() matches GuardEvent::Return { route } ==> held_slots(
            events.drop_last(),
            route,
        ) > 0,
{
    let es = events.drop_last();
    assert forall|k: int| 0 <= k < es.len() implies (#[trigger] es[k] matches GuardEvent::Return {
        route,
    } ==> held_slots(es.take(k), route) > 0) by {
        assert(events[k] == es[k]);
        assert(es.take(k) =~= events.take(k));
    }
    assert(events[events.len() - 1] == events.last());
    assert(events.take(events.len() - 1) =~= es);
}

/// Over any series of requests in which only held slots are given back, the slots of
/// a route that are held are those that the guard counts as running, and never more
/// than eight. A slot that is asked for next is given exactly if fewer than eight of
/// its route are held; the slots of other routes do not count.
pub proof fn law_held_slots_are_capped(
    states: Seq<WebhookGuard>,
    events: Seq<GuardEvent>,
    route: Seq<char>,
)
    requires
        is_history(states, events),
        returns_what_is_held(events),
    ensures
        states.last().running(route) == held_slots(events, route),
        0 <= held_slots(events, route) <= WEBHOOK_CONCURRENCY_MAX,
        forall|given: bool, after: WebhookGuard| #[trigger]
            guard_step(states.last(), GuardEvent::Ask { route, given }, after) ==> given == (
            held_slots(events, route) < WEBHOOK_CONCURRENCY_MAX),
    decreases events.len(),
{
    if events.len() > 0 {
        lemma_history_prefix(states, events);
        lemma_returns_prefix(events);
        law_held_slots_are_capped(states.drop_last(), events.drop_last(), route);
        let before = states[events.len() - 1];
        assert(states.drop_last().last() == before);
        assert(before.running(route) == held_slots(events.drop_last(), route));
        match events.last() {
            GuardEvent::Ask { route: r, given } => {
                assert(states.last().running(r) == before.running(r) + (if given {
                    1int
                } else {
                    0int
                }));
                if r != route {
                    assert(states.last().running(route) == before.running(route));
                }
            },
            GuardEvent::Return { route: r } => {
                if r != route {
                    assert(states.last().running(route) == before.running(route));
                }
            },
            _ => {
                assert(states.last().running(route) == before.running(route));
            },
        }
    } else {
        assert(states.last() == states[0]);
    }
}

/// The times at which requests of an address to a route were admitted.
pub open spec fn admitted_times(
    events: Seq<GuardEvent>,
    route: Seq<char>,
    ip: Seq<char>,
) -> Seq<u64>
    decreases events.len(),
{
    if events.len() == 0 {
        Seq::empty()
    } else {
        let before = admitted_times(events.drop_last(), route, ip);
        match events.last() {
            GuardEvent::Rate { route: r, ip: p, now, admitted } => if r == route && p == ip
                && admitted {
                before.push(now)
            } else {
                before
            },
            _ => before,
        }
    }
}

/// How many of the times lie from `from` to `to`, both counted in.
pub open spec fn count_between(times: Seq<u64>, from: int, to: int) -> nat
    decreases times.len(),
{
    if times.len() == 0 {
        0
    } else {
        count_between(times.drop_last(), from, to) + (if from <= times.last() <= to {
            1nat
        } else {
            0nat
        })
    }
}

/// Whether no request comes at an earlier time than one before it.
pub open spec fn times_do_not_decrease(events: Seq<GuardEvent>) -> bool {
    forall|i: int, k: int|
        #![trigger events[i], events[k]]
        0 <= i < k < events.len() ==> (events[i] matches GuardEvent::Rate { now: a, .. }
            ==> (events[k] matches GuardEvent::Rate { now: b, .. } ==> a <= b))
}

/// Whether every request of a series came by the time `now`.
pub open spec fn all_by(events: Seq<GuardEvent>, now: u64) -> bool {
    forall|i: int|
        0 <= i < events.len() ==> (#[trigger] events[i] matches GuardEvent::Rate { now: a, .. }
            ==> a <= now)
}

spec fn sorted(times: Seq<u64>) -> bool {
    forall|i: int, j: int| 0 <= i <= j < times.len() ==> times[i] <= times[j]
}

proof fn lemma_order_prefix(events: Seq<GuardEvent>)
    requires
        times_do_not_decrease(events),
        events.len() > 0,
    ensures
        times_do_not_decrease(events.drop_last()),
        events.last() matches GuardEvent::Rate { now, .. } ==> all_by(events.drop_last(), now),
{
    let es = events.drop_last();
    assert forall|i: int, k: int|
        #![trigger es[i], es[k]]
        0 <= i < k < es.len() implies (es[i] matches GuardEvent::Rate { now: a, .. } ==> (
    es[k] matches GuardEvent::Rate { now: b, .. } ==> a <= b)) by {
        assert(es[i] == events[i] && es[k] == events[k]);
    }
    if let GuardEvent::Rate { now, .. } = events.last() {
        assert forall|i: int| 0 <= i < es.len() implies (
        #[trigger] es[i] matches GuardEvent::Rate { now: a, .. } ==> a <= now) by {
            assert(es[i] == events[i]);
            assert(events[events.len() - 1] == events.last());
        }
    }
}

/// The admitted times come in order, and lie by any time by which all requests came.
proof fn lemma_admitted_sorted(
    events: Seq<GuardEvent>,
    route: Seq<char>,
    ip: Seq<char>,
    now: u64,
)
    requires
        times_do_not_decrease(events),
    ensures
        sorted(admitted_times(events, route, ip)),
        all_by(events, now) ==> forall|i: int|
            0 <= i < admitted_times(events, route, ip).len() ==> #[trigger] admitted_times(
                events,
                route,
                ip,
            )[i] <= now,
    decreases events.len(),
{
    if events.len() > 0 {
        let es = events.drop_last();
        lemma_order_prefix(events);
        lemma_admitted_sorted(es, route, ip, now);
        if all_by(events, now) {
            assert forall|i: int| 0 <= i < es.len() implies (
            #[trigger] es[i] matches GuardEvent::Rate { now: a, .. } ==> a <= now) by {
                assert(es[i] == events[i]);
            }
            assert(all_by(es, now));
            assert(events[events.len() - 1] == events.last());
        }
        if let GuardEvent::Rate { now: t, .. } = events.last() {
            lemma_admitted_sorted(es, route, ip, t);
        }
    }
}

/// Leaving out a time in front that is too old changes no count.
proof fn lemma_count_front(times: Seq<u64>, from: int, to: int)
    requires
        times.len() > 0,
    ensures
        count_between(times, from, to) == count_between(times.skip(1), from, to) + (if from
            <= times[0] <= to {
            1nat
        } else {
            0nat
        }),
    decreases times.len(),
{
    if times.len() > 1 {
        lemma_count_front(times.drop_last(), from, to);
        assert(times.skip(1).drop_last() =~= times.drop_last().skip(1));
        assert(times.skip(1).last() == times.last());
    } else {
        assert(times.drop_last() =~= Seq::<u64>::empty());
        assert(times.skip(1) =~= Seq::<u64>::empty());
        assert(times.last() == times[0]);
    }
}

proof fn lemma_count_all(times: Seq<u64>, from: int, to: int)
    requires
        forall|i: int| 0 <= i < times.len() ==> from <= #[trigger] times[i] <= to,
    ensures
        count_between(times, from, to) == times.len(),
    decreases times.len(),
{
    if times.len() > 0 {
        let sub = times.drop_last();
        assert forall|i: int| 0 <= i < sub.len() implies from <= #[trigger] sub[i] <= to by {
            assert(sub[i] == times[i]);
        }
        lemma_count_all(sub, from, to);
        assert(times[times.len() - 1] == times.last());
    }
}

/// What is recent of ordered times is as many as lie in the window before `now`.
proof fn lemma_recent_counts(times: Seq<u64>, now: u64)
    requires
        sorted(times),
        forall|i: int| 0 <= i < times.len() ==> #[trigger] times[i] <= now,
    ensures
        recent(times, now).len() == count_between(
            times,
            now - WEBHOOK_RATE_WINDOW_NANOS,
            now as int,
        ),
    decreases times.len(),
{
    let from = now - WEBHOOK_RATE_WINDOW_NANOS;
    if times.len() > 0 {
        if times[0] + WEBHOOK_RATE_WINDOW_NANOS < now {
            let rest = times.skip(1);
            assert forall|i: int, j: int| 0 <= i <= j < rest.len() implies rest[i] <= rest[j] by {
                assert(rest[i] == times[i + 1] && rest[j] == times[j + 1]);
            }
            assert forall|i: int| 0 <= i < rest.len() implies #[trigger] rest[i] <= now by {
                assert(rest[i] == times[i + 1]);
            }
            lemma_recent_counts(rest, now);
            lemma_count_front(times, from, now as int);
        } else {
            assert forall|i: int| 0 <= i < times.len() implies from <= #[trigger] times[i]
                <= now by {
                assert(times[0] <= times[i]);
            }
            lemma_count_all(times, from, now as int);
        }
    }
}

/// What is recent of times is what is left when some of the old ones in front are
/// gone.
proof fn lemma_recent_of_recent(times: Seq<u64>, a: u64, b: u64)
    requires
        a <= b,
    ensures
        recent(recent(times, a), b) == recent(times, b),
    decreases times.len(),
{
    if times.len() > 0 && times[0] + WEBHOOK_RATE_WINDOW_NANOS < a {
        lemma_recent_of_recent(times.skip(1), a, b);
    }
}

/// More times at the end stay at the end of what is recent, while those before them
/// are in order.
proof fn lemma_recent_push(times: Seq<u64>, t: u64, a: u64, b: u64)
    requires
        a <= b,
    ensures
        recent(recent(times, a).push(t), b) == recent(times.push(t), b),
    decreases times.len(),
{
    if times.len() > 0 && times[0] + WEBHOOK_RATE_WINDOW_NANOS < a {
        lemma_recent_push(times.skip(1), t, a, b);
        assert(times.push(t).skip(1) =~= times.skip(1).push(t));
        assert(times.push(t)[0] == times[0]);
    }
}

/// The guard's window holds what is recent of the admitted times, at any time by
/// which all requests came.
proof fn lemma_window_is_recent(
    states: Seq<WebhookGuard>,
    events: Seq<GuardEvent>,
    route: Seq<char>,
    ip: Seq<char>,
    now: u64,
)
    requires
        is_history(states, events),
        times_do_not_decrease(events),
        all_by(events, now),
    ensures
        recent(states.last().window(route, ip), now) == recent(
            admitted_times(events, route, ip),
            now,
        ),
    decreases events.len(),
{
    if events.len() > 0 {
        let es = events.drop_last();
        let before = states[events.len() - 1];
        lemma_history_prefix(states, events);
        lemma_order_prefix(events);
        assert(states.drop_last().last() == before);
        assert forall|i: int| 0 <= i < es.len() implies (
        #[trigger] es[i] matches GuardEvent::Rate { now: a, .. } ==> a <= now) by {
            assert(es[i] == events[i]);
        }
        assert(events[events.len() - 1] == events.last());
        lemma_window_is_recent(states.drop_last(), es, route, ip, now);
        let w = before.window(route, ip);
        let times = admitted_times(es, route, ip);
        match events.last() {
            GuardEvent::Rate { route: r, ip: p, now: t, admitted } => {
                if r == route && p == ip {
                    lemma_window_is_recent(states.drop_last(), es, route, ip, t);
                    if admitted {
                        lemma_recent_push(w, t, t, now);
                        lemma_recent_push(times, t, t, now);
                    } else {
                        lemma_recent_of_recent(w, t, now);
                    }
                } else {
                    assert(states.last().window(route, ip) == w);
                }
            },
            _ => {
                assert(states.last().window(route, ip) == w);
            },
        }
    } else {
        assert(states.last() == states[0]);
        assert(states[0].window(route, ip) =~= admitted_times(events, route, ip));
    }
}

/// Over any series of requests at times that do not decrease, a request that comes
/// next is admitted exactly if fewer than 120 earlier ones of its address to its
/// route were admitted in the 60 seconds before it. Requests that were refused, and
/// those of other addresses or to other routes, do not count.
pub proof fn law_admitted_iff_fewer_in_a_minute(
    states: Seq<WebhookGuard>,
    events: Seq<GuardEvent>,
    route: Seq<char>,
    ip: Seq<char>,
    now: u64,
    admitted: bool,
    after: WebhookGuard,
)
    requires
        is_history(states, events),
        times_do_not_decrease(events),
        all_by(events, now),
        guard_step(states.last(), GuardEvent::Rate { route, ip, now, admitted }, after),
    ensures
        admitted == (count_between(
            admitted_times(events, route, ip),
            now - WEBHOOK_RATE_WINDOW_NANOS,
            now as int,
        ) < WEBHOOK_RATE_MAX),
{
    lemma_window_is_recent(states, events, route, ip, now);
    lemma_admitted_sorted(events, route, ip, now);
    lemma_recent_counts(admitted_times(events, route, ip), now);
}

proof fn lemma_count_wider(times: Seq<u64>, from: int, to: int, from2: int, to2: int)
    requires
        from2 <= from,
        to <= to2,
    ensures
        count_between(times, from, to) <= count_between(times, from2, to2),
    decreases times.len(),
{
    if times.len() > 0 {
        lemma_count_wider(times.drop_last(), from, to, from2, to2);
    }
}

/// Over any series of requests at times that do not decrease, no 60 seconds admit
/// more than 120 requests of one address to one route.
pub proof fn law_no_minute_admits_more(
    states: Seq<WebhookGuard>,
    events: Seq<GuardEvent>,
    route: Seq<char>,
    ip: Seq<char>,
    from: int,
)
    requires
        is_history(states, events),
        times_do_not_decrease(events),
    ensures
        count_between(
            admitted_times(events, route, ip),
            from,
            from + WEBHOOK_RATE_WINDOW_NANOS,
        ) <= WEBHOOK_RATE_MAX,
    decreases events.len(),
{
    if events.len() > 0 {
        let es = events.drop_last();
        let to = from + WEBHOOK_RATE_WINDOW_NANOS;
        lemma_history_prefix(states, events);
        lemma_order_prefix(events);
        law_no_minute_admits_more(states.drop_last(), es, route, ip, from);
        if let GuardEvent::Rate { route: r, ip: p, now, admitted } = events.last() {
            let times = admitted_times(es, route, ip);
            assert(times.push(now).drop_last() =~= times);
            if r == route && p == ip && admitted && from <= now <= to {
                assert(states.drop_last().last() == states[events.len() - 1]);
                law_admitted_iff_fewer_in_a_minute(
                    states.drop_last(),
                    es,
                    route,
                    ip,
                    now,
                    admitted,
                    states[events.len() as int],
                );
                lemma_admitted_sorted(es, route, ip, now);
                lemma_count_until(times, from, to, now);
                lemma_count_wider(
                    times,
                    from,
                    now as int,
                    now - WEBHOOK_RATE_WINDOW_NANOS,
                    now as int,
                );
            }
        }
    }
}

/// Nothing lies behind a time by which all times come.
proof fn lemma_count_until(times: Seq<u64>, from: int, to: int, now: u64)
    requires
        now <= to,
        forall|i: int| 0 <= i < times.len() ==> #[trigger] times[i] <= now,
    ensures
        count_between(times, from, to) == count_between(times, from, now as int),
    decreases times.len(),
{
    if times.len() > 0 {
        let sub = times.drop_last();
        assert forall|i: int| 0 <= i < sub.len() implies #[trigger] sub[i] <= now by {
            assert(sub[i] == times[i]);
        }
        lemma_count_until(sub, from, to, now);
        assert(times[times.len() - 1] == times.last());
    }
}

} // verus!
