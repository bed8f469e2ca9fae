//! The library's governing laws, each proved from the public contracts.

use vstd::prelude::*;

use crate::bytes::is_prefix_of;
use crate::pool::ReadyInstance;
use crate::pool::first_usable;
use crate::pool::usable_spec;
use crate::router::RouteEntry;
use crate::router::entry_matches;
use crate::router::flat_routes;
use crate::router::resolved_at;
use crate::router::route_match_exists;
use crate::router::routes_of_app;
use crate::registry::RuntimeState;
use crate::registry::registry_has;
use crate::router::strip_port_spec;
use crate::sched::Acquired;
use crate::sched::Scheduler;
use crate::sched::Session;
use crate::types::AppConfig;
use crate::types::SchedError;

verus! {

/// A request whose host has no routing entry is refused with
/// `NoRouteMapping`, shown to the client as status 502 — whatever the
/// body size and whatever applications are live.
pub proof fn law_unrouted_host_status(
    s: Scheduler,
    host: Vec<u8>,
    path: Vec<u8>,
    body_len: u64,
    r: Result<Session, SchedError>,
)
    requires
        !route_match_exists(s.route_mappings.entries@, strip_port_spec(host@), path@),
        call_ensures(Scheduler::begin_request, (&s, &host, &path, body_len), r),
    ensures
        r == Err::<Session, SchedError>(SchedError::NoRouteMapping),
        SchedError::NoRouteMapping.status_spec() == 502,
{
}

/// A routed request whose body exceeds the configured cap is refused with
/// `RequestBodyTooLarge`, shown as status 413; no session exists for it,
/// so no spawn or fetch RPC can be directed on its behalf.
pub proof fn law_oversized_body_status(
    s: Scheduler,
    host: Vec<u8>,
    path: Vec<u8>,
    body_len: u64,
    r: Result<Session, SchedError>,
)
    requires
        route_match_exists(s.route_mappings.entries@, strip_port_spec(host@), path@),
        body_len > s.config.max_request_body_size_bytes,
        call_ensures(Scheduler::begin_request, (&s, &host, &path, body_len), r),
    ensures
        r == Err::<Session, SchedError>(SchedError::RequestBodyTooLarge),
        SchedError::RequestBodyTooLarge.status_spec() == 413,
{
}

/// Once the expiration interval has elapsed with no activity, nothing in
/// an application's ready queue is usable, so the next acquisition never
/// returns a pooled instance: it drains the queue and either directs a
/// spawn or, with an empty registry, fails.
pub proof fn law_expired_pool_never_reused(q: Seq<ReadyInstance>, expiration_ms: u64, now: u64)
    requires
        forall|i: int| 0 <= i < q.len() ==> !usable_spec(#[trigger] q[i], expiration_ms, now),
    ensures
        first_usable(q, expiration_ms, now) == q.len(),
    decreases q.len(),
{
    if q.len() > 0 {
        assert(!usable_spec(q[0], expiration_ms, now));
        assert forall|i: int|
            0 <= i < q.drop_first().len() implies !usable_spec(
            #[trigger] q.drop_first()[i],
            expiration_ms,
            now,
        ) by {
            assert(q.drop_first()[i] == q[i + 1]);
        }
        law_expired_pool_never_reused(q.drop_first(), expiration_ms, now);
    }
}

/// Longest prefix wins: every binding that matches a request has a prefix
/// no longer than the winning binding's, and a strictly shorter one when
/// the prefixes differ — matching prefixes of one path are nested, so the
/// lexicographic tie-break the table uses is the length order.
pub proof fn law_longest_prefix_wins(
    entries: Seq<RouteEntry>,
    host: Seq<u8>,
    path: Seq<u8>,
    i: int,
    j: int,
)
    requires
        resolved_at(entries, host, path, i),
        0 <= j < entries.len(),
        entry_matches(entries[j], host, path),
    ensures
        entries[j].path_prefix@.len() <= entries[i].path_prefix@.len(),
        is_prefix_of(entries[j].path_prefix@, path),
        is_prefix_of(entries[i].path_prefix@, path),
{
}

/// How many of a run of acquisition outcomes direct a spawn.
pub open spec fn count_spawns(rs: Seq<Result<Acquired, SchedError>>) -> int
    decreases rs.len(),
{
    if rs.len() == 0 {
        0
    } else {
        count_spawns(rs.drop_last()) + (if rs.last() matches Ok(Acquired::Spawn(_)) {
            1int
        } else {
            0int
        })
    }
}

/// Repeated acquisition spawns at most once per call: over any k calls at
/// most k spawn directives are issued — each single call directs at most
/// one, and only after draining the ready queue without a usable
/// instance, which is `acquire_instance`'s own contract.
pub proof fn law_spawns_bounded_by_calls(rs: Seq<Result<Acquired, SchedError>>)
    ensures
        count_spawns(rs) <= rs.len(),
    decreases rs.len(),
{
    if rs.len() > 0 {
        law_spawns_bounded_by_calls(rs.drop_last());
    }
}

/// A runtime lost mid-retry is not retried: a transport failure's
/// decision deregisters the instance's runtime in the same call that
/// answers `Retry`, and an acquisition's spawn directive always targets a
/// registered runtime — so the retry's spawn lands on a surviving
/// runtime, never the lost one.
pub proof fn law_lost_runtime_not_retargeted(
    clients: Seq<RuntimeState>,
    lost: Seq<u8>,
    target: Seq<u8>,
)
    requires
        !registry_has(clients, lost),
        registry_has(clients, target),
    ensures
        target != lost,
{
}

/// The routing table rebuilt from a configuration binds only that
/// configuration's applications: every entry of its flattened form names
/// the identifier of some configured application. Together with the
/// reconciler installing the apps table and the routing table in one
/// step, a request never observes them from different generations.
pub proof fn law_routes_bound_by_config(apps: Seq<AppConfig>, t: int)
    requires
        0 <= t < flat_routes(apps).len(),
    ensures
        exists|a: int| 0 <= a < apps.len() && flat_routes(apps)[t].2 == (#[trigger] apps[a]).id.0@,
    decreases apps.len(),
{
    if apps.len() > 0 {
        let fr = flat_routes(apps);
        let head = flat_routes(apps.drop_last());
        if t < head.len() {
            law_routes_bound_by_config(apps.drop_last(), t);
            let a = choose|a: int|
                0 <= a < apps.drop_last().len() && head[t].2 == (#[trigger] apps.drop_last()[a]).id.0@;
            assert(apps.drop_last()[a] == apps[a]);
            assert(fr[t] == head[t]);
        } else {
            assert(fr[t] == routes_of_app(apps.last())[t - head.len()]);
            assert(fr[t].2 == apps[apps.len() - 1].id.0@);
        }
    }
}

} // verus!
