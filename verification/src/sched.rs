//! The scheduler's request path: admission, instance acquisition, and the
//! retry loop's decisions.
//!
//! All network traffic stays outside the library. The serving layer asks
//! `begin_request` to admit a request, then repeats: `acquire_instance` for
//! a cached instance or a spawn directive, `ReadyInstance::fresh` to wrap a
//! spawned handle, and `on_fetch_outcome` to decide — from the outcome of
//! the fetch RPC it performed — whether to respond, retry with a fresh
//! instance, or fail.

use vstd::prelude::*;

use crate::bytes::copy_bytes;
use crate::pool::AppState;
use crate::pool::ReadyInstance;
use crate::pool::first_usable;
use crate::pool::usable_spec;
use crate::registry::Registry;
use crate::registry::registry_has;
use crate::router::RouteTable;
use crate::router::resolved_at;
use crate::router::route_match_exists;
use crate::router::strip_port;
use crate::router::strip_port_spec;
use crate::types::AppId;
use crate::types::Config;
use crate::types::GenericError;
use crate::types::ResponseObject;
use crate::types::RuntimeId;
use crate::types::SchedError;
use crate::types::WorkerConfiguration;
use crate::types::WorkerHandle;

verus! {

/// Some live application bears the identifier `id`.
pub open spec fn has_app(apps: Seq<AppState>, id: Seq<u8>) -> bool {
    exists|i: int| 0 <= i < apps.len() && apps[i].id.0@ == id
}

/// No application identifier occurs twice.
pub open spec fn unique_app_ids(apps: Seq<AppState>) -> bool {
    forall|i: int, j: int| 0 <= i < j < apps.len() ==> apps[i].id.0@ != apps[j].id.0@
}

/// The scheduler: routing table, live applications with their instance
/// pools, the runtime registry, and the installed configuration.
pub struct Scheduler {
    pub config: Config,
    /// Worker configuration handed at construction. Spawns forward each
    /// application's own configured blob; this one is only the
    /// constructor's argument, kept for the surrounding binary.
    pub worker_config: WorkerConfiguration,
    /// The runtime registry ("clients" of the runtime RPC surface).
    pub clients: Registry,
    pub apps: Vec<AppState>,
    pub route_mappings: RouteTable,
}

/// State of one admitted request: the resolved application, the retry
/// budget, and the configuration snapshot values governing the request.
#[derive(Debug)]
pub struct Session {
    pub app: AppId,
    /// Fetch attempts still allowed; starts at 3.
    pub attempts_left: u8,
    /// Snapshot of the instance expiration interval.
    pub instance_expiration_time_ms: u64,
    /// Snapshot of the per-fetch timeout: each fetch RPC carries the
    /// deadline now + this.
    pub request_timeout_ms: u64,
}

/// Everything the serving layer needs to issue a spawn RPC.
#[derive(Debug)]
pub struct SpawnDirective {
    /// The selected (least-loaded) runtime.
    pub rtid: RuntimeId,
    pub app_id: AppId,
    pub script: Vec<u8>,
    pub worker: WorkerConfiguration,
}

/// What the pool decided for one attempt.
#[derive(Debug)]
pub enum Acquired {
    /// A cached warm instance, already stamped active.
    Cached(ReadyInstance),
    /// Nothing cached: spawn a worker as directed, then wrap the handle
    /// with `ReadyInstance::fresh`.
    Spawn(SpawnDirective),
}

/// Outcome of one fetch RPC, as observed by the serving layer.
#[derive(Debug)]
pub enum FetchOutcome {
    /// Connect, deadline or framing failure: the runtime is presumed
    /// unreachable and all its instances lost.
    TransportError,
    /// The RPC completed but the runtime returned an application error.
    AppError(GenericError),
    /// The worker produced a response.
    Success(ResponseObject),
}

/// What the retry loop does next.
#[derive(Debug)]
pub enum FetchDecision {
    /// Try again with a fresh instance.
    Retry,
    /// Give up with this error.
    Fail(SchedError),
    /// Deliver this response to the client.
    Respond(ResponseObject),
}

impl ReadyInstance {
    /// Wraps a freshly spawned worker handle as an instance active at
    /// `now`.
    pub fn fresh(rtid: RuntimeId, handle: WorkerHandle, now: u64) -> (r: ReadyInstance)
        ensures
            r.rtid == rtid,
            r.handle == handle,
            r.last_active == now,
    {
        ReadyInstance { rtid, last_active: now, handle }
    }
}

impl Scheduler {
    /// Well-formedness: runtime and application identifiers are unique.
    pub open spec fn wf(self) -> bool {
        self.clients.wf() && unique_app_ids(self.apps@)
    }

    /// A scheduler with the default configuration and no runtimes, apps or
    /// routes.
    pub fn new(worker_config: WorkerConfiguration) -> (r: Scheduler)
        ensures
            r.wf(),
            r.worker_config == worker_config,
            r.clients.runtimes@.len() == 0,
            r.apps@.len() == 0,
            r.route_mappings.entries@.len() == 0,
            r.config.runtime_cluster@.len() == 0,
            r.config.apps@.len() == 0,
            r.config.instance_expiration_time_ms == 540000,
            r.config.request_timeout_ms == 30000,
            r.config.max_request_body_size_bytes == 2097152,
    {
        Scheduler {
            config: Config::default(),
            worker_config,
            clients: Registry::new(),
            apps: Vec::new(),
            route_mappings: RouteTable::new(),
        }
    }

    /// First index of the live application bearing `id`.
    fn find_app(&self, id: &Vec<u8>) -> (r: Option<usize>)
        ensures
            match r {
                None => !has_app(self.apps@, id@),
                Some(i) => i < self.apps@.len() && self.apps@[i as int].id.0@ == id@
                    && forall|j: int| 0 <= j < i ==> self.apps@[j].id.0@ != id@,
            },
    {
        let mut i: usize = 0;
        while i < self.apps.len()
            invariant
                i <= self.apps.len(),
                forall|j: int| 0 <= j < i ==> self.apps@[j].id.0@ != id@,
            decreases self.apps.len() - i,
        {
            if crate::bytes::bytes_eq(&self.apps[i].id.0, id) {
                return Some(i);
            }
            i += 1;
        }
        None
    }

    /// Admits a request: resolves the application from the host header
    /// (port stripped) and the path, enforces the body cap, and checks the
    /// application is live — in that order, as the errors' precedence.
    /// Returns the session driving the retry loop. No RPC is issued for a
    /// rejected request: only a session can direct one.
    pub fn begin_request(&self, host: &Vec<u8>, path: &Vec<u8>, body_len: u64) -> (r: Result<
        Session,
        SchedError,
    >)
        ensures
            !route_match_exists(self.route_mappings.entries@, strip_port_spec(host@), path@) ==> r
                == Err::<Session, SchedError>(SchedError::NoRouteMapping),
            route_match_exists(self.route_mappings.entries@, strip_port_spec(host@), path@)
                && body_len > self.config.max_request_body_size_bytes ==> r == Err::<
                Session,
                SchedError,
            >(SchedError::RequestBodyTooLarge),
            route_match_exists(self.route_mappings.entries@, strip_port_spec(host@), path@)
                && body_len <= self.config.max_request_body_size_bytes ==> match r {
                Ok(s) => {
                    &&& exists|i: int|
                        #[trigger] resolved_at(
                            self.route_mappings.entries@,
                            strip_port_spec(host@),
                            path@,
                            i,
                        ) && s.app.0@ == self.route_mappings.entries@[i].app.0@
                    &&& has_app(self.apps@, s.app.0@)
                    &&& s.attempts_left == 3
                    &&& s.instance_expiration_time_ms == self.config.instance_expiration_time_ms
                    &&& s.request_timeout_ms == self.config.request_timeout_ms
                },
                Err(e) => e == SchedError::NoRouteMapping && exists|i: int|
                    #[trigger] resolved_at(
                        self.route_mappings.entries@,
                        strip_port_spec(host@),
                        path@,
                        i,
                    ) && !has_app(self.apps@, self.route_mappings.entries@[i].app.0@),
            },
    {
        let normalized = strip_port(host);
        match self.route_mappings.resolve(&normalized, path) {
            None => Err(SchedError::NoRouteMapping),
            Some(app) => {
                if body_len > self.config.max_request_body_size_bytes {
                    return Err(SchedError::RequestBodyTooLarge);
                }
                if self.find_app(&app.0).is_none() {
                    return Err(SchedError::NoRouteMapping);
                }
                Ok(
                    Session {
                        app,
                        attempts_left: 3,
                        instance_expiration_time_ms: self.config.instance_expiration_time_ms,
                        request_timeout_ms: self.config.request_timeout_ms,
                    },
                )
            },
        }
    }

    /// One attempt's instance acquisition: dequeues a usable cached
    /// instance, discarding expired ones; with the pool drained, directs a
    /// spawn on the least-loaded runtime (ties broken by runtime id
    /// order). Fails with `NoRouteMapping` when the application has been
    /// dropped meanwhile, with `NoAvailableInstance` when the registry is
    /// empty. Each call directs at most one spawn.
    pub fn acquire_instance(&mut self, session: &Session, now: u64) -> (r: Result<
        Acquired,
        SchedError,
    >)
        requires
            old(self).wf(),
        ensures
            final(self).wf(),
            final(self).config == old(self).config,
            final(self).worker_config == old(self).worker_config,
            final(self).clients == old(self).clients,
            final(self).route_mappings == old(self).route_mappings,
            !has_app(old(self).apps@, session.app.0@) ==> r == Err::<Acquired, SchedError>(
                SchedError::NoRouteMapping,
            ) && final(self).apps@ == old(self).apps@,
            has_app(old(self).apps@, session.app.0@) ==> exists|i: int|
                {
                    let q = old(self).apps@[i].ready_instances@;
                    let exp = session.instance_expiration_time_ms;
                    let k = first_usable(q, exp, now);
                    &&& 0 <= i < old(self).apps@.len()
                    &&& (#[trigger] old(self).apps@[i]).id.0@ == session.app.0@
                    &&& final(self).apps@.len() == old(self).apps@.len()
                    &&& forall|j: int|
                        0 <= j < old(self).apps@.len() && j != i ==> final(self).apps@[j] == old(self).apps@[j]
                    &&& final(self).apps@[i].id == old(self).apps@[i].id
                    &&& final(self).apps@[i].config == old(self).apps@[i].config
                    &&& final(self).apps@[i].script == old(self).apps@[i].script
                    &&& match r {
                        Ok(Acquired::Cached(inst)) => {
                            &&& k < q.len()
                            &&& inst.rtid == q[k].rtid
                            &&& inst.handle == q[k].handle
                            &&& inst.last_active == now
                            &&& usable_spec(q[k], exp, now)
                            &&& final(self).apps@[i].ready_instances@ == q.skip(k + 1)
                        },
                        Ok(Acquired::Spawn(d)) => {
                            &&& k == q.len()
                            &&& final(self).apps@[i].ready_instances@.len() == 0
                            &&& old(self).clients.runtimes@.len() > 0
                            &&& registry_has(old(self).clients.runtimes@, d.rtid.0@)
                            &&& forall|w: int|
                                0 <= w < old(self).clients.runtimes@.len() ==> exists|b: int|
                                    0 <= b < old(self).clients.runtimes@.len() && old(self).clients.runtimes@[b].id.0@ == d.rtid.0@ && old(self).clients.runtimes@[b].load <= #[trigger] old(self).clients.runtimes@[w].load
                            &&& d.app_id.0@ == session.app.0@
                            &&& d.script@ == old(self).apps@[i].script@
                            &&& d.worker.0@ == old(self).apps@[i].config.0@
                        },
                        Err(e) => {
                            &&& e == SchedError::NoAvailableInstance
                            &&& k == q.len()
                            &&& final(self).apps@[i].ready_instances@.len() == 0
                            &&& old(self).clients.runtimes@.len() == 0
                        },
                        _ => false,
                    }
                },
    {
        let idx = match self.find_app(&session.app.0) {
            None => {
                return Err(SchedError::NoRouteMapping);
            },
            Some(i) => i,
        };
        let ghost pre_apps = self.apps@;
        let mut app = self.apps.remove(idx);
        proof {
            crate::pool::lemma_first_usable(
                app.ready_instances@,
                session.instance_expiration_time_ms,
                now,
            );
        }
        let got = app.take_usable_instance(session.instance_expiration_time_ms, now);
        let result: Result<Acquired, SchedError> = match got {
            Some(inst) => Ok(Acquired::Cached(inst)),
            None => {
                match self.clients.select_least_loaded() {
                    None => Err(SchedError::NoAvailableInstance),
                    Some(b) => {
                        let rtid = self.clients.runtimes[b].id.duplicate();
                        proof {
                            assert(registry_has(
                                self.clients.runtimes@,
                                self.clients.runtimes@[b as int].id.0@,
                            ));
                            assert forall|w: int|
                                0 <= w < self.clients.runtimes@.len() implies exists|b2: int|
                                0 <= b2 < self.clients.runtimes@.len()
                                    && self.clients.runtimes@[b2].id.0@ == rtid.0@
                                    && self.clients.runtimes@[b2].load <= #[trigger] self.clients.runtimes@[w].load by {
                                assert(0 <= b < self.clients.runtimes@.len()
                                    && self.clients.runtimes@[b as int].id.0@ == rtid.0@
                                    && self.clients.runtimes@[b as int].load
                                    <= self.clients.runtimes@[w].load);
                            }
                        }
                        Ok(
                            Acquired::Spawn(
                                SpawnDirective {
                                    rtid,
                                    app_id: app.id.duplicate(),
                                    script: copy_bytes(&app.script),
                                    worker: WorkerConfiguration(copy_bytes(&app.config.0)),
                                },
                            ),
                        )
                    },
                }
            },
        };
        self.apps.insert(idx, app);
        proof {
            assert(self.apps@ =~= pre_apps.update(idx as int, self.apps@[idx as int]));
            assert forall|j: int|
                0 <= j < pre_apps.len() && j != idx implies self.apps@[j] == pre_apps[j] by {}
        }
        result
    }

    /// Applies the outcome of one fetch RPC and decides the next step.
    ///
    /// A transport failure deregisters the instance's entire runtime
    /// before any retry and costs an attempt. `NoSuchWorker` discards just
    /// this instance and costs an attempt. Any other application error
    /// aborts the retry loop. On success the instance is pooled back to
    /// its application and the response is delivered. With the attempt
    /// budget spent, the request fails with `RequestFailedAfterRetries`.
    pub fn on_fetch_outcome(
        &mut self,
        session: &mut Session,
        inst: ReadyInstance,
        outcome: FetchOutcome,
    ) -> (r: FetchDecision)
        requires
            old(self).wf(),
            old(session).attempts_left >= 1,
        ensures
            final(self).wf(),
            final(self).config == old(self).config,
            final(self).worker_config == old(self).worker_config,
            final(self).route_mappings == old(self).route_mappings,
            final(session).app == old(session).app,
            final(session).instance_expiration_time_ms == old(session).instance_expiration_time_ms,
            final(session).request_timeout_ms == old(session).request_timeout_ms,
            match outcome {
                FetchOutcome::TransportError => {
                    &&& !registry_has(final(self).clients.runtimes@, inst.rtid.0@)
                    &&& forall|other: Seq<u8>|
                        other != inst.rtid.0@ ==> registry_has(final(self).clients.runtimes@, other)
                            == registry_has(old(self).clients.runtimes@, other)
                    &&& final(self).apps@ == old(self).apps@
                    &&& final(session).attempts_left == old(session).attempts_left - 1
                    &&& r == (if old(session).attempts_left == 1 {
                        FetchDecision::Fail(SchedError::RequestFailedAfterRetries)
                    } else {
                        FetchDecision::Retry
                    })
                },
                FetchOutcome::AppError(e) => {
                    &&& final(self).clients == old(self).clients
                    &&& final(self).apps@ == old(self).apps@
                    &&& if e == GenericError::NoSuchWorker {
                        &&& final(session).attempts_left == old(session).attempts_left - 1
                        &&& r == (if old(session).attempts_left == 1 {
                            FetchDecision::Fail(SchedError::RequestFailedAfterRetries)
                        } else {
                            FetchDecision::Retry
                        })
                    } else {
                        &&& final(session).attempts_left == old(session).attempts_left
                        &&& r == FetchDecision::Fail(SchedError::RequestFailedAfterRetries)
                    }
                },
                FetchOutcome::Success(resp) => {
                    &&& final(self).clients == old(self).clients
                    &&& final(session).attempts_left == old(session).attempts_left
                    &&& r == FetchDecision::Respond(resp)
                    &&& if has_app(old(self).apps@, old(session).app.0@) {
                        exists|i: int|
                            {
                                &&& 0 <= i < old(self).apps@.len()
                                &&& (#[trigger] old(self).apps@[i]).id.0@ == old(session).app.0@
                                &&& final(self).apps@.len() == old(self).apps@.len()
                                &&& forall|j: int|
                                    0 <= j < old(self).apps@.len() && j != i ==> final(self).apps@[j] == old(self).apps@[j]
                                &&& final(self).apps@[i].id == old(self).apps@[i].id
                                &&& final(self).apps@[i].config == old(self).apps@[i].config
                                &&& final(self).apps@[i].script == old(self).apps@[i].script
                                &&& final(self).apps@[i].ready_instances@ == old(self).apps@[i].ready_instances@.push(inst)
                            }
                    } else {
                        final(self).apps@ == old(self).apps@
                    }
                },
            },
    {
        match outcome {
            FetchOutcome::TransportError => {
                self.clients.remove_runtime(&inst.rtid.0);
                session.attempts_left = session.attempts_left - 1;
                if session.attempts_left == 0 {
                    FetchDecision::Fail(SchedError::RequestFailedAfterRetries)
                } else {
                    FetchDecision::Retry
                }
            },
            FetchOutcome::AppError(e) => {
                match e {
                    GenericError::NoSuchWorker => {
                        session.attempts_left = session.attempts_left - 1;
                        if session.attempts_left == 0 {
                            FetchDecision::Fail(SchedError::RequestFailedAfterRetries)
                        } else {
                            FetchDecision::Retry
                        }
                    },
                    GenericError::Other => {
                        FetchDecision::Fail(SchedError::RequestFailedAfterRetries)
                    },
                }
            },
            FetchOutcome::Success(resp) => {
                match self.find_app(&session.app.0) {
                    None => FetchDecision::Respond(resp),
                    Some(i) => {
                        let ghost pre_apps = self.apps@;
                        let mut app = self.apps.remove(i);
                        app.pool_instance(inst);
                        self.apps.insert(i, app);
                        proof {
                            assert(self.apps@ =~= pre_apps.update(i as int, self.apps@[i as int]));
                        }
                        FetchDecision::Respond(resp)
                    },
                }
            },
        }
    }
}

} // verus!
