use rusty_workers_proxy::pool::ReadyInstance;
use rusty_workers_proxy::reconcile::FetchedScript;
use rusty_workers_proxy::registry::ProbeResult;
use rusty_workers_proxy::sched::Acquired;
use rusty_workers_proxy::sched::FetchDecision;
use rusty_workers_proxy::sched::FetchOutcome;
use rusty_workers_proxy::sched::Scheduler;
use rusty_workers_proxy::types::AppConfig;
use rusty_workers_proxy::types::AppId;
use rusty_workers_proxy::types::AppRoute;
use rusty_workers_proxy::types::Config;
use rusty_workers_proxy::types::GenericError;
use rusty_workers_proxy::types::HttpBody;
use rusty_workers_proxy::types::ResponseObject;
use rusty_workers_proxy::types::RuntimeId;
use rusty_workers_proxy::types::SchedError;
use rusty_workers_proxy::types::WorkerConfiguration;
use rusty_workers_proxy::types::WorkerHandle;

fn b(s: &str) -> Vec<u8> {
    s.as_bytes().to_vec()
}

fn one_app_config(expiration_ms: u64, max_body: u64) -> Config {
    Config {
        runtime_cluster: vec![b("10.0.0.1:2000")],
        apps: vec![AppConfig {
            id: AppId(b("app1")),
            routes: vec![AppRoute { domain: b("example.com"), path_prefix: b("/") }],
            script: b("http://scripts/app1.js"),
            worker: WorkerConfiguration(b("wcfg")),
        }],
        instance_expiration_time_ms: expiration_ms,
        request_timeout_ms: 30000,
        max_request_body_size_bytes: max_body,
    }
}

fn ready_scheduler(expiration_ms: u64, max_body: u64, runtimes: &[&str]) -> Scheduler {
    let mut s = Scheduler::new(WorkerConfiguration(b("wcfg")));
    let cfg = one_app_config(expiration_ms, max_body);
    let plan = s.begin_refresh(&cfg).expect("a fresh config differs from the default");
    let fetched: Vec<FetchedScript> = plan
        .iter()
        .map(|u| FetchedScript { id: AppId(u.id.0.clone()), script: Some(b("code")) })
        .collect();
    s.finish_refresh(cfg, fetched);
    let found: Vec<RuntimeId> = runtimes.iter().map(|r| RuntimeId(b(r))).collect();
    s.clients.admit_runtimes(found);
    s
}

fn ok_response() -> ResponseObject {
    ResponseObject { status: 200, headers: vec![], body: HttpBody::Text(b("ok")) }
}

#[test]
fn warm_path_reuses_instance() {
    // S1: first request spawns; the second, shortly after, reuses the
    // pooled handle without a spawn directive.
    let mut s = ready_scheduler(540000, 2097152, &["rt1"]);
    let mut session = s.begin_request(&b("example.com"), &b("/"), 0).expect("routed");
    let directive = match s.acquire_instance(&session, 1000).expect("acquired") {
        Acquired::Spawn(d) => d,
        Acquired::Cached(_) => panic!("nothing should be pooled yet"),
    };
    assert_eq!(directive.rtid.0, b("rt1"));
    assert_eq!(directive.app_id.0, b("app1"));
    assert_eq!(directive.script, b("code"));
    let inst = ReadyInstance::fresh(directive.rtid, WorkerHandle(b("h1")), 1000);
    let decision = s.on_fetch_outcome(&mut session, inst, FetchOutcome::Success(ok_response()));
    match decision {
        FetchDecision::Respond(resp) => assert_eq!(resp.status, 200),
        _ => panic!("success must be delivered"),
    }
    assert_eq!(s.apps[0].ready_instances.len(), 1);

    let session2 = s.begin_request(&b("example.com"), &b("/"), 0).expect("routed");
    match s.acquire_instance(&session2, 1100).expect("acquired") {
        Acquired::Cached(inst) => assert_eq!(inst.handle.0, b("h1")),
        Acquired::Spawn(_) => panic!("the warm instance must be reused"),
    }
}

#[test]
fn expired_instance_is_discarded() {
    // S2: with a 100 ms expiration, a request 200 ms later never sees the
    // stale instance; the pool directs a fresh spawn.
    let mut s = ready_scheduler(100, 2097152, &["rt1"]);
    let mut session = s.begin_request(&b("example.com"), &b("/"), 0).expect("routed");
    match s.acquire_instance(&session, 1000).expect("acquired") {
        Acquired::Spawn(d) => {
            let inst = ReadyInstance::fresh(d.rtid, WorkerHandle(b("h1")), 1000);
            s.on_fetch_outcome(&mut session, inst, FetchOutcome::Success(ok_response()));
        }
        Acquired::Cached(_) => panic!("nothing pooled yet"),
    }
    assert_eq!(s.apps[0].ready_instances.len(), 1);
    let session2 = s.begin_request(&b("example.com"), &b("/"), 0).expect("routed");
    match s.acquire_instance(&session2, 1200).expect("acquired") {
        Acquired::Spawn(_) => {}
        Acquired::Cached(_) => panic!("an expired instance must never be returned"),
    }
    assert_eq!(s.apps[0].ready_instances.len(), 0);
}

#[test]
fn transport_error_drops_runtime_and_retry_succeeds() {
    // S3: the fetch against the least-loaded runtime fails at transport
    // level; that runtime is deregistered before the retry, which spawns
    // on the remaining one.
    let mut s = ready_scheduler(540000, 2097152, &["rt1", "rt2"]);
    s.clients.apply_probe_results(vec![
        ProbeResult { id: RuntimeId(b("rt1")), load: Some(0) },
        ProbeResult { id: RuntimeId(b("rt2")), load: Some(1) },
    ]);
    let mut session = s.begin_request(&b("example.com"), &b("/"), 0).expect("routed");
    let d1 = match s.acquire_instance(&session, 1000).expect("acquired") {
        Acquired::Spawn(d) => d,
        Acquired::Cached(_) => panic!("nothing pooled yet"),
    };
    assert_eq!(d1.rtid.0, b("rt1"));
    let inst1 = ReadyInstance::fresh(d1.rtid, WorkerHandle(b("h1")), 1000);
    let decision = s.on_fetch_outcome(&mut session, inst1, FetchOutcome::TransportError);
    assert!(matches!(decision, FetchDecision::Retry));
    assert!(!s.clients.contains(&b("rt1")));
    assert!(s.clients.contains(&b("rt2")));
    let d2 = match s.acquire_instance(&session, 1001).expect("acquired") {
        Acquired::Spawn(d) => d,
        Acquired::Cached(_) => panic!("the lost instance must not be reused"),
    };
    assert_eq!(d2.rtid.0, b("rt2"));
    let inst2 = ReadyInstance::fresh(d2.rtid, WorkerHandle(b("h2")), 1001);
    let decision = s.on_fetch_outcome(&mut session, inst2, FetchOutcome::Success(ok_response()));
    assert!(matches!(decision, FetchDecision::Respond(_)));
    assert_eq!(s.clients.runtimes.len(), 1);
    assert_eq!(s.clients.runtimes[0].id.0, b("rt2"));
}

#[test]
fn no_such_worker_discards_instance_and_retries() {
    // S4: a cached instance answers NoSuchWorker; it is dropped, the retry
    // spawns a fresh worker, and after success the pool holds one
    // instance.
    let mut s = ready_scheduler(540000, 2097152, &["rt1"]);
    let mut session = s.begin_request(&b("example.com"), &b("/"), 0).expect("routed");
    match s.acquire_instance(&session, 1000).expect("acquired") {
        Acquired::Spawn(d) => {
            let inst = ReadyInstance::fresh(d.rtid, WorkerHandle(b("h1")), 1000);
            s.on_fetch_outcome(&mut session, inst, FetchOutcome::Success(ok_response()));
        }
        Acquired::Cached(_) => panic!("nothing pooled yet"),
    }
    let mut session2 = s.begin_request(&b("example.com"), &b("/"), 0).expect("routed");
    let cached = match s.acquire_instance(&session2, 1100).expect("acquired") {
        Acquired::Cached(inst) => inst,
        Acquired::Spawn(_) => panic!("the warm instance must be offered"),
    };
    let decision = s.on_fetch_outcome(
        &mut session2,
        cached,
        FetchOutcome::AppError(GenericError::NoSuchWorker),
    );
    assert!(matches!(decision, FetchDecision::Retry));
    assert_eq!(s.apps[0].ready_instances.len(), 0);
    let d = match s.acquire_instance(&session2, 1101).expect("acquired") {
        Acquired::Spawn(d) => d,
        Acquired::Cached(_) => panic!("the dropped instance must not reappear"),
    };
    let fresh = ReadyInstance::fresh(d.rtid, WorkerHandle(b("h2")), 1101);
    let decision = s.on_fetch_outcome(&mut session2, fresh, FetchOutcome::Success(ok_response()));
    assert!(matches!(decision, FetchDecision::Respond(_)));
    assert_eq!(s.apps[0].ready_instances.len(), 1);
    assert_eq!(s.apps[0].ready_instances[0].handle.0, b("h2"));
}

#[test]
fn oversized_body_is_rejected_without_rpc() {
    // S5: a 2048-byte body against a 1024-byte cap yields 413; no session
    // exists, so nothing can direct an RPC, and no state changed.
    let mut s = ready_scheduler(540000, 1024, &["rt1"]);
    let r = s.begin_request(&b("example.com"), &b("/"), 2048);
    let e = r.expect_err("the body exceeds the cap");
    assert_eq!(e, SchedError::RequestBodyTooLarge);
    assert_eq!(e.status_code(), 413);
    assert_eq!(s.apps[0].ready_instances.len(), 0);
    assert_eq!(s.clients.runtimes.len(), 1);
}

#[test]
fn reconciliation_removes_app_and_routes() {
    // S6: a refresh whose config no longer binds the app drops its state
    // (pooled instances with it); the next request gets 502.
    let mut s = ready_scheduler(540000, 2097152, &["rt1"]);
    let mut session = s.begin_request(&b("example.com"), &b("/"), 0).expect("routed");
    match s.acquire_instance(&session, 1000).expect("acquired") {
        Acquired::Spawn(d) => {
            let inst = ReadyInstance::fresh(d.rtid, WorkerHandle(b("h1")), 1000);
            s.on_fetch_outcome(&mut session, inst, FetchOutcome::Success(ok_response()));
        }
        Acquired::Cached(_) => panic!("nothing pooled yet"),
    }
    assert_eq!(s.apps.len(), 1);
    let mut empty_cfg = one_app_config(540000, 2097152);
    empty_cfg.apps.clear();
    let plan = s.begin_refresh(&empty_cfg).expect("the config changed");
    assert!(plan.is_empty());
    s.finish_refresh(empty_cfg, vec![]);
    assert_eq!(s.apps.len(), 0);
    let r = s.begin_request(&b("example.com"), &b("/"), 0);
    let e = r.expect_err("the app is gone");
    assert_eq!(e, SchedError::NoRouteMapping);
    assert_eq!(e.status_code(), 502);
}

#[test]
fn unknown_host_gets_bad_gateway() {
    let s = ready_scheduler(540000, 2097152, &["rt1"]);
    let e = s.begin_request(&b("nobody.example"), &b("/"), 0).expect_err("no route");
    assert_eq!(e, SchedError::NoRouteMapping);
    assert_eq!(e.status_code(), 502);
}

#[test]
fn empty_registry_yields_no_available_instance() {
    let mut s = ready_scheduler(540000, 2097152, &[]);
    let session = s.begin_request(&b("example.com"), &b("/"), 0).expect("routed");
    let e = s.acquire_instance(&session, 1000).expect_err("no runtime registered");
    assert_eq!(e, SchedError::NoAvailableInstance);
    assert_eq!(e.status_code(), 503);
}

#[test]
fn three_transport_failures_exhaust_retries() {
    let mut s = ready_scheduler(540000, 2097152, &["rt1", "rt2", "rt3"]);
    let mut session = s.begin_request(&b("example.com"), &b("/"), 0).expect("routed");
    for attempt in 0..3 {
        let d = match s.acquire_instance(&session, 1000 + attempt).expect("acquired") {
            Acquired::Spawn(d) => d,
            Acquired::Cached(_) => panic!("nothing pooled"),
        };
        let inst = ReadyInstance::fresh(d.rtid, WorkerHandle(b("h")), 1000 + attempt);
        let decision = s.on_fetch_outcome(&mut session, inst, FetchOutcome::TransportError);
        if attempt < 2 {
            assert!(matches!(decision, FetchDecision::Retry));
        } else {
            match decision {
                FetchDecision::Fail(e) => {
                    assert_eq!(e, SchedError::RequestFailedAfterRetries);
                    assert_eq!(e.status_code(), 503);
                }
                _ => panic!("the attempt budget is spent"),
            }
        }
    }
    assert_eq!(s.clients.runtimes.len(), 0);
}

#[test]
fn other_app_error_aborts_immediately() {
    let mut s = ready_scheduler(540000, 2097152, &["rt1"]);
    let mut session = s.begin_request(&b("example.com"), &b("/"), 0).expect("routed");
    let d = match s.acquire_instance(&session, 1000).expect("acquired") {
        Acquired::Spawn(d) => d,
        Acquired::Cached(_) => panic!("nothing pooled"),
    };
    let inst = ReadyInstance::fresh(d.rtid, WorkerHandle(b("h1")), 1000);
    let decision =
        s.on_fetch_outcome(&mut session, inst, FetchOutcome::AppError(GenericError::Other));
    match decision {
        FetchDecision::Fail(e) => assert_eq!(e, SchedError::RequestFailedAfterRetries),
        _ => panic!("other application errors are not retried"),
    }
    // The runtime stays registered: only transport failures drop it.
    assert!(s.clients.contains(&b("rt1")));
    // The failed instance was not pooled back.
    assert_eq!(s.apps[0].ready_instances.len(), 0);
}

#[test]
fn failed_load_probe_removes_runtime() {
    // A runtime that fails its load probe is gone once the pass is applied.
    let mut s = ready_scheduler(540000, 2097152, &["rt1", "rt2"]);
    s.clients.apply_probe_results(vec![
        ProbeResult { id: RuntimeId(b("rt1")), load: None },
        ProbeResult { id: RuntimeId(b("rt2")), load: Some(7) },
    ]);
    assert!(!s.clients.contains(&b("rt1")));
    assert!(s.clients.contains(&b("rt2")));
    assert_eq!(s.clients.runtimes.len(), 1);
    assert_eq!(s.clients.runtimes[0].load, 7);
}

#[test]
fn discovery_is_idempotent_and_keeps_loads() {
    let mut s = ready_scheduler(540000, 2097152, &["rt1"]);
    s.clients
        .apply_probe_results(vec![ProbeResult { id: RuntimeId(b("rt1")), load: Some(9) }]);
    s.clients.admit_runtimes(vec![RuntimeId(b("rt1")), RuntimeId(b("rt2"))]);
    assert_eq!(s.clients.runtimes.len(), 2);
    // The existing entry kept its probed load; the new one starts at 0.
    assert_eq!(s.clients.runtimes[0].id.0, b("rt1"));
    assert_eq!(s.clients.runtimes[0].load, 9);
    assert_eq!(s.clients.runtimes[1].load, 0);
}

#[test]
fn least_loaded_selection_breaks_ties_by_id() {
    let mut s = ready_scheduler(540000, 2097152, &["zeta", "alpha", "mid"]);
    s.clients.apply_probe_results(vec![
        ProbeResult { id: RuntimeId(b("zeta")), load: Some(5) },
        ProbeResult { id: RuntimeId(b("alpha")), load: Some(5) },
        ProbeResult { id: RuntimeId(b("mid")), load: Some(6) },
    ]);
    let session = s.begin_request(&b("example.com"), &b("/"), 0).expect("routed");
    match s.acquire_instance(&session, 1000).expect("acquired") {
        Acquired::Spawn(d) => assert_eq!(d.rtid.0, b("alpha")),
        Acquired::Cached(_) => panic!("nothing pooled"),
    }
}

#[test]
fn usability_follows_the_expiration_interval() {
    let inst = ReadyInstance::fresh(RuntimeId(b("rt1")), WorkerHandle(b("h1")), 1000);
    assert!(inst.is_usable(100, 1100));
    assert!(!inst.is_usable(100, 1101));
    // A reading earlier than the stamp counts as no elapsed time.
    assert!(inst.is_usable(0, 999));
}

#[test]
fn spawn_forwards_the_apps_own_worker_configuration() {
    // The configuration's per-app worker blob — not the blob handed at
    // construction — travels with the spawn directive.
    let mut s = Scheduler::new(WorkerConfiguration(b("construction-blob")));
    let mut cfg = one_app_config(540000, 2097152);
    cfg.apps[0].worker = WorkerConfiguration(b("app1-blob"));
    let plan = s.begin_refresh(&cfg).expect("a fresh config differs from the default");
    let fetched: Vec<FetchedScript> = plan
        .iter()
        .map(|u| FetchedScript { id: AppId(u.id.0.clone()), script: Some(b("code")) })
        .collect();
    s.finish_refresh(cfg, fetched);
    s.clients.admit_runtimes(vec![RuntimeId(b("rt1"))]);
    let session = s.begin_request(&b("example.com"), &b("/"), 0).expect("routed");
    match s.acquire_instance(&session, 1000).expect("acquired") {
        Acquired::Spawn(d) => assert_eq!(d.worker.0, b("app1-blob")),
        Acquired::Cached(_) => panic!("nothing pooled yet"),
    }
}
