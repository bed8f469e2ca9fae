use rusty_workers_proxy::reconcile::FetchedScript;
use rusty_workers_proxy::sched::Scheduler;
use rusty_workers_proxy::types::AppConfig;
use rusty_workers_proxy::types::AppId;
use rusty_workers_proxy::types::AppRoute;
use rusty_workers_proxy::types::Config;
use rusty_workers_proxy::types::SchedError;
use rusty_workers_proxy::types::WorkerConfiguration;

fn b(s: &str) -> Vec<u8> {
    s.as_bytes().to_vec()
}

fn two_app_config() -> Config {
    let mk = |id: &str, prefix: &str| AppConfig {
        id: AppId(b(id)),
        routes: vec![AppRoute { domain: b("example.com"), path_prefix: b(prefix) }],
        script: b("http://scripts/x.js"),
        worker: WorkerConfiguration(b("wcfg")),
    };
    Config {
        runtime_cluster: vec![],
        apps: vec![mk("alive", "/alive"), mk("broken", "/broken")],
        instance_expiration_time_ms: 540000,
        request_timeout_ms: 30000,
        max_request_body_size_bytes: 2097152,
    }
}

#[test]
fn unchanged_config_is_a_no_op() {
    let mut s = Scheduler::new(WorkerConfiguration(b("wcfg")));
    let cfg = two_app_config();
    let plan = s.begin_refresh(&cfg).expect("differs from the default");
    assert_eq!(plan.len(), 2);
    assert_eq!(plan[0].id.0, b("alive"));
    assert_eq!(plan[0].script_url, b("http://scripts/x.js"));
    let fetched: Vec<FetchedScript> = plan
        .iter()
        .map(|u| FetchedScript { id: AppId(u.id.0.clone()), script: Some(b("code")) })
        .collect();
    s.finish_refresh(two_app_config(), fetched);
    // The same document again: nothing to do.
    assert!(s.begin_refresh(&two_app_config()).is_none());
}

#[test]
fn failed_script_fetch_skips_only_that_app() {
    let mut s = Scheduler::new(WorkerConfiguration(b("wcfg")));
    let cfg = two_app_config();
    let plan = s.begin_refresh(&cfg).expect("differs from the default");
    let fetched: Vec<FetchedScript> = plan
        .iter()
        .map(|u| FetchedScript {
            id: AppId(u.id.0.clone()),
            script: if u.id.0 == b("alive") { Some(b("code")) } else { None },
        })
        .collect();
    s.finish_refresh(cfg, fetched);
    assert_eq!(s.apps.len(), 1);
    assert_eq!(s.apps[0].id.0, b("alive"));
    // The skipped app keeps its route, but a request for it finds no
    // state and is refused as unrouted.
    let e = s.begin_request(&b("example.com"), &b("/broken"), 0).expect_err("no state");
    assert_eq!(e, SchedError::NoRouteMapping);
    // The other app is admitted normally.
    assert!(s.begin_request(&b("example.com"), &b("/alive"), 0).is_ok());
}

#[test]
fn body_exactly_at_cap_is_admitted() {
    let mut s = Scheduler::new(WorkerConfiguration(b("wcfg")));
    let mut cfg = two_app_config();
    cfg.max_request_body_size_bytes = 1024;
    let plan = s.begin_refresh(&cfg).expect("differs from the default");
    let fetched: Vec<FetchedScript> = plan
        .iter()
        .map(|u| FetchedScript { id: AppId(u.id.0.clone()), script: Some(b("code")) })
        .collect();
    s.finish_refresh(cfg, fetched);
    // Exactly the cap passes; one byte more is refused.
    assert!(s.begin_request(&b("example.com"), &b("/alive"), 1024).is_ok());
    let e = s.begin_request(&b("example.com"), &b("/alive"), 1025).expect_err("over cap");
    assert_eq!(e, SchedError::RequestBodyTooLarge);
}

#[test]
fn empty_prefix_matches_everything_on_its_domain() {
    let mut s = Scheduler::new(WorkerConfiguration(b("wcfg")));
    let mut cfg = two_app_config();
    cfg.apps[1].routes[0].path_prefix = b("");
    let plan = s.begin_refresh(&cfg).expect("differs from the default");
    let fetched: Vec<FetchedScript> = plan
        .iter()
        .map(|u| FetchedScript { id: AppId(u.id.0.clone()), script: Some(b("code")) })
        .collect();
    s.finish_refresh(cfg, fetched);
    // /alive still goes to the longer prefix; anything else to the empty one.
    let hit = s.begin_request(&b("example.com"), &b("/alive"), 0).expect("routed");
    assert_eq!(hit.app.0, b("alive"));
    let hit = s.begin_request(&b("example.com"), &b("/other"), 0).expect("routed");
    assert_eq!(hit.app.0, b("broken"));
}
