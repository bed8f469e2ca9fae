use rusty_workers_proxy::forward::build_request_object;
use rusty_workers_proxy::forward::group_headers;
use rusty_workers_proxy::reconcile::merge_cluster;
use rusty_workers_proxy::router::RouteTable;
use rusty_workers_proxy::router::strip_port;
use rusty_workers_proxy::types::AppConfig;
use rusty_workers_proxy::types::AppId;
use rusty_workers_proxy::types::AppRoute;
use rusty_workers_proxy::types::Config;
use rusty_workers_proxy::types::HttpBody;
use rusty_workers_proxy::types::SchedError;
use rusty_workers_proxy::types::WorkerConfiguration;
use rusty_workers_proxy::types::config_eq;

fn b(s: &str) -> Vec<u8> {
    s.as_bytes().to_vec()
}

fn app(id: &str, routes: &[(&str, &str)]) -> AppConfig {
    AppConfig {
        id: AppId(b(id)),
        routes: routes
            .iter()
            .map(|(d, p)| AppRoute { domain: b(d), path_prefix: b(p) })
            .collect(),
        script: b("http://scripts/x.js"),
        worker: WorkerConfiguration(b("wcfg")),
    }
}

#[test]
fn longest_prefix_wins() {
    // Routes /a and /a/b on one domain: /a/b/c maps to /a/b.
    let apps = vec![
        app("short", &[("example.com", "/a")]),
        app("long", &[("example.com", "/a/b")]),
    ];
    let table = RouteTable::build(&apps);
    let hit = table.resolve(&b("example.com"), &b("/a/b/c")).expect("matched");
    assert_eq!(hit.0, b("long"));
    let hit = table.resolve(&b("example.com"), &b("/a/x")).expect("matched");
    assert_eq!(hit.0, b("short"));
}

#[test]
fn unmatched_domain_or_prefix_resolves_to_nothing() {
    let apps = vec![app("a", &[("example.com", "/api")])];
    let table = RouteTable::build(&apps);
    assert!(table.resolve(&b("other.example"), &b("/api")).is_none());
    assert!(table.resolve(&b("example.com"), &b("/web")).is_none());
}

#[test]
fn later_binding_of_same_pair_overrides() {
    let apps = vec![
        app("first", &[("example.com", "/")]),
        app("second", &[("example.com", "/")]),
    ];
    let table = RouteTable::build(&apps);
    let hit = table.resolve(&b("example.com"), &b("/")).expect("matched");
    assert_eq!(hit.0, b("second"));
}

#[test]
fn host_port_is_stripped() {
    assert_eq!(strip_port(&b("example.com:8080")), b("example.com"));
    assert_eq!(strip_port(&b("example.com")), b("example.com"));
    assert_eq!(strip_port(&b("")), b(""));
    assert_eq!(strip_port(&b(":443")), b(""));
}

#[test]
fn default_config_values() {
    let c = Config::default();
    assert_eq!(c.instance_expiration_time_ms, 540000);
    assert_eq!(c.request_timeout_ms, 30000);
    assert_eq!(c.max_request_body_size_bytes, 2 * 1024 * 1024);
    assert!(c.runtime_cluster.is_empty());
    assert!(c.apps.is_empty());
}

#[test]
fn status_codes_per_error() {
    assert_eq!(SchedError::NoAvailableInstance.status_code(), 503);
    assert_eq!(SchedError::NoRouteMapping.status_code(), 502);
    assert_eq!(SchedError::RequestBodyTooLarge.status_code(), 413);
    assert_eq!(SchedError::RequestFailedAfterRetries.status_code(), 503);
}

#[test]
fn cluster_merge_is_a_union() {
    let mut c = Config::default();
    c.runtime_cluster.push(b("10.0.0.1:2000"));
    merge_cluster(&mut c, &vec![b("10.0.0.1:2000"), b("10.0.0.2:2000")]);
    assert_eq!(c.runtime_cluster.len(), 2);
    assert_eq!(c.runtime_cluster[0], b("10.0.0.1:2000"));
    assert_eq!(c.runtime_cluster[1], b("10.0.0.2:2000"));
}

#[test]
fn config_equality_is_deep() {
    let mut a = Config::default();
    a.apps.push(app("x", &[("example.com", "/")]));
    let mut b2 = Config::default();
    b2.apps.push(app("x", &[("example.com", "/")]));
    assert!(config_eq(&a, &b2));
    b2.apps[0].routes[0].path_prefix = b("/other");
    assert!(!config_eq(&a, &b2));
    b2.apps[0].routes[0].path_prefix = b("/");
    b2.request_timeout_ms = 1;
    assert!(!config_eq(&a, &b2));
}

#[test]
fn grouped_headers_keep_value_order() {
    let flat = vec![
        (b("accept"), b("text/html")),
        (b("cookie"), b("a=1")),
        (b("cookie"), b("b=2")),
    ];
    let grouped = group_headers(&flat);
    assert_eq!(grouped.len(), 2);
    let cookie = grouped.iter().find(|e| e.0 == b("cookie")).expect("present");
    assert_eq!(cookie.1, vec![b("a=1"), b("b=2")]);
    let accept = grouped.iter().find(|e| e.0 == b("accept")).expect("present");
    assert_eq!(accept.1, vec![b("text/html")]);
}

#[test]
fn request_object_rewrites_host_and_url() {
    let flat = vec![(b("host"), b("example.com:8443")), (b("x-a"), b("1"))];
    let req = build_request_object(
        b("GET"),
        &b("example.com:8443"),
        &b("/p?q=1"),
        &flat,
        Vec::new(),
    );
    assert_eq!(req.method, b("GET"));
    assert_eq!(req.url, b("https://example.com/p?q=1"));
    assert!(req.body.is_none());
    let host = req.headers.last().expect("host entry");
    assert_eq!(host.0, b("host"));
    assert_eq!(host.1, vec![b("example.com")]);
    let xa = req.headers.iter().find(|e| e.0 == b("x-a")).expect("present");
    assert_eq!(xa.1, vec![b("1")]);
    // No second host entry survives the rewrite.
    assert_eq!(req.headers.iter().filter(|e| e.0 == b("host")).count(), 1);
}

#[test]
fn nonempty_body_is_binary() {
    let req = build_request_object(b("POST"), &b("example.com"), &b("/"), &vec![], b("payload"));
    match req.body.expect("a nonempty body is kept") {
        HttpBody::Binary(bytes) => assert_eq!(bytes, b("payload")),
        HttpBody::Text(_) => panic!("inbound bodies are binary"),
    }
}
