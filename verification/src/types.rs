//! Data model of the scheduler: identifiers, configuration, the request and
//! response shapes exchanged with runtimes, and the error taxonomy.

use vstd::prelude::*;

verus! {

/// Opaque identifier of a tenant application.
#[derive(Clone, Debug)]
pub struct AppId(pub Vec<u8>);

impl AppId {
    /// A fresh copy of this identifier.
    pub fn duplicate(&self) -> (r: AppId)
        ensures
            r.0@ == self.0@,
    {
        AppId(crate::bytes::copy_bytes(&self.0))
    }
}

/// Opaque identifier of a worker runtime process, learned by querying the
/// runtime itself.
#[derive(Clone, Debug)]
pub struct RuntimeId(pub Vec<u8>);

impl RuntimeId {
    /// A fresh copy of this identifier.
    pub fn duplicate(&self) -> (r: RuntimeId)
        ensures
            r.0@ == self.0@,
    {
        RuntimeId(crate::bytes::copy_bytes(&self.0))
    }
}

/// Opaque handle of a spawned worker; later fetches quote it.
#[derive(Clone, Debug)]
pub struct WorkerHandle(pub Vec<u8>);

/// Worker configuration blob: opaque to the scheduler and forwarded
/// verbatim to runtimes at spawn time.
#[derive(Clone, Debug)]
pub struct WorkerConfiguration(pub Vec<u8>);

/// One (domain, path-prefix) binding of an application.
#[derive(Clone, Debug)]
pub struct AppRoute {
    pub domain: Vec<u8>,
    pub path_prefix: Vec<u8>,
}

/// Per-application entry of the configuration document. `script` is the
/// URL the application's code is fetched from.
#[derive(Clone, Debug)]
pub struct AppConfig {
    pub id: AppId,
    pub routes: Vec<AppRoute>,
    pub script: Vec<u8>,
    pub worker: WorkerConfiguration,
}

/// Process-wide configuration, replaced as a whole on reconciliation.
#[derive(Clone, Debug)]
pub struct Config {
    /// Network addresses behind which runtimes are discovered.
    pub runtime_cluster: Vec<Vec<u8>>,
    pub apps: Vec<AppConfig>,
    pub instance_expiration_time_ms: u64,
    pub request_timeout_ms: u64,
    pub max_request_body_size_bytes: u64,
}

impl Default for Config {
    /// Empty cluster and app list; expiry 9 minutes, request timeout 30
    /// seconds, body cap 2 MiB.
    fn default() -> (r: Config)
        ensures
            r.runtime_cluster@ =~= Seq::<Vec<u8>>::empty(),
            r.apps@ =~= Seq::<AppConfig>::empty(),
            r.instance_expiration_time_ms == 540000,
            r.request_timeout_ms == 30000,
            r.max_request_body_size_bytes == 2097152,
    {
        Config {
            runtime_cluster: Vec::new(),
            apps: Vec::new(),
            instance_expiration_time_ms: 540000,
            request_timeout_ms: 30000,
            max_request_body_size_bytes: 2097152,
        }
    }
}

/// Deep equality of two routes.
pub open spec fn route_eq_spec(a: AppRoute, b: AppRoute) -> bool {
    a.domain@ == b.domain@ && a.path_prefix@ == b.path_prefix@
}

/// Deep equality of two application entries.
pub open spec fn app_config_eq_spec(a: AppConfig, b: AppConfig) -> bool {
    &&& a.id.0@ == b.id.0@
    &&& a.script@ == b.script@
    &&& a.worker.0@ == b.worker.0@
    &&& a.routes@.len() == b.routes@.len()
    &&& forall|i: int| 0 <= i < a.routes@.len() ==> route_eq_spec(a.routes@[i], b.routes@[i])
}

/// Deep equality of two configurations; reconciliation installs a new
/// configuration only when this does not hold.
pub open spec fn config_eq_spec(a: Config, b: Config) -> bool {
    &&& a.runtime_cluster@.len() == b.runtime_cluster@.len()
    &&& forall|i: int|
        0 <= i < a.runtime_cluster@.len() ==> a.runtime_cluster@[i]@ == b.runtime_cluster@[i]@
    &&& a.apps@.len() == b.apps@.len()
    &&& forall|i: int| 0 <= i < a.apps@.len() ==> app_config_eq_spec(a.apps@[i], b.apps@[i])
    &&& a.instance_expiration_time_ms == b.instance_expiration_time_ms
    &&& a.request_timeout_ms == b.request_timeout_ms
    &&& a.max_request_body_size_bytes == b.max_request_body_size_bytes
}

fn route_eq(a: &AppRoute, b: &AppRoute) -> (r: bool)
    ensures
        r == route_eq_spec(*a, *b),
{
    crate::bytes::bytes_eq(&a.domain, &b.domain) && crate::bytes::bytes_eq(
        &a.path_prefix,
        &b.path_prefix,
    )
}

fn app_config_eq(a: &AppConfig, b: &AppConfig) -> (r: bool)
    ensures
        r == app_config_eq_spec(*a, *b),
{
    if !crate::bytes::bytes_eq(&a.id.0, &b.id.0) {
        return false;
    }
    if !crate::bytes::bytes_eq(&a.script, &b.script) {
        return false;
    }
    if !crate::bytes::bytes_eq(&a.worker.0, &b.worker.0) {
        return false;
    }
    if a.routes.len() != b.routes.len() {
        return false;
    }
    let mut i: usize = 0;
    while i < a.routes.len()
        invariant
            i <= a.routes.len(),
            a.routes.len() == b.routes.len(),
            a.id.0@ == b.id.0@,
            a.script@ == b.script@,
            a.worker.0@ == b.worker.0@,
            forall|j: int| 0 <= j < i ==> route_eq_spec(a.routes@[j], b.routes@[j]),
        decreases a.routes.len() - i,
    {
        if !route_eq(&a.routes[i], &b.routes[i]) {
            return false;
        }
        i += 1;
    }
    true
}

/// Decides deep equality of two configurations.
pub fn config_eq(a: &Config, b: &Config) -> (r: bool)
    ensures
        r == config_eq_spec(*a, *b),
{
    if a.instance_expiration_time_ms != b.instance_expiration_time_ms {
        return false;
    }
    if a.request_timeout_ms != b.request_timeout_ms {
        return false;
    }
    if a.max_request_body_size_bytes != b.max_request_body_size_bytes {
        return false;
    }
    if a.runtime_cluster.len() != b.runtime_cluster.len() {
        return false;
    }
    let mut i: usize = 0;
    while i < a.runtime_cluster.len()
        invariant
            i <= a.runtime_cluster.len(),
            a.runtime_cluster.len() == b.runtime_cluster.len(),
            forall|j: int| 0 <= j < i ==> a.runtime_cluster@[j]@ == b.runtime_cluster@[j]@,
        decreases a.runtime_cluster.len() - i,
    {
        if !crate::bytes::bytes_eq(&a.runtime_cluster[i], &b.runtime_cluster[i]) {
            return false;
        }
        i += 1;
    }
    if a.apps.len() != b.apps.len() {
        return false;
    }
    let mut k: usize = 0;
    while k < a.apps.len()
        invariant
            k <= a.apps.len(),
            a.apps.len() == b.apps.len(),
            a.runtime_cluster.len() == b.runtime_cluster.len(),
            forall|j: int| 0 <= j < a.runtime_cluster@.len() ==> a.runtime_cluster@[j]@ == b.runtime_cluster@[j]@,
            a.instance_expiration_time_ms == b.instance_expiration_time_ms,
            a.request_timeout_ms == b.request_timeout_ms,
            a.max_request_body_size_bytes == b.max_request_body_size_bytes,
            forall|j: int| 0 <= j < k ==> app_config_eq_spec(a.apps@[j], b.apps@[j]),
        decreases a.apps.len() - k,
    {
        if !app_config_eq(&a.apps[k], &b.apps[k]) {
            return false;
        }
        k += 1;
    }
    true
}

/// Body of a request or response handed to or returned by a worker.
#[derive(Clone, Debug)]
pub enum HttpBody {
    Text(Vec<u8>),
    Binary(Vec<u8>),
}

/// Request shape forwarded to a worker over the runtime RPC surface.
/// Headers are a multimap: one entry per distinct name, values in arrival
/// order.
#[derive(Clone, Debug)]
pub struct RequestObject {
    pub method: Vec<u8>,
    pub url: Vec<u8>,
    pub headers: Vec<(Vec<u8>, Vec<Vec<u8>>)>,
    pub body: Option<HttpBody>,
}

/// Response shape returned by a worker.
#[derive(Clone, Debug)]
pub struct ResponseObject {
    pub status: u16,
    pub headers: Vec<(Vec<u8>, Vec<Vec<u8>>)>,
    pub body: HttpBody,
}

/// Application-level error returned by a runtime from a successful RPC.
/// The scheduler only distinguishes `NoSuchWorker` from everything else.
#[derive(Clone, Copy, Debug, PartialEq, Eq, Structural)]
pub enum GenericError {
    NoSuchWorker,
    Other,
}

/// Scheduler error taxonomy; each maps to a distinct client status.
#[derive(Clone, Copy, Debug, PartialEq, Eq, Structural)]
pub enum SchedError {
    NoAvailableInstance,
    NoRouteMapping,
    RequestBodyTooLarge,
    RequestFailedAfterRetries,
}

/// Reconciliation error: the configuration document could not be fetched.
#[derive(Clone, Copy, Debug, PartialEq, Eq, Structural)]
pub enum ConfigurationError {
    FetchConfig,
}

impl SchedError {
    /// HTTP status shown to the client for this error.
    pub open spec fn status_spec(self) -> u16 {
        match self {
            SchedError::NoAvailableInstance => 503,
            SchedError::NoRouteMapping => 502,
            SchedError::RequestBodyTooLarge => 413,
            SchedError::RequestFailedAfterRetries => 503,
        }
    }

    /// HTTP status shown to the client for this error; the response body
    /// is the status's reason phrase, added by the serving layer.
    pub fn status_code(&self) -> (r: u16)
        ensures
            r == self.status_spec(),
    {
        match self {
            SchedError::NoAvailableInstance => 503,
            SchedError::NoRouteMapping => 502,
            SchedError::RequestBodyTooLarge => 413,
            SchedError::RequestFailedAfterRetries => 503,
        }
    }
}

} // verus!
