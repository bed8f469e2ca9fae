//! Scheduling and routing core of a multi-tenant serverless-worker proxy.
//!
//! The library holds the decision logic of the scheduler: routing a request
//! to an application, pooling and expiring worker instances, selecting the
//! least-loaded runtime, driving the retry loop of a forwarded request, and
//! reconciling the live state against a freshly fetched configuration. All
//! network traffic (HTTP serving, RPC to runtimes, config and script
//! fetches) is performed by the surrounding binary, which feeds the results
//! back into these verified functions as plain values.

use vstd::prelude::*;

pub mod bytes;
pub mod forward;
pub mod laws;
pub mod pool;
pub mod reconcile;
pub mod registry;
pub mod router;
pub mod sched;
pub mod types;

verus! {

/// Milliseconds elapsed between a past monotonic reading and now; zero if
/// the clock reads earlier than the recorded point.
pub open spec fn elapsed_ms(now: u64, earlier: u64) -> int {
    if now >= earlier {
        now - earlier
    } else {
        0
    }
}

} // verus!
