//! The answers to requests about the service itself.

use crate::http_protocol::state::HttpState;
use crate::metrics::Metrics;
use vstd::prelude::*;

verus! {

/// Answers a request for a sign of life.
pub fn heartbeat() -> (r: &'static str)
    ensures
        r@ == "heartbeat"@,
{
    "heartbeat"
}

/// Answers a request for the metrics.
pub fn metrics(state: &HttpState) -> (r: Metrics)
    ensures
        r.describes(state.registry@),
{
    state.registry.metrics()
}

/// The path under which the web user interface is served.
pub fn ui() -> (r: String)
    ensures
        r@ == "ui"@,
{
    "ui".to_owned()
}

} // verus!
