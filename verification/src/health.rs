//! Mapping an admission verdict to the HTTP health response.

use vstd::prelude::*;
use crate::admission::admits;
use crate::admission::verdict_of;
use crate::inspect::CommandOutcome;
use crate::inspect::InspectError;
use crate::inspect::observation_of;

verus! {

/// The response of the health endpoint: an HTTP status code and a body.
pub struct HealthResponse {
    /// 200 when traffic is admitted, 503 when not.
    pub status: u16,
    /// Exactly the text `true` or `false`.
    pub body: String,
}

/// Builds the response from a boolean: status 200 with body `true` when
/// traffic is admitted, status 503 with body `false` when not.
pub fn health_response(verdict: bool) -> (response: HealthResponse)
    ensures
        response.status == (if verdict { 200int } else { 503int }),
        response.body@ == (if verdict { "true"@ } else { "false"@ }),
{
    if verdict {
        HealthResponse { status: 200, body: "true".to_owned() }
    } else {
        HealthResponse { status: 503, body: "false".to_owned() }
    }
}

/// Builds the health response for one observation: the verdict is computed by
/// the admission rule and mapped to status and body.  An inspection failure
/// surfaces only as `503 "false"`, never as an error.
pub fn respond(
    observation: &Result<i32, InspectError>,
    max_queue_length: i32,
) -> (response: HealthResponse)
    ensures
        response.status == (if verdict_of(*observation, max_queue_length as int) {
            200int
        } else {
            503int
        }),
        response.body@ == (if verdict_of(*observation, max_queue_length as int) {
            "true"@
        } else {
            "false"@
        }),
{
    let verdict = crate::admission::can_take_more_traffic(observation, max_queue_length);
    health_response(verdict)
}

/// The verdict for a whole health check, from the raw command outcome: what
/// the outcome observes, put through the admission rule, failing closed.
pub open spec fn health_verdict(outcome: CommandOutcome, max_queue_length: int) -> bool {
    match observation_of(outcome) {
        Ok(depth) => admits(depth, max_queue_length),
        Err(_) => false,
    }
}

/// Handles one health check end to end: interprets the command outcome,
/// decides admission, and maps the verdict to the response.  Admission is
/// `200 "true"`; everything else, any inspection failure included, is
/// `503 "false"`.
pub fn handle_health_check(outcome: &CommandOutcome, max_queue_length: i32) -> (response:
    HealthResponse)
    ensures
        response.status == (if health_verdict(*outcome, max_queue_length as int) {
            200int
        } else {
            503int
        }),
        response.body@ == (if health_verdict(*outcome, max_queue_length as int) {
            "true"@
        } else {
            "false"@
        }),
{
    let observation = crate::inspect::inspect(outcome);
    respond(&observation, max_queue_length)
}

/// A failed inspection — timeout, command failure, or malformed output —
/// never admits traffic: the health check answers `503 "false"` and no error
/// reaches the HTTP layer.
pub proof fn lemma_failure_yields_unavailable(outcome: CommandOutcome, max_queue_length: int)
    requires
        observation_of(outcome) is Err,
    ensures
        !health_verdict(outcome, max_queue_length),
{
}

} // verus!
