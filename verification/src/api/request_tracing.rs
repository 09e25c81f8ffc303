//! Identifiers of requests, and the count of requests and failures.

use crate::api::observability::{counted, MetricsCollector};
use crate::sys::{is_random_id, new_id, parse_id, parsed_id};
use vstd::prelude::*;

verus! {

/// Counts requests and their failures, and gives every request an
/// identifier by which its traces are found.
#[derive(Debug)]
pub struct RequestTracing {
    pub metrics: MetricsCollector,
}

/// Whether a status tells of a failure: an error of the client (400 to
/// 499) or of the server (500 to 599).
pub open spec fn is_failure_status(status: u16) -> bool {
    400 <= status <= 599
}

/// Whether a request failed: it got no answer at all, or one whose status
/// tells of a failure.
pub open spec fn failed(status: Option<u16>) -> bool {
    match status {
        Some(s) => is_failure_status(s),
        None => true,
    }
}

/// The identifier of a request whose header, if it had one, was read as
/// `parsed`: the one read, or a fresh random one.
pub fn resolve_id(parsed: Option<u128>) -> (id: u128)
    ensures
        parsed matches Some(given) ==> id == given,
        parsed is None ==> is_random_id(id),
{
    match parsed {
        Some(id) => id,
        None => new_id(),
    }
}

/// The identifier of a request with the given correlation header: the one
/// the header names, or a fresh random one where there is no header or it
/// names none.
pub fn correlation_id(header: Option<&str>) -> (id: u128)
    ensures
        match header {
            Some(h) => match parsed_id(h@) {
                Some(given) => id == given,
                None => is_random_id(id),
            },
            None => is_random_id(id),
        },
{
    let parsed = match header {
        Some(h) => parse_id(h),
        None => None,
    };
    resolve_id(parsed)
}

impl RequestTracing {
    pub fn new(metrics: MetricsCollector) -> (tracing: RequestTracing)
        ensures
            tracing.metrics == metrics,
    {
        RequestTracing { metrics }
    }

    /// Takes in the start of a request: counts it, and gives it its
    /// identifier (see [`correlation_id`]).
    pub fn begin(&mut self, header: Option<&str>) -> (id: u128)
        ensures
            final(self).metrics.http_requests_total == counted(old(self).metrics.http_requests_total),
            final(self).metrics.http_errors_total == old(self).metrics.http_errors_total,
            final(self).metrics.start_time == old(self).metrics.start_time,
            match header {
                Some(h) => match parsed_id(h@) {
                    Some(given) => id == given,
                    None => is_random_id(id),
                },
                None => is_random_id(id),
            },
    {
        self.metrics.record_request();
        correlation_id(header)
    }

    /// Takes in the end of a request with the status of its answer, or
    /// with none where it got no answer: counts a failure, and says whether
    /// it was one.
    pub fn finish(&mut self, status: Option<u16>) -> (failure: bool)
        ensures
            failure == failed(status),
            final(self).metrics.http_errors_total == if failed(status) {
                counted(old(self).metrics.http_errors_total)
            } else {
                old(self).metrics.http_errors_total
            },
            final(self).metrics.http_requests_total == old(self).metrics.http_requests_total,
            final(self).metrics.start_time == old(self).metrics.start_time,
    {
        let failure = match status {
            Some(s) => 400 <= s && s <= 599,
            None => true,
        };
        if failure {
            self.metrics.record_error();
        }
        failure
    }
}

} // verus!
