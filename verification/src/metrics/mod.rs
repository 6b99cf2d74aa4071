//! The metrics of the gateway: their names and the labels of their samples.

use vstd::prelude::*;
use crate::text::{decimal_string, digits_of, to_string};
use crate::types::ServiceType;

verus! {

/// The names of the metrics, in the order in which they are announced.
pub open spec fn metric_names() -> Seq<Seq<char>> {
    seq![
        "http_requests_total"@,
        "http_request_duration_seconds"@,
        "upstream_connections_total"@,
        "rate_limit_hits_total"@,
        "retry_attempts_total"@,
        "active_connections"@,
    ]
}

/// The labels of a sample of `http_requests_total`: method, status and service.
pub open spec fn request_labels_of(method: Seq<char>, status: u16, service: ServiceType) -> Seq<
    Seq<char>,
> {
    seq![method, digits_of(status as nat), service.metric_label_of()]
}

/// The labels of a sample of `retry_attempts_total`: the service, and
/// `attempt` for a retry or `failed` when no retry is left.
pub open spec fn retry_labels_of(service: ServiceType, retry: bool) -> Seq<Seq<char>> {
    seq![
        service.metric_label_of(),
        if retry {
            "attempt"@
        } else {
            "failed"@
        },
    ]
}

/// The names of the metrics that the gateway keeps.
pub fn init_metrics() -> (names: Vec<String>)
    ensures
        names.deep_view() == metric_names(),
{
    let mut names: Vec<String> = Vec::new();
    names.push(to_string("http_requests_total"));
    names.push(to_string("http_request_duration_seconds"));
    names.push(to_string("upstream_connections_total"));
    names.push(to_string("rate_limit_hits_total"));
    names.push(to_string("retry_attempts_total"));
    names.push(to_string("active_connections"));
    assert(names.deep_view() =~= metric_names());
    names
}

/// The labels under which a request is counted.
pub fn request_labels(method: &str, status: u16, service: ServiceType) -> (labels: Vec<String>)
    ensures
        labels.deep_view() == request_labels_of(method@, status, service),
{
    let mut labels: Vec<String> = Vec::new();
    labels.push(to_string(method));
    labels.push(decimal_string(status as u64));
    labels.push(to_string(service.metric_label()));
    assert(labels.deep_view() =~= request_labels_of(method@, status, service));
    labels
}

/// The labels under which a failed connection is counted.
pub fn retry_labels(service: ServiceType, retry: bool) -> (labels: Vec<String>)
    ensures
        labels.deep_view() == retry_labels_of(service, retry),
{
    let mut labels: Vec<String> = Vec::new();
    labels.push(to_string(service.metric_label()));
    if retry {
        labels.push(to_string("attempt"));
    } else {
        labels.push(to_string("failed"));
    }
    assert(labels.deep_view() =~= retry_labels_of(service, retry));
    labels
}

} // verus!
