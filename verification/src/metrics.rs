//! Plain records of the metrics API and of pod events, as the library sees
//! them: every field a plain value. The unverified shell fetches and
//! decodes the wire form and converts into these.

use vstd::prelude::*;

use crate::text::contains_substring;
use crate::text::spec_contains_seq;
use crate::text::str_to_chars;

verus! {

/// Whether a metrics API probe response actually carries metrics data:
/// the check the availability probe applies to the response body.
pub fn metrics_response_has_data(response: &str) -> (r: bool)
    ensures
        r == (spec_contains_seq(response@, "items"@) || spec_contains_seq(response@, "nodes"@)),
{
    let text = str_to_chars(response);
    let items = str_to_chars("items");
    let nodes = str_to_chars("nodes");
    contains_substring(&text, &items) || contains_substring(&text, &nodes)
}

/// The node metrics listing of the metrics API.
#[derive(Debug)]
pub struct NodeMetricsList {
    pub items: Vec<NodeMetrics>,
}

/// One node's usage snapshot.
#[derive(Debug)]
pub struct NodeMetrics {
    pub metadata: NodeMetadata,
    pub timestamp: String,
    pub window: String,
    pub usage: NodeUsage,
}

/// Identity of the node a snapshot belongs to.
#[derive(Debug)]
pub struct NodeMetadata {
    pub name: String,
    pub creation_timestamp: Option<String>,
}

/// Usage quantities of one node, in the cluster's quantity notation.
#[derive(Debug)]
pub struct NodeUsage {
    pub cpu: String,
    pub memory: String,
}

/// One event attached to a pod, reshaped for the UI.
#[derive(Debug)]
pub struct PodEvent {
    pub type_: String,
    pub reason: String,
    pub message: String,
    pub first_timestamp: Option<String>,
    pub last_timestamp: Option<String>,
    pub count: Option<i32>,
    pub involved_object: Option<InvolvedObject>,
}

/// The object a pod event speaks of.
#[derive(Debug)]
pub struct InvolvedObject {
    pub kind: String,
    pub name: String,
    pub namespace: Option<String>,
}

} // verus!
