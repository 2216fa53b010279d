//! Session records for pod exec and port forwarding.
//!
//! A session is a plain record under a fresh random identifier; the
//! streaming itself is carried out elsewhere. The one outside call is the
//! identifier draw.

use vstd::prelude::*;

use crate::decimal::spec_decimal;
use crate::decimal::u64_to_decimal;

verus! {

/// Relies on uuid::Uuid::new_v4 and its Display form: a fresh random
/// version-4 identifier, rendered hyphenated in lower case, 36 characters.
/// Nothing else can be said of a random draw.
#[verifier::external_body]
fn fresh_session_id() -> (r: String)
    ensures
        r@.len() == 36,
{
    uuid::Uuid::new_v4().to_string()
}

/// One port-forward session: which resource is forwarded where.
#[derive(Debug)]
pub struct PortForwardSession {
    pub session_id: String,
    pub resource_type: String,
    pub resource_name: String,
    pub namespace: String,
    pub local_port: u16,
    pub remote_port: u16,
    pub container_name: Option<String>,
}

impl PortForwardSession {
    /// A new session over the given target, under a fresh identifier.
    pub fn new(
        resource_type: String,
        resource_name: String,
        namespace: String,
        local_port: u16,
        remote_port: u16,
        container_name: Option<String>,
    ) -> (s: PortForwardSession)
        ensures
            s.session_id@.len() == 36,
            s.resource_type == resource_type,
            s.resource_name == resource_name,
            s.namespace == namespace,
            s.local_port == local_port,
            s.remote_port == remote_port,
            s.container_name == container_name,
    {
        PortForwardSession {
            session_id: fresh_session_id(),
            resource_type,
            resource_name,
            namespace,
            local_port,
            remote_port,
            container_name,
        }
    }

    /// The local URL the forwarded resource is reachable under.
    pub fn url(&self) -> (r: String)
        ensures
            r@ == "http://localhost:"@ + spec_decimal(self.local_port as int),
    {
        let mut u = String::from_str("http://localhost:");
        let port = u64_to_decimal(self.local_port as u64);
        u.append(port.as_str());
        u
    }
}

/// Whether a port-forward target kind is supported: only pods and services
/// can be forwarded to.
pub fn forward_target_supported(resource_type: &String) -> (r: bool)
    ensures
        r == (resource_type@ == "pod"@ || resource_type@ == "service"@),
{
    resource_type.eq(&String::from_str("pod")) || resource_type.eq(&String::from_str("service"))
}

/// One exec session: which pod and container commands run in.
#[derive(Debug)]
pub struct ExecSession {
    pub session_id: String,
    pub pod_name: String,
    pub namespace: String,
    pub container_name: Option<String>,
}

impl ExecSession {
    /// A new session against the given pod, under a fresh identifier.
    pub fn new(pod_name: String, namespace: String, container_name: Option<String>) -> (s:
        ExecSession)
        ensures
            s.session_id@.len() == 36,
            s.pod_name == pod_name,
            s.namespace == namespace,
            s.container_name == container_name,
    {
        ExecSession { session_id: fresh_session_id(), pod_name, namespace, container_name }
    }
}

} // verus!
