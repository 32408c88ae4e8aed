//! Orchestrator auto-detection.
//!
//! The agent decides at startup whether it runs inside a Kubernetes cluster (k3s or any conformant
//! distribution) or next to a Docker Engine (Swarm or standalone). An explicit `AGENT_MODE` always
//! wins; in `auto` mode the in-cluster ServiceAccount markers are checked first, because on k3s
//! the Docker socket usually does not exist while the `KUBERNETES_*` environment is always
//! injected into pods.

use vstd::prelude::*;

use crate::config::AgentMode;

verus! {

/// Directory of the in-cluster ServiceAccount files mounted into every pod.
pub const SERVICEACCOUNT_DIR: &'static str = "/var/run/secrets/kubernetes.io/serviceaccount";

/// Resolved orchestrator mode.
#[derive(Debug, Clone, Copy, PartialEq, Eq, Structural)]
pub enum Mode {
    /// Talk to a Docker Engine (Swarm node or standalone daemon).
    Docker,
    /// Talk to the Kubernetes API server and kubelet.
    Kubernetes,
}

impl Mode {
    /// Human-readable name used in logs.
    pub fn as_str(&self) -> (r: &'static str)
        ensures
            r@ == match *self {
                Mode::Docker => "docker"@,
                Mode::Kubernetes => "kubernetes"@,
            },
    {
        match self {
            Mode::Docker => "docker",
            Mode::Kubernetes => "kubernetes",
        }
    }
}

/// Whether a ServiceAccount token and the address of the API server, where there is one, are those of
/// a pod.
pub open spec fn is_pod(token_is_file: bool, service_host: Option<Seq<char>>) -> bool {
    token_is_file && (service_host matches Some(host) && host.len() > 0)
}

/// A pod has both a token and an address that is not empty.
pub proof fn pods_have_token_and_address(token_is_file: bool, host: Seq<char>)
    ensures
        is_pod(token_is_file, Some(host)) <==> token_is_file && host.len() > 0,
        !is_pod(token_is_file, None),
{
}

/// Whether the process appears to run inside a Kubernetes pod: the ServiceAccount token is mounted
/// and the API server's address is in the environment.
pub fn in_cluster(token_is_file: bool, service_host: Option<&str>) -> (r: bool)
    ensures
        r == is_pod(
            token_is_file,
            match service_host {
                Some(host) => Some(host@),
                None => None,
            },
        ),
{
    match service_host {
        Some(host) => token_is_file && host.unicode_len() > 0,
        None => false,
    }
}

/// The mode for a request and what was detected.
pub open spec fn resolved(requested: AgentMode, kubernetes_detected: bool) -> Mode {
    match requested {
        AgentMode::Docker => Mode::Docker,
        AgentMode::Kubernetes => Mode::Kubernetes,
        AgentMode::Auto => if kubernetes_detected {
            Mode::Kubernetes
        } else {
            Mode::Docker
        },
    }
}

/// An explicit mode wins over detection.
pub proof fn explicit_mode_wins(requested: AgentMode, kubernetes_detected: bool)
    requires
        requested != AgentMode::Auto,
    ensures
        resolved(requested, kubernetes_detected) == resolved(requested, !kubernetes_detected),
        resolved(requested, kubernetes_detected) == Mode::Docker <==> requested == AgentMode::Docker,
{
}

/// Without an explicit mode detection decides.
pub proof fn detection_decides_in_auto_mode(kubernetes_detected: bool)
    ensures
        (resolved(AgentMode::Auto, kubernetes_detected) == Mode::Kubernetes) == kubernetes_detected,
{
}

/// Resolves the requested [`AgentMode`] to a concrete [`Mode`].
///
/// `kubernetes_detected` is the result of [`in_cluster`].
pub fn resolve(requested: AgentMode, kubernetes_detected: bool) -> (r: Mode)
    ensures
        r == resolved(requested, kubernetes_detected),
{
    match requested {
        AgentMode::Docker => Mode::Docker,
        AgentMode::Kubernetes => Mode::Kubernetes,
        AgentMode::Auto => {
            if kubernetes_detected {
                Mode::Kubernetes
            } else {
                Mode::Docker
            }
        },
    }
}

} // verus!
