//! In-cluster Kubernetes REST client: what is asked, and how an answer is read.
//!
//! The agent needs exactly four API calls (read node, list pods, watch pods, kubelet
//! `stats/summary`). Authentication uses the mounted ServiceAccount token, which is re-read for
//! every request because bound tokens are rotated by the kubelet.

use vstd::prelude::*;

use crate::json::{json_document, parse, Json};
use crate::keyed::{find, viewed, viewed_then_find, StringMap};
use crate::text::{joined, trim, trimmed};

verus! {

/// Seconds after which a one-shot API call is given up (a watch never is).
pub const REQUEST_TIMEOUT: u64 = 30;

/// Why a call came to nothing.
pub enum ClientError {
    /// The API server's address is not in the environment.
    NotInCluster,
    /// The answer was not a success; the text says what it was.
    Refused(String),
    /// The answer was no JSON document; the text says where it came from.
    Malformed(String),
}

impl ClientError {
    /// What the error says.
    pub open spec fn says(self) -> Seq<char> {
        match self {
            ClientError::NotInCluster =>
                "KUBERNETES_SERVICE_HOST not set (agent must run inside the cluster)"@,
            ClientError::Refused(text) => text@,
            ClientError::Malformed(text) => text@,
        }
    }

    /// The error as text.
    pub fn message(&self) -> (r: String)
        ensures
            r@ == self.says(),
    {
        match self {
            ClientError::NotInCluster =>
                "KUBERNETES_SERVICE_HOST not set (agent must run inside the cluster)".to_owned(),
            ClientError::Refused(text) => text.as_str().to_owned(),
            ClientError::Malformed(text) => text.as_str().to_owned(),
        }
    }
}

/// The base URL of the API server, `https://<host>:<port>`; the port is 443 where none is given.
pub open spec fn api_base_of(vars: Seq<(Seq<char>, Seq<char>)>) -> Option<Seq<char>> {
    match find(vars, "KUBERNETES_SERVICE_HOST"@) {
        Some(host) => Some(
            "https://"@ + host + ":"@ + match find(vars, "KUBERNETES_SERVICE_PORT"@) {
                Some(port) => port,
                None => "443"@,
            },
        ),
        None => None,
    }
}

/// The API server is found by its host, and by its port where one is given; without a host there is
/// no API server.
pub proof fn api_server_is_found_by_its_host(vars: Seq<(Seq<char>, Seq<char>)>, host: Seq<char>, port: Seq<char>)
    ensures
        find(vars, "KUBERNETES_SERVICE_HOST"@) is None ==> api_base_of(vars) is None,
        find(vars, "KUBERNETES_SERVICE_HOST"@) == Some(host) && find(vars, "KUBERNETES_SERVICE_PORT"@) == Some(port)
            ==> api_base_of(vars) == Some("https://"@ + host + ":"@ + port),
        find(vars, "KUBERNETES_SERVICE_HOST"@) == Some(host) && find(vars, "KUBERNETES_SERVICE_PORT"@) is None
            ==> api_base_of(vars) == Some("https://"@ + host + ":"@ + "443"@),
{
}

/// The base URL of the API server, from the standard in-cluster environment.
pub fn in_cluster(vars: &StringMap<String>) -> (r: Result<String, ClientError>)
    ensures
        match r {
            Ok(base) => api_base_of(viewed(vars@)) == Some(base@),
            Err(e) => api_base_of(viewed(vars@)) is None && e is NotInCluster,
        },
{
    proof {
        viewed_then_find(vars@, "KUBERNETES_SERVICE_HOST"@);
        viewed_then_find(vars@, "KUBERNETES_SERVICE_PORT"@);
    }
    match vars.get("KUBERNETES_SERVICE_HOST") {
        Some(host) => {
            let mut base: String = joined("https://", host.as_str());
            base.append(":");
            match vars.get("KUBERNETES_SERVICE_PORT") {
                Some(port) => base.append(port.as_str()),
                None => base.append("443"),
            }
            Ok(base)
        },
        None => Err(ClientError::NotInCluster),
    }
}

/// The bearer token in a ServiceAccount token file.
pub fn token(raw: &str) -> (r: String)
    ensures
        r@ == trimmed(raw@),
{
    trim(raw).to_owned()
}

/// The URL of an API path.
pub fn api_url(base: &str, path: &str) -> (r: String)
    ensures
        r@ == base@ + path@,
{
    joined(base, path)
}

/// Whether an HTTP status code says that a request succeeded.
pub fn is_success(code: u16) -> (r: bool)
    ensures
        r == (200 <= code < 300),
{
    200 <= code && code < 300
}

/// What is said of an answer that was not a success: `"GET <target> returned <status>: <body>"`.
pub open spec fn refusal(verb: Seq<char>, target: Seq<char>, status: Seq<char>, body: Seq<char>) -> Seq<char> {
    verb + " "@ + target + " returned "@ + status + ": "@ + body
}

/// The error for an answer that was not a success.
pub fn refused(verb: &str, target: &str, status: &str, body: &str) -> (r: ClientError)
    ensures
        r is Refused,
        r.says() == refusal(verb@, target@, status@, body@),
{
    let mut text: String = joined(verb, " ");
    text.append(target);
    text.append(" returned ");
    text.append(status);
    text.append(": ");
    text.append(body);
    ClientError::Refused(text)
}

/// The outcome of a one-shot call whose answer was a success: the document in its body, where the
/// body is one. `document` is what came of parsing the body.
pub fn read_document(target: &str, document: Option<Json>) -> (r: Result<Json, ClientError>)
    ensures
        match r {
            Ok(v) => document == Some(v),
            Err(e) => document is None && e is Malformed && e.says() == "parse JSON from "@ + target@,
        },
{
    match document {
        Some(v) => Ok(v),
        None => Err(ClientError::Malformed(joined("parse JSON from ", target))),
    }
}

/// The outcome of a one-shot call that was answered: the document in the body of a success, else
/// an error that says what was answered.
///
/// `status` is the status code with its reason as text; `text` is the body as text.
pub fn get_json(target: &str, code: u16, status: &str, body: &[u8], text: &str) -> (r: Result<
    Json,
    ClientError,
>)
    ensures
        match r {
            Ok(v) => 200 <= code < 300 && json_document(body@) == Some(v@),
            Err(ClientError::Refused(said)) => !(200 <= code < 300) && said@ == refusal(
                "GET"@,
                target@,
                status@,
                text@,
            ),
            Err(ClientError::Malformed(said)) => 200 <= code < 300 && json_document(body@) is None && said@
                == "parse JSON from "@ + target@,
            Err(ClientError::NotInCluster) => false,
        },
{
    if !is_success(code) {
        return Err(refused("GET", target, status, text));
    }
    read_document(target, parse(body))
}

} // verus!
