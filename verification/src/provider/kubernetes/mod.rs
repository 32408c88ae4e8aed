//! Kubernetes (k3s and other conformant clusters).
//!
//! The agent runs as a DaemonSet pod. Per stats tick it reads:
//!
//! 1. its own Node object (identity, versions, capacity),
//! 2. the kubelet Summary API (node and per-container metrics), directly on port 10250 or through
//!    the API server proxy,
//! 3. the list of pods scheduled on the node (memory limits, workload owners).
//!
//! Events come from a pod watch scoped to this node.

pub mod client;
pub mod events;
pub mod pods;
pub mod summary;
pub mod watch;

use vstd::prelude::*;

use crate::binary64::{Binary64, Real64};
use crate::config::{Config, KubeletMode};
use crate::json::{
    as_items, as_text, get, items_of, member, text_of, text_or_empty, Json, Tree,
};
use crate::keyed::{viewed, StringMap};
use crate::models::{ContainerStatus, CpuStatus, DiskStatus, MemoryStatus, Report, Status};
use crate::provider::kubernetes::pods::{
    amount_of, bytes_of, listed_metas, parse_pod_metas, parse_quantity_bytes, parse_quantity_cores, Meta, PodMeta,
};
use crate::provider::kubernetes::summary::{
    all_snapshots, container_statuses, each_container_is_reported, node_disk, node_load, node_memory, node_status_parts,
    reported_in, Summary,
};
use crate::text::{chars_of, joined, same};

verus! {

// ── The node ─────────────────────────────────────────────────────────────────

/// Identity and capacity extracted from a `v1.Node` object.
pub struct NodeMeta {
    pub hostname: String,
    pub engine_version: String,
    pub api_version: String,
    pub kernel_version: String,
    pub capacity_cores: Binary64,
    pub capacity_mem_bytes: u64,
    pub internal_ip: Option<String>,
}

/// What a [`NodeMeta`] says.
pub struct NodeFacts {
    pub hostname: Seq<char>,
    pub engine_version: Seq<char>,
    pub api_version: Seq<char>,
    pub kernel_version: Seq<char>,
    pub capacity_cores: Real64,
    pub capacity_mem_bytes: int,
    pub internal_ip: Option<Seq<char>>,
}

impl View for NodeMeta {
    type V = NodeFacts;

    open spec fn view(&self) -> NodeFacts {
        NodeFacts {
            hostname: self.hostname@,
            engine_version: self.engine_version@,
            api_version: self.api_version@,
            kernel_version: self.kernel_version@,
            capacity_cores: self.capacity_cores@,
            capacity_mem_bytes: self.capacity_mem_bytes as int,
            internal_ip: chars_of(self.internal_ip),
        }
    }
}

/// The first address of the type `InternalIP` that is a string.
pub open spec fn internal_address(addresses: Seq<Tree>) -> Option<Seq<char>>
    decreases addresses.len(),
{
    if addresses.len() == 0 {
        None
    } else {
        match (member(Some(addresses[0]), "type"@), member(Some(addresses[0]), "address"@)) {
            (Some(Tree::Text(kind)), Some(Tree::Text(address))) => if kind == "InternalIP"@ {
                Some(address)
            } else {
                internal_address(addresses.drop_first())
            },
            _ => internal_address(addresses.drop_first()),
        }
    }
}

/// What a Node object says. Missing fields are empty texts and zeros.
pub open spec fn facts_of(node: Tree) -> NodeFacts {
    let metadata = member(Some(node), "metadata"@);
    let status = member(Some(node), "status"@);
    let info = member(status, "nodeInfo"@);
    let capacity = member(status, "capacity"@);
    let label = text_of(member(member(metadata, "labels"@), "kubernetes.io/hostname"@));
    NodeFacts {
        hostname: if label.len() > 0 {
            label
        } else {
            text_of(member(metadata, "name"@))
        },
        engine_version: text_of(member(info, "containerRuntimeVersion"@)),
        api_version: text_of(member(info, "kubeletVersion"@)),
        kernel_version: text_of(member(info, "kernelVersion"@)),
        capacity_cores: match member(capacity, "cpu"@) {
            Some(Tree::Text(raw)) => match amount_of(raw) {
                Some(cores) => cores,
                None => Real64::zero(),
            },
            _ => Real64::zero(),
        },
        capacity_mem_bytes: match member(capacity, "memory"@) {
            Some(Tree::Text(raw)) => match bytes_of(raw) {
                Some(bytes) => bytes as int,
                None => 0,
            },
            _ => 0,
        },
        internal_ip: match items_of(member(status, "addresses"@)) {
            Some(addresses) => internal_address(addresses),
            None => None,
        },
    }
}

/// The addresses of a Node object, none where there is no such list.
pub open spec fn addresses_in(node: Tree) -> Seq<Tree> {
    match member(member(Some(node), "status"@), "addresses"@) {
        Some(Tree::Array(addresses)) => addresses,
        _ => seq![],
    }
}

/// Whether an address is of the type `InternalIP` and a string.
pub open spec fn is_internal(address: Tree) -> bool {
    member(Some(address), "type"@) == Some(Tree::Text("InternalIP"@)) && member(Some(address), "address"@) matches Some(
        Tree::Text(_),
    )
}

proof fn lemma_internal_address(addresses: Seq<Tree>, i: int)
    requires
        0 <= i <= addresses.len(),
        forall|j: int| 0 <= j < i ==> !is_internal(#[trigger] addresses[j]),
        i < addresses.len() ==> is_internal(addresses[i]),
    ensures
        internal_address(addresses) == if i < addresses.len() {
            Some(text_of(member(Some(addresses[i]), "address"@)))
        } else {
            None
        },
    decreases addresses.len(),
{
    if addresses.len() > 0 && i > 0 {
        let rest = addresses.drop_first();
        assert(!is_internal(addresses[0]));
        assert forall|j: int| 0 <= j < i - 1 implies !is_internal(#[trigger] rest[j]) by {
            assert(rest[j] == addresses[j + 1]);
        }
        lemma_internal_address(rest, i - 1);
    }
}

/// The address of a node is its first internal one; a node without one has none.
pub proof fn first_internal_address_is_taken(node: Tree, i: int)
    requires
        0 <= i <= addresses_in(node).len(),
        forall|j: int| 0 <= j < i ==> !is_internal(#[trigger] addresses_in(node)[j]),
        i < addresses_in(node).len() ==> is_internal(addresses_in(node)[i]),
    ensures
        i < addresses_in(node).len() ==> member(Some(addresses_in(node)[i]), "address"@) == Some(
            Tree::Text(facts_of(node).internal_ip->0),
        ) && facts_of(node).internal_ip is Some,
        i == addresses_in(node).len() ==> facts_of(node).internal_ip is None,
{
    lemma_internal_address(addresses_in(node), i);
}

/// Whether `taken` is the text at `node`, or empty where there is none.
pub open spec fn is_text_at(taken: Seq<char>, node: Option<Tree>) -> bool {
    match node {
        Some(Tree::Text(s)) => taken == s,
        _ => taken.len() == 0,
    }
}

/// What a Node object is called: as its host name label says, where there is one that is not empty,
/// else as its own name says. Its versions are those of the container runtime, the kubelet and the
/// kernel.
pub proof fn node_is_called_by_its_label(node: Tree)
    ensures
        ({
            let facts = facts_of(node);
            let metadata = member(Some(node), "metadata"@);
            let label = member(member(metadata, "labels"@), "kubernetes.io/hostname"@);
            let info = member(member(Some(node), "status"@), "nodeInfo"@);
            &&& label matches Some(Tree::Text(s)) ==> (s.len() > 0 ==> facts.hostname == s)
            &&& label == Some(Tree::Text(Seq::empty())) || !(label matches Some(Tree::Text(_))) ==> is_text_at(
                facts.hostname,
                member(metadata, "name"@),
            )
            &&& is_text_at(facts.engine_version, member(info, "containerRuntimeVersion"@))
            &&& is_text_at(facts.api_version, member(info, "kubeletVersion"@))
            &&& is_text_at(facts.kernel_version, member(info, "kernelVersion"@))
        }),
{
}

/// What a Node object has: the cores and the bytes of memory that the quantities in its capacity
/// write, none where one cannot be read.
pub proof fn capacity_is_what_the_quantities_write(node: Tree, raw: Seq<char>)
    ensures
        ({
            let facts = facts_of(node);
            let capacity = member(member(Some(node), "status"@), "capacity"@);
            &&& member(capacity, "cpu"@) == Some(Tree::Text(raw)) && amount_of(raw) is Some
                ==> facts.capacity_cores == amount_of(raw)->0
            &&& member(capacity, "cpu"@) == Some(Tree::Text(raw)) && amount_of(raw) is None
                ==> facts.capacity_cores == Real64::zero()
            &&& !(member(capacity, "cpu"@) matches Some(Tree::Text(_))) ==> facts.capacity_cores == Real64::zero()
            &&& member(capacity, "memory"@) == Some(Tree::Text(raw)) && bytes_of(raw) is Some
                ==> facts.capacity_mem_bytes == bytes_of(raw)->0
            &&& member(capacity, "memory"@) == Some(Tree::Text(raw)) && bytes_of(raw) is None
                ==> facts.capacity_mem_bytes == 0
            &&& !(member(capacity, "memory"@) matches Some(Tree::Text(_))) ==> facts.capacity_mem_bytes == 0
        }),
{
}

fn find_internal_address(addresses: &Vec<Json>, Ghost(all): Ghost<Seq<Tree>>) -> (r: Option<String>)
    requires
        all.len() == addresses@.len(),
        forall|j: int| 0 <= j < all.len() ==> #[trigger] all[j] == addresses@[j]@,
    ensures
        chars_of(r) == internal_address(all),
{
    let mut i: usize = 0;
    proof {
        assert(all.skip(0) =~= all);
    }
    while i < addresses.len()
        invariant
            i <= addresses.len(),
            all.len() == addresses@.len(),
            forall|j: int| 0 <= j < all.len() ==> #[trigger] all[j] == addresses@[j]@,
            internal_address(all) == internal_address(all.skip(i as int)),
        decreases addresses.len() - i,
    {
        proof {
            assert(all.skip(i as int)[0] == all[i as int]);
            assert(all.skip(i as int).drop_first() =~= all.skip(i + 1));
        }
        let entry: Option<&Json> = Some(&addresses[i]);
        if let Some(kind) = as_text(get(entry, "type")) {
            if same(kind, "InternalIP") {
                if let Some(address) = as_text(get(entry, "address")) {
                    return Some(address.to_owned());
                }
            }
        }
        i = i + 1;
    }
    None
}

/// Extracts [`NodeMeta`] from a Node object; missing fields degrade to empty texts and zeros
/// rather than failing the tick.
pub fn parse_node_meta(node: &Json) -> (r: NodeMeta)
    ensures
        r@ == facts_of(node@),
{
    let metadata: Option<&Json> = get(Some(node), "metadata");
    let status: Option<&Json> = get(Some(node), "status");
    let info: Option<&Json> = get(status, "nodeInfo");
    let capacity: Option<&Json> = get(status, "capacity");
    let label: &str = text_or_empty(get(get(metadata, "labels"), "kubernetes.io/hostname"));
    let hostname: &str = if label.unicode_len() > 0 {
        label
    } else {
        text_or_empty(get(metadata, "name"))
    };
    let capacity_cores: Binary64 = match as_text(get(capacity, "cpu")) {
        Some(raw) => match parse_quantity_cores(raw) {
            Some(cores) => cores,
            None => Binary64::zero(),
        },
        None => Binary64::zero(),
    };
    let capacity_mem_bytes: u64 = match as_text(get(capacity, "memory")) {
        Some(raw) => match parse_quantity_bytes(raw) {
            Some(bytes) => bytes,
            None => 0,
        },
        None => 0,
    };
    let internal_ip: Option<String> = match as_items(get(status, "addresses")) {
        Some(addresses) => {
            let ghost all = items_of(member(member(Some(node@), "status"@), "addresses"@))->0;
            find_internal_address(addresses, Ghost(all))
        },
        None => None,
    };
    NodeMeta {
        hostname: hostname.to_owned(),
        engine_version: text_or_empty(get(info, "containerRuntimeVersion")).to_owned(),
        api_version: text_or_empty(get(info, "kubeletVersion")).to_owned(),
        kernel_version: text_or_empty(get(info, "kernelVersion")).to_owned(),
        capacity_cores,
        capacity_mem_bytes,
        internal_ip,
    }
}

// ── The provider ─────────────────────────────────────────────────────────────

/// What the provider needs to know of its configuration.
pub struct KubernetesProvider {
    /// Node this agent runs on.
    pub node_name: String,
    /// Host IP of the node, where it is configured.
    pub node_ip: Option<String>,
    /// Kubelet access mode.
    pub kubelet_mode: KubeletMode,
}

/// The configuration does not name the node.
pub struct NodeNameMissing;

impl NodeNameMissing {
    /// The error as text.
    pub fn message(&self) -> (r: &'static str)
        ensures
            r@
                == "NODE_NAME is required in Kubernetes mode (set it via the Downward API: fieldRef: spec.nodeName)"@,
    {
        "NODE_NAME is required in Kubernetes mode (set it via the Downward API: fieldRef: spec.nodeName)"
    }
}

/// Where `stats/summary` is read from.
pub enum SummarySource {
    /// The kubelet itself, at this URL.
    Direct(String),
    /// The API server's proxy, at this path.
    Proxy(String),
}

/// What a [`SummarySource`] says.
pub enum Endpoint {
    Direct(Seq<char>),
    Proxy(Seq<char>),
}

impl View for SummarySource {
    type V = Endpoint;

    open spec fn view(&self) -> Endpoint {
        match self {
            SummarySource::Direct(url) => Endpoint::Direct(url@),
            SummarySource::Proxy(path) => Endpoint::Proxy(path@),
        }
    }
}

/// The kubelet's own summary.
pub open spec fn direct_endpoint(ip: Seq<char>) -> Endpoint {
    Endpoint::Direct("https://"@ + ip + ":10250/stats/summary"@)
}

/// The summary of a node through the API server.
pub open spec fn proxy_endpoint(node_name: Seq<char>) -> Endpoint {
    Endpoint::Proxy("/api/v1/nodes/"@ + node_name + "/proxy/stats/summary"@)
}

/// Where the summary is read from first: directly in direct mode where an IP is known, the
/// configured one before the Node's own; else through the proxy.
pub open spec fn first_endpoint(
    mode: KubeletMode,
    configured: Option<Seq<char>>,
    found: Option<Seq<char>>,
    node_name: Seq<char>,
) -> Endpoint {
    match (mode, configured, found) {
        (KubeletMode::Direct, Some(ip), _) => direct_endpoint(ip),
        (KubeletMode::Direct, None, Some(ip)) => direct_endpoint(ip),
        _ => proxy_endpoint(node_name),
    }
}

/// Where the summary is read from after `endpoint` has failed: a direct call falls back to the
/// proxy, and after that there is nothing.
pub open spec fn next_endpoint(endpoint: Endpoint, node_name: Seq<char>) -> Option<Endpoint> {
    match endpoint {
        Endpoint::Direct(_) => Some(proxy_endpoint(node_name)),
        Endpoint::Proxy(_) => None,
    }
}

/// In proxy mode the kubelet is never called directly, not even as a fallback.
pub proof fn proxy_mode_stays_with_the_proxy(
    configured: Option<Seq<char>>,
    found: Option<Seq<char>>,
    node_name: Seq<char>,
)
    ensures
        first_endpoint(KubeletMode::Proxy, configured, found, node_name) == proxy_endpoint(node_name),
        next_endpoint(first_endpoint(KubeletMode::Proxy, configured, found, node_name), node_name) is None,
{
}

/// In either mode the last attempt goes through the proxy, after one other attempt at most.
pub proof fn last_attempt_is_the_proxy(
    mode: KubeletMode,
    configured: Option<Seq<char>>,
    found: Option<Seq<char>>,
    node_name: Seq<char>,
)
    ensures
        ({
            let first = first_endpoint(mode, configured, found, node_name);
            first == proxy_endpoint(node_name) || (next_endpoint(first, node_name) == Some(
                proxy_endpoint(node_name),
            ) && next_endpoint(proxy_endpoint(node_name), node_name) is None)
        }),
{
}

/// The status that the three documents of a tick give.
pub open spec fn node_report(
    node_name: Seq<char>,
    node: NodeFacts,
    summary: Summary,
    metas: Seq<(Seq<char>, Meta)>,
    agent_version: Seq<char>,
) -> Report {
    Report {
        id: node_name,
        hostname: node.hostname,
        orchestrator: "kubernetes"@,
        disk: node_disk(summary.node),
        cpu: node_load(summary.node, node.capacity_cores),
        memory: node_memory(summary.node, node.capacity_mem_bytes),
        tasks: all_snapshots(summary.pods@, metas, node.capacity_cores),
        engine_version: node.engine_version,
        api_version: node.api_version,
        kernel_version: node.kernel_version,
        agent_version,
    }
}

/// In direct mode the kubelet is asked at the configured address, else at the one in the Node object,
/// and through the proxy where there is neither.
pub proof fn direct_mode_prefers_the_configured_address(
    configured: Option<Seq<char>>,
    found: Option<Seq<char>>,
    node_name: Seq<char>,
)
    ensures
        ({
            let first = first_endpoint(KubeletMode::Direct, configured, found, node_name);
            let proxy = Endpoint::Proxy("/api/v1/nodes/"@ + node_name + "/proxy/stats/summary"@);
            &&& configured matches Some(ip) ==> first == Endpoint::Direct(
                "https://"@ + ip + ":10250/stats/summary"@,
            )
            &&& configured is None && found is Some ==> first == Endpoint::Direct(
                "https://"@ + found->0 + ":10250/stats/summary"@,
            )
            &&& configured is None && found is None ==> first == proxy
            &&& first is Direct ==> next_endpoint(first, node_name) == Some(proxy)
            &&& first_endpoint(KubeletMode::Proxy, configured, found, node_name) == proxy
        }),
{
}

/// API path of a Node object.
pub open spec fn path_of_node(node_name: Seq<char>) -> Seq<char> {
    "/api/v1/nodes/"@ + node_name
}

/// API path of the pods scheduled on a node.
pub open spec fn path_of_pods(node_name: Seq<char>) -> Seq<char> {
    "/api/v1/pods?fieldSelector=spec.nodeName="@ + node_name
}

/// API path of the watch on those pods.
pub open spec fn path_of_watch(node_name: Seq<char>) -> Seq<char> {
    "/api/v1/pods?watch=1&fieldSelector=spec.nodeName="@ + node_name
}

/// The pods that are listed and the pods that are watched are selected alike, by the node that they
/// are scheduled on, and the summary is read under the path of that node.
pub proof fn one_node_is_selected(node_name: Seq<char>)
    ensures
        path_of_pods(node_name) == "/api/v1/pods?"@ + "fieldSelector=spec.nodeName="@ + node_name,
        path_of_watch(node_name) == "/api/v1/pods?"@ + "watch=1&"@ + "fieldSelector=spec.nodeName="@ + node_name,
        path_of_node(node_name) == "/api/v1/nodes/"@ + node_name,
        proxy_endpoint(node_name) == Endpoint::Proxy(path_of_node(node_name) + "/proxy/stats/summary"@),
{
    reveal_strlit("/api/v1/pods?");
    reveal_strlit("watch=1&");
    reveal_strlit("fieldSelector=spec.nodeName=");
    reveal_strlit("/api/v1/pods?fieldSelector=spec.nodeName=");
    reveal_strlit("/api/v1/pods?watch=1&fieldSelector=spec.nodeName=");
    assert("/api/v1/pods?fieldSelector=spec.nodeName="@ =~= "/api/v1/pods?"@ + "fieldSelector=spec.nodeName="@);
    assert("/api/v1/pods?watch=1&fieldSelector=spec.nodeName="@ =~= "/api/v1/pods?"@ + "watch=1&"@
        + "fieldSelector=spec.nodeName="@);
}

/// A status says of the node what its Node object says, and measures it by the capacity that this
/// gives: the CPU of the node and of each container by its cores, the memory by its bytes.
pub proof fn report_measures_by_the_capacity(
    node_name: Seq<char>,
    node: NodeFacts,
    summary: Summary,
    metas: Seq<(Seq<char>, Meta)>,
    agent_version: Seq<char>,
)
    ensures
        ({
            let r = node_report(node_name, node, summary, metas, agent_version);
            &&& r.id == node_name
            &&& r.hostname == node.hostname
            &&& r.orchestrator == "kubernetes"@
            &&& r.engine_version == node.engine_version
            &&& r.api_version == node.api_version
            &&& r.kernel_version == node.kernel_version
            &&& r.agent_version == agent_version
            &&& r.cpu == node_load(summary.node, node.capacity_cores)
            &&& r.memory == node_memory(summary.node, node.capacity_mem_bytes)
            &&& r.memory.total == node.capacity_mem_bytes
            &&& r.disk == node_disk(summary.node)
            &&& r.tasks == all_snapshots(summary.pods@, metas, node.capacity_cores)
            &&& r.tasks.len() == reported_in(summary.pods@, summary.pods@.len() as int)
        }),
{
    each_container_is_reported(summary.pods@, metas, node.capacity_cores, 0, 0);
}

/// The metadata in a pod list; none where the list could not be fetched.
pub open spec fn fetched_metas(pod_list: Option<&Json>) -> Seq<(Seq<char>, Meta)> {
    match pod_list {
        Some(list) => listed_metas(list@),
        None => seq![],
    }
}

/// A fetched pod list gives the metadata of its pods; without one there is none.
pub proof fn fetched_lists_give_their_metadata(pod_list: Option<&Json>)
    ensures
        pod_list matches Some(list) ==> fetched_metas(pod_list) == listed_metas(list@),
        pod_list is None ==> fetched_metas(pod_list).len() == 0,
{
}

impl KubernetesProvider {
    /// Builds the provider from the configuration.
    ///
    /// Requires `NODE_NAME` (Downward API, `fieldRef: spec.nodeName`) so the agent knows which
    /// node it represents.
    pub fn from_env(cfg: &Config) -> (r: Result<KubernetesProvider, NodeNameMissing>)
        ensures
            match r {
                Ok(p) => Some(p.node_name@) == cfg@.node_name && chars_of(p.node_ip) == cfg@.node_ip
                    && p.kubelet_mode == cfg@.kubelet_mode,
                Err(_) => cfg@.node_name is None,
            },
    {
        match &cfg.node_name {
            Some(name) => Ok(
                KubernetesProvider {
                    node_name: name.as_str().to_owned(),
                    node_ip: match &cfg.node_ip {
                        Some(ip) => Some(ip.as_str().to_owned()),
                        None => None,
                    },
                    kubelet_mode: cfg.kubelet_mode,
                },
            ),
            None => Err(NodeNameMissing),
        }
    }

    /// Orchestrator identifier put into outbound payloads.
    pub fn orchestrator(&self) -> (r: &'static str)
        ensures
            r@ == "kubernetes"@,
    {
        "kubernetes"
    }

    /// API path of the Node object.
    pub fn node_path(&self) -> (r: String)
        ensures
            r@ == path_of_node(self.node_name@),
    {
        joined("/api/v1/nodes/", self.node_name.as_str())
    }

    /// API path of the pods scheduled on the node.
    pub fn pods_path(&self) -> (r: String)
        ensures
            r@ == path_of_pods(self.node_name@),
    {
        joined("/api/v1/pods?fieldSelector=spec.nodeName=", self.node_name.as_str())
    }

    /// API path of the watch on those pods.
    pub fn watch_path(&self) -> (r: String)
        ensures
            r@ == path_of_watch(self.node_name@),
    {
        joined("/api/v1/pods?watch=1&fieldSelector=spec.nodeName=", self.node_name.as_str())
    }

    fn proxy_source(&self) -> (r: SummarySource)
        ensures
            r@ == proxy_endpoint(self.node_name@),
    {
        let mut path: String = joined("/api/v1/nodes/", self.node_name.as_str());
        path.append("/proxy/stats/summary");
        SummarySource::Proxy(path)
    }

    /// Where `stats/summary` is read from first, preferring the kubelet itself. `node_ip` is the
    /// address in the Node object.
    pub fn fetch_summary(&self, node_ip: &Option<String>) -> (r: SummarySource)
        ensures
            r@ == first_endpoint(
                self.kubelet_mode,
                chars_of(self.node_ip),
                chars_of(*node_ip),
                self.node_name@,
            ),
    {
        if self.kubelet_mode == KubeletMode::Direct {
            let ip: &Option<String> = match &self.node_ip {
                Some(_) => &self.node_ip,
                None => node_ip,
            };
            if let Some(ip) = ip {
                let mut url: String = joined("https://", ip.as_str());
                url.append(":10250/stats/summary");
                return SummarySource::Direct(url);
            }
        }
        self.proxy_source()
    }

    /// Where `stats/summary` is read from after a source has failed.
    pub fn fall_back(&self, failed: &SummarySource) -> (r: Option<SummarySource>)
        ensures
            (match r {
                Some(source) => Some(source@),
                None => None,
            }) == next_endpoint(failed@, self.node_name@),
    {
        match failed {
            SummarySource::Direct(_) => Some(self.proxy_source()),
            SummarySource::Proxy(_) => None,
        }
    }

    /// Assembles one full [`Status`] snapshot from what a tick has read. Where the pod list could
    /// not be fetched, container metadata is incomplete.
    pub fn status(&self, meta: NodeMeta, summary: &Summary, pod_list: Option<&Json>, agent_version: &str) -> (r:
        Status)
        ensures
            r@ == node_report(
                self.node_name@,
                meta@,
                *summary,
                fetched_metas(pod_list),
                agent_version@,
            ),
    {
        let metas: StringMap<PodMeta> = match pod_list {
            Some(list) => parse_pod_metas(list),
            None => StringMap::new(),
        };
        assert(viewed(metas@) =~= fetched_metas(pod_list));
        let (cpu, memory, disk): (CpuStatus, MemoryStatus, DiskStatus) = node_status_parts(
            &summary.node,
            &meta.capacity_cores,
            meta.capacity_mem_bytes,
        );
        let tasks: Vec<ContainerStatus> = container_statuses(summary, &metas, &meta.capacity_cores);
        Status {
            id: self.node_name.as_str().to_owned(),
            hostname: meta.hostname,
            orchestrator: self.orchestrator().to_owned(),
            disk,
            cpu,
            memory,
            tasks,
            engine_version: meta.engine_version,
            api_version: meta.api_version,
            kernel_version: meta.kernel_version,
            agent_version: agent_version.to_owned(),
        }
    }
}

} // verus!
