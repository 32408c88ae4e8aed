//! Payloads sent to Swarmboty.

use vstd::prelude::*;

use crate::binary64::{Binary64, Real64};
use crate::json::{
    add_count, add_measure, add_member, add_optional_text, add_text, array, measure_tree, member, members_of,
    object, optional_text, Json, Tree,
};
use crate::keyed::{find, find_in_parts, find_is_membership, first_entry_is_found};
use crate::text::chars_of;

verus! {

/// Full status snapshot posted to Swarmboty on every stats tick.
pub struct Status {
    /// Docker Swarm node ID (empty when not in Swarm mode), or Kubernetes node name.
    pub id: String,
    /// Host name of the node.
    pub hostname: String,
    /// `"swarm"` or `"kubernetes"`.
    pub orchestrator: String,
    /// Root filesystem usage.
    pub disk: DiskStatus,
    /// Host CPU usage.
    pub cpu: CpuStatus,
    /// Host memory usage.
    pub memory: MemoryStatus,
    /// Per-container resource snapshots for all running containers.
    pub tasks: Vec<ContainerStatus>,
    /// Docker Engine or container runtime version (e.g. `"27.3.1"`).
    pub engine_version: String,
    /// Docker API or kubelet version (e.g. `"1.47"`).
    pub api_version: String,
    /// Host kernel version (e.g. `"6.1.0-28-amd64"`).
    pub kernel_version: String,
    /// Version of the agent.
    pub agent_version: String,
}

/// Root filesystem capacity and usage in bytes.
#[derive(Debug, Clone, Copy, PartialEq, Eq, Structural)]
pub struct DiskStatus {
    /// Total capacity in bytes.
    pub total: u64,
    /// Used space in bytes.
    pub used: u64,
    /// Used space as a percentage of total (0–100).
    pub used_percentage: Binary64,
    /// Available space in bytes.
    pub free: u64,
}

/// Host CPU utilisation.
#[derive(Debug, Clone, Copy, PartialEq, Eq, Structural)]
pub struct CpuStatus {
    /// Current global CPU usage percentage (0–100).
    pub used_percentage: Binary64,
    /// Number of logical CPU cores.
    pub cores: i32,
}

/// Host memory usage in bytes.
#[derive(Debug, Clone, Copy, PartialEq, Eq, Structural)]
pub struct MemoryStatus {
    /// Total physical memory.
    pub total: u64,
    /// Used memory (total − free).
    pub used: u64,
    /// Used memory as a percentage of total (0–100).
    pub used_percentage: Binary64,
    /// Free (unused) memory.
    pub free: u64,
}

/// Resource snapshot for a single running container.
pub struct ContainerStatus {
    /// Container name; as reported by Docker it includes a leading `/`.
    pub name: String,
    /// Full Docker container ID, or `"{namespace}/{pod}/{container}"`.
    pub id: String,
    /// Kubernetes namespace.
    pub namespace: Option<String>,
    /// Kubernetes pod.
    pub pod: Option<String>,
    /// Name of the owning workload.
    pub workload: Option<String>,
    /// Kind of the owning workload.
    pub workload_kind: Option<String>,
    /// CPU usage percentage relative to the host.
    pub cpu_percentage: Binary64,
    /// Memory usage in bytes (usage minus page cache).
    pub memory: Binary64,
    /// Memory limit configured for the container in bytes (0 = unlimited).
    pub memory_limit: Binary64,
    /// Memory usage as a percentage of the limit (0 when limit is 0).
    pub memory_percentage: Binary64,
    /// Bytes received across all network interfaces since container start.
    pub network_rx_bytes: u64,
    /// Bytes transmitted across all network interfaces since container start.
    pub network_tx_bytes: u64,
    /// Bytes read from block devices since container start.
    pub block_read_bytes: u64,
    /// Bytes written to block devices since container start.
    pub block_write_bytes: u64,
    /// Current number of processes or threads inside the container.
    pub pids: u64,
}

// ── What the models say ──────────────────────────────────────────────────────

/// What a [`DiskStatus`] or a [`MemoryStatus`] says.
pub struct Space {
    pub total: int,
    pub used: int,
    pub used_percentage: Real64,
    pub free: int,
}

/// What a [`CpuStatus`] says.
pub struct Load {
    pub used_percentage: Real64,
    pub cores: int,
}

/// What a [`ContainerStatus`] says.
pub struct Snapshot {
    pub name: Seq<char>,
    pub id: Seq<char>,
    pub namespace: Option<Seq<char>>,
    pub pod: Option<Seq<char>>,
    pub workload: Option<Seq<char>>,
    pub workload_kind: Option<Seq<char>>,
    pub cpu_percentage: Real64,
    pub memory: Real64,
    pub memory_limit: Real64,
    pub memory_percentage: Real64,
    pub network_rx_bytes: int,
    pub network_tx_bytes: int,
    pub block_read_bytes: int,
    pub block_write_bytes: int,
    pub pids: int,
}

/// What a [`Status`] says.
pub struct Report {
    pub id: Seq<char>,
    pub hostname: Seq<char>,
    pub orchestrator: Seq<char>,
    pub disk: Space,
    pub cpu: Load,
    pub memory: Space,
    pub tasks: Seq<Snapshot>,
    pub engine_version: Seq<char>,
    pub api_version: Seq<char>,
    pub kernel_version: Seq<char>,
    pub agent_version: Seq<char>,
}

impl View for DiskStatus {
    type V = Space;

    open spec fn view(&self) -> Space {
        Space {
            total: self.total as int,
            used: self.used as int,
            used_percentage: self.used_percentage@,
            free: self.free as int,
        }
    }
}

impl View for MemoryStatus {
    type V = Space;

    open spec fn view(&self) -> Space {
        Space {
            total: self.total as int,
            used: self.used as int,
            used_percentage: self.used_percentage@,
            free: self.free as int,
        }
    }
}

impl View for CpuStatus {
    type V = Load;

    open spec fn view(&self) -> Load {
        Load { used_percentage: self.used_percentage@, cores: self.cores as int }
    }
}

impl View for ContainerStatus {
    type V = Snapshot;

    open spec fn view(&self) -> Snapshot {
        Snapshot {
            name: self.name@,
            id: self.id@,
            namespace: chars_of(self.namespace),
            pod: chars_of(self.pod),
            workload: chars_of(self.workload),
            workload_kind: chars_of(self.workload_kind),
            cpu_percentage: self.cpu_percentage@,
            memory: self.memory@,
            memory_limit: self.memory_limit@,
            memory_percentage: self.memory_percentage@,
            network_rx_bytes: self.network_rx_bytes as int,
            network_tx_bytes: self.network_tx_bytes as int,
            block_read_bytes: self.block_read_bytes as int,
            block_write_bytes: self.block_write_bytes as int,
            pids: self.pids as int,
        }
    }
}

/// What a list of container statuses says.
pub open spec fn snapshots(tasks: Seq<ContainerStatus>) -> Seq<Snapshot> {
    Seq::new(tasks.len(), |i: int| tasks[i]@)
}

impl View for Status {
    type V = Report;

    open spec fn view(&self) -> Report {
        Report {
            id: self.id@,
            hostname: self.hostname@,
            orchestrator: self.orchestrator@,
            disk: self.disk@,
            cpu: self.cpu@,
            memory: self.memory@,
            tasks: snapshots(self.tasks@),
            engine_version: self.engine_version@,
            api_version: self.api_version@,
            kernel_version: self.kernel_version@,
            agent_version: self.agent_version@,
        }
    }
}

/// A snapshot of a container of which nothing but its id is known.
pub open spec fn blank(id: Seq<char>) -> Snapshot {
    Snapshot {
        name: seq![],
        id,
        namespace: None,
        pod: None,
        workload: None,
        workload_kind: None,
        cpu_percentage: Real64::zero(),
        memory: Real64::zero(),
        memory_limit: Real64::zero(),
        memory_percentage: Real64::zero(),
        network_rx_bytes: 0,
        network_tx_bytes: 0,
        block_read_bytes: 0,
        block_write_bytes: 0,
        pids: 0,
    }
}

// ── The JSON form ────────────────────────────────────────────────────────────

impl Space {
    /// The JSON object.
    pub open spec fn payload(self) -> Tree {
        Tree::Object(
            seq![
                ("total"@, Tree::Number(self.total)),
                ("used"@, Tree::Number(self.used)),
                ("used_percentage"@, measure_tree(self.used_percentage)),
                ("free"@, Tree::Number(self.free)),
            ],
        )
    }
}

impl Load {
    /// The JSON object.
    pub open spec fn payload(self) -> Tree {
        Tree::Object(
            seq![
                ("used_percentage"@, measure_tree(self.used_percentage)),
                ("cores"@, Tree::Number(self.cores)),
            ],
        )
    }
}

impl Snapshot {
    /// The members of the JSON object that say which container it is. What Kubernetes alone knows
    /// is left out where it is missing.
    pub open spec fn identity(self) -> Seq<(Seq<char>, Tree)> {
        seq![("name"@, Tree::Text(self.name)), ("id"@, Tree::Text(self.id))] + optional_text(
            "namespace"@,
            self.namespace,
        ) + optional_text("pod"@, self.pod) + optional_text("workload"@, self.workload) + optional_text(
            "workloadKind"@,
            self.workload_kind,
        )
    }

    /// The members of the JSON object that say what it uses of CPU and memory.
    pub open spec fn measures(self) -> Seq<(Seq<char>, Tree)> {
        seq![
            ("cpuPercentage"@, measure_tree(self.cpu_percentage)),
            ("memory"@, measure_tree(self.memory)),
            ("memoryLimit"@, measure_tree(self.memory_limit)),
            ("memoryPercentage"@, measure_tree(self.memory_percentage)),
        ]
    }

    /// The members of the JSON object that are counters.
    pub open spec fn counters(self) -> Seq<(Seq<char>, Tree)> {
        seq![
            ("networkRxBytes"@, Tree::Number(self.network_rx_bytes)),
            ("networkTxBytes"@, Tree::Number(self.network_tx_bytes)),
            ("blockReadBytes"@, Tree::Number(self.block_read_bytes)),
            ("blockWriteBytes"@, Tree::Number(self.block_write_bytes)),
            ("pids"@, Tree::Number(self.pids)),
        ]
    }

    /// The JSON object.
    pub open spec fn payload(self) -> Tree {
        Tree::Object(self.identity() + self.measures() + self.counters())
    }
}

/// The JSON objects of a list of snapshots.
pub open spec fn payloads(tasks: Seq<Snapshot>) -> Seq<Tree> {
    Seq::new(tasks.len(), |i: int| tasks[i].payload())
}

impl Report {
    /// The members of the JSON object that say which node it is and what it uses.
    pub open spec fn usage(self) -> Seq<(Seq<char>, Tree)> {
        seq![
            ("id"@, Tree::Text(self.id)),
            ("hostname"@, Tree::Text(self.hostname)),
            ("orchestrator"@, Tree::Text(self.orchestrator)),
            ("disk"@, self.disk.payload()),
            ("cpu"@, self.cpu.payload()),
            ("memory"@, self.memory.payload()),
            ("tasks"@, Tree::Array(payloads(self.tasks))),
        ]
    }

    /// The members of the JSON object that are versions.
    pub open spec fn versions(self) -> Seq<(Seq<char>, Tree)> {
        seq![
            ("engineVersion"@, Tree::Text(self.engine_version)),
            ("apiVersion"@, Tree::Text(self.api_version)),
            ("kernelVersion"@, Tree::Text(self.kernel_version)),
            ("agentVersion"@, Tree::Text(self.agent_version)),
        ]
    }

    /// The JSON object.
    pub open spec fn payload(self) -> Tree {
        Tree::Object(self.usage() + self.versions())
    }
}

// ── Laws ─────────────────────────────────────────────────────────────────────

/// Every status payload carries the orchestrator.
pub proof fn payload_carries_the_orchestrator(report: Report)
    ensures
        member(Some(report.payload()), "orchestrator"@) == Some(Tree::Text(report.orchestrator)),
{
    reveal_strlit("id");
    reveal_strlit("hostname");
    reveal_strlit("orchestrator");
    assert("id"@.len() == 2 && "hostname"@.len() == 8 && "orchestrator"@.len() == 12);
    let all = report.usage() + report.versions();
    assert(all[0] == report.usage()[0] && all[1] == report.usage()[1] && all[2] == report.usage()[2]);
    first_entry_is_found(all, "orchestrator"@, 2);
}

/// A container payload without the Kubernetes fields is the plain Docker one: a missing field
/// leaves no trace.
pub proof fn missing_fields_leave_no_trace(s: Snapshot)
    requires
        s.namespace is None,
        s.pod is None,
        s.workload is None,
        s.workload_kind is None,
    ensures
        s.payload() == Tree::Object(
            seq![("name"@, Tree::Text(s.name)), ("id"@, Tree::Text(s.id))] + s.measures() + s.counters(),
        ),
{
    assert(s.identity() =~= seq![("name"@, Tree::Text(s.name)), ("id"@, Tree::Text(s.id))]);
}

/// Whether a member of an object is a number: `x` where it is finite, `null` where it is not.
pub open spec fn is_measure(node: Option<Tree>, x: Real64) -> bool {
    if x is Finite {
        node == Some(Tree::Float(x))
    } else {
        node == Some(Tree::Null)
    }
}

/// Whether a member of an object is a text, and missing where there is none.
pub open spec fn is_optional_text(node: Option<Tree>, text: Option<Seq<char>>) -> bool {
    match text {
        Some(s) => node == Some(Tree::Text(s)),
        None => node is None,
    }
}

/// The payload of a disk or of memory holds each of its numbers under its name.
pub proof fn space_payload_holds_every_number(s: Space)
    ensures
        member(Some(s.payload()), "total"@) == Some(Tree::Number(s.total)),
        member(Some(s.payload()), "used"@) == Some(Tree::Number(s.used)),
        is_measure(member(Some(s.payload()), "used_percentage"@), s.used_percentage),
        member(Some(s.payload()), "free"@) == Some(Tree::Number(s.free)),
{
    reveal_strlit("total");
    reveal_strlit("used");
    reveal_strlit("used_percentage");
    reveal_strlit("free");
    assert("total"@.len() == 5 && "used"@.len() == 4 && "used_percentage"@.len() == 15 && "free"@.len() == 4);
    assert("used"@[0] == 'u' && "free"@[0] == 'f');
    first_entry_is_found(s.payload()->Object_0, "total"@, 0);
    first_entry_is_found(s.payload()->Object_0, "used"@, 1);
    first_entry_is_found(s.payload()->Object_0, "used_percentage"@, 2);
    first_entry_is_found(s.payload()->Object_0, "free"@, 3);
}

/// The payload of the CPU holds each of its numbers under its name.
pub proof fn load_payload_holds_every_number(s: Load)
    ensures
        is_measure(member(Some(s.payload()), "used_percentage"@), s.used_percentage),
        member(Some(s.payload()), "cores"@) == Some(Tree::Number(s.cores)),
{
    reveal_strlit("used_percentage");
    reveal_strlit("cores");
    assert("used_percentage"@.len() == 15 && "cores"@.len() == 5);
    first_entry_is_found(s.payload()->Object_0, "used_percentage"@, 0);
    first_entry_is_found(s.payload()->Object_0, "cores"@, 1);
}

/// The payload of a container says which one it is.
pub proof fn container_payload_says_which_one(s: Snapshot)
    ensures
        member(Some(s.payload()), "name"@) == Some(Tree::Text(s.name)),
        member(Some(s.payload()), "id"@) == Some(Tree::Text(s.id)),
        is_optional_text(member(Some(s.payload()), "namespace"@), s.namespace),
        is_optional_text(member(Some(s.payload()), "pod"@), s.pod),
        is_optional_text(member(Some(s.payload()), "workload"@), s.workload),
        is_optional_text(member(Some(s.payload()), "workloadKind"@), s.workload_kind),
{
    lemma_container_keys();
    lemma_container_member(s, "name"@);
    lemma_container_member(s, "id"@);
    lemma_container_member(s, "namespace"@);
    lemma_container_member(s, "pod"@);
    lemma_container_member(s, "workload"@);
    lemma_container_member(s, "workloadKind"@);
}

/// The payload of a container holds each of its numbers under its name.
pub proof fn container_payload_holds_every_number(s: Snapshot)
    ensures
        is_measure(member(Some(s.payload()), "cpuPercentage"@), s.cpu_percentage),
        is_measure(member(Some(s.payload()), "memory"@), s.memory),
        is_measure(member(Some(s.payload()), "memoryLimit"@), s.memory_limit),
        is_measure(member(Some(s.payload()), "memoryPercentage"@), s.memory_percentage),
        member(Some(s.payload()), "networkRxBytes"@) == Some(Tree::Number(s.network_rx_bytes)),
        member(Some(s.payload()), "networkTxBytes"@) == Some(Tree::Number(s.network_tx_bytes)),
        member(Some(s.payload()), "blockReadBytes"@) == Some(Tree::Number(s.block_read_bytes)),
        member(Some(s.payload()), "blockWriteBytes"@) == Some(Tree::Number(s.block_write_bytes)),
        member(Some(s.payload()), "pids"@) == Some(Tree::Number(s.pids)),
{
    lemma_container_keys();
    lemma_container_member(s, "cpuPercentage"@);
    lemma_container_member(s, "memory"@);
    lemma_container_member(s, "memoryLimit"@);
    lemma_container_member(s, "memoryPercentage"@);
    lemma_container_member(s, "networkRxBytes"@);
    lemma_container_member(s, "networkTxBytes"@);
    lemma_container_member(s, "blockReadBytes"@);
    lemma_container_member(s, "blockWriteBytes"@);
    lemma_container_member(s, "pids"@);
    first_entry_is_found(s.measures(), "cpuPercentage"@, 0);
    first_entry_is_found(s.measures(), "memory"@, 1);
    first_entry_is_found(s.measures(), "memoryLimit"@, 2);
    first_entry_is_found(s.measures(), "memoryPercentage"@, 3);
    find_is_membership(s.measures(), "networkRxBytes"@);
    find_is_membership(s.measures(), "networkTxBytes"@);
    find_is_membership(s.measures(), "blockReadBytes"@);
    find_is_membership(s.measures(), "blockWriteBytes"@);
    find_is_membership(s.measures(), "pids"@);
    first_entry_is_found(s.counters(), "networkRxBytes"@, 0);
    first_entry_is_found(s.counters(), "networkTxBytes"@, 1);
    first_entry_is_found(s.counters(), "blockReadBytes"@, 2);
    first_entry_is_found(s.counters(), "blockWriteBytes"@, 3);
    first_entry_is_found(s.counters(), "pids"@, 4);
}

/// No two members of a container's payload have one name.
proof fn lemma_container_keys()
    ensures
        "name"@ != "id"@,
        "name"@ != "namespace"@,
        "name"@ != "pod"@,
        "name"@ != "workload"@,
        "name"@ != "workloadKind"@,
        "name"@ != "cpuPercentage"@,
        "name"@ != "memory"@,
        "name"@ != "memoryLimit"@,
        "name"@ != "memoryPercentage"@,
        "name"@ != "networkRxBytes"@,
        "name"@ != "networkTxBytes"@,
        "name"@ != "blockReadBytes"@,
        "name"@ != "blockWriteBytes"@,
        "name"@ != "pids"@,
        "id"@ != "namespace"@,
        "id"@ != "pod"@,
        "id"@ != "workload"@,
        "id"@ != "workloadKind"@,
        "id"@ != "cpuPercentage"@,
        "id"@ != "memory"@,
        "id"@ != "memoryLimit"@,
        "id"@ != "memoryPercentage"@,
        "id"@ != "networkRxBytes"@,
        "id"@ != "networkTxBytes"@,
        "id"@ != "blockReadBytes"@,
        "id"@ != "blockWriteBytes"@,
        "id"@ != "pids"@,
        "namespace"@ != "pod"@,
        "namespace"@ != "workload"@,
        "namespace"@ != "workloadKind"@,
        "namespace"@ != "cpuPercentage"@,
        "namespace"@ != "memory"@,
        "namespace"@ != "memoryLimit"@,
        "namespace"@ != "memoryPercentage"@,
        "namespace"@ != "networkRxBytes"@,
        "namespace"@ != "networkTxBytes"@,
        "namespace"@ != "blockReadBytes"@,
        "namespace"@ != "blockWriteBytes"@,
        "namespace"@ != "pids"@,
        "pod"@ != "workload"@,
        "pod"@ != "workloadKind"@,
        "pod"@ != "cpuPercentage"@,
        "pod"@ != "memory"@,
        "pod"@ != "memoryLimit"@,
        "pod"@ != "memoryPercentage"@,
        "pod"@ != "networkRxBytes"@,
        "pod"@ != "networkTxBytes"@,
        "pod"@ != "blockReadBytes"@,
        "pod"@ != "blockWriteBytes"@,
        "pod"@ != "pids"@,
        "workload"@ != "workloadKind"@,
        "workload"@ != "cpuPercentage"@,
        "workload"@ != "memory"@,
        "workload"@ != "memoryLimit"@,
        "workload"@ != "memoryPercentage"@,
        "workload"@ != "networkRxBytes"@,
        "workload"@ != "networkTxBytes"@,
        "workload"@ != "blockReadBytes"@,
        "workload"@ != "blockWriteBytes"@,
        "workload"@ != "pids"@,
        "workloadKind"@ != "cpuPercentage"@,
        "workloadKind"@ != "memory"@,
        "workloadKind"@ != "memoryLimit"@,
        "workloadKind"@ != "memoryPercentage"@,
        "workloadKind"@ != "networkRxBytes"@,
        "workloadKind"@ != "networkTxBytes"@,
        "workloadKind"@ != "blockReadBytes"@,
        "workloadKind"@ != "blockWriteBytes"@,
        "workloadKind"@ != "pids"@,
        "cpuPercentage"@ != "memory"@,
        "cpuPercentage"@ != "memoryLimit"@,
        "cpuPercentage"@ != "memoryPercentage"@,
        "cpuPercentage"@ != "networkRxBytes"@,
        "cpuPercentage"@ != "networkTxBytes"@,
        "cpuPercentage"@ != "blockReadBytes"@,
        "cpuPercentage"@ != "blockWriteBytes"@,
        "cpuPercentage"@ != "pids"@,
        "memory"@ != "memoryLimit"@,
        "memory"@ != "memoryPercentage"@,
        "memory"@ != "networkRxBytes"@,
        "memory"@ != "networkTxBytes"@,
        "memory"@ != "blockReadBytes"@,
        "memory"@ != "blockWriteBytes"@,
        "memory"@ != "pids"@,
        "memoryLimit"@ != "memoryPercentage"@,
        "memoryLimit"@ != "networkRxBytes"@,
        "memoryLimit"@ != "networkTxBytes"@,
        "memoryLimit"@ != "blockReadBytes"@,
        "memoryLimit"@ != "blockWriteBytes"@,
        "memoryLimit"@ != "pids"@,
        "memoryPercentage"@ != "networkRxBytes"@,
        "memoryPercentage"@ != "networkTxBytes"@,
        "memoryPercentage"@ != "blockReadBytes"@,
        "memoryPercentage"@ != "blockWriteBytes"@,
        "memoryPercentage"@ != "pids"@,
        "networkRxBytes"@ != "networkTxBytes"@,
        "networkRxBytes"@ != "blockReadBytes"@,
        "networkRxBytes"@ != "blockWriteBytes"@,
        "networkRxBytes"@ != "pids"@,
        "networkTxBytes"@ != "blockReadBytes"@,
        "networkTxBytes"@ != "blockWriteBytes"@,
        "networkTxBytes"@ != "pids"@,
        "blockReadBytes"@ != "blockWriteBytes"@,
        "blockReadBytes"@ != "pids"@,
        "blockWriteBytes"@ != "pids"@,
{
    reveal_strlit("name");
    reveal_strlit("id");
    reveal_strlit("namespace");
    reveal_strlit("pod");
    reveal_strlit("workload");
    reveal_strlit("workloadKind");
    reveal_strlit("cpuPercentage");
    reveal_strlit("memory");
    reveal_strlit("memoryLimit");
    reveal_strlit("memoryPercentage");
    reveal_strlit("networkRxBytes");
    reveal_strlit("networkTxBytes");
    reveal_strlit("blockReadBytes");
    reveal_strlit("blockWriteBytes");
    reveal_strlit("pids");
    assert("name"@.len() == 4 && "id"@.len() == 2 && "namespace"@.len() == 9 && "pod"@.len() == 3 && "workload"@.len() == 8 && "workloadKind"@.len() == 12 && "cpuPercentage"@.len() == 13 && "memory"@.len() == 6 && "memoryLimit"@.len() == 11 && "memoryPercentage"@.len() == 16 && "networkRxBytes"@.len() == 14 && "networkTxBytes"@.len() == 14 && "blockReadBytes"@.len() == 14 && "blockWriteBytes"@.len() == 15 && "pids"@.len() == 4);
    assert("name"@[0] == 'n' && "pids"@[0] == 'p');
    assert("networkRxBytes"@[7] == 'R' && "networkTxBytes"@[7] == 'T');
    assert("networkRxBytes"@[0] == 'n' && "blockReadBytes"@[0] == 'b');
    assert("networkTxBytes"@[0] == 'n' && "blockReadBytes"@[0] == 'b');
}

/// A member of a container's payload is in one of its parts.
proof fn lemma_container_member(s: Snapshot, key: Seq<char>)
    ensures
        member(Some(s.payload()), key) == if find(s.identity(), key) is Some {
            find(s.identity(), key)
        } else if find(s.measures(), key) is Some {
            find(s.measures(), key)
        } else {
            find(s.counters(), key)
        },
        key == "name"@ ==> find(s.identity(), key) == Some(Tree::Text(s.name)),
        key == "id"@ ==> find(s.identity(), key) == Some(Tree::Text(s.id)),
        key == "namespace"@ ==> is_optional_text(find(s.identity(), key), s.namespace) && find(s.measures(), key) is None
            && find(s.counters(), key) is None,
        key == "pod"@ ==> is_optional_text(find(s.identity(), key), s.pod) && find(s.measures(), key) is None && find(
            s.counters(),
            key,
        ) is None,
        key == "workload"@ ==> is_optional_text(find(s.identity(), key), s.workload) && find(s.measures(), key) is None
            && find(s.counters(), key) is None,
        key == "workloadKind"@ ==> is_optional_text(find(s.identity(), key), s.workload_kind) && find(
            s.measures(),
            key,
        ) is None && find(s.counters(), key) is None,
        key != "name"@ && key != "id"@ && key != "namespace"@ && key != "pod"@ && key != "workload"@ && key
            != "workloadKind"@ ==> find(s.identity(), key) is None,
{
    lemma_container_keys();
    let first: Seq<(Seq<char>, Tree)> = seq![("name"@, Tree::Text(s.name)), ("id"@, Tree::Text(s.id))];
    let namespace = optional_text("namespace"@, s.namespace);
    let pod = optional_text("pod"@, s.pod);
    let workload = optional_text("workload"@, s.workload);
    let kind = optional_text("workloadKind"@, s.workload_kind);
    find_in_parts(s.identity() + s.measures(), s.counters(), key);
    find_in_parts(s.identity(), s.measures(), key);
    find_in_parts(first + namespace + pod + workload, kind, key);
    find_in_parts(first + namespace + pod, workload, key);
    find_in_parts(first + namespace, pod, key);
    find_in_parts(first, namespace, key);
    find_is_membership(first, key);
    find_is_membership(namespace, key);
    find_is_membership(pod, key);
    find_is_membership(workload, key);
    find_is_membership(kind, key);
    find_is_membership(s.measures(), key);
    find_is_membership(s.counters(), key);
    if key == "name"@ {
        first_entry_is_found(first, key, 0);
    }
    if key == "id"@ {
        first_entry_is_found(first, key, 1);
    }
    if key == "namespace"@ && s.namespace is Some {
        first_entry_is_found(namespace, key, 0);
    }
    if key == "pod"@ && s.pod is Some {
        first_entry_is_found(pod, key, 0);
    }
    if key == "workload"@ && s.workload is Some {
        first_entry_is_found(workload, key, 0);
    }
    if key == "workloadKind"@ && s.workload_kind is Some {
        first_entry_is_found(kind, key, 0);
    }
}

/// The payload of a status holds each of its parts under its name, and its tasks in order.
pub proof fn status_payload_holds_every_part(r: Report, i: int)
    ensures
        member(Some(r.payload()), "id"@) == Some(Tree::Text(r.id)),
        member(Some(r.payload()), "hostname"@) == Some(Tree::Text(r.hostname)),
        member(Some(r.payload()), "disk"@) == Some(r.disk.payload()),
        member(Some(r.payload()), "cpu"@) == Some(r.cpu.payload()),
        member(Some(r.payload()), "memory"@) == Some(r.memory.payload()),
        member(Some(r.payload()), "engineVersion"@) == Some(Tree::Text(r.engine_version)),
        member(Some(r.payload()), "apiVersion"@) == Some(Tree::Text(r.api_version)),
        member(Some(r.payload()), "kernelVersion"@) == Some(Tree::Text(r.kernel_version)),
        member(Some(r.payload()), "agentVersion"@) == Some(Tree::Text(r.agent_version)),
        member(Some(r.payload()), "tasks"@) matches Some(Tree::Array(tasks)) && tasks.len() == r.tasks.len() && (0
            <= i < tasks.len() ==> tasks[i] == r.tasks[i].payload()),
{
    reveal_strlit("id");
    reveal_strlit("hostname");
    reveal_strlit("orchestrator");
    reveal_strlit("disk");
    reveal_strlit("cpu");
    reveal_strlit("memory");
    reveal_strlit("tasks");
    reveal_strlit("engineVersion");
    reveal_strlit("apiVersion");
    reveal_strlit("kernelVersion");
    reveal_strlit("agentVersion");
    assert("id"@.len() == 2 && "hostname"@.len() == 8 && "orchestrator"@.len() == 12 && "disk"@.len() == 4 && "cpu"@.len() == 3 && "memory"@.len() == 6 && "tasks"@.len() == 5 && "engineVersion"@.len() == 13 && "apiVersion"@.len() == 10 && "kernelVersion"@.len() == 13 && "agentVersion"@.len() == 12);
    assert("orchestrator"@[0] == 'o' && "agentVersion"@[0] == 'a');
    assert("engineVersion"@[0] == 'e' && "kernelVersion"@[0] == 'k');
    let all = r.usage() + r.versions();
    assert forall|k: int| 0 <= k < 7 implies #[trigger] all[k] == r.usage()[k] by {}
    assert forall|k: int| 7 <= k < 11 implies #[trigger] all[k] == r.versions()[k - 7] by {}
    first_entry_is_found(all, "id"@, 0);
    first_entry_is_found(all, "hostname"@, 1);
    first_entry_is_found(all, "disk"@, 3);
    first_entry_is_found(all, "cpu"@, 4);
    first_entry_is_found(all, "memory"@, 5);
    first_entry_is_found(all, "tasks"@, 6);
    first_entry_is_found(all, "engineVersion"@, 7);
    first_entry_is_found(all, "apiVersion"@, 8);
    first_entry_is_found(all, "kernelVersion"@, 9);
    first_entry_is_found(all, "agentVersion"@, 10);
}

fn space_json(total: u64, used: u64, used_percentage: Binary64, free: u64) -> (r: Json)
    ensures
        r@ == (Space {
            total: total as int,
            used: used as int,
            used_percentage: used_percentage@,
            free: free as int,
        }).payload(),
{
    let mut m: Vec<(String, Json)> = Vec::new();
    add_count(&mut m, "total", total);
    add_count(&mut m, "used", used);
    add_measure(&mut m, "used_percentage", used_percentage);
    add_count(&mut m, "free", free);
    let r: Json = object(m);
    assert(r@->Object_0 =~= (Space {
        total: total as int,
        used: used as int,
        used_percentage: used_percentage@,
        free: free as int,
    }).payload()->Object_0);
    r
}

impl Default for DiskStatus {
    fn default() -> (r: DiskStatus)
        ensures
            r@ == (Space { total: 0, used: 0, used_percentage: Real64::zero(), free: 0 }),
    {
        DiskStatus { total: 0, used: 0, used_percentage: Binary64::zero(), free: 0 }
    }
}

impl DiskStatus {
    /// The JSON object.
    pub fn to_json(&self) -> (r: Json)
        ensures
            r@ == self@.payload(),
    {
        space_json(self.total, self.used, self.used_percentage, self.free)
    }
}

impl MemoryStatus {
    /// The JSON object.
    pub fn to_json(&self) -> (r: Json)
        ensures
            r@ == self@.payload(),
    {
        space_json(self.total, self.used, self.used_percentage, self.free)
    }
}

impl CpuStatus {
    /// The JSON object.
    pub fn to_json(&self) -> (r: Json)
        ensures
            r@ == self@.payload(),
    {
        let mut m: Vec<(String, Json)> = Vec::new();
        add_measure(&mut m, "used_percentage", self.used_percentage);
        add_member(&mut m, "cores", Json::Int(self.cores as i64));
        let r: Json = object(m);
        assert(r@->Object_0 =~= self@.payload()->Object_0);
        r
    }
}

impl ContainerStatus {
    /// A zeroed [`ContainerStatus`] for a container whose stats could not be fetched (e.g. a
    /// container that stopped between list and stats).
    pub fn empty(id: String) -> (r: ContainerStatus)
        ensures
            r@ == blank(id@),
    {
        ContainerStatus {
            name: String::new(),
            id,
            namespace: None,
            pod: None,
            workload: None,
            workload_kind: None,
            cpu_percentage: Binary64::zero(),
            memory: Binary64::zero(),
            memory_limit: Binary64::zero(),
            memory_percentage: Binary64::zero(),
            network_rx_bytes: 0,
            network_tx_bytes: 0,
            block_read_bytes: 0,
            block_write_bytes: 0,
            pids: 0,
        }
    }

    fn add_identity(&self, m: &mut Vec<(String, Json)>)
        requires
            old(m)@.len() == 0,
        ensures
            members_of(final(m)@) == self@.identity(),
    {
        add_text(m, "name", self.name.as_str());
        add_text(m, "id", self.id.as_str());
        assert(members_of(m@) =~= seq![("name"@, Tree::Text(self.name@)), ("id"@, Tree::Text(self.id@))]);
        add_optional_text(m, "namespace", &self.namespace);
        add_optional_text(m, "pod", &self.pod);
        add_optional_text(m, "workload", &self.workload);
        add_optional_text(m, "workloadKind", &self.workload_kind);
    }

    fn add_measures(&self, m: &mut Vec<(String, Json)>)
        ensures
            members_of(final(m)@) == members_of(old(m)@) + self@.measures(),
    {
        add_measure(m, "cpuPercentage", self.cpu_percentage);
        add_measure(m, "memory", self.memory);
        add_measure(m, "memoryLimit", self.memory_limit);
        add_measure(m, "memoryPercentage", self.memory_percentage);
        assert(members_of(m@) =~= members_of(old(m)@) + self@.measures());
    }

    fn add_counters(&self, m: &mut Vec<(String, Json)>)
        ensures
            members_of(final(m)@) == members_of(old(m)@) + self@.counters(),
    {
        add_count(m, "networkRxBytes", self.network_rx_bytes);
        add_count(m, "networkTxBytes", self.network_tx_bytes);
        add_count(m, "blockReadBytes", self.block_read_bytes);
        add_count(m, "blockWriteBytes", self.block_write_bytes);
        add_count(m, "pids", self.pids);
        assert(members_of(m@) =~= members_of(old(m)@) + self@.counters());
    }

    /// The JSON object.
    pub fn to_json(&self) -> (r: Json)
        ensures
            r@ == self@.payload(),
    {
        let mut m: Vec<(String, Json)> = Vec::new();
        self.add_identity(&mut m);
        self.add_measures(&mut m);
        self.add_counters(&mut m);
        object(m)
    }
}

impl Status {
    fn tasks_json(&self) -> (r: Json)
        ensures
            r@ == Tree::Array(payloads(self@.tasks)),
    {
        let mut items: Vec<Json> = Vec::new();
        let mut i: usize = 0;
        let ghost goal = payloads(self@.tasks);
        while i < self.tasks.len()
            invariant
                i <= self.tasks.len(),
                goal == payloads(self@.tasks),
                items@.len() == i,
                forall|j: int| 0 <= j < i ==> (#[trigger] items@[j])@ == goal[j],
            decreases self.tasks.len() - i,
        {
            items.push(self.tasks[i].to_json());
            i = i + 1;
        }
        let r: Json = array(items);
        assert(r@->Array_0 =~= goal);
        r
    }

    fn add_usage(&self, m: &mut Vec<(String, Json)>)
        requires
            old(m)@.len() == 0,
        ensures
            members_of(final(m)@) == self@.usage(),
    {
        add_text(m, "id", self.id.as_str());
        add_text(m, "hostname", self.hostname.as_str());
        add_text(m, "orchestrator", self.orchestrator.as_str());
        add_member(m, "disk", self.disk.to_json());
        add_member(m, "cpu", self.cpu.to_json());
        add_member(m, "memory", self.memory.to_json());
        add_member(m, "tasks", self.tasks_json());
        assert(members_of(m@) =~= self@.usage());
    }

    fn add_versions(&self, m: &mut Vec<(String, Json)>)
        ensures
            members_of(final(m)@) == members_of(old(m)@) + self@.versions(),
    {
        add_text(m, "engineVersion", self.engine_version.as_str());
        add_text(m, "apiVersion", self.api_version.as_str());
        add_text(m, "kernelVersion", self.kernel_version.as_str());
        add_text(m, "agentVersion", self.agent_version.as_str());
        assert(members_of(m@) =~= members_of(old(m)@) + self@.versions());
    }

    /// The JSON object.
    pub fn to_json(&self) -> (r: Json)
        ensures
            r@ == self@.payload(),
    {
        let mut m: Vec<(String, Json)> = Vec::new();
        self.add_usage(&mut m);
        self.add_versions(&mut m);
        object(m)
    }
}

} // verus!
