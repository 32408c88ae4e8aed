//! kubelet Summary API (`/stats/summary`): types and mapping to agent models.
//!
//! The Summary API is the single source for both node-level metrics (CPU, memory, root
//! filesystem) and per-container metrics of every pod scheduled on the node.
//!
//! Known gaps versus Docker stats, accepted by design:
//! - network counters exist per **pod**, not per container: they are attributed to the pod's
//!   first reported container so that cluster totals stay correct;
//! - block I/O and PID counts are not exposed: reported as `0`.

use vstd::prelude::*;

use crate::binary64::{Binary64, Real64};
use crate::counter::{capped, count, count_of, floored, minus, plus, total, total_is_not_negative};
use crate::keyed::{find, put_then_find, viewed, viewed_then_find, StringMap};
use crate::models::{snapshots, ContainerStatus, CpuStatus, DiskStatus, Load, MemoryStatus, Snapshot, Space};
use crate::json::Tree;
use crate::percent::{pct, percentage, percentage_is_at_most_hundred, percentage_is_the_ratio};
use crate::provider::kubernetes::events::{
    container_prefix, id_prefix, observed, status_name, tracked_of, Watched,
};
use crate::provider::kubernetes::pods::{pod_key, Meta, PodMeta};
use crate::text::{chars_of, joined};

verus! {

/// Root object returned by `GET /stats/summary`.
#[derive(Debug)]
pub struct Summary {
    /// Node-level aggregates.
    pub node: NodeSummary,
    /// Per-pod statistics for pods on this node.
    pub pods: Vec<PodSummary>,
}

/// Node section of the summary.
#[derive(Debug, Clone, Copy)]
pub struct NodeSummary {
    /// CPU usage of the whole node.
    pub cpu: Option<CpuSample>,
    /// Memory usage of the whole node.
    pub memory: Option<MemorySample>,
    /// Root filesystem usage of the node.
    pub fs: Option<FsSample>,
}

/// One pod's statistics.
#[derive(Debug)]
pub struct PodSummary {
    /// Pod identity (name, namespace).
    pub pod_ref: PodRef,
    /// Per-container samples.
    pub containers: Vec<ContainerSample>,
    /// Pod-level network counters (containers share the pod's network).
    pub network: Option<NetworkSample>,
}

/// Pod reference inside the summary.
#[derive(Debug, Default)]
pub struct PodRef {
    /// Pod name.
    pub name: String,
    /// Pod namespace.
    pub namespace: String,
}

/// One container's samples.
#[derive(Debug)]
pub struct ContainerSample {
    /// Container name (unique within the pod).
    pub name: String,
    /// CPU sample.
    pub cpu: Option<CpuSample>,
    /// Memory sample.
    pub memory: Option<MemorySample>,
}

/// CPU usage sample.
#[derive(Debug, Default, Clone, Copy)]
pub struct CpuSample {
    /// Instantaneous usage in nano-cores.
    pub usage_nano_cores: Option<u64>,
}

/// Memory usage sample.
#[derive(Debug, Default, Clone, Copy)]
pub struct MemorySample {
    /// Bytes still available before hitting memory pressure (node level).
    pub available_bytes: Option<u64>,
    /// Working set: the value the kubelet uses for eviction decisions.
    pub working_set_bytes: Option<u64>,
}

/// Filesystem usage sample.
#[derive(Debug, Default, Clone, Copy)]
pub struct FsSample {
    /// Total capacity in bytes.
    pub capacity_bytes: Option<u64>,
    /// Used bytes.
    pub used_bytes: Option<u64>,
    /// Available bytes.
    pub available_bytes: Option<u64>,
}

/// Pod network counters.
#[derive(Debug, Default)]
pub struct NetworkSample {
    /// Received bytes on the default interface.
    pub rx_bytes: Option<u64>,
    /// Transmitted bytes on the default interface.
    pub tx_bytes: Option<u64>,
    /// Per-interface counters (used where a top-level counter is absent).
    pub interfaces: Vec<InterfaceSample>,
}

/// One network interface's counters.
#[derive(Debug, Default, Clone, Copy)]
pub struct InterfaceSample {
    /// Received bytes.
    pub rx_bytes: Option<u64>,
    /// Transmitted bytes.
    pub tx_bytes: Option<u64>,
}

impl Default for NodeSummary {
    fn default() -> (r: NodeSummary)
        ensures
            r.cpu is None && r.memory is None && r.fs is None,
    {
        NodeSummary { cpu: None, memory: None, fs: None }
    }
}

// ── Counters and percentages ─────────────────────────────────────────────────

/// Nano-cores in use, zero where they are missing.
pub open spec fn usage_of(cpu: Option<CpuSample>) -> int {
    match cpu {
        Some(c) => count_of(c.usage_nano_cores),
        None => 0,
    }
}

/// Bytes in the working set, zero where they are missing.
pub open spec fn working_set_of(memory: Option<MemorySample>) -> int {
    match memory {
        Some(m) => count_of(m.working_set_bytes),
        None => 0,
    }
}

/// What percentage of a node's cores `nano_cores` are.
pub open spec fn core_percentage(nano_cores: int, cores: Real64) -> Real64 {
    percentage(Real64::of(nano_cores as nat), cores.times(Real64::of(1_000_000_000)))
}

/// Received bytes of each interface.
pub open spec fn received(interfaces: Seq<InterfaceSample>) -> Seq<int> {
    Seq::new(interfaces.len(), |i: int| count_of(interfaces[i].rx_bytes))
}

/// Transmitted bytes of each interface.
pub open spec fn transmitted(interfaces: Seq<InterfaceSample>) -> Seq<int> {
    Seq::new(interfaces.len(), |i: int| count_of(interfaces[i].tx_bytes))
}

/// Received and transmitted bytes of a pod: its own counters where it has both, else the totals
/// over its interfaces.
pub open spec fn traffic_of(network: NetworkSample) -> (int, int) {
    match (network.rx_bytes, network.tx_bytes) {
        (Some(rx), Some(tx)) => (rx as int, tx as int),
        _ => (
            capped(total(received(network.interfaces@))),
            capped(total(transmitted(network.interfaces@))),
        ),
    }
}

impl NetworkSample {
    /// `(rx, tx)`: top-level counters, or the totals over interfaces.
    pub fn totals(&self) -> (r: (u64, u64))
        ensures
            (r.0 as int, r.1 as int) == traffic_of(*self),
    {
        match (self.rx_bytes, self.tx_bytes) {
            (Some(rx), Some(tx)) => (rx, tx),
            _ => {
                let mut rx: u64 = 0;
                let mut tx: u64 = 0;
                let mut i: usize = 0;
                let ghost all = self.interfaces@;
                while i < self.interfaces.len()
                    invariant
                        i <= self.interfaces.len(),
                        all == self.interfaces@,
                        rx == capped(total(received(all.take(i as int)))),
                        tx == capped(total(transmitted(all.take(i as int)))),
                    decreases self.interfaces.len() - i,
                {
                    proof {
                        let n = i as int;
                        assert(received(all.take(n + 1)).drop_last() =~= received(all.take(n)));
                        assert(transmitted(all.take(n + 1)).drop_last() =~= transmitted(all.take(n)));
                        total_is_not_negative(received(all.take(n)));
                        total_is_not_negative(transmitted(all.take(n)));
                    }
                    rx = plus(rx, count(self.interfaces[i].rx_bytes));
                    tx = plus(tx, count(self.interfaces[i].tx_bytes));
                    i = i + 1;
                }
                assert(all.take(all.len() as int) =~= all);
                (rx, tx)
            },
        }
    }
}

// ── The node ─────────────────────────────────────────────────────────────────

/// Cores as a whole number: the nearest one, at least one.
pub open spec fn whole_cores(cores: Real64) -> int {
    let n = cores.to_u64();
    if n < 1 {
        1
    } else if n > i32::MAX {
        i32::MAX as int
    } else {
        n as int
    }
}

/// CPU usage of a node with `cores` cores.
pub open spec fn node_load(node: NodeSummary, cores: Real64) -> Load {
    Load { used_percentage: core_percentage(usage_of(node.cpu), cores), cores: whole_cores(cores) }
}

/// Memory usage of a node with `total` bytes: what is not available is used. Where the summary
/// does not say what is available, it is what the working set leaves.
pub open spec fn node_memory(node: NodeSummary, total: int) -> Space {
    let available = match node.memory {
        Some(m) => m.available_bytes,
        None => None,
    };
    let free = match available {
        Some(bytes) => bytes as int,
        None => floored(total - working_set_of(node.memory)),
    };
    let used = floored(total - free);
    Space {
        total,
        used,
        used_percentage: percentage(Real64::of(used as nat), Real64::of(total as nat)),
        free,
    }
}

/// Root filesystem usage of a node. Where the summary does not say what is used, it is what is
/// not available.
pub open spec fn node_disk(node: NodeSummary) -> Space {
    let (total, free, stated) = match node.fs {
        Some(f) => (count_of(f.capacity_bytes), count_of(f.available_bytes), f.used_bytes),
        None => (0, 0, None),
    };
    let used = match stated {
        Some(bytes) => bytes as int,
        None => floored(total - free),
    };
    Space {
        total,
        used,
        used_percentage: percentage(Real64::of(used as nat), Real64::of(total as nat)),
        free,
    }
}

/// Maps the node section of the summary to host-level status models.
///
/// `capacity_cores` and `capacity_mem_bytes` come from the Node object (`status.capacity`).
pub fn node_status_parts(node: &NodeSummary, capacity_cores: &Binary64, capacity_mem_bytes: u64) -> (r: (
    CpuStatus,
    MemoryStatus,
    DiskStatus,
))
    ensures
        r.0@ == node_load(*node, capacity_cores@),
        r.1@ == node_memory(*node, capacity_mem_bytes as int),
        r.2@ == node_disk(*node),
{
    let cpu: CpuStatus = CpuStatus {
        used_percentage: nano_core_percentage(node.cpu, capacity_cores),
        cores: round_cores(capacity_cores),
    };
    let (available, working_set): (Option<u64>, u64) = match node.memory {
        Some(m) => (m.available_bytes, count(m.working_set_bytes)),
        None => (None, 0),
    };
    let free: u64 = match available {
        Some(bytes) => bytes,
        None => minus(capacity_mem_bytes, working_set),
    };
    let used: u64 = minus(capacity_mem_bytes, free);
    let memory: MemoryStatus = MemoryStatus {
        total: capacity_mem_bytes,
        used,
        used_percentage: pct(&Binary64::from_u64(used), &Binary64::from_u64(capacity_mem_bytes)),
        free,
    };
    let (fs_total, fs_free, stated): (u64, u64, Option<u64>) = match node.fs {
        Some(f) => (count(f.capacity_bytes), count(f.available_bytes), f.used_bytes),
        None => (0, 0, None),
    };
    let fs_used: u64 = match stated {
        Some(bytes) => bytes,
        None => minus(fs_total, fs_free),
    };
    let disk: DiskStatus = DiskStatus {
        total: fs_total,
        used: fs_used,
        used_percentage: pct(&Binary64::from_u64(fs_used), &Binary64::from_u64(fs_total)),
        free: fs_free,
    };
    (cpu, memory, disk)
}

fn nano_core_percentage(cpu: Option<CpuSample>, cores: &Binary64) -> (r: Binary64)
    ensures
        r@ == core_percentage(usage_of(cpu), cores@),
{
    let usage: u64 = match cpu {
        Some(c) => count(c.usage_nano_cores),
        None => 0,
    };
    pct(&Binary64::from_u64(usage), &cores.times(&Binary64::from_u64(1_000_000_000)))
}

fn round_cores(cores: &Binary64) -> (r: i32)
    ensures
        r == whole_cores(cores@),
{
    let n: u64 = cores.to_u64();
    if n < 1 {
        1
    } else if n > 0x7fff_ffff {
        0x7fff_ffff
    } else {
        n as i32
    }
}

// ── Containers ───────────────────────────────────────────────────────────────

/// The snapshot of one container of a pod; `traffic` is what the network counters are to say.
pub open spec fn sample_snapshot(
    namespace: Seq<char>,
    pod: Seq<char>,
    sample: ContainerSample,
    meta: Option<Meta>,
    cores: Real64,
    traffic: (int, int),
) -> Snapshot {
    let working_set = Real64::of(working_set_of(sample.memory) as nat);
    let limit = match meta {
        Some(m) => Real64::of(count_of(find(m.mem_limits, sample.name@)) as nat),
        None => Real64::of(0),
    };
    Snapshot {
        name: sample.name@,
        id: id_prefix(namespace, pod) + sample.name@,
        namespace: Some(namespace),
        pod: Some(pod),
        workload: match meta {
            Some(m) => m.workload,
            None => None,
        },
        workload_kind: match meta {
            Some(m) => m.workload_kind,
            None => None,
        },
        cpu_percentage: core_percentage(usage_of(sample.cpu), cores),
        memory: working_set,
        memory_limit: limit,
        memory_percentage: percentage(working_set, limit),
        network_rx_bytes: traffic.0,
        network_tx_bytes: traffic.1,
        block_read_bytes: 0,
        block_write_bytes: 0,
        pids: 0,
    }
}

/// Received and transmitted bytes of a pod.
pub open spec fn pod_traffic(pod: PodSummary) -> (int, int) {
    match pod.network {
        Some(network) => traffic_of(network),
        None => (0, 0),
    }
}

/// The snapshots of the first `n` containers of a pod, those without a name left out. The first one
/// that is not has the pod's traffic.
pub open spec fn first_snapshots(pod: PodSummary, n: int, meta: Option<Meta>, cores: Real64) -> Seq<Snapshot>
    decreases n,
{
    if n <= 0 {
        seq![]
    } else {
        let before = first_snapshots(pod, n - 1, meta, cores);
        let sample = pod.containers@[n - 1];
        if sample.name@.len() == 0 {
            before
        } else {
            before.push(
                sample_snapshot(
                    pod.pod_ref.namespace@,
                    pod.pod_ref.name@,
                    sample,
                    meta,
                    cores,
                    if before.len() == 0 {
                        pod_traffic(pod)
                    } else {
                        (0, 0)
                    },
                ),
            )
        }
    }
}

/// The snapshots of a pod's containers; none of a pod without a namespace or a name.
pub open spec fn pod_snapshots(pod: PodSummary, metas: Seq<(Seq<char>, Meta)>, cores: Real64) -> Seq<Snapshot> {
    let namespace = pod.pod_ref.namespace@;
    let name = pod.pod_ref.name@;
    if namespace.len() == 0 || name.len() == 0 {
        seq![]
    } else {
        first_snapshots(pod, pod.containers@.len() as int, find(metas, pod_key(namespace, name)), cores)
    }
}

/// The snapshots of the containers of all pods, pod by pod.
pub open spec fn all_snapshots(pods: Seq<PodSummary>, metas: Seq<(Seq<char>, Meta)>, cores: Real64) -> Seq<
    Snapshot,
>
    decreases pods.len(),
{
    if pods.len() == 0 {
        seq![]
    } else {
        all_snapshots(pods.drop_last(), metas, cores) + pod_snapshots(pods.last(), metas, cores)
    }
}

fn copied(s: &Option<String>) -> (r: Option<String>)
    ensures
        chars_of(r) == chars_of(*s),
{
    match s {
        Some(t) => Some(t.as_str().to_owned()),
        None => None,
    }
}

/// What a [`PodMeta`] that may be missing says.
pub open spec fn meta_view(meta: Option<&PodMeta>) -> Option<Meta> {
    match meta {
        Some(m) => Some(m@),
        None => None,
    }
}

fn sample_status(
    namespace: &str,
    pod: &str,
    sample: &ContainerSample,
    meta: Option<&PodMeta>,
    cores: &Binary64,
    rx: u64,
    tx: u64,
) -> (r: ContainerStatus)
    ensures
        r@ == sample_snapshot(namespace@, pod@, *sample, meta_view(meta), cores@, (rx as int, tx as int)),
{
    let memory: Binary64 = Binary64::from_u64(
        match sample.memory {
            Some(m) => count(m.working_set_bytes),
            None => 0,
        },
    );
    let limit: u64 = match meta {
        Some(m) => match m.mem_limits.get(sample.name.as_str()) {
            Some(bytes) => *bytes,
            None => 0,
        },
        None => 0,
    };
    let memory_limit: Binary64 = Binary64::from_u64(limit);
    ContainerStatus {
        name: sample.name.as_str().to_owned(),
        id: joined(container_prefix(namespace, pod).as_str(), sample.name.as_str()),
        namespace: Some(namespace.to_owned()),
        pod: Some(pod.to_owned()),
        workload: match meta {
            Some(m) => copied(&m.workload),
            None => None,
        },
        workload_kind: match meta {
            Some(m) => copied(&m.workload_kind),
            None => None,
        },
        cpu_percentage: nano_core_percentage(sample.cpu, cores),
        memory,
        memory_limit,
        memory_percentage: pct(&memory, &memory_limit),
        network_rx_bytes: rx,
        network_tx_bytes: tx,
        block_read_bytes: 0,
        block_write_bytes: 0,
        pids: 0,
    }
}

fn push_pod(out: &mut Vec<ContainerStatus>, pod: &PodSummary, metas: &StringMap<PodMeta>, cores: &Binary64)
    ensures
        snapshots(final(out)@) == snapshots(old(out)@) + pod_snapshots(*pod, viewed(metas@), cores@),
{
    let namespace: &str = pod.pod_ref.namespace.as_str();
    let name: &str = pod.pod_ref.name.as_str();
    let ghost before = snapshots(out@);
    if namespace.unicode_len() == 0 || name.unicode_len() == 0 {
        assert(before + seq![] =~= before);
        return;
    }
    let mut key: String = joined(namespace, "/");
    key.append(name);
    let meta: Option<&PodMeta> = metas.get(key.as_str());
    proof {
        viewed_then_find(metas@, key@);
    }
    let (pod_rx, pod_tx): (u64, u64) = match &pod.network {
        Some(network) => network.totals(),
        None => (0, 0),
    };
    let ghost view = meta_view(meta);
    let reported: usize = out.len();
    let mut i: usize = 0;
    assert(before + first_snapshots(*pod, 0, view, cores@) =~= before);
    while i < pod.containers.len()
        invariant
            i <= pod.containers.len(),
            namespace@ == pod.pod_ref.namespace@,
            name@ == pod.pod_ref.name@,
            view == meta_view(meta),
            before.len() == reported,
            (pod_rx as int, pod_tx as int) == pod_traffic(*pod),
            snapshots(out@) == before + first_snapshots(*pod, i as int, view, cores@),
        decreases pod.containers.len() - i,
    {
        let ghost held = out@;
        let sample: &ContainerSample = &pod.containers[i];
        if sample.name.as_str().unicode_len() > 0 {
            let (rx, tx): (u64, u64) = if out.len() == reported {
                (pod_rx, pod_tx)
            } else {
                (0, 0)
            };
            out.push(sample_status(namespace, name, sample, meta, cores, rx, tx));
            assert(snapshots(out@) =~= snapshots(held).push(out@.last()@));
        }
        i = i + 1;
        assert(snapshots(out@) =~= before + first_snapshots(*pod, i as int, view, cores@));
    }
}

/// Maps per-pod container samples to [`ContainerStatus`] entries.
///
/// `metas` is keyed by `"{namespace}/{pod}"`; container IDs are
/// `"{namespace}/{pod}/{container}"`. CPU percentages are relative to the whole node.
pub fn container_statuses(summary: &Summary, metas: &StringMap<PodMeta>, capacity_cores: &Binary64) -> (r: Vec<
    ContainerStatus,
>)
    ensures
        snapshots(r@) == all_snapshots(summary.pods@, viewed(metas@), capacity_cores@),
{
    let mut out: Vec<ContainerStatus> = Vec::new();
    let ghost all = summary.pods@;
    let mut i: usize = 0;
    assert(snapshots(out@) =~= seq![]);
    while i < summary.pods.len()
        invariant
            i <= summary.pods.len(),
            all == summary.pods@,
            snapshots(out@) == all_snapshots(all.take(i as int), viewed(metas@), capacity_cores@),
        decreases summary.pods.len() - i,
    {
        proof {
            assert(all.take(i + 1).drop_last() =~= all.take(i as int));
            assert(all.take(i + 1).last() == all[i as int]);
        }
        push_pod(&mut out, &summary.pods[i], metas, capacity_cores);
        i = i + 1;
    }
    assert(all.take(all.len() as int) =~= all);
    out
}

// ── Laws ─────────────────────────────────────────────────────────────────────

/// Received bytes of each container.
pub open spec fn received_by(tasks: Seq<Snapshot>) -> Seq<int> {
    Seq::new(tasks.len(), |i: int| tasks[i].network_rx_bytes)
}

/// Transmitted bytes of each container.
pub open spec fn transmitted_by(tasks: Seq<Snapshot>) -> Seq<int> {
    Seq::new(tasks.len(), |i: int| tasks[i].network_tx_bytes)
}

/// Whether some container of a pod has a name.
pub open spec fn has_named_container(pod: PodSummary) -> bool {
    exists|i: int| 0 <= i < pod.containers@.len() && (#[trigger] pod.containers@[i]).name@.len() > 0
}

/// Whether the traffic of a pod can be reported: it has a namespace, a name and a container with a
/// name, or there is no traffic.
pub open spec fn is_attributable(pod: PodSummary) -> bool {
    ||| pod_traffic(pod) == (0int, 0int)
    ||| pod.pod_ref.namespace@.len() > 0 && pod.pod_ref.name@.len() > 0 && has_named_container(pod)
}

proof fn lemma_first_traffic(pod: PodSummary, n: int, meta: Option<Meta>, cores: Real64)
    requires
        0 <= n <= pod.containers@.len(),
    ensures
        ({
            let tasks = first_snapshots(pod, n, meta, cores);
            let traffic = if tasks.len() > 0 {
                pod_traffic(pod)
            } else {
                (0, 0)
            };
            &&& total(received_by(tasks)) == traffic.0
            &&& total(transmitted_by(tasks)) == traffic.1
            &&& (exists|i: int| 0 <= i < n && (#[trigger] pod.containers@[i]).name@.len() > 0) ==> tasks.len() > 0
        }),
    decreases n,
{
    reveal_with_fuel(total, 2);
    let tasks = first_snapshots(pod, n, meta, cores);
    if n == 0 {
        assert(received_by(tasks) =~= seq![]);
        assert(transmitted_by(tasks) =~= seq![]);
    } else {
        let before = first_snapshots(pod, n - 1, meta, cores);
        lemma_first_traffic(pod, n - 1, meta, cores);
        if pod.containers@[n - 1].name@.len() > 0 {
            assert(received_by(tasks).drop_last() =~= received_by(before));
            assert(transmitted_by(tasks).drop_last() =~= transmitted_by(before));
        }
    }
}

/// The traffic of a pod is reported once: over its containers it adds up to the pod's own.
pub proof fn pod_traffic_is_reported_once(pod: PodSummary, metas: Seq<(Seq<char>, Meta)>, cores: Real64)
    requires
        is_attributable(pod),
    ensures
        total(received_by(pod_snapshots(pod, metas, cores))) == pod_traffic(pod).0,
        total(transmitted_by(pod_snapshots(pod, metas, cores))) == pod_traffic(pod).1,
        forall|i: int|
            0 < i < pod_snapshots(pod, metas, cores).len() ==> (#[trigger] pod_snapshots(
                pod,
                metas,
                cores,
            )[i]).network_rx_bytes == 0 && pod_snapshots(pod, metas, cores)[i].network_tx_bytes == 0,
{
    let n = pod.containers@.len() as int;
    let meta = find(metas, pod_key(pod.pod_ref.namespace@, pod.pod_ref.name@));
    lemma_first_traffic(pod, n, meta, cores);
    lemma_later_traffic(pod, n, meta, cores);
    let none: Seq<Snapshot> = seq![];
    assert(received_by(none) =~= seq![]);
    assert(transmitted_by(none) =~= seq![]);
}

/// Only the first reported container has traffic.
proof fn lemma_later_traffic(pod: PodSummary, n: int, meta: Option<Meta>, cores: Real64)
    ensures
        forall|i: int|
            0 < i < first_snapshots(pod, n, meta, cores).len() ==> (#[trigger] first_snapshots(
                pod,
                n,
                meta,
                cores,
            )[i]).network_rx_bytes == 0 && first_snapshots(pod, n, meta, cores)[i].network_tx_bytes == 0,
    decreases n,
{
    if n > 0 {
        let before = first_snapshots(pod, n - 1, meta, cores);
        let tasks = first_snapshots(pod, n, meta, cores);
        lemma_later_traffic(pod, n - 1, meta, cores);
        assert forall|i: int| 0 < i < tasks.len() implies (#[trigger] tasks[i]).network_rx_bytes == 0
            && tasks[i].network_tx_bytes == 0 by {
            if i < before.len() {
                assert(tasks[i] == before[i]);
            }
        }
    }
}

/// Received and transmitted bytes of each pod.
pub open spec fn traffic_by_pod(pods: Seq<PodSummary>) -> (Seq<int>, Seq<int>) {
    (
        Seq::new(pods.len(), |i: int| pod_traffic(pods[i]).0),
        Seq::new(pods.len(), |i: int| pod_traffic(pods[i]).1),
    )
}

proof fn lemma_total_concat(a: Seq<int>, b: Seq<int>)
    ensures
        total(a + b) == total(a) + total(b),
    decreases b.len(),
{
    if b.len() == 0 {
        assert(a + b =~= a);
    } else {
        lemma_total_concat(a, b.drop_last());
        assert((a + b).drop_last() =~= a + b.drop_last());
    }
}

/// Sums over all containers stay correct: the traffic of all containers adds up to that of all
/// pods.
pub proof fn traffic_adds_up(pods: Seq<PodSummary>, metas: Seq<(Seq<char>, Meta)>, cores: Real64)
    requires
        forall|i: int| 0 <= i < pods.len() ==> is_attributable(#[trigger] pods[i]),
    ensures
        total(received_by(all_snapshots(pods, metas, cores))) == total(traffic_by_pod(pods).0),
        total(transmitted_by(all_snapshots(pods, metas, cores))) == total(traffic_by_pod(pods).1),
    decreases pods.len(),
{
    if pods.len() > 0 {
        let rest = pods.drop_last();
        assert forall|i: int| 0 <= i < rest.len() implies is_attributable(#[trigger] rest[i]) by {
            assert(rest[i] == pods[i]);
        }
        traffic_adds_up(rest, metas, cores);
        assert(is_attributable(pods[pods.len() - 1]));
        pod_traffic_is_reported_once(pods.last(), metas, cores);
        let before = all_snapshots(rest, metas, cores);
        let added = pod_snapshots(pods.last(), metas, cores);
        assert(received_by(before + added) =~= received_by(before) + received_by(added));
        assert(transmitted_by(before + added) =~= transmitted_by(before) + transmitted_by(added));
        lemma_total_concat(received_by(before), received_by(added));
        lemma_total_concat(transmitted_by(before), transmitted_by(added));
        assert(traffic_by_pod(pods).0.drop_last() =~= traffic_by_pod(rest).0);
        assert(traffic_by_pod(pods).1.drop_last() =~= traffic_by_pod(rest).1);
    } else {
        assert(received_by(all_snapshots(pods, metas, cores)) =~= seq![]);
        assert(transmitted_by(all_snapshots(pods, metas, cores)) =~= seq![]);
    }
}

// ── What is reported of each container ───────────────────────────────────────

/// The bytes that the interfaces received, from the first on.
pub open spec fn bytes_in(interfaces: Seq<InterfaceSample>) -> int
    decreases interfaces.len(),
{
    if interfaces.len() == 0 {
        0
    } else {
        bytes_in(interfaces.drop_last()) + match interfaces.last().rx_bytes {
            Some(n) => n as int,
            None => 0,
        }
    }
}

/// The bytes that the interfaces transmitted, from the first on.
pub open spec fn bytes_out(interfaces: Seq<InterfaceSample>) -> int
    decreases interfaces.len(),
{
    if interfaces.len() == 0 {
        0
    } else {
        bytes_out(interfaces.drop_last()) + match interfaces.last().tx_bytes {
            Some(n) => n as int,
            None => 0,
        }
    }
}

/// Whether a pod received `rx` and transmitted `tx` bytes: as its own counters say where it has
/// both, else as much as its interfaces together, up to what 64 bits hold.
pub open spec fn moved(network: Option<NetworkSample>, rx: int, tx: int) -> bool {
    match network {
        Some(n) => if n.rx_bytes is Some && n.tx_bytes is Some {
            rx == n.rx_bytes->0 && tx == n.tx_bytes->0
        } else {
            &&& rx == if bytes_in(n.interfaces@) <= u64::MAX {
                bytes_in(n.interfaces@)
            } else {
                u64::MAX as int
            }
            &&& tx == if bytes_out(n.interfaces@) <= u64::MAX {
                bytes_out(n.interfaces@)
            } else {
                u64::MAX as int
            }
        },
        None => rx == 0 && tx == 0,
    }
}

proof fn lemma_bytes(interfaces: Seq<InterfaceSample>)
    ensures
        total(received(interfaces)) == bytes_in(interfaces),
        total(transmitted(interfaces)) == bytes_out(interfaces),
    decreases interfaces.len(),
{
    if interfaces.len() > 0 {
        lemma_bytes(interfaces.drop_last());
        assert(received(interfaces).drop_last() =~= received(interfaces.drop_last()));
        assert(transmitted(interfaces).drop_last() =~= transmitted(interfaces.drop_last()));
    }
}

/// A pod moved what its counters say, or what its interfaces together say.
pub proof fn traffic_is_what_the_counters_say(pod: PodSummary)
    ensures
        moved(pod.network, pod_traffic(pod).0, pod_traffic(pod).1),
{
    if let Some(n) = pod.network {
        lemma_bytes(n.interfaces@);
    }
}

/// Whether container `j` of a pod can be reported: the pod has a namespace and a name, and the
/// container has a name.
pub open spec fn is_reportable(pod: PodSummary, j: int) -> bool {
    pod.pod_ref.namespace@.len() > 0 && pod.pod_ref.name@.len() > 0 && pod.containers@[j].name@.len() > 0
}

/// How many of the first `j` containers of a pod can be reported.
pub open spec fn reported_before(pod: PodSummary, j: int) -> nat
    decreases j,
{
    if j <= 0 {
        0
    } else if is_reportable(pod, j - 1) {
        reported_before(pod, j - 1) + 1
    } else {
        reported_before(pod, j - 1)
    }
}

/// How many containers of the first `i` pods can be reported.
pub open spec fn reported_in(pods: Seq<PodSummary>, i: int) -> nat
    decreases i,
{
    if i <= 0 {
        0
    } else {
        reported_in(pods, i - 1) + reported_before(pods[i - 1], pods[i - 1].containers@.len() as int)
    }
}

/// What percentage of `cores` cores `nano_cores` are; zero where there is no core.
pub open spec fn share_of_cores(nano_cores: int, cores: Real64) -> Real64 {
    let whole = cores.times(Real64::of(1_000_000_000));
    if whole.is_positive() {
        Real64::of(nano_cores as nat).over(whole).times(Real64::of(100))
    } else {
        Real64::zero()
    }
}

/// Whether a snapshot says of a container of a pod what its sample and the metadata of its pod say.
pub open spec fn reflects(
    s: Snapshot,
    pod: PodSummary,
    sample: ContainerSample,
    metas: Seq<(Seq<char>, Meta)>,
    cores: Real64,
) -> bool {
    let namespace = pod.pod_ref.namespace@;
    let name = pod.pod_ref.name@;
    let meta = find(metas, namespace + "/"@ + name);
    let used: int = if sample.memory is Some && sample.memory->0.working_set_bytes is Some {
        sample.memory->0.working_set_bytes->0 as int
    } else {
        0
    };
    let limit: int = if meta is Some && find(meta->0.mem_limits, sample.name@) is Some {
        find(meta->0.mem_limits, sample.name@)->0 as int
    } else {
        0
    };
    let busy: int = if sample.cpu is Some && sample.cpu->0.usage_nano_cores is Some {
        sample.cpu->0.usage_nano_cores->0 as int
    } else {
        0
    };
    &&& s.name == sample.name@
    &&& s.id == namespace + "/"@ + name + "/"@ + sample.name@
    &&& s.namespace == Some(namespace)
    &&& s.pod == Some(name)
    &&& meta is None ==> s.workload is None && s.workload_kind is None
    &&& meta is Some ==> s.workload == meta->0.workload && s.workload_kind == meta->0.workload_kind
    &&& s.cpu_percentage == share_of_cores(busy, cores)
    &&& s.memory == Real64::of(used as nat)
    &&& s.memory_limit == Real64::of(limit as nat)
    &&& limit > 0 ==> s.memory_percentage == s.memory.over(s.memory_limit).times(Real64::of(100))
    &&& limit == 0 ==> s.memory_percentage == Real64::zero()
    &&& s.block_read_bytes == 0 && s.block_write_bytes == 0 && s.pids == 0
}

proof fn lemma_reflects(
    pod: PodSummary,
    sample: ContainerSample,
    metas: Seq<(Seq<char>, Meta)>,
    cores: Real64,
    traffic: (int, int),
)
    ensures
        reflects(
            sample_snapshot(
                pod.pod_ref.namespace@,
                pod.pod_ref.name@,
                sample,
                find(metas, pod_key(pod.pod_ref.namespace@, pod.pod_ref.name@)),
                cores,
                traffic,
            ),
            pod,
            sample,
            metas,
            cores,
        ),
{
    let meta = find(metas, pod_key(pod.pod_ref.namespace@, pod.pod_ref.name@));
    let used = Real64::of(working_set_of(sample.memory) as nat);
    let limit = match meta {
        Some(m) => count_of(find(m.mem_limits, sample.name@)) as nat,
        None => 0,
    };
    percentage_is_the_ratio(used, limit);
}

proof fn lemma_pod_positions(
    pod: PodSummary,
    n: int,
    metas: Seq<(Seq<char>, Meta)>,
    cores: Real64,
    j: int,
)
    requires
        0 <= n <= pod.containers@.len(),
        pod.pod_ref.namespace@.len() > 0,
        pod.pod_ref.name@.len() > 0,
    ensures
        ({
            let tasks = first_snapshots(
                pod,
                n,
                find(metas, pod_key(pod.pod_ref.namespace@, pod.pod_ref.name@)),
                cores,
            );
            let at = reported_before(pod, j) as int;
            &&& tasks.len() == reported_before(pod, n)
            &&& 0 <= j < n && is_reportable(pod, j) ==> {
                &&& at < tasks.len()
                &&& reflects(tasks[at], pod, pod.containers@[j], metas, cores)
                &&& at == 0 ==> (tasks[at].network_rx_bytes, tasks[at].network_tx_bytes) == pod_traffic(pod)
                &&& at > 0 ==> tasks[at].network_rx_bytes == 0 && tasks[at].network_tx_bytes == 0
            }
        }),
    decreases n,
{
    if n > 0 {
        lemma_pod_positions(pod, n - 1, metas, cores, j);
        let meta = find(metas, pod_key(pod.pod_ref.namespace@, pod.pod_ref.name@));
        let before = first_snapshots(pod, n - 1, meta, cores);
        let tasks = first_snapshots(pod, n, meta, cores);
        let at = reported_before(pod, j) as int;
        if 0 <= j < n - 1 && is_reportable(pod, j) {
            assert(tasks[at] == before[at]);
        } else if j == n - 1 && is_reportable(pod, j) {
            lemma_reflects(
                pod,
                pod.containers@[j],
                metas,
                cores,
                if before.len() == 0 {
                    pod_traffic(pod)
                } else {
                    (0, 0)
                },
            );
        }
    }
}

proof fn lemma_none_reported(pod: PodSummary, j: int)
    requires
        pod.pod_ref.namespace@.len() == 0 || pod.pod_ref.name@.len() == 0,
    ensures
        reported_before(pod, j) == 0,
    decreases j,
{
    if j > 0 {
        lemma_none_reported(pod, j - 1);
    }
}

/// Every container that can be reported is, pod by pod and in order, and nothing else: container
/// `j` of pod `i` stands behind those that come before it. Its snapshot says what its sample and
/// the metadata of its pod say, and the first one of a pod has the pod's traffic.
pub proof fn each_container_is_reported(
    pods: Seq<PodSummary>,
    metas: Seq<(Seq<char>, Meta)>,
    cores: Real64,
    i: int,
    j: int,
)
    ensures
        all_snapshots(pods, metas, cores).len() == reported_in(pods, pods.len() as int),
        0 <= i < pods.len() && 0 <= j < pods[i].containers@.len() && is_reportable(pods[i], j) ==> ({
            let at = (reported_in(pods, i) + reported_before(pods[i], j)) as int;
            let s = all_snapshots(pods, metas, cores)[at];
            &&& at < all_snapshots(pods, metas, cores).len()
            &&& reflects(s, pods[i], pods[i].containers@[j], metas, cores)
            &&& reported_before(pods[i], j) == 0 ==> moved(
                pods[i].network,
                s.network_rx_bytes,
                s.network_tx_bytes,
            )
            &&& reported_before(pods[i], j) > 0 ==> s.network_rx_bytes == 0 && s.network_tx_bytes == 0
        }),
    decreases pods.len(),
{
    if pods.len() > 0 {
        let rest = pods.drop_last();
        let last = pods.last();
        let n = last.containers@.len() as int;
        each_container_is_reported(rest, metas, cores, i, j);
        lemma_reported_in(pods, rest.len() as int);
        if last.pod_ref.namespace@.len() > 0 && last.pod_ref.name@.len() > 0 {
            lemma_pod_positions(last, n, metas, cores, j);
        } else {
            lemma_none_reported(last, n);
        }
        traffic_is_what_the_counters_say(last);
        if 0 <= i < rest.len() {
            lemma_reported_in(pods, i);
            assert(rest[i] == pods[i]);
        }
    }
}

/// Pods behind the first `i` do not matter to how many are reported before.
proof fn lemma_reported_in(pods: Seq<PodSummary>, i: int)
    requires
        i < pods.len(),
    ensures
        reported_in(pods, i) == reported_in(pods.drop_last(), i),
    decreases i,
{
    if i > 0 {
        lemma_reported_in(pods, i - 1);
        assert(pods.drop_last()[i - 1] == pods[i - 1]);
    }
}

// ── What is reported of the node ─────────────────────────────────────────────

/// The share of its cores that a node uses is what its nano-cores are of them.
pub proof fn node_load_is_its_share(node: NodeSummary, cores: Real64)
    ensures
        node.cpu is Some && node.cpu->0.usage_nano_cores is Some ==> node_load(node, cores).used_percentage
            == share_of_cores(node.cpu->0.usage_nano_cores->0 as int, cores),
        node.cpu is None || node.cpu->0.usage_nano_cores is None ==> node_load(node, cores).used_percentage
            == share_of_cores(0, cores),
        1 <= node_load(node, cores).cores <= i32::MAX,
        1 <= cores.to_u64() <= i32::MAX ==> node_load(node, cores).cores == cores.to_u64(),
        cores.to_u64() > i32::MAX ==> node_load(node, cores).cores == i32::MAX,
{
}

/// The memory of a node: as much is free as is stated to be available, else what the working set
/// leaves; the rest is used, never less than nothing.
pub proof fn node_memory_is_what_is_not_available(node: NodeSummary, total: int)
    requires
        0 <= total <= u64::MAX,
    ensures
        ({
            let space = node_memory(node, total);
            let available = if node.memory is Some {
                node.memory->0.available_bytes
            } else {
                None
            };
            let set: int = if node.memory is Some && node.memory->0.working_set_bytes is Some {
                node.memory->0.working_set_bytes->0 as int
            } else {
                0
            };
            &&& space.total == total
            &&& available is Some ==> space.free == available->0
            &&& available is None && set <= total ==> space.free + set == total
            &&& available is None && set > total ==> space.free == 0
            &&& space.free <= total ==> space.used + space.free == total
            &&& space.free > total ==> space.used == 0
            &&& total > 0 ==> space.used_percentage == Real64::of(space.used as nat).over(
                Real64::of(total as nat),
            ).times(Real64::of(100))
            &&& total == 0 ==> space.used_percentage == Real64::zero()
        }),
{
    percentage_is_the_ratio(Real64::of(node_memory(node, total).used as nat), total as nat);
}

/// The root filesystem of a node: total and free as stated; used as stated, else what is not free.
pub proof fn node_disk_is_as_stated(node: NodeSummary)
    ensures
        ({
            let space = node_disk(node);
            &&& node.fs is None ==> space.total == 0 && space.used == 0 && space.free == 0
            &&& node.fs matches Some(f) ==> {
                &&& f.capacity_bytes matches Some(n) ==> space.total == n
                &&& f.capacity_bytes is None ==> space.total == 0
                &&& f.available_bytes matches Some(n) ==> space.free == n
                &&& f.available_bytes is None ==> space.free == 0
                &&& f.used_bytes matches Some(n) ==> space.used == n
                &&& f.used_bytes is None && space.free <= space.total ==> space.used + space.free == space.total
                &&& f.used_bytes is None && space.free > space.total ==> space.used == 0
            }
            &&& space.total > 0 ==> space.used_percentage == Real64::of(space.used as nat).over(
                Real64::of(space.total as nat),
            ).times(Real64::of(100))
            &&& space.total == 0 ==> space.used_percentage == Real64::zero()
        }),
{
    percentage_is_the_ratio(Real64::of(node_disk(node).used as nat), node_disk(node).total as nat);
}

/// A node never uses more memory than it has, nor more than 100 percent of it; where no more is
/// available than there is, used and free memory make up the whole.
pub proof fn node_memory_is_within_bounds(node: NodeSummary, total: int)
    requires
        0 <= total <= u64::MAX,
    ensures
        0 <= node_memory(node, total).used <= total,
        node_memory(node, total).used_percentage.at_most(100),
        node_memory(node, total).free <= total ==> node_memory(node, total).used + node_memory(node, total).free
            == total,
{
    percentage_is_at_most_hundred(node_memory(node, total).used as nat, total as nat);
}

/// A filesystem that does not report more in use than its capacity is at most full.
pub proof fn node_disk_is_at_most_full(node: NodeSummary)
    requires
        node.fs is Some && node.fs->0.used_bytes is Some ==> node.fs->0.used_bytes->0 <= count_of(
            node.fs->0.capacity_bytes,
        ),
    ensures
        node_disk(node).used <= node_disk(node).total,
        node_disk(node).used_percentage.at_most(100),
{
    percentage_is_at_most_hundred(node_disk(node).used as nat, node_disk(node).total as nat);
}

/// A container has one id: statistics report it under the id by which the watch tracks it.
pub proof fn statistics_and_events_agree_on_ids(
    namespace: Seq<char>,
    pod: Seq<char>,
    sample: ContainerSample,
    meta: Option<Meta>,
    cores: Real64,
    traffic: (int, int),
    w: Watched,
    status: Tree,
    now: int,
)
    requires
        sample.name@.len() > 0,
        status_name(status) == sample.name@,
    ensures
        find(
            observed(w, namespace, pod, status, now).state,
            sample_snapshot(namespace, pod, sample, meta, cores, traffic).id,
        ) == Some(tracked_of(status)),
{
    put_then_find(
        w.state,
        id_prefix(namespace, pod) + sample.name@,
        tracked_of(status),
        id_prefix(namespace, pod) + sample.name@,
    );
}

} // verus!
