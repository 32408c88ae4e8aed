//! Container stats: CPU, memory, network I/O, block I/O, PIDs.
//!
//! All formulas match the Docker CLI `docker stats` implementation so that the values shown are
//! consistent with what operators see on the command line.

use vstd::prelude::*;

use crate::binary64::{
    lemma_whole_is_positive, ratio_in_percent_is_an_amount, ratio_is_at_most_hundred, scaled_ratio_in_percent_is_an_amount, zero_is_zero,
    Binary64, Real64,
};
use crate::clock::{chrono_nanoseconds, elapsed, elapsed_of, instant_of, parse_ts, rfc3339_instant};
use crate::counter::{capped, count, count_of, floored, minus, plus, product, total, total_is_not_negative};
use crate::keyed::StringMap;
use crate::models::{ContainerStatus, Snapshot};
use crate::text::{lowered, lowers_to, trimmed};

verus! {

// ── What the daemon reports ──────────────────────────────────────────────────

/// CPU time of a container.
#[derive(Debug)]
pub struct CPUUsage {
    /// Total CPU time.
    pub total_usage: u64,
    /// CPU time per core (cgroup v1 only).
    pub percpu_usage: Option<Vec<u64>>,
}

/// CPU section of a [`Stats`] snapshot.
#[derive(Debug)]
pub struct CPUStats {
    pub cpu_usage: CPUUsage,
    /// CPU time of the whole host.
    pub system_cpu_usage: Option<u64>,
    /// Number of cores.
    pub online_cpus: Option<u64>,
}

/// The page cache, as the cgroup version reports it.
#[derive(Debug, Clone, Copy)]
pub enum MemoryStatsStats {
    /// cgroup v1: the `cache` field.
    V1 { cache: u64 },
    /// cgroup v2: `inactive_file`, the closest equivalent.
    V2 { inactive_file: u64 },
}

/// Memory section of a [`Stats`] snapshot.
#[derive(Debug, Clone, Copy)]
pub struct MemoryStats {
    pub stats: Option<MemoryStatsStats>,
    pub usage: Option<u64>,
    pub limit: Option<u64>,
    /// Windows containers only.
    pub privateworkingset: Option<u64>,
}

/// Counters of one network interface.
#[derive(Debug, Clone, Copy)]
pub struct NetworkStats {
    pub rx_bytes: u64,
    pub tx_bytes: u64,
}

/// One block I/O counter.
#[derive(Debug)]
pub struct BlkioStatsEntry {
    /// `Read`, `Write` and others.
    pub op: String,
    pub value: u64,
}

/// Block I/O section of a [`Stats`] snapshot.
#[derive(Debug)]
pub struct BlkioStats {
    pub io_service_bytes_recursive: Option<Vec<BlkioStatsEntry>>,
}

/// PID section of a [`Stats`] snapshot.
#[derive(Debug, Clone, Copy)]
pub struct PidsStats {
    pub current: Option<u64>,
}

/// One `docker stats` snapshot.
pub struct Stats {
    pub name: String,
    pub id: String,
    /// When this sample was taken (RFC 3339).
    pub read: String,
    /// When the sample before was taken (RFC 3339).
    pub preread: String,
    /// Number of processors (Windows containers only).
    pub num_procs: u32,
    /// Counters by interface.
    pub networks: Option<StringMap<NetworkStats>>,
    pub pids_stats: PidsStats,
    pub blkio_stats: BlkioStats,
    pub cpu_stats: CPUStats,
    /// The CPU section of the sample before.
    pub precpu_stats: CPUStats,
    pub memory_stats: MemoryStats,
}

// ── CPU ──────────────────────────────────────────────────────────────────────

/// Number of cores: the stated one, else one per entry of the list by core.
pub open spec fn cores_of(cur: CPUStats) -> int {
    if count_of(cur.online_cpus) != 0 {
        count_of(cur.online_cpus)
    } else {
        match cur.cpu_usage.percpu_usage {
            Some(v) => v@.len() as int,
            None => 0,
        }
    }
}

/// `(cpu_delta / system_delta) * cores * 100`, zero where either delta is not above zero.
pub open spec fn unix_cpu_percentage(previous_cpu: int, previous_system: int, cur: CPUStats) -> Real64 {
    let cpu_delta = cur.cpu_usage.total_usage - previous_cpu;
    let system_delta = count_of(cur.system_cpu_usage) - previous_system;
    if cpu_delta > 0 && system_delta > 0 {
        Real64::of(cpu_delta as nat).over(Real64::of(system_delta as nat)).times(
            Real64::of(cores_of(cur) as nat),
        ).times(Real64::of(100))
    } else {
        Real64::zero()
    }
}

/// Calculates the CPU usage percentage for Linux and macOS containers.
///
/// Uses the same formula as the Docker CLI: `(cpu_delta / system_delta) * online_cpus * 100`.
///
/// Returns zero when there is no measurable delta (e.g. the first sample after container start, or
/// a container that has done no work).
pub fn calculate_cpu_percent_unix(previous_cpu: u64, previous_system: u64, cur: &CPUStats) -> (r: Binary64)
    ensures
        r@ == unix_cpu_percentage(previous_cpu as int, previous_system as int, *cur),
{
    let cpu_delta: u64 = minus(cur.cpu_usage.total_usage, previous_cpu);
    let system_delta: u64 = minus(count(cur.system_cpu_usage), previous_system);
    let mut cores: u64 = count(cur.online_cpus);
    if cores == 0 {
        cores = match &cur.cpu_usage.percpu_usage {
            Some(v) => v.len() as u64,
            None => 0,
        };
    }
    if system_delta > 0 && cpu_delta > 0 {
        Binary64::from_u64(cpu_delta).over(&Binary64::from_u64(system_delta)).times(
            &Binary64::from_u64(cores),
        ).times(&Binary64::from_u64(100))
    } else {
        Binary64::zero()
    }
}

/// Intervals of 100 ns that `procs` processors had in `nanoseconds`.
pub open spec fn possible_intervals(nanoseconds: int, procs: int) -> int {
    capped((nanoseconds / 100) * procs)
}

/// `intervals_used / possible intervals * 100`, zero where none was possible.
pub open spec fn windows_cpu_percentage(nanoseconds: int, procs: int, intervals_used: int) -> Real64 {
    let possible = possible_intervals(nanoseconds, procs);
    if possible > 0 {
        Real64::of(intervals_used as nat).over(Real64::of(possible as nat)).times(Real64::of(100))
    } else {
        Real64::zero()
    }
}

/// Calculates the CPU usage percentage for Windows containers.
///
/// Uses the Docker CLI formula: `intervals_used / (read_preread_ns / 100 * num_procs) * 100`.
pub fn calculate_cpu_percent_windows(read_preread_ns: u64, num_procs: u32, intervals_used: u64) -> (r: Binary64)
    ensures
        r@ == windows_cpu_percentage(read_preread_ns as int, num_procs as int, intervals_used as int),
{
    let possible: u64 = product(read_preread_ns / 100, num_procs as u64);
    if possible > 0 {
        Binary64::from_u64(intervals_used).over(&Binary64::from_u64(possible)).times(&Binary64::from_u64(100))
    } else {
        Binary64::zero()
    }
}

/// The CPU percentage of a container is finite and not negative, whatever the counters say.
pub proof fn unix_cpu_percentage_is_an_amount(previous_cpu: int, previous_system: int, cur: CPUStats)
    requires
        0 <= previous_cpu,
        0 <= previous_system,
    ensures
        unix_cpu_percentage(previous_cpu, previous_system, cur).is_amount(),
{
    let cpu_delta = cur.cpu_usage.total_usage - previous_cpu;
    let system_delta = count_of(cur.system_cpu_usage) - previous_system;
    if let Some(v) = cur.cpu_usage.percpu_usage {
        assert(v.len() == v@.len());
    }
    if cpu_delta > 0 && system_delta > 0 {
        scaled_ratio_in_percent_is_an_amount(cpu_delta as nat, system_delta as nat, cores_of(cur) as nat);
    }
}

/// The CPU percentage of a Windows container is finite and not negative, whatever the counters say.
pub proof fn windows_cpu_percentage_is_an_amount(nanoseconds: int, procs: int, intervals_used: int)
    requires
        0 <= intervals_used <= u64::MAX,
    ensures
        windows_cpu_percentage(nanoseconds, procs, intervals_used).is_amount(),
{
    if possible_intervals(nanoseconds, procs) > 0 {
        ratio_in_percent_is_an_amount(intervals_used as nat, possible_intervals(nanoseconds, procs) as nat);
    }
}

// ── Memory ───────────────────────────────────────────────────────────────────

/// `usage − cache` bytes, zero where that is negative.
///
/// Subtracting the page cache matches the Docker CLI "mem usage" column.
pub fn calculate_memory_usage_unix_no_cache(usage: u64, cache: u64) -> (r: Binary64)
    ensures
        r@ == Real64::of(floored(usage - cache) as nat),
{
    Binary64::from_u64(minus(usage, cache))
}

/// `used_no_cache / limit * 100`, zero where `limit` is zero.
pub open spec fn memory_percentage(limit: Real64, used_no_cache: Real64) -> Real64 {
    if limit.is_zero() {
        Real64::zero()
    } else {
        used_no_cache.over(limit).times(Real64::of(100))
    }
}

/// `used_no_cache / limit * 100`, zero where `limit` is zero.
pub fn calculate_memory_percent_unix_no_cache(limit: &Binary64, used_no_cache: &Binary64) -> (r: Binary64)
    ensures
        r@ == memory_percentage(limit@, used_no_cache@),
{
    if limit.is_zero() {
        Binary64::zero()
    } else {
        used_no_cache.over(limit).times(&Binary64::from_u64(100))
    }
}

/// The page-cache size in a [`MemoryStats`] section.
pub open spec fn cache_of(mem: MemoryStats) -> int {
    match mem.stats {
        Some(MemoryStatsStats::V1 { cache }) => cache as int,
        Some(MemoryStatsStats::V2 { inactive_file }) => inactive_file as int,
        None => 0,
    }
}

fn cache_bytes(mem: &MemoryStats) -> (r: u64)
    ensures
        r == cache_of(*mem),
{
    match mem.stats {
        Some(MemoryStatsStats::V1 { cache }) => cache,
        Some(MemoryStatsStats::V2 { inactive_file }) => inactive_file,
        None => 0,
    }
}

/// A container that uses no more than its limit is between 0 and 100 percent.
pub proof fn memory_percentage_is_at_most_hundred(limit: nat, used: nat)
    requires
        used <= limit <= u64::MAX,
    ensures
        memory_percentage(Real64::of(limit), Real64::of(used)).at_most(100),
{
    zero_is_zero();
    if limit > 0 {
        ratio_is_at_most_hundred(used, limit);
    }
}

// ── Network I/O ──────────────────────────────────────────────────────────────

/// Received bytes of each interface.
pub open spec fn received(nets: Seq<(Seq<char>, NetworkStats)>) -> Seq<int> {
    Seq::new(nets.len(), |i: int| nets[i].1.rx_bytes as int)
}

/// Transmitted bytes of each interface.
pub open spec fn transmitted(nets: Seq<(Seq<char>, NetworkStats)>) -> Seq<int> {
    Seq::new(nets.len(), |i: int| nets[i].1.tx_bytes as int)
}

/// Received and transmitted bytes over all interfaces.
pub open spec fn traffic_of(stats: Stats) -> (int, int) {
    match stats.networks {
        Some(nets) => (capped(total(received(nets@))), capped(total(transmitted(nets@)))),
        None => (0, 0),
    }
}

/// Sums `rx_bytes` and `tx_bytes` across all network interfaces in the stats snapshot. Returns
/// `(rx_bytes, tx_bytes)`.
///
/// The `networks` map is empty on Windows (network counters are not exposed there).
pub fn network_io(stats: &Stats) -> (r: (u64, u64))
    ensures
        (r.0 as int, r.1 as int) == traffic_of(*stats),
{
    let mut rx: u64 = 0;
    let mut tx: u64 = 0;
    if let Some(nets) = &stats.networks {
        let mut i: usize = 0;
        let ghost all = nets@;
        while i < nets.len()
            invariant
                i <= nets@.len(),
                all == nets@,
                rx == capped(total(received(all.take(i as int)))),
                tx == capped(total(transmitted(all.take(i as int)))),
            decreases nets@.len() - i,
        {
            proof {
                let n = i as int;
                assert(received(all.take(n + 1)).drop_last() =~= received(all.take(n)));
                assert(transmitted(all.take(n + 1)).drop_last() =~= transmitted(all.take(n)));
                total_is_not_negative(received(all.take(n)));
                total_is_not_negative(transmitted(all.take(n)));
            }
            let iface: &NetworkStats = nets.value_at(i);
            rx = plus(rx, iface.rx_bytes);
            tx = plus(tx, iface.tx_bytes);
            i = i + 1;
        }
        assert(all.take(all.len() as int) =~= all);
    }
    (rx, tx)
}

// ── Block I/O ────────────────────────────────────────────────────────────────

/// What each entry adds to the bytes of an operation; the case of its name does not matter.
pub open spec fn moved(entries: Seq<BlkioStatsEntry>, op: Seq<char>) -> Seq<int> {
    Seq::new(
        entries.len(),
        |i: int|
            if lowered(entries[i].op@) == op {
                entries[i].value as int
            } else {
                0
            },
    )
}

/// Bytes read from and written to block devices.
pub open spec fn blocks_of(stats: Stats) -> (int, int) {
    match stats.blkio_stats.io_service_bytes_recursive {
        Some(entries) => (
            capped(total(moved(entries@, "read"@))),
            capped(total(moved(entries@, "write"@))),
        ),
        None => (0, 0),
    }
}

/// Sums block device read and write bytes from `blkio_stats`. Returns `(read_bytes, write_bytes)`.
///
/// Reads `blkio_stats.io_service_bytes_recursive`, which is populated for both cgroup v1 and v2 on
/// Linux. On Windows it is not, and both values are zero.
pub fn block_io(stats: &Stats) -> (r: (u64, u64))
    ensures
        (r.0 as int, r.1 as int) == blocks_of(*stats),
{
    let mut read: u64 = 0;
    let mut write: u64 = 0;
    proof {
        reveal_strlit("read");
        reveal_strlit("write");
        assert("read"@.len() == 4 && "write"@.len() == 5);
    }
    if let Some(entries) = &stats.blkio_stats.io_service_bytes_recursive {
        let mut i: usize = 0;
        let ghost all = entries@;
        while i < entries.len()
            invariant
                i <= entries@.len(),
                all == entries@,
                "read"@ != "write"@,
                read == capped(total(moved(all.take(i as int), "read"@))),
                write == capped(total(moved(all.take(i as int), "write"@))),
            decreases entries@.len() - i,
        {
            proof {
                let n = i as int;
                assert(moved(all.take(n + 1), "read"@).drop_last() =~= moved(all.take(n), "read"@));
                assert(moved(all.take(n + 1), "write"@).drop_last() =~= moved(all.take(n), "write"@));
                total_is_not_negative(moved(all.take(n), "read"@));
                total_is_not_negative(moved(all.take(n), "write"@));
            }
            let entry: &BlkioStatsEntry = &entries[i];
            if lowers_to(entry.op.as_str(), "read") {
                read = plus(read, entry.value);
            } else if lowers_to(entry.op.as_str(), "write") {
                write = plus(write, entry.value);
            }
            i = i + 1;
        }
        assert(all.take(all.len() as int) =~= all);
    }
    (read, write)
}

// ── PIDs ─────────────────────────────────────────────────────────────────────

/// The current PID count inside the container (`pids_stats.current`), zero where the field is
/// absent (on Windows, or on kernels without the `pids` cgroup controller).
pub fn pid_count(stats: &Stats) -> (r: u64)
    ensures
        r == count_of(stats.pids_stats.current),
{
    count(stats.pids_stats.current)
}

// ── Composite builder ────────────────────────────────────────────────────────

/// What a sample says of CPU and memory.
pub struct Usage {
    pub cpu_percentage: Real64,
    pub memory: Real64,
    pub memory_limit: Real64,
    pub memory_percentage: Real64,
}

/// CPU and memory of a container of a Windows daemon, over `interval` nanoseconds; there is no
/// limit.
pub open spec fn windows_usage(stats: Stats, interval: int) -> Usage {
    let used = floored(stats.cpu_stats.cpu_usage.total_usage - stats.precpu_stats.cpu_usage.total_usage);
    Usage {
        cpu_percentage: windows_cpu_percentage(interval, stats.num_procs as int, used),
        memory: Real64::of(count_of(stats.memory_stats.privateworkingset) as nat),
        memory_limit: Real64::zero(),
        memory_percentage: Real64::zero(),
    }
}

/// CPU and memory of a container of any other daemon.
pub open spec fn unix_usage(stats: Stats) -> Usage {
    let memory = Real64::of(floored(count_of(stats.memory_stats.usage) - cache_of(stats.memory_stats)) as nat);
    let limit = Real64::of(count_of(stats.memory_stats.limit) as nat);
    Usage {
        cpu_percentage: unix_cpu_percentage(
            stats.precpu_stats.cpu_usage.total_usage as int,
            count_of(stats.precpu_stats.system_cpu_usage),
            stats.cpu_stats,
        ),
        memory,
        memory_limit: limit,
        memory_percentage: memory_percentage(limit, memory),
    }
}

/// CPU and memory of a container, by the operating system of its daemon.
pub open spec fn usage_over(stats: Stats, daemon_os_type: Seq<char>, interval: int) -> Usage {
    if lowered(daemon_os_type) == "windows"@ {
        windows_usage(stats, interval)
    } else {
        unix_usage(stats)
    }
}

/// The snapshot of a container of which there is a sample, taken `interval` nanoseconds after the
/// one before.
pub open spec fn snapshot_over(
    stats: Stats,
    daemon_os_type: Seq<char>,
    container_id: Seq<char>,
    interval: int,
) -> Snapshot {
    let usage = usage_over(stats, daemon_os_type, interval);
    Snapshot {
        name: stats.name@,
        id: if stats.id@.len() > 0 {
            stats.id@
        } else {
            container_id
        },
        namespace: None,
        pod: None,
        workload: None,
        workload_kind: None,
        cpu_percentage: usage.cpu_percentage,
        memory: usage.memory,
        memory_limit: usage.memory_limit,
        memory_percentage: usage.memory_percentage,
        network_rx_bytes: traffic_of(stats).0,
        network_tx_bytes: traffic_of(stats).1,
        block_read_bytes: blocks_of(stats).0,
        block_write_bytes: blocks_of(stats).1,
        pids: count_of(stats.pids_stats.current),
    }
}

/// Nanoseconds between a sample and the one before, as their timestamps say.
pub open spec fn interval_of(stats: Stats) -> u64 {
    elapsed_of(instant_of(trimmed(stats.read@)), instant_of(trimmed(stats.preread@)))
}

/// The snapshot of a container of which there is a sample.
pub open spec fn snapshot_of(stats: Stats, daemon_os_type: Seq<char>, container_id: Seq<char>) -> Snapshot {
    snapshot_over(stats, daemon_os_type, container_id, interval_of(stats) as int)
}

// ── Laws ─────────────────────────────────────────────────────────────────────

/// The bytes that the interfaces received together.
pub open spec fn bytes_in(nets: Seq<(Seq<char>, NetworkStats)>) -> int
    decreases nets.len(),
{
    if nets.len() == 0 {
        0
    } else {
        bytes_in(nets.drop_last()) + nets.last().1.rx_bytes
    }
}

/// The bytes that the interfaces transmitted together.
pub open spec fn bytes_out(nets: Seq<(Seq<char>, NetworkStats)>) -> int
    decreases nets.len(),
{
    if nets.len() == 0 {
        0
    } else {
        bytes_out(nets.drop_last()) + nets.last().1.tx_bytes
    }
}

/// The bytes that the entries of an operation count together; the case of its name does not matter.
pub open spec fn bytes_by(entries: Seq<BlkioStatsEntry>, op: Seq<char>) -> int
    decreases entries.len(),
{
    if entries.len() == 0 {
        0
    } else if lowered(entries.last().op@) == op {
        bytes_by(entries.drop_last(), op) + entries.last().value
    } else {
        bytes_by(entries.drop_last(), op)
    }
}

/// Whether a counter shows a sum, up to what 64 bits hold.
pub open spec fn shows(counter: int, sum: int) -> bool {
    counter == if sum <= u64::MAX {
        sum
    } else {
        u64::MAX as int
    }
}

proof fn lemma_bytes(nets: Seq<(Seq<char>, NetworkStats)>)
    ensures
        total(received(nets)) == bytes_in(nets),
        total(transmitted(nets)) == bytes_out(nets),
    decreases nets.len(),
{
    if nets.len() > 0 {
        lemma_bytes(nets.drop_last());
        assert(received(nets).drop_last() =~= received(nets.drop_last()));
        assert(transmitted(nets).drop_last() =~= transmitted(nets.drop_last()));
    }
}

proof fn lemma_bytes_by(entries: Seq<BlkioStatsEntry>, op: Seq<char>)
    ensures
        total(moved(entries, op)) == bytes_by(entries, op),
    decreases entries.len(),
{
    if entries.len() > 0 {
        lemma_bytes_by(entries.drop_last(), op);
        assert(moved(entries, op).drop_last() =~= moved(entries.drop_last(), op));
    }
}

/// The counters of a snapshot are those of its sample: the bytes of all interfaces, the bytes read
/// and written on all block devices, and the processes. What is missing counts as zero.
pub proof fn counters_are_those_of_the_sample(
    stats: Stats,
    daemon_os_type: Seq<char>,
    container_id: Seq<char>,
    interval: int,
)
    ensures
        ({
            let s = snapshot_over(stats, daemon_os_type, container_id, interval);
            &&& stats.networks matches Some(nets) ==> shows(s.network_rx_bytes, bytes_in(nets@)) && shows(
                s.network_tx_bytes,
                bytes_out(nets@),
            )
            &&& stats.networks is None ==> s.network_rx_bytes == 0 && s.network_tx_bytes == 0
            &&& stats.blkio_stats.io_service_bytes_recursive matches Some(entries) ==> shows(
                s.block_read_bytes,
                bytes_by(entries@, "read"@),
            ) && shows(s.block_write_bytes, bytes_by(entries@, "write"@))
            &&& stats.blkio_stats.io_service_bytes_recursive is None ==> s.block_read_bytes == 0
                && s.block_write_bytes == 0
            &&& stats.pids_stats.current matches Some(n) ==> s.pids == n
            &&& stats.pids_stats.current is None ==> s.pids == 0
        }),
{
    if let Some(nets) = stats.networks {
        lemma_bytes(nets@);
    }
    if let Some(entries) = stats.blkio_stats.io_service_bytes_recursive {
        lemma_bytes_by(entries@, "read"@);
        lemma_bytes_by(entries@, "write"@);
    }
}

/// A snapshot is of the container that its sample is of: under the sample's name, and under the
/// sample's id, or the id that was asked for where the sample has none. What Kubernetes alone knows
/// is missing.
pub proof fn snapshot_is_of_its_container(
    stats: Stats,
    daemon_os_type: Seq<char>,
    container_id: Seq<char>,
    interval: int,
)
    ensures
        ({
            let s = snapshot_over(stats, daemon_os_type, container_id, interval);
            &&& s.name == stats.name@
            &&& stats.id@.len() > 0 ==> s.id == stats.id@
            &&& stats.id@.len() == 0 ==> s.id == container_id
            &&& s.namespace is None && s.pod is None && s.workload is None && s.workload_kind is None
        }),
{
}

/// Memory on a daemon that is not Windows: what is reported is the usage without the page cache, or
/// nothing where the cache is larger, and its percentage is that of the reported memory in the
/// reported limit; without a limit it is zero.
pub proof fn memory_is_without_the_page_cache(
    stats: Stats,
    daemon_os_type: Seq<char>,
    container_id: Seq<char>,
    interval: int,
    usage: nat,
    cache: nat,
    limit: nat,
)
    requires
        lowered(daemon_os_type) != "windows"@,
        stats.memory_stats.usage == Some(usage as u64) || (stats.memory_stats.usage is None && usage == 0),
        stats.memory_stats.limit == Some(limit as u64) || (stats.memory_stats.limit is None && limit == 0),
        stats.memory_stats.stats matches Some(MemoryStatsStats::V1 { cache: c }) ==> cache == c,
        stats.memory_stats.stats matches Some(MemoryStatsStats::V2 { inactive_file: c }) ==> cache == c,
        stats.memory_stats.stats is None ==> cache == 0,
        usage <= u64::MAX,
        limit <= u64::MAX,
    ensures
        ({
            let s = snapshot_over(stats, daemon_os_type, container_id, interval);
            &&& cache <= usage ==> s.memory == Real64::of((usage - cache) as nat)
            &&& cache > usage ==> s.memory == Real64::zero()
            &&& s.memory_limit == Real64::of(limit)
            &&& limit > 0 ==> s.memory_percentage == s.memory.over(s.memory_limit).times(Real64::of(100))
            &&& limit == 0 ==> s.memory_percentage == Real64::zero()
        }),
{
    zero_is_zero();
    if limit > 0 {
        lemma_whole_is_positive(limit);
    }
}

/// CPU on a daemon that is not Windows: the share of the host's CPU time that the container took
/// since the sample before, times the number of cores; zero unless both went up.
pub proof fn cpu_is_the_share_of_the_host(
    stats: Stats,
    daemon_os_type: Seq<char>,
    container_id: Seq<char>,
    interval: int,
    host_before: nat,
    host: nat,
    cores: nat,
)
    requires
        lowered(daemon_os_type) != "windows"@,
        stats.precpu_stats.system_cpu_usage == Some(host_before as u64) || (
        stats.precpu_stats.system_cpu_usage is None && host_before == 0),
        stats.cpu_stats.system_cpu_usage == Some(host as u64) || (stats.cpu_stats.system_cpu_usage is None && host
            == 0),
        host_before <= u64::MAX,
        host <= u64::MAX,
        cores <= u64::MAX,
        if cores > 0 && stats.cpu_stats.online_cpus == Some(cores as u64) {
            true
        } else {
            &&& stats.cpu_stats.online_cpus is None || stats.cpu_stats.online_cpus == Some(0u64)
            &&& stats.cpu_stats.cpu_usage.percpu_usage matches Some(list) ==> cores == list@.len()
            &&& stats.cpu_stats.cpu_usage.percpu_usage is None ==> cores == 0
        },
    ensures
        ({
            let s = snapshot_over(stats, daemon_os_type, container_id, interval);
            let before = stats.precpu_stats.cpu_usage.total_usage;
            let after = stats.cpu_stats.cpu_usage.total_usage;
            &&& after > before && host > host_before ==> s.cpu_percentage == Real64::of((after - before) as nat).over(
                Real64::of((host - host_before) as nat),
            ).times(Real64::of(cores)).times(Real64::of(100))
            &&& after <= before || host <= host_before ==> s.cpu_percentage == Real64::zero()
        }),
{
}

/// A Windows daemon: the private working set is the memory, and there is no limit; CPU is the share
/// of the 100 ns intervals that the processors had since the sample before.
pub proof fn windows_counts_intervals(
    stats: Stats,
    daemon_os_type: Seq<char>,
    container_id: Seq<char>,
    interval: int,
)
    requires
        lowered(daemon_os_type) == "windows"@,
        0 <= interval,
    ensures
        ({
            let s = snapshot_over(stats, daemon_os_type, container_id, interval);
            let before = stats.precpu_stats.cpu_usage.total_usage;
            let after = stats.cpu_stats.cpu_usage.total_usage;
            let possible = (interval / 100) * stats.num_procs;
            &&& stats.memory_stats.privateworkingset matches Some(n) ==> s.memory == Real64::of(n as nat)
            &&& stats.memory_stats.privateworkingset is None ==> s.memory == Real64::zero()
            &&& s.memory_limit == Real64::zero() && s.memory_percentage == Real64::zero()
            &&& 0 < possible <= u64::MAX && before <= after ==> s.cpu_percentage == Real64::of(
                (after - before) as nat,
            ).over(Real64::of(possible as nat)).times(Real64::of(100))
            &&& possible == 0 ==> s.cpu_percentage == Real64::zero()
            &&& possible > u64::MAX && before <= after ==> s.cpu_percentage == Real64::of(
                (after - before) as nat,
            ).over(Real64::of(u64::MAX as nat)).times(Real64::of(100))
            &&& 0 < possible && before > after ==> s.cpu_percentage == Real64::zero().over(
                Real64::of(
                    (if possible <= u64::MAX {
                        possible
                    } else {
                        u64::MAX as int
                    }) as nat,
                ),
            ).times(Real64::of(100))
        }),
{
    zero_is_zero();
}

/// The time between two samples is that from `preread` to `read`, white space around them aside. It
/// matters to Windows alone.
pub proof fn time_between_samples_is_read_off_them(
    stats: Stats,
    daemon_os_type: Seq<char>,
    container_id: Seq<char>,
    interval: int,
)
    ensures
        ({
            let s = snapshot_of(stats, daemon_os_type, container_id);
            let passed = match (rfc3339_instant(trimmed(stats.read@)), rfc3339_instant(trimmed(stats.preread@))) {
                (Some((to, to_nanos)), Some((from, from_nanos))) => chrono_nanoseconds(
                    to,
                    to_nanos,
                    from,
                    from_nanos,
                ),
                _ => None,
            };
            &&& lowered(daemon_os_type) != "windows"@ ==> s == snapshot_over(
                stats,
                daemon_os_type,
                container_id,
                interval,
            )
            &&& passed is Some && passed->0 > 0 ==> s == snapshot_over(
                stats,
                daemon_os_type,
                container_id,
                passed->0 as int,
            )
            &&& passed is None || passed->0 <= 0 ==> s == snapshot_over(stats, daemon_os_type, container_id, 0)
        }),
{
}

fn unix_parts(stats: &Stats) -> (r: (Binary64, Binary64, Binary64, Binary64))
    ensures
        unix_usage(*stats) == (Usage {
            cpu_percentage: r.0@,
            memory: r.1@,
            memory_limit: r.2@,
            memory_percentage: r.3@,
        }),
{
    let cpu: Binary64 = calculate_cpu_percent_unix(
        stats.precpu_stats.cpu_usage.total_usage,
        count(stats.precpu_stats.system_cpu_usage),
        &stats.cpu_stats,
    );
    let memory: Binary64 = calculate_memory_usage_unix_no_cache(
        count(stats.memory_stats.usage),
        cache_bytes(&stats.memory_stats),
    );
    let limit: Binary64 = Binary64::from_u64(count(stats.memory_stats.limit));
    (cpu, memory, limit, calculate_memory_percent_unix_no_cache(&limit, &memory))
}

fn windows_parts(stats: &Stats, interval: u64) -> (r: (Binary64, Binary64, Binary64, Binary64))
    ensures
        windows_usage(*stats, interval as int) == (Usage {
            cpu_percentage: r.0@,
            memory: r.1@,
            memory_limit: r.2@,
            memory_percentage: r.3@,
        }),
{
    let used: u64 = minus(stats.cpu_stats.cpu_usage.total_usage, stats.precpu_stats.cpu_usage.total_usage);
    (
        calculate_cpu_percent_windows(interval, stats.num_procs, used),
        Binary64::from_u64(count(stats.memory_stats.privateworkingset)),
        Binary64::zero(),
        Binary64::zero(),
    )
}

/// Converts a raw [`Stats`] snapshot, taken `interval` nanoseconds after the one before, into a
/// [`ContainerStatus`] model.
pub fn container_status_over(stats: &Stats, daemon_os_type: &str, container_id: &str, interval: u64) -> (r:
    ContainerStatus)
    ensures
        r@ == snapshot_over(*stats, daemon_os_type@, container_id@, interval as int),
{
    let (cpu_percentage, memory, memory_limit, memory_percentage): (Binary64, Binary64, Binary64, Binary64) =
        if lowers_to(daemon_os_type, "windows") {
        windows_parts(stats, interval)
    } else {
        unix_parts(stats)
    };
    let (network_rx_bytes, network_tx_bytes): (u64, u64) = network_io(stats);
    let (block_read_bytes, block_write_bytes): (u64, u64) = block_io(stats);
    let id: &str = if stats.id.as_str().unicode_len() > 0 {
        stats.id.as_str()
    } else {
        container_id
    };
    ContainerStatus {
        name: stats.name.as_str().to_owned(),
        id: id.to_owned(),
        namespace: None,
        pod: None,
        workload: None,
        workload_kind: None,
        cpu_percentage,
        memory,
        memory_limit,
        memory_percentage,
        network_rx_bytes,
        network_tx_bytes,
        block_read_bytes,
        block_write_bytes,
        pids: pid_count(stats),
    }
}

/// Converts a raw [`Stats`] snapshot into a [`ContainerStatus`] model.
///
/// `daemon_os_type` is the operating system from `docker info` (case does not matter). When it is
/// `"windows"`, Windows-specific CPU and memory formulas are used; otherwise the Linux path is
/// taken.
pub fn container_status_from_stats(stats: &Stats, daemon_os_type: &str, container_id: &str) -> (r:
    ContainerStatus)
    ensures
        r@ == snapshot_of(*stats, daemon_os_type@, container_id@),
{
    let interval: u64 = elapsed(parse_ts(stats.read.as_str()), parse_ts(stats.preread.as_str()));
    container_status_over(stats, daemon_os_type, container_id, interval)
}

} // verus!
