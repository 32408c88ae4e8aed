//! Docker Engine: Swarm nodes and standalone daemons.
//!
//! Statistics come from `docker info`, `docker version` and `docker stats`, and from the host
//! itself. Events come from `docker events`.

use vstd::prelude::*;

use crate::binary64::{Binary64, Real64};
use crate::container_stats::{container_status_from_stats, snapshot_of, Stats};
use crate::host::{cpu_usage, disk_usage, memory_usage, root_space, space_is_split, space_of, DiskSample};
use crate::json::{member, members_of, object, put_member, Json, Tree};
use crate::keyed::{find, put, put_then_find, StringMap};
use crate::models::{blank, snapshots, ContainerStatus, Load, Report, Snapshot, Status};
use crate::text::chars_of;

verus! {

// ── Events ───────────────────────────────────────────────────────────────────

/// Docker event types that are forwarded.
///
/// Filtering here reduces noise from build and plugin events on active CI hosts.
pub const RELEVANT_TYPES: [&'static str; 7] = [
    "container",
    "network",
    "service",
    "node",
    "secret",
    "config",
    "volume",
];

/// Docker event types that are forwarded.
pub open spec fn relevant() -> Seq<Seq<char>> {
    seq!["container"@, "network"@, "service"@, "node"@, "secret"@, "config"@, "volume"@]
}

/// What is asked of `docker events`.
pub struct EventsOptions {
    pub since: Option<String>,
    pub until: Option<String>,
    pub filters: StringMap<Vec<String>>,
}

/// The characters of a list of texts.
pub open spec fn words(list: Seq<String>) -> Seq<Seq<char>> {
    Seq::new(list.len(), |i: int| list[i]@)
}

/// The options that restrict the stream to [`RELEVANT_TYPES`], from now on and without an end.
pub fn events_options() -> (r: EventsOptions)
    ensures
        r.since is None,
        r.until is None,
        r.filters@.len() == 1,
        find(r.filters@, "type"@) matches Some(types) && words(types@) == relevant(),
{
    let mut types: Vec<String> = Vec::new();
    let mut i: usize = 0;
    while i < RELEVANT_TYPES.len()
        invariant
            i <= 7,
            words(types@) == relevant().take(i as int),
        decreases 7 - i,
    {
        let word: &'static str = RELEVANT_TYPES[i];
        let ghost held = types@;
        types.push(word.to_owned());
        proof {
            assert(word@ == relevant()[i as int]);
            assert(words(types@) =~= words(held).push(word@));
            assert(relevant().take(i + 1) =~= relevant().take(i as int).push(relevant()[i as int]));
        }
        i = i + 1;
    }
    proof {
        assert(relevant().take(7) =~= relevant());
    }
    let mut filters: StringMap<Vec<String>> = StringMap::new();
    proof {
        put_then_find(filters@, "type"@, types, "type"@);
    }
    filters.insert("type".to_owned(), types);
    EventsOptions { since: None, until: None, filters }
}

/// What the event stream gives next.
pub enum StreamItem {
    /// An event.
    Message,
    /// An error.
    Failure,
    /// The end, without an error.
    End,
}

/// What to do about it.
#[derive(Debug, Clone, Copy, PartialEq, Eq, Structural)]
pub enum DrainStep {
    /// Forward the event and go on.
    Forward,
    /// Stop; `clean` where the stream ended without an error.
    Stop { clean: bool },
}

/// What to do about what the stream gives.
pub open spec fn drained(item: StreamItem) -> DrainStep {
    match item {
        StreamItem::Message => DrainStep::Forward,
        StreamItem::Failure => DrainStep::Stop { clean: false },
        StreamItem::End => DrainStep::Stop { clean: true },
    }
}

/// Events are forwarded, and only they; a stream that ends without an error ends cleanly, and one
/// that fails does not.
pub proof fn streams_stop_cleanly_or_not(item: StreamItem)
    ensures
        drained(item) == DrainStep::Forward <==> item is Message,
        drained(item) == (DrainStep::Stop { clean: true }) <==> item is End,
        drained(item) == (DrainStep::Stop { clean: false }) <==> item is Failure,
{
}

/// Drains one Docker event stream until it errors or the daemon closes it.
pub fn drain_stream(item: &StreamItem) -> (r: DrainStep)
    ensures
        r == drained(*item),
{
    match item {
        StreamItem::Message => DrainStep::Forward,
        StreamItem::Failure => DrainStep::Stop { clean: false },
        StreamItem::End => DrainStep::Stop { clean: true },
    }
}

/// An event with the mark of the orchestrator that every payload carries.
pub open spec fn marked_event(event: Tree) -> Tree {
    match event {
        Tree::Object(members) => Tree::Object(put(members, "orchestrator"@, Tree::Text("swarm"@))),
        _ => event,
    }
}

/// Marks a Docker event before it is forwarded.
pub fn mark_event(event: Json) -> (r: Json)
    ensures
        r@ == marked_event(event@),
{
    match event {
        Json::Object(members) => {
            let ghost before = members_of(members@);
            assert(event@->Object_0 =~= before);
            let marked: Vec<(String, Json)> = put_member(
                members,
                "orchestrator",
                Json::Text(orchestrator().to_owned()),
            );
            object(marked)
        },
        other => other,
    }
}

/// A forwarded Docker event carries the orchestrator.
pub proof fn docker_event_carries_the_orchestrator(event: Tree)
    requires
        event is Object,
    ensures
        member(Some(marked_event(event)), "orchestrator"@) == Some(Tree::Text("swarm"@)),
{
    put_then_find(event->Object_0, "orchestrator"@, Tree::Text("swarm"@), "orchestrator"@);
}

// ── Statistics ───────────────────────────────────────────────────────────────

/// What a request for the statistics of one container gave.
pub enum StatsReply {
    /// A sample.
    Sample(Stats),
    /// An error.
    Failure,
    /// Nothing: the container has stopped.
    Nothing,
}

/// The snapshot that a reply gives: that of its sample, else a blank one.
pub open spec fn reply_snapshot(reply: StatsReply, id: Seq<char>, os_type: Seq<char>) -> Snapshot {
    match reply {
        StatsReply::Sample(stats) => snapshot_of(stats, os_type, id),
        StatsReply::Failure => blank(id),
        StatsReply::Nothing => blank(id),
    }
}

/// The status of one container.
///
/// Returns an empty [`ContainerStatus`] when the container has stopped between list and stats, or
/// when the Docker API returned an error.
pub fn container_stats_one(reply: &StatsReply, id: &str, os_type: &str) -> (r: ContainerStatus)
    ensures
        r@ == reply_snapshot(*reply, id@, os_type@),
{
    match reply {
        StatsReply::Sample(stats) => container_status_from_stats(stats, os_type, id),
        StatsReply::Failure => ContainerStatus::empty(id.to_owned()),
        StatsReply::Nothing => ContainerStatus::empty(id.to_owned()),
    }
}

/// The ids that are there, in order.
pub open spec fn known_ids(ids: Seq<Option<String>>) -> Seq<Seq<char>>
    decreases ids.len(),
{
    if ids.len() == 0 {
        seq![]
    } else {
        match ids.last() {
            Some(id) => known_ids(ids.drop_last()).push(id@),
            None => known_ids(ids.drop_last()),
        }
    }
}

/// The ids of the listed containers, those without one left out.
pub fn container_ids(listed: &Vec<Option<String>>) -> (r: Vec<String>)
    ensures
        words(r@) == known_ids(listed@),
{
    let mut out: Vec<String> = Vec::new();
    let ghost all = listed@;
    let mut i: usize = 0;
    assert(words(out@) =~= known_ids(all.take(0)));
    while i < listed.len()
        invariant
            i <= listed.len(),
            all == listed@,
            words(out@) == known_ids(all.take(i as int)),
        decreases listed.len() - i,
    {
        proof {
            assert(all.take(i + 1).drop_last() =~= all.take(i as int));
            assert(all.take(i + 1).last() == all[i as int]);
        }
        if let Some(id) = &listed[i] {
            let ghost held = out@;
            out.push(id.as_str().to_owned());
            assert(words(out@) =~= words(held).push(id@));
        }
        i = i + 1;
    }
    assert(all.take(all.len() as int) =~= all);
    out
}

/// What `docker info` says.
pub struct SystemInfo {
    /// Swarm node ID.
    pub node_id: Option<String>,
    /// Host name.
    pub name: Option<String>,
    /// Number of CPUs.
    pub ncpu: Option<i64>,
    /// Operating system.
    pub os_type: Option<String>,
    /// Engine version.
    pub server_version: Option<String>,
    /// Kernel version.
    pub kernel_version: Option<String>,
}

/// What `docker version` says.
pub struct SystemVersion {
    /// Engine version.
    pub version: Option<String>,
    /// API version.
    pub api_version: Option<String>,
    /// Kernel version.
    pub kernel_version: Option<String>,
}

/// A text, empty where it is missing.
pub open spec fn text_or_none(s: Option<Seq<char>>) -> Seq<char> {
    match s {
        Some(t) => t,
        None => seq![],
    }
}

/// The first of two texts that is there, empty where neither is.
pub open spec fn either_text(first: Option<Seq<char>>, second: Option<Seq<char>>) -> Seq<char> {
    match first {
        Some(t) => t,
        None => text_or_none(second),
    }
}

/// The low 32 bits of `n`, as a signed number.
pub open spec fn low_bits(n: int) -> int {
    (n + 0x8000_0000) % 0x1_0000_0000 - 0x8000_0000
}

/// Number of CPUs that the daemon reports, one where it reports none.
pub open spec fn cores_of(info: SystemInfo) -> int {
    match info.ncpu {
        Some(n) => low_bits(n as int),
        None => 1,
    }
}

/// Operating system of the daemon, Linux where it does not say.
pub open spec fn os_of(info: SystemInfo) -> Seq<char> {
    match info.os_type {
        Some(s) => s@,
        None => "linux"@,
    }
}

fn text_or(s: &Option<String>) -> (r: String)
    ensures
        r@ == text_or_none(chars_of(*s)),
{
    match s {
        Some(t) => t.as_str().to_owned(),
        None => String::new(),
    }
}

fn either(first: &Option<String>, second: &Option<String>) -> (r: String)
    ensures
        r@ == either_text(chars_of(*first), chars_of(*second)),
{
    match first {
        Some(t) => t.as_str().to_owned(),
        None => text_or(second),
    }
}

/// Number of CPUs that the daemon reports.
pub fn reported_cores(info: &SystemInfo) -> (r: i32)
    ensures
        r == cores_of(*info),
{
    match info.ncpu {
        Some(n) => {
            let wide: i128 = n as i128 + 0x8000_0000;
            let modulus: i128 = 0x1_0000_0000;
            let mut low: i128 = wide % modulus;
            if low < 0 {
                low = low + modulus;
            }
            assert(low == (n + 0x8000_0000) % 0x1_0000_0000);
            (low - 0x8000_0000) as i32
        },
        None => 1,
    }
}

/// Operating system of the daemon.
pub fn daemon_os(info: &SystemInfo) -> (r: String)
    ensures
        r@ == os_of(*info),
{
    match &info.os_type {
        Some(s) => s.as_str().to_owned(),
        None => "linux".to_owned(),
    }
}

/// What the operating system reports of the host.
pub struct HostSample {
    /// The mounted disks.
    pub disks: Vec<DiskSample>,
    /// Whether the host runs Windows.
    pub windows: bool,
    /// CPU usage over all cores.
    pub cpu_percentage: Binary64,
    /// Bytes of memory.
    pub total_memory: u64,
    /// Bytes of memory that are free.
    pub free_memory: u64,
}

/// The status that a tick gives: what the daemon says of itself, what the host says of itself, and
/// the containers.
pub open spec fn engine_report(
    info: SystemInfo,
    version: SystemVersion,
    host: HostSample,
    tasks: Seq<Snapshot>,
    agent_version: Seq<char>,
) -> Report {
    Report {
        id: text_or_none(chars_of(info.node_id)),
        hostname: text_or_none(chars_of(info.name)),
        orchestrator: "swarm"@,
        disk: root_space(host.disks@, host.windows),
        cpu: Load { used_percentage: host.cpu_percentage@, cores: cores_of(info) },
        memory: space_of(host.total_memory as int, host.free_memory as int),
        tasks,
        engine_version: either_text(chars_of(version.version), chars_of(info.server_version)),
        api_version: text_or_none(chars_of(version.api_version)),
        kernel_version: either_text(chars_of(version.kernel_version), chars_of(info.kernel_version)),
        agent_version,
    }
}

// ── Laws ─────────────────────────────────────────────────────────────────────

/// A mark is all that is added to an event: every other member stays as it was, and what is no
/// object stays as it is.
pub proof fn marking_leaves_the_rest(event: Tree, key: Seq<char>)
    requires
        key != "orchestrator"@,
    ensures
        member(Some(marked_event(event)), key) == member(Some(event), key),
        !(event is Object) ==> marked_event(event) == event,
{
    if event is Object {
        put_then_find(event->Object_0, "orchestrator"@, Tree::Text("swarm"@), key);
    }
}

/// Ids are taken over one by one, in order, and what is missing is left out.
pub proof fn ids_are_taken_over(a: Seq<Option<String>>, b: Seq<Option<String>>, id: String)
    ensures
        known_ids(a + b) == known_ids(a) + known_ids(b),
        known_ids(seq![Some(id)]) == seq![id@],
        known_ids(seq![None]) == Seq::<Seq<char>>::empty(),
    decreases b.len(),
{
    reveal_with_fuel(known_ids, 2);
    if b.len() == 0 {
        assert(a + b =~= a);
        assert(known_ids(a) + known_ids(b) =~= known_ids(a));
    } else {
        ids_are_taken_over(a, b.drop_last(), id);
        assert((a + b).drop_last() =~= a + b.drop_last());
        assert((a + b).last() == b.last());
        assert(known_ids(a + b) =~= known_ids(a) + known_ids(b));
    }
    let one: Seq<Option<String>> = seq![Some(id)];
    let none: Seq<Option<String>> = seq![None];
    assert(one.drop_last() =~= seq![]);
    assert(none.drop_last() =~= seq![]);
    assert(known_ids(one) =~= seq![id@]);
    assert(known_ids(none) =~= Seq::<Seq<char>>::empty());
}

/// Where there is no sample of a container, its snapshot says nothing but its id; where there is
/// one, the snapshot is that of the sample.
pub proof fn no_sample_no_numbers(reply: StatsReply, id: Seq<char>, os_type: Seq<char>)
    ensures
        ({
            let s = reply_snapshot(reply, id, os_type);
            &&& reply matches StatsReply::Sample(stats) ==> s == snapshot_of(stats, os_type, id)
            &&& !(reply is Sample) ==> {
                &&& s.id == id
                &&& s.name.len() == 0
                &&& s.namespace is None && s.pod is None && s.workload is None && s.workload_kind is None
                &&& s.cpu_percentage == Real64::zero() && s.memory == Real64::zero()
                &&& s.memory_limit == Real64::zero() && s.memory_percentage == Real64::zero()
                &&& s.network_rx_bytes == 0 && s.network_tx_bytes == 0
                &&& s.block_read_bytes == 0 && s.block_write_bytes == 0 && s.pids == 0
            }
        }),
{
}

/// The events of containers, networks, services, nodes, secrets, configs and volumes are asked for,
/// and no others.
pub proof fn relevant_types_are_asked_for(ty: Seq<char>)
    ensures
        relevant().contains(ty) <==> ty == "container"@ || ty == "network"@ || ty == "service"@ || ty == "node"@ || ty
            == "secret"@ || ty == "config"@ || ty == "volume"@,
        relevant().len() == 7,
{
    let all = relevant();
    assert(all[0] == "container"@ && all[1] == "network"@ && all[2] == "service"@ && all[3] == "node"@ && all[4]
        == "secret"@ && all[5] == "config"@ && all[6] == "volume"@);
}

/// A count of CPUs that 32 bits do not hold wraps around.
pub proof fn core_counts_wrap_around(info: SystemInfo)
    requires
        info.ncpu is Some,
    ensures
        (cores_of(info) - info.ncpu->0) % 0x1_0000_0000 == 0,
        i32::MIN <= cores_of(info) <= i32::MAX,
{
}

/// The daemon runs on what it says, and on Linux where it does not say.
pub proof fn daemons_run_on_what_they_say(info: SystemInfo)
    ensures
        info.os_type matches Some(s) ==> os_of(info) == s@,
        info.os_type is None ==> os_of(info) == "linux"@,
{
}

/// A status says what the daemon says of itself: its node id and its host name; its engine and
/// kernel versions as `docker version` gives them, else as `docker info` does; and its API version.
/// What neither gives is empty.
pub proof fn report_names_the_daemon(
    info: SystemInfo,
    version: SystemVersion,
    host: HostSample,
    tasks: Seq<Snapshot>,
    agent_version: Seq<char>,
)
    ensures
        ({
            let r = engine_report(info, version, host, tasks, agent_version);
            &&& info.node_id matches Some(s) ==> r.id == s@
            &&& info.node_id is None ==> r.id.len() == 0
            &&& info.name matches Some(s) ==> r.hostname == s@
            &&& info.name is None ==> r.hostname.len() == 0
            &&& version.version matches Some(s) ==> r.engine_version == s@
            &&& version.version is None && info.server_version is Some ==> r.engine_version
                == info.server_version->0@
            &&& version.version is None && info.server_version is None ==> r.engine_version.len() == 0
            &&& version.kernel_version matches Some(s) ==> r.kernel_version == s@
            &&& version.kernel_version is None && info.kernel_version is Some ==> r.kernel_version
                == info.kernel_version->0@
            &&& version.kernel_version is None && info.kernel_version is None ==> r.kernel_version.len() == 0
            &&& version.api_version matches Some(s) ==> r.api_version == s@
            &&& version.api_version is None ==> r.api_version.len() == 0
            &&& r.agent_version == agent_version
            &&& r.orchestrator == "swarm"@
        }),
{
}

/// A status says what the host uses: the root filesystem; the CPU, with the cores that the daemon
/// reports, or one; and the memory. Its tasks are the containers.
pub proof fn report_measures_the_host(
    info: SystemInfo,
    version: SystemVersion,
    host: HostSample,
    tasks: Seq<Snapshot>,
    agent_version: Seq<char>,
)
    ensures
        ({
            let r = engine_report(info, version, host, tasks, agent_version);
            &&& r.disk == root_space(host.disks@, host.windows)
            &&& r.cpu.used_percentage == host.cpu_percentage@
            &&& info.ncpu matches Some(n) ==> (i32::MIN <= n <= i32::MAX ==> r.cpu.cores == n)
            &&& info.ncpu is None ==> r.cpu.cores == 1
            &&& i32::MIN <= r.cpu.cores <= i32::MAX
            &&& r.memory.total == host.total_memory
            &&& r.memory.free == host.free_memory
            &&& host.free_memory <= host.total_memory ==> r.memory.used + r.memory.free == r.memory.total
            &&& host.free_memory > host.total_memory ==> r.memory.used == 0
            &&& r.memory == space_of(host.total_memory as int, host.free_memory as int)
            &&& r.tasks == tasks
        }),
{
    space_is_split(host.total_memory as int, host.free_memory as int);
}

/// Orchestrator identifier put into outbound payloads.
pub fn orchestrator() -> (r: &'static str)
    ensures
        r@ == "swarm"@,
{
    "swarm"
}

/// Assembles one full [`Status`] snapshot: daemon metadata, host metrics, and per-container
/// statistics.
pub fn collect_status(
    info: &SystemInfo,
    version: &SystemVersion,
    host: &HostSample,
    tasks: Vec<ContainerStatus>,
    agent_version: &str,
) -> (r: Status)
    ensures
        r@ == engine_report(*info, *version, *host, snapshots(tasks@), agent_version@),
{
    Status {
        id: text_or(&info.node_id),
        hostname: text_or(&info.name),
        orchestrator: orchestrator().to_owned(),
        disk: disk_usage(&host.disks, host.windows),
        cpu: cpu_usage(host.cpu_percentage, reported_cores(info)),
        memory: memory_usage(host.total_memory, host.free_memory),
        tasks,
        engine_version: either(&version.version, &info.server_version),
        api_version: text_or(&version.api_version),
        kernel_version: either(&version.kernel_version, &info.kernel_version),
        agent_version: agent_version.to_owned(),
    }
}

} // verus!
