//! Host resources, from what the operating system reports.

use vstd::prelude::*;

use crate::binary64::{Binary64, Real64};
use crate::counter::{floored, minus};
use crate::models::{CpuStatus, DiskStatus, Load, MemoryStatus, Space};
use crate::percent::{pct, percentage, percentage_is_at_most_hundred, percentage_is_the_ratio};
use crate::text::same;

verus! {

/// A mounted disk.
pub struct DiskSample {
    /// Where it is mounted.
    pub mount_point: String,
    /// Capacity in bytes.
    pub total_space: u64,
    /// Available bytes.
    pub available_space: u64,
}

/// The percentage that `part` bytes are of `whole` bytes, zero where there is no whole.
pub open spec fn byte_percentage(part: int, whole: int) -> Real64 {
    percentage(Real64::of(part as nat), Real64::of(whole as nat))
}

fn byte_pct(part: u64, whole: u64) -> (r: Binary64)
    ensures
        r@ == byte_percentage(part as int, whole as int),
{
    pct(&Binary64::from_u64(part), &Binary64::from_u64(whole))
}

// ── Disks ────────────────────────────────────────────────────────────────────

/// Mount points that a root filesystem can have, in order of preference.
pub open spec fn root_mounts(windows: bool) -> Seq<Seq<char>> {
    if windows {
        seq!["C:\\"@, "C:/"@, "\\"@]
    } else {
        seq!["/"@]
    }
}

/// Mount points that a root filesystem can have, in order of preference.
pub fn root_disk_candidates(windows: bool) -> (r: Vec<&'static str>)
    ensures
        r@.len() == root_mounts(windows).len(),
        forall|i: int| 0 <= i < r@.len() ==> (#[trigger] r@[i])@ == root_mounts(windows)[i],
{
    if windows {
        vec!["C:\\", "C:/", "\\"]
    } else {
        vec!["/"]
    }
}

/// Position of the first disk that is mounted at `mount`.
pub open spec fn mounted_at(disks: Seq<DiskSample>, mount: Seq<char>) -> Option<int>
    decreases disks.len(),
{
    if disks.len() == 0 {
        None
    } else {
        match mounted_at(disks.drop_last(), mount) {
            Some(i) => Some(i),
            None => if disks.last().mount_point@ == mount {
                Some(disks.len() - 1)
            } else {
                None
            },
        }
    }
}

/// Position of the first disk that is mounted at the first of `mounts` at which one is.
pub open spec fn first_mounted(disks: Seq<DiskSample>, mounts: Seq<Seq<char>>) -> Option<int>
    decreases mounts.len(),
{
    if mounts.len() == 0 {
        None
    } else {
        match mounted_at(disks, mounts[0]) {
            Some(i) => Some(i),
            None => first_mounted(disks, mounts.drop_first()),
        }
    }
}

/// Position of the disk that stands for the root filesystem: one that is mounted as such, else the
/// first one.
pub open spec fn root_disk(disks: Seq<DiskSample>, windows: bool) -> Option<int> {
    match first_mounted(disks, root_mounts(windows)) {
        Some(i) => Some(i),
        None => if disks.len() > 0 {
            Some(0)
        } else {
            None
        },
    }
}

fn find_mounted(disks: &Vec<DiskSample>, mount: &str) -> (r: Option<usize>)
    ensures
        match r {
            Some(i) => mounted_at(disks@, mount@) == Some(i as int) && i < disks@.len(),
            None => mounted_at(disks@, mount@) is None,
        },
{
    let mut i: usize = 0;
    let ghost all = disks@;
    while i < disks.len()
        invariant
            i <= disks.len(),
            all == disks@,
            mounted_at(all.take(i as int), mount@) is None,
        decreases disks.len() - i,
    {
        proof {
            assert(all.take(i + 1).drop_last() =~= all.take(i as int));
        }
        if same(disks[i].mount_point.as_str(), mount) {
            proof {
                lemma_mounted_early(all, mount@, i + 1);
            }
            return Some(i);
        }
        i = i + 1;
    }
    assert(all.take(all.len() as int) =~= all);
    None
}

/// What is found among the first disks is found among all.
proof fn lemma_mounted_early(disks: Seq<DiskSample>, mount: Seq<char>, n: int)
    requires
        0 <= n <= disks.len(),
        mounted_at(disks.take(n), mount) is Some,
    ensures
        mounted_at(disks, mount) == mounted_at(disks.take(n), mount),
    decreases disks.len(),
{
    if n < disks.len() {
        assert(disks.drop_last().take(n) =~= disks.take(n));
        lemma_mounted_early(disks.drop_last(), mount, n);
    } else {
        assert(disks.take(n) =~= disks);
    }
}

/// The disk that represents the root filesystem, the first disk in the list if no canonical mount
/// point is found.
pub fn pick_root_disk(disks: &Vec<DiskSample>, windows: bool) -> (r: Option<&DiskSample>)
    ensures
        match r {
            Some(d) => root_disk(disks@, windows) matches Some(i) && 0 <= i < disks@.len() && *d == disks@[i],
            None => root_disk(disks@, windows) is None,
        },
{
    let candidates: Vec<&'static str> = root_disk_candidates(windows);
    let ghost mounts = root_mounts(windows);
    let mut i: usize = 0;
    proof {
        assert(mounts.skip(0) =~= mounts);
    }
    while i < candidates.len()
        invariant
            i <= candidates.len(),
            mounts == root_mounts(windows),
            candidates@.len() == mounts.len(),
            forall|j: int| 0 <= j < candidates@.len() ==> (#[trigger] candidates@[j])@ == mounts[j],
            first_mounted(disks@, mounts) == first_mounted(disks@, mounts.skip(i as int)),
        decreases candidates.len() - i,
    {
        proof {
            assert(mounts.skip(i as int)[0] == mounts[i as int]);
            assert(mounts.skip(i as int).drop_first() =~= mounts.skip(i + 1));
        }
        if let Some(at) = find_mounted(disks, candidates[i]) {
            return Some(&disks[at]);
        }
        i = i + 1;
    }
    if disks.len() > 0 {
        Some(&disks[0])
    } else {
        None
    }
}

/// Usage of a disk or of memory: what is not free is used.
pub open spec fn space_of(total: int, free: int) -> Space {
    let used = floored(total - free);
    Space { total, used, used_percentage: byte_percentage(used, total), free }
}

/// Usage of the root filesystem, zeros where there is no disk.
pub open spec fn root_space(disks: Seq<DiskSample>, windows: bool) -> Space {
    match root_disk(disks, windows) {
        Some(i) => space_of(disks[i].total_space as int, disks[i].available_space as int),
        None => Space { total: 0, used: 0, used_percentage: Real64::zero(), free: 0 },
    }
}

/// Disk capacity and usage of the root filesystem.
///
/// Returns a zeroed [`DiskStatus`] when there is no disk (e.g. in a stripped container).
pub fn disk_usage(disks: &Vec<DiskSample>, windows: bool) -> (r: DiskStatus)
    ensures
        r@ == root_space(disks@, windows),
{
    match pick_root_disk(disks, windows) {
        Some(d) => {
            let total: u64 = d.total_space;
            let free: u64 = d.available_space;
            let used: u64 = minus(total, free);
            DiskStatus { total, used, used_percentage: byte_pct(used, total), free }
        },
        None => DiskStatus::default(),
    }
}

/// Never more is used of a disk or of memory than there is, nor more than 100 percent; where no more
/// is free than there is, used and free space make up the whole.
pub proof fn space_is_within_bounds(total: int, free: int)
    requires
        0 <= free,
        0 <= total <= u64::MAX,
    ensures
        0 <= space_of(total, free).used <= total,
        space_of(total, free).used_percentage.at_most(100),
        free <= total ==> space_of(total, free).used + free == total,
{
    percentage_is_at_most_hundred(space_of(total, free).used as nat, total as nat);
}

/// Whether disk `i` is the first that is mounted at `mount`.
pub open spec fn is_first_at(disks: Seq<DiskSample>, i: int, mount: Seq<char>) -> bool {
    &&& 0 <= i < disks.len()
    &&& disks[i].mount_point@ == mount
    &&& forall|j: int| 0 <= j < i ==> (#[trigger] disks[j]).mount_point@ != mount
}

/// Whether no disk is mounted at `mount`.
pub open spec fn none_is_at(disks: Seq<DiskSample>, mount: Seq<char>) -> bool {
    forall|j: int| 0 <= j < disks.len() ==> (#[trigger] disks[j]).mount_point@ != mount
}

proof fn lemma_mounted_at(disks: Seq<DiskSample>, mount: Seq<char>)
    ensures
        mounted_at(disks, mount) matches Some(i) ==> is_first_at(disks, i, mount),
        mounted_at(disks, mount) is None ==> none_is_at(disks, mount),
    decreases disks.len(),
{
    if disks.len() > 0 {
        let rest = disks.drop_last();
        lemma_mounted_at(rest, mount);
        if let Some(i) = mounted_at(rest, mount) {
            assert(rest[i] == disks[i]);
            assert forall|j: int| 0 <= j < i implies (#[trigger] disks[j]).mount_point@ != mount by {
                assert(rest[j] == disks[j]);
            }
        } else {
            assert forall|j: int| 0 <= j < disks.len() - 1 implies (#[trigger] disks[j]).mount_point@ != mount by {
                assert(rest[j] == disks[j]);
            }
        }
    }
}

/// The disk that stands for the root filesystem is the first one mounted at `/`; on Windows the
/// first one at `C:\`, else at `C:/`, else at `\`. Where there is no such disk it is the first of
/// all.
pub proof fn root_disk_is_mounted_as_root(disks: Seq<DiskSample>, i: int)
    ensures
        is_first_at(disks, i, "/"@) ==> root_disk(disks, false) == Some(i),
        none_is_at(disks, "/"@) && disks.len() > 0 ==> root_disk(disks, false) == Some(0int),
        is_first_at(disks, i, "C:\\"@) ==> root_disk(disks, true) == Some(i),
        none_is_at(disks, "C:\\"@) && is_first_at(disks, i, "C:/"@) ==> root_disk(disks, true) == Some(i),
        none_is_at(disks, "C:\\"@) && none_is_at(disks, "C:/"@) && is_first_at(disks, i, "\\"@) ==> root_disk(
            disks,
            true,
        ) == Some(i),
        none_is_at(disks, "C:\\"@) && none_is_at(disks, "C:/"@) && none_is_at(disks, "\\"@) && disks.len() > 0
            ==> root_disk(disks, true) == Some(0int),
        disks.len() == 0 ==> root_disk(disks, false) is None && root_disk(disks, true) is None,
{
    lemma_mounted_at(disks, "/"@);
    lemma_mounted_at(disks, "C:\\"@);
    lemma_mounted_at(disks, "C:/"@);
    lemma_mounted_at(disks, "\\"@);
    reveal_with_fuel(first_mounted, 5);
    let unix = root_mounts(false);
    let windows = root_mounts(true);
    assert(unix.drop_first() =~= seq![]);
    assert(windows.drop_first() =~= seq!["C:/"@, "\\"@]);
    assert(windows.drop_first().drop_first() =~= seq!["\\"@]);
    assert(windows.drop_first().drop_first().drop_first() =~= seq![]);
}

/// The space of a disk or of memory: total and free as they are, the rest is used, never less than
/// nothing, and its percentage is that of the used space in the whole.
pub proof fn space_is_split(total: int, free: int)
    requires
        0 <= free,
        0 <= total <= u64::MAX,
    ensures
        ({
            let space = space_of(total, free);
            &&& space.total == total
            &&& space.free == free
            &&& free <= total ==> space.used + space.free == space.total
            &&& free > total ==> space.used == 0
            &&& total > 0 ==> space.used_percentage == Real64::of(space.used as nat).over(
                Real64::of(total as nat),
            ).times(Real64::of(100))
            &&& total == 0 ==> space.used_percentage == Real64::zero()
        }),
{
    percentage_is_the_ratio(Real64::of(space_of(total, free).used as nat), total as nat);
}

/// The root filesystem is reported with the space of the disk that stands for it, and with zeros
/// where there is no disk.
pub proof fn root_space_is_that_of_the_root_disk(disks: Seq<DiskSample>, windows: bool, i: int)
    ensures
        root_disk(disks, windows) == Some(i) ==> root_space(disks, windows) == space_of(
            disks[i].total_space as int,
            disks[i].available_space as int,
        ),
        disks.len() == 0 ==> root_space(disks, windows).total == 0 && root_space(disks, windows).used == 0
            && root_space(disks, windows).free == 0 && root_space(disks, windows).used_percentage == Real64::zero(),
{
    root_disk_is_mounted_as_root(disks, 0);
}

// ── CPU and memory ───────────────────────────────────────────────────────────

/// CPU usage of the host.
///
/// The core count comes from `docker info`, so it is the number of CPUs visible to the Docker
/// daemon, which may differ from the host topology (e.g. in VMs or cgroup-limited nodes).
pub fn cpu_usage(global_percentage: Binary64, cores_reported: i32) -> (r: CpuStatus)
    ensures
        r@ == (Load { used_percentage: global_percentage@, cores: cores_reported as int }),
{
    CpuStatus { used_percentage: global_percentage, cores: cores_reported }
}

/// Memory usage of the host: what is not free is used.
pub fn memory_usage(total: u64, free: u64) -> (r: MemoryStatus)
    ensures
        r@ == space_of(total as int, free as int),
{
    let used: u64 = minus(total, free);
    MemoryStatus { total, used, used_percentage: byte_pct(used, total), free }
}

} // verus!
