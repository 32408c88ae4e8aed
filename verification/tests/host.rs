use swarmagent::binary64::Binary64;
use swarmagent::host::{
    cpu_usage, disk_usage, memory_usage, pick_root_disk, root_disk_candidates, DiskSample,
};

fn to_f64(x: Binary64) -> f64 {
    f64::from_bits(x.to_bits())
}

fn disk(mount_point: &str, total_space: u64, available_space: u64) -> DiskSample {
    DiskSample { mount_point: mount_point.to_string(), total_space, available_space }
}

#[test]
fn disk_usage_percent_in_range() {
    let disks: Vec<DiskSample> = sysinfo::Disks::new_with_refreshed_list()
        .list()
        .iter()
        .map(|d| disk(&d.mount_point().to_string_lossy(), d.total_space(), d.available_space()))
        .collect();
    let d = disk_usage(&disks, false);
    assert!(to_f64(d.used_percentage) >= 0.0 && to_f64(d.used_percentage) <= 100.0);
    if d.total > 0 {
        assert!(d.used <= d.total);
        assert!(d.free <= d.total);
    }
}

#[test]
fn memory_and_cpu_sample() {
    let mut sys = sysinfo::System::new_with_specifics(
        sysinfo::RefreshKind::new()
            .with_cpu(sysinfo::CpuRefreshKind::everything())
            .with_memory(sysinfo::MemoryRefreshKind::everything()),
    );
    sys.refresh_memory();
    let mem = memory_usage(sys.total_memory(), sys.free_memory());
    assert!(to_f64(mem.used_percentage) >= 0.0 && to_f64(mem.used_percentage) <= 100.0);
    sys.refresh_cpu_usage();
    let cpu = cpu_usage(Binary64::from_bits((sys.global_cpu_usage() as f64).to_bits()), 1);
    assert!(cpu.cores >= 1);
    assert!(to_f64(cpu.used_percentage) >= 0.0);
}

#[test]
fn root_candidates() {
    assert_eq!(root_disk_candidates(false), vec!["/"]);
    assert_eq!(root_disk_candidates(true), vec!["C:\\", "C:/", "\\"]);
}

#[test]
fn root_disk_is_preferred_over_the_first() {
    let disks = vec![disk("/boot", 1, 1), disk("/", 100, 25), disk("/", 7, 7)];
    let d = pick_root_disk(&disks, false).unwrap();
    assert_eq!(d.total_space, 100);
    let s = disk_usage(&disks, false);
    assert_eq!((s.total, s.used, s.free), (100, 75, 25));
    assert_eq!(to_f64(s.used_percentage), 75.0);
    // No canonical mount point: the first disk.
    assert_eq!(pick_root_disk(&disks, true).unwrap().total_space, 1);
    let windows = vec![disk("D:\\", 3, 1), disk("C:/", 5, 1), disk("C:\\", 4, 1)];
    assert_eq!(pick_root_disk(&windows, true).unwrap().total_space, 4);
}

#[test]
fn disk_edge_cases() {
    assert!(pick_root_disk(&Vec::new(), false).is_none());
    let none = disk_usage(&Vec::new(), false);
    assert_eq!((none.total, none.used, none.free), (0, 0, 0));
    assert_eq!(to_f64(none.used_percentage), 0.0);
    let odd = disk_usage(&vec![disk("/", 10, 20)], false);
    assert_eq!((odd.total, odd.used, odd.free), (10, 0, 20));
    let empty = disk_usage(&vec![disk("/", 0, 0)], false);
    assert_eq!(to_f64(empty.used_percentage), 0.0);
}

#[test]
fn memory_percentages() {
    let m = memory_usage(8_000, 6_000);
    assert_eq!((m.total, m.used, m.free), (8_000, 2_000, 6_000));
    assert_eq!(to_f64(m.used_percentage), 25.0);
    let odd = memory_usage(10, 20);
    assert_eq!((odd.total, odd.used, odd.free), (10, 0, 20));
    assert_eq!(to_f64(odd.used_percentage), 0.0);
    assert_eq!(to_f64(memory_usage(0, 0).used_percentage), 0.0);
    assert_eq!(to_f64(memory_usage(u64::MAX, 0).used_percentage), 100.0);
}
