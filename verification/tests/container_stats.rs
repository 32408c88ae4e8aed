use swarmagent::binary64::Binary64;
use swarmagent::container_stats::{
    block_io, calculate_cpu_percent_unix, calculate_cpu_percent_windows, calculate_memory_percent_unix_no_cache,
    calculate_memory_usage_unix_no_cache, container_status_from_stats, container_status_over, network_io, pid_count, BlkioStats,
    BlkioStatsEntry, CPUStats, CPUUsage, MemoryStats, MemoryStatsStats, NetworkStats, PidsStats, Stats,
};
use swarmagent::keyed::StringMap;

fn to_f64(x: Binary64) -> f64 {
    f64::from_bits(x.to_bits())
}

fn number(x: f64) -> Binary64 {
    Binary64::from_bits(x.to_bits())
}

fn empty_cpu_stats() -> CPUStats {
    CPUStats {
        cpu_usage: CPUUsage { total_usage: 0, percpu_usage: None },
        system_cpu_usage: None,
        online_cpus: None,
    }
}

fn empty_memory_stats() -> MemoryStats {
    MemoryStats { stats: None, usage: None, limit: None, privateworkingset: None }
}

fn empty_blkio_stats() -> BlkioStats {
    BlkioStats { io_service_bytes_recursive: None }
}

fn make_stats() -> Stats {
    Stats {
        name: String::new(),
        id: String::new(),
        read: "2024-01-01T00:00:00Z".to_string(),
        preread: "2024-01-01T00:00:00Z".to_string(),
        num_procs: 0,
        networks: None,
        pids_stats: PidsStats { current: None },
        blkio_stats: empty_blkio_stats(),
        cpu_stats: empty_cpu_stats(),
        precpu_stats: empty_cpu_stats(),
        memory_stats: empty_memory_stats(),
    }
}

fn make_network_stats(rx: u64, tx: u64) -> NetworkStats {
    NetworkStats { rx_bytes: rx, tx_bytes: tx }
}

fn entry(op: &str, value: u64) -> BlkioStatsEntry {
    BlkioStatsEntry { op: op.to_string(), value }
}

#[test]
fn memory_no_cache() {
    let u = to_f64(calculate_memory_usage_unix_no_cache(500, 200));
    assert!((u - 300.0).abs() < f64::EPSILON);
    let pct = to_f64(calculate_memory_percent_unix_no_cache(&number(1000.0), &number(250.0)));
    assert!((pct - 25.0).abs() < f64::EPSILON);
}

#[test]
fn memory_percent_zero_when_limit_zero() {
    assert_eq!(to_f64(calculate_memory_percent_unix_no_cache(&number(0.0), &number(100.0))), 0.0);
}

#[test]
fn memory_usage_clamps_on_underflow() {
    assert_eq!(to_f64(calculate_memory_usage_unix_no_cache(100, 200)), 0.0);
}

#[test]
fn windows_cpu_percent() {
    let p = to_f64(calculate_cpu_percent_windows(1_000_000, 4, 25_000));
    assert!((p - 62.5).abs() < 0.01);
}

#[test]
fn windows_cpu_percent_zero_when_divisor_zero() {
    assert_eq!(to_f64(calculate_cpu_percent_windows(0, 4, 1000)), 0.0);
}

#[test]
fn unix_cpu_percent_with_online_cpus() {
    let cur = CPUStats {
        cpu_usage: CPUUsage { total_usage: 200, percpu_usage: None },
        system_cpu_usage: Some(2000),
        online_cpus: Some(2),
    };
    // (100/1000) * 2 * 100 = 20.0
    assert!((to_f64(calculate_cpu_percent_unix(100, 1000, &cur)) - 20.0).abs() < f64::EPSILON);
}

#[test]
fn unix_cpu_percent_zero_when_no_delta() {
    let cur = CPUStats { system_cpu_usage: Some(1000), online_cpus: Some(1), ..empty_cpu_stats() };
    assert_eq!(to_f64(calculate_cpu_percent_unix(0, 1000, &cur)), 0.0);
}

#[test]
fn unix_cpu_percent_falls_back_to_percpu_count() {
    // online_cpus absent → falls back to percpu_usage.len() = 4
    let cur = CPUStats {
        cpu_usage: CPUUsage { total_usage: 200, percpu_usage: Some(vec![50, 50, 50, 50]) },
        system_cpu_usage: Some(2000),
        online_cpus: None,
    };
    // (100/1000) * 4 * 100 = 40.0
    assert!((to_f64(calculate_cpu_percent_unix(100, 1000, &cur)) - 40.0).abs() < f64::EPSILON);
}

#[test]
fn cpu_percentages_are_finite_and_not_negative() {
    for total in [0, 1, 2, u64::MAX] {
        for system in [None, Some(0), Some(1), Some(u64::MAX)] {
            for cores in [None, Some(0), Some(1), Some(u64::MAX)] {
                let cur = CPUStats {
                    cpu_usage: CPUUsage { total_usage: total, percpu_usage: None },
                    system_cpu_usage: system,
                    online_cpus: cores,
                };
                let percentage = to_f64(calculate_cpu_percent_unix(0, 0, &cur));
                assert!(percentage.is_finite() && percentage >= 0.0);
            }
        }
    }
    for (interval, procs, used) in [(100, 1, u64::MAX), (u64::MAX, u32::MAX, 1), (99, 1, 7), (500, 0, 9)] {
        let percentage = to_f64(calculate_cpu_percent_windows(interval, procs, used));
        assert!(percentage.is_finite() && percentage >= 0.0);
    }
}

#[test]
fn pid_count_with_value() {
    let stats = Stats { pids_stats: PidsStats { current: Some(7) }, ..make_stats() };
    assert_eq!(pid_count(&stats), 7);
}

#[test]
fn pid_count_none_returns_zero() {
    assert_eq!(pid_count(&make_stats()), 0);
}

#[test]
fn network_io_sums_interfaces() {
    let mut nets = StringMap::new();
    nets.insert("eth0".to_string(), make_network_stats(1000, 2000));
    nets.insert("eth1".to_string(), make_network_stats(500, 300));
    let stats = Stats { networks: Some(nets), pids_stats: PidsStats { current: Some(3) }, ..make_stats() };
    let (rx, tx) = network_io(&stats);
    assert_eq!(rx, 1500);
    assert_eq!(tx, 2300);
    assert_eq!(pid_count(&stats), 3);
}

#[test]
fn network_io_none_networks_is_zero() {
    assert_eq!(network_io(&make_stats()), (0, 0));
}

#[test]
fn network_io_stops_at_the_largest_number() {
    let mut nets = StringMap::new();
    nets.insert("eth0".to_string(), make_network_stats(u64::MAX, 1));
    nets.insert("eth1".to_string(), make_network_stats(1, u64::MAX - 1));
    nets.insert("eth2".to_string(), make_network_stats(1, 0));
    let stats = Stats { networks: Some(nets), ..make_stats() };
    assert_eq!(network_io(&stats), (u64::MAX, u64::MAX));
}

#[test]
fn block_io_sums_read_and_write() {
    let entries = vec![entry("Read", 4096), entry("Write", 8192), entry("Total", 12288)];
    let stats = Stats {
        blkio_stats: BlkioStats { io_service_bytes_recursive: Some(entries) },
        ..make_stats()
    };
    let (read, write) = block_io(&stats);
    assert_eq!(read, 4096);
    assert_eq!(write, 8192);
}

#[test]
fn block_io_none_is_zero() {
    assert_eq!(block_io(&make_stats()), (0, 0));
}

#[test]
fn block_io_ignores_case_and_stops_at_the_largest_number() {
    let entries = vec![entry("READ", u64::MAX), entry("read", 5), entry("wRiTe", 2), entry("WRITE", 3)];
    let stats = Stats {
        blkio_stats: BlkioStats { io_service_bytes_recursive: Some(entries) },
        ..make_stats()
    };
    assert_eq!(block_io(&stats), (u64::MAX, 5));
}

#[test]
fn container_status_linux_path() {
    let mut nets = StringMap::new();
    nets.insert("eth0".to_string(), make_network_stats(1024, 2048));
    let stats = Stats {
        name: "/web".to_string(),
        id: "abc".to_string(),
        networks: Some(nets),
        pids_stats: PidsStats { current: Some(5) },
        cpu_stats: CPUStats {
            cpu_usage: CPUUsage { total_usage: 200, percpu_usage: None },
            system_cpu_usage: Some(2000),
            online_cpus: Some(2),
        },
        precpu_stats: CPUStats {
            cpu_usage: CPUUsage { total_usage: 100, percpu_usage: None },
            system_cpu_usage: Some(1000),
            online_cpus: None,
        },
        memory_stats: MemoryStats { usage: Some(1000), limit: Some(2000), ..empty_memory_stats() },
        blkio_stats: BlkioStats {
            io_service_bytes_recursive: Some(vec![entry("Read", 300), entry("Write", 400)]),
        },
        ..make_stats()
    };

    let cs = container_status_from_stats(&stats, "linux", "fullcontainerid123");
    assert_eq!(cs.name, "/web");
    assert_eq!(cs.id, "abc");
    // cpu: (100/1000) * 2 * 100 = 20.0
    assert!((to_f64(cs.cpu_percentage) - 20.0).abs() < f64::EPSILON);
    // memory: 1000 − 0 cache = 1000, limit 2000, percent 50.0
    assert!((to_f64(cs.memory) - 1000.0).abs() < f64::EPSILON);
    assert!((to_f64(cs.memory_limit) - 2000.0).abs() < f64::EPSILON);
    assert!((to_f64(cs.memory_percentage) - 50.0).abs() < f64::EPSILON);
    assert_eq!(cs.network_rx_bytes, 1024);
    assert_eq!(cs.network_tx_bytes, 2048);
    assert_eq!(cs.block_read_bytes, 300);
    assert_eq!(cs.block_write_bytes, 400);
    assert_eq!(cs.pids, 5);
    assert!(cs.namespace.is_none() && cs.pod.is_none());
    assert!(cs.workload.is_none() && cs.workload_kind.is_none());
}

#[test]
fn container_status_windows_path() {
    let stats = Stats {
        name: "/win".to_string(),
        id: "win1".to_string(),
        // 1 second interval → 1_000_000_000 ns
        read: "2024-01-01T00:00:01Z".to_string(),
        preread: "2024-01-01T00:00:00Z".to_string(),
        num_procs: 4,
        cpu_stats: CPUStats {
            cpu_usage: CPUUsage { total_usage: 50_000_000, ..empty_cpu_stats().cpu_usage },
            ..empty_cpu_stats()
        },
        precpu_stats: empty_cpu_stats(),
        memory_stats: MemoryStats { privateworkingset: Some(1024 * 1024), ..empty_memory_stats() },
        ..make_stats()
    };

    let cs = container_status_from_stats(&stats, "Windows", "wincontainerid");
    assert_eq!(cs.name, "/win");
    // poss = (1_000_000_000 / 100) * 4 = 40_000_000
    // cpu% = 50_000_000 / 40_000_000 * 100 = 125.0
    assert!((to_f64(cs.cpu_percentage) - 125.0).abs() < 0.01);
    assert!((to_f64(cs.memory) - (1024.0 * 1024.0)).abs() < f64::EPSILON);
    assert_eq!(to_f64(cs.memory_limit), 0.0);
    assert_eq!(to_f64(cs.memory_percentage), 0.0);
    assert_eq!(cs.pids, 0);
}

fn windows_sample(read: &str, preread: &str) -> f64 {
    let stats = Stats {
        read: read.to_string(),
        preread: preread.to_string(),
        num_procs: 1,
        cpu_stats: CPUStats {
            cpu_usage: CPUUsage { total_usage: 5_000_000, percpu_usage: None },
            ..empty_cpu_stats()
        },
        ..make_stats()
    };
    to_f64(container_status_from_stats(&stats, "WINDOWS", "x").cpu_percentage)
}

#[test]
fn windows_interval_reads_offsets_and_fractions() {
    // half a second is 5_000_000 intervals of 100 ns
    assert_eq!(windows_sample("2024-01-01T00:00:00.5Z", "2024-01-01T00:00:00Z"), 100.0);
    assert_eq!(windows_sample("2024-01-01T02:00:01+02:00", "2024-01-01T00:00:00Z"), 50.0);
    assert_eq!(windows_sample(" 2024-01-01T00:00:01Z\n", "2024-01-01T00:00:00Z"), 50.0);
    // backwards, unreadable, or too far apart: no interval
    assert_eq!(windows_sample("2024-01-01T00:00:00Z", "2024-01-01T00:00:01Z"), 0.0);
    assert_eq!(windows_sample("yesterday", "2024-01-01T00:00:01Z"), 0.0);
    assert_eq!(windows_sample("9999-01-01T00:00:00Z", "0001-01-01T00:00:00Z"), 0.0);
}

#[test]
fn page_cache_is_subtracted_in_both_versions() {
    let v1 = Stats {
        memory_stats: MemoryStats {
            stats: Some(MemoryStatsStats::V1 { cache: 300 }),
            usage: Some(1000),
            ..empty_memory_stats()
        },
        ..make_stats()
    };
    assert_eq!(to_f64(container_status_from_stats(&v1, "linux", "c").memory), 700.0);
    let v2 = Stats {
        memory_stats: MemoryStats {
            stats: Some(MemoryStatsStats::V2 { inactive_file: 1 }),
            usage: Some(1000),
            ..empty_memory_stats()
        },
        ..make_stats()
    };
    let cs = container_status_from_stats(&v2, "linux", "c");
    assert_eq!(to_f64(cs.memory), 999.0);
    assert_eq!(to_f64(cs.memory_percentage), 0.0);
}

#[test]
fn container_id_stands_in_for_a_missing_id() {
    let cs = container_status_from_stats(&make_stats(), "linux", "full");
    assert_eq!(cs.id, "full");
}

#[test]
fn formulas_agree_with_hardware_floats() {
    let samples: [(u64, u64, u64); 6] = [
        (1, 3, 7),
        (123_456_789, 987_654_321, 12),
        (u64::MAX, 3, 64),
        (3, u64::MAX, 64),
        (9_007_199_254_740_993, 9_007_199_254_740_995, 3),
        (77, 5_000_000_000_000, 128),
    ];
    for (cpu, system, cores) in samples {
        let cur = CPUStats {
            cpu_usage: CPUUsage { total_usage: cpu, percpu_usage: None },
            system_cpu_usage: Some(system),
            online_cpus: Some(cores),
        };
        let expected = (cpu as f64 / system as f64) * cores as f64 * 100.0;
        assert_eq!(to_f64(calculate_cpu_percent_unix(0, 0, &cur)).to_bits(), expected.to_bits());
        let used = cpu as f64 / system as f64 * 100.0;
        let got = calculate_memory_percent_unix_no_cache(&number(system as f64), &number(cpu as f64));
        assert_eq!(to_f64(got).to_bits(), used.to_bits());
    }
    let poss = u64::MAX as f64;
    assert_eq!(
        to_f64(calculate_cpu_percent_windows(u64::MAX, u32::MAX, 5)).to_bits(),
        (5.0 / poss * 100.0).to_bits()
    );
}

#[test]
fn interval_counts_for_windows_alone() {
    let stats = Stats {
        num_procs: 2,
        cpu_stats: CPUStats {
            cpu_usage: CPUUsage { total_usage: 30, percpu_usage: None },
            system_cpu_usage: Some(300),
            online_cpus: Some(1),
        },
        ..make_stats()
    };
    // 3000 ns on 2 processors are 60 intervals of 100 ns.
    assert_eq!(to_f64(container_status_over(&stats, "windows", "c", 3000).cpu_percentage), 50.0);
    assert_eq!(to_f64(container_status_over(&stats, "windows", "c", 99).cpu_percentage), 0.0);
    assert_eq!(to_f64(container_status_over(&stats, "linux", "c", 99).cpu_percentage), 10.0);
}
