use swarmagent::binary64::Binary64;
use swarmagent::keyed::StringMap;
use swarmagent::provider::kubernetes::pods::PodMeta;
use swarmagent::provider::kubernetes::summary::{
    container_statuses, node_status_parts, ContainerSample, CpuSample, FsSample, InterfaceSample, MemorySample,
    NetworkSample, NodeSummary, PodRef, PodSummary, Summary,
};

fn to_f64(x: Binary64) -> f64 {
    f64::from_bits(x.to_bits())
}

fn number(x: f64) -> Binary64 {
    Binary64::from_bits(x.to_bits())
}

fn sample(name: &str, usage: Option<u64>, working_set: u64) -> ContainerSample {
    ContainerSample {
        name: name.to_string(),
        cpu: Some(CpuSample { usage_nano_cores: usage }),
        memory: Some(MemorySample { available_bytes: None, working_set_bytes: Some(working_set) }),
    }
}

fn pod(namespace: &str, name: &str, containers: Vec<ContainerSample>, rx: u64, tx: u64) -> PodSummary {
    PodSummary {
        pod_ref: PodRef { name: name.to_string(), namespace: namespace.to_string() },
        containers,
        network: Some(NetworkSample { rx_bytes: Some(rx), tx_bytes: Some(tx), interfaces: vec![] }),
    }
}

fn sample_summary() -> Summary {
    Summary {
        node: NodeSummary {
            cpu: Some(CpuSample { usage_nano_cores: Some(500_000_000) }),
            memory: Some(MemorySample {
                available_bytes: Some(6_000_000_000),
                working_set_bytes: Some(2_000_000_000),
            }),
            fs: Some(FsSample {
                capacity_bytes: Some(100_000_000_000),
                used_bytes: Some(40_000_000_000),
                available_bytes: Some(60_000_000_000),
            }),
        },
        pods: vec![pod(
            "prod",
            "web-7f9c6b7d54-abcde",
            vec![sample("web", Some(250_000_000), 134_217_728), sample("sidecar", None, 1_048_576)],
            1000,
            2000,
        )],
    }
}

#[test]
fn node_parts_compute_percentages() {
    let s = sample_summary();
    let (cpu, mem, disk) = node_status_parts(&s.node, &number(4.0), 8_000_000_000);
    // 0.5 core of 4 → 12.5 %
    assert!((to_f64(cpu.used_percentage) - 12.5).abs() < 1e-9);
    assert_eq!(cpu.cores, 4);
    assert_eq!(mem.total, 8_000_000_000);
    assert_eq!(mem.free, 6_000_000_000);
    assert_eq!(mem.used, 2_000_000_000);
    assert!((to_f64(mem.used_percentage) - 25.0).abs() < 1e-9);
    assert_eq!(disk.total, 100_000_000_000);
    assert_eq!(disk.used, 40_000_000_000);
    assert!((to_f64(disk.used_percentage) - 40.0).abs() < 1e-9);
}

#[test]
fn node_parts_tolerate_empty_summary() {
    let (cpu, mem, disk) = node_status_parts(&NodeSummary::default(), &number(0.0), 0);
    assert_eq!(to_f64(cpu.used_percentage), 0.0);
    assert_eq!(cpu.cores, 1);
    assert_eq!(to_f64(mem.used_percentage), 0.0);
    assert_eq!(disk.total, 0);
}

#[test]
fn containers_map_ids_metrics_and_metadata() {
    let s = sample_summary();
    let mut mem_limits = StringMap::new();
    mem_limits.insert("web".to_string(), 268_435_456_u64);
    let mut metas = StringMap::new();
    metas.insert(
        "prod/web-7f9c6b7d54-abcde".to_string(),
        PodMeta { workload: Some("web".into()), workload_kind: Some("Deployment".into()), mem_limits },
    );
    let list = container_statuses(&s, &metas, &number(4.0));
    assert_eq!(list.len(), 2);

    let web = &list[0];
    assert_eq!(web.id, "prod/web-7f9c6b7d54-abcde/web");
    assert_eq!(web.name, "web");
    assert_eq!(web.namespace.as_deref(), Some("prod"));
    assert_eq!(web.workload.as_deref(), Some("web"));
    assert_eq!(web.workload_kind.as_deref(), Some("Deployment"));
    // 0.25 core of 4 → 6.25 %
    assert!((to_f64(web.cpu_percentage) - 6.25).abs() < 1e-9);
    // 128 MiB of a 256 MiB limit → 50 %
    assert!((to_f64(web.memory_percentage) - 50.0).abs() < 1e-9);
    // pod network attributed to the first container only
    assert_eq!(web.network_rx_bytes, 1000);
    assert_eq!(list[1].network_rx_bytes, 0);

    let sidecar = &list[1];
    assert_eq!(to_f64(sidecar.memory_limit), 0.0);
    assert_eq!(to_f64(sidecar.memory_percentage), 0.0);
}

#[test]
fn network_totals_fall_back_to_interfaces() {
    let net = NetworkSample {
        rx_bytes: None,
        tx_bytes: None,
        interfaces: vec![
            InterfaceSample { rx_bytes: Some(10), tx_bytes: Some(20) },
            InterfaceSample { rx_bytes: Some(1), tx_bytes: Some(2) },
        ],
    };
    assert_eq!(net.totals(), (11, 22));
}

#[test]
fn network_totals_need_both_counters_and_stop_at_the_largest() {
    let net = NetworkSample {
        rx_bytes: Some(7),
        tx_bytes: None,
        interfaces: vec![
            InterfaceSample { rx_bytes: Some(u64::MAX), tx_bytes: None },
            InterfaceSample { rx_bytes: Some(1), tx_bytes: Some(2) },
        ],
    };
    assert_eq!(net.totals(), (u64::MAX, 2));
    assert_eq!(NetworkSample::default().totals(), (0, 0));
    let own = NetworkSample {
        rx_bytes: Some(7),
        tx_bytes: Some(8),
        interfaces: vec![InterfaceSample { rx_bytes: Some(1), tx_bytes: Some(2) }],
    };
    assert_eq!(own.totals(), (7, 8));
}

#[test]
fn node_memory_and_disk_fall_back() {
    let node = NodeSummary {
        cpu: None,
        memory: Some(MemorySample { available_bytes: None, working_set_bytes: Some(30) }),
        fs: Some(FsSample { capacity_bytes: Some(50), used_bytes: None, available_bytes: Some(20) }),
    };
    let (cpu, mem, disk) = node_status_parts(&node, &number(2.5), 100);
    assert_eq!(cpu.cores, 3);
    assert_eq!((mem.total, mem.used, mem.free), (100, 30, 70));
    assert_eq!((disk.total, disk.used, disk.free), (50, 30, 20));
    assert_eq!(to_f64(disk.used_percentage), 60.0);
    let (_, small, _) = node_status_parts(&node, &number(2.5), 10);
    assert_eq!((small.total, small.used, small.free), (10, 10, 0));
    assert_eq!(to_f64(small.used_percentage), 100.0);
}

#[test]
fn whole_cores_stay_in_range() {
    for (cores, expected) in [
        (0.4, 1),
        (1.49, 1),
        (1.5, 2),
        (-3.0, 1),
        (1e20, i32::MAX),
        (f64::NAN, 1),
        (f64::INFINITY, i32::MAX),
    ] {
        let (cpu, _, _) = node_status_parts(&NodeSummary::default(), &number(cores), 0);
        assert_eq!(cpu.cores, expected);
        assert_eq!(cpu.cores, (cores.round() as i32).max(1));
    }
}

#[test]
fn traffic_adds_up_over_containers() {
    let summary = Summary {
        node: NodeSummary::default(),
        pods: vec![
            pod("a", "p", vec![sample("x", None, 0), sample("y", None, 0)], 5, 6),
            pod("b", "q", vec![sample("z", None, 0), sample("", None, 0)], 7, 8),
            pod("", "r", vec![sample("u", None, 0)], 100, 100),
            pod("c", "", vec![sample("u", None, 0)], 100, 100),
        ],
    };
    let list = container_statuses(&summary, &StringMap::new(), &number(1.0));
    let ids: Vec<&str> = list.iter().map(|c| c.id.as_str()).collect();
    assert_eq!(ids, vec!["a/p/x", "a/p/y", "b/q/z"]);
    assert_eq!(list.iter().map(|c| c.network_rx_bytes).sum::<u64>(), 12);
    assert_eq!(list.iter().map(|c| c.network_tx_bytes).sum::<u64>(), 14);
    assert!(list[0].workload.is_none());
    assert_eq!(list[0].pod.as_deref(), Some("p"));
}

#[test]
fn traffic_goes_to_the_first_reported_container() {
    let summary = Summary {
        node: NodeSummary::default(),
        pods: vec![pod("a", "p", vec![sample("", None, 0), sample("x", None, 0), sample("y", None, 0)], 5, 6)],
    };
    let list = container_statuses(&summary, &StringMap::new(), &number(1.0));
    let seen: Vec<(u64, u64)> = list.iter().map(|c| (c.network_rx_bytes, c.network_tx_bytes)).collect();
    assert_eq!(seen, vec![(5, 6), (0, 0)]);
}
