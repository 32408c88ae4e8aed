use swarmagent::binary64::Binary64;
use swarmagent::container_stats::{
    BlkioStats, CPUStats, CPUUsage, MemoryStats, PidsStats, Stats,
};
use swarmagent::host::DiskSample;
use swarmagent::json::{get, parse, Json};
use swarmagent::models::{ContainerStatus, CpuStatus, DiskStatus, MemoryStatus};
use swarmagent::provider::docker::{
    collect_status, container_ids, container_stats_one, daemon_os, drain_stream, events_options, mark_event, orchestrator,
    reported_cores, DrainStep, HostSample, StatsReply, StreamItem, SystemInfo, SystemVersion, RELEVANT_TYPES,
};

fn number(x: f64) -> Binary64 {
    Binary64::from_bits(x.to_bits())
}

fn info() -> SystemInfo {
    SystemInfo {
        node_id: None,
        name: None,
        ncpu: None,
        os_type: None,
        server_version: None,
        kernel_version: None,
    }
}

fn version() -> SystemVersion {
    SystemVersion { version: None, api_version: None, kernel_version: None }
}

fn sample() -> Stats {
    let cpu = || CPUStats {
        cpu_usage: CPUUsage { total_usage: 0, percpu_usage: None },
        system_cpu_usage: None,
        online_cpus: None,
    };
    Stats {
        name: "/web".to_string(),
        id: String::new(),
        read: String::new(),
        preread: String::new(),
        num_procs: 0,
        networks: None,
        pids_stats: PidsStats { current: Some(9) },
        blkio_stats: BlkioStats { io_service_bytes_recursive: None },
        cpu_stats: cpu(),
        precpu_stats: cpu(),
        memory_stats: MemoryStats { stats: None, usage: None, limit: None, privateworkingset: None },
    }
}

#[test]
fn events_options_has_type_filter() {
    let opts = events_options();
    let types = opts.filters.get("type").expect("type filter must be present");
    for t in RELEVANT_TYPES {
        assert!(types.contains(&t.to_string()), "missing type: {t}");
    }
    assert_eq!(types.len(), RELEVANT_TYPES.len());
    assert!(opts.since.is_none() && opts.until.is_none());
}

#[test]
fn events_options_excludes_build_and_plugin() {
    let opts = events_options();
    let types = opts.filters.get("type").unwrap();
    assert!(!types.contains(&"build".to_string()));
    assert!(!types.contains(&"plugin".to_string()));
    assert!(!types.contains(&"image".to_string()));
}

#[test]
fn relevant_types_count() {
    assert_eq!(RELEVANT_TYPES.len(), 7);
}

#[test]
fn stream_ends_cleanly_only_without_an_error() {
    assert_eq!(drain_stream(&StreamItem::Message), DrainStep::Forward);
    assert_eq!(drain_stream(&StreamItem::Failure), DrainStep::Stop { clean: false });
    assert_eq!(drain_stream(&StreamItem::End), DrainStep::Stop { clean: true });
}

#[test]
fn forwarded_events_carry_the_orchestrator() {
    let event = parse(br#"{"Type": "container", "Action": "start"}"#).unwrap();
    let marked = mark_event(event);
    assert!(matches!(get(Some(&marked), "orchestrator"), Some(Json::Text(s)) if s == "swarm"));
    assert!(matches!(get(Some(&marked), "Action"), Some(Json::Text(s)) if s == "start"));
    let again = mark_event(parse(br#"{"orchestrator": 5}"#).unwrap());
    assert!(matches!(&again, Json::Object(m) if m.len() == 1));
    assert!(matches!(get(Some(&again), "orchestrator"), Some(Json::Text(s)) if s == "swarm"));
    assert!(matches!(mark_event(Json::Uint(5)), Json::Uint(5)));
}

#[test]
fn a_container_without_a_sample_is_empty() {
    for reply in [StatsReply::Failure, StatsReply::Nothing] {
        let s = container_stats_one(&reply, "abc", "linux");
        assert_eq!(s.id, "abc");
        assert_eq!(s.name, "");
        assert_eq!(s.pids, 0);
    }
    let s = container_stats_one(&StatsReply::Sample(sample()), "abc", "linux");
    assert_eq!(s.id, "abc");
    assert_eq!(s.name, "/web");
    assert_eq!(s.pids, 9);
}

#[test]
fn ids_that_are_missing_are_left_out() {
    let listed = vec![Some("a".to_string()), None, Some("b".to_string())];
    assert_eq!(container_ids(&listed), vec!["a", "b"]);
    assert!(container_ids(&Vec::new()).is_empty());
}

#[test]
fn daemon_facts_have_fallbacks() {
    assert_eq!(daemon_os(&info()), "linux");
    assert_eq!(daemon_os(&SystemInfo { os_type: Some("windows".into()), ..info() }), "windows");
    assert_eq!(reported_cores(&info()), 1);
    for n in [8i64, 0, -3, i64::MAX, i64::MIN, 1 << 31, (1 << 32) + 5, -(1 << 31) - 1] {
        assert_eq!(reported_cores(&SystemInfo { ncpu: Some(n), ..info() }), n as i32);
    }
}

#[test]
fn status_is_assembled_with_fallbacks() {
    let host = HostSample {
        disks: vec![DiskSample { mount_point: "/".into(), total_space: 10, available_space: 6 }],
        windows: false,
        cpu_percentage: number(1.5),
        total_memory: 8,
        free_memory: 6,
    };
    let full = SystemInfo {
        node_id: Some("n1".into()),
        name: Some("host".into()),
        ncpu: Some(2),
        server_version: Some("26.0".into()),
        kernel_version: Some("5.0".into()),
        ..info()
    };
    let tasks = vec![ContainerStatus::empty("c".to_string())];
    let s = collect_status(&full, &version(), &host, tasks, "9.9");
    assert_eq!(s.id, "n1");
    assert_eq!(s.hostname, "host");
    assert_eq!(s.orchestrator, "swarm");
    assert_eq!(s.engine_version, "26.0");
    assert_eq!(s.api_version, "");
    assert_eq!(s.kernel_version, "5.0");
    assert_eq!(s.agent_version, "9.9");
    assert_eq!(s.disk, DiskStatus { total: 10, used: 4, used_percentage: number(40.0), free: 6 });
    assert_eq!(s.cpu, CpuStatus { used_percentage: number(1.5), cores: 2 });
    assert_eq!(s.memory, MemoryStatus { total: 8, used: 2, used_percentage: number(25.0), free: 6 });
    assert_eq!(s.tasks.len(), 1);

    let stated = SystemVersion {
        version: Some("27.3.1".into()),
        api_version: Some("1.47".into()),
        kernel_version: Some("6.1".into()),
    };
    let s = collect_status(&full, &stated, &host, vec![], "9.9");
    assert_eq!(s.engine_version, "27.3.1");
    assert_eq!(s.api_version, "1.47");
    assert_eq!(s.kernel_version, "6.1");
    let s = collect_status(&info(), &version(), &host, vec![], "");
    assert_eq!((s.id.as_str(), s.hostname.as_str(), s.engine_version.as_str()), ("", "", ""));
    assert_eq!(s.cpu.cores, 1);
    assert_eq!(orchestrator(), "swarm");
}
