use swarmagent::binary64::Binary64;
use swarmagent::json::{get, Json};
use swarmagent::models::{ContainerStatus, CpuStatus, DiskStatus, MemoryStatus, Status};

fn number(x: f64) -> Binary64 {
    Binary64::from_bits(x.to_bits())
}

fn to_f64(x: Binary64) -> f64 {
    f64::from_bits(x.to_bits())
}

fn at<'a>(v: &'a Json, key: &str) -> &'a Json {
    get(Some(v), key).expect("member")
}

fn is_float(v: &Json, x: f64) -> bool {
    matches!(v, Json::Float(b) if to_f64(*b) == x)
}

fn is_count(v: &Json, n: u64) -> bool {
    matches!(v, Json::Uint(m) if *m == n)
}

fn is_text(v: &Json, s: &str) -> bool {
    matches!(v, Json::Text(t) if t == s)
}

fn keys(v: &Json) -> Vec<String> {
    match v {
        Json::Object(members) => members.iter().map(|(k, _)| k.clone()).collect(),
        _ => panic!("no object"),
    }
}

fn status() -> Status {
    Status {
        id: "node1".into(),
        hostname: "host1".into(),
        orchestrator: "swarm".into(),
        disk: DiskStatus::default(),
        cpu: CpuStatus { used_percentage: number(0.0), cores: 1 },
        memory: MemoryStatus { total: 0, used: 0, used_percentage: number(0.0), free: 0 },
        tasks: vec![],
        engine_version: "27.3.1".into(),
        api_version: "1.47".into(),
        kernel_version: "6.1.0".into(),
        agent_version: "0.1.0".into(),
    }
}

#[test]
fn empty_container_status_zeros() {
    let s = ContainerStatus::empty("abc123".to_string());
    assert_eq!(s.id, "abc123");
    assert!(s.name.is_empty());
    assert_eq!(to_f64(s.cpu_percentage), 0.0);
    assert_eq!(s.network_rx_bytes, 0);
    assert_eq!(s.pids, 0);
}

#[test]
fn container_status_serializes_camel_case_fields() {
    let s = ContainerStatus {
        name: "web".into(),
        id: "id1".into(),
        cpu_percentage: number(12.5),
        memory: number(100.0),
        memory_limit: number(200.0),
        memory_percentage: number(50.0),
        network_rx_bytes: 1024,
        network_tx_bytes: 2048,
        block_read_bytes: 4096,
        block_write_bytes: 8192,
        pids: 7,
        ..ContainerStatus::empty(String::new())
    };
    let v = s.to_json();
    assert!(is_float(at(&v, "cpuPercentage"), 12.5));
    assert!(is_float(at(&v, "memory"), 100.0));
    assert!(is_float(at(&v, "memoryLimit"), 200.0));
    assert!(is_float(at(&v, "memoryPercentage"), 50.0));
    assert!(is_count(at(&v, "networkRxBytes"), 1024));
    assert!(is_count(at(&v, "networkTxBytes"), 2048));
    assert!(is_count(at(&v, "blockReadBytes"), 4096));
    assert!(is_count(at(&v, "blockWriteBytes"), 8192));
    assert!(is_count(at(&v, "pids"), 7));
    assert_eq!(
        keys(&v),
        vec![
            "name",
            "id",
            "cpuPercentage",
            "memory",
            "memoryLimit",
            "memoryPercentage",
            "networkRxBytes",
            "networkTxBytes",
            "blockReadBytes",
            "blockWriteBytes",
            "pids"
        ]
    );
}

#[test]
fn kubernetes_fields_are_named_and_optional() {
    let s = ContainerStatus {
        namespace: Some("prod".into()),
        pod: Some("web-1".into()),
        workload: Some("web".into()),
        workload_kind: Some("Deployment".into()),
        ..ContainerStatus::empty("prod/web-1/web".to_string())
    };
    let v = s.to_json();
    assert!(is_text(at(&v, "namespace"), "prod"));
    assert!(is_text(at(&v, "pod"), "web-1"));
    assert!(is_text(at(&v, "workload"), "web"));
    assert!(is_text(at(&v, "workloadKind"), "Deployment"));
    let bare = ContainerStatus::empty("x".to_string()).to_json();
    for key in ["namespace", "pod", "workload", "workloadKind"] {
        assert!(get(Some(&bare), key).is_none());
    }
}

#[test]
fn status_serializes_version_fields() {
    let v = status().to_json();
    assert!(is_text(at(&v, "engineVersion"), "27.3.1"));
    assert!(is_text(at(&v, "apiVersion"), "1.47"));
    assert!(is_text(at(&v, "kernelVersion"), "6.1.0"));
}

#[test]
fn status_carries_every_part() {
    let mut s = status();
    s.disk = DiskStatus { total: 10, used: 4, used_percentage: number(40.0), free: 6 };
    s.cpu = CpuStatus { used_percentage: number(12.5), cores: -1 };
    s.memory = MemoryStatus { total: 8, used: 2, used_percentage: number(25.0), free: 6 };
    s.tasks = vec![ContainerStatus::empty("a".to_string()), ContainerStatus::empty("b".to_string())];
    let v = s.to_json();
    assert!(is_text(at(&v, "id"), "node1"));
    assert!(is_text(at(&v, "hostname"), "host1"));
    assert!(is_text(at(&v, "orchestrator"), "swarm"));
    assert!(is_text(at(&v, "agentVersion"), "0.1.0"));
    assert!(is_count(at(at(&v, "disk"), "total"), 10));
    assert!(is_count(at(at(&v, "disk"), "used"), 4));
    assert!(is_float(at(at(&v, "disk"), "used_percentage"), 40.0));
    assert!(is_count(at(at(&v, "disk"), "free"), 6));
    assert!(is_float(at(at(&v, "cpu"), "used_percentage"), 12.5));
    assert!(matches!(at(at(&v, "cpu"), "cores"), Json::Int(-1)));
    assert!(is_count(at(at(&v, "memory"), "used"), 2));
    match at(&v, "tasks") {
        Json::Array(tasks) => {
            assert_eq!(tasks.len(), 2);
            assert!(is_text(at(&tasks[0], "id"), "a"));
            assert!(is_text(at(&tasks[1], "id"), "b"));
        }
        _ => panic!("no list"),
    }
}

#[test]
fn numbers_that_json_lacks_become_null() {
    let mut s = status();
    s.cpu.used_percentage = number(f64::NAN);
    s.memory.used_percentage = number(f64::INFINITY);
    let v = s.to_json();
    assert!(matches!(at(at(&v, "cpu"), "used_percentage"), Json::Null));
    assert!(matches!(at(at(&v, "memory"), "used_percentage"), Json::Null));
}
