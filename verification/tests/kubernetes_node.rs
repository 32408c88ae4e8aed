use swarmagent::binary64::Binary64;
use swarmagent::config::{Config, KubeletMode};
use swarmagent::json::{parse, Json};
use swarmagent::keyed::StringMap;
use swarmagent::provider::kubernetes::client::{
    api_url, get_json, in_cluster, is_success, read_document, refused, token, ClientError, REQUEST_TIMEOUT,
};
use swarmagent::provider::kubernetes::summary::{
    ContainerSample, CpuSample, MemorySample, NodeSummary, PodRef, PodSummary, Summary,
};
use swarmagent::provider::kubernetes::{parse_node_meta, KubernetesProvider, SummarySource};

fn to_f64(x: Binary64) -> f64 {
    f64::from_bits(x.to_bits())
}

fn document(text: &str) -> Json {
    parse(text.as_bytes()).expect("document")
}

fn env(pairs: &[(&str, &str)]) -> StringMap<String> {
    let mut vars = StringMap::new();
    for (k, v) in pairs {
        vars.insert(k.to_string(), v.to_string());
    }
    vars
}

fn provider(pairs: &[(&str, &str)]) -> KubernetesProvider {
    match KubernetesProvider::from_env(&Config::from_env(&env(pairs))) {
        Ok(p) => p,
        Err(e) => panic!("{}", e.message()),
    }
}

#[test]
fn node_meta_full_object() {
    let node = document(
        r#"{
            "metadata": {
                "name": "k3s-1",
                "labels": {"kubernetes.io/hostname": "k3s-1.local"}
            },
            "status": {
                "capacity": {"cpu": "4", "memory": "8131204Ki"},
                "nodeInfo": {
                    "containerRuntimeVersion": "containerd://1.7.11-k3s2",
                    "kubeletVersion": "v1.29.6+k3s1",
                    "kernelVersion": "6.1.0-28-amd64"
                },
                "addresses": [
                    {"type": "InternalIP", "address": "10.0.0.5"},
                    {"type": "Hostname", "address": "k3s-1"}
                ]
            }
        }"#,
    );
    let meta = parse_node_meta(&node);
    assert_eq!(meta.hostname, "k3s-1.local");
    assert_eq!(meta.engine_version, "containerd://1.7.11-k3s2");
    assert_eq!(meta.api_version, "v1.29.6+k3s1");
    assert_eq!(meta.kernel_version, "6.1.0-28-amd64");
    assert_eq!(to_f64(meta.capacity_cores), 4.0);
    assert_eq!(meta.capacity_mem_bytes, 8_131_204 * 1024);
    assert_eq!(meta.internal_ip.as_deref(), Some("10.0.0.5"));
}

#[test]
fn node_meta_falls_back_to_name_and_zeros() {
    let node = document(r#"{"metadata": {"name": "bare"}}"#);
    let meta = parse_node_meta(&node);
    assert_eq!(meta.hostname, "bare");
    assert_eq!(to_f64(meta.capacity_cores), 0.0);
    assert_eq!(meta.capacity_mem_bytes, 0);
    assert_eq!(meta.internal_ip, None);
    assert!(meta.engine_version.is_empty());
}

#[test]
fn node_meta_skips_unusable_addresses() {
    let node = document(
        r#"{"status": {"addresses": [
            {"type": "Hostname", "address": "h"},
            {"type": "InternalIP", "address": 5},
            {"type": "InternalIP"},
            {"type": "InternalIP", "address": "10.1.1.1"},
            {"type": "InternalIP", "address": "10.2.2.2"}
        ], "capacity": {"cpu": "many", "memory": 7}}}"#,
    );
    let meta = parse_node_meta(&node);
    assert_eq!(meta.internal_ip.as_deref(), Some("10.1.1.1"));
    assert_eq!(meta.hostname, "");
    assert_eq!(to_f64(meta.capacity_cores), 0.0);
    assert_eq!(meta.capacity_mem_bytes, 0);
}

#[test]
fn provider_needs_a_node_name() {
    let cfg = Config::from_env(&env(&[("NODE_IP", "10.0.0.1")]));
    match KubernetesProvider::from_env(&cfg) {
        Ok(_) => panic!("no node name"),
        Err(e) => assert_eq!(
            e.message(),
            "NODE_NAME is required in Kubernetes mode (set it via the Downward API: fieldRef: spec.nodeName)"
        ),
    }
}

#[test]
fn provider_paths() {
    let p = provider(&[("NODE_NAME", "k3s-1")]);
    assert_eq!(p.orchestrator(), "kubernetes");
    assert_eq!(p.node_path(), "/api/v1/nodes/k3s-1");
    assert_eq!(p.pods_path(), "/api/v1/pods?fieldSelector=spec.nodeName=k3s-1");
    assert_eq!(p.watch_path(), "/api/v1/pods?watch=1&fieldSelector=spec.nodeName=k3s-1");
}

#[test]
fn direct_summary_falls_back_to_the_proxy() {
    let p = provider(&[("NODE_NAME", "k3s-1"), ("NODE_IP", "10.0.0.9")]);
    let first = p.fetch_summary(&Some("10.0.0.5".to_string()));
    assert!(matches!(&first, SummarySource::Direct(url) if url == "https://10.0.0.9:10250/stats/summary"));
    let second = p.fall_back(&first).unwrap();
    assert!(matches!(&second, SummarySource::Proxy(path) if path == "/api/v1/nodes/k3s-1/proxy/stats/summary"));
    assert!(p.fall_back(&second).is_none());

    let found = provider(&[("NODE_NAME", "k3s-1")]);
    let first = found.fetch_summary(&Some("10.0.0.5".to_string()));
    assert!(matches!(&first, SummarySource::Direct(url) if url == "https://10.0.0.5:10250/stats/summary"));
    assert!(matches!(found.fetch_summary(&None), SummarySource::Proxy(_)));
}

#[test]
fn proxy_mode_never_calls_the_kubelet() {
    let p = provider(&[("NODE_NAME", "n"), ("NODE_IP", "10.0.0.9"), ("AGENT_KUBELET_MODE", "proxy")]);
    assert_eq!(p.kubelet_mode, KubeletMode::Proxy);
    let first = p.fetch_summary(&Some("10.0.0.5".to_string()));
    assert!(matches!(&first, SummarySource::Proxy(_)));
    assert!(p.fall_back(&first).is_none());
}

#[test]
fn status_joins_the_three_documents() {
    let p = provider(&[("NODE_NAME", "k3s-1")]);
    let node = document(
        r#"{"metadata": {"name": "k3s-1"}, "status": {
            "capacity": {"cpu": "2", "memory": "1000"},
            "nodeInfo": {"containerRuntimeVersion": "c", "kubeletVersion": "k", "kernelVersion": "l"}}}"#,
    );
    let summary = Summary {
        node: NodeSummary {
            cpu: Some(CpuSample { usage_nano_cores: Some(500_000_000) }),
            memory: Some(MemorySample { available_bytes: Some(250), working_set_bytes: None }),
            fs: None,
        },
        pods: vec![PodSummary {
            pod_ref: PodRef { name: "web-1".into(), namespace: "prod".into() },
            containers: vec![ContainerSample {
                name: "web".into(),
                cpu: None,
                memory: Some(MemorySample { available_bytes: None, working_set_bytes: Some(256) }),
            }],
            network: None,
        }],
    };
    let pods = document(
        r#"{"items": [{"metadata": {"namespace": "prod", "name": "web-1",
                "ownerReferences": [{"kind": "DaemonSet", "name": "web"}]},
            "spec": {"containers": [{"name": "web", "resources": {"limits": {"memory": "1Ki"}}}]}}]}"#,
    );
    let s = p.status(parse_node_meta(&node), &summary, Some(&pods), "0.1.0");
    assert_eq!(s.id, "k3s-1");
    assert_eq!(s.hostname, "k3s-1");
    assert_eq!(s.orchestrator, "kubernetes");
    assert_eq!(to_f64(s.cpu.used_percentage), 25.0);
    assert_eq!(s.cpu.cores, 2);
    assert_eq!((s.memory.total, s.memory.used, s.memory.free), (1000, 750, 250));
    assert_eq!(s.disk.total, 0);
    assert_eq!(s.engine_version, "c");
    assert_eq!(s.api_version, "k");
    assert_eq!(s.kernel_version, "l");
    assert_eq!(s.agent_version, "0.1.0");
    assert_eq!(s.tasks.len(), 1);
    assert_eq!(s.tasks[0].id, "prod/web-1/web");
    assert_eq!(s.tasks[0].workload_kind.as_deref(), Some("DaemonSet"));
    assert_eq!(to_f64(s.tasks[0].memory_percentage), 25.0);

    let without = p.status(parse_node_meta(&node), &summary, None, "0.1.0");
    assert_eq!(without.tasks.len(), 1);
    assert!(without.tasks[0].workload.is_none());
    assert_eq!(to_f64(without.tasks[0].memory_limit), 0.0);
}

#[test]
fn api_base_comes_from_the_environment() {
    let base = in_cluster(&env(&[("KUBERNETES_SERVICE_HOST", "10.43.0.1")]));
    assert!(matches!(base, Ok(b) if b == "https://10.43.0.1:443"));
    let base = in_cluster(&env(&[
        ("KUBERNETES_SERVICE_HOST", "10.43.0.1"),
        ("KUBERNETES_SERVICE_PORT", "6443"),
    ]));
    assert!(matches!(base, Ok(b) if b == "https://10.43.0.1:6443"));
    match in_cluster(&env(&[])) {
        Ok(_) => panic!("no host"),
        Err(e) => {
            assert!(matches!(e, ClientError::NotInCluster));
            assert_eq!(
                e.message(),
                "KUBERNETES_SERVICE_HOST not set (agent must run inside the cluster)"
            );
        }
    }
}

#[test]
fn client_helpers() {
    assert_eq!(token("  abc.def\n"), "abc.def");
    assert_eq!(api_url("https://h:443", "/api"), "https://h:443/api");
    assert!(is_success(200) && is_success(299));
    assert!(!is_success(199) && !is_success(300) && !is_success(404));
    assert_eq!(
        refused("WATCH", "/p", "403 Forbidden", "no").message(),
        "WATCH /p returned 403 Forbidden: no"
    );
    assert_eq!(REQUEST_TIMEOUT, 30);
}

#[test]
fn answers_are_read() {
    match get_json("/p", 200, "200 OK", b"{\"a\": [1, -2, 1.5, true, null, \"s\"]}", "") {
        Ok(v) => match swarmagent::json::get(Some(&v), "a") {
            Some(Json::Array(items)) => {
                assert!(matches!(items[0], Json::Uint(1)));
                assert!(matches!(items[1], Json::Int(-2)));
                assert!(matches!(items[2], Json::Float(x) if to_f64(x) == 1.5));
                assert!(matches!(items[3], Json::Bool(true)));
                assert!(matches!(items[4], Json::Null));
                assert!(matches!(&items[5], Json::Text(s) if s == "s"));
            }
            _ => panic!("no list"),
        },
        Err(e) => panic!("{}", e.message()),
    }
    match get_json("/p", 404, "404 Not Found", b"{}", "gone") {
        Ok(_) => panic!("not a success"),
        Err(e) => {
            assert!(matches!(e, ClientError::Refused(_)));
            assert_eq!(e.message(), "GET /p returned 404 Not Found: gone");
        }
    }
    match get_json("/p", 200, "200 OK", b"{", "{") {
        Ok(_) => panic!("no document"),
        Err(e) => {
            assert!(matches!(e, ClientError::Malformed(_)));
            assert_eq!(e.message(), "parse JSON from /p");
        }
    }
    assert!(read_document("/p", Some(Json::Null)).is_ok());
    assert!(read_document("/p", None).is_err());
}
