use swarmagent::binary64::Binary64;
use swarmagent::json::{parse, Json};
use swarmagent::provider::kubernetes::pods::{
    controller_owner, parse_pod_metas, parse_quantity_bytes, parse_quantity_cores, split_quantity,
    workload_from_owner,
};

fn to_f64(x: Binary64) -> f64 {
    f64::from_bits(x.to_bits())
}

fn document(text: &str) -> Json {
    parse(text.as_bytes()).expect("document")
}

#[test]
fn quantity_bytes_plain_and_binary() {
    assert_eq!(parse_quantity_bytes("128974848"), Some(128_974_848));
    assert_eq!(parse_quantity_bytes("1Ki"), Some(1024));
    assert_eq!(parse_quantity_bytes("128Mi"), Some(128 * 1024 * 1024));
    assert_eq!(parse_quantity_bytes("2Gi"), Some(2 * 1024 * 1024 * 1024));
}

#[test]
fn quantity_bytes_decimal_suffixes() {
    assert_eq!(parse_quantity_bytes("1k"), Some(1000));
    assert_eq!(parse_quantity_bytes("1M"), Some(1_000_000));
    assert_eq!(parse_quantity_bytes("1500m"), Some(2)); // 1.5 rounded
}

#[test]
fn quantity_bytes_rejects_garbage() {
    assert_eq!(parse_quantity_bytes(""), None);
    assert_eq!(parse_quantity_bytes("abc"), None);
    assert_eq!(parse_quantity_bytes("12Xi"), None);
    assert_eq!(parse_quantity_bytes("-5"), None);
}

#[test]
fn quantity_cores() {
    assert_eq!(parse_quantity_cores("4").map(to_f64), Some(4.0));
    assert!((to_f64(parse_quantity_cores("3800m").unwrap()) - 3.8).abs() < 1e-9);
    assert!((to_f64(parse_quantity_cores("250m").unwrap()) - 0.25).abs() < 1e-9);
}

#[test]
fn every_suffix_is_read() {
    assert_eq!(parse_quantity_bytes("3G"), Some(3_000_000_000));
    assert_eq!(parse_quantity_bytes("3T"), Some(3_000_000_000_000));
    assert_eq!(parse_quantity_bytes("3P"), Some(3_000_000_000_000_000));
    assert_eq!(parse_quantity_bytes("3E"), Some(3_000_000_000_000_000_000));
    assert_eq!(parse_quantity_bytes("3e"), Some(3_000_000_000_000_000_000));
    assert_eq!(parse_quantity_bytes("3Ti"), Some(3 << 40));
    assert_eq!(parse_quantity_bytes("3Pi"), Some(3 << 50));
    assert_eq!(parse_quantity_bytes("3Ei"), Some(3 << 60));
    assert_eq!(parse_quantity_bytes("1e3Ei"), Some(u64::MAX));
}

#[test]
fn quantities_with_exponents_and_points() {
    assert_eq!(parse_quantity_bytes("1e3"), Some(1000));
    assert_eq!(parse_quantity_bytes("1E3"), Some(1000));
    assert_eq!(parse_quantity_bytes("1.5Ki"), Some(1536));
    assert_eq!(parse_quantity_bytes(" 7 "), Some(7));
    assert_eq!(parse_quantity_bytes("+7"), Some(7));
    assert_eq!(parse_quantity_bytes("-0"), Some(0));
    assert_eq!(parse_quantity_bytes("0.5"), Some(1));
    assert_eq!(parse_quantity_bytes("499m"), Some(0));
    assert_eq!(parse_quantity_bytes("100E"), Some(u64::MAX));
    assert_eq!(parse_quantity_bytes("1e400"), None);
    assert_eq!(parse_quantity_bytes("5ei"), None);
    assert_eq!(parse_quantity_bytes("Ei"), None);
    assert_eq!(parse_quantity_bytes("E"), None);
    assert_eq!(parse_quantity_bytes("1 Ki"), None);
    assert!(parse_quantity_cores("-1").is_none());
    assert!(parse_quantity_cores("cores").is_none());
}

#[test]
fn whole_quantities_are_exact_up_to_64_bits() {
    assert_eq!(parse_quantity_bytes("9007199254740992"), Some(9_007_199_254_740_992));
    assert_eq!(parse_quantity_bytes("9007199254740991Ki"), Some(9_007_199_254_740_991 << 10));
    assert_eq!(parse_quantity_bytes("17592186044415Mi"), Some(17_592_186_044_415 << 20));
    assert_eq!(parse_quantity_bytes("17179869183Gi"), Some(17_179_869_183 << 30));
    assert_eq!(parse_quantity_bytes("16777215Ti"), Some(16_777_215 << 40));
    assert_eq!(parse_quantity_bytes("16383Pi"), Some(16_383 << 50));
    assert_eq!(parse_quantity_bytes("15Ei"), Some(15 << 60));
    assert_eq!(parse_quantity_bytes("9007199254740k"), Some(9_007_199_254_740_000));
}

#[test]
fn white_space_around_a_quantity_changes_nothing() {
    for text in ["128Mi", "1.5Ki", "250m", "", "12Xi", "-5", "1e3"] {
        for (lead, tail) in [(" ", ""), ("", "\t\n"), ("\u{a0} ", "\u{3000}")] {
            let padded = format!("{lead}{text}{tail}");
            assert_eq!(parse_quantity_bytes(&padded), parse_quantity_bytes(text));
            assert_eq!(parse_quantity_cores(&padded).map(to_f64), parse_quantity_cores(text).map(to_f64));
        }
    }
}

#[test]
fn quantities_multiply_like_hardware_floats() {
    for (text, value, multiplier) in [
        ("3800m", 3800.0, 1e-3),
        ("0.1m", 0.1, 1e-3),
        ("1.7M", 1.7, 1e6),
        ("2.5Gi", 2.5, 1024.0 * 1024.0 * 1024.0),
        ("0.3", 0.3, 1.0),
    ] {
        let (v, m) = split_quantity(text).unwrap();
        assert_eq!(to_f64(v).to_bits(), f64::to_bits(value));
        assert_eq!(to_f64(m).to_bits(), f64::to_bits(multiplier));
        let product: f64 = value * multiplier;
        assert_eq!(to_f64(parse_quantity_cores(text).unwrap()).to_bits(), product.to_bits());
    }
}

#[test]
fn workload_replicaset_maps_to_deployment() {
    assert_eq!(
        workload_from_owner("ReplicaSet", "web-7f9c6b7d54"),
        ("Deployment".to_string(), "web".to_string())
    );
    assert_eq!(
        workload_from_owner("ReplicaSet", "my-app-name-7f9c6b7d54"),
        ("Deployment".to_string(), "my-app-name".to_string())
    );
}

#[test]
fn workload_other_kinds_pass_through() {
    assert_eq!(
        workload_from_owner("StatefulSet", "db"),
        ("StatefulSet".to_string(), "db".to_string())
    );
    assert_eq!(
        workload_from_owner("DaemonSet", "swarmagent"),
        ("DaemonSet".to_string(), "swarmagent".to_string())
    );
}

#[test]
fn workload_replicaset_without_a_hash_passes_through() {
    for name in ["web", "-web", ""] {
        assert_eq!(
            workload_from_owner("ReplicaSet", name),
            ("ReplicaSet".to_string(), name.to_string())
        );
    }
}

#[test]
fn parse_pod_metas_extracts_owner_and_limits() {
    let list = document(
        r#"{
            "items": [{
                "metadata": {
                    "namespace": "prod",
                    "name": "web-7f9c6b7d54-abcde",
                    "ownerReferences": [
                        {"kind": "ReplicaSet", "name": "web-7f9c6b7d54", "controller": true}
                    ]
                },
                "spec": {
                    "containers": [
                        {"name": "web", "resources": {"limits": {"memory": "256Mi"}}},
                        {"name": "sidecar", "resources": {}}
                    ]
                }
            }]
        }"#,
    );
    let metas = parse_pod_metas(&list);
    let m = metas.get("prod/web-7f9c6b7d54-abcde").expect("pod meta");
    assert_eq!(m.workload.as_deref(), Some("web"));
    assert_eq!(m.workload_kind.as_deref(), Some("Deployment"));
    assert_eq!(m.mem_limits.get("web"), Some(&(256 * 1024 * 1024)));
    assert!(!m.mem_limits.contains_key("sidecar"));
}

#[test]
fn parse_pod_metas_tolerates_missing_fields() {
    assert!(parse_pod_metas(&document("{}")).is_empty());
    let list = document(r#"{"items": [{"metadata": {"namespace": "", "name": "x"}}]}"#);
    assert!(parse_pod_metas(&list).is_empty());
    let list = document(r#"{"items": [{"metadata": {"namespace": "default", "name": "bare-pod"}}]}"#);
    let metas = parse_pod_metas(&list);
    let m = metas.get("default/bare-pod").expect("bare pod");
    assert!(m.workload.is_none());
    assert!(m.mem_limits.is_empty());
}

#[test]
fn owner_is_the_controller_or_the_first() {
    let pod = |owners: &str| document(&format!(r#"{{"metadata": {{"ownerReferences": {owners}}}}}"#));
    let name = |pod: &Json| match controller_owner(pod).and_then(|o| swarmagent::json::get(Some(o), "name")) {
        Some(Json::Text(s)) => Some(s.clone()),
        _ => None,
    };
    let two = pod(r#"[{"name": "a", "controller": false}, {"name": "b", "controller": true}]"#);
    assert_eq!(name(&two).as_deref(), Some("b"));
    let none = pod(r#"[{"name": "a"}, {"name": "b", "controller": "true"}]"#);
    assert_eq!(name(&none).as_deref(), Some("a"));
    assert!(controller_owner(&pod("[]")).is_none());
    assert!(controller_owner(&pod("5")).is_none());
    assert!(controller_owner(&document("{}")).is_none());
}

#[test]
fn unreadable_limits_and_owners_are_left_out() {
    let list = document(
        r#"{"items": [{
            "metadata": {"namespace": "n", "name": "p",
                "ownerReferences": [{"kind": "Job", "name": ""}]},
            "spec": {"containers": [
                {"name": "a", "resources": {"limits": {"memory": "lots"}}},
                {"name": "", "resources": {"limits": {"memory": "1Ki"}}},
                {"name": "b", "resources": {"limits": {"memory": 5}}},
                {"name": "c", "resources": {"limits": {"memory": "1k"}}}
            ]}
        }]}"#,
    );
    let metas = parse_pod_metas(&list);
    let m = metas.get("n/p").unwrap();
    assert!(m.workload.is_none() && m.workload_kind.is_none());
    assert_eq!(m.mem_limits.len(), 1);
    assert_eq!(m.mem_limits.get("c"), Some(&1000));
}
