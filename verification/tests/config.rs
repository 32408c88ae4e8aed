use swarmagent::config::{
    endpoint_from_base, get_string, non_empty, parse_agent_mode, parse_bool_env, parse_kubelet_mode,
    parse_u64_env, parse_usize_env, swarmbot_base_url, trim_trailing_slash, AgentMode, Config, KubeletMode,
};
use swarmagent::keyed::StringMap;

fn env(pairs: &[(&str, &str)]) -> StringMap<String> {
    let mut vars = StringMap::new();
    for (k, v) in pairs {
        vars.insert(k.to_string(), v.to_string());
    }
    vars
}

#[test]
fn parse_bool_uses_default_when_unset() {
    assert!(parse_bool_env(&env(&[]), "SWARMagent_TEST_BOOL_UNSET", true));
    assert!(!parse_bool_env(&env(&[]), "SWARMagent_TEST_BOOL_UNSET", false));
}

#[test]
fn parse_numeric_env_uses_default_on_invalid() {
    assert_eq!(parse_u64_env(&env(&[]), "SWARMagent_TEST_U64_UNSET", 7), 7);
    assert_eq!(parse_usize_env(&env(&[]), "SWARMagent_TEST_USIZE_UNSET", 9), 9);
}

#[test]
fn get_string_empty_falls_back() {
    let key = "SWARMagent_TEST_EMPTY_STRING";
    let vars = env(&[(key, "")]);
    assert_eq!(get_string(&vars, key, "default"), "default");
}

#[test]
fn from_env_clamps_and_minimums() {
    let vars = env(&[("STATS_FREQUENCY", "0"), ("STATS_MAX_CONCURRENCY", "9999")]);
    let cfg = Config::from_env(&vars);
    assert_eq!(cfg.stats_frequency, 1);
    assert_eq!(cfg.stats_max_concurrency, 512);
}

#[test]
fn agent_mode_parsing() {
    assert_eq!(parse_agent_mode("auto"), AgentMode::Auto);
    assert_eq!(parse_agent_mode("Docker"), AgentMode::Docker);
    assert_eq!(parse_agent_mode("swarm"), AgentMode::Docker);
    assert_eq!(parse_agent_mode("kubernetes"), AgentMode::Kubernetes);
    assert_eq!(parse_agent_mode("K3S"), AgentMode::Kubernetes);
    assert_eq!(parse_agent_mode("nonsense"), AgentMode::Auto);
}

#[test]
fn kubelet_mode_parsing() {
    assert_eq!(parse_kubelet_mode("proxy"), KubeletMode::Proxy);
    assert_eq!(parse_kubelet_mode("direct"), KubeletMode::Direct);
    assert_eq!(parse_kubelet_mode(""), KubeletMode::Direct);
}

#[test]
fn base_url_reads_swarmbot_url() {
    let vars = env(&[("SWARMBOT_URL", "http://swarmbot:6666/")]);
    let cfg = Config::from_env(&vars);
    assert_eq!(cfg.event_endpoint, "http://swarmbot:6666/events");
    assert_eq!(cfg.health_check_endpoint, "http://swarmbot:6666/version");
}

#[test]
fn non_empty_trims_and_filters() {
    assert_eq!(non_empty(Some("  ".into())), None);
    assert_eq!(non_empty(Some(" x ".into())), Some("x".to_string()));
    assert_eq!(non_empty(None), None);
}

#[test]
fn defaults_without_variables() {
    let cfg = Config::from_env(&env(&[]));
    assert_eq!(cfg.agent_mode, AgentMode::Auto);
    assert_eq!(cfg.stats_frequency, 30);
    assert_eq!(cfg.event_endpoint, "http://app:8080/events");
    assert_eq!(cfg.health_check_endpoint, "http://app:8080/version");
    assert!(!cfg.debug_event);
    assert!(!cfg.debug_stats);
    assert_eq!(cfg.stats_max_concurrency, 32);
    assert_eq!(cfg.node_name, None);
    assert_eq!(cfg.node_ip, None);
    assert!(cfg.kubelet_insecure_tls);
    assert_eq!(cfg.kubelet_mode, KubeletMode::Direct);
    assert_eq!(cfg.shared_secret, None);
}

#[test]
fn base_url_has_three_names() {
    for name in ["SWARMBOT_URL", "SW4RM_BOT_URL", "SWARMBOTY_URL"] {
        let cfg = Config::from_env(&env(&[(name, "https://bot.example//")]));
        assert_eq!(cfg.event_endpoint, "https://bot.example/events");
        assert_eq!(cfg.health_check_endpoint, "https://bot.example/version");
    }
    let both = env(&[("SWARMBOTY_URL", "http://old"), ("SW4RM_BOT_URL", "http://new")]);
    assert_eq!(swarmbot_base_url(&both), "http://new");
    let empty = env(&[("SWARMBOT_URL", ""), ("SW4RM_BOT_URL", "http://new")]);
    assert_eq!(swarmbot_base_url(&empty), "http://new");
}

#[test]
fn base_url_is_derived_from_the_events_url() {
    let vars = env(&[("EVENT_ENDPOINT", "http://bot:1/api/events")]);
    let cfg = Config::from_env(&vars);
    assert_eq!(cfg.event_endpoint, "http://bot:1/api/events");
    assert_eq!(cfg.health_check_endpoint, "http://bot:1/api/version");
    let other = env(&[("EVENT_ENDPOINT", "http://bot:1/ingest/")]);
    assert_eq!(swarmbot_base_url(&other), "http://bot:1/ingest");
}

#[test]
fn stated_events_url_wins_over_the_base() {
    let vars = env(&[("SWARMBOT_URL", "http://a"), ("EVENT_ENDPOINT", "http://b/x")]);
    let cfg = Config::from_env(&vars);
    assert_eq!(cfg.event_endpoint, "http://b/x");
    assert_eq!(cfg.health_check_endpoint, "http://a/version");
}

#[test]
fn flags_and_numbers() {
    let vars = env(&[
        ("A", "true"),
        ("B", "false"),
        ("C", "TRUE"),
        ("N", "+42"),
        ("M", "-1"),
        ("O", "18446744073709551616"),
        ("P", "18446744073709551615"),
        ("S", " 1"),
    ]);
    assert!(parse_bool_env(&vars, "A", false));
    assert!(!parse_bool_env(&vars, "B", true));
    assert!(parse_bool_env(&vars, "C", true));
    assert!(!parse_bool_env(&vars, "C", false));
    assert_eq!(parse_u64_env(&vars, "N", 1), 42);
    assert_eq!(parse_u64_env(&vars, "M", 1), 1);
    assert_eq!(parse_u64_env(&vars, "O", 1), 1);
    assert_eq!(parse_u64_env(&vars, "P", 1), u64::MAX);
    assert_eq!(parse_u64_env(&vars, "S", 5), 5);
    assert_eq!(parse_usize_env(&vars, "N", 1), 42);
    assert_eq!(parse_usize_env(&vars, "M", 3), 3);
}

#[test]
fn all_settings_are_read() {
    let cfg = Config::from_env(&env(&[
        ("AGENT_MODE", " K8S "),
        ("STATS_FREQUENCY", "5"),
        ("HEALTH_CHECK_ENDPOINT", "http://h"),
        ("DEBUG_EVENT", "true"),
        ("DEBUG_STATS", "true"),
        ("STATS_MAX_CONCURRENCY", "0"),
        ("NODE_NAME", " k3s-1 "),
        ("NODE_IP", "10.0.0.5"),
        ("AGENT_KUBELET_INSECURE_TLS", "false"),
        ("AGENT_KUBELET_MODE", "PROXY"),
        ("SWARMAGENT_SHARED_SECRET", "s3"),
    ]));
    assert_eq!(cfg.agent_mode, AgentMode::Kubernetes);
    assert_eq!(cfg.stats_frequency, 5);
    assert_eq!(cfg.health_check_endpoint, "http://h");
    assert!(cfg.debug_event);
    assert!(cfg.debug_stats);
    assert_eq!(cfg.stats_max_concurrency, 1);
    assert_eq!(cfg.node_name.as_deref(), Some("k3s-1"));
    assert_eq!(cfg.node_ip.as_deref(), Some("10.0.0.5"));
    assert!(!cfg.kubelet_insecure_tls);
    assert_eq!(cfg.kubelet_mode, KubeletMode::Proxy);
    assert_eq!(cfg.shared_secret.as_deref(), Some("s3"));
}

#[test]
fn url_helpers() {
    assert_eq!(trim_trailing_slash("http://x///"), "http://x");
    assert_eq!(trim_trailing_slash("///"), "");
    assert_eq!(endpoint_from_base("http://x", "/events"), "http://x/events");
}
