use swarmagent::backoff::{next_delay, FIRST_DELAY};
use swarmagent::config::AgentMode;
use swarmagent::detect::{in_cluster, resolve, Mode, SERVICEACCOUNT_DIR};

#[test]
fn explicit_mode_wins_over_detection() {
    assert_eq!(resolve(AgentMode::Docker, true), Mode::Docker);
    assert_eq!(resolve(AgentMode::Kubernetes, false), Mode::Kubernetes);
}

#[test]
fn auto_follows_detection() {
    assert_eq!(resolve(AgentMode::Auto, true), Mode::Kubernetes);
    assert_eq!(resolve(AgentMode::Auto, false), Mode::Docker);
}

#[test]
fn mode_names() {
    assert_eq!(Mode::Docker.as_str(), "docker");
    assert_eq!(Mode::Kubernetes.as_str(), "kubernetes");
}

#[test]
fn cluster_needs_token_and_host() {
    assert!(in_cluster(true, Some("10.43.0.1")));
    assert!(!in_cluster(false, Some("10.43.0.1")));
    assert!(!in_cluster(true, Some("")));
    assert!(!in_cluster(true, None));
    assert_eq!(SERVICEACCOUNT_DIR, "/var/run/secrets/kubernetes.io/serviceaccount");
}

#[test]
fn delays_double_up_to_a_minute() {
    let mut delay = FIRST_DELAY;
    let mut seen = vec![delay];
    for _ in 0..8 {
        delay = next_delay(delay);
        seen.push(delay);
    }
    assert_eq!(seen, vec![1, 2, 4, 8, 16, 32, 60, 60, 60]);
    assert_eq!(next_delay(u64::MAX), 60);
    assert_eq!(next_delay(30), 60);
    assert_eq!(next_delay(31), 60);
    assert_eq!(next_delay(29), 58);
}
