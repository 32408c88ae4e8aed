use swarmagent::json::{get, parse, Json};
use swarmagent::keyed::StringMap;
use swarmagent::provider::kubernetes::events::{
    base_attributes, container_prefix, diff_watch_event, event, AgentEvent, TrackedContainer, WatchState,
};

fn document(text: &str) -> Json {
    parse(text.as_bytes()).expect("document")
}

fn pod(container_state: &str, restart_count: i64) -> Json {
    document(&format!(
        r#"{{"metadata": {{"namespace": "prod", "name": "web-1"}},
            "status": {{"containerStatuses": [{{
                "name": "web",
                "restartCount": {restart_count},
                "state": {container_state}
            }}]}}}}"#
    ))
}

fn actions(events: &[AgentEvent]) -> Vec<&str> {
    events.iter().map(|e| e.action).collect()
}

fn attribute<'a>(e: &'a AgentEvent, key: &str) -> Option<&'a str> {
    e.actor.attributes.get(key).map(|s| s.as_str())
}

#[test]
fn start_emitted_once() {
    let mut state = WatchState::new();
    let p = pod(r#"{"running": {"startedAt": "2026-07-13T10:00:00Z"}}"#, 0);

    let events = diff_watch_event(&mut state, "MODIFIED", &p, 111);
    assert_eq!(events.len(), 1);
    assert_eq!(events[0].action, "start");
    assert_eq!(events[0].actor.id, "prod/web-1/web");
    assert_eq!(events[0].time, 1_783_936_800); // 2026-07-13T10:00:00Z

    // Same state again → no duplicate events.
    let events = diff_watch_event(&mut state, "MODIFIED", &p, 112);
    assert!(events.is_empty());
}

#[test]
fn running_to_terminated_emits_die() {
    let mut state = WatchState::new();
    diff_watch_event(&mut state, "ADDED", &pod(r#"{"running": {}}"#, 0), 100);

    let terminated = pod(
        r#"{"terminated": {"exitCode": 1, "reason": "Error", "finishedAt": "2026-07-13T10:05:00Z"}}"#,
        0,
    );
    let events = diff_watch_event(&mut state, "MODIFIED", &terminated, 200);
    assert_eq!(events.len(), 1);
    assert_eq!(events[0].action, "die");
    assert_eq!(events[0].actor.attributes.get("exitCode").unwrap(), "1");
    assert_eq!(events[0].actor.attributes.get("reason").unwrap(), "Error");
    assert_eq!(events[0].time, 1_783_937_100);
}

#[test]
fn oom_kill_emits_oom_and_die() {
    let mut state = WatchState::new();
    diff_watch_event(&mut state, "ADDED", &pod(r#"{"running": {}}"#, 0), 100);

    let oom = pod(r#"{"terminated": {"exitCode": 137, "reason": "OOMKilled"}}"#, 0);
    let events = diff_watch_event(&mut state, "MODIFIED", &oom, 200);
    assert_eq!(actions(&events), vec!["oom", "die"]);
}

#[test]
fn missed_restart_emits_die_then_start() {
    let mut state = WatchState::new();
    diff_watch_event(&mut state, "ADDED", &pod(r#"{"running": {}}"#, 0), 100);

    // Watch reconnected after a crash-loop iteration: still running,
    // but restartCount bumped.
    let restarted = pod(r#"{"running": {"startedAt": "2026-07-13T11:00:00Z"}}"#, 1);
    let events = diff_watch_event(&mut state, "MODIFIED", &restarted, 200);
    assert_eq!(actions(&events), vec!["die", "start"]);
    assert_eq!(events[0].time, 200);
    assert_eq!(events[1].time, 1_783_940_400);
}

#[test]
fn delete_emits_destroy_and_clears_state() {
    let mut state = WatchState::new();
    diff_watch_event(&mut state, "ADDED", &pod(r#"{"running": {}}"#, 0), 100);
    assert_eq!(state.len(), 1);

    let deleted = pod(r#"{"running": {}}"#, 0);
    let events = diff_watch_event(&mut state, "DELETED", &deleted, 300);
    assert_eq!(events.len(), 1);
    assert_eq!(events[0].action, "destroy");
    assert_eq!(events[0].actor.id, "prod/web-1/web");
    assert_eq!(attribute(&events[0], "name"), Some("web"));
    assert_eq!(events[0].time, 300);
    assert!(state.is_empty());
    // A second deletion has nothing to say.
    assert!(diff_watch_event(&mut state, "DELETED", &deleted, 301).is_empty());
}

#[test]
fn pending_pod_without_statuses_is_ignored() {
    let mut state = WatchState::new();
    let pending = document(
        r#"{"metadata": {"namespace": "prod", "name": "web-1"}, "status": {"phase": "Pending"}}"#,
    );
    assert!(diff_watch_event(&mut state, "ADDED", &pending, 1).is_empty());
    assert!(state.is_empty());
}

#[test]
fn event_serializes_docker_like_envelope() {
    let e = event("start", "ns/p/c", base_attributes("ns", "p", "c"), 42);
    let v = e.to_json();
    let text = |node: Option<&Json>| match node {
        Some(Json::Text(s)) => s.clone(),
        _ => panic!("no text"),
    };
    assert_eq!(text(get(Some(&v), "Type")), "container");
    assert_eq!(text(get(Some(&v), "Action")), "start");
    assert_eq!(text(get(Some(&v), "orchestrator")), "kubernetes");
    let actor = get(Some(&v), "Actor");
    assert_eq!(text(get(actor, "ID")), "ns/p/c");
    assert_eq!(text(get(get(actor, "Attributes"), "namespace")), "ns");
    assert_eq!(text(get(get(actor, "Attributes"), "name")), "c");
    assert_eq!(text(get(get(actor, "Attributes"), "pod")), "p");
    assert!(matches!(get(Some(&v), "time"), Some(Json::Int(42))));
}

#[test]
fn pods_without_identity_are_ignored() {
    let mut state = WatchState::new();
    for text in [
        r#"{}"#,
        r#"null"#,
        r#"[1]"#,
        r#"{"metadata": {"namespace": "", "name": "x"}}"#,
        r#"{"metadata": {"namespace": "x", "name": 5}}"#,
    ] {
        for kind in ["ADDED", "DELETED"] {
            assert!(diff_watch_event(&mut state, kind, &document(text), 1).is_empty());
        }
    }
    assert!(state.is_empty());
}

#[test]
fn other_pods_keep_their_state() {
    let mut state = WatchState::new();
    let named = |ns: &str, name: &str| {
        document(&format!(
            r#"{{"metadata": {{"namespace": "{ns}", "name": "{name}"}},
                "status": {{"containerStatuses": [
                    {{"name": "a", "restartCount": 0, "state": {{"running": {{}}}}}},
                    {{"name": "b", "restartCount": 2, "state": {{"waiting": {{}}}}}},
                    {{"restartCount": 2, "state": {{"running": {{}}}}}}
                ]}}}}"#
        ))
    };
    assert_eq!(actions(&diff_watch_event(&mut state, "ADDED", &named("prod", "web"), 1)), vec!["start"]);
    diff_watch_event(&mut state, "ADDED", &named("prod", "web-2"), 1);
    assert_eq!(state.len(), 4);
    let events = diff_watch_event(&mut state, "DELETED", &named("prod", "web"), 9);
    let ids: Vec<&str> = events.iter().map(|e| e.actor.id.as_str()).collect();
    assert_eq!(ids, vec!["prod/web/a", "prod/web/b"]);
    assert_eq!(state.len(), 2);
    assert!(state.contains_key("prod/web-2/a"));
    assert!(state.contains_key("prod/web-2/b"));
    assert_eq!(
        state.get("prod/web-2/b"),
        Some(&TrackedContainer { running: false, restart_count: 2 })
    );
}

#[test]
fn a_terminated_container_that_was_never_seen_running_is_silent() {
    let mut state = WatchState::new();
    let done = pod(r#"{"terminated": {"exitCode": 0, "reason": "Completed"}}"#, 0);
    assert!(diff_watch_event(&mut state, "ADDED", &done, 1).is_empty());
    // A counter that went up shows a death that was missed.
    let again = pod(r#"{"terminated": {"exitCode": -1}}"#, 1);
    let events = diff_watch_event(&mut state, "MODIFIED", &again, 5);
    assert_eq!(actions(&events), vec!["die"]);
    assert_eq!(attribute(&events[0], "exitCode"), Some("-1"));
    assert_eq!(attribute(&events[0], "reason"), None);
    assert_eq!(events[0].time, 5);
    // Running after that is a plain start.
    let events = diff_watch_event(&mut state, "MODIFIED", &pod(r#"{"running": null}"#, 2), 6);
    assert_eq!(actions(&events), vec!["start"]);
}

#[test]
fn unusable_timestamps_fall_back_to_now() {
    let mut state = WatchState::new();
    let p = pod(r#"{"running": {"startedAt": "soon"}}"#, 0);
    assert_eq!(diff_watch_event(&mut state, "ADDED", &p, 77)[0].time, 77);
    let mut state = WatchState::new();
    let p = pod(r#"{"running": {"startedAt": 5}}"#, 0);
    assert_eq!(diff_watch_event(&mut state, "ADDED", &p, 78)[0].time, 78);
}

#[test]
fn prefixes_and_defaults() {
    assert_eq!(container_prefix("ns", "p"), "ns/p/");
    let t = TrackedContainer::default();
    assert!(!t.running);
    assert_eq!(t.restart_count, 0);
    let empty: StringMap<String> = StringMap::new();
    assert_eq!(event("oom", "i", empty, -5).time, -5);
}

#[test]
fn a_missed_restart_is_reported_in_every_state() {
    for (now_state, expected) in [
        (r#"{"waiting": {"reason": "CrashLoopBackOff"}}"#, vec!["die", "start"]),
        (r#"{}"#, vec!["die", "start"]),
        (r#"{"running": {}}"#, vec!["die", "start"]),
        (r#"{"terminated": {"exitCode": 1}}"#, vec!["die", "start", "die"]),
        (r#"{"terminated": {"reason": "OOMKilled"}}"#, vec!["die", "start", "oom", "die"]),
    ] {
        let mut state = WatchState::new();
        diff_watch_event(&mut state, "ADDED", &pod(r#"{"running": {}}"#, 3), 100);
        let events = diff_watch_event(&mut state, "MODIFIED", &pod(now_state, 4), 200);
        assert_eq!(actions(&events), expected);
        assert!(events.iter().all(|e| e.actor.id == "prod/web-1/web" && e.time == 200));
        // Nothing more to say once it is known.
        assert!(diff_watch_event(&mut state, "MODIFIED", &pod(now_state, 4), 300).is_empty());
    }
}

#[test]
fn a_running_container_ends_with_its_start() {
    let both = r#"{"running": {"startedAt": "1970-01-01T00:03:10Z"},
                   "terminated": {"reason": "OOMKilled", "finishedAt": "1970-01-01T00:03:00Z"}}"#;
    let mut state = WatchState::new();
    diff_watch_event(&mut state, "ADDED", &pod(r#"{"running": {}}"#, 3), 100);
    let events = diff_watch_event(&mut state, "MODIFIED", &pod(both, 4), 200);
    assert_eq!(actions(&events), vec!["oom", "die", "die", "start"]);
    assert_eq!(events.iter().map(|e| e.time).collect::<Vec<_>>(), vec![180, 180, 200, 190]);
    let mut state = WatchState::new();
    diff_watch_event(&mut state, "ADDED", &pod(r#"{"waiting": {}}"#, 3), 100);
    let events = diff_watch_event(&mut state, "MODIFIED", &pod(both, 4), 200);
    assert_eq!(actions(&events), vec!["oom", "die", "start"]);
}

#[test]
fn a_key_occurs_once() {
    let mut map = StringMap::new();
    for (key, value) in [("a/x", 1), ("b/x", 2), ("a/x", 3), ("a/y", 4)] {
        map.insert(key.to_string(), value);
    }
    assert_eq!(map.len(), 3);
    assert_eq!(map.get("a/x"), Some(&3));
    assert_eq!(map.remove_prefixed("a/"), vec!["a/x".to_string(), "a/y".to_string()]);
    assert_eq!(map.len(), 1);
    assert_eq!(map.key_at(0), "b/x");
}

#[test]
fn deletion_undoes_the_first_sight() {
    let mut state = WatchState::new();
    diff_watch_event(&mut state, "ADDED", &pod(r#"{"running": {}}"#, 0), 1);
    let other = document(
        r#"{"metadata": {"namespace": "prod", "name": "db"},
            "status": {"containerStatuses": [
                {"name": "a", "state": {"running": {}}}, {"name": ""},
                {"name": "b"}, {"name": "a", "state": {"waiting": {}}}]}}"#,
    );
    diff_watch_event(&mut state, "ADDED", &other, 2);
    assert_eq!(state.len(), 3);
    let gone = diff_watch_event(&mut state, "DELETED", &other, 3);
    let ids: Vec<&str> = gone.iter().map(|e| e.actor.id.as_str()).collect();
    assert_eq!(ids, vec!["prod/db/a", "prod/db/b"]);
    assert_eq!(actions(&gone), vec!["destroy", "destroy"]);
    assert_eq!(state.len(), 1);
    assert!(state.contains_key("prod/web-1/web"));
}
