use swarmagent::config::Config;
use swarmagent::json::{get, Json};
use swarmagent::keyed::StringMap;
use swarmagent::sink::{envelope, user_agent, HealthReply, Sink, HEALTH_CHECK_SECONDS, JSON_UTF8};

fn sink(pairs: &[(&str, &str)]) -> Sink {
    let mut vars = StringMap::new();
    for (k, v) in pairs {
        vars.insert(k.to_string(), v.to_string());
    }
    Sink::new(Config::from_env(&vars))
}

#[test]
fn envelope_has_type_and_message() {
    let v = envelope("stats", Json::Uint(5));
    assert!(matches!(get(Some(&v), "type"), Some(Json::Text(s)) if s == "stats"));
    assert!(matches!(get(Some(&v), "message"), Some(Json::Uint(5))));
}

#[test]
fn events_are_posted_to_the_endpoint() {
    let plain = sink(&[("SWARMBOT_URL", "http://bot")]);
    let out = plain.post_event("event", Json::Null);
    assert_eq!(out.url, "http://bot/events");
    assert_eq!(out.headers, vec![("content-type".to_string(), JSON_UTF8.to_string())]);
    assert_eq!(JSON_UTF8, "application/json; charset=utf-8");
    assert!(out.logged_as.is_none());
    assert!(matches!(get(Some(&out.body), "type"), Some(Json::Text(s)) if s == "event"));
}

#[test]
fn secret_is_sent_with_every_request() {
    let s = sink(&[("SWARMAGENT_SHARED_SECRET", "s3")]);
    let token = ("X-Agent-Token".to_string(), "s3".to_string());
    assert!(s.post_event("stats", Json::Null).headers.contains(&token));
    assert_eq!(s.health_headers(), vec![token]);
    assert!(sink(&[]).health_headers().is_empty());
}

#[test]
fn bodies_are_logged_by_type() {
    let both = sink(&[("DEBUG_EVENT", "true"), ("DEBUG_STATS", "true")]);
    assert_eq!(both.post_event("event", Json::Null).logged_as, Some("Docker event"));
    assert_eq!(both.post_event("stats", Json::Null).logged_as, Some("Host stats"));
    assert_eq!(both.post_event("other", Json::Null).logged_as, None);
    let one = sink(&[("DEBUG_STATS", "true")]);
    assert_eq!(one.post_event("event", Json::Null).logged_as, None);
    assert_eq!(one.post_event("stats", Json::Null).logged_as, Some("Host stats"));
}

#[test]
fn health_needs_a_success() {
    let s = sink(&[]);
    assert!(s.wait_for_health(&HealthReply::Answer(200)));
    assert!(s.wait_for_health(&HealthReply::Answer(204)));
    assert!(!s.wait_for_health(&HealthReply::Answer(302)));
    assert!(!s.wait_for_health(&HealthReply::Answer(503)));
    assert!(!s.wait_for_health(&HealthReply::Failure));
    assert_eq!(HEALTH_CHECK_SECONDS, 5);
    assert_eq!(user_agent("0.1.0"), "swarmagent/0.1.0");
}
