use swarmagent::clock::{elapsed, parse_ts, timestamp_or, ts_or, Timestamp};
use swarmagent::web::{
    choose_since, logs_options, parse_since_unix, unobtainable, LogBuffer, LogsError, LogsQuery,
};

fn since(text: &str) -> Result<i64, String> {
    match parse_since_unix(&Some(text.to_string())) {
        Ok(v) => Ok(v),
        Err(LogsError::BadRequest(s)) => Err(s),
        Err(LogsError::TooLarge(s)) => panic!("{s}"),
    }
}

#[test]
fn since_takes_seconds_or_rfc3339() {
    assert!(matches!(parse_since_unix(&None), Ok(0)));
    assert_eq!(since(""), Ok(0));
    assert_eq!(since("  "), Ok(0));
    assert_eq!(since(" 42 "), Ok(42));
    assert_eq!(since("-7"), Ok(-7));
    assert_eq!(since("+7"), Ok(7));
    assert_eq!(since("9223372036854775807"), Ok(i64::MAX));
    assert_eq!(since("-9223372036854775808"), Ok(i64::MIN));
    assert_eq!(since(" 2026-07-13T10:00:00Z"), Ok(1_783_936_800));
    assert_eq!(since("2026-07-13T12:00:00.9+02:00"), Ok(1_783_936_800));
    let refusal = Err("invalid since (use unix seconds or RFC3339)".to_string());
    assert_eq!(since("9223372036854775808"), refusal);
    assert_eq!(since("yesterday"), refusal);
    assert_eq!(since("2026-07-13"), refusal);
}

#[test]
fn options_ask_for_everything_since() {
    let o = match logs_options(&LogsQuery { since: Some("5".to_string()) }) {
        Ok(o) => o,
        Err(_) => panic!("a number"),
    };
    assert_eq!((o.since, o.until, o.tail), (5, 0, "all"));
    assert!(!o.follow && o.stdout && o.stderr && o.timestamps);
    match logs_options(&LogsQuery { since: Some("x".to_string()) }) {
        Ok(_) => panic!("no time"),
        Err(e) => assert_eq!(e.code(), 400),
    }
    assert!(LogsQuery::default().since.is_none());
}

#[test]
fn logs_never_exceed_the_limit() {
    let mut b = LogBuffer::new(5);
    assert!(b.append(b"abc").is_ok());
    assert!(b.append(b"de").is_ok());
    match b.append(b"f") {
        Ok(_) => panic!("too much"),
        Err(e) => {
            assert_eq!(e.code(), 413);
            assert!(matches!(e, LogsError::TooLarge(s) if s == "Log response exceeds LOGS_MAX_BYTES (5)"));
        }
    }
    assert!(b.append(b"").is_ok());
    assert_eq!(b.text(), "abcde");
}

#[test]
fn bytes_that_are_not_text_are_replaced() {
    let mut b = LogBuffer::new(100);
    assert!(b.append(b"a\xffb \xc5\xbc").is_ok());
    assert_eq!(b.text(), "a\u{fffd}b \u{17c}");
}

#[test]
fn refusals_of_the_daemon_are_passed_on() {
    let e = unobtainable("gone");
    assert_eq!(e.code(), 400);
    assert!(matches!(e, LogsError::BadRequest(s) if s == "Cannot obtain container logs: gone"));
}

#[test]
fn timestamps_are_read() {
    assert_eq!(ts_or(5, None), 5);
    assert_eq!(ts_or(5, Some("not a time")), 5);
    assert_eq!(ts_or(5, Some(" 2026-07-13T10:00:00Z")), 5);
    assert_eq!(ts_or(5, Some("1970-01-01T00:01:00Z")), 60);
    assert_eq!(ts_or(5, Some("1969-12-31T23:59:59Z")), -1);
    let t = parse_ts(" 2024-01-01T00:00:00.000000001Z ").unwrap();
    assert_eq!((t.seconds, t.nanos), (1_704_067_200, 1));
    assert!(parse_ts("").is_none());
}

#[test]
fn intervals_are_counted_in_nanoseconds() {
    let at = |s: &str| parse_ts(s);
    assert_eq!(elapsed(at("1970-01-01T00:00:02.5Z"), at("1970-01-01T00:00:01.75Z")), 750_000_000);
    assert_eq!(elapsed(at("1970-01-01T00:00:01Z"), at("1970-01-01T00:00:02Z")), 0);
    assert_eq!(elapsed(at("1970-01-01T00:00:01Z"), at("1970-01-01T00:00:01Z")), 0);
    assert_eq!(elapsed(None, at("1970-01-01T00:00:01Z")), 0);
    assert_eq!(elapsed(at("1970-01-01T00:00:01Z"), None), 0);
    assert_eq!(elapsed(at("2262-01-01T00:00:00Z"), at("1970-01-01T00:00:00Z")), 9_214_646_400_000_000_000);
    assert_eq!(elapsed(at("9999-12-31T23:59:59Z"), at("0000-01-01T00:00:00Z")), 0);
}

#[test]
fn a_number_comes_before_a_time() {
    let t = Some(Timestamp { seconds: 9, nanos: 5 });
    assert!(matches!(choose_since(Some(4), t), Ok(4)));
    assert!(matches!(choose_since(None, t), Ok(9)));
    assert!(choose_since(None, None).is_err());
    assert_eq!(timestamp_or(3, t), 9);
    assert_eq!(timestamp_or(3, None), 3);
}
