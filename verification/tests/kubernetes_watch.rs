use swarmagent::json::{parse, Json};
use swarmagent::provider::kubernetes::events::WatchState;
use swarmagent::provider::kubernetes::watch::{apply_document, apply_line, LineBuffer, LineOutcome};

fn drained(buffer: &mut LineBuffer) -> Vec<String> {
    let mut out = Vec::new();
    while let Some(line) = buffer.next_line() {
        out.push(String::from_utf8(line).unwrap());
    }
    out
}

#[test]
fn lines_come_out_whole() {
    let mut b = LineBuffer::new();
    assert!(b.next_line().is_none());
    b.extend(b"one\ntw");
    assert_eq!(drained(&mut b), vec!["one"]);
    b.extend(b"o\n\nthree");
    assert_eq!(drained(&mut b), vec!["two", ""]);
    b.extend(b"\n");
    assert_eq!(drained(&mut b), vec!["three"]);
    b.extend(b"");
    assert!(b.next_line().is_none());
}

#[test]
fn chunking_does_not_matter() {
    let stream = b"{\"a\":1}\n\n  \nrest of it\nunfinished";
    let mut whole = LineBuffer::new();
    whole.extend(stream);
    let expected = drained(&mut whole);
    for size in 1..stream.len() {
        let mut b = LineBuffer::new();
        let mut seen = Vec::new();
        for chunk in stream.chunks(size) {
            b.extend(chunk);
            seen.extend(drained(&mut b));
        }
        assert_eq!(seen, expected);
    }
}

fn line(text: &str) -> Vec<u8> {
    text.as_bytes().to_vec()
}

#[test]
fn blank_and_broken_lines_change_nothing() {
    let mut state = WatchState::new();
    for text in ["", "  ", "\t\r\n\u{c}"] {
        assert!(matches!(apply_line(&mut state, &line(text), 1), LineOutcome::Blank));
    }
    for text in ["{", "{}}", "\u{b}", "nonsense"] {
        assert!(matches!(apply_line(&mut state, &line(text), 1), LineOutcome::Unparseable));
    }
    for text in ["{}", "[]", "5", r#"{"type": "ADDED"}"#] {
        match apply_line(&mut state, &line(text), 1) {
            LineOutcome::Events(events) => assert!(events.is_empty()),
            _ => panic!("a document"),
        }
    }
    assert!(state.is_empty());
}

#[test]
fn a_line_is_applied() {
    let mut state = WatchState::new();
    let added = r#"{"type": "ADDED", "object": {
        "metadata": {"namespace": "prod", "name": "web-1"},
        "status": {"containerStatuses": [
            {"name": "web", "restartCount": 0, "state": {"running": {}}}]}}}"#;
    match apply_line(&mut state, &line(added), 7) {
        LineOutcome::Events(events) => {
            assert_eq!(events.len(), 1);
            assert_eq!(events[0].action, "start");
            assert_eq!(events[0].time, 7);
        }
        _ => panic!("a document"),
    }
    assert!(state.contains_key("prod/web-1/web"));
    let deleted: Json = parse(added.replace("ADDED", "DELETED").as_bytes()).unwrap();
    let events = apply_document(&mut state, &deleted, 8);
    assert_eq!(events.len(), 1);
    assert_eq!(events[0].action, "destroy");
    assert!(state.is_empty());
}
