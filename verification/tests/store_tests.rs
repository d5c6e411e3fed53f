use cursive_flexi_logger_view::store::STORE_CAPACITY;
use cursive_flexi_logger_view::{LogLine, LogStore, Segment, Style};

fn msg_line(text: &str) -> LogLine {
    LogLine::from_segments(vec![Segment::new(text.to_string(), Style::Plain)]).unwrap()
}

#[test]
fn empty_store() {
    let store = LogStore::new();
    assert_eq!(store.len(), 0);
    assert!(store.line_at(0).is_none());
}

#[test]
fn append_keeps_order() {
    let mut store = LogStore::new();
    store.append(msg_line("first"));
    store.append(msg_line("second"));
    store.append(msg_line("third"));
    assert_eq!(store.len(), 3);
    assert_eq!(store.line_at(0).unwrap().segments[0].text, "first");
    assert_eq!(store.line_at(1).unwrap().segments[0].text, "second");
    assert_eq!(store.line_at(2).unwrap().segments[0].text, "third");
    assert!(store.line_at(3).is_none());
}

#[test]
fn bounded_growth() {
    let mut store = LogStore::new();
    let extra: usize = 5;
    for i in 0..(STORE_CAPACITY + extra) {
        store.append(msg_line(&format!("line {}", i)));
    }
    assert_eq!(store.len(), STORE_CAPACITY);
    for j in 0..STORE_CAPACITY {
        let line = store.line_at(j).unwrap();
        assert_eq!(line.segments[0].text, format!("line {}", j + extra));
    }
    assert!(store.line_at(STORE_CAPACITY).is_none());
}

#[test]
fn fifo_eviction() {
    let mut store = LogStore::new();
    for i in 0..STORE_CAPACITY {
        store.append(msg_line(&format!("line {}", i)));
    }
    assert_eq!(store.len(), STORE_CAPACITY);
    assert_eq!(store.line_at(0).unwrap().segments[0].text, "line 0");

    store.append(msg_line("newcomer"));
    assert_eq!(store.len(), STORE_CAPACITY);
    for j in 0..(STORE_CAPACITY - 1) {
        let line = store.line_at(j).unwrap();
        assert_eq!(line.segments[0].text, format!("line {}", j + 1));
    }
    assert_eq!(
        store.line_at(STORE_CAPACITY - 1).unwrap().segments[0].text,
        "newcomer"
    );
}

#[test]
fn from_segments_rejects_malformed_lines() {
    assert!(LogLine::from_segments(vec![]).is_none());
    assert!(LogLine::from_segments(vec![
        Segment::new("multi\nline prefix".to_string(), Style::Plain),
        Segment::new("message".to_string(), Style::Plain),
    ])
    .is_none());
    assert!(LogLine::from_segments(vec![
        Segment::new("prefix".to_string(), Style::Plain),
        Segment::new("multi\nline message".to_string(), Style::Plain),
    ])
    .is_some());
}
