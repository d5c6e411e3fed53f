use cursive_flexi_logger_view::formatter::{format_record, LogRecord, RecordLevel, TimeOfDay};
use cursive_flexi_logger_view::{FlexiLoggerView, Indentable, LogLine, LogStore, Segment, Style};

fn line(texts: &[&str]) -> LogLine {
    let segments: Vec<Segment> = texts
        .iter()
        .map(|t| Segment::new(t.to_string(), Style::Plain))
        .collect();
    LogLine::from_segments(segments).unwrap()
}

#[test]
fn empty_store_sizing() {
    let store = LogStore::new();
    let view = FlexiLoggerView::new();
    assert_eq!(view.required_size(&store, 0, 0), (1, 0));
    assert_eq!(view.required_size(&store, 5, 2), (5, 2));
    assert!(view.draw(&store, 10).is_empty());
}

#[test]
fn row_expansion() {
    let mut store = LogStore::new();
    store.append(line(&["X [A] ", "a\nb\nc"]));
    store.append(line(&["one row"]));
    let view = FlexiLoggerView::new();
    let (_, h) = view.required_size(&store, 0, 0);
    assert_eq!(h, 4);
}

#[test]
fn empty_message_occupies_one_row() {
    let mut store = LogStore::new();
    store.append(line(&["ab", ""]));
    let view = FlexiLoggerView::new();
    let (w, h) = view.required_size(&store, 0, 0);
    assert_eq!((w, h), (2, 1));
    let spans = view.draw(&store, 3);
    assert_eq!(spans.len(), 2);
    assert_eq!((spans[1].x, spans[1].y), (2, 0));
    assert_eq!(spans[1].text, "");
}

#[test]
fn zero_width_segment_still_printed() {
    let mut store = LogStore::new();
    store.append(line(&["", "hi"]));
    let view = FlexiLoggerView::new();
    let spans = view.draw(&store, 3);
    assert_eq!(spans.len(), 2);
    assert_eq!(spans[0].text, "");
    assert_eq!((spans[0].x, spans[0].y), (0, 0));
    assert_eq!((spans[1].x, spans[1].y), (0, 0));
    assert_eq!(spans[1].text, "hi");
}

#[test]
fn width_measurement() {
    let mut store = LogStore::new();
    store.append(line(&["abcde"]));
    store.append(line(&["abcdefg"]));
    let view = FlexiLoggerView::new();
    assert_eq!(view.required_size(&store, 3, 1), (7, 2));
    assert_eq!(view.required_size(&store, 10, 99), (10, 99));
}

#[test]
fn width_counts_widest_message_row() {
    let mut store = LogStore::new();
    store.append(line(&["ab", "x\nlonger row\nyz"]));
    let view = FlexiLoggerView::new();
    let (w, h) = view.required_size(&store, 0, 0);
    assert_eq!(w, 12);
    assert_eq!(h, 3);
}

#[test]
fn wide_characters_measured_by_display_width() {
    let mut store = LogStore::new();
    store.append(line(&["あい"]));
    let view = FlexiLoggerView::new();
    let (w, h) = view.required_size(&store, 0, 0);
    assert_eq!((w, h), (4, 1));

    let mut store = LogStore::new();
    store.append(line(&["あ", "x\ny"]));
    let spans = view.draw(&store, 5);
    assert_eq!(spans.len(), 3);
    assert_eq!((spans[1].x, spans[1].y), (2, 0));
    assert_eq!((spans[2].x, spans[2].y), (2, 1));
}

#[test]
fn indent_toggle() {
    let mut store = LogStore::new();
    store.append(line(&["0123456789", "first\nsecond"]));

    let view = FlexiLoggerView::new();
    let spans = view.draw(&store, 10);
    assert_eq!(spans.len(), 3);
    assert_eq!((spans[0].x, spans[0].y), (0, 0));
    assert_eq!(spans[0].text, "0123456789");
    assert_eq!((spans[1].x, spans[1].y), (10, 0));
    assert_eq!(spans[1].text, "first");
    assert_eq!((spans[2].x, spans[2].y), (10, 1));
    assert_eq!(spans[2].text, "second");

    let view = view.no_indent();
    let spans = view.draw(&store, 10);
    assert_eq!((spans[1].x, spans[1].y), (10, 0));
    assert_eq!((spans[2].x, spans[2].y), (0, 1));

    let view = view.indent();
    let spans = view.draw(&store, 10);
    assert_eq!((spans[2].x, spans[2].y), (10, 1));
}

#[test]
fn oldest_lines_trimmed_to_viewport() {
    let mut store = LogStore::new();
    store.append(line(&["one"]));
    store.append(line(&["two"]));
    store.append(line(&["three"]));
    let view = FlexiLoggerView::new();
    let spans = view.draw(&store, 2);
    assert_eq!(spans.len(), 2);
    assert_eq!(spans[0].text, "two");
    assert_eq!((spans[0].x, spans[0].y), (0, 0));
    assert_eq!(spans[1].text, "three");
    assert_eq!((spans[1].x, spans[1].y), (0, 1));
}

#[test]
fn trimming_counts_lines_not_rows() {
    let mut store = LogStore::new();
    store.append(line(&["one"]));
    store.append(line(&["a\nb\nc"]));
    let view = FlexiLoggerView::new();
    let spans = view.draw(&store, 1);
    assert_eq!(spans.len(), 3);
    assert_eq!(spans[0].text, "a");
    assert_eq!((spans[0].y, spans[1].y, spans[2].y), (0, 1, 2));
}

#[test]
fn idempotent_sizing() {
    let mut store = LogStore::new();
    store.append(line(&["ab", "c\nd"]));
    store.append(line(&["wider line here"]));
    let view = FlexiLoggerView::new();
    let first = view.required_size(&store, 4, 2);
    let second = view.required_size(&store, 4, 2);
    assert_eq!(first, second);
}

#[test]
fn warn_scenario_rendering() {
    let rec = LogRecord {
        level: RecordLevel::Warn,
        message: "disk at 92%\nretry in 5s".to_string(),
        file: None,
        line: None,
        thread_name: Some("worker".to_string()),
        time: TimeOfDay { hour: 13, minute: 5, second: 7, millisecond: 42 },
    };
    let mut store = LogStore::new();
    store.append(format_record(&rec));

    let view = FlexiLoggerView::new();
    let spans = view.draw(&store, 5);
    let mut row0 = String::new();
    for s in spans.iter().filter(|s| s.y == 0) {
        row0.push_str(&s.text);
    }
    assert_eq!(row0, "13:05:07.042 [worker] WARN <(unnamed):0> disk at 92%");

    let row1: Vec<_> = spans.iter().filter(|s| s.y == 1).collect();
    assert_eq!(row1.len(), 1);
    assert_eq!(row1[0].text, "retry in 5s");
    // The column right after " <(unnamed):0> ": 12 + 10 + 4 + 15.
    assert_eq!(row1[0].x, 41);

    let view = view.no_indent();
    let spans = view.draw(&store, 5);
    let row1: Vec<_> = spans.iter().filter(|s| s.y == 1).collect();
    assert_eq!(row1[0].x, 0);
}
