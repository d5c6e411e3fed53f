use cursive_flexi_logger_view::formatter::{LogRecord, RecordLevel, TimeOfDay};
use cursive_flexi_logger_view::{cursive_flexi_logger, LogStore, WriteError};

fn record(message: &str) -> LogRecord {
    LogRecord {
        level: RecordLevel::Info,
        message: message.to_string(),
        file: Some("lib.rs".to_string()),
        line: Some(1),
        thread_name: Some("worker".to_string()),
        time: TimeOfDay { hour: 10, minute: 20, second: 30, millisecond: 400 },
    }
}

#[test]
fn write_stores_and_notifies() {
    let siv = cursive_core::Cursive::new();
    let writer = cursive_flexi_logger(&siv);
    let mut store = LogStore::new();
    assert_eq!(writer.write(&mut store, &record("first")), Ok(()));
    assert_eq!(store.len(), 1);
    let line = store.line_at(0).unwrap();
    assert_eq!(line.segments[4].text, "first");
}

#[test]
fn notifier_failure_does_not_block_storage() {
    let siv = cursive_core::Cursive::new();
    let writer = cursive_flexi_logger(&siv);
    let mut store = LogStore::new();
    assert_eq!(writer.write(&mut store, &record("while alive")), Ok(()));
    assert_eq!(store.len(), 1);

    drop(siv);

    assert_eq!(
        writer.write(&mut store, &record("after close")),
        Err(WriteError::SinkClosed)
    );
    assert_eq!(store.len(), 2);
    assert_eq!(store.line_at(1).unwrap().segments[4].text, "after close");

    assert_eq!(
        writer.write(&mut store, &record("still failing")),
        Err(WriteError::SinkClosed)
    );
    assert_eq!(store.len(), 3);
    assert_eq!(store.line_at(2).unwrap().segments[4].text, "still failing");
}

#[test]
fn flush_never_fails() {
    let siv = cursive_core::Cursive::new();
    let writer = cursive_flexi_logger(&siv);
    assert_eq!(writer.flush(), Ok(()));
    drop(siv);
    assert_eq!(writer.flush(), Ok(()));
}
