use cursive_flexi_logger_view::formatter::{
    dec_string, format_record, time_string, LogRecord, RecordLevel, TimeOfDay,
};
use cursive_flexi_logger_view::{Style, TextColor};

fn record(level: RecordLevel) -> LogRecord {
    LogRecord {
        level,
        message: "hello".to_string(),
        file: Some("src/main.rs".to_string()),
        line: Some(47),
        thread_name: Some("main".to_string()),
        time: TimeOfDay { hour: 13, minute: 5, second: 7, millisecond: 42 },
    }
}

#[test]
fn segment_order_and_contents() {
    let line = format_record(&record(RecordLevel::Debug));
    assert_eq!(line.segments.len(), 5);
    assert_eq!(line.segments[0].text, "13:05:07.042");
    assert_eq!(line.segments[1].text, " [main] ");
    assert_eq!(line.segments[2].text, "DEBUG");
    assert_eq!(line.segments[3].text, " <src/main.rs:47> ");
    assert_eq!(line.segments[4].text, "hello");
}

#[test]
fn level_colors_and_names() {
    let cases = [
        (RecordLevel::Trace, "TRACE", TextColor::Green),
        (RecordLevel::Debug, "DEBUG", TextColor::Cyan),
        (RecordLevel::Info, "INFO", TextColor::Blue),
        (RecordLevel::Warn, "WARN", TextColor::Yellow),
        (RecordLevel::Error, "ERROR", TextColor::Red),
    ];
    for (level, name, color) in cases {
        let line = format_record(&record(level));
        assert_eq!(line.segments[2].text, name);
        assert_eq!(line.segments[0].style, Style::Dark(color));
        assert_eq!(line.segments[1].style, Style::Plain);
        assert_eq!(line.segments[2].style, Style::Dark(color));
        assert_eq!(line.segments[3].style, Style::Plain);
        assert_eq!(line.segments[4].style, Style::Dark(color));
    }
}

#[test]
fn missing_fields_fall_back_to_placeholders() {
    let rec = LogRecord {
        level: RecordLevel::Warn,
        message: "disk at 92%\nretry in 5s".to_string(),
        file: None,
        line: None,
        thread_name: None,
        time: TimeOfDay { hour: 0, minute: 0, second: 0, millisecond: 0 },
    };
    let line = format_record(&rec);
    assert_eq!(line.segments[0].text, "00:00:00.000");
    assert_eq!(line.segments[1].text, " [(unnamed)] ");
    assert_eq!(line.segments[3].text, " <(unnamed):0> ");
    assert_eq!(line.segments[4].text, "disk at 92%\nretry in 5s");
}

#[test]
fn message_kept_verbatim() {
    let mut rec = record(RecordLevel::Info);
    rec.message = "a\n\nb\n".to_string();
    let line = format_record(&rec);
    assert_eq!(line.segments[4].text, "a\n\nb\n");
}

#[test]
fn timestamp_padding() {
    let t = TimeOfDay { hour: 23, minute: 59, second: 59, millisecond: 999 };
    assert_eq!(time_string(&t), "23:59:59.999");
    let t = TimeOfDay { hour: 1, minute: 2, second: 3, millisecond: 4 };
    assert_eq!(time_string(&t), "01:02:03.004");
}

#[test]
fn decimal_digits() {
    assert_eq!(dec_string(0), "0");
    assert_eq!(dec_string(7), "7");
    assert_eq!(dec_string(47), "47");
    assert_eq!(dec_string(1024), "1024");
    assert_eq!(dec_string(u32::MAX), "4294967295");
}
