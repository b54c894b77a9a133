use polymarket_hft::logger::format_log_line;
use polymarket_hft::signals::{LogEvent, LogLevel};

#[test]
fn log_lines() {
    let ev = LogEvent {
        level: LogLevel::Info,
        module: "test",
        message: "hello".into(),
        fields: vec![("key".into(), "val".into())],
        timestamp_ms: 12345,
    };
    assert_eq!(format_log_line(&ev), "12345 [INFO] test hello key=val");
    let ev = LogEvent {
        level: LogLevel::Error,
        module: "test",
        message: "error!".into(),
        fields: vec![],
        timestamp_ms: 12346,
    };
    assert_eq!(format_log_line(&ev), "12346 [ERROR] test error!");
    let ev = LogEvent {
        level: LogLevel::Warning,
        module: "exec",
        message: "m".into(),
        fields: vec![("a".into(), "1".into()), ("b".into(), "2".into())],
        timestamp_ms: 0,
    };
    assert_eq!(format_log_line(&ev), "0 [WARN] exec m a=1 b=2");
    let ev = LogEvent {
        level: LogLevel::Debug,
        module: "x",
        message: String::new(),
        fields: vec![],
        timestamp_ms: u64::MAX,
    };
    assert_eq!(format_log_line(&ev), "18446744073709551615 [DEBUG] x ");
}
