use grade_p::log::{log_file_path, LogEntry, LogLevel};

#[test]
fn entry_line_format() {
    let e = LogEntry {
        timestamp: "2024-01-02 03:04:05.006".to_string(),
        level: LogLevel::WARNING,
        sender: "interface:udp".to_string(),
        message: "Timeout".to_string(),
    };
    assert_eq!(e.to_string(), "[2024-01-02 03:04:05.006] [WARNING] [interface:udp]: Timeout");
}

#[test]
fn new_entry_keeps_its_parts_and_is_stamped() {
    let e = LogEntry::new(LogLevel::ERR, "me".to_string(), "hello".to_string());
    assert_eq!(e.level, LogLevel::ERR);
    assert_eq!(e.sender, "me");
    assert_eq!(e.message, "hello");
    assert!(!e.timestamp.is_empty());
    assert!(e.to_string().ends_with("] [ERR] [me]: hello"));
}

#[test]
fn level_names_and_ranks() {
    assert_eq!(LogLevel::EMERG.name(), "EMERG");
    assert_eq!(LogLevel::TRACE.name(), "TRACE");
    assert_eq!(LogLevel::EMERG.rank(), 0);
    assert_eq!(LogLevel::ERR.rank(), 3);
    assert_eq!(LogLevel::TRACE.rank(), 8);
}

#[test]
fn level_passes_threshold() {
    assert!(LogLevel::ERR.passes(LogLevel::ERR));
    assert!(LogLevel::EMERG.passes(LogLevel::INFO));
    assert!(!LogLevel::DEBUG.passes(LogLevel::INFO));
}

#[test]
fn log_file_path_layout() {
    assert_eq!(log_file_path("/var/log", "1700000000"), "/var/log/log_grade_p_1700000000.log");
}
