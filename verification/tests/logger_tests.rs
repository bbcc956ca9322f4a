use gearbox_core::logger::LogEntry;
use gearbox_core::logger::LogFilter;
use gearbox_core::logger::LoggerState;
use gearbox_core::logger::logs_to_csv;

fn entry(id: &str, ts: &str, level: &str, message: &str, target: &str) -> LogEntry {
    LogEntry {
        id: id.to_string(),
        timestamp: ts.to_string(),
        level: level.to_string(),
        message: message.to_string(),
        target: target.to_string(),
        file: None,
        line: None,
    }
}

fn no_filter() -> LogFilter {
    LogFilter { level: None, target: None, search: None, limit: None }
}

#[test]
fn get_logs_returns_newest_first() {
    let mut s = LoggerState::new(100);
    s.add_log(entry("1", "t1", "INFO", "first", "app"));
    s.add_log(entry("2", "t2", "INFO", "second", "app"));
    s.add_log(entry("3", "t3", "INFO", "third", "app"));
    let logs = s.get_logs(None);
    assert_eq!(logs.len(), 3);
    assert_eq!(logs[0].message, "third");
    assert_eq!(logs[1].message, "second");
    assert_eq!(logs[2].message, "first");
}

#[test]
fn capacity_evicts_oldest() {
    let mut s = LoggerState::new(3);
    for i in 0..5 {
        s.add_log(entry(&format!("{}", i), "t", "INFO", &format!("m{}", i), "app"));
    }
    let logs = s.get_logs(None);
    assert_eq!(logs.len(), 3);
    assert_eq!(logs[0].message, "m4");
    assert_eq!(logs[2].message, "m2");
}

#[test]
fn filter_by_level_is_exact() {
    let mut s = LoggerState::new(100);
    s.add_log(entry("1", "t", "INFO", "a", "app"));
    s.add_log(entry("2", "t", "ERROR", "b", "app"));
    s.add_log(entry("3", "t", "INFO", "c", "app"));
    let mut f = no_filter();
    f.level = Some("ERROR".to_string());
    let logs = s.get_logs(Some(f));
    assert_eq!(logs.len(), 1);
    assert_eq!(logs[0].message, "b");
}

#[test]
fn filter_by_target_is_substring() {
    let mut s = LoggerState::new(100);
    s.add_log(entry("1", "t", "INFO", "a", "core::session"));
    s.add_log(entry("2", "t", "INFO", "b", "ui::panel"));
    let mut f = no_filter();
    f.target = Some("session".to_string());
    let logs = s.get_logs(Some(f));
    assert_eq!(logs.len(), 1);
    assert_eq!(logs[0].message, "a");
}

#[test]
fn search_is_case_insensitive_over_message_and_target() {
    let mut s = LoggerState::new(100);
    s.add_log(entry("1", "t", "INFO", "Hello World", "app"));
    s.add_log(entry("2", "t", "INFO", "nothing", "NETWORK"));
    s.add_log(entry("3", "t", "INFO", "quiet", "app"));
    let mut f = no_filter();
    f.search = Some("hello".to_string());
    let logs = s.get_logs(Some(f));
    assert_eq!(logs.len(), 1);
    assert_eq!(logs[0].message, "Hello World");

    let mut f = no_filter();
    f.search = Some("network".to_string());
    let logs = s.get_logs(Some(f));
    assert_eq!(logs.len(), 1);
    assert_eq!(logs[0].message, "nothing");
}

#[test]
fn limit_keeps_the_oldest_passing_entries() {
    let mut s = LoggerState::new(100);
    for i in 0..4 {
        s.add_log(entry(&format!("{}", i), "t", "INFO", &format!("m{}", i), "app"));
    }
    let mut f = no_filter();
    f.limit = Some(2);
    let logs = s.get_logs(Some(f));
    assert_eq!(logs.len(), 2);
    // The cut is applied before the newest-first ordering.
    assert_eq!(logs[0].message, "m1");
    assert_eq!(logs[1].message, "m0");
}

#[test]
fn clear_logs_empties_the_buffer() {
    let mut s = LoggerState::new(100);
    s.add_log(entry("1", "t", "INFO", "a", "app"));
    s.clear_logs();
    assert!(s.get_logs(None).is_empty());
}

#[test]
fn record_stamps_fresh_entries() {
    let mut s = LoggerState::new(100);
    s.record("WARN".to_string(), "careful".to_string(), "app".to_string());
    let logs = s.get_logs(None);
    assert_eq!(logs.len(), 1);
    assert_eq!(logs[0].level, "WARN");
    assert_eq!(logs[0].message, "careful");
    assert_eq!(logs[0].target, "app");
    assert!(!logs[0].id.is_empty());
    assert!(logs[0].timestamp.len() >= 19);
}

#[test]
fn csv_export_formats_and_escapes() {
    let logs = vec![
        entry("1", "2024-01-02T03:04:05.123456+00:00", "INFO", "plain", "app"),
        entry("2", "2024-01-02T03:04:06.000000+00:00", "WARN", "say \"hi\"", "net"),
    ];
    let csv = logs_to_csv(&logs);
    let lines: Vec<&str> = csv.lines().collect();
    assert_eq!(lines[0], "timestamp,level,target,message");
    assert_eq!(lines[1], "2024-01-02 03:04:05 UTC,INFO,app,\"plain\"");
    assert_eq!(lines[2], "2024-01-02 03:04:06 UTC,WARN,net,\"say \"\"hi\"\"\"");
}

#[test]
fn csv_export_of_nothing_is_only_the_header() {
    let logs: Vec<LogEntry> = vec![];
    assert_eq!(logs_to_csv(&logs), "timestamp,level,target,message\n");
}

#[test]
fn csv_export_keeps_short_timestamps_whole() {
    let logs = vec![entry("1", "soon", "INFO", "m", "app")];
    let csv = logs_to_csv(&logs);
    assert!(csv.contains("soon UTC,INFO,app,\"m\""));
}
