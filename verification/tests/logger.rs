use tiny_ai_shell::logger::{
    action_label, append_entry, days_to_ymd, format_timestamp, history_path, record, LogContext,
    LogEntry, LoggedAction, MAX_ENTRIES,
};

#[test]
fn test_format_timestamp_known_date() {
    // 2024-01-15T10:30:00Z = 1705314600
    assert_eq!(format_timestamp(1705314600), "2024-01-15T10:30:00Z");
}

#[test]
fn test_format_timestamp_epoch() {
    assert_eq!(format_timestamp(0), "1970-01-01T00:00:00Z");
}

#[test]
fn format_timestamp_leap_day_and_year_end() {
    // 2024-02-29T12:00:00Z
    assert_eq!(format_timestamp(1709208000), "2024-02-29T12:00:00Z");
    // 1999-12-31T23:59:59Z
    assert_eq!(format_timestamp(946684799), "1999-12-31T23:59:59Z");
    // 2000-03-01T00:00:00Z
    assert_eq!(format_timestamp(951868800), "2000-03-01T00:00:00Z");
}

#[test]
fn days_to_ymd_values() {
    assert_eq!(days_to_ymd(0), (1970, 1, 1));
    assert_eq!(days_to_ymd(59), (1970, 3, 1));
    assert_eq!(days_to_ymd(19737), (2024, 1, 15));
    assert_eq!(days_to_ymd(2932896), (9999, 12, 31));
    assert_eq!(days_to_ymd(2932897), (10000, 1, 1));
}

fn entry(ts: String, input: &str, command: &str, action: &str, exit_code: Option<i32>, pwd: &str) -> LogEntry {
    LogEntry {
        timestamp: ts,
        input: input.to_string(),
        command: command.to_string(),
        action: action.to_string(),
        exit_code,
        context: LogContext {
            pwd: pwd.to_string(),
            os: "linux".to_string(),
        },
    }
}

#[test]
fn test_rotation_at_1000() {
    let mut entries: Vec<LogEntry> = (0..MAX_ENTRIES)
        .map(|i| entry(format!("2024-01-01T00:00:{:02}Z", i % 60), "x", "ls", "cancelled", None, "/"))
        .collect();

    append_entry(
        &mut entries,
        entry("2024-12-31T23:59:59Z".to_string(), "new", "pwd", "executed", Some(0), "/home"),
    );

    assert_eq!(entries.len(), MAX_ENTRIES);
    assert_eq!(entries.last().unwrap().action, "executed");
}

#[test]
fn rotation_drops_oldest_only() {
    let mut entries: Vec<LogEntry> = (0..MAX_ENTRIES)
        .map(|i| entry(format!("{}", i), "x", "ls", "cancelled", None, "/"))
        .collect();
    append_entry(&mut entries, entry("new".to_string(), "y", "pwd", "executed", Some(0), "/"));
    assert_eq!(entries[0].timestamp, "1");
    assert_eq!(entries[MAX_ENTRIES - 2].timestamp, "999");
    let mut few = vec![entry("a".to_string(), "x", "ls", "copied", None, "/")];
    append_entry(&mut few, entry("b".to_string(), "x", "ls", "copied", None, "/"));
    assert_eq!(few.len(), 2);
    assert_eq!(few[0].timestamp, "a");
}

#[test]
fn record_builds_entry() {
    let mut history = Vec::new();
    record(&mut history, 1705314600, "list files", "ls -la", "executed", Some(0), "/home/user", "linux");
    assert_eq!(history.len(), 1);
    let e = &history[0];
    assert_eq!(e.timestamp, "2024-01-15T10:30:00Z");
    assert_eq!(e.input, "list files");
    assert_eq!(e.command, "ls -la");
    assert_eq!(e.action, "executed");
    assert_eq!(e.exit_code, Some(0));
    assert_eq!(e.context.pwd, "/home/user");
    assert_eq!(e.context.os, "linux");
}

#[test]
fn history_file_location() {
    assert_eq!(history_path(Some("/home/u".to_string())), "/home/u/.local/share/ta/history.json");
    assert_eq!(history_path(Some("/".to_string())), "/.local/share/ta/history.json");
    assert_eq!(history_path(None), "./.local/share/ta/history.json");
}

#[test]
fn action_labels() {
    assert_eq!(action_label(LoggedAction::DryRun), "dry-run");
    assert_eq!(action_label(LoggedAction::Executed), "executed");
    assert_eq!(action_label(LoggedAction::Cancelled), "cancelled");
    assert_eq!(action_label(LoggedAction::Copied), "copied");
}

#[test]
fn next_day_number_is_next_date() {
    // 2024-02-28, 2024-02-29, 2024-03-01
    assert_eq!(days_to_ymd(19781), (2024, 2, 28));
    assert_eq!(days_to_ymd(19782), (2024, 2, 29));
    assert_eq!(days_to_ymd(19783), (2024, 3, 1));
    // 2023-02-28 is followed by 2023-03-01
    assert_eq!(days_to_ymd(19416), (2023, 2, 28));
    assert_eq!(days_to_ymd(19417), (2023, 3, 1));
    // 1999-12-31 is followed by 2000-01-01
    assert_eq!(days_to_ymd(10956), (1999, 12, 31));
    assert_eq!(days_to_ymd(10957), (2000, 1, 1));
    // 2100 is not a leap year
    assert_eq!(days_to_ymd(47540), (2100, 2, 28));
    assert_eq!(days_to_ymd(47541), (2100, 3, 1));
}

#[test]
fn timestamps_sort_as_instants() {
    let times: Vec<u64> = vec![0, 59, 60, 3599, 3600, 86399, 86400, 946684799, 946684800, 1705314600, 253402300799];
    let texts: Vec<String> = times.iter().map(|&t| format_timestamp(t)).collect();
    for w in texts.windows(2) {
        assert!(w[0] < w[1]);
    }
    assert_eq!(format_timestamp(253402300799), "9999-12-31T23:59:59Z");
    for t in &texts {
        assert_eq!(t.len(), 20);
    }
}

#[test]
fn long_history_still_records() {
    let mut history: Vec<LogEntry> = (0..MAX_ENTRIES + 5)
        .map(|i| LogEntry {
            timestamp: format!("{}", i),
            input: "x".to_string(),
            command: "ls".to_string(),
            action: "cancelled".to_string(),
            exit_code: None,
            context: LogContext { pwd: "/".to_string(), os: "linux".to_string() },
        })
        .collect();
    record(&mut history, 0, "new", "pwd", "executed", Some(0), "/", "linux");
    assert_eq!(history.len(), MAX_ENTRIES);
    assert_eq!(history[0].timestamp, "6");
    assert_eq!(history[MAX_ENTRIES - 2].timestamp, format!("{}", MAX_ENTRIES + 4));
    assert_eq!(history[MAX_ENTRIES - 1].input, "new");
    assert_eq!(history[MAX_ENTRIES - 1].timestamp, "1970-01-01T00:00:00Z");
}
