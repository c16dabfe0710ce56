use kiorg::visit_history::{
    load_visit_history, parse_visit_history, serialize_visit_history, update_visit_history,
    HistoryFile, VisitHistory, VisitHistoryEntry, VisitHistoryError,
};
use std::time::{SystemTime, UNIX_EPOCH};

fn s(x: &str) -> String {
    x.to_string()
}

fn entry(path: &str, accessed_ts: u64, count: u64) -> VisitHistoryEntry {
    VisitHistoryEntry { path: s(path), accessed_ts, count }
}

fn now_secs() -> u64 {
    SystemTime::now().duration_since(UNIX_EPOCH).unwrap().as_secs()
}

fn load_content(content: &str) -> Result<VisitHistory, VisitHistoryError> {
    load_visit_history(HistoryFile::Content(s(content)))
}

#[test]
fn test_load_visit_history_from_empty_directory() {
    let history = load_visit_history(HistoryFile::Missing).unwrap();
    assert!(history.is_empty());
}

#[test]
fn test_load_visit_history_with_valid_csv() {
    let csv_content = r#"path,accessed_ts,count
/home/user/documents,1640995200,5
/home/user/downloads,1640995300,2
/var/log,1640995400,1
"#;
    let history = load_content(csv_content).unwrap();

    assert_eq!(history.len(), 3);

    let documents_entry = history.get(&s("/home/user/documents"));
    assert!(documents_entry.is_some());
    let e = documents_entry.unwrap();
    assert_eq!(e.path, s("/home/user/documents"));
    assert_eq!(e.accessed_ts, 1640995200);
    assert_eq!(e.count, 5);

    let downloads_entry = history.get(&s("/home/user/downloads"));
    assert!(downloads_entry.is_some());
    let e = downloads_entry.unwrap();
    assert_eq!(e.path, s("/home/user/downloads"));
    assert_eq!(e.accessed_ts, 1640995300);
    assert_eq!(e.count, 2);

    let log_entry = history.get(&s("/var/log"));
    assert!(log_entry.is_some());
    let e = log_entry.unwrap();
    assert_eq!(e.path, s("/var/log"));
    assert_eq!(e.accessed_ts, 1640995400);
    assert_eq!(e.count, 1);
}

#[test]
fn test_load_visit_history_with_malformed_csv() {
    let csv_content = r#"path,accessed_ts,count
/home/user/documents,1640995200,5
invalid_line_with_only_two,fields
"#;
    let result = load_content(csv_content);
    assert!(result.is_err());
    let error_msg = result.err().unwrap().message();
    assert!(error_msg.contains("Invalid CSV format at line 2"));
    assert!(error_msg.contains("expected at least 3 fields, found 2"));
}

#[test]
fn test_load_visit_history_with_invalid_timestamp() {
    let csv_content = r#"path,accessed_ts,count
/home/user/documents,not_a_number,5
"#;
    let result = load_content(csv_content);
    assert!(result.is_err());
    let error_msg = result.err().unwrap().message();
    assert!(error_msg.contains("Invalid timestamp at line 1"));
    assert!(error_msg.contains("not_a_number"));
}

#[test]
fn test_load_visit_history_with_invalid_count() {
    let csv_content = r#"path,accessed_ts,count
/home/user/documents,1640995200,not_a_number
"#;
    let result = load_content(csv_content);
    assert!(result.is_err());
    let error_msg = result.err().unwrap().message();
    assert!(error_msg.contains("Invalid count at line 1"));
    assert!(error_msg.contains("not_a_number"));
}

#[test]
fn test_load_visit_history_with_empty_csv() {
    let history = load_content("path,accessed_ts,count\n").unwrap();
    assert!(history.is_empty());
}

#[test]
fn test_load_visit_history_with_empty_lines() {
    let csv_content = r#"path,accessed_ts,count
/home/user/documents,1640995200,5

/home/user/downloads,1640995300,2
"#;
    let history = load_content(csv_content).unwrap();
    assert_eq!(history.len(), 2);
    assert!(history.contains_key(&s("/home/user/documents")));
    assert!(history.contains_key(&s("/home/user/downloads")));
}

#[test]
fn test_save_visit_history_writes_correct_format() {
    let mut history = VisitHistory::new();
    history.insert(entry("/home/user/documents", 1640995200, 5));
    history.insert(entry("/home/user/downloads", 1640995300, 2));

    let content = serialize_visit_history(&history);

    assert!(content.starts_with("path,accessed_ts,count\n"));
    assert!(content.contains("/home/user/documents,1640995200,5"));
    assert!(content.contains("/home/user/downloads,1640995300,2"));
}

#[test]
fn test_save_empty_visit_history() {
    let history = VisitHistory::new();
    let content = serialize_visit_history(&history);
    assert_eq!(content, "path,accessed_ts,count\n");
}

#[test]
fn test_update_visit_history_new_entry() {
    let mut history = VisitHistory::new();
    let test_path = s("/test/new/path");

    let before_time = now_secs();
    update_visit_history(&mut history, &test_path, now_secs());
    let after_time = now_secs();

    assert_eq!(history.len(), 1);
    let e = history.get(&test_path).unwrap();
    assert_eq!(e.path, test_path);
    assert_eq!(e.count, 1);
    assert!(e.accessed_ts >= before_time);
    assert!(e.accessed_ts <= after_time);
}

#[test]
fn test_update_visit_history_existing_entry() {
    let mut history = VisitHistory::new();
    let test_path = s("/test/existing/path");
    history.insert(entry("/test/existing/path", 1640995200, 3));

    let before_time = now_secs();
    update_visit_history(&mut history, &test_path, now_secs());
    let after_time = now_secs();

    assert_eq!(history.len(), 1);
    let e = history.get(&test_path).unwrap();
    assert_eq!(e.path, test_path);
    assert_eq!(e.count, 4);
    assert!(e.accessed_ts >= before_time);
    assert!(e.accessed_ts <= after_time);
    assert!(e.accessed_ts > 1640995200);
}

#[test]
fn test_update_visit_history_multiple_updates() {
    let mut history = VisitHistory::new();
    let test_path = s("/test/multi/path");

    update_visit_history(&mut history, &test_path, now_secs());
    update_visit_history(&mut history, &test_path, now_secs());
    update_visit_history(&mut history, &test_path, now_secs());

    assert_eq!(history.len(), 1);
    let e = history.get(&test_path).unwrap();
    assert_eq!(e.count, 3);
}

#[test]
fn test_roundtrip_save_and_load() {
    let mut saved = VisitHistory::new();
    saved.insert(entry("/home/user/documents", 1640995200, 5));
    saved.insert(entry("/home/user/downloads", 1640995300, 2));

    let content = serialize_visit_history(&saved);
    let loaded = load_content(&content).unwrap();

    assert_eq!(loaded.len(), saved.len());
    for saved_entry in saved.entries() {
        let loaded_entry = loaded.get(&saved_entry.path).unwrap();
        assert_eq!(loaded_entry.path, saved_entry.path);
        assert_eq!(loaded_entry.accessed_ts, saved_entry.accessed_ts);
        assert_eq!(loaded_entry.count, saved_entry.count);
    }
}

#[test]
fn test_paths_with_special_characters() {
    let paths = vec![
        s("/path with spaces"),
        s("/path/with/unicode/\u{6587}\u{6863}"),
        s("/path_with_underscores"),
        s("/path-with-dashes"),
        s("/path,with,commas"),
    ];
    let mut history = VisitHistory::new();
    for (i, path) in paths.iter().enumerate() {
        history.insert(VisitHistoryEntry {
            path: path.clone(),
            accessed_ts: 1640995200 + i as u64,
            count: i as u64 + 1,
        });
    }

    let content = serialize_visit_history(&history);
    let loaded = load_content(&content).unwrap();

    assert_eq!(loaded.len(), paths.len());
    for path in &paths {
        assert!(loaded.contains_key(path));
    }
}

#[test]
fn test_paths_with_csv_problematic_characters() {
    let problematic_path = s("/path,with,commas");
    let mut history = VisitHistory::new();
    history.insert(entry("/path,with,commas", 1640995200, 1));

    let content = serialize_visit_history(&history);
    let loaded = load_content(&content).unwrap();

    assert_eq!(loaded.len(), 1);
    assert!(loaded.contains_key(&problematic_path));
    let loaded_entry = loaded.get(&problematic_path).unwrap();
    assert_eq!(loaded_entry.path, problematic_path);
    assert_eq!(loaded_entry.accessed_ts, 1640995200);
    assert_eq!(loaded_entry.count, 1);
}

#[test]
fn test_load_visit_history_handles_read_error() {
    // No history file in a directory that does not exist: an empty history.
    let history = load_visit_history(HistoryFile::Missing).unwrap();
    assert!(history.is_empty());
}

#[test]
fn test_load_visit_history_handles_file_read_error() {
    // The history file is a directory: reading it fails.
    let result = load_visit_history(HistoryFile::Unreadable(s("Is a directory (os error 21)")));
    assert!(result.is_err());
}

#[test]
fn test_paths_with_multiple_commas() {
    let paths = vec![
        ("/path,with,multiple,commas", 1640995200u64, 5u64),
        ("/single,comma", 1640995300, 2),
        ("/path,with,commas,in,dir,names/file", 1640995400, 1),
        ("/no/commas/here", 1640995500, 3),
        ("/path,with,trailing,comma,", 1640995600, 7),
    ];
    let mut history = VisitHistory::new();
    for (p, ts, count) in &paths {
        history.insert(entry(p, *ts, *count));
    }

    let content = serialize_visit_history(&history);
    let loaded = load_content(&content).unwrap();

    assert_eq!(loaded.len(), paths.len());
    for (p, expected_ts, expected_count) in &paths {
        let loaded_entry = loaded.get(&s(p)).unwrap();
        assert_eq!(loaded_entry.path, s(p));
        assert_eq!(loaded_entry.accessed_ts, *expected_ts);
        assert_eq!(loaded_entry.count, *expected_count);
    }
}

#[test]
fn test_edge_cases_csv_parsing() {
    let result = load_content("path,accessed_ts,count\nsingle_field\n");
    assert!(result.is_err());
    let error_msg = result.err().unwrap().message();
    assert!(error_msg.contains("expected at least 3 fields, found 1"));

    let result = load_content("path,accessed_ts,count\n/simple/path,1640995200,5\n");
    assert!(result.is_ok());
    let history = result.ok().unwrap();
    assert_eq!(history.len(), 1);
    assert!(history.contains_key(&s("/simple/path")));

    let result = load_content("path,accessed_ts,count\n/path,with,many,commas,in,it,1640995200,5\n");
    assert!(result.is_ok());
    let history = result.ok().unwrap();
    assert_eq!(history.len(), 1);
    assert!(history.contains_key(&s("/path,with,many,commas,in,it")));
    let e = history.get(&s("/path,with,many,commas,in,it")).unwrap();
    assert_eq!(e.accessed_ts, 1640995200);
    assert_eq!(e.count, 5);
}

// ---------------------------------------------------------- further cases

#[test]
fn error_messages_name_line_and_value() {
    let e = parse_visit_history("h\n/a,x,1\n").err().unwrap();
    assert_eq!(e.message(), "Invalid timestamp at line 1: x");
    let e = parse_visit_history("h\n/a,1,2\n/b,3,y\n").err().unwrap();
    assert_eq!(e.message(), "Invalid count at line 2: y");
    let e = parse_visit_history("h\n/a\n").err().unwrap();
    assert_eq!(e.message(), "Invalid CSV format at line 1: expected at least 3 fields, found 1");
    let e = load_visit_history(HistoryFile::Unreadable(s("denied"))).err().unwrap();
    assert_eq!(e.message(), "Failed to read visit history: denied");
}

#[test]
fn first_bad_line_is_reported() {
    let e = parse_visit_history("h\n/a,1\n/b,x,1\n").err().unwrap();
    assert!(matches!(e, VisitHistoryError::InvalidFormat { line: 1, found: 2 }));
}

#[test]
fn numbers_are_read_as_u64_from_str_reads_them() {
    let h = parse_visit_history("h\n/a,+7,0\n").ok().unwrap();
    let e = h.get(&s("/a")).unwrap();
    assert_eq!(e.accessed_ts, 7);
    assert_eq!(e.count, 0);
    assert!(parse_visit_history("h\n/a,18446744073709551616,1\n").is_err());
    assert!(parse_visit_history("h\n/a, 1,1\n").is_err());
    assert!(parse_visit_history("h\n/a,,1\n").is_err());
    let h = parse_visit_history("h\n/a,18446744073709551615,1\n").ok().unwrap();
    assert_eq!(h.get(&s("/a")).unwrap().accessed_ts, u64::MAX);
}

#[test]
fn later_line_of_a_path_wins_and_crlf_is_accepted() {
    let h = parse_visit_history("h\r\n/a,1,1\r\n/a,2,9\r\n").ok().unwrap();
    assert_eq!(h.len(), 1);
    let e = h.get(&s("/a")).unwrap();
    assert_eq!(e.accessed_ts, 2);
    assert_eq!(e.count, 9);
}

#[test]
fn empty_content_is_an_empty_history() {
    assert!(parse_visit_history("").ok().unwrap().is_empty());
}

#[test]
fn serialized_rows_follow_the_header() {
    let mut h = VisitHistory::new();
    h.insert(entry("/x,y", 10, 0));
    assert_eq!(serialize_visit_history(&h), "path,accessed_ts,count\n/x,y,10,0\n");
}

#[test]
fn insert_replaces_and_remove_drops() {
    let mut h = VisitHistory::new();
    h.insert(entry("/a", 1, 1));
    h.insert(entry("/a", 5, 6));
    assert_eq!(h.len(), 1);
    assert_eq!(h.get(&s("/a")).unwrap().count, 6);
    let r = h.remove(&s("/a")).unwrap();
    assert_eq!(r.accessed_ts, 5);
    assert!(h.is_empty());
    assert!(h.remove(&s("/a")).is_none());
}

#[test]
fn visit_count_saturates() {
    let mut h = VisitHistory::new();
    h.insert(entry("/a", 1, u64::MAX));
    update_visit_history(&mut h, &s("/a"), 9);
    let e = h.get(&s("/a")).unwrap();
    assert_eq!(e.count, u64::MAX);
    assert_eq!(e.accessed_ts, 9);
}
