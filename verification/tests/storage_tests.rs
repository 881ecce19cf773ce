use std::path::PathBuf;
use recap::storage::{RunEntry, Storage, Timestamp};

fn run(id: u64, cmd: &str) -> RunEntry {
    RunEntry { id, cmd: cmd.to_string(), exit: 0, at: Timestamp { secs: 1_700_000_000, nanos: 0 } }
}

fn text(bytes: Vec<u8>) -> String {
    String::from_utf8(bytes).unwrap()
}

#[test]
fn paths_under_home() {
    let s = Storage::in_home(b"/home/alice");
    assert_eq!(text(s.index_path()), "/home/alice/.recap/index.jsonl");
    assert_eq!(text(s.logs_dir()), "/home/alice/.recap/logs");
    assert_eq!(text(s.log_path(1)), "/home/alice/.recap/logs/0001.log");
    assert_eq!(text(s.log_path(42)), "/home/alice/.recap/logs/0042.log");
    assert_eq!(text(s.log_path(12345)), "/home/alice/.recap/logs/12345.log");
}

#[test]
fn paths_join_like_pathbuf() {
    for home in ["/", "/home/bob/", "relative", "", "/home/zoë"] {
        let s = Storage::in_home(home.as_bytes());
        let base = PathBuf::from(home).join(".recap");
        assert_eq!(text(s.index_path()), base.join("index.jsonl").display().to_string());
        assert_eq!(text(s.log_path(7)), base.join("logs").join("0007.log").display().to_string());
    }
}

#[test]
fn paths_keep_bytes_that_are_not_utf8() {
    let s = Storage::in_home(b"/home/\xff\xfe");
    assert_eq!(s.index_path(), b"/home/\xff\xfe/.recap/index.jsonl".to_vec());
    assert_eq!(s.log_path(3), b"/home/\xff\xfe/.recap/logs/0003.log".to_vec());
}

#[test]
fn storage_new_uses_home_dir() {
    if let Some(s) = Storage::new() {
        assert!(s.index_path().ends_with(b"/.recap/index.jsonl"));
    }
}

#[test]
fn distinct_ids_have_distinct_log_paths() {
    let s = Storage::in_home(b"/h");
    assert_ne!(s.log_path(1), s.log_path(10));
    assert_ne!(s.log_path(999), s.log_path(9999));
    assert_ne!(s.log_path(10000), s.log_path(1000));
}

#[test]
fn index_records_skip_blank_lines() {
    let content = "{\"id\":1}\n\n   \n{\"id\":2}\r\n\t\n{\"id\":3}";
    assert_eq!(
        Storage::index_records(content),
        vec!["{\"id\":1}", "{\"id\":2}", "{\"id\":3}"]
    );
    assert!(Storage::index_records("").is_empty());
    assert!(Storage::index_records("\n \n").is_empty());
}

#[test]
fn appending_a_record_adds_it_last() {
    let before = "{\"id\":1}\n\n{\"id\":2}\n";
    let record = "{\"id\":3,\"cmd\":\"ls\"}";
    let after = format!("{}{}\n", before, record);
    let mut expected = Storage::index_records(before);
    expected.push(record.to_string());
    assert_eq!(Storage::index_records(&after), expected);
}

#[test]
fn next_id_follows_the_last() {
    assert_eq!(Storage::next_id(&[]), 1);
    assert_eq!(Storage::next_id(&[run(1, "a"), run(5, "b")]), 6);
}

#[test]
fn get_last_and_last_n() {
    let entries = vec![run(1, "a"), run(2, "b"), run(3, "c")];
    assert_eq!(Storage::get_last(&entries), Some(run(3, "c")));
    assert_eq!(Storage::get_last(&[]), None);
    assert_eq!(Storage::get_last_n(&entries, 2), vec![run(2, "b"), run(3, "c")]);
    assert_eq!(Storage::get_last_n(&entries, 10), entries);
    assert!(Storage::get_last_n(&entries, 0).is_empty());
    assert!(Storage::get_last_n(&[], 3).is_empty());
}

#[test]
fn latest_first_is_newest_first() {
    let entries = vec![run(1, "a"), run(2, "b"), run(3, "c")];
    assert_eq!(Storage::latest_first(&entries, 2), vec![run(3, "c"), run(2, "b")]);
    assert_eq!(Storage::latest_first(&entries, 9), vec![run(3, "c"), run(2, "b"), run(1, "a")]);
    assert!(Storage::latest_first(&entries, 0).is_empty());
}

#[test]
fn consecutive_ids_continue() {
    let mut entries: Vec<RunEntry> = Vec::new();
    for k in 1..=5u64 {
        let id = Storage::next_id(&entries);
        assert_eq!(id, k);
        entries.push(run(id, "x"));
        assert_eq!(Storage::next_id(&entries), id + 1);
    }
    let ids: Vec<u64> = entries.iter().map(|e| e.id).collect();
    assert_eq!(ids, vec![1, 2, 3, 4, 5]);
}

#[test]
fn get_by_id_finds_the_first() {
    let entries = vec![run(1, "a"), run(2, "b"), run(2, "c")];
    assert_eq!(Storage::get_by_id(&entries, 2), Some(run(2, "b")));
    assert_eq!(Storage::get_by_id(&entries, 9), None);
}

#[test]
fn recorded_run_is_found_again() {
    let mut entries = vec![run(1, "a"), run(2, "b")];
    let id = Storage::next_id(&entries);
    assert!(entries.iter().all(|e| e.id < id));
    let new_run = run(id, "c");
    entries.push(new_run.clone());
    assert_eq!(Storage::get_last(&entries), Some(new_run.clone()));
    assert_eq!(Storage::get_by_id(&entries, id), Some(new_run));
}

#[test]
fn listed_runs_can_be_fetched() {
    let entries = vec![run(1, "a"), run(2, "b"), run(4, "c"), run(7, "d")];
    for listed in Storage::get_last_n(&entries, 3) {
        assert_eq!(Storage::get_by_id(&entries, listed.id), Some(listed.clone()));
    }
}

#[test]
fn timestamps_display_in_utc() {
    assert_eq!(Timestamp { secs: 0, nanos: 0 }.display(), Some("1970-01-01 00:00:00".to_string()));
    assert_eq!(
        Timestamp { secs: 1431648000, nanos: 999_999_999 }.display(),
        Some("2015-05-15 00:00:00".to_string())
    );
    assert_eq!(Timestamp { secs: i64::MAX, nanos: 0 }.display(), None);
}

#[test]
fn run_entries_clone_equal() {
    let e = run(3, "echo hi");
    assert_eq!(e.clone(), e);
}

#[test]
fn index_is_kept_apart_from_logs() {
    for home in [&b"/home/alice"[..], b"/", b"", b"/home/\xff"] {
        let s = Storage::in_home(home);
        let index = s.index_path();
        let mut logs_prefix = s.logs_dir();
        logs_prefix.push(b'/');
        assert_ne!(index, s.logs_dir());
        assert!(!index.starts_with(&logs_prefix));
        for id in [0u64, 1, 42, 9999, u64::MAX] {
            assert_ne!(index, s.log_path(id));
            assert!(s.log_path(id).starts_with(&logs_prefix));
        }
    }
}
