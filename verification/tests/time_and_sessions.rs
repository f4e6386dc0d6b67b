use fractal_viewer::bench_time::{self, format_report_timestamp, is_leap, now_iso8601};
use fractal_viewer::calendar;
use fractal_viewer::session::{
    check_save_version, collect_save_ids, join_path, save_id_from_file_name, LocalStorageBackend,
    unique_save_id, SessionError, SessionManager,
};
use fractal_viewer::timestamp::{format_iso8601, format_save_id};

#[test]
fn era_and_counting_calendars_agree() {
    for days in [0u64, 1, 58, 59, 365, 789, 10957, 11016, 19723, 20000, 36524, 146097, 1_000_000] {
        assert_eq!(calendar::days_to_ymd(days), bench_time::days_to_ymd(days), "day {days}");
    }
}

#[test]
fn known_dates() {
    assert_eq!(bench_time::days_to_ymd(0), (1970, 1, 1));
    assert_eq!(bench_time::days_to_ymd(59), (1970, 3, 1));
    assert_eq!(bench_time::days_to_ymd(789), (1972, 2, 29));
    assert_eq!(calendar::days_to_ymd(11016), (2000, 2, 29));
    assert_eq!(calendar::days_to_ymd(19723), (2024, 1, 1));
}

#[test]
fn leap_years() {
    assert!(is_leap(2000));
    assert!(is_leap(2024));
    assert!(!is_leap(1900));
    assert!(!is_leap(2023));
}

#[test]
fn timestamp_formats() {
    assert_eq!(format_iso8601(0), "1970-01-01T00:00:00Z");
    assert_eq!(format_iso8601(951_782_400 + 3_661), "2000-02-29T01:01:01Z");
    assert_eq!(format_report_timestamp(1_700_000_000), "2023-11-14T22:13:20Z");
    assert_eq!(format_report_timestamp(1_700_000_000), format_iso8601(1_700_000_000));
    assert_eq!(format_save_id(1_700_000_000), "20231114_221320");
    let now = now_iso8601();
    assert_eq!(now.len(), 20);
    assert!(now.ends_with('Z'));
    let ts = SessionManager::timestamp_iso8601();
    assert_eq!(ts.as_bytes()[10], b'T');
    let id = SessionManager::generate_id();
    assert_eq!(id.len(), 15);
    assert_eq!(id.as_bytes()[8], b'_');
}

#[test]
fn session_paths() {
    let m = SessionManager::with_data_dir(Some("/data".to_string())).ok().unwrap();
    assert_eq!(m.saves_dir, "/data/ModernFractalViewer/saves");
    assert_eq!(m.file_path("20240101_000000"), "/data/ModernFractalViewer/saves/20240101_000000.json");
    match SessionManager::with_data_dir(None) {
        Err(SessionError::Storage(msg)) => assert_eq!(msg, "could not determine data directory"),
        _ => panic!("expected a storage error"),
    }
    let a = SessionManager::new_android("/files/".to_string());
    assert_eq!(a.saves_dir, "/files/saves");
    assert_eq!(join_path("", "x"), "x");
    assert_eq!(join_path("a", "b"), "a/b");
    assert_eq!(join_path("/data/saves", "/tmp/x.json"), "/tmp/x.json");
}

#[test]
fn save_listing_newest_first() {
    let m = SessionManager::new_android("/d".to_string());
    let names = vec![
        "20240101_120000.json".to_string(),
        "notes.txt".to_string(),
        "20250505_000000.json".to_string(),
        ".json".to_string(),
        "20231231_235959.json".to_string(),
    ];
    assert_eq!(m.list_saves(&names), vec!["20250505_000000", "20240101_120000", "20231231_235959"]);
    assert_eq!(collect_save_ids(&Vec::new()), Vec::<String>::new());
    assert_eq!(save_id_from_file_name("a.b.json"), Some("a.b".to_string()));
    assert_eq!(save_id_from_file_name("a.JSON"), None);
}

#[test]
fn save_versions() {
    assert!(check_save_version(None).is_ok());
    assert!(check_save_version(Some("1")).is_ok());
    match check_save_version(Some("2")) {
        Err(SessionError::Storage(msg)) => assert_eq!(msg, "unsupported save version: 2"),
        _ => panic!("expected a storage error"),
    }
}

#[test]
fn local_storage_index() {
    assert_eq!(LocalStorageBackend::prefixed_key("abc"), "fractal_save_abc");
    assert_eq!(LocalStorageBackend::index_key(), "fractal_save_index");
    let idx = LocalStorageBackend::index_after_save(vec!["b".to_string()], "a");
    assert_eq!(idx, vec!["a", "b"]);
    let same = LocalStorageBackend::index_after_save(idx.clone(), "b");
    assert_eq!(same, vec!["a", "b"]);
    assert_eq!(LocalStorageBackend::index_after_delete(&same, "a"), vec!["b"]);
}

#[test]
fn save_ids_are_numbered_when_taken() {
    let base = "20240301_120000";
    assert_eq!(unique_save_id(base, &vec![]), base);
    assert_eq!(unique_save_id(base, &vec!["20240229_080000".to_string()]), base);
    let taken = vec![base.to_string(), "20240301_120000_2".to_string(), "20240301_120000_4".to_string()];
    assert_eq!(unique_save_id(base, &taken), "20240301_120000_3");
    assert_eq!(unique_save_id(base, &vec![base.to_string()]), "20240301_120000_2");
}

#[test]
fn generated_ids_avoid_taken_ids() {
    let first = SessionManager::generate_unique_id(&vec![]);
    let second = SessionManager::generate_unique_id(&vec![first.clone()]);
    assert_ne!(first, second);
}
