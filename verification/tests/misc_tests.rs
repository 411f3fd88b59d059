use mybar::clock::{clock_labels, log_timestamp};
use mybar::logging::{log_file_path_linux, log_file_path_macos, log_line};
use mybar::platform::is_dark_mode;
use std::path::PathBuf;

fn s(x: &str) -> String {
    x.to_string()
}

#[test]
fn clock_labels_for_a_known_day() {
    assert_eq!(clock_labels(2025, 1, 6, 9, 5, 3, true), Some((s("Mon Jan 06"), s("09:05:03"))));
    assert_eq!(clock_labels(2025, 1, 6, 9, 5, 3, false), Some((s("Mon Jan 06"), s("09:05"))));
    assert_eq!(clock_labels(2024, 2, 29, 23, 59, 59, true), Some((s("Thu Feb 29"), s("23:59:59"))));
    assert_eq!(clock_labels(2023, 2, 29, 0, 0, 0, true), None);
    assert_eq!(clock_labels(2024, 13, 1, 0, 0, 0, true), None);
    assert_eq!(clock_labels(2024, 1, 1, 24, 0, 0, true), None);
    assert_eq!(clock_labels(2024, 1, 1, 0, 0, 60, false), None);
    assert_eq!(clock_labels(262142, 12, 31, 0, 0, 0, true).is_some(), true);
    assert_eq!(clock_labels(262143, 1, 1, 0, 0, 0, true), None);
    assert_eq!(clock_labels(-262143, 1, 1, 0, 0, 0, true).is_some(), true);
    assert_eq!(clock_labels(-262144, 12, 31, 0, 0, 0, true), None);
    assert_eq!(clock_labels(1900, 2, 29, 0, 0, 0, true), None);
    assert_eq!(clock_labels(2000, 2, 29, 0, 0, 0, true).is_some(), true);
}

#[test]
fn log_timestamps() {
    assert_eq!(log_timestamp(2025, 1, 6, 9, 5, 3), Some(s("2025-01-06 09:05:03")));
    assert_eq!(log_timestamp(2025, 4, 31, 0, 0, 0), None);
}

#[test]
fn log_lines() {
    assert_eq!(log_line("2025-01-06 09:05:03", "ERROR", "bind failed"), "2025-01-06 09:05:03 [ERROR] bind failed\n");
}

fn joined(base: &str, rel: &str) -> String {
    PathBuf::from(base).join(rel).to_str().unwrap().to_string()
}

#[test]
fn log_paths_follow_path_join() {
    for home in ["/Users/me", "/Users/me/", "", "rel"] {
        assert_eq!(log_file_path_macos(Some(s(home))), joined(home, "Library/Logs/mybar.log"));
        assert_eq!(log_file_path_linux(None, Some(s(home))), joined(home, ".local/state/mybar/mybar.log"));
        assert_eq!(log_file_path_linux(Some(s(home)), Some(s("/x"))), joined(home, "mybar/mybar.log"));
    }
    assert_eq!(log_file_path_macos(None), "/tmp/mybar.log");
    assert_eq!(log_file_path_linux(None, None), "/tmp/mybar.log");
}

#[test]
fn dark_appearances() {
    assert!(is_dark_mode(Some(s("NSAppearanceNameDarkAqua"))));
    assert!(is_dark_mode(Some(s("NSAppearanceNameVibrantDark"))));
    assert!(!is_dark_mode(Some(s("NSAppearanceNameAqua"))));
    assert!(!is_dark_mode(None));
}
