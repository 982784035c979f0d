use semdesk::error::{Error, UnsupportedFileTypeError};
use semdesk::settings::{
    get_config_dir, get_db_dir, get_index_location, get_scan_status_file, get_socket_path,
    join_path, LocalModeSettings, Settings,
};

#[test]
fn defaults() {
    let s = Settings::default();
    assert!(s.files.is_empty());
    assert_eq!(s.max_scan_depth, 2);
    assert_eq!(s.db_dir, "~/.local/share/semdesk/db");
    assert_eq!(s.scan_status_file, "~/.local/share/semdesk/scan_status.txt");
    assert_eq!(s.index_location, "~/.cache/semdesk/.index");
}

#[test]
fn default_paths_expand_under_home() {
    let s = Settings::default();
    assert_eq!(get_db_dir(&s, "/home/u"), "/home/u/.local/share/semdesk/db");
    assert_eq!(get_scan_status_file(&s, "/home/u"), "/home/u/.local/share/semdesk/scan_status.txt");
    assert_eq!(get_index_location(&s, "/home/u"), "/home/u/.cache/semdesk/.index");
    assert_eq!(get_config_dir("/home/u"), "/home/u/.config/semdesk");
    assert_eq!(get_socket_path("/home/u"), "/home/u/.local/share/semdesk.sock");
}

#[test]
fn local_mode_keeps_everything_in_one_directory() {
    let l = LocalModeSettings::new("/data".to_string(), true, false, 2);
    let s = Settings::local(&l);
    assert_eq!(s.files, vec!["/data"]);
    assert_eq!(s.max_scan_depth, 2);
    assert_eq!(s.db_dir, "/data/.semdesk_db");
    assert_eq!(s.scan_status_file, "/data/.semdesk_scan_status.txt");
    assert_eq!(s.index_location, "/data/.semdesk_index");
}

#[test]
fn joining_paths() {
    assert_eq!(join_path("/a", "b"), "/a/b");
    assert_eq!(join_path("/a/", "b"), "/a/b");
    assert_eq!(join_path("", "b"), "b");
}

#[test]
fn error_texts() {
    assert_eq!(Error::new("Index not found").describe(), "SemDeskError: Index not found");
    assert_eq!(Error::new("x").message(), "x");
    assert_eq!(UnsupportedFileTypeError::new("a.png").describe(), "UnsupportedFileTypeError: a.png");
}
