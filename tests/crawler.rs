use semdesk::catalog::{Catalog, Entry};
use semdesk::crawler::{
    check_path, expand_home, last_scan_time, next_scan_after, plan_startup, read_last_scan,
    scan_action, scan_due, PathKind, ScanAction, ScanWork, DAY_SECONDS, MAX_FILE_BYTES,
};

fn file(size: u64, name: &str) -> PathKind {
    PathKind::File { size, name: name.to_string() }
}

#[test]
fn file_over_ten_mebibytes_is_not_indexed() {
    assert_eq!(MAX_FILE_BYTES, 10 * 1024 * 1024);
    assert_eq!(scan_action(0, 2, false, &file(10 * 1024 * 1024 + 1, "big.txt")), ScanAction::TooLarge);
    assert_eq!(scan_action(0, 2, false, &file(10 * 1024 * 1024, "big.txt")), ScanAction::Index);
}

#[test]
fn hidden_file_is_not_indexed() {
    assert_eq!(scan_action(0, 2, false, &file(10, ".secret.txt")), ScanAction::Hidden);
    assert_eq!(scan_action(0, 2, false, &file(10, "a.txt")), ScanAction::Index);
}

#[test]
fn depth_and_catalog_come_first() {
    assert_eq!(scan_action(3, 2, false, &file(10, "a.txt")), ScanAction::TooDeep);
    assert_eq!(scan_action(3, 2, true, &PathKind::Directory), ScanAction::TooDeep);
    assert_eq!(scan_action(2, 2, true, &file(10, "a.txt")), ScanAction::AlreadyIndexed);
    assert_eq!(scan_action(1, 2, false, &PathKind::Directory), ScanAction::Descend);
    assert_eq!(scan_action(1, 2, false, &PathKind::Other), ScanAction::Ignore);
}

#[test]
fn second_scan_sends_nothing_already_indexed() {
    let mut c = Catalog::new(sled::Config::new().temporary(true).open().unwrap());
    let kind = file(30, "a.txt");
    assert_eq!(check_path(&c, "/tmp/a.txt".to_string(), 0, 2, &kind), Ok(ScanAction::Index));
    c.add(Entry::new("/tmp/a.txt".to_string(), vec![1])).unwrap();
    assert_eq!(check_path(&c, "/tmp/a.txt".to_string(), 0, 2, &kind), Ok(ScanAction::AlreadyIndexed));
}

#[test]
fn tilde_is_expanded() {
    assert_eq!(expand_home("~/docs", "/home/u"), "/home/u/docs");
    assert_eq!(expand_home("/srv/docs", "/home/u"), "/srv/docs");
    assert_eq!(expand_home("", "/home/u"), "");
}

#[test]
fn last_scan_is_read_from_rfc3339() {
    let now = 1_700_000_000;
    assert_eq!(read_last_scan(Some("2023-01-01T00:00:00+00:00"), now), 1_672_531_200);
    assert_eq!(read_last_scan(Some("2023-01-01T02:00:00+02:00"), now), 1_672_531_200);
    assert_eq!(read_last_scan(Some("not a time"), now), now - 2 * DAY_SECONDS);
    assert_eq!(read_last_scan(None, now), now - 2 * DAY_SECONDS);
    assert_eq!(last_scan_time(Some(5), now), 5);
}

#[test]
fn start_up_scans_between_two_and_four() {
    let midnight = 1_700_000_000;
    assert_eq!(plan_startup(midnight + 3 * 3600, midnight), (true, midnight + 3 * 3600 + DAY_SECONDS));
    assert_eq!(plan_startup(midnight + 2 * 3600, midnight), (false, midnight + DAY_SECONDS));
    assert_eq!(plan_startup(midnight + 5 * 3600, midnight), (false, midnight + DAY_SECONDS));
}

#[test]
fn scan_is_due_after_schedule_or_a_day() {
    assert!(scan_due(100, 99, 100));
    assert!(!scan_due(100, 100, 100));
    assert!(scan_due(100 + DAY_SECONDS + 1, i64::MAX, 100));
    assert!(!scan_due(100 + DAY_SECONDS, i64::MAX, 100));
    assert!(!scan_due(0, i64::MAX, i64::MAX));
    assert_eq!(next_scan_after(10), 10 + DAY_SECONDS);
}

#[test]
fn scan_work_is_depth_first_in_listing_order() {
    let mut work = ScanWork::new(vec!["/r/a".to_string(), "/r/d".to_string(), "/r/f".to_string()]);
    assert_eq!(work.next(), Some(("/r/a".to_string(), 0)));
    work.descend(vec!["/r/a/x".to_string(), "/r/a/y".to_string()], 0);
    assert_eq!(work.next(), Some(("/r/a/x".to_string(), 1)));
    assert_eq!(work.next(), Some(("/r/a/y".to_string(), 1)));
    assert_eq!(work.next(), Some(("/r/d".to_string(), 0)));
    work.descend(vec![], 0);
    work.descend(vec!["/r/d/z".to_string()], 4);
    assert_eq!(work.next(), Some(("/r/d/z".to_string(), 5)));
    assert_eq!(work.next(), Some(("/r/f".to_string(), 0)));
    assert_eq!(work.next(), None);
    work.descend(vec!["/deep".to_string()], u32::MAX);
    assert_eq!(work.next(), Some(("/deep".to_string(), u32::MAX)));
}

#[test]
fn too_deep_needs_no_catalog_lookup() {
    let c = Catalog::new(sled::Config::new().temporary(true).open().unwrap());
    assert_eq!(check_path(&c, "/x".to_string(), 5, 2, &PathKind::Directory), Ok(ScanAction::TooDeep));
}
