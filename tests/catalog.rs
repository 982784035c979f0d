use semdesk::catalog::{Catalog, Entry};
use semdesk::error::CatalogError;
use semdesk::record::{decode_entry, encode_entry};

fn temp_catalog() -> Catalog {
    let db = sled::Config::new().temporary(true).open().unwrap();
    Catalog::new(db)
}

#[test]
fn add_then_lookup_by_file_and_by_index() {
    let mut c = temp_catalog();
    c.add(Entry::new("/tmp/a.txt".to_string(), vec![7, 9])).unwrap();
    let e = c.get_by_file("/tmp/a.txt".to_string()).unwrap();
    assert_eq!(e.filename, "/tmp/a.txt");
    assert_eq!(e.indexes(), &vec![7, 9]);
    for id in [7u64, 9] {
        let e = c.get_by_index(id).unwrap();
        assert_eq!(e.filename, "/tmp/a.txt");
        assert_eq!(e.indexes(), &vec![7, 9]);
    }
}

#[test]
fn leading_slash_is_ignored_in_keys() {
    let mut c = temp_catalog();
    c.add(Entry::new("/tmp/a.txt".to_string(), vec![1])).unwrap();
    assert_eq!(c.is_file_in_catalog("tmp/a.txt".to_string()), Ok(true));
    assert_eq!(c.is_file_in_catalog("/tmp/a.txt".to_string()), Ok(true));
    assert_eq!(c.get_by_file("tmp/a.txt".to_string()).unwrap().filename, "/tmp/a.txt");
}

#[test]
fn add_then_delete_removes_every_key() {
    let mut c = temp_catalog();
    c.add(Entry::new("/tmp/a.txt".to_string(), vec![3, 4, 5])).unwrap();
    c.delete("/tmp/a.txt".to_string()).unwrap();
    assert_eq!(c.is_file_in_catalog("/tmp/a.txt".to_string()), Ok(false));
    for id in [3u64, 4, 5] {
        assert!(matches!(c.get_by_index(id), Err(CatalogError::NotFound)));
    }
}

#[test]
fn missing_keys_are_not_found() {
    let mut c = temp_catalog();
    assert!(matches!(c.get_by_index(42), Err(CatalogError::NotFound)));
    assert!(matches!(c.get_by_file("/nowhere".to_string()), Err(CatalogError::NotFound)));
    assert_eq!(c.delete("/nowhere".to_string()), Err(CatalogError::NotFound));
    assert_eq!(c.is_file_in_catalog("/nowhere".to_string()), Ok(false));
}

#[test]
fn add_overwrites_the_same_path() {
    let mut c = temp_catalog();
    c.add(Entry::new("/tmp/a.txt".to_string(), vec![1])).unwrap();
    c.add(Entry::new("/tmp/a.txt".to_string(), vec![2, 3])).unwrap();
    assert_eq!(c.get_by_file("/tmp/a.txt".to_string()).unwrap().indexes(), &vec![2, 3]);
}

#[test]
fn generated_ids_are_distinct_and_increasing() {
    let mut c = temp_catalog();
    let a = c.gen_id().unwrap();
    let b = c.gen_id().unwrap();
    let more = c.gen_ids(5).unwrap();
    assert!(a < b);
    assert_eq!(more.len(), 5);
    assert!(b < more[0]);
    for w in more.windows(2) {
        assert!(w[0] < w[1]);
    }
}

#[test]
fn record_round_trip() {
    let bytes = encode_entry("/tmp/é.txt", &vec![1, u64::MAX, 0]);
    assert_eq!(bytes.len(), 8 + 3 * 8 + "/tmp/é.txt".len());
    let (name, ids) = decode_entry(&bytes).unwrap();
    assert_eq!(name, "/tmp/é.txt");
    assert_eq!(ids, vec![1, u64::MAX, 0]);
}

#[test]
fn record_of_no_ids() {
    let bytes = encode_entry("x", &vec![]);
    assert_eq!(bytes, vec![0, 0, 0, 0, 0, 0, 0, 0, b'x']);
    assert_eq!(decode_entry(&bytes), Some(("x".to_string(), vec![])));
}

#[test]
fn malformed_records_do_not_decode() {
    assert_eq!(decode_entry(&vec![1, 2, 3]), None);
    assert_eq!(decode_entry(&vec![5, 0, 0, 0, 0, 0, 0, 0, 1, 2]), None);
    assert_eq!(decode_entry(&vec![0, 0, 0, 0, 0, 0, 0, 0, 0xff]), None);
}

#[test]
fn every_entry_reads_back_under_each_id_after_adds_and_a_delete() {
    let mut c = temp_catalog();
    let a = c.gen_ids(2).unwrap();
    c.add(Entry::new("/tmp/a.txt".to_string(), a.clone())).unwrap();
    let b = c.gen_ids(3).unwrap();
    c.add(Entry::new("/tmp/b.txt".to_string(), b.clone())).unwrap();
    let d = c.gen_ids(1).unwrap();
    c.add(Entry::new("/tmp/d.txt".to_string(), d.clone())).unwrap();
    c.delete("/tmp/b.txt".to_string()).unwrap();
    for (name, ids) in [("/tmp/a.txt", &a), ("/tmp/d.txt", &d)] {
        for id in ids {
            let e = c.get_by_index(*id).unwrap();
            assert_eq!(e.filename, name);
            assert_eq!(e.indexes(), ids);
        }
    }
    for id in &b {
        assert!(matches!(c.get_by_index(*id), Err(CatalogError::NotFound)));
    }
}

#[test]
fn id_keys_are_decimal_text() {
    let db = sled::Config::new().temporary(true).open().unwrap();
    let mut c = Catalog::new(db.clone());
    c.add(Entry::new("/tmp/a.txt".to_string(), vec![7, 1234567890123])).unwrap();
    assert!(db.contains_key(b"/byindex/7").unwrap());
    assert!(db.contains_key(b"/byindex/1234567890123").unwrap());
    assert!(db.contains_key(b"/byfile/tmp/a.txt").unwrap());
}
