use semdesk::catalog::{Catalog, Entry};
use semdesk::retriever::candidate_files;

fn temp_catalog() -> Catalog {
    Catalog::new(sled::Config::new().temporary(true).open().unwrap())
}

#[test]
fn files_are_deduplicated_in_hit_order() {
    let mut c = temp_catalog();
    c.add(Entry::new("/tmp/a.txt".to_string(), vec![1, 2])).unwrap();
    c.add(Entry::new("/tmp/b.txt".to_string(), vec![3])).unwrap();
    let files = candidate_files(&c, &vec![3, 1, 99, 2, 3]).unwrap();
    assert_eq!(files, vec!["/tmp/b.txt", "/tmp/a.txt"]);
}

#[test]
fn empty_corpus_gives_no_files() {
    let c = temp_catalog();
    assert!(candidate_files(&c, &vec![]).unwrap().is_empty());
    assert!(candidate_files(&c, &vec![1, 2]).unwrap().is_empty());
}

#[test]
fn stale_id_of_a_deleted_file_is_dropped() {
    let mut c = temp_catalog();
    c.add(Entry::new("/tmp/a.txt".to_string(), vec![1])).unwrap();
    c.add(Entry::new("/tmp/a.txt".to_string(), vec![2])).unwrap();
    c.delete("/tmp/a.txt".to_string()).unwrap();
    // id 1 still points at the first entry, whose path is gone
    assert!(candidate_files(&c, &vec![1]).unwrap().is_empty());
}
