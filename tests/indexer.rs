use semdesk::catalog::{Catalog, Entry};
use semdesk::indexer::{
    choose_source, chunk_document, persist_plan, plan_document, select_chunks, select_hits,
    IndexSource, PersistClock, PersistStep, CHUNK_BYTES, MAX_CHUNKS,
};
use semdesk::retriever::candidate_files;

fn temp_catalog() -> Catalog {
    Catalog::new(sled::Config::new().temporary(true).open().unwrap())
}

#[test]
fn short_document_is_one_trimmed_chunk() {
    assert_eq!(chunk_document("  Paris is capital of France.\n"), vec!["Paris is capital of France."]);
}

#[test]
fn empty_document_has_no_chunks() {
    assert!(chunk_document("").is_empty());
    assert!(chunk_document("   \n\t  ").is_empty());
}

#[test]
fn chunks_are_cut_every_384_bytes() {
    let text = "a".repeat(CHUNK_BYTES) + &"b".repeat(10);
    assert_eq!(chunk_document(&text), vec!["a".repeat(CHUNK_BYTES), "b".repeat(10)]);
}

#[test]
fn blank_chunks_are_dropped() {
    let text = " ".repeat(CHUNK_BYTES) + "tail";
    assert_eq!(chunk_document(&text), vec!["tail"]);
}

#[test]
fn chunk_that_cuts_a_character_is_dropped() {
    // 383 ASCII bytes then a two-byte character: both chunks are cut mid-character.
    let text = "a".repeat(CHUNK_BYTES - 1) + "é" + &"c".repeat(5);
    assert!(chunk_document(&text).is_empty());
    let text = "a".repeat(CHUNK_BYTES) + "é";
    assert_eq!(chunk_document(&text), vec!["a".repeat(CHUNK_BYTES), "é".to_string()]);
}

#[test]
fn at_most_fifty_chunks_are_kept() {
    let text = "x".repeat(CHUNK_BYTES * 60);
    let chunks = chunk_document(&text);
    assert_eq!(chunks.len(), MAX_CHUNKS);
    assert_eq!(MAX_CHUNKS, 50);
}

#[test]
fn select_chunks_keeps_order_and_drops_empty() {
    let pieces = vec!["".to_string(), "a".to_string(), "".to_string(), "b".to_string()];
    assert_eq!(select_chunks(pieces), vec!["a", "b"]);
}

#[test]
fn plan_gives_one_fresh_id_per_chunk() {
    let mut c = temp_catalog();
    let text = "y".repeat(CHUNK_BYTES * 3);
    let plan = plan_document(&mut c, &text).unwrap();
    assert_eq!(plan.chunks.len(), 3);
    assert_eq!(plan.ids.len(), 3);
    assert!(plan.ids[0] < plan.ids[1] && plan.ids[1] < plan.ids[2]);
    let big = plan_document(&mut c, &"z".repeat(CHUNK_BYTES * 70)).unwrap();
    assert_eq!(big.ids.len(), 50);
    assert!(plan.ids[2] < big.ids[0]);
}

#[test]
fn indexed_document_is_found_by_its_ids() {
    let mut c = temp_catalog();
    let plan = plan_document(&mut c, "Paris is capital of France.").unwrap();
    c.add(Entry::new("/tmp/a.txt".to_string(), plan.ids.clone())).unwrap();
    let files = candidate_files(&c, &plan.ids).unwrap();
    assert_eq!(files, vec!["/tmp/a.txt"]);
}

#[test]
fn clock_writes_once_every_two_thousand_passes_while_adds_come() {
    let mut clock = PersistClock::new();
    assert!(!clock.tick());
    clock.note_added();
    let mut writes = Vec::new();
    for pass in 0..6000 {
        if clock.tick() {
            writes.push(pass);
        }
        clock.note_added();
    }
    assert_eq!(writes, vec![1999, 3999, 5999]);
}

#[test]
fn clock_does_not_write_without_adds() {
    let mut clock = PersistClock::new();
    for _ in 0..5000 {
        assert!(!clock.tick());
    }
}

#[test]
fn plan_keeps_one_backup() {
    assert_eq!(persist_plan(false, false), vec![PersistStep::WritePrimary]);
    assert_eq!(persist_plan(false, true), vec![PersistStep::WritePrimary]);
    assert_eq!(
        persist_plan(true, false),
        vec![PersistStep::MovePrimaryToBackup, PersistStep::WritePrimary]
    );
    assert_eq!(
        persist_plan(true, true),
        vec![PersistStep::RemoveBackup, PersistStep::MovePrimaryToBackup, PersistStep::WritePrimary]
    );
}

#[test]
fn start_up_falls_back_to_the_backup() {
    assert_eq!(choose_source(true, true), IndexSource::Primary);
    assert_eq!(choose_source(false, true), IndexSource::Backup);
    assert_eq!(choose_source(false, false), IndexSource::Empty);
}

#[test]
fn hits_without_label_or_score_are_dropped() {
    let labels = vec![Some(10), None, Some(12), Some(13)];
    let scored = vec![true, true, false, true];
    assert_eq!(select_hits(&labels, &scored), vec![(0, 10), (3, 13)]);
    assert!(select_hits(&vec![], &vec![]).is_empty());
}

#[test]
fn first_pass_after_start_writes_pending_adds() {
    let mut clock = PersistClock::new();
    clock.note_added();
    assert!(clock.tick());
    assert!(!clock.tick());
}

#[test]
fn empty_document_draws_no_id() {
    let mut c = temp_catalog();
    let plan = plan_document(&mut c, "").unwrap();
    assert!(plan.chunks.is_empty() && plan.ids.is_empty());
    let plan = plan_document(&mut c, "   ").unwrap();
    assert!(plan.ids.is_empty());
    assert!(c.gen_ids(0).unwrap().is_empty());
}
