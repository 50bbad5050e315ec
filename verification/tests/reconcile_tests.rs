use mzcache2::error::MzError;
use mzcache2::index::{read_index_file, Record};
use mzcache2::reconcile::{
    count_hash, count_record_hash, coverage_ok, entry_hashes, has_duplicate_hash, reconcile,
};

fn hash_of(tag: u8) -> mzcache2::index::Hash {
    let mut b = [0u8; 20];
    b[0] = tag;
    b[1] = tag.wrapping_mul(3);
    mzcache2::index::Hash::from_bytes(b)
}

fn record_of(tag: u8) -> Record {
    Record {
        hash: hash_of(tag),
        frecency: tag as u32,
        origin_attr_hash: tag as u64,
        on_start_time: 0,
        on_stop_time: 1,
        content_type: 0,
        flags: 0,
    }
}

#[test]
fn duplicate_hash_is_detectable() {
    // Two records sharing one hash: the count for that hash exceeds one.
    let records = vec![record_of(1), record_of(2), record_of(1)];
    assert_eq!(count_record_hash(&records, &hash_of(1)), 2);
    assert_eq!(count_record_hash(&records, &hash_of(2)), 1);
    assert_eq!(count_record_hash(&records, &hash_of(3)), 0);
    assert!(has_duplicate_hash(&records));
    let clean = vec![record_of(1), record_of(2), record_of(3)];
    assert!(!has_duplicate_hash(&clean));
}

#[test]
fn count_hash_counts_entries() {
    let entries = vec![hash_of(5), hash_of(6), hash_of(5), hash_of(5)];
    assert_eq!(count_hash(&entries, &hash_of(5)), 3);
    assert_eq!(count_hash(&entries, &hash_of(6)), 1);
    assert_eq!(count_hash(&entries, &hash_of(7)), 0);
}

#[test]
fn coverage_ratio_scenario() {
    // 100 index records; the directory backs 95 of them and holds 5 strays.
    let mut records = Vec::new();
    for i in 0..100u8 {
        records.push(record_of(i));
    }
    let mut entries = Vec::new();
    for i in 0..95u8 {
        entries.push(hash_of(i));
    }
    for i in 200..205u8 {
        entries.push(hash_of(i));
    }
    let report = reconcile(&records, &entries);
    assert_eq!(report.entries_not_in_index, 5);
    assert_eq!(report.index_without_entry, 5);

    let index_ratio = records.len() as f64 / (report.entries_not_in_index + records.len()) as f64;
    let entries_ratio = entries.len() as f64 / (report.index_without_entry + entries.len()) as f64;
    assert!(index_ratio >= 0.9);
    assert!(entries_ratio >= 0.9);
    assert!(coverage_ok(records.len(), report.entries_not_in_index));
    assert!(coverage_ok(entries.len(), report.index_without_entry));
}

#[test]
fn coverage_ok_boundary() {
    assert!(coverage_ok(9, 1));
    assert!(coverage_ok(10, 0));
    assert!(coverage_ok(0, 0));
    assert!(!coverage_ok(8, 2));
    assert!(!coverage_ok(0, 1));
}

#[test]
fn full_match_has_no_gaps() {
    let records = vec![record_of(1), record_of(2)];
    let entries = vec![hash_of(2), hash_of(1)];
    let report = reconcile(&records, &entries);
    assert_eq!(report.entries_not_in_index, 0);
    assert_eq!(report.index_without_entry, 0);
}

#[test]
fn rejected_entry_is_skipped_silently() {
    // The middle file's contents were rejected by the entry decoder: it is
    // simply absent from the result, and the conversion still succeeds.
    let names = vec![
        hash_of(1).to_hex(),
        hash_of(2).to_hex(),
        hash_of(3).to_hex(),
    ];
    let ok = vec![true, false, true];
    let hashes = entry_hashes(&names, &ok).unwrap();
    assert_eq!(hashes.len(), 2);
    assert_eq!(hashes[0], hash_of(1));
    assert_eq!(hashes[1], hash_of(3));
}

#[test]
fn rejected_entry_name_is_never_decoded() {
    // A skipped file's name may be arbitrary: only surviving names must be
    // valid hex.
    let names = vec![String::from("not-a-hash"), hash_of(4).to_hex()];
    let ok = vec![false, true];
    let hashes = entry_hashes(&names, &ok).unwrap();
    assert_eq!(hashes.len(), 1);
    assert_eq!(hashes[0], hash_of(4));
}

#[test]
fn bad_surviving_name_fails_loudly() {
    let names = vec![hash_of(1).to_hex(), String::from("not-a-hash")];
    let ok = vec![true, true];
    match entry_hashes(&names, &ok) {
        Err(MzError::Utf) => {}
        other => panic!("expected Utf error, got {:?}", other),
    }
}

#[test]
fn index_and_entries_reconcile_end_to_end() {
    // A little index and its directory listing, wired through the decoder.
    let mut b = Vec::new();
    b.extend_from_slice(&10u32.to_be_bytes());
    b.extend_from_slice(&1677527118u32.to_be_bytes());
    b.extend_from_slice(&1u32.to_be_bytes());
    b.extend_from_slice(&0u32.to_be_bytes());
    for tag in [1u8, 2u8] {
        let r = record_of(tag);
        b.extend_from_slice(r.hash.bytes());
        b.extend_from_slice(&r.frecency.to_be_bytes());
        b.extend_from_slice(&r.origin_attr_hash.to_be_bytes());
        b.extend_from_slice(&r.on_start_time.to_be_bytes());
        b.extend_from_slice(&r.on_stop_time.to_be_bytes());
        b.push(r.content_type);
        b.extend_from_slice(&r.flags.to_be_bytes());
    }
    let index = read_index_file(&b).unwrap();
    let names = vec![hash_of(2).to_hex(), hash_of(9).to_hex()];
    let ok = vec![true, true];
    let hashes = entry_hashes(&names, &ok).unwrap();
    let report = reconcile(&index.records, &hashes);
    assert_eq!(report.entries_not_in_index, 1); // hash_of(9)
    assert_eq!(report.index_without_entry, 1); // record_of(1)
}
