use batcave::frn_tree::{build_path, ckey, index_tree, FrnMap};
use batcave::journal::{
    absorb_enum_batch, decode_journal_query, enum_request, journal_batch, journal_delay_ms,
    journal_read_request, volume_path, JournalStep,
};
use batcave::mft::{parse_record, parse_records, USN_REASON_FILE_DELETE};
use std::collections::HashMap;

fn record(frn: u64, parent: u64, name: &str, dir: bool, reason: u32) -> Vec<u8> {
    let units: Vec<u16> = name.encode_utf16().collect();
    let nlen = units.len() * 2;
    let len = (60 + nlen + 7) / 8 * 8;
    let mut r = vec![0u8; len];
    r[0..4].copy_from_slice(&(len as u32).to_le_bytes());
    r[4..6].copy_from_slice(&2u16.to_le_bytes());
    r[8..16].copy_from_slice(&frn.to_le_bytes());
    r[16..24].copy_from_slice(&parent.to_le_bytes());
    r[40..44].copy_from_slice(&reason.to_le_bytes());
    let attrs: u32 = if dir { 0x10 } else { 0x20 };
    r[52..56].copy_from_slice(&attrs.to_le_bytes());
    r[56..58].copy_from_slice(&(nlen as u16).to_le_bytes());
    r[58..60].copy_from_slice(&60u16.to_le_bytes());
    for (i, u) in units.iter().enumerate() {
        r[60 + 2 * i..62 + 2 * i].copy_from_slice(&u.to_le_bytes());
    }
    r
}

fn batch(head: u64, recs: &[Vec<u8>]) -> Vec<u8> {
    let mut b = head.to_le_bytes().to_vec();
    for r in recs {
        b.extend_from_slice(r);
    }
    b
}

#[test]
fn mft_parse_record_fields() {
    let r = parse_record(&record(42, 5, "Ünïcode.txt", false, 7)).unwrap();
    assert_eq!(r.frn, 42);
    assert_eq!(r.parent, 5);
    assert_eq!(r.name, "Ünïcode.txt");
    assert!(!r.is_dir);
    assert_eq!(r.reason, 7);
    assert_eq!(r.len, 88);
    assert!(parse_record(&record(1, 1, "d", true, 0)).unwrap().is_dir);
}

#[test]
fn mft_parse_record_rejects_bad_lengths() {
    assert!(parse_record(&[0u8; 59]).is_none());
    let mut r = record(1, 1, "a", false, 0);
    r[0..4].copy_from_slice(&0u32.to_le_bytes());
    assert!(parse_record(&r).is_none());
    let mut r = record(1, 1, "a", false, 0);
    r[0..4].copy_from_slice(&1000u32.to_le_bytes());
    assert!(parse_record(&r).is_none());
    let mut r = record(1, 1, "abc", false, 0);
    r[58..60].copy_from_slice(&70u16.to_le_bytes());
    assert_eq!(parse_record(&r).unwrap().name, "");
}

#[test]
fn mft_parse_records_walks_the_buffer() {
    let b = batch(9, &[record(1, 1, "a", true, 0), record(2, 1, "b", false, 0)]);
    let recs = parse_records(&b, 8);
    assert_eq!(recs.len(), 2);
    assert_eq!(recs[1].name, "b");
}

#[test]
fn mft_paths_resolve_through_parents() {
    let mut map: FrnMap = HashMap::new();
    map.insert(5, ("root".to_string(), 5, true));
    map.insert(10, ("Users".to_string(), 5, true));
    map.insert(11, ("me".to_string(), 10, true));
    map.insert(12, ("a.txt".to_string(), 11, false));
    map.insert(13, ("orphan.txt".to_string(), 99, false));
    let mut cache = HashMap::new();
    assert_eq!(build_path(12, &map, 'C', &mut cache), "C:\\root\\Users\\me\\a.txt");
    assert_eq!(cache.get(&10).unwrap(), "C:\\root\\Users");
    assert_eq!(build_path(13, &map, 'C', &mut cache), "C:\\orphan.txt");
    assert_eq!(build_path(77, &map, 'D', &mut HashMap::new()), "D:");
    let mut index = HashMap::new();
    index_tree(&map, 'C', &mut index);
    assert_eq!(index.len(), 5);
    assert_eq!(index.get(&ckey('C', 11)).unwrap(), "C:\\root\\Users\\me");
}

#[test]
fn mft_index_keys_pack_drive_and_id() {
    assert_eq!(ckey('C', 5), (67u128 << 64) | 5);
    assert_ne!(ckey('C', 5), ckey('D', 5));
}

#[test]
fn mft_enumeration_batches() {
    let mut map: FrnMap = HashMap::new();
    assert_eq!(absorb_enum_batch(&mut map, &[0u8; 8]), None);
    let b = batch(77, &[record(1, 1, "C-root", true, 0), record(2, 1, "", false, 0), record(3, 1, "f", false, 0)]);
    assert_eq!(absorb_enum_batch(&mut map, &b), Some(77));
    assert_eq!(map.len(), 2);
    assert_eq!(map.get(&3).unwrap().0, "f");
}

#[test]
fn mft_journal_keeps_index_in_step() {
    let mut map: FrnMap = HashMap::new();
    map.insert(5, ("r".to_string(), 5, true));
    let mut index = HashMap::new();
    let b = batch(500, &[record(6, 5, "new.txt", false, 0x100)]);
    let step = journal_batch(&mut map, &mut index, 'C', &b).unwrap();
    assert_eq!(step.next, 500);
    assert!(step.changed);
    assert_eq!(index.get(&ckey('C', 6)).unwrap(), "C:\\r\\new.txt");
    let b = batch(600, &[record(6, 5, "new.txt", false, USN_REASON_FILE_DELETE)]);
    let step = journal_batch(&mut map, &mut index, 'C', &b).unwrap();
    assert_eq!(step.next, 600);
    assert!(index.get(&ckey('C', 6)).is_none());
    assert!(map.get(&6).is_none());
    assert!(journal_batch(&mut map, &mut index, 'C', &[1, 2, 3]).is_none());
}

#[test]
fn mft_journal_waits() {
    assert_eq!(journal_delay_ms(&None), 1500);
    assert_eq!(journal_delay_ms(&Some(JournalStep { next: 1, changed: false })), 700);
    assert_eq!(journal_delay_ms(&Some(JournalStep { next: 1, changed: true })), 0);
}

#[test]
fn mft_requests_and_replies() {
    let e = enum_request(9);
    assert_eq!(e.len(), 24);
    assert_eq!(&e[0..8], &9u64.to_le_bytes());
    assert_eq!(&e[16..24], &i64::MAX.to_le_bytes());
    let j = journal_read_request(-5, 0xABCD);
    assert_eq!(j.len(), 40);
    assert_eq!(&j[0..8], &(-5i64).to_le_bytes());
    assert_eq!(&j[8..12], &[0xff; 4]);
    assert_eq!(&j[32..40], &0xABCDu64.to_le_bytes());
    let mut q = vec![0u8; 80];
    q[0..8].copy_from_slice(&7u64.to_le_bytes());
    q[16..24].copy_from_slice(&(-2i64).to_le_bytes());
    assert_eq!(decode_journal_query(&q), (7, -2));
    assert_eq!(volume_path('E'), "\\\\.\\E:");
}

#[test]
fn mft_journal_last_record_of_a_file_wins() {
    let mut map: FrnMap = HashMap::new();
    map.insert(5, ("r".to_string(), 5, true));
    let mut index = HashMap::new();
    let b = batch(1, &[record(8, 5, "tmp.txt", false, 0x100), record(8, 5, "tmp.txt", false, USN_REASON_FILE_DELETE)]);
    journal_batch(&mut map, &mut index, 'C', &b).unwrap();
    assert!(index.get(&ckey('C', 8)).is_none());
    let b = batch(2, &[record(9, 5, "a.txt", false, USN_REASON_FILE_DELETE), record(9, 5, "b.txt", false, 0x2000)]);
    journal_batch(&mut map, &mut index, 'C', &b).unwrap();
    assert_eq!(index.get(&ckey('C', 9)).unwrap(), "C:\\r\\b.txt");
}

#[test]
fn mft_parent_cycles_are_found() {
    let mut map: FrnMap = HashMap::new();
    map.insert(5, ("r".to_string(), 5, true));
    map.insert(6, ("a".to_string(), 5, true));
    assert!(batcave::frn_tree::tree_resolves_exec(&map));
    map.insert(7, ("x".to_string(), 8, true));
    map.insert(8, ("y".to_string(), 7, true));
    assert!(!batcave::frn_tree::tree_resolves_exec(&map));
    assert!(batcave::frn_tree::resolves_exec(&map, &HashMap::new(), 6));
    assert!(!batcave::frn_tree::resolves_exec(&map, &HashMap::new(), 7));
    let mut cache = HashMap::new();
    cache.insert(8u64, "C:\\y".to_string());
    assert!(batcave::frn_tree::resolves_exec(&map, &cache, 7));
}

#[test]
fn mft_journal_batch_reports_cycles() {
    let mut map: FrnMap = HashMap::new();
    map.insert(5, ("r".to_string(), 5, true));
    let mut index = HashMap::new();
    let b = batch(3, &[record(6, 5, "ok.txt", false, 0)]);
    let step = batcave::journal::try_journal_batch(&mut map, &mut index, 'C', &b).unwrap().unwrap();
    assert_eq!(step.next, 3);
    assert!(batcave::journal::try_journal_batch(&mut map, &mut index, 'C', &[0u8; 4]).unwrap().is_none());
    let b = batch(4, &[record(7, 8, "x", true, 0x100), record(8, 7, "y", true, 0x100)]);
    assert!(batcave::journal::try_journal_batch(&mut map, &mut index, 'C', &b).unwrap().is_some());
    map.insert(10, ("p".to_string(), 11, true));
    let b = batch(5, &[record(11, 10, "q", true, 0x100)]);
    assert!(batcave::journal::try_journal_batch(&mut map, &mut index, 'C', &b).is_none());
}

#[test]
fn mft_names_decode_utf16_lossily() {
    // A name holding a surrogate pair, then an unpaired high and an unpaired low surrogate.
    let mut r = record(3, 5, "a\u{1F600}bcd", false, 0);
    let units: [u16; 6] = [0x61, 0xD83D, 0xDE00, 0xD800, 0x62, 0xDC00];
    for (i, u) in units.iter().enumerate() {
        r[60 + 2 * i..62 + 2 * i].copy_from_slice(&u.to_le_bytes());
    }
    assert_eq!(parse_record(&r).unwrap().name, "a\u{1F600}\u{FFFD}b\u{FFFD}");
}

