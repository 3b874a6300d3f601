use csv_utils::session::Sorter;
use sha1::{Digest, Sha1};

/// The 20-byte targeting key a row should get: SHA-1 over the source id,
/// then a comma and the key column's bytes.
fn expected_key(source_id: &str, key_col: &str) -> [u8; 20] {
    let mut h = Sha1::new();
    h.update(source_id.as_bytes());
    h.update(b",");
    h.update(key_col.as_bytes());
    h.finalize().into()
}

fn expected_key_hex(source_id: &str, key_col: &str) -> String {
    faster_hex::hex_string(&expected_key(source_id, key_col))
}

fn strings(row: &[&str]) -> Vec<String> {
    row.iter().map(|s| s.to_string()).collect()
}

#[test]
fn empty_input_reports_zero() {
    let mut s = Sorter::new("src".to_string(), "sk".to_string(), vec![0], None, 10);
    let sum = s.sort().unwrap();
    assert_eq!(sum.total_rows, 0);
    assert_eq!(sum.file_count, 0);
    assert_eq!(sum.error_count, 0);
    let batches = s.each_batch(10);
    assert!(batches.is_empty());
}

#[test]
fn empty_input_copy_is_header_and_trailer() {
    let mut s = Sorter::new("src".to_string(), "sk".to_string(), vec![0], None, 10);
    s.sort().unwrap();
    let geo = Vec::new();
    let bytes = s.binary_copy_bytes(&geo, 0).unwrap();
    assert_eq!(bytes.len(), 21);
    assert_eq!(&bytes[0..11], b"PGCOPY\n\xff\r\n\0");
    assert_eq!(&bytes[11..19], &[0u8; 8]);
    assert_eq!(&bytes[19..21], &[0xffu8, 0xff]);
}

#[test]
fn in_memory_fast_path_orders_by_key_then_position_desc() {
    let mut s = Sorter::new("src".to_string(), "sk".to_string(), vec![0], None, 10);
    assert!(s.add_row(strings(&["b", "x0"]), 0));
    assert!(s.add_row(strings(&["a", "x1"]), 1));
    assert!(s.add_row(strings(&["a", "x2"]), 2));
    assert!(s.add_row(strings(&["c", "x3"]), 3));
    let sum = s.sort().unwrap();
    assert_eq!(sum.total_rows, 4);
    assert_eq!(sum.file_count, 0);

    let batches = s.each_batch(10);
    assert_eq!(batches.len(), 1);
    let items = &batches[0];
    assert_eq!(items.len(), 4);

    // expected order: key bytes ascending, position descending within a key
    let mut expected: Vec<(Vec<u8>, u64, Vec<&str>)> = vec![
        (expected_key("src", "b").to_vec(), 0, vec!["b", "x0"]),
        (expected_key("src", "a").to_vec(), 1, vec!["a", "x1"]),
        (expected_key("src", "a").to_vec(), 2, vec!["a", "x2"]),
        (expected_key("src", "c").to_vec(), 3, vec!["c", "x3"]),
    ];
    expected.sort_by(|a, b| a.0.cmp(&b.0).then(b.1.cmp(&a.1)));
    for (item, exp) in items.iter().zip(expected.iter()) {
        assert_eq!(item.key_hex, faster_hex::hex_string(&exp.0));
        let row: Vec<Vec<u8>> = exp.2.iter().map(|c| c.as_bytes().to_vec()).collect();
        assert_eq!(item.row, row);
    }

    // within the 'a' group, position 2 precedes position 1
    let a_hex = expected_key_hex("src", "a");
    let a_rows: Vec<&Vec<Vec<u8>>> = items
        .iter()
        .filter(|it| it.key_hex == a_hex)
        .map(|it| &it.row)
        .collect();
    assert_eq!(a_rows.len(), 2);
    assert_eq!(a_rows[0][1], b"x2".to_vec());
    assert_eq!(a_rows[1][1], b"x1".to_vec());
}

#[test]
fn spill_path_reports_three_runs_and_sorts_globally() {
    // each row estimates to 28 + 10 bytes; a 76-byte budget forces a
    // spill of two rows each time a third would be buffered
    let mut s = Sorter::new_with_budget("src".to_string(), "sk".to_string(), vec![0], None, 76);
    for i in 0..6u64 {
        let v = format!("val{:07}", i);
        assert_eq!(v.len(), 10);
        assert!(s.add_row(vec![v], i));
    }
    let sum = s.sort().unwrap();
    assert_eq!(sum.total_rows, 6);
    assert_eq!(sum.file_count, 3);

    let batches = s.each_batch(100);
    assert_eq!(batches.len(), 1);
    let items = &batches[0];
    assert_eq!(items.len(), 6);
    let mut hexes: Vec<String> = items.iter().map(|it| it.key_hex.clone()).collect();
    let sorted_hexes = {
        let mut h = hexes.clone();
        h.sort();
        h
    };
    assert_eq!(hexes, sorted_hexes);
    hexes.dedup();
    assert_eq!(hexes.len(), 6);
}

#[test]
fn cap_keeps_the_most_recent_two_hundred() {
    let mut s = Sorter::new("src".to_string(), "sk".to_string(), vec![0], None, 50);
    for i in 0..205u64 {
        assert!(s.add_row(vec!["k".to_string(), i.to_string()], i));
    }
    let sum = s.sort().unwrap();
    assert_eq!(sum.total_rows, 205);

    let batches = s.each_batch(1000);
    assert_eq!(batches.len(), 1);
    let items = &batches[0];
    assert_eq!(items.len(), 200);
    for (n, item) in items.iter().enumerate() {
        let expected_pos = 204 - n as u64;
        assert_eq!(item.row[1], expected_pos.to_string().into_bytes());
    }
}

#[test]
fn batches_do_not_split_a_key_group() {
    let mut s = Sorter::new("src".to_string(), "sk".to_string(), vec![0], None, 10);
    let mut pos: u64 = 0;
    for key in ["a", "b", "c", "d"] {
        for _ in 0..3 {
            assert!(s.add_row(vec![key.to_string(), pos.to_string()], pos));
            pos += 1;
        }
    }
    s.sort().unwrap();
    let batches = s.each_batch(2);
    assert!(batches.len() > 1);
    let mut total = 0;
    for (b, batch) in batches.iter().enumerate() {
        assert!(!batch.is_empty());
        if b + 1 < batches.len() {
            assert!(batch.len() >= 2);
            let last = &batch[batch.len() - 1];
            let next_first = &batches[b + 1][0];
            assert_ne!(last.key_hex, next_first.key_hex);
        }
        total += batch.len();
    }
    assert_eq!(total, 12);
}

#[test]
fn non_ascii_rows_round_trip_as_utf8() {
    let mut s = Sorter::new("src".to_string(), "sk".to_string(), vec![0], None, 10);
    assert!(s.add_row(vec!["h\u{e9}llo".to_string()], 0));
    s.sort().unwrap();
    let batches = s.each_batch(10);
    assert_eq!(batches[0][0].row[0], "h\u{e9}llo".as_bytes().to_vec());
}

#[test]
fn summary_without_validation_reports_zero_errors() {
    let mut s = Sorter::new("src".to_string(), "sk".to_string(), vec![0], None, 10);
    assert!(s.add_row(vec!["a".to_string()], 0));
    let sum = s.sort().unwrap();
    assert_eq!(sum.total_rows_processed, 0);
    assert_eq!(sum.failed_url_error_count, 0);
    assert_eq!(sum.failed_protocol_error_count, 0);
    assert_eq!(sum.parse_error_count, 0);
    assert_eq!(sum.error_count, 0);
}

#[test]
fn cap_is_configurable() {
    let mut s = Sorter::new("src".to_string(), "sk".to_string(), vec![0], None, 10);
    s.set_max_per_key(2);
    for i in 0..5u64 {
        assert!(s.add_row(vec!["k".to_string(), i.to_string()], i));
    }
    s.sort().unwrap();
    let batches = s.each_batch(100);
    assert_eq!(batches.len(), 1);
    let items = &batches[0];
    assert_eq!(items.len(), 2);
    assert_eq!(items[0].row[1], b"4".to_vec());
    assert_eq!(items[1].row[1], b"3".to_vec());
}
