use csv_utils::session::Sorter;
use csv_utils::validator::{RuleKind, ValidationRule, Validator};

fn rules(schema: &[(&str, RuleKind)]) -> Vec<ValidationRule> {
    schema
        .iter()
        .map(|(name, kind)| ValidationRule {
            column_name: name.as_bytes().to_vec(),
            kind: *kind,
        })
        .collect()
}

#[test]
fn failing_row_is_rejected_counted_and_logged() {
    let mut s = Sorter::new("src".to_string(), "sk".to_string(), vec![0], None, 10);
    s.enable_validation(rules(&[("u", RuleKind::Url), ("p", RuleKind::Protocol)]));
    let accepted = s.add_row(vec!["not a url".to_string(), "no-proto".to_string()], 0);
    assert!(!accepted);

    let sum = s.sort().unwrap();
    assert_eq!(sum.total_rows, 0);
    assert_eq!(sum.total_rows_processed, 1);
    assert_eq!(sum.failed_url_error_count, 1);
    assert_eq!(sum.failed_protocol_error_count, 1);
    assert_eq!(sum.parse_error_count, 0);
    assert_eq!(sum.error_count, 2);

    let mut expected: Vec<u8> = Vec::new();
    expected.extend_from_slice(b"\xEF\xBB\xBF");
    expected.extend_from_slice(b"Error Message,Row,Column\n");
    expected.extend_from_slice(b"u does not include a valid domain,1,1\n");
    expected.extend_from_slice(b"p does not include a valid link protocol,1,2\n");
    assert_eq!(s.error_log(), expected);

    let msg = s.first_error_message().unwrap();
    assert_eq!(msg, b"Invalid image URL: 0".to_vec());
}

#[test]
fn passing_row_is_admitted_and_counted() {
    let mut s = Sorter::new("src".to_string(), "sk".to_string(), vec![0], None, 10);
    s.enable_validation(rules(&[("u", RuleKind::Url), ("p", RuleKind::Protocol)]));
    let accepted = s.add_row(
        vec!["https://example.com/x".to_string(), "ftp://host".to_string()],
        0,
    );
    assert!(accepted);
    let sum = s.sort().unwrap();
    assert_eq!(sum.total_rows, 1);
    assert_eq!(sum.total_rows_processed, 1);
    assert_eq!(sum.error_count, 0);
    assert!(s.first_error_message().is_none());
}

#[test]
fn empty_and_missing_fields_pass_all_rules() {
    let mut s = Sorter::new("src".to_string(), "sk".to_string(), vec![0], None, 10);
    s.enable_validation(rules(&[("u", RuleKind::Url), ("p", RuleKind::Protocol)]));
    // an empty field is not checked, and a row shorter than the schema
    // leaves the later rules without a field to check
    assert!(s.add_row(vec!["".to_string()], 0));
    let sum = s.sort().unwrap();
    assert_eq!(sum.error_count, 0);
    assert_eq!(sum.total_rows, 1);
}

#[test]
fn ignored_columns_are_not_checked() {
    let mut s = Sorter::new("src".to_string(), "sk".to_string(), vec![0], None, 10);
    s.enable_validation(rules(&[("a", RuleKind::Ignore), ("p", RuleKind::Protocol)]));
    assert!(s.add_row(vec!["definitely not a url".to_string(), "x://y".to_string()], 0));
    let sum = s.sort().unwrap();
    assert_eq!(sum.error_count, 0);
}

#[test]
fn protocol_rule_requires_separator_anywhere() {
    let mut s = Sorter::new("src".to_string(), "sk".to_string(), vec![0], None, 10);
    s.enable_validation(rules(&[("p", RuleKind::Protocol)]));
    assert!(s.add_row(vec!["see https://x".to_string()], 0));
    assert!(!s.add_row(vec!["https:/x".to_string()], 1));
    let sum = s.sort().unwrap();
    assert_eq!(sum.failed_protocol_error_count, 1);
    assert_eq!(sum.total_rows, 1);
}

#[test]
fn parse_events_are_counted_and_reported_first() {
    let mut s = Sorter::new("src".to_string(), "sk".to_string(), vec![0], None, 10);
    s.enable_validation(rules(&[("u", RuleKind::Url)]));
    s.record_parse_error(0);
    s.record_parse_error(0);
    let sum = s.sort().unwrap();
    assert_eq!(sum.parse_error_count, 2);
    assert_eq!(sum.error_count, 2);
    let msg = s.first_error_message().unwrap();
    assert_eq!(msg, b"Error parsing row: 1".to_vec());
}

#[test]
fn validation_rejection_still_spills_when_due() {
    // the spill check runs before validation, as admission does
    let mut s = Sorter::new_with_budget("src".to_string(), "sk".to_string(), vec![0], None, 40);
    s.enable_validation(rules(&[("p", RuleKind::Protocol)]));
    assert!(s.add_row(vec!["x://aaaaaa".to_string()], 0));
    assert!(!s.add_row(vec!["nope-10ch!".to_string()], 1));
    let sum = s.sort().unwrap();
    // the first row spilled when the second arrived, then was merged
    assert_eq!(sum.total_rows, 1);
    assert_eq!(sum.file_count, 1);
}

#[test]
fn validator_status_snapshots_counters() {
    let mut v = Validator::new(rules(&[("p", RuleKind::Protocol)]));
    assert!(!v.validate_row(&vec![b"nope".to_vec()]));
    assert!(v.validate_row(&vec![b"x://y".to_vec()]));
    v.record_parse_error(7);
    let st = v.status();
    assert_eq!(st.total_rows_processed, 2);
    assert_eq!(st.failed_protocol_error_count, 1);
    assert_eq!(st.failed_url_error_count, 0);
    assert_eq!(st.parse_error_count, 1);
    assert_eq!(st.error_count, 2);
    assert_eq!(st.first_error_row, Some(0));
}

#[test]
fn detail_logging_stops_after_the_threshold_but_counting_continues() {
    let mut v = Validator::new(rules(&[("p", RuleKind::Protocol)]));
    let bad = vec![b"nope".to_vec()];
    for _ in 0..5001 {
        assert!(!v.validate_row(&bad));
    }
    // counts 1 through 5001 were at or below the threshold before the
    // increment, so each wrote a line
    let len_at_threshold = v.error_log.len();
    assert!(!v.validate_row(&bad));
    assert_eq!(v.error_log.len(), len_at_threshold);
    assert_eq!(v.failed_protocol_error_count, 5002);
    let lines = v.error_log.iter().filter(|b| **b == b'\n').count();
    assert_eq!(lines, 1 + 5001);
}
