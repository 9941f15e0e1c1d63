use csv_repair::merge::try_merge_fields;
use csv_repair::schema::ColumnType;

fn sv(sv: Vec<&str>) -> Vec<String> {
    sv.iter().map(|s| s.to_string()).collect()
}

#[test]
fn test_merge_simple_numeric() {
    // "1" already fits the numeric column, so the search keeps it alone and the text column
    // takes the rest; "1,23" is not a number with '.' as decimal point.
    let fields = sv(vec!["1", "23", "text"]);
    let expected_types = vec![ColumnType::Numeric, ColumnType::Text];
    let mut resolved = Vec::new();
    let success = try_merge_fields(&fields, 0, 0, &expected_types, ".", ",", &mut resolved);
    assert!(success);
    assert_eq!(resolved, sv(vec!["1", "23,text"]));
}

#[test]
fn test_merge_simple_text() {
    let fields = sv(vec!["hello", "world", "123"]);
    let expected_types = vec![ColumnType::Text, ColumnType::Numeric];
    let mut resolved = Vec::new();
    let success = try_merge_fields(&fields, 0, 0, &expected_types, ".", ",", &mut resolved);
    assert!(success);
    assert_eq!(resolved, sv(vec!["hello,world", "123"]));
}

#[test]
fn test_merge_no_valid_merge() {
    let fields = sv(vec!["text1", "123", "text2"]);
    let expected_types = vec![ColumnType::Numeric, ColumnType::Text];
    let mut resolved = Vec::new();
    let success = try_merge_fields(&fields, 0, 0, &expected_types, ".", ",", &mut resolved);
    assert!(!success);
    assert!(resolved.is_empty());
}

#[test]
fn test_merge_multiple_merges() {
    // With '.' as decimal point "1,2" is no number: the numeric column takes "1" and the last
    // text column takes everything after it.
    let fields = sv(vec!["a", "b", "1", "2", "c", "d"]);
    let expected_types = vec![ColumnType::Text, ColumnType::Numeric, ColumnType::Text];
    let mut resolved = Vec::new();
    let success = try_merge_fields(&fields, 0, 0, &expected_types, ".", ",", &mut resolved);
    assert!(success);
    assert_eq!(resolved, sv(vec!["a,b", "1", "2,c,d"]));
}

#[test]
fn test_merge_complex_scenario_abc12c() {
    let fields = sv(vec!["a", "b", "1", "2", "c"]);
    let expected_types = vec![ColumnType::Text, ColumnType::Numeric, ColumnType::Text];
    let mut resolved = Vec::new();
    let success = try_merge_fields(&fields, 0, 0, &expected_types, ".", ",", &mut resolved);
    assert!(success);
    assert_eq!(resolved, sv(vec!["a,b", "1", "2,c"]));
}

#[test]
fn test_merge_with_empty_strings_as_part() {
    let fields = sv(vec!["text", "", "123"]);
    let expected_types = vec![ColumnType::Text, ColumnType::Numeric];
    let mut resolved = Vec::new();
    let success = try_merge_fields(&fields, 0, 0, &expected_types, ".", ",", &mut resolved);
    assert!(success);
    assert_eq!(resolved, sv(vec!["text,", "123"]));
}

#[test]
fn test_merge_with_empty_string_as_full_field_compatible_numeric() {
    let fields = sv(vec!["", "actual_text"]);
    let expected_types = vec![ColumnType::Numeric, ColumnType::Text];
    let mut resolved = Vec::new();
    let success = try_merge_fields(&fields, 0, 0, &expected_types, ".", ",", &mut resolved);
    assert!(success);
    assert_eq!(resolved, sv(vec!["", "actual_text"]));
}

#[test]
fn test_merge_producing_wrong_final_count_should_fail_overall_but_try_merge_may_succeed_partially() {
    // Every field must be consumed: the text column absorbs the fields left after "1".
    let fields = sv(vec!["1", "2", "text", "extra"]);
    let expected_types = vec![ColumnType::Numeric, ColumnType::Text];
    let mut resolved = Vec::new();
    let success = try_merge_fields(&fields, 0, 0, &expected_types, ".", ",", &mut resolved);
    assert!(success);
    assert_eq!(resolved, sv(vec!["1", "2,text,extra"]));

    // Fewer fields than columns: no partition exists.
    let fields2 = sv(vec!["1", "2"]);
    let expected_types2 = vec![ColumnType::Numeric, ColumnType::Text, ColumnType::Numeric];
    let mut resolved2 = Vec::new();
    let success2 = try_merge_fields(&fields2, 0, 0, &expected_types2, ".", ",", &mut resolved2);
    assert!(!success2);
    assert!(resolved2.is_empty());
}

#[test]
fn test_merge_single_field_to_multiple_targets_not_possible() {
    let fields = sv(vec!["a,b,c"]);
    let expected_types = vec![ColumnType::Text, ColumnType::Text];
    let mut resolved = Vec::new();
    let success = try_merge_fields(&fields, 0, 0, &expected_types, ".", ",", &mut resolved);
    assert!(!success);
}

#[test]
fn merge_keeps_what_was_already_resolved() {
    let fields = sv(vec!["x", "1", "2"]);
    let expected_types = vec![ColumnType::Numeric, ColumnType::Numeric];
    let mut resolved = sv(vec!["kept"]);
    let success = try_merge_fields(&fields, 1, 0, &expected_types, ".", ",", &mut resolved);
    assert!(success);
    assert_eq!(resolved, sv(vec!["kept", "1", "2"]));

    let mut resolved2 = sv(vec!["kept"]);
    let failed = try_merge_fields(&fields, 0, 0, &expected_types, ".", ",", &mut resolved2);
    assert!(!failed);
    assert_eq!(resolved2, sv(vec!["kept"]));
}

#[test]
fn merge_prefers_smallest_first_group() {
    // Two partitions fit: ["a"], ["b,c"] and ["a,b"], ["c"]; the first in search order wins.
    let fields = sv(vec!["a", "b", "c"]);
    let expected_types = vec![ColumnType::Text, ColumnType::Text];
    let mut resolved = Vec::new();
    assert!(try_merge_fields(&fields, 0, 0, &expected_types, ".", ",", &mut resolved));
    assert_eq!(resolved, sv(vec!["a", "b,c"]));
}

#[test]
fn merge_uses_decimal_separator() {
    let fields = sv(vec!["a", "1", "2"]);
    let expected_types = vec![ColumnType::Text, ColumnType::Numeric];
    let mut resolved = Vec::new();
    assert!(try_merge_fields(&fields, 0, 0, &expected_types, ",", ",", &mut resolved));
    assert_eq!(resolved, sv(vec!["a", "1,2"]));
    let mut resolved2 = Vec::new();
    assert!(try_merge_fields(&fields, 0, 0, &expected_types, ".", ",", &mut resolved2));
    assert_eq!(resolved2, sv(vec!["a,1", "2"]));
}

#[test]
fn merge_joins_with_given_delimiter() {
    let fields = sv(vec!["a", "b", "7"]);
    let expected_types = vec![ColumnType::Text, ColumnType::Numeric];
    let mut resolved = Vec::new();
    assert!(try_merge_fields(&fields, 0, 0, &expected_types, ".", "; ", &mut resolved));
    assert_eq!(resolved, sv(vec!["a; b", "7"]));
}
