use csv_repair::encoding::{encoding_for_label, encoding_for_lowercase_label, TextEncoding};
use csv_repair::repair::tail_merge_line;
use csv_repair::tally::{update_field_value_distribution, FieldCountTally, ValueTally};
use csv_repair::text::{chars_of, string_of};

fn sv(sv: Vec<&str>) -> Vec<String> {
    sv.iter().map(|s| s.to_string()).collect()
}

#[test]
fn encoding_labels_in_any_case() {
    assert_eq!(encoding_for_label("UTF-8"), Some(TextEncoding::Utf8));
    assert_eq!(encoding_for_label("utf-8"), Some(TextEncoding::Utf8));
    assert_eq!(encoding_for_label("Windows-1252"), Some(TextEncoding::Windows1252));
    assert_eq!(encoding_for_label("ISO-8859-1"), Some(TextEncoding::Windows1252));
    assert_eq!(encoding_for_label("latin1"), None);
    assert_eq!(encoding_for_label(""), None);
}

#[test]
fn encoding_lowercase_label_is_exact() {
    assert_eq!(encoding_for_lowercase_label("utf-8"), Some(TextEncoding::Utf8));
    assert_eq!(encoding_for_lowercase_label("iso-8859-1"), Some(TextEncoding::Windows1252));
    assert_eq!(encoding_for_lowercase_label("UTF-8"), None);
    assert_eq!(encoding_for_lowercase_label("utf-8 "), None);
}

#[test]
fn chars_round_trip() {
    let s = "aé,\"x\"";
    assert_eq!(string_of(&chars_of(s)), s);
    assert_eq!(chars_of(""), Vec::<char>::new());
}

#[test]
fn tail_merge_exact_width() {
    assert_eq!(tail_merge_line(&sv(vec!["a", "b"]), 2, ","), "a,b");
}

#[test]
fn tail_merge_folds_extra_fields_into_last_column() {
    assert_eq!(tail_merge_line(&sv(vec!["a", "b", "c", "d"]), 2, ";"), "a;b;c;d");
    assert_eq!(tail_merge_line(&sv(vec!["a", "b", "c"]), 1, ","), "a,b,c");
}

#[test]
fn tail_merge_marks_narrow_rows() {
    assert_eq!(tail_merge_line(&sv(vec!["a"]), 3, ","), "#BAD (1 champs),a");
    assert_eq!(tail_merge_line(&sv(vec!["a", "b"]), 0, ","), "#BAD (2 champs),a,b");
}

#[test]
fn field_count_tally_counts_rows() {
    let mut t = FieldCountTally::new();
    t.record(&sv(vec!["a", "b"]));
    t.record(&sv(vec!["a"]));
    t.record(&sv(vec!["c", "d"]));
    assert_eq!(t.count(2), 2);
    assert_eq!(t.count(1), 1);
    assert_eq!(t.count(5), 0);
    let m = t.into_map();
    assert_eq!(m.len(), 2);
}

#[test]
fn value_tally_counts_in_first_seen_order() {
    let mut t = ValueTally::new();
    t.record(&"x".to_string());
    t.record(&"y".to_string());
    t.record(&"x".to_string());
    assert_eq!(t.entries(), vec![("x".to_string(), 2), ("y".to_string(), 1)]);
}

#[test]
fn value_distribution_per_analyzed_field() {
    let mut tallies = vec![ValueTally::new(), ValueTally::new()];
    let indices = vec![0, 5];
    update_field_value_distribution(&sv(vec!["a", "b"]), &indices, &mut tallies);
    update_field_value_distribution(&sv(vec!["a", "c"]), &indices, &mut tallies);
    assert_eq!(tallies[0].entries(), vec![("a".to_string(), 2)]);
    // Column 5 is missing from both rows: its value counts as empty.
    assert_eq!(tallies[1].entries(), vec![(String::new(), 2)]);
}
