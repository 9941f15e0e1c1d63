use csv_repair::repair::{marker, render_outcome, repair_row, RepairOutcome, UnrepairableReason};
use csv_repair::schema::ColumnType;
use csv_repair::session::{parse_delimiter, ConfigError, RepairConfig, RepairCounts, RepairSession};
use csv_repair::tokenizer::split_line;
use csv_repair::text::join_fields;

fn sv(sv: Vec<&str>) -> Vec<String> {
    sv.iter().map(|s| s.to_string()).collect()
}

fn text_numeric_text() -> Vec<ColumnType> {
    vec![ColumnType::Text, ColumnType::Numeric, ColumnType::Text]
}

#[test]
fn split_keeps_delimiter_inside_quotes() {
    assert_eq!(split_line("a,\"b,c\",d", ','), sv(vec!["a", "b,c", "d"]));
}

#[test]
fn split_empty_line_is_one_empty_field() {
    assert_eq!(split_line("", ','), sv(vec![""]));
}

#[test]
fn split_plain_and_trailing_delimiter() {
    assert_eq!(split_line("a,1,2,b", ','), sv(vec!["a", "1", "2", "b"]));
    assert_eq!(split_line("a;b;", ';'), sv(vec!["a", "b", ""]));
    assert_eq!(split_line("a,b", ';'), sv(vec!["a,b"]));
}

#[test]
fn split_trims_all_outer_quotes_and_keeps_inner_ones() {
    assert_eq!(split_line("\"\"x\"\",y", ','), sv(vec!["x", "y"]));
    assert_eq!(split_line("a\"b\"c,d", ','), sv(vec!["a\"b\"c", "d"]));
    assert_eq!(split_line("\"\",x", ','), sv(vec!["", "x"]));
}

#[test]
fn split_unterminated_quote_runs_to_end() {
    assert_eq!(split_line("a,\"b,c", ','), sv(vec!["a", "b,c"]));
}

#[test]
fn scenario_smallest_groups_first_whatever_the_separator() {
    // "1" alone already fits the numeric column, so the search never needs "1,2".
    for sep in [",", "."] {
        let fields = split_line("a,1,2,b", ',');
        let out = repair_row(fields, &text_numeric_text(), true, ",", sep);
        match &out {
            RepairOutcome::Merged(v) => assert_eq!(v, &sv(vec!["a", "1", "2,b"])),
            _ => panic!("expected a merge"),
        }
        assert_eq!(render_outcome(&out, ","), "a,1,2,b");
    }
}

#[test]
fn scenario_decimal_separator_decides_merge() {
    let schema = vec![ColumnType::Numeric, ColumnType::Numeric];
    let out = repair_row(split_line("1,2,3", ','), &schema, true, ",", ",");
    match &out {
        RepairOutcome::Merged(v) => assert_eq!(v, &sv(vec!["1", "2,3"])),
        _ => panic!("expected a merge"),
    }
    let out = repair_row(split_line("1,2,3", ','), &schema, true, ",", ".");
    match &out {
        RepairOutcome::Unrepairable { fields, reason } => {
            assert_eq!(fields, &sv(vec!["1", "2", "3"]));
            assert_eq!(*reason, UnrepairableReason::MergeFailed { expected: 2, resolved: 0 });
        }
        _ => panic!("expected a failed merge"),
    }
    assert_eq!(render_outcome(&out, ","), "#BAD_MERGE_FAILED (3 champs, attendus 2, résolus 0),1,2,3");
}

#[test]
fn scenario_search_grows_earlier_groups() {
    // "y" cannot open the numeric column, so the first column grows to "x,y".
    let out = repair_row(sv(vec!["x", "y", "1", "2", "z"]), &text_numeric_text(), true, ",", ".");
    match out {
        RepairOutcome::Merged(v) => assert_eq!(v, sv(vec!["x,y", "1", "2,z"])),
        _ => panic!("expected a merge"),
    }
}

#[test]
fn scenario_no_partition_is_unrepairable() {
    let schema = vec![ColumnType::Numeric, ColumnType::Numeric, ColumnType::Text];
    let out = repair_row(sv(vec!["x", "y", "1", "2", "z"]), &schema, true, ",", ".");
    match out {
        RepairOutcome::Unrepairable { reason, .. } => {
            assert_eq!(reason, UnrepairableReason::MergeFailed { expected: 3, resolved: 0 })
        }
        _ => panic!("expected a failed merge"),
    }
}

#[test]
fn scenario_too_few_fields() {
    for schema in [text_numeric_text(), vec![ColumnType::Text; 3]] {
        let out = repair_row(sv(vec!["a", "b"]), &schema, true, ",", ".");
        match &out {
            RepairOutcome::Unrepairable { reason, .. } => assert_eq!(*reason, UnrepairableReason::TooFewFields),
            _ => panic!("expected too few fields"),
        }
        assert_eq!(render_outcome(&out, ","), "#BAD_FEW (2 champs),a,b");
    }
}

#[test]
fn well_formed_row_is_kept() {
    let fields = sv(vec!["a", "x", "b"]);
    let out = repair_row(fields.clone(), &text_numeric_text(), true, ",", ".");
    match &out {
        RepairOutcome::Exact(v) => assert_eq!(v, &fields),
        _ => panic!("expected the row kept"),
    }
    assert_eq!(render_outcome(&out, ";"), "a;x;b");
}

#[test]
fn merged_row_repairs_to_itself() {
    let schema = text_numeric_text();
    let first = repair_row(sv(vec!["a", "b", "1", "c"]), &schema, true, ",", ".");
    let merged = match first {
        RepairOutcome::Merged(v) => v,
        _ => panic!("expected a merge"),
    };
    assert_eq!(merged, sv(vec!["a,b", "1", "c"]));
    let again = repair_row(merged.clone(), &schema, true, ",", ".");
    match &again {
        RepairOutcome::Exact(v) => assert_eq!(v, &merged),
        _ => panic!("expected the row kept"),
    }
    assert_eq!(render_outcome(&again, ","), "a,b,1,c");
}

#[test]
fn over_wide_without_inference_is_marked() {
    let out = repair_row(sv(vec!["a", "b", "c", "d"]), &vec![ColumnType::Text; 3], false, ",", ".");
    match &out {
        RepairOutcome::Unrepairable { reason, .. } => assert_eq!(*reason, UnrepairableReason::NoInference),
        _ => panic!("expected a mark"),
    }
    assert_eq!(render_outcome(&out, ","), "#BAD_EXCESS_NO_INFERENCE (4 champs),a,b,c,d");
}

#[test]
fn marker_texts() {
    assert_eq!(marker(UnrepairableReason::TooFewFields, 1), "#BAD_FEW (1 champs)");
    assert_eq!(
        marker(UnrepairableReason::MergeFailed { expected: 12, resolved: 3 }, 15),
        "#BAD_MERGE_FAILED (15 champs, attendus 12, résolus 3)"
    );
    assert_eq!(marker(UnrepairableReason::NoInference, 0), "#BAD_EXCESS_NO_INFERENCE (0 champs)");
}

#[test]
fn join_fields_values() {
    assert_eq!(join_fields(&sv(vec![]), ","), "");
    assert_eq!(join_fields(&sv(vec!["a"]), ","), "a");
    assert_eq!(join_fields(&sv(vec!["a", "", "b"]), "::"), "a::::b");
}

#[test]
fn delimiter_parsing() {
    assert_eq!(parse_delimiter("\\t"), Some('\t'));
    assert_eq!(parse_delimiter(";"), Some(';'));
    assert_eq!(parse_delimiter("|x"), Some('|'));
    assert_eq!(parse_delimiter(""), None);
}

#[test]
fn config_errors() {
    assert_eq!(RepairConfig::new("", 3, ".", 10, None).unwrap_err(), ConfigError::EmptyDelimiter);
    assert_eq!(RepairConfig::new(",", 0, ".", 10, None).unwrap_err(), ConfigError::NoExpectedFields);
    assert_eq!(RepairConfig::new(",", 3, "", 10, None).unwrap_err(), ConfigError::EmptyDecimalSeparator);
    let c = RepairConfig::new("\\t", 3, ",", 10, Some(5)).unwrap();
    assert_eq!(c.delimiter, '\t');
    assert_eq!(c.expected_fields, 3);
    assert_eq!(c.decimal_separator, ',');
    assert_eq!(c.inference_sample_size, 10);
    assert_eq!(c.row_limit, Some(5));
}

#[test]
fn session_counts_each_kind() {
    let config = RepairConfig::new(",", 3, ".", 10, None).unwrap();
    let mut s = RepairSession::new(config, text_numeric_text());
    assert!(s.accepts_more());
    assert_eq!(s.repair_line("a,1,b"), "a,1,b");
    assert_eq!(s.repair_line("a,x,1,b"), "a,x,1,b");
    assert_eq!(s.repair_line("a,b"), "#BAD_FEW (2 champs),a,b");
    assert_eq!(s.repair_line("a,x,y,b"), "#BAD_MERGE_FAILED (4 champs, attendus 3, résolus 0),a,x,y,b");
    let c = s.counts();
    assert_eq!(
        c,
        RepairCounts { total: 4, ok: 1, fixed: 1, too_few: 1, merge_failed: 1, excess_no_inference: 0 }
    );
    assert_eq!(c.bad(), 2);
}

#[test]
fn session_without_inference_marks_over_wide_rows() {
    let config = RepairConfig::new(",", 2, ".", 0, None).unwrap();
    let mut s = RepairSession::new(config, vec![ColumnType::Text; 2]);
    assert_eq!(s.repair_line("a,b,c"), "#BAD_EXCESS_NO_INFERENCE (3 champs),a,b,c");
    assert_eq!(s.counts().excess_no_inference, 1);
}

#[test]
fn session_stops_at_row_limit() {
    let config = RepairConfig::new(",", 1, ".", 0, Some(2)).unwrap();
    let mut s = RepairSession::new(config, vec![ColumnType::Text]);
    assert_eq!(s.repair_line("x"), "x");
    assert!(s.accepts_more());
    assert_eq!(s.repair_line("\"y\""), "y");
    assert!(!s.accepts_more());
    assert_eq!(s.counts().total, 2);
}

#[test]
fn whole_pass_infers_then_repairs() {
    let input = "id,name,amount\n1,Smith,10.5\n2,Doe, John,20\n3,Roe,\n4,x\n5,A,B,C,3.5";
    let config = RepairConfig::new(",", 3, ".", 100, None).unwrap();
    let mut profiler = csv_repair::schema::TypeProfiler::new(3, 100, '.');
    for line in input.lines() {
        profiler.observe_row(&split_line(line, ','));
    }
    assert_eq!(profiler.sampled_rows(), 3);
    let schema = profiler.finish();
    // The header row makes the first and last columns text.
    assert_eq!(schema, vec![ColumnType::Text; 3]);

    let mut session = RepairSession::new(config, schema);
    let out: Vec<String> = input.lines().map(|l| session.repair_line(l)).collect();
    assert_eq!(
        out,
        sv(vec![
            "id,name,amount",
            "1,Smith,10.5",
            "2,Doe, John,20",
            "3,Roe,",
            "#BAD_FEW (2 champs),4,x",
            "5,A,B,C,3.5",
        ])
    );
    let c = session.counts();
    assert_eq!((c.total, c.ok, c.fixed, c.bad()), (6, 3, 2, 1));
}

#[test]
fn whole_pass_with_numeric_schema() {
    let input = "1,Smith,10.5\n2,Doe, John,20\n3,a,b,c\n4,x";
    let mut profiler = csv_repair::schema::TypeProfiler::new(3, 100, '.');
    for line in input.lines() {
        profiler.observe_row(&split_line(line, ','));
    }
    let schema = profiler.finish();
    assert_eq!(schema, vec![ColumnType::Numeric, ColumnType::Text, ColumnType::Numeric]);
    let config = RepairConfig::new(",", 3, ".", 100, None).unwrap();
    let mut session = RepairSession::new(config, schema);
    assert_eq!(session.repair_line("2,Doe, John,20"), "2,Doe, John,20");
    assert_eq!(session.repair_line("3,a,b,c"), "#BAD_MERGE_FAILED (4 champs, attendus 3, résolus 0),3,a,b,c");
    assert_eq!(session.counts().fixed, 1);
    assert_eq!(session.counts().merge_failed, 1);
}
