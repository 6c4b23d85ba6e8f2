use hoi4_editor::diagnostics::TextSpan;
use hoi4_editor::logistics::{
    content, load_logistics, parse_railways, parse_supply_nodes, parse_values, LogisticsInput,
    LogisticsLoadIssue, LogisticsRead, RAILWAYS_PATH, SUPPLY_NODES_PATH,
};

#[test]
fn comments_whitespace_and_sparse_ids_are_parsed_without_dense_assumptions() {
    assert_eq!(
        content("  1  4  1 7 42 500 # trunk"),
        Some(("1  4  1 7 42 500".to_owned(), 2))
    );
    assert_eq!(
        parse_values("1 4 1 7 42 500").unwrap(),
        vec![1, 4, 1, 7, 42, 500]
    );
    assert!(parse_values("1 -1 7").is_err());
}

#[test]
fn blank_and_comment_lines_have_no_content() {
    assert_eq!(content(""), None);
    assert_eq!(content("   \t "), None);
    assert_eq!(content("# only a comment"), None);
    assert_eq!(content("\u{a0}7 8\u{a0}#x"), Some(("7 8".to_owned(), 2)));
}

#[test]
fn values_follow_unsigned_number_syntax() {
    assert_eq!(parse_values("+5 0 4294967295").unwrap(), vec![5, 0, 4294967295]);
    assert_eq!(
        parse_values("1 4294967296").unwrap_err(),
        "'4294967296' is not an unsigned integer"
    );
    assert_eq!(
        parse_values("1 -1 x").unwrap_err(),
        "'-1' is not an unsigned integer"
    );
    assert_eq!(parse_values("+").unwrap_err(), "'+' is not an unsigned integer");
    assert_eq!(parse_values("").unwrap(), Vec::<u32>::new());
}

#[test]
fn railways_keep_line_numbers_and_report_spans_in_bytes() {
    let text = "# header\n1 2 10 11\r\n\n3 1\né 1 2\n  2 2 5 6 # tail";
    let result = parse_railways(RAILWAYS_PATH, text);
    assert_eq!(result.source.as_deref(), Some("map/railways.txt"));
    assert_eq!(result.railways.len(), 2);
    assert_eq!(result.railways[0].line_number, 2);
    assert_eq!(result.railways[0].level, 1);
    assert_eq!(result.railways[0].declared_province_count, 2);
    assert_eq!(result.railways[0].provinces, vec![10, 11]);
    assert_eq!(result.railways[1].line_number, 6);
    assert_eq!(result.railways[1].provinces, vec![5, 6]);
    assert_eq!(result.issues.len(), 2);
    assert_eq!(result.issues[0].line_number, Some(4));
    assert_eq!(result.issues[0].span, Some(TextSpan::new(21, 3)));
    assert_eq!(
        result.issues[0].message,
        "railway entry requires level, declared province count, and at least one province"
    );
    assert_eq!(result.issues[1].line_number, Some(5));
    assert_eq!(result.issues[1].span, Some(TextSpan::new(25, 6)));
    assert_eq!(
        result.issues[1].message,
        "invalid railway entry: 'é' is not an unsigned integer"
    );
}

#[test]
fn supply_nodes_need_a_level_and_a_province() {
    let result = parse_supply_nodes(SUPPLY_NODES_PATH, "1 42\n7\n1 500 # port\n");
    assert_eq!(result.supply_nodes.len(), 2);
    assert_eq!(result.supply_nodes[0].province_id, 42);
    assert_eq!(result.supply_nodes[1].province_id, 500);
    assert_eq!(result.supply_nodes[1].line_number, 3);
    assert_eq!(result.issues.len(), 1);
    assert_eq!(result.issues[0].input, LogisticsInput::SupplyNode);
    assert_eq!(result.issues[0].span, Some(TextSpan::new(5, 1)));
}

#[test]
fn absent_and_failed_inputs_are_reported_without_entries() {
    let failure = LogisticsLoadIssue {
        input: LogisticsInput::SupplyNode,
        source: None,
        line_number: None,
        span: None,
        message: "cannot read map/supply_nodes.txt".to_owned(),
    };
    let result = load_logistics(LogisticsRead::Absent, LogisticsRead::Failed(failure.clone()));
    assert_eq!(result.railways.source, None);
    assert!(result.railways.railways.is_empty());
    assert!(result.railways.issues.is_empty());
    assert_eq!(result.supply_nodes.issues, vec![failure]);
    let loaded = load_logistics(
        LogisticsRead::Text {
            source: RAILWAYS_PATH.to_owned(),
            text: "1 1 9".to_owned(),
        },
        LogisticsRead::Absent,
    );
    assert_eq!(loaded.railways.railways[0].provinces, vec![9]);
}
