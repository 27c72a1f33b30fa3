use linear_get_ticket_prs::linear::{
    build_alias_query, build_issue_filter, extract_pr_number, json_string_array, GetTicketsParams,
};

#[test]
fn test_extract_pr_number_full_url() {
    assert_eq!(
        extract_pr_number("https://github.com/acme/widgets/pull/42"),
        Some(42)
    );
}

#[test]
fn test_extract_pr_number_trailing_slash() {
    assert_eq!(
        extract_pr_number("https://github.com/org/repo/pull/999/"),
        None
    );
}

#[test]
fn test_extract_pr_number_not_a_pr() {
    assert_eq!(
        extract_pr_number("https://github.com/org/repo/issues/10"),
        None
    );
}

#[test]
fn test_extract_pr_number_non_numeric() {
    assert_eq!(
        extract_pr_number("https://github.com/org/repo/pull/abc"),
        None
    );
}

#[test]
fn test_build_issue_filter_empty() {
    let params = GetTicketsParams {
        api_key: "",
        labels: &[],
        statuses: &[],
        assignees: &[],
        limit: None,
    };
    assert_eq!(build_issue_filter(&params), "{}");
}

#[test]
fn test_build_issue_filter_labels_only() {
    let labels = vec!["v1.0".to_string(), "rc-2026".to_string()];
    let params = GetTicketsParams {
        api_key: "",
        labels: &labels,
        statuses: &[],
        assignees: &[],
        limit: None,
    };
    let filter = build_issue_filter(&params);
    assert!(filter.contains(r#""v1.0""#));
    assert!(filter.contains(r#""rc-2026""#));
    assert!(filter.contains("labels:"));
    assert!(!filter.contains("state:"));
}

#[test]
fn test_build_issue_filter_all_fields() {
    let labels = vec!["bug".to_string()];
    let statuses = vec!["Done".to_string()];
    let assignees = vec!["Alice".to_string()];
    let params = GetTicketsParams {
        api_key: "",
        labels: &labels,
        statuses: &statuses,
        assignees: &assignees,
        limit: None,
    };
    let filter = build_issue_filter(&params);
    assert!(filter.contains("labels:"));
    assert!(filter.contains("state:"));
    assert!(filter.contains("assignee:"));
}

#[test]
fn test_json_string_array() {
    let values = vec!["hello".to_string(), "world".to_string()];
    assert_eq!(json_string_array(&values), r#"["hello", "world"]"#);
}

#[test]
fn test_json_string_array_with_quotes() {
    let values = vec![r#"say "hi""#.to_string()];
    assert_eq!(json_string_array(&values), r#"["say \"hi\""]"#);
}

#[test]
fn test_build_alias_query_single() {
    let ids = vec!["ABC-123".to_string()];
    let query = build_alias_query(&ids);
    assert!(query.contains(r#"i0: issue(id: "ABC-123")"#));
    assert!(query.contains("attachments"));
}

#[test]
fn test_build_alias_query_multiple() {
    let ids = vec!["ABC-1".to_string(), "DEF-2".to_string()];
    let query = build_alias_query(&ids);
    assert!(query.contains("i0:"));
    assert!(query.contains("i1:"));
    assert!(query.contains("ABC-1"));
    assert!(query.contains("DEF-2"));
}
