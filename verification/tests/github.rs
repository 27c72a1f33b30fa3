use linear_get_ticket_prs::github::{extract_number_from_url, parse_pr_input};

#[test]
fn test_parse_pr_input_number_string() {
    assert_eq!(parse_pr_input("123"), None);
}

#[test]
fn test_parse_pr_input_full_url() {
    let url = "https://github.com/acme/repo/pull/456";
    assert_eq!(parse_pr_input(url), Some("456".to_string()));
}

#[test]
fn test_parse_pr_input_not_a_pr_url() {
    let url = "https://github.com/acme/repo/issues/789";
    assert_eq!(parse_pr_input(url), None);
}

#[test]
fn test_extract_number_from_url() {
    assert_eq!(
        extract_number_from_url("https://github.com/org/repo/pull/42"),
        Ok(42)
    );
}
