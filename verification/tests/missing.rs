use linear_get_ticket_prs::missing::{
    build_rg_pattern, compute_effective, extract_pr_refs_from_subject, parse_pr_numbers,
};

#[test]
fn test_parse_pr_numbers_valid() {
    let lines = vec!["123".to_string(), "456".to_string(), "789".to_string()];
    let result = parse_pr_numbers(&lines).unwrap();
    assert_eq!(result, vec![123, 456, 789]);
}

#[test]
fn test_parse_pr_numbers_dedup() {
    let lines = vec!["100".to_string(), "200".to_string(), "100".to_string()];
    let result = parse_pr_numbers(&lines).unwrap();
    assert_eq!(result, vec![100, 200]);
}

#[test]
fn test_parse_pr_numbers_invalid() {
    let lines = vec!["123".to_string(), "abc".to_string()];
    let result = parse_pr_numbers(&lines);
    assert!(result.is_err());
}

#[test]
fn test_parse_pr_numbers_zero_rejected() {
    let lines = vec!["0".to_string()];
    let result = parse_pr_numbers(&lines);
    assert!(result.is_err());
}

#[test]
fn test_parse_pr_numbers_empty() {
    let lines: Vec<String> = vec![];
    let result = parse_pr_numbers(&lines);
    assert!(result.is_err());
}

#[test]
fn test_build_rg_pattern_single() {
    let prs = vec![42];
    assert_eq!(build_rg_pattern(&prs), r"#(42)\b");
}

#[test]
fn test_build_rg_pattern_multiple() {
    let prs = vec![123, 456, 789];
    assert_eq!(build_rg_pattern(&prs), r"#(123|456|789)\b");
}

#[test]
fn test_compute_effective_odd_present() {
    // 10 appears 3 times (odd → present), 20 appears 1 time (odd → present)
    let mentions = vec![10, 20, 10, 10];
    let effective = compute_effective(&mentions);
    assert!(effective.contains(&10));
    assert!(effective.contains(&20));
}

#[test]
fn test_compute_effective_even_absent() {
    let mentions = vec![5, 5];
    let effective = compute_effective(&mentions);
    assert!(!effective.contains(&5));
}

#[test]
fn test_compute_effective_mixed() {
    // 1 appears 3 times (odd → present), 2 appears 2 times (even → absent), 3 appears 1 time (odd → present)
    let mentions = vec![1, 2, 3, 1, 2, 1];
    let effective = compute_effective(&mentions);
    assert!(effective.contains(&1));
    assert!(!effective.contains(&2));
    assert!(effective.contains(&3));
}

#[test]
fn test_compute_effective_empty() {
    let mentions: Vec<u64> = vec![];
    let effective = compute_effective(&mentions);
    assert!(effective.is_empty());
}

#[test]
fn test_extract_pr_refs_from_subject_single() {
    let refs = extract_pr_refs_from_subject("Merge pull request #123 from org/branch");
    assert_eq!(refs, vec![123]);
}

#[test]
fn test_extract_pr_refs_from_subject_multiple() {
    let refs = extract_pr_refs_from_subject("fix #10 and #20");
    assert_eq!(refs, vec![10, 20]);
}

#[test]
fn test_extract_pr_refs_word_boundary() {
    // #12 must not match inside #123
    let refs = extract_pr_refs_from_subject("issue #123 resolved");
    assert_eq!(refs, vec![123]);
    assert!(!refs.contains(&12));
}

#[test]
fn test_extract_pr_refs_no_match() {
    let refs = extract_pr_refs_from_subject("no references here");
    assert!(refs.is_empty());
}

#[test]
fn test_extract_pr_refs_at_end_of_string() {
    let refs = extract_pr_refs_from_subject("fixed #99");
    assert_eq!(refs, vec![99]);
}

#[test]
fn test_extract_pr_refs_followed_by_punctuation() {
    let refs = extract_pr_refs_from_subject("see #55, #66.");
    assert_eq!(refs, vec![55, 66]);
}
