use linear_get_ticket_prs::cli::pr_output_line;
use linear_get_ticket_prs::github::{merged_pr_number, parse_pr_input, PrState};
use linear_get_ticket_prs::linear::{extract_pr_number, AliasEntry, IssueAttachments, PrCollector};
use linear_get_ticket_prs::missing::{
    analyze, build_rg_pattern, compute_effective, extract_pr_refs_from_subject, parse_mentions,
};
use linear_get_ticket_prs::release_notes::extract_first_pr_ref;

#[test]
fn printed_url_reads_back_as_same_pr() {
    let url = pr_output_line(Some("acme/widgets"), 42);
    assert_eq!(url, "https://github.com/acme/widgets/pull/42");
    assert_eq!(extract_pr_number(&url), Some(42));
    assert_eq!(parse_pr_input(&url), Some("42".to_string()));
    assert_eq!(merged_pr_number(&url, &state("MERGED")), Some(42));
}

#[test]
fn number_input_kept_when_merged() {
    assert_eq!(merged_pr_number("17", &state("MERGED")), Some(17));
    assert_eq!(merged_pr_number("17", &state("OPEN")), None);
    assert_eq!(merged_pr_number("0", &state("MERGED")), None);
}

#[test]
fn effective_is_odd_mention_count() {
    let mentions = vec![7, 7, 7, 8, 8, 9];
    let eff = compute_effective(&mentions);
    assert!(eff.contains(&7));
    assert!(!eff.contains(&8));
    assert!(eff.contains(&9));
    assert_eq!(eff.len(), 2);
}

#[test]
fn missing_is_main_minus_release_in_main_order() {
    // main mentions newest first: 30, 20 (reverted twice -> 3 mentions), 10
    let main = vec![30, 20, 20, 10, 20, 40];
    let release = vec![10, 40];
    let watched = vec![50, 10, 30, 20, 5];
    let a = analyze(&watched, &main, &release);
    assert_eq!(a.missing, vec![30, 20]);
    assert_eq!(a.not_found, vec![5, 50]);
    assert_eq!(a.main_effective.len(), 4);
    assert_eq!(a.release_effective.len(), 2);
}

#[test]
fn first_ref_is_first_of_all_refs() {
    let subject = "Revert #12a then fix #34 and #56";
    let all = extract_pr_refs_from_subject(subject);
    assert_eq!(all, vec![34, 56]);
    assert_eq!(extract_first_pr_ref(subject), Some(34));
}

fn entry(alias: &str, urls: &[&str]) -> AliasEntry {
    AliasEntry {
        alias: alias.to_string(),
        issue: Some(IssueAttachments {
            assignee: None,
            urls: urls.iter().map(|u| u.to_string()).collect(),
        }),
    }
}

#[test]
fn collected_prs_distinct_and_within_limit() {
    let batch = vec!["A-1".to_string(), "A-2".to_string()];
    let entries = vec![
        entry("i0", &["https://github.com/o/r/pull/1", "https://github.com/o/r/pull/2"]),
        entry("i1", &["https://github.com/o/r/pull/2", "https://github.com/o/r/pull/3"]),
    ];
    let mut c = PrCollector::new(Some(2));
    let warnings = c.take_batch(&batch, &entries);
    assert!(warnings.is_empty());
    assert!(c.is_finished());
    assert_eq!(c.into_prs(), vec![1, 2]);

    let mut c = PrCollector::new(None);
    let _ = c.take_batch(&batch, &entries);
    assert!(!c.is_finished());
    assert_eq!(c.into_prs(), vec![1, 2, 3]);
}

#[test]
fn mentions_read_back_as_tracked_prs() {
    let prs = vec![7, 1234, 18446744073709551615];
    assert_eq!(build_rg_pattern(&prs), r"#(7|1234|18446744073709551615)\b");
    let rg_output: String = prs.iter().map(|p| format!("#{p}\n")).collect();
    assert_eq!(parse_mentions(&rg_output), prs);
}

#[test]
fn string_array_reads_back_through_serde_json() {
    let cases: Vec<Vec<String>> = vec![
        vec![],
        vec![String::new()],
        vec!["hello".to_string(), "world".to_string()],
        vec![r#"say "hi""#.to_string(), r"back\slash".to_string(), "ünïcødé ✓".to_string()],
        vec![r#"\""#.to_string(), "\u{7f}".to_string()],
    ];
    for values in cases {
        let text = linear_get_ticket_prs::linear::json_string_array(&values);
        let back: Vec<String> = serde_json::from_str(&text).unwrap();
        assert_eq!(back, values);
    }
}

fn state(s: &str) -> PrState {
    PrState { state: s.to_string() }
}
