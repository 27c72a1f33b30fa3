use linear_get_ticket_prs::release_notes::{
    extract_author_key, extract_first_pr_ref, parse_author_map,
};

#[test]
fn test_extract_first_pr_ref_standard_merge() {
    let pr = extract_first_pr_ref("Merge pull request #456 from org/branch");
    assert_eq!(pr, Some(456));
}

#[test]
fn test_extract_first_pr_ref_squash() {
    let pr = extract_first_pr_ref("Add new feature (#789)");
    assert_eq!(pr, Some(789));
}

#[test]
fn test_extract_first_pr_ref_none() {
    let pr = extract_first_pr_ref("Regular commit with no PR");
    assert_eq!(pr, None);
}

#[test]
fn test_extract_first_pr_ref_takes_first() {
    let pr = extract_first_pr_ref("fix #10 and #20");
    assert_eq!(pr, Some(10));
}

#[test]
fn test_extract_author_key_standard() {
    let key = extract_author_key(
        "Merge pull request #123 from myorg/john/fix-bug",
        "myorg",
    );
    assert_eq!(key, Some("john".to_string()));
}

#[test]
fn test_extract_author_key_with_hyphens() {
    let key = extract_author_key(
        "Merge pull request #55 from acme/jane-doe/feature",
        "acme",
    );
    assert_eq!(key, Some("janedoe".to_string()));
}

#[test]
fn test_extract_author_key_no_match() {
    let key = extract_author_key(
        "Merge pull request #99 from other/user/branch",
        "myorg",
    );
    assert_eq!(key, None);
}

#[test]
fn test_extract_author_key_no_slash_after_key() {
    let key = extract_author_key(
        "Merge pull request #10 from myorg/alice",
        "myorg",
    );
    assert_eq!(key, Some("alice".to_string()));
}

#[test]
fn test_load_author_map_parses_entries() {
    // This tests the parsing logic, not actual git config
    let prefix = "rn.authors";
    let raw_lines = "rn.authors.mk mkdocs\nrn.authors.jd johndoe";
    let map = parse_author_map(raw_lines, prefix);
    assert_eq!(map.get("mk"), Some(&"mkdocs".to_string()));
    assert_eq!(map.get("jd"), Some(&"johndoe".to_string()));
    assert_eq!(map.len(), 2);
}
