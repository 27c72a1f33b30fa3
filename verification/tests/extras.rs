use linear_get_ticket_prs::release_notes::{ancestry_outcome, author_map_from_config};
use linear_get_ticket_prs::cli::{doc_page, titlecase};
use linear_get_ticket_prs::error::ToolError;
use linear_get_ticket_prs::github::{extract_number_from_url, pr_ref_for};
use linear_get_ticket_prs::linear::{
    alias_batches, choose_api_key, graphql_body, graphql_data, AliasEntry, GetTicketsParams,
    IssueAttachments, PrCollector, TicketPager,
};
use linear_get_ticket_prs::missing::{
    apply_body, cherry_pick_command, execute, is_release_branch, missing_table, not_found_table,
    parse_mentions, parse_pr_numbers, release_branch_from_head, resolve_from_log, summary_table,
    MissingPrsArgs, ResolvedPr,
};
use linear_get_ticket_prs::release_notes::{
    note_line, parse_author_map, parse_commit_lines, resolve_author, AuthorMap,
};
use linear_get_ticket_prs::text::{clean_lines, first_nonblank_line, parse_u64, trim_str};

#[test]
fn parse_u64_follows_std() {
    assert_eq!(parse_u64("+5"), Some(5));
    assert_eq!(parse_u64("18446744073709551615"), Some(u64::MAX));
    assert_eq!(parse_u64("18446744073709551616"), None);
    assert_eq!(parse_u64(""), None);
    assert_eq!(parse_u64("+"), None);
    assert_eq!(parse_u64("-1"), None);
    assert_eq!(parse_u64(" 1"), None);
    for s in ["0", "7", "+12", "0042", "abc", "1a", "99999999999999999999"] {
        assert_eq!(parse_u64(s), s.parse::<u64>().ok(), "{s}");
    }
}

#[test]
fn extract_number_from_url_error() {
    assert!(extract_number_from_url("https://github.com/org/repo/pull/abc").is_err());
    assert!(extract_number_from_url("https://github.com/org/repo/pull/").is_err());
}

#[test]
fn pr_ref_for_inputs() {
    assert_eq!(pr_ref_for("https://github.com/a/b/pull/9"), "9");
    assert_eq!(pr_ref_for("123"), "123");
    assert_eq!(pr_ref_for("https://example.com/a/pull/9"), "https://example.com/a/pull/9");
}

#[test]
fn trim_and_clean_lines() {
    assert_eq!(trim_str(" \t a b \u{3000}\n"), "a b");
    let raw = vec![" 1 ".to_string(), "".to_string(), "   ".to_string(), "2".to_string()];
    assert_eq!(clean_lines(&raw), vec!["1".to_string(), "2".to_string()]);
}

#[test]
fn first_nonblank_line_of_body() {
    assert_eq!(first_nonblank_line("\n  \n  hello world  \nnext"), "hello world");
    assert_eq!(first_nonblank_line(" \n\t\n"), "");
    assert_eq!(first_nonblank_line(""), "");
}

#[test]
fn error_messages() {
    assert_eq!(
        ToolError::ApiKeyNotFound.message(),
        "Linear API key not found. Provide --api-key or set LINEAR_API_KEY"
    );
    let e = ToolError::SubprocessFailed {
        command: "gh".to_string(),
        stderr: "boom".to_string(),
        exit_code: Some(-3),
    };
    assert_eq!(e.message(), "gh exited with code -3: boom");
    let e = ToolError::SubprocessFailed {
        command: "git log".to_string(),
        stderr: String::new(),
        exit_code: None,
    };
    assert_eq!(e.message(), "git log exited with code unknown: ");
    let e = ToolError::SubprocessFailed {
        command: "rg".to_string(),
        stderr: "x".to_string(),
        exit_code: Some(i32::MIN),
    };
    assert_eq!(e.message(), "rg exited with code -2147483648: x");
    assert_eq!(
        ToolError::GraphqlErrors(vec!["a".to_string(), "b".to_string()]).message(),
        "GraphQL errors: a; b"
    );
    assert_eq!(
        ToolError::InvalidTicketId("X".to_string()).message(),
        "invalid ticket identifier: X"
    );
    assert_eq!(
        ToolError::InvalidPrNumber("abc".to_string()).message(),
        "invalid PR number (expected positive integer): abc"
    );
    assert_eq!(ToolError::EmptyInput.message(), "no PR numbers provided on stdin");
    assert_eq!(
        ToolError::InvalidBranch("rel".to_string()).message(),
        "branch does not exist as a local git ref: rel"
    );
    assert_eq!(
        ToolError::NoBranchDetected.message(),
        "no --release-branch provided and current branch is not a release/* branch"
    );
    assert_eq!(
        ToolError::MissingTool("rg".to_string()).message(),
        "required tool not found on PATH: rg"
    );
    assert_eq!(
        ToolError::NotAncestor { base: "v1".to_string(), head: "v2".to_string() }.message(),
        "v1 is not an ancestor of v2 \u{2014} refusing to continue (will not silently swap arguments)"
    );
    let io = std::io::Error::new(std::io::ErrorKind::Other, "disk");
    assert_eq!(ToolError::from(io).message(), "I/O error: disk");
    let json_err = serde_json::from_str::<serde_json::Value>("{").unwrap_err();
    let text = json_err.to_string();
    assert_eq!(
        ToolError::from(json_err).message(),
        format!("failed to parse JSON response: {text}")
    );
}

#[test]
fn graphql_body_and_outcome() {
    assert_eq!(graphql_body("{ a \"b\" }").unwrap(), r#"{"query":"{ a \"b\" }"}"#);
    assert_eq!(
        graphql_body("a\\b\u{8}\u{c}\n\r\t\u{1}\u{1f}\u{7f}é").unwrap(),
        "{\"query\":\"a\\\\b\\b\\f\\n\\r\\t\\u0001\\u001f\u{7f}é\"}"
    );
    let ok: Result<u8, ToolError> = graphql_data(vec![], Some(3));
    assert_eq!(ok.unwrap(), 3);
    match graphql_data::<u8>(vec!["bad".to_string()], Some(1)) {
        Err(ToolError::GraphqlErrors(m)) => assert_eq!(m, vec!["bad".to_string()]),
        _ => panic!("expected GraphQL errors"),
    }
    match graphql_data::<u8>(vec![], None) {
        Err(ToolError::GraphqlErrors(m)) => {
            assert_eq!(m, vec!["response missing 'data' field".to_string()])
        }
        _ => panic!("expected GraphQL errors"),
    }
}

#[test]
fn api_key_choice() {
    assert_eq!(choose_api_key(Some("k"), Some("e".to_string())).unwrap(), "k");
    assert_eq!(choose_api_key(None, Some("e".to_string())).unwrap(), "e");
    assert!(matches!(choose_api_key(None, None), Err(ToolError::ApiKeyNotFound)));
}

#[test]
fn ticket_pager_pages_and_limit() {
    let labels = vec!["v1".to_string()];
    let params = GetTicketsParams {
        api_key: "k",
        labels: &labels,
        statuses: &[],
        assignees: &[],
        limit: Some(3),
    };
    let mut pager = TicketPager::new(&params);
    let q = pager.next_query().unwrap();
    assert_eq!(
        q,
        r#"{ issues(filter: { labels: { name: { in: ["v1"] } } }, first: 3) { nodes { identifier } pageInfo { hasNextPage endCursor } } }"#
    );
    pager.take_page(vec!["A-1".to_string(), "A-2".to_string()], true, Some("c\"1".to_string()));
    let q = pager.next_query().unwrap();
    assert!(q.contains(r#"first: 1, after: "c\"1")"#));
    pager.take_page(vec!["A-3".to_string(), "A-4".to_string()], true, Some("c2".to_string()));
    assert_eq!(pager.next_query(), None);
    assert_eq!(
        pager.into_tickets(),
        vec!["A-1".to_string(), "A-2".to_string(), "A-3".to_string()]
    );

    let none = GetTicketsParams { api_key: "k", labels: &[], statuses: &[], assignees: &[], limit: None };
    let mut pager = TicketPager::new(&none);
    assert!(pager.next_query().unwrap().contains("first: 50)"));
    pager.take_page(vec!["B-1".to_string()], false, None);
    assert_eq!(pager.next_query(), None);

    let zero = GetTicketsParams { api_key: "k", labels: &[], statuses: &[], assignees: &[], limit: Some(0) };
    assert_eq!(TicketPager::new(&zero).next_query(), None);
}

#[test]
fn alias_batches_of_fifty() {
    let ids: Vec<String> = (0..120).map(|i| format!("T-{i}")).collect();
    let batches = alias_batches(&ids);
    assert_eq!(batches.len(), 3);
    assert_eq!(batches[0].len(), 50);
    assert_eq!(batches[2].len(), 20);
    assert_eq!(batches[2][0], "T-100");
    assert!(alias_batches(&[]).is_empty());
}

#[test]
fn collector_warnings() {
    let batch = vec!["A-1".to_string(), "A-2".to_string(), "A-3".to_string()];
    let entries = vec![
        AliasEntry { alias: "i0".to_string(), issue: None },
        AliasEntry {
            alias: "i1".to_string(),
            issue: Some(IssueAttachments {
                assignee: Some("Jane".to_string()),
                urls: vec!["https://linear.app/x".to_string()],
            }),
        },
        AliasEntry {
            alias: "i2".to_string(),
            issue: Some(IssueAttachments { assignee: None, urls: vec![] }),
        },
        AliasEntry { alias: "i9".to_string(), issue: None },
    ];
    let mut c = PrCollector::new(None);
    let warnings = c.take_batch(&batch, &entries);
    assert_eq!(
        warnings,
        vec![
            "warning: A-1 \u{2014} ticket not found or inaccessible".to_string(),
            "warning: A-2 \u{2014} no associated PRs found (assignee: Jane)".to_string(),
            "warning: A-3 \u{2014} no associated PRs found (unassigned)".to_string(),
        ]
    );
    assert!(c.into_prs().is_empty());

    // a limit of zero still keeps the first PR found
    let mut c = PrCollector::new(Some(0));
    let entries = vec![AliasEntry {
        alias: "i0".to_string(),
        issue: Some(IssueAttachments {
            assignee: None,
            urls: vec![
                "https://github.com/o/r/pull/5".to_string(),
                "https://github.com/o/r/pull/6".to_string(),
            ],
        }),
    }];
    let _ = c.take_batch(&batch, &entries);
    assert_eq!(c.into_prs(), vec![5]);
}

#[test]
fn missing_prs_plan() {
    let args = MissingPrsArgs { release_branch: Some("release/v1".to_string()) };
    let plan = execute(&args, &[" 5 ".to_string(), "".to_string(), "5".to_string(), "7".to_string()]).unwrap();
    assert_eq!(plan.prs, vec![5, 7]);
    assert_eq!(plan.release_branch, Some("release/v1".to_string()));
    assert!(matches!(execute(&args, &["  ".to_string()]), Err(ToolError::EmptyInput)));
    match execute(&args, &["1".to_string(), " x ".to_string()]) {
        Err(ToolError::InvalidPrNumber(l)) => assert_eq!(l, "x"),
        _ => panic!("expected an invalid PR number"),
    }
    match parse_pr_numbers(&["1".to_string(), "0".to_string(), "y".to_string()]) {
        Err(ToolError::InvalidPrNumber(l)) => assert_eq!(l, "0"),
        _ => panic!("expected an invalid PR number"),
    }
}

#[test]
fn release_branch_detection() {
    assert!(is_release_branch("release/v1.2.3\n"));
    assert!(!is_release_branch("main\n"));
    assert!(!is_release_branch("release/1.0"));
    assert_eq!(release_branch_from_head(" release/v2 \n").unwrap(), "release/v2");
    assert!(matches!(release_branch_from_head("feature/x"), Err(ToolError::NoBranchDetected)));
}

#[test]
fn mentions_from_rg_output() {
    assert_eq!(parse_mentions("#12\n#7\r\nfoo\n#x\n#99999999999999999999\n#3"), vec![12, 7, 3]);
    assert!(parse_mentions("").is_empty());
}

#[test]
fn resolving_missing_prs_from_log() {
    let log = "aaa111 Merge pull request #5 from o/x\nbbb222 fix #6 and #5\nnospace\nccc333 other #7";
    let r = resolve_from_log(log, &[6, 5, 8, 5]);
    assert_eq!(r.len(), 2);
    assert_eq!((r[0].pr, r[0].sha.as_str(), r[0].subject.as_str()), (6, "bbb222", "fix #6 and #5"));
    assert_eq!(
        (r[1].pr, r[1].sha.as_str(), r[1].subject.as_str()),
        (5, "aaa111", "Merge pull request #5 from o/x")
    );
    let mut e = ResolvedPr { pr: 1, sha: "s".to_string(), subject: "subj".to_string() };
    apply_body(&mut e, String::new());
    assert_eq!(e.subject, "subj");
    apply_body(&mut e, "Body line".to_string());
    assert_eq!(e.subject, "Body line");
}

#[test]
fn report_tables() {
    let resolved = vec![
        ResolvedPr { pr: 30, sha: "0123456789abcdef".to_string(), subject: "Add x".to_string() },
        ResolvedPr { pr: 20, sha: "short".to_string(), subject: "Fix y".to_string() },
    ];
    let missing = vec![30, 20, 10];
    assert_eq!(
        missing_table(&missing, &resolved),
        "PR\tSHA\tSUBJECT\n#30\t0123456789\tAdd x\n#20\tshort\tFix y\n#10\t\t\n"
    );
    let wide = vec![ResolvedPr { pr: 1, sha: "ééééé".to_string(), subject: "s".to_string() }];
    assert_eq!(missing_table(&[1], &wide), "PR\tSHA\tSUBJECT\n#1\tééééé\ts\n");
    assert_eq!(not_found_table(&[]), None);
    assert_eq!(not_found_table(&[4, 9]).unwrap(), "NOT FOUND\n#4\n#9\n");
    assert_eq!(
        summary_table(5, 4, 2, 3, 1),
        "Tracked\t5\nmain\t4\nRelease\t2\nMissing\t3\nNot found\t1\n"
    );
    assert_eq!(
        cherry_pick_command(&missing, &resolved).unwrap(),
        "git cherry-pick -x --mainline=1 short 0123456789abcdef"
    );
    assert_eq!(cherry_pick_command(&[10], &resolved), None);
}

#[test]
fn release_note_pieces() {
    let out = "rn.authors.jd johndoe\nrn.authors.jd jdoe\nbroken\nother.key handle";
    let map = parse_author_map(out, "rn.authors");
    assert_eq!(map.len(), 2);
    assert_eq!(map.get("jd"), Some(&"jdoe".to_string()));
    assert_eq!(map.get("other.key"), Some(&"handle".to_string()));
    assert_eq!(resolve_author(Some("jd".to_string()), &map), "jdoe");
    assert_eq!(resolve_author(Some("zz".to_string()), &map), "zz");
    assert_eq!(resolve_author(None, &map), "");
    let mut m = AuthorMap::new();
    m.insert("a".to_string(), "1".to_string());
    m.insert("a".to_string(), "2".to_string());
    assert_eq!(m.len(), 1);
    assert_eq!(m.get("a"), Some(&"2".to_string()));
    let commits = parse_commit_lines("s1 Merge #1\nnospace\ns2 Fix (#2)\n");
    assert_eq!(
        commits,
        vec![
            ("s1".to_string(), "Merge #1".to_string()),
            ("s2".to_string(), "Fix (#2)".to_string())
        ]
    );
    assert_eq!(note_line("Merge #1", "", "jdoe", 1), "* Merge #1 by @jdoe in #1");
    assert_eq!(note_line("Merge #1", "Better text", "", 1), "* Better text by @ in #1");
}

#[test]
fn titles_and_pages() {
    assert_eq!(titlecase("get-tickets"), "Get Tickets");
    assert_eq!(titlecase("missing-prs"), "Missing Prs");
    assert_eq!(titlecase("a--b"), "A  B");
    assert_eq!(titlecase("ßtraße-éclair"), "SStraße Éclair");
    assert_eq!(doc_page("Completions", "help"), "# Completions\n\n```\nhelp\n```\n");
}


#[test]
fn ancestry_check_outcome() {
    assert!(ancestry_outcome(true, "v1.0", "v1.1").is_ok());
    match ancestry_outcome(false, "v1.1", "v1.0") {
        Err(ToolError::NotAncestor { base, head }) => {
            assert_eq!(base, "v1.1");
            assert_eq!(head, "v1.0");
        }
        other => panic!("unexpected {other:?}"),
    }
}

#[test]
fn author_map_empty_when_config_lists_nothing() {
    let listed = "release-notes.authors.jdoe Jane Doe\n";
    let m = author_map_from_config(true, listed, "release-notes.authors");
    assert_eq!(m.get("jdoe"), Some(&"Jane Doe".to_string()));
    let m = author_map_from_config(false, listed, "release-notes.authors");
    assert_eq!(m.len(), 0);
}
