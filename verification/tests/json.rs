use linear_get_ticket_prs::error::ToolError;
use linear_get_ticket_prs::json::{
    alias_entries, answer_outcome, get_member, issue_attachments, read_graphql_answer, read_issue_page, Json,
};

fn s(t: &str) -> Json {
    Json::Str(t.to_string())
}

fn obj(members: Vec<(&str, Json)>) -> Json {
    Json::Object(members.into_iter().map(|(k, v)| (k.to_string(), v)).collect())
}

#[test]
fn answer_that_is_not_json_is_a_parse_error() {
    match read_graphql_answer(b"not json") {
        Err(ToolError::JsonParse(_)) => {}
        other => panic!("expected a parse error, got {other:?}"),
    }
}

#[test]
fn answer_errors_are_reported_by_message() {
    let body = br#"{"errors":[{"message":"bad query"},{"code":1},{"message":"no access"}],"data":null}"#;
    match read_graphql_answer(body) {
        Err(ToolError::GraphqlErrors(m)) => {
            assert_eq!(m, vec!["bad query".to_string(), "no access".to_string()])
        }
        other => panic!("expected GraphQL errors, got {other:?}"),
    }
}

#[test]
fn answer_errors_without_messages_fall_back_to_data() {
    let body = br#"{"errors":[{"code":1}],"data":{"x":true}}"#;
    match read_graphql_answer(body) {
        Ok(d) => assert!(matches!(get_member(&d, "x"), Some(Json::Bool(true)))),
        other => panic!("expected data, got {other:?}"),
    }
}

#[test]
fn answer_without_data_is_an_error() {
    match read_graphql_answer(br#"{"other":1}"#) {
        Err(ToolError::GraphqlErrors(m)) => {
            assert_eq!(m, vec!["response missing 'data' field".to_string()])
        }
        other => panic!("expected GraphQL errors, got {other:?}"),
    }
}

#[test]
fn answer_data_is_returned() {
    let body = br#"{"data":{"issues":{"nodes":[{"identifier":"ABC-1"}],"pageInfo":{"hasNextPage":false,"endCursor":null}}}}"#;
    let data = read_graphql_answer(body).unwrap();
    let page = read_issue_page(&data).unwrap();
    assert_eq!(page.identifiers, vec!["ABC-1".to_string()]);
    assert!(!page.has_next_page);
    assert_eq!(page.end_cursor, None);
}

#[test]
fn issue_page_read_from_object() {
    let data = obj(vec![(
        "issues",
        obj(vec![
            ("nodes", Json::Array(vec![obj(vec![("identifier", s("A-1")), ("title", s("x"))]), obj(vec![("identifier", s("A-2"))])])),
            ("pageInfo", obj(vec![("hasNextPage", Json::Bool(true)), ("endCursor", s("c1"))])),
        ]),
    )]);
    let page = read_issue_page(&data).unwrap();
    assert_eq!(page.identifiers, vec!["A-1".to_string(), "A-2".to_string()]);
    assert!(page.has_next_page);
    assert_eq!(page.end_cursor, Some("c1".to_string()));
}

#[test]
fn issue_page_read_from_arrays_by_position() {
    let data = Json::Array(vec![Json::Array(vec![
        Json::Array(vec![Json::Array(vec![s("B-7")])]),
        Json::Array(vec![Json::Bool(false), Json::Null]),
    ])]);
    let page = read_issue_page(&data).unwrap();
    assert_eq!(page.identifiers, vec!["B-7".to_string()]);
    assert!(!page.has_next_page);
    assert_eq!(page.end_cursor, None);
}

#[test]
fn issue_page_missing_cursor_is_none() {
    let data = obj(vec![(
        "issues",
        obj(vec![
            ("nodes", Json::Array(vec![])),
            ("pageInfo", obj(vec![("hasNextPage", Json::Bool(false))])),
        ]),
    )]);
    let page = read_issue_page(&data).unwrap();
    assert!(page.identifiers.is_empty());
    assert_eq!(page.end_cursor, None);
}

#[test]
fn issue_page_of_wrong_shape_is_a_json_error() {
    let missing_info = obj(vec![("issues", obj(vec![("nodes", Json::Array(vec![]))]))]);
    assert!(matches!(read_issue_page(&missing_info), Err(ToolError::JsonParse(_))));
    let number_id = obj(vec![(
        "issues",
        obj(vec![
            ("nodes", Json::Array(vec![obj(vec![("identifier", Json::Number("5".to_string()))])])),
            ("pageInfo", obj(vec![("hasNextPage", Json::Bool(false))])),
        ]),
    )]);
    assert!(matches!(read_issue_page(&number_id), Err(ToolError::JsonParse(_))));
    let short_array = Json::Array(vec![Json::Array(vec![Json::Array(vec![])])]);
    assert!(matches!(read_issue_page(&short_array), Err(ToolError::JsonParse(_))));
    assert!(matches!(read_issue_page(&Json::Null), Err(ToolError::JsonParse(_))));
}

#[test]
fn issue_attachments_read_assignee_and_urls() {
    let issue = obj(vec![
        ("assignee", obj(vec![("name", s("Alice"))])),
        (
            "attachments",
            obj(vec![(
                "nodes",
                Json::Array(vec![
                    obj(vec![("url", s("https://github.com/o/r/pull/1"))]),
                    obj(vec![("url", Json::Null)]),
                    obj(vec![("url", s("https://example.com"))]),
                ]),
            )]),
        ),
    ]);
    let got = issue_attachments(&issue).unwrap();
    assert_eq!(got.assignee, Some("Alice".to_string()));
    assert_eq!(got.urls, vec!["https://github.com/o/r/pull/1".to_string(), "https://example.com".to_string()]);

    let bare = obj(vec![("assignee", Json::Null)]);
    let got = issue_attachments(&bare).unwrap();
    assert_eq!(got.assignee, None);
    assert!(got.urls.is_empty());

    assert!(issue_attachments(&Json::Null).is_none());
}

#[test]
fn alias_entries_follow_the_fields_in_order() {
    let data = obj(vec![
        ("i0", obj(vec![("attachments", obj(vec![("nodes", Json::Array(vec![obj(vec![("url", s("u"))])]))]))])),
        ("i1", Json::Null),
    ]);
    let entries = alias_entries(&data).unwrap();
    assert_eq!(entries.len(), 2);
    assert_eq!(entries[0].alias, "i0");
    assert_eq!(entries[0].issue.as_ref().unwrap().urls, vec!["u".to_string()]);
    assert_eq!(entries[1].alias, "i1");
    assert!(entries[1].issue.is_none());
}

#[test]
fn alias_entries_need_an_object() {
    match alias_entries(&Json::Array(vec![])) {
        Err(ToolError::GraphqlErrors(m)) => assert_eq!(m, vec!["expected object in data".to_string()]),
        other => panic!("expected GraphQL errors, got {other:?}"),
    }
}

#[test]
fn parsed_answer_keeps_member_values() {
    let body = br#"{"data":{"i0":null,"i1":{"assignee":{"name":"Bo"},"attachments":{"nodes":[]}}}}"#;
    let data = read_graphql_answer(body).unwrap();
    let entries = alias_entries(&data).unwrap();
    assert_eq!(entries.len(), 2);
    assert_eq!(entries[0].alias, "i0");
    assert!(entries[0].issue.is_none());
    assert_eq!(entries[1].issue.as_ref().unwrap().assignee, Some("Bo".to_string()));
}

#[test]
fn answer_outcome_on_parsed_values() {
    let ok = obj(vec![("data", obj(vec![("a", s("b"))]))]);
    let d = answer_outcome(ok).unwrap();
    assert!(matches!(get_member(&d, "a"), Some(Json::Str(t)) if t == "b"));

    let errs = obj(vec![
        ("errors", Json::Array(vec![obj(vec![("message", s("m1"))])])),
        ("data", Json::Null),
    ]);
    match answer_outcome(errs) {
        Err(ToolError::GraphqlErrors(m)) => assert_eq!(m, vec!["m1".to_string()]),
        other => panic!("unexpected {other:?}"),
    }

    let errors_not_a_list = obj(vec![("errors", s("boom")), ("data", Json::Bool(false))]);
    assert!(matches!(answer_outcome(errors_not_a_list), Ok(Json::Bool(false))));

    match answer_outcome(Json::Array(vec![])) {
        Err(ToolError::GraphqlErrors(m)) => {
            assert_eq!(m, vec!["response missing 'data' field".to_string()])
        }
        other => panic!("unexpected {other:?}"),
    }
}


fn page_error(data: &Json) -> String {
    match read_issue_page(data) {
        Err(ToolError::JsonParse(e)) => e.to_string(),
        other => panic!("expected a JSON error, got {other:?}"),
    }
}

fn good_connection() -> Json {
    obj(vec![
        ("nodes", Json::Array(vec![])),
        ("pageInfo", obj(vec![("hasNextPage", Json::Bool(false))])),
    ])
}

#[test]
fn issue_page_errors_read_as_serde_words_them() {
    assert_eq!(page_error(&Json::Null), "invalid type: null, expected struct IssuesResponse");
    assert_eq!(page_error(&obj(vec![])), "missing field `issues`");
    assert_eq!(
        page_error(&obj(vec![("issues", obj(vec![("nodes", Json::Array(vec![]))]))])),
        "missing field `pageInfo`"
    );
    let numbered = obj(vec![(
        "issues",
        obj(vec![
            ("nodes", Json::Array(vec![obj(vec![("identifier", Json::Number("5".to_string()))])])),
            ("pageInfo", obj(vec![("hasNextPage", Json::Bool(false))])),
        ]),
    )]);
    assert_eq!(page_error(&numbered), "invalid type: integer `5`, expected a string");
    let worded = obj(vec![(
        "issues",
        obj(vec![
            ("nodes", Json::Array(vec![])),
            ("pageInfo", obj(vec![("hasNextPage", s("yes"))])),
        ]),
    )]);
    assert_eq!(page_error(&worded), "invalid type: string \"yes\", expected a boolean");
    let fractional = obj(vec![(
        "issues",
        obj(vec![
            ("nodes", Json::Number("1.5".to_string())),
            ("pageInfo", obj(vec![("hasNextPage", Json::Bool(false))])),
        ]),
    )]);
    assert_eq!(page_error(&fractional), "invalid type: floating point `1.5`, expected a sequence");
    let short = Json::Array(vec![Json::Array(vec![Json::Array(vec![])])]);
    assert_eq!(page_error(&short), "invalid length 1, expected struct IssuesConnection with 2 elements");
    let long = Json::Array(vec![good_connection(), Json::Null]);
    assert_eq!(page_error(&long), "invalid length 2, expected fewer elements in array");
}

#[test]
fn issue_page_error_from_answer_bytes() {
    let body = br#"{"data":{"issues":{"nodes":[{"identifier":7}],"pageInfo":{"hasNextPage":false}}}}"#;
    let data = read_graphql_answer(body).unwrap();
    assert_eq!(page_error(&data), "invalid type: integer `7`, expected a string");
}
