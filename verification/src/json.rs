//! JSON answers of the Linear API, as plain values the library reads.
//!
//! `serde_json` parses the bytes; the result is converted at once into the
//! library's own `Json`, and everything read from it is verified here.

use vstd::prelude::*;

use crate::error::ToolError;
use crate::linear::{entry_view, entry_views, graphql_data, opt_view, AliasEntry, IssueAttachments};
use crate::text::{chars_of, push_decimal, str_eq, views};

verus! {

/// A parsed JSON value. Numbers keep their text; an object keeps its members
/// in the order the parser gives them.
#[derive(Debug)]
pub enum Json {
    Null,
    Bool(bool),
    Number(String),
    Str(String),
    Array(Vec<Json>),
    Object(Vec<(String, Json)>),
}

/// What `serde_json::from_slice` makes of the bytes: the parsed value, or
/// none when the bytes are not one JSON value.
pub uninterp spec fn parsed_json(bytes: Seq<u8>) -> Option<Json>;

/// Parses bytes with `serde_json::from_slice` into a `serde_json::Value` and
/// converts it variant for variant into `Json` (numbers by their `Display`
/// text, object members in the map's order). The result is named
/// `parsed_json`; a parse error is returned as it is.
#[verifier::external_body]
fn parse_json(bytes: &[u8]) -> (r: Result<Json, serde_json::Error>)
    ensures
        match r {
            Ok(j) => parsed_json(bytes@) == Some(j),
            Err(_) => parsed_json(bytes@) is None,
        },
{
    serde_json::from_slice::<serde_json::Value>(bytes).map(json_from_value)
}

/// The conversion half of `parse_json`: each `serde_json::Value` variant to
/// the `Json` variant of the same name, moving its contents (numbers by their
/// `Display` text). It stands as a function of its own only because the
/// conversion recurses into arrays and objects; nothing calls it but
/// `parse_json`, and it promises nothing.
#[verifier::external_body]
fn json_from_value(v: serde_json::Value) -> Json {
    match v {
        serde_json::Value::Null => Json::Null,
        serde_json::Value::Bool(b) => Json::Bool(b),
        serde_json::Value::Number(n) => Json::Number(n.to_string()),
        serde_json::Value::String(s) => Json::Str(s),
        serde_json::Value::Array(a) => Json::Array(a.into_iter().map(json_from_value).collect()),
        serde_json::Value::Object(m) => Json::Object(
            m.into_iter().map(|(k, v)| (k, json_from_value(v))).collect(),
        ),
    }
}

/// The value of the first member named `key`.
pub open spec fn member_lookup(fields: Seq<(String, Json)>, key: Seq<char>) -> Option<Json>
    decreases fields.len(),
{
    if fields.len() == 0 {
        None
    } else if fields[0].0@ == key {
        Some(fields[0].1)
    } else {
        member_lookup(fields.drop_first(), key)
    }
}

/// The member `key` of an object, as `Value::get` finds it; none for other
/// values.
pub open spec fn json_get(j: Json, key: Seq<char>) -> Option<Json> {
    match j {
        Json::Object(fields) => member_lookup(fields@, key),
        _ => None,
    }
}

/// The member `key` of an optional value.
pub open spec fn json_get_opt(j: Option<Json>, key: Seq<char>) -> Option<Json> {
    match j {
        Some(v) => json_get(v, key),
        None => None,
    }
}

/// The text of a string value, as `Value::as_str` gives it.
pub open spec fn json_text(j: Option<Json>) -> Option<Seq<char>> {
    match j {
        Some(Json::Str(s)) => Some(s@),
        _ => None,
    }
}

/// The items of an array value, as `Value::as_array` gives them.
pub open spec fn json_items(j: Option<Json>) -> Option<Seq<Json>> {
    match j {
        Some(Json::Array(items)) => Some(items@),
        _ => None,
    }
}

proof fn lemma_member_lookup_index(fields: Seq<(String, Json)>, key: Seq<char>, i: int)
    requires
        0 <= i < fields.len(),
        fields[i].0@ == key,
        forall|k: int| 0 <= k < i ==> #[trigger] fields[k].0@ != key,
    ensures
        member_lookup(fields, key) == Some(fields[i].1),
    decreases i,
{
    if i > 0 {
        let t = fields.drop_first();
        assert forall|k: int| 0 <= k < i - 1 implies #[trigger] t[k].0@ != key by {
            assert(t[k] == fields[k + 1]);
        }
        lemma_member_lookup_index(t, key, i - 1);
    }
}

proof fn lemma_member_lookup_none(fields: Seq<(String, Json)>, key: Seq<char>)
    requires
        forall|k: int| 0 <= k < fields.len() ==> #[trigger] fields[k].0@ != key,
    ensures
        member_lookup(fields, key) is None,
    decreases fields.len(),
{
    if fields.len() > 0 {
        let t = fields.drop_first();
        assert forall|k: int| 0 <= k < t.len() implies #[trigger] t[k].0@ != key by {
            assert(t[k] == fields[k + 1]);
        }
        lemma_member_lookup_none(t, key);
    }
}

/// The index of the first member named `key`.
fn member_index(fields: &Vec<(String, Json)>, key: &str) -> (r: Option<usize>)
    ensures
        match r {
            Some(i) => i < fields@.len() && member_lookup(fields@, key@) == Some(fields@[i as int].1),
            None => member_lookup(fields@, key@) is None,
        },
{
    let n = fields.len();
    let mut i: usize = 0;
    while i < n
        invariant
            n == fields@.len(),
            i <= n,
            forall|k: int| 0 <= k < i ==> #[trigger] fields@[k].0@ != key@,
        decreases n - i,
    {
        if str_eq(fields[i].0.as_str(), key) {
            proof {
                lemma_member_lookup_index(fields@, key@, i as int);
            }
            return Some(i);
        }
        i = i + 1;
    }
    proof {
        lemma_member_lookup_none(fields@, key@);
    }
    None
}

/// The member `key` of a value, as `Value::get` finds it.
pub fn get_member<'a>(j: &'a Json, key: &str) -> (r: Option<&'a Json>)
    ensures
        deref_opt(r) == json_get(*j, key@),
{
    match j {
        Json::Object(fields) => match member_index(fields, key) {
            Some(i) => Some(&fields[i].1),
            None => None,
        },
        _ => None,
    }
}

/// Takes the member `key` out of a value.
fn take_member(j: Json, key: &str) -> (r: Option<Json>)
    ensures
        r == json_get(j, key@),
{
    match j {
        Json::Object(fields) => {
            match member_index(&fields, key) {
                Some(i) => {
                    let mut fields = fields;
                    let v = fields.remove(i);
                    Some(v.1)
                },
                None => None,
            }
        },
        _ => None,
    }
}

/// The value behind an optional reference.
pub open spec fn deref_opt(o: Option<&Json>) -> Option<Json> {
    match o {
        Some(x) => Some(*x),
        None => None,
    }
}

/// The member `key` of an optional value.
fn get_member_opt<'a>(j: Option<&'a Json>, key: &str) -> (r: Option<&'a Json>)
    ensures
        deref_opt(r) == json_get_opt(deref_opt(j), key@),
{
    match j {
        Some(v) => get_member(v, key),
        None => None,
    }
}

/// The text of an optional string value.
fn text_of(j: Option<&Json>) -> (r: Option<String>)
    ensures
        opt_view(r) == json_text(deref_opt(j)),
{
    match j {
        Some(Json::Str(s)) => Some(s.clone()),
        _ => None,
    }
}

/// The texts under `key` of the entries of a list, skipping entries without
/// one (a `filter_map` over `get(key)` and `as_str`).
pub open spec fn texts_at(items: Seq<Json>, key: Seq<char>) -> Seq<Seq<char>>
    decreases items.len(),
{
    if items.len() == 0 {
        Seq::empty()
    } else {
        match json_text(json_get(items.last(), key)) {
            Some(m) => texts_at(items.drop_last(), key).push(m),
            None => texts_at(items.drop_last(), key),
        }
    }
}

/// The error messages of a GraphQL answer.
pub open spec fn answer_errors(answer: Json) -> Seq<Seq<char>> {
    match json_items(json_get(answer, "errors"@)) {
        Some(items) => texts_at(items, "message"@),
        None => Seq::empty(),
    }
}

fn texts_at_exec(items: &Vec<Json>, key: &str) -> (r: Vec<String>)
    ensures
        views(r@) == texts_at(items@, key@),
{
    let mut out: Vec<String> = Vec::new();
    let n = items.len();
    let mut i: usize = 0;
    while i < n
        invariant
            n == items@.len(),
            i <= n,
            views(out@) == texts_at(items@.take(i as int), key@),
        decreases n - i,
    {
        proof {
            assert(items@.take(i + 1).drop_last() == items@.take(i as int));
            assert(items@.take(i + 1).last() == items@[i as int]);
        }
        match text_of(get_member(&items[i], key)) {
            Some(t) => {
                let ghost before = out@;
                out.push(t);
                assert(views(out@) == views(before).push(t@));
            },
            None => {},
        }
        i = i + 1;
    }
    assert(items@.take(n as int) == items@);
    out
}

fn error_messages(answer: &Json) -> (r: Vec<String>)
    ensures
        views(r@) == answer_errors(*answer),
{
    match get_member(answer, "errors") {
        Some(Json::Array(items)) => texts_at_exec(items, "message"),
        _ => Vec::new(),
    }
}

/// The outcome of a GraphQL answer, as `graphql_data` says.
pub open spec fn answer_outcome_ok(answer: Json, r: Result<Json, ToolError>) -> bool {
    if answer_errors(answer).len() > 0 {
        r matches Err(ToolError::GraphqlErrors(m)) && views(m@) == answer_errors(answer)
    } else {
        match json_get(answer, "data"@) {
            Some(d) => r == Ok::<Json, ToolError>(d),
            None => r matches Err(ToolError::GraphqlErrors(m)) && views(m@) == seq![
                "response missing 'data' field"@,
            ],
        }
    }
}

/// Reads a parsed GraphQL answer: its error messages when there are any,
/// else its `data`.
pub fn answer_outcome(answer: Json) -> (r: Result<Json, ToolError>)
    ensures
        answer_outcome_ok(answer, r),
{
    let messages = error_messages(&answer);
    let data = take_member(answer, "data");
    graphql_data(messages, data)
}

/// Reads what curl printed for a GraphQL request: a parse failure, or the
/// outcome of the parsed answer.
pub fn read_graphql_answer(stdout: &[u8]) -> (r: Result<Json, ToolError>)
    ensures
        match parsed_json(stdout@) {
            None => r matches Err(ToolError::JsonParse(_)),
            Some(a) => answer_outcome_ok(a, r),
        },
{
    match parse_json(stdout) {
        Ok(a) => answer_outcome(a),
        Err(e) => Err(ToolError::JsonParse(e)),
    }
}

/// What an answer field says of a looked-up ticket, as the batched lookup
/// reads it: none for `null` (not found); else the assignee's `name` when it
/// is a string, and the string `url`s of the attachment `nodes`.
pub open spec fn issue_spec(v: Json) -> Option<(Option<Seq<char>>, Seq<Seq<char>>)> {
    match v {
        Json::Null => None,
        _ => Some(
            (
                json_text(json_get_opt(json_get(v, "assignee"@), "name"@)),
                match json_items(json_get_opt(json_get(v, "attachments"@), "nodes"@)) {
                    Some(nodes) => texts_at(nodes, "url"@),
                    None => Seq::empty(),
                },
            ),
        ),
    }
}

/// Reads one field of a batched answer.
pub fn issue_attachments(j: &Json) -> (r: Option<IssueAttachments>)
    ensures
        match r {
            Some(i) => issue_spec(*j) == Some((opt_view(i.assignee), views(i.urls@))),
            None => issue_spec(*j) is None,
        },
{
    match j {
        Json::Null => None,
        _ => {
            let assignee = text_of(get_member_opt(get_member(j, "assignee"), "name"));
            let urls = match get_member_opt(get_member(j, "attachments"), "nodes") {
                Some(Json::Array(nodes)) => texts_at_exec(nodes, "url"),
                _ => Vec::new(),
            };
            Some(IssueAttachments { assignee, urls })
        },
    }
}

/// The plain content of the fields of a batched answer, in order.
pub open spec fn alias_fields_spec(fields: Seq<(String, Json)>) -> Seq<
    (Seq<char>, Option<(Option<Seq<char>>, Seq<Seq<char>>)>),
> {
    fields.map_values(|f: (String, Json)| (f.0@, issue_spec(f.1)))
}

/// Reads the `data` of a batched answer: an object with one field per
/// aliased ticket, each read as `issue_spec` says; anything else is refused.
pub fn alias_entries(data: &Json) -> (r: Result<Vec<AliasEntry>, ToolError>)
    ensures
        match *data {
            Json::Object(fields) => r matches Ok(es) && entry_views(es@) == alias_fields_spec(
                fields@,
            ),
            _ => r matches Err(ToolError::GraphqlErrors(m)) && views(m@) == seq![
                "expected object in data"@,
            ],
        },
{
    match data {
        Json::Object(fields) => {
            let mut out: Vec<AliasEntry> = Vec::new();
            let n = fields.len();
            let mut i: usize = 0;
            while i < n
                invariant
                    n == fields@.len(),
                    i <= n,
                    entry_views(out@) == alias_fields_spec(fields@.take(i as int)),
                decreases n - i,
            {
                let entry = AliasEntry {
                    alias: fields[i].0.clone(),
                    issue: issue_attachments(&fields[i].1),
                };
                let ghost before = out@;
                out.push(entry);
                proof {
                    assert(out@ == before.push(entry));
                    assert(entry_views(out@) =~= entry_views(before).push(entry_view(entry)));
                    assert(alias_fields_spec(fields@.take(i + 1)) =~= alias_fields_spec(
                        fields@.take(i as int),
                    ).push((fields@[i as int].0@, issue_spec(fields@[i as int].1))));
                }
                i = i + 1;
            }
            assert(fields@.take(n as int) == fields@);
            Ok(out)
        },
        _ => {
            let mut m: Vec<String> = Vec::new();
            m.push("expected object in data".to_owned());
            assert(views(m@) =~= seq!["expected object in data"@]);
            Err(ToolError::GraphqlErrors(m))
        },
    }
}

/// A member of a struct as a derived `Deserialize` reads it from a value:
/// from an object by name (none when absent; other names are ignored), from
/// an array by position when the array has exactly `n` elements. Any other
/// value is refused.
pub open spec fn struct_member(j: Json, name: Seq<char>, pos: int, n: int) -> Option<Option<Json>> {
    match j {
        Json::Object(fields) => Some(member_lookup(fields@, name)),
        Json::Array(items) => if items@.len() == n {
            Some(Some(items@[pos]))
        } else {
            None
        },
        _ => None,
    }
}

/// A member that must be there.
pub open spec fn required(m: Option<Option<Json>>) -> Option<Json> {
    match m {
        Some(Some(v)) => Some(v),
        _ => None,
    }
}

/// A `String`: only a JSON string reads as one.
pub open spec fn de_string(j: Json) -> Option<Seq<char>> {
    match j {
        Json::Str(s) => Some(s@),
        _ => None,
    }
}

/// A `bool`: only a JSON boolean reads as one.
pub open spec fn de_bool(j: Json) -> Option<bool> {
    match j {
        Json::Bool(b) => Some(b),
        _ => None,
    }
}

/// An `Option<String>` member: absent or `null` is none, a string is some.
pub open spec fn de_opt_string(m: Option<Json>) -> Option<Option<Seq<char>>> {
    match m {
        None => Some(None),
        Some(Json::Null) => Some(None),
        Some(Json::Str(s)) => Some(Some(s@)),
        _ => None,
    }
}

/// An issue node: its `identifier`.
pub open spec fn de_node(j: Json) -> Option<Seq<char>> {
    match required(struct_member(j, "identifier"@, 0, 1)) {
        Some(v) => de_string(v),
        None => None,
    }
}

/// The issue nodes: an array whose every item reads as a node.
pub open spec fn de_nodes(j: Json) -> Option<Seq<Seq<char>>> {
    match j {
        Json::Array(items) => if forall|k: int|
            0 <= k < items@.len() ==> #[trigger] de_node(items@[k]) is Some {
            Some(Seq::new(items@.len(), |k: int| de_node(items@[k])->0))
        } else {
            None
        },
        _ => None,
    }
}

/// The `pageInfo`: `hasNextPage` and `endCursor`.
pub open spec fn de_page_info(j: Json) -> Option<(bool, Option<Seq<char>>)> {
    match (required(struct_member(j, "hasNextPage"@, 0, 2)), struct_member(j, "endCursor"@, 1, 2)) {
        (Some(h), Some(c)) => match (de_bool(h), de_opt_string(c)) {
            (Some(more), Some(cursor)) => Some((more, cursor)),
            _ => None,
        },
        _ => None,
    }
}

/// The issues connection: the identifiers of its `nodes`, and its
/// `pageInfo`.
pub open spec fn de_connection(j: Json) -> Option<(Seq<Seq<char>>, bool, Option<Seq<char>>)> {
    match (required(struct_member(j, "nodes"@, 0, 2)), required(struct_member(j, "pageInfo"@, 1, 2))) {
        (Some(nodes), Some(info)) => match (de_nodes(nodes), de_page_info(info)) {
            (Some(ids), Some((more, cursor))) => Some((ids, more, cursor)),
            _ => None,
        },
        _ => None,
    }
}

/// A page of the ticket query, read from the answer's `data`: the
/// identifiers, whether another page follows, and the cursor after this one.
pub open spec fn issue_page_spec(data: Json) -> Option<(Seq<Seq<char>>, bool, Option<Seq<char>>)> {
    match required(struct_member(data, "issues"@, 0, 1)) {
        Some(c) => de_connection(c),
        None => None,
    }
}

fn optional_member<'a>(j: &'a Json, name: &str, pos: usize, n: usize) -> (r: Option<Option<&'a Json>>)
    requires
        pos < n,
    ensures
        match r {
            Some(m) => struct_member(*j, name@, pos as int, n as int) == Some(deref_opt(m)),
            None => struct_member(*j, name@, pos as int, n as int) is None,
        },
{
    match j {
        Json::Object(_) => Some(get_member(j, name)),
        Json::Array(items) => if items.len() == n {
            Some(Some(&items[pos]))
        } else {
            None
        },
        _ => None,
    }
}

fn required_member<'a>(j: &'a Json, name: &str, pos: usize, n: usize) -> (r: Option<&'a Json>)
    requires
        pos < n,
    ensures
        deref_opt(r) == required(struct_member(*j, name@, pos as int, n as int)),
{
    match optional_member(j, name, pos, n) {
        Some(Some(v)) => Some(v),
        _ => None,
    }
}

fn read_node(j: &Json) -> (r: Option<String>)
    ensures
        opt_view(r) == de_node(*j),
{
    match required_member(j, "identifier", 0, 1) {
        Some(Json::Str(s)) => Some(s.clone()),
        _ => None,
    }
}

fn read_nodes(j: &Json) -> (r: Option<Vec<String>>)
    ensures
        match r {
            Some(v) => de_nodes(*j) == Some(views(v@)),
            None => de_nodes(*j) is None,
        },
{
    match j {
        Json::Array(items) => {
            let mut out: Vec<String> = Vec::new();
            let n = items.len();
            let mut i: usize = 0;
            while i < n
                invariant
                    *j == Json::Array(*items),
                    n == items@.len(),
                    i <= n,
                    out@.len() == i,
                    forall|k: int| 0 <= k < i ==> #[trigger] de_node(items@[k]) is Some,
                    forall|k: int| 0 <= k < i ==> de_node(items@[k]) == Some(#[trigger] out@[k]@),
                decreases n - i,
            {
                match read_node(&items[i]) {
                    Some(id) => {
                        out.push(id);
                    },
                    None => {
                        assert(de_node(items@[i as int]) is None);
                        return None;
                    },
                }
                i = i + 1;
            }
            assert(views(out@) =~= Seq::new(items@.len(), |k: int| de_node(items@[k])->0));
            Some(out)
        },
        _ => None,
    }
}

fn read_page_info(j: &Json) -> (r: Option<(bool, Option<String>)>)
    ensures
        match r {
            Some((more, cursor)) => de_page_info(*j) == Some((more, opt_view(cursor))),
            None => de_page_info(*j) is None,
        },
{
    let more = match required_member(j, "hasNextPage", 0, 2) {
        Some(Json::Bool(b)) => *b,
        _ => {
            return None;
        },
    };
    let cursor = match optional_member(j, "endCursor", 1, 2) {
        Some(None) => None,
        Some(Some(Json::Null)) => None,
        Some(Some(Json::Str(s))) => Some(s.clone()),
        _ => {
            return None;
        },
    };
    Some((more, cursor))
}

/// The types an issues page is read as, one per type of the answer's model.
#[derive(Clone, Copy)]
enum PageShape {
    Response,
    Connection,
    Nodes,
    Node,
    PageInfo,
    Text,
    Flag,
    OptionalText,
}

spec fn shape_rank(s: PageShape) -> nat {
    match s {
        PageShape::Response => 4,
        PageShape::Connection => 3,
        PageShape::Nodes => 2,
        PageShape::Node => 1,
        PageShape::PageInfo => 1,
        _ => 0,
    }
}

/// A field of a struct of the model: its name, its type, and whether it may
/// be absent.
struct FieldShape {
    name: &'static str,
    shape: PageShape,
    optional: bool,
}

/// The name and the fields of a struct of the model; no fields for the other
/// types.
fn struct_layout(shape: PageShape) -> (r: (&'static str, Vec<FieldShape>))
    ensures
        forall|f: int| 0 <= f < r.1@.len() ==> shape_rank(#[trigger] r.1@[f].shape) < shape_rank(shape),
{
    let mut fields: Vec<FieldShape> = Vec::new();
    match shape {
        PageShape::Response => {
            fields.push(FieldShape { name: "issues", shape: PageShape::Connection, optional: false });
            ("IssuesResponse", fields)
        },
        PageShape::Connection => {
            fields.push(FieldShape { name: "nodes", shape: PageShape::Nodes, optional: false });
            fields.push(FieldShape { name: "pageInfo", shape: PageShape::PageInfo, optional: false });
            ("IssuesConnection", fields)
        },
        PageShape::Node => {
            fields.push(FieldShape { name: "identifier", shape: PageShape::Text, optional: false });
            ("IssueNode", fields)
        },
        PageShape::PageInfo => {
            fields.push(FieldShape { name: "hasNextPage", shape: PageShape::Flag, optional: false });
            fields.push(FieldShape { name: "endCursor", shape: PageShape::OptionalText, optional: true });
            ("PageInfo", fields)
        },
        _ => ("", fields),
    }
}

/// Writes `s` as `{:?}` does for a `str`, with `std`'s `Debug`; it says
/// nothing of the result.
#[verifier::external_body]
fn debug_text(s: &str) -> String {
    format!("{:?}", s)
}

/// Whether the text of a number is that of an integer (digits and a sign).
fn integer_text(t: &str) -> bool {
    let v = chars_of(t);
    let mut i: usize = 0;
    while i < v.len()
        decreases v.len() - i,
    {
        let c = v[i];
        if !(c == '-' || ('0' <= c && c <= '9')) {
            return false;
        }
        i = i + 1;
    }
    true
}

/// How a value is described when it has the wrong type: `null`, ``boolean
/// `true` ``, ``integer `5` ``, ``floating point `1.5` ``, `string "x"`,
/// `sequence` or `map`.
fn unexpected_text(j: &Json) -> String {
    let mut out = String::new();
    match j {
        Json::Null => out.append("null"),
        Json::Bool(b) => {
            out.append("boolean `");
            out.append(if *b { "true" } else { "false" });
            out.append("`");
        },
        Json::Number(t) => {
            out.append(if integer_text(t.as_str()) { "integer `" } else { "floating point `" });
            out.append(t.as_str());
            out.append("`");
        },
        Json::Str(t) => {
            out.append("string ");
            let d = debug_text(t.as_str());
            out.append(d.as_str());
        },
        Json::Array(_) => out.append("sequence"),
        Json::Object(_) => out.append("map"),
    }
    out
}

/// `invalid type: <what j is>, expected <expected>`.
fn invalid_type_text(j: &Json, expected: &str) -> String {
    let mut out = String::new();
    out.append("invalid type: ");
    let u = unexpected_text(j);
    out.append(u.as_str());
    out.append(", expected ");
    out.append(expected);
    out
}

/// `invalid length <n>, expected <expected>`.
fn invalid_length_text(n: usize, expected: &str) -> String {
    let mut out = String::new();
    out.append("invalid length ");
    push_decimal(&mut out, n as u64);
    out.append(", expected ");
    out.append(expected);
    out
}

/// The position of the field named `key`.
fn field_position(fields: &Vec<FieldShape>, key: &str) -> (r: Option<usize>)
    ensures
        r matches Some(f) ==> f < fields@.len(),
{
    let mut f: usize = 0;
    while f < fields.len()
        decreases fields.len() - f,
    {
        if str_eq(fields[f].name, key) {
            return Some(f);
        }
        f = f + 1;
    }
    None
}

/// The first complaint a derived `Deserialize` makes when it reads `j` as
/// `shape` out of a `serde_json::Value`, in the order it reads: the members
/// of an object one by one, then the fields that are missing; the items of an
/// array by position, then the length. None when there is nothing to
/// complain of.
fn first_complaint(j: &Json, shape: PageShape) -> Option<String>
    decreases shape_rank(shape),
{
    match shape {
        PageShape::Text => match j {
            Json::Str(_) => None,
            _ => Some(invalid_type_text(j, "a string")),
        },
        PageShape::Flag => match j {
            Json::Bool(_) => None,
            _ => Some(invalid_type_text(j, "a boolean")),
        },
        PageShape::OptionalText => match j {
            Json::Null => None,
            Json::Str(_) => None,
            _ => Some(invalid_type_text(j, "a string")),
        },
        PageShape::Nodes => match j {
            Json::Array(items) => {
                let mut i: usize = 0;
                while i < items.len()
                    invariant
                        shape_rank(shape) == 2,
                    decreases items.len() - i,
                {
                    let c = first_complaint(&items[i], PageShape::Node);
                    if c.is_some() {
                        return c;
                    }
                    i = i + 1;
                }
                None
            },
            _ => Some(invalid_type_text(j, "a sequence")),
        },
        _ => {
            let (name, fields) = struct_layout(shape);
            match j {
                Json::Object(members) => {
                    let mut m: usize = 0;
                    while m < members.len()
                        invariant
                            forall|f: int|
                                0 <= f < fields@.len() ==> shape_rank(#[trigger] fields@[f].shape)
                                    < shape_rank(shape),
                        decreases members.len() - m,
                    {
                        match field_position(&fields, members[m].0.as_str()) {
                            Some(f) => {
                                let c = first_complaint(&members[m].1, fields[f].shape);
                                if c.is_some() {
                                    return c;
                                }
                            },
                            None => {},
                        }
                        m = m + 1;
                    }
                    let mut f: usize = 0;
                    while f < fields.len()
                        decreases fields.len() - f,
                    {
                        if !fields[f].optional && member_index(members, fields[f].name).is_none() {
                            let mut out = String::new();
                            out.append("missing field `");
                            out.append(fields[f].name);
                            out.append("`");
                            return Some(out);
                        }
                        f = f + 1;
                    }
                    None
                },
                Json::Array(items) => {
                    let n = fields.len();
                    let mut f: usize = 0;
                    while f < n
                        invariant
                            n == fields@.len(),
                            forall|g: int|
                                0 <= g < fields@.len() ==> shape_rank(#[trigger] fields@[g].shape)
                                    < shape_rank(shape),
                        decreases n - f,
                    {
                        if f >= items.len() {
                            let mut expected = String::new();
                            expected.append("struct ");
                            expected.append(name);
                            expected.append(if n == 1 { " with 1 element" } else { " with " });
                            if n != 1 {
                                push_decimal(&mut expected, n as u64);
                                expected.append(" elements");
                            }
                            return Some(invalid_length_text(f, expected.as_str()));
                        }
                        let c = first_complaint(&items[f], fields[f].shape);
                        if c.is_some() {
                            return c;
                        }
                        f = f + 1;
                    }
                    if items.len() > n {
                        return Some(invalid_length_text(items.len(), "fewer elements in array"));
                    }
                    None
                },
                _ => {
                    let mut expected = String::new();
                    expected.append("struct ");
                    expected.append(name);
                    Some(invalid_type_text(j, expected.as_str()))
                },
            }
        },
    }
}

/// One page of the ticket query.
#[derive(Debug)]
pub struct IssuePage {
    pub identifiers: Vec<String>,
    pub has_next_page: bool,
    pub end_cursor: Option<String>,
}

/// Makes the error for an answer whose `data` is not shaped like an issues
/// page, with `serde::de::Error::custom` of `serde_json::Error`; it says
/// nothing of the result.
#[verifier::external_body]
fn shape_error(detail: &str) -> serde_json::Error {
    <serde_json::Error as serde::de::Error>::custom(detail)
}

/// Reads a page of the ticket query from the answer's `data`, as the derived
/// `Deserialize` of `{ issues: { nodes: [{ identifier }], pageInfo: {
/// hasNextPage, endCursor } } }` does; a value of another shape is a JSON
/// error.
pub fn read_issue_page(data: &Json) -> (r: Result<IssuePage, ToolError>)
    ensures
        match issue_page_spec(*data) {
            Some((ids, more, cursor)) => r matches Ok(p) && views(p.identifiers@) == ids
                && p.has_next_page == more && opt_view(p.end_cursor) == cursor,
            None => r matches Err(ToolError::JsonParse(_)),
        },
{
    let page = match required_member(data, "issues", 0, 1) {
        Some(c) => match (required_member(c, "nodes", 0, 2), required_member(c, "pageInfo", 1, 2)) {
            (Some(nodes), Some(info)) => match (read_nodes(nodes), read_page_info(info)) {
                (Some(ids), Some((more, cursor))) => Some(
                    IssuePage { identifiers: ids, has_next_page: more, end_cursor: cursor },
                ),
                _ => None,
            },
            _ => None,
        },
        None => None,
    };
    match page {
        Some(p) => Ok(p),
        None => {
            let detail = match first_complaint(data, PageShape::Response) {
                Some(c) => c,
                None => "invalid type: map, expected struct IssuesResponse".to_owned(),
            };
            Err(ToolError::JsonParse(shape_error(detail.as_str())))
        },
    }
}

} // verus!
