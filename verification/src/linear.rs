//! Linear GraphQL queries and the reading of their answers.
//!
//! The requests themselves (curl) are made by the caller; this module builds
//! the queries, decides what to ask next and reads the plain values that the
//! caller takes from each answer.

use vstd::prelude::*;

use crate::error::{push_joined, ToolError};
use crate::text::{
    chars_eq, chars_of, decimal_spec, join_spec, lemma_split_nonempty, parse_u64_chars,
    parse_u64_spec, push_decimal, split_chars, split_spec, views,
};

verus! {

/// Arguments for the `get-tickets` subcommand.
pub struct GetTicketsArgs {
    pub labels: Vec<String>,
    pub statuses: Vec<String>,
    pub assignees: Vec<String>,
    pub limit: Option<usize>,
    pub api_key: Option<String>,
}

/// Arguments for the `get-prs` subcommand.
pub struct GetPrsArgs {
    pub limit: Option<usize>,
    pub api_key: Option<String>,
}

/// Parameters for a ticket query.
pub struct GetTicketsParams<'a> {
    pub api_key: &'a str,
    pub labels: &'a [String],
    pub statuses: &'a [String],
    pub assignees: &'a [String],
    pub limit: Option<usize>,
}

/// Parameters for a PR lookup.
pub struct GetPrsParams<'a> {
    pub api_key: &'a str,
    pub ticket_ids: &'a [String],
    pub limit: Option<usize>,
}

/// The Linear API key: the one given on the command line, else the one from
/// the `LINEAR_API_KEY` environment variable (read by the caller, and only
/// when no key was given).
pub fn choose_api_key(cli_key: Option<&str>, env_key: Option<String>) -> (r: Result<String, ToolError>)
    ensures
        match cli_key {
            Some(k) => r matches Ok(s) && s@ == k@,
            None => match env_key {
                Some(e) => r == Ok::<String, ToolError>(e),
                None => r matches Err(ToolError::ApiKeyNotFound),
            },
        },
{
    match cli_key {
        Some(k) => Ok(k.to_owned()),
        None => match env_key {
            Some(e) => Ok(e),
            None => Err(ToolError::ApiKeyNotFound),
        },
    }
}

/// `s` with `\` and `"` escaped by a backslash.
pub open spec fn json_escape(s: Seq<char>) -> Seq<char>
    decreases s.len(),
{
    if s.len() == 0 {
        Seq::<char>::empty()
    } else {
        json_escape(s.drop_last()) + if s.last() == '\\' || s.last() == '"' {
            seq!['\\', s.last()]
        } else {
            seq![s.last()]
        }
    }
}

/// `s` with `"` escaped by a backslash (backslashes are left alone).
pub open spec fn quote_escape(s: Seq<char>) -> Seq<char>
    decreases s.len(),
{
    if s.len() == 0 {
        Seq::<char>::empty()
    } else {
        quote_escape(s.drop_last()) + if s.last() == '"' {
            seq!['\\', '"']
        } else {
            seq![s.last()]
        }
    }
}

/// Appends `s` with `"` (and, when `backslashes` is set, `\`) escaped.
fn push_escaped(out: &mut String, s: &str, backslashes: bool)
    ensures
        final(out)@ == old(out)@ + if backslashes {
            json_escape(s@)
        } else {
            quote_escape(s@)
        },
{
    let v = chars_of(s);
    let ghost start = out@;
    let n = v.len();
    let mut i: usize = 0;
    while i < n
        invariant
            n == v@.len(),
            v@ == s@,
            i <= n,
            out@ == start + if backslashes {
                json_escape(v@.take(i as int))
            } else {
                quote_escape(v@.take(i as int))
            },
        decreases n - i,
    {
        let c = v[i];
        proof {
            assert(v@.take(i + 1).drop_last() == v@.take(i as int));
        }
        if c == '"' || (backslashes && c == '\\') {
            out.push('\\');
        }
        out.push(c);
        i = i + 1;
    }
    assert(v@.take(n as int) == v@);
}

/// A string as a double-quoted literal of the query language.
pub open spec fn quoted(s: Seq<char>) -> Seq<char> {
    seq!['"'] + json_escape(s) + seq!['"']
}

pub open spec fn quoted_all(vs: Seq<Seq<char>>) -> Seq<Seq<char>> {
    vs.map_values(|s: Seq<char>| quoted(s))
}

/// The values as a list of quoted strings: `["a", "b"]`.
pub open spec fn string_array_spec(values: Seq<Seq<char>>) -> Seq<char> {
    seq!['['] + join_spec(quoted_all(values), ", "@) + seq![']']
}

/// Renders the values as a list of quoted strings, `\` and `"` escaped.
pub fn json_string_array(values: &[String]) -> (r: String)
    ensures
        r@ == string_array_spec(views(values@)),
{
    let mut out = String::new();
    out.push('[');
    let ghost start = out@;
    let n = values.len();
    let mut i: usize = 0;
    while i < n
        invariant
            n == values@.len(),
            i <= n,
            out@ == start + join_spec(quoted_all(views(values@.take(i as int))), ", "@),
        decreases n - i,
    {
        proof {
            assert(views(values@.take(i + 1)).drop_last() == views(values@.take(i as int)));
            assert(quoted_all(views(values@.take(i + 1))).drop_last() == quoted_all(
                views(values@.take(i as int)),
            ));
            assert(quoted_all(views(values@.take(i + 1))).last() == quoted(values@[i as int]@));
        }
        if i > 0 {
            out.append(", ");
        }
        out.push('"');
        push_escaped(&mut out, values[i].as_str(), true);
        out.push('"');
        i = i + 1;
    }
    assert(values@.take(n as int) == values@);
    out.push(']');
    out
}

/// A filter clause `<field>: { name: { in: [...] } }`.
pub open spec fn clause_spec(field: Seq<char>, values: Seq<Seq<char>>) -> Seq<char> {
    field + ": { name: { in: "@ + string_array_spec(values) + " } }"@
}

/// The clauses of an issue filter, one per non-empty list.
pub open spec fn filter_clauses(
    labels: Seq<Seq<char>>,
    statuses: Seq<Seq<char>>,
    assignees: Seq<Seq<char>>,
) -> Seq<Seq<char>> {
    (if labels.len() > 0 {
        seq![clause_spec("labels"@, labels)]
    } else {
        Seq::empty()
    }) + (if statuses.len() > 0 {
        seq![clause_spec("state"@, statuses)]
    } else {
        Seq::empty()
    }) + (if assignees.len() > 0 {
        seq![clause_spec("assignee"@, assignees)]
    } else {
        Seq::empty()
    })
}

/// The issue filter: `{}` without clauses, else `{ c1, c2 }`.
pub open spec fn issue_filter_spec(
    labels: Seq<Seq<char>>,
    statuses: Seq<Seq<char>>,
    assignees: Seq<Seq<char>>,
) -> Seq<char> {
    let clauses = filter_clauses(labels, statuses, assignees);
    if clauses.len() == 0 {
        "{}"@
    } else {
        "{ "@ + join_spec(clauses, ", "@) + " }"@
    }
}

/// Each non-empty list becomes a membership clause on its field,
/// `<field>: { name: { in: [...] } }` (labels, then `state` for the statuses,
/// then `assignee`), and the clauses stand in braces separated by `, `; no
/// list at all gives `{}`.
pub proof fn law_issue_filter_clauses(
    labels: Seq<Seq<char>>,
    statuses: Seq<Seq<char>>,
    assignees: Seq<Seq<char>>,
)
    ensures
        labels.len() == 0 && statuses.len() == 0 && assignees.len() == 0 ==> issue_filter_spec(
            labels,
            statuses,
            assignees,
        ) == "{}"@,
        labels.len() > 0 && statuses.len() == 0 && assignees.len() == 0 ==> issue_filter_spec(
            labels,
            statuses,
            assignees,
        ) == "{ labels: { name: { in: "@ + string_array_spec(labels) + " } } }"@,
        labels.len() == 0 && statuses.len() > 0 && assignees.len() == 0 ==> issue_filter_spec(
            labels,
            statuses,
            assignees,
        ) == "{ state: { name: { in: "@ + string_array_spec(statuses) + " } } }"@,
        labels.len() == 0 && statuses.len() == 0 && assignees.len() > 0 ==> issue_filter_spec(
            labels,
            statuses,
            assignees,
        ) == "{ assignee: { name: { in: "@ + string_array_spec(assignees) + " } } }"@,
        labels.len() > 0 && statuses.len() > 0 && assignees.len() > 0 ==> issue_filter_spec(
            labels,
            statuses,
            assignees,
        ) == "{ labels: { name: { in: "@ + string_array_spec(labels) + " } }, state: { name: { in: "@
            + string_array_spec(statuses) + " } }, assignee: { name: { in: "@ + string_array_spec(
            assignees,
        ) + " } } }"@,
{
    reveal_strlit("{}");
    reveal_strlit("{ ");
    reveal_strlit(" }");
    reveal_strlit(", ");
    reveal_strlit(": { name: { in: ");
    reveal_strlit(" } }");
    reveal_strlit("labels");
    reveal_strlit("state");
    reveal_strlit("assignee");
    reveal_strlit("{ labels: { name: { in: ");
    reveal_strlit("{ state: { name: { in: ");
    reveal_strlit("{ assignee: { name: { in: ");
    reveal_strlit(" } } }");
    reveal_strlit(" } }, state: { name: { in: ");
    reveal_strlit(" } }, assignee: { name: { in: ");
    let l = string_array_spec(labels);
    let st = string_array_spec(statuses);
    let a = string_array_spec(assignees);
    let cl = clause_spec("labels"@, labels);
    let cs = clause_spec("state"@, statuses);
    let ca = clause_spec("assignee"@, assignees);
    if labels.len() > 0 && statuses.len() == 0 && assignees.len() == 0 {
        assert(filter_clauses(labels, statuses, assignees) =~= seq![cl]);
        assert("{ "@ + cl + " }"@ =~= "{ labels: { name: { in: "@ + l + " } } }"@);
    }
    if labels.len() == 0 && statuses.len() > 0 && assignees.len() == 0 {
        assert(filter_clauses(labels, statuses, assignees) =~= seq![cs]);
        assert("{ "@ + cs + " }"@ =~= "{ state: { name: { in: "@ + st + " } } }"@);
    }
    if labels.len() == 0 && statuses.len() == 0 && assignees.len() > 0 {
        assert(filter_clauses(labels, statuses, assignees) =~= seq![ca]);
        assert("{ "@ + ca + " }"@ =~= "{ assignee: { name: { in: "@ + a + " } } }"@);
    }
    if labels.len() > 0 && statuses.len() > 0 && assignees.len() > 0 {
        let cls = seq![cl, cs, ca];
        assert(filter_clauses(labels, statuses, assignees) =~= cls);
        assert(cls.drop_last() =~= seq![cl, cs]);
        assert(seq![cl, cs].drop_last() =~= seq![cl]);
        assert(join_spec(seq![cl], ", "@) == cl);
        assert(join_spec(seq![cl, cs], ", "@) == cl + ", "@ + cs);
        assert(join_spec(cls, ", "@) == join_spec(seq![cl, cs], ", "@) + ", "@ + ca);
        assert(join_spec(cls, ", "@) =~= cl + ", "@ + cs + ", "@ + ca);
        assert("{ "@ + (cl + ", "@ + cs + ", "@ + ca) + " }"@ =~= "{ labels: { name: { in: "@ + l
            + " } }, state: { name: { in: "@ + st + " } }, assignee: { name: { in: "@ + a
            + " } } }"@);
    }
    if labels.len() == 0 && statuses.len() == 0 && assignees.len() == 0 {
        assert(filter_clauses(labels, statuses, assignees) =~= Seq::<Seq<char>>::empty());
    }
}

/// A filter clause `<field>: { name: { in: [...] } }`.
fn filter_clause(field: &str, values: &[String]) -> (r: String)
    ensures
        r@ == clause_spec(field@, views(values@)),
{
    let mut out = String::new();
    out.append(field);
    out.append(": { name: { in: ");
    let arr = json_string_array(values);
    out.append(arr.as_str());
    out.append(" } }");
    out
}

/// Builds the issue filter for the given labels, statuses and assignees.
pub fn build_issue_filter(params: &GetTicketsParams) -> (r: String)
    ensures
        r@ == issue_filter_spec(
            views(params.labels@),
            views(params.statuses@),
            views(params.assignees@),
        ),
{
    let mut parts: Vec<String> = Vec::new();
    if params.labels.len() > 0 {
        parts.push(filter_clause("labels", params.labels));
    }
    let ghost p1 = parts@;
    if params.statuses.len() > 0 {
        parts.push(filter_clause("state", params.statuses));
    }
    let ghost p2 = parts@;
    if params.assignees.len() > 0 {
        parts.push(filter_clause("assignee", params.assignees));
    }
    proof {
        assert(views(parts@) =~= filter_clauses(
            views(params.labels@),
            views(params.statuses@),
            views(params.assignees@),
        ));
    }
    if parts.len() == 0 {
        return "{}".to_owned();
    }
    let mut out = String::new();
    out.append("{ ");
    push_joined(&mut out, &parts, ", ");
    out.append(" }");
    out
}


/// The aliased lookup of one ticket: `i<k>: issue(id: "<id>") { ... }`.
pub open spec fn alias_field(k: nat, id: Seq<char>) -> Seq<char> {
    "i"@ + decimal_spec(k) + ": issue(id: \""@ + quote_escape(id)
        + "\") { assignee { name } attachments { nodes { url } } }"@
}

pub open spec fn alias_fields(ids: Seq<Seq<char>>) -> Seq<Seq<char>> {
    Seq::new(ids.len(), |k: int| alias_field(k as nat, ids[k]))
}

/// The batched query looking up each ticket under the alias `i<index>`.
pub open spec fn alias_query_spec(ids: Seq<Seq<char>>) -> Seq<char> {
    "{ "@ + join_spec(alias_fields(ids), " "@) + " }"@
}

/// Builds the batched query that looks up each ticket under the alias
/// `i<index>`, asking for its assignee and attachment URLs.
pub fn build_alias_query(ticket_ids: &[String]) -> (r: String)
    ensures
        r@ == alias_query_spec(views(ticket_ids@)),
{
    let mut out = String::new();
    out.append("{ ");
    let ghost start = out@;
    let n = ticket_ids.len();
    let mut i: usize = 0;
    while i < n
        invariant
            n == ticket_ids@.len(),
            i <= n,
            out@ == start + join_spec(alias_fields(views(ticket_ids@.take(i as int))), " "@),
        decreases n - i,
    {
        proof {
            assert(alias_fields(views(ticket_ids@.take(i + 1))).drop_last() =~= alias_fields(
                views(ticket_ids@.take(i as int)),
            ));
            assert(alias_fields(views(ticket_ids@.take(i + 1))).last() == alias_field(
                i as nat,
                ticket_ids@[i as int]@,
            ));
        }
        if i > 0 {
            out.append(" ");
        }
        out.append("i");
        push_decimal(&mut out, i as u64);
        out.append(": issue(id: \"");
        push_escaped(&mut out, ticket_ids[i].as_str(), false);
        out.append("\") { assignee { name } attachments { nodes { url } } }");
        i = i + 1;
    }
    assert(views(ticket_ids@.take(n as int)) == views(ticket_ids@));
    out.append(" }");
    out
}

/// The PR number of a pull-request URL
/// (`https://github.com/<owner>/<repo>/pull/<number>`): the last path segment
/// when the one before it is `pull`.
pub open spec fn pr_number_spec(url: Seq<char>) -> Option<u64> {
    let parts = split_spec(url, '/');
    if parts.len() >= 2 && parts[parts.len() - 2] == "pull"@ {
        parse_u64_spec(parts.last())
    } else {
        None
    }
}

/// Extracts the PR number from a pull-request URL.
pub fn extract_pr_number(url: &str) -> (r: Option<u64>)
    ensures
        r == pr_number_spec(url@),
{
    let v = chars_of(url);
    let parts = split_chars(&v, '/');
    proof {
        lemma_split_nonempty(v@, '/');
    }
    let n = parts.len();
    if n >= 2 {
        let pull = chars_of("pull");
        if chars_eq(&parts[n - 2], &pull) {
            let last = &parts[n - 1];
            assert(last@.subrange(0, last@.len() as int) == last@);
            return parse_u64_chars(last, 0, last.len());
        }
    }
    None
}

/// A lowercase hexadecimal digit for a value below sixteen.
pub open spec fn hex_digit(d: nat) -> char {
    if d < 10 {
        (48 + d) as char
    } else {
        (87 + d) as char
    }
}

/// How `serde_json` writes one character inside a string literal: `"` and `\`
/// behind a backslash, backspace, form feed, newline, carriage return and tab
/// as `\b \f \n \r \t`, the other characters below U+0020 as `\u00XX` (lowercase
/// hex), everything else as it is.
pub open spec fn json_char_escape(c: char) -> Seq<char> {
    if c == '"' || c == '\\' {
        seq!['\\', c]
    } else if c == '\u{8}' {
        seq!['\\', 'b']
    } else if c == '\u{c}' {
        seq!['\\', 'f']
    } else if c == '\n' {
        seq!['\\', 'n']
    } else if c == '\r' {
        seq!['\\', 'r']
    } else if c == '\t' {
        seq!['\\', 't']
    } else if (c as u32) < 0x20 {
        seq!['\\', 'u', '0', '0', hex_digit((c as u32 / 16) as nat), hex_digit((c as u32 % 16) as nat)]
    } else {
        seq![c]
    }
}

pub open spec fn json_chars_escape(s: Seq<char>) -> Seq<char>
    decreases s.len(),
{
    if s.len() == 0 {
        Seq::<char>::empty()
    } else {
        json_chars_escape(s.drop_last()) + json_char_escape(s.last())
    }
}

/// The JSON string literal of `s`, as `serde_json::to_string` writes a string.
pub open spec fn json_string_literal(s: Seq<char>) -> Seq<char> {
    seq!['"'] + json_chars_escape(s) + seq!['"']
}

/// No character of `s` is a control character below U+0020.
pub open spec fn no_control_chars(s: Seq<char>) -> bool {
    forall|i: int| 0 <= i < s.len() ==> (s[i] as u32) >= 0x20
}

proof fn lemma_quote_escape_is_serde_escape(s: Seq<char>)
    requires
        no_control_chars(s),
    ensures
        json_escape(s) == json_chars_escape(s),
    decreases s.len(),
{
    if s.len() > 0 {
        let t = s.drop_last();
        assert forall|i: int| 0 <= i < t.len() implies (t[i] as u32) >= 0x20 by {
            assert(t[i] == s[i]);
        }
        lemma_quote_escape_is_serde_escape(t);
        assert((s[s.len() - 1] as u32) >= 0x20);
    }
}

/// For values without control characters, `json_string_array` writes each
/// value exactly as `serde_json` writes that string (its `json_string_literal`),
/// between brackets and separated by `, `: a JSON array of those strings.
pub proof fn law_string_array_of_json_literals(values: Seq<Seq<char>>)
    requires
        forall|i: int| 0 <= i < values.len() ==> no_control_chars(#[trigger] values[i]),
    ensures
        string_array_spec(values) == seq!['['] + join_spec(
            values.map_values(|v: Seq<char>| json_string_literal(v)),
            ", "@,
        ) + seq![']'],
{
    assert forall|i: int| 0 <= i < values.len() implies #[trigger] quoted_all(values)[i]
        == json_string_literal(values[i]) by {
        lemma_quote_escape_is_serde_escape(values[i]);
    }
    assert(quoted_all(values) =~= values.map_values(|v: Seq<char>| json_string_literal(v)));
}

/// Serializes a string with `serde_json::to_string`: the result is the string
/// in double quotes, each character written as `json_char_escape` says (the
/// escape table of `serde_json`'s serializer). Serializing a `str` into memory
/// does not fail: its `Serialize` impl writes a string, and writes into a `Vec`
/// cannot fail.
#[verifier::external_body]
fn json_string(s: &str) -> (r: Result<String, serde_json::Error>)
    ensures
        r is Ok,
        r matches Ok(t) ==> t@ == json_string_literal(s@),
{
    serde_json::to_string(s)
}

/// The request body posting `query`: `{"query":<literal>}`.
pub open spec fn request_body_spec(query: Seq<char>) -> Seq<char> {
    "{\"query\":"@ + json_string_literal(query) + "}"@
}

/// Builds the JSON body of a GraphQL request for `query`.
pub fn graphql_body(query: &str) -> (r: Result<String, ToolError>)
    ensures
        r matches Ok(b) && b@ == request_body_spec(query@),
{
    let lit = match json_string(query) {
        Ok(t) => t,
        Err(e) => {
            return Err(ToolError::JsonParse(e));
        },
    };
    let mut out = String::new();
    out.append("{\"query\":");
    out.append(lit.as_str());
    out.append("}");
    Ok(out)
}

/// The outcome of a GraphQL answer: its error messages, when there are any,
/// else its `data`.
pub fn graphql_data<T>(error_messages: Vec<String>, data: Option<T>) -> (r: Result<T, ToolError>)
    ensures
        if error_messages@.len() > 0 {
            r matches Err(ToolError::GraphqlErrors(m)) && m == error_messages
        } else {
            match data {
                Some(d) => r == Ok::<T, ToolError>(d),
                None => r matches Err(ToolError::GraphqlErrors(m)) && views(m@) == seq![
                    "response missing 'data' field"@,
                ],
            }
        },
{
    if error_messages.len() > 0 {
        return Err(ToolError::GraphqlErrors(error_messages));
    }
    match data {
        Some(d) => Ok(d),
        None => {
            let mut m: Vec<String> = Vec::new();
            m.push("response missing 'data' field".to_owned());
            assert(views(m@) =~= seq!["response missing 'data' field"@]);
            Err(ToolError::GraphqlErrors(m))
        },
    }
}


/// Tickets asked for per page.
pub const PAGE_SIZE: usize = 50;

/// Tickets looked up per batched query.
pub const ALIAS_BATCH_SIZE: usize = 50;

/// Splits the ticket identifiers into batches of `ALIAS_BATCH_SIZE`, in order;
/// only the last batch may be shorter.
pub fn alias_batches(ticket_ids: &[String]) -> (r: Vec<Vec<String>>)
    ensures
        r@.len() == (ticket_ids@.len() + 49) / 50,
        forall|b: int|
            0 <= b < r@.len() ==> #[trigger] r@[b]@ == ticket_ids@.subrange(
                50 * b,
                if 50 * b + 50 <= ticket_ids@.len() {
                    50 * b + 50
                } else {
                    ticket_ids@.len() as int
                },
            ),
{
    let n = ticket_ids.len();
    let mut out: Vec<Vec<String>> = Vec::new();
    let mut start: usize = 0;
    while start < n
        invariant
            n == ticket_ids@.len(),
            start <= n,
            start < n ==> start == 50 * out@.len(),
            start == n ==> out@.len() == (n + 49) / 50,
            forall|b: int|
                0 <= b < out@.len() ==> #[trigger] out@[b]@ == ticket_ids@.subrange(
                    50 * b,
                    if 50 * b + 50 <= n {
                        50 * b + 50
                    } else {
                        n as int
                    },
                ),
        decreases n - start,
    {
        let end = if n - start >= ALIAS_BATCH_SIZE {
            start + ALIAS_BATCH_SIZE
        } else {
            n
        };
        let mut batch: Vec<String> = Vec::new();
        let mut k = start;
        while k < end
            invariant
                start <= k <= end <= n == ticket_ids@.len(),
                batch@ == ticket_ids@.subrange(start as int, k as int),
            decreases end - k,
        {
            batch.push(ticket_ids[k].clone());
            k = k + 1;
        }
        out.push(batch);
        start = end;
    }
    out
}

/// The `after` argument for a cursor: `, after: "<cursor>"`, or nothing.
pub open spec fn after_clause_spec(cursor: Option<Seq<char>>) -> Seq<char> {
    match cursor {
        Some(c) => ", after: \""@ + quote_escape(c) + "\""@,
        None => Seq::<char>::empty(),
    }
}

/// The query for one page of issues.
pub open spec fn page_query_spec(filter: Seq<char>, first: nat, cursor: Option<Seq<char>>) -> Seq<
    char,
> {
    "{ issues(filter: "@ + filter + ", first: "@ + decimal_spec(first) + after_clause_spec(cursor)
        + ") { nodes { identifier } pageInfo { hasNextPage endCursor } } }"@
}

/// Walks the pages of a ticket query: it says which page to ask for next and
/// takes in each page, until the limit is reached or no page is left.
pub struct TicketPager {
    filter: String,
    limit: Option<usize>,
    collected: Vec<String>,
    cursor: Option<String>,
    done: bool,
}

impl TicketPager {
    #[verifier::type_invariant]
    spec fn within_limit(self) -> bool {
        match self.limit {
            Some(l) => self.collected@.len() <= l,
            None => true,
        }
    }

    /// The issue filter the pages are asked with.
    pub closed spec fn filter_view(&self) -> Seq<char> {
        self.filter@
    }

    /// The greatest number of tickets wanted.
    pub closed spec fn limit_view(&self) -> Option<usize> {
        self.limit
    }

    /// The identifiers taken in so far.
    pub closed spec fn collected_view(&self) -> Seq<Seq<char>> {
        views(self.collected@)
    }

    /// Where the next page starts.
    pub closed spec fn cursor_view(&self) -> Option<Seq<char>> {
        match self.cursor {
            Some(c) => Some(c@),
            None => None,
        }
    }

    /// No further page is asked for: the last page said so, or the limit was
    /// reached while taking one in.
    pub closed spec fn finished(&self) -> bool {
        self.done
    }

    /// Another page is wanted.
    pub open spec fn wants_more(&self) -> bool {
        !self.finished() && match self.limit_view() {
            Some(l) => self.collected_view().len() < l,
            None => true,
        }
    }

    /// Starts a ticket query with the filter built from the parameters.
    pub fn new(params: &GetTicketsParams) -> (p: Self)
        ensures
            p.filter_view() == issue_filter_spec(
                views(params.labels@),
                views(params.statuses@),
                views(params.assignees@),
            ),
            p.limit_view() == params.limit,
            p.collected_view().len() == 0,
            p.cursor_view() is None,
            !p.finished(),
    {
        let filter = build_issue_filter(params);
        let p = TicketPager {
            filter,
            limit: params.limit,
            collected: Vec::new(),
            cursor: None,
            done: false,
        };
        assert(views(p.collected@) =~= Seq::<Seq<char>>::empty());
        p
    }

    /// The query for the next page, asking for at most `PAGE_SIZE` tickets and
    /// no more than the limit leaves; none when no further page is wanted.
    pub fn next_query(&self) -> (r: Option<String>)
        ensures
            match r {
                None => !self.wants_more(),
                Some(q) => self.wants_more() && q@ == page_query_spec(
                    self.filter_view(),
                    match self.limit_view() {
                        Some(l) => if l - self.collected_view().len() < 50 {
                            (l - self.collected_view().len()) as nat
                        } else {
                            50nat
                        },
                        None => 50nat,
                    },
                    self.cursor_view(),
                ),
            },
    {
        proof {
            use_type_invariant(self);
        }
        if self.done {
            return None;
        }
        let fetch = match self.limit {
            Some(l) => {
                let remaining = l - self.collected.len();
                if remaining == 0 {
                    return None;
                }
                if remaining < PAGE_SIZE {
                    remaining
                } else {
                    PAGE_SIZE
                }
            },
            None => PAGE_SIZE,
        };
        let mut out = String::new();
        out.append("{ issues(filter: ");
        out.append(self.filter.as_str());
        out.append(", first: ");
        push_decimal(&mut out, fetch as u64);
        match &self.cursor {
            Some(c) => {
                out.append(", after: \"");
                push_escaped(&mut out, c.as_str(), false);
                out.append("\"");
            },
            None => {},
        }
        out.append(") { nodes { identifier } pageInfo { hasNextPage endCursor } } }");
        Some(out)
    }

    /// Takes in a page: its identifiers (up to the limit), whether another page
    /// follows, and the cursor that page starts at.
    pub fn take_page(&mut self, identifiers: Vec<String>, has_next_page: bool, end_cursor: Option<String>)
        requires
            old(self).wants_more(),
        ensures
            final(self).filter_view() == old(self).filter_view(),
            final(self).limit_view() == old(self).limit_view(),
            ({
                let before = old(self).collected_view();
                let page = views(identifiers@);
                let room: int = match old(self).limit_view() {
                    Some(l) => l - before.len(),
                    None => page.len() as int,
                };
                let hit_limit = old(self).limit_view() is Some && page.len() >= room;
                let taken = if hit_limit {
                    page.take(room)
                } else {
                    page
                };
                &&& final(self).collected_view() == before + taken
                &&& final(self).finished() == (hit_limit || !has_next_page)
                &&& final(self).cursor_view() == (if !hit_limit && has_next_page {
                    match end_cursor {
                        Some(c) => Some(c@),
                        None => None,
                    }
                } else {
                    old(self).cursor_view()
                })
            }),
    {
        proof {
            use_type_invariant(&*self);
        }
        let ghost before = views(self.collected@);
        let ghost page = views(identifiers@);
        let n = identifiers.len();
        let (count, hit) = match self.limit {
            Some(l) => {
                let room = l - self.collected.len();
                if n >= room {
                    (room, true)
                } else {
                    (n, false)
                }
            },
            None => (n, false),
        };
        let mut collected: Vec<String> = Vec::new();
        std::mem::swap(&mut collected, &mut self.collected);
        let mut i: usize = 0;
        while i < count
            invariant
                n == identifiers@.len(),
                page == views(identifiers@),
                count <= n,
                i <= count,
                views(collected@) == before + page.take(i as int),
                collected@.len() == before.len() + i,
            decreases count - i,
        {
            let ghost prev = collected@;
            let item = identifiers[i].clone();
            collected.push(item);
            proof {
                assert(page.take(i + 1) == page.take(i as int).push(identifiers@[i as int]@));
                assert(views(collected@) == views(prev).push(item@));
            }
            i = i + 1;
        }
        self.collected = collected;
        if hit {
            self.done = true;
            return;
        }
        assert(page.take(n as int) == page);
        if !has_next_page {
            self.done = true;
            return;
        }
        self.cursor = end_cursor;
    }

    /// The identifiers taken in; never more than the limit.
    pub fn into_tickets(self) -> (r: Vec<String>)
        ensures
            views(r@) == self.collected_view(),
            self.limit_view() matches Some(l) ==> r@.len() <= l,
    {
        proof {
            use_type_invariant(&self);
        }
        self.collected
    }
}


/// What an answer says of one looked-up ticket: who it is assigned to and the
/// URLs of its attachments.
#[derive(Debug)]
pub struct IssueAttachments {
    pub assignee: Option<String>,
    pub urls: Vec<String>,
}

/// One field of a batched answer: its alias and the ticket, or none when the
/// ticket was not found.
#[derive(Debug)]
pub struct AliasEntry {
    pub alias: String,
    pub issue: Option<IssueAttachments>,
}

pub open spec fn opt_view(o: Option<String>) -> Option<Seq<char>> {
    match o {
        Some(s) => Some(s@),
        None => None,
    }
}

/// The plain content of an answer field.
pub open spec fn entry_view(e: AliasEntry) -> (Seq<char>, Option<(Option<Seq<char>>, Seq<Seq<char>>)>) {
    (
        e.alias@,
        match e.issue {
            Some(i) => Some((opt_view(i.assignee), views(i.urls@))),
            None => None,
        },
    )
}

pub open spec fn entry_views(es: Seq<AliasEntry>) -> Seq<
    (Seq<char>, Option<(Option<Seq<char>>, Seq<Seq<char>>)>),
> {
    es.map_values(|e: AliasEntry| entry_view(e))
}

/// The ticket an alias `i<k>` stands for in its batch.
pub open spec fn alias_ticket(alias: Seq<char>, batch: Seq<Seq<char>>) -> Option<Seq<char>> {
    if alias.len() > 0 && alias[0] == 'i' {
        match parse_u64_spec(alias.drop_first()) {
            Some(k) => if k <= usize::MAX && k < batch.len() {
                Some(batch[k as int])
            } else {
                None
            },
            None => None,
        }
    } else {
        None
    }
}

/// The warning for a ticket that was not found.
pub open spec fn not_found_warning(id: Seq<char>) -> Seq<char> {
    "warning: "@ + id + " \u{2014} ticket not found or inaccessible"@
}

/// The warning for a ticket without PRs.
pub open spec fn no_pr_warning(id: Seq<char>, assignee: Option<Seq<char>>) -> Seq<char> {
    match assignee {
        Some(name) => "warning: "@ + id + " \u{2014} no associated PRs found (assignee: "@ + name
            + ")"@,
        None => "warning: "@ + id + " \u{2014} no associated PRs found (unassigned)"@,
    }
}

/// Collecting state: the PRs found so far (each once) and whether the limit
/// has been reached.
pub open spec fn url_step(st: (Seq<u64>, bool), url: Seq<char>, limit: Option<usize>) -> (
    Seq<u64>,
    bool,
) {
    if st.1 {
        st
    } else {
        match pr_number_spec(url) {
            Some(n) => if st.0.contains(n) {
                st
            } else {
                (
                    st.0.push(n),
                    match limit {
                        Some(l) => st.0.len() + 1 >= l,
                        None => false,
                    },
                )
            },
            None => st,
        }
    }
}

pub open spec fn urls_fold(st: (Seq<u64>, bool), urls: Seq<Seq<char>>, limit: Option<usize>) -> (
    Seq<u64>,
    bool,
)
    decreases urls.len(),
{
    if urls.len() == 0 {
        st
    } else {
        url_step(urls_fold(st, urls.drop_last(), limit), urls.last(), limit)
    }
}

/// Some URL names a PR.
pub open spec fn any_pr_url(urls: Seq<Seq<char>>) -> bool {
    exists|i: int| 0 <= i < urls.len() && #[trigger] pr_number_spec(urls[i]) is Some
}

/// Takes in one answer field: its PRs are added (until the limit is reached),
/// and a warning is given for a missing ticket or a ticket without PRs.
pub open spec fn entry_step(
    st: (Seq<u64>, bool, Seq<Seq<char>>),
    batch: Seq<Seq<char>>,
    e: (Seq<char>, Option<(Option<Seq<char>>, Seq<Seq<char>>)>),
    limit: Option<usize>,
) -> (Seq<u64>, bool, Seq<Seq<char>>) {
    if st.1 {
        st
    } else {
        let id = alias_ticket(e.0, batch);
        match e.1 {
            None => (
                st.0,
                false,
                match id {
                    Some(t) => st.2.push(not_found_warning(t)),
                    None => st.2,
                },
            ),
            Some((assignee, urls)) => {
                let (r, d) = urls_fold((st.0, false), urls, limit);
                (
                    r,
                    d,
                    if !d && !any_pr_url(urls) && id is Some {
                        st.2.push(no_pr_warning(id->0, assignee))
                    } else {
                        st.2
                    },
                )
            },
        }
    }
}

pub open spec fn entries_fold(
    st: (Seq<u64>, bool, Seq<Seq<char>>),
    batch: Seq<Seq<char>>,
    es: Seq<(Seq<char>, Option<(Option<Seq<char>>, Seq<Seq<char>>)>)>,
    limit: Option<usize>,
) -> (Seq<u64>, bool, Seq<Seq<char>>)
    decreases es.len(),
{
    if es.len() == 0 {
        st
    } else {
        entry_step(entries_fold(st, batch, es.drop_last(), limit), batch, es.last(), limit)
    }
}

/// Gathers the PR numbers of batched ticket lookups: each PR once, in the
/// order found, up to an optional limit.
pub struct PrCollector {
    limit: Option<usize>,
    found: Vec<u64>,
    done: bool,
}

impl PrCollector {
    /// The PRs found so far.
    pub closed spec fn found_view(&self) -> Seq<u64> {
        self.found@
    }

    /// The greatest number of PRs wanted.
    pub closed spec fn limit_view(&self) -> Option<usize> {
        self.limit
    }

    /// The limit has been reached.
    pub closed spec fn finished(&self) -> bool {
        self.done
    }

    pub fn new(limit: Option<usize>) -> (c: Self)
        ensures
            c.found_view().len() == 0,
            c.limit_view() == limit,
            !c.finished(),
    {
        PrCollector { limit, found: Vec::new(), done: false }
    }

    /// The limit has been reached; no further batch is wanted.
    pub fn is_finished(&self) -> (r: bool)
        ensures
            r == self.finished(),
    {
        self.done
    }

    /// Takes in the answer to one batch of lookups and returns the warnings it
    /// gives, in order.
    pub fn take_batch(&mut self, batch: &[String], entries: &[AliasEntry]) -> (warnings: Vec<String>)
        ensures
            final(self).limit_view() == old(self).limit_view(),
            (final(self).found_view(), final(self).finished(), views(warnings@)) == entries_fold(
                (old(self).found_view(), old(self).finished(), Seq::empty()),
                views(batch@),
                entry_views(entries@),
                old(self).limit_view(),
            ),
    {
        let mut warnings: Vec<String> = Vec::new();
        let ghost bv = views(batch@);
        let ghost ev = entry_views(entries@);
        let ghost init = (self.found@, self.done, Seq::<Seq<char>>::empty());
        let n = entries.len();
        let mut i: usize = 0;
        assert(views(warnings@) =~= Seq::<Seq<char>>::empty());
        while i < n
            invariant
                n == entries@.len(),
                bv == views(batch@),
                ev == entry_views(entries@),
                i <= n,
                self.limit == old(self).limit,
                init == (old(self).found@, old(self).done, Seq::<Seq<char>>::empty()),
                (self.found@, self.done, views(warnings@)) == entries_fold(
                    init,
                    bv,
                    ev.take(i as int),
                    self.limit,
                ),
            decreases n - i,
        {
            proof {
                assert(ev.take(i + 1).drop_last() == ev.take(i as int));
                assert(ev.take(i + 1).last() == entry_view(entries@[i as int]));
            }
            self.take_entry(batch, &entries[i], &mut warnings);
            i = i + 1;
        }
        assert(ev.take(n as int) == ev);
        warnings
    }

    /// Takes in one answer field.
    fn take_entry(&mut self, batch: &[String], entry: &AliasEntry, warnings: &mut Vec<String>)
        ensures
            final(self).limit == old(self).limit,
            (final(self).found@, final(self).done, views(final(warnings)@)) == entry_step(
                (old(self).found@, old(self).done, views(old(warnings)@)),
                views(batch@),
                entry_view(*entry),
                old(self).limit,
            ),
    {
        if self.done {
            return;
        }
        let id = alias_ticket_exec(entry.alias.as_str(), batch);
        match &entry.issue {
            None => {
                if let Some(t) = id {
                    let w = not_found_text(t);
                    let ghost before = warnings@;
                    warnings.push(w);
                    assert(views(warnings@) == views(before).push(w@));
                }
            },
            Some(info) => {
                let ghost uv = views(info.urls@);
                let m = info.urls.len();
                let mut k: usize = 0;
                let mut has_pr = false;
                let ghost start = self.found@;
                while k < m
                    invariant
                        m == info.urls@.len(),
                        uv == views(info.urls@),
                        k <= m,
                        self.limit == old(self).limit,
                        !self.done,
                        !old(self).done,
                        start == old(self).found@,
                        warnings@ == old(warnings)@,
                        entry.issue == Some(*info),
                        (self.found@, false) == urls_fold((start, false), uv.take(k as int), self.limit),
                        has_pr == any_pr_url(uv.take(k as int)),
                    decreases m - k,
                {
                    proof {
                        assert(uv.take(k + 1).drop_last() == uv.take(k as int));
                        assert(uv.take(k + 1).last() == info.urls@[k as int]@);
                    }
                    let found = extract_pr_number(info.urls[k].as_str());
                    proof {
                        let a = uv.take(k as int);
                        let b = uv.take(k + 1);
                        assert(any_pr_url(b) == (any_pr_url(a) || found is Some)) by {
                            if any_pr_url(b) {
                                let j = choose|j: int| 0 <= j < b.len() && #[trigger] pr_number_spec(b[j]) is Some;
                                if j < k {
                                    assert(a[j] == b[j]);
                                }
                            }
                            if any_pr_url(a) {
                                let j = choose|j: int| 0 <= j < a.len() && #[trigger] pr_number_spec(a[j]) is Some;
                                assert(b[j] == a[j]);
                            }
                            if found is Some {
                                assert(pr_number_spec(b[k as int]) is Some);
                            }
                        }
                    }
                    if let Some(pr) = found {
                        has_pr = true;
                        if !crate::text::vec_contains(&self.found, pr) {
                            let ghost prev = self.found@;
                            self.found.push(pr);
                            if let Some(l) = self.limit {
                                if self.found.len() >= l {
                                    self.done = true;
                                    proof {
                                        assert(pr_number_spec(uv[k as int]) == Some(pr));
                                        assert(urls_fold((start, false), uv.take(k + 1), self.limit)
                                            == url_step(
                                            urls_fold((start, false), uv.take(k as int), self.limit),
                                            uv[k as int],
                                            self.limit,
                                        ));
                                        assert(urls_fold((start, false), uv.take(k + 1), self.limit)
                                            == (prev.push(pr), true));
                                        lemma_urls_fold_done(
                                            (start, false),
                                            uv,
                                            (k + 1) as int,
                                            self.limit,
                                        );
                                    }
                                    assert(uv.take(m as int) == uv);
                                    assert(urls_fold((start, false), uv, self.limit) == (
                                        self.found@,
                                        true,
                                    ));
                                    assert(entry_view(*entry).1 == Some(
                                        (opt_view(info.assignee), uv),
                                    ));
                                    assert(entry_step(
                                        (start, false, views(warnings@)),
                                        views(batch@),
                                        entry_view(*entry),
                                        self.limit,
                                    ) == (self.found@, true, views(warnings@)));
                                    return;
                                }
                            }
                        }
                    }
                    k = k + 1;
                }
                assert(uv.take(m as int) == uv);
                if !has_pr {
                    if let Some(t) = id {
                        let w = no_pr_text(t, &info.assignee);
                        let ghost before = warnings@;
                        warnings.push(w);
                        assert(views(warnings@) == views(before).push(w@));
                    }
                }
            },
        }
    }

    /// The PRs found.
    pub fn into_prs(self) -> (r: Vec<u64>)
        ensures
            r@ == self.found_view(),
    {
        self.found
    }
}

/// The PRs collected so far are distinct and within the limit, which is
/// reached exactly when collecting stopped.
pub open spec fn collect_ok(found: Seq<u64>, done: bool, limit: Option<usize>) -> bool {
    &&& found.no_duplicates()
    &&& match limit {
        Some(l) => found.len() <= l && (done <==> found.len() >= l),
        None => !done,
    }
}

proof fn lemma_urls_fold_ok(st: (Seq<u64>, bool), urls: Seq<Seq<char>>, limit: Option<usize>)
    requires
        collect_ok(st.0, st.1, limit),
    ensures
        collect_ok(urls_fold(st, urls, limit).0, urls_fold(st, urls, limit).1, limit),
        st.0.is_prefix_of(urls_fold(st, urls, limit).0),
    decreases urls.len(),
{
    if urls.len() > 0 {
        lemma_urls_fold_ok(st, urls.drop_last(), limit);
        let p = urls_fold(st, urls.drop_last(), limit);
        if !p.1 {
            if let Some(n) = pr_number_spec(urls.last()) {
                if !p.0.contains(n) {
                    assert forall|i: int, j: int|
                        0 <= i < j < p.0.len() + 1 implies p.0.push(n)[i] != p.0.push(n)[j] by {
                        if j == p.0.len() {
                            assert(p.0.push(n)[i] == p.0[i]);
                        }
                    }
                    assert(st.0.is_prefix_of(p.0.push(n))) by {
                        assert forall|i: int| 0 <= i < st.0.len() implies st.0[i] == p.0.push(n)[i] by {
                            assert(st.0[i] == p.0[i]);
                        }
                    }
                }
            }
        }
    }
}

/// Whatever the answers hold, the collected PRs stay distinct and never
/// exceed the limit; collecting stops exactly when the limit is reached.
pub proof fn law_collected_prs_distinct_within_limit(
    st: (Seq<u64>, bool, Seq<Seq<char>>),
    batch: Seq<Seq<char>>,
    es: Seq<(Seq<char>, Option<(Option<Seq<char>>, Seq<Seq<char>>)>)>,
    limit: Option<usize>,
)
    requires
        collect_ok(st.0, st.1, limit),
    ensures
        collect_ok(entries_fold(st, batch, es, limit).0, entries_fold(st, batch, es, limit).1, limit),
        st.0.is_prefix_of(entries_fold(st, batch, es, limit).0),
    decreases es.len(),
{
    if es.len() > 0 {
        law_collected_prs_distinct_within_limit(st, batch, es.drop_last(), limit);
        let p = entries_fold(st, batch, es.drop_last(), limit);
        if !p.1 {
            match es.last().1 {
                Some((assignee, urls)) => {
                    lemma_urls_fold_ok((p.0, false), urls, limit);
                    let q = urls_fold((p.0, false), urls, limit);
                    assert(st.0.is_prefix_of(q.0)) by {
                        assert forall|i: int| 0 <= i < st.0.len() implies st.0[i] == q.0[i] by {
                            assert(st.0[i] == p.0[i]);
                        }
                    }
                },
                None => {},
            }
        }
    }
}

/// Once the limit is reached, the remaining URLs change nothing.
proof fn lemma_urls_fold_done(st: (Seq<u64>, bool), urls: Seq<Seq<char>>, k: int, limit: Option<usize>)
    requires
        0 <= k <= urls.len(),
        urls_fold(st, urls.take(k), limit).1,
    ensures
        urls_fold(st, urls, limit) == urls_fold(st, urls.take(k), limit),
    decreases urls.len() - k,
{
    if k < urls.len() {
        assert(urls.take(k + 1).drop_last() == urls.take(k));
        lemma_urls_fold_done(st, urls, k + 1, limit);
    } else {
        assert(urls.take(k) == urls);
    }
}

/// The ticket an alias stands for in its batch.
fn alias_ticket_exec<'a>(alias: &str, batch: &'a [String]) -> (r: Option<&'a String>)
    ensures
        match r {
            Some(t) => alias_ticket(alias@, views(batch@)) == Some(t@),
            None => alias_ticket(alias@, views(batch@)) is None,
        },
{
    let v = chars_of(alias);
    if v.len() == 0 || v[0] != 'i' {
        return None;
    }
    assert(v@.subrange(1, v@.len() as int) == v@.drop_first());
    match parse_u64_chars(&v, 1, v.len()) {
        Some(k) => {
            if k <= usize::MAX as u64 && (k as usize) < batch.len() {
                Some(&batch[k as usize])
            } else {
                None
            }
        },
        None => None,
    }
}

fn not_found_text(id: &String) -> (r: String)
    ensures
        r@ == not_found_warning(id@),
{
    let mut out = String::new();
    out.append("warning: ");
    out.append(id.as_str());
    out.append(" \u{2014} ticket not found or inaccessible");
    out
}

fn no_pr_text(id: &String, assignee: &Option<String>) -> (r: String)
    ensures
        r@ == no_pr_warning(id@, opt_view(*assignee)),
{
    let mut out = String::new();
    out.append("warning: ");
    out.append(id.as_str());
    match assignee {
        Some(name) => {
            out.append(" \u{2014} no associated PRs found (assignee: ");
            out.append(name.as_str());
            out.append(")");
        },
        None => {
            out.append(" \u{2014} no associated PRs found (unassigned)");
        },
    }
    out
}

} // verus!
