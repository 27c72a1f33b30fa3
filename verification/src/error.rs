//! The crate's error type and the message each error is reported with.

use vstd::prelude::*;
use vstd::std_specs::convert::FromSpecImpl;

use crate::text::{decimal_spec, join_spec, push_decimal, views};

verus! {

#[derive(Debug)]
pub enum ToolError {
    ApiKeyNotFound,
    SubprocessFailed { command: String, stderr: String, exit_code: Option<i32> },
    JsonParse(serde_json::Error),
    GraphqlErrors(Vec<String>),
    InvalidTicketId(String),
    InvalidPrNumber(String),
    EmptyInput,
    InvalidBranch(String),
    NoBranchDetected,
    MissingTool(String),
    NotAncestor { base: String, head: String },
    Io(std::io::Error),
}

pub type Result<T> = core::result::Result<T, ToolError>;

/// The decimal representation of a signed integer, as `Display` writes it.
pub open spec fn signed_decimal_spec(n: int) -> Seq<char> {
    if n < 0 {
        seq!['-'] + decimal_spec((-n) as nat)
    } else {
        decimal_spec(n as nat)
    }
}

/// The text of an error whose message is made of plain values only.
pub open spec fn message_spec(e: ToolError) -> Seq<char> {
    match e {
        ToolError::ApiKeyNotFound => "Linear API key not found. Provide --api-key or set LINEAR_API_KEY"@,
        ToolError::SubprocessFailed { command, stderr, exit_code } => command@ + " exited with code "@
            + match exit_code {
            Some(c) => signed_decimal_spec(c as int),
            None => "unknown"@,
        } + ": "@ + stderr@,
        ToolError::JsonParse(_) => "failed to parse JSON response: "@,
        ToolError::GraphqlErrors(errors) => "GraphQL errors: "@ + join_spec(views(errors@), "; "@),
        ToolError::InvalidTicketId(id) => "invalid ticket identifier: "@ + id@,
        ToolError::InvalidPrNumber(line) => "invalid PR number (expected positive integer): "@ + line@,
        ToolError::EmptyInput => "no PR numbers provided on stdin"@,
        ToolError::InvalidBranch(branch) => "branch does not exist as a local git ref: "@ + branch@,
        ToolError::NoBranchDetected =>
            "no --release-branch provided and current branch is not a release/* branch"@,
        ToolError::MissingTool(tool) => "required tool not found on PATH: "@ + tool@,
        ToolError::NotAncestor { base, head } => base@ + " is not an ancestor of "@ + head@
            + " \u{2014} refusing to continue (will not silently swap arguments)"@,
        ToolError::Io(_) => "I/O error: "@,
    }
}

/// Renders `serde_json::Error` through its `Display` impl. Nothing is stated
/// of the text.
#[verifier::external_body]
fn json_error_text(e: &serde_json::Error) -> String {
    e.to_string()
}

/// Renders `std::io::Error` through its `Display` impl. Nothing is stated of
/// the text.
#[verifier::external_body]
fn io_error_text(e: &std::io::Error) -> String {
    e.to_string()
}

/// Appends `parts` joined by `sep`.
pub fn push_joined(out: &mut String, parts: &Vec<String>, sep: &str)
    ensures
        final(out)@ == old(out)@ + join_spec(views(parts@), sep@),
{
    let ghost start = out@;
    let n = parts.len();
    let mut i: usize = 0;
    while i < n
        invariant
            n == parts@.len(),
            i <= n,
            out@ == start + join_spec(views(parts@.take(i as int)), sep@),
        decreases n - i,
    {
        proof {
            assert(views(parts@.take(i + 1)).drop_last() == views(parts@.take(i as int)));
            assert(views(parts@.take(i + 1)).last() == parts@[i as int]@);
        }
        if i > 0 {
            out.append(sep);
        }
        out.append(parts[i].as_str());
        i = i + 1;
    }
    assert(parts@.take(n as int) == parts@);
}

impl ToolError {
    /// The message the error is reported with. For `JsonParse` and `Io` the
    /// text after the fixed prefix is the inner error's own `Display` text.
    pub fn message(&self) -> (r: String)
        ensures
            (self is JsonParse || self is Io) ==> message_spec(*self).is_prefix_of(r@),
            !(self is JsonParse || self is Io) ==> r@ == message_spec(*self),
    {
        let mut out = String::new();
        match self {
            ToolError::ApiKeyNotFound => {
                out.append("Linear API key not found. Provide --api-key or set LINEAR_API_KEY");
            },
            ToolError::SubprocessFailed { command, stderr, exit_code } => {
                out.append(command.as_str());
                out.append(" exited with code ");
                match exit_code {
                    Some(c) => {
                        if *c < 0 {
                            out.push('-');
                            let m: i64 = *c as i64;
                            push_decimal(&mut out, (-m) as u64);
                        } else {
                            push_decimal(&mut out, *c as u64);
                        }
                    },
                    None => {
                        out.append("unknown");
                    },
                }
                out.append(": ");
                out.append(stderr.as_str());
            },
            ToolError::JsonParse(e) => {
                out.append("failed to parse JSON response: ");
                let t = json_error_text(e);
                out.append(t.as_str());
            },
            ToolError::GraphqlErrors(errors) => {
                out.append("GraphQL errors: ");
                push_joined(&mut out, errors, "; ");
            },
            ToolError::InvalidTicketId(id) => {
                out.append("invalid ticket identifier: ");
                out.append(id.as_str());
            },
            ToolError::InvalidPrNumber(line) => {
                out.append("invalid PR number (expected positive integer): ");
                out.append(line.as_str());
            },
            ToolError::EmptyInput => {
                out.append("no PR numbers provided on stdin");
            },
            ToolError::InvalidBranch(branch) => {
                out.append("branch does not exist as a local git ref: ");
                out.append(branch.as_str());
            },
            ToolError::NoBranchDetected => {
                out.append(
                    "no --release-branch provided and current branch is not a release/* branch",
                );
            },
            ToolError::MissingTool(tool) => {
                out.append("required tool not found on PATH: ");
                out.append(tool.as_str());
            },
            ToolError::NotAncestor { base, head } => {
                out.append(base.as_str());
                out.append(" is not an ancestor of ");
                out.append(head.as_str());
                out.append(" \u{2014} refusing to continue (will not silently swap arguments)");
            },
            ToolError::Io(e) => {
                out.append("I/O error: ");
                let t = io_error_text(e);
                out.append(t.as_str());
            },
        }
        out
    }
}

impl From<serde_json::Error> for ToolError {
    fn from(e: serde_json::Error) -> (r: Self) {
        ToolError::JsonParse(e)
    }
}

impl FromSpecImpl<serde_json::Error> for ToolError {
    open spec fn obeys_from_spec() -> bool {
        true
    }

    open spec fn from_spec(e: serde_json::Error) -> Self {
        ToolError::JsonParse(e)
    }
}

impl From<std::io::Error> for ToolError {
    fn from(e: std::io::Error) -> (r: Self) {
        ToolError::Io(e)
    }
}

impl FromSpecImpl<std::io::Error> for ToolError {
    open spec fn obeys_from_spec() -> bool {
        true
    }

    open spec fn from_spec(e: std::io::Error) -> Self {
        ToolError::Io(e)
    }
}

} // verus!
