//! Filtering PRs by merge status.
//!
//! The `gh pr view` queries are made by the caller; this module decides what
//! is asked for each input and what a reported state means.

use vstd::prelude::*;

use crate::cli::pr_output_spec;
use crate::linear::pr_number_spec;
use crate::text::{
    decimal_spec, lemma_decimal_digits, lemma_decimal_roundtrip, lemma_split_append, occurs_at,
    chars_eq, chars_of, contains_chars, contains_spec, lemma_split_nonempty, parse_u64_chars,
    parse_u64_spec, split_chars, split_spec, string_of,
};

verus! {

/// Arguments for the `filter-merged` subcommand.
pub struct FilterMergedArgs {
    pub repo: Option<String>,
}

/// Parameters for filtering PRs by merge status.
pub struct FilterMergedParams<'a> {
    pub pr_inputs: &'a [String],
    pub repo: Option<&'a str>,
}

/// `str::parse::<u64>`, keeping its error value. Claimed, as std documents
/// `u64::from_str_radix`: `Ok(n)` exactly when the text is an optional `+`
/// followed by one or more ASCII digits whose value `n` fits in 64 bits, an
/// error otherwise.
#[verifier::external_body]
fn parse_u64_std(s: &str) -> (r: Result<u64, std::num::ParseIntError>)
    ensures
        match r {
            Ok(n) => parse_u64_spec(s@) == Some(n),
            Err(_) => parse_u64_spec(s@) is None,
        },
{
    s.parse::<u64>()
}

/// The PR number of a full GitHub PR URL: the last path segment when it is a
/// number, the one before it is `pull`, and the input names `github.com` and
/// `/pull/`.
pub open spec fn pr_input_spec(input: Seq<char>) -> Option<Seq<char>> {
    let parts = split_spec(input, '/');
    if contains_spec(input, "github.com"@) && contains_spec(input, "/pull/"@) && parts.len() >= 2
        && parts[parts.len() - 2] == "pull"@ && parse_u64_spec(parts.last()) is Some {
        Some(parts.last())
    } else {
        None
    }
}

/// If the input is a full GitHub PR URL, the PR number portion of it;
/// otherwise none (the input is taken to be a number already).
pub fn parse_pr_input(input: &str) -> (r: Option<String>)
    ensures
        match r {
            Some(n) => pr_input_spec(input@) == Some(n@),
            None => pr_input_spec(input@) is None,
        },
{
    let v = chars_of(input);
    let host = chars_of("github.com");
    let pull_path = chars_of("/pull/");
    if !(contains_chars(&v, &host) && contains_chars(&v, &pull_path)) {
        return None;
    }
    let parts = split_chars(&v, '/');
    proof {
        lemma_split_nonempty(v@, '/');
    }
    let n = parts.len();
    if n < 2 {
        return None;
    }
    let pull = chars_of("pull");
    if !chars_eq(&parts[n - 2], &pull) {
        return None;
    }
    let last = &parts[n - 1];
    assert(last@.subrange(0, last@.len() as int) == last@);
    match parse_u64_chars(last, 0, last.len()) {
        Some(_) => Some(string_of(last.as_slice())),
        None => None,
    }
}

/// The last path segment of a URL parsed as a PR number.
pub fn extract_number_from_url(url: &str) -> (r: Result<u64, std::num::ParseIntError>)
    ensures
        match r {
            Ok(n) => parse_u64_spec(split_spec(url@, '/').last()) == Some(n),
            Err(_) => parse_u64_spec(split_spec(url@, '/').last()) is None,
        },
{
    let v = chars_of(url);
    let parts = split_chars(&v, '/');
    proof {
        lemma_split_nonempty(v@, '/');
    }
    let last = string_of(parts[parts.len() - 1].as_slice());
    parse_u64_std(last.as_str())
}

/// What `gh pr view` is asked about for an input: the PR number of a full URL,
/// else the input as given.
pub open spec fn pr_ref_spec(input: Seq<char>) -> Seq<char> {
    match pr_input_spec(input) {
        Some(n) => n,
        None => input,
    }
}

/// The reference `gh pr view` is asked about for an input.
pub fn pr_ref_for(input: &str) -> (r: String)
    ensures
        r@ == pr_ref_spec(input@),
{
    match parse_pr_input(input) {
        Some(n) => n,
        None => input.to_owned(),
    }
}

/// The PR number kept for an input whose PR `gh` reported in `state`: only a
/// `MERGED` PR is kept, under the number of its reference, else of the input's
/// last path segment, and only when that number is positive.
pub open spec fn merged_number_spec(input: Seq<char>, state: Seq<char>) -> Option<u64> {
    if state == "MERGED"@ {
        let n = match parse_u64_spec(pr_ref_spec(input)) {
            Some(n) => n,
            None => match parse_u64_spec(split_spec(input, '/').last()) {
                Some(m) => m,
                None => 0,
            },
        };
        if n > 0 {
            Some(n)
        } else {
            None
        }
    } else {
        None
    }
}

/// What `gh pr view --json state` answers for a pull request.
pub struct PrState {
    pub state: String,
}

/// Decides whether an input whose PR `gh` reported as `pr` is a merged PR,
/// and under which number.
pub fn merged_pr_number(input: &str, pr: &PrState) -> (r: Option<u64>)
    ensures
        r == merged_number_spec(input@, pr.state@),
        pr.state@ != "MERGED"@ ==> r is None,
        r matches Some(n) ==> n > 0,
{
    let sv = chars_of(pr.state.as_str());
    let merged = chars_of("MERGED");
    if !chars_eq(&sv, &merged) {
        return None;
    }
    let pr_ref = pr_ref_for(input);
    let rv = chars_of(pr_ref.as_str());
    assert(rv@.subrange(0, rv@.len() as int) == rv@);
    let n = match parse_u64_chars(&rv, 0, rv.len()) {
        Some(n) => n,
        None => match extract_number_from_url(input) {
            Ok(m) => m,
            Err(_) => 0,
        },
    };
    if n > 0 {
        Some(n)
    } else {
        None
    }
}


/// The merged filter keeps a PR only when `gh` reports its state as exactly
/// `MERGED`: an open or closed (unmerged) PR, or any other state, is never
/// kept, and a kept PR has a positive number.
pub proof fn law_only_merged_prs_kept(input: Seq<char>, state: Seq<char>)
    ensures
        state != "MERGED"@ ==> merged_number_spec(input, state) is None,
        merged_number_spec(input, state) matches Some(n) ==> n > 0 && state == "MERGED"@,
{
}

/// A PR URL as the orchestrator prints it (`https://github.com/<repo>/pull/<n>`)
/// is read back as the same PR, by `extract_pr_number` and by `parse_pr_input`,
/// and is kept under that number by the merged filter.
pub proof fn law_printed_url_reads_back(repo: Seq<char>, pr: u64)
    ensures
        pr_number_spec(pr_output_spec(Some(repo), pr)) == Some(pr),
        pr_input_spec(pr_output_spec(Some(repo), pr)) == Some(decimal_spec(pr as nat)),
        pr > 0 ==> merged_number_spec(pr_output_spec(Some(repo), pr), "MERGED"@) == Some(pr),
{
    let d = decimal_spec(pr as nat);
    let url = pr_output_spec(Some(repo), pr);
    let a = "https://github.com/"@ + repo;
    let pull = seq!['p', 'u', 'l', 'l'];
    reveal_strlit("https://github.com/");
    reveal_strlit("/pull/");
    reveal_strlit("pull");
    reveal_strlit("github.com");
    assert(url =~= (a.push('/') + pull).push('/') + d);
    lemma_decimal_digits(pr as nat);
    lemma_decimal_roundtrip(pr);
    assert forall|i: int| 0 <= i < d.len() implies d[i] != '/' by {
        assert(crate::text::is_digit(d[i]));
    }
    lemma_split_append(a.push('/') + pull, '/', d);
    lemma_split_append(a, '/', pull);
    let parts = split_spec(url, '/');
    assert(parts == split_spec(a, '/').push(pull).push(d));
    assert(parts[parts.len() - 2] == pull);
    assert(pull == "pull"@);
    assert(occurs_at(url, "github.com"@, 8)) by {
        assert(url.subrange(8, 18) =~= "github.com"@);
    }
    assert(occurs_at(url, "/pull/"@, a.len() as int)) by {
        assert(url.subrange(a.len() as int, a.len() as int + 6) =~= "/pull/"@);
    }
}

/// A PR number given as such is kept under that number by the merged filter
/// when it is positive.
pub proof fn law_number_input_kept_when_merged(pr: u64)
    requires
        pr > 0,
    ensures
        merged_number_spec(decimal_spec(pr as nat), "MERGED"@) == Some(pr),
{
    let d = decimal_spec(pr as nat);
    lemma_decimal_digits(pr as nat);
    lemma_decimal_roundtrip(pr);
    reveal_strlit("github.com");
    assert(!contains_spec(d, "github.com"@)) by {
        if contains_spec(d, "github.com"@) {
            let i = choose|i: int| occurs_at(d, "github.com"@, i);
            assert(d.subrange(i, i + 10)[0] == 'g');
            assert(crate::text::is_digit(d[i]));
        }
    }
}

} // verus!
