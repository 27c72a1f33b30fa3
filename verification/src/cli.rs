//! What the command line itself decides: the orchestrator's arguments and
//! output lines, and the titles of the generated documentation pages.

use vstd::prelude::*;

use crate::github::law_printed_url_reads_back;
use crate::linear::pr_number_spec;
use crate::missing::decimals;
use crate::text::{lemma_decimal_roundtrip, parse_u64_spec};
use crate::text::{
    chars_of, decimal_spec, join_spec, lemma_split_nonempty, push_decimal, split_chars, split_spec,
    string_of, views,
};

verus! {

/// Arguments of the default (orchestrator) mode.
pub struct OrchestratorArgs {
    pub labels: Vec<String>,
    pub statuses: Vec<String>,
    pub assignees: Vec<String>,
    pub limit_tickets: Option<usize>,
    pub limit_prs: Option<usize>,
    pub repo: Option<String>,
    pub api_key: Option<String>,
    /// Run missing-prs analysis against this release branch after filter-merged
    pub release_branch: Option<String>,
}

/// What `char::to_uppercase` yields for a character (its Unicode uppercase
/// mapping, one or more characters).
pub uninterp spec fn char_uppercase(c: char) -> Seq<char>;

/// The uppercase mapping of `c`, collected from `char::to_uppercase`. For an
/// ASCII character it is the character itself, with `a`..=`z` mapped to
/// `A`..=`Z`; other characters follow the Unicode tables, which are not
/// stated here.
#[verifier::external_body]
fn uppercase_of(c: char) -> (r: String)
    ensures
        r@ == char_uppercase(c),
        (c as u32) < 128 ==> r@ == seq![ascii_upper(c)],
{
    c.to_uppercase().collect()
}

/// An ASCII character in upper case: `a`..=`z` become `A`..=`Z`, others stay.
pub open spec fn ascii_upper(c: char) -> char {
    if 'a' <= c <= 'z' {
        ((c as u32) - 32) as char
    } else {
        c
    }
}

/// Every character is ASCII.
pub open spec fn all_ascii(s: Seq<char>) -> bool {
    forall|i: int| 0 <= i < s.len() ==> (#[trigger] s[i] as u32) < 128
}

/// A word with its first ASCII character in upper case.
pub open spec fn ascii_title_word(w: Seq<char>) -> Seq<char> {
    if w.len() == 0 {
        w
    } else {
        seq![ascii_upper(w[0])] + w.drop_first()
    }
}

pub open spec fn ascii_title_words(ws: Seq<Seq<char>>) -> Seq<Seq<char>> {
    ws.map_values(|w: Seq<char>| ascii_title_word(w))
}

/// An ASCII kebab-case name as a title: each word's first letter upper-cased,
/// words joined by spaces.
pub open spec fn ascii_titlecase_spec(kebab: Seq<char>) -> Seq<char> {
    join_spec(ascii_title_words(split_spec(kebab, '-')), " "@)
}

/// The pieces of an ASCII string are ASCII.
proof fn lemma_split_ascii(s: Seq<char>, sep: char)
    requires
        all_ascii(s),
    ensures
        forall|j: int| 0 <= j < split_spec(s, sep).len() ==> all_ascii(#[trigger] split_spec(s, sep)[j]),
    decreases s.len(),
{
    if s.len() > 0 {
        let d = s.drop_last();
        assert(all_ascii(d)) by {
            assert forall|i: int| 0 <= i < d.len() implies (#[trigger] d[i] as u32) < 128 by {
                assert(d[i] == s[i]);
            }
        }
        lemma_split_ascii(d, sep);
        lemma_split_nonempty(d, sep);
        let p = split_spec(d, sep);
        assert((s[s.len() - 1] as u32) < 128);
        if s.last() != sep {
            let l = p.last().push(s.last());
            assert(all_ascii(p[p.len() - 1]));
            assert(all_ascii(l)) by {
                assert forall|i: int| 0 <= i < l.len() implies (#[trigger] l[i] as u32) < 128 by {
                    if i < l.len() - 1 {
                        assert(l[i] == p.last()[i]);
                    }
                }
            }
            assert forall|j: int| 0 <= j < split_spec(s, sep).len() implies all_ascii(
                #[trigger] split_spec(s, sep)[j],
            ) by {
                if j < p.len() - 1 {
                    assert(split_spec(s, sep)[j] == p[j]);
                }
            }
        } else {
            assert forall|j: int| 0 <= j < split_spec(s, sep).len() implies all_ascii(
                #[trigger] split_spec(s, sep)[j],
            ) by {
                if j < p.len() {
                    assert(split_spec(s, sep)[j] == p[j]);
                }
            }
        }
    }
}

/// A word with its first character in upper case.
pub open spec fn title_word(w: Seq<char>) -> Seq<char> {
    if w.len() == 0 {
        w
    } else {
        char_uppercase(w[0]) + w.drop_first()
    }
}

pub open spec fn title_words(ws: Seq<Seq<char>>) -> Seq<Seq<char>> {
    ws.map_values(|w: Seq<char>| title_word(w))
}

/// A kebab-case name as a title: the words between hyphens, each with its first
/// character in upper case, joined by spaces.
pub open spec fn titlecase_spec(kebab: Seq<char>) -> Seq<char> {
    join_spec(title_words(split_spec(kebab, '-')), " "@)
}

/// Turns a kebab-case name into a title: `get-tickets` becomes `Get Tickets`.
pub fn titlecase(kebab: &str) -> (r: String)
    ensures
        r@ == titlecase_spec(kebab@),
        all_ascii(kebab@) ==> r@ == ascii_titlecase_spec(kebab@),
{
    let v = chars_of(kebab);
    let words = split_chars(&v, '-');
    let ghost ws = split_spec(v@, '-');
    proof {
        lemma_split_nonempty(v@, '-');
        if all_ascii(v@) {
            lemma_split_ascii(v@, '-');
        }
    }
    let mut out = String::new();
    let n = words.len();
    let mut i: usize = 0;
    while i < n
        invariant
            n == words@.len() == ws.len(),
            ws == split_spec(v@, '-'),
            v@ == kebab@,
            forall|j: int| 0 <= j < n ==> #[trigger] words@[j]@ == ws[j],
            i <= n,
            out@ == join_spec(title_words(ws.take(i as int)), " "@),
            all_ascii(v@) ==> forall|j: int| 0 <= j < n ==> all_ascii(#[trigger] ws[j]),
            all_ascii(v@) ==> title_words(ws.take(i as int)) == ascii_title_words(ws.take(i as int)),
        decreases n - i,
    {
        proof {
            assert(title_words(ws.take(i + 1)).drop_last() == title_words(ws.take(i as int)));
            assert(title_words(ws.take(i + 1)).last() == title_word(ws[i as int]));
            assert(ascii_title_words(ws.take(i + 1)).drop_last() == ascii_title_words(ws.take(i as int)));
            assert(ascii_title_words(ws.take(i + 1)).last() == ascii_title_word(ws[i as int]));
            assert(title_words(ws.take(i + 1)) =~= title_words(ws.take(i as int)).push(
                title_word(ws[i as int]),
            ));
            assert(ascii_title_words(ws.take(i + 1)) =~= ascii_title_words(ws.take(i as int)).push(
                ascii_title_word(ws[i as int]),
            ));
        }
        if i > 0 {
            out.append(" ");
        }
        let w = &words[i];
        if w.len() > 0 {
            let up = uppercase_of(w[0]);
            proof {
                if all_ascii(v@) {
                    assert(all_ascii(ws[i as int]));
                    assert((w@[0] as u32) < 128);
                    assert(title_word(ws[i as int]) == ascii_title_word(ws[i as int]));
                }
            }
            out.append(up.as_str());
            let rest = crate::text::sub_vec(w, 1, w.len());
            assert(rest@ == w@.drop_first());
            let rest_s = string_of(rest.as_slice());
            out.append(rest_s.as_str());
        }
        proof {
            if all_ascii(v@) {
                assert(title_word(ws[i as int]) == ascii_title_word(ws[i as int]));
            }
        }
        i = i + 1;
    }
    assert(ws.take(n as int) == ws);
    out
}

/// A documentation page: a title and the help text in a code block.
pub open spec fn doc_page_spec(title: Seq<char>, help: Seq<char>) -> Seq<char> {
    "# "@ + title + "\n\n```\n"@ + help + "\n```\n"@
}

/// Builds a documentation page from its title and help text.
pub fn doc_page(title: &str, help: &str) -> (r: String)
    ensures
        r@ == doc_page_spec(title@, help@),
{
    let mut out = String::new();
    out.append("# ");
    out.append(title);
    out.append("\n\n```\n");
    out.append(help);
    out.append("\n```\n");
    out
}

/// How the orchestrator prints a merged PR: its URL when the repository is
/// known, else its number.
pub open spec fn pr_output_spec(repo: Option<Seq<char>>, pr: u64) -> Seq<char> {
    match repo {
        Some(r) => "https://github.com/"@ + r + "/pull/"@ + decimal_spec(pr as nat),
        None => decimal_spec(pr as nat),
    }
}

/// The line the orchestrator prints for a merged PR.
pub fn pr_output_line(repo: Option<&str>, pr: u64) -> (r: String)
    ensures
        r@ == pr_output_spec(
            match repo {
                Some(s) => Some(s@),
                None => None,
            },
            pr,
        ),
{
    let mut out = String::new();
    match repo {
        Some(r) => {
            out.append("https://github.com/");
            out.append(r);
            out.append("/pull/");
            push_decimal(&mut out, pr);
        },
        None => {
            push_decimal(&mut out, pr);
        },
    }
    out
}


/// Where the orchestrator stands: which answer it waits for next.
#[derive(Debug)]
pub enum OrchestratorState {
    AwaitTickets,
    AwaitPrs,
    AwaitMerged,
    /// Merged PRs are in hand; whether the current branch is a release branch
    /// decides what becomes of them.
    AwaitBranchCheck(Vec<u64>),
    Done,
}

/// What the caller reports back after doing an action.
#[derive(Debug)]
pub enum OrchestratorEvent {
    /// The tickets that matched the filters.
    Tickets(Vec<String>),
    /// The PR numbers of those tickets.
    Prs(Vec<u64>),
    /// The merged ones among them.
    Merged(Vec<u64>),
    /// Whether the current git branch is a release branch.
    OnReleaseBranch(bool),
}

/// What the caller is to do next.
#[derive(Debug)]
pub enum OrchestratorAction {
    /// Query Linear for the tickets.
    FetchTickets,
    /// Look up the PRs of these tickets.
    FetchPrs(Vec<String>),
    /// Keep the merged PRs among these inputs.
    FilterMerged(Vec<String>),
    /// Find out whether the current branch is a release branch.
    CheckReleaseBranch,
    /// Run the missing-PR analysis on these PR lines, against this branch
    /// (detected when none is given).
    RunMissing(Vec<String>, Option<String>),
    /// Print these lines.
    Print(Vec<String>),
    /// Stop: nothing more to do.
    Finish,
}

/// The plain content of an orchestrator state.
pub ghost enum StagePlan {
    AwaitTickets,
    AwaitPrs,
    AwaitMerged,
    AwaitBranchCheck(Seq<u64>),
    Done,
}

/// The plain content of an orchestrator event.
pub ghost enum EventPlan {
    Tickets(Seq<Seq<char>>),
    Prs(Seq<u64>),
    Merged(Seq<u64>),
    OnReleaseBranch(bool),
}

/// The plain content of an orchestrator action.
pub ghost enum ActionPlan {
    FetchTickets,
    FetchPrs(Seq<Seq<char>>),
    FilterMerged(Seq<Seq<char>>),
    CheckReleaseBranch,
    RunMissing(Seq<Seq<char>>, Option<Seq<char>>),
    Print(Seq<Seq<char>>),
    Finish,
}

pub open spec fn opt_str_view(o: Option<&str>) -> Option<Seq<char>> {
    match o {
        Some(s) => Some(s@),
        None => None,
    }
}

pub open spec fn stage_view(s: OrchestratorState) -> StagePlan {
    match s {
        OrchestratorState::AwaitTickets => StagePlan::AwaitTickets,
        OrchestratorState::AwaitPrs => StagePlan::AwaitPrs,
        OrchestratorState::AwaitMerged => StagePlan::AwaitMerged,
        OrchestratorState::AwaitBranchCheck(m) => StagePlan::AwaitBranchCheck(m@),
        OrchestratorState::Done => StagePlan::Done,
    }
}

pub open spec fn event_view(e: OrchestratorEvent) -> EventPlan {
    match e {
        OrchestratorEvent::Tickets(t) => EventPlan::Tickets(views(t@)),
        OrchestratorEvent::Prs(p) => EventPlan::Prs(p@),
        OrchestratorEvent::Merged(m) => EventPlan::Merged(m@),
        OrchestratorEvent::OnReleaseBranch(b) => EventPlan::OnReleaseBranch(b),
    }
}

pub open spec fn action_view(a: OrchestratorAction) -> ActionPlan {
    match a {
        OrchestratorAction::FetchTickets => ActionPlan::FetchTickets,
        OrchestratorAction::FetchPrs(t) => ActionPlan::FetchPrs(views(t@)),
        OrchestratorAction::FilterMerged(p) => ActionPlan::FilterMerged(views(p@)),
        OrchestratorAction::CheckReleaseBranch => ActionPlan::CheckReleaseBranch,
        OrchestratorAction::RunMissing(l, b) => ActionPlan::RunMissing(
            views(l@),
            match b {
                Some(s) => Some(s@),
                None => None,
            },
        ),
        OrchestratorAction::Print(l) => ActionPlan::Print(views(l@)),
        OrchestratorAction::Finish => ActionPlan::Finish,
    }
}

/// The lines printed for merged PRs when no analysis runs.
pub open spec fn output_lines(repo: Option<Seq<char>>, prs: Seq<u64>) -> Seq<Seq<char>> {
    Seq::new(prs.len(), |i: int| pr_output_spec(repo, prs[i]))
}

/// One step of the default mode: tickets, then their PRs, then the merged
/// ones; any empty list ends the run. Merged PRs go to the missing-PR analysis
/// when a release branch is given, or when the current branch is a release
/// branch (asked only when none is given); otherwise each is printed, as a URL
/// when the repository is known. An event that the state does not wait for
/// ends the run.
pub open spec fn orchestrator_step_spec(
    release_branch: Option<Seq<char>>,
    repo: Option<Seq<char>>,
    state: StagePlan,
    event: EventPlan,
) -> (StagePlan, ActionPlan) {
    match (state, event) {
        (StagePlan::AwaitTickets, EventPlan::Tickets(t)) => if t.len() == 0 {
            (StagePlan::Done, ActionPlan::Finish)
        } else {
            (StagePlan::AwaitPrs, ActionPlan::FetchPrs(t))
        },
        (StagePlan::AwaitPrs, EventPlan::Prs(p)) => if p.len() == 0 {
            (StagePlan::Done, ActionPlan::Finish)
        } else {
            (StagePlan::AwaitMerged, ActionPlan::FilterMerged(decimals(p)))
        },
        (StagePlan::AwaitMerged, EventPlan::Merged(m)) => if m.len() == 0 {
            (StagePlan::Done, ActionPlan::Finish)
        } else if release_branch is Some {
            (StagePlan::Done, ActionPlan::RunMissing(decimals(m), release_branch))
        } else {
            (StagePlan::AwaitBranchCheck(m), ActionPlan::CheckReleaseBranch)
        },
        (StagePlan::AwaitBranchCheck(m), EventPlan::OnReleaseBranch(on)) => if on {
            (StagePlan::Done, ActionPlan::RunMissing(decimals(m), None))
        } else {
            (StagePlan::Done, ActionPlan::Print(output_lines(repo, m)))
        },
        _ => (StagePlan::Done, ActionPlan::Finish),
    }
}

/// The decimal texts of PR numbers.
fn decimal_strings(prs: &Vec<u64>) -> (r: Vec<String>)
    ensures
        views(r@) == decimals(prs@),
{
    let mut out: Vec<String> = Vec::new();
    let n = prs.len();
    let mut i: usize = 0;
    while i < n
        invariant
            n == prs@.len(),
            i <= n,
            views(out@) == decimals(prs@.take(i as int)),
        decreases n - i,
    {
        let mut s = String::new();
        push_decimal(&mut s, prs[i]);
        let ghost before = out@;
        out.push(s);
        proof {
            assert(views(out@) == views(before).push(s@));
            assert(decimals(prs@.take(i + 1)) =~= decimals(prs@.take(i as int)).push(
                decimal_spec(prs@[i as int] as nat),
            ));
        }
        i = i + 1;
    }
    assert(prs@.take(n as int) == prs@);
    out
}

/// The lines printed for merged PRs.
fn output_lines_exec(repo: Option<&str>, prs: &Vec<u64>) -> (r: Vec<String>)
    ensures
        views(r@) == output_lines(opt_str_view(repo), prs@),
{
    let mut out: Vec<String> = Vec::new();
    let n = prs.len();
    let mut i: usize = 0;
    while i < n
        invariant
            n == prs@.len(),
            i <= n,
            views(out@) == output_lines(opt_str_view(repo), prs@.take(i as int)),
        decreases n - i,
    {
        let line = pr_output_line(repo, prs[i]);
        let ghost before = out@;
        out.push(line);
        proof {
            assert(views(out@) == views(before).push(line@));
            assert(output_lines(opt_str_view(repo), prs@.take(i + 1)) =~= output_lines(
                opt_str_view(repo),
                prs@.take(i as int),
            ).push(pr_output_spec(opt_str_view(repo), prs@[i as int])));
        }
        i = i + 1;
    }
    assert(prs@.take(n as int) == prs@);
    out
}

/// The first step of the default mode: fetch the tickets.
pub fn orchestrator_start() -> (r: (OrchestratorState, OrchestratorAction))
    ensures
        stage_view(r.0) == StagePlan::AwaitTickets,
        action_view(r.1) == ActionPlan::FetchTickets,
{
    (OrchestratorState::AwaitTickets, OrchestratorAction::FetchTickets)
}

/// Takes the answer to the last action and says what to do next.
pub fn orchestrator_step(
    release_branch: Option<&str>,
    repo: Option<&str>,
    state: OrchestratorState,
    event: OrchestratorEvent,
) -> (r: (OrchestratorState, OrchestratorAction))
    ensures
        (stage_view(r.0), action_view(r.1)) == orchestrator_step_spec(
            opt_str_view(release_branch),
            opt_str_view(repo),
            stage_view(state),
            event_view(event),
        ),
{
    match (state, event) {
        (OrchestratorState::AwaitTickets, OrchestratorEvent::Tickets(t)) => {
            if t.len() == 0 {
                (OrchestratorState::Done, OrchestratorAction::Finish)
            } else {
                (OrchestratorState::AwaitPrs, OrchestratorAction::FetchPrs(t))
            }
        },
        (OrchestratorState::AwaitPrs, OrchestratorEvent::Prs(p)) => {
            if p.len() == 0 {
                (OrchestratorState::Done, OrchestratorAction::Finish)
            } else {
                (OrchestratorState::AwaitMerged, OrchestratorAction::FilterMerged(decimal_strings(&p)))
            }
        },
        (OrchestratorState::AwaitMerged, OrchestratorEvent::Merged(m)) => {
            if m.len() == 0 {
                (OrchestratorState::Done, OrchestratorAction::Finish)
            } else {
                match release_branch {
                    Some(b) => (
                        OrchestratorState::Done,
                        OrchestratorAction::RunMissing(decimal_strings(&m), Some(b.to_owned())),
                    ),
                    None => (
                        OrchestratorState::AwaitBranchCheck(m),
                        OrchestratorAction::CheckReleaseBranch,
                    ),
                }
            }
        },
        (OrchestratorState::AwaitBranchCheck(m), OrchestratorEvent::OnReleaseBranch(on)) => {
            if on {
                (OrchestratorState::Done, OrchestratorAction::RunMissing(decimal_strings(&m), None))
            } else {
                (OrchestratorState::Done, OrchestratorAction::Print(output_lines_exec(repo, &m)))
            }
        },
        _ => (OrchestratorState::Done, OrchestratorAction::Finish),
    }
}

/// What becomes of a non-empty list of merged PRs in the default mode, once
/// the current branch has been looked at where that is asked: the missing-PR
/// analysis runs on them exactly when a release branch is given or the current
/// branch is a release branch; otherwise each is printed.
pub open spec fn merged_outcome(
    release_branch: Option<Seq<char>>,
    repo: Option<Seq<char>>,
    merged: Seq<u64>,
    on_release_branch: bool,
) -> ActionPlan {
    let (s1, a1) = orchestrator_step_spec(
        release_branch,
        repo,
        StagePlan::AwaitMerged,
        EventPlan::Merged(merged),
    );
    match a1 {
        ActionPlan::CheckReleaseBranch => orchestrator_step_spec(
            release_branch,
            repo,
            s1,
            EventPlan::OnReleaseBranch(on_release_branch),
        ).1,
        _ => a1,
    }
}

/// Merged PRs go to the missing-PR analysis when a release branch is given or
/// detected, and are printed (as URLs when the repository is known) otherwise;
/// the branch is asked for only when none is given.
pub proof fn law_merged_prs_outcome(
    release_branch: Option<Seq<char>>,
    repo: Option<Seq<char>>,
    merged: Seq<u64>,
    on_release_branch: bool,
)
    requires
        merged.len() > 0,
    ensures
        (orchestrator_step_spec(release_branch, repo, StagePlan::AwaitMerged, EventPlan::Merged(merged)).1
            == ActionPlan::CheckReleaseBranch) == (release_branch is None),
        merged_outcome(release_branch, repo, merged, on_release_branch) == if release_branch is Some
            || on_release_branch {
            ActionPlan::RunMissing(decimals(merged), release_branch)
        } else {
            ActionPlan::Print(output_lines(repo, merged))
        },
{
}

/// Each line is the decimal text of the PR at the same place.
pub open spec fn numbers_read_back(lines: Seq<Seq<char>>, prs: Seq<u64>) -> bool {
    &&& lines.len() == prs.len()
    &&& forall|i: int| 0 <= i < prs.len() ==> parse_u64_spec(#[trigger] lines[i]) == Some(prs[i])
}

/// Each printed line names the PR at the same place: its number, or its URL
/// when the repository is known.
pub open spec fn printed_read_back(repo: Option<Seq<char>>, lines: Seq<Seq<char>>, prs: Seq<u64>) -> bool {
    &&& lines.len() == prs.len()
    &&& forall|i: int|
        0 <= i < prs.len() ==> match repo {
            Some(_) => pr_number_spec(#[trigger] lines[i]) == Some(prs[i]),
            None => parse_u64_spec(lines[i]) == Some(prs[i]),
        }
}

proof fn lemma_decimals_read_back(prs: Seq<u64>)
    ensures
        numbers_read_back(decimals(prs), prs),
{
    assert forall|i: int| 0 <= i < prs.len() implies parse_u64_spec(#[trigger] decimals(prs)[i])
        == Some(prs[i]) by {
        lemma_decimal_roundtrip(prs[i]);
    }
}

proof fn lemma_output_lines_read_back(repo: Option<Seq<char>>, prs: Seq<u64>)
    ensures
        printed_read_back(repo, output_lines(repo, prs), prs),
{
    let lines = output_lines(repo, prs);
    assert forall|i: int| 0 <= i < prs.len() implies match repo {
        Some(_) => pr_number_spec(#[trigger] lines[i]) == Some(prs[i]),
        None => parse_u64_spec(lines[i]) == Some(prs[i]),
    } by {
        match repo {
            Some(r) => law_printed_url_reads_back(r, prs[i]),
            None => lemma_decimal_roundtrip(prs[i]),
        }
    }
}

/// The default mode chains get-tickets, get-prs and filter-merged: tickets in
/// hand ask for the PRs of exactly those tickets; PR numbers ask for the
/// merged ones among exactly those PRs, one decimal input each, in order;
/// merged PRs go to the missing-PR analysis (each as its decimal line, with
/// the given branch) or are printed one line per PR, in order. Every empty
/// list ends the run.
pub proof fn law_orchestrator_chain(
    release_branch: Option<Seq<char>>,
    repo: Option<Seq<char>>,
    tickets: Seq<Seq<char>>,
    prs: Seq<u64>,
    merged: Seq<u64>,
    on_release_branch: bool,
)
    ensures
        orchestrator_step_spec(release_branch, repo, StagePlan::AwaitTickets, EventPlan::Tickets(tickets))
            == if tickets.len() > 0 {
            (StagePlan::AwaitPrs, ActionPlan::FetchPrs(tickets))
        } else {
            (StagePlan::Done, ActionPlan::Finish)
        },
        prs.len() == 0 ==> orchestrator_step_spec(
            release_branch,
            repo,
            StagePlan::AwaitPrs,
            EventPlan::Prs(prs),
        ) == (StagePlan::Done, ActionPlan::Finish),
        prs.len() > 0 ==> match orchestrator_step_spec(
            release_branch,
            repo,
            StagePlan::AwaitPrs,
            EventPlan::Prs(prs),
        ) {
            (StagePlan::AwaitMerged, ActionPlan::FilterMerged(inputs)) => numbers_read_back(inputs, prs),
            _ => false,
        },
        merged.len() == 0 ==> orchestrator_step_spec(
            release_branch,
            repo,
            StagePlan::AwaitMerged,
            EventPlan::Merged(merged),
        ) == (StagePlan::Done, ActionPlan::Finish),
        merged.len() > 0 ==> match merged_outcome(release_branch, repo, merged, on_release_branch) {
            ActionPlan::RunMissing(lines, branch) => (release_branch is Some || on_release_branch)
                && branch == release_branch && numbers_read_back(lines, merged),
            ActionPlan::Print(lines) => !(release_branch is Some || on_release_branch)
                && printed_read_back(repo, lines, merged),
            _ => false,
        },
{
    lemma_decimals_read_back(prs);
    lemma_decimals_read_back(merged);
    lemma_output_lines_read_back(repo, merged);
}

} // verus!
