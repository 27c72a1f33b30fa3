//! Release-branch analysis: which watched PRs are effectively present on `main`
//! but absent from a release branch.
//!
//! Each git history is scanned for `#N` mentions; a PR counts as effectively
//! present when it is mentioned an odd number of times (a revert mentions it
//! again). The subprocess work (git, rg, column) is done by the caller; this
//! module holds the decisions and the text it prints.

use vstd::prelude::*;

use crate::refs::{lemma_skip_digits, pr_refs_from, pr_refs_spec, scan_ref_at};
use std::collections::HashSet;

use crate::error::ToolError;
use crate::text::{
    chars_of, clean_lines, cleaned_spec, count_spec, cut_at_ten_ok, decimal_spec, dedup_spec,
    first_ten_bytes, first_ten_bytes_exec, join_spec, lemma_dedup_props, lines_spec, parse_u64,
    parse_u64_spec, push_decimal, split_lines, split_once_chars, split_once_spec,
    starts_with_chars, string_of, trim_spec, trim_str, vec_contains, views,
};

verus! {

/// Arguments for the `missing-prs` subcommand.
pub struct MissingPrsArgs {
    /// The release branch to compare against (auto-detected from the current branch if omitted)
    pub release_branch: Option<String>,
}

/// Parameters for the analysis run.
pub struct MissingPrsParams<'a> {
    pub pr_lines: &'a [String],
    pub release_branch: Option<&'a str>,
}

/// All `#N` references of a commit subject, in order: a `#` followed by digits
/// that end at a non-alphanumeric character or the end of the subject.
pub fn extract_pr_refs_from_subject(subject: &str) -> (refs: Vec<u64>)
    ensures
        refs@ == pr_refs_spec(subject@),
{
    let v = chars_of(subject);
    let len = v.len();
    let mut result: Vec<u64> = Vec::new();
    let mut i: usize = 0;
    while i < len
        invariant
            len == v@.len(),
            v@ == subject@,
            i <= len,
            result@ + pr_refs_from(v@, i as int) == pr_refs_spec(v@),
        decreases len - i,
    {
        if v[i] == '#' {
            let (end, found) = scan_ref_at(&v, i);
            proof {
                lemma_skip_digits(v@, i + 1, end as int);
            }
            match found {
                Some(n) => {
                    assert(result@.push(n) + pr_refs_from(v@, end as int) == result@ + (seq![n]
                        + pr_refs_from(v@, i + 1)));
                    result.push(n);
                },
                None => {},
            }
            i = end;
        } else {
            i = i + 1;
        }
    }
    assert(result@ + pr_refs_from(v@, len as int) == result@);
    result
}


/// The PR number a stdin line names: a positive integer as `str::parse::<u64>`
/// reads it.
pub open spec fn pr_line_value(line: Seq<char>) -> Option<u64> {
    match parse_u64_spec(line) {
        Some(n) => if n > 0 {
            Some(n)
        } else {
            None
        },
        None => None,
    }
}

/// The first index at or after `i` whose line names no PR.
pub open spec fn first_invalid_from(lines: Seq<Seq<char>>, i: int) -> Option<int>
    decreases lines.len() - i,
{
    if i < 0 || i >= lines.len() {
        None
    } else if pr_line_value(lines[i]) is None {
        Some(i)
    } else {
        first_invalid_from(lines, i + 1)
    }
}

/// The PR numbers the lines name, in order, repeats included.
pub open spec fn pr_line_values(lines: Seq<Seq<char>>) -> Seq<u64> {
    lines.map_values(|l: Seq<char>| pr_line_value(l)->0)
}

/// What parsing the tracked PR lines gives: `EmptyInput` for no lines, the
/// first line that is not a positive integer, or the numbers without repeats,
/// each at its first occurrence.
pub open spec fn pr_numbers_outcome(lines: Seq<Seq<char>>, r: Result<Vec<u64>, ToolError>) -> bool {
    if lines.len() == 0 {
        r matches Err(ToolError::EmptyInput)
    } else {
        match first_invalid_from(lines, 0) {
            Some(i) => r matches Err(ToolError::InvalidPrNumber(l)) && l@ == lines[i],
            None => r matches Ok(v) && v@ == dedup_spec(pr_line_values(lines)),
        }
    }
}

/// Parses the tracked PR numbers, one per line. The first line that is not a
/// positive integer is reported; repeated numbers are kept once, at their
/// first occurrence.
pub fn parse_pr_numbers(lines: &[String]) -> (r: Result<Vec<u64>, ToolError>)
    ensures
        pr_numbers_outcome(views(lines@), r),
{
    let ghost ls = views(lines@);
    if lines.len() == 0 {
        return Err(ToolError::EmptyInput);
    }
    let mut result: Vec<u64> = Vec::new();
    let mut i: usize = 0;
    while i < lines.len()
        invariant
            ls == views(lines@),
            0 < lines@.len(),
            i <= lines@.len(),
            first_invalid_from(ls, 0) == first_invalid_from(ls, i as int),
            result@ == dedup_spec(pr_line_values(ls.take(i as int))),
        decreases lines.len() - i,
    {
        let line = &lines[i];
        assert(ls[i as int] == line@);
        let parsed = parse_u64(line.as_str());
        let n = match parsed {
            Some(n) => n,
            None => {
                return Err(ToolError::InvalidPrNumber(line.clone()));
            },
        };
        if n == 0 {
            return Err(ToolError::InvalidPrNumber(line.clone()));
        }
        proof {
            assert(pr_line_values(ls.take(i + 1)).drop_last() == pr_line_values(ls.take(i as int)));
            assert(pr_line_values(ls.take(i + 1)).last() == n);
        }
        if !vec_contains(&result, n) {
            result.push(n);
        }
        i = i + 1;
    }
    assert(ls.take(lines@.len() as int) == ls);
    Ok(result)
}

/// The decimal texts of the PR numbers.
pub open spec fn decimals(prs: Seq<u64>) -> Seq<Seq<char>> {
    prs.map_values(|n: u64| decimal_spec(n as nat))
}

/// The ripgrep pattern matching a mention of any of the PRs: `#(a|b|c)\b`.
pub open spec fn rg_pattern_spec(prs: Seq<u64>) -> Seq<char> {
    "#("@ + join_spec(decimals(prs), "|"@) + ")\\b"@
}

/// Builds the ripgrep pattern `#(a|b|c)\b` for the given PRs.
pub fn build_rg_pattern(prs: &[u64]) -> (r: String)
    ensures
        r@ == rg_pattern_spec(prs@),
{
    let mut out = String::new();
    out.append("#(");
    let ghost start = out@;
    let n = prs.len();
    let mut i: usize = 0;
    while i < n
        invariant
            n == prs@.len(),
            i <= n,
            out@ == start + join_spec(decimals(prs@.take(i as int)), "|"@),
        decreases n - i,
    {
        proof {
            assert(decimals(prs@.take(i + 1)).drop_last() == decimals(prs@.take(i as int)));
            assert(decimals(prs@.take(i + 1)).last() == decimal_spec(prs@[i as int] as nat));
        }
        if i > 0 {
            out.append("|");
        }
        push_decimal(&mut out, prs[i]);
        i = i + 1;
    }
    assert(prs@.take(n as int) == prs@);
    out.append(")\\b");
    out
}

/// The PRs that are effectively present in a history: those mentioned an odd
/// number of times.
pub fn compute_effective(mentions: &[u64]) -> (r: HashSet<u64>)
    ensures
        forall|x: u64| r@.contains(x) <==> count_spec(mentions@, x) % 2 == 1,
{
    broadcast use vstd::std_specs::hash::group_hash_axioms;

    let mut set: HashSet<u64> = HashSet::new();
    let n = mentions.len();
    let mut i: usize = 0;
    while i < n
        invariant
            n == mentions@.len(),
            i <= n,
            forall|x: u64| set@.contains(x) <==> count_spec(mentions@.take(i as int), x) % 2 == 1,
        decreases n - i,
    {
        let m = mentions[i];
        proof {
            assert(mentions@.take(i + 1).drop_last() == mentions@.take(i as int));
        }
        if set.contains(&m) {
            set.remove(&m);
        } else {
            set.insert(m);
        }
        i = i + 1;
    }
    assert(mentions@.take(n as int) == mentions@);
    set
}


/// Strictly ascending, hence without repeats.
pub open spec fn strictly_ascending(s: Seq<u64>) -> bool {
    forall|i: int, j: int| 0 <= i < j < s.len() ==> s[i] < s[j]
}

/// Inserts `x` into a strictly ascending vector, unless it is there already.
#[verifier::spinoff_prover]
fn insert_sorted(v: &mut Vec<u64>, x: u64)
    requires
        strictly_ascending(old(v)@),
    ensures
        strictly_ascending(final(v)@),
        forall|y: u64| final(v)@.contains(y) <==> (old(v)@.contains(y) || y == x),
{
    let n = v.len();
    let mut j: usize = 0;
    while j < n && v[j] < x
        invariant
            n == v@.len(),
            j <= n,
            forall|k: int| 0 <= k < j ==> v@[k] < x,
        decreases n - j,
    {
        j = j + 1;
    }
    if j < n && v[j] == x {
        assert(v@[j as int] == x);
        assert(v@.contains(x));
        return;
    }
    let ghost before = v@;
    assert(before == old(v)@);
    v.insert(j, x);
    assert(v@ == before.insert(j as int, x));
    assert forall|y: u64| v@.contains(y) <==> (before.contains(y) || y == x) by {
        if v@.contains(y) {
            let k = choose|k: int| 0 <= k < v@.len() && v@[k] == y;
            if k < j {
                assert(before[k] == y);
            } else if k > j {
                assert(before[k - 1] == y);
            }
        }
        if before.contains(y) {
            let k = choose|k: int| 0 <= k < before.len() && before[k] == y;
            if k < j {
                assert(v@[k] == y);
            } else {
                assert(v@[k + 1] == y);
            }
        }
        if y == x {
            assert(v@[j as int] == x);
        }
    }
}

/// Mentioned an odd number of times.
pub open spec fn effective_in(mentions: Seq<u64>, x: u64) -> bool {
    count_spec(mentions, x) % 2 == 1
}

/// The outcome of comparing the histories of `main` and the release branch.
pub struct MissingAnalysis {
    /// PRs effectively present on `main`.
    pub main_effective: HashSet<u64>,
    /// PRs effectively present on the release branch.
    pub release_effective: HashSet<u64>,
    /// PRs effectively on `main` but not on the release branch, in order of
    /// their first mention in `main`'s log (newest first).
    pub missing: Vec<u64>,
    /// Tracked PRs effectively present on neither branch, ascending.
    pub not_found: Vec<u64>,
}

/// The missing PRs in the order of their first mention in `main`'s log.
pub open spec fn missing_spec(main: Seq<u64>, release: Seq<u64>) -> Seq<u64> {
    dedup_spec(main.filter(missing_filter(main, release)))
}

/// Effectively present on `main` and not on the release branch.
pub open spec fn missing_filter(main: Seq<u64>, release: Seq<u64>) -> spec_fn(u64) -> bool {
    |x: u64| effective_in(main, x) && !effective_in(release, x)
}

pub proof fn lemma_count_positive(s: Seq<u64>, x: u64)
    ensures
        count_spec(s, x) > 0 <==> s.contains(x),
    decreases s.len(),
{
    if s.len() > 0 {
        lemma_count_positive(s.drop_last(), x);
        if s.contains(x) && s.last() != x {
            let i = choose|i: int| 0 <= i < s.len() && s[i] == x;
            assert(s.drop_last()[i] == x);
        }
        if s.drop_last().contains(x) {
            let i = choose|i: int| 0 <= i < s.len() - 1 && s.drop_last()[i] == x;
            assert(s[i] == x);
        }
        if s.last() == x {
            assert(s[s.len() - 1] == x);
        }
    }
}

/// Compares the mentions found in `main`'s log with those in the release
/// branch's log, for the watched PRs.
pub fn analyze(watched: &[u64], main_mentions: &[u64], release_mentions: &[u64]) -> (r:
    MissingAnalysis)
    ensures
        forall|x: u64| r.main_effective@.contains(x) <==> effective_in(main_mentions@, x),
        forall|x: u64| r.release_effective@.contains(x) <==> effective_in(release_mentions@, x),
        r.missing@ == missing_spec(main_mentions@, release_mentions@),
        r.missing@.no_duplicates(),
        forall|x: u64|
            r.missing@.contains(x) <==> (effective_in(main_mentions@, x) && !effective_in(
                release_mentions@,
                x,
            )),
        strictly_ascending(r.not_found@),
        forall|x: u64|
            r.not_found@.contains(x) <==> (watched@.contains(x) && !effective_in(main_mentions@, x)
                && !effective_in(release_mentions@, x)),
{
    broadcast use vstd::std_specs::hash::group_hash_axioms;

    let main_effective = compute_effective(main_mentions);
    let release_effective = compute_effective(release_mentions);
    let ghost pred = missing_filter(main_mentions@, release_mentions@);

    let mut missing: Vec<u64> = Vec::new();
    let n = main_mentions.len();
    let mut i: usize = 0;
    while i < n
        invariant
            n == main_mentions@.len(),
            i <= n,
            forall|x: u64| main_effective@.contains(x) <==> effective_in(main_mentions@, x),
            forall|x: u64| release_effective@.contains(x) <==> effective_in(release_mentions@, x),
            pred == missing_filter(main_mentions@, release_mentions@),
            missing@ == dedup_spec(main_mentions@.take(i as int).filter(pred)),
        decreases n - i,
    {
        let m = main_mentions[i];
        let ghost a = main_mentions@.take(i as int);
        let ghost b = main_mentions@.take(i + 1);
        proof {
            assert(b.drop_last() == a);
            assert(b.last() == m);
            reveal_with_fuel(Seq::filter, 1);
            assert(b.filter(pred) == if pred(m) {
                a.filter(pred).push(m)
            } else {
                a.filter(pred)
            });
            let fa = a.filter(pred);
            assert(fa.push(m).drop_last() == fa);
            assert(fa.push(m).last() == m);
            assert(dedup_spec(fa.push(m)) == if dedup_spec(fa).contains(m) {
                dedup_spec(fa)
            } else {
                dedup_spec(fa).push(m)
            });
            assert(pred(m) == (effective_in(main_mentions@, m) && !effective_in(release_mentions@, m)));
        }
        if main_effective.contains(&m) && !release_effective.contains(&m) {
            if !vec_contains(&missing, m) {
                missing.push(m);
            }
        }
        i = i + 1;
    }
    proof {
        assert(main_mentions@.take(n as int) == main_mentions@);
        lemma_dedup_props(main_mentions@.filter(pred));
        assert forall|x: u64|
            missing@.contains(x) <==> (effective_in(main_mentions@, x) && !effective_in(
                release_mentions@,
                x,
            )) by {
            if effective_in(main_mentions@, x) {
                lemma_count_positive(main_mentions@, x);
                if !effective_in(release_mentions@, x) {
                    let k = choose|k: int| 0 <= k < main_mentions@.len() && main_mentions@[k] == x;
                    assert(pred(main_mentions@[k]));
                    main_mentions@.lemma_filter_contains(pred, k);
                }
            }
            if main_mentions@.filter(pred).contains(x) {
                let k = choose|k: int|
                    0 <= k < main_mentions@.filter(pred).len() && main_mentions@.filter(pred)[k]
                        == x;
                main_mentions@.lemma_filter_pred(pred, k);
            }
        }
    }

    let mut not_found: Vec<u64> = Vec::new();
    let t = watched.len();
    let mut k: usize = 0;
    while k < t
        invariant
            t == watched@.len(),
            k <= t,
            forall|x: u64| main_effective@.contains(x) <==> effective_in(main_mentions@, x),
            forall|x: u64| release_effective@.contains(x) <==> effective_in(release_mentions@, x),
            strictly_ascending(not_found@),
            forall|x: u64|
                not_found@.contains(x) <==> (watched@.take(k as int).contains(x) && !effective_in(
                    main_mentions@,
                    x,
                ) && !effective_in(release_mentions@, x)),
        decreases t - k,
    {
        let p = watched[k];
        let ghost before = not_found@;
        if !main_effective.contains(&p) && !release_effective.contains(&p) {
            insert_sorted(&mut not_found, p);
        }
        proof {
            let w0 = watched@.take(k as int);
            let w1 = watched@.take(k + 1);
            assert forall|x: u64| w1.contains(x) <==> (w0.contains(x) || x == p) by {
                if w1.contains(x) {
                    let j = choose|j: int| 0 <= j < w1.len() && w1[j] == x;
                    if j < k {
                        assert(w0[j] == x);
                    }
                }
                if w0.contains(x) {
                    let j = choose|j: int| 0 <= j < w0.len() && w0[j] == x;
                    assert(w1[j] == x);
                }
                if x == p {
                    assert(w1[k as int] == x);
                }
            }
        }
        k = k + 1;
    }
    assert(watched@.take(t as int) == watched@);
    MissingAnalysis { main_effective, release_effective, missing, not_found }
}


/// The PR number an `rg -o` output line names: `#` followed by a number.
pub open spec fn mention_value(line: Seq<char>) -> Option<u64> {
    if line.len() > 0 && line[0] == '#' {
        parse_u64_spec(line.drop_first())
    } else {
        None
    }
}

/// The numbers the lines name, in order.
pub open spec fn mentions_of(ls: Seq<Seq<char>>) -> Seq<u64>
    decreases ls.len(),
{
    if ls.len() == 0 {
        Seq::<u64>::empty()
    } else {
        match mention_value(ls.last()) {
            Some(n) => mentions_of(ls.drop_last()).push(n),
            None => mentions_of(ls.drop_last()),
        }
    }
}

/// Reads the mentions that `rg -oN` printed, one `#N` per line; lines that
/// are not of that form are skipped.
pub fn parse_mentions(output: &str) -> (r: Vec<u64>)
    ensures
        r@ == mentions_of(lines_spec(output@)),
{
    let v = chars_of(output);
    let ls = split_lines(&v);
    let ghost spec_lines = lines_spec(v@);
    let n = ls.len();
    let mut r: Vec<u64> = Vec::new();
    let mut i: usize = 0;
    while i < n
        invariant
            n == ls@.len() == spec_lines.len(),
            spec_lines == lines_spec(v@),
            v@ == output@,
            i <= n,
            forall|j: int| 0 <= j < n ==> #[trigger] ls@[j]@ == spec_lines[j],
            r@ == mentions_of(spec_lines.take(i as int)),
        decreases n - i,
    {
        let line = &ls[i];
        proof {
            assert(spec_lines.take(i + 1).drop_last() == spec_lines.take(i as int));
            assert(spec_lines.take(i + 1).last() == line@);
        }
        if line.len() > 0 && line[0] == '#' {
            assert(line@.subrange(1, line@.len() as int) == line@.drop_first());
            match crate::text::parse_u64_chars(line, 1, line.len()) {
                Some(x) => r.push(x),
                None => {},
            }
        }
        i = i + 1;
    }
    assert(spec_lines.take(n as int) == spec_lines);
    r
}

/// A mention of a PR as `rg -o` prints it for the pattern of
/// `build_rg_pattern` (`#` and the number) is read back as that PR.
pub proof fn law_mention_reads_back(pr: u64)
    ensures
        mention_value(seq!['#'] + decimal_spec(pr as nat)) == Some(pr),
{
    let line = seq!['#'] + decimal_spec(pr as nat);
    assert(line.drop_first() == decimal_spec(pr as nat));
    crate::text::lemma_decimal_roundtrip(pr);
}

/// A missing PR located in `main`'s log.
pub struct ResolvedPr {
    pub pr: u64,
    pub sha: String,
    pub subject: String,
}

/// The first log line at or after `i`, of the form `<sha> <subject>`, whose
/// subject references `pr`; its sha and subject.
pub open spec fn first_commit_from(ls: Seq<Seq<char>>, pr: u64, i: int) -> Option<
    (Seq<char>, Seq<char>),
>
    decreases ls.len() - i,
{
    if i < 0 || i >= ls.len() {
        None
    } else {
        match split_once_spec(ls[i], ' ') {
            Some((sha, subject)) => if pr_refs_spec(subject).contains(pr) {
                Some((sha, subject))
            } else {
                first_commit_from(ls, pr, i + 1)
            },
            None => first_commit_from(ls, pr, i + 1),
        }
    }
}

/// For each PR in `prs` (in order) that some log line references, the PR with
/// the sha and subject of the first such line.
pub open spec fn resolved_spec(ls: Seq<Seq<char>>, prs: Seq<u64>) -> Seq<
    (u64, Seq<char>, Seq<char>),
>
    decreases prs.len(),
{
    if prs.len() == 0 {
        Seq::empty()
    } else {
        let rest = resolved_spec(ls, prs.drop_last());
        match first_commit_from(ls, prs.last(), 0) {
            Some((sha, subject)) => rest.push((prs.last(), sha, subject)),
            None => rest,
        }
    }
}

/// The plain content of a resolved PR.
pub open spec fn resolved_view(r: ResolvedPr) -> (u64, Seq<char>, Seq<char>) {
    (r.pr, r.sha@, r.subject@)
}

pub open spec fn resolved_views(rs: Seq<ResolvedPr>) -> Seq<(u64, Seq<char>, Seq<char>)> {
    rs.map_values(|r: ResolvedPr| resolved_view(r))
}

/// A log line split into sha and subject, with the subject's references.
struct LogEntry {
    sha: Vec<char>,
    subject: Vec<char>,
    refs: Vec<u64>,
}

/// Entry `f` is the first log line whose subject references `pr`.
spec fn entry_locates(entries: Seq<Option<LogEntry>>, f: int, ls: Seq<Seq<char>>, pr: u64) -> bool {
    0 <= f < entries.len() && match entries[f] {
        Some(e) => first_commit_from(ls, pr, 0) == Some((e.sha@, e.subject@)),
        None => false,
    }
}

/// Locates each PR in the output of `git log --format='%H %s'` (filtered by
/// rg): the first line whose subject references it. Repeated PRs are looked up
/// once; PRs that no line references are left out.
pub fn resolve_from_log(log: &str, prs: &[u64]) -> (r: Vec<ResolvedPr>)
    ensures
        resolved_views(r@) == resolved_spec(lines_spec(log@), dedup_spec(prs@)),
{
    let v = chars_of(log);
    let ls = split_lines(&v);
    let ghost spec_lines = lines_spec(v@);
    let n = ls.len();
    let mut entries: Vec<Option<LogEntry>> = Vec::new();
    let mut i: usize = 0;
    while i < n
        invariant
            n == ls@.len() == spec_lines.len(),
            spec_lines == lines_spec(v@),
            i <= n,
            forall|j: int| 0 <= j < n ==> #[trigger] ls@[j]@ == spec_lines[j],
            entries@.len() == i,
            forall|j: int|
                0 <= j < i ==> match #[trigger] entries@[j] {
                    Some(e) => split_once_spec(spec_lines[j], ' ') == Some((e.sha@, e.subject@))
                        && e.refs@ == pr_refs_spec(e.subject@),
                    None => split_once_spec(spec_lines[j], ' ') is None,
                },
        decreases n - i,
    {
        match split_once_chars(&ls[i], ' ') {
            Some((sha, subject)) => {
                let text = string_of(subject.as_slice());
                let refs = extract_pr_refs_from_subject(text.as_str());
                entries.push(Some(LogEntry { sha, subject, refs }));
            },
            None => {
                entries.push(None);
            },
        }
        i = i + 1;
    }

    let mut wanted: Vec<u64> = Vec::new();
    let p = prs.len();
    let mut k: usize = 0;
    while k < p
        invariant
            p == prs@.len(),
            k <= p,
            wanted@ == dedup_spec(prs@.take(k as int)),
        decreases p - k,
    {
        proof {
            assert(prs@.take(k + 1).drop_last() == prs@.take(k as int));
        }
        if !vec_contains(&wanted, prs[k]) {
            wanted.push(prs[k]);
        }
        k = k + 1;
    }
    assert(prs@.take(p as int) == prs@);

    let mut out: Vec<ResolvedPr> = Vec::new();
    let w = wanted.len();
    let mut q: usize = 0;
    while q < w
        invariant
            w == wanted@.len(),
            q <= w,
            n == entries@.len() == spec_lines.len(),
            forall|j: int|
                0 <= j < n ==> match #[trigger] entries@[j] {
                    Some(e) => split_once_spec(spec_lines[j], ' ') == Some((e.sha@, e.subject@))
                        && e.refs@ == pr_refs_spec(e.subject@),
                    None => split_once_spec(spec_lines[j], ' ') is None,
                },
            resolved_views(out@) == resolved_spec(spec_lines, wanted@.take(q as int)),
        decreases w - q,
    {
        let pr = wanted[q];
        let mut j: usize = 0;
        let mut found: Option<usize> = None;
        while j < n
            invariant
                n == entries@.len() == spec_lines.len(),
                j <= n,
                forall|t: int|
                    0 <= t < n ==> match #[trigger] entries@[t] {
                        Some(e) => split_once_spec(spec_lines[t], ' ') == Some((e.sha@, e.subject@))
                            && e.refs@ == pr_refs_spec(e.subject@),
                        None => split_once_spec(spec_lines[t], ' ') is None,
                    },
                first_commit_from(spec_lines, pr, 0) == first_commit_from(spec_lines, pr, j as int),
                found matches Some(f) ==> entry_locates(entries@, f as int, spec_lines, pr),
            ensures
                found is None ==> first_commit_from(spec_lines, pr, 0) is None,
                found matches Some(f) ==> entry_locates(entries@, f as int, spec_lines, pr),
            decreases n - j,
        {
            let hit = match &entries[j] {
                Some(e) => vec_contains(&e.refs, pr),
                None => false,
            };
            if hit {
                found = Some(j);
                break;
            }
            j = j + 1;
        }
        proof {
            assert(wanted@.take(q + 1).drop_last() == wanted@.take(q as int));
            assert(wanted@.take(q + 1).last() == pr);
        }
        match found {
            Some(f) => {
                match &entries[f] {
                    Some(e) => {
                        let r = ResolvedPr {
                            pr,
                            sha: string_of(e.sha.as_slice()),
                            subject: string_of(e.subject.as_slice()),
                        };
                        let ghost before = out@;
                        out.push(r);
                        assert(resolved_views(out@) == resolved_views(before).push(
                            resolved_view(r),
                        ));
                    },
                    None => {},
                }
            },
            None => {},
        }
        q = q + 1;
    }
    assert(wanted@.take(w as int) == wanted@);
    out
}

/// Replaces a resolved PR's subject with the first line of its commit body,
/// when that line is not empty.
pub fn apply_body(r: &mut ResolvedPr, body_line: String)
    ensures
        final(r).pr == old(r).pr,
        final(r).sha == old(r).sha,
        final(r).subject@ == (if body_line@.len() > 0 {
            body_line@
        } else {
            old(r).subject@
        }),
{
    if !body_line.as_str().is_empty() {
        r.subject = body_line;
    }
}


/// The resolved entry for `pr`; the last one when several are given.
pub open spec fn lookup_resolved(rs: Seq<ResolvedPr>, pr: u64) -> Option<ResolvedPr>
    decreases rs.len(),
{
    if rs.len() == 0 {
        None
    } else if rs.last().pr == pr {
        Some(rs.last())
    } else {
        lookup_resolved(rs.drop_last(), pr)
    }
}

/// Finds the resolved entry for `pr`, the last one when several are given.
pub fn find_resolved(rs: &Vec<ResolvedPr>, pr: u64) -> (r: Option<usize>)
    ensures
        match r {
            Some(i) => i < rs@.len() && lookup_resolved(rs@, pr) == Some(rs@[i as int]),
            None => lookup_resolved(rs@, pr) is None,
        },
{
    let mut i = rs.len();
    assert(rs@.take(i as int) == rs@);
    while i > 0
        invariant
            i <= rs@.len(),
            lookup_resolved(rs@, pr) == lookup_resolved(rs@.take(i as int), pr),
        decreases i,
    {
        proof {
            assert(rs@.take(i as int).drop_last() == rs@.take(i - 1));
        }
        if rs[i - 1].pr == pr {
            return Some(i - 1);
        }
        i = i - 1;
    }
    None
}

/// A row of the missing-PRs table.
pub open spec fn missing_row(pr: u64, rs: Seq<ResolvedPr>) -> Seq<char> {
    match lookup_resolved(rs, pr) {
        Some(r) => "#"@ + decimal_spec(pr as nat) + "\t"@ + first_ten_bytes(r.sha@) + "\t"@
            + r.subject@ + "\n"@,
        None => "#"@ + decimal_spec(pr as nat) + "\t\t\n"@,
    }
}

pub open spec fn missing_rows(prs: Seq<u64>, rs: Seq<ResolvedPr>) -> Seq<char>
    decreases prs.len(),
{
    if prs.len() == 0 {
        Seq::<char>::empty()
    } else {
        missing_rows(prs.drop_last(), rs) + missing_row(prs.last(), rs)
    }
}

/// The shas of the PRs it names can be cut to ten bytes.
pub open spec fn shas_cuttable(prs: Seq<u64>, rs: Seq<ResolvedPr>) -> bool {
    forall|i: int|
        0 <= i < prs.len() ==> match lookup_resolved(rs, #[trigger] prs[i]) {
            Some(r) => cut_at_ten_ok(r.sha@),
            None => true,
        }
}

/// The tab-separated table of missing PRs: number, short sha and subject.
#[verifier::rlimit(30)]
pub fn missing_table(missing: &[u64], resolved: &Vec<ResolvedPr>) -> (r: String)
    requires
        shas_cuttable(missing@, resolved@),
    ensures
        r@ == "PR\tSHA\tSUBJECT\n"@ + missing_rows(missing@, resolved@),
{
    let mut out = String::new();
    out.append("PR\tSHA\tSUBJECT\n");
    let ghost head = out@;
    let n = missing.len();
    let mut i: usize = 0;
    while i < n
        invariant
            n == missing@.len(),
            i <= n,
            shas_cuttable(missing@, resolved@),
            out@ == head + missing_rows(missing@.take(i as int), resolved@),
        decreases n - i,
    {
        let pr = missing[i];
        proof {
            assert(missing@.take(i + 1).drop_last() == missing@.take(i as int));
            assert(missing@.take(i + 1).last() == pr);
        }
        out.append("#");
        push_decimal(&mut out, pr);
        match find_resolved(resolved, pr) {
            Some(k) => {
                let r = &resolved[k];
                assert(cut_at_ten_ok(r.sha@)) by {
                    assert(missing@[i as int] == pr);
                }
                out.append("\t");
                let short = first_ten_bytes_exec(r.sha.as_str());
                out.append(short.as_str());
                out.append("\t");
                out.append(r.subject.as_str());
                out.append("\n");
            },
            None => {
                out.append("\t\t\n");
            },
        }
        i = i + 1;
    }
    assert(missing@.take(n as int) == missing@);
    out
}

pub open spec fn not_found_rows(prs: Seq<u64>) -> Seq<char>
    decreases prs.len(),
{
    if prs.len() == 0 {
        Seq::<char>::empty()
    } else {
        not_found_rows(prs.drop_last()) + "#"@ + decimal_spec(prs.last() as nat) + "\n"@
    }
}

/// The table of PRs found on neither branch; none when there are no such PRs.
pub fn not_found_table(not_found: &[u64]) -> (r: Option<String>)
    ensures
        match r {
            None => not_found@.len() == 0,
            Some(t) => not_found@.len() > 0 && t@ == "NOT FOUND\n"@ + not_found_rows(not_found@),
        },
{
    if not_found.len() == 0 {
        return None;
    }
    let mut out = String::new();
    out.append("NOT FOUND\n");
    let ghost head = out@;
    let n = not_found.len();
    let mut i: usize = 0;
    while i < n
        invariant
            n == not_found@.len(),
            i <= n,
            out@ == head + not_found_rows(not_found@.take(i as int)),
        decreases n - i,
    {
        proof {
            assert(not_found@.take(i + 1).drop_last() == not_found@.take(i as int));
        }
        out.append("#");
        push_decimal(&mut out, not_found[i]);
        out.append("\n");
        i = i + 1;
    }
    assert(not_found@.take(n as int) == not_found@);
    Some(out)
}

/// The summary table: how many PRs are tracked, effectively on each branch,
/// missing and not found.
pub fn summary_table(
    watched: usize,
    on_main: usize,
    on_release: usize,
    missing: usize,
    not_found: usize,
) -> (r: String)
    ensures
        r@ == "Tracked\t"@ + decimal_spec(watched as nat) + "\nmain\t"@ + decimal_spec(
            on_main as nat,
        ) + "\nRelease\t"@ + decimal_spec(on_release as nat) + "\nMissing\t"@ + decimal_spec(
            missing as nat,
        ) + "\nNot found\t"@ + decimal_spec(not_found as nat) + "\n"@,
{
    let mut out = String::new();
    out.append("Tracked\t");
    push_decimal(&mut out, watched as u64);
    out.append("\nmain\t");
    push_decimal(&mut out, on_main as u64);
    out.append("\nRelease\t");
    push_decimal(&mut out, on_release as u64);
    out.append("\nMissing\t");
    push_decimal(&mut out, missing as u64);
    out.append("\nNot found\t");
    push_decimal(&mut out, not_found as u64);
    out.append("\n");
    out
}

/// The shas to cherry-pick: those of the resolved PRs among `prs`, oldest
/// first (the reverse of `prs`, which is newest first).
pub open spec fn cherry_shas(prs: Seq<u64>, rs: Seq<ResolvedPr>) -> Seq<Seq<char>>
    decreases prs.len(),
{
    if prs.len() == 0 {
        Seq::empty()
    } else {
        let rest = cherry_shas(prs.drop_first(), rs);
        match lookup_resolved(rs, prs[0]) {
            Some(r) => rest.push(r.sha@),
            None => rest,
        }
    }
}

/// The entry found for a PR is one given for that PR, the last one when
/// several are; none only when no entry is given for it.
pub proof fn law_lookup_resolved(rs: Seq<ResolvedPr>, pr: u64)
    ensures
        lookup_resolved(rs, pr) is None <==> forall|i: int| 0 <= i < rs.len() ==> #[trigger] rs[i].pr != pr,
        lookup_resolved(rs, pr) matches Some(r) ==> exists|i: int|
            0 <= i < rs.len() && rs[i] == r && r.pr == pr && forall|j: int|
                i < j < rs.len() ==> #[trigger] rs[j].pr != pr,
    decreases rs.len(),
{
    if rs.len() > 0 {
        let t = rs.drop_last();
        let n = rs.len() - 1;
        law_lookup_resolved(t, pr);
        assert forall|i: int| 0 <= i < t.len() implies #[trigger] t[i] == rs[i] by {}
        if rs.last().pr != pr {
            if lookup_resolved(rs, pr) is None {
                assert forall|i: int| 0 <= i < rs.len() implies #[trigger] rs[i].pr != pr by {
                    if i < t.len() {
                        assert(t[i] == rs[i]);
                    }
                }
            } else {
                let r = lookup_resolved(t, pr)->0;
                let i = choose|i: int|
                    0 <= i < t.len() && t[i] == r && r.pr == pr && forall|j: int|
                        i < j < t.len() ==> #[trigger] t[j].pr != pr;
                assert(rs[i] == r);
                assert forall|j: int| i < j < rs.len() implies #[trigger] rs[j].pr != pr by {
                    if j < n {
                        assert(t[j] == rs[j]);
                    }
                }
            }
            if forall|i: int| 0 <= i < rs.len() ==> #[trigger] rs[i].pr != pr {
                assert forall|i: int| 0 <= i < t.len() implies #[trigger] t[i].pr != pr by {
                    assert(t[i] == rs[i]);
                }
            }
        } else {
            assert(rs[n] == rs.last());
        }
    }
}

/// Each of `shas` is the sha of the entry found for some PR of `prs`.
pub open spec fn each_sha_resolved(prs: Seq<u64>, rs: Seq<ResolvedPr>, shas: Seq<Seq<char>>) -> bool {
    forall|k: int|
        #![trigger shas[k]]
        0 <= k < shas.len() ==> exists|i: int|
            0 <= i < prs.len() && #[trigger] resolved_sha(rs, prs[i]) == Some(shas[k])
}

/// The sha of the entry found for a PR.
pub open spec fn resolved_sha(rs: Seq<ResolvedPr>, pr: u64) -> Option<Seq<char>> {
    match lookup_resolved(rs, pr) {
        Some(r) => Some(r.sha@),
        None => None,
    }
}

proof fn lemma_cherry_shas_push(prs: Seq<u64>, p: u64, rs: Seq<ResolvedPr>)
    ensures
        cherry_shas(prs.push(p), rs) == match lookup_resolved(rs, p) {
            Some(r) => seq![r.sha@] + cherry_shas(prs, rs),
            None => cherry_shas(prs, rs),
        },
    decreases prs.len(),
{
    let q = prs.push(p);
    let e = Seq::<Seq<char>>::empty();
    assert(cherry_shas(Seq::<u64>::empty(), rs) == e);
    if prs.len() == 0 {
        assert(q.drop_first() =~= Seq::<u64>::empty());
        assert(q[0] == p);
        assert(cherry_shas(prs, rs) == e);
        match lookup_resolved(rs, p) {
            Some(r) => {
                assert(cherry_shas(q, rs) == e.push(r.sha@));
                assert(seq![r.sha@] + e =~= e.push(r.sha@));
            },
            None => {
                assert(cherry_shas(q, rs) == e);
            },
        }
    } else {
        let t = prs.drop_first();
        assert(q.drop_first() =~= t.push(p));
        assert(q[0] == prs[0]);
        lemma_cherry_shas_push(t, p, rs);
        let rest = cherry_shas(t, rs);
        let rest_q = cherry_shas(t.push(p), rs);
        assert(cherry_shas(q, rs) == match lookup_resolved(rs, prs[0]) {
            Some(r0) => rest_q.push(r0.sha@),
            None => rest_q,
        });
        assert(cherry_shas(prs, rs) == match lookup_resolved(rs, prs[0]) {
            Some(r0) => rest.push(r0.sha@),
            None => rest,
        });
        match lookup_resolved(rs, p) {
            Some(r) => {
                assert(rest_q == seq![r.sha@] + rest);
                match lookup_resolved(rs, prs[0]) {
                    Some(r0) => assert((seq![r.sha@] + rest).push(r0.sha@) =~= seq![r.sha@]
                        + rest.push(r0.sha@)),
                    None => {},
                }
            },
            None => {},
        }
    }
}

proof fn lemma_cherry_shas_members(prs: Seq<u64>, rs: Seq<ResolvedPr>)
    ensures
        cherry_shas(prs, rs).len() <= prs.len(),
        forall|i: int|
            0 <= i < prs.len() && lookup_resolved(rs, #[trigger] prs[i]) is Some ==> cherry_shas(
                prs,
                rs,
            ).contains(lookup_resolved(rs, prs[i])->0.sha@),
        each_sha_resolved(prs, rs, cherry_shas(prs, rs)),
    decreases prs.len(),
{
    if prs.len() > 0 {
        let t = prs.drop_first();
        lemma_cherry_shas_members(t, rs);
        let rest = cherry_shas(t, rs);
        let all = cherry_shas(prs, rs);
        assert forall|i: int|
            0 <= i < prs.len() && lookup_resolved(rs, #[trigger] prs[i]) is Some implies all.contains(
                lookup_resolved(rs, prs[i])->0.sha@,
            ) by {
            let sha = lookup_resolved(rs, prs[i])->0.sha@;
            if i == 0 {
                assert(all[all.len() - 1] == sha);
            } else {
                assert(prs[i] == t[i - 1]);
                let k = choose|k: int| 0 <= k < rest.len() && rest[k] == sha;
                assert(all[k] == sha);
            }
        }
        assert forall|k: int| #![trigger all[k]] 0 <= k < all.len() implies exists|i: int|
            0 <= i < prs.len() && #[trigger] resolved_sha(rs, prs[i]) == Some(all[k]) by {
            if k < rest.len() {
                let i = choose|i: int|
                    0 <= i < t.len() && #[trigger] resolved_sha(rs, t[i]) == Some(rest[k]);
                assert(prs[i + 1] == t[i]);
                assert(all[k] == rest[k]);
            } else {
                assert(resolved_sha(rs, prs[0]) == Some(all[k]));
            }
        }
    }
}

/// The shas to cherry-pick are those of the resolved missing PRs, oldest
/// first: none for no PRs; a PR placed after the others (an older one, as
/// the list runs newest first) puts its sha, when resolved, before all of
/// theirs; every resolved PR of the list has its sha there, and every sha
/// there is that of a resolved PR of the list.
pub proof fn law_cherry_shas(prs: Seq<u64>, p: u64, rs: Seq<ResolvedPr>)
    ensures
        cherry_shas(Seq::empty(), rs) == Seq::<Seq<char>>::empty(),
        cherry_shas(prs.push(p), rs) == match lookup_resolved(rs, p) {
            Some(r) => seq![r.sha@] + cherry_shas(prs, rs),
            None => cherry_shas(prs, rs),
        },
        cherry_shas(prs, rs).len() <= prs.len(),
        forall|i: int|
            0 <= i < prs.len() && lookup_resolved(rs, #[trigger] prs[i]) is Some ==> cherry_shas(
                prs,
                rs,
            ).contains(lookup_resolved(rs, prs[i])->0.sha@),
        each_sha_resolved(prs, rs, cherry_shas(prs, rs)),
{
    lemma_cherry_shas_members(prs, rs);
    lemma_cherry_shas_push(prs, p, rs);
}

/// The `git cherry-pick` command for the resolved missing PRs, oldest first;
/// none when no missing PR was resolved.
pub fn cherry_pick_command(missing: &[u64], resolved: &Vec<ResolvedPr>) -> (r: Option<String>)
    ensures
        match r {
            None => cherry_shas(missing@, resolved@).len() == 0,
            Some(c) => cherry_shas(missing@, resolved@).len() > 0 && c@
                == "git cherry-pick -x --mainline=1 "@ + join_spec(
                cherry_shas(missing@, resolved@),
                " "@,
            ),
        },
{
    let mut shas: Vec<String> = Vec::new();
    let n = missing.len();
    let mut i = n;
    while i > 0
        invariant
            n == missing@.len(),
            i <= n,
            views(shas@) == cherry_shas(missing@.skip(i as int), resolved@),
        decreases i,
    {
        let pr = missing[i - 1];
        proof {
            assert(missing@.skip(i - 1).drop_first() == missing@.skip(i as int));
            assert(missing@.skip(i - 1)[0] == pr);
        }
        match find_resolved(resolved, pr) {
            Some(k) => {
                let ghost before = shas@;
                shas.push(resolved[k].sha.clone());
                assert(views(shas@) == views(before).push(
                    resolved@[k as int].sha@,
                ));
            },
            None => {},
        }
        i = i - 1;
    }
    assert(missing@.skip(0) == missing@);
    if shas.len() == 0 {
        return None;
    }
    let mut out = String::new();
    out.append("git cherry-pick -x --mainline=1 ");
    crate::error::push_joined(&mut out, &shas, " ");
    Some(out)
}


/// What the `missing-prs` subcommand works from: the tracked PRs and the
/// release branch given on the command line, if any.
pub struct MissingPlan {
    pub prs: Vec<u64>,
    pub release_branch: Option<String>,
}

/// Executes the `missing-prs` subcommand's first step on the lines read from
/// stdin: they are trimmed, blank ones dropped, and parsed as PR numbers.
pub fn execute(args: &MissingPrsArgs, stdin_lines: &[String]) -> (r: Result<MissingPlan, ToolError>)
    ensures
        pr_numbers_outcome(
            cleaned_spec(views(stdin_lines@)),
            match r {
                Ok(plan) => Ok(plan.prs),
                Err(e) => Err(e),
            },
        ),
        r matches Ok(plan) ==> plan.release_branch == args.release_branch,
{
    let lines = clean_lines(stdin_lines);
    let prs = parse_pr_numbers(lines.as_slice())?;
    Ok(MissingPlan { prs, release_branch: args.release_branch.clone() })
}

/// A release branch name: it starts with `release/v` once trimmed.
pub open spec fn is_release_branch_spec(name: Seq<char>) -> bool {
    "release/v"@.is_prefix_of(trim_spec(name))
}

/// Whether what `git rev-parse --abbrev-ref HEAD` printed names a release
/// branch (`release/v*`).
pub fn is_release_branch(head: &str) -> (r: bool)
    ensures
        r == is_release_branch_spec(head@),
{
    let t = trim_str(head);
    let tv = chars_of(t.as_str());
    let prefix = chars_of("release/v");
    starts_with_chars(&tv, &prefix)
}

/// The release branch to compare against, from what `git rev-parse
/// --abbrev-ref HEAD` printed: the trimmed name when it is a release branch.
pub fn release_branch_from_head(head: &str) -> (r: Result<String, ToolError>)
    ensures
        match r {
            Ok(b) => is_release_branch_spec(head@) && b@ == trim_spec(head@),
            Err(e) => !is_release_branch_spec(head@) && e is NoBranchDetected,
        },
{
    let t = trim_str(head);
    let tv = chars_of(t.as_str());
    let prefix = chars_of("release/v");
    if starts_with_chars(&tv, &prefix) {
        Ok(t)
    } else {
        Err(ToolError::NoBranchDetected)
    }
}

} // verus!
