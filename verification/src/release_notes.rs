//! Release notes from the first-parent history between two refs.
//!
//! The git queries are made by the caller; this module reads what they print
//! and builds the note lines.

use vstd::prelude::*;

use crate::error::ToolError;
use crate::refs::{lemma_skip_digits, pr_refs_from, pr_refs_spec, scan_ref_at};
use crate::text::{
    chars_of, contains_spec, find_chars, lines_spec, occurs_at, push_decimal, decimal_spec,
    split_chars, split_lines, split_once_chars, split_once_spec, split_spec, string_of,
};

verus! {

/// Parameters for a release-notes run.
pub struct ReleaseNotesParams<'a> {
    pub base: &'a str,
    pub head: &'a str,
    pub config_key: &'a str,
    pub repo_name: &'a str,
}

/// The first `#N` reference of a merge commit subject.
pub fn extract_first_pr_ref(subject: &str) -> (r: Option<u64>)
    ensures
        r == (if pr_refs_spec(subject@).len() > 0 {
            Some(pr_refs_spec(subject@)[0])
        } else {
            None
        }),
{
    let v = chars_of(subject);
    let len = v.len();
    let mut i: usize = 0;
    while i < len
        invariant
            len == v@.len(),
            v@ == subject@,
            i <= len,
            pr_refs_from(v@, i as int) == pr_refs_spec(v@),
        decreases len - i,
    {
        if v[i] == '#' {
            let (end, found) = scan_ref_at(&v, i);
            proof {
                lemma_skip_digits(v@, i + 1, end as int);
            }
            if let Some(n) = found {
                assert(pr_refs_spec(v@) == seq![n] + pr_refs_from(v@, i + 1));
                return Some(n);
            }
            i = end;
        } else {
            i = i + 1;
        }
    }
    None
}


/// The map that `(key, value)` pairs give when inserted in order.
pub open spec fn pairs_map(ps: Seq<(String, String)>) -> Map<Seq<char>, Seq<char>>
    decreases ps.len(),
{
    if ps.len() == 0 {
        Map::empty()
    } else {
        pairs_map(ps.drop_last()).insert(ps.last().0@, ps.last().1@)
    }
}

/// No key occurs twice.
pub open spec fn distinct_keys(ps: Seq<(String, String)>) -> bool {
    forall|i: int, j: int| 0 <= i < j < ps.len() ==> ps[i].0@ != ps[j].0@
}

proof fn lemma_pairs_map_facts(ps: Seq<(String, String)>)
    requires
        distinct_keys(ps),
    ensures
        pairs_map(ps).dom().finite(),
        pairs_map(ps).dom().len() == ps.len(),
        forall|k: Seq<char>|
            pairs_map(ps).dom().contains(k) <==> exists|i: int| 0 <= i < ps.len() && #[trigger] ps[i].0@ == k,
        forall|i: int| 0 <= i < ps.len() ==> #[trigger] pairs_map(ps)[ps[i].0@] == ps[i].1@,
    decreases ps.len(),
{
    if ps.len() > 0 {
        let d = ps.drop_last();
        assert(distinct_keys(d));
        lemma_pairs_map_facts(d);
        let last = ps.last();
        assert(!pairs_map(d).dom().contains(last.0@)) by {
            if pairs_map(d).dom().contains(last.0@) {
                let i = choose|i: int| 0 <= i < d.len() && #[trigger] d[i].0@ == last.0@;
                assert(ps[i].0@ == ps[ps.len() - 1].0@);
            }
        }
        assert forall|k: Seq<char>|
            pairs_map(ps).dom().contains(k) <==> exists|i: int| 0 <= i < ps.len() && #[trigger] ps[i].0@ == k by {
            if pairs_map(d).dom().contains(k) {
                let i = choose|i: int| 0 <= i < d.len() && #[trigger] d[i].0@ == k;
                assert(ps[i].0@ == k);
            }
            if k == last.0@ {
                assert(ps[ps.len() - 1].0@ == k);
            }
            if exists|i: int| 0 <= i < ps.len() && #[trigger] ps[i].0@ == k {
                let i = choose|i: int| 0 <= i < ps.len() && #[trigger] ps[i].0@ == k;
                if i < ps.len() - 1 {
                    assert(d[i].0@ == k);
                }
            }
        }
        assert forall|i: int| 0 <= i < ps.len() implies #[trigger] pairs_map(ps)[ps[i].0@] == ps[i].1@ by {
            if i < ps.len() - 1 {
                assert(d[i] == ps[i]);
                assert(ps[i].0@ != last.0@);
            }
        }
    }
}

proof fn lemma_pairs_map_replace(ps: Seq<(String, String)>, i: int, p: (String, String))
    requires
        distinct_keys(ps),
        0 <= i < ps.len(),
        ps[i].0@ == p.0@,
    ensures
        pairs_map(ps.update(i, p)) == pairs_map(ps).insert(p.0@, p.1@),
    decreases ps.len(),
{
    let u = ps.update(i, p);
    let d = ps.drop_last();
    if i == ps.len() - 1 {
        assert(u.drop_last() == d);
        assert(pairs_map(u) =~= pairs_map(ps).insert(p.0@, p.1@));
    } else {
        assert(distinct_keys(d));
        lemma_pairs_map_replace(d, i, p);
        assert(u.drop_last() == d.update(i, p));
        assert(ps.last().0@ != p.0@);
        assert(pairs_map(u) =~= pairs_map(ps).insert(p.0@, p.1@));
    }
}

/// Author handles by namespace key, as `git config --get-regexp` lists them.
pub struct AuthorMap {
    entries: Vec<(String, String)>,
}

impl AuthorMap {
    #[verifier::type_invariant]
    spec fn keys_distinct(self) -> bool {
        distinct_keys(self.entries@)
    }

    pub closed spec fn view(&self) -> Map<Seq<char>, Seq<char>> {
        pairs_map(self.entries@)
    }

    pub fn new() -> (m: Self)
        ensures
            m.view() == Map::<Seq<char>, Seq<char>>::empty(),
    {
        AuthorMap { entries: Vec::new() }
    }

    /// The number of keys.
    pub fn len(&self) -> (n: usize)
        ensures
            n == self.view().len(),
    {
        proof {
            use_type_invariant(self);
            lemma_pairs_map_facts(self.entries@);
        }
        self.entries.len()
    }

    /// The handle recorded for `key`.
    pub fn get(&self, key: &str) -> (r: Option<&String>)
        ensures
            match r {
                Some(v) => self.view().contains_key(key@) && self.view()[key@] == v@,
                None => !self.view().contains_key(key@),
            },
    {
        proof {
            use_type_invariant(self);
            lemma_pairs_map_facts(self.entries@);
        }
        let n = self.entries.len();
        let mut i: usize = 0;
        while i < n
            invariant
                n == self.entries@.len(),
                i <= n,
                forall|j: int| 0 <= j < i ==> #[trigger] self.entries@[j].0@ != key@,
            decreases n - i,
        {
            if crate::text::str_eq(&self.entries[i].0, key) {
                proof {
                    use_type_invariant(self);
                    lemma_pairs_map_facts(self.entries@);
                    assert(self.view()[self.entries@[i as int].0@] == self.entries@[i as int].1@);
                }
                return Some(&self.entries[i].1);
            }
            i = i + 1;
        }
        None
    }

    /// Records `value` for `key`, replacing an earlier handle.
    pub fn insert(&mut self, key: String, value: String)
        ensures
            final(self).view() == old(self).view().insert(key@, value@),
    {
        proof {
            use_type_invariant(&*self);
        }
        let n = self.entries.len();
        let mut i: usize = 0;
        while i < n
            invariant
                n == self.entries@.len(),
                i <= n,
                self.entries@ == old(self).entries@,
                distinct_keys(self.entries@),
                forall|j: int| 0 <= j < i ==> #[trigger] self.entries@[j].0@ != key@,
            decreases n - i,
        {
            if crate::text::str_eq(&self.entries[i].0, key.as_str()) {
                let ghost before = self.entries@;
                proof {
                    lemma_pairs_map_replace(before, i as int, (key, value));
                    assert(distinct_keys(before.update(i as int, (key, value))));
                }
                let ghost pair = (key, value);
                let mut entries: Vec<(String, String)> = Vec::new();
                std::mem::swap(&mut entries, &mut self.entries);
                assert(entries@ == before);
                entries.set(i, (key, value));
                assert(entries@ == before.update(i as int, pair));
                self.entries = entries;
                assert(self.view() == pairs_map(before).insert(pair.0@, pair.1@));
                return;
            }
            i = i + 1;
        }
        let ghost before = self.entries@;
        let ghost pair = (key, value);
        let mut entries: Vec<(String, String)> = Vec::new();
        std::mem::swap(&mut entries, &mut self.entries);
        assert(entries@ == before);
        entries.push((key, value));
        assert(entries@.drop_last() == before);
        assert(entries@.last() == pair);
        assert(distinct_keys(entries@)) by {
            assert forall|a: int, b: int| 0 <= a < b < entries@.len() implies entries@[a].0@
                != entries@[b].0@ by {
                if b == entries@.len() - 1 {
                    assert(before[a].0@ != key@);
                } else {
                    assert(entries@[a] == before[a] && entries@[b] == before[b]);
                }
            }
        }
        self.entries = entries;
        assert(self.view() == pairs_map(before).insert(pair.0@, pair.1@));
    }
}

/// An ASCII letter.
pub open spec fn is_ascii_alpha(c: char) -> bool {
    ('a' <= c <= 'z') || ('A' <= c <= 'Z')
}

/// The ASCII letters of `s`, in order.
pub open spec fn letters_of(s: Seq<char>) -> Seq<char>
    decreases s.len(),
{
    if s.len() == 0 {
        Seq::<char>::empty()
    } else if is_ascii_alpha(s.last()) {
        letters_of(s.drop_last()).push(s.last())
    } else {
        letters_of(s.drop_last())
    }
}

/// The author key of a merge subject: after the first `<repo_name>/`, the
/// next path segment with everything but ASCII letters removed; none when the
/// marker is absent or no letter remains.
pub open spec fn author_key_spec(subject: Seq<char>, repo_name: Seq<char>) -> Option<Seq<char>> {
    let marker = repo_name.push('/');
    if contains_spec(subject, marker) {
        let pos = choose|i: int|
            occurs_at(subject, marker, i) && forall|j: int| 0 <= j < i ==> !occurs_at(subject, marker, j);
        let rest = subject.skip(pos + marker.len());
        let key = letters_of(split_spec(rest, '/')[0]);
        if key.len() > 0 {
            Some(key)
        } else {
            None
        }
    } else {
        None
    }
}

/// An ASCII letter, written out.
pub open spec fn ascii_letter(c: char) -> bool {
    ('a' <= c && c <= 'z') || ('A' <= c && c <= 'Z')
}

proof fn lemma_letters_are_filter(s: Seq<char>)
    ensures
        letters_of(s) == s.filter(|c: char| ascii_letter(c)),
        forall|i: int| 0 <= i < letters_of(s).len() ==> ascii_letter(#[trigger] letters_of(s)[i]),
    decreases s.len(),
{
    reveal(Seq::filter);
    let f = |c: char| ascii_letter(c);
    if s.len() > 0 {
        lemma_letters_are_filter(s.drop_last());
        assert(f(s.last()) == is_ascii_alpha(s.last()));
        assert(s.filter(f) == if f(s.last()) {
            s.drop_last().filter(f).push(s.last())
        } else {
            s.drop_last().filter(f)
        });
    } else {
        assert(s.filter(f) == s);
        assert(s =~= Seq::<char>::empty());
    }
}

proof fn lemma_first_occurrence_exists(s: Seq<char>, t: Seq<char>, w: int)
    requires
        occurs_at(s, t, w),
    ensures
        exists|i: int| occurs_at(s, t, i) && forall|j: int| 0 <= j < i ==> !occurs_at(s, t, j),
    decreases w,
{
    if exists|j: int| 0 <= j < w && occurs_at(s, t, j) {
        let j = choose|j: int| 0 <= j < w && occurs_at(s, t, j);
        lemma_first_occurrence_exists(s, t, j);
    } else {
        assert(occurs_at(s, t, w) && forall|j: int| 0 <= j < w ==> !occurs_at(s, t, j));
    }
}

/// The first piece of `s` split at `sep` runs up to the first `sep`, or to
/// the end when there is none.
proof fn lemma_split_first_piece(s: Seq<char>, sep: char, e: int)
    requires
        0 <= e <= s.len(),
        forall|j: int| 0 <= j < e ==> s[j] != sep,
        e == s.len() || s[e] == sep,
    ensures
        split_spec(s, sep)[0] == s.take(e),
        e == s.len() ==> split_spec(s, sep).len() == 1,
        e < s.len() ==> split_spec(s, sep).len() >= 2,
    decreases s.len(),
{
    if s.len() > 0 {
        let t = s.drop_last();
        if e == s.len() {
            lemma_split_first_piece(t, sep, e - 1);
            assert(s.last() == s[e - 1]);
            assert(t.take(e - 1).push(s.last()) =~= s.take(e));
        } else {
            lemma_split_first_piece(t, sep, e);
            assert(t.take(e) =~= s.take(e));
        }
    } else {
        assert(s.take(e) =~= Seq::<char>::empty());
    }
}

/// The author key is the path segment right after the first `<repo_name>/`
/// of the subject (up to the next `/` or the end) with exactly its characters
/// other than ASCII letters removed; none when the marker is absent or no
/// letter remains. Every character of a key is an ASCII letter.
pub proof fn law_author_key(subject: Seq<char>, repo_name: Seq<char>, pos: int, end: int)
    ensures
        !contains_spec(subject, repo_name.push('/')) ==> author_key_spec(subject, repo_name) is None,
        author_key_spec(subject, repo_name) matches Some(k) ==> k.len() > 0 && forall|i: int|
            0 <= i < k.len() ==> ascii_letter(#[trigger] k[i]),
        occurs_at(subject, repo_name.push('/'), pos) && (forall|j: int|
            0 <= j < pos ==> !occurs_at(subject, repo_name.push('/'), j)) && pos + repo_name.len() + 1
            <= end <= subject.len() && (forall|j: int|
            pos + repo_name.len() + 1 <= j < end ==> subject[j] != '/') && (end == subject.len()
            || subject[end] == '/') ==> author_key_spec(subject, repo_name) == {
            let key = subject.subrange(pos + repo_name.len() + 1, end).filter(
                |c: char| ascii_letter(c),
            );
            if key.len() > 0 {
                Some(key)
            } else {
                None
            }
        },
{
    let marker = repo_name.push('/');
    if contains_spec(subject, marker) {
        let p = choose|i: int|
            occurs_at(subject, marker, i) && forall|j: int| 0 <= j < i ==> !occurs_at(subject, marker, j);
        let w = choose|i: int| occurs_at(subject, marker, i);
        lemma_first_occurrence_exists(subject, marker, w);
        let rest = subject.skip(p + marker.len());
        let seg = split_spec(rest, '/')[0];
        lemma_letters_are_filter(seg);
        if occurs_at(subject, marker, pos) && (forall|j: int|
            0 <= j < pos ==> !occurs_at(subject, marker, j)) && pos + marker.len() <= end
            <= subject.len() && (forall|j: int| pos + marker.len() <= j < end ==> subject[j] != '/')
            && (end == subject.len() || subject[end] == '/') {
            assert(p == pos) by {
                if p < pos {
                    assert(!occurs_at(subject, marker, p));
                } else if pos < p {
                    assert(!occurs_at(subject, marker, pos));
                }
            }
            let e = end - (pos + marker.len());
            assert forall|j: int| 0 <= j < e implies rest[j] != '/' by {
                assert(rest[j] == subject[pos + marker.len() + j]);
            }
            if end < subject.len() {
                assert(rest[e] == subject[end]);
            }
            lemma_split_first_piece(rest, '/', e);
            assert(rest.take(e) =~= subject.subrange(pos + marker.len(), end));
        }
    }
}

/// Extracts the author namespace key from the branch path in a merge commit
/// subject: for "Merge pull request #123 from reponame/john/fix-bug" and
/// `repo_name` "reponame" it is "john".
pub fn extract_author_key(subject: &str, repo_name: &str) -> (r: Option<String>)
    ensures
        match r {
            Some(k) => author_key_spec(subject@, repo_name@) == Some(k@),
            None => author_key_spec(subject@, repo_name@) is None,
        },
        r matches Some(k) ==> k@.len() > 0 && forall|i: int|
            0 <= i < k@.len() ==> ascii_letter(#[trigger] k@[i]),
{
    proof {
        law_author_key(subject@, repo_name@, 0, 0);
    }
    let sv = chars_of(subject);
    let mut marker = chars_of(repo_name);
    marker.push('/');
    let pos = match find_chars(&sv, &marker) {
        Some(p) => p,
        None => {
            return None;
        },
    };
    proof {
        let c = choose|i: int|
            occurs_at(sv@, marker@, i) && forall|j: int| 0 <= j < i ==> !occurs_at(sv@, marker@, j);
        assert(occurs_at(sv@, marker@, pos as int));
        if c < pos {
        } else if c > pos {
        }
        assert(c == pos);
    }
    let slen = sv.len();
    let mlen = marker.len();
    assert(pos + mlen <= slen);
    let start = pos + mlen;
    let rest = crate::text::sub_vec(&sv, start, sv.len());
    assert(rest@ == sv@.skip(start as int));
    let parts = split_chars(&rest, '/');
    proof {
        crate::text::lemma_split_nonempty(rest@, '/');
    }
    let segment = &parts[0];
    let mut key: Vec<char> = Vec::new();
    let n = segment.len();
    let mut i: usize = 0;
    while i < n
        invariant
            n == segment@.len(),
            i <= n,
            key@ == letters_of(segment@.take(i as int)),
        decreases n - i,
    {
        let c = segment[i];
        proof {
            assert(segment@.take(i + 1).drop_last() == segment@.take(i as int));
        }
        if ('a' <= c && c <= 'z') || ('A' <= c && c <= 'Z') {
            key.push(c);
        }
        i = i + 1;
    }
    assert(segment@.take(n as int) == segment@);
    if key.len() == 0 {
        None
    } else {
        Some(string_of(key.as_slice()))
    }
}

/// `s` without the prefix `p`, or all of `s` when it does not start with `p`.
pub open spec fn strip_prefix_or_all(s: Seq<char>, p: Seq<char>) -> Seq<char> {
    if p.is_prefix_of(s) {
        s.skip(p.len() as int)
    } else {
        s
    }
}

/// The map that the lines of `git config --get-regexp <key>` give: each line
/// `<key>.<namespace> <handle>` maps the namespace to the handle; a later line
/// wins over an earlier one for the same namespace; lines without a space are
/// skipped.
pub open spec fn author_map_spec(ls: Seq<Seq<char>>, config_key: Seq<char>) -> Map<
    Seq<char>,
    Seq<char>,
>
    decreases ls.len(),
{
    if ls.len() == 0 {
        Map::empty()
    } else {
        let m = author_map_spec(ls.drop_last(), config_key);
        match split_once_spec(ls.last(), ' ') {
            Some((full_key, handle)) => m.insert(
                strip_prefix_or_all(full_key, config_key.push('.')),
                handle,
            ),
            None => m,
        }
    }
}

/// Reads the output of `git config --get-regexp <config_key>` into the map of
/// author handles by namespace.
pub fn parse_author_map(output: &str, config_key: &str) -> (m: AuthorMap)
    ensures
        m.view() == author_map_spec(lines_spec(output@), config_key@),
{
    let v = chars_of(output);
    let ls = split_lines(&v);
    let ghost spec_lines = lines_spec(v@);
    let mut prefix = chars_of(config_key);
    prefix.push('.');
    let mut m = AuthorMap::new();
    let n = ls.len();
    let mut i: usize = 0;
    while i < n
        invariant
            n == ls@.len() == spec_lines.len(),
            spec_lines == lines_spec(v@),
            v@ == output@,
            prefix@ == config_key@.push('.'),
            i <= n,
            forall|j: int| 0 <= j < n ==> #[trigger] ls@[j]@ == spec_lines[j],
            m.view() == author_map_spec(spec_lines.take(i as int), config_key@),
        decreases n - i,
    {
        proof {
            assert(spec_lines.take(i + 1).drop_last() == spec_lines.take(i as int));
            assert(spec_lines.take(i + 1).last() == ls@[i as int]@);
        }
        match split_once_chars(&ls[i], ' ') {
            Some((full_key, handle)) => {
                let namespace = if crate::text::starts_with_chars(&full_key, &prefix) {
                    let tail = crate::text::sub_vec(&full_key, prefix.len(), full_key.len());
                    assert(tail@ == full_key@.skip(prefix@.len() as int));
                    tail
                } else {
                    full_key
                };
                m.insert(string_of(namespace.as_slice()), string_of(handle.as_slice()));
            },
            None => {},
        }
        i = i + 1;
    }
    assert(spec_lines.take(n as int) == spec_lines);
    m
}

/// The map of author handles from what `git config --get-regexp` reported:
/// its output when it listed keys (exit status zero), else no handles (it exits
/// non-zero when no key matches).
pub fn author_map_from_config(listed: bool, output: &str, config_key: &str) -> (m: AuthorMap)
    ensures
        m.view() == (if listed {
            author_map_spec(lines_spec(output@), config_key@)
        } else {
            Map::<Seq<char>, Seq<char>>::empty()
        }),
{
    if listed {
        parse_author_map(output, config_key)
    } else {
        AuthorMap::new()
    }
}

/// The outcome of `git merge-base --is-ancestor <base> <head>`: the run goes
/// on only when `base` is an ancestor of `head`; the refs are never swapped.
pub fn ancestry_outcome(is_ancestor: bool, base: &str, head: &str) -> (r: Result<(), ToolError>)
    ensures
        match r {
            Ok(()) => is_ancestor,
            Err(e) => !is_ancestor && match e {
                ToolError::NotAncestor { base: b, head: h } => b@ == base@ && h@ == head@,
                _ => false,
            },
        },
{
    if is_ancestor {
        Ok(())
    } else {
        Err(ToolError::NotAncestor { base: base.to_owned(), head: head.to_owned() })
    }
}

/// The `(sha, subject)` pairs that `git log --format='%H %s'` printed, one per
/// line; lines without a space are skipped.
pub open spec fn commit_lines_spec(ls: Seq<Seq<char>>) -> Seq<(Seq<char>, Seq<char>)>
    decreases ls.len(),
{
    if ls.len() == 0 {
        Seq::empty()
    } else {
        match split_once_spec(ls.last(), ' ') {
            Some(p) => commit_lines_spec(ls.drop_last()).push(p),
            None => commit_lines_spec(ls.drop_last()),
        }
    }
}

pub open spec fn pair_views(ps: Seq<(String, String)>) -> Seq<(Seq<char>, Seq<char>)> {
    ps.map_values(|p: (String, String)| (p.0@, p.1@))
}

/// Reads the commits that `git log --format='%H %s'` printed.
pub fn parse_commit_lines(output: &str) -> (r: Vec<(String, String)>)
    ensures
        pair_views(r@) == commit_lines_spec(lines_spec(output@)),
{
    let v = chars_of(output);
    let ls = split_lines(&v);
    let ghost spec_lines = lines_spec(v@);
    let mut out: Vec<(String, String)> = Vec::new();
    let n = ls.len();
    let mut i: usize = 0;
    while i < n
        invariant
            n == ls@.len() == spec_lines.len(),
            spec_lines == lines_spec(v@),
            v@ == output@,
            i <= n,
            forall|j: int| 0 <= j < n ==> #[trigger] ls@[j]@ == spec_lines[j],
            pair_views(out@) == commit_lines_spec(spec_lines.take(i as int)),
        decreases n - i,
    {
        proof {
            assert(spec_lines.take(i + 1).drop_last() == spec_lines.take(i as int));
            assert(spec_lines.take(i + 1).last() == ls@[i as int]@);
        }
        match split_once_chars(&ls[i], ' ') {
            Some((sha, subject)) => {
                let p = (string_of(sha.as_slice()), string_of(subject.as_slice()));
                let ghost before = out@;
                out.push(p);
                assert(pair_views(out@) == pair_views(before).push((p.0@, p.1@)));
            },
            None => {},
        }
        i = i + 1;
    }
    assert(spec_lines.take(n as int) == spec_lines);
    out
}

/// The author a note credits: the handle mapped to the key, else the key
/// itself, else nothing.
pub open spec fn author_spec(key: Option<Seq<char>>, m: Map<Seq<char>, Seq<char>>) -> Seq<char> {
    match key {
        Some(k) => if m.contains_key(k) {
            m[k]
        } else {
            k
        },
        None => Seq::<char>::empty(),
    }
}

/// Resolves the author of a note from its key and the map of handles.
pub fn resolve_author(key: Option<String>, map: &AuthorMap) -> (r: String)
    ensures
        r@ == author_spec(
            match key {
                Some(k) => Some(k@),
                None => None,
            },
            map.view(),
        ),
{
    match key {
        Some(k) => match map.get(k.as_str()) {
            Some(h) => h.clone(),
            None => k,
        },
        None => String::new(),
    }
}

/// A release-note line: `* <description> by @<author> in #<pr>`, where the
/// description is the first line of the commit body, or the subject when the
/// body has none.
pub fn note_line(subject: &str, body_line: &str, author: &str, pr: u64) -> (r: String)
    ensures
        r@ == "* "@ + (if body_line@.len() == 0 {
            subject@
        } else {
            body_line@
        }) + " by @"@ + author@ + " in #"@ + decimal_spec(pr as nat),
{
    let mut out = String::new();
    out.append("* ");
    if body_line.is_empty() {
        out.append(subject);
    } else {
        out.append(body_line);
    }
    out.append(" by @");
    out.append(author);
    out.append(" in #");
    push_decimal(&mut out, pr);
    out
}

} // verus!
