//! Character-level helpers shared by the parsers and formatters of the crate.

use vstd::prelude::*;

verus! {

broadcast use vstd::string::group_string_axioms;

/// `String::push` appends one character: the string's characters afterwards
/// are those before, followed by `ch`.
pub assume_specification[ String::push ](string: &mut String, ch: char)
    ensures
        final(string)@ == old(string)@.push(ch),
;

/// An ASCII decimal digit.
pub open spec fn is_digit(c: char) -> bool {
    '0' <= c <= '9'
}

/// The value of an ASCII decimal digit.
pub open spec fn digit_value(c: char) -> nat {
    (c as int - '0' as int) as nat
}

pub open spec fn all_digits(s: Seq<char>) -> bool {
    forall|i: int| 0 <= i < s.len() ==> is_digit(#[trigger] s[i])
}

/// The number that a string of decimal digits spells, most significant first.
pub open spec fn decimal_value(s: Seq<char>) -> nat
    decreases s.len(),
{
    if s.len() == 0 {
        0
    } else {
        decimal_value(s.drop_last()) * 10 + digit_value(s.last())
    }
}

/// What `str::parse::<u64>` accepts: an optional `+`, then one or more ASCII
/// digits whose value fits in 64 bits.
pub open spec fn parse_u64_spec(s: Seq<char>) -> Option<u64> {
    let d = if s.len() > 0 && s[0] == '+' {
        s.drop_first()
    } else {
        s
    };
    if d.len() > 0 && all_digits(d) && decimal_value(d) <= u64::MAX {
        Some(decimal_value(d) as u64)
    } else {
        None
    }
}

/// The characters of a string, one element each.
pub fn chars_of(s: &str) -> (v: Vec<char>)
    ensures
        v@ == s@,
{
    let mut v: Vec<char> = Vec::new();
    for c in it: s.chars()
        invariant
            it.seq() == s@,
            v@ == it.seq().take(it.index() as int),
    {
        v.push(c);
    }
    v
}

/// A string made of the given characters.
pub fn string_of(v: &[char]) -> (s: String)
    ensures
        s@ == v@,
{
    let mut s = String::new();
    for i in 0..v.len()
        invariant
            s@ == v@.take(i as int),
    {
        s.push(v[i]);
        assert(v@.take(i + 1) == v@.take(i as int).push(v@[i as int]));
    }
    assert(v@.take(v@.len() as int) == v@);
    s
}


/// Prefixes of a digit string never spell a larger number than the whole.
pub proof fn lemma_decimal_prefix_le(d: Seq<char>, k: int)
    requires
        0 <= k <= d.len(),
    ensures
        decimal_value(d.take(k)) <= decimal_value(d),
    decreases d.len() - k,
{
    if k < d.len() {
        lemma_decimal_prefix_le(d, k + 1);
        assert(d.take(k + 1).drop_last() == d.take(k));
    } else {
        assert(d.take(k) == d);
    }
}

/// Extending a digit string by one digit multiplies by ten and adds the digit.
pub proof fn lemma_decimal_step(d: Seq<char>, k: int)
    requires
        0 <= k < d.len(),
    ensures
        decimal_value(d.take(k + 1)) == decimal_value(d.take(k)) * 10 + digit_value(d[k]),
{
    assert(d.take(k + 1).drop_last() == d.take(k));
}

/// Parses a string as `str::parse::<u64>` does.
pub fn parse_u64(s: &str) -> (r: Option<u64>)
    ensures
        r == parse_u64_spec(s@),
{
    let v = chars_of(s);
    assert(v@.subrange(0, v@.len() as int) == v@);
    parse_u64_chars(&v, 0, v.len())
}

/// Parses `v[from..to]` as `str::parse::<u64>` does.
pub fn parse_u64_chars(v: &Vec<char>, from: usize, to: usize) -> (r: Option<u64>)
    requires
        from <= to <= v.len(),
    ensures
        r == parse_u64_spec(v@.subrange(from as int, to as int)),
{
    let ghost s = v@.subrange(from as int, to as int);
    let mut i = from;
    if i < to && v[i] == '+' {
        i = i + 1;
    }
    let ghost d = v@.subrange(i as int, to as int);
    assert(d == (if s.len() > 0 && s[0] == '+' { s.drop_first() } else { s }));
    if i == to {
        return None;
    }
    let start = i;
    let mut acc: u64 = 0;
    while i < to
        invariant
            start <= i <= to <= v.len(),
            start < to,
            d == v@.subrange(start as int, to as int),
            s == v@.subrange(from as int, to as int),
            d == (if s.len() > 0 && s[0] == '+' { s.drop_first() } else { s }),
            all_digits(d.take(i - start)),
            acc == decimal_value(d.take(i - start)),
        decreases to - i,
    {
        let c = v[i];
        let k = i - start;
        assert(d[k as int] == c);
        if !('0' <= c && c <= '9') {
            return None;
        }
        proof {
            lemma_decimal_step(d, k as int);
            assert forall|j: int| 0 <= j < k + 1 implies is_digit(#[trigger] d.take(k + 1)[j]) by {
                if j < k {
                    assert(d.take(k + 1)[j] == d.take(k as int)[j]);
                }
            }
        }
        let dv: u64 = (c as u64) - ('0' as u64);
        if acc > (u64::MAX - dv) / 10 {
            proof {
                lemma_decimal_prefix_le(d, k + 1);
            }
            return None;
        }
        acc = acc * 10 + dv;
        i = i + 1;
    }
    assert(d.take(d.len() as int) == d);
    Some(acc)
}


/// The pieces of `s` between occurrences of `sep`, as `str::split` yields them:
/// always at least one piece, and empty pieces where separators touch.
pub open spec fn split_spec(s: Seq<char>, sep: char) -> Seq<Seq<char>>
    decreases s.len(),
{
    if s.len() == 0 {
        seq![Seq::<char>::empty()]
    } else {
        let p = split_spec(s.drop_last(), sep);
        if s.last() == sep {
            p.push(Seq::<char>::empty())
        } else {
            p.update(p.len() - 1, p.last().push(s.last()))
        }
    }
}

pub proof fn lemma_split_nonempty(s: Seq<char>, sep: char)
    ensures
        split_spec(s, sep).len() >= 1,
    decreases s.len(),
{
    if s.len() > 0 {
        lemma_split_nonempty(s.drop_last(), sep);
    }
}

/// Splits `v` at every `sep`, as `str::split` with a character pattern does.
pub fn split_chars(v: &Vec<char>, sep: char) -> (parts: Vec<Vec<char>>)
    ensures
        parts@.len() == split_spec(v@, sep).len(),
        forall|i: int| 0 <= i < parts@.len() ==> #[trigger] parts@[i]@ == split_spec(v@, sep)[i],
{
    let mut parts: Vec<Vec<char>> = Vec::new();
    let mut cur: Vec<char> = Vec::new();
    let mut i: usize = 0;
    while i < v.len()
        invariant
            0 <= i <= v.len(),
            parts@.len() + 1 == split_spec(v@.take(i as int), sep).len(),
            forall|j: int| 0 <= j < parts@.len() ==> #[trigger] parts@[j]@ == split_spec(v@.take(i as int), sep)[j],
            cur@ == split_spec(v@.take(i as int), sep).last(),
        decreases v.len() - i,
    {
        proof {
            lemma_split_nonempty(v@.take(i as int), sep);
            assert(v@.take(i + 1).drop_last() == v@.take(i as int));
        }
        let c = v[i];
        if c == sep {
            parts.push(cur);
            cur = Vec::new();
        } else {
            cur.push(c);
        }
        i = i + 1;
    }
    assert(v@.take(v@.len() as int) == v@);
    parts.push(cur);
    parts
}


/// `t` occurs in `s` starting at index `i`.
pub open spec fn occurs_at(s: Seq<char>, t: Seq<char>, i: int) -> bool {
    0 <= i && i + t.len() <= s.len() && s.subrange(i, i + t.len()) == t
}

/// `t` occurs somewhere in `s`, as `str::contains` tests.
pub open spec fn contains_spec(s: Seq<char>, t: Seq<char>) -> bool {
    exists|i: int| occurs_at(s, t, i)
}

/// The index of the first occurrence of `t` in `s`, as `str::find` locates it.
pub fn find_chars(s: &Vec<char>, t: &Vec<char>) -> (r: Option<usize>)
    ensures
        r matches Some(i) ==> occurs_at(s@, t@, i as int) && forall|j: int|
            0 <= j < i ==> !occurs_at(s@, t@, j),
        r is None ==> forall|j: int| !occurs_at(s@, t@, j),
{
    if t.len() > s.len() {
        return None;
    }
    let n = s.len();
    let last = n - t.len();
    let mut i: usize = 0;
    while i <= last
        invariant
            last == s@.len() - t@.len(),
            n == s@.len(),
            i <= last + 1,
            forall|j: int| 0 <= j < i ==> !occurs_at(s@, t@, j),
        decreases last + 1 - i,
    {
        let mut k: usize = 0;
        let mut same = true;
        while k < t.len()
            invariant
                i <= last,
                n == s@.len(),
                i + t@.len() <= s@.len(),
                last == s@.len() - t@.len(),
                0 <= k <= t@.len(),
                same == (forall|m: int| 0 <= m < k ==> s@[i + m] == t@[m]),
            decreases t.len() - k,
        {
            if s[i + k] != t[k] {
                same = false;
            }
            k = k + 1;
        }
        if same {
            assert(s@.subrange(i as int, i + t@.len()) =~= t@);
            return Some(i);
        }
        assert(!occurs_at(s@, t@, i as int)) by {
            if occurs_at(s@, t@, i as int) {
                assert forall|m: int| 0 <= m < t@.len() implies s@[i + m] == t@[m] by {
                    assert(s@.subrange(i as int, i + t@.len())[m] == s@[i + m]);
                }
            }
        }
        i = i + 1;
    }
    None
}

/// A character with the Unicode `White_Space` property, which
/// `char::is_whitespace` and `str::trim` go by.
pub open spec fn is_whitespace(c: char) -> bool {
    ||| c == ' '
    ||| ('\u{9}' <= c <= '\u{d}')
    ||| c == '\u{85}'
    ||| c == '\u{a0}'
    ||| c == '\u{1680}'
    ||| ('\u{2000}' <= c <= '\u{200a}')
    ||| c == '\u{2028}'
    ||| c == '\u{2029}'
    ||| c == '\u{202f}'
    ||| c == '\u{205f}'
    ||| c == '\u{3000}'
}

pub fn is_whitespace_exec(c: char) -> (r: bool)
    ensures
        r == is_whitespace(c),
{
    c == ' ' || ('\u{9}' <= c && c <= '\u{d}') || c == '\u{85}' || c == '\u{a0}' || c
        == '\u{1680}' || ('\u{2000}' <= c && c <= '\u{200a}') || c == '\u{2028}' || c
        == '\u{2029}' || c == '\u{202f}' || c == '\u{205f}' || c == '\u{3000}'
}

pub open spec fn trim_start_spec(s: Seq<char>) -> Seq<char>
    decreases s.len(),
{
    if s.len() > 0 && is_whitespace(s[0]) {
        trim_start_spec(s.drop_first())
    } else {
        s
    }
}

pub open spec fn trim_end_spec(s: Seq<char>) -> Seq<char>
    decreases s.len(),
{
    if s.len() > 0 && is_whitespace(s.last()) {
        trim_end_spec(s.drop_last())
    } else {
        s
    }
}

/// `s` without its leading and trailing whitespace, as `str::trim` gives it.
pub open spec fn trim_spec(s: Seq<char>) -> Seq<char> {
    trim_end_spec(trim_start_spec(s))
}

proof fn lemma_trim_start_at(s: Seq<char>, lo: int)
    requires
        0 <= lo <= s.len(),
        forall|j: int| 0 <= j < lo ==> is_whitespace(#[trigger] s[j]),
        lo < s.len() ==> !is_whitespace(s[lo]),
    ensures
        trim_start_spec(s) == s.subrange(lo, s.len() as int),
    decreases lo,
{
    if lo == 0 {
        assert(s.subrange(0, s.len() as int) == s);
    } else {
        assert(is_whitespace(s[0]));
        let t = s.drop_first();
        assert forall|j: int| 0 <= j < lo - 1 implies is_whitespace(#[trigger] t[j]) by {
            assert(t[j] == s[j + 1]);
        }
        lemma_trim_start_at(t, lo - 1);
        assert(t.subrange(lo - 1, t.len() as int) == s.subrange(lo, s.len() as int));
    }
}

proof fn lemma_trim_end_at(s: Seq<char>, hi: int)
    requires
        0 <= hi <= s.len(),
        forall|j: int| hi <= j < s.len() ==> is_whitespace(#[trigger] s[j]),
        hi > 0 ==> !is_whitespace(s[hi - 1]),
    ensures
        trim_end_spec(s) == s.subrange(0, hi),
    decreases s.len() - hi,
{
    if hi == s.len() {
        assert(s.subrange(0, hi) == s);
    } else {
        assert(is_whitespace(s.last()));
        let t = s.drop_last();
        assert forall|j: int| hi <= j < t.len() implies is_whitespace(#[trigger] t[j]) by {
            assert(t[j] == s[j]);
        }
        lemma_trim_end_at(t, hi);
        assert(t.subrange(0, hi) == s.subrange(0, hi));
    }
}

/// The bounds `[lo, hi)` of `v[from..to]` without its surrounding whitespace.
pub fn trim_bounds(v: &Vec<char>, from: usize, to: usize) -> (r: (usize, usize))
    requires
        from <= to <= v.len(),
    ensures
        from <= r.0 <= r.1 <= to,
        v@.subrange(r.0 as int, r.1 as int) == trim_spec(v@.subrange(from as int, to as int)),
{
    let ghost s = v@.subrange(from as int, to as int);
    let mut lo = from;
    while lo < to && is_whitespace_exec(v[lo])
        invariant
            from <= lo <= to <= v.len(),
            forall|j: int| from <= j < lo ==> is_whitespace(#[trigger] v@[j]),
        decreases to - lo,
    {
        lo = lo + 1;
    }
    let mut hi = to;
    while hi > lo && is_whitespace_exec(v[hi - 1])
        invariant
            from <= lo <= hi <= to <= v.len(),
            forall|j: int| hi <= j < to ==> is_whitespace(#[trigger] v@[j]),
        decreases hi - lo,
    {
        hi = hi - 1;
    }
    proof {
        assert forall|j: int| 0 <= j < lo - from implies is_whitespace(#[trigger] s[j]) by {
            assert(s[j] == v@[from + j]);
        }
        lemma_trim_start_at(s, lo - from);
        let t = s.subrange(lo - from, s.len() as int);
        assert(t == v@.subrange(lo as int, to as int));
        assert forall|j: int| hi - lo <= j < t.len() implies is_whitespace(#[trigger] t[j]) by {
            assert(t[j] == v@[lo + j]);
        }
        if hi > lo {
            assert(t[hi - lo - 1] == v@[hi - 1]);
        }
        lemma_trim_end_at(t, hi - lo);
        assert(t.subrange(0, hi - lo) == v@.subrange(lo as int, hi as int));
    }
    (lo, hi)
}

/// `s` with surrounding whitespace removed, as `str::trim` does.
pub fn trim_str(s: &str) -> (r: String)
    ensures
        r@ == trim_spec(s@),
{
    let v = chars_of(s);
    let (lo, hi) = trim_bounds(&v, 0, v.len());
    assert(v@.subrange(0, v@.len() as int) == v@);
    string_of(&v.as_slice()[lo..hi])
}


/// A piece without the `\r` of a `\r\n` line ending.
pub open spec fn strip_cr(p: Seq<char>) -> Seq<char> {
    if p.len() > 0 && p.last() == '\r' {
        p.drop_last()
    } else {
        p
    }
}

/// The lines of `s`, as `str::lines` yields them: split at `\n`, a `\r` just
/// before a `\n` dropped, and no empty line after a final `\n`.
pub open spec fn lines_spec(s: Seq<char>) -> Seq<Seq<char>> {
    let p = split_spec(s, '\n');
    let k: int = if p.last().len() == 0 {
        p.len() - 1
    } else {
        p.len() as int
    };
    Seq::new(k as nat, |i: int| if i < p.len() - 1 { strip_cr(p[i]) } else { p[i] })
}

/// Splits `v` into lines as `str::lines` does.
pub fn split_lines(v: &Vec<char>) -> (lines: Vec<Vec<char>>)
    ensures
        lines@.len() == lines_spec(v@).len(),
        forall|i: int| 0 <= i < lines@.len() ==> #[trigger] lines@[i]@ == lines_spec(v@)[i],
{
    let parts = split_chars(v, '\n');
    let ghost p = split_spec(v@, '\n');
    proof {
        lemma_split_nonempty(v@, '\n');
    }
    let n = parts.len();
    let k = if parts[n - 1].len() == 0 {
        n - 1
    } else {
        n
    };
    let mut lines: Vec<Vec<char>> = Vec::new();
    let mut i: usize = 0;
    while i < k
        invariant
            k <= n == parts@.len() == p.len(),
            p == split_spec(v@, '\n'),
            k == lines_spec(v@).len(),
            forall|j: int| 0 <= j < n ==> #[trigger] parts@[j]@ == p[j],
            i <= k,
            lines@.len() == i,
            forall|j: int| 0 <= j < i ==> #[trigger] lines@[j]@ == lines_spec(v@)[j],
        decreases k - i,
    {
        let piece = &parts[i];
        let m = piece.len();
        let mut line: Vec<char> = piece.clone();
        if i < n - 1 && m > 0 && piece[m - 1] == '\r' {
            line.pop();
        }
        assert(line@ == lines_spec(v@)[i as int]);
        lines.push(line);
        i = i + 1;
    }
    lines
}

/// The ASCII digit for a value below ten.
pub open spec fn digit_char(d: nat) -> char {
    (48 + d) as char
}

/// The decimal representation of `n`, as `Display` writes an unsigned integer.
pub open spec fn decimal_spec(n: nat) -> Seq<char>
    decreases n,
{
    if n < 10 {
        seq![digit_char(n)]
    } else {
        decimal_spec(n / 10).push(digit_char(n % 10))
    }
}

/// Appends the decimal representation of `n` to `out`.
pub fn push_decimal(out: &mut String, n: u64)
    ensures
        final(out)@ == old(out)@ + decimal_spec(n as nat),
    decreases n,
{
    if n >= 10 {
        push_decimal(out, n / 10);
    }
    let d: u8 = (n % 10) as u8;
    let c = (48u8 + d) as char;
    out.push(c);
    proof {
        assert(c == digit_char((n % 10) as nat));
    }
}

/// The pieces joined with `sep` between neighbours, as `slice::join` builds them.
pub open spec fn join_spec(parts: Seq<Seq<char>>, sep: Seq<char>) -> Seq<char>
    decreases parts.len(),
{
    if parts.len() == 0 {
        Seq::<char>::empty()
    } else if parts.len() == 1 {
        parts[0]
    } else {
        join_spec(parts.drop_last(), sep) + sep + parts.last()
    }
}


/// How many times `x` occurs in `s`.
pub open spec fn count_spec(s: Seq<u64>, x: u64) -> nat
    decreases s.len(),
{
    if s.len() == 0 {
        0
    } else {
        count_spec(s.drop_last(), x) + if s.last() == x {
            1nat
        } else {
            0nat
        }
    }
}

/// The elements of `s` at their first occurrence, in order.
pub open spec fn dedup_spec(s: Seq<u64>) -> Seq<u64>
    decreases s.len(),
{
    if s.len() == 0 {
        Seq::<u64>::empty()
    } else {
        let d = dedup_spec(s.drop_last());
        if d.contains(s.last()) {
            d
        } else {
            d.push(s.last())
        }
    }
}

pub proof fn lemma_dedup_props(s: Seq<u64>)
    ensures
        dedup_spec(s).no_duplicates(),
        forall|x: u64| dedup_spec(s).contains(x) <==> s.contains(x),
    decreases s.len(),
{
    if s.len() > 0 {
        lemma_dedup_props(s.drop_last());
        assert forall|x: u64| s.contains(x) <==> (s.drop_last().contains(x) || x == s.last()) by {
            if s.contains(x) {
                let i = choose|i: int| 0 <= i < s.len() && s[i] == x;
                if i < s.len() - 1 {
                    assert(s.drop_last()[i] == x);
                }
            }
            if s.drop_last().contains(x) {
                let i = choose|i: int| 0 <= i < s.len() - 1 && s.drop_last()[i] == x;
                assert(s[i] == x);
            }
            if x == s.last() {
                assert(s[s.len() - 1] == x);
            }
        }
        let d = dedup_spec(s.drop_last());
        if !d.contains(s.last()) {
            assert forall|x: u64| d.push(s.last()).contains(x) <==> (d.contains(x) || x == s.last()) by {
                if d.push(s.last()).contains(x) {
                    let i = choose|i: int| 0 <= i < d.len() + 1 && d.push(s.last())[i] == x;
                    if i < d.len() {
                        assert(d[i] == x);
                    }
                }
                if d.contains(x) {
                    let i = choose|i: int| 0 <= i < d.len() && d[i] == x;
                    assert(d.push(s.last())[i] == x);
                }
                if x == s.last() {
                    assert(d.push(s.last())[d.len() as int] == x);
                }
            }
        }
    }
}

/// Whether `x` is an element of `v`.
pub fn vec_contains(v: &Vec<u64>, x: u64) -> (r: bool)
    ensures
        r == v@.contains(x),
{
    let mut i: usize = 0;
    while i < v.len()
        invariant
            i <= v@.len(),
            forall|j: int| 0 <= j < i ==> v@[j] != x,
        decreases v.len() - i,
    {
        if v[i] == x {
            assert(v@[i as int] == x);
            return true;
        }
        i = i + 1;
    }
    false
}


/// `s` split at its first `c`, as `str::split_once` with a character does.
pub open spec fn split_once_spec(s: Seq<char>, c: char) -> Option<(Seq<char>, Seq<char>)>
    decreases s.len(),
{
    if s.len() == 0 {
        None
    } else if s[0] == c {
        Some((Seq::<char>::empty(), s.drop_first()))
    } else {
        match split_once_spec(s.drop_first(), c) {
            Some((a, b)) => Some((seq![s[0]] + a, b)),
            None => None,
        }
    }
}

pub proof fn lemma_split_once_at(s: Seq<char>, c: char, i: int)
    requires
        0 <= i <= s.len(),
        forall|j: int| 0 <= j < i ==> s[j] != c,
        i < s.len() ==> s[i] == c,
    ensures
        split_once_spec(s, c) == (if i < s.len() {
            Some((s.take(i), s.skip(i + 1)))
        } else {
            None::<(Seq<char>, Seq<char>)>
        }),
    decreases i,
{
    if i > 0 {
        let t = s.drop_first();
        assert forall|j: int| 0 <= j < i - 1 implies t[j] != c by {
            assert(t[j] == s[j + 1]);
        }
        lemma_split_once_at(t, c, i - 1);
        if i < s.len() {
            assert(seq![s[0]] + t.take(i - 1) == s.take(i));
            assert(t.skip(i) == s.skip(i + 1));
        }
    }
}

/// Splits `v` at its first `c`.
pub fn split_once_chars(v: &Vec<char>, c: char) -> (r: Option<(Vec<char>, Vec<char>)>)
    ensures
        match r {
            Some((a, b)) => split_once_spec(v@, c) == Some((a@, b@)),
            None => split_once_spec(v@, c) is None,
        },
{
    let n = v.len();
    let mut i: usize = 0;
    while i < n && v[i] != c
        invariant
            n == v@.len(),
            i <= n,
            forall|j: int| 0 <= j < i ==> v@[j] != c,
        decreases n - i,
    {
        i = i + 1;
    }
    proof {
        lemma_split_once_at(v@, c, i as int);
    }
    if i == n {
        None
    } else {
        let a = sub_vec(v, 0, i);
        let b = sub_vec(v, i + 1, n);
        assert(a@ == v@.take(i as int));
        assert(b@ == v@.skip(i + 1));
        Some((a, b))
    }
}

/// The first line at or after `i` that is not blank, trimmed; empty if none.
pub open spec fn first_nonblank_from(ls: Seq<Seq<char>>, i: int) -> Seq<char>
    decreases ls.len() - i,
{
    if i < 0 || i >= ls.len() {
        Seq::<char>::empty()
    } else if trim_spec(ls[i]).len() > 0 {
        trim_spec(ls[i])
    } else {
        first_nonblank_from(ls, i + 1)
    }
}

/// The first non-blank line of a commit body, trimmed, or empty.
pub open spec fn first_nonblank_line_spec(body: Seq<char>) -> Seq<char> {
    first_nonblank_from(lines_spec(body), 0)
}

/// The first non-blank line of `body`, trimmed; empty when every line is blank.
pub fn first_nonblank_line(body: &str) -> (r: String)
    ensures
        r@ == first_nonblank_line_spec(body@),
{
    let v = chars_of(body);
    let ls = split_lines(&v);
    let n = ls.len();
    let mut i: usize = 0;
    while i < n
        invariant
            n == ls@.len() == lines_spec(v@).len(),
            v@ == body@,
            i <= n,
            forall|j: int| 0 <= j < n ==> #[trigger] ls@[j]@ == lines_spec(v@)[j],
            first_nonblank_from(lines_spec(v@), i as int) == first_nonblank_line_spec(v@),
        decreases n - i,
    {
        let line = &ls[i];
        let (lo, hi) = trim_bounds(line, 0, line.len());
        assert(line@.subrange(0, line@.len() as int) == line@);
        if lo < hi {
            return string_of(&line.as_slice()[lo..hi]);
        }
        i = i + 1;
    }
    String::new()
}


/// A copy of `v[from..to]`.
pub fn sub_vec(v: &Vec<char>, from: usize, to: usize) -> (r: Vec<char>)
    requires
        from <= to <= v.len(),
    ensures
        r@ == v@.subrange(from as int, to as int),
{
    let mut r: Vec<char> = Vec::new();
    let mut i = from;
    while i < to
        invariant
            from <= i <= to <= v.len(),
            r@ == v@.subrange(from as int, i as int),
        decreases to - i,
    {
        r.push(v[i]);
        i = i + 1;
    }
    r
}


/// The number of bytes UTF-8 takes for `c`, as `char::len_utf8` gives it.
pub open spec fn utf8_width(c: char) -> nat {
    if (c as u32) < 0x80 {
        1
    } else if (c as u32) < 0x800 {
        2
    } else if (c as u32) < 0x10000 {
        3
    } else {
        4
    }
}

/// The length in bytes of the UTF-8 encoding of `s`, as `str::len` gives it.
pub open spec fn utf8_len(s: Seq<char>) -> nat
    decreases s.len(),
{
    if s.len() == 0 {
        0
    } else {
        utf8_len(s.drop_last()) + utf8_width(s.last())
    }
}

pub fn utf8_width_exec(c: char) -> (r: usize)
    ensures
        r == utf8_width(c),
{
    let u = c as u32;
    if u < 0x80 {
        1
    } else if u < 0x800 {
        2
    } else if u < 0x10000 {
        3
    } else {
        4
    }
}

pub proof fn lemma_utf8_len_step(s: Seq<char>, k: int)
    requires
        0 <= k < s.len(),
    ensures
        utf8_len(s.take(k + 1)) == utf8_len(s.take(k)) + utf8_width(s[k]),
{
    assert(s.take(k + 1).drop_last() == s.take(k));
}

/// Byte lengths of prefixes grow strictly with the number of characters.
pub proof fn lemma_utf8_len_strict(s: Seq<char>, k1: int, k2: int)
    requires
        0 <= k1 < k2 <= s.len(),
    ensures
        utf8_len(s.take(k1)) < utf8_len(s.take(k2)),
    decreases k2 - k1,
{
    lemma_utf8_len_step(s, k2 - 1);
    if k1 < k2 - 1 {
        lemma_utf8_len_strict(s, k1, k2 - 1);
    }
}

/// Cutting `s` after its first ten bytes falls between characters, or `s` is
/// shorter than ten bytes: `&s[..10]` does not panic where it is taken.
pub open spec fn cut_at_ten_ok(s: Seq<char>) -> bool {
    utf8_len(s) < 10 || exists|k: int| 0 <= k <= s.len() && #[trigger] utf8_len(s.take(k)) == 10
}

/// The first ten bytes of `s` when it has that many, else all of `s`.
pub open spec fn first_ten_bytes(s: Seq<char>) -> Seq<char> {
    if utf8_len(s) >= 10 {
        s.take(choose|k: int| 0 <= k <= s.len() && #[trigger] utf8_len(s.take(k)) == 10)
    } else {
        s
    }
}

/// The first ten bytes of `s` (all of it when shorter), as
/// `if s.len() >= 10 { &s[..10] } else { s }` gives them.
pub fn first_ten_bytes_exec(s: &str) -> (r: String)
    requires
        cut_at_ten_ok(s@),
    ensures
        r@ == first_ten_bytes(s@),
{
    let v = chars_of(s);
    let n = v.len();
    let mut k: usize = 0;
    let mut acc: usize = 0;
    while k < n && acc < 10
        invariant
            n == v@.len(),
            v@ == s@,
            k <= n,
            acc == utf8_len(v@.take(k as int)),
            k > 0 ==> utf8_len(v@.take(k - 1)) < 10,
        decreases n - k,
    {
        proof {
            lemma_utf8_len_step(v@, k as int);
        }
        acc = acc + utf8_width_exec(v[k]);
        k = k + 1;
    }
    if acc < 10 {
        assert(v@.take(n as int) == v@);
        return string_of(v.as_slice());
    }
    proof {
        assert(k > 0);
        if utf8_len(v@) < 10 {
            if k < n {
                lemma_utf8_len_strict(v@, k as int, n as int);
            }
            assert(v@.take(n as int) == v@);
        }
        let c = choose|c: int| 0 <= c <= v@.len() && #[trigger] utf8_len(v@.take(c)) == 10;
        if c < k {
            if c < k - 1 {
                lemma_utf8_len_strict(v@, c, k - 1);
            }
        } else if c > k {
            lemma_utf8_len_strict(v@, k as int, c);
        }
        assert(c == k);
        if k < n {
            lemma_utf8_len_strict(v@, k as int, n as int);
        }
        assert(v@.take(n as int) == v@);
    }
    string_of(&v.as_slice()[0..k])
}


/// The lines with surrounding whitespace removed, blank ones dropped.
pub open spec fn cleaned_spec(ls: Seq<Seq<char>>) -> Seq<Seq<char>>
    decreases ls.len(),
{
    if ls.len() == 0 {
        Seq::empty()
    } else if trim_spec(ls.last()).len() > 0 {
        cleaned_spec(ls.drop_last()).push(trim_spec(ls.last()))
    } else {
        cleaned_spec(ls.drop_last())
    }
}

/// The views of a list of strings.
pub open spec fn views(v: Seq<String>) -> Seq<Seq<char>> {
    v.map_values(|s: String| s@)
}

/// Trims each input line and drops the blank ones, as the subcommands do with
/// what they read from stdin.
pub fn clean_lines(raw: &[String]) -> (r: Vec<String>)
    ensures
        views(r@) == cleaned_spec(views(raw@)),
{
    let mut out: Vec<String> = Vec::new();
    let n = raw.len();
    let mut i: usize = 0;
    while i < n
        invariant
            n == raw@.len(),
            i <= n,
            views(out@) == cleaned_spec(views(raw@.take(i as int))),
        decreases n - i,
    {
        proof {
            assert(views(raw@.take(i + 1)).drop_last() == views(raw@.take(i as int)));
            assert(views(raw@.take(i + 1)).last() == raw@[i as int]@);
        }
        let t = trim_str(raw[i].as_str());
        if !t.as_str().is_empty() {
            let ghost before = out@;
            out.push(t);
            assert(views(out@) == views(before).push(t@));
        }
        i = i + 1;
    }
    assert(raw@.take(n as int) == raw@);
    out
}

/// Whether `p` is a prefix of `s`.
pub fn starts_with_chars(s: &Vec<char>, p: &Vec<char>) -> (r: bool)
    ensures
        r == p@.is_prefix_of(s@),
{
    if p.len() > s.len() {
        return false;
    }
    let mut i: usize = 0;
    while i < p.len()
        invariant
            p@.len() <= s@.len(),
            i <= p@.len(),
            forall|j: int| 0 <= j < i ==> p@[j] == s@[j],
        decreases p.len() - i,
    {
        if p[i] != s[i] {
            return false;
        }
        i = i + 1;
    }
    true
}


/// Whether two character vectors are equal.
pub fn chars_eq(a: &Vec<char>, b: &Vec<char>) -> (r: bool)
    ensures
        r == (a@ == b@),
{
    if a.len() != b.len() {
        return false;
    }
    let mut i: usize = 0;
    while i < a.len()
        invariant
            a@.len() == b@.len(),
            i <= a@.len(),
            forall|j: int| 0 <= j < i ==> a@[j] == b@[j],
        decreases a.len() - i,
    {
        if a[i] != b[i] {
            assert(a@[i as int] != b@[i as int]);
            return false;
        }
        i = i + 1;
    }
    assert(a@ == b@);
    true
}

/// Whether `t` occurs in `s`.
pub fn contains_chars(s: &Vec<char>, t: &Vec<char>) -> (r: bool)
    ensures
        r == contains_spec(s@, t@),
{
    match find_chars(s, t) {
        Some(i) => {
            assert(occurs_at(s@, t@, i as int));
            true
        },
        None => false,
    }
}


/// The decimal representation of `n` is a non-empty string of digits that
/// spells `n`.
pub proof fn lemma_decimal_digits(n: nat)
    ensures
        decimal_spec(n).len() > 0,
        all_digits(decimal_spec(n)),
        decimal_value(decimal_spec(n)) == n,
    decreases n,
{
    let d = digit_char(n % 10);
    assert(digit_value(d) == n % 10);
    assert((n / 10) * 10 + n % 10 == n) by (nonlinear_arith);
    if n >= 10 {
        lemma_decimal_digits(n / 10);
        let s = decimal_spec(n / 10);
        assert(decimal_spec(n) == s.push(d));
        assert(s.push(d).drop_last() == s);
        assert(s.push(d).last() == d);
        assert(decimal_value(s.push(d)) == decimal_value(s) * 10 + digit_value(d));
        assert forall|i: int| 0 <= i < s.len() + 1 implies is_digit(#[trigger] s.push(d)[i]) by {
            if i < s.len() {
                assert(s.push(d)[i] == s[i]);
            }
        }
    } else {
        let s = seq![d];
        assert(s.drop_last() == Seq::<char>::empty());
        assert(s.last() == d);
        assert(decimal_value(s) == decimal_value(s.drop_last()) * 10 + digit_value(d));
    }
}

/// Reading back the decimal representation of a number gives the number.
pub proof fn lemma_decimal_roundtrip(n: u64)
    ensures
        parse_u64_spec(decimal_spec(n as nat)) == Some(n),
{
    lemma_decimal_digits(n as nat);
    assert(is_digit(decimal_spec(n as nat)[0]));
}

/// A piece of characters without `sep` appended after a separator becomes the
/// last piece.
pub proof fn lemma_split_append(x: Seq<char>, sep: char, t: Seq<char>)
    requires
        forall|i: int| 0 <= i < t.len() ==> t[i] != sep,
    ensures
        split_spec(x.push(sep) + t, sep) == split_spec(x, sep).push(t),
    decreases t.len(),
{
    if t.len() == 0 {
        assert(x.push(sep) + t == x.push(sep));
        assert(x.push(sep).drop_last() == x);
        assert(t == Seq::<char>::empty());
    } else {
        let u = t.drop_last();
        lemma_split_append(x, sep, u);
        assert((x.push(sep) + t).drop_last() == x.push(sep) + u);
        assert((x.push(sep) + t).last() == t.last());
        lemma_split_nonempty(x, sep);
        assert(t == u.push(t.last()));
        assert(split_spec(x, sep).push(u).update(
            split_spec(x, sep).len() as int,
            u.push(t.last()),
        ) =~= split_spec(x, sep).push(t));
    }
}

/// Whether two strings are equal.
pub fn str_eq(a: &str, b: &str) -> (r: bool)
    ensures
        r == (a@ == b@),
{
    let av = chars_of(a);
    let bv = chars_of(b);
    if av.len() != bv.len() {
        return false;
    }
    let mut i: usize = 0;
    while i < av.len()
        invariant
            av@ == a@,
            bv@ == b@,
            av@.len() == bv@.len(),
            i <= av@.len(),
            forall|j: int| 0 <= j < i ==> av@[j] == bv@[j],
        decreases av.len() - i,
    {
        if av[i] != bv[i] {
            assert(av@[i as int] != bv@[i as int]);
            return false;
        }
        i = i + 1;
    }
    assert(av@ == bv@);
    true
}

} // verus!
