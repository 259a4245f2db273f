//! Verified character-level string utilities: trimming, searching,
//! splitting on a separator and joining, which the frontmatter codec and the
//! glob normalizer are built on.

use vstd::prelude::*;

verus! {

/// The whitespace characters the codec strips at the edges of values.
pub open spec fn is_space_char(c: char) -> bool {
    c == ' ' || c == '\t' || c == '\n' || c == '\r'
}

/// Executable twin of [`is_space_char`].
pub fn is_space(c: char) -> (r: bool)
    ensures
        r == is_space_char(c),
{
    c == ' ' || c == '\t' || c == '\n' || c == '\r'
}

/// The sequence with leading whitespace removed.
pub open spec fn trim_start_spec(s: Seq<char>) -> Seq<char>
    decreases s.len(),
{
    if s.len() > 0 && is_space_char(s[0]) {
        trim_start_spec(s.drop_first())
    } else {
        s
    }
}

/// The sequence with trailing whitespace removed.
pub open spec fn trim_end_spec(s: Seq<char>) -> Seq<char>
    decreases s.len(),
{
    if s.len() > 0 && is_space_char(s[s.len() - 1]) {
        trim_end_spec(s.drop_last())
    } else {
        s
    }
}

/// The sequence with whitespace removed at both ends.
pub open spec fn trim_spec(s: Seq<char>) -> Seq<char> {
    trim_end_spec(trim_start_spec(s))
}

proof fn lemma_trim_start_skip(s: Seq<char>, i: int)
    requires
        0 <= i <= s.len(),
        forall|j: int| 0 <= j < i ==> is_space_char(s[j]),
        i == s.len() || !is_space_char(s[i]),
    ensures
        trim_start_spec(s) == s.skip(i),
    decreases i,
{
    if i == 0 {
        assert(s.skip(0) == s);
    } else {
        assert(is_space_char(s[0]));
        assert(s.len() > 0);
        let t = s.drop_first();
        assert(forall|j: int| 0 <= j < i - 1 ==> is_space_char(t[j]));
        lemma_trim_start_skip(t, i - 1);
        assert(t.skip(i - 1) == s.skip(i));
    }
}

proof fn lemma_trim_end_take(s: Seq<char>, i: int)
    requires
        0 <= i <= s.len(),
        forall|j: int| i <= j < s.len() ==> is_space_char(s[j]),
        i == 0 || !is_space_char(s[i - 1]),
    ensures
        trim_end_spec(s) == s.take(i),
    decreases s.len() - i,
{
    if i == s.len() {
        assert(s.take(i) == s);
    } else {
        assert(is_space_char(s[s.len() - 1]));
        let t = s.drop_last();
        assert(forall|j: int| i <= j < t.len() ==> is_space_char(t[j]));
        lemma_trim_end_take(t, i);
        assert(t.take(i) == s.take(i));
    }
}

/// A slice of `s` with leading whitespace removed.
pub fn trim_start(s: &str) -> (r: &str)
    ensures
        r@ == trim_start_spec(s@),
        r@.len() <= s@.len(),
{
    let n: usize = s.unicode_len();
    let mut i: usize = 0;
    while i < n && is_space(s.get_char(i))
        invariant
            0 <= i <= n,
            n == s@.len(),
            forall|j: int| 0 <= j < i ==> is_space_char(s@[j]),
        decreases n - i,
    {
        i = i + 1;
    }
    proof {
        lemma_trim_start_skip(s@, i as int);
    }
    s.substring_char(i, n)
}

/// A slice of `s` with whitespace removed at both ends.
pub fn trim(s: &str) -> (r: &str)
    ensures
        r@ == trim_spec(s@),
        r@.len() <= s@.len(),
{
    let t = trim_start(s);
    let n: usize = t.unicode_len();
    let mut i: usize = n;
    while i > 0 && is_space(t.get_char(i - 1))
        invariant
            0 <= i <= n,
            n == t@.len(),
            forall|j: int| i <= j < n ==> is_space_char(t@[j]),
        decreases i,
    {
        i = i - 1;
    }
    proof {
        lemma_trim_end_take(t@, i as int);
    }
    t.substring_char(0, i)
}

/// Whether the two slices hold the same characters.
pub fn str_eq(a: &str, b: &str) -> (r: bool)
    ensures
        r == (a@ == b@),
{
    let n: usize = a.unicode_len();
    let m: usize = b.unicode_len();
    if n != m {
        return false;
    }
    let mut i: usize = 0;
    while i < n
        invariant
            0 <= i <= n,
            n == a@.len(),
            n == b@.len(),
            forall|j: int| 0 <= j < i ==> a@[j] == b@[j],
        decreases n - i,
    {
        if a.get_char(i) != b.get_char(i) {
            return false;
        }
        i = i + 1;
    }
    proof {
        assert(a@ =~= b@);
    }
    true
}

/// ASCII upper-case letters mapped to lower case; all else unchanged.
pub open spec fn lower_char(c: char) -> char {
    if 'A' <= c <= 'Z' {
        ((c as u8) + 32) as char
    } else {
        c
    }
}

/// ASCII lower-case letters mapped to upper case; all else unchanged.
pub open spec fn upper_char(c: char) -> char {
    if 'a' <= c <= 'z' {
        ((c as u8) - 32) as char
    } else {
        c
    }
}

/// Executable twin of [`lower_char`].
pub fn to_lower_char(c: char) -> (r: char)
    ensures
        r == lower_char(c),
{
    if 'A' <= c && c <= 'Z' {
        (((c as u8) + 32) as char)
    } else {
        c
    }
}

/// Whether the two slices hold the same characters up to ASCII case.
pub fn str_eq_ignore_ascii_case(a: &str, b: &str) -> (r: bool)
    ensures
        r == (a@.map_values(|c: char| lower_char(c)) == b@.map_values(
            |c: char| lower_char(c),
        )),
{
    let ghost la = a@.map_values(|c: char| lower_char(c));
    let ghost lb = b@.map_values(|c: char| lower_char(c));
    let n: usize = a.unicode_len();
    let m: usize = b.unicode_len();
    proof {
        assert(la.len() == a@.len());
        assert(lb.len() == b@.len());
    }
    if n != m {
        return false;
    }
    let mut i: usize = 0;
    while i < n
        invariant
            0 <= i <= n,
            n == a@.len(),
            n == b@.len(),
            la == a@.map_values(|c: char| lower_char(c)),
            lb == b@.map_values(|c: char| lower_char(c)),
            forall|j: int| 0 <= j < i ==> la[j] == lb[j],
        decreases n - i,
    {
        if to_lower_char(a.get_char(i)) != to_lower_char(b.get_char(i)) {
            assert(la[i as int] != lb[i as int]);
            return false;
        }
        i = i + 1;
    }
    proof {
        assert(la =~= lb);
    }
    true
}

/// Whether `p` occurs in `s` starting at position `i`.
pub open spec fn matches_at(s: Seq<char>, p: Seq<char>, i: int) -> bool {
    0 <= i && i + p.len() <= s.len() && s.subrange(i, i + p.len()) == p
}

/// Whether `s` begins with `p`.
pub open spec fn starts_with_spec(s: Seq<char>, p: Seq<char>) -> bool {
    matches_at(s, p, 0)
}

/// Whether `s` ends with `p`.
pub open spec fn ends_with_spec(s: Seq<char>, p: Seq<char>) -> bool {
    p.len() <= s.len() && s.subrange(s.len() - p.len(), s.len() as int) == p
}

fn matches_at_exec(s: &str, p: &str, i: usize) -> (r: bool)
    requires
        i <= s@.len(),
    ensures
        r == matches_at(s@, p@, i as int),
{
    let n: usize = s.unicode_len();
    let m: usize = p.unicode_len();
    if m > n - i {
        return false;
    }
    let mut j: usize = 0;
    while j < m
        invariant
            0 <= j <= m,
            i + m <= n,
            n == s@.len(),
            m == p@.len(),
            forall|k: int| 0 <= k < j ==> s@[i + k] == p@[k],
        decreases m - j,
    {
        if s.get_char(i + j) != p.get_char(j) {
            assert(s@.subrange(i as int, i + m) != p@) by {
                assert(s@.subrange(i as int, i + m)[j as int] != p@[j as int]);
            }
            return false;
        }
        j = j + 1;
    }
    proof {
        assert(s@.subrange(i as int, i + m) =~= p@);
    }
    true
}

/// Whether `s` begins with `p`.
pub fn starts_with(s: &str, p: &str) -> (r: bool)
    ensures
        r == starts_with_spec(s@, p@),
{
    matches_at_exec(s, p, 0)
}

/// Whether `s` ends with `p`.
pub fn ends_with(s: &str, p: &str) -> (r: bool)
    ensures
        r == ends_with_spec(s@, p@),
{
    let n: usize = s.unicode_len();
    let m: usize = p.unicode_len();
    if m > n {
        return false;
    }
    let r = matches_at_exec(s, p, n - m);
    proof {
        assert(ends_with_spec(s@, p@) == matches_at(s@, p@, n - m));
    }
    r
}

/// The position of the first occurrence of `p` in `s`, if any.
pub fn find_str(s: &str, p: &str) -> (r: Option<usize>)
    ensures
        match r {
            Some(i) => matches_at(s@, p@, i as int) && forall|j: int|
                0 <= j < i ==> !matches_at(s@, p@, j),
            None => forall|j: int| 0 <= j <= s@.len() ==> !matches_at(s@, p@, j),
        },
{
    let n: usize = s.unicode_len();
    let mut i: usize = 0;
    while i < n
        invariant
            0 <= i <= n,
            n == s@.len(),
            forall|j: int| 0 <= j < i ==> !matches_at(s@, p@, j),
        decreases n - i,
    {
        if matches_at_exec(s, p, i) {
            return Some(i);
        }
        i = i + 1;
    }
    if matches_at_exec(s, p, n) {
        return Some(n);
    }
    None
}

/// The position of the first occurrence of `p` in `s`, or `-1`.
pub open spec fn sub_idx_of(s: Seq<char>, p: Seq<char>) -> int
    decreases s.len(),
{
    if matches_at(s, p, 0) {
        0
    } else if s.len() == 0 {
        -1
    } else {
        let r = sub_idx_of(s.drop_first(), p);
        if r < 0 {
            -1
        } else {
            r + 1
        }
    }
}

/// [`sub_idx_of`] is the position of the first match.
pub proof fn lemma_sub_idx_of_at(s: Seq<char>, p: Seq<char>, i: int)
    requires
        matches_at(s, p, i),
        forall|j: int| 0 <= j < i ==> !matches_at(s, p, j),
    ensures
        sub_idx_of(s, p) == i,
    decreases i,
{
    if i == 0 {
    } else {
        assert(!matches_at(s, p, 0));
        let d = s.drop_first();
        assert(matches_at(d, p, i - 1)) by {
            assert(d.subrange(i - 1, i - 1 + p.len()) =~= s.subrange(i, i + p.len()));
        }
        assert forall|j: int| 0 <= j < i - 1 implies !matches_at(d, p, j) by {
            if matches_at(d, p, j) {
                assert(matches_at(s, p, j + 1)) by {
                    assert(s.subrange(j + 1, j + 1 + p.len()) =~= d.subrange(j, j + p.len()));
                }
            }
        }
        lemma_sub_idx_of_at(d, p, i - 1);
    }
}

/// Without a match anywhere, [`sub_idx_of`] is negative.
pub proof fn lemma_sub_idx_of_none(s: Seq<char>, p: Seq<char>)
    requires
        forall|j: int| 0 <= j <= s.len() ==> !matches_at(s, p, j),
    ensures
        sub_idx_of(s, p) == -1,
    decreases s.len(),
{
    if s.len() > 0 {
        let d = s.drop_first();
        assert forall|j: int| 0 <= j <= d.len() implies !matches_at(d, p, j) by {
            if matches_at(d, p, j) {
                assert(matches_at(s, p, j + 1)) by {
                    assert(s.subrange(j + 1, j + 1 + p.len()) =~= d.subrange(j, j + p.len()));
                }
            }
        }
        lemma_sub_idx_of_none(d, p);
    }
}

/// The position of the first occurrence of character `c` in `s`, or `-1`.
pub open spec fn idx_of(s: Seq<char>, c: char) -> int
    decreases s.len(),
{
    if s.len() == 0 {
        -1
    } else if s[0] == c {
        0
    } else {
        let r = idx_of(s.drop_first(), c);
        if r < 0 {
            -1
        } else {
            r + 1
        }
    }
}

/// Basic facts about [`idx_of`]: its range, that it points at `c`, and that
/// nothing before it is `c`.
pub proof fn lemma_idx_of(s: Seq<char>, c: char)
    ensures
        idx_of(s, c) >= 0 ==> idx_of(s, c) < s.len() && s[idx_of(s, c)] == c && forall|j: int|
            0 <= j < idx_of(s, c) ==> s[j] != c,
        idx_of(s, c) < 0 ==> forall|j: int| 0 <= j < s.len() ==> s[j] != c,
    decreases s.len(),
{
    if s.len() > 0 && s[0] != c {
        let t = s.drop_first();
        lemma_idx_of(t, c);
        if idx_of(t, c) >= 0 {
            assert forall|j: int| 0 <= j < idx_of(s, c) implies s[j] != c by {
                if j > 0 {
                    assert(t[j - 1] != c);
                }
            }
        } else {
            assert forall|j: int| 0 <= j < s.len() implies s[j] != c by {
                if j > 0 {
                    assert(t[j - 1] != c);
                }
            }
        }
    }
}

/// [`idx_of`] is determined by position: if `s[i] == c` and no earlier
/// character is `c`, then `idx_of(s, c) == i`.
pub proof fn lemma_idx_of_at(s: Seq<char>, c: char, i: int)
    requires
        0 <= i < s.len(),
        s[i] == c,
        forall|j: int| 0 <= j < i ==> s[j] != c,
    ensures
        idx_of(s, c) == i,
    decreases i,
{
    if i > 0 {
        lemma_idx_of_at(s.drop_first(), c, i - 1);
    }
}

/// Absence of `c` makes [`idx_of`] negative.
pub proof fn lemma_idx_of_none(s: Seq<char>, c: char)
    requires
        forall|j: int| 0 <= j < s.len() ==> s[j] != c,
    ensures
        idx_of(s, c) == -1,
    decreases s.len(),
{
    if s.len() > 0 {
        lemma_idx_of_none(s.drop_first(), c);
    }
}

/// The position of the last occurrence of character `c` in `s`, or `-1`.
pub open spec fn last_idx_of(s: Seq<char>, c: char) -> int
    decreases s.len(),
{
    if s.len() == 0 {
        -1
    } else if s[s.len() - 1] == c {
        s.len() - 1
    } else {
        last_idx_of(s.drop_last(), c)
    }
}

/// Basic facts about [`last_idx_of`]: its range, that it points at `c`,
/// and that nothing after it is `c`.
pub proof fn lemma_last_idx_of(s: Seq<char>, c: char)
    ensures
        last_idx_of(s, c) >= 0 ==> last_idx_of(s, c) < s.len() && s[last_idx_of(s, c)] == c
            && forall|j: int| last_idx_of(s, c) < j < s.len() ==> s[j] != c,
        last_idx_of(s, c) < 0 ==> forall|j: int| 0 <= j < s.len() ==> s[j] != c,
    decreases s.len(),
{
    if s.len() > 0 && s[s.len() - 1] != c {
        let t = s.drop_last();
        lemma_last_idx_of(t, c);
        if last_idx_of(t, c) >= 0 {
            assert forall|j: int| last_idx_of(s, c) < j < s.len() implies s[j] != c by {
                if j < s.len() - 1 {
                    assert(t[j] != c);
                }
            }
        } else {
            assert forall|j: int| 0 <= j < s.len() implies s[j] != c by {
                if j < s.len() - 1 {
                    assert(t[j] != c);
                }
            }
        }
    }
}

/// [`last_idx_of`] is determined by position: if `s[i] == c` and no later
/// character is `c`, then `last_idx_of(s, c) == i`.
pub proof fn lemma_last_idx_of_at(s: Seq<char>, c: char, i: int)
    requires
        0 <= i < s.len(),
        s[i] == c,
        forall|j: int| i < j < s.len() ==> s[j] != c,
    ensures
        last_idx_of(s, c) == i,
    decreases s.len(),
{
    if i < s.len() - 1 {
        lemma_last_idx_of_at(s.drop_last(), c, i);
    }
}

/// Absence of `c` makes [`last_idx_of`] negative.
pub proof fn lemma_last_idx_of_none(s: Seq<char>, c: char)
    requires
        forall|j: int| 0 <= j < s.len() ==> s[j] != c,
    ensures
        last_idx_of(s, c) == -1,
    decreases s.len(),
{
    if s.len() > 0 {
        lemma_last_idx_of_none(s.drop_last(), c);
    }
}

/// The position of the last occurrence of character `c`, if any.
pub fn rfind_char(s: &str, c: char) -> (r: Option<usize>)
    ensures
        match r {
            Some(i) => i as int == last_idx_of(s@, c),
            None => last_idx_of(s@, c) == -1,
        },
{
    let n: usize = s.unicode_len();
    let mut i: usize = n;
    while i > 0
        invariant
            0 <= i <= n,
            n == s@.len(),
            forall|j: int| i <= j < n ==> s@[j] != c,
        decreases i,
    {
        if s.get_char(i - 1) == c {
            proof {
                lemma_last_idx_of_at(s@, c, i - 1);
            }
            return Some(i - 1);
        }
        i = i - 1;
    }
    proof {
        lemma_last_idx_of_none(s@, c);
    }
    None
}

/// Whether `c` occurs in `s`.
pub open spec fn contains_char(s: Seq<char>, c: char) -> bool {
    exists|i: int| 0 <= i < s.len() && s[i] == c
}

/// The position of the first occurrence of character `c`, if any.
pub fn find_char(s: &str, c: char) -> (r: Option<usize>)
    ensures
        match r {
            Some(i) => i < s@.len() && s@[i as int] == c && forall|j: int|
                0 <= j < i ==> s@[j] != c,
            None => !contains_char(s@, c),
        },
{
    let n: usize = s.unicode_len();
    let mut i: usize = 0;
    while i < n
        invariant
            0 <= i <= n,
            n == s@.len(),
            forall|j: int| 0 <= j < i ==> s@[j] != c,
        decreases n - i,
    {
        if s.get_char(i) == c {
            return Some(i);
        }
        i = i + 1;
    }
    None
}

/// `s` split at every occurrence of `sep`; separators are dropped and empty
/// segments kept, so the result is never empty.
pub open spec fn split_spec(s: Seq<char>, sep: char) -> Seq<Seq<char>>
    decreases s.len(),
    via split_spec_dec
{
    let i = idx_of(s, sep);
    if i < 0 {
        seq![s]
    } else {
        seq![s.take(i)] + split_spec(s.skip(i + 1), sep)
    }
}

#[via_fn]
proof fn split_spec_dec(s: Seq<char>, sep: char) {
    lemma_idx_of(s, sep);
}

pub proof fn lemma_split_len(s: Seq<char>, sep: char)
    ensures
        split_spec(s, sep).len() >= 1,
    decreases s.len(),
{
    let i = idx_of(s, sep);
    if i >= 0 {
        lemma_idx_of(s, sep);
        lemma_split_len(s.skip(i + 1), sep);
    }
}

/// Splitting a separator-free sequence yields just that sequence.
pub proof fn lemma_split_no_sep(s: Seq<char>, sep: char)
    requires
        forall|j: int| 0 <= j < s.len() ==> s[j] != sep,
    ensures
        split_spec(s, sep) == seq![s],
{
    lemma_idx_of_none(s, sep);
}

/// Unfolds one segment of [`split_spec`] at a known first separator.
pub proof fn lemma_split_step(s: Seq<char>, sep: char, i: int)
    requires
        0 <= i < s.len(),
        s[i] == sep,
        forall|j: int| 0 <= j < i ==> s[j] != sep,
    ensures
        split_spec(s, sep) == seq![s.take(i)] + split_spec(s.skip(i + 1), sep),
{
    lemma_idx_of_at(s, sep, i);
}

/// `s` split at every `sep`, as owned strings.
pub fn split_char(s: &str, sep: char) -> (r: Vec<String>)
    ensures
        r.deep_view() == split_spec(s@, sep),
        r.len() >= 1,
{
    let n: usize = s.unicode_len();
    let mut parts: Vec<String> = Vec::new();
    let mut start: usize = 0;
    let mut i: usize = 0;
    proof {
        assert(s@.skip(0) =~= s@);
        assert(parts.deep_view() =~= Seq::<Seq<char>>::empty());
    }
    while i < n
        invariant
            0 <= start <= i <= n,
            n == s@.len(),
            forall|j: int| start <= j < i ==> s@[j] != sep,
            split_spec(s@, sep) =~= parts.deep_view() + split_spec(s@.skip(start as int), sep),
        decreases n - i,
    {
        if s.get_char(i) == sep {
            let piece = s.substring_char(start, i);
            proof {
                let rest = s@.skip(start as int);
                assert(rest[i - start] == sep);
                assert(forall|j: int| 0 <= j < i - start ==> rest[j] != sep);
                lemma_split_step(rest, sep, i - start as int);
                assert(rest.take(i - start) =~= piece@);
                assert(rest.skip(i - start + 1) =~= s@.skip(i + 1));
            }
            parts.push(piece.to_owned());
            start = i + 1;
        }
        i = i + 1;
    }
    let piece = s.substring_char(start, n);
    proof {
        let rest = s@.skip(start as int);
        assert(forall|j: int| 0 <= j < rest.len() ==> rest[j] != sep);
        lemma_split_no_sep(rest, sep);
        assert(rest =~= piece@);
    }
    parts.push(piece.to_owned());
    proof {
        assert(parts.deep_view() =~= split_spec(s@, sep));
        lemma_split_len(s@, sep);
    }
    parts
}

/// The segments joined with `sep` between them.
pub open spec fn join_spec(parts: Seq<Seq<char>>, sep: Seq<char>) -> Seq<char>
    decreases parts.len(),
{
    if parts.len() == 0 {
        Seq::empty()
    } else if parts.len() == 1 {
        parts[0]
    } else {
        join_spec(parts.drop_last(), sep) + sep + parts.last()
    }
}

/// Applies [`trim_spec`] to every element.
pub fn trim_each(parts: &Vec<String>) -> (r: Vec<String>)
    ensures
        r.deep_view() == parts.deep_view().map_values(|p: Seq<char>| trim_spec(p)),
{
    let ghost f = |p: Seq<char>| trim_spec(p);
    let mut out: Vec<String> = Vec::new();
    let mut i: usize = 0;
    proof {
        assert(out.deep_view() =~= parts.deep_view().take(0).map_values(f));
    }
    while i < parts.len()
        invariant
            0 <= i <= parts.len(),
            f == (|p: Seq<char>| trim_spec(p)),
            out.deep_view() == parts.deep_view().take(i as int).map_values(f),
        decreases parts.len() - i,
    {
        let t = trim(parts[i].as_str());
        out.push(t.to_owned());
        proof {
            let pv = parts.deep_view();
            assert(pv.take(i + 1).map_values(f) =~= pv.take(i as int).map_values(f).push(
                f(pv[i as int]),
            ));
            assert(out.deep_view() =~= pv.take(i + 1).map_values(f));
        }
        i = i + 1;
    }
    proof {
        assert(parts.deep_view().take(parts.len() as int) =~= parts.deep_view());
    }
    out
}

/// No segment that [`split_spec`] yields holds the separator.
pub proof fn lemma_split_segments_no_sep(s: Seq<char>, sep: char)
    ensures
        forall|i: int, j: int|
            0 <= i < split_spec(s, sep).len() && 0 <= j < split_spec(s, sep)[i].len()
                ==> split_spec(s, sep)[i][j] != sep,
    decreases s.len(),
{
    lemma_idx_of(s, sep);
    let k = idx_of(s, sep);
    if k >= 0 {
        lemma_split_segments_no_sep(s.skip(k + 1), sep);
        let parts = split_spec(s, sep);
        assert forall|i: int, j: int|
            0 <= i < parts.len() && 0 <= j < parts[i].len() implies parts[i][j] != sep by {
            if i == 0 {
                assert(parts[0] == s.take(k));
                assert(s.take(k)[j] == s[j]);
            } else {
                assert(parts[i] == split_spec(s.skip(k + 1), sep)[i - 1]);
            }
        }
    }
}

/// [`join_spec`] unfolded at the front rather than the back.
pub proof fn lemma_join_unfold_left(parts: Seq<Seq<char>>, sep: Seq<char>)
    requires
        parts.len() >= 2,
    ensures
        join_spec(parts, sep) == parts[0] + sep + join_spec(parts.drop_first(), sep),
    decreases parts.len(),
{
    if parts.len() == 2 {
        assert(parts.drop_last() =~= seq![parts[0]]);
        assert(parts.drop_first() =~= seq![parts[1]]);
    } else {
        lemma_join_unfold_left(parts.drop_last(), sep);
        assert(parts.drop_last().drop_first() =~= parts.drop_first().drop_last());
        assert(parts.drop_last()[0] == parts[0]);
        assert(join_spec(parts, sep) == join_spec(parts.drop_last(), sep) + sep + parts.last());
        assert(join_spec(parts.drop_first(), sep) == join_spec(
            parts.drop_first().drop_last(),
            sep,
        ) + sep + parts.drop_first().last());
        assert(parts.drop_first().last() == parts.last());
        assert(parts[0] + sep + join_spec(parts.drop_first(), sep) =~= join_spec(
            parts.drop_last(),
            sep,
        ) + sep + parts.last());
    }
}

/// Splitting a join undoes it, as long as no segment holds the separator.
pub proof fn lemma_split_join(parts: Seq<Seq<char>>, sep: char)
    requires
        parts.len() >= 1,
        forall|i: int, j: int|
            0 <= i < parts.len() && 0 <= j < parts[i].len() ==> parts[i][j] != sep,
    ensures
        split_spec(join_spec(parts, seq![sep]), sep) == parts,
    decreases parts.len(),
{
    let s = join_spec(parts, seq![sep]);
    if parts.len() == 1 {
        assert(s == parts[0]);
        lemma_split_no_sep(s, sep);
        assert(split_spec(s, sep) =~= parts);
    } else {
        lemma_join_unfold_left(parts, seq![sep]);
        let rest = join_spec(parts.drop_first(), seq![sep]);
        let p0 = parts[0];
        assert(s == p0 + seq![sep] + rest);
        assert(s[p0.len() as int] == sep);
        assert(forall|j: int| 0 <= j < p0.len() ==> s[j] == p0[j] && s[j] != sep);
        lemma_split_step(s, sep, p0.len() as int);
        assert(s.take(p0.len() as int) =~= p0);
        assert(s.skip(p0.len() + 1 as int) =~= rest);
        lemma_split_join(parts.drop_first(), sep);
        assert(split_spec(s, sep) == seq![p0] + split_spec(rest, sep));
        assert(seq![p0] + parts.drop_first() =~= parts);
    }
}

/// [`trim_start_spec`] leaves no leading whitespace.
pub proof fn lemma_trim_start_no_leading(s: Seq<char>)
    ensures
        trim_start_spec(s).len() > 0 ==> !is_space_char(trim_start_spec(s)[0]),
    decreases s.len(),
{
    if s.len() > 0 && is_space_char(s[0]) {
        lemma_trim_start_no_leading(s.drop_first());
    }
}

/// [`trim_end_spec`] leaves no trailing whitespace.
pub proof fn lemma_trim_end_no_trailing(s: Seq<char>)
    ensures
        trim_end_spec(s).len() > 0 ==> !is_space_char(
            trim_end_spec(s)[trim_end_spec(s).len() - 1],
        ),
    decreases s.len(),
{
    if s.len() > 0 && is_space_char(s[s.len() - 1]) {
        lemma_trim_end_no_trailing(s.drop_last());
    }
}

/// [`trim_start_spec`] is a suffix of its input.
pub proof fn lemma_trim_start_is_suffix(s: Seq<char>)
    ensures
        trim_start_spec(s).len() <= s.len(),
        trim_start_spec(s) == s.skip(s.len() - trim_start_spec(s).len()),
    decreases s.len(),
{
    if s.len() > 0 && is_space_char(s[0]) {
        let d = s.drop_first();
        lemma_trim_start_is_suffix(d);
        let t = trim_start_spec(s);
        assert(t == trim_start_spec(d));
        assert(t == d.skip(d.len() - t.len()));
        assert(d.skip(d.len() - t.len()) =~= s.skip(s.len() - t.len()));
    } else {
        assert(s.skip(0) =~= s);
    }
}

/// [`trim_end_spec`] is a prefix of its input.
pub proof fn lemma_trim_end_prefix(s: Seq<char>)
    ensures
        trim_end_spec(s).len() <= s.len(),
        trim_end_spec(s) == s.take(trim_end_spec(s).len() as int),
    decreases s.len(),
{
    if s.len() > 0 && is_space_char(s[s.len() - 1]) {
        lemma_trim_end_prefix(s.drop_last());
        assert(s.drop_last().take(trim_end_spec(s).len() as int) =~= s.take(
            trim_end_spec(s).len() as int,
        ));
    } else {
        assert(s.take(s.len() as int) =~= s);
    }
}

/// Trimming twice is the same as trimming once.
pub proof fn lemma_trim_idempotent(s: Seq<char>)
    ensures
        trim_spec(trim_spec(s)) == trim_spec(s),
{
    let a = trim_start_spec(s);
    let t = trim_end_spec(a);
    lemma_trim_start_no_leading(s);
    lemma_trim_end_prefix(a);
    lemma_trim_end_no_trailing(a);
    // t has no leading whitespace: it is a prefix of a, whose head is not
    // whitespace.
    if t.len() > 0 {
        assert(t[0] == a[0]);
    }
    assert(trim_start_spec(t) == t);
    assert(trim_end_spec(t) == t);
}

/// The segments joined with separator `sep`.
pub fn join_str(parts: &Vec<String>, sep: &str) -> (r: String)
    ensures
        r@ == join_spec(parts.deep_view(), sep@),
{
    let mut out = String::new();
    let mut i: usize = 0;
    while i < parts.len()
        invariant
            0 <= i <= parts.len(),
            out@ == join_spec(parts.deep_view().take(i as int), sep@),
        decreases parts.len() - i,
    {
        if i > 0 {
            out.append(sep);
        }
        out.append(parts[i].as_str());
        proof {
            let pv = parts.deep_view();
            assert(pv.take(i + 1).drop_last() =~= pv.take(i as int));
            assert(pv.take(i + 1).last() == pv[i as int]);
        }
        i = i + 1;
    }
    proof {
        assert(parts.deep_view().take(parts.len() as int) =~= parts.deep_view());
    }
    out
}

} // verus!
