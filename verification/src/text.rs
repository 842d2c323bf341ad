//! Character-level text utilities: substring search, whitespace
//! splitting and case folding, all specified over `Seq<char>` views.
use vstd::prelude::*;

verus! {

// ---------------------------------------------------------------------------
// Character classes
// ---------------------------------------------------------------------------
/// The Unicode `White_Space` characters, the set that
/// `str::split_whitespace` documents it splits on.
pub open spec fn is_ws_char(c: char) -> bool {
    let u = c as u32;
    (9 <= u && u <= 13) || u == 32 || u == 0x85 || u == 0xa0 || u == 0x1680 || (0x2000 <= u && u
        <= 0x200a) || u == 0x2028 || u == 0x2029 || u == 0x202f || u == 0x205f || u == 0x3000
}

pub fn is_whitespace_char(c: char) -> (r: bool)
    ensures
        r == is_ws_char(c),
{
    let u = c as u32;
    (9 <= u && u <= 13) || u == 32 || u == 0x85 || u == 0xa0 || u == 0x1680 || (0x2000 <= u && u
        <= 0x200a) || u == 0x2028 || u == 0x2029 || u == 0x202f || u == 0x205f || u == 0x3000
}

// ---------------------------------------------------------------------------
// Substring search
// ---------------------------------------------------------------------------
/// `pat` occurs in `s` starting at position `i`.
pub open spec fn sub_at(s: Seq<char>, pat: Seq<char>, i: int) -> bool {
    0 <= i && i + pat.len() <= s.len() && s.subrange(i, i + pat.len() as int) == pat
}

/// `pat` occurs somewhere in `s`.
pub open spec fn contains_sub(s: Seq<char>, pat: Seq<char>) -> bool {
    exists|i: int| sub_at(s, pat, i)
}

/// Index of the first occurrence of `pat` in `s`, or -1 when there is none.
pub open spec fn find_sub(s: Seq<char>, pat: Seq<char>) -> int
    decreases s.len(),
{
    if pat.len() > s.len() {
        -1
    } else if s.subrange(0, pat.len() as int) == pat {
        0
    } else if s.len() == 0 {
        -1
    } else {
        let r = find_sub(s.subrange(1, s.len() as int), pat);
        if r < 0 {
            -1
        } else {
            r + 1
        }
    }
}

/// Occurrences in the tail of `s` are occurrences in `s`, shifted by one.
proof fn lemma_sub_at_shift(s: Seq<char>, pat: Seq<char>, j: int)
    requires
        s.len() > 0,
        j >= 0,
    ensures
        sub_at(s, pat, j + 1) <==> sub_at(s.subrange(1, s.len() as int), pat, j),
{
    let t = s.subrange(1, s.len() as int);
    if 0 <= j && j + pat.len() <= t.len() {
        assert(s.subrange(j + 1, j + 1 + pat.len() as int) =~= t.subrange(
            j,
            j + pat.len() as int,
        ));
    }
}

/// `find_sub` returns the first occurrence, or -1 exactly when there is none.
pub proof fn lemma_find_sub(s: Seq<char>, pat: Seq<char>)
    ensures
        find_sub(s, pat) == -1 ==> !contains_sub(s, pat),
        find_sub(s, pat) >= 0 ==> sub_at(s, pat, find_sub(s, pat)),
        find_sub(s, pat) >= 0 ==> forall|j: int| 0 <= j < find_sub(s, pat) ==> !sub_at(s, pat, j),
    decreases s.len(),
{
    if pat.len() > s.len() {
        assert forall|i: int| !sub_at(s, pat, i) by {}
    } else if s.subrange(0, pat.len() as int) == pat {
    } else if s.len() == 0 {
        assert(pat.len() == 0);
        assert(s.subrange(0, 0) =~= pat);
    } else {
        let t = s.subrange(1, s.len() as int);
        lemma_find_sub(t, pat);
        let r = find_sub(t, pat);
        assert forall|j: int| j >= 0 implies (sub_at(s, pat, j + 1) <==> sub_at(t, pat, j)) by {
            lemma_sub_at_shift(s, pat, j);
        }
        if r < 0 {
            assert forall|i: int| !sub_at(s, pat, i) by {
                if i == 0 {
                    if sub_at(s, pat, 0) {
                        assert(s.subrange(0, pat.len() as int) == pat);
                    }
                } else if i > 0 {
                    lemma_sub_at_shift(s, pat, i - 1);
                }
            }
        } else {
            assert(sub_at(t, pat, r));
            lemma_sub_at_shift(s, pat, r);
            assert(sub_at(s, pat, r + 1));
            assert forall|j: int| 0 <= j < r + 1 implies !sub_at(s, pat, j) by {
                if j == 0 {
                    if sub_at(s, pat, 0) {
                        assert(s.subrange(0, pat.len() as int) == pat);
                    }
                } else {
                    lemma_sub_at_shift(s, pat, j - 1);
                }
            }
        }
    }
}

/// First occurrence of `pat` in `s` as a character index, if any.
pub fn find_substr(s: &str, pat: &str) -> (r: Option<usize>)
    ensures
        match r {
            Some(i) => find_sub(s@, pat@) == i as int,
            None => find_sub(s@, pat@) == -1,
        },
{
    let n = s.unicode_len();
    let m = pat.unicode_len();
    proof {
        lemma_find_sub(s@, pat@);
    }
    if m > n {
        return None;
    }
    if m == 0 {
        proof {
            assert(s@.subrange(0, 0) =~= pat@);
        }
        return Some(0);
    }
    let mut i: usize = 0;
    while i <= n - m
        invariant
            1 <= m <= n,
            i <= n - m + 1,
            n == s@.len(),
            m == pat@.len(),
            forall|j: int| 0 <= j < i ==> !sub_at(s@, pat@, j),
        decreases n - m + 1 - i,
    {
        let mut j: usize = 0;
        let mut ok = true;
        while j < m
            invariant
                i + m <= n,
                j <= m,
                n == s@.len(),
                m == pat@.len(),
                ok ==> forall|k: int| 0 <= k < j ==> s@[i + k] == pat@[k],
                !ok ==> !sub_at(s@, pat@, i as int),
            decreases m - j,
        {
            if ok {
                let c1 = s.get_char(i + j);
                let c2 = pat.get_char(j);
                if c1 != c2 {
                    proof {
                        if sub_at(s@, pat@, i as int) {
                            assert(s@.subrange(i as int, i + pat@.len() as int)[j as int] == s@[i
                                + j]);
                        }
                    }
                    ok = false;
                }
            }
            j += 1;
        }
        if ok {
            proof {
                assert(s@.subrange(i as int, i + pat@.len() as int) =~= pat@);
                assert(sub_at(s@, pat@, i as int));
                lemma_find_sub(s@, pat@);
                let fs = find_sub(s@, pat@);
                if fs == -1 {
                    assert(contains_sub(s@, pat@));
                }
                assert(fs >= 0);
                assert(fs >= i) by {
                    if fs < i {
                        assert(!sub_at(s@, pat@, fs));
                    }
                }
                assert(fs <= i) by {
                    if fs > i {
                        assert(!sub_at(s@, pat@, i as int));
                    }
                }
            }
            return Some(i);
        }
        i += 1;
    }
    proof {
        assert forall|k: int| !sub_at(s@, pat@, k) by {
            if k > n - m {
                assert(!sub_at(s@, pat@, k));
            }
        }
        let fs = find_sub(s@, pat@);
        if fs >= 0 {
            assert(sub_at(s@, pat@, fs));
        }
    }
    None
}

/// Whether `pat` occurs anywhere in `s`.
pub fn contains_substr(s: &str, pat: &str) -> (r: bool)
    ensures
        r == contains_sub(s@, pat@),
{
    proof {
        lemma_find_sub(s@, pat@);
    }
    match find_substr(s, pat) {
        Some(i) => {
            proof {
                assert(sub_at(s@, pat@, i as int));
            }
            true
        },
        None => false,
    }
}

// ---------------------------------------------------------------------------
// Single-character search and counting
// ---------------------------------------------------------------------------
/// Index of the first occurrence of `c` in `s`, or -1 when there is none.
pub open spec fn find_ch(s: Seq<char>, c: char) -> int
    decreases s.len(),
{
    if s.len() == 0 {
        -1
    } else if s[0] == c {
        0
    } else {
        let r = find_ch(s.subrange(1, s.len() as int), c);
        if r < 0 {
            -1
        } else {
            r + 1
        }
    }
}

/// `find_ch` finds the first occurrence, or -1 exactly when there is none.
pub proof fn lemma_find_ch(s: Seq<char>, c: char)
    ensures
        find_ch(s, c) == -1 ==> forall|j: int| 0 <= j < s.len() ==> s[j] != c,
        find_ch(s, c) >= 0 ==> find_ch(s, c) < s.len() && s[find_ch(s, c)] == c,
        find_ch(s, c) >= 0 ==> forall|j: int| 0 <= j < find_ch(s, c) ==> s[j] != c,
    decreases s.len(),
{
    if s.len() > 0 && s[0] != c {
        let t = s.subrange(1, s.len() as int);
        lemma_find_ch(t, c);
        if find_ch(s, c) == -1 {
            assert forall|j: int| 0 <= j < s.len() implies s[j] != c by {
                if j > 0 {
                    assert(t[j - 1] == s[j]);
                }
            }
        } else {
            assert forall|j: int| 0 <= j < find_ch(s, c) implies s[j] != c by {
                if j > 0 {
                    assert(t[j - 1] == s[j]);
                }
            }
        }
    }
}

/// `find_ch` is pinned by a witness index.
pub proof fn lemma_find_ch_is(s: Seq<char>, c: char, k: int)
    requires
        0 <= k < s.len(),
        s[k] == c,
        forall|j: int| 0 <= j < k ==> s[j] != c,
    ensures
        find_ch(s, c) == k,
    decreases s.len(),
{
    if k > 0 {
        let t = s.subrange(1, s.len() as int);
        assert(forall|j: int| 0 <= j < k - 1 ==> t[j] == s[j + 1]);
        lemma_find_ch_is(t, c, k - 1);
    }
}

/// `find_ch` misses exactly when no index carries `c`.
pub proof fn lemma_find_ch_none(s: Seq<char>, c: char)
    requires
        forall|j: int| 0 <= j < s.len() ==> s[j] != c,
    ensures
        find_ch(s, c) == -1,
    decreases s.len(),
{
    if s.len() > 0 {
        let t = s.subrange(1, s.len() as int);
        assert(forall|j: int| 0 <= j < t.len() ==> t[j] == s[j + 1]);
        lemma_find_ch_none(t, c);
    }
}

/// First occurrence of the character `c` in `s`, if any.
pub fn find_char(s: &str, c: char) -> (r: Option<usize>)
    ensures
        match r {
            Some(i) => find_ch(s@, c) == i as int,
            None => find_ch(s@, c) == -1,
        },
{
    let n = s.unicode_len();
    let mut i: usize = 0;
    while i < n
        invariant
            i <= n,
            n == s@.len(),
            forall|j: int| 0 <= j < i ==> s@[j] != c,
        decreases n - i,
    {
        if s.get_char(i) == c {
            proof {
                lemma_find_ch_is(s@, c, i as int);
            }
            return Some(i);
        }
        i += 1;
    }
    proof {
        lemma_find_ch_none(s@, c);
    }
    None
}

// ---------------------------------------------------------------------------
// Trusted string primitives
// ---------------------------------------------------------------------------
/// Relies on `String::push`: appends exactly the given character.
#[verifier::external_body]
pub fn push_char(s: &mut String, c: char)
    ensures
        final(s)@ == old(s)@.push(c),
{
    s.push(c);
}

/// The Unicode lowercase mapping that `str::to_lowercase` computes; a
/// function of the characters alone.
pub uninterp spec fn lower_of(s: Seq<char>) -> Seq<char>;

/// Relies on `str::to_lowercase`: the result depends only on the input
/// characters, and an empty string stays empty.
#[verifier::external_body]
pub fn lowercase(s: &str) -> (r: String)
    ensures
        r@ == lower_of(s@),
        s@.len() == 0 ==> r@.len() == 0,
{
    s.to_lowercase()
}

// ---------------------------------------------------------------------------
// Whitespace splitting
// ---------------------------------------------------------------------------
/// Length of the maximal non-whitespace prefix of `s`.
pub open spec fn word_len(s: Seq<char>) -> nat
    decreases s.len(),
{
    if s.len() == 0 || is_ws_char(s[0]) {
        0
    } else {
        1 + word_len(s.subrange(1, s.len() as int))
    }
}

/// `word_len` never reaches past the end of `s`.
pub proof fn lemma_word_len_le(s: Seq<char>)
    ensures
        word_len(s) <= s.len(),
    decreases s.len(),
{
    if s.len() > 0 && !is_ws_char(s[0]) {
        lemma_word_len_le(s.subrange(1, s.len() as int));
    }
}

/// The whitespace-separated words of `s`, in order, without empties.
pub open spec fn split_ws(s: Seq<char>) -> Seq<Seq<char>>
    decreases s.len(),
    via split_ws_decreases
{
    if s.len() == 0 {
        Seq::empty()
    } else if is_ws_char(s[0]) {
        split_ws(s.subrange(1, s.len() as int))
    } else {
        seq![s.take(word_len(s) as int)] + split_ws(s.skip(word_len(s) as int))
    }
}

#[via_fn]
proof fn split_ws_decreases(s: Seq<char>) {
    lemma_word_len_le(s);
}

/// `word_len` is the unique boundary: all earlier characters are non-space
/// and the boundary is the end or a space.
proof fn lemma_word_len_is(s: Seq<char>, k: int)
    requires
        0 <= k <= s.len(),
        forall|i: int| 0 <= i < k ==> !is_ws_char(s[i]),
        k == s.len() || is_ws_char(s[k]),
    ensures
        word_len(s) == k,
    decreases s.len(),
{
    if k == 0 {
    } else {
        let t = s.subrange(1, s.len() as int);
        assert forall|i: int| 0 <= i < k - 1 implies !is_ws_char(t[i]) by {
            assert(t[i] == s[i + 1]);
        }
        lemma_word_len_is(t, k - 1);
    }
}

/// Character index just past the word starting at `start`.
fn word_end(s: &str, start: usize) -> (j: usize)
    requires
        start <= s@.len(),
    ensures
        start <= j <= s@.len(),
        j - start == word_len(s@.skip(start as int)),
{
    let n = s.unicode_len();
    let mut j = start;
    while j < n
        invariant
            start <= j <= n,
            n == s@.len(),
            forall|k: int| start <= k < j ==> !is_ws_char(s@[k]),
        decreases n - j,
    {
        if is_whitespace_char(s.get_char(j)) {
            proof {
                let t = s@.skip(start as int);
                assert forall|i: int| 0 <= i < j - start implies !is_ws_char(t[i]) by {
                    assert(t[i] == s@[start + i]);
                }
                assert(t[j - start] == s@[j as int]);
                lemma_word_len_is(t, j - start);
            }
            return j;
        }
        j += 1;
    }
    proof {
        let t = s@.skip(start as int);
        assert forall|i: int| 0 <= i < j - start implies !is_ws_char(t[i]) by {
            assert(t[i] == s@[start + i]);
        }
        lemma_word_len_is(t, j - start);
    }
    j
}

/// The whitespace-separated words of `s`, as owned strings.
pub fn split_whitespace(s: &str) -> (r: Vec<String>)
    ensures
        r.deep_view() == split_ws(s@),
{
    let n = s.unicode_len();
    let mut out: Vec<String> = Vec::new();
    let mut i: usize = 0;
    proof {
        assert(s@.skip(0) =~= s@);
        assert(out.deep_view() =~= Seq::<Seq<char>>::empty());
        assert(out.deep_view() + split_ws(s@.skip(0)) =~= split_ws(s@));
    }
    while i < n
        invariant
            n == s@.len(),
            i <= n,
            out.deep_view() + split_ws(s@.skip(i as int)) =~= split_ws(s@),
        decreases n - i,
    {
        let c = s.get_char(i);
        if is_whitespace_char(c) {
            proof {
                assert(s@.skip(i as int)[0] == s@[i as int]);
                assert(s@.skip(i as int).subrange(1, s@.skip(i as int).len() as int) =~= s@.skip(
                    i as int + 1,
                ));
            }
            i += 1;
        } else {
            let j = word_end(s, i);
            proof {
                assert(s@.skip(i as int)[0] == s@[i as int]);
            }
            let w = s.substring_char(i, j).to_owned();
            let ghost old_dv = out.deep_view();
            out.push(w);
            proof {
                let t = s@.skip(i as int);
                assert(t.take((j - i) as int) =~= s@.subrange(i as int, j as int));
                assert(t.skip((j - i) as int) =~= s@.skip(j as int));
                assert(w@ == t.take(word_len(t) as int));
                assert(out.deep_view() =~= old_dv.push(w@));
                assert(split_ws(t) == seq![t.take(word_len(t) as int)] + split_ws(
                    t.skip(word_len(t) as int),
                ));
                assert(out.deep_view() + split_ws(s@.skip(j as int)) =~= split_ws(s@));
            }
            i = j;
        }
    }
    proof {
        assert(split_ws(s@.skip(i as int)) =~= Seq::<Seq<char>>::empty());
        assert(out.deep_view() =~= out.deep_view() + Seq::<Seq<char>>::empty());
    }
    out
}

// ---------------------------------------------------------------------------
// Splitting on a separator character, and joining back
// ---------------------------------------------------------------------------
/// `s` split at every occurrence of `c`; `n` separators give `n + 1` parts.
pub open spec fn split_on(s: Seq<char>, c: char) -> Seq<Seq<char>>
    decreases s.len(),
    via split_on_decreases
{
    let i = find_ch(s, c);
    if i < 0 {
        seq![s]
    } else {
        seq![s.take(i)] + split_on(s.skip(i + 1), c)
    }
}

#[via_fn]
proof fn split_on_decreases(s: Seq<char>, c: char) {
    lemma_find_ch(s, c);
}

/// The parts joined back with `c` between them.
pub open spec fn join_with(parts: Seq<Seq<char>>, c: char) -> Seq<char>
    decreases parts.len(),
{
    if parts.len() == 0 {
        Seq::empty()
    } else if parts.len() == 1 {
        parts[0]
    } else {
        parts[0] + seq![c] + join_with(parts.drop_first(), c)
    }
}

/// No two neighbouring positions of `s` both hold `c`.
pub open spec fn no_adjacent(s: Seq<char>, c: char) -> bool {
    forall|i: int| 0 <= i < s.len() - 1 ==> !(#[trigger] s[i] == c && s[i + 1] == c)
}

/// Splitting undoes joining, for separator-free parts.
pub proof fn lemma_split_join(parts: Seq<Seq<char>>, c: char)
    requires
        parts.len() >= 1,
        forall|i: int, j: int|
            0 <= i < parts.len() && 0 <= j < parts[i].len() ==> parts[i][j] != c,
    ensures
        split_on(join_with(parts, c), c) == parts,
    decreases parts.len(),
{
    if parts.len() == 1 {
        let s = parts[0];
        assert forall|j: int| 0 <= j < s.len() implies s[j] != c by {
            assert(parts[0][j] != c);
        }
        lemma_find_ch_none(s, c);
        assert(seq![s] =~= parts);
    } else {
        let p0 = parts[0];
        let rest = parts.drop_first();
        let jr = join_with(rest, c);
        let s = join_with(parts, c);
        assert(s == p0 + seq![c] + jr);
        assert forall|j: int| 0 <= j < p0.len() implies s[j] != c by {
            assert(s[j] == p0[j]);
            assert(parts[0][j] != c);
        }
        assert(s[p0.len() as int] == c);
        lemma_find_ch_is(s, c, p0.len() as int);
        assert forall|i: int, j: int|
            0 <= i < rest.len() && 0 <= j < rest[i].len() implies rest[i][j] != c by {
            assert(rest[i] == parts[i + 1]);
        }
        lemma_split_join(rest, c);
        assert(s.take(p0.len() as int) =~= p0);
        assert(s.skip(p0.len() as int + 1) =~= jr);
        assert(seq![p0] + split_on(jr, c) =~= parts);
    }
}

/// Joining non-empty separator-free parts never doubles the separator.
pub proof fn lemma_join_no_adjacent(parts: Seq<Seq<char>>, c: char)
    requires
        parts.len() >= 1,
        forall|i: int| 0 <= i < parts.len() ==> parts[i].len() > 0,
        forall|i: int, j: int|
            0 <= i < parts.len() && 0 <= j < parts[i].len() ==> parts[i][j] != c,
    ensures
        no_adjacent(join_with(parts, c), c),
        join_with(parts, c).len() > 0,
        join_with(parts, c)[0] != c,
    decreases parts.len(),
{
    if parts.len() == 1 {
        let s = parts[0];
        assert forall|j: int| 0 <= j < s.len() implies s[j] != c by {
            assert(parts[0][j] != c);
        }
    } else {
        let p0 = parts[0];
        let rest = parts.drop_first();
        assert forall|i: int| 0 <= i < rest.len() implies rest[i].len() > 0 by {
            assert(rest[i] == parts[i + 1]);
        }
        assert forall|i: int, j: int|
            0 <= i < rest.len() && 0 <= j < rest[i].len() implies rest[i][j] != c by {
            assert(rest[i] == parts[i + 1]);
        }
        lemma_join_no_adjacent(rest, c);
        let jr = join_with(rest, c);
        let s = join_with(parts, c);
        assert(s == p0 + seq![c] + jr);
        assert(parts[0][0] != c);
        assert forall|i: int| 0 <= i < s.len() - 1 implies !(#[trigger] s[i] == c && s[i + 1]
            == c) by {
            if i < p0.len() {
                assert(s[i] == p0[i]);
                assert(parts[0][i] != c);
            } else if i == p0.len() {
                assert(s[i + 1] == jr[0]);
            } else {
                assert(s[i] == jr[i - p0.len() - 1]);
                assert(s[i + 1] == jr[i - p0.len()]);
            }
        }
    }
}

/// Without adjacent separators there is no doubled-separator substring.
pub proof fn lemma_no_adjacent_no_double(s: Seq<char>, c: char)
    requires
        no_adjacent(s, c),
    ensures
        !contains_sub(s, seq![c, c]),
{
    assert forall|i: int| !sub_at(s, seq![c, c], i) by {
        if 0 <= i && i + 2 <= s.len() {
            if sub_at(s, seq![c, c], i) {
                assert(s.subrange(i, i + 2)[0] == s[i]);
                assert(s.subrange(i, i + 2)[1] == s[i + 1]);
            }
        }
    }
}

/// Joining exactly eight parts, written out flat.
pub proof fn lemma_join8(p: Seq<Seq<char>>, c: char)
    requires
        p.len() == 8,
    ensures
        join_with(p, c) == p[0] + seq![c] + p[1] + seq![c] + p[2] + seq![c] + p[3] + seq![c] + p[4]
            + seq![c] + p[5] + seq![c] + p[6] + seq![c] + p[7],
{
    let q1 = p.subrange(1, 8);
    let q2 = p.subrange(2, 8);
    let q3 = p.subrange(3, 8);
    let q4 = p.subrange(4, 8);
    let q5 = p.subrange(5, 8);
    let q6 = p.subrange(6, 8);
    let q7 = p.subrange(7, 8);
    assert(q7 =~= q6.drop_first());
    assert(q6 =~= q5.drop_first());
    assert(q5 =~= q4.drop_first());
    assert(q4 =~= q3.drop_first());
    assert(q3 =~= q2.drop_first());
    assert(q2 =~= q1.drop_first());
    assert(q1 =~= p.drop_first());
    assert(join_with(q7, c) == p[7]);
    assert(join_with(q6, c) == q6[0] + seq![c] + join_with(q7, c));
    assert(join_with(q5, c) == q5[0] + seq![c] + join_with(q6, c));
    assert(join_with(q4, c) == q4[0] + seq![c] + join_with(q5, c));
    assert(join_with(q3, c) == q3[0] + seq![c] + join_with(q4, c));
    assert(join_with(q2, c) == q2[0] + seq![c] + join_with(q3, c));
    assert(join_with(q1, c) == q1[0] + seq![c] + join_with(q2, c));
    assert(join_with(p, c) == p[0] + seq![c] + join_with(q1, c));
    assert(join_with(p, c) =~= p[0] + seq![c] + p[1] + seq![c] + p[2] + seq![c] + p[3] + seq![c]
        + p[4] + seq![c] + p[5] + seq![c] + p[6] + seq![c] + p[7]);
}

/// `s` split at every occurrence of `c`, as owned strings.
pub fn split_on_char(s: &str, c: char) -> (r: Vec<String>)
    ensures
        r.deep_view() == split_on(s@, c),
    decreases s@.len(),
{
    let n = s.unicode_len();
    match find_char(s, c) {
        None => {
            let mut r: Vec<String> = Vec::new();
            r.push(s.to_owned());
            proof {
                assert(r.deep_view() =~= seq![s@]);
            }
            r
        },
        Some(i) => {
            proof {
                lemma_find_ch(s@, c);
            }
            let head = s.substring_char(0, i).to_owned();
            let tail_str = s.substring_char(i + 1, n);
            let mut r = split_on_char(tail_str, c);
            r.insert(0, head);
            proof {
                assert(head@ =~= s@.take(i as int));
                assert(tail_str@ =~= s@.skip(i + 1));
                assert(r.deep_view() =~= seq![s@.take(i as int)] + split_on(s@.skip(i + 1), c));
            }
            r
        },
    }
}

/// Every word of `words` (already case folded) occurs in `entry`.
pub open spec fn words_all_contained(words: Seq<char>, entry: Seq<char>) -> bool {
    forall|k: int| 0 <= k < split_ws(words).len() ==> contains_sub(entry, split_ws(words)[k])
}

/// Whether every string of `words` occurs in `entry`.
pub fn all_contained(words: &Vec<String>, entry: &str) -> (r: bool)
    ensures
        r == forall|k: int| 0 <= k < words@.len() ==> contains_sub(entry@, words@[k]@),
{
    let mut k: usize = 0;
    while k < words.len()
        invariant
            k <= words@.len(),
            forall|q: int| 0 <= q < k ==> contains_sub(entry@, words@[q]@),
        decreases words@.len() - k,
    {
        if !contains_substr(entry, words[k].as_str()) {
            return false;
        }
        k += 1;
    }
    true
}

} // verus!
