//! Wildcard command patterns: `*` stands for any run of characters.
use vstd::prelude::*;

use crate::text::chars_of;

verus! {

/// `text` matches `pattern`, where each `*` in the pattern matches any
/// (possibly empty) run of characters and every other character matches itself.
pub open spec fn glob_matches(text: Seq<char>, pattern: Seq<char>) -> bool
    decreases pattern.len(), text.len(),
{
    if pattern.len() == 0 {
        text.len() == 0
    } else if pattern[0] == '*' {
        glob_matches(text, pattern.drop_first()) || (text.len() > 0 && glob_matches(
            text.drop_first(),
            pattern,
        ))
    } else {
        text.len() > 0 && text[0] == pattern[0] && glob_matches(
            text.drop_first(),
            pattern.drop_first(),
        )
    }
}

/// No character of `s` is a wildcard.
pub open spec fn star_free(s: Seq<char>) -> bool {
    forall|i: int| 0 <= i < s.len() ==> s[i] != '*'
}

/// `s` occurs in `t` starting at index `i`.
pub open spec fn occurs_at(t: Seq<char>, s: Seq<char>, i: int) -> bool {
    0 <= i && i + s.len() <= t.len() && t.subrange(i, i + s.len()) == s
}

/// Some suffix of `t` matches `r`.
pub open spec fn some_suffix_matches(t: Seq<char>, r: Seq<char>) -> bool {
    exists|i: int| 0 <= i <= t.len() && #[trigger] glob_matches(t.skip(i), r)
}

/// A literal (wildcard-free) prefix of the pattern must be matched by the same prefix of the text.
proof fn lemma_literal_prefix(t: Seq<char>, p: Seq<char>, n: int)
    requires
        0 <= n <= p.len(),
        forall|i: int| 0 <= i < n ==> p[i] != '*',
    ensures
        glob_matches(t, p) <==> (n <= t.len() && t.take(n) == p.take(n) && glob_matches(
            t.skip(n),
            p.skip(n),
        )),
    decreases n,
{
    if n == 0 {
        assert(t.skip(0) =~= t);
        assert(p.skip(0) =~= p);
        assert(t.take(0) =~= p.take(0));
    } else {
        assert(p[0] != '*');
        if t.len() > 0 {
            let t1 = t.drop_first();
            let p1 = p.drop_first();
            assert forall|i: int| 0 <= i < n - 1 implies p1[i] != '*' by {
                assert(p1[i] == p[i + 1]);
            }
            lemma_literal_prefix(t1, p1, n - 1);
            assert(p1.skip(n - 1) =~= p.skip(n));
            if n <= t.len() {
                assert(t1.skip(n - 1) =~= t.skip(n));
                if t.take(n) == p.take(n) {
                    assert(t[0] == t.take(n)[0]);
                    assert(p[0] == p.take(n)[0]);
                    assert(t1.take(n - 1) =~= t.take(n).drop_first());
                    assert(p1.take(n - 1) =~= p.take(n).drop_first());
                }
                if t[0] == p[0] && t1.take(n - 1) == p1.take(n - 1) {
                    assert(t.take(n) =~= seq![t[0]] + t1.take(n - 1));
                    assert(p.take(n) =~= seq![p[0]] + p1.take(n - 1));
                }
            }
        }
    }
}

/// A leading wildcard lets the rest of the pattern match any suffix.
proof fn lemma_leading_star(t: Seq<char>, r: Seq<char>)
    ensures
        glob_matches(t, seq!['*'] + r) <==> some_suffix_matches(t, r),
    decreases t.len(),
{
    let p = seq!['*'] + r;
    assert(p[0] == '*');
    assert(p.drop_first() =~= r);
    assert(t.skip(0) =~= t);
    if glob_matches(t, r) {
        assert(glob_matches(t.skip(0), r));
    }
    if t.len() == 0 {
        if some_suffix_matches(t, r) {
            let i = choose|i: int| 0 <= i <= t.len() && #[trigger] glob_matches(t.skip(i), r);
            assert(i == 0);
        }
    } else {
        let t1 = t.drop_first();
        lemma_leading_star(t1, r);
        if glob_matches(t, p) {
            if !glob_matches(t, r) {
                assert(glob_matches(t1, p));
                let i = choose|i: int| 0 <= i <= t1.len() && #[trigger] glob_matches(t1.skip(i), r);
                assert(t1.skip(i) =~= t.skip(i + 1));
                assert(glob_matches(t.skip(i + 1), r));
            }
        }
        if some_suffix_matches(t, r) {
            let i = choose|i: int| 0 <= i <= t.len() && #[trigger] glob_matches(t.skip(i), r);
            if i > 0 {
                assert(t1.skip(i - 1) =~= t.skip(i));
                assert(glob_matches(t1.skip(i - 1), r));
                assert(some_suffix_matches(t1, r));
            }
        }
    }
}

/// A pattern without wildcards matches exactly the text equal to it.
pub proof fn lemma_exact(t: Seq<char>, p: Seq<char>)
    requires
        star_free(p),
    ensures
        glob_matches(t, p) <==> t == p,
{
    lemma_literal_prefix(t, p, p.len() as int);
    assert(p.take(p.len() as int) =~= p);
    assert(p.skip(p.len() as int).len() == 0);
    if t == p {
        assert(t.take(p.len() as int) =~= t);
        assert(t.skip(p.len() as int).len() == 0);
    }
    if glob_matches(t, p) {
        assert(t.skip(p.len() as int).len() == 0);
        assert(t =~= t.take(p.len() as int));
    }
}

/// Matching against a suffix that starts further right is weaker.
proof fn lemma_star_monotone(t: Seq<char>, r: Seq<char>, k: int, j: int)
    requires
        0 <= k <= j <= t.len(),
        glob_matches(t.skip(j), seq!['*'] + r),
    ensures
        glob_matches(t.skip(k), seq!['*'] + r),
{
    lemma_leading_star(t.skip(j), r);
    lemma_leading_star(t.skip(k), r);
    let i = choose|i: int| 0 <= i <= t.skip(j).len() && #[trigger] glob_matches(t.skip(j).skip(i), r);
    assert(t.skip(j).skip(i) =~= t.skip(k).skip(j - k + i));
    assert(glob_matches(t.skip(k).skip(j - k + i), r));
}

/// A wildcard-free segment between two wildcards: trying its first occurrence is enough.
proof fn lemma_middle_segment(t: Seq<char>, s: Seq<char>, r: Seq<char>, f: int)
    requires
        star_free(s),
        occurs_at(t, s, f),
        forall|k: int| 0 <= k < f ==> !occurs_at(t, s, k),
    ensures
        glob_matches(t, seq!['*'] + (s + (seq!['*'] + r))) <==> glob_matches(
            t.skip(f + s.len()),
            seq!['*'] + r,
        ),
{
    let m = s.len() as int;
    let q = s + (seq!['*'] + r);
    assert(q.take(m) =~= s);
    assert(q.skip(m) =~= seq!['*'] + r);
    assert forall|i: int| 0 <= i < m implies q[i] != '*' by {
        assert(q[i] == s[i]);
    }
    lemma_leading_star(t, q);
    // the segment at its first occurrence
    lemma_literal_prefix(t.skip(f), q, m);
    assert(t.skip(f).take(m) =~= t.subrange(f, f + m));
    assert(t.skip(f).skip(m) =~= t.skip(f + m));
    if glob_matches(t, seq!['*'] + q) {
        let i = choose|i: int| 0 <= i <= t.len() && #[trigger] glob_matches(t.skip(i), q);
        lemma_literal_prefix(t.skip(i), q, m);
        assert(t.skip(i).take(m) =~= t.subrange(i, i + m));
        assert(occurs_at(t, s, i));
        assert(f <= i);
        assert(t.skip(i).skip(m) =~= t.skip(i + m));
        lemma_star_monotone(t, r, f + m, i + m);
    }
    if glob_matches(t.skip(f + m), seq!['*'] + r) {
        assert(glob_matches(t.skip(f), q));
        assert(some_suffix_matches(t, q));
    }
}

/// A wildcard-free segment between two wildcards that never occurs cannot be matched.
proof fn lemma_middle_segment_absent(t: Seq<char>, s: Seq<char>, r: Seq<char>)
    requires
        star_free(s),
        forall|k: int| 0 <= k ==> !occurs_at(t, s, k),
    ensures
        !glob_matches(t, seq!['*'] + (s + (seq!['*'] + r))),
{
    let m = s.len() as int;
    let q = s + (seq!['*'] + r);
    assert(q.take(m) =~= s);
    assert forall|i: int| 0 <= i < m implies q[i] != '*' by {
        assert(q[i] == s[i]);
    }
    lemma_leading_star(t, q);
    if glob_matches(t, seq!['*'] + q) {
        let i = choose|i: int| 0 <= i <= t.len() && #[trigger] glob_matches(t.skip(i), q);
        lemma_literal_prefix(t.skip(i), q, m);
        assert(t.skip(i).take(m) =~= t.subrange(i, i + m));
        assert(occurs_at(t, s, i));
    }
}

/// A final wildcard-free segment after a wildcard must end the text.
proof fn lemma_last_segment(t: Seq<char>, s: Seq<char>)
    requires
        star_free(s),
    ensures
        glob_matches(t, seq!['*'] + s) <==> (s.len() <= t.len() && t.skip(t.len() - s.len())
            == s),
{
    lemma_leading_star(t, s);
    if glob_matches(t, seq!['*'] + s) {
        let i = choose|i: int| 0 <= i <= t.len() && #[trigger] glob_matches(t.skip(i), s);
        lemma_exact(t.skip(i), s);
        assert(i == t.len() - s.len());
    }
    if s.len() <= t.len() && t.skip(t.len() - s.len()) == s {
        lemma_exact(t.skip(t.len() - s.len()), s);
        assert(glob_matches(t.skip(t.len() - s.len()), s));
    }
}

/// First index `i >= from` with `p[i] == c`.
fn find_char(p: &Vec<char>, c: char, from: usize) -> (r: Option<usize>)
    requires
        from <= p.len(),
    ensures
        match r {
            Some(i) => from <= i < p.len() && p@[i as int] == c && forall|k: int|
                from <= k < i ==> p@[k] != c,
            None => forall|k: int| from <= k < p.len() ==> p@[k] != c,
        },
{
    let mut i = from;
    while i < p.len()
        invariant
            from <= i <= p.len(),
            forall|k: int| from <= k < i ==> p@[k] != c,
        decreases p.len() - i,
    {
        if p[i] == c {
            return Some(i);
        }
        i = i + 1;
    }
    None
}

/// `t[ti..ti+m] == p[pi..pi+m]`.
fn region_eq(t: &Vec<char>, ti: usize, p: &Vec<char>, pi: usize, m: usize) -> (r: bool)
    requires
        ti + m <= t.len(),
        pi + m <= p.len(),
    ensures
        r == (t@.subrange(ti as int, ti + m) == p@.subrange(pi as int, pi + m)),
{
    let mut k: usize = 0;
    while k < m
        invariant
            k <= m,
            ti + m <= t.len(),
            pi + m <= p.len(),
            forall|j: int| 0 <= j < k ==> #[trigger] t@[ti + j] == p@[pi + j],
        decreases m - k,
    {
        if t[ti + k] != p[pi + k] {
            assert(t@.subrange(ti as int, ti + m)[k as int] != p@.subrange(pi as int, pi + m)[k as int]);
            return false;
        }
        k = k + 1;
    }
    assert forall|j: int| 0 <= j < m implies #[trigger] t@.subrange(ti as int, ti + m)[j] == p@.subrange(
        pi as int,
        pi + m,
    )[j] by {
        assert(t@[ti + j] == p@[pi + j]);
    }
    assert(t@.subrange(ti as int, ti + m) =~= p@.subrange(pi as int, pi + m));
    true
}

/// First index `i >= from` where `p[ps..pe]` occurs in `t`.
fn find_segment(t: &Vec<char>, from: usize, p: &Vec<char>, ps: usize, pe: usize) -> (r: Option<usize>)
    requires
        from <= t.len(),
        ps <= pe <= p.len(),
    ensures
        match r {
            Some(i) => from <= i && occurs_at(t@, p@.subrange(ps as int, pe as int), i as int)
                && forall|k: int| from <= k < i ==> !occurs_at(t@, p@.subrange(ps as int, pe as int), k),
            None => forall|k: int| from <= k ==> !occurs_at(t@, p@.subrange(ps as int, pe as int), k),
        },
{
    let m = pe - ps;
    let ghost s = p@.subrange(ps as int, pe as int);
    if m > t.len() {
        return None;
    }
    let last = t.len() - m;
    if from > last {
        return None;
    }
    let mut i = from;
    loop
        invariant
            i <= last,
            from <= i,
            m == pe - ps,
            s == p@.subrange(ps as int, pe as int),
            last == t.len() - m,
            ps <= pe <= p.len(),
            forall|k: int| from <= k < i ==> !occurs_at(t@, s, k),
        decreases last + 1 - i,
    {
        if region_eq(t, i, p, ps, m) {
            return Some(i);
        }
        if i == last {
            return None;
        }
        i = i + 1;
    }
}

/// Whether `text` matches the wildcard `pattern` (see [`glob_matches`]).
///
/// The pattern is cut at its wildcards: the first piece must start the text,
/// the last piece must end it, and each piece in between is taken at its
/// first occurrence after the previous one.
pub fn glob_match(text: &str, pattern: &str) -> (r: bool)
    ensures
        r == glob_matches(text@, pattern@),
{
    let t = chars_of(text);
    let p = chars_of(pattern);
    glob_match_chars(&t, &p)
}

fn glob_match_chars(t: &Vec<char>, p: &Vec<char>) -> (r: bool)
    ensures
        r == glob_matches(t@, p@),
{
    match find_char(p, '*', 0) {
        None => {
            proof {
                lemma_exact(t@, p@);
            }
            if t.len() != p.len() {
                return false;
            }
            let same = region_eq(t, 0, p, 0, p.len());
            assert(t@.subrange(0, t.len() as int) =~= t@);
            assert(p@.subrange(0, p.len() as int) =~= p@);
            same
        },
        Some(fs) => {
            proof {
                lemma_literal_prefix(t@, p@, fs as int);
            }
            if fs > t.len() {
                return false;
            }
            if !region_eq(t, 0, p, 0, fs) {
                assert(t@.subrange(0, fs as int) =~= t@.take(fs as int));
                assert(p@.subrange(0, fs as int) =~= p@.take(fs as int));
                return false;
            }
            assert(t@.subrange(0, fs as int) =~= t@.take(fs as int));
            assert(p@.subrange(0, fs as int) =~= p@.take(fs as int));
            let mut pos = fs;
            let mut seg = fs + 1;
            loop
                invariant
                    1 <= seg <= p.len(),
                    p@[seg - 1] == '*',
                    pos <= t.len(),
                    glob_matches(t@, p@) == glob_matches(t@.skip(pos as int), p@.skip(seg - 1)),
                decreases p.len() - seg,
            {
                let ghost tail = t@.skip(pos as int);
                assert(p@.skip(seg - 1) =~= seq!['*'] + p@.skip(seg as int));
                match find_char(p, '*', seg) {
                    None => {
                        let m = p.len() - seg;
                        let ghost s = p@.skip(seg as int);
                        assert(star_free(s)) by {
                            assert forall|i: int| 0 <= i < s.len() implies s[i] != '*' by {
                                assert(s[i] == p@[seg + i]);
                            }
                        }
                        proof {
                            lemma_last_segment(tail, s);
                        }
                        if m > t.len() - pos {
                            return false;
                        }
                        let res = region_eq(t, t.len() - m, p, seg, m);
                        assert(tail.skip(tail.len() - s.len()) =~= t@.subrange(
                            t.len() - m,
                            t.len() as int,
                        ));
                        assert(p@.subrange(seg as int, seg + m) =~= s);
                        return res;
                    },
                    Some(ns) => {
                        let m = ns - seg;
                        let ghost s = p@.subrange(seg as int, ns as int);
                        let ghost rest = p@.skip(ns + 1);
                        assert(p@.skip(seg as int) =~= s + (seq!['*'] + rest));
                        assert(star_free(s)) by {
                            assert forall|i: int| 0 <= i < s.len() implies s[i] != '*' by {
                                assert(s[i] == p@[seg + i]);
                            }
                        }
                        match find_segment(t, pos, p, seg, ns) {
                            None => {
                                assert forall|k: int| 0 <= k implies !occurs_at(tail, s, k) by {
                                    if occurs_at(tail, s, k) {
                                        assert(tail.subrange(k, k + m) =~= t@.subrange(
                                            pos + k,
                                            pos + k + m,
                                        ));
                                        assert(occurs_at(t@, s, pos + k));
                                    }
                                }
                                proof {
                                    lemma_middle_segment_absent(tail, s, rest);
                                }
                                return false;
                            },
                            Some(f) => {
                                let ghost rel = f - pos;
                                assert(tail.subrange(rel, rel + m) =~= t@.subrange(
                                    f as int,
                                    f + m,
                                ));
                                assert forall|k: int| 0 <= k < rel implies !occurs_at(
                                    tail,
                                    s,
                                    k,
                                ) by {
                                    if occurs_at(tail, s, k) {
                                        assert(tail.subrange(k, k + m) =~= t@.subrange(
                                            pos + k,
                                            pos + k + m,
                                        ));
                                        assert(occurs_at(t@, s, pos + k));
                                    }
                                }
                                proof {
                                    lemma_middle_segment(tail, s, rest, rel);
                                }
                                assert(tail.skip(rel + m) =~= t@.skip(f + m));
                                assert(p@.skip(ns as int) =~= seq!['*'] + rest);
                                pos = f + m;
                                seg = ns + 1;
                            },
                        }
                    },
                }
            }
        },
    }
}

/// A lone wildcard matches every text.
pub proof fn lemma_lone_star_matches_all(t: Seq<char>)
    ensures
        glob_matches(t, seq!['*']),
{
    lemma_leading_star(t, seq![]);
    assert(seq!['*'] + Seq::<char>::empty() =~= seq!['*']);
    assert(t.skip(t.len() as int).len() == 0);
    assert(glob_matches(t.skip(t.len() as int), seq![]));
}

/// Every pattern matches its own text, wildcards included (each `*` standing
/// for the single character `*`).
pub proof fn lemma_pattern_matches_itself(p: Seq<char>)
    ensures
        glob_matches(p, p),
    decreases p.len(),
{
    if p.len() > 0 {
        lemma_pattern_matches_itself(p.drop_first());
        if p[0] == '*' {
            // the wildcard takes the star, the rest matches itself
            let p1 = p.drop_first();
            assert(glob_matches(p1, p1));
            reveal_with_fuel(glob_matches, 2);
            assert(glob_matches(p1, p));
        }
    }
}

/// A trailing wildcard makes the pattern match every extension of a matched text.
pub proof fn lemma_trailing_star_extends(t: Seq<char>, s: Seq<char>, p: Seq<char>)
    requires
        glob_matches(t, p + seq!['*']),
    ensures
        glob_matches(t + s, p + seq!['*']),
    decreases p.len(), t.len(),
{
    let q = p + seq!['*'];
    if p.len() == 0 {
        assert(q =~= seq!['*']);
        lemma_lone_star_matches_all(t + s);
    } else if p[0] == '*' {
        assert(q[0] == '*');
        assert(q.drop_first() =~= p.drop_first() + seq!['*']);
        if glob_matches(t, q.drop_first()) {
            lemma_trailing_star_extends(t, s, p.drop_first());
        } else {
            assert(t.len() > 0 && glob_matches(t.drop_first(), q));
            lemma_trailing_star_extends(t.drop_first(), s, p);
            assert((t + s).drop_first() =~= t.drop_first() + s);
        }
    } else {
        assert(q[0] == p[0]);
        assert(q.drop_first() =~= p.drop_first() + seq!['*']);
        assert(t.len() > 0);
        lemma_trailing_star_extends(t.drop_first(), s, p.drop_first());
        assert((t + s).drop_first() =~= t.drop_first() + s);
        assert((t + s)[0] == t[0]);
    }
}

} // verus!
