//! Character-level helpers shared by the voice and persona modules.
use vstd::prelude::*;

verus! {

broadcast use vstd::string::group_string_axioms;

/// The characters of `s`, in order.
pub fn chars_of(s: &str) -> (v: Vec<char>)
    ensures
        v@ == s@,
{
    let mut v: Vec<char> = Vec::new();
    for c in it: s.chars()
        invariant
            it.seq() == s@,
            v@ == it.seq().take(it.index()),
    {
        v.push(c);
        assert(it.seq().take(it.index() + 1) =~= it.seq().take(it.index()).push(c));
    }
    assert(s@.take(s@.len() as int) =~= s@);
    v
}

/// `c` holds exactly the characters of `lit`.
pub fn chars_eq_str(c: &Vec<char>, lit: &str) -> (r: bool)
    ensures
        r == (c@ == lit@),
{
    let l = chars_of(lit);
    chars_eq(c, &l)
}

/// Element-wise equality of two character vectors.
pub fn chars_eq(a: &Vec<char>, b: &Vec<char>) -> (r: bool)
    ensures
        r == (a@ == b@),
{
    if a.len() != b.len() {
        return false;
    }
    let mut i: usize = 0;
    while i < a.len()
        invariant
            a.len() == b.len(),
            i <= a.len(),
            forall|k: int| 0 <= k < i ==> #[trigger] a@[k] == b@[k],
        decreases a.len() - i,
    {
        if a[i] != b[i] {
            return false;
        }
        i = i + 1;
    }
    assert(a@ =~= b@);
    true
}

/// `a` and `b` hold the same characters.
pub fn str_eq(a: &str, b: &str) -> (r: bool)
    ensures
        r == (a@ == b@),
{
    let ca = chars_of(a);
    let cb = chars_of(b);
    chars_eq(&ca, &cb)
}

/// The decimal digit `d` as a character.
pub open spec fn digit_char(d: nat) -> char {
    seq!['0', '1', '2', '3', '4', '5', '6', '7', '8', '9'][d as int]
}

/// The decimal rendering of `n`, without leading zeros.
pub open spec fn decimal(n: nat) -> Seq<char>
    decreases n,
{
    if n < 10 {
        seq![digit_char(n)]
    } else {
        decimal(n / 10) + seq![digit_char(n % 10)]
    }
}

fn digit_str(d: u64) -> (r: &'static str)
    requires
        d < 10,
    ensures
        r@ == seq![digit_char(d as nat)],
{
    proof {
        reveal_strlit("0");
        reveal_strlit("1");
        reveal_strlit("2");
        reveal_strlit("3");
        reveal_strlit("4");
        reveal_strlit("5");
        reveal_strlit("6");
        reveal_strlit("7");
        reveal_strlit("8");
        reveal_strlit("9");
    }
    match d {
        0 => "0",
        1 => "1",
        2 => "2",
        3 => "3",
        4 => "4",
        5 => "5",
        6 => "6",
        7 => "7",
        8 => "8",
        _ => "9",
    }
}

/// Decimal rendering of `n`.
pub fn decimal_string(n: u64) -> (s: String)
    ensures
        s@ == decimal(n as nat),
    decreases n,
{
    if n < 10 {
        digit_str(n).to_owned()
    } else {
        let mut s = decimal_string(n / 10);
        s.append(digit_str(n % 10));
        s
    }
}

/// The character has the Unicode `White_Space` property (PropList.txt):
/// U+0009..U+000D, U+0020, U+0085, U+00A0, U+1680, U+2000..U+200A,
/// U+2028, U+2029, U+202F, U+205F and U+3000.
pub open spec fn spec_is_whitespace(c: char) -> bool {
    let u = c as int;
    ||| 0x09 <= u <= 0x0D
    ||| u == 0x20
    ||| u == 0x85
    ||| u == 0xA0
    ||| u == 0x1680
    ||| 0x2000 <= u <= 0x200A
    ||| u == 0x2028
    ||| u == 0x2029
    ||| u == 0x202F
    ||| u == 0x205F
    ||| u == 0x3000
}

/// Trusted: `char::is_whitespace` (std) holds exactly of the characters with
/// the Unicode `White_Space` property.
#[verifier::external_body]
pub(crate) fn is_whitespace(c: char) -> (r: bool)
    ensures
        r == spec_is_whitespace(c),
{
    c.is_whitespace()
}

/// `s` without its leading whitespace.
pub open spec fn trim_start(s: Seq<char>) -> Seq<char>
    decreases s.len(),
{
    if s.len() > 0 && spec_is_whitespace(s[0]) {
        trim_start(s.drop_first())
    } else {
        s
    }
}

/// `s` without its trailing whitespace.
pub open spec fn trim_end(s: Seq<char>) -> Seq<char>
    decreases s.len(),
{
    if s.len() > 0 && spec_is_whitespace(s.last()) {
        trim_end(s.drop_last())
    } else {
        s
    }
}

/// `s` without leading and trailing whitespace.
pub open spec fn trim(s: Seq<char>) -> Seq<char> {
    trim_end(trim_start(s))
}

/// Trusted: `str::trim` (std) removes leading and trailing characters that
/// have the `White_Space` property, returning the rest of `s` unchanged.
#[verifier::external_body]
pub(crate) fn trim_str(s: &str) -> (r: &str)
    ensures
        r@ == trim(s@),
{
    s.trim()
}

/// Trimming the start leaves no leading whitespace.
proof fn lemma_trim_start_clean(s: Seq<char>)
    ensures
        trim_start(s).len() == 0 || !spec_is_whitespace(trim_start(s)[0]),
    decreases s.len(),
{
    if s.len() > 0 && spec_is_whitespace(s[0]) {
        lemma_trim_start_clean(s.drop_first());
    }
}

/// Trimming the end keeps a prefix and leaves no trailing whitespace.
proof fn lemma_trim_end_prefix(s: Seq<char>)
    ensures
        trim_end(s).len() <= s.len(),
        trim_end(s) == s.take(trim_end(s).len() as int),
        trim_end(s).len() == 0 || !spec_is_whitespace(trim_end(s).last()),
    decreases s.len(),
{
    if s.len() > 0 && spec_is_whitespace(s.last()) {
        lemma_trim_end_prefix(s.drop_last());
        let t = trim_end(s.drop_last());
        assert(s.drop_last().take(t.len() as int) =~= s.take(t.len() as int));
    } else {
        assert(s.take(s.len() as int) =~= s);
    }
}

/// Trimmed text is left unchanged by trimming again.
pub proof fn lemma_trim_idempotent(s: Seq<char>)
    ensures
        trim(trim(s)) == trim(s),
{
    let y = trim_start(s);
    let z = trim_end(y);
    lemma_trim_start_clean(s);
    lemma_trim_end_prefix(y);
    if z.len() > 0 {
        assert(z[0] == y[0]);
    }
    assert(trim_start(z) == z);
    assert(trim_end(z) == z);
}

/// Leading whitespace does not change the trimmed text.
pub proof fn lemma_trim_skips_leading_whitespace(s: Seq<char>, a: int, b: int, e: int)
    requires
        0 <= a <= b <= e <= s.len(),
        forall|m: int| a <= m < b ==> spec_is_whitespace(#[trigger] s[m]),
    ensures
        trim(s.subrange(a, e)) == trim(s.subrange(b, e)),
    decreases b - a,
{
    if a < b {
        assert(s.subrange(a, e)[0] == s[a]);
        assert(s.subrange(a, e).drop_first() =~= s.subrange(a + 1, e));
        assert(trim_start(s.subrange(a, e)) == trim_start(s.subrange(a + 1, e)));
        lemma_trim_skips_leading_whitespace(s, a + 1, b, e);
    }
}

/// `a` sorts strictly before `b`: lexicographic order of code points
/// (the order of `str`, whose UTF-8 byte order agrees with it).
pub open spec fn lex_lt(a: Seq<char>, b: Seq<char>) -> bool
    decreases a.len(),
{
    if a.len() == 0 {
        b.len() > 0
    } else if b.len() == 0 {
        false
    } else if a[0] != b[0] {
        (a[0] as int) < (b[0] as int)
    } else {
        lex_lt(a.drop_first(), b.drop_first())
    }
}

/// Nothing sorts before itself.
pub proof fn lemma_lex_irreflexive(a: Seq<char>)
    ensures
        !lex_lt(a, a),
    decreases a.len(),
{
    if a.len() > 0 {
        lemma_lex_irreflexive(a.drop_first());
    }
}

/// Of two different strings, one sorts before the other, and not both ways.
pub proof fn lemma_lex_total(a: Seq<char>, b: Seq<char>)
    ensures
        a != b ==> (lex_lt(a, b) || lex_lt(b, a)),
        !(lex_lt(a, b) && lex_lt(b, a)),
    decreases a.len(),
{
    if a.len() > 0 && b.len() > 0 {
        if a[0] == b[0] {
            lemma_lex_total(a.drop_first(), b.drop_first());
            if a != b {
                if a.drop_first() == b.drop_first() {
                    assert(a =~= seq![a[0]] + a.drop_first());
                    assert(b =~= seq![b[0]] + b.drop_first());
                }
            }
        } else {
            assert((a[0] as int) != (b[0] as int));
        }
    } else if a.len() == 0 && b.len() == 0 {
        assert(a =~= b);
    }
}

/// The order is transitive.
pub proof fn lemma_lex_transitive(a: Seq<char>, b: Seq<char>, c: Seq<char>)
    requires
        lex_lt(a, b),
        lex_lt(b, c),
    ensures
        lex_lt(a, c),
    decreases a.len(),
{
    if a.len() > 0 && b.len() > 0 && c.len() > 0 {
        if a[0] == b[0] && b[0] == c[0] {
            lemma_lex_transitive(a.drop_first(), b.drop_first(), c.drop_first());
        }
    }
}

/// Whether `a` sorts strictly before `b` (see [`lex_lt`]).
pub fn str_lt(a: &str, b: &str) -> (r: bool)
    ensures
        r == lex_lt(a@, b@),
{
    let ca = chars_of(a);
    let cb = chars_of(b);
    let mut i: usize = 0;
    assert(ca@.skip(0) =~= ca@);
    assert(cb@.skip(0) =~= cb@);
    while i < ca.len() && i < cb.len()
        invariant
            i <= ca.len(),
            i <= cb.len(),
            lex_lt(a@, b@) == lex_lt(ca@.skip(i as int), cb@.skip(i as int)),
            ca@ == a@,
            cb@ == b@,
        decreases ca.len() - i,
    {
        assert(ca@.skip(i as int)[0] == ca@[i as int]);
        assert(cb@.skip(i as int)[0] == cb@[i as int]);
        if ca[i] != cb[i] {
            return ca[i] < cb[i];
        }
        assert(ca@.skip(i as int).drop_first() =~= ca@.skip(i + 1));
        assert(cb@.skip(i as int).drop_first() =~= cb@.skip(i + 1));
        i = i + 1;
    }
    assert(ca@.skip(i as int).len() == ca.len() - i);
    assert(cb@.skip(i as int).len() == cb.len() - i);
    ca.len() == i && i < cb.len()
}

} // verus!
