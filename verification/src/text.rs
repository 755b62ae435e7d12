//! Character-level helpers: whitespace trimming, ASCII case folding, and
//! quote stripping, with specification functions over `Seq<char>`.

use vstd::prelude::*;
use vstd::string::StrSliceExecFns;

verus! {

/// Whitespace as far as header-value trimming is concerned.
pub open spec fn is_ws(c: char) -> bool {
    c == ' ' || c == '\t' || c == '\n' || c == '\r'
}

/// Executable mirror of [`is_ws`].
pub fn is_ws_char(c: char) -> (r: bool)
    ensures
        r == is_ws(c),
{
    c == ' ' || c == '\t' || c == '\n' || c == '\r'
}

/// ASCII lower-casing of a single character; everything outside `A`..`Z` is
/// left unchanged.
pub open spec fn lower_char(c: char) -> char {
    if 'A' <= c && c <= 'Z' {
        ((c as u32) + 32) as char
    } else {
        c
    }
}

/// A whole sequence, ASCII lower-cased.
pub open spec fn lower(s: Seq<char>) -> Seq<char> {
    s.map_values(|c: char| lower_char(c))
}

/// Executable mirror of [`lower_char`].
pub fn lower_char_exec(c: char) -> (r: char)
    ensures
        r == lower_char(c),
{
    match c {
        'A' => 'a',
        'B' => 'b',
        'C' => 'c',
        'D' => 'd',
        'E' => 'e',
        'F' => 'f',
        'G' => 'g',
        'H' => 'h',
        'I' => 'i',
        'J' => 'j',
        'K' => 'k',
        'L' => 'l',
        'M' => 'm',
        'N' => 'n',
        'O' => 'o',
        'P' => 'p',
        'Q' => 'q',
        'R' => 'r',
        'S' => 's',
        'T' => 't',
        'U' => 'u',
        'V' => 'v',
        'W' => 'w',
        'X' => 'x',
        'Y' => 'y',
        'Z' => 'z',
        _ => c,
    }
}

/// Leading whitespace removed.
pub open spec fn trim_start(s: Seq<char>) -> Seq<char>
    decreases s.len(),
{
    if s.len() > 0 && is_ws(s[0]) {
        trim_start(s.drop_first())
    } else {
        s
    }
}

/// Trailing whitespace removed.
pub open spec fn trim_end(s: Seq<char>) -> Seq<char>
    decreases s.len(),
{
    if s.len() > 0 && is_ws(s[s.len() - 1]) {
        trim_end(s.drop_last())
    } else {
        s
    }
}

/// Surrounding whitespace removed.
pub open spec fn trim(s: Seq<char>) -> Seq<char> {
    trim_end(trim_start(s))
}

/// One layer of double quotes removed from each end independently, as in the
/// permissive header grammar: an unbalanced quote is still stripped.
pub open spec fn strip_quotes(s: Seq<char>) -> Seq<char> {
    let a = if s.len() > 0 && s[0] == '"' {
        s.drop_first()
    } else {
        s
    };
    if a.len() > 0 && a[a.len() - 1] == '"' {
        a.drop_last()
    } else {
        a
    }
}

/// Trim whitespace, then strip one layer of quote marks.
pub open spec fn unquote_spec(s: Seq<char>) -> Seq<char> {
    strip_quotes(trim(s))
}

/// If everything before `i` is whitespace and either `i` is the end or `s[i]`
/// is not, then trimming the front keeps exactly the tail from `i` on.
pub proof fn lemma_trim_start_at(s: Seq<char>, i: int)
    requires
        0 <= i <= s.len(),
        forall|k: int| 0 <= k < i ==> is_ws(s[k]),
        i == s.len() || !is_ws(s[i]),
    ensures
        trim_start(s) == s.subrange(i, s.len() as int),
    decreases i,
{
    if i == 0 {
        assert(s.subrange(0, s.len() as int) =~= s);
    } else {
        lemma_trim_start_at(s.drop_first(), i - 1);
        assert(s.drop_first().subrange(i - 1, s.drop_first().len() as int) =~= s.subrange(
            i,
            s.len() as int,
        ));
    }
}

/// If everything from `j` on is whitespace and either `j` is the start or
/// `s[j - 1]` is not, then trimming the back keeps exactly the head up to `j`.
pub proof fn lemma_trim_end_at(s: Seq<char>, j: int)
    requires
        0 <= j <= s.len(),
        forall|k: int| j <= k < s.len() ==> is_ws(s[k]),
        j == 0 || !is_ws(s[j - 1]),
    ensures
        trim_end(s) == s.subrange(0, j),
    decreases s.len() - j,
{
    if j == s.len() {
        assert(s.subrange(0, j) =~= s);
    } else {
        lemma_trim_end_at(s.drop_last(), j);
        assert(s.drop_last().subrange(0, j) =~= s.subrange(0, j));
    }
}

/// Trimming a subrange whose interior bounds were found by scanning: all
/// whitespace before `a` and from `b` on, non-whitespace just inside.
pub proof fn lemma_trim_bounds(s: Seq<char>, from: int, to: int, a: int, b: int)
    requires
        0 <= from <= a <= b <= to <= s.len(),
        forall|k: int| from <= k < a ==> is_ws(s[k]),
        forall|k: int| b <= k < to ==> is_ws(s[k]),
        a == b || (!is_ws(s[a]) && !is_ws(s[b - 1])),
    ensures
        trim(s.subrange(from, to)) == s.subrange(a, b),
{
    let sub = s.subrange(from, to);
    if a == b {
        lemma_trim_start_at(sub, to - from);
        assert(trim_start(sub) =~= Seq::<char>::empty());
        lemma_trim_end_at(Seq::<char>::empty(), 0);
        assert(s.subrange(a, b) =~= Seq::<char>::empty());
    } else {
        lemma_trim_start_at(sub, a - from);
        let mid = sub.subrange(a - from, to - from);
        lemma_trim_end_at(mid, b - a);
        assert(mid.subrange(0, b - a) =~= s.subrange(a, b));
    }
}

/// All characters of a sequence are whitespace.
pub open spec fn all_ws(s: Seq<char>) -> bool {
    forall|k: int| 0 <= k < s.len() ==> is_ws(#[trigger] s[k])
}

/// Lower-casing never makes a character whitespace, nor stops it being so.
pub proof fn lemma_ws_lower(c: char)
    ensures
        is_ws(lower_char(c)) == is_ws(c),
{
}

/// A leading run of whitespace is dropped whole by `trim_start`.
pub proof fn lemma_trim_start_ws_prefix(p: Seq<char>, x: Seq<char>)
    requires
        all_ws(p),
    ensures
        trim_start(p + x) == trim_start(x),
    decreases p.len(),
{
    if p.len() == 0 {
        assert(p + x =~= x);
    } else {
        assert((p + x)[0] == p[0]);
        assert((p + x).drop_first() =~= p.drop_first() + x);
        assert(all_ws(p.drop_first()));
        lemma_trim_start_ws_prefix(p.drop_first(), x);
    }
}

/// A trailing run of whitespace is dropped whole by `trim_end`.
pub proof fn lemma_trim_end_ws_suffix(x: Seq<char>, q: Seq<char>)
    requires
        all_ws(q),
    ensures
        trim_end(x + q) == trim_end(x),
    decreases q.len(),
{
    if q.len() == 0 {
        assert(x + q =~= x);
    } else {
        assert((x + q)[(x + q).len() - 1] == q[q.len() - 1]);
        assert((x + q).drop_last() =~= x + q.drop_last());
        assert(all_ws(q.drop_last()));
        lemma_trim_end_ws_suffix(x, q.drop_last());
    }
}

/// An all-whitespace sequence trims from the front to nothing.
pub proof fn lemma_trim_start_all_ws(z: Seq<char>)
    requires
        all_ws(z),
    ensures
        trim_start(z) == Seq::<char>::empty(),
    decreases z.len(),
{
    if z.len() > 0 {
        assert(all_ws(z.drop_first()));
        lemma_trim_start_all_ws(z.drop_first());
    } else {
        assert(z =~= Seq::<char>::empty());
    }
}

/// Appending trailing whitespace changes nothing about the trim of a
/// sequence.
pub proof fn lemma_trim_ws_suffix(x: Seq<char>, q: Seq<char>)
    requires
        all_ws(q),
    ensures
        trim_end(trim_start(x + q)) == trim_end(trim_start(x)),
    decreases x.len(),
{
    if x.len() == 0 {
        assert(x + q =~= q);
        lemma_trim_start_all_ws(q);
        lemma_trim_start_all_ws(x);
    } else if is_ws(x[0]) {
        assert((x + q)[0] == x[0]);
        assert((x + q).drop_first() =~= x.drop_first() + q);
        lemma_trim_ws_suffix(x.drop_first(), q);
    } else {
        assert((x + q)[0] == x[0]);
        assert(trim_start(x + q) == x + q);
        assert(trim_start(x) == x);
        lemma_trim_end_ws_suffix(x, q);
    }
}

/// Surrounding whitespace never changes what a sequence trims to.
pub proof fn lemma_trim_padding(p: Seq<char>, x: Seq<char>, q: Seq<char>)
    requires
        all_ws(p),
        all_ws(q),
    ensures
        trim(p + x + q) == trim(x),
{
    assert(p + x + q =~= p + (x + q));
    lemma_trim_start_ws_prefix(p, x + q);
    lemma_trim_ws_suffix(x, q);
}

/// Lower-casing twice is lower-casing once.
pub proof fn lemma_lower_idempotent(s: Seq<char>)
    ensures
        lower(lower(s)) == lower(s),
{
    assert(lower(lower(s)) =~= lower(s));
}

/// Sequences equal up to case have front trims equal up to case.
pub proof fn lemma_lower_trim_start(a: Seq<char>, b: Seq<char>)
    requires
        lower(a) == lower(b),
    ensures
        lower(trim_start(a)) == lower(trim_start(b)),
    decreases a.len(),
{
    assert(a.len() == b.len()) by {
        assert(lower(a).len() == a.len());
        assert(lower(b).len() == b.len());
    }
    if a.len() > 0 {
        assert(lower_char(a[0]) == lower_char(b[0])) by {
            assert(lower(a)[0] == lower_char(a[0]));
            assert(lower(b)[0] == lower_char(b[0]));
        }
        lemma_ws_lower(a[0]);
        lemma_ws_lower(b[0]);
        if is_ws(a[0]) {
            assert(lower(a.drop_first()) =~= lower(a).drop_first());
            assert(lower(b.drop_first()) =~= lower(b).drop_first());
            lemma_lower_trim_start(a.drop_first(), b.drop_first());
        }
    }
}

/// Sequences equal up to case have back trims equal up to case.
pub proof fn lemma_lower_trim_end(a: Seq<char>, b: Seq<char>)
    requires
        lower(a) == lower(b),
    ensures
        lower(trim_end(a)) == lower(trim_end(b)),
    decreases a.len(),
{
    assert(a.len() == b.len()) by {
        assert(lower(a).len() == a.len());
        assert(lower(b).len() == b.len());
    }
    if a.len() > 0 {
        let i = a.len() - 1;
        assert(lower_char(a[i]) == lower_char(b[i])) by {
            assert(lower(a)[i] == lower_char(a[i]));
            assert(lower(b)[i] == lower_char(b[i]));
        }
        lemma_ws_lower(a[i]);
        lemma_ws_lower(b[i]);
        if is_ws(a[i]) {
            assert(lower(a.drop_last()) =~= lower(a).drop_last());
            assert(lower(b.drop_last()) =~= lower(b).drop_last());
            lemma_lower_trim_end(a.drop_last(), b.drop_last());
        }
    }
}

/// Sequences equal up to case trim to sequences equal up to case.
pub proof fn lemma_lower_trim(a: Seq<char>, b: Seq<char>)
    requires
        lower(a) == lower(b),
    ensures
        lower(trim(a)) == lower(trim(b)),
{
    lemma_lower_trim_start(a, b);
    lemma_lower_trim_end(trim_start(a), trim_start(b));
}

/// Bounds of `s[from..to]` with surrounding whitespace removed: scans forward
/// for the first non-whitespace character and backward for the last.
pub fn trim_bounds(s: &str, from: usize, to: usize) -> (r: (usize, usize))
    requires
        from <= to <= s@.len(),
    ensures
        from <= r.0 <= r.1 <= to,
        trim(s@.subrange(from as int, to as int)) == s@.subrange(r.0 as int, r.1 as int),
{
    let mut a: usize = from;
    while a < to && is_ws_char(s.get_char(a))
        invariant
            from <= a <= to <= s@.len(),
            forall|k: int| from <= k < a ==> is_ws(s@[k]),
        decreases to - a,
    {
        a = a + 1;
    }
    let mut b: usize = to;
    while b > a && is_ws_char(s.get_char(b - 1))
        invariant
            a <= b <= to <= s@.len(),
            forall|k: int| b <= k < to ==> is_ws(s@[k]),
        decreases b,
    {
        b = b - 1;
    }
    proof {
        lemma_trim_bounds(s@, from as int, to as int, a as int, b as int);
    }
    (a, b)
}

/// Trim whitespace then one layer of quote marks.
pub fn unquote(val: &str) -> (r: &str)
    ensures
        r@ == unquote_spec(val@),
{
    let len = val.unicode_len();
    let (mut a, mut b) = trim_bounds(val, 0, len);
    let ghost t = trim(val@.subrange(0, val@.len() as int));
    if a < b && val.get_char(a) == '"' {
        a = a + 1;
        proof {
            assert(t.drop_first() =~= val@.subrange(a as int, b as int));
        }
    }
    let ghost u = val@.subrange(a as int, b as int);
    if a < b && val.get_char(b - 1) == '"' {
        b = b - 1;
        proof {
            assert(u.drop_last() =~= val@.subrange(a as int, b as int));
        }
    }
    proof {
        assert(val@.subrange(0, val@.len() as int) =~= val@);
    }
    val.substring_char(a, b)
}

} // verus!
