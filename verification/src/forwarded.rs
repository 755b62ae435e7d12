//! Parsing of the RFC 7239 `Forwarded` header: a raw header value is split
//! into tokens on `;` and `,`, each token is split once on `=` into a name
//! and a value (tokens without `=` are discarded), names are matched
//! case-insensitively, values are unquoted, and for each parameter name the
//! first occurrence across the whole token stream wins.

use vstd::prelude::*;

use crate::text::{lower, lower_char_exec, trim, trim_bounds, unquote_spec};
use vstd::string::StrSliceExecFns;

verus! {

/// The characters that separate tokens in a `Forwarded` header value.
///
/// The wire grammar splits on `;` into element groups and each group on `,`
/// into repetitions; flattened, that is one split on either character
/// ([`lemma_group_tokens_are_tokens`]), so the token stream is defined by
/// one split on this set.
pub open spec fn is_sep(c: char) -> bool {
    c == ';' || c == ','
}

/// The token stream of a raw header value: maximal runs between separators,
/// in order. Always non-empty; empty runs yield empty tokens.
pub open spec fn tokens_of(s: Seq<char>) -> Seq<Seq<char>>
    decreases s.len(),
{
    if s.len() == 0 {
        seq![Seq::<char>::empty()]
    } else if is_sep(s[0]) {
        seq![Seq::<char>::empty()] + tokens_of(s.drop_first())
    } else {
        let rest = tokens_of(s.drop_first());
        seq![seq![s[0]] + rest[0]] + rest.drop_first()
    }
}

/// A split on a single character: maximal runs between its occurrences.
pub open spec fn split_on(s: Seq<char>, c: char) -> Seq<Seq<char>>
    decreases s.len(),
{
    if s.len() == 0 {
        seq![Seq::<char>::empty()]
    } else if s[0] == c {
        seq![Seq::<char>::empty()] + split_on(s.drop_first(), c)
    } else {
        let rest = split_on(s.drop_first(), c);
        seq![seq![s[0]] + rest[0]] + rest.drop_first()
    }
}

/// A single-character split yields at least one run.
pub proof fn lemma_split_on_len(s: Seq<char>, c: char)
    ensures
        split_on(s, c).len() >= 1,
    decreases s.len(),
{
    if s.len() > 0 {
        lemma_split_on_len(s.drop_first(), c);
    }
}

/// Element groups, each split again on `,`, concatenated in order.
pub open spec fn groups_flat(groups: Seq<Seq<char>>) -> Seq<Seq<char>>
    decreases groups.len(),
{
    if groups.len() == 0 {
        Seq::empty()
    } else {
        split_on(groups[0], ',') + groups_flat(groups.drop_first())
    }
}

/// The two-stage reading of the wire grammar: the raw value split on `;`
/// into element groups, each group split again on `,`, in order.
pub open spec fn group_tokens(s: Seq<char>) -> Seq<Seq<char>> {
    groups_flat(split_on(s, ';'))
}

/// The two-stage split and the one split on either separator agree, so
/// [`tokens_of`] is a faithful statement of the grouped grammar.
pub proof fn lemma_group_tokens_are_tokens(s: Seq<char>)
    ensures
        group_tokens(s) == tokens_of(s),
    decreases s.len(),
{
    if s.len() == 0 {
        let groups = seq![Seq::<char>::empty()];
        assert(groups.drop_first() =~= Seq::<Seq<char>>::empty());
        assert(groups_flat(groups.drop_first()) =~= Seq::<Seq<char>>::empty());
        assert(group_tokens(s) =~~= seq![Seq::<char>::empty()]);
    } else if s[0] == ';' {
        lemma_group_tokens_are_tokens(s.drop_first());
        let gr = split_on(s.drop_first(), ';');
        let groups = seq![Seq::<char>::empty()] + gr;
        assert(groups[0] == Seq::<char>::empty());
        assert(groups.drop_first() =~= gr);
        assert(group_tokens(s) =~~= seq![Seq::<char>::empty()] + group_tokens(s.drop_first()));
        assert(tokens_of(s) =~~= seq![Seq::<char>::empty()] + tokens_of(s.drop_first()));
    } else {
        lemma_group_tokens_are_tokens(s.drop_first());
        lemma_split_on_len(s.drop_first(), ';');
        let gr = split_on(s.drop_first(), ';');
        let head = seq![s[0]] + gr[0];
        let groups = seq![head] + gr.drop_first();
        assert(split_on(s, ';') == groups);
        assert(groups[0] == head);
        assert(groups.drop_first() =~= gr.drop_first());
        let tail_flat = groups_flat(gr.drop_first());
        assert(group_tokens(s) == split_on(head, ',') + tail_flat);
        assert(group_tokens(s.drop_first()) == split_on(gr[0], ',') + tail_flat);
        assert(head[0] == s[0]);
        assert(head.drop_first() =~= gr[0]);
        if s[0] == ',' {
            assert(split_on(head, ',') == seq![Seq::<char>::empty()] + split_on(gr[0], ','));
            assert(group_tokens(s) =~~= seq![Seq::<char>::empty()] + (split_on(gr[0], ',')
                + tail_flat));
            assert(tokens_of(s) =~~= seq![Seq::<char>::empty()] + tokens_of(s.drop_first()));
        } else {
            let h = split_on(gr[0], ',');
            lemma_split_on_len(gr[0], ',');
            assert(split_on(head, ',') == seq![seq![s[0]] + h[0]] + h.drop_first());
            let rest = tokens_of(s.drop_first());
            assert(rest == h + tail_flat);
            assert(rest[0] == h[0]);
            assert(rest.drop_first() =~= h.drop_first() + tail_flat);
            assert(tokens_of(s) =~~= seq![seq![s[0]] + h[0]] + (h.drop_first() + tail_flat));
            assert(group_tokens(s) =~~= seq![seq![s[0]] + h[0]] + (h.drop_first() + tail_flat));
        }
    }
}

/// A token stream holds at least one token.
pub proof fn lemma_tokens_len(s: Seq<char>)
    ensures
        tokens_of(s).len() >= 1,
    decreases s.len(),
{
    if s.len() > 0 {
        lemma_tokens_len(s.drop_first());
    }
}

/// Split a token once on its first `=`: `None` if it has none.
pub open spec fn split_eq(t: Seq<char>) -> Option<(Seq<char>, Seq<char>)>
    decreases t.len(),
{
    if t.len() == 0 {
        None
    } else if t[0] == '=' {
        Some((Seq::<char>::empty(), t.drop_first()))
    } else {
        match split_eq(t.drop_first()) {
            None => None,
            Some((n, v)) => Some((seq![t[0]] + n, v)),
        }
    }
}

/// What a raw token contributes: its parameter name, trimmed and
/// lower-cased, and its value, unquoted. Tokens without `=` are malformed
/// and contribute nothing.
pub open spec fn param_of(tok: Seq<char>) -> Option<(Seq<char>, Seq<char>)> {
    match split_eq(trim(tok)) {
        None => None,
        Some((n, v)) => Some((lower(trim(n)), unquote_spec(v))),
    }
}

/// The value a single token yields for the parameter `name`, if any.
pub open spec fn match_one(p: Option<(Seq<char>, Seq<char>)>, name: Seq<char>) -> Option<
    Seq<char>,
> {
    match p {
        Some((n, v)) => if n == name {
            Some(v)
        } else {
            None
        },
        None => None,
    }
}

/// The first of two optional values, when it is there; else the second.
pub open spec fn opt_or<T>(a: Option<T>, b: Option<T>) -> Option<T> {
    if a is Some {
        a
    } else {
        b
    }
}

/// The value of the first token in the stream that names `name`, with
/// malformed tokens and other names passed over.
pub open spec fn first_param(toks: Seq<Seq<char>>, name: Seq<char>) -> Option<Seq<char>>
    decreases toks.len(),
{
    if toks.len() == 0 {
        None
    } else {
        opt_or(match_one(param_of(toks[0]), name), first_param(toks.drop_first(), name))
    }
}

/// Unfolding `first_param` over an explicit head token.
pub proof fn lemma_first_param_cons(t: Seq<char>, rest: Seq<Seq<char>>, name: Seq<char>)
    ensures
        first_param(seq![t] + rest, name) == opt_or(
            match_one(param_of(t), name),
            first_param(rest, name),
        ),
{
    let toks = seq![t] + rest;
    assert(toks[0] == t);
    assert(toks.drop_first() =~= rest);
}

/// First-wins across concatenated token streams: a parameter found in the
/// earlier stream shadows every later occurrence.
pub proof fn lemma_first_param_concat(t1: Seq<Seq<char>>, t2: Seq<Seq<char>>, name: Seq<char>)
    ensures
        first_param(t1 + t2, name) == opt_or(first_param(t1, name), first_param(t2, name)),
    decreases t1.len(),
{
    if t1.len() == 0 {
        assert(t1 + t2 =~= t2);
    } else {
        lemma_first_param_concat(t1.drop_first(), t2, name);
        assert((t1 + t2).drop_first() =~= t1.drop_first() + t2);
        assert((t1 + t2)[0] == t1[0]);
    }
}

/// If the first separator of `s` sits at `i`, the token stream is the run
/// before it followed by the token stream of what comes after it.
pub proof fn lemma_tokens_first_sep(s: Seq<char>, i: int)
    requires
        0 <= i < s.len(),
        forall|k: int| 0 <= k < i ==> !is_sep(s[k]),
        is_sep(s[i]),
    ensures
        tokens_of(s) == seq![s.take(i)] + tokens_of(s.skip(i + 1)),
    decreases i,
{
    if i == 0 {
        assert(s.take(0) =~= Seq::<char>::empty());
        assert(s.skip(1) =~= s.drop_first());
    } else {
        lemma_tokens_first_sep(s.drop_first(), i - 1);
        lemma_tokens_len(s.drop_first().skip(i));
        let rest = tokens_of(s.drop_first());
        assert(s.drop_first().take(i - 1) =~= s.take(i).drop_first());
        assert(rest[0] == s.take(i).drop_first());
        assert(seq![s[0]] + s.take(i).drop_first() =~= s.take(i));
        assert(s.drop_first().skip(i) =~= s.skip(i + 1));
        assert(rest.drop_first() =~= tokens_of(s.skip(i + 1)));
        assert(tokens_of(s) =~~= seq![s.take(i)] + tokens_of(s.skip(i + 1)));
    }
}

/// A value without separators is a single token.
pub proof fn lemma_tokens_no_sep(s: Seq<char>)
    requires
        forall|k: int| 0 <= k < s.len() ==> !is_sep(s[k]),
    ensures
        tokens_of(s) == seq![s],
    decreases s.len(),
{
    if s.len() == 0 {
        assert(tokens_of(s) =~~= seq![s]);
    } else {
        lemma_tokens_no_sep(s.drop_first());
        let rest = tokens_of(s.drop_first());
        assert(rest[0] == s.drop_first());
        assert(seq![s[0]] + s.drop_first() =~= s);
        assert(rest.drop_first() =~= Seq::<Seq<char>>::empty());
        assert(tokens_of(s) =~~= seq![s]);
    }
}

/// If the first `=` of `t` sits at `i`, splitting takes what stands before
/// and after it.
pub proof fn lemma_split_eq_at(t: Seq<char>, i: int)
    requires
        0 <= i < t.len(),
        forall|k: int| 0 <= k < i ==> t[k] != '=',
        t[i] == '=',
    ensures
        split_eq(t) == Some((t.take(i), t.skip(i + 1))),
    decreases i,
{
    if i == 0 {
        assert(t.take(0) =~= Seq::<char>::empty());
        assert(t.skip(1) =~= t.drop_first());
    } else {
        lemma_split_eq_at(t.drop_first(), i - 1);
        assert(t.drop_first().take(i - 1) =~= t.take(i).drop_first());
        assert(seq![t[0]] + t.take(i).drop_first() =~= t.take(i));
        assert(t.drop_first().skip(i) =~= t.skip(i + 1));
    }
}

/// A token without `=` is malformed.
pub proof fn lemma_split_eq_none(t: Seq<char>)
    requires
        forall|k: int| 0 <= k < t.len() ==> t[k] != '=',
    ensures
        split_eq(t) is None,
    decreases t.len(),
{
    if t.len() > 0 {
        lemma_split_eq_none(t.drop_first());
    }
}

/// First index at or after `from` holding a separator, or the end.
fn find_sep(s: &str, from: usize) -> (r: usize)
    requires
        from <= s@.len(),
    ensures
        from <= r <= s@.len(),
        forall|k: int| from <= k < r ==> !is_sep(s@[k]),
        r < s@.len() ==> is_sep(s@[r as int]),
{
    let len = s.unicode_len();
    let mut i: usize = from;
    while i < len
        invariant
            from <= i <= len == s@.len(),
            forall|k: int| from <= k < i ==> !is_sep(s@[k]),
        decreases len - i,
    {
        let c = s.get_char(i);
        if c == ';' || c == ',' {
            return i;
        }
        i = i + 1;
    }
    i
}

/// First index in `[from, to)` holding `c`, or `to`.
fn find_char(s: &str, from: usize, to: usize, c: char) -> (r: usize)
    requires
        from <= to <= s@.len(),
    ensures
        from <= r <= to,
        forall|k: int| from <= k < r ==> s@[k] != c,
        r < to ==> s@[r as int] == c,
{
    let mut i: usize = from;
    while i < to
        invariant
            from <= i <= to <= s@.len(),
            forall|k: int| from <= k < i ==> s@[k] != c,
        decreases to - i,
    {
        if s.get_char(i) == c {
            return i;
        }
        i = i + 1;
    }
    i
}

/// Whether `s[from..to]`, ASCII lower-cased, equals `lit`.
pub fn eq_lower(s: &str, from: usize, to: usize, lit: &str) -> (r: bool)
    requires
        from <= to <= s@.len(),
    ensures
        r == (lower(s@.subrange(from as int, to as int)) == lit@),
{
    let ghost sub = s@.subrange(from as int, to as int);
    let n = to - from;
    if n != lit.unicode_len() {
        proof {
            assert(lower(sub).len() == sub.len());
        }
        return false;
    }
    let mut k: usize = 0;
    while k < n
        invariant
            0 <= k <= n,
            from + n == to,
            to <= s@.len(),
            n == lit@.len(),
            sub == s@.subrange(from as int, to as int),
            forall|m: int| 0 <= m < k ==> lower(sub)[m] == lit@[m],
        decreases n - k,
    {
        let c = lower_char_exec(s.get_char(from + k));
        let d = lit.get_char(k);
        proof {
            assert(lower(sub)[k as int] == crate::text::lower_char(sub[k as int]));
            assert(sub[k as int] == s@[from + k]);
        }
        if c != d {
            proof {
                assert(lower(sub)[k as int] != lit@[k as int]);
            }
            return false;
        }
        k = k + 1;
    }
    proof {
        assert(lower(sub) =~= lit@);
    }
    true
}

/// `s[from..to]` with whitespace trimmed and one layer of quotes stripped,
/// as an owned string.
fn unquote_range(s: &str, from: usize, to: usize) -> (r: String)
    requires
        from <= to <= s@.len(),
    ensures
        r@ == unquote_spec(s@.subrange(from as int, to as int)),
{
    let (mut a, mut b) = trim_bounds(s, from, to);
    let ghost t = trim(s@.subrange(from as int, to as int));
    if a < b && s.get_char(a) == '"' {
        a = a + 1;
        proof {
            assert(t.drop_first() =~= s@.subrange(a as int, b as int));
        }
    }
    let ghost u = s@.subrange(a as int, b as int);
    if a < b && s.get_char(b - 1) == '"' {
        b = b - 1;
        proof {
            assert(u.drop_last() =~= s@.subrange(a as int, b as int));
        }
    }
    s.substring_char(a, b).to_owned()
}

/// The view of an optional owned string.
pub open spec fn ov(o: Option<String>) -> Option<Seq<char>> {
    match o {
        Some(s) => Some(s@),
        None => None,
    }
}

/// Feed one raw token into the three tracked parameters, first value wins.
fn apply_token(
    s: &str,
    ts: usize,
    te: usize,
    fwd_for: &mut Option<String>,
    fwd_proto: &mut Option<String>,
    fwd_host: &mut Option<String>,
)
    requires
        ts <= te <= s@.len(),
    ensures
        ov(*final(fwd_for)) == opt_or(
            ov(*old(fwd_for)),
            match_one(param_of(s@.subrange(ts as int, te as int)), "for"@),
        ),
        ov(*final(fwd_proto)) == opt_or(
            ov(*old(fwd_proto)),
            match_one(param_of(s@.subrange(ts as int, te as int)), "proto"@),
        ),
        ov(*final(fwd_host)) == opt_or(
            ov(*old(fwd_host)),
            match_one(param_of(s@.subrange(ts as int, te as int)), "host"@),
        ),
{
    let ghost tok = s@.subrange(ts as int, te as int);
    let (a, b) = trim_bounds(s, ts, te);
    let ghost t = trim(tok);
    let e = find_char(s, a, b, '=');
    if e == b {
        proof {
            lemma_split_eq_none(t);
        }
        return ;
    }
    proof {
        lemma_split_eq_at(t, e - a);
        assert(t.take(e - a) =~= s@.subrange(a as int, e as int));
        assert(t.skip(e - a + 1) =~= s@.subrange(e + 1, b as int));
    }
    let (na, nb) = trim_bounds(s, a, e);
    let ghost pname = lower(trim(s@.subrange(a as int, e as int)));
    assert(param_of(tok) == Some((pname, unquote_spec(s@.subrange(e + 1, b as int)))));
    let is_for = eq_lower(s, na, nb, "for");
    let is_proto = eq_lower(s, na, nb, "proto");
    let is_host = eq_lower(s, na, nb, "host");
    if is_for && fwd_for.is_none() {
        let v = unquote_range(s, e + 1, b);
        *fwd_for = Some(v);
    }
    if is_proto && fwd_proto.is_none() {
        let v = unquote_range(s, e + 1, b);
        *fwd_proto = Some(v);
    }
    if is_host && fwd_host.is_none() {
        let v = unquote_range(s, e + 1, b);
        *fwd_host = Some(v);
    }
}

/// Scan one raw `Forwarded` header value, folding its tokens into the three
/// tracked parameters; values already found earlier stay.
pub fn scan_forwarded_value(
    s: &str,
    fwd_for: &mut Option<String>,
    fwd_proto: &mut Option<String>,
    fwd_host: &mut Option<String>,
)
    ensures
        ov(*final(fwd_for)) == opt_or(
            ov(*old(fwd_for)),
            first_param(tokens_of(s@), "for"@),
        ),
        ov(*final(fwd_proto)) == opt_or(
            ov(*old(fwd_proto)),
            first_param(tokens_of(s@), "proto"@),
        ),
        ov(*final(fwd_host)) == opt_or(
            ov(*old(fwd_host)),
            first_param(tokens_of(s@), "host"@),
        ),
{
    let len = s.unicode_len();
    let mut pos: usize = 0;
    let mut done = false;
    proof {
        assert(s@.subrange(0, len as int) =~= s@);
    }
    while !done
        invariant
            0 <= pos <= len == s@.len(),
            opt_or(
                ov(*fwd_for),
                if done {
                    None
                } else {
                    first_param(tokens_of(s@.subrange(pos as int, len as int)), "for"@)
                },
            ) == opt_or(ov(*old(fwd_for)), first_param(tokens_of(s@), "for"@)),
            opt_or(
                ov(*fwd_proto),
                if done {
                    None
                } else {
                    first_param(tokens_of(s@.subrange(pos as int, len as int)), "proto"@)
                },
            ) == opt_or(ov(*old(fwd_proto)), first_param(tokens_of(s@), "proto"@)),
            opt_or(
                ov(*fwd_host),
                if done {
                    None
                } else {
                    first_param(tokens_of(s@.subrange(pos as int, len as int)), "host"@)
                },
            ) == opt_or(ov(*old(fwd_host)), first_param(tokens_of(s@), "host"@)),
        decreases len - pos, (if done { 0int } else { 1int }),
    {
        let ghost suffix = s@.subrange(pos as int, len as int);
        let end = find_sep(s, pos);
        let ghost tok = s@.subrange(pos as int, end as int);
        proof {
            assert(s@.subrange(0, s@.len() as int) =~= s@);
            assert(suffix.take(end - pos) =~= tok);
            if end < len {
                assert(forall|k: int|
                    0 <= k < end - pos ==> suffix[k] == s@[pos + k] && !is_sep(suffix[k]));
                lemma_tokens_first_sep(suffix, end - pos);
                assert(suffix.skip(end - pos + 1) =~= s@.subrange(end + 1, len as int));
                lemma_first_param_cons(tok, tokens_of(s@.subrange(end + 1, len as int)), "for"@);
                lemma_first_param_cons(tok, tokens_of(s@.subrange(end + 1, len as int)), "proto"@);
                lemma_first_param_cons(tok, tokens_of(s@.subrange(end + 1, len as int)), "host"@);
            } else {
                assert(forall|k: int|
                    0 <= k < suffix.len() ==> suffix[k] == s@[pos + k] && !is_sep(suffix[k]));
                lemma_tokens_no_sep(suffix);
                assert(suffix =~= tok);
                lemma_first_param_cons(tok, Seq::<Seq<char>>::empty(), "for"@);
                lemma_first_param_cons(tok, Seq::<Seq<char>>::empty(), "proto"@);
                lemma_first_param_cons(tok, Seq::<Seq<char>>::empty(), "host"@);
                assert(seq![tok] + Seq::<Seq<char>>::empty() =~= seq![tok]);
            }
        }
        apply_token(s, pos, end, fwd_for, fwd_proto, fwd_host);
        if end < len {
            pos = end + 1;
        } else {
            done = true;
        }
    }
}

} // verus!
