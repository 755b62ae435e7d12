//! The general laws of resolution, stated and proved over the specification
//! functions that the executable contracts use.

use vstd::prelude::*;

use crate::forwarded::{
    first_param, lemma_first_param_concat, lemma_first_param_cons, match_one, opt_or, param_of,
    split_eq, tokens_of,
};
use crate::info::{
    forwarded_for, forwarded_proto, fwd_param_of, fwd_values, header_first, legacy_value,
    resolved_host, resolved_realip, resolved_scheme, CfgView, InfoView, ReqView,
    is_resolution_of,
};
use crate::text::{all_ws, lemma_lower_trim, lemma_trim_padding, lower, trim, unquote_spec};

verus! {

/// No `Forwarded` and no `X-Forwarded-*` header is present.
pub open spec fn no_proxy_headers(r: ReqView) -> bool {
    forall|i: int|
        0 <= i < r.headers.len() ==> {
            let n = lower(#[trigger] r.headers[i].0);
            n != "forwarded"@ && n != "x-forwarded-for"@ && n != "x-forwarded-host"@
                && n != "x-forwarded-proto"@
        }
}

/// A header list with no `Forwarded` header contributes no raw values.
pub proof fn lemma_fwd_values_absent(h: Seq<(Seq<char>, Seq<char>)>)
    requires
        forall|i: int| 0 <= i < h.len() ==> lower(#[trigger] h[i].0) != "forwarded"@,
    ensures
        fwd_values(h) == Seq::<Seq<char>>::empty(),
    decreases h.len(),
{
    if h.len() > 0 {
        assert(forall|i: int|
            0 <= i < h.drop_first().len() ==> h.drop_first()[i] == h[i + 1]);
        lemma_fwd_values_absent(h.drop_first());
    }
}

/// A header list without the name yields nothing for it.
pub proof fn lemma_header_first_absent(h: Seq<(Seq<char>, Seq<char>)>, name: Seq<char>)
    requires
        forall|i: int| 0 <= i < h.len() ==> lower(#[trigger] h[i].0) != name,
    ensures
        header_first(h, name) is None,
    decreases h.len(),
{
    if h.len() > 0 {
        assert(forall|i: int|
            0 <= i < h.drop_first().len() ==> h.drop_first()[i] == h[i + 1]);
        lemma_header_first_absent(h.drop_first(), name);
    }
}

/// With no proxy headers, an insecure connection, and no request-line
/// scheme, the resolved scheme is the literal fallback `"http"`.
pub proof fn lemma_scheme_default(r: ReqView, cfg: CfgView)
    requires
        no_proxy_headers(r),
        r.uri_scheme is None,
        !cfg.secure,
    ensures
        resolved_scheme(r, cfg) == "http"@,
{
    lemma_fwd_values_absent(r.headers);
    lemma_header_first_absent(r.headers, "x-forwarded-proto"@);
}

/// A scheme declared through `Forwarded` `proto` beats every other source,
/// whatever the other headers and the request line say.
pub proof fn lemma_forwarded_proto_wins(r: ReqView, cfg: CfgView)
    requires
        forwarded_proto(r) == Some("https"@),
    ensures
        resolved_scheme(r, cfg) == "https"@,
{
}

/// The priority chain of scheme resolution: each source decides exactly
/// when every higher-priority source is absent.
pub proof fn lemma_scheme_priority(r: ReqView, cfg: CfgView)
    ensures
        forwarded_proto(r) matches Some(v) ==> resolved_scheme(r, cfg) == v,
        forwarded_proto(r) is None ==> (legacy_value(r, "x-forwarded-proto"@) matches Some(v)
            ==> resolved_scheme(r, cfg) == v),
        forwarded_proto(r) is None && legacy_value(r, "x-forwarded-proto"@) is None ==> (
        r.uri_scheme matches Some(v) ==> resolved_scheme(r, cfg) == v),
        forwarded_proto(r) is None && legacy_value(r, "x-forwarded-proto"@) is None
            && r.uri_scheme is None && cfg.secure ==> resolved_scheme(r, cfg) == "https"@,
        forwarded_proto(r) is None && legacy_value(r, "x-forwarded-proto"@) is None
            && r.uri_scheme is None && !cfg.secure ==> resolved_scheme(r, cfg) == "http"@,
{
}

/// The priority chain of host resolution.
pub proof fn lemma_host_priority(r: ReqView, cfg: CfgView)
    ensures
        crate::info::forwarded_host(r) matches Some(v) ==> resolved_host(r, cfg) == v,
        crate::info::forwarded_host(r) is None ==> (legacy_value(r, "x-forwarded-host"@)
            matches Some(v) ==> resolved_host(r, cfg) == v),
        crate::info::forwarded_host(r) is None && legacy_value(r, "x-forwarded-host"@) is None
            ==> (header_first(r.headers, "host"@) matches Some(v) ==> resolved_host(r, cfg)
            == v),
        crate::info::forwarded_host(r) is None && legacy_value(r, "x-forwarded-host"@) is None
            && header_first(r.headers, "host"@) is None ==> (r.uri_authority matches Some(v)
            ==> resolved_host(r, cfg) == v),
        crate::info::forwarded_host(r) is None && legacy_value(r, "x-forwarded-host"@) is None
            && header_first(r.headers, "host"@) is None && r.uri_authority is None
            ==> resolved_host(r, cfg) == cfg.host,
{
}

/// The priority chain of client-address resolution.
pub proof fn lemma_realip_priority(r: ReqView)
    ensures
        forwarded_for(r) matches Some(v) ==> resolved_realip(r) == Some(v),
        forwarded_for(r) is None ==> resolved_realip(r) == legacy_value(r, "x-forwarded-for"@),
{
}

/// When the transport peer address is there, the read-time client address
/// is never absent, whatever resolution found.
pub proof fn lemma_realip_defaults_to_remote(i: InfoView)
    requires
        i.remote_addr is Some,
    ensures
        opt_or(i.realip_remote_addr, i.remote_addr) is Some,
{
}

/// Parameter names are case-insensitive: two tokens whose names agree up
/// to ASCII case and whose values agree contribute identically.
pub proof fn lemma_param_name_case_insensitive(t1: Seq<char>, t2: Seq<char>)
    requires
        match (split_eq(trim(t1)), split_eq(trim(t2))) {
            (Some((n1, v1)), Some((n2, v2))) => lower(n1) == lower(n2) && v1 == v2,
            _ => false,
        },
    ensures
        param_of(t1) == param_of(t2),
{
    let (n1, v1) = split_eq(trim(t1)).unwrap();
    let (n2, v2) = split_eq(trim(t2)).unwrap();
    lemma_lower_trim(n1, n2);
    crate::text::lemma_lower_idempotent(trim(n1));
    crate::text::lemma_lower_idempotent(trim(n2));
}

/// Whitespace around a token is ignored: padding a token with whitespace
/// never changes what it contributes.
pub proof fn lemma_param_of_padding(p: Seq<char>, tok: Seq<char>, q: Seq<char>)
    requires
        all_ws(p),
        all_ws(q),
    ensures
        param_of(p + tok + q) == param_of(tok),
{
    lemma_trim_padding(p, tok, q);
}

/// Quoted values are unquoted: a value wrapped in one layer of double
/// quotes resolves to exactly the characters between them.
pub proof fn lemma_unquote_quoted(v: Seq<char>)
    ensures
        unquote_spec(seq!['"'] + v + seq!['"']) == v,
{
    let s = seq!['"'] + v + seq!['"'];
    assert(s[0] == '"');
    assert(s[s.len() - 1] == '"');
    crate::text::lemma_trim_bounds(s, 0, s.len() as int, 0, s.len() as int);
    assert(s.subrange(0, s.len() as int) =~= s);
    assert(trim(s) == s);
    assert(s.drop_first().drop_last() =~= v);
}

/// A parameter that contributes nothing for `name` can stand anywhere in
/// the stream without changing what `name` resolves to. In particular a
/// `by` parameter, which is recognized and then ignored, never surfaces.
pub proof fn lemma_first_param_ignores_other(
    toks: Seq<Seq<char>>,
    i: int,
    t: Seq<char>,
    name: Seq<char>,
)
    requires
        0 <= i <= toks.len(),
        match_one(param_of(t), name) is None,
    ensures
        first_param(toks.insert(i, t), name) == first_param(toks, name),
    decreases i,
{
    if i == 0 {
        assert(toks.insert(0, t) =~= seq![t] + toks);
        lemma_first_param_cons(t, toks, name);
    } else {
        assert(toks.insert(i, t)[0] == toks[0]);
        assert(toks.insert(i, t).drop_first() =~= toks.drop_first().insert(i - 1, t));
        lemma_first_param_ignores_other(toks.drop_first(), i - 1, t, name);
    }
}

/// `by` parameters never surface in any resolved field: inserting a token
/// whose parameter name is `by` changes nothing for any other name.
pub proof fn lemma_by_never_surfaces(toks: Seq<Seq<char>>, i: int, t: Seq<char>, name: Seq<char>)
    requires
        0 <= i <= toks.len(),
        match param_of(t) {
            Some((n, _)) => n == "by"@,
            None => true,
        },
        name != "by"@,
    ensures
        first_param(toks.insert(i, t), name) == first_param(toks, name),
{
    lemma_first_param_ignores_other(toks, i, t, name);
}

/// The token streams of all raw `Forwarded` values, concatenated in order.
pub open spec fn all_tokens(vals: Seq<Seq<char>>) -> Seq<Seq<char>>
    decreases vals.len(),
{
    if vals.len() == 0 {
        Seq::empty()
    } else {
        tokens_of(vals[0]) + all_tokens(vals.drop_first())
    }
}

/// Values that appear in different physical header lines and in the same
/// line form one logical token stream: searching line by line with first
/// wins equals one first-wins search over the concatenated stream.
pub proof fn lemma_one_logical_stream(vals: Seq<Seq<char>>, name: Seq<char>)
    ensures
        fwd_param_of(vals, name) == first_param(all_tokens(vals), name),
    decreases vals.len(),
{
    if vals.len() > 0 {
        lemma_one_logical_stream(vals.drop_first(), name);
        lemma_first_param_concat(tokens_of(vals[0]), all_tokens(vals.drop_first()), name);
    }
}

/// Resolution is idempotent: two resolutions of the same immutable request
/// data agree in every field.
pub proof fn lemma_resolution_idempotent(r: ReqView, cfg: CfgView, a: InfoView, b: InfoView)
    requires
        is_resolution_of(a, r, cfg),
        is_resolution_of(b, r, cfg),
    ensures
        a.scheme == b.scheme,
        a.host == b.host,
        a.realip_remote_addr == b.realip_remote_addr,
        a.remote_addr == b.remote_addr,
{
}

} // verus!
