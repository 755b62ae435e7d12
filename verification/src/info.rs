//! Resolution of the effective connection attributes for a request: scheme,
//! host, and client address, merged from the `Forwarded` header, the legacy
//! `X-Forwarded-*` headers, the request line, the transport peer address,
//! and application defaults, under a strict priority order.

use vstd::prelude::*;

use crate::forwarded::{
    first_param, opt_or, ov, scan_forwarded_value, tokens_of, eq_lower,
};
use crate::text::{lower, trim, trim_bounds};
use vstd::string::{StrSliceExecFns, StringExecFns};

verus! {

/// The inputs of resolution that come from the request itself: the header
/// list in wire order (names matched case-insensitively), the scheme and
/// authority of the request line when it carries them, and the transport
/// peer address in string form when the connection has one.
pub struct RequestHead {
    pub headers: Vec<(String, String)>,
    pub uri_scheme: Option<String>,
    pub uri_authority: Option<String>,
    pub peer_addr: Option<String>,
}

/// Application-level configuration: the default host, and whether the
/// connection is to be treated as secure.
pub struct AppConfig {
    pub host: String,
    pub secure: bool,
}

/// The mathematical view of a request: header names and values, request-line
/// parts, and peer address, all as character sequences.
pub struct ReqView {
    pub headers: Seq<(Seq<char>, Seq<char>)>,
    pub uri_scheme: Option<Seq<char>>,
    pub uri_authority: Option<Seq<char>>,
    pub peer_addr: Option<Seq<char>>,
}

/// The mathematical view of the application configuration.
pub struct CfgView {
    pub host: Seq<char>,
    pub secure: bool,
}

impl View for RequestHead {
    type V = ReqView;

    open spec fn view(&self) -> ReqView {
        ReqView {
            headers: self.headers@.map_values(|p: (String, String)| (p.0@, p.1@)),
            uri_scheme: ov(self.uri_scheme),
            uri_authority: ov(self.uri_authority),
            peer_addr: ov(self.peer_addr),
        }
    }
}

impl View for AppConfig {
    type V = CfgView;

    open spec fn view(&self) -> CfgView {
        CfgView { host: self.host@, secure: self.secure }
    }
}

/// The first header value whose name, lower-cased, is `name` (given in
/// lower case), as a case-insensitive store returns it.
pub open spec fn header_first(h: Seq<(Seq<char>, Seq<char>)>, name: Seq<char>) -> Option<
    Seq<char>,
>
    decreases h.len(),
{
    if h.len() == 0 {
        None
    } else if lower(h[0].0) == name {
        Some(h[0].1)
    } else {
        header_first(h.drop_first(), name)
    }
}

/// All values of `Forwarded` headers, in wire order.
pub open spec fn fwd_values(h: Seq<(Seq<char>, Seq<char>)>) -> Seq<Seq<char>>
    decreases h.len(),
{
    if h.len() == 0 {
        Seq::empty()
    } else if lower(h[0].0) == "forwarded"@ {
        seq![h[0].1] + fwd_values(h.drop_first())
    } else {
        fwd_values(h.drop_first())
    }
}

/// The first value of the parameter `name` across the token streams of all
/// the given raw `Forwarded` values, treated as one stream in order.
pub open spec fn fwd_param_of(vals: Seq<Seq<char>>, name: Seq<char>) -> Option<Seq<char>>
    decreases vals.len(),
{
    if vals.len() == 0 {
        None
    } else {
        opt_or(first_param(tokens_of(vals[0]), name), fwd_param_of(vals.drop_first(), name))
    }
}

/// The client address declared by the `Forwarded` header, if any.
pub open spec fn forwarded_for(r: ReqView) -> Option<Seq<char>> {
    fwd_param_of(fwd_values(r.headers), "for"@)
}

/// The scheme declared by the `Forwarded` header, if any.
pub open spec fn forwarded_proto(r: ReqView) -> Option<Seq<char>> {
    fwd_param_of(fwd_values(r.headers), "proto"@)
}

/// The host declared by the `Forwarded` header, if any.
pub open spec fn forwarded_host(r: ReqView) -> Option<Seq<char>> {
    fwd_param_of(fwd_values(r.headers), "host"@)
}

/// The part of a legacy header value before its first comma.
pub open spec fn before_comma(s: Seq<char>) -> Seq<char>
    decreases s.len(),
{
    if s.len() == 0 {
        Seq::empty()
    } else if s[0] == ',' {
        Seq::empty()
    } else {
        seq![s[0]] + before_comma(s.drop_first())
    }
}

/// The first comma-separated element of a legacy header value, trimmed:
/// only that element is authoritative, the rest were appended by proxies.
pub open spec fn first_value(s: Seq<char>) -> Seq<char> {
    trim(before_comma(s))
}

/// The authoritative element of the legacy header `name`, if the header is
/// present.
pub open spec fn legacy_value(r: ReqView, name: Seq<char>) -> Option<Seq<char>> {
    match header_first(r.headers, name) {
        Some(v) => Some(first_value(v)),
        None => None,
    }
}

/// The resolved scheme: `Forwarded` `proto`, else `X-Forwarded-Proto`, else
/// the request-line scheme, else `"https"` on a secure connection, else
/// `"http"`.
pub open spec fn resolved_scheme(r: ReqView, cfg: CfgView) -> Seq<char> {
    match opt_or(
        forwarded_proto(r),
        opt_or(
            legacy_value(r, "x-forwarded-proto"@),
            opt_or(
                r.uri_scheme,
                if cfg.secure {
                    Some("https"@)
                } else {
                    None
                },
            ),
        ),
    ) {
        Some(s) => s,
        None => "http"@,
    }
}

/// The resolved host: `Forwarded` `host`, else `X-Forwarded-Host`, else the
/// `Host` header, else the request-line authority, else the configured
/// default host.
pub open spec fn resolved_host(r: ReqView, cfg: CfgView) -> Seq<char> {
    match opt_or(
        forwarded_host(r),
        opt_or(
            legacy_value(r, "x-forwarded-host"@),
            opt_or(header_first(r.headers, "host"@), r.uri_authority),
        ),
    ) {
        Some(h) => h,
        None => cfg.host,
    }
}

/// The resolved client address as the proxies declared it: `Forwarded`
/// `for`, else `X-Forwarded-For`; absent when no proxy declared one.
pub open spec fn resolved_realip(r: ReqView) -> Option<Seq<char>> {
    opt_or(forwarded_for(r), legacy_value(r, "x-forwarded-for"@))
}

/// What a resolution result must be, field by field, for the given request
/// and configuration.
pub open spec fn is_resolution_of(i: InfoView, r: ReqView, cfg: CfgView) -> bool {
    &&& i.scheme == resolved_scheme(r, cfg)
    &&& i.host == resolved_host(r, cfg)
    &&& i.realip_remote_addr == resolved_realip(r)
    &&& i.remote_addr == r.peer_addr
}

/// HTTP connection information: the resolved scheme, host, and client
/// address of a request, immutable once constructed.
#[derive(Debug, Clone)]
pub struct ConnectionInfo {
    scheme: String,
    host: String,
    realip_remote_addr: Option<String>,
    remote_addr: Option<String>,
}

/// The mathematical view of a resolution result.
pub struct InfoView {
    pub scheme: Seq<char>,
    pub host: Seq<char>,
    pub realip_remote_addr: Option<Seq<char>>,
    pub remote_addr: Option<Seq<char>>,
}

impl View for ConnectionInfo {
    type V = InfoView;

    closed spec fn view(&self) -> InfoView {
        InfoView {
            scheme: self.scheme@,
            host: self.host@,
            realip_remote_addr: ov(self.realip_remote_addr),
            remote_addr: ov(self.remote_addr),
        }
    }
}

/// Whether the name of `s`, lower-cased, is the (lower-case) literal `lit`.
fn header_name_is(s: &str, lit: &str) -> (r: bool)
    ensures
        r == (lower(s@) == lit@),
{
    let len = s.unicode_len();
    let r = eq_lower(s, 0, len, lit);
    proof {
        assert(s@.subrange(0, len as int) =~= s@);
    }
    r
}

/// The first value stored under the case-insensitive header name `name`
/// (given in lower case), verbatim.
fn get_header(req: &RequestHead, name: &str) -> (r: Option<String>)
    ensures
        ov(r) == header_first(req@.headers, name@),
{
    let ghost hv = req@.headers;
    let n = req.headers.len();
    let mut k: usize = 0;
    proof {
        assert(hv.skip(0) =~= hv);
    }
    while k < n
        invariant
            0 <= k <= n == req.headers.len(),
            hv == req@.headers,
            header_first(hv.skip(k as int), name@) == header_first(hv, name@),
        decreases n - k,
    {
        proof {
            assert(hv.skip(k as int).drop_first() =~= hv.skip(k as int + 1));
            assert(hv.skip(k as int)[0] == hv[k as int]);
        }
        let pair = &req.headers[k];
        if header_name_is(pair.0.as_str(), name) {
            return Some(pair.1.clone());
        }
        k = k + 1;
    }
    proof {
        assert(hv.skip(n as int) =~= Seq::<(Seq<char>, Seq<char>)>::empty());
    }
    None
}

/// Extracts and trims the first comma-separated element of the first value
/// of the given legacy header.
pub fn first_header_value(req: &RequestHead, name: &str) -> (r: Option<String>)
    ensures
        ov(r) == legacy_value(req@, name@),
{
    match get_header(req, name) {
        Some(v) => {
            let s = v.as_str();
            let len = s.unicode_len();
            let ghost whole = s@;
            let mut i: usize = 0;
            while i < len && s.get_char(i) != ','
                invariant
                    0 <= i <= len == s@.len(),
                    forall|k: int| 0 <= k < i ==> s@[k] != ',',
                decreases len - i,
            {
                i = i + 1;
            }
            proof {
                lemma_before_comma_at(s@, i as int);
            }
            let (a, b) = trim_bounds(s, 0, i);
            Some(s.substring_char(a, b).to_owned())
        },
        None => None,
    }
}

/// If nothing before `i` is a comma and either `i` is the end or `s[i]` is
/// one, the part before the first comma is exactly `s` up to `i`.
proof fn lemma_before_comma_at(s: Seq<char>, i: int)
    requires
        0 <= i <= s.len(),
        forall|k: int| 0 <= k < i ==> s[k] != ',',
        i == s.len() || s[i] == ',',
    ensures
        before_comma(s) == s.subrange(0, i),
    decreases i,
{
    if i == 0 {
        assert(s.subrange(0, 0) =~= Seq::<char>::empty());
    } else {
        lemma_before_comma_at(s.drop_first(), i - 1);
        assert(s.drop_first().subrange(0, i - 1) =~= s.subrange(0, i).drop_first());
        assert(seq![s[0]] + s.subrange(0, i).drop_first() =~= s.subrange(0, i));
    }
}

impl ConnectionInfo {
    /// Resolve the connection information for a request under the given
    /// configuration. Total: every absent input degrades to the next source
    /// in the priority order, never to an error.
    pub fn new(req: &RequestHead, cfg: &AppConfig) -> (r: ConnectionInfo)
        ensures
            is_resolution_of(r@, req@, cfg@),
    {
        let ghost hv = req@.headers;
        let mut fwd_for: Option<String> = None;
        let mut fwd_proto: Option<String> = None;
        let mut fwd_host: Option<String> = None;
        let n = req.headers.len();
        let mut k: usize = 0;
        proof {
            assert(hv.skip(0) =~= hv);
        }
        while k < n
            invariant
                0 <= k <= n == req.headers.len(),
                hv == req@.headers,
                opt_or(ov(fwd_for), fwd_param_of(fwd_values(hv.skip(k as int)), "for"@))
                    == fwd_param_of(fwd_values(hv), "for"@),
                opt_or(ov(fwd_proto), fwd_param_of(fwd_values(hv.skip(k as int)), "proto"@))
                    == fwd_param_of(fwd_values(hv), "proto"@),
                opt_or(ov(fwd_host), fwd_param_of(fwd_values(hv.skip(k as int)), "host"@))
                    == fwd_param_of(fwd_values(hv), "host"@),
            decreases n - k,
        {
            proof {
                assert(hv.skip(k as int).drop_first() =~= hv.skip(k as int + 1));
                assert(hv.skip(k as int)[0] == hv[k as int]);
            }
            let pair = &req.headers[k];
            if header_name_is(pair.0.as_str(), "forwarded") {
                proof {
                    let vals = seq![hv[k as int].1] + fwd_values(hv.skip(k as int + 1));
                    assert(fwd_values(hv.skip(k as int)) == vals);
                    assert(vals[0] == hv[k as int].1);
                    assert(vals.drop_first() =~= fwd_values(hv.skip(k as int + 1)));
                }
                scan_forwarded_value(
                    pair.1.as_str(),
                    &mut fwd_for,
                    &mut fwd_proto,
                    &mut fwd_host,
                );
            }
            k = k + 1;
        }
        proof {
            assert(hv.skip(n as int) =~= Seq::<(Seq<char>, Seq<char>)>::empty());
        }
        let scheme: String = match fwd_proto {
            Some(s) => s,
            None => match first_header_value(req, "x-forwarded-proto") {
                Some(s) => s,
                None => match &req.uri_scheme {
                    Some(s) => s.clone(),
                    None => if cfg.secure {
                        "https".to_owned()
                    } else {
                        "http".to_owned()
                    },
                },
            },
        };
        let host: String = match fwd_host {
            Some(h) => h,
            None => match first_header_value(req, "x-forwarded-host") {
                Some(h) => h,
                None => match get_header(req, "host") {
                    Some(h) => h,
                    None => match &req.uri_authority {
                        Some(h) => h.clone(),
                        None => cfg.host.clone(),
                    },
                },
            },
        };
        let realip_remote_addr: Option<String> = match fwd_for {
            Some(f) => Some(f),
            None => first_header_value(req, "x-forwarded-for"),
        };
        let remote_addr: Option<String> = match &req.peer_addr {
            Some(a) => Some(a.clone()),
            None => None,
        };
        ConnectionInfo { scheme, host, realip_remote_addr, remote_addr }
    }

    /// Create a `ConnectionInfo` instance for a request. Resolution is a
    /// pure function of its inputs; a caller that holds the result for the
    /// rest of the request's lifetime loses nothing by the fresh
    /// computation here.
    pub fn get(req: &RequestHead, cfg: &AppConfig) -> (r: ConnectionInfo)
        ensures
            is_resolution_of(r@, req@, cfg@),
    {
        ConnectionInfo::new(req, cfg)
    }

    /// Scheme of the request.
    pub fn scheme(&self) -> (r: &str)
        ensures
            r@ == self@.scheme,
    {
        self.scheme.as_str()
    }

    /// Hostname of the request.
    pub fn host(&self) -> (r: &str)
        ensures
            r@ == self@.host,
    {
        self.host.as_str()
    }

    /// Remote address of the connection: the transport peer address, when
    /// the connection exposes one.
    pub fn remote_addr(&self) -> (r: Option<&str>)
        ensures
            ov_str(r) == self@.remote_addr,
    {
        match &self.remote_addr {
            Some(a) => Some(a.as_str()),
            None => None,
        }
    }

    /// Real IP of the client that initiated the request: the
    /// proxy-declared client address when one was resolved, else the
    /// transport peer address. Not to be trusted for security purposes:
    /// proxy headers can be spoofed by the client unless a trusted edge
    /// proxy strips them.
    pub fn realip_remote_addr(&self) -> (r: Option<&str>)
        ensures
            ov_str(r) == opt_or(self@.realip_remote_addr, self@.remote_addr),
    {
        match &self.realip_remote_addr {
            Some(a) => Some(a.as_str()),
            None => match &self.remote_addr {
                Some(a) => Some(a.as_str()),
                None => None,
            },
        }
    }
}

/// The view of an optional borrowed string.
pub open spec fn ov_str(o: Option<&str>) -> Option<Seq<char>> {
    match o {
        Some(s) => Some(s@),
        None => None,
    }
}

/// The one failure of this module: a request whose connection has no
/// transport-level peer address.
#[derive(Debug, Clone, Copy, PartialEq, Eq, Structural)]
pub struct MissingPeerAddr;

impl MissingPeerAddr {
    /// The display form of the failure.
    pub fn message(&self) -> (r: String)
        ensures
            r@ == "Missing peer address"@,
    {
        String::from_str("Missing peer address")
    }
}

/// The peer address accessor: the transport peer address verbatim, or a
/// distinct failure when the request has none. One-shot; a missing address
/// is not transient.
pub fn peer_address(req: &RequestHead) -> (r: Result<String, MissingPeerAddr>)
    ensures
        match r {
            Ok(a) => req@.peer_addr == Some(a@),
            Err(_) => req@.peer_addr is None,
        },
{
    match &req.peer_addr {
        Some(a) => Ok(a.clone()),
        None => Err(MissingPeerAddr),
    }
}

} // verus!
