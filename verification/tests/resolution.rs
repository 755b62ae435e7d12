use conn_info::{unquote, AppConfig, ConnectionInfo, MissingPeerAddr, RequestHead};

fn cfg(host: &str, secure: bool) -> AppConfig {
    AppConfig { host: host.to_string(), secure }
}

fn req(headers: &[(&str, &str)]) -> RequestHead {
    RequestHead {
        headers: headers.iter().map(|(n, v)| (n.to_string(), v.to_string())).collect(),
        uri_scheme: None,
        uri_authority: None,
        peer_addr: None,
    }
}

#[test]
fn priority_forwarded_beats_everything() {
    let mut r = req(&[
        ("forwarded", "for=1.1.1.1; proto=https; host=first.example"),
        ("x-forwarded-for", "2.2.2.2"),
        ("x-forwarded-proto", "http"),
        ("x-forwarded-host", "second.example"),
        ("host", "third.example"),
    ]);
    r.uri_scheme = Some("http".to_string());
    r.uri_authority = Some("fourth.example".to_string());
    let info = ConnectionInfo::get(&r, &cfg("fifth.example", false));
    assert_eq!(info.scheme(), "https");
    assert_eq!(info.host(), "first.example");
    assert_eq!(info.realip_remote_addr(), Some("1.1.1.1"));
}

#[test]
fn priority_legacy_beats_request_line() {
    let mut r = req(&[
        ("x-forwarded-for", "2.2.2.2"),
        ("x-forwarded-proto", "https"),
        ("x-forwarded-host", "second.example"),
        ("host", "third.example"),
    ]);
    r.uri_scheme = Some("http".to_string());
    r.uri_authority = Some("fourth.example".to_string());
    let info = ConnectionInfo::get(&r, &cfg("fifth.example", false));
    assert_eq!(info.scheme(), "https");
    assert_eq!(info.host(), "second.example");
    assert_eq!(info.realip_remote_addr(), Some("2.2.2.2"));
}

#[test]
fn priority_host_header_beats_authority() {
    let mut r = req(&[("host", "third.example")]);
    r.uri_authority = Some("fourth.example".to_string());
    let info = ConnectionInfo::get(&r, &cfg("fifth.example", false));
    assert_eq!(info.host(), "third.example");
}

#[test]
fn request_line_authority_and_scheme() {
    let mut r = req(&[]);
    r.uri_scheme = Some("https".to_string());
    r.uri_authority = Some("example.test".to_string());
    let info = ConnectionInfo::get(&r, &cfg("localhost:8080", false));
    assert_eq!(info.host(), "example.test");
    assert_eq!(info.scheme(), "https");
}

#[test]
fn secure_config_gives_https() {
    let info = ConnectionInfo::get(&req(&[]), &cfg("localhost:8080", true));
    assert_eq!(info.scheme(), "https");
}

#[test]
fn legacy_headers_take_first_comma_value() {
    let r = req(&[
        ("x-forwarded-for", " 1.1.1.1 , 2.2.2.2, 3.3.3.3"),
        ("x-forwarded-proto", "https, http"),
        ("x-forwarded-host", " a.example ,b.example"),
    ]);
    let info = ConnectionInfo::get(&r, &cfg("localhost:8080", false));
    assert_eq!(info.realip_remote_addr(), Some("1.1.1.1"));
    assert_eq!(info.scheme(), "https");
    assert_eq!(info.host(), "a.example");
}

#[test]
fn by_parameter_never_surfaces() {
    let r = req(&[("forwarded", "by=203.0.113.43; for=1.2.3.4")]);
    let info = ConnectionInfo::get(&r, &cfg("localhost:8080", false));
    assert_eq!(info.realip_remote_addr(), Some("1.2.3.4"));
    assert_eq!(info.host(), "localhost:8080");
    assert_eq!(info.scheme(), "http");

    let only_by = req(&[("forwarded", "by=203.0.113.43")]);
    let info = ConnectionInfo::get(&only_by, &cfg("localhost:8080", false));
    assert_eq!(info.realip_remote_addr(), None);
    assert_eq!(info.host(), "localhost:8080");
    assert_eq!(info.scheme(), "http");
}

#[test]
fn malformed_tokens_are_skipped() {
    let r = req(&[("forwarded", "nonsense; for=1.2.3.4; ; =x")]);
    let info = ConnectionInfo::get(&r, &cfg("localhost:8080", false));
    assert_eq!(info.realip_remote_addr(), Some("1.2.3.4"));
}

#[test]
fn forwarded_across_header_lines_is_one_stream() {
    let r = req(&[("forwarded", "proto=https"), ("forwarded", "for=9.9.9.9")]);
    let info = ConnectionInfo::get(&r, &cfg("localhost:8080", false));
    assert_eq!(info.scheme(), "https");
    assert_eq!(info.realip_remote_addr(), Some("9.9.9.9"));

    let r = req(&[("forwarded", "for=1.1.1.1"), ("forwarded", "for=2.2.2.2")]);
    let info = ConnectionInfo::get(&r, &cfg("localhost:8080", false));
    assert_eq!(info.realip_remote_addr(), Some("1.1.1.1"));
}

#[test]
fn header_names_are_case_insensitive() {
    let r = req(&[("FORWARDED", "for=1.2.3.4"), ("X-Forwarded-Proto", "https")]);
    let info = ConnectionInfo::get(&r, &cfg("localhost:8080", false));
    assert_eq!(info.realip_remote_addr(), Some("1.2.3.4"));
    assert_eq!(info.scheme(), "https");
}

#[test]
fn realip_falls_back_to_remote_addr() {
    let mut r = req(&[]);
    r.peer_addr = Some("10.0.0.1:42000".to_string());
    let info = ConnectionInfo::get(&r, &cfg("localhost:8080", false));
    assert_eq!(info.remote_addr(), Some("10.0.0.1:42000"));
    assert_eq!(info.realip_remote_addr(), Some("10.0.0.1:42000"));

    let mut r = req(&[("x-forwarded-for", "1.2.3.4")]);
    r.peer_addr = Some("10.0.0.1:42000".to_string());
    let info = ConnectionInfo::get(&r, &cfg("localhost:8080", false));
    assert_eq!(info.realip_remote_addr(), Some("1.2.3.4"));
    assert_eq!(info.remote_addr(), Some("10.0.0.1:42000"));
}

#[test]
fn no_peer_address_yields_none_and_error() {
    let r = req(&[]);
    let info = ConnectionInfo::get(&r, &cfg("localhost:8080", false));
    assert_eq!(info.remote_addr(), None);
    assert_eq!(info.realip_remote_addr(), None);
    let err = conn_info::peer_address(&r).unwrap_err();
    assert_eq!(err, MissingPeerAddr);
    assert_eq!(err.message(), "Missing peer address".to_string());
}

#[test]
fn resolution_is_idempotent() {
    let mut r = req(&[
        ("forwarded", "for=1.1.1.1; proto=https"),
        ("host", "a.example"),
    ]);
    r.peer_addr = Some("10.0.0.1:42000".to_string());
    let c = cfg("localhost:8080", false);
    let a = ConnectionInfo::get(&r, &c);
    let b = ConnectionInfo::get(&r, &c);
    assert_eq!(a.scheme(), b.scheme());
    assert_eq!(a.host(), b.host());
    assert_eq!(a.realip_remote_addr(), b.realip_remote_addr());
    assert_eq!(a.remote_addr(), b.remote_addr());
}

#[test]
fn unquote_strips_whitespace_then_quotes() {
    assert_eq!(unquote("\"192.0.2.60:8080\""), "192.0.2.60:8080");
    assert_eq!(unquote("  plain  "), "plain");
    assert_eq!(unquote(" \"quoted\" "), "quoted");
    assert_eq!(unquote("\"unterminated"), "unterminated");
    assert_eq!(unquote("\""), "");
    assert_eq!(unquote("\"\""), "");
    assert_eq!(unquote(""), "");
}

#[test]
fn first_header_value_trims_first_element() {
    let r = req(&[("x-custom", " alpha , beta ")]);
    assert_eq!(
        conn_info::first_header_value(&r, "x-custom"),
        Some("alpha".to_string())
    );
    assert_eq!(conn_info::first_header_value(&r, "x-missing"), None);
}

#[test]
fn empty_forwarded_values_resolve_empty() {
    // A present parameter with an empty value is still the first value.
    let r = req(&[("forwarded", "for=")]);
    let info = ConnectionInfo::get(&r, &cfg("localhost:8080", false));
    assert_eq!(info.realip_remote_addr(), Some(""));
}
