use conn_info::{AppConfig, ConnectionInfo, RequestHead};

fn req_default() -> RequestHead {
    RequestHead { headers: vec![], uri_scheme: None, uri_authority: None, peer_addr: None }
}

fn cfg_default() -> AppConfig {
    AppConfig { host: "localhost:8080".to_string(), secure: false }
}

fn req_with_headers(headers: &[(&str, &str)]) -> RequestHead {
    RequestHead {
        headers: headers.iter().map(|(n, v)| (n.to_string(), v.to_string())).collect(),
        uri_scheme: None,
        uri_authority: None,
        peer_addr: None,
    }
}

#[test]
fn info_default() {
    let req = req_default();
    let info = ConnectionInfo::get(&req, &cfg_default());
    assert_eq!(info.scheme(), "http");
    assert_eq!(info.host(), "localhost:8080");
}

#[test]
fn host_header() {
    let req = req_with_headers(&[("host", "rust-lang.org")]);
    let info = ConnectionInfo::get(&req, &cfg_default());
    assert_eq!(info.scheme(), "http");
    assert_eq!(info.host(), "rust-lang.org");
    assert_eq!(info.realip_remote_addr(), None);
}

#[test]
fn x_forwarded_for_header() {
    let req = req_with_headers(&[("x-forwarded-for", "192.0.2.60")]);
    let info = ConnectionInfo::get(&req, &cfg_default());
    assert_eq!(info.realip_remote_addr(), Some("192.0.2.60"));
}

#[test]
fn x_forwarded_host_header() {
    let req = req_with_headers(&[("x-forwarded-host", "192.0.2.60")]);
    let info = ConnectionInfo::get(&req, &cfg_default());
    assert_eq!(info.host(), "192.0.2.60");
    assert_eq!(info.realip_remote_addr(), None);
}

#[test]
fn x_forwarded_proto_header() {
    let req = req_with_headers(&[("x-forwarded-proto", "https")]);
    let info = ConnectionInfo::get(&req, &cfg_default());
    assert_eq!(info.scheme(), "https");
}

#[test]
fn forwarded_header() {
    let req = req_with_headers(&[(
        "forwarded",
        "for=192.0.2.60; proto=https; by=203.0.113.43; host=rust-lang.org",
    )]);
    let info = ConnectionInfo::get(&req, &cfg_default());
    assert_eq!(info.scheme(), "https");
    assert_eq!(info.host(), "rust-lang.org");
    assert_eq!(info.realip_remote_addr(), Some("192.0.2.60"));

    let req = req_with_headers(&[(
        "forwarded",
        "for=192.0.2.60; proto=https; by=203.0.113.43; host=rust-lang.org",
    )]);
    let info = ConnectionInfo::get(&req, &cfg_default());
    assert_eq!(info.scheme(), "https");
    assert_eq!(info.host(), "rust-lang.org");
    assert_eq!(info.realip_remote_addr(), Some("192.0.2.60"));
}

#[test]
fn forwarded_case_sensitivity() {
    let req = req_with_headers(&[("forwarded", "For=192.0.2.60")]);
    let info = ConnectionInfo::get(&req, &cfg_default());
    assert_eq!(info.realip_remote_addr(), Some("192.0.2.60"));
}

#[test]
fn forwarded_weird_whitespace() {
    let req = req_with_headers(&[("forwarded", "for= 1.2.3.4; proto= https")]);
    let info = ConnectionInfo::get(&req, &cfg_default());
    assert_eq!(info.realip_remote_addr(), Some("1.2.3.4"));
    assert_eq!(info.scheme(), "https");

    let req = req_with_headers(&[("forwarded", "  for = 1.2.3.4  ")]);
    let info = ConnectionInfo::get(&req, &cfg_default());
    assert_eq!(info.realip_remote_addr(), Some("1.2.3.4"));
}

#[test]
fn forwarded_for_quoted() {
    let req = req_with_headers(&[("forwarded", r#"for="192.0.2.60:8080""#)]);
    let info = ConnectionInfo::get(&req, &cfg_default());
    assert_eq!(info.realip_remote_addr(), Some("192.0.2.60:8080"));
}

#[test]
fn forwarded_for_ipv6() {
    let req = req_with_headers(&[("forwarded", r#"for="[2001:db8:cafe::17]:4711""#)]);
    let info = ConnectionInfo::get(&req, &cfg_default());
    assert_eq!(info.realip_remote_addr(), Some("[2001:db8:cafe::17]:4711"));
}

#[test]
fn forwarded_for_multiple() {
    let req = req_with_headers(&[("forwarded", "for=192.0.2.60, for=198.51.100.17")]);
    let info = ConnectionInfo::get(&req, &cfg_default());
    // takes the first value
    assert_eq!(info.realip_remote_addr(), Some("192.0.2.60"));
}

#[test]
fn scheme_from_uri() {
    let req = RequestHead {
        headers: vec![],
        uri_scheme: Some("https".to_string()),
        uri_authority: Some("actix.rs".to_string()),
        peer_addr: None,
    };
    let info = ConnectionInfo::get(&req, &cfg_default());
    assert_eq!(info.scheme(), "https");
}

#[test]
fn host_from_uri() {
    let req = RequestHead {
        headers: vec![],
        uri_scheme: Some("https".to_string()),
        uri_authority: Some("actix.rs".to_string()),
        peer_addr: None,
    };
    let info = ConnectionInfo::get(&req, &cfg_default());
    assert_eq!(info.host(), "actix.rs");
}

#[test]
fn host_from_server_hostname() {
    let req = req_default();
    let cfg = AppConfig { host: "actix.rs".to_string(), secure: false };
    let info = ConnectionInfo::get(&req, &cfg);
    assert_eq!(info.host(), "actix.rs");
}

#[test]
fn conn_info_extract() {
    let req = RequestHead {
        headers: vec![],
        uri_scheme: Some("https".to_string()),
        uri_authority: Some("actix.rs".to_string()),
        peer_addr: None,
    };
    let conn_info = ConnectionInfo::get(&req, &cfg_default());
    assert_eq!(conn_info.scheme(), "https");
    assert_eq!(conn_info.host(), "actix.rs");
}

#[test]
fn peer_addr_extract() {
    let req = RequestHead {
        headers: vec![],
        uri_scheme: None,
        uri_authority: None,
        peer_addr: Some("127.0.0.1:8080".to_string()),
    };
    let peer_addr = conn_info::peer_address(&req).unwrap();
    assert_eq!(peer_addr, "127.0.0.1:8080".to_string());

    let req = req_default();
    let res = conn_info::peer_address(&req);
    assert!(res.is_err());
}
