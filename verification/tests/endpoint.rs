use doh_tester::endpoint::{
    classify_result, parse_host_port, tcp_error_text, tls_error_text, tls_info_text, PeerCertificate,
    TlsFailure,
};
use doh_tester::types::{DoHResult, DoHStatus};

#[test]
fn host_port_plain_https_url() {
    assert_eq!(parse_host_port("https://dns.google/dns-query"), ("dns.google".to_string(), 443));
}

#[test]
fn host_port_explicit_port_and_http() {
    assert_eq!(parse_host_port("https://doh.example:8443/dns-query"), ("doh.example".to_string(), 8443));
    assert_eq!(parse_host_port("http://10.0.0.1:80/q"), ("10.0.0.1".to_string(), 80));
    assert_eq!(parse_host_port("https://h:+7/x"), ("h".to_string(), 7));
}

#[test]
fn host_port_bad_port_kept_in_host() {
    assert_eq!(parse_host_port("https://h:99999/x"), ("h:99999".to_string(), 443));
    assert_eq!(parse_host_port("https://h:abc"), ("h:abc".to_string(), 443));
    assert_eq!(parse_host_port("https://h:"), ("h:".to_string(), 443));
}

#[test]
fn host_port_empty_host_is_unknown() {
    assert_eq!(parse_host_port("https:///dns-query"), ("unknown".to_string(), 443));
    assert_eq!(parse_host_port(""), ("unknown".to_string(), 443));
    assert_eq!(parse_host_port("https://:853/"), ("unknown".to_string(), 853));
}

#[test]
fn host_port_both_schemes_are_dropped() {
    assert_eq!(parse_host_port("https://http://inner/x"), ("inner".to_string(), 443));
    assert_eq!(parse_host_port("dns.quad9.net"), ("dns.quad9.net".to_string(), 443));
}

#[test]
fn host_port_round_trip_law() {
    for port in [1u16, 53, 443, 8443, 65535] {
        let url = format!("https://a.b.c:{}/path", port);
        assert_eq!(parse_host_port(&url), ("a.b.c".to_string(), port));
    }
}

#[test]
fn classify_by_successes() {
    let mut r = DoHResult::new("u".to_string(), "h".to_string(), 443, 3);
    r.successes = 2;
    assert_eq!(classify_result(r, None).status, DoHStatus::Working);
    let mut r = DoHResult::new("u".to_string(), "h".to_string(), 443, 3);
    r.successes = 1;
    assert_eq!(classify_result(r, Some("x")).status, DoHStatus::Flaky);
    let r = DoHResult::new("u".to_string(), "h".to_string(), 443, 3);
    assert_eq!(classify_result(r, None).status, DoHStatus::Blocked);
}

#[test]
fn tls_and_tcp_texts() {
    assert_eq!(tls_info_text(&PeerCertificate::Present), "TLS handshake OK, certificate present");
    assert_eq!(tls_info_text(&PeerCertificate::Absent), "TLS handshake OK, no peer certificate");
    assert_eq!(tls_info_text(&PeerCertificate::Unreadable("bad".to_string())), "TLS handshake OK, cert error: bad");
    assert_eq!(tls_error_text(&TlsFailure::Connector("x".to_string())), "TLS connector build error: x");
    assert_eq!(tls_error_text(&TlsFailure::Handshake("y".to_string())), "TLS handshake failed: y");
    assert_eq!(tls_error_text(&TlsFailure::NoAddress), "TLS handshake failed: no addresses resolved");
    assert_eq!(tcp_error_text(), "TCP connection failed");
}
