use doh_tester::base64url::base64url_encode;
use doh_tester::dns::{build_dns_query, format_ipv4, parse_dns_response, parse_name};

#[test]
fn test_base64url_encode() {
    let input = b"hello";
    let encoded = base64url_encode(input);
    assert_eq!(encoded, "aGVsbG8");
}

#[test]
fn test_build_dns_query() {
    let query = build_dns_query("example.com");
    assert!(!query.is_empty());
    assert_eq!(query[0], 0x12);
    assert_eq!(query[1], 0x34);
}

#[test]
fn test_parse_dns_response() {
    // Header: ID=0x1234, Flags=0x8180, QDCOUNT=1, ANCOUNT=1, NSCOUNT=0, ARCOUNT=0
    // Question: example.com IN A
    // Answer: example.com IN A 60 147.24.34.52
    let response = [
        0x12, 0x34, 0x81, 0x80, 0x00, 0x01, 0x00, 0x01, 0x00, 0x00, 0x00, 0x00, 0x07, 0x65,
        0x78, 0x61, 0x6d, 0x70, 0x6c, 0x65, 0x03, 0x63, 0x6f, 0x6d, 0x00, 0x00, 0x01, 0x00,
        0x01, 0xc0, 0x0c, 0x00, 0x01, 0x00, 0x01, 0x00, 0x00, 0x00, 0x3c, 0x00, 0x04, 0x93,
        0x18, 0x22, 0x34,
    ];

    let ips = parse_dns_response(&response);
    assert!(ips.is_some());
    let ips = ips.unwrap();
    assert_eq!(ips.len(), 1);
    assert_eq!(ips[0], "147.24.34.52");
}

#[test]
fn test_parse_dns_response_no_answers() {
    // Response with ANCOUNT=0
    let response = [
        0x12, 0x34, 0x81, 0x80, 0x00, 0x01, 0x00, 0x00, 0x00, 0x00, 0x00, 0x00, 0x07, 0x65,
        0x78, 0x61, 0x6d, 0x70, 0x6c, 0x65, 0x03, 0x63, 0x6f, 0x6d, 0x00, 0x00, 0x01, 0x00,
        0x01,
    ];

    let ips = parse_dns_response(&response);
    assert!(ips.is_none());
}

#[test]
fn test_parse_dns_response_too_short() {
    let response = [0x12, 0x34, 0x81];
    let ips = parse_dns_response(&response);
    assert!(ips.is_none());
}

#[test]
fn test_parse_name_simple() {
    // "example.com" encoded as DNS name: 07 example 03 com 00
    let data = [
        0x07, 0x65, 0x78, 0x61, 0x6d, 0x70, 0x6c, 0x65, 0x03, 0x63, 0x6f, 0x6d, 0x00,
    ];
    let end = parse_name(&data, 0);
    assert_eq!(end, Some(13));
}

#[test]
fn test_parse_name_compressed() {
    // A pointer to offset 0x000c
    let data = [0xc0, 0x0c];
    let end = parse_name(&data, 0);
    assert_eq!(end, Some(2));
}

#[test]
fn build_query_full_layout() {
    let query = build_dns_query("example.com");
    let expected: Vec<u8> = vec![
        0x12, 0x34, 0x01, 0x00, 0x00, 0x01, 0x00, 0x00, 0x00, 0x00, 0x00, 0x00, 0x07, b'e', b'x',
        b'a', b'm', b'p', b'l', b'e', 0x03, b'c', b'o', b'm', 0x00, 0x00, 0x01, 0x00, 0x01,
    ];
    assert_eq!(query, expected);
    assert_eq!(query.len(), "example.com".len() + 18);
}

#[test]
fn build_query_empty_and_trailing_dot() {
    let empty = build_dns_query("");
    assert_eq!(empty.len(), 18);
    assert_eq!(&empty[12..], &[0x00, 0x00, 0x00, 0x01, 0x00, 0x01]);
    let dotted = build_dns_query("a.");
    assert_eq!(&dotted[12..], &[0x01, b'a', 0x00, 0x00, 0x00, 0x01, 0x00, 0x01]);
}

#[test]
fn build_query_long_label_length_wraps() {
    let label = "x".repeat(300);
    let query = build_dns_query(&label);
    assert_eq!(query[12], (300 % 256) as u8);
    assert_eq!(query.len(), 300 + 18);
}

#[test]
fn build_query_non_ascii_counts_bytes() {
    let query = build_dns_query("\u{e9}.fr");
    assert_eq!(&query[12..17], &[0x02, 0xc3, 0xa9, 0x02, b'f']);
}

#[test]
fn query_name_is_read_back_and_query_has_no_answers() {
    let query = build_dns_query("dns.google");
    assert_eq!(parse_name(&query, 12), Some(query.len() - 4));
    assert!(parse_dns_response(&query).is_none());
}

#[test]
fn parse_name_cut_short() {
    assert_eq!(parse_name(&[0x05, b'a', b'b'], 0), None);
    assert_eq!(parse_name(&[0xc0], 0), None);
    assert_eq!(parse_name(&[0x00], 1), None);
    assert_eq!(parse_name(&[0x01, b'a'], 0), None);
}

#[test]
fn parse_response_two_answers_skips_other_types() {
    let mut response = vec![0x12, 0x34, 0x81, 0x80, 0x00, 0x00, 0x00, 0x03, 0x00, 0x00, 0x00, 0x00];
    // CNAME-like record of type 5 with two bytes of data
    response.extend_from_slice(&[0xc0, 0x0c, 0x00, 0x05, 0x00, 0x01, 0, 0, 0, 60, 0x00, 0x02, 0xc0, 0x0c]);
    // A record 10.0.0.1
    response.extend_from_slice(&[0xc0, 0x0c, 0x00, 0x01, 0x00, 0x01, 0, 0, 0, 60, 0x00, 0x04, 10, 0, 0, 1]);
    // A record 255.255.0.9
    response.extend_from_slice(&[0xc0, 0x0c, 0x00, 0x01, 0x00, 0x01, 0, 0, 0, 60, 0x00, 0x04, 255, 255, 0, 9]);
    let ips = parse_dns_response(&response).unwrap();
    assert_eq!(ips, vec!["10.0.0.1".to_string(), "255.255.0.9".to_string()]);
}

#[test]
fn parse_response_truncated_answer_keeps_what_it_has() {
    let mut response = vec![0x12, 0x34, 0x81, 0x80, 0x00, 0x00, 0x00, 0x02, 0x00, 0x00, 0x00, 0x00];
    response.extend_from_slice(&[0xc0, 0x0c, 0x00, 0x01, 0x00, 0x01, 0, 0, 0, 60, 0x00, 0x04, 1, 2, 3, 4]);
    response.extend_from_slice(&[0xc0, 0x0c, 0x00, 0x01]);
    assert_eq!(parse_dns_response(&response).unwrap(), vec!["1.2.3.4".to_string()]);
}

#[test]
fn parse_response_bad_question_or_answer_name() {
    let response = [0x12, 0x34, 0x81, 0x80, 0x00, 0x01, 0x00, 0x01, 0x00, 0x00, 0x00, 0x00, 0x07, b'a'];
    assert!(parse_dns_response(&response).is_none());
    let response = [0x12, 0x34, 0x81, 0x80, 0x00, 0x00, 0x00, 0x01, 0x00, 0x00, 0x00, 0x00, 0x09, b'a'];
    assert!(parse_dns_response(&response).is_none());
}

#[test]
fn parse_response_header_only_with_answers_is_empty() {
    let response = [0x12, 0x34, 0x81, 0x80, 0x00, 0x00, 0x00, 0x01, 0x00, 0x00, 0x00, 0x00];
    assert_eq!(parse_dns_response(&response), Some(vec![]));
}

#[test]
fn ipv4_text() {
    assert_eq!(format_ipv4(0, 10, 100, 255), "0.10.100.255");
}

#[test]
fn parse_name_depends_only_on_the_name() {
    let data = [0x00, 0x03, b'w', b'w', b'w', 0x00, 0xaa, 0xbb];
    assert_eq!(parse_name(&data, 1), Some(6));
    assert_eq!(parse_name(&data[..6], 1), Some(6));
    let mut longer = data.to_vec();
    longer.extend_from_slice(&[1, 2, 3]);
    assert_eq!(parse_name(&longer, 1), Some(6));
}

#[test]
fn appended_bytes_after_whole_response_are_ignored() {
    let response = vec![
        0x12, 0x34, 0x81, 0x80, 0x00, 0x01, 0x00, 0x01, 0x00, 0x00, 0x00, 0x00, 0x07, 0x65, 0x78, 0x61,
        0x6d, 0x70, 0x6c, 0x65, 0x03, 0x63, 0x6f, 0x6d, 0x00, 0x00, 0x01, 0x00, 0x01, 0xc0, 0x0c, 0x00,
        0x01, 0x00, 0x01, 0x00, 0x00, 0x00, 0x3c, 0x00, 0x04, 0x93, 0x18, 0x22, 0x34,
    ];
    let mut longer = response.clone();
    longer.extend_from_slice(&[0xc0, 0x0c, 0x00, 0x01, 0xff, 0xff]);
    assert_eq!(parse_dns_response(&longer), parse_dns_response(&response));
    assert_eq!(parse_dns_response(&longer), Some(vec!["147.24.34.52".to_string()]));
}
