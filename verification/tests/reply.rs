use doh_tester::probe::ReplyOutcome;
use doh_tester::reply::{
    body_failure, check_reply_head, read_json_body, read_wire_body, send_failure, status_line, str_contains,
};
use doh_tester::types::DoHMethod;

fn answered(o: ReplyOutcome) -> Vec<String> {
    match o {
        ReplyOutcome::Answered(v) => v,
        _ => panic!("expected addresses"),
    }
}

fn failed(o: ReplyOutcome) -> String {
    match o {
        ReplyOutcome::Failed(m) => m,
        _ => panic!("expected a failure"),
    }
}

#[test]
fn status_lines_use_reason_phrase() {
    assert_eq!(status_line(200), "200 OK");
    assert_eq!(status_line(404), "404 Not Found");
    assert_eq!(status_line(599), "599 <unknown status code>");
}

#[test]
fn head_check_by_status_and_content_type() {
    assert_eq!(check_reply_head(DoHMethod::GetWire, 200, "application/dns-message"), None);
    assert_eq!(
        check_reply_head(DoHMethod::PostWire, 503, "text/html"),
        Some("POST-wire-503 Service Unavailable".to_string())
    );
    assert_eq!(
        check_reply_head(DoHMethod::GetWire, 200, "text/html"),
        Some("GET-wire-bad-content-type:text/html".to_string())
    );
    assert_eq!(check_reply_head(DoHMethod::GetJson, 200, "application/dns-json"), None);
    assert_eq!(
        check_reply_head(DoHMethod::GetJson, 200, ""),
        Some("GET-json-bad-content-type:".to_string())
    );
}

#[test]
fn failure_messages() {
    assert_eq!(send_failure(DoHMethod::GetJson, "timeout"), "GET-json-exc:timeout");
    assert_eq!(body_failure(DoHMethod::GetWire, "eof"), "GET-wire-parse-fail:eof");
}

#[test]
fn contains_substring() {
    assert!(str_contains("application/dns-message", "dns-message"));
    assert!(!str_contains("dns", "dns-message"));
    assert!(str_contains("abc", ""));
}

#[test]
fn wire_body_outcomes() {
    let response = [
        0x12, 0x34, 0x81, 0x80, 0x00, 0x01, 0x00, 0x01, 0x00, 0x00, 0x00, 0x00, 0x07, 0x65, 0x78, 0x61,
        0x6d, 0x70, 0x6c, 0x65, 0x03, 0x63, 0x6f, 0x6d, 0x00, 0x00, 0x01, 0x00, 0x01, 0xc0, 0x0c, 0x00,
        0x01, 0x00, 0x01, 0x00, 0x00, 0x00, 0x3c, 0x00, 0x04, 0x93, 0x18, 0x22, 0x34,
    ];
    assert_eq!(answered(read_wire_body(DoHMethod::GetWire, &response)), vec!["147.24.34.52".to_string()]);
    assert_eq!(failed(read_wire_body(DoHMethod::PostWire, &[0, 1])), "POST-wire-parse-fail");
    let empty = [0x12, 0x34, 0x81, 0x80, 0x00, 0x00, 0x00, 0x01, 0x00, 0x00, 0x00, 0x00];
    assert!(matches!(read_wire_body(DoHMethod::GetWire, &empty), ReplyOutcome::NoAnswer));
}

#[test]
fn json_body_outcomes() {
    let body = br#"{"Status":0,"Answer":[{"name":"a.","type":5,"data":"b."},{"name":"b.","type":1,"data":"1.2.3.4"},{"type":1,"data":7},{"type":1,"data":"5.6.7.8"}]}"#;
    assert_eq!(answered(read_json_body(body)), vec!["1.2.3.4".to_string(), "5.6.7.8".to_string()]);
    assert!(matches!(read_json_body(br#"{"Status":3}"#), ReplyOutcome::NoAnswer));
    assert!(matches!(read_json_body(br#"{"Answer":[{"type":28,"data":"::1"}]}"#), ReplyOutcome::NoAnswer));
    assert_eq!(failed(read_json_body(b"<html>")), "GET-json-parse-fail:error decoding response body");
}
