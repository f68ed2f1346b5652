use doh_tester::report::{
    choose_output_path, json_flag_path, json_target, method_name, progress_line, selected_indices, status_name,
    summary_line, table_row, text_table_lines, working_urls, JsonTarget,
};
use doh_tester::types::{Config, DoHMethod, DoHResult, DoHStatus, JsonOutput};

fn result(url: &str, status: DoHStatus) -> DoHResult {
    let mut r = DoHResult::new(url.to_string(), "host".to_string(), 443, 3);
    r.status = status;
    r
}

#[test]
fn names_and_marks() {
    assert_eq!(status_name(DoHStatus::Interrupted), "Interrupted");
    assert_eq!(method_name(DoHMethod::PostWire), "PostWire");
    assert_eq!(
        progress_line(3, 10, DoHStatus::Working, "https://a", &Some("45".to_string())),
        "[3/10] \u{2713} https://a (45ms)"
    );
    assert_eq!(progress_line(1, 2, DoHStatus::Blocked, "u", &None), "[1/2] \u{2717} u (-ms)");
    assert_eq!(progress_line(1, 2, DoHStatus::Flaky, "u", &None), "[1/2] ~ u (-ms)");
    assert_eq!(progress_line(1, 2, DoHStatus::Interrupted, "u", &None), "[1/2] ! u (-ms)");
}

#[test]
fn table_with_headers() {
    let c = Config::default();
    let mut w = result("https://cloudflare-dns.com/dns-query", DoHStatus::Working);
    w.host = "cloudflare-dns.com".to_string();
    w.doh_server_ip = Some("104.16.249.249".to_string());
    let b = result("https://blocked.example/dns-query", DoHStatus::Blocked);
    let results = vec![w, b];
    let pings = vec![Some("45.2".to_string()), None];
    let lines = text_table_lines(&results, &pings, &c, false, "2026-02-09 12:30:00");
    assert_eq!(lines.len(), 5);
    assert_eq!(lines[0], "# Generated: 2026-02-09 12:30:00");
    let titles = format!("{:<8} {:<40} {:<25} {:<18} {:<10}", "STATUS", "URL", "HOST", "DOH_IP", "PING_MS");
    assert_eq!(lines[1], titles);
    assert_eq!(lines[2], "-".repeat(titles.len()));
    assert_eq!(
        lines[3],
        format!("{:<8} {:<40} {:<25} {:<18} {:<10}", "Working", "https://cloudflare-dns.com/dns-query", "cloudflare-dns.com", "104.16.249.249", "45.2")
    );
    assert_eq!(
        lines[4],
        format!("{:<8} {:<40} {:<25} {:<18} {:<10}", "Blocked", "https://blocked.example/dns-query", "host", "-", "-")
    );
}

#[test]
fn table_working_only_and_columns() {
    let mut c = Config::default();
    c.show_headers = false;
    c.show_host = false;
    c.show_doh_ip = false;
    c.show_target_ip = true;
    let mut w = result("https://a-very-long-url.example.com/dns-query/extra", DoHStatus::Working);
    w.target_ips = "1.2.3.4,5.6.7.8".to_string();
    let results = vec![result("https://f/q", DoHStatus::Flaky), w];
    let pings = vec![None, Some("3.0".to_string())];
    let lines = text_table_lines(&results, &pings, &c, true, "t");
    assert_eq!(lines.len(), 1);
    assert_eq!(
        lines[0],
        format!("{:<8} {:<40} {:<18} {:<10}", "Working", &"https://a-very-long-url.example.com/dns-query/extra"[..38], "1.2.3.4,5.6.7.8", "3.0")
    );
    assert_eq!(selected_indices(&results, true), vec![1]);
    assert_eq!(selected_indices(&results, false), vec![0, 1]);
}

#[test]
fn table_row_status_wider_than_column() {
    let c = Config::default();
    let r = result("u", DoHStatus::Interrupted);
    let row = table_row(&c, &r, &None);
    assert!(row.starts_with("Interrupted u"));
}

#[test]
fn clean_and_summary() {
    let results = vec![
        result("https://w1", DoHStatus::Working),
        result("https://b", DoHStatus::Blocked),
        result("https://w2", DoHStatus::Working),
        result("https://f", DoHStatus::Flaky),
    ];
    assert_eq!(working_urls(&results), vec!["https://w1".to_string(), "https://w2".to_string()]);
    assert_eq!(
        summary_line(&results, "out.txt", false),
        "Done. Results saved to out.txt. WORKING=2, FLAKY=1, BLOCKED=1 [full details]"
    );
    let more = vec![result("i", DoHStatus::Interrupted)];
    assert_eq!(
        summary_line(&more, "o", true),
        "Done. Results saved to o. WORKING=0, FLAKY=0, BLOCKED=0, INTERRUPTED=1 [working-only]"
    );
}

#[test]
fn json_targets() {
    assert!(matches!(json_target(&JsonOutput::Auto), JsonTarget::Timestamped));
    assert!(matches!(json_target(&JsonOutput::Disabled), JsonTarget::Nowhere));
    match json_target(&JsonOutput::Filename("r.json".to_string())) {
        JsonTarget::File(f) => assert_eq!(f, "r.json"),
        _ => panic!("expected a file"),
    }
}

#[test]
fn output_paths() {
    assert_eq!(choose_output_path(Some("a.txt".to_string()), &"b.txt".to_string(), "t.txt".to_string()), "a.txt");
    assert_eq!(choose_output_path(None, &"b.txt".to_string(), "t.txt".to_string()), "b.txt");
    assert_eq!(choose_output_path(None, &String::new(), "t.txt".to_string()), "t.txt");
    assert_eq!(json_flag_path(String::new(), "t.json".to_string()), "t.json");
    assert_eq!(json_flag_path("x.json".to_string(), "t.json".to_string()), "x.json");
}

#[test]
fn summary_counts_add_up() {
    let statuses = [DoHStatus::Working, DoHStatus::Flaky, DoHStatus::Blocked, DoHStatus::Interrupted, DoHStatus::Working];
    let results: Vec<DoHResult> = statuses.iter().map(|s| result("u", *s)).collect();
    let line = summary_line(&results, "p", false);
    assert_eq!(line, "Done. Results saved to p. WORKING=2, FLAKY=1, BLOCKED=1, INTERRUPTED=1 [full details]");
}
