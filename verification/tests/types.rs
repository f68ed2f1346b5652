use doh_tester::types::{Config, DoHResult, DoHStatus, JsonOutput, JsonSetting};

#[test]
fn new_result_is_blocked_and_empty() {
    let r = DoHResult::new("https://x/q".to_string(), "x".to_string(), 443, 3);
    assert_eq!(r.status, DoHStatus::Blocked);
    assert_eq!(r.attempts, 3);
    assert_eq!(r.successes, 0);
    assert!(!r.tcp_ok && !r.tls_ok);
    assert!(r.notes.is_empty());
    assert_eq!(r.target_ips, "");
}

#[test]
fn interrupted_result_has_note() {
    let r = DoHResult::interrupted("https://x/q".to_string(), "x".to_string(), 443, 3);
    assert_eq!(r.status, DoHStatus::Interrupted);
    assert_eq!(r.notes, vec!["interrupted_before_testing".to_string()]);
}

#[test]
fn default_config_values() {
    let c = Config::default();
    assert_eq!(c.doh_file, "doh.txt");
    assert_eq!(c.output_file, "");
    assert_eq!((c.workers, c.attempts, c.min_success), (20, 3, 2));
    assert!(!c.working_only && !c.remove_working_from_doh_file);
    assert!(matches!(c.json_output, JsonOutput::Disabled));
    assert!(c.show_headers && c.show_status && c.show_doh_url && c.show_host && c.show_doh_ip);
    assert!(!c.show_target_ip && c.show_ping);
    assert!(matches!(JsonOutput::default(), JsonOutput::Disabled));
}

#[test]
fn json_output_setting_reading() {
    assert!(matches!(JsonOutput::from_setting(JsonSetting::Flag(true)), JsonOutput::Auto));
    assert!(matches!(JsonOutput::from_setting(JsonSetting::Flag(false)), JsonOutput::Disabled));
    assert!(matches!(JsonOutput::from_setting(JsonSetting::Name(String::new())), JsonOutput::Disabled));
    match JsonOutput::from_setting(JsonSetting::Name("r.json".to_string())) {
        JsonOutput::Filename(n) => assert_eq!(n, "r.json"),
        _ => panic!("expected a file name"),
    }
}

#[test]
fn json_output_setting_round_trip() {
    for o in [JsonOutput::Disabled, JsonOutput::Auto, JsonOutput::Filename("out.json".to_string())] {
        let back = JsonOutput::from_setting(o.to_setting());
        assert_eq!(format!("{:?}", back), format!("{:?}", o));
    }
    assert!(matches!(JsonOutput::Filename(String::new()).to_setting(), JsonSetting::Name(ref n) if n.is_empty()));
}
