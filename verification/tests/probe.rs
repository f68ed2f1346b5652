use doh_tester::probe::{EndpointProbe, ProbeAction, ProbeEvent, ProbePhase, ReplyOutcome};
use doh_tester::types::{DoHMethod, DoHStatus};

fn flag(requested: bool) -> ProbeEvent {
    ProbeEvent::ShutdownFlag { requested }
}

fn connect(p: &mut EndpointProbe) {
    p.step(ProbeEvent::TcpChecked { ok: true, ip: Some("1.1.1.1".to_string()), error: None });
    p.step(ProbeEvent::TlsChecked { ok: true, info: Some("ok".to_string()), error: None });
}

#[test]
fn probe_working_after_enough_answers() {
    let mut p = EndpointProbe::begin("https://dns.example:8443/q", "example.com", 3, 2, true, false);
    match p.action() {
        ProbeAction::ConnectTcp { host, port } => {
            assert_eq!(host, "dns.example");
            assert_eq!(port, 8443);
        }
        _ => panic!("expected a TCP connect"),
    }
    p.step(ProbeEvent::TcpChecked { ok: true, ip: Some("1.1.1.1".to_string()), error: None });
    match p.action() {
        ProbeAction::Handshake { verify_tls, .. } => assert!(verify_tls),
        _ => panic!("expected a handshake"),
    }
    p.step(ProbeEvent::TlsChecked { ok: true, info: Some("ok".to_string()), error: None });
    for slot in 0..3u64 {
        assert!(matches!(p.action(), ProbeAction::ReadShutdownFlag));
        p.step(flag(false));
        match p.action() {
            ProbeAction::SendGetWire { url } => {
                assert!(url.starts_with("https://dns.example:8443/q?dns=EjQBAAABAAAAAAAAB2V4YW1wbGUDY29tAAABAAE"));
            }
            _ => panic!("expected a GET wire request"),
        }
        let ips = vec![format!("10.0.0.{}", slot)];
        p.step(ProbeEvent::Reply { outcome: ReplyOutcome::Answered(ips), latency_slot: slot });
    }
    p.step(flag(false));
    assert_eq!(p.phase(), ProbePhase::Done);
    let (r, slot) = p.into_result();
    assert_eq!(r.status, DoHStatus::Working);
    assert_eq!(r.successes, 3);
    assert_eq!(r.target_ips, "10.0.0.2");
    assert_eq!(r.method, Some(DoHMethod::GetWire));
    assert_eq!(slot, Some(2));
    assert!(r.tcp_ok && r.tls_ok);
    assert_eq!(r.doh_server_ip, Some("1.1.1.1".to_string()));
    assert!(r.notes.is_empty());
}

#[test]
fn probe_falls_back_through_methods() {
    let mut p = EndpointProbe::begin("https://d/q", "a.b", 1, 1, false, false);
    connect(&mut p);
    p.step(flag(false));
    p.step(ProbeEvent::Reply { outcome: ReplyOutcome::NoAnswer, latency_slot: 0 });
    match p.action() {
        ProbeAction::SendPostWire { url, body } => {
            assert_eq!(url, "https://d/q");
            assert_eq!(body, doh_tester::dns::build_dns_query("a.b"));
        }
        _ => panic!("expected a POST"),
    }
    p.step(ProbeEvent::Reply { outcome: ReplyOutcome::NoAnswer, latency_slot: 1 });
    match p.action() {
        ProbeAction::SendGetJson { url, name } => {
            assert_eq!(url, "https://d/q");
            assert_eq!(name, "a.b");
        }
        _ => panic!("expected a JSON GET"),
    }
    p.step(ProbeEvent::Reply {
        outcome: ReplyOutcome::Answered(vec!["1.2.3.4".to_string(), "5.6.7.8".to_string()]),
        latency_slot: 2,
    });
    p.step(flag(false));
    let (r, slot) = p.into_result();
    assert_eq!(r.status, DoHStatus::Working);
    assert_eq!(r.method, Some(DoHMethod::GetJson));
    assert_eq!(r.target_ips, "1.2.3.4,5.6.7.8");
    assert_eq!(slot, Some(2));
}

#[test]
fn probe_flaky_and_notes() {
    let mut p = EndpointProbe::begin("https://d/q", "a.b", 3, 2, true, false);
    connect(&mut p);
    p.step(flag(false));
    p.step(ProbeEvent::Reply { outcome: ReplyOutcome::Failed("GET-wire-404 Not Found".to_string()), latency_slot: 0 });
    p.step(ProbeEvent::Reply { outcome: ReplyOutcome::NoAnswer, latency_slot: 0 });
    p.step(ProbeEvent::Reply { outcome: ReplyOutcome::Failed("GET-json-404 Not Found".to_string()), latency_slot: 0 });
    p.step(flag(false));
    p.step(ProbeEvent::Reply { outcome: ReplyOutcome::NoAnswer, latency_slot: 1 });
    p.step(ProbeEvent::Reply { outcome: ReplyOutcome::NoAnswer, latency_slot: 2 });
    p.step(ProbeEvent::Reply { outcome: ReplyOutcome::NoAnswer, latency_slot: 3 });
    p.step(flag(false));
    p.step(ProbeEvent::Reply { outcome: ReplyOutcome::Answered(vec!["9.9.9.9".to_string()]), latency_slot: 4 });
    p.step(flag(false));
    let (r, slot) = p.into_result();
    assert_eq!(r.status, DoHStatus::Flaky);
    assert_eq!(r.successes, 1);
    assert_eq!(slot, Some(4));
    assert_eq!(
        r.notes,
        vec![
            "attempt1:GET-json-404 Not Found".to_string(),
            "attempt2:no_response".to_string(),
            "tls_ok_but_no_doh_answers".to_string(),
        ]
    );
}

#[test]
fn probe_blocked_without_answers() {
    let mut p = EndpointProbe::begin("https://d/q", "a.b", 1, 2, true, false);
    connect(&mut p);
    p.step(flag(false));
    p.step(ProbeEvent::Reply { outcome: ReplyOutcome::Failed("w".to_string()), latency_slot: 0 });
    p.step(ProbeEvent::Reply { outcome: ReplyOutcome::Failed("p".to_string()), latency_slot: 1 });
    p.step(ProbeEvent::Reply { outcome: ReplyOutcome::Failed("x".to_string()), latency_slot: 2 });
    p.step(flag(false));
    let (r, slot) = p.into_result();
    assert_eq!(r.status, DoHStatus::Blocked);
    assert_eq!(slot, None);
    assert_eq!(r.notes, vec!["attempt1:x".to_string(), "tls_ok_but_no_doh_answers".to_string()]);
    assert_eq!(r.target_ips, "");
    assert_eq!(r.method, None);
}

#[test]
fn probe_tcp_failure_blocks() {
    let mut p = EndpointProbe::begin("https://d/q", "a.b", 3, 2, true, false);
    p.step(ProbeEvent::TcpChecked { ok: false, ip: None, error: Some("TCP connection failed".to_string()) });
    assert!(matches!(p.action(), ProbeAction::Finished));
    let (r, _) = p.into_result();
    assert_eq!(r.status, DoHStatus::Blocked);
    assert!(!r.tcp_ok);
    assert_eq!(r.notes, vec!["tcp_connect_failed:TCP connection failed".to_string()]);
}

#[test]
fn probe_tls_failure_blocks() {
    let mut p = EndpointProbe::begin("https://d/q", "a.b", 3, 2, true, false);
    p.step(ProbeEvent::TcpChecked { ok: true, ip: Some("2.2.2.2".to_string()), error: None });
    p.step(ProbeEvent::TlsChecked { ok: false, info: None, error: None });
    let (r, _) = p.into_result();
    assert_eq!(r.status, DoHStatus::Blocked);
    assert!(r.tcp_ok && !r.tls_ok);
    assert_eq!(r.notes, vec!["tls_handshake_failed:".to_string()]);
}

#[test]
fn probe_interrupted_before_start() {
    let p = EndpointProbe::begin("https://d:853/q", "a.b", 3, 2, true, true);
    assert!(matches!(p.action(), ProbeAction::Finished));
    let (r, _) = p.into_result();
    assert_eq!(r.status, DoHStatus::Interrupted);
    assert_eq!(r.port, 853);
    assert_eq!(r.notes, vec!["interrupted_before_testing".to_string()]);
}

#[test]
fn probe_interrupted_between_attempts() {
    let mut p = EndpointProbe::begin("https://d/q", "a.b", 3, 1, true, false);
    connect(&mut p);
    p.step(flag(false));
    p.step(ProbeEvent::Reply { outcome: ReplyOutcome::Answered(vec!["1.1.1.1".to_string()]), latency_slot: 7 });
    p.step(flag(true));
    p.step(flag(true));
    let (r, slot) = p.into_result();
    assert_eq!(r.status, DoHStatus::Interrupted);
    assert_eq!(r.successes, 1);
    assert_eq!(slot, Some(7));
    assert_eq!(r.notes, vec!["interrupted_at_attempt2".to_string()]);
}

#[test]
fn probe_zero_attempts_and_ignored_events() {
    let mut p = EndpointProbe::begin("https://d/q", "a.b", 0, 0, true, false);
    p.step(flag(false));
    assert_eq!(p.phase(), ProbePhase::Connecting);
    connect(&mut p);
    assert_eq!(p.phase(), ProbePhase::Closing);
    p.step(flag(false));
    let (r, _) = p.into_result();
    assert_eq!(r.status, DoHStatus::Working);
}

#[test]
fn probe_finishes_within_bound() {
    let attempts = 4u32;
    let mut p = EndpointProbe::begin("https://d/q", "a.b", attempts, 2, true, false);
    let mut steps = 0u32;
    while p.phase() != ProbePhase::Done {
        let event = match p.action() {
            ProbeAction::ConnectTcp { .. } => ProbeEvent::TcpChecked { ok: true, ip: None, error: None },
            ProbeAction::Handshake { .. } => ProbeEvent::TlsChecked { ok: true, info: None, error: None },
            ProbeAction::ReadShutdownFlag => flag(false),
            _ => ProbeEvent::Reply { outcome: ReplyOutcome::NoAnswer, latency_slot: 0 },
        };
        p.step(event);
        steps += 1;
    }
    assert!(steps <= 4 * attempts + 3);
}

#[test]
fn probe_done_ignores_further_events() {
    let mut p = EndpointProbe::begin("https://d/q", "a.b", 2, 1, true, false);
    p.step(ProbeEvent::TcpChecked { ok: false, ip: None, error: None });
    assert_eq!(p.phase(), ProbePhase::Done);
    p.step(ProbeEvent::TcpChecked { ok: true, ip: Some("x".to_string()), error: None });
    p.step(ProbeEvent::ShutdownFlag { requested: true });
    p.step(ProbeEvent::Reply { outcome: ReplyOutcome::Answered(vec!["1.1.1.1".to_string()]), latency_slot: 0 });
    let (r, slot) = p.into_result();
    assert_eq!(r.status, DoHStatus::Blocked);
    assert!(!r.tcp_ok);
    assert_eq!(slot, None);
    assert_eq!(r.notes, vec!["tcp_connect_failed:".to_string()]);
}

#[test]
fn probe_failed_get_wire_falls_back_to_post_wire() {
    let mut p = EndpointProbe::begin("https://d/q", "a.b", 1, 1, true, false);
    connect(&mut p);
    p.step(flag(false));
    p.step(ProbeEvent::Reply { outcome: ReplyOutcome::Failed("GET-wire-exc:timeout".to_string()), latency_slot: 0 });
    assert!(matches!(p.action(), ProbeAction::SendPostWire { .. }));
    p.step(ProbeEvent::Reply { outcome: ReplyOutcome::Answered(vec!["4.4.4.4".to_string()]), latency_slot: 1 });
    p.step(flag(false));
    let (r, slot) = p.into_result();
    assert_eq!(r.status, DoHStatus::Working);
    assert_eq!(r.method, Some(DoHMethod::PostWire));
    assert_eq!(slot, Some(1));
    assert!(r.notes.is_empty());
}

#[test]
fn probe_failed_post_wire_falls_back_to_json() {
    let mut p = EndpointProbe::begin("https://d/q", "a.b", 1, 1, true, false);
    connect(&mut p);
    p.step(flag(false));
    p.step(ProbeEvent::Reply { outcome: ReplyOutcome::NoAnswer, latency_slot: 0 });
    p.step(ProbeEvent::Reply { outcome: ReplyOutcome::Failed("POST-wire-parse-fail".to_string()), latency_slot: 1 });
    assert!(matches!(p.action(), ProbeAction::SendGetJson { .. }));
}
