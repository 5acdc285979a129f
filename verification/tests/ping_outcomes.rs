use netwatch_monitor::ping::{
    dns_failure_message, ping_command, ping_command_windows, ping_result, success_latency_texts, PingResult, PingStats,
    ProbeOutcome,
};

fn result(success: bool, latency: Option<&str>, ttl: Option<u32>, dns: Option<&str>) -> PingResult {
    PingResult {
        timestamp_ms: 0,
        success,
        latency_text: latency.map(|s| s.to_string()),
        ttl,
        dns_error: dns.map(|s| s.to_string()),
    }
}

#[test]
fn dns_failure_unknown_host() {
    assert_eq!(
        dns_failure_message("", "ping: unknown host nonexistent.example").as_deref(),
        Some("DNS resolution failed")
    );
}

#[test]
fn dns_failure_is_case_insensitive() {
    assert_eq!(
        dns_failure_message("PING: COULD NOT FIND HOST", "").as_deref(),
        Some("DNS resolution failed")
    );
    assert_eq!(
        dns_failure_message("", "Неизвестное имя узла").as_deref(),
        Some("DNS resolution failed")
    );
}

#[test]
fn dns_failure_spans_the_joining_space() {
    // stdout and stderr are joined by one space before the search.
    assert_eq!(dns_failure_message("no address", "associated with hostname").as_deref(), Some("DNS resolution failed"));
}

#[test]
fn dns_markers_in_lowered_text() {
    assert!(netwatch_monitor::ping::mentions_dns_failure_text("ping: nodename nor servname provided"));
    assert!(!netwatch_monitor::ping::mentions_dns_failure_text("PING: UNKNOWN HOST"));
}

#[test]
fn plain_loss_is_no_dns_failure() {
    assert_eq!(dns_failure_message("1 packets transmitted, 0 received, 100% packet loss", ""), None);
}

#[test]
fn result_of_successful_ping() {
    let r = ping_result(
        42,
        ProbeOutcome::Exited {
            success: true,
            stdout: "64 bytes from 1.1.1.1: icmp_seq=1 ttl=57 time=3.21 ms\n".to_string(),
            stderr: String::new(),
        },
    );
    assert_eq!(r.timestamp_ms, 42);
    assert!(r.success);
    assert_eq!(r.latency_text.as_deref(), Some("3.21"));
    assert_eq!(r.ttl, Some(57));
    assert_eq!(r.dns_error, None);
}

#[test]
fn result_of_failed_ping() {
    let r = ping_result(
        7,
        ProbeOutcome::Exited {
            success: false,
            stdout: String::new(),
            stderr: "ping: bad.host: Name or service not known\nping: unknown host".to_string(),
        },
    );
    assert!(!r.success);
    assert_eq!(r.latency_text, None);
    assert_eq!(r.ttl, None);
    assert_eq!(r.dns_error.as_deref(), Some("DNS resolution failed"));
}

#[test]
fn result_of_timeout() {
    let r = ping_result(1, ProbeOutcome::TimedOut);
    assert!(!r.success);
    assert_eq!(r.dns_error.as_deref(), Some("Ping timeout exceeded"));
}

#[test]
fn result_of_spawn_and_wait_failures() {
    for outcome in [ProbeOutcome::SpawnFailed, ProbeOutcome::WaitFailed] {
        let r = ping_result(1, outcome);
        assert!(!r.success);
        assert_eq!(r.latency_text, None);
        assert_eq!(r.ttl, None);
        assert_eq!(r.dns_error, None);
    }
}

#[test]
fn command_rounds_timeout_up_to_seconds() {
    let c = ping_command("8.8.8.8", 1000);
    assert_eq!(c.args, vec!["-c", "1", "-W", "1", "8.8.8.8"]);
    assert_eq!(c.wait_limit_ms, 1500);
    assert_eq!(ping_command("h", 1001).args[3], "2");
    assert_eq!(ping_command("h", 2500).args[3], "3");
}

#[test]
fn command_gives_at_least_one_second() {
    let c = ping_command("h", 0);
    assert_eq!(c.args[3], "1");
    assert_eq!(c.wait_limit_ms, 500);
}

#[test]
fn stats_of_no_results() {
    let s = PingStats::from_results(&[]);
    assert_eq!(s.total_pings, 0);
    assert_eq!(s.successful_pings, 0);
    assert_eq!(s.ttl, None);
    assert_eq!(s.dns_error, None);
}

#[test]
fn stats_counts_and_firsts() {
    let results = vec![
        result(false, None, None, None),
        result(false, None, None, Some("DNS resolution failed")),
        result(true, Some("10.5"), Some(60), None),
        result(true, Some("11"), Some(61), None),
        result(false, None, None, Some("Ping timeout exceeded")),
    ];
    let s = PingStats::from_results(&results);
    assert_eq!(s.total_pings, 5);
    assert_eq!(s.successful_pings, 2);
    assert_eq!(s.ttl, Some(60));
    assert_eq!(s.dns_error.as_deref(), Some("DNS resolution failed"));
}

#[test]
fn stats_ttl_of_first_success_even_when_missing() {
    let results = vec![result(true, Some("1"), None, None), result(true, Some("2"), Some(9), None)];
    assert_eq!(PingStats::from_results(&results).ttl, None);
}

#[test]
fn latencies_of_successes_in_order() {
    let results = vec![
        result(true, Some("1.5"), None, None),
        result(false, None, None, None),
        result(true, None, None, None),
        result(true, Some("2"), None, None),
    ];
    assert_eq!(success_latency_texts(&results), vec!["1.5".to_string(), "2".to_string()]);
}

#[test]
fn windows_command_uses_milliseconds() {
    let c = ping_command_windows("8.8.8.8", 1500);
    assert_eq!(c.args, vec!["-n", "1", "-w", "1500", "8.8.8.8"]);
    assert_eq!(c.wait_limit_ms, 2000);
}

#[test]
fn stats_counts_ignore_order() {
    let a = vec![
        result(true, Some("1"), Some(1), None),
        result(false, None, None, Some("Ping timeout exceeded")),
        result(true, Some("2"), Some(2), None),
    ];
    let b = vec![a[2].clone(), a[0].clone(), a[1].clone()];
    let (sa, sb) = (PingStats::from_results(&a), PingStats::from_results(&b));
    assert_eq!((sa.total_pings, sa.successful_pings), (sb.total_pings, sb.successful_pings));
}
