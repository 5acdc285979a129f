use netwatch_monitor::ping::{extract_ttl, parses_as_float, latency_text};

fn latency(output: &str) -> Option<f64> {
    latency_text(output).and_then(|t| t.parse::<f64>().ok())
}

#[test]
fn test_extract_latency_linux() {
    let output = "PING 8.8.8.8 (8.8.8.8) 56(84) bytes of data.\n64 bytes from 8.8.8.8: icmp_seq=1 ttl=116 time=12.3 ms";
    assert!(latency(output).is_some());
}

#[test]
fn test_extract_latency_windows() {
    let output = "Reply from 8.8.8.8: bytes=32 time=15ms TTL=116";
    assert!(latency(output).is_some());
}

#[test]
fn latency_text_linux_value() {
    let output = "64 bytes from 8.8.8.8: icmp_seq=1 ttl=116 time=12.3 ms\n";
    assert_eq!(latency_text(output).as_deref(), Some("12.3"));
    assert_eq!(latency(output), Some(12.3));
}

#[test]
fn latency_text_windows_value() {
    assert_eq!(latency_text("Reply from 8.8.8.8: bytes=32 time=15ms TTL=116").as_deref(), Some("15"));
}

#[test]
fn latency_text_needs_a_terminator() {
    // The number runs to the end of the text: nothing ends it.
    assert_eq!(latency_text("time=12.3"), None);
}

#[test]
fn latency_text_windows_below_one_ms() {
    // `time<1ms` has no `time=`; `time=<1ms` gives an empty token.
    assert_eq!(latency_text("Reply from 1.1.1.1: bytes=32 time<1ms TTL=57"), None);
    assert_eq!(latency_text("time=<1ms"), None);
}

#[test]
fn latency_text_macos_summary_line() {
    let output = "round-trip min/avg/max/stddev = 0.123/0.456/0.789/0.012 ms";
    assert_eq!(latency_text(output).as_deref(), Some("0.123"));
    assert_eq!(latency(output), Some(0.123));
}

#[test]
fn latency_text_linux_summary_line() {
    assert_eq!(
        latency_text("rtt min/avg/max/mdev = 9.5/9.5/9.5/0.000 ms").as_deref(),
        Some("9.5")
    );
    // A number right after the field names is taken first.
    assert_eq!(latency_text("rtt min/avg/max/12.5/x").as_deref(), Some("12.5"));
    // Without a `/` after it nothing ends the value.
    assert_eq!(latency_text("min/avg/max/ = 3"), None);
}

#[test]
fn latency_text_first_time_wins() {
    assert_eq!(latency_text("time=1.5 ms time=2.5 ms").as_deref(), Some("1.5"));
}

#[test]
fn latency_text_trims_spaces() {
    assert_eq!(latency_text("time= 7 ms").as_deref(), Some("7"));
    // An inner space makes it no number.
    assert_eq!(latency_text("time=1 2ms"), None);
}

#[test]
fn float_grammar_matches_std() {
    let cases = [
        "1", "1.", ".5", ".", "", "+", "-", "1e5", "1E5", "1e", "e5", "1e+5", "1e-5", "1.5e3",
        "inf", "INF", "-inf", "+Infinity", "infinity", "nan", "NaN", "-nan", "1.2.3", " 1", "1 ",
        "0x10", "12ms", "+.5", "-.e1", "5.e2", "infin", "nana", "1_0", "١",
    ];
    for c in cases.iter() {
        let chars: Vec<char> = c.chars().collect();
        assert_eq!(parses_as_float(&chars), c.parse::<f64>().is_ok(), "case {:?}", c);
    }
}

#[test]
fn ttl_lower_case() {
    assert_eq!(extract_ttl("64 bytes from 8.8.8.8: icmp_seq=1 ttl=116 time=12.3 ms"), Some(116));
}

#[test]
fn ttl_upper_case() {
    assert_eq!(extract_ttl("Reply from 8.8.8.8: bytes=32 time=15ms TTL=116\r\n"), Some(116));
}

#[test]
fn ttl_at_end_of_text() {
    assert_eq!(extract_ttl("Reply from 8.8.8.8: bytes=32 time=15ms TTL=116"), Some(116));
    assert_eq!(extract_ttl("TTL=116"), Some(116));
    assert_eq!(extract_ttl("ttl="), None);
}

#[test]
fn ttl_lower_case_wins() {
    assert_eq!(extract_ttl("ttl=5 TTL=7 "), Some(5));
}

#[test]
fn ttl_falls_back_to_upper_case() {
    assert_eq!(extract_ttl("ttl=x TTL=7 "), Some(7));
}

#[test]
fn ttl_too_large() {
    assert_eq!(extract_ttl("ttl=4294967296 "), None);
    assert_eq!(extract_ttl("ttl=4294967295 "), Some(4294967295));
}

#[test]
fn ttl_missing() {
    assert_eq!(extract_ttl("no reply"), None);
}
