use netwatch_monitor::history::History;
use netwatch_monitor::live::{continuous_ping_args, continuous_ping_args_windows, LiveAction, LiveEvent, LivePing};
use netwatch_monitor::monitor::{AppMode, Command, Key, Monitor};
use netwatch_monitor::ping::PingResult;

fn ok(ms: &str) -> PingResult {
    PingResult { timestamp_ms: 0, success: true, latency_text: Some(ms.to_string()), ttl: None, dns_error: None }
}

#[test]
fn history_keeps_the_last_entries() {
    let mut h = History::new(3);
    for i in 1..=5 {
        h.push(i);
    }
    assert_eq!(h.entries().iter().cloned().collect::<Vec<_>>(), vec![3, 4, 5]);
    assert_eq!(h.len(), 3);
    assert_eq!(h.capacity(), 3);
    assert_eq!(h.newest(), Some(&5));
}

#[test]
fn history_of_capacity_zero_stays_empty() {
    let mut h = History::new(0);
    h.push("x");
    assert_eq!(h.len(), 0);
    assert_eq!(h.newest(), None);
}

#[test]
fn history_clear() {
    let mut h = History::new(2);
    h.push(1);
    h.clear();
    assert_eq!(h.len(), 0);
    assert_eq!(h.capacity(), 2);
}

#[test]
fn monitor_starts_on_first_server() {
    let m = Monitor::new(3, 60);
    assert_eq!(m.mode(), AppMode::List);
    assert_eq!(m.selected(), 0);
    assert_eq!(m.server_count(), 3);
    assert!(m.accepts_updates());
}

#[test]
fn monitor_moves_selection_within_bounds() {
    let mut m = Monitor::new(3, 60);
    assert_eq!(m.handle_key(Key::Up), Command::Idle);
    assert_eq!(m.selected(), 0);
    m.handle_key(Key::Down);
    m.handle_key(Key::Char('j'));
    assert_eq!(m.selected(), 2);
    m.handle_key(Key::Down);
    assert_eq!(m.selected(), 2);
    m.handle_key(Key::Char('k'));
    assert_eq!(m.selected(), 1);
    m.handle_key(Key::Home);
    assert_eq!(m.selected(), 0);
    m.handle_key(Key::End);
    assert_eq!(m.selected(), 2);
}

#[test]
fn monitor_down_then_up_returns() {
    let mut m = Monitor::new(4, 60);
    m.handle_key(Key::Down);
    let before = m.selected();
    m.handle_key(Key::Down);
    m.handle_key(Key::Up);
    assert_eq!(m.selected(), before);
}

#[test]
fn monitor_quit_and_refresh_in_both_views() {
    let mut m = Monitor::new(2, 60);
    assert_eq!(m.handle_key(Key::Char('r')), Command::Refresh);
    assert_eq!(m.handle_key(Key::Char('q')), Command::Quit);
    m.handle_key(Key::Enter);
    assert_eq!(m.handle_key(Key::Char('r')), Command::Refresh);
    assert_eq!(m.handle_key(Key::Char('q')), Command::Quit);
    assert_eq!(m.mode(), AppMode::PingDetail);
}

#[test]
fn monitor_detail_round_trip() {
    let mut m = Monitor::new(3, 60);
    m.handle_key(Key::Down);
    assert_eq!(m.handle_key(Key::Enter), Command::OpenDetail { server: 1 });
    assert_eq!(m.mode(), AppMode::PingDetail);
    assert!(!m.accepts_updates());
    // Navigation keys do nothing in the live view.
    assert_eq!(m.handle_key(Key::Down), Command::Idle);
    assert_eq!(m.handle_key(Key::Enter), Command::Idle);
    assert_eq!(m.selected(), 1);
    m.push_detail_line("a".to_string());
    m.push_detail_line("b".to_string());
    assert_eq!(m.detail_text(), "a\nb");
    assert_eq!(m.handle_key(Key::Esc), Command::CloseDetail);
    assert_eq!(m.mode(), AppMode::List);
    assert_eq!(m.selected(), 1);
    assert_eq!(m.detail_text(), "");
    // Esc in the list does nothing.
    assert_eq!(m.handle_key(Key::Esc), Command::Idle);
}

#[test]
fn monitor_detail_keeps_fifty_lines() {
    let mut m = Monitor::new(1, 60);
    m.handle_key(Key::Enter);
    for i in 0..60 {
        m.push_detail_line(format!("line {}", i));
    }
    let lines: Vec<String> = m.detail_lines().entries().iter().cloned().collect();
    assert_eq!(lines.len(), 50);
    assert_eq!(lines[0], "line 10");
    assert_eq!(lines[49], "line 59");
}

#[test]
fn monitor_records_per_server_with_bound() {
    let mut m = Monitor::new(2, 2);
    m.record(1, ok("1"));
    m.record(1, ok("2"));
    m.record(1, ok("3"));
    m.record(5, ok("9"));
    assert_eq!(m.history(0).len(), 0);
    let kept: Vec<String> = m.history(1).entries().iter().map(|r| r.latency_text.clone().unwrap()).collect();
    assert_eq!(kept, vec!["2", "3"]);
}

#[test]
fn live_ping_forwards_lines_and_stops() {
    let mut p = LivePing::new();
    match p.on_event(LiveEvent::Line("64 bytes".to_string())) {
        LiveAction::Forward(l) => assert_eq!(l, "64 bytes"),
        _ => panic!("line not forwarded"),
    }
    assert!(!p.finished());
    assert!(matches!(p.on_event(LiveEvent::Stop), LiveAction::KillAndFinish));
    assert!(p.finished());
}

#[test]
fn live_ping_end_of_output_and_error() {
    let mut p = LivePing::new();
    assert!(matches!(p.on_event(LiveEvent::Closed), LiveAction::WaitAndFinish));
    let mut q = LivePing::new();
    assert!(matches!(q.on_event(LiveEvent::ReadFailed), LiveAction::KillAndFinish));
}

#[test]
fn live_ping_args_are_the_host() {
    assert_eq!(continuous_ping_args("example.org"), vec!["example.org".to_string()]);
}

#[test]
fn live_ping_windows_args() {
    assert_eq!(
        continuous_ping_args_windows("example.org", 1000),
        vec!["-t".to_string(), "-w".to_string(), "1000".to_string(), "example.org".to_string()]
    );
}
