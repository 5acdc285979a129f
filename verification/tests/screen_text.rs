use netwatch_monitor::external_ip::ExternalIpInfo;
use netwatch_monitor::screen::{
    count_lines, detail_title, dns_status_label, header_text, ip_summary, scroll_offset,
    server_label, ttl_label,
};

fn info() -> ExternalIpInfo {
    ExternalIpInfo {
        ip: Some("91.108.4.12".to_string()),
        country: Some("Russia".to_string()),
        country_code: Some("RU".to_string()),
        city: Some("Moscow".to_string()),
        region: Some("Moscow".to_string()),
        isp: Some("Telegram".to_string()),
        org: None,
        as_number: Some("AS62041".to_string()),
        timezone: None,
        error: None,
        last_update: Some("13:45:21".to_string()),
    }
}

#[test]
fn summary_while_detecting() {
    assert_eq!(ip_summary(None, None, 200), "🌍 Detecting...");
    assert_eq!(ip_summary(Some(&ExternalIpInfo::default()), None, 200), "🌍 Detecting...");
}

#[test]
fn summary_full_when_it_fits() {
    assert_eq!(
        ip_summary(Some(&info()), Some("56°N 38°E"), 300),
        "🌍 91.108.4.12 (Moscow, Moscow, Russia [RU], AS62041, Telegram, 56°N 38°E) • 13:45:21"
    );
}

#[test]
fn summary_country_without_code() {
    let mut i = info();
    i.country_code = Some(String::new());
    assert_eq!(
        ip_summary(Some(&i), None, 300),
        "🌍 91.108.4.12 (Moscow, Moscow, Russia, AS62041, Telegram) • 13:45:21"
    );
}

#[test]
fn summary_compact_then_minimal() {
    let compact = "🌍 91.108.4.12 (Moscow, RU, AS62041) • 13:45:21";
    let width = (compact.len() + 6) as u16;
    assert_eq!(ip_summary(Some(&info()), None, width), compact);
    let minimal = "🌍 91.108.4.12 (RU, AS62041) • 13:45:21";
    assert_eq!(ip_summary(Some(&info()), None, width - 1), minimal);
    assert_eq!(ip_summary(Some(&info()), None, 0), minimal);
}

#[test]
fn summary_unknown_update_time() {
    let mut i = info();
    i.last_update = None;
    i.city = None;
    i.region = None;
    i.country = None;
    i.isp = None;
    i.as_number = None;
    assert_eq!(ip_summary(Some(&i), None, 100), "🌍 91.108.4.12 () • ??:??:??");
}

#[test]
fn header_line() {
    assert_eq!(header_text("12:00:00", "x"), "🌐 NetWatch │ 12:00:00 │ x");
}

#[test]
fn row_labels() {
    assert_eq!(server_label(true, "Google DNS"), "▶ Google DNS");
    assert_eq!(server_label(false, "Google DNS"), "  Google DNS");
    assert_eq!(ttl_label(Some(116)), "116");
    assert_eq!(ttl_label(Some(0)), "0");
    assert_eq!(ttl_label(None), "--");
    assert_eq!(dns_status_label("DNS resolution failed"), "🚫 DNS resolution failed");
    assert_eq!(detail_title("GitHub", "github.com"), "🔍 Ping: GitHub (github.com)");
}

#[test]
fn lines_like_str_lines() {
    for t in ["", "a", "a\n", "a\nb", "\n", "\n\n", "a\r\nb\r\n", "x\n\ny"] {
        assert_eq!(count_lines(t), t.lines().count(), "text {:?}", t);
    }
}

#[test]
fn scroll_follows_the_newest_line() {
    let text: String = (0..30).map(|i| format!("line {}", i)).collect::<Vec<_>>().join("\n");
    assert_eq!(scroll_offset(&text, 12), 20);
    assert_eq!(scroll_offset(&text, 40), 0);
    assert_eq!(scroll_offset(&text, 0), 30);
    assert_eq!(scroll_offset("", 5), 0);
}
