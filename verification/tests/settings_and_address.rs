use netwatch_monitor::config::{
    default_check_interval, default_history_size, default_ifconfig_endpoint, default_interval,
    default_timeout, default_whois_endpoint, Config, ExternalIpConfig, ServerConfig,
};
use netwatch_monitor::external_ip::{
    as_number_label, combine_lookup, info_from_whois, ip_from_response, ipwho_url,
    parse_plain_ip, should_publish, whois_target, whois_url, ExternalIpInfo, WhoisFields,
};

#[test]
fn defaults() {
    assert_eq!(default_timeout(), 1000);
    assert_eq!(default_ifconfig_endpoint(), "https://ifconfig.io/ip");
    assert_eq!(default_whois_endpoint(), "https://ifconfig.io/whois/");
    assert_eq!(default_check_interval(), 300);
    assert_eq!(default_interval(), 2);
    assert_eq!(default_history_size(), 60);
}

#[test]
fn default_config_has_no_servers() {
    let c = Config::default();
    assert_eq!(c.interval, 2);
    assert_eq!(c.history_size, 60);
    assert!(c.servers.is_empty());
    assert_eq!(c.external_ip.endpoint, "https://ifconfig.io/ip");
    assert_eq!(c.external_ip.whois_endpoint, "https://ifconfig.io/whois/");
    assert_eq!(c.external_ip.check_interval_sec, 300);
}

#[test]
fn builtin_config_has_three_dns_servers() {
    let c = Config::builtin();
    let names: Vec<&str> = c.servers.iter().map(|s| s.name.as_str()).collect();
    let hosts: Vec<&str> = c.servers.iter().map(|s| s.host.as_str()).collect();
    assert_eq!(names, vec!["Google DNS", "Cloudflare DNS", "Yandex DNS"]);
    assert_eq!(hosts, vec!["8.8.8.8", "1.1.1.1", "77.88.8.8"]);
    assert!(c.servers.iter().all(|s| s.timeout_ms == 1000));
    assert_eq!(c.external_ip.endpoint, "https://ifconfig.io/ip");
    assert_eq!(c.external_ip.check_interval_sec, 300);
}

#[test]
fn candidate_paths_in_priority_order() {
    let p = Config::candidate_paths(Some("/home/u"));
    assert_eq!(
        p,
        vec![
            "config.toml",
            "/home/u/.config/netwatch/config.toml",
            "/etc/netwatch/config.toml"
        ]
    );
    assert_eq!(Config::candidate_paths(Some("/home/u/"))[1], "/home/u/.config/netwatch/config.toml");
    assert_eq!(Config::candidate_paths(Some(""))[1], ".config/netwatch/config.toml");
    assert_eq!(Config::candidate_paths(None)[1], "config.toml");
}

fn one_server(name: &str) -> Config {
    Config {
        interval: 5,
        history_size: 10,
        servers: vec![ServerConfig { name: name.to_string(), host: "h".to_string(), timeout_ms: 1 }],
        external_ip: ExternalIpConfig::default(),
    }
}

#[test]
fn first_readable_file_wins() {
    let c = Config::first_loaded_or_builtin(vec![None, Some(one_server("a")), Some(one_server("b"))]);
    assert_eq!(c.servers[0].name, "a");
    assert_eq!(c.interval, 5);
}

#[test]
fn builtin_when_nothing_read() {
    let c = Config::first_loaded_or_builtin(vec![None, None, None]);
    assert_eq!(c.servers.len(), 3);
    let c = Config::first_loaded_or_builtin(vec![]);
    assert_eq!(c.servers[0].host, "8.8.8.8");
}

#[test]
fn plain_ip_is_trimmed() {
    assert_eq!(parse_plain_ip("  203.0.113.7\n").as_deref(), Some("203.0.113.7"));
    assert_eq!(parse_plain_ip("\u{3000}1.2.3.4\u{a0}").as_deref(), Some("1.2.3.4"));
}

#[test]
fn plain_ip_empty_or_too_long() {
    assert_eq!(parse_plain_ip(" \n\t"), None);
    assert_eq!(parse_plain_ip(""), None);
    let max = "a".repeat(45);
    assert_eq!(parse_plain_ip(&max).as_deref(), Some(max.as_str()));
    assert_eq!(parse_plain_ip(&"a".repeat(46)), None);
    // The bound is in bytes: 23 two-byte characters are 46 bytes.
    assert_eq!(parse_plain_ip(&"é".repeat(23)), None);
    assert_eq!(parse_plain_ip(&"é".repeat(22)).map(|s| s.len()), Some(44));
}

#[test]
fn ip_from_json_first_then_plain() {
    assert_eq!(ip_from_response(Some("9.9.9.9".to_string()), "junk"), Ok("9.9.9.9".to_string()));
    assert_eq!(ip_from_response(None, " 1.1.1.1 "), Ok("1.1.1.1".to_string()));
    assert_eq!(
        ip_from_response(None, "   "),
        Err("Failed to parse IP from response".to_string())
    );
}

#[test]
fn whois_urls() {
    assert_eq!(whois_url("https://ifconfig.io/whois/", "1.2.3.4"), "https://ifconfig.io/whois1.2.3.4");
    assert_eq!(whois_url("https://ipwho.is/1.2.3.4", ""), "https://ipwho.is/1.2.3.4");
    assert_eq!(whois_url("x///", "y"), "xy");
    assert_eq!(ipwho_url("5.6.7.8"), "https://ipwho.is/5.6.7.8");
    assert_eq!(whois_target(&Ok("5.6.7.8".to_string())).as_deref(), Some("https://ipwho.is/5.6.7.8"));
    assert_eq!(whois_target(&Err("down".to_string())), None);
}

#[test]
fn as_number_prefix() {
    assert_eq!(as_number_label(&Some("13335".to_string())).as_deref(), Some("AS13335"));
    assert_eq!(as_number_label(&None), None);
}

fn fields() -> WhoisFields {
    WhoisFields {
        city: Some("Moscow".to_string()),
        country: Some("Russia".to_string()),
        country_code: Some("RU".to_string()),
        region: None,
        isp: Some("ISP".to_string()),
        org: None,
        asn: Some("8359".to_string()),
        timezone: Some("Europe/Moscow".to_string()),
    }
}

#[test]
fn whois_record() {
    let i = info_from_whois(Some(fields()));
    assert_eq!(i.ip, None);
    assert_eq!(i.city.as_deref(), Some("Moscow"));
    assert_eq!(i.as_number.as_deref(), Some("AS8359"));
    assert_eq!(i.timezone.as_deref(), Some("Europe/Moscow"));
    let blank = info_from_whois(None);
    assert!(blank.city.is_none() && blank.ip.is_none() && blank.as_number.is_none());
}

#[test]
fn lookup_round_found_with_whois() {
    let w = info_from_whois(Some(fields()));
    let r = combine_lookup(Ok("91.108.4.12".to_string()), Some(w));
    assert_eq!(r.ip.as_deref(), Some("91.108.4.12"));
    assert_eq!(r.country_code.as_deref(), Some("RU"));
    assert_eq!(r.error, None);
    assert!(should_publish(&r));
}

#[test]
fn lookup_round_found_without_whois() {
    let r = combine_lookup(Ok("1.2.3.4".to_string()), None);
    assert_eq!(r.ip.as_deref(), Some("1.2.3.4"));
    assert!(r.city.is_none() && r.country.is_none());
    assert!(should_publish(&r));
}

#[test]
fn lookup_round_failed() {
    let r = combine_lookup(Err("Request failed: timeout".to_string()), None);
    assert_eq!(r.ip, None);
    assert_eq!(r.error.as_deref(), Some("Request failed: timeout"));
    assert!(!should_publish(&r));
    assert!(!should_publish(&ExternalIpInfo::default()));
}
