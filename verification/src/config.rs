//! The monitor's settings, their defaults, where a settings file is looked
//! for, and which settings win.
use vstd::prelude::*;

use crate::text::concat;

verus! {

/// A server to ping.
#[derive(Clone, Debug)]
pub struct ServerConfig {
    pub name: String,
    pub host: String,
    pub timeout_ms: u64,
}

/// Where and how often the external address is looked up.
#[derive(Clone, Debug)]
pub struct ExternalIpConfig {
    pub endpoint: String,
    pub whois_endpoint: String,
    pub check_interval_sec: u64,
}

/// All settings.
#[derive(Clone, Debug)]
pub struct Config {
    /// Seconds between two pings of a server.
    pub interval: u64,
    /// Results kept per server.
    pub history_size: usize,
    pub servers: Vec<ServerConfig>,
    pub external_ip: ExternalIpConfig,
}

/// Ping timeout of a server that names none.
pub fn default_timeout() -> (r: u64)
    ensures
        r == 1000,
{
    1000
}

/// Address endpoint of a settings file that names none.
pub fn default_ifconfig_endpoint() -> (r: String)
    ensures
        r@ == "https://ifconfig.io/ip"@,
{
    "https://ifconfig.io/ip".to_owned()
}

/// Whois endpoint of a settings file that names none.
pub fn default_whois_endpoint() -> (r: String)
    ensures
        r@ == "https://ifconfig.io/whois/"@,
{
    "https://ifconfig.io/whois/".to_owned()
}

/// Seconds between address lookups of a settings file that names none.
pub fn default_check_interval() -> (r: u64)
    ensures
        r == 300,
{
    300
}

/// Seconds between pings of a settings file that names none.
pub fn default_interval() -> (r: u64)
    ensures
        r == 2,
{
    2
}

/// Results kept per server of a settings file that names none.
pub fn default_history_size() -> (r: usize)
    ensures
        r == 60,
{
    60
}

impl Default for ExternalIpConfig {
    /// The default endpoints, checked every 300 seconds (the same values a
    /// settings file gets for the fields it leaves out).
    fn default() -> (r: ExternalIpConfig)
        ensures
            is_default_external_ip(r),
    {
        ExternalIpConfig {
            endpoint: default_ifconfig_endpoint(),
            whois_endpoint: default_whois_endpoint(),
            check_interval_sec: default_check_interval(),
        }
    }
}

/// The default lookup settings: `ifconfig.io` endpoints, every 300 seconds.
pub open spec fn is_default_external_ip(e: ExternalIpConfig) -> bool {
    &&& e.endpoint@ == "https://ifconfig.io/ip"@
    &&& e.whois_endpoint@ == "https://ifconfig.io/whois/"@
    &&& e.check_interval_sec == 300
}

impl Default for Config {
    /// Default intervals and lookup settings, no server.
    fn default() -> (r: Config)
        ensures
            r.interval == 2,
            r.history_size == 60,
            r.servers@.len() == 0,
            is_default_external_ip(r.external_ip),
    {
        Config {
            interval: default_interval(),
            history_size: default_history_size(),
            servers: Vec::new(),
            external_ip: ExternalIpConfig::default(),
        }
    }
}

/// `s` is a server named `name` at `host` with the default timeout.
pub open spec fn is_server(s: ServerConfig, name: Seq<char>, host: Seq<char>) -> bool {
    s.name@ == name && s.host@ == host && s.timeout_ms == 1000
}

/// The settings used when no settings file can be read: default intervals,
/// the default lookup settings and three public DNS servers.
pub open spec fn is_builtin_config(c: Config) -> bool {
    &&& c.interval == 2
    &&& c.history_size == 60
    &&& c.servers@.len() == 3
    &&& is_server(c.servers@[0], "Google DNS"@, "8.8.8.8"@)
    &&& is_server(c.servers@[1], "Cloudflare DNS"@, "1.1.1.1"@)
    &&& is_server(c.servers@[2], "Yandex DNS"@, "77.88.8.8"@)
    &&& is_default_external_ip(c.external_ip)
}

fn server(name: &str, host: &str) -> (s: ServerConfig)
    ensures
        is_server(s, name@, host@),
{
    ServerConfig { name: name.to_owned(), host: host.to_owned(), timeout_ms: default_timeout() }
}

/// The first candidate that was read, in order.
pub open spec fn first_loaded(candidates: Seq<Option<Config>>) -> Option<Config>
    decreases candidates.len(),
{
    if candidates.len() == 0 {
        None
    } else if candidates[0] is Some {
        candidates[0]
    } else {
        first_loaded(candidates.drop_first())
    }
}

/// `rel` appended to the directory `base`, with a `/` between them unless
/// `base` is empty or already ends with one (how a relative path joins).
pub open spec fn join_path(base: Seq<char>, rel: Seq<char>) -> Seq<char> {
    if base.len() == 0 {
        rel
    } else if base.last() == '/' {
        base + rel
    } else {
        base + "/"@ + rel
    }
}

impl Config {
    /// The settings used when no settings file can be read.
    pub fn builtin() -> (r: Config)
        ensures
            is_builtin_config(r),
    {
        let mut servers: Vec<ServerConfig> = Vec::new();
        servers.push(server("Google DNS", "8.8.8.8"));
        servers.push(server("Cloudflare DNS", "1.1.1.1"));
        servers.push(server("Yandex DNS", "77.88.8.8"));
        Config {
            interval: default_interval(),
            history_size: default_history_size(),
            servers,
            external_ip: ExternalIpConfig::default(),
        }
    }

    /// The settings files to try, most important first: `config.toml` in the
    /// working directory, the user's `~/.config/netwatch/config.toml`
    /// (`config.toml` again when there is no home directory), and
    /// `/etc/netwatch/config.toml`.
    pub fn candidate_paths(home: Option<&str>) -> (r: Vec<String>)
        ensures
            r@.len() == 3,
            r@[0]@ == "config.toml"@,
            r@[1]@ == match home {
                Some(h) => join_path(h@, ".config/netwatch/config.toml"@),
                None => "config.toml"@,
            },
            r@[2]@ == "/etc/netwatch/config.toml"@,
    {
        let rel = ".config/netwatch/config.toml";
        let in_home = match home {
            Some(h) => {
                let hc = crate::text::chars_of(h);
                if hc.len() == 0 {
                    rel.to_owned()
                } else if hc[hc.len() - 1] == '/' {
                    concat(h, rel)
                } else {
                    let with_sep = concat(h, "/");
                    concat(with_sep.as_str(), rel)
                }
            },
            None => "config.toml".to_owned(),
        };
        let mut r: Vec<String> = Vec::new();
        r.push("config.toml".to_owned());
        r.push(in_home);
        r.push("/etc/netwatch/config.toml".to_owned());
        r
    }

    /// The settings that win: the first candidate that could be read, else
    /// the built-in settings.
    pub fn first_loaded_or_builtin(candidates: Vec<Option<Config>>) -> (r: Config)
        ensures
            match first_loaded(candidates@) {
                Some(c) => r == c,
                None => is_builtin_config(r),
            },
    {
        let mut rest = candidates;
        while rest.len() > 0
            invariant
                first_loaded(candidates@) == first_loaded(rest@),
            decreases rest@.len(),
        {
            let ghost before = rest@;
            let head = rest.remove(0);
            assert(rest@ =~= before.drop_first());
            match head {
                Some(c) => {
                    return c;
                },
                None => {},
            }
        }
        Config::builtin()
    }
}

/// Law: a settings file that is read wins over every file after it, and
/// the built-in settings are used only when no file could be read.
pub proof fn law_first_candidate_wins(candidates: Seq<Option<Config>>, i: int)
    requires
        0 <= i < candidates.len(),
        candidates[i] is Some,
        forall|j: int| 0 <= j < i ==> candidates[j] is None,
    ensures
        first_loaded(candidates) == candidates[i],
    decreases i,
{
    if i > 0 {
        law_first_candidate_wins(candidates.drop_first(), i - 1);
    }
}

/// Law: with no file read, nothing is loaded.
pub proof fn law_nothing_loaded(candidates: Seq<Option<Config>>)
    requires
        forall|j: int| 0 <= j < candidates.len() ==> candidates[j] is None,
    ensures
        first_loaded(candidates) is None,
    decreases candidates.len(),
{
    if candidates.len() > 0 {
        law_nothing_loaded(candidates.drop_first());
    }
}

} // verus!
