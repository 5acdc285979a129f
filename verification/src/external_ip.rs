//! The external address: reading it from a lookup response, where its
//! whois record is asked for, and how the two answers make one record.
use vstd::prelude::*;

use crate::text::{
    chars_of, concat, law_trim_idempotent, substring, trim, trim_bounds, utf8_len, utf8_len_up_to,
};

verus! {

/// What is known of the external address.
#[derive(Clone, Debug)]
pub struct ExternalIpInfo {
    pub ip: Option<String>,
    pub country: Option<String>,
    pub country_code: Option<String>,
    pub city: Option<String>,
    pub region: Option<String>,
    pub isp: Option<String>,
    pub org: Option<String>,
    pub as_number: Option<String>,
    pub timezone: Option<String>,
    pub error: Option<String>,
    /// When the record was last refreshed, as the screen shows it.
    pub last_update: Option<String>,
}

pub open spec fn is_blank(i: ExternalIpInfo) -> bool {
    &&& i.ip is None
    &&& i.country is None
    &&& i.country_code is None
    &&& i.city is None
    &&& i.region is None
    &&& i.isp is None
    &&& i.org is None
    &&& i.as_number is None
    &&& i.timezone is None
    &&& i.error is None
    &&& i.last_update is None
}

impl Default for ExternalIpInfo {
    /// Nothing known.
    fn default() -> (r: ExternalIpInfo)
        ensures
            is_blank(r),
    {
        ExternalIpInfo {
            ip: None,
            country: None,
            country_code: None,
            city: None,
            region: None,
            isp: None,
            org: None,
            as_number: None,
            timezone: None,
            error: None,
            last_update: None,
        }
    }
}

/// The text fields of a whois response.
#[derive(Clone, Debug)]
pub struct WhoisFields {
    pub city: Option<String>,
    pub country: Option<String>,
    pub country_code: Option<String>,
    pub region: Option<String>,
    pub isp: Option<String>,
    pub org: Option<String>,
    pub asn: Option<String>,
    pub timezone: Option<String>,
}

/// Longest text taken for an address, in bytes (an IPv6 address in its
/// longest form).
pub const MAX_IP_TEXT_BYTES: usize = 45;

/// A plain-text response read as an address: trimmed, non-empty and at
/// most `MAX_IP_TEXT_BYTES` bytes long.
pub open spec fn plain_ip(response: Seq<char>) -> Option<Seq<char>> {
    let t = trim(response);
    if t.len() == 0 || utf8_len(t) > MAX_IP_TEXT_BYTES {
        None
    } else {
        Some(t)
    }
}

/// The address that a plain-text response holds.
pub fn parse_plain_ip(response: &str) -> (r: Option<String>)
    ensures
        match r {
            Some(ip) => plain_ip(response@) == Some(ip@),
            None => plain_ip(response@) is None,
        },
{
    let s = chars_of(response);
    let n = s.len();
    assert(s@.subrange(0, n as int) =~= s@);
    let (a, b) = trim_bounds(s.as_slice(), 0, n);
    if a == b || utf8_len_up_to(s.as_slice(), a, b, MAX_IP_TEXT_BYTES) > MAX_IP_TEXT_BYTES {
        None
    } else {
        Some(substring(response, a, b))
    }
}

/// The address that a lookup answered: the `ip` field of a JSON response
/// when it has one, else the response read as plain text.
pub open spec fn answered_ip(json_ip: Option<Seq<char>>, body: Seq<char>) -> Result<
    Seq<char>,
    Seq<char>,
> {
    match json_ip {
        Some(ip) => Ok(ip),
        None => match plain_ip(body) {
            Some(ip) => Ok(ip),
            None => Err("Failed to parse IP from response"@),
        },
    }
}

/// The address of a lookup response `body`, given the `ip` field that the
/// response has when read as JSON.
pub fn ip_from_response(json_ip: Option<String>, body: &str) -> (r: Result<String, String>)
    ensures
        match r {
            Ok(ip) => answered_ip(
                match json_ip {
                    Some(j) => Some(j@),
                    None => None,
                },
                body@,
            ) == Ok::<Seq<char>, Seq<char>>(ip@),
            Err(e) => answered_ip(
                match json_ip {
                    Some(j) => Some(j@),
                    None => None,
                },
                body@,
            ) == Err::<Seq<char>, Seq<char>>(e@),
        },
{
    match json_ip {
        Some(ip) => Ok(ip),
        None => match parse_plain_ip(body) {
            Some(ip) => Ok(ip),
            None => Err("Failed to parse IP from response".to_owned()),
        },
    }
}

/// `s` without the trailing `/` characters.
pub open spec fn without_trailing_slashes(s: Seq<char>) -> Seq<char>
    decreases s.len(),
{
    if s.len() > 0 && s.last() == '/' {
        without_trailing_slashes(s.drop_last())
    } else {
        s
    }
}

/// The whois request for `ip` at `endpoint`: the endpoint without trailing
/// slashes, then the address.
pub fn whois_url(endpoint: &str, ip: &str) -> (r: String)
    ensures
        r@ == without_trailing_slashes(endpoint@) + ip@,
{
    let s = chars_of(endpoint);
    let mut end = s.len();
    assert(s@.subrange(0, s@.len() as int) =~= s@);
    while end > 0 && s[end - 1] == '/'
        invariant
            end <= s@.len(),
            s@ == endpoint@,
            without_trailing_slashes(endpoint@) == without_trailing_slashes(
                s@.subrange(0, end as int),
            ),
        decreases end,
    {
        assert(s@.subrange(0, end as int).drop_last() =~= s@.subrange(0, end - 1));
        end = end - 1;
    }
    assert(s@.subrange(0, s@.len() as int) =~= s@);
    let base = substring(endpoint, 0, end);
    concat(base.as_str(), ip)
}

/// Where the whois record of `ip` is looked up.
pub fn ipwho_url(ip: &str) -> (r: String)
    ensures
        r@ == "https://ipwho.is/"@ + ip@,
{
    concat("https://ipwho.is/", ip)
}

/// Which whois record to ask for after an address lookup: that of the
/// address found, none after a failed lookup.
pub fn whois_target(lookup: &Result<String, String>) -> (r: Option<String>)
    ensures
        match lookup {
            Ok(ip) => r matches Some(u) && u@ == "https://ipwho.is/"@ + ip@,
            Err(_) => r is None,
        },
{
    match lookup {
        Ok(ip) => Some(ipwho_url(ip.as_str())),
        Err(_) => None,
    }
}

/// The autonomous system as shown: `AS` before the number.
pub fn as_number_label(asn: &Option<String>) -> (r: Option<String>)
    ensures
        match asn {
            Some(a) => r matches Some(l) && l@ == "AS"@ + a@,
            None => r is None,
        },
{
    match asn {
        Some(a) => Some(concat("AS", a.as_str())),
        None => None,
    }
}

/// The record that a whois response gives: its fields, when it could be
/// read, else nothing known.
pub fn info_from_whois(parsed: Option<WhoisFields>) -> (r: ExternalIpInfo)
    ensures
        match parsed {
            Some(w) => {
                &&& r.ip is None
                &&& r.city == w.city
                &&& r.country == w.country
                &&& r.country_code == w.country_code
                &&& r.region == w.region
                &&& r.isp == w.isp
                &&& r.org == w.org
                &&& match w.asn {
                    Some(a) => r.as_number matches Some(l) && l@ == "AS"@ + a@,
                    None => r.as_number is None,
                }
                &&& r.timezone == w.timezone
                &&& r.error is None
                &&& r.last_update is None
            },
            None => is_blank(r),
        },
{
    match parsed {
        Some(w) => {
            let as_number = as_number_label(&w.asn);
            ExternalIpInfo {
                ip: None,
                country: w.country,
                country_code: w.country_code,
                city: w.city,
                region: w.region,
                isp: w.isp,
                org: w.org,
                as_number,
                timezone: w.timezone,
                error: None,
                last_update: None,
            }
        },
        None => ExternalIpInfo::default(),
    }
}

/// The record of one lookup round: after a failed address lookup, only its
/// error; after a found address, the address with the fields of its whois
/// record when that could be fetched (nothing more when it could not).
pub open spec fn lookup_record(
    r: ExternalIpInfo,
    lookup: Result<String, String>,
    whois: Option<ExternalIpInfo>,
) -> bool {
    match lookup {
        Err(e) => {
            &&& r.error == Some(e)
            &&& r.ip is None
            &&& r.country is None
            &&& r.country_code is None
            &&& r.city is None
            &&& r.region is None
            &&& r.isp is None
            &&& r.org is None
            &&& r.as_number is None
            &&& r.timezone is None
            &&& r.last_update is None
        },
        Ok(ip) => {
            &&& r.ip == Some(ip)
            &&& r.error is None
            &&& r.last_update is None
            &&& match whois {
                Some(w) => {
                    &&& r.country == w.country
                    &&& r.country_code == w.country_code
                    &&& r.city == w.city
                    &&& r.region == w.region
                    &&& r.isp == w.isp
                    &&& r.org == w.org
                    &&& r.as_number == w.as_number
                    &&& r.timezone == w.timezone
                },
                None => {
                    &&& r.country is None
                    &&& r.country_code is None
                    &&& r.city is None
                    &&& r.region is None
                    &&& r.isp is None
                    &&& r.org is None
                    &&& r.as_number is None
                    &&& r.timezone is None
                },
            }
        },
    }
}

/// Puts together the answers of one lookup round.
pub fn combine_lookup(lookup: Result<String, String>, whois: Option<ExternalIpInfo>) -> (r:
    ExternalIpInfo)
    ensures
        lookup_record(r, lookup, whois),
{
    match lookup {
        Err(e) => {
            let mut r = ExternalIpInfo::default();
            r.error = Some(e);
            r
        },
        Ok(ip) => match whois {
            Some(w) => ExternalIpInfo {
                ip: Some(ip),
                country: w.country,
                country_code: w.country_code,
                city: w.city,
                region: w.region,
                isp: w.isp,
                org: w.org,
                as_number: w.as_number,
                timezone: w.timezone,
                error: None,
                last_update: None,
            },
            None => {
                let mut r = ExternalIpInfo::default();
                r.ip = Some(ip);
                r
            },
        },
    }
}

/// Whether a lookup round is passed on to the screen: only when it found an
/// address.
pub fn should_publish(info: &ExternalIpInfo) -> (b: bool)
    ensures
        b == info.ip is Some,
{
    info.ip.is_some()
}

/// Law: reading an address that was read from a response gives it back
/// unchanged.
pub proof fn law_plain_ip_stable(response: Seq<char>)
    ensures
        plain_ip(response) matches Some(ip) ==> plain_ip(ip) == Some(ip),
{
    law_trim_idempotent(response);
}

/// Law: an endpoint with a trailing slash asks for the same whois record as
/// the endpoint without it.
pub proof fn law_whois_url_slash(endpoint: Seq<char>, ip: Seq<char>)
    ensures
        without_trailing_slashes(endpoint.push('/')) + ip == without_trailing_slashes(endpoint) + ip,
{
    assert(endpoint.push('/').drop_last() =~= endpoint);
}

/// Law: a lookup round reaches the screen exactly when it found an address,
/// and a failed round carries its error.
pub proof fn law_lookup_published(
    r: ExternalIpInfo,
    lookup: Result<String, String>,
    whois: Option<ExternalIpInfo>,
)
    requires
        lookup_record(r, lookup, whois),
    ensures
        r.ip is Some <==> lookup is Ok,
        lookup matches Err(e) ==> r.error == Some(e),
{
}

/// Law: any trimmed text of at most `MAX_IP_TEXT_BYTES` bytes is taken as
/// the address, whatever its characters (IPv4, IPv6 or a host name); only
/// an empty or longer text is refused.
pub proof fn law_plain_ip_accepts_any_short_text(response: Seq<char>)
    ensures
        plain_ip(response) is Some <==> (trim(response).len() > 0 && utf8_len(trim(response))
            <= MAX_IP_TEXT_BYTES),
        plain_ip(response) matches Some(ip) ==> ip == trim(response),
        answered_ip(None, response) is Ok <==> plain_ip(response) is Some,
        answered_ip(None, response) matches Ok(ip) ==> ip == trim(response),
{
}

/// Law: an address from a JSON `ip` field is taken as it is, whatever the
/// body says otherwise.
pub proof fn law_json_ip_wins(ip: Seq<char>, body: Seq<char>)
    ensures
        answered_ip(Some(ip), body) == Ok::<Seq<char>, Seq<char>>(ip),
{
}

} // verus!
