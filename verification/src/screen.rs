//! The texts that the screen shows: the header with the external address,
//! the labels of a server row, and how far the live output is scrolled.
use vstd::prelude::*;

use crate::external_ip::ExternalIpInfo;
use crate::text::{
    chars_of, concat, decimal, decimal_string, join, join_strings, utf8_len, utf8_len_up_to, views,
};

verus! {

pub open spec fn opt_item(o: Option<String>) -> Seq<Seq<char>> {
    match o {
        Some(s) => seq![s@],
        None => Seq::empty(),
    }
}

pub open spec fn text_or_empty(o: Option<String>) -> Seq<char> {
    match o {
        Some(s) => s@,
        None => Seq::empty(),
    }
}

/// The country as shown: with its code in brackets when the code is known
/// and not empty.
pub open spec fn country_item(i: ExternalIpInfo) -> Seq<Seq<char>> {
    match i.country {
        Some(c) => {
            let cc = text_or_empty(i.country_code);
            if cc.len() == 0 {
                seq![c@]
            } else {
                seq![c@ + " ["@ + cc + "]"@]
            }
        },
        None => Seq::empty(),
    }
}

/// Everything known of the address, in the order shown.
pub open spec fn full_parts(i: ExternalIpInfo, coordinates: Option<Seq<char>>) -> Seq<Seq<char>> {
    opt_item(i.city) + opt_item(i.region) + country_item(i) + opt_item(i.as_number) + opt_item(
        i.isp,
    ) + opt_item(i.org) + opt_item(i.timezone) + match coordinates {
        Some(c) => seq![c],
        None => Seq::empty(),
    }
}

/// The short form: city, country code and autonomous system.
pub open spec fn compact_parts(i: ExternalIpInfo) -> Seq<Seq<char>> {
    opt_item(i.city) + opt_item(i.country_code) + opt_item(i.as_number)
}

pub open spec fn updated_text(i: ExternalIpInfo) -> Seq<char> {
    match i.last_update {
        Some(u) => u@,
        None => "??:??:??"@,
    }
}

pub open spec fn framed(ip: Seq<char>, inner: Seq<char>, updated: Seq<char>) -> Seq<char> {
    "🌍 "@ + ip + " ("@ + inner + ") • "@ + updated
}

/// The address part of the header for a header `width` columns wide: all
/// that is known of the address when it fits, else the short form when
/// that fits, else only the country code and autonomous system; "detecting"
/// while no address is known.
pub open spec fn ip_summary_text(
    info: Option<ExternalIpInfo>,
    coordinates: Option<Seq<char>>,
    width: nat,
) -> Seq<char> {
    match info {
        Some(i) => match i.ip {
            Some(ip) => {
                let max = if width >= 6 {
                    (width - 6) as nat
                } else {
                    0
                };
                let full = framed(ip@, join(full_parts(i, coordinates), ", "@), updated_text(i));
                let compact = framed(ip@, join(compact_parts(i), ", "@), updated_text(i));
                let minimal = framed(
                    ip@,
                    text_or_empty(i.country_code) + ", "@ + text_or_empty(i.as_number),
                    updated_text(i),
                );
                if utf8_len(full) <= max {
                    full
                } else if utf8_len(compact) <= max {
                    compact
                } else {
                    minimal
                }
            },
            None => "🌍 Detecting..."@,
        },
        None => "🌍 Detecting..."@,
    }
}

fn push_opt(parts: &mut Vec<String>, o: &Option<String>)
    ensures
        views(final(parts)@) == views(old(parts)@) + opt_item(*o),
{
    match o {
        Some(s) => {
            parts.push(s.clone());
            assert(views(parts@) =~= views(old(parts)@) + opt_item(*o));
        },
        None => {
            assert(views(parts@) =~= views(old(parts)@) + opt_item(*o));
        },
    }
}

fn text_of(o: &Option<String>) -> (t: String)
    ensures
        t@ == text_or_empty(*o),
{
    match o {
        Some(s) => s.clone(),
        None => String::new(),
    }
}

fn framed_text(ip: &str, inner: &str, updated: &str) -> (r: String)
    ensures
        r@ == framed(ip@, inner@, updated@),
{
    let a = concat("🌍 ", ip);
    let b = concat(a.as_str(), " (");
    let c = concat(b.as_str(), inner);
    let d = concat(c.as_str(), ") • ");
    concat(d.as_str(), updated)
}

fn fits(text: &String, max: usize) -> (b: bool)
    requires
        max <= u16::MAX,
    ensures
        b == (utf8_len(text@) <= max),
{
    let cs = chars_of(text.as_str());
    let n = cs.len();
    assert(cs@.subrange(0, n as int) =~= cs@);
    utf8_len_up_to(cs.as_slice(), 0, n, max) <= max
}

/// The address part of the header.
pub fn ip_summary(info: Option<&ExternalIpInfo>, coordinates: Option<&str>, width: u16) -> (r:
    String)
    ensures
        r@ == ip_summary_text(
            match info {
                Some(i) => Some(*i),
                None => None,
            },
            match coordinates {
                Some(c) => Some(c@),
                None => None,
            },
            width as nat,
        ),
{
    let i = match info {
        Some(i) => i,
        None => {
            return "🌍 Detecting...".to_owned();
        },
    };
    let ip = match &i.ip {
        Some(ip) => ip,
        None => {
            return "🌍 Detecting...".to_owned();
        },
    };
    let ghost coords = match coordinates {
        Some(c) => Some(c@),
        None => None::<Seq<char>>,
    };
    let max: usize = if width >= 6 {
        (width - 6) as usize
    } else {
        0
    };
    let updated = match &i.last_update {
        Some(u) => u.clone(),
        None => "??:??:??".to_owned(),
    };
    let mut parts: Vec<String> = Vec::new();
    assert(views(parts@) =~= Seq::<Seq<char>>::empty());
    push_opt(&mut parts, &i.city);
    push_opt(&mut parts, &i.region);
    let ghost before_country = views(parts@);
    match &i.country {
        Some(country) => {
            let cc = text_of(&i.country_code);
            if cc.as_str().is_empty() {
                parts.push(country.clone());
            } else {
                let a = concat(country.as_str(), " [");
                let b = concat(a.as_str(), cc.as_str());
                parts.push(concat(b.as_str(), "]"));
            }
        },
        None => {},
    }
    assert(views(parts@) =~= before_country + country_item(*i));
    push_opt(&mut parts, &i.as_number);
    push_opt(&mut parts, &i.isp);
    push_opt(&mut parts, &i.org);
    push_opt(&mut parts, &i.timezone);
    let ghost before_coords = views(parts@);
    match coordinates {
        Some(c) => {
            parts.push(c.to_owned());
        },
        None => {},
    }
    assert(views(parts@) =~= full_parts(*i, coords));
    let full_inner = join_strings(&parts, ", ");
    let full = framed_text(ip.as_str(), full_inner.as_str(), updated.as_str());
    if fits(&full, max) {
        return full;
    }
    let mut short: Vec<String> = Vec::new();
    assert(views(short@) =~= Seq::<Seq<char>>::empty());
    push_opt(&mut short, &i.city);
    push_opt(&mut short, &i.country_code);
    push_opt(&mut short, &i.as_number);
    assert(views(short@) =~= compact_parts(*i));
    let short_inner = join_strings(&short, ", ");
    let compact = framed_text(ip.as_str(), short_inner.as_str(), updated.as_str());
    if fits(&compact, max) {
        return compact;
    }
    let cc = text_of(&i.country_code);
    let asn = text_of(&i.as_number);
    let a = concat(cc.as_str(), ", ");
    let inner = concat(a.as_str(), asn.as_str());
    framed_text(ip.as_str(), inner.as_str(), updated.as_str())
}

/// The whole header line: the clock and the address part.
pub fn header_text(time: &str, ip_summary: &str) -> (r: String)
    ensures
        r@ == "🌐 NetWatch │ "@ + time@ + " │ "@ + ip_summary@,
{
    let a = concat("🌐 NetWatch │ ", time);
    let b = concat(a.as_str(), " │ ");
    concat(b.as_str(), ip_summary)
}

/// The first cell of a server row: a marker on the selected server, then
/// its name.
pub fn server_label(selected: bool, name: &str) -> (r: String)
    ensures
        r@ == (if selected {
            "▶"@
        } else {
            " "@
        }) + " "@ + name@,
{
    let marker = if selected {
        "▶"
    } else {
        " "
    };
    let a = concat(marker, " ");
    concat(a.as_str(), name)
}

/// The hop cell of a server row: the TTL, or `--` when none is known.
pub fn ttl_label(ttl: Option<u32>) -> (r: String)
    ensures
        r@ == match ttl {
            Some(t) => decimal(t as nat),
            None => "--"@,
        },
{
    match ttl {
        Some(t) => decimal_string(t as u64),
        None => "--".to_owned(),
    }
}

/// The status cell of a server whose pings fail to resolve its name.
pub fn dns_status_label(error: &str) -> (r: String)
    ensures
        r@ == "🚫 "@ + error@,
{
    concat("🚫 ", error)
}

/// The title of the live view.
pub fn detail_title(server_name: &str, host: &str) -> (r: String)
    ensures
        r@ == "🔍 Ping: "@ + server_name@ + " ("@ + host@ + ")"@,
{
    let a = concat("🔍 Ping: ", server_name);
    let b = concat(a.as_str(), " (");
    let c = concat(b.as_str(), host);
    concat(c.as_str(), ")")
}

/// Number of line feeds in `s`.
pub open spec fn newlines(s: Seq<char>) -> nat
    decreases s.len(),
{
    if s.len() == 0 {
        0
    } else {
        newlines(s.drop_last()) + if s.last() == '\n' {
            1nat
        } else {
            0nat
        }
    }
}

proof fn lemma_newlines_bound(s: Seq<char>)
    ensures
        newlines(s) <= s.len(),
    decreases s.len(),
{
    if s.len() > 0 {
        lemma_newlines_bound(s.drop_last());
    }
}

/// Number of lines of `s` (what `str::lines` yields): a final line feed
/// ends the last line rather than starting an empty one.
pub open spec fn line_count(s: Seq<char>) -> nat {
    if s.len() == 0 {
        0
    } else if s.last() == '\n' {
        newlines(s)
    } else {
        newlines(s) + 1
    }
}

/// Number of lines of `text`.
pub fn count_lines(text: &str) -> (n: usize)
    ensures
        n == line_count(text@),
{
    let cs = chars_of(text);
    let len = cs.len();
    let mut count: usize = 0;
    let mut i: usize = 0;
    while i < len
        invariant
            len == cs@.len(),
            i <= len,
            count == newlines(cs@.take(i as int)),
            count <= i,
        decreases len - i,
    {
        assert(cs@.take(i + 1).drop_last() =~= cs@.take(i as int));
        if cs[i] == '\n' {
            count = count + 1;
        }
        i = i + 1;
    }
    assert(cs@.take(len as int) =~= cs@);
    if len == 0 || cs[len - 1] == '\n' {
        count
    } else {
        proof {
            lemma_newlines_bound(cs@.drop_last());
        }
        count + 1
    }
}

/// How many lines the live view scrolls so that the newest lines show in
/// a panel `height` rows high (two rows are its border); the line count is
/// taken modulo 2^16, as a 16-bit row count holds it.
pub open spec fn scroll_offset_of(text: Seq<char>, height: nat) -> nat {
    let total = line_count(text) % 0x10000;
    let available = if height >= 2 {
        (height - 2) as nat
    } else {
        0
    };
    if total > available {
        (total - available) as nat
    } else {
        0
    }
}

/// Rows that the live view scrolls down.
pub fn scroll_offset(text: &str, height: u16) -> (r: u16)
    ensures
        r == scroll_offset_of(text@, height as nat),
{
    let n = count_lines(text);
    let total: u16 = (n % 0x10000) as u16;
    let available: u16 = if height >= 2 {
        height - 2
    } else {
        0
    };
    if total > available {
        total - available
    } else {
        0
    }
}

/// Law: the live view scrolls just far enough that its last line is in the
/// panel: the rows above the panel plus the rows in it cover every line,
/// and it does not scroll while the lines fit.
pub proof fn law_scroll_shows_last_line(text: Seq<char>, height: nat)
    requires
        line_count(text) < 0x10000,
        height >= 3,
    ensures
        scroll_offset_of(text, height) + (height - 2) >= line_count(text),
        line_count(text) <= height - 2 ==> scroll_offset_of(text, height) == 0,
        scroll_offset_of(text, height) < line_count(text) || line_count(text) == 0,
{
}

} // verus!
