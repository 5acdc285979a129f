//! What a single ping says: reading the TTL and the round-trip time out of the
//! text that `ping` prints, telling a DNS failure from other failures, the
//! command line of a probe, and the counts over a window of results.
use vstd::prelude::*;
use vstd::slice::slice_subrange;

use crate::text::{
    all_digits, chars_of, digits_u32, digits_value, find, find_chars, first_in, first_in_chars,
    is_ascii_digit, is_digit_char, lemma_find_spec, occurs_at, substring,
    trim, trim_bounds, CharClass, token_end, lemma_find_at, lemma_first_in_at, in_class,
    lemma_trim_of_unpadded, token_end_chars, lemma_token_end, concat, contains, decimal, decimal_string, unicode_lowercase,
    to_lowercase,
};

verus! {

// ---------------------------------------------------------------------------
// TTL
// ---------------------------------------------------------------------------

/// The TTL printed after the first `marker`: the digits that follow it, up
/// to the first non-digit or the end of the text, when there is at least one
/// and their value fits in `u32`.
pub open spec fn ttl_after(s: Seq<char>, marker: Seq<char>) -> Option<u32> {
    match find(s, marker) {
        Some(i) => {
            let rest = s.skip(i + marker.len());
            let e = token_end(rest, CharClass::NonDigit);
            if e > 0 && digits_value(rest.take(e)) <= u32::MAX {
                Some(digits_value(rest.take(e)) as u32)
            } else {
                None
            }
        },
        None => None,
    }
}

/// The TTL of a ping output: the lower-case form `ttl=` first, then the
/// upper-case form `TTL=`.
pub open spec fn ttl_of(s: Seq<char>) -> Option<u32> {
    match ttl_after(s, "ttl="@) {
        Some(t) => Some(t),
        None => ttl_after(s, "TTL="@),
    }
}

fn ttl_after_chars(s: &[char], marker: &[char]) -> (r: Option<u32>)
    ensures
        r == ttl_after(s@, marker@),
{
    let n = s.len();
    proof {
        lemma_find_spec(s@, marker@);
    }
    match find_chars(s, marker) {
        None => None,
        Some(i) => {
            let start = i + marker.len();
            let ghost rest = s@.skip(start as int);
            let k = token_end_chars(s, start, CharClass::NonDigit);
            proof {
                lemma_token_end(rest, CharClass::NonDigit);
                assert(rest.take(k - start) =~= s@.subrange(start as int, k as int));
                assert forall|j: int|
                    0 <= j < k - start implies is_ascii_digit(
                    #[trigger] s@.subrange(start as int, k as int)[j],
                ) by {
                    assert(rest[j] == s@.subrange(start as int, k as int)[j]);
                }
            }
            if k == start {
                None
            } else {
                digits_u32(s, start, k)
            }
        },
    }
}

/// The TTL that a ping output reports, if any.
pub fn extract_ttl(output: &str) -> (r: Option<u32>)
    ensures
        r == ttl_of(output@),
{
    let s = chars_of(output);
    let lower = chars_of("ttl=");
    match ttl_after_chars(s.as_slice(), lower.as_slice()) {
        Some(t) => Some(t),
        None => {
            let upper = chars_of("TTL=");
            ttl_after_chars(s.as_slice(), upper.as_slice())
        },
    }
}

// ---------------------------------------------------------------------------
// Round-trip time
// ---------------------------------------------------------------------------

pub open spec fn is_sign(c: char) -> bool {
    c == '+' || c == '-'
}

/// `s` spells `lo` with each letter in either case (`up` is `lo` in upper
/// case).
pub open spec fn spells(s: Seq<char>, lo: Seq<char>, up: Seq<char>) -> bool {
    s.len() == lo.len() && forall|i: int| 0 <= i < s.len() ==> s[i] == lo[i] || s[i] == up[i]
}

/// Number of leading ASCII digits of `s`.
pub open spec fn leading_digits(s: Seq<char>) -> int {
    match first_in(s, CharClass::NonDigit) {
        Some(k) => k,
        None => s.len() as int,
    }
}

/// `Digit+ | Digit+ '.' Digit* | Digit* '.' Digit+`.
pub open spec fn is_mantissa(m: Seq<char>) -> bool {
    let a = leading_digits(m);
    if a == m.len() {
        a > 0
    } else {
        m[a] == '.' && all_digits(m.skip(a + 1)) && (a > 0 || m.len() > a + 1)
    }
}

/// What follows the exponent marker: `Sign? Digit+`.
pub open spec fn is_exponent(x: Seq<char>) -> bool {
    let d = if x.len() > 0 && is_sign(x[0]) {
        x.drop_first()
    } else {
        x
    };
    d.len() > 0 && all_digits(d)
}

/// `Mantissa Exp?`, where the exponent starts at the first `e` or `E`.
pub open spec fn is_number(l: Seq<char>) -> bool {
    match first_in(l, CharClass::ExpMarker) {
        Some(k) => is_mantissa(l.take(k)) && is_exponent(l.skip(k + 1)),
        None => is_mantissa(l),
    }
}

/// The texts that `f64::from_str` accepts: an optional sign, then `inf`,
/// `infinity` or `nan` in any case, or a decimal number with an optional
/// exponent.
pub open spec fn is_float_literal(s: Seq<char>) -> bool {
    let body = if s.len() > 0 && is_sign(s[0]) {
        s.drop_first()
    } else {
        s
    };
    ||| spells(body, seq!['i', 'n', 'f'], seq!['I', 'N', 'F'])
    ||| spells(
        body,
        seq!['i', 'n', 'f', 'i', 'n', 'i', 't', 'y'],
        seq!['I', 'N', 'F', 'I', 'N', 'I', 'T', 'Y'],
    )
    ||| spells(body, seq!['n', 'a', 'n'], seq!['N', 'A', 'N'])
    ||| is_number(body)
}

fn spells_exec(s: &[char], lo: &[char], up: &[char]) -> (b: bool)
    requires
        lo@.len() == up@.len(),
    ensures
        b == spells(s@, lo@, up@),
{
    if s.len() != lo.len() {
        return false;
    }
    let mut i: usize = 0;
    while i < s.len()
        invariant
            s@.len() == lo@.len() == up@.len(),
            i <= s@.len(),
            forall|j: int| 0 <= j < i ==> s@[j] == lo@[j] || s@[j] == up@[j],
        decreases s@.len() - i,
    {
        if s[i] != lo[i] && s[i] != up[i] {
            return false;
        }
        i = i + 1;
    }
    true
}

fn all_digits_from(s: &[char], from: usize) -> (b: bool)
    requires
        from <= s@.len(),
    ensures
        b == all_digits(s@.skip(from as int)),
{
    let mut i: usize = from;
    while i < s.len()
        invariant
            from <= i <= s@.len(),
            forall|j: int| from <= j < i ==> is_ascii_digit(s@[j]),
        decreases s@.len() - i,
    {
        if !is_digit_char(s[i]) {
            assert(s@.skip(from as int)[i - from] == s@[i as int]);
            return false;
        }
        i = i + 1;
    }
    assert forall|j: int| 0 <= j < s@.skip(from as int).len() implies is_ascii_digit(
        #[trigger] s@.skip(from as int)[j],
    ) by {
        assert(s@.skip(from as int)[j] == s@[from + j]);
    }
    true
}

fn is_mantissa_exec(m: &[char]) -> (b: bool)
    ensures
        b == is_mantissa(m@),
{
    assert(m@.skip(0) =~= m@);
    let a = match first_in_chars(m, 0, CharClass::NonDigit) {
        Some(k) => k,
        None => m.len(),
    };
    if a == m.len() {
        a > 0
    } else {
        m[a] == '.' && all_digits_from(m, a + 1) && (a > 0 || m.len() > a + 1)
    }
}

fn is_exponent_exec(x: &[char]) -> (b: bool)
    ensures
        b == is_exponent(x@),
{
    let start: usize = if x.len() > 0 && (x[0] == '+' || x[0] == '-') {
        1
    } else {
        0
    };
    assert(start == 1 ==> x@.skip(1) =~= x@.drop_first());
    assert(x@.skip(0) =~= x@);
    x.len() > start && all_digits_from(x, start)
}

fn is_number_exec(l: &[char]) -> (b: bool)
    ensures
        b == is_number(l@),
{
    let n = l.len();
    assert(l@.skip(0) =~= l@);
    match first_in_chars(l, 0, CharClass::ExpMarker) {
        Some(k) => {
            let m = slice_subrange(l, 0, k);
            let x = slice_subrange(l, k + 1, n);
            assert(m@ =~= l@.take(k as int));
            assert(x@ =~= l@.skip(k + 1));
            is_mantissa_exec(m) && is_exponent_exec(x)
        },
        None => is_mantissa_exec(l),
    }
}

/// Whether `f64::from_str` accepts `t`.
pub fn parses_as_float(t: &[char]) -> (b: bool)
    ensures
        b == is_float_literal(t@),
{
    let start: usize = if t.len() > 0 && (t[0] == '+' || t[0] == '-') {
        1
    } else {
        0
    };
    let body = slice_subrange(t, start, t.len());
    assert(start == 1 ==> body@ =~= t@.drop_first());
    assert(start == 0 ==> body@ =~= t@);
    let inf_lo = vec!['i', 'n', 'f'];
    let inf_up = vec!['I', 'N', 'F'];
    let infinity_lo = vec!['i', 'n', 'f', 'i', 'n', 'i', 't', 'y'];
    let infinity_up = vec!['I', 'N', 'F', 'I', 'N', 'I', 'T', 'Y'];
    let nan_lo = vec!['n', 'a', 'n'];
    let nan_up = vec!['N', 'A', 'N'];
    assert(inf_lo@ =~= seq!['i', 'n', 'f']);
    assert(inf_up@ =~= seq!['I', 'N', 'F']);
    assert(infinity_lo@ =~= seq!['i', 'n', 'f', 'i', 'n', 'i', 't', 'y']);
    assert(infinity_up@ =~= seq!['I', 'N', 'F', 'I', 'N', 'I', 'T', 'Y']);
    assert(nan_lo@ =~= seq!['n', 'a', 'n']);
    assert(nan_up@ =~= seq!['N', 'A', 'N']);
    spells_exec(body, inf_lo.as_slice(), inf_up.as_slice()) || spells_exec(
        body,
        infinity_lo.as_slice(),
        infinity_up.as_slice(),
    ) || spells_exec(body, nan_lo.as_slice(), nan_up.as_slice()) || is_number_exec(body)
}

/// The trimmed token at the start of `rest` that the first character of
/// class `cls` ends; nothing when no such character follows.
pub open spec fn bounded_token(rest: Seq<char>, cls: CharClass) -> Option<Seq<char>> {
    match first_in(rest, cls) {
        Some(e) => Some(trim(rest.take(e))),
        None => None,
    }
}

/// The token after the first `time=`: digits, dots and spaces, trimmed.
pub open spec fn time_token(s: Seq<char>) -> Option<Seq<char>> {
    match find(s, "time="@) {
        Some(i) => bounded_token(s.skip(i + 5), CharClass::LatencyEnd),
        None => None,
    }
}

/// The text right after the first `min/avg/max/`, up to the next `/`,
/// trimmed.
pub open spec fn summary_head_token(s: Seq<char>) -> Option<Seq<char>> {
    match find(s, "min/avg/max/"@) {
        Some(i) => bounded_token(s.skip(i + 12), CharClass::Slash),
        None => None,
    }
}

/// The first value of a `min/avg/max/... = a/b/c/d` summary: the text after
/// the `=` that follows the field names, up to the next `/`, trimmed.
pub open spec fn summary_value_token(s: Seq<char>) -> Option<Seq<char>> {
    match find(s, "min/avg/max/"@) {
        Some(i) => {
            let rest = s.skip(i + 12);
            match first_in(rest, CharClass::Equals) {
                Some(j) => bounded_token(rest.skip(j + 1), CharClass::Slash),
                None => None,
            }
        },
        None => None,
    }
}

pub open spec fn if_float(t: Option<Seq<char>>) -> Option<Seq<char>> {
    match t {
        Some(t) => if is_float_literal(t) {
            Some(t)
        } else {
            None
        },
        None => None,
    }
}

/// The text of the round-trip time in milliseconds that a ping output
/// reports: the number after `time=` (as Linux and Windows print it on a
/// reply line), else the number right after `min/avg/max/`, else the first
/// value of a `min/avg/max/... = ...` summary (as macOS prints it).
pub open spec fn latency_text_of(s: Seq<char>) -> Option<Seq<char>> {
    match if_float(time_token(s)) {
        Some(t) => Some(t),
        None => match if_float(summary_head_token(s)) {
            Some(t) => Some(t),
            None => if_float(summary_value_token(s)),
        },
    }
}

/// Character bounds of the trimmed token that starts at `start`.
fn bounded_token_bounds(s: &[char], start: usize, cls: CharClass) -> (r: Option<(usize, usize)>)
    requires
        start <= s@.len(),
    ensures
        match r {
            Some((a, b)) => a <= b <= s@.len() && bounded_token(s@.skip(start as int), cls)
                == Some(s@.subrange(a as int, b as int)),
            None => bounded_token(s@.skip(start as int), cls) is None,
        },
{
    match first_in_chars(s, start, cls) {
        None => None,
        Some(k) => {
            assert(s@.skip(start as int).take(k - start) =~= s@.subrange(start as int, k as int));
            Some(trim_bounds(s, start, k))
        },
    }
}

/// Where the first `marker` ends, in characters.
fn after_marker(s: &[char], marker: &str) -> (r: Option<usize>)
    ensures
        match r {
            Some(k) => k <= s@.len() && (find(s@, marker@) matches Some(i) && k == i
                + marker@.len()),
            None => find(s@, marker@) is None,
        },
{
    let n = s.len();
    let m = chars_of(marker);
    proof {
        lemma_find_spec(s@, marker@);
    }
    match find_chars(s, m.as_slice()) {
        None => None,
        Some(i) => Some(i + m.len()),
    }
}

fn time_token_bounds(s: &[char]) -> (r: Option<(usize, usize)>)
    ensures
        match r {
            Some((a, b)) => a <= b <= s@.len() && time_token(s@) == Some(
                s@.subrange(a as int, b as int),
            ),
            None => time_token(s@) is None,
        },
{
    proof {
        reveal_strlit("time=");
    }
    match after_marker(s, "time=") {
        None => None,
        Some(k) => bounded_token_bounds(s, k, CharClass::LatencyEnd),
    }
}

fn summary_head_bounds(s: &[char]) -> (r: Option<(usize, usize)>)
    ensures
        match r {
            Some((a, b)) => a <= b <= s@.len() && summary_head_token(s@) == Some(
                s@.subrange(a as int, b as int),
            ),
            None => summary_head_token(s@) is None,
        },
{
    proof {
        reveal_strlit("min/avg/max/");
    }
    match after_marker(s, "min/avg/max/") {
        None => None,
        Some(k) => bounded_token_bounds(s, k, CharClass::Slash),
    }
}

fn summary_value_bounds(s: &[char]) -> (r: Option<(usize, usize)>)
    ensures
        match r {
            Some((a, b)) => a <= b <= s@.len() && summary_value_token(s@) == Some(
                s@.subrange(a as int, b as int),
            ),
            None => summary_value_token(s@) is None,
        },
{
    proof {
        reveal_strlit("min/avg/max/");
    }
    match after_marker(s, "min/avg/max/") {
        None => None,
        Some(start) => {
            let n = s.len();
            let ghost rest = s@.skip(start as int);
            match first_in_chars(s, start, CharClass::Equals) {
                None => None,
                Some(k) => {
                    assert(rest.skip(k - start + 1) =~= s@.skip(k + 1));
                    bounded_token_bounds(s, k + 1, CharClass::Slash)
                },
            }
        },
    }
}

fn float_text(output: &str, s: &[char], bounds: Option<(usize, usize)>) -> (r: Option<String>)
    requires
        s@ == output@,
        bounds matches Some((a, b)) ==> a <= b <= s@.len(),
    ensures
        match r {
            Some(t) => if_float(
                match bounds {
                    Some((a, b)) => Some(s@.subrange(a as int, b as int)),
                    None => None,
                },
            ) == Some(t@),
            None => if_float(
                match bounds {
                    Some((a, b)) => Some(s@.subrange(a as int, b as int)),
                    None => None,
                },
            ) is None,
        },
{
    match bounds {
        None => None,
        Some((a, b)) => {
            let t = slice_subrange(s, a, b);
            if parses_as_float(t) {
                Some(substring(output, a, b))
            } else {
                None
            }
        },
    }
}

/// The round-trip time that a ping output reports, as the decimal text that
/// ping printed; `f64::from_str` accepts every text this returns.
pub fn latency_text(output: &str) -> (r: Option<String>)
    ensures
        match r {
            Some(t) => latency_text_of(output@) == Some(t@) && is_float_literal(t@),
            None => latency_text_of(output@) is None,
        },
{
    let s = chars_of(output);
    match float_text(output, s.as_slice(), time_token_bounds(s.as_slice())) {
        Some(t) => Some(t),
        None => match float_text(output, s.as_slice(), summary_head_bounds(s.as_slice())) {
            Some(t) => Some(t),
            None => float_text(output, s.as_slice(), summary_value_bounds(s.as_slice())),
        },
    }
}


// ---------------------------------------------------------------------------
// One probe
// ---------------------------------------------------------------------------

/// Result of a single ping attempt.
#[derive(Clone, Debug)]
pub struct PingResult {
    /// When the attempt started, in milliseconds since the Unix epoch.
    pub timestamp_ms: i64,
    pub success: bool,
    /// The round-trip time in milliseconds, as the decimal text that ping
    /// printed (see `latency_text`).
    pub latency_text: Option<String>,
    pub ttl: Option<u32>,
    pub dns_error: Option<String>,
}

/// How a ping process ended, as the caller that ran it observed.
#[derive(Debug)]
pub enum ProbeOutcome {
    /// The process could not be started.
    SpawnFailed,
    /// The process exited; `success` is its exit status.
    Exited { success: bool, stdout: String, stderr: String },
    /// Waiting for the process failed.
    WaitFailed,
    /// The process outlived the time allowed for it.
    TimedOut,
}

/// A lower-cased failure output that names a name-resolution failure.
pub open spec fn mentions_dns_failure(t: Seq<char>) -> bool {
    ||| contains(t, "unknown"@)
    ||| contains(t, "could not find"@)
    ||| contains(t, "nodename nor servname"@)
    ||| contains(t, "non-existent"@)
    ||| contains(t, "неизвестное"@)
    ||| contains(t, "unknown host"@)
    ||| contains(t, "no address associated"@)
}

fn contains_text(s: &[char], pat: &str) -> (b: bool)
    ensures
        b == contains(s@, pat@),
{
    let p = chars_of(pat);
    find_chars(s, p.as_slice()).is_some()
}

/// Whether a lower-cased failure output names a name-resolution failure.
pub fn mentions_dns_failure_text(lowered: &str) -> (b: bool)
    ensures
        b == mentions_dns_failure(lowered@),
{
    let t = chars_of(lowered);
    let s = t.as_slice();
    contains_text(s, "unknown") || contains_text(s, "could not find") || contains_text(
        s,
        "nodename nor servname",
    ) || contains_text(s, "non-existent") || contains_text(s, "неизвестное") || contains_text(
        s,
        "unknown host",
    ) || contains_text(s, "no address associated")
}

/// The DNS error that a failed ping's output shows: its standard output and
/// standard error, joined by a space and lower-cased, name a resolution
/// failure.
pub fn dns_failure_message(stdout: &str, stderr: &str) -> (r: Option<String>)
    ensures
        r is Some <==> mentions_dns_failure(unicode_lowercase(stdout@ + " "@ + stderr@)),
        r matches Some(m) ==> m@ == "DNS resolution failed"@,
{
    let head = concat(stdout, " ");
    let combined = concat(head.as_str(), stderr);
    let lowered = to_lowercase(combined.as_str());
    if mentions_dns_failure_text(lowered.as_str()) {
        Some("DNS resolution failed".to_owned())
    } else {
        None
    }
}

/// What a ping attempt reports, given how its process ended.
pub open spec fn ping_result_matches(r: PingResult, timestamp_ms: i64, outcome: ProbeOutcome) -> bool {
    &&& r.timestamp_ms == timestamp_ms
    &&& match outcome {
        ProbeOutcome::Exited { success: true, stdout, stderr } => {
            &&& r.success
            &&& match r.latency_text {
                Some(t) => latency_text_of(stdout@) == Some(t@),
                None => latency_text_of(stdout@) is None,
            }
            &&& r.ttl == ttl_of(stdout@)
            &&& r.dns_error is None
        },
        ProbeOutcome::Exited { success: false, stdout, stderr } => {
            &&& !r.success
            &&& r.latency_text is None
            &&& r.ttl is None
            &&& (r.dns_error is Some <==> mentions_dns_failure(
                unicode_lowercase(stdout@ + " "@ + stderr@),
            ))
            &&& r.dns_error matches Some(m) ==> m@ == "DNS resolution failed"@
        },
        ProbeOutcome::TimedOut => {
            &&& !r.success
            &&& r.latency_text is None
            &&& r.ttl is None
            &&& r.dns_error matches Some(m) && m@ == "Ping timeout exceeded"@
        },
        _ => {
            &&& !r.success
            &&& r.latency_text is None
            &&& r.ttl is None
            &&& r.dns_error is None
        },
    }
}

/// The result of a ping attempt that started at `timestamp_ms` and ended as
/// `outcome` says.
pub fn ping_result(timestamp_ms: i64, outcome: ProbeOutcome) -> (r: PingResult)
    ensures
        ping_result_matches(r, timestamp_ms, outcome),
{
    match outcome {
        ProbeOutcome::Exited { success, stdout, stderr } => {
            if success {
                PingResult {
                    timestamp_ms,
                    success: true,
                    latency_text: latency_text(stdout.as_str()),
                    ttl: extract_ttl(stdout.as_str()),
                    dns_error: None,
                }
            } else {
                PingResult {
                    timestamp_ms,
                    success: false,
                    latency_text: None,
                    ttl: None,
                    dns_error: dns_failure_message(stdout.as_str(), stderr.as_str()),
                }
            }
        },
        ProbeOutcome::TimedOut => PingResult {
            timestamp_ms,
            success: false,
            latency_text: None,
            ttl: None,
            dns_error: Some("Ping timeout exceeded".to_owned()),
        },
        _ => PingResult {
            timestamp_ms,
            success: false,
            latency_text: None,
            ttl: None,
            dns_error: None,
        },
    }
}

/// The command line of one ping attempt and how long to wait for it.
pub struct PingCommand {
    /// Arguments of `ping`.
    pub args: Vec<String>,
    /// Milliseconds to wait for the process before giving up on it.
    pub wait_limit_ms: u64,
}

/// Whole seconds that `ping -W` is given for a timeout in milliseconds:
/// rounded up, and at least one.
pub open spec fn timeout_secs(timeout_ms: nat) -> nat {
    let s = (timeout_ms + 999) / 1000;
    if s < 1 {
        1
    } else {
        s
    }
}

pub open spec fn string_views(v: Seq<String>) -> Seq<Seq<char>> {
    v.map_values(|s: String| s@)
}

/// The command of one ping attempt at `host` with a timeout of `timeout_ms`
/// milliseconds: a single echo request (`-c 1`) with `-W` whole seconds, and
/// half a second more for the process to end.
pub fn ping_command(host: &str, timeout_ms: u64) -> (r: PingCommand)
    requires
        timeout_ms + 999 <= u64::MAX,
    ensures
        string_views(r.args@) == seq!["-c"@, "1"@, "-W"@, decimal(timeout_secs(timeout_ms as nat)), host@],
        r.wait_limit_ms == timeout_ms + 500,
{
    let rounded = (timeout_ms + 999) / 1000;
    let secs = if rounded < 1 {
        1
    } else {
        rounded
    };
    let mut args: Vec<String> = Vec::new();
    args.push("-c".to_owned());
    args.push("1".to_owned());
    args.push("-W".to_owned());
    args.push(decimal_string(secs));
    args.push(host.to_owned());
    assert(string_views(args@) =~= seq!["-c"@, "1"@, "-W"@, decimal(timeout_secs(timeout_ms as nat)), host@]);
    PingCommand { args, wait_limit_ms: timeout_ms + 500 }
}

/// The command of one ping attempt at `host` on Windows: a single echo
/// request (`-n 1`) with a `-w` timeout in milliseconds, and half a second
/// more for the process to end.
pub fn ping_command_windows(host: &str, timeout_ms: u64) -> (r: PingCommand)
    requires
        timeout_ms + 500 <= u64::MAX,
    ensures
        string_views(r.args@) == seq!["-n"@, "1"@, "-w"@, decimal(timeout_ms as nat), host@],
        r.wait_limit_ms == timeout_ms + 500,
{
    let mut args: Vec<String> = Vec::new();
    args.push("-n".to_owned());
    args.push("1".to_owned());
    args.push("-w".to_owned());
    args.push(decimal_string(timeout_ms));
    args.push(host.to_owned());
    assert(string_views(args@) =~= seq!["-n"@, "1"@, "-w"@, decimal(timeout_ms as nat), host@]);
    PingCommand { args, wait_limit_ms: timeout_ms + 500 }
}

// ---------------------------------------------------------------------------
// Counts over a window of results
// ---------------------------------------------------------------------------

/// Number of successful results.
pub open spec fn success_count(s: Seq<PingResult>) -> nat
    decreases s.len(),
{
    if s.len() == 0 {
        0
    } else {
        success_count(s.drop_last()) + if s.last().success {
            1nat
        } else {
            0nat
        }
    }
}

/// TTL of the first successful result.
pub open spec fn first_success_ttl(s: Seq<PingResult>) -> Option<u32>
    decreases s.len(),
{
    if s.len() == 0 {
        None
    } else if s[0].success {
        s[0].ttl
    } else {
        first_success_ttl(s.drop_first())
    }
}

/// DNS error of the first failed result that has one.
pub open spec fn first_dns_error(s: Seq<PingResult>) -> Option<String>
    decreases s.len(),
{
    if s.len() == 0 {
        None
    } else if !s[0].success && s[0].dns_error is Some {
        s[0].dns_error
    } else {
        first_dns_error(s.drop_first())
    }
}

/// Round-trip times of the successful results that have one, in order.
pub open spec fn success_latencies(s: Seq<PingResult>) -> Seq<String>
    decreases s.len(),
{
    if s.len() == 0 {
        Seq::empty()
    } else {
        let p = success_latencies(s.drop_last());
        match s.last().latency_text {
            Some(t) => if s.last().success {
                p.push(t)
            } else {
                p
            },
            None => p,
        }
    }
}

/// Counts of a server's results over a window.
#[derive(Clone, Debug)]
pub struct PingStats {
    pub total_pings: usize,
    pub successful_pings: usize,
    /// TTL of the first successful result.
    pub ttl: Option<u32>,
    /// DNS error of the first failed result that has one.
    pub dns_error: Option<String>,
}

fn clone_text(t: &Option<String>) -> (r: Option<String>)
    ensures
        r == *t,
{
    match t {
        Some(s) => Some(s.clone()),
        None => None,
    }
}

fn first_success_ttl_of(results: &[PingResult]) -> (r: Option<u32>)
    ensures
        r == first_success_ttl(results@),
{
    let n = results.len();
    assert(results@.skip(0) =~= results@);
    let mut j: usize = 0;
    while j < n
        invariant
            n == results@.len(),
            j <= n,
            first_success_ttl(results@) == first_success_ttl(results@.skip(j as int)),
        decreases n - j,
    {
        assert(results@.skip(j as int).drop_first() =~= results@.skip(j + 1));
        assert(results@.skip(j as int)[0] == results@[j as int]);
        if results[j].success {
            return results[j].ttl;
        }
        j = j + 1;
    }
    None
}

fn first_dns_error_of(results: &[PingResult]) -> (r: Option<String>)
    ensures
        r == first_dns_error(results@),
{
    let n = results.len();
    assert(results@.skip(0) =~= results@);
    let mut k: usize = 0;
    while k < n
        invariant
            n == results@.len(),
            k <= n,
            first_dns_error(results@) == first_dns_error(results@.skip(k as int)),
        decreases n - k,
    {
        assert(results@.skip(k as int).drop_first() =~= results@.skip(k + 1));
        assert(results@.skip(k as int)[0] == results@[k as int]);
        if !results[k].success && results[k].dns_error.is_some() {
            return clone_text(&results[k].dns_error);
        }
        k = k + 1;
    }
    None
}

impl PingStats {
    /// Counts over `results`, oldest first.
    pub fn from_results(results: &[PingResult]) -> (r: PingStats)
        ensures
            r.total_pings == results@.len(),
            r.successful_pings == success_count(results@),
            r.ttl == first_success_ttl(results@),
            r.dns_error == first_dns_error(results@),
    {
        let n = results.len();
        let mut count: usize = 0;
        let mut i: usize = 0;
        while i < n
            invariant
                n == results@.len(),
                i <= n,
                count == success_count(results@.take(i as int)),
                count <= i,
            decreases n - i,
        {
            assert(results@.take(i + 1).drop_last() =~= results@.take(i as int));
            if results[i].success {
                count = count + 1;
            }
            i = i + 1;
        }
        assert(results@.take(n as int) =~= results@);
        let ttl = first_success_ttl_of(results);
        let dns_error = first_dns_error_of(results);
        PingStats { total_pings: n, successful_pings: count, ttl, dns_error }
    }
}

/// Round-trip times of the successful results that have one, oldest first.
pub fn success_latency_texts(results: &[PingResult]) -> (r: Vec<String>)
    ensures
        r@ == success_latencies(results@),
{
    let n = results.len();
    let mut out: Vec<String> = Vec::new();
    let mut i: usize = 0;
    while i < n
        invariant
            n == results@.len(),
            i <= n,
            out@ == success_latencies(results@.take(i as int)),
        decreases n - i,
    {
        assert(results@.take(i + 1).drop_last() =~= results@.take(i as int));
        assert(results@.take(i + 1).last() == results@[i as int]);
        if results[i].success {
            match &results[i].latency_text {
                Some(t) => out.push(t.clone()),
                None => {},
            }
        }
        i = i + 1;
    }
    assert(results@.take(n as int) =~= results@);
    out
}

/// Law: the seconds given to `ping -W` are at least one and cover the whole
/// timeout, and no more than one second beyond it.
pub proof fn law_timeout_secs_cover(timeout_ms: nat)
    ensures
        timeout_secs(timeout_ms) >= 1,
        timeout_secs(timeout_ms) * 1000 >= timeout_ms,
        timeout_ms > 0 ==> timeout_secs(timeout_ms) * 1000 < timeout_ms + 1000,
{
    let s = (timeout_ms + 999) / 1000;
    assert(s * 1000 <= timeout_ms + 999 && timeout_ms + 999 < s * 1000 + 1000) by (nonlinear_arith)
        requires
            s == (timeout_ms + 999) / 1000,
    ;
}

/// Law: no more results succeed than there are results.
pub proof fn law_successes_within_total(s: Seq<PingResult>)
    ensures
        success_count(s) <= s.len(),
        success_latencies(s).len() <= success_count(s),
    decreases s.len(),
{
    if s.len() > 0 {
        law_successes_within_total(s.drop_last());
    }
}

/// Law: a TTL is only ever read from digits that directly follow a marker.
pub proof fn law_ttl_follows_marker(s: Seq<char>, marker: Seq<char>)
    ensures
        ttl_after(s, marker) matches Some(t) ==> exists|i: int, j: int, e: int|
            #![trigger occurs_at(s, marker, i), s.subrange(j, e)]
            j == i + marker.len() && j < e <= s.len() && occurs_at(s, marker, i) && all_digits(
                s.subrange(j, e),
            ) && t as nat == digits_value(s.subrange(j, e)),
{
    lemma_find_spec(s, marker);
    if let Some(i) = find(s, marker) {
        let rest = s.skip(i + marker.len());
        lemma_token_end(rest, CharClass::NonDigit);
        let e = token_end(rest, CharClass::NonDigit);
        if e > 0 && digits_value(rest.take(e)) <= u32::MAX {
            let k = i + marker.len() + e;
            assert(rest.take(e) =~= s.subrange(i + marker.len(), k));
            assert forall|j: int| 0 <= j < e implies is_ascii_digit(
                #[trigger] s.subrange(i + marker.len(), k)[j],
            ) by {
                assert(rest[j] == s.subrange(i + marker.len(), k)[j]);
            }
            assert(occurs_at(s, marker, i));
        }
    }
}

/// Dropping one result lowers the success count by that result's share.
pub proof fn lemma_success_count_remove(s: Seq<PingResult>, k: int)
    requires
        0 <= k < s.len(),
    ensures
        success_count(s) == success_count(s.remove(k)) + if s[k].success {
            1nat
        } else {
            0nat
        },
    decreases s.len(),
{
    if k == s.len() - 1 {
        assert(s.remove(k) =~= s.drop_last());
    } else {
        lemma_success_count_remove(s.drop_last(), k);
        assert(s.remove(k).drop_last() =~= s.drop_last().remove(k));
        assert(s.remove(k).last() == s.last());
    }
}

/// Law: the counts over a window do not depend on the order of its results:
/// any reordering has as many results and as many successes.
pub proof fn law_counts_ignore_order(a: Seq<PingResult>, b: Seq<PingResult>)
    requires
        a.to_multiset() == b.to_multiset(),
    ensures
        a.len() == b.len(),
        success_count(a) == success_count(b),
    decreases a.len(),
{
    broadcast use vstd::seq_lib::group_to_multiset_ensures;
    broadcast use vstd::multiset::group_multiset_axioms;

    if a.len() == 0 {
        assert(b.to_multiset().len() == 0);
    } else {
        let x = a.last();
        let a1 = a.drop_last();
        assert(a1.push(x) =~= a);
        assert(a.to_multiset() == a1.to_multiset().insert(x));
        assert(b.to_multiset().count(x) > 0);
        assert(b.contains(x));
        let k = choose|k: int| 0 <= k < b.len() && b[k] == x;
        let b1 = b.remove(k);
        assert(b1.to_multiset() == b.to_multiset().remove(x));
        assert(a1.to_multiset() =~= a1.to_multiset().insert(x).remove(x));
        law_counts_ignore_order(a1, b1);
        lemma_success_count_remove(b, k);
    }
}

/// Law: the TTL is the number that follows the first `marker`, wherever
/// that marker stands in the output and whatever lines come before it: when
/// the marker first occurs at `i` and is followed by `k > 0` digits (up to a
/// non-digit or the end of the text) whose value fits in `u32`, that value
/// is read.
pub proof fn law_ttl_read_after_first_marker(s: Seq<char>, marker: Seq<char>, i: int, k: int)
    requires
        occurs_at(s, marker, i),
        forall|j: int| 0 <= j < i ==> !#[trigger] occurs_at(s, marker, j),
        k > 0,
        i + marker.len() + k <= s.len(),
        all_digits(s.subrange(i + marker.len(), i + marker.len() + k)),
        i + marker.len() + k < s.len() ==> !is_ascii_digit(s[i + marker.len() + k]),
        digits_value(s.subrange(i + marker.len(), i + marker.len() + k)) <= u32::MAX,
    ensures
        ttl_after(s, marker) == Some(
            digits_value(s.subrange(i + marker.len(), i + marker.len() + k)) as u32,
        ),
{
    lemma_find_at(s, marker, i);
    let start = i + marker.len();
    let rest = s.skip(start);
    assert forall|j: int| 0 <= j < k implies !in_class(CharClass::NonDigit, #[trigger] rest[j]) by {
        assert(rest[j] == s.subrange(start, start + k)[j]);
    }
    if start + k < s.len() {
        assert(rest[k] == s[start + k]);
    }
    lemma_first_in_at(rest, CharClass::NonDigit, k);
    assert(rest.take(k) =~= s.subrange(start, start + k));
}

/// Law: the TTL of an output is the number after its first `ttl=` (see
/// `law_ttl_read_after_first_marker`), and, in an output with no `ttl=` at
/// all, the number after its first `TTL=`.
pub proof fn law_ttl_of_output(s: Seq<char>, i: int, k: int)
    requires
        occurs_at(s, "ttl="@, i) || (occurs_at(s, "TTL="@, i) && forall|j: int|
            !#[trigger] occurs_at(s, "ttl="@, j)),
        forall|j: int| 0 <= j < i ==> !#[trigger] occurs_at(s, "ttl="@, j),
        forall|j: int| 0 <= j < i ==> !#[trigger] occurs_at(s, "TTL="@, j),
        k > 0,
        i + 4 + k <= s.len(),
        all_digits(s.subrange(i + 4, i + 4 + k)),
        i + 4 + k < s.len() ==> !is_ascii_digit(s[i + 4 + k]),
        digits_value(s.subrange(i + 4, i + 4 + k)) <= u32::MAX,
    ensures
        ttl_of(s) == Some(digits_value(s.subrange(i + 4, i + 4 + k)) as u32),
{
    reveal_strlit("ttl=");
    reveal_strlit("TTL=");
    if occurs_at(s, "ttl="@, i) {
        law_ttl_read_after_first_marker(s, "ttl="@, i, k);
    } else {
        lemma_find_spec(s, "ttl="@);
        law_ttl_read_after_first_marker(s, "TTL="@, i, k);
    }
}

/// Law: `f64::from_str` accepts every non-empty string of digits, with or
/// without a fraction after a dot (the way ping prints times).
pub proof fn law_decimals_are_floats(d: Seq<char>, e: Seq<char>)
    requires
        d.len() > 0,
        all_digits(d),
        all_digits(e),
    ensures
        is_float_literal(d),
        is_float_literal(d + seq!['.'] + e),
{
    assert(!is_sign(d[0]));
    assert forall|j: int| 0 <= j < d.len() implies !in_class(CharClass::ExpMarker, #[trigger] d[j]) by {
        assert(is_ascii_digit(d[j]));
    }
    lemma_first_in_at(d, CharClass::ExpMarker, d.len() as int);
    lemma_first_in_at(d, CharClass::NonDigit, d.len() as int);
    let m = d + seq!['.'] + e;
    assert(m[0] == d[0]);
    assert forall|j: int| 0 <= j < m.len() implies !in_class(CharClass::ExpMarker, #[trigger] m[j]) by {
        if j < d.len() {
            assert(m[j] == d[j]);
        } else if j > d.len() {
            assert(m[j] == e[j - d.len() - 1]);
        }
    }
    lemma_first_in_at(m, CharClass::ExpMarker, m.len() as int);
    assert forall|j: int| 0 <= j < d.len() implies !in_class(CharClass::NonDigit, #[trigger] m[j]) by {
        assert(m[j] == d[j]);
    }
    assert(m[d.len() as int] == '.');
    lemma_first_in_at(m, CharClass::NonDigit, d.len() as int);
    assert(m.skip(d.len() + 1 as int) =~= e);
}

/// Law: the round-trip time is the number that follows the first `time=`,
/// wherever it stands in the output: when `time=` first occurs at `i` and is
/// followed by a number `t` of digits and dots that `f64::from_str` accepts,
/// ended by a character that is no digit, dot or space, `t` is read.
pub proof fn law_latency_after_time(s: Seq<char>, i: int, t: Seq<char>)
    requires
        occurs_at(s, "time="@, i),
        forall|j: int| 0 <= j < i ==> !#[trigger] occurs_at(s, "time="@, j),
        i + 5 + t.len() < s.len(),
        s.subrange(i + 5, i + 5 + t.len()) == t,
        forall|j: int| 0 <= j < t.len() ==> is_ascii_digit(#[trigger] t[j]) || t[j] == '.',
        in_class(CharClass::LatencyEnd, s[i + 5 + t.len()]),
        is_float_literal(t),
    ensures
        latency_text_of(s) == Some(t),
{
    reveal_strlit("time=");
    lemma_find_at(s, "time="@, i);
    let rest = s.skip(i + 5);
    assert forall|j: int| 0 <= j < t.len() implies !in_class(CharClass::LatencyEnd, #[trigger] rest[j]) by {
        assert(rest[j] == t[j]);
    }
    assert(rest[t.len() as int] == s[i + 5 + t.len()]);
    lemma_first_in_at(rest, CharClass::LatencyEnd, t.len() as int);
    assert(rest.take(t.len() as int) =~= t);
    if t.len() > 0 {
        assert(is_ascii_digit(t[0]) || t[0] == '.');
        assert(is_ascii_digit(t.last()) || t.last() == '.');
    }
    lemma_trim_of_unpadded(t);
}

/// Law: an output without `time=` reports the number that follows its
/// first `min/avg/max/` up to the next `/`, wherever that summary stands.
pub proof fn law_latency_from_summary(s: Seq<char>, i: int, t: Seq<char>)
    requires
        forall|j: int| !#[trigger] occurs_at(s, "time="@, j),
        occurs_at(s, "min/avg/max/"@, i),
        forall|j: int| 0 <= j < i ==> !#[trigger] occurs_at(s, "min/avg/max/"@, j),
        i + 12 + t.len() < s.len(),
        s.subrange(i + 12, i + 12 + t.len()) == t,
        forall|j: int| 0 <= j < t.len() ==> is_ascii_digit(#[trigger] t[j]) || t[j] == '.',
        s[i + 12 + t.len()] == '/',
        is_float_literal(t),
    ensures
        latency_text_of(s) == Some(t),
{
    reveal_strlit("min/avg/max/");
    lemma_find_spec(s, "time="@);
    lemma_find_at(s, "min/avg/max/"@, i);
    let rest = s.skip(i + 12);
    assert forall|j: int| 0 <= j < t.len() implies !in_class(CharClass::Slash, #[trigger] rest[j]) by {
        assert(rest[j] == t[j]);
    }
    assert(rest[t.len() as int] == s[i + 12 + t.len()]);
    lemma_first_in_at(rest, CharClass::Slash, t.len() as int);
    assert(rest.take(t.len() as int) =~= t);
    if t.len() > 0 {
        assert(is_ascii_digit(t[0]) || t[0] == '.');
        assert(is_ascii_digit(t.last()) || t.last() == '.');
    }
    lemma_trim_of_unpadded(t);
}

/// Law: the success count is the number of successful results, whatever
/// else they hold: the length of the results filtered by `success`.
pub proof fn law_success_count_is_filter(s: Seq<PingResult>)
    ensures
        success_count(s) == s.filter(|r: PingResult| r.success).len(),
    decreases s.len(),
{
    reveal(Seq::filter);
    if s.len() > 0 {
        law_success_count_is_filter(s.drop_last());
    }
}

} // verus!
