//! Character-level text helpers shared by the parsers and the screen text
//! builders: substring search, character classes, trimming, decimal
//! formatting and joining.
use vstd::prelude::*;
use vstd::string::StrSliceExecFns;
use vstd::string::StringExecFns;

verus! {

// ---------------------------------------------------------------------------
// Character classes
// ---------------------------------------------------------------------------

pub open spec fn is_ascii_digit(c: char) -> bool {
    '0' <= c && c <= '9'
}

/// Unicode `White_Space` characters (the class that `char::is_whitespace`
/// and `str::trim` use).
pub open spec fn is_white_space(c: char) -> bool {
    ||| '\u{9}' <= c && c <= '\u{d}'
    ||| c == ' '
    ||| c == '\u{85}'
    ||| c == '\u{a0}'
    ||| c == '\u{1680}'
    ||| '\u{2000}' <= c && c <= '\u{200a}'
    ||| c == '\u{2028}'
    ||| c == '\u{2029}'
    ||| c == '\u{202f}'
    ||| c == '\u{205f}'
    ||| c == '\u{3000}'
}

pub fn is_digit_char(c: char) -> (b: bool)
    ensures
        b == is_ascii_digit(c),
{
    '0' <= c && c <= '9'
}

pub fn is_white_space_char(c: char) -> (b: bool)
    ensures
        b == is_white_space(c),
{
    ('\u{9}' <= c && c <= '\u{d}') || c == ' ' || c == '\u{85}' || c == '\u{a0}' || c
        == '\u{1680}' || ('\u{2000}' <= c && c <= '\u{200a}') || c == '\u{2028}' || c
        == '\u{2029}' || c == '\u{202f}' || c == '\u{205f}' || c == '\u{3000}'
}

/// Classes of characters that end a token in the ping output parsers.
pub enum CharClass {
    /// Anything but an ASCII digit, `.` or a space.
    LatencyEnd,
    /// Anything but an ASCII digit.
    NonDigit,
    /// The character `/`.
    Slash,
    /// An exponent marker, `e` or `E`.
    ExpMarker,
    /// The character `=`.
    Equals,
}

pub open spec fn in_class(cls: CharClass, c: char) -> bool {
    match cls {
        CharClass::LatencyEnd => !is_ascii_digit(c) && c != '.' && c != ' ',
        CharClass::NonDigit => !is_ascii_digit(c),
        CharClass::Slash => c == '/',
        CharClass::ExpMarker => c == 'e' || c == 'E',
        CharClass::Equals => c == '=',
    }
}

fn char_in_class(cls: &CharClass, c: char) -> (b: bool)
    ensures
        b == in_class(*cls, c),
{
    match cls {
        CharClass::LatencyEnd => !is_digit_char(c) && c != '.' && c != ' ',
        CharClass::NonDigit => !is_digit_char(c),
        CharClass::Slash => c == '/',
        CharClass::ExpMarker => c == 'e' || c == 'E',
        CharClass::Equals => c == '=',
    }
}

// ---------------------------------------------------------------------------
// Searching
// ---------------------------------------------------------------------------

/// `pat` occurs in `s` at index `i`.
pub open spec fn occurs_at(s: Seq<char>, pat: Seq<char>, i: int) -> bool {
    0 <= i && i + pat.len() <= s.len() && s.subrange(i, i + pat.len()) == pat
}

/// Index of the first occurrence of `pat` in `s` at or after `i`.
pub open spec fn find_from(s: Seq<char>, pat: Seq<char>, i: int) -> Option<int>
    decreases s.len() + 1 - i,
{
    if i < 0 || i + pat.len() > s.len() {
        None
    } else if occurs_at(s, pat, i) {
        Some(i)
    } else {
        find_from(s, pat, i + 1)
    }
}

/// Index of the first occurrence of `pat` in `s` (what `str::find` gives,
/// counted in characters).
pub open spec fn find(s: Seq<char>, pat: Seq<char>) -> Option<int> {
    find_from(s, pat, 0)
}

/// `s` contains `pat`.
pub open spec fn contains(s: Seq<char>, pat: Seq<char>) -> bool {
    find(s, pat) is Some
}

/// Index of the first character of `s` in class `cls`.
pub open spec fn first_in(s: Seq<char>, cls: CharClass) -> Option<int>
    decreases s.len(),
{
    if s.len() == 0 {
        None
    } else if in_class(cls, s[0]) {
        Some(0)
    } else {
        match first_in(s.drop_first(), cls) {
            Some(k) => Some(k + 1),
            None => None,
        }
    }
}

/// The value of `first_in`: the least index of a character in the class,
/// or nothing when no character is in it.
pub proof fn lemma_first_in_spec(s: Seq<char>, cls: CharClass)
    ensures
        first_in(s, cls) matches Some(k) ==> 0 <= k < s.len() && in_class(cls, s[k]) && forall|j: int|
            0 <= j < k ==> !in_class(cls, #[trigger] s[j]),
        first_in(s, cls) is None ==> forall|j: int|
            0 <= j < s.len() ==> !in_class(cls, #[trigger] s[j]),
    decreases s.len(),
{
    if s.len() > 0 {
        lemma_first_in_spec(s.drop_first(), cls);
        assert forall|j: int| 1 <= j < s.len() implies s[j] == s.drop_first()[j - 1] by {}
    }
}

/// Length of the token at the start of `s` that the first character of class
/// `cls` ends; the whole of `s` when no character is in the class.
pub open spec fn token_end(s: Seq<char>, cls: CharClass) -> int {
    match first_in(s, cls) {
        Some(k) => k,
        None => s.len() as int,
    }
}

/// No character of the token at the start of `s` is in class `cls`.
pub proof fn lemma_token_end(s: Seq<char>, cls: CharClass)
    ensures
        0 <= token_end(s, cls) <= s.len(),
        forall|j: int| 0 <= j < token_end(s, cls) ==> !in_class(cls, #[trigger] s[j]),
{
    lemma_first_in_spec(s, cls);
}

/// The token at the start of `s` ends at `k` when no character before `k`
/// is in class `cls` and the one at `k` (if any) is.
pub proof fn lemma_first_in_at(s: Seq<char>, cls: CharClass, k: int)
    requires
        0 <= k <= s.len(),
        forall|j: int| 0 <= j < k ==> !in_class(cls, #[trigger] s[j]),
        k < s.len() ==> in_class(cls, s[k]),
    ensures
        token_end(s, cls) == k,
        k < s.len() ==> first_in(s, cls) == Some(k),
        k == s.len() ==> first_in(s, cls) is None,
{
    lemma_first_in_spec(s, cls);
    match first_in(s, cls) {
        Some(k2) => {
            if k2 < k {
                assert(!in_class(cls, s[k2]));
            } else if k2 > k {
                assert(!in_class(cls, s[k]));
            }
        },
        None => {
            if k < s.len() {
                assert(!in_class(cls, s[k]));
            }
        },
    }
}

/// `pat` is found at `i` when it occurs there and nowhere before.
pub proof fn lemma_find_at(s: Seq<char>, pat: Seq<char>, i: int)
    requires
        occurs_at(s, pat, i),
        forall|j: int| 0 <= j < i ==> !#[trigger] occurs_at(s, pat, j),
    ensures
        find(s, pat) == Some(i),
{
    lemma_find_from_first(s, pat, 0, i);
}

pub proof fn lemma_find_from_none(s: Seq<char>, pat: Seq<char>, i: int)
    requires
        0 <= i,
        forall|j: int| i <= j && #[trigger] occurs_at(s, pat, j) ==> false,
    ensures
        find_from(s, pat, i) is None,
    decreases s.len() + 1 - i,
{
    if i + pat.len() <= s.len() {
        lemma_find_from_none(s, pat, i + 1);
    }
}

pub proof fn lemma_find_from_first(s: Seq<char>, pat: Seq<char>, i: int, k: int)
    requires
        0 <= i <= k,
        occurs_at(s, pat, k),
        forall|j: int| i <= j < k ==> !#[trigger] occurs_at(s, pat, j),
    ensures
        find_from(s, pat, i) == Some(k),
    decreases k - i,
{
    if i < k {
        lemma_find_from_first(s, pat, i + 1, k);
    }
}

/// The value of `find` in terms of occurrences: the least index where `pat`
/// occurs, or nothing when it occurs nowhere.
pub proof fn lemma_find_spec(s: Seq<char>, pat: Seq<char>)
    ensures
        find(s, pat) matches Some(k) ==> occurs_at(s, pat, k) && forall|j: int|
            0 <= j < k ==> !#[trigger] occurs_at(s, pat, j),
        find(s, pat) is None ==> forall|j: int| !#[trigger] occurs_at(s, pat, j),
{
    if exists|j: int| #[trigger] occurs_at(s, pat, j) {
        let w = choose|j: int| #[trigger] occurs_at(s, pat, j);
        lemma_least_occurrence(s, pat, w);
    } else {
        lemma_find_from_none(s, pat, 0);
    }
}

proof fn lemma_least_occurrence(s: Seq<char>, pat: Seq<char>, w: int)
    requires
        occurs_at(s, pat, w),
    ensures
        find(s, pat) matches Some(k) ==> occurs_at(s, pat, k) && forall|j: int|
            0 <= j < k ==> !#[trigger] occurs_at(s, pat, j),
        find(s, pat) is Some,
    decreases w,
{
    if exists|j: int| 0 <= j < w && #[trigger] occurs_at(s, pat, j) {
        let v = choose|j: int| 0 <= j < w && #[trigger] occurs_at(s, pat, j);
        lemma_least_occurrence(s, pat, v);
    } else {
        lemma_find_from_first(s, pat, 0, w);
    }
}

/// `s[i..]` starts with `pat`.
fn matches_at(s: &[char], pat: &[char], i: usize) -> (b: bool)
    requires
        i + pat@.len() <= s@.len(),
    ensures
        b == occurs_at(s@, pat@, i as int),
{
    let n = s.len();
    let mut j: usize = 0;
    while j < pat.len()
        invariant
            j <= pat@.len(),
            n == s@.len(),
            i + pat@.len() <= s@.len(),
            forall|k: int| 0 <= k < j ==> s@[i + k] == pat@[k],
        decreases pat@.len() - j,
    {
        if s[i + j] != pat[j] {
            assert(s@.subrange(i as int, i + pat@.len())[j as int] != pat@[j as int]);
            return false;
        }
        j = j + 1;
    }
    assert(s@.subrange(i as int, i + pat@.len()) =~= pat@);
    true
}

/// First occurrence of `pat` in `s`, as a character index.
pub fn find_chars(s: &[char], pat: &[char]) -> (r: Option<usize>)
    ensures
        match r {
            Some(k) => find(s@, pat@) == Some(k as int),
            None => find(s@, pat@) is None,
        },
{
    if pat.len() > s.len() {
        return None;
    }
    if pat.len() == 0 {
        assert(s@.subrange(0, 0) =~= pat@);
        return Some(0);
    }
    let mut i: usize = 0;
    let n = s.len();
    let last = n - pat.len();
    while i <= last
        invariant
            n == s@.len(),
            1 <= pat@.len() <= s@.len(),
            last == s@.len() - pat@.len(),
            i <= last + 1,
            find(s@, pat@) == find_from(s@, pat@, i as int),
        decreases last + 1 - i,
    {
        if matches_at(s, pat, i) {
            return Some(i);
        }
        i = i + 1;
    }
    None
}

/// First character of `s` at or after `start` in class `cls`.
pub fn first_in_chars(s: &[char], start: usize, cls: CharClass) -> (r: Option<usize>)
    requires
        start <= s@.len(),
    ensures
        match r {
            Some(k) => start <= k < s@.len() && first_in(s@.skip(start as int), cls) == Some(
                k - start,
            ),
            None => first_in(s@.skip(start as int), cls) is None,
        },
{
    let mut i: usize = start;
    while i < s.len()
        invariant
            start <= i <= s@.len(),
            first_in(s@.skip(start as int), cls) == match first_in(s@.skip(i as int), cls) {
                Some(k) => Some(k + (i - start)),
                None => None,
            },
        decreases s@.len() - i,
    {
        assert(s@.skip(i as int)[0] == s@[i as int]);
        if char_in_class(&cls, s[i]) {
            return Some(i);
        }
        assert(s@.skip(i as int).drop_first() =~= s@.skip(i + 1));
        i = i + 1;
    }
    assert(s@.skip(i as int).len() == 0);
    None
}

/// End of the token that starts at `start`: the first character of class
/// `cls` at or after it, or the end of `s`.
pub fn token_end_chars(s: &[char], start: usize, cls: CharClass) -> (k: usize)
    requires
        start <= s@.len(),
    ensures
        start <= k <= s@.len(),
        k - start == token_end(s@.skip(start as int), cls),
{
    match first_in_chars(s, start, cls) {
        Some(k) => k,
        None => s.len(),
    }
}

// ---------------------------------------------------------------------------
// Trimming
// ---------------------------------------------------------------------------

pub open spec fn trim_start(s: Seq<char>) -> Seq<char>
    decreases s.len(),
{
    if s.len() > 0 && is_white_space(s[0]) {
        trim_start(s.drop_first())
    } else {
        s
    }
}

pub open spec fn trim_end(s: Seq<char>) -> Seq<char>
    decreases s.len(),
{
    if s.len() > 0 && is_white_space(s.last()) {
        trim_end(s.drop_last())
    } else {
        s
    }
}

/// `s` without leading and trailing white space (what `str::trim` gives).
pub open spec fn trim(s: Seq<char>) -> Seq<char> {
    trim_end(trim_start(s))
}

proof fn lemma_trim_start_shape(s: Seq<char>)
    ensures
        trim_start(s).len() == 0 || !is_white_space(trim_start(s)[0]),
    decreases s.len(),
{
    if s.len() > 0 && is_white_space(s[0]) {
        lemma_trim_start_shape(s.drop_first());
    }
}

proof fn lemma_trim_end_shape(s: Seq<char>)
    ensures
        trim_end(s).len() <= s.len(),
        trim_end(s) == s.take(trim_end(s).len() as int),
        trim_end(s).len() == 0 || !is_white_space(trim_end(s).last()),
    decreases s.len(),
{
    if s.len() > 0 && is_white_space(s.last()) {
        lemma_trim_end_shape(s.drop_last());
        assert(s.drop_last().take(trim_end(s).len() as int) =~= s.take(trim_end(s).len() as int));
    } else {
        assert(s.take(s.len() as int) =~= s);
    }
}

proof fn lemma_trim_start_skip(s: Seq<char>) -> (a: int)
    ensures
        0 <= a <= s.len(),
        trim_start(s) == s.skip(a),
        forall|j: int| 0 <= j < a ==> is_white_space(#[trigger] s[j]),
    decreases s.len(),
{
    if s.len() > 0 && is_white_space(s[0]) {
        let a1 = lemma_trim_start_skip(s.drop_first());
        assert(s.drop_first().skip(a1) =~= s.skip(a1 + 1));
        assert forall|j: int| 0 <= j < a1 + 1 implies is_white_space(#[trigger] s[j]) by {
            if j > 0 {
                assert(s[j] == s.drop_first()[j - 1]);
            }
        }
        a1 + 1
    } else {
        assert(s.skip(0) =~= s);
        0
    }
}

proof fn lemma_trim_end_take(s: Seq<char>) -> (b: int)
    ensures
        0 <= b <= s.len(),
        trim_end(s) == s.take(b),
        forall|j: int| b <= j < s.len() ==> is_white_space(#[trigger] s[j]),
    decreases s.len(),
{
    if s.len() > 0 && is_white_space(s.last()) {
        let b1 = lemma_trim_end_take(s.drop_last());
        assert(s.drop_last().take(b1) =~= s.take(b1));
        assert forall|j: int| b1 <= j < s.len() implies is_white_space(#[trigger] s[j]) by {
            if j < s.len() - 1 {
                assert(s[j] == s.drop_last()[j]);
            }
        }
        b1
    } else {
        assert(s.take(s.len() as int) =~= s);
        s.len() as int
    }
}

/// Law: trimming keeps one run of `s` and drops only white space around it:
/// the result is `s[a..b]`, every character before `a` or from `b` on is
/// white space, and a non-empty result starts and ends with a character
/// that is not.
pub proof fn law_trim_shape(s: Seq<char>)
    ensures
        exists|a: int, b: int|
            #![trigger s.subrange(a, b)]
            0 <= a <= b <= s.len() && trim(s) == s.subrange(a, b) && (forall|j: int|
                0 <= j < a ==> is_white_space(#[trigger] s[j])) && (forall|j: int|
                b <= j < s.len() ==> is_white_space(#[trigger] s[j])) && (a < b ==> (
            !is_white_space(s[a]) && !is_white_space(s[b - 1]))),
{
    let a = lemma_trim_start_skip(s);
    let t = s.skip(a);
    let b1 = lemma_trim_end_take(t);
    lemma_trim_start_shape(s);
    lemma_trim_end_shape(t);
    let b = a + b1;
    assert(t.take(b1) =~= s.subrange(a, b));
    assert forall|j: int| b <= j < s.len() implies is_white_space(#[trigger] s[j]) by {
        assert(s[j] == t[j - a]);
    }
    if a < b {
        assert(s.subrange(a, b)[0] == s[a]);
        assert(s.subrange(a, b).last() == s[b - 1]);
    }
    assert(trim(s) == s.subrange(a, b));
}

/// A text with no white space at either end is its own trim.
pub proof fn lemma_trim_of_unpadded(s: Seq<char>)
    requires
        s.len() > 0 ==> !is_white_space(s[0]) && !is_white_space(s.last()),
    ensures
        trim(s) == s,
{
}

/// Law: trimming a trimmed text changes nothing.
pub proof fn law_trim_idempotent(s: Seq<char>)
    ensures
        trim(trim(s)) == trim(s),
{
    let t = trim(s);
    lemma_trim_start_shape(s);
    lemma_trim_end_shape(trim_start(s));
    if t.len() > 0 {
        assert(t[0] == trim_start(s)[0]);
        assert(trim_start(t) == t);
        assert(trim_end(t) == t);
    }
}

/// Bounds `(a, b)` with `trim(s[from..to]) == s[a..b]`.
pub fn trim_bounds(s: &[char], from: usize, to: usize) -> (r: (usize, usize))
    requires
        from <= to <= s@.len(),
    ensures
        from <= r.0 <= r.1 <= to,
        trim(s@.subrange(from as int, to as int)) == s@.subrange(r.0 as int, r.1 as int),
{
    let mut a: usize = from;
    while a < to && is_white_space_char(s[a])
        invariant
            from <= a <= to <= s@.len(),
            trim_start(s@.subrange(from as int, to as int)) == trim_start(
                s@.subrange(a as int, to as int),
            ),
        decreases to - a,
    {
        assert(s@.subrange(a as int, to as int).drop_first() =~= s@.subrange(a + 1, to as int));
        a = a + 1;
    }
    assert(trim_start(s@.subrange(a as int, to as int)) == s@.subrange(a as int, to as int));
    let mut b: usize = to;
    while b > a && is_white_space_char(s[b - 1])
        invariant
            from <= a <= b <= to <= s@.len(),
            trim_end(s@.subrange(a as int, to as int)) == trim_end(
                s@.subrange(a as int, b as int),
            ),
        decreases b - a,
    {
        assert(s@.subrange(a as int, b as int).drop_last() =~= s@.subrange(a as int, b - 1));
        b = b - 1;
    }
    (a, b)
}

// ---------------------------------------------------------------------------
// Conversions between text forms
// ---------------------------------------------------------------------------

/// Number of bytes that encode `c` in UTF-8.
pub open spec fn utf8_width(c: char) -> nat {
    if (c as u32) < 0x80 {
        1
    } else if (c as u32) < 0x800 {
        2
    } else if (c as u32) < 0x10000 {
        3
    } else {
        4
    }
}

/// Number of bytes of the UTF-8 encoding of `s` (what `str::len` gives).
pub open spec fn utf8_len(s: Seq<char>) -> nat
    decreases s.len(),
{
    if s.len() == 0 {
        0
    } else {
        utf8_width(s[0]) + utf8_len(s.drop_first())
    }
}

/// A text is at least as long in bytes as any of its endings.
pub proof fn lemma_utf8_len_suffix(s: Seq<char>, i: int)
    requires
        0 <= i <= s.len(),
    ensures
        utf8_len(s.skip(i)) <= utf8_len(s),
    decreases i,
{
    if i > 0 {
        lemma_utf8_len_suffix(s, i - 1);
        assert(s.skip(i - 1).drop_first() =~= s.skip(i));
    } else {
        assert(s.skip(0) =~= s);
    }
}

fn utf8_width_of(c: char) -> (w: usize)
    ensures
        w == utf8_width(c),
{
    let v = c as u32;
    if v < 0x80 {
        1
    } else if v < 0x800 {
        2
    } else if v < 0x10000 {
        3
    } else {
        4
    }
}

/// Byte length of `s[from..to]` when it is at most `limit`; some number
/// above `limit` otherwise.
pub fn utf8_len_up_to(s: &[char], from: usize, to: usize, limit: usize) -> (r: usize)
    requires
        from <= to <= s@.len(),
        limit < usize::MAX - 4,
    ensures
        r <= limit ==> r == utf8_len(s@.subrange(from as int, to as int)),
        r > limit ==> utf8_len(s@.subrange(from as int, to as int)) > limit,
{
    let mut acc: usize = 0;
    let mut i: usize = to;
    assert(s@.subrange(to as int, to as int).len() == 0);
    while i > from
        invariant
            from <= i <= to <= s@.len(),
            limit < usize::MAX - 4,
            acc <= limit,
            acc == utf8_len(s@.subrange(i as int, to as int)),
        decreases i - from,
    {
        let w = utf8_width_of(s[i - 1]);
        assert(s@.subrange(i - 1, to as int).drop_first() =~= s@.subrange(i as int, to as int));
        assert(s@.subrange(i - 1, to as int)[0] == s@[i - 1]);
        acc = acc + w;
        i = i - 1;
        if acc > limit {
            proof {
                let whole = s@.subrange(from as int, to as int);
                lemma_utf8_len_suffix(whole, i - from);
                assert(whole.skip(i - from) =~= s@.subrange(i as int, to as int));
            }
            return acc;
        }
    }
    acc
}

/// The characters of `s`, in order.
pub fn chars_of(s: &str) -> (v: Vec<char>)
    ensures
        v@ == s@,
{
    let mut v: Vec<char> = Vec::new();
    for c in it: s.chars()
        invariant
            v@ == it.seq().take(it.index() as int),
            it.seq() == s@,
    {
        v.push(c);
    }
    v
}

/// An owned copy of the characters `from..to` of `s`.
pub fn substring(s: &str, from: usize, to: usize) -> (r: String)
    requires
        from <= to <= s@.len(),
    ensures
        r@ == s@.subrange(from as int, to as int),
{
    s.substring_char(from, to).to_owned()
}

/// `String::push`: appends one character.
#[verifier::external_body]
pub(crate) fn push_char(s: &mut String, c: char)
    ensures
        final(s)@ == old(s)@.push(c),
{
    s.push(c);
}

/// Unicode lower-case mapping of a text, character by character with the
/// context rules of the Unicode standard (what `str::to_lowercase` gives).
pub uninterp spec fn unicode_lowercase(s: Seq<char>) -> Seq<char>;

/// `str::to_lowercase`: the result is the Unicode lower-case mapping of `s`,
/// named `unicode_lowercase`; nothing more of the mapping is stated.
#[verifier::external_body]
pub(crate) fn to_lowercase(s: &str) -> (r: String)
    ensures
        r@ == unicode_lowercase(s@),
{
    s.to_lowercase()
}

/// Concatenation of two texts into a new `String`.
pub fn concat(a: &str, b: &str) -> (r: String)
    ensures
        r@ == a@ + b@,
{
    let mut r = a.to_owned();
    r.append(b);
    r
}

// ---------------------------------------------------------------------------
// Decimal numbers
// ---------------------------------------------------------------------------

pub open spec fn digit_char(d: nat) -> char {
    (d + 48) as char
}

/// Decimal representation of `n`, without sign or leading zeros.
pub open spec fn decimal(n: nat) -> Seq<char>
    decreases n,
{
    if n < 10 {
        seq![digit_char(n)]
    } else {
        decimal(n / 10).push(digit_char(n % 10))
    }
}

/// Value of a sequence of ASCII digits.
pub open spec fn digits_value(s: Seq<char>) -> nat
    decreases s.len(),
{
    if s.len() == 0 {
        0
    } else {
        digits_value(s.drop_last()) * 10 + ((s.last() as nat) - 48) as nat
    }
}

pub open spec fn all_digits(s: Seq<char>) -> bool {
    forall|i: int| 0 <= i < s.len() ==> is_ascii_digit(#[trigger] s[i])
}

fn digit_of(d: u64) -> (c: char)
    requires
        d < 10,
    ensures
        c == digit_char(d as nat),
{
    let b: u8 = 48u8 + (d as u8);
    b as char
}

fn push_decimal(out: &mut String, n: u64)
    ensures
        final(out)@ == old(out)@ + decimal(n as nat),
    decreases n,
{
    if n >= 10 {
        push_decimal(out, n / 10);
    }
    push_char(out, digit_of(n % 10));
    proof {
        if n >= 10 {
            assert(decimal(n as nat) == decimal((n / 10) as nat).push(digit_char((n % 10) as nat)));
        }
    }
}

/// Decimal text of `n` (what `to_string` gives for an unsigned integer).
pub fn decimal_string(n: u64) -> (r: String)
    ensures
        r@ == decimal(n as nat),
{
    let mut r = String::new();
    push_decimal(&mut r, n);
    assert(r@ =~= decimal(n as nat));
    r
}

/// Value of the all-digit characters `s[from..to]`, or `None` when it exceeds
/// `u32::MAX`.
pub fn digits_u32(s: &[char], from: usize, to: usize) -> (r: Option<u32>)
    requires
        from <= to <= s@.len(),
        all_digits(s@.subrange(from as int, to as int)),
    ensures
        match r {
            Some(v) => v as nat == digits_value(s@.subrange(from as int, to as int)),
            None => digits_value(s@.subrange(from as int, to as int)) > u32::MAX,
        },
{
    let mut acc: u64 = 0;
    let mut i: usize = from;
    while i < to
        invariant
            from <= i <= to <= s@.len(),
            all_digits(s@.subrange(from as int, to as int)),
            acc as nat == digits_value(s@.subrange(from as int, i as int)),
            acc <= u32::MAX,
        decreases to - i,
    {
        assert(s@.subrange(from as int, to as int)[i - from] == s@[i as int]);
        let d = (s[i] as u32 - 48) as u64;
        assert(s@.subrange(from as int, i + 1).drop_last() =~= s@.subrange(from as int, i as int));
        let next = acc * 10 + d;
        i = i + 1;
        if next > 4294967295u64 {
            proof {
                lemma_digits_value_grows(s@.subrange(from as int, to as int), i - from);
                assert(s@.subrange(from as int, to as int).subrange(0, i - from) =~= s@.subrange(
                    from as int,
                    i as int,
                ));
            }
            return None;
        }
        acc = next;
    }
    Some(acc as u32)
}

/// Extending a digit sequence never lowers its value.
pub proof fn lemma_digits_value_grows(s: Seq<char>, k: int)
    requires
        0 <= k <= s.len(),
        all_digits(s),
    ensures
        digits_value(s.subrange(0, k)) <= digits_value(s),
    decreases s.len() - k,
{
    if k < s.len() {
        lemma_digits_value_grows(s, k + 1);
        let t = s.subrange(0, k + 1);
        assert(t.drop_last() =~= s.subrange(0, k));
        assert(is_ascii_digit(s[k]));
        assert(t.last() == s[k]);
    } else {
        assert(s.subrange(0, k) =~= s);
    }
}

// ---------------------------------------------------------------------------
// Joining
// ---------------------------------------------------------------------------

/// The texts of `parts` separated by `sep` (what `join` gives).
pub open spec fn join(parts: Seq<Seq<char>>, sep: Seq<char>) -> Seq<char>
    decreases parts.len(),
{
    if parts.len() == 0 {
        Seq::empty()
    } else if parts.len() == 1 {
        parts[0]
    } else {
        join(parts.drop_last(), sep) + sep + parts.last()
    }
}

pub open spec fn views(parts: Seq<String>) -> Seq<Seq<char>> {
    parts.map_values(|p: String| p@)
}

/// The texts of `parts` separated by `sep`.
pub fn join_strings(parts: &Vec<String>, sep: &str) -> (r: String)
    ensures
        r@ == join(views(parts@), sep@),
{
    let mut r = String::new();
    let ghost all = views(parts@);
    let mut i: usize = 0;
    while i < parts.len()
        invariant
            i <= parts@.len(),
            all == views(parts@),
            r@ == join(all.take(i as int), sep@),
        decreases parts@.len() - i,
    {
        assert(all.take(i + 1).drop_last() =~= all.take(i as int));
        if i > 0 {
            r.append(sep);
        } else {
            assert(r@ =~= Seq::<char>::empty());
        }
        r.append(parts[i].as_str());
        proof {
            if i == 0 {
                assert(r@ =~= all.take(1)[0]);
            }
        }
        i = i + 1;
    }
    assert(all.take(parts@.len() as int) =~= all);
    r
}

} // verus!
