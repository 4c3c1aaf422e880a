//! Character-level text utilities shared by the readers, writers and the
//! element-list parser.
//!
//! Text is handled as sequences of `char`; the few calls into the standard
//! library that Verus has no specification for sit behind small wrappers.
use vstd::prelude::*;

verus! {

/// The characters of a string slice, in order.
#[verifier::external_body]
pub(crate) fn chars_of(s: &str) -> (r: Vec<char>)
    ensures
        r@ == s@,
{
    s.chars().collect()
}

/// A string made of the given characters, in order.
#[verifier::external_body]
pub(crate) fn string_of(v: &[char]) -> (r: String)
    ensures
        r@ == v@,
{
    v.iter().collect()
}

/// Appends a string slice to a string.
#[verifier::external_body]
pub(crate) fn push_str(s: &mut String, t: &str)
    ensures
        final(s)@ == old(s)@ + t@,
{
    s.push_str(t)
}

/// Appends one character to a string.
#[verifier::external_body]
pub(crate) fn push_char(s: &mut String, c: char)
    ensures
        final(s)@ == old(s)@.push(c),
{
    s.push(c)
}

/// What `str::to_lowercase` returns for a string (Unicode lowercase mapping).
pub uninterp spec fn lowercase_of(s: Seq<char>) -> Seq<char>;

/// What `str::to_uppercase` returns for a string (Unicode uppercase mapping).
pub uninterp spec fn uppercase_of(s: Seq<char>) -> Seq<char>;

/// Every character of the text is ASCII.
pub open spec fn ascii_text(s: Seq<char>) -> bool {
    forall|i: int| 0 <= i < s.len() ==> (#[trigger] s[i] as u32) < 128
}

/// The text with its ASCII letters lowercased.
pub open spec fn ascii_lower(s: Seq<char>) -> Seq<char> {
    s.map_values(|c: char| crate::lut::lower_ascii(c))
}

/// The text with its ASCII letters uppercased.
pub open spec fn ascii_upper(s: Seq<char>) -> Seq<char> {
    s.map_values(|c: char| crate::lut::upper_ascii(c))
}

/// Case folding of ASCII text: uppercasing keeps it ASCII, lowercasing an
/// uppercased text gives the lowercased text, lowercasing twice is
/// lowercasing once, and neither changes the length.
pub proof fn law_ascii_case_fold(s: Seq<char>)
    requires
        ascii_text(s),
    ensures
        ascii_text(ascii_upper(s)),
        ascii_text(ascii_lower(s)),
        ascii_lower(ascii_upper(s)) == ascii_lower(s),
        ascii_lower(ascii_lower(s)) == ascii_lower(s),
        ascii_lower(s).len() == s.len(),
        ascii_upper(s).len() == s.len(),
{
    assert forall|i: int| 0 <= i < s.len() implies {
        &&& (#[trigger] ascii_upper(s)[i] as u32) < 128
        &&& (ascii_lower(s)[i] as u32) < 128
        &&& crate::lut::lower_ascii(ascii_upper(s)[i]) == ascii_lower(s)[i]
        &&& crate::lut::lower_ascii(ascii_lower(s)[i]) == ascii_lower(s)[i]
    } by {
        assert((s[i] as u32) < 128);
    }
    assert(ascii_lower(ascii_upper(s)) =~= ascii_lower(s));
    assert(ascii_lower(ascii_lower(s)) =~= ascii_lower(s));
}

/// Lowercases a string with `str::to_lowercase`.
///
/// The result is named by `lowercase_of` over the characters of the input.
/// Of ASCII text the Unicode mapping is the ASCII one, letter by letter
/// (`A`-`Z` to `a`-`z`, other characters kept), as std documents for
/// ASCII; nothing more is stated of the Unicode case mapping.
#[verifier::external_body]
pub(crate) fn to_lowercase(s: &str) -> (r: String)
    ensures
        r@ == lowercase_of(s@),
        ascii_text(s@) ==> r@ == ascii_lower(s@),
{
    s.to_lowercase()
}

/// Uppercases a string with `str::to_uppercase`.
///
/// The result is named by `uppercase_of` over the characters of the input.
/// Of ASCII text the Unicode mapping is the ASCII one, letter by letter
/// (`a`-`z` to `A`-`Z`, other characters kept), as std documents for
/// ASCII; nothing more is stated of the Unicode case mapping.
#[verifier::external_body]
pub(crate) fn to_uppercase(s: &str) -> (r: String)
    ensures
        r@ == uppercase_of(s@),
        ascii_text(s@) ==> r@ == ascii_upper(s@),
{
    s.to_uppercase()
}

/// Whether a character has the Unicode `Alphabetic` property, as
/// `char::is_alphabetic` tells.
pub uninterp spec fn alphabetic(c: char) -> bool;

/// Calls `char::is_alphabetic`. Claimed: the result is `alphabetic` of the
/// character, which depends on it alone; nothing more is stated of the
/// Unicode property.
#[verifier::external_body]
pub(crate) fn is_alphabetic(c: char) -> (r: bool)
    ensures
        r == alphabetic(c),
{
    c.is_alphabetic()
}

/// Unicode `White_Space` property, which `char::is_whitespace`, `str::trim`
/// and the regular-expression class `\s` all use.
pub open spec fn is_ws(c: char) -> bool {
    ||| ('\u{9}' <= c && c <= '\u{d}')
    ||| c == ' '
    ||| c == '\u{85}'
    ||| c == '\u{a0}'
    ||| c == '\u{1680}'
    ||| ('\u{2000}' <= c && c <= '\u{200a}')
    ||| c == '\u{2028}'
    ||| c == '\u{2029}'
    ||| c == '\u{202f}'
    ||| c == '\u{205f}'
    ||| c == '\u{3000}'
}

/// Decides `is_ws`.
pub fn is_whitespace(c: char) -> (r: bool)
    ensures
        r == is_ws(c),
{
    ('\u{9}' <= c && c <= '\u{d}') || c == ' ' || c == '\u{85}' || c == '\u{a0}' || c == '\u{1680}'
        || ('\u{2000}' <= c && c <= '\u{200a}') || c == '\u{2028}' || c == '\u{2029}' || c
        == '\u{202f}' || c == '\u{205f}' || c == '\u{3000}'
}

/// ASCII decimal digit.
pub open spec fn is_digit(c: char) -> bool {
    '0' <= c && c <= '9'
}

/// ASCII letter.
pub open spec fn is_ascii_alpha(c: char) -> bool {
    ('a' <= c && c <= 'z') || ('A' <= c && c <= 'Z')
}

/// Number of leading characters of `s` that are whitespace.
pub open spec fn lead_ws(s: Seq<char>) -> nat
    decreases s.len(),
{
    if s.len() > 0 && is_ws(s[0]) {
        1 + lead_ws(s.drop_first())
    } else {
        0
    }
}

/// Number of trailing characters of `s` that are whitespace.
pub open spec fn trail_ws(s: Seq<char>) -> nat
    decreases s.len(),
{
    if s.len() > 0 && is_ws(s.last()) {
        1 + trail_ws(s.drop_last())
    } else {
        0
    }
}

/// `s` without leading and trailing whitespace, as `str::trim` gives it.
pub open spec fn trim_spec(s: Seq<char>) -> Seq<char> {
    let a = lead_ws(s);
    if a == s.len() {
        Seq::empty()
    } else {
        s.subrange(a as int, s.len() - trail_ws(s))
    }
}

proof fn lemma_lead_ws(s: Seq<char>, k: int)
    requires
        0 <= k <= s.len(),
        forall|i: int| 0 <= i < k ==> is_ws(#[trigger] s[i]),
        k == s.len() || !is_ws(s[k]),
    ensures
        lead_ws(s) == k,
    decreases k,
{
    if k > 0 {
        lemma_lead_ws(s.drop_first(), k - 1);
    }
}

proof fn lemma_trail_ws(s: Seq<char>, k: int)
    requires
        0 <= k <= s.len(),
        forall|i: int| s.len() - k <= i < s.len() ==> is_ws(#[trigger] s[i]),
        k == s.len() || !is_ws(s[s.len() - k - 1]),
    ensures
        trail_ws(s) == k,
    decreases k,
{
    if k > 0 {
        lemma_trail_ws(s.drop_last(), k - 1);
    }
}

/// `s` without leading and trailing whitespace.
pub fn trim_chars(s: &[char]) -> (r: Vec<char>)
    ensures
        r@ == trim_spec(s@),
{
    let n = s.len();
    let mut a: usize = 0;
    while a < n && is_whitespace(s[a])
        invariant
            a <= n,
            n == s@.len(),
            forall|i: int| 0 <= i < a ==> is_ws(#[trigger] s@[i]),
        decreases n - a,
    {
        a = a + 1;
    }
    proof {
        lemma_lead_ws(s@, a as int);
    }
    let mut r: Vec<char> = Vec::new();
    if a == n {
        return r;
    }
    let mut b: usize = n;
    while b > a && is_whitespace(s[b - 1])
        invariant
            a < n,
            a <= b <= n,
            n == s@.len(),
            !is_ws(s@[a as int]),
            forall|i: int| b <= i < n ==> is_ws(#[trigger] s@[i]),
        decreases b,
    {
        b = b - 1;
    }
    proof {
        lemma_trail_ws(s@, (n - b) as int);
    }
    let mut i = a;
    while i < b
        invariant
            a <= i <= b <= n,
            n == s@.len(),
            r@ == s@.subrange(a as int, i as int),
        decreases b - i,
    {
        r.push(s[i]);
        i = i + 1;
    }
    r
}

/// Concatenation of a sequence of strings, with `sep` between neighbours.
pub open spec fn join_spec(parts: Seq<Seq<char>>, sep: Seq<char>) -> Seq<char>
    decreases parts.len(),
{
    if parts.len() == 0 {
        Seq::empty()
    } else if parts.len() == 1 {
        parts[0]
    } else {
        join_spec(parts.drop_last(), sep) + sep + parts.last()
    }
}

/// Joins strings with a separator, as `[String]::join` does.
pub fn join(parts: &Vec<String>, sep: &str) -> (r: String)
    ensures
        r@ == join_spec(parts.deep_view(), sep@),
{
    let mut r = String::new();
    let ghost dv = parts.deep_view();
    let mut i: usize = 0;
    while i < parts.len()
        invariant
            i <= parts.len(),
            dv == parts.deep_view(),
            r@ == join_spec(dv.take(i as int), sep@),
        decreases parts.len() - i,
    {
        if i > 0 {
            push_str(&mut r, sep);
        }
        push_str(&mut r, parts[i].as_str());
        proof {
            assert(dv.take(i + 1).drop_last() =~= dv.take(i as int));
            assert(dv.take(i + 1).last() == parts[i as int]@);
            if i == 0 {
                assert(dv.take(1) =~= seq![parts[0]@]);
            }
        }
        i = i + 1;
    }
    proof {
        assert(dv.take(parts.len() as int) =~= dv);
    }
    r
}

/// Decimal digits of a natural number, most significant first, with no
/// leading zeros (`0` is written as a single `'0'`).
pub open spec fn nat_digits(n: nat) -> Seq<char>
    decreases n,
{
    if n < 10 {
        seq![(('0' as u32) + n) as char]
    } else {
        nat_digits(n / 10).push(((('0' as u32) + (n % 10)) as char))
    }
}

/// Decimal form of an integer, as `i32::to_string` writes it.
pub open spec fn int_text(n: int) -> Seq<char> {
    if n < 0 {
        seq!['-'] + nat_digits((-n) as nat)
    } else {
        nat_digits(n as nat)
    }
}

/// The decimal digit character of a value below ten.
fn digit_char(d: u64) -> (c: char)
    requires
        d < 10,
    ensures
        c == (('0' as u32) + d) as char,
{
    match d {
        0 => '0',
        1 => '1',
        2 => '2',
        3 => '3',
        4 => '4',
        5 => '5',
        6 => '6',
        7 => '7',
        8 => '8',
        _ => '9',
    }
}

proof fn lemma_nat_digits_len(n: nat)
    ensures
        nat_digits(n).len() >= 1,
    decreases n,
{
    if n >= 10 {
        lemma_nat_digits_len(n / 10);
    }
}

/// Decimal digits of a `u64`.
pub fn u64_text(n: u64) -> (r: Vec<char>)
    ensures
        r@ == nat_digits(n as nat),
    decreases n,
{
    if n < 10 {
        let mut r = Vec::new();
        r.push(digit_char(n));
        r
    } else {
        let mut r = u64_text(n / 10);
        r.push(digit_char(n % 10));
        r
    }
}

/// Decimal form of an `i32`, as `i32::to_string` writes it.
pub fn i32_text(n: i32) -> (r: String)
    ensures
        r@ == int_text(n as int),
{
    if n < 0 {
        let m: i64 = -(n as i64);
        let d = u64_text(m as u64);
        let mut r = String::new();
        push_char(&mut r, '-');
        let t = string_of(d.as_slice());
        push_str(&mut r, t.as_str());
        r
    } else {
        let d = u64_text(n as u64);
        string_of(d.as_slice())
    }
}

/// Decimal form of a `usize`.
pub fn usize_text(n: usize) -> (r: String)
    ensures
        r@ == nat_digits(n as nat),
{
    let d = u64_text(n as u64);
    string_of(d.as_slice())
}

/// Value of a sequence of decimal digits, most significant first.
pub open spec fn digits_value(s: Seq<char>) -> nat
    decreases s.len(),
{
    if s.len() == 0 {
        0
    } else {
        digits_value(s.drop_last()) * 10 + ((s.last() as u32) - ('0' as u32)) as nat
    }
}

/// All characters are decimal digits.
pub open spec fn all_digits(s: Seq<char>) -> bool {
    forall|i: int| 0 <= i < s.len() ==> is_digit(#[trigger] s[i])
}

/// The integer an `i32` parse (`str::parse::<i32>`) yields for a string, if any:
/// an optional sign followed by at least one decimal digit, within range.
pub open spec fn parse_i32_spec(s: Seq<char>) -> Option<i32> {
    let neg = s.len() > 0 && s[0] == '-';
    let signed = s.len() > 0 && (s[0] == '-' || s[0] == '+');
    let body = if signed { s.drop_first() } else { s };
    if body.len() == 0 || !all_digits(body) {
        None
    } else {
        let v: int = if neg { -(digits_value(body) as int) } else { digits_value(body) as int };
        if i32::MIN <= v && v <= i32::MAX {
            Some(v as i32)
        } else {
            None
        }
    }
}

proof fn lemma_digits_value_step(s: Seq<char>, i: int)
    requires
        0 <= i < s.len(),
    ensures
        digits_value(s.take(i + 1)) == digits_value(s.take(i)) * 10 + ((s[i] as u32) - ('0' as u32)) as nat,
{
    assert(s.take(i + 1).drop_last() =~= s.take(i));
}

proof fn lemma_digits_value_mono(s: Seq<char>, i: int, j: int)
    requires
        0 <= i <= j <= s.len(),
        all_digits(s),
    ensures
        digits_value(s.take(i)) <= digits_value(s.take(j)),
    decreases j - i,
{
    if i < j {
        lemma_digits_value_mono(s, i, j - 1);
        lemma_digits_value_step(s, j - 1);
    }
}

/// Parses an `i32` written in decimal, as `str::parse::<i32>` does.
pub fn parse_i32(s: &[char]) -> (r: Option<i32>)
    ensures
        r == parse_i32_spec(s@),
{
    let n = s.len();
    if n == 0 {
        return None;
    }
    let neg = s[0] == '-';
    let start: usize = if s[0] == '-' || s[0] == '+' { 1 } else { 0 };
    let ghost body = if start == 1 { s@.drop_first() } else { s@ };
    assert(body =~= s@.subrange(start as int, n as int));
    if start == n {
        return None;
    }
    let mut acc: i64 = 0;
    let mut i = start;
    while i < n
        invariant
            start <= i <= n,
            n == s@.len(),
            start < n,
            start == (if s@[0] == '-' || s@[0] == '+' { 1usize } else { 0usize }),
            neg == (s@[0] == '-'),
            body == (if start == 1 { s@.drop_first() } else { s@ }),
            body =~= s@.subrange(start as int, n as int),
            forall|k: int| start <= k < i ==> is_digit(#[trigger] s@[k]),
            acc as int == digits_value(body.take(i - start)),
            acc <= 2147483648,
        decreases n - i,
    {
        if !('0' <= s[i] && s[i] <= '9') {
            proof {
                assert(body[i - start] == s@[i as int]);
                assert(!is_digit(body[i - start]));
                assert(!all_digits(body));
            }
            return None;
        }
        let d = (s[i] as u32 - '0' as u32) as i64;
        proof {
            lemma_digits_value_step(body, i - start);
            assert(body[i - start] == s@[i as int]);
        }
        let next = acc * 10 + d;
        if next > 2147483648 {
            proof {
                if all_digits(body) {
                    lemma_digits_value_mono(body, i + 1 - start, body.len() as int);
                    assert(body.take(body.len() as int) =~= body);
                }
            }
            return None;
        }
        acc = next;
        i = i + 1;
    }
    proof {
        assert(body.take(n - start) =~= body);
        assert(all_digits(body));
    }
    if neg {
        Some((-acc) as i32)
    } else if acc <= 2147483647 {
        Some(acc as i32)
    } else {
        None
    }
}

/// The value of a decimal number as `str::parse::<usize>` reads it: an
/// optional `+` and at least one digit, within range.
pub open spec fn parse_usize_spec(s: Seq<char>) -> Option<usize> {
    let body = if s.len() > 0 && s[0] == '+' { s.drop_first() } else { s };
    if body.len() == 0 || !all_digits(body) || digits_value(body) > usize::MAX {
        None
    } else {
        Some(digits_value(body) as usize)
    }
}

/// Parses a `usize` written in decimal, as `str::parse::<usize>` does.
pub fn parse_usize(s: &[char]) -> (r: Option<usize>)
    ensures
        r == parse_usize_spec(s@),
{
    let n = s.len();
    if n == 0 {
        return None;
    }
    let start: usize = if s[0] == '+' { 1 } else { 0 };
    let ghost body = if start == 1 { s@.drop_first() } else { s@ };
    assert(body =~= s@.subrange(start as int, n as int));
    if start == n {
        return None;
    }
    let mut acc: u128 = 0;
    let mut i = start;
    while i < n
        invariant
            start <= i <= n,
            n == s@.len(),
            start < n,
            start == (if s@[0] == '+' { 1usize } else { 0usize }),
            body == (if start == 1 { s@.drop_first() } else { s@ }),
            body =~= s@.subrange(start as int, n as int),
            forall|k: int| start <= k < i ==> is_digit(#[trigger] s@[k]),
            acc as int == digits_value(body.take(i - start)),
            acc <= usize::MAX,
        decreases n - i,
    {
        if !('0' <= s[i] && s[i] <= '9') {
            proof {
                assert(body[i - start] == s@[i as int]);
                assert(!is_digit(body[i - start]));
                assert(!all_digits(body));
            }
            return None;
        }
        let d = (s[i] as u32 - '0' as u32) as u128;
        proof {
            lemma_digits_value_step(body, i - start);
            assert(body[i - start] == s@[i as int]);
        }
        let next = acc * 10 + d;
        if next > usize::MAX as u128 {
            proof {
                if all_digits(body) {
                    lemma_digits_value_mono(body, i + 1 - start, body.len() as int);
                    assert(body.take(body.len() as int) =~= body);
                }
            }
            return None;
        }
        acc = next;
        i = i + 1;
    }
    proof {
        assert(body.take(n - start) =~= body);
        assert(all_digits(body));
    }
    Some(acc as usize)
}

/// Whether two character sequences are equal.
pub fn chars_eq(a: &[char], b: &[char]) -> (r: bool)
    ensures
        r == (a@ == b@),
{
    if a.len() != b.len() {
        return false;
    }
    let mut i: usize = 0;
    while i < a.len()
        invariant
            i <= a.len(),
            a.len() == b.len(),
            forall|k: int| 0 <= k < i ==> a@[k] == b@[k],
        decreases a.len() - i,
    {
        if a[i] != b[i] {
            return false;
        }
        i = i + 1;
    }
    assert(a@ =~= b@);
    true
}

/// `s` starts with `p`.
pub open spec fn has_prefix(s: Seq<char>, p: Seq<char>) -> bool {
    p.len() <= s.len() && s.subrange(0, p.len() as int) == p
}

/// Whether `s` starts with `p`.
pub fn starts_with(s: &[char], p: &[char]) -> (r: bool)
    ensures
        r == (p@.len() <= s@.len() && s@.subrange(0, p@.len() as int) == p@),
{
    if p.len() > s.len() {
        return false;
    }
    let mut i: usize = 0;
    while i < p.len()
        invariant
            i <= p.len() <= s.len(),
            forall|k: int| 0 <= k < i ==> s@[k] == p@[k],
        decreases p.len() - i,
    {
        if s[i] != p[i] {
            assert(s@.subrange(0, p@.len() as int)[i as int] != p@[i as int]);
            return false;
        }
        i = i + 1;
    }
    assert(s@.subrange(0, p@.len() as int) =~= p@);
    true
}

/// Whether `p` occurs in `s` at position `i`.
pub open spec fn occurs_at(s: Seq<char>, p: Seq<char>, i: int) -> bool {
    0 <= i && i + p.len() <= s.len() && s.subrange(i, i + p.len()) == p
}

/// Whether `p` occurs anywhere in `s` (`str::contains`).
pub open spec fn contains_spec(s: Seq<char>, p: Seq<char>) -> bool {
    exists|i: int| occurs_at(s, p, i)
}

fn occurs_at_exec(s: &[char], p: &[char], i: usize) -> (r: bool)
    requires
        i as int + p.len() as int <= s.len() as int,
    ensures
        r == occurs_at(s@, p@, i as int),
{
    let mut k: usize = 0;
    while k < p.len()
        invariant
            k <= p.len(),
            i as int + p.len() as int <= s.len() as int,
            forall|j: int| 0 <= j < k ==> s@[i + j] == p@[j],
        decreases p.len() - k,
    {
        if s[i + k] != p[k] {
            assert(s@.subrange(i as int, i + p@.len())[k as int] != p@[k as int]);
            return false;
        }
        k = k + 1;
    }
    assert(s@.subrange(i as int, i + p@.len()) =~= p@);
    true
}

/// Whether `p` occurs anywhere in `s`.
pub fn contains(s: &[char], p: &[char]) -> (r: bool)
    ensures
        r == contains_spec(s@, p@),
{
    if p.len() > s.len() {
        assert forall|i: int| !occurs_at(s@, p@, i) by {}
        return false;
    }
    if p.len() == 0 {
        assert(s@.subrange(0, 0) =~= p@);
        assert(occurs_at(s@, p@, 0));
        return true;
    }
    let mut i: usize = 0;
    let last = s.len() - p.len();
    while i <= last
        invariant
            1 <= p@.len() <= s@.len(),
            last == s@.len() - p@.len(),
            last < s.len(),
            i <= last + 1,
            forall|j: int| 0 <= j < i ==> !occurs_at(s@, p@, j),
        decreases last + 1 - i,
    {
        if occurs_at_exec(s, p, i) {
            return true;
        }
        i = i + 1;
    }
    assert forall|j: int| !occurs_at(s@, p@, j) by {
        if 0 <= j && j < i {
        }
    }
    false
}


/// Lexicographic order of strings by code point (the order of `String`).
pub open spec fn str_lt(a: Seq<char>, b: Seq<char>) -> bool
    decreases a.len(),
{
    if a.len() == 0 {
        b.len() > 0
    } else if b.len() == 0 {
        false
    } else if a[0] != b[0] {
        (a[0] as u32) < (b[0] as u32)
    } else {
        str_lt(a.drop_first(), b.drop_first())
    }
}

/// Whether `a` comes before `b` in the order of `String`.
pub fn str_less(a: &[char], b: &[char]) -> (r: bool)
    ensures
        r == str_lt(a@, b@),
{
    let mut k: usize = 0;
    assert(a@.skip(0) =~= a@);
    assert(b@.skip(0) =~= b@);
    while k < a.len() && k < b.len() && a[k] == b[k]
        invariant
            k <= a@.len(),
            k <= b@.len(),
            str_lt(a@, b@) == str_lt(a@.skip(k as int), b@.skip(k as int)),
        decreases a.len() - k,
    {
        assert(a@.skip(k as int).drop_first() =~= a@.skip(k + 1));
        assert(b@.skip(k as int).drop_first() =~= b@.skip(k + 1));
        k = k + 1;
    }
    let ghost sa = a@.skip(k as int);
    let ghost sb = b@.skip(k as int);
    if k == a.len() {
        assert(sa.len() == 0);
        k < b.len()
    } else if k == b.len() {
        assert(sb.len() == 0);
        false
    } else {
        assert(sa[0] == a@[k as int]);
        assert(sb[0] == b@[k as int]);
        (a[k] as u32) < (b[k] as u32)
    }
}

/// How many strings of `p` are not after `x`.
pub open spec fn count_not_after(p: Seq<Seq<char>>, x: Seq<char>) -> nat
    decreases p.len(),
{
    if p.len() == 0 {
        0
    } else {
        count_not_after(p.drop_last(), x) + if !str_lt(x, p.last()) {
            1nat
        } else {
            0nat
        }
    }
}

/// `x` placed into `p` after every string that does not come after it.
pub open spec fn insert_str(p: Seq<Seq<char>>, x: Seq<char>) -> Seq<Seq<char>> {
    let c = count_not_after(p, x) as int;
    p.take(c).push(x) + p.skip(c)
}

/// The strings of `s` in increasing order (an insertion sort).
pub open spec fn sort_strs(s: Seq<Seq<char>>) -> Seq<Seq<char>>
    decreases s.len(),
{
    if s.len() == 0 {
        Seq::empty()
    } else {
        insert_str(sort_strs(s.drop_last()), s.last())
    }
}

/// The distinct strings of `s` in increasing order.
pub open spec fn sort_distinct_strs(s: Seq<Seq<char>>) -> Seq<Seq<char>>
    decreases s.len(),
{
    if s.len() == 0 {
        Seq::empty()
    } else {
        let p = sort_distinct_strs(s.drop_last());
        if p.contains(s.last()) {
            p
        } else {
            insert_str(p, s.last())
        }
    }
}

proof fn lemma_count_not_after(p: Seq<Seq<char>>, x: Seq<char>)
    ensures
        count_not_after(p, x) <= p.len(),
    decreases p.len(),
{
    if p.len() > 0 {
        lemma_count_not_after(p.drop_last(), x);
    }
}

/// Insert `x` into `v` after every string that does not come after it;
/// when `distinct`, a string already present is not inserted again.
pub fn insert_sorted(v: &mut Vec<String>, x: String, distinct: bool)
    ensures
        final(v).deep_view() == (if distinct && old(v).deep_view().contains(x@) {
            old(v).deep_view()
        } else {
            insert_str(old(v).deep_view(), x@)
        }),
{
    let ghost q = v.deep_view();
    let xs = chars_of(x.as_str());
    let mut c: usize = 0;
    let mut found = false;
    let mut k: usize = 0;
    while k < v.len()
        invariant
            k <= v@.len(),
            q == v.deep_view(),
            xs@ == x@,
            c == count_not_after(q.take(k as int), x@),
            c <= k,
            found == q.take(k as int).contains(x@),
        decreases v.len() - k,
    {
        assert(q.take(k + 1).drop_last() =~= q.take(k as int));
        assert(q[k as int] == v@[k as int]@);
        let e = chars_of(v[k].as_str());
        if !str_less(xs.as_slice(), e.as_slice()) {
            c = c + 1;
        }
        if chars_eq(e.as_slice(), xs.as_slice()) {
            found = true;
            assert(q.take(k + 1)[k as int] == x@);
        } else {
            assert forall|t: int| 0 <= t < k + 1 && #[trigger] q.take(k + 1)[t] == x@ implies q.take(k as int).contains(x@) by {
                assert(q.take(k as int)[t] == q.take(k + 1)[t]);
            }
        }
        k = k + 1;
    }
    assert(q.take(v.len() as int) =~= q);
    if distinct && found {
        return;
    }
    proof {
        lemma_count_not_after(q, x@);
    }
    let ghost xv = x@;
    let ghost old_v = v@;
    v.insert(c, x);
    assert(v.deep_view() =~= insert_str(q, xv)) by {
        assert forall|t: int| 0 <= t < v@.len() implies v.deep_view()[t] == insert_str(q, xv)[t] by {
            if t < c {
                assert(v@[t] == old_v[t]);
            } else if t > c {
                assert(v@[t] == old_v[t - 1]);
            }
        }
    }
}


/// Splitting text at whitespace: the finished tokens and the token being
/// read.
pub open spec fn ws_state(s: Seq<char>) -> (Seq<Seq<char>>, Seq<char>)
    decreases s.len(),
{
    if s.len() == 0 {
        (Seq::empty(), Seq::empty())
    } else {
        let (toks, cur) = ws_state(s.drop_last());
        if is_ws(s.last()) {
            if cur.len() > 0 {
                (toks.push(cur), Seq::empty())
            } else {
                (toks, Seq::empty())
            }
        } else {
            (toks, cur.push(s.last()))
        }
    }
}

/// The whitespace-separated tokens of a text, as splitting the trimmed text
/// at runs of whitespace gives them.
pub open spec fn ws_tokens(s: Seq<char>) -> Seq<Seq<char>> {
    let (toks, cur) = ws_state(s);
    if cur.len() > 0 {
        toks.push(cur)
    } else {
        toks
    }
}

/// The whitespace-separated tokens of a text.
pub fn split_ws(s: &str) -> (r: Vec<String>)
    ensures
        r.deep_view() == ws_tokens(s@),
{
    let v = chars_of(s);
    let mut toks: Vec<String> = Vec::new();
    let mut cur: Vec<char> = Vec::new();
    let mut i: usize = 0;
    while i < v.len()
        invariant
            i <= v@.len(),
            v@ == s@,
            (toks.deep_view(), cur@) == ws_state(s@.take(i as int)),
        decreases v.len() - i,
    {
        assert(s@.take(i + 1).drop_last() =~= s@.take(i as int));
        if is_whitespace(v[i]) {
            if cur.len() > 0 {
                let ghost before = toks.deep_view();
                let t = string_of(cur.as_slice());
                toks.push(t);
                assert(toks.deep_view() =~= before.push(cur@));
                cur = Vec::new();
            }
        } else {
            cur.push(v[i]);
        }
        i = i + 1;
    }
    assert(s@.take(v.len() as int) =~= s@);
    if cur.len() > 0 {
        let ghost before = toks.deep_view();
        let t = string_of(cur.as_slice());
        toks.push(t);
        assert(toks.deep_view() =~= before.push(cur@));
    }
    toks
}

/// A text with every `p` replaced by `r`, from left to right.
pub open spec fn replace_all(s: Seq<char>, p: Seq<char>, r: Seq<char>) -> Seq<char>
    decreases s.len(),
{
    if p.len() == 0 || s.len() < p.len() {
        s
    } else if s.take(p.len() as int) == p {
        r + replace_all(s.skip(p.len() as int), p, r)
    } else {
        seq![s[0]] + replace_all(s.skip(1), p, r)
    }
}

/// A text with every occurrence of `pat` replaced by `with`, from left to
/// right.
pub fn replace_text(line: &str, pat: &str, with: &str) -> (r: String)
    requires
        pat@.len() > 0,
    ensures
        r@ == replace_all(line@, pat@, with@),
{
    let s = chars_of(line);
    let p = chars_of(pat);
    let rep = chars_of(with);
    let n = s.len();
    let pl = p.len();
    let mut out: Vec<char> = Vec::new();
    let mut i: usize = 0;
    assert(s@.skip(0) =~= s@);
    while i < n
        invariant
            i <= n,
            n == s@.len(),
            s@ == line@,
            p@ == pat@,
            rep@ == with@,
            pl == p@.len(),
            pl > 0,
            replace_all(line@, pat@, with@) == out@ + replace_all(s@.skip(i as int), p@, rep@),
        decreases n - i,
    {
        let ghost t = s@.skip(i as int);
        let ghost o = out@;
        if n - i < pl {
            let mut q = i;
            while q < n
                invariant
                    i <= q <= n,
                    n == s@.len(),
                    out@ == o + s@.subrange(i as int, q as int),
                decreases n - q,
            {
                out.push(s[q]);
                q = q + 1;
            }
            assert(t =~= s@.subrange(i as int, n as int));
            assert(replace_all(t, p@, rep@) == t);
            assert(replace_all(s@.skip(n as int), p@, rep@) =~= Seq::<char>::empty());
            i = n;
        } else {
            let mut same = true;
            let mut j: usize = 0;
            while j < pl
                invariant
                    j <= pl,
                    pl == p@.len(),
                    i + pl <= n,
                    n == s@.len(),
                    same == (forall|m: int| 0 <= m < j ==> s@[i + m] == p@[m]),
                decreases pl - j,
            {
                if s[i + j] != p[j] {
                    same = false;
                }
                j = j + 1;
            }
            if same {
                assert(t.take(pl as int) =~= p@);
                assert(t.skip(pl as int) =~= s@.skip(i + pl));
                let mut q: usize = 0;
                while q < rep.len()
                    invariant
                        q <= rep@.len(),
                        out@ == o + rep@.take(q as int),
                    decreases rep.len() - q,
                {
                    out.push(rep[q]);
                    q = q + 1;
                }
                assert(rep@.take(rep@.len() as int) =~= rep@);
                i = i + pl;
            } else {
                assert(t.take(pl as int) != p@) by {
                    let m = choose|m: int| 0 <= m < pl && s@[i + m] != p@[m];
                    assert(t.take(pl as int)[m] == s@[i + m]);
                }
                assert(t.skip(1) =~= s@.skip(i + 1));
                out.push(s[i]);
                assert(out@ =~= o + seq![t[0]]);
                i = i + 1;
            }
        }
    }
    assert(s@.skip(i as int) =~= Seq::<char>::empty());
    string_of(out.as_slice())
}

} // verus!
