//! Helpers for parsing basis set files: splitting lines into numbers,
//! matrices and blocks.
//!
//! Numbers are whitespace-separated tokens. A floating-point token may write
//! its exponent with `d` or `D` (as Fortran does), which is read as `e`; it
//! is then a decimal numeral (see [`crate::numeral`]).
use crate::error::BseError;
use crate::misc::{all_numerals, transpose_matrix, transpose_spec, rows_cover};
use crate::numeral::{epos_from, is_e, sign_len};
use crate::lut::{lower_ascii, to_lower_ascii};
use crate::text::{chars_of, string_of, ws_tokens, split_ws, trim_spec, trim_chars, parse_i32_spec, is_digit, all_digits, alphabetic, is_alphabetic};
use crate::compose::{split_char, split_at_char, has_key, key_index, count_key_lt, empty_element, lemma_count_key_split};
use crate::fields::{BseBasisElement, BseBasisMinimal, BseMolssiBseSchema, BseElectronShell, BseEcpPotential, ElementV, ShellV, PotentialV, elements_view, keys_increasing};
use crate::compose::{shell_types, whole_basis_types};
use crate::text::sort_distinct_strs;
use vstd::prelude::*;

verus! {

/* #region tokens */

/// A text with `d` and `D` replaced by `e`.
pub open spec fn replace_d_spec(s: Seq<char>) -> Seq<char> {
    Seq::new(s.len(), |i: int| if s[i] == 'd' || s[i] == 'D' { 'e' } else { s[i] })
}

/// Number of decimal points in a text.
pub open spec fn count_dots(m: Seq<char>) -> nat
    decreases m.len(),
{
    if m.len() == 0 {
        0
    } else {
        count_dots(m.drop_last()) + if m.last() == '.' {
            1nat
        } else {
            0nat
        }
    }
}

/// Number of decimal digits in a text.
pub open spec fn count_digits(m: Seq<char>) -> nat
    decreases m.len(),
{
    if m.len() == 0 {
        0
    } else {
        count_digits(m.drop_last()) + if is_digit(m.last()) {
            1nat
        } else {
            0nat
        }
    }
}

/// The mantissa of a decimal floating-point literal: digits with at most one
/// decimal point, at least one digit.
pub open spec fn f64_mantissa(m: Seq<char>) -> bool {
    &&& forall|i: int| 0 <= i < m.len() ==> is_digit(#[trigger] m[i]) || m[i] == '.'
    &&& count_dots(m) <= 1
    &&& count_digits(m) >= 1
}

/// The exponent of a decimal floating-point literal (after `e`): an optional
/// sign, then at least one digit.
pub open spec fn f64_exponent(x: Seq<char>) -> bool {
    let d = x.skip(sign_len(x));
    d.len() >= 1 && all_digits(d)
}

/// `inf`, `infinity` or `nan`, in any case.
pub open spec fn f64_special(b: Seq<char>) -> bool {
    let l = b.map_values(|c: char| lower_ascii(c));
    l == "inf"@ || l == "infinity"@ || l == "nan"@
}

/// The text of a 64-bit float as `str::parse::<f64>` accepts it (its
/// documented grammar): an optional sign, then `inf`, `infinity` or `nan`
/// in any case, or a mantissa with an optional exponent part after `e` or
/// `E`.
pub open spec fn f64_syntax(s: Seq<char>) -> bool {
    let b = s.skip(sign_len(s));
    let e = epos_from(b, 0);
    ||| f64_special(b)
    ||| f64_mantissa(b.take(e)) && (e < b.len() ==> f64_exponent(b.skip(e + 1)))
}

/// A token that is a floating-point number once `d` and `D` are read as
/// `e`.
pub open spec fn is_floating_spec(s: Seq<char>) -> bool {
    f64_syntax(replace_d_spec(s))
}

proof fn lemma_epos_from(b: Seq<char>, i: int, k: int)
    requires
        0 <= i <= k <= b.len(),
        forall|j: int| i <= j < k ==> !is_e(#[trigger] b[j]),
        k == b.len() || is_e(b[k]),
    ensures
        epos_from(b, i) == k,
    decreases k - i,
{
    if i < k {
        lemma_epos_from(b, i + 1, k);
    }
}

fn mantissa_ok(b: &[char], e: usize) -> (r: bool)
    requires
        e <= b@.len(),
    ensures
        r == f64_mantissa(b@.take(e as int)),
{
    let mut dots: usize = 0;
    let mut digits: usize = 0;
    let mut i: usize = 0;
    while i < e
        invariant
            i <= e <= b@.len(),
            dots as int == count_dots(b@.take(i as int)),
            digits as int == count_digits(b@.take(i as int)),
            dots <= i && digits <= i,
            forall|j: int| 0 <= j < i ==> is_digit(#[trigger] b@[j]) || b@[j] == '.',
        decreases e - i,
    {
        assert(b@.take(i + 1).drop_last() =~= b@.take(i as int));
        let c = b[i];
        if '0' <= c && c <= '9' {
            digits = digits + 1;
        } else if c == '.' {
            dots = dots + 1;
        } else {
            assert(b@.take(e as int)[i as int] == c);
            return false;
        }
        i = i + 1;
    }
    assert(b@.take(e as int) =~= b@.take(i as int));
    dots <= 1 && digits >= 1
}

fn special_ok(b: &[char]) -> (r: bool)
    ensures
        r == f64_special(b@),
{
    let mut lower: Vec<char> = Vec::new();
    let mut j: usize = 0;
    while j < b.len()
        invariant
            j <= b@.len(),
            lower@ == b@.take(j as int).map_values(|c: char| lower_ascii(c)),
        decreases b.len() - j,
    {
        lower.push(to_lower_ascii(b[j]));
        assert(lower@ =~= b@.take(j + 1).map_values(|c: char| lower_ascii(c)));
        j = j + 1;
    }
    assert(b@.take(b@.len() as int) =~= b@);
    let inf = chars_of("inf");
    let infinity = chars_of("infinity");
    let nan = chars_of("nan");
    crate::text::chars_eq(lower.as_slice(), inf.as_slice()) || crate::text::chars_eq(lower.as_slice(), infinity.as_slice())
        || crate::text::chars_eq(lower.as_slice(), nan.as_slice())
}

fn exponent_ok(b: &[char], e: usize) -> (r: bool)
    requires
        e < b@.len(),
    ensures
        r == f64_exponent(b@.skip(e + 1)),
{
    let ghost x = b@.skip(e + 1);
    let n = b.len();
    let mut k: usize = e + 1;
    if k < b.len() && (b[k] == '+' || b[k] == '-') {
        k = k + 1;
    }
    assert(x.skip(sign_len(x)) =~= b@.skip(k as int));
    if k >= b.len() {
        return false;
    }
    let mut m: usize = k;
    while m < b.len()
        invariant
            k <= m <= b@.len(),
            x == b@.skip(e + 1),
            x.skip(sign_len(x)) == b@.skip(k as int),
            forall|j: int| k <= j < m ==> is_digit(#[trigger] b@[j]),
        decreases b.len() - m,
    {
        if !('0' <= b[m] && b[m] <= '9') {
            assert(b@.skip(k as int)[m - k] == b@[m as int]);
            assert(!is_digit(b@.skip(k as int)[m - k]));
            return false;
        }
        m = m + 1;
    }
    assert forall|j: int| 0 <= j < b@.skip(k as int).len() implies is_digit(#[trigger] b@.skip(k as int)[j]) by {
        assert(b@.skip(k as int)[j] == b@[k + j]);
    }
    true
}

/// Whether a text is a 64-bit float as `str::parse::<f64>` accepts it.
pub fn parses_as_f64(s: &str) -> (r: bool)
    ensures
        r == f64_syntax(s@),
{
    let v = chars_of(s);
    let sl: usize = if v.len() > 0 && (v[0] == '+' || v[0] == '-') { 1 } else { 0 };
    let mut b: Vec<char> = Vec::new();
    let mut i: usize = sl;
    while i < v.len()
        invariant
            sl <= i <= v@.len(),
            b@ == v@.subrange(sl as int, i as int),
        decreases v.len() - i,
    {
        b.push(v[i]);
        i = i + 1;
    }
    assert(b@ =~= s@.skip(sign_len(s@)));
    if special_ok(b.as_slice()) {
        return true;
    }
    let mut e: usize = 0;
    while e < b.len() && !(b[e] == 'e' || b[e] == 'E')
        invariant
            e <= b@.len(),
            forall|k: int| 0 <= k < e ==> !is_e(#[trigger] b@[k]),
        decreases b.len() - e,
    {
        e = e + 1;
    }
    proof {
        lemma_epos_from(b@, 0, e as int);
    }
    if !mantissa_ok(b.as_slice(), e) {
        return false;
    }
    if e == b.len() {
        return true;
    }
    exponent_ok(b.as_slice(), e)
}

/// A token that is a 32-bit integer.
pub open spec fn is_integer_spec(s: Seq<char>) -> bool {
    parse_i32_spec(s) is Some
}

/// Every token is a floating-point number.
pub open spec fn all_floating(v: Seq<Seq<char>>) -> bool {
    forall|i: int| 0 <= i < v.len() ==> is_floating_spec(#[trigger] v[i])
}

/// Every token is an integer.
pub open spec fn all_integer(v: Seq<Seq<char>>) -> bool {
    forall|i: int| 0 <= i < v.len() ==> is_integer_spec(#[trigger] v[i])
}

/// The number tokens of a line: its whitespace-separated tokens after `d`
/// and `D` are read as `e`.
pub open spec fn float_tokens(line: Seq<char>) -> Seq<Seq<char>> {
    ws_tokens(replace_d_spec(line))
}

/// Replace `d` or `D` with `e`, for Fortran-style exponents.
pub fn replace_d(s: &str) -> (r: String)
    ensures
        r@ == replace_d_spec(s@),
{
    let v = chars_of(s);
    let mut out: Vec<char> = Vec::new();
    let mut i: usize = 0;
    while i < v.len()
        invariant
            i <= v@.len(),
            v@ == s@,
            out@ =~= replace_d_spec(s@).take(i as int),
        decreases v.len() - i,
    {
        let c = v[i];
        if c == 'd' || c == 'D' {
            out.push('e');
        } else {
            out.push(c);
        }
        i = i + 1;
    }
    string_of(out.as_slice())
}

/// Whether a token is a floating-point number.
pub fn is_floating(s: &str) -> (r: bool)
    ensures
        r == is_floating_spec(s@),
{
    let t = replace_d(s);
    parses_as_f64(t.as_str())
}

/// Whether a token is a 32-bit integer.
pub fn is_integer(s: &str) -> (r: bool)
    ensures
        r == is_integer_spec(s@),
{
    let v = chars_of(s);
    crate::text::parse_i32(v.as_slice()).is_some()
}

/// The number tokens of a line.
fn floats_of(line: &str) -> (r: Vec<String>)
    ensures
        r.deep_view() == float_tokens(line@),
{
    let t = replace_d(line);
    split_ws(t.as_str())
}

/// Whether every token of a list is a floating-point number.
fn check_floating(v: &Vec<String>) -> (r: bool)
    ensures
        r == all_floating(v.deep_view()),
{
    let mut k: usize = 0;
    while k < v.len()
        invariant
            k <= v@.len(),
            forall|i: int| 0 <= i < k ==> is_floating_spec(#[trigger] v.deep_view()[i]),
        decreases v.len() - k,
    {
        assert(v.deep_view()[k as int] == v@[k as int]@);
        if !is_floating(v[k].as_str()) {
            return false;
        }
        k = k + 1;
    }
    true
}

/// Whether every token of a list is an integer.
fn check_integer(v: &Vec<String>) -> (r: bool)
    ensures
        r == all_integer(v.deep_view()),
{
    let mut k: usize = 0;
    while k < v.len()
        invariant
            k <= v@.len(),
            forall|i: int| 0 <= i < k ==> is_integer_spec(#[trigger] v.deep_view()[i]),
        decreases v.len() - k,
    {
        assert(v.deep_view()[k as int] == v@[k as int]@);
        if !is_integer(v[k].as_str()) {
            return false;
        }
        k = k + 1;
    }
    true
}

/// Append a list of strings to another, moving them.
fn append_all(r: &mut Vec<String>, v: Vec<String>)
    ensures
        final(r).deep_view() == old(r).deep_view() + v.deep_view(),
{
    let ghost start = r.deep_view();
    let ghost vv = v.deep_view();
    let n0 = v.len();
    assert(vv.len() == n0);
    let mut v = v;
    let mut k: usize = 0;
    while v.len() > 0
        invariant
            k <= vv.len(),
            vv.len() <= usize::MAX,
            v.deep_view() == vv.skip(k as int),
            r.deep_view() == start + vv.take(k as int),
        decreases v.len(),
    {
        let ghost before = r.deep_view();
        let ghost old_v = v.deep_view();
        assert(old_v.len() == v@.len());
        assert(k < vv.len());
        let x = v.remove(0);
        assert(x@ == old_v[0]);
        assert(v.deep_view() =~= old_v.subrange(1, old_v.len() as int));
        r.push(x);
        assert(r.deep_view() =~= before.push(vv[k as int]));
        k = k + 1;
        assert(r.deep_view() =~= start + vv.take(k as int));
        assert(v.deep_view() =~= vv.skip(k as int));
    }
    assert(vv.take(k as int) =~= vv);
}

/// A copy of lines `from` onwards.
pub(crate) fn lines_from(lines: &[String], from: usize) -> (r: Vec<String>)
    requires
        from <= lines@.len(),
    ensures
        r.deep_view() == lines.deep_view().skip(from as int),
{
    let mut r: Vec<String> = Vec::new();
    let mut k: usize = from;
    while k < lines.len()
        invariant
            from <= k <= lines@.len(),
            r.deep_view() == lines.deep_view().subrange(from as int, k as int),
        decreases lines.len() - k,
    {
        let ghost before = r.deep_view();
        r.push(lines[k].clone());
        assert(r.deep_view() =~= before.push(lines.deep_view()[k as int]));
        assert(r.deep_view() =~= lines.deep_view().subrange(from as int, k + 1));
        k = k + 1;
    }
    r
}

fn bad_value(msg: &str) -> (e: BseError)
    ensures
        e is ValueError,
{
    BseError::ValueError(msg.to_owned())
}

/* #endregion */

/* #region numbers spanning lines */

/// Gathering number tokens line by line from line `used` until there are at
/// least `n`: the tokens and the number of lines read, or `None` when the
/// lines run out or a blank line comes first. With `floats`, tokens are read
/// as [`float_tokens`] and blank lines are errors; otherwise tokens are the
/// whitespace-separated ones and blank lines read nothing.
pub open spec fn gather(lines: Seq<Seq<char>>, n: nat, used: int, found: Seq<Seq<char>>, floats: bool) -> Option<(Seq<Seq<char>>, int)>
    decreases lines.len() - used,
{
    if found.len() >= n {
        Some((found, used))
    } else if used < 0 || used >= lines.len() {
        None
    } else if floats && trim_spec(lines[used]).len() == 0 {
        None
    } else {
        let toks = if floats {
            float_tokens(lines[used])
        } else {
            ws_tokens(trim_spec(lines[used]))
        };
        gather(lines, n, used + 1, found + toks, floats)
    }
}

/// Reading `n` numbers over lines: the numbers and the lines left, when the
/// lines hold them, not more on the last line read, and all of the right
/// kind.
pub open spec fn read_n_spec(lines: Seq<Seq<char>>, n: nat, floats: bool) -> Option<(Seq<Seq<char>>, Seq<Seq<char>>)> {
    match gather(lines, n, 0, Seq::empty(), floats) {
        None => None,
        Some((f, u)) => if f.len() > n || (floats && !all_floating(f)) || (!floats && !all_integer(f)) {
            None
        } else {
            Some((f, lines.skip(u)))
        },
    }
}

proof fn lemma_gather_used(lines: Seq<Seq<char>>, n: nat, used: int, found: Seq<Seq<char>>, floats: bool)
    requires
        0 <= used <= lines.len(),
    ensures
        gather(lines, n, used, found, floats) matches Some((f, u)) ==> used <= u <= lines.len(),
    decreases lines.len() - used,
{
    if found.len() >= n {
    } else if used >= lines.len() {
    } else if floats && trim_spec(lines[used]).len() == 0 {
    } else {
        let toks = if floats {
            float_tokens(lines[used])
        } else {
            ws_tokens(trim_spec(lines[used]))
        };
        lemma_gather_used(lines, n, used + 1, found + toks, floats);
    }
}

fn read_n(lines: &[String], n: usize, floats: bool) -> (r: Result<(Vec<String>, Vec<String>), BseError>)
    ensures
        match read_n_spec(lines.deep_view(), n as nat, floats) {
            Some((f, rest)) => r matches Ok((a, b)) && a.deep_view() == f && b.deep_view() == rest,
            None => r matches Err(e) && e is ValueError,
        },
{
    let ghost lv = lines.deep_view();
    let mut found: Vec<String> = Vec::new();
    let mut used: usize = 0;
    while found.len() < n
        invariant
            used <= lines@.len(),
            lv == lines.deep_view(),
            gather(lv, n as nat, 0, Seq::empty(), floats) == gather(lv, n as nat, used as int, found.deep_view(), floats),
        decreases lines.len() - used,
    {
        if used >= lines.len() {
            return Err(bad_value("Ran out of lines while reading numbers"));
        }
        assert(lv[used as int] == lines@[used as int]@);
        let line = lines[used].as_str();
        let toks = if floats {
            let tv = chars_of(line);
            let t = crate::text::trim_chars(tv.as_slice());
            if t.len() == 0 {
                return Err(bad_value("Found an empty line while reading numbers"));
            }
            floats_of(line)
        } else {
            let tv = chars_of(line);
            let t = crate::text::trim_chars(tv.as_slice());
            let ts = string_of(t.as_slice());
            split_ws(ts.as_str())
        };
        append_all(&mut found, toks);
        used = used + 1;
    }
    if found.len() > n {
        return Err(bad_value("Found extra numbers"));
    }
    if floats {
        if !check_floating(&found) {
            return Err(bad_value("Non-floating-point value found in numbers"));
        }
    } else {
        if !check_integer(&found) {
            return Err(bad_value("Non-integer value found in numbers"));
        }
    }
    let rest = lines_from(lines, used);
    Ok((found, rest))
}

/// Read `n_numbers` whitespace-separated floating-point numbers, which may
/// span lines: the numbers (as text, exponents with `e`) and the lines left.
/// A `ValueError` when the lines run out, a blank line comes first, the last
/// line read holds more numbers than wanted, or a token is not a number.
pub fn read_n_floats(lines: &[String], n_numbers: usize) -> (r: Result<(Vec<String>, Vec<String>), BseError>)
    ensures
        match read_n_spec(lines.deep_view(), n_numbers as nat, true) {
            Some((f, rest)) => r matches Ok((a, b)) && a.deep_view() == f && b.deep_view() == rest,
            None => r matches Err(e) && e is ValueError,
        },
{
    read_n(lines, n_numbers, true)
}

/// Read `n_ints` whitespace-separated integers, which may span lines: the
/// integers (as text) and the lines left. A `ValueError` when the lines run
/// out, the last line read holds more numbers than wanted, or a token is not
/// an integer.
pub fn read_n_integers(lines: &[String], n_ints: usize) -> (r: Result<(Vec<String>, Vec<String>), BseError>)
    ensures
        match read_n_spec(lines.deep_view(), n_ints as nat, false) {
            Some((f, rest)) => r matches Ok((a, b)) && a.deep_view() == f && b.deep_view() == rest,
            None => r matches Err(e) && e is ValueError,
        },
{
    read_n(lines, n_ints, false)
}

/// The number tokens of all lines, in order.
pub open spec fn all_float_tokens(lines: Seq<Seq<char>>) -> Seq<Seq<char>>
    decreases lines.len(),
{
    if lines.len() == 0 {
        Seq::empty()
    } else {
        all_float_tokens(lines.drop_last()) + float_tokens(lines.last())
    }
}

/// Read all floating-point numbers of all lines; a `ValueError` when a
/// token is not a number.
pub fn read_all_floats(lines: &[String]) -> (r: Result<Vec<String>, BseError>)
    ensures
        if all_floating(all_float_tokens(lines.deep_view())) {
            r matches Ok(v) && v.deep_view() == all_float_tokens(lines.deep_view())
        } else {
            r matches Err(e) && e is ValueError
        },
{
    let ghost lv = lines.deep_view();
    let mut found: Vec<String> = Vec::new();
    let mut k: usize = 0;
    while k < lines.len()
        invariant
            k <= lines@.len(),
            lv == lines.deep_view(),
            found.deep_view() == all_float_tokens(lv.take(k as int)),
        decreases lines.len() - k,
    {
        assert(lv.take(k + 1).drop_last() =~= lv.take(k as int));
        assert(lv[k as int] == lines@[k as int]@);
        let toks = floats_of(lines[k].as_str());
        append_all(&mut found, toks);
        k = k + 1;
    }
    assert(lv.take(lines.len() as int) =~= lv);
    if !check_floating(&found) {
        return Err(bad_value("Non-floating-point value found in numbers"));
    }
    Ok(found)
}

/// Reading a matrix of `rows` rows of `cols` numbers each, every row read
/// as by [`read_n_floats`] from the lines the previous one left.
pub open spec fn fixed_matrix_spec(lines: Seq<Seq<char>>, rows: nat, cols: nat) -> Option<(Seq<Seq<Seq<char>>>, Seq<Seq<char>>)>
    decreases rows,
{
    if rows == 0 {
        Some((Seq::empty(), lines))
    } else {
        match fixed_matrix_spec(lines, (rows - 1) as nat, cols) {
            None => None,
            Some((mat, rest)) => match read_n_spec(rest, cols, true) {
                None => None,
                Some((row, rest2)) => Some((mat.push(row), rest2)),
            },
        }
    }
}

/// Parse a matrix with a given number of rows and columns; rows may span
/// lines. The matrix and the lines left, or a `ValueError`.
pub fn parse_fixed_matrix(lines: &[String], rows: usize, cols: usize) -> (r: Result<(Vec<Vec<String>>, Vec<String>), BseError>)
    ensures
        match fixed_matrix_spec(lines.deep_view(), rows as nat, cols as nat) {
            Some((m, rest)) => r matches Ok((a, b)) && a.deep_view() == m && b.deep_view() == rest,
            None => r matches Err(e) && e is ValueError,
        },
{
    let mut matrix: Vec<Vec<String>> = Vec::new();
    let mut remaining = lines_from(lines, 0);
    assert(lines.deep_view().skip(0) =~= lines.deep_view());
    let mut k: usize = 0;
    while k < rows
        invariant
            k <= rows,
            fixed_matrix_spec(lines.deep_view(), k as nat, cols as nat) == Some((matrix.deep_view(), remaining.deep_view())),
        decreases rows - k,
    {
        match read_n(remaining.as_slice(), cols, true) {
            Ok((row, rest)) => {
                let ghost before = matrix.deep_view();
                let ghost rv = row.deep_view();
                matrix.push(row);
                assert(matrix.deep_view() =~= before.push(rv));
                remaining = rest;
            },
            Err(e) => {
                proof {
                    assert(fixed_matrix_spec(lines.deep_view(), (k + 1) as nat, cols as nat) is None);
                    lemma_fixed_matrix_none(lines.deep_view(), (k + 1) as nat, rows as nat, cols as nat);
                }
                return Err(e);
            },
        }
        k = k + 1;
    }
    Ok((matrix, remaining))
}

proof fn lemma_fixed_matrix_none(lines: Seq<Seq<char>>, k: nat, rows: nat, cols: nat)
    requires
        k <= rows,
        fixed_matrix_spec(lines, k, cols) is None,
    ensures
        fixed_matrix_spec(lines, rows, cols) is None,
    decreases rows - k,
{
    if k < rows {
        lemma_fixed_matrix_none(lines, k + 1, rows, cols);
    }
}

/* #endregion */

/* #region matrices */

/// The nonempty rows of number tokens of the lines.
pub open spec fn token_rows(lines: Seq<Seq<char>>) -> Seq<Seq<Seq<char>>>
    decreases lines.len(),
{
    if lines.len() == 0 {
        Seq::empty()
    } else if float_tokens(lines.last()).len() == 0 {
        token_rows(lines.drop_last())
    } else {
        token_rows(lines.drop_last()).push(float_tokens(lines.last()))
    }
}

/// Every row has exactly `n` entries.
pub open spec fn rows_len(m: Seq<Seq<Seq<char>>>, n: int) -> bool {
    forall|i: int| 0 <= i < m.len() ==> (#[trigger] m[i]).len() == n
}

/// Every entry of every row is a floating-point number.
pub open spec fn rows_floating(m: Seq<Seq<Seq<char>>>) -> bool {
    forall|i: int| 0 <= i < m.len() ==> all_floating(#[trigger] m[i])
}

/// Parsing a matrix of numbers, one row per nonempty line: the rows, when
/// every token is a number, there is a row, all rows have as many entries
/// as the first, and the given numbers of rows and columns, if any, agree.
pub open spec fn matrix_spec(lines: Seq<Seq<char>>, rows: Option<usize>, cols: Option<usize>) -> Option<Seq<Seq<Seq<char>>>> {
    let m = token_rows(lines);
    if !rows_floating(m) || m.len() == 0 || !rows_len(m, m[0].len() as int) {
        None
    } else if rows matches Some(nr) && m.len() != nr {
        None
    } else if cols matches Some(nc) && m[0].len() != nc {
        None
    } else {
        Some(m)
    }
}

/// The nonempty rows of number tokens of the lines.
fn rows_of(lines: &[String]) -> (r: Vec<Vec<String>>)
    ensures
        r.deep_view() == token_rows(lines.deep_view()),
{
    let ghost lv = lines.deep_view();
    let mut r: Vec<Vec<String>> = Vec::new();
    let mut k: usize = 0;
    while k < lines.len()
        invariant
            k <= lines@.len(),
            lv == lines.deep_view(),
            r.deep_view() == token_rows(lv.take(k as int)),
        decreases lines.len() - k,
    {
        assert(lv.take(k + 1).drop_last() =~= lv.take(k as int));
        assert(lv[k as int] == lines@[k as int]@);
        let row = floats_of(lines[k].as_str());
        if row.len() > 0 {
            let ghost before = r.deep_view();
            let ghost rv = row.deep_view();
            r.push(row);
            assert(r.deep_view() =~= before.push(rv));
        }
        k = k + 1;
    }
    assert(lv.take(lines.len() as int) =~= lv);
    r
}

/// Parse a matrix of numbers, one row per nonempty line. A `ValueError`
/// when a token is not a number, there is no row, the rows differ in
/// length, or the given numbers of rows or columns disagree.
pub fn parse_matrix(lines: &[String], rows: Option<usize>, cols: Option<usize>) -> (r: Result<Vec<Vec<String>>, BseError>)
    ensures
        match matrix_spec(lines.deep_view(), rows, cols) {
            Some(m) => r matches Ok(v) && v.deep_view() == m,
            None => r matches Err(e) && e is ValueError,
        },
{
    let m = rows_of(lines);
    let ghost mv = m.deep_view();
    let mut k: usize = 0;
    while k < m.len()
        invariant
            k <= m@.len(),
            mv == m.deep_view(),
            mv == token_rows(lines.deep_view()),
            forall|i: int| 0 <= i < k ==> all_floating(#[trigger] mv[i]),
        decreases m.len() - k,
    {
        assert(mv[k as int] == m@[k as int].deep_view());
        if !check_floating(&m[k]) {
            assert(!rows_floating(mv));
            return Err(bad_value("Non-floating-point value found in matrix"));
        }
        k = k + 1;
    }
    if m.len() == 0 {
        return Err(bad_value("Empty matrix"));
    }
    let first = m[0].len();
    assert(mv[0].len() == first);
    k = 0;
    while k < m.len()
        invariant
            k <= m@.len(),
            mv == m.deep_view(),
            m@.len() > 0,
            first == mv[0].len(),
            mv == token_rows(lines.deep_view()),
            rows_floating(mv),
            forall|i: int| 0 <= i < k ==> (#[trigger] mv[i]).len() == first,
        decreases m.len() - k,
    {
        assert(mv[k as int].len() == m@[k as int]@.len());
        if m[k].len() != first {
            assert(!rows_len(mv, mv[0].len() as int));
            return Err(bad_value("Inconsistent number of columns"));
        }
        k = k + 1;
    }
    if let Some(nr) = rows {
        if m.len() != nr {
            return Err(bad_value("Inconsistent number of rows"));
        }
    }
    if let Some(nc) = cols {
        if first != nc {
            return Err(bad_value("Inconsistent number of columns"));
        }
    }
    Ok(m)
}

/// The exponents (first entries) of the rows.
pub open spec fn first_entries(m: Seq<Seq<Seq<char>>>) -> Seq<Seq<char>> {
    m.map_values(|row: Seq<Seq<char>>| row[0])
}

/// The coefficients (entries after the first) of the rows.
pub open spec fn rest_entries(m: Seq<Seq<Seq<char>>>) -> Seq<Seq<Seq<char>>> {
    m.map_values(|row: Seq<Seq<char>>| row.drop_first())
}

/// Parsing a table of exponents and coefficients, one primitive per
/// nonempty line (its exponent, then a coefficient for each contraction):
/// the exponents and the contractions (one list of coefficients each), when
/// every token is a number, there is a line, each line has coefficients,
/// as many as the first, and the given numbers of primitives and
/// contractions, if any, agree.
pub open spec fn primitive_matrix_spec(lines: Seq<Seq<char>>, nprim: Option<usize>, ngen: Option<usize>) -> Option<(Seq<Seq<char>>, Seq<Seq<Seq<char>>>)> {
    let m = token_rows(lines);
    let c = rest_entries(m);
    if !rows_floating(m) || m.len() == 0 || c[0].len() == 0 || !rows_len(c, c[0].len() as int) {
        None
    } else if nprim matches Some(n) && m.len() != n {
        None
    } else if ngen matches Some(g) && c[0].len() != g {
        None
    } else {
        Some((first_entries(m), transpose_spec(c)))
    }
}

proof fn lemma_token_rows_nonempty(lines: Seq<Seq<char>>)
    ensures
        forall|i: int| 0 <= i < token_rows(lines).len() ==> (#[trigger] token_rows(lines)[i]).len() > 0,
    decreases lines.len(),
{
    if lines.len() > 0 {
        lemma_token_rows_nonempty(lines.drop_last());
        let p = token_rows(lines.drop_last());
        if float_tokens(lines.last()).len() != 0 {
            assert forall|i: int| 0 <= i < token_rows(lines).len() implies (#[trigger] token_rows(lines)[i]).len() > 0 by {
                if i < p.len() {
                    assert(token_rows(lines)[i] == p[i]);
                }
            }
        }
    }
}

/// Parse a table of exponents and coefficients: the first number of each
/// nonempty line is an exponent, the others its coefficients, one per
/// contraction. The exponents and the contractions, or a `ValueError` when
/// a token is not a number, there is no line, a line has no coefficients or
/// not as many as the first, or the given numbers of primitives or
/// contractions disagree.
pub fn parse_primitive_matrix(lines: &[String], nprim: Option<usize>, ngen: Option<usize>) -> (r: Result<(Vec<String>, Vec<Vec<String>>), BseError>)
    ensures
        match primitive_matrix_spec(lines.deep_view(), nprim, ngen) {
            Some((e, c)) => r matches Ok((a, b)) && a.deep_view() == e && b.deep_view() == c,
            None => r matches Err(err) && err is ValueError,
        },
{
    let m = rows_of(lines);
    let ghost mv = m.deep_view();
    proof {
        lemma_token_rows_nonempty(lines.deep_view());
    }
    let mut exps: Vec<String> = Vec::new();
    let mut coefs: Vec<Vec<String>> = Vec::new();
    let mut k: usize = 0;
    while k < m.len()
        invariant
            k <= m@.len(),
            mv == m.deep_view(),
            mv == token_rows(lines.deep_view()),
            forall|i: int| 0 <= i < mv.len() ==> (#[trigger] mv[i]).len() > 0,
            forall|i: int| 0 <= i < k ==> all_floating(#[trigger] mv[i]),
            exps.deep_view() == first_entries(mv.take(k as int)),
            coefs.deep_view() == rest_entries(mv.take(k as int)),
        decreases m.len() - k,
    {
        let row = &m[k];
        assert(mv[k as int] == row.deep_view());
        if !check_floating(row) {
            assert(!rows_floating(mv));
            return Err(bad_value("Non-floating-point value found in the table"));
        }
        let ghost be = exps.deep_view();
        let ghost bc = coefs.deep_view();
        exps.push(row[0].clone());
        let mut c: Vec<String> = Vec::new();
        let mut j: usize = 1;
        while j < row.len()
            invariant
                1 <= j <= row@.len(),
                c.deep_view() == row.deep_view().subrange(1, j as int),
            decreases row.len() - j,
        {
            let ghost before = c.deep_view();
            c.push(row[j].clone());
            assert(c.deep_view() =~= before.push(row.deep_view()[j as int]));
            assert(c.deep_view() =~= row.deep_view().subrange(1, j + 1));
            j = j + 1;
        }
        let ghost cv = c.deep_view();
        assert(cv =~= mv[k as int].drop_first());
        coefs.push(c);
        assert(exps.deep_view() =~= be.push(mv[k as int][0]));
        assert(coefs.deep_view() =~= bc.push(mv[k as int].drop_first()));
        assert(exps.deep_view() =~= first_entries(mv.take(k + 1)));
        assert(coefs.deep_view() =~= rest_entries(mv.take(k + 1)));
        k = k + 1;
    }
    assert(mv.take(m.len() as int) =~= mv);
    assert(coefs.deep_view() == rest_entries(mv));
    assert(exps.deep_view() == first_entries(mv));
    if coefs.len() == 0 {
        return Err(bad_value("No exponents found"));
    }
    let first = coefs[0].len();
    let ghost cv = coefs.deep_view();
    assert(cv == rest_entries(mv));
    assert(cv[0].len() == first);
    if first == 0 {
        return Err(bad_value("Missing contraction coefficients"));
    }
    k = 0;
    while k < coefs.len()
        invariant
            k <= coefs@.len(),
            cv == coefs.deep_view(),
            coefs@.len() > 0,
            first == cv[0].len(),
            forall|i: int| 0 <= i < k ==> (#[trigger] cv[i]).len() == first,
            cv == rest_entries(mv),
            mv == token_rows(lines.deep_view()),
        decreases coefs.len() - k,
    {
        assert(cv[k as int].len() == coefs@[k as int]@.len());
        if coefs[k].len() != first {
            assert(!rows_len(cv, cv[0].len() as int));
            return Err(bad_value("Inconsistent number of coefficients"));
        }
        k = k + 1;
    }
    if let Some(n) = nprim {
        if exps.len() != n {
            return Err(bad_value("Inconsistent number of primitives"));
        }
    }
    if let Some(g) = ngen {
        if first != g {
            return Err(bad_value("Inconsistent number of general contractions"));
        }
    }
    assert(rows_cover(cv, cv[0].len() as int));
    let t = transpose_matrix(coefs.as_slice());
    Ok((exps, t))
}

/// The parsed columns of an ECP table.
pub struct ReaderECP {
    /// Powers of r.
    pub r_exp: Vec<i32>,
    /// Gaussian exponents.
    pub g_exp: Vec<String>,
    /// Coefficients: a single contraction.
    pub coeff: Vec<Vec<String>>,
}

/// The position of column `name` in the column order.
pub open spec fn column_of(order: Seq<Seq<char>>, name: Seq<char>) -> int {
    choose|i: int| 0 <= i < order.len() && order[i] == name
}

/// The order names the three columns `r_exp`, `g_exp` and `coeff`.
pub open spec fn order_ok(order: Seq<Seq<char>>) -> bool {
    order.len() == 3 && order.contains("r_exp"@) && order.contains("g_exp"@) && order.contains("coeff"@)
}

/// The entries of column `col` of the rows.
pub open spec fn column(m: Seq<Seq<Seq<char>>>, col: int) -> Seq<Seq<char>> {
    m.map_values(|row: Seq<Seq<char>>| row[col])
}

/// Parsing an ECP table of three columns in the given order, one row per
/// line: the powers of r, the Gaussian exponents and the coefficients, when
/// every line has three numbers, the powers are integers, and the others
/// floating-point numbers.
pub open spec fn ecp_table_spec(lines: Seq<Seq<char>>, order: Seq<Seq<char>>) -> Option<(Seq<i32>, Seq<Seq<char>>, Seq<Seq<char>>)> {
    let m = lines.map_values(|l: Seq<char>| float_tokens(l));
    let r = column(m, column_of(order, "r_exp"@));
    let g = column(m, column_of(order, "g_exp"@));
    let c = column(m, column_of(order, "coeff"@));
    if !rows_len(m, 3) || !all_integer(r) || !all_floating(g) || !all_floating(c) {
        None
    } else {
        Some((r.map_values(|x: Seq<char>| parse_i32_spec(x)->0), g, c))
    }
}

proof fn lemma_column_of(ov: Seq<Seq<char>>, i: int, name: Seq<char>)
    requires
        order_ok(ov),
        name == "r_exp"@ || name == "g_exp"@ || name == "coeff"@,
        0 <= i < 3,
        ov[i] == name,
    ensures
        column_of(ov, name) == i,
{
    reveal_strlit("r_exp");
    reveal_strlit("g_exp");
    reveal_strlit("coeff");
    let c = column_of(ov, name);
    assert(0 <= c < 3 && ov[c] == name);
    let a = choose|t: int| 0 <= t < 3 && ov[t] == "r_exp"@;
    let b = choose|t: int| 0 <= t < 3 && ov[t] == "g_exp"@;
    let d = choose|t: int| 0 <= t < 3 && ov[t] == "coeff"@;
    assert(ov[a] == "r_exp"@);
    assert(ov[b] == "g_exp"@);
    assert(ov[d] == "coeff"@);
    assert("r_exp"@[0] != "g_exp"@[0]);
    assert("r_exp"@[0] != "coeff"@[0]);
    assert("g_exp"@[0] != "coeff"@[0]);
    assert(a != b && b != d && a != d);
}

fn find_column(order: &[&str], name: &str) -> (r: usize)
    requires
        order@.len() == 3,
        crate::formats::strs_view(order@).contains(name@),
    ensures
        r < 3,
        order@[r as int]@ == name@,
{
    let nc = chars_of(name);
    let mut k: usize = 0;
    while k < 3
        invariant
            k <= 3,
            order@.len() == 3,
            nc@ == name@,
            crate::formats::strs_view(order@).contains(name@),
            forall|t: int| 0 <= t < k ==> order@[t]@ != name@,
        decreases 3 - k,
    {
        let c = chars_of(order[k]);
        if crate::text::chars_eq(c.as_slice(), nc.as_slice()) {
            return k;
        }
        k = k + 1;
    }
    proof {
        let t = choose|t: int| 0 <= t < 3 && crate::formats::strs_view(order@)[t] == name@;
        assert(order@[t]@ == name@);
    }
    0
}

/// Parse an ECP table whose three columns come in the given order (of
/// `r_exp`, `g_exp` and `coeff`). A `ValueError` when the order does not
/// have three columns, a line does not have three numbers, a power of r is
/// not an integer, or another entry is not a number.
pub fn parse_ecp_table(lines: &[String], order: &[&str]) -> (r: Result<ReaderECP, BseError>)
    requires
        order@.len() == 3 ==> order_ok(crate::formats::strs_view(order@)),
    ensures
        order@.len() != 3 ==> (r matches Err(e) && e is ValueError),
        order@.len() == 3 ==> match ecp_table_spec(lines.deep_view(), crate::formats::strs_view(order@)) {
            Some((rs, gs, cs)) => r matches Ok(t) && t.r_exp@ == rs && t.g_exp.deep_view() == gs && t.coeff.deep_view() == seq![cs],
            None => r matches Err(e) && e is ValueError,
        },
{
    if order.len() != 3 {
        return Err(bad_value("ECP table requires exactly 3 columns"));
    }
    let ghost ov = crate::formats::strs_view(order@);
    let ir = find_column(order, "r_exp");
    let ig = find_column(order, "g_exp");
    let ic = find_column(order, "coeff");
    let ghost lv = lines.deep_view();
    let ghost m = lv.map_values(|l: Seq<char>| float_tokens(l));
    proof {
        assert(ov[ir as int] == "r_exp"@);
        assert(ov[ig as int] == "g_exp"@);
        assert(ov[ic as int] == "coeff"@);
        lemma_column_of(ov, ir as int, "r_exp"@);
        lemma_column_of(ov, ig as int, "g_exp"@);
        lemma_column_of(ov, ic as int, "coeff"@);
    }
    let mut rs: Vec<String> = Vec::new();
    let mut gs: Vec<String> = Vec::new();
    let mut cs: Vec<String> = Vec::new();
    let mut k: usize = 0;
    while k < lines.len()
        invariant
            k <= lines@.len(),
            lv == lines.deep_view(),
            m == lv.map_values(|l: Seq<char>| float_tokens(l)),
            ir < 3 && ig < 3 && ic < 3,
            forall|i: int| 0 <= i < k ==> (#[trigger] m[i]).len() == 3,
            rs.deep_view() == column(m.take(k as int), ir as int),
            gs.deep_view() == column(m.take(k as int), ig as int),
            cs.deep_view() == column(m.take(k as int), ic as int),
        decreases lines.len() - k,
    {
        assert(lv[k as int] == lines@[k as int]@);
        let parts = floats_of(lines[k].as_str());
        assert(m[k as int] == parts.deep_view());
        if parts.len() != 3 {
            assert(!rows_len(m, 3));
            return Err(bad_value("Expected 3 values in ECP table"));
        }
        assert(m[k as int] == parts.deep_view());
        let ghost br = rs.deep_view();
        let ghost bg = gs.deep_view();
        let ghost bc = cs.deep_view();
        rs.push(parts[ir].clone());
        gs.push(parts[ig].clone());
        cs.push(parts[ic].clone());
        assert(rs.deep_view() =~= br.push(m[k as int][ir as int]));
        assert(gs.deep_view() =~= bg.push(m[k as int][ig as int]));
        assert(cs.deep_view() =~= bc.push(m[k as int][ic as int]));
        assert(rs.deep_view() =~= column(m.take(k + 1), ir as int));
        assert(gs.deep_view() =~= column(m.take(k + 1), ig as int));
        assert(cs.deep_view() =~= column(m.take(k + 1), ic as int));
        k = k + 1;
    }
    assert(m.take(lines.len() as int) =~= m);
    if !check_integer(&rs) {
        return Err(bad_value("Non-integer value found in r exponents"));
    }
    if !check_floating(&gs) {
        return Err(bad_value("Non-floating-point value found in g exponents"));
    }
    if !check_floating(&cs) {
        return Err(bad_value("Non-floating-point value found in coefficients"));
    }
    let ghost rv = rs.deep_view();
    let mut r_exp: Vec<i32> = Vec::new();
    let mut j: usize = 0;
    while j < rs.len()
        invariant
            j <= rs@.len(),
            rv == rs.deep_view(),
            all_integer(rv),
            r_exp@ =~= rv.take(j as int).map_values(|x: Seq<char>| parse_i32_spec(x)->0),
        decreases rs.len() - j,
    {
        let c = chars_of(rs[j].as_str());
        assert(rv[j as int] == rs@[j as int]@);
        assert(is_integer_spec(rv[j as int]));
        match crate::text::parse_i32(c.as_slice()) {
            Some(x) => r_exp.push(x),
            None => r_exp.push(0),
        }
        j = j + 1;
    }
    let ghost cv = cs.deep_view();
    let coeff = vec![cs];
    assert(coeff.deep_view() =~= seq![cv]);
    Ok(ReaderECP { r_exp, g_exp: gs, coeff })
}

/* #endregion */

/* #region lines and blocks */

/// The lines whose first character is not one of `skip` (blank lines
/// stay).
pub open spec fn drop_comments(lines: Seq<Seq<char>>, skip: Seq<char>) -> Seq<Seq<char>>
    decreases lines.len(),
{
    if lines.len() == 0 {
        Seq::empty()
    } else {
        let l = lines.last();
        if l.len() == 0 || !skip.contains(l[0]) {
            drop_comments(lines.drop_last(), skip).push(l)
        } else {
            drop_comments(lines.drop_last(), skip)
        }
    }
}

/// The lines that are not blank.
pub open spec fn drop_blank(lines: Seq<Seq<char>>) -> Seq<Seq<char>>
    decreases lines.len(),
{
    if lines.len() == 0 {
        Seq::empty()
    } else if lines.last().len() == 0 {
        drop_blank(lines.drop_last())
    } else {
        drop_blank(lines.drop_last()).push(lines.last())
    }
}

/// The number of leading blank lines.
pub open spec fn lead_blank(lines: Seq<Seq<char>>) -> nat
    decreases lines.len(),
{
    if lines.len() > 0 && lines[0].len() == 0 {
        1 + lead_blank(lines.drop_first())
    } else {
        0
    }
}

/// The number of trailing blank lines.
pub open spec fn trail_blank(lines: Seq<Seq<char>>) -> nat
    decreases lines.len(),
{
    if lines.len() > 0 && lines.last().len() == 0 {
        1 + trail_blank(lines.drop_last())
    } else {
        0
    }
}

/// The lines without leading and trailing blank lines.
pub open spec fn strip_blank_ends(lines: Seq<Seq<char>>) -> Seq<Seq<char>> {
    let a = lead_blank(lines);
    if a == lines.len() {
        Seq::empty()
    } else {
        lines.subrange(a as int, lines.len() - trail_blank(lines))
    }
}

/// Pruning lines: every line trimmed, comment lines (starting with a
/// character of `skip`) dropped, blank lines dropped if `prune_blank`, or
/// else only the leading and trailing ones if `strip_end_blanks`.
pub open spec fn prune_lines_spec(lines: Seq<Seq<char>>, skip: Seq<char>, prune_blank: bool, strip_end_blanks: bool) -> Seq<Seq<char>> {
    let t = lines.map_values(|l: Seq<char>| trim_spec(l));
    let a = if skip.len() > 0 {
        drop_comments(t, skip)
    } else {
        t
    };
    let b = if prune_blank {
        drop_blank(a)
    } else {
        a
    };
    if strip_end_blanks && !prune_blank {
        strip_blank_ends(b)
    } else {
        b
    }
}

proof fn lemma_lead_blank(s: Seq<Seq<char>>, k: int)
    requires
        0 <= k <= s.len(),
        forall|i: int| 0 <= i < k ==> (#[trigger] s[i]).len() == 0,
        k == s.len() || s[k].len() != 0,
    ensures
        lead_blank(s) == k,
    decreases k,
{
    if k > 0 {
        lemma_lead_blank(s.drop_first(), k - 1);
    }
}

proof fn lemma_trail_blank(s: Seq<Seq<char>>, k: int)
    requires
        0 <= k <= s.len(),
        forall|i: int| s.len() - k <= i < s.len() ==> (#[trigger] s[i]).len() == 0,
        k == s.len() || s[s.len() - k - 1].len() != 0,
    ensures
        trail_blank(s) == k,
    decreases k,
{
    if k > 0 {
        lemma_trail_blank(s.drop_last(), k - 1);
    }
}

/// Remove comment and blank lines; every line is trimmed. Lines starting
/// with one of `skipchars` are comments; blank lines are all removed when
/// `prune_blank`, or else only the leading and trailing ones when
/// `strip_end_blanks`.
pub fn prune_lines(lines: &[String], skipchars: &str, prune_blank: bool, strip_end_blanks: bool) -> (r: Vec<String>)
    ensures
        r.deep_view() == prune_lines_spec(lines.deep_view(), skipchars@, prune_blank, strip_end_blanks),
{
    let ghost lv = lines.deep_view();
    let ghost t = lv.map_values(|l: Seq<char>| trim_spec(l));
    let skip = chars_of(skipchars);
    let mut a: Vec<String> = Vec::new();
    let mut k: usize = 0;
    while k < lines.len()
        invariant
            k <= lines@.len(),
            lv == lines.deep_view(),
            t == lv.map_values(|l: Seq<char>| trim_spec(l)),
            skip@ == skipchars@,
            a.deep_view() == (if skip@.len() > 0 {
                drop_comments(t.take(k as int), skip@)
            } else {
                t.take(k as int)
            }),
        decreases lines.len() - k,
    {
        assert(t.take(k + 1).drop_last() =~= t.take(k as int));
        assert(lv[k as int] == lines@[k as int]@);
        let v = chars_of(lines[k].as_str());
        let tv = crate::text::trim_chars(v.as_slice());
        assert(tv@ == t[k as int]);
        let keep = if skip.len() > 0 && tv.len() > 0 {
            let mut found = false;
            let mut j: usize = 0;
            while j < skip.len()
                invariant
                    j <= skip@.len(),
                    tv@.len() > 0,
                    found == skip@.take(j as int).contains(tv@[0]),
                decreases skip.len() - j,
            {
                if skip[j] == tv[0] {
                    found = true;
                    assert(skip@.take(j + 1)[j as int] == tv@[0]);
                } else {
                    assert forall|x: int| 0 <= x < j + 1 && #[trigger] skip@.take(j + 1)[x] == tv@[0] implies skip@.take(j as int).contains(tv@[0]) by {
                        assert(skip@.take(j as int)[x] == skip@.take(j + 1)[x]);
                    }
                }
                j = j + 1;
            }
            assert(skip@.take(skip@.len() as int) =~= skip@);
            !found
        } else {
            true
        };
        if keep {
            let ghost before = a.deep_view();
            a.push(string_of(tv.as_slice()));
            assert(a.deep_view() =~= before.push(t[k as int]));
        }
        k = k + 1;
    }
    assert(t.take(lines.len() as int) =~= t);
    let ghost av = a.deep_view();
    let mut b: Vec<String> = Vec::new();
    if prune_blank {
        k = 0;
        while k < a.len()
            invariant
                k <= a@.len(),
                av == a.deep_view(),
                b.deep_view() == drop_blank(av.take(k as int)),
            decreases a.len() - k,
        {
            assert(av.take(k + 1).drop_last() =~= av.take(k as int));
            assert(av[k as int] == a@[k as int]@);
            if a[k].as_str().is_empty() {
            } else {
                let ghost before = b.deep_view();
                b.push(a[k].clone());
                assert(b.deep_view() =~= before.push(av[k as int]));
            }
            k = k + 1;
        }
        assert(av.take(a.len() as int) =~= av);
        return b;
    }
    if !strip_end_blanks {
        return a;
    }
    let n = a.len();
    let mut lo: usize = 0;
    while lo < n && a[lo].as_str().is_empty()
        invariant
            lo <= n,
            n == av.len(),
            av == a.deep_view(),
            forall|i: int| 0 <= i < lo ==> (#[trigger] av[i]).len() == 0,
        decreases n - lo,
    {
        assert(av[lo as int] == a@[lo as int]@);
        lo = lo + 1;
    }
    if lo < n {
        assert(av[lo as int] == a@[lo as int]@);
    }
    proof {
        lemma_lead_blank(av, lo as int);
    }
    if lo == n {
        assert(strip_blank_ends(av) =~= Seq::<Seq<char>>::empty());
        return b;
    }
    let mut hi: usize = n;
    while hi > lo && a[hi - 1].as_str().is_empty()
        invariant
            lo < n,
            lo <= hi <= n,
            n == av.len(),
            av == a.deep_view(),
            av[lo as int].len() != 0,
            forall|i: int| hi <= i < n ==> (#[trigger] av[i]).len() == 0,
        decreases hi,
    {
        assert(av[hi - 1] == a@[hi - 1]@);
        hi = hi - 1;
    }
    if hi < n && hi > lo {
        assert(av[hi - 1] == a@[hi - 1]@);
    }
    proof {
        lemma_trail_blank(av, (n - hi) as int);
    }
    k = lo;
    while k < hi
        invariant
            lo <= k <= hi <= n,
            n == av.len(),
            av == a.deep_view(),
            b.deep_view() == av.subrange(lo as int, k as int),
        decreases hi - k,
    {
        let ghost before = b.deep_view();
        b.push(a[k].clone());
        assert(b.deep_view() =~= before.push(av[k as int]));
        assert(b.deep_view() =~= av.subrange(lo as int, k + 1));
        k = k + 1;
    }
    b
}

/// Splitting lines into blocks from line `i` on, given which lines start a
/// block: a starting line closes the block being read (if not empty) and
/// opens a new one holding itself (if `with_start`) and the `min_after` lines
/// after it, whatever they are; any other line joins the block being read.
pub open spec fn part_blocks(
    lines: Seq<Seq<char>>,
    starts: Seq<bool>,
    min_after: Option<usize>,
    with_start: bool,
    i: int,
    cur: Seq<Seq<char>>,
    acc: Seq<Seq<Seq<char>>>,
) -> Seq<Seq<Seq<char>>>
    decreases lines.len() - i,
{
    if i >= lines.len() || i < 0 {
        if cur.len() > 0 {
            acc.push(cur)
        } else {
            acc
        }
    } else if starts[i] {
        let acc2 = if cur.len() > 0 {
            acc.push(cur)
        } else {
            acc
        };
        let c1 = if with_start {
            seq![lines[i]]
        } else {
            Seq::empty()
        };
        match min_after {
            Some(after) => {
                let end = if i + 1 + after < lines.len() {
                    i + 1 + after
                } else {
                    lines.len() as int
                };
                part_blocks(lines, starts, min_after, with_start, end, c1 + lines.subrange(i + 1, end), acc2)
            },
            None => part_blocks(lines, starts, min_after, with_start, i + 1, c1, acc2),
        }
    } else {
        part_blocks(lines, starts, min_after, with_start, i + 1, cur.push(lines[i]), acc)
    }
}

/// The lines of a list of blocks, in order.
pub open spec fn flat(blocks: Seq<Seq<Seq<char>>>) -> Seq<Seq<char>>
    decreases blocks.len(),
{
    if blocks.len() == 0 {
        Seq::empty()
    } else {
        flat(blocks.drop_last()) + blocks.last()
    }
}

/// The position in the lines of all blocks where block `k` starts.
pub open spec fn block_start(blocks: Seq<Seq<Seq<char>>>, k: int) -> int {
    flat(blocks.take(k)).len() as int
}

/// Moving `before` lines from the end of each block to the start of the
/// next, and dropping the first block (which holds exactly `before` lines):
/// the blocks are the same lines cut `before` lines earlier.
pub open spec fn shift_blocks(blocks: Seq<Seq<Seq<char>>>, before: int) -> Seq<Seq<Seq<char>>> {
    let f = flat(blocks);
    let n = blocks.len() as int;
    Seq::new(
        (n - 1) as nat,
        |k: int|
            f.subrange(
                block_start(blocks, k + 1) - before,
                if k + 2 < n {
                    block_start(blocks, k + 2) - before
                } else {
                    f.len() as int
                },
            ),
    )
}

/// Some block has fewer than `min_size` lines.
pub open spec fn has_short_block(b: Seq<Seq<Seq<char>>>, min_size: int) -> bool {
    exists|k: int| 0 <= k < b.len() && (#[trigger] b[k]).len() < min_size
}

/// Partitioning lines into blocks: the blocks of [`part_blocks`], shifted by
/// `before` lines, when that is possible (more than one block, the first of
/// `before` lines), every block has at least `min_size` lines, and the
/// number of blocks is within the given bounds.
pub open spec fn partition_spec(
    lines: Seq<Seq<char>>,
    starts: Seq<bool>,
    before: usize,
    min_after: Option<usize>,
    min_blocks: Option<usize>,
    max_blocks: Option<usize>,
    min_size: usize,
    with_start: bool,
) -> Option<Seq<Seq<Seq<char>>>> {
    let b0 = part_blocks(lines, starts, min_after, with_start, 0, Seq::empty(), Seq::empty());
    if before > 0 && (b0.len() <= 1 || b0[0].len() != before) {
        None
    } else {
        let b = if before > 0 {
            shift_blocks(b0, before as int)
        } else {
            b0
        };
        if has_short_block(b, min_size as int) {
            None
        } else if min_blocks matches Some(mn) && b.len() < mn {
            None
        } else if max_blocks matches Some(mx) && b.len() > mx {
            None
        } else {
            Some(b)
        }
    }
}

proof fn lemma_flat_take(blocks: Seq<Seq<Seq<char>>>, k: int)
    requires
        0 <= k < blocks.len(),
    ensures
        flat(blocks.take(k + 1)) == flat(blocks.take(k)) + blocks[k],
{
    assert(blocks.take(k + 1).drop_last() =~= blocks.take(k));
}

proof fn lemma_flat_prefix(blocks: Seq<Seq<Seq<char>>>, k: int)
    requires
        0 <= k <= blocks.len(),
    ensures
        flat(blocks.take(k)).len() <= flat(blocks).len(),
        flat(blocks.take(k)) == flat(blocks).take(flat(blocks.take(k)).len() as int),
    decreases blocks.len() - k,
{
    if k < blocks.len() {
        lemma_flat_prefix(blocks, k + 1);
        lemma_flat_take(blocks, k);
        assert(flat(blocks.take(k)) =~= flat(blocks.take(k + 1)).take(flat(blocks.take(k)).len() as int));
        assert(flat(blocks).take(flat(blocks.take(k)).len() as int) =~= flat(blocks.take(k + 1)).take(flat(blocks.take(k)).len() as int));
    } else {
        assert(blocks.take(k) =~= blocks);
    }
}

/// Split the lines into blocks (the first phase of [`partition_lines`]).
fn split_blocks(lines: &[String], starts: &[bool], min_after: Option<usize>, with_start: bool) -> (r: Vec<Vec<String>>)
    requires
        starts@.len() == lines@.len(),
    ensures
        r.deep_view() == part_blocks(lines.deep_view(), starts@, min_after, with_start, 0, Seq::empty(), Seq::empty()),
{
    let ghost lv = lines.deep_view();
    let n = lines.len();
    let mut acc: Vec<Vec<String>> = Vec::new();
    let mut cur: Vec<String> = Vec::new();
    let mut i: usize = 0;
    assert(acc.deep_view() =~= Seq::<Seq<Seq<char>>>::empty());
    assert(cur.deep_view() =~= Seq::<Seq<char>>::empty());
    while i < n
        invariant
            i <= n,
            n == lv.len(),
            lv == lines.deep_view(),
            starts@.len() == n,
            part_blocks(lv, starts@, min_after, with_start, 0, Seq::empty(), Seq::empty())
                == part_blocks(lv, starts@, min_after, with_start, i as int, cur.deep_view(), acc.deep_view()),
        decreases n - i,
    {
        assert(lv[i as int] == lines@[i as int]@);
        if starts[i] {
            if cur.len() > 0 {
                let ghost before = acc.deep_view();
                let ghost cv = cur.deep_view();
                acc.push(cur);
                assert(acc.deep_view() =~= before.push(cv));
                cur = Vec::new();
            }
            let ghost acc_v = acc.deep_view();
            let mut c1: Vec<String> = Vec::new();
            if with_start {
                c1.push(lines[i].clone());
            }
            assert(c1.deep_view() =~= (if with_start { seq![lv[i as int]] } else { Seq::<Seq<char>>::empty() }));
            match min_after {
                Some(after) => {
                    let end: usize = if after < n - i - 1 {
                        i + 1 + after
                    } else {
                        n
                    };
                    let ghost c1v = c1.deep_view();
                    let mut j: usize = i + 1;
                    while j < end
                        invariant
                            i + 1 <= j <= end <= n,
                            n == lv.len(),
                            lv == lines.deep_view(),
                            c1.deep_view() == c1v + lv.subrange(i + 1, j as int),
                        decreases end - j,
                    {
                        let ghost b = c1.deep_view();
                        c1.push(lines[j].clone());
                        assert(c1.deep_view() =~= b.push(lv[j as int]));
                        assert(c1.deep_view() =~= c1v + lv.subrange(i + 1, j + 1));
                        j = j + 1;
                    }
                    cur = c1;
                    i = end;
                },
                None => {
                    cur = c1;
                    i = i + 1;
                },
            }
        } else {
            let ghost before = cur.deep_view();
            cur.push(lines[i].clone());
            assert(cur.deep_view() =~= before.push(lv[i as int]));
            i = i + 1;
        }
    }
    if cur.len() > 0 {
        let ghost before = acc.deep_view();
        let ghost cv = cur.deep_view();
        acc.push(cur);
        assert(acc.deep_view() =~= before.push(cv));
    }
    acc
}

/// Partition lines into blocks. `is_start` tells, for each line, whether it
/// starts a block. A starting line closes the block being read and opens a
/// new one with itself (if `include_match`) and the `min_after` lines after
/// it; with `before`, the last `before` lines of each block move to the next
/// and the first block, which must hold exactly them, goes. A `ValueError`
/// when `before` cannot apply, a block has fewer than `min_size` lines, or
/// the number of blocks is outside the given bounds.
pub fn partition_lines(
    lines: &[String],
    is_start: &[bool],
    before: usize,
    min_after: Option<usize>,
    min_blocks: Option<usize>,
    max_blocks: Option<usize>,
    min_size: usize,
    include_match: bool,
) -> (r: Result<Vec<Vec<String>>, BseError>)
    requires
        is_start@.len() == lines@.len(),
    ensures
        match partition_spec(lines.deep_view(), is_start@, before, min_after, min_blocks, max_blocks, min_size, include_match) {
            Some(b) => r matches Ok(v) && v.deep_view() == b,
            None => r matches Err(e) && e is ValueError,
        },
{
    let blocks = split_blocks(lines, is_start, min_after, include_match);
    let ghost b0 = blocks.deep_view();
    let result: Vec<Vec<String>> = if before > 0 {
        if blocks.len() <= 1 {
            return Err(bad_value("Cannot partition lines with before: too few blocks"));
        }
        assert(b0[0].len() == blocks@[0]@.len());
        if blocks[0].len() != before {
            return Err(bad_value("Cannot partition lines with before: first block has the wrong length"));
        }
        let nb = blocks.len();
        let mut f: Vec<String> = Vec::new();
        let mut bounds: Vec<usize> = Vec::new();
        let mut k: usize = 0;
        while k < nb
            invariant
                k <= nb,
                nb == b0.len(),
                b0 == blocks.deep_view(),
                f.deep_view() == flat(b0.take(k as int)),
                bounds@.len() == k,
                forall|t: int| 0 <= t < k ==> bounds@[t] == block_start(b0, t),
            decreases nb - k,
        {
            proof {
                lemma_flat_take(b0, k as int);
                lemma_flat_prefix(b0, k as int);
            }
            bounds.push(f.len());
            let blk = &blocks[k];
            assert(b0[k as int] == blk.deep_view());
            let mut j: usize = 0;
            let ghost f0 = f.deep_view();
            while j < blk.len()
                invariant
                    j <= blk@.len(),
                    f.deep_view() == f0 + blk.deep_view().take(j as int),
                decreases blk.len() - j,
            {
                let ghost bf = f.deep_view();
                f.push(blk[j].clone());
                assert(f.deep_view() =~= bf.push(blk.deep_view()[j as int]));
                assert(f.deep_view() =~= f0 + blk.deep_view().take(j + 1));
                j = j + 1;
            }
            assert(blk.deep_view().take(blk@.len() as int) =~= blk.deep_view());
            k = k + 1;
        }
        assert(b0.take(nb as int) =~= b0);
        let ghost fv = f.deep_view();
        assert(block_start(b0, 1) == before) by {
            lemma_flat_take(b0, 0);
            assert(b0.take(0) =~= Seq::<Seq<Seq<char>>>::empty());
        }
        let ghost target = shift_blocks(b0, before as int);
        let mut out: Vec<Vec<String>> = Vec::new();
        let mut m: usize = 1;
        while m < nb
            invariant
                1 <= m <= nb,
                nb == b0.len(),
                b0 == blocks.deep_view(),
                fv == f.deep_view(),
                fv == flat(b0),
                bounds@.len() == nb,
                forall|t: int| 0 <= t < nb ==> bounds@[t] == block_start(b0, t),
                block_start(b0, 1) == before,
                target == shift_blocks(b0, before as int),
                out.deep_view() == target.take(m - 1),
            decreases nb - m,
        {
            proof {
                lemma_block_start_mono(b0, 1, m as int);
                if m + 1 < nb {
                    lemma_block_start_mono(b0, m as int, m + 1);
                }
                lemma_flat_prefix(b0, m as int);
                if m + 1 < nb {
                    lemma_flat_prefix(b0, m + 1);
                }
            }
            let lo = bounds[m] - before;
            let hi = if m + 1 < nb {
                bounds[m + 1] - before
            } else {
                f.len()
            };
            let mut blk: Vec<String> = Vec::new();
            let mut j: usize = lo;
            while j < hi
                invariant
                    lo <= j <= hi <= fv.len(),
                    fv == f.deep_view(),
                    blk.deep_view() == fv.subrange(lo as int, j as int),
                decreases hi - j,
            {
                let ghost bb = blk.deep_view();
                blk.push(f[j].clone());
                assert(blk.deep_view() =~= bb.push(fv[j as int]));
                assert(blk.deep_view() =~= fv.subrange(lo as int, j + 1));
                j = j + 1;
            }
            let ghost before_out = out.deep_view();
            let ghost bv = blk.deep_view();
            out.push(blk);
            assert(bv == target[m - 1]);
            assert(out.deep_view() =~= before_out.push(bv));
            assert(out.deep_view() =~= target.take(m as int));
            m = m + 1;
        }
        assert(target.take(nb - 1) =~= target);
        assert(out.deep_view() == shift_blocks(b0, before as int));
        out
    } else {
        blocks
    };
    let ghost b = result.deep_view();
    assert(b == (if before > 0 { shift_blocks(b0, before as int) } else { b0 }));
    let mut k: usize = 0;
    while k < result.len()
        invariant
            k <= result@.len(),
            b == result.deep_view(),
            b0 == part_blocks(lines.deep_view(), is_start@, min_after, include_match, 0, Seq::empty(), Seq::empty()),
            before > 0 ==> (b0.len() > 1 && b0[0].len() == before),
            b == (if before > 0 { shift_blocks(b0, before as int) } else { b0 }),
            forall|t: int| 0 <= t < k ==> (#[trigger] b[t]).len() >= min_size,
        decreases result.len() - k,
    {
        assert(b[k as int].len() == result@[k as int]@.len());
        if result[k].len() < min_size {
            assert((b[k as int]).len() < min_size);
            assert(has_short_block(b, min_size as int));
            return Err(bad_value("A block does not have the minimum number of lines"));
        }
        k = k + 1;
    }
    if let Some(mn) = min_blocks {
        if result.len() < mn {
            return Err(bad_value("Too few blocks"));
        }
    }
    if let Some(mx) = max_blocks {
        if result.len() > mx {
            return Err(bad_value("Too many blocks"));
        }
    }
    Ok(result)
}

proof fn lemma_block_start_mono(blocks: Seq<Seq<Seq<char>>>, a: int, b: int)
    requires
        0 <= a <= b <= blocks.len(),
    ensures
        block_start(blocks, a) <= block_start(blocks, b),
    decreases b - a,
{
    if a < b {
        lemma_block_start_mono(blocks, a, b - 1);
        lemma_flat_take(blocks, b - 1);
    }
}

/// Removing a block: from the first line that starts one to the next line
/// after it that ends one; the lines strictly between, and the lines
/// without the block and its two markers. No block when no line starts
/// one; `None` when the block does not end.
pub open spec fn remove_block_spec(lines: Seq<Seq<char>>, starts: Seq<bool>, ends: Seq<bool>) -> Option<(Seq<Seq<char>>, Seq<Seq<char>>)> {
    if !(exists|i: int| 0 <= i < lines.len() && #[trigger] starts[i]) {
        Some((Seq::empty(), lines))
    } else {
        let s = choose|i: int| 0 <= i < lines.len() && starts[i] && forall|j: int| 0 <= j < i ==> !#[trigger] starts[j];
        if !(exists|e: int| s < e < lines.len() && #[trigger] ends[e]) {
            None
        } else {
            let e = choose|e: int| s < e < lines.len() && ends[e] && forall|j: int| s < j < e ==> !#[trigger] ends[j];
            Some((lines.subrange(s + 1, e), lines.take(s) + lines.skip(e + 1)))
        }
    }
}

/// Remove a block of lines: from the first line marked as a start, to the
/// next line after it marked as an end. The lines of the block (without the
/// markers) and the other lines; no block and all lines when no line starts
/// one, and a `ValueError` when the block has no end.
pub fn remove_block(lines: &[String], is_start: &[bool], is_end: &[bool]) -> (r: Result<(Vec<String>, Vec<String>), BseError>)
    requires
        is_start@.len() == lines@.len(),
        is_end@.len() == lines@.len(),
    ensures
        match remove_block_spec(lines.deep_view(), is_start@, is_end@) {
            Some((b, rest)) => r matches Ok((x, y)) && x.deep_view() == b && y.deep_view() == rest,
            None => r matches Err(e) && e is ValueError,
        },
{
    let ghost lv = lines.deep_view();
    let n = lines.len();
    let mut s: usize = 0;
    while s < n && !is_start[s]
        invariant
            s <= n,
            n == lv.len(),
            is_start@.len() == n,
            forall|j: int| 0 <= j < s ==> !#[trigger] is_start@[j],
        decreases n - s,
    {
        s = s + 1;
    }
    if s == n {
        assert(lines.deep_view() == lv);
        return Ok((Vec::new(), lines_from(lines, 0)));
    }
    let mut e: usize = s + 1;
    while e < n && !is_end[e]
        invariant
            s < e <= n,
            n == lv.len(),
            is_end@.len() == n,
            forall|j: int| s < j < e ==> !#[trigger] is_end@[j],
        decreases n - e,
    {
        e = e + 1;
    }
    proof {
        let s2 = choose|i: int| 0 <= i < lv.len() && is_start@[i] && forall|j: int| 0 <= j < i ==> !#[trigger] is_start@[j];
        assert(is_start@[s as int]);
        assert(s2 == s) by {
            if s2 < s {
                assert(!is_start@[s2]);
            } else if s2 > s {
                assert(!is_start@[s as int]);
            }
        }
    }
    if e == n {
        return Err(bad_value("Cannot find the end of the block"));
    }
    proof {
        let e2 = choose|x: int| s < x < lv.len() && is_end@[x] && forall|j: int| s < j < x ==> !#[trigger] is_end@[j];
        assert(is_end@[e as int]);
        assert(e2 == e) by {
            if e2 < e {
                assert(!is_end@[e2]);
            } else if e2 > e {
                assert(!is_end@[e as int]);
            }
        }
    }
    let mut block: Vec<String> = Vec::new();
    let mut j: usize = s + 1;
    while j < e
        invariant
            s + 1 <= j <= e < n,
            n == lv.len(),
            lv == lines.deep_view(),
            block.deep_view() == lv.subrange(s + 1, j as int),
        decreases e - j,
    {
        let ghost bb = block.deep_view();
        block.push(lines[j].clone());
        assert(block.deep_view() =~= bb.push(lv[j as int]));
        assert(block.deep_view() =~= lv.subrange(s + 1, j + 1));
        j = j + 1;
    }
    let mut rest: Vec<String> = Vec::new();
    j = 0;
    while j < s
        invariant
            j <= s < n,
            n == lv.len(),
            lv == lines.deep_view(),
            rest.deep_view() == lv.take(j as int),
        decreases s - j,
    {
        let ghost bb = rest.deep_view();
        rest.push(lines[j].clone());
        assert(rest.deep_view() =~= bb.push(lv[j as int]));
        assert(rest.deep_view() =~= lv.take(j + 1));
        j = j + 1;
    }
    let tail = lines_from(lines, e + 1);
    append_all(&mut rest, tail);
    Ok((block, rest))
}

/* #endregion */

/* #region regular expressions */

/// The captures of a line by a regular expression, given by its pattern:
/// `None` when the pattern does not compile or the line does not match,
/// else the text of each capture group in order (`None` for a group that
/// took no part), group 0 being the whole match.
pub uninterp spec fn regex_captures_of(pattern: Seq<char>, line: Seq<char>) -> Option<Seq<Option<Seq<char>>>>;

/// Whether a pattern compiles as a regular expression.
pub uninterp spec fn regex_compiles(pattern: Seq<char>) -> bool;

/// The names of the capture groups of a pattern, in order (`None` for an
/// unnamed group), or `None` when the pattern does not compile.
pub uninterp spec fn regex_names_of(pattern: Seq<char>) -> Option<Seq<Option<Seq<char>>>>;

/// The text of a list of optional strings.
pub open spec fn opt_strings_view(v: Seq<Option<String>>) -> Seq<Option<Seq<char>>> {
    v.map_values(|g: Option<String>| match g {
        Some(t) => Some(t@),
        None => None,
    })
}

/// Compiles the pattern with `regex::Regex::new` and calls
/// `Regex::captures` on the line. Claimed: the result is
/// `regex_captures_of` of the pattern and the line, which depends on them
/// alone; a match means the pattern compiled; and, as the crate documents,
/// group 0 (the whole match) is present in every match.
#[verifier::external_body]
fn regex_captures(pattern: &str, line: &str) -> (r: Option<Vec<Option<String>>>)
    ensures
        r is Some ==> regex_compiles(pattern@),
        match r {
            Some(v) => regex_captures_of(pattern@, line@) == Some(opt_strings_view(v@)),
            None => regex_captures_of(pattern@, line@) is None,
        },
        r matches Some(v) ==> v@.len() >= 1 && v@[0] is Some,
{
    match regex::Regex::new(pattern) {
        Ok(re) => re.captures(line).map(|c| c.iter().map(|m| m.map(|m| m.as_str().to_string())).collect()),
        Err(_) => None,
    }
}

/// Compiles the pattern with `regex::Regex::new` and calls
/// `Regex::capture_names`. Claimed: the result is `regex_names_of` of the
/// pattern, present exactly when the pattern compiles; and, as the crate
/// documents, group 0 is unnamed.
#[verifier::external_body]
fn regex_group_names(pattern: &str) -> (r: Option<Vec<Option<String>>>)
    ensures
        r is Some <==> regex_compiles(pattern@),
        match r {
            Some(v) => regex_names_of(pattern@) == Some(opt_strings_view(v@)),
            None => regex_names_of(pattern@) is None,
        },
        r matches Some(v) ==> v@.len() >= 1 && v@[0] is None,
{
    match regex::Regex::new(pattern) {
        Ok(re) => Some(re.capture_names().map(|n| n.map(|s| s.to_string())).collect()),
        Err(_) => None,
    }
}

/// Whether a line matches a pattern.
pub fn regex_is_match(pattern: &str, line: &str) -> (r: bool)
    ensures
        r == regex_captures_of(pattern@, line@) is Some,
{
    regex_captures(pattern, line).is_some()
}

/// The groups after group 0, each as its text or the empty string.
pub open spec fn groups_text(caps: Seq<Option<Seq<char>>>) -> Seq<Seq<char>> {
    if caps.len() == 0 {
        Seq::empty()
    } else {
        caps.skip(1).map_values(|g: Option<Seq<char>>| match g {
            Some(t) => t,
            None => Seq::empty(),
        })
    }
}

/// The groups after group 0 of a match, each as its text or the empty
/// string.
fn match_groups(caps: &Vec<Option<String>>) -> (r: Vec<String>)
    ensures
        r.deep_view() == groups_text(opt_strings_view(caps@)),
{
    let ghost target = groups_text(opt_strings_view(caps@));
    let mut r: Vec<String> = Vec::new();
    if caps.len() == 0 {
        assert(target =~= Seq::<Seq<char>>::empty());
        return r;
    }
    let mut k: usize = 1;
    while k < caps.len()
        invariant
            1 <= k <= caps@.len(),
            target == groups_text(opt_strings_view(caps@)),
            r.deep_view() == target.take(k - 1),
        decreases caps.len() - k,
    {
        let t = match &caps[k] {
            Some(t) => t.clone(),
            None => String::new(),
        };
        let ghost before = r.deep_view();
        r.push(t);
        assert(r.deep_view() =~= before.push(target[k - 1]));
        assert(r.deep_view() =~= target.take(k as int));
        k = k + 1;
    }
    assert(target.take(caps@.len() - 1) =~= target);
    r
}

/// The named groups of a match that took part, with their text, in order.
pub open spec fn named_groups(names: Seq<Option<Seq<char>>>, caps: Seq<Option<Seq<char>>>, n: int) -> Seq<(Seq<char>, Seq<char>)>
    decreases n,
{
    if n <= 0 {
        Seq::empty()
    } else {
        let prev = named_groups(names, caps, n - 1);
        if n - 1 < names.len() && n - 1 < caps.len() && names[n - 1] is Some && caps[n - 1] is Some {
            prev.push((names[n - 1]->0, caps[n - 1]->0))
        } else {
            prev
        }
    }
}

/// The named groups of a match that took part, with their text.
fn match_named_groups(names: &Vec<Option<String>>, caps: &Vec<Option<String>>) -> (r: Vec<(String, String)>)
    ensures
        crate::writers::write::pairs_view(r@) == named_groups(
            opt_strings_view(names@),
            opt_strings_view(caps@),
            names@.len() as int,
        ),
{
    let ghost nv = opt_strings_view(names@);
    let ghost cv = opt_strings_view(caps@);
    let mut r: Vec<(String, String)> = Vec::new();
    let mut k: usize = 0;
    while k < names.len()
        invariant
            k <= names@.len(),
            nv == opt_strings_view(names@),
            cv == opt_strings_view(caps@),
            crate::writers::write::pairs_view(r@) == named_groups(nv, cv, k as int),
        decreases names.len() - k,
    {
        if k < caps.len() {
            match (&names[k], &caps[k]) {
                (Some(n), Some(t)) => {
                    let ghost before = crate::writers::write::pairs_view(r@);
                    r.push((n.clone(), t.clone()));
                    assert(crate::writers::write::pairs_view(r@) =~= before.push((n@, t@)));
                },
                _ => {},
            }
        }
        k = k + 1;
    }
    r
}

/// The message when a line does not match a pattern: the description, if
/// any, names what was looked for and the pattern comes last; else the
/// pattern is named.
pub open spec fn no_match_text(pattern: Seq<char>, line: Seq<char>, description: Seq<char>) -> Seq<char> {
    if description.len() == 0 {
        "Regex '"@ + pattern + "' does not match line: '"@ + line + "'"@
    } else {
        "Regex '"@ + description + "' does not match line: '"@ + line + "'. Regex is '"@ + pattern + "'"@
    }
}

fn no_match_error(pattern: &str, line: &str, description: &str) -> (e: BseError)
    ensures
        e matches BseError::ValueError(m) && m@ == no_match_text(pattern@, line@, description@),
{
    let mut m = "Regex '".to_owned();
    let dc = crate::text::chars_of(description);
    if dc.len() == 0 {
        crate::text::push_str(&mut m, pattern);
        crate::text::push_str(&mut m, "' does not match line: '");
        crate::text::push_str(&mut m, line);
        crate::text::push_str(&mut m, "'");
    } else {
        crate::text::push_str(&mut m, description);
        crate::text::push_str(&mut m, "' does not match line: '");
        crate::text::push_str(&mut m, line);
        crate::text::push_str(&mut m, "'. Regex is '");
        crate::text::push_str(&mut m, pattern);
        crate::text::push_str(&mut m, "'");
    }
    assert(m@ =~= no_match_text(pattern@, line@, description@));
    BseError::ValueError(m)
}

/// Match a line against a regular expression, given by its pattern: the
/// text of each capture group after the whole match (the empty string for
/// a group that took no part), or a `ValueError` naming the description
/// when the line does not match.
pub fn parse_line_regex(pattern: &str, line: &str, description: &str) -> (r: Result<Vec<String>, BseError>)
    ensures
        match regex_captures_of(pattern@, line@) {
            Some(caps) => r matches Ok(v) && v.deep_view() == groups_text(caps),
            None => r matches Err(e) && e is ValueError,
        },
{
    match regex_captures(pattern, line) {
        Some(caps) => Ok(match_groups(&caps)),
        None => Err(no_match_error(pattern, line, description)),
    }
}

/// Match a line against a regular expression, given by its pattern: the
/// named capture groups that took part, with their text, or a `ValueError`
/// naming the description when the line does not match.
pub fn parse_line_regex_dict(pattern: &str, line: &str, description: &str) -> (r: Result<Vec<(String, String)>, BseError>)
    ensures
        match regex_captures_of(pattern@, line@) {
            Some(caps) => r matches Ok(v) && crate::writers::write::pairs_view(v@) == named_groups(
                regex_names_of(pattern@)->0,
                caps,
                (regex_names_of(pattern@)->0).len() as int,
            ),
            None => r matches Err(e) && e is ValueError,
        },
{
    match regex_captures(pattern, line) {
        Some(caps) => {
            match regex_group_names(pattern) {
                Some(names) => Ok(match_named_groups(&names, &caps)),
                None => {
                    assert(false);
                    Ok(Vec::new())
                },
            }
        },
        None => Err(no_match_error(pattern, line, description)),
    }
}

/* #endregion */


/* #region lines of a text */

/// The lines of a text as `str::lines` gives them, each trimmed: the pieces
/// between newlines, without the empty piece after a final newline.
pub open spec fn text_lines(s: Seq<char>) -> Seq<Seq<char>> {
    let p = split_char(s, '\n');
    let q = if p.len() > 0 && p.last().len() == 0 {
        p.drop_last()
    } else {
        p
    };
    q.map_values(|l: Seq<char>| trim_spec(l))
}

/// The lines of a text, each trimmed.
pub fn trimmed_lines(s: &str) -> (r: Vec<String>)
    ensures
        r.deep_view() == text_lines(s@),
{
    let pieces = split_at_char(s, '\n');
    let ghost p = split_char(s@, '\n');
    let n: usize = if pieces[pieces.len() - 1].len() == 0 {
        pieces.len() - 1
    } else {
        pieces.len()
    };
    let ghost q = if p.len() > 0 && p.last().len() == 0 {
        p.drop_last()
    } else {
        p
    };
    assert(pieces@[pieces@.len() - 1]@ == p.last());
    assert(q.len() == n);
    let mut r: Vec<String> = Vec::new();
    let mut i: usize = 0;
    while i < n
        invariant
            i <= n,
            n <= pieces@.len(),
            q.len() == n,
            forall|k: int| 0 <= k < n ==> #[trigger] q[k] == pieces@[k]@,
            r.deep_view() == q.take(i as int).map_values(|l: Seq<char>| trim_spec(l)),
        decreases n - i,
    {
        let t = trim_chars(pieces[i].as_slice());
        let ghost before = r.deep_view();
        r.push(string_of(t.as_slice()));
        assert(r.deep_view() =~= q.take(i + 1).map_values(|l: Seq<char>| trim_spec(l))) by {
            assert(r.deep_view() =~= before.push(trim_spec(q[i as int])));
        }
        i = i + 1;
    }
    assert(q.take(n as int) =~= q);
    r
}

/* #endregion */

/* #region element maps */

/// The element map with an entry for `z`: unchanged if it has one, else an
/// empty entry inserted in order of atomic number.
pub open spec fn with_entry(v: Seq<(i32, ElementV)>, z: i32) -> Seq<(i32, ElementV)> {
    if has_key(v, z) {
        v
    } else {
        let c = count_key_lt(v, z) as int;
        v.take(c).push((z, empty_element())) + v.skip(c)
    }
}

/// The position of the entry for `z` in [`with_entry`].
pub open spec fn entry_index(v: Seq<(i32, ElementV)>, z: i32) -> int {
    if has_key(v, z) {
        key_index(v, z)
    } else {
        count_key_lt(v, z) as int
    }
}

/// The data of element `z`, or an empty element when it has none.
pub open spec fn entry_of(v: Seq<(i32, ElementV)>, z: i32) -> ElementV {
    with_entry(v, z)[entry_index(v, z)].1
}

/// The element map with `e` as the data of element `z`.
pub open spec fn put_entry(v: Seq<(i32, ElementV)>, z: i32, e: ElementV) -> Seq<(i32, ElementV)> {
    with_entry(v, z).update(entry_index(v, z), (z, e))
}

/// An element with one more shell at the end.
pub open spec fn push_shell(e: ElementV, sh: ShellV) -> ElementV {
    ElementV {
        shells: Some(
            match e.shells {
                Some(s) => s.push(sh),
                None => seq![sh],
            },
        ),
        ..e
    }
}

/// An element with one more potential at the end.
pub open spec fn push_potential(e: ElementV, p: PotentialV) -> ElementV {
    ElementV {
        potentials: Some(
            match e.potentials {
                Some(s) => s.push(p),
                None => seq![p],
            },
        ),
        ..e
    }
}

/// Find the entry for `z`, inserting an empty one in order if there is
/// none; its position.
pub fn entry_slot(v: &mut Vec<(i32, BseBasisElement)>, z: i32) -> (k: usize)
    requires
        keys_increasing(old(v)@),
    ensures
        keys_increasing(final(v)@),
        elements_view(final(v)@) == with_entry(elements_view(old(v)@), z),
        k as int == entry_index(elements_view(old(v)@), z),
        k < final(v)@.len(),
        final(v)@[k as int].0 == z,
{
    let ghost ev = elements_view(v@);
    proof {
        lemma_count_key_split(ev, z);
    }
    let mut k: usize = 0;
    while k < v.len() && v[k].0 < z
        invariant
            k <= v@.len(),
            forall|j: int| 0 <= j < k ==> v@[j].0 < z,
        decreases v.len() - k,
    {
        k = k + 1;
    }
    assert(forall|j: int| 0 <= j < v@.len() ==> #[trigger] ev[j].0 == v@[j].0);
    if k < v.len() && v[k].0 == z {
        assert(ev[k as int].0 == z);
        assert(has_key(ev, z));
        let ghost ki = key_index(ev, z);
        assert(ki == k) by {
            if ki < k {
                assert(ev[ki].0 < z);
            } else if ki > k {
                assert(ev[k as int].0 < ev[ki].0);
            }
        }
        return k;
    }
    assert(!has_key(ev, z)) by {
        if has_key(ev, z) {
            let j = choose|j: int| 0 <= j < ev.len() && (#[trigger] ev[j]).0 == z;
            if j < k {
                assert(ev[j].0 < z);
            } else if j > k {
                assert(ev[k as int].0 < ev[j].0);
            }
        }
    }
    assert(count_key_lt(ev, z) == k) by {
        let c = count_key_lt(ev, z) as int;
        if c < k {
            assert(ev[c].0 >= z);
        } else if c > k {
            assert(ev[k as int].0 >= z || k == v@.len());
        }
    }
    let ghost old_v = v@;
    v.insert(k, (z, BseBasisElement::empty()));
    proof {
        let w = with_entry(ev, z);
        assert(elements_view(v@) =~= w) by {
            assert forall|j: int| 0 <= j < v@.len() implies #[trigger] elements_view(v@)[j] == w[j] by {
                let c = k as int;
                if j < k {
                    assert(v@[j] == old_v[j]);
                    assert(w[j] == ev.take(c)[j]);
                } else if j > k {
                    assert(v@[j] == old_v[j - 1]);
                    assert(w[j] == ev.skip(c)[j - c - 1]);
                } else {
                    assert(v@[j].1@.references =~= Seq::<crate::fields::ReferenceV>::empty());
                    assert(w[j] == (z, empty_element()));
                }
            }
        }
        assert forall|i: int, j: int| 0 <= i < j < v@.len() implies v@[i].0 < v@[j].0 by {
            if i < k && j > k {
                assert(old_v[i].0 < z);
                if j - 1 < old_v.len() {
                    assert(ev[j - 1].0 >= z);
                    assert(ev[j - 1].0 != z);
                }
            } else if i == k {
                assert(ev[j - 1].0 >= z);
                assert(ev[j - 1].0 != z);
            } else if j == k {
                assert(old_v[i].0 < z);
            } else if i > k {
                assert(old_v[i - 1].0 < old_v[j - 1].0);
            } else {
                assert(old_v[i].0 < old_v[j].0);
            }
        }
    }
    k
}

/// Add a shell at the end of the shells of element `z`, which gets an
/// entry if it has none.
pub fn add_shell(v: &mut Vec<(i32, BseBasisElement)>, z: i32, sh: BseElectronShell)
    requires
        keys_increasing(old(v)@),
    ensures
        keys_increasing(final(v)@),
        elements_view(final(v)@) == put_entry(
            elements_view(old(v)@),
            z,
            push_shell(entry_of(elements_view(old(v)@), z), sh@),
        ),
{
    let ghost ev = elements_view(v@);
    let ghost shv = sh@;
    let k = entry_slot(v, z);
    let ghost mid = v@;
    let (zz, mut e) = v.remove(k);
    assert(e@ == entry_of(ev, z));
    let ghost e0 = e@;
    match e.electron_shells {
        Some(mut s) => {
            let ghost s0 = s@;
            s.push(sh);
            assert(crate::fields::shells_view(s@) =~= crate::fields::shells_view(s0).push(shv));
            e.electron_shells = Some(s);
        },
        None => {
            let s = vec![sh];
            assert(crate::fields::shells_view(s@) =~= seq![shv]);
            e.electron_shells = Some(s);
        },
    }
    assert(e@ == push_shell(e0, shv));
    v.insert(k, (zz, e));
    proof {
        assert(elements_view(v@) =~= put_entry(ev, z, push_shell(entry_of(ev, z), shv))) by {
            assert forall|j: int| 0 <= j < v@.len() implies #[trigger] elements_view(v@)[j] == put_entry(ev, z, push_shell(entry_of(ev, z), shv))[j] by {
                if j != k {
                    assert(v@[j] == mid[j]);
                }
            }
        }
        assert forall|i: int, j: int| 0 <= i < j < v@.len() implies v@[i].0 < v@[j].0 by {
            assert(v@[i].0 == mid[i].0 && v@[j].0 == mid[j].0);
        }
    }
}

/// Add a potential at the end of the potentials of element `z`, which gets
/// an entry if it has none.
pub fn add_potential(v: &mut Vec<(i32, BseBasisElement)>, z: i32, p: BseEcpPotential)
    requires
        keys_increasing(old(v)@),
    ensures
        keys_increasing(final(v)@),
        elements_view(final(v)@) == put_entry(
            elements_view(old(v)@),
            z,
            push_potential(entry_of(elements_view(old(v)@), z), p@),
        ),
{
    let ghost ev = elements_view(v@);
    let ghost pv = p@;
    let k = entry_slot(v, z);
    let ghost mid = v@;
    let (zz, mut e) = v.remove(k);
    assert(e@ == entry_of(ev, z));
    let ghost e0 = e@;
    match e.ecp_potentials {
        Some(mut s) => {
            let ghost s0 = s@;
            s.push(p);
            assert(crate::fields::pots_view(s@) =~= crate::fields::pots_view(s0).push(pv));
            e.ecp_potentials = Some(s);
        },
        None => {
            let s = vec![p];
            assert(crate::fields::pots_view(s@) =~= seq![pv]);
            e.ecp_potentials = Some(s);
        },
    }
    assert(e@ == push_potential(e0, pv));
    v.insert(k, (zz, e));
    proof {
        assert(elements_view(v@) =~= put_entry(ev, z, push_potential(entry_of(ev, z), pv))) by {
            assert forall|j: int| 0 <= j < v@.len() implies #[trigger] elements_view(v@)[j] == put_entry(ev, z, push_potential(entry_of(ev, z), pv))[j] by {
                if j != k {
                    assert(v@[j] == mid[j]);
                }
            }
        }
        assert forall|i: int, j: int| 0 <= i < j < v@.len() implies v@[i].0 < v@[j].0 by {
            assert(v@[i].0 == mid[i].0 && v@[j].0 == mid[j].0);
        }
    }
}

/// An element with the given number of core electrons.
pub open spec fn with_core(e: ElementV, ncore: i32) -> ElementV {
    ElementV { ecp_electrons: Some(ncore), ..e }
}

/// Set the number of core electrons of element `z`, which gets an entry if
/// it has none.
pub fn set_core(v: &mut Vec<(i32, BseBasisElement)>, z: i32, ncore: i32)
    requires
        keys_increasing(old(v)@),
    ensures
        keys_increasing(final(v)@),
        elements_view(final(v)@) == put_entry(elements_view(old(v)@), z, with_core(entry_of(elements_view(old(v)@), z), ncore)),
{
    let ghost ev = elements_view(v@);
    let k = entry_slot(v, z);
    let ghost mid = v@;
    let (zz, mut e) = v.remove(k);
    assert(e@ == entry_of(ev, z));
    let ghost e0 = e@;
    e.ecp_electrons = Some(ncore);
    assert(e@ == with_core(e0, ncore));
    v.insert(k, (zz, e));
    proof {
        assert(elements_view(v@) =~= put_entry(ev, z, with_core(entry_of(ev, z), ncore))) by {
            assert forall|j: int| 0 <= j < v@.len() implies #[trigger] elements_view(v@)[j] == put_entry(ev, z, with_core(entry_of(ev, z), ncore))[j] by {
                if j != k {
                    assert(v@[j] == mid[j]);
                }
            }
        }
        assert forall|i: int, j: int| 0 <= i < j < v@.len() implies v@[i].0 < v@[j].0 by {
            assert(v@[i].0 == mid[i].0 && v@[j].0 == mid[j].0);
        }
    }
}

/// Which lines start with an alphabetic character.
pub open spec fn alpha_flags(lines: Seq<Seq<char>>) -> Seq<bool> {
    Seq::new(lines.len(), |i: int| lines[i].len() > 0 && alphabetic(lines[i][0]))
}

/// Which lines start with an alphabetic character.
pub fn alpha_flag_lines(rest: &Vec<String>) -> (r: Vec<bool>)
    ensures
        r@ == alpha_flags(rest.deep_view()),
{
    let ghost rv = rest.deep_view();
    let mut flags: Vec<bool> = Vec::new();
    let mut q: usize = 0;
    while q < rest.len()
        invariant
            q <= rest@.len(),
            rv == rest.deep_view(),
            flags@ == alpha_flags(rv).take(q as int),
        decreases rest.len() - q,
    {
        assert(rv[q as int] == rest@[q as int]@);
        let c = chars_of(rest[q].as_str());
        let f = c.len() > 0 && is_alphabetic(c[0]);
        flags.push(f);
        assert(flags@ =~= alpha_flags(rv).take(q + 1));
        q = q + 1;
    }
    assert(alpha_flags(rv).take(rest@.len() as int) =~= alpha_flags(rv));
    flags
}

/// Which lines match a pattern.
pub fn pattern_flags(pattern: &str, lines: &Vec<String>) -> (r: Vec<bool>)
    ensures
        r@.len() == lines@.len(),
        forall|i: int| 0 <= i < r@.len() ==> #[trigger] r@[i] == (regex_captures_of(pattern@, lines.deep_view()[i]) is Some),
{
    let mut r: Vec<bool> = Vec::new();
    let mut i: usize = 0;
    while i < lines.len()
        invariant
            i <= lines@.len(),
            r@.len() == i,
            forall|k: int| 0 <= k < i ==> #[trigger] r@[k] == (regex_captures_of(pattern@, lines.deep_view()[k]) is Some),
        decreases lines.len() - i,
    {
        assert(lines.deep_view()[i as int] == lines@[i as int]@);
        r.push(regex_is_match(pattern, lines[i].as_str()));
        i = i + 1;
    }
    r
}

/// The text of an optional string.
pub open spec fn opt_text(o: Option<String>) -> Option<Seq<char>> {
    match o {
        Some(t) => Some(t@),
        None => None,
    }
}

/// The name a reader gives a basis set: the one found, else `unknown_basis`.
pub open spec fn reader_name(name: Option<Seq<char>>) -> Seq<char> {
    match name {
        Some(n) => n,
        None => "unknown_basis"@,
    }
}

/// A basis set as a reader gives it: a minimal schema, the elements read,
/// the function types of their shells (each once, in increasing order), the
/// name found (else `unknown_basis`) and no description.
pub fn reader_basis(elements: Vec<(i32, BseBasisElement)>, name: Option<String>) -> (r: BseBasisMinimal)
    ensures
        r.elements@ == elements@,
        r.function_types.deep_view() == sort_distinct_strs(shell_types(elements_view(elements@))),
        r.name@ == reader_name(opt_text(name)),
        r.description@ == "no_description"@,
        r.molssi_bse_schema.schema_type@ == "minimal"@,
        r.molssi_bse_schema.schema_version@ == "0.1"@,
{
    let function_types = whole_basis_types(&elements);
    let name = match name {
        Some(n) => n,
        None => "unknown_basis".to_string(),
    };
    BseBasisMinimal {
        molssi_bse_schema: BseMolssiBseSchema { schema_type: "minimal".to_string(), schema_version: "0.1".to_string() },
        elements,
        function_types,
        name,
        description: "no_description".to_string(),
    }
}

/* #endregion */

} // verus!
