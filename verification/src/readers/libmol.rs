//! Reading basis sets in the Molpro system library format (libmol).
//!
//! A shell opens with a line `symbol letter names : nprim ncontr ranges`,
//! where each range `start.end` tells which primitives a contraction uses;
//! a comment line follows, then the exponents and the coefficients of each
//! contraction as numbers over as many lines as needed. A potential opens
//! with `symbol ECP names : ncore lmax lmaxso ndata`, then a comment line,
//! then a block per angular momentum (`lmax` first, then 0, 1, ...): the
//! number of terms, then triples `power exponent coefficient`.
use crate::error::BseError;
use crate::fields::{BseBasisElement, BseBasisMinimal, BseEcpPotential, BseElectronShell, ElementV, PotentialV, ShellV, elements_view, keys_increasing};
use crate::compose::{split_char, shell_types};
use crate::lut::{amchar_to_int, amchar_to_int_spec, element_Z_from_sym, sym_search};
use crate::readers::helpers::{
    entry_of, f64_syntax, with_core, add_potential, set_core, add_shell, is_floating, is_floating_spec, named_groups, parses_as_f64, prune_lines, prune_lines_spec, push_potential,
    push_shell, put_entry, reader_basis, reader_name, regex_captures_of, regex_names_of, replace_d, replace_d_spec, text_lines,
    trimmed_lines,
};
use crate::text::{
    chars_of, contains_spec, lowercase_of, parse_i32, parse_i32_spec, parse_usize, parse_usize_spec, sort_distinct_strs,
    split_ws, trim_spec, ws_tokens,
};
use vstd::prelude::*;

verus! {

/// The line that opens a shell.
pub const LIBMOL_SHELL_PATTERN: &'static str = r"^\s*(?P<sym>\w+)\s+(?P<am>[spdfghikSPDFGHIK])\s+.*:\s*(?P<nprim>\d+)\s+(?P<ncontr>\d+)\s+(?P<ranges>.*)$";

/// The line that opens a potential.
pub const LIBMOL_ECP_PATTERN: &'static str = r"^\s*(?P<sym>\w+)\s+ECP\s+.*:\s*(?P<ncore>\d+)\s+(?P<lmax>\d+)\s+(?P<lmaxso>\d+)\s+(?P<ndata>\d+)\s*$";

/* #region fields of a header line */

/// The named groups of a line matched by a pattern, or `None` when it does
/// not match.
pub open spec fn header_fields(pattern: Seq<char>, line: Seq<char>) -> Option<Seq<(Seq<char>, Seq<char>)>> {
    match regex_captures_of(pattern, line) {
        Some(caps) => Some(named_groups(regex_names_of(pattern)->0, caps, (regex_names_of(pattern)->0).len() as int)),
        None => None,
    }
}

/// The text of field `key` (the last one of that name), if any.
pub open spec fn field(d: Seq<(Seq<char>, Seq<char>)>, key: Seq<char>) -> Option<Seq<char>>
    decreases d.len(),
{
    if d.len() == 0 {
        None
    } else if d.last().0 == key {
        Some(d.last().1)
    } else {
        field(d.drop_last(), key)
    }
}

/// The text of field `key`, or the empty text.
pub open spec fn field_text(d: Seq<(Seq<char>, Seq<char>)>, key: Seq<char>) -> Seq<char> {
    match field(d, key) {
        Some(t) => t,
        None => Seq::empty(),
    }
}

/// Field `key` read as a `usize`, or 0 when it is missing or no number.
pub open spec fn field_usize(d: Seq<(Seq<char>, Seq<char>)>, key: Seq<char>) -> usize {
    match field(d, key) {
        Some(t) => match parse_usize_spec(t) {
            Some(n) => n,
            None => 0,
        },
        None => 0,
    }
}

/// Field `key` read as an `i32`, or 0 when it is missing or no number.
pub open spec fn field_i32(d: Seq<(Seq<char>, Seq<char>)>, key: Seq<char>) -> i32 {
    match field(d, key) {
        Some(t) => match parse_i32_spec(t) {
            Some(n) => n,
            None => 0,
        },
        None => 0,
    }
}

fn field_of(d: &Vec<(String, String)>, key: &str) -> (r: Option<String>)
    ensures
        opt_view(r) == field(crate::writers::write::pairs_view(d@), key@),
{
    let ghost dv = crate::writers::write::pairs_view(d@);
    assert(dv.take(dv.len() as int) =~= dv);
    let mut k: usize = d.len();
    while k > 0
        invariant
            k <= d@.len(),
            dv == crate::writers::write::pairs_view(d@),
            field(dv, key@) == field(dv.take(k as int), key@),
        decreases k,
    {
        let ghost t = dv.take(k as int);
        assert(t.drop_last() =~= dv.take(k - 1));
        assert(t.last() == (d@[k - 1].0@, d@[k - 1].1@));
        if crate::text::chars_eq(chars_of(d[k - 1].0.as_str()).as_slice(), chars_of(key).as_slice()) {
            return Some(d[k - 1].1.clone());
        }
        k = k - 1;
    }
    None
}

/// The text of an optional string.
pub open spec fn opt_view(o: Option<String>) -> Option<Seq<char>> {
    match o {
        Some(t) => Some(t@),
        None => None,
    }
}

/* #endregion */

/* #region shells */

/// The contraction ranges among some tokens: each token that splits at dots
/// into exactly two numbers gives `(start, end)`; the others are skipped.
pub open spec fn ranges_spec(toks: Seq<Seq<char>>) -> Seq<(usize, usize)>
    decreases toks.len(),
{
    if toks.len() == 0 {
        Seq::empty()
    } else {
        let p = ranges_spec(toks.drop_last());
        let parts = split_char(toks.last(), '.');
        if parts.len() == 2 && parse_usize_spec(parts[0]) is Some && parse_usize_spec(parts[1]) is Some {
            p.push((parse_usize_spec(parts[0])->0, parse_usize_spec(parts[1])->0))
        } else {
            p
        }
    }
}

/// Every range ends at or after its start.
pub open spec fn ranges_ordered(cr: Seq<(usize, usize)>) -> bool {
    forall|k: int| 0 <= k < cr.len() ==> (#[trigger] cr[k]).0 <= cr[k].1
}

/// The number of coefficients the first `k` ranges take.
pub open spec fn range_total(cr: Seq<(usize, usize)>, k: int) -> nat
    decreases k,
{
    if k <= 0 {
        0
    } else {
        range_total(cr, k - 1) + (cr[k - 1].1 - cr[k - 1].0 + 1) as nat
    }
}

/// A token as a number value: `d` read as `e`, and `.0` appended when it
/// has no decimal point.
pub open spec fn with_point(t: Seq<char>) -> Seq<char> {
    if contains_spec(t, "."@) {
        t
    } else {
        t + ".0"@
    }
}

/// The number values among some tokens, in order.
pub open spec fn number_values(toks: Seq<Seq<char>>) -> Seq<Seq<char>>
    decreases toks.len(),
{
    if toks.len() == 0 {
        Seq::empty()
    } else {
        let p = number_values(toks.drop_last());
        let v = replace_d_spec(toks.last());
        if is_floating_spec(v) {
            p.push(with_point(v))
        } else {
            p
        }
    }
}

/// A line that opens a shell or a potential.
pub open spec fn libmol_header(line: Seq<char>) -> bool {
    regex_captures_of(LIBMOL_SHELL_PATTERN@, line) is Some || regex_captures_of(LIBMOL_ECP_PATTERN@, line) is Some
}

/// Gathering number values after line `j` until there are `nread`: the
/// last line read and the values, or `None` when the lines run out. Blank
/// and `!` lines are skipped; a header line stops the gathering early.
pub open spec fn libmol_data(lines: Seq<Seq<char>>, j: int, nread: nat, raw: Seq<Seq<char>>) -> Option<(int, Seq<Seq<char>>)>
    decreases lines.len() - j,
{
    if raw.len() >= nread {
        Some((j, raw))
    } else if j + 1 >= lines.len() || j + 1 < 0 {
        None
    } else {
        let l = trim_spec(lines[j + 1]);
        if l.len() == 0 || l[0] == '!' {
            libmol_data(lines, j + 1, nread, raw)
        } else if libmol_header(lines[j + 1]) {
            Some((j + 1, raw))
        } else {
            libmol_data(lines, j + 1, nread, raw + number_values(ws_tokens(l)))
        }
    }
}

/// `n` zero coefficients.
pub open spec fn zeros(n: int) -> Seq<Seq<char>> {
    Seq::new(if n > 0 { n as nat } else { 0 }, |i: int| "0.0"@)
}

/// The coefficients of contraction `k`: the values of its range, after the
/// exponents and the ranges before it, padded with zeros to the primitives
/// before its start and after its end.
pub open spec fn range_coefficients(raw: Seq<Seq<char>>, cr: Seq<(usize, usize)>, nprim: usize, k: int) -> Seq<Seq<char>> {
    let (s, e) = cr[k];
    let off = nprim + range_total(cr, k);
    zeros(s - 1) + raw.subrange(off, off + (e - s + 1)) + zeros(nprim - e)
}

/// The shell of angular momentum `am` from the values read: the first
/// `nprim` are the exponents, the ranges give the contractions.
pub open spec fn shell_from_values(raw: Seq<Seq<char>>, cr: Seq<(usize, usize)>, nprim: usize, am: Seq<i32>) -> ShellV {
    ShellV {
        function_type: if am[0] < 2 {
            "gto"@
        } else {
            "gto_spherical"@
        },
        region: Seq::empty(),
        am,
        exponents: raw.take(nprim as int),
        coefficients: Seq::new(cr.len(), |k: int| range_coefficients(raw, cr, nprim, k)),
    }
}

/// The angular momentum of a shell from its letter (none when unknown).
pub open spec fn letter_am(letter: Seq<char>) -> Seq<i32> {
    match amchar_to_int_spec(lowercase_of(letter), false) {
        Some(a) => a,
        None => Seq::empty(),
    }
}

/// The shell opening at line `i`, given the fields of its header: the last
/// line read and the shell, or `None` when the numbers of primitives or
/// contractions are zero, the letter is not one angular momentum, the
/// symbol is unknown, a range ends before its start, the numbers overflow,
/// or the values run short.
pub open spec fn shell_entry_spec(d: Seq<(Seq<char>, Seq<char>)>, lines: Seq<Seq<char>>, i: int) -> Option<(int, i32, ShellV)> {
    let nprim = field_usize(d, "nprim"@);
    let ncontr = field_usize(d, "ncontr"@);
    let am = letter_am(field_text(d, "am"@));
    let cr = ranges_spec(ws_tokens(field_text(d, "ranges"@)));
    if nprim == 0 || ncontr == 0 || am.len() != 1 {
        None
    } else {
        match sym_search(lowercase_of(field_text(d, "sym"@)), 1) {
            None => None,
            Some(z) => {
                let nread = nprim + range_total(cr, cr.len() as int);
                if !ranges_ordered(cr) || nread > usize::MAX {
                    None
                } else {
                    match libmol_data(lines, i + 1, nread as nat, Seq::empty()) {
                        None => None,
                        Some((j, raw)) => if raw.len() < nread {
                            None
                        } else {
                            Some((j, z, shell_from_values(raw, cr, nprim, am)))
                        },
                    }
                }
            },
        }
    }
}

fn ranges_of(text: &str) -> (r: Vec<(usize, usize)>)
    ensures
        r@ == ranges_spec(ws_tokens(text@)),
{
    let toks = split_ws(text);
    let ghost tv = toks.deep_view();
    let mut r: Vec<(usize, usize)> = Vec::new();
    let mut k: usize = 0;
    while k < toks.len()
        invariant
            k <= toks@.len(),
            tv == toks.deep_view(),
            tv == ws_tokens(text@),
            r@ == ranges_spec(tv.take(k as int)),
        decreases toks.len() - k,
    {
        assert(tv.take(k + 1).drop_last() =~= tv.take(k as int));
        assert(tv[k as int] == toks@[k as int]@);
        let parts = crate::compose::split_at_char(toks[k].as_str(), '.');
        if parts.len() == 2 {
            let a = parse_usize(parts[0].as_slice());
            let b = parse_usize(parts[1].as_slice());
            match (a, b) {
                (Some(x), Some(y)) => {
                    r.push((x, y));
                },
                _ => {},
            }
        }
        k = k + 1;
    }
    assert(tv.take(toks@.len() as int) =~= tv);
    r
}

fn values_of(line: &str) -> (r: Vec<String>)
    ensures
        r.deep_view() == number_values(ws_tokens(line@)),
{
    let toks = split_ws(line);
    let ghost tv = toks.deep_view();
    let dot = chars_of(".");
    let mut r: Vec<String> = Vec::new();
    let mut k: usize = 0;
    while k < toks.len()
        invariant
            k <= toks@.len(),
            tv == toks.deep_view(),
            tv == ws_tokens(line@),
            dot@ == "."@,
            r.deep_view() == number_values(tv.take(k as int)),
        decreases toks.len() - k,
    {
        assert(tv.take(k + 1).drop_last() =~= tv.take(k as int));
        assert(tv[k as int] == toks@[k as int]@);
        let v = replace_d(toks[k].as_str());
        if is_floating(v.as_str()) {
            let ghost before = r.deep_view();
            let has_dot = crate::text::contains(chars_of(v.as_str()).as_slice(), dot.as_slice());
            let mut w = v;
            if !has_dot {
                crate::text::push_str(&mut w, ".0");
            }
            r.push(w);
            assert(r.deep_view() =~= before.push(with_point(replace_d_spec(tv[k as int]))));
        }
        k = k + 1;
    }
    assert(tv.take(toks@.len() as int) =~= tv);
    r
}

fn append_values(r: &mut Vec<String>, v: Vec<String>)
    ensures
        final(r).deep_view() == old(r).deep_view() + v.deep_view(),
{
    let ghost r0 = r.deep_view();
    let mut k: usize = 0;
    while k < v.len()
        invariant
            k <= v@.len(),
            r.deep_view() == r0 + v.deep_view().take(k as int),
        decreases v.len() - k,
    {
        let ghost before = r.deep_view();
        r.push(v[k].clone());
        assert(v.deep_view()[k as int] == v@[k as int]@);
        assert(r.deep_view() =~= before.push(v.deep_view()[k as int]));
        assert(r.deep_view() =~= r0 + v.deep_view().take(k + 1));
        k = k + 1;
    }
    assert(v.deep_view().take(v@.len() as int) =~= v.deep_view());
}

fn is_header(line: &str) -> (r: bool)
    ensures
        r == libmol_header(line@),
{
    crate::readers::helpers::regex_is_match(LIBMOL_SHELL_PATTERN, line) || crate::readers::helpers::regex_is_match(
        LIBMOL_ECP_PATTERN,
        line,
    )
}

/// Gather the number values after line `i` (see [`libmol_data`]).
fn gather_values(lines: &[String], i: usize, nread: usize) -> (r: Result<(usize, Vec<String>), BseError>)
    requires
        i < lines@.len(),
        nread >= 1,
    ensures
        match libmol_data(lines.deep_view(), i + 1, nread as nat, Seq::empty()) {
            Some((j, raw)) => r matches Ok((a, b)) && a == j && b.deep_view() == raw && i + 1 <= a < lines@.len(),
            None => r matches Err(e) && e is ValueError,
        },
{
    let ghost lv = lines.deep_view();
    let n = lines.len();
    let mut raw: Vec<String> = Vec::new();
    let mut j: usize = i + 1;
    assert(raw.deep_view() =~= Seq::<Seq<char>>::empty());
    while raw.len() < nread
        invariant
            i + 1 <= j <= lines@.len(),
            n == lines@.len(),
            raw@.len() > 0 ==> j < lines@.len(),
            lv == lines.deep_view(),
            libmol_data(lv, i + 1, nread as nat, Seq::empty()) == libmol_data(lv, j as int, nread as nat, raw.deep_view()),
        decreases lines.len() - j,
    {
        if n - j <= 1 {
            return Err(BseError::ValueError("Ran out of lines reading libmol shell data".to_string()));
        }
        let next = j + 1;
        assert(lv[next as int] == lines@[next as int]@);
        let l = crate::text::trim_chars(chars_of(lines[next].as_str()).as_slice());
        if l.len() == 0 || l[0] == '!' {
            j = next;
        } else if is_header(lines[next].as_str()) {
            return Ok((next, raw));
        } else {
            let vals = values_of(crate::text::string_of(l.as_slice()).as_str());
            append_values(&mut raw, vals);
            j = next;
        }
    }
    Ok((j, raw))
}

proof fn lemma_range_total_mono(cr: Seq<(usize, usize)>, a: int, b: int)
    requires
        0 <= a <= b <= cr.len(),
        ranges_ordered(cr),
    ensures
        range_total(cr, a) + (b - a) <= range_total(cr, b),
    decreases b - a,
{
    if a < b {
        lemma_range_total_mono(cr, a, b - 1);
        assert(cr[b - 1].0 <= cr[b - 1].1);
    }
}

fn zero_values(r: &mut Vec<String>, n: usize)
    ensures
        final(r).deep_view() == old(r).deep_view() + zeros(n as int),
{
    let ghost r0 = r.deep_view();
    let mut k: usize = 0;
    while k < n
        invariant
            k <= n,
            r.deep_view() == r0 + zeros(k as int),
        decreases n - k,
    {
        let ghost before = r.deep_view();
        r.push("0.0".to_string());
        assert(r.deep_view() =~= r0 + zeros(k + 1)) by {
            assert(r.deep_view() =~= before.push("0.0"@));
        }
        k = k + 1;
    }
}

fn padded_range(raw: &Vec<String>, s: usize, e: usize, nprim: usize, off: usize) -> (r: Vec<String>)
    requires
        s <= e,
        off + (e - s + 1) <= raw@.len(),
    ensures
        r.deep_view() == zeros(s - 1) + raw.deep_view().subrange(off as int, off + (e - s + 1)) + zeros(nprim - e),
{
    let ghost rv = raw.deep_view();
    let mut r: Vec<String> = Vec::new();
    assert(r.deep_view() =~= Seq::<Seq<char>>::empty());
    if s > 1 {
        zero_values(&mut r, s - 1);
    }
    assert(r.deep_view() =~= zeros(s - 1));
    let ghost head = r.deep_view();
    let n = raw.len();
    assert(off + (e - s + 1) <= n);
    let end = off + (e - s + 1);
    let mut k: usize = off;
    while k < end
        invariant
            off <= k <= end,
            end == off + (e - s + 1),
            end <= raw@.len(),
            rv == raw.deep_view(),
            r.deep_view() == head + rv.subrange(off as int, k as int),
        decreases end - k,
    {
        let ghost before = r.deep_view();
        assert(rv[k as int] == raw@[k as int]@);
        r.push(raw[k].clone());
        assert(r.deep_view() =~= before.push(rv[k as int]));
        assert(r.deep_view() =~= head + rv.subrange(off as int, k + 1));
        k = k + 1;
    }
    let ghost mid = r.deep_view();
    if e < nprim {
        zero_values(&mut r, nprim - e);
    } else {
        assert(zeros(nprim - e) =~= Seq::<Seq<char>>::empty());
        assert(r.deep_view() =~= mid + zeros(nprim - e));
    }
    r
}

fn count_values(cr: &Vec<(usize, usize)>, nprim: usize) -> (r: Option<usize>)
    ensures
        r matches Some(n) ==> ranges_ordered(cr@) && n == nprim + range_total(cr@, cr@.len() as int),
        r is None ==> !ranges_ordered(cr@) || nprim + range_total(cr@, cr@.len() as int) > usize::MAX,
{
    let ghost crv = cr@;
    let mut nread: usize = nprim;
    let mut k: usize = 0;
    while k < cr.len()
        invariant
            k <= cr@.len(),
            crv == cr@,
            forall|t: int| 0 <= t < k ==> (#[trigger] crv[t]).0 <= crv[t].1,
            nread == nprim + range_total(crv, k as int),
        decreases cr.len() - k,
    {
        let (a, b) = cr[k];
        if b < a {
            return None;
        }
        if b - a >= usize::MAX - nread {
            proof {
                if ranges_ordered(crv) {
                    lemma_range_total_mono(crv, k + 1, crv.len() as int);
                }
            }
            return None;
        }
        nread = nread + (b - a + 1);
        k = k + 1;
    }
    Some(nread)
}

fn build_shell(raw: &Vec<String>, cr: &Vec<(usize, usize)>, nprim: usize, am: Vec<i32>) -> (sh: BseElectronShell)
    requires
        am@.len() == 1,
        ranges_ordered(cr@),
        nprim + range_total(cr@, cr@.len() as int) <= raw@.len(),
    ensures
        sh@ == shell_from_values(raw.deep_view(), cr@, nprim, am@),
{
    let ghost crv = cr@;
    let nread: usize = raw.len();
    proof {
        lemma_range_total_mono(crv, 0, crv.len() as int);
    }
    let ghost rv = raw.deep_view();
    let mut exponents: Vec<String> = Vec::new();
    let mut t: usize = 0;
    while t < nprim
        invariant
            t <= nprim <= nread <= raw@.len(),
            rv == raw.deep_view(),
            exponents.deep_view() == rv.take(t as int),
        decreases nprim - t,
    {
        let ghost before = exponents.deep_view();
        assert(rv[t as int] == raw@[t as int]@);
        exponents.push(raw[t].clone());
        assert(exponents.deep_view() =~= before.push(rv[t as int]));
        assert(exponents.deep_view() =~= rv.take(t + 1));
        t = t + 1;
    }
    let mut coefficients: Vec<Vec<String>> = Vec::new();
    let mut off: usize = nprim;
    let mut k: usize = 0;
    while k < cr.len()
        invariant
            k <= cr@.len(),
            crv == cr@,
            ranges_ordered(crv),
            nprim + range_total(crv, crv.len() as int) <= raw@.len(),
            nread == raw@.len(),
            rv == raw.deep_view(),
            off == nprim + range_total(crv, k as int),
            coefficients.deep_view() == Seq::new(k as nat, |q: int| range_coefficients(rv, crv, nprim, q)),
        decreases cr.len() - k,
    {
        let (a, b) = cr[k];
        proof {
            assert(crv[k as int].0 <= crv[k as int].1);
            lemma_range_total_mono(crv, k + 1, crv.len() as int);
        }
        let col = padded_range(&raw, a, b, nprim, off);
        let ghost before = coefficients.deep_view();
        coefficients.push(col);
        assert(coefficients.deep_view() =~= Seq::new((k + 1) as nat, |q: int| range_coefficients(rv, crv, nprim, q))) by {
            assert(coefficients.deep_view() =~= before.push(range_coefficients(rv, crv, nprim, k as int)));
        }
        off = off + (b - a + 1);
        k = k + 1;
    }
    let function_type = if am[0] < 2 {
        "gto".to_string()
    } else {
        "gto_spherical".to_string()
    };
    let sh = BseElectronShell { function_type, region: String::new(), angular_momentum: am, exponents, coefficients };
    proof {
        assert(sh@.region =~= Seq::<char>::empty());
    }
    sh
}

/// The shell opening at line `i`, given the fields of its header line
/// (`sym`, `am`, `nprim`, `ncontr`, `ranges`): the last line read, the
/// atomic number and the shell, whose exponents are the first `nprim`
/// values read and whose contractions take the values of their ranges in
/// turn, padded with zeros to all primitives. A `ValueError` when the
/// numbers of primitives or contractions are zero, the letter is not one
/// angular momentum, the symbol is unknown, a range ends before its start,
/// the numbers overflow, the lines run out, or the values run short.
pub fn libmol_shell_entry(d: &Vec<(String, String)>, lines: &[String], i: usize) -> (r: Result<(usize, i32, BseElectronShell), BseError>)
    requires
        i < lines@.len(),
    ensures
        match shell_entry_spec(crate::writers::write::pairs_view(d@), lines.deep_view(), i as int) {
            Some((j, z, sh)) => r matches Ok((a, b, c)) && a == j && b == z && c@ == sh && i < a < lines@.len(),
            None => r matches Err(e) && e is ValueError,
        },
{
    let ghost dv = crate::writers::write::pairs_view(d@);
    let nprim: usize = match field_of(d, "nprim") {
        Some(t) => match parse_usize(chars_of(t.as_str()).as_slice()) {
            Some(n) => n,
            None => 0,
        },
        None => 0,
    };
    let ncontr: usize = match field_of(d, "ncontr") {
        Some(t) => match parse_usize(chars_of(t.as_str()).as_slice()) {
            Some(n) => n,
            None => 0,
        },
        None => 0,
    };
    let am_text = match field_of(d, "am") {
        Some(t) => t,
        None => String::new(),
    };
    let am = match amchar_to_int(am_text.as_str(), false) {
        Some(a) => a,
        None => Vec::new(),
    };
    if nprim == 0 || ncontr == 0 || am.len() != 1 {
        return Err(BseError::ValueError("Invalid nprim, ncontr or angular momentum in libmol format".to_string()));
    }
    let sym = match field_of(d, "sym") {
        Some(t) => t,
        None => String::new(),
    };
    let z = match element_Z_from_sym(sym.as_str()) {
        Some(z) => z,
        None => {
            return Err(BseError::ValueError("Unknown element symbol".to_string()));
        },
    };
    let ranges_text = match field_of(d, "ranges") {
        Some(t) => t,
        None => String::new(),
    };
    let cr = ranges_of(ranges_text.as_str());
    let ghost crv = cr@;
    let nread = match count_values(&cr, nprim) {
        Some(n) => n,
        None => {
            return Err(BseError::ValueError("Invalid contraction ranges in libmol shell".to_string()));
        },
    };
    assert(ranges_ordered(crv));
    let (j, raw) = gather_values(lines, i, nread)?;
    if raw.len() < nread {
        return Err(BseError::ValueError("Not enough values in libmol shell".to_string()));
    }
    let sh = build_shell(&raw, &cr, nprim, am);
    Ok((j, z, sh))
}

/* #endregion */

/* #region potentials */

/// The first `n` complete triples `power exponent coefficient` among some
/// tokens: the powers that read as `i32`, and the exponents and
/// coefficients with `d` read as `e`.
pub open spec fn triples_spec(toks: Seq<Seq<char>>, n: int) -> (Seq<i32>, Seq<Seq<char>>, Seq<Seq<char>>)
    decreases n,
{
    if n <= 0 {
        (Seq::empty(), Seq::empty(), Seq::empty())
    } else {
        let (r, g, c) = triples_spec(toks, n - 1);
        let b = 3 * (n - 1);
        (
            match parse_i32_spec(toks[b]) {
                Some(x) => r.push(x),
                None => r,
            },
            g.push(replace_d_spec(toks[b + 1])),
            c.push(replace_d_spec(toks[b + 2])),
        )
    }
}

/// All complete triples among some tokens.
pub open spec fn all_triples(toks: Seq<Seq<char>>) -> (Seq<i32>, Seq<Seq<char>>, Seq<Seq<char>>) {
    triples_spec(toks, (toks.len() / 3) as int)
}

/// Two lists of terms, one after the other.
pub open spec fn cat_terms(
    a: (Seq<i32>, Seq<Seq<char>>, Seq<Seq<char>>),
    b: (Seq<i32>, Seq<Seq<char>>, Seq<Seq<char>>),
) -> (Seq<i32>, Seq<Seq<char>>, Seq<Seq<char>>) {
    (a.0 + b.0, a.1 + b.1, a.2 + b.2)
}

/// A line that continues a potential block: at least four tokens, the
/// first an `i32`, the second a float, the third a float once `d` is read
/// as `e`.
pub open spec fn continues_block(cp: Seq<Seq<char>>) -> bool {
    cp.len() >= 4 && parse_i32_spec(cp[0]) is Some && f64_syntax(cp[1]) && is_floating_spec(cp[2])
}

/// Reading continuation lines after line `j` until there are `nterms`
/// powers: the last line looked at and the terms. Blank lines are skipped;
/// a line that does not continue the block, or the end of the lines, stops
/// the reading.
pub open spec fn ecp_cont(
    lines: Seq<Seq<char>>,
    j: int,
    nterms: nat,
    acc: (Seq<i32>, Seq<Seq<char>>, Seq<Seq<char>>),
) -> (int, (Seq<i32>, Seq<Seq<char>>, Seq<Seq<char>>))
    decreases lines.len() - j,
{
    if acc.0.len() >= nterms {
        (j, acc)
    } else if j + 1 >= lines.len() || j + 1 < 0 {
        (j + 1, acc)
    } else {
        let cl = trim_spec(lines[j + 1]);
        if cl.len() == 0 {
            ecp_cont(lines, j + 1, nterms, acc)
        } else if continues_block(ws_tokens(cl)) {
            ecp_cont(lines, j + 1, nterms, cat_terms(acc, all_triples(ws_tokens(cl))))
        } else {
            (j + 1, acc)
        }
    }
}

/// The angular momentum of block `t` of a potential: `lmax` first, then 0,
/// 1, and so on.
pub open spec fn block_am(lmax: i32, t: int) -> i32 {
    if t == 0 {
        lmax
    } else {
        (t - 1) as i32
    }
}

/// The number of blocks of a potential: `lmax + 1`, or one.
pub open spec fn block_count(lmax: i32) -> int {
    if lmax > 0 {
        lmax + 1
    } else {
        1
    }
}

/// The potential read from a block of angular momentum `am`.
pub open spec fn block_potential(am: i32, terms: (Seq<i32>, Seq<Seq<char>>, Seq<Seq<char>>)) -> PotentialV {
    PotentialV {
        am: seq![am],
        coefficients: seq![terms.2],
        ecp_type: "scalar_ecp"@,
        r_exponents: terms.0,
        gaussian_exponents: terms.1,
    }
}

/// Reading the blocks of a potential of element `z`, from block `t` on,
/// after line `j`: the last line looked at and the element map. A block
/// opens with the number of terms and its first triples, then continuation
/// lines; a line that does not start with a number opens no block. The
/// reading stops at the end of the lines (the last line looked at is then
/// given as the number of lines).
pub open spec fn ecp_blocks(
    lines: Seq<Seq<char>>,
    lmax: i32,
    t: int,
    j: int,
    z: i32,
    w: Seq<(i32, ElementV)>,
) -> (int, Seq<(i32, ElementV)>)
    decreases block_count(lmax) - t,
{
    if t >= block_count(lmax) {
        (j, w)
    } else if j + 1 >= lines.len() || j + 1 < 0 {
        (lines.len() as int, w)
    } else {
        let parts = ws_tokens(trim_spec(lines[j + 1]));
        if parts.len() == 0 || parse_usize_spec(parts[0]) is None {
            ecp_blocks(lines, lmax, t + 1, j + 1, z, w)
        } else {
            let (j2, terms) = ecp_cont(lines, j + 1, parse_usize_spec(parts[0])->0 as nat, all_triples(parts.skip(1)));
            let pot = block_potential(block_am(lmax, t), terms);
            ecp_blocks(lines, lmax, t + 1, j2, z, put_entry(w, z, push_potential(entry_of(w, z), pot)))
        }
    }
}

/// The potential opening at line `i`, given the fields of its header
/// (`sym`, `ncore`, `lmax`): the last line looked at and the element map,
/// with the core electrons set and the potentials of the blocks added; or
/// `None` when the symbol is unknown.
pub open spec fn ecp_entry_spec(d: Seq<(Seq<char>, Seq<char>)>, lines: Seq<Seq<char>>, i: int, w: Seq<(i32, ElementV)>) -> Option<(int, Seq<(i32, ElementV)>)> {
    let lmax = field_i32(d, "lmax"@);
    match sym_search(lowercase_of(field_text(d, "sym"@)), 1) {
        None => None,
        Some(z) => {
            let w1 = put_entry(w, z, with_core(entry_of(w, z), field_i32(d, "ncore"@)));
            Some(ecp_blocks(lines, lmax, 0, i + 1, z, w1))
        },
    }
}

fn triples_of(toks: &Vec<String>, from: usize) -> (r: (Vec<i32>, Vec<String>, Vec<String>))
    requires
        from <= toks@.len(),
    ensures
        (r.0@, r.1.deep_view(), r.2.deep_view()) == all_triples(toks.deep_view().skip(from as int)),
{
    let ghost tv = toks.deep_view().skip(from as int);
    let n = toks.len();
    let count = (n - from) / 3;
    assert(count == tv.len() / 3);
    let mut rs: Vec<i32> = Vec::new();
    let mut gs: Vec<String> = Vec::new();
    let mut cs: Vec<String> = Vec::new();
    let mut c: usize = 0;
    while c < count
        invariant
            c <= count,
            count == tv.len() / 3,
            n == toks@.len(),
            from <= n,
            tv == toks.deep_view().skip(from as int),
            (rs@, gs.deep_view(), cs.deep_view()) == triples_spec(tv, c as int),
        decreases count - c,
    {
        assert(3 * c + 2 < tv.len()) by (nonlinear_arith)
            requires
                c < count,
                count == tv.len() / 3,
        ;
        let b = from + 3 * c;
        assert(tv[3 * c] == toks@[b as int]@);
        assert(tv[3 * c + 1] == toks@[b + 1]@);
        assert(tv[3 * c + 2] == toks@[b + 2]@);
        let ghost g0 = gs.deep_view();
        let ghost c0 = cs.deep_view();
        match parse_i32(chars_of(toks[b].as_str()).as_slice()) {
            Some(x) => {
                rs.push(x);
            },
            None => {},
        }
        gs.push(replace_d(toks[b + 1].as_str()));
        cs.push(replace_d(toks[b + 2].as_str()));
        assert(gs.deep_view() =~= g0.push(replace_d_spec(tv[3 * c + 1])));
        assert(cs.deep_view() =~= c0.push(replace_d_spec(tv[3 * c + 2])));
        c = c + 1;
    }
    (rs, gs, cs)
}

/// Read continuation lines after line `j` (see [`ecp_cont`]).
fn read_continuation(
    lines: &[String],
    j: usize,
    nterms: usize,
    terms: &mut (Vec<i32>, Vec<String>, Vec<String>),
) -> (r: usize)
    requires
        j < lines@.len(),
    ensures
        (r as int, (final(terms).0@, final(terms).1.deep_view(), final(terms).2.deep_view())) == ecp_cont(
            lines.deep_view(),
            j as int,
            nterms as nat,
            (old(terms).0@, old(terms).1.deep_view(), old(terms).2.deep_view()),
        ),
        r <= lines@.len(),
{
    let ghost lv = lines.deep_view();
    let ghost target = ecp_cont(lv, j as int, nterms as nat, (terms.0@, terms.1.deep_view(), terms.2.deep_view()));
    let n = lines.len();
    let mut k: usize = j;
    while terms.0.len() < nterms
        invariant
            k < n,
            n == lines@.len(),
            lv == lines.deep_view(),
            target == ecp_cont(lv, j as int, nterms as nat, (old(terms).0@, old(terms).1.deep_view(), old(terms).2.deep_view())),
            target == ecp_cont(lv, k as int, nterms as nat, (terms.0@, terms.1.deep_view(), terms.2.deep_view())),
        decreases n - k,
    {
        if n - k <= 1 {
            return k + 1;
        }
        let next = k + 1;
        assert(lv[next as int] == lines@[next as int]@);
        let cl = crate::text::trim_chars(chars_of(lines[next].as_str()).as_slice());
        if cl.len() == 0 {
            k = next;
        } else {
            let cp = split_ws(crate::text::string_of(cl.as_slice()).as_str());
            let ghost cpv = cp.deep_view();
            let cont = cp.len() >= 4 && {
                assert(cpv[0] == cp@[0]@ && cpv[1] == cp@[1]@ && cpv[2] == cp@[2]@);
                parse_i32(chars_of(cp[0].as_str()).as_slice()).is_some() && parses_as_f64(cp[1].as_str())
                    && is_floating(cp[2].as_str())
            };
            if !cont {
                return next;
            }
            let (mut rs, mut gs, mut cs) = triples_of(&cp, 0);
            assert(cpv.skip(0) =~= cpv);
            let ghost before = (terms.0@, terms.1.deep_view(), terms.2.deep_view());
            let ghost add = (rs@, gs.deep_view(), cs.deep_view());
            terms.0.append(&mut rs);
            append_values(&mut terms.1, gs);
            append_values(&mut terms.2, cs);
            assert((terms.0@, terms.1.deep_view(), terms.2.deep_view()) == cat_terms(before, add));
            k = next;
        }
    }
    k
}

proof fn lemma_ecp_cont_bounds(lines: Seq<Seq<char>>, j: int, nterms: nat, acc: (Seq<i32>, Seq<Seq<char>>, Seq<Seq<char>>))
    requires
        0 <= j < lines.len(),
    ensures
        j <= ecp_cont(lines, j, nterms, acc).0 <= lines.len(),
    decreases lines.len() - j,
{
    if acc.0.len() < nterms && j + 1 < lines.len() {
        let cl = trim_spec(lines[j + 1]);
        if cl.len() == 0 {
            lemma_ecp_cont_bounds(lines, j + 1, nterms, acc);
        } else if continues_block(ws_tokens(cl)) {
            lemma_ecp_cont_bounds(lines, j + 1, nterms, cat_terms(acc, all_triples(ws_tokens(cl))));
        }
    }
}

proof fn lemma_ecp_blocks_bounds(lines: Seq<Seq<char>>, lmax: i32, t: int, j: int, z: i32, w: Seq<(i32, ElementV)>)
    requires
        0 <= j <= lines.len(),
    ensures
        j <= ecp_blocks(lines, lmax, t, j, z, w).0 <= lines.len(),
    decreases block_count(lmax) - t,
{
    if t < block_count(lmax) && j + 1 < lines.len() {
        let parts = ws_tokens(trim_spec(lines[j + 1]));
        if parts.len() == 0 || parse_usize_spec(parts[0]) is None {
            lemma_ecp_blocks_bounds(lines, lmax, t + 1, j + 1, z, w);
        } else {
            let (j2, terms) = ecp_cont(lines, j + 1, parse_usize_spec(parts[0])->0 as nat, all_triples(parts.skip(1)));
            lemma_ecp_cont_bounds(lines, j + 1, parse_usize_spec(parts[0])->0 as nat, all_triples(parts.skip(1)));
            let pot = block_potential(block_am(lmax, t), terms);
            lemma_ecp_blocks_bounds(lines, lmax, t + 1, j2, z, put_entry(w, z, push_potential(entry_of(w, z), pot)));
        }
    }
}

/// The potential opening at line `i`, given the fields of its header line
/// (`sym`, `ncore`, `lmax`): the core electrons of the element are set, and
/// for each block (angular momentum `lmax` first, then 0, 1, ...) that
/// opens with a number of terms, a potential with its terms is added. The
/// last line looked at, or a `ValueError` when the symbol is unknown.
pub fn libmol_ecp_entry(
    d: &Vec<(String, String)>,
    lines: &[String],
    i: usize,
    elements: &mut Vec<(i32, BseBasisElement)>,
) -> (r: Result<usize, BseError>)
    requires
        i < lines@.len(),
        keys_increasing(old(elements)@),
    ensures
        match ecp_entry_spec(crate::writers::write::pairs_view(d@), lines.deep_view(), i as int, elements_view(old(elements)@)) {
            Some((j, w)) => r matches Ok(a) && a == j && elements_view(final(elements)@) == w && keys_increasing(final(elements)@)
                && i < a <= lines@.len(),
            None => r matches Err(e) && e is ValueError,
        },
{
    let ghost dv = crate::writers::write::pairs_view(d@);
    let ghost lv = lines.deep_view();
    let sym = match field_of(d, "sym") {
        Some(t) => t,
        None => String::new(),
    };
    let ncore: i32 = match field_of(d, "ncore") {
        Some(t) => match parse_i32(chars_of(t.as_str()).as_slice()) {
            Some(n) => n,
            None => 0,
        },
        None => 0,
    };
    let lmax: i32 = match field_of(d, "lmax") {
        Some(t) => match parse_i32(chars_of(t.as_str()).as_slice()) {
            Some(n) => n,
            None => 0,
        },
        None => 0,
    };
    let z = match element_Z_from_sym(sym.as_str()) {
        Some(z) => z,
        None => {
            return Err(BseError::ValueError("Unknown element symbol".to_string()));
        },
    };
    set_core(elements, z, ncore);
    let ghost w1 = elements_view(elements@);
    let ghost target = ecp_blocks(lv, lmax, 0, i + 1, z, w1);
    proof {
        lemma_ecp_blocks_bounds(lv, lmax, 0, i + 1, z, w1);
        assert(ecp_entry_spec(dv, lv, i as int, elements_view(old(elements)@)) == Some(target));
    }
    let n = lines.len();
    let count: u64 = if lmax > 0 {
        lmax as u64 + 1
    } else {
        1
    };
    let mut t: u64 = 0;
    let mut j: usize = i + 1;
    while t < count
        invariant
            count as int == block_count(lmax),
            t <= count,
            i + 1 <= j <= n,
            n == lines@.len(),
            lv == lines.deep_view(),
            keys_increasing(elements@),
            dv == crate::writers::write::pairs_view(d@),
            ecp_entry_spec(dv, lv, i as int, elements_view(old(elements)@)) == Some(target),
            target == ecp_blocks(lv, lmax, t as int, j as int, z, elements_view(elements@)),
        decreases count - t,
    {
        if n - j <= 1 {
            return Ok(n);
        }
        let next = j + 1;
        assert(lv[next as int] == lines@[next as int]@);
        let l = crate::text::trim_chars(chars_of(lines[next].as_str()).as_slice());
        let parts = split_ws(crate::text::string_of(l.as_slice()).as_str());
        let ghost pv = parts.deep_view();
        let nterms = if parts.len() == 0 {
            None
        } else {
            assert(pv[0] == parts@[0]@);
            parse_usize(chars_of(parts[0].as_str()).as_slice())
        };
        match nterms {
            None => {
                j = next;
            },
            Some(nt) => {
                let mut terms = triples_of(&parts, 1);
                let j2 = read_continuation(lines, next, nt, &mut terms);
                let am: i32 = if t == 0 {
                    lmax
                } else {
                    (t - 1) as i32
                };
                let pot = BseEcpPotential {
                    angular_momentum: vec![am],
                    coefficients: vec![terms.2],
                    ecp_type: "scalar_ecp".to_string(),
                    r_exponents: terms.0,
                    gaussian_exponents: terms.1,
                };
                proof {
                    lemma_ecp_cont_bounds(lv, next as int, nt as nat, all_triples(pv.skip(1)));
                    assert(pot@.am =~= seq![block_am(lmax, t as int)]);
                    assert(pot@.coefficients =~= seq![pot@.coefficients[0]]);
                }
                add_potential(elements, z, pot);
                j = j2;
            },
        }
        t = t + 1;
    }
    Ok(j)
}

/* #endregion */

/* #region reading */

/// The element map after the shell opening at line `i`, with the last line
/// read; `None` when the line does not match or the shell does not parse.
#[verifier::opaque]
pub open spec fn shell_step(lines: Seq<Seq<char>>, i: int, w: Seq<(i32, ElementV)>) -> Option<(int, Seq<(i32, ElementV)>)> {
    match header_fields(LIBMOL_SHELL_PATTERN@, lines[i]) {
        None => None,
        Some(d) => match shell_entry_spec(d, lines, i) {
            Some((j, z, sh)) => Some((j, put_entry(w, z, push_shell(entry_of(w, z), sh)))),
            None => None,
        },
    }
}

/// The element map after the potential opening at line `i`, with the last
/// line looked at; `None` when the line does not match or its symbol is
/// unknown.
#[verifier::opaque]
pub open spec fn ecp_step(lines: Seq<Seq<char>>, i: int, w: Seq<(i32, ElementV)>) -> Option<(int, Seq<(i32, ElementV)>)> {
    match header_fields(LIBMOL_ECP_PATTERN@, lines[i]) {
        None => None,
        Some(d) => ecp_entry_spec(d, lines, i, w),
    }
}

/// Reading the lines from line `i` on: each line that opens a shell or a
/// potential is read with what follows it, and reading goes on after the
/// last line that took; other lines are passed over.
pub open spec fn libmol_scan(lines: Seq<Seq<char>>, i: int, w: Seq<(i32, ElementV)>) -> Option<Seq<(i32, ElementV)>>
    decreases lines.len() - i,
{
    if i < 0 || i >= lines.len() {
        Some(w)
    } else {
        let step = if regex_captures_of(LIBMOL_SHELL_PATTERN@, lines[i]) is Some {
            shell_step(lines, i, w)
        } else if regex_captures_of(LIBMOL_ECP_PATTERN@, lines[i]) is Some {
            ecp_step(lines, i, w)
        } else {
            Some((i, w))
        };
        match step {
            None => None,
            Some((j, w2)) => if j < i || j + 1 >= lines.len() {
                if j < i {
                    None
                } else {
                    Some(w2)
                }
            } else {
                libmol_scan(lines, j + 1, w2)
            },
        }
    }
}

/// What a libmol text holds: its lines trimmed, without comments (`!`) and
/// blank lines, read from the first; `None` when a shell or potential does
/// not parse.
pub open spec fn libmol_spec(text: Seq<char>) -> Option<Seq<(i32, ElementV)>> {
    libmol_scan(prune_lines_spec(text_lines(text), "!"@, true, true), 0, Seq::empty())
}

proof fn lemma_scan_none(lines: Seq<Seq<char>>, i: int, w: Seq<(i32, ElementV)>)
    requires
        0 <= i < lines.len(),
        (if regex_captures_of(LIBMOL_SHELL_PATTERN@, lines[i]) is Some {
            shell_step(lines, i, w)
        } else {
            ecp_step(lines, i, w)
        }) is None,
        regex_captures_of(LIBMOL_SHELL_PATTERN@, lines[i]) is Some || regex_captures_of(LIBMOL_ECP_PATTERN@, lines[i]) is Some,
    ensures
        libmol_scan(lines, i, w) is None,
{
}

fn read_shell(lines: &[String], i: usize, elements: &mut Vec<(i32, BseBasisElement)>) -> (r: Result<usize, BseError>)
    requires
        i < lines@.len(),
        keys_increasing(old(elements)@),
    ensures
        match shell_step(lines.deep_view(), i as int, elements_view(old(elements)@)) {
            Some((j, w)) => r matches Ok(a) && a == j && elements_view(final(elements)@) == w && keys_increasing(final(elements)@)
                && i < a <= lines@.len(),
            None => r matches Err(e) && e is ValueError,
        },
{
    reveal(shell_step);
    assert(lines.deep_view()[i as int] == lines@[i as int]@);
    let d = crate::readers::helpers::parse_line_regex_dict(
        LIBMOL_SHELL_PATTERN,
        lines[i].as_str(),
        "element am ... : nprim ncontr ranges",
    )?;
    let (j, z, sh) = libmol_shell_entry(&d, lines, i)?;
    add_shell(elements, z, sh);
    Ok(j)
}

fn read_ecp(lines: &[String], i: usize, elements: &mut Vec<(i32, BseBasisElement)>) -> (r: Result<usize, BseError>)
    requires
        i < lines@.len(),
        keys_increasing(old(elements)@),
    ensures
        match ecp_step(lines.deep_view(), i as int, elements_view(old(elements)@)) {
            Some((j, w)) => r matches Ok(a) && a == j && elements_view(final(elements)@) == w && keys_increasing(final(elements)@)
                && i < a <= lines@.len(),
            None => r matches Err(e) && e is ValueError,
        },
{
    reveal(ecp_step);
    assert(lines.deep_view()[i as int] == lines@[i as int]@);
    let d = crate::readers::helpers::parse_line_regex_dict(
        LIBMOL_ECP_PATTERN,
        lines[i].as_str(),
        "symbol ECP ... : ncore lmax lmaxso ndata",
    )?;
    libmol_ecp_entry(&d, lines, i, elements)
}

/// Read a basis set in the Molpro system library format: its shells and
/// potentials, each added at the end of its element's shells or
/// potentials, with the core electrons of each potential's element. A
/// `ValueError` comes when a shell or potential does not parse (see
/// [`libmol_spec`]).
pub fn read_libmol(basis_str: &str) -> (r: Result<BseBasisMinimal, BseError>)
    ensures
        match libmol_spec(basis_str@) {
            Some(elems) => r matches Ok(b) && elements_view(b.elements@) == elems && keys_increasing(b.elements@)
                && b.function_types.deep_view() == sort_distinct_strs(shell_types(elems))
                && b.name@ == reader_name(None) && b.description@ == "no_description"@
                && b.molssi_bse_schema.schema_type@ == "minimal"@ && b.molssi_bse_schema.schema_version@ == "0.1"@,
            None => r matches Err(e) && e is ValueError,
        },
{
    let raw = trimmed_lines(basis_str);
    let lines = prune_lines(raw.as_slice(), "!", true, true);
    let ghost lv = lines.deep_view();
    let n = lines.len();
    let mut elements: Vec<(i32, BseBasisElement)> = Vec::new();
    proof {
        assert(elements_view(elements@) =~= Seq::<(i32, ElementV)>::empty());
    }
    let mut i: usize = 0;
    while i < n
        invariant_except_break
            i <= n,
            n == lines@.len(),
            lv == lines.deep_view(),
            keys_increasing(elements@),
            libmol_spec(basis_str@) == libmol_scan(lv, i as int, elements_view(elements@)),
        ensures
            keys_increasing(elements@),
            libmol_spec(basis_str@) == Some(elements_view(elements@)),
        decreases n - i,
    {
        assert(lv[i as int] == lines@[i as int]@);
        let ghost w = elements_view(elements@);
        let j: usize;
        if crate::readers::helpers::regex_is_match(LIBMOL_SHELL_PATTERN, lines[i].as_str()) {
            match read_shell(lines.as_slice(), i, &mut elements) {
                Ok(a) => {
                    j = a;
                },
                Err(e) => {
                    proof {
                        lemma_scan_none(lv, i as int, w);
                    }
                    return Err(e);
                },
            }
        } else if crate::readers::helpers::regex_is_match(LIBMOL_ECP_PATTERN, lines[i].as_str()) {
            match read_ecp(lines.as_slice(), i, &mut elements) {
                Ok(a) => {
                    j = a;
                },
                Err(e) => {
                    proof {
                        lemma_scan_none(lv, i as int, w);
                    }
                    return Err(e);
                },
            }
        } else {
            j = i;
        }
        if n - j <= 1 {
            assert(libmol_scan(lv, i as int, w) == Some(elements_view(elements@)));
            break;
        }
        assert(libmol_scan(lv, i as int, w) == libmol_scan(lv, j + 1, elements_view(elements@)));
        i = j + 1;
    }
    Ok(reader_basis(elements, None))
}

/* #endregion */

} // verus!
