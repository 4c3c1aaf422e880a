//! Reading basis sets in the Dalton format.
//!
//! An element opens with `a Z` or with a comment `! name (...) -> [...]`;
//! its shells follow in increasing angular momentum, each a line
//! `nprim ncontr` followed by the primitives (a primitive may be split over
//! several lines). Comments start with `!`.
use crate::error::BseError;
use crate::fields::{BseBasisElement, BseBasisMinimal, BseElectronShell, ElementV, ShellV, elements_view, keys_increasing};
use crate::compose::shell_types;
use crate::lut::{all_element_names, element_Z_from_name, function_type_from_am, function_type_spec, name_search, name_spec, lower_ascii};
use crate::readers::helpers::{
    add_shell, entry_of, groups_text, lines_from, parse_line_regex, parse_primitive_matrix, partition_lines, partition_spec,
    primitive_matrix_spec, prune_lines, prune_lines_spec, push_shell, put_entry, reader_basis, reader_name, regex_captures_of,
    regex_is_match, text_lines, trimmed_lines,
};
use crate::text::{chars_of, has_prefix, replace_all, replace_text, join_spec, lowercase_of, parse_i32, parse_i32_spec, parse_usize, parse_usize_spec, sort_distinct_strs, to_lowercase};
use vstd::prelude::*;

verus! {

/// A shell line: an optional `H`, the number of primitives and of
/// contractions, an optional `0`.
pub const DALTON_SHELL_PATTERN: &'static str = r"^(?:[hH]\s+)?(\d+)\s+(\d+)(?: +0)?$";

/// A comment that opens an element: `! name (...) -> [...]`.
pub const DALTON_ELEMENT_PATTERN: &'static str = r"^!\s+([a-z]+)\s+\(.*\)\s*->\s*\[.*\]$";

/// The atomic number of an `a Z` line.
pub const DALTON_A_PATTERN: &'static str = r"a +(\d+) *$";

/* #region specification */

/// A lowercase element name the reader knows (with the spelling
/// `wolffram`).
pub open spec fn known_name(name: Seq<char>) -> bool {
    name == "wolffram"@ || exists|z: int| 1 <= z <= 118 && name_spec(z) == name
}

/// Whether a line opens an element: an `a ` line (in lowercase), or an
/// element comment naming a known element; an element comment naming an
/// unknown one is an error.
pub open spec fn begins_element(line: Seq<char>) -> Result<bool, ()> {
    if line.len() == 0 {
        Ok(false)
    } else if has_prefix(lowercase_of(line), "a "@) {
        Ok(true)
    } else {
        match regex_captures_of(DALTON_ELEMENT_PATTERN@, line) {
            None => Ok(false),
            Some(caps) => {
                let g = groups_text(caps);
                let name = if g.len() > 0 {
                    g[0]
                } else {
                    Seq::empty()
                };
                if known_name(name) {
                    Ok(true)
                } else {
                    Err(())
                }
            },
        }
    }
}

/// `l` is `ecp` in any ASCII case.
pub open spec fn is_ecp_line(l: Seq<char>) -> bool {
    l.map_values(|c: char| lower_ascii(c)) == "ecp"@
}

/// The lines from the first that opens an element or is `ecp` on.
pub open spec fn dalton_start(lines: Seq<Seq<char>>) -> Result<Seq<Seq<char>>, ()>
    decreases lines.len(),
{
    if lines.len() == 0 {
        Ok(lines)
    } else {
        match begins_element(lines[0]) {
            Err(()) => Err(()),
            Ok(true) => Ok(lines),
            Ok(false) => if is_ecp_line(lines[0]) {
                Ok(lines)
            } else {
                dalton_start(lines.drop_first())
            },
        }
    }
}

/// A line with the spelling `PHOSPHOROUS` corrected.
pub open spec fn fix_spelling(l: Seq<char>) -> Seq<char> {
    replace_all(l, "PHOSPHOROUS"@, "PHOSPHORUS"@)
}

/// The number of `!` lines at the start.
pub open spec fn lead_comments(lines: Seq<Seq<char>>) -> nat
    decreases lines.len(),
{
    if lines.len() > 0 && lines[0].len() > 0 && lines[0][0] == '!' {
        1 + lead_comments(lines.drop_first())
    } else {
        0
    }
}

/// The leading comment lines are among the lines.
pub proof fn lemma_lead_comments(lines: Seq<Seq<char>>)
    ensures
        lead_comments(lines) <= lines.len(),
    decreases lines.len(),
{
    if lines.len() > 0 && lines[0].len() > 0 && lines[0][0] == '!' {
        lemma_lead_comments(lines.drop_first());
    }
}

/// The lines with the comments that follow each element line dropped.
pub open spec fn drop_element_comments(lines: Seq<Seq<char>>) -> Result<Seq<Seq<char>>, ()>
    decreases lines.len(),
{
    if lines.len() == 0 {
        Ok(lines)
    } else {
        match begins_element(lines[0]) {
            Err(()) => Err(()),
            Ok(b) => {
                let rest = lines.drop_first();
                proof {
                    lemma_lead_comments(rest);
                }
                let rest2 = if b {
                    rest.skip(lead_comments(rest) as int)
                } else {
                    rest
                };
                match drop_element_comments(rest2) {
                    Err(()) => Err(()),
                    Ok(t) => Ok(seq![lines[0]] + t),
                }
            },
        }
    }
}

/// Which lines open an element.
pub open spec fn element_flags(lines: Seq<Seq<char>>) -> Seq<bool> {
    Seq::new(lines.len(), |i: int| begins_element(lines[i]) == Ok::<bool, ()>(true))
}

/// Which lines open a shell.
pub open spec fn dalton_shell_flags(lines: Seq<Seq<char>>) -> Seq<bool> {
    Seq::new(lines.len(), |i: int| regex_captures_of(DALTON_SHELL_PATTERN@, lines[i]) is Some)
}

/// The primitive lines of a shell, a primitive split over several lines
/// joined into one: when the lines are a multiple of the primitives, each
/// run of that many lines is joined with spaces.
pub open spec fn join_split(bas: Seq<Seq<char>>, nprim: usize) -> Seq<Seq<char>> {
    if nprim > 0 && bas.len() > 0 && (bas.len() as int) % (nprim as int) == 0 {
        let splits = (bas.len() as int) / (nprim as int);
        Seq::new(nprim as nat, |i: int| join_spec(bas.subrange(splits * i, splits * i + splits), " "@))
    } else {
        bas
    }
}

/// Shell `k` of an element (of angular momentum `k`) from its block.
pub open spec fn dalton_shell(b: Seq<Seq<char>>, k: int) -> Option<ShellV> {
    match regex_captures_of(DALTON_SHELL_PATTERN@, b[0]) {
        None => None,
        Some(caps) => {
            let g = groups_text(caps);
            if g.len() < 2 {
                None
            } else {
                match (parse_usize_spec(g[0]), parse_usize_spec(g[1])) {
                    (Some(nprim), Some(ngen)) => match primitive_matrix_spec(join_split(b.skip(1), nprim), Some(nprim), Some(ngen)) {
                        Some((e, c)) => Some(
                            ShellV {
                                function_type: function_type_spec(seq![k as i32], "gto"@, "spherical"@),
                                region: Seq::empty(),
                                am: seq![k as i32],
                                exponents: e,
                                coefficients: c,
                            },
                        ),
                        None => None,
                    },
                    _ => None,
                }
            }
        },
    }
}

/// The element map after the first `n` shell blocks of element `z`.
pub open spec fn dalton_shells(blocks: Seq<Seq<Seq<char>>>, z: i32, v: Seq<(i32, ElementV)>, n: int) -> Option<Seq<(i32, ElementV)>>
    decreases n,
{
    if n <= 0 {
        Some(v)
    } else {
        match dalton_shells(blocks, z, v, n - 1) {
            Some(w) => match dalton_shell(blocks[n - 1], n - 1) {
                Some(sh) => Some(put_entry(w, z, push_shell(entry_of(w, z), sh))),
                None => None,
            },
            None => None,
        }
    }
}

/// The atomic number an element block's first line gives: the number of
/// an `a Z` line, or the element an element comment names.
pub open spec fn block_z(head: Seq<char>) -> Option<i32> {
    let h = lowercase_of(head);
    if has_prefix(h, "a "@) {
        match regex_captures_of(DALTON_A_PATTERN@, h) {
            Some(caps) => {
                let g = groups_text(caps);
                if g.len() < 1 {
                    None
                } else {
                    parse_i32_spec(g[0])
                }
            },
            None => None,
        }
    } else if has_prefix(h, "!"@) {
        match regex_captures_of(DALTON_ELEMENT_PATTERN@, h) {
            Some(caps) => {
                let g = groups_text(caps);
                if g.len() < 1 {
                    None
                } else {
                    name_search(lowercase_of(g[0]), 1)
                }
            },
            None => None,
        }
    } else {
        None
    }
}

/// The element map after one element block: its number, then its lines
/// without comments cut into shells.
pub open spec fn dalton_block(b: Seq<Seq<char>>, w: Seq<(i32, ElementV)>) -> Option<Seq<(i32, ElementV)>> {
    match block_z(b[0]) {
        None => None,
        Some(z) => {
            let el = prune_lines_spec(b.skip(1), "!"@, true, true);
            match partition_spec(el, dalton_shell_flags(el), 0, None, None, None, 1, true) {
                None => None,
                Some(shells) => dalton_shells(shells, z, w, shells.len() as int),
            }
        },
    }
}

/// The element map after the first `n` element blocks.
pub open spec fn dalton_blocks(blocks: Seq<Seq<Seq<char>>>, v: Seq<(i32, ElementV)>, n: int) -> Option<Seq<(i32, ElementV)>>
    decreases n,
{
    if n <= 0 {
        Some(v)
    } else {
        match dalton_blocks(blocks, v, n - 1) {
            Some(w) => dalton_block(blocks[n - 1], w),
            None => None,
        }
    }
}

/// The element map after a section of electron shells: spellings
/// corrected, the comments after element lines dropped, then `$` lines
/// and blank lines; cut into element blocks of at least three lines.
pub open spec fn dalton_electron(s: Seq<Seq<char>>, w: Seq<(i32, ElementV)>) -> Option<Seq<(i32, ElementV)>> {
    match drop_element_comments(s.map_values(|l: Seq<char>| fix_spelling(l))) {
        Err(()) => None,
        Ok(nl) => {
            let lines = prune_lines_spec(nl, "$"@, true, true);
            match partition_spec(lines, element_flags(lines), 0, None, None, None, 3, true) {
                None => None,
                Some(blocks) => dalton_blocks(blocks, w, blocks.len() as int),
            }
        },
    }
}

/// Which lines are `ecp`.
pub open spec fn ecp_flags(lines: Seq<Seq<char>>) -> Seq<bool> {
    Seq::new(lines.len(), |i: int| is_ecp_line(lines[i]))
}

/// The outcome of reading a section: the element map, or an error that
/// says the section cannot be read in this format (`true`) or is wrong
/// (`false`).
pub open spec fn dalton_sections(secs: Seq<Seq<Seq<char>>>, n: int) -> Result<Seq<(i32, ElementV)>, bool>
    decreases n,
{
    if n <= 0 {
        Ok(Seq::empty())
    } else {
        match dalton_sections(secs, n - 1) {
            Ok(w) => if is_ecp_line(secs[n - 1][0]) {
                Err(true)
            } else {
                match dalton_electron(secs[n - 1], w) {
                    Some(w2) => Ok(w2),
                    None => Err(false),
                }
            },
            Err(b) => Err(b),
        }
    }
}

/// What a Dalton text holds: its lines trimmed, without blank lines, from
/// the first that opens an element or is `ecp`, cut into one or two
/// sections at the `ecp` lines. The element map, or an error: `true` for
/// a potential section (which the format does not hold), `false` when the
/// text does not parse.
pub open spec fn dalton_spec(text: Seq<char>) -> Result<Seq<(i32, ElementV)>, bool> {
    match dalton_start(prune_lines_spec(text_lines(text), Seq::empty(), true, true)) {
        Err(()) => Err(false),
        Ok(lines) => if lines.len() == 0 {
            Ok(Seq::empty())
        } else {
            match partition_spec(lines, ecp_flags(lines), 0, None, Some(1), Some(2), 1, true) {
                None => Err(false),
                Some(secs) => dalton_sections(secs, secs.len() as int),
            }
        },
    }
}

/* #endregion */

/* #region reading lines */

fn is_known_name(name: &str) -> (r: bool)
    ensures
        r == known_name(name@),
{
    let c = chars_of(name);
    if crate::text::chars_eq(c.as_slice(), chars_of("wolffram").as_slice()) {
        return true;
    }
    let names = all_element_names();
    let mut k: usize = 0;
    while k < names.len()
        invariant
            k <= names@.len(),
            names@.len() == 118,
            c@ == name@,
            c@ != "wolffram"@,
            forall|i: int| 0 <= i < 118 ==> #[trigger] names@[i]@ == name_spec(i + 1),
            forall|z: int| 1 <= z <= k ==> name_spec(z) != name@,
        decreases names.len() - k,
    {
        assert(names@[k as int]@ == name_spec(k + 1));
        if crate::text::chars_eq(chars_of(names[k].as_str()).as_slice(), c.as_slice()) {
            assert(name_spec(k + 1) == name@);
            return true;
        }
        k = k + 1;
    }
    false
}

/// Whether a line opens an element (see [`begins_element`]); a
/// `ValueError` for an element comment that names an unknown element.
pub fn line_begins_element(line: &str) -> (r: Result<bool, BseError>)
    ensures
        match begins_element(line@) {
            Ok(b) => r == Ok::<bool, BseError>(b),
            Err(()) => r matches Err(e) && e is ValueError,
        },
{
    let c = chars_of(line);
    if c.len() == 0 {
        return Ok(false);
    }
    let low = chars_of(to_lowercase(line).as_str());
    if crate::text::starts_with(low.as_slice(), chars_of("a ").as_slice()) {
        return Ok(true);
    }
    if !regex_is_match(DALTON_ELEMENT_PATTERN, line) {
        return Ok(false);
    }
    let g = parse_line_regex(DALTON_ELEMENT_PATTERN, line, "element comment")?;
    let name: String = if g.len() > 0 {
        assert(g.deep_view()[0] == g@[0]@);
        g[0].clone()
    } else {
        String::new()
    };
    if is_known_name(name.as_str()) {
        Ok(true)
    } else {
        Err(BseError::ValueError("Line looks to start an element, but element name is unknown".to_string()))
    }
}

fn is_ecp(line: &str) -> (r: bool)
    ensures
        r == is_ecp_line(line@),
{
    let c = chars_of(line);
    let mut low: Vec<char> = Vec::new();
    let mut q: usize = 0;
    while q < c.len()
        invariant
            q <= c@.len(),
            c@ == line@,
            low@ == c@.take(q as int).map_values(|x: char| lower_ascii(x)),
        decreases c.len() - q,
    {
        low.push(crate::lut::to_lower_ascii(c[q]));
        assert(low@ =~= c@.take(q + 1).map_values(|x: char| lower_ascii(x)));
        q = q + 1;
    }
    assert(c@.take(c@.len() as int) =~= c@);
    crate::text::chars_eq(low.as_slice(), chars_of("ecp").as_slice())
}

fn start_lines(lines: &Vec<String>) -> (r: Result<Vec<String>, BseError>)
    ensures
        match dalton_start(lines.deep_view()) {
            Ok(t) => r matches Ok(v) && v.deep_view() == t,
            Err(()) => r matches Err(e) && e is ValueError,
        },
{
    let ghost lv = lines.deep_view();
    let mut k: usize = 0;
    assert(lv.skip(0) =~= lv);
    while k < lines.len()
        invariant
            k <= lines@.len(),
            lv == lines.deep_view(),
            dalton_start(lv) == dalton_start(lv.skip(k as int)),
        decreases lines.len() - k,
    {
        assert(lv.skip(k as int)[0] == lines@[k as int]@);
        assert(lv.skip(k as int).drop_first() =~= lv.skip(k + 1));
        let b = line_begins_element(lines[k].as_str())?;
        if b || is_ecp(lines[k].as_str()) {
            return Ok(lines_from(lines.as_slice(), k));
        }
        k = k + 1;
    }
    assert(lv.skip(k as int) =~= Seq::<Seq<char>>::empty());
    Ok(Vec::new())
}

fn replace_spelling(line: &str) -> (r: String)
    ensures
        r@ == fix_spelling(line@),
{
    proof {
        reveal_strlit("PHOSPHOROUS");
    }
    replace_text(line, "PHOSPHOROUS", "PHOSPHORUS")
}

/* #endregion */

/* #region reading elements */

proof fn lemma_lead_comments_exact(t: Seq<Seq<char>>, m: int)
    requires
        0 <= m <= t.len(),
        forall|k: int| 0 <= k < m ==> t[k].len() > 0 && t[k][0] == '!',
        m == t.len() || !(t[m].len() > 0 && t[m][0] == '!'),
    ensures
        lead_comments(t) == m,
    decreases m,
{
    if m > 0 {
        lemma_lead_comments_exact(t.drop_first(), m - 1);
    }
}

fn without_element_comments(lines: &Vec<String>) -> (r: Result<Vec<String>, BseError>)
    ensures
        match drop_element_comments(lines.deep_view()) {
            Ok(t) => r matches Ok(v) && v.deep_view() == t,
            Err(()) => r matches Err(e) && e is ValueError,
        },
{
    let ghost lv = lines.deep_view();
    let n = lines.len();
    let mut out: Vec<String> = Vec::new();
    let mut i: usize = 0;
    assert(lv.skip(0) =~= lv);
    while i < n
        invariant
            i <= n,
            n == lines@.len(),
            lv == lines.deep_view(),
            drop_element_comments(lv) == match drop_element_comments(lv.skip(i as int)) {
                Ok(t) => Ok(out.deep_view() + t),
                Err(()) => Err(()),
            },
        decreases n - i,
    {
        let ghost t = lv.skip(i as int);
        assert(t[0] == lines@[i as int]@);
        let b = line_begins_element(lines[i].as_str())?;
        let ghost o = out.deep_view();
        out.push(lines[i].clone());
        assert(out.deep_view() =~= o + seq![t[0]]);
        let mut j = i + 1;
        if b {
            while j < n && chars_of(lines[j].as_str()).len() > 0 && chars_of(lines[j].as_str())[0] == '!'
                invariant
                    i + 1 <= j <= n,
                    n == lines@.len(),
                    lv == lines.deep_view(),
                    forall|k: int| i + 1 <= k < j ==> lv[k].len() > 0 && lv[k][0] == '!',
                decreases n - j,
            {
                assert(lv[j as int] == lines@[j as int]@);
                j = j + 1;
            }
            proof {
                let rest = t.drop_first();
                assert(rest =~= lv.skip(i + 1));
                if j < n {
                    assert(lv[j as int] == lines@[j as int]@);
                }
                lemma_lead_comments_exact(rest, j - i - 1);
                assert(rest.skip(j - i - 1) =~= lv.skip(j as int));
            }
        } else {
            assert(t.drop_first() =~= lv.skip(i + 1));
        }
        proof {
            assert((o + seq![t[0]]) + Seq::<Seq<char>>::empty() =~= o + seq![t[0]]);
            if let Ok(u) = drop_element_comments(lv.skip(j as int)) {
                assert(o + (seq![t[0]] + u) =~= (o + seq![t[0]]) + u);
            }
        }
        i = j;
    }
    assert(lv.skip(n as int) =~= Seq::<Seq<char>>::empty());
    assert(out.deep_view() + Seq::<Seq<char>>::empty() =~= out.deep_view());
    Ok(out)
}

fn element_flag_lines(lines: &Vec<String>) -> (r: Vec<bool>)
    ensures
        r@ == element_flags(lines.deep_view()),
{
    let ghost lv = lines.deep_view();
    let mut r: Vec<bool> = Vec::new();
    let mut q: usize = 0;
    while q < lines.len()
        invariant
            q <= lines@.len(),
            lv == lines.deep_view(),
            r@ == element_flags(lv).take(q as int),
        decreases lines.len() - q,
    {
        assert(lv[q as int] == lines@[q as int]@);
        let f = match line_begins_element(lines[q].as_str()) {
            Ok(b) => b,
            Err(_) => false,
        };
        r.push(f);
        assert(r@ =~= element_flags(lv).take(q + 1));
        q = q + 1;
    }
    assert(element_flags(lv).take(lines@.len() as int) =~= element_flags(lv));
    r
}

fn joined_primitives(bas: &Vec<String>, nprim: usize) -> (r: Vec<String>)
    ensures
        r.deep_view() == join_split(bas.deep_view(), nprim),
{
    let ghost bv = bas.deep_view();
    let n = bas.len();
    if !(nprim > 0 && n > 0 && n % nprim == 0) {
        let mut copy: Vec<String> = Vec::new();
        let mut q: usize = 0;
        while q < n
            invariant
                q <= n,
                n == bas@.len(),
                bv == bas.deep_view(),
                copy.deep_view() == bv.take(q as int),
            decreases n - q,
        {
            let ghost o = copy.deep_view();
            assert(bv[q as int] == bas@[q as int]@);
            copy.push(bas[q].clone());
            assert(copy.deep_view() =~= o.push(bv[q as int]));
            assert(copy.deep_view() =~= bv.take(q + 1));
            q = q + 1;
        }
        assert(bv.take(n as int) =~= bv);
        return copy;
    }
    let splits = n / nprim;
    assert(splits * nprim == n) by (nonlinear_arith)
        requires
            nprim > 0,
            n % nprim == 0,
            splits == n / nprim,
    ;
    let mut r: Vec<String> = Vec::new();
    let mut i: usize = 0;
    while i < nprim
        invariant
            i <= nprim,
            nprim > 0,
            splits * nprim == n,
            splits == (n as int) / (nprim as int),
            n == bas@.len(),
            bv == bas.deep_view(),
            r.deep_view() == Seq::new(i as nat, |k: int| join_spec(bv.subrange(splits * k, splits * k + splits), " "@)),
        decreases nprim - i,
    {
        assert(splits * i + splits <= n) by (nonlinear_arith)
            requires
                i < nprim,
                splits * nprim == n,
        ;
        let mut part: Vec<String> = Vec::new();
        let mut q: usize = 0;
        while q < splits
            invariant
                q <= splits,
                splits * i + splits <= n,
                n == bas@.len(),
                bv == bas.deep_view(),
                part.deep_view() == bv.subrange(splits * i, splits * i + q),
            decreases splits - q,
        {
            let ghost o = part.deep_view();
            assert(bv[splits * i + q] == bas@[splits * i + q]@);
            part.push(bas[splits * i + q].clone());
            assert(part.deep_view() =~= o.push(bv[splits * i + q]));
            assert(part.deep_view() =~= bv.subrange(splits * i, splits * i + q + 1));
            q = q + 1;
        }
        let line = crate::text::join(&part, " ");
        let ghost o = r.deep_view();
        r.push(line);
        assert(r.deep_view() =~= Seq::new((i + 1) as nat, |k: int| join_spec(bv.subrange(splits * k, splits * k + splits), " "@))) by {
            assert(r.deep_view() =~= o.push(join_spec(bv.subrange(splits * i, splits * i + splits), " "@)));
        }
        i = i + 1;
    }
    r
}

/// Shell `k` of an element, of angular momentum `k`, from its block (its
/// line `nprim ncontr`, then the primitives); a `ValueError` when the line
/// does not match or the primitives do not parse (see [`dalton_shell`]).
pub fn dalton_shell_exec(b: &Vec<String>, k: usize) -> (r: Result<BseElectronShell, BseError>)
    requires
        b@.len() >= 1,
    ensures
        match dalton_shell(b.deep_view(), k as int) {
            Some(sh) => r matches Ok(s) && s@ == sh,
            None => r matches Err(e) && e is ValueError,
        },
{
    assert(b.deep_view()[0] == b@[0]@);
    let g = parse_line_regex(DALTON_SHELL_PATTERN, b[0].as_str(), "nprim, ngen")?;
    if g.len() < 2 {
        return Err(BseError::ValueError("nprim, ngen".to_string()));
    }
    assert(g.deep_view()[0] == g@[0]@ && g.deep_view()[1] == g@[1]@);
    let nprim = match parse_usize(chars_of(g[0].as_str()).as_slice()) {
        Some(n) => n,
        None => {
            return Err(BseError::ValueError("Invalid nprim".to_string()));
        },
    };
    let ngen = match parse_usize(chars_of(g[1].as_str()).as_slice()) {
        Some(n) => n,
        None => {
            return Err(BseError::ValueError("Invalid ngen".to_string()));
        },
    };
    let bas = lines_from(b.as_slice(), 1);
    let joined = joined_primitives(&bas, nprim);
    let (exponents, coefficients) = parse_primitive_matrix(joined.as_slice(), Some(nprim), Some(ngen))?;
    let am = vec![k as i32];
    let function_type = function_type_from_am(am.as_slice(), "gto", "spherical");
    let sh = BseElectronShell { function_type, region: String::new(), angular_momentum: am, exponents, coefficients };
    proof {
        reveal_strlit("gto");
        reveal_strlit("spherical");
        assert(sh@.region =~= Seq::<char>::empty());
        assert(sh@.am =~= seq![k as i32]);
    }
    Ok(sh)
}

/* #endregion */

/* #region reading a text */

proof fn lemma_shells_none(blocks: Seq<Seq<Seq<char>>>, z: i32, v: Seq<(i32, ElementV)>, k: int, n: int)
    requires
        0 <= k <= n,
        dalton_shells(blocks, z, v, k) is None,
    ensures
        dalton_shells(blocks, z, v, n) is None,
    decreases n - k,
{
    if k < n {
        lemma_shells_none(blocks, z, v, k + 1, n);
    }
}

proof fn lemma_blocks_none(blocks: Seq<Seq<Seq<char>>>, v: Seq<(i32, ElementV)>, k: int, n: int)
    requires
        0 <= k <= n,
        dalton_blocks(blocks, v, k) is None,
    ensures
        dalton_blocks(blocks, v, n) is None,
    decreases n - k,
{
    if k < n {
        lemma_blocks_none(blocks, v, k + 1, n);
    }
}

proof fn lemma_sections_err(secs: Seq<Seq<Seq<char>>>, k: int, n: int, b: bool)
    requires
        0 <= k <= n,
        dalton_sections(secs, k) == Err::<Seq<(i32, ElementV)>, bool>(b),
    ensures
        dalton_sections(secs, n) == Err::<Seq<(i32, ElementV)>, bool>(b),
    decreases n - k,
{
    if k < n {
        lemma_sections_err(secs, k + 1, n, b);
    }
}

fn head_z(head: &str) -> (r: Result<i32, BseError>)
    ensures
        match block_z(head@) {
            Some(z) => r == Ok::<i32, BseError>(z),
            None => r matches Err(e) && e is ValueError,
        },
{
    let h = to_lowercase(head);
    let hc = chars_of(h.as_str());
    if crate::text::starts_with(hc.as_slice(), chars_of("a ").as_slice()) {
        let g = parse_line_regex(DALTON_A_PATTERN, h.as_str(), "a {element_z}")?;
        if g.len() < 1 {
            return Err(BseError::ValueError("a {element_z}".to_string()));
        }
        assert(g.deep_view()[0] == g@[0]@);
        match parse_i32(chars_of(g[0].as_str()).as_slice()) {
            Some(z) => Ok(z),
            None => Err(BseError::ValueError("Invalid element number".to_string())),
        }
    } else if crate::text::starts_with(hc.as_slice(), chars_of("!").as_slice()) {
        let g = parse_line_regex(DALTON_ELEMENT_PATTERN, h.as_str(), "! {element_name}")?;
        if g.len() < 1 {
            return Err(BseError::ValueError("! {element_name}".to_string()));
        }
        assert(g.deep_view()[0] == g@[0]@);
        match element_Z_from_name(g[0].as_str()) {
            Some(z) => Ok(z),
            None => Err(BseError::ValueError("Unknown element name".to_string())),
        }
    } else {
        Err(BseError::ValueError("Unable to parse block in dalton".to_string()))
    }
}

fn read_block(b: &Vec<String>, elements: &mut Vec<(i32, BseBasisElement)>) -> (r: Result<(), BseError>)
    requires
        keys_increasing(old(elements)@),
        b@.len() >= 1,
    ensures
        match dalton_block(b.deep_view(), elements_view(old(elements)@)) {
            Some(w) => r is Ok && elements_view(final(elements)@) == w && keys_increasing(final(elements)@),
            None => r matches Err(e) && e is ValueError,
        },
{
    assert(b.deep_view()[0] == b@[0]@);
    let z = head_z(b[0].as_str())?;
    let rest = lines_from(b.as_slice(), 1);
    let el = prune_lines(rest.as_slice(), "!", true, true);
    let flags = crate::readers::helpers::pattern_flags(DALTON_SHELL_PATTERN, &el);
    assert(flags@ =~= dalton_shell_flags(el.deep_view()));
    let shells = partition_lines(el.as_slice(), flags.as_slice(), 0, None, None, None, 1, true)?;
    let ghost sv = shells.deep_view();
    let ghost v0 = elements_view(elements@);
    proof {
        assert forall|k: int| 0 <= k < sv.len() implies #[trigger] sv[k].len() >= 1 by {
            if sv[k].len() < 1 {
                assert(crate::readers::helpers::has_short_block(sv, 1));
            }
        }
    }
    let mut i: usize = 0;
    while i < shells.len()
        invariant
            i <= shells@.len(),
            sv == shells.deep_view(),
            v0 == elements_view(old(elements)@),
            dalton_block(b.deep_view(), v0) == dalton_shells(sv, z, v0, sv.len() as int),
            forall|k: int| 0 <= k < sv.len() ==> #[trigger] sv[k].len() >= 1,
            keys_increasing(elements@),
            dalton_shells(sv, z, v0, i as int) == Some(elements_view(elements@)),
        decreases shells.len() - i,
    {
        assert(sv[i as int] == shells@[i as int].deep_view());
        assert(sv[i as int].len() >= 1);
        match dalton_shell_exec(&shells[i], i) {
            Ok(sh) => {
                add_shell(elements, z, sh);
            },
            Err(e) => {
                proof {
                    assert(dalton_shells(sv, z, v0, i + 1) is None);
                    lemma_shells_none(sv, z, v0, i + 1, sv.len() as int);
                }
                return Err(e);
            },
        }
        i = i + 1;
    }
    Ok(())
}

fn read_electron(s: &Vec<String>, elements: &mut Vec<(i32, BseBasisElement)>) -> (r: Result<(), BseError>)
    requires
        keys_increasing(old(elements)@),
    ensures
        match dalton_electron(s.deep_view(), elements_view(old(elements)@)) {
            Some(w) => r is Ok && elements_view(final(elements)@) == w && keys_increasing(final(elements)@),
            None => r matches Err(e) && e is ValueError,
        },
{
    let ghost sv = s.deep_view();
    let mut fixed: Vec<String> = Vec::new();
    let mut q: usize = 0;
    while q < s.len()
        invariant
            q <= s@.len(),
            sv == s.deep_view(),
            fixed.deep_view() == sv.take(q as int).map_values(|l: Seq<char>| fix_spelling(l)),
        decreases s.len() - q,
    {
        assert(sv[q as int] == s@[q as int]@);
        let ghost o = fixed.deep_view();
        fixed.push(replace_spelling(s[q].as_str()));
        assert(fixed.deep_view() =~= o.push(fix_spelling(sv[q as int])));
        assert(fixed.deep_view() =~= sv.take(q + 1).map_values(|l: Seq<char>| fix_spelling(l)));
        q = q + 1;
    }
    assert(sv.take(s@.len() as int) =~= sv);
    let nl = without_element_comments(&fixed)?;
    let lines = prune_lines(nl.as_slice(), "$", true, true);
    let flags = element_flag_lines(&lines);
    let blocks = partition_lines(lines.as_slice(), flags.as_slice(), 0, None, None, None, 3, true)?;
    let ghost bv = blocks.deep_view();
    let ghost v0 = elements_view(elements@);
    proof {
        assert forall|k: int| 0 <= k < bv.len() implies #[trigger] bv[k].len() >= 3 by {
            if bv[k].len() < 3 {
                assert(crate::readers::helpers::has_short_block(bv, 3));
            }
        }
    }
    let mut i: usize = 0;
    while i < blocks.len()
        invariant
            i <= blocks@.len(),
            bv == blocks.deep_view(),
            sv == s.deep_view(),
            v0 == elements_view(old(elements)@),
            dalton_electron(sv, v0) == dalton_blocks(bv, v0, bv.len() as int),
            forall|k: int| 0 <= k < bv.len() ==> #[trigger] bv[k].len() >= 3,
            keys_increasing(elements@),
            dalton_blocks(bv, v0, i as int) == Some(elements_view(elements@)),
        decreases blocks.len() - i,
    {
        assert(bv[i as int] == blocks@[i as int].deep_view());
        assert(bv[i as int].len() >= 3);
        match read_block(&blocks[i], elements) {
            Ok(()) => {},
            Err(e) => {
                proof {
                    assert(dalton_blocks(bv, v0, i + 1) is None);
                    lemma_blocks_none(bv, v0, i + 1, bv.len() as int);
                }
                return Err(e);
            },
        }
        i = i + 1;
    }
    Ok(())
}

/// Read a basis set in the Dalton format: from the first line that opens
/// an element, each element's shells in increasing angular momentum from
/// zero. A `NotImplementedError` comes for an `ECP` section, a `ValueError`
/// when the text does not parse (see [`dalton_spec`]); a text with no
/// element gives an empty basis.
pub fn read_dalton(basis_str: &str) -> (r: Result<BseBasisMinimal, BseError>)
    ensures
        match dalton_spec(basis_str@) {
            Ok(elems) => r matches Ok(b) && elements_view(b.elements@) == elems && keys_increasing(b.elements@)
                && b.function_types.deep_view() == sort_distinct_strs(shell_types(elems))
                && b.name@ == reader_name(None) && b.description@ == "no_description"@
                && b.molssi_bse_schema.schema_type@ == "minimal"@ && b.molssi_bse_schema.schema_version@ == "0.1"@,
            Err(true) => r matches Err(e) && e is NotImplementedError,
            Err(false) => r matches Err(e) && e is ValueError,
        },
{
    let raw = trimmed_lines(basis_str);
    let pruned = prune_lines(raw.as_slice(), "", true, true);
    proof {
        reveal_strlit("");
        assert(""@ =~= Seq::<char>::empty());
    }
    let lines = start_lines(&pruned)?;
    let mut elements: Vec<(i32, BseBasisElement)> = Vec::new();
    proof {
        assert(elements_view(elements@) =~= Seq::<(i32, ElementV)>::empty());
    }
    if lines.len() == 0 {
        return Ok(reader_basis(elements, None));
    }
    let ghost lv = lines.deep_view();
    let mut flags: Vec<bool> = Vec::new();
    let mut q: usize = 0;
    while q < lines.len()
        invariant
            q <= lines@.len(),
            lv == lines.deep_view(),
            flags@ == ecp_flags(lv).take(q as int),
        decreases lines.len() - q,
    {
        assert(lv[q as int] == lines@[q as int]@);
        flags.push(is_ecp(lines[q].as_str()));
        assert(flags@ =~= ecp_flags(lv).take(q + 1));
        q = q + 1;
    }
    assert(ecp_flags(lv).take(lines@.len() as int) =~= ecp_flags(lv));
    let secs = partition_lines(lines.as_slice(), flags.as_slice(), 0, None, Some(1), Some(2), 1, true)?;
    let ghost sv = secs.deep_view();
    proof {
        assert(dalton_spec(basis_str@) == dalton_sections(sv, sv.len() as int));
        assert forall|k: int| 0 <= k < sv.len() implies #[trigger] sv[k].len() >= 1 by {
            if sv[k].len() < 1 {
                assert(crate::readers::helpers::has_short_block(sv, 1));
            }
        }
    }
    let mut i: usize = 0;
    while i < secs.len()
        invariant
            i <= secs@.len(),
            sv == secs.deep_view(),
            dalton_spec(basis_str@) == dalton_sections(sv, sv.len() as int),
            forall|k: int| 0 <= k < sv.len() ==> #[trigger] sv[k].len() >= 1,
            keys_increasing(elements@),
            dalton_sections(sv, i as int) == Ok::<Seq<(i32, ElementV)>, bool>(elements_view(elements@)),
        decreases secs.len() - i,
    {
        assert(sv[i as int] == secs@[i as int].deep_view());
        assert(sv[i as int].len() >= 1);
        assert(sv[i as int][0] == secs@[i as int]@[0]@);
        if is_ecp(secs[i][0].as_str()) {
            proof {
                lemma_sections_err(sv, i + 1, sv.len() as int, true);
            }
            return Err(BseError::NotImplementedError("ECPs are not supported in Dalton format".to_string()));
        }
        match read_electron(&secs[i], &mut elements) {
            Ok(()) => {},
            Err(e) => {
                proof {
                    lemma_sections_err(sv, i + 1, sv.len() as int, false);
                }
                return Err(e);
            },
        }
        i = i + 1;
    }
    Ok(reader_basis(elements, None))
}

/* #endregion */

} // verus!
