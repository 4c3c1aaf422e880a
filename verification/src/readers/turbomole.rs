//! Reading basis sets in the TURBOMOLE format.
//!
//! A TURBOMOLE file opens with a `$` line and ends with `$end`. A section
//! (`$basis`, `$cbas`, `$jbas`, `$jkbas` or `$ecp`) holds elements framed
//! by `*` lines: `*`, then `symbol name`, then `*`, then the element's data,
//! and a final `*`. An electron shell is a line `nprim letter` followed by
//! a line `exponent coefficient` per primitive (perhaps after an ordinal);
//! a potential element gives `ncore= n lmax= l`, then its potentials, each
//! opened by its angular momentum letter (`f` or `s-f`), with a line
//! `coefficient power exponent` per term.
use crate::error::BseError;
use crate::fields::{BseBasisElement, BseBasisMinimal, BseEcpPotential, BseElectronShell, ElementV, PotentialV, ShellV, elements_view, keys_increasing};
use crate::compose::shell_types;
use crate::lut::{amchar_to_int, amchar_to_int_spec, element_Z_from_sym, function_type_from_am, function_type_spec, lower_ascii, sym_search, to_lower_ascii};
use crate::readers::helpers::{
    add_potential, add_shell, ecp_table_spec, entry_of, groups_text, lines_from, parse_ecp_table, parse_line_regex,
    parse_primitive_matrix, partition_lines, partition_spec, primitive_matrix_spec, prune_lines, prune_lines_spec,
    push_potential, push_shell, put_entry, reader_basis, reader_name, regex_captures_of, regex_is_match, set_core, alpha_flags, alpha_flag_lines,
    text_lines, trimmed_lines, with_core,
};
use crate::text::{chars_of, lowercase_of, parse_i32, parse_i32_spec, parse_usize, parse_usize_spec, sort_distinct_strs};
use vstd::prelude::*;

verus! {

/// A section line that holds electron shells.
pub const TM_SECTION_PATTERN: &'static str = r"^\$(basis|ecp|cbas|jbas|jkbas)$";

/// An element line: symbol and basis name.
pub const TM_ELEMENT_PATTERN: &'static str = r"^([a-zA-Z]{1,3})\s+(.*)$";

/// A shell line: number of primitives and angular momentum letter.
pub const TM_SHELL_PATTERN: &'static str = r"^(\d+) +([a-zA-Z])$";

/// The core electrons and highest angular momentum of a potential element.
pub const TM_ECP_INFO_PATTERN: &'static str = r"(?i)^ncore\s*=\s*(\d+)\s+lmax\s*=\s*(\d+)$";

/// The angular momentum of a potential (and the one it is taken from).
pub const TM_ECP_AM_PATTERN: &'static str = r"^([a-z])(-[a-z])?$";

/// A primitive line: an optional ordinal, the exponent and the coefficient.
pub const TM_EXP_COEF_PATTERN: &'static str = r"^(\d+\s+)?([-+]?\d*\.\d*(?:[dDeE][-+]?\d+)?)\s+([-+]?\d*\.\d*(?:[dDeE][-+]?\d+)?)$";

/* #region specification: electron shells */

/// `l` starts with the character `c`.
pub open spec fn starts_with_char(l: Seq<char>, c: char) -> bool {
    l.len() > 0 && l[0] == c
}

/// Which lines open an element.
pub open spec fn tm_element_flags(lines: Seq<Seq<char>>) -> Seq<bool> {
    Seq::new(lines.len(), |i: int| regex_captures_of(TM_ELEMENT_PATTERN@, lines[i]) is Some)
}

/// Which lines open a shell.
pub open spec fn tm_shell_flags(lines: Seq<Seq<char>>) -> Seq<bool> {
    Seq::new(lines.len(), |i: int| regex_captures_of(TM_SHELL_PATTERN@, lines[i]) is Some)
}

/// Which lines open a section: those starting with `$`, but `$end`.
pub open spec fn section_flags(lines: Seq<Seq<char>>) -> Seq<bool> {
    Seq::new(lines.len(), |i: int| starts_with_char(lines[i], '$') && lines[i] != "$end"@)
}

/// Element blocks framed by `*` lines: each has a `*` line, the element
/// line and a `*` line, and no later line starting with `*`.
pub open spec fn framed(blocks: Seq<Seq<Seq<char>>>) -> bool {
    forall|k: int|
        0 <= k < blocks.len() ==> {
            let b = #[trigger] blocks[k];
            &&& b.len() >= 3
            &&& b[0] == "*"@
            &&& b[2] == "*"@
            &&& forall|t: int| 3 <= t < b.len() ==> !starts_with_char(#[trigger] b[t], '*')
        }
}

/// The exponent and the coefficient of a primitive line, joined by a
/// space; `None` when the line does not match.
pub open spec fn tm_exp_coef(line: Seq<char>) -> Option<Seq<char>> {
    match regex_captures_of(TM_EXP_COEF_PATTERN@, line) {
        Some(caps) => {
            let g = groups_text(caps);
            if g.len() >= 3 {
                Some(g[1] + " "@ + g[2])
            } else {
                None
            }
        },
        None => None,
    }
}

/// The first `n` primitive lines, each as exponent and coefficient.
pub open spec fn tm_pairs(lines: Seq<Seq<char>>, n: int) -> Option<Seq<Seq<char>>>
    decreases n,
{
    if n <= 0 {
        Some(Seq::empty())
    } else {
        match (tm_pairs(lines, n - 1), tm_exp_coef(lines[n - 1])) {
            (Some(p), Some(x)) => Some(p.push(x)),
            _ => None,
        }
    }
}

/// A shell from the groups of its opening line (number of primitives,
/// angular momentum letter) and its primitive lines; `None` when the number
/// does not parse, the letter is no angular momentum, a primitive line does
/// not match, or the primitives disagree with the number.
pub open spec fn tm_shell_spec(groups: Seq<Seq<char>>, data: Seq<Seq<char>>) -> Option<ShellV> {
    if groups.len() < 2 {
        None
    } else {
        match (parse_usize_spec(groups[0]), amchar_to_int_spec(lowercase_of(groups[1]), false)) {
            (Some(nprim), Some(am)) => if am.len() == 0 {
                None
            } else {
                match tm_pairs(data, data.len() as int) {
                    None => None,
                    Some(pairs) => match primitive_matrix_spec(pairs, Some(nprim), Some(1)) {
                        Some((e, c)) => Some(
                            ShellV {
                                function_type: function_type_spec(am, "gto"@, "spherical"@),
                                region: Seq::empty(),
                                am,
                                exponents: e,
                                coefficients: c,
                            },
                        ),
                        None => None,
                    },
                }
            },
            _ => None,
        }
    }
}

/// The element map after one more shell block of element `z`.
pub open spec fn tm_block(b: Seq<Seq<char>>, z: i32, w: Seq<(i32, ElementV)>) -> Option<Seq<(i32, ElementV)>> {
    match regex_captures_of(TM_SHELL_PATTERN@, b[0]) {
        Some(caps) => match tm_shell_spec(groups_text(caps), b.skip(1)) {
            Some(sh) => Some(put_entry(w, z, push_shell(entry_of(w, z), sh))),
            None => None,
        },
        None => None,
    }
}

/// The element map after the first `n` shell blocks of element `z`.
pub open spec fn tm_shells(blocks: Seq<Seq<Seq<char>>>, z: i32, v: Seq<(i32, ElementV)>, n: int) -> Option<Seq<(i32, ElementV)>>
    decreases n,
{
    if n <= 0 {
        Some(v)
    } else {
        match tm_shells(blocks, z, v, n - 1) {
            Some(w) => tm_block(blocks[n - 1], z, w),
            None => None,
        }
    }
}

/// The atomic number of an element line, if it matches and names a known
/// symbol.
pub open spec fn tm_element_z(line: Seq<char>) -> Option<i32> {
    match regex_captures_of(TM_ELEMENT_PATTERN@, line) {
        None => None,
        Some(caps) => {
            let g = groups_text(caps);
            if g.len() < 1 {
                None
            } else {
                sym_search(lowercase_of(g[0]), 1)
            }
        },
    }
}

/// The element map after the shells of one framed element block.
pub open spec fn tm_element(b: Seq<Seq<char>>, w: Seq<(i32, ElementV)>) -> Option<Seq<(i32, ElementV)>> {
    match tm_element_z(b[1]) {
        None => None,
        Some(z) => {
            let rest = b.skip(3);
            match partition_spec(rest, tm_shell_flags(rest), 0, None, None, None, 2, true) {
                None => None,
                Some(shells) => tm_shells(shells, z, w, shells.len() as int),
            }
        },
    }
}

/// The element map after the first `n` element blocks.
pub open spec fn tm_elements(blocks: Seq<Seq<Seq<char>>>, v: Seq<(i32, ElementV)>, n: int) -> Option<Seq<(i32, ElementV)>>
    decreases n,
{
    if n <= 0 {
        Some(v)
    } else {
        match tm_elements(blocks, v, n - 1) {
            Some(w) => tm_element(blocks[n - 1], w),
            None => None,
        }
    }
}

/// A list of lines without its `$` lines, blank lines and the final `*`
/// line; `None` when it does not end with `*`.
pub open spec fn section_body(s: Seq<Seq<char>>) -> Option<Seq<Seq<char>>> {
    let bl = prune_lines_spec(s, "$"@, true, true);
    if bl.len() == 0 || bl.last() != "*"@ {
        None
    } else {
        Some(bl.drop_last())
    }
}

/// The element map after a section of electron shells: its elements, each
/// a block of at least four lines framed by `*` lines. A section with only
/// `*` lines adds nothing.
pub open spec fn tm_electron_spec(s: Seq<Seq<char>>, w: Seq<(i32, ElementV)>) -> Option<Seq<(i32, ElementV)>> {
    match section_body(s) {
        None => None,
        Some(body) => if forall|i: int| 0 <= i < body.len() ==> #[trigger] body[i] == "*"@ || body[i].len() == 0 {
            Some(w)
        } else {
            match partition_spec(body, tm_element_flags(body), 1, None, None, None, 4, true) {
                None => None,
                Some(blocks) => if !framed(blocks) {
                    None
                } else {
                    tm_elements(blocks, w, blocks.len() as int)
                },
            }
        },
    }
}

/* #endregion */

/* #region specification: potentials */

/// The column order of a potential table: coefficient, power, exponent.
pub open spec fn tm_order() -> Seq<Seq<char>> {
    seq!["coeff"@, "r_exp"@, "g_exp"@]
}

/// One potential from its lines, given the highest angular momentum of its
/// element and whether the potential of that angular momentum was met: the
/// potential and whether it now was. `None` when its opening line does not
/// match, a letter is no angular momentum, a potential taken from another
/// angular momentum does not name the highest, a second potential of a
/// single angular momentum comes, or that one is not the highest; or when
/// the table does not parse.
pub open spec fn tm_potential(p: Seq<Seq<char>>, max_am: i32, found: bool) -> Option<(PotentialV, bool)> {
    match regex_captures_of(TM_ECP_AM_PATTERN@, p[0]) {
        None => None,
        Some(caps) => {
            let g = groups_text(caps);
            if g.len() < 1 {
                None
            } else {
                match amchar_to_int_spec(lowercase_of(g[0]), false) {
                    None => None,
                    Some(pot_am) => {
                        let found2 = if g.len() > 1 && g[1].len() > 0 {
                            match amchar_to_int_spec(lowercase_of(g[1].skip(1)), false) {
                                Some(base) => if base.len() > 0 && base[0] == max_am {
                                    Some(found)
                                } else {
                                    None
                                },
                                None => None,
                            }
                        } else if found || pot_am.len() == 0 || pot_am[0] != max_am {
                            None
                        } else {
                            Some(true)
                        };
                        match (found2, ecp_table_spec(p.skip(1), tm_order())) {
                            (Some(f), Some((r, e, c))) => Some(
                                (
                                    PotentialV {
                                        am: pot_am,
                                        coefficients: seq![c],
                                        ecp_type: "scalar_ecp"@,
                                        r_exponents: r,
                                        gaussian_exponents: e,
                                    },
                                    f,
                                ),
                            ),
                            _ => None,
                        }
                    },
                }
            }
        },
    }
}

/// The element map and whether the highest potential was met, after the
/// first `n` potentials of element `z`.
pub open spec fn tm_potentials(
    pots: Seq<Seq<Seq<char>>>,
    z: i32,
    max_am: i32,
    v: Seq<(i32, ElementV)>,
    n: int,
) -> Option<(Seq<(i32, ElementV)>, bool)>
    decreases n,
{
    if n <= 0 {
        Some((v, false))
    } else {
        match tm_potentials(pots, z, max_am, v, n - 1) {
            Some((w, found)) => match tm_potential(pots[n - 1], max_am, found) {
                Some((p, f)) => Some((put_entry(w, z, push_potential(entry_of(w, z), p)), f)),
                None => None,
            },
            None => None,
        }
    }
}

/// The core electrons and highest angular momentum of a potential element.
pub open spec fn tm_ecp_info(line: Seq<char>) -> Option<(i32, i32)> {
    match regex_captures_of(TM_ECP_INFO_PATTERN@, line) {
        None => None,
        Some(caps) => {
            let g = groups_text(caps);
            if g.len() < 2 {
                None
            } else {
                match (parse_i32_spec(g[0]), parse_i32_spec(g[1])) {
                    (Some(n), Some(l)) => Some((n, l)),
                    _ => None,
                }
            }
        },
    }
}

/// The element map after one potential element: its element line, its
/// `ncore`/`lmax` line and its potentials.
pub open spec fn tm_ecp_element(el: Seq<Seq<char>>, w: Seq<(i32, ElementV)>) -> Option<Seq<(i32, ElementV)>> {
    match tm_element_z(el[0]) {
        None => None,
        Some(z) => if el.len() < 2 {
            None
        } else {
            match tm_ecp_info(el[1]) {
                None => None,
                Some((ncore, max_am)) => {
                    let w1 = put_entry(w, z, with_core(entry_of(w, z), ncore));
                    let rest = el.skip(2);
                    match partition_spec(rest, alpha_flags(rest), 0, None, None, None, 2, true) {
                        None => None,
                        Some(pots) => match tm_potentials(pots, z, max_am, w1, pots.len() as int) {
                            Some((w2, _)) => Some(w2),
                            None => None,
                        },
                    }
                },
            }
        },
    }
}

/// The element map after the first `n` potential element blocks.
pub open spec fn tm_ecp_elements(blocks: Seq<Seq<Seq<char>>>, v: Seq<(i32, ElementV)>, n: int) -> Option<Seq<(i32, ElementV)>>
    decreases n,
{
    if n <= 0 {
        Some(v)
    } else {
        match tm_ecp_elements(blocks, v, n - 1) {
            Some(w) => tm_ecp_element(seq![blocks[n - 1][1]] + blocks[n - 1].skip(3), w),
            None => None,
        }
    }
}

/// The element map after a section of potentials.
pub open spec fn tm_ecp_spec(s: Seq<Seq<char>>, w: Seq<(i32, ElementV)>) -> Option<Seq<(i32, ElementV)>> {
    match section_body(s) {
        None => None,
        Some(body) => match partition_spec(body, tm_element_flags(body), 1, None, None, None, 1, true) {
            None => None,
            Some(blocks) => if !framed(blocks) {
                None
            } else {
                tm_ecp_elements(blocks, w, blocks.len() as int)
            },
        },
    }
}

/* #endregion */

/* #region specification: sections */

/// The element map after one section: a section of only `$` lines adds
/// nothing, `$ecp` (in any case) holds potentials, the others that match
/// [`TM_SECTION_PATTERN`] hold shells; any other section is an error.
pub open spec fn tm_section(s: Seq<Seq<char>>, w: Seq<(i32, ElementV)>) -> Option<Seq<(i32, ElementV)>> {
    if forall|i: int| 0 <= i < s.len() ==> starts_with_char(#[trigger] s[i], '$') {
        Some(w)
    } else if s[0].map_values(|c: char| lower_ascii(c)) == "$ecp"@ {
        tm_ecp_spec(s, w)
    } else if regex_captures_of(TM_SECTION_PATTERN@, s[0]) is Some {
        tm_electron_spec(s, w)
    } else {
        None
    }
}

/// The element map after the first `n` sections.
pub open spec fn tm_sections(secs: Seq<Seq<Seq<char>>>, n: int) -> Option<Seq<(i32, ElementV)>>
    decreases n,
{
    if n <= 0 {
        Some(Seq::empty())
    } else {
        match tm_sections(secs, n - 1) {
            Some(w) => tm_section(secs[n - 1], w),
            None => None,
        }
    }
}

/// What a TURBOMOLE text holds: its lines trimmed, without comments (`#`)
/// and blank lines, must open with a `$` line and end with `$end`; they are
/// cut into one or two sections at the `$` lines. `None` when the text does
/// not parse.
pub open spec fn turbomole_spec(text: Seq<char>) -> Option<Seq<(i32, ElementV)>> {
    let lines = prune_lines_spec(text_lines(text), "#"@, true, true);
    if lines.len() > 0 && (!starts_with_char(lines[0], '$') || lines.last() != "$end"@) {
        None
    } else {
        match partition_spec(lines, section_flags(lines), 0, None, Some(1), Some(2), 1, true) {
            None => None,
            Some(secs) => tm_sections(secs, secs.len() as int),
        }
    }
}

/* #endregion */

/* #region reading: electron shells */

proof fn lemma_pairs_none(lines: Seq<Seq<char>>, k: int, n: int)
    requires
        0 <= k <= n,
        tm_pairs(lines, k) is None,
    ensures
        tm_pairs(lines, n) is None,
    decreases n - k,
{
    if k < n {
        lemma_pairs_none(lines, k + 1, n);
    }
}

proof fn lemma_shells_none(blocks: Seq<Seq<Seq<char>>>, z: i32, v: Seq<(i32, ElementV)>, k: int, n: int)
    requires
        0 <= k <= n,
        tm_shells(blocks, z, v, k) is None,
    ensures
        tm_shells(blocks, z, v, n) is None,
    decreases n - k,
{
    if k < n {
        lemma_shells_none(blocks, z, v, k + 1, n);
    }
}

proof fn lemma_elements_none(blocks: Seq<Seq<Seq<char>>>, v: Seq<(i32, ElementV)>, k: int, n: int)
    requires
        0 <= k <= n,
        tm_elements(blocks, v, k) is None,
    ensures
        tm_elements(blocks, v, n) is None,
    decreases n - k,
{
    if k < n {
        lemma_elements_none(blocks, v, k + 1, n);
    }
}

fn exp_coef_pairs(data: &Vec<String>) -> (r: Result<Vec<String>, BseError>)
    ensures
        match tm_pairs(data.deep_view(), data@.len() as int) {
            Some(p) => r matches Ok(v) && v.deep_view() == p,
            None => r matches Err(e) && e is ValueError,
        },
{
    let ghost dv = data.deep_view();
    let mut r: Vec<String> = Vec::new();
    let mut k: usize = 0;
    assert(r.deep_view() =~= Seq::<Seq<char>>::empty());
    while k < data.len()
        invariant
            k <= data@.len(),
            dv == data.deep_view(),
            tm_pairs(dv, k as int) == Some(r.deep_view()),
        decreases data.len() - k,
    {
        assert(dv[k as int] == data@[k as int]@);
        let g = match parse_line_regex(TM_EXP_COEF_PATTERN, data[k].as_str(), "(expn, coeff) or (iexpn, expn, coeff)") {
            Ok(g) => g,
            Err(e) => {
                proof {
                    lemma_pairs_none(dv, k + 1, dv.len() as int);
                }
                return Err(e);
            },
        };
        if g.len() < 3 {
            proof {
                lemma_pairs_none(dv, k + 1, dv.len() as int);
            }
            return Err(BseError::ValueError("Line does not match format (expn, coeff) or (iexpn, expn, coeff)".to_string()));
        }
        assert(g.deep_view()[1] == g@[1]@ && g.deep_view()[2] == g@[2]@);
        let mut t = g[1].clone();
        crate::text::push_str(&mut t, " ");
        crate::text::push_str(&mut t, g[2].as_str());
        let ghost before = r.deep_view();
        r.push(t);
        assert(r.deep_view() =~= before.push(g.deep_view()[1] + " "@ + g.deep_view()[2]));
        k = k + 1;
    }
    Ok(r)
}

/// A shell from the groups of its opening line (number of primitives,
/// angular momentum letter) and its primitive lines (an optional ordinal,
/// the exponent and the coefficient): a spherical or plain gaussian shell
/// of one contraction, or a `ValueError` when the number does not parse,
/// the letter is no angular momentum, a primitive line does not match, or
/// the primitives disagree with the number.
pub fn tm_shell(groups: &Vec<String>, data: &Vec<String>) -> (r: Result<BseElectronShell, BseError>)
    ensures
        match tm_shell_spec(groups.deep_view(), data.deep_view()) {
            Some(sh) => r matches Ok(s) && s@ == sh,
            None => r matches Err(e) && e is ValueError,
        },
{
    if groups.len() < 2 {
        return Err(BseError::ValueError("shell nprim, am".to_string()));
    }
    assert(groups.deep_view()[0] == groups@[0]@ && groups.deep_view()[1] == groups@[1]@);
    let nprim = match parse_usize(chars_of(groups[0].as_str()).as_slice()) {
        Some(n) => n,
        None => {
            return Err(BseError::ValueError("Invalid nprim value".to_string()));
        },
    };
    let am = match amchar_to_int(groups[1].as_str(), false) {
        Some(a) => a,
        None => {
            return Err(BseError::ValueError("Unknown angular momentum".to_string()));
        },
    };
    if am.len() == 0 {
        return Err(BseError::ValueError("Unknown angular momentum".to_string()));
    }
    let func_type = function_type_from_am(am.as_slice(), "gto", "spherical");
    let pairs = exp_coef_pairs(data)?;
    let (exponents, coefficients) = parse_primitive_matrix(pairs.as_slice(), Some(nprim), Some(1))?;
    let sh = BseElectronShell { function_type: func_type, region: String::new(), angular_momentum: am, exponents, coefficients };
    proof {
        reveal_strlit("gto");
        reveal_strlit("spherical");
        assert(sh@.region =~= Seq::<char>::empty());
    }
    Ok(sh)
}

fn read_block(b: &Vec<String>, z: i32, elements: &mut Vec<(i32, BseBasisElement)>) -> (r: Result<(), BseError>)
    requires
        keys_increasing(old(elements)@),
        b@.len() >= 1,
    ensures
        match tm_block(b.deep_view(), z, elements_view(old(elements)@)) {
            Some(w) => r is Ok && elements_view(final(elements)@) == w && keys_increasing(final(elements)@),
            None => r matches Err(e) && e is ValueError,
        },
{
    assert(b.deep_view()[0] == b@[0]@);
    let groups = parse_line_regex(TM_SHELL_PATTERN, b[0].as_str(), "shell nprim, am")?;
    let data = lines_from(b.as_slice(), 1);
    let sh = tm_shell(&groups, &data)?;
    add_shell(elements, z, sh);
    Ok(())
}

/// The atomic number of an element line.
fn element_z(line: &str) -> (r: Result<i32, BseError>)
    ensures
        match tm_element_z(line@) {
            Some(z) => r == Ok::<i32, BseError>(z),
            None => r matches Err(e) && e is ValueError,
        },
{
    let g = parse_line_regex(TM_ELEMENT_PATTERN, line, "Element line")?;
    if g.len() < 1 {
        return Err(BseError::ValueError("Element line".to_string()));
    }
    assert(g.deep_view()[0] == g@[0]@);
    match element_Z_from_sym(g[0].as_str()) {
        Some(z) => Ok(z),
        None => Err(BseError::ValueError("Unknown element symbol".to_string())),
    }
}

fn read_element(b: &Vec<String>, elements: &mut Vec<(i32, BseBasisElement)>) -> (r: Result<(), BseError>)
    requires
        keys_increasing(old(elements)@),
        b@.len() >= 3,
    ensures
        match tm_element(b.deep_view(), elements_view(old(elements)@)) {
            Some(w) => r is Ok && elements_view(final(elements)@) == w && keys_increasing(final(elements)@),
            None => r matches Err(e) && e is ValueError,
        },
{
    assert(b.deep_view()[1] == b@[1]@);
    let z = element_z(b[1].as_str())?;
    let rest = lines_from(b.as_slice(), 3);
    let flags = crate::readers::helpers::pattern_flags(TM_SHELL_PATTERN, &rest);
    assert(flags@ =~= tm_shell_flags(rest.deep_view()));
    let blocks = partition_lines(rest.as_slice(), flags.as_slice(), 0, None, None, None, 2, true)?;
    let ghost bv = blocks.deep_view();
    let ghost v0 = elements_view(elements@);
    proof {
        assert forall|k: int| 0 <= k < bv.len() implies #[trigger] bv[k].len() >= 1 by {
            if bv[k].len() < 2 {
                assert(crate::readers::helpers::has_short_block(bv, 2));
            }
        }
    }
    let mut i: usize = 0;
    while i < blocks.len()
        invariant
            i <= blocks@.len(),
            bv == blocks.deep_view(),
            v0 == elements_view(old(elements)@),
            tm_element(b.deep_view(), v0) == tm_shells(bv, z, v0, bv.len() as int),
            forall|k: int| 0 <= k < bv.len() ==> #[trigger] bv[k].len() >= 1,
            keys_increasing(elements@),
            tm_shells(bv, z, v0, i as int) == Some(elements_view(elements@)),
        decreases blocks.len() - i,
    {
        assert(bv[i as int] == blocks@[i as int].deep_view());
        assert(bv[i as int].len() >= 1);
        let ghost before = elements_view(elements@);
        match read_block(&blocks[i], z, elements) {
            Ok(()) => {},
            Err(e) => {
                proof {
                    assert(tm_block(bv[i as int], z, before) is None);
                    assert(tm_shells(bv, z, v0, i + 1) is None);
                    lemma_shells_none(bv, z, v0, i + 1, blocks@.len() as int);
                }
                return Err(e);
            },
        }
        i = i + 1;
    }
    Ok(())
}

/// The lines of a section without `$` lines, blank lines and the final `*`.
fn body_of(s: &Vec<String>) -> (r: Option<Vec<String>>)
    ensures
        match section_body(s.deep_view()) {
            Some(b) => r matches Some(v) && v.deep_view() == b,
            None => r is None,
        },
{
    let mut bl = prune_lines(s.as_slice(), "$", true, true);
    if bl.len() == 0 {
        return None;
    }
    let ghost bv = bl.deep_view();
    assert(bv.last() == bl@[bl@.len() - 1]@);
    let star = chars_of("*");
    if !crate::text::chars_eq(chars_of(bl[bl.len() - 1].as_str()).as_slice(), star.as_slice()) {
        return None;
    }
    bl.pop();
    assert(bl.deep_view() =~= bv.drop_last());
    Some(bl)
}

/// Whether blocks are framed by `*` lines (see [`framed`]).
fn is_framed(blocks: &Vec<Vec<String>>) -> (r: bool)
    ensures
        r == framed(blocks.deep_view()),
{
    let ghost bv = blocks.deep_view();
    let star = chars_of("*");
    let mut k: usize = 0;
    while k < blocks.len()
        invariant
            k <= blocks@.len(),
            bv == blocks.deep_view(),
            star@ == "*"@,
            forall|j: int|
                0 <= j < k ==> {
                    let b = #[trigger] bv[j];
                    &&& b.len() >= 3
                    &&& b[0] == "*"@
                    &&& b[2] == "*"@
                    &&& forall|t: int| 3 <= t < b.len() ==> !starts_with_char(#[trigger] b[t], '*')
                },
        decreases blocks.len() - k,
    {
        let b = &blocks[k];
        assert(bv[k as int] == b.deep_view());
        if b.len() < 3 {
            return false;
        }
        assert(b.deep_view()[0] == b@[0]@ && b.deep_view()[2] == b@[2]@);
        if !crate::text::chars_eq(chars_of(b[0].as_str()).as_slice(), star.as_slice()) || !crate::text::chars_eq(
            chars_of(b[2].as_str()).as_slice(),
            star.as_slice(),
        ) {
            return false;
        }
        let mut t: usize = 3;
        while t < b.len()
            invariant
                3 <= t <= b@.len(),
                k < bv.len(),
                bv == blocks.deep_view(),
                bv[k as int] == b.deep_view(),
                forall|q: int| 3 <= q < t ==> !starts_with_char(#[trigger] b.deep_view()[q], '*'),
            decreases b.len() - t,
        {
            assert(b.deep_view()[t as int] == b@[t as int]@);
            let c = chars_of(b[t].as_str());
            if c.len() > 0 && c[0] == '*' {
                assert(starts_with_char(b.deep_view()[t as int], '*'));
                assert(starts_with_char(bv[k as int][t as int], '*'));
                return false;
            }
            t = t + 1;
        }
        k = k + 1;
    }
    true
}

fn read_electron_section(s: &Vec<String>, elements: &mut Vec<(i32, BseBasisElement)>) -> (r: Result<(), BseError>)
    requires
        keys_increasing(old(elements)@),
    ensures
        match tm_electron_spec(s.deep_view(), elements_view(old(elements)@)) {
            Some(w) => r is Ok && elements_view(final(elements)@) == w && keys_increasing(final(elements)@),
            None => r matches Err(e) && e is ValueError,
        },
{
    let body = match body_of(s) {
        Some(b) => b,
        None => {
            return Err(BseError::ValueError("Missing terminating * line".to_string()));
        },
    };
    let ghost bdv = body.deep_view();
    let star = chars_of("*");
    let mut only_stars = true;
    let mut q: usize = 0;
    while q < body.len()
        invariant
            q <= body@.len(),
            bdv == body.deep_view(),
            star@ == "*"@,
            only_stars == (forall|i: int| 0 <= i < q ==> #[trigger] bdv[i] == "*"@ || bdv[i].len() == 0),
        decreases body.len() - q,
    {
        assert(bdv[q as int] == body@[q as int]@);
        let c = chars_of(body[q].as_str());
        if !(c.len() == 0 || crate::text::chars_eq(c.as_slice(), star.as_slice())) {
            only_stars = false;
        }
        q = q + 1;
    }
    if only_stars {
        return Ok(());
    }
    let flags = crate::readers::helpers::pattern_flags(TM_ELEMENT_PATTERN, &body);
    assert(flags@ =~= tm_element_flags(bdv));
    let blocks = partition_lines(body.as_slice(), flags.as_slice(), 1, None, None, None, 4, true)?;
    if !is_framed(&blocks) {
        return Err(BseError::ValueError("Element line not framed by *".to_string()));
    }
    let ghost bv = blocks.deep_view();
    let ghost v0 = elements_view(elements@);
    let mut i: usize = 0;
    while i < blocks.len()
        invariant
            i <= blocks@.len(),
            bv == blocks.deep_view(),
            framed(bv),
            v0 == elements_view(old(elements)@),
            tm_electron_spec(s.deep_view(), v0) == tm_elements(bv, v0, bv.len() as int),
            keys_increasing(elements@),
            tm_elements(bv, v0, i as int) == Some(elements_view(elements@)),
        decreases blocks.len() - i,
    {
        assert(bv[i as int] == blocks@[i as int].deep_view());
        assert(bv[i as int].len() >= 3);
        let ghost before = elements_view(elements@);
        match read_element(&blocks[i], elements) {
            Ok(()) => {},
            Err(e) => {
                proof {
                    assert(tm_element(bv[i as int], before) is None);
                    assert(tm_elements(bv, v0, i + 1) is None);
                    lemma_elements_none(bv, v0, i + 1, blocks@.len() as int);
                }
                return Err(e);
            },
        }
        i = i + 1;
    }
    Ok(())
}

/* #endregion */

/* #region reading: potentials */

proof fn lemma_potentials_none(pots: Seq<Seq<Seq<char>>>, z: i32, max_am: i32, v: Seq<(i32, ElementV)>, k: int, n: int)
    requires
        0 <= k <= n,
        tm_potentials(pots, z, max_am, v, k) is None,
    ensures
        tm_potentials(pots, z, max_am, v, n) is None,
    decreases n - k,
{
    if k < n {
        lemma_potentials_none(pots, z, max_am, v, k + 1, n);
    }
}

proof fn lemma_ecp_elements_none(blocks: Seq<Seq<Seq<char>>>, v: Seq<(i32, ElementV)>, k: int, n: int)
    requires
        0 <= k <= n,
        tm_ecp_elements(blocks, v, k) is None,
    ensures
        tm_ecp_elements(blocks, v, n) is None,
    decreases n - k,
{
    if k < n {
        lemma_ecp_elements_none(blocks, v, k + 1, n);
    }
}

/// One potential from its lines (see [`tm_potential`]): the potential and
/// whether the potential of the highest angular momentum has now been met,
/// or a `ValueError`.
pub fn tm_potential_exec(p: &Vec<String>, max_am: i32, found: bool) -> (r: Result<(BseEcpPotential, bool), BseError>)
    requires
        p@.len() >= 1,
    ensures
        match tm_potential(p.deep_view(), max_am, found) {
            Some((pot, f)) => r matches Ok((a, b)) && a@ == pot && b == f,
            None => r matches Err(e) && e is ValueError,
        },
{
    assert(p.deep_view()[0] == p@[0]@);
    let g = parse_line_regex(TM_ECP_AM_PATTERN, p[0].as_str(), "ECP potential am")?;
    let ghost gv = g.deep_view();
    if g.len() < 1 {
        return Err(BseError::ValueError("ECP potential am".to_string()));
    }
    assert(gv[0] == g@[0]@);
    let pot_am = match amchar_to_int(g[0].as_str(), false) {
        Some(a) => a,
        None => {
            return Err(BseError::ValueError("Unknown angular momentum".to_string()));
        },
    };
    let found2: bool;
    let second: Vec<char> = if g.len() > 1 {
        assert(gv[1] == g@[1]@);
        chars_of(g[1].as_str())
    } else {
        Vec::new()
    };
    if g.len() > 1 && second.len() > 0 {
        let c = second;
        let mut tail: Vec<char> = Vec::new();
        let mut q: usize = 1;
        while q < c.len()
            invariant
                1 <= q <= c@.len(),
                tail@ == c@.subrange(1, q as int),
            decreases c.len() - q,
        {
            tail.push(c[q]);
            q = q + 1;
        }
        assert(tail@ =~= gv[1].skip(1));
        let base = match amchar_to_int(crate::text::string_of(tail.as_slice()).as_str(), false) {
            Some(b) => b,
            None => {
                return Err(BseError::ValueError("Unknown base angular momentum".to_string()));
            },
        };
        if base.len() == 0 || base[0] != max_am {
            return Err(BseError::ValueError("Potential does not use max_am".to_string()));
        }
        found2 = found;
    } else {
        if found || pot_am.len() == 0 || pot_am[0] != max_am {
            return Err(BseError::ValueError("Potential with single AM is not the only one with lmax".to_string()));
        }
        found2 = true;
    }
    let rest = lines_from(p.as_slice(), 1);
    let order: [&str; 3] = ["coeff", "r_exp", "g_exp"];
    proof {
        assert(crate::formats::strs_view(order@) =~= tm_order());
    }
    let t = parse_ecp_table(rest.as_slice(), &order)?;
    let pot = BseEcpPotential {
        angular_momentum: pot_am,
        coefficients: t.coeff,
        ecp_type: "scalar_ecp".to_string(),
        r_exponents: t.r_exp,
        gaussian_exponents: t.g_exp,
    };
    Ok((pot, found2))
}

/// The atomic number, core electrons and highest angular momentum of a
/// potential element (see [`tm_ecp_element`]).
fn ecp_header(el: &Vec<String>) -> (r: Result<(i32, i32, i32), BseError>)
    requires
        el@.len() >= 1,
    ensures
        match tm_element_z(el.deep_view()[0]) {
            None => r matches Err(e) && e is ValueError,
            Some(z) => if el@.len() < 2 {
                r matches Err(e) && e is ValueError
            } else {
                match tm_ecp_info(el.deep_view()[1]) {
                    None => r matches Err(e) && e is ValueError,
                    Some((n, l)) => r == Ok::<(i32, i32, i32), BseError>((z, n, l)),
                }
            },
        },
{
    let ghost ev = el.deep_view();
    assert(ev[0] == el@[0]@);
    let z = element_z(el[0].as_str())?;
    if el.len() < 2 {
        return Err(BseError::ValueError("ECP ncore, lmax".to_string()));
    }
    assert(ev[1] == el@[1]@);
    let g = parse_line_regex(TM_ECP_INFO_PATTERN, el[1].as_str(), "ECP ncore, lmax")?;
    if g.len() < 2 {
        return Err(BseError::ValueError("ECP ncore, lmax".to_string()));
    }
    assert(g.deep_view()[0] == g@[0]@ && g.deep_view()[1] == g@[1]@);
    let ncore = match parse_i32(chars_of(g[0].as_str()).as_slice()) {
        Some(n) => n,
        None => {
            return Err(BseError::ValueError("Invalid ncore value".to_string()));
        },
    };
    let max_am = match parse_i32(chars_of(g[1].as_str()).as_slice()) {
        Some(n) => n,
        None => {
            return Err(BseError::ValueError("Invalid lmax value".to_string()));
        },
    };
    Ok((z, ncore, max_am))
}

fn read_potentials(pots: &Vec<Vec<String>>, z: i32, max_am: i32, elements: &mut Vec<(i32, BseBasisElement)>) -> (r: Result<(), BseError>)
    requires
        keys_increasing(old(elements)@),
        forall|k: int| 0 <= k < pots.deep_view().len() ==> #[trigger] pots.deep_view()[k].len() >= 1,
    ensures
        match tm_potentials(pots.deep_view(), z, max_am, elements_view(old(elements)@), pots@.len() as int) {
            Some((w, _)) => r is Ok && elements_view(final(elements)@) == w && keys_increasing(final(elements)@),
            None => r matches Err(e) && e is ValueError,
        },
{
    let ghost pv = pots.deep_view();
    let ghost w1 = elements_view(elements@);
    let mut found = false;
    let mut i: usize = 0;
    while i < pots.len()
        invariant
            i <= pots@.len(),
            pv == pots.deep_view(),
            w1 == elements_view(old(elements)@),
            forall|k: int| 0 <= k < pv.len() ==> #[trigger] pv[k].len() >= 1,
            keys_increasing(elements@),
            tm_potentials(pv, z, max_am, w1, i as int) == Some((elements_view(elements@), found)),
        decreases pots.len() - i,
    {
        assert(pv[i as int] == pots@[i as int].deep_view());
        assert(pv[i as int].len() >= 1);
        match tm_potential_exec(&pots[i], max_am, found) {
            Ok((pot, f)) => {
                add_potential(elements, z, pot);
                found = f;
            },
            Err(e) => {
                proof {
                    assert(tm_potentials(pv, z, max_am, w1, i + 1) is None);
                    lemma_potentials_none(pv, z, max_am, w1, i + 1, pv.len() as int);
                }
                return Err(e);
            },
        }
        i = i + 1;
    }
    Ok(())
}

fn read_ecp_element(el: &Vec<String>, elements: &mut Vec<(i32, BseBasisElement)>) -> (r: Result<(), BseError>)
    requires
        keys_increasing(old(elements)@),
        el@.len() >= 1,
    ensures
        match tm_ecp_element(el.deep_view(), elements_view(old(elements)@)) {
            Some(w) => r is Ok && elements_view(final(elements)@) == w && keys_increasing(final(elements)@),
            None => r matches Err(e) && e is ValueError,
        },
{
    let (z, ncore, max_am) = ecp_header(el)?;
    set_core(elements, z, ncore);
    let rest = lines_from(el.as_slice(), 2);
    let flags = alpha_flag_lines(&rest);
    let pots = partition_lines(rest.as_slice(), flags.as_slice(), 0, None, None, None, 2, true)?;
    proof {
        let pv = pots.deep_view();
        assert forall|k: int| 0 <= k < pv.len() implies #[trigger] pv[k].len() >= 1 by {
            if pv[k].len() < 2 {
                assert(crate::readers::helpers::has_short_block(pv, 2));
            }
        }
    }
    read_potentials(&pots, z, max_am, elements)
}

fn read_ecp_section(s: &Vec<String>, elements: &mut Vec<(i32, BseBasisElement)>) -> (r: Result<(), BseError>)
    requires
        keys_increasing(old(elements)@),
    ensures
        match tm_ecp_spec(s.deep_view(), elements_view(old(elements)@)) {
            Some(w) => r is Ok && elements_view(final(elements)@) == w && keys_increasing(final(elements)@),
            None => r matches Err(e) && e is ValueError,
        },
{
    let body = match body_of(s) {
        Some(b) => b,
        None => {
            return Err(BseError::ValueError("Missing terminating * line".to_string()));
        },
    };
    let flags = crate::readers::helpers::pattern_flags(TM_ELEMENT_PATTERN, &body);
    assert(flags@ =~= tm_element_flags(body.deep_view()));
    let blocks = partition_lines(body.as_slice(), flags.as_slice(), 1, None, None, None, 1, true)?;
    if !is_framed(&blocks) {
        return Err(BseError::ValueError("Element line not framed by *".to_string()));
    }
    let ghost bv = blocks.deep_view();
    let ghost v0 = elements_view(elements@);
    let mut i: usize = 0;
    while i < blocks.len()
        invariant
            i <= blocks@.len(),
            bv == blocks.deep_view(),
            framed(bv),
            v0 == elements_view(old(elements)@),
            tm_ecp_spec(s.deep_view(), v0) == tm_ecp_elements(bv, v0, bv.len() as int),
            keys_increasing(elements@),
            tm_ecp_elements(bv, v0, i as int) == Some(elements_view(elements@)),
        decreases blocks.len() - i,
    {
        let b = &blocks[i];
        assert(bv[i as int] == b.deep_view());
        assert(bv[i as int].len() >= 3);
        assert(b.deep_view()[1] == b@[1]@);
        let mut el: Vec<String> = vec![b[1].clone()];
        let tail = lines_from(b.as_slice(), 3);
        let ghost head = el.deep_view();
        assert(head =~= seq![bv[i as int][1]]);
        let mut q: usize = 0;
        while q < tail.len()
            invariant
                q <= tail@.len(),
                el.deep_view() == head + tail.deep_view().take(q as int),
            decreases tail.len() - q,
        {
            let ghost before = el.deep_view();
            assert(tail.deep_view()[q as int] == tail@[q as int]@);
            el.push(tail[q].clone());
            assert(el.deep_view() =~= before.push(tail.deep_view()[q as int]));
            assert(el.deep_view() =~= head + tail.deep_view().take(q + 1));
            q = q + 1;
        }
        assert(tail.deep_view().take(tail@.len() as int) =~= tail.deep_view());
        assert(el.deep_view() == seq![bv[i as int][1]] + bv[i as int].skip(3));
        let ghost before = elements_view(elements@);
        match read_ecp_element(&el, elements) {
            Ok(()) => {},
            Err(e) => {
                proof {
                    assert(tm_ecp_elements(bv, v0, i + 1) is None);
                    lemma_ecp_elements_none(bv, v0, i + 1, blocks@.len() as int);
                }
                return Err(e);
            },
        }
        i = i + 1;
    }
    Ok(())
}

/* #endregion */

/* #region reading */

proof fn lemma_sections_none(secs: Seq<Seq<Seq<char>>>, k: int, n: int)
    requires
        0 <= k <= n,
        tm_sections(secs, k) is None,
    ensures
        tm_sections(secs, n) is None,
    decreases n - k,
{
    if k < n {
        lemma_sections_none(secs, k + 1, n);
    }
}

fn read_section(s: &Vec<String>, elements: &mut Vec<(i32, BseBasisElement)>) -> (r: Result<(), BseError>)
    requires
        keys_increasing(old(elements)@),
    ensures
        match tm_section(s.deep_view(), elements_view(old(elements)@)) {
            Some(w) => r is Ok && elements_view(final(elements)@) == w && keys_increasing(final(elements)@),
            None => r matches Err(e) && e is ValueError,
        },
{
    let ghost sv = s.deep_view();
    let mut all_dollar = true;
    let mut q: usize = 0;
    while q < s.len()
        invariant
            q <= s@.len(),
            sv == s.deep_view(),
            all_dollar == (forall|i: int| 0 <= i < q ==> starts_with_char(#[trigger] sv[i], '$')),
        decreases s.len() - q,
    {
        assert(sv[q as int] == s@[q as int]@);
        let c = chars_of(s[q].as_str());
        if !(c.len() > 0 && c[0] == '$') {
            all_dollar = false;
        }
        q = q + 1;
    }
    if all_dollar {
        return Ok(());
    }
    assert(sv[0] == s@[0]@);
    let c0 = chars_of(s[0].as_str());
    let mut low: Vec<char> = Vec::new();
    let mut q: usize = 0;
    while q < c0.len()
        invariant
            q <= c0@.len(),
            low@ == c0@.take(q as int).map_values(|c: char| lower_ascii(c)),
        decreases c0.len() - q,
    {
        low.push(to_lower_ascii(c0[q]));
        assert(low@ =~= c0@.take(q + 1).map_values(|c: char| lower_ascii(c)));
        q = q + 1;
    }
    assert(c0@.take(c0@.len() as int) =~= c0@);
    if crate::text::chars_eq(low.as_slice(), chars_of("$ecp").as_slice()) {
        read_ecp_section(s, elements)
    } else if regex_is_match(TM_SECTION_PATTERN, s[0].as_str()) {
        read_electron_section(s, elements)
    } else {
        Err(BseError::ValueError("Unknown section".to_string()))
    }
}

/// Read a basis set in the TURBOMOLE format: for each section, its element
/// blocks; electron shells and potentials are added at the end of their
/// element's shells or potentials, with the core electrons of each
/// potential element. A `ValueError` comes when the text does not parse
/// (see [`turbomole_spec`]).
pub fn read_turbomole(basis_str: &str) -> (r: Result<BseBasisMinimal, BseError>)
    ensures
        match turbomole_spec(basis_str@) {
            Some(elems) => r matches Ok(b) && elements_view(b.elements@) == elems && keys_increasing(b.elements@)
                && b.function_types.deep_view() == sort_distinct_strs(shell_types(elems))
                && b.name@ == reader_name(None) && b.description@ == "no_description"@
                && b.molssi_bse_schema.schema_type@ == "minimal"@ && b.molssi_bse_schema.schema_version@ == "0.1"@,
            None => r matches Err(e) && e is ValueError,
        },
{
    let raw = trimmed_lines(basis_str);
    let lines = prune_lines(raw.as_slice(), "#", true, true);
    let ghost lv = lines.deep_view();
    if lines.len() > 0 {
        assert(lv[0] == lines@[0]@);
        assert(lv.last() == lines@[lines@.len() - 1]@);
        let first = chars_of(lines[0].as_str());
        if !(first.len() > 0 && first[0] == '$') {
            return Err(BseError::ValueError("First line does not begin with $".to_string()));
        }
        if !crate::text::chars_eq(chars_of(lines[lines.len() - 1].as_str()).as_slice(), chars_of("$end").as_slice()) {
            return Err(BseError::ValueError("Last line of basis is not $end".to_string()));
        }
    }
    let end_tag = chars_of("$end");
    let mut flags: Vec<bool> = Vec::new();
    let mut q: usize = 0;
    while q < lines.len()
        invariant
            q <= lines@.len(),
            lv == lines.deep_view(),
            end_tag@ == "$end"@,
            flags@ == section_flags(lv).take(q as int),
        decreases lines.len() - q,
    {
        assert(lv[q as int] == lines@[q as int]@);
        let c = chars_of(lines[q].as_str());
        let f = c.len() > 0 && c[0] == '$' && !crate::text::chars_eq(c.as_slice(), end_tag.as_slice());
        flags.push(f);
        assert(flags@ =~= section_flags(lv).take(q + 1));
        q = q + 1;
    }
    assert(section_flags(lv).take(lines@.len() as int) =~= section_flags(lv));
    let secs = partition_lines(lines.as_slice(), flags.as_slice(), 0, None, Some(1), Some(2), 1, true)?;
    let ghost sv = secs.deep_view();
    let mut elements: Vec<(i32, BseBasisElement)> = Vec::new();
    proof {
        assert(elements_view(elements@) =~= Seq::<(i32, ElementV)>::empty());
        assert(turbomole_spec(basis_str@) == tm_sections(sv, sv.len() as int));
    }
    let mut i: usize = 0;
    while i < secs.len()
        invariant
            i <= secs@.len(),
            sv == secs.deep_view(),
            turbomole_spec(basis_str@) == tm_sections(sv, sv.len() as int),
            keys_increasing(elements@),
            tm_sections(sv, i as int) == Some(elements_view(elements@)),
        decreases secs.len() - i,
    {
        assert(sv[i as int] == secs@[i as int].deep_view());
        let ghost before = elements_view(elements@);
        match read_section(&secs[i], &mut elements) {
            Ok(()) => {},
            Err(e) => {
                proof {
                    assert(tm_sections(sv, i + 1) is None);
                    lemma_sections_none(sv, i + 1, sv.len() as int);
                }
                return Err(e);
            },
        }
        i = i + 1;
    }
    Ok(reader_basis(elements, None))
}

/* #endregion */

} // verus!
