//! Reading basis sets in the deMon2k format.
//!
//! Each element opens with a line `O-NAME (basis)`, then its number of
//! shells, then its shells: a line `n l nprim` followed by the primitives,
//! one per line (exponent and coefficient). Potentials come in a section
//! that opens with `ECP`: for each element a line `Sym nelec N`, then
//! blocks that open with `Sym l` (the local part first, then `s`, `p`,
//! ...), each with lines `r-exponent exponent coefficient`, until `END`.
use crate::error::BseError;
use crate::fields::{
    BseBasisElement, BseBasisMinimal, BseEcpPotential, BseElectronShell, ElementV, PotentialV, ShellV, elements_view,
    keys_increasing,
};
use crate::compose::shell_types;
use crate::lut::{element_Z_from_name, element_Z_from_sym, function_type_from_am, function_type_spec, name_search, sym_search};
use crate::readers::helpers::{
    add_potential, add_shell, entry_of, groups_text, lines_from, parse_line_regex, parse_primitive_matrix, partition_lines,
    partition_spec, pattern_flags, primitive_matrix_spec, prune_lines, prune_lines_spec, push_potential, push_shell, put_entry,
    reader_basis, reader_name, regex_captures_of, regex_is_match, set_core, text_lines, trimmed_lines, with_core,
};
use crate::text::{chars_of, lowercase_of, parse_i32, parse_i32_spec, parse_usize, parse_usize_spec, sort_distinct_strs, split_ws, trim_chars, trim_spec, ws_tokens};
use vstd::prelude::*;

verus! {

/// The line that opens an element: `O-` and the element name, possibly
/// repeated, then the basis name in parentheses.
pub const D2K_ORBITAL_PATTERN: &'static str =
    r"^O-([A-Za-z]+)(?: ([A-Za-z]+))* \((\d*[a-zA-Z][a-zA-Z0-9\-\+\*\(\)\[\]]*)\)\s*$";

/// The line that opens a shell: formal quantum number, angular momentum,
/// number of primitives.
pub const D2K_SHELL_PATTERN: &'static str = r"^\s*(\d+)\s+(\d+)\s+(\d+)\s*$";

/// The line that opens the potentials.
pub const D2K_ECP_START_PATTERN: &'static str = r"^\s*ECP\s*$";

/// The line that opens an element's potential: symbol and core electrons.
pub const D2K_ECP_ENTRY_PATTERN: &'static str = r"^([A-Za-z]+)\s+nelec\s+(\d+)\s*$";

/// The line that opens one angular momentum of a potential.
pub const D2K_ECP_SHELL_PATTERN: &'static str = r"^([A-Za-z]+)\s+([A-Za-z]+)\s*$";

/// A potential term: r-exponent, gaussian exponent, coefficient.
pub const D2K_ECP_DATA_PATTERN: &'static str =
    r"^\s*(\d+)\s+([-+]?\d*\.\d*(?:[dDeE][-+]?\d+)?)\s+([-+]?\d*\.\d*(?:[dDeE][-+]?\d+)?)\s*$";

/// The line that ends a potential.
pub const D2K_END_PATTERN: &'static str = r"^\s*END\s*$";

/* #region specification */

/// Which lines match a pattern.
pub open spec fn flags_of(p: Seq<char>, lines: Seq<Seq<char>>) -> Seq<bool> {
    Seq::new(lines.len(), |i: int| regex_captures_of(p, lines[i]) is Some)
}

/// A shell from its block (its line `n l nprim`, then the primitives); the
/// lines after the `nprim` primitives are left out.
pub open spec fn d2k_shell(b: Seq<Seq<char>>) -> Option<ShellV> {
    match regex_captures_of(D2K_SHELL_PATTERN@, b[0]) {
        None => None,
        Some(caps) => {
            let g = groups_text(caps);
            if g.len() < 3 || parse_i32_spec(g[0]) is None || parse_i32_spec(g[1]) is None || parse_usize_spec(g[2]) is None {
                None
            } else {
                let am = parse_i32_spec(g[1])->0;
                let nprim = parse_usize_spec(g[2])->0;
                if 1 + nprim > b.len() {
                    None
                } else {
                    match primitive_matrix_spec(b.subrange(1, 1 + nprim), Some(nprim), Some(1)) {
                        None => None,
                        Some((e, c)) => Some(
                            ShellV {
                                function_type: function_type_spec(seq![am], "gto"@, "spherical"@),
                                region: Seq::empty(),
                                am: seq![am],
                                exponents: e,
                                coefficients: c,
                            },
                        ),
                    }
                }
            }
        },
    }
}

/// The element map after the first `n` shell blocks of element `z`; a
/// block that does not open with a shell line is skipped.
pub open spec fn d2k_shells(blocks: Seq<Seq<Seq<char>>>, z: i32, v: Seq<(i32, ElementV)>, n: int) -> Option<Seq<(i32, ElementV)>>
    decreases n,
{
    if n <= 0 {
        Some(v)
    } else {
        match d2k_shells(blocks, z, v, n - 1) {
            None => None,
            Some(w) => if blocks[n - 1].len() == 0 || regex_captures_of(D2K_SHELL_PATTERN@, blocks[n - 1][0]) is None {
                Some(w)
            } else {
                match d2k_shell(blocks[n - 1]) {
                    None => None,
                    Some(sh) => Some(put_entry(w, z, push_shell(entry_of(w, z), sh))),
                }
            },
        }
    }
}

/// The element map after one element section: the element its first line
/// names, the number of shells on the second (a number, though the shells
/// are not counted against it), then its shells.
pub open spec fn d2k_element(sec: Seq<Seq<char>>, w: Seq<(i32, ElementV)>) -> Option<Seq<(i32, ElementV)>> {
    if sec.len() == 0 {
        Some(w)
    } else if sec.len() < 2 {
        None
    } else {
        match regex_captures_of(D2K_ORBITAL_PATTERN@, sec[0]) {
            None => None,
            Some(caps) => {
                let g = groups_text(caps);
                let t = ws_tokens(sec[1]);
                if g.len() < 1 || name_search(lowercase_of(g[0]), 1) is None || t.len() == 0 || parse_usize_spec(t[0]) is None {
                    None
                } else {
                    let z = name_search(lowercase_of(g[0]), 1)->0;
                    let rest = sec.skip(2);
                    match partition_spec(rest, flags_of(D2K_SHELL_PATTERN@, rest), 0, None, None, None, 2, true) {
                        None => None,
                        Some(blocks) => d2k_shells(blocks, z, w, blocks.len() as int),
                    }
                }
            },
        }
    }
}

/// The element map after the first `n` sections; a section that does not
/// open with an element line is skipped.
pub open spec fn d2k_elements(secs: Seq<Seq<Seq<char>>>, n: int) -> Option<Seq<(i32, ElementV)>>
    decreases n,
{
    if n <= 0 {
        Some(Seq::empty())
    } else {
        match d2k_elements(secs, n - 1) {
            None => None,
            Some(w) => if secs[n - 1].len() > 0 && regex_captures_of(D2K_ORBITAL_PATTERN@, secs[n - 1][0]) is Some {
                d2k_element(secs[n - 1], w)
            } else {
                Some(w)
            },
        }
    }
}

/// The blocks of potential terms after the entries gathered so far: a
/// line `Sym l` closes the open block and opens a new one, a term line
/// joins the open block (if any), and `END` stops.
pub open spec fn ecp_scan(l: Seq<Seq<char>>, i: int, done: Seq<Seq<Seq<Seq<char>>>>, cur: Option<Seq<Seq<Seq<char>>>>) -> Seq<Seq<Seq<Seq<char>>>>
    decreases l.len() - i,
{
    let closed = match cur {
        Some(d) => done.push(d),
        None => done,
    };
    if i < 0 || i >= l.len() {
        closed
    } else if regex_captures_of(D2K_ECP_SHELL_PATTERN@, l[i]) is Some {
        ecp_scan(l, i + 1, closed, Some(Seq::empty()))
    } else if regex_captures_of(D2K_ECP_DATA_PATTERN@, l[i]) is Some {
        match cur {
            Some(d) => ecp_scan(l, i + 1, done, Some(d.push(groups_text(regex_captures_of(D2K_ECP_DATA_PATTERN@, l[i])->0)))),
            None => ecp_scan(l, i + 1, done, None),
        }
    } else if regex_captures_of(D2K_END_PATTERN@, l[i]) is Some {
        closed
    } else {
        ecp_scan(l, i + 1, done, cur)
    }
}

/// Every term has three entries and an integer r-exponent.
pub open spec fn terms_ok(d: Seq<Seq<Seq<char>>>) -> bool {
    forall|r: int| 0 <= r < d.len() ==> (#[trigger] d[r]).len() >= 3 && parse_i32_spec(d[r][0]) is Some
}

/// The potential of angular momentum `am` from its terms.
pub open spec fn d2k_potential(am: int, d: Seq<Seq<Seq<char>>>) -> PotentialV {
    PotentialV {
        am: seq![am as i32],
        coefficients: seq![Seq::new(d.len(), |r: int| d[r][2])],
        ecp_type: "scalar_ecp"@,
        r_exponents: Seq::new(d.len(), |r: int| parse_i32_spec(d[r][0])->0),
        gaussian_exponents: Seq::new(d.len(), |r: int| d[r][1]),
    }
}

/// The angular momentum of the `k`-th of `n` blocks: the first is the
/// local part, one above the others, which follow from `s` up.
pub open spec fn block_am(k: int, n: int) -> int {
    if k == 0 {
        n - 1
    } else {
        k - 1
    }
}

/// The element map after the potentials of the first `k` blocks.
pub open spec fn d2k_pots(blocks: Seq<Seq<Seq<Seq<char>>>>, z: i32, v: Seq<(i32, ElementV)>, k: int) -> Option<Seq<(i32, ElementV)>>
    decreases k,
{
    if k <= 0 {
        Some(v)
    } else {
        match d2k_pots(blocks, z, v, k - 1) {
            None => None,
            Some(w) => if !terms_ok(blocks[k - 1]) {
                None
            } else {
                Some(put_entry(w, z, push_potential(entry_of(w, z), d2k_potential(block_am(k - 1, blocks.len() as int), blocks[k - 1]))))
            },
        }
    }
}

/// The element map after one element's potential: a block that does not
/// open with `Sym nelec N` is skipped; else the element's core electrons,
/// then its blocks of terms.
pub open spec fn ecp_element(b: Seq<Seq<char>>, w: Seq<(i32, ElementV)>) -> Option<Seq<(i32, ElementV)>> {
    if b.len() == 0 {
        Some(w)
    } else {
        match regex_captures_of(D2K_ECP_ENTRY_PATTERN@, b[0]) {
            None => Some(w),
            Some(caps) => {
                let g = groups_text(caps);
                if g.len() < 2 || parse_i32_spec(g[1]) is None || sym_search(lowercase_of(g[0]), 1) is None {
                    None
                } else {
                    let z = sym_search(lowercase_of(g[0]), 1)->0;
                    let w1 = put_entry(w, z, with_core(entry_of(w, z), parse_i32_spec(g[1])->0));
                    let blocks = ecp_scan(b.skip(1), 0, Seq::empty(), None);
                    if blocks.len() > i32::MAX {
                        None
                    } else {
                        d2k_pots(blocks, z, w1, blocks.len() as int)
                    }
                }
            },
        }
    }
}

/// The element map after the first `n` element blocks of a potential
/// section.
pub open spec fn ecp_elements(blocks: Seq<Seq<Seq<char>>>, v: Seq<(i32, ElementV)>, n: int) -> Option<Seq<(i32, ElementV)>>
    decreases n,
{
    if n <= 0 {
        Some(v)
    } else {
        match ecp_elements(blocks, v, n - 1) {
            None => None,
            Some(w) => ecp_element(blocks[n - 1], w),
        }
    }
}

/// The element map after one potential section: its `ECP` line dropped,
/// cut into element blocks of at least two lines.
pub open spec fn ecp_section(sec: Seq<Seq<char>>, w: Seq<(i32, ElementV)>) -> Option<Seq<(i32, ElementV)>> {
    let rest = if sec.len() > 0 && trim_spec(sec[0]) == "ECP"@ {
        sec.skip(1)
    } else {
        sec
    };
    match partition_spec(rest, flags_of(D2K_ECP_ENTRY_PATTERN@, rest), 0, None, None, None, 2, true) {
        None => None,
        Some(blocks) => ecp_elements(blocks, w, blocks.len() as int),
    }
}

/// The element map after the first `n` potential sections; a section that
/// does not open with `ECP` is skipped.
pub open spec fn ecp_sections(secs: Seq<Seq<Seq<char>>>, v: Seq<(i32, ElementV)>, n: int) -> Option<Seq<(i32, ElementV)>>
    decreases n,
{
    if n <= 0 {
        Some(v)
    } else {
        match ecp_sections(secs, v, n - 1) {
            None => None,
            Some(w) => if secs[n - 1].len() > 0 && regex_captures_of(D2K_ECP_START_PATTERN@, secs[n - 1][0]) is Some {
                ecp_section(secs[n - 1], w)
            } else {
                Some(w)
            },
        }
    }
}

/// What a deMon2k text holds: its lines trimmed, without comments (`#`)
/// and blank lines; the shells of its element sections (cut at element
/// lines, at least three lines each), then the potentials of its potential
/// sections (cut at `ECP` lines, at least two lines each). `None` when the
/// text does not parse.
pub open spec fn demon2k_spec(text: Seq<char>) -> Option<Seq<(i32, ElementV)>> {
    let lines = prune_lines_spec(text_lines(text), "#"@, true, true);
    if lines.len() == 0 {
        Some(Seq::empty())
    } else {
        match partition_spec(lines, flags_of(D2K_ORBITAL_PATTERN@, lines), 0, None, None, None, 3, true) {
            None => None,
            Some(secs) => match d2k_elements(secs, secs.len() as int) {
                None => None,
                Some(w) => match partition_spec(lines, flags_of(D2K_ECP_START_PATTERN@, lines), 0, None, None, None, 2, true) {
                    None => None,
                    Some(es) => ecp_sections(es, w, es.len() as int),
                },
            },
        }
    }
}

/* #endregion */

/* #region reading */

fn flag_lines(pattern: &str, lines: &Vec<String>) -> (r: Vec<bool>)
    ensures
        r@ == flags_of(pattern@, lines.deep_view()),
{
    let f = pattern_flags(pattern, lines);
    assert(f@ =~= flags_of(pattern@, lines.deep_view()));
    f
}

/// A shell from its block: its line `n l nprim`, then the primitives (see
/// [`d2k_shell`]); a `ValueError` when the line does not match, a number
/// does not parse, or the primitives are too few or do not parse.
pub fn d2k_shell_exec(b: &Vec<String>) -> (r: Result<BseElectronShell, BseError>)
    requires
        b@.len() >= 1,
    ensures
        match d2k_shell(b.deep_view()) {
            Some(sh) => r matches Ok(s) && s@ == sh,
            None => r matches Err(e) && e is ValueError,
        },
{
    let ghost bv = b.deep_view();
    assert(bv[0] == b@[0]@);
    let g = parse_line_regex(D2K_SHELL_PATTERN, b[0].as_str(), "formal_qn, am, nprim")?;
    if g.len() < 3 {
        return Err(BseError::ValueError("formal_qn, am, nprim".to_string()));
    }
    let ghost gv = g.deep_view();
    assert(gv[0] == g@[0]@ && gv[1] == g@[1]@ && gv[2] == g@[2]@);
    if parse_i32(chars_of(g[0].as_str()).as_slice()).is_none() {
        return Err(BseError::ValueError("Invalid formal qn".to_string()));
    }
    let am = match parse_i32(chars_of(g[1].as_str()).as_slice()) {
        Some(v) => v,
        None => {
            return Err(BseError::ValueError("Invalid shell am".to_string()));
        },
    };
    let nprim = match parse_usize(chars_of(g[2].as_str()).as_slice()) {
        Some(v) => v,
        None => {
            return Err(BseError::ValueError("Invalid nprim".to_string()));
        },
    };
    if nprim > b.len() - 1 {
        return Err(BseError::ValueError("Too few primitive lines".to_string()));
    }
    let mut prim: Vec<String> = Vec::new();
    let mut k: usize = 1;
    let end = 1 + nprim;
    while k < end
        invariant
            end == 1 + nprim,
            1 <= k <= 1 + nprim <= b@.len(),
            bv == b.deep_view(),
            prim.deep_view() == bv.subrange(1, k as int),
        decreases 1 + nprim - k,
    {
        let ghost o = prim.deep_view();
        prim.push(b[k].clone());
        assert(prim.deep_view() =~= o.push(bv[k as int]));
        assert(prim.deep_view() =~= bv.subrange(1, k + 1));
        k = k + 1;
    }
    let (exponents, coefficients) = parse_primitive_matrix(prim.as_slice(), Some(nprim), Some(1))?;
    let amv = vec![am];
    let function_type = function_type_from_am(amv.as_slice(), "gto", "spherical");
    let sh = BseElectronShell { function_type, region: String::new(), angular_momentum: amv, exponents, coefficients };
    proof {
        reveal_strlit("gto");
        reveal_strlit("spherical");
        assert(sh@.region =~= Seq::<char>::empty());
        assert(sh@.am =~= seq![am]);
    }
    Ok(sh)
}

proof fn lemma_shells_none(blocks: Seq<Seq<Seq<char>>>, z: i32, v: Seq<(i32, ElementV)>, k: int, n: int)
    requires
        0 <= k <= n,
        d2k_shells(blocks, z, v, k) is None,
    ensures
        d2k_shells(blocks, z, v, n) is None,
    decreases n - k,
{
    if k < n {
        lemma_shells_none(blocks, z, v, k + 1, n);
    }
}

proof fn lemma_elements_none(secs: Seq<Seq<Seq<char>>>, k: int, n: int)
    requires
        0 <= k <= n,
        d2k_elements(secs, k) is None,
    ensures
        d2k_elements(secs, n) is None,
    decreases n - k,
{
    if k < n {
        lemma_elements_none(secs, k + 1, n);
    }
}

proof fn lemma_pots_none(blocks: Seq<Seq<Seq<Seq<char>>>>, z: i32, v: Seq<(i32, ElementV)>, k: int, n: int)
    requires
        0 <= k <= n,
        d2k_pots(blocks, z, v, k) is None,
    ensures
        d2k_pots(blocks, z, v, n) is None,
    decreases n - k,
{
    if k < n {
        lemma_pots_none(blocks, z, v, k + 1, n);
    }
}

proof fn lemma_ecp_elements_none(blocks: Seq<Seq<Seq<char>>>, v: Seq<(i32, ElementV)>, k: int, n: int)
    requires
        0 <= k <= n,
        ecp_elements(blocks, v, k) is None,
    ensures
        ecp_elements(blocks, v, n) is None,
    decreases n - k,
{
    if k < n {
        lemma_ecp_elements_none(blocks, v, k + 1, n);
    }
}

proof fn lemma_ecp_sections_none(secs: Seq<Seq<Seq<char>>>, v: Seq<(i32, ElementV)>, k: int, n: int)
    requires
        0 <= k <= n,
        ecp_sections(secs, v, k) is None,
    ensures
        ecp_sections(secs, v, n) is None,
    decreases n - k,
{
    if k < n {
        lemma_ecp_sections_none(secs, v, k + 1, n);
    }
}

fn read_element(sec: &Vec<String>, elements: &mut Vec<(i32, BseBasisElement)>) -> (r: Result<(), BseError>)
    requires
        keys_increasing(old(elements)@),
    ensures
        match d2k_element(sec.deep_view(), elements_view(old(elements)@)) {
            Some(w) => r is Ok && elements_view(final(elements)@) == w && keys_increasing(final(elements)@),
            None => r matches Err(e) && e is ValueError,
        },
{
    let ghost sv = sec.deep_view();
    if sec.len() == 0 {
        return Ok(());
    }
    if sec.len() < 2 {
        return Err(BseError::ValueError("Missing number of shells".to_string()));
    }
    assert(sv[0] == sec@[0]@ && sv[1] == sec@[1]@);
    let g = parse_line_regex(D2K_ORBITAL_PATTERN, sec[0].as_str(), "O-element (basis_name)")?;
    if g.len() < 1 {
        return Err(BseError::ValueError("O-element (basis_name)".to_string()));
    }
    assert(g.deep_view()[0] == g@[0]@);
    let z = match element_Z_from_name(g[0].as_str()) {
        Some(z) => z,
        None => {
            return Err(BseError::ValueError("Unknown element name".to_string()));
        },
    };
    let t = split_ws(sec[1].as_str());
    if t.len() == 0 {
        return Err(BseError::ValueError("Missing number of shells".to_string()));
    }
    assert(t.deep_view()[0] == t@[0]@);
    if parse_usize(chars_of(t[0].as_str()).as_slice()).is_none() {
        return Err(BseError::ValueError("Invalid number of shells".to_string()));
    }
    let rest = lines_from(sec.as_slice(), 2);
    let flags = flag_lines(D2K_SHELL_PATTERN, &rest);
    let blocks = partition_lines(rest.as_slice(), flags.as_slice(), 0, None, None, None, 2, true)?;
    let ghost bv = blocks.deep_view();
    let ghost v0 = elements_view(elements@);
    let mut i: usize = 0;
    while i < blocks.len()
        invariant
            i <= blocks@.len(),
            bv == blocks.deep_view(),
            sv == sec.deep_view(),
            v0 == elements_view(old(elements)@),
            d2k_element(sv, v0) == d2k_shells(bv, z, v0, bv.len() as int),
            keys_increasing(elements@),
            d2k_shells(bv, z, v0, i as int) == Some(elements_view(elements@)),
        decreases blocks.len() - i,
    {
        assert(bv[i as int] == blocks@[i as int].deep_view());
        if blocks[i].len() > 0 && regex_is_match(D2K_SHELL_PATTERN, blocks[i][0].as_str()) {
            assert(bv[i as int][0] == blocks@[i as int]@[0]@);
            match d2k_shell_exec(&blocks[i]) {
                Ok(sh) => {
                    add_shell(elements, z, sh);
                },
                Err(e) => {
                    proof {
                        assert(d2k_shells(bv, z, v0, i + 1) is None);
                        lemma_shells_none(bv, z, v0, i + 1, bv.len() as int);
                    }
                    return Err(e);
                },
            }
        } else {
            proof {
                if blocks@[i as int]@.len() > 0 {
                    assert(bv[i as int][0] == blocks@[i as int]@[0]@);
                }
            }
        }
        i = i + 1;
    }
    Ok(())
}

fn scan_terms(l: &Vec<String>) -> (r: Vec<Vec<Vec<String>>>)
    ensures
        r.deep_view() == ecp_scan(l.deep_view(), 0, Seq::empty(), None),
{
    let ghost lv = l.deep_view();
    let mut done: Vec<Vec<Vec<String>>> = Vec::new();
    let mut cur: Option<Vec<Vec<String>>> = None;
    let ghost target = ecp_scan(lv, 0, Seq::empty(), None);
    proof {
        assert(done.deep_view() =~= Seq::<Seq<Seq<Seq<char>>>>::empty());
    }
    let mut i: usize = 0;
    while i < l.len()
        invariant
            i <= l@.len(),
            lv == l.deep_view(),
            target == ecp_scan(lv, 0, Seq::empty(), None),
            target == ecp_scan(lv, i as int, done.deep_view(), match cur {
                Some(d) => Some(d.deep_view()),
                None => None,
            }),
        decreases l.len() - i,
    {
        assert(lv[i as int] == l@[i as int]@);
        let ghost dv = done.deep_view();
        if regex_is_match(D2K_ECP_SHELL_PATTERN, l[i].as_str()) {
            match cur {
                Some(d) => {
                    let ghost x = d.deep_view();
                    done.push(d);
                    assert(done.deep_view() =~= dv.push(x));
                },
                None => {},
            }
            let fresh: Vec<Vec<String>> = Vec::new();
            assert(fresh.deep_view() =~= Seq::<Seq<Seq<char>>>::empty());
            cur = Some(fresh);
        } else if regex_is_match(D2K_ECP_DATA_PATTERN, l[i].as_str()) {
            let g = parse_line_regex(D2K_ECP_DATA_PATTERN, l[i].as_str(), "rexp gexp gcoeff");
            match g {
                Ok(row) => {
                    match cur {
                        Some(mut d) => {
                            let ghost x = d.deep_view();
                            let ghost rv = row.deep_view();
                            d.push(row);
                            assert(d.deep_view() =~= x.push(rv));
                            cur = Some(d);
                        },
                        None => {},
                    }
                },
                Err(_) => {},
            }
        } else if regex_is_match(D2K_END_PATTERN, l[i].as_str()) {
            match cur {
                Some(d) => {
                    let ghost x = d.deep_view();
                    done.push(d);
                    assert(done.deep_view() =~= dv.push(x));
                },
                None => {},
            }
            return done;
        }
        i = i + 1;
    }
    match cur {
        Some(d) => {
            let ghost dv = done.deep_view();
            let ghost x = d.deep_view();
            done.push(d);
            assert(done.deep_view() =~= dv.push(x));
        },
        None => {},
    }
    done
}

fn block_potential(d: &Vec<Vec<String>>, am: i32) -> (r: Option<BseEcpPotential>)
    ensures
        match r {
            Some(p) => terms_ok(d.deep_view()) && p@ == d2k_potential(am as int, d.deep_view()),
            None => !terms_ok(d.deep_view()),
        },
{
    let ghost dv = d.deep_view();
    let mut rexp: Vec<i32> = Vec::new();
    let mut gexp: Vec<String> = Vec::new();
    let mut coef: Vec<String> = Vec::new();
    let mut q: usize = 0;
    while q < d.len()
        invariant
            q <= d@.len(),
            dv == d.deep_view(),
            forall|p: int| 0 <= p < q ==> (#[trigger] dv[p]).len() >= 3 && parse_i32_spec(dv[p][0]) is Some,
            rexp@ == Seq::new(q as nat, |p: int| parse_i32_spec(dv[p][0])->0),
            gexp.deep_view() == Seq::new(q as nat, |p: int| dv[p][1]),
            coef.deep_view() == Seq::new(q as nat, |p: int| dv[p][2]),
        decreases d.len() - q,
    {
        assert(dv[q as int] == d@[q as int].deep_view());
        if d[q].len() < 3 {
            assert(!terms_ok(dv));
            return None;
        }
        assert(dv[q as int][0] == d@[q as int]@[0]@ && dv[q as int][1] == d@[q as int]@[1]@ && dv[q as int][2] == d@[q as int]@[2]@);
        let v = match parse_i32(chars_of(d[q][0].as_str()).as_slice()) {
            Some(v) => v,
            None => {
                assert(!terms_ok(dv));
                return None;
            },
        };
        let ghost (o1, o2) = (gexp.deep_view(), coef.deep_view());
        rexp.push(v);
        gexp.push(d[q][1].clone());
        coef.push(d[q][2].clone());
        assert(rexp@ =~= Seq::new((q + 1) as nat, |p: int| parse_i32_spec(dv[p][0])->0));
        assert(gexp.deep_view() =~= o1.push(dv[q as int][1]));
        assert(coef.deep_view() =~= o2.push(dv[q as int][2]));
        assert(gexp.deep_view() =~= Seq::new((q + 1) as nat, |p: int| dv[p][1]));
        assert(coef.deep_view() =~= Seq::new((q + 1) as nat, |p: int| dv[p][2]));
        q = q + 1;
    }
    let ghost cv = coef.deep_view();
    let p = BseEcpPotential {
        angular_momentum: vec![am],
        coefficients: vec![coef],
        ecp_type: "scalar_ecp".to_string(),
        r_exponents: rexp,
        gaussian_exponents: gexp,
    };
    proof {
        reveal_strlit("scalar_ecp");
        assert(p@.am =~= seq![am]);
        assert(p@.coefficients =~= seq![cv]);
        assert(p@ == d2k_potential(am as int, dv));
    }
    Some(p)
}

fn read_ecp_element(b: &Vec<String>, elements: &mut Vec<(i32, BseBasisElement)>) -> (r: Result<(), BseError>)
    requires
        keys_increasing(old(elements)@),
    ensures
        match ecp_element(b.deep_view(), elements_view(old(elements)@)) {
            Some(w) => r is Ok && elements_view(final(elements)@) == w && keys_increasing(final(elements)@),
            None => r matches Err(e) && e is ValueError,
        },
{
    let ghost bv = b.deep_view();
    if b.len() == 0 {
        return Ok(());
    }
    assert(bv[0] == b@[0]@);
    if !regex_is_match(D2K_ECP_ENTRY_PATTERN, b[0].as_str()) {
        return Ok(());
    }
    let g = parse_line_regex(D2K_ECP_ENTRY_PATTERN, b[0].as_str(), "symbol nelec N")?;
    if g.len() < 2 {
        return Err(BseError::ValueError("symbol nelec N".to_string()));
    }
    assert(g.deep_view()[0] == g@[0]@ && g.deep_view()[1] == g@[1]@);
    let nelec = match parse_i32(chars_of(g[1].as_str()).as_slice()) {
        Some(v) => v,
        None => {
            return Err(BseError::ValueError("Invalid nelec".to_string()));
        },
    };
    let z = match element_Z_from_sym(g[0].as_str()) {
        Some(z) => z,
        None => {
            return Err(BseError::ValueError("Unknown element symbol".to_string()));
        },
    };
    set_core(elements, z, nelec);
    let rest = lines_from(b.as_slice(), 1);
    let blocks = scan_terms(&rest);
    let ghost blv = blocks.deep_view();
    let n = blocks.len();
    if n > 2147483647 {
        return Err(BseError::ValueError("Too many ECP blocks".to_string()));
    }
    let ghost v0 = elements_view(elements@);
    let mut k: usize = 0;
    while k < n
        invariant
            k <= n,
            n == blocks@.len(),
            n <= 2147483647,
            blv == blocks.deep_view(),
            bv == b.deep_view(),
            ecp_element(bv, elements_view(old(elements)@)) == d2k_pots(blv, z, v0, n as int),
            keys_increasing(elements@),
            d2k_pots(blv, z, v0, k as int) == Some(elements_view(elements@)),
        decreases n - k,
    {
        assert(blv[k as int] == blocks@[k as int].deep_view());
        let am: i32 = if k == 0 {
            (n - 1) as i32
        } else {
            (k - 1) as i32
        };
        match block_potential(&blocks[k], am) {
            Some(p) => {
                add_potential(elements, z, p);
            },
            None => {
                proof {
                    assert(d2k_pots(blv, z, v0, k + 1) is None);
                    lemma_pots_none(blv, z, v0, k + 1, n as int);
                }
                return Err(BseError::ValueError("Invalid ECP term".to_string()));
            },
        }
        k = k + 1;
    }
    Ok(())
}

fn read_ecp_section(sec: &Vec<String>, elements: &mut Vec<(i32, BseBasisElement)>) -> (r: Result<(), BseError>)
    requires
        keys_increasing(old(elements)@),
    ensures
        match ecp_section(sec.deep_view(), elements_view(old(elements)@)) {
            Some(w) => r is Ok && elements_view(final(elements)@) == w && keys_increasing(final(elements)@),
            None => r matches Err(e) && e is ValueError,
        },
{
    let ghost sv = sec.deep_view();
    let skip: usize = if sec.len() > 0 && crate::text::chars_eq(trim_chars(chars_of(sec[0].as_str()).as_slice()).as_slice(), chars_of("ECP").as_slice()) {
        1
    } else {
        0
    };
    proof {
        reveal_strlit("ECP");
        if sec@.len() > 0 {
            assert(sv[0] == sec@[0]@);
        }
        assert(sv.skip(0) =~= sv);
    }
    let rest = lines_from(sec.as_slice(), skip);
    let flags = flag_lines(D2K_ECP_ENTRY_PATTERN, &rest);
    let blocks = partition_lines(rest.as_slice(), flags.as_slice(), 0, None, None, None, 2, true)?;
    let ghost bv = blocks.deep_view();
    let ghost v0 = elements_view(elements@);
    let mut i: usize = 0;
    while i < blocks.len()
        invariant
            i <= blocks@.len(),
            bv == blocks.deep_view(),
            sv == sec.deep_view(),
            v0 == elements_view(old(elements)@),
            ecp_section(sv, v0) == ecp_elements(bv, v0, bv.len() as int),
            keys_increasing(elements@),
            ecp_elements(bv, v0, i as int) == Some(elements_view(elements@)),
        decreases blocks.len() - i,
    {
        assert(bv[i as int] == blocks@[i as int].deep_view());
        match read_ecp_element(&blocks[i], elements) {
            Ok(()) => {},
            Err(e) => {
                proof {
                    assert(ecp_elements(bv, v0, i + 1) is None);
                    lemma_ecp_elements_none(bv, v0, i + 1, bv.len() as int);
                }
                return Err(e);
            },
        }
        i = i + 1;
    }
    Ok(())
}

/// Read a basis set in the deMon2k format: the shells of each element
/// section, each added at the end of its element's shells, then the
/// potentials of each potential section, with the core electrons of their
/// elements; the first block of a potential is its local part, of angular
/// momentum one above the others. A `ValueError` comes when the text does
/// not parse (see [`demon2k_spec`]).
pub fn read_demon2k(basis_str: &str) -> (r: Result<BseBasisMinimal, BseError>)
    ensures
        match demon2k_spec(basis_str@) {
            Some(elems) => r matches Ok(b) && elements_view(b.elements@) == elems && keys_increasing(b.elements@)
                && b.function_types.deep_view() == sort_distinct_strs(shell_types(elems))
                && b.name@ == reader_name(None) && b.description@ == "no_description"@
                && b.molssi_bse_schema.schema_type@ == "minimal"@ && b.molssi_bse_schema.schema_version@ == "0.1"@,
            None => r matches Err(e) && e is ValueError,
        },
{
    let raw = trimmed_lines(basis_str);
    let lines = prune_lines(raw.as_slice(), "#", true, true);
    let ghost lv = lines.deep_view();
    let mut elements: Vec<(i32, BseBasisElement)> = Vec::new();
    proof {
        assert(elements_view(elements@) =~= Seq::<(i32, ElementV)>::empty());
    }
    if lines.len() == 0 {
        return Ok(reader_basis(elements, None));
    }
    let oflags = flag_lines(D2K_ORBITAL_PATTERN, &lines);
    let secs = partition_lines(lines.as_slice(), oflags.as_slice(), 0, None, None, None, 3, true)?;
    let ghost sv = secs.deep_view();
    let mut i: usize = 0;
    while i < secs.len()
        invariant
            i <= secs@.len(),
            sv == secs.deep_view(),
            lv == lines.deep_view(),
            lv.len() > 0,
            demon2k_spec(basis_str@) == match d2k_elements(sv, sv.len() as int) {
                None => None,
                Some(w) => match partition_spec(lv, flags_of(D2K_ECP_START_PATTERN@, lv), 0, None, None, None, 2, true) {
                    None => None,
                    Some(es) => ecp_sections(es, w, es.len() as int),
                },
            },
            keys_increasing(elements@),
            d2k_elements(sv, i as int) == Some(elements_view(elements@)),
        decreases secs.len() - i,
    {
        assert(sv[i as int] == secs@[i as int].deep_view());
        if secs[i].len() > 0 && regex_is_match(D2K_ORBITAL_PATTERN, secs[i][0].as_str()) {
            assert(sv[i as int][0] == secs@[i as int]@[0]@);
            match read_element(&secs[i], &mut elements) {
                Ok(()) => {},
                Err(e) => {
                    proof {
                        assert(d2k_elements(sv, i + 1) is None);
                        lemma_elements_none(sv, i + 1, sv.len() as int);
                    }
                    return Err(e);
                },
            }
        } else {
            proof {
                if secs@[i as int]@.len() > 0 {
                    assert(sv[i as int][0] == secs@[i as int]@[0]@);
                }
            }
        }
        i = i + 1;
    }
    let eflags = flag_lines(D2K_ECP_START_PATTERN, &lines);
    let es = partition_lines(lines.as_slice(), eflags.as_slice(), 0, None, None, None, 2, true)?;
    let ghost ev = es.deep_view();
    let ghost w0 = elements_view(elements@);
    let mut j: usize = 0;
    while j < es.len()
        invariant
            j <= es@.len(),
            ev == es.deep_view(),
            demon2k_spec(basis_str@) == ecp_sections(ev, w0, ev.len() as int),
            keys_increasing(elements@),
            ecp_sections(ev, w0, j as int) == Some(elements_view(elements@)),
        decreases es.len() - j,
    {
        assert(ev[j as int] == es@[j as int].deep_view());
        if es[j].len() > 0 && regex_is_match(D2K_ECP_START_PATTERN, es[j][0].as_str()) {
            assert(ev[j as int][0] == es@[j as int]@[0]@);
            match read_ecp_section(&es[j], &mut elements) {
                Ok(()) => {},
                Err(e) => {
                    proof {
                        assert(ecp_sections(ev, w0, j + 1) is None);
                        lemma_ecp_sections_none(ev, w0, j + 1, ev.len() as int);
                    }
                    return Err(e);
                },
            }
        } else {
            proof {
                if es@[j as int]@.len() > 0 {
                    assert(ev[j as int][0] == es@[j as int]@[0]@);
                }
            }
        }
        j = j + 1;
    }
    Ok(reader_basis(elements, None))
}

/* #endregion */

} // verus!
