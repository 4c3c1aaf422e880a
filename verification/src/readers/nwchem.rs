//! Reading basis sets in the NWChem format.
//!
//! An NWChem file holds a `BASIS` section and perhaps an `ECP` section, each
//! closed by `END`. A shell opens with `symbol letters`, followed by a line
//! per primitive (exponent, then the coefficients). A potential opens with
//! `symbol letter` (`ul` for the local part) and has a line per term
//! (power, exponent, coefficient); `symbol nelec n` gives the core
//! electrons.
use crate::error::BseError;
use crate::fields::{BseBasisElement, BseBasisMinimal, BseEcpPotential, BseElectronShell, ElementV, PotentialV, ShellV, elements_view, keys_increasing};
use crate::compose::shell_types;
use crate::lut::{seq_max, max_of, amchar_to_int, amchar_to_int_spec, element_Z_from_sym, function_type_from_am, function_type_spec, lower_ascii, sym_search, to_lower_ascii};
use crate::readers::helpers::{
    add_potential, add_shell, alpha_flag_lines, alpha_flags, ecp_table_spec, entry_of, groups_text, lines_from, parse_ecp_table,
    parse_line_regex, parse_primitive_matrix, partition_lines, partition_spec, primitive_matrix_spec, prune_lines,
    prune_lines_spec, push_potential, push_shell, put_entry, reader_basis, reader_name, set_core, text_lines, trimmed_lines,
    with_core, regex_captures_of,
};
use crate::text::{chars_of, contains_spec, has_prefix, lowercase_of, parse_i32, parse_i32_spec, sort_distinct_strs, to_lowercase};
use vstd::prelude::*;

verus! {

/// A line that opens a shell or a potential: symbol and letters.
pub const NW_AM_LINE_PATTERN: &'static str = r"^([A-Za-z]+)\s+([A-Za-z]+)$";

/// A line that gives the core electrons of an element.
pub const NW_NELEC_PATTERN: &'static str = r"(?i)^([a-z]+)\s+nelec\s+(\d+)$";

/* #region specification */

/// `l` is `end` in any ASCII case.
pub open spec fn is_end(l: Seq<char>) -> bool {
    l.map_values(|c: char| lower_ascii(c)) == "end"@
}

/// The lines that are not `end`.
pub open spec fn drop_end(s: Seq<Seq<char>>) -> Seq<Seq<char>>
    decreases s.len(),
{
    if s.len() == 0 {
        Seq::empty()
    } else {
        drop_end(s.drop_last()) + if is_end(s.last()) {
            Seq::empty()
        } else {
            seq![s.last()]
        }
    }
}

/// The lines after the first, if any.
pub open spec fn after_first(s: Seq<Seq<char>>) -> Seq<Seq<char>> {
    if s.len() == 0 {
        Seq::empty()
    } else {
        s.skip(1)
    }
}

/// The atomic number and the letters of a line that opens a shell or a
/// potential.
pub open spec fn nw_am_line(line: Seq<char>) -> Option<(i32, Seq<char>)> {
    match regex_captures_of(NW_AM_LINE_PATTERN@, line) {
        None => None,
        Some(caps) => {
            let g = groups_text(caps);
            if g.len() < 2 {
                None
            } else {
                match sym_search(lowercase_of(g[0]), 1) {
                    Some(z) => Some((z, g[1])),
                    None => None,
                }
            }
        },
    }
}

/// The element map after one shell block, its shells of the given
/// spherical or cartesian type; `None` when its opening line does not
/// match, names an unknown symbol or letter, or the primitives do not parse
/// (for a fused shell, their number must equal the number of letters).
pub open spec fn nw_shell_block(b: Seq<Seq<char>>, am_type: Seq<char>, w: Seq<(i32, ElementV)>) -> Option<Seq<(i32, ElementV)>> {
    match nw_am_line(b[0]) {
        None => None,
        Some((z, letters)) => match amchar_to_int_spec(lowercase_of(letters), false) {
            None => None,
            Some(am) => if am.len() == 0 {
                None
            } else {
                let nprim: Option<usize> = if am.len() > 1 {
                    Some(am.len() as usize)
                } else {
                    None
                };
                match primitive_matrix_spec(b.skip(1), nprim, None) {
                    None => None,
                    Some((e, c)) => {
                        let sh = ShellV {
                            function_type: function_type_spec(am, "gto"@, am_type),
                            region: Seq::empty(),
                            am,
                            exponents: e,
                            coefficients: c,
                        };
                        Some(put_entry(w, z, push_shell(entry_of(w, z), sh)))
                    },
                }
            },
        },
    }
}

/// The element map after the first `n` shell blocks.
pub open spec fn nw_shells(blocks: Seq<Seq<Seq<char>>>, am_type: Seq<char>, v: Seq<(i32, ElementV)>, n: int) -> Option<Seq<(i32, ElementV)>>
    decreases n,
{
    if n <= 0 {
        Some(v)
    } else {
        match nw_shells(blocks, am_type, v, n - 1) {
            Some(w) => nw_shell_block(blocks[n - 1], am_type, w),
            None => None,
        }
    }
}

/// The shell type a `BASIS` line asks for.
pub open spec fn am_type_of(head: Seq<char>) -> Seq<char> {
    if contains_spec(lowercase_of(head), "spherical"@) {
        "spherical"@
    } else {
        "cartesian"@
    }
}

/// The element map after a `BASIS` section: without its `end` lines, its
/// first line must start with `basis` (in lowercase); the other lines are
/// cut into shell blocks at the lines starting with a letter.
pub open spec fn nw_electron(s: Seq<Seq<char>>, w: Seq<(i32, ElementV)>) -> Option<Seq<(i32, ElementV)>> {
    let bl = drop_end(s);
    if bl.len() == 0 || !has_prefix(lowercase_of(bl[0]), "basis"@) {
        None
    } else {
        let rest = bl.skip(1);
        match partition_spec(rest, alpha_flags(rest), 0, None, None, None, 2, true) {
            None => None,
            Some(blocks) => nw_shells(blocks, am_type_of(bl[0]), w, blocks.len() as int),
        }
    }
}

/// The column order of a potential table: power, exponent, coefficient.
pub open spec fn nw_order() -> Seq<Seq<char>> {
    seq!["r_exp"@, "g_exp"@, "coeff"@]
}

/// The element map after one block of an `ECP` section: a single line
/// gives the core electrons of an element; otherwise the block is a
/// potential (angular momentum left empty for `ul`).
pub open spec fn nw_ecp_block(b: Seq<Seq<char>>, w: Seq<(i32, ElementV)>) -> Option<Seq<(i32, ElementV)>> {
    if b.len() == 1 {
        match regex_captures_of(NW_NELEC_PATTERN@, b[0]) {
            None => None,
            Some(caps) => {
                let g = groups_text(caps);
                if g.len() < 2 {
                    None
                } else {
                    match (sym_search(lowercase_of(g[0]), 1), parse_i32_spec(g[1])) {
                        (Some(z), Some(n)) => Some(put_entry(w, z, with_core(entry_of(w, z), n))),
                        _ => None,
                    }
                }
            },
        }
    } else {
        match nw_am_line(b[0]) {
            None => None,
            Some((z, letters)) => {
                let am = if lowercase_of(letters) == "ul"@ {
                    Some(Seq::<i32>::empty())
                } else {
                    amchar_to_int_spec(lowercase_of(letters), false)
                };
                match (am, ecp_table_spec(b.skip(1), nw_order())) {
                    (Some(a), Some((r, e, c))) => {
                        let p = PotentialV {
                            am: a,
                            coefficients: seq![c],
                            ecp_type: "scalar_ecp"@,
                            r_exponents: r,
                            gaussian_exponents: e,
                        };
                        Some(put_entry(w, z, push_potential(entry_of(w, z), p)))
                    },
                    _ => None,
                }
            },
        }
    }
}

/// The element map after the first `n` blocks of an `ECP` section.
pub open spec fn nw_ecp_blocks(blocks: Seq<Seq<Seq<char>>>, v: Seq<(i32, ElementV)>, n: int) -> Option<Seq<(i32, ElementV)>>
    decreases n,
{
    if n <= 0 {
        Some(v)
    } else {
        match nw_ecp_blocks(blocks, v, n - 1) {
            Some(w) => nw_ecp_block(blocks[n - 1], w),
            None => None,
        }
    }
}

/// The largest angular momentum of some potentials, if any has one.
pub open spec fn pots_max_am(ps: Seq<PotentialV>) -> Option<i32>
    decreases ps.len(),
{
    if ps.len() == 0 {
        None
    } else {
        let m = pots_max_am(ps.drop_last());
        let a = ps.last().am;
        if a.len() == 0 {
            m
        } else {
            let t = seq_max(a);
            match m {
                None => Some(t),
                Some(x) => Some(if x >= t { x } else { t }),
            }
        }
    }
}

/// The angular momentum given to the local part (`ul`) of an element's
/// potentials: one more than the largest of the others (or than 0).
pub open spec fn local_am(ps: Seq<PotentialV>) -> i32 {
    let m: int = match pots_max_am(ps) {
        Some(x) => x as int,
        None => 0,
    };
    (m + 1) as i32
}

/// A potential with its angular momentum set to `am` if it has none.
pub open spec fn fix_potential(p: PotentialV, am: i32) -> PotentialV {
    if p.am.len() == 0 {
        PotentialV { am: seq![am], ..p }
    } else {
        p
    }
}

/// An element whose local potential gets its angular momentum.
pub open spec fn fix_element(e: ElementV) -> ElementV {
    match e.potentials {
        Some(ps) => ElementV { potentials: Some(ps.map_values(|p: PotentialV| fix_potential(p, local_am(ps)))), ..e },
        None => e,
    }
}

/// The element map once its potentials are complete: each local potential
/// gets its angular momentum; `None` when an element with potentials has no
/// core electrons.
pub open spec fn nw_fixup(w: Seq<(i32, ElementV)>) -> Option<Seq<(i32, ElementV)>> {
    if exists|k: int| 0 <= k < w.len() && (#[trigger] w[k]).1.potentials is Some && w[k].1.ecp_electrons is None {
        None
    } else {
        Some(w.map_values(|x: (i32, ElementV)| (x.0, fix_element(x.1))))
    }
}

/// The element map after an `ECP` section: without its `end` lines and its
/// first line, cut into blocks at the lines starting with a letter.
pub open spec fn nw_ecp(s: Seq<Seq<char>>, w: Seq<(i32, ElementV)>) -> Option<Seq<(i32, ElementV)>> {
    let rest = after_first(drop_end(s));
    match partition_spec(rest, alpha_flags(rest), 0, None, None, None, 1, true) {
        None => None,
        Some(blocks) => match nw_ecp_blocks(blocks, w, blocks.len() as int) {
            Some(w2) => nw_fixup(w2),
            None => None,
        },
    }
}

/// The element map after one section: shells for a `basis` section,
/// potentials for an `ecp` section (by the lowercase first line); any other
/// section is an error.
pub open spec fn nw_section(s: Seq<Seq<char>>, w: Seq<(i32, ElementV)>) -> Option<Seq<(i32, ElementV)>> {
    if s.len() == 0 {
        Some(w)
    } else if has_prefix(lowercase_of(s[0]), "basis"@) {
        nw_electron(s, w)
    } else if has_prefix(lowercase_of(s[0]), "ecp"@) {
        nw_ecp(s, w)
    } else {
        None
    }
}

/// The element map after the first `n` sections.
pub open spec fn nw_sections(secs: Seq<Seq<Seq<char>>>, n: int) -> Option<Seq<(i32, ElementV)>>
    decreases n,
{
    if n <= 0 {
        Some(Seq::empty())
    } else {
        match nw_sections(secs, n - 1) {
            Some(w) => nw_section(secs[n - 1], w),
            None => None,
        }
    }
}

/// Which lines are `end` (lowercased).
pub open spec fn end_flags(lines: Seq<Seq<char>>) -> Seq<bool> {
    Seq::new(lines.len(), |i: int| lowercase_of(lines[i]) == "end"@)
}

/// What an NWChem text holds: its lines trimmed, without blank lines and
/// `#` lines, cut into one or two sections at the `end` lines (which are
/// dropped). `None` when the text does not parse.
pub open spec fn nwchem_spec(text: Seq<char>) -> Option<Seq<(i32, ElementV)>> {
    let lines = prune_lines_spec(text_lines(text), "#"@, true, false);
    match partition_spec(lines, end_flags(lines), 0, None, Some(1), Some(2), 1, false) {
        None => None,
        Some(secs) => nw_sections(secs, secs.len() as int),
    }
}

/* #endregion */

/* #region reading */

proof fn lemma_shells_none(blocks: Seq<Seq<Seq<char>>>, t: Seq<char>, v: Seq<(i32, ElementV)>, k: int, n: int)
    requires
        0 <= k <= n,
        nw_shells(blocks, t, v, k) is None,
    ensures
        nw_shells(blocks, t, v, n) is None,
    decreases n - k,
{
    if k < n {
        lemma_shells_none(blocks, t, v, k + 1, n);
    }
}

proof fn lemma_ecp_blocks_none(blocks: Seq<Seq<Seq<char>>>, v: Seq<(i32, ElementV)>, k: int, n: int)
    requires
        0 <= k <= n,
        nw_ecp_blocks(blocks, v, k) is None,
    ensures
        nw_ecp_blocks(blocks, v, n) is None,
    decreases n - k,
{
    if k < n {
        lemma_ecp_blocks_none(blocks, v, k + 1, n);
    }
}

proof fn lemma_sections_none(secs: Seq<Seq<Seq<char>>>, k: int, n: int)
    requires
        0 <= k <= n,
        nw_sections(secs, k) is None,
    ensures
        nw_sections(secs, n) is None,
    decreases n - k,
{
    if k < n {
        lemma_sections_none(secs, k + 1, n);
    }
}

fn lower_ascii_chars(s: &str) -> (r: Vec<char>)
    ensures
        r@ == s@.map_values(|c: char| lower_ascii(c)),
{
    let c = chars_of(s);
    let mut low: Vec<char> = Vec::new();
    let mut q: usize = 0;
    while q < c.len()
        invariant
            q <= c@.len(),
            c@ == s@,
            low@ == c@.take(q as int).map_values(|c: char| lower_ascii(c)),
        decreases c.len() - q,
    {
        low.push(to_lower_ascii(c[q]));
        assert(low@ =~= c@.take(q + 1).map_values(|c: char| lower_ascii(c)));
        q = q + 1;
    }
    assert(c@.take(c@.len() as int) =~= c@);
    low
}

fn drop_end_lines(s: &Vec<String>) -> (r: Vec<String>)
    ensures
        r.deep_view() == drop_end(s.deep_view()),
{
    let ghost sv = s.deep_view();
    let end = chars_of("end");
    let mut r: Vec<String> = Vec::new();
    let mut k: usize = 0;
    assert(r.deep_view() =~= drop_end(sv.take(0)));
    while k < s.len()
        invariant
            k <= s@.len(),
            sv == s.deep_view(),
            end@ == "end"@,
            r.deep_view() == drop_end(sv.take(k as int)),
        decreases s.len() - k,
    {
        assert(sv.take(k + 1).drop_last() =~= sv.take(k as int));
        assert(sv[k as int] == s@[k as int]@);
        let low = lower_ascii_chars(s[k].as_str());
        if !crate::text::chars_eq(low.as_slice(), end.as_slice()) {
            let ghost before = r.deep_view();
            r.push(s[k].clone());
            assert(r.deep_view() =~= before + seq![sv[k as int]]);
        } else {
            assert(drop_end(sv.take(k + 1)) =~= drop_end(sv.take(k as int)));
        }
        k = k + 1;
    }
    assert(sv.take(s@.len() as int) =~= sv);
    r
}

fn am_line(line: &str) -> (r: Result<(i32, String), BseError>)
    ensures
        match nw_am_line(line@) {
            Some((z, l)) => r matches Ok((a, b)) && a == z && b@ == l,
            None => r matches Err(e) && e is ValueError,
        },
{
    let g = parse_line_regex(NW_AM_LINE_PATTERN, line, "Element sym, shell am")?;
    if g.len() < 2 {
        return Err(BseError::ValueError("Element sym, shell am".to_string()));
    }
    assert(g.deep_view()[0] == g@[0]@ && g.deep_view()[1] == g@[1]@);
    match element_Z_from_sym(g[0].as_str()) {
        Some(z) => Ok((z, g[1].clone())),
        None => Err(BseError::ValueError("Unknown element symbol".to_string())),
    }
}

/// A shell of the given letters from its primitive lines, of the given
/// spherical or cartesian type (see [`nw_shell_block`]), or a `ValueError`.
pub fn nw_shell(letters: &str, data: &Vec<String>, am_type: &str) -> (r: Result<BseElectronShell, BseError>)
    ensures
        match amchar_to_int_spec(lowercase_of(letters@), false) {
            Some(am) => if am.len() == 0 {
                r matches Err(e) && e is ValueError
            } else {
                match primitive_matrix_spec(
                    data.deep_view(),
                    if am.len() > 1 {
                        Some(am.len() as usize)
                    } else {
                        None
                    },
                    None,
                ) {
                    Some((e, c)) => r matches Ok(sh) && sh@ == ShellV {
                        function_type: function_type_spec(am, "gto"@, am_type@),
                        region: Seq::empty(),
                        am,
                        exponents: e,
                        coefficients: c,
                    },
                    None => r matches Err(e) && e is ValueError,
                }
            },
            None => r matches Err(e) && e is ValueError,
        },
{
    let am = match amchar_to_int(letters, false) {
        Some(a) => a,
        None => {
            return Err(BseError::ValueError("Unknown angular momentum".to_string()));
        },
    };
    if am.len() == 0 {
        return Err(BseError::ValueError("Unknown angular momentum".to_string()));
    }
    let function_type = function_type_from_am(am.as_slice(), "gto", am_type);
    let nprim: Option<usize> = if am.len() > 1 {
        Some(am.len())
    } else {
        None
    };
    let (exponents, coefficients) = parse_primitive_matrix(data.as_slice(), nprim, None)?;
    let sh = BseElectronShell { function_type, region: String::new(), angular_momentum: am, exponents, coefficients };
    proof {
        reveal_strlit("gto");
        assert(sh@.region =~= Seq::<char>::empty());
    }
    Ok(sh)
}

fn read_shell_block(b: &Vec<String>, am_type: &str, elements: &mut Vec<(i32, BseBasisElement)>) -> (r: Result<(), BseError>)
    requires
        keys_increasing(old(elements)@),
        b@.len() >= 1,
    ensures
        match nw_shell_block(b.deep_view(), am_type@, elements_view(old(elements)@)) {
            Some(w) => r is Ok && elements_view(final(elements)@) == w && keys_increasing(final(elements)@),
            None => r matches Err(e) && e is ValueError,
        },
{
    assert(b.deep_view()[0] == b@[0]@);
    let (z, letters) = am_line(b[0].as_str())?;
    let data = lines_from(b.as_slice(), 1);
    let sh = nw_shell(letters.as_str(), &data, am_type)?;
    add_shell(elements, z, sh);
    Ok(())
}

fn read_electron_section(s: &Vec<String>, elements: &mut Vec<(i32, BseBasisElement)>) -> (r: Result<(), BseError>)
    requires
        keys_increasing(old(elements)@),
    ensures
        match nw_electron(s.deep_view(), elements_view(old(elements)@)) {
            Some(w) => r is Ok && elements_view(final(elements)@) == w && keys_increasing(final(elements)@),
            None => r matches Err(e) && e is ValueError,
        },
{
    let bl = drop_end_lines(s);
    let ghost blv = bl.deep_view();
    if bl.len() == 0 {
        return Err(BseError::ValueError("Basis entry must start with 'basis'".to_string()));
    }
    assert(blv[0] == bl@[0]@);
    let head = to_lowercase(bl[0].as_str());
    let hc = chars_of(head.as_str());
    if !crate::text::starts_with(hc.as_slice(), chars_of("basis").as_slice()) {
        return Err(BseError::ValueError("Basis entry must start with 'basis'".to_string()));
    }
    let am_type = if crate::text::contains(hc.as_slice(), chars_of("spherical").as_slice()) {
        "spherical"
    } else {
        "cartesian"
    };
    let rest = lines_from(bl.as_slice(), 1);
    let flags = alpha_flag_lines(&rest);
    let blocks = partition_lines(rest.as_slice(), flags.as_slice(), 0, None, None, None, 2, true)?;
    let ghost bv = blocks.deep_view();
    let ghost v0 = elements_view(elements@);
    proof {
        assert forall|k: int| 0 <= k < bv.len() implies #[trigger] bv[k].len() >= 1 by {
            if bv[k].len() < 2 {
                assert(crate::readers::helpers::has_short_block(bv, 2));
            }
        }
        assert(am_type@ == am_type_of(blv[0]));
    }
    let mut i: usize = 0;
    while i < blocks.len()
        invariant
            i <= blocks@.len(),
            bv == blocks.deep_view(),
            v0 == elements_view(old(elements)@),
            nw_electron(s.deep_view(), v0) == nw_shells(bv, am_type@, v0, bv.len() as int),
            forall|k: int| 0 <= k < bv.len() ==> #[trigger] bv[k].len() >= 1,
            keys_increasing(elements@),
            nw_shells(bv, am_type@, v0, i as int) == Some(elements_view(elements@)),
        decreases blocks.len() - i,
    {
        assert(bv[i as int] == blocks@[i as int].deep_view());
        assert(bv[i as int].len() >= 1);
        match read_shell_block(&blocks[i], am_type, elements) {
            Ok(()) => {},
            Err(e) => {
                proof {
                    assert(nw_shells(bv, am_type@, v0, i + 1) is None);
                    lemma_shells_none(bv, am_type@, v0, i + 1, bv.len() as int);
                }
                return Err(e);
            },
        }
        i = i + 1;
    }
    Ok(())
}

/* #endregion */

/* #region reading potentials */

fn read_ecp_block(b: &Vec<String>, elements: &mut Vec<(i32, BseBasisElement)>) -> (r: Result<(), BseError>)
    requires
        keys_increasing(old(elements)@),
        b@.len() >= 1,
    ensures
        match nw_ecp_block(b.deep_view(), elements_view(old(elements)@)) {
            Some(w) => r is Ok && elements_view(final(elements)@) == w && keys_increasing(final(elements)@),
            None => r matches Err(e) && e is ValueError,
        },
{
    assert(b.deep_view()[0] == b@[0]@);
    if b.len() == 1 {
        let g = parse_line_regex(NW_NELEC_PATTERN, b[0].as_str(), "ECP: Element sym, nelec")?;
        if g.len() < 2 {
            return Err(BseError::ValueError("ECP: Element sym, nelec".to_string()));
        }
        assert(g.deep_view()[0] == g@[0]@ && g.deep_view()[1] == g@[1]@);
        let z = match element_Z_from_sym(g[0].as_str()) {
            Some(z) => z,
            None => {
                return Err(BseError::ValueError("Unknown element symbol".to_string()));
            },
        };
        let n = match parse_i32(chars_of(g[1].as_str()).as_slice()) {
            Some(n) => n,
            None => {
                return Err(BseError::ValueError("Invalid nelec value".to_string()));
            },
        };
        set_core(elements, z, n);
        return Ok(());
    }
    let (z, letters) = am_line(b[0].as_str())?;
    let low = to_lowercase(letters.as_str());
    let am = if crate::text::chars_eq(chars_of(low.as_str()).as_slice(), chars_of("ul").as_slice()) {
        Some(Vec::new())
    } else {
        amchar_to_int(letters.as_str(), false)
    };
    let am = match am {
        Some(a) => a,
        None => {
            return Err(BseError::ValueError("Unknown angular momentum".to_string()));
        },
    };
    let data = lines_from(b.as_slice(), 1);
    let order: [&str; 3] = ["r_exp", "g_exp", "coeff"];
    proof {
        assert(crate::formats::strs_view(order@) =~= nw_order());
    }
    let t = parse_ecp_table(data.as_slice(), &order)?;
    let pot = BseEcpPotential {
        angular_momentum: am,
        coefficients: t.coeff,
        ecp_type: "scalar_ecp".to_string(),
        r_exponents: t.r_exp,
        gaussian_exponents: t.g_exp,
    };
    add_potential(elements, z, pot);
    Ok(())
}

fn max_am_of(ps: &Vec<BseEcpPotential>) -> (r: Option<i32>)
    ensures
        r == pots_max_am(crate::fields::pots_view(ps@)),
{
    let ghost pv = crate::fields::pots_view(ps@);
    let mut m: Option<i32> = None;
    let mut k: usize = 0;
    while k < ps.len()
        invariant
            k <= ps@.len(),
            pv == crate::fields::pots_view(ps@),
            m == pots_max_am(pv.take(k as int)),
        decreases ps.len() - k,
    {
        assert(pv.take(k + 1).drop_last() =~= pv.take(k as int));
        assert(pv.take(k + 1).last() == ps@[k as int]@);
        let a = &ps[k].angular_momentum;
        if a.len() > 0 {
            let t = max_of(a.as_slice());
            m = match m {
                None => Some(t),
                Some(x) => Some(if x >= t { x } else { t }),
            };
        }
        k = k + 1;
    }
    assert(pv.take(ps@.len() as int) =~= pv);
    m
}

fn fixed_element(e: &BseBasisElement) -> (r: BseBasisElement)
    ensures
        r@ == fix_element(e@),
{
    let mut out = e.copy();
    match &e.ecp_potentials {
        None => {},
        Some(ps) => {
            let ghost pv = crate::fields::pots_view(ps@);
            let m = max_am_of(ps);
            let local: i32 = match m {
                Some(x) => (x as i64 + 1) as i32,
                None => 1,
            };
            assert(local == local_am(pv));
            let mut fixed: Vec<BseEcpPotential> = Vec::new();
            let mut k: usize = 0;
            while k < ps.len()
                invariant
                    k <= ps@.len(),
                    pv == crate::fields::pots_view(ps@),
                    local == local_am(pv),
                    crate::fields::pots_view(fixed@) == pv.take(k as int).map_values(|p: PotentialV| fix_potential(p, local)),
                decreases ps.len() - k,
            {
                let mut p = ps[k].copy();
                if p.angular_momentum.len() == 0 {
                    p.angular_momentum = vec![local];
                    assert(p@.am =~= seq![local]);
                }
                assert(p@ == fix_potential(pv[k as int], local));
                let ghost before = crate::fields::pots_view(fixed@);
                fixed.push(p);
                assert(crate::fields::pots_view(fixed@) =~= before.push(fix_potential(pv[k as int], local)));
                assert(crate::fields::pots_view(fixed@) =~= pv.take(k + 1).map_values(|p: PotentialV| fix_potential(p, local)));
                k = k + 1;
            }
            assert(pv.take(ps@.len() as int) =~= pv);
            out.ecp_potentials = Some(fixed);
        },
    }
    out
}

/// Give each local potential its angular momentum, or a `ValueError` when
/// an element with potentials has no core electrons (see [`nw_fixup`]).
fn fixup(elements: &Vec<(i32, BseBasisElement)>) -> (r: Result<Vec<(i32, BseBasisElement)>, BseError>)
    requires
        keys_increasing(elements@),
    ensures
        match nw_fixup(elements_view(elements@)) {
            Some(w) => r matches Ok(v) && elements_view(v@) == w && keys_increasing(v@),
            None => r matches Err(e) && e is ValueError,
        },
{
    let ghost ev = elements_view(elements@);
    let mut k: usize = 0;
    while k < elements.len()
        invariant
            k <= elements@.len(),
            ev == elements_view(elements@),
            forall|j: int| 0 <= j < k ==> !((#[trigger] ev[j]).1.potentials is Some && ev[j].1.ecp_electrons is None),
        decreases elements.len() - k,
    {
        assert(ev[k as int] == (elements@[k as int].0, elements@[k as int].1@));
        if elements[k].1.ecp_potentials.is_some() && elements[k].1.ecp_electrons.is_none() {
            return Err(BseError::ValueError("Number of ECP electrons not specified for element".to_string()));
        }
        k = k + 1;
    }
    let ghost target = ev.map_values(|x: (i32, ElementV)| (x.0, fix_element(x.1)));
    let mut out: Vec<(i32, BseBasisElement)> = Vec::new();
    let mut k: usize = 0;
    while k < elements.len()
        invariant
            k <= elements@.len(),
            ev == elements_view(elements@),
            keys_increasing(elements@),
            target == ev.map_values(|x: (i32, ElementV)| (x.0, fix_element(x.1))),
            elements_view(out@) == target.take(k as int),
            forall|j: int| 0 <= j < k ==> (#[trigger] out@[j]).0 == elements@[j].0,
            out@.len() == k,
        decreases elements.len() - k,
    {
        assert(ev[k as int] == (elements@[k as int].0, elements@[k as int].1@));
        let e = fixed_element(&elements[k].1);
        let ghost before = elements_view(out@);
        out.push((elements[k].0, e));
        assert(elements_view(out@) =~= before.push(target[k as int]));
        assert(elements_view(out@) =~= target.take(k + 1));
        k = k + 1;
    }
    assert(target.take(elements@.len() as int) =~= target);
    assert forall|i: int, j: int| 0 <= i < j < out@.len() implies out@[i].0 < out@[j].0 by {
        assert(out@[i].0 == elements@[i].0 && out@[j].0 == elements@[j].0);
    }
    Ok(out)
}

fn read_ecp_section(s: &Vec<String>, elements: &mut Vec<(i32, BseBasisElement)>) -> (r: Result<(), BseError>)
    requires
        keys_increasing(old(elements)@),
    ensures
        match nw_ecp(s.deep_view(), elements_view(old(elements)@)) {
            Some(w) => r is Ok && elements_view(final(elements)@) == w && keys_increasing(final(elements)@),
            None => r matches Err(e) && e is ValueError,
        },
{
    let bl = drop_end_lines(s);
    let rest = if bl.len() == 0 {
        Vec::new()
    } else {
        lines_from(bl.as_slice(), 1)
    };
    assert(rest.deep_view() =~= after_first(bl.deep_view()));
    let flags = alpha_flag_lines(&rest);
    let blocks = partition_lines(rest.as_slice(), flags.as_slice(), 0, None, None, None, 1, true)?;
    let ghost bv = blocks.deep_view();
    let ghost v0 = elements_view(elements@);
    proof {
        assert forall|k: int| 0 <= k < bv.len() implies #[trigger] bv[k].len() >= 1 by {
            if bv[k].len() < 1 {
                assert(crate::readers::helpers::has_short_block(bv, 1));
            }
        }
    }
    let mut i: usize = 0;
    while i < blocks.len()
        invariant
            i <= blocks@.len(),
            bv == blocks.deep_view(),
            v0 == elements_view(old(elements)@),
            nw_ecp(s.deep_view(), v0) == match nw_ecp_blocks(bv, v0, bv.len() as int) {
                Some(w2) => nw_fixup(w2),
                None => None,
            },
            forall|k: int| 0 <= k < bv.len() ==> #[trigger] bv[k].len() >= 1,
            keys_increasing(elements@),
            nw_ecp_blocks(bv, v0, i as int) == Some(elements_view(elements@)),
        decreases blocks.len() - i,
    {
        assert(bv[i as int] == blocks@[i as int].deep_view());
        assert(bv[i as int].len() >= 1);
        match read_ecp_block(&blocks[i], elements) {
            Ok(()) => {},
            Err(e) => {
                proof {
                    assert(nw_ecp_blocks(bv, v0, i + 1) is None);
                    lemma_ecp_blocks_none(bv, v0, i + 1, bv.len() as int);
                }
                return Err(e);
            },
        }
        i = i + 1;
    }
    let fixed = fixup(elements)?;
    *elements = fixed;
    Ok(())
}

fn read_section(s: &Vec<String>, elements: &mut Vec<(i32, BseBasisElement)>) -> (r: Result<(), BseError>)
    requires
        keys_increasing(old(elements)@),
    ensures
        match nw_section(s.deep_view(), elements_view(old(elements)@)) {
            Some(w) => r is Ok && elements_view(final(elements)@) == w && keys_increasing(final(elements)@),
            None => r matches Err(e) && e is ValueError,
        },
{
    if s.len() == 0 {
        return Ok(());
    }
    assert(s.deep_view()[0] == s@[0]@);
    let low = chars_of(to_lowercase(s[0].as_str()).as_str());
    if crate::text::starts_with(low.as_slice(), chars_of("basis").as_slice()) {
        read_electron_section(s, elements)
    } else if crate::text::starts_with(low.as_slice(), chars_of("ecp").as_slice()) {
        read_ecp_section(s, elements)
    } else {
        Err(BseError::ValueError("Unknown section in NWChem basis".to_string()))
    }
}

/// Read a basis set in the NWChem format: its `BASIS` section's shells and
/// its `ECP` section's potentials, each added at the end of its element's
/// shells or potentials, with the core electrons of the elements; the local
/// potential (`ul`) of an element gets one more than the largest angular
/// momentum of its others. A `ValueError` comes when the text does not
/// parse (see [`nwchem_spec`]).
pub fn read_nwchem(basis_str: &str) -> (r: Result<BseBasisMinimal, BseError>)
    ensures
        match nwchem_spec(basis_str@) {
            Some(elems) => r matches Ok(b) && elements_view(b.elements@) == elems && keys_increasing(b.elements@)
                && b.function_types.deep_view() == sort_distinct_strs(shell_types(elems))
                && b.name@ == reader_name(None) && b.description@ == "no_description"@
                && b.molssi_bse_schema.schema_type@ == "minimal"@ && b.molssi_bse_schema.schema_version@ == "0.1"@,
            None => r matches Err(e) && e is ValueError,
        },
{
    let raw = trimmed_lines(basis_str);
    let lines = prune_lines(raw.as_slice(), "#", true, false);
    let ghost lv = lines.deep_view();
    let mut flags: Vec<bool> = Vec::new();
    let end = chars_of("end");
    let mut q: usize = 0;
    while q < lines.len()
        invariant
            q <= lines@.len(),
            lv == lines.deep_view(),
            end@ == "end"@,
            flags@ == end_flags(lv).take(q as int),
        decreases lines.len() - q,
    {
        assert(lv[q as int] == lines@[q as int]@);
        let low = to_lowercase(lines[q].as_str());
        flags.push(crate::text::chars_eq(chars_of(low.as_str()).as_slice(), end.as_slice()));
        assert(flags@ =~= end_flags(lv).take(q + 1));
        q = q + 1;
    }
    assert(end_flags(lv).take(lines@.len() as int) =~= end_flags(lv));
    let secs = partition_lines(lines.as_slice(), flags.as_slice(), 0, None, Some(1), Some(2), 1, false)?;
    let ghost sv = secs.deep_view();
    let mut elements: Vec<(i32, BseBasisElement)> = Vec::new();
    proof {
        assert(elements_view(elements@) =~= Seq::<(i32, ElementV)>::empty());
        assert(nwchem_spec(basis_str@) == nw_sections(sv, sv.len() as int));
    }
    let mut i: usize = 0;
    while i < secs.len()
        invariant
            i <= secs@.len(),
            sv == secs.deep_view(),
            nwchem_spec(basis_str@) == nw_sections(sv, sv.len() as int),
            keys_increasing(elements@),
            nw_sections(sv, i as int) == Some(elements_view(elements@)),
        decreases secs.len() - i,
    {
        assert(sv[i as int] == secs@[i as int].deep_view());
        match read_section(&secs[i], &mut elements) {
            Ok(()) => {},
            Err(e) => {
                proof {
                    assert(nw_sections(sv, i + 1) is None);
                    lemma_sections_none(sv, i + 1, sv.len() as int);
                }
                return Err(e);
            },
        }
        i = i + 1;
    }
    Ok(reader_basis(elements, None))
}

/* #endregion */

} // verus!
